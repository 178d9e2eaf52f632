//! Verified string helpers: equality, prefix/suffix tests, lexicographic
//! ordering, stable sorting and deduplication of string vectors, and decimal
//! rendering of unsigned integers.

use vstd::prelude::*;
use vstd::string::*;

verus! {

/// `s` ends with the suffix `suf`.
pub open spec fn ends_with_spec(s: Seq<char>, suf: Seq<char>) -> bool {
    s.len() >= suf.len() && s.subrange(s.len() - suf.len(), s.len() as int) == suf
}

/// `s` starts with the prefix `pre`.
pub open spec fn starts_with_spec(s: Seq<char>, pre: Seq<char>) -> bool {
    s.len() >= pre.len() && s.subrange(0, pre.len() as int) == pre
}

/// Character-for-character string equality.
pub fn str_eq(a: &str, b: &str) -> (r: bool)
    ensures
        r == (a@ == b@),
{
    let alen = a.unicode_len();
    let blen = b.unicode_len();
    if alen != blen {
        assert(a@ != b@);
        return false;
    }
    let mut i: usize = 0;
    while i < alen
        invariant
            i <= alen,
            alen == a@.len(),
            alen == b@.len(),
            forall|j: int| 0 <= j < i ==> a@[j] == b@[j],
        decreases alen - i,
    {
        if a.get_char(i) != b.get_char(i) {
            return false;
        }
        i = i + 1;
    }
    proof {
        assert(a@ =~= b@);
    }
    true
}

pub fn str_ends_with(s: &str, suf: &str) -> (r: bool)
    ensures
        r == ends_with_spec(s@, suf@),
{
    let slen = s.unicode_len();
    let suflen = suf.unicode_len();
    if slen < suflen {
        return false;
    }
    let tail = s.substring_char(slen - suflen, slen);
    str_eq(tail, suf)
}

pub fn str_starts_with(s: &str, pre: &str) -> (r: bool)
    ensures
        r == starts_with_spec(s@, pre@),
{
    let slen = s.unicode_len();
    let prelen = pre.unicode_len();
    if slen < prelen {
        return false;
    }
    let head = s.substring_char(0, prelen);
    str_eq(head, pre)
}

/// Lexicographic order on character sequences, by code point.
pub open spec fn lex_le(a: Seq<char>, b: Seq<char>) -> bool
    decreases a.len(),
{
    if a.len() == 0 {
        true
    } else if b.len() == 0 {
        false
    } else if (a[0] as u32) < (b[0] as u32) {
        true
    } else if (a[0] as u32) > (b[0] as u32) {
        false
    } else {
        lex_le(a.skip(1), b.skip(1))
    }
}

/// When the first `i` characters agree, the order is decided by the rest.
proof fn lemma_lex_le_common_prefix(a: Seq<char>, b: Seq<char>, i: int)
    requires
        0 <= i <= a.len(),
        i <= b.len(),
        forall|j: int| 0 <= j < i ==> a[j] == b[j],
    ensures
        lex_le(a, b) == lex_le(a.skip(i), b.skip(i)),
    decreases i,
{
    if i > 0 {
        assert(a.len() > 0 && b.len() > 0);
        assert(a[0] == b[0]);
        assert(lex_le(a, b) == lex_le(a.skip(1), b.skip(1)));
        assert(forall|j: int| 0 <= j < i - 1 ==> a.skip(1)[j] == b.skip(1)[j]);
        lemma_lex_le_common_prefix(a.skip(1), b.skip(1), i - 1);
        assert(a.skip(1).skip(i - 1) =~= a.skip(i));
        assert(b.skip(1).skip(i - 1) =~= b.skip(i));
    } else {
        assert(a.skip(0) =~= a);
        assert(b.skip(0) =~= b);
    }
}

pub fn str_lex_le(a: &str, b: &str) -> (r: bool)
    ensures
        r == lex_le(a@, b@),
{
    let alen = a.unicode_len();
    let blen = b.unicode_len();
    let mut i: usize = 0;
    loop
        invariant
            i <= alen,
            i <= blen,
            alen == a@.len(),
            blen == b@.len(),
            forall|j: int| 0 <= j < i ==> a@[j] == b@[j],
        decreases alen - i,
    {
        proof {
            lemma_lex_le_common_prefix(a@, b@, i as int);
        }
        if i >= alen {
            return true;
        }
        if i >= blen {
            return false;
        }
        let ca = a.get_char(i);
        let cb = b.get_char(i);
        if (ca as u32) < (cb as u32) {
            return true;
        }
        if (ca as u32) > (cb as u32) {
            return false;
        }
        i = i + 1;
    }
}

pub proof fn lemma_lex_le_refl(a: Seq<char>)
    ensures
        lex_le(a, a),
    decreases a.len(),
{
    if a.len() > 0 {
        lemma_lex_le_refl(a.skip(1));
    }
}

pub proof fn lemma_lex_le_total(a: Seq<char>, b: Seq<char>)
    ensures
        lex_le(a, b) || lex_le(b, a),
    decreases a.len(),
{
    if a.len() > 0 && b.len() > 0 && (a[0] as u32) == (b[0] as u32) {
        lemma_lex_le_total(a.skip(1), b.skip(1));
    }
}

pub proof fn lemma_lex_le_antisym(a: Seq<char>, b: Seq<char>)
    requires
        lex_le(a, b),
        lex_le(b, a),
    ensures
        a == b,
    decreases a.len(),
{
    if a.len() == 0 {
        assert(b.len() == 0);
        assert(a =~= b);
    } else {
        assert(b.len() > 0);
        assert((a[0] as u32) == (b[0] as u32));
        vstd::utf8::char_u32_cast(a[0], (a[0] as u32));
        vstd::utf8::char_u32_cast(b[0], (b[0] as u32));
        assert(a[0] == b[0]);
        lemma_lex_le_antisym(a.skip(1), b.skip(1));
        assert(a.skip(1).len() == b.skip(1).len());
        assert forall|i: int| 0 <= i < a.len() implies a[i] == b[i] by {
            if i > 0 {
                assert(a[i] == a.skip(1)[i - 1]);
                assert(b[i] == b.skip(1)[i - 1]);
            }
        }
        assert(a =~= b);
    }
}

pub proof fn lemma_lex_le_trans(a: Seq<char>, b: Seq<char>, c: Seq<char>)
    requires
        lex_le(a, b),
        lex_le(b, c),
    ensures
        lex_le(a, c),
    decreases a.len(),
{
    if a.len() > 0 && b.len() > 0 && c.len() > 0 && (a[0] as u32) == (b[0] as u32) && (b[0] as u32)
        == (c[0] as u32) {
        lemma_lex_le_trans(a.skip(1), b.skip(1), c.skip(1));
    }
}

/// Inserts `x` into `s` after every element that is `lex_le` to it, keeping
/// already-inserted elements in place (a stable insertion).
pub open spec fn spec_insert_sorted(s: Seq<Seq<char>>, x: Seq<char>) -> Seq<Seq<char>>
    decreases s.len(),
{
    if s.len() == 0 {
        seq![x]
    } else if lex_le(s[0], x) {
        seq![s[0]] + spec_insert_sorted(s.skip(1), x)
    } else {
        seq![x] + s
    }
}

/// Stable insertion sort by `lex_le`.
pub open spec fn spec_sort_strs(s: Seq<Seq<char>>) -> Seq<Seq<char>>
    decreases s.len(),
{
    if s.len() == 0 {
        Seq::empty()
    } else {
        spec_insert_sorted(spec_sort_strs(s.drop_last()), s.last())
    }
}

/// Inserting at the first position whose element is not `lex_le x` matches
/// the recursive insertion.
proof fn lemma_insert_sorted_at(s: Seq<Seq<char>>, x: Seq<char>, i: int)
    requires
        0 <= i <= s.len(),
        forall|j: int| 0 <= j < i ==> lex_le(#[trigger] s[j], x),
        i < s.len() ==> !lex_le(s[i], x),
    ensures
        spec_insert_sorted(s, x) == s.subrange(0, i) + seq![x] + s.subrange(i, s.len() as int),
    decreases s.len(),
{
    if s.len() == 0 {
        assert(spec_insert_sorted(s, x) =~= s.subrange(0, i) + seq![x] + s.subrange(
            i,
            s.len() as int,
        ));
    } else if i == 0 {
        assert(!lex_le(s[0], x));
        assert(spec_insert_sorted(s, x) =~= s.subrange(0, 0) + seq![x] + s.subrange(
            0,
            s.len() as int,
        ));
    } else {
        assert(lex_le(s[0], x));
        lemma_insert_sorted_at(s.skip(1), x, i - 1);
        assert(spec_insert_sorted(s, x) =~= seq![s[0]] + (s.skip(1).subrange(0, i - 1) + seq![x]
            + s.skip(1).subrange(i - 1, s.len() - 1)));
        assert(seq![s[0]] + (s.skip(1).subrange(0, i - 1) + seq![x] + s.skip(1).subrange(
            i - 1,
            s.len() - 1,
        )) =~= s.subrange(0, i) + seq![x] + s.subrange(i, s.len() as int));
    }
}

/// Sorts a vector of strings lexicographically with a stable insertion sort.
pub fn sort_strings(v: &Vec<String>) -> (r: Vec<String>)
    ensures
        r.deep_view() == spec_sort_strs(v.deep_view()),
{
    let mut r: Vec<String> = Vec::new();
    let mut n: usize = 0;
    while n < v.len()
        invariant
            n <= v.len(),
            r.deep_view() == spec_sort_strs(v.deep_view().subrange(0, n as int)),
        decreases v.len() - n,
    {
        let x = v[n].clone();
        let mut i: usize = 0;
        loop
            invariant
                i <= r.len(),
                forall|j: int| 0 <= j < i ==> lex_le(#[trigger] r.deep_view()[j], x@),
            ensures
                i <= r.len(),
                forall|j: int| 0 <= j < i ==> lex_le(#[trigger] r.deep_view()[j], x@),
                i < r.len() ==> !lex_le(r.deep_view()[i as int], x@),
            decreases r.len() - i,
        {
            if i >= r.len() {
                break;
            }
            if !str_lex_le(r[i].as_str(), x.as_str()) {
                break;
            }
            i = i + 1;
        }
        proof {
            lemma_insert_sorted_at(r.deep_view(), x@, i as int);
        }
        let ghost old_r = r.deep_view();
        r.insert(i, x);
        proof {
            assert(r.deep_view() =~= old_r.subrange(0, i as int) + seq![v.deep_view()[n as int]]
                + old_r.subrange(i as int, old_r.len() as int));
            assert(v.deep_view().subrange(0, n + 1).drop_last() =~= v.deep_view().subrange(
                0,
                n as int,
            ));
            assert(v.deep_view().subrange(0, n + 1).last() == v.deep_view()[n as int]);
        }
        n = n + 1;
    }
    proof {
        assert(v.deep_view().subrange(0, v.deep_view().len() as int) =~= v.deep_view());
    }
    r
}

/// Every element is in non-decreasing lexicographic order.
pub open spec fn sorted_strs(s: Seq<Seq<char>>) -> bool {
    forall|i: int, j: int| 0 <= i < j < s.len() ==> lex_le(#[trigger] s[i], #[trigger] s[j])
}

/// An element of a stable insertion is the inserted string or one of the
/// strings inserted into.
proof fn lemma_insert_sorted_membership(s: Seq<Seq<char>>, x: Seq<char>, i: int)
    requires
        0 <= i < spec_insert_sorted(s, x).len(),
    ensures
        spec_insert_sorted(s, x)[i] == x || s.contains(spec_insert_sorted(s, x)[i]),
    decreases s.len(),
{
    let r = spec_insert_sorted(s, x);
    if s.len() == 0 {
    } else if lex_le(s[0], x) {
        if i == 0 {
            assert(s.contains(s[0]));
        } else {
            lemma_insert_sorted_membership(s.skip(1), x, i - 1);
            if s.skip(1).contains(r[i]) {
                let w = choose|w: int| 0 <= w < s.skip(1).len() && s.skip(1)[w] == r[i];
                assert(s[w + 1] == r[i]);
            }
        }
    } else {
        if i > 0 {
            assert(s.contains(s[i - 1]));
        }
    }
}

/// A stable insertion into a sorted sequence leaves it sorted.
proof fn lemma_insert_sorted_keeps_sorted(s: Seq<Seq<char>>, x: Seq<char>)
    requires
        sorted_strs(s),
    ensures
        sorted_strs(spec_insert_sorted(s, x)),
    decreases s.len(),
{
    let r = spec_insert_sorted(s, x);
    if s.len() == 0 {
    } else if lex_le(s[0], x) {
        assert forall|i: int, j: int|
            0 <= i < j < s.skip(1).len() implies lex_le(
            #[trigger] s.skip(1)[i],
            #[trigger] s.skip(1)[j],
        ) by {
            assert(s.skip(1)[i] == s[i + 1] && s.skip(1)[j] == s[j + 1]);
        }
        lemma_insert_sorted_keeps_sorted(s.skip(1), x);
        let rs = spec_insert_sorted(s.skip(1), x);
        assert forall|i: int, j: int| 0 <= i < j < r.len() implies lex_le(
            #[trigger] r[i],
            #[trigger] r[j],
        ) by {
            if i == 0 {
                assert(r[j] == rs[j - 1]);
                lemma_insert_sorted_membership(s.skip(1), x, j - 1);
                if rs[j - 1] == x {
                    assert(lex_le(s[0], x));
                } else {
                    let w = choose|w: int| 0 <= w < s.skip(1).len() && s.skip(1)[w] == rs[j - 1];
                    assert(s.skip(1)[w] == s[w + 1]);
                    assert(lex_le(s[0], s[w + 1]));
                }
            } else {
                assert(r[i] == rs[i - 1] && r[j] == rs[j - 1]);
            }
        }
    } else {
        lemma_lex_le_total(s[0], x);
        assert(lex_le(x, s[0]));
        assert forall|i: int, j: int| 0 <= i < j < r.len() implies lex_le(
            #[trigger] r[i],
            #[trigger] r[j],
        ) by {
            if i == 0 {
                assert(r[j] == s[j - 1]);
                if j - 1 > 0 {
                    lemma_lex_le_trans(x, s[0], s[j - 1]);
                }
            } else {
                assert(r[i] == s[i - 1] && r[j] == s[j - 1]);
            }
        }
    }
}

/// The stable insertion sort sorts: its result is in lexicographic order.
pub proof fn lemma_sort_strs_sorted(s: Seq<Seq<char>>)
    ensures
        sorted_strs(spec_sort_strs(s)),
    decreases s.len(),
{
    if s.len() > 0 {
        lemma_sort_strs_sorted(s.drop_last());
        lemma_insert_sorted_keeps_sorted(spec_sort_strs(s.drop_last()), s.last());
    }
}

/// Appends `x` unless it is already present: the update rule for an
/// insertion-ordered set of strings.
pub open spec fn spec_add_unique(s: Seq<Seq<char>>, x: Seq<char>) -> Seq<Seq<char>> {
    if s.contains(x) {
        s
    } else {
        s.push(x)
    }
}

pub fn contains_str(v: &Vec<String>, x: &str) -> (r: bool)
    ensures
        r == v.deep_view().contains(x@),
{
    let mut i: usize = 0;
    while i < v.len()
        invariant
            i <= v.len(),
            forall|j: int| 0 <= j < i ==> v.deep_view()[j] != x@,
        decreases v.len() - i,
    {
        if str_eq(v[i].as_str(), x) {
            assert(v.deep_view()[i as int] == x@);
            return true;
        }
        i = i + 1;
    }
    assert(forall|j: int| 0 <= j < v.deep_view().len() ==> v.deep_view()[j] != x@);
    false
}

/// Inserts a string into an insertion-ordered set, idempotently.
pub fn add_unique(v: &mut Vec<String>, x: String)
    ensures
        final(v).deep_view() == spec_add_unique(old(v).deep_view(), x@),
{
    if !contains_str(v, x.as_str()) {
        v.push(x);
        assert(v.deep_view() =~= old(v).deep_view().push(x@));
    }
}

/// The pattern `pat` occurs in `s` at position `i`.
pub open spec fn is_match_at(s: Seq<char>, pat: Seq<char>, i: int) -> bool {
    0 <= i && i + pat.len() <= s.len() && s.subrange(i, i + pat.len()) == pat
}

/// The last position before `k` at which `pat` occurs in `s`, if any.
pub open spec fn spec_last_match_before(s: Seq<char>, pat: Seq<char>, k: int) -> Option<int>
    decreases k,
{
    if k <= 0 {
        None
    } else if is_match_at(s, pat, k - 1) {
        Some(k - 1)
    } else {
        spec_last_match_before(s, pat, k - 1)
    }
}

/// The last position at which `pat` occurs in `s`, if any.
pub open spec fn spec_last_match(s: Seq<char>, pat: Seq<char>) -> Option<int> {
    spec_last_match_before(s, pat, s.len() - pat.len() + 1)
}

fn match_at(s: &str, pat: &str, i: usize) -> (r: bool)
    requires
        i <= s@.len(),
    ensures
        r == is_match_at(s@, pat@, i as int),
{
    let slen = s.unicode_len();
    let patlen = pat.unicode_len();
    if patlen > slen - i {
        return false;
    }
    let sub = s.substring_char(i, i + patlen);
    str_eq(sub, pat)
}

/// Finds the last occurrence of `pat` in `s`.
#[verifier::loop_isolation(false)]
pub fn find_last_match(s: &str, pat: &str) -> (r: Option<usize>)
    ensures
        match r {
            Some(p) => spec_last_match(s@, pat@) == Some(p as int),
            None => spec_last_match(s@, pat@) is None,
        },
{
    let slen = s.unicode_len();
    let patlen = pat.unicode_len();
    if patlen == 0 {
        proof {
            assert(s@.subrange(slen as int, slen as int) =~= pat@);
            assert(is_match_at(s@, pat@, slen as int));
        }
        return Some(slen);
    }
    let mut k: usize = if slen >= patlen {
        slen - patlen + 1
    } else {
        0
    };
    while k > 0
        invariant
            k <= s@.len(),
            spec_last_match(s@, pat@) == spec_last_match_before(s@, pat@, k as int),
        decreases k,
    {
        if match_at(s, pat, k - 1) {
            return Some(k - 1);
        }
        k = k - 1;
    }
    None
}

/// A position reported by [`spec_last_match_before`] carries a match.
pub proof fn lemma_last_match_is_match(s: Seq<char>, pat: Seq<char>, k: int)
    ensures
        match spec_last_match_before(s, pat, k) {
            Some(p) => is_match_at(s, pat, p),
            None => true,
        },
    decreases k,
{
    if k > 0 && !is_match_at(s, pat, k - 1) {
        lemma_last_match_is_match(s, pat, k - 1);
    }
}

/// The first position at or after `from` holding `c`, or the length of `s`
/// when there is none.
pub open spec fn find_from(s: Seq<char>, c: char, from: int) -> int
    decreases s.len() - from,
{
    if from < 0 || from >= s.len() {
        s.len() as int
    } else if s[from] == c {
        from
    } else {
        find_from(s, c, from + 1)
    }
}

pub proof fn lemma_find_from_bounds(s: Seq<char>, c: char, from: int)
    requires
        0 <= from <= s.len(),
    ensures
        from <= find_from(s, c, from) <= s.len(),
        find_from(s, c, from) < s.len() ==> s[find_from(s, c, from)] == c,
    decreases s.len() - from,
{
    if from < s.len() && s[from] != c {
        lemma_find_from_bounds(s, c, from + 1);
    }
}

/// Finds the first occurrence of `c` at or after `from`.
#[verifier::loop_isolation(false)]
pub fn find_char_from(s: &str, c: char, from: usize) -> (r: usize)
    requires
        from <= s@.len(),
    ensures
        r == find_from(s@, c, from as int),
        from <= r <= s@.len(),
{
    let len = s.unicode_len();
    let mut b: usize = from;
    while b < len && s.get_char(b) != c
        invariant
            from <= b <= len,
            find_from(s@, c, from as int) == find_from(s@, c, b as int),
        decreases len - b,
    {
        b = b + 1;
    }
    b
}

/// A white space character, as Unicode defines the White_Space property.
pub open spec fn is_space(c: char) -> bool {
    let u = c as u32;
    (9 <= u <= 13) || u == 32 || u == 133 || u == 160 || u == 0x1680 || (0x2000 <= u <= 0x200a)
        || u == 0x2028 || u == 0x2029 || u == 0x202f || u == 0x205f || u == 0x3000
}

pub fn is_space_char(c: char) -> (r: bool)
    ensures
        r == is_space(c),
{
    let u = c as u32;
    (9 <= u && u <= 13) || u == 32 || u == 133 || u == 160 || u == 0x1680 || (0x2000 <= u && u
        <= 0x200a) || u == 0x2028 || u == 0x2029 || u == 0x202f || u == 0x205f || u == 0x3000
}

/// The first position at or after `from` holding something other than white
/// space, or the length of `s` when there is none.
pub open spec fn skip_ws(s: Seq<char>, from: int) -> int
    decreases s.len() - from,
{
    if from < 0 || from >= s.len() {
        s.len() as int
    } else if is_space(s[from]) {
        skip_ws(s, from + 1)
    } else {
        from
    }
}

pub proof fn lemma_skip_ws_bounds(s: Seq<char>, from: int)
    requires
        0 <= from <= s.len(),
    ensures
        from <= skip_ws(s, from) <= s.len(),
    decreases s.len() - from,
{
    if from < s.len() && is_space(s[from]) {
        lemma_skip_ws_bounds(s, from + 1);
    }
}

/// Finds the first non-white-space position at or after `from`.
#[verifier::loop_isolation(false)]
pub fn skip_ws_from(s: &str, from: usize) -> (r: usize)
    requires
        from <= s@.len(),
    ensures
        r == skip_ws(s@, from as int),
        from <= r <= s@.len(),
{
    let len = s.unicode_len();
    let mut b: usize = from;
    while b < len && is_space_char(s.get_char(b))
        invariant
            from <= b <= len,
            skip_ws(s@, from as int) == skip_ws(s@, b as int),
        decreases len - b,
    {
        b = b + 1;
    }
    b
}

/// `pat` occurs somewhere in `s`.
pub open spec fn contains_sub(s: Seq<char>, pat: Seq<char>) -> bool {
    spec_last_match(s, pat) is Some
}

/// Tests whether `pat` occurs somewhere in `s`.
pub fn str_contains(s: &str, pat: &str) -> (r: bool)
    ensures
        r == contains_sub(s@, pat@),
{
    match find_last_match(s, pat) {
        Some(_) => true,
        None => false,
    }
}

/// `s` with every occurrence of `pat` removed, scanning left to right.
pub open spec fn spec_remove_all(s: Seq<char>, pat: Seq<char>) -> Seq<char>
    decreases s.len(),
    when pat.len() > 0
{
    if s.len() == 0 {
        s
    } else if is_match_at(s, pat, 0) {
        spec_remove_all(s.skip(pat.len() as int), pat)
    } else {
        seq![s[0]] + spec_remove_all(s.skip(1), pat)
    }
}

/// Removes every occurrence of `pat` from `s`.
#[verifier::loop_isolation(false)]
pub fn remove_all(s: &str, pat: &str) -> (r: String)
    requires
        pat@.len() > 0,
    ensures
        r@ == spec_remove_all(s@, pat@),
{
    let len = s.unicode_len();
    let patlen = pat.unicode_len();
    let mut out = String::new();
    let mut run_start: usize = 0;
    let mut i: usize = 0;
    proof {
        assert(s@.skip(0) =~= s@);
        assert(out@ + s@.subrange(0, 0) + spec_remove_all(s@, pat@) =~= spec_remove_all(s@, pat@));
    }
    while i < len
        invariant
            run_start <= i <= len,
            spec_remove_all(s@, pat@) == out@ + s@.subrange(run_start as int, i as int)
                + spec_remove_all(s@.skip(i as int), pat@),
        decreases len - i,
    {
        if match_at(s, pat, i) {
            let run = s.substring_char(run_start, i);
            out.append(run);
            proof {
                assert(s@.skip(i as int).subrange(0, pat@.len() as int) =~= s@.subrange(
                    i as int,
                    i + pat@.len(),
                ));
                assert(is_match_at(s@.skip(i as int), pat@, 0));
                assert(s@.skip(i as int).skip(pat@.len() as int) =~= s@.skip(i + pat@.len()));
            }
            i = i + patlen;
            run_start = i;
        } else {
            proof {
                assert(s@.skip(i as int).len() > 0);
                if is_match_at(s@.skip(i as int), pat@, 0) {
                    assert(s@.skip(i as int).subrange(0, pat@.len() as int) =~= s@.subrange(
                        i as int,
                        i + pat@.len(),
                    ));
                    assert(is_match_at(s@, pat@, i as int));
                }
                assert(s@.skip(i as int)[0] == s@[i as int]);
                assert(s@.skip(i as int).skip(1) =~= s@.skip(i + 1));
                assert(out@ + s@.subrange(run_start as int, i + 1) =~= out@ + s@.subrange(
                    run_start as int,
                    i as int,
                ) + seq![s@[i as int]]);
            }
            i = i + 1;
        }
    }
    let run = s.substring_char(run_start, len);
    out.append(run);
    proof {
        assert(s@.skip(len as int) =~= Seq::<char>::empty());
        assert(out@ =~= spec_remove_all(s@, pat@));
    }
    out
}

/// What one character contributes to a collapsed description: carriage
/// returns vanish and line feeds become spaces.
pub open spec fn collapse_char(c: char) -> Seq<char> {
    if c == '\r' {
        Seq::empty()
    } else if c == '\n' {
        seq![' ']
    } else {
        seq![c]
    }
}

/// A description with internal line breaks collapsed to spaces.
pub open spec fn spec_collapse(s: Seq<char>) -> Seq<char>
    decreases s.len(),
{
    if s.len() == 0 {
        Seq::empty()
    } else {
        spec_collapse(s.drop_last()) + collapse_char(s.last())
    }
}

/// One past the last non-white-space position, or zero when there is none.
pub open spec fn trim_end_idx(s: Seq<char>) -> int
    decreases s.len(),
{
    if s.len() == 0 {
        0
    } else if is_space(s.last()) {
        trim_end_idx(s.drop_last())
    } else {
        s.len() as int
    }
}

pub proof fn lemma_trim_end_bounds(s: Seq<char>)
    ensures
        0 <= trim_end_idx(s) <= s.len(),
        trim_end_idx(s) > 0 ==> !is_space(s[trim_end_idx(s) - 1]),
    decreases s.len(),
{
    if s.len() > 0 && is_space(s.last()) {
        lemma_trim_end_bounds(s.drop_last());
    }
}

/// `s` without leading and trailing white space.
pub open spec fn spec_trim(s: Seq<char>) -> Seq<char> {
    if skip_ws(s, 0) >= trim_end_idx(s) {
        Seq::empty()
    } else {
        s.subrange(skip_ws(s, 0), trim_end_idx(s))
    }
}

/// A description cleaned for emission: line breaks collapsed, then trimmed.
pub open spec fn spec_clean_desc(s: Seq<char>) -> Seq<char> {
    spec_trim(spec_collapse(s))
}

/// Collapses internal line breaks to spaces and trims the ends.
#[verifier::loop_isolation(false)]
pub fn clean_description(s: &str) -> (r: String)
    ensures
        r@ == spec_clean_desc(s@),
{
    let len = s.unicode_len();
    let mut out = String::new();
    let mut run_start: usize = 0;
    let mut i: usize = 0;
    while i < len
        invariant
            run_start <= i <= len,
            out@ + s@.subrange(run_start as int, i as int) == spec_collapse(s@.take(i as int)),
            forall|j: int| run_start <= j < i ==> s@[j] != '\r' && s@[j] != '\n',
        decreases len - i,
    {
        let c = s.get_char(i);
        proof {
            assert(s@.take(i + 1).drop_last() =~= s@.take(i as int));
        }
        if c == '\r' || c == '\n' {
            let run = s.substring_char(run_start, i);
            out.append(run);
            if c == '\n' {
                out.append(" ");
                proof {
                    reveal_strlit(" ");
                }
            }
            run_start = i + 1;
            proof {
                assert(out@ + s@.subrange(run_start as int, i + 1) =~= spec_collapse(
                    s@.take(i + 1),
                ));
            }
        } else {
            proof {
                assert(out@ + s@.subrange(run_start as int, i + 1) =~= spec_collapse(
                    s@.take(i + 1),
                ));
            }
        }
        i = i + 1;
    }
    let run = s.substring_char(run_start, len);
    out.append(run);
    proof {
        assert(s@.take(len as int) =~= s@);
        assert(out@ =~= spec_collapse(s@));
    }
    // trim both ends
    let olen = out.unicode_len();
    let start = skip_ws_from(out.as_str(), 0);
    let mut e: usize = olen;
    proof {
        lemma_trim_end_bounds(out@);
        assert(out@.take(olen as int) =~= out@);
    }
    while e > start && is_space_char(out.as_str().get_char(e - 1))
        invariant
            start <= e <= olen,
            trim_end_idx(out@) == trim_end_idx(out@.take(e as int)),
        decreases e,
    {
        proof {
            assert(out@.take(e as int).drop_last() =~= out@.take(e - 1));
        }
        e = e - 1;
    }
    proof {
        assert(out@.take(olen as int) =~= out@);
        if e > start {
            assert(trim_end_idx(out@.take(e as int)) == e);
        }
    }
    if e <= start {
        proof {
            lemma_trim_end_bounds(out@.take(e as int));
            assert(trim_end_idx(out@) <= e);
            assert(skip_ws(out@, 0) >= trim_end_idx(out@));
        }
        String::new()
    } else {
        let r = out.as_str().substring_char(start, e).to_owned();
        proof {
            assert(r@ =~= spec_trim(out@));
        }
        r
    }
}

/// The digit character for one decimal digit.
pub open spec fn digit_char(d: nat) -> char {
    if d == 0 {
        '0'
    } else if d == 1 {
        '1'
    } else if d == 2 {
        '2'
    } else if d == 3 {
        '3'
    } else if d == 4 {
        '4'
    } else if d == 5 {
        '5'
    } else if d == 6 {
        '6'
    } else if d == 7 {
        '7'
    } else if d == 8 {
        '8'
    } else {
        '9'
    }
}

/// The usual decimal rendering of `n`, most significant digit first.
pub open spec fn spec_u64_str(n: nat) -> Seq<char>
    decreases n,
{
    if n < 10 {
        seq![digit_char(n)]
    } else {
        spec_u64_str(n / 10).push(digit_char(n % 10))
    }
}

fn digit_str(d: u64) -> (r: &'static str)
    requires
        d < 10,
    ensures
        r@ == seq![digit_char(d as nat)],
{
    let r: &'static str = if d == 0 {
        "0"
    } else if d == 1 {
        "1"
    } else if d == 2 {
        "2"
    } else if d == 3 {
        "3"
    } else if d == 4 {
        "4"
    } else if d == 5 {
        "5"
    } else if d == 6 {
        "6"
    } else if d == 7 {
        "7"
    } else if d == 8 {
        "8"
    } else {
        "9"
    };
    proof {
        reveal_strlit("0");
        reveal_strlit("1");
        reveal_strlit("2");
        reveal_strlit("3");
        reveal_strlit("4");
        reveal_strlit("5");
        reveal_strlit("6");
        reveal_strlit("7");
        reveal_strlit("8");
        reveal_strlit("9");
        assert(r@ =~= seq![digit_char(d as nat)]);
    }
    r
}

/// Renders `n` in decimal.
pub fn u64_to_string(n: u64) -> (r: String)
    ensures
        r@ == spec_u64_str(n as nat),
    decreases n,
{
    if n < 10 {
        digit_str(n).to_owned()
    } else {
        let high = u64_to_string(n / 10);
        let r = high.concat(digit_str(n % 10));
        proof {
            assert(r@ =~= spec_u64_str(n as nat / 10).push(digit_char(n as nat % 10)));
        }
        r
    }
}

} // verus!
