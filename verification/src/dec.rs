//! Plain fixed-point decimal numbers.
//!
//! JSON schema documents state numeric bounds such as `0.5` or `99`. A bound
//! is held as a sign, an unsigned magnitude and a decimal scale: the value is
//! `(-1)^neg * mag / 10^scale`. The representation is kept normalized (no
//! trailing fractional zeros, and zero itself is unsigned with scale zero) so
//! that equal numbers have equal representations and rendering is canonical.
//!
//! Only the plain decimal grammar is read: a number whose printed form uses
//! exponent notation, or whose digits exceed a `u64` magnitude or a `u32`
//! scale, has no representation here, and the schema reader treats such a
//! bound as absent.

use vstd::prelude::*;
use vstd::string::*;
use crate::strutil::{spec_u64_str, u64_to_string};

verus! {

/// A fixed-point decimal: `(-1)^neg * mag / 10^scale`.
#[derive(Clone, Copy, Debug, PartialEq, Eq, Structural)]
pub struct DecNum {
    pub neg: bool,
    pub mag: u64,
    pub scale: u32,
}

impl DecNum {
    /// The representation is normalized.
    pub open spec fn wf(self) -> bool {
        (self.scale == 0 || self.mag % 10 != 0) && (self.mag != 0 || (!self.neg && self.scale
            == 0))
    }
}

pub open spec fn is_digit(c: char) -> bool {
    48 <= (c as u32) <= 57
}

pub open spec fn digit_val(c: char) -> nat {
    ((c as u32) - 48) as nat
}

pub open spec fn all_digits(s: Seq<char>) -> bool {
    forall|i: int| 0 <= i < s.len() ==> is_digit(#[trigger] s[i])
}

/// The number written by a sequence of decimal digits, most significant first.
pub open spec fn digits_val(s: Seq<char>) -> nat
    decreases s.len(),
{
    if s.len() == 0 {
        0
    } else {
        digits_val(s.drop_last()) * 10 + digit_val(s.last())
    }
}

/// A longer digit prefix never writes a smaller number.
pub proof fn lemma_digits_val_take_le(s: Seq<char>, i: int, j: int)
    requires
        0 <= i <= j <= s.len(),
    ensures
        digits_val(s.take(i)) <= digits_val(s.take(j)),
    decreases j - i,
{
    if i < j {
        lemma_digits_val_take_le(s, i, j - 1);
        assert(s.take(j).drop_last() =~= s.take(j - 1));
        assert(digits_val(s.take(j)) == digits_val(s.take(j - 1)) * 10 + digit_val(s.take(
            j,
        ).last()));
    }
}

/// Strips trailing fractional zeros and gives zero its canonical form.
pub open spec fn spec_normalize(neg: bool, mag: nat, scale: nat) -> DecNum
    decreases scale,
{
    if mag == 0 {
        DecNum { neg: false, mag: 0, scale: 0 }
    } else if scale > 0 && mag % 10 == 0 {
        spec_normalize(neg, mag / 10, (scale - 1) as nat)
    } else {
        DecNum { neg, mag: mag as u64, scale: scale as u32 }
    }
}

/// The decimal grammar: an optional minus sign, at least one integer digit,
/// then optionally a point followed by at least one fractional digit; the
/// written magnitude must fit in a `u64` and the scale in a `u32`.
pub open spec fn spec_dec_grammar_ok(s: Seq<char>) -> bool {
    let body = if s.len() > 0 && s[0] == '-' {
        s.skip(1)
    } else {
        s
    };
    let dot = spec_find_dot(body);
    let int_part = body.take(dot);
    let frac_part = body.skip(dot + 1);
    if dot == body.len() {
        body.len() > 0 && all_digits(body) && digits_val(body) <= u64::MAX
    } else {
        int_part.len() > 0 && frac_part.len() > 0 && all_digits(int_part) && all_digits(frac_part)
            && digits_val(int_part + frac_part) <= u64::MAX && frac_part.len() <= u32::MAX
    }
}

/// The first position of `'.'`, or the length when there is none.
pub open spec fn spec_find_dot(s: Seq<char>) -> int
    decreases s.len(),
{
    if s.len() == 0 {
        0
    } else if s[0] == '.' {
        0
    } else {
        1 + spec_find_dot(s.skip(1))
    }
}

proof fn lemma_find_dot_range(s: Seq<char>)
    ensures
        0 <= spec_find_dot(s) <= s.len(),
        spec_find_dot(s) < s.len() ==> s[spec_find_dot(s)] == '.',
        forall|i: int| 0 <= i < spec_find_dot(s) ==> s[i] != '.',
    decreases s.len(),
{
    if s.len() > 0 && s[0] != '.' {
        lemma_find_dot_range(s.skip(1));
        assert forall|i: int| 0 <= i < spec_find_dot(s) implies s[i] != '.' by {
            if i > 0 {
                assert(s[i] == s.skip(1)[i - 1]);
            }
        }
    }
}

/// What a well-formed decimal string denotes.
pub open spec fn spec_parse_dec(s: Seq<char>) -> DecNum
    recommends
        spec_dec_grammar_ok(s),
{
    let neg = s.len() > 0 && s[0] == '-';
    let body = if neg {
        s.skip(1)
    } else {
        s
    };
    let dot = spec_find_dot(body);
    if dot == body.len() {
        spec_normalize(neg, digits_val(body), 0)
    } else {
        spec_normalize(neg, digits_val(body.take(dot) + body.skip(dot + 1)), body.skip(
            dot + 1,
        ).len())
    }
}

/// Reads a run of decimal digits into a `u64`, or reports that the run does
/// not fit.
fn digits_to_u64(s: &str) -> (r: Option<u64>)
    requires
        all_digits(s@),
    ensures
        digits_val(s@) <= u64::MAX ==> r == Some(digits_val(s@) as u64),
        digits_val(s@) > u64::MAX ==> r is None,
{
    let len = s.unicode_len();
    let mut acc: u64 = 0;
    let mut i: usize = 0;
    while i < len
        invariant
            i <= len,
            len == s@.len(),
            all_digits(s@),
            acc == digits_val(s@.take(i as int)),
        decreases len - i,
    {
        let c = s.get_char(i);
        let d: u64 = ((c as u32) - 48) as u64;
        proof {
            assert(is_digit(s@[i as int]));
            assert(s@.take(i + 1).drop_last() =~= s@.take(i as int));
        }
        if acc > (u64::MAX - d) / 10 {
            proof {
                assert(digits_val(s@.take(i + 1)) == acc * 10 + d);
                lemma_digits_val_take_le(s@, i + 1, s@.len() as int);
                assert(s@.take(s@.len() as int) =~= s@);
            }
            return None;
        }
        acc = acc * 10 + d;
        i = i + 1;
    }
    proof {
        assert(s@.take(len as int) =~= s@);
    }
    Some(acc)
}

/// Parses a decimal string; `None` when the grammar is broken or the number
/// does not fit the representation.
#[verifier::loop_isolation(false)]
pub fn parse_dec(s: &str) -> (r: Option<DecNum>)
    ensures
        r is Some <==> spec_dec_grammar_ok(s@),
        r is Some ==> r == Some(spec_parse_dec(s@)) && r.unwrap().wf(),
{
    let len = s.unicode_len();
    let neg = len > 0 && s.get_char(0) == '-';
    let start: usize = if neg {
        1
    } else {
        0
    };
    let body = s.substring_char(start, len);
    let ghost bodyv = if neg {
        s@.skip(1)
    } else {
        s@
    };
    proof {
        assert(body@ =~= bodyv);
        lemma_find_dot_range(bodyv);
    }
    let blen = len - start;
    // find the first '.'
    let mut k: usize = 0;
    while k < blen && body.get_char(k) != '.'
        invariant
            k <= blen,
            forall|i: int| 0 <= i < k ==> bodyv[i] != '.',
        decreases blen - k,
    {
        k = k + 1;
    }
    proof {
        lemma_find_dot_range(bodyv);
        assert(spec_find_dot(bodyv) == if k < blen {
            k as int
        } else {
            bodyv.len() as int
        });
        if neg {
            assert(seq!['-'] + bodyv =~= s@);
        }
    }
    if k < blen {
        return parse_dec_split(neg, body, k);
    }
    // no dot: the whole body must be digits
    if blen == 0 {
        assert(!spec_dec_grammar_ok(s@));
        return None;
    }
    let mut j: usize = 0;
    while j < blen
        invariant
            j <= blen,
            blen == bodyv.len(),
            body@ == bodyv,
            forall|i: int| 0 <= i < j ==> is_digit(#[trigger] bodyv[i]),
        decreases blen - j,
    {
        let c = body.get_char(j);
        let cu = c as u32;
        if cu < 48 || cu > 57 {
            proof {
                lemma_find_dot_range(bodyv);
                assert(!all_digits(bodyv));
            }
            return None;
        }
        j = j + 1;
    }
    assert(all_digits(bodyv));
    match digits_to_u64(body) {
        None => {
            assert(!spec_dec_grammar_ok(s@));
            None
        },
        Some(mag) => {
            let d = normalize(neg, mag, 0);
            assert(spec_dec_grammar_ok(s@));
            Some(d)
        },
    }
}

/// The branch of [`parse_dec`] for a string whose body holds a point at
/// position `dot`.
fn parse_dec_split(neg: bool, body: &str, dot: usize) -> (r: Option<DecNum>)
    requires
        dot < body@.len(),
        body@[dot as int] == '.',
        forall|i: int| 0 <= i < dot ==> body@[i] != '.',
        !neg ==> body@.len() == 0 || body@[0] != '-',
    ensures
        ({
            let s = if neg {
                seq!['-'] + body@
            } else {
                body@
            };
            &&& (r is Some <==> spec_dec_grammar_ok(s))
            &&& (r is Some ==> r == Some(spec_parse_dec(s)) && r.unwrap().wf())
        }),
{
    let ghost s = if neg {
        seq!['-'] + body@
    } else {
        body@
    };
    proof {
        if neg {
            assert(s[0] == '-');
            assert(s.skip(1) =~= body@);
        }
        lemma_find_dot_range(body@);
        assert(spec_find_dot(body@) == dot);
    }
    let blen = body.unicode_len();
    let int_part = body.substring_char(0, dot);
    let frac_part = body.substring_char(dot + 1, blen);
    proof {
        assert(int_part@ =~= body@.take(dot as int));
        assert(frac_part@ =~= body@.skip(dot + 1));
    }
    if dot == 0 || blen - dot - 1 == 0 {
        assert(!spec_dec_grammar_ok(s));
        return None;
    }
    if !check_all_digits(int_part) {
        assert(!spec_dec_grammar_ok(s));
        return None;
    }
    if !check_all_digits(frac_part) {
        assert(!spec_dec_grammar_ok(s));
        return None;
    }
    let joined = int_part.to_owned().concat(frac_part);
    proof {
        assert(joined@ =~= body@.take(dot as int) + body@.skip(dot + 1));
        assert(all_digits(joined@));
    }
    let frac_len = blen - dot - 1;
    if frac_len > u32::MAX as usize {
        assert(!spec_dec_grammar_ok(s));
        return None;
    }
    match digits_to_u64(joined.as_str()) {
        None => {
            assert(!spec_dec_grammar_ok(s));
            None
        },
        Some(mag) => {
            let d = normalize(neg, mag, frac_len as u32);
            assert(spec_dec_grammar_ok(s));
            Some(d)
        },
    }
}

fn check_all_digits(s: &str) -> (r: bool)
    ensures
        r == all_digits(s@),
{
    let len = s.unicode_len();
    let mut i: usize = 0;
    while i < len
        invariant
            i <= len,
            len == s@.len(),
            forall|j: int| 0 <= j < i ==> is_digit(#[trigger] s@[j]),
        decreases len - i,
    {
        let cu = s.get_char(i) as u32;
        if cu < 48 || cu > 57 {
            return false;
        }
        i = i + 1;
    }
    true
}

/// Brings a raw sign, magnitude and scale to the canonical form.
fn normalize(neg: bool, mag: u64, scale: u32) -> (r: DecNum)
    ensures
        r == spec_normalize(neg, mag as nat, scale as nat),
        r.wf(),
{
    let mut m: u64 = mag;
    let mut sc: u32 = scale;
    while m != 0 && sc > 0 && m % 10 == 0
        invariant
            spec_normalize(neg, m as nat, sc as nat) == spec_normalize(
                neg,
                mag as nat,
                scale as nat,
            ),
        decreases sc,
    {
        m = m / 10;
        sc = sc - 1;
    }
    if m == 0 {
        DecNum { neg: false, mag: 0, scale: 0 }
    } else {
        DecNum { neg, mag: m, scale: sc }
    }
}

/// A run of `n` zero characters.
pub open spec fn spec_zeroes(n: nat) -> Seq<char>
    decreases n,
{
    if n == 0 {
        Seq::empty()
    } else {
        seq!['0'] + spec_zeroes((n - 1) as nat)
    }
}

/// The canonical rendering of a decimal: the magnitude's digits, left-padded
/// so that a point can stand before the last `scale` of them, and a leading
/// minus sign for a negative number.
pub open spec fn spec_dec_str(d: DecNum) -> Seq<char> {
    let sign: Seq<char> = if d.neg {
        seq!['-']
    } else {
        Seq::empty()
    };
    if d.scale == 0 {
        sign + spec_u64_str(d.mag as nat)
    } else {
        let raw = spec_u64_str(d.mag as nat);
        let digits = if raw.len() > d.scale {
            raw
        } else {
            spec_zeroes((d.scale + 1 - raw.len()) as nat) + raw
        };
        sign + digits.take(digits.len() - d.scale) + seq!['.'] + digits.skip(
            digits.len() - d.scale,
        )
    }
}

/// Renders a decimal in its canonical form.
#[verifier::loop_isolation(false)]
pub fn dec_to_string(d: &DecNum) -> (r: String)
    ensures
        r@ == spec_dec_str(*d),
{
    let digits_raw = u64_to_string(d.mag);
    let scale = d.scale as usize;
    let mut out = String::new();
    if d.neg {
        out.append("-");
        proof {
            reveal_strlit("-");
            assert(out@ =~= seq!['-']);
        }
    }
    if d.scale == 0 {
        let r = out.concat(digits_raw.as_str());
        proof {
            assert(r@ =~= spec_dec_str(*d));
        }
        return r;
    }
    let rawlen = digits_raw.unicode_len();
    assert(rawlen >= 1);
    let mut digits = String::new();
    if rawlen <= scale {
        let mut pad: usize = scale - rawlen + 1;
        while pad > 0
            invariant
                digits@ == spec_zeroes((scale + 1 - rawlen - pad) as nat),
                pad <= scale + 1 - rawlen,
            decreases pad,
        {
            digits.append("0");
            proof {
                reveal_strlit("0");
                lemma_zeroes_push((scale + 1 - rawlen - pad) as nat);
            }
            pad = pad - 1;
        }
    }
    digits.append(digits_raw.as_str());
    let dlen = digits.unicode_len();
    proof {
        assert(digits@ =~= if rawlen > scale {
            spec_u64_str(d.mag as nat)
        } else {
            spec_zeroes((scale + 1 - rawlen) as nat) + spec_u64_str(d.mag as nat)
        });
        lemma_zeroes_len((d.scale + 1 - rawlen) as nat);
    }
    let int_str = digits.as_str().substring_char(0, dlen - scale);
    out.append(int_str);
    out.append(".");
    let frac_str = digits.as_str().substring_char(dlen - scale, dlen);
    out.append(frac_str);
    proof {
        reveal_strlit(".");
        assert(out@ =~= spec_dec_str(*d));
    }
    out
}

proof fn lemma_zeroes_push(n: nat)
    ensures
        spec_zeroes(n) + seq!['0'] =~= spec_zeroes(n + 1),
    decreases n,
{
    if n > 0 {
        lemma_zeroes_push((n - 1) as nat);
        assert(spec_zeroes(n) + seq!['0'] =~= seq!['0'] + (spec_zeroes((n - 1) as nat)
            + seq!['0']));
    }
}

proof fn lemma_zeroes_len(n: nat)
    ensures
        spec_zeroes(n).len() == n,
    decreases n,
{
    if n > 0 {
        lemma_zeroes_len((n - 1) as nat);
    }
}

} // verus!
