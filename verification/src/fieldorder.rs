//! Recovers the declaration order of a schema's property keys from the raw
//! schema text.
//!
//! A generic JSON parse tree does not preserve key order, but the order of a
//! schema's properties materially affects the generated code. The extractor
//! finds the last `"properties"` key in the text (the one of the top-level
//! schema, nested definitions appearing earlier), scans forward from the
//! first opening brace after it with a brace-depth counter, and records, at
//! depth exactly one, every quoted string that is followed (after white
//! space) by a colon.

use vstd::prelude::*;
use vstd::string::*;
use crate::strutil::{
    find_from, skip_ws, is_match_at, spec_last_match, lemma_find_from_bounds, lemma_skip_ws_bounds,
    lemma_last_match_is_match, find_last_match, find_char_from, skip_ws_from,
};

verus! {

/// The names recorded by the depth-counting scan from position `i` at brace
/// depth `depth`.
pub open spec fn scan_props(s: Seq<char>, i: int, depth: int) -> Seq<Seq<char>>
    decreases s.len() - i,
    via scan_props_decreases
{
    if i < 0 || i >= s.len() || depth <= 0 {
        Seq::empty()
    } else if s[i] == '{' {
        scan_props(s, i + 1, depth + 1)
    } else if s[i] == '}' {
        scan_props(s, i + 1, depth - 1)
    } else if s[i] == '"' && depth == 1 {
        let j = find_from(s, '"', i + 1);
        if j >= s.len() {
            Seq::empty()
        } else {
            let k = skip_ws(s, j + 1);
            if k >= s.len() {
                Seq::empty()
            } else if s[k] == ':' {
                seq![s.subrange(i + 1, j)] + scan_props(s, k + 1, depth)
            } else {
                scan_props(s, k + 1, depth)
            }
        }
    } else {
        scan_props(s, i + 1, depth)
    }
}

#[via_fn]
proof fn scan_props_decreases(s: Seq<char>, i: int, depth: int) {
    if 0 <= i < s.len() && depth > 0 && s[i] == '"' && depth == 1 {
        lemma_find_from_bounds(s, '"', i + 1);
        let j = find_from(s, '"', i + 1);
        if j < s.len() {
            lemma_skip_ws_bounds(s, j + 1);
        }
    }
}

/// The text's pattern for the properties key.
pub open spec fn props_key() -> Seq<char> {
    "\"properties\""@
}

/// The property-key order that the raw text determines: empty when the text
/// has no `"properties"` key or no brace after the last one.
pub open spec fn spec_field_order(s: Seq<char>) -> Seq<Seq<char>> {
    match spec_last_match(s, props_key()) {
        None => Seq::empty(),
        Some(p) => {
            let b = find_from(s, '{', p);
            if b >= s.len() {
                Seq::empty()
            } else {
                scan_props(s, b + 1, 1)
            }
        },
    }
}

/// Extracts the property-key order of the last `"properties"` object in the
/// raw schema text. An empty result means the text gave no usable order and
/// the caller falls back to the parse tree's own order.
#[verifier::loop_isolation(false)]
pub fn extract_field_order_from_content(content: &str) -> (r: Vec<String>)
    ensures
        r.deep_view() == spec_field_order(content@),
{
    let len = content.unicode_len();
    let pat = "\"properties\"";
    let mut acc: Vec<String> = Vec::new();
    let pos = match find_last_match(content, pat) {
        None => {
            proof {
                assert(acc.deep_view() =~= spec_field_order(content@));
            }
            return acc;
        },
        Some(p) => p,
    };
    proof {
        lemma_last_match_is_match(content@, pat@, content@.len() - pat@.len() + 1);
        assert(is_match_at(content@, pat@, pos as int));
    }
    let b = find_char_from(content, '{', pos);
    if b >= len {
        proof {
            assert(acc.deep_view() =~= spec_field_order(content@));
        }
        return acc;
    }
    let mut i: usize = b + 1;
    let mut depth: usize = 1;
    while i < len && depth > 0
        invariant
            b + 1 <= i <= len,
            depth <= i - b,
            acc.deep_view() + scan_props(content@, i as int, depth as int) == scan_props(
                content@,
                b + 1,
                1,
            ),
        decreases len - i,
    {
        let c = content.get_char(i);
        let ghost acc0 = acc.deep_view();
        let ghost i0 = i as int;
        let ghost d0 = depth as int;
        if c == '{' {
            depth = depth + 1;
            i = i + 1;
        } else if c == '}' {
            depth = depth - 1;
            i = i + 1;
        } else if c == '"' && depth == 1 {
            proof {
                lemma_find_from_bounds(content@, '"', i + 1);
            }
            let j = find_char_from(content, '"', i + 1);
            if j >= len {
                i = len;
                proof {
                    assert(scan_props(content@, i0, d0) =~= Seq::<Seq<char>>::empty());
                    assert(scan_props(content@, len as int, d0) =~= Seq::<Seq<char>>::empty());
                    assert(acc.deep_view() + scan_props(content@, i as int, depth as int)
                        =~= scan_props(content@, b + 1, 1));
                }
            } else {
                proof {
                    lemma_skip_ws_bounds(content@, j + 1);
                }
                let k = skip_ws_from(content, j + 1);
                if k < len && content.get_char(k) == ':' {
                    let name = content.substring_char(i + 1, j).to_owned();
                    proof {
                        assert(scan_props(content@, i0, d0) =~= seq![content@.subrange(i0 + 1, j as int)]
                            + scan_props(content@, k + 1, d0));
                    }
                    acc.push(name);
                    i = k + 1;
                    proof {
                        assert(acc.deep_view() =~= acc0.push(content@.subrange(i0 + 1, j as int)));
                        assert(acc.deep_view() + scan_props(content@, i as int, depth as int)
                            =~= acc0 + scan_props(content@, i0, d0));
                    }
                } else {
                    i = if k >= len {
                        len
                    } else {
                        k + 1
                    };
                    proof {
                        if k >= len {
                            assert(scan_props(content@, i0, d0) =~= Seq::<Seq<char>>::empty());
                            assert(scan_props(content@, len as int, d0) =~= Seq::<
                                Seq<char>,
                            >::empty());
                        } else {
                            assert(scan_props(content@, i0, d0) == scan_props(
                                content@,
                                k + 1,
                                d0,
                            ));
                        }
                    }
                }
            }
        } else {
            i = i + 1;
        }
    }
    proof {
        assert(scan_props(content@, i as int, depth as int) =~= Seq::<Seq<char>>::empty());
        assert(acc.deep_view() =~= scan_props(content@, b + 1, 1));
    }
    acc
}

} // verus!
