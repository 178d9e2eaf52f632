//! The boundary to convert_case.
//!
//! Field and file identifiers are case-converted to snake case. The exact
//! character-level result of the conversion is convert_case's business; the
//! library names it `snake_of` and reasons about it only up to equality.

use vstd::prelude::*;
use convert_case::Case;
use convert_case::Casing;

verus! {

/// What convert_case's snake-case conversion returns for a given string: a
/// function of the characters alone.
pub uninterp spec fn snake_of(s: Seq<char>) -> Seq<char>;

/// Relies on convert_case's Casing::to_case with Case::Snake: the result
/// depends on the input characters alone.
#[verifier::external_body]
pub fn to_snake_case(s: &str) -> (r: String)
    ensures
        r@ == snake_of(s@),
{
    s.to_case(Case::Snake)
}

} // verus!
