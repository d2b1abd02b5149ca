//! HTTP methods and the single case in which two of them are compared.

use vstd::prelude::*;

verus! {

/// The upper-case form of a text, as `str::to_uppercase` of the standard
/// library gives it. Two methods are the same method where their upper-case
/// forms are equal.
pub uninterp spec fn uppercase(text: Seq<char>) -> Seq<char>;

/// Whether two method names stand for the same method.
pub open spec fn same_method(a: Seq<char>, b: Seq<char>) -> bool {
    uppercase(a) == uppercase(b)
}

/// Calls `str::to_uppercase` of the standard library. Nothing is proved of
/// it: the contract only gives the result its name, on the ground that the
/// standard library computes it from the characters of `text` alone.
#[verifier::external_body]
pub(crate) fn to_uppercase(text: &str) -> (upper: String)
    ensures
        upper@ == uppercase(text@),
{
    text.to_uppercase()
}

} // verus!
