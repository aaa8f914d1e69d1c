//! Comparison in constant time, from `subtle`.

use subtle::ConstantTimeEq;
use vstd::prelude::*;

verus! {

/// Calls `ct_eq` of `subtle::ConstantTimeEq` on byte slices: slices of
/// different lengths are unequal, others are equal where every byte is. How
/// long the comparison takes is not stated.
#[verifier::external_body]
pub(crate) fn bytes_ct_eq(a: &[u8], b: &[u8]) -> (r: bool)
    ensures
        r == (a@ == b@),
{
    a.ct_eq(b).into()
}

} // verus!
