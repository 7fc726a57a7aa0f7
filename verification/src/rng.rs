//! The injected randomness source: a seedable generator from the `rand`
//! crate, reached through a single trusted sampling function.

use vstd::prelude::*;

verus! {

#[verifier::external_type_specification]
#[verifier::external_body]
pub struct ExStdRng(rand::rngs::StdRng);

/// Relies on rand's `RngExt::random_range` over an `i32` range: the sample
/// lies in the half-open range `lo..hi` (it panics on an empty range, which
/// the precondition rules out). Nothing more is assumed of the value.
#[verifier::external_body]
pub(crate) fn sample_range(rng: &mut rand::rngs::StdRng, lo: i32, hi: i32) -> (r: i32)
    requires
        lo < hi,
    ensures
        lo <= r < hi,
{
    rand::RngExt::random_range(rng, lo..hi)
}

} // verus!
