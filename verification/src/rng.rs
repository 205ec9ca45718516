//! The random source.
//!
//! Sampling runs through one seedable generator from the `rand` crate,
//! threaded explicitly through every function that draws from it. The one
//! trusted wrapper states only what holds of every outcome: the draw lies
//! below the bound.

use vstd::prelude::*;

verus! {

#[verifier::external_type_specification]
#[verifier::external_body]
pub struct ExStdRng(rand::rngs::StdRng);

/// Relies on rand::Rng::gen_range over `0..n`: the sample lies in the
/// (nonempty, since `n > 0`) range, and the call does not panic on it.
#[verifier::external_body]
pub(crate) fn rand_below(rng: &mut rand::rngs::StdRng, n: u32) -> (r: u32)
    requires
        n > 0,
    ensures
        r < n,
{
    rand::Rng::gen_range(rng, 0..n)
}

/// A uniform fixed-point sample in `[0, 1)`.
pub(crate) fn rand_fp(rng: &mut rand::rngs::StdRng) -> (r: i64)
    ensures
        0 <= r < crate::fixed::FP_ONE,
{
    rand_below(rng, 65536) as i64
}

} // verus!
