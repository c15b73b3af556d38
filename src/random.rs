//! The random source that construction steps draw from.
//!
//! Every caller hands in its own generator, so that independent pieces of work
//! never share one.

use rand::Rng;
use vstd::prelude::*;

verus! {

/// The small, fast generator of the `rand` crate.
#[verifier::external_type_specification]
#[verifier::external_body]
pub struct ExSmallRng(rand::rngs::SmallRng);

/// Relies on `rand::Rng::gen_range` over `0..n`: it returns an integer in
/// `[0, n)` and panics only on an empty range, which `n > 0` rules out.
#[verifier::external_body]
pub(crate) fn below(rng: &mut rand::rngs::SmallRng, n: u32) -> (r: u32)
    requires
        n > 0,
    ensures
        r < n,
{
    rng.gen_range(0..n)
}

} // verus!
