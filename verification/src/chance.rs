//! Random choices, drawn from the thread's random number generator.

use vstd::prelude::*;
use rand::rngs::ThreadRng;
use rand::Rng;

verus! {

#[verifier::external_type_specification]
#[verifier::external_body]
pub struct ExThreadRng(ThreadRng);

/// The random number generator of this thread (`rand::thread_rng`).
#[verifier::external_body]
pub(crate) fn thread_rng() -> ThreadRng {
    rand::thread_rng()
}

/// A random number in [`lo`, `hi`) (`Rng::gen_range`, which panics on an
/// empty range).
#[verifier::external_body]
pub(crate) fn gen_range(rng: &mut ThreadRng, lo: u16, hi: u16) -> (r: u16)
    requires
        lo < hi,
    ensures
        lo <= r < hi,
{
    rng.gen_range(lo..hi)
}

/// True with probability `numerator / denominator` (`Rng::gen_ratio`, which
/// panics when the denominator is 0 or below the numerator); nothing is
/// stated of which value comes back.
#[verifier::external_body]
pub(crate) fn gen_ratio(rng: &mut ThreadRng, numerator: u32, denominator: u32) -> bool
    requires
        0 < denominator,
        numerator <= denominator,
{
    rng.gen_ratio(numerator, denominator)
}

} // verus!
