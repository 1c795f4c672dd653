use vstd::prelude::*;
use rand::Rng;

verus! {

/// A uniformly drawn integer in `[low, high)` from the thread-local generator
/// (`rand::Rng::gen_range` on `rand::thread_rng()`). Only the range is claimed, as
/// the value depends on the generator's state; the call panics on an empty range,
/// which `requires` rules out.
#[verifier::external_body]
pub(crate) fn random_in_range(low: u64, high: u64) -> (r: u64)
    requires
        low < high,
    ensures
        low <= r < high,
{
    rand::thread_rng().gen_range(low..high)
}

/// A coin that comes up `true` with probability `numerator / denominator`
/// (`rand::Rng::gen_ratio` on `rand::thread_rng()`). The crate documents that a zero
/// numerator always gives `false` and a numerator equal to the denominator always
/// `true`; nothing more is claimed. The call panics on a zero denominator or a
/// numerator above it, which `requires` rules out.
#[verifier::external_body]
pub(crate) fn random_ratio(numerator: u32, denominator: u32) -> (r: bool)
    requires
        0 < denominator,
        numerator <= denominator,
    ensures
        numerator == 0 ==> !r,
        numerator == denominator ==> r,
{
    rand::thread_rng().gen_ratio(numerator, denominator)
}

} // verus!
