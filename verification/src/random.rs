use vstd::prelude::*;
use rand::Rng;
use rand::rngs::ThreadRng;

verus! {

/// Makes `rand::rngs::ThreadRng`, the handle to the random number generator
/// of the thread, known as a type whose inside is not looked into.
#[verifier::external_type_specification]
#[verifier::external_body]
pub struct ExThreadRng(rand::rngs::ThreadRng);

/// Draws a number from `low` up to, but not including, `high`.
///
/// This calls `Rng::gen_range` of the `rand` crate on the half-open range
/// `low..high`. The contract is taken on trust: the call panics on an empty
/// range, which `requires` excludes, and what it hands out lies in the
/// range. Which number comes is left open.
#[verifier::external_body]
pub(crate) fn random_below(rng: &mut ThreadRng, low: i64, high: i64) -> (value: i64)
    requires
        low < high,
    ensures
        low <= value < high,
{
    rng.gen_range(low..high)
}

} // verus!
