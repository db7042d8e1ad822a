//! The draws that the genetic phases make from the random number generator.
//!
//! Nothing here is proved: each function states what the generator's own
//! source gives for every outcome of a draw, and the phases are proved for
//! every value that a draw may return.
use rand::rngs::StdRng;
use rand::Rng;
use vstd::prelude::*;

verus! {

/// The generator of rand that the phases draw from. It can be seeded, so
/// that a run can be repeated.
#[verifier::external_type_specification]
#[verifier::external_body]
pub struct ExStdRng(StdRng);

/// `Rng::gen_range` of rand on the range `0..bound`: a value of that range,
/// each with the same chance. On an empty range it panics, so `bound` is
/// positive.
#[verifier::external_body]
pub(crate) fn below(rng: &mut StdRng, bound: u128) -> (value: u128)
    requires
        bound > 0,
    ensures
        value < bound,
{
    rng.gen_range(0..bound)
}

/// `Rng::gen_ratio` of rand: `true` with a chance of `numerator` in
/// `denominator`; always `true` where the two are equal and never where
/// `numerator` is 0. It panics on a zero denominator and on a numerator above
/// the denominator.
#[verifier::external_body]
pub(crate) fn chance(rng: &mut StdRng, numerator: u32, denominator: u32) -> (hit: bool)
    requires
        denominator > 0,
        numerator <= denominator,
    ensures
        numerator == denominator ==> hit,
        numerator == 0 ==> !hit,
{
    rng.gen_ratio(numerator, denominator)
}

} // verus!
