//! The random choices of a tick, drawn from a seeded generator.

use rand::seq::SliceRandom;
use rand::Rng;
use rand_pcg::Pcg32;
use vstd::prelude::*;

use super::Direction;

verus! {

/// The generator `rand_pcg::Lcg64Xsh32`, also known as `Pcg32`. Nothing is
/// known of its state here.
#[verifier::external_type_specification]
#[verifier::external_body]
pub struct ExPcg32(rand_pcg::Lcg64Xsh32);

/// Calls `rand::Rng::gen_range` on the half-open range from zero to `bound`.
/// Trusted: the sample lies in that range. The range must not be empty,
/// since `gen_range` panics on an empty one.
#[verifier::external_body]
pub(crate) fn random_below(rng: &mut Pcg32, bound: i32) -> (r: i32)
    requires
        0 < bound,
    ensures
        0 <= r < bound,
{
    rng.gen_range(0..bound)
}

/// Calls `rand::seq::SliceRandom::shuffle` on a copy of `directions`.
/// Trusted: the shuffle only swaps elements, so that the result holds the
/// same directions, each as often as before.
#[verifier::external_body]
pub(crate) fn shuffled(directions: [Direction; 4], rng: &mut Pcg32) -> (r: [Direction; 4])
    ensures
        r@.to_multiset() == directions@.to_multiset(),
{
    let mut shuffled = directions;
    shuffled.shuffle(rng);
    shuffled
}

} // verus!
