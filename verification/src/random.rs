//! The source of randomness: a seedable generator of the `rand` crate.

use vstd::prelude::*;
use rand::rngs::StdRng;
use rand::Rng;

verus! {

/// The generator of `rand` that callers seed and hand in.
#[verifier::external_type_specification]
#[verifier::external_body]
pub struct ExStdRng(StdRng);

/// Calls `Rng::gen_range` over the whole range of `u16`. The range is never
/// empty, so the call does not panic; nothing is claimed of the number drawn.
#[verifier::external_body]
pub(crate) fn draw_angle(rng: &mut StdRng) -> (angle: u16) {
    rng.gen_range(0..=u16::MAX)
}

/// Draws `count` binary angles, in the order in which the generator gives them.
pub fn draw_angles(rng: &mut StdRng, count: usize) -> (angles: Vec<u16>)
    ensures
        angles@.len() == count,
{
    let mut angles: Vec<u16> = Vec::new();
    let mut i: usize = 0;
    while i < count
        invariant
            i <= count,
            angles@.len() == i,
        decreases count - i,
    {
        let angle: u16 = draw_angle(rng);
        angles.push(angle);
        i = i + 1;
    }
    angles
}

} // verus!
