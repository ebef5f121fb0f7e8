//! Draws from the random number generator of the rand crate. What the
//! generator returns is taken on trust here; the library checks nothing of
//! it but what these contracts state.

use vstd::prelude::*;
use rand::{Rng, XorShiftRng};

verus! {

/// The xorshift generator of the rand crate. The library hands it on to the
/// two functions below and never looks inside.
#[verifier::external_type_specification]
#[verifier::external_body]
pub struct ExXorShiftRng(XorShiftRng);

/// `Rng::gen_range` of the rand crate, called with the bounds 0 and `bound`.
/// The crate documents that the value lies in `[low, high)` and that the call
/// panics when `low >= high`: so `bound` must not be zero, and the index that
/// comes back is below `bound`. Which index it is depends on the generator.
#[verifier::external_body]
pub(crate) fn index_below(rng: &mut XorShiftRng, bound: usize) -> (i: usize)
    requires
        bound > 0,
    ensures
        i < bound,
{
    rng.gen_range(0, bound)
}

/// `Rng::next_u32` of the rand crate: the generator's next 32 bits. Nothing is
/// claimed of the value.
#[verifier::external_body]
pub(crate) fn draw(rng: &mut XorShiftRng) -> (bits: u32) {
    rng.next_u32()
}

} // verus!
