//! The generator of random numbers, and the three things asked of it.

use rand::rngs::SmallRng;
use vstd::prelude::*;

verus! {

#[verifier::external_type_specification]
#[verifier::external_body]
pub struct ExSmallRng(SmallRng);

/// `Rng::random_range` over `low..=high`: some value of that range. Which
/// one is up to the generator, so nothing more is claimed.
#[verifier::external_body]
pub(crate) fn draw(rng: &mut SmallRng, low: u32, high: u32) -> (v: u32)
    requires
        low <= high,
    ensures
        low <= v <= high,
{
    rand::Rng::random_range(rng, low..=high)
}

/// `Rng::fill` on a buffer of 32 bytes: every byte is overwritten with a
/// random one, so nothing is claimed of the new contents.
#[verifier::external_body]
pub(crate) fn fill_buffer(rng: &mut SmallRng, buf: &mut [u8; 32]) {
    rand::Rng::fill(rng, buf)
}

/// `SliceRandom::shuffle`: reorders the elements in place by swapping them,
/// so the same characters are there afterwards, each as often as before.
#[verifier::external_body]
pub(crate) fn shuffle(rng: &mut SmallRng, chars: &mut Vec<char>)
    ensures
        final(chars)@.to_multiset() == old(chars)@.to_multiset(),
{
    rand::seq::SliceRandom::shuffle(chars.as_mut_slice(), rng)
}

} // verus!
