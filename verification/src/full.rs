//! The sampler that covers every scalar value with the same weight.

use crate::source::draw;
use rand::rngs::SmallRng;
use vstd::prelude::*;
use vstd::utf8::is_scalar;

verus! {

/// How many draws in a row may be rejected before [`CharU32Kind::next`]
/// stops drawing.
pub const REDRAW_LIMIT: usize = 4096;

/// The upper end of the range that is drawn from, one above U+10FFFF.
pub const DRAW_MAX: u32 = 0x110000;

/// What [`CharU32Kind::next`] hands out when `REDRAW_LIMIT` draws in a row
/// were rejected: the highest character.
pub const HIGHEST: char = '\u{10FFFF}';

/// The character that a drawn number stands for, if it stands for one:
/// surrogates and numbers above U+10FFFF stand for none.
pub open spec fn drawn_scalar(v: u32) -> Option<char> {
    if is_scalar(v) {
        Some(v as char)
    } else {
        None
    }
}

/// Turns a drawn number into its character, or rejects it.
pub fn scalar_from_draw(v: u32) -> (r: Option<char>)
    ensures
        r == drawn_scalar(v),
{
    char::from_u32(v)
}

/// Sampler of characters by rejection over the numbers 1 to 0x110000.
pub struct CharU32Kind;

impl CharU32Kind {
    /// A sampler; it holds no state.
    pub fn new() -> (s: Self)
        ensures
            s == CharU32Kind,
    {
        Self
    }

    /// Draws numbers from 1 to `DRAW_MAX` until one of them is a scalar
    /// value, and hands out its character, which is therefore never NUL.
    ///
    /// Should `REDRAW_LIMIT` draws in a row be rejected, the result is
    /// `HIGHEST`.
    pub fn next(&mut self, rng: &mut SmallRng) -> (c: char)
        ensures
            c != '\0',
    {
        let mut draws: usize = 0;
        while draws < REDRAW_LIMIT
            invariant
                draws <= REDRAW_LIMIT,
            decreases REDRAW_LIMIT - draws,
        {
            let v: u32 = draw(rng, 1, DRAW_MAX);
            if let Some(c) = scalar_from_draw(v) {
                return c;
            }
            draws += 1;
        }
        HIGHEST
    }
}

} // verus!
