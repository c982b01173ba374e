//! The generator: it mixes the two samplers until the characters taken fill
//! the requested number of bytes exactly, then shuffles them into a string.

use crate::full::CharU32Kind;
use crate::small::{all_usable, lemma_all_usable_permutation, CharUtf8Kind, LOWEST_USABLE};
use crate::source::{draw, shuffle};
use crate::text::{
    byte_len, lemma_byte_len_bounds, lemma_byte_len_permutation,
    lemma_byte_len_push, scalar_len, string_of,
};
use rand::rngs::SmallRng;
use vstd::prelude::*;
use vstd::utf8::{decode_utf8, encode_utf8, encode_utf8_decode_utf8, encode_utf8_valid_utf8, valid_utf8};

verus! {

/// With fewer bytes than this left to fill, only the small sampler is asked:
/// a character of the full sampler may take up to this many.
pub const WIDEST: usize = 4;

/// The sampler is chosen by a number drawn from 0 to this one. The number
/// itself chooses the full sampler, every lower one the small sampler.
pub const FULL_CHOICE: u32 = 4;

/// How many characters in a row may be discarded as too wide before
/// [`rand_utf8`] stops sampling for the byte at hand.
pub const DISCARD_LIMIT: usize = 4096;

/// No character of the sequence is NUL.
pub open spec fn no_nul(s: Seq<char>) -> bool {
    forall|i: int| 0 <= i < s.len() ==> #[trigger] s[i] != '\0'
}

/// With fewer than `WIDEST` bytes left to fill, the small sampler is asked
/// and no choice is drawn.
pub fn forced_small(remaining: usize) -> (b: bool)
    ensures
        b == (remaining < WIDEST),
{
    remaining < WIDEST
}

/// A drawn choice below `FULL_CHOICE` picks the small sampler, `FULL_CHOICE`
/// itself the full one.
pub fn picks_small(choice: u32) -> (b: bool)
    ensures
        b == (choice < FULL_CHOICE),
{
    choice < FULL_CHOICE
}

/// The characters taken so far towards a string of `target` bytes. Their
/// encoded size never exceeds the target.
pub struct Accumulated {
    chars: Vec<char>,
    byte_count: usize,
    target: usize,
}

impl Accumulated {
    /// The characters taken, in the order in which they were taken.
    pub closed spec fn chars(&self) -> Seq<char> {
        self.chars@
    }

    /// The number of bytes to fill.
    pub closed spec fn target(&self) -> nat {
        self.target as nat
    }

    /// The byte counter agrees with the characters and is within the target.
    pub closed spec fn wf(&self) -> bool {
        &&& self.byte_count == byte_len(self.chars@)
        &&& self.byte_count <= self.target
    }

    /// A well-formed value never holds more bytes than its target.
    pub proof fn lemma_within_target(&self)
        requires
            self.wf(),
        ensures
            byte_len(self.chars()) <= self.target(),
    {
    }

    /// Nothing taken yet.
    pub fn new(target: usize) -> (acc: Self)
        ensures
            acc.wf(),
            acc.chars() == Seq::<char>::empty(),
            acc.target() == target,
    {
        Self { chars: Vec::new(), byte_count: 0, target }
    }

    /// The number of bytes still to fill.
    pub fn remaining(&self) -> (n: usize)
        requires
            self.wf(),
        ensures
            n == self.target() - byte_len(self.chars()),
    {
        self.target - self.byte_count
    }

    /// Takes `c` if its encoding fits into what remains, and says whether it
    /// did. A character that would overshoot the target is not taken.
    pub fn offer(&mut self, c: char) -> (taken: bool)
        requires
            old(self).wf(),
        ensures
            final(self).wf(),
            final(self).target() == old(self).target(),
            taken == (byte_len(old(self).chars()) + scalar_len(c) <= old(self).target()),
            taken ==> final(self).chars() == old(self).chars().push(c),
            !taken ==> final(self).chars() == old(self).chars(),
    {
        let c_len = c.len_utf8();
        if c_len <= self.target - self.byte_count {
            proof {
                lemma_byte_len_push(self.chars@, c);
            }
            self.byte_count += c_len;
            self.chars.push(c);
            true
        } else {
            false
        }
    }

    /// Gives up the characters taken.
    pub fn into_chars(self) -> (chars: Vec<char>)
        ensures
            chars@ == self.chars(),
    {
        self.chars
    }
}

/// A sequence with the same characters as one without NUL has none either.
pub proof fn lemma_no_nul_permutation(s: Seq<char>, t: Seq<char>)
    requires
        s.to_multiset() == t.to_multiset(),
        no_nul(s),
    ensures
        no_nul(t),
{
    s.to_multiset_ensures();
    t.to_multiset_ensures();
    assert forall|i: int| 0 <= i < t.len() implies #[trigger] t[i] != '\0' by {
        assert(t.contains(t[i]));
        assert(s.to_multiset().count(t[i]) > 0);
        assert(s.contains(t[i]));
    }
}

/// A random string whose UTF-8 encoding is exactly `len` bytes long.
///
/// While fewer than `WIDEST` bytes remain, characters come from the small
/// sampler; otherwise a number drawn from 0 to `FULL_CHOICE` picks the
/// sampler. A character that would overshoot is discarded and another one is
/// sampled. The characters taken are shuffled before they are joined.
///
/// Should `DISCARD_LIMIT` characters in a row be discarded, the one-byte
/// character `LOWEST_USABLE` is taken in their place.
///
/// A string of fewer than `WIDEST` bytes comes from the small sampler alone,
/// so it holds no U+FFFD; a longer one may, where the full sampler drew it.
pub fn rand_utf8(rng: &mut SmallRng, len: usize) -> (s: Box<str>)
    ensures
        byte_len(s@) == len,
        valid_utf8(encode_utf8(s@)),
        decode_utf8(encode_utf8(s@)) == s@,
        no_nul(s@),
        len < WIDEST ==> all_usable(s@),
        s@.len() <= len <= WIDEST * s@.len(),
{
    let mut acc = Accumulated::new(len);
    let mut utf8_kind = CharUtf8Kind::new();
    let mut u32_kind = CharU32Kind::new();
    let mut discards: usize = 0;

    while acc.remaining() > 0
        invariant
            acc.wf(),
            acc.target() == len,
            utf8_kind.wf(),
            no_nul(acc.chars()),
            len < WIDEST ==> all_usable(acc.chars()),
            discards <= DISCARD_LIMIT,
        decreases len - byte_len(acc.chars()), DISCARD_LIMIT - discards,
    {
        let ghost before = acc.chars();
        let small = forced_small(acc.remaining()) || picks_small(draw(rng, 0, FULL_CHOICE));
        let c = if !small {
            u32_kind.next(rng)
        } else if discards < DISCARD_LIMIT {
            utf8_kind.next(rng)
        } else {
            LOWEST_USABLE
        };
        let taken = acc.offer(c);
        proof {
            if taken {
                lemma_byte_len_push(before, c);
            }
        }
        if taken {
            discards = 0;
        } else {
            discards += 1;
        }
    }

    let mut chars = acc.into_chars();
    let ghost taken = chars@;
    shuffle(rng, &mut chars);
    let s = string_of(&chars).into_boxed_str();
    proof {
        lemma_byte_len_permutation(taken, s@);
        lemma_no_nul_permutation(taken, s@);
        if len < WIDEST {
            lemma_all_usable_permutation(taken, s@);
        }
        lemma_byte_len_bounds(s@);
        encode_utf8_valid_utf8(s@);
        encode_utf8_decode_utf8(s@);
    }
    s
}

} // verus!
