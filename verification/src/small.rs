//! The sampler that leans towards short encodings: it reads random bytes as
//! UTF-8 and keeps what decodes cleanly.

use crate::source::fill_buffer;
use crate::text::{decode_lossy, lossy_decoded};
use rand::rngs::SmallRng;
use std::collections::VecDeque;
use vstd::prelude::*;

verus! {

/// How many refills in a row may yield nothing before [`CharUtf8Kind::next`]
/// stops asking for more random bytes.
pub const REFILL_LIMIT: usize = 4096;

/// What [`CharUtf8Kind::next`] hands out when `REFILL_LIMIT` refills in a
/// row have yielded nothing: the lowest usable character.
pub const LOWEST_USABLE: char = '\u{1}';

/// A decoded character is usable unless it is NUL or U+FFFD, the mark that
/// lossy decoding leaves where the bytes were malformed.
pub open spec fn usable(c: char) -> bool {
    c != '\0' && c != '\u{FFFD}'
}

/// Every character of the sequence is usable.
pub open spec fn all_usable(s: Seq<char>) -> bool {
    forall|i: int| 0 <= i < s.len() ==> usable(#[trigger] s[i])
}

/// The usable characters of `s`, in their order.
pub open spec fn usable_part(s: Seq<char>) -> Seq<char> {
    s.filter(|c: char| usable(c))
}

/// Nothing unusable is left in the usable part of a sequence.
pub proof fn lemma_usable_part_all_usable(s: Seq<char>)
    ensures
        all_usable(usable_part(s)),
{
    let keep = |c: char| usable(c);
    assert forall|i: int| 0 <= i < usable_part(s).len() implies usable(
        #[trigger] usable_part(s)[i],
    ) by {
        s.lemma_filter_pred(keep, i);
    }
}

/// A sequence with the same characters as a usable one is usable too.
pub proof fn lemma_all_usable_permutation(s: Seq<char>, t: Seq<char>)
    requires
        s.to_multiset() == t.to_multiset(),
        all_usable(s),
    ensures
        all_usable(t),
{
    s.to_multiset_ensures();
    t.to_multiset_ensures();
    assert forall|i: int| 0 <= i < t.len() implies usable(#[trigger] t[i]) by {
        assert(t.contains(t[i]));
        assert(s.to_multiset().count(t[i]) > 0);
        assert(s.contains(t[i]));
    }
}

/// Tells whether a decoded character may be handed out.
pub fn is_usable(c: char) -> (b: bool)
    ensures
        b == usable(c),
{
    c != '\0' && c != '\u{FFFD}'
}

/// Sampler of characters over a buffer of random bytes and a queue of the
/// characters decoded from it.
pub struct CharUtf8Kind {
    buf: [u8; 32],
    chars: VecDeque<char>,
}

impl CharUtf8Kind {
    /// The characters waiting to be handed out, the next one first.
    pub closed spec fn pending(&self) -> Seq<char> {
        self.chars@
    }

    /// The bytes that were decoded last.
    pub closed spec fn buffer(&self) -> Seq<u8> {
        self.buf@
    }

    /// Only usable characters wait in the queue.
    pub open spec fn wf(&self) -> bool {
        all_usable(self.pending())
    }

    /// A sampler with nothing decoded yet.
    pub fn new() -> (s: Self)
        ensures
            s.wf(),
            s.pending() == Seq::<char>::empty(),
            s.buffer() == Seq::new(32, |i: int| 0u8),
    {
        let s = Self { buf: [0; 32], chars: VecDeque::with_capacity(32) };
        assert(s.buf@ =~= Seq::new(32, |i: int| 0u8));
        s
    }

    /// Number of characters waiting in the queue.
    pub fn pending_len(&self) -> (n: usize)
        ensures
            n == self.pending().len(),
    {
        self.chars.len()
    }

    /// Appends the usable characters of `decoded` to the queue, in their
    /// order, and drops the others.
    pub fn enqueue_usable(&mut self, decoded: &Vec<char>)
        ensures
            final(self).pending() == old(self).pending() + usable_part(decoded@),
            final(self).buffer() == old(self).buffer(),
            old(self).wf() ==> final(self).wf(),
    {
        let ghost keep = |c: char| usable(c);
        let ghost before = self.chars@;
        let mut i: usize = 0;
        while i < decoded.len()
            invariant
                i <= decoded.len(),
                keep == |c: char| usable(c),
                self.buf == old(self).buf,
                self.chars@ == before + decoded@.take(i as int).filter(keep),
            decreases decoded.len() - i,
        {
            let c = decoded[i];
            proof {
                let head = decoded@.take(i as int);
                assert(decoded@.take(i + 1) =~= head.push(c));
                assert(head.push(c).drop_last() =~= head);
                reveal(Seq::filter);
            }
            if is_usable(c) {
                self.chars.push_back(c);
            }
            i += 1;
        }
        proof {
            assert(decoded@.take(i as int) =~= decoded@);
            lemma_usable_part_all_usable(decoded@);
        }
    }

    /// Takes `bytes` as the new buffer and queues the usable characters of
    /// its lossy decoding behind those already waiting.
    pub fn load(&mut self, bytes: &[u8; 32])
        ensures
            final(self).buffer() == bytes@,
            final(self).pending() == old(self).pending() + usable_part(lossy_decoded(bytes@)),
            old(self).wf() ==> final(self).wf(),
    {
        self.buf = *bytes;
        let decoded = decode_lossy(&self.buf);
        self.enqueue_usable(&decoded);
    }

    /// Hands out the next character. While the queue is empty it is refilled
    /// from 32 fresh random bytes; a queue that holds something is never
    /// refilled, so its first character is the one that leaves.
    ///
    /// After a refill the character handed out and those left waiting are
    /// the usable characters decoded from the buffer. Should `REFILL_LIMIT`
    /// refills in a row yield nothing, the result is `LOWEST_USABLE`: it
    /// comes only when the buffer last filled decodes to nothing usable.
    pub fn next(&mut self, rng: &mut SmallRng) -> (c: char)
        requires
            old(self).wf(),
        ensures
            usable(c),
            final(self).wf(),
            old(self).pending().len() > 0 ==> c == old(self).pending()[0]
                && final(self).pending() == old(self).pending().drop_first()
                && final(self).buffer() == old(self).buffer(),
            old(self).pending().len() == 0 ==> {
                ||| seq![c] + final(self).pending() == usable_part(
                    lossy_decoded(final(self).buffer()),
                )
                ||| c == LOWEST_USABLE && final(self).pending().len() == 0 && usable_part(
                    lossy_decoded(final(self).buffer()),
                ).len() == 0
            },
    {
        let mut refills: usize = 0;
        while self.chars.len() == 0 && refills < REFILL_LIMIT
            invariant
                self.wf(),
                refills <= REFILL_LIMIT,
                old(self).pending().len() > 0 ==> *self == *old(self),
                old(self).pending().len() == 0 && refills == 0 ==> self.pending().len() == 0,
                old(self).pending().len() == 0 && refills > 0 ==> self.pending() == usable_part(
                    lossy_decoded(self.buffer()),
                ),
            decreases REFILL_LIMIT - refills,
        {
            let mut fresh: [u8; 32] = [0; 32];
            fill_buffer(rng, &mut fresh);
            self.load(&fresh);
            refills += 1;
        }
        let ghost waiting = self.chars@;
        match self.chars.pop_front() {
            Some(c) => {
                assert(seq![c] + self.chars@ =~= waiting);
                c
            },
            None => LOWEST_USABLE,
        }
    }
}

} // verus!
