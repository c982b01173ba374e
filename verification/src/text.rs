//! Encoded sizes of characters and character sequences, and the conversions
//! between bytes, characters and strings that the standard library performs.

use vstd::prelude::*;
use vstd::utf8::*;

verus! {

/// Number of bytes in the UTF-8 encoding of `c`.
pub open spec fn scalar_len(c: char) -> nat {
    encode_scalar(c as u32).len()
}

/// Number of bytes in the UTF-8 encoding of the whole sequence.
pub open spec fn byte_len(s: Seq<char>) -> nat {
    encode_utf8(s).len()
}

/// What lossy UTF-8 decoding makes of a byte sequence: the characters of its
/// well-formed parts, with U+FFFD standing in for each malformed part.
pub uninterp spec fn lossy_decoded(bytes: Seq<u8>) -> Seq<char>;

/// `char::len_utf8`: the number of bytes that the character's UTF-8 encoding
/// takes.
pub assume_specification[ char::len_utf8 ](c: char) -> (n: usize)
    ensures
        n == scalar_len(c),
;

/// `char::from_u32`: the character with the given scalar value, and `None`
/// for a surrogate or a value above U+10FFFF.
pub assume_specification[ char::from_u32 ](i: u32) -> (r: Option<char>)
    ensures
        is_scalar(i) ==> r == Some(i as char),
        !is_scalar(i) ==> r is None,
;

/// `String::from_utf8_lossy`, read out character by character. The contract
/// only gives the decoded sequence its name, [`lossy_decoded`].
#[verifier::external_body]
pub(crate) fn decode_lossy(bytes: &[u8; 32]) -> (decoded: Vec<char>)
    ensures
        decoded@ == lossy_decoded(bytes@),
{
    String::from_utf8_lossy(bytes).chars().collect()
}

/// `String::from_iter` over the characters of a vector: the string that
/// holds exactly these characters, in this order.
#[verifier::external_body]
pub(crate) fn string_of(chars: &Vec<char>) -> (s: String)
    ensures
        s@ == chars@,
{
    String::from_iter(chars.iter())
}

/// `String::into_boxed_str`: the same characters in a boxed slice.
pub assume_specification[ String::into_boxed_str ](s: String) -> (b: Box<str>)
    ensures
        b@ == s@,
;

/// Every character takes between one and four bytes.
pub proof fn lemma_scalar_len_bounds(c: char)
    ensures
        1 <= scalar_len(c) <= 4,
{
}

/// The size of a sequence is the size of its first character plus the size
/// of the rest.
pub proof fn lemma_byte_len_first(s: Seq<char>)
    requires
        s.len() > 0,
    ensures
        byte_len(s) == scalar_len(s[0]) + byte_len(s.drop_first()),
{
}

/// A sequence takes at least one byte and at most four for each character.
pub proof fn lemma_byte_len_bounds(s: Seq<char>)
    ensures
        s.len() <= byte_len(s) <= 4 * s.len(),
    decreases s.len(),
{
    if s.len() > 0 {
        lemma_byte_len_first(s);
        lemma_scalar_len_bounds(s[0]);
        lemma_byte_len_bounds(s.drop_first());
    }
}

/// Appending a character adds its size.
pub proof fn lemma_byte_len_push(s: Seq<char>, c: char)
    ensures
        byte_len(s.push(c)) == byte_len(s) + scalar_len(c),
    decreases s.len(),
{
    let t = s.push(c);
    lemma_byte_len_first(t);
    if s.len() == 0 {
        assert(t.drop_first() =~= s);
    } else {
        assert(t.drop_first() =~= s.drop_first().push(c));
        lemma_byte_len_push(s.drop_first(), c);
        lemma_byte_len_first(s);
    }
}

/// Taking a character out removes its size.
pub proof fn lemma_byte_len_remove(s: Seq<char>, i: int)
    requires
        0 <= i < s.len(),
    ensures
        byte_len(s) == byte_len(s.remove(i)) + scalar_len(s[i]),
    decreases s.len(),
{
    lemma_byte_len_first(s);
    if i == 0 {
        assert(s.remove(0) =~= s.drop_first());
    } else {
        let r = s.remove(i);
        assert(r.drop_first() =~= s.drop_first().remove(i - 1));
        lemma_byte_len_first(r);
        lemma_byte_len_remove(s.drop_first(), i - 1);
    }
}

/// The size of a sequence does not depend on the order of its characters.
pub proof fn lemma_byte_len_permutation(s: Seq<char>, t: Seq<char>)
    requires
        s.to_multiset() == t.to_multiset(),
    ensures
        byte_len(s) == byte_len(t),
    decreases s.len(),
{
    s.to_multiset_ensures();
    t.to_multiset_ensures();
    if s.len() == 0 {
        assert(t.len() == 0);
        assert(s =~= t);
    } else {
        let c = s[0];
        assert(s.contains(c));
        assert(t.to_multiset().count(c) > 0);
        assert(t.contains(c));
        let i = choose|i: int| 0 <= i < t.len() && t[i] == c;
        assert(s.remove(0) =~= s.drop_first());
        assert(s.drop_first().to_multiset() =~= t.remove(i).to_multiset());
        lemma_byte_len_permutation(s.drop_first(), t.remove(i));
        lemma_byte_len_first(s);
        lemma_byte_len_remove(t, i);
    }
}

} // verus!
