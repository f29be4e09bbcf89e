//! Helpers over the UTF-8 theory in `vstd::utf8`.
//!
//! Characters travel on the wire as their native 1- to 4-byte UTF-8
//! encoding, self-delimiting and without a length prefix; strings as a run
//! of such encodings.  The lemmas here localise `vstd`'s whole-sequence
//! facts to the single scalar at a cursor position.

use vstd::prelude::*;
use vstd::utf8::decode_first_codepoint;
use vstd::utf8::decode_first_scalar;
use vstd::utf8::encode_scalar;
use vstd::utf8::encode_utf8;
use vstd::utf8::is_scalar;
use vstd::utf8::length_of_first_codepoint;
use vstd::utf8::length_of_first_scalar;
use vstd::utf8::valid_first_scalar;
use vstd::utf8::valid_leading_and_continuation_bytes_first_codepoint;

verus! {

/// Whether a byte sequence begins with a well-formed scalar encoding, which
/// scalar that is and how many bytes it takes depend only on the first
/// bytes: appending more bytes changes none of it.
pub proof fn lemma_first_scalar_extend(sc: Seq<u8>, rest: Seq<u8>)
    requires
        valid_first_scalar(sc),
        length_of_first_scalar(sc) == sc.len(),
    ensures
        valid_first_scalar(sc + rest),
        decode_first_scalar(sc + rest) == decode_first_scalar(sc),
        length_of_first_scalar(sc + rest) == sc.len(),
{
    let w = sc + rest;
    assert(w.len() == sc.len() + rest.len());
    assert(forall|i: int| 0 <= i < sc.len() ==> w[i] == sc[i]);
}

/// Conversely, whether the first scalar of a sequence is well formed is
/// already decided by its own bytes: truncating the sequence right after
/// that scalar changes none of it.
pub proof fn lemma_first_scalar_truncate(bytes: Seq<u8>)
    requires
        valid_first_scalar(bytes),
    ensures
        valid_first_scalar(bytes.take(length_of_first_scalar(bytes))),
        decode_first_scalar(bytes.take(length_of_first_scalar(bytes))) == decode_first_scalar(
            bytes,
        ),
        length_of_first_scalar(bytes.take(length_of_first_scalar(bytes)))
            == length_of_first_scalar(bytes),
{
    let n = length_of_first_scalar(bytes);
    let t = bytes.take(n);
    assert(forall|i: int| 0 <= i < n ==> t[i] == bytes[i]);
}

/// The UTF-8 bytes of a run of characters split at any character count.
pub proof fn lemma_encode_utf8_split(cs: Seq<char>, i: int)
    requires
        0 <= i <= cs.len(),
    ensures
        encode_utf8(cs) == encode_utf8(cs.take(i)) + encode_utf8(cs.skip(i)),
    decreases i,
{
    if i == 0 {
        assert(cs.take(0) =~= Seq::<char>::empty());
        assert(cs.skip(0) =~= cs);
        assert(encode_utf8(cs) =~= encode_utf8(cs.take(0)) + encode_utf8(cs.skip(0)));
    } else {
        let d = cs.drop_first();
        lemma_encode_utf8_split(d, i - 1);
        assert(cs.take(i).drop_first() =~= d.take(i - 1));
        assert(cs.take(i).len() == i);
        assert(cs.take(i)[0] == cs[0]);
        assert(d.skip(i - 1) =~= cs.skip(i));
        assert(encode_utf8(cs.take(i)) == encode_scalar(cs[0] as u32) + encode_utf8(d.take(i - 1)));
        assert(encode_utf8(cs) =~= encode_utf8(cs.take(i)) + encode_utf8(cs.skip(i)));
    }
}

/// The UTF-8 bytes of one more character are the bytes so far followed by
/// that character's scalar encoding.
pub proof fn lemma_encode_utf8_snoc(cs: Seq<char>, i: int)
    requires
        0 <= i < cs.len(),
    ensures
        encode_utf8(cs.take(i + 1)) == encode_utf8(cs.take(i)) + encode_scalar(cs[i] as u32),
    decreases i,
{
    lemma_encode_utf8_split(cs.take(i + 1), i);
    assert(cs.take(i + 1).take(i) =~= cs.take(i));
    let tail = cs.take(i + 1).skip(i);
    assert(tail.len() == 1);
    assert(tail[0] == cs[i]);
    lemma_encode_utf8_single(cs[i]);
    assert(tail =~= seq![cs[i]]);
}

/// A single character's wire bytes are its scalar encoding.
pub proof fn lemma_encode_utf8_single(c: char)
    ensures
        encode_utf8(seq![c]) == encode_scalar(c as u32),
{
    let cs = seq![c];
    assert(cs.drop_first() =~= Seq::<char>::empty());
    assert(encode_utf8(cs.drop_first()) =~= Seq::<u8>::empty());
    assert(encode_utf8(cs) =~= encode_scalar(cs[0] as u32) + encode_utf8(cs.drop_first()));
    assert(encode_scalar(cs[0] as u32) + Seq::<u8>::empty() =~= encode_scalar(c as u32));
}

/// How many bytes the character takes on the wire: 1 to 4, more for larger
/// scalar values.
pub fn utf8_width(c: char) -> (w: usize)
    ensures
        w == encode_scalar(c as u32).len(),
        1 <= w <= 4,
{
    proof {
        vstd::utf8::char_is_scalar(c);
    }
    let v = c as u32;
    if v < 0x80 {
        1
    } else if v < 0x800 {
        2
    } else if v < 0x10000 {
        3
    } else {
        4
    }
}

/// Relies on `char::from_u32` of std: for every value in the Unicode scalar
/// range it returns the character with exactly that scalar value.
#[verifier::external_body]
pub(crate) fn char_from_u32(v: u32) -> (c: char)
    requires
        is_scalar(v),
    ensures
        c as u32 == v,
{
    char::from_u32(v).unwrap()
}

} // verus!
