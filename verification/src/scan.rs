//! What a scan of the bytes of a text can know of its characters.
//!
//! The scans of this crate look for ASCII marks. They read the bytes of a
//! text in UTF-8, and their contracts speak of its characters. The two
//! agree because an ASCII character is one byte, itself, and every byte of
//! any other character is 0x80 or above.

use vstd::prelude::*;
use vstd::utf8::{encode_scalar, encode_utf8};

verus! {

/// Whether a character is an ASCII character.
pub open spec fn is_ascii_mark(mark: char) -> bool {
    (mark as u32) < 0x80
}

/// Whether every byte is 0x80 or above.
pub open spec fn all_high(bytes: Seq<u8>) -> bool {
    forall|at: int| 0 <= at < bytes.len() ==> #[trigger] bytes[at] >= 0x80
}

/// The bytes of a text with one more character are the bytes of the text
/// and then the bytes of that character.
pub proof fn lemma_encode_utf8_push(text: Seq<char>, last: char)
    ensures
        encode_utf8(text.push(last)) == encode_utf8(text) + encode_scalar(last as u32),
    decreases text.len(),
{
    let longer = text.push(last);
    if text.len() == 0 {
        assert(longer.drop_first() =~= Seq::<char>::empty());
        assert(encode_utf8(longer.drop_first()) =~= Seq::<u8>::empty());
        assert(encode_utf8(text) =~= Seq::<u8>::empty());
        assert(encode_utf8(longer) =~= encode_scalar(last as u32));
        assert(encode_utf8(text) + encode_scalar(last as u32) =~= encode_scalar(last as u32));
    } else {
        let rest = text.drop_first();
        assert(longer.drop_first() =~= rest.push(last));
        lemma_encode_utf8_push(rest, last);
        assert(longer[0] == text[0]);
        assert(encode_utf8(longer) =~= encode_scalar(text[0] as u32) + (encode_utf8(rest)
            + encode_scalar(last as u32)));
        assert(encode_utf8(text) =~= encode_scalar(text[0] as u32) + encode_utf8(rest));
    }
}

/// An ASCII character is one byte, itself. Any other character is two to
/// four bytes, each 0x80 or above.
pub proof fn lemma_encode_scalar_marks(mark: char)
    ensures
        is_ascii_mark(mark) ==> encode_scalar(mark as u32) == seq![mark as u8],
        !is_ascii_mark(mark) ==> all_high(encode_scalar(mark as u32)),
        !is_ascii_mark(mark) ==> 2 <= encode_scalar(mark as u32).len() <= 4,
{
    let scalar = mark as u32;
    let bytes = encode_scalar(scalar);
    if scalar < 0x80 {
        assert(scalar & 0x7F == scalar) by (bit_vector)
            requires
                scalar < 0x80,
        ;
        assert(bytes =~= seq![mark as u8]);
    } else {
        assert(forall|low: u8| 0xC0u8 | low >= 0x80u8) by (bit_vector);
        assert(forall|low: u8| 0xE0u8 | low >= 0x80u8) by (bit_vector);
        assert(forall|low: u8| 0xF0u8 | low >= 0x80u8) by (bit_vector);
        assert(forall|low: u8| 0x80u8 | low >= 0x80u8) by (bit_vector);
        assert forall|at: int| 0 <= at < bytes.len() implies #[trigger] bytes[at] >= 0x80 by {}
    }
}

} // verus!
