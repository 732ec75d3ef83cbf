//! Facts about the UTF-8 encoding of a text that reading it line by line
//! rests on.

use crate::text::{first_raw_line, lemma_raw_line_len, raw_line_len};
use vstd::prelude::*;
use vstd::utf8::*;

verus! {

/// The encoding of a scalar other than the line feed holds no line feed
/// byte.
proof fn lemma_scalar_without_newline(scalar: u32)
    requires
        is_scalar(scalar),
        scalar != 10,
    ensures
        encode_scalar(scalar).len() >= 1,
        forall|i: int| 0 <= i < encode_scalar(scalar).len() ==> encode_scalar(scalar)[i] != 10u8,
{
    if has_width_1_encoding(scalar) {
        assert((scalar & 0x7F) as u8 != 10u8) by (bit_vector)
            requires
                scalar <= 0x7F,
                scalar != 10,
        ;
    } else {
        assert(0xC0u8 | ((scalar >> 6) & 0x1F) as u8 != 10u8) by (bit_vector);
        assert(0xE0u8 | ((scalar >> 12) & 0x0F) as u8 != 10u8) by (bit_vector);
        assert(0xF0u8 | ((scalar >> 18) & 0x7) as u8 != 10u8) by (bit_vector);
        assert(0x80u8 | (scalar & 0x3F) as u8 != 10u8) by (bit_vector);
        assert(0x80u8 | ((scalar >> 6) & 0x3F) as u8 != 10u8) by (bit_vector);
        assert(0x80u8 | ((scalar >> 12) & 0x3F) as u8 != 10u8) by (bit_vector);
    }
}

/// The line feed is encoded as the single byte 10.
proof fn lemma_newline_encoding()
    ensures
        encode_scalar('\n' as u32) == seq![10u8],
{
    assert((10u32 & 0x7F) as u8 == 10u8) by (bit_vector);
}

/// The encoding of two texts put together is the encoding of the first
/// followed by the encoding of the second.
pub(crate) proof fn lemma_encode_concat(a: Seq<char>, b: Seq<char>)
    ensures
        encode_utf8(a + b) == encode_utf8(a) + encode_utf8(b),
    decreases a.len(),
{
    if a.len() == 0 {
        assert(a + b =~= b);
        assert(encode_utf8(a) + encode_utf8(b) =~= encode_utf8(b));
    } else {
        lemma_encode_concat(a.drop_first(), b);
        assert((a + b).drop_first() =~= a.drop_first() + b);
        assert(encode_utf8(a + b) =~= encode_utf8(a) + encode_utf8(b));
    }
}

/// Where the encoding of one text ends and that of the next begins, a
/// character begins.
pub(crate) proof fn lemma_boundary_between(a: Seq<char>, b: Seq<char>)
    ensures
        is_char_boundary(encode_utf8(a + b), encode_utf8(a).len() as int),
    decreases a.len(),
{
    broadcast use encode_utf8_valid_utf8;

    if a.len() > 0 {
        let whole = a + b;
        encode_utf8_first_scalar(whole);
        encode_utf8_first_scalar(a);
        assert(whole.drop_first() =~= a.drop_first() + b);
        assert(pop_first_scalar(encode_utf8(whole)) =~= encode_utf8(a.drop_first() + b));
        lemma_boundary_between(a.drop_first(), b);
        assert(encode_utf8(a).len() == encode_scalar(a[0] as u32).len() + encode_utf8(
            a.drop_first(),
        ).len());
    }
}

/// Two texts with the same encoding are the same text.
pub(crate) proof fn lemma_encode_injective(a: Seq<char>, b: Seq<char>)
    requires
        encode_utf8(a) == encode_utf8(b),
    ensures
        a == b,
{
    encode_utf8_decode_utf8(a);
    encode_utf8_decode_utf8(b);
}

/// Where a scan of the bytes of `text` for the first line feed byte stops:
/// at the end of the encoding of the first raw line.
pub(crate) proof fn lemma_raw_line_bytes(text: Seq<char>)
    ensures
        ({
            let bytes = encode_utf8(text);
            let end = encode_utf8(first_raw_line(text)).len();
            &&& end <= bytes.len()
            &&& bytes.len() > 0 ==> end > 0
            &&& forall|i: int| 0 <= i < end - 1 ==> bytes[i] != 10u8
            &&& end < bytes.len() ==> bytes[end - 1] == 10u8
        }),
    decreases text.len(),
{
    lemma_raw_line_len(text);
    let line = first_raw_line(text);
    let tail = text.skip(raw_line_len(text) as int);
    assert(text =~= line + tail);
    lemma_encode_concat(line, tail);
    if text.len() > 0 {
        let rest = text.drop_first();
        let head = encode_scalar(text[0] as u32);
        char_is_scalar(text[0]);
        assert(line.drop_first() =~= if text[0] == '\n' {
            Seq::<char>::empty()
        } else {
            first_raw_line(rest)
        });
        assert(line[0] == text[0]);
        if text[0] == '\n' {
            lemma_newline_encoding();
            assert(encode_utf8(line.drop_first()) =~= Seq::<u8>::empty());
            assert(encode_utf8(line) =~= head);
        } else {
            lemma_raw_line_bytes(rest);
            if text[0] as u32 == 10 {
                char_u32_cast(text[0], 10);
                char_u32_cast('\n', 10);
            }
            lemma_scalar_without_newline(text[0] as u32);
            let bytes = encode_utf8(text);
            let end = encode_utf8(line).len();
            let inner = encode_utf8(first_raw_line(rest)).len();
            assert(end == head.len() + inner);
            assert(bytes =~= head + encode_utf8(rest));
            assert forall|i: int| 0 <= i < end - 1 implies bytes[i] != 10u8 by {
                if i >= head.len() {
                    assert(bytes[i] == encode_utf8(rest)[i - head.len()]);
                }
            }
            if end < bytes.len() {
                assert(bytes[end - 1] == encode_utf8(rest)[inner - 1]);
            }
        }
    }
}

/// Only the empty text has an empty encoding.
pub(crate) proof fn lemma_encode_len(text: Seq<char>)
    ensures
        encode_utf8(text).len() == 0 <==> text.len() == 0,
{
    if text.len() > 0 {
        char_is_scalar(text[0]);
    }
}

} // verus!
