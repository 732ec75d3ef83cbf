//! A line source over a text held in memory.

use crate::encoding::{
    lemma_boundary_between, lemma_encode_concat, lemma_encode_injective, lemma_raw_line_bytes,
};
use crate::source::LineSource;
use crate::text::{after_first_line, first_raw_line, lemma_raw_line_len};
use vstd::prelude::*;
use vstd::string::{StringExecFns, StringSliceAdditionalSpecFns};
use vstd::utf8::*;

verus! {

/// The text that `bytes` holds from the offset `pos` on.
spec fn text_from(bytes: Seq<u8>, pos: int) -> Seq<char> {
    decode_utf8(bytes.skip(pos))
}

/// Bytes that encode a text split, at a character's beginning, into the
/// encodings of two texts.
proof fn lemma_split_at_boundary(bytes: Seq<u8>, pos: int)
    requires
        valid_utf8(bytes),
        is_char_boundary(bytes, pos),
    ensures
        0 <= pos <= bytes.len(),
        bytes.take(pos) == encode_utf8(decode_utf8(bytes.take(pos))),
        bytes.skip(pos) == encode_utf8(text_from(bytes, pos)),
        bytes == encode_utf8(decode_utf8(bytes.take(pos)) + text_from(bytes, pos)),
{
    valid_utf8_split(bytes, pos);
    decode_utf8_encode_utf8(bytes.take(pos));
    decode_utf8_encode_utf8(bytes.skip(pos));
    lemma_encode_concat(decode_utf8(bytes.take(pos)), text_from(bytes, pos));
    assert(bytes =~= bytes.take(pos) + bytes.skip(pos));
}

/// Where the first raw line of the text from `pos` on lies in `bytes`: it
/// ends with the first line feed byte at or behind `pos`, or at the end of
/// `bytes`; a character begins behind it; and the text from there on is
/// what follows the line.
proof fn lemma_line_in_bytes(bytes: Seq<u8>, pos: int)
    requires
        valid_utf8(bytes),
        is_char_boundary(bytes, pos),
    ensures
        ({
            let rest = text_from(bytes, pos);
            let line = first_raw_line(rest);
            let end = pos + encode_utf8(line).len();
            &&& 0 <= pos <= end <= bytes.len()
            &&& pos < bytes.len() ==> pos < end
            &&& forall|i: int| pos <= i < end - 1 ==> bytes[i] != 10u8
            &&& end < bytes.len() ==> bytes[end - 1] == 10u8
            &&& is_char_boundary(bytes, end)
            &&& valid_utf8(bytes.skip(pos))
            &&& is_char_boundary(bytes.skip(pos), end - pos)
            &&& bytes.subrange(pos, end) == encode_utf8(line)
            &&& text_from(bytes, end) == rest.skip(line.len() as int)
        }),
{
    let before = decode_utf8(bytes.take(pos));
    let rest = text_from(bytes, pos);
    let line = first_raw_line(rest);
    let tail = rest.skip(line.len() as int);
    let end = pos + encode_utf8(line).len();
    lemma_split_at_boundary(bytes, pos);
    encode_utf8_valid_utf8(rest);
    lemma_raw_line_len(rest);
    lemma_raw_line_bytes(rest);
    assert(rest =~= line + tail);
    lemma_encode_concat(line, tail);
    lemma_boundary_between(line, tail);
    assert forall|i: int| pos <= i < end - 1 implies bytes[i] != 10u8 by {
        assert(bytes[i] == bytes.skip(pos)[i - pos]);
    }
    if end < bytes.len() {
        assert(bytes[end - 1] == bytes.skip(pos)[end - 1 - pos]);
    }
    assert(bytes.subrange(pos, end) =~= encode_utf8(line)) by {
        assert(bytes.subrange(pos, end) =~= bytes.skip(pos).take(end - pos));
    }
    assert(before + rest =~= (before + line) + tail);
    lemma_encode_concat(before, line);
    lemma_encode_concat(before + line, tail);
    lemma_boundary_between(before + line, tail);
    assert(bytes.skip(end) =~= encode_utf8(tail));
    encode_utf8_decode_utf8(tail);
}

/// A line source that reads a text held in memory, from its beginning to
/// its end. A read never fails.
#[derive(Debug)]
pub struct TextSource {
    text: String,
    /// The byte offset in `text` of the first byte that no read has taken.
    pos: usize,
}

impl TextSource {
    #[verifier::type_invariant]
    spec fn well_formed(self) -> bool {
        is_char_boundary(encode_utf8(self.text@), self.pos as int)
    }

    /// The text that is still to be read.
    pub closed spec fn remaining(self) -> Seq<char> {
        text_from(encode_utf8(self.text@), self.pos as int)
    }

    /// A source that reads `text` from its beginning.
    pub fn new(text: String) -> (source: TextSource)
        ensures
            source.remaining() == text@,
    {
        proof {
            encode_utf8_valid_utf8(text@);
            encode_utf8_decode_utf8(text@);
            assert(encode_utf8(text@).skip(0) =~= encode_utf8(text@));
        }
        TextSource { text, pos: 0 }
    }
}

impl LineSource for TextSource {
    /// A read takes the first raw line of what remains, and reports that
    /// line's length in bytes; at the end of the text it takes nothing and
    /// reports zero.
    open spec fn reads(
        self,
        after: Self,
        raw: Seq<char>,
        outcome: Result<usize, std::io::Error>,
    ) -> bool {
        &&& raw == first_raw_line(self.remaining())
        &&& outcome matches Ok(count) && count == encode_utf8(raw).len()
        &&& after.remaining() == after_first_line(self.remaining())
    }

    fn read_line_into(&mut self, buf: &mut String) -> (outcome: Result<usize, std::io::Error>) {
        let text = self.text.as_str();
        let bytes = text.as_bytes();
        let start = self.pos;
        let ghost line = first_raw_line(self.remaining());
        proof {
            use_type_invariant(&*self);
            encode_utf8_valid_utf8(self.text@);
            lemma_line_in_bytes(bytes@, start as int);
            lemma_raw_line_len(self.remaining());
        }
        let mut end: usize = start;
        while end < bytes.len()
            invariant_except_break
                forall|i: int| start <= i < end ==> bytes@[i] != 10u8,
            invariant
                start <= end <= bytes.len(),
            ensures
                start <= end <= bytes.len(),
                forall|i: int| start <= i < end - 1 ==> bytes@[i] != 10u8,
                end < bytes.len() ==> end > start && bytes@[end - 1] == 10u8,
            decreases bytes.len() - end,
        {
            let byte = bytes[end];
            end += 1;
            if byte == 10u8 {
                break ;
            }
        }
        assert(end == start + encode_utf8(line).len());
        let (_, unread) = text.split_at(start);
        let (taken, _) = unread.split_at(end - start);
        proof {
            assert(taken.spec_bytes() =~= bytes@.subrange(start as int, end as int));
            lemma_encode_injective(taken@, line);
        }
        buf.append(taken);
        assert(buf@.skip(old(buf)@.len() as int) =~= line);
        self.pos = end;
        Ok(end - start)
    }
}

} // verus!
