//! Lines: what a read of the source amounts to, and how a raw line loses
//! its terminator.

use vstd::prelude::*;

verus! {

/// A raw line without its terminator: one trailing `\n` is dropped, and with
/// it the `\r` that stands directly before it. A raw line that does not end in
/// `\n` is left as it is, a trailing `\r` included.
pub open spec fn without_terminator(raw: Seq<char>) -> Seq<char> {
    if raw.len() > 0 && raw.last() == '\n' {
        let body = raw.drop_last();
        if body.len() > 0 && body.last() == '\r' {
            body.drop_last()
        } else {
            body
        }
    } else {
        raw
    }
}

/// A raw line that holds no `\n` but at its end holds none at all once its
/// terminator is gone.
pub proof fn lemma_no_newline_left(raw: Seq<char>)
    requires
        forall|i: int| 0 <= i < raw.len() - 1 ==> raw[i] != '\n',
    ensures
        !without_terminator(raw).contains('\n'),
{
    let line = without_terminator(raw);
    assert forall|i: int| 0 <= i < line.len() implies line[i] != '\n' by {
        assert(line[i] == raw[i]);
    }
}

/// `String::pop` removes the last character of the string and returns it; on
/// an empty string it returns `None` and changes nothing.
pub assume_specification[ String::pop ](text: &mut String) -> (last: Option<char>)
    ensures
        old(text)@.len() == 0 ==> last.is_none() && final(text)@ == old(text)@,
        old(text)@.len() > 0 ==> last == Some(old(text)@.last()) && final(text)@ == old(
            text,
        )@.drop_last(),
;

/// `str::ends_with` with a character as its pattern: whether the last
/// character of the string is that character. An empty string ends with none.
#[verifier::external_body]
fn ends_with(text: &String, c: char) -> (found: bool)
    ensures
        found == (text@.len() > 0 && text@.last() == c),
{
    text.ends_with(c)
}

/// Removes the line terminator from the end of `line`, if it has one.
pub fn strip_terminator(line: &mut String)
    ensures
        final(line)@ == without_terminator(old(line)@),
{
    if ends_with(line, '\n') {
        line.pop();
        if ends_with(line, '\r') {
            line.pop();
        }
    }
}

/// A line or the failure that stands in its place, with the line's text
/// taken as a sequence of characters.
pub type Line = Result<Seq<char>, std::io::Error>;

/// A line or a failure, with the line's text taken as a sequence of
/// characters.
pub open spec fn line_view(line: Result<String, std::io::Error>) -> Line {
    match line {
        Ok(text) => Ok(text@),
        Err(failure) => Err(failure),
    }
}

/// What a read yields, or `None` at the end of the stream, with each text
/// taken as a sequence of characters.
pub open spec fn yield_view(line: Option<Result<String, std::io::Error>>) -> Option<Line> {
    match line {
        Some(l) => Some(line_view(l)),
        None => None,
    }
}

/// What one read amounts to, when it filled an empty buffer with `raw` and
/// reported `outcome`. Zero bytes mean the end of the stream: there is no
/// line. Any other count gives the raw line without its terminator. A
/// failure stands in the place of the line; what the buffer holds by then
/// is dropped.
pub open spec fn line_of(raw: Seq<char>, outcome: Result<usize, std::io::Error>) -> Option<Line> {
    match outcome {
        Ok(count) => if count == 0 {
            None
        } else {
            Some(Ok(without_terminator(raw)))
        },
        Err(failure) => Some(Err(failure)),
    }
}

/// Turns what a read reported, and the buffer that it filled, into a line, a
/// failure, or `None` at the end of the stream.
pub fn line_from_read(outcome: Result<usize, std::io::Error>, buf: String) -> (line: Option<
    Result<String, std::io::Error>,
>)
    ensures
        yield_view(line) == line_of(buf@, outcome),
{
    match outcome {
        Ok(count) => {
            if count == 0 {
                None
            } else {
                let mut text = buf;
                strip_terminator(&mut text);
                Some(Ok(text))
            }
        },
        Err(failure) => Some(Err(failure)),
    }
}

} // verus!
