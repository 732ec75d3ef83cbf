//! The lines of a text, as mathematics: where its first raw line ends, and
//! the sequence of lines that reading it to the end gives.

use crate::line::{lemma_no_newline_left, without_terminator};
use vstd::prelude::*;

verus! {

/// The length of the first raw line of `text`: everything up to and
/// including the first `\n`, or all of `text` where it holds none.
pub open spec fn raw_line_len(text: Seq<char>) -> nat
    decreases text.len(),
{
    if text.len() == 0 {
        0
    } else if text[0] == '\n' {
        1
    } else {
        1 + raw_line_len(text.drop_first())
    }
}

/// The first raw line of `text`, its terminator included.
pub open spec fn first_raw_line(text: Seq<char>) -> Seq<char> {
    text.take(raw_line_len(text) as int)
}

/// What is left of `text` behind its first raw line.
pub open spec fn after_first_line(text: Seq<char>) -> Seq<char> {
    text.skip(raw_line_len(text) as int)
}

/// The first raw line is a prefix of the text, not empty unless the text
/// is, with no `\n` but at its end, and it ends in `\n` unless it is all of
/// the text.
pub proof fn lemma_raw_line_len(text: Seq<char>)
    ensures
        raw_line_len(text) <= text.len(),
        text.len() > 0 ==> raw_line_len(text) > 0,
        forall|i: int| 0 <= i < raw_line_len(text) - 1 ==> text[i] != '\n',
        raw_line_len(text) < text.len() ==> text[raw_line_len(text) - 1] == '\n',
    decreases text.len(),
{
    if text.len() > 0 && text[0] != '\n' {
        let rest = text.drop_first();
        lemma_raw_line_len(rest);
        assert forall|i: int| 0 <= i < raw_line_len(text) - 1 implies text[i] != '\n' by {
            if i > 0 {
                assert(text[i] == rest[i - 1]);
            }
        }
        if raw_line_len(text) < text.len() {
            assert(text[raw_line_len(text) - 1] == rest[raw_line_len(rest) - 1]);
        }
    }
}

/// The lines of `text`: its raw lines in order, each without its terminator.
/// A text that does not end in `\n` has its last fragment as its last line.
pub open spec fn lines_of(text: Seq<char>) -> Seq<Seq<char>>
    decreases text.len(),
    via lines_of_decreases
{
    if text.len() == 0 {
        Seq::empty()
    } else {
        seq![without_terminator(first_raw_line(text))] + lines_of(after_first_line(text))
    }
}

#[via_fn]
proof fn lines_of_decreases(text: Seq<char>) {
    lemma_raw_line_len(text);
}

/// No line of a text holds a `\n`.
pub proof fn lemma_lines_hold_no_newline(text: Seq<char>)
    ensures
        forall|i: int|
            0 <= i < lines_of(text).len() ==> !(#[trigger] lines_of(text)[i]).contains('\n'),
    decreases text.len(),
{
    if text.len() > 0 {
        let rest = lines_of(after_first_line(text));
        lemma_raw_line_len(text);
        lemma_no_newline_left(first_raw_line(text));
        lemma_lines_hold_no_newline(after_first_line(text));
        assert forall|i: int| 0 <= i < lines_of(text).len() implies !(#[trigger] lines_of(
            text,
        )[i]).contains('\n') by {
            if i > 0 {
                assert(lines_of(text)[i] == rest[i - 1]);
            }
        }
    }
}

/// What is left of `text` behind its first `n` raw lines.
pub open spec fn skip_lines(text: Seq<char>, n: nat) -> Seq<char>
    decreases n,
{
    if n == 0 {
        text
    } else {
        skip_lines(after_first_line(text), (n - 1) as nat)
    }
}

/// Behind one raw line more lies what is behind the first raw line of the
/// rest.
pub proof fn lemma_skip_lines_step(text: Seq<char>, n: nat)
    ensures
        skip_lines(text, n + 1) == after_first_line(skip_lines(text, n)),
    decreases n,
{
    assert(skip_lines(text, n + 1) == skip_lines(after_first_line(text), n));
    if n > 0 {
        lemma_skip_lines_step(after_first_line(text), (n - 1) as nat);
    }
}

/// Behind the first `n` raw lines of a text lie its lines from the `n`-th
/// on; behind all of its lines nothing is left.
pub proof fn lemma_skip_lines(text: Seq<char>, n: nat)
    requires
        n <= lines_of(text).len(),
    ensures
        lines_of(skip_lines(text, n)) == lines_of(text).skip(n as int),
        n < lines_of(text).len() ==> skip_lines(text, n).len() > 0 && lines_of(text)[n as int]
            == without_terminator(first_raw_line(skip_lines(text, n))),
        n == lines_of(text).len() ==> skip_lines(text, n).len() == 0,
    decreases n,
{
    if n == 0 {
        assert(lines_of(text).skip(0) =~= lines_of(text));
    } else {
        let rest = after_first_line(text);
        lemma_skip_lines(rest, (n - 1) as nat);
        assert(lines_of(text).skip(n as int) =~= lines_of(rest).skip(n - 1));
    }
}

} // verus!
