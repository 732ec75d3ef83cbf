//! The batching reader.

use crate::line::{lemma_no_newline_left, line_from_read, line_of, line_view, yield_view, Line};
use crate::source::{is_line_read, LineSource};
use vstd::prelude::*;

verus! {

/// Whether a call of `single` can take the source from `before` to `after`
/// and return `line`. The call makes one read of the source, into an empty
/// buffer, and returns what that read amounts to.
pub open spec fn yields_line<S: LineSource>(before: S, after: S, line: Option<Line>) -> bool {
    exists|raw: Seq<char>, outcome: Result<usize, std::io::Error>|
        {
            &&& #[trigger] before.reads(after, raw, outcome)
            &&& is_line_read(raw, outcome)
            &&& line == line_of(raw, outcome)
        }
}

/// Whether successive calls of `single` can return `lines`, one after the
/// other, while they take the source through `states`: from `states[i]` to
/// `states[i + 1]` with the call that returns `lines[i]`.
pub open spec fn yields_lines<S: LineSource>(states: Seq<S>, lines: Seq<Option<Line>>) -> bool {
    &&& states.len() == lines.len() + 1
    &&& forall|i: int|
        0 <= i < lines.len() ==> yields_line(states[i], states[i + 1], #[trigger] lines[i])
}

/// Whether `batch` is what a reader with the limit `limit` collects from
/// `lines`, the results of its single reads in their order. Every read but
/// one that meets the end of the stream adds its line or its failure to the
/// batch. The reads stop after `limit` of them, or earlier with the first
/// that meets the end of the stream; that read adds nothing. A batch is
/// never empty: where nothing was collected there is none.
pub open spec fn collects(lines: Seq<Option<Line>>, limit: nat, batch: Option<Seq<Line>>) -> bool {
    let kept = match batch {
        Some(kept) => kept,
        None => Seq::empty(),
    };
    &&& batch.is_some() ==> kept.len() > 0
    &&& kept.len() <= limit
    &&& kept.len() <= lines.len()
    &&& forall|i: int| 0 <= i < kept.len() ==> #[trigger] lines[i] == Some(kept[i])
    &&& if kept.len() == limit {
        lines.len() == limit
    } else {
        lines.len() == kept.len() + 1 && lines.last().is_none()
    }
}

/// What a reader collects is decided by the results of its reads: the
/// same results give the same batch.
pub proof fn lemma_collects_one_batch(
    lines: Seq<Option<Line>>,
    limit: nat,
    batch: Option<Seq<Line>>,
    other: Option<Seq<Line>>,
)
    requires
        collects(lines, limit, batch),
        collects(lines, limit, other),
    ensures
        other == batch,
{
    let kept = match batch {
        Some(kept) => kept,
        None => Seq::empty(),
    };
    let others = match other {
        Some(others) => others,
        None => Seq::empty(),
    };
    if kept.len() < others.len() {
        assert(lines[kept.len() as int] == Some(others[kept.len() as int]));
    }
    if others.len() < kept.len() {
        assert(lines[others.len() as int] == Some(kept[others.len() as int]));
    }
    assert forall|i: int| 0 <= i < kept.len() implies kept[i] == others[i] by {
        assert(lines[i] == Some(kept[i]));
        assert(lines[i] == Some(others[i]));
    }
    assert(kept =~= others);
}

/// Every line and every failure that a read gave stands in the batch, at
/// the place of its read: a failure neither ends the batch nor is it left
/// out. Only the last read can be one that meets the end of the stream.
pub proof fn lemma_collects_all(lines: Seq<Option<Line>>, limit: nat, batch: Option<Seq<Line>>)
    requires
        collects(lines, limit, batch),
    ensures
        forall|i: int| 0 <= i < lines.len() - 1 ==> (#[trigger] lines[i]).is_some(),
        forall|i: int|
            0 <= i < lines.len() && (#[trigger] lines[i]).is_some() ==> {
                &&& batch.is_some()
                &&& i < batch.unwrap().len()
                &&& batch.unwrap()[i] == lines[i].unwrap()
            },
{
}

/// Whether a call of `next` on a reader with the limit `limit` can take the
/// source from `before` to `after` and return `batch`. The call reads
/// single lines, as successive calls of `single` would, and returns what it
/// collects from them.
pub open spec fn yields_batch<S: LineSource>(
    before: S,
    after: S,
    limit: nat,
    batch: Option<Seq<Line>>,
) -> bool {
    exists|states: Seq<S>, lines: Seq<Option<Line>>|
        {
            &&& #[trigger] yields_lines(states, lines)
            &&& states.first() == before
            &&& states.last() == after
            &&& collects(lines, limit, batch)
        }
}

/// A reader with the limit zero reads nothing and gives no batch, whatever
/// its source holds.
pub proof fn lemma_zero_limit<S: LineSource>(before: S, after: S, batch: Option<Seq<Line>>)
    requires
        yields_batch(before, after, 0, batch),
    ensures
        batch.is_none(),
        after == before,
{
}

/// A batch with each text taken as a sequence of characters.
pub open spec fn batch_view(batch: Option<Vec<Result<String, std::io::Error>>>) -> Option<
    Seq<Line>,
> {
    match batch {
        Some(lines) => Some(lines@.map_values(|line| line_view(line))),
        None => None,
    }
}

/// A reader that hands out the lines of a source one at a time, or in
/// batches of at most a fixed number of lines.
#[derive(Debug)]
pub struct MaxLines<B> {
    buf: B,
    max_lines: usize,
}

impl<B: LineSource> MaxLines<B> {
    /// The source that the reader draws from.
    pub closed spec fn source(&self) -> B {
        self.buf
    }

    /// The largest number of lines that a batch holds.
    pub closed spec fn limit(&self) -> usize {
        self.max_lines
    }

    /// Reads a single line, with one read of the source.
    ///
    /// Returns `None` at the end of the stream, else the line without its
    /// terminator, or the failure that the source reported. A failure does
    /// not end the stream: the next call reads again.
    pub fn single(&mut self) -> (line: Option<Result<String, std::io::Error>>)
        ensures
            final(self).limit() == old(self).limit(),
            yields_line(old(self).source(), final(self).source(), yield_view(line)),
            line matches Some(Ok(text)) ==> !text@.contains('\n'),
    {
        let mut buf = String::new();
        let outcome = self.buf.read_line_into(&mut buf);
        proof {
            assert(buf@.skip(0) =~= buf@);
            assert(old(self).source().reads(self.source(), buf@, outcome));
            if outcome.is_ok() {
                lemma_no_newline_left(buf@);
            }
        }
        line_from_read(outcome, buf)
    }

    /// Reads the next batch: up to `limit` lines, fewer where the stream
    /// ends before.
    ///
    /// A failure takes the place of its line in the batch and does not end
    /// it. Returns `None` where not one line or failure was collected.
    ///
    /// A source that fails on every read never meets its end: each call
    /// then returns a full batch of failures. A caller that cannot rule
    /// this out has to give up by itself.
    pub fn next(&mut self) -> (batch: Option<Vec<Result<String, std::io::Error>>>)
        ensures
            final(self).limit() == old(self).limit(),
            yields_batch(
                old(self).source(),
                final(self).source(),
                old(self).limit() as nat,
                batch_view(batch),
            ),
            batch matches Some(lines) ==> forall|i: int|
                0 <= i < lines.len() ==> ((#[trigger] lines[i]) matches Ok(text)
                    ==> !text@.contains('\n')),
    {
        let mut ret: Vec<Result<String, std::io::Error>> = Vec::new();
        let ghost mut states: Seq<B> = seq![self.buf];
        let ghost mut lines: Seq<Option<Line>> = Seq::empty();
        let mut i: usize = 0;
        while i < self.max_lines
            invariant_except_break
                i <= self.max_lines,
                i == ret.len(),
                lines.len() == ret.len(),
            invariant
                self.max_lines == old(self).max_lines,
                yields_lines(states, lines),
                states.first() == old(self).buf,
                states.last() == self.buf,
                ret.len() <= lines.len(),
                forall|j: int|
                    0 <= j < ret.len() ==> ((#[trigger] ret[j]) matches Ok(text)
                        ==> !text@.contains('\n')),
                forall|j: int|
                    0 <= j < ret.len() ==> #[trigger] lines[j] == Some(line_view(ret@[j])),
            ensures
                ret.len() <= self.max_lines,
                if ret.len() == self.max_lines {
                    lines.len() == ret.len()
                } else {
                    lines.len() == ret.len() + 1 && lines.last().is_none()
                },
            decreases self.max_lines - i,
        {
            let line = self.single();
            proof {
                let earlier = states;
                states = states.push(self.buf);
                lines = lines.push(yield_view(line));
                assert forall|j: int| 0 <= j < lines.len() implies yields_line(
                    states[j],
                    states[j + 1],
                    #[trigger] lines[j],
                ) by {
                    if j + 1 < lines.len() {
                        assert(states[j] == earlier[j] && states[j + 1] == earlier[j + 1]);
                    }
                }
            }
            match line {
                None => break,
                Some(s) => ret.push(s),
            }
            i += 1;
        }
        let batch = if ret.len() == 0 {
            None
        } else {
            Some(ret)
        };
        proof {
            assert(yields_lines(states, lines));
            assert(collects(lines, old(self).limit() as nat, batch_view(batch)));
        }
        batch
    }
}

/// Sources that can be wrapped in a batching reader.
pub trait MaxLinesIterator: LineSource {
    /// Wraps the source in a reader whose batches hold at most `max_lines`
    /// lines. With `max_lines` zero the reader gives no batch at all; its
    /// single reads are not affected.
    fn max_lines(self, max_lines: usize) -> (reader: MaxLines<Self>)
        ensures
            reader.source() == self,
            reader.limit() == max_lines,
    {
        MaxLines { buf: self, max_lines }
    }
}

impl<B: LineSource> MaxLinesIterator for B {
}

} // verus!
