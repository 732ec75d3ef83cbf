//! What holds of a reader that draws from a text held in memory: each call
//! gives the next lines of the text, and all calls together give them all.

use crate::encoding::lemma_encode_len;
use crate::line::Line;
use crate::reader::{collects, yields_batch, yields_line, yields_lines};
use crate::text::{
    after_first_line, first_raw_line, lemma_raw_line_len, lemma_skip_lines,
    lemma_skip_lines_step, lines_of, skip_lines,
};
use crate::text_source::TextSource;
use vstd::prelude::*;

verus! {

/// The lines `lines` as a batch holds them: each one a success.
pub open spec fn all_ok(lines: Seq<Seq<char>>) -> Seq<Line> {
    lines.map_values(|line: Seq<char>| Ok::<Seq<char>, std::io::Error>(line))
}

/// A call of `single` on a text returns the first line of what remains of
/// it, never a failure, and leaves what lies behind that line. Where
/// nothing remains it returns `None`, and nothing changes.
pub proof fn lemma_single_on_text(before: TextSource, after: TextSource, line: Option<Line>)
    requires
        yields_line(before, after, line),
    ensures
        before.remaining().len() == 0 ==> line.is_none() && after.remaining().len() == 0,
        before.remaining().len() > 0 ==> line == Some(
            Ok::<Seq<char>, std::io::Error>(lines_of(before.remaining())[0]),
        ),
        after.remaining() == after_first_line(before.remaining()),
{
    let text = before.remaining();
    lemma_raw_line_len(text);
    lemma_encode_len(first_raw_line(text));
}

/// After `n` single reads of a text, what remains lies behind the first
/// `n` raw lines; and as long as every read gave a line, the lines came in
/// the order of the text, not one of them a failure.
proof fn lemma_singles_on_text(states: Seq<TextSource>, lines: Seq<Option<Line>>, n: nat)
    requires
        yields_lines(states, lines),
        n <= lines.len(),
        forall|i: int| 0 <= i < n ==> (#[trigger] lines[i]).is_some(),
    ensures
        states[n as int].remaining() == skip_lines(states[0].remaining(), n),
        n <= lines_of(states[0].remaining()).len(),
        forall|i: int|
            0 <= i < n ==> #[trigger] lines[i] == Some(
                Ok::<Seq<char>, std::io::Error>(lines_of(states[0].remaining())[i]),
            ),
        n < lines.len() ==> (lines[n as int].is_none() <==> n == lines_of(
            states[0].remaining(),
        ).len()),
    decreases n,
{
    let text = states[0].remaining();
    if n > 0 {
        let m = (n - 1) as nat;
        lemma_singles_on_text(states, lines, m);
        lemma_single_on_text(states[m as int], states[m as int + 1], lines[m as int]);
        lemma_skip_lines_step(text, m);
        lemma_skip_lines(text, m);
    }
    if n < lines.len() {
        lemma_single_on_text(states[n as int], states[n as int + 1], lines[n as int]);
        lemma_skip_lines(text, n);
    }
}

/// A call of `next` on a text returns the next lines of what remains of it,
/// in order and none of them a failure: as many as the limit allows, or all
/// that are left where those are fewer. It leaves what lies behind them.
/// It returns `None` where the limit is zero or nothing remains.
pub proof fn lemma_next_on_text(
    before: TextSource,
    after: TextSource,
    limit: nat,
    batch: Option<Seq<Line>>,
)
    requires
        yields_batch(before, after, limit, batch),
    ensures
        ({
            let lines = lines_of(before.remaining());
            let count = if limit <= lines.len() {
                limit
            } else {
                lines.len()
            };
            &&& batch.is_none() <==> limit == 0 || before.remaining().len() == 0
            &&& count == 0 ==> batch.is_none()
            &&& count > 0 ==> batch == Some(all_ok(lines.take(count as int)))
            &&& after.remaining() == skip_lines(before.remaining(), count)
            &&& lines_of(after.remaining()) == lines.skip(count as int)
        }),
{
    let text = before.remaining();
    let all = lines_of(text);
    let (states, lines) = choose|states: Seq<TextSource>, lines: Seq<Option<Line>>|
        {
            &&& #[trigger] yields_lines(states, lines)
            &&& states.first() == before
            &&& states.last() == after
            &&& collects(lines, limit, batch)
        };
    let kept = match batch {
        Some(kept) => kept,
        None => Seq::empty(),
    };
    let count = kept.len();
    lemma_singles_on_text(states, lines, count);
    lemma_skip_lines(text, count);
    if lines.len() > count {
        lemma_skip_lines_step(text, count);
        lemma_single_on_text(states[count as int], states[count as int + 1], lines[count as int]);
    }
    assert forall|i: int| 0 <= i < count implies kept[i] == all_ok(all.take(count as int))[i] by {
        assert(lines[i] == Some(kept[i]));
    }
    assert(kept =~= all_ok(all.take(count as int)));
}

/// Whether `batches` are the batches that calls of `next` with the limit
/// `limit` return, one after the other, up to the first call that returns
/// `None`; `states` holds the source before the first call and after each
/// call, that last one included.
pub open spec fn is_session(states: Seq<TextSource>, limit: nat, batches: Seq<Seq<Line>>) -> bool {
    &&& states.len() == batches.len() + 2
    &&& forall|i: int|
        0 <= i < batches.len() ==> yields_batch(
            states[i],
            states[i + 1],
            limit,
            Some(#[trigger] batches[i]),
        )
    &&& yields_batch(states[batches.len() as int], states[batches.len() as int + 1], limit, None)
}

/// The batches that a reader with a limit of at least one gives of a text,
/// put one behind the other, are the lines of the text, in order and none
/// of them a failure. Every batch but the last is as long as the limit,
/// and the last is not longer.
pub proof fn lemma_batches_hold_the_lines(
    states: Seq<TextSource>,
    limit: nat,
    batches: Seq<Seq<Line>>,
)
    requires
        limit > 0,
        is_session(states, limit, batches),
    ensures
        batches.flatten() == all_ok(lines_of(states[0].remaining())),
        forall|i: int| 0 <= i < batches.len() ==> 0 < (#[trigger] batches[i]).len() <= limit,
        forall|i: int| 0 <= i < batches.len() - 1 ==> (#[trigger] batches[i]).len() == limit,
    decreases batches.len(),
{
    let lines = lines_of(states[0].remaining());
    if batches.len() == 0 {
        lemma_next_on_text(states[0], states[1], limit, None);
        assert(all_ok(lines) =~= batches.flatten());
    } else {
        let first = batches[0];
        let later = batches.drop_first();
        lemma_next_on_text(states[0], states[1], limit, Some(first));
        assert(is_session(states.drop_first(), limit, later)) by {
            assert forall|i: int| 0 <= i < later.len() implies yields_batch(
                states.drop_first()[i],
                states.drop_first()[i + 1],
                limit,
                Some(#[trigger] later[i]),
            ) by {
                assert(later[i] == batches[i + 1]);
            }
        }
        lemma_batches_hold_the_lines(states.drop_first(), limit, later);
        assert(states.drop_first()[0] == states[1]);
        let rest = lines_of(states[1].remaining());
        assert(all_ok(lines) =~= first + all_ok(rest));
        if later.len() > 0 {
            lemma_next_on_text(states[1], states[2], limit, Some(later[0]));
        }
        assert forall|i: int| 0 <= i < batches.len() implies 0 < (#[trigger] batches[i]).len()
            <= limit by {
            if i > 0 {
                assert(batches[i] == later[i - 1]);
            }
        }
        assert forall|i: int| 0 <= i < batches.len() - 1 implies (#[trigger] batches[i]).len()
            == limit by {
            if i > 0 {
                assert(batches[i] == later[i - 1]);
            }
        }
    }
}

} // verus!
