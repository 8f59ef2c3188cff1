//! What holds of a feeder over a whole stream of lines.

use vstd::prelude::*;
use crate::call::KvCallView;
use crate::feeder::{FeedState, FeederView};
use crate::order::{ascending, lemma_insert_key};
use crate::stats::lemma_absorb;
use crate::text::{has_infix, words};
use crate::translate::{call_of, key_of, keys_after, line_meaning, value_of};

verus! {

/// When a call was started, how long it took and when it was completed, in
/// microseconds.
pub struct Timing {
    pub started_at: u64,
    pub elapsed_us: u64,
    pub finished_at: u64,
}

/// Whether the feeder `s` dispatches a call for `line`.
pub open spec fn dispatches(s: FeederView, line: Seq<char>) -> bool {
    s.state == FeedState::Reading && line_meaning(line, s.keys) matches Ok(Some(_))
}

/// The feeder after `line`, where the client answers the call that the
/// line asks for, if any, with the timing `t`.
pub open spec fn after_served_line(s: FeederView, line: Seq<char>, t: Timing) -> FeederView {
    match line_meaning(line, s.keys) {
        Ok(Some((_, label))) => s.after_line(line).after_answer(
            label,
            t.started_at,
            t.elapsed_us,
            t.finished_at,
        ),
        _ => s.after_line(line),
    }
}

/// The feeder after the lines of a stream, one after the other, where the
/// call of line `i` is answered with the timing `timings[i]`.
pub open spec fn after_stream(s: FeederView, lines: Seq<Seq<char>>, timings: Seq<Timing>) -> FeederView
    decreases lines.len(),
{
    if lines.len() == 0 {
        s
    } else {
        after_served_line(
            after_stream(s, lines.drop_last(), timings),
            lines.last(),
            timings[lines.len() - 1],
        )
    }
}

/// The number of lines of a stream for which a call is dispatched.
pub open spec fn calls_in(s: FeederView, lines: Seq<Seq<char>>, timings: Seq<Timing>) -> nat
    decreases lines.len(),
{
    if lines.len() == 0 {
        0
    } else {
        calls_in(s, lines.drop_last(), timings) + if dispatches(
            after_stream(s, lines.drop_last(), timings),
            lines.last(),
        ) {
            1nat
        } else {
            0nat
        }
    }
}

/// Whether the first word of `line` names one of the four operations.
pub open spec fn names_call(line: Seq<char>) -> bool {
    let toks = words(line);
    toks.len() > 0 && (toks[0] == "INSERT"@ || toks[0] == "UPDATE"@ || toks[0] == "READ"@ || toks[0]
        == "SCAN"@)
}

/// The key that `line` inserts, where it is a well-formed insert.
pub open spec fn inserted(line: Seq<char>) -> Option<Seq<char>> {
    let toks = words(line);
    if toks.len() > 0 && toks[0] == "INSERT"@ && key_of(toks, 1) is Some && value_of(toks, 3) is Some {
        key_of(toks, 1)
    } else {
        None
    }
}

/// A line that names an operation is a call or an error, never passed over;
/// and a well-formed insert is a call whatever keys are known.
pub proof fn lemma_call_lines(line: Seq<char>, keys: Seq<Seq<char>>)
    ensures
        names_call(line) ==> !(call_of(line, keys) matches Ok(None)),
        inserted(line) is Some ==> call_of(line, keys) matches Ok(Some(_)),
        inserted(line) is Some && ascending(keys) ==> keys_after(line, keys).contains(
            inserted(line)->0,
        ),
        call_of(line, keys) matches Ok(Some((KvCallView::Put { key, .. }, _))) ==> inserted(line)
            == Some(key),
{
    if inserted(line) is Some && ascending(keys) {
        lemma_insert_key(keys, inserted(line)->0);
    }
}

/// What one line of a stream changes.
pub proof fn lemma_served_line(s: FeederView, line: Seq<char>, t: Timing)
    requires
        s.stats.wf(),
        ascending(s.keys),
    ensures
        after_served_line(s, line, t).stats.wf(),
        ascending(after_served_line(s, line, t).keys),
        after_served_line(s, line, t).stats.total_ops() == s.stats.total_ops() + if dispatches(
            s,
            line,
        ) {
            1nat
        } else {
            0nat
        },
        forall|k: Seq<char>| s.keys.contains(k) ==> after_served_line(s, line, t).keys.contains(k),
        s.state != FeedState::Reading ==> after_served_line(s, line, t) == s,
        !dispatches(s, line) ==> after_served_line(s, line, t).started == s.started
            && after_served_line(s, line, t).last_end == s.last_end,
        after_served_line(s, line, t).state == FeedState::Reading ==> s.state == FeedState::Reading
            && !(line_meaning(line, s.keys) is Err),
        after_served_line(s, line, t).state == FeedState::Reading && inserted(line) is Some
            ==> after_served_line(s, line, t).keys.contains(inserted(line)->0),
{
    let toks = words(line);
    lemma_call_lines(line, s.keys);
    if toks.len() > 0 && toks[0] == "INSERT"@ && call_of(line, s.keys) is Ok {
        lemma_insert_key(s.keys, key_of(toks, 1)->0);
    }
    match line_meaning(line, s.keys) {
        Ok(Some((_, label))) => {
            lemma_absorb(s.stats, label, seq![t.elapsed_us]);
        },
        _ => {},
    }
}

/// A feeder that no longer reads is not changed by a stream.
pub proof fn lemma_stopped_stays(s: FeederView, lines: Seq<Seq<char>>, timings: Seq<Timing>)
    requires
        s.state != FeedState::Reading,
    ensures
        after_stream(s, lines, timings) == s,
        calls_in(s, lines, timings) == 0,
    decreases lines.len(),
{
    if lines.len() > 0 {
        lemma_stopped_stays(s, lines.drop_last(), timings);
    }
}

/// What a stream of lines changes: the statistics stay well formed and
/// gain one sample for each call that is dispatched, and no known key is
/// lost. Where the feeder still reads after the stream, it has read all
/// along, no line was in error, and the key of each insert is known.
pub proof fn lemma_stream(s: FeederView, lines: Seq<Seq<char>>, timings: Seq<Timing>)
    requires
        s.stats.wf(),
        ascending(s.keys),
    ensures
        after_stream(s, lines, timings).stats.wf(),
        ascending(after_stream(s, lines, timings).keys),
        after_stream(s, lines, timings).stats.total_ops() == s.stats.total_ops() + calls_in(
            s,
            lines,
            timings,
        ),
        forall|k: Seq<char>| s.keys.contains(k) ==> after_stream(s, lines, timings).keys.contains(k),
        calls_in(s, lines, timings) == 0 ==> after_stream(s, lines, timings).started == s.started
            && after_stream(s, lines, timings).last_end == s.last_end,
        after_stream(s, lines, timings).state == FeedState::Reading ==> s.state
            == FeedState::Reading,
        after_stream(s, lines, timings).state == FeedState::Reading ==> forall|i: int|
            0 <= i < lines.len() && inserted(#[trigger] lines[i]) is Some ==> after_stream(
                s,
                lines,
                timings,
            ).keys.contains(inserted(lines[i])->0),
        after_stream(s, lines, timings).state == FeedState::Reading && (forall|i: int|
            0 <= i < lines.len() ==> names_call(#[trigger] lines[i])) ==> calls_in(s, lines, timings)
            == lines.len(),
    decreases lines.len(),
{
    if lines.len() > 0 {
        let front = lines.drop_last();
        let mid = after_stream(s, front, timings);
        let end = after_stream(s, lines, timings);
        let t = timings[lines.len() - 1];
        lemma_stream(s, front, timings);
        lemma_served_line(mid, lines.last(), t);
        lemma_call_lines(lines.last(), mid.keys);
        if end.state == FeedState::Reading {
            assert forall|i: int| 0 <= i < lines.len() && inserted(#[trigger] lines[i]) is Some implies end.keys.contains(
                inserted(lines[i])->0,
            ) by {
                if i < front.len() {
                    assert(front[i] == lines[i]);
                    assert(mid.keys.contains(inserted(front[i])->0));
                }
            }
            if forall|i: int| 0 <= i < lines.len() ==> names_call(#[trigger] lines[i]) {
                assert forall|i: int| 0 <= i < front.len() implies names_call(#[trigger] front[i]) by {
                    assert(front[i] == lines[i]);
                }
                assert(names_call(lines[lines.len() - 1]));
                assert(dispatches(mid, lines.last()));
            }
        }
    }
}

/// A stream that ends after lines without an error: the feeder ends, and
/// hands over the statistics of one driver, with one sample for each call
/// that was dispatched, so as many as there are lines where each line names
/// an operation, and a set of keys that holds the keys known at the start
/// and the key of each insert. Where no call was dispatched, the duration
/// is zero.
pub proof fn lemma_clean_stream_ends(
    keys: Seq<Seq<char>>,
    lines: Seq<Seq<char>>,
    timings: Seq<Timing>,
)
    requires
        ascending(keys),
        after_stream(FeederView::start(keys), lines, timings).state == FeedState::Reading,
    ensures
        ({
            let end = after_stream(FeederView::start(keys), lines, timings).after_eof();
            &&& end.state == FeedState::Ended
            &&& end.outcome() matches Some((stats, known))
            &&& stats.merged == 1
            &&& stats.total_ops() == calls_in(FeederView::start(keys), lines, timings)
            &&& stats.total_ops() == 0 ==> stats.total_us == 0
            &&& (forall|i: int| 0 <= i < lines.len() ==> names_call(#[trigger] lines[i]))
                ==> stats.total_ops() == lines.len()
            &&& forall|k: Seq<char>| keys.contains(k) ==> known.contains(k)
            &&& forall|i: int|
                0 <= i < lines.len() && inserted(#[trigger] lines[i]) is Some ==> known.contains(
                    inserted(lines[i])->0,
                )
        }),
{
    let s = FeederView::start(keys);
    assert(s.stats.total_ops() == 0);
    lemma_stream(s, lines, timings);
}

/// A line that reports a missing file, and is neither a call nor one of the
/// generator's own reports, ends the feeder at once: the feeder fails, hands
/// over nothing, dispatches nothing for the line, and no later line changes
/// it.
pub proof fn lemma_missing_file_stops(
    s: FeederView,
    line: Seq<char>,
    t: Timing,
    rest: Seq<Seq<char>>,
    timings: Seq<Timing>,
)
    requires
        s.state == FeedState::Reading,
        has_infix(line, "No such file"@),
        !(call_of(line, s.keys) matches Ok(Some(_))),
        !(line.len() > 0 && line[0] == '['),
    ensures
        s.after_line(line).state == FeedState::Failed,
        s.after_line(line).outcome() is None,
        s.after_line(line).stats == s.stats,
        s.after_line(line).keys == s.keys,
        after_served_line(s, line, t) == s.after_line(line),
        after_stream(s.after_line(line), rest, timings) == s.after_line(line),
        calls_in(s.after_line(line), rest, timings) == 0,
{
    lemma_stopped_stays(s.after_line(line), rest, timings);
}

} // verus!
