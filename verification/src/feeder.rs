//! The feeder of one driver: it takes what the generator writes, line by
//! line, says which call to dispatch, and records how long each call took.
//! Reading the lines and talking to the client is left to the caller, who
//! hands each outcome back as an event.

use vstd::prelude::*;
use crate::call::{KvCall, KvCallView};
use crate::error::{RunnerError, RunnerErrorView};
use crate::keys::KeySet;
use crate::stats::{Stats, StatsView};
use crate::translate::{interpret, keys_after, line_meaning, outcome_view};

verus! {

/// Where a feeder stands.
#[derive(Debug, Clone, Copy, PartialEq, Eq)]
pub enum FeedState {
    /// Lines are still read.
    Reading,
    /// The generator's output has ended without an error.
    Ended,
    /// A line, a read or a call has failed.
    Failed,
}

/// A feeder as a mathematical value.
pub struct FeederView {
    pub stats: StatsView,
    /// The known keys, in ascending order.
    pub keys: Seq<Seq<char>>,
    pub state: FeedState,
    /// When the first call was started.
    pub started: Option<u64>,
    /// When the last call was completed.
    pub last_end: Option<u64>,
}

impl FeederView {
    /// A feeder that has read nothing, with the keys known at its start.
    pub open spec fn start(keys: Seq<Seq<char>>) -> FeederView {
        FeederView {
            stats: StatsView::empty(),
            keys,
            state: FeedState::Reading,
            started: None,
            last_end: None,
        }
    }

    /// The feeder after a line was read. A line in error ends the feeder;
    /// an insert adds its key to the known keys.
    pub open spec fn after_line(self, line: Seq<char>) -> FeederView {
        if self.state != FeedState::Reading {
            self
        } else if line_meaning(line, self.keys) is Err {
            FeederView { state: FeedState::Failed, ..self }
        } else {
            FeederView { keys: keys_after(line, self.keys), ..self }
        }
    }

    /// The feeder after the client has answered a call of `label`. The
    /// first call sets the start of the measured window, each call its end.
    pub open spec fn after_answer(
        self,
        label: Seq<char>,
        started_at: u64,
        elapsed_us: u64,
        finished_at: u64,
    ) -> FeederView {
        if self.state != FeedState::Reading {
            self
        } else {
            FeederView {
                stats: self.stats.record(label, elapsed_us),
                started: if self.started is None {
                    Some(started_at)
                } else {
                    self.started
                },
                last_end: Some(finished_at),
                ..self
            }
        }
    }

    /// The feeder after the generator's output has ended.
    pub open spec fn after_eof(self) -> FeederView {
        if self.state != FeedState::Reading {
            self
        } else {
            FeederView { state: FeedState::Ended, ..self }
        }
    }

    /// The feeder after a read or a call has failed.
    pub open spec fn after_failure(self) -> FeederView {
        if self.state != FeedState::Reading {
            self
        } else {
            FeederView { state: FeedState::Failed, ..self }
        }
    }

    /// The feeder after `event`.
    pub open spec fn after(self, event: FeedEvent) -> FeederView {
        match event {
            FeedEvent::Line(line) => self.after_line(line@),
            FeedEvent::Eof => self.after_eof(),
            FeedEvent::Answered { label, started_at, elapsed_us, finished_at } => self.after_answer(
                label@,
                started_at,
                elapsed_us,
                finished_at,
            ),
            FeedEvent::Failed(_) => self.after_failure(),
        }
    }

    /// The microseconds between the start of the first call and the end of
    /// the last; zero where no call was dispatched.
    pub open spec fn span_us(self) -> nat {
        match (self.started, self.last_end) {
            (Some(s), Some(e)) => if e >= s {
                (e - s) as nat
            } else {
                0
            },
            _ => 0,
        }
    }

    /// What the feeder hands to the orchestrator: the statistics of one
    /// driver and the known keys where it has ended, nothing where it has
    /// failed or is still reading.
    pub open spec fn outcome(self) -> Option<(StatsView, Seq<Seq<char>>)> {
        if self.state == FeedState::Ended {
            Some((self.stats.closed(self.span_us()), self.keys))
        } else {
            None
        }
    }
}

/// What has happened since the feeder last said what to do.
#[derive(Debug)]
pub enum FeedEvent {
    /// A line was read from the generator.
    Line(String),
    /// The generator's output has ended.
    Eof,
    /// The client has answered the call that was dispatched under `label`:
    /// when the call was started, how long it took, and when it was
    /// completed, in microseconds.
    Answered { label: String, started_at: u64, elapsed_us: u64, finished_at: u64 },
    /// Reading a line, sending the call or waiting for the answer failed.
    Failed(RunnerError),
}

/// What the caller is to do next.
#[derive(Debug, PartialEq, Eq)]
pub enum FeedAction {
    /// Read the next line.
    ReadLine,
    /// Send `call` to the client and wait for its answer.
    Dispatch { call: KvCall, label: String },
    /// Stop feeding. `error` is what to report, if anything.
    Stop { error: Option<RunnerError> },
}

/// A `FeedAction` with the contents of its strings.
pub enum FeedActionView {
    ReadLine,
    Dispatch { call: KvCallView, label: Seq<char> },
    Stop { error: Option<RunnerErrorView> },
}

impl View for FeedAction {
    type V = FeedActionView;

    open spec fn view(&self) -> FeedActionView {
        match self {
            FeedAction::ReadLine => FeedActionView::ReadLine,
            FeedAction::Dispatch { call, label } => FeedActionView::Dispatch {
                call: call@,
                label: label@,
            },
            FeedAction::Stop { error } => FeedActionView::Stop {
                error: match error {
                    Some(e) => Some(e@),
                    None => None,
                },
            },
        }
    }
}

/// The error that is reported when a feeder stops on `e`: none for one that
/// is no fault.
pub open spec fn reported(e: RunnerErrorView) -> Option<RunnerErrorView> {
    if e.is_benign() {
        None
    } else {
        Some(e)
    }
}

/// What a feeder in state `s` answers to `event`.
pub open spec fn expected_action(s: FeederView, event: FeedEvent) -> FeedActionView {
    if s.state != FeedState::Reading {
        FeedActionView::Stop { error: None }
    } else {
        match event {
            FeedEvent::Line(line) => match line_meaning(line@, s.keys) {
                Ok(None) => FeedActionView::ReadLine,
                Ok(Some((call, label))) => FeedActionView::Dispatch { call, label },
                Err(e) => FeedActionView::Stop { error: reported(e) },
            },
            FeedEvent::Eof => FeedActionView::Stop { error: None },
            FeedEvent::Answered { .. } => FeedActionView::ReadLine,
            FeedEvent::Failed(e) => FeedActionView::Stop { error: reported(e@) },
        }
    }
}

/// The feeder of one driver.
pub struct Feeder {
    stats: Stats,
    keys: KeySet,
    state: FeedState,
    started: Option<u64>,
    last_end: Option<u64>,
}

impl View for Feeder {
    type V = FeederView;

    closed spec fn view(&self) -> FeederView {
        FeederView {
            stats: self.stats@,
            keys: self.keys@,
            state: self.state,
            started: self.started,
            last_end: self.last_end,
        }
    }
}

fn report_of(e: RunnerError) -> (r: Option<RunnerError>)
    ensures
        match r {
            Some(x) => reported(e@) == Some(x@),
            None => reported(e@) is None,
        },
{
    if e.is_benign() {
        None
    } else {
        Some(e)
    }
}

impl Feeder {
    /// A feeder that has read nothing, with the keys known at its start.
    pub fn new(keys: KeySet) -> (r: Feeder)
        ensures
            r@ == FeederView::start(keys@),
    {
        Feeder { stats: Stats::new(), keys, state: FeedState::Reading, started: None, last_end: None }
    }

    /// Where the feeder stands.
    pub fn state(&self) -> (r: FeedState)
        ensures
            r == self@.state,
    {
        self.state
    }

    /// Whether lines are still read.
    pub fn is_reading(&self) -> (r: bool)
        ensures
            r == (self@.state == FeedState::Reading),
    {
        match self.state {
            FeedState::Reading => true,
            _ => false,
        }
    }

    /// The statistics recorded so far.
    pub fn stats(&self) -> (r: &Stats)
        ensures
            r@ == self@.stats,
    {
        &self.stats
    }

    /// The keys known so far.
    pub fn keys(&self) -> (r: &KeySet)
        ensures
            r@ == self@.keys,
    {
        &self.keys
    }

    /// Takes one line of the generator's output and says which call it asks
    /// for, if any. An error ends the feeder. A feeder that no longer reads
    /// passes over the line.
    pub fn feed_a_line(&mut self, line: &str) -> (r: Result<Option<(KvCall, String)>, RunnerError>)
        ensures
            final(self)@ == old(self)@.after_line(line@),
            outcome_view(r) == if old(self)@.state == FeedState::Reading {
                line_meaning(line@, old(self)@.keys)
            } else {
                Ok(None)
            },
    {
        if !self.is_reading() {
            return Ok(None);
        }
        let r = interpret(line, &mut self.keys);
        if r.is_err() {
            self.state = FeedState::Failed;
        }
        r
    }

    /// Records that the client has answered a call of `label`: when the call
    /// was started, how long it took, and when it was completed, in
    /// microseconds.
    pub fn record_answer(&mut self, label: &str, started_at: u64, elapsed_us: u64, finished_at: u64)
        requires
            old(self)@.stats.total_ops() < usize::MAX,
        ensures
            final(self)@ == old(self)@.after_answer(label@, started_at, elapsed_us, finished_at),
    {
        if !self.is_reading() {
            return ;
        }
        self.stats.record_op(label, elapsed_us);
        if self.started.is_none() {
            self.started = Some(started_at);
        }
        self.last_end = Some(finished_at);
    }

    /// Records that the generator's output has ended.
    pub fn end_of_stream(&mut self)
        ensures
            final(self)@ == old(self)@.after_eof(),
    {
        if self.is_reading() {
            self.state = FeedState::Ended;
        }
    }

    /// Records that a read or a call has failed.
    pub fn fail(&mut self)
        ensures
            final(self)@ == old(self)@.after_failure(),
    {
        if self.is_reading() {
            self.state = FeedState::Failed;
        }
    }

    /// Takes what has happened and says what to do next.
    pub fn step(&mut self, event: FeedEvent) -> (action: FeedAction)
        requires
            event is Answered ==> old(self)@.stats.total_ops() < usize::MAX,
        ensures
            final(self)@ == old(self)@.after(event),
            action@ == expected_action(old(self)@, event),
    {
        if !self.is_reading() {
            return FeedAction::Stop { error: None };
        }
        match event {
            FeedEvent::Line(line) => match self.feed_a_line(line.as_str()) {
                Ok(None) => FeedAction::ReadLine,
                Ok(Some((call, label))) => FeedAction::Dispatch { call, label },
                Err(e) => FeedAction::Stop { error: report_of(e) },
            },
            FeedEvent::Eof => {
                self.end_of_stream();
                FeedAction::Stop { error: None }
            },
            FeedEvent::Answered { label, started_at, elapsed_us, finished_at } => {
                self.record_answer(label.as_str(), started_at, elapsed_us, finished_at);
                FeedAction::ReadLine
            },
            FeedEvent::Failed(e) => {
                self.fail();
                FeedAction::Stop { error: report_of(e) }
            },
        }
    }

    /// What the feeder hands to the orchestrator when it is done: the
    /// statistics of one driver and the known keys where the output has
    /// ended, nothing where the feeder has failed.
    pub fn finish(self) -> (r: Option<(Stats, KeySet)>)
        ensures
            match (r, self@.outcome()) {
                (Some((stats, keys)), Some((s, k))) => stats@ == s && keys@ == k,
                (None, None) => true,
                _ => false,
            },
    {
        let Feeder { stats, keys, state, started, last_end } = self;
        match state {
            FeedState::Ended => {
                let span: u64 = match (started, last_end) {
                    (Some(s), Some(e)) => if e >= s {
                        e - s
                    } else {
                        0
                    },
                    _ => 0,
                };
                let mut stats = stats;
                stats.close(span);
                Some((stats, keys))
            },
            _ => None,
        }
    }
}

} // verus!
