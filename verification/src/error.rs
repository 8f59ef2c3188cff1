//! What can go wrong in a driver or in a phase.

use vstd::prelude::*;
use vstd::string::*;

verus! {

/// A failure of the harness.
#[derive(Debug, Clone, PartialEq, Eq)]
pub enum RunnerError {
    /// A line of a known form lacks a segment or holds a malformed one.
    Parse(String),
    /// A process, a pipe or the workload profile failed.
    Io(String),
    /// The client gave no answer within the bound of one call.
    ResponseTimeout,
    /// A driver gave no sign of completion within the bound of a phase.
    PhaseTimeout,
    /// The worker of a driver panicked.
    Join,
    /// The completion channel was dropped during shutdown.
    ChannelClosed,
}

/// A `RunnerError` with the contents of its message.
pub enum RunnerErrorView {
    Parse(Seq<char>),
    Io(Seq<char>),
    ResponseTimeout,
    PhaseTimeout,
    Join,
    ChannelClosed,
}

impl View for RunnerError {
    type V = RunnerErrorView;

    open spec fn view(&self) -> RunnerErrorView {
        match self {
            RunnerError::Parse(m) => RunnerErrorView::Parse(m@),
            RunnerError::Io(m) => RunnerErrorView::Io(m@),
            RunnerError::ResponseTimeout => RunnerErrorView::ResponseTimeout,
            RunnerError::PhaseTimeout => RunnerErrorView::PhaseTimeout,
            RunnerError::Join => RunnerErrorView::Join,
            RunnerError::ChannelClosed => RunnerErrorView::ChannelClosed,
        }
    }
}

impl RunnerErrorView {
    /// The text that describes the failure to an operator.
    pub open spec fn message(self) -> Seq<char> {
        match self {
            RunnerErrorView::Parse(m) => "parse error: "@ + m,
            RunnerErrorView::Io(m) => "io error: "@ + m,
            RunnerErrorView::ResponseTimeout => "timed out waiting for a response"@,
            RunnerErrorView::PhaseTimeout => "timed out waiting for a driver"@,
            RunnerErrorView::Join => "a feeder thread panicked"@,
            RunnerErrorView::ChannelClosed => "channel closed"@,
        }
    }

    /// Whether the failure is left out of the diagnostics: a channel that
    /// closes during shutdown is no fault.
    pub open spec fn is_benign(self) -> bool {
        self is ChannelClosed
    }
}

impl RunnerError {
    /// A parse error with the message `msg`.
    pub fn parse(msg: &str) -> (e: RunnerError)
        ensures
            e@ == RunnerErrorView::Parse(msg@),
    {
        RunnerError::Parse(String::from_str(msg))
    }

    /// The text that describes the failure to an operator.
    pub fn message(&self) -> (s: String)
        ensures
            s@ == self@.message(),
    {
        match self {
            RunnerError::Parse(m) => {
                let mut s = String::from_str("parse error: ");
                s.append(m.as_str());
                s
            },
            RunnerError::Io(m) => {
                let mut s = String::from_str("io error: ");
                s.append(m.as_str());
                s
            },
            RunnerError::ResponseTimeout => String::from_str("timed out waiting for a response"),
            RunnerError::PhaseTimeout => String::from_str("timed out waiting for a driver"),
            RunnerError::Join => String::from_str("a feeder thread panicked"),
            RunnerError::ChannelClosed => String::from_str("channel closed"),
        }
    }

    /// Whether the failure is left out of the diagnostics.
    pub fn is_benign(&self) -> (r: bool)
        ensures
            r == self@.is_benign(),
    {
        match self {
            RunnerError::ChannelClosed => true,
            _ => false,
        }
    }
}

} // verus!
