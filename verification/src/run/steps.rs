//! The test runs as step functions: each step takes the run's state and what the last
//! outside action gave back, and returns the next state and the next action.
use vstd::prelude::*;

use crate::config::{ConfigError, ConfigFault};

verus! {

/// How many replies were judged, and how many of them passed.
#[derive(Clone, Copy, Debug, PartialEq, Eq)]
pub struct RunTally {
    pub all: usize,
    pub passes: usize,
}

/// The tally before any reply.
pub open spec fn no_replies() -> RunTally {
    RunTally { all: 0, passes: 0 }
}

/// The tally after one more reply, counted as a pass when `passed`.
pub open spec fn record(t: RunTally, passed: bool) -> RunTally {
    RunTally {
        all: (t.all + 1) as usize,
        passes: (t.passes + if passed {
            1int
        } else {
            0int
        }) as usize,
    }
}

/// A tally that counts no more passes than replies.
pub open spec fn tally_ok(t: RunTally) -> bool {
    t.passes <= t.all
}

impl RunTally {
    /// The tally before any reply.
    pub fn new() -> (r: RunTally)
        ensures
            r == no_replies(),
    {
        RunTally { all: 0, passes: 0 }
    }
}

/// Counts one more reply, a pass when `passed`.
pub fn record_verdict(t: RunTally, passed: bool) -> (r: RunTally)
    requires
        t.all < usize::MAX,
        tally_ok(t),
    ensures
        r == record(t, passed),
        r.all == t.all + 1,
        tally_ok(r),
{
    RunTally { all: t.all + 1, passes: if passed { t.passes + 1 } else { t.passes } }
}

/// Counts one more reply, a pass when it equals the expected content.
pub fn record_reply(t: RunTally, expected: &str, received: &str) -> (r: RunTally)
    requires
        t.all < usize::MAX,
        tally_ok(t),
    ensures
        r.all == t.all + 1,
        r.passes == t.passes + (if expected@ == received@ {
            1int
        } else {
            0int
        }),
        r == record(t, expected@ == received@),
{
    record_verdict(t, crate::text::str_eq(expected, received))
}

/// The tallies of two runs together.
pub fn add_tallies(a: RunTally, b: RunTally) -> (r: RunTally)
    requires
        a.all + b.all <= usize::MAX,
        a.passes + b.passes <= usize::MAX,
    ensures
        r.all == a.all + b.all,
        r.passes == a.passes + b.passes,
{
    RunTally { all: a.all + b.all, passes: a.passes + b.passes }
}

/// The tally of judging each received reply against its expected content, in order.
pub open spec fn tally_replies(expected: Seq<Seq<char>>, received: Seq<Seq<char>>) -> RunTally
    decreases expected.len(),
{
    if expected.len() == 0 || received.len() == 0 {
        no_replies()
    } else {
        record(
            tally_replies(expected.drop_last(), received.drop_last()),
            expected.last() == received.last(),
        )
    }
}

/// How many replies equal their expected content.
pub open spec fn count_equal(expected: Seq<Seq<char>>, received: Seq<Seq<char>>) -> nat
    decreases expected.len(),
{
    if expected.len() == 0 || received.len() == 0 {
        0
    } else {
        count_equal(expected.drop_last(), received.drop_last()) + if expected.last()
            == received.last() {
            1nat
        } else {
            0nat
        }
    }
}

/// Judging `n` replies gives `n` replies and as many passes as there are replies
/// equal to their expected content.
pub proof fn lemma_tally_counts(expected: Seq<Seq<char>>, received: Seq<Seq<char>>)
    requires
        expected.len() == received.len(),
        expected.len() <= usize::MAX,
    ensures
        tally_replies(expected, received) == (RunTally {
            all: expected.len() as usize,
            passes: count_equal(expected, received) as usize,
        }),
        count_equal(expected, received) <= expected.len(),
    decreases expected.len(),
{
    if expected.len() > 0 {
        lemma_tally_counts(expected.drop_last(), received.drop_last());
    }
}

/// Why a run stopped short.
#[derive(Debug, PartialEq, Eq)]
pub enum Fault {
    /// A test item is malformed.
    Config(ConfigError),
    /// An outside action failed, with its message.
    Io(String),
    /// An event came that the state does not wait for.
    OutOfOrder,
    /// The base address names no port, so pipelined requests cannot be sent.
    NoPort,
    /// More replies than a tally can count.
    TooManyReplies,
}

/// The content of a `Fault`.
pub enum FaultView {
    Config(ConfigFault),
    Io(Seq<char>),
    OutOfOrder,
    NoPort,
    TooManyReplies,
}

impl View for Fault {
    type V = FaultView;

    open spec fn view(&self) -> FaultView {
        match self {
            Fault::Config(e) => FaultView::Config(e@),
            Fault::Io(m) => FaultView::Io(m@),
            Fault::OutOfOrder => FaultView::OutOfOrder,
            Fault::NoPort => FaultView::NoPort,
            Fault::TooManyReplies => FaultView::TooManyReplies,
        }
    }
}

/// What a run asks to be done next.
#[derive(Debug, PartialEq, Eq)]
pub enum Action {
    /// Run a shell command; answer with `Output` or `Failed`.
    Run(String),
    /// Read a file of expected content; answer with `Text` or `Failed`.
    ReadExpected(String),
    /// Read a file of payload; answer with `Text` or `Failed`.
    ReadPayload(String),
    /// Start the server with these arguments; answer with `Started` or `Failed`.
    StartServer(String),
    /// Stop the server; answer with `Stopped` or `Failed`.
    StopServer,
    /// The run is over, with this tally.
    Done(RunTally),
    /// The run is over; its results are in its last state.
    Finished,
    /// The run failed; the server is stopped first when `stop_server` holds.
    Fail { fault: Fault, stop_server: bool },
}

/// The content of an `Action`.
pub enum ActionView {
    Run(Seq<char>),
    ReadExpected(Seq<char>),
    ReadPayload(Seq<char>),
    StartServer(Seq<char>),
    StopServer,
    Done(RunTally),
    Finished,
    Fail { fault: FaultView, stop_server: bool },
}

impl View for Action {
    type V = ActionView;

    open spec fn view(&self) -> ActionView {
        match self {
            Action::Run(c) => ActionView::Run(c@),
            Action::ReadExpected(f) => ActionView::ReadExpected(f@),
            Action::ReadPayload(f) => ActionView::ReadPayload(f@),
            Action::StartServer(a) => ActionView::StartServer(a@),
            Action::StopServer => ActionView::StopServer,
            Action::Done(t) => ActionView::Done(*t),
            Action::Finished => ActionView::Finished,
            Action::Fail { fault, stop_server } => ActionView::Fail {
                fault: fault@,
                stop_server: *stop_server,
            },
        }
    }
}

/// What an outside action gave back.
#[derive(Debug, PartialEq, Eq)]
pub enum Event {
    /// The run begins.
    Begin,
    /// A command's standard output.
    Output(String),
    /// A file's text.
    Text(String),
    /// The server was started.
    Started,
    /// The server was stopped.
    Stopped,
    /// The action failed, with its message.
    Failed(String),
}

/// The content of an `Event`.
pub enum EventView {
    Begin,
    Output(Seq<char>),
    Text(Seq<char>),
    Started,
    Stopped,
    Failed(Seq<char>),
}

impl View for Event {
    type V = EventView;

    open spec fn view(&self) -> EventView {
        match self {
            Event::Begin => EventView::Begin,
            Event::Output(s) => EventView::Output(s@),
            Event::Text(s) => EventView::Text(s@),
            Event::Started => EventView::Started,
            Event::Stopped => EventView::Stopped,
            Event::Failed(m) => EventView::Failed(m@),
        }
    }
}

/// The failure of a malformed item, stopping the server first when `stop_server` holds.
pub open spec fn config_fail(e: ConfigFault, stop_server: bool) -> ActionView {
    ActionView::Fail { fault: FaultView::Config(e), stop_server }
}

/// The failure of an outside action; the server is left as it is.
pub open spec fn io_fail(m: Seq<char>) -> ActionView {
    ActionView::Fail { fault: FaultView::Io(m), stop_server: false }
}

/// The failure of an event that came out of order.
pub open spec fn out_of_order() -> ActionView {
    ActionView::Fail { fault: FaultView::OutOfOrder, stop_server: false }
}

} // verus!
