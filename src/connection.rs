//! The life of one inbound connection, from accept to proxying or rejection.
//!
//! The handler that owns the socket feeds each event into `on_event` and
//! performs the action it gets back; every decision about the connection is
//! made here.
use crate::decision::DecisionError;
use crate::decision::V8Response;
use crate::decision::Verdict;
use crate::decision::HOLD_SECONDS;
use crate::decision::flag_set;
use crate::queue::QueueError;
use vstd::prelude::*;

verus! {

pub enum ConnState {
    /// The socket was accepted and its metadata read.
    Accepted,
    /// The job was enqueued; the handler waits for its decision.
    AwaitingDecision { job_id: u32 },
    /// The connection was closed without relaying anything.
    Blocked,
    /// The connection is held open, idle, and then closed.
    Held,
    /// Bytes are relayed to and from `target`.
    Proxying { target: String, no_delay: bool },
    /// The connection was given up.
    Aborted,
}

pub enum ConnEvent {
    /// What enqueuing the job returned.
    Enqueued(Result<u32, QueueError>),
    /// The decision for the job arrived.
    Decided(V8Response),
    /// No decision arrived in time.
    TimedOut,
    /// The decision channel closed without a decision.
    ChannelClosed,
}

pub enum ConnAction {
    /// Keep waiting for the next event.
    Wait,
    /// Close the client connection; open no other.
    Close,
    /// Keep the connection open and idle for `seconds`, then close it.
    HoldFor { seconds: u64 },
    /// Connect to `target`, set no-delay if asked, and relay bytes both ways.
    Connect { target: String, no_delay: bool },
    /// Cancel the job, then close the client connection.
    CancelAndClose { job_id: u32 },
}

impl ConnState {
    pub open spec fn is_terminal(&self) -> bool {
        !(self is Accepted || self is AwaitingDecision)
    }

    /// Moves the connection on by one event and says what the handler does.
    pub fn on_event(self, event: ConnEvent) -> (r: (ConnState, ConnAction))
        ensures
            match (self, event) {
                (ConnState::Accepted, ConnEvent::Enqueued(Ok(id))) => r.0 == ConnState::AwaitingDecision {
                    job_id: id,
                } && r.1 == ConnAction::Wait,
                (ConnState::Accepted, ConnEvent::Enqueued(Err(_))) => r.0 == ConnState::Aborted
                    && r.1 == ConnAction::Close,
                (ConnState::AwaitingDecision { job_id }, ConnEvent::Decided(d)) => {
                    if d.blocks() {
                        r.0 == ConnState::Blocked && r.1 == ConnAction::Close
                    } else if d.holds() {
                        r.0 == ConnState::Held && r.1 == ConnAction::HoldFor { seconds: HOLD_SECONDS }
                    } else if d.proxies() {
                        &&& r.0 matches ConnState::Proxying { target, no_delay }
                        &&& target@ == d.ip->Some_0@
                        &&& no_delay == flag_set(d.no_delay)
                        &&& r.1 matches ConnAction::Connect { target: t, no_delay: n }
                        &&& t@ == target@ && n == no_delay
                    } else {
                        r.0 == ConnState::Aborted && r.1 == ConnAction::Close
                    }
                },
                (ConnState::AwaitingDecision { job_id }, ConnEvent::TimedOut) => r.0
                    == ConnState::Aborted && r.1 == ConnAction::CancelAndClose { job_id },
                (ConnState::AwaitingDecision { job_id }, ConnEvent::ChannelClosed) => r.0
                    == ConnState::Aborted && r.1 == ConnAction::CancelAndClose { job_id },
                _ => r.0 == self && r.1 == ConnAction::Wait,
            },
    {
        match (self, event) {
            (ConnState::Accepted, ConnEvent::Enqueued(res)) => match res {
                Ok(id) => (ConnState::AwaitingDecision { job_id: id }, ConnAction::Wait),
                Err(_) => (ConnState::Aborted, ConnAction::Close),
            },
            (ConnState::AwaitingDecision { job_id }, ConnEvent::Decided(d)) => match d.verdict() {
                Ok(Verdict::Block) => (ConnState::Blocked, ConnAction::Close),
                Ok(Verdict::Hold) => (ConnState::Held, ConnAction::HoldFor { seconds: HOLD_SECONDS }),
                Ok(Verdict::Proxy { target, no_delay }) => {
                    let t = target.clone();
                    (ConnState::Proxying { target, no_delay }, ConnAction::Connect { target: t, no_delay })
                },
                Err(DecisionError::MissingTarget) => (ConnState::Aborted, ConnAction::Close),
            },
            (ConnState::AwaitingDecision { job_id }, ConnEvent::TimedOut) => (
                ConnState::Aborted,
                ConnAction::CancelAndClose { job_id },
            ),
            (ConnState::AwaitingDecision { job_id }, ConnEvent::ChannelClosed) => (
                ConnState::Aborted,
                ConnAction::CancelAndClose { job_id },
            ),
            (state, _) => (state, ConnAction::Wait),
        }
    }
}

} // verus!
