//! The life of a connection: one exchange, then the end.

use vstd::prelude::*;
use crate::socket_handling::server::{Action, Silence, Step};

verus! {

/// Where a connection stands.
#[derive(Clone, Copy, Debug, PartialEq, Eq, Structural)]
pub enum Connection {
    /// The listener accepted it; nothing was read yet
    Accepted,
    /// A frame was read from it
    Decoded,
    /// The frame was well formed and went to its handler
    Dispatched,
    /// The handler is through: the response is written, or there is none
    Responded,
    /// It is closed after its exchange
    Closed,
    /// It is closed because the frame was malformed or the transport failed
    Errored,
}

/// What happens to a connection.
#[derive(Clone, Copy, Debug, PartialEq, Eq, Structural)]
pub enum Event {
    /// A frame was read
    FrameRead,
    /// The frame is well formed
    FrameAccepted,
    /// The frame is malformed
    FrameRejected,
    /// The handler is through
    HandlerDone,
    /// Reading or writing failed
    TransportFailed,
    /// The connection was closed
    Shutdown,
}

/// Whether a connection that stands at `state` is over.
pub open spec fn is_terminal(state: Connection) -> bool {
    state == Connection::Closed || state == Connection::Errored
}

/// Where a connection stands after `event`. A failure of the transport
/// ends a connection that is not over yet; an event that does not belong
/// to the state leaves the connection where it stands.
pub open spec fn after(state: Connection, event: Event) -> Connection {
    match (state, event) {
        (Connection::Accepted, Event::FrameRead) => Connection::Decoded,
        (Connection::Decoded, Event::FrameAccepted) => Connection::Dispatched,
        (Connection::Decoded, Event::FrameRejected) => Connection::Errored,
        (Connection::Dispatched, Event::HandlerDone) => Connection::Responded,
        (Connection::Responded, Event::Shutdown) => Connection::Closed,
        (Connection::Closed, _) => Connection::Closed,
        (Connection::Errored, _) => Connection::Errored,
        (_, Event::TransportFailed) => Connection::Errored,
        _ => state,
    }
}

/// How many events a connection at `state` is from its end at most.
pub open spec fn distance(state: Connection) -> nat {
    match state {
        Connection::Accepted => 4,
        Connection::Decoded => 3,
        Connection::Dispatched => 2,
        Connection::Responded => 1,
        Connection::Closed => 0,
        Connection::Errored => 0,
    }
}

impl Connection {
    /// A connection that was just accepted.
    pub fn new() -> (state: Connection)
        ensures
            state == Connection::Accepted,
    {
        Connection::Accepted
    }

    /// Whether the connection is over.
    pub fn is_over(&self) -> (over: bool)
        ensures
            over == is_terminal(*self),
    {
        match self {
            Connection::Closed => true,
            Connection::Errored => true,
            _ => false,
        }
    }

    /// Where the connection stands after `event`.
    pub fn next(self, event: Event) -> (state: Connection)
        ensures
            state == after(self, event),
    {
        match (self, event) {
            (Connection::Accepted, Event::FrameRead) => Connection::Decoded,
            (Connection::Decoded, Event::FrameAccepted) => Connection::Dispatched,
            (Connection::Decoded, Event::FrameRejected) => Connection::Errored,
            (Connection::Dispatched, Event::HandlerDone) => Connection::Responded,
            (Connection::Responded, Event::Shutdown) => Connection::Closed,
            (Connection::Closed, _) => Connection::Closed,
            (Connection::Errored, _) => Connection::Errored,
            (_, Event::TransportFailed) => Connection::Errored,
            _ => self,
        }
    }
}

/// Whether `step` is what a malformed frame gets.
pub open spec fn is_rejection(step: Step) -> bool {
    step.action matches Action::Close(Silence::Malformed(_))
}

/// The event that the outcome of a request is for its connection: a frame
/// that could not be read is rejected, every other one is accepted.
pub fn frame_event(step: &Step) -> (event: Event)
    ensures
        event == if is_rejection(*step) {
            Event::FrameRejected
        } else {
            Event::FrameAccepted
        },
{
    match &step.action {
        Action::Close(Silence::Malformed(_)) => Event::FrameRejected,
        _ => Event::FrameAccepted,
    }
}

/// A connection that is over stays where it is, and one that is not over
/// never moves away from its end: each event leaves it at least as close.
pub proof fn lemma_connection_ends(state: Connection, event: Event)
    ensures
        is_terminal(state) ==> after(state, event) == state,
        distance(after(state, event)) <= distance(state),
        after(state, event) != state ==> distance(after(state, event)) < distance(state),
{
}

/// A connection is closed in order only after one whole exchange: the
/// frame read, accepted and handled, and the connection shut down.
pub proof fn lemma_one_exchange(first: Event, second: Event, third: Event, fourth: Event)
    ensures
        after(after(after(after(Connection::Accepted, first), second), third), fourth)
            == Connection::Closed <==> (first == Event::FrameRead && second
            == Event::FrameAccepted && third == Event::HandlerDone && fourth == Event::Shutdown),
{
}

} // verus!
