use crate::error::UserError;
use crate::frame::Reason;
use vstd::prelude::*;

verus! {

/// The life of one stream.
#[derive(Clone, Copy, Debug, PartialEq, Eq, Structural)]
pub enum State {
    Idle,
    ReservedLocal,
    ReservedRemote,
    Open,
    HalfClosedLocal,
    HalfClosedRemote,
    /// Closed, with the reason of the reset that closed it, if one did.
    Closed(Option<Reason>),
}

/// Something that happens to a stream: a frame received from the peer or
/// sent by this side. `end_stream` is the frame's END_STREAM flag.
#[derive(Clone, Copy, Debug, PartialEq, Eq, Structural)]
pub enum Event {
    RecvHeaders { end_stream: bool },
    RecvData { end_stream: bool },
    RecvPushPromise,
    RecvReset(Reason),
    RecvWindowUpdate,
    RecvPriority,
    SendHeaders { end_stream: bool },
    SendData { end_stream: bool },
    SendPushPromise,
    SendReset(Reason),
    SendWindowUpdate,
}

/// Why an event cannot happen in a state: an error of this stream alone
/// (answered with RST_STREAM), of the whole connection (answered with
/// GOAWAY), or a mistake of the user (returned, never sent).
#[derive(Clone, Copy, Debug, PartialEq, Eq, Structural)]
pub enum StateError {
    Stream(Reason),
    Connection(Reason),
    User(UserError),
}

/// The state after a frame carrying END_STREAM or not, from a state that
/// stays while the stream goes on and one that it reaches when it ends.
pub open spec fn ends_in(end_stream: bool, stay: State, ended: State) -> State {
    if end_stream { ended } else { stay }
}

/// The transition table of a stream.
pub open spec fn next_state(s: State, e: Event) -> Result<State, StateError> {
    match e {
        Event::RecvHeaders { end_stream } => match s {
            State::Idle => Ok(ends_in(end_stream, State::Open, State::HalfClosedRemote)),
            State::ReservedRemote => Ok(
                ends_in(end_stream, State::HalfClosedLocal, State::Closed(None)),
            ),
            State::Open => Ok(ends_in(end_stream, State::Open, State::HalfClosedRemote)),
            State::HalfClosedLocal => Ok(
                ends_in(end_stream, State::HalfClosedLocal, State::Closed(None)),
            ),
            State::ReservedLocal => Err(StateError::Connection(Reason::ProtocolError)),
            _ => Err(StateError::Stream(Reason::StreamClosed)),
        },
        Event::RecvData { end_stream } => match s {
            State::Open => Ok(ends_in(end_stream, State::Open, State::HalfClosedRemote)),
            State::HalfClosedLocal => Ok(
                ends_in(end_stream, State::HalfClosedLocal, State::Closed(None)),
            ),
            State::HalfClosedRemote => Err(StateError::Stream(Reason::StreamClosed)),
            State::Closed(_) => Err(StateError::Stream(Reason::StreamClosed)),
            _ => Err(StateError::Connection(Reason::ProtocolError)),
        },
        Event::RecvPushPromise => match s {
            State::Idle => Ok(State::ReservedRemote),
            _ => Err(StateError::Connection(Reason::ProtocolError)),
        },
        Event::RecvReset(reason) => match s {
            State::Idle => Err(StateError::Connection(Reason::ProtocolError)),
            State::Closed(_) => Ok(s),
            _ => Ok(State::Closed(Some(reason))),
        },
        Event::RecvWindowUpdate => match s {
            State::Idle => Err(StateError::Connection(Reason::ProtocolError)),
            _ => Ok(s),
        },
        Event::RecvPriority => Ok(s),
        Event::SendHeaders { end_stream } => match s {
            State::Idle => Ok(ends_in(end_stream, State::Open, State::HalfClosedLocal)),
            State::ReservedLocal => Ok(
                ends_in(end_stream, State::HalfClosedRemote, State::Closed(None)),
            ),
            State::Open => Ok(ends_in(end_stream, State::Open, State::HalfClosedLocal)),
            State::HalfClosedRemote => Ok(
                ends_in(end_stream, State::HalfClosedRemote, State::Closed(None)),
            ),
            State::ReservedRemote => Err(StateError::User(UserError::UnexpectedFrameType)),
            _ => Err(StateError::User(UserError::InactiveStreamId)),
        },
        Event::SendData { end_stream } => match s {
            State::Open => Ok(ends_in(end_stream, State::Open, State::HalfClosedLocal)),
            State::HalfClosedRemote => Ok(
                ends_in(end_stream, State::HalfClosedRemote, State::Closed(None)),
            ),
            State::HalfClosedLocal => Err(StateError::User(UserError::InactiveStreamId)),
            State::Closed(_) => Err(StateError::User(UserError::InactiveStreamId)),
            _ => Err(StateError::User(UserError::UnexpectedFrameType)),
        },
        Event::SendPushPromise => match s {
            State::Idle => Ok(State::ReservedLocal),
            _ => Err(StateError::User(UserError::UnexpectedFrameType)),
        },
        Event::SendReset(reason) => match s {
            State::Idle => Err(StateError::User(UserError::UnexpectedFrameType)),
            State::Closed(_) => Ok(s),
            _ => Ok(State::Closed(Some(reason))),
        },
        Event::SendWindowUpdate => match s {
            State::Idle => Err(StateError::User(UserError::UnexpectedFrameType)),
            _ => Ok(s),
        },
    }
}

fn ends_in_exec(end_stream: bool, stay: State, ended: State) -> (r: State)
    ensures
        r == ends_in(end_stream, stay, ended),
{
    if end_stream {
        ended
    } else {
        stay
    }
}

impl State {
    /// The state after `event`, or why `event` cannot happen now.
    pub fn transition(self, event: Event) -> (r: Result<State, StateError>)
        ensures
            r == next_state(self, event),
    {
        let s = self;
        match event {
            Event::RecvHeaders { end_stream } => match s {
                State::Idle => Ok(ends_in_exec(end_stream, State::Open, State::HalfClosedRemote)),
                State::ReservedRemote => Ok(
                    ends_in_exec(end_stream, State::HalfClosedLocal, State::Closed(None)),
                ),
                State::Open => Ok(ends_in_exec(end_stream, State::Open, State::HalfClosedRemote)),
                State::HalfClosedLocal => Ok(
                    ends_in_exec(end_stream, State::HalfClosedLocal, State::Closed(None)),
                ),
                State::ReservedLocal => Err(StateError::Connection(Reason::ProtocolError)),
                _ => Err(StateError::Stream(Reason::StreamClosed)),
            },
            Event::RecvData { end_stream } => match s {
                State::Open => Ok(ends_in_exec(end_stream, State::Open, State::HalfClosedRemote)),
                State::HalfClosedLocal => Ok(
                    ends_in_exec(end_stream, State::HalfClosedLocal, State::Closed(None)),
                ),
                State::HalfClosedRemote => Err(StateError::Stream(Reason::StreamClosed)),
                State::Closed(_) => Err(StateError::Stream(Reason::StreamClosed)),
                _ => Err(StateError::Connection(Reason::ProtocolError)),
            },
            Event::RecvPushPromise => match s {
                State::Idle => Ok(State::ReservedRemote),
                _ => Err(StateError::Connection(Reason::ProtocolError)),
            },
            Event::RecvReset(reason) => match s {
                State::Idle => Err(StateError::Connection(Reason::ProtocolError)),
                State::Closed(_) => Ok(s),
                _ => Ok(State::Closed(Some(reason))),
            },
            Event::RecvWindowUpdate => match s {
                State::Idle => Err(StateError::Connection(Reason::ProtocolError)),
                _ => Ok(s),
            },
            Event::RecvPriority => Ok(s),
            Event::SendHeaders { end_stream } => match s {
                State::Idle => Ok(ends_in_exec(end_stream, State::Open, State::HalfClosedLocal)),
                State::ReservedLocal => Ok(
                    ends_in_exec(end_stream, State::HalfClosedRemote, State::Closed(None)),
                ),
                State::Open => Ok(ends_in_exec(end_stream, State::Open, State::HalfClosedLocal)),
                State::HalfClosedRemote => Ok(
                    ends_in_exec(end_stream, State::HalfClosedRemote, State::Closed(None)),
                ),
                State::ReservedRemote => Err(StateError::User(UserError::UnexpectedFrameType)),
                _ => Err(StateError::User(UserError::InactiveStreamId)),
            },
            Event::SendData { end_stream } => match s {
                State::Open => Ok(ends_in_exec(end_stream, State::Open, State::HalfClosedLocal)),
                State::HalfClosedRemote => Ok(
                    ends_in_exec(end_stream, State::HalfClosedRemote, State::Closed(None)),
                ),
                State::HalfClosedLocal => Err(StateError::User(UserError::InactiveStreamId)),
                State::Closed(_) => Err(StateError::User(UserError::InactiveStreamId)),
                _ => Err(StateError::User(UserError::UnexpectedFrameType)),
            },
            Event::SendPushPromise => match s {
                State::Idle => Ok(State::ReservedLocal),
                _ => Err(StateError::User(UserError::UnexpectedFrameType)),
            },
            Event::SendReset(reason) => match s {
                State::Idle => Err(StateError::User(UserError::UnexpectedFrameType)),
                State::Closed(_) => Ok(s),
                _ => Ok(State::Closed(Some(reason))),
            },
            Event::SendWindowUpdate => match s {
                State::Idle => Err(StateError::User(UserError::UnexpectedFrameType)),
                _ => Ok(s),
            },
        }
    }

    pub fn is_closed(&self) -> (r: bool)
        ensures
            r == (*self is Closed),
    {
        match *self {
            State::Closed(_) => true,
            _ => false,
        }
    }

    /// Whether the peer can send no more DATA on the stream.
    pub fn is_recv_closed(&self) -> (r: bool)
        ensures
            r == (*self is HalfClosedRemote || *self is Closed || *self is ReservedLocal),
    {
        match *self {
            State::HalfClosedRemote | State::Closed(_) | State::ReservedLocal => true,
            _ => false,
        }
    }

    /// Whether this side can send no more DATA on the stream.
    pub fn is_send_closed(&self) -> (r: bool)
        ensures
            r == (*self is HalfClosedLocal || *self is Closed || *self is ReservedRemote),
    {
        match *self {
            State::HalfClosedLocal | State::Closed(_) | State::ReservedRemote => true,
            _ => false,
        }
    }
}

/// Once closed, a stream stays closed whatever happens to it.
pub proof fn lemma_closed_stays_closed(s: State, e: Event)
    requires
        s is Closed,
    ensures
        next_state(s, e) matches Ok(t) ==> t is Closed,
{
}

} // verus!
