use crate::frame::{reason_description, Reason, StreamId};
use crate::proto::{self, initiator_name, Initiator};
use std::io;
use std::sync::Arc;
use vstd::prelude::*;
use vstd::string::{to_string_from_display_ensures, StringExecFns};

verus! {

/// An invalid action taken by the user of the library; it is returned to
/// the caller and never sent on the wire.
#[derive(Clone, Copy, Debug, PartialEq, Eq, Structural)]
pub enum UserError {
    /// The stream is closed on the side the action needs.
    InactiveStreamId,
    /// The frame cannot be sent in the stream's current state.
    UnexpectedFrameType,
    /// More data than the window or the frame size allows.
    PayloadTooBig,
    /// Capacity released beyond what was received.
    ReleaseCapacityTooBig,
    /// No stream id is left for this side.
    OverflowedStreamId,
    /// The header list cannot be sent.
    MalformedHeaders,
    /// A request without both scheme and authority.
    MissingUriSchemeAndAuthority,
    /// A ping is already awaiting its acknowledgement.
    SendPingWhilePending,
    /// Settings are already awaiting their acknowledgement.
    SendSettingsWhilePending,
    /// The peer has disabled server push.
    PeerDisabledServerPush,
}

/// The words that describe a user error.
pub open spec fn user_error_description(e: UserError) -> Seq<char> {
    match e {
        UserError::InactiveStreamId => "inactive stream"@,
        UserError::UnexpectedFrameType => "unexpected frame type"@,
        UserError::PayloadTooBig => "payload too big"@,
        UserError::ReleaseCapacityTooBig => "release capacity too big"@,
        UserError::OverflowedStreamId => "stream ID overflowed"@,
        UserError::MalformedHeaders => "malformed headers"@,
        UserError::MissingUriSchemeAndAuthority => "request URI missing scheme and authority"@,
        UserError::SendPingWhilePending => "send_ping before received previous pong"@,
        UserError::SendSettingsWhilePending => "sending SETTINGS before received previous ACK"@,
        UserError::PeerDisabledServerPush => "sending PUSH_PROMISE to peer who disabled server push"@,
    }
}

impl UserError {
    /// The words that describe this error.
    pub fn description(&self) -> (r: &'static str)
        ensures
            r@ == user_error_description(*self),
    {
        match *self {
            UserError::InactiveStreamId => "inactive stream",
            UserError::UnexpectedFrameType => "unexpected frame type",
            UserError::PayloadTooBig => "payload too big",
            UserError::ReleaseCapacityTooBig => "release capacity too big",
            UserError::OverflowedStreamId => "stream ID overflowed",
            UserError::MalformedHeaders => "malformed headers",
            UserError::MissingUriSchemeAndAuthority => "request URI missing scheme and authority",
            UserError::SendPingWhilePending => "send_ping before received previous pong",
            UserError::SendSettingsWhilePending => "sending SETTINGS before received previous ACK",
            UserError::PeerDisabledServerPush => "sending PUSH_PROMISE to peer who disabled server push",
        }
    }
}

/// An error from sending: the user's own mistake or a connection error.
#[derive(Clone, Debug)]
pub enum SendError {
    Connection(proto::Error),
    User(UserError),
}

impl From<proto::Error> for SendError {
    fn from(src: proto::Error) -> (r: SendError) {
        SendError::Connection(src)
    }
}

impl vstd::std_specs::convert::FromSpecImpl<proto::Error> for SendError {
    open spec fn obeys_from_spec() -> bool {
        true
    }

    open spec fn from_spec(src: proto::Error) -> SendError {
        SendError::Connection(src)
    }
}

/// What an [`Error`] holds.
#[derive(Clone, Debug)]
pub enum Kind {
    /// A RST_STREAM frame was received or sent.
    Reset(StreamId, Reason, Initiator),
    /// A GOAWAY frame was received or sent.
    GoAway(Reason, Initiator),
    /// An invalid action taken by the user of this library.
    User(UserError),
    /// The transport failed while reading or writing.
    Io(Arc<io::Error>),
}

/// Represents HTTP/2 operation errors: protocol errors caused by either
/// side, I/O (transport) errors, and errors caused by the user of the
/// library.
#[derive(Debug)]
pub struct Error {
    kind: Kind,
}

/// The kind that a protocol error becomes.
pub open spec fn kind_of_proto(src: proto::Error) -> Kind {
    match src {
        proto::Error::Reset(stream_id, reason, initiator) => Kind::Reset(
            stream_id,
            reason,
            initiator,
        ),
        proto::Error::GoAway(reason, initiator) => Kind::GoAway(reason, initiator),
        proto::Error::Io(e) => Kind::Io(e),
    }
}

/// The kind that an error from sending becomes.
pub open spec fn kind_of_send(src: SendError) -> Kind {
    match src {
        SendError::User(e) => Kind::User(e),
        SendError::Connection(e) => kind_of_proto(e),
    }
}

impl Error {
    /// What the error holds.
    pub closed spec fn spec_kind(self) -> Kind {
        self.kind
    }

    /// The error that holds a given kind.
    pub closed spec fn of_kind(kind: Kind) -> Error {
        Error { kind }
    }

    pub broadcast proof fn lemma_of_kind(kind: Kind)
        ensures
            #[trigger] Error::of_kind(kind).spec_kind() == kind,
    {
    }

    /// The reason of a reset or a GOAWAY, sent or received; `None` for a
    /// user error or a transport failure.
    pub fn reason(&self) -> (r: Option<Reason>)
        ensures
            r == (match self.spec_kind() {
                Kind::Reset(_, reason, _) => Some(reason),
                Kind::GoAway(reason, _) => Some(reason),
                _ => None,
            }),
    {
        match self.kind {
            Kind::Reset(_, reason, _) => Some(reason),
            Kind::GoAway(reason, _) => Some(reason),
            _ => None,
        }
    }

    /// Whether the transport failed.
    pub fn is_io(&self) -> (r: bool)
        ensures
            r == (self.spec_kind() is Io),
    {
        match self.kind {
            Kind::Io(_) => true,
            _ => false,
        }
    }

    /// The transport's error, if the transport failed.
    pub fn get_io(&self) -> (r: Option<&io::Error>)
        ensures
            r is Some == (self.spec_kind() is Io),
            r matches Some(e) ==> self.spec_kind() == Kind::Io(Arc::new(*e)),
    {
        match &self.kind {
            Kind::Io(e) => Some(&**e),
            _ => None,
        }
    }

    /// The error in words: who reset the stream or sent GOAWAY and why,
    /// the user's mistake, or the transport's own message.
    pub fn message(&self) -> (r: String)
        ensures
            self.spec_kind() matches Kind::Reset(_, reason, initiator) ==> r@ == "stream reset from "@
                + initiator_name(initiator) + ": "@ + reason_description(reason),
            self.spec_kind() matches Kind::GoAway(reason, initiator) ==> r@ == "go away from "@
                + initiator_name(initiator) + ": "@ + reason_description(reason),
            self.spec_kind() matches Kind::User(e) ==> r@ == "user error: "@
                + user_error_description(e),
            self.spec_kind() matches Kind::Io(e) ==> to_string_from_display_ensures::<io::Error>(
                &*e,
                r,
            ),
    {
        match &self.kind {
            Kind::Reset(_, reason, initiator) => {
                let mut s = String::from_str("stream reset from ");
                s.append(initiator.as_str());
                s.append(": ");
                s.append(reason.description());
                s
            },
            Kind::GoAway(reason, initiator) => {
                let mut s = String::from_str("go away from ");
                s.append(initiator.as_str());
                s.append(": ");
                s.append(reason.description());
                s
            },
            Kind::User(e) => {
                let mut s = String::from_str("user error: ");
                s.append(e.description());
                s
            },
            Kind::Io(e) => (**e).to_string(),
        }
    }

    pub fn from_io(err: io::Error) -> (r: Error)
        ensures
            r.spec_kind() == Kind::Io(Arc::new(err)),
    {
        Error { kind: Kind::Io(Arc::new(err)) }
    }
}

impl From<proto::Error> for Error {
    fn from(src: proto::Error) -> (r: Error) {
        Error {
            kind: match src {
                proto::Error::Reset(stream_id, reason, initiator) => Kind::Reset(
                    stream_id,
                    reason,
                    initiator,
                ),
                proto::Error::GoAway(reason, initiator) => Kind::GoAway(reason, initiator),
                proto::Error::Io(e) => Kind::Io(e),
            },
        }
    }
}

impl vstd::std_specs::convert::FromSpecImpl<proto::Error> for Error {
    open spec fn obeys_from_spec() -> bool {
        true
    }

    open spec fn from_spec(src: proto::Error) -> Error {
        Error::of_kind(kind_of_proto(src))
    }
}

impl From<UserError> for Error {
    fn from(src: UserError) -> (r: Error) {
        Error { kind: Kind::User(src) }
    }
}

impl vstd::std_specs::convert::FromSpecImpl<UserError> for Error {
    open spec fn obeys_from_spec() -> bool {
        true
    }

    open spec fn from_spec(src: UserError) -> Error {
        Error::of_kind(Kind::User(src))
    }
}

impl From<SendError> for Error {
    fn from(src: SendError) -> (r: Error) {
        match src {
            SendError::User(e) => Error::from(e),
            SendError::Connection(e) => Error::from(e),
        }
    }
}

impl vstd::std_specs::convert::FromSpecImpl<SendError> for Error {
    open spec fn obeys_from_spec() -> bool {
        true
    }

    open spec fn from_spec(src: SendError) -> Error {
        Error::of_kind(kind_of_send(src))
    }
}

} // verus!
