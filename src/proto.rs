use crate::frame::{reason_description, Reason, StreamId};
use std::io;
use std::sync::Arc;
use vstd::prelude::*;
use vstd::string::{to_string_from_display_ensures, StringExecFns};

verus! {

/// An I/O error of the transport, carried through unchanged.
#[verifier::external_type_specification]
#[verifier::external_body]
pub struct ExIoError(std::io::Error);

/// The kind of an I/O error.
#[verifier::external_type_specification]
#[verifier::external_body]
pub struct ExIoErrorKind(std::io::ErrorKind);

/// Relies on std's `From<io::ErrorKind> for io::Error`, which builds an
/// error of that kind with no further payload. Nothing is stated of the
/// result: only the transport reads it.
#[verifier::external_body]
fn io_error_of_kind(kind: io::ErrorKind) -> (r: io::Error) {
    io::Error::from(kind)
}

/// The outcome that ends a stream or the connection: a reset of one stream,
/// a GOAWAY for the whole connection, or a failure of the transport.
#[derive(Clone, Debug)]
pub enum Error {
    Reset(StreamId, Reason, Initiator),
    GoAway(Reason, Initiator),
    Io(Arc<io::Error>),
}

/// Which side caused an error.
#[derive(Clone, Copy, Debug, PartialEq, Eq, Structural)]
pub enum Initiator {
    User,
    Library,
    Remote,
}

impl Initiator {
    /// The user and the library both act on this side of the connection.
    pub open spec fn spec_is_local(self) -> bool {
        !(self is Remote)
    }

    pub fn is_local(&self) -> (r: bool)
        ensures
            r == self.spec_is_local(),
    {
        match *self {
            Initiator::User | Initiator::Library => true,
            Initiator::Remote => false,
        }
    }

    /// The initiator's name in messages.
    pub fn as_str(&self) -> (r: &'static str)
        ensures
            r@ == initiator_name(*self),
    {
        match *self {
            Initiator::User => "user",
            Initiator::Library => "library",
            Initiator::Remote => "remote",
        }
    }
}

/// The name of an initiator in messages.
pub open spec fn initiator_name(i: Initiator) -> Seq<char> {
    match i {
        Initiator::User => "user"@,
        Initiator::Library => "library"@,
        Initiator::Remote => "remote"@,
    }
}

impl Error {
    /// Whether this side, not the peer, caused the error; a transport
    /// failure counts as local.
    pub open spec fn spec_is_local(&self) -> bool {
        match *self {
            Error::Reset(_, _, initiator) => initiator.spec_is_local(),
            Error::GoAway(_, initiator) => initiator.spec_is_local(),
            Error::Io(_) => true,
        }
    }

    pub fn is_local(&self) -> (r: bool)
        ensures
            r == self.spec_is_local(),
    {
        match *self {
            Error::Reset(_, _, initiator) => initiator.is_local(),
            Error::GoAway(_, initiator) => initiator.is_local(),
            Error::Io(_) => true,
        }
    }

    /// The error in words: the reason's description, or the transport's
    /// own message.
    pub fn message(&self) -> (r: String)
        ensures
            *self matches Error::Reset(_, reason, _) ==> r@ == reason_description(reason),
            *self matches Error::GoAway(reason, _) ==> r@ == reason_description(reason),
            *self matches Error::Io(e) ==> to_string_from_display_ensures::<io::Error>(&*e, r),
    {
        match self {
            Error::Reset(_, reason, _) => String::from_str(reason.description()),
            Error::GoAway(reason, _) => String::from_str(reason.description()),
            Error::Io(e) => (**e).to_string(),
        }
    }

    pub fn user_go_away(reason: Reason) -> (r: Error)
        ensures
            r == Error::GoAway(reason, Initiator::User),
    {
        Error::GoAway(reason, Initiator::User)
    }

    pub fn library_reset(stream_id: StreamId, reason: Reason) -> (r: Error)
        ensures
            r == Error::Reset(stream_id, reason, Initiator::Library),
    {
        Error::Reset(stream_id, reason, Initiator::Library)
    }

    pub fn library_go_away(reason: Reason) -> (r: Error)
        ensures
            r == Error::GoAway(reason, Initiator::Library),
    {
        Error::GoAway(reason, Initiator::Library)
    }

    pub fn remote_go_away(reason: Reason) -> (r: Error)
        ensures
            r == Error::GoAway(reason, Initiator::Remote),
    {
        Error::GoAway(reason, Initiator::Remote)
    }
}

impl From<io::ErrorKind> for Error {
    fn from(src: io::ErrorKind) -> (r: Error)
        ensures
            r is Io,
    {
        Error::Io(Arc::new(io_error_of_kind(src)))
    }
}

impl vstd::std_specs::convert::FromSpecImpl<io::ErrorKind> for Error {
    /// The error built for a kind is the transport's own value, of which
    /// nothing is claimed.
    open spec fn obeys_from_spec() -> bool {
        false
    }

    open spec fn from_spec(src: io::ErrorKind) -> Error {
        vstd::pervasive::arbitrary()
    }
}

impl From<io::Error> for Error {
    fn from(src: io::Error) -> (r: Error) {
        Error::Io(Arc::new(src))
    }
}

impl vstd::std_specs::convert::FromSpecImpl<io::Error> for Error {
    open spec fn obeys_from_spec() -> bool {
        true
    }

    open spec fn from_spec(src: io::Error) -> Error {
        Error::Io(Arc::new(src))
    }
}

} // verus!
