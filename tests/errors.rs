use h2::error::{SendError, UserError};
use h2::proto::{self, Initiator};
use h2::{Error, Reason, StreamId};
use std::io;

#[test]
fn reason_for_reset_and_go_away() {
    let e = Error::from(proto::Error::remote_go_away(Reason::ProtocolError));
    assert_eq!(e.reason(), Some(Reason::ProtocolError));
    let e = Error::from(proto::Error::library_reset(StreamId::new(1), Reason::Cancel));
    assert_eq!(e.reason(), Some(Reason::Cancel));
    assert!(!e.is_io());
    let e = Error::from(UserError::InactiveStreamId);
    assert_eq!(e.reason(), None);
}

#[test]
fn io_errors_are_kept() {
    let e = Error::from_io(io::Error::new(io::ErrorKind::BrokenPipe, "gone"));
    assert!(e.is_io());
    assert_eq!(e.get_io().unwrap().kind(), io::ErrorKind::BrokenPipe);
    assert_eq!(e.reason(), None);
    let p = proto::Error::from(io::Error::new(io::ErrorKind::ConnectionReset, "reset"));
    assert!(p.is_local());
    let e = Error::from(p);
    assert_eq!(e.get_io().unwrap().kind(), io::ErrorKind::ConnectionReset);
    let e = Error::from(proto::Error::user_go_away(Reason::NoError));
    assert!(e.get_io().is_none());
}

#[test]
fn send_errors_convert() {
    let e = Error::from(SendError::User(UserError::PayloadTooBig));
    assert!(!e.is_io());
    assert_eq!(e.reason(), None);
    let s = SendError::from(proto::Error::library_go_away(Reason::FlowControlError));
    let e = Error::from(s);
    assert_eq!(e.reason(), Some(Reason::FlowControlError));
}

#[test]
fn initiators() {
    assert!(Initiator::User.is_local());
    assert!(Initiator::Library.is_local());
    assert!(!Initiator::Remote.is_local());
    assert_eq!(Initiator::Remote.as_str(), "remote");
    assert_eq!(Initiator::User.as_str(), "user");
    assert_eq!(Initiator::Library.as_str(), "library");
    assert!(proto::Error::library_go_away(Reason::Cancel).is_local());
    assert!(!proto::Error::remote_go_away(Reason::Cancel).is_local());
    assert!(proto::Error::user_go_away(Reason::Cancel).is_local());
}

#[test]
fn messages() {
    let e = Error::from(proto::Error::library_reset(StreamId::new(3), Reason::Cancel));
    assert_eq!(e.message(), "stream reset from library: stream no longer needed");
    let e = Error::from(proto::Error::remote_go_away(Reason::ProtocolError));
    assert_eq!(e.message(), "go away from remote: unspecific protocol error detected");
    let e = Error::from(UserError::PayloadTooBig);
    assert_eq!(e.message(), "user error: payload too big");
    let e = Error::from_io(io::Error::new(io::ErrorKind::Other, "wire cut"));
    assert_eq!(e.message(), "wire cut");
    let p = proto::Error::user_go_away(Reason::Unknown(77));
    assert_eq!(p.message(), "unknown reason");
    assert_eq!(Reason::Http11Required.description(), "endpoint requires HTTP/1.1");
}

#[test]
fn io_error_kinds_convert() {
    let p = proto::Error::from(io::ErrorKind::BrokenPipe);
    assert!(p.is_local());
    assert_eq!(p.message(), io::Error::from(io::ErrorKind::BrokenPipe).to_string());
    let e = Error::from(p);
    assert_eq!(e.get_io().unwrap().kind(), io::ErrorKind::BrokenPipe);
    assert_eq!(e.reason(), None);
}
