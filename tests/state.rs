use h2::error::UserError;
use h2::state::{Event, State, StateError};
use h2::Reason;

#[test]
fn request_lifecycle_on_server() {
    let s = State::Idle.transition(Event::RecvHeaders { end_stream: false }).unwrap();
    assert_eq!(s, State::Open);
    let s = s.transition(Event::RecvData { end_stream: true }).unwrap();
    assert_eq!(s, State::HalfClosedRemote);
    let s = s.transition(Event::SendHeaders { end_stream: false }).unwrap();
    assert_eq!(s, State::HalfClosedRemote);
    let s = s.transition(Event::SendData { end_stream: true }).unwrap();
    assert_eq!(s, State::Closed(None));
    assert!(s.is_closed());
}

#[test]
fn push_states() {
    assert_eq!(State::Idle.transition(Event::RecvPushPromise), Ok(State::ReservedRemote));
    assert_eq!(State::Idle.transition(Event::SendPushPromise), Ok(State::ReservedLocal));
    assert_eq!(
        State::ReservedLocal.transition(Event::SendHeaders { end_stream: false }),
        Ok(State::HalfClosedRemote)
    );
    assert_eq!(
        State::ReservedRemote.transition(Event::RecvHeaders { end_stream: false }),
        Ok(State::HalfClosedLocal)
    );
}

#[test]
fn data_on_closed_sides() {
    assert_eq!(
        State::HalfClosedRemote.transition(Event::RecvData { end_stream: false }),
        Err(StateError::Stream(Reason::StreamClosed))
    );
    assert_eq!(
        State::Closed(None).transition(Event::RecvData { end_stream: false }),
        Err(StateError::Stream(Reason::StreamClosed))
    );
    assert_eq!(
        State::HalfClosedLocal.transition(Event::SendData { end_stream: false }),
        Err(StateError::User(UserError::InactiveStreamId))
    );
    assert_eq!(
        State::Idle.transition(Event::RecvData { end_stream: false }),
        Err(StateError::Connection(Reason::ProtocolError))
    );
}

#[test]
fn reset_closes_with_reason() {
    assert_eq!(
        State::Open.transition(Event::RecvReset(Reason::Cancel)),
        Ok(State::Closed(Some(Reason::Cancel)))
    );
    assert_eq!(
        State::Idle.transition(Event::RecvReset(Reason::Cancel)),
        Err(StateError::Connection(Reason::ProtocolError))
    );
    assert_eq!(
        State::Closed(None).transition(Event::RecvPriority),
        Ok(State::Closed(None))
    );
}

#[test]
fn closed_sides() {
    assert!(State::HalfClosedRemote.is_recv_closed());
    assert!(!State::HalfClosedRemote.is_send_closed());
    assert!(State::HalfClosedLocal.is_send_closed());
    assert!(!State::Open.is_recv_closed());
}
