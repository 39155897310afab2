use h2::dispatch::{recv_data, send_data};
use h2::flow::{ConnectionFlow, FlowControl};
use h2::state::{State, StateError};
use h2::Reason;

#[test]
fn recv_data_moves_state_and_windows() {
    let mut s = State::Open;
    let mut stream = FlowControl::new(100);
    let mut conn = ConnectionFlow::new();
    assert_eq!(recv_data(&mut s, &mut stream, &mut conn, 40, false), Ok(()));
    assert_eq!(s, State::Open);
    assert_eq!(stream.window_size(), 60);
    assert_eq!(conn.window_size(), 65_495);
    assert_eq!(recv_data(&mut s, &mut stream, &mut conn, 60, true), Ok(()));
    assert_eq!(s, State::HalfClosedRemote);
    assert_eq!(
        recv_data(&mut s, &mut stream, &mut conn, 1, false),
        Err(StateError::Stream(Reason::StreamClosed))
    );
    assert_eq!(conn.window_size(), 65_435);
}

#[test]
fn recv_data_flow_errors_change_nothing() {
    let mut s = State::Open;
    let mut stream = FlowControl::new(10);
    let mut conn = ConnectionFlow::new();
    assert_eq!(
        recv_data(&mut s, &mut stream, &mut conn, 65_536, false),
        Err(StateError::Connection(Reason::FlowControlError))
    );
    assert_eq!(
        recv_data(&mut s, &mut stream, &mut conn, 11, true),
        Err(StateError::Stream(Reason::FlowControlError))
    );
    assert_eq!(s, State::Open);
    assert_eq!(stream.window_size(), 10);
    assert_eq!(conn.window_size(), 65_535);
}

#[test]
fn send_data_splits_under_windows() {
    let mut s = State::Open;
    let mut stream = FlowControl::new(10);
    let mut conn = ConnectionFlow::new();
    assert_eq!(send_data(&mut s, &mut stream, &mut conn, 25, true, 16_384), Ok((10, false)));
    assert_eq!(s, State::Open);
    assert_eq!(send_data(&mut s, &mut stream, &mut conn, 15, true, 16_384), Ok((0, false)));
    stream.inc_window(15).unwrap();
    assert_eq!(send_data(&mut s, &mut stream, &mut conn, 15, true, 16_384), Ok((15, true)));
    assert_eq!(s, State::HalfClosedLocal);
    assert_eq!(conn.window_size(), 65_535 - 25);
    assert_eq!(
        send_data(&mut s, &mut stream, &mut conn, 1, false, 16_384),
        Err(h2::state::StateError::User(h2::error::UserError::InactiveStreamId))
    );
}
