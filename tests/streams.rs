use h2::client::Role;
use h2::frame::{CONTINUATION, DATA, END_HEADERS, HEADERS};
use h2::state::StateError;
use h2::streams::Streams;
use h2::{Reason, StreamId};

#[test]
fn local_ids_increase_by_two() {
    let mut c = Streams::new(Role::Client, 10);
    assert_eq!(c.open_local().unwrap().as_u32(), 1);
    assert_eq!(c.open_local().unwrap().as_u32(), 3);
    assert_eq!(c.open_local().unwrap().as_u32(), 5);
    let mut s = Streams::new(Role::Server, 10);
    assert_eq!(s.open_local().unwrap().as_u32(), 2);
    assert_eq!(s.open_local().unwrap().as_u32(), 4);
}

#[test]
fn remote_parity_and_concurrency() {
    let mut s = Streams::new(Role::Server, 1);
    assert_eq!(
        s.open_remote(StreamId::new(2)),
        Err(StateError::Connection(Reason::ProtocolError))
    );
    assert_eq!(s.open_remote(StreamId::new(1)), Ok(()));
    assert_eq!(
        s.open_remote(StreamId::new(3)),
        Err(StateError::Stream(Reason::RefusedStream))
    );
    s.close_remote();
    assert_eq!(s.open_remote(StreamId::new(5)), Ok(()));
}

#[test]
fn continuation_must_follow_headers() {
    let mut s = Streams::new(Role::Server, 10);
    let one = StreamId::new(1);
    let three = StreamId::new(3);
    assert_eq!(s.recv_frame_head(CONTINUATION, END_HEADERS, one), Err(Reason::ProtocolError));
    assert_eq!(s.recv_frame_head(HEADERS, 0, one), Ok(()));
    assert_eq!(s.recv_frame_head(DATA, 0, one), Err(Reason::ProtocolError));
    assert_eq!(s.recv_frame_head(CONTINUATION, 0, three), Err(Reason::ProtocolError));
    assert_eq!(s.recv_frame_head(CONTINUATION, 0, one), Ok(()));
    assert_eq!(s.recv_frame_head(CONTINUATION, END_HEADERS, one), Ok(()));
    assert_eq!(s.recv_frame_head(DATA, 0, one), Ok(()));
}

#[test]
fn refused_ids_still_count_as_used() {
    let mut s = Streams::new(Role::Server, 0);
    assert_eq!(
        s.open_remote(StreamId::new(101)),
        Err(StateError::Stream(Reason::RefusedStream))
    );
    assert_eq!(
        s.open_remote(StreamId::new(99)),
        Err(StateError::Connection(Reason::ProtocolError))
    );
    // a refused stream was never processed, so GOAWAY does not name it
    let f = s.go_away(Reason::NoError);
    assert_eq!(
        f,
        h2::frame::Frame::GoAway { last_stream_id: StreamId::zero(), reason: Reason::NoError }
    );
}
