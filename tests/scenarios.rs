use h2::client::{Client, RequestHead, Role};
use h2::dispatch::send_data;
use h2::flow::{ConnectionFlow, FlowControl};
use h2::frame::{is_preface, preface, Frame, END_HEADERS, END_STREAM, HEADERS, SETTINGS};
use h2::hpack::{check_size_updates, decode_header_block, Indexing, Representation};
use h2::settings::{Settings, INITIAL_WINDOW_SIZE};
use h2::state::{Event, State, StateError};
use h2::streams::Streams;
use h2::{Reason, StreamId};

#[test]
fn simple_get() {
    let mut conn = Streams::new(Role::Server, 100);
    assert!(is_preface(&preface()));
    assert_eq!(conn.recv_frame_head(SETTINGS, 0, StreamId::zero()), Ok(()));
    let one = StreamId::new(1);
    assert_eq!(conn.recv_frame_head(HEADERS, END_HEADERS | END_STREAM, one), Ok(()));
    assert_eq!(conn.open_remote(one), Ok(()));
    let s = State::Idle.transition(Event::RecvHeaders { end_stream: true }).unwrap();
    assert_eq!(s, State::HalfClosedRemote);
    let mut s = s.transition(Event::SendHeaders { end_stream: false }).unwrap();
    let mut conn_window = ConnectionFlow::new();
    let mut stream_window = FlowControl::new(65_535);
    let body = b"hello world";
    let sent = send_data(&mut s, &mut stream_window, &mut conn_window, body.len() as u32, true, 16_384);
    assert_eq!(sent, Ok((11, true)));
    assert_eq!(s, State::Closed(None));
    assert_eq!(conn_window.window_size(), 65_535 - 11);
}

#[test]
fn flow_controlled_body() {
    let mut peer = Settings::initial();
    assert_eq!(peer.apply(INITIAL_WINDOW_SIZE, 10), Ok(()));
    let mut stream_window = FlowControl::new(peer.initial_window_size);
    let mut conn_window = ConnectionFlow::new();
    let mut state = State::Open;
    let sent = send_data(&mut state, &mut stream_window, &mut conn_window, 25, true, peer.max_frame_size);
    assert_eq!(sent, Ok((10, false)));
    assert_eq!(state, State::Open);
    // blocked until the peer grants more
    let sent = send_data(&mut state, &mut stream_window, &mut conn_window, 15, true, peer.max_frame_size);
    assert_eq!(sent, Ok((0, false)));
    let update = Frame::decode(&Frame::WindowUpdate { stream_id: StreamId::new(1), increment: 15 }.encode());
    if let Ok(Frame::WindowUpdate { increment, .. }) = update {
        assert_eq!(stream_window.inc_window(increment), Ok(()));
    } else {
        panic!("window update did not decode");
    }
    let sent = send_data(&mut state, &mut stream_window, &mut conn_window, 15, true, peer.max_frame_size);
    assert_eq!(sent, Ok((15, true)));
    assert_eq!(state, State::HalfClosedLocal);
}

#[test]
fn size_update_after_field() {
    let block = vec![
        Representation::Literal {
            name: b"x-a".to_vec(),
            value: b"1".to_vec(),
            indexing: Indexing::Without,
        },
        Representation::SizeUpdate(0),
    ];
    assert_eq!(check_size_updates(&block, 4096), Err(Reason::CompressionError));
    // the same block as octets: a literal field, then a size update to 0
    let bytes = [0x00, 3, b'x', b'-', b'a', 1, b'1', 0x20];
    assert_eq!(decode_header_block(&bytes, 4096), Err(Reason::CompressionError));
    let mut conn = Streams::new(Role::Server, 100);
    let f = conn.go_away(Reason::CompressionError);
    assert_eq!(
        f,
        Frame::GoAway { last_stream_id: StreamId::zero(), reason: Reason::CompressionError }
    );
    let ok = vec![Representation::SizeUpdate(0), Representation::Indexed(2)];
    assert_eq!(check_size_updates(&ok, 4096), Ok(()));
    let big = vec![Representation::SizeUpdate(5000)];
    assert_eq!(check_size_updates(&big, 4096), Err(Reason::CompressionError));
}

#[test]
fn reset_on_half_closed_remote() {
    let s = State::HalfClosedRemote.transition(Event::SendReset(Reason::Cancel)).unwrap();
    assert_eq!(s, State::Closed(Some(Reason::Cancel)));
    assert_eq!(s.transition(Event::RecvWindowUpdate), Ok(State::Closed(Some(Reason::Cancel))));
    let f = Frame::Reset { stream_id: StreamId::new(3), reason: Reason::Cancel };
    assert_eq!(Frame::decode(&f.encode()), Ok(f));
}

#[test]
fn illegal_stream_id() {
    let mut conn = Streams::new(Role::Server, 100);
    assert_eq!(conn.open_remote(StreamId::new(5)), Ok(()));
    assert_eq!(
        conn.open_remote(StreamId::new(3)),
        Err(StateError::Connection(Reason::ProtocolError))
    );
    let f = conn.go_away(Reason::ProtocolError);
    assert_eq!(
        f,
        Frame::GoAway { last_stream_id: StreamId::new(5), reason: Reason::ProtocolError }
    );
}

#[test]
fn graceful_shutdown() {
    let mut server = Streams::new(Role::Server, 100);
    let mut client = Streams::new(Role::Client, 100);
    for _ in 0..4 {
        let id = client.open_local().unwrap();
        assert_eq!(server.open_remote(id), Ok(()));
    }
    let f = server.go_away(Reason::NoError);
    assert_eq!(f, Frame::GoAway { last_stream_id: StreamId::new(7), reason: Reason::NoError });
    assert_eq!(
        server.open_remote(StreamId::new(9)),
        Err(StateError::Stream(Reason::RefusedStream))
    );
    if let Frame::GoAway { last_stream_id, .. } = f {
        client.recv_go_away(last_stream_id);
    }
    assert_eq!(client.open_local(), Err(StateError::Stream(Reason::RefusedStream)));
    assert!(client.is_refused_by_peer(StreamId::new(9)));
    assert!(!client.is_refused_by_peer(StreamId::new(7)));
}

#[test]
fn request_head_to_headers_frame() {
    let head = RequestHead {
        method: "GET".to_string(),
        path: "/".to_string(),
        scheme: Some("http".to_string()),
        authority: Some("x".to_string()),
        headers: vec![("accept".to_string(), b"*/*".to_vec())],
    };
    let f = Client::convert_send_message(StreamId::new(1), head, true);
    assert_eq!(f.pseudo.method.as_deref(), Some("GET"));
    assert_eq!(f.pseudo.path.as_deref(), Some("/"));
    assert_eq!(f.pseudo.scheme.as_deref(), Some("http"));
    assert_eq!(f.pseudo.authority.as_deref(), Some("x"));
    assert!(f.end_stream);
    assert_eq!(f.fields.len(), 1);
    assert!(Client::convert_poll_message(f).is_err());
    assert!(Client::is_valid_local_stream_id(StreamId::new(1)));
    assert!(Client::is_valid_remote_stream_id(StreamId::new(2)));
    assert!(!Client::is_valid_remote_stream_id(StreamId::new(1)));
}

#[test]
fn response_header_values_keep_their_octets() {
    let f = h2::client::Headers {
        stream_id: StreamId::new(1),
        pseudo: h2::client::Pseudo {
            method: None,
            scheme: None,
            authority: None,
            path: None,
            status: Some(200),
        },
        fields: vec![("x-raw".to_string(), vec![0xff, 0x00, 0x80])],
        end_stream: false,
    };
    let r = Client::convert_poll_message(f).unwrap();
    assert_eq!(r.status, 200);
    assert_eq!(r.headers, vec![("x-raw".to_string(), vec![0xff, 0x00, 0x80])]);
}
