use h2::frame::{Frame, Reason, StreamId};

#[test]
fn window_update_encodes_to_exact_bytes() {
    let f = Frame::WindowUpdate { stream_id: StreamId::new(3), increment: 15 };
    assert_eq!(f.encode(), vec![0, 0, 4, 8, 0, 0, 0, 0, 3, 0, 0, 0, 15]);
}

#[test]
fn reset_encodes_to_exact_bytes() {
    let f = Frame::Reset { stream_id: StreamId::new(3), reason: Reason::Cancel };
    assert_eq!(f.encode(), vec![0, 0, 4, 3, 0, 0, 0, 0, 3, 0, 0, 0, 8]);
}

#[test]
fn control_frames_round_trip() {
    let frames = vec![
        Frame::Reset { stream_id: StreamId::new(0x7fff_ffff), reason: Reason::Unknown(99) },
        Frame::WindowUpdate { stream_id: StreamId::zero(), increment: 0x7fff_ffff },
        Frame::Ping { ack: true, payload: 0x0102_0304_0506_0708 },
        Frame::Ping { ack: false, payload: 0 },
        Frame::GoAway { last_stream_id: StreamId::new(7), reason: Reason::NoError },
        Frame::Priority {
            stream_id: StreamId::new(3),
            dependency: StreamId::new(1),
            exclusive: true,
            weight: 200,
        },
        Frame::Priority {
            stream_id: StreamId::new(5),
            dependency: StreamId::zero(),
            exclusive: false,
            weight: 0,
        },
    ];
    for f in frames {
        assert_eq!(Frame::decode(&f.encode()), Ok(f));
    }
}

#[test]
fn decode_rejects_bad_frames() {
    // too short for a head
    assert_eq!(Frame::decode(&[0, 0, 4]), Err(Reason::FrameSizeError));
    // a zero window increment
    assert_eq!(
        Frame::decode(&[0, 0, 4, 8, 0, 0, 0, 0, 1, 0, 0, 0, 0]),
        Err(Reason::ProtocolError)
    );
    // a reset of stream zero
    assert_eq!(
        Frame::decode(&[0, 0, 4, 3, 0, 0, 0, 0, 0, 0, 0, 0, 1]),
        Err(Reason::ProtocolError)
    );
    // a ping with a short payload
    assert_eq!(
        Frame::decode(&[0, 0, 4, 6, 0, 0, 0, 0, 0, 1, 2, 3, 4]),
        Err(Reason::FrameSizeError)
    );
    // the length disagrees with the buffer
    assert_eq!(
        Frame::decode(&[0, 0, 5, 8, 0, 0, 0, 0, 1, 0, 0, 0, 1]),
        Err(Reason::FrameSizeError)
    );
}

#[test]
fn decode_clears_reserved_bit() {
    let f = Frame::decode(&[0, 0, 4, 8, 0, 0x80, 0, 0, 5, 0x80, 0, 0, 9]).unwrap();
    assert_eq!(f, Frame::WindowUpdate { stream_id: StreamId::new(5), increment: 9 });
}

#[test]
fn reason_codes_round_trip() {
    for code in 0..20u32 {
        assert_eq!(Reason::from_code(code).code(), code);
    }
    assert_eq!(Reason::from_code(9), Reason::CompressionError);
    assert_eq!(Reason::from_code(14), Reason::Unknown(14));
    assert_eq!(Reason::Http11Required.code(), 13);
}

#[test]
fn stream_id_parity() {
    assert!(StreamId::new(1).is_client_initiated());
    assert!(!StreamId::new(1).is_server_initiated());
    assert!(StreamId::new(2).is_server_initiated());
    assert!(!StreamId::zero().is_client_initiated());
    assert!(!StreamId::zero().is_server_initiated());
    assert!(StreamId::zero().is_zero());
}

#[test]
fn preface_is_checked() {
    let p = h2::frame::preface();
    assert_eq!(p, b"PRI * HTTP/2.0\r\n\r\nSM\r\n\r\n".to_vec());
    assert!(h2::frame::is_preface(&p));
    assert!(!h2::frame::is_preface(b"PRI * HTTP/1.1\r\n\r\nSM\r\n\r\n"));
    assert!(!h2::frame::is_preface(b"PRI"));
}

#[test]
fn data_frames_round_trip() {
    use_data(None, false);
    use_data(Some(0), true);
    use_data(Some(5), false);
}

fn use_data(pad_len: Option<u8>, end_stream: bool) {
    let d = h2::frame::Data {
        stream_id: StreamId::new(1),
        payload: b"hello world".to_vec(),
        end_stream,
        pad_len,
    };
    let bytes = d.encode(16_384);
    assert_eq!(h2::frame::Data::decode(&bytes, 16_384), Ok(d));
}

#[test]
fn data_exact_bytes() {
    let d = h2::frame::Data {
        stream_id: StreamId::new(3),
        payload: vec![7, 8],
        end_stream: true,
        pad_len: Some(2),
    };
    assert_eq!(d.encode(16_384), vec![0, 0, 5, 0, 9, 0, 0, 0, 3, 2, 7, 8, 0, 0]);
}

#[test]
fn data_errors() {
    // on stream zero
    assert_eq!(
        h2::frame::Data::decode(&[0, 0, 1, 0, 0, 0, 0, 0, 0, 9], 16_384),
        Err(Reason::ProtocolError)
    );
    // longer than the largest frame allowed
    assert_eq!(
        h2::frame::Data::decode(&[0, 0, 3, 0, 0, 0, 0, 0, 1, 1, 2, 3], 2),
        Err(Reason::FrameSizeError)
    );
    // padding as long as the payload
    assert_eq!(
        h2::frame::Data::decode(&[0, 0, 2, 0, 8, 0, 0, 0, 1, 2, 0], 16_384),
        Err(Reason::ProtocolError)
    );
    // not a DATA frame
    assert_eq!(
        h2::frame::Data::decode(&[0, 0, 0, 1, 0, 0, 0, 0, 1], 16_384),
        Err(Reason::ProtocolError)
    );
}

#[test]
fn priority_bytes_and_errors() {
    let f = Frame::Priority {
        stream_id: StreamId::new(3),
        dependency: StreamId::new(1),
        exclusive: true,
        weight: 15,
    };
    assert_eq!(f.encode(), vec![0, 0, 5, 2, 0, 0, 0, 0, 3, 0x80, 0, 0, 1, 15]);
    // a stream that depends on itself
    assert_eq!(
        Frame::decode(&[0, 0, 5, 2, 0, 0, 0, 0, 3, 0, 0, 0, 3, 15]),
        Err(Reason::ProtocolError)
    );
    assert_eq!(
        Frame::decode(&[0, 0, 4, 2, 0, 0, 0, 0, 3, 0, 0, 0, 1]),
        Err(Reason::FrameSizeError)
    );
}

#[test]
fn settings_frames() {
    use_settings_round_trip(false, vec![(4, 10), (3, 100), (0xabcd, 0xdead_beef)]);
    use_settings_round_trip(true, vec![]);
    use_settings_round_trip(false, vec![]);
    let b = h2::frame::encode_settings(false, &vec![(4, 10)]);
    assert_eq!(b, vec![0, 0, 6, 4, 0, 0, 0, 0, 0, 0, 4, 0, 0, 0, 10]);
    assert_eq!(
        h2::frame::encode_settings(true, &vec![]),
        vec![0, 0, 0, 4, 1, 0, 0, 0, 0]
    );
}

fn use_settings_round_trip(ack: bool, entries: Vec<(u16, u32)>) {
    let b = h2::frame::encode_settings(ack, &entries);
    assert_eq!(h2::frame::decode_settings(&b), Ok((ack, entries)));
}

#[test]
fn settings_frame_errors() {
    // on a stream
    assert_eq!(
        h2::frame::decode_settings(&[0, 0, 0, 4, 0, 0, 0, 0, 1]),
        Err(Reason::ProtocolError)
    );
    // an acknowledgement with a payload
    assert_eq!(
        h2::frame::decode_settings(&[0, 0, 6, 4, 1, 0, 0, 0, 0, 0, 4, 0, 0, 0, 10]),
        Err(Reason::FrameSizeError)
    );
    // not whole entries
    assert_eq!(
        h2::frame::decode_settings(&[0, 0, 5, 4, 0, 0, 0, 0, 0, 0, 4, 0, 0, 0]),
        Err(Reason::FrameSizeError)
    );
}

fn headers_frame(
    pad_len: Option<u8>,
    priority: Option<h2::frame::StreamDependency>,
    end_stream: bool,
    end_headers: bool,
) -> h2::frame::HeadersFrame {
    h2::frame::HeadersFrame {
        stream_id: StreamId::new(1),
        fragment: vec![0x82, 0x86, 0x84],
        end_stream,
        end_headers,
        pad_len,
        priority,
    }
}

#[test]
fn headers_frames_round_trip() {
    let dep = h2::frame::StreamDependency { dependency: StreamId::new(3), exclusive: true, weight: 9 };
    for h in [
        headers_frame(None, None, true, true),
        headers_frame(Some(4), None, false, true),
        headers_frame(None, Some(dep), true, false),
        headers_frame(Some(0), Some(dep), false, false),
    ] {
        let b = h.encode(16_384);
        assert_eq!(h2::frame::HeadersFrame::decode(&b, 16_384), Ok(h));
    }
}

#[test]
fn headers_exact_bytes() {
    let h = headers_frame(None, None, true, true);
    assert_eq!(h.encode(16_384), vec![0, 0, 3, 1, 5, 0, 0, 0, 1, 0x82, 0x86, 0x84]);
    let dep = h2::frame::StreamDependency { dependency: StreamId::new(3), exclusive: false, weight: 9 };
    let h = headers_frame(Some(1), Some(dep), false, true);
    assert_eq!(
        h.encode(16_384),
        vec![0, 0, 10, 1, 0x2c, 0, 0, 0, 1, 1, 0, 0, 0, 3, 9, 0x82, 0x86, 0x84, 0]
    );
}

#[test]
fn headers_errors() {
    // padding longer than the payload
    assert_eq!(
        h2::frame::HeadersFrame::decode(&[0, 0, 2, 1, 8, 0, 0, 0, 1, 5, 0x82], 16_384),
        Err(Reason::ProtocolError)
    );
    // priority flag with too short a payload
    assert_eq!(
        h2::frame::HeadersFrame::decode(&[0, 0, 2, 1, 0x20, 0, 0, 0, 1, 0, 0], 16_384),
        Err(Reason::ProtocolError)
    );
    // on stream zero
    assert_eq!(
        h2::frame::HeadersFrame::decode(&[0, 0, 1, 1, 4, 0, 0, 0, 0, 0x82], 16_384),
        Err(Reason::ProtocolError)
    );
}

#[test]
fn continuation_frames() {
    let c = h2::frame::ContinuationFrame {
        stream_id: StreamId::new(5),
        fragment: vec![1, 2, 3],
        end_headers: true,
    };
    let b = c.encode(16_384);
    assert_eq!(b, vec![0, 0, 3, 9, 4, 0, 0, 0, 5, 1, 2, 3]);
    assert_eq!(h2::frame::ContinuationFrame::decode(&b, 16_384), Ok(c));
    assert_eq!(
        h2::frame::ContinuationFrame::decode(&[0, 0, 0, 9, 0, 0, 0, 0, 0], 16_384),
        Err(Reason::ProtocolError)
    );
    assert_eq!(
        h2::frame::ContinuationFrame::decode(&[0, 0, 2, 9, 0, 0, 0, 0, 1, 7, 7], 1),
        Err(Reason::FrameSizeError)
    );
}

#[test]
fn go_away_debug_data_is_skipped() {
    let b = [0, 0, 10, 7, 0, 0, 0, 0, 0, 0, 0, 0, 5, 0, 0, 0, 1, b'h', b'i'];
    assert_eq!(
        Frame::decode(&b),
        Ok(Frame::GoAway { last_stream_id: StreamId::new(5), reason: Reason::ProtocolError })
    );
    assert_eq!(
        Frame::decode(&[0, 0, 4, 7, 0, 0, 0, 0, 0, 0, 0, 0, 5]),
        Err(Reason::FrameSizeError)
    );
}

#[test]
fn client_preface_carries_settings() {
    let b = h2::frame::client_preface(&vec![(4, 10)]);
    let mut expected = b"PRI * HTTP/2.0\r\n\r\nSM\r\n\r\n".to_vec();
    expected.extend_from_slice(&[0, 0, 6, 4, 0, 0, 0, 0, 0, 0, 4, 0, 0, 0, 10]);
    assert_eq!(b, expected);
    let empty = h2::frame::client_preface(&vec![]);
    assert_eq!(empty.len(), 24 + 9);
}

#[test]
fn push_promise_frames() {
    for pad_len in [None, Some(0u8), Some(3)] {
        let f = h2::frame::PushPromiseFrame {
            stream_id: StreamId::new(1),
            promised_id: StreamId::new(2),
            fragment: vec![0x82, 0x84],
            end_headers: true,
            pad_len,
        };
        let b = f.encode(16_384);
        assert_eq!(h2::frame::PushPromiseFrame::decode(&b, 16_384), Ok(f));
    }
    let f = h2::frame::PushPromiseFrame {
        stream_id: StreamId::new(1),
        promised_id: StreamId::new(2),
        fragment: vec![0x82],
        end_headers: true,
        pad_len: None,
    };
    assert_eq!(f.encode(16_384), vec![0, 0, 5, 5, 4, 0, 0, 0, 1, 0, 0, 0, 2, 0x82]);
    // a promised id of zero
    assert_eq!(
        h2::frame::PushPromiseFrame::decode(&[0, 0, 4, 5, 4, 0, 0, 0, 1, 0, 0, 0, 0], 16_384),
        Err(Reason::ProtocolError)
    );
    // too short for the promised id
    assert_eq!(
        h2::frame::PushPromiseFrame::decode(&[0, 0, 3, 5, 4, 0, 0, 0, 1, 0, 0, 2], 16_384),
        Err(Reason::ProtocolError)
    );
}
