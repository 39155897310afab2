use h2::frame::Frame;
use h2::ping::{PingOutcome, Pings};

#[test]
fn peer_ping_is_echoed() {
    let mut p = Pings::new();
    assert_eq!(p.recv_ping(false, 42), PingOutcome::Echo(Frame::Ping { ack: true, payload: 42 }));
    assert_eq!(p.recv_ping(true, 42), PingOutcome::Unsolicited);
}

#[test]
fn acks_match_by_payload() {
    let mut p = Pings::new();
    assert_eq!(p.send_ping(1), Frame::Ping { ack: false, payload: 1 });
    p.send_ping(2);
    p.send_ping(1);
    assert_eq!(p.recv_ping(true, 2), PingOutcome::Matched);
    assert_eq!(p.recv_ping(true, 2), PingOutcome::Unsolicited);
    assert_eq!(p.recv_ping(true, 1), PingOutcome::Matched);
    assert_eq!(p.recv_ping(true, 1), PingOutcome::Matched);
    assert_eq!(p.recv_ping(true, 1), PingOutcome::Unsolicited);
}
