use h2::error::UserError;
use h2::flow::{send_capacity, ConnectionFlow, FlowControl, RecvFlow, DEFAULT_CONNECTION_WINDOW};
use h2::Reason;

#[test]
fn window_tracks_sends_and_updates() {
    let mut f = FlowControl::new(100);
    f.send_data(60);
    assert_eq!(f.window_size(), 40);
    assert_eq!(f.inc_window(10), Ok(()));
    assert_eq!(f.window_size(), 50);
    assert_eq!(f.available(), 50);
}

#[test]
fn window_overflow_is_flow_control_error() {
    let mut f = FlowControl::new(0x7fff_ffff);
    assert_eq!(f.inc_window(1), Err(Reason::FlowControlError));
    assert_eq!(f.window_size(), 0x7fff_ffff);
}

#[test]
fn recv_past_window_is_flow_control_error() {
    let mut f = FlowControl::new(10);
    assert_eq!(f.recv_data(11), Err(Reason::FlowControlError));
    assert_eq!(f.window_size(), 10);
    assert_eq!(f.recv_data(10), Ok(()));
    assert_eq!(f.window_size(), 0);
}

#[test]
fn initial_window_change_moves_window() {
    let mut f = FlowControl::new(100);
    f.send_data(80);
    assert_eq!(f.apply_initial_window_change(100, 10), Ok(()));
    assert_eq!(f.window_size(), -70);
    assert_eq!(f.available(), 0);
    assert_eq!(f.apply_initial_window_change(10, 0x7fff_ffff), Ok(()));
    assert_eq!(f.window_size(), 0x7fff_ffff - 80);
    assert_eq!(
        f.apply_initial_window_change(0, 0x7fff_ffff),
        Err(Reason::FlowControlError)
    );
    assert_eq!(f.window_size(), 0x7fff_ffff - 80);
}

#[test]
fn sent_never_exceeds_credit() {
    // consumed octets stay within the initial window plus the increments
    let mut f = FlowControl::new(5);
    let mut sent: u64 = 0;
    let mut granted: u64 = 5;
    for inc in [3u32, 7, 1] {
        let n = f.available();
        f.send_data(n);
        sent += n as u64;
        assert!(sent <= granted);
        f.inc_window(inc).unwrap();
        granted += inc as u64;
    }
    assert_eq!(sent, 15);
    assert_eq!(f.window_size(), 1);
}

#[test]
fn capacity_is_least_of_limits() {
    let s = FlowControl::new(100);
    let c = FlowControl::new(DEFAULT_CONNECTION_WINDOW);
    assert_eq!(send_capacity(25, &s, &c, 16_384), 25);
    assert_eq!(send_capacity(500, &s, &c, 16_384), 100);
    assert_eq!(send_capacity(500, &s, &c, 50), 50);
    let small = FlowControl::new(7);
    assert_eq!(send_capacity(500, &s, &small, 16_384), 7);
    let empty = FlowControl::new(0);
    assert_eq!(send_capacity(500, &empty, &c, 16_384), 0);
}

#[test]
fn released_credit_is_announced_at_threshold() {
    let mut r = RecvFlow::new(100, 50);
    assert_eq!(r.recv_data(80), Ok(()));
    assert_eq!(r.recv_data(21), Err(Reason::FlowControlError));
    assert_eq!(r.release(81), Err(UserError::ReleaseCapacityTooBig));
    assert_eq!(r.release(30), Ok(None));
    assert_eq!(r.recv_data(21), Err(Reason::FlowControlError));
    assert_eq!(r.release(30), Ok(Some(60)));
    assert_eq!(r.recv_data(80), Ok(()));
    assert_eq!(r.recv_data(1), Err(Reason::FlowControlError));
}

#[test]
fn connection_window_counts_all_streams() {
    let mut c = ConnectionFlow::new();
    assert_eq!(c.window_size(), 65_535);
    c.send_data(65_000);
    c.send_data(535);
    assert_eq!(c.window_size(), 0);
    assert_eq!(c.recv_data(1), Err(Reason::FlowControlError));
    assert_eq!(c.inc_window(100), Ok(()));
    assert_eq!(c.window_size(), 100);
    assert_eq!(c.inc_window(0x7fff_ffff), Err(Reason::FlowControlError));
    assert_eq!(c.window_size(), 100);
}
