use h2::settings::{Settings, ENABLE_PUSH, INITIAL_WINDOW_SIZE, MAX_CONCURRENT_STREAMS, MAX_FRAME_SIZE};
use h2::Reason;

#[test]
fn single_settings() {
    let mut s = Settings::initial();
    assert_eq!(s.apply(MAX_FRAME_SIZE, 16_383), Err(Reason::ProtocolError));
    assert_eq!(s.apply(MAX_FRAME_SIZE, 16_777_216), Err(Reason::ProtocolError));
    assert_eq!(s.apply(MAX_FRAME_SIZE, 16_777_215), Ok(()));
    assert_eq!(s.max_frame_size, 16_777_215);
    assert_eq!(s.apply(ENABLE_PUSH, 2), Err(Reason::ProtocolError));
    assert_eq!(s.apply(ENABLE_PUSH, 0), Ok(()));
    assert!(!s.enable_push);
    assert_eq!(s.apply(INITIAL_WINDOW_SIZE, 0x8000_0000), Err(Reason::FlowControlError));
    assert_eq!(s.initial_window_size, 65_535);
    assert_eq!(s.apply(99, 7), Ok(()));
    assert_eq!(s.apply(MAX_CONCURRENT_STREAMS, 7), Ok(()));
    assert_eq!(s.max_concurrent_streams, Some(7));
}

#[test]
fn payload_applies_in_order() {
    let mut s = Settings::initial();
    let payload = [0, 4, 0, 0, 0, 10, 0, 3, 0, 0, 0, 5, 0, 4, 0, 0, 0, 20];
    assert_eq!(s.apply_payload(&payload), Ok(()));
    assert_eq!(s.initial_window_size, 20);
    assert_eq!(s.max_concurrent_streams, Some(5));
}

#[test]
fn payload_is_all_or_nothing() {
    let mut s = Settings::initial();
    let before = s;
    let payload = [0, 4, 0, 0, 0, 10, 0, 5, 0, 0, 0, 1];
    assert_eq!(s.apply_payload(&payload), Err(Reason::ProtocolError));
    assert_eq!(s, before);
    assert_eq!(s.apply_payload(&[0, 4, 0, 0, 0]), Err(Reason::FrameSizeError));
    assert_eq!(s, before);
    assert_eq!(s.apply_payload(&[]), Ok(()));
    assert_eq!(s, before);
}

#[test]
fn local_settings_wait_for_ack() {
    let mut local = h2::settings::LocalSettings::new(Settings::initial());
    assert_eq!(local.recv_ack(), Err(Reason::ProtocolError));
    let mut next = Settings::initial();
    next.initial_window_size = 1_000;
    assert_eq!(local.send_settings(next), Ok(()));
    assert_eq!(
        local.send_settings(next),
        Err(h2::error::UserError::SendSettingsWhilePending)
    );
    assert_eq!(local.current.initial_window_size, 65_535);
    assert_eq!(local.recv_ack(), Ok(()));
    assert_eq!(local.current.initial_window_size, 1_000);
    assert_eq!(local.pending, None);
}
