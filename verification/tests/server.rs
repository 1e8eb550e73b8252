use second_brain_core::frame::{
    decode_frame_header, encode_frame_header, frame_len_allowed, MAX_FRAME_LEN,
};
use second_brain_core::events::StateEvent;
use second_brain_core::keys::ModifierState;
use second_brain_core::machine::{state_after_event, State, StateMachine};
use second_brain_core::protocol::DaemonStatus;
use second_brain_core::protocol::{Mode, Notification, Request, Response};
use second_brain_core::server::{notification_for_subscriber, ServerCore};
use second_brain_core::wire::{decode_notification, encode_notification};

#[test]
fn test_ping_pong() {
    let mut core = ServerCore::new(String::from("0.1.0"));
    let (resp, subscribe) = core.process_request(Request::Ping, 0);
    assert_eq!(resp, Response::Pong);
    assert!(!subscribe);
}

#[test]
fn test_get_status_refreshes_uptime() {
    let mut core = ServerCore::new(String::from("0.1.0"));
    let (resp, subscribe) = core.process_request(Request::GetStatus, 42);
    assert!(!subscribe);
    match resp {
        Response::Status(st) => {
            assert_eq!(st.version, "0.1.0");
            assert_eq!(st.mode, Mode::Idle);
            assert!(!st.hotkey_registered);
            assert_eq!(st.uptime_secs, 42);
        }
        other => panic!("expected a status response, got {:?}", other),
    }
}

#[test]
fn test_set_mode() {
    let mut core = ServerCore::new(String::from("0.1.0"));
    let (resp, _) = core.process_request(Request::SetMode { mode: Mode::Agent }, 0);
    assert_eq!(resp, Response::ModeChange { mode: Mode::Agent, active: true });
    let (resp2, _) = core.process_request(Request::SetMode { mode: Mode::Idle }, 0);
    assert_eq!(resp2, Response::ModeChange { mode: Mode::Idle, active: false });
}

#[test]
fn test_set_state_syncs_snapshot() {
    let mut core = ServerCore::new(String::from("0.1.0"));
    core.set_state(State::DictationActive);
    let (resp, _) = core.process_request(Request::GetStatus, 1);
    match resp {
        Response::Status(st) => {
            assert_eq!(st.mode, Mode::Dictation);
            assert!(st.hotkey_registered);
        }
        other => panic!("expected a status response, got {:?}", other),
    }
}

#[test]
fn test_subscribe_then_notification() {
    // A client subscribes; the engine then moves Idle -> Dictation; the
    // client is handed a mode_changed notification for that transition
    // without sending anything further.
    let mut core = ServerCore::new(String::from("0.1.0"));
    let (resp, subscribed) = core.process_request(Request::Subscribe, 0);
    assert_eq!(resp, Response::Subscribed);
    assert!(subscribed);

    let mut sm = StateMachine::new();
    let previous = Mode::from(sm.state());
    let events = sm.handle_modifier_change(
        ModifierState { control: true, option: false, command: false },
        0,
    );
    assert_eq!(events.len(), 1);
    let new_state = state_after_event(&events[0]).unwrap();
    let nf = Notification::ModeChanged { mode: Mode::from(new_state), previous };

    let wire = encode_notification(&nf);
    let delivered = decode_notification(wire.as_str()).unwrap();
    assert_eq!(
        delivered,
        Notification::ModeChanged { mode: Mode::Dictation, previous: Mode::Idle }
    );
}

#[test]
fn test_oversized_frame_rejected() {
    // A frame declaring 2,000,000 bytes is over the 1 MiB bound: the
    // connection is dropped without a response.
    let header = encode_frame_header(2_000_000);
    let declared = decode_frame_header(&header);
    assert_eq!(declared, 2_000_000);
    assert!(!frame_len_allowed(declared));
}

#[test]
fn test_frame_header_round_trip() {
    for len in [0u32, 1, 255, 256, 65535, 65536, MAX_FRAME_LEN, u32::MAX] {
        let header = encode_frame_header(len);
        assert_eq!(header.len(), 4);
        assert_eq!(decode_frame_header(&header), len);
    }
    assert_eq!(encode_frame_header(1), vec![1, 0, 0, 0]);
    assert_eq!(encode_frame_header(0x01020304), vec![4, 3, 2, 1]);
}

#[test]
fn test_frame_len_boundary() {
    assert!(frame_len_allowed(0));
    assert!(frame_len_allowed(MAX_FRAME_LEN));
    assert!(!frame_len_allowed(MAX_FRAME_LEN + 1));
}

#[test]
fn test_default_status_carries_version() {
    let st = DaemonStatus::default();
    assert_eq!(st.version, "0.1.0");
    assert_eq!(st.mode, Mode::Idle);
    assert!(!st.hotkey_registered);
    assert_eq!(st.uptime_secs, 0);
}

#[test]
fn test_notification_for_subscriber() {
    // An entry event implies a new mode: notify once.
    let (nf, last) = notification_for_subscriber(&StateEvent::DictationStarted, Mode::Idle);
    assert_eq!(
        nf,
        Some(Notification::ModeChanged { mode: Mode::Dictation, previous: Mode::Idle })
    );
    assert_eq!(last, Mode::Dictation);

    // The same implied mode again: nothing further.
    let (nf2, last2) = notification_for_subscriber(&StateEvent::DictationStarted, last);
    assert_eq!(nf2, None);
    assert_eq!(last2, Mode::Dictation);

    // An exit event implies Idle: notify the fall-back.
    let (nf3, last3) =
        notification_for_subscriber(&StateEvent::DictationComplete { duration_ms: 5 }, last2);
    assert_eq!(
        nf3,
        Some(Notification::ModeChanged { mode: Mode::Idle, previous: Mode::Dictation })
    );
    assert_eq!(last3, Mode::Idle);

    // Audio events imply no mode: nothing sent, memory kept.
    let (nf4, last4) = notification_for_subscriber(&StateEvent::AudioCaptureStarted, last3);
    assert_eq!(nf4, None);
    assert_eq!(last4, Mode::Idle);
}
