use second_brain_core::events::StateEvent;
use second_brain_core::protocol::{DaemonStatus, Mode, Notification, Request, Response};
use second_brain_core::wire::{
    decode_notification, decode_request, decode_response, decode_state_event, encode_notification,
    encode_request, encode_response, encode_state_event,
};

#[test]
fn test_request_serialization() {
    let req = Request::SetMode { mode: Mode::Dictation };
    let json = encode_request(&req);
    assert!(json.contains("set_mode"));
    assert!(json.contains("dictation"));
}

#[test]
fn test_response_serialization() {
    let resp = Response::Status(DaemonStatus::default());
    let json = encode_response(&resp);
    assert!(json.contains("status"));
}

#[test]
fn test_event_serialization() {
    let event = StateEvent::DictationComplete { duration_ms: 1500 };
    let json = encode_state_event(&event);
    assert!(json.contains("dictation_complete"));
    assert!(json.contains("1500"));
}

#[test]
fn test_event_deserialization() {
    let json = "{\"type\":\"agent_mode_entered\"}";
    let event = decode_state_event(json).unwrap();
    assert!(matches!(event, StateEvent::AgentModeEntered));
}

#[test]
fn test_request_exact_encoding() {
    assert_eq!(encode_request(&Request::GetStatus), "{\"type\":\"get_status\"}");
    assert_eq!(encode_request(&Request::Ping), "{\"type\":\"ping\"}");
    assert_eq!(encode_request(&Request::Subscribe), "{\"type\":\"subscribe\"}");
    assert_eq!(
        encode_request(&Request::SetMode { mode: Mode::Agent }),
        "{\"type\":\"set_mode\",\"mode\":\"agent\"}"
    );
}

#[test]
fn test_request_round_trip() {
    let requests = vec![
        Request::GetStatus,
        Request::Ping,
        Request::Subscribe,
        Request::SetMode { mode: Mode::Idle },
        Request::SetMode { mode: Mode::Dictation },
        Request::SetMode { mode: Mode::Intelligent },
        Request::SetMode { mode: Mode::Agent },
    ];
    for req in requests {
        let json = encode_request(&req);
        assert_eq!(decode_request(json.as_str()), Some(req.clone()));
    }
}

#[test]
fn test_response_round_trip_simple() {
    for resp in [
        Response::Pong,
        Response::Subscribed,
        Response::ModeChange { mode: Mode::Dictation, active: true },
        Response::ModeChange { mode: Mode::Idle, active: false },
    ] {
        let json = encode_response(&resp);
        assert_eq!(decode_response(json.as_str()), Some(resp.clone()));
    }
}

#[test]
fn test_response_round_trip_status() {
    let resp = Response::Status(DaemonStatus {
        version: String::from("0.1.0"),
        mode: Mode::Intelligent,
        hotkey_registered: true,
        uptime_secs: 12345,
    });
    let json = encode_response(&resp);
    assert_eq!(
        json,
        "{\"type\":\"status\",\"version\":\"0.1.0\",\"mode\":\"intelligent\",\
         \"hotkey_registered\":true,\"uptime_secs\":12345}"
    );
    assert_eq!(decode_response(json.as_str()), Some(resp));
}

#[test]
fn test_response_round_trip_error_with_escapes() {
    let resp = Response::Error {
        code: String::from("bad \"frame\""),
        message: String::from("back\\slash and\nnewline\ttab"),
    };
    let json = encode_response(&resp);
    assert_eq!(decode_response(json.as_str()), Some(resp));
}

#[test]
fn test_error_escape_encoding() {
    let resp = Response::Error {
        code: String::from("c\"q"),
        message: String::from("a\nb"),
    };
    let json = encode_response(&resp);
    assert_eq!(
        json,
        "{\"type\":\"error\",\"code\":\"c\\\"q\",\"message\":\"a\\u000ab\"}"
    );
}

#[test]
fn test_notification_round_trip() {
    for nf in [
        Notification::ModeChanged { mode: Mode::Dictation, previous: Mode::Idle },
        Notification::ModeChanged { mode: Mode::Idle, previous: Mode::Agent },
        Notification::StateEvent(StateEvent::AgentModeExited { duration_ms: 99 }),
        Notification::StateEvent(StateEvent::IntelligentStarted),
    ] {
        let json = encode_notification(&nf);
        assert_eq!(decode_notification(json.as_str()), Some(nf));
    }
}

#[test]
fn test_state_event_round_trip() {
    for ev in [
        StateEvent::DictationStarted,
        StateEvent::DictationComplete { duration_ms: 0 },
        StateEvent::IntelligentStarted,
        StateEvent::IntelligentRequestComplete { duration_ms: u64::MAX },
        StateEvent::AgentModeEntered,
        StateEvent::AgentModeExited { duration_ms: 1 },
        StateEvent::AudioCaptureStarted,
        StateEvent::AudioCaptureStopped,
    ] {
        let json = encode_state_event(&ev);
        assert_eq!(decode_state_event(json.as_str()), Some(ev));
    }
}

#[test]
fn test_decode_rejects_malformed() {
    // unknown tag
    assert_eq!(decode_request("{\"type\":\"reboot\"}"), None);
    // truncated input
    assert_eq!(decode_request("{\"type\":\"pin"), None);
    // trailing garbage
    assert_eq!(decode_request("{\"type\":\"ping\"} "), None);
    // wrong message family
    assert_eq!(decode_request("{\"type\":\"pong\"}"), None);
    // empty input
    assert_eq!(decode_response(""), None);
    // leading zero in a number
    assert_eq!(
        decode_state_event("{\"type\":\"dictation_complete\",\"duration_ms\":007}"),
        None
    );
    // number out of 64-bit range
    assert_eq!(
        decode_state_event("{\"type\":\"dictation_complete\",\"duration_ms\":18446744073709551616}"),
        None
    );
    // unterminated string
    assert_eq!(decode_response("{\"type\":\"error\",\"code\":\"x"), None);
    // non-canonical escape
    assert_eq!(
        decode_response("{\"type\":\"error\",\"code\":\"\\x\",\"message\":\"\"}"),
        None
    );
}

#[test]
fn test_describe() {
    assert_eq!(StateEvent::DictationStarted.describe(), "DICTATION_STARTED");
    assert_eq!(
        StateEvent::AgentModeExited { duration_ms: 450 }.describe(),
        "AGENT_MODE_EXITED (450ms)"
    );
}

#[test]
fn test_notification_rejects_other_families() {
    assert_eq!(decode_notification("{\"type\":\"ping\"}"), None);
    assert_eq!(decode_notification("{\"type\":\"mode_change\",\"mode\":\"idle\",\"active\":false}"), None);
    assert_eq!(
        decode_notification("{\"type\":\"state_event\",\"event\":{\"type\":\"dictation_started\"}}"),
        Some(Notification::StateEvent(StateEvent::DictationStarted))
    );
}

#[test]
fn test_status_with_escaped_version() {
    let resp = Response::Status(DaemonStatus {
        version: String::from("v \"dev\"\\local"),
        mode: Mode::Agent,
        hotkey_registered: false,
        uptime_secs: 0,
    });
    let json = encode_response(&resp);
    assert_eq!(decode_response(json.as_str()), Some(resp));
}
