use pi_oven::net::{
    handshake_error_text, millis_or_zero, msg_debug_text,
    backoff_secs, backoff_with_jitter, contains_str, handshake_step, now_ms, terminal_code,
    CloseInfo, ConnectionState, HandshakeError, HandshakeStep, Incoming, Reconnector, Session,
    SessionAction, SessionEvent, MAX_MISSED_PONGS,
};
use pi_oven::protocol::{Msg, ReplayEntry, WorkspaceInfo};

#[test]
fn backoff_schedule() {
    // Attempt 0 → base=1, attempt 1 → base=2, …, attempt 5+ → base=30 (capped).
    // Jitter is ±25% of base, so max value for attempt≥5 is 30*1.25 = 37.5 → 37.
    let samples: Vec<u64> = (0..6).map(backoff_secs).collect();
    // All values are within the jittered cap: max = ceil(30 * 1.25) = 38.
    for s in &samples {
        assert!(*s <= 38, "backoff exceeded jittered upper bound: {s}");
    }
    // First attempt uses base=1, so result ≤ ceil(1*1.25)=1 or 2.
    assert!(samples[0] <= 2, "first attempt should be at most 2s: {}", samples[0]);
    // The jittered base is always ≥ base - quarter ≥ 0.
    for s in &samples {
        assert!(*s >= 0);
    }
}

#[test]
fn attempt_resets_on_success() {
    // Verify that backoff_secs(0) gives the minimum backoff (≥1s base * 0.75).
    // This is a unit-level check since integration with the running server is manual.
    assert!(backoff_secs(0) <= 2, "first retry within 2s");
}

#[test]
fn jittered_backoff_exact_values() {
    assert_eq!(backoff_with_jitter(0, 999_999_999), 1);
    assert_eq!(backoff_with_jitter(1, 0), 2);
    assert_eq!(backoff_with_jitter(2, 0), 3);
    assert_eq!(backoff_with_jitter(2, 1), 4);
    assert_eq!(backoff_with_jitter(3, 7), 9);
    assert_eq!(backoff_with_jitter(4, 5), 17);
    assert_eq!(backoff_with_jitter(5, 0), 23);
    assert_eq!(backoff_with_jitter(5, 13), 36);
    assert_eq!(backoff_with_jitter(40, 14), 23);
    assert_eq!(backoff_with_jitter(u32::MAX, 13), 36);
}

#[test]
fn backoff_stays_within_quarter_of_base() {
    for attempt in 0..10u32 {
        for nanos in [0u32, 1, 7, 123_456_789, 999_999_999] {
            let d = backoff_with_jitter(attempt, nanos);
            let base = if attempt >= 5 { 30 } else { 1u64 << attempt };
            assert!(d >= base - base / 4 && d <= base + base / 4);
            assert!((1..=37).contains(&d));
        }
    }
}

#[test]
fn clock_reads_after_2020() {
    assert!(now_ms() > 1_577_836_800_000);
}

#[test]
fn terminal_close_codes() {
    assert!(terminal_code(4401));
    assert!(terminal_code(4002));
    assert!(terminal_code(1000));
    assert!(!terminal_code(1001));
    assert!(!terminal_code(0));
}

#[test]
fn substring_search() {
    assert!(contains_str("auth failed: invalid_key", "auth failed"));
    assert!(contains_str("x auth failed", "auth failed"));
    assert!(!contains_str("auth fail", "auth failed"));
    assert!(contains_str("anything", ""));
    assert!(!contains_str("", "a"));
}

#[test]
fn handshake_accepts_welcome_after_control_frames() {
    assert!(matches!(handshake_step(Incoming::Control), HandshakeStep::Continue));
    let step = handshake_step(Incoming::Message(Msg::Welcome { server_version: "1.2.3".to_string(), workspaces: vec![] }));
    assert!(matches!(step, HandshakeStep::Welcomed(Msg::Welcome { ref server_version, .. }) if server_version == "1.2.3"));
}

#[test]
fn handshake_failures() {
    let step = handshake_step(Incoming::Message(Msg::AuthFailed { reason: "invalid_key".to_string() }));
    assert!(matches!(step, HandshakeStep::Failed(HandshakeError::AuthFailed { ref reason }) if reason == "invalid_key"));
    let step = handshake_step(Incoming::Message(Msg::Ping { ts_ms: 5 }));
    assert!(matches!(step, HandshakeStep::Failed(HandshakeError::Unexpected(Msg::Ping { ts_ms: 5 }))));
    assert!(matches!(handshake_step(Incoming::Unparsable), HandshakeStep::Failed(HandshakeError::Unparsable)));
    let step = handshake_step(Incoming::Close(Some(CloseInfo { code: 4401, reason: "auth_failed".to_string() })));
    assert!(matches!(step, HandshakeStep::Failed(HandshakeError::Closed { code: 4401 })));
    assert!(matches!(handshake_step(Incoming::Close(None)), HandshakeStep::Failed(HandshakeError::Closed { code: 0 })));
    let step = handshake_step(Incoming::Error("reset".to_string()));
    assert!(matches!(step, HandshakeStep::Failed(HandshakeError::Transport(ref e)) if e == "reset"));
    assert!(matches!(handshake_step(Incoming::End), HandshakeStep::Failed(HandshakeError::Ended)));
}

#[test]
fn session_closes_after_missed_pongs() {
    assert_eq!(MAX_MISSED_PONGS, 2);
    let mut s = Session::new();
    assert!(matches!(s.step(SessionEvent::Tick), SessionAction::SendPing));
    assert!(matches!(s.step(SessionEvent::Tick), SessionAction::SendPing));
    match s.step(SessionEvent::Tick) {
        SessionAction::Close(info) => {
            assert_eq!(info.code, 0);
            assert_eq!(info.reason, "missed pongs");
        }
        _ => panic!("expected close"),
    }
}

#[test]
fn pong_resets_heartbeat() {
    let mut s = Session::new();
    assert!(matches!(s.step(SessionEvent::Tick), SessionAction::SendPing));
    assert!(matches!(s.step(SessionEvent::Tick), SessionAction::SendPing));
    let pong = Msg::Pong { client_ts_ms: 1, server_ts_ms: 2 };
    assert!(matches!(s.step(SessionEvent::Frame(Incoming::Message(pong))), SessionAction::Ignore));
    assert!(matches!(s.step(SessionEvent::Tick), SessionAction::SendPing));
    assert!(matches!(s.step(SessionEvent::Tick), SessionAction::SendPing));
}

#[test]
fn session_routes_frames_and_outgoing() {
    let mut s = Session::new();
    let hello = Msg::Hello { key: "k".to_string(), client_version: "0.1.0".to_string() };
    assert!(matches!(s.step(SessionEvent::Outgoing(hello)), SessionAction::Send(Msg::Hello { .. })));
    let ping = Msg::Ping { ts_ms: 9 };
    assert!(matches!(s.step(SessionEvent::Frame(Incoming::Message(ping))), SessionAction::Deliver(Msg::Ping { ts_ms: 9 })));
    assert!(matches!(s.step(SessionEvent::Frame(Incoming::Unparsable)), SessionAction::Ignore));
    assert!(matches!(s.step(SessionEvent::Frame(Incoming::Control)), SessionAction::Ignore));
    match s.step(SessionEvent::OutgoingClosed) {
        SessionAction::Close(info) => {
            assert_eq!(info.code, 1000);
            assert_eq!(info.reason, "channel closed");
        }
        _ => panic!("expected close"),
    }
    match s.step(SessionEvent::Frame(Incoming::End)) {
        SessionAction::Close(info) => assert_eq!(info.reason, "connection closed"),
        _ => panic!("expected close"),
    }
    match s.step(SessionEvent::Frame(Incoming::Close(None))) {
        SessionAction::Close(info) => {
            assert_eq!(info.code, 0);
            assert_eq!(info.reason, "");
        }
        _ => panic!("expected close"),
    }
}

#[test]
fn no_reconnect_after_terminal_close() {
    let mut r = Reconnector::new();
    let state = r.on_disconnected(Some(CloseInfo { code: 4401, reason: "auth_failed".to_string() }));
    assert!(matches!(state, ConnectionState::Failed { ref reason } if reason == "auth_failed"));
    assert_eq!(r.attempt(), 0);
}

#[test]
fn no_reconnect_on_auth_error() {
    let mut r = Reconnector::new();
    let state = r.on_connect_failed("auth failed: invalid_key".to_string());
    assert!(matches!(state, ConnectionState::Failed { ref reason } if reason == "auth failed: invalid_key"));
    assert_eq!(r.attempt(), 0);
}

#[test]
fn reconnects_with_growing_backoff_and_resets_on_success() {
    let mut r = Reconnector::new();
    let s = r.on_connect_failed("connection refused".to_string());
    assert!(matches!(s, ConnectionState::Reconnecting { in_seconds: 1 }));
    assert_eq!(r.attempt(), 1);
    let s = r.on_disconnected(None);
    assert!(matches!(s, ConnectionState::Reconnecting { in_seconds: 2 }));
    assert_eq!(r.attempt(), 2);
    let s = r.on_disconnected(Some(CloseInfo { code: 1006, reason: String::new() }));
    assert!(matches!(s, ConnectionState::Reconnecting { in_seconds } if (3..=5).contains(&in_seconds)));
    assert!(matches!(r.on_connected(), ConnectionState::Authenticated));
    assert_eq!(r.attempt(), 0);
    let s = r.on_disconnected(None);
    assert!(matches!(s, ConnectionState::Reconnecting { in_seconds: 1 }));
}

#[test]
fn handshake_error_texts() {
    let auth = HandshakeError::AuthFailed { reason: "invalid_key".to_string() };
    assert_eq!(handshake_error_text(&auth), "auth failed: invalid_key");
    assert_eq!(handshake_error_text(&HandshakeError::Unparsable), "parse server message during handshake");
    assert_eq!(
        handshake_error_text(&HandshakeError::Closed { code: 4401 }),
        "connection closed during handshake: code 4401"
    );
    assert_eq!(handshake_error_text(&HandshakeError::Ended), "connection closed before Welcome");
    assert_eq!(handshake_error_text(&HandshakeError::Transport("reset".to_string())), "reset");
    let m = Msg::Ping { ts_ms: 7 };
    assert_eq!(
        handshake_error_text(&HandshakeError::Unexpected(m)),
        "unexpected message during handshake: Ping { ts_ms: 7 }"
    );
}

#[test]
fn auth_failure_text_ends_reconnecting() {
    let text = handshake_error_text(&HandshakeError::AuthFailed { reason: "invalid_key".to_string() });
    let mut r = Reconnector::new();
    assert!(matches!(r.on_connect_failed(text), ConnectionState::Failed { ref reason } if reason == "auth failed: invalid_key"));
}

#[test]
fn message_debug_text_matches_debug() {
    let msgs = vec![
        Msg::Hello { key: "k\"ey".to_string(), client_version: "0.1.0".to_string() },
        Msg::Welcome { server_version: "1.2.3".to_string(), workspaces: vec![] },
        Msg::AuthFailed { reason: "bad\nkey".to_string() },
        Msg::Ping { ts_ms: 0 },
        Msg::Pong { client_ts_ms: 100, server_ts_ms: 18446744073709551615 },
        Msg::Send { workspace_id: 1, text: "héllo".to_string(), queue_mode: "steer".to_string() },
        Msg::Abort { workspace_id: 42 },
        Msg::AgentStatus { workspace_id: 3, status: "running".to_string() },
        Msg::Welcome {
            server_version: "2".to_string(),
            workspaces: vec![WorkspaceInfo { workspace_id: 1 }, WorkspaceInfo { workspace_id: 9 }],
        },
        Msg::Resume { workspace_id: 4, last_seq: 17 },
        Msg::AgentEvent { workspace_id: 4, seq: 18, event: "tool \"ls\"".to_string() },
        Msg::ReplayBatch {
            workspace_id: 4,
            events: vec![
                ReplayEntry { seq: 1, event: "a".to_string() },
                ReplayEntry { seq: 2, event: "b".to_string() },
                ReplayEntry { seq: 3, event: "c".to_string() },
            ],
            latest_seq: 3,
        },
        Msg::ReplayBatch { workspace_id: 0, events: vec![], latest_seq: 0 },
    ];
    for m in &msgs {
        assert_eq!(msg_debug_text(m), format!("{m:?}"));
    }
}

#[test]
fn clock_reading_in_milliseconds() {
    assert_eq!(millis_or_zero(None), 0);
    assert_eq!(millis_or_zero(Some(1_700_000_000_123)), 1_700_000_000_123);
    assert_eq!(millis_or_zero(Some((1u128 << 64) + 5)), 5);
}
