use multivm_workspace::engine::{EngineAction, EngineEvent, ReadOutcome, SessionEngine};
use multivm_workspace::policy::{jitter_from_id, scheduled_delay_ms};
use multivm_workspace::session::{SessionCommand, SessionStatus, SshSessionConfig};

fn key_config(id: &str, key_path: &str) -> SshSessionConfig {
    SshSessionConfig {
        id: id.to_string(),
        host: "h1".to_string(),
        port: 22,
        user: "u".to_string(),
        auth_method: "key".to_string(),
        key_path: Some(key_path.to_string()),
        password: None,
        project_path: "/work".to_string(),
        ai_cli_command: Some("run-assistant".to_string()),
        keepalive_interval_secs: None,
        reconnect_max_retries: None,
    }
}

fn statuses(actions: &[EngineAction]) -> Vec<SessionStatus> {
    actions
        .iter()
        .filter_map(|a| match a {
            EngineAction::EmitStatus(s) => Some(s.clone()),
            _ => None,
        })
        .collect()
}

#[test]
fn happy_path_connect_resources_shutdown() {
    let mut engine = SessionEngine::new(key_config("s1", "/k"));

    let actions = engine.step(0, EngineEvent::Started);
    let st = statuses(&actions);
    assert_eq!(st.len(), 1);
    assert!(matches!(st[0], SessionStatus::Connecting));
    assert!(actions.iter().any(|a| matches!(
        a,
        EngineAction::AttemptConnect { run_startup: true, cols: 80, rows: 24, keepalive_secs: 15 }
    )));

    let actions = engine.step(10_000, EngineEvent::ConnectSucceeded);
    let st = statuses(&actions);
    assert_eq!(st.len(), 1);
    assert!(matches!(st[0], SessionStatus::Connected));

    // The first resource sample is due on the first tick after connecting,
    // well within the six-second window.
    let actions = engine.step(10_010, EngineEvent::TimerTick);
    assert!(actions.iter().any(|a| matches!(a, EngineAction::CollectResources)));
    // And not again right away.
    let actions = engine.step(10_020, EngineEvent::TimerTick);
    assert!(actions.is_empty());
    // But again five seconds later.
    let actions = engine.step(15_100, EngineEvent::TimerTick);
    assert!(actions.iter().any(|a| matches!(a, EngineAction::CollectResources)));

    let actions = engine.step(16_000, EngineEvent::Inbox(SessionCommand::Shutdown));
    let st = statuses(&actions);
    assert_eq!(st.len(), 1);
    assert!(matches!(st[0], SessionStatus::Disconnected));
    assert!(actions.iter().any(|a| matches!(a, EngineAction::CloseChannel)));

    // Terminated: nothing more ever happens.
    let actions = engine.step(17_000, EngineEvent::TimerTick);
    assert!(actions.is_empty());
}

#[test]
fn bad_key_path_goes_to_manual_wait() {
    let mut engine = SessionEngine::new(key_config("s2", ""));

    let actions = engine.step(0, EngineEvent::Started);
    let st = statuses(&actions);
    assert_eq!(st.len(), 3);
    assert!(matches!(st[0], SessionStatus::Connecting));
    match &st[1] {
        SessionStatus::Error(m) => assert_eq!(m, "key auth requires key_path"),
        other => panic!("expected Error, got {:?}", other),
    }
    assert!(matches!(st[2], SessionStatus::ReconnectFailed));
    // No attempt was requested.
    assert!(!actions.iter().any(|a| matches!(a, EngineAction::AttemptConnect { .. })));

    // Nothing further until ReconnectNow arrives.
    assert!(engine.step(1_000, EngineEvent::TimerTick).is_empty());

    let actions = engine.step(2_000, EngineEvent::Inbox(SessionCommand::ReconnectNow));
    let st = statuses(&actions);
    assert_eq!(st.len(), 1);
    assert!(matches!(st[0], SessionStatus::Reconnecting { attempt: 1, max: 3 }));
}

#[test]
fn mid_session_drop_schedules_first_retry_with_jitter_only() {
    let id = "drop-test";
    let jitter = jitter_from_id(id);
    let mut engine = SessionEngine::new(key_config(id, "/k"));
    engine.step(0, EngineEvent::Started);
    engine.step(10, EngineEvent::ConnectSucceeded);

    let actions = engine.step(1_000, EngineEvent::PtyRead(ReadOutcome::Eof));
    let st = statuses(&actions);
    assert_eq!(st.len(), 1);
    assert!(matches!(st[0], SessionStatus::Reconnecting { attempt: 1, max: 3 }));
    assert!(actions.iter().any(|a| matches!(a, EngineAction::CloseChannel)));
    // First retry: schedule delay zero, only the per-session jitter.
    assert_eq!(engine.next_attempt_at_ms, 1_000 + jitter);
    assert_eq!(engine.disconnect_started_ms, 1_000);

    // Not due yet before the jitter has passed (when there is any).
    if jitter > 0 {
        assert!(engine.step(1_000, EngineEvent::TimerTick).is_empty());
    }
    let actions = engine.step(1_000 + jitter, EngineEvent::TimerTick);
    // The startup command is not re-issued on reconnect.
    assert!(actions.iter().any(|a| matches!(
        a,
        EngineAction::AttemptConnect { run_startup: false, .. }
    )));

    let actions = engine.step(1_100 + jitter, EngineEvent::ConnectSucceeded);
    let st = statuses(&actions);
    assert_eq!(st.len(), 1);
    assert!(matches!(st[0], SessionStatus::Connected));
}

#[test]
fn exhausted_retries_reach_reconnect_failed() {
    let id = "exhaust";
    let jitter = jitter_from_id(id);
    let mut engine = SessionEngine::new(key_config(id, "/k"));
    engine.step(0, EngineEvent::Started);
    engine.step(10, EngineEvent::ConnectSucceeded);

    // Drop.
    let actions = engine.step(1_000, EngineEvent::PtyRead(ReadOutcome::Eof));
    assert!(matches!(
        statuses(&actions)[0],
        SessionStatus::Reconnecting { attempt: 1, max: 3 }
    ));

    // Attempt 1 fails (transient).
    engine.step(1_000 + jitter, EngineEvent::TimerTick);
    let actions = engine.step(
        1_100 + jitter,
        EngineEvent::ConnectFailed("tcp connect h1:22: refused".to_string()),
    );
    let st = statuses(&actions);
    assert_eq!(st.len(), 2);
    assert!(matches!(st[0], SessionStatus::Error(_)));
    assert!(matches!(st[1], SessionStatus::Reconnecting { attempt: 2, max: 3 }));
    // Attempt 2 is scheduled five seconds after the disconnect, plus jitter.
    assert_eq!(engine.next_attempt_at_ms, 1_000 + 5_000 + jitter);

    // Attempt 2 fails.
    engine.step(6_000 + jitter, EngineEvent::TimerTick);
    let actions = engine.step(
        6_100 + jitter,
        EngineEvent::ConnectFailed("tcp connect h1:22: refused".to_string()),
    );
    let st = statuses(&actions);
    assert!(matches!(st[1], SessionStatus::Reconnecting { attempt: 3, max: 3 }));
    // Attempt 3 is scheduled ten seconds after the disconnect, plus jitter.
    assert_eq!(engine.next_attempt_at_ms, 1_000 + 10_000 + jitter);

    // Attempt 3 fails: the budget is exhausted.
    engine.step(11_000 + jitter, EngineEvent::TimerTick);
    let actions = engine.step(
        11_100 + jitter,
        EngineEvent::ConnectFailed("tcp connect h1:22: refused".to_string()),
    );
    let st = statuses(&actions);
    assert_eq!(st.len(), 2);
    assert!(matches!(st[0], SessionStatus::Error(_)));
    assert!(matches!(st[1], SessionStatus::ReconnectFailed));

    // Manual wait: timers do nothing now.
    assert!(engine.step(60_000, EngineEvent::TimerTick).is_empty());
}

#[test]
fn auth_error_during_reconnect_short_circuits() {
    let id = "auth-fatal";
    let jitter = jitter_from_id(id);
    let mut engine = SessionEngine::new(key_config(id, "/k"));
    engine.step(0, EngineEvent::Started);
    engine.step(10, EngineEvent::ConnectSucceeded);
    engine.step(1_000, EngineEvent::PtyRead(ReadOutcome::Eof));
    engine.step(1_000 + jitter, EngineEvent::TimerTick);

    // An auth-classified failure stops retrying even with budget left.
    let actions = engine.step(
        1_100 + jitter,
        EngineEvent::ConnectFailed("auth h1:22: access denied".to_string()),
    );
    let st = statuses(&actions);
    assert_eq!(st.len(), 2);
    assert!(matches!(st[0], SessionStatus::Error(_)));
    assert!(matches!(st[1], SessionStatus::ReconnectFailed));
}

#[test]
fn connected_loop_dispatches_commands() {
    let mut engine = SessionEngine::new(key_config("cmds", "/k"));
    engine.step(0, EngineEvent::Started);
    engine.step(10, EngineEvent::ConnectSucceeded);

    let actions = engine.step(
        20,
        EngineEvent::Inbox(SessionCommand::Write(vec![104, 105])),
    );
    assert!(matches!(&actions[0], EngineAction::WriteBytes(d) if d == &vec![104u8, 105u8]));

    let actions = engine.step(
        30,
        EngineEvent::Inbox(SessionCommand::Resize { cols: 120, rows: 40 }),
    );
    assert!(matches!(actions[0], EngineAction::RequestPtySize { cols: 120, rows: 40 }));
    assert_eq!(engine.pty_cols, 120);
    assert_eq!(engine.pty_rows, 40);

    let actions = engine.step(
        40,
        EngineEvent::Inbox(SessionCommand::ListDirectory { path: "/etc".to_string() }),
    );
    assert!(matches!(&actions[0], EngineAction::PerformListDir { path } if path == "/etc"));

    let actions = engine.step(
        50,
        EngineEvent::Inbox(SessionCommand::ReadFile {
            path: "/etc/hosts".to_string(),
            max_bytes: Some(64),
        }),
    );
    assert!(matches!(
        &actions[0],
        EngineAction::PerformReadFile { path, max_bytes: Some(64) } if path == "/etc/hosts"
    ));

    // ReconnectNow is ignored while connected.
    assert!(engine.step(60, EngineEvent::Inbox(SessionCommand::ReconnectNow)).is_empty());

    // Terminal output passes through unchanged.
    let actions = engine.step(70, EngineEvent::PtyRead(ReadOutcome::Data(vec![1, 2, 3])));
    assert!(matches!(&actions[0], EngineAction::EmitOutput(d) if d == &vec![1u8, 2u8, 3u8]));

    // A would-block read is a quiet iteration.
    assert!(engine.step(80, EngineEvent::PtyRead(ReadOutcome::WouldBlock)).is_empty());
}

#[test]
fn sftp_requests_rejected_while_waiting() {
    let mut engine = SessionEngine::new(key_config("waiting", "/k"));
    engine.step(0, EngineEvent::Started);
    engine.step(10, EngineEvent::ConnectSucceeded);
    engine.step(1_000, EngineEvent::PtyRead(ReadOutcome::Eof));

    let actions = engine.step(
        1_001,
        EngineEvent::Inbox(SessionCommand::ListDirectory { path: "/".to_string() }),
    );
    assert!(matches!(actions[0], EngineAction::RejectListDir));

    let actions = engine.step(
        1_002,
        EngineEvent::Inbox(SessionCommand::ReadFile { path: "/f".to_string(), max_bytes: None }),
    );
    assert!(matches!(actions[0], EngineAction::RejectReadFile));

    // Shutdown while waiting emits Disconnected and terminates.
    let actions = engine.step(1_003, EngineEvent::Inbox(SessionCommand::Shutdown));
    let st = statuses(&actions);
    assert_eq!(st.len(), 1);
    assert!(matches!(st[0], SessionStatus::Disconnected));
}

#[test]
fn write_failure_drops_with_error() {
    let mut engine = SessionEngine::new(key_config("wfail", "/k"));
    engine.step(0, EngineEvent::Started);
    engine.step(10, EngineEvent::ConnectSucceeded);

    let actions = engine.step(
        500,
        EngineEvent::WriteFailed("channel write: broken pipe".to_string()),
    );
    let st = statuses(&actions);
    assert_eq!(st.len(), 2);
    assert!(matches!(st[0], SessionStatus::Error(_)));
    assert!(matches!(st[1], SessionStatus::Reconnecting { attempt: 1, max: 3 }));
}

#[test]
fn configured_retry_bound_is_used() {
    let mut cfg = key_config("bounded", "/k");
    cfg.reconnect_max_retries = Some(1);
    let mut engine = SessionEngine::new(cfg);
    engine.step(0, EngineEvent::Started);
    engine.step(10, EngineEvent::ConnectSucceeded);

    let actions = engine.step(1_000, EngineEvent::PtyRead(ReadOutcome::Eof));
    assert!(matches!(
        statuses(&actions)[0],
        SessionStatus::Reconnecting { attempt: 1, max: 1 }
    ));
    engine.step(2_000, EngineEvent::TimerTick);
    let actions = engine.step(
        2_100,
        EngineEvent::ConnectFailed("tcp connect: refused".to_string()),
    );
    let st = statuses(&actions);
    assert!(matches!(st[1], SessionStatus::ReconnectFailed));
}

#[test]
fn jitter_and_schedule_values() {
    // Byte sum of "ab" is 195, below the modulus.
    assert_eq!(jitter_from_id("ab"), 195);
    // The jitter stays under 400 milliseconds.
    assert!(jitter_from_id("some-rather-long-session-identifier") < 400);

    assert_eq!(scheduled_delay_ms(1, 195), 195);
    assert_eq!(scheduled_delay_ms(2, 195), 5_195);
    assert_eq!(scheduled_delay_ms(3, 195), 10_195);
    // Attempts past the schedule reuse its last entry.
    assert_eq!(scheduled_delay_ms(7, 195), 10_195);
    assert_eq!(scheduled_delay_ms(1, 0), 0);
}
