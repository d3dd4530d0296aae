use smbn::protocol::{
    DiagnosticsResult, EngineState, EngineStatus, LogTail, RequestEnvelope, SessionInfo, IPC_PROTOCOL_VERSION,
    MAX_IPC_MESSAGE_BYTES,
};

#[test]
fn protocol_constants() {
    assert_eq!(IPC_PROTOCOL_VERSION, 1);
    assert_eq!(MAX_IPC_MESSAGE_BYTES, 8 * 1024 * 1024);
}

#[test]
fn requests_carry_the_current_version() {
    let request = RequestEnvelope::new(9, "token".into(), "status".into(), serde_json::Value::Null);
    assert_eq!(request.version, IPC_PROTOCOL_VERSION);
    assert_eq!(request.id, 9);
    assert_eq!(request.token, "token");
    assert_eq!(request.command, "status");
    assert!(request.payload.is_null());
}

#[test]
fn protocol_defaults() {
    assert_eq!(EngineState::default(), EngineState::Stopped);
    let status = EngineStatus::default();
    assert_eq!(status.state, EngineState::Stopped);
    assert!(status.last_error.is_none() && status.started_at_utc.is_none());
    assert_eq!(status.uptime_seconds, 0);
    assert!(DiagnosticsResult::default().checks.is_empty());
    let tail = LogTail::default();
    assert!(tail.lines.is_empty() && !tail.truncated);
    assert_eq!(SessionInfo::default().open_file_count, 0);
}
