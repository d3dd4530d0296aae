//! The IPC protocol spoken with the SMB engine: message types, length-prefixed framing and the
//! checks a response must pass.
use vstd::prelude::*;
use vstd::string::*;

use crate::config::EngineConfig;
use crate::text::{decimal, decimal_string};

verus! {

/// The protocol version both sides must agree on.
pub const IPC_PROTOCOL_VERSION: u32 = 1;

/// The largest message body, in bytes, either side accepts (8 MiB).
pub const MAX_IPC_MESSAGE_BYTES: usize = 8388608;

/// A JSON document carried as an opaque payload.
#[verifier::external_type_specification]
#[verifier::external_body]
pub struct ExJsonValue(serde_json::Value);

/// A request sent to the engine.
#[derive(Debug)]
pub struct RequestEnvelope {
    pub version: u32,
    pub id: u64,
    pub token: String,
    pub command: String,
    pub payload: serde_json::Value,
}

impl RequestEnvelope {
    /// A request of the current protocol version.
    pub fn new(id: u64, token: String, command: String, payload: serde_json::Value) -> (res: Self)
        ensures
            res.version == IPC_PROTOCOL_VERSION,
            res.id == id,
            res.token@ == token@,
            res.command@ == command@,
            res.payload == payload,
    {
        RequestEnvelope { version: IPC_PROTOCOL_VERSION, id, token, command, payload }
    }
}

/// A response received from the engine.
#[derive(Debug)]
pub struct ResponseEnvelope {
    pub version: u32,
    pub id: u64,
    pub ok: bool,
    pub payload: serde_json::Value,
    pub error: Option<EngineError>,
}

/// The error an engine reports for a failed request.
#[derive(Debug, Clone)]
pub struct EngineError {
    pub code: String,
    pub message: String,
    pub detail: Option<String>,
}

/// The payload of a `start` request.
#[derive(Debug, Clone)]
pub struct StartPayload {
    pub config: EngineConfig,
}

/// The life-cycle state of the SMB server inside the engine.
#[derive(Debug, Copy, Clone, PartialEq, Eq, Structural)]
pub enum EngineState {
    Stopped,
    Starting,
    Running,
    Stopping,
    Faulted,
}

impl Default for EngineState {
    fn default() -> (res: Self)
        ensures
            res == EngineState::Stopped,
    {
        EngineState::Stopped
    }
}

/// What the engine reports about the running server.
#[derive(Debug, Clone)]
pub struct EngineStatus {
    pub state: EngineState,
    pub started_at_utc: Option<String>,
    pub uptime_seconds: u64,
    pub listener_count: usize,
    pub share_count: usize,
    pub user_count: usize,
    pub session_count: usize,
    pub open_file_count: usize,
    pub last_error: Option<String>,
    pub engine_version: String,
    pub smblibrary_version: String,
    pub dropped_log_entries: u64,
}

impl EngineStatus {
    /// A status with every field at its default: stopped, no counts, no texts.
    pub open spec fn is_default(self) -> bool {
        &&& self.state == EngineState::Stopped
        &&& self.started_at_utc is None
        &&& self.uptime_seconds == 0
        &&& self.listener_count == 0
        &&& self.share_count == 0
        &&& self.user_count == 0
        &&& self.session_count == 0
        &&& self.open_file_count == 0
        &&& self.last_error is None
        &&& self.engine_version@.len() == 0
        &&& self.smblibrary_version@.len() == 0
        &&& self.dropped_log_entries == 0
    }
}

impl Default for EngineStatus {
    fn default() -> (res: Self)
        ensures
            res.is_default(),
    {
        EngineStatus {
            state: EngineState::Stopped,
            started_at_utc: None,
            uptime_seconds: 0,
            listener_count: 0,
            share_count: 0,
            user_count: 0,
            session_count: 0,
            open_file_count: 0,
            last_error: None,
            engine_version: String::new(),
            smblibrary_version: String::new(),
            dropped_log_entries: 0,
        }
    }
}

/// One client session on the server.
#[derive(Debug, Clone)]
pub struct SessionInfo {
    pub listener_id: String,
    pub client_endpoint: String,
    pub dialect: String,
    pub user_name: String,
    pub machine_name: String,
    pub open_file_count: usize,
    pub created_at_utc: String,
}

impl Default for SessionInfo {
    fn default() -> (res: Self)
        ensures
            res.listener_id@.len() == 0,
            res.client_endpoint@.len() == 0,
            res.dialect@.len() == 0,
            res.user_name@.len() == 0,
            res.machine_name@.len() == 0,
            res.open_file_count == 0,
            res.created_at_utc@.len() == 0,
    {
        SessionInfo {
            listener_id: String::new(),
            client_endpoint: String::new(),
            dialect: String::new(),
            user_name: String::new(),
            machine_name: String::new(),
            open_file_count: 0,
            created_at_utc: String::new(),
        }
    }
}

/// The result of a diagnostics run.
#[derive(Debug, Clone)]
pub struct DiagnosticsResult {
    pub checks: Vec<DiagnosticCheck>,
}

impl Default for DiagnosticsResult {
    fn default() -> (res: Self)
        ensures
            res.checks@.len() == 0,
    {
        DiagnosticsResult { checks: Vec::new() }
    }
}

/// One finding of a diagnostics run; `severity` is `error`, `warning` or informational.
#[derive(Debug, Clone)]
pub struct DiagnosticCheck {
    pub severity: String,
    pub name: String,
    pub message: String,
}

/// The last lines of the engine log.
#[derive(Debug, Clone)]
pub struct LogTail {
    pub lines: Vec<String>,
    pub truncated: bool,
}

impl Default for LogTail {
    fn default() -> (res: Self)
        ensures
            res.lines@.len() == 0,
            !res.truncated,
    {
        LogTail { lines: Vec::new(), truncated: false }
    }
}

} // verus!
