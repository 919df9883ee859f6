//! Data carried between a session worker and the rest of the system.

use vstd::prelude::*;
use vstd::string::StringExecFns;

verus! {

/// Immutable descriptor of one remote endpoint and its startup behaviour.
#[derive(Clone, Debug)]
pub struct SshSessionConfig {
    pub id: String,
    pub host: String,
    pub port: u16,
    pub user: String,
    /// Either "key" or "password"; anything else is rejected at connect time.
    pub auth_method: String,
    pub key_path: Option<String>,
    pub password: Option<String>,
    pub project_path: String,
    pub ai_cli_command: Option<String>,
    pub keepalive_interval_secs: Option<u32>,
    pub reconnect_max_retries: Option<u32>,
}

/// Status values emitted on the per-session status stream, in the order the
/// state machine passes through them.
#[derive(Clone, Debug)]
pub enum SessionStatus {
    Connecting,
    Connected,
    Reconnecting { attempt: u32, max: u32 },
    ReconnectFailed,
    Disconnected,
    Error(String),
}

/// Commands consumed by a session state machine. The two file-system requests
/// are answered out of band by whoever owns the reply path for the request.
#[derive(Clone, Debug)]
pub enum SessionCommand {
    Write(Vec<u8>),
    Resize { cols: u32, rows: u32 },
    ReconnectNow,
    ListDirectory { path: String },
    ReadFile { path: String, max_bytes: Option<u64> },
    Shutdown,
}

/// Errors surfaced at the fleet boundary.
#[derive(Clone, Debug)]
pub enum SshError {
    TcpConnect(String),
    Handshake(String),
    Auth(String),
    Channel(String),
    Pty(String),
    Send(String),
    SessionNotFound,
}

impl SshError {
    /// The human-readable form of the error, as shown at the boundary.
    pub fn message(&self) -> (r: String)
        ensures
            r@ == match self {
                SshError::TcpConnect(e) => "TCP connect failed: "@ + e@,
                SshError::Handshake(e) => "SSH handshake failed: "@ + e@,
                SshError::Auth(e) => "SSH authentication failed: "@ + e@,
                SshError::Channel(e) => "SSH channel error: "@ + e@,
                SshError::Pty(e) => "PTY error: "@ + e@,
                SshError::Send(e) => "send error: "@ + e@,
                SshError::SessionNotFound => "session not found"@,
            },
    {
        match self {
            SshError::TcpConnect(e) => {
                let mut m = "TCP connect failed: ".to_owned();
                m.append(e.as_str());
                m
            },
            SshError::Handshake(e) => {
                let mut m = "SSH handshake failed: ".to_owned();
                m.append(e.as_str());
                m
            },
            SshError::Auth(e) => {
                let mut m = "SSH authentication failed: ".to_owned();
                m.append(e.as_str());
                m
            },
            SshError::Channel(e) => {
                let mut m = "SSH channel error: ".to_owned();
                m.append(e.as_str());
                m
            },
            SshError::Pty(e) => {
                let mut m = "PTY error: ".to_owned();
                m.append(e.as_str());
                m
            },
            SshError::Send(e) => {
                let mut m = "send error: ".to_owned();
                m.append(e.as_str());
                m
            },
            SshError::SessionNotFound => "session not found".to_owned(),
        }
    }
}

/// One entry of a directory listing.
#[derive(Clone, Debug)]
pub struct FileEntry {
    pub path: String,
    pub name: String,
    pub is_dir: bool,
    pub size_bytes: u64,
    pub mtime_epoch: Option<u64>,
}

/// Outcome of a bounded file read.
#[derive(Clone, Debug)]
pub struct ReadFileResult {
    pub path: String,
    pub bytes: Vec<u8>,
    pub truncated: bool,
}

/// One periodic host-resource sample. Percentages are carried in hundredths
/// of a percent (0 ..= 10_000); a field is absent when its parse failed.
#[derive(Clone, Debug)]
pub struct ResourceSnapshot {
    pub cpu_centi_percent: Option<u32>,
    pub ram_centi_percent: Option<u32>,
    pub disk_centi_percent: Option<u32>,
    pub ts_epoch: u64,
    pub disk_path: String,
}

} // verus!
