//! Per-session connection state machine.
//!
//! The engine is a pure transition system: the surrounding worker performs
//! the blocking work (socket connect, handshake, authentication, channel
//! reads and writes, SFTP calls) and reports each outcome back as an
//! [`EngineEvent`]; the engine decides what happens next and hands back a
//! list of [`EngineAction`]s. Every status value the session ever emits is
//! recorded in a ghost trace, and well-formedness guarantees that this trace
//! stays inside the status language of the lifecycle
//! (connect → authenticate → run → drop → reconnect).
//!
//! A `Reconnecting` tick is announced when the attempt is scheduled, before
//! the wait for its time begins, not at the moment the attempt starts.

use vstd::prelude::*;
use vstd::string::StringSliceAdditionalSpecFns;
use crate::policy::{
    jitter_from_id, scheduled_delay_ms, spec_jitter_ms, spec_scheduled_delay_ms,
    DEFAULT_MAX_RETRIES,
};
use crate::session::{SessionCommand, SessionStatus, SshSessionConfig};
use crate::textscan::{spec_contains, str_contains, str_eq};

verus! {

/// Lifecycle phase of one session.
#[derive(Clone, Copy, Debug, PartialEq, Eq, Structural)]
pub enum Phase {
    /// Created, nothing attempted yet.
    Start,
    /// The first connect attempt is in flight.
    ConnectingInitial,
    /// Interactive shell is up; the cooperative loop runs.
    Connected,
    /// A reconnect attempt is scheduled; waiting for its time.
    WaitingRetry,
    /// A reconnect attempt is in flight.
    ConnectingRetry,
    /// Automatic reconnecting gave up; only ReconnectNow resumes.
    ManualWait,
    /// Final state; no further events have any effect.
    Terminated,
}

/// Outcome of one non-blocking read from the interactive channel.
#[derive(Clone, Debug)]
pub enum ReadOutcome {
    Data(Vec<u8>),
    Eof,
    WouldBlock,
    Failed(String),
}

/// One observation handed to the engine by the worker.
#[derive(Clone, Debug)]
pub enum EngineEvent {
    /// The worker has started; begin the initial connect.
    Started,
    /// A requested connect attempt fully succeeded (shell is interactive).
    ConnectSucceeded,
    /// A requested connect attempt failed with this message.
    ConnectFailed(String),
    /// One command drained from the inbox.
    Inbox(SessionCommand),
    /// The command channel is closed (all senders gone).
    InboxClosed,
    /// Outcome of the per-iteration channel read.
    PtyRead(ReadOutcome),
    /// A requested write to the channel failed with this message.
    WriteFailed(String),
    /// Periodic poll carrying only the current time.
    TimerTick,
}

/// One instruction handed back to the worker.
#[derive(Clone, Debug)]
pub enum EngineAction {
    /// Publish this status on the session's status stream.
    EmitStatus(SessionStatus),
    /// Publish these bytes on the session's terminal-output stream.
    EmitOutput(Vec<u8>),
    /// Open the transport: resolve, TCP-connect, handshake, authenticate,
    /// enable keepalive, allocate the PTY at the given size, start the shell,
    /// apply the project path, and (if `run_startup`) the startup command.
    AttemptConnect { run_startup: bool, cols: u32, rows: u32, keepalive_secs: u32 },
    /// Write these bytes to the interactive channel (blocking).
    WriteBytes(Vec<u8>),
    /// Issue a PTY window-size change request.
    RequestPtySize { cols: u32, rows: u32 },
    /// Run the directory listing over SFTP and answer the pending request.
    PerformListDir { path: String },
    /// Run the bounded file read over SFTP and answer the pending request.
    PerformReadFile { path: String, max_bytes: Option<u64> },
    /// Answer the pending listing request with a "not connected" error.
    RejectListDir,
    /// Answer the pending read request with a "not connected" error.
    RejectReadFile,
    /// Close the interactive channel and wait for the close.
    CloseChannel,
    /// Collect and publish one resource snapshot.
    CollectResources,
}

/// Abstract form of a status value.
pub ghost enum StatusV {
    Connecting,
    Connected,
    Reconnecting { attempt: u32, max: u32 },
    ReconnectFailed,
    Disconnected,
    Error(Seq<char>),
}

/// Abstract form of a command.
pub ghost enum CommandV {
    Write(Seq<u8>),
    Resize { cols: u32, rows: u32 },
    ReconnectNow,
    ListDirectory(Seq<char>),
    ReadFile { path: Seq<char>, max_bytes: Option<u64> },
    Shutdown,
}

/// Abstract form of a read outcome.
pub ghost enum ReadV {
    Data(Seq<u8>),
    Eof,
    WouldBlock,
    Failed(Seq<char>),
}

/// Abstract form of an event.
pub ghost enum EventV {
    Started,
    ConnectSucceeded,
    ConnectFailed(Seq<char>),
    Inbox(CommandV),
    InboxClosed,
    PtyRead(ReadV),
    WriteFailed(Seq<char>),
    TimerTick,
}

/// Abstract form of an action.
pub ghost enum ActionV {
    EmitStatus(StatusV),
    EmitOutput(Seq<u8>),
    AttemptConnect { run_startup: bool, cols: u32, rows: u32, keepalive_secs: u32 },
    WriteBytes(Seq<u8>),
    RequestPtySize { cols: u32, rows: u32 },
    PerformListDir(Seq<char>),
    PerformReadFile { path: Seq<char>, max_bytes: Option<u64> },
    RejectListDir,
    RejectReadFile,
    CloseChannel,
    CollectResources,
}

pub open spec fn status_view(s: SessionStatus) -> StatusV {
    match s {
        SessionStatus::Connecting => StatusV::Connecting,
        SessionStatus::Connected => StatusV::Connected,
        SessionStatus::Reconnecting { attempt, max } => StatusV::Reconnecting { attempt, max },
        SessionStatus::ReconnectFailed => StatusV::ReconnectFailed,
        SessionStatus::Disconnected => StatusV::Disconnected,
        SessionStatus::Error(m) => StatusV::Error(m@),
    }
}

pub open spec fn command_view(c: SessionCommand) -> CommandV {
    match c {
        SessionCommand::Write(d) => CommandV::Write(d@),
        SessionCommand::Resize { cols, rows } => CommandV::Resize { cols, rows },
        SessionCommand::ReconnectNow => CommandV::ReconnectNow,
        SessionCommand::ListDirectory { path } => CommandV::ListDirectory(path@),
        SessionCommand::ReadFile { path, max_bytes } => CommandV::ReadFile {
            path: path@,
            max_bytes,
        },
        SessionCommand::Shutdown => CommandV::Shutdown,
    }
}

pub open spec fn read_view(r: ReadOutcome) -> ReadV {
    match r {
        ReadOutcome::Data(d) => ReadV::Data(d@),
        ReadOutcome::Eof => ReadV::Eof,
        ReadOutcome::WouldBlock => ReadV::WouldBlock,
        ReadOutcome::Failed(m) => ReadV::Failed(m@),
    }
}

pub open spec fn event_view(e: EngineEvent) -> EventV {
    match e {
        EngineEvent::Started => EventV::Started,
        EngineEvent::ConnectSucceeded => EventV::ConnectSucceeded,
        EngineEvent::ConnectFailed(m) => EventV::ConnectFailed(m@),
        EngineEvent::Inbox(c) => EventV::Inbox(command_view(c)),
        EngineEvent::InboxClosed => EventV::InboxClosed,
        EngineEvent::PtyRead(r) => EventV::PtyRead(read_view(r)),
        EngineEvent::WriteFailed(m) => EventV::WriteFailed(m@),
        EngineEvent::TimerTick => EventV::TimerTick,
    }
}

pub open spec fn action_view(a: EngineAction) -> ActionV {
    match a {
        EngineAction::EmitStatus(s) => ActionV::EmitStatus(status_view(s)),
        EngineAction::EmitOutput(d) => ActionV::EmitOutput(d@),
        EngineAction::AttemptConnect { run_startup, cols, rows, keepalive_secs } =>
            ActionV::AttemptConnect { run_startup, cols, rows, keepalive_secs },
        EngineAction::WriteBytes(d) => ActionV::WriteBytes(d@),
        EngineAction::RequestPtySize { cols, rows } => ActionV::RequestPtySize { cols, rows },
        EngineAction::PerformListDir { path } => ActionV::PerformListDir(path@),
        EngineAction::PerformReadFile { path, max_bytes } => ActionV::PerformReadFile {
            path: path@,
            max_bytes,
        },
        EngineAction::RejectListDir => ActionV::RejectListDir,
        EngineAction::RejectReadFile => ActionV::RejectReadFile,
        EngineAction::CloseChannel => ActionV::CloseChannel,
        EngineAction::CollectResources => ActionV::CollectResources,
    }
}

pub open spec fn actions_view(s: Seq<EngineAction>) -> Seq<ActionV> {
    s.map_values(|a: EngineAction| action_view(a))
}

/// The statuses published by a list of actions, in order.
pub open spec fn emitted(s: Seq<ActionV>) -> Seq<StatusV>
    decreases s.len(),
{
    if s.len() == 0 {
        Seq::empty()
    } else {
        emitted(s.drop_last()) + (match s.last() {
            ActionV::EmitStatus(sv) => seq![sv],
            _ => Seq::empty(),
        })
    }
}

/// Recognizer state for the status language.
pub ghost enum TraceState {
    /// Nothing emitted yet.
    Empty,
    /// `Connecting` emitted; the initial attempt is pending.
    InitialAttempt,
    /// The initial attempt failed with an error; `ReconnectFailed` is owed.
    InitialFailed,
    /// `Connected` was the last lifecycle status.
    Conn,
    /// An error was emitted while connected; a reconnect tick is owed.
    ConnDropping,
    /// `ReconnectFailed` emitted; waiting for manual action.
    Manual,
    /// `Reconnecting` emitted; an attempt is pending.
    Retry,
    /// A reconnect attempt failed with an error; its resolution is owed.
    RetryFailed,
    /// `Disconnected` emitted; nothing may follow.
    Done,
    /// Not a valid trace.
    Reject,
}

/// One step of the status-language recognizer. `max` is the configured
/// retry bound; every `Reconnecting` tick must carry it, with an attempt
/// number between 1 and `max`.
pub open spec fn dfa_step(t: TraceState, s: StatusV, max: u32) -> TraceState {
    match t {
        TraceState::Empty => match s {
            StatusV::Connecting => TraceState::InitialAttempt,
            _ => TraceState::Reject,
        },
        TraceState::InitialAttempt => match s {
            StatusV::Connected => TraceState::Conn,
            StatusV::Error(_) => TraceState::InitialFailed,
            _ => TraceState::Reject,
        },
        TraceState::InitialFailed => match s {
            StatusV::ReconnectFailed => TraceState::Manual,
            _ => TraceState::Reject,
        },
        TraceState::Conn => match s {
            StatusV::Disconnected => TraceState::Done,
            StatusV::Error(_) => TraceState::ConnDropping,
            StatusV::Reconnecting { attempt, max: m } => if 1 <= attempt <= max && m == max {
                TraceState::Retry
            } else {
                TraceState::Reject
            },
            _ => TraceState::Reject,
        },
        TraceState::ConnDropping => match s {
            StatusV::Reconnecting { attempt, max: m } => if 1 <= attempt <= max && m == max {
                TraceState::Retry
            } else {
                TraceState::Reject
            },
            _ => TraceState::Reject,
        },
        TraceState::Manual => match s {
            StatusV::Disconnected => TraceState::Done,
            StatusV::Reconnecting { attempt, max: m } => if 1 <= attempt <= max && m == max {
                TraceState::Retry
            } else {
                TraceState::Reject
            },
            _ => TraceState::Reject,
        },
        TraceState::Retry => match s {
            StatusV::Connected => TraceState::Conn,
            StatusV::Error(_) => TraceState::RetryFailed,
            StatusV::Disconnected => TraceState::Done,
            _ => TraceState::Reject,
        },
        TraceState::RetryFailed => match s {
            StatusV::ReconnectFailed => TraceState::Manual,
            StatusV::Reconnecting { attempt, max: m } => if 1 <= attempt <= max && m == max {
                TraceState::Retry
            } else {
                TraceState::Reject
            },
            _ => TraceState::Reject,
        },
        TraceState::Done => TraceState::Reject,
        TraceState::Reject => TraceState::Reject,
    }
}

/// Runs the recognizer over a whole trace.
pub open spec fn dfa_run(t: Seq<StatusV>, max: u32) -> TraceState
    decreases t.len(),
{
    if t.len() == 0 {
        TraceState::Empty
    } else {
        dfa_step(dfa_run(t.drop_last(), max), t.last(), max)
    }
}

pub proof fn lemma_dfa_snoc(t: Seq<StatusV>, s: StatusV, max: u32)
    ensures
        dfa_run(t.push(s), max) == dfa_step(dfa_run(t, max), s, max),
{
    assert(t.push(s).drop_last() =~= t);
    assert(t.push(s).last() == s);
}

/// The recognizer state each phase sits at between steps.
pub open spec fn phase_state(p: Phase) -> TraceState {
    match p {
        Phase::Start => TraceState::Empty,
        Phase::ConnectingInitial => TraceState::InitialAttempt,
        Phase::Connected => TraceState::Conn,
        Phase::WaitingRetry => TraceState::Retry,
        Phase::ConnectingRetry => TraceState::Retry,
        Phase::ManualWait => TraceState::Manual,
        Phase::Terminated => TraceState::Done,
    }
}

/// Abstract engine state.
pub ghost struct EngineV {
    pub phase: Phase,
    /// True until the first attempt's startup command has been offered.
    pub first_attempt: bool,
    /// Attempt number of the pending or in-flight reconnect.
    pub attempt: u32,
    pub disconnect_started_ms: u64,
    pub next_attempt_at_ms: u64,
    pub last_resource_ms: u64,
    pub pty_cols: u32,
    pub pty_rows: u32,
    pub max_retries: u32,
    pub jitter_ms: u64,
    pub keepalive_secs: u32,
    pub auth_method: Seq<char>,
    pub key_path: Option<Seq<char>>,
    pub password: Option<Seq<char>>,
}

impl EngineV {
    /// Data invariant of the abstract state.
    pub open spec fn inv(self) -> bool {
        &&& self.jitter_ms < 400
        &&& 1 <= self.max_retries
        &&& ((self.phase is WaitingRetry || self.phase is ConnectingRetry) ==> 1
            <= self.attempt <= self.max_retries)
        &&& self.disconnect_started_ms <= u64::MAX - 20_000
    }
}

/// Message of the config check made before any connect attempt, or `None`
/// when the credentials are present.
pub open spec fn precheck_err(v: EngineV) -> Option<Seq<char>> {
    if v.auth_method == "key"@ {
        match v.key_path {
            Option::Some(p) => if p.len() > 0 {
                Option::None
            } else {
                Option::Some("key auth requires key_path"@)
            },
            Option::None => Option::Some("key auth requires key_path"@),
        }
    } else if v.auth_method == "password"@ {
        match v.password {
            Option::Some(p) => if p.len() > 0 {
                Option::None
            } else {
                Option::Some("password auth requires password"@)
            },
            Option::None => Option::Some("password auth requires password"@),
        }
    } else {
        Option::Some("unsupported auth method"@)
    }
}

/// An error message is classified auth-fatal when it contains any of these
/// fragments; such an error suppresses automatic reconnecting.
pub open spec fn spec_is_auth_error(m: Seq<char>) -> bool {
    ||| spec_contains(m, "auth"@)
    ||| spec_contains(m, "not authenticated"@)
    ||| spec_contains(m, "key auth requires"@)
    ||| spec_contains(m, "password auth requires"@)
}

/// Classifies an error message as auth-fatal.
pub fn is_auth_error(m: &str) -> (r: bool)
    ensures
        r == spec_is_auth_error(m@),
{
    str_contains(m, "auth") || str_contains(m, "not authenticated") || str_contains(
        m,
        "key auth requires",
    ) || str_contains(m, "password auth requires")
}

/// Time the session enters the connected loop: the resource clock is set
/// so that the first sample is due immediately.
pub open spec fn resource_clock_on_connect(now_ms: u64) -> u64 {
    if now_ms >= 5_000 {
        (now_ms - 5_000) as u64
    } else {
        0
    }
}

/// The state after one engine step.
pub open spec fn spec_step_state(v: EngineV, now_ms: u64, ev: EventV) -> EngineV {
    match ev {
        EventV::Started => match v.phase {
            Phase::Start => if precheck_err(v) is Some {
                EngineV { phase: Phase::ManualWait, ..v }
            } else {
                EngineV { phase: Phase::ConnectingInitial, ..v }
            },
            _ => v,
        },
        EventV::ConnectSucceeded => match v.phase {
            Phase::ConnectingInitial | Phase::ConnectingRetry => EngineV {
                phase: Phase::Connected,
                first_attempt: false,
                attempt: 0,
                last_resource_ms: resource_clock_on_connect(now_ms),
                ..v
            },
            _ => v,
        },
        EventV::ConnectFailed(m) => match v.phase {
            Phase::ConnectingInitial => EngineV { phase: Phase::ManualWait, ..v },
            Phase::ConnectingRetry => if spec_is_auth_error(m) || v.attempt >= v.max_retries {
                EngineV { phase: Phase::ManualWait, ..v }
            } else {
                EngineV {
                    phase: Phase::WaitingRetry,
                    attempt: (v.attempt + 1) as u32,
                    next_attempt_at_ms: (v.disconnect_started_ms + spec_scheduled_delay_ms(
                        (v.attempt + 1) as u32,
                        v.jitter_ms,
                    )) as u64,
                    ..v
                }
            },
            _ => v,
        },
        EventV::Inbox(c) => match v.phase {
            Phase::Connected => match c {
                CommandV::Resize { cols, rows } => EngineV {
                    pty_cols: cols,
                    pty_rows: rows,
                    ..v
                },
                CommandV::Shutdown => EngineV { phase: Phase::Terminated, ..v },
                _ => v,
            },
            Phase::WaitingRetry => match c {
                CommandV::Resize { cols, rows } => EngineV {
                    pty_cols: cols,
                    pty_rows: rows,
                    ..v
                },
                CommandV::Shutdown => EngineV { phase: Phase::Terminated, ..v },
                CommandV::ReconnectNow => EngineV {
                    attempt: 1,
                    disconnect_started_ms: now_ms,
                    next_attempt_at_ms: now_ms,
                    ..v
                },
                _ => v,
            },
            Phase::ManualWait => match c {
                CommandV::Resize { cols, rows } => EngineV {
                    pty_cols: cols,
                    pty_rows: rows,
                    ..v
                },
                CommandV::Shutdown => EngineV { phase: Phase::Terminated, ..v },
                CommandV::ReconnectNow => EngineV {
                    phase: Phase::WaitingRetry,
                    first_attempt: false,
                    attempt: 1,
                    disconnect_started_ms: now_ms,
                    next_attempt_at_ms: now_ms,
                    ..v
                },
                _ => v,
            },
            _ => v,
        },
        EventV::InboxClosed => match v.phase {
            Phase::Connected | Phase::WaitingRetry | Phase::ManualWait => EngineV {
                phase: Phase::Terminated,
                ..v
            },
            _ => v,
        },
        EventV::PtyRead(r) => match v.phase {
            Phase::Connected => match r {
                ReadV::Eof | ReadV::Failed(_) => EngineV {
                    phase: Phase::WaitingRetry,
                    attempt: 1,
                    disconnect_started_ms: now_ms,
                    next_attempt_at_ms: (now_ms + spec_scheduled_delay_ms(1, v.jitter_ms)) as u64,
                    ..v
                },
                _ => v,
            },
            _ => v,
        },
        EventV::WriteFailed(_) => match v.phase {
            Phase::Connected => EngineV {
                phase: Phase::WaitingRetry,
                attempt: 1,
                disconnect_started_ms: now_ms,
                next_attempt_at_ms: (now_ms + spec_scheduled_delay_ms(1, v.jitter_ms)) as u64,
                ..v
            },
            _ => v,
        },
        EventV::TimerTick => match v.phase {
            Phase::Connected => if now_ms >= v.last_resource_ms + 5_000 {
                EngineV { last_resource_ms: now_ms, ..v }
            } else {
                v
            },
            Phase::WaitingRetry => if now_ms >= v.next_attempt_at_ms {
                if precheck_err(v) is Some {
                    EngineV { phase: Phase::ManualWait, ..v }
                } else {
                    EngineV { phase: Phase::ConnectingRetry, ..v }
                }
            } else {
                v
            },
            _ => v,
        },
    }
}

/// The actions of one engine step.
pub open spec fn spec_step_actions(v: EngineV, now_ms: u64, ev: EventV) -> Seq<ActionV> {
    match ev {
        EventV::Started => match v.phase {
            Phase::Start => match precheck_err(v) {
                Option::Some(m) => seq![
                    ActionV::EmitStatus(StatusV::Connecting),
                    ActionV::EmitStatus(StatusV::Error(m)),
                    ActionV::EmitStatus(StatusV::ReconnectFailed),
                ],
                Option::None => seq![
                    ActionV::EmitStatus(StatusV::Connecting),
                    ActionV::AttemptConnect {
                        run_startup: v.first_attempt,
                        cols: v.pty_cols,
                        rows: v.pty_rows,
                        keepalive_secs: v.keepalive_secs,
                    },
                ],
            },
            _ => Seq::empty(),
        },
        EventV::ConnectSucceeded => match v.phase {
            Phase::ConnectingInitial | Phase::ConnectingRetry => seq![
                ActionV::EmitStatus(StatusV::Connected),
            ],
            _ => Seq::empty(),
        },
        EventV::ConnectFailed(m) => match v.phase {
            Phase::ConnectingInitial => seq![
                ActionV::EmitStatus(StatusV::Error(m)),
                ActionV::EmitStatus(StatusV::ReconnectFailed),
            ],
            Phase::ConnectingRetry => if spec_is_auth_error(m) || v.attempt >= v.max_retries {
                seq![
                    ActionV::EmitStatus(StatusV::Error(m)),
                    ActionV::EmitStatus(StatusV::ReconnectFailed),
                ]
            } else {
                seq![
                    ActionV::EmitStatus(StatusV::Error(m)),
                    ActionV::EmitStatus(StatusV::Reconnecting {
                        attempt: (v.attempt + 1) as u32,
                        max: v.max_retries,
                    }),
                ]
            },
            _ => Seq::empty(),
        },
        EventV::Inbox(c) => match v.phase {
            Phase::Connected => match c {
                CommandV::Write(d) => seq![ActionV::WriteBytes(d)],
                CommandV::Resize { cols, rows } => seq![ActionV::RequestPtySize { cols, rows }],
                CommandV::ReconnectNow => Seq::empty(),
                CommandV::ListDirectory(p) => seq![ActionV::PerformListDir(p)],
                CommandV::ReadFile { path, max_bytes } => seq![
                    ActionV::PerformReadFile { path, max_bytes },
                ],
                CommandV::Shutdown => seq![
                    ActionV::CloseChannel,
                    ActionV::EmitStatus(StatusV::Disconnected),
                ],
            },
            Phase::WaitingRetry | Phase::ManualWait => match c {
                CommandV::Write(_) => Seq::empty(),
                CommandV::Resize { .. } => Seq::empty(),
                CommandV::ReconnectNow => if v.phase is ManualWait {
                    seq![
                        ActionV::EmitStatus(StatusV::Reconnecting { attempt: 1, max: v.max_retries }),
                    ]
                } else {
                    Seq::empty()
                },
                CommandV::ListDirectory(_) => seq![ActionV::RejectListDir],
                CommandV::ReadFile { .. } => seq![ActionV::RejectReadFile],
                CommandV::Shutdown => seq![ActionV::EmitStatus(StatusV::Disconnected)],
            },
            _ => Seq::empty(),
        },
        EventV::InboxClosed => match v.phase {
            Phase::Connected => seq![
                ActionV::CloseChannel,
                ActionV::EmitStatus(StatusV::Disconnected),
            ],
            Phase::WaitingRetry | Phase::ManualWait => seq![
                ActionV::EmitStatus(StatusV::Disconnected),
            ],
            _ => Seq::empty(),
        },
        EventV::PtyRead(r) => match v.phase {
            Phase::Connected => match r {
                ReadV::Data(d) => seq![ActionV::EmitOutput(d)],
                ReadV::WouldBlock => Seq::empty(),
                ReadV::Eof => seq![
                    ActionV::CloseChannel,
                    ActionV::EmitStatus(StatusV::Reconnecting { attempt: 1, max: v.max_retries }),
                ],
                ReadV::Failed(m) => seq![
                    ActionV::EmitStatus(StatusV::Error(m)),
                    ActionV::CloseChannel,
                    ActionV::EmitStatus(StatusV::Reconnecting { attempt: 1, max: v.max_retries }),
                ],
            },
            _ => Seq::empty(),
        },
        EventV::WriteFailed(m) => match v.phase {
            Phase::Connected => seq![
                ActionV::EmitStatus(StatusV::Error(m)),
                ActionV::CloseChannel,
                ActionV::EmitStatus(StatusV::Reconnecting { attempt: 1, max: v.max_retries }),
            ],
            _ => Seq::empty(),
        },
        EventV::TimerTick => match v.phase {
            Phase::Connected => if now_ms >= v.last_resource_ms + 5_000 {
                seq![ActionV::CollectResources]
            } else {
                Seq::empty()
            },
            Phase::WaitingRetry => if now_ms >= v.next_attempt_at_ms {
                match precheck_err(v) {
                    Option::Some(m) => seq![
                        ActionV::EmitStatus(StatusV::Error(m)),
                        ActionV::EmitStatus(StatusV::ReconnectFailed),
                    ],
                    Option::None => seq![
                        ActionV::AttemptConnect {
                            run_startup: v.first_attempt,
                            cols: v.pty_cols,
                            rows: v.pty_rows,
                            keepalive_secs: v.keepalive_secs,
                        },
                    ],
                }
            } else {
                Seq::empty()
            },
            _ => Seq::empty(),
        },
    }
}

/// The connection engine of one session.
pub struct SessionEngine {
    pub config: SshSessionConfig,
    pub phase: Phase,
    pub first_attempt: bool,
    pub attempt: u32,
    pub disconnect_started_ms: u64,
    pub next_attempt_at_ms: u64,
    pub last_resource_ms: u64,
    pub pty_cols: u32,
    pub pty_rows: u32,
    pub max_retries: u32,
    pub jitter_ms: u64,
    pub keepalive_secs: u32,
    /// Every status emitted so far, in order.
    pub trace: Ghost<Seq<StatusV>>,
}

impl View for SessionEngine {
    type V = EngineV;

    open spec fn view(&self) -> EngineV {
        EngineV {
            phase: self.phase,
            first_attempt: self.first_attempt,
            attempt: self.attempt,
            disconnect_started_ms: self.disconnect_started_ms,
            next_attempt_at_ms: self.next_attempt_at_ms,
            last_resource_ms: self.last_resource_ms,
            pty_cols: self.pty_cols,
            pty_rows: self.pty_rows,
            max_retries: self.max_retries,
            jitter_ms: self.jitter_ms,
            keepalive_secs: self.keepalive_secs,
            auth_method: self.config.auth_method@,
            key_path: match self.config.key_path {
                Option::Some(p) => Option::Some(p@),
                Option::None => Option::None,
            },
            password: match self.config.password {
                Option::Some(p) => Option::Some(p@),
                Option::None => Option::None,
            },
        }
    }
}

impl SessionEngine {
    /// Well-formedness: the data invariant holds and the emitted trace is
    /// exactly as far along in the status language as the phase says.
    pub open spec fn wf(self) -> bool {
        &&& self@.inv()
        &&& dfa_run(self.trace@, self.max_retries) == phase_state(self.phase)
    }

    /// Builds an engine for one session. The retry bound comes from the
    /// config (default 3, floored at 1); the jitter is derived from the
    /// session id.
    pub fn new(config: SshSessionConfig) -> (r: SessionEngine)
        ensures
            r.wf(),
            r.phase is Start,
            r.first_attempt,
            r.trace@ =~= Seq::<StatusV>::empty(),
            r.config == config,
            r.jitter_ms == spec_jitter_ms(vstd::utf8::encode_utf8(config.id@)),
            r.max_retries == match config.reconnect_max_retries {
                Option::Some(m) => if m >= 1 {
                    m
                } else {
                    1u32
                },
                Option::None => DEFAULT_MAX_RETRIES,
            },
            r.keepalive_secs == match config.keepalive_interval_secs {
                Option::Some(k) => k,
                Option::None => 15u32,
            },
            r.pty_cols == 80 && r.pty_rows == 24,
    {
        let jitter_ms: u64 = jitter_from_id(config.id.as_str());
        let max_retries: u32 = match config.reconnect_max_retries {
            Option::Some(m) => if m >= 1 {
                m
            } else {
                1
            },
            Option::None => DEFAULT_MAX_RETRIES,
        };
        let keepalive_secs: u32 = match config.keepalive_interval_secs {
            Option::Some(k) => k,
            Option::None => 15,
        };
        SessionEngine {
            config,
            phase: Phase::Start,
            first_attempt: true,
            attempt: 0,
            disconnect_started_ms: 0,
            next_attempt_at_ms: 0,
            last_resource_ms: 0,
            pty_cols: 80,
            pty_rows: 24,
            max_retries,
            jitter_ms,
            keepalive_secs,
            trace: Ghost(Seq::empty()),
        }
    }

    /// Checks the credentials needed for a connect attempt.
    fn precheck(&self) -> (r: Option<String>)
        ensures
            match r {
                Option::Some(m) => precheck_err(self@) == Option::Some(m@),
                Option::None => precheck_err(self@) is None,
            },
    {
        if str_eq(self.config.auth_method.as_str(), "key") {
            match &self.config.key_path {
                Option::Some(p) => if p.as_str().is_empty() {
                    Option::Some("key auth requires key_path".to_owned())
                } else {
                    Option::None
                },
                Option::None => Option::Some("key auth requires key_path".to_owned()),
            }
        } else if str_eq(self.config.auth_method.as_str(), "password") {
            match &self.config.password {
                Option::Some(p) => if p.as_str().is_empty() {
                    Option::Some("password auth requires password".to_owned())
                } else {
                    Option::None
                },
                Option::None => Option::Some("password auth requires password".to_owned()),
            }
        } else {
            Option::Some("unsupported auth method".to_owned())
        }
    }

    /// One step of the state machine: consumes one event, returns the
    /// actions for the worker to perform, in order.
    #[verifier::rlimit(100)]
    pub fn step(&mut self, now_ms: u64, event: EngineEvent) -> (actions: Vec<EngineAction>)
        requires
            old(self).wf(),
            now_ms <= u64::MAX - 20_000,
        ensures
            final(self).wf(),
            final(self)@ == spec_step_state(old(self)@, now_ms, event_view(event)),
            actions_view(actions@) == spec_step_actions(old(self)@, now_ms, event_view(event)),
            final(self).trace@ == old(self).trace@ + emitted(
                spec_step_actions(old(self)@, now_ms, event_view(event)),
            ),
            final(self).config == old(self).config,
            final(self).max_retries == old(self).max_retries,
            final(self).jitter_ms == old(self).jitter_ms,
    {
        let ghost pre = self@;
        let ghost evv = event_view(event);
        let ghost t0 = self.trace@;
        let mut actions: Vec<EngineAction> = Vec::new();
        match event {
            EngineEvent::Started => {
                if matches!(self.phase, Phase::Start) {
                    actions.push(EngineAction::EmitStatus(SessionStatus::Connecting));
                    proof {
                        self.trace@ = self.trace@.push(StatusV::Connecting);
                        lemma_dfa_snoc(t0, StatusV::Connecting, self.max_retries);
                    }
                    match self.precheck() {
                        Option::Some(m) => {
                            let ghost mv = m@;
                            actions.push(EngineAction::EmitStatus(SessionStatus::Error(m)));
                            actions.push(
                                EngineAction::EmitStatus(SessionStatus::ReconnectFailed),
                            );
                            self.phase = Phase::ManualWait;
                            proof {
                                let t1 = self.trace@;
                                self.trace@ = t1.push(StatusV::Error(mv)).push(
                                    StatusV::ReconnectFailed,
                                );
                                lemma_dfa_snoc(t1, StatusV::Error(mv), self.max_retries);
                                lemma_dfa_snoc(
                                    t1.push(StatusV::Error(mv)),
                                    StatusV::ReconnectFailed,
                                    self.max_retries,
                                );
                            }
                        },
                        Option::None => {
                            actions.push(
                                EngineAction::AttemptConnect {
                                    run_startup: self.first_attempt,
                                    cols: self.pty_cols,
                                    rows: self.pty_rows,
                                    keepalive_secs: self.keepalive_secs,
                                },
                            );
                            self.phase = Phase::ConnectingInitial;
                        },
                    }
                }
            },
            EngineEvent::ConnectSucceeded => {
                if matches!(self.phase, Phase::ConnectingInitial)
                    || matches!(self.phase, Phase::ConnectingRetry) {
                    actions.push(EngineAction::EmitStatus(SessionStatus::Connected));
                    self.phase = Phase::Connected;
                    self.first_attempt = false;
                    self.attempt = 0;
                    self.last_resource_ms = if now_ms >= 5_000 {
                        now_ms - 5_000
                    } else {
                        0
                    };
                    proof {
                        self.trace@ = t0.push(StatusV::Connected);
                        lemma_dfa_snoc(t0, StatusV::Connected, self.max_retries);
                    }
                }
            },
            EngineEvent::ConnectFailed(m) => {
                if matches!(self.phase, Phase::ConnectingInitial) {
                    let ghost mv = m@;
                    actions.push(EngineAction::EmitStatus(SessionStatus::Error(m)));
                    actions.push(EngineAction::EmitStatus(SessionStatus::ReconnectFailed));
                    self.phase = Phase::ManualWait;
                    proof {
                        self.trace@ = t0.push(StatusV::Error(mv)).push(StatusV::ReconnectFailed);
                        lemma_dfa_snoc(t0, StatusV::Error(mv), self.max_retries);
                        lemma_dfa_snoc(
                            t0.push(StatusV::Error(mv)),
                            StatusV::ReconnectFailed,
                            self.max_retries,
                        );
                    }
                } else if matches!(self.phase, Phase::ConnectingRetry) {
                    let ghost mv = m@;
                    let fatal: bool = is_auth_error(m.as_str()) || self.attempt
                        >= self.max_retries;
                    actions.push(EngineAction::EmitStatus(SessionStatus::Error(m)));
                    proof {
                        self.trace@ = t0.push(StatusV::Error(mv));
                        lemma_dfa_snoc(t0, StatusV::Error(mv), self.max_retries);
                    }
                    if fatal {
                        actions.push(EngineAction::EmitStatus(SessionStatus::ReconnectFailed));
                        self.phase = Phase::ManualWait;
                        proof {
                            let t1 = self.trace@;
                            self.trace@ = t1.push(StatusV::ReconnectFailed);
                            lemma_dfa_snoc(t1, StatusV::ReconnectFailed, self.max_retries);
                        }
                    } else {
                        let next: u32 = self.attempt + 1;
                        let delay: u64 = scheduled_delay_ms(next, self.jitter_ms);
                        self.attempt = next;
                        self.next_attempt_at_ms = self.disconnect_started_ms + delay;
                        self.phase = Phase::WaitingRetry;
                        actions.push(
                            EngineAction::EmitStatus(
                                SessionStatus::Reconnecting { attempt: next, max: self.max_retries },
                            ),
                        );
                        proof {
                            let t1 = self.trace@;
                            self.trace@ = t1.push(
                                StatusV::Reconnecting { attempt: next, max: self.max_retries },
                            );
                            lemma_dfa_snoc(
                                t1,
                                StatusV::Reconnecting { attempt: next, max: self.max_retries },
                                self.max_retries,
                            );
                        }
                    }
                }
            },
            EngineEvent::Inbox(cmd) => {
                if matches!(self.phase, Phase::Connected) {
                    match cmd {
                        SessionCommand::Write(d) => {
                            actions.push(EngineAction::WriteBytes(d));
                        },
                        SessionCommand::Resize { cols, rows } => {
                            self.pty_cols = cols;
                            self.pty_rows = rows;
                            actions.push(EngineAction::RequestPtySize { cols, rows });
                        },
                        SessionCommand::ReconnectNow => {},
                        SessionCommand::ListDirectory { path } => {
                            actions.push(EngineAction::PerformListDir { path });
                        },
                        SessionCommand::ReadFile { path, max_bytes } => {
                            actions.push(EngineAction::PerformReadFile { path, max_bytes });
                        },
                        SessionCommand::Shutdown => {
                            actions.push(EngineAction::CloseChannel);
                            actions.push(EngineAction::EmitStatus(SessionStatus::Disconnected));
                            self.phase = Phase::Terminated;
                            proof {
                                self.trace@ = t0.push(StatusV::Disconnected);
                                lemma_dfa_snoc(t0, StatusV::Disconnected, self.max_retries);
                            }
                        },
                    }
                } else if matches!(self.phase, Phase::WaitingRetry)
                    || matches!(self.phase, Phase::ManualWait) {
                    match cmd {
                        SessionCommand::Write(_) => {},
                        SessionCommand::Resize { cols, rows } => {
                            self.pty_cols = cols;
                            self.pty_rows = rows;
                        },
                        SessionCommand::ReconnectNow => {
                            if matches!(self.phase, Phase::ManualWait) {
                                self.first_attempt = false;
                                self.attempt = 1;
                                self.disconnect_started_ms = now_ms;
                                self.next_attempt_at_ms = now_ms;
                                self.phase = Phase::WaitingRetry;
                                actions.push(
                                    EngineAction::EmitStatus(
                                        SessionStatus::Reconnecting {
                                            attempt: 1,
                                            max: self.max_retries,
                                        },
                                    ),
                                );
                                proof {
                                    self.trace@ = t0.push(
                                        StatusV::Reconnecting { attempt: 1, max: self.max_retries },
                                    );
                                    lemma_dfa_snoc(
                                        t0,
                                        StatusV::Reconnecting { attempt: 1, max: self.max_retries },
                                        self.max_retries,
                                    );
                                }
                            } else {
                                self.attempt = 1;
                                self.disconnect_started_ms = now_ms;
                                self.next_attempt_at_ms = now_ms;
                            }
                        },
                        SessionCommand::ListDirectory { .. } => {
                            actions.push(EngineAction::RejectListDir);
                        },
                        SessionCommand::ReadFile { .. } => {
                            actions.push(EngineAction::RejectReadFile);
                        },
                        SessionCommand::Shutdown => {
                            actions.push(EngineAction::EmitStatus(SessionStatus::Disconnected));
                            self.phase = Phase::Terminated;
                            proof {
                                self.trace@ = t0.push(StatusV::Disconnected);
                                lemma_dfa_snoc(t0, StatusV::Disconnected, self.max_retries);
                            }
                        },
                    }
                }
            },
            EngineEvent::InboxClosed => {
                if matches!(self.phase, Phase::Connected) {
                    actions.push(EngineAction::CloseChannel);
                    actions.push(EngineAction::EmitStatus(SessionStatus::Disconnected));
                    self.phase = Phase::Terminated;
                    proof {
                        self.trace@ = t0.push(StatusV::Disconnected);
                        lemma_dfa_snoc(t0, StatusV::Disconnected, self.max_retries);
                    }
                } else if matches!(self.phase, Phase::WaitingRetry)
                    || matches!(self.phase, Phase::ManualWait) {
                    actions.push(EngineAction::EmitStatus(SessionStatus::Disconnected));
                    self.phase = Phase::Terminated;
                    proof {
                        self.trace@ = t0.push(StatusV::Disconnected);
                        lemma_dfa_snoc(t0, StatusV::Disconnected, self.max_retries);
                    }
                }
            },
            EngineEvent::PtyRead(outcome) => {
                if matches!(self.phase, Phase::Connected) {
                    match outcome {
                        ReadOutcome::Data(d) => {
                            actions.push(EngineAction::EmitOutput(d));
                        },
                        ReadOutcome::WouldBlock => {},
                        ReadOutcome::Eof => {
                            actions.push(EngineAction::CloseChannel);
                            self.drop_to_retry(now_ms, &mut actions);
                        },
                        ReadOutcome::Failed(m) => {
                            let ghost mv = m@;
                            actions.push(EngineAction::EmitStatus(SessionStatus::Error(m)));
                            proof {
                                self.trace@ = t0.push(StatusV::Error(mv));
                                lemma_dfa_snoc(t0, StatusV::Error(mv), self.max_retries);
                            }
                            actions.push(EngineAction::CloseChannel);
                            self.drop_to_retry(now_ms, &mut actions);
                        },
                    }
                }
            },
            EngineEvent::WriteFailed(m) => {
                if matches!(self.phase, Phase::Connected) {
                    let ghost mv = m@;
                    actions.push(EngineAction::EmitStatus(SessionStatus::Error(m)));
                    proof {
                        self.trace@ = t0.push(StatusV::Error(mv));
                        lemma_dfa_snoc(t0, StatusV::Error(mv), self.max_retries);
                    }
                    actions.push(EngineAction::CloseChannel);
                    self.drop_to_retry(now_ms, &mut actions);
                }
            },
            EngineEvent::TimerTick => {
                if matches!(self.phase, Phase::Connected) {
                    if now_ms >= 5_000 && self.last_resource_ms <= now_ms - 5_000 {
                        actions.push(EngineAction::CollectResources);
                        self.last_resource_ms = now_ms;
                    }
                } else if matches!(self.phase, Phase::WaitingRetry) {
                    if now_ms >= self.next_attempt_at_ms {
                        match self.precheck() {
                            Option::Some(m) => {
                                let ghost mv = m@;
                                actions.push(EngineAction::EmitStatus(SessionStatus::Error(m)));
                                actions.push(
                                    EngineAction::EmitStatus(SessionStatus::ReconnectFailed),
                                );
                                self.phase = Phase::ManualWait;
                                proof {
                                    self.trace@ = t0.push(StatusV::Error(mv)).push(
                                        StatusV::ReconnectFailed,
                                    );
                                    lemma_dfa_snoc(t0, StatusV::Error(mv), self.max_retries);
                                    lemma_dfa_snoc(
                                        t0.push(StatusV::Error(mv)),
                                        StatusV::ReconnectFailed,
                                        self.max_retries,
                                    );
                                }
                            },
                            Option::None => {
                                actions.push(
                                    EngineAction::AttemptConnect {
                                        run_startup: self.first_attempt,
                                        cols: self.pty_cols,
                                        rows: self.pty_rows,
                                        keepalive_secs: self.keepalive_secs,
                                    },
                                );
                                self.phase = Phase::ConnectingRetry;
                            },
                        }
                    }
                }
            },
        }
        proof {
            reveal_with_fuel(emitted, 5);
            assert(actions_view(actions@) =~= spec_step_actions(pre, now_ms, evv));
            assert(final(self).trace@ =~= t0 + emitted(spec_step_actions(pre, now_ms, evv)));
        }
        actions
    }

    /// Shared drop path out of the connected loop: schedule the first
    /// reconnect attempt and announce it.
    fn drop_to_retry(&mut self, now_ms: u64, actions: &mut Vec<EngineAction>)
        requires
            old(self).phase is Connected,
            old(self)@.inv(),
            now_ms <= u64::MAX - 20_000,
            dfa_run(old(self).trace@, old(self).max_retries) == TraceState::Conn || dfa_run(
                old(self).trace@,
                old(self).max_retries,
            ) == TraceState::ConnDropping,
        ensures
            final(self).phase is WaitingRetry,
            final(self).attempt == 1,
            final(self).disconnect_started_ms == now_ms,
            final(self).next_attempt_at_ms == now_ms + spec_scheduled_delay_ms(
                1,
                old(self).jitter_ms,
            ),
            final(self).trace@ == old(self).trace@.push(
                StatusV::Reconnecting { attempt: 1, max: old(self).max_retries },
            ),
            final(actions)@ == old(actions)@.push(
                EngineAction::EmitStatus(
                    SessionStatus::Reconnecting { attempt: 1, max: old(self).max_retries },
                ),
            ),
            final(self).wf(),
            final(self).config == old(self).config,
            final(self).first_attempt == old(self).first_attempt,
            final(self).last_resource_ms == old(self).last_resource_ms,
            final(self).pty_cols == old(self).pty_cols,
            final(self).pty_rows == old(self).pty_rows,
            final(self).max_retries == old(self).max_retries,
            final(self).jitter_ms == old(self).jitter_ms,
            final(self).keepalive_secs == old(self).keepalive_secs,
    {
        let ghost t0 = self.trace@;
        let delay: u64 = scheduled_delay_ms(1, self.jitter_ms);
        self.attempt = 1;
        self.disconnect_started_ms = now_ms;
        self.next_attempt_at_ms = now_ms + delay;
        self.phase = Phase::WaitingRetry;
        actions.push(
            EngineAction::EmitStatus(
                SessionStatus::Reconnecting { attempt: 1, max: self.max_retries },
            ),
        );
        proof {
            self.trace@ = t0.push(StatusV::Reconnecting { attempt: 1, max: self.max_retries });
            lemma_dfa_snoc(
                t0,
                StatusV::Reconnecting { attempt: 1, max: self.max_retries },
                self.max_retries,
            );
        }
    }

    /// Every reachable trace is accepted by the status-language recognizer:
    /// a well-formed engine's trace never reaches the reject state.
    pub proof fn lemma_trace_in_language(self)
        requires
            self.wf(),
        ensures
            !(dfa_run(self.trace@, self.max_retries) is Reject),
    {
    }
}

} // verus!
