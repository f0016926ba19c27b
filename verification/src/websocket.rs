//! The terminal WebSocket: the messages it carries, the start-up handshake
//! that collects the terminal size and session configuration, and what each
//! incoming message makes the runtime do.

use vstd::prelude::*;
use vstd::string::StringSliceAdditionalSpecFns;
use vstd::utf8::encode_utf8;
use crate::docker::{ContainerConfig, EnvEntry, opt_view, pairs_view, request_env};
use crate::session::{SessionError, elapsed, elapsed_ms};
use crate::text::owned;

verus! {

// ── Messages ────────────────────────────────────────────────────────────────

pub enum ClientMessage {
    TerminalInput { data: String },
    Resize { cols: u16, rows: u16 },
    Ping,
    SessionConfig {
        credentials: Option<Vec<(String, String)>>,
        agent: Option<String>,
        image: Option<String>,
        enable_dind: Option<bool>,
        repo: Option<String>,
    },
}

pub enum ServerMessage {
    Connected { session_id: String },
    Reconnected { session_id: String },
    SessionState { state: String, detail: String },
    Error { message: String },
    Pong,
}

pub struct WsQuery {
    pub session_id: Option<String>,
}

/// Whether `m` is an error message with this text.
pub open spec fn is_error_message(m: ServerMessage, text: Seq<char>) -> bool {
    m matches ServerMessage::Error { message } && message@ == text
}

/// The confirmation a client gets once its session is ready.
pub fn confirm_message(is_reconnect: bool, session_id: String) -> (r: ServerMessage)
    ensures
        is_reconnect ==> (r matches ServerMessage::Reconnected { session_id: s } && s == session_id),
        !is_reconnect ==> (r matches ServerMessage::Connected { session_id: s } && s == session_id),
{
    if is_reconnect {
        ServerMessage::Reconnected { session_id }
    } else {
        ServerMessage::Connected { session_id }
    }
}

/// What a client is told when it cannot reconnect: an unknown session is
/// "Session not found", an expired one "Session expired", any other failure
/// the error's text.
pub fn reconnect_failure_message(e: &SessionError) -> (r: ServerMessage)
    ensures
        is_error_message(r, match e {
            SessionError::NotFound => "Session not found"@,
            SessionError::NotReconnectable => "Session expired"@,
            _ => e.text(),
        }),
{
    match e {
        SessionError::NotFound => ServerMessage::Error { message: owned("Session not found") },
        SessionError::NotReconnectable => ServerMessage::Error { message: owned("Session expired") },
        _ => ServerMessage::Error { message: e.message() },
    }
}

/// What a client is told when its session could not be created.
pub fn creation_failure_message(e: &SessionError) -> (r: ServerMessage)
    ensures
        is_error_message(r, e.text()),
{
    ServerMessage::Error { message: e.message() }
}

/// The progress message sent while a container is being created.
pub fn provisioning_message() -> (r: ServerMessage)
    ensures
        r matches ServerMessage::SessionState { state, detail } && state@ == "provisioning"@
            && detail@ == "creating container"@,
{
    ServerMessage::SessionState {
        state: owned("provisioning"),
        detail: owned("creating container"),
    }
}

// ── Start-up handshake ──────────────────────────────────────────────────────

/// The terminal size a session gets when the client sends none.
pub const DEFAULT_COLS: u16 = 80;
pub const DEFAULT_ROWS: u16 = 24;

/// How long the handshake waits for the first messages, in milliseconds.
pub const INIT_TIMEOUT_MS: u64 = 5000;

/// How long the handshake waits for a configuration after a resize, in
/// milliseconds.
pub const CONFIG_WINDOW_MS: u64 = 500;

/// Where the handshake stands.
#[derive(Debug, Clone, Copy, PartialEq, Eq, Structural)]
pub enum InitPhase {
    /// Waiting for a resize, and perhaps a configuration before it.
    Waiting,
    /// A resize came; a configuration may follow within a short window.
    AwaitingConfig,
}

/// What the handshake hears next.
pub enum InitEvent {
    /// Nothing came within the phase's timeout.
    TimedOut,
    /// The socket closed or failed.
    Closed,
    /// A message came: `Some` when it is text that parses as a client
    /// message, `None` otherwise.
    Message(Option<ClientMessage>),
}

/// What the handshake does next.
#[derive(Debug, Clone, Copy, PartialEq, Eq, Structural)]
pub enum InitStep {
    /// Wait for the next event.
    Continue,
    /// Create the session with the size and configuration collected.
    Ready,
    /// The client left; give up.
    Abort,
}

/// The terminal size and configuration collected before a new session is
/// created.
pub struct InitHandshake {
    pub cols: u16,
    pub rows: u16,
    pub got_resize: bool,
    pub config: ContainerConfig,
    pub phase: InitPhase,
    /// When the handshake began, in milliseconds.
    pub started: u64,
}

/// The environment that a configuration message asks for.
pub open spec fn message_env(
    credentials: Option<Vec<(String, String)>>,
    agent: Option<String>,
    repo: Option<String>,
) -> Seq<EnvEntry> {
    request_env(
        match credentials {
            Some(c) => pairs_view(c@),
            None => Seq::empty(),
        },
        opt_view(agent),
        opt_view(repo),
    )
}

/// Whether `c` is the configuration that a configuration message asks for.
pub open spec fn config_of_message(c: ContainerConfig, m: ClientMessage) -> bool {
    match m {
        ClientMessage::SessionConfig { credentials, agent, image, enable_dind, repo } => {
            &&& c.image == image
            &&& c.enable_dind == (enable_dind == Some(true))
            &&& c.env_vars@ == message_env(credentials, agent, repo)
        },
        _ => false,
    }
}

impl InitHandshake {
    /// Whether the handshake has waited its whole time at `now`.
    pub open spec fn expired_at(&self, now: u64) -> bool {
        elapsed(self.started, now) >= INIT_TIMEOUT_MS
    }

    /// The start at `now`: an 80×24 terminal, the default configuration, no
    /// resize yet.
    pub fn new(now: u64) -> (r: Self)
        ensures
            r.started == now,
            r.cols == DEFAULT_COLS,
            r.rows == DEFAULT_ROWS,
            !r.got_resize,
            r.config.image is None,
            r.config.env_vars@.len() == 0,
            !r.config.enable_dind,
            r.phase == InitPhase::Waiting,
    {
        InitHandshake {
            cols: DEFAULT_COLS,
            rows: DEFAULT_ROWS,
            got_resize: false,
            config: ContainerConfig::default(),
            phase: InitPhase::Waiting,
            started: now,
        }
    }

    /// How long to wait at `now` for the next event, in milliseconds: what is
    /// left of the handshake's time while waiting for a resize, the short
    /// configuration window after one.
    pub fn wait_ms(&self, now: u64) -> (ms: u64)
        ensures
            ms == (if self.phase == InitPhase::Waiting {
                if self.expired_at(now) {
                    0int
                } else {
                    INIT_TIMEOUT_MS - elapsed(self.started, now)
                }
            } else {
                CONFIG_WINDOW_MS as int
            }),
    {
        match self.phase {
            InitPhase::Waiting => {
                let e = elapsed_ms(self.started, now);
                if e >= INIT_TIMEOUT_MS {
                    0
                } else {
                    INIT_TIMEOUT_MS - e
                }
            },
            InitPhase::AwaitingConfig => CONFIG_WINDOW_MS,
        }
    }

    /// Takes the next event, heard at `now`. The time the handshake began is
    /// never changed. Once the handshake's time is up while waiting, it
    /// proceeds with what was collected, whatever the event. Before that, a
    /// timeout proceeds with what was collected, a closed socket gives up, a
    /// resize records the size and opens the configuration window, and a
    /// configuration is recorded (and proceeds if a resize came before);
    /// anything else is ignored. In the configuration window a configuration
    /// is recorded, and whatever comes the handshake proceeds.
    pub fn step(&mut self, event: InitEvent, now: u64) -> (r: InitStep)
        ensures
            final(self).started == old(self).started,
            old(self).phase == InitPhase::Waiting && old(self).expired_at(now) ==> r == InitStep::Ready
                && *final(self) == *old(self),
            old(self).phase == InitPhase::Waiting && !old(self).expired_at(now) ==> match event {
                InitEvent::TimedOut => r == InitStep::Ready && *final(self) == *old(self),
                InitEvent::Closed => r == InitStep::Abort && *final(self) == *old(self),
                InitEvent::Message(Some(ClientMessage::Resize { cols, rows })) => {
                    &&& r == InitStep::Continue
                    &&& final(self).cols == cols
                    &&& final(self).rows == rows
                    &&& final(self).got_resize
                    &&& final(self).phase == InitPhase::AwaitingConfig
                    &&& final(self).config == old(self).config
                },
                InitEvent::Message(Some(m)) => if m is SessionConfig {
                    &&& r == (if old(self).got_resize {
                        InitStep::Ready
                    } else {
                        InitStep::Continue
                    })
                    &&& config_of_message(final(self).config, m)
                    &&& final(self).cols == old(self).cols
                    &&& final(self).rows == old(self).rows
                    &&& final(self).got_resize == old(self).got_resize
                    &&& final(self).phase == old(self).phase
                } else {
                    r == InitStep::Continue && *final(self) == *old(self)
                },
                InitEvent::Message(None) => r == InitStep::Continue && *final(self) == *old(self),
            },
            old(self).phase == InitPhase::AwaitingConfig ==> {
                &&& r == InitStep::Ready
                &&& final(self).phase == old(self).phase
                &&& final(self).cols == old(self).cols
                &&& final(self).rows == old(self).rows
                &&& final(self).got_resize == old(self).got_resize
                &&& match event {
                    InitEvent::Message(Some(m)) => if m is SessionConfig {
                        config_of_message(final(self).config, m)
                    } else {
                        final(self).config == old(self).config
                    },
                    _ => final(self).config == old(self).config,
                }
            },
    {
        if self.phase == InitPhase::Waiting && elapsed_ms(self.started, now) >= INIT_TIMEOUT_MS {
            return InitStep::Ready;
        }
        match self.phase {
            InitPhase::Waiting => match event {
                InitEvent::TimedOut => InitStep::Ready,
                InitEvent::Closed => InitStep::Abort,
                InitEvent::Message(None) => InitStep::Continue,
                InitEvent::Message(Some(m)) => match m {
                    ClientMessage::Resize { cols, rows } => {
                        self.cols = cols;
                        self.rows = rows;
                        self.got_resize = true;
                        self.phase = InitPhase::AwaitingConfig;
                        InitStep::Continue
                    },
                    ClientMessage::SessionConfig { credentials, agent, image, enable_dind, repo } => {
                        self.config = ContainerConfig::from_session_request(
                            credentials,
                            agent,
                            image,
                            enable_dind,
                            repo,
                        );
                        if self.got_resize {
                            InitStep::Ready
                        } else {
                            InitStep::Continue
                        }
                    },
                    _ => InitStep::Continue,
                },
            },
            InitPhase::AwaitingConfig => {
                if let InitEvent::Message(Some(ClientMessage::SessionConfig { credentials, agent, image, enable_dind, repo })) = event {
                    self.config = ContainerConfig::from_session_request(
                        credentials,
                        agent,
                        image,
                        enable_dind,
                        repo,
                    );
                }
                InitStep::Ready
            },
        }
    }
}

// ── Messages during a session ───────────────────────────────────────────────

/// A WebSocket message as the runtime receives it.
pub enum WsIncoming {
    /// A text frame: `Some` when it parses as a client message.
    Text(Option<ClientMessage>),
    Binary(Vec<u8>),
    Close,
    /// Pings, pongs and other control frames.
    Other,
}

/// What the runtime does with a message of a connected client, after
/// recording the client's activity.
pub enum WsAction {
    /// Nothing more; keep reading.
    Continue,
    /// Terminal input: record it, write the bytes to the PTY, and keep
    /// reading only if the write succeeded.
    TerminalInput { data: Vec<u8> },
    /// Raw bytes: write them to the PTY, and keep reading only if the write
    /// succeeded.
    Write { data: Vec<u8> },
    /// Resize the PTY (a failure is ignored) and keep reading.
    Resize { cols: u16, rows: u16 },
    /// The client closed the connection.
    Stop,
}

/// The action for a message of a connected client. Text that does not parse,
/// pings and configurations are ignored once the session runs.
pub fn ws_action(msg: WsIncoming) -> (r: WsAction)
    ensures
        match msg {
            WsIncoming::Text(Some(ClientMessage::TerminalInput { data })) => r matches WsAction::TerminalInput { data: d } && d@ == encode_utf8(data@),
            WsIncoming::Text(Some(ClientMessage::Resize { cols, rows })) => r matches WsAction::Resize { cols: c, rows: w } && c == cols && w == rows,
            WsIncoming::Text(_) => r is Continue,
            WsIncoming::Binary(d) => r matches WsAction::Write { data } && data@ == d@,
            WsIncoming::Close => r is Stop,
            WsIncoming::Other => r is Continue,
        },
{
    match msg {
        WsIncoming::Text(None) => WsAction::Continue,
        WsIncoming::Text(Some(m)) => match m {
            ClientMessage::TerminalInput { data } => {
                let bytes = vstd::slice::slice_to_vec(data.as_str().as_bytes());
                WsAction::TerminalInput { data: bytes }
            },
            ClientMessage::Resize { cols, rows } => WsAction::Resize { cols, rows },
            ClientMessage::Ping => WsAction::Continue,
            ClientMessage::SessionConfig { .. } => WsAction::Continue,
        },
        WsIncoming::Binary(d) => WsAction::Write { data: d },
        WsIncoming::Close => WsAction::Stop,
        WsIncoming::Other => WsAction::Continue,
    }
}

} // verus!
