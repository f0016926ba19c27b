//! Sessions and their lifecycle: a session is created active, becomes
//! disconnected when its client goes away, may be reconnected within a grace
//! period, and is removed when idle or expired.
//!
//! Times are milliseconds on a monotonic clock that the caller reads; the
//! channels of an interactive session are carried as opaque values `Tx`
//! (commands to the PTY) and `Rx` (output from it).

use vstd::prelude::*;
use crate::docker::{ContainerConfig, DockerError, env_get, pairs_view};
use crate::pty::PtyError;
use crate::text::{concat, owned};

verus! {

/// How long a disconnected session stays reconnectable: 10 minutes.
pub const RECONNECT_TIMEOUT_MS: u64 = 600000;

/// How long an active session may go without any client message before it
/// counts as stale: 90 seconds.
pub const HEARTBEAT_TIMEOUT_MS: u64 = 90000;

/// How long an active session may go without terminal input before it counts
/// as idle: 30 minutes.
pub const IDLE_TIMEOUT_MS: u64 = 1800000;

/// Milliseconds from `since` to `now`, zero if `now` is earlier.
pub open spec fn elapsed(since: u64, now: u64) -> int {
    if now >= since {
        now - since
    } else {
        0
    }
}

/// Milliseconds from `since` to `now`, zero if `now` is earlier.
pub fn elapsed_ms(since: u64, now: u64) -> (r: u64)
    ensures
        r == elapsed(since, now),
{
    if now >= since {
        now - since
    } else {
        0
    }
}

#[derive(Debug, Clone, Copy, PartialEq, Eq, Structural)]
pub enum SessionState {
    Active,
    Disconnected { since: u64 },
    Terminated,
}

pub enum SessionKind<Tx, Rx> {
    Interactive { pty_cmd_tx: Tx, pty_output_rx: Option<Rx> },
    Headless,
}

pub struct Session<Tx, Rx> {
    pub id: String,
    pub state: SessionState,
    pub container_id: String,
    pub kind: SessionKind<Tx, Rx>,
    pub last_activity: u64,
    pub last_pty_activity: u64,
    pub created_at: u64,
}

impl<Tx, Rx> Session<Tx, Rx> {
    /// Active, and no client message for longer than the heartbeat timeout.
    pub open spec fn stale_at(self, now: u64) -> bool {
        self.state is Active && elapsed(self.last_activity, now) > HEARTBEAT_TIMEOUT_MS
    }

    /// Active, and no terminal input for longer than the idle timeout.
    pub open spec fn idle_at(self, now: u64) -> bool {
        self.state is Active && elapsed(self.last_pty_activity, now) > IDLE_TIMEOUT_MS
    }

    /// Disconnected for less than the reconnect timeout.
    pub open spec fn reconnectable_at(self, now: u64) -> bool {
        match self.state {
            SessionState::Disconnected { since } => elapsed(since, now) < RECONNECT_TIMEOUT_MS,
            _ => false,
        }
    }

    /// Disconnected for at least the reconnect timeout.
    pub open spec fn expired_at(self, now: u64) -> bool {
        match self.state {
            SessionState::Disconnected { since } => elapsed(since, now) >= RECONNECT_TIMEOUT_MS,
            _ => false,
        }
    }

    /// An interactive session whose output receiver is parked in it, that is,
    /// no client is reading its output.
    pub open spec fn output_parked(self) -> bool {
        self.kind matches SessionKind::Interactive { pty_output_rx: Some(_), .. }
    }

    /// A new interactive session, active from `now`, holding its PTY channels.
    pub fn interactive(id: String, container_id: String, pty_cmd_tx: Tx, pty_output_rx: Rx, now: u64) -> (r: Self)
        ensures
            r.id == id,
            r.container_id == container_id,
            r.state == SessionState::Active,
            r.kind == (SessionKind::Interactive::<Tx, Rx> { pty_cmd_tx, pty_output_rx: Some(pty_output_rx) }),
            r.last_activity == now,
            r.last_pty_activity == now,
            r.created_at == now,
    {
        Session {
            id,
            state: SessionState::Active,
            container_id,
            kind: SessionKind::Interactive { pty_cmd_tx, pty_output_rx: Some(pty_output_rx) },
            last_activity: now,
            last_pty_activity: now,
            created_at: now,
        }
    }

    /// A new headless session, active from `now`.
    pub fn headless(id: String, container_id: String, now: u64) -> (r: Self)
        ensures
            r.id == id,
            r.container_id == container_id,
            r.state == SessionState::Active,
            r.kind is Headless,
            r.last_activity == now,
            r.last_pty_activity == now,
            r.created_at == now,
    {
        Session {
            id,
            state: SessionState::Active,
            container_id,
            kind: SessionKind::Headless,
            last_activity: now,
            last_pty_activity: now,
            created_at: now,
        }
    }

    /// Takes the output receiver out of an interactive session.
    pub fn take_output_rx(&mut self) -> (r: Option<Rx>)
        ensures
            match old(self).kind {
                SessionKind::Interactive { pty_cmd_tx, pty_output_rx } => {
                    &&& r == pty_output_rx
                    &&& final(self).kind == (SessionKind::Interactive::<Tx, Rx> {
                        pty_cmd_tx,
                        pty_output_rx: None,
                    })
                },
                SessionKind::Headless => r is None && final(self).kind is Headless,
            },
            final(self).id == old(self).id,
            final(self).state == old(self).state,
            final(self).container_id == old(self).container_id,
            final(self).last_activity == old(self).last_activity,
            final(self).last_pty_activity == old(self).last_pty_activity,
            final(self).created_at == old(self).created_at,
    {
        match &mut self.kind {
            SessionKind::Interactive { pty_output_rx, .. } => pty_output_rx.take(),
            SessionKind::Headless => None,
        }
    }

    /// Parks an output receiver in an interactive session; a headless session
    /// drops it.
    pub fn put_output_rx(&mut self, rx: Rx)
        ensures
            match old(self).kind {
                SessionKind::Interactive { pty_cmd_tx, .. } => final(self).kind == (
                SessionKind::Interactive::<Tx, Rx> { pty_cmd_tx, pty_output_rx: Some(rx) }),
                SessionKind::Headless => final(self).kind is Headless,
            },
            final(self).id == old(self).id,
            final(self).state == old(self).state,
            final(self).container_id == old(self).container_id,
            final(self).last_activity == old(self).last_activity,
            final(self).last_pty_activity == old(self).last_pty_activity,
            final(self).created_at == old(self).created_at,
    {
        if let SessionKind::Interactive { pty_output_rx, .. } = &mut self.kind {
            *pty_output_rx = Some(rx);
        }
    }

    /// The channel to the PTY of an interactive session; a headless session
    /// has none, and writes to it succeed without effect.
    pub fn pty_sender(&self) -> (r: Option<&Tx>)
        ensures
            match self.kind {
                SessionKind::Interactive { pty_cmd_tx, .. } => r == Some(&pty_cmd_tx),
                SessionKind::Headless => r is None,
            },
    {
        match &self.kind {
            SessionKind::Interactive { pty_cmd_tx, .. } => Some(pty_cmd_tx),
            SessionKind::Headless => None,
        }
    }

    /// Records client activity at `now`.
    pub fn touch(&mut self, now: u64)
        ensures
            *final(self) == (Session { last_activity: now, ..*old(self) }),
    {
        self.last_activity = now;
    }

    /// Records terminal input at `now`, which is client activity too.
    pub fn touch_pty(&mut self, now: u64)
        ensures
            *final(self) == (Session { last_activity: now, last_pty_activity: now, ..*old(self) }),
    {
        self.last_pty_activity = now;
        self.last_activity = now;
    }

    pub fn is_stale(&self, now: u64) -> (b: bool)
        ensures
            b == self.stale_at(now),
    {
        matches!(self.state, SessionState::Active) && elapsed_ms(self.last_activity, now)
            > HEARTBEAT_TIMEOUT_MS
    }

    pub fn is_idle(&self, now: u64) -> (b: bool)
        ensures
            b == self.idle_at(now),
    {
        matches!(self.state, SessionState::Active) && elapsed_ms(self.last_pty_activity, now)
            > IDLE_TIMEOUT_MS
    }

    pub fn is_reconnectable(&self, now: u64) -> (b: bool)
        ensures
            b == self.reconnectable_at(now),
    {
        match self.state {
            SessionState::Disconnected { since } => elapsed_ms(since, now) < RECONNECT_TIMEOUT_MS,
            _ => false,
        }
    }

    pub fn is_interactive(&self) -> (b: bool)
        ensures
            b == (self.kind is Interactive),
    {
        matches!(self.kind, SessionKind::Interactive { .. })
    }
}

// ── Seeding a workspace ─────────────────────────────────────────────────────

/// How long cloning a repository into a new workspace may take, in seconds.
pub const SEED_TIMEOUT_SECS: u64 = 120;

/// The command that clones a repository into the workspace.
pub fn repo_clone_command(repo_url: &str) -> (r: Vec<String>)
    ensures
        r.deep_view() == seq!["git"@, "clone"@, repo_url@, "."@],
{
    let mut r: Vec<String> = Vec::new();
    r.push(owned("git"));
    r.push(owned("clone"));
    r.push(owned(repo_url));
    r.push(owned("."));
    assert(r.deep_view() =~= seq!["git"@, "clone"@, repo_url@, "."@]);
    r
}

// ── Errors ──────────────────────────────────────────────────────────────────

pub enum SessionError {
    Docker(DockerError),
    Pty(PtyError),
    NotFound,
    NotReconnectable,
    AlreadyConnected,
    NotInteractive,
}

impl SessionError {
    /// The text of the error.
    pub open spec fn text(&self) -> Seq<char> {
        match self {
            SessionError::Docker(e) => "Docker error: "@ + e.text(),
            SessionError::Pty(e) => "PTY error: "@ + e.text(),
            SessionError::NotFound => "Session not found"@,
            SessionError::NotReconnectable => "Session not reconnectable"@,
            SessionError::AlreadyConnected => "Session already has active connection"@,
            SessionError::NotInteractive => "Operation not supported for headless session"@,
        }
    }

    /// The text of the error, as it is reported to clients.
    pub fn message(&self) -> (r: String)
        ensures
            r@ == self.text(),
    {
        match self {
            SessionError::Docker(e) => {
                let m = e.message();
                concat("Docker error: ", m.as_str())
            },
            SessionError::Pty(e) => {
                let m = e.message();
                concat("PTY error: ", m.as_str())
            },
            SessionError::NotFound => owned("Session not found"),
            SessionError::NotReconnectable => owned("Session not reconnectable"),
            SessionError::AlreadyConnected => owned("Session already has active connection"),
            SessionError::NotInteractive => owned("Operation not supported for headless session"),
        }
    }
}

// ── Creating a session ──────────────────────────────────────────────────────

/// What creating a session does next.
pub enum CreateAction {
    /// Take a pre-started container from the pool.
    TakeWarmContainer,
    /// Create a container for the session's configuration.
    CreateContainer,
    /// Clone the repository into the container's workspace; a failure is
    /// only reported.
    SeedRepo { container_id: String, repo: String },
    /// Start the terminal in the container with these variables.
    SpawnPty { container_id: String, env: Vec<(String, String)> },
    /// Store the session, with this container, in the table.
    Register { container_id: String },
    /// Give up with this error.
    Fail(SessionError),
}

/// What came of the last action.
pub enum CreateEvent {
    /// The pool gave this container, or none.
    WarmContainer(Option<String>),
    /// The container was created, or creating it failed.
    ContainerCreated(Result<String, DockerError>),
    /// The repository clone into the container ended.
    RepoSeeded { container_id: String },
    /// The terminal started in the container, or starting it failed.
    PtySpawned { container_id: String, result: Result<(), PtyError> },
}

/// The first action: an interactive session with the default image and no
/// Docker-in-Docker tries the pool of pre-started containers; any other
/// session gets a container of its own.
pub fn create_start(config: &ContainerConfig, interactive: bool) -> (r: CreateAction)
    ensures
        if interactive && config.image is None && !config.enable_dind {
            r is TakeWarmContainer
        } else {
            r is CreateContainer
        },
{
    if interactive && config.uses_default_container() {
        CreateAction::TakeWarmContainer
    } else {
        CreateAction::CreateContainer
    }
}

/// Whether `r` is what follows once the session has the container `c`: the
/// repository clone when one is asked for, then for an interactive session
/// the terminal with the configured variables, then the session is stored.
pub open spec fn after_container(config: ContainerConfig, interactive: bool, c: Seq<char>, r: CreateAction) -> bool {
    match env_get(config.env_vars@, "CAPSULE_REPO"@) {
        Some(repo) => r matches CreateAction::SeedRepo { container_id, repo: rp } && container_id@ == c
            && rp@ == repo,
        None => after_seed(config, interactive, c, r),
    }
}

/// Whether `r` is what follows the repository clone into the container `c`.
pub open spec fn after_seed(config: ContainerConfig, interactive: bool, c: Seq<char>, r: CreateAction) -> bool {
    if interactive {
        r matches CreateAction::SpawnPty { container_id, env } && container_id@ == c && pairs_view(env@)
            == config.env_vars@
    } else {
        r matches CreateAction::Register { container_id } && container_id@ == c
    }
}

fn next_after_seed(config: &ContainerConfig, interactive: bool, c: String) -> (r: CreateAction)
    ensures
        after_seed(*config, interactive, c@, r),
{
    if interactive {
        CreateAction::SpawnPty { container_id: c, env: config.env_vars.to_pairs() }
    } else {
        CreateAction::Register { container_id: c }
    }
}

fn next_after_container(config: &ContainerConfig, interactive: bool, c: String) -> (r: CreateAction)
    ensures
        after_container(*config, interactive, c@, r),
{
    match config.repo_to_seed() {
        Some(repo) => CreateAction::SeedRepo { container_id: c, repo },
        None => next_after_seed(config, interactive, c),
    }
}

/// The next action of a session creation, given what came of the last one:
/// without a pooled container one is created; a failure to create the
/// container or to start the terminal ends the creation with that error;
/// otherwise the creation goes on with the repository clone, the terminal
/// and the storing of the session, in that order.
pub fn create_step(config: &ContainerConfig, interactive: bool, event: CreateEvent) -> (r: CreateAction)
    ensures
        match event {
            CreateEvent::WarmContainer(Some(c)) => after_container(*config, interactive, c@, r),
            CreateEvent::WarmContainer(None) => r is CreateContainer,
            CreateEvent::ContainerCreated(Ok(c)) => after_container(*config, interactive, c@, r),
            CreateEvent::ContainerCreated(Err(e)) => r == CreateAction::Fail(SessionError::Docker(e)),
            CreateEvent::RepoSeeded { container_id } => after_seed(*config, interactive, container_id@, r),
            CreateEvent::PtySpawned { container_id, result: Ok(()) } => r matches CreateAction::Register {
                container_id: c,
            } && c@ == container_id@,
            CreateEvent::PtySpawned { result: Err(e), .. } => r == CreateAction::Fail(SessionError::Pty(e)),
        },
{
    match event {
        CreateEvent::WarmContainer(Some(c)) => next_after_container(config, interactive, c),
        CreateEvent::WarmContainer(None) => CreateAction::CreateContainer,
        CreateEvent::ContainerCreated(Ok(c)) => next_after_container(config, interactive, c),
        CreateEvent::ContainerCreated(Err(e)) => CreateAction::Fail(SessionError::Docker(e)),
        CreateEvent::RepoSeeded { container_id } => next_after_seed(config, interactive, container_id),
        CreateEvent::PtySpawned { container_id, result } => match result {
            Ok(()) => CreateAction::Register { container_id },
            Err(e) => CreateAction::Fail(SessionError::Pty(e)),
        },
    }
}

// ── The session table ───────────────────────────────────────────────────────

/// No two sessions share an id.
pub open spec fn ids_unique<Tx, Rx>(s: Seq<Session<Tx, Rx>>) -> bool {
    forall|i: int, j: int|
        0 <= i < s.len() && 0 <= j < s.len() && i != j ==> s[i].id@ != s[j].id@
}

/// Whether some session has the id `id`.
pub open spec fn has_id<Tx, Rx>(s: Seq<Session<Tx, Rx>>, id: Seq<char>) -> bool {
    exists|i: int| 0 <= i < s.len() && s[i].id@ == id
}

/// The position of the session with the id `id`.
pub open spec fn position<Tx, Rx>(s: Seq<Session<Tx, Rx>>, id: Seq<char>) -> int {
    choose|i: int| 0 <= i < s.len() && s[i].id@ == id
}

/// The session with the id `id`, if any.
pub open spec fn lookup<Tx, Rx>(s: Seq<Session<Tx, Rx>>, id: Seq<char>) -> Option<Session<Tx, Rx>> {
    if has_id(s, id) {
        Some(s[position(s, id)])
    } else {
        None
    }
}

/// The table after storing `x`: it replaces a session with the same id in
/// place, or is appended.
pub open spec fn table_insert<Tx, Rx>(s: Seq<Session<Tx, Rx>>, x: Session<Tx, Rx>) -> Seq<Session<Tx, Rx>> {
    if has_id(s, x.id@) {
        s.update(position(s, x.id@), x)
    } else {
        s.push(x)
    }
}

/// The table without the session with the id `id`.
pub open spec fn table_remove<Tx, Rx>(s: Seq<Session<Tx, Rx>>, id: Seq<char>) -> Seq<Session<Tx, Rx>> {
    if has_id(s, id) {
        s.remove(position(s, id))
    } else {
        s
    }
}

/// The table with the session of id `id`, if any, replaced by `x`.
pub open spec fn table_update<Tx, Rx>(
    s: Seq<Session<Tx, Rx>>,
    id: Seq<char>,
    x: Session<Tx, Rx>,
) -> Seq<Session<Tx, Rx>> {
    if has_id(s, id) {
        s.update(position(s, id), x)
    } else {
        s
    }
}

/// What reconnecting to the session `id` at `now` does: the error, or the
/// session made active again with its client activity at `now`.
pub open spec fn reconnect_outcome<Tx, Rx>(s: Seq<Session<Tx, Rx>>, id: Seq<char>, now: u64) -> Result<Session<Tx, Rx>, SessionError> {
    if !has_id(s, id) {
        Err(SessionError::NotFound)
    } else {
        let x = s[position(s, id)];
        if !x.reconnectable_at(now) {
            Err(SessionError::NotReconnectable)
        } else {
            match x.kind {
                SessionKind::Interactive { pty_output_rx: None, .. } => Err(SessionError::AlreadyConnected),
                SessionKind::Headless => Err(SessionError::NotInteractive),
                _ => Ok(Session { state: SessionState::Active, last_activity: now, ..x }),
            }
        }
    }
}

/// The session marked disconnected at `now`, with the output receiver parked
/// in it.
pub open spec fn disconnected<Tx, Rx>(x: Session<Tx, Rx>, rx: Rx, now: u64) -> Session<Tx, Rx> {
    Session {
        state: SessionState::Disconnected { since: now },
        kind: match x.kind {
            SessionKind::Interactive { pty_cmd_tx, .. } => SessionKind::Interactive { pty_cmd_tx, pty_output_rx: Some(rx) },
            SessionKind::Headless => SessionKind::Headless,
        },
        ..x
    }
}

/// Whether cleanup at `now` removes the session: idle, or disconnected past
/// the reconnect timeout.
pub open spec fn doomed<Tx, Rx>(x: Session<Tx, Rx>, now: u64) -> bool {
    x.idle_at(now) || x.expired_at(now)
}

/// What cleanup at `now` leaves of a session it keeps: a stale session is
/// marked disconnected at `now`.
pub open spec fn swept<Tx, Rx>(x: Session<Tx, Rx>, now: u64) -> Session<Tx, Rx> {
    if x.stale_at(now) {
        Session { state: SessionState::Disconnected { since: now }, ..x }
    } else {
        x
    }
}

/// The sessions that cleanup at `now` keeps, in order.
pub open spec fn cleanup_kept<Tx, Rx>(s: Seq<Session<Tx, Rx>>, now: u64) -> Seq<Session<Tx, Rx>>
    decreases s.len(),
{
    if s.len() == 0 {
        Seq::empty()
    } else {
        let rest = cleanup_kept(s.drop_last(), now);
        if doomed(s.last(), now) {
            rest
        } else {
            rest.push(swept(s.last(), now))
        }
    }
}

/// The sessions that cleanup at `now` removes, in order.
pub open spec fn cleanup_removed<Tx, Rx>(s: Seq<Session<Tx, Rx>>, now: u64) -> Seq<Session<Tx, Rx>>
    decreases s.len(),
{
    if s.len() == 0 {
        Seq::empty()
    } else {
        let rest = cleanup_removed(s.drop_last(), now);
        if doomed(s.last(), now) {
            rest.push(s.last())
        } else {
            rest
        }
    }
}

/// The ids of the sessions, in order.
pub open spec fn ids_of<Tx, Rx>(s: Seq<Session<Tx, Rx>>) -> Seq<Seq<char>> {
    s.map_values(|x: Session<Tx, Rx>| x.id@)
}

/// The live sessions of the runtime, and the pre-started containers that new
/// sessions may take.
pub struct SessionManager<Tx, Rx> {
    sessions: Vec<Session<Tx, Rx>>,
    warm_pool: Vec<String>,
}

impl<Tx, Rx> View for SessionManager<Tx, Rx> {
    type V = Seq<Session<Tx, Rx>>;

    closed spec fn view(&self) -> Seq<Session<Tx, Rx>> {
        self.sessions@
    }
}

/// Replacing a session by one with the same id keeps ids unique and positions.
proof fn lemma_update_same_id<Tx, Rx>(s: Seq<Session<Tx, Rx>>, i: int, x: Session<Tx, Rx>)
    requires
        ids_unique(s),
        0 <= i < s.len(),
        s[i].id@ == x.id@,
    ensures
        ids_unique(s.update(i, x)),
        forall|id: Seq<char>| #[trigger] has_id(s.update(i, x), id) == has_id(s, id),
{
    let t = s.update(i, x);
    assert forall|id: Seq<char>| #[trigger] has_id(t, id) == has_id(s, id) by {
        if has_id(s, id) {
            let k = choose|k: int| 0 <= k < s.len() && s[k].id@ == id;
            assert(t[k].id@ == id);
        }
        if has_id(t, id) {
            let k = choose|k: int| 0 <= k < t.len() && t[k].id@ == id;
            assert(s[k].id@ == id);
        }
    }
}

/// In a table with unique ids, the session at `i` is the one `position` names.
proof fn lemma_position<Tx, Rx>(s: Seq<Session<Tx, Rx>>, i: int)
    requires
        ids_unique(s),
        0 <= i < s.len(),
    ensures
        has_id(s, s[i].id@),
        position(s, s[i].id@) == i,
{
    assert(has_id(s, s[i].id@));
}

impl<Tx, Rx> SessionManager<Tx, Rx> {
    #[verifier::type_invariant]
    spec fn wf(self) -> bool {
        ids_unique(self.sessions@)
    }

    /// The pre-started containers, oldest first.
    pub closed spec fn warm(&self) -> Seq<Seq<char>> {
        self.warm_pool@.map_values(|c: String| c@)
    }

    /// No sessions and no pre-started containers.
    pub fn new() -> (r: Self)
        ensures
            r@ == Seq::<Session<Tx, Rx>>::empty(),
            r.warm() == Seq::<Seq<char>>::empty(),
    {
        let r = SessionManager { sessions: Vec::new(), warm_pool: Vec::new() };
        assert(r.warm() =~= Seq::<Seq<char>>::empty());
        r
    }

    /// No two sessions share an id.
    pub fn ids_are_unique(&self)
        ensures
            ids_unique(self@),
    {
        proof {
            use_type_invariant(self);
        }
    }

    /// The position of the session with the given id.
    fn find(&self, id: &str) -> (r: Option<usize>)
        ensures
            match r {
                Some(i) => i < self@.len() && self@[i as int].id@ == id@ && position(self@, id@) == i && has_id(self@, id@),
                None => !has_id(self@, id@),
            },
    {
        proof {
            use_type_invariant(self);
        }
        let wanted = owned(id);
        let n = self.sessions.len();
        let mut i: usize = 0;
        while i < n
            invariant
                n == self.sessions@.len(),
                i <= n,
                wanted@ == id@,
                ids_unique(self.sessions@),
                forall|j: int| 0 <= j < i ==> self.sessions@[j].id@ != id@,
            decreases n - i,
        {
            if self.sessions[i].id == wanted {
                proof {
                    lemma_position(self.sessions@, i as int);
                }
                return Some(i);
            }
            i = i + 1;
        }
        None
    }

    /// Replaces the session at `i` by `x`, which has the same id.
    fn replace_at(&mut self, i: usize, x: Session<Tx, Rx>) -> (old_x: Session<Tx, Rx>)
        requires
            i < old(self)@.len(),
            old(self)@[i as int].id@ == x.id@,
        ensures
            final(self)@ == old(self)@.update(i as int, x),
            old_x == old(self)@[i as int],
            final(self).warm() == old(self).warm(),
    {
        proof {
            use_type_invariant(&*self);
            lemma_update_same_id(self.sessions@, i as int, x);
        }
        let mut v: Vec<Session<Tx, Rx>> = Vec::new();
        std::mem::swap(&mut v, &mut self.sessions);
        let old_x = v.remove(i);
        v.insert(i, x);
        assert(v@ =~= old(self)@.update(i as int, x));
        self.sessions = v;
        old_x
    }

    /// Takes the session at `i` out of the table.
    fn take_at(&mut self, i: usize) -> (x: Session<Tx, Rx>)
        requires
            i < old(self)@.len(),
        ensures
            final(self)@ == old(self)@.remove(i as int),
            x == old(self)@[i as int],
            !has_id(final(self)@, x.id@),
            final(self).warm() == old(self).warm(),
    {
        proof {
            use_type_invariant(&*self);
        }
        let mut v: Vec<Session<Tx, Rx>> = Vec::new();
        std::mem::swap(&mut v, &mut self.sessions);
        let x = v.remove(i);
        assert(ids_unique(v@)) by {
            assert forall|a: int, b: int|
                0 <= a < v@.len() && 0 <= b < v@.len() && a != b implies v@[a].id@ != v@[b].id@ by {
                let a0 = if a < i { a } else { a + 1 };
                let b0 = if b < i { b } else { b + 1 };
                assert(v@[a] == old(self)@[a0]);
                assert(v@[b] == old(self)@[b0]);
            }
        }
        assert(!has_id(v@, x.id@)) by {
            assert forall|a: int| 0 <= a < v@.len() implies v@[a].id@ != x.id@ by {
                let a0 = if a < i { a } else { a + 1 };
                assert(v@[a] == old(self)@[a0]);
            }
        }
        self.sessions = v;
        x
    }

    /// Puts a session whose id is not in the table at position `i`.
    fn restore_at(&mut self, i: usize, x: Session<Tx, Rx>)
        requires
            i <= old(self)@.len(),
            !has_id(old(self)@, x.id@),
        ensures
            final(self)@ == old(self)@.insert(i as int, x),
            final(self).warm() == old(self).warm(),
    {
        proof {
            use_type_invariant(&*self);
        }
        let mut v: Vec<Session<Tx, Rx>> = Vec::new();
        std::mem::swap(&mut v, &mut self.sessions);
        let ghost id = x.id@;
        v.insert(i, x);
        assert(ids_unique(v@)) by {
            assert forall|a: int, b: int|
                0 <= a < v@.len() && 0 <= b < v@.len() && a != b implies v@[a].id@ != v@[b].id@ by {
                let a0 = if a < i { a } else { a - 1 };
                let b0 = if b < i { b } else { b - 1 };
                if a == i {
                    assert(old(self)@[b0].id@ != id);
                } else if b == i {
                    assert(old(self)@[a0].id@ != id);
                } else {
                    assert(v@[a] == old(self)@[a0]);
                    assert(v@[b] == old(self)@[b0]);
                }
            }
        }
        self.sessions = v;
    }

    /// Stores a session, replacing one with the same id.
    pub fn insert_session(&mut self, session: Session<Tx, Rx>)
        ensures
            final(self)@ == table_insert(old(self)@, session),
            final(self).warm() == old(self).warm(),
    {
        proof {
            use_type_invariant(&*self);
        }
        match self.find(session.id.as_str()) {
            Some(i) => {
                let _ = self.replace_at(i, session);
            },
            None => {
                let mut v: Vec<Session<Tx, Rx>> = Vec::new();
                std::mem::swap(&mut v, &mut self.sessions);
                let ghost id = session.id@;
                v.push(session);
                assert(ids_unique(v@)) by {
                    assert forall|a: int, b: int|
                        0 <= a < v@.len() && 0 <= b < v@.len() && a != b implies v@[a].id@ != v@[b].id@ by {
                        if a == v@.len() - 1 {
                            assert(old(self)@[b].id@ != id);
                        } else if b == v@.len() - 1 {
                            assert(old(self)@[a].id@ != id);
                        }
                    }
                }
                self.sessions = v;
            },
        }
    }

    /// The session with the given id.
    pub fn get_session(&self, id: &str) -> (r: Option<&Session<Tx, Rx>>)
        ensures
            match lookup(self@, id@) {
                Some(x) => r == Some(&x),
                None => r is None,
            },
    {
        match self.find(id) {
            Some(i) => Some(&self.sessions[i]),
            None => None,
        }
    }

    /// Removes the session with the given id and hands it back, so that its
    /// PTY can be shut down and its container removed.
    pub fn remove_session(&mut self, id: &str) -> (r: Option<Session<Tx, Rx>>)
        ensures
            final(self)@ == table_remove(old(self)@, id@),
            r == lookup(old(self)@, id@),
            final(self).warm() == old(self).warm(),
    {
        match self.find(id) {
            Some(i) => Some(self.take_at(i)),
            None => None,
        }
    }

    /// Reconnects a client to the session `id` at `now`. The session must
    /// exist, be disconnected for less than the reconnect timeout, be
    /// interactive, and have no client reading its output; it then becomes
    /// active with its client activity at `now`.
    pub fn reconnect_session(&mut self, id: &str, now: u64) -> (r: Result<(), SessionError>)
        ensures
            match reconnect_outcome(old(self)@, id@, now) {
                Ok(x) => r is Ok && final(self)@ == table_update(old(self)@, id@, x),
                Err(e) => r == Err::<(), SessionError>(e) && final(self)@ == old(self)@,
            },
            final(self).warm() == old(self).warm(),
    {
        let i = match self.find(id) {
            Some(i) => i,
            None => return Err(SessionError::NotFound),
        };
        if !self.sessions[i].is_reconnectable(now) {
            return Err(SessionError::NotReconnectable);
        }
        match &self.sessions[i].kind {
            SessionKind::Interactive { pty_output_rx, .. } => {
                if pty_output_rx.is_none() {
                    return Err(SessionError::AlreadyConnected);
                }
            },
            SessionKind::Headless => return Err(SessionError::NotInteractive),
        }
        let mut x = self.take_at(i);
        x.state = SessionState::Active;
        x.touch(now);
        let ghost x2 = x;
        self.restore_at(i, x);
        assert(self@ =~= old(self)@.update(i as int, x2));
        Ok(())
    }

    /// Marks the session `id` disconnected at `now` and parks the output
    /// receiver in it, so that a client can reconnect.
    pub fn mark_disconnected(&mut self, id: &str, output_rx: Rx, now: u64)
        ensures
            final(self)@ == (match lookup(old(self)@, id@) {
                Some(x) => table_update(old(self)@, id@, disconnected(x, output_rx, now)),
                None => old(self)@,
            }),
            final(self).warm() == old(self).warm(),
    {
        if let Some(i) = self.find(id) {
            let mut x = self.take_at(i);
            x.state = SessionState::Disconnected { since: now };
            x.put_output_rx(output_rx);
            let ghost x2 = x;
            assert(x2 == disconnected(old(self)@[i as int], output_rx, now));
            self.restore_at(i, x);
            assert(self@ =~= old(self)@.update(i as int, x2));
        }
    }

    /// Records client activity on the session `id` at `now`.
    pub fn touch_session(&mut self, id: &str, now: u64)
        ensures
            final(self)@ == (match lookup(old(self)@, id@) {
                Some(x) => table_update(old(self)@, id@, Session { last_activity: now, ..x }),
                None => old(self)@,
            }),
            final(self).warm() == old(self).warm(),
    {
        if let Some(i) = self.find(id) {
            let mut x = self.take_at(i);
            x.touch(now);
            let ghost x2 = x;
            self.restore_at(i, x);
            assert(self@ =~= old(self)@.update(i as int, x2));
        }
    }

    /// Records terminal input on the session `id` at `now`.
    pub fn touch_session_pty(&mut self, id: &str, now: u64)
        ensures
            final(self)@ == (match lookup(old(self)@, id@) {
                Some(x) => table_update(
                    old(self)@,
                    id@,
                    Session { last_activity: now, last_pty_activity: now, ..x },
                ),
                None => old(self)@,
            }),
            final(self).warm() == old(self).warm(),
    {
        if let Some(i) = self.find(id) {
            let mut x = self.take_at(i);
            x.touch_pty(now);
            let ghost x2 = x;
            self.restore_at(i, x);
            assert(self@ =~= old(self)@.update(i as int, x2));
        }
    }

    /// Takes the output receiver out of the session `id`, for a client that
    /// starts reading its output.
    pub fn take_output_rx(&mut self, id: &str) -> (r: Option<Rx>)
        ensures
            match lookup(old(self)@, id@) {
                Some(x) => match x.kind {
                    SessionKind::Interactive { pty_cmd_tx, pty_output_rx } => {
                        &&& r == pty_output_rx
                        &&& final(self)@ == table_update(
                            old(self)@,
                            id@,
                            Session {
                                kind: SessionKind::Interactive { pty_cmd_tx, pty_output_rx: None },
                                ..x
                            },
                        )
                    },
                    SessionKind::Headless => r is None && final(self)@ == old(self)@,
                },
                None => r is None && final(self)@ == old(self)@,
            },
            final(self).warm() == old(self).warm(),
    {
        match self.find(id) {
            Some(i) => {
                let mut x = self.take_at(i);
                let rx = x.take_output_rx();
                let ghost x2 = x;
                self.restore_at(i, x);
                assert(self@ =~= old(self)@.update(i as int, x2));
                proof {
                    if old(self)@[i as int].kind is Headless {
                        assert(x2 == old(self)@[i as int]);
                        assert(self@ =~= old(self)@);
                    }
                }
                rx
            },
            None => None,
        }
    }

    /// The container of the session `id`.
    pub fn session_container(&self, id: &str) -> (r: Result<String, SessionError>)
        ensures
            match lookup(self@, id@) {
                Some(x) => r matches Ok(c) && c@ == x.container_id@,
                None => r == Err::<String, SessionError>(SessionError::NotFound),
            },
    {
        match self.find(id) {
            Some(i) => Ok(self.sessions[i].container_id.clone()),
            None => Err(SessionError::NotFound),
        }
    }

    /// The ids of all sessions.
    pub fn list_sessions(&self) -> (r: Vec<String>)
        ensures
            r.deep_view() == ids_of(self@),
    {
        let mut r: Vec<String> = Vec::new();
        let n = self.sessions.len();
        let mut i: usize = 0;
        while i < n
            invariant
                n == self@.len(),
                i <= n,
                r.deep_view() == ids_of(self@.take(i as int)),
            decreases n - i,
        {
            let ghost before = r.deep_view();
            r.push(self.sessions[i].id.clone());
            assert(r.deep_view() =~= before.push(self@[i as int].id@));
            assert(ids_of(self@.take(i + 1)) =~= ids_of(self@.take(i as int)).push(self@[i as int].id@));
            i = i + 1;
        }
        assert(self@.take(n as int) =~= self@);
        r
    }

    /// The number of sessions.
    pub fn len(&self) -> (n: usize)
        ensures
            n == self@.len(),
    {
        self.sessions.len()
    }

    /// Removes the sessions that are idle or whose reconnect window has
    /// passed at `now`, marks stale sessions disconnected at `now`, and hands
    /// back the removed sessions so that their containers can be removed.
    pub fn cleanup_expired_sessions(&mut self, now: u64) -> (removed: Vec<Session<Tx, Rx>>)
        ensures
            final(self)@ == cleanup_kept(old(self)@, now),
            removed@ == cleanup_removed(old(self)@, now),
            final(self).warm() == old(self).warm(),
    {
        proof {
            use_type_invariant(&*self);
            lemma_cleanup_kept_ids(self.sessions@, now);
        }
        let ghost orig = self.sessions@;
        let mut pending: Vec<Session<Tx, Rx>> = Vec::new();
        std::mem::swap(&mut pending, &mut self.sessions);
        let mut kept: Vec<Session<Tx, Rx>> = Vec::new();
        let mut removed: Vec<Session<Tx, Rx>> = Vec::new();
        let n = pending.len();
        let mut i: usize = 0;
        assert(orig.skip(0) =~= orig);
        while i < n
            invariant
                n == orig.len(),
                i <= n,
                pending@ == orig.skip(i as int),
                kept@ == cleanup_kept(orig.take(i as int), now),
                removed@ == cleanup_removed(orig.take(i as int), now),
            decreases n - i,
        {
            let mut x = pending.remove(0);
            assert(x == orig[i as int]);
            assert(orig.take(i + 1).drop_last() =~= orig.take(i as int));
            assert(pending@ =~= orig.skip(i + 1));
            let expired = match x.state {
                SessionState::Disconnected { since } => elapsed_ms(since, now) >= RECONNECT_TIMEOUT_MS,
                _ => false,
            };
            if x.is_idle(now) || expired {
                removed.push(x);
            } else {
                if x.is_stale(now) {
                    x.state = SessionState::Disconnected { since: now };
                }
                kept.push(x);
            }
            i = i + 1;
        }
        assert(orig.take(n as int) =~= orig);
        self.sessions = kept;
        removed
    }

    /// Adds a pre-started container to the pool.
    pub fn push_warm_container(&mut self, container_id: String)
        ensures
            final(self)@ == old(self)@,
            final(self).warm() == old(self).warm().push(container_id@),
    {
        proof {
            use_type_invariant(&*self);
        }
        let ghost c = container_id@;
        let mut pool: Vec<String> = Vec::new();
        std::mem::swap(&mut pool, &mut self.warm_pool);
        pool.push(container_id);
        self.warm_pool = pool;
        assert(self.warm() =~= old(self).warm().push(c));
    }

    /// Takes the most recently pre-started container, if any.
    pub fn take_warm_container(&mut self) -> (r: Option<String>)
        ensures
            final(self)@ == old(self)@,
            if old(self).warm().len() > 0 {
                &&& r matches Some(c) && c@ == old(self).warm().last()
                &&& final(self).warm() == old(self).warm().drop_last()
            } else {
                r is None && final(self).warm() == old(self).warm()
            },
    {
        proof {
            use_type_invariant(&*self);
        }
        let mut pool: Vec<String> = Vec::new();
        std::mem::swap(&mut pool, &mut self.warm_pool);
        let r = pool.pop();
        self.warm_pool = pool;
        assert(self.warm() =~= (if old(self).warm().len() > 0 {
            old(self).warm().drop_last()
        } else {
            old(self).warm()
        }));
        r
    }
}

/// Every kept session has the id of a session of the table, and kept ids are
/// unique when the table's are.
pub proof fn lemma_cleanup_kept_ids<Tx, Rx>(s: Seq<Session<Tx, Rx>>, now: u64)
    requires
        ids_unique(s),
    ensures
        ids_unique(cleanup_kept(s, now)),
        forall|k: int| 0 <= k < cleanup_kept(s, now).len() ==> has_id(s, #[trigger] cleanup_kept(s, now)[k].id@),
    decreases s.len(),
{
    if s.len() > 0 {
        let t = s.drop_last();
        assert(ids_unique(t));
        lemma_cleanup_kept_ids(t, now);
        let rest = cleanup_kept(t, now);
        assert forall|k: int| 0 <= k < rest.len() implies has_id(s, #[trigger] rest[k].id@) by {
            let j = choose|j: int| 0 <= j < t.len() && t[j].id@ == rest[k].id@;
            assert(s[j].id@ == rest[k].id@);
        }
        if !doomed(s.last(), now) {
            let last = s.last();
            assert forall|k: int| 0 <= k < rest.len() implies rest[k].id@ != last.id@ by {
                let j = choose|j: int| 0 <= j < t.len() && t[j].id@ == rest[k].id@;
                assert(s[j].id@ != s[s.len() - 1].id@);
            }
            assert(has_id(s, last.id@)) by {
                assert(s[s.len() - 1].id@ == last.id@);
            }
        }
    }
}

// ── Laws ────────────────────────────────────────────────────────────────────

/// Storing a session makes it the one found under its id, and keeps ids unique.
pub proof fn law_insert_then_lookup<Tx, Rx>(s: Seq<Session<Tx, Rx>>, x: Session<Tx, Rx>)
    requires
        ids_unique(s),
    ensures
        ids_unique(table_insert(s, x)),
        lookup(table_insert(s, x), x.id@) == Some(x),
{
    let t = table_insert(s, x);
    if has_id(s, x.id@) {
        let p = position(s, x.id@);
        lemma_update_same_id(s, p, x);
        lemma_position(t, p);
    } else {
        assert(ids_unique(t)) by {
            assert forall|a: int, b: int|
                0 <= a < t.len() && 0 <= b < t.len() && a != b implies t[a].id@ != t[b].id@ by {
                if a == s.len() {
                    assert(s[b].id@ != x.id@);
                } else if b == s.len() {
                    assert(s[a].id@ != x.id@);
                }
            }
        }
        lemma_position(t, s.len() as int);
    }
}

/// A removed session is found no more, and every other session stays.
pub proof fn law_remove_then_lookup<Tx, Rx>(s: Seq<Session<Tx, Rx>>, id: Seq<char>, other: Seq<char>)
    requires
        ids_unique(s),
        other != id,
    ensures
        lookup(table_remove(s, id), id) is None,
        lookup(table_remove(s, id), other) == lookup(s, other),
{
    let t = table_remove(s, id);
    if has_id(s, id) {
        let p = position(s, id);
        assert(!has_id(t, id)) by {
            assert forall|a: int| 0 <= a < t.len() implies t[a].id@ != id by {
                let a0 = if a < p { a } else { a + 1 };
                assert(t[a] == s[a0]);
            }
        }
        if has_id(s, other) {
            let q = position(s, other);
            let q2 = if q < p { q } else { q - 1 };
            assert(t[q2] == s[q]);
            assert(ids_unique(t)) by {
                assert forall|a: int, b: int|
                    0 <= a < t.len() && 0 <= b < t.len() && a != b implies t[a].id@ != t[b].id@ by {
                    let a0 = if a < p { a } else { a + 1 };
                    let b0 = if b < p { b } else { b + 1 };
                    assert(t[a] == s[a0]);
                    assert(t[b] == s[b0]);
                }
            }
            lemma_position(t, q2);
        } else {
            assert(!has_id(t, other)) by {
                assert forall|a: int| 0 <= a < t.len() implies t[a].id@ != other by {
                    let a0 = if a < p { a } else { a + 1 };
                    assert(t[a] == s[a0]);
                }
            }
        }
    }
}

/// A client that went away can come back: an interactive session marked
/// disconnected at `t` is reconnected at any `now` less than the reconnect
/// timeout later, becomes active again, and still holds the parked output.
pub proof fn law_reconnect_after_disconnect<Tx, Rx>(
    s: Seq<Session<Tx, Rx>>,
    id: Seq<char>,
    rx: Rx,
    t: u64,
    now: u64,
)
    requires
        ids_unique(s),
        lookup(s, id) matches Some(x) && x.kind is Interactive,
        t <= now,
        now - t < RECONNECT_TIMEOUT_MS,
    ensures
        ({
            let x = lookup(s, id)->0;
            let d = disconnected(x, rx, t);
            &&& d.output_parked()
            &&& reconnect_outcome(table_update(s, id, d), id, now) == Ok::<
                Session<Tx, Rx>,
                SessionError,
            >(Session { state: SessionState::Active, last_activity: now, ..d })
        }),
{
    let p = position(s, id);
    let x = s[p];
    let d = disconnected(x, rx, t);
    lemma_update_same_id(s, p, d);
    lemma_position(s.update(p, d), p);
}

/// Once the reconnect window has passed, a disconnected session is refused.
pub proof fn law_reconnect_after_timeout<Tx, Rx>(
    s: Seq<Session<Tx, Rx>>,
    id: Seq<char>,
    rx: Rx,
    t: u64,
    now: u64,
)
    requires
        ids_unique(s),
        has_id(s, id),
        elapsed(t, now) >= RECONNECT_TIMEOUT_MS,
    ensures
        reconnect_outcome(table_update(s, id, disconnected(lookup(s, id)->0, rx, t)), id, now)
            == Err::<Session<Tx, Rx>, SessionError>(SessionError::NotReconnectable),
{
    let p = position(s, id);
    let d = disconnected(s[p], rx, t);
    lemma_update_same_id(s, p, d);
    lemma_position(s.update(p, d), p);
}

/// A session with a connected client (active) cannot be reconnected to.
pub proof fn law_active_session_refuses_reconnect<Tx, Rx>(
    s: Seq<Session<Tx, Rx>>,
    id: Seq<char>,
    now: u64,
)
    requires
        lookup(s, id) matches Some(x) && x.state is Active,
    ensures
        reconnect_outcome(s, id, now) == Err::<Session<Tx, Rx>, SessionError>(
            SessionError::NotReconnectable,
        ),
{
}

/// Cleanup splits the table: each session is either kept or removed, and
/// every removed session was idle or past its reconnect window.
pub proof fn law_cleanup_partition<Tx, Rx>(s: Seq<Session<Tx, Rx>>, now: u64)
    ensures
        cleanup_kept(s, now).len() + cleanup_removed(s, now).len() == s.len(),
        forall|k: int|
            0 <= k < cleanup_removed(s, now).len() ==> doomed(#[trigger] cleanup_removed(s, now)[k], now),
    decreases s.len(),
{
    if s.len() > 0 {
        law_cleanup_partition(s.drop_last(), now);
    }
}

/// After cleanup at `now` no session is idle, stale or past its reconnect
/// window at `now`.
pub proof fn law_cleanup_leaves_live_sessions<Tx, Rx>(s: Seq<Session<Tx, Rx>>, now: u64)
    ensures
        forall|k: int|
            0 <= k < cleanup_kept(s, now).len() ==> {
                let y = #[trigger] cleanup_kept(s, now)[k];
                !doomed(y, now) && !y.stale_at(now)
            },
    decreases s.len(),
{
    if s.len() > 0 {
        law_cleanup_leaves_live_sessions(s.drop_last(), now);
    }
}

/// Cleaning up twice at the same time does no more than cleaning up once.
pub proof fn law_cleanup_idempotent<Tx, Rx>(s: Seq<Session<Tx, Rx>>, now: u64)
    ensures
        cleanup_kept(cleanup_kept(s, now), now) == cleanup_kept(s, now),
        cleanup_removed(cleanup_kept(s, now), now).len() == 0,
{
    law_cleanup_leaves_live_sessions(s, now);
    lemma_cleanup_live_fixed(cleanup_kept(s, now), now);
}

/// A table of live sessions is left as it is by cleanup.
proof fn lemma_cleanup_live_fixed<Tx, Rx>(s: Seq<Session<Tx, Rx>>, now: u64)
    requires
        forall|k: int| 0 <= k < s.len() ==> !doomed(#[trigger] s[k], now) && !s[k].stale_at(now),
    ensures
        cleanup_kept(s, now) == s,
        cleanup_removed(s, now).len() == 0,
    decreases s.len(),
{
    if s.len() > 0 {
        let t = s.drop_last();
        assert forall|k: int| 0 <= k < t.len() implies !doomed(#[trigger] t[k], now) && !t[k].stale_at(now) by {
            assert(t[k] == s[k]);
        }
        lemma_cleanup_live_fixed(t, now);
        assert(!doomed(s[s.len() - 1], now));
        assert(cleanup_kept(s, now) =~= s);
    } else {
        assert(cleanup_kept(s, now) =~= s);
    }
}

/// A session of the table is kept by cleanup exactly when it is not doomed
/// (its id stays, since sweeping keeps ids).
proof fn lemma_kept_has_id<Tx, Rx>(s: Seq<Session<Tx, Rx>>, now: u64, id: Seq<char>)
    ensures
        has_id(cleanup_kept(s, now), id) <==> exists|i: int|
            0 <= i < s.len() && #[trigger] s[i].id@ == id && !doomed(s[i], now),
        has_id(cleanup_removed(s, now), id) <==> exists|i: int|
            0 <= i < s.len() && #[trigger] s[i].id@ == id && doomed(s[i], now),
    decreases s.len(),
{
    if s.len() > 0 {
        let t = s.drop_last();
        lemma_kept_has_id(t, now, id);
        let x = s.last();
        let k = cleanup_kept(t, now);
        let r = cleanup_removed(t, now);
        if exists|i: int| 0 <= i < t.len() && #[trigger] t[i].id@ == id && !doomed(t[i], now) {
            let i = choose|i: int| 0 <= i < t.len() && #[trigger] t[i].id@ == id && !doomed(t[i], now);
            assert(s[i] == t[i]);
        }
        if exists|i: int| 0 <= i < t.len() && #[trigger] t[i].id@ == id && doomed(t[i], now) {
            let i = choose|i: int| 0 <= i < t.len() && #[trigger] t[i].id@ == id && doomed(t[i], now);
            assert(s[i] == t[i]);
        }
        if exists|i: int| 0 <= i < s.len() && #[trigger] s[i].id@ == id && !doomed(s[i], now) {
            let i = choose|i: int| 0 <= i < s.len() && #[trigger] s[i].id@ == id && !doomed(s[i], now);
            if i < t.len() {
                assert(t[i] == s[i]);
            }
        }
        if exists|i: int| 0 <= i < s.len() && #[trigger] s[i].id@ == id && doomed(s[i], now) {
            let i = choose|i: int| 0 <= i < s.len() && #[trigger] s[i].id@ == id && doomed(s[i], now);
            if i < t.len() {
                assert(t[i] == s[i]);
            }
        }
        if doomed(x, now) {
            let u = r.push(x);
            assert(u[r.len() as int] == x);
            if has_id(u, id) {
                let j = choose|j: int| 0 <= j < u.len() && u[j].id@ == id;
                if j < r.len() {
                    assert(r[j] == u[j]);
                }
            }
            if has_id(r, id) {
                let j = choose|j: int| 0 <= j < r.len() && r[j].id@ == id;
                assert(u[j] == r[j]);
            }
        } else {
            let y = swept(x, now);
            let u = k.push(y);
            assert(u[k.len() as int] == y);
            if has_id(u, id) {
                let j = choose|j: int| 0 <= j < u.len() && u[j].id@ == id;
                if j < k.len() {
                    assert(k[j] == u[j]);
                }
            }
            if has_id(k, id) {
                let j = choose|j: int| 0 <= j < k.len() && k[j].id@ == id;
                assert(u[j] == k[j]);
            }
        }
    }
}

/// Cleanup at `now` keeps a session exactly when it is neither idle nor
/// past its reconnect window, and removes it otherwise. So a session
/// disconnected since `since` survives every cleanup before `since` plus the
/// reconnect timeout, and the first cleanup at or after it removes it.
pub proof fn law_cleanup_per_session<Tx, Rx>(s: Seq<Session<Tx, Rx>>, id: Seq<char>, now: u64)
    requires
        ids_unique(s),
        has_id(s, id),
    ensures
        has_id(cleanup_kept(s, now), id) <==> !doomed(lookup(s, id)->0, now),
        has_id(cleanup_removed(s, now), id) <==> doomed(lookup(s, id)->0, now),
        lookup(s, id)->0.state matches SessionState::Disconnected { since } ==> (has_id(
            cleanup_kept(s, now),
            id,
        ) <==> elapsed(since, now) < RECONNECT_TIMEOUT_MS),
{
    lemma_kept_has_id(s, now, id);
    let p = position(s, id);
    let x = s[p];
    assert(lookup(s, id) == Some(x));
    assert forall|i: int| 0 <= i < s.len() && #[trigger] s[i].id@ == id implies i == p by {
        if i != p {
            assert(s[i].id@ != s[p].id@);
        }
    }
}

} // verus!
