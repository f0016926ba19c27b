//! Container configuration and the plain description of what the Docker
//! daemon is asked to do for a session.

use vstd::prelude::*;
use crate::api::{MAX_OUTPUT_BYTES, cut_point, truncated};
use crate::text::{byte_prefix, concat, decimal, decimal_text, owned, prefix_bytes};
use vstd::string::StringExecFns;
use vstd::utf8::{decode_utf8, encode_utf8, is_char_boundary, valid_utf8};

verus! {

// ── Environment variables ───────────────────────────────────────────────────

/// A view of an entry: its key and value as character sequences.
pub type EnvEntry = (Seq<char>, Seq<char>);

/// No key occurs twice.
pub open spec fn unique_keys(s: Seq<EnvEntry>) -> bool {
    forall|i: int, j: int| 0 <= i < s.len() && 0 <= j < s.len() && i != j ==> s[i].0 != s[j].0
}

/// Whether some entry has the key `k`.
pub open spec fn has_key(s: Seq<EnvEntry>, k: Seq<char>) -> bool {
    exists|i: int| 0 <= i < s.len() && s[i].0 == k
}

/// The entries after setting `k` to `v`: an entry with that key has its value
/// replaced in place, otherwise the pair is appended.
pub open spec fn env_insert(s: Seq<EnvEntry>, k: Seq<char>, v: Seq<char>) -> Seq<EnvEntry> {
    if has_key(s, k) {
        s.map_values(|e: EnvEntry| if e.0 == k { (k, v) } else { e })
    } else {
        s.push((k, v))
    }
}

/// The value that the entries give the key `k`.
pub open spec fn env_get(s: Seq<EnvEntry>, k: Seq<char>) -> Option<Seq<char>> {
    if has_key(s, k) {
        Some(s[choose|i: int| 0 <= i < s.len() && s[i].0 == k].1)
    } else {
        None
    }
}

/// Environment variables for a container: a map from names to values that
/// keeps the order in which names were first set.
pub struct EnvVars {
    entries: Vec<(String, String)>,
}

impl View for EnvVars {
    type V = Seq<EnvEntry>;

    closed spec fn view(&self) -> Seq<EnvEntry> {
        self.entries@.map_values(|e: (String, String)| (e.0@, e.1@))
    }
}

impl EnvVars {
    #[verifier::type_invariant]
    spec fn keys_are_unique(self) -> bool {
        unique_keys(self@)
    }

    /// No variables.
    pub fn new() -> (r: Self)
        ensures
            r@ == Seq::<EnvEntry>::empty(),
    {
        let r = EnvVars { entries: Vec::new() };
        assert(r@ =~= Seq::<EnvEntry>::empty());
        r
    }

    /// Every value of this type has unique keys.
    pub fn unique(&self)
        ensures
            unique_keys(self@),
    {
        proof {
            use_type_invariant(self);
        }
    }

    /// The number of variables.
    pub fn len(&self) -> (n: usize)
        ensures
            n == self@.len(),
    {
        self.entries.len()
    }

    /// The variable at position `i`, in the order in which names were first set.
    pub fn entry(&self, i: usize) -> (r: (&String, &String))
        requires
            i < self@.len(),
        ensures
            (r.0@, r.1@) == self@[i as int],
    {
        let e = &self.entries[i];
        (&e.0, &e.1)
    }

    /// Sets `key` to `value`, as `HashMap::insert` does.
    pub fn insert(&mut self, key: String, value: String)
        ensures
            final(self)@ == env_insert(old(self)@, key@, value@),
            unique_keys(final(self)@),
    {
        proof {
            use_type_invariant(&*self);
        }
        let ghost old_view = self@;
        let n = self.entries.len();
        let mut i: usize = 0;
        while i < n
            invariant
                n == self.entries.len(),
                i <= n,
                self@ == old_view,
                old_view == old(self)@,
                unique_keys(old_view),
                forall|j: int| 0 <= j < i ==> old_view[j].0 != key@,
            decreases n - i,
        {
            if self.entries[i].0 == key {
                let ghost k = key@;
                let ghost v = value@;
                assert(old_view[i as int].0 == k);
                let mut entries: Vec<(String, String)> = Vec::new();
                std::mem::swap(&mut entries, &mut self.entries);
                entries.set(i, (key, value));
                let ghost nv = entries@.map_values(|e: (String, String)| (e.0@, e.1@));
                assert(has_key(old_view, k));
                assert forall|j: int| 0 <= j < old_view.len() && j != i implies old_view[j].0
                    != k by {
                    assert(old_view[j].0 != old_view[i as int].0);
                }
                assert(nv =~= env_insert(old_view, k, v));
                assert(unique_keys(nv));
                self.entries = entries;
                assert(self@ == nv);
                return;
            }
            i = i + 1;
        }
        let ghost k = key@;
        let ghost v = value@;
        let mut entries: Vec<(String, String)> = Vec::new();
        std::mem::swap(&mut entries, &mut self.entries);
        entries.push((key, value));
        let ghost nv = entries@.map_values(|e: (String, String)| (e.0@, e.1@));
        assert(nv =~= old_view.push((k, v)));
        assert(!has_key(old_view, k));
        self.entries = entries;
        assert(self@ == nv);
    }

    /// The variables as key/value pairs, in order.
    pub fn to_pairs(&self) -> (r: Vec<(String, String)>)
        ensures
            pairs_view(r@) == self@,
    {
        let mut r: Vec<(String, String)> = Vec::new();
        let n = self.entries.len();
        let mut i: usize = 0;
        while i < n
            invariant
                n == self@.len(),
                n == self.entries@.len(),
                i <= n,
                pairs_view(r@) == self@.take(i as int),
            decreases n - i,
        {
            let k = self.entries[i].0.clone();
            let v = self.entries[i].1.clone();
            assert(self@[i as int] == (k@, v@));
            let ghost before = pairs_view(r@);
            r.push((k, v));
            assert(pairs_view(r@) =~= before.push((k@, v@)));
            assert(pairs_view(r@) =~= self@.take(i + 1));
            i = i + 1;
        }
        assert(self@.take(n as int) =~= self@);
        r
    }

    /// The value of `key`, if it is set.
    pub fn get(&self, key: &str) -> (r: Option<&String>)
        ensures
            match env_get(self@, key@) {
                Some(v) => r matches Some(s) && s@ == v,
                None => r is None,
            },
    {
        proof {
            use_type_invariant(self);
        }
        let wanted = owned(key);
        let n = self.entries.len();
        let mut i: usize = 0;
        while i < n
            invariant
                n == self.entries.len(),
                n == self@.len(),
                i <= n,
                wanted@ == key@,
                unique_keys(self@),
                forall|j: int| 0 <= j < i ==> self@[j].0 != key@,
            decreases n - i,
        {
            if self.entries[i].0 == wanted {
                assert(self@[i as int].0 == key@);
                let ghost c = choose|j: int| 0 <= j < self@.len() && self@[j].0 == key@;
                assert(c == i);
                return Some(&self.entries[i].1);
            }
            i = i + 1;
        }
        None
    }
}

// ── Container configuration ─────────────────────────────────────────────────

/// The views of a list of key/value pairs.
pub open spec fn pairs_view(v: Seq<(String, String)>) -> Seq<EnvEntry> {
    v.map_values(|e: (String, String)| (e.0@, e.1@))
}

/// The variables that setting each pair in turn gives, starting from none.
pub open spec fn env_from_pairs(s: Seq<EnvEntry>) -> Seq<EnvEntry>
    decreases s.len(),
{
    if s.len() == 0 {
        Seq::empty()
    } else {
        env_insert(env_from_pairs(s.drop_last()), s.last().0, s.last().1)
    }
}

/// The variables of a session request: its credentials, then `CAPSULE_AGENT`
/// and `CAPSULE_REPO` when the request names an agent or a repository.
pub open spec fn request_env(
    credentials: Seq<EnvEntry>,
    agent: Option<Seq<char>>,
    repo: Option<Seq<char>>,
) -> Seq<EnvEntry> {
    let base = env_from_pairs(credentials);
    let with_agent = match agent {
        Some(a) => env_insert(base, "CAPSULE_AGENT"@, a),
        None => base,
    };
    match repo {
        Some(r) => env_insert(with_agent, "CAPSULE_REPO"@, r),
        None => with_agent,
    }
}

/// The view of an optional string.
pub open spec fn opt_view(o: Option<String>) -> Option<Seq<char>> {
    match o {
        Some(s) => Some(s@),
        None => None,
    }
}

/// What a session's container is made from.
pub struct ContainerConfig {
    pub image: Option<String>,
    pub env_vars: EnvVars,
    pub enable_dind: bool,
}

impl Default for ContainerConfig {
    fn default() -> (r: Self)
        ensures
            r.image is None,
            r.env_vars@ == Seq::<EnvEntry>::empty(),
            !r.enable_dind,
    {
        ContainerConfig { image: None, env_vars: EnvVars::new(), enable_dind: false }
    }
}

impl ContainerConfig {
    /// The configuration that a session request asks for: the credentials
    /// become environment variables, the agent and repository are passed as
    /// `CAPSULE_AGENT` and `CAPSULE_REPO`, and Docker-in-Docker is off unless
    /// asked for.
    pub fn from_session_request(
        credentials: Option<Vec<(String, String)>>,
        agent: Option<String>,
        image: Option<String>,
        enable_dind: Option<bool>,
        repo: Option<String>,
    ) -> (r: Self)
        ensures
            r.image == image,
            r.enable_dind == (enable_dind == Some(true)),
            r.env_vars@ == request_env(
                match credentials {
                    Some(c) => pairs_view(c@),
                    None => Seq::empty(),
                },
                opt_view(agent),
                opt_view(repo),
            ),
    {
        let mut env_vars = EnvVars::new();
        if let Some(pairs) = credentials {
            let ghost all = pairs_view(pairs@);
            let n = pairs.len();
            let mut j: usize = 0;
            assert(all.take(0) =~= Seq::<EnvEntry>::empty());
            while j < n
                invariant
                    n == pairs@.len(),
                    all == pairs_view(pairs@),
                    j <= n,
                    env_vars@ == env_from_pairs(all.take(j as int)),
                decreases n - j,
            {
                let k = pairs[j].0.clone();
                let v = pairs[j].1.clone();
                env_vars.insert(k, v);
                assert(all.take(j + 1).drop_last() =~= all.take(j as int));
                j = j + 1;
            }
            assert(all.take(n as int) =~= all);
        }
        if let Some(a) = agent {
            env_vars.insert(owned("CAPSULE_AGENT"), a);
        }
        if let Some(r) = repo {
            env_vars.insert(owned("CAPSULE_REPO"), r);
        }
        let enable = match enable_dind {
            Some(b) => b,
            None => false,
        };
        ContainerConfig { image, env_vars, enable_dind: enable }
    }

    /// Whether a pre-started container may serve this configuration: only the
    /// default image without Docker-in-Docker.
    pub fn uses_default_container(&self) -> (b: bool)
        ensures
            b == (self.image is None && !self.enable_dind),
    {
        self.image.is_none() && !self.enable_dind
    }

    /// The repository to clone into the workspace, if `CAPSULE_REPO` is set.
    pub fn repo_to_seed(&self) -> (r: Option<String>)
        ensures
            opt_view(r) == env_get(self.env_vars@, "CAPSULE_REPO"@),
    {
        match self.env_vars.get("CAPSULE_REPO") {
            Some(v) => Some(v.clone()),
            None => None,
        }
    }

    /// Passes an Observal access token, and the URL at which the container
    /// reaches the Observal server, to the session.
    pub fn add_observal(&mut self, access_token: String, server_url: String)
        ensures
            final(self).image == old(self).image,
            final(self).enable_dind == old(self).enable_dind,
            final(self).env_vars@ == env_insert(
                env_insert(old(self).env_vars@, "OBSERVAL_TOKEN"@, access_token@),
                "OBSERVAL_SERVER_URL"@,
                server_url@,
            ),
    {
        self.env_vars.insert(owned("OBSERVAL_TOKEN"), access_token);
        self.env_vars.insert(owned("OBSERVAL_SERVER_URL"), server_url);
    }
}

// ── Creating a container ────────────────────────────────────────────────────

/// Memory limit of a session container: 4 GiB.
pub const MEMORY_LIMIT_BYTES: i64 = 4294967296;

/// CPU limit of a session container: 2 CPUs, in billionths.
pub const NANO_CPUS: i64 = 2000000000;

/// Process limit of a session container.
pub const PIDS_LIMIT: i64 = 256;

/// The image a session gets when it names none.
pub open spec fn default_image() -> Seq<char> {
    "capsule-runtime:latest"@
}

/// `KEY=VALUE` for an environment entry.
pub open spec fn env_assignment(e: EnvEntry) -> Seq<char> {
    e.0 + "="@ + e.1
}

/// The environment of a session container: terminal and locale settings,
/// then the configured variables in order.
pub open spec fn container_env(vars: Seq<EnvEntry>) -> Seq<Seq<char>> {
    seq!["TERM=xterm-256color"@, "LANG=C.UTF-8"@, "LC_ALL=C.UTF-8"@] + vars.map_values(
        |e: EnvEntry| env_assignment(e),
    )
}

/// The name of the container of a session: `capsule-` and the first eight
/// bytes of the session id.
pub open spec fn container_name(session_id: Seq<char>) -> Seq<char> {
    "capsule-"@ + byte_prefix(session_id, 8)
}

/// Whether the first eight bytes of an id can be cut off, as the container
/// name and the Observal user need; slicing panics otherwise.
pub open spec fn has_short_id(session_id: Seq<char>) -> bool {
    is_char_boundary(encode_utf8(session_id), 8)
}

/// Everything the Docker daemon is told when a session container is created.
pub struct ContainerSpec {
    pub name: String,
    pub image: String,
    pub hostname: String,
    pub tty: bool,
    pub open_stdin: bool,
    pub env: Vec<String>,
    pub working_dir: String,
    pub user: String,
    pub memory: i64,
    pub nano_cpus: i64,
    pub pids_limit: i64,
    pub network_mode: String,
    pub binds: Option<Vec<String>>,
    pub security_opt: Vec<String>,
}

/// `KEY=VALUE` for the given pair.
pub fn assignment(key: &String, value: &String) -> (r: String)
    ensures
        r@ == key@ + "="@ + value@,
{
    let k = concat(key.as_str(), "=");
    concat(k.as_str(), value.as_str())
}

/// The container that a session with this id and configuration gets.
pub fn container_spec(session_id: &str, config: &ContainerConfig) -> (r: ContainerSpec)
    requires
        has_short_id(session_id@),
    ensures
        r.name@ == container_name(session_id@),
        r.image@ == (match config.image {
            Some(i) => i@,
            None => default_image(),
        }),
        r.hostname@ == "capsule"@,
        r.tty,
        r.open_stdin,
        r.env.deep_view() == container_env(config.env_vars@),
        r.working_dir@ == "/workspace"@,
        r.user@ == "developer"@,
        r.memory == MEMORY_LIMIT_BYTES,
        r.nano_cpus == NANO_CPUS,
        r.pids_limit == PIDS_LIMIT,
        r.network_mode@ == "bridge"@,
        match r.binds {
            Some(b) => config.enable_dind && b.deep_view() == seq![
                "/var/run/docker.sock:/var/run/docker.sock"@,
            ],
            None => !config.enable_dind,
        },
        r.security_opt.deep_view() == seq!["no-new-privileges"@],
{
    let short = prefix_bytes(session_id, 8);
    let name = concat("capsule-", short.as_str());
    let image = match &config.image {
        Some(i) => i.clone(),
        None => owned("capsule-runtime:latest"),
    };
    let mut env: Vec<String> = Vec::new();
    env.push(owned("TERM=xterm-256color"));
    env.push(owned("LANG=C.UTF-8"));
    env.push(owned("LC_ALL=C.UTF-8"));
    let ghost base = seq!["TERM=xterm-256color"@, "LANG=C.UTF-8"@, "LC_ALL=C.UTF-8"@];
    assert(env.deep_view() =~= base);
    let vars = &config.env_vars;
    let n = vars.len();
    let mut i: usize = 0;
    while i < n
        invariant
            n == vars@.len(),
            i <= n,
            env.deep_view() == base + vars@.take(i as int).map_values(
                |e: EnvEntry| env_assignment(e),
            ),
        decreases n - i,
    {
        let (k, v) = vars.entry(i);
        let a = assignment(k, v);
        let ghost before = env.deep_view();
        env.push(a);
        assert(env.deep_view() =~= before.push(a@));
        assert(vars@.take(i + 1).map_values(|e: EnvEntry| env_assignment(e)) =~= vars@.take(
            i as int,
        ).map_values(|e: EnvEntry| env_assignment(e)).push(env_assignment(vars@[i as int])));
        i = i + 1;
    }
    assert(vars@.take(n as int) =~= vars@);
    let binds = if config.enable_dind {
        let mut b: Vec<String> = Vec::new();
        b.push(owned("/var/run/docker.sock:/var/run/docker.sock"));
        assert(b.deep_view() =~= seq!["/var/run/docker.sock:/var/run/docker.sock"@]);
        Some(b)
    } else {
        None
    };
    let mut security_opt: Vec<String> = Vec::new();
    security_opt.push(owned("no-new-privileges"));
    assert(security_opt.deep_view() =~= seq!["no-new-privileges"@]);
    ContainerSpec {
        name,
        image,
        hostname: owned("capsule"),
        tty: true,
        open_stdin: true,
        env,
        working_dir: owned("/workspace"),
        user: owned("developer"),
        memory: MEMORY_LIMIT_BYTES,
        nano_cpus: NANO_CPUS,
        pids_limit: PIDS_LIMIT,
        network_mode: owned("bridge"),
        binds,
        security_opt,
    }
}

// ── Running a command ───────────────────────────────────────────────────────

/// What a command run in a container printed, and how it exited.
pub struct ExecResult {
    pub exit_code: i64,
    pub stdout: String,
    pub stderr: String,
}

/// Everything the Docker daemon is told when a command is run in a container.
pub struct ExecSpec {
    pub cmd: Vec<String>,
    pub attach_stdout: bool,
    pub attach_stderr: bool,
    pub working_dir: String,
    pub user: String,
}

/// A command run in the workspace as the `developer` user, with both output
/// streams attached.
pub fn exec_spec(command: Vec<String>) -> (r: ExecSpec)
    ensures
        r.cmd@ == command@,
        r.attach_stdout,
        r.attach_stderr,
        r.working_dir@ == "/workspace"@,
        r.user@ == "developer"@,
{
    ExecSpec {
        cmd: command,
        attach_stdout: true,
        attach_stderr: true,
        working_dir: owned("/workspace"),
        user: owned("developer"),
    }
}

/// The stream a chunk of command output came on.
pub enum OutputStream {
    StdOut,
    StdErr,
    StdIn,
    Console,
}

/// What `String::from_utf8_lossy` makes of the bytes: their text, with each
/// invalid sequence replaced by U+FFFD.
pub uninterp spec fn utf8_lossy(bytes: Seq<u8>) -> Seq<char>;

/// `String::from_utf8_lossy`: the text of the bytes, which is exactly their
/// decoding when they are valid UTF-8 (as its documentation says); what an
/// invalid sequence becomes is left to the name `utf8_lossy`.
#[verifier::external_body]
pub(crate) fn text_lossy(bytes: &[u8]) -> (s: String)
    ensures
        s@ == utf8_lossy(bytes@),
        valid_utf8(bytes@) ==> s@ == decode_utf8(bytes@),
{
    String::from_utf8_lossy(bytes).into_owned()
}

/// The text of bytes (a chunk of output, a page): their decoding when they
/// are valid UTF-8, and otherwise what `String::from_utf8_lossy` makes of
/// them.
pub open spec fn chunk_text(bytes: Seq<u8>) -> Seq<char> {
    if valid_utf8(bytes) {
        decode_utf8(bytes)
    } else {
        utf8_lossy(bytes)
    }
}

/// Collected output after one more chunk: once more than `MAX_OUTPUT_BYTES`
/// bytes are held, which is all a reply carries, later chunks are dropped.
pub open spec fn collected(held: Seq<char>, chunk: Seq<u8>) -> Seq<char> {
    if encode_utf8(held).len() > MAX_OUTPUT_BYTES {
        held
    } else {
        held + chunk_text(chunk)
    }
}

/// The output of a command, collected chunk by chunk; when `capped`, each
/// stream stops growing once it holds more than a reply carries.
pub struct ExecOutput {
    pub stdout: String,
    pub stderr: String,
    pub capped: bool,
}

/// The number of bytes of a string's UTF-8 encoding.
fn byte_len(s: &String) -> (n: usize)
    ensures
        n == encode_utf8(s@).len(),
{
    s.as_str().as_bytes().len()
}

impl ExecOutput {
    /// Nothing collected yet. Output whose reply is cut at
    /// `MAX_OUTPUT_BYTES` is collected `capped`; output that is read whole,
    /// such as a directory listing, is not.
    pub fn new(capped: bool) -> (r: Self)
        ensures
            r.stdout@ == Seq::<char>::empty(),
            r.stderr@ == Seq::<char>::empty(),
            r.capped == capped,
    {
        ExecOutput { stdout: String::new(), stderr: String::new(), capped }
    }

    /// Adds a chunk: standard output and standard error each collect the text
    /// of their chunks, valid UTF-8 exactly; when capped, only until they
    /// hold more than `MAX_OUTPUT_BYTES` bytes, so that what is held never
    /// exceeds the limit by more than one chunk. Other streams are dropped.
    pub fn record(&mut self, stream: OutputStream, message: &[u8])
        ensures
            final(self).capped == old(self).capped,
            final(self).stdout@ == (match stream {
                OutputStream::StdOut => if old(self).capped {
                    collected(old(self).stdout@, message@)
                } else {
                    old(self).stdout@ + chunk_text(message@)
                },
                _ => old(self).stdout@,
            }),
            final(self).stderr@ == (match stream {
                OutputStream::StdErr => if old(self).capped {
                    collected(old(self).stderr@, message@)
                } else {
                    old(self).stderr@ + chunk_text(message@)
                },
                _ => old(self).stderr@,
            }),
            old(self).capped && encode_utf8(old(self).stdout@).len() <= MAX_OUTPUT_BYTES ==> encode_utf8(
                final(self).stdout@,
            ).len() <= MAX_OUTPUT_BYTES + encode_utf8(chunk_text(message@)).len(),
            old(self).capped && encode_utf8(old(self).stderr@).len() <= MAX_OUTPUT_BYTES ==> encode_utf8(
                final(self).stderr@,
            ).len() <= MAX_OUTPUT_BYTES + encode_utf8(chunk_text(message@)).len(),
    {
        proof {
            crate::text::lemma_encode_utf8_concat(self.stdout@, chunk_text(message@));
            crate::text::lemma_encode_utf8_concat(self.stderr@, chunk_text(message@));
        }
        match stream {
            OutputStream::StdOut => {
                if !self.capped || byte_len(&self.stdout) <= MAX_OUTPUT_BYTES {
                    let t = text_lossy(message);
                    self.stdout.append(t.as_str());
                }
            },
            OutputStream::StdErr => {
                if !self.capped || byte_len(&self.stderr) <= MAX_OUTPUT_BYTES {
                    let t = text_lossy(message);
                    self.stderr.append(t.as_str());
                }
            },
            _ => {},
        }
    }

    /// The result of the command, given the exit code the daemon reports;
    /// an unknown exit code is `-1`.
    pub fn finish(self, exit_code: Option<i64>) -> (r: ExecResult)
        ensures
            r.exit_code == (match exit_code {
                Some(c) => c,
                None => -1i64,
            }),
            r.stdout@ == self.stdout@,
            r.stderr@ == self.stderr@,
    {
        let code = match exit_code {
            Some(c) => c,
            None => -1,
        };
        ExecResult { exit_code: code, stdout: self.stdout, stderr: self.stderr }
    }
}

// ── Errors ──────────────────────────────────────────────────────────────────

/// A whole number of seconds as `Duration`'s `Debug` prints it: `0ns` for
/// zero, otherwise the number and `s`.
pub open spec fn duration_text(secs: u64) -> Seq<char> {
    if secs == 0 {
        "0ns"@
    } else {
        decimal(secs as nat) + "s"@
    }
}

/// What went wrong talking to the Docker daemon.
pub enum DockerError {
    /// The daemon or its client failed; the text is the client's message.
    Bollard(String),
    NotFound(String),
    /// A command ran longer than its timeout, in seconds.
    ExecTimeout(u64),
}

impl DockerError {
    /// The text of the error.
    pub open spec fn text(&self) -> Seq<char> {
        match self {
            DockerError::Bollard(m) => "Docker error: "@ + m@,
            DockerError::NotFound(id) => "Container not found: "@ + id@,
            DockerError::ExecTimeout(secs) => "Exec timed out after "@ + duration_text(*secs),
        }
    }

    /// The text of the error, as it is reported to clients.
    pub fn message(&self) -> (r: String)
        ensures
            r@ == self.text(),
    {
        match self {
            DockerError::Bollard(m) => concat("Docker error: ", m.as_str()),
            DockerError::NotFound(id) => concat("Container not found: ", id.as_str()),
            DockerError::ExecTimeout(secs) => {
                let d = if *secs == 0 {
                    owned("0ns")
                } else {
                    let n = decimal_text(*secs);
                    concat(n.as_str(), "s")
                };
                concat("Exec timed out after ", d.as_str())
            },
        }
    }
}

/// The text of all the chunks of a stream, in order.
pub open spec fn all_text(chunks: Seq<Seq<u8>>) -> Seq<char>
    decreases chunks.len(),
{
    if chunks.len() == 0 {
        Seq::empty()
    } else {
        all_text(chunks.drop_last()) + chunk_text(chunks.last())
    }
}

/// What a capped `ExecOutput` holds of a stream after the chunks, in order.
pub open spec fn collect_all(chunks: Seq<Seq<u8>>) -> Seq<char>
    decreases chunks.len(),
{
    if chunks.len() == 0 {
        Seq::empty()
    } else {
        collected(collect_all(chunks.drop_last()), chunks.last())
    }
}

/// What is held is the start of the whole text, and all of it unless more
/// than `MAX_OUTPUT_BYTES` bytes are held.
proof fn lemma_collect_prefix(chunks: Seq<Seq<u8>>)
    ensures
        collect_all(chunks).len() <= all_text(chunks).len(),
        collect_all(chunks) == all_text(chunks).take(collect_all(chunks).len() as int),
        collect_all(chunks) != all_text(chunks) ==> encode_utf8(collect_all(chunks)).len()
            > MAX_OUTPUT_BYTES,
    decreases chunks.len(),
{
    if chunks.len() > 0 {
        let init = chunks.drop_last();
        lemma_collect_prefix(init);
        let h = collect_all(init);
        let f = all_text(init);
        let c = chunk_text(chunks.last());
        assert((f + c).take(h.len() as int) =~= f.take(h.len() as int));
        if encode_utf8(h).len() <= MAX_OUTPUT_BYTES {
            assert(h == f);
        }
    } else {
        assert(Seq::<char>::empty().take(0) =~= Seq::<char>::empty());
    }
}

/// Below the end of `b1`, a position is a character boundary of `b1 + b2`
/// exactly when it is one of `b1`; so the cut of a reply does not look past
/// `b1`.
proof fn lemma_cut_point_prefix(b1: Seq<u8>, b2: Seq<u8>, k: nat)
    requires
        valid_utf8(b1),
        valid_utf8(b2),
        k < b1.len(),
    ensures
        cut_point(b1 + b2, k) == cut_point(b1, k),
    decreases k,
{
    broadcast use vstd::utf8::group_utf8_lib;

    let b = b1 + b2;
    assert(valid_utf8(b));
    if k > 0 {
        assert(b[k as int] == b1[k as int]);
        assert(vstd::utf8::is_continuation_byte(b[k as int]) == vstd::utf8::is_continuation_byte(
            b1[k as int],
        ));
        assert(is_char_boundary(b, k as int) == is_char_boundary(b1, k as int));
        lemma_cut_point_prefix(b1, b2, (k - 1) as nat);
    }
}

/// Once more than `MAX_OUTPUT_BYTES` bytes are held, what follows does not
/// change the reply.
pub proof fn lemma_truncated_prefix(kept: Seq<char>, rest: Seq<char>)
    requires
        encode_utf8(kept).len() > MAX_OUTPUT_BYTES,
    ensures
        truncated(kept + rest) == truncated(kept),
{
    broadcast use vstd::utf8::group_utf8_lib;

    let b1 = encode_utf8(kept);
    let b2 = encode_utf8(rest);
    crate::text::lemma_encode_utf8_concat(kept, rest);
    let b = encode_utf8(kept + rest);
    assert(b == b1 + b2);
    lemma_cut_point_prefix(b1, b2, MAX_OUTPUT_BYTES as nat);
    crate::api::lemma_cut_point(b1, MAX_OUTPUT_BYTES as nat);
    let c = cut_point(b1, MAX_OUTPUT_BYTES as nat);
    assert(b.take(c as int) =~= b1.take(c as int));
}

/// Dropping output past the limit while collecting gives the same reply as
/// collecting everything: the reply carries at most `MAX_OUTPUT_BYTES` bytes
/// of each stream, and what is held is the whole text up to past that.
pub proof fn law_capped_output_gives_the_same_reply(chunks: Seq<Seq<u8>>)
    ensures
        truncated(collect_all(chunks)) == truncated(all_text(chunks)),
{
    lemma_collect_prefix(chunks);
    let h = collect_all(chunks);
    let f = all_text(chunks);
    if h != f {
        assert(f =~= h + f.skip(h.len() as int));
        lemma_truncated_prefix(h, f.skip(h.len() as int));
    }
}

/// Reading a variable gives back what was last set for it, and setting one
/// variable leaves the others as they were.
pub proof fn law_env_insert_then_get(s: Seq<EnvEntry>, k: Seq<char>, v: Seq<char>, other: Seq<char>)
    requires
        unique_keys(s),
        other != k,
    ensures
        unique_keys(env_insert(s, k, v)),
        env_get(env_insert(s, k, v), k) == Some(v),
        env_get(env_insert(s, k, v), other) == env_get(s, other),
{
    let t = env_insert(s, k, v);
    if has_key(s, k) {
        assert(t.len() == s.len());
        assert forall|i: int| 0 <= i < s.len() implies #[trigger] t[i].0 == s[i].0 by {
        }
        assert(unique_keys(t));
        let i = choose|i: int| 0 <= i < s.len() && s[i].0 == k;
        assert(t[i] == (k, v));
        assert(has_key(t, k));
        let c = choose|j: int| 0 <= j < t.len() && t[j].0 == k;
        assert(c == i);
        if has_key(s, other) {
            let j = choose|j: int| 0 <= j < s.len() && s[j].0 == other;
            assert(t[j] == s[j]);
            assert(has_key(t, other));
            let cj = choose|j2: int| 0 <= j2 < t.len() && t[j2].0 == other;
            assert(cj == j);
        } else {
            assert forall|j: int| 0 <= j < t.len() implies t[j].0 != other by {
                assert(t[j].0 == s[j].0);
            }
        }
    } else {
        assert(unique_keys(t)) by {
            assert forall|a: int, b: int|
                0 <= a < t.len() && 0 <= b < t.len() && a != b implies t[a].0 != t[b].0 by {
                if a == s.len() {
                    assert(s[b].0 != k);
                } else if b == s.len() {
                    assert(s[a].0 != k);
                }
            }
        }
        assert(t[s.len() as int] == (k, v));
        assert(has_key(t, k));
        let c = choose|j: int| 0 <= j < t.len() && t[j].0 == k;
        assert(c == s.len());
        if has_key(s, other) {
            let j = choose|j: int| 0 <= j < s.len() && s[j].0 == other;
            assert(t[j] == s[j]);
            let cj = choose|j2: int| 0 <= j2 < t.len() && t[j2].0 == other;
            assert(cj == j);
        } else {
            assert forall|j: int| 0 <= j < t.len() implies t[j].0 != other by {
                if j < s.len() {
                    assert(t[j] == s[j]);
                }
            }
        }
    }
}

/// After setting `k`, the keys present are the earlier ones and `k`.
proof fn lemma_env_insert_has_key(s: Seq<EnvEntry>, k: Seq<char>, v: Seq<char>, x: Seq<char>)
    ensures
        has_key(env_insert(s, k, v), x) <==> (has_key(s, x) || x == k),
{
    let t = env_insert(s, k, v);
    if has_key(s, k) {
        assert forall|i: int| 0 <= i < s.len() implies #[trigger] t[i].0 == s[i].0 by {}
        if has_key(s, x) {
            let j = choose|j: int| 0 <= j < s.len() && s[j].0 == x;
            assert(t[j].0 == x);
        }
        if x == k {
            let j = choose|j: int| 0 <= j < s.len() && s[j].0 == k;
            assert(t[j].0 == x);
        }
        if has_key(t, x) {
            let j = choose|j: int| 0 <= j < t.len() && t[j].0 == x;
            assert(s[j].0 == x);
        }
    } else {
        assert(t[s.len() as int].0 == k);
        if has_key(s, x) {
            let j = choose|j: int| 0 <= j < s.len() && s[j].0 == x;
            assert(t[j] == s[j]);
        }
        if has_key(t, x) {
            let j = choose|j: int| 0 <= j < t.len() && t[j].0 == x;
            if j < s.len() {
                assert(t[j] == s[j]);
            }
        }
    }
}

/// Every credential of a request becomes a variable: the variables have
/// exactly the credentials' keys, each once, and each key holds the value of
/// the last credential with that key.
pub proof fn law_every_credential_is_set(creds: Seq<EnvEntry>)
    ensures
        unique_keys(env_from_pairs(creds)),
        forall|k: Seq<char>| #[trigger] has_key(env_from_pairs(creds), k) <==> has_key(creds, k),
        forall|i: int|
            0 <= i < creds.len() && (forall|j: int| i < j < creds.len() ==> creds[j].0 != creds[i].0)
                ==> env_get(env_from_pairs(creds), #[trigger] creds[i].0) == Some(creds[i].1),
    decreases creds.len(),
{
    if creds.len() > 0 {
        let init = creds.drop_last();
        law_every_credential_is_set(init);
        let e = env_from_pairs(init);
        let (lk, lv) = creds.last();
        assert(lk.push('x').len() != lk.len());
        law_env_insert_then_get(e, lk, lv, lk.push('x'));
        assert forall|k: Seq<char>| #[trigger] has_key(env_from_pairs(creds), k) <==> has_key(creds, k) by {
            lemma_env_insert_has_key(e, lk, lv, k);
            if has_key(init, k) {
                let j = choose|j: int| 0 <= j < init.len() && init[j].0 == k;
                assert(creds[j] == init[j]);
            }
            if k == lk {
                assert(creds[creds.len() - 1].0 == k);
            }
            if has_key(creds, k) {
                let j = choose|j: int| 0 <= j < creds.len() && creds[j].0 == k;
                if j < init.len() {
                    assert(init[j] == creds[j]);
                }
            }
        }
        assert forall|i: int|
            0 <= i < creds.len() && (forall|j: int| i < j < creds.len() ==> creds[j].0 != creds[i].0)
                implies env_get(env_from_pairs(creds), #[trigger] creds[i].0) == Some(creds[i].1) by {
            if i < init.len() {
                assert(creds[i] == init[i]);
                assert(creds[creds.len() - 1].0 != creds[i].0);
                assert forall|j: int| i < j < init.len() implies init[j].0 != init[i].0 by {
                    assert(init[j] == creds[j]);
                }
                assert(env_get(e, init[i].0) == Some(init[i].1));
                law_env_insert_then_get(e, lk, lv, creds[i].0);
            }
        }
    }
}

/// A session request's variables: each credential key keeps its value
/// unless it is `CAPSULE_AGENT` or `CAPSULE_REPO` and the request names an
/// agent or repository, which then set those keys.
pub proof fn law_request_env_keeps_credentials(
    creds: Seq<EnvEntry>,
    agent: Option<Seq<char>>,
    repo: Option<Seq<char>>,
    k: Seq<char>,
)
    requires
        k != "CAPSULE_AGENT"@,
        k != "CAPSULE_REPO"@,
    ensures
        unique_keys(request_env(creds, agent, repo)),
        env_get(request_env(creds, agent, repo), k) == env_get(env_from_pairs(creds), k),
        repo matches Some(r) ==> env_get(request_env(creds, agent, repo), "CAPSULE_REPO"@) == Some(r),
        agent matches Some(a) ==> env_get(request_env(creds, agent, repo), "CAPSULE_AGENT"@) == Some(a),
{
    reveal_strlit("CAPSULE_AGENT");
    reveal_strlit("CAPSULE_REPO");
    law_every_credential_is_set(creds);
    let base = env_from_pairs(creds);
    let with_agent = match agent {
        Some(a) => env_insert(base, "CAPSULE_AGENT"@, a),
        None => base,
    };
    match agent {
        Some(a) => {
            law_env_insert_then_get(base, "CAPSULE_AGENT"@, a, k);
        },
        None => {},
    }
    match repo {
        Some(r) => {
            law_env_insert_then_get(with_agent, "CAPSULE_REPO"@, r, k);
            match agent {
                Some(a) => {
                    assert("CAPSULE_AGENT"@ != "CAPSULE_REPO"@) by {
                        assert("CAPSULE_AGENT"@[8] != "CAPSULE_REPO"@[8]);
                    }
                    law_env_insert_then_get(with_agent, "CAPSULE_REPO"@, r, "CAPSULE_AGENT"@);
                },
                None => {},
            }
        },
        None => {},
    }
}

/// A session container's environment is the terminal and locale settings,
/// then one `KEY=VALUE` for each configured variable, in order.
pub proof fn law_container_env_holds_every_variable(vars: Seq<EnvEntry>)
    ensures
        container_env(vars).len() == 3 + vars.len(),
        container_env(vars)[0] == "TERM=xterm-256color"@,
        container_env(vars)[1] == "LANG=C.UTF-8"@,
        container_env(vars)[2] == "LC_ALL=C.UTF-8"@,
        forall|i: int| 0 <= i < vars.len() ==> #[trigger] container_env(vars)[3 + i] == vars[i].0 + "="@ + vars[i].1,
{
}

} // verus!
