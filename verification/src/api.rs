//! The REST API: authentication, the commands each endpoint runs in a
//! session's container, and the reply each outcome is given.

use vstd::prelude::*;
use base64::Engine;
use vstd::string::{StringExecFns, StringSliceAdditionalSpecFns};
use vstd::utf8::{decode_utf8, encode_utf8, is_char_boundary};
use crate::docker::{ContainerConfig, EnvEntry, ExecResult, opt_view, pairs_view, request_env};
use crate::session::{Session, SessionError, SessionKind, SessionState, elapsed, elapsed_ms};
use crate::text::{
    index_of, lemma_index_of, starts_with,
    chars_of, concat, decimal, lemma_split_char_nonempty, lemma_split_char_step, owned, parse_u64,
    parse_u64_chars, replace_all, replace_text, splitn, splitn_chars, split_char, string_of,
    strip_prefix, strip_prefix_text,
};

verus! {

/// HTTP status codes the API answers with.
pub const OK: u16 = 200;
pub const CREATED: u16 = 201;
pub const NO_CONTENT: u16 = 204;
pub const BAD_REQUEST: u16 = 400;
pub const UNAUTHORIZED: u16 = 401;
pub const NOT_FOUND: u16 = 404;
pub const INTERNAL_SERVER_ERROR: u16 = 500;

/// The longest command output a reply carries, in bytes (1 MiB).
pub const MAX_OUTPUT_BYTES: usize = 1048576;

/// The longest timeout a command may ask for, in seconds.
pub const MAX_EXEC_TIMEOUT: u64 = 300;

/// The timeout of a command that asks for none, in seconds.
pub const DEFAULT_EXEC_TIMEOUT: u64 = 60;

// ── Request and response types ──────────────────────────────────────────────

pub struct CreateSessionRequest {
    pub credentials: Option<Vec<(String, String)>>,
    pub agent: Option<String>,
    pub image: Option<String>,
    pub enable_dind: Option<bool>,
    pub repo: Option<String>,
}

pub struct CreateSessionResponse {
    pub session_id: String,
    pub state: String,
}

pub struct ExecRequest {
    pub command: Vec<String>,
    pub timeout: Option<u64>,
}

pub struct ExecResponse {
    pub exit_code: i64,
    pub stdout: String,
    pub stderr: String,
}

pub struct SessionStatusResponse {
    pub session_id: String,
    pub state: String,
    pub kind: String,
    pub uptime_seconds: u64,
}

pub struct FileQuery {
    pub path: Option<String>,
}

pub struct FileEntry {
    pub name: String,
    pub path: String,
    /// `"f"` for a file, `"d"` for a directory.
    pub file_type: String,
    pub size: u64,
}

/// What a directory listing says of one entry.
pub struct FileEntryView {
    pub name: Seq<char>,
    pub path: Seq<char>,
    pub file_type: Seq<char>,
    pub size: u64,
}

impl View for FileEntry {
    type V = FileEntryView;

    open spec fn view(&self) -> FileEntryView {
        FileEntryView {
            name: self.name@,
            path: self.path@,
            file_type: self.file_type@,
            size: self.size,
        }
    }
}

/// The body of a reply.
pub enum ReplyBody {
    Empty,
    Text(String),
    Created(CreateSessionResponse),
    Status(SessionStatusResponse),
    Exec(ExecResponse),
    Files(Vec<FileEntry>),
}

/// A reply: its HTTP status and its body.
pub struct Reply {
    pub status: u16,
    pub body: ReplyBody,
}

/// A reply with no body.
fn status_only(status: u16) -> (r: Reply)
    ensures
        r.status == status,
        r.body is Empty,
{
    Reply { status, body: ReplyBody::Empty }
}

/// A reply with a text body.
pub(crate) fn text_reply(status: u16, text: String) -> (r: Reply)
    ensures
        r.status == status,
        r.body matches ReplyBody::Text(t) && t@ == text@,
{
    Reply { status, body: ReplyBody::Text(text) }
}

/// Whether `r` has this status and this text body.
pub open spec fn is_text_reply(r: Reply, status: u16, text: Seq<char>) -> bool {
    &&& r.status == status
    &&& r.body matches ReplyBody::Text(t) && t@ == text
}

/// Whether `r` has this status and no body.
pub open spec fn is_empty_reply(r: Reply, status: u16) -> bool {
    &&& r.status == status
    &&& r.body is Empty
}

// ── Authentication ──────────────────────────────────────────────────────────

/// Whether a request may pass: every request when no token is configured,
/// otherwise exactly those whose `Authorization` header is `Bearer ` followed
/// by the token.
pub open spec fn authorized(required: Option<Seq<char>>, authorization: Option<Seq<char>>) -> bool {
    match required {
        None => true,
        Some(t) => authorization matches Some(h) && strip_prefix(h, "Bearer "@) == Some(t),
    }
}

/// Checks a request's `Authorization` header (its value when present and
/// visible ASCII) against the configured token.
pub fn check_auth(required_token: &Option<String>, authorization: Option<&str>) -> (r: Result<(), u16>)
    ensures
        r == (if authorized(opt_view(*required_token), match authorization {
            Some(h) => Some(h@),
            None => None,
        }) {
            Ok::<(), u16>(())
        } else {
            Err(UNAUTHORIZED)
        }),
{
    let required = match required_token {
        None => return Ok(()),
        Some(t) => t,
    };
    let header = match authorization {
        Some(h) => h,
        None => return Err(UNAUTHORIZED),
    };
    match strip_prefix_text(header, "Bearer ") {
        Some(t) => {
            if t == *required {
                Ok(())
            } else {
                Err(UNAUTHORIZED)
            }
        },
        None => Err(UNAUTHORIZED),
    }
}

// ── Output truncation ───────────────────────────────────────────────────────

/// The notice appended to truncated output.
pub open spec fn truncation_notice() -> Seq<char> {
    "\n... [output truncated at 1MB]"@
}

/// The largest character boundary of the bytes `b` at or below `k`.
pub open spec fn cut_point(b: Seq<u8>, k: nat) -> nat
    decreases k,
{
    if k == 0 || is_char_boundary(b, k as int) {
        k
    } else {
        cut_point(b, (k - 1) as nat)
    }
}

/// Output as a reply carries it: unchanged up to `MAX_OUTPUT_BYTES` bytes,
/// otherwise cut at the last character boundary within its first
/// `MAX_OUTPUT_BYTES` bytes and followed by the notice.
pub open spec fn truncated(s: Seq<char>) -> Seq<char> {
    let b = encode_utf8(s);
    if b.len() <= MAX_OUTPUT_BYTES {
        s
    } else {
        decode_utf8(b.take(cut_point(b, MAX_OUTPUT_BYTES as nat) as int)) + truncation_notice()
    }
}

/// `cut_point` is a character boundary at or below `k`, and no boundary lies
/// between it and `k`.
pub proof fn lemma_cut_point(b: Seq<u8>, k: nat)
    requires
        vstd::utf8::valid_utf8(b),
    ensures
        cut_point(b, k) <= k,
        is_char_boundary(b, cut_point(b, k) as int),
        forall|j: int| cut_point(b, k) < j <= k ==> !is_char_boundary(b, j),
    decreases k,
{
    broadcast use vstd::utf8::group_utf8_lib;

    if k > 0 && !is_char_boundary(b, k as int) {
        lemma_cut_point(b, (k - 1) as nat);
    }
    assert(is_char_boundary(b, 0));
}

/// Output as a reply carries it.
pub fn truncate_output(s: String) -> (r: String)
    ensures
        r@ == truncated(s@),
        encode_utf8(s@).len() > MAX_OUTPUT_BYTES ==> encode_utf8(r@) == encode_utf8(s@).take(
            cut_point(encode_utf8(s@), MAX_OUTPUT_BYTES as nat) as int,
        ) + encode_utf8(truncation_notice()),
{
    broadcast use vstd::utf8::group_utf8_lib;

    let n = s.as_str().as_bytes().len();
    let ghost b = encode_utf8(s@);
    assert(n == b.len());
    if n > MAX_OUTPUT_BYTES {
        let mut k: usize = MAX_OUTPUT_BYTES;
        while k > 0 && !s.as_str().is_char_boundary(k)
            invariant
                k <= MAX_OUTPUT_BYTES,
                b == encode_utf8(s@),
                cut_point(b, MAX_OUTPUT_BYTES as nat) == cut_point(b, k as nat),
            decreases k,
        {
            k = k - 1;
        }
        assert(cut_point(b, k as nat) == k);
        assert(is_char_boundary(b, k as int)) by {
            assert(vstd::utf8::valid_utf8(b));
            assert(is_char_boundary(b, 0));
        }
        let mut t = crate::text::prefix_bytes(s.as_str(), k);
        let ghost head = t@;
        t.append("\n... [output truncated at 1MB]");
        proof {
            crate::text::lemma_encode_utf8_concat(head, truncation_notice());
        }
        t
    } else {
        s
    }
}

// ── Directory listings ──────────────────────────────────────────────────────

/// `l` without one trailing carriage return.
pub open spec fn strip_cr(l: Seq<char>) -> Seq<char> {
    if l.len() > 0 && l.last() == '\r' {
        l.drop_last()
    } else {
        l
    }
}

/// Each line without one trailing carriage return.
pub open spec fn strip_cr_all(ls: Seq<Seq<char>>) -> Seq<Seq<char>> {
    ls.map_values(|l: Seq<char>| strip_cr(l))
}

/// The lines of `s`, as `str::lines` yields them: split at `\n`, a `\r`
/// before a `\n` dropped, and no empty line after a final `\n`.
pub open spec fn lines(s: Seq<char>) -> Seq<Seq<char>> {
    let parts = split_char(s, '\n');
    let done = strip_cr_all(parts.drop_last());
    if parts.last().len() == 0 {
        done
    } else {
        done.push(parts.last())
    }
}

/// What a line of `find -printf '%f\t%y\t%s\t%p\n'` says of an entry: its
/// name, type (`"d"` for a directory, `"f"` for anything else), size (0 when
/// it is not a number) and path; `None` for a line with fewer than four
/// tab-separated fields.
pub open spec fn entry_of_line(line: Seq<char>) -> Option<FileEntryView> {
    let parts = splitn(line, 4, '\t');
    if parts.len() < 4 {
        None
    } else {
        Some(
            FileEntryView {
                name: parts[0],
                file_type: if parts[1] == seq!['d'] {
                    seq!['d']
                } else {
                    seq!['f']
                },
                size: match parse_u64(parts[2]) {
                    Some(n) => n,
                    None => 0,
                },
                path: parts[3],
            },
        )
    }
}

/// The entries of the lines that describe one, in order.
pub open spec fn entries_of(ls: Seq<Seq<char>>) -> Seq<FileEntryView>
    decreases ls.len(),
{
    if ls.len() == 0 {
        Seq::empty()
    } else {
        match entry_of_line(ls.last()) {
            Some(e) => entries_of(ls.drop_last()).push(e),
            None => entries_of(ls.drop_last()),
        }
    }
}

/// The entries a directory listing describes.
pub open spec fn file_entries(stdout: Seq<char>) -> Seq<FileEntryView> {
    entries_of(lines(stdout))
}

/// The views of a list of entries.
pub open spec fn entries_view(es: Seq<FileEntry>) -> Seq<FileEntryView> {
    es.map_values(|e: FileEntry| e@)
}

/// The entry a line of the listing describes, if any.
pub fn parse_entry_line(line: &Vec<char>) -> (r: Option<FileEntry>)
    ensures
        match entry_of_line(line@) {
            Some(e) => r matches Some(x) && x@ == e,
            None => r is None,
        },
{
    let parts = splitn_chars(line, 4, '\t');
    let ghost ps = splitn(line@, 4, '\t');
    if parts.len() < 4 {
        return None;
    }
    assert(parts[0].deep_view() =~= parts[0]@);
    assert(parts[1].deep_view() =~= parts[1]@);
    assert(parts[2].deep_view() =~= parts[2]@);
    assert(parts[3].deep_view() =~= parts[3]@);
    assert(ps[0] == parts[0]@ && ps[1] == parts[1]@ && ps[2] == parts[2]@ && ps[3] == parts[3]@);
    let is_dir = parts[1].len() == 1 && parts[1][0] == 'd';
    assert(is_dir == (ps[1] == seq!['d'])) by {
        if parts[1].len() == 1 && parts[1][0] == 'd' {
            assert(ps[1] =~= seq!['d']);
        }
    }
    let file_type = if is_dir {
        owned("d")
    } else {
        owned("f")
    };
    proof {
        reveal_strlit("d");
        reveal_strlit("f");
    }
    assert(file_type@ =~= (if is_dir {
        seq!['d']
    } else {
        seq!['f']
    }));
    let size = match parse_u64_chars(&parts[2]) {
        Some(n) => n,
        None => 0,
    };
    Some(
        FileEntry {
            name: string_of(&parts[0]),
            path: string_of(&parts[3]),
            file_type,
            size,
        },
    )
}

/// The entries that `find` printed for a directory listing.
pub fn parse_file_entries(stdout: &str) -> (r: Vec<FileEntry>)
    ensures
        entries_view(r@) == file_entries(stdout@),
{
    let v = chars_of(stdout);
    let mut out: Vec<FileEntry> = Vec::new();
    let mut cur: Vec<char> = Vec::new();
    let n = v.len();
    let mut i: usize = 0;
    proof {
        lemma_split_char_nonempty(v@.take(0), '\n');
        assert(v@.take(0) =~= Seq::<char>::empty());
        assert(strip_cr_all(split_char(v@.take(0), '\n').drop_last()) =~= Seq::<Seq<char>>::empty());
        assert(entries_view(out@) =~= Seq::<FileEntryView>::empty());
    }
    while i < n
        invariant
            n == v@.len(),
            v@ == stdout@,
            i <= n,
            split_char(v@.take(i as int), '\n').len() >= 1,
            cur@ == split_char(v@.take(i as int), '\n').last(),
            entries_view(out@) == entries_of(strip_cr_all(split_char(v@.take(i as int), '\n').drop_last())),
        decreases n - i,
    {
        let ghost parts = split_char(v@.take(i as int), '\n');
        proof {
            lemma_split_char_step(v@, i as int, '\n');
            lemma_split_char_nonempty(v@.take(i + 1), '\n');
        }
        if v[i] == '\n' {
            let ghost done = strip_cr_all(parts.drop_last());
            assert(split_char(v@.take(i + 1), '\n').drop_last() =~= parts);
            assert(parts.drop_last().push(parts.last()) =~= parts);
            if cur.len() > 0 && cur[cur.len() - 1] == '\r' {
                cur.pop();
            }
            assert(cur@ == strip_cr(parts.last()));
            assert(strip_cr_all(parts) =~= done.push(cur@));
            assert(done.push(cur@).drop_last() =~= done);
            let ghost before = entries_view(out@);
            match parse_entry_line(&cur) {
                Some(e) => {
                    out.push(e);
                    assert(entries_view(out@) =~= before.push(e@));
                },
                None => {},
            }
            cur = Vec::new();
            assert(cur@ =~= Seq::<char>::empty());
        } else {
            let ghost before_cur = cur@;
            cur.push(v[i]);
            assert(parts.update(parts.len() - 1, parts.last().push(v@[i as int])).drop_last() =~= parts.drop_last());
            assert(cur@ =~= before_cur.push(v@[i as int]));
        }
        i = i + 1;
    }
    let ghost parts = split_char(v@.take(n as int), '\n');
    assert(v@.take(n as int) =~= v@);
    let ghost done = strip_cr_all(parts.drop_last());
    if cur.len() > 0 {
        let ghost before = entries_view(out@);
        assert(done.push(cur@).drop_last() =~= done);
        match parse_entry_line(&cur) {
            Some(e) => {
                out.push(e);
                assert(entries_view(out@) =~= before.push(e@));
            },
            None => {},
        }
    }
    out
}

// ── Endpoints ───────────────────────────────────────────────────────────────

impl CreateSessionRequest {
    /// The container configuration the request asks for.
    pub fn into_config(self) -> (r: ContainerConfig)
        ensures
            r.image == self.image,
            r.enable_dind == (self.enable_dind == Some(true)),
            r.env_vars@ == request_env(
                match self.credentials {
                    Some(c) => pairs_view(c@),
                    None => Seq::empty(),
                },
                opt_view(self.agent),
                opt_view(self.repo),
            ),
    {
        ContainerConfig::from_session_request(
            self.credentials,
            self.agent,
            self.image,
            self.enable_dind,
            self.repo,
        )
    }
}

/// The reply to a session creation: `201` with the new session's id and the
/// state `active`, or `500` with the error's text.
pub fn create_session_reply(result: Result<String, SessionError>) -> (r: Reply)
    ensures
        match result {
            Ok(id) => r.status == CREATED && (r.body matches ReplyBody::Created(c) && c.session_id@
                == id@ && c.state@ == "active"@),
            Err(e) => is_text_reply(r, INTERNAL_SERVER_ERROR, e.text()),
        },
{
    match result {
        Ok(id) => Reply {
            status: CREATED,
            body: ReplyBody::Created(CreateSessionResponse { session_id: id, state: owned("active") }),
        },
        Err(e) => text_reply(INTERNAL_SERVER_ERROR, e.message()),
    }
}

/// The name of a session state in replies.
pub open spec fn state_name(s: SessionState) -> Seq<char> {
    match s {
        SessionState::Active => "active"@,
        SessionState::Disconnected { .. } => "disconnected"@,
        SessionState::Terminated => "terminated"@,
    }
}

/// The status of a session at `now`: its id, state, kind and whole seconds
/// since it was created.
pub fn session_status<Tx, Rx>(session: &Session<Tx, Rx>, now: u64) -> (r: SessionStatusResponse)
    ensures
        r.session_id@ == session.id@,
        r.state@ == state_name(session.state),
        r.kind@ == (if session.kind is Interactive {
            "interactive"@
        } else {
            "headless"@
        }),
        r.uptime_seconds == elapsed(session.created_at, now) / 1000,
{
    let state = match session.state {
        SessionState::Active => owned("active"),
        SessionState::Disconnected { .. } => owned("disconnected"),
        SessionState::Terminated => owned("terminated"),
    };
    let kind = if session.is_interactive() {
        owned("interactive")
    } else {
        owned("headless")
    };
    SessionStatusResponse {
        session_id: session.id.clone(),
        state,
        kind,
        uptime_seconds: elapsed_ms(session.created_at, now) / 1000,
    }
}

/// The reply to a status request: `404` for an unknown session, otherwise
/// `200` with its status at `now`.
pub fn get_session_reply<Tx, Rx>(session: Option<&Session<Tx, Rx>>, now: u64) -> (r: Reply)
    ensures
        match session {
            None => is_empty_reply(r, NOT_FOUND),
            Some(x) => r.status == OK && (r.body matches ReplyBody::Status(st) && {
                &&& st.session_id@ == x.id@
                &&& st.state@ == state_name(x.state)
                &&& st.kind@ == (if x.kind is Interactive {
                    "interactive"@
                } else {
                    "headless"@
                })
                &&& st.uptime_seconds == elapsed(x.created_at, now) / 1000
            }),
        },
{
    match session {
        None => status_only(NOT_FOUND),
        Some(x) => Reply { status: OK, body: ReplyBody::Status(session_status(x, now)) },
    }
}

/// The timeout of a command in seconds: what it asks for, 60 when it asks
/// for none, and never more than 300.
pub open spec fn exec_timeout(asked: Option<u64>) -> u64 {
    let t = match asked {
        Some(t) => t,
        None => DEFAULT_EXEC_TIMEOUT,
    };
    if t < MAX_EXEC_TIMEOUT {
        t
    } else {
        MAX_EXEC_TIMEOUT
    }
}

/// Checks a command request: an empty command is refused with `400`,
/// otherwise the command's timeout in seconds is given.
pub fn check_exec_request(req: &ExecRequest) -> (r: Result<u64, Reply>)
    ensures
        req.command@.len() == 0 ==> (r matches Err(e) && is_text_reply(
            e,
            BAD_REQUEST,
            "command must not be empty"@,
        )),
        req.command@.len() > 0 ==> r == Ok::<u64, Reply>(exec_timeout(req.timeout)),
{
    if req.command.len() == 0 {
        return Err(text_reply(BAD_REQUEST, owned("command must not be empty")));
    }
    let t = match req.timeout {
        Some(t) => t,
        None => DEFAULT_EXEC_TIMEOUT,
    };
    Ok(
        if t < MAX_EXEC_TIMEOUT {
            t
        } else {
            MAX_EXEC_TIMEOUT
        },
    )
}

/// The reply to a session-level failure: `404` when the session is unknown,
/// `500` with the error's text otherwise.
fn session_error_reply(e: SessionError) -> (r: Reply)
    ensures
        e is NotFound ==> is_empty_reply(r, NOT_FOUND),
        !(e is NotFound) ==> is_text_reply(r, INTERNAL_SERVER_ERROR, e.text()),
{
    match e {
        SessionError::NotFound => status_only(NOT_FOUND),
        _ => text_reply(INTERNAL_SERVER_ERROR, e.message()),
    }
}

/// The reply to a command: `200` with its exit code and truncated output,
/// `404` for an unknown session, `500` with the error's text otherwise.
pub fn exec_reply(result: Result<ExecResult, SessionError>) -> (r: Reply)
    ensures
        match result {
            Ok(x) => r.status == OK && (r.body matches ReplyBody::Exec(e) && e.exit_code
                == x.exit_code && e.stdout@ == truncated(x.stdout@) && e.stderr@ == truncated(
                x.stderr@,
            )),
            Err(SessionError::NotFound) => is_empty_reply(r, NOT_FOUND),
            Err(e) => is_text_reply(r, INTERNAL_SERVER_ERROR, e.text()),
        },
{
    match result {
        Ok(x) => {
            let stdout = truncate_output(x.stdout);
            let stderr = truncate_output(x.stderr);
            Reply {
                status: OK,
                body: ReplyBody::Exec(ExecResponse { exit_code: x.exit_code, stdout, stderr }),
            }
        },
        Err(e) => session_error_reply(e),
    }
}

/// The reply to a deletion: `404` for an unknown session, `204` otherwise.
pub fn delete_session_reply(found: bool) -> (r: Reply)
    ensures
        is_empty_reply(r, if found { NO_CONTENT } else { NOT_FOUND }),
{
    if found {
        status_only(NO_CONTENT)
    } else {
        status_only(NOT_FOUND)
    }
}

// ── Workspace paths ─────────────────────────────────────────────────────────

/// The components on a stack after one more component of a path: empty
/// components and `.` change nothing, `..` drops the last one (and stays at
/// the root), any other is added.
pub open spec fn step_component(st: Seq<Seq<char>>, c: Seq<char>) -> Seq<Seq<char>> {
    if c.len() == 0 || c == seq!['.'] {
        st
    } else if c == seq!['.', '.'] {
        if st.len() > 0 {
            st.drop_last()
        } else {
            st
        }
    } else {
        st.push(c)
    }
}

/// The components that a sequence of path components resolves to.
pub open spec fn normalize(cs: Seq<Seq<char>>) -> Seq<Seq<char>>
    decreases cs.len(),
{
    if cs.len() == 0 {
        Seq::empty()
    } else {
        step_component(normalize(cs.drop_last()), cs.last())
    }
}

/// A path as the container sees it: relative paths start at `/workspace`,
/// the working directory of every command.
pub open spec fn absolute_path(p: Seq<char>) -> Seq<char> {
    if p.len() > 0 && p[0] == '/' {
        p
    } else {
        "/workspace/"@ + p
    }
}

/// The components that a path resolves to, from the root.
pub open spec fn resolved_path(p: Seq<char>) -> Seq<Seq<char>> {
    normalize(split_char(absolute_path(p), '/'))
}

/// Whether a path resolves to `/workspace` or to something under it.
pub open spec fn in_workspace(p: Seq<char>) -> bool {
    resolved_path(p).len() > 0 && resolved_path(p)[0] == "workspace"@
}

/// Applies one path component to the stack of resolved components.
fn apply_component(stack: &mut Vec<Vec<char>>, c: Vec<char>)
    ensures
        final(stack).deep_view() == step_component(old(stack).deep_view(), c@),
{
    let ghost cv = c@;
    if c.len() == 0 || (c.len() == 1 && c[0] == '.') {
        assert(c.len() == 1 ==> c@ =~= seq!['.']);
        assert(c.len() == 0 ==> cv.len() == 0);
    } else if c.len() == 2 && c[0] == '.' && c[1] == '.' {
        assert(c@ =~= seq!['.', '.']);
        if stack.len() > 0 {
            let ghost before = stack.deep_view();
            let _ = stack.pop();
            assert(stack.deep_view() =~= before.drop_last());
        }
    } else {
        assert(cv != seq!['.']) by {
            if cv == seq!['.'] {
                assert(cv.len() == 1 && cv[0] == '.');
            }
        }
        assert(cv != seq!['.', '.']) by {
            if cv == seq!['.', '.'] {
                assert(cv.len() == 2 && cv[0] == '.' && cv[1] == '.');
            }
        }
        let ghost before = stack.deep_view();
        assert(c.deep_view() =~= cv);
        stack.push(c);
        assert(stack.deep_view() =~= before.push(cv));
    }
}

/// Whether the path resolves inside `/workspace`.
pub fn is_in_workspace(path: &str) -> (b: bool)
    ensures
        b == in_workspace(path@),
{
    let v0 = chars_of(path);
    let v = if v0.len() > 0 && v0[0] == '/' {
        v0
    } else {
        let full = concat("/workspace/", path);
        chars_of(full.as_str())
    };
    assert(v@ == absolute_path(path@));
    let mut stack: Vec<Vec<char>> = Vec::new();
    let mut cur: Vec<char> = Vec::new();
    let ghost mut done: Seq<Seq<char>> = Seq::empty();
    let n = v.len();
    let mut i: usize = 0;
    assert(v@.take(0) =~= Seq::<char>::empty());
    assert(split_char(v@.take(0), '/') =~= done.push(cur@));
    assert(stack.deep_view() =~= normalize(done));
    while i < n
        invariant
            n == v@.len(),
            i <= n,
            split_char(v@.take(i as int), '/') == done.push(cur@),
            stack.deep_view() == normalize(done),
        decreases n - i,
    {
        proof {
            lemma_split_char_step(v@, i as int, '/');
        }
        let c = v[i];
        if c == '/' {
            let mut piece: Vec<char> = Vec::new();
            std::mem::swap(&mut piece, &mut cur);
            let ghost pv = piece@;
            apply_component(&mut stack, piece);
            proof {
                assert(done.push(pv).drop_last() =~= done);
                done = done.push(pv);
            }
            assert(cur@ =~= Seq::<char>::empty());
        } else {
            let ghost before = cur@;
            cur.push(c);
            assert(done.push(before).update(done.len() as int, before.push(c)) =~= done.push(cur@));
        }
        i = i + 1;
    }
    assert(v@.take(n as int) =~= v@);
    let ghost last = cur@;
    apply_component(&mut stack, cur);
    assert(done.push(last).drop_last() =~= done);
    assert(stack.deep_view() == resolved_path(path@));
    proof {
        reveal_strlit("workspace");
    }
    if stack.len() == 0 {
        return false;
    }
    let first = &stack[0];
    let w = chars_of("workspace");
    let mut same = first.len() == w.len();
    let mut k: usize = 0;
    while same && k < w.len()
        invariant
            w@ == "workspace"@,
            k <= w.len(),
            same ==> first.len() == w.len(),
            same ==> first@.take(k as int) == w@.take(k as int),
            !same ==> first@ != w@,
        decreases w.len() - k,
    {
        if first[k] != w[k] {
            same = false;
        } else {
            assert(first@.take(k + 1) =~= first@.take(k as int).push(first@[k as int]));
            assert(w@.take(k + 1) =~= w@.take(k as int).push(w@[k as int]));
        }
        k = k + 1;
    }
    proof {
        if same {
            assert(first@ =~= first@.take(w.len() as int));
            assert(w@ =~= w@.take(w.len() as int));
        }
        assert(stack.deep_view()[0] == first@);
    }
    same
}

/// The reply to a path outside `/workspace`.
fn outside_workspace() -> (r: Reply)
    ensures
        is_text_reply(r, BAD_REQUEST, "path must be inside /workspace"@),
{
    text_reply(BAD_REQUEST, owned("path must be inside /workspace"))
}

/// The command that lists a directory, `/workspace` when none is named: one
/// line per entry, with name, type, size and path separated by tabs.
pub open spec fn list_files_argv(dir: Seq<char>) -> Seq<Seq<char>> {
    seq![
        "find"@,
        dir,
        "-maxdepth"@,
        "1"@,
        "-not"@,
        "-path"@,
        dir,
        "-printf"@,
        "%f\\t%y\\t%s\\t%p\\n"@,
    ]
}

/// The command that lists the directory a file query names; a directory
/// outside `/workspace` is refused with `400`.
pub fn list_files_command(path: Option<String>) -> (r: Result<Vec<String>, Reply>)
    ensures
        match path {
            Some(p) => if in_workspace(p@) {
                r matches Ok(c) && c.deep_view() == list_files_argv(p@)
            } else {
                r matches Err(e) && is_text_reply(e, BAD_REQUEST, "path must be inside /workspace"@)
            },
            None => r matches Ok(c) && c.deep_view() == list_files_argv("/workspace"@),
        },
{
    let dir = match path {
        Some(p) => {
            if !is_in_workspace(p.as_str()) {
                return Err(outside_workspace());
            }
            p
        },
        None => owned("/workspace"),
    };
    let mut r: Vec<String> = Vec::new();
    r.push(owned("find"));
    r.push(dir.clone());
    r.push(owned("-maxdepth"));
    r.push(owned("1"));
    r.push(owned("-not"));
    r.push(owned("-path"));
    r.push(dir.clone());
    r.push(owned("-printf"));
    r.push(owned("%f\\t%y\\t%s\\t%p\\n"));
    assert(r.deep_view() =~= list_files_argv(dir@));
    Ok(r)
}

/// The reply to a directory listing: `200` with the entries when `find`
/// succeeded, `404` when it failed or the session is unknown, `500` with the
/// error's text otherwise.
pub fn list_files_reply(result: Result<ExecResult, SessionError>) -> (r: Reply)
    ensures
        match result {
            Ok(x) => if x.exit_code == 0 {
                r.status == OK && (r.body matches ReplyBody::Files(es) && entries_view(es@)
                    == file_entries(x.stdout@))
            } else {
                is_text_reply(r, NOT_FOUND, "Directory not found"@)
            },
            Err(SessionError::NotFound) => is_empty_reply(r, NOT_FOUND),
            Err(e) => is_text_reply(r, INTERNAL_SERVER_ERROR, e.text()),
        },
{
    match result {
        Ok(x) => {
            if x.exit_code == 0 {
                Reply { status: OK, body: ReplyBody::Files(parse_file_entries(x.stdout.as_str())) }
            } else {
                text_reply(NOT_FOUND, owned("Directory not found"))
            }
        },
        Err(e) => session_error_reply(e),
    }
}

/// The reply to a request that names no file.
fn path_required() -> (r: Reply)
    ensures
        is_text_reply(r, BAD_REQUEST, "path parameter required"@),
{
    text_reply(BAD_REQUEST, owned("path parameter required"))
}

/// The command that prints a file: `cat` and its path; a query without a
/// path is refused with `400`, and so is a path outside `/workspace`.
pub fn read_file_command(path: Option<String>) -> (r: Result<Vec<String>, Reply>)
    ensures
        match path {
            Some(p) => if in_workspace(p@) {
                r matches Ok(c) && c.deep_view() == seq!["cat"@, p@]
            } else {
                r matches Err(e) && is_text_reply(e, BAD_REQUEST, "path must be inside /workspace"@)
            },
            None => r matches Err(e) && is_text_reply(e, BAD_REQUEST, "path parameter required"@),
        },
{
    match path {
        Some(p) => {
            if !is_in_workspace(p.as_str()) {
                return Err(outside_workspace());
            }
            let mut c: Vec<String> = Vec::new();
            c.push(owned("cat"));
            let ghost pv = p@;
            c.push(p);
            assert(c.deep_view() =~= seq!["cat"@, pv]);
            Ok(c)
        },
        None => Err(path_required()),
    }
}

/// The reply to a file read: `200` with the truncated content when `cat`
/// succeeded, `404` when it failed or the session is unknown, `500` with the
/// error's text otherwise.
pub fn read_file_reply(result: Result<ExecResult, SessionError>) -> (r: Reply)
    ensures
        match result {
            Ok(x) => if x.exit_code == 0 {
                is_text_reply(r, OK, truncated(x.stdout@))
            } else {
                is_text_reply(r, NOT_FOUND, "File not found"@)
            },
            Err(SessionError::NotFound) => is_empty_reply(r, NOT_FOUND),
            Err(e) => is_text_reply(r, INTERNAL_SERVER_ERROR, e.text()),
        },
{
    match result {
        Ok(x) => {
            if x.exit_code == 0 {
                text_reply(OK, truncate_output(x.stdout))
            } else {
                text_reply(NOT_FOUND, owned("File not found"))
            }
        },
        Err(e) => session_error_reply(e),
    }
}

/// A path inside single quotes for `sh`: each `'` in it is closed, escaped
/// and reopened as `'\''`.
pub open spec fn escape_single_quotes(path: Seq<char>) -> Seq<char> {
    replace_all(path, "'"@, "'\\''"@)
}

/// The shell command that writes base64 text, decoded, to a file.
pub open spec fn write_file_script(path: Seq<char>, encoded: Seq<char>) -> Seq<char> {
    "echo '"@ + encoded + "' | base64 -d > '"@ + escape_single_quotes(path) + "'"@
}

/// The command that writes content already encoded in base64 to a file.
pub fn write_file_command_encoded(path: &str, encoded: &str) -> (r: Vec<String>)
    ensures
        r.deep_view() == seq!["sh"@, "-c"@, write_file_script(path@, encoded@)],
{
    proof {
        reveal_strlit("'");
    }
    let escaped = replace_text(path, "'", "'\\''");
    let a = concat("echo '", encoded);
    let b = concat(a.as_str(), "' | base64 -d > '");
    let c = concat(b.as_str(), escaped.as_str());
    let script = concat(c.as_str(), "'");
    let mut r: Vec<String> = Vec::new();
    r.push(owned("sh"));
    r.push(owned("-c"));
    let ghost sv = script@;
    r.push(script);
    assert(r.deep_view() =~= seq!["sh"@, "-c"@, sv]);
    r
}

/// The characters of standard base64 with padding.
pub open spec fn is_base64_char(c: char) -> bool {
    ||| 'A' <= c <= 'Z'
    ||| 'a' <= c <= 'z'
    ||| '0' <= c <= '9'
    ||| c == '+'
    ||| c == '/'
    ||| c == '='
}

/// What `base64::engine::general_purpose::STANDARD.encode` gives for the bytes.
pub uninterp spec fn base64_standard(data: Seq<u8>) -> Seq<char>;

/// `base64::engine::general_purpose::STANDARD.encode`: the standard base64
/// text of the bytes, with padding; its characters are those of the
/// standard alphabet and `=`. The encoding itself is left to the name
/// `base64_standard`.
#[verifier::external_body]
fn encode_base64(data: &[u8]) -> (s: String)
    ensures
        s@ == base64_standard(data@),
        forall|i: int| 0 <= i < s@.len() ==> is_base64_char(#[trigger] s@[i]),
{
    base64::engine::general_purpose::STANDARD.encode(data)
}

/// Whether every character of `s` is one of standard base64.
pub open spec fn is_base64_text(s: Seq<char>) -> bool {
    forall|i: int| 0 <= i < s.len() ==> is_base64_char(#[trigger] s[i])
}

/// The command that writes `body` to the file a query names: the body is
/// passed in base64 so that its text never reaches the shell; a query
/// without a path is refused with `400`, and so is a path outside
/// `/workspace`. The base64 text holds no quote, so `sh` reads the quoted
/// text back unchanged.
pub fn write_file_command(path: Option<String>, body: &str) -> (r: Result<Vec<String>, Reply>)
    ensures
        is_base64_text(base64_standard(encode_utf8(body@))),
        sh_word_value("'"@ + base64_standard(encode_utf8(body@)) + "'"@) == Some(
            base64_standard(encode_utf8(body@)),
        ),
        match path {
            Some(p) => if in_workspace(p@) {
                r matches Ok(c) && c.deep_view() == seq![
                    "sh"@,
                    "-c"@,
                    write_file_script(p@, base64_standard(encode_utf8(body@))),
                ]
            } else {
                r matches Err(e) && is_text_reply(e, BAD_REQUEST, "path must be inside /workspace"@)
            },
            None => r matches Err(e) && is_text_reply(e, BAD_REQUEST, "path parameter required"@),
        },
{
    let encoded = encode_base64(body.as_bytes());
    proof {
        law_quoted_base64_is_one_word(encoded@);
    }
    match path {
        Some(p) => {
            if !is_in_workspace(p.as_str()) {
                return Err(outside_workspace());
            }
            Ok(write_file_command_encoded(p.as_str(), encoded.as_str()))
        },
        None => Err(path_required()),
    }
}

/// The reply to a file write: `204` when the write succeeded, `500` with
/// its error output when it failed, `404` for an unknown session, `500` with
/// the error's text otherwise.
pub fn write_file_reply(result: Result<ExecResult, SessionError>) -> (r: Reply)
    ensures
        match result {
            Ok(x) => if x.exit_code == 0 {
                is_empty_reply(r, NO_CONTENT)
            } else {
                is_text_reply(r, INTERNAL_SERVER_ERROR, x.stderr@)
            },
            Err(SessionError::NotFound) => is_empty_reply(r, NOT_FOUND),
            Err(e) => is_text_reply(r, INTERNAL_SERVER_ERROR, e.text()),
        },
{
    match result {
        Ok(x) => {
            if x.exit_code == 0 {
                status_only(NO_CONTENT)
            } else {
                text_reply(INTERNAL_SERVER_ERROR, x.stderr)
            }
        },
        Err(e) => session_error_reply(e),
    }
}

// ── Shell quoting ───────────────────────────────────────────────────────────

/// The value `sh` gives a word made only of single-quoted pieces and
/// backslash-escaped characters; `None` for a word not of that form.
pub open spec fn sh_word_value(w: Seq<char>) -> Option<Seq<char>>
    decreases w.len(),
{
    if w.len() == 0 {
        Some(Seq::empty())
    } else if w[0] == '\'' {
        match index_of(w.drop_first(), '\'') {
            None => None,
            Some(k) => {
                proof {
                    lemma_index_of(w.drop_first(), '\'');
                }
                match sh_word_value(w.skip(k + 2)) {
                    Some(rest) => Some(w.subrange(1, k + 1) + rest),
                    None => None,
                }
            },
        }
    } else if w[0] == '\\' && w.len() >= 2 {
        match sh_word_value(w.skip(2)) {
            Some(rest) => Some(seq![w[1]] + rest),
            None => None,
        }
    } else {
        None
    }
}

/// A path in single quotes, as the write command gives it to `sh`.
pub open spec fn sh_quoted(path: Seq<char>) -> Seq<char> {
    "'"@ + escape_single_quotes(path) + "'"@
}

/// Escaping leaves text without quotes as it is, in front of the rest.
proof fn lemma_escape_prefix(a: Seq<char>, s: Seq<char>)
    requires
        forall|i: int| 0 <= i < a.len() ==> a[i] != '\'',
    ensures
        escape_single_quotes(a + s) == a + escape_single_quotes(s),
    decreases a.len(),
{
    reveal_strlit("'");
    if a.len() == 0 {
        assert(a + s =~= s);
        assert(a + escape_single_quotes(s) =~= escape_single_quotes(s));
    } else {
        let t = a.drop_first();
        assert forall|i: int| 0 <= i < t.len() implies t[i] != '\'' by {
            assert(t[i] == a[i + 1]);
        }
        lemma_escape_prefix(t, s);
        assert((a + s).drop_first() =~= t + s);
        assert((a + s)[0] == a[0]);
        assert(!starts_with(a + s, "'"@)) by {
            if starts_with(a + s, "'"@) {
                assert((a + s).take(1)[0] == "'"@[0]);
            }
        }
        assert(seq![a[0]] + (t + escape_single_quotes(s)) =~= a + escape_single_quotes(s));
    }
}

/// A quote is escaped as `'\''`.
proof fn lemma_escape_quote(s: Seq<char>)
    ensures
        escape_single_quotes(seq!['\''] + s) == "'\\''"@ + escape_single_quotes(s),
{
    reveal_strlit("'");
    let w = seq!['\''] + s;
    assert(w.take(1) =~= "'"@);
    assert(w.skip(1) =~= s);
}

/// Quoting a path for `sh` hands the path over unchanged: whatever
/// characters it holds, `sh` reads the quoted word back as exactly the path,
/// so no part of it runs as shell syntax.
pub proof fn law_shell_quoting_round_trip(path: Seq<char>)
    ensures
        sh_word_value(sh_quoted(path)) == Some(path),
    decreases path.len(),
{
    reveal_strlit("'");
    reveal_strlit("'\\''");
    lemma_index_of(path, '\'');
    match index_of(path, '\'') {
        None => {
            lemma_escape_prefix(path, Seq::empty());
            assert(escape_single_quotes(Seq::<char>::empty()) =~= Seq::<char>::empty());
            assert(path + Seq::<char>::empty() =~= path);
            let w = sh_quoted(path);
            assert(w =~= seq!['\''] + path + seq!['\'']);
            let body = w.drop_first();
            assert(body =~= path + seq!['\'']);
            lemma_index_of(body, '\'');
            assert(index_of(body, '\'') == Some(path.len() as int)) by {
                match index_of(body, '\'') {
                    Some(k) => {
                        if k < path.len() {
                            assert(body[k] == path[k]);
                        }
                        if k > path.len() {
                            assert(body[path.len() as int] == '\'');
                        }
                    },
                    None => {
                        assert(body[path.len() as int] == '\'');
                    },
                }
            }
            assert(w.skip(path.len() as int + 2) =~= Seq::<char>::empty());
            assert(w.subrange(1, path.len() as int + 1) =~= path);
            assert(Seq::<char>::empty().len() == 0);
            assert(w.subrange(1, path.len() as int + 1) + Seq::<char>::empty() =~= path);
            assert(w[0] == '\'');
            assert(sh_word_value(w.skip(path.len() as int + 2)) == Some(Seq::<char>::empty()));
            assert(sh_word_value(w) == Some(path));
        },
        Some(k) => {
            let a = path.take(k);
            let b = path.skip(k + 1);
            assert(path =~= a + (seq!['\''] + b));
            assert forall|i: int| 0 <= i < a.len() implies a[i] != '\'' by {
                assert(a[i] == path[i]);
            }
            lemma_escape_prefix(a, seq!['\''] + b);
            lemma_escape_quote(b);
            law_shell_quoting_round_trip(b);
            let eb = escape_single_quotes(b);
            let w = sh_quoted(path);
            assert(w =~= seq!['\''] + a + seq!['\'', '\\', '\'', '\''] + eb + seq!['\'']);
            let body = w.drop_first();
            lemma_index_of(body, '\'');
            assert(index_of(body, '\'') == Some(a.len() as int)) by {
                match index_of(body, '\'') {
                    Some(j) => {
                        if j < a.len() {
                            assert(body[j] == a[j]);
                        }
                        if j > a.len() {
                            assert(body[a.len() as int] == '\'');
                        }
                    },
                    None => {
                        assert(body[a.len() as int] == '\'');
                    },
                }
            }
            assert(w.subrange(1, a.len() as int + 1) =~= a);
            let rest = w.skip(a.len() as int + 2);
            assert(rest =~= seq!['\\', '\''] + sh_quoted(b));
            assert(rest.skip(2) =~= sh_quoted(b));
            assert(rest[0] == '\\' && rest[1] == '\'');
            assert(sh_word_value(rest) == Some(seq!['\''] + b));
            assert(a + (seq!['\''] + b) =~= path);
            assert(w[0] == '\'');
            assert(sh_word_value(w) == Some(a + (seq!['\''] + b)));
        },
    }
}

/// Base64 text, having no quote, reaches `sh` unchanged inside single quotes:
/// the content of a file write cannot run as shell syntax.
pub proof fn law_quoted_base64_is_one_word(encoded: Seq<char>)
    requires
        forall|i: int| 0 <= i < encoded.len() ==> is_base64_char(#[trigger] encoded[i]),
    ensures
        sh_word_value("'"@ + encoded + "'"@) == Some(encoded),
{
    reveal_strlit("'");
    let w = "'"@ + encoded + "'"@;
    assert(w =~= seq!['\''] + encoded + seq!['\'']);
    let body = w.drop_first();
    assert(body =~= encoded + seq!['\'']);
    lemma_index_of(body, '\'');
    assert(index_of(body, '\'') == Some(encoded.len() as int)) by {
        match index_of(body, '\'') {
            Some(k) => {
                if k < encoded.len() {
                    assert(body[k] == encoded[k]);
                    assert(is_base64_char(encoded[k]));
                }
                if k > encoded.len() {
                    assert(body[encoded.len() as int] == '\'');
                }
            },
            None => {
                assert(body[encoded.len() as int] == '\'');
            },
        }
    }
    assert(w.skip(encoded.len() as int + 2) =~= Seq::<char>::empty());
    assert(sh_word_value(w.skip(encoded.len() as int + 2)) == Some(Seq::<char>::empty()));
    assert(w.subrange(1, encoded.len() as int + 1) + Seq::<char>::empty() =~= encoded);
    assert(w[0] == '\'');
}

/// How long a file command may run, in seconds.
pub const FILE_COMMAND_TIMEOUT_SECS: u64 = 10;

/// The reply to a failed workspace export: `404` with the error's text.
pub fn export_failure_reply(e: &SessionError) -> (r: Reply)
    ensures
        is_text_reply(r, NOT_FOUND, "Export failed: "@ + e.text()),
{
    let m = e.message();
    text_reply(NOT_FOUND, concat("Export failed: ", m.as_str()))
}

/// A request passes a configured token exactly when its header is `Bearer `
/// followed by the token; without a configured token every request passes.
pub proof fn law_auth_accepts_exactly_the_bearer_token(token: Seq<char>, header: Seq<char>)
    ensures
        authorized(Some(token), Some(header)) <==> header == "Bearer "@ + token,
        !authorized(Some(token), None),
        authorized(None, Some(header)),
        authorized(None, None),
{
    let p = "Bearer "@;
    if header == p + token {
        assert(header.take(p.len() as int) =~= p);
        assert(header.skip(p.len() as int) =~= token);
    }
    if authorized(Some(token), Some(header)) {
        assert(header =~= header.take(p.len() as int) + header.skip(p.len() as int));
    }
}

/// A reply never carries more than `MAX_OUTPUT_BYTES` bytes of output and
/// the notice; output within the limit is carried whole; longer output is
/// cut at the last character boundary within the limit, so no character is
/// split.
pub proof fn law_truncated_output_is_bounded(s: Seq<char>)
    ensures
        encode_utf8(truncated(s)).len() <= MAX_OUTPUT_BYTES + encode_utf8(truncation_notice()).len(),
        encode_utf8(s).len() <= MAX_OUTPUT_BYTES ==> truncated(s) == s,
        encode_utf8(s).len() > MAX_OUTPUT_BYTES ==> {
            let b = encode_utf8(s);
            let k = cut_point(b, MAX_OUTPUT_BYTES as nat);
            &&& k <= MAX_OUTPUT_BYTES
            &&& is_char_boundary(b, k as int)
            &&& forall|j: int| k < j <= MAX_OUTPUT_BYTES ==> !is_char_boundary(b, j)
            &&& encode_utf8(truncated(s)) == b.take(k as int) + encode_utf8(truncation_notice())
        },
{
    broadcast use vstd::utf8::group_utf8_lib;

    if encode_utf8(s).len() > MAX_OUTPUT_BYTES {
        let b = encode_utf8(s);
        assert(vstd::utf8::valid_utf8(b));
        lemma_cut_point(b, MAX_OUTPUT_BYTES as nat);
        let k = cut_point(b, MAX_OUTPUT_BYTES as nat);
        let head = b.take(k as int);
        assert(head =~= b.subrange(0, k as int));
        assert(vstd::utf8::valid_utf8(head));
        assert(encode_utf8(decode_utf8(head)) == head);
        crate::text::lemma_encode_utf8_concat(decode_utf8(head), truncation_notice());
    }
}

/// The line `find` prints for an entry.
pub open spec fn listing_line(name: Seq<char>, type_letter: char, size: u64, path: Seq<char>) -> Seq<char> {
    name + seq!['\t', type_letter, '\t'] + decimal(size as nat) + seq!['\t'] + path
}

/// A listing line reads back as the entry it was printed for: its name, its
/// type (a directory for `d`, a file otherwise), its size and its path,
/// whatever the path holds.
pub proof fn law_listing_line_round_trip(name: Seq<char>, type_letter: char, size: u64, path: Seq<char>)
    requires
        forall|i: int| 0 <= i < name.len() ==> name[i] != '\t',
        type_letter != '\t',
    ensures
        entry_of_line(listing_line(name, type_letter, size, path)) == Some(
            FileEntryView {
                name,
                file_type: if type_letter == 'd' {
                    seq!['d']
                } else {
                    seq!['f']
                },
                size,
                path,
            },
        ),
{
    let dec = decimal(size as nat);
    crate::text::lemma_parse_decimal(size);
    lemma_decimal_no_tab(size);
    let line = listing_line(name, type_letter, size, path);
    let r1 = seq![type_letter] + seq!['\t'] + dec + seq!['\t'] + path;
    let r2 = dec + seq!['\t'] + path;
    assert(line =~= name + seq!['\t'] + r1);
    crate::text::lemma_index_of_after(name, '\t', r1);
    assert(line.take(name.len() as int) =~= name);
    assert(line.skip(name.len() as int + 1) =~= r1);
    crate::text::lemma_index_of_after(seq![type_letter], '\t', dec + seq!['\t'] + path);
    assert(r1 =~= seq![type_letter] + seq!['\t'] + (dec + seq!['\t'] + path));
    assert(r1.take(1) =~= seq![type_letter]);
    assert(r1.skip(2) =~= r2);
    crate::text::lemma_index_of_after(dec, '\t', path);
    assert(r2.take(dec.len() as int) =~= dec);
    assert(r2.skip(dec.len() as int + 1) =~= path);
    let parts = splitn(line, 4, '\t');
    assert(splitn(r2, 2, '\t') == seq![dec] + splitn(path, 1, '\t'));
    assert(splitn(r1, 3, '\t') == seq![seq![type_letter]] + splitn(r2, 2, '\t'));
    assert(parts == seq![name] + splitn(r1, 3, '\t'));
    assert(parts =~= seq![name, seq![type_letter], dec, path]);
    if type_letter == 'd' {
        assert(parts[1] =~= seq!['d']);
    } else {
        assert(parts[1] != seq!['d']) by {
            assert(parts[1][0] != seq!['d'][0]);
        }
    }
}

/// The decimal text of a number holds no tab.
proof fn lemma_decimal_no_tab(n: u64)
    ensures
        forall|i: int| 0 <= i < decimal(n as nat).len() ==> decimal(n as nat)[i] != '\t',
{
    crate::text::lemma_decimal_digits(n as nat);
    let d = decimal(n as nat);
    assert forall|i: int| 0 <= i < d.len() implies d[i] != '\t' by {
        assert(crate::text::is_digit(d[i]));
    }
}


/// The line `find` prints for `e`, whose type is `"d"` or `"f"`.
pub open spec fn entry_line(e: FileEntryView) -> Seq<char> {
    listing_line(e.name, e.file_type[0], e.size, e.path)
}

/// What `find` prints for the entries `es`: one line each, in order, each
/// ended by a newline.
pub open spec fn listing(es: Seq<FileEntryView>) -> Seq<char>
    decreases es.len(),
{
    if es.len() == 0 {
        Seq::empty()
    } else {
        listing(es.drop_last()) + entry_line(es.last()) + seq!['\n']
    }
}

/// An entry that a listing line can describe unambiguously: no tab or
/// newline in its name, a type of `"d"` or `"f"`, no newline in its path and
/// no carriage return at the path's end.
pub open spec fn printable_entry(e: FileEntryView) -> bool {
    &&& forall|i: int| 0 <= i < e.name.len() ==> e.name[i] != '\t' && e.name[i] != '\n'
    &&& e.file_type == seq!['d'] || e.file_type == seq!['f']
    &&& forall|i: int| 0 <= i < e.path.len() ==> e.path[i] != '\n'
    &&& e.path.len() > 0 ==> e.path.last() != '\r'
}

/// A directory listing reads back as the entries it was printed for, in
/// order.
pub proof fn law_listing_round_trip(es: Seq<FileEntryView>)
    requires
        forall|i: int| 0 <= i < es.len() ==> printable_entry(#[trigger] es[i]),
    ensures
        file_entries(listing(es)) == es,
    decreases es.len(),
{
    lemma_split_listing(es);
    let ls = es.map_values(|e: FileEntryView| entry_line(e));
    assert(split_char(listing(es), '\n') == ls.push(Seq::empty()));
    assert(ls.push(Seq::empty()).drop_last() =~= ls);
    assert(strip_cr_all(ls) =~= ls) by {
        assert forall|i: int| 0 <= i < ls.len() implies strip_cr(ls[i]) == ls[i] by {
            lemma_entry_line_end(es[i]);
        }
    }
    assert(lines(listing(es)) == ls);
    lemma_entries_of_lines(es);
}

/// The entries of the lines printed for `es` are `es`.
proof fn lemma_entries_of_lines(es: Seq<FileEntryView>)
    requires
        forall|i: int| 0 <= i < es.len() ==> printable_entry(#[trigger] es[i]),
    ensures
        entries_of(es.map_values(|e: FileEntryView| entry_line(e))) == es,
    decreases es.len(),
{
    if es.len() > 0 {
        let ls = es.map_values(|e: FileEntryView| entry_line(e));
        let init = es.drop_last();
        assert(ls.drop_last() =~= init.map_values(|e: FileEntryView| entry_line(e)));
        assert forall|i: int| 0 <= i < init.len() implies printable_entry(#[trigger] init[i]) by {
            assert(init[i] == es[i]);
        }
        lemma_entries_of_lines(init);
        let e = es.last();
        assert(printable_entry(es[es.len() - 1]));
        assert(e.file_type[0] != '\t');
        law_listing_line_round_trip(e.name, e.file_type[0], e.size, e.path);
        if e.file_type == seq!['d'] {
            assert(e.file_type[0] == 'd');
        } else {
            assert(e.file_type[0] == 'f');
        }
        assert(ls.last() == entry_line(e));
        assert(init.push(e) =~= es);
    }
}

/// The line printed for a printable entry neither holds a newline nor ends
/// with a carriage return.
proof fn lemma_entry_line_end(e: FileEntryView)
    requires
        printable_entry(e),
    ensures
        forall|i: int| 0 <= i < entry_line(e).len() ==> entry_line(e)[i] != '\n',
        strip_cr(entry_line(e)) == entry_line(e),
{
    crate::text::lemma_decimal_digits(e.size as nat);
    let d = decimal(e.size as nat);
    let l = entry_line(e);
    let n = e.name.len();
    assert(e.file_type[0] == 'd' || e.file_type[0] == 'f');
    assert forall|i: int| 0 <= i < l.len() implies l[i] != '\n' by {
        if i < n {
            assert(l[i] == e.name[i]);
        } else if i < n + 3 {
        } else if i < n + 3 + d.len() {
            assert(l[i] == d[i - n - 3]);
            assert(crate::text::is_digit(d[i - n - 3]));
        } else if i == n + 3 + d.len() {
        } else {
            assert(l[i] == e.path[i - n - 4 - d.len()]);
        }
    }
    if e.path.len() > 0 {
        assert(l.last() == e.path.last());
    } else {
        assert(l.last() == '\t');
    }
}

/// Splitting the listing of `es` at newlines gives each entry's line, then
/// the empty piece after the last newline.
proof fn lemma_split_listing(es: Seq<FileEntryView>)
    requires
        forall|i: int| 0 <= i < es.len() ==> printable_entry(#[trigger] es[i]),
    ensures
        split_char(listing(es), '\n') == es.map_values(|e: FileEntryView| entry_line(e)).push(
            Seq::empty(),
        ),
    decreases es.len(),
{
    if es.len() == 0 {
        assert(split_char(listing(es), '\n') =~= seq![Seq::<char>::empty()]);
    } else {
        let init = es.drop_last();
        assert forall|i: int| 0 <= i < init.len() implies printable_entry(#[trigger] init[i]) by {
            assert(init[i] == es[i]);
        }
        lemma_split_listing(init);
        let e = es.last();
        assert(printable_entry(es[es.len() - 1]));
        lemma_entry_line_end(e);
        let p = listing(init);
        let l = entry_line(e);
        let sp = split_char(p, '\n');
        lemma_split_extend(p, l, '\n');
        let sl = sp.update(sp.len() - 1, sp.last() + l);
        let ls0 = init.map_values(|x: FileEntryView| entry_line(x));
        assert(sp.last() =~= Seq::<char>::empty());
        assert(sl =~= ls0.push(l));
        let w = p + l + seq!['\n'];
        assert(w.drop_last() =~= p + l);
        assert(listing(es) == w);
        assert(split_char(w, '\n') == sl.push(Seq::empty()));
        assert(ls0.push(l) =~= es.map_values(|x: FileEntryView| entry_line(x)));
    }
}

/// Text without `sep` extends the last piece of a split.
proof fn lemma_split_extend(p: Seq<char>, l: Seq<char>, sep: char)
    requires
        forall|i: int| 0 <= i < l.len() ==> l[i] != sep,
    ensures
        split_char(p + l, sep) == split_char(p, sep).update(
            split_char(p, sep).len() - 1,
            split_char(p, sep).last() + l,
        ),
    decreases l.len(),
{
    lemma_split_char_nonempty(p, sep);
    let sp = split_char(p, sep);
    if l.len() == 0 {
        assert(p + l =~= p);
        assert(sp.last() + l =~= sp.last());
        assert(sp.update(sp.len() - 1, sp.last()) =~= sp);
    } else {
        let k = l.drop_last();
        lemma_split_extend(p, k, sep);
        assert((p + l).drop_last() =~= p + k);
        assert((p + l).last() == l.last());
        let r = sp.update(sp.len() - 1, sp.last() + k);
        assert(split_char(p + l, sep) == r.update(r.len() - 1, r.last().push(l.last())));
        assert(r.last().push(l.last()) =~= sp.last() + l);
        assert(r.update(r.len() - 1, sp.last() + l) =~= sp.update(sp.len() - 1, sp.last() + l));
    }
}

} // verus!
