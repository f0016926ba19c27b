//! Terminal sessions: what is spawned behind a PTY and how its command loop
//! reacts to each command.

use vstd::prelude::*;
use crate::docker::{env_assignment, pairs_view, assignment, EnvEntry};
use crate::text::{concat, decimal, decimal_text, owned};

verus! {

/// `std::io::Error`, which a PTY read hands back; the library carries it
/// without looking inside.
#[verifier::external_type_specification]
#[verifier::external_body]
pub struct ExIoError(std::io::Error);

/// What went wrong with a PTY.
pub enum PtyError {
    OpenFailed(String),
    SpawnFailed(String),
    /// An I/O error; the text is its message.
    IoError(String),
}

impl PtyError {
    /// The text of the error.
    pub open spec fn text(&self) -> Seq<char> {
        match self {
            PtyError::OpenFailed(m) => "Failed to open PTY: "@ + m@,
            PtyError::SpawnFailed(m) => "Failed to spawn process: "@ + m@,
            PtyError::IoError(m) => "PTY I/O error: "@ + m@,
        }
    }

    /// The text of the error, as it is reported to clients.
    pub fn message(&self) -> (r: String)
        ensures
            r@ == self.text(),
    {
        match self {
            PtyError::OpenFailed(m) => concat("Failed to open PTY: ", m.as_str()),
            PtyError::SpawnFailed(m) => concat("Failed to spawn process: ", m.as_str()),
            PtyError::IoError(m) => concat("PTY I/O error: ", m.as_str()),
        }
    }
}

/// A command for the thread that owns a PTY.
pub enum PtyCommand {
    Write(Vec<u8>),
    Resize { cols: u16, rows: u16 },
    Shutdown,
}

/// What the PTY thread does next.
pub enum PtyStep {
    /// Write these bytes; the loop ends if writing fails.
    Write(Vec<u8>),
    /// Resize the terminal; a failure is only reported.
    Resize { cols: u16, rows: u16 },
    /// Leave the loop and shut the PTY down.
    Stop,
}

/// The PTY thread's reaction to the next command, or to `None` when the
/// command channel has closed.
pub fn pty_step(command: Option<PtyCommand>) -> (r: PtyStep)
    ensures
        match command {
            Some(PtyCommand::Write(d)) => r matches PtyStep::Write(w) && w@ == d@,
            Some(PtyCommand::Resize { cols, rows }) => r matches PtyStep::Resize {
                cols: c,
                rows: w,
            } && c == cols && w == rows,
            Some(PtyCommand::Shutdown) => r is Stop,
            None => r is Stop,
        },
{
    match command {
        Some(PtyCommand::Write(d)) => PtyStep::Write(d),
        Some(PtyCommand::Resize { cols, rows }) => PtyStep::Resize { cols, rows },
        Some(PtyCommand::Shutdown) => PtyStep::Stop,
        None => PtyStep::Stop,
    }
}

/// The length of a chunk read from the PTY, given what `Read::read` returned:
/// `None` at end of file (a read of zero bytes) and on any error.
pub fn read_pty_chunk(read_result: Result<usize, std::io::Error>) -> (r: Option<usize>)
    ensures
        match read_result {
            Ok(n) => if n == 0 {
                r is None
            } else {
                r == Some(n)
            },
            Err(_) => r is None,
        },
{
    match read_result {
        Ok(0) => None,
        Ok(n) => Some(n),
        Err(_) => None,
    }
}

/// Whether a write to the PTY, or the flush after it, went through: the
/// command loop carries on only while both do, and stops at the first
/// failure (a failed write is not flushed).
pub fn pty_io_succeeded(result: &Result<(), std::io::Error>) -> (b: bool)
    ensures
        b == result is Ok,
{
    result.is_ok()
}

/// A program to run behind a PTY: its path, arguments and extra environment.
pub struct PtyProgram {
    pub program: String,
    pub args: Vec<String>,
    pub env: Vec<(String, String)>,
}

/// A local bash without start-up files, with a plain prompt.
pub fn local_shell_program() -> (r: PtyProgram)
    ensures
        r.program@ == "/bin/bash"@,
        r.args.deep_view() == seq!["--norc"@, "--noprofile"@],
        pairs_view(r.env@) == seq![("TERM"@, "xterm-256color"@), ("PS1"@, "$ "@)],
{
    let mut args: Vec<String> = Vec::new();
    args.push(owned("--norc"));
    args.push(owned("--noprofile"));
    let mut env: Vec<(String, String)> = Vec::new();
    env.push((owned("TERM"), owned("xterm-256color")));
    env.push((owned("PS1"), owned("$ ")));
    assert(args.deep_view() =~= seq!["--norc"@, "--noprofile"@]);
    assert(pairs_view(env@) =~= seq![("TERM"@, "xterm-256color"@), ("PS1"@, "$ "@)]);
    PtyProgram { program: owned("/bin/bash"), args, env }
}

/// `-e KEY=VALUE` for each variable, in order.
pub open spec fn env_flags(vars: Seq<EnvEntry>) -> Seq<Seq<char>>
    decreases vars.len(),
{
    if vars.len() == 0 {
        Seq::empty()
    } else {
        env_flags(vars.drop_last()) + seq!["-e"@, env_assignment(vars.last())]
    }
}

/// The arguments of `docker` that open an interactive bash in the workspace
/// of a container, with the given extra variables.
pub open spec fn docker_exec_args(container_id: Seq<char>, vars: Seq<EnvEntry>) -> Seq<
    Seq<char>,
> {
    seq!["exec"@, "-it"@, "-e"@, "TERM=xterm-256color"@, "-e"@, "LANG=C.UTF-8"@] + env_flags(vars)
        + seq!["-w"@, "/workspace"@, container_id, "/bin/bash"@]
}

/// `docker exec` into a container's workspace, passing the extra variables.
pub fn docker_shell_program(container_id: &str, env_vars: &Vec<(String, String)>) -> (r:
    PtyProgram)
    ensures
        r.program@ == "docker"@,
        r.args.deep_view() == docker_exec_args(container_id@, pairs_view(env_vars@)),
        r.env@.len() == 0,
{
    let mut args: Vec<String> = Vec::new();
    args.push(owned("exec"));
    args.push(owned("-it"));
    args.push(owned("-e"));
    args.push(owned("TERM=xterm-256color"));
    args.push(owned("-e"));
    args.push(owned("LANG=C.UTF-8"));
    let ghost base = seq!["exec"@, "-it"@, "-e"@, "TERM=xterm-256color"@, "-e"@, "LANG=C.UTF-8"@];
    let ghost vars = pairs_view(env_vars@);
    assert(args.deep_view() =~= base);
    assert(vars.take(0) =~= Seq::<EnvEntry>::empty());
    let n = env_vars.len();
    let mut i: usize = 0;
    while i < n
        invariant
            n == env_vars@.len(),
            vars == pairs_view(env_vars@),
            i <= n,
            args.deep_view() == base + env_flags(vars.take(i as int)),
        decreases n - i,
    {
        let a = assignment(&env_vars[i].0, &env_vars[i].1);
        let ghost before = args.deep_view();
        args.push(owned("-e"));
        args.push(a);
        assert(vars.take(i + 1).drop_last() =~= vars.take(i as int));
        assert(vars.take(i + 1).last() == vars[i as int]);
        assert(a@ == env_assignment(vars[i as int]));
        assert(args.deep_view() =~= before.push("-e"@).push(a@));
        assert(env_flags(vars.take(i + 1)) == env_flags(vars.take(i as int)) + seq![
            "-e"@,
            env_assignment(vars[i as int]),
        ]);
        assert(args.deep_view() =~= base + env_flags(vars.take(i + 1)));
        i = i + 1;
    }
    assert(vars.take(n as int) =~= vars);
    let ghost before = args.deep_view();
    args.push(owned("-w"));
    args.push(owned("/workspace"));
    args.push(owned(container_id));
    args.push(owned("/bin/bash"));
    assert(args.deep_view() =~= docker_exec_args(container_id@, vars));
    PtyProgram { program: owned("docker"), args, env: Vec::new() }
}

/// The terminal gets one `-e KEY=VALUE` per variable, in order: the flags
/// come in pairs, each an `-e` followed by the variable's assignment.
pub proof fn law_env_flags_pass_every_variable(vars: Seq<EnvEntry>)
    ensures
        env_flags(vars).len() == 2 * vars.len(),
        forall|i: int| 0 <= i < vars.len() ==> #[trigger] env_flags(vars)[2 * i] == "-e"@,
        forall|i: int| 0 <= i < vars.len() ==> #[trigger] env_flags(vars)[2 * i + 1] == vars[i].0 + "="@
            + vars[i].1,
    decreases vars.len(),
{
    if vars.len() > 0 {
        let init = vars.drop_last();
        law_env_flags_pass_every_variable(init);
        let f = env_flags(init);
        let g = env_flags(vars);
        assert(g == f + seq!["-e"@, env_assignment(vars.last())]);
        assert forall|i: int| 0 <= i < vars.len() implies #[trigger] g[2 * i] == "-e"@ by {
            if i < init.len() {
                assert(g[2 * i] == f[2 * i]);
            }
        }
        assert forall|i: int| 0 <= i < vars.len() implies #[trigger] g[2 * i + 1] == vars[i].0 + "="@ + vars[i].1 by {
            if i < init.len() {
                assert(g[2 * i + 1] == f[2 * i + 1]);
                assert(init[i] == vars[i]);
            }
        }
    }
}

/// `docker exec` gets the terminal and locale settings, then one
/// `-e KEY=VALUE` per variable in order, then the workspace, the container
/// and the shell.
pub proof fn law_docker_exec_args_pass_every_variable(container_id: Seq<char>, vars: Seq<EnvEntry>)
    ensures
        docker_exec_args(container_id, vars).len() == 10 + 2 * vars.len(),
        forall|i: int| 0 <= i < vars.len() ==> #[trigger] docker_exec_args(container_id, vars)[6 + 2 * i] == "-e"@,
        forall|i: int| 0 <= i < vars.len() ==> #[trigger] docker_exec_args(container_id, vars)[7 + 2 * i]
            == vars[i].0 + "="@ + vars[i].1,
        docker_exec_args(container_id, vars)[8 + 2 * vars.len() as int] == container_id,
{
    law_env_flags_pass_every_variable(vars);
    let a = docker_exec_args(container_id, vars);
    let f = env_flags(vars);
    assert forall|i: int| 0 <= i < vars.len() implies #[trigger] a[6 + 2 * i] == "-e"@ by {
        assert(a[6 + 2 * i] == f[2 * i]);
    }
    assert forall|i: int| 0 <= i < vars.len() implies #[trigger] a[7 + 2 * i] == vars[i].0 + "="@ + vars[i].1 by {
        assert(a[7 + 2 * i] == f[2 * i + 1]);
    }
}

} // verus!
