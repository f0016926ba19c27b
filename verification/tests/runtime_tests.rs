use capsule_runtime::docker::{
    container_spec, exec_spec, ContainerConfig, DockerError, EnvVars, ExecOutput, OutputStream,
};
use capsule_runtime::free_keys::{key_sources, push_keys, FreeKeyPool, Provider, ProviderKey};
use capsule_runtime::pty::{docker_shell_program, local_shell_program, pty_io_succeeded, pty_step, read_pty_chunk, PtyCommand, PtyError, PtyStep};

#[test]
fn env_vars_keep_first_insertion_order_and_replace_values() {
    let mut e = EnvVars::new();
    e.insert("A".to_string(), "1".to_string());
    e.insert("B".to_string(), "2".to_string());
    e.insert("A".to_string(), "3".to_string());
    assert_eq!(e.len(), 2);
    assert_eq!(e.get("A"), Some(&"3".to_string()));
    assert_eq!(e.get("C"), None);
    assert_eq!(e.to_pairs(), vec![("A".to_string(), "3".to_string()), ("B".to_string(), "2".to_string())]);
}

#[test]
fn default_config() {
    let c = ContainerConfig::default();
    assert!(c.image.is_none());
    assert_eq!(c.env_vars.len(), 0);
    assert!(!c.enable_dind);
    assert!(c.uses_default_container());
    assert!(c.repo_to_seed().is_none());
}

#[test]
fn session_request_config() {
    let c = ContainerConfig::from_session_request(
        Some(vec![("CAPSULE_AGENT".to_string(), "from-credentials".to_string())]),
        Some("aider".to_string()),
        Some("custom:1".to_string()),
        Some(true),
        Some("https://r".to_string()),
    );
    assert_eq!(c.image.as_deref(), Some("custom:1"));
    assert!(c.enable_dind);
    assert!(!c.uses_default_container());
    // the agent field overrides a credential of the same name
    assert_eq!(c.env_vars.get("CAPSULE_AGENT"), Some(&"aider".to_string()));
    assert_eq!(c.repo_to_seed(), Some("https://r".to_string()));
    let mut d = ContainerConfig::default();
    d.add_observal("tok".to_string(), "http://obs".to_string());
    assert_eq!(d.env_vars.to_pairs(), vec![
        ("OBSERVAL_TOKEN".to_string(), "tok".to_string()),
        ("OBSERVAL_SERVER_URL".to_string(), "http://obs".to_string()),
    ]);
}

#[test]
fn container_spec_for_a_session() {
    let mut config = ContainerConfig::default();
    config.env_vars.insert("FOO".to_string(), "bar=baz".to_string());
    let spec = container_spec("0123456789abcdef", &config);
    assert_eq!(spec.name, "capsule-01234567");
    assert_eq!(spec.image, "capsule-runtime:latest");
    assert_eq!(spec.hostname, "capsule");
    assert!(spec.tty && spec.open_stdin);
    assert_eq!(spec.env, vec!["TERM=xterm-256color", "LANG=C.UTF-8", "LC_ALL=C.UTF-8", "FOO=bar=baz"]);
    assert_eq!(spec.working_dir, "/workspace");
    assert_eq!(spec.user, "developer");
    assert_eq!(spec.memory, 4 * 1024 * 1024 * 1024);
    assert_eq!(spec.nano_cpus, 2_000_000_000);
    assert_eq!(spec.pids_limit, 256);
    assert_eq!(spec.network_mode, "bridge");
    assert!(spec.binds.is_none());
    assert_eq!(spec.security_opt, vec!["no-new-privileges"]);
    config.enable_dind = true;
    config.image = Some("img".to_string());
    let dind = container_spec("abcdefgh", &config);
    assert_eq!(dind.image, "img");
    assert_eq!(dind.binds, Some(vec!["/var/run/docker.sock:/var/run/docker.sock".to_string()]));
}

#[test]
fn exec_spec_and_output_collection() {
    let s = exec_spec(vec!["ls".to_string()]);
    assert_eq!(s.cmd, vec!["ls"]);
    assert!(s.attach_stdout && s.attach_stderr);
    assert_eq!(s.working_dir, "/workspace");
    assert_eq!(s.user, "developer");
    let mut out = ExecOutput::new(true);
    out.record(OutputStream::StdOut, b"he");
    out.record(OutputStream::StdErr, b"oops");
    out.record(OutputStream::StdOut, b"llo \xff");
    out.record(OutputStream::StdIn, b"ignored");
    out.record(OutputStream::Console, b"ignored");
    let r = out.finish(None);
    assert_eq!(r.stdout, "hello \u{FFFD}");
    assert_eq!(r.stderr, "oops");
    assert_eq!(r.exit_code, -1);
    assert_eq!(ExecOutput::new(true).finish(Some(2)).exit_code, 2);
}

#[test]
fn output_past_the_limit_is_dropped_while_collecting() {
    let mut out = ExecOutput::new(true);
    let chunk = vec![b'y'; 65_536];
    for _ in 0..100 {
        out.record(OutputStream::StdOut, &chunk);
        out.record(OutputStream::StdErr, b"e");
    }
    // 16 chunks reach the limit, the 17th passes it, the rest are dropped
    assert_eq!(out.stdout.len(), 17 * 65_536);
    assert_eq!(out.stderr.len(), 100);
    let all = "y".repeat(100 * 65_536);
    let r = out.finish(Some(0));
    assert_eq!(capsule_runtime::api::truncate_output(r.stdout), capsule_runtime::api::truncate_output(all));
    // output read whole, such as a listing, is not capped
    let mut whole = ExecOutput::new(false);
    for _ in 0..100 {
        whole.record(OutputStream::StdOut, &chunk);
    }
    assert_eq!(whole.finish(Some(0)).stdout.len(), 100 * 65_536);
}

#[test]
fn docker_error_messages() {
    assert_eq!(DockerError::Bollard("x".to_string()).message(), "Docker error: x");
    assert_eq!(DockerError::NotFound("c1".to_string()).message(), "Container not found: c1");
    assert_eq!(DockerError::ExecTimeout(60).message(), "Exec timed out after 60s");
    assert_eq!(format!("{:?}", std::time::Duration::from_secs(60)), "60s");
    assert_eq!(DockerError::ExecTimeout(0).message(), "Exec timed out after 0ns");
    assert_eq!(format!("{:?}", std::time::Duration::from_secs(0)), "0ns");
}

#[test]
fn keys_are_split_trimmed_and_non_empty() {
    let mut keys: Vec<ProviderKey> = Vec::new();
    push_keys(&mut keys, " k1 , ,k2,\t", Provider::OpenRouter);
    push_keys(&mut keys, "", Provider::Anthropic);
    push_keys(&mut keys, "only", Provider::Anthropic);
    let got: Vec<(&str, &str, &str)> = keys.iter().map(|k| (k.provider, k.env_var, k.key.as_str())).collect();
    assert_eq!(got, vec![
        ("openrouter", "OPENROUTER_API_KEY", "k1"),
        ("openrouter", "OPENROUTER_API_KEY", "k2"),
        ("anthropic", "ANTHROPIC_API_KEY", "only"),
    ]);
}

#[test]
fn key_pool_from_env_and_round_robin() {
    let sources = key_sources();
    assert_eq!(sources.len(), 7);
    assert_eq!(sources[0], ("ANTHROPIC_API_KEY", Provider::Anthropic));
    assert_eq!(sources[6], ("CAPSULE_OPENROUTER_API_KEYS", Provider::OpenRouter));
    let values: Vec<(Provider, Option<String>)> = sources
        .iter()
        .map(|(name, p)| {
            let v = match *name {
                "ANTHROPIC_API_KEY" => Some("a1".to_string()),
                "OPENROUTER_API_KEY" => Some("o1,o2".to_string()),
                _ => None,
            };
            (*p, v)
        })
        .collect();
    let mut pool = FreeKeyPool::from_env(values);
    assert!(!pool.is_empty());
    assert_eq!(pool.len(), 3);
    let seen: Vec<String> = (0..7).map(|_| pool.next_key().unwrap().key.clone()).collect();
    assert_eq!(seen, vec!["a1", "o1", "o2", "a1", "o1", "o2", "a1"]);
}

#[test]
fn empty_pool_has_no_key() {
    let mut pool = FreeKeyPool::from_env(vec![(Provider::Anthropic, None), (Provider::OpenRouter, Some(" , ".to_string()))]);
    assert!(pool.is_empty());
    assert!(pool.next_key().is_none());
}

#[test]
fn pty_programs() {
    let local = local_shell_program();
    assert_eq!(local.program, "/bin/bash");
    assert_eq!(local.args, vec!["--norc", "--noprofile"]);
    assert_eq!(local.env, vec![("TERM".to_string(), "xterm-256color".to_string()), ("PS1".to_string(), "$ ".to_string())]);
    let d = docker_shell_program("cid", &vec![("K".to_string(), "V".to_string())]);
    assert_eq!(d.program, "docker");
    assert_eq!(d.args, vec!["exec", "-it", "-e", "TERM=xterm-256color", "-e", "LANG=C.UTF-8", "-e", "K=V", "-w", "/workspace", "cid", "/bin/bash"]);
    assert!(d.env.is_empty());
}

#[test]
fn pty_loop_steps() {
    assert!(matches!(pty_step(Some(PtyCommand::Write(vec![1, 2]))), PtyStep::Write(d) if d == vec![1, 2]));
    assert!(matches!(pty_step(Some(PtyCommand::Resize { cols: 100, rows: 40 })), PtyStep::Resize { cols: 100, rows: 40 }));
    assert!(matches!(pty_step(Some(PtyCommand::Shutdown)), PtyStep::Stop));
    assert!(matches!(pty_step(None), PtyStep::Stop));
}

#[test]
fn pty_reads() {
    assert_eq!(read_pty_chunk(Ok(12)), Some(12));
    assert_eq!(read_pty_chunk(Ok(0)), None);
    assert_eq!(read_pty_chunk(Err(std::io::Error::other("eio"))), None);
    assert_eq!(read_pty_chunk(Err(std::io::Error::from(std::io::ErrorKind::BrokenPipe))), None);
}

#[test]
fn pty_error_messages() {
    assert_eq!(PtyError::OpenFailed("x".to_string()).message(), "Failed to open PTY: x");
    assert_eq!(PtyError::IoError("y".to_string()).message(), "PTY I/O error: y");
}

#[test]
fn pty_writes_go_on_only_while_they_succeed() {
    assert!(pty_io_succeeded(&Ok(())));
    assert!(!pty_io_succeeded(&Err(std::io::Error::new(std::io::ErrorKind::BrokenPipe, "gone"))));
}
