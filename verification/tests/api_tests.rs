use capsule_runtime::api::{
    check_auth, check_exec_request, create_session_reply, delete_session_reply,
    export_failure_reply, get_session_reply, list_files_command, list_files_reply,
    parse_file_entries, read_file_command, read_file_reply, truncate_output,
    write_file_command, write_file_command_encoded, write_file_reply, exec_reply,
    ExecRequest, ReplyBody, MAX_OUTPUT_BYTES, CreateSessionRequest,
};
use capsule_runtime::docker::{DockerError, ExecResult};
use capsule_runtime::session::{Session, SessionError};

fn exec_ok(code: i64, stdout: &str, stderr: &str) -> Result<ExecResult, SessionError> {
    Ok(ExecResult { exit_code: code, stdout: stdout.to_string(), stderr: stderr.to_string() })
}

fn text_of(body: &ReplyBody) -> &str {
    match body {
        ReplyBody::Text(t) => t.as_str(),
        _ => panic!("not a text body"),
    }
}

#[test]
fn auth_without_token_lets_everything_pass() {
    assert_eq!(check_auth(&None, None), Ok(()));
    assert_eq!(check_auth(&None, Some("Bearer whatever")), Ok(()));
}

#[test]
fn auth_with_token_needs_exact_bearer_header() {
    let token = Some("s3cret".to_string());
    assert_eq!(check_auth(&token, Some("Bearer s3cret")), Ok(()));
    assert_eq!(check_auth(&token, None), Err(401));
    assert_eq!(check_auth(&token, Some("Bearer s3cre")), Err(401));
    assert_eq!(check_auth(&token, Some("bearer s3cret")), Err(401));
    assert_eq!(check_auth(&token, Some("s3cret")), Err(401));
    assert_eq!(check_auth(&token, Some("Bearer  s3cret")), Err(401));
}

#[test]
fn short_output_is_unchanged() {
    assert_eq!(truncate_output("hello".to_string()), "hello");
    let exact = "a".repeat(MAX_OUTPUT_BYTES);
    assert_eq!(truncate_output(exact.clone()), exact);
}

#[test]
fn long_output_is_cut_at_one_mebibyte() {
    let long = "b".repeat(MAX_OUTPUT_BYTES + 10);
    let out = truncate_output(long);
    assert_eq!(out.len(), MAX_OUTPUT_BYTES + "\n... [output truncated at 1MB]".len());
    assert!(out.starts_with(&"b".repeat(MAX_OUTPUT_BYTES)));
    assert!(out.ends_with("\n... [output truncated at 1MB]"));
}

#[test]
fn file_listing_is_parsed_line_by_line() {
    let out = "src\td\t4096\t/workspace/src\nmain.rs\tf\t120\t/workspace/main.rs\r\nbad line\nlink\tl\tnotanumber\t/workspace/a\tb\n";
    let entries = parse_file_entries(out);
    assert_eq!(entries.len(), 3);
    assert_eq!(entries[0].name, "src");
    assert_eq!(entries[0].file_type, "d");
    assert_eq!(entries[0].size, 4096);
    assert_eq!(entries[0].path, "/workspace/src");
    assert_eq!(entries[1].name, "main.rs");
    assert_eq!(entries[1].file_type, "f");
    assert_eq!(entries[1].path, "/workspace/main.rs");
    assert_eq!(entries[2].file_type, "f");
    assert_eq!(entries[2].size, 0);
    assert_eq!(entries[2].path, "/workspace/a\tb");
}

#[test]
fn file_listing_edge_cases() {
    assert!(parse_file_entries("").is_empty());
    assert!(parse_file_entries("\n\n").is_empty());
    let last = parse_file_entries("x\tf\t1\t/p\r");
    assert_eq!(last.len(), 1);
    assert_eq!(last[0].path, "/p\r");
}

#[test]
fn list_files_command_defaults_to_workspace() {
    let c = list_files_command(None).ok().unwrap();
    assert_eq!(c, vec!["find", "/workspace", "-maxdepth", "1", "-not", "-path", "/workspace", "-printf", "%f\\t%y\\t%s\\t%p\\n"]);
    let d = list_files_command(Some("/workspace/src".to_string())).ok().unwrap();
    assert_eq!(d[1], "/workspace/src");
    assert_eq!(d[6], "/workspace/src");
}

#[test]
fn file_paths_must_stay_in_the_workspace() {
    for p in ["/etc", "/workspace/../home", "..", "/", "/workspaces", "src/../../etc", "/workspace/./../tmp"] {
        let e = list_files_command(Some(p.to_string())).err().unwrap();
        assert_eq!(e.status, 400);
        assert_eq!(text_of(&e.body), "path must be inside /workspace");
        assert_eq!(read_file_command(Some(p.to_string())).err().unwrap().status, 400);
        assert_eq!(write_file_command(Some(p.to_string()), "x").err().unwrap().status, 400);
    }
    for p in ["/workspace", "/workspace/", "src", "", "./a", "/workspace/a/../b", "//workspace//x", "/../workspace/y"] {
        assert!(list_files_command(Some(p.to_string())).is_ok(), "{p}");
        assert!(read_file_command(Some(p.to_string())).is_ok(), "{p}");
        assert!(write_file_command(Some(p.to_string()), "x").is_ok(), "{p}");
    }
}

#[test]
fn output_is_cut_at_the_last_character_boundary() {
    let s = "a".to_string() + &"é".repeat(524_288);
    assert_eq!(s.len(), MAX_OUTPUT_BYTES + 1);
    let out = truncate_output(s);
    assert_eq!(out, "a".to_string() + &"é".repeat(524_287) + "\n... [output truncated at 1MB]");
}

#[test]
fn list_files_replies() {
    let ok = list_files_reply(exec_ok(0, "a\tf\t3\t/w/a\n", ""));
    assert_eq!(ok.status, 200);
    match ok.body {
        ReplyBody::Files(es) => assert_eq!(es.len(), 1),
        _ => panic!("expected files"),
    }
    let missing = list_files_reply(exec_ok(1, "", "no such dir"));
    assert_eq!(missing.status, 404);
    assert_eq!(text_of(&missing.body), "Directory not found");
    let gone = list_files_reply(Err(SessionError::NotFound));
    assert_eq!(gone.status, 404);
    assert!(matches!(gone.body, ReplyBody::Empty));
    let broken = list_files_reply(Err(SessionError::Docker(DockerError::ExecTimeout(10))));
    assert_eq!(broken.status, 500);
    assert_eq!(text_of(&broken.body), "Docker error: Exec timed out after 10s");
}

#[test]
fn read_file_needs_a_path() {
    let r = read_file_command(None).err().unwrap();
    assert_eq!(r.status, 400);
    assert_eq!(text_of(&r.body), "path parameter required");
    assert_eq!(read_file_command(Some("/workspace/hosts".to_string())).ok().unwrap(), vec!["cat", "/workspace/hosts"]);
}

#[test]
fn read_file_replies() {
    let r = read_file_reply(exec_ok(0, "content", ""));
    assert_eq!(r.status, 200);
    assert_eq!(text_of(&r.body), "content");
    let nf = read_file_reply(exec_ok(1, "", "cat: x: No such file"));
    assert_eq!(nf.status, 404);
    assert_eq!(text_of(&nf.body), "File not found");
}

#[test]
fn write_file_command_encodes_content_in_base64() {
    let c = write_file_command(Some("/workspace/a.txt".to_string()), "hello").ok().unwrap();
    assert_eq!(c, vec!["sh", "-c", "echo 'aGVsbG8=' | base64 -d > '/workspace/a.txt'"]);
    let e = write_file_command(None, "x").err().unwrap();
    assert_eq!(e.status, 400);
}

#[test]
fn write_file_command_escapes_quotes_in_path() {
    let c = write_file_command_encoded("it's.txt", "QQ==");
    assert_eq!(c[2], "echo 'QQ==' | base64 -d > 'it'\\''s.txt'");
}

#[test]
fn write_file_replies() {
    assert_eq!(write_file_reply(exec_ok(0, "", "")).status, 204);
    let failed = write_file_reply(exec_ok(2, "", "permission denied"));
    assert_eq!(failed.status, 500);
    assert_eq!(text_of(&failed.body), "permission denied");
    assert_eq!(write_file_reply(Err(SessionError::NotFound)).status, 404);
}

#[test]
fn exec_request_checks() {
    let empty = ExecRequest { command: vec![], timeout: None };
    let r = check_exec_request(&empty).err().unwrap();
    assert_eq!(r.status, 400);
    assert_eq!(text_of(&r.body), "command must not be empty");
    let cmd = |t| ExecRequest { command: vec!["ls".to_string()], timeout: t };
    assert_eq!(check_exec_request(&cmd(None)).ok(), Some(60));
    assert_eq!(check_exec_request(&cmd(Some(5))).ok(), Some(5));
    assert_eq!(check_exec_request(&cmd(Some(300))).ok(), Some(300));
    assert_eq!(check_exec_request(&cmd(Some(10_000))).ok(), Some(300));
}

#[test]
fn exec_replies() {
    let ok = exec_reply(exec_ok(3, "out", "err"));
    assert_eq!(ok.status, 200);
    match ok.body {
        ReplyBody::Exec(e) => {
            assert_eq!(e.exit_code, 3);
            assert_eq!(e.stdout, "out");
            assert_eq!(e.stderr, "err");
        }
        _ => panic!("expected exec body"),
    }
    assert_eq!(exec_reply(Err(SessionError::NotFound)).status, 404);
    let e = exec_reply(Err(SessionError::Docker(DockerError::Bollard("boom".to_string()))));
    assert_eq!(e.status, 500);
    assert_eq!(text_of(&e.body), "Docker error: Docker error: boom");
}

#[test]
fn create_and_delete_replies() {
    let c = create_session_reply(Ok("abc".to_string()));
    assert_eq!(c.status, 201);
    match c.body {
        ReplyBody::Created(r) => {
            assert_eq!(r.session_id, "abc");
            assert_eq!(r.state, "active");
        }
        _ => panic!("expected created body"),
    }
    let f = create_session_reply(Err(SessionError::NotInteractive));
    assert_eq!(f.status, 500);
    assert_eq!(text_of(&f.body), "Operation not supported for headless session");
    assert_eq!(delete_session_reply(true).status, 204);
    assert_eq!(delete_session_reply(false).status, 404);
}

#[test]
fn session_status_reply() {
    let s: Session<(), ()> = Session::headless("id-1".to_string(), "c1".to_string(), 1_000);
    let r = get_session_reply(Some(&s), 62_500);
    assert_eq!(r.status, 200);
    match r.body {
        ReplyBody::Status(st) => {
            assert_eq!(st.session_id, "id-1");
            assert_eq!(st.state, "active");
            assert_eq!(st.kind, "headless");
            assert_eq!(st.uptime_seconds, 61);
        }
        _ => panic!("expected status body"),
    }
    assert_eq!(get_session_reply::<(), ()>(None, 0).status, 404);
}

#[test]
fn create_request_becomes_container_config() {
    let req = CreateSessionRequest {
        credentials: Some(vec![("ANTHROPIC_API_KEY".to_string(), "k".to_string())]),
        agent: Some("aider".to_string()),
        image: None,
        enable_dind: None,
        repo: Some("https://example.com/r.git".to_string()),
    };
    let config = req.into_config();
    assert!(!config.enable_dind);
    assert!(config.image.is_none());
    assert_eq!(config.env_vars.to_pairs(), vec![
        ("ANTHROPIC_API_KEY".to_string(), "k".to_string()),
        ("CAPSULE_AGENT".to_string(), "aider".to_string()),
        ("CAPSULE_REPO".to_string(), "https://example.com/r.git".to_string()),
    ]);
}

#[test]
fn export_failure_is_not_found() {
    let r = export_failure_reply(&SessionError::NotFound);
    assert_eq!(r.status, 404);
    assert_eq!(text_of(&r.body), "Export failed: Session not found");
}

#[test]
fn printed_listing_reads_back_its_entries() {
    let out = "a b\tf\t0\t/w/a b\n.hidden\td\t18446744073709551615\t/w/\t.hidden\nempty\tf\t7\t\n";
    let entries = parse_file_entries(out);
    assert_eq!(entries.len(), 3);
    assert_eq!(entries[0].name, "a b");
    assert_eq!(entries[0].size, 0);
    assert_eq!(entries[0].path, "/w/a b");
    assert_eq!(entries[1].file_type, "d");
    assert_eq!(entries[1].size, u64::MAX);
    assert_eq!(entries[1].path, "/w/\t.hidden");
    assert_eq!(entries[2].name, "empty");
    assert_eq!(entries[2].size, 7);
    assert_eq!(entries[2].path, "");
}
