use capsule_runtime::docker::{ContainerConfig, DockerError};
use capsule_runtime::pty::PtyError;
use capsule_runtime::session::{
    create_start, create_step, CreateAction, CreateEvent, repo_clone_command, Session, SessionError, SessionKind, SessionManager, SessionState,
    HEARTBEAT_TIMEOUT_MS, IDLE_TIMEOUT_MS, RECONNECT_TIMEOUT_MS,
};

type Table = SessionManager<u8, &'static str>;

fn interactive(id: &str, now: u64) -> Session<u8, &'static str> {
    Session::interactive(id.to_string(), format!("c-{id}"), 1, "rx", now)
}

#[test]
fn insert_then_get_then_remove() {
    let mut m: Table = SessionManager::new();
    m.insert_session(interactive("a", 0));
    m.insert_session(Session::headless("b".to_string(), "c-b".to_string(), 0));
    assert_eq!(m.len(), 2);
    assert_eq!(m.get_session("a").unwrap().container_id, "c-a");
    assert!(m.get_session("zzz").is_none());
    let removed = m.remove_session("a").unwrap();
    assert_eq!(removed.id, "a");
    assert!(m.get_session("a").is_none());
    assert!(m.get_session("b").is_some());
    assert!(m.remove_session("a").is_none());
    assert_eq!(m.list_sessions(), vec!["b".to_string()]);
}

#[test]
fn inserting_the_same_id_replaces_the_session() {
    let mut m: Table = SessionManager::new();
    m.insert_session(interactive("a", 0));
    m.insert_session(Session::headless("a".to_string(), "other".to_string(), 5));
    assert_eq!(m.len(), 1);
    assert_eq!(m.get_session("a").unwrap().container_id, "other");
}

#[test]
fn disconnect_then_reconnect_restores_the_session() {
    let mut m: Table = SessionManager::new();
    m.insert_session(interactive("a", 0));
    let rx = m.take_output_rx("a");
    assert_eq!(rx, Some("rx"));
    // a connected client: not reconnectable
    assert!(matches!(m.reconnect_session("a", 10), Err(SessionError::NotReconnectable)));
    m.mark_disconnected("a", "rx", 1_000);
    assert_eq!(m.get_session("a").unwrap().state, SessionState::Disconnected { since: 1_000 });
    assert!(m.reconnect_session("a", 1_000 + RECONNECT_TIMEOUT_MS - 1).is_ok());
    let s = m.get_session("a").unwrap();
    assert_eq!(s.state, SessionState::Active);
    assert_eq!(s.last_activity, 1_000 + RECONNECT_TIMEOUT_MS - 1);
    // the output is parked until a client takes it again
    assert_eq!(m.take_output_rx("a"), Some("rx"));
}

#[test]
fn reconnect_refusals() {
    let mut m: Table = SessionManager::new();
    assert!(matches!(m.reconnect_session("nope", 0), Err(SessionError::NotFound)));
    m.insert_session(interactive("a", 0));
    m.take_output_rx("a");
    m.mark_disconnected("a", "rx", 0);
    assert!(matches!(m.reconnect_session("a", RECONNECT_TIMEOUT_MS), Err(SessionError::NotReconnectable)));
    m.insert_session(interactive("b", 0));
    m.mark_disconnected("b", "rx", 0);
    m.take_output_rx("b");
    assert!(matches!(m.reconnect_session("b", 1), Err(SessionError::AlreadyConnected)));
    m.insert_session(Session::headless("h".to_string(), "c".to_string(), 0));
    m.mark_disconnected("h", "rx", 0);
    assert!(matches!(m.reconnect_session("h", 1), Err(SessionError::NotInteractive)));
}

#[test]
fn session_predicates() {
    let s = interactive("a", 0);
    assert!(!s.is_stale(HEARTBEAT_TIMEOUT_MS));
    assert!(s.is_stale(HEARTBEAT_TIMEOUT_MS + 1));
    assert!(!s.is_idle(IDLE_TIMEOUT_MS));
    assert!(s.is_idle(IDLE_TIMEOUT_MS + 1));
    assert!(!s.is_reconnectable(0));
    assert!(s.is_interactive());
    let mut d = interactive("d", 0);
    d.state = SessionState::Disconnected { since: 100 };
    assert!(d.is_reconnectable(100 + RECONNECT_TIMEOUT_MS - 1));
    assert!(!d.is_reconnectable(100 + RECONNECT_TIMEOUT_MS));
    // a clock read before the disconnection counts as no time elapsed
    assert!(d.is_reconnectable(0));
}

#[test]
fn touch_updates_activity() {
    let mut s = interactive("a", 0);
    s.touch(50);
    assert_eq!((s.last_activity, s.last_pty_activity), (50, 0));
    s.touch_pty(70);
    assert_eq!((s.last_activity, s.last_pty_activity), (70, 70));
    let mut m: Table = SessionManager::new();
    m.insert_session(interactive("a", 0));
    m.touch_session("a", 9);
    m.touch_session_pty("a", 11);
    m.touch_session("missing", 9);
    let t = m.get_session("a").unwrap();
    assert_eq!((t.last_activity, t.last_pty_activity), (11, 11));
}

#[test]
fn output_receiver_moves_in_and_out() {
    let mut s = interactive("a", 0);
    assert_eq!(s.take_output_rx(), Some("rx"));
    assert_eq!(s.take_output_rx(), None);
    s.put_output_rx("rx2");
    assert_eq!(s.take_output_rx(), Some("rx2"));
    let mut h: Session<u8, &str> = Session::headless("h".to_string(), "c".to_string(), 0);
    h.put_output_rx("ignored");
    assert_eq!(h.take_output_rx(), None);
    assert!(h.pty_sender().is_none());
    assert_eq!(s.pty_sender(), Some(&1));
    assert!(matches!(s.kind, SessionKind::Interactive { .. }));
}

#[test]
fn cleanup_removes_idle_and_expired_and_disconnects_stale() {
    let now = IDLE_TIMEOUT_MS + 10;
    let mut m: Table = SessionManager::new();
    let mut idle = interactive("idle", 0);
    idle.touch(now); // active recently, but no terminal input for too long
    m.insert_session(idle);
    let mut stale = interactive("stale", 0);
    stale.touch_pty(now - HEARTBEAT_TIMEOUT_MS - 1);
    m.insert_session(stale);
    let mut expired = interactive("expired", 0);
    expired.state = SessionState::Disconnected { since: now - RECONNECT_TIMEOUT_MS };
    m.insert_session(expired);
    let mut waiting = interactive("waiting", 0);
    waiting.state = SessionState::Disconnected { since: now - 1 };
    m.insert_session(waiting);
    let mut fresh = interactive("fresh", 0);
    fresh.touch_pty(now);
    m.insert_session(fresh);

    let removed = m.cleanup_expired_sessions(now);
    let removed_ids: Vec<String> = removed.iter().map(|s| s.id.clone()).collect();
    assert_eq!(removed_ids, vec!["idle".to_string(), "expired".to_string()]);
    assert_eq!(m.list_sessions(), vec!["stale".to_string(), "waiting".to_string(), "fresh".to_string()]);
    assert_eq!(m.get_session("stale").unwrap().state, SessionState::Disconnected { since: now });
    assert_eq!(m.get_session("fresh").unwrap().state, SessionState::Active);

    // a second cleanup at the same time changes nothing
    let again = m.cleanup_expired_sessions(now);
    assert!(again.is_empty());
    assert_eq!(m.list_sessions().len(), 3);
}

#[test]
fn warm_pool_is_last_in_first_out() {
    let mut m: Table = SessionManager::new();
    assert_eq!(m.take_warm_container(), None);
    m.push_warm_container("w1".to_string());
    m.push_warm_container("w2".to_string());
    assert_eq!(m.take_warm_container(), Some("w2".to_string()));
    assert_eq!(m.take_warm_container(), Some("w1".to_string()));
    assert_eq!(m.take_warm_container(), None);
}

#[test]
fn container_lookup() {
    let mut m: Table = SessionManager::new();
    m.insert_session(interactive("a", 0));
    assert_eq!(m.session_container("a").ok(), Some("c-a".to_string()));
    assert!(matches!(m.session_container("b"), Err(SessionError::NotFound)));
}

#[test]
fn error_messages() {
    assert_eq!(SessionError::NotFound.message(), "Session not found");
    assert_eq!(SessionError::NotReconnectable.message(), "Session not reconnectable");
    assert_eq!(SessionError::AlreadyConnected.message(), "Session already has active connection");
    assert_eq!(SessionError::NotInteractive.message(), "Operation not supported for headless session");
    assert_eq!(
        SessionError::Pty(capsule_runtime::pty::PtyError::SpawnFailed("no bash".to_string())).message(),
        "PTY error: Failed to spawn process: no bash"
    );
}

#[test]
fn repo_is_cloned_into_the_workspace() {
    assert_eq!(repo_clone_command("https://x/y.git"), vec!["git", "clone", "https://x/y.git", "."]);
}

#[test]
fn interactive_creation_takes_a_warm_container_then_seeds_then_spawns() {
    let mut config = ContainerConfig::default();
    config.env_vars.insert("K".to_string(), "v".to_string());
    config.env_vars.insert("CAPSULE_REPO".to_string(), "https://example.org/r.git".to_string());
    assert!(matches!(create_start(&config, true), CreateAction::TakeWarmContainer));
    assert!(matches!(create_step(&config, true, CreateEvent::WarmContainer(None)), CreateAction::CreateContainer));
    match create_step(&config, true, CreateEvent::WarmContainer(Some("w1".to_string()))) {
        CreateAction::SeedRepo { container_id, repo } => {
            assert_eq!(container_id, "w1");
            assert_eq!(repo, "https://example.org/r.git");
        }
        _ => panic!("expected the repository clone"),
    }
    match create_step(&config, true, CreateEvent::RepoSeeded { container_id: "w1".to_string() }) {
        CreateAction::SpawnPty { container_id, env } => {
            assert_eq!(container_id, "w1");
            assert_eq!(env, vec![("K".to_string(), "v".to_string()), ("CAPSULE_REPO".to_string(), "https://example.org/r.git".to_string())]);
        }
        _ => panic!("expected the terminal"),
    }
    match create_step(&config, true, CreateEvent::PtySpawned { container_id: "w1".to_string(), result: Ok(()) }) {
        CreateAction::Register { container_id } => assert_eq!(container_id, "w1"),
        _ => panic!("expected the session to be stored"),
    }
    match create_step(&config, true, CreateEvent::PtySpawned { container_id: "w1".to_string(), result: Err(PtyError::SpawnFailed("x".to_string())) }) {
        CreateAction::Fail(e) => assert_eq!(e.message(), "PTY error: Failed to spawn process: x"),
        _ => panic!("expected a failure"),
    }
}

#[test]
fn headless_and_custom_creations_get_their_own_container() {
    let config = ContainerConfig::default();
    assert!(matches!(create_start(&config, false), CreateAction::CreateContainer));
    let mut custom = ContainerConfig::default();
    custom.enable_dind = true;
    assert!(matches!(create_start(&custom, true), CreateAction::CreateContainer));
    match create_step(&config, false, CreateEvent::ContainerCreated(Ok("c9".to_string()))) {
        CreateAction::Register { container_id } => assert_eq!(container_id, "c9"),
        _ => panic!("expected the session to be stored"),
    }
    match create_step(&config, false, CreateEvent::ContainerCreated(Err(DockerError::Bollard("down".to_string())))) {
        CreateAction::Fail(e) => assert_eq!(e.message(), "Docker error: Docker error: down"),
        _ => panic!("expected a failure"),
    }
}
