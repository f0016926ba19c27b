use capsule_runtime::observal::{check_response, health_wait_step, ObservalClient, ObservalError, WaitStep};
use capsule_runtime::proxy::{
    api_target_url, asset_target_url, bind_addr, dashboard_authorization, dashboard_gate,
    dashboard_page, dashboard_target_url,
    drop_request_header, drop_response_header, inject_token_script, is_html_page_path,
    is_insights_path, observal_api_url, observal_web_url, TOKEN_SCRIPT,
};
use capsule_runtime::session::SessionError;
use capsule_runtime::websocket::{
    confirm_message, creation_failure_message, provisioning_message, reconnect_failure_message,
    ws_action, ClientMessage, InitEvent, InitHandshake, InitPhase, InitStep, ServerMessage,
    WsAction, WsIncoming,
};

fn config_message(agent: &str) -> ClientMessage {
    ClientMessage::SessionConfig {
        credentials: None,
        agent: Some(agent.to_string()),
        image: None,
        enable_dind: Some(false),
        repo: None,
    }
}

#[test]
fn handshake_resize_then_config() {
    let mut h = InitHandshake::new(1000);
    assert_eq!(h.wait_ms(1000), 5000);
    assert_eq!(h.step(InitEvent::Message(Some(ClientMessage::Ping)), 1100), InitStep::Continue);
    assert_eq!(h.wait_ms(1100), 4900);
    assert_eq!(h.step(InitEvent::Message(None), 1200), InitStep::Continue);
    assert_eq!(h.step(InitEvent::Message(Some(ClientMessage::Resize { cols: 120, rows: 40 })), 1300), InitStep::Continue);
    assert_eq!(h.phase, InitPhase::AwaitingConfig);
    assert_eq!(h.wait_ms(1300), 500);
    assert_eq!(h.step(InitEvent::Message(Some(config_message("aider"))), 1400), InitStep::Ready);
    assert_eq!((h.cols, h.rows), (120, 40));
    assert_eq!(h.config.env_vars.get("CAPSULE_AGENT"), Some(&"aider".to_string()));
}

#[test]
fn handshake_config_then_resize() {
    let mut h = InitHandshake::new(0);
    assert_eq!(h.step(InitEvent::Message(Some(config_message("a"))), 10), InitStep::Continue);
    assert_eq!(h.step(InitEvent::Message(Some(ClientMessage::Resize { cols: 90, rows: 30 })), 20), InitStep::Continue);
    // nothing more within the window: proceed with what was collected
    assert_eq!(h.step(InitEvent::TimedOut, 520), InitStep::Ready);
    assert_eq!((h.cols, h.rows), (90, 30));
    assert_eq!(h.config.env_vars.get("CAPSULE_AGENT"), Some(&"a".to_string()));
}

#[test]
fn handshake_timeouts_and_closing() {
    let mut h = InitHandshake::new(0);
    assert_eq!(h.step(InitEvent::TimedOut, 5000), InitStep::Ready);
    assert_eq!((h.cols, h.rows), (80, 24));
    let mut c = InitHandshake::new(0);
    assert_eq!(c.step(InitEvent::Closed, 10), InitStep::Abort);
    let mut w = InitHandshake::new(0);
    w.step(InitEvent::Message(Some(ClientMessage::Resize { cols: 1, rows: 2 })), 10);
    // in the configuration window even a closed socket proceeds
    assert_eq!(w.step(InitEvent::Closed, 20), InitStep::Ready);
}

#[test]
fn handshake_ends_five_seconds_after_it_began() {
    // a client that only pings every 4 s cannot hold the handshake open
    let mut h = InitHandshake::new(0);
    assert_eq!(h.step(InitEvent::Message(Some(ClientMessage::Ping)), 4000), InitStep::Continue);
    assert_eq!(h.wait_ms(4000), 1000);
    assert_eq!(h.wait_ms(6000), 0);
    assert_eq!(h.step(InitEvent::Message(Some(ClientMessage::Ping)), 8000), InitStep::Ready);
    assert_eq!((h.cols, h.rows), (80, 24));
    assert_eq!(h.config.env_vars.len(), 0);
    assert!(h.config.image.is_none());
}

#[test]
fn ws_actions() {
    assert!(matches!(ws_action(WsIncoming::Text(Some(ClientMessage::TerminalInput { data: "é".to_string() }))), WsAction::TerminalInput { data } if data == vec![0xc3, 0xa9]));
    assert!(matches!(ws_action(WsIncoming::Text(Some(ClientMessage::Resize { cols: 3, rows: 4 }))), WsAction::Resize { cols: 3, rows: 4 }));
    assert!(matches!(ws_action(WsIncoming::Text(Some(ClientMessage::Ping))), WsAction::Continue));
    assert!(matches!(ws_action(WsIncoming::Text(Some(config_message("x")))), WsAction::Continue));
    assert!(matches!(ws_action(WsIncoming::Text(None)), WsAction::Continue));
    assert!(matches!(ws_action(WsIncoming::Binary(vec![7])), WsAction::Write { data } if data == vec![7]));
    assert!(matches!(ws_action(WsIncoming::Close), WsAction::Stop));
    assert!(matches!(ws_action(WsIncoming::Other), WsAction::Continue));
}

#[test]
fn server_messages() {
    assert!(matches!(confirm_message(true, "s".to_string()), ServerMessage::Reconnected { session_id } if session_id == "s"));
    assert!(matches!(confirm_message(false, "s".to_string()), ServerMessage::Connected { session_id } if session_id == "s"));
    assert!(matches!(reconnect_failure_message(&SessionError::NotFound), ServerMessage::Error { message } if message == "Session not found"));
    assert!(matches!(reconnect_failure_message(&SessionError::NotReconnectable), ServerMessage::Error { message } if message == "Session expired"));
    assert!(matches!(reconnect_failure_message(&SessionError::AlreadyConnected), ServerMessage::Error { message } if message == "Session already has active connection"));
    assert!(matches!(creation_failure_message(&SessionError::NotFound), ServerMessage::Error { message } if message == "Session not found"));
    assert!(matches!(provisioning_message(), ServerMessage::SessionState { state, detail } if state == "provisioning" && detail == "creating container"));
}

#[test]
fn observal_client_configuration() {
    assert!(ObservalClient::from_env(None, None, None, None).is_none());
    let c = ObservalClient::from_env(Some("http://127.0.0.1:8080".to_string()), None, None, None).unwrap();
    assert_eq!(c.api_url(), "http://127.0.0.1:8080");
    assert_eq!(c.container_api_url(), "http://host.docker.internal:8080");
    let login = c.admin_login();
    assert_eq!(login.email, "admin@capsule.local");
    assert_eq!(login.password, "capsule-admin-changeme");
    assert!(c.admin_token_value().is_none());
    assert_eq!(c.login_url(), "http://127.0.0.1:8080/api/v1/auth/login");
    assert_eq!(c.users_url(), "http://127.0.0.1:8080/api/v1/admin/users");
    assert_eq!(c.health_url(), "http://127.0.0.1:8080/readyz");
    let d = ObservalClient::from_env(Some("u".to_string()), Some("cu".to_string()), Some("e".to_string()), Some("p".to_string())).unwrap();
    assert_eq!(d.container_api_url(), "cu");
    assert_eq!(d.admin_login().email, "e");
}

#[test]
fn observal_user_requests_need_the_admin_token() {
    let mut c = ObservalClient::from_env(Some("http://o".to_string()), None, None, None).unwrap();
    assert!(matches!(c.new_user_request("0123456789"), Err(ObservalError::NotConfigured)));
    c.set_admin_token("adm".to_string());
    assert_eq!(c.admin_token_value().map(|s| s.as_str()), Some("adm"));
    let q = c.new_user_request("abcdef12-3456").ok().unwrap();
    assert_eq!(q.admin_token, "adm");
    assert_eq!(q.email, "session-abcdef12@capsule.local");
    assert_eq!(q.name, "Session abcdef12");
    assert_eq!(q.role, "admin");
}

#[test]
fn observal_responses_and_errors() {
    assert!(check_response(200, String::new()).is_ok());
    assert!(check_response(299, String::new()).is_ok());
    let e = check_response(403, "denied".to_string()).err().unwrap();
    assert_eq!(e.message(), "Observal API error (403): denied");
    assert_eq!(ObservalError::NotConfigured.message(), "Observal not configured");
    assert_eq!(ObservalError::Http("timeout".to_string()).message(), "HTTP error: timeout");
    assert_eq!(health_wait_step(1, true), WaitStep::Ready);
    assert_eq!(health_wait_step(29, false), WaitStep::Retry);
    assert_eq!(health_wait_step(30, false), WaitStep::GiveUp);
}

#[test]
fn proxy_routing() {
    assert!(is_insights_path("api/v1/insights/summary"));
    assert!(!is_insights_path("api/v1/traces"));
    for p in ["", "traces", "sessions", "agents", "login"] {
        assert!(is_html_page_path(p));
    }
    assert!(!is_html_page_path("assets/x.js"));
    assert_eq!(dashboard_target_url("http://w", ""), "http://w/");
    assert_eq!(dashboard_target_url("http://w", "traces"), "http://w/traces");
    assert_eq!(api_target_url("http://a", "x/y"), "http://a/api/v1/x/y");
    assert_eq!(asset_target_url("http://w", "/favicon.ico"), "http://w/favicon.ico");
    assert_eq!(observal_web_url(None), "http://127.0.0.1:3000");
    assert_eq!(observal_api_url(None), "http://127.0.0.1:8080");
    assert_eq!(bind_addr(None), "0.0.0.0:3001");
    assert_eq!(bind_addr(Some("127.0.0.1:9".to_string())), "127.0.0.1:9");
}

#[test]
fn proxy_headers() {
    assert!(drop_request_header("host", false));
    assert!(!drop_request_header("authorization", false));
    assert!(drop_request_header("authorization", true));
    assert!(!drop_request_header("accept", true));
    assert!(drop_response_header("transfer-encoding", false));
    assert!(drop_response_header("connection", false));
    assert!(!drop_response_header("content-length", false));
    assert!(drop_response_header("content-length", true));
    assert!(drop_response_header("x-frame-options", true));
    assert!(drop_response_header("content-security-policy", true));
    assert!(!drop_response_header("content-type", true));
}

#[test]
fn proxy_authorization() {
    let admin = "adm".to_string();
    assert_eq!(dashboard_authorization(true, Some(&admin), Some("Bearer user")), Some("Bearer adm".to_string()));
    assert_eq!(dashboard_authorization(true, None, Some("Bearer user")), None);
    assert_eq!(dashboard_authorization(false, Some(&admin), Some("Bearer user")), Some("Bearer user".to_string()));
    assert_eq!(dashboard_authorization(false, Some(&admin), None), None);
}

#[test]
fn token_script_goes_after_the_first_head() {
    let page = "<html><head><title>x</title></head><head></html>";
    let out = inject_token_script(page);
    assert_eq!(out, format!("<html><head>{}<title>x</title></head><head></html>", TOKEN_SCRIPT));
    assert_eq!(inject_token_script("<p>no head</p>"), "<p>no head</p>");
    assert!(TOKEN_SCRIPT.starts_with("<script>"));
    assert!(!TOKEN_SCRIPT.contains("localStorage"));
    assert!(TOKEN_SCRIPT.contains("sessionStorage.setItem(\"observal_access_token\", t)"));
    assert!(TOKEN_SCRIPT.contains("sessionStorage.setItem(\"observal_refresh_token\", r)"));
}

#[test]
fn handshake_keeps_its_start_time() {
    // configuration first, then the resize, both within the 5 s
    let mut h = InitHandshake::new(100);
    assert_eq!(h.step(InitEvent::Message(Some(config_message("a"))), 4000), InitStep::Continue);
    assert_eq!(h.started, 100);
    assert_eq!(h.step(InitEvent::Message(Some(ClientMessage::Resize { cols: 132, rows: 50 })), 5000), InitStep::Continue);
    assert_eq!(h.started, 100);
    assert_eq!(h.step(InitEvent::Closed, 5200), InitStep::Ready);
    assert_eq!((h.cols, h.rows), (132, 50));
    assert_eq!(h.config.env_vars.get("CAPSULE_AGENT"), Some(&"a".to_string()));
    // a configuration, then the socket closes before any resize: give up
    let mut g = InitHandshake::new(0);
    assert_eq!(g.step(InitEvent::Message(Some(config_message("b"))), 10), InitStep::Continue);
    assert_eq!(g.step(InitEvent::Closed, 20), InitStep::Abort);
}

#[test]
fn dashboard_requests_need_a_session_and_pages_get_the_script() {
    let r = dashboard_gate(false).unwrap();
    assert_eq!(r.status, 404);
    assert!(dashboard_gate(true).is_none());
    let page = dashboard_page(b"<html><head></head></html>");
    assert_eq!(page, format!("<html><head>{}</head></html>", TOKEN_SCRIPT));
    let bad = dashboard_page(b"<p>\xff</p>");
    assert_eq!(bad, "<p>\u{FFFD}</p>");
}
