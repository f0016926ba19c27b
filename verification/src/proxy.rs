//! The Observal proxy: which requests go where, which headers cross, and how
//! dashboard pages are adjusted to run inside the runtime's frame.

use vstd::prelude::*;
use crate::api::{NOT_FOUND, Reply, is_text_reply, text_reply};
use crate::docker::{chunk_text, text_lossy};
use crate::text::{concat, owned, replace_first, replace_first_text, same_text, starts_with, starts_with_text};

verus! {

/// The Observal web address when none is configured.
pub open spec fn default_web_url() -> Seq<char> {
    "http://127.0.0.1:3000"@
}

/// The Observal API address when none is configured.
pub open spec fn default_api_url() -> Seq<char> {
    "http://127.0.0.1:8080"@
}

/// The address the runtime listens on when none is configured.
pub open spec fn default_bind_addr() -> Seq<char> {
    "0.0.0.0:3001"@
}

/// The configured value, or the default.
fn or_default(value: Option<String>, default: &str) -> (r: String)
    ensures
        r@ == (match value {
            Some(v) => v@,
            None => default@,
        }),
{
    match value {
        Some(v) => v,
        None => owned(default),
    }
}

/// The Observal web address: `OBSERVAL_WEB_URL`, or the local default.
pub fn observal_web_url(configured: Option<String>) -> (r: String)
    ensures
        r@ == (match configured {
            Some(v) => v@,
            None => default_web_url(),
        }),
{
    or_default(configured, "http://127.0.0.1:3000")
}

/// The Observal API address: `OBSERVAL_API_URL`, or the local default.
pub fn observal_api_url(configured: Option<String>) -> (r: String)
    ensures
        r@ == (match configured {
            Some(v) => v@,
            None => default_api_url(),
        }),
{
    or_default(configured, "http://127.0.0.1:8080")
}

/// The address to listen on: `CAPSULE_BIND`, or all interfaces on port 3001.
pub fn bind_addr(configured: Option<String>) -> (r: String)
    ensures
        r@ == (match configured {
            Some(v) => v@,
            None => default_bind_addr(),
        }),
{
    or_default(configured, "0.0.0.0:3001")
}

/// The most request body the proxy forwards, in bytes (10 MiB).
pub const MAX_PROXY_BODY_BYTES: usize = 10485760;

/// Whether a dashboard path is an insights API call, which needs the admin
/// token.
pub open spec fn is_insights(path: Seq<char>) -> bool {
    starts_with(path, "api/v1/insights"@)
}

pub fn is_insights_path(path: &str) -> (b: bool)
    ensures
        b == is_insights(path@),
{
    starts_with_text(path, "api/v1/insights")
}

/// Whether a dashboard path is one of its HTML pages.
pub open spec fn is_html_page(path: Seq<char>) -> bool {
    ||| path.len() == 0
    ||| path == "traces"@
    ||| path == "sessions"@
    ||| path == "agents"@
    ||| path == "login"@
}

pub fn is_html_page_path(path: &str) -> (b: bool)
    ensures
        b == is_html_page(path@),
{
    path.is_empty() || same_text(path, "traces") || same_text(path, "sessions") || same_text(
        path,
        "agents",
    ) || same_text(path, "login")
}

/// Where a dashboard request goes: the web address, a slash, and the path.
pub fn dashboard_target_url(web_url: &str, path: &str) -> (r: String)
    ensures
        r@ == web_url@ + "/"@ + path@,
{
    let a = concat(web_url, "/");
    concat(a.as_str(), path)
}

/// Where a request to the Observal API goes.
pub fn api_target_url(api_url: &str, path: &str) -> (r: String)
    ensures
        r@ == api_url@ + "/api/v1/"@ + path@,
{
    let a = concat(api_url, "/api/v1/");
    concat(a.as_str(), path)
}

/// Where a request for a static asset goes: the web address followed by the
/// asset's absolute path.
pub fn asset_target_url(web_url: &str, path: &str) -> (r: String)
    ensures
        r@ == web_url@ + path@,
{
    concat(web_url, path)
}

/// Whether a request header stays behind: `host` always, and `authorization`
/// too for dashboard requests, whose authorization is set separately.
pub open spec fn drops_request_header(name: Seq<char>, dashboard: bool) -> bool {
    name == "host"@ || (dashboard && name == "authorization"@)
}

pub fn drop_request_header(name: &str, dashboard: bool) -> (b: bool)
    ensures
        b == drops_request_header(name@, dashboard),
{
    same_text(name, "host") || (dashboard && same_text(name, "authorization"))
}

/// Whether a response header stays behind: hop-by-hop headers always, and
/// for dashboard pages also those that would stop them from running in a
/// frame or no longer match their body.
pub open spec fn drops_response_header(name: Seq<char>, dashboard: bool) -> bool {
    ||| name == "transfer-encoding"@
    ||| name == "connection"@
    ||| dashboard && name == "content-security-policy"@
    ||| dashboard && name == "x-frame-options"@
    ||| dashboard && name == "content-length"@
}

pub fn drop_response_header(name: &str, dashboard: bool) -> (b: bool)
    ensures
        b == drops_response_header(name@, dashboard),
{
    same_text(name, "transfer-encoding") || same_text(name, "connection") || (dashboard && (
    same_text(name, "content-security-policy") || same_text(name, "x-frame-options") || same_text(
        name,
        "content-length",
    )))
}

/// The `Authorization` header of a dashboard request: for insights calls the
/// admin token as a bearer token when there is one, otherwise the client's
/// own header when it has one.
pub fn dashboard_authorization(insights: bool, admin_token: Option<&String>, client: Option<&str>) -> (r: Option<String>)
    ensures
        insights ==> match admin_token {
            Some(t) => r matches Some(h) && h@ == "Bearer "@ + t@,
            None => r is None,
        },
        !insights ==> match client {
            Some(c) => r matches Some(h) && h@ == c@,
            None => r is None,
        },
{
    if insights {
        match admin_token {
            Some(t) => Some(concat("Bearer ", t.as_str())),
            None => None,
        }
    } else {
        match client {
            Some(c) => Some(owned(c)),
            None => None,
        }
    }
}

/// The script put at the start of every dashboard page: it shows the page at
/// `/` and copies the session's Observal tokens from the parent window into
/// the frame's `sessionStorage`.
pub open spec fn token_script() -> Seq<char> {
    r#"<script>
window.history.replaceState(null, "", "/");
try {
  var t = window.parent.sessionStorage.getItem("observal_access_token");
  var r = window.parent.sessionStorage.getItem("observal_refresh_token");
  if (t) {
    sessionStorage.setItem("observal_access_token", t);
    try {
      var p = JSON.parse(atob(t.split(".")[1]));
      if (p.role) sessionStorage.setItem("observal_user_role", p.role);
      if (p.sub) sessionStorage.setItem("observal_user_email", p.sub);
    } catch(e2) {}
  }
  if (r) {
    sessionStorage.setItem("observal_refresh_token", r);
  }
} catch(e) {}
</script>"#@
}

/// The script put at the start of every dashboard page.
pub const TOKEN_SCRIPT: &'static str = r#"<script>
window.history.replaceState(null, "", "/");
try {
  var t = window.parent.sessionStorage.getItem("observal_access_token");
  var r = window.parent.sessionStorage.getItem("observal_refresh_token");
  if (t) {
    sessionStorage.setItem("observal_access_token", t);
    try {
      var p = JSON.parse(atob(t.split(".")[1]));
      if (p.role) sessionStorage.setItem("observal_user_role", p.role);
      if (p.sub) sessionStorage.setItem("observal_user_email", p.sub);
    } catch(e2) {}
  }
  if (r) {
    sessionStorage.setItem("observal_refresh_token", r);
  }
} catch(e) {}
</script>"#;

/// The answer to a dashboard request before it is forwarded: `404` with
/// `Session not found` for an unknown session, nothing (go on) otherwise.
pub fn dashboard_gate(session_exists: bool) -> (r: Option<Reply>)
    ensures
        session_exists ==> r is None,
        !session_exists ==> (r matches Some(x) && is_text_reply(x, NOT_FOUND, "Session not found"@)),
{
    if session_exists {
        None
    } else {
        Some(text_reply(NOT_FOUND, owned("Session not found")))
    }
}

/// A dashboard page as it is sent on: the upstream bytes read as text, as
/// `String::from_utf8_lossy` reads them, with the token script after the
/// first `<head>`.
pub fn dashboard_page(body: &[u8]) -> (r: String)
    ensures
        r@ == with_token_script(chunk_text(body@)),
{
    let text = text_lossy(body);
    inject_token_script(text.as_str())
}

/// Whether the text `p` occurs somewhere in `s`.
pub open spec fn mentions(s: Seq<char>, p: Seq<char>) -> bool {
    exists|i: int| 0 <= i && i + p.len() <= s.len() && #[trigger] s.subrange(i, i + p.len()) == p
}

/// The dashboard script copies the parent's access and refresh tokens into
/// the frame's `sessionStorage` and never touches `localStorage`, so the
/// tokens do not outlive the browser session.
pub proof fn law_token_script_keeps_tokens_in_session_storage()
    ensures
        !mentions(token_script(), "localStorage"@),
        mentions(token_script(), "sessionStorage.setItem(\"observal_access_token\", t)"@),
        mentions(token_script(), "sessionStorage.setItem(\"observal_refresh_token\", r)"@),
{
    reveal_strlit("localStorage");
    reveal_strlit("sessionStorage.setItem(\"observal_access_token\", t)");
    reveal_strlit("sessionStorage.setItem(\"observal_refresh_token\", r)");
    reveal_strlit(r#"<script>
window.history.replaceState(null, "", "/");
try {
  var t = window.parent.sessionStorage.getItem("observal_access_token");
  var r = window.parent.sessionStorage.getItem("observal_refresh_token");
  if (t) {
    sessionStorage.setItem("observal_access_token", t);
    try {
      var p = JSON.parse(atob(t.split(".")[1]));
      if (p.role) sessionStorage.setItem("observal_user_role", p.role);
      if (p.sub) sessionStorage.setItem("observal_user_email", p.sub);
    } catch(e2) {}
  }
  if (r) {
    sessionStorage.setItem("observal_refresh_token", r);
  }
} catch(e) {}
</script>"#);
    let s = token_script();
    assert forall|i: int| 0 <= i && i + 12 <= s.len() implies #[trigger] s.subrange(i, i + 12) != "localStorage"@ by {
        if s.subrange(i, i + 12) == "localStorage"@ {
            let w = s.subrange(i, i + 12);
            assert(w[0] == s[i] && w[1] == s[i + 1] && w[5] == s[i + 5]);
            assert(s[i] == 'l' && s[i + 1] == 'o' && s[i + 5] == 'S');
        }
    }
    let a = "sessionStorage.setItem(\"observal_access_token\", t)"@;
    let b = "sessionStorage.setItem(\"observal_refresh_token\", r)"@;
    assert(s.subrange(221int, 221int + a.len()) =~= a);
    assert(s.subrange(513int, 513int + b.len()) =~= b);
}

/// A dashboard page with the token script right after its first `<head>`;
/// a page without one is left as it is.
pub open spec fn with_token_script(html: Seq<char>) -> Seq<char> {
    replace_first(html, "<head>"@, "<head>"@ + token_script())
}

pub fn inject_token_script(html: &str) -> (r: String)
    ensures
        r@ == with_token_script(html@),
{
    proof {
        reveal_strlit("<head>");
    }
    let head = concat("<head>", TOKEN_SCRIPT);
    replace_first_text(html, "<head>", head.as_str())
}

} // verus!
