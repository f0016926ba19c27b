//! The Observal admin API client: its configuration, the requests it makes
//! for each session, and how it reads the answers.

use vstd::prelude::*;
use crate::docker::{has_short_id, opt_view};
use crate::text::{byte_prefix, concat, decimal, decimal_text, owned, prefix_bytes, replace_all, replace_text};

verus! {

pub enum ObservalError {
    /// The HTTP request failed; the text is the client's message.
    Http(String),
    Api { status: u16, body: String },
    NotConfigured,
}

impl ObservalError {
    /// The text of the error.
    pub open spec fn text(&self) -> Seq<char> {
        match self {
            ObservalError::Http(m) => "HTTP error: "@ + m@,
            ObservalError::Api { status, body } => "Observal API error ("@ + decimal(*status as nat)
                + "): "@ + body@,
            ObservalError::NotConfigured => "Observal not configured"@,
        }
    }

    /// The text of the error, as it is logged.
    pub fn message(&self) -> (r: String)
        ensures
            r@ == self.text(),
    {
        match self {
            ObservalError::Http(m) => concat("HTTP error: ", m.as_str()),
            ObservalError::Api { status, body } => {
                let d = decimal_text(*status as u64);
                let a = concat("Observal API error (", d.as_str());
                let b = concat(a.as_str(), "): ");
                concat(b.as_str(), body.as_str())
            },
            ObservalError::NotConfigured => owned("Observal not configured"),
        }
    }
}

pub struct ObservalTokens {
    pub access_token: String,
    pub refresh_token: String,
}

/// Whether an HTTP status is a success (2xx).
pub open spec fn is_success(status: u16) -> bool {
    200 <= status <= 299
}

/// Reads an answer's status: a success passes, anything else is an API
/// error carrying the status and the answer's body.
pub fn check_response(status: u16, body: String) -> (r: Result<(), ObservalError>)
    ensures
        is_success(status) ==> r is Ok,
        !is_success(status) ==> (r matches Err(ObservalError::Api { status: s, body: b }) && s
            == status && b == body),
{
    if 200 <= status && status <= 299 {
        Ok(())
    } else {
        Err(ObservalError::Api { status, body })
    }
}

/// The address containers use to reach Observal when none is configured:
/// the API address with `127.0.0.1` replaced by `host.docker.internal`.
pub open spec fn container_url_default(api_url: Seq<char>) -> Seq<char> {
    replace_all(api_url, "127.0.0.1"@, "host.docker.internal"@)
}

/// The e-mail of the Observal user of a session.
pub open spec fn session_user_email(session_id: Seq<char>) -> Seq<char> {
    "session-"@ + byte_prefix(session_id, 8) + "@capsule.local"@
}

/// The display name of the Observal user of a session.
pub open spec fn session_user_name(session_id: Seq<char>) -> Seq<char> {
    "Session "@ + byte_prefix(session_id, 8)
}

/// An admin request that creates the Observal user of a session.
pub struct NewUserRequest {
    pub admin_token: String,
    pub email: String,
    pub name: String,
    pub role: String,
}

/// Credentials for a login request.
pub struct LoginRequest {
    pub email: String,
    pub password: String,
}

/// What to do after a health check while waiting for Observal to start.
#[derive(Debug, Clone, Copy, PartialEq, Eq, Structural)]
pub enum WaitStep {
    /// Observal is up: authenticate.
    Ready,
    /// Sleep and check again.
    Retry,
    /// Give up and run without Observal.
    GiveUp,
}

/// How many health checks are made before giving up.
pub const HEALTH_ATTEMPTS: u32 = 30;

/// The seconds slept between health checks.
pub const HEALTH_RETRY_SECS: u64 = 2;

/// The decision after health check number `attempt` (counting from 1).
pub fn health_wait_step(attempt: u32, healthy: bool) -> (r: WaitStep)
    ensures
        healthy ==> r == WaitStep::Ready,
        !healthy && attempt >= HEALTH_ATTEMPTS ==> r == WaitStep::GiveUp,
        !healthy && attempt < HEALTH_ATTEMPTS ==> r == WaitStep::Retry,
{
    if healthy {
        WaitStep::Ready
    } else if attempt >= HEALTH_ATTEMPTS {
        WaitStep::GiveUp
    } else {
        WaitStep::Retry
    }
}

pub struct ObservalClient {
    api_url: String,
    container_api_url: String,
    admin_email: String,
    admin_password: String,
    admin_token: Option<String>,
}

impl ObservalClient {
    pub closed spec fn api_url_view(&self) -> Seq<char> {
        self.api_url@
    }

    pub closed spec fn container_api_url_view(&self) -> Seq<char> {
        self.container_api_url@
    }

    pub closed spec fn admin_email_view(&self) -> Seq<char> {
        self.admin_email@
    }

    pub closed spec fn admin_password_view(&self) -> Seq<char> {
        self.admin_password@
    }

    pub closed spec fn admin_token_view(&self) -> Option<Seq<char>> {
        opt_view(self.admin_token)
    }

    /// The client that the Observal variables configure: none without
    /// `OBSERVAL_API_URL`; the container address defaults to the API address
    /// as containers see the host, the admin account to
    /// `admin@capsule.local` with the default password. Not yet
    /// authenticated.
    pub fn from_env(
        api_url: Option<String>,
        container_url: Option<String>,
        admin_email: Option<String>,
        admin_password: Option<String>,
    ) -> (r: Option<Self>)
        ensures
            api_url is None ==> r is None,
            api_url matches Some(u) ==> (r matches Some(c) && {
                &&& c.api_url_view() == u@
                &&& c.container_api_url_view() == match container_url {
                    Some(x) => x@,
                    None => container_url_default(u@),
                }
                &&& c.admin_email_view() == match admin_email {
                    Some(x) => x@,
                    None => "admin@capsule.local"@,
                }
                &&& c.admin_password_view() == match admin_password {
                    Some(x) => x@,
                    None => "capsule-admin-changeme"@,
                }
                &&& c.admin_token_view() is None
            }),
    {
        let api_url = match api_url {
            Some(u) => u,
            None => return None,
        };
        proof {
            reveal_strlit("127.0.0.1");
        }
        let container_api_url = match container_url {
            Some(x) => x,
            None => replace_text(api_url.as_str(), "127.0.0.1", "host.docker.internal"),
        };
        let admin_email = match admin_email {
            Some(x) => x,
            None => owned("admin@capsule.local"),
        };
        let admin_password = match admin_password {
            Some(x) => x,
            None => owned("capsule-admin-changeme"),
        };
        Some(ObservalClient { api_url, container_api_url, admin_email, admin_password, admin_token: None })
    }

    /// The address of the login endpoint.
    pub fn login_url(&self) -> (r: String)
        ensures
            r@ == self.api_url_view() + "/api/v1/auth/login"@,
    {
        concat(self.api_url.as_str(), "/api/v1/auth/login")
    }

    /// The address of the user administration endpoint.
    pub fn users_url(&self) -> (r: String)
        ensures
            r@ == self.api_url_view() + "/api/v1/admin/users"@,
    {
        concat(self.api_url.as_str(), "/api/v1/admin/users")
    }

    /// The address of the readiness endpoint.
    pub fn health_url(&self) -> (r: String)
        ensures
            r@ == self.api_url_view() + "/readyz"@,
    {
        concat(self.api_url.as_str(), "/readyz")
    }

    /// The admin login.
    pub fn admin_login(&self) -> (r: LoginRequest)
        ensures
            r.email@ == self.admin_email_view(),
            r.password@ == self.admin_password_view(),
    {
        LoginRequest { email: self.admin_email.clone(), password: self.admin_password.clone() }
    }

    /// Caches the admin token from a successful admin login.
    pub fn set_admin_token(&mut self, access_token: String)
        ensures
            final(self).admin_token_view() == Some(access_token@),
            final(self).api_url_view() == old(self).api_url_view(),
            final(self).container_api_url_view() == old(self).container_api_url_view(),
            final(self).admin_email_view() == old(self).admin_email_view(),
            final(self).admin_password_view() == old(self).admin_password_view(),
    {
        self.admin_token = Some(access_token);
    }

    /// The cached admin token; without one the client is not configured.
    pub fn admin_token(&self) -> (r: Result<&String, ObservalError>)
        ensures
            match self.admin_token_view() {
                Some(t) => r matches Ok(s) && s@ == t,
                None => r matches Err(ObservalError::NotConfigured),
            },
    {
        match &self.admin_token {
            Some(t) => Ok(t),
            None => Err(ObservalError::NotConfigured),
        }
    }

    /// The request that creates the Observal user of a session: made with
    /// the admin token, for `session-<first 8 bytes of the id>@capsule.local`
    /// named `Session <first 8 bytes>` with the `admin` role.
    pub fn new_user_request(&self, session_id: &str) -> (r: Result<NewUserRequest, ObservalError>)
        requires
            has_short_id(session_id@),
        ensures
            match self.admin_token_view() {
                None => r matches Err(ObservalError::NotConfigured),
                Some(t) => r matches Ok(q) && {
                    &&& q.admin_token@ == t
                    &&& q.email@ == session_user_email(session_id@)
                    &&& q.name@ == session_user_name(session_id@)
                    &&& q.role@ == "admin"@
                },
            },
    {
        let token = self.admin_token()?;
        let short = prefix_bytes(session_id, 8);
        let e = concat("session-", short.as_str());
        let email = concat(e.as_str(), "@capsule.local");
        let name = concat("Session ", short.as_str());
        Ok(NewUserRequest { admin_token: token.clone(), email, name, role: owned("admin") })
    }

    /// The address of the Observal API, for the runtime itself.
    pub fn api_url(&self) -> (r: &String)
        ensures
            r@ == self.api_url_view(),
    {
        &self.api_url
    }

    /// The address of the Observal API as containers reach it.
    pub fn container_api_url(&self) -> (r: &String)
        ensures
            r@ == self.container_api_url_view(),
    {
        &self.container_api_url
    }

    /// The cached admin token, if any.
    pub fn admin_token_value(&self) -> (r: Option<&String>)
        ensures
            match self.admin_token_view() {
                Some(t) => r matches Some(s) && s@ == t,
                None => r is None,
            },
    {
        match &self.admin_token {
            Some(t) => Some(t),
            None => None,
        }
    }
}

} // verus!
