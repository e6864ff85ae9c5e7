//! The admin plane's HTTP error.
//!
//! The variant alone decides the status code, and what the client is told is
//! decided per variant too: a refusal repeats its own reason, while a failure
//! inside the server (a database error, a key that would not decrypt, a
//! provider that fell over) is reported only as its kind, never with its
//! detail. An outside error that knows its own status and public wording
//! carries both in.
use vstd::prelude::*;

verus! {

/// Why an admin request failed. Payloads are the error's own text, kept for
/// the log.
pub enum AdminError {
    NotFound(String),
    BadRequest(String),
    Unauthorized(String),
    Unauthenticated(String),
    Forbidden(String),
    Conflict(String),
    RateLimited(String),
    Unavailable(String),
    Upstream(String),
    Database(String),
    /// A bridge repository error, with the status and wording it carries.
    BridgeRepo { status: u16, public: String },
    /// A marketplace error, with the status and wording it carries.
    Marketplace { status: u16, public: String },
    Crypto(String),
    Internal(String),
}

/// The status code of an error.
pub open spec fn status_spec(e: AdminError) -> u16 {
    match e {
        AdminError::NotFound(_) => 404,
        AdminError::BadRequest(_) => 400,
        AdminError::Unauthorized(_) | AdminError::Unauthenticated(_) => 401,
        AdminError::Forbidden(_) => 403,
        AdminError::Conflict(_) => 409,
        AdminError::RateLimited(_) => 429,
        AdminError::Unavailable(_) => 503,
        AdminError::Upstream(_) => 502,
        AdminError::BridgeRepo { status, .. } => status,
        AdminError::Marketplace { status, .. } => status,
        AdminError::Database(_) | AdminError::Crypto(_) | AdminError::Internal(_) => 500,
    }
}

/// What the client is told.
pub open spec fn public_spec(e: AdminError) -> Seq<char> {
    match e {
        AdminError::NotFound(m) | AdminError::BadRequest(m) | AdminError::Unauthorized(m)
        | AdminError::Forbidden(m) | AdminError::Conflict(m) | AdminError::RateLimited(m)
        | AdminError::Unavailable(m) => m@,
        AdminError::BridgeRepo { public, .. } => public@,
        AdminError::Marketplace { public, .. } => public@,
        AdminError::Upstream(_) => "Upstream service error"@,
        AdminError::Unauthenticated(_) => "Unauthorized"@,
        AdminError::Crypto(_) => "Internal configuration error"@,
        AdminError::Database(_) | AdminError::Internal(_) => "Internal server error"@,
    }
}

/// The error's own description, as the log records it.
pub open spec fn detail_spec(e: AdminError) -> Seq<char> {
    match e {
        AdminError::NotFound(m) => "Not found: "@ + m@,
        AdminError::BadRequest(m) => "Bad request: "@ + m@,
        AdminError::Unauthorized(m) => "Unauthorized: "@ + m@,
        AdminError::Unauthenticated(m) => "Authentication failed: "@ + m@,
        AdminError::Forbidden(m) => "Forbidden: "@ + m@,
        AdminError::Conflict(m) => "Conflict: "@ + m@,
        AdminError::RateLimited(m) => "Too many requests: "@ + m@,
        AdminError::Unavailable(m) => "Unavailable: "@ + m@,
        AdminError::Upstream(m) => "Upstream error: "@ + m@,
        AdminError::Database(m) => "Database error: "@ + m@,
        AdminError::BridgeRepo { public, .. } => "Bridge repository error: "@ + public@,
        AdminError::Marketplace { public, .. } => "Marketplace error: "@ + public@,
        AdminError::Crypto(m) => "Crypto error: "@ + m@,
        AdminError::Internal(m) => "Internal error: "@ + m@,
    }
}

fn prefixed(prefix: &str, m: &String) -> (out: String)
    ensures
        out@ == prefix@ + m@,
{
    let mut out = String::from_str(prefix);
    out.append(m.as_str());
    out
}

impl AdminError {
    /// A failure inside the server, with its detail for the log.
    pub fn internal(detail: String) -> (e: AdminError)
        ensures
            e matches AdminError::Internal(d) && d@ == detail@,
    {
        AdminError::Internal(detail)
    }

    /// A credential that did not authenticate, with why for the log.
    pub fn unauthenticated(detail: String) -> (e: AdminError)
        ensures
            e matches AdminError::Unauthenticated(d) && d@ == detail@,
    {
        AdminError::Unauthenticated(detail)
    }

    /// The status code the variant decides.
    pub fn status(&self) -> (s: u16)
        ensures
            s == status_spec(*self),
    {
        match self {
            AdminError::NotFound(_) => 404,
            AdminError::BadRequest(_) => 400,
            AdminError::Unauthorized(_) | AdminError::Unauthenticated(_) => 401,
            AdminError::Forbidden(_) => 403,
            AdminError::Conflict(_) => 409,
            AdminError::RateLimited(_) => 429,
            AdminError::Unavailable(_) => 503,
            AdminError::Upstream(_) => 502,
            AdminError::BridgeRepo { status, .. } => *status,
            AdminError::Marketplace { status, .. } => *status,
            AdminError::Database(_) | AdminError::Crypto(_) | AdminError::Internal(_) => 500,
        }
    }

    /// What the client is told.
    pub fn public_message(&self) -> (m: String)
        ensures
            m@ == public_spec(*self),
    {
        match self {
            AdminError::NotFound(m) | AdminError::BadRequest(m) | AdminError::Unauthorized(m)
            | AdminError::Forbidden(m) | AdminError::Conflict(m) | AdminError::RateLimited(m)
            | AdminError::Unavailable(m) => m.clone(),
            AdminError::BridgeRepo { public, .. } => public.clone(),
            AdminError::Marketplace { public, .. } => public.clone(),
            AdminError::Upstream(_) => String::from_str("Upstream service error"),
            AdminError::Unauthenticated(_) => String::from_str("Unauthorized"),
            AdminError::Crypto(_) => String::from_str("Internal configuration error"),
            AdminError::Database(_) | AdminError::Internal(_) => String::from_str(
                "Internal server error",
            ),
        }
    }

    /// The error's own description, for the log.
    pub fn detail(&self) -> (d: String)
        ensures
            d@ == detail_spec(*self),
    {
        match self {
            AdminError::NotFound(m) => prefixed("Not found: ", m),
            AdminError::BadRequest(m) => prefixed("Bad request: ", m),
            AdminError::Unauthorized(m) => prefixed("Unauthorized: ", m),
            AdminError::Unauthenticated(m) => prefixed("Authentication failed: ", m),
            AdminError::Forbidden(m) => prefixed("Forbidden: ", m),
            AdminError::Conflict(m) => prefixed("Conflict: ", m),
            AdminError::RateLimited(m) => prefixed("Too many requests: ", m),
            AdminError::Unavailable(m) => prefixed("Unavailable: ", m),
            AdminError::Upstream(m) => prefixed("Upstream error: ", m),
            AdminError::Database(m) => prefixed("Database error: ", m),
            AdminError::BridgeRepo { public, .. } => prefixed("Bridge repository error: ", public),
            AdminError::Marketplace { public, .. } => prefixed("Marketplace error: ", public),
            AdminError::Crypto(m) => prefixed("Crypto error: ", m),
            AdminError::Internal(m) => prefixed("Internal error: ", m),
        }
    }
}

/// A failure inside the server never reaches the client with its detail:
/// whatever a database, internal, cryptographic or upstream error says, the
/// client is told only a fixed description of its kind, with a 5xx status.
pub proof fn law_internal_detail_stays_inside(e: AdminError)
    requires
        e is Database || e is Internal || e is Crypto || e is Upstream,
    ensures
        public_spec(e) == "Internal server error"@ || public_spec(e)
            == "Internal configuration error"@ || public_spec(e) == "Upstream service error"@,
        500 <= status_spec(e) < 600,
{
}

/// The HTML face of [`AdminError`], for the server-rendered pages: the same
/// classification, so a page and an API call cannot disagree about what a
/// failure means.
pub struct AdminHtmlError(pub AdminError);

impl AdminHtmlError {
    /// A failure inside the server, with its detail for the log.
    pub fn internal(detail: String) -> (e: AdminHtmlError)
        ensures
            e.0 matches AdminError::Internal(d) && d@ == detail@,
    {
        AdminHtmlError(AdminError::Internal(detail))
    }

    /// The status the page is served with: the error's own.
    pub fn status(&self) -> (s: u16)
        ensures
            s == status_spec(self.0),
    {
        self.0.status()
    }

    /// What the page says: the error's public message, never its detail.
    pub fn public_message(&self) -> (m: String)
        ensures
            m@ == public_spec(self.0),
    {
        self.0.public_message()
    }
}

} // verus!
