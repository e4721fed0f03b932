//! Everything the proxy can refuse or fail with.

use vstd::prelude::*;
use vstd::string::*;

use crate::json::{Json, JsonView};

verus! {

/// Everything the proxy can refuse or fail with.
///
/// The wire shape is `{"message": "..."}`, the same envelope the UniFi
/// Integration API uses for errors, so drop-in clients surface proxy errors
/// through their existing error handling without changes.
#[derive(Debug)]
pub enum ProxyError {
    Unauthorized,
    /// The token was recognised but has lapsed. Told apart from `Unauthorized`
    /// on purpose: "your token expired" is actionable, while "invalid key" sends
    /// the operator looking for a typo.
    TokenExpired(String),
    Forbidden(String),
    BadRequest(String),
    RateLimited,
    NotAllowed,
    /// The controller answered, but not with success. Its status and message are
    /// passed through so clients keep seeing meaningful errors.
    Upstream { status: u16, message: String },
    UpstreamUnreachable(String),
    /// Carries its cause for the operator's log only.
    Internal(String),
}

/// An error as the contracts speak of it.
pub ghost enum ErrorView {
    Unauthorized,
    TokenExpired(Seq<char>),
    Forbidden(Seq<char>),
    BadRequest(Seq<char>),
    RateLimited,
    NotAllowed,
    Upstream { status: u16, message: Seq<char> },
    UpstreamUnreachable(Seq<char>),
    Internal(Seq<char>),
}

pub type ProxyResult<T> = Result<T, ProxyError>;

impl View for ProxyError {
    type V = ErrorView;

    open spec fn view(&self) -> ErrorView {
        match self {
            ProxyError::Unauthorized => ErrorView::Unauthorized,
            ProxyError::TokenExpired(m) => ErrorView::TokenExpired(m@),
            ProxyError::Forbidden(m) => ErrorView::Forbidden(m@),
            ProxyError::BadRequest(m) => ErrorView::BadRequest(m@),
            ProxyError::RateLimited => ErrorView::RateLimited,
            ProxyError::NotAllowed => ErrorView::NotAllowed,
            ProxyError::Upstream { status, message } => ErrorView::Upstream {
                status: *status,
                message: message@,
            },
            ProxyError::UpstreamUnreachable(m) => ErrorView::UpstreamUnreachable(m@),
            ProxyError::Internal(m) => ErrorView::Internal(m@),
        }
    }
}

/// An outcome whose error is taken by its view.
pub open spec fn outcome<T>(r: Result<T, ProxyError>) -> Result<T, ErrorView> {
    match r {
        Ok(v) => Ok(v),
        Err(e) => Err(e@),
    }
}

impl ErrorView {
    /// The HTTP status that an error is answered with.
    pub open spec fn status(self) -> u16 {
        match self {
            ErrorView::Unauthorized => 401,
            ErrorView::TokenExpired(_) => 401,
            ErrorView::Forbidden(_) => 403,
            ErrorView::NotAllowed => 403,
            ErrorView::BadRequest(_) => 400,
            ErrorView::RateLimited => 429,
            ErrorView::Upstream { status, .. } => status,
            ErrorView::UpstreamUnreachable(_) => 502,
            ErrorView::Internal(_) => 500,
        }
    }

    /// The machine-readable tag of an error.
    pub open spec fn kind(self) -> Seq<char> {
        match self {
            ErrorView::Unauthorized => "unauthorized"@,
            ErrorView::TokenExpired(_) => "token_expired"@,
            ErrorView::Forbidden(_) => "forbidden"@,
            ErrorView::NotAllowed => "not_allowed"@,
            ErrorView::BadRequest(_) => "bad_request"@,
            ErrorView::RateLimited => "rate_limited"@,
            ErrorView::Upstream { .. } => "upstream_error"@,
            ErrorView::UpstreamUnreachable(_) => "upstream_unreachable"@,
            ErrorView::Internal(_) => "internal"@,
        }
    }

    /// What a client is told.
    pub open spec fn message(self) -> Seq<char> {
        match self {
            ErrorView::Unauthorized => "missing or invalid API key"@,
            ErrorView::TokenExpired(when) => "this token expired on "@ + when,
            ErrorView::Forbidden(m) => m,
            ErrorView::NotAllowed => "this proxy only forwards hotspot voucher operations"@,
            ErrorView::BadRequest(m) => m,
            ErrorView::RateLimited => "rate limit exceeded — slow down"@,
            ErrorView::Upstream { message, .. } => message,
            ErrorView::UpstreamUnreachable(m) => "cannot reach the UniFi controller: "@ + m,
            ErrorView::Internal(_) => "internal proxy error"@,
        }
    }

    /// The body that an error is answered with.
    pub open spec fn envelope(self) -> JsonView {
        JsonView::Object(seq![("message"@, JsonView::Text(self.message()))])
    }
}

/// A client learns nothing of what went wrong inside: two internal errors with
/// different causes are answered alike, over REST and over GraphQL.
pub proof fn internal_errors_are_opaque(a: Seq<char>, b: Seq<char>)
    ensures
        ErrorView::Internal(a).status() == ErrorView::Internal(b).status(),
        ErrorView::Internal(a).kind() == ErrorView::Internal(b).kind(),
        ErrorView::Internal(a).message() == ErrorView::Internal(b).message(),
        ErrorView::Internal(a).envelope() == ErrorView::Internal(b).envelope(),
{
}

/// An error as an HTTP answer.
#[derive(Debug)]
pub struct ErrorResponse {
    pub status: u16,
    pub body: Json,
}

/// An error as a GraphQL error: `code` and `status` go into its extensions, so
/// that clients can branch on them.
#[derive(Debug)]
pub struct GraphqlError {
    pub message: String,
    pub code: String,
    pub status: i32,
}

impl ProxyError {
    pub fn status(&self) -> (r: u16)
        ensures
            r == self@.status(),
    {
        match self {
            ProxyError::Unauthorized => 401,
            ProxyError::TokenExpired(_) => 401,
            ProxyError::Forbidden(_) => 403,
            ProxyError::NotAllowed => 403,
            ProxyError::BadRequest(_) => 400,
            ProxyError::RateLimited => 429,
            ProxyError::Upstream { status, .. } => *status,
            ProxyError::UpstreamUnreachable(_) => 502,
            ProxyError::Internal(_) => 500,
        }
    }

    /// Short machine-readable tag, used in audit records.
    pub fn kind(&self) -> (r: &'static str)
        ensures
            r@ == self@.kind(),
    {
        match self {
            ProxyError::Unauthorized => "unauthorized",
            ProxyError::TokenExpired(_) => "token_expired",
            ProxyError::Forbidden(_) => "forbidden",
            ProxyError::NotAllowed => "not_allowed",
            ProxyError::BadRequest(_) => "bad_request",
            ProxyError::RateLimited => "rate_limited",
            ProxyError::Upstream { .. } => "upstream_error",
            ProxyError::UpstreamUnreachable(_) => "upstream_unreachable",
            ProxyError::Internal(_) => "internal",
        }
    }

    /// What a client is told. Internal errors are reported opaquely: their text
    /// can carry configuration detail that clients have no business seeing.
    pub fn message(&self) -> (r: String)
        ensures
            r@ == self@.message(),
    {
        match self {
            ProxyError::Unauthorized => "missing or invalid API key".to_owned(),
            ProxyError::TokenExpired(when) => {
                let mut m = "this token expired on ".to_owned();
                m.append(when.as_str());
                m
            },
            ProxyError::Forbidden(m) => m.clone(),
            ProxyError::NotAllowed =>
            "this proxy only forwards hotspot voucher operations".to_owned(),
            ProxyError::BadRequest(m) => m.clone(),
            ProxyError::RateLimited => "rate limit exceeded — slow down".to_owned(),
            ProxyError::Upstream { message, .. } => message.clone(),
            ProxyError::UpstreamUnreachable(why) => {
                let mut m = "cannot reach the UniFi controller: ".to_owned();
                m.append(why.as_str());
                m
            },
            ProxyError::Internal(_) => "internal proxy error".to_owned(),
        }
    }

    /// The HTTP answer: the status, and the message in its envelope.
    pub fn into_response(&self) -> (r: ErrorResponse)
        ensures
            r.status == self@.status(),
            r.body@ == self@.envelope(),
    {
        let mut members: Vec<(String, Json)> = Vec::new();
        members.push(("message".to_owned(), Json::Text(self.message())));
        let body = Json::Object(members);
        proof {
            crate::json::lemma_container_views(body);
            assert(crate::json::member_views(members@) =~= seq![
                ("message"@, JsonView::Text(self@.message())),
            ]);
        }
        ErrorResponse { status: self.status(), body }
    }

    /// The GraphQL error, with the HTTP status and the machine-readable kind
    /// beside the message.
    pub fn to_gql(&self) -> (r: GraphqlError)
        ensures
            r.message@ == self@.message(),
            r.code@ == self@.kind(),
            r.status == self@.status(),
    {
        GraphqlError {
            message: self.message(),
            code: self.kind().to_owned(),
            status: self.status() as i32,
        }
    }
}

/// Every error is answered with the status that stands for it in HTTP, whatever
/// its text: an upstream error with the controller's own.
pub proof fn every_error_has_its_status(m: Seq<char>, status: u16)
    ensures
        ErrorView::Unauthorized.status() == 401,
        ErrorView::TokenExpired(m).status() == 401,
        ErrorView::Forbidden(m).status() == 403,
        ErrorView::NotAllowed.status() == 403,
        ErrorView::BadRequest(m).status() == 400,
        ErrorView::RateLimited.status() == 429,
        (ErrorView::Upstream { status, message: m }).status() == status,
        ErrorView::UpstreamUnreachable(m).status() == 502,
        ErrorView::Internal(m).status() == 500,
{
}

/// Every error has a tag of its own that does not depend on its text.
pub proof fn every_error_has_its_tag(m: Seq<char>, status: u16)
    ensures
        ErrorView::Unauthorized.kind() == "unauthorized"@,
        ErrorView::TokenExpired(m).kind() == "token_expired"@,
        ErrorView::Forbidden(m).kind() == "forbidden"@,
        ErrorView::NotAllowed.kind() == "not_allowed"@,
        ErrorView::BadRequest(m).kind() == "bad_request"@,
        ErrorView::RateLimited.kind() == "rate_limited"@,
        (ErrorView::Upstream { status, message: m }).kind() == "upstream_error"@,
        ErrorView::UpstreamUnreachable(m).kind() == "upstream_unreachable"@,
        ErrorView::Internal(m).kind() == "internal"@,
{
}

/// What is to be told to a client is told in full and unchanged: a refusal, what is
/// wrong with a request, the controller's message, when a token lapsed, and why the
/// controller cannot be reached. It is the one member of the answer, its `message`.
pub proof fn a_message_reaches_the_client_unchanged(m: Seq<char>, status: u16, e: ErrorView)
    ensures
        ErrorView::Forbidden(m).message() == m,
        ErrorView::BadRequest(m).message() == m,
        (ErrorView::Upstream { status, message: m }).message() == m,
        ErrorView::TokenExpired(m).message() == "this token expired on "@ + m,
        ErrorView::UpstreamUnreachable(m).message() == "cannot reach the UniFi controller: "@ + m,
        e.envelope().get("message"@) == Some(JsonView::Text(e.message())),
        e.envelope() matches JsonView::Object(members) ==> members.len() == 1,
{
    assert(e.envelope() is Object);
}

} // verus!
