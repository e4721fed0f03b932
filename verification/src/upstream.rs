//! What the proxy may ask of the controller, and what it makes of the answer.

use vstd::prelude::*;
use vstd::string::*;
use vstd::utf8::*;

use crate::config::{ConfigError, ControllerConfig};
use crate::error::{ErrorView, ProxyError, ProxyResult};
use crate::json::{Json, JsonView};
use crate::secret::Secret;
use crate::text::{
    alphanumeric, chars_of, contains, control, count_bytes, has_prefix, join, show, slice_text, text_of, trim,
    trim_end_of,
};
use crate::tls::{client_config, TlsMode, TlsModeView};

verus! {

/// The Integration API pages voucher reads at 100 by default and caps at 1000.
pub const VOUCHER_PAGE_LIMIT: u64 = 1000;

/// How long a connection attempt may take, in seconds.
pub const CONNECT_TIMEOUT_SECONDS: u64 = 10;

/// How many characters of a message from the controller are echoed.
pub const MAX_ECHO: usize = 200;

/// The HTTP methods that the controller is called with.
#[derive(Debug, Clone, Copy, PartialEq, Eq, Structural)]
pub enum Method {
    Get,
    Post,
    Delete,
}

/// The controller as the contracts speak of it.
pub ghost struct UpstreamView {
    pub base: Seq<char>,
    pub api_key: Seq<char>,
    pub tls: TlsModeView,
}

/// A call as the contracts speak of it.
pub ghost struct CallView {
    pub method: Method,
    pub url: Seq<char>,
    pub api_key: Seq<char>,
    pub body: Option<JsonView>,
}

/// The holder of the real UniFi API key.
///
/// There is deliberately no generic "forward this path" method. Every reachable
/// upstream call is a named function on this type, so the set of things the
/// proxy can possibly do to your controller is the list below — enforced by the
/// compiler, not by a runtime allowlist someone can misconfigure.
pub struct Upstream {
    /// `https://host/proxy/network/integration/v1`
    base: String,
    api_key: Secret,
    tls: TlsMode,
}

impl View for Upstream {
    type V = UpstreamView;

    closed spec fn view(&self) -> UpstreamView {
        UpstreamView { base: self.base@, api_key: self.api_key@, tls: self.tls@ }
    }
}

/// One call to the controller. Only [`Upstream`] makes them.
pub struct UpstreamCall {
    method: Method,
    url: String,
    api_key: Secret,
    body: Option<Json>,
}

impl View for UpstreamCall {
    type V = CallView;

    closed spec fn view(&self) -> CallView {
        CallView {
            method: self.method,
            url: self.url@,
            api_key: self.api_key@,
            body: match self.body {
                Some(b) => Some(b@),
                None => None,
            },
        }
    }
}

impl UpstreamCall {
    pub fn method(&self) -> (r: Method)
        ensures
            r == self@.method,
    {
        self.method
    }

    pub fn url(&self) -> (r: &str)
        ensures
            r@ == self@.url,
    {
        self.url.as_str()
    }

    /// The value of the `X-API-KEY` header.
    pub fn api_key(&self) -> (r: &Secret)
        ensures
            r@ == self@.api_key,
    {
        &self.api_key
    }

    pub fn body(&self) -> (r: Option<&Json>)
        ensures
            crate::json::view_of(r) == self@.body,
    {
        match &self.body {
            Some(b) => Some(b),
            None => None,
        }
    }
}

// ---------------------------------------------------------------------------
// Ids and hosts
// ---------------------------------------------------------------------------

/// The characters that an id may hold.
pub open spec fn is_id_char(c: char) -> bool {
    crate::text::is_alphanumeric(c) || c == '-' || c == '_'
}

/// Whether a text could be a UniFi id.
pub open spec fn is_id(s: Seq<char>) -> bool {
    &&& 0 < crate::text::byte_length(s) <= 128
    &&& forall|i: int| 0 <= i < s.len() ==> is_id_char(#[trigger] s[i])
}

/// Why a text is not taken for an id; `None` where it is.
pub open spec fn id_fault(value: Seq<char>, what: Seq<char>) -> Option<ErrorView> {
    if value.len() == 0 || crate::text::byte_length(value) > 128 {
        Some(ErrorView::BadRequest(what + " has an implausible length"@))
    } else if exists|i: int| 0 <= i < value.len() && !is_id_char(#[trigger] value[i]) {
        Some(ErrorView::BadRequest(what + " contains characters that are not allowed"@))
    } else {
        None
    }
}

/// Path segments come from the client, so they are whitelisted rather than
/// escaped: anything outside this alphabet cannot be a UniFi id and could
/// otherwise walk out of the voucher namespace with `..` or a query string.
pub fn validate_id<'a>(value: &'a str, what: &str) -> (r: ProxyResult<&'a str>)
    ensures
        match r {
            Ok(id) => id_fault(value@, what@) is None && id@ == value@,
            Err(e) => id_fault(value@, what@) == Some(e@),
        },
{
    if value.is_empty() || count_bytes(value) > 128 {
        let mut m = what.to_owned();
        m.append(" has an implausible length");
        return Err(ProxyError::BadRequest(m));
    }
    let v = chars_of(value);
    let mut i: usize = 0;
    while i < v.len()
        invariant
            i <= v@.len(),
            v@ == value@,
            value@.len() > 0,
            crate::text::byte_length(value@) <= 128,
            forall|j: int| 0 <= j < i ==> is_id_char(#[trigger] value@[j]),
        decreases v.len() - i,
    {
        let c = v[i];
        if !(alphanumeric(c) || c == '-' || c == '_') {
            let mut m = what.to_owned();
            m.append(" contains characters that are not allowed");
            assert(!is_id_char(value@[i as int]));
            return Err(ProxyError::BadRequest(m));
        }
        i += 1;
    }
    Ok(value)
}

/// The controller's root, as its URLs start.
pub open spec fn host_url(host: Seq<char>) -> Seq<char> {
    let h = crate::text::end_trimmed_of(crate::text::trimmed(host), "/"@);
    if "http://"@.is_prefix_of(h) || "https://"@.is_prefix_of(h) {
        h
    } else {
        "https://"@ + h
    }
}

/// Turns a user-entered host into `https://host[:port]`.
pub fn normalize_host(host: &str) -> (r: String)
    ensures
        r@ == host_url(host@),
{
    let h = trim(host);
    let h = trim_end_of(h.as_str(), "/");
    if has_prefix(h.as_str(), "http://") || has_prefix(h.as_str(), "https://") {
        h
    } else {
        let mut r = "https://".to_owned();
        r.append(h.as_str());
        r
    }
}

// ---------------------------------------------------------------------------
// Calls
// ---------------------------------------------------------------------------

/// The path of a site's vouchers.
pub open spec fn vouchers_path(site: Seq<char>) -> Seq<char> {
    "/sites/"@ + site + "/hotspot/vouchers"@
}

impl UpstreamView {
    /// The controller that a configuration names.
    pub open spec fn of(host: Seq<char>, api_key: Seq<char>, tls: TlsModeView) -> UpstreamView {
        UpstreamView { base: host_url(host) + "/proxy/network/integration/v1"@, api_key, tls }
    }

    /// The call that lists the sites.
    pub open spec fn list_sites(self) -> CallView {
        CallView {
            method: Method::Get,
            url: self.base + "/sites"@,
            api_key: self.api_key,
            body: None,
        }
    }

    /// The call that lists a site's vouchers.
    pub open spec fn list_vouchers(self, site: Seq<char>) -> CallView {
        CallView {
            method: Method::Get,
            url: self.base + (vouchers_path(site) + "?limit="@ + crate::text::decimal(
                VOUCHER_PAGE_LIMIT as nat,
            )),
            api_key: self.api_key,
            body: None,
        }
    }

    /// The call that creates vouchers.
    pub open spec fn create_vouchers(self, site: Seq<char>, body: JsonView) -> CallView {
        CallView {
            method: Method::Post,
            url: self.base + vouchers_path(site),
            api_key: self.api_key,
            body: Some(body),
        }
    }

    /// The call that revokes a voucher.
    pub open spec fn delete_voucher(self, site: Seq<char>, voucher: Seq<char>) -> CallView {
        CallView {
            method: Method::Delete,
            url: self.base + (vouchers_path(site) + "/"@ + voucher),
            api_key: self.api_key,
            body: None,
        }
    }
}

fn path_of_vouchers(site: &str) -> (r: String)
    ensures
        r@ == vouchers_path(site@),
{
    let mut path = "/sites/".to_owned();
    path.append(site);
    path.append("/hotspot/vouchers");
    path
}

impl Upstream {
    /// The controller that a configuration names, and how its certificate is
    /// checked.
    pub fn new(cfg: &ControllerConfig) -> (r: Result<Self, ConfigError>)
        ensures
            match crate::tls::mode_of(cfg.tls) {
                Ok(mode) => r is Ok && r->Ok_0@ == UpstreamView::of(
                    cfg.host@,
                    cfg.api_key@,
                    mode,
                ),
                Err(fault) => r is Err && r->Err_0@ == fault,
            },
    {
        let tls = match client_config(&cfg.tls) {
            Ok(tls) => tls,
            Err(e) => return Err(e),
        };
        let mut base = normalize_host(cfg.host.as_str());
        base.append("/proxy/network/integration/v1");
        Ok(Upstream { base, api_key: cfg.api_key.clone(), tls })
    }

    /// How the controller's certificate is checked.
    pub fn tls(&self) -> (r: &TlsMode)
        ensures
            r@ == self@.tls,
    {
        &self.tls
    }

    fn call(&self, method: Method, path: &str, body: Option<Json>) -> (r: UpstreamCall)
        ensures
            r@ == (CallView {
                method,
                url: self@.base + path@,
                api_key: self@.api_key,
                body: match body {
                    Some(b) => Some(b@),
                    None => None,
                },
            }),
    {
        let mut url = self.base.as_str().to_owned();
        url.append(path);
        UpstreamCall { method, url, api_key: self.api_key.clone(), body }
    }

    pub fn list_sites(&self) -> (r: UpstreamCall)
        ensures
            r@ == self@.list_sites(),
    {
        self.call(Method::Get, "/sites", None)
    }

    pub fn list_vouchers(&self, site: &str) -> (r: ProxyResult<UpstreamCall>)
        ensures
            match r {
                Ok(call) => id_fault(site@, "site id"@) is None && call@ == self@.list_vouchers(
                    site@,
                ),
                Err(e) => id_fault(site@, "site id"@) == Some(e@),
            },
    {
        let site = match validate_id(site, "site id") {
            Ok(site) => site,
            Err(e) => return Err(e),
        };
        let mut path = path_of_vouchers(site);
        path.append("?limit=");
        path.append(show(VOUCHER_PAGE_LIMIT).as_str());
        Ok(self.call(Method::Get, path.as_str(), None))
    }

    pub fn create_vouchers(&self, site: &str, body: Json) -> (r: ProxyResult<UpstreamCall>)
        ensures
            match r {
                Ok(call) => id_fault(site@, "site id"@) is None && call@ == self@.create_vouchers(
                    site@,
                    body@,
                ),
                Err(e) => id_fault(site@, "site id"@) == Some(e@),
            },
    {
        let site = match validate_id(site, "site id") {
            Ok(site) => site,
            Err(e) => return Err(e),
        };
        let path = path_of_vouchers(site);
        Ok(self.call(Method::Post, path.as_str(), Some(body)))
    }

    pub fn delete_voucher(&self, site: &str, voucher: &str) -> (r: ProxyResult<UpstreamCall>)
        ensures
            match r {
                Ok(call) => {
                    &&& id_fault(site@, "site id"@) is None
                    &&& id_fault(voucher@, "voucher id"@) is None
                    &&& call@ == self@.delete_voucher(site@, voucher@)
                },
                Err(e) => match id_fault(site@, "site id"@) {
                    Some(fault) => e@ == fault,
                    None => id_fault(voucher@, "voucher id"@) == Some(e@),
                },
            },
    {
        let site = match validate_id(site, "site id") {
            Ok(site) => site,
            Err(e) => return Err(e),
        };
        let voucher = match validate_id(voucher, "voucher id") {
            Ok(voucher) => voucher,
            Err(e) => return Err(e),
        };
        let mut path = path_of_vouchers(site);
        path.append("/");
        path.append(voucher);
        Ok(self.call(Method::Delete, path.as_str(), None))
    }
}

// ---------------------------------------------------------------------------
// Replies
// ---------------------------------------------------------------------------

/// What came of a call.
pub enum Reply {
    /// No answer came. The texts of the error and of what lies behind it, the
    /// outermost first, and how the HTTP client classes it.
    Failed { chain: Vec<String>, timeout: bool, connect: bool },
    /// The controller answered with a status and a body.
    Answered { status: u16, text: String },
}

/// What came of a call, as the contracts speak of it.
pub ghost enum ReplyView {
    Failed { chain: Seq<Seq<char>>, timeout: bool, connect: bool },
    Answered { status: u16, text: Seq<char> },
}

impl View for Reply {
    type V = ReplyView;

    open spec fn view(&self) -> ReplyView {
        match self {
            Reply::Failed { chain, timeout, connect } => ReplyView::Failed {
                chain: crate::text::texts(chain@),
                timeout: *timeout,
                connect: *connect,
            },
            Reply::Answered { status, text } => ReplyView::Answered {
                status: *status,
                text: text@,
            },
        }
    }
}

/// What the operator's log is told about a reply that a client must not see.
#[derive(Debug)]
pub struct Warning {
    pub status: u16,
    pub body: String,
    pub note: String,
}

/// A warning as the contracts speak of it.
pub ghost struct WarningView {
    pub status: u16,
    pub body: Seq<char>,
    pub note: Seq<char>,
}

impl View for Warning {
    type V = WarningView;

    open spec fn view(&self) -> WarningView {
        WarningView { status: self.status, body: self.body@, note: self.note@ }
    }
}

/// A text without its control characters.
pub open spec fn uncontrolled(s: Seq<char>) -> Seq<char> {
    s.filter(|c: char| !crate::text::is_control(c))
}

/// A text from the controller as it is echoed.
pub open spec fn clamped(s: Seq<char>) -> Seq<char> {
    let t = crate::text::trimmed(uncontrolled(s));
    if t.len() > MAX_ECHO {
        t.take(MAX_ECHO as int) + "…"@
    } else {
        t
    }
}

/// Bounds a message coming from the controller before it is echoed anywhere.
///
/// Upstream text is not ours and is not trusted to be short or well-behaved:
/// control characters are dropped so a log line cannot be forged, and the
/// length is capped so a large body cannot become a large response or a large
/// log entry.
pub fn clamp(raw: &str) -> (r: String)
    ensures
        r@ == clamped(raw@),
{
    let v = chars_of(raw);
    let mut kept: Vec<char> = Vec::new();
    let mut i: usize = 0;
    proof {
        reveal(Seq::filter);
    }
    while i < v.len()
        invariant
            i <= v@.len(),
            kept@ == uncontrolled(v@.take(i as int)),
        decreases v.len() - i,
    {
        if !control(v[i]) {
            kept.push(v[i]);
        }
        i += 1;
        proof {
            reveal(Seq::filter);
            assert(v@.take(i as int).drop_last() =~= v@.take(i - 1));
        }
    }
    assert(v@.take(i as int) =~= v@);
    let cleaned = text_of(&kept);
    let trimmed = trim(cleaned.as_str());
    let w = chars_of(trimmed.as_str());
    if w.len() > MAX_ECHO {
        let mut r = slice_text(&w, 0, MAX_ECHO);
        assert(r@ =~= w@.take(MAX_ECHO as int));
        r.append("…");
        r
    } else {
        trimmed
    }
}

/// What a client is told where no answer came.
pub open spec fn failure(chain: Seq<Seq<char>>, timeout: bool, connect: bool) -> Seq<char> {
    let full = crate::text::joined(chain, ": "@);
    if crate::text::occurs_in("fingerprint mismatch"@, full) {
        "certificate fingerprint mismatch — the controller is not the one this proxy is pinned to"@
    } else if timeout {
        "timed out"@
    } else if crate::text::occurs_in("invalid peer certificate"@, full) || crate::text::occurs_in(
        "UnknownIssuer"@,
        full,
    ) {
        "the controller's certificate is not trusted — pin its fingerprint with `fetch-fingerprint`"@
    } else if connect {
        "connection refused or host unreachable"@
    } else {
        "request failed"@
    }
}

/// Trims a failure of the HTTP client down to something safe and useful for a
/// client.
///
/// A pinning failure is checked first and by looking through the whole chain:
/// rustls reports it several levels down, and the HTTP client classifies it as a
/// connect error, so the generic buckets would otherwise swallow the one
/// diagnostic that actually matters — either the console was re-provisioned or
/// something is impersonating it.
pub fn short_reqwest_error(chain: &Vec<String>, timeout: bool, connect: bool) -> (r: String)
    ensures
        r@ == failure(crate::text::texts(chain@), timeout, connect),
{
    let full = join(chain, ": ");
    if contains(full.as_str(), "fingerprint mismatch") {
        return "certificate fingerprint mismatch — the controller is not the one this proxy is pinned to".to_owned();
    }
    if timeout {
        return "timed out".to_owned();
    }
    if contains(full.as_str(), "invalid peer certificate") || contains(
        full.as_str(),
        "UnknownIssuer",
    ) {
        return "the controller's certificate is not trusted — pin its fingerprint with `fetch-fingerprint`".to_owned();
    }
    if connect {
        return "connection refused or host unreachable".to_owned();
    }
    "request failed".to_owned()
}

pub open spec fn is_success(status: u16) -> bool {
    200 <= status < 300
}

pub open spec fn is_server_error(status: u16) -> bool {
    500 <= status < 600
}

/// Whether a status says that the proxy's own key was refused.
pub open spec fn is_key_refusal(status: u16) -> bool {
    status == 401 || status == 403
}

/// The status that a client is answered with where the controller answered with
/// `status`.
pub open spec fn relayed_status(status: u16) -> u16 {
    if 100 <= status <= 999 {
        status
    } else {
        502
    }
}

/// What a client is told about an answer that is not a success.
pub open spec fn refusal_message(status: u16, json: JsonView) -> Seq<char> {
    if is_server_error(status) {
        "the controller reported an error (HTTP "@ + crate::text::decimal(status as nat) + ")"@
    } else if is_key_refusal(status) {
        "the controller rejected the proxy's API key"@
    } else {
        match json.get("message"@) {
            Some(JsonView::Text(m)) => clamped(m),
            _ => "controller request failed (HTTP "@ + crate::text::decimal(status as nat)
                + ")"@,
        }
    }
}

/// What a client gets of an answer whose body reads as `json`.
pub open spec fn answered(status: u16, json: JsonView) -> Result<JsonView, ErrorView> {
    if is_success(status) {
        Ok(json)
    } else {
        Err(
            ErrorView::Upstream {
                status: relayed_status(status),
                message: refusal_message(status, json),
            },
        )
    }
}

/// What the operator's log is told about an answer.
pub open spec fn warning_for(status: u16, text: Seq<char>) -> Option<WarningView> {
    if is_success(status) {
        None
    } else if is_server_error(status) {
        Some(
            WarningView {
                status,
                body: clamped(text),
                note: "the controller returned a server error"@,
            },
        )
    } else if is_key_refusal(status) {
        Some(
            WarningView {
                status,
                body: clamped(text),
                note: "the controller rejected the proxy's API key"@,
            },
        )
    } else {
        None
    }
}

/// How the body of an answer reads: nothing where it is blank or no JSON.
pub open spec fn body_of(text: Seq<char>) -> JsonView {
    if crate::text::trimmed(text).len() == 0 {
        JsonView::Null
    } else {
        match crate::json::parsed(text) {
            Some(v) => v,
            None => JsonView::Null,
        }
    }
}

/// A document or an error, each taken by its view.
pub open spec fn document(r: ProxyResult<Json>) -> Result<JsonView, ErrorView> {
    match r {
        Ok(v) => Ok(v@),
        Err(e) => Err(e@),
    }
}

/// An optional warning, taken by its view.
pub open spec fn warning_view(w: Option<Warning>) -> Option<WarningView> {
    match w {
        Some(w) => Some(w@),
        None => None,
    }
}

/// Reads the body of an answer. A blank body and one that is no JSON are not
/// errors: revoking commonly answers with nothing at all.
pub fn read_body(text: &str) -> (r: Json)
    ensures
        r@ == body_of(text@),
{
    if trim(text).as_str().is_empty() {
        Json::Null
    } else {
        match Json::from_text(text) {
            Some(v) => v,
            None => Json::Null,
        }
    }
}

/// Decides what a client gets of an answer whose body reads as `json`.
pub fn judge(status: u16, json: Json) -> (r: ProxyResult<Json>)
    ensures
        document(r) == answered(status, json@),
{
    if 200 <= status && status < 300 {
        return Ok(json);
    }
    // A 5xx body is where a controller would put internals — a stack trace, a
    // path, a component name. That is the operator's to read in the log, not the
    // client's to receive, so only the status crosses back.
    let message = if 500 <= status && status < 600 {
        let mut m = "the controller reported an error (HTTP ".to_owned();
        m.append(show(status as u64).as_str());
        m.append(")");
        m
    } else if status == 401 || status == 403 {
        // Checked before the controller's own message, never after. A 401 here is
        // not about the caller's request at all — it says the *proxy's* key was
        // refused. The caller can do nothing with that, and the controller's
        // wording can describe the very secret this proxy exists to hold, so it
        // goes to the operator's log instead.
        "the controller rejected the proxy's API key".to_owned()
    } else {
        match json.get("message") {
            Some(Json::Text(m)) => clamp(m.as_str()),
            _ => {
                let mut m = "controller request failed (HTTP ".to_owned();
                m.append(show(status as u64).as_str());
                m.append(")");
                m
            },
        }
    };
    let status: u16 = if 100 <= status && status <= 999 {
        status
    } else {
        502
    };
    Err(ProxyError::Upstream { status, message })
}

fn warn(status: u16, text: &str) -> (r: Option<Warning>)
    ensures
        warning_view(r) == warning_for(status, text@),
{
    if 200 <= status && status < 300 {
        None
    } else if 500 <= status && status < 600 {
        Some(
            Warning {
                status,
                body: clamp(text),
                note: "the controller returned a server error".to_owned(),
            },
        )
    } else if status == 401 || status == 403 {
        Some(
            Warning {
                status,
                body: clamp(text),
                note: "the controller rejected the proxy's API key".to_owned(),
            },
        )
    } else {
        None
    }
}

impl ReplyView {
    /// What a client gets.
    pub open spec fn received(self) -> Result<JsonView, ErrorView> {
        match self {
            ReplyView::Failed { chain, timeout, connect } => Err(
                ErrorView::UpstreamUnreachable(failure(chain, timeout, connect)),
            ),
            ReplyView::Answered { status, text } => answered(status, body_of(text)),
        }
    }

    /// What the operator's log is told.
    pub open spec fn warning(self) -> Option<WarningView> {
        match self {
            ReplyView::Failed { .. } => None,
            ReplyView::Answered { status, text } => warning_for(status, text),
        }
    }
}

/// Decides what a client gets of a reply, and what the operator's log is told.
pub fn receive(reply: Reply) -> (r: (ProxyResult<Json>, Option<Warning>))
    ensures
        document(r.0) == reply@.received(),
        warning_view(r.1) == reply@.warning(),
{
    match reply {
        Reply::Failed { chain, timeout, connect } => {
            let m = short_reqwest_error(&chain, timeout, connect);
            (Err(ProxyError::UpstreamUnreachable(m)), None)
        },
        Reply::Answered { status, text } => {
            let json = read_body(text.as_str());
            (judge(status, json), warn(status, text.as_str()))
        },
    }
}

// ---------------------------------------------------------------------------
// What holds of calls and replies
// ---------------------------------------------------------------------------

/// What passes for an id is a single path segment: it cannot end the segment,
/// start a query or a fragment, be an escape or walk up the path.
pub proof fn an_id_is_one_path_segment(value: Seq<char>, what: Seq<char>)
    requires
        id_fault(value, what) is None,
    ensures
        0 < value.len() <= 128,
        is_id(value),
        forall|i: int|
            0 <= i < value.len() ==> {
                let c = #[trigger] value[i];
                c != '/' && c != '?' && c != '#' && c != '%' && c != '.' && c != ' ' && c != '\\'
            },
{
    assert forall|i: int| 0 <= i < value.len() implies is_id_char(#[trigger] value[i]) by {
        if !is_id_char(value[i]) {
            assert(id_fault(value, what) is Some);
        }
    }
    assert forall|i: int| 0 <= i < value.len() implies '\0' <= #[trigger] value[i] <= '\u{7f}' by {
        assert(is_id_char(value[i]));
    }
    assert(is_ascii_chars(value));
    is_ascii_chars_encode_utf8(value);
}

proof fn lemma_trimmed_is_a_part(s: Seq<char>)
    ensures
        exists|a: int, b: int|
            0 <= a <= b <= s.len() && crate::text::trimmed(s) == #[trigger] s.subrange(a, b),
{
    let start = crate::text::start_trimmed(s);
    lemma_start_trimmed_is_a_part(s);
    lemma_end_trimmed_is_a_part(start);
    let a = choose|a: int| 0 <= a <= s.len() && start == #[trigger] s.skip(a);
    let n = choose|n: int|
        0 <= n <= start.len() && crate::text::end_trimmed(start) == #[trigger] start.take(n);
    assert(start.take(n) =~= s.subrange(a, a + n));
}

proof fn lemma_start_trimmed_is_a_part(s: Seq<char>)
    ensures
        exists|a: int| 0 <= a <= s.len() && crate::text::start_trimmed(s) == #[trigger] s.skip(a),
    decreases s.len(),
{
    if s.len() > 0 && crate::text::is_white(s[0]) {
        lemma_start_trimmed_is_a_part(s.drop_first());
        let a = choose|a: int|
            0 <= a <= s.drop_first().len() && crate::text::start_trimmed(s.drop_first())
                == #[trigger] s.drop_first().skip(a);
        assert(s.drop_first().skip(a) =~= s.skip(a + 1));
    } else {
        assert(s.skip(0) =~= s);
    }
}

proof fn lemma_end_trimmed_is_a_part(s: Seq<char>)
    ensures
        exists|n: int| 0 <= n <= s.len() && crate::text::end_trimmed(s) == #[trigger] s.take(n),
    decreases s.len(),
{
    if s.len() > 0 && crate::text::is_white(s.last()) {
        lemma_end_trimmed_is_a_part(s.drop_last());
        let n = choose|n: int|
            0 <= n <= s.drop_last().len() && crate::text::end_trimmed(s.drop_last())
                == #[trigger] s.drop_last().take(n);
        assert(s.drop_last().take(n) =~= s.take(n));
    } else {
        assert(s.take(s.len() as int) =~= s);
    }
}

/// Whatever the controller sends, what is echoed of it is short and holds no
/// control character, so that neither a log entry nor a response can be forged
/// or blown up with it.
pub proof fn an_echo_is_short_and_plain(s: Seq<char>)
    ensures
        clamped(s).len() <= MAX_ECHO + 1,
        forall|i: int|
            0 <= i < clamped(s).len() ==> !crate::text::is_control(#[trigger] clamped(s)[i]),
{
    broadcast use vstd::seq_lib::group_filter_ensures;

    let plain = uncontrolled(s);
    lemma_trimmed_is_a_part(plain);
    let (a, b) = choose|a: int, b: int|
        0 <= a <= b <= plain.len() && crate::text::trimmed(plain) == #[trigger] plain.subrange(
            a,
            b,
        );
    let t = crate::text::trimmed(plain);
    assert forall|i: int| 0 <= i < t.len() implies !crate::text::is_control(#[trigger] t[i]) by {
        assert(t[i] == plain[a + i]);
    }
    reveal_strlit("…");
    assert forall|i: int| 0 <= i < clamped(s).len() implies !crate::text::is_control(
        #[trigger] clamped(s)[i],
    ) by {
        if t.len() > MAX_ECHO && i < MAX_ECHO {
            assert(clamped(s)[i] == t[i]);
        }
    }
}

/// The body of a server error, and of a refusal of the proxy's own key, never
/// reaches a client: two such answers with the same status look alike.
pub proof fn internals_of_the_controller_are_not_relayed(status: u16, a: Seq<char>, b: Seq<char>)
    requires
        is_server_error(status) || is_key_refusal(status),
    ensures
        (ReplyView::Answered { status, text: a }).received() == (ReplyView::Answered {
            status,
            text: b,
        }).received(),
{
}

proof fn lemma_occurs_in_part(p: Seq<char>, part: Seq<char>, whole: Seq<char>, at: int)
    requires
        crate::text::occurs_in(p, part),
        0 <= at,
        at + part.len() <= whole.len(),
        whole.subrange(at, at + part.len()) == part,
    ensures
        crate::text::occurs_in(p, whole),
{
    let i = choose|i: int| #[trigger] crate::text::stands_at(part, i, p);
    assert(part.subrange(i, i + p.len()) =~= whole.subrange(at + i, at + i + p.len()));
    assert(crate::text::stands_at(whole, at + i, p));
}

proof fn lemma_occurs_in_joined(p: Seq<char>, parts: Seq<Seq<char>>, sep: Seq<char>, k: int)
    requires
        0 <= k < parts.len(),
        crate::text::occurs_in(p, parts[k]),
    ensures
        crate::text::occurs_in(p, crate::text::joined(parts, sep)),
    decreases parts.len(),
{
    let whole = crate::text::joined(parts, sep);
    if k == parts.len() - 1 {
        let at = whole.len() - parts[k].len();
        assert(whole.subrange(at, at + parts[k].len()) =~= parts[k]);
        lemma_occurs_in_part(p, parts[k], whole, at);
    } else {
        let front = crate::text::joined(parts.drop_last(), sep);
        lemma_occurs_in_joined(p, parts.drop_last(), sep, k);
        assert(whole.subrange(0, front.len() as int) =~= front);
        lemma_occurs_in_part(p, front, whole, 0);
    }
}

/// However deep in the chain a refused certificate is reported, and however the
/// HTTP client classes the failure, the client is told of the mismatch.
pub proof fn a_pinning_failure_is_always_named(
    chain: Seq<Seq<char>>,
    k: int,
    timeout: bool,
    connect: bool,
)
    requires
        0 <= k < chain.len(),
        crate::text::occurs_in("controller certificate fingerprint mismatch: pinned "@, chain[k]),
    ensures
        failure(chain, timeout, connect)
            == "certificate fingerprint mismatch — the controller is not the one this proxy is pinned to"@,
{
    let said = "controller certificate fingerprint mismatch: pinned "@;
    let p = "fingerprint mismatch"@;
    reveal_strlit("controller certificate fingerprint mismatch: pinned ");
    reveal_strlit("fingerprint mismatch");
    assert(said.subrange(23, 43) =~= p);
    assert(crate::text::stands_at(said, 23, p));
    assert(crate::text::occurs_in(p, said));
    let i = choose|i: int| #[trigger] crate::text::stands_at(chain[k], i, said);
    lemma_occurs_in_part(p, said, chain[k], i);
    lemma_occurs_in_joined(p, chain, ": "@, k);
}

proof fn lemma_end_trimmed_of_is_a_prefix(s: Seq<char>, cs: Seq<char>)
    ensures
        crate::text::end_trimmed_of(s, cs).is_prefix_of(s),
    decreases s.len(),
{
    if s.len() > 0 && cs.contains(s.last()) {
        lemma_end_trimmed_of_is_a_prefix(s.drop_last(), cs);
    }
}

/// The API key travels in the clear only where the operator allowed it: under a
/// configuration that is in order, the controller's URL starts with `http://`
/// only where plaintext is permitted.
pub proof fn the_key_travels_encrypted_unless_allowed(c: crate::config::Config)
    requires
        c.fault() is None,
        "http://"@.is_prefix_of(host_url(c.controller.host@)),
    ensures
        c.controller.tls.allow_plaintext,
{
    let http = "http://"@;
    reveal_strlit("http://");
    reveal_strlit("https://");
    let host = crate::text::trimmed(c.controller.host@);
    let h = crate::text::end_trimmed_of(host, "/"@);
    lemma_end_trimmed_of_is_a_prefix(host, "/"@);
    if !http.is_prefix_of(h) {
        let url = host_url(c.controller.host@);
        assert("https://"@.is_prefix_of(h) ==> h[4] == "https://"@[4]);
        assert(url[4] == 's');
        assert(http[4] == ':');
        assert(url.subrange(0, 7)[4] == url[4]);
        assert(false);
    }
    let low = crate::text::lowered(host);
    assert(host.subrange(0, 7) =~= http) by {
        assert(h.subrange(0, 7) =~= http);
        assert(forall|i: int| 0 <= i < 7 ==> host[i] == h[i]);
    }
    assert(low.subrange(0, 7) =~= http) by {
        assert forall|i: int| 0 <= i < 7 implies low[i] == http[i] by {
            assert(host[i] == host.subrange(0, 7)[i]);
        }
    }
    crate::config::a_config_in_order_is_safe_to_serve(c);
}

/// A text passes for an id exactly where it has one to 128 characters, each a letter
/// or digit of ASCII, a hyphen or an underscore. What is wrong with one that does not
/// is a bad request, and says of what it is the id.
pub proof fn an_id_is_up_to_128_plain_characters(value: Seq<char>, what: Seq<char>)
    ensures
        id_fault(value, what) is None <==> 1 <= value.len() <= 128 && forall|i: int|
            0 <= i < value.len() ==> {
                let c = #[trigger] value[i];
                'a' <= c <= 'z' || 'A' <= c <= 'Z' || '0' <= c <= '9' || c == '-' || c == '_'
            },
        id_fault(value, what) matches Some(e) ==> e is BadRequest && what.is_prefix_of(
            e->BadRequest_0,
        ),
        value.len() == 0 ==> id_fault(value, what) == Some(
            ErrorView::BadRequest(what + " has an implausible length"@),
        ),
{
    let plain = forall|i: int|
        0 <= i < value.len() ==> {
            let c = #[trigger] value[i];
            'a' <= c <= 'z' || 'A' <= c <= 'Z' || '0' <= c <= '9' || c == '-' || c == '_'
        };
    if plain {
        assert forall|i: int| 0 <= i < value.len() implies is_id_char(#[trigger] value[i]) by {}
        assert forall|i: int| 0 <= i < value.len() implies '\0' <= #[trigger] value[i]
            <= '\u{7f}' by {}
        assert(is_ascii_chars(value));
        is_ascii_chars_encode_utf8(value);
    }
    if id_fault(value, what) is None {
        an_id_is_one_path_segment(value, what);
        assert forall|i: int| 0 <= i < value.len() implies {
            let c = #[trigger] value[i];
            'a' <= c <= 'z' || 'A' <= c <= 'Z' || '0' <= c <= '9' || c == '-' || c == '_'
        } by {
            assert(is_id_char(value[i]));
        }
    }
    let a = what + " has an implausible length"@;
    let b = what + " contains characters that are not allowed"@;
    assert(a.subrange(0, what.len() as int) =~= what);
    assert(b.subrange(0, what.len() as int) =~= what);
}

proof fn lemma_already_trimmed(s: Seq<char>)
    requires
        s.len() > 0 ==> !crate::text::is_white(s.first()) && !crate::text::is_white(s.last()),
    ensures
        crate::text::trimmed(s) == s,
{
}

proof fn lemma_slashes_go(h: Seq<char>, n: nat)
    requires
        h.len() > 0,
        h.last() != '/',
    ensures
        crate::text::end_trimmed_of(h + Seq::new(n, |i: int| '/'), "/"@) == h,
    decreases n,
{
    reveal_strlit("/");
    let s = h + Seq::new(n, |i: int| '/');
    if n == 0 {
        assert(s =~= h);
        assert(!"/"@.contains(h.last()));
    } else {
        lemma_slashes_go(h, (n - 1) as nat);
        assert("/"@[0] == '/');
        assert("/"@.contains('/'));
        assert(s.last() == '/');
        assert(s.drop_last() =~= h + Seq::new((n - 1) as nat, |i: int| '/'));
    }
}

/// A host is reached over HTTPS unless it names a scheme itself; slashes behind it
/// make no difference.
pub proof fn a_host_is_reached_over_https_unless_it_says_otherwise(h: Seq<char>, slashes: nat)
    requires
        h.len() > 0,
        h.last() != '/',
        !crate::text::is_white(h.first()),
        !crate::text::is_white(h.last()),
    ensures
        ({
            let url = host_url(h + Seq::new(slashes, |i: int| '/'));
            &&& "http://"@.is_prefix_of(h) || "https://"@.is_prefix_of(h) ==> url == h
            &&& !"http://"@.is_prefix_of(h) && !"https://"@.is_prefix_of(h) ==> url == "https://"@
                + h
        }),
{
    let s = h + Seq::new(slashes, |i: int| '/');
    assert(s[0] == h[0]);
    assert(s.last() == h.last() || s.last() == '/');
    lemma_already_trimmed(s);
    lemma_slashes_go(h, slashes);
}

/// Every call goes to the controller's own API under the named path, with the
/// controller's key and the method that fits: reading with GET and without a body,
/// creating with POST and the body that is to be sent, revoking with DELETE.
pub proof fn every_call_has_its_method_and_path(
    host: Seq<char>,
    key: Seq<char>,
    tls: TlsModeView,
    site: Seq<char>,
    voucher: Seq<char>,
    body: JsonView,
)
    ensures
        ({
            let u = UpstreamView::of(host, key, tls);
            let api = host_url(host) + "/proxy/network/integration/v1/sites"@;
            let vouchers = api + "/"@ + site + "/hotspot/vouchers"@;
            &&& u.list_sites() == (CallView {
                method: Method::Get,
                url: api,
                api_key: key,
                body: None,
            })
            &&& u.list_vouchers(site) == (CallView {
                method: Method::Get,
                url: vouchers + "?limit=1000"@,
                api_key: key,
                body: None,
            })
            &&& u.create_vouchers(site, body) == (CallView {
                method: Method::Post,
                url: vouchers,
                api_key: key,
                body: Some(body),
            })
            &&& u.delete_voucher(site, voucher) == (CallView {
                method: Method::Delete,
                url: vouchers + "/"@ + voucher,
                api_key: key,
                body: None,
            })
        }),
{
    let u = UpstreamView::of(host, key, tls);
    let root = host_url(host);
    reveal_strlit("/proxy/network/integration/v1/sites");
    reveal_strlit("/proxy/network/integration/v1");
    reveal_strlit("/sites");
    reveal_strlit("/sites/");
    reveal_strlit("/");
    reveal_strlit("?limit=1000");
    reveal_strlit("?limit=");
    assert("/proxy/network/integration/v1/sites"@ =~= "/proxy/network/integration/v1"@
        + "/sites"@);
    assert("/sites/"@ =~= "/sites"@ + "/"@);
    reveal_with_fuel(crate::text::decimal, 4);
    assert(crate::text::decimal(1000) =~= seq!['1', '0', '0', '0']);
    assert("?limit=1000"@ =~= "?limit="@ + crate::text::decimal(1000));
    let api = root + "/proxy/network/integration/v1/sites"@;
    let vouchers = api + "/"@ + site + "/hotspot/vouchers"@;
    assert(api =~= u.base + "/sites"@);
    assert(u.base + vouchers_path(site) =~= vouchers);
    assert(u.list_vouchers(site).url =~= vouchers + "?limit=1000"@);
    assert(u.delete_voucher(site, voucher).url =~= vouchers + "/"@ + voucher);
}

/// A message that is plain, trimmed and not too long is echoed as it is; of one that
/// is too long the first 200 characters are, and an ellipsis. Control characters are
/// dropped wherever they stand, and nothing is put in their place.
pub proof fn an_echo_keeps_what_is_plain(s: Seq<char>, a: Seq<char>, c: char, b: Seq<char>)
    ensures
        (s.len() > 0 ==> !crate::text::is_white(s.first()) && !crate::text::is_white(s.last()))
            && (forall|i: int| 0 <= i < s.len() ==> !crate::text::is_control(#[trigger] s[i])) ==> (
        if s.len() <= 200 {
            clamped(s) == s
        } else {
            clamped(s) == s.take(200) + "…"@
        }),
        crate::text::is_control(c) ==> clamped(a + seq![c] + b) == clamped(a + b),
{
    if forall|i: int| 0 <= i < s.len() ==> !crate::text::is_control(#[trigger] s[i]) {
        lemma_nothing_to_drop(s);
        if s.len() > 0 ==> !crate::text::is_white(s.first()) && !crate::text::is_white(s.last()) {
            lemma_already_trimmed(s);
        }
    }
    if crate::text::is_control(c) {
        let keep = |c: char| !crate::text::is_control(c);
        Seq::filter_distributes_over_add(a + seq![c], b, keep);
        Seq::filter_distributes_over_add(a, b, keep);
        reveal(Seq::filter);
        assert((a + seq![c]).drop_last() =~= a);
        assert((a + seq![c]).last() == c);
        assert(!keep(c));
        assert(uncontrolled(a + seq![c] + b) =~= uncontrolled(a + b));
    }
}

proof fn lemma_nothing_to_drop(s: Seq<char>)
    requires
        forall|i: int| 0 <= i < s.len() ==> !crate::text::is_control(#[trigger] s[i]),
    ensures
        uncontrolled(s) == s,
    decreases s.len(),
{
    reveal(Seq::filter);
    if s.len() > 0 {
        let front = s.drop_last();
        assert forall|i: int| 0 <= i < front.len() implies !crate::text::is_control(
            #[trigger] front[i],
        ) by {
            assert(front[i] == s[i]);
        }
        lemma_nothing_to_drop(front);
        assert(!crate::text::is_control(s[s.len() - 1]));
        assert(front.push(s.last()) =~= s);
    }
}

/// A failure that is no pinning failure is told apart: a timeout first, then a
/// certificate that is not trusted, wherever in the chain that is said, then a
/// connection that could not be made, then anything else.
pub proof fn a_failure_is_told_apart(
    chain: Seq<Seq<char>>,
    k: int,
    timeout: bool,
    connect: bool,
)
    requires
        !crate::text::occurs_in("fingerprint mismatch"@, crate::text::joined(chain, ": "@)),
    ensures
        timeout ==> failure(chain, timeout, connect) == "timed out"@,
        !timeout && 0 <= k < chain.len() && (crate::text::occurs_in(
            "invalid peer certificate"@,
            chain[k],
        ) || crate::text::occurs_in("UnknownIssuer"@, chain[k])) ==> failure(
            chain,
            timeout,
            connect,
        )
            == "the controller's certificate is not trusted — pin its fingerprint with `fetch-fingerprint`"@,
        !timeout && !crate::text::occurs_in(
            "invalid peer certificate"@,
            crate::text::joined(chain, ": "@),
        ) && !crate::text::occurs_in("UnknownIssuer"@, crate::text::joined(chain, ": "@)) ==> failure(
            chain,
            timeout,
            connect,
        ) == (if connect {
            "connection refused or host unreachable"@
        } else {
            "request failed"@
        }),
{
    if 0 <= k < chain.len() {
        if crate::text::occurs_in("invalid peer certificate"@, chain[k]) {
            lemma_occurs_in_joined("invalid peer certificate"@, chain, ": "@, k);
        }
        if crate::text::occurs_in("UnknownIssuer"@, chain[k]) {
            lemma_occurs_in_joined("UnknownIssuer"@, chain, ": "@, k);
        }
    }
}

/// The document of a success reaches the client untouched. Any other answer is an
/// error with the controller's own status, where that is one, and the controller's
/// message, bounded, unless the answer is a server error or a refusal of the proxy's
/// own key; without a message the status is named.
pub proof fn an_answer_is_passed_on(status: u16, json: JsonView, m: Seq<char>)
    ensures
        200 <= status <= 299 ==> answered(status, json) == Ok::<JsonView, ErrorView>(json),
        !(200 <= status <= 299) ==> {
            let e = answered(status, json);
            &&& e is Err
            &&& e->Err_0 is Upstream
            &&& 100 <= status <= 999 ==> e->Err_0.status() == status
            &&& !(100 <= status <= 999) ==> e->Err_0.status() == 502
            &&& !(500 <= status <= 599) && status != 401 && status != 403 && json.get("message"@)
                == Some(JsonView::Text(m)) ==> e->Err_0.message() == clamped(m)
            &&& !(500 <= status <= 599) && status != 401 && status != 403 && json.get(
                "message"@,
            ) is None ==> e->Err_0.message() == "controller request failed (HTTP "@
                + crate::text::decimal(status as nat) + ")"@
            &&& 500 <= status <= 599 ==> e->Err_0.message()
                == "the controller reported an error (HTTP "@ + crate::text::decimal(status as nat)
                + ")"@
            &&& status == 401 || status == 403 ==> e->Err_0.message()
                == "the controller rejected the proxy's API key"@
        },
{
}

/// The operator is told of a server error and of a refused key, with the status and
/// what the controller said, bounded, and of nothing else.
pub proof fn the_operator_is_told_what_the_client_is_not(status: u16, text: Seq<char>)
    ensures
        warning_for(status, text) is Some <==> 500 <= status <= 599 || status == 401 || status
            == 403,
        warning_for(status, text) matches Some(w) ==> w.status == status && w.body == clamped(text),
        (ReplyView::Answered { status, text }).warning() == warning_for(status, text),
{
}

/// A body is read as the document that it is; a blank one and one that is no document
/// are read as nothing, and are no error.
pub proof fn a_body_is_read_as_it_is(text: Seq<char>, status: u16)
    ensures
        crate::text::trimmed(text).len() > 0 && crate::json::parsed(text) is Some ==> body_of(text)
            == crate::json::parsed(text)->0,
        crate::text::trimmed(text).len() == 0 ==> body_of(text) == JsonView::Null,
        crate::json::parsed(text) is None ==> body_of(text) == JsonView::Null,
        200 <= status <= 299 ==> (ReplyView::Answered { status, text }).received() == Ok::<
            JsonView,
            ErrorView,
        >(body_of(text)),
        !(200 <= status <= 299) ==> (ReplyView::Answered { status, text }).received() is Err,
{
}

/// What passes for an id is one.
pub proof fn lemma_ids(value: Seq<char>, what: Seq<char>)
    ensures
        id_fault(value, what) is None <==> is_id(value),
        id_fault(value, what) matches Some(e) ==> e.status() == 400,
{
    if id_fault(value, what) is None {
        an_id_is_one_path_segment(value, what);
    }
    if is_id(value) {
        if value.len() == 0 {
            assert(value =~= Seq::<char>::empty());
            is_ascii_chars_encode_utf8(value);
        }
        assert forall|i: int| 0 <= i < value.len() implies is_id_char(#[trigger] value[i]) by {}
    }
}

/// White space around a host makes no difference.
pub proof fn white_space_around_a_host_makes_no_difference(host: Seq<char>)
    ensures
        host_url(host) == host_url(crate::text::trimmed(host)),
{
    crate::text::trimming_takes_the_white_space_at_the_ends(host);
    lemma_already_trimmed(crate::text::trimmed(host));
}

} // verus!
