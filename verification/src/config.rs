//! The proxy's whole configuration, and the rules it has to obey.

use vstd::prelude::*;
use vstd::string::*;

use crate::moment::{Timestamp, TimestampView};
use crate::secret::Secret;
use crate::text::{has_prefix, same, to_lower, trim};
use crate::tls::{normalize_pins, FingerprintError};

verus! {

/// The proxy's whole configuration. Loaded from a TOML file, then overlaid with
/// `UVP_*` environment variables so secrets can stay out of the file entirely
/// (`UVP_CONTROLLER__API_KEY=...` is the common deployment shape).
pub struct Config {
    pub server: ServerConfig,
    pub controller: ControllerConfig,
    pub limits: Limits,
    /// Callers allowed through. An empty list is refused at startup — a proxy
    /// that trusts everyone is worse than no proxy.
    pub tokens: Vec<TokenConfig>,
}

pub struct ServerConfig {
    /// The socket address to listen on.
    pub bind: String,
    /// How long an upstream call may take before the proxy gives up, in
    /// nanoseconds.
    pub upstream_timeout: u128,
    /// Largest request body accepted from a client, in bytes.
    pub max_body_bytes: usize,
    /// Serve the GraphiQL explorer at `GET /graphql`.
    ///
    /// Off by default. The page is inert client-side HTML and carries no
    /// credentials of its own, but a security component should not put an
    /// unrequested interactive console on the network.
    pub graphql_playground: bool,
}

pub struct ControllerConfig {
    /// Controller root, e.g. `https://192.168.1.1`. Scheme optional.
    pub host: String,
    /// The full-control UniFi Integration API key. This is the value the whole
    /// project exists to keep off end-user devices.
    pub api_key: Secret,
    pub tls: TlsConfig,
}

pub struct TlsConfig {
    /// SHA-256 fingerprint(s) of the controller's leaf certificate, hex encoded
    /// (colons and `sha256:` prefix are tolerated). When set, the presented
    /// certificate must match one of them — this is how you get a trustworthy
    /// channel to a box that ships a self-signed cert.
    ///
    /// A list is for the cases where one console legitimately answers with more
    /// than one certificate. Every entry is still an exact pin; a list widens
    /// *which* certs are accepted, never *whether* they are checked.
    pub fingerprint_sha256: Option<Vec<String>>,
    /// Accept any certificate. Requires no fingerprint to be set and is loudly
    /// warned about on every startup; provided only so first-run setup can
    /// discover the fingerprint.
    pub insecure_skip_verify: bool,
    /// Suppress the per-start warning that `insecure_skip_verify` prints.
    ///
    /// The check stays off either way. It does nothing unless
    /// `insecure_skip_verify` is on.
    pub silence_insecure_warning: bool,
    /// Permit an `http://` controller URL, i.e. no TLS at all.
    ///
    /// A UniFi console always speaks HTTPS, so this exists for one shape only:
    /// a TLS-terminating sidecar on the loopback interface.
    pub allow_plaintext: bool,
}

impl Default for TlsConfig {
    fn default() -> (r: Self)
        ensures
            r == (TlsConfig {
                fingerprint_sha256: None,
                insecure_skip_verify: false,
                silence_insecure_warning: false,
                allow_plaintext: false,
            }),
    {
        TlsConfig {
            fingerprint_sha256: None,
            insecure_skip_verify: false,
            silence_insecure_warning: false,
            allow_plaintext: false,
        }
    }
}

/// What may stand for a list of strings in a config file.
pub enum OneOrMany {
    One(String),
    Many(Vec<String>),
}

/// Accepts either `fingerprint_sha256 = "abc…"` or `fingerprint_sha256 = ["abc…", "def…"]`.
///
/// The single-string form is the documented shape; the list is an additive
/// convenience.
pub fn one_or_many(value: Option<OneOrMany>) -> (r: Option<Vec<String>>)
    ensures
        match value {
            None => r is None,
            Some(OneOrMany::One(s)) => r is Some && r->0@ == seq![s],
            Some(OneOrMany::Many(v)) => r == Some(v),
        },
{
    match value {
        None => None,
        Some(OneOrMany::One(s)) => {
            let mut v: Vec<String> = Vec::new();
            v.push(s);
            Some(v)
        },
        Some(OneOrMany::Many(v)) => Some(v),
    }
}

/// Whether a controller URL disables TLS outright.
pub open spec fn plaintext(host: Seq<char>) -> bool {
    "http://"@.is_prefix_of(crate::text::lowered(crate::text::trimmed(host)))
}

impl ControllerConfig {
    /// Whether the configured host disables TLS outright. An absent scheme
    /// means https, so only an explicit `http://` counts.
    pub fn is_plaintext(&self) -> (r: bool)
        ensures
            r == plaintext(self.host@),
    {
        let host = trim(self.host.as_str());
        let host = to_lower(host.as_str());
        has_prefix(host.as_str(), "http://")
    }
}

/// Ceilings applied to every request, before any per-token override.
#[derive(Clone, Copy, Debug)]
pub struct Limits {
    pub max_vouchers_per_request: u32,
    pub max_validity_minutes: u64,
    /// Requests per minute per token. `0` disables rate limiting.
    pub rate_limit_per_minute: u32,
    /// Requests per minute per client IP, charged *before* authentication.
    ///
    /// Verifying a token costs a full Argon2 hash against every configured
    /// token, and a wrong token is never cached — so without this an
    /// unauthenticated caller can spend the machine's CPU at will. `0` disables
    /// it, which is right only when something in front already limits by
    /// source. Note the counter keys on the peer address: behind a reverse
    /// proxy every client shares one, so let that proxy do this instead.
    pub rate_limit_per_ip_per_minute: u32,
}

pub struct TokenConfig {
    /// Label used in audit logs. Never secret; make it identify the device.
    pub name: String,
    /// Argon2id PHC string produced by `unifi-voucher-proxy hash-token`.
    pub hash: String,
    /// Site ids this token may touch. `["*"]` means every site.
    pub sites: Vec<String>,
    pub scopes: Vec<Scope>,
    pub max_vouchers_per_request: Option<u32>,
    pub max_validity_minutes: Option<u64>,
    pub rate_limit_per_minute: Option<u32>,
    /// When this token stops working. Absent means it never expires.
    ///
    /// Expiry is checked per request rather than at startup, so a long-running
    /// proxy stops honouring a token the moment it lapses — no restart needed.
    pub expires_at: Option<Timestamp>,
}

/// What a token may do.
///
/// The wire names are spelled explicitly: they appear in user-written config
/// files, in `check-config` output and in GraphQL responses, so they are API
/// surface and must not drift.
#[derive(Debug, Clone, Copy, PartialEq, Eq, Structural)]
pub enum Scope {
    /// List sites. Needed by clients that let the user pick one.
    SitesRead,
    /// List existing vouchers.
    VouchersRead,
    /// Create new vouchers.
    VouchersCreate,
    /// Delete (revoke) vouchers.
    VouchersRevoke,
}

impl Scope {
    /// The wire name of a scope.
    pub open spec fn name(self) -> Seq<char> {
        match self {
            Scope::SitesRead => "sites:read"@,
            Scope::VouchersRead => "vouchers:read"@,
            Scope::VouchersCreate => "vouchers:create"@,
            Scope::VouchersRevoke => "vouchers:revoke"@,
        }
    }

    pub fn as_str(self) -> (r: &'static str)
        ensures
            r@ == self.name(),
    {
        match self {
            Scope::SitesRead => "sites:read",
            Scope::VouchersRead => "vouchers:read",
            Scope::VouchersCreate => "vouchers:create",
            Scope::VouchersRevoke => "vouchers:revoke",
        }
    }
}

/// No two scopes share a wire name.
pub proof fn scope_names_are_distinct(a: Scope, b: Scope)
    requires
        a.name() == b.name(),
    ensures
        a == b,
{
    reveal_strlit("sites:read");
    reveal_strlit("vouchers:read");
    reveal_strlit("vouchers:create");
    reveal_strlit("vouchers:revoke");
    assert("sites:read"@.len() == 10);
    assert("vouchers:read"@.len() == 13);
    assert("vouchers:create"@.len() == 15);
    assert("vouchers:revoke"@.len() == 15);
    assert("vouchers:create"@[9] == 'c');
    assert("vouchers:revoke"@[9] == 'r');
}

/// A token as the contracts speak of it.
pub ghost struct TokenView {
    pub name: Seq<char>,
    pub hash: Seq<char>,
    pub sites: Seq<Seq<char>>,
    pub scopes: Seq<Scope>,
    pub max_vouchers_per_request: Option<u32>,
    pub max_validity_minutes: Option<u64>,
    pub rate_limit_per_minute: Option<u32>,
    pub expires_at: Option<TimestampView>,
}

impl View for TokenConfig {
    type V = TokenView;

    open spec fn view(&self) -> TokenView {
        TokenView {
            name: self.name@,
            hash: self.hash@,
            sites: crate::text::texts(self.sites@),
            scopes: self.scopes@,
            max_vouchers_per_request: self.max_vouchers_per_request,
            max_validity_minutes: self.max_validity_minutes,
            rate_limit_per_minute: self.rate_limit_per_minute,
            expires_at: match self.expires_at {
                Some(t) => Some(t@),
                None => None,
            },
        }
    }
}

/// Tokens, each taken by its view.
pub open spec fn token_views(tokens: Seq<TokenConfig>) -> Seq<TokenView> {
    tokens.map_values(|t: TokenConfig| t@)
}

impl TokenView {
    /// Whether a token may touch a site.
    pub open spec fn allows_site(self, site: Seq<char>) -> bool {
        exists|i: int| 0 <= i < self.sites.len() && opens(#[trigger] self.sites[i], site)
    }

    /// Whether a token has lapsed at an instant.
    pub open spec fn expired_at(self, now: TimestampView) -> bool {
        match self.expires_at {
            Some(t) => now.instant() >= t.instant(),
            None => false,
        }
    }

    pub open spec fn effective_max_vouchers(self, global: Limits) -> u32 {
        match self.max_vouchers_per_request {
            Some(own) if own < global.max_vouchers_per_request => own,
            _ => global.max_vouchers_per_request,
        }
    }

    pub open spec fn effective_max_validity(self, global: Limits) -> u64 {
        match self.max_validity_minutes {
            Some(own) if own < global.max_validity_minutes => own,
            _ => global.max_validity_minutes,
        }
    }

    pub open spec fn effective_rate_limit(self, global: Limits) -> u32 {
        match self.rate_limit_per_minute {
            Some(own) if global.rate_limit_per_minute == 0 || own
                < global.rate_limit_per_minute => own,
            _ => global.rate_limit_per_minute,
        }
    }
}

/// Whether `n` is the lesser of a token's own limit, where it has one, and the
/// global one: at most either of them, and equal to one of them.
pub open spec fn is_lesser(n: nat, own: Option<nat>, global: nat) -> bool {
    &&& n <= global
    &&& own matches Some(own) ==> n <= own
    &&& n == global || own == Some(n)
}

/// A limit of a token's own, if it has one.
pub open spec fn own_limit(n: Option<u32>) -> Option<nat> {
    match n {
        Some(n) => Some(n as nat),
        None => None,
    }
}

/// Whether an entry of a token's site list opens a site to it.
pub open spec fn opens(entry: Seq<char>, site: Seq<char>) -> bool {
    entry == "*"@ || entry == site
}

fn copy_texts(list: &Vec<String>) -> (r: Vec<String>)
    ensures
        crate::text::texts(r@) == crate::text::texts(list@),
{
    let mut r: Vec<String> = Vec::new();
    let mut i: usize = 0;
    while i < list.len()
        invariant
            i <= list@.len(),
            crate::text::texts(r@) == crate::text::texts(list@).take(i as int),
        decreases list.len() - i,
    {
        let ghost before = r@;
        r.push(list[i].as_str().to_owned());
        i += 1;
        proof {
            assert(crate::text::texts(r@) =~= crate::text::texts(before).push(list@[i - 1]@));
            assert(crate::text::texts(list@).take(i as int) =~= crate::text::texts(list@).take(
                i - 1,
            ).push(list@[i - 1]@));
        }
    }
    assert(crate::text::texts(list@).take(i as int) =~= crate::text::texts(list@));
    r
}

fn copy_scopes(list: &Vec<Scope>) -> (r: Vec<Scope>)
    ensures
        r@ == list@,
{
    let mut r: Vec<Scope> = Vec::new();
    let mut i: usize = 0;
    while i < list.len()
        invariant
            i <= list@.len(),
            r@ == list@.take(i as int),
        decreases list.len() - i,
    {
        r.push(list[i]);
        i += 1;
        assert(list@.take(i as int) =~= list@.take(i - 1).push(list@[i - 1]));
    }
    assert(list@.take(i as int) =~= list@);
    r
}

impl Clone for TokenConfig {
    fn clone(&self) -> (r: Self)
        ensures
            r@ == self@,
    {
        TokenConfig {
            name: self.name.as_str().to_owned(),
            hash: self.hash.as_str().to_owned(),
            sites: copy_texts(&self.sites),
            scopes: copy_scopes(&self.scopes),
            max_vouchers_per_request: self.max_vouchers_per_request,
            max_validity_minutes: self.max_validity_minutes,
            rate_limit_per_minute: self.rate_limit_per_minute,
            expires_at: self.expires_at,
        }
    }
}

impl TokenConfig {
    pub fn allows_site(&self, site: &str) -> (r: bool)
        ensures
            r == self@.allows_site(site@),
            r == (self@.sites.contains("*"@) || self@.sites.contains(site@)),
    {
        proof {
            a_token_opens_the_sites_it_lists(self@, site@);
        }
        let mut i: usize = 0;
        while i < self.sites.len()
            invariant
                i <= self.sites@.len(),
                forall|j: int| 0 <= j < i ==> !opens(#[trigger] self@.sites[j], site@),
            decreases self.sites.len() - i,
        {
            let entry = self.sites[i].as_str();
            if same(entry, "*") || same(entry, site) {
                assert(opens(self@.sites[i as int], site@));
                return true;
            }
            i += 1;
        }
        false
    }

    /// Whether the token may use every site.
    pub fn has_wildcard(&self) -> (r: bool)
        ensures
            r == self@.sites.contains("*"@),
    {
        let ghost all = self@.sites;
        let mut i: usize = 0;
        while i < self.sites.len()
            invariant
                i <= self.sites@.len(),
                all == crate::text::texts(self.sites@),
                forall|j: int| 0 <= j < i ==> #[trigger] all[j] != "*"@,
            decreases self.sites.len() - i,
        {
            if same(self.sites[i].as_str(), "*") {
                assert(all[i as int] == "*"@);
                return true;
            }
            i += 1;
        }
        false
    }

    pub fn has_scope(&self, scope: Scope) -> (r: bool)
        ensures
            r == self@.scopes.contains(scope),
    {
        let mut i: usize = 0;
        while i < self.scopes.len()
            invariant
                i <= self.scopes@.len(),
                forall|j: int| 0 <= j < i ==> self.scopes@[j] != scope,
            decreases self.scopes.len() - i,
        {
            if self.scopes[i] == scope {
                return true;
            }
            i += 1;
        }
        false
    }

    /// Whether the token has lapsed as of `now`.
    ///
    /// `now` is passed in rather than read from the clock so the behaviour can
    /// be tested at chosen instants instead of by sleeping.
    pub fn is_expired_at(&self, now: &Timestamp) -> (r: bool)
        ensures
            r == self@.expired_at(now@),
            r == (self@.expires_at is Some && self@.expires_at->0.instant() <= now@.instant()),
    {
        match &self.expires_at {
            Some(t) => now.reaches(t),
            None => false,
        }
    }

    /// How long until it lapses, in nanoseconds; `None` when it never does,
    /// negative when it already has.
    pub fn expires_in(&self, now: &Timestamp) -> (r: Option<i128>)
        ensures
            match self@.expires_at {
                Some(t) => r is Some && r->0 == t.instant() - now@.instant(),
                None => r is None,
            },
    {
        match &self.expires_at {
            Some(t) => Some(t.since(now)),
            None => None,
        }
    }

    /// Effective ceiling: a token may tighten a global limit but never raise it.
    pub fn effective_max_vouchers(&self, global: &Limits) -> (r: u32)
        ensures
            r == self@.effective_max_vouchers(*global),
            is_lesser(
                r as nat,
                own_limit(self.max_vouchers_per_request),
                global.max_vouchers_per_request as nat,
            ),
    {
        match self.max_vouchers_per_request {
            Some(own) if own < global.max_vouchers_per_request => own,
            _ => global.max_vouchers_per_request,
        }
    }

    pub fn effective_max_validity(&self, global: &Limits) -> (r: u64)
        ensures
            r == self@.effective_max_validity(*global),
            is_lesser(
                r as nat,
                match self.max_validity_minutes {
                    Some(own) => Some(own as nat),
                    None => None,
                },
                global.max_validity_minutes as nat,
            ),
    {
        match self.max_validity_minutes {
            Some(own) if own < global.max_validity_minutes => own,
            _ => global.max_validity_minutes,
        }
    }

    pub fn effective_rate_limit(&self, global: &Limits) -> (r: u32)
        ensures
            r == self@.effective_rate_limit(*global),
            global.rate_limit_per_minute == 0 && self.rate_limit_per_minute is Some ==> r
                == self.rate_limit_per_minute->0,
            global.rate_limit_per_minute > 0 || self.rate_limit_per_minute is None ==> is_lesser(
                r as nat,
                own_limit(self.rate_limit_per_minute),
                global.rate_limit_per_minute as nat,
            ),
    {
        match self.rate_limit_per_minute {
            Some(own) if global.rate_limit_per_minute == 0 || own
                < global.rate_limit_per_minute => own,
            _ => global.rate_limit_per_minute,
        }
    }
}

// ---------------------------------------------------------------------------
// Defaults
// ---------------------------------------------------------------------------

pub fn default_bind() -> (r: String)
    ensures
        r@ == "0.0.0.0:8080"@,
{
    "0.0.0.0:8080".to_owned()
}

/// Fifteen seconds.
pub fn default_timeout() -> (r: u128)
    ensures
        r == 15 * 1_000_000_000,
{
    15_000_000_000
}

pub fn default_body_limit() -> (r: usize)
    ensures
        r == 64 * 1024,
{
    65_536
}

pub fn default_max_vouchers() -> (r: u32)
    ensures
        r == 10,
{
    10
}

/// Thirty days.
pub fn default_max_validity() -> (r: u64)
    ensures
        r == 60 * 24 * 30,
{
    43_200
}

/// Generous next to the per-token default of 60: this is a flood stop, not a
/// quota, and it must not bite a client that is behaving.
pub fn default_pre_auth_rate_limit() -> (r: u32)
    ensures
        r == 120,
{
    120
}

pub fn default_rate_limit() -> (r: u32)
    ensures
        r == 60,
{
    60
}

pub fn default_sites() -> (r: Vec<String>)
    ensures
        crate::text::texts(r@) == seq!["*"@],
{
    let mut r: Vec<String> = Vec::new();
    r.push("*".to_owned());
    assert(crate::text::texts(r@) =~= seq!["*"@]);
    r
}

pub fn default_scopes() -> (r: Vec<Scope>)
    ensures
        r@ == seq![
            Scope::SitesRead,
            Scope::VouchersRead,
            Scope::VouchersCreate,
            Scope::VouchersRevoke,
        ],
{
    vec![Scope::SitesRead, Scope::VouchersRead, Scope::VouchersCreate, Scope::VouchersRevoke]
}

impl Default for ServerConfig {
    fn default() -> (r: Self)
        ensures
            r.bind@ == "0.0.0.0:8080"@,
            r.upstream_timeout == 15 * 1_000_000_000,
            r.max_body_bytes == 64 * 1024,
            !r.graphql_playground,
    {
        ServerConfig {
            bind: default_bind(),
            upstream_timeout: default_timeout(),
            max_body_bytes: default_body_limit(),
            graphql_playground: false,
        }
    }
}

impl Default for Limits {
    fn default() -> (r: Self)
        ensures
            r == (Limits {
                max_vouchers_per_request: 10,
                max_validity_minutes: (60 * 24 * 30) as u64,
                rate_limit_per_minute: 60,
                rate_limit_per_ip_per_minute: 120,
            }),
    {
        Limits {
            max_vouchers_per_request: default_max_vouchers(),
            max_validity_minutes: default_max_validity(),
            rate_limit_per_minute: default_rate_limit(),
            rate_limit_per_ip_per_minute: default_pre_auth_rate_limit(),
        }
    }
}

// ---------------------------------------------------------------------------
// Validation
// ---------------------------------------------------------------------------

/// Why a configuration is refused.
#[derive(Debug)]
pub enum ConfigError {
    NoApiKey,
    NoTokens,
    UnnamedToken,
    /// The named token's hash is not an Argon2 PHC string.
    NotAHash(String),
    /// The named token has no scopes.
    NoScopes(String),
    PinnedAndUnverified,
    /// The controller's URL is this one, which would send the API key in the
    /// clear.
    Plaintext(String),
    NoPins,
    UnusableFingerprint(FingerprintError),
}

/// A refusal as the contracts speak of it.
pub ghost enum FaultView {
    NoApiKey,
    NoTokens,
    UnnamedToken,
    NotAHash(Seq<char>),
    NoScopes(Seq<char>),
    PinnedAndUnverified,
    Plaintext(Seq<char>),
    NoPins,
    UnusableFingerprint(FingerprintError),
}

impl View for ConfigError {
    type V = FaultView;

    open spec fn view(&self) -> FaultView {
        match self {
            ConfigError::NoApiKey => FaultView::NoApiKey,
            ConfigError::NoTokens => FaultView::NoTokens,
            ConfigError::UnnamedToken => FaultView::UnnamedToken,
            ConfigError::NotAHash(name) => FaultView::NotAHash(name@),
            ConfigError::NoScopes(name) => FaultView::NoScopes(name@),
            ConfigError::PinnedAndUnverified => FaultView::PinnedAndUnverified,
            ConfigError::Plaintext(host) => FaultView::Plaintext(host@),
            ConfigError::NoPins => FaultView::NoPins,
            ConfigError::UnusableFingerprint(cause) => FaultView::UnusableFingerprint(*cause),
        }
    }
}

impl FaultView {
    /// What the operator is told.
    pub open spec fn message(self) -> Seq<char> {
        match self {
            FaultView::NoApiKey =>
                "controller.api_key is empty — set it in the config file or via UVP_CONTROLLER__API_KEY"@,
            FaultView::NoTokens =>
                "no tokens configured — the proxy would reject every request; add at least one [[tokens]] entry (generate one with `unifi-voucher-proxy hash-token`)"@,
            FaultView::UnnamedToken =>
                "every token needs a non-empty name (it is what shows up in the audit log)"@,
            FaultView::NotAHash(name) => "token '"@ + name
                + "' has a hash that is not an Argon2 PHC string — store the output of `unifi-voucher-proxy hash-token`, not the token itself"@,
            FaultView::NoScopes(name) => "token '"@ + name
                + "' has no scopes and could do nothing"@,
            FaultView::PinnedAndUnverified =>
                "controller.tls: set either fingerprint_sha256 or insecure_skip_verify, not both"@,
            FaultView::Plaintext(host) => "controller.host is "@ + host
                + " — the API key would travel unencrypted. Use https://, or set controller.tls.allow_plaintext = true if a TLS-terminating sidecar on this host is doing the encryption"@,
            FaultView::NoPins =>
                "controller.tls.fingerprint_sha256 is an empty list — remove the key to fall back to WebPKI verification, or put a fingerprint in it"@,
            FaultView::UnusableFingerprint(_) =>
                "controller.tls.fingerprint_sha256 is not usable"@,
        }
    }
}

impl ConfigError {
    pub fn message(&self) -> (r: String)
        ensures
            r@ == self@.message(),
    {
        match self {
            ConfigError::NoApiKey =>
                "controller.api_key is empty — set it in the config file or via UVP_CONTROLLER__API_KEY".to_owned(),
            ConfigError::NoTokens =>
                "no tokens configured — the proxy would reject every request; add at least one [[tokens]] entry (generate one with `unifi-voucher-proxy hash-token`)".to_owned(),
            ConfigError::UnnamedToken =>
                "every token needs a non-empty name (it is what shows up in the audit log)".to_owned(),
            ConfigError::NotAHash(name) => {
                let mut m = "token '".to_owned();
                m.append(name.as_str());
                m.append(
                    "' has a hash that is not an Argon2 PHC string — store the output of `unifi-voucher-proxy hash-token`, not the token itself",
                );
                m
            },
            ConfigError::NoScopes(name) => {
                let mut m = "token '".to_owned();
                m.append(name.as_str());
                m.append("' has no scopes and could do nothing");
                m
            },
            ConfigError::PinnedAndUnverified =>
                "controller.tls: set either fingerprint_sha256 or insecure_skip_verify, not both".to_owned(),
            ConfigError::Plaintext(host) => {
                let mut m = "controller.host is ".to_owned();
                m.append(host.as_str());
                m.append(
                    " — the API key would travel unencrypted. Use https://, or set controller.tls.allow_plaintext = true if a TLS-terminating sidecar on this host is doing the encryption",
                );
                m
            },
            ConfigError::NoPins =>
                "controller.tls.fingerprint_sha256 is an empty list — remove the key to fall back to WebPKI verification, or put a fingerprint in it".to_owned(),
            ConfigError::UnusableFingerprint(_) =>
                "controller.tls.fingerprint_sha256 is not usable".to_owned(),
        }
    }

    /// What lies behind the message, where there is more to say.
    pub fn cause(&self) -> (r: Option<String>)
        ensures
            match self {
                ConfigError::UnusableFingerprint(cause) => r is Some && r->0@
                    == cause.spec_message(),
                _ => r is None,
            },
    {
        match self {
            ConfigError::UnusableFingerprint(cause) => Some(cause.message()),
            _ => None,
        }
    }
}

/// What is wrong with a token, if anything.
pub open spec fn token_fault(t: TokenView) -> Option<FaultView> {
    if crate::text::trimmed(t.name).len() == 0 {
        Some(FaultView::UnnamedToken)
    } else if !"$argon2"@.is_prefix_of(t.hash) {
        Some(FaultView::NotAHash(t.name))
    } else if t.scopes.len() == 0 {
        Some(FaultView::NoScopes(t.name))
    } else {
        None
    }
}

/// What is wrong with the first of some tokens that is not in order.
pub open spec fn tokens_fault(tokens: Seq<TokenView>) -> Option<FaultView>
    decreases tokens.len(),
{
    if tokens.len() == 0 {
        None
    } else {
        match token_fault(tokens[0]) {
            Some(fault) => Some(fault),
            None => tokens_fault(tokens.drop_first()),
        }
    }
}

/// What is wrong with how the controller is reached, if anything.
pub open spec fn controller_fault(host: Seq<char>, tls: TlsConfig) -> Option<FaultView> {
    if tls.insecure_skip_verify && tls.fingerprint_sha256 is Some {
        Some(FaultView::PinnedAndUnverified)
    } else if plaintext(host) && !tls.allow_plaintext {
        Some(FaultView::Plaintext(crate::text::trimmed(host)))
    } else {
        match tls.fingerprint_sha256 {
            None => None,
            Some(raws) => crate::tls::pins_fault(crate::text::texts(raws@)),
        }
    }
}

impl Config {
    /// The first rule that a configuration breaks; `None` where it is in order.
    pub open spec fn fault(self) -> Option<FaultView> {
        if self.controller.api_key@.len() == 0 {
            Some(FaultView::NoApiKey)
        } else if self.tokens@.len() == 0 {
            Some(FaultView::NoTokens)
        } else {
            match tokens_fault(token_views(self.tokens@)) {
                Some(fault) => Some(fault),
                None => controller_fault(self.controller.host@, self.controller.tls),
            }
        }
    }

    /// Refuses a configuration that breaks a rule, and says which one.
    pub fn validate(&self) -> (r: Result<(), ConfigError>)
        ensures
            match r {
                Ok(_) => self.fault() is None,
                Err(e) => self.fault() == Some(e@),
            },
    {
        if self.controller.api_key.is_empty() {
            return Err(ConfigError::NoApiKey);
        }
        if self.tokens.len() == 0 {
            return Err(ConfigError::NoTokens);
        }
        let ghost all = token_views(self.tokens@);
        let mut i: usize = 0;
        assert(all.skip(0) =~= all);
        while i < self.tokens.len()
            invariant
                i <= self.tokens@.len(),
                all == token_views(self.tokens@),
                tokens_fault(all) == tokens_fault(all.skip(i as int)),
                self.controller.api_key@.len() > 0,
                self.tokens@.len() > 0,
            decreases self.tokens.len() - i,
        {
            let t = &self.tokens[i];
            let ghost rest = all.skip(i as int);
            assert(rest[0] == t@);
            if trim(t.name.as_str()).as_str().is_empty() {
                return Err(ConfigError::UnnamedToken);
            }
            if !has_prefix(t.hash.as_str(), "$argon2") {
                return Err(ConfigError::NotAHash(t.name.as_str().to_owned()));
            }
            if t.scopes.len() == 0 {
                return Err(ConfigError::NoScopes(t.name.as_str().to_owned()));
            }
            i += 1;
            assert(rest.drop_first() =~= all.skip(i as int));
        }
        let tls = &self.controller.tls;
        if tls.insecure_skip_verify && tls.fingerprint_sha256.is_some() {
            return Err(ConfigError::PinnedAndUnverified);
        }
        // A plaintext controller URL puts the full-control API key on the wire
        // in the clear, which is precisely what this proxy exists to prevent.
        // Refused unless the operator says otherwise in so many words.
        if self.controller.is_plaintext() && !tls.allow_plaintext {
            return Err(ConfigError::Plaintext(trim(self.controller.host.as_str())));
        }
        // An empty pin is not a pin. `serve` catches this when it builds the
        // TLS config; catching it here means `check-config` agrees.
        if let Some(raws) = &tls.fingerprint_sha256 {
            if let Err(e) = normalize_pins(raws) {
                return Err(e);
            }
        }
        Ok(())
    }
}

// ---------------------------------------------------------------------------
// What holds of configurations
// ---------------------------------------------------------------------------

proof fn lemma_every_token_is_in_order(tokens: Seq<TokenView>)
    requires
        tokens_fault(tokens) is None,
    ensures
        forall|i: int| 0 <= i < tokens.len() ==> token_fault(#[trigger] tokens[i]) is None,
    decreases tokens.len(),
{
    if tokens.len() > 0 {
        let rest = tokens.drop_first();
        lemma_every_token_is_in_order(rest);
        assert forall|i: int| 0 <= i < tokens.len() implies token_fault(
            #[trigger] tokens[i],
        ) is None by {
            if i > 0 {
                assert(tokens[i] == rest[i - 1]);
            }
        }
    }
}

/// A configuration that is in order has an API key and at least one token, every
/// token has a name, an Argon2 hash and something it may do, and the key cannot
/// travel in the clear or to an unchecked peer by accident. How the controller's
/// certificate is checked can then be set up.
pub proof fn a_config_in_order_is_safe_to_serve(c: Config)
    requires
        c.fault() is None,
    ensures
        c.controller.api_key@.len() > 0,
        c.tokens@.len() > 0,
        forall|i: int|
            #![trigger c.tokens@[i]]
            0 <= i < c.tokens@.len() ==> {
                &&& crate::text::trimmed(c.tokens@[i].name@).len() > 0
                &&& "$argon2"@.is_prefix_of(c.tokens@[i].hash@)
                &&& c.tokens@[i].scopes@.len() > 0
            },
        plaintext(c.controller.host@) ==> c.controller.tls.allow_plaintext,
        c.controller.tls.fingerprint_sha256 matches Some(raws) ==> {
            &&& !c.controller.tls.insecure_skip_verify
            &&& raws@.len() > 0
            &&& crate::tls::all_usable(crate::text::texts(raws@))
        },
        crate::tls::mode_of(c.controller.tls) is Ok,
{
    let views = token_views(c.tokens@);
    lemma_every_token_is_in_order(views);
    assert forall|i: int| 0 <= i < c.tokens@.len() implies {
        &&& crate::text::trimmed((#[trigger] c.tokens@[i]).name@).len() > 0
        &&& "$argon2"@.is_prefix_of(c.tokens@[i].hash@)
        &&& c.tokens@[i].scopes@.len() > 0
    } by {
        assert(token_fault(views[i]) is None);
    }
    if let Some(raws) = c.controller.tls.fingerprint_sha256 {
        crate::tls::usable_fingerprints_have_no_fault(crate::text::texts(raws@));
    }
}

/// A token may tighten a global ceiling but never raise it.
pub proof fn a_token_never_raises_a_ceiling(t: TokenView, global: Limits)
    ensures
        t.effective_max_vouchers(global) <= global.max_vouchers_per_request,
        t.effective_max_validity(global) <= global.max_validity_minutes,
{
}

/// Where requests are limited globally, a token that sets a limit of its own
/// above zero is limited at least as tightly.
pub proof fn a_token_never_loosens_the_rate_limit(t: TokenView, global: Limits)
    requires
        global.rate_limit_per_minute > 0,
        t.rate_limit_per_minute != Some(0u32),
    ensures
        0 < t.effective_rate_limit(global) <= global.rate_limit_per_minute,
{
}

/// A token that has lapsed stays so, and one that has not yet lapsed had not
/// lapsed before.
pub proof fn a_lapsed_token_stays_lapsed(t: TokenView, now: TimestampView, later: TimestampView)
    requires
        now.instant() <= later.instant(),
    ensures
        t.expired_at(now) ==> t.expired_at(later),
{
}

/// The wildcard opens every site.
pub proof fn the_wildcard_opens_every_site(t: TokenView, site: Seq<char>)
    requires
        t.sites.contains("*"@),
    ensures
        t.allows_site(site),
{
    let i = choose|i: int| 0 <= i < t.sites.len() && t.sites[i] == "*"@;
    assert(opens(t.sites[i], site));
}

/// A token may use a site exactly where its list holds the wildcard or that very
/// site: no other entry opens it.
pub proof fn a_token_opens_the_sites_it_lists(t: TokenView, site: Seq<char>)
    ensures
        t.allows_site(site) <==> t.sites.contains("*"@) || t.sites.contains(site),
{
    if t.sites.contains("*"@) {
        the_wildcard_opens_every_site(t, site);
    }
    if t.sites.contains(site) {
        let i = choose|i: int| 0 <= i < t.sites.len() && t.sites[i] == site;
        assert(opens(t.sites[i], site));
    }
    if t.allows_site(site) {
        let i = choose|i: int| 0 <= i < t.sites.len() && opens(#[trigger] t.sites[i], site);
        assert(t.sites.contains(t.sites[i]));
    }
}

/// The effective ceilings are the lesser of a token's own and the global ones: at
/// most either, and equal to one of them. Without a ceiling of its own a token has
/// the global one.
pub proof fn the_tighter_ceiling_applies(t: TokenView, global: Limits)
    ensures
        t.effective_max_vouchers(global) <= global.max_vouchers_per_request,
        t.max_vouchers_per_request matches Some(own) ==> t.effective_max_vouchers(global) <= own,
        t.effective_max_vouchers(global) == global.max_vouchers_per_request
            || t.max_vouchers_per_request == Some(t.effective_max_vouchers(global)),
        t.effective_max_validity(global) <= global.max_validity_minutes,
        t.max_validity_minutes matches Some(own) ==> t.effective_max_validity(global) <= own,
        t.effective_max_validity(global) == global.max_validity_minutes
            || t.max_validity_minutes == Some(t.effective_max_validity(global)),
{
}

/// The effective rate limit is a token's own where there is no global one, the
/// global one where the token has none, and the lesser of the two otherwise.
pub proof fn the_tighter_rate_limit_applies(t: TokenView, global: Limits)
    ensures
        t.rate_limit_per_minute is None ==> t.effective_rate_limit(global)
            == global.rate_limit_per_minute,
        t.rate_limit_per_minute matches Some(own) ==> {
            &&& t.effective_rate_limit(global) <= own
            &&& global.rate_limit_per_minute == 0 ==> t.effective_rate_limit(global) == own
            &&& global.rate_limit_per_minute > 0 ==> t.effective_rate_limit(global)
                <= global.rate_limit_per_minute
            &&& t.effective_rate_limit(global) == own || t.effective_rate_limit(global)
                == global.rate_limit_per_minute
        },
{
}

/// A token's limits depend on nothing of it but the limit that it sets itself.
pub proof fn a_limit_depends_on_itself_alone(a: TokenView, b: TokenView, x: Limits, y: Limits)
    ensures
        a.max_vouchers_per_request == b.max_vouchers_per_request && x.max_vouchers_per_request
            == y.max_vouchers_per_request ==> a.effective_max_vouchers(x)
            == b.effective_max_vouchers(y),
        a.max_validity_minutes == b.max_validity_minutes && x.max_validity_minutes
            == y.max_validity_minutes ==> a.effective_max_validity(x)
            == b.effective_max_validity(y),
        a.rate_limit_per_minute == b.rate_limit_per_minute && x.rate_limit_per_minute
            == y.rate_limit_per_minute ==> a.effective_rate_limit(x) == b.effective_rate_limit(y),
{
}

/// A token lapses at its deadline, to the instant, whatever offsets the two times
/// are written with; without a deadline it never does.
pub proof fn a_token_lapses_at_its_deadline(t: TokenView, now: TimestampView)
    ensures
        t.expires_at is None ==> !t.expired_at(now),
        t.expires_at matches Some(deadline) ==> (t.expired_at(now) <==> deadline.local_nanos
            - deadline.offset_seconds * 1_000_000_000 <= now.local_nanos - now.offset_seconds
            * 1_000_000_000),
{
}

proof fn lemma_tokens_in_order(tokens: Seq<TokenView>)
    requires
        forall|i: int| 0 <= i < tokens.len() ==> token_fault(#[trigger] tokens[i]) is None,
    ensures
        tokens_fault(tokens) is None,
    decreases tokens.len(),
{
    if tokens.len() > 0 {
        let rest = tokens.drop_first();
        assert forall|i: int| 0 <= i < rest.len() implies token_fault(#[trigger] rest[i]) is None by {
            assert(rest[i] == tokens[i + 1]);
        }
        assert(token_fault(tokens[0]) is None);
        lemma_tokens_in_order(rest);
    }
}

/// A configuration is refused for one of the rules and for nothing else: whatever
/// has an API key, tokens that are in order, and a controller that is reached
/// safely, is served.
pub proof fn a_config_that_keeps_every_rule_is_accepted(c: Config)
    requires
        c.controller.api_key@.len() > 0,
        c.tokens@.len() > 0,
        forall|i: int|
            #![trigger c.tokens@[i]]
            0 <= i < c.tokens@.len() ==> {
                &&& crate::text::trimmed(c.tokens@[i].name@).len() > 0
                &&& "$argon2"@.is_prefix_of(c.tokens@[i].hash@)
                &&& c.tokens@[i].scopes@.len() > 0
            },
        plaintext(c.controller.host@) ==> c.controller.tls.allow_plaintext,
        c.controller.tls.fingerprint_sha256 matches Some(raws) ==> {
            &&& !c.controller.tls.insecure_skip_verify
            &&& raws@.len() > 0
            &&& crate::tls::all_usable(crate::text::texts(raws@))
        },
    ensures
        c.fault() is None,
{
    let views = token_views(c.tokens@);
    assert forall|i: int| 0 <= i < views.len() implies token_fault(#[trigger] views[i]) is None by {
        assert(views[i] == c.tokens@[i]@);
    }
    lemma_tokens_in_order(views);
    if let Some(raws) = c.controller.tls.fingerprint_sha256 {
        crate::tls::usable_fingerprints_have_no_fault(crate::text::texts(raws@));
    }
}

proof fn lemma_the_first_fault(tokens: Seq<TokenView>, i: int)
    requires
        0 <= i < tokens.len(),
        forall|j: int| 0 <= j < i ==> token_fault(#[trigger] tokens[j]) is None,
        token_fault(tokens[i]) is Some,
    ensures
        tokens_fault(tokens) == token_fault(tokens[i]),
    decreases i,
{
    if i > 0 {
        let rest = tokens.drop_first();
        assert(token_fault(tokens[0]) is None);
        assert forall|j: int| 0 <= j < i - 1 implies token_fault(#[trigger] rest[j]) is None by {
            assert(rest[j] == tokens[j + 1]);
        }
        assert(rest[i - 1] == tokens[i]);
        lemma_the_first_fault(rest, i - 1);
    }
}

/// The rule that a configuration is refused for is one that it breaks, and the
/// operator is told of the first such rule: the key, then the tokens in their
/// order, then how the controller is reached.
pub proof fn the_first_broken_rule_is_named(c: Config, i: int)
    ensures
        c.fault() == Some(FaultView::NoApiKey) <==> c.controller.api_key@.len() == 0,
        c.fault() == Some(FaultView::NoTokens) <==> c.controller.api_key@.len() > 0
            && c.tokens@.len() == 0,
        c.controller.api_key@.len() > 0 && 0 <= i < c.tokens@.len() && (forall|j: int|
            #![trigger c.tokens@[j]]
            0 <= j < i ==> {
                &&& crate::text::trimmed(c.tokens@[j].name@).len() > 0
                &&& "$argon2"@.is_prefix_of(c.tokens@[j].hash@)
                &&& c.tokens@[j].scopes@.len() > 0
            }) ==> {
            let t = c.tokens@[i];
            let named = crate::text::trimmed(t.name@).len() > 0;
            let hashed = "$argon2"@.is_prefix_of(t.hash@);
            &&& !named ==> c.fault() == Some(FaultView::UnnamedToken)
            &&& named && !hashed ==> c.fault() == Some(FaultView::NotAHash(t.name@))
            &&& named && hashed && t.scopes@.len() == 0 ==> c.fault() == Some(
                FaultView::NoScopes(t.name@),
            )
        },
{
    let views = token_views(c.tokens@);
    if c.controller.api_key@.len() > 0 && 0 <= i < c.tokens@.len() && (forall|j: int|
        #![trigger c.tokens@[j]]
        0 <= j < i ==> {
            &&& crate::text::trimmed(c.tokens@[j].name@).len() > 0
            &&& "$argon2"@.is_prefix_of(c.tokens@[j].hash@)
            &&& c.tokens@[j].scopes@.len() > 0
        }) {
        assert(views[i] == c.tokens@[i]@);
        if token_fault(views[i]) is Some {
            assert forall|j: int| 0 <= j < i implies token_fault(#[trigger] views[j]) is None by {
                assert(views[j] == c.tokens@[j]@);
            }
            lemma_the_first_fault(views, i);
        }
    }
    lemma_a_fault_of_tokens(views);
}

/// What is wrong with tokens is never that there are none, or no key.
proof fn lemma_a_fault_of_tokens(tokens: Seq<TokenView>)
    ensures
        tokens_fault(tokens) != Some(FaultView::NoApiKey),
        tokens_fault(tokens) != Some(FaultView::NoTokens),
    decreases tokens.len(),
{
    if tokens.len() > 0 {
        lemma_a_fault_of_tokens(tokens.drop_first());
    }
}

/// Once the key and the tokens are in order, what is wrong with the controller is
/// named: pinned and unchecked at once, then in the clear without leave, then no
/// pins at all.
pub proof fn a_fault_of_the_controller_is_named(c: Config)
    requires
        c.controller.api_key@.len() > 0,
        c.tokens@.len() > 0,
        tokens_fault(token_views(c.tokens@)) is None,
    ensures
        ({
            let tls = c.controller.tls;
            let host = crate::text::trimmed(c.controller.host@);
            let clear = host.len() >= 7 && crate::text::lowered(host.take(7)) == "http://"@;
            let both = tls.insecure_skip_verify && tls.fingerprint_sha256 is Some;
            &&& c.fault() == Some(FaultView::PinnedAndUnverified) <==> both
            &&& !both && clear && !tls.allow_plaintext <==> c.fault() == Some(
                FaultView::Plaintext(host),
            )
            &&& !both && !(clear && !tls.allow_plaintext) && tls.fingerprint_sha256 is None
                ==> c.fault() is None
            &&& !both && !(clear && !tls.allow_plaintext) && tls.fingerprint_sha256 is Some
                && tls.fingerprint_sha256->0@.len() == 0 ==> c.fault() == Some(FaultView::NoPins)
        }),
{
    an_explicit_scheme_is_recognised(c.controller.host@);
}

/// A controller is reached in the clear exactly where its URL, without the white
/// space around it, starts with `http://` in whatever case.
pub proof fn an_explicit_scheme_is_recognised(host: Seq<char>)
    ensures
        ({
            let url = crate::text::trimmed(host);
            plaintext(host) <==> url.len() >= 7 && crate::text::lowered(url.take(7)) == "http://"@
        }),
{
    let url = crate::text::trimmed(host);
    reveal_strlit("http://");
    if url.len() >= 7 {
        assert(crate::text::lowered(url.take(7)) =~= crate::text::lowered(url).subrange(0, 7));
    }
}

/// Every scope has its name on the wire.
pub proof fn every_scope_has_its_name()
    ensures
        Scope::SitesRead.name() == "sites:read"@,
        Scope::VouchersRead.name() == "vouchers:read"@,
        Scope::VouchersCreate.name() == "vouchers:create"@,
        Scope::VouchersRevoke.name() == "vouchers:revoke"@,
{
}

} // verus!
