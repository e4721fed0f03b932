//! What a running proxy holds, and who is calling it.

use vstd::prelude::*;
use vstd::string::*;

use crate::audit::{rejected_token, Rejected, RejectedView};
use crate::auth::{
    token_from_headers, AuthView, Authenticator, Challenge, ChallengeView, Header, HeaderView, Verdicts,
};
use crate::config::{Config, ConfigError, FaultView, Limits, Scope, TokenConfig, TokenView};
use crate::error::{ErrorView, ProxyError};
use crate::metrics::{Metrics, MetricsView};
use crate::moment::{Timestamp, TimestampView};
use crate::policy::Ceilings;
use crate::ratelimit::{RateLimits, RateView};
use crate::upstream::{Upstream, UpstreamView};

verus! {

// ---------------------------------------------------------------------------
// The running configuration
// ---------------------------------------------------------------------------

/// Everything a reload can replace.
///
/// Grouped into one struct so a reload swaps a single value: a request either
/// sees the whole old configuration or the whole new one, never a token list
/// from one and limits from the other.
pub struct Live {
    pub auth: Authenticator,
    pub upstream: Upstream,
    pub limits: Limits,
    pub rate: RateLimits,
    pub token_count: usize,
}

/// The running configuration as the contracts speak of it.
pub ghost struct LiveView {
    pub auth: AuthView,
    pub upstream: UpstreamView,
    pub limits: Limits,
    pub rate: RateView,
    pub token_count: nat,
}

impl View for Live {
    type V = LiveView;

    open spec fn view(&self) -> LiveView {
        LiveView {
            auth: self.auth@,
            upstream: self.upstream@,
            limits: self.limits,
            rate: self.rate@,
            token_count: self.token_count as nat,
        }
    }
}

/// Why a configuration cannot be put to work.
#[derive(Debug)]
pub enum BuildError {
    /// A token's hash cannot be read.
    Token(String),
    /// The controller's certificate cannot be checked as asked.
    Controller(ConfigError),
}

/// Why a configuration cannot be put to work, as the contracts speak of it.
pub ghost enum BuildFault {
    Token(Seq<char>),
    Controller(FaultView),
}

impl View for BuildError {
    type V = BuildFault;

    open spec fn view(&self) -> BuildFault {
        match self {
            BuildError::Token(m) => BuildFault::Token(m@),
            BuildError::Controller(e) => BuildFault::Controller(e@),
        }
    }
}

impl BuildFault {
    /// What the operator is told.
    pub open spec fn message(self) -> Seq<char> {
        match self {
            BuildFault::Token(m) => m,
            BuildFault::Controller(fault) => fault.message(),
        }
    }
}

impl BuildError {
    pub fn message(&self) -> (r: String)
        ensures
            r@ == self@.message(),
    {
        match self {
            BuildError::Token(m) => m.as_str().to_owned(),
            BuildError::Controller(e) => e.message(),
        }
    }
}

/// What a configuration is put to work as, or why it cannot be.
pub open spec fn live_from(cfg: Config) -> Result<LiveView, BuildFault> {
    let tokens = crate::config::token_views(cfg.tokens@);
    match crate::auth::hash_fault(tokens) {
        Some(m) => Err(BuildFault::Token(m)),
        None => match crate::tls::mode_of(cfg.controller.tls) {
            Err(fault) => Err(BuildFault::Controller(fault)),
            Ok(mode) => Ok(
                LiveView {
                    auth: AuthView::fresh(tokens),
                    upstream: UpstreamView::of(
                        cfg.controller.host@,
                        cfg.controller.api_key@,
                        mode,
                    ),
                    limits: cfg.limits,
                    rate: RateView {
                        tokens: crate::ratelimit::starting_budgets(tokens, cfg.limits),
                        per_ip: crate::ratelimit::starting_ip_budgets(cfg.limits),
                        sweep: 0,
                    },
                    token_count: cfg.tokens@.len(),
                },
            ),
        },
    }
}

impl Live {
    pub fn build(cfg: &Config) -> (r: Result<Self, BuildError>)
        ensures
            match live_from(*cfg) {
                Ok(live) => r is Ok && r->Ok_0@ == live,
                Err(fault) => r is Err && r->Err_0@ == fault,
            },
    {
        let auth = match Authenticator::new(&cfg.tokens) {
            Ok(auth) => auth,
            Err(m) => return Err(BuildError::Token(m)),
        };
        let upstream = match Upstream::new(&cfg.controller) {
            Ok(upstream) => upstream,
            Err(e) => return Err(BuildError::Controller(e)),
        };
        Ok(
            Live {
                auth,
                upstream,
                limits: cfg.limits,
                rate: RateLimits::from_config(cfg),
                token_count: cfg.tokens.len(),
            },
        )
    }
}

/// A proxy that is running.
pub struct AppState {
    /// Read on every request; replaced wholesale on reload.
    live: Live,
    pub metrics: Metrics,
    /// Where to re-read on reload. `None` when the config came from the
    /// environment alone, in which case there is nothing to re-read.
    pub config_path: Option<String>,
}

/// A running proxy as the contracts speak of it.
pub ghost struct StateView {
    pub live: LiveView,
    pub metrics: MetricsView,
    pub config_path: Option<Seq<char>>,
}

impl View for AppState {
    type V = StateView;

    closed spec fn view(&self) -> StateView {
        StateView {
            live: self.live@,
            metrics: self.metrics@,
            config_path: crate::model::text_option(self.config_path),
        }
    }
}

/// Why a reload came to nothing.
#[derive(Debug)]
pub enum ReloadError {
    /// The configuration came from the environment.
    NothingToReload,
    /// The new configuration is not usable, for this reason.
    Refused(String),
}

impl ReloadError {
    pub open spec fn spec_message(self) -> Seq<char> {
        match self {
            ReloadError::NothingToReload =>
                "no config file to reload — this proxy was configured from the environment"@,
            ReloadError::Refused(_) => "reload rejected, keeping the previous config"@,
        }
    }

    pub fn message(&self) -> (r: String)
        ensures
            r@ == self.spec_message(),
    {
        match self {
            ReloadError::NothingToReload =>
                "no config file to reload — this proxy was configured from the environment".to_owned(),
            ReloadError::Refused(_) => "reload rejected, keeping the previous config".to_owned(),
        }
    }

    /// What lies behind the message, where there is more to say.
    pub fn cause(&self) -> (r: Option<String>)
        ensures
            match self {
                ReloadError::NothingToReload => r is None,
                ReloadError::Refused(why) => r is Some && r->0@ == why@,
            },
    {
        match self {
            ReloadError::NothingToReload => None,
            ReloadError::Refused(why) => Some(why.as_str().to_owned()),
        }
    }
}

impl AppState {
    pub fn new(cfg: &Config) -> (r: Result<Self, BuildError>)
        ensures
            match live_from(*cfg) {
                Ok(live) => r is Ok && r->Ok_0@ == (StateView {
                    live,
                    metrics: MetricsView::blank(),
                    config_path: None,
                }),
                Err(fault) => r is Err && r->Err_0@ == fault,
            },
    {
        AppState::with_path(cfg, None)
    }

    pub fn with_path(cfg: &Config, config_path: Option<String>) -> (r: Result<Self, BuildError>)
        ensures
            match live_from(*cfg) {
                Ok(live) => r is Ok && r->Ok_0@ == (StateView {
                    live,
                    metrics: MetricsView::blank(),
                    config_path: crate::model::text_option(config_path),
                }),
                Err(fault) => r is Err && r->Err_0@ == fault,
            },
    {
        match Live::build(cfg) {
            Ok(live) => Ok(AppState { live, metrics: Metrics::default(), config_path }),
            Err(e) => Err(e),
        }
    }

    pub fn live(&self) -> (r: &Live)
        ensures
            r@ == self@.live,
    {
        &self.live
    }

    /// The running configuration, to spend a budget in.
    pub fn live_mut(&mut self) -> (r: &mut Live)
        ensures
            r@ == old(self)@.live,
            final(self)@ == (StateView { live: final(r)@, ..old(self)@ }),
    {
        &mut self.live
    }

    /// Swaps in what was read of the config file, or says why not.
    ///
    /// A bad config leaves the running configuration untouched: a typo in a
    /// token entry must not be able to take a working proxy down, so the error
    /// is reported and the old `Live` keeps serving.
    pub fn reload(&mut self, loaded: Result<Config, String>) -> (r: Result<usize, ReloadError>)
        ensures
            match r {
                Ok(count) => {
                    &&& old(self)@.config_path is Some
                    &&& loaded is Ok
                    &&& live_from(loaded->Ok_0) is Ok
                    &&& count == loaded->Ok_0.tokens@.len()
                    &&& final(self)@ == (StateView {
                        live: live_from(loaded->Ok_0)->Ok_0,
                        ..old(self)@
                    })
                },
                Err(e) => final(self)@ == old(self)@ && (match e {
                    ReloadError::NothingToReload => old(self)@.config_path is None,
                    ReloadError::Refused(why) => old(self)@.config_path is Some && (match loaded {
                        Err(m) => why@ == m@,
                        Ok(cfg) => live_from(cfg) is Err && why@ == live_from(
                            cfg,
                        )->Err_0.message(),
                    }),
                }),
            },
    {
        if self.config_path.is_none() {
            return Err(ReloadError::NothingToReload);
        }
        let cfg = match loaded {
            Ok(cfg) => cfg,
            Err(m) => return Err(ReloadError::Refused(m)),
        };
        let live = match Live::build(&cfg) {
            Ok(live) => live,
            Err(e) => return Err(ReloadError::Refused(e.message())),
        };
        let count: usize = live.token_count;
        self.live = live;
        Ok(count)
    }
}

// ---------------------------------------------------------------------------
// Callers
// ---------------------------------------------------------------------------

/// An authenticated client, resolved from the request's token.
///
/// A handler that takes a `Caller` cannot be reached anonymously.
pub struct Caller {
    pub token: TokenConfig,
    pub ceilings: Ceilings,
}

/// A caller as the contracts speak of it.
pub ghost struct CallerView {
    pub token: TokenView,
    pub ceilings: Ceilings,
}

impl View for Caller {
    type V = CallerView;

    open spec fn view(&self) -> CallerView {
        CallerView { token: self.token@, ceilings: self.ceilings }
    }
}

/// A refusal, and what the audit log is told of it.
#[derive(Debug)]
pub struct Refusal {
    pub error: ProxyError,
    pub audit: Rejected,
}

/// A refusal as the contracts speak of it.
pub ghost struct RefusalView {
    pub error: ErrorView,
    pub audit: RejectedView,
}

impl View for Refusal {
    type V = RefusalView;

    open spec fn view(&self) -> RefusalView {
        RefusalView { error: self.error@, audit: self.audit@ }
    }
}

impl CallerView {
    /// Why a caller lacks a scope; `None` where it has it.
    pub open spec fn scope_fault(self, scope: Scope) -> Option<ErrorView> {
        if self.token.scopes.contains(scope) {
            None
        } else {
            Some(
                ErrorView::Forbidden(
                    "token '"@ + self.token.name + "' does not carry the "@ + scope.name()
                        + " scope"@,
                ),
            )
        }
    }

    /// Why a caller may not use a site; `None` where it may.
    pub open spec fn site_fault(self, site: Seq<char>) -> Option<ErrorView> {
        if self.token.allows_site(site) {
            None
        } else {
            Some(
                ErrorView::Forbidden(
                    "token '"@ + self.token.name + "' is not allowed to use site '"@ + site
                        + "'"@,
                ),
            )
        }
    }
}

/// What a caller that is over its quota is told.
pub open spec fn over_quota(token: Seq<char>, action: Seq<char>) -> RefusalView {
    RefusalView {
        error: ErrorView::RateLimited,
        audit: crate::audit::rejection_of(token, action, "rate_limited"@, 429),
    }
}

impl Caller {
    pub fn name(&self) -> (r: &str)
        ensures
            r@ == self@.token.name,
    {
        self.token.name.as_str()
    }

    pub fn require_scope(&self, scope: Scope) -> (r: Result<(), ProxyError>)
        ensures
            match r {
                Ok(_) => self@.scope_fault(scope) is None,
                Err(e) => self@.scope_fault(scope) == Some(e@),
            },
    {
        if self.token.has_scope(scope) {
            Ok(())
        } else {
            let mut m = "token '".to_owned();
            m.append(self.token.name.as_str());
            m.append("' does not carry the ");
            m.append(scope.as_str());
            m.append(" scope");
            Err(ProxyError::Forbidden(m))
        }
    }

    pub fn require_site(&self, site: &str) -> (r: Result<(), ProxyError>)
        ensures
            match r {
                Ok(_) => self@.site_fault(site@) is None,
                Err(e) => self@.site_fault(site@) == Some(e@),
            },
    {
        if self.token.allows_site(site) {
            Ok(())
        } else {
            let mut m = "token '".to_owned();
            m.append(self.token.name.as_str());
            m.append("' is not allowed to use site '");
            m.append(site);
            m.append("'");
            Err(ProxyError::Forbidden(m))
        }
    }

    /// Spends one unit of the caller's quota.
    ///
    /// Charged per *upstream call* rather than per HTTP request, because a
    /// single GraphQL document can ask for several.
    ///
    /// Spent once the caller is known to be allowed to attempt the operation,
    /// which is deliberately *before* anything parses client-supplied data: the
    /// quota bounds load on the console, but it also has to bound the work a
    /// caller can make the proxy itself do. Scope and site refusals stay free —
    /// they are constant-time lookups, and charging for them would punish a
    /// client for a misconfiguration it cannot see.
    pub fn charge(&self, rate: &mut RateLimits, action: &str) -> (r: Result<(), Refusal>)
        ensures
            old(rate)@.token_spent(final(rate)@, self@.token.name, r is Ok),
            r matches Err(refusal) ==> refusal@ == over_quota(
                self@.token.name,
                action@,
            ),
    {
        if rate.check(&self.token) {
            Ok(())
        } else {
            Err(
                Refusal {
                    error: ProxyError::RateLimited,
                    audit: rejected_token(self.name(), action, "rate_limited", 429),
                },
            )
        }
    }
}

// ---------------------------------------------------------------------------
// Who is calling
// ---------------------------------------------------------------------------

/// What is looked at to tell who is calling.
pub struct RequestParts {
    /// The path of the request.
    pub path: String,
    pub headers: Vec<Header>,
    /// The bytes of the peer's address. Absent where the server was not told it,
    /// in which case there is no key to count against and the limit is skipped
    /// rather than guessed at.
    pub peer: Option<Vec<u8>>,
}

/// The ceilings that apply to a token.
pub open spec fn ceilings_for(t: TokenView, limits: Limits) -> Ceilings {
    Ceilings {
        max_vouchers: t.effective_max_vouchers(limits),
        max_validity_minutes: t.effective_max_validity(limits),
    }
}

impl LiveView {
    /// Who is calling with some headers, or why the request is refused. `ip_ok`
    /// is whether the source still had a budget.
    pub open spec fn verdict(
        self,
        path: Seq<char>,
        headers: Seq<HeaderView>,
        ip_ok: bool,
        now: TimestampView,
    ) -> Result<CallerView, RefusalView> {
        if !ip_ok {
            Err(
                RefusalView {
                    error: ErrorView::RateLimited,
                    audit: crate::audit::rejection(path, "ip_rate_limited"@, 429),
                },
            )
        } else {
            match crate::auth::presented_token(headers) {
                None => Err(
                    RefusalView {
                        error: ErrorView::Unauthorized,
                        audit: crate::audit::rejection(path, "missing_token"@, 401),
                    },
                ),
                Some(presented) => match self.auth.lookup(presented) {
                    None => Err(
                        RefusalView {
                            error: ErrorView::Unauthorized,
                            audit: crate::audit::rejection(path, "unknown_token"@, 401),
                        },
                    ),
                    Some(k) => {
                        let t = self.auth.tokens[k as int];
                        if t.expired_at(now) {
                            Err(
                                RefusalView {
                                    error: ErrorView::TokenExpired(t.expires_at->0.shown()),
                                    audit: crate::audit::rejection_of(
                                        t.name,
                                        path,
                                        "token_expired"@,
                                        401,
                                    ),
                                },
                            )
                        } else {
                            Ok(CallerView { token: t, ceilings: ceilings_for(t, self.limits) })
                        }
                    },
                },
            }
        }
    }

    /// The name that a refused request is logged and counted under: a dash, unless
    /// its token was recognised.
    pub open spec fn counted_as(self, headers: Seq<HeaderView>, ip_ok: bool) -> Seq<char> {
        match crate::auth::presented_token(headers) {
            Some(presented) if ip_ok && self.auth.lookup(presented) is Some =>
                self.auth.tokens[self.auth.lookup(presented)->0 as int].name,
            _ => "-"@,
        }
    }

    /// What is remembered of the tokens after a request.
    pub open spec fn auth_after(self, headers: Seq<HeaderView>, ip_ok: bool) -> AuthView {
        match crate::auth::presented_token(headers) {
            Some(presented) if ip_ok => self.auth.after(presented),
            _ => self.auth,
        }
    }
}

impl StateView {
    /// Whether `after` is this proxy once it has told who is calling, where
    /// `rate` is what became of the budgets.
    pub open spec fn identified(
        self,
        after: StateView,
        path: Seq<char>,
        headers: Seq<HeaderView>,
        ip_ok: bool,
        now: TimestampView,
    ) -> bool {
        &&& after.live == (LiveView {
            auth: self.live.auth_after(headers, ip_ok),
            rate: after.live.rate,
            ..self.live
        })
        &&& after.config_path == self.config_path
        &&& match self.live.verdict(path, headers, ip_ok, now) {
            Ok(_) => after.metrics == self.metrics,
            Err(refusal) => self.metrics.counts_request(
                after.metrics,
                refusal.audit.token,
                crate::routes::path_label(path),
                refusal.audit.outcome,
            ),
        }
    }
}

fn refuse(
    metrics: &mut Metrics,
    token: &str,
    path: &str,
    outcome: &str,
    status: u16,
    error: ProxyError,
) -> (r: Refusal)
    ensures
        old(metrics)@.counts_request(
            final(metrics)@,
            token@,
            crate::routes::path_label(path@),
            outcome@,
        ),
        r@ == (RefusalView {
            error: error@,
            audit: crate::audit::rejection_of(token@, path@, outcome@, status),
        }),
{
    metrics.record_request(token, crate::routes::label_of(path).as_str(), outcome);
    Refusal { error, audit: rejected_token(token, path, outcome, status) }
}

impl LiveView {
    /// What the token that some headers present has to be checked against.
    pub open spec fn challenge(self, headers: Seq<HeaderView>) -> ChallengeView {
        match crate::auth::presented_token(headers) {
            Some(presented) => self.auth.challenge(presented),
            None => ChallengeView { presented: seq![], hashes: seq![] },
        }
    }
}

/// What charging the source of a request may come to, where `ip_ok` is whether it
/// still had a budget. A request without a known source always has.
pub open spec fn source_charged(
    before: StateView,
    after: StateView,
    peer: Option<Seq<u8>>,
    ip_ok: bool,
) -> bool {
    &&& match peer {
        Some(ip) => before.live.rate.ip_spent(after.live.rate, ip, ip_ok),
        None => ip_ok && after.live.rate == before.live.rate,
    }
    &&& after == (StateView {
        live: LiveView { rate: after.live.rate, ..before.live },
        ..before
    })
}

impl AppState {
    /// Charges the source of a request, before its token is even read.
    pub fn charge_source(&mut self, parts: &RequestParts) -> (r: bool)
        ensures
            source_charged(old(self)@, final(self)@, peer_view(parts.peer), r),
    {
        match &parts.peer {
            Some(ip) => self.live.rate.check_ip(ip),
            None => true,
        }
    }

    /// What the token that a request presents has to be checked against.
    pub fn challenge(&self, parts: &RequestParts) -> (r: Challenge)
        ensures
            r@ == self@.live.challenge(crate::auth::header_views(parts.headers@)),
    {
        match token_from_headers(&parts.headers) {
            Some(presented) => self.live.auth.challenge(presented.as_str()),
            None => {
                proof {
                    reveal_strlit("");
                    assert(""@ =~= seq![]);
                }
                Challenge::idle("")
            },
        }
    }
}

impl Caller {
    /// Tells who is calling, given whether the source still had a budget, and what
    /// is known already of the token that it presents.
    pub fn identify(
        parts: &RequestParts,
        state: &mut AppState,
        ip_ok: bool,
        known: &Verdicts,
        now: &Timestamp,
    ) -> (r: Result<Caller, Refusal>)
        ensures
            match old(state)@.live.verdict(
                parts.path@,
                crate::auth::header_views(parts.headers@),
                ip_ok,
                now@,
            ) {
                Ok(caller) => r is Ok && r->Ok_0@ == caller,
                Err(refusal) => r is Err && r->Err_0@ == refusal,
            },
            old(state)@.identified(
                final(state)@,
                parts.path@,
                crate::auth::header_views(parts.headers@),
                ip_ok,
                now@,
            ),
            final(state)@.live.rate == old(state)@.live.rate,
    {
        let path = parts.path.as_str();
        if !ip_ok {
            return Err(
                refuse(
                    &mut state.metrics,
                    "-",
                    path,
                    "ip_rate_limited",
                    429,
                    ProxyError::RateLimited,
                ),
            );
        }
        let presented = match token_from_headers(&parts.headers) {
            Some(presented) => presented,
            None => return Err(
                refuse(
                    &mut state.metrics,
                    "-",
                    path,
                    "missing_token",
                    401,
                    ProxyError::Unauthorized,
                ),
            ),
        };
        let token = match state.live.auth.authenticate_with(presented.as_str(), known) {
            Some(token) => token,
            None => return Err(
                refuse(
                    &mut state.metrics,
                    "-",
                    path,
                    "unknown_token",
                    401,
                    ProxyError::Unauthorized,
                ),
            ),
        };
        // Checked per request, so a token stops working the moment it lapses
        // rather than at the next restart.
        if let Some(expiry) = &token.expires_at {
            if token.is_expired_at(now) {
                return Err(
                    refuse(
                        &mut state.metrics,
                        token.name.as_str(),
                        path,
                        "token_expired",
                        401,
                        ProxyError::TokenExpired(expiry.show()),
                    ),
                );
            }
        }
        let ceilings = Ceilings {
            max_vouchers: token.effective_max_vouchers(&state.live.limits),
            max_validity_minutes: token.effective_max_validity(&state.live.limits),
        };
        Ok(Caller { token, ceilings })
    }

    /// Tells who is calling.
    ///
    /// The source is charged before the token is even read. Verifying a wrong
    /// token runs Argon2 against every configured hash and is deliberately never
    /// cached, so without this an unauthenticated caller decides how much CPU
    /// this machine spends.
    pub fn from_request_parts(
        parts: &RequestParts,
        state: &mut AppState,
        now: &Timestamp,
    ) -> (r: Result<Caller, Refusal>)
        ensures
            exists|ip_ok: bool|
                resolved(
                    old(state)@,
                    final(state)@,
                    parts.path@,
                    crate::auth::header_views(parts.headers@),
                    peer_view(parts.peer),
                    now@,
                    ip_ok,
                    caller_view(r),
                ),
    {
        let ip_ok = state.charge_source(parts);
        let r = Caller::identify(parts, state, ip_ok, &Verdicts::none(), now);
        assert(resolved(
            old(state)@,
            state@,
            parts.path@,
            crate::auth::header_views(parts.headers@),
            peer_view(parts.peer),
            now@,
            ip_ok,
            caller_view(r),
        ));
        r
    }
}

/// An optional peer address, taken by its view.
pub open spec fn peer_view(peer: Option<Vec<u8>>) -> Option<Seq<u8>> {
    match peer {
        Some(ip) => Some(ip@),
        None => None,
    }
}

/// A caller or a refusal, each taken by its view.
pub open spec fn caller_view(r: Result<Caller, Refusal>) -> Result<CallerView, RefusalView> {
    match r {
        Ok(caller) => Ok(caller@),
        Err(refusal) => Err(refusal@),
    }
}

/// What telling who is calling may come to, where `ip_ok` is whether the source
/// still had a budget. A request without a known source always has.
pub open spec fn resolved(
    before: StateView,
    after: StateView,
    path: Seq<char>,
    headers: Seq<HeaderView>,
    peer: Option<Seq<u8>>,
    now: TimestampView,
    ip_ok: bool,
    outcome: Result<CallerView, RefusalView>,
) -> bool {
    &&& match peer {
        Some(ip) => before.live.rate.ip_spent(after.live.rate, ip, ip_ok),
        None => ip_ok && after.live.rate == before.live.rate,
    }
    &&& outcome == before.live.verdict(path, headers, ip_ok, now)
    &&& before.identified(after, path, headers, ip_ok, now)
}

// ---------------------------------------------------------------------------
// What holds of callers
// ---------------------------------------------------------------------------

/// Nobody becomes a caller without a token: a request is let in only where it
/// presents one that is known and has not lapsed, and the caller is held to that
/// token's own ceilings, which are never above the global ones.
pub proof fn no_caller_is_anonymous(
    live: LiveView,
    path: Seq<char>,
    headers: Seq<HeaderView>,
    ip_ok: bool,
    now: TimestampView,
)
    requires
        live.verdict(path, headers, ip_ok, now) is Ok,
    ensures
        ip_ok,
        crate::auth::presented_token(headers) is Some,
        ({
            let caller = live.verdict(path, headers, ip_ok, now)->Ok_0;
            let k = live.auth.lookup(crate::auth::presented_token(headers)->0);
            &&& k is Some
            &&& caller.token == live.auth.tokens[k->0 as int]
            &&& !caller.token.expired_at(now)
            &&& caller.ceilings.max_vouchers <= live.limits.max_vouchers_per_request
            &&& caller.ceilings.max_validity_minutes <= live.limits.max_validity_minutes
        }),
{
}

/// A source that is over its budget is turned away before any token is looked
/// at: the answer does not depend on what it presents, and nothing is verified
/// or remembered for it.
pub proof fn a_flood_is_cut_off_before_any_token_is_read(
    live: LiveView,
    path: Seq<char>,
    a: Seq<HeaderView>,
    b: Seq<HeaderView>,
    now: TimestampView,
)
    ensures
        live.verdict(path, a, false, now) == live.verdict(path, b, false, now),
        live.auth_after(a, false) == live.auth,
{
}

/// A token that has lapsed is refused at every later instant too.
pub proof fn a_lapsed_token_is_refused_for_good(
    live: LiveView,
    path: Seq<char>,
    headers: Seq<HeaderView>,
    now: TimestampView,
    later: TimestampView,
)
    requires
        now.instant() <= later.instant(),
        live.verdict(path, headers, true, now) matches Err(refusal) && refusal.error
            is TokenExpired,
    ensures
        live.verdict(path, headers, true, later) == live.verdict(path, headers, true, now),
{
}

/// The audit log never holds what a refused request presented: its entry holds the
/// name of the token that was recognised, or a dash, and two requests for one path
/// that are refused for one reason under one name leave the same entry.
pub proof fn the_audit_log_holds_no_presented_token(
    live: LiveView,
    path: Seq<char>,
    a: Seq<HeaderView>,
    b: Seq<HeaderView>,
    ip_ok: bool,
    now: TimestampView,
)
    requires
        live.verdict(path, a, ip_ok, now) is Err,
        live.verdict(path, b, ip_ok, now) is Err,
        live.verdict(path, a, ip_ok, now)->Err_0.audit.outcome == live.verdict(
            path,
            b,
            ip_ok,
            now,
        )->Err_0.audit.outcome,
        live.counted_as(a, ip_ok) == live.counted_as(b, ip_ok),
    ensures
        live.verdict(path, a, ip_ok, now)->Err_0.audit.token == live.counted_as(a, ip_ok),
        live.verdict(path, a, ip_ok, now)->Err_0.audit == live.verdict(
            path,
            b,
            ip_ok,
            now,
        )->Err_0.audit,
{
}

/// What a refused request is counted under is bounded: a dash or the name of a
/// token in the configuration, one of the fixed labels for a path, and one of four
/// reasons. Nothing that the request itself chose is among them.
pub proof fn refusals_are_counted_under_bounded_labels(
    live: LiveView,
    path: Seq<char>,
    headers: Seq<HeaderView>,
    ip_ok: bool,
    now: TimestampView,
)
    requires
        live.auth.sound(),
        live.verdict(path, headers, ip_ok, now) is Err,
    ensures
        ({
            let entry = live.verdict(path, headers, ip_ok, now)->Err_0.audit;
            &&& entry.token == "-"@ || exists|k: int|
                0 <= k < live.auth.tokens.len() && (#[trigger] live.auth.tokens[k]).name
                    == entry.token
            &&& crate::routes::path_labels().contains(crate::routes::path_label(path))
            &&& entry.outcome == "ip_rate_limited"@ || entry.outcome == "missing_token"@
                || entry.outcome == "unknown_token"@ || entry.outcome == "token_expired"@
        }),
{
    crate::routes::a_path_is_counted_under_a_fixed_label(path);
    if let Some(presented) = crate::auth::presented_token(headers) {
        crate::auth::lemma_lookup_is_in_range(live.auth, presented);
    }
}

/// A caller lacks a scope exactly where its token does not list it, and may not use a
/// site exactly where its token lists neither that site nor the wildcard. It is told
/// so, with its own name and what it asked for.
pub proof fn a_caller_is_held_to_its_scopes_and_sites(
    caller: CallerView,
    scope: Scope,
    site: Seq<char>,
)
    ensures
        caller.scope_fault(scope) is None <==> caller.token.scopes.contains(scope),
        caller.site_fault(site) is None <==> caller.token.sites.contains("*"@)
            || caller.token.sites.contains(site),
        caller.scope_fault(scope) matches Some(e) ==> e.status() == 403 && e.message()
            == "token '"@ + caller.token.name + "' does not carry the "@ + scope.name()
            + " scope"@,
        caller.site_fault(site) matches Some(e) ==> e.status() == 403 && e.message() == "token '"@
            + caller.token.name + "' is not allowed to use site '"@ + site + "'"@,
{
    crate::config::a_token_opens_the_sites_it_lists(caller.token, site);
}

/// A request of a source within its budget, with a token that is recognised and has
/// not reached its deadline, has that token's caller, held to the lesser of the
/// token's ceilings and the global ones.
pub proof fn a_recognised_token_is_let_in(
    live: LiveView,
    path: Seq<char>,
    headers: Seq<HeaderView>,
    now: TimestampView,
)
    requires
        crate::auth::presented_token(headers) is Some,
        live.auth.lookup(crate::auth::presented_token(headers)->0) is Some,
        ({
            let t = live.auth.tokens[live.auth.lookup(
                crate::auth::presented_token(headers)->0,
            )->0 as int];
            t.expires_at is None || now.instant() < t.expires_at->0.instant()
        }),
    ensures
        ({
            let t = live.auth.tokens[live.auth.lookup(
                crate::auth::presented_token(headers)->0,
            )->0 as int];
            let verdict = live.verdict(path, headers, true, now);
            &&& verdict is Ok
            &&& verdict->Ok_0.token == t
            &&& crate::config::is_lesser(
                verdict->Ok_0.ceilings.max_vouchers as nat,
                crate::config::own_limit(t.max_vouchers_per_request),
                live.limits.max_vouchers_per_request as nat,
            )
            &&& verdict->Ok_0.ceilings.max_validity_minutes <= live.limits.max_validity_minutes
            &&& t.max_validity_minutes is Some ==> verdict->Ok_0.ceilings.max_validity_minutes
                <= t.max_validity_minutes->0
            &&& verdict->Ok_0.ceilings.max_validity_minutes == live.limits.max_validity_minutes
                || t.max_validity_minutes == Some(verdict->Ok_0.ceilings.max_validity_minutes)
        }),
{
}

/// A request that is not let in is told why and logged for it: a source over its
/// budget, a missing token, one that is not known, and one that has lapsed. Only the
/// last is logged under a name.
pub proof fn a_refused_request_has_its_reason(
    live: LiveView,
    path: Seq<char>,
    headers: Seq<HeaderView>,
    now: TimestampView,
)
    ensures
        ({
            let r = live.verdict(path, headers, false, now);
            r is Err && r->Err_0.error.status() == 429 && r->Err_0.audit.outcome
                == "ip_rate_limited"@ && r->Err_0.audit.status == 429 && r->Err_0.audit.token
                == "-"@ && r->Err_0.audit.action == path
        }),
        crate::auth::presented_token(headers) is None ==> {
            let r = live.verdict(path, headers, true, now);
            r is Err && r->Err_0.error == ErrorView::Unauthorized && r->Err_0.audit.outcome
                == "missing_token"@ && r->Err_0.audit.status == 401 && r->Err_0.audit.token
                == "-"@ && r->Err_0.audit.action == path
        },
        crate::auth::presented_token(headers) matches Some(p) ==> {
            let r = live.verdict(path, headers, true, now);
            &&& live.auth.lookup(p) is None ==> r is Err && r->Err_0.error
                == ErrorView::Unauthorized && r->Err_0.audit.outcome == "unknown_token"@
                && r->Err_0.audit.status == 401 && r->Err_0.audit.token == "-"@
                && r->Err_0.audit.action == path
            &&& live.auth.lookup(p) is Some && {
                let t = live.auth.tokens[live.auth.lookup(p)->0 as int];
                t.expires_at is Some && t.expires_at->0.instant() <= now.instant()
            } ==> {
                let t = live.auth.tokens[live.auth.lookup(p)->0 as int];
                r is Err && r->Err_0.error == ErrorView::TokenExpired(t.expires_at->0.shown())
                    && r->Err_0.audit.outcome == "token_expired"@ && r->Err_0.audit.status == 401
                    && r->Err_0.audit.token == t.name && r->Err_0.audit.action == path
            }
        },
{
}

/// What is put to work is what was configured: the tokens in their order, with
/// nothing remembered yet, the limits, the controller's root and key, and budgets of
/// which nothing is spent.
pub proof fn what_is_put_to_work_is_what_was_configured(cfg: Config)
    requires
        live_from(cfg) is Ok,
    ensures
        ({
            let live = live_from(cfg)->Ok_0;
            &&& live.auth.tokens.len() == cfg.tokens@.len()
            &&& forall|i: int|
                0 <= i < cfg.tokens@.len() ==> #[trigger] live.auth.tokens[i] == cfg.tokens@[i]@
            &&& live.auth.cache.len() == 0
            &&& live.limits == cfg.limits
            &&& live.token_count == cfg.tokens@.len()
            &&& live.upstream.api_key == cfg.controller.api_key@
            &&& live.upstream.base == crate::upstream::host_url(cfg.controller.host@)
                + "/proxy/network/integration/v1"@
            &&& live.rate.sweep == 0
            &&& live.rate.tokens == crate::ratelimit::starting_budgets(
                crate::config::token_views(cfg.tokens@),
                cfg.limits,
            )
            &&& live.rate.per_ip == crate::ratelimit::starting_ip_budgets(cfg.limits)
            &&& forall|i: int|
                0 <= i < cfg.tokens@.len() ==> crate::crypto::phc_error(
                    (#[trigger] cfg.tokens@[i]).hash@,
                ) is None
        }),
{
    let tokens = crate::config::token_views(cfg.tokens@);
    crate::auth::lemma_hashes_are_readable(tokens);
    assert forall|i: int| 0 <= i < cfg.tokens@.len() implies crate::crypto::phc_error(
        (#[trigger] cfg.tokens@[i]).hash@,
    ) is None by {
        assert(tokens[i] == cfg.tokens@[i]@);
    }
}

/// A request that is refused is counted once, under the name and the reason that the
/// audit log has for it and under the label of its path; one that is let in is not
/// counted yet. Nothing else changes but what is remembered of the tokens, and the
/// budgets.
pub proof fn a_refused_request_is_counted_once(
    before: StateView,
    after: StateView,
    path: Seq<char>,
    headers: Seq<HeaderView>,
    ip_ok: bool,
    now: TimestampView,
)
    requires
        before.identified(after, path, headers, ip_ok, now),
    ensures
        live_rest_is_kept(before.live, after.live),
        after.config_path == before.config_path,
        before.live.verdict(path, headers, ip_ok, now) is Ok ==> after.metrics == before.metrics,
        before.live.verdict(path, headers, ip_ok, now) matches Err(refusal) ==> {
            let key = seq![
                refusal.audit.token,
                crate::routes::path_label(path),
                refusal.audit.outcome,
            ];
            let count = crate::tally::count_of(before.metrics.requests, key);
            &&& count < u64::MAX ==> crate::tally::count_of(after.metrics.requests, key) == count
                + 1
            &&& forall|other: Seq<Seq<char>>|
                other != key ==> #[trigger] crate::tally::count_of(after.metrics.requests, other)
                    == crate::tally::count_of(before.metrics.requests, other)
            &&& after.metrics.vouchers_created == before.metrics.vouchers_created
            &&& after.metrics.upstream_calls == before.metrics.upstream_calls
            &&& after.metrics.reloads == before.metrics.reloads
        },
{
}

/// Whether the tokens, the limits and the controller stayed as they were.
pub open spec fn live_rest_is_kept(before: LiveView, after: LiveView) -> bool {
    &&& after.auth.tokens == before.auth.tokens
    &&& after.limits == before.limits
    &&& after.upstream == before.upstream
    &&& after.token_count == before.token_count
}

/// A configuration is put to work exactly where every hash can be read and the
/// certificate can be checked as asked.
pub proof fn a_config_is_put_to_work_where_it_can_be(cfg: Config)
    ensures
        live_from(cfg) is Ok <==> crate::tls::mode_of(cfg.controller.tls) is Ok && forall|i: int|
            0 <= i < cfg.tokens@.len() ==> crate::crypto::phc_error(
                (#[trigger] cfg.tokens@[i]).hash@,
            ) is None,
{
    let tokens = crate::config::token_views(cfg.tokens@);
    if live_from(cfg) is Ok {
        what_is_put_to_work_is_what_was_configured(cfg);
    }
    if forall|i: int|
        0 <= i < cfg.tokens@.len() ==> crate::crypto::phc_error(
            (#[trigger] cfg.tokens@[i]).hash@,
        ) is None {
        assert forall|i: int| 0 <= i < tokens.len() implies crate::crypto::phc_error(
            (#[trigger] tokens[i]).hash,
        ) is None by {
            assert(tokens[i] == cfg.tokens@[i]@);
        }
        crate::auth::lemma_readable_hashes_have_no_fault(tokens);
    }
}

} // verus!
