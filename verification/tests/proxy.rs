//! Requests from end to end, against a controller that answers as told.
//!
//! These are the tests that matter for the project's premise: that a client
//! holding a proxy token cannot reach anything on the controller except the
//! voucher operations it was granted, and that the real API key never leaves
//! the proxy.

use unifi_voucher_proxy::audit::AuditEvent;
use unifi_voucher_proxy::auth::{self, Header, Verdicts};
use unifi_voucher_proxy::config::{
    Config, ControllerConfig, Limits, Scope, ServerConfig, TlsConfig, TokenConfig,
};
use unifi_voucher_proxy::json::{Json, JsonNumber};
use unifi_voucher_proxy::moment::Timestamp;
use unifi_voucher_proxy::secret::Secret;
use unifi_voucher_proxy::service::{
    begin, complete, create, let_in, proceed, Answer, Body, Request, Step,
};
use unifi_voucher_proxy::state::{AppState, RequestParts};
use unifi_voucher_proxy::upstream::{Method, Reply};

const UPSTREAM_KEY: &str = "REAL-UNIFI-API-KEY-DO-NOT-LEAK";
const API: &str = "/proxy/network/integration/v1";
const NOW: i128 = 1_800_000_000_000_000_000;

/// One call that reached the controller.
struct Call {
    method: Method,
    url: String,
    key: String,
    body: Option<String>,
}

struct Harness {
    state: AppState,
    token: String,
    /// What the controller answers.
    reply: (u16, String),
    calls: Vec<Call>,
    peer: Option<Vec<u8>>,
    now: i128,
    playground: bool,
}

/// What a client gets.
struct Got {
    status: u16,
    text: String,
    audit: Option<AuditEvent>,
}

fn config(build: impl FnOnce(&mut TokenConfig), per_ip: u32) -> (Config, String) {
    let (token, hash) = auth::generate_token().unwrap();
    let mut token_cfg = TokenConfig {
        name: "test-client".into(),
        hash,
        sites: vec!["*".into()],
        scopes: vec![
            Scope::SitesRead,
            Scope::VouchersRead,
            Scope::VouchersCreate,
            Scope::VouchersRevoke,
        ],
        max_vouchers_per_request: None,
        max_validity_minutes: None,
        rate_limit_per_minute: Some(0),
        expires_at: None,
    };
    build(&mut token_cfg);
    let cfg = Config {
        server: ServerConfig::default(),
        controller: ControllerConfig {
            host: "https://controller".into(),
            api_key: Secret::new(UPSTREAM_KEY),
            tls: TlsConfig::default(),
        },
        limits: Limits {
            max_vouchers_per_request: 10,
            max_validity_minutes: 1440,
            rate_limit_per_minute: 0,
            rate_limit_per_ip_per_minute: per_ip,
        },
        tokens: vec![token_cfg],
    };
    (cfg, token)
}

fn harness_with(build: impl FnOnce(&mut TokenConfig), per_ip: u32) -> Harness {
    let (cfg, token) = config(build, per_ip);
    let state = match AppState::new(&cfg) {
        Ok(state) => state,
        Err(e) => panic!("{}", e.message()),
    };
    Harness {
        state,
        token,
        reply: (200, String::new()),
        calls: Vec::new(),
        peer: None,
        now: NOW,
        playground: false,
    }
}

fn harness(build: impl FnOnce(&mut TokenConfig)) -> Harness {
    harness_with(build, 0)
}

fn default_harness() -> Harness {
    harness(|_| {})
}

impl Harness {
    fn answers(&mut self, status: u16, text: &str) {
        self.reply = (status, text.to_string());
    }

    fn head(&self, method: &str, path: &str, header: Option<(&str, &str)>) -> Request {
        Request {
            method: method.into(),
            parts: RequestParts {
                path: path.into(),
                headers: header
                    .into_iter()
                    .map(|(name, value)| Header {
                        name: name.into(),
                        value: value.as_bytes().to_vec(),
                    })
                    .collect(),
                peer: self.peer.clone(),
            },
        }
    }

    fn request(&mut self, method: &str, path: &str, header: Option<(&str, &str)>, body: &str) -> Got {
        let request = self.head(method, path, header);
        let now = Timestamp::new(self.now, 0).unwrap();
        let mut step = begin(&mut self.state, &request, self.playground, "1.2.3", &now);
        if let Step::ReadBody(creation) = step {
            let body = Json::from_text(body).unwrap();
            step = create(&self.state, creation, &body);
        }
        match step {
            Step::Answer(answer) => got(answer),
            Step::Operate(pending) => {
                let reply = pending.op.call.as_ref().ok().map(|call| {
                    self.calls.push(Call {
                        method: call.method(),
                        url: call.url().to_string(),
                        key: call.api_key().expose().to_string(),
                        body: call.body().map(|b| b.to_text()),
                    });
                    Reply::Answered {
                        status: self.reply.0,
                        text: self.reply.1.clone(),
                    }
                });
                got(complete(pending, reply, 5_000_000).0)
            }
            Step::Graphql(_) => Got { status: 200, text: "graphql".into(), audit: None },
            Step::GraphqlSchema => Got { status: 200, text: "schema".into(), audit: None },
            Step::Playground => Got { status: 200, text: "graphiql".into(), audit: None },
            Step::ReadBody(_) => panic!("the body was read"),
        }
    }

    /// A request with the harness's own token.
    fn send(&mut self, method: &str, path: &str, body: &str) -> Got {
        let token = self.token.clone();
        self.request(method, path, Some(("x-api-key", token.as_str())), body)
    }

    fn get(&mut self, path: &str) -> Got {
        self.send("GET", path, "")
    }
}

fn got(answer: Answer) -> Got {
    Got {
        status: answer.status,
        text: match answer.body {
            Body::Json(v) => v.to_text(),
            Body::Text(s) => s,
        },
        audit: answer.audit,
    }
}

fn at_now() -> Timestamp {
    Timestamp::new(NOW, 0).unwrap()
}

/// The entry that a refusal left in the audit log: token, action, outcome, status.
fn entry(got: &Got) -> (&str, &str, &str, u16) {
    match &got.audit {
        Some(AuditEvent::Rejected(entry)) => (
            entry.token.as_str(),
            entry.action.as_str(),
            entry.outcome.as_str(),
            entry.status,
        ),
        other => panic!("{other:?}"),
    }
}

fn integer(text: &str, field: &str) -> u64 {
    match Json::from_text(text).unwrap().get(field) {
        Some(Json::Number(JsonNumber::Unsigned(n))) => *n,
        other => panic!("{other:?}"),
    }
}

// --- the allowlist ---------------------------------------------------------

#[test]
fn refuses_every_path_it_does_not_explicitly_serve() {
    let mut h = default_harness();

    // A representative slice of what a full-control key could otherwise reach.
    let blocked = [
        "/proxy/network/integration/v1/sites/default/devices",
        "/proxy/network/integration/v1/sites/default/clients",
        "/proxy/network/integration/v1/sites/default/firewall/rules",
        "/proxy/network/api/s/default/rest/wlanconf",
        "/api/self",
        "/api/auth/login",
        "/proxy/network/integration/v1",
        "/",
        "/healthz/",
        "/proxy/network/integration/v1/sites/",
        "/proxy/network/integration/v1/sites//hotspot/vouchers",
        "/proxy/network/integration/v1/sites/default/hotspot/vouchers/",
        "/proxy/network/integration/v1/sites/default/hotspot/vouchers/a/b",
        "//proxy/info",
        "",
    ];

    for p in blocked {
        let res = h.get(p);
        assert_eq!(res.status, 403, "{p} should have been refused, got {}", res.status);
        assert_eq!(
            res.text,
            r#"{"message":"this proxy only forwards hotspot voucher operations"}"#
        );
        match res.audit {
            Some(AuditEvent::Rejected(entry)) => {
                assert_eq!(entry.action, p);
                assert_eq!(entry.outcome, "blocked_GET");
                assert_eq!(entry.status, 403);
            }
            other => panic!("{other:?}"),
        }
    }

    // Nothing reached the controller at all.
    assert!(h.calls.is_empty(), "blocked paths must not produce upstream traffic");
}

#[test]
fn refuses_write_verbs_on_allowed_read_paths() {
    let mut h = default_harness();
    for method in ["PUT", "DELETE", "POST", "PATCH", "OPTIONS"] {
        assert_eq!(h.send(method, &format!("{API}/sites"), "").status, 403);
        assert_eq!(h.send(method, "/healthz", "").status, 403);
    }
    assert_eq!(h.send("GET", &format!("{API}/sites/s/hotspot/vouchers/v"), "").status, 403);
    assert_eq!(h.send("DELETE", &format!("{API}/sites/s/hotspot/vouchers"), "").status, 403);
    assert!(h.calls.is_empty());
}

// --- authentication --------------------------------------------------------

#[test]
fn rejects_missing_and_wrong_tokens() {
    let mut h = default_harness();
    let sites = format!("{API}/sites");

    let anon = h.request("GET", &sites, None, "");
    assert_eq!(anon.status, 401);

    let wrong = h.request("GET", &sites, Some(("x-api-key", "uvp_definitely-not-valid")), "");
    assert_eq!(wrong.status, 401);
    match wrong.audit {
        Some(AuditEvent::Rejected(entry)) => assert_eq!(entry.outcome, "unknown_token"),
        other => panic!("{other:?}"),
    }

    // Notably: presenting the controller's real key to the proxy is not a way in.
    let upstream_key = h.request("GET", &sites, Some(("x-api-key", UPSTREAM_KEY)), "");
    assert_eq!(upstream_key.status, 401);

    assert!(h.calls.is_empty());
    let page = h.state.metrics.render("v", 1);
    assert!(page.contains(&format!(
        "uvp_requests_total{{token=\"-\",action=\"{sites}\",outcome=\"unknown_token\"}} 2"
    )));
    assert!(page.contains("outcome=\"missing_token\"} 1"));
}

#[test]
fn healthz_needs_no_token_and_says_nothing_useful() {
    let mut h = default_harness();
    let res = h.request("GET", "/healthz", None, "");
    assert_eq!(res.status, 200);
    assert_eq!(res.text, r#"{"service":"unifi-voucher-proxy","status":"ok"}"#);
    assert!(!res.text.contains(UPSTREAM_KEY));
    assert_eq!(h.request("HEAD", "/healthz", None, "").status, 200);
}

// --- the key stays home ----------------------------------------------------

#[test]
fn forwards_the_real_key_upstream_and_never_back_to_the_client() {
    let mut h = default_harness();
    h.answers(200, r#"{"data": [{"id": "default", "name": "Default"}]}"#);

    let res = h.get(&format!("{API}/sites"));
    assert_eq!(res.status, 200);
    assert_eq!(h.calls.len(), 1);
    assert!(h.calls[0].method == Method::Get);
    assert_eq!(h.calls[0].url, format!("https://controller{API}/sites"));
    assert_eq!(h.calls[0].key, UPSTREAM_KEY);

    assert!(res.text.contains("default"));
    assert!(
        !res.text.contains(UPSTREAM_KEY),
        "the controller key must never appear in a client response"
    );
    assert!(
        !res.text.contains(&h.token),
        "the client token must not be echoed either"
    );
    match res.audit {
        Some(AuditEvent::Request(line)) => {
            assert_eq!(line.token, "test-client");
            assert_eq!(line.action, "sites:list");
            assert_eq!(line.outcome, "ok");
            assert_eq!(line.status, 200);
            assert_eq!(line.elapsed_ms, 5);
        }
        other => panic!("{other:?}"),
    }
}

// --- scopes ----------------------------------------------------------------

#[test]
fn a_read_only_token_cannot_create_or_revoke() {
    let mut h = harness(|t| t.scopes = vec![Scope::SitesRead, Scope::VouchersRead]);

    let made = h.send(
        "POST",
        &format!("{API}/sites/default/hotspot/vouchers"),
        r#"{"name": "Guest", "count": 1, "timeLimitMinutes": 60}"#,
    );
    assert_eq!(made.status, 403);
    assert!(made.text.contains("vouchers:create"));

    let revoke = h.send("DELETE", &format!("{API}/sites/default/hotspot/vouchers/abc123"), "");
    assert_eq!(revoke.status, 403);

    assert!(h.calls.is_empty());
}

// --- site scoping ----------------------------------------------------------

#[test]
fn a_site_scoped_token_cannot_touch_another_site() {
    let mut h = harness(|t| t.sites = vec!["guest-site".into()]);
    let res = h.get(&format!("{API}/sites/corporate/hotspot/vouchers"));
    assert_eq!(res.status, 403);
    assert_eq!(
        res.text,
        r#"{"message":"token 'test-client' is not allowed to use site 'corporate'"}"#
    );
    assert!(h.calls.is_empty());
}

#[test]
fn a_site_scoped_token_is_not_told_the_other_sites_exist() {
    let mut h = harness(|t| t.sites = vec!["guest-site".into()]);
    h.answers(
        200,
        r#"{"data": [
            {"id": "guest-site", "name": "Guest"},
            {"id": "corporate", "name": "HQ"},
            {"name": "no id"},
            {"id": 7}
        ], "totalCount": 4}"#,
    );
    let res = h.get(&format!("{API}/sites"));
    assert_eq!(res.status, 200);
    assert_eq!(res.text, r#"{"data":[{"id":"guest-site","name":"Guest"}]}"#);
    assert!(!res.text.contains("corporate"));
}

// --- request policy --------------------------------------------------------

#[test]
fn enforces_the_voucher_ceiling_before_calling_the_controller() {
    let mut h = harness(|t| t.max_vouchers_per_request = Some(3));
    let res = h.send(
        "POST",
        &format!("{API}/sites/default/hotspot/vouchers"),
        r#"{"name": "Guest", "count": 100, "timeLimitMinutes": 60}"#,
    );
    assert_eq!(res.status, 403);
    assert!(h.calls.is_empty());
}

#[test]
fn strips_nothing_and_forwards_a_canonical_body() {
    let mut h = default_harness();
    h.answers(200, r#"{"vouchers": [{"id": "v1", "code": "1234567"}]}"#);
    let res = h.send(
        "POST",
        &format!("{API}/sites/default/hotspot/vouchers"),
        r#"{"name": "Guest", "count": 2, "timeLimitMinutes": 480, "authorizedGuestLimit": 1}"#,
    );
    assert_eq!(res.status, 200);
    assert_eq!(h.calls.len(), 1);
    assert!(h.calls[0].method == Method::Post);
    assert_eq!(h.calls[0].url, format!("https://controller{API}/sites/default/hotspot/vouchers"));
    assert_eq!(h.calls[0].key, UPSTREAM_KEY);
    let sent = h.calls[0].body.clone().unwrap();
    assert_eq!(integer(&sent, "count"), 2);
    assert_eq!(integer(&sent, "timeLimitMinutes"), 480);
    assert!(sent.contains(r#""name":"Guest""#));
    match res.audit {
        Some(AuditEvent::Request(line)) => {
            assert_eq!(line.action, "vouchers:create");
            assert_eq!(line.site, "default");
            assert_eq!(line.count, 2);
        }
        other => panic!("{other:?}"),
    }
}

#[test]
fn refuses_bodies_carrying_fields_it_does_not_know() {
    let mut h = default_harness();
    let res = h.send(
        "POST",
        &format!("{API}/sites/default/hotspot/vouchers"),
        r#"{"name": "Guest", "count": 1, "timeLimitMinutes": 60, "note": "smuggled", "adminOverride": true}"#,
    );
    assert_eq!(res.status, 400);
    assert!(h.calls.is_empty());
}

#[test]
fn refuses_ids_that_try_to_leave_the_voucher_namespace() {
    let mut h = default_harness();
    for id in ["..%2f..%2fapi%2fself", "abc%3Flimit%3D1", "a%20b"] {
        let res = h.send("DELETE", &format!("{API}/sites/default/hotspot/vouchers/{id}"), "");
        assert_eq!(res.status, 400, "id {id} should have been refused");
        match res.audit {
            Some(AuditEvent::Request(line)) => {
                assert_eq!(line.action, "vouchers:revoke");
                assert_eq!(line.outcome, "bad_request");
            }
            other => panic!("{other:?}"),
        }
    }
    assert!(h.calls.is_empty());
}

#[test]
fn a_parameter_that_is_no_text_is_refused() {
    let mut h = default_harness();
    let res = h.send("DELETE", &format!("{API}/sites/default/hotspot/vouchers/%ff"), "");
    assert_eq!(res.status, 400);
    assert_eq!(res.text, "Invalid URL: Invalid UTF-8 in `voucher`");
    assert_eq!(entry(&res), ("test-client", "vouchers:revoke", "bad_request", 400));
    let res = h.get(&format!("{API}/sites/%C3%28/hotspot/vouchers"));
    assert_eq!(res.status, 400);
    assert_eq!(res.text, "Invalid URL: Invalid UTF-8 in `site`");
    assert_eq!(entry(&res), ("test-client", "vouchers:list", "bad_request", 400));
    assert!(h.calls.is_empty());
}

// --- rate limiting ---------------------------------------------------------

#[test]
fn stops_a_token_that_exceeds_its_quota() {
    let mut h = harness(|t| t.rate_limit_per_minute = Some(2));
    h.answers(200, r#"{"data": []}"#);
    for _ in 0..2 {
        assert_eq!(h.get(&format!("{API}/sites")).status, 200);
    }
    let blocked = h.get(&format!("{API}/sites"));
    assert_eq!(blocked.status, 429);
    match blocked.audit {
        Some(AuditEvent::Rejected(entry)) => {
            assert_eq!(entry.token, "test-client");
            assert_eq!(entry.action, "sites:list");
            assert_eq!(entry.outcome, "rate_limited");
        }
        other => panic!("{other:?}"),
    }
    assert_eq!(h.calls.len(), 2);
}

// --- upstream behaviour ----------------------------------------------------

#[test]
fn passes_controller_errors_through_without_leaking_detail() {
    let mut h = default_harness();
    h.answers(401, &format!(r#"{{"message": "Unauthorized", "key": "{UPSTREAM_KEY}"}}"#));
    let res = h.get(&format!("{API}/sites/default/hotspot/vouchers"));
    assert_eq!(res.status, 401);
    assert!(
        !res.text.contains(UPSTREAM_KEY),
        "an upstream body must not be relayed verbatim"
    );
}

#[test]
fn info_tells_a_client_exactly_what_it_may_do() {
    let mut h = harness(|t| {
        t.sites = vec!["guest-site".into()];
        t.scopes = vec![Scope::VouchersRead, Scope::VouchersCreate];
        t.max_vouchers_per_request = Some(5);
    });
    let res = h.get("/proxy/info");
    assert_eq!(res.status, 200);
    assert_eq!(
        res.text,
        r#"{"limits":{"maxValidityMinutes":1440,"maxVouchersPerRequest":5},"scopes":["vouchers:read","vouchers:create"],"service":"unifi-voucher-proxy","sites":["guest-site"],"token":"test-client","version":"1.2.3"}"#
    );
}

#[test]
fn a_site_response_in_an_unexpected_shape_is_passed_through_untouched() {
    // Site filtering must not silently swallow a response it cannot interpret:
    // returning an empty list would look like "you have no sites" and send the
    // operator hunting in the wrong place.
    let mut h = harness(|t| t.sites = vec!["guest-site".into()]);
    h.answers(200, r#"{"meta": {"rc": "ok"}}"#);
    let res = h.get(&format!("{API}/sites"));
    assert_eq!(res.status, 200);
    assert_eq!(res.text, r#"{"meta":{"rc":"ok"}}"#);
}

#[test]
fn a_wildcard_token_sees_the_site_list_unfiltered() {
    let mut h = default_harness();
    h.answers(200, r#"{"data": [{"id": "a", "name": "A"}, {"id": "b", "name": "B"}]}"#);
    let res = h.get(&format!("{API}/sites"));
    assert_eq!(res.text, r#"{"data":[{"id":"a","name":"A"},{"id":"b","name":"B"}]}"#);
}

// --- the pre-authentication budget -----------------------------------------

fn ip_limited_harness(per_ip: u32) -> Harness {
    let mut h = harness_with(|_| {}, per_ip);
    h.peer = Some(vec![127, 0, 0, 1]);
    h
}

#[test]
fn a_flood_of_wrong_tokens_is_cut_off_before_it_can_spend_argon2_time() {
    let mut h = ip_limited_harness(3);
    // Verifying a wrong token costs a full Argon2 hash against every configured
    // hash and is deliberately never cached, so this is the expensive path.
    for _ in 0..3 {
        let res = h.request("GET", "/proxy/info", Some(("authorization", "Bearer uvp_wrong")), "");
        assert_eq!(res.status, 401);
    }
    // The fourth never reaches the verifier at all.
    let res = h.request("GET", "/proxy/info", Some(("authorization", "Bearer uvp_wrong")), "");
    assert_eq!(res.status, 429);
    // Nor does a right one.
    assert_eq!(h.get("/proxy/info").status, 429);
    assert!(h.state.metrics.render("v", 1).contains("outcome=\"ip_rate_limited\"} 2"));
}

#[test]
fn the_liveness_probe_survives_that_flood() {
    let mut h = ip_limited_harness(2);
    for _ in 0..5 {
        h.request("GET", "/proxy/info", Some(("authorization", "Bearer uvp_wrong")), "");
    }
    // `/healthz` takes no `Caller`, so an orchestrator does not get taken down
    // with the proxy when someone floods it.
    assert_eq!(h.request("GET", "/healthz", None, "").status, 200);
}

#[test]
fn a_budget_of_zero_means_the_limit_is_off() {
    let mut h = ip_limited_harness(0);
    for _ in 0..8 {
        let res = h.request("GET", "/proxy/info", Some(("authorization", "Bearer uvp_wrong")), "");
        assert_eq!(res.status, 401);
    }
}

// --- tokens that lapse ------------------------------------------------------

#[test]
fn a_token_that_has_lapsed_is_refused() {
    let mut h = harness(|t| t.expires_at = Timestamp::new(NOW - 3_600_000_000_000, 0));
    let bearer = format!("Bearer {}", h.token);
    let res = h.request("GET", "/proxy/info", Some(("authorization", &bearer)), "");
    assert_eq!(res.status, 401);
    // The deadline is told to the caller so a device can say why it stopped
    // working, but nothing else about the configuration leaks.
    assert_eq!(res.text, r#"{"message":"this token expired on 2027-01-15T07:00:00Z"}"#);
    assert!(!res.text.contains(&h.token));
    // It is logged and counted under its own name.
    assert_eq!(entry(&res), ("test-client", "/proxy/info", "token_expired", 401));
    assert!(h
        .state
        .metrics
        .render("v", 1)
        .contains("token=\"test-client\",action=\"/proxy/info\",outcome=\"token_expired\"} 1"));
    h.now = NOW * 2;
    assert_eq!(h.get("/proxy/info").status, 401);
}

#[test]
fn a_token_with_a_deadline_still_ahead_works_normally() {
    let mut h = harness(|t| t.expires_at = Timestamp::new(NOW + 30 * 86_400_000_000_000, 0));
    let bearer = format!("Bearer {}", h.token);
    let res = h.request("GET", "/proxy/info", Some(("authorization", &bearer)), "");
    assert_eq!(res.status, 200);
}

// --- reload -----------------------------------------------------------------

/// A config that loads cleanly, with `count` tokens.
fn config_with(count: usize) -> Config {
    const HASH: &str =
        "$argon2id$v=19$m=19456,t=2,p=1$c29tZXNhbHR2YWx1ZQ$aGFzaHZhbHVlaGVyZWFiY2RlZmdoaWprbG1ub3A";
    let (mut cfg, _) = config(|_| {}, 0);
    let mut template = cfg.tokens.remove(0);
    template.hash = HASH.into();
    for i in 0..count {
        let mut t = template.clone();
        t.name = format!("t{i}");
        cfg.tokens.push(t);
    }
    cfg
}

fn started(cfg: &Config, path: Option<&str>) -> AppState {
    match AppState::with_path(cfg, path.map(|p| p.to_string())) {
        Ok(state) => state,
        Err(e) => panic!("{}", e.message()),
    }
}

#[test]
fn a_reload_picks_up_the_new_config() {
    let mut state = started(&config_with(1), Some("config.toml"));
    assert_eq!(state.live().token_count, 1);
    assert_eq!(state.reload(Ok(config_with(3))).unwrap(), 3);
    assert_eq!(state.live().token_count, 3);
}

#[test]
fn a_broken_config_is_rejected_and_the_running_one_keeps_serving() {
    let mut state = started(&config_with(2), Some("config.toml"));
    assert_eq!(state.live().token_count, 2);

    // A typo in a token entry must not be able to take a working proxy down.
    let err = state.reload(Err("invalid configuration".into())).unwrap_err();
    assert!(err.message().contains("keeping the previous config"));
    assert_eq!(err.cause().unwrap(), "invalid configuration");
    assert_eq!(
        state.live().token_count,
        2,
        "the old configuration must still be serving"
    );

    let mut broken = config_with(3);
    broken.tokens[1].hash = "not-a-hash".into();
    let err = state.reload(Ok(broken)).unwrap_err();
    assert!(err.cause().unwrap().starts_with("token 't1' has an unparsable hash: "));
    let mut broken = config_with(3);
    broken.controller.tls.fingerprint_sha256 = Some(vec!["x".into()]);
    let err = state.reload(Ok(broken)).unwrap_err();
    assert_eq!(err.cause().unwrap(), "controller.tls.fingerprint_sha256 is not usable");
    assert_eq!(state.live().token_count, 2);
}

#[test]
fn there_is_nothing_to_reload_when_the_config_came_from_the_environment() {
    // Built without a path, so a SIGHUP has no file to re-read.
    let mut state = started(&config_with(1), None);
    let err = state.reload(Ok(config_with(2))).unwrap_err();
    assert!(err.message().contains("no config file to reload"));
    assert!(err.cause().is_none());
    assert_eq!(state.live().token_count, 1);
}

// --- what the quota actually bounds -----------------------------------------

#[test]
fn a_rejected_body_still_costs_the_caller_its_quota() {
    // One request per minute, so the first call is the only one that can pass.
    let mut h = harness(|t| t.rate_limit_per_minute = Some(1));
    let path = format!("{API}/sites/default/hotspot/vouchers");

    // Spend it on something the proxy refuses: an unknown property. This never
    // reaches the controller, but it did make the proxy parse and police
    // caller-supplied data, and that is work worth bounding.
    let res = h.send("POST", &path, r#"{"name": "Guest", "timeLimitMinutes": 60, "somethingElse": "nope"}"#);
    assert_eq!(res.status, 400);

    // A well-formed request now finds the budget gone: a client cannot send
    // rejects all day for free.
    let res = h.send("POST", &path, r#"{"name": "Guest", "count": 1, "timeLimitMinutes": 60}"#);
    assert_eq!(res.status, 429);
}

#[test]
fn a_scope_refusal_is_free_because_the_caller_cannot_make_it_expensive() {
    let mut h = harness(|t| {
        t.rate_limit_per_minute = Some(1);
        t.scopes = vec![Scope::SitesRead];
    });
    // No create scope: a constant-time lookup, refused without touching the
    // body. Charging for it would punish a client for a misconfiguration it
    // cannot see.
    for _ in 0..3 {
        let res = h.send(
            "POST",
            &format!("{API}/sites/default/hotspot/vouchers"),
            r#"{"name": "Guest", "count": 1, "timeLimitMinutes": 60}"#,
        );
        assert_eq!(res.status, 403);
    }
    // The budget is untouched, so a call it *is* allowed to make still works.
    assert_eq!(h.get("/proxy/info").status, 200);
    h.answers(200, r#"{"data": []}"#);
    assert_eq!(h.get(&format!("{API}/sites")).status, 200);
}

// --- the rest of the surface -------------------------------------------------

#[test]
fn graphql_needs_a_token_like_everything_else() {
    let mut h = default_harness();
    assert_eq!(h.request("POST", "/graphql", None, "").status, 401);
    assert_eq!(h.request("GET", "/graphql/schema", None, "").status, 401);
    assert_eq!(h.send("POST", "/graphql", "").text, "graphql");
    assert_eq!(h.get("/graphql/schema").text, "schema");
    assert!(h.calls.is_empty());
}

#[test]
fn the_playground_is_off_unless_enabled() {
    let mut h = default_harness();
    assert_eq!(h.get("/graphql").status, 403);
}

#[test]
fn the_playground_is_served_when_it_is_switched_on() {
    let mut h = default_harness();
    h.playground = true;
    let res = h.get("/graphql");
    assert_eq!(res.status, 200);
    assert!(res.text.contains("graphiql"));
}

#[test]
fn an_operation_without_a_reply_is_reported_as_unreachable() {
    let mut h = default_harness();
    let token = h.token.clone();
    let request = Request {
        method: "GET".into(),
        parts: RequestParts {
            path: format!("{API}/sites"),
            headers: vec![Header { name: "x-api-key".into(), value: token.into_bytes() }],
            peer: None,
        },
    };
    let now = at_now();
    match begin(&mut h.state, &request, false, "v", &now) {
        Step::Operate(pending) => {
            let answer = complete(pending, None, 0).0;
            assert_eq!(answer.status, 502);
        }
        _ => panic!("a call is needed"),
    }
}

// --- what the log is told ----------------------------------------------------

#[test]
fn the_audit_log_never_holds_a_presented_token() {
    let mut h = default_harness();
    let path = format!("{API}/sites");
    let entries: Vec<String> = ["uvp_one-wrong-token", "uvp_another-wrong-token"]
        .iter()
        .map(|wrong| {
            let res = h.request("GET", &path, Some(("x-api-key", *wrong)), "");
            assert_eq!(res.status, 401);
            let entry = format!("{:?}", res.audit.unwrap());
            assert!(!entry.contains(wrong));
            entry
        })
        .collect();
    assert_eq!(entries[0], entries[1]);
}

#[test]
fn the_audit_log_never_holds_what_the_controller_answered() {
    let mut h = default_harness();
    let path = format!("{API}/sites/default/hotspot/vouchers");
    let entries: Vec<String> = [
        r#"{"data": [{"id": "v1", "code": "1234567890"}]}"#,
        r#"{"data": []}"#,
    ]
    .iter()
    .map(|answer| {
        h.answers(200, answer);
        let res = h.get(&path);
        assert_eq!(res.status, 200);
        format!("{:?}", res.audit.unwrap())
    })
    .collect();
    assert!(!entries[0].contains("1234567890"));
    assert_eq!(entries[0], entries[1]);
}

#[test]
fn a_refused_creation_is_answered_alike_whatever_the_key() {
    let mut texts = Vec::new();
    for key in ["one-key", "quite-another-key"] {
        let (mut cfg, token) = config(|t| t.max_vouchers_per_request = Some(1), 0);
        cfg.controller.api_key = Secret::new(key);
        let mut h = default_harness();
        h.state = AppState::new(&cfg).ok().unwrap();
        h.token = token;
        let res = h.send(
            "POST",
            &format!("{API}/sites/default/hotspot/vouchers"),
            r#"{"name": "Guest", "count": 5, "timeLimitMinutes": 60}"#,
        );
        assert_eq!(res.status, 403);
        texts.push(res.text);
    }
    assert_eq!(texts[0], texts[1]);
}

#[test]
fn every_refusal_of_a_known_token_is_logged_under_its_name() {
    let mut h = harness(|t| {
        t.sites = vec!["guest-site".into()];
        t.scopes = vec![Scope::VouchersRead, Scope::VouchersCreate];
    });
    let vouchers = format!("{API}/sites/guest-site/hotspot/vouchers");

    let no_scope = h.get(&format!("{API}/sites"));
    assert_eq!(entry(&no_scope), ("test-client", "sites:list", "forbidden", 403));
    let other_site = h.get(&format!("{API}/sites/corporate/hotspot/vouchers"));
    assert_eq!(entry(&other_site), ("test-client", "vouchers:list", "forbidden", 403));
    let bad_body = h.send("POST", &vouchers, r#"{"name": "Guest", "extra": 1}"#);
    assert_eq!(entry(&bad_body), ("test-client", "vouchers:create", "bad_request", 400));
    let too_many = h.send(
        "POST",
        &vouchers,
        r#"{"name": "Guest", "count": 11, "timeLimitMinutes": 60}"#,
    );
    assert_eq!(entry(&too_many), ("test-client", "vouchers:create", "forbidden", 403));
    assert!(h.calls.is_empty());
}

#[test]
fn a_body_that_cannot_be_read_is_logged_too() {
    let mut h = default_harness();
    let token = h.token.clone();
    let request = h.head(
        "POST",
        &format!("{API}/sites/default/hotspot/vouchers"),
        Some(("x-api-key", token.as_str())),
    );
    match begin(&mut h.state, &request, false, "v", &at_now()) {
        Step::ReadBody(creation) => match creation.unread(415) {
            AuditEvent::Rejected(entry) => {
                assert_eq!(entry.token, "test-client");
                assert_eq!(entry.action, "vouchers:create");
                assert_eq!(entry.outcome, "bad_request");
                assert_eq!(entry.status, 415);
            }
            other => panic!("{other:?}"),
        },
        _ => panic!("the body is still to be read"),
    }
}

#[test]
fn a_body_is_not_read_once_the_quota_is_spent() {
    let mut h = harness(|t| t.rate_limit_per_minute = Some(1));
    let token = h.token.clone();
    let request = h.head(
        "POST",
        &format!("{API}/sites/default/hotspot/vouchers"),
        Some(("x-api-key", token.as_str())),
    );
    let first = begin(&mut h.state, &request, false, "v", &at_now());
    assert!(matches!(first, Step::ReadBody(_)));
    match begin(&mut h.state, &request, false, "v", &at_now()) {
        Step::Answer(answer) => assert_eq!(answer.status, 429),
        _ => panic!("the quota is spent"),
    }
}

#[test]
fn the_paths_that_strangers_try_are_counted_under_a_few_labels() {
    let mut h = default_harness();
    for site in ["a", "b", "c%20d"] {
        let path = format!("{API}/sites/{site}/hotspot/vouchers");
        assert_eq!(h.request("GET", &path, None, "").status, 401);
        let path = format!("{API}/sites/{site}/hotspot/vouchers/{site}");
        assert_eq!(h.request("DELETE", &path, None, "").status, 401);
    }
    let page = h.state.metrics.render("v", 1);
    let counted: Vec<&str> = page
        .lines()
        .filter(|line| line.starts_with("uvp_requests_total{"))
        .collect();
    assert_eq!(
        counted,
        [
            format!("uvp_requests_total{{token=\"-\",action=\"{API}/sites/{{site}}/hotspot/vouchers\",outcome=\"missing_token\"}} 3"),
            format!("uvp_requests_total{{token=\"-\",action=\"{API}/sites/{{site}}/hotspot/vouchers/{{voucher}}\",outcome=\"missing_token\"}} 3"),
        ]
    );
}

// --- checking a token apart from everything else -------------------------------

#[test]
fn a_request_may_be_let_in_first_and_gone_on_with_later() {
    let mut h = ip_limited_harness(2);
    let token = h.token.clone();
    let request = h.head("GET", "/proxy/info", Some(("x-api-key", token.as_str())));

    let admission = let_in(&mut h.state, &request, false);
    assert!(admission.ip_ok);
    let known = admission.challenge.answer();
    // Another request comes in between, and spends what is left.
    assert_eq!(h.request("GET", "/proxy/info", None, "").status, 401);
    let step = proceed(&mut h.state, &request, false, "v", &at_now(), admission.ip_ok, &known);
    assert!(matches!(step, Step::Answer(Answer { status: 200, .. })));

    let admission = let_in(&mut h.state, &request, false);
    assert!(!admission.ip_ok);
    let known = admission.challenge.answer();
    let step = proceed(&mut h.state, &request, false, "v", &at_now(), admission.ip_ok, &known);
    assert!(matches!(step, Step::Answer(Answer { status: 429, .. })));

    // What is open to anyone is not charged for.
    let probe = h.head("GET", "/healthz", None);
    let admission = let_in(&mut h.state, &probe, false);
    assert!(admission.ip_ok);
    let none = Verdicts::none();
    let step = proceed(&mut h.state, &probe, false, "v", &at_now(), admission.ip_ok, &none);
    assert!(matches!(step, Step::Answer(Answer { status: 200, .. })));
}

#[test]
fn a_token_that_a_reload_took_away_is_not_let_through() {
    let mut h = default_harness();
    let token = h.token.clone();
    let request = h.head("GET", "/proxy/info", Some(("x-api-key", token.as_str())));
    let admission = let_in(&mut h.state, &request, false);
    let known = admission.challenge.answer();
    let (cfg, _) = config(|_| {}, 0);
    h.state = started(&cfg, None);
    let step = proceed(&mut h.state, &request, false, "v", &at_now(), admission.ip_ok, &known);
    assert!(matches!(step, Step::Answer(Answer { status: 401, .. })));
}
