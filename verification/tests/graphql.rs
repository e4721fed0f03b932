//! The resolvers, against a controller that answers as told.

use unifi_voucher_proxy::auth::{self, Header};
use unifi_voucher_proxy::config::{
    Config, ControllerConfig, Limits, Scope, ServerConfig, TlsConfig, TokenConfig,
};
use unifi_voucher_proxy::error::{GraphqlError, ProxyError};
use unifi_voucher_proxy::graphql::{
    describe, document_line, shape, to_gql, vouchers_shown, CreateVoucherInput, Mutation, Query,
};
use unifi_voucher_proxy::json::{Json, JsonNumber};
use unifi_voucher_proxy::model::Site;
use unifi_voucher_proxy::moment::Timestamp;
use unifi_voucher_proxy::operations::{Admitted, Denied};
use unifi_voucher_proxy::policy::CreateVoucherRequest;
use unifi_voucher_proxy::secret::Secret;
use unifi_voucher_proxy::state::{AppState, Caller, RequestParts};
use unifi_voucher_proxy::upstream::{receive, Method, Reply};

const UPSTREAM_KEY: &str = "REAL-UNIFI-API-KEY-DO-NOT-LEAK";
const API: &str = "/proxy/network/integration/v1";

struct Harness {
    state: AppState,
    caller: Caller,
    /// What the controller answers.
    reply: (u16, String),
    /// The calls that reached the controller: method, URL, key and body.
    calls: Vec<(Method, String, String, Option<String>)>,
}

fn harness(build: impl FnOnce(&mut TokenConfig)) -> Harness {
    let (token, hash) = auth::generate_token().unwrap();
    let mut token_cfg = TokenConfig {
        name: "test-client".into(),
        hash,
        sites: vec!["*".into()],
        scopes: vec![
            Scope::SitesRead,
            Scope::VouchersRead,
            Scope::VouchersCreate,
            Scope::VouchersRevoke,
        ],
        max_vouchers_per_request: None,
        max_validity_minutes: None,
        rate_limit_per_minute: Some(0),
        expires_at: None,
    };
    build(&mut token_cfg);
    let cfg = Config {
        server: ServerConfig::default(),
        controller: ControllerConfig {
            host: "https://controller".into(),
            api_key: Secret::new(UPSTREAM_KEY),
            tls: TlsConfig::default(),
        },
        limits: Limits {
            max_vouchers_per_request: 10,
            max_validity_minutes: 1440,
            rate_limit_per_minute: 0,
            rate_limit_per_ip_per_minute: 0,
        },
        tokens: vec![token_cfg],
    };
    let mut state = match AppState::new(&cfg) {
        Ok(state) => state,
        Err(e) => panic!("{}", e.message()),
    };
    let parts = RequestParts {
        path: "/graphql".into(),
        headers: vec![Header {
            name: "x-api-key".into(),
            value: token.into_bytes(),
        }],
        peer: None,
    };
    let now = Timestamp::new(0, 0).unwrap();
    let caller = match Caller::from_request_parts(&parts, &mut state, &now) {
        Ok(caller) => caller,
        Err(refusal) => panic!("{refusal:?}"),
    };
    Harness {
        state,
        caller,
        reply: (200, String::new()),
        calls: Vec::new(),
    }
}

fn default_harness() -> Harness {
    harness(|_| {})
}

fn input(name: &str, count: u32, minutes: u64) -> CreateVoucherInput {
    CreateVoucherInput {
        name: name.into(),
        count,
        time_limit_minutes: minutes,
        authorized_guest_limit: 1,
        data_usage_limit_m_bytes: None,
        rx_rate_limit_kbps: None,
        tx_rate_limit_kbps: None,
    }
}

impl Harness {
    fn answers(&mut self, status: u16, text: &str) {
        self.reply = (status, text.to_string());
    }

    /// Makes the call of an operation, where it has one.
    fn run(&mut self, admission: Result<Admitted, Denied>) -> Result<Json, GraphqlError> {
        let op = admission.map_err(|denied| to_gql(&denied.error))?;
        let call = op.call.map_err(|e| to_gql(&e))?;
        self.calls.push((
            call.method(),
            call.url().to_string(),
            call.api_key().expose().to_string(),
            call.body().map(|b| b.to_text()),
        ));
        receive(Reply::Answered {
            status: self.reply.0,
            text: self.reply.1.clone(),
        })
        .0
        .map_err(|e| to_gql(&e))
    }

    fn sites(&mut self) -> Result<Vec<Site>, GraphqlError> {
        let admission = Query.sites(self.state.live_mut(), &self.caller);
        let body = self.run(admission)?;
        Ok(Query.sites_shown(&body, &self.caller))
    }

    fn vouchers(&mut self, site: &str) -> Result<Json, GraphqlError> {
        let admission = Query.vouchers(self.state.live_mut(), &self.caller, site);
        self.run(admission)
    }

    fn make(&mut self, site: &str, input: CreateVoucherInput) -> Result<Json, GraphqlError> {
        let admission = Mutation.create_vouchers(self.state.live_mut(), &self.caller, site, input);
        self.run(admission)
    }

    fn revoke(&mut self, site: &str, voucher: &str) -> Result<Json, GraphqlError> {
        let admission = Mutation.revoke_voucher(self.state.live_mut(), &self.caller, site, voucher);
        self.run(admission)
    }
}

fn integer(text: &str, field: &str) -> u64 {
    match Json::from_text(text).unwrap().get(field) {
        Some(Json::Number(JsonNumber::Unsigned(n))) => *n,
        other => panic!("{other:?}"),
    }
}

// --- errors and inputs -------------------------------------------------------

#[test]
fn proxy_errors_carry_their_code_and_status_into_graphql_extensions() {
    let err = to_gql(&ProxyError::Forbidden("no".into()));
    assert_eq!(err.message, "no");
    assert!(err.code.contains("forbidden"));
    assert_eq!(err.status, 403);
}

#[test]
fn internal_errors_stay_opaque_in_graphql_too() {
    let err = to_gql(&ProxyError::Internal("secret detail".into()));
    assert_eq!(err.message, "internal proxy error");
    assert!(!err.message.contains("secret detail"));
    assert!(err.code.contains("internal"));
}

#[test]
fn graphql_input_maps_onto_the_same_request_type_rest_uses() {
    let input = CreateVoucherInput {
        name: "Guest".into(),
        count: 3,
        time_limit_minutes: 480,
        authorized_guest_limit: 2,
        data_usage_limit_m_bytes: Some(1024),
        rx_rate_limit_kbps: Some(500),
        tx_rate_limit_kbps: Some(600),
    };
    let req: CreateVoucherRequest = input.into();
    assert_eq!(req.name, "Guest");
    assert_eq!(req.count, 3);
    assert_eq!(req.data_usage_limit_m_bytes, Some(1024));
    assert_eq!(req.tx_rate_limit_kbps, Some(600));
}

#[test]
fn describes_documents_without_recording_them() {
    // Variables can carry guest names, so the audit line gets shape only.
    let q = describe("query { info { name } }");
    assert!(q.contains("query"));
    let m = describe("  mutation { createVouchers(input: {name: \"Alice Smith\"}) { id } }");
    assert!(m.contains("mutation"));
    assert!(!m.contains("Alice"));
    assert_eq!(describe("{é}"), r#"{"bytes":4,"kind":"query"}"#);
    assert_eq!(shape("\n mutation").to_text(), r#"{"bytes":10,"kind":"mutation"}"#);
    // Two documents of one kind and length leave the same trace.
    assert_eq!(describe("{ a }"), describe("{ b }"));
}

#[test]
fn a_document_is_audited_by_its_shape() {
    let h = default_harness();
    let ok = document_line(&h.caller, describe("{a}"), true, 3_000_000);
    assert_eq!(ok.token, "test-client");
    assert_eq!(ok.action, "graphql");
    assert_eq!(ok.site, "-");
    assert_eq!(ok.target_id, r#"{"bytes":3,"kind":"query"}"#);
    assert_eq!((ok.count, ok.status, ok.elapsed_ms), (0, 200, 3));
    assert_eq!(ok.outcome, "ok");
    let bad = document_line(&h.caller, describe("{a}"), false, 0);
    assert_eq!((bad.status, bad.outcome.as_str()), (400, "graphql_errors"));
}

// --- it works at all ---------------------------------------------------------

#[test]
fn queries_vouchers_through_graphql() {
    let mut h = default_harness();
    h.answers(
        200,
        r#"{"data": [
            {"id": "v1", "code": "1234567890", "name": "Guest",
             "timeLimitMinutes": 480, "authorizedGuestLimit": 2,
             "authorizedGuestCount": 1, "expired": false}
        ]}"#,
    );
    let body = h.vouchers("default").unwrap();
    let v = &vouchers_shown(&body)[0];
    assert_eq!(v.id, "v1");
    assert_eq!(v.code, "1234567890");
    assert_eq!(v.time_limit_minutes, Some(480));
    assert_eq!(v.authorized_guest_count, Some(1));
    assert!(!v.expired);
    assert!(h.calls[0].0 == Method::Get);
    assert_eq!(
        h.calls[0].1,
        format!("https://controller{API}/sites/default/hotspot/vouchers?limit=1000")
    );
    assert_eq!(h.calls[0].2, UPSTREAM_KEY);
}

#[test]
fn creates_vouchers_through_graphql() {
    let mut h = default_harness();
    h.answers(200, r#"{"vouchers": [{"id": "v9", "code": "5555500000"}]}"#);
    let body = h.make("default", input("Guest", 1, 480)).unwrap();
    assert_eq!(vouchers_shown(&body)[0].code, "5555500000");
    assert_eq!(h.calls.len(), 1);
    assert_eq!(h.calls[0].2, UPSTREAM_KEY);
    let sent = h.calls[0].3.clone().unwrap();
    assert!(sent.contains(r#""name":"Guest""#));
    assert_eq!(integer(&sent, "timeLimitMinutes"), 480);
}

#[test]
fn info_needs_no_scope_and_reports_the_grants() {
    let h = harness(|t| {
        t.sites = vec!["guest-site".into()];
        t.scopes = vec![Scope::VouchersRead];
        t.max_vouchers_per_request = Some(4);
    });
    let info = Query.info(&h.caller);
    assert_eq!(info.name, "test-client");
    assert_eq!(info.sites[0], "guest-site");
    assert_eq!(info.scopes, vec!["vouchers:read"]);
    assert_eq!(info.max_vouchers_per_request, 4);
    assert_eq!(info.max_validity_minutes, 1440);
}

#[test]
fn ceilings_beyond_the_range_of_an_int_wrap() {
    let mut h = default_harness();
    h.caller.ceilings.max_vouchers = u32::MAX;
    h.caller.ceilings.max_validity_minutes = u64::MAX;
    let info = Query.info(&h.caller);
    assert_eq!(info.max_vouchers_per_request, u32::MAX as i32);
    assert_eq!(info.max_validity_minutes, u64::MAX as i64);
    h.caller.ceilings.max_vouchers = 1 << 31;
    h.caller.ceilings.max_validity_minutes = i64::MAX as u64;
    let info = Query.info(&h.caller);
    assert_eq!(info.max_vouchers_per_request, i32::MIN);
    assert_eq!(info.max_validity_minutes, i64::MAX);
}

// --- the limits still hold ---------------------------------------------------

#[test]
fn graphql_does_not_bypass_scopes() {
    let mut h = harness(|t| t.scopes = vec![Scope::SitesRead, Scope::VouchersRead]);
    let err = h.make("default", input("X", 1, 60)).unwrap_err();
    assert_eq!(err.code, "forbidden");
    assert!(err.message.contains("vouchers:create"));
    assert_eq!(h.revoke("default", "v1").unwrap_err().code, "forbidden");
    assert!(h.calls.is_empty());
}

#[test]
fn graphql_does_not_bypass_site_scoping() {
    let mut h = harness(|t| t.sites = vec!["guest-site".into()]);
    assert_eq!(h.vouchers("corporate").unwrap_err().code, "forbidden");
    assert!(h.calls.is_empty());
}

#[test]
fn graphql_hides_sites_outside_the_allowlist() {
    let mut h = harness(|t| t.sites = vec!["guest-site".into()]);
    h.answers(
        200,
        r#"{"data": [{"id": "guest-site", "name": "Guest"}, {"id": "corporate", "name": "HQ"}]}"#,
    );
    let sites = h.sites().unwrap();
    assert_eq!(sites.len(), 1);
    assert_eq!(sites[0].id, "guest-site");
}

#[test]
fn graphql_does_not_bypass_the_voucher_ceiling() {
    let mut h = harness(|t| t.max_vouchers_per_request = Some(3));
    assert_eq!(h.make("default", input("X", 99, 60)).unwrap_err().code, "forbidden");
    assert!(h.calls.is_empty());
}

#[test]
fn graphql_does_not_bypass_the_validity_ceiling() {
    let mut h = harness(|t| t.max_validity_minutes = Some(60));
    assert_eq!(h.make("default", input("X", 1, 100000)).unwrap_err().code, "forbidden");
    assert!(h.calls.is_empty());
}

#[test]
fn graphql_does_not_bypass_id_validation() {
    let mut h = default_harness();
    assert_eq!(h.vouchers("../../api/self").unwrap_err().code, "bad_request");
    assert!(h.calls.is_empty());
}

#[test]
fn graphql_never_reveals_the_controller_key() {
    let mut h = default_harness();
    h.answers(500, &format!(r#"{{"message": "boom", "leaked": "{UPSTREAM_KEY}"}}"#));
    let err = h.sites().unwrap_err();
    assert!(!err.message.contains(UPSTREAM_KEY));
}

// --- amplification -----------------------------------------------------------

#[test]
fn each_upstream_call_costs_quota_even_within_one_document() {
    let mut h = harness(|t| t.rate_limit_per_minute = Some(2));
    h.answers(200, r#"{"data": []}"#);
    // Three calls of one caller: the third must be refused, otherwise GraphQL
    // would be a way to spend one request's quota N times over.
    assert!(h.sites().is_ok());
    assert!(h.sites().is_ok());
    assert_eq!(h.sites().unwrap_err().code, "rate_limited");
}

#[test]
fn a_spent_quota_is_audited_under_the_graphql_action() {
    let mut h = harness(|t| t.rate_limit_per_minute = Some(1));
    let _ = Query.vouchers(h.state.live_mut(), &h.caller, "default");
    match Mutation.revoke_voucher(h.state.live_mut(), &h.caller, "default", "v") {
        Err(denied) => {
            let entry = denied.audit;
            assert_eq!(entry.token, "test-client");
            assert_eq!(entry.action, "graphql:revokeVoucher");
            assert_eq!(entry.outcome, "rate_limited");
            assert_eq!(entry.status, 429);
        }
        Ok(_) => panic!("the quota is spent"),
    }
}

#[test]
fn a_refused_resolver_is_audited_under_the_name_of_the_token() {
    let mut h = harness(|t| {
        t.sites = vec!["guest-site".into()];
        t.scopes = vec![Scope::VouchersRead, Scope::VouchersCreate];
    });
    let entry = |denied: Result<Admitted, Denied>| match denied {
        Err(denied) => (
            denied.audit.token,
            denied.audit.action,
            denied.audit.outcome,
            denied.audit.status,
        ),
        Ok(_) => panic!("this is refused"),
    };
    let told = |action: &str, outcome: &str, status: u16| {
        ("test-client".to_string(), action.to_string(), outcome.to_string(), status)
    };
    // No scope, another site, and too many at once.
    assert_eq!(
        entry(Query.sites(h.state.live_mut(), &h.caller)),
        told("graphql:sites", "forbidden", 403)
    );
    assert_eq!(
        entry(Query.vouchers(h.state.live_mut(), &h.caller, "corporate")),
        told("graphql:vouchers", "forbidden", 403)
    );
    assert_eq!(
        entry(Mutation.create_vouchers(
            h.state.live_mut(),
            &h.caller,
            "guest-site",
            input("X", 99, 60)
        )),
        told("graphql:createVouchers", "forbidden", 403)
    );
}

// --- remaining surface -------------------------------------------------------

#[test]
fn revoking_through_graphql_reaches_the_controller() {
    let mut h = default_harness();
    h.revoke("default", "abc123").unwrap();
    assert!(h.calls[0].0 == Method::Delete);
    assert_eq!(
        h.calls[0].1,
        format!("https://controller{API}/sites/default/hotspot/vouchers/abc123")
    );
    assert_eq!(h.calls[0].2, UPSTREAM_KEY);
    let done = Mutation.revoked("abc123".into());
    assert_eq!(done.id, "abc123");
    assert!(done.revoked);
}

#[test]
fn optional_voucher_settings_survive_the_round_trip() {
    let mut h = default_harness();
    h.answers(
        200,
        r#"{"vouchers": [
            {"id": "v1", "code": "1", "dataUsageLimitMBytes": 1024,
             "rxRateLimitKbps": 500, "txRateLimitKbps": 600}
        ]}"#,
    );
    let body = h
        .make(
            "default",
            CreateVoucherInput {
                data_usage_limit_m_bytes: Some(1024),
                rx_rate_limit_kbps: Some(500),
                tx_rate_limit_kbps: Some(600),
                ..input("Guest", 1, 60)
            },
        )
        .unwrap();
    let v = &vouchers_shown(&body)[0];
    assert_eq!(v.data_usage_limit_m_bytes, Some(1024));
    assert_eq!(v.tx_rate_limit_kbps, Some(600));
    let sent = h.calls[0].3.clone().unwrap();
    assert_eq!(integer(&sent, "dataUsageLimitMBytes"), 1024);
    assert_eq!(integer(&sent, "rxRateLimitKbps"), 500);
}

#[test]
fn an_upstream_failure_surfaces_as_a_graphql_error() {
    let mut h = default_harness();
    h.answers(503, "");
    assert_eq!(h.vouchers("default").unwrap_err().code, "upstream_error");
}
