use unifi_voucher_proxy::config::{
    default_scopes, default_sites, one_or_many, Config, ConfigError, ControllerConfig, Limits,
    OneOrMany, Scope, ServerConfig, TlsConfig, TokenConfig,
};
use unifi_voucher_proxy::moment::Timestamp;
use unifi_voucher_proxy::secret::Secret;

const VALID_HASH: &str =
    "$argon2id$v=19$m=19456,t=2,p=1$c29tZXNhbHR2YWx1ZQ$aGFzaHZhbHVlaGVyZWFiY2RlZmdoaWprbG1ub3A";

fn token(name: &str) -> TokenConfig {
    TokenConfig {
        name: name.into(),
        hash: VALID_HASH.into(),
        sites: default_sites(),
        scopes: default_scopes(),
        max_vouchers_per_request: None,
        max_validity_minutes: None,
        rate_limit_per_minute: None,
        expires_at: None,
    }
}

fn minimal() -> Config {
    Config {
        server: ServerConfig::default(),
        controller: ControllerConfig {
            host: "192.168.1.1".into(),
            api_key: Secret::new("real-key"),
            tls: TlsConfig::default(),
        },
        limits: Limits::default(),
        tokens: vec![token("phone")],
    }
}

fn refusal(cfg: &Config) -> ConfigError {
    cfg.validate().unwrap_err()
}

// --- the happy path --------------------------------------------------------

/// The values that a file with nothing but the required settings is read into.
#[test]
fn a_minimal_config_loads_with_sensible_defaults() {
    let cfg = minimal();
    assert!(cfg.validate().is_ok());
    assert_eq!(cfg.controller.host, "192.168.1.1");
    assert_eq!(cfg.controller.api_key.expose(), "real-key");
    assert_eq!(cfg.server.bind, "0.0.0.0:8080");
    assert_eq!(cfg.server.upstream_timeout, 15_000_000_000);
    assert_eq!(cfg.server.max_body_bytes, 65536);
    assert!(!cfg.server.graphql_playground);
    assert_eq!(cfg.limits.max_vouchers_per_request, 10);
    assert_eq!(cfg.limits.rate_limit_per_minute, 60);

    // A token with no explicit grants gets every site and every scope, which is
    // why the server warns about `sites = ["*"]` on startup.
    let t = &cfg.tokens[0];
    assert_eq!(t.sites, vec!["*"]);
    assert_eq!(t.scopes.len(), 4);
    assert!(t.allows_site("anything"));
    assert!(t.has_scope(Scope::VouchersRevoke));
}

/// The values that a file with every setting is read into.
#[test]
fn a_full_config_round_trips() {
    let cfg = Config {
        server: ServerConfig {
            bind: "127.0.0.1:9000".into(),
            upstream_timeout: 30_000_000_000,
            max_body_bytes: 4096,
            graphql_playground: true,
        },
        controller: ControllerConfig {
            host: "https://unifi.lan:8443".into(),
            api_key: Secret::new("k"),
            tls: TlsConfig {
                fingerprint_sha256: one_or_many(Some(OneOrMany::One("a".repeat(64)))),
                ..TlsConfig::default()
            },
        },
        limits: Limits {
            max_vouchers_per_request: 5,
            max_validity_minutes: 600,
            rate_limit_per_minute: 30,
            ..Limits::default()
        },
        tokens: vec![TokenConfig {
            sites: vec!["site-a".into(), "site-b".into()],
            scopes: vec![Scope::VouchersRead],
            max_vouchers_per_request: Some(2),
            max_validity_minutes: Some(120),
            rate_limit_per_minute: Some(5),
            ..token("display")
        }],
    };
    assert!(cfg.validate().is_ok());
    assert_eq!(cfg.server.bind, "127.0.0.1:9000");
    assert_eq!(cfg.server.upstream_timeout, 30_000_000_000);
    assert!(cfg.server.graphql_playground);
    assert_eq!(cfg.controller.tls.fingerprint_sha256.unwrap()[0].len(), 64);

    let t = cfg.tokens[0].clone();
    assert_eq!(t.name, "display");
    assert_eq!(t.hash, VALID_HASH);
    assert!(t.allows_site("site-a"));
    assert!(!t.allows_site("site-c"));
    assert!(t.has_scope(Scope::VouchersRead));
    assert!(!t.has_scope(Scope::VouchersCreate));
}

// --- refusals --------------------------------------------------------------

#[test]
fn an_empty_api_key_is_refused() {
    let mut cfg = minimal();
    cfg.controller.api_key = Secret::new("");
    assert!(refusal(&cfg).message().contains("api_key is empty"));
}

#[test]
fn a_config_without_tokens_is_refused() {
    let mut cfg = minimal();
    cfg.tokens.clear();
    // A proxy that trusts nobody is useless; one that is misread as trusting
    // everybody is dangerous. Either way it should not start.
    assert!(refusal(&cfg).message().contains("no tokens configured"));
}

#[test]
fn a_nameless_token_is_refused() {
    let mut cfg = minimal();
    cfg.tokens[0].name = "  ".into();
    assert!(refusal(&cfg).message().contains("non-empty name"));
}

#[test]
fn a_plaintext_token_in_the_hash_field_is_refused() {
    // The mistake this catches: pasting the token instead of its hash, which
    // would work fine and store a live credential in the config file.
    let mut cfg = minimal();
    cfg.tokens[0].hash = "uvp_thisIsTheRawToken".into();
    let message = refusal(&cfg).message();
    assert!(message.contains("not an Argon2 PHC string"));
    assert!(message.starts_with("token 'phone' "), "{message}");
}

#[test]
fn a_token_without_scopes_is_refused() {
    let mut cfg = minimal();
    cfg.tokens[0].scopes.clear();
    assert_eq!(refusal(&cfg).message(), "token 'phone' has no scopes and could do nothing");
    assert!(refusal(&cfg).message().contains("no scopes"));
}

#[test]
fn pinning_and_skipping_verification_at_once_is_refused() {
    let mut cfg = minimal();
    cfg.controller.tls.fingerprint_sha256 = Some(vec!["a".repeat(64)]);
    cfg.controller.tls.insecure_skip_verify = true;
    assert!(refusal(&cfg).message().contains("not both"));
}

#[test]
fn a_plaintext_controller_is_refused_unless_that_is_allowed() {
    let mut cfg = minimal();
    cfg.controller.host = " HTTP://10.0.0.1 ".into();
    assert!(cfg.controller.is_plaintext());
    let message = refusal(&cfg).message();
    assert!(message.starts_with("controller.host is HTTP://10.0.0.1 — "), "{message}");
    cfg.controller.tls.allow_plaintext = true;
    assert!(cfg.validate().is_ok());
    cfg.controller.host = "https://10.0.0.1".into();
    assert!(!cfg.controller.is_plaintext());
}

#[test]
fn an_empty_or_unusable_pin_is_refused() {
    let mut cfg = minimal();
    cfg.controller.tls.fingerprint_sha256 = Some(Vec::new());
    assert!(refusal(&cfg).message().contains("is an empty list"));
    cfg.controller.tls.fingerprint_sha256 = Some(vec!["a".repeat(64), "zz".into()]);
    let err = refusal(&cfg);
    assert_eq!(err.message(), "controller.tls.fingerprint_sha256 is not usable");
    assert_eq!(
        err.cause().unwrap(),
        "not a SHA-256 certificate fingerprint (expected 64 hex characters, got 2)"
    );
    cfg.controller.tls.fingerprint_sha256 = Some(vec!["a".repeat(64)]);
    assert!(cfg.validate().is_ok());
}

#[test]
fn of_several_faults_the_first_is_reported() {
    let mut cfg = minimal();
    let mut second = token("display");
    second.scopes.clear();
    cfg.tokens.push(second);
    cfg.tokens.push(token(" "));
    cfg.controller.host = "http://h".into();
    assert!(matches!(refusal(&cfg), ConfigError::NoScopes(name) if name == "display"));
    cfg.controller.api_key = Secret::new("");
    assert!(matches!(refusal(&cfg), ConfigError::NoApiKey));
}

#[test]
fn a_list_of_strings_may_be_written_as_one() {
    assert_eq!(one_or_many(None), None);
    assert_eq!(one_or_many(Some(OneOrMany::One("a".into()))), Some(vec!["a".to_string()]));
    assert_eq!(
        one_or_many(Some(OneOrMany::Many(vec!["a".into(), "b".into()]))),
        Some(vec!["a".to_string(), "b".to_string()])
    );
}

// --- effective limits ------------------------------------------------------

#[test]
fn a_token_may_tighten_a_limit_but_never_raise_it() {
    let limits = Limits {
        max_vouchers_per_request: 5,
        max_validity_minutes: 600,
        rate_limit_per_minute: 30,
        ..Limits::default()
    };
    let tighter = TokenConfig {
        max_vouchers_per_request: Some(2),
        max_validity_minutes: Some(60),
        rate_limit_per_minute: Some(10),
        ..token("tighter")
    };
    let greedy = TokenConfig {
        max_vouchers_per_request: Some(999),
        max_validity_minutes: Some(99999),
        rate_limit_per_minute: Some(9999),
        ..token("greedy")
    };

    assert_eq!(tighter.effective_max_vouchers(&limits), 2);
    assert_eq!(tighter.effective_max_validity(&limits), 60);
    assert_eq!(tighter.effective_rate_limit(&limits), 10);

    assert_eq!(greedy.effective_max_vouchers(&limits), 5);
    assert_eq!(greedy.effective_max_validity(&limits), 600);
    assert_eq!(greedy.effective_rate_limit(&limits), 30);
}

#[test]
fn an_unlimited_global_rate_lets_a_token_set_its_own() {
    let limits = Limits {
        rate_limit_per_minute: 0,
        ..Limits::default()
    };
    let capped = TokenConfig {
        rate_limit_per_minute: Some(7),
        ..token("capped")
    };
    assert_eq!(capped.effective_rate_limit(&limits), 7);
    assert_eq!(token("uncapped").effective_rate_limit(&limits), 0);
}

#[test]
fn scopes_have_stable_wire_names() {
    // These strings appear in config files and in GraphQL responses, so they
    // are API surface, not an implementation detail.
    assert_eq!(Scope::SitesRead.as_str(), "sites:read");
    assert_eq!(Scope::VouchersRead.as_str(), "vouchers:read");
    assert_eq!(Scope::VouchersCreate.as_str(), "vouchers:create");
    assert_eq!(Scope::VouchersRevoke.as_str(), "vouchers:revoke");
}

#[test]
fn default_limits_are_the_documented_ones() {
    let d = Limits::default();
    assert_eq!(d.max_vouchers_per_request, 10);
    assert_eq!(d.max_validity_minutes, 43200);
    assert_eq!(d.rate_limit_per_minute, 60);
    assert_eq!(d.rate_limit_per_ip_per_minute, 120);
}

// --- expiry ----------------------------------------------------------------

#[test]
fn a_token_lapses_at_its_deadline_and_stays_lapsed() {
    let second = 1_000_000_000i128;
    let at = |s: i128| Timestamp::new(s * second, 0).unwrap();
    let t = TokenConfig {
        expires_at: Some(at(1000)),
        ..token("t")
    };
    assert!(!t.is_expired_at(&at(999)));
    assert!(t.is_expired_at(&at(1000)));
    assert!(t.is_expired_at(&at(5000)));
    assert_eq!(t.expires_in(&at(990)), Some(10 * second));
    assert_eq!(t.expires_in(&at(1007)), Some(-7 * second));
    assert!(!token("forever").is_expired_at(&at(1_000_000)));
    assert_eq!(token("forever").expires_in(&at(0)), None);
}
