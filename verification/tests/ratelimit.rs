use unifi_voucher_proxy::config::{
    Config, ControllerConfig, Limits, Scope, ServerConfig, TlsConfig, TokenConfig,
};
use unifi_voucher_proxy::ratelimit::{RateLimits, SWEEP_EVERY};
use unifi_voucher_proxy::secret::Secret;

fn token(name: &str, per_token: Option<u32>) -> TokenConfig {
    TokenConfig {
        name: name.into(),
        hash: "$argon2id$v=19$m=1,t=1,p=1$c2FsdA$aGFzaA".into(),
        sites: vec!["*".into()],
        scopes: vec![Scope::VouchersRead],
        max_vouchers_per_request: None,
        max_validity_minutes: None,
        rate_limit_per_minute: per_token,
        expires_at: None,
    }
}

fn config(global: u32, per_token: Option<u32>) -> Config {
    Config {
        server: ServerConfig::default(),
        controller: ControllerConfig {
            host: "https://10.0.0.1".into(),
            api_key: Secret::new("k"),
            tls: TlsConfig::default(),
        },
        limits: Limits {
            rate_limit_per_minute: global,
            rate_limit_per_ip_per_minute: 0,
            ..Limits::default()
        },
        tokens: vec![token("phone", per_token)],
    }
}

#[test]
fn stops_a_caller_that_burns_its_quota() {
    let cfg = config(2, None);
    let mut limits = RateLimits::from_config(&cfg);
    let token = &cfg.tokens[0];
    assert!(limits.check(token));
    assert!(limits.check(token));
    assert!(!limits.check(token), "third call in the same minute");
}

#[test]
fn a_token_may_tighten_but_not_widen_the_global_quota() {
    let cfg = config(10, Some(1));
    let mut limits = RateLimits::from_config(&cfg);
    let token = &cfg.tokens[0];
    assert!(limits.check(token));
    assert!(!limits.check(token));
}

fn ip(last: u8) -> Vec<u8> {
    vec![127, 0, 0, last]
}

#[test]
fn a_source_address_gets_its_own_pre_auth_budget() {
    let mut cfg = config(0, None);
    cfg.limits.rate_limit_per_ip_per_minute = 2;
    let mut limits = RateLimits::from_config(&cfg);

    assert!(limits.check_ip(&ip(1)));
    assert!(limits.check_ip(&ip(1)));
    assert!(!limits.check_ip(&ip(1)), "third call in the same minute");

    // A different address is unaffected — one noisy client must not lock
    // everyone else out of authenticating.
    assert!(limits.check_ip(&ip(2)));
}

#[test]
fn a_pre_auth_budget_of_zero_is_unlimited() {
    let cfg = config(0, None);
    assert_eq!(cfg.limits.rate_limit_per_ip_per_minute, 0);
    let mut limits = RateLimits::from_config(&cfg);
    for _ in 0..2000 {
        assert!(limits.check_ip(&ip(1)));
    }
}

#[test]
fn the_keyed_store_is_swept_so_it_cannot_grow_without_bound() {
    let mut cfg = config(0, None);
    cfg.limits.rate_limit_per_ip_per_minute = 60;
    let mut limits = RateLimits::from_config(&cfg);
    // Enough calls to cross the sweep threshold at least once.
    for i in 0..(SWEEP_EVERY + 8) {
        limits.check_ip(&vec![10, 0, (i / 256) as u8, (i % 256) as u8]);
    }
}

#[test]
fn zero_means_unlimited() {
    let cfg = config(0, None);
    let mut limits = RateLimits::from_config(&cfg);
    let token = &cfg.tokens[0];
    for _ in 0..1000 {
        assert!(limits.check(token));
    }
}

#[test]
fn a_noisy_token_leaves_the_others_alone() {
    let mut cfg = config(2, None);
    cfg.tokens.push(token("display", None));
    let mut limits = RateLimits::from_config(&cfg);
    for _ in 0..5 {
        limits.check(&cfg.tokens[0]);
    }
    assert!(!limits.check(&cfg.tokens[0]));
    assert!(limits.check(&cfg.tokens[1]));
    assert!(limits.check(&cfg.tokens[1]));
    assert!(!limits.check(&cfg.tokens[1]));
}

#[test]
fn of_two_tokens_with_one_name_the_later_limit_holds() {
    let mut cfg = config(0, Some(1));
    cfg.tokens.push(token("phone", Some(3)));
    // An unlimited namesake does not lift the limit.
    cfg.tokens.push(token("phone", Some(0)));
    let mut limits = RateLimits::from_config(&cfg);
    for _ in 0..3 {
        assert!(limits.check(&cfg.tokens[0]));
    }
    assert!(!limits.check(&cfg.tokens[0]));
}

#[test]
fn addresses_of_the_two_families_are_told_apart() {
    let mut cfg = config(0, None);
    cfg.limits.rate_limit_per_ip_per_minute = 1;
    let mut limits = RateLimits::from_config(&cfg);
    let mut mapped = vec![0; 10];
    mapped.extend([255, 255, 127, 0, 0, 1]);
    assert!(limits.check_ip(&ip(1)));
    assert!(limits.check_ip(&mapped));
    assert!(!limits.check_ip(&ip(1)));
}
