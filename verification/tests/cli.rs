use unifi_voucher_proxy::auth;
use unifi_voucher_proxy::cli::{
    check_config, hash_token, healthcheck, probe_target, report_fingerprint, supplied_key,
    warn_about_weak_settings, KeyNote,
};
use unifi_voucher_proxy::config::{
    Config, ControllerConfig, Limits, Scope, ServerConfig, TlsConfig, TokenConfig,
};
use unifi_voucher_proxy::secret::Secret;

const HASH: &str =
    "$argon2id$v=19$m=19456,t=2,p=1$c29tZXNhbHR2YWx1ZQ$aGFzaHZhbHVlaGVyZWFiY2RlZmdoaWprbG1ub3A";

fn token(name: &str, sites: &[&str]) -> TokenConfig {
    TokenConfig {
        name: name.into(),
        hash: HASH.into(),
        sites: sites.iter().map(|s| s.to_string()).collect(),
        scopes: vec![Scope::SitesRead, Scope::VouchersRead],
        max_vouchers_per_request: Some(3),
        max_validity_minutes: None,
        rate_limit_per_minute: None,
        expires_at: None,
    }
}

fn config() -> Config {
    Config {
        server: ServerConfig::default(),
        controller: ControllerConfig {
            host: "192.168.1.1".into(),
            api_key: Secret::new("k"),
            tls: TlsConfig::default(),
        },
        limits: Limits::default(),
        tokens: vec![token("phone", &["site-a", "site-b"])],
    }
}

fn warnings(cfg: &Config) -> Vec<String> {
    warn_about_weak_settings(cfg).iter().map(|w| w.message()).collect()
}

#[test]
fn a_sound_config_is_not_warned_about() {
    assert!(warnings(&config()).is_empty());
}

#[test]
fn everything_that_weakens_the_guarantees_is_called_out() {
    let mut cfg = config();
    cfg.controller.host = "http://10.0.0.1".into();
    cfg.controller.tls.allow_plaintext = true;
    cfg.controller.tls.insecure_skip_verify = true;
    cfg.limits.rate_limit_per_ip_per_minute = 0;
    cfg.tokens.push(token("wide", &["a", "*"]));
    let said = warnings(&cfg);
    assert_eq!(said.len(), 4);
    assert!(said[0].starts_with("controller.tls.insecure_skip_verify is on — "));
    assert!(said[1].starts_with("controller.host is plaintext http:// "));
    assert!(said[2].starts_with("limits.rate_limit_per_ip_per_minute is 0 — "));
    assert!(said[3].starts_with("token may use every site "));

    // Silence is for one warning only.
    cfg.controller.tls.silence_insecure_warning = true;
    let quiet = warnings(&cfg);
    assert_eq!(quiet[..], said[1..]);
}

#[test]
fn a_key_from_standard_input_loses_its_line_end_and_nothing_else() {
    let piped = |s: &str| supplied_key(None, Some(s.into())).unwrap();
    assert_eq!(piped("secret \r\n\n"), "secret ");
    assert_eq!(piped(" \n x"), " \n x");
    assert_eq!(supplied_key(Some("a\n".into()), Some("b".into())).unwrap(), "a\n");
    assert_eq!(supplied_key(None, None), None);
}

#[test]
fn a_weak_key_is_refused_unless_that_is_overridden() {
    let err = hash_token("n", Some("short".into()), false).unwrap_err();
    assert_eq!(
        err,
        "refusing to hash this key: too short: 5 characters, at least 16 are required.\nThis key is the only thing between a client and your controller. Pass --allow-weak to override, or omit --token to have one generated."
    );
    let done = hash_token("n", Some("short".into()), true).unwrap();
    match done.note {
        Some(KeyNote::AcceptedWeak(note)) => assert_eq!(
            note,
            "custom key is weak (too short: 5 characters, at least 16 are required) — accepted because --allow-weak was given"
        ),
        other => panic!("{other:?}"),
    }
    assert!(done.text.ends_with("it cannot be recovered from the config.\n\n"));
}

/// What stands between two texts.
fn between<'a>(text: &'a str, before: &str, after: &str) -> &'a str {
    let rest = &text[text.find(before).unwrap() + before.len()..];
    &rest[..rest.find(after).unwrap()]
}

#[test]
fn a_custom_key_is_hashed_and_never_printed() {
    let key = "Kj8#mQp2vN9xL4wR7tZ";
    let done = hash_token("lobby", Some(key.into()), false).unwrap();
    match done.note {
        Some(KeyNote::Accepted(strength)) => assert_eq!((strength.length, strength.pool), (19, 95)),
        other => panic!("{other:?}"),
    }
    assert!(!done.text.contains(key));
    let hash = between(&done.text, "hash = \"", "\"");
    assert!(auth::verify_pair(key, hash).unwrap());
    assert_eq!(
        done.text,
        format!(
            "Add this to your config.toml:\n\n[[tokens]]\nname = \"lobby\"\nhash = \"{hash}\"\nsites = [\"*\"]              # replace with explicit site ids where you can\nscopes = [\"sites:read\", \"vouchers:read\", \"vouchers:create\", \"vouchers:revoke\"]\n\nOnly the hash is stored. Keep your key wherever you keep your other secrets;\nit cannot be recovered from the config.\n\n"
        )
    );
}

#[test]
fn a_minted_token_is_printed_once_with_its_hash() {
    let done = hash_token("client", None, false).unwrap();
    assert!(done.note.is_none());
    let hash = between(&done.text, "hash = \"", "\"");
    let minted = between(&done.text, "not recoverable:\n\n  ", "\n\n");
    assert!(minted.starts_with("uvp_"));
    assert!(auth::verify_pair(minted, hash).unwrap());
}

#[test]
fn a_fingerprint_is_probed_at_the_controller() {
    let path = "/proxy/network/integration/v1/sites";
    assert_eq!(probe_target("192.168.1.1"), format!("https://192.168.1.1{path}"));
    assert_eq!(probe_target("https://unifi.lan//"), format!("https://unifi.lan{path}"));
    assert_eq!(probe_target("http://h/"), format!("http://h{path}"));
    assert_eq!(
        report_fingerprint("192.168.1.1/", "abcd"),
        "Certificate fingerprint for https://192.168.1.1:\n\n  abcd\n\nPut it in your config.toml:\n\n[controller.tls]\nfingerprint_sha256 = \"abcd\"\n"
    );
}

#[test]
fn an_unhealthy_instance_is_reported_by_its_status() {
    assert!(healthcheck("http://h/healthz", 204).is_ok());
    assert_eq!(
        healthcheck("http://h/healthz", 503).unwrap_err(),
        "http://h/healthz answered HTTP 503"
    );
    assert!(healthcheck("u", 301).is_err());
}

#[test]
fn a_config_is_reported_as_what_it_grants() {
    let mut cfg = config();
    cfg.tokens.push(token("a-token-with-a-long-name", &["*"]));
    let (text, outcome) = check_config(&cfg, "config.toml");
    assert!(outcome.is_ok());
    assert_eq!(
        text,
        format!(
            "Config OK: config.toml\n\n  controller     192.168.1.1\n  tls            standard WebPKI verification\n  bind           0.0.0.0:8080\n  global limits  10 vouchers/request, 43200 min validity, 60 req/min\n  pre-auth       120 req/min per client IP\n\n  tokens (2):\n    {:<16} sites={:<24} scopes=sites:read,vouchers:read (max 3 vouchers, 43200 min, 60 req/min)\n    {:<16} sites={:<24} scopes=sites:read,vouchers:read (max 3 vouchers, 43200 min, 60 req/min)\n",
            "phone", "site-a,site-b", "a-token-with-a-long-name", "*"
        )
    );
}

#[test]
fn the_report_says_how_the_controller_is_reached() {
    let line = |cfg: &Config| {
        let (text, _) = check_config(cfg, "c");
        between(&text, "  tls            ", "\n").to_string()
    };
    let mut cfg = config();
    cfg.controller.tls.insecure_skip_verify = true;
    assert_eq!(line(&cfg), "INSECURE — certificate not verified");
    cfg.controller.tls.fingerprint_sha256 = Some(vec!["aa".into(), "bb".into()]);
    assert_eq!(line(&cfg), "pinned to aa or bb");
    cfg.controller.host = "http://h".into();
    assert_eq!(line(&cfg), "NONE — plaintext http://, the API key travels unencrypted");
    cfg.limits.rate_limit_per_ip_per_minute = 0;
    assert!(check_config(&cfg, "c")
        .0
        .contains("  pre-auth       UNLIMITED — an unauthenticated caller can spend Argon2 time freely\n"));
}

#[test]
fn the_report_stops_at_a_hash_that_cannot_be_read() {
    let mut cfg = config();
    let mut broken = token("broken", &["x"]);
    broken.hash = "not-a-hash".into();
    cfg.tokens.push(broken);
    cfg.tokens.push(token("never-reached", &["x"]));
    let (text, outcome) = check_config(&cfg, "c");
    assert!(text.contains("tokens (3):\n    phone"));
    assert!(!text.contains("broken") && !text.contains("never-reached"));
    assert_eq!(outcome.unwrap_err().message(), "not a valid Argon2 PHC string");
}
