use unifi_voucher_proxy::config::{ConfigError, ControllerConfig, TlsConfig};
use unifi_voucher_proxy::secret::Secret;
use unifi_voucher_proxy::upstream::{receive, Reply, Upstream};
use unifi_voucher_proxy::tls::{
    client_config, fingerprint, normalize_fingerprint, CapturingVerifier, TlsMode,
};

#[test]
fn normalizes_the_common_fingerprint_spellings() {
    let want = "a".repeat(64);
    assert_eq!(normalize_fingerprint(&want.to_uppercase()).unwrap(), want);
    assert_eq!(
        normalize_fingerprint(&format!("sha256:{want}")).unwrap(),
        want
    );
    let colonized = want
        .as_bytes()
        .chunks(2)
        .map(|c| std::str::from_utf8(c).unwrap())
        .collect::<Vec<_>>()
        .join(":");
    assert_eq!(normalize_fingerprint(&colonized).unwrap(), want);
}

#[test]
fn rejects_things_that_are_not_fingerprints() {
    assert!(normalize_fingerprint("deadbeef").is_err());
    assert!(normalize_fingerprint(&"z".repeat(64)).is_err());
    assert!(normalize_fingerprint("").is_err());
}

/// The SHA-256 digest of `abc`.
const ABC: &str = "ba7816bf8f01cfea414140de5dae2223b00361a396177a9cb410ff61f20015ad";

#[test]
fn a_fingerprint_is_the_hex_sha256_of_the_certificate() {
    assert_eq!(fingerprint(b"abc"), ABC);
    assert_eq!(
        fingerprint(b""),
        "e3b0c44298fc1c149afbf4c8996fb92427ae41e4649b934ca495991b7852b855"
    );
}

#[test]
fn the_digest_may_be_named_in_either_case_and_spaced_freely() {
    let want = "0a".repeat(32);
    let spelled = format!("  SHA256:{} ", want.to_uppercase());
    assert_eq!(normalize_fingerprint(&spelled).unwrap(), want);
    let dashed = format!("{}-{} {}", &want[..10], &want[10..20], &want[20..]);
    assert_eq!(normalize_fingerprint(&dashed).unwrap(), want);
    assert_eq!(normalize_fingerprint(&want).unwrap(), want);
}

#[test]
fn a_refused_fingerprint_says_how_much_was_left_of_it() {
    assert_eq!(
        normalize_fingerprint("de:ad").unwrap_err().message(),
        "not a SHA-256 certificate fingerprint (expected 64 hex characters, got 4)"
    );
    // The count is in bytes.
    assert_eq!(normalize_fingerprint("é").unwrap_err().got, 2);
    assert_eq!(normalize_fingerprint(&"z".repeat(64)).unwrap_err().got, 64);
}

fn pinned(fingerprints: &[&str]) -> TlsConfig {
    TlsConfig {
        fingerprint_sha256: Some(fingerprints.iter().map(|f| f.to_string()).collect()),
        ..TlsConfig::default()
    }
}

#[test]
fn a_pin_accepts_its_certificate_and_no_other() {
    let colonized = ABC.to_uppercase();
    let mode = match client_config(&pinned(&[colonized.as_str()])) {
        Ok(mode) => mode,
        Err(e) => panic!("{}", e.message()),
    };
    match mode {
        TlsMode::Pinned(verifier) => {
            assert!(verifier.verify_server_cert(b"abc").is_ok());
            let message = verifier.verify_server_cert(b"other").unwrap_err();
            assert_eq!(
                message,
                format!(
                    "controller certificate fingerprint mismatch: pinned {}, presented {}",
                    ABC,
                    fingerprint(b"other")
                )
            );
        }
        _ => panic!("a fingerprint pins"),
    }
}

#[test]
fn either_of_two_pins_will_do() {
    let other = fingerprint(b"other");
    match client_config(&pinned(&[ABC, other.as_str()])) {
        Ok(TlsMode::Pinned(verifier)) => {
            assert!(verifier.verify_server_cert(b"abc").is_ok());
            assert!(verifier.verify_server_cert(b"other").is_ok());
            let message = verifier.verify_server_cert(b"third").unwrap_err();
            assert!(message.contains(" or "), "{message}");
        }
        _ => panic!("fingerprints pin"),
    }
}

#[test]
fn an_empty_list_of_pins_is_refused() {
    match client_config(&pinned(&[])) {
        Err(e) => assert!(matches!(e, ConfigError::NoPins)),
        Ok(_) => panic!("there is nothing to pin to"),
    }
    assert!(Upstream::new(&controller(pinned(&[]))).is_err());
    // Switching the checks off does not make up for it.
    let off = TlsConfig {
        insecure_skip_verify: true,
        ..pinned(&[])
    };
    assert!(client_config(&off).is_err());
}

#[test]
fn an_unusable_pin_is_refused_with_its_cause() {
    match client_config(&pinned(&[ABC, "nonsense"])) {
        Err(e) => {
            assert!(matches!(e, ConfigError::UnusableFingerprint(_)));
            assert_eq!(e.message(), "controller.tls.fingerprint_sha256 is not usable");
            assert_eq!(
                e.cause().unwrap(),
                "not a SHA-256 certificate fingerprint (expected 64 hex characters, got 8)"
            );
        }
        Ok(_) => panic!("nonsense is no fingerprint"),
    }
}

#[test]
fn without_a_pin_certificates_are_checked_unless_that_is_switched_off() {
    assert!(matches!(client_config(&TlsConfig::default()), Ok(TlsMode::WebPki)));
    let off = TlsConfig {
        insecure_skip_verify: true,
        ..TlsConfig::default()
    };
    assert!(matches!(client_config(&off), Ok(TlsMode::AcceptAny)));
}

#[test]
fn a_probe_hands_back_what_it_saw() {
    let mut probe = CapturingVerifier::new();
    probe.verify_server_cert(b"first");
    probe.verify_server_cert(b"abc");
    assert_eq!(probe.captured().unwrap(), ABC);
    assert_eq!(
        CapturingVerifier::new().captured().unwrap_err(),
        "connection succeeded but no certificate was presented"
    );
}

/// A controller that is reached under some TLS settings.
fn controller(tls: TlsConfig) -> ControllerConfig {
    ControllerConfig {
        host: "https://127.0.0.1:9".into(),
        api_key: Secret::new("upstream-key"),
        tls,
    }
}

fn upstream(tls: TlsConfig) -> Upstream {
    match Upstream::new(&controller(tls)) {
        Ok(upstream) => upstream,
        Err(e) => panic!("{}", e.message()),
    }
}

/// What a client is told where a handshake is refused.
fn refused(why: &str) -> (u16, String) {
    let err = receive(Reply::Failed {
        chain: vec![
            "error sending request".into(),
            "client error (Connect)".into(),
            why.to_string(),
        ],
        timeout: false,
        connect: true,
    })
    .0
    .unwrap_err();
    (err.status(), err.message())
}

/// What presenting a certificate to a pinned connection comes to: nothing, or what
/// a client is told.
fn handshake(tls: TlsConfig, cert: &[u8]) -> Option<(u16, String)> {
    match upstream(tls).tls() {
        TlsMode::Pinned(verifier) => verifier
            .verify_server_cert(cert)
            .err()
            .map(|why| refused(&why)),
        _ => panic!("the connection is pinned"),
    }
}

#[test]
fn a_matching_fingerprint_is_accepted() {
    assert_eq!(handshake(pinned(&[ABC]), b"abc"), None);
}

#[test]
fn a_different_certificate_is_refused() {
    // A valid-looking fingerprint that is not this console's.
    let wrong = "b".repeat(64);
    let (status, msg) = handshake(pinned(&[wrong.as_str()]), b"abc").unwrap();
    assert!(
        msg.contains("fingerprint mismatch"),
        "expected a pinning failure, got: {msg}"
    );
    assert_eq!(status, 502);
}

#[test]
fn the_pin_survives_the_spellings_people_actually_paste() {
    let colonized = fingerprint(b"console")
        .as_bytes()
        .chunks(2)
        .map(|c| std::str::from_utf8(c).unwrap())
        .collect::<Vec<_>>()
        .join(":")
        .to_uppercase();
    let pin = format!("sha256:{colonized}");
    assert_eq!(handshake(pinned(&[pin.as_str()]), b"console"), None);
}

#[test]
fn insecure_mode_connects_to_anything() {
    let off = TlsConfig {
        insecure_skip_verify: true,
        ..TlsConfig::default()
    };
    assert!(matches!(upstream(off).tls(), TlsMode::AcceptAny));
}

#[test]
fn the_secure_default_rejects_a_self_signed_console() {
    // The platform's roots decide, and a self-signed console is not among them.
    assert!(matches!(upstream(TlsConfig::default()).tls(), TlsMode::WebPki));
    let (status, msg) = refused("invalid peer certificate: UnknownIssuer");
    assert_eq!(status, 502);
    assert!(msg.contains("certificate is not trusted"), "{msg}");
}

#[test]
fn a_malformed_pin_is_rejected_at_construction() {
    match Upstream::new(&controller(pinned(&["not-a-fingerprint"]))) {
        Err(err) => assert!(err.message().contains("fingerprint_sha256")),
        Ok(_) => panic!("the pin is malformed"),
    }
}
