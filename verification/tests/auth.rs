use unifi_voucher_proxy::auth::{
    assess_strength, generate_token, hash_token, hash_token_with, load_hash_check, mint,
    token_from_headers, verify_pair,
    Authenticator, Challenge, Header, Verdicts,
};
use unifi_voucher_proxy::config::{Scope, TokenConfig};

fn token_config(name: &str, hash: String) -> TokenConfig {
    TokenConfig {
        name: name.to_string(),
        hash,
        sites: vec!["*".into()],
        scopes: vec![Scope::VouchersRead],
        max_vouchers_per_request: None,
        max_validity_minutes: None,
        rate_limit_per_minute: None,
        expires_at: None,
    }
}

#[test]
fn generated_tokens_verify_against_their_hash() {
    let (token, hash) = generate_token().unwrap();
    assert!(token.starts_with("uvp_"));
    assert!(verify_pair(&token, &hash).unwrap());
    assert!(!verify_pair("uvp_wrong", &hash).unwrap());
}

#[test]
fn authenticates_known_tokens_and_rejects_others() {
    let (alpha, alpha_hash) = generate_token().unwrap();
    let (beta, beta_hash) = generate_token().unwrap();
    let mut auth = Authenticator::new(&vec![
        token_config("alpha", alpha_hash),
        token_config("beta", beta_hash),
    ]).unwrap();

    assert_eq!(auth.authenticate(&alpha).unwrap().name, "alpha");
    assert_eq!(auth.authenticate(&beta).unwrap().name, "beta");
    // Second lookup goes through the cache and must agree.
    assert_eq!(auth.authenticate(&alpha).unwrap().name, "alpha");
    assert!(auth.authenticate("uvp_nope").is_none());
    assert!(auth.authenticate("").is_none());
}

#[test]
fn failed_lookups_do_not_grow_the_cache() {
    let (token, hash) = generate_token().unwrap();
    let mut auth = Authenticator::new(&vec![token_config("only", hash)]).unwrap();
    for i in 0..20 {
        assert!(auth.authenticate(&format!("uvp_bogus{i}")).is_none());
    }
    assert_eq!(auth.remembers(), 0);
    assert!(auth.authenticate(&token).is_some());
    assert_eq!(auth.remembers(), 1);
}

#[test]
fn accepts_a_reasonable_custom_key() {
    assert!(assess_strength("Kj8#mQp2vN9xL4wR7tZ").is_ok());
    assert!(assess_strength("correct-horse-battery-staple-42").is_ok());
    assert!(assess_strength(&generate_token().unwrap().0).is_ok());
}

#[test]
fn refuses_keys_that_are_not_worth_having() {
    for weak in [
        "short",                      // too short
        "letmein123",                 // too short
        "aaaaaaaaaaaaaaaaaaaaaaaaaa", // repetitive
        "abababababababababab",       // few distinct characters
        "passwordpassword",           // 16 chars, lowercase only -> ~75 bits
    ] {
        assert!(
            assess_strength(weak).is_err(),
            "{weak:?} should have been refused"
        );
    }
}

#[test]
fn custom_keys_hash_and_authenticate_like_generated_ones() {
    let custom = "Kj8#mQp2vN9xL4wR7tZ";
    let hash = hash_token(custom).unwrap();
    let mut auth = Authenticator::new(&vec![token_config("custom", hash)]).unwrap();
    assert_eq!(auth.authenticate(custom).unwrap().name, "custom");
    assert!(auth.authenticate("Kj8#mQp2vN9xL4wR7tY").is_none());
}

#[test]
fn refuses_a_key_with_enough_variety_but_too_little_length() {
    // 16 distinct lowercase characters: passes the distinct-character
    // floor, still only ~75 bits, so the entropy rule must catch it.
    let err = assess_strength("abcdefghijklmnop").unwrap_err();
    assert!(err.contains("bits of entropy"), "{err}");
}

#[test]
fn the_authenticator_does_not_print_its_tokens() {
    let (_, hash) = generate_token().unwrap();
    let auth = Authenticator::new(&vec![token_config("secretive", hash)]).unwrap();
    let rendered = auth.to_debug_string();
    assert!(rendered.contains("Authenticator"));
    assert!(rendered.contains('1'), "should report how many, not which");
    assert!(!rendered.contains("secretive") && !rendered.contains("argon2"));
}

#[test]
fn a_malformed_hash_fails_at_construction_not_at_request_time() {
    match Authenticator::new(&vec![token_config("broken", "not-a-hash".into())]) {
        Err(err) => assert!(err.contains("unparsable hash")),
        Ok(_) => panic!("the hash is malformed"),
    }
}

#[test]
fn load_hash_check_accepts_real_hashes_and_rejects_the_rest() {
    let (_, hash) = generate_token().unwrap();
    assert!(load_hash_check(&hash).is_ok());
    assert!(load_hash_check("uvp_raw_token").is_err());
}

#[test]
fn verify_pair_reports_a_bad_hash_rather_than_a_bad_match() {
    assert!(verify_pair("anything", "not-a-phc-string").is_err());
}

#[test]
fn an_empty_x_api_key_falls_through_to_the_bearer_header() {
    let mut headers: Vec<Header> = Vec::new();
    headers.push(header("x-api-key", ""));
    headers.push(header("authorization", "Bearer fallback"));
    assert_eq!(token_from_headers(&headers).as_deref(), Some("fallback"));

    // An empty Bearer is not a token either.
    let mut headers: Vec<Header> = Vec::new();
    headers.push(header("authorization", "Bearer "));
    assert_eq!(token_from_headers(&headers), None);

    // Nor is a non-Bearer scheme.
    let mut headers: Vec<Header> = Vec::new();
    headers.push(header("authorization", "Basic abc"));
    assert_eq!(token_from_headers(&headers), None);
}

#[test]
fn reads_both_header_styles() {
    let mut headers: Vec<Header> = Vec::new();
    headers.push(header("x-api-key", "abc"));
    assert_eq!(token_from_headers(&headers).as_deref(), Some("abc"));

    let mut headers: Vec<Header> = Vec::new();
    headers.push(header("authorization", "Bearer xyz"));
    assert_eq!(token_from_headers(&headers).as_deref(), Some("xyz"));

    assert_eq!(token_from_headers(&Vec::new()), None);
}

fn header(name: &str, value: &str) -> Header {
    Header {
        name: name.to_string(),
        value: value.as_bytes().to_vec(),
    }
}

#[test]
fn header_names_do_not_depend_on_case_and_the_first_of_a_name_counts() {
    let headers = vec![header("X-API-Key", "first"), header("x-api-key", "second")];
    assert_eq!(token_from_headers(&headers).as_deref(), Some("first"));
    // The scheme of the other header does.
    let headers = vec![header("Authorization", "bearer lower")];
    assert_eq!(token_from_headers(&headers), None);
    let headers = vec![header("AUTHORIZATION", "Bearer  spaced ")];
    assert_eq!(token_from_headers(&headers).as_deref(), Some(" spaced "));
}

#[test]
fn a_header_that_is_not_printable_is_no_token() {
    let raw = |bytes: &[u8]| Header {
        name: "x-api-key".into(),
        value: bytes.to_vec(),
    };
    assert_eq!(token_from_headers(&vec![raw(b"caf\xc3\xa9")]), None);
    assert_eq!(token_from_headers(&vec![raw(b"a\x7f")]), None);
    assert_eq!(token_from_headers(&vec![raw(b"a\tb")]).as_deref(), Some("a\tb"));
    // An unreadable key does not hide the other header.
    let headers = vec![raw(b"\xff"), header("authorization", "Bearer ok")];
    assert_eq!(token_from_headers(&headers).as_deref(), Some("ok"));
}

#[test]
fn a_generated_token_is_32_bytes_in_url_safe_base64() {
    let (token, hash) = generate_token().unwrap();
    assert_eq!(token.len(), 47);
    assert!(token["uvp_".len()..]
        .chars()
        .all(|c| c.is_ascii_alphanumeric() || c == '-' || c == '_'));
    assert!(hash.starts_with("$argon2id$v=19$"));
    // Chance decides, so two of them differ, as do two hashes of one token.
    assert_ne!(token, generate_token().unwrap().0);
    assert_ne!(hash, hash_token(&token).unwrap());
}

#[test]
fn a_judgement_says_what_it_rests_on() {
    let strength = assess_strength("Kj8#mQp2vN9xL4wR7tZ").unwrap();
    assert_eq!((strength.length, strength.pool), (19, 95));
    assert_eq!(
        assess_strength("short").unwrap_err(),
        "too short: 5 characters, at least 16 are required"
    );
    assert_eq!(
        assess_strength("abababababababababab").unwrap_err(),
        "only 2 distinct characters — a repetitive key is weak however long it is"
    );
    // Length is counted in characters, not bytes.
    assert_eq!(
        assess_strength("éééééééé").unwrap_err(),
        "too short: 8 characters, at least 16 are required"
    );
}

#[test]
fn the_estimate_is_rounded_to_whole_bits() {
    let expect = |key: &str| {
        let len = key.chars().count();
        let pool: f64 = if key.bytes().all(|b| b.is_ascii_digit()) { 10.0 } else { 26.0 };
        let bits = (len as f64) * pool.log2();
        assert!(bits < 80.0);
        format!(
            "roughly {bits:.0} bits of entropy, 80 are required — make it longer or mix in more character classes"
        )
    };
    for len in 16..25 {
        let key: String = "0123456789".chars().cycle().take(len).collect();
        assert_eq!(assess_strength(&key).unwrap_err(), expect(&key), "{key}");
    }
    for len in 16..18 {
        let key: String = ('a'..='z').cycle().take(len).collect();
        assert_eq!(assess_strength(&key).unwrap_err(), expect(&key), "{key}");
    }
    assert!(assess_strength("0123456789012345678901234").is_ok());
    assert!(assess_strength("abcdefghijklmnopqr").is_ok());
    assert!(assess_strength("!\"#$%&'()*+,-./:").is_ok());
}

#[test]
fn a_failed_check_names_what_is_wrong() {
    let bad = load_hash_check("uvp_raw_token").unwrap_err();
    assert_eq!(bad.message(), "not a valid Argon2 PHC string");
    assert!(!bad.cause.is_empty());
    assert!(verify_pair("anything", "not-a-phc-string")
        .unwrap_err()
        .starts_with("bad hash: "));
}

#[test]
fn the_first_of_two_equal_tokens_answers() {
    let (token, hash) = generate_token().unwrap();
    let mut auth = Authenticator::new(&vec![
        token_config("first", hash.clone()),
        token_config("second", hash),
    ])
    .unwrap();
    assert_eq!(auth.authenticate(&token).unwrap().name, "first");
    assert_eq!(auth.authenticate(&token).unwrap().name, "first");
    assert_eq!(auth.remembers(), 1);
}

#[test]
fn no_more_is_remembered_than_there_are_tokens() {
    let (alpha, alpha_hash) = generate_token().unwrap();
    let (beta, beta_hash) = generate_token().unwrap();
    let mut auth = Authenticator::new(&vec![
        token_config("alpha", alpha_hash),
        token_config("beta", beta_hash),
    ])
    .unwrap();
    for presented in [&alpha, &beta, &alpha, &beta] {
        assert!(auth.authenticate(presented).is_some());
    }
    assert!(auth.authenticate("uvp_unknown").is_none());
    assert_eq!(auth.remembers(), 2);
}

/// A hash that asks for more lanes than there is memory for.
const MANY_LANES: &str =
    "$argon2id$v=19$m=19456,t=2,p=536870912$c29tZXNhbHR2YWx1ZQ$aGFzaHZhbHVlaGVyZWFiY2RlZmdoaWprbG1ub3A";

#[test]
fn a_hash_that_asks_for_too_much_matches_nothing() {
    assert_eq!(verify_pair("uvp_anything", MANY_LANES), Ok(false));
    let (token, hash) = generate_token().unwrap();
    let mut auth = Authenticator::new(&vec![
        token_config("vast", MANY_LANES.into()),
        token_config("plain", hash),
    ])
    .unwrap();
    assert_eq!(auth.authenticate(&token).unwrap().name, "plain");
    assert!(auth.authenticate("uvp_anything").is_none());
}

#[test]
fn checks_made_ahead_are_taken_over() {
    let (token, hash) = generate_token().unwrap();
    let mut auth = Authenticator::new(&vec![token_config("only", hash)]).unwrap();
    let known = auth.challenge(&token).answer();
    assert_eq!(auth.authenticate_with(&token, &known).unwrap().name, "only");
    assert_eq!(auth.remembers(), 1);

    let wrong = auth.challenge("uvp_wrong").answer();
    assert!(auth.authenticate_with("uvp_wrong", &wrong).is_none());
    // They say nothing of another value, nor of another set of tokens.
    assert_eq!(auth.authenticate_with(&token, &wrong).unwrap().name, "only");
    let (other, other_hash) = generate_token().unwrap();
    let mut reloaded = Authenticator::new(&vec![token_config("other", other_hash)]).unwrap();
    assert!(reloaded.authenticate_with(&token, &known).is_none());
    assert_eq!(reloaded.authenticate_with(&other, &known).unwrap().name, "other");
    assert_eq!(
        reloaded.authenticate_with(&other, &Verdicts::none()).unwrap().name,
        "other"
    );
    let nothing = Challenge::idle("uvp_wrong").answer();
    assert!(reloaded.authenticate_with("uvp_wrong", &nothing).is_none());
}

#[test]
fn an_earlier_call_changes_no_later_answer() {
    let (alpha, alpha_hash) = generate_token().unwrap();
    let (beta, beta_hash) = generate_token().unwrap();
    let tokens = vec![token_config("alpha", alpha_hash), token_config("beta", beta_hash)];
    let mut used = Authenticator::new(&tokens).unwrap();
    for presented in [&alpha, &beta, "uvp_nope", &alpha, "", &beta] {
        let fresh = Authenticator::new(&tokens)
            .unwrap()
            .authenticate(presented)
            .map(|t| t.name);
        assert_eq!(used.authenticate(presented).map(|t| t.name), fresh);
    }
}

#[test]
fn a_token_is_its_bytes_in_base64_behind_a_prefix() {
    let bytes: Vec<u8> = (0..32).collect();
    assert_eq!(mint(&bytes), "uvp_AAECAwQFBgcICQoLDA0ODxAREhMUFRYXGBkaGxwdHh8");
    assert_eq!(mint(&vec![0; 32]), format!("uvp_{}", "A".repeat(43)));
    // The alphabet is the one for URLs, and there is no padding.
    assert_eq!(mint(&vec![0xff; 32]), format!("uvp_{}8", "_".repeat(42)));
}

#[test]
fn a_hash_depends_on_the_token_and_the_salt_alone() {
    let salt = "c29tZXNhbHR2YWx1ZQ";
    let hash = hash_token_with("uvp_one", salt).unwrap();
    assert!(hash.starts_with("$argon2id$v=19$"), "{hash}");
    assert!(hash.contains(salt));
    assert_eq!(hash_token_with("uvp_one", salt).unwrap(), hash);
    assert_ne!(hash_token_with("uvp_two", salt).unwrap(), hash);
    assert_eq!(verify_pair("uvp_one", &hash), Ok(true));
    assert_eq!(verify_pair("uvp_two", &hash), Ok(false));
    let why = hash_token_with("uvp_one", "no salt").unwrap_err();
    assert!(why.starts_with("failed to hash token: "), "{why}");
}
