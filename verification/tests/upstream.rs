use unifi_voucher_proxy::config::{ControllerConfig, TlsConfig};
use unifi_voucher_proxy::error::ProxyError;
use unifi_voucher_proxy::json::Json;
use unifi_voucher_proxy::secret::Secret;
use unifi_voucher_proxy::tls::TlsMode;
use unifi_voucher_proxy::upstream::{
    clamp, judge, normalize_host, receive, short_reqwest_error, validate_id, Method, Reply, Upstream,
};

const API: &str = "/proxy/network/integration/v1";

fn upstream_for(host: &str) -> Upstream {
    match Upstream::new(&ControllerConfig {
        host: host.to_string(),
        api_key: Secret::new("upstream-key"),
        tls: TlsConfig::default(),
    }) {
        Ok(upstream) => upstream,
        Err(e) => panic!("{}", e.message()),
    }
}

fn answered(status: u16, text: &str) -> Reply {
    Reply::Answered {
        status,
        text: text.to_string(),
    }
}

fn failed(chain: &[&str], timeout: bool, connect: bool) -> Reply {
    Reply::Failed {
        chain: chain.iter().map(|s| s.to_string()).collect(),
        timeout,
        connect,
    }
}

#[test]
fn normalizes_hosts() {
    assert_eq!(normalize_host("192.168.1.1"), "https://192.168.1.1");
    assert_eq!(normalize_host("https://10.0.0.1/"), "https://10.0.0.1");
    assert_eq!(
        normalize_host("  unifi.lan:8443 "),
        "https://unifi.lan:8443"
    );
    assert_eq!(normalize_host("http://10.0.0.1"), "http://10.0.0.1");
}

#[test]
fn rejects_path_traversal_in_ids() {
    assert!(validate_id("../../../api/self", "site id").is_err());
    assert!(validate_id("abc/def", "site id").is_err());
    assert!(validate_id("abc?limit=1", "site id").is_err());
    assert!(validate_id("", "site id").is_err());
    assert!(validate_id(&"a".repeat(200), "site id").is_err());
    assert!(validate_id("default", "site id").is_ok());
    assert!(validate_id("66c2f1e9-4b3a-4f21-9d0e-1a2b3c4d5e6f", "site id").is_ok());
}

#[test]
fn a_refused_id_says_what_and_why() {
    let message = |value: &str, what: &str| match validate_id(value, what) {
        Err(ProxyError::BadRequest(m)) => m,
        other => panic!("{other:?}"),
    };
    assert_eq!(message("", "site id"), "site id has an implausible length");
    assert_eq!(message(&"a".repeat(129), "voucher id"), "voucher id has an implausible length");
    // The length is counted in bytes.
    assert_eq!(message(&"é".repeat(65), "site id"), "site id has an implausible length");
    assert_eq!(message("a b", "site id"), "site id contains characters that are not allowed");
    assert_eq!(message("é", "site id"), "site id contains characters that are not allowed");
    assert_eq!(validate_id(&"a".repeat(128), "site id").unwrap(), "a".repeat(128));
}

#[test]
fn every_call_carries_the_key_and_goes_to_the_controller() {
    let upstream = upstream_for("10.0.0.1/");
    let base = format!("https://10.0.0.1{API}");
    let sites = upstream.list_sites();
    assert_eq!(sites.method(), Method::Get);
    assert_eq!(sites.url(), format!("{base}/sites"));
    assert_eq!(sites.api_key().expose(), "upstream-key");
    assert!(sites.body().is_none());

    let list = upstream.list_vouchers("default").unwrap();
    assert_eq!(list.method(), Method::Get);
    assert_eq!(list.url(), format!("{base}/sites/default/hotspot/vouchers?limit=1000"));

    let body = Json::from_text(r#"{"name": "x"}"#).unwrap();
    let create = upstream.create_vouchers("default", body).unwrap();
    assert_eq!(create.method(), Method::Post);
    assert_eq!(create.url(), format!("{base}/sites/default/hotspot/vouchers"));
    assert_eq!(create.body().unwrap().to_text(), r#"{"name":"x"}"#);
    assert_eq!(create.api_key().expose(), "upstream-key");

    assert!(upstream.list_vouchers("..").is_err());
    assert!(upstream.create_vouchers("a/b", Json::Null).is_err());
    assert!(upstream.delete_voucher("default", "a?b").is_err());
    match upstream.delete_voucher("..", "..") {
        Err(e) => assert!(e.message().starts_with("site id ")),
        Ok(_) => panic!("neither is an id"),
    }
}

#[test]
fn the_certificate_is_checked_as_configured() {
    assert!(matches!(upstream_for("h").tls(), TlsMode::WebPki));
}

#[test]
fn revoking_a_voucher_reaches_the_right_path() {
    let call = upstream_for("http://127.0.0.1:9")
        .delete_voucher("default", "abc123")
        .unwrap();
    assert_eq!(call.method(), Method::Delete);
    assert_eq!(
        call.url(),
        format!("http://127.0.0.1:9{API}/sites/default/hotspot/vouchers/abc123")
    );
    assert_eq!(call.api_key().expose(), "upstream-key");
}

#[test]
fn an_empty_success_body_is_not_an_error() {
    // DELETE commonly answers 200 with no body at all.
    let (result, warning) = receive(answered(204, ""));
    assert!(matches!(result, Ok(Json::Null)));
    assert!(warning.is_none());
    assert!(matches!(receive(answered(200, " \n")).0, Ok(Json::Null)));
}

#[test]
fn a_non_json_success_body_is_not_an_error_either() {
    assert!(matches!(receive(answered(200, "<html>oops</html>")).0, Ok(Json::Null)));
}

#[test]
fn a_rejected_key_is_reported_as_the_proxys_problem_not_the_clients() {
    // The client's own token was fine; it is the proxy's upstream key that the
    // controller refused, and the message should say so.
    let (result, warning) = receive(answered(401, r#"{"message": "key k-123 is bad"}"#));
    let err = result.unwrap_err();
    assert!(
        err.message().contains("rejected the proxy's API key"),
        "{}",
        err.message()
    );
    assert_eq!(err.status(), 401);
    // The controller's own words go to the operator.
    let warning = warning.unwrap();
    assert_eq!(warning.status, 401);
    assert_eq!(warning.note, "the controller rejected the proxy's API key");
    assert!(warning.body.contains("k-123"));
    assert_eq!(receive(answered(403, "{}")).0.unwrap_err().status(), 403);
}

#[test]
fn an_unexplained_upstream_failure_still_names_its_status() {
    let (result, warning) = receive(answered(503, ""));
    let err = result.unwrap_err();
    assert!(err.message().contains("503"), "{}", err.message());
    assert_eq!(err.status(), 503);
    assert_eq!(warning.unwrap().note, "the controller returned a server error");
}

#[test]
fn the_controllers_own_message_is_preferred_when_it_gives_one() {
    let (result, warning) = receive(answered(400, r#"{"message": "count must be positive"}"#));
    let err = result.unwrap_err();
    assert!(err.message().contains("count must be positive"));
    assert!(warning.is_none());
    let bare = receive(answered(404, "gone")).0.unwrap_err();
    assert_eq!(bare.message(), "controller request failed (HTTP 404)");
    let odd = receive(answered(404, r#"{"message": 7}"#)).0.unwrap_err();
    assert_eq!(odd.message(), "controller request failed (HTTP 404)");
}

#[test]
fn a_server_error_says_nothing_of_its_body() {
    let a = receive(answered(500, r#"{"message": "trace at /usr/lib"}"#)).0.unwrap_err();
    let b = receive(answered(500, "<html>")).0.unwrap_err();
    assert_eq!(a.message(), "the controller reported an error (HTTP 500)");
    assert_eq!(a.message(), b.message());
}

#[test]
fn a_slow_controller_times_out_rather_than_hanging_the_client() {
    let err = receive(failed(&["error sending request", "operation timed out"], true, false))
        .0
        .unwrap_err();
    assert!(err.message().contains("timed out"), "{}", err.message());
}

#[test]
fn an_unintelligible_reply_is_reported_without_guessing() {
    let err = receive(failed(&["error sending request", "invalid HTTP version parsed"], false, false))
        .0
        .unwrap_err();
    assert_eq!(err.status(), 502);
    assert!(err.message().contains("request failed"), "{}", err.message());
}

#[test]
fn a_redirect_is_not_followed() {
    // Following one would let a compromised console bounce the API key to any
    // host it likes.
    let err = receive(answered(302, "")).0.unwrap_err();
    assert_eq!(err.status(), 302);
}

#[test]
fn a_plain_http_host_is_left_alone() {
    // `http://` is preserved rather than upgraded, so a proxy talking to a
    // controller over a trusted local link still works.
    assert_eq!(
        upstream_for("http://10.0.0.1").list_sites().url(),
        format!("http://10.0.0.1{API}/sites")
    );
    assert!(receive(answered(200, r#"{"data": []}"#)).0.is_ok());
}

#[test]
fn an_unreachable_controller_is_reported_as_such() {
    let err = receive(failed(&["error sending request", "connection refused"], false, true))
        .0
        .unwrap_err();
    assert_eq!(err.status(), 502);
    assert!(err.message().contains("Cannot reach") || err.message().contains("cannot reach"));
}

#[test]
fn an_untrusted_certificate_says_how_to_fix_it() {
    for cause in ["invalid peer certificate: Expired", "UnknownIssuer"] {
        let err = receive(failed(&["error sending request", cause], false, true)).0.unwrap_err();
        assert!(
            err.message().contains("fetch-fingerprint"),
            "the error should point at the fix, got: {}",
            err.message()
        );
    }
}

#[test]
fn failures_are_told_apart_in_order() {
    let short = |chain: &[&str], timeout: bool, connect: bool| {
        let chain: Vec<String> = chain.iter().map(|s| s.to_string()).collect();
        short_reqwest_error(&chain, timeout, connect)
    };
    let mismatch = "certificate fingerprint mismatch — the controller is not the one this proxy is pinned to";
    // A mismatch is named however deep it lies and however it is classed.
    assert_eq!(short(&["a", "b", "x: fingerprint mismatch: y"], true, true), mismatch);
    assert_eq!(short(&["UnknownIssuer"], true, true), "timed out");
    assert_eq!(short(&["connect"], false, true), "connection refused or host unreachable");
    assert_eq!(short(&["odd"], false, false), "request failed");
}

#[test]
fn an_echo_is_bounded_and_cleaned() {
    assert_eq!(clamp("  a\nb\u{7}c  "), "abc");
    assert_eq!(clamp("a\u{1b}[31mred\u{9b}0m"), "a[31mred0m");
    // What is dropped does not count against the bound.
    assert_eq!(clamp(&"x\r\n".repeat(200)), "x".repeat(200));
    assert_eq!(clamp(&"x".repeat(200)), "x".repeat(200));
    assert_eq!(clamp(&"é".repeat(201)), format!("{}…", "é".repeat(200)));
    assert_eq!(clamp("\n\n"), "");
}

#[test]
fn a_status_that_is_none_is_a_bad_gateway() {
    let status = |s: u16| judge(s, Json::Null).unwrap_err().status();
    assert_eq!(status(99), 502);
    assert_eq!(status(1000), 502);
    assert_eq!(status(999), 999);
    assert_eq!(status(100), 100);
    assert!(judge(299, Json::Null).is_ok());
    assert_eq!(status(300), 300);
    assert_eq!(status(199), 199);
}
