use unifi_voucher_proxy::error::ProxyError;
use unifi_voucher_proxy::json::Json;

fn all_variants() -> Vec<ProxyError> {
    vec![
        ProxyError::Unauthorized,
        ProxyError::TokenExpired("2026-01-01T00:00:00Z".into()),
        ProxyError::Forbidden("nope".into()),
        ProxyError::NotAllowed,
        ProxyError::BadRequest("bad".into()),
        ProxyError::RateLimited,
        ProxyError::Upstream {
            status: 409,
            message: "conflict".into(),
        },
        ProxyError::UpstreamUnreachable("timed out".into()),
        ProxyError::Internal("config path /etc/secrets".into()),
    ]
}

#[test]
fn every_variant_maps_to_a_status_and_a_kind() {
    let expected = [
        (401, "unauthorized"),
        (401, "token_expired"),
        (403, "forbidden"),
        (403, "not_allowed"),
        (400, "bad_request"),
        (429, "rate_limited"),
        (409, "upstream_error"),
        (502, "upstream_unreachable"),
        (500, "internal"),
    ];
    for (err, (status, kind)) in all_variants().into_iter().zip(expected) {
        assert_eq!(err.status(), status, "{}", err.message());
        assert_eq!(err.kind(), kind, "{}", err.message());
    }
}

#[test]
fn every_variant_has_its_message() {
    let expected = [
        "missing or invalid API key",
        "this token expired on 2026-01-01T00:00:00Z",
        "nope",
        "this proxy only forwards hotspot voucher operations",
        "bad",
        "rate limit exceeded — slow down",
        "conflict",
        "cannot reach the UniFi controller: timed out",
        "internal proxy error",
    ];
    for (err, message) in all_variants().into_iter().zip(expected) {
        assert_eq!(err.message(), message);
    }
}

#[test]
fn errors_render_in_the_envelope_unifi_clients_already_parse() {
    let res = ProxyError::Forbidden("token may not do that".into()).into_response();
    assert_eq!(res.status, 403);
    assert_eq!(res.body.to_text(), r#"{"message":"token may not do that"}"#);
    match res.body.get("message") {
        Some(Json::Text(m)) => assert_eq!(m, "token may not do that"),
        other => panic!("{other:?}"),
    }
}

#[test]
fn internal_errors_do_not_tell_the_client_what_went_wrong() {
    let res = ProxyError::Internal("api_key=hunter2 at /etc/secrets".into()).into_response();
    assert_eq!(res.status, 500);
    let text = res.body.to_text();
    assert!(text.contains("internal proxy error"));
    assert!(!text.contains("hunter2") && !text.contains("/etc/secrets"));
}
