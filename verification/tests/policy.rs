use unifi_voucher_proxy::error::ProxyError;
use unifi_voucher_proxy::json::{Json, JsonNumber};
use unifi_voucher_proxy::policy::{Ceilings, CreateVoucherRequest};

fn doc(text: &str) -> Json {
    Json::from_text(text).unwrap()
}

fn ceilings() -> Ceilings {
    Ceilings {
        max_vouchers: 10,
        max_validity_minutes: 1440,
    }
}

fn valid() -> Json {
    doc(r#"{"name": "Guest", "count": 2, "timeLimitMinutes": 480, "authorizedGuestLimit": 1}"#)
}

/// `body` with one member set, as an object that was read from text has it.
fn with(body: &Json, field: &str, value: &str) -> Json {
    let mut tree: serde_json::Value = serde_json::from_str(&body.to_text()).unwrap();
    tree[field] = serde_json::from_str(value).unwrap();
    doc(&tree.to_string())
}

fn text(body: &Json, field: &str) -> String {
    match body.get(field) {
        Some(Json::Text(s)) => s.clone(),
        other => panic!("{other:?}"),
    }
}

fn integer(body: &Json, field: &str) -> u64 {
    match body.get(field) {
        Some(Json::Number(JsonNumber::Unsigned(n))) => *n,
        other => panic!("{other:?}"),
    }
}

/// Why a body is not acceptable.
fn reason(body: &Json) -> String {
    match CreateVoucherRequest::parse(body) {
        Err(ProxyError::BadRequest(m)) => m
            .strip_prefix("voucher request is not acceptable: ")
            .unwrap()
            .to_string(),
        other => panic!("{other:?}"),
    }
}

#[test]
fn accepts_a_normal_request() {
    let req = CreateVoucherRequest::parse(&valid()).unwrap();
    req.enforce(ceilings()).unwrap();
    let body = req.to_upstream_body().unwrap();
    assert_eq!(text(&body, "name"), "Guest");
    assert_eq!(integer(&body, "count"), 2);
    assert_eq!(integer(&body, "timeLimitMinutes"), 480);
    // Absent optionals stay absent rather than becoming null.
    assert!(body.get("rxRateLimitKbps").is_none());
}

#[test]
fn rejects_unknown_fields() {
    let body = with(&valid(), "somethingElse", "\"nope\"");
    assert!(CreateVoucherRequest::parse(&body).is_err());
}

#[test]
fn enforces_the_count_ceiling() {
    let body = with(&valid(), "count", "50");
    let err = CreateVoucherRequest::parse(&body)
        .unwrap()
        .enforce(ceilings())
        .unwrap_err();
    assert_eq!(err.status(), 403);
}

#[test]
fn enforces_the_validity_ceiling() {
    let body = with(&valid(), "timeLimitMinutes", "100000");
    assert!(CreateVoucherRequest::parse(&body)
        .unwrap()
        .enforce(ceilings())
        .is_err());
}

#[test]
fn rejects_an_overlong_name() {
    let body = with(&valid(), "name", &format!("\"{}\"", "x".repeat(200)));
    assert!(CreateVoucherRequest::parse(&body)
        .unwrap()
        .enforce(ceilings())
        .is_err());
}

#[test]
fn caps_validity_at_the_api_maximum_even_when_configured_higher() {
    // A generous config must not let a client ask for something the
    // controller will reject with an opaque 400.
    let generous = Ceilings {
        max_vouchers: 10,
        max_validity_minutes: u64::MAX,
    };
    let body = with(&valid(), "timeLimitMinutes", "2000000");
    let err = CreateVoucherRequest::parse(&body)
        .unwrap()
        .enforce(generous)
        .unwrap_err();
    assert!(err.message().contains("1000000"), "{}", err.message());
}

#[test]
fn carries_optional_rate_limits_through() {
    let body = doc(
        r#"{
            "name": "Guest", "count": 1, "timeLimitMinutes": 60,
            "dataUsageLimitMBytes": 500, "rxRateLimitKbps": 1000, "txRateLimitKbps": 2000
        }"#,
    );
    let req = CreateVoucherRequest::parse(&body).unwrap();
    req.enforce(ceilings()).unwrap();
    let out = req.to_upstream_body().unwrap();
    assert_eq!(integer(&out, "dataUsageLimitMBytes"), 500);
    assert_eq!(integer(&out, "rxRateLimitKbps"), 1000);
    assert_eq!(integer(&out, "txRateLimitKbps"), 2000);
}

#[test]
fn rejects_an_absurd_guest_limit() {
    let body = with(&valid(), "authorizedGuestLimit", "999999");
    assert!(CreateVoucherRequest::parse(&body)
        .unwrap()
        .enforce(ceilings())
        .is_err());
}

#[test]
fn rejects_degenerate_values() {
    for (field, value) in [
        ("count", "0"),
        ("timeLimitMinutes", "0"),
        ("authorizedGuestLimit", "0"),
        ("name", "\"   \""),
    ] {
        let body = with(&valid(), field, value);
        assert!(
            CreateVoucherRequest::parse(&body)
                .unwrap()
                .enforce(ceilings())
                .is_err(),
            "{field} should have been rejected"
        );
    }
}

#[test]
fn each_refusal_says_which_rule_it_is_about() {
    let refused = |field: &str, value: &str| {
        let err = CreateVoucherRequest::parse(&with(&valid(), field, value))
            .unwrap()
            .enforce(ceilings())
            .unwrap_err();
        (err.status(), err.message())
    };
    assert_eq!(refused("name", "\" \""), (400, "voucher name must not be empty".into()));
    let long = format!("\"{}\"", "é".repeat(129));
    assert_eq!(refused("name", &long), (400, "voucher name is too long".into()));
    assert_eq!(refused("count", "0"), (400, "count must be at least 1".into()));
    assert_eq!(
        refused("count", "11"),
        (403, "this token may create at most 10 voucher(s) per request (asked for 11)".into())
    );
    assert_eq!(
        refused("timeLimitMinutes", "0"),
        (400, "timeLimitMinutes must be at least 1".into())
    );
    assert_eq!(
        refused("timeLimitMinutes", "1441"),
        (403, "this token may issue vouchers valid for at most 1440 minute(s) (asked for 1441)".into())
    );
    assert_eq!(
        refused("authorizedGuestLimit", "10001"),
        (400, "authorizedGuestLimit is out of range".into())
    );
}

#[test]
fn the_ceilings_themselves_are_allowed() {
    let body = doc(&format!(
        r#"{{"name": "{}", "count": 10, "timeLimitMinutes": 1440, "authorizedGuestLimit": 10000}}"#,
        "é".repeat(128)
    ));
    let request = CreateVoucherRequest::parse(&body).unwrap();
    assert!(request.enforce(ceilings()).is_ok());
    // What tight ceilings allow, looser ones do too.
    let loose = Ceilings {
        max_vouchers: u32::MAX,
        max_validity_minutes: u64::MAX,
    };
    assert!(request.enforce(loose).is_ok());
}

#[test]
fn fields_that_may_be_left_out_stand_for_their_defaults() {
    let request = CreateVoucherRequest::parse(&doc(
        r#"{"name": "Guest", "timeLimitMinutes": 60, "rxRateLimitKbps": null}"#,
    ))
    .unwrap();
    assert_eq!(request.count, 1);
    assert_eq!(request.authorized_guest_limit, 1);
    assert_eq!(request.data_usage_limit_m_bytes, None);
    assert_eq!(request.rx_rate_limit_kbps, None);
    assert_eq!(request.tx_rate_limit_kbps, None);
}

#[test]
fn what_goes_upstream_is_canonical_and_reads_back() {
    let request = CreateVoucherRequest {
        name: "Gäste \"Lobby\"".into(),
        count: 3,
        time_limit_minutes: 480,
        authorized_guest_limit: 2,
        data_usage_limit_m_bytes: Some(1024),
        rx_rate_limit_kbps: None,
        tx_rate_limit_kbps: Some(600),
    };
    let body = request.to_upstream_body().unwrap();
    assert_eq!(
        body.to_text(),
        r#"{"authorizedGuestLimit":2,"count":3,"dataUsageLimitMBytes":1024,"name":"Gäste \"Lobby\"","timeLimitMinutes":480,"txRateLimitKbps":600}"#
    );
    let back = CreateVoucherRequest::parse(&doc(&body.to_text())).unwrap();
    assert_eq!(back.name, request.name);
    assert_eq!(back.count, 3);
    assert_eq!(back.time_limit_minutes, 480);
    assert_eq!(back.authorized_guest_limit, 2);
    assert_eq!(back.data_usage_limit_m_bytes, Some(1024));
    assert_eq!(back.rx_rate_limit_kbps, None);
    assert_eq!(back.tx_rate_limit_kbps, Some(600));
}

#[test]
fn a_value_of_the_wrong_type_is_described() {
    // The wording is that of the JSON library for the same type.
    for value in [
        "null", "true", "false", "-1", "4294967296", "1.5", "1e300", "\"a\\n\\\"b\\u0007\"", "[]", "{}",
    ] {
        let v: serde_json::Value = serde_json::from_str(value).unwrap();
        let short = serde_json::from_value::<u32>(v.clone()).unwrap_err().to_string();
        assert_eq!(reason(&with(&valid(), "count", value)), short);
        assert_eq!(reason(&with(&valid(), "authorizedGuestLimit", value)), short);
        if value != "4294967296" {
            let long = serde_json::from_value::<u64>(v.clone()).unwrap_err().to_string();
            assert_eq!(reason(&with(&valid(), "timeLimitMinutes", value)), long);
            if value != "null" {
                assert_eq!(reason(&with(&valid(), "dataUsageLimitMBytes", value)), long);
                assert_eq!(reason(&with(&valid(), "txRateLimitKbps", value)), long);
            }
        }
        if !value.starts_with('"') {
            let string = serde_json::from_value::<String>(v).unwrap_err().to_string();
            assert_eq!(reason(&with(&valid(), "name", value)), string);
        }
    }
}

#[test]
fn a_request_that_is_not_complete_or_not_known_says_so() {
    assert_eq!(reason(&doc("{}")), "missing field `name`");
    assert_eq!(reason(&doc(r#"{"name": "x"}"#)), "missing field `timeLimitMinutes`");
    assert_eq!(
        reason(&with(&valid(), "zzz", "1")),
        "unknown field `zzz`, expected one of `name`, `count`, `timeLimitMinutes`, `authorizedGuestLimit`, `dataUsageLimitMBytes`, `rxRateLimitKbps`, `txRateLimitKbps`"
    );
    // Members are read in their order: the unknown one stands first here.
    assert!(reason(&with(&with(&valid(), "aaa", "1"), "count", "\"x\"")).starts_with("unknown field `aaa`"));
    assert_eq!(
        reason(&doc("\"just a string\"")),
        "invalid type: string \"just a string\", expected struct CreateVoucherRequest"
    );
    assert_eq!(
        reason(&doc("null")),
        "invalid type: null, expected struct CreateVoucherRequest"
    );
    let twice = Json::Object(vec![
        ("count".into(), Json::integer(1)),
        ("count".into(), Json::integer(2)),
    ]);
    assert_eq!(reason(&twice), "duplicate field `count`");
}

#[test]
fn a_list_is_read_field_by_field() {
    let request =
        CreateVoucherRequest::parse(&doc(r#"["Guest", 2, 480, 3, null, 5, 6]"#)).unwrap();
    assert_eq!(request.name, "Guest");
    assert_eq!(request.count, 2);
    assert_eq!(request.time_limit_minutes, 480);
    assert_eq!(request.authorized_guest_limit, 3);
    assert_eq!(request.data_usage_limit_m_bytes, None);
    assert_eq!(request.rx_rate_limit_kbps, Some(5));
    assert_eq!(request.tx_rate_limit_kbps, Some(6));
    let short = |n: u32| format!("invalid length {n}, expected struct CreateVoucherRequest with 7 elements");
    assert_eq!(reason(&doc("[]")), short(0));
    assert_eq!(reason(&doc(r#"["Guest"]"#)), short(2));
    assert_eq!(reason(&doc(r#"["Guest", 1, 60]"#)), short(4));
    assert_eq!(reason(&doc(r#"["Guest", 1, 60, 1, 2]"#)), short(5));
    assert_eq!(reason(&doc(r#"["Guest", 1, 60, 1, 2, 3]"#)), short(6));
    assert_eq!(
        reason(&doc(r#"["Guest", 1, 60, 1, 2, 3, 4, 5]"#)),
        "invalid length 8, expected fewer elements in array"
    );
    assert_eq!(
        reason(&doc(r#"["Guest", "x", 60]"#)),
        "invalid type: string \"x\", expected u32"
    );
}
