use unifi_voucher_proxy::json::Json;
use unifi_voucher_proxy::model::{as_int, as_str, list_field, Site, Voucher};

fn doc(text: &str) -> Json {
    Json::from_text(text).unwrap()
}

#[test]
fn reads_sites_in_every_shape_the_api_uses() {
    let body = doc(r#"{"data": [ {"id": "a", "name": "Default"}, {"_id": "b", "desc": "Branch"}, {"id": "c"} ]}"#);
    let sites = Site::list(&body);
    assert_eq!(sites.len(), 3);
    assert_eq!(sites[1].id, "b");
    assert_eq!(sites[1].name, "Branch");
    // Nameless sites fall back to their id rather than vanishing.
    assert_eq!(sites[2].name, "c");
}

#[test]
fn reads_vouchers_from_both_envelopes() {
    let paged = doc(r#"{"data": [{"id": "v1", "code": "1234567890"}]}"#);
    let created = doc(r#"{"vouchers": [{"id": "v2", "code": "0987654321"}]}"#);
    assert_eq!(Voucher::list(&paged)[0].id, "v1");
    assert_eq!(Voucher::list(&created)[0].id, "v2");
}

#[test]
fn tolerates_missing_usage_fields() {
    let v = Voucher::from_json(&doc(r#"{"id": "v1", "code": "1"}"#)).unwrap();
    assert_eq!(v.authorized_guest_count, None);
    assert!(!v.expired);
}

#[test]
fn skips_entries_without_an_id_instead_of_failing_the_response() {
    let body = doc(r#"{"data": [{"code": "orphan"}, {"id": "ok", "code": "1"}]}"#);
    let vouchers = Voucher::list(&body);
    assert_eq!(vouchers.len(), 1);
    assert_eq!(vouchers[0].id, "ok");
}

#[test]
fn accepts_a_bare_array_as_well_as_an_envelope() {
    let bare = doc(r#"[{"id": "v1", "code": "1"}]"#);
    assert_eq!(Voucher::list(&bare).len(), 1);
}

#[test]
fn falls_back_to_the_first_list_valued_field() {
    // Some firmwares wrap the list under a key we have not seen before;
    // taking the first array is better than returning nothing.
    let odd = doc(r#"{"meta": {"rc": "ok"}, "someOtherKey": [{"id": "v1"}]}"#);
    assert_eq!(Voucher::list(&odd).len(), 1);
}

#[test]
fn returns_nothing_for_shapes_that_hold_no_list() {
    assert!(Voucher::list(&doc(r#""just a string""#)).is_empty());
    assert!(Voucher::list(&doc(r#"{"meta": {"rc": "ok"}}"#)).is_empty());
    assert!(Voucher::list(&doc(r#"null"#)).is_empty());
}

#[test]
fn reads_numeric_ids() {
    // Ids arrive as numbers on some endpoints.
    let v = Voucher::from_json(&doc(r#"{"id": 42, "code": 12345}"#)).unwrap();
    assert_eq!(v.id, "42");
    assert_eq!(v.code, "12345");
}

#[test]
fn treats_an_empty_string_as_absent() {
    let v = Voucher::from_json(&doc(r#"{"id": "v", "name": ""}"#)).unwrap();
    assert_eq!(v.name, None);
}

#[test]
fn skips_sites_without_an_id() {
    assert!(Site::from_json(&doc(r#"{"name": "nameless"}"#)).is_none());
}

#[test]
fn accepts_numeric_strings_for_int_fields() {
    let v = Voucher::from_json(&doc(r#"{"id": "v", "timeLimitMinutes": "480"}"#)).unwrap();
    assert_eq!(v.time_limit_minutes, Some(480));
}

#[test]
fn every_field_of_a_voucher_is_read() {
    let v = Voucher::from_json(&doc(
        r#"{"_id": "v", "code": "1", "name": "n", "timeLimitMinutes": 60, "authorizedGuestLimit": 2,
            "authorizedGuestCount": 1, "expired": true, "expiresAt": "e", "createdAt": "c",
            "dataUsageLimitMBytes": 5, "rxRateLimitKbps": 6, "txRateLimitKbps": "-7"}"#,
    ))
    .unwrap();
    assert_eq!(v.id, "v");
    assert_eq!(v.code, "1");
    assert_eq!(v.name.as_deref(), Some("n"));
    assert_eq!(v.time_limit_minutes, Some(60));
    assert_eq!(v.authorized_guest_limit, Some(2));
    assert_eq!(v.authorized_guest_count, Some(1));
    assert!(v.expired);
    assert_eq!(v.expires_at.as_deref(), Some("e"));
    assert_eq!(v.created_at.as_deref(), Some("c"));
    assert_eq!(v.data_usage_limit_m_bytes, Some(5));
    assert_eq!(v.rx_rate_limit_kbps, Some(6));
    assert_eq!(v.tx_rate_limit_kbps, Some(-7));
}

#[test]
fn a_site_is_named_by_the_first_name_it_has() {
    let named = |text: &str| Site::from_json(&doc(text)).unwrap().name;
    assert_eq!(named(r#"{"id": "i", "name": "n", "internalReference": "r", "desc": "d"}"#), "n");
    assert_eq!(named(r#"{"id": "i", "internalReference": "r", "desc": "d"}"#), "r");
    assert_eq!(named(r#"{"id": "i", "name": "", "desc": "d"}"#), "d");
    assert_eq!(named(r#"{"id": "i", "name": null}"#), "i");
}

#[test]
fn numbers_are_read_as_texts_and_texts_as_numbers() {
    let read = |text: &str| as_str(Some(&doc(text)));
    assert_eq!(read("1.5").as_deref(), Some("1.5"));
    assert_eq!(read("-3").as_deref(), Some("-3"));
    assert_eq!(read("18446744073709551615").as_deref(), Some("18446744073709551615"));
    assert_eq!(read("true"), None);
    assert_eq!(as_str(None), None);
    let count = |text: &str| as_int(Some(&doc(text)));
    assert_eq!(count("9223372036854775807"), Some(i64::MAX));
    assert_eq!(count("9223372036854775808"), None);
    assert_eq!(count("-9223372036854775808"), Some(i64::MIN));
    assert_eq!(count("1.5"), None);
    assert_eq!(count("\"+12\""), Some(12));
    assert_eq!(count("\"-0012\""), Some(-12));
    assert_eq!(count("\"12 \""), None);
    assert_eq!(count("\"9223372036854775808\""), None);
    assert_eq!(count("\"-9223372036854775808\""), Some(i64::MIN));
    assert_eq!(count("\"\""), None);
    assert_eq!(count("\"-\""), None);
    assert_eq!(as_int(None), None);
}

#[test]
fn the_known_envelopes_come_before_any_other_list() {
    let ids = |text: &str| -> Vec<String> {
        Voucher::list(&doc(text)).into_iter().map(|v| v.id).collect()
    };
    assert_eq!(ids(r#"{"a": [{"id": "x"}], "data": [{"id": "y"}], "vouchers": [{"id": "z"}]}"#), ["y"]);
    assert_eq!(ids(r#"{"a": [{"id": "x"}], "data": 1, "vouchers": [{"id": "z"}]}"#), ["z"]);
    assert_eq!(ids(r#"{"b": [{"id": "x"}], "a": [{"id": "y"}]}"#), ["y"]);
    assert_eq!(list_field(&doc("[1, 2, 3]")).len(), 3);
}
