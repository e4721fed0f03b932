use unifi_voucher_proxy::audit::{rejected, rejected_token, AuditRecord};

#[test]
fn emits_records_with_and_without_optional_fields() {
    let full = AuditRecord {
        token: "phone".into(),
        action: "vouchers:create".into(),
        site: Some("default".into()),
        target: Some("v1".into()),
        count: Some(3),
        status: 200,
        outcome: "ok".into(),
        elapsed: 12_000_000,
    }
    .emit();
    assert_eq!(full.token, "phone");
    assert_eq!(full.action, "vouchers:create");
    assert_eq!(full.site, "default");
    assert_eq!(full.target_id, "v1");
    assert_eq!(full.count, 3);
    assert_eq!(full.status, 200);
    assert_eq!(full.outcome, "ok");
    assert_eq!(full.elapsed_ms, 12);

    let bare = AuditRecord {
        token: "phone".into(),
        action: "sites:list".into(),
        site: None,
        target: None,
        count: None,
        status: 403,
        outcome: "forbidden".into(),
        elapsed: 0,
    }
    .emit();
    assert_eq!(bare.site, "-");
    assert_eq!(bare.target_id, "-");
    assert_eq!(bare.count, 0);
    assert_eq!(bare.status, 403);
    assert_eq!(bare.elapsed_ms, 0);

    let entry = rejected("/some/path", "unknown_token", 401);
    assert_eq!(entry.token, "-");
    assert_eq!(entry.action, "/some/path");
    assert_eq!(entry.outcome, "unknown_token");
    assert_eq!(entry.status, 401);
}

#[test]
fn elapsed_time_is_logged_in_whole_milliseconds_of_64_bits() {
    let record = |elapsed: u128| {
        AuditRecord {
            token: "t".into(),
            action: "a".into(),
            site: None,
            target: None,
            count: None,
            status: 200,
            outcome: "ok".into(),
            elapsed,
        }
        .emit()
        .elapsed_ms
    };
    assert_eq!(record(1_999_999), 1);
    assert_eq!(record(999_999), 0);
    assert_eq!(record((u64::MAX as u128) * 1_000_000), u64::MAX);
    assert_eq!(record((u64::MAX as u128 + 6) * 1_000_000), 5);
}

#[test]
fn a_refused_token_is_logged_under_its_name() {
    let entry = rejected_token("phone", "vouchers:create", "forbidden", 403);
    assert_eq!(entry.token, "phone");
    assert_eq!(entry.action, "vouchers:create");
    assert_eq!(entry.outcome, "forbidden");
    assert_eq!(entry.status, 403);
}
