use unifi_voucher_proxy::routes::{decode_segment, label_of, router, router_with, Route};

const API: &str = "/proxy/network/integration/v1";

#[test]
fn every_served_path_is_recognised() {
    assert!(matches!(router("GET", "/healthz"), Route::Healthz));
    assert!(matches!(router("HEAD", "/proxy/info"), Route::Info));
    assert!(matches!(router("GET", "/graphql/schema"), Route::GraphqlSchema));
    assert!(matches!(router("POST", "/graphql"), Route::Graphql));
    assert!(matches!(router("GET", &format!("{API}/sites")), Route::ListSites));
    match router("GET", &format!("{API}/sites/a%20b/hotspot/vouchers")) {
        Route::ListVouchers { site } => assert_eq!(site, "a%20b"),
        other => panic!("{other:?}"),
    }
    match router("POST", &format!("{API}/sites/default/hotspot/vouchers")) {
        Route::CreateVouchers { site } => assert_eq!(site, "default"),
        other => panic!("{other:?}"),
    }
    match router("DELETE", &format!("{API}/sites/default/hotspot/vouchers/v1")) {
        Route::DeleteVoucher { site, voucher } => {
            assert_eq!(site, "default");
            assert_eq!(voucher, "v1");
        }
        other => panic!("{other:?}"),
    }
}

#[test]
fn the_explorer_is_served_only_where_it_is_switched_on() {
    assert!(matches!(router_with("GET", "/graphql", true), Route::Playground));
    assert!(matches!(router_with("GET", "/graphql", false), Route::NotAllowed));
    assert!(matches!(router_with("POST", "/graphql", true), Route::Graphql));
    assert!(matches!(router_with("DELETE", "/graphql", true), Route::NotAllowed));
}

#[test]
fn methods_are_told_apart_by_case() {
    assert!(matches!(router("get", "/healthz"), Route::NotAllowed));
    assert!(matches!(router("GET", "/Healthz"), Route::NotAllowed));
}

#[test]
fn escapes_in_a_segment_are_resolved() {
    let read = |raw: &str| decode_segment(raw, "site").unwrap();
    assert_eq!(read("default"), "default");
    assert_eq!(read("..%2f..%2Fapi"), "../../api");
    assert_eq!(read("a%20b+c"), "a b+c");
    assert_eq!(read("100%"), "100%");
    assert_eq!(read("%4"), "%4");
    assert_eq!(read("%zz%41"), "%zzA");
    assert_eq!(read("%25%32%35"), "%25");
    assert_eq!(read("%C3%A9"), "é");
    assert_eq!(
        decode_segment("%80", "voucher").unwrap_err().message,
        "Invalid URL: Invalid UTF-8 in `voucher`"
    );
}

#[test]
fn a_path_is_counted_by_its_shape() {
    for path in ["/healthz", "/proxy/info", "/graphql", "/graphql/schema"] {
        assert_eq!(label_of(path), path);
    }
    assert_eq!(label_of(&format!("{API}/sites")), format!("{API}/sites"));
    for site in ["default", "corporate", "%2e%2e", "é"] {
        assert_eq!(
            label_of(&format!("{API}/sites/{site}/hotspot/vouchers")),
            format!("{API}/sites/{{site}}/hotspot/vouchers")
        );
        assert_eq!(
            label_of(&format!("{API}/sites/{site}/hotspot/vouchers/v-{site}")),
            format!("{API}/sites/{{site}}/hotspot/vouchers/{{voucher}}")
        );
    }
    for path in [
        "",
        "/",
        "/healthz/",
        "other",
        "/proxy/network/integration/v1/sites//hotspot/vouchers",
        "/proxy/network/integration/v1/sites/a/hotspot/vouchers/",
        "/proxy/network/integration/v1/sites/a/hotspot/vouchers/b/c",
        "/proxy/network/integration/v1/sites/a/devices",
    ] {
        assert_eq!(label_of(path), "other", "{path}");
    }
}
