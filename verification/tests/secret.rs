use unifi_voucher_proxy::secret::Secret;

#[test]
fn never_renders_the_inner_value() {
    let s = Secret::new("super-secret-api-key");
    assert_eq!(s.to_debug_string(), "Secret(***)");
    assert_eq!(s.to_display_string(), "***");
    assert!(!format!("{} {}", s.to_debug_string(), s.to_display_string()).contains("super-secret"));
    assert_eq!(s.expose(), "super-secret-api-key");
}

#[test]
fn a_secret_knows_whether_it_is_empty_and_what_it_equals() {
    assert!(Secret::new("").is_empty());
    assert!(!Secret::new("x").is_empty());
    assert!(Secret::new("x") == Secret::new("x").clone());
    assert!(Secret::new("x") != Secret::new("y"));
}
