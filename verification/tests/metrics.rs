use unifi_voucher_proxy::metrics::{escape, Metrics};

#[test]
fn counts_requests_per_label_set() {
    let mut m = Metrics::default();
    m.record_request("phone", "vouchers:create", "ok");
    m.record_request("phone", "vouchers:create", "ok");
    m.record_request("phone", "vouchers:create", "forbidden");
    m.record_request("display", "vouchers:list", "ok");

    let out = m.render("1.2.3", 2);
    assert!(out.contains(
        "uvp_requests_total{token=\"phone\",action=\"vouchers:create\",outcome=\"ok\"} 2"
    ));
    assert!(out.contains(
        "uvp_requests_total{token=\"phone\",action=\"vouchers:create\",outcome=\"forbidden\"} 1"
    ));
    assert!(out.contains(
        "uvp_requests_total{token=\"display\",action=\"vouchers:list\",outcome=\"ok\"} 1"
    ));
}

#[test]
fn sums_vouchers_rather_than_counting_calls() {
    // One request for five vouchers is five vouchers, not one.
    let mut m = Metrics::default();
    m.record_vouchers_created("phone", 5);
    m.record_vouchers_created("phone", 2);
    assert!(m
        .render("v", 1)
        .contains("uvp_vouchers_created_total{token=\"phone\"} 7"));
}

#[test]
fn reports_build_info_and_token_count() {
    let out = Metrics::default().render("9.9.9", 3);
    assert!(out.contains("uvp_build_info{version=\"9.9.9\"} 1"));
    assert!(out.contains("uvp_tokens_configured 3"));
}

#[test]
fn converts_upstream_latency_to_seconds() {
    let mut m = Metrics::default();
    m.record_upstream(1500);
    m.record_upstream(500);
    let out = m.render("v", 0);
    assert!(out.contains("uvp_upstream_seconds_total 2.000"), "{out}");
    assert!(out.contains("uvp_upstream_calls_total 2"));
}

#[test]
fn counts_reloads_and_their_failures_separately() {
    let mut m = Metrics::default();
    m.record_reload(true);
    m.record_reload(false);
    m.record_reload(true);
    let out = m.render("v", 0);
    assert!(out.contains("uvp_config_reloads_total 2"));
    assert!(out.contains("uvp_config_reload_failures_total 1"));
}

#[test]
fn escapes_label_values_so_a_token_name_cannot_break_the_format() {
    let mut m = Metrics::default();
    m.record_request("we\"ird\\name", "a", "ok");
    let out = m.render("v", 1);
    assert!(out.contains(r#"token="we\"ird\\name""#), "{out}");
}

#[test]
fn renders_valid_exposition_syntax() {
    let mut m = Metrics::default();
    m.record_request("phone", "sites:list", "ok");
    for line in m.render("1.0.0", 1).lines() {
        if line.starts_with('#') {
            assert!(
                line.starts_with("# HELP ") || line.starts_with("# TYPE "),
                "unexpected comment: {line}"
            );
        } else {
            // Every sample line must end in a numeric value.
            let value = line.rsplit(' ').next().unwrap();
            assert!(value.parse::<f64>().is_ok(), "not a sample: {line}");
        }
    }
}

#[test]
fn escaping_handles_each_special_character() {
    assert_eq!(escape("a\\b"), "a\\\\b");
    assert_eq!(escape("a\"b"), "a\\\"b");
    assert_eq!(escape("a\nb"), "a\\nb");
    assert_eq!(escape("plain"), "plain");
}

#[test]
fn different_labels_stay_apart_once_escaped() {
    // A backslash followed by the letter n is not a line break.
    assert_ne!(escape("\\n"), escape("\n"));
    let mut m = Metrics::default();
    m.record_request("\\n", "a", "ok");
    m.record_request("\n", "a", "ok");
    let out = m.render("v", 1);
    assert!(out.contains(r#"token="\\n""#), "{out}");
    assert!(out.contains(r#"token="\n""#), "{out}");
}

#[test]
fn samples_stand_in_label_order() {
    let mut m = Metrics::default();
    m.record_request("b", "x", "ok");
    m.record_request("a", "y", "ok");
    m.record_request("a", "x", "ok");
    let out = m.render("v", 1);
    let at = |needle: &str| out.find(needle).unwrap();
    assert!(at("token=\"a\",action=\"x\"") < at("token=\"a\",action=\"y\""));
    assert!(at("token=\"a\",action=\"y\"") < at("token=\"b\",action=\"x\""));
}

#[test]
fn counters_wrap_instead_of_failing() {
    let mut m = Metrics::default();
    m.record_upstream(u64::MAX);
    m.record_upstream(2);
    assert!(m.render("v", 0).contains("uvp_upstream_seconds_total 0.001"));
}

#[test]
fn an_unused_page_is_complete() {
    let out = Metrics::default().render("1.2.3", 0);
    assert!(out.starts_with("# HELP uvp_build_info Version of the running proxy.\n# TYPE uvp_build_info gauge\nuvp_build_info{version=\"1.2.3\"} 1\n"), "{out}");
    assert!(out.contains("uvp_upstream_seconds_total 0.000\n"), "{out}");
    assert!(out.ends_with('\n'));
}

#[test]
fn each_label_set_has_one_line_with_the_number_of_times_it_was_recorded() {
    let mut m = Metrics::default();
    for (token, times) in [("phone", 3), ("display", 1)] {
        for _ in 0..times {
            m.record_request(token, "sites:list", "ok");
        }
    }
    m.record_vouchers_created("phone", 4);
    m.record_vouchers_created("phone", 3);
    m.record_upstream(1250);
    m.record_upstream(5);
    let out = m.render("v", 1);
    let starting = |prefix: &str| -> Vec<&str> {
        out.lines().filter(|line| line.starts_with(prefix)).collect()
    };
    assert_eq!(
        starting("uvp_requests_total{token=\"phone\",action=\"sites:list\",outcome=\"ok\"}"),
        ["uvp_requests_total{token=\"phone\",action=\"sites:list\",outcome=\"ok\"} 3"]
    );
    assert_eq!(
        starting("uvp_requests_total{token=\"display\",action=\"sites:list\",outcome=\"ok\"}"),
        ["uvp_requests_total{token=\"display\",action=\"sites:list\",outcome=\"ok\"} 1"]
    );
    assert!(starting("uvp_requests_total{token=\"nobody\"").is_empty());
    assert_eq!(
        starting("uvp_vouchers_created_total{"),
        ["uvp_vouchers_created_total{token=\"phone\"} 7"]
    );
    assert_eq!(starting("uvp_upstream_calls_total "), ["uvp_upstream_calls_total 2"]);
    assert_eq!(
        starting("uvp_upstream_seconds_total "),
        ["uvp_upstream_seconds_total 1.255"]
    );
}

/// The lines that are in one page and not in the other, both ways.
fn difference(before: &str, after: &str) -> (Vec<String>, Vec<String>) {
    let only = |a: &str, b: &str| -> Vec<String> {
        a.lines()
            .filter(|line| !b.lines().any(|other| other == *line))
            .map(|line| line.to_string())
            .collect()
    };
    (only(before, after), only(after, before))
}

#[test]
fn one_request_changes_the_line_of_its_labels_alone() {
    let mut m = Metrics::default();
    m.record_request("phone", "sites:list", "ok");
    m.record_request("a\"b", "sites:list", "ok");
    let before = m.render("v", 1);
    m.record_request("phone", "sites:list", "ok");
    let after = m.render("v", 1);
    let name = "uvp_requests_total{token=\"phone\",action=\"sites:list\",outcome=\"ok\"}";
    assert_eq!(
        difference(&before, &after),
        (vec![format!("{name} 1")], vec![format!("{name} 2")])
    );
    // Labels that are new come in with one.
    m.record_request("display", "sites:list", "ok");
    assert_eq!(
        difference(&after, &m.render("v", 1)),
        (
            vec![],
            vec!["uvp_requests_total{token=\"display\",action=\"sites:list\",outcome=\"ok\"} 1".to_string()]
        )
    );
}

#[test]
fn one_issue_changes_the_line_of_its_token_alone() {
    let mut m = Metrics::default();
    m.record_vouchers_created("phone", 5);
    let before = m.render("v", 1);
    m.record_vouchers_created("phone", 2);
    let after = m.render("v", 1);
    let name = "uvp_vouchers_created_total{token=\"phone\"}";
    assert_eq!(
        difference(&before, &after),
        (vec![format!("{name} 5")], vec![format!("{name} 7")])
    );
    // A token that issued none so far gets a line all the same.
    m.record_vouchers_created("display", 0);
    assert_eq!(
        difference(&after, &m.render("v", 1)),
        (vec![], vec!["uvp_vouchers_created_total{token=\"display\"} 0".to_string()])
    );
}

#[test]
fn the_order_of_recording_leaves_no_trace() {
    let told = |m: &mut Metrics, what: usize| match what {
        0 => m.record_request("b", "x", "ok"),
        1 => m.record_request("a", "y", "ok"),
        2 => m.record_vouchers_created("b", 3),
        3 => m.record_vouchers_created("a", 1),
        4 => m.record_upstream(1234),
        _ => m.record_reload(false),
    };
    let mut pages = Vec::new();
    for order in [[0, 1, 2, 3, 4, 5, 0], [5, 0, 4, 0, 3, 2, 1], [1, 3, 0, 5, 2, 0, 4]] {
        let mut m = Metrics::default();
        for what in order {
            told(&mut m, what);
        }
        pages.push(m.render("v", 2));
    }
    assert_eq!(pages[0], pages[1]);
    assert_eq!(pages[0], pages[2]);
}
