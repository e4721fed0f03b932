use unifi_voucher_proxy::text;

#[test]
fn the_character_classes_are_those_of_std() {
    for c in '\0'..=char::MAX {
        assert_eq!(text::white(c), c.is_whitespace(), "{c:?}");
        assert_eq!(text::control(c), c.is_control(), "{c:?}");
        assert_eq!(text::lower(c), c.is_ascii_lowercase(), "{c:?}");
        assert_eq!(text::upper(c), c.is_ascii_uppercase(), "{c:?}");
        assert_eq!(text::digit(c), c.is_ascii_digit(), "{c:?}");
        assert_eq!(text::alphanumeric(c), c.is_ascii_alphanumeric(), "{c:?}");
        assert_eq!(text::hex_digit(c), c.is_ascii_hexdigit(), "{c:?}");
        assert_eq!(text::lower_char(c), c.to_ascii_lowercase(), "{c:?}");
    }
}

#[test]
fn trimming_is_that_of_std() {
    for s in ["", " ", "a", " a b ", "\u{3000}x\u{85}", "//", "a//", "é ", "\n\r\n"] {
        assert_eq!(text::trim(s), s.trim());
        assert_eq!(text::trim_start(s), s.trim_start());
        assert_eq!(text::trim_end_of(s, "/"), s.trim_end_matches('/'));
        assert_eq!(text::trim_end_of(s, "\n\r"), s.trim_end_matches(['\n', '\r']));
        assert_eq!(text::trim_prefix(s, "a"), s.trim_start_matches("a"));
        assert_eq!(text::to_lower(s), s.to_ascii_lowercase());
        assert_eq!(text::count_bytes(s), s.len());
    }
    assert_eq!(text::trim_prefix("sha256:sha256:x", "sha256:"), "x");
}

#[test]
fn searching_is_that_of_std() {
    for (s, p) in [("abcabd", "abd"), ("aab", "ab"), ("", ""), ("x", ""), ("", "x"), ("héllo", "éll")] {
        assert_eq!(text::contains(s, p), s.contains(p), "{s} {p}");
        assert_eq!(text::has_prefix(s, p), s.starts_with(p), "{s} {p}");
        assert_eq!(text::same(s, p), s == p, "{s} {p}");
    }
}

#[test]
fn numbers_are_written_and_read_in_decimal() {
    for n in [0u64, 7, 10, 12345, u64::MAX] {
        assert_eq!(text::show(n), n.to_string());
    }
    for n in [0i64, -1, 42, i64::MAX, i64::MIN] {
        assert_eq!(text::show_signed(n), n.to_string());
    }
    for s in ["0", "-0", "+5", "", "+", "-", "12a", " 1", "9223372036854775807", "9223372036854775808",
        "-9223372036854775808", "-9223372036854775809", "000000000000000000000000000001", "١"] {
        assert_eq!(text::parse_integer(s), s.parse::<i64>().ok(), "{s}");
    }
}

#[test]
fn padding_and_joining_are_those_of_std() {
    for s in ["", "ab", "é", "exactly-sixteen!", "longer than sixteen characters"] {
        assert_eq!(text::pad(s, 16), format!("{s:<16}"));
    }
    for parts in [vec![], vec!["a"], vec!["a", "b"], vec!["", "", "c"]] {
        let list: Vec<String> = parts.iter().map(|p| p.to_string()).collect();
        assert_eq!(text::join(&list, " or "), list.join(" or "));
    }
}

#[test]
fn splitting_is_that_of_std() {
    for s in ["", "/", "a", "/a/b", "a//b/", "é/ü", "$argon2id$v=19"] {
        for sep in ['/', '$'] {
            assert_eq!(text::split(s, sep), s.split(sep).collect::<Vec<_>>(), "{s}");
        }
    }
}

#[test]
fn a_row_of_digits_is_held_against_a_limit_of_any_size() {
    assert!(!text::exceeds("", 0));
    assert!(!text::exceeds("0", 0));
    assert!(text::exceeds("1", 0));
    assert!(!text::exceeds("536870911", 536_870_911));
    assert!(text::exceeds("536870912", 536_870_911));
    assert!(!text::exceeds("0000000000000000000000000000000000000000000000001", 1));
    assert!(text::exceeds(&"9".repeat(100), u64::MAX));
    assert!(!text::exceeds("99999999x", 1));
    assert!(!text::exceeds("-9", 1));
}
