use unifi_voucher_proxy::json::{Json, JsonNumber};

#[test]
fn a_document_is_read_and_written_as_it_is() {
    let text = r#"{"a":null,"b":[true,false,-7,18446744073709551615,1.5,1e300],"c":{"d":"x\"y"}}"#;
    let tree = Json::from_text(text).unwrap();
    assert_eq!(tree.to_text(), serde_json::from_str::<serde_json::Value>(text).unwrap().to_string());
    assert_eq!(tree.clone().to_text(), tree.to_text());
    assert!(Json::from_text("{not json").is_none());
    assert!(Json::from_text("").is_none());
}

#[test]
fn members_are_found_by_name_and_only_in_objects() {
    let tree = Json::from_text(r#"{"a": 1, "b": {"a": -2}, "f": 0.25}"#).unwrap();
    assert!(matches!(tree.get("a"), Some(Json::Number(JsonNumber::Unsigned(1)))));
    assert!(matches!(
        tree.get("b").and_then(|b| b.get("a")),
        Some(Json::Number(JsonNumber::Negative(-2)))
    ));
    match tree.get("f") {
        Some(Json::Number(JsonNumber::Fraction(f))) => assert_eq!(f.text(), "0.25"),
        other => panic!("{other:?}"),
    }
    assert!(tree.get("c").is_none());
    assert!(Json::from_text("[1]").unwrap().get("a").is_none());
    assert!(Json::string("a").get("a").is_none());
}

#[test]
fn members_stand_in_the_order_of_their_names() {
    match Json::from_text(r#"{"b": 1, "a": 2, "b": 3}"#).unwrap() {
        Json::Object(members) => {
            let names: Vec<&str> = members.iter().map(|m| m.0.as_str()).collect();
            assert_eq!(names, ["a", "b"]);
            assert!(matches!(members[1].1, Json::Number(JsonNumber::Unsigned(3))));
        }
        other => panic!("{other:?}"),
    }
}
