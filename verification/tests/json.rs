use buzz::json::Json;

#[test]
fn json_is_read_and_written() {
    let raw = r#"{"b":[null,true,-3,1.5,"x"],"a":{"k":18446744073709551615}}"#;
    let json = Json::parse(raw).unwrap();
    // Members come out in the order of their keys.
    assert_eq!(
        json.to_text(),
        r#"{"a":{"k":18446744073709551615},"b":[null,true,-3,1.5,"x"]}"#
    );
}

#[test]
fn json_parse_errors_are_those_of_the_parser() {
    let expected = serde_json::from_str::<serde_json::Value>("[1,").unwrap_err();
    assert_eq!(Json::parse("[1,").unwrap_err(), expected.to_string());
}

#[test]
fn json_members_follow_the_last() {
    let object = Json::Object(vec![
        ("k".to_string(), Json::Null),
        ("other".to_string(), Json::Bool(false)),
        ("k".to_string(), Json::unsigned(4)),
    ]);
    assert_eq!(object.member("k").unwrap().to_text(), "4");
    assert!(object.member("missing").is_none());
    assert!(Json::text("k").member("k").is_none());
    assert_eq!(object.to_text(), r#"{"k":4,"other":false}"#);
}

#[test]
fn json_repeated_members_are_written_once() {
    let member = |key: &str, n: u64| (key.to_string(), Json::unsigned(n));
    let object = Json::Object(vec![
        member("b", 1),
        member("a", 2),
        member("b", 3),
        member("", 4),
        member("a", 5),
        member("b", 6),
    ]);
    assert_eq!(object.to_text(), r#"{"":4,"a":5,"b":6}"#);
    assert_eq!(Json::Object(vec![]).to_text(), "{}");
    let nested = Json::Object(vec![
        ("o".to_string(), Json::Object(vec![member("k", 1), member("k", 2)])),
        ("o".to_string(), Json::Object(vec![member("k", 3), member("k", 4)])),
    ]);
    assert_eq!(nested.to_text(), r#"{"o":{"k":4}}"#);
}

#[test]
fn json_numbers_and_texts() {
    assert_eq!(Json::unsigned(0).to_text(), "0");
    assert_eq!(Json::unsigned(40003).to_text(), "40003");
    assert_eq!(Json::text("a\"\\\u{1}").to_text(), r#""a\"\\\u0001""#);
    assert_eq!(Json::Array(vec![]).to_text(), "[]");
}
