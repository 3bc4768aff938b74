use databricks_connector::json::Json;

fn parse(text: &str) -> Json {
    Json::parse(text).unwrap()
}

#[test]
fn documents_are_read_and_written() {
    let text = r#"{"b":[1,-2,1.5,null,true,false],"a":{"x":"y\n\"\\é"}}"#;
    let value: serde_json::Value = serde_json::from_str(text).unwrap();
    let json = parse(text);
    assert_eq!(json.to_text(), value.to_string());
    assert_eq!(json.to_value(), value);
    assert_eq!(Json::from_value(value), json);
    assert_eq!(json.clone(), json);
}

#[test]
fn scalars_have_their_notation() {
    assert_eq!(parse(" null ").to_text(), "null");
    assert_eq!(parse("true").to_text(), "true");
    assert_eq!(parse("false").to_text(), "false");
    assert_eq!(parse("1e3").to_text(), "1000.0");
    assert_eq!(Json::Text("plain é text".to_string()).to_text(), "\"plain é text\"");
    assert_eq!(Json::Text("\u{1}".to_string()).to_text(), "\"\\u0001\"");
    assert_eq!(Json::from_i64(-42).to_text(), "-42");
    assert_eq!(Json::from_i64(i64::MIN).to_text(), "-9223372036854775808");
    assert_eq!(Json::from_i64(0).to_text(), "0");
}

#[test]
fn unreadable_texts_are_reported() {
    let expected = serde_json::from_str::<serde_json::Value>("{").unwrap_err().to_string();
    assert_eq!(Json::parse("{"), Err(expected));
}

#[test]
fn the_last_entry_of_a_key_counts() {
    let json = Json::Object(vec![
        ("a".to_string(), Json::from_i64(1)),
        ("a".to_string(), Json::from_i64(2)),
    ]);
    assert_eq!(json.get("a").unwrap().to_text(), "2");
    assert_eq!(json.to_text(), "{\"a\":2}");
}

#[test]
fn members_are_reached_by_path() {
    let json = parse(r#"{"a":{"b":[0]},"c":"s"}"#);
    assert_eq!(json.at(&["a", "b"]).unwrap().to_text(), "[0]");
    assert!(json.at(&["a", "b", "0"]).is_none());
    assert!(json.at(&["c", "d"]).is_none());
    assert_eq!(json.at(&[]).unwrap().to_text(), json.to_text());
    assert_eq!(json.get("c").unwrap().as_str(), Some("s"));
    assert_eq!(json.at(&["a", "b"]).unwrap().as_array().unwrap().len(), 1);
    assert!(json.as_array().is_none() && json.as_str().is_none());
}
