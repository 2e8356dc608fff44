use ox::json::{parse_json, parse_json_bytes, Json, JsonNumber};

#[test]
fn parsed_values_keep_their_kind() {
    let v = parse_json(r#"{"b":[null,true,"x"],"n":18446744073709551615,"i":-3,"f":0.12}"#).unwrap();
    assert_eq!(v.get("n").unwrap().as_u64(), Some(u64::MAX));
    assert_eq!(v.get("n").unwrap().as_i64(), None);
    assert_eq!(v.get("i").unwrap().as_i64(), Some(-3));
    assert_eq!(v.get("i").unwrap().as_u64(), None);
    assert!(matches!(v.get("f"), Some(Json::Number(JsonNumber::Float(t))) if t == "0.12"));
    let b = v.get("b").unwrap().as_array().unwrap();
    assert_eq!(b.len(), 3);
    assert!(matches!(b[0], Json::Null));
    assert_eq!(b[1].as_bool(), Some(true));
    assert_eq!(b[2].as_str(), Some("x"));
    assert!(v.get("missing").is_none());
    assert!(b[2].get("x").is_none());
}

#[test]
fn what_is_not_json_is_refused() {
    assert!(parse_json("not json").is_none());
    assert!(parse_json("").is_none());
    assert!(parse_json_bytes(b"{").is_none());
    assert!(parse_json_bytes(b"[1]").is_some());
}

#[test]
fn text_is_compact_json() {
    let source = r#"{ "a" : [ 1 , -2, 1.5, "q\"\n\u0001é" ], "b" : { } , "c":[] }"#;
    let v = parse_json(source).unwrap();
    let want = serde_json::from_str::<serde_json::Value>(source).unwrap().to_string();
    assert_eq!(v.to_text(), want);
    assert_eq!(v.clone().to_text(), want);
    assert_eq!(Json::Null.to_text(), "null");
    assert_eq!(Json::text("a\tb").to_text(), "\"a\\tb\"");
}

#[test]
fn scalars_print_without_quotes() {
    assert_eq!(Json::text("x").scalar_text(), Some("x".to_string()));
    assert_eq!(Json::number(7).scalar_text(), Some("7".to_string()));
    assert_eq!(Json::Bool(false).scalar_text(), Some("false".to_string()));
    assert_eq!(Json::Null.scalar_text(), None);
    assert_eq!(Json::Array(vec![]).scalar_text(), None);
}

#[test]
fn first_of_two_equal_keys_counts() {
    let v = Json::object(vec![("k".to_string(), Json::number(1)), ("k".to_string(), Json::number(2))]);
    assert_eq!(v.get("k").unwrap().as_u64(), Some(1));
    assert_eq!(v.str_or("k", "?"), "?");
}
