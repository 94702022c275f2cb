use jwt_claims::error::ClaimsError;
use jwt_claims::field::Field;
use jwt_claims::json::JsonObject;
use jwt_claims::json::JsonValue;
use jwt_claims::order::str_equal;
use jwt_claims::order::str_less;
use jwt_claims::text::from_serde;
use jwt_claims::text::parse;
use jwt_claims::text::print;
use jwt_claims::text::to_serde;

fn keys(object: &JsonObject) -> Vec<String> {
    object.entries().iter().map(|entry| entry.0.clone()).collect()
}

fn number(n: u64) -> JsonValue {
    JsonValue::Number(serde_json::Number::from(n))
}

#[test]
fn order_is_that_of_str() {
    let samples = [
        "", "a", "aa", "ab", "b", "B", "iss", "is", "isss", "exp", "\u{e9}", "e\u{301}", "z",
        "\u{1F600}", "\u{FFFF}", "\u{10000}", " iss", "iss ", "0", "10", "9",
    ];
    for a in samples {
        for b in samples {
            assert_eq!(str_less(a, b), a < b);
            assert_eq!(str_equal(a, b), a == b);
        }
    }
    assert!(str_less("", "a"));
    assert!(str_less("a", "aa"));
    assert!(str_less("Z", "a"));
    assert!(!str_less("a", "a"));
    assert!(!str_less("b", "a"));
    assert!(str_less("\u{FFFF}", "\u{10000}"));
}

#[test]
fn entries_are_kept_in_key_order() {
    let mut object = JsonObject::new();
    for key in ["sub", "exp", "zeta", "", "alpha", "iss", "Zeta", "exp2"] {
        assert_eq!(object.insert(key.to_string(), JsonValue::Null), None);
    }
    assert_eq!(keys(&object), vec!["", "Zeta", "alpha", "exp", "exp2", "iss", "sub", "zeta"]);
    assert_eq!(object.len(), 8);
    assert!(!object.is_empty());
}

#[test]
fn insert_replaces_and_returns_the_old_value() {
    let mut object = JsonObject::new();
    assert!(object.is_empty());
    assert_eq!(object.len(), 0);
    assert_eq!(object.insert("k".to_string(), number(1)), None);
    assert_eq!(object.insert("k".to_string(), number(2)), Some(number(1)));
    assert_eq!(object.len(), 1);
    assert_eq!(object.get("k"), Some(&number(2)));
    assert_eq!(object.get("K"), None);
    assert!(object.contains_key("k"));
    assert!(!object.contains_key(""));
}

#[test]
fn remove_takes_one_entry_out() {
    let mut object = JsonObject::new();
    object.insert("a".to_string(), number(1));
    object.insert("b".to_string(), number(2));
    object.insert("c".to_string(), number(3));
    assert_eq!(object.remove("b"), Some(number(2)));
    assert_eq!(object.remove("b"), None);
    assert_eq!(object.remove("missing"), None);
    assert_eq!(keys(&object), vec!["a", "c"]);
    assert_eq!(object.get("a"), Some(&number(1)));
    assert_eq!(object.get("c"), Some(&number(3)));
    assert_eq!(object.remove("a"), Some(number(1)));
    assert_eq!(object.remove("c"), Some(number(3)));
    assert!(object.is_empty());
    assert_eq!(object, JsonObject::default());
}

#[test]
fn objects_with_the_same_entries_are_equal() {
    let mut first = JsonObject::new();
    first.insert("x".to_string(), number(1));
    first.insert("y".to_string(), JsonValue::Bool(true));
    let mut second = JsonObject::new();
    second.insert("y".to_string(), JsonValue::Bool(false));
    second.insert("x".to_string(), number(1));
    assert_ne!(first, second);
    second.insert("y".to_string(), JsonValue::Bool(true));
    assert_eq!(first, second);
    assert_eq!(first.clone(), second);
}

#[test]
fn text_is_read_into_values() {
    assert_eq!(parse("null"), Ok(JsonValue::Null));
    assert_eq!(parse("true"), Ok(JsonValue::Bool(true)));
    assert_eq!(parse("12"), Ok(number(12)));
    assert_eq!(parse("\"a\\nb\""), Ok(JsonValue::String("a\nb".to_string())));
    assert_eq!(
        parse(" [1, \"x\", [] ] "),
        Ok(JsonValue::Array(vec![
            number(1),
            JsonValue::String("x".to_string()),
            JsonValue::Array(Vec::new())
        ]))
    );
    let parsed = parse(r#"{"b":1,"a":{"d":null,"c":false}}"#).unwrap();
    let mut inner = JsonObject::new();
    inner.insert("c".to_string(), JsonValue::Bool(false));
    inner.insert("d".to_string(), JsonValue::Null);
    let mut outer = JsonObject::new();
    outer.insert("a".to_string(), JsonValue::Object(inner));
    outer.insert("b".to_string(), number(1));
    assert_eq!(parsed, JsonValue::Object(outer));
    match parsed {
        JsonValue::Object(object) => assert_eq!(keys(&object), vec!["a", "b"]),
        _ => panic!("an object was expected"),
    }
}

#[test]
fn text_that_is_not_json_is_refused() {
    for text in ["", "{", "[1,]", "nul", "{\"a\" 1}", "\"open", "1 2"] {
        assert_eq!(parse(text), Err(ClaimsError::MalformedInput));
    }
}

#[test]
fn values_are_written_as_text() {
    assert_eq!(print(&JsonValue::Null), Ok("null".to_string()));
    assert_eq!(print(&JsonValue::Bool(false)), Ok("false".to_string()));
    assert_eq!(print(&number(1302319100)), Ok("1302319100".to_string()));
    assert_eq!(
        print(&JsonValue::Number(serde_json::Number::from(-5i64))),
        Ok("-5".to_string())
    );
    assert_eq!(
        print(&JsonValue::Number(serde_json::Number::from_f64(1.5).unwrap())),
        Ok("1.5".to_string())
    );
    assert_eq!(
        print(&JsonValue::String("quote \" and \\".to_string())),
        Ok(r#""quote \" and \\""#.to_string())
    );
    let mut object = JsonObject::new();
    object.insert("z".to_string(), JsonValue::Array(vec![number(1), JsonValue::Null]));
    object.insert("a".to_string(), JsonValue::Object(JsonObject::new()));
    assert_eq!(print(&JsonValue::Object(object)), Ok(r#"{"a":{},"z":[1,null]}"#.to_string()));
}

#[test]
fn written_text_reads_back() {
    let texts = [
        r#"{"a":[1,-2,3.5,"s",true,null,{"b":[]}],"c":{"d":{"e":"f"}}}"#,
        r#"[0,18446744073709551615,-9223372036854775808]"#,
        r#""é😀""#,
    ];
    for text in texts {
        let value = parse(text).unwrap();
        let written = print(&value).unwrap();
        assert_eq!(parse(&written), Ok(value.clone()));
        assert_eq!(value.clone(), value);
    }
    assert_eq!(
        print(&parse(r#"{ "b" : 1 , "a" : [ ] }"#).unwrap()),
        Ok(r#"{"a":[],"b":1}"#.to_string())
    );
}

#[test]
fn wire_names_of_the_fields() {
    let fields = [
        (Field::Issuer, "iss"),
        (Field::Subject, "sub"),
        (Field::Audience, "aud"),
        (Field::Expiration, "exp"),
        (Field::NotBefore, "nbf"),
        (Field::IssuedAt, "iat"),
        (Field::JsonWebTokenId, "jti"),
    ];
    for (field, name) in fields {
        assert_eq!(field.wire_name(), name);
        assert_eq!(Field::named(name), Some(field));
    }
    for key in ["", "ISS", "Iss", " iss", "iss ", "is", "isss", "expiration", "jt", "custom_claim"] {
        assert_eq!(Field::named(key), None);
    }
}

#[test]
fn values_convert_to_serde_and_back() {
    let mut inner = serde_json::Map::new();
    inner.insert("k".to_string(), serde_json::Value::Null);
    inner.insert("a".to_string(), serde_json::Value::Bool(true));
    let outside = serde_json::Value::Array(vec![
        serde_json::Value::Null,
        serde_json::Value::Bool(false),
        serde_json::Value::Number(serde_json::Number::from(7u64)),
        serde_json::Value::Number(serde_json::Number::from(-7i64)),
        serde_json::Value::Number(serde_json::Number::from_f64(0.5).unwrap()),
        serde_json::Value::String("text".to_string()),
        serde_json::Value::Array(Vec::new()),
        serde_json::Value::Object(inner),
    ]);
    let mut object = JsonObject::new();
    object.insert("k".to_string(), JsonValue::Null);
    object.insert("a".to_string(), JsonValue::Bool(true));
    let inside = JsonValue::Array(vec![
        JsonValue::Null,
        JsonValue::Bool(false),
        number(7),
        JsonValue::Number(serde_json::Number::from(-7i64)),
        JsonValue::Number(serde_json::Number::from_f64(0.5).unwrap()),
        JsonValue::String("text".to_string()),
        JsonValue::Array(Vec::new()),
        JsonValue::Object(object),
    ]);
    assert_eq!(from_serde(&outside), inside);
    assert_eq!(to_serde(&inside), outside);
    assert_eq!(to_serde(&from_serde(&outside)), outside);
    assert_eq!(from_serde(&to_serde(&inside)), inside);
}
