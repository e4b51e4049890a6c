use netfory_provider::json::{Json, JsonObject};

fn text(o: JsonObject) -> String {
    String::from_utf8(o.to_bytes()).unwrap()
}

#[test]
fn objects_are_written_in_order_of_names() {
    let mut inner = JsonObject::new();
    inner.insert("y", Json::Bool(true));
    let mut o = JsonObject::new();
    o.insert("b", Json::UInt(u64::MAX));
    o.insert("a", Json::Text("q\"\n".to_owned()));
    o.insert("c", Json::Object(inner));
    assert_eq!(text(o), "{\"a\":\"q\\\"\\n\",\"b\":18446744073709551615,\"c\":{\"y\":true}}");
    assert_eq!(text(JsonObject::new()), "{}");
}

#[test]
fn a_name_has_one_value() {
    let mut o = JsonObject::parse(br#"{"a":1,"b":[null,-2,0.5]}"#).unwrap();
    o.insert("a", Json::Text("x".to_owned()));
    assert_eq!(text(o), r#"{"a":"x","b":[null,-2,0.5]}"#);
}

#[test]
fn exact_values_read_back() {
    let text = r#"{"a":[null,true,[-9223372036854775808,-1,0,18446744073709551615]],"b":{"c":{"d":[{}]}},"e":"\u0000é"}"#;
    let written = JsonObject::parse(text.as_bytes()).unwrap().to_bytes();
    let again = JsonObject::parse(&written).unwrap().to_bytes();
    assert_eq!(written, again);
    assert_eq!(String::from_utf8(written).unwrap(), text);
}

#[test]
fn levels_that_are_read() {
    let nested = |n: usize| format!("{{\"a\":{}{}}}", "[".repeat(n), "]".repeat(n));
    let mut o = JsonObject::parse(nested(126).as_bytes()).unwrap();
    o.insert("b", Json::UInt(1));
    assert!(JsonObject::parse(&o.to_bytes()).is_some());
    assert!(JsonObject::parse(nested(127).as_bytes()).is_none());
}

#[test]
fn only_objects_are_read() {
    for s in ["", "1", "[]", "null", "\"x\"", "{", "{} {}", "{'a':1}"] {
        assert!(JsonObject::parse(s.as_bytes()).is_none(), "{s}");
    }
    assert!(JsonObject::parse(b" {} ").is_some());
    assert!(JsonObject::parse(b"\xff").is_none());
}

#[test]
fn shallow_members_read_back() {
    let mut inner = JsonObject::new();
    inner.insert("$serde_json::private::RawValue", Json::Text("1".to_owned()));
    let mut o = JsonObject::new();
    o.insert("$serde_json::private::RawValue", Json::Text("{}".to_owned()));
    o.insert("ключ", Json::Object(inner));
    let written = o.to_bytes();
    let back = JsonObject::parse(&written).unwrap();
    assert_eq!(back.to_bytes(), written);
}
