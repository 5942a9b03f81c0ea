use exercises::json_parser::parse;
use exercises::json_value::{JsonObject, JsonValue};

fn number(v: &JsonValue) -> f64 {
    match v {
        JsonValue::Number(text) => text.parse::<f64>().unwrap(),
        other => panic!("Expected number, got {:?}", other),
    }
}

fn string(s: &str) -> JsonValue {
    JsonValue::String(s.to_string())
}

#[test]
fn test_null() {
    assert_eq!(parse("null").unwrap(), JsonValue::Null);
}

#[test]
fn test_bool() {
    assert_eq!(parse("true").unwrap(), JsonValue::Bool(true));
    assert_eq!(parse("false").unwrap(), JsonValue::Bool(false));
}

#[test]
fn test_number() {
    assert_eq!(number(&parse("42").unwrap()), 42.0);
    assert_eq!(number(&parse("-17").unwrap()), -17.0);
    assert_eq!(number(&parse("3.14").unwrap()), 3.14);
    assert_eq!(number(&parse("1e10").unwrap()), 1e10);
    assert_eq!(number(&parse("2.5e-3").unwrap()), 2.5e-3);
}

#[test]
fn test_string() {
    assert_eq!(parse(r#""hello""#).unwrap(), string("hello"));
    assert_eq!(parse(r#""hello\nworld""#).unwrap(), string("hello\nworld"));
    assert_eq!(parse(r#""tab\there""#).unwrap(), string("tab\there"));
}

#[test]
fn test_array() {
    assert_eq!(parse("[]").unwrap(), JsonValue::Array(vec![]));
    let three = parse("[1, 2, 3]").unwrap();
    match &three {
        JsonValue::Array(items) => {
            assert_eq!(items.len(), 3);
            assert_eq!(number(&items[0]), 1.0);
            assert_eq!(number(&items[1]), 2.0);
            assert_eq!(number(&items[2]), 3.0);
        }
        _ => panic!("Expected array"),
    }
    assert_eq!(
        parse("[true, null]").unwrap(),
        JsonValue::Array(vec![JsonValue::Bool(true), JsonValue::Null])
    );
}

#[test]
fn test_object() {
    assert_eq!(parse("{}").unwrap(), JsonValue::Object(JsonObject::new()));

    let result = parse(r#"{"name": "Rust"}"#).unwrap();
    if let JsonValue::Object(obj) = result {
        assert_eq!(obj.get("name"), Some(&string("Rust")));
    } else {
        panic!("Expected object");
    }
}

#[test]
fn test_nested() {
    let json = r#"{"arr": [1, {"nested": true}]}"#;
    let result = parse(json).unwrap();

    if let JsonValue::Object(obj) = result {
        if let Some(JsonValue::Array(arr)) = obj.get("arr") {
            assert_eq!(arr.len(), 2);
            assert_eq!(number(&arr[0]), 1.0);
        } else {
            panic!("Expected array");
        }
    } else {
        panic!("Expected object");
    }
}

#[test]
fn test_whitespace() {
    let json = r#"
            {
                "key"  :   "value"   ,
                "num"  :   42
            }
        "#;
    assert!(parse(json).is_ok());
}

#[test]
fn test_errors() {
    assert!(parse("").is_err());
    assert!(parse("{").is_err());
    assert!(parse("[1,]").is_err());
    assert!(parse("undefined").is_err());
}

#[test]
fn number_keeps_literal_text() {
    assert_eq!(parse("-0.5E+2").unwrap(), JsonValue::Number("-0.5E+2".to_string()));
    assert_eq!(number(&parse("-0.5E+2").unwrap()), -50.0);
    assert_eq!(number(&parse("0").unwrap()), 0.0);
}

#[test]
fn number_grammar_errors() {
    let e = parse("01").unwrap_err();
    assert_eq!(e.message, "Unexpected characters after JSON value");
    assert_eq!(e.position, 1);
    let e = parse("1.").unwrap_err();
    assert_eq!(e.message, "Expected digit after decimal point");
    assert_eq!(e.position, 2);
    let e = parse("1e+").unwrap_err();
    assert_eq!(e.message, "Expected digit in exponent");
    assert_eq!(e.position, 3);
    let e = parse("-").unwrap_err();
    assert_eq!(e.message, "Expected digit");
    assert_eq!(e.position, 1);
    let e = parse("-x").unwrap_err();
    assert_eq!(e.message, "Expected digit");
    assert_eq!(e.position, 1);
}

#[test]
fn escapes_decode() {
    assert_eq!(
        parse(r#""q\"b\\s\/r\r""#).unwrap(),
        string("q\"b\\s/r\r")
    );
    assert_eq!(parse(r#""Aé中""#).unwrap(), string("Aé中"));
}

#[test]
fn escape_errors() {
    let e = parse(r#""\x""#).unwrap_err();
    assert_eq!(e.message, "Invalid escape: \\x");
    assert_eq!(e.position, 2);
    let e = parse(r#""\u12G4""#).unwrap_err();
    assert_eq!(e.message, "Invalid unicode escape");
    assert_eq!(e.position, 5);
    let e = parse(r#""\u12"#).unwrap_err();
    assert_eq!(e.message, "Invalid unicode escape");
    assert_eq!(e.position, 5);
    let e = parse(r#""\uD800""#).unwrap_err();
    assert_eq!(e.message, "Invalid unicode code point");
    assert_eq!(e.position, 7);
    let e = parse(r#""abc"#).unwrap_err();
    assert_eq!(e.message, "Unterminated string");
    assert_eq!(e.position, 4);
}

#[test]
fn keyword_errors() {
    let e = parse("undefined").unwrap_err();
    assert_eq!(e.message, "Unexpected character: u");
    assert_eq!(e.position, 0);
    let e = parse("nul").unwrap_err();
    assert_eq!(e.message, "Unexpected end of input");
    assert_eq!(e.position, 3);
    let e = parse("trUe").unwrap_err();
    assert_eq!(e.message, "Expected 'u' but got 'U'");
    assert_eq!(e.position, 2);
    let e = parse("nul!").unwrap_err();
    assert_eq!(e.message, "Expected 'l' but got '!'");
    assert_eq!(e.position, 3);
    let e = parse("fals").unwrap_err();
    assert_eq!(e.position, 4);
}

#[test]
fn structure_errors() {
    let e = parse("").unwrap_err();
    assert_eq!(e.message, "Unexpected end of input");
    assert_eq!(e.position, 0);
    let e = parse("{").unwrap_err();
    assert_eq!(e.message, "Expected string key");
    assert_eq!(e.position, 1);
    let e = parse("[1,]").unwrap_err();
    assert_eq!(e.message, "Unexpected character: ]");
    assert_eq!(e.position, 3);
    let e = parse("[1 2]").unwrap_err();
    assert_eq!(e.message, "Expected ',' or ']'");
    assert_eq!(e.position, 3);
    let e = parse(r#"{"a" 1}"#).unwrap_err();
    assert_eq!(e.message, "Expected ':'");
    assert_eq!(e.position, 5);
    let e = parse(r#"{"a":1 "b":2}"#).unwrap_err();
    assert_eq!(e.message, "Expected ',' or '}'");
    assert_eq!(e.position, 7);
    let e = parse(r#"{"a":1,}"#).unwrap_err();
    assert_eq!(e.message, "Expected string key");
    assert_eq!(e.position, 7);
    let e = parse("[1] x").unwrap_err();
    assert_eq!(e.message, "Unexpected characters after JSON value");
    assert_eq!(e.position, 4);
}

#[test]
fn duplicate_key_last_wins() {
    let v = parse(r#"{"a":1,"a":2}"#).unwrap();
    match v {
        JsonValue::Object(obj) => {
            assert_eq!(obj.len(), 1);
            assert_eq!(number(obj.get("a").unwrap()), 2.0);
        }
        _ => panic!("Expected object"),
    }
}

#[test]
fn whitespace_does_not_change_value() {
    let tight = parse(r#"{"a":[1,true,{"b":null}],"c":"d"}"#).unwrap();
    let loose = parse(" \t\n{ \"a\" :\n[ 1 ,\ttrue , { \"b\" : null } ] ,\r\n \"c\" : \"d\" }\n ").unwrap();
    assert_eq!(tight, loose);
}

#[test]
fn parsing_twice_gives_equal_values() {
    let text = r#"{"k": [1.5, "x", false, null, {"z": -3}]}"#;
    assert_eq!(parse(text).unwrap(), parse(text).unwrap());
}

#[test]
fn error_position_counts_characters_not_bytes() {
    let e = parse("[\"é中\", x]").unwrap_err();
    assert_eq!(e.message, "Unexpected character: x");
    assert_eq!(e.position, 7);
}

#[test]
fn unicode_whitespace_is_skipped() {
    assert_eq!(parse("\u{3000}true\u{a0}").unwrap(), JsonValue::Bool(true));
}

#[test]
fn failure_position_within_input() {
    for text in ["[1,", "{\"a\"", "\"\\u00", "tru", "-", "[1 "] {
        let e = parse(text).unwrap_err();
        assert!(e.position <= text.chars().count(), "{} at {}", e.message, e.position);
    }
    assert_eq!(parse("[1,").unwrap_err().position, 3);
}

#[test]
fn object_members_keep_first_insertion_order() {
    let v = parse(r#"{"b":1,"a":2,"b":3}"#).unwrap();
    match v {
        JsonValue::Object(obj) => {
            let keys: Vec<&str> = obj.members.iter().map(|(k, _)| k.as_str()).collect();
            assert_eq!(keys, vec!["b", "a"]);
            assert_eq!(number(obj.get("b").unwrap()), 3.0);
            assert_eq!(obj.get("c"), None);
        }
        _ => panic!("Expected object"),
    }
}

#[test]
fn unicode_escapes_decode_one_code_point_each() {
    assert_eq!(parse(r#""\u0041\u00e9\u4E2D""#).unwrap(), string("Aé中"));
    let e = parse(r#""\uDE00""#).unwrap_err();
    assert_eq!(e.message, "Invalid unicode code point");
}

#[test]
fn spelling_and_layout_do_not_change_value() {
    let a = parse(r#"{"k":"\u0041\/\n","k":[1,"x"]}"#).unwrap();
    let b = parse("\n{ \"k\" :\t[ 1 , \"\\u0078\" ] }\r\n").unwrap();
    assert_eq!(a, b);
    assert_eq!(parse(r#""\u0041\/\n""#).unwrap(), string("A/\n"));
}
