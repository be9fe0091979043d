//! Parsing scenarios: documents that must parse, and what they parse to.

use json_parser::parse::{parse, parse_with_limit, JsonParser};
use json_parser::value::JsonValueTypes;

fn parse_obj(text: &str) -> Vec<(String, JsonValueTypes)> {
    match parse(text) {
        Ok(JsonValueTypes::Object(m)) => m,
        other => panic!("expected an object, got {:?}", other),
    }
}

fn entry<'a>(map: &'a [(String, JsonValueTypes)], key: &str) -> &'a JsonValueTypes {
    match map.iter().find(|p| p.0 == key) {
        Some(p) => &p.1,
        None => panic!("key {:?} missing", key),
    }
}

fn as_f64(v: &JsonValueTypes) -> f64 {
    match v {
        JsonValueTypes::Number(t) => t.parse::<f64>().unwrap(),
        other => panic!("expected a number, got {:?}", other),
    }
}

fn as_str(v: &JsonValueTypes) -> &str {
    match v {
        JsonValueTypes::String(t) => t.as_str(),
        other => panic!("expected a string, got {:?}", other),
    }
}

#[test]
fn empty_object_parses_to_empty_mapping() {
    let m = parse_obj("{}");
    assert_eq!(m.len(), 0);
}

#[test]
fn empty_array_value() {
    let m = parse_obj("{\"a\":[]}");
    assert_eq!(m.len(), 1);
    match entry(&m, "a") {
        JsonValueTypes::Array(elems) => assert_eq!(elems.len(), 0),
        other => panic!("expected an array, got {:?}", other),
    }
}

#[test]
fn array_preserves_order() {
    let m = parse_obj("{\"a\":[1,2,3]}");
    match entry(&m, "a") {
        JsonValueTypes::Array(elems) => {
            assert_eq!(elems.len(), 3);
            assert_eq!(as_f64(&elems[0]), 1.0);
            assert_eq!(as_f64(&elems[1]), 2.0);
            assert_eq!(as_f64(&elems[2]), 3.0);
        },
        other => panic!("expected an array, got {:?}", other),
    }
}

#[test]
fn one_element_array() {
    let m = parse_obj("{\"a\":[42]}");
    match entry(&m, "a") {
        JsonValueTypes::Array(elems) => {
            assert_eq!(elems.len(), 1);
            assert_eq!(as_f64(&elems[0]), 42.0);
        },
        other => panic!("expected an array, got {:?}", other),
    }
}

#[test]
fn single_number_entry() {
    let m = parse_obj("{\"a\":1}");
    assert_eq!(m.len(), 1);
    assert_eq!(as_f64(entry(&m, "a")), 1.0);
}

#[test]
fn escaped_newline_in_string() {
    let m = parse_obj("{\"a\":\"x\\ny\"}");
    assert_eq!(as_str(entry(&m, "a")), "x\ny");
}

#[test]
fn boolean_and_null_entries() {
    let m = parse_obj("{\"a\":true,\"b\":null}");
    assert_eq!(m.len(), 2);
    assert!(matches!(entry(&m, "a"), JsonValueTypes::Boolean(true)));
    assert!(matches!(entry(&m, "b"), JsonValueTypes::Null));
}

#[test]
fn false_literal() {
    let m = parse_obj("{\"a\":false}");
    assert!(matches!(entry(&m, "a"), JsonValueTypes::Boolean(false)));
}

#[test]
fn duplicate_key_overwrites() {
    let m = parse_obj("{\"a\":1,\"a\":2}");
    assert_eq!(m.len(), 1);
    assert_eq!(as_f64(entry(&m, "a")), 2.0);
}

#[test]
fn duplicate_key_keeps_first_position() {
    let m = parse_obj("{\"a\":1,\"b\":2,\"a\":3}");
    assert_eq!(m.len(), 2);
    assert_eq!(m[0].0, "a");
    assert_eq!(as_f64(&m[0].1), 3.0);
    assert_eq!(m[1].0, "b");
}

#[test]
fn unicode_escape_decodes() {
    let m = parse_obj("{\"a\":\"\\u0041\"}");
    assert_eq!(as_str(entry(&m, "a")), "A");
}

#[test]
fn surrogate_pair_decodes() {
    let m = parse_obj("{\"a\":\"\\ud83d\\ude00\"}");
    assert_eq!(as_str(entry(&m, "a")), "\u{1F600}");
}

#[test]
fn escaped_key_decodes() {
    let m = parse_obj("{\"\\u0041\":1}");
    assert_eq!(m[0].0, "A");
}

#[test]
fn all_simple_escapes() {
    let m = parse_obj("{\"a\":\"\\\" \\\\ \\/ \\n \\r \\t \\b \\f\"}");
    assert_eq!(as_str(entry(&m, "a")), "\" \\ / \n \r \t \u{8} \u{c}");
}

#[test]
fn whitespace_everywhere() {
    let m = parse_obj(" {\t\"a\" :\n1 ,\r\"b\" : 2 } ");
    assert_eq!(as_f64(entry(&m, "a")), 1.0);
    assert_eq!(as_f64(entry(&m, "b")), 2.0);
}

#[test]
fn trailing_comma_in_object_accepted() {
    let m = parse_obj("{\"a\":1,}");
    assert_eq!(m.len(), 1);
}

#[test]
fn trailing_comma_in_array_accepted() {
    let m = parse_obj("{\"a\":[1,]}");
    match entry(&m, "a") {
        JsonValueTypes::Array(elems) => assert_eq!(elems.len(), 1),
        other => panic!("expected an array, got {:?}", other),
    }
}

#[test]
fn nested_objects() {
    let m = parse_obj("{\"a\":{\"b\":{\"c\":1}}}");
    match entry(&m, "a") {
        JsonValueTypes::Object(inner) => match entry(inner, "b") {
            JsonValueTypes::Object(inner2) => {
                assert_eq!(as_f64(entry(inner2, "c")), 1.0);
            },
            other => panic!("expected an object, got {:?}", other),
        },
        other => panic!("expected an object, got {:?}", other),
    }
}

#[test]
fn number_formats() {
    let m = parse_obj("{\"a\":-1.5e3,\"b\":+12.3E-10,\"c\":0}");
    assert_eq!(as_f64(entry(&m, "a")), -1500.0);
    assert_eq!(as_f64(entry(&m, "b")), 12.3e-10);
    assert_eq!(as_f64(entry(&m, "c")), 0.0);
}

#[test]
fn empty_string_key() {
    let m = parse_obj("{\"\":1}");
    assert_eq!(m[0].0, "");
}

#[test]
fn mixed_array() {
    let m = parse_obj("{\"a\":[1,\"x\",true,null,[2],{\"b\":3}]}");
    match entry(&m, "a") {
        JsonValueTypes::Array(elems) => {
            assert_eq!(elems.len(), 6);
            assert_eq!(as_f64(&elems[0]), 1.0);
            assert_eq!(as_str(&elems[1]), "x");
            assert!(matches!(elems[2], JsonValueTypes::Boolean(true)));
            assert!(matches!(elems[3], JsonValueTypes::Null));
            assert!(matches!(elems[4], JsonValueTypes::Array(_)));
            assert!(matches!(elems[5], JsonValueTypes::Object(_)));
        },
        other => panic!("expected an array, got {:?}", other),
    }
}

#[test]
fn deep_nesting_within_limit_parses() {
    let mut text = String::from("1");
    for _ in 0..50 {
        text = format!("{{\"a\":{}}}", text);
    }
    assert!(parse(&text).is_ok());
}

#[test]
fn explicit_limit_allows_exact_depth() {
    assert!(parse_with_limit("{\"a\":{\"b\":1}}", 2).is_ok());
}

#[test]
fn json_parser_keeps_text_and_map() {
    let text = String::from("{\"a\":1, \"b\":\"x\"}");
    let p = JsonParser::new(text.clone()).unwrap();
    assert_eq!(p.get_text(), &text);
    let m = p.get_map();
    assert_eq!(m.len(), 2);
    assert_eq!(as_f64(entry(m, "a")), 1.0);
    assert_eq!(as_str(entry(m, "b")), "x");
}

#[test]
fn large_sample_document() {
    let text = String::from(
        "{\"a\":[1, [+12.3E-10, null]], \"b\\u1234\":{\"c\"   :{\"d\":\"\\te\\nh\"}, \
         \"d\":false}   ,\"c\": [1, {\"b\":\"c\"}], \"d\":{\"e\":\"f\", \"g\":[1, 2]}}",
    );
    let p = JsonParser::new(text).unwrap();
    let m = p.get_map();
    assert_eq!(m.len(), 4);
    assert_eq!(m[1].0, "b\u{1234}");
    match entry(m, "a") {
        JsonValueTypes::Array(elems) => {
            assert_eq!(elems.len(), 2);
            assert_eq!(as_f64(&elems[0]), 1.0);
            match &elems[1] {
                JsonValueTypes::Array(inner) => {
                    assert_eq!(as_f64(&inner[0]), 12.3e-10);
                    assert!(matches!(inner[1], JsonValueTypes::Null));
                },
                other => panic!("expected an array, got {:?}", other),
            }
        },
        other => panic!("expected an array, got {:?}", other),
    }
    match entry(m, "d") {
        JsonValueTypes::Object(inner) => {
            assert_eq!(as_str(entry(inner, "e")), "f");
        },
        other => panic!("expected an object, got {:?}", other),
    }
}

#[test]
fn nested_duplicate_keys_overwrite_at_each_level() {
    let m = parse_obj("{\"a\":{\"b\":1,\"b\":2},\"a\":{\"c\":3}}");
    assert_eq!(m.len(), 1);
    match entry(&m, "a") {
        JsonValueTypes::Object(inner) => {
            assert_eq!(inner.len(), 1);
            assert_eq!(as_f64(entry(inner, "c")), 3.0);
        },
        other => panic!("expected an object, got {:?}", other),
    }
}

#[test]
fn to_string_renders_scalars() {
    assert_eq!(
        JsonValueTypes::Number(String::from("1.5")).to_string(),
        Some(String::from("1.5"))
    );
    assert_eq!(
        JsonValueTypes::Boolean(true).to_string(),
        Some(String::from("true"))
    );
    assert_eq!(
        JsonValueTypes::Boolean(false).to_string(),
        Some(String::from("false"))
    );
    assert_eq!(JsonValueTypes::Null.to_string(), Some(String::from("null")));
    assert_eq!(
        JsonValueTypes::String(String::from("hi")).to_string(),
        Some(String::from("hi"))
    );
    assert_eq!(JsonValueTypes::Array(Vec::new()).to_string(), None);
    assert_eq!(JsonValueTypes::Object(Vec::new()).to_string(), None);
}
