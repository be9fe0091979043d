//! Error scenarios: each error kind, with an input that produces it.

use json_parser::error::ParseError;
use json_parser::parse::{parse, parse_with_limit, JsonParser};
use json_parser::scan::{extract_literal, extract_number};

fn chars(text: &str) -> Vec<char> {
    text.chars().collect()
}

#[test]
fn trailing_data_error() {
    assert_eq!(parse("{\"a\":1} trailing"), Err(ParseError::TrailingData));
}

#[test]
fn trailing_brace_error() {
    assert_eq!(parse("{\"a\":1}}"), Err(ParseError::TrailingData));
}

#[test]
fn bare_number_token_with_two_dots() {
    let s = chars("1.2.3");
    assert_eq!(extract_number(&s, 0), Err(ParseError::InvalidNumber));
}

#[test]
fn invalid_number_in_document() {
    assert_eq!(parse("{\"a\":1.2.3}"), Err(ParseError::InvalidNumber));
}

#[test]
fn invalid_number_two_exponents() {
    assert_eq!(parse("{\"a\":1e2e3}"), Err(ParseError::InvalidNumber));
}

#[test]
fn invalid_number_misplaced_sign() {
    assert_eq!(parse("{\"a\":1-2}"), Err(ParseError::InvalidNumber));
}

#[test]
fn invalid_number_empty_exponent() {
    assert_eq!(parse("{\"a\":1e}"), Err(ParseError::InvalidNumber));
}

#[test]
fn invalid_number_lone_sign() {
    assert_eq!(parse("{\"a\":-}"), Err(ParseError::InvalidNumber));
}

#[test]
fn unterminated_string_error() {
    assert_eq!(parse("{\"a\":\"x"), Err(ParseError::UnterminatedString));
}

#[test]
fn unterminated_string_after_backslash() {
    assert_eq!(parse("{\"a\":\"x\\"), Err(ParseError::UnterminatedString));
}

#[test]
fn partial_literal_rejected() {
    assert_eq!(
        parse("{\"a\":tru}"),
        Err(ParseError::UnexpectedChar { position: 5 })
    );
}

#[test]
fn bare_partial_literal_rejected() {
    let s = chars("tru");
    assert_eq!(
        extract_literal(&s, 0),
        Err(ParseError::UnexpectedChar { position: 0 })
    );
}

#[test]
fn literal_needs_exact_match() {
    assert_eq!(
        parse("{\"a\":nulk}"),
        Err(ParseError::UnexpectedChar { position: 5 })
    );
}

#[test]
fn depth_limit_exceeded() {
    let mut text = String::from("null");
    for _ in 0..200 {
        text = format!("{{\"a\":{}}}", text);
    }
    assert_eq!(parse(&text), Err(ParseError::MaxDepthExceeded));
}

#[test]
fn depth_limit_exceeded_with_arrays() {
    let mut text = String::from("1");
    for _ in 0..200 {
        text = format!("[{}]", text);
    }
    assert_eq!(
        parse(&format!("{{\"a\":{}}}", text)),
        Err(ParseError::MaxDepthExceeded)
    );
}

#[test]
fn explicit_limit_trips_one_level_down() {
    assert_eq!(
        parse_with_limit("{\"a\":{\"b\":1}}", 1),
        Err(ParseError::MaxDepthExceeded)
    );
}

#[test]
fn unexpected_char_in_value_position() {
    assert_eq!(
        parse("{\"a\":#}"),
        Err(ParseError::UnexpectedChar { position: 5 })
    );
}

#[test]
fn unexpected_end_inside_object() {
    assert_eq!(parse("{\"a\":1"), Err(ParseError::UnexpectedEnd));
}

#[test]
fn unexpected_end_after_open_brace() {
    assert_eq!(parse("{"), Err(ParseError::UnexpectedEnd));
}

#[test]
fn unexpected_end_inside_array() {
    assert_eq!(parse("{\"a\":[1"), Err(ParseError::UnexpectedEnd));
}

#[test]
fn empty_input() {
    assert_eq!(parse(""), Err(ParseError::UnexpectedEnd));
}

#[test]
fn whitespace_only_input() {
    assert_eq!(parse(" \t\n "), Err(ParseError::UnexpectedEnd));
}

#[test]
fn document_root_must_be_object() {
    assert_eq!(
        parse("[1,2]"),
        Err(ParseError::UnexpectedChar { position: 0 })
    );
    assert_eq!(parse("123"), Err(ParseError::UnexpectedChar { position: 0 }));
}

#[test]
fn leading_garbage() {
    assert_eq!(parse("x{}"), Err(ParseError::UnexpectedChar { position: 0 }));
}

#[test]
fn missing_colon() {
    assert_eq!(
        parse("{\"a\" 1}"),
        Err(ParseError::UnexpectedChar { position: 5 })
    );
}

#[test]
fn missing_comma_between_pairs() {
    assert_eq!(
        parse("{\"a\":1 \"b\":2}"),
        Err(ParseError::UnexpectedChar { position: 7 })
    );
}

#[test]
fn comma_before_first_key() {
    assert_eq!(
        parse("{,\"a\":1}"),
        Err(ParseError::UnexpectedChar { position: 1 })
    );
}

#[test]
fn comma_in_value_position_of_array() {
    assert_eq!(
        parse("{\"a\":[,]}"),
        Err(ParseError::UnexpectedChar { position: 6 })
    );
}

#[test]
fn key_must_be_a_string() {
    assert_eq!(
        parse("{1:2}"),
        Err(ParseError::UnexpectedChar { position: 1 })
    );
}

#[test]
fn invalid_escape_error() {
    assert_eq!(parse("{\"a\":\"\\x\"}"), Err(ParseError::InvalidEscape));
}

#[test]
fn invalid_unicode_escape_too_short() {
    assert_eq!(
        parse("{\"a\":\"\\u12\"}"),
        Err(ParseError::InvalidUnicodeEscape)
    );
}

#[test]
fn invalid_unicode_escape_bad_digit() {
    assert_eq!(
        parse("{\"a\":\"\\u12g4\"}"),
        Err(ParseError::InvalidUnicodeEscape)
    );
}

#[test]
fn lone_high_surrogate_rejected() {
    assert_eq!(
        parse("{\"a\":\"\\ud800x\"}"),
        Err(ParseError::InvalidUnicodeEscape)
    );
}

#[test]
fn lone_low_surrogate_rejected() {
    assert_eq!(
        parse("{\"a\":\"\\udc00\"}"),
        Err(ParseError::InvalidUnicodeEscape)
    );
}

#[test]
fn high_surrogate_followed_by_non_surrogate_rejected() {
    assert_eq!(
        parse("{\"a\":\"\\ud800\\u0041\"}"),
        Err(ParseError::InvalidUnicodeEscape)
    );
}

#[test]
fn json_parser_surfaces_error() {
    assert_eq!(
        JsonParser::new(String::from("{\"a\":1}x")).err(),
        Some(ParseError::TrailingData)
    );
}
