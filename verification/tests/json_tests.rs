use mcp_rust::json::{parse_json_str, Json};

fn canonical(text: &str) -> String {
    parse_json_str(text).expect("well-formed input").to_text()
}

#[test]
fn test_parse_and_serialize_scalars() {
    assert_eq!(canonical("null"), "null");
    assert_eq!(canonical("true"), "true");
    assert_eq!(canonical("false"), "false");
    assert_eq!(canonical("0"), "0");
    assert_eq!(canonical("-17"), "-17");
    assert_eq!(canonical("\"hi\""), "\"hi\"");
}

#[test]
fn test_parse_and_serialize_nested() {
    let text = "{\"a\":[1,2,{\"b\":null}],\"c\":\"x\"}";
    assert_eq!(canonical(text), text);
}

#[test]
fn test_whitespace_is_tolerated() {
    assert_eq!(canonical(" { \"a\" : [ 1 , 2 ] } "), "{\"a\":[1,2]}");
}

#[test]
fn test_round_trip_is_byte_identical() {
    // serialize, parse, and serialize again: the texts agree byte for byte
    let first = canonical("{\"jsonrpc\":\"2.0\",\"id\":7,\"result\":{\"ok\":true}}");
    let second = canonical(first.as_str());
    assert_eq!(first, second);
}

#[test]
fn test_string_escapes_decode() {
    let parsed = parse_json_str("\"a\\n\\t\\\\\\\"b\\u0041\"").unwrap();
    match &parsed {
        Json::Str(cs) => {
            let s: String = cs.iter().collect();
            assert_eq!(s, "a\n\t\\\"bA");
        },
        _ => panic!("expected a string"),
    }
    // and re-encode canonically
    assert_eq!(parsed.to_text(), "\"a\\n\\t\\\\\\\"bA\"");
}

#[test]
fn test_surrogate_pair_escapes_decode() {
    let parsed = parse_json_str("\"\\uD83D\\uDE00\"").unwrap();
    match &parsed {
        Json::Str(cs) => {
            let s: String = cs.iter().collect();
            assert_eq!(s, "\u{1F600}");
        },
        _ => panic!("expected a string"),
    }
    // the character itself is above the control range, so it re-encodes bare
    assert_eq!(parsed.to_text(), "\"\u{1F600}\"");
    // an unpaired or badly paired surrogate is not a character
    assert!(parse_json_str("\"\\uD83D\"").is_none());
    assert!(parse_json_str("\"\\uD83Dx\"").is_none());
    assert!(parse_json_str("\"\\uD83D\\u0041\"").is_none());
    assert!(parse_json_str("\"\\uDE00\"").is_none());
}

#[test]
fn test_control_characters_are_escaped() {
    let v = Json::Str(vec!['\u{0001}']);
    assert_eq!(v.to_text(), "\"\\u0001\"");
    let back = parse_json_str("\"\\u0001\"").unwrap();
    assert_eq!(back.to_text(), "\"\\u0001\"");
}

#[test]
fn test_malformed_inputs_rejected() {
    assert!(parse_json_str("{ not json").is_none());
    assert!(parse_json_str("").is_none());
    assert!(parse_json_str("{\"a\":}").is_none());
    assert!(parse_json_str("[1,]").is_none());
    assert!(parse_json_str("\"unterminated").is_none());
    assert!(parse_json_str("1 2").is_none());
    assert!(parse_json_str("1.").is_none());
    assert!(parse_json_str("1e").is_none());
    assert!(parse_json_str("1e+").is_none());
    assert!(parse_json_str(".5").is_none());
    assert!(parse_json_str("-").is_none());
}

#[test]
fn test_fractions_and_exponents_round_trip() {
    assert_eq!(canonical("98.6"), "98.6");
    assert_eq!(canonical("-0.25"), "-0.25");
    assert_eq!(canonical("1e10"), "1e10");
    assert_eq!(canonical("6.022E23"), "6.022E23");
    assert_eq!(canonical("-2.5e-3"), "-2.5e-3");
    assert_eq!(canonical("{\"temperature\":98.6}"), "{\"temperature\":98.6}");
}

#[test]
fn test_non_integer_numbers_are_not_integers() {
    let v = parse_json_str("98.6").unwrap();
    assert!(v.as_int().is_none());
    assert!(v.as_str().is_none());
}

#[test]
fn test_number_bounds() {
    assert_eq!(canonical("9223372036854775807"), "9223372036854775807");
    assert_eq!(canonical("-9223372036854775808"), "-9223372036854775808");
    // out-of-range integers are kept as their exact text
    assert_eq!(canonical("9223372036854775808"), "9223372036854775808");
    assert_eq!(canonical("-9223372036854775809"), "-9223372036854775809");
    assert!(parse_json_str("9223372036854775808").unwrap().as_int().is_none());
}

#[test]
fn test_member_lookup() {
    let v = parse_json_str("{\"a\":1,\"b\":\"two\"}").unwrap();
    assert_eq!(v.get("a").and_then(|j| j.as_int()), Some(1));
    assert!(v.get("b").and_then(|j| j.as_str()).is_some());
    assert!(v.get("missing").is_none());
    let arr = parse_json_str("[1]").unwrap();
    assert!(arr.get("a").is_none());
}

#[test]
fn test_serde_json_agrees_with_canonical_text() {
    // our canonical output is real JSON: an independent parser reads the
    // same structure back
    let ours = canonical("{\"k\":[true,null,-3,\"s\"]}");
    let theirs: serde_json::Value = serde_json::from_str(ours.as_str()).unwrap();
    assert_eq!(theirs["k"][0], serde_json::Value::Bool(true));
    assert_eq!(theirs["k"][1], serde_json::Value::Null);
    assert_eq!(theirs["k"][2], serde_json::Value::from(-3));
    assert_eq!(theirs["k"][3], serde_json::Value::from("s"));
}

#[test]
fn test_serde_json_output_parses_with_ours() {
    let value = serde_json::from_str::<serde_json::Value>(
        "{\"x\": [1, {\"y\": \"z\"}], \"w\": false}",
    )
    .unwrap();
    let compact = serde_json::to_string(&value).unwrap();
    let parsed = parse_json_str(compact.as_str()).expect("their output is our input");
    assert_eq!(parsed.to_text(), compact);
}
