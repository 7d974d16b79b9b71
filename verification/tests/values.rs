use key_forge::b64::{decode_base64, encode_base64};
use key_forge::numtext::{int_to_chars, parse_i32_chars};
use key_forge::parse::{parse_value, split_array_elements, split_dict_pairs};
use key_forge::tokenize::{is_valid_identifier, parse_block_commands, tokenize_input, wrap_string};
use key_forge::value::{value_to_string, ParsedValue};

#[test]
fn parse_literal_int() {
    assert!(matches!(parse_value("42"), ParsedValue::Int(42)));
    assert!(matches!(parse_value("  -7 "), ParsedValue::Int(-7)));
}

#[test]
fn parse_literal_float() {
    match parse_value("3.5") {
        ParsedValue::Float(bits) => assert_eq!(bits, (3.5f64).to_bits()),
        _ => panic!("expected a float"),
    }
}

#[test]
fn parse_literal_quoted_numeric_stays_string() {
    assert!(matches!(parse_value("'5'"), ParsedValue::Str(s) if s == "5"));
    assert!(matches!(parse_value("\"3.5\""), ParsedValue::Str(s) if s == "3.5"));
}

#[test]
fn parse_literal_plain_string() {
    assert!(matches!(parse_value("abc"), ParsedValue::Str(s) if s == "abc"));
}

#[test]
fn parse_literal_array() {
    match parse_value("[1, 2, 3]") {
        ParsedValue::Array(elems) => {
            assert_eq!(elems.len(), 3);
            assert!(matches!(elems[0], ParsedValue::Int(1)));
            assert!(matches!(elems[1], ParsedValue::Int(2)));
            assert!(matches!(elems[2], ParsedValue::Int(3)));
        },
        _ => panic!("expected an array"),
    }
}

#[test]
fn parse_literal_nested_array() {
    match parse_value("[[1, 2], 'x, y']") {
        ParsedValue::Array(elems) => {
            assert_eq!(elems.len(), 2);
            match &elems[0] {
                ParsedValue::Array(inner) => assert_eq!(inner.len(), 2),
                _ => panic!("expected a nested array"),
            }
            assert!(matches!(&elems[1], ParsedValue::Str(s) if s == "x, y"));
        },
        _ => panic!("expected an array"),
    }
}

#[test]
fn parse_literal_dict() {
    match parse_value("{a: 1, b: two}") {
        ParsedValue::Dict(pairs) => {
            assert_eq!(pairs.len(), 2);
            assert_eq!(pairs[0].0, "a");
            assert!(matches!(pairs[0].1, ParsedValue::Int(1)));
            assert_eq!(pairs[1].0, "b");
            assert!(matches!(&pairs[1].1, ParsedValue::Str(s) if s == "two"));
        },
        _ => panic!("expected a dictionary"),
    }
}

#[test]
fn rendering_nested_values() {
    let v = parse_value("[1, 'hi', [2]]");
    assert_eq!(value_to_string(&v), "[1, \"hi\", [2]]");
    let d = parse_value("{k: 3}");
    assert_eq!(value_to_string(&d), "{k: 3}");
}

#[test]
fn tokenize_quotes_and_spaces() {
    let toks = tokenize_input("set x 'a b'  c");
    assert_eq!(toks, vec!["set", "x", "a b", "c"]);
    assert_eq!(tokenize_input(""), Vec::<String>::new());
}

#[test]
fn block_commands_split_on_top_level_semicolons() {
    let cmds = parse_block_commands("print a ; if x then { print b ; print c } ; print d");
    assert_eq!(cmds, vec!["print a", "if x then { print b ; print c }", "print d"]);
}

#[test]
fn identifiers() {
    assert!(is_valid_identifier("abc_1"));
    assert!(is_valid_identifier("_x"));
    assert!(!is_valid_identifier("9a"));
    assert!(!is_valid_identifier(""));
    assert!(!is_valid_identifier("a-b"));
}

#[test]
fn wrap_string_adds_one_wrapper() {
    assert_eq!(wrap_string("abc", '"'), "\"abc\"");
}

#[test]
fn split_helpers_are_depth_aware() {
    let parts = split_array_elements("1, [2, 3], '4, 5'");
    assert_eq!(parts, vec!["1", "[2, 3]", "'4, 5'"]);
    let pairs = split_dict_pairs("a: 1, b: {c: 2, d: 3}");
    assert_eq!(pairs, vec!["a: 1", "b: {c: 2, d: 3}"]);
}

#[test]
fn int_text_round_trip() {
    let t: String = int_to_chars(-2147483648).into_iter().collect();
    assert_eq!(t, "-2147483648");
    let back = parse_i32_chars(&t.chars().collect());
    assert_eq!(back, Some(i32::MIN));
    assert_eq!(parse_i32_chars(&"2147483648".chars().collect()), None);
    assert_eq!(parse_i32_chars(&"12x".chars().collect()), None);
}

#[test]
fn base64_round_trip() {
    let e = encode_base64("hello");
    assert_eq!(e, "aGVsbG8=");
    assert_eq!(decode_base64(&e).unwrap(), "hello");
    assert!(decode_base64("!!!").is_err());
}
