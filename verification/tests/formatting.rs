use toon::encode_key;
use toon::encode_primitive;
use toon::encode_string_literal;
use toon::escape_string;
use toon::format_header;
use toon::is_padded_with_whitespace;
use toon::is_safe_unquoted;
use toon::join_encoded_values;
use toon::Delimiter;
use toon::JsonPrimitive;
use toon::LineWriter;

#[test]
fn safe_unquoted_accepts_plain_words() {
    assert!(is_safe_unquoted("hello", &Delimiter::Comma));
    assert!(is_safe_unquoted("hello world", &Delimiter::Comma));
    assert!(is_safe_unquoted("a-b_c", &Delimiter::Comma));
}

#[test]
fn safe_unquoted_rejects_keywords_and_numbers() {
    assert!(!is_safe_unquoted("true", &Delimiter::Comma));
    assert!(!is_safe_unquoted("false", &Delimiter::Comma));
    assert!(!is_safe_unquoted("null", &Delimiter::Comma));
    assert!(!is_safe_unquoted("42", &Delimiter::Comma));
    assert!(!is_safe_unquoted("-3.14", &Delimiter::Comma));
    assert!(!is_safe_unquoted("1e-6", &Delimiter::Comma));
    assert!(!is_safe_unquoted("05", &Delimiter::Comma));
}

#[test]
fn safe_unquoted_rejects_structural_characters() {
    assert!(!is_safe_unquoted("", &Delimiter::Comma));
    assert!(!is_safe_unquoted("a:b", &Delimiter::Comma));
    assert!(!is_safe_unquoted("a\"b", &Delimiter::Comma));
    assert!(!is_safe_unquoted("a\\b", &Delimiter::Comma));
    assert!(!is_safe_unquoted("a[b", &Delimiter::Comma));
    assert!(!is_safe_unquoted("a]b", &Delimiter::Comma));
    assert!(!is_safe_unquoted("a{b", &Delimiter::Comma));
    assert!(!is_safe_unquoted("a}b", &Delimiter::Comma));
    assert!(!is_safe_unquoted("a\nb", &Delimiter::Comma));
    assert!(!is_safe_unquoted("- item", &Delimiter::Comma));
    assert!(!is_safe_unquoted(" padded", &Delimiter::Comma));
    assert!(!is_safe_unquoted("padded ", &Delimiter::Comma));
}

#[test]
fn safe_unquoted_depends_on_active_delimiter() {
    assert!(!is_safe_unquoted("a,b", &Delimiter::Comma));
    assert!(is_safe_unquoted("a,b", &Delimiter::Pipe));
    assert!(!is_safe_unquoted("a|b", &Delimiter::Pipe));
    assert!(is_safe_unquoted("a|b", &Delimiter::Comma));
}

#[test]
fn incomplete_exponent_is_not_numeric_like() {
    assert!(is_safe_unquoted("1.5e", &Delimiter::Comma));
    assert!(is_safe_unquoted("e10", &Delimiter::Comma));
    assert!(is_safe_unquoted("1.", &Delimiter::Comma));
    assert!(is_safe_unquoted("-", &Delimiter::Comma));
}

#[test]
fn escape_string_escapes_five_specials() {
    assert_eq!(escape_string("a\\b\"c\nd\re\tf"), "a\\\\b\\\"c\\nd\\re\\tf");
    assert_eq!(escape_string("plain"), "plain");
}

#[test]
fn string_literal_quotes_and_escapes() {
    assert_eq!(encode_string_literal("hello", &Delimiter::Comma), "hello");
    assert_eq!(encode_string_literal("a\"b", &Delimiter::Comma), "\"a\\\"b\"");
    assert_eq!(encode_string_literal("x\ny", &Delimiter::Comma), "\"x\\ny\"");
}

#[test]
fn keys_quote_unless_identifier_like() {
    assert_eq!(encode_key("abc_1.x"), "abc_1.x");
    assert_eq!(encode_key("_start"), "_start");
    assert_eq!(encode_key("2abc"), "\"2abc\"");
    assert_eq!(encode_key("has space"), "\"has space\"");
    assert_eq!(encode_key(""), "\"\"");
}

#[test]
fn primitives_render_canonical_tokens() {
    assert_eq!(encode_primitive(&JsonPrimitive::Null, &Delimiter::Comma), "null");
    assert_eq!(encode_primitive(&JsonPrimitive::Boolean(true), &Delimiter::Comma), "true");
    assert_eq!(encode_primitive(&JsonPrimitive::Number("9.99".to_string()), &Delimiter::Comma), "9.99");
    assert_eq!(encode_primitive(&JsonPrimitive::String("true".to_string()), &Delimiter::Comma), "\"true\"");
}

#[test]
fn join_uses_delimiter_character() {
    let a = JsonPrimitive::Number("1".to_string());
    let b = JsonPrimitive::String("x".to_string());
    let vals = vec![&a, &b];
    assert_eq!(join_encoded_values(&vals, &Delimiter::Comma), "1,x");
    assert_eq!(join_encoded_values(&vals, &Delimiter::Pipe), "1|x");
    let empty: Vec<&JsonPrimitive> = vec![];
    assert_eq!(join_encoded_values(&empty, &Delimiter::Comma), "");
}

#[test]
fn header_shapes() {
    assert_eq!(format_header(0, None, None, &Delimiter::Comma, None), "[0]:");
    assert_eq!(format_header(3, Some("xs"), None, &Delimiter::Comma, None), "xs[3]:");
    assert_eq!(format_header(3, Some("xs"), None, &Delimiter::Tab, None), "xs[3\t]:");
    assert_eq!(format_header(12, Some("xs"), None, &Delimiter::Comma, Some('#')), "xs[#12]:");
    let fields = vec!["a".to_string(), "b c".to_string()];
    assert_eq!(
        format_header(2, Some("t"), Some(&fields), &Delimiter::Comma, None),
        "t[2]{a,\"b c\"}:",
    );
    assert_eq!(
        format_header(2, None, Some(&fields), &Delimiter::Pipe, None),
        "[2|]{a|\"b c\"}:",
    );
}

#[test]
fn delimiter_accessors() {
    assert_eq!(Delimiter::Comma.as_str(), ",");
    assert_eq!(Delimiter::Tab.as_str(), "\t");
    assert_eq!(Delimiter::Pipe.as_str(), "|");
    assert!(Delimiter::Comma.is_default());
    assert!(!Delimiter::Tab.is_default());
    assert!(!Delimiter::Pipe.is_default());
}

#[test]
fn unicode_whitespace_padding_forces_quoting() {
    assert!(!is_safe_unquoted("\u{00A0}x", &Delimiter::Comma));
    assert!(!is_safe_unquoted("x\u{2009}", &Delimiter::Comma));
    assert!(!is_safe_unquoted("\u{2028}", &Delimiter::Comma));
    assert!(!is_safe_unquoted("\u{3000}x", &Delimiter::Comma));
    assert!(is_safe_unquoted("a\u{00A0}b", &Delimiter::Comma));
    assert!(is_padded_with_whitespace("\u{00A0}x"));
    assert!(is_padded_with_whitespace("x\u{0085}"));
    assert!(!is_padded_with_whitespace("a\u{00A0}b"));
    assert_eq!(
        encode_string_literal("\u{00A0}x", &Delimiter::Comma),
        "\"\u{00A0}x\"",
    );
}

#[test]
fn padding_detection() {
    assert!(is_padded_with_whitespace(" x"));
    assert!(is_padded_with_whitespace("x\t"));
    assert!(!is_padded_with_whitespace("x y"));
    assert!(!is_padded_with_whitespace(""));
}

#[test]
fn line_writer_indents_and_joins() {
    let mut w = LineWriter::new(2);
    w.push(0, "a:".to_string());
    w.push(1, "b: 1".to_string());
    w.push(2, "c".to_string());
    assert_eq!(w.to_string(), "a:\n  b: 1\n    c");
}

#[test]
fn line_writer_empty_output_is_empty_string() {
    let w = LineWriter::new(2);
    assert_eq!(w.to_string(), "");
}
