use toon::encode;
use toon::object_from_pairs;
use toon::Delimiter;
use toon::EncodeOptions;
use toon::JsonPrimitive;
use toon::JsonValue;

fn num(tok: &str) -> JsonValue {
    JsonValue::Primitive(JsonPrimitive::Number(tok.to_string()))
}

fn string(s: &str) -> JsonValue {
    JsonValue::Primitive(JsonPrimitive::String(s.to_string()))
}

fn obj(pairs: Vec<(&str, JsonValue)>) -> JsonValue {
    object_from_pairs(pairs.into_iter().map(|(k, v)| (k.to_string(), v)).collect())
}

#[test]
fn test_simple_object() {
    let data = obj(vec![("id", num("123")), ("name", string("Ada"))]);
    let result = encode(&data, None);
    assert!(result.contains("id: 123"));
    assert!(result.contains("name: Ada"));
}

#[test]
fn test_primitive_array() {
    let data = obj(vec![("tags", JsonValue::Array(vec![string("reading"), string("gaming")]))]);
    let result = encode(&data, None);
    assert_eq!(result, "tags[2]: reading,gaming");
}

#[test]
fn test_empty_object() {
    let data = obj(vec![]);
    let result = encode(&data, None);
    assert_eq!(result, "");
}

#[test]
fn sorted_keys_in_output() {
    let data = obj(vec![("id", num("123")), ("name", string("Ada"))]);
    let result = encode(&data, None);
    assert_eq!(result, "id: 123\nname: Ada");
}

#[test]
fn key_order_of_construction_is_irrelevant() {
    let a = obj(vec![("name", string("Ada")), ("id", num("123")), ("ok", JsonValue::Primitive(JsonPrimitive::Boolean(true)))]);
    let b = obj(vec![("ok", JsonValue::Primitive(JsonPrimitive::Boolean(true))), ("id", num("123")), ("name", string("Ada"))]);
    assert_eq!(encode(&a, None), encode(&b, None));
    assert_eq!(encode(&a, None), "id: 123\nname: Ada\nok: true");
}

#[test]
fn duplicate_keys_last_write_wins() {
    let data = object_from_pairs(vec![
        ("a".to_string(), num("1")),
        ("a".to_string(), num("2")),
    ]);
    assert_eq!(encode(&data, None), "a: 2");
}

#[test]
fn tabular_array_of_objects() {
    let row1 = obj(vec![("sku", string("A1")), ("qty", num("2")), ("price", num("9.99"))]);
    let row2 = obj(vec![("sku", string("B2")), ("qty", num("1")), ("price", num("14.5"))]);
    let data = obj(vec![("items", JsonValue::Array(vec![row1, row2]))]);
    let result = encode(&data, None);
    assert_eq!(result, "items[2]{price,qty,sku}:\n  9.99,2,A1\n  14.5,1,B2");
}

#[test]
fn tab_delimiter_marks_header_and_joins_rows() {
    let data = obj(vec![("tags", JsonValue::Array(vec![string("a"), string("b")]))]);
    let opts = EncodeOptions { indent: 2, delimiter: Delimiter::Tab, length_marker: None };
    let result = encode(&data, Some(opts));
    assert_eq!(result, "tags[2\t]: a\tb");
}

#[test]
fn pipe_delimiter_marks_header_and_joins_rows() {
    let data = obj(vec![("tags", JsonValue::Array(vec![string("a"), string("b")]))]);
    let opts = EncodeOptions { indent: 2, delimiter: Delimiter::Pipe, length_marker: None };
    let result = encode(&data, Some(opts));
    assert_eq!(result, "tags[2|]: a|b");
}

#[test]
fn mixed_array_as_list_items() {
    let inner = obj(vec![("name", string("object"))]);
    let data = obj(vec![("items", JsonValue::Array(vec![num("1"), inner, string("text")]))]);
    let result = encode(&data, None);
    assert_eq!(result, "items[3]:\n  - 1\n  - name: object\n  - text");
}

#[test]
fn empty_array_renders_header_only() {
    let data = obj(vec![("xs", JsonValue::Array(vec![]))]);
    assert_eq!(encode(&data, None), "xs[0]:");
}

#[test]
fn empty_nested_object_renders_bare_key() {
    let data = obj(vec![("cfg", obj(vec![]))]);
    assert_eq!(encode(&data, None), "cfg:");
}

#[test]
fn nested_object_indents_one_level() {
    let data = obj(vec![("a", obj(vec![("b", num("1"))]))]);
    assert_eq!(encode(&data, None), "a:\n  b: 1");
}

#[test]
fn indent_option_sets_spaces_per_level() {
    let data = obj(vec![("a", obj(vec![("b", num("1"))]))]);
    let opts = EncodeOptions { indent: 4, delimiter: Delimiter::Comma, length_marker: None };
    assert_eq!(encode(&data, Some(opts)), "a:\n    b: 1");
}

#[test]
fn length_marker_prefixes_lengths() {
    let data = obj(vec![("xs", JsonValue::Array(vec![num("1"), num("2")]))]);
    let opts = EncodeOptions { indent: 2, delimiter: Delimiter::Comma, length_marker: Some('#') };
    assert_eq!(encode(&data, Some(opts)), "xs[#2]: 1,2");
}

#[test]
fn array_of_primitive_arrays_as_list_items() {
    let data = obj(vec![(
        "m",
        JsonValue::Array(vec![
            JsonValue::Array(vec![num("1"), num("2")]),
            JsonValue::Array(vec![num("3")]),
        ]),
    )]);
    assert_eq!(encode(&data, None), "m[2]:\n  - [2]: 1,2\n  - [1]: 3");
}

#[test]
fn non_tabular_objects_fold_first_key_on_marker_line() {
    let data = obj(vec![(
        "items",
        JsonValue::Array(vec![obj(vec![("a", num("1"))]), obj(vec![("b", num("2"))])]),
    )]);
    assert_eq!(encode(&data, None), "items[2]:\n  - a: 1\n  - b: 2");
}

#[test]
fn list_item_object_with_nested_object_first() {
    let element = obj(vec![("a", obj(vec![("c", num("1"))])), ("b", num("2"))]);
    let data = obj(vec![("items", JsonValue::Array(vec![element]))]);
    assert_eq!(encode(&data, None), "items[1]:\n  - a:\n      c: 1\n    b: 2");
}

#[test]
fn list_item_anchored_array_header_carries_marker() {
    let element = obj(vec![("a", JsonValue::Array(vec![obj(vec![])]))]);
    let data = obj(vec![("items", JsonValue::Array(vec![element]))]);
    let opts = EncodeOptions { indent: 2, delimiter: Delimiter::Comma, length_marker: Some('#') };
    assert_eq!(encode(&data, Some(opts)), "items[#1]:\n  - a[#1]:\n    -");
}

#[test]
fn list_item_anchored_array_header_carries_delimiter_char() {
    let element = obj(vec![("a", JsonValue::Array(vec![obj(vec![])]))]);
    let data = obj(vec![("items", JsonValue::Array(vec![element]))]);
    let opts = EncodeOptions { indent: 2, delimiter: Delimiter::Tab, length_marker: None };
    assert_eq!(encode(&data, Some(opts)), "items[1\t]:\n  - a[1\t]:\n    -");
}

#[test]
fn list_item_anchored_mixed_array_recurses_below_its_header() {
    let element = obj(vec![(
        "a",
        JsonValue::Array(vec![num("1"), obj(vec![("b", num("1"))])]),
    )]);
    let data = obj(vec![("items", JsonValue::Array(vec![element]))]);
    assert_eq!(encode(&data, None), "items[1]:\n  - a[2]:\n    [2]:\n      - 1\n      - b: 1");
}

#[test]
fn mixed_array_drops_nested_non_primitive_array() {
    // An array element that is itself an array of non-primitives has no
    // list-item form and produces no output lines; the header still
    // counts it.
    let nested = JsonValue::Array(vec![obj(vec![("a", num("1"))])]);
    let data = obj(vec![("items", JsonValue::Array(vec![num("1"), nested]))]);
    assert_eq!(encode(&data, None), "items[2]:\n  - 1");
}

#[test]
fn empty_object_in_mixed_array_is_bare_dash() {
    let data = obj(vec![("items", JsonValue::Array(vec![num("1"), obj(vec![])]))]);
    assert_eq!(encode(&data, None), "items[2]:\n  - 1\n  -");
}

#[test]
fn primitive_root_is_bare_literal() {
    assert_eq!(encode(&string("hi"), None), "hi");
    assert_eq!(encode(&JsonValue::Primitive(JsonPrimitive::Null), None), "null");
    assert_eq!(encode(&JsonValue::Primitive(JsonPrimitive::Boolean(false)), None), "false");
}

#[test]
fn array_root_has_bare_header() {
    let data = JsonValue::Array(vec![num("1"), num("2")]);
    assert_eq!(encode(&data, None), "[2]: 1,2");
}

#[test]
fn strings_needing_quotes_are_quoted_in_output() {
    let data = obj(vec![
        ("a", string("true")),
        ("b", string("05")),
        ("c", string("x:y")),
        ("d", string(" padded")),
    ]);
    assert_eq!(
        encode(&data, None),
        "a: \"true\"\nb: \"05\"\nc: \"x:y\"\nd: \" padded\"",
    );
}

#[test]
fn delimiter_inside_string_forces_quoting_only_when_active() {
    let data = obj(vec![("v", string("a,b"))]);
    assert_eq!(encode(&data, None), "v: \"a,b\"");
    let opts = EncodeOptions { indent: 2, delimiter: Delimiter::Pipe, length_marker: None };
    let data2 = obj(vec![("v", string("a,b"))]);
    assert_eq!(encode(&data2, Some(opts)), "v: a,b");
}

#[test]
fn unquoted_row_tokens_split_back_exactly() {
    let data = obj(vec![(
        "tags",
        JsonValue::Array(vec![string("reading"), string("gaming"), string("a b")]),
    )]);
    let out = encode(&data, None);
    let row = out.strip_prefix("tags[3]: ").unwrap();
    let tokens: Vec<&str> = row.split(',').collect();
    assert_eq!(tokens, vec!["reading", "gaming", "a b"]);
}

#[test]
fn tabular_rows_have_one_token_per_field() {
    let row1 = obj(vec![("x", num("1")), ("y", string("u")), ("z", string("v"))]);
    let row2 = obj(vec![("x", num("2")), ("y", string("w")), ("z", string("q"))]);
    let data = obj(vec![("t", JsonValue::Array(vec![row1, row2]))]);
    let out = encode(&data, None);
    let lines: Vec<&str> = out.split('\n').collect();
    assert_eq!(lines[0], "t[2]{x,y,z}:");
    for line in &lines[1..] {
        assert_eq!(line.trim_start().split(',').count(), 3);
    }
}

#[test]
fn quoted_keys_when_not_identifiers() {
    let data = obj(vec![("has space", num("1")), ("ok.key_2", num("2"))]);
    assert_eq!(encode(&data, None), "\"has space\": 1\nok.key_2: 2");
}
