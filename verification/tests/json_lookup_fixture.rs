use config_parser::adapters::json::get_json_at_path;
use config_parser::adapters::parse_json;
use config_parser::errors::PathError;
use config_parser::path::{create_value_path, ValidatedPath, ValuePath};
use config_parser::types::JsonValue;

/// A JSON document written as text.
fn json(text: &str) -> JsonValue {
    parse_json(text).unwrap()
}

/// The JSON fixture the tests below read from.
fn jfix() -> JsonValue {
    json(
        r#"{
            "top": {
                "int": 1,
                "bool": true,
                "null": null,
                "str": "hi",
                "spaced key": { "dot.key": "v", "emoji": "🦀" }
            },
            "nested": {
                "a": { "b": { "c": 123 } },
                "arr_in_obj": [ { "x": 1 }, { "y": [10, 20, 30] } ]
            },
            "arrays": {
                "nums": [0, 1, 2],
                "mixed": [1, "two", false, null, { "k": "v" }, [9, 8]],
                "len1": ["only"],
                "empty": []
            },
            "i18n": {
                "ключ": "значение",
                "日本語": { "キー": "値" }
            },
            "containers": {
                "obj": { "inner": { "leaf": "end" } },
                "empty_obj": {}
            },
            "root_array_like": [
                { "k": "v0" },
                { "k": "v1", "arr": [1, 2, 3] },
                "leaf"
            ]
        }"#,
    )
}

/// The key path written `text`.
fn create_value_path_from(text: &str) -> ValuePath {
    create_value_path(&ValidatedPath::new(text).unwrap()).unwrap()
}


#[test]
fn tests_read_json_resolves_simple_dot() {
    let data = jfix();
    let vp = create_value_path_from(r#"top.int"#);
    let result = get_json_at_path(&data, &vp).unwrap();
    let expected = &json(r#"1"#);
    assert_eq!(result, expected);
}

#[test]
fn tests_read_json_resolves_mixed_path_into_array_element() {
    let data = jfix();
    let vp = create_value_path_from(r#"nested.arr_in_obj[1].y[2]"#);
    let result = get_json_at_path(&data, &vp).unwrap();
    let expected = &json(r#"30"#);
    assert_eq!(result, expected);
}

#[test]
fn tests_read_json_resolves_quoted_key_with_dot_and_space() {
    let data = jfix();
    let vp = create_value_path_from(r#"top["spaced key"]["dot.key"]"#);
    let result = get_json_at_path(&data, &vp).unwrap();
    let expected = &json(r#""v""#);
    assert_eq!(result, expected);
}

#[test]
fn tests_read_json_resolves_unicode_keys() {
    let data = jfix();
    let vp = create_value_path_from(r#"i18n["ключ"]"#);
    let result = get_json_at_path(&data, &vp).unwrap();
    let expected = &json(r#""значение""#);
    assert_eq!(result, expected);
}

#[test]
fn tests_read_json_errors_on_empty_path() {
    let data = jfix();
    let vp = ValuePath::default();
    let err = get_json_at_path(&data, &vp).unwrap_err();
    let result = matches!(err, PathError::EmptyPath);
    let expected = true;
    assert_eq!(result, expected);
}

#[test]
fn tests_read_json_errors_on_key_not_found() {
    let data = jfix();
    let vp = create_value_path_from(r#"top.missing"#);
    let err = get_json_at_path(&data, &vp).unwrap_err();
    let result = matches!(err, PathError::KeyNotFound { .. });
    let expected = true;
    assert_eq!(result, expected);
}

#[test]
fn tests_read_json_errors_on_not_an_object() {
    let data = jfix();
    let vp = create_value_path_from(r#"arrays.nums[0].x"#);
    let err = get_json_at_path(&data, &vp).unwrap_err();
    let result = matches!(err, PathError::NotAnObject { .. });
    let expected = true;
    assert_eq!(result, expected);
}

#[test]
fn tests_read_json_errors_on_not_an_array() {
    let data = jfix();
    let vp = create_value_path_from(r#"top.int[0]"#);
    let err = get_json_at_path(&data, &vp).unwrap_err();
    let result = matches!(err, PathError::NotAnArray { .. });
    let expected = true;
    assert_eq!(result, expected);
}

#[test]
fn tests_read_json_errors_on_index_out_of_bounds() {
    let data = jfix();
    let vp = create_value_path_from(r#"arrays.nums[99]"#);
    let err = get_json_at_path(&data, &vp).unwrap_err();
    let result = matches!(err, PathError::IndexOutOfBounds { .. });
    let expected = true;
    assert_eq!(result, expected);
}
