use config_parser::adapters::json::get_json_at_path;
use config_parser::adapters::parse_json;
use config_parser::errors::PathError;
use config_parser::path::{create_value_path, PathResult, ValidatedPath, ValuePath};
use config_parser::types::JsonValue;

/// A JSON document written as text.
fn json(text: &str) -> JsonValue {
    parse_json(text).unwrap()
}

/// The integer a JSON value holds, if it holds one that fits an `i64`.
fn as_i64(v: &JsonValue) -> Option<i64> {
    match v {
        JsonValue::Number(n) => n.as_i64,
        _ => None,
    }
}

/// The text a JSON value holds, if it is a string.
fn as_str(v: &JsonValue) -> Option<&str> {
    match v {
        JsonValue::String(s) => Some(s.as_str()),
        _ => None,
    }
}

// ---------- Positive ----------

#[test]
fn json_resolves_simple_dot() -> PathResult<()> {
    let document = json(r#"{ "top": { "int": 1 } }"#);
    let test_path = "top.int";
    let expected: i64 = 1;

    let validated_path = ValidatedPath::new(test_path)?;
    let value_path = create_value_path(&validated_path)?;

    let result = get_json_at_path(&document, &value_path)?;
    let result = as_i64(result)
        .ok_or_else(|| PathError::unsupported(value_path.clone(), "expected integer".to_string()))?;

    assert_eq!(result, expected);
    Ok(())
}

#[test]
fn json_resolves_mixed_path_into_array_element() -> PathResult<()> {
    let document = json(
        r#"{
            "nested": {
                "arr_in_obj": [
                    { "x": 1 },
                    { "y": [10, 20, 30] }
                ]
            }
        }"#,
    );
    let test_path = "nested.arr_in_obj[1].y[2]";
    let expected: i64 = 30;

    let validated_path = ValidatedPath::new(test_path)?;
    let value_path = create_value_path(&validated_path)?;

    let result = get_json_at_path(&document, &value_path)?;
    let result = as_i64(result)
        .ok_or_else(|| PathError::unsupported(value_path.clone(), "expected integer".to_string()))?;

    assert_eq!(result, expected);
    Ok(())
}

#[test]
fn json_resolves_quoted_key_with_dot_and_space() -> PathResult<()> {
    let document = json(
        r#"{
            "top": {
                "spaced key": { "dot.key": "v" }
            }
        }"#,
    );
    let test_path = r#"top["spaced key"]["dot.key"]"#;
    let expected = "v";

    let validated_path = ValidatedPath::new(test_path)?;
    let value_path = create_value_path(&validated_path)?;

    let result = get_json_at_path(&document, &value_path)?;
    let result = as_str(result)
        .ok_or_else(|| PathError::unsupported(value_path.clone(), "expected string".to_string()))?
        .to_owned();

    assert_eq!(result, expected);
    Ok(())
}

#[test]
fn json_resolves_unicode_keys() -> PathResult<()> {
    let document = json(r#"{ "i18n": { "ключ": "значение" } }"#);
    let test_path = r#"i18n["ключ"]"#;
    let expected = "значение";

    let validated_path = ValidatedPath::new(test_path)?;
    let value_path = create_value_path(&validated_path)?;

    let result = get_json_at_path(&document, &value_path)?;
    let result = as_str(result)
        .ok_or_else(|| PathError::unsupported(value_path.clone(), "expected string".to_string()))?
        .to_owned();

    assert_eq!(result, expected);
    Ok(())
}

// ---------- Negative Tests ----------

#[test]
fn json_errors_on_empty_path() -> PathResult<()> {
    let document = json("null");
    let value_path = ValuePath::default();

    let err = get_json_at_path(&document, &value_path).unwrap_err();
    assert!(matches!(err, PathError::EmptyPath), "unexpected error variant: {err:?}");

    Ok(())
}

#[test]
fn json_errors_on_key_not_found() -> PathResult<()> {
    let document = json(r#"{ "top": {} }"#);
    let test_path = "top.missing";

    let validated_path = ValidatedPath::new(test_path)?;
    let value_path = create_value_path(&validated_path)?;
    let err = get_json_at_path(&document, &value_path).unwrap_err();

    assert!(matches!(err, PathError::KeyNotFound { .. }), "unexpected error variant: {err:?}");

    Ok(())
}

#[test]
fn json_errors_on_not_an_object() -> PathResult<()> {
    // nums[0] is a number, so ".x" should cause NotAnObject
    let document = json(r#"{ "arrays": { "nums": [0] } }"#);
    let test_path = "arrays.nums[0].x";

    let validated_path = ValidatedPath::new(test_path)?;
    let value_path = create_value_path(&validated_path)?;
    let err = get_json_at_path(&document, &value_path).unwrap_err();

    assert!(matches!(err, PathError::NotAnObject { .. }), "unexpected error variant: {err:?}");

    Ok(())
}

#[test]
fn json_errors_on_not_an_array() -> PathResult<()> {
    // "int" is not an array, so "[0]" should cause NotAnArray
    let document = json(r#"{ "top": { "int": 1 } }"#);
    let test_path = "top.int[0]";

    let validated_path = ValidatedPath::new(test_path)?;
    let value_path = create_value_path(&validated_path)?;
    let err = get_json_at_path(&document, &value_path).unwrap_err();

    assert!(matches!(err, PathError::NotAnArray { .. }), "unexpected error variant: {err:?}");

    Ok(())
}

#[test]
fn json_errors_on_index_out_of_bounds() -> PathResult<()> {
    let document = json(r#"{ "arrays": { "nums": [0] } }"#);
    let test_path = "arrays.nums[99]";

    let validated_path = ValidatedPath::new(test_path)?;
    let value_path = create_value_path(&validated_path)?;
    let err = get_json_at_path(&document, &value_path).unwrap_err();

    assert!(matches!(err, PathError::IndexOutOfBounds { .. }), "unexpected error variant: {err:?}");

    Ok(())
}
