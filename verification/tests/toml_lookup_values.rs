use config_parser::adapters::parse_toml;
use config_parser::adapters::toml::{get_toml_at_path, TomlAt};
use config_parser::errors::PathError;
use config_parser::path::{create_value_path, PathResult, ValidatedPath, ValuePath};
use config_parser::types::{TomlDocument, TomlValue};

/// A TOML document written as text.
fn toml(text: &str) -> TomlDocument {
    parse_toml(text).unwrap()
}

/// The integer a TOML value holds, if it is an integer.
fn as_integer(v: &TomlValue) -> Option<i64> {
    match v {
        TomlValue::Integer(i) => Some(*i),
        _ => None,
    }
}

/// The text a TOML value holds, if it is a string.
fn as_str(v: &TomlValue) -> Option<&str> {
    match v {
        TomlValue::String(s) => Some(s.as_str()),
        _ => None,
    }
}

#[test]
fn tests_toml_resolves_table_dot() -> PathResult<()> {
    let doc = toml(
        r#"
        [top]
        int = 1
    "#,
    );

    {
        let test_path = r#"top.int"#;
        let expected = 1;

        let validated_path = ValidatedPath::new(test_path)?;
        let value_path = create_value_path(&validated_path)?;

        let result = get_toml_at_path(doc.as_item(), &value_path).unwrap();
        let result = match result {
            TomlAt::Value(v) => as_integer(v).unwrap(),
            other => panic!("expected Value, got {:?}", &other),
        };

        assert_eq!(result, expected);
    }
    Ok(())
}

#[test]
fn tests_toml_resolves_inline_table_and_quoted_key() -> PathResult<()> {
    let doc = toml(
        r#"
        [top]
        "spaced key" = { "dot.key" = "v", emoji = "🦀" }
    "#,
    );

    {
        let test_path = r#"top["spaced key"]["dot.key"]"#;
        let expected = "v";

        let validated_path = ValidatedPath::new(test_path)?;
        let value_path = create_value_path(&validated_path)?;

        let result = get_toml_at_path(doc.as_item(), &value_path).unwrap();
        let result = match result {
            TomlAt::Value(v) => as_str(v).unwrap(),
            other => panic!("expected Value, got {:?}", &other),
        };

        assert_eq!(result, expected);
    }
    Ok(())
}

#[test]
fn tests_toml_resolves_array_values_by_index() -> PathResult<()> {
    let doc = toml(
        r#"
        [arrays]
        nums = [0, 1, 2]
    "#,
    );

    {
        let test_path = r#"arrays.nums[2]"#;
        let expected = 2;

        let validated_path = ValidatedPath::new(test_path)?;
        let value_path = create_value_path(&validated_path)?;

        let result = get_toml_at_path(doc.as_item(), &value_path).unwrap();
        let result = match result {
            TomlAt::Value(v) => as_integer(v).unwrap(),
            other => panic!("expected Value, got {:?}", &other),
        };

        assert_eq!(result, expected);
    }
    Ok(())
}

#[test]
fn toml_resolves_array_of_tables_and_nested_array() -> PathResult<()> {
    let doc = toml(
        r#"
        [[root_array_like]]
        k = "v0"

        [[root_array_like]]
        k = "v1"
        arr = [1, 2, 3]
    "#,
    );

    {
        let test_path = r#"root_array_like[1].k"#;
        let expected = "v1";

        let validated_path = ValidatedPath::new(test_path)?;
        let value_path = create_value_path(&validated_path)?;

        let result = get_toml_at_path(doc.as_item(), &value_path).unwrap();
        let result = match result {
            TomlAt::Value(v) => as_str(v).unwrap(),
            other => panic!("expected Value, got {:?}", &other),
        };

        assert_eq!(result, expected);
    }
    {
        let test_path = r#"root_array_like[1].arr[2]"#;
        let expected = 3;

        let validated_path = ValidatedPath::new(test_path)?;
        let value_path = create_value_path(&validated_path)?;

        let result = get_toml_at_path(doc.as_item(), &value_path).unwrap();
        let result = match result {
            TomlAt::Value(v) => as_integer(v).unwrap(),
            other => panic!("expected Value, got {:?}", &other),
        };

        assert_eq!(result, expected);
    }
    Ok(())
}

#[test]
fn tests_toml_errors_on_empty_path() -> PathResult<()> {
    let doc = toml(
        r#"
        [top]
        int = 1
    "#,
    );

    let value_path = ValuePath::default();
    let err = get_toml_at_path(doc.as_item(), &value_path).unwrap_err();

    assert!(matches!(err, PathError::EmptyPath), "unexpected error variant: {err:?}");
    Ok(())
}

#[test]
fn tests_toml_errors_on_key_not_found() -> PathResult<()> {
    let doc = toml(
        r#"
        [top]
        int = 1
    "#,
    );

    let test_path = r#"top.missing"#;

    let validated_path = ValidatedPath::new(test_path)?;
    let value_path = create_value_path(&validated_path)?;
    let err = get_toml_at_path(doc.as_item(), &value_path).unwrap_err();

    assert!(matches!(err, PathError::KeyNotFound { .. }), "unexpected error variant: {err:?}");
    Ok(())
}

#[test]
fn tests_toml_errors_on_not_an_object() -> PathResult<()> {
    let doc = toml(
        r#"
        [top]
        int = 1
    "#,
    );

    let test_path = r#"top.int.k"#;

    let validated_path = ValidatedPath::new(test_path)?;
    let value_path = create_value_path(&validated_path)?;
    let err = get_toml_at_path(doc.as_item(), &value_path).unwrap_err();

    assert!(matches!(err, PathError::NotAnObject { .. }), "unexpected error variant: {err:?}");
    Ok(())
}

#[test]
fn tests_toml_errors_on_not_an_array() -> PathResult<()> {
    let doc = toml(
        r#"
        [top]
        int = 1
    "#,
    );

    let test_path = r#"top.int[0]"#;

    let validated_path = ValidatedPath::new(test_path)?;
    let value_path = create_value_path(&validated_path)?;
    let err = get_toml_at_path(doc.as_item(), &value_path).unwrap_err();

    assert!(matches!(err, PathError::NotAnArray { .. }), "unexpected error variant: {err:?}");
    Ok(())
}

#[test]
fn tests_toml_errors_on_index_out_of_bounds_array_values() -> PathResult<()> {
    let doc = toml(
        r#"
        [arrays]
        nums = [0, 1, 2]
    "#,
    );

    let test_path = r#"arrays.nums[9]"#;

    let validated_path = ValidatedPath::new(test_path)?;
    let value_path = create_value_path(&validated_path)?;
    let err = get_toml_at_path(doc.as_item(), &value_path).unwrap_err();

    assert!(matches!(err, PathError::IndexOutOfBounds { .. }), "unexpected error variant: {err:?}");
    Ok(())
}

#[test]
fn tests_toml_errors_on_index_out_of_bounds_array_of_tables() -> PathResult<()> {
    let doc = toml(
        r#"
        [[root_array_like]]
        k = "v0"
    "#,
    );

    let test_path = r#"root_array_like[3].k"#;

    let validated_path = ValidatedPath::new(test_path)?;
    let value_path = create_value_path(&validated_path)?;
    let err = get_toml_at_path(doc.as_item(), &value_path).unwrap_err();

    assert!(matches!(err, PathError::IndexOutOfBounds { .. }), "unexpected error variant: {err:?}");
    Ok(())
}

#[test]
fn tests_toml_errors_on_indexing_into_table() -> PathResult<()> {
    let doc = toml(
        r#"
        [containers]
        obj = { inner = { leaf = "end" } }
    "#,
    );

    let test_path = r#"containers.obj[0]"#;

    let validated_path = ValidatedPath::new(test_path)?;
    let value_path = create_value_path(&validated_path)?;
    let err = get_toml_at_path(doc.as_item(), &value_path).unwrap_err();

    assert!(matches!(err, PathError::NotAnArray { .. }), "unexpected error variant: {err:?}");
    Ok(())
}

#[test]
fn tests_toml_errors_on_key_into_array_without_index() -> PathResult<()> {
    let doc = toml(
        r#"
        [[root_array_like]]
        k = "v0"
    "#,
    );

    let test_path = r#"root_array_like.k"#;

    let validated_path = ValidatedPath::new(test_path)?;
    let value_path = create_value_path(&validated_path)?;
    let err = get_toml_at_path(doc.as_item(), &value_path).unwrap_err();

    assert!(matches!(err, PathError::NotAnObject { .. } | PathError::KeyNotFound { .. }), "unexpected error variant: {err:?}");
    Ok(())
}
