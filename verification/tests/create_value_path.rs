use config_parser::path::{create_value_path, PathResult, PathSeg, ValidatedPath, ValuePath};

/// The segments of a path, keys as written and indices in decimal.
fn create_segments_from(vp: &ValuePath) -> Vec<String> {
    vp.0.iter()
        .map(|seg| match seg {
            PathSeg::Key(k) => k.clone(),
            PathSeg::Index(i) => i.to_string(),
        })
        .collect()
}

#[test]
fn parses_dot_only() -> PathResult<()> {
    let test_path = r#"top.int"#;
    let validated_path = ValidatedPath::new(test_path)?;
    let value_path = create_value_path(&validated_path)?;
    let result = create_segments_from(&value_path);
    let expected = ["top", "int"];
    assert_eq!(result, expected);
    Ok(())
}

#[test]
fn parses_index_in_brackets() -> PathResult<()> {
    let test_path = r#"arrays.nums[2]"#;
    let validated_path = ValidatedPath::new(test_path)?;
    let value_path = create_value_path(&validated_path)?;
    let result = create_segments_from(&value_path);
    let expected = ["arrays", "nums", "2"];
    assert_eq!(result, expected);
    Ok(())
}

#[test]
fn parses_multiple_consecutive_indices() -> PathResult<()> {
    let test_path = r#"root_array_like[1][2]"#;
    let validated_path = ValidatedPath::new(test_path)?;
    let value_path = create_value_path(&validated_path)?;
    let result = create_segments_from(&value_path);
    let expected = ["root_array_like", "1", "2"];
    assert_eq!(result, expected);
    Ok(())
}

#[test]
fn parses_mixed_dot_and_brackets() -> PathResult<()> {
    let test_path = r#"nested.arr_in_obj[1].y[2]"#;
    let validated_path = ValidatedPath::new(test_path)?;
    let value_path = create_value_path(&validated_path)?;
    let result = create_segments_from(&value_path);
    let expected = ["nested", "arr_in_obj", "1", "y", "2"];
    assert_eq!(result, expected);
    Ok(())
}

#[test]
fn parses_quoted_key_double_quotes() -> PathResult<()> {
    let test_path = r#"top["spaced key"]["dot.key"]"#;
    let validated_path = ValidatedPath::new(test_path)?;
    let value_path = create_value_path(&validated_path)?;
    let result = create_segments_from(&value_path);
    let expected = ["top", "spaced key", "dot.key"];
    assert_eq!(result, expected);
    Ok(())
}

#[test]
fn parses_quoted_key_single_quotes() -> PathResult<()> {
    let test_path = r#"top['spaced key']['emoji']"#;
    let validated_path = ValidatedPath::new(test_path)?;
    let value_path = create_value_path(&validated_path)?;
    let result = create_segments_from(&value_path);
    let expected = ["top", "spaced key", "emoji"];
    assert_eq!(result, expected);
    Ok(())
}

#[test]
fn parses_unicode_keys() -> PathResult<()> {
    let test_path0 = r#"i18n["ключ"]"#;
    let validated0: ValidatedPath = test_path0.parse()?;
    let value_path0 = create_value_path(&validated0)?;
    let result0 = create_segments_from(&value_path0);
    let expected0 = ["i18n", "ключ"];
    assert_eq!(result0, expected0);
    let test_path1 = r#"i18n["日本語"]["キー"]"#;
    let validated1: ValidatedPath = test_path1.parse()?;
    let value_path1 = create_value_path(&validated1)?;
    let result1 = create_segments_from(&value_path1);
    let expected1 = ["i18n", "日本語", "キー"];
    assert_eq!(result1, expected1);
    Ok(())
}
