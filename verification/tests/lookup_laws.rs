use config_parser::adapters::json::get_json_at_path;
use config_parser::adapters::toml::{get_toml_at_path, TomlAt};
use config_parser::adapters::{parse_json, parse_toml};
use config_parser::errors::PathError;
use config_parser::path::{create_value_path, PathSeg, ValidatedPath, ValuePath};
use config_parser::types::{JsonNumber, JsonValue, TomlItem, TomlValue, TypeKind};

fn path(text: &str) -> ValuePath {
    create_value_path(&ValidatedPath::new(text).unwrap()).unwrap()
}

fn keys(p: &ValuePath) -> Vec<String> {
    p.0.iter()
        .map(|s| match s {
            PathSeg::Key(k) => k.clone(),
            PathSeg::Index(i) => format!("[{i}]"),
        })
        .collect()
}

const DOC: &str = r#"{ "a": { "b": [ { "c": 7 }, "x" ] }, "n": 1 }"#;

#[test]
fn json_read_of_joined_path_is_read_of_parts() {
    let doc = parse_json(DOC).unwrap();
    let whole = get_json_at_path(&doc, &path("a.b[0].c")).unwrap();
    let middle = get_json_at_path(&doc, &path("a.b")).unwrap();
    let rest = get_json_at_path(middle, &path("[0].c")).unwrap();
    assert_eq!(whole, rest);
    assert_eq!(whole, &json_int(7));
}

#[test]
fn json_error_on_rest_names_whole_prefix() {
    let doc = parse_json(DOC).unwrap();
    let middle = get_json_at_path(&doc, &path("a.b")).unwrap();
    let err_rest = get_json_at_path(middle, &path("[1].c")).unwrap_err();
    let err_whole = get_json_at_path(&doc, &path("a.b[1].c")).unwrap_err();
    match (err_rest, err_whole) {
        (
            PathError::NotAnObject { prefix: p1, key: k1, found: f1 },
            PathError::NotAnObject { prefix: p2, key: k2, found: f2 },
        ) => {
            assert_eq!(keys(&p1), vec!["[1]"]);
            assert_eq!(keys(&p2), vec!["a", "b", "[1]"]);
            assert_eq!(k1, "c");
            assert_eq!(k2, "c");
            assert_eq!(f1, TypeKind::String);
            assert_eq!(f2, TypeKind::String);
        }
        other => panic!("unexpected errors {other:?}"),
    }
}

#[test]
fn json_error_names_the_deepest_value_reached() {
    let doc = parse_json(DOC).unwrap();
    match get_json_at_path(&doc, &path("a.b[5].c")).unwrap_err() {
        PathError::IndexOutOfBounds { prefix, index, len } => {
            assert_eq!(keys(&prefix), vec!["a", "b"]);
            assert_eq!(index, 5);
            assert_eq!(len, 2);
        }
        other => panic!("unexpected error {other:?}"),
    }
    match get_json_at_path(&doc, &path("n[0]")).unwrap_err() {
        PathError::NotAnArray { prefix, index, found } => {
            assert_eq!(keys(&prefix), vec!["n"]);
            assert_eq!(index, 0);
            assert_eq!(found, TypeKind::Int);
        }
        other => panic!("unexpected error {other:?}"),
    }
    match get_json_at_path(&doc, &path("a.zz.c")).unwrap_err() {
        PathError::KeyNotFound { prefix, key } => {
            assert_eq!(keys(&prefix), vec!["a"]);
            assert_eq!(key, "zz");
        }
        other => panic!("unexpected error {other:?}"),
    }
}

#[test]
fn json_repeated_key_keeps_the_last() {
    // The JSON reader keeps the last of repeated keys.
    let doc = parse_json(r#"{ "k": 1, "k": 2 }"#).unwrap();
    let v = get_json_at_path(&doc, &path("k")).unwrap();
    assert_eq!(v, &json_int(2));
}

#[test]
fn json_numbers_are_classified() {
    let doc = parse_json(r#"{ "i": -3, "u": 18446744073709551615, "f": 1.5 }"#).unwrap();
    assert_eq!(get_json_at_path(&doc, &path("i")).unwrap(), &json_int(-3));
    assert_eq!(
        get_json_at_path(&doc, &path("u")).unwrap(),
        &JsonValue::Number(JsonNumber { as_i64: None, as_u64: Some(u64::MAX), text: u64::MAX.to_string() })
    );
    assert_eq!(
        get_json_at_path(&doc, &path("f")).unwrap(),
        &JsonValue::Number(JsonNumber { as_i64: None, as_u64: None, text: "1.5".to_string() })
    );
    assert_eq!(TypeKind::from_json(get_json_at_path(&doc, &path("u")).unwrap()), TypeKind::Uint);
}

const TDOC: &str = r#"
[a]
b = [ { c = 7 }, "x" ]
n = 1

[[t]]
k = "v0"
"#;

#[test]
fn toml_read_of_joined_path_is_read_of_parts() {
    let doc = parse_toml(TDOC).unwrap();
    let whole = get_toml_at_path(doc.as_item(), &path("a.b[0].c")).unwrap();
    let middle = get_toml_at_path(doc.as_item(), &path("a.b")).unwrap();
    let middle = match middle {
        TomlAt::Value(v) => v,
        other => panic!("expected a value, got {other:?}"),
    };
    let middle_item = TomlItem::Value(TomlValue::Array(match middle {
        TomlValue::Array(items) => items.iter().map(clone_value).collect(),
        other => panic!("expected an array, got {other:?}"),
    }));
    let rest = get_toml_at_path(&middle_item, &path("[0].c")).unwrap();
    assert_eq!(whole.as_value(), rest.as_value());
    assert_eq!(whole.as_value(), Some(&TomlValue::Integer(7)));
}

fn clone_value(v: &TomlValue) -> TomlValue {
    match v {
        TomlValue::String(s) => TomlValue::String(s.clone()),
        TomlValue::Integer(i) => TomlValue::Integer(*i),
        TomlValue::Float(f) => TomlValue::Float(f.clone()),
        TomlValue::Boolean(b) => TomlValue::Boolean(*b),
        TomlValue::Datetime(_) => panic!("not needed here"),
        TomlValue::Array(items) => TomlValue::Array(items.iter().map(clone_value).collect()),
        TomlValue::InlineTable(entries) => {
            TomlValue::InlineTable(entries.iter().map(|(k, v)| (k.clone(), clone_value(v))).collect())
        }
    }
}

#[test]
fn toml_values_are_handed_out_as_values() {
    let doc = parse_toml(TDOC).unwrap();
    assert!(matches!(get_toml_at_path(doc.as_item(), &path("a.n")).unwrap(), TomlAt::Value(TomlValue::Integer(1))));
    assert!(matches!(get_toml_at_path(doc.as_item(), &path("t[0].k")).unwrap(), TomlAt::Value(_)));
    let table = get_toml_at_path(doc.as_item(), &path("a")).unwrap();
    assert!(matches!(table, TomlAt::Item(TomlItem::Table(_))));
    assert_eq!(table.as_value(), None);
    let aot_entry = get_toml_at_path(doc.as_item(), &path("t[0]")).unwrap();
    assert!(matches!(aot_entry, TomlAt::Table(_)));
    assert_eq!(aot_entry.as_value(), None);
}

#[test]
fn toml_error_names_the_deepest_place_reached() {
    let doc = parse_toml(TDOC).unwrap();
    match get_toml_at_path(doc.as_item(), &path("t[3].k")).unwrap_err() {
        PathError::IndexOutOfBounds { prefix, index, len } => {
            assert_eq!(keys(&prefix), vec!["t"]);
            assert_eq!(index, 3);
            assert_eq!(len, 1);
        }
        other => panic!("unexpected error {other:?}"),
    }
    match get_toml_at_path(doc.as_item(), &path("t[0][1]")).unwrap_err() {
        PathError::NotAnArray { prefix, index, found } => {
            assert_eq!(keys(&prefix), vec!["t", "[0]"]);
            assert_eq!(index, 1);
            assert_eq!(found, TypeKind::Object);
        }
        other => panic!("unexpected error {other:?}"),
    }
    match get_toml_at_path(doc.as_item(), &path("t.k")).unwrap_err() {
        PathError::NotAnObject { prefix, key, found } => {
            assert_eq!(keys(&prefix), vec!["t"]);
            assert_eq!(key, "k");
            assert_eq!(found, TypeKind::Array);
        }
        other => panic!("unexpected error {other:?}"),
    }
}

#[test]
fn toml_date_and_time_kinds() {
    let doc = parse_toml("d = 1979-05-27\nt = 07:32:00\ndt = 1979-05-27T07:32:00Z\n").unwrap();
    let kind = |p: &str| match get_toml_at_path(doc.as_item(), &path(p)).unwrap() {
        TomlAt::Value(v) => TypeKind::from_toml_value(v),
        other => panic!("expected a value, got {other:?}"),
    };
    assert_eq!(kind("d"), TypeKind::Date);
    assert_eq!(kind("t"), TypeKind::Time);
    assert_eq!(kind("dt"), TypeKind::DateTime);
    match get_toml_at_path(doc.as_item(), &path("dt.x")).unwrap_err() {
        PathError::NotAnObject { found, .. } => assert_eq!(found, TypeKind::DateTime),
        other => panic!("unexpected error {other:?}"),
    }
}

#[test]
fn toml_inline_table_keys_keep_their_text() {
    let doc = parse_toml("x = { \"a b\" = 1, 'c.d' = 2 }").unwrap();
    let v = get_toml_at_path(doc.as_item(), &path(r#"x["a b"]"#)).unwrap();
    assert_eq!(v.as_value(), Some(&TomlValue::Integer(1)));
    let v = get_toml_at_path(doc.as_item(), &path("x['c.d']")).unwrap();
    assert_eq!(v.as_value(), Some(&TomlValue::Integer(2)));
}

/// The JSON value of a small integer.
fn json_int(i: i64) -> JsonValue {
    JsonValue::Number(JsonNumber { as_i64: Some(i), as_u64: u64::try_from(i).ok(), text: i.to_string() })
}

#[test]
fn json_number_kinds_follow_the_reader() {
    let n = |as_i64, as_u64| JsonValue::Number(JsonNumber { as_i64, as_u64, text: String::new() });
    assert_eq!(TypeKind::from_json(&n(Some(5), Some(5))), TypeKind::Int);
    assert_eq!(TypeKind::from_json(&n(Some(-5), None)), TypeKind::Int);
    assert_eq!(TypeKind::from_json(&n(None, Some(5))), TypeKind::Uint);
    assert_eq!(TypeKind::from_json(&n(None, None)), TypeKind::Float);
    let doc = parse_json("[5, -5, 18446744073709551615, 0.5]").unwrap();
    let kinds: Vec<TypeKind> = (0..4).map(|i| TypeKind::from_json(get_json_at_path(&doc, &path(&format!("[{i}]"))).unwrap())).collect();
    assert_eq!(kinds, vec![TypeKind::Int, TypeKind::Int, TypeKind::Uint, TypeKind::Float]);
}
