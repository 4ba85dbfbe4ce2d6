use config_parser::adapters::format_from_attempts;
use config_parser::errors::{DetectError, ParseError, SourceLocation};
use config_parser::formats::{JsonErrorCategory, JsonSyntaxError, TomlSyntaxError};
use config_parser::types::{ConfigFormat, JsonValue, TomlDocument, TomlItem, TomlTable};

fn json_err(category: JsonErrorCategory, line: usize, column: usize, message: &str) -> JsonSyntaxError {
    JsonSyntaxError { category, line, column, message: message.to_string() }
}

fn toml_err(span_start: Option<usize>, message: &str) -> TomlSyntaxError {
    TomlSyntaxError { span_start, message: message.to_string() }
}

fn empty_toml() -> TomlDocument {
    TomlDocument { root: TomlItem::Table(TomlTable { entries: vec![] }) }
}

#[test]
fn attempts_prefer_json() {
    let j: Result<JsonValue, JsonSyntaxError> = Ok(JsonValue::Null);
    let t: Result<TomlDocument, TomlSyntaxError> = Ok(empty_toml());
    assert_eq!(format_from_attempts(&j, &t).unwrap(), ConfigFormat::Json);
    let t: Result<TomlDocument, TomlSyntaxError> = Err(toml_err(None, "bad"));
    assert_eq!(format_from_attempts(&j, &t).unwrap(), ConfigFormat::Json);
}

#[test]
fn attempts_fall_back_to_toml() {
    let j: Result<JsonValue, JsonSyntaxError> = Err(json_err(JsonErrorCategory::Syntax, 1, 1, "j"));
    let t: Result<TomlDocument, TomlSyntaxError> = Ok(empty_toml());
    assert_eq!(format_from_attempts(&j, &t).unwrap(), ConfigFormat::Toml);
}

#[test]
fn attempts_that_both_fail_keep_both_messages() {
    let j: Result<JsonValue, JsonSyntaxError> = Err(json_err(JsonErrorCategory::Syntax, 1, 2, "json says no"));
    let t: Result<TomlDocument, TomlSyntaxError> = Err(toml_err(Some(3), "toml says no"));
    match format_from_attempts(&j, &t).unwrap_err() {
        DetectError::UnknownFormat { json_error, toml_error } => {
            assert_eq!(json_error, "json says no");
            assert_eq!(toml_error, "toml says no");
        }
        other => panic!("unexpected error {other:?}"),
    }
}

#[test]
fn json_reader_errors_are_clamped_and_located() {
    let src = "first\nsecond\nthird";
    match ParseError::json(src, json_err(JsonErrorCategory::Syntax, 2, 4, "m")) {
        ParseError::ForeignParseError { format, loc, source, snippet } => {
            assert_eq!(format, ConfigFormat::Json);
            assert_eq!(loc, SourceLocation::new(2, 4));
            assert_eq!(source, "m");
            assert_eq!(snippet, "second");
        }
        other => panic!("unexpected error {other:?}"),
    }
    match ParseError::json(src, json_err(JsonErrorCategory::Data, 0, 0, "m")) {
        ParseError::ForeignParseError { loc, snippet, .. } => {
            assert_eq!(loc, SourceLocation::new(1, 1));
            assert_eq!(snippet, "first");
        }
        other => panic!("unexpected error {other:?}"),
    }
    for category in [JsonErrorCategory::Io, JsonErrorCategory::Eof] {
        match ParseError::json(src, json_err(category, 3, 9, "m")) {
            ParseError::ForeignParseError { loc, .. } => assert_eq!(loc, SourceLocation::new(1, 1)),
            other => panic!("unexpected error {other:?}"),
        }
    }
    // a line past the end has an empty snippet
    match ParseError::json(src, json_err(JsonErrorCategory::Syntax, 9, 1, "m")) {
        ParseError::ForeignParseError { snippet, .. } => assert_eq!(snippet, ""),
        other => panic!("unexpected error {other:?}"),
    }
}

#[test]
fn toml_reader_errors_are_located_at_their_span() {
    let src = "a = 1\nb = ?\n";
    match ParseError::toml(src, toml_err(Some(10), "bad value")) {
        ParseError::ForeignParseError { format, loc, source, snippet } => {
            assert_eq!(format, ConfigFormat::Toml);
            assert_eq!(loc, SourceLocation::new(2, 5));
            assert_eq!(source, "bad value");
            assert_eq!(snippet, "b = ?");
        }
        other => panic!("unexpected error {other:?}"),
    }
    match ParseError::map_toml_error(src, toml_err(None, "no span")) {
        ParseError::ForeignParseError { loc, snippet, .. } => {
            assert_eq!(loc, SourceLocation::new(1, 1));
            assert_eq!(snippet, "a = 1");
        }
        other => panic!("unexpected error {other:?}"),
    }
    match ParseError::toml(src, toml_err(Some(1000), "far")) {
        ParseError::ForeignParseError { loc, snippet, .. } => {
            assert_eq!(loc, SourceLocation::new(3, 1));
            assert_eq!(snippet, "");
        }
        other => panic!("unexpected error {other:?}"),
    }
}

#[test]
fn toml_reader_error_spans_are_byte_offsets() {
    // "é" takes two bytes: byte 3 is the `x` on line 2
    match ParseError::toml("é\nx", toml_err(Some(3), "m")) {
        ParseError::ForeignParseError { loc, snippet, .. } => {
            assert_eq!(loc, SourceLocation::new(2, 1));
            assert_eq!(snippet, "x");
        }
        other => panic!("unexpected error {other:?}"),
    }
    match ParseError::toml("жж = ?", toml_err(Some(7), "m")) {
        ParseError::ForeignParseError { loc, .. } => assert_eq!(loc, SourceLocation::new(1, 6)),
        other => panic!("unexpected error {other:?}"),
    }
}
