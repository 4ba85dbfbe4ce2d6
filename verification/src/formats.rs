//! The JSON and TOML readers.  Reading a text is done by serde_json and toml_edit; what
//! they return is turned, one for one, into the library's own value types.
use vstd::prelude::*;
use crate::types::{JsonNumber, JsonValue, TomlDatetime, TomlDocument, TomlItem, TomlTable, TomlValue};

verus! {

#[verifier::external_type_specification]
#[verifier::external_body]
pub struct ExJsonValue(serde_json::Value);

#[verifier::external_type_specification]
#[verifier::external_body]
pub struct ExJsonNumber(serde_json::Number);

#[verifier::external_type_specification]
#[verifier::external_body]
pub struct ExJsonError(serde_json::Error);

#[verifier::external_type_specification]
#[verifier::external_body]
pub struct ExTomlItem(toml_edit::Item);

#[verifier::external_type_specification]
#[verifier::external_body]
pub struct ExTomlValue(toml_edit::Value);

#[verifier::external_type_specification]
#[verifier::external_body]
pub struct ExTomlTable(toml_edit::Table);

#[verifier::external_type_specification]
#[verifier::external_body]
pub struct ExTomlDatetime(toml_edit::Datetime);

/// The classes of failure that serde_json reports.
#[derive(Debug, Clone, Copy, PartialEq, Eq, Structural)]
pub enum JsonErrorCategory {
    Io,
    Syntax,
    Data,
    Eof,
}

/// What serde_json tells of a text it refused: its class, line and column (0 when it
/// names none), and its message.
#[derive(Debug)]
pub struct JsonSyntaxError {
    pub category: JsonErrorCategory,
    pub line: usize,
    pub column: usize,
    pub message: String,
}

/// What toml_edit tells of a text it refused: where the faulty span starts (a byte offset),
/// if it names one, and its message.
#[derive(Debug)]
pub struct TomlSyntaxError {
    pub span_start: Option<usize>,
    pub message: String,
}

/// What serde_json makes of a text: the value it reads, or why it refuses the text.
pub uninterp spec fn json_reading(text: Seq<char>) -> Result<JsonValue, JsonSyntaxError>;

/// What toml_edit makes of a text: the document it reads, or why it refuses the text.
pub uninterp spec fn toml_reading(text: Seq<char>) -> Result<TomlDocument, TomlSyntaxError>;

/// Trusted: `serde_json::from_str::<serde_json::Value>` on `text`, the value converted by
/// [`json_value_from`] and the error by [`json_error_from`].  Claimed: the result depends on
/// the text alone (it is `json_reading(text)`); nothing is claimed of which texts are JSON.
#[verifier::external_body]
pub(crate) fn read_json(text: &str) -> (res: Result<JsonValue, JsonSyntaxError>)
    ensures
        res == json_reading(text@),
{
    match serde_json::from_str::<serde_json::Value>(text) {
        Ok(value) => Ok(json_value_from(&value)),
        Err(error) => Err(json_error_from(&error)),
    }
}

/// Trusted: converts a `serde_json::Value` variant by variant; object members keep the
/// order in which `Map::iter` gives them.
#[verifier::external_body]
fn json_value_from(v: &serde_json::Value) -> JsonValue {
    match v {
        serde_json::Value::Null => JsonValue::Null,
        serde_json::Value::Bool(b) => JsonValue::Bool(*b),
        serde_json::Value::Number(n) => JsonValue::Number(json_number_from(n)),
        serde_json::Value::String(s) => JsonValue::String(s.clone()),
        serde_json::Value::Array(a) => JsonValue::Array(a.iter().map(json_value_from).collect()),
        serde_json::Value::Object(m) => JsonValue::Object(
            m.iter().map(|(k, x)| (k.clone(), json_value_from(x))).collect(),
        ),
    }
}

/// Trusted: a number's `Number::as_i64`, `Number::as_u64` and `Display` text.
#[verifier::external_body]
fn json_number_from(n: &serde_json::Number) -> JsonNumber {
    JsonNumber { as_i64: n.as_i64(), as_u64: n.as_u64(), text: n.to_string() }
}

/// Trusted: reads `serde_json::Error::classify`, `line`, `column` and its `Display` text.
#[verifier::external_body]
fn json_error_from(e: &serde_json::Error) -> JsonSyntaxError {
    let category = match e.classify() {
        serde_json::error::Category::Io => JsonErrorCategory::Io,
        serde_json::error::Category::Syntax => JsonErrorCategory::Syntax,
        serde_json::error::Category::Data => JsonErrorCategory::Data,
        serde_json::error::Category::Eof => JsonErrorCategory::Eof,
    };
    JsonSyntaxError { category, line: e.line(), column: e.column(), message: e.to_string() }
}

/// Trusted: `text.parse::<toml_edit::Document>()`, the root item converted by
/// [`toml_item_from`]; on failure, `TomlError::span`'s start and the error's `Display` text.
/// Claimed: the result depends on the text alone (it is `toml_reading(text)`).
#[verifier::external_body]
pub(crate) fn read_toml(text: &str) -> (res: Result<TomlDocument, TomlSyntaxError>)
    ensures
        res == toml_reading(text@),
{
    match text.parse::<toml_edit::Document>() {
        Ok(doc) => Ok(TomlDocument { root: toml_item_from(doc.as_item()) }),
        Err(e) => Err(TomlSyntaxError { span_start: e.span().map(|s| s.start), message: e.to_string() }),
    }
}

/// Trusted: converts a `toml_edit::Item` variant by variant; an array of tables keeps the
/// tables that `ArrayOfTables::iter` gives.
#[verifier::external_body]
fn toml_item_from(item: &toml_edit::Item) -> TomlItem {
    match item {
        toml_edit::Item::None => TomlItem::Empty,
        toml_edit::Item::Value(v) => TomlItem::Value(toml_value_from(v)),
        toml_edit::Item::Table(t) => TomlItem::Table(toml_table_from(t)),
        toml_edit::Item::ArrayOfTables(a) => TomlItem::ArrayOfTables(a.iter().map(toml_table_from).collect()),
    }
}

/// Trusted: converts a `toml_edit::Table` into the entries that `Table::iter` gives (it
/// passes over empty items), in order.
#[verifier::external_body]
fn toml_table_from(t: &toml_edit::Table) -> TomlTable {
    TomlTable { entries: t.iter().map(|(k, i)| (k.to_string(), toml_item_from(i))).collect() }
}

/// Trusted: converts a `toml_edit::Value` variant by variant; a float keeps its text, a
/// date-time which of its date and time parts are present and its text; arrays and inline
/// tables keep what their `iter` gives, in order.
#[verifier::external_body]
fn toml_value_from(v: &toml_edit::Value) -> TomlValue {
    match v {
        toml_edit::Value::String(s) => TomlValue::String(s.value().clone()),
        toml_edit::Value::Integer(i) => TomlValue::Integer(*i.value()),
        toml_edit::Value::Float(f) => TomlValue::Float(f.value().to_string()),
        toml_edit::Value::Boolean(b) => TomlValue::Boolean(*b.value()),
        toml_edit::Value::Datetime(d) => TomlValue::Datetime(toml_datetime_from(d.value())),
        toml_edit::Value::Array(a) => TomlValue::Array(a.iter().map(toml_value_from).collect()),
        toml_edit::Value::InlineTable(t) => TomlValue::InlineTable(
            t.iter().map(|(k, x)| (k.to_string(), toml_value_from(x))).collect(),
        ),
    }
}

/// Trusted: which of a `toml_edit::Datetime`'s `date` and `time` fields are present, and
/// its `Display` text.
#[verifier::external_body]
fn toml_datetime_from(d: &toml_edit::Datetime) -> TomlDatetime {
    TomlDatetime { has_date: d.date.is_some(), has_time: d.time.is_some(), text: d.to_string() }
}

} // verus!
