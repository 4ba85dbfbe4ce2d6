//! Reading documents, and following key paths through them.
pub mod json;
pub mod toml;

use vstd::prelude::*;
use crate::errors::{
    is_json_parse_error, is_toml_parse_error, ConfigError, DetectError, DetectResult, ParseError,
    ParseResult,
};
use crate::formats::{json_reading, read_json, read_toml, toml_reading, JsonSyntaxError, TomlSyntaxError};
use crate::text::{trim, trimmed};
use crate::types::{ConfigDocument, ConfigFormat, JsonValue, TomlDocument};

verus! {

/// The format told from a JSON attempt and a TOML attempt on the same text: JSON when the
/// JSON reader accepted it, else TOML when the TOML reader did, else neither, with both
/// readers' messages.
pub fn format_from_attempts(
    json_attempt: &Result<JsonValue, JsonSyntaxError>,
    toml_attempt: &Result<TomlDocument, TomlSyntaxError>,
) -> (res: DetectResult<ConfigFormat>)
    ensures
        match res {
            Ok(f) => (json_attempt is Ok && f == ConfigFormat::Json) || (json_attempt is Err
                && toml_attempt is Ok && f == ConfigFormat::Toml),
            Err(DetectError::EmptyInput) => false,
            Err(DetectError::UnknownFormat { json_error, toml_error }) => {
                &&& json_attempt matches Err(je) && je.message@ == json_error@
                &&& toml_attempt matches Err(te) && te.message@ == toml_error@
            },
        },
{
    match json_attempt {
        Ok(_) => Ok(ConfigFormat::Json),
        Err(json_err) => match toml_attempt {
            Ok(_) => Ok(ConfigFormat::Toml),
            Err(toml_err) => Err(DetectError::UnknownFormat {
                json_error: json_err.message.clone(),
                toml_error: toml_err.message.clone(),
            }),
        },
    }
}

/// Tells the format of a text by its content: white space alone is no document; the text
/// without surrounding white space is tried as JSON first, and the whole text as TOML next.
pub fn detect_format(input: &str) -> (res: DetectResult<ConfigFormat>)
    ensures
        match res {
            Ok(f) => trimmed(input@).len() > 0 && ((json_reading(trimmed(input@)) is Ok && f
                == ConfigFormat::Json) || (json_reading(trimmed(input@)) is Err && toml_reading(
                input@,
            ) is Ok && f == ConfigFormat::Toml)),
            Err(DetectError::EmptyInput) => trimmed(input@).len() == 0,
            Err(DetectError::UnknownFormat { json_error, toml_error }) => {
                &&& trimmed(input@).len() > 0
                &&& json_reading(trimmed(input@)) matches Err(je) && je.message@ == json_error@
                &&& toml_reading(input@) matches Err(te) && te.message@ == toml_error@
            },
        },
{
    let text = trim(input);
    if text.as_str().is_empty() {
        return Err(DetectError::EmptyInput);
    }
    let json_attempt = read_json(text.as_str());
    if json_attempt.is_ok() {
        return Ok(ConfigFormat::Json);
    }
    let toml_attempt = read_toml(input);
    format_from_attempts(&json_attempt, &toml_attempt)
}

/// Reads a JSON document.
pub fn parse_json(data: &str) -> (res: ParseResult<JsonValue>)
    ensures
        match json_reading(data@) {
            Ok(v) => res == Ok::<JsonValue, ParseError>(v),
            Err(e) => res matches Err(p) && is_json_parse_error(p, data@, e),
        },
{
    match read_json(data) {
        Ok(v) => Ok(v),
        Err(e) => Err(ParseError::json(data, e)),
    }
}

/// Reads a TOML document.
pub fn parse_toml(data: &str) -> (res: ParseResult<TomlDocument>)
    requires
        data@.len() < usize::MAX,
    ensures
        match toml_reading(data@) {
            Ok(d) => res == Ok::<TomlDocument, ParseError>(d),
            Err(e) => res matches Err(p) && is_toml_parse_error(p, data@, e),
        },
{
    match read_toml(data) {
        Ok(d) => Ok(d),
        Err(e) => Err(ParseError::toml(data, e)),
    }
}

/// Tells the format of `data` and reads it in that format.
pub fn detect_and_parse(data: &str) -> (res: Result<ConfigDocument, ConfigError>)
    requires
        data@.len() < usize::MAX,
    ensures
        trimmed(data@).len() == 0 ==> res matches Err(ConfigError::Detect(DetectError::EmptyInput)),
        trimmed(data@).len() > 0 && json_reading(trimmed(data@)) is Ok ==> match json_reading(data@) {
            Ok(v) => res == Ok::<ConfigDocument, ConfigError>(ConfigDocument::Json(v)),
            Err(e) => res matches Err(ConfigError::Parse(p)) && is_json_parse_error(p, data@, e),
        },
        trimmed(data@).len() > 0 && json_reading(trimmed(data@)) is Err ==> match toml_reading(data@) {
            Ok(d) => res == Ok::<ConfigDocument, ConfigError>(ConfigDocument::Toml(d)),
            Err(te) => res matches Err(ConfigError::Detect(DetectError::UnknownFormat { json_error, toml_error }))
                && json_reading(trimmed(data@)) matches Err(je) && je.message@ == json_error@
                && te.message@ == toml_error@,
        },
{
    let format = match detect_format(data) {
        Ok(f) => f,
        Err(e) => return Err(ConfigError::Detect(e)),
    };
    match format {
        ConfigFormat::Json => match parse_json(data) {
            Ok(v) => Ok(ConfigDocument::Json(v)),
            Err(e) => Err(ConfigError::Parse(e)),
        },
        ConfigFormat::Toml => match parse_toml(data) {
            Ok(d) => Ok(ConfigDocument::Toml(d)),
            Err(e) => Err(ConfigError::Parse(e)),
        },
    }
}

} // verus!
