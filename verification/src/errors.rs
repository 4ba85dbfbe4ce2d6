//! The library's error types.
use vstd::prelude::*;
use crate::adapters::toml::chars_before_byte;
use crate::path::{path_text, SegView, ValuePath};
use crate::formats::{JsonErrorCategory, JsonSyntaxError, TomlSyntaxError};
use crate::text::{decimal_text, line_col_after, line_of, line_text, owned, push_decimal};
use crate::types::{type_kind_label, ConfigFormat, TypeKind};

verus! {

/// Why a key path could not be read from a document, or is not a well-formed key path.
#[derive(Debug)]
pub enum PathError {
    /// The path has no segment.
    EmptyPath,
    /// A key was asked of a value that is not an object (or table).
    NotAnObject {
        /// Path to the non-object value
        prefix: ValuePath,
        /// The key that was attempted
        key: String,
        /// The actual type found at `prefix`
        found: TypeKind,
    },
    /// An index was asked of a value that is not an array.
    NotAnArray {
        /// Path to the non-array value
        prefix: ValuePath,
        /// Index that was attempted
        index: usize,
        /// The actual type found at `prefix`
        found: TypeKind,
    },
    /// Children were asked of a scalar.
    NotAContainer {
        /// Path to the scalar value
        prefix: ValuePath,
        /// The scalar type that was found
        found: TypeKind,
    },
    /// The object at `prefix` has no such key.
    KeyNotFound {
        /// Path to the parent container
        prefix: ValuePath,
        /// The missing key
        key: String,
    },
    /// The array at `prefix` is too short for the index.
    IndexOutOfBounds {
        /// Path to the array value
        prefix: ValuePath,
        /// The index that was attempted
        index: usize,
        /// The length of the array at `prefix`
        len: usize,
    },
    /// A piece of key-path text is not valid where it stands.
    InvalidSegment {
        /// Path leading up to the invalid segment
        prefix: ValuePath,
        /// The raw text that failed
        segment: String,
        /// Why the segment is invalid
        reason: String,
    },
    /// The digits between `[` and `]` do not make an index.
    InvalidIndex {
        /// Path leading up to the array index
        prefix: ValuePath,
        /// The raw text inside the brackets
        raw: String,
    },
    /// An operation that the path layer does not support.
    Unsupported {
        /// Path where the unsupported operation was attempted
        prefix: ValuePath,
        /// What was unsupported
        message: String,
    },
}

/// A [`PathError`] as plain mathematical values.
pub enum PathErrorView {
    EmptyPath,
    NotAnObject { prefix: Seq<SegView>, key: Seq<char>, found: TypeKind },
    NotAnArray { prefix: Seq<SegView>, index: usize, found: TypeKind },
    NotAContainer { prefix: Seq<SegView>, found: TypeKind },
    KeyNotFound { prefix: Seq<SegView>, key: Seq<char> },
    IndexOutOfBounds { prefix: Seq<SegView>, index: usize, len: usize },
    InvalidSegment { prefix: Seq<SegView>, segment: Seq<char>, reason: Seq<char> },
    InvalidIndex { prefix: Seq<SegView>, raw: Seq<char> },
    Unsupported { prefix: Seq<SegView>, message: Seq<char> },
}

impl View for PathError {
    type V = PathErrorView;

    open spec fn view(&self) -> PathErrorView {
        match self {
            PathError::EmptyPath => PathErrorView::EmptyPath,
            PathError::NotAnObject { prefix, key, found } => PathErrorView::NotAnObject {
                prefix: prefix@,
                key: key@,
                found: *found,
            },
            PathError::NotAnArray { prefix, index, found } => PathErrorView::NotAnArray {
                prefix: prefix@,
                index: *index,
                found: *found,
            },
            PathError::NotAContainer { prefix, found } => PathErrorView::NotAContainer {
                prefix: prefix@,
                found: *found,
            },
            PathError::KeyNotFound { prefix, key } => PathErrorView::KeyNotFound {
                prefix: prefix@,
                key: key@,
            },
            PathError::IndexOutOfBounds { prefix, index, len } => PathErrorView::IndexOutOfBounds {
                prefix: prefix@,
                index: *index,
                len: *len,
            },
            PathError::InvalidSegment { prefix, segment, reason } => PathErrorView::InvalidSegment {
                prefix: prefix@,
                segment: segment@,
                reason: reason@,
            },
            PathError::InvalidIndex { prefix, raw } => PathErrorView::InvalidIndex {
                prefix: prefix@,
                raw: raw@,
            },
            PathError::Unsupported { prefix, message } => PathErrorView::Unsupported {
                prefix: prefix@,
                message: message@,
            },
        }
    }
}

impl PathError {
    pub fn not_object(prefix: ValuePath, key: String, found: TypeKind) -> (res: Self)
        ensures
            res@ == (PathErrorView::NotAnObject { prefix: prefix@, key: key@, found }),
    {
        PathError::NotAnObject { prefix, key, found }
    }

    pub fn not_array(prefix: ValuePath, index: usize, found: TypeKind) -> (res: Self)
        ensures
            res@ == (PathErrorView::NotAnArray { prefix: prefix@, index, found }),
    {
        PathError::NotAnArray { prefix, index, found }
    }

    pub fn key_not_found(prefix: ValuePath, key: String) -> (res: Self)
        ensures
            res@ == (PathErrorView::KeyNotFound { prefix: prefix@, key: key@ }),
    {
        PathError::KeyNotFound { prefix, key }
    }

    pub fn oob(prefix: ValuePath, index: usize, len: usize) -> (res: Self)
        ensures
            res@ == (PathErrorView::IndexOutOfBounds { prefix: prefix@, index, len }),
    {
        PathError::IndexOutOfBounds { prefix, index, len }
    }

    pub fn invalid_seg(prefix: ValuePath, segment: String, reason: String) -> (res: Self)
        ensures
            res@ == (PathErrorView::InvalidSegment {
                prefix: prefix@,
                segment: segment@,
                reason: reason@,
            }),
    {
        PathError::InvalidSegment { prefix, segment, reason }
    }

    pub fn invalid_index(prefix: ValuePath, raw: String) -> (res: Self)
        ensures
            res@ == (PathErrorView::InvalidIndex { prefix: prefix@, raw: raw@ }),
    {
        PathError::InvalidIndex { prefix, raw }
    }

    pub fn unsupported(prefix: ValuePath, message: String) -> (res: Self)
        ensures
            res@ == (PathErrorView::Unsupported { prefix: prefix@, message: message@ }),
    {
        PathError::Unsupported { prefix, message }
    }
}

} // verus!

verus! {

/// Why the format of a text could not be told.
#[derive(Debug)]
pub enum DetectError {
    /// The text is empty or white space only.
    EmptyInput,
    /// The text is neither JSON nor TOML; each reader's message.
    UnknownFormat { json_error: String, toml_error: String },
}

/// The message shown for a [`DetectError`].
pub open spec fn detect_error_message(e: DetectError) -> Seq<char> {
    match e {
        DetectError::EmptyInput => "input is empty or whitespace only"@,
        DetectError::UnknownFormat { json_error, toml_error } =>
            "input is neither valid JSON nor valid TOML\n  json error: "@ + json_error@
                + "\n  toml error: "@ + toml_error@,
    }
}

impl DetectError {
    /// The message shown for this error.
    pub fn to_message(&self) -> (res: String)
        ensures
            res@ == detect_error_message(*self),
    {
        match self {
            DetectError::EmptyInput => crate::text::owned("input is empty or whitespace only"),
            DetectError::UnknownFormat { json_error, toml_error } => {
                let mut m = crate::text::owned("input is neither valid JSON nor valid TOML\n  json error: ");
                m.append(json_error.as_str());
                m.append("\n  toml error: ");
                m.append(toml_error.as_str());
                m
            },
        }
    }
}

pub type DetectResult<T> = Result<T, DetectError>;

/// A place in a source text: line and column, both counted from 1.
#[derive(Debug, Clone, Copy, PartialEq, Eq, Structural)]
pub struct SourceLocation {
    pub line: usize,
    pub column: usize,
}

impl SourceLocation {
    pub fn new(line: usize, column: usize) -> (res: Self)
        ensures
            res == (SourceLocation { line, column }),
    {
        SourceLocation { line, column }
    }
}

/// Why a document could not be read.  `source` is the reader's own message and `snippet`
/// the source line at the location.
#[derive(Debug)]
pub enum ParseError {
    UnexpectedToken {
        format: ConfigFormat,
        loc: SourceLocation,
        expected: String,
        found: String,
        snippet: String,
    },
    UnexpectedEof { format: ConfigFormat, loc: SourceLocation, snippet: String },
    UnterminatedString { format: ConfigFormat, loc: SourceLocation, snippet: String },
    InvalidEscape { format: ConfigFormat, loc: SourceLocation, source: String, snippet: String },
    TrailingContent { format: ConfigFormat, loc: SourceLocation, snippet: String },
    SyntaxError {
        format: ConfigFormat,
        loc: SourceLocation,
        expected: String,
        found: String,
        snippet: String,
    },
    /// An error reported by the format's reader.
    ForeignParseError { format: ConfigFormat, loc: SourceLocation, source: String, snippet: String },
}

/// Any failure to read a value out of a text.
#[derive(Debug)]
pub enum ConfigError {
    Detect(DetectError),
    Parse(ParseError),
    Path(PathError),
}

pub type ConfigResult<T> = Result<T, ConfigError>;

/// Errors of the command-line interface's use.
#[derive(Debug)]
pub enum UsageError {
    MissingFlag { flag: &'static str, hint: &'static str },
    InvalidChoice { provided: &'static str, flag: &'static str, valid: Vec<&'static str> },
    ConflictingFlags { a: &'static str, b: &'static str, hint: &'static str },
    MissingArgument { name: &'static str, example: &'static str },
    InvalidPathSyntax { input: &'static str, example: &'static str },
}

} // verus!

verus! {

pub type ParseResult<T> = Result<T, ParseError>;

/// The line and column named for a JSON reader error: (1, 1) for an I/O or end-of-input
/// error, else the reader's own, each raised to at least 1.
pub open spec fn json_error_location(e: JsonSyntaxError) -> (usize, usize) {
    let (l, c) = if e.category == JsonErrorCategory::Io || e.category == JsonErrorCategory::Eof {
        (1usize, 1usize)
    } else {
        (e.line, e.column)
    };
    (if l < 1 { 1usize } else { l }, if c < 1 { 1usize } else { c })
}

/// The line and column named for a TOML reader error: those of the character at which its
/// span starts (the span is a byte offset into the text), or of the text's start when it
/// names no span.
pub open spec fn toml_error_location(src: Seq<char>, e: TomlSyntaxError) -> (nat, nat) {
    let start: int = match e.span_start {
        Some(s) => s as int,
        None => 0,
    };
    line_col_after(src.take(chars_before_byte(src, start) as int))
}

/// Whether `p` reports the reader error `message` of `format` at `line` and `column` of `src`.
pub open spec fn is_foreign_error(
    p: ParseError,
    format: ConfigFormat,
    src: Seq<char>,
    line: nat,
    column: nat,
    message: Seq<char>,
) -> bool {
    &&& line >= 1
    &&& p matches ParseError::ForeignParseError { format: f, loc, source, snippet }
    &&& f == format
    &&& loc.line == line && loc.column == column
    &&& source@ == message
    &&& snippet@ == line_text(src, (line - 1) as nat)
}

/// Whether `p` is the error reported for the JSON reader's error `e` on `src`.
pub open spec fn is_json_parse_error(p: ParseError, src: Seq<char>, e: JsonSyntaxError) -> bool {
    let (line, column) = json_error_location(e);
    is_foreign_error(p, ConfigFormat::Json, src, line as nat, column as nat, e.message@)
}

/// Whether `p` is the error reported for the TOML reader's error `e` on `src`.
pub open spec fn is_toml_parse_error(p: ParseError, src: Seq<char>, e: TomlSyntaxError) -> bool {
    let (line, column) = toml_error_location(src, e);
    is_foreign_error(p, ConfigFormat::Toml, src, line, column, e.message@)
}

impl ParseError {
    /// The error for a TOML reader error on `src`.
    pub fn toml(src: &str, err: TomlSyntaxError) -> (res: ParseError)
        requires
            src@.len() < usize::MAX,
        ensures
            is_toml_parse_error(res, src@, err),
    {
        Self::map_toml_error(src, err)
    }

    /// The error for a JSON reader error on `src`.
    pub fn json(src: &str, err: JsonSyntaxError) -> (res: ParseError)
        ensures
            is_json_parse_error(res, src@, err),
    {
        let (raw_line, raw_col) = match err.category {
            JsonErrorCategory::Io | JsonErrorCategory::Eof => (1usize, 1usize),
            _ => (err.line, err.column),
        };
        let line = if raw_line < 1 { 1 } else { raw_line };
        let column = if raw_col < 1 { 1 } else { raw_col };
        let loc = SourceLocation::new(line, column);
        let snippet = line_of(src, line);
        ParseError::ForeignParseError { format: ConfigFormat::Json, loc, source: err.message, snippet }
    }

    /// The line and column, both from 1, of the character at position `offset` of `src`
    /// (counted in characters); past the end, of the end.
    pub fn offset_to_line_col(src: &str, offset: usize) -> (res: (usize, usize))
        requires
            src@.len() < usize::MAX,
        ensures
            (res.0 as nat, res.1 as nat) == line_col_after(
                src@.take(if offset < src@.len() { offset as int } else { src@.len() as int }),
            ),
            ({
                let before = src@.take(if offset < src@.len() { offset as int } else { src@.len() as int });
                res.0 == 1 + crate::text::newline_count(before) && res.1 == before.len() - crate::text::last_newline(before)
            }),
    {
        proof {
            crate::text::lemma_line_col_counts(src@.take(if offset < src@.len() { offset as int } else { src@.len() as int }));
        }
        crate::text::line_col_at_char(src, offset)
    }

    /// The error for a TOML reader error on `src`, located at the start of its span.
    pub fn map_toml_error(src: &str, err: TomlSyntaxError) -> (res: ParseError)
        requires
            src@.len() < usize::MAX,
        ensures
            is_toml_parse_error(res, src@, err),
    {
        let start = match err.span_start {
            Some(s) => s,
            None => 0,
        };
        let (line, column) = crate::adapters::toml::offset_to_line_col(src, start);
        proof {
            crate::text::lemma_line_col_bound(src@.take(chars_before_byte(src@, start as int) as int));
        }
        let loc = SourceLocation::new(line, column);
        let snippet = line_of(src, line);
        ParseError::ForeignParseError { format: ConfigFormat::Toml, loc, source: err.message, snippet }
    }
}

} // verus!

verus! {

/// The message shown for a path error.
pub open spec fn path_error_message(e: PathErrorView) -> Seq<char> {
    match e {
        PathErrorView::EmptyPath =>
            "Empty path is not allowed. Expected at least one segment (for example: `top` or `top.int`)."@,
        PathErrorView::NotAnObject { prefix, key, found } =>
            "Type error at "@ + path_text(prefix) + ": tried to access key `"@ + key
                + "`, but the value at this path is "@ + type_kind_label(found) + ", not an object."@,
        PathErrorView::NotAnArray { prefix, index, found } =>
            "Type error at "@ + path_text(prefix) + ": tried to access index ["@ + decimal_text(index as nat)
                + "], but the value at this path is "@ + type_kind_label(found) + ", not an array."@,
        PathErrorView::NotAContainer { prefix, found } =>
            "Type error at "@ + path_text(prefix)
                + ": attempted to list children, but the value at this path is a scalar "@
                + type_kind_label(found) + ", not an object or array."@,
        PathErrorView::KeyNotFound { prefix, key } =>
            "Key not found at "@ + path_text(prefix) + ": there is no key named `"@ + key
                + "` at this location."@,
        PathErrorView::IndexOutOfBounds { prefix, index, len } =>
            "Index out of bounds at "@ + path_text(prefix) + ": tried to access index "@
                + decimal_text(index as nat) + ", but valid indices are 0.."@ + decimal_text(len as nat) + "."@,
        PathErrorView::InvalidSegment { prefix, segment, reason } =>
            "Invalid path segment at "@ + path_text(prefix) + ": segment `"@ + segment
                + "` is not valid here ("@ + reason + ")."@,
        PathErrorView::InvalidIndex { prefix, raw } =>
            "Invalid numeric index at `"@ + path_text(prefix) + "`: segment between '[' and ']' was `"@
                + raw + "` (expected a non-negative integer)."@,
        PathErrorView::Unsupported { prefix, message } =>
            "Unsupported path operation at "@ + path_text(prefix) + ": "@ + message,
    }
}

impl PathError {
    /// The message shown for this error.
    pub fn to_message(&self) -> (res: String)
        ensures
            res@ == path_error_message(self@),
    {
        match self {
            PathError::EmptyPath => owned(
                "Empty path is not allowed. Expected at least one segment (for example: `top` or `top.int`).",
            ),
            PathError::NotAnObject { prefix, key, found } => {
                let mut m = owned("Type error at ");
                m.append(prefix.to_display_string().as_str());
                m.append(": tried to access key `");
                m.append(key.as_str());
                m.append("`, but the value at this path is ");
                m.append(found.to_label().as_str());
                m.append(", not an object.");
                m
            },
            PathError::NotAnArray { prefix, index, found } => {
                let mut m = owned("Type error at ");
                m.append(prefix.to_display_string().as_str());
                m.append(": tried to access index [");
                push_decimal(&mut m, *index);
                m.append("], but the value at this path is ");
                m.append(found.to_label().as_str());
                m.append(", not an array.");
                m
            },
            PathError::NotAContainer { prefix, found } => {
                let mut m = owned("Type error at ");
                m.append(prefix.to_display_string().as_str());
                m.append(": attempted to list children, but the value at this path is a scalar ");
                m.append(found.to_label().as_str());
                m.append(", not an object or array.");
                m
            },
            PathError::KeyNotFound { prefix, key } => {
                let mut m = owned("Key not found at ");
                m.append(prefix.to_display_string().as_str());
                m.append(": there is no key named `");
                m.append(key.as_str());
                m.append("` at this location.");
                m
            },
            PathError::IndexOutOfBounds { prefix, index, len } => {
                let mut m = owned("Index out of bounds at ");
                m.append(prefix.to_display_string().as_str());
                m.append(": tried to access index ");
                push_decimal(&mut m, *index);
                m.append(", but valid indices are 0..");
                push_decimal(&mut m, *len);
                m.append(".");
                m
            },
            PathError::InvalidSegment { prefix, segment, reason } => {
                let mut m = owned("Invalid path segment at ");
                m.append(prefix.to_display_string().as_str());
                m.append(": segment `");
                m.append(segment.as_str());
                m.append("` is not valid here (");
                m.append(reason.as_str());
                m.append(").");
                m
            },
            PathError::InvalidIndex { prefix, raw } => {
                let mut m = owned("Invalid numeric index at `");
                m.append(prefix.to_display_string().as_str());
                m.append("`: segment between '[' and ']' was `");
                m.append(raw.as_str());
                m.append("` (expected a non-negative integer).");
                m
            },
            PathError::Unsupported { prefix, message } => {
                let mut m = owned("Unsupported path operation at ");
                m.append(prefix.to_display_string().as_str());
                m.append(": ");
                m.append(message.as_str());
                m
            },
        }
    }
}

} // verus!

verus! {

/// How a format is named in messages.
pub open spec fn format_name(f: ConfigFormat) -> Seq<char> {
    match f {
        ConfigFormat::Json => "Json"@,
        ConfigFormat::Toml => "Toml"@,
    }
}

/// How a location is shown: `line:column`.
pub open spec fn location_text(loc: SourceLocation) -> Seq<char> {
    decimal_text(loc.line as nat) + ":"@ + decimal_text(loc.column as nat)
}

/// The start of every parse error's message: `Json parse error at 3:7: `.
pub open spec fn parse_error_head(f: ConfigFormat, loc: SourceLocation) -> Seq<char> {
    format_name(f) + " parse error at "@ + location_text(loc) + ": "@
}

/// The message shown for a parse error: what went wrong, then the source line.
pub open spec fn parse_error_message(e: ParseError) -> Seq<char> {
    match e {
        ParseError::UnexpectedToken { format, loc, expected, found, snippet } =>
            parse_error_head(format, loc) + "unexpected token: expected "@ + expected@ + ", found `"@
                + found@ + "`\n"@ + snippet@,
        ParseError::UnexpectedEof { format, loc, snippet } =>
            parse_error_head(format, loc) + "unexpected end of input\n"@ + snippet@,
        ParseError::UnterminatedString { format, loc, snippet } =>
            parse_error_head(format, loc) + "unterminated string literal\n"@ + snippet@,
        ParseError::InvalidEscape { format, loc, source, snippet } =>
            parse_error_head(format, loc) + "invalid escape sequence: "@ + source@ + "\n"@ + snippet@,
        ParseError::TrailingContent { format, loc, snippet } =>
            parse_error_head(format, loc) + "trailing content after document\n"@ + snippet@,
        ParseError::SyntaxError { format, loc, expected, found, snippet } =>
            parse_error_head(format, loc) + "syntax error: expected "@ + expected@ + ", found `"@
                + found@ + "`\n"@ + snippet@,
        ParseError::ForeignParseError { format, loc, source, snippet } =>
            parse_error_head(format, loc) + source@ + "\n"@ + snippet@,
    }
}

fn parse_error_head_exec(f: ConfigFormat, loc: SourceLocation) -> (res: String)
    ensures
        res@ == parse_error_head(f, loc),
{
    let mut m = match f {
        ConfigFormat::Json => owned("Json"),
        ConfigFormat::Toml => owned("Toml"),
    };
    m.append(" parse error at ");
    push_decimal(&mut m, loc.line);
    m.append(":");
    push_decimal(&mut m, loc.column);
    m.append(": ");
    m
}

impl ParseError {
    /// The message shown for this error.
    pub fn to_message(&self) -> (res: String)
        ensures
            res@ == parse_error_message(*self),
    {
        match self {
            ParseError::UnexpectedToken { format, loc, expected, found, snippet } => {
                let mut m = parse_error_head_exec(*format, *loc);
                m.append("unexpected token: expected ");
                m.append(expected.as_str());
                m.append(", found `");
                m.append(found.as_str());
                m.append("`\n");
                m.append(snippet.as_str());
                m
            },
            ParseError::UnexpectedEof { format, loc, snippet } => {
                let mut m = parse_error_head_exec(*format, *loc);
                m.append("unexpected end of input\n");
                m.append(snippet.as_str());
                m
            },
            ParseError::UnterminatedString { format, loc, snippet } => {
                let mut m = parse_error_head_exec(*format, *loc);
                m.append("unterminated string literal\n");
                m.append(snippet.as_str());
                m
            },
            ParseError::InvalidEscape { format, loc, source, snippet } => {
                let mut m = parse_error_head_exec(*format, *loc);
                m.append("invalid escape sequence: ");
                m.append(source.as_str());
                m.append("\n");
                m.append(snippet.as_str());
                m
            },
            ParseError::TrailingContent { format, loc, snippet } => {
                let mut m = parse_error_head_exec(*format, *loc);
                m.append("trailing content after document\n");
                m.append(snippet.as_str());
                m
            },
            ParseError::SyntaxError { format, loc, expected, found, snippet } => {
                let mut m = parse_error_head_exec(*format, *loc);
                m.append("syntax error: expected ");
                m.append(expected.as_str());
                m.append(", found `");
                m.append(found.as_str());
                m.append("`\n");
                m.append(snippet.as_str());
                m
            },
            ParseError::ForeignParseError { format, loc, source, snippet } => {
                let mut m = parse_error_head_exec(*format, *loc);
                m.append(source.as_str());
                m.append("\n");
                m.append(snippet.as_str());
                m
            },
        }
    }
}

impl ConfigError {
    /// The message shown for this error: that of the error it carries.
    pub fn to_message(&self) -> (res: String)
        ensures
            res@ == match *self {
                ConfigError::Detect(e) => detect_error_message(e),
                ConfigError::Parse(e) => parse_error_message(e),
                ConfigError::Path(e) => path_error_message(e@),
            },
    {
        match self {
            ConfigError::Detect(e) => e.to_message(),
            ConfigError::Parse(e) => e.to_message(),
            ConfigError::Path(e) => e.to_message(),
        }
    }
}

} // verus!

verus! {

/// The same error with `p` put in front of the path it names; the empty-path error names
/// no path and is left as it is.
pub open spec fn prefixed(p: Seq<SegView>, e: PathErrorView) -> PathErrorView {
    match e {
        PathErrorView::EmptyPath => PathErrorView::EmptyPath,
        PathErrorView::NotAnObject { prefix, key, found } => PathErrorView::NotAnObject { prefix: p + prefix, key, found },
        PathErrorView::NotAnArray { prefix, index, found } => PathErrorView::NotAnArray { prefix: p + prefix, index, found },
        PathErrorView::NotAContainer { prefix, found } => PathErrorView::NotAContainer { prefix: p + prefix, found },
        PathErrorView::KeyNotFound { prefix, key } => PathErrorView::KeyNotFound { prefix: p + prefix, key },
        PathErrorView::IndexOutOfBounds { prefix, index, len } => PathErrorView::IndexOutOfBounds { prefix: p + prefix, index, len },
        PathErrorView::InvalidSegment { prefix, segment, reason } => PathErrorView::InvalidSegment { prefix: p + prefix, segment, reason },
        PathErrorView::InvalidIndex { prefix, raw } => PathErrorView::InvalidIndex { prefix: p + prefix, raw },
        PathErrorView::Unsupported { prefix, message } => PathErrorView::Unsupported { prefix: p + prefix, message },
    }
}

} // verus!

verus! {

/// Where a failed step of a path stands: the path followed up to it, and the segment that
/// failed.  Errors that do not come from following a step name no such place.
pub open spec fn failed_at(e: PathErrorView) -> Option<(Seq<SegView>, SegView)> {
    match e {
        PathErrorView::NotAnObject { prefix, key, .. } => Some((prefix, SegView::Key(key))),
        PathErrorView::KeyNotFound { prefix, key } => Some((prefix, SegView::Key(key))),
        PathErrorView::NotAnArray { prefix, index, .. } => Some((prefix, SegView::Index(index))),
        PathErrorView::IndexOutOfBounds { prefix, index, .. } => Some((prefix, SegView::Index(index))),
        _ => None,
    }
}

} // verus!

verus! {

/// What `{:?}` writes for a list of strings (std's `Debug` for `Vec<&str>`).
pub uninterp spec fn debug_list_text(items: Seq<Seq<char>>) -> Seq<char>;

/// The texts of a list of strings.
pub open spec fn texts_of(items: Seq<&'static str>) -> Seq<Seq<char>> {
    items.map_values(|s: &'static str| s@)
}

/// Trusted: `format!("{:?}", items)`, std's `Debug` for a vector of strings.  Claimed: the
/// text depends on the strings alone (it is `debug_list_text` of their texts).
#[verifier::external_body]
fn debug_list(items: &Vec<&'static str>) -> (res: String)
    ensures
        res@ == debug_list_text(texts_of(items@)),
{
    format!("{:?}", items)
}

/// The message shown for a usage error.
pub open spec fn usage_error_message(e: UsageError) -> Seq<char> {
    match e {
        UsageError::MissingFlag { flag, hint } =>
            "UsageError: missing required flag "@ + flag@ + ". "@ + hint@,
        UsageError::InvalidChoice { provided, flag, valid } =>
            "UsageError: invalid value '"@ + provided@ + "' for "@ + flag@ + ". Valid options: "@
                + debug_list_text(texts_of(valid@)) + ". Example: --format json"@,
        UsageError::ConflictingFlags { a, b, hint } =>
            "UsageError: flags "@ + a@ + " and "@ + b@ + " cannot be used together. "@ + hint@,
        UsageError::MissingArgument { name, example } =>
            "UsageError: missing argument "@ + name@ + ". Example: "@ + example@,
        UsageError::InvalidPathSyntax { input, example } =>
            "UsageError: invalid key-path syntax: '"@ + input@ + "'. Example: "@ + example@,
    }
}

impl UsageError {
    /// The message shown for this error.
    pub fn to_message(&self) -> (res: String)
        ensures
            res@ == usage_error_message(*self),
    {
        match self {
            UsageError::MissingFlag { flag, hint } => {
                let mut m = owned("UsageError: missing required flag ");
                m.append(flag);
                m.append(". ");
                m.append(hint);
                m
            },
            UsageError::InvalidChoice { provided, flag, valid } => {
                let mut m = owned("UsageError: invalid value '");
                m.append(provided);
                m.append("' for ");
                m.append(flag);
                m.append(". Valid options: ");
                m.append(debug_list(valid).as_str());
                m.append(". Example: --format json");
                m
            },
            UsageError::ConflictingFlags { a, b, hint } => {
                let mut m = owned("UsageError: flags ");
                m.append(a);
                m.append(" and ");
                m.append(b);
                m.append(" cannot be used together. ");
                m.append(hint);
                m
            },
            UsageError::MissingArgument { name, example } => {
                let mut m = owned("UsageError: missing argument ");
                m.append(name);
                m.append(". Example: ");
                m.append(example);
                m
            },
            UsageError::InvalidPathSyntax { input, example } => {
                let mut m = owned("UsageError: invalid key-path syntax: '");
                m.append(input);
                m.append("'. Example: ");
                m.append(example);
                m
            },
        }
    }
}

} // verus!
