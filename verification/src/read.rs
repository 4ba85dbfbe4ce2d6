//! The read feature: the value at a key path of a configuration document.
use vstd::prelude::*;
use crate::adapters::json::{get_json_at_path, json_lookup};
use crate::adapters::toml::{get_toml_at_path, toml_lookup};
use crate::errors::{ConfigError, PathError, PathErrorView};
use crate::path::{create_value_path, parse_outcome, ParseEnd, SegView, ValidatedPath, ValuePath};
use crate::types::{ConfigDocument, ConfigValue, ConfigValueView};
use crate::validate::path_syntax_outcome;

verus! {

/// What the command line asks to read: a document's file and a key path.
#[derive(Debug)]
pub struct ReadCliArgs {
    pub document: String,
    pub key_path: String,
}

/// A document and the path to read in it.
#[derive(Debug)]
pub struct ReadRequest<'a> {
    pub document: &'a ConfigDocument,
    pub path: ValuePath,
}

/// The value read.
#[derive(Debug)]
pub struct ReadResult<'a> {
    pub value: ConfigValue<'a>,
}

/// Why a read failed.
#[derive(Debug)]
pub enum ReadError {
    Path(PathError),
}

/// The value at `path` in `doc`, or why there is none.
pub open spec fn config_lookup(doc: ConfigDocument, path: Seq<SegView>) -> Result<ConfigValueView, PathErrorView> {
    match doc {
        ConfigDocument::Json(v) => match json_lookup(v, path) {
            Ok(found) => Ok(ConfigValueView::Json(found)),
            Err(e) => Err(e),
        },
        ConfigDocument::Toml(d) => match toml_lookup(d.root, path) {
            Ok(found) => Ok(ConfigValueView::Toml(found)),
            Err(e) => Err(e),
        },
    }
}

/// The value at the key path written `key_path` in `doc`: the text must be a valid key path
/// whose indices fit a `usize`, and the path must lead to a value.  The reader of key-path
/// text never gets stuck on text the grammar accepts (`lemma_accepted_paths_are_read`), so
/// the last arm below is never taken.
pub open spec fn read_outcome(doc: ConfigDocument, key_path: Seq<char>) -> Result<ConfigValueView, PathErrorView> {
    match path_syntax_outcome(key_path) {
        Err(e) => Err(e),
        Ok(_) => match parse_outcome(key_path) {
            ParseEnd::Done(path) => config_lookup(doc, path),
            ParseEnd::BadIndex { prefix, raw } => Err(PathErrorView::InvalidIndex { prefix, raw }),
            ParseEnd::Stuck => Err(PathErrorView::EmptyPath),
        },
    }
}

/// The value at the request's path in its document.
pub fn read_config_value_at_path<'a>(request: ReadRequest<'a>) -> (res: Result<ConfigValue<'a>, PathError>)
    ensures
        match res {
            Ok(v) => config_lookup(*request.document, request.path@) == Ok::<ConfigValueView, PathErrorView>(v@),
            Err(e) => config_lookup(*request.document, request.path@) == Err::<ConfigValueView, PathErrorView>(e@),
        },
{
    match request.document {
        ConfigDocument::Json(json_document) => {
            let json_value = get_json_at_path(json_document, &request.path)?;
            Ok(ConfigValue::Json(json_value))
        },
        ConfigDocument::Toml(toml_document) => {
            let toml_item = get_toml_at_path(toml_document.as_item(), &request.path)?;
            Ok(ConfigValue::Toml(toml_item))
        },
    }
}

/// The value at the key path `key_path` in `document`.
pub fn read<'a>(document: &'a ConfigDocument, key_path: &str) -> (res: Result<ConfigValue<'a>, ConfigError>)
    ensures
        path_syntax_outcome(key_path@) is Ok ==> !(parse_outcome(key_path@) is Stuck),
        match res {
            Ok(v) => read_outcome(*document, key_path@) == Ok::<ConfigValueView, PathErrorView>(v@),
            Err(ConfigError::Path(e)) => read_outcome(*document, key_path@) == Err::<ConfigValueView, PathErrorView>(e@),
            Err(_) => false,
        },
{
    proof {
        if path_syntax_outcome(key_path@) is Ok {
            crate::path::lemma_accepted_paths_are_read(key_path@);
        }
    }
    let validated_key_path = match ValidatedPath::new(key_path) {
        Ok(v) => v,
        Err(e) => return Err(ConfigError::Path(e)),
    };
    let value_path = match create_value_path(&validated_key_path) {
        Ok(p) => p,
        Err(e) => return Err(ConfigError::Path(e)),
    };
    match read_config_value_at_path(ReadRequest { document, path: value_path }) {
        Ok(v) => Ok(v),
        Err(e) => Err(ConfigError::Path(e)),
    }
}

} // verus!

verus! {

/// Reading key-path text that the grammar accepts and that reads into the segments `p` is
/// looking `p` up in the document: in a JSON document the value that `json_lookup` finds,
/// in a TOML one the place that `toml_lookup` finds, whatever the number of segments.  The
/// empty-path error comes exactly when `p` has no segment.
pub proof fn lemma_read_is_lookup_of_segments(doc: ConfigDocument, s: Seq<char>, p: Seq<SegView>)
    requires
        crate::validate::is_valid_path(s),
        parse_outcome(s) == ParseEnd::Done(p),
    ensures
        doc matches ConfigDocument::Json(v) ==> read_outcome(doc, s) == match json_lookup(v, p) {
            Ok(x) => Ok(ConfigValueView::Json(x)),
            Err(e) => Err(e),
        },
        doc matches ConfigDocument::Toml(d) ==> read_outcome(doc, s) == match toml_lookup(d.root, p) {
            Ok(x) => Ok(ConfigValueView::Toml(x)),
            Err(e) => Err(e),
        },
        read_outcome(doc, s) == Err::<ConfigValueView, PathErrorView>(PathErrorView::EmptyPath) <==> p.len() == 0,
{
    match doc {
        ConfigDocument::Json(v) => {
            if json_lookup(v, p) is Err {
                crate::adapters::json::lemma_json_error_names_stop(v, p);
            }
        },
        ConfigDocument::Toml(d) => {
            if toml_lookup(d.root, p) is Err {
                crate::adapters::toml::lemma_toml_error_names_stop(d.root, p);
            }
        },
    }
}

} // verus!
