//! The kinds of values a document holds, and the document formats.
use vstd::prelude::*;

verus! {

/// The two document formats the library reads.
#[derive(Copy, Clone, Debug, PartialEq, Eq, Structural)]
pub enum ConfigFormat {
    Json,
    Toml,
}

/// The kind of a value found in a document, named in type errors.
#[derive(Debug, Clone, Copy, PartialEq, Eq, Structural)]
pub enum TypeKind {
    Null,
    Bool,
    Int,
    Uint,
    Float,
    String,
    Array,
    Object,
    /// TOML date
    Date,
    /// TOML time
    Time,
    /// TOML date and time
    DateTime,
}

/// The lower-case word by which a kind is shown.
pub open spec fn type_kind_label(k: TypeKind) -> Seq<char> {
    match k {
        TypeKind::Null => "null"@,
        TypeKind::Bool => "bool"@,
        TypeKind::Int => "int"@,
        TypeKind::Uint => "uint"@,
        TypeKind::Float => "float"@,
        TypeKind::String => "string"@,
        TypeKind::Array => "array"@,
        TypeKind::Object => "object"@,
        TypeKind::Date => "date"@,
        TypeKind::Time => "time"@,
        TypeKind::DateTime => "datetime"@,
    }
}

impl TypeKind {
    /// The lower-case word by which this kind is shown (`null`, `int`, `datetime`, ...).
    pub fn to_label(&self) -> (res: String)
        ensures
            res@ == type_kind_label(*self),
    {
        let s = match self {
            TypeKind::Null => "null",
            TypeKind::Bool => "bool",
            TypeKind::Int => "int",
            TypeKind::Uint => "uint",
            TypeKind::Float => "float",
            TypeKind::String => "string",
            TypeKind::Array => "array",
            TypeKind::Object => "object",
            TypeKind::Date => "date",
            TypeKind::Time => "time",
            TypeKind::DateTime => "datetime",
        };
        crate::text::owned(s)
    }
}

} // verus!

verus! {

/// A JSON number, as the JSON reader gives it: the value as an `i64` when it is one, as a
/// `u64` when it is one, and its text.
#[derive(Debug, PartialEq)]
pub struct JsonNumber {
    pub as_i64: Option<i64>,
    pub as_u64: Option<u64>,
    pub text: String,
}

/// The kind of a JSON number: a signed integer when it fits an `i64`, else an unsigned one
/// when it fits a `u64`, else a float.
pub open spec fn json_number_kind(n: JsonNumber) -> TypeKind {
    if n.as_i64 is Some {
        TypeKind::Int
    } else if n.as_u64 is Some {
        TypeKind::Uint
    } else {
        TypeKind::Float
    }
}

/// A JSON value.  An object keeps its members in the order the reader gives them.
#[derive(Debug, PartialEq)]
pub enum JsonValue {
    Null,
    Bool(bool),
    Number(JsonNumber),
    String(String),
    Array(Vec<JsonValue>),
    Object(Vec<(String, JsonValue)>),
}

/// The kind of a JSON value.
pub open spec fn json_kind(v: JsonValue) -> TypeKind {
    match v {
        JsonValue::Null => TypeKind::Null,
        JsonValue::Bool(_) => TypeKind::Bool,
        JsonValue::Number(n) => json_number_kind(n),
        JsonValue::String(_) => TypeKind::String,
        JsonValue::Array(_) => TypeKind::Array,
        JsonValue::Object(_) => TypeKind::Object,
    }
}

/// A TOML date-time: which parts it has, and its text.
#[derive(Debug, PartialEq)]
pub struct TomlDatetime {
    pub has_date: bool,
    pub has_time: bool,
    pub text: String,
}

/// A TOML value: what may stand on the right of `=` or inside an array.
#[derive(Debug, PartialEq)]
pub enum TomlValue {
    String(String),
    Integer(i64),
    /// a float, kept as its text
    Float(String),
    Boolean(bool),
    Datetime(TomlDatetime),
    Array(Vec<TomlValue>),
    InlineTable(Vec<(String, TomlValue)>),
}

/// A TOML table (`[name]` or the document's root): its entries in document order.
#[derive(Debug, PartialEq)]
pub struct TomlTable {
    pub entries: Vec<(String, TomlItem)>,
}

/// What a key of a TOML table holds.
#[derive(Debug, PartialEq)]
pub enum TomlItem {
    /// an empty placeholder (toml_edit's `Item::None`), which lookups pass over
    Empty,
    Value(TomlValue),
    Table(TomlTable),
    /// `[[name]]` tables
    ArrayOfTables(Vec<TomlTable>),
}

/// A parsed TOML document: its root item, which is a table.
#[derive(Debug, PartialEq)]
pub struct TomlDocument {
    pub root: TomlItem,
}

impl TomlDocument {
    /// The root item.
    pub fn as_item(&self) -> (res: &TomlItem)
        ensures
            *res == self.root,
    {
        &self.root
    }
}

/// The kind of a TOML value; a date-time is a date, a time, or both.
pub open spec fn toml_value_kind(v: TomlValue) -> TypeKind {
    match v {
        TomlValue::Boolean(_) => TypeKind::Bool,
        TomlValue::Integer(_) => TypeKind::Int,
        TomlValue::Float(_) => TypeKind::Float,
        TomlValue::String(_) => TypeKind::String,
        TomlValue::Array(_) => TypeKind::Array,
        TomlValue::InlineTable(_) => TypeKind::Object,
        TomlValue::Datetime(dt) => if dt.has_date && dt.has_time {
            TypeKind::DateTime
        } else if dt.has_date {
            TypeKind::Date
        } else {
            TypeKind::Time
        },
    }
}

/// The kind of a TOML item; an empty item is `null`.
pub open spec fn toml_item_kind(item: TomlItem) -> TypeKind {
    match item {
        TomlItem::Value(v) => toml_value_kind(v),
        TomlItem::Table(_) => TypeKind::Object,
        TomlItem::ArrayOfTables(_) => TypeKind::Array,
        TomlItem::Empty => TypeKind::Null,
    }
}

impl TypeKind {
    pub fn from_json(v: &JsonValue) -> (res: TypeKind)
        ensures
            res == json_kind(*v),
    {
        match v {
            JsonValue::Null => TypeKind::Null,
            JsonValue::Bool(_) => TypeKind::Bool,
            JsonValue::Number(n) => if n.as_i64.is_some() {
                TypeKind::Int
            } else if n.as_u64.is_some() {
                TypeKind::Uint
            } else {
                TypeKind::Float
            },
            JsonValue::String(_) => TypeKind::String,
            JsonValue::Array(_) => TypeKind::Array,
            JsonValue::Object(_) => TypeKind::Object,
        }
    }

    pub fn from_toml_item(item: &TomlItem) -> (res: TypeKind)
        ensures
            res == toml_item_kind(*item),
    {
        match item {
            TomlItem::Value(v) => Self::from_toml_value(v),
            TomlItem::Table(_) => TypeKind::Object,
            TomlItem::ArrayOfTables(_) => TypeKind::Array,
            TomlItem::Empty => TypeKind::Null,
        }
    }

    pub fn from_toml_value(v: &TomlValue) -> (res: TypeKind)
        ensures
            res == toml_value_kind(*v),
    {
        match v {
            TomlValue::Boolean(_) => TypeKind::Bool,
            TomlValue::Integer(_) => TypeKind::Int,
            TomlValue::Float(_) => TypeKind::Float,
            TomlValue::String(_) => TypeKind::String,
            TomlValue::Array(_) => TypeKind::Array,
            TomlValue::InlineTable(_) => TypeKind::Object,
            TomlValue::Datetime(dt) => {
                let has_date = dt.has_date;
                let has_time = dt.has_time;
                if has_date && has_time {
                    TypeKind::DateTime
                } else if has_date {
                    TypeKind::Date
                } else {
                    TypeKind::Time
                }
            },
        }
    }
}

/// A parsed configuration document.
#[derive(Debug)]
pub enum ConfigDocument {
    Json(JsonValue),
    Toml(TomlDocument),
}

} // verus!

verus! {

/// A value found in a configuration document.
#[derive(Debug)]
pub enum ConfigValue<'a> {
    Json(&'a JsonValue),
    Toml(crate::adapters::toml::TomlAt<'a>),
}

/// A [`ConfigValue`] as a plain value.
pub enum ConfigValueView {
    Json(JsonValue),
    Toml(crate::adapters::toml::TomlPlace),
}

impl<'a> View for ConfigValue<'a> {
    type V = ConfigValueView;

    open spec fn view(&self) -> ConfigValueView {
        match self {
            ConfigValue::Json(v) => ConfigValueView::Json(**v),
            ConfigValue::Toml(at) => ConfigValueView::Toml(at@),
        }
    }
}

} // verus!
