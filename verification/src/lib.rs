//! Reading values out of JSON and TOML configuration documents by key path.
pub mod adapters;
pub mod errors;
pub mod formats;
pub mod path;
pub mod read;
pub mod text;
pub mod types;
pub mod validate;
