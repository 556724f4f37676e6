//! A compiler from a compact search-box filter language to parenthesized,
//! injection-safe SQL predicate fragments, checked against a registry of
//! fields and their capabilities.
pub mod ast;
pub mod config;
pub mod error;
pub mod escape;
pub mod generator;
pub mod number;
pub mod parser;
pub mod text;
pub mod timestamp;
pub mod users;

pub use config::FieldConfig;
pub use error::Error;
pub use escape::{
    Codec, EscapeHandler, Primitive, escape_quoted, escape_quoted_with_converter, escape_unquoted,
    escape_unquoted_with_converter,
};
pub use generator::QueryConfig;
pub use parser::parse;
