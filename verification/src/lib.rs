//! Schema-driven parsing of the head section of an HTTP-like message.
//!
//! A message is a block of `CRLF`-separated `key: value` lines, an empty
//! line, and a body. A [`schema::HeaderSchema`] describes the fields a
//! caller wants extracted: each field has a canonical key, a cardinality
//! (one value or a list), a necessity (required or optional) and a value
//! type. Parsing walks the head lines, matches keys case-insensitively,
//! converts values, and either builds a typed record or fails fast with
//! a [`header_parser::Error`].

pub mod from_header_value;
pub mod header_parser;
pub mod laws;
pub mod numbers;
pub mod scan;
pub mod schema;
pub mod value;
