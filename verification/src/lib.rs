//! A JSON library core: a verified JSON reader (scanner, number and string
//! parsing, value skipping, value building), error positions, UTF-8 input
//! checks, RFC 3339 formatting of dates and times, and the decisions that
//! drive serialization of Python objects.

pub mod opt;
pub mod bytecount;
pub mod utf8;
pub mod json;
pub mod deserialize;
pub mod exc;
pub mod datetime;
pub mod numpy;
pub mod encode;
pub mod dict;
pub mod array;
pub mod yyjson;
pub mod cache;
pub mod error;
pub mod module;
pub mod gil;
