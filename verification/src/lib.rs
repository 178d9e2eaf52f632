//! Translates a directory of JSON Schema documents describing request/response
//! messages into Rust record definitions with embedded validation rules.
//!
//! The crate is organised as a small compiler front end feeding a text
//! back end: schema text is parsed into a tree, field order is recovered from
//! the raw text, each schema node is resolved to a Rust type plus validation
//! requirements, same-named `Request`/`Response` files are paired, and the
//! accumulated imports are deduplicated and ordered before emission.

pub mod casing;
pub mod config;
pub mod dec;
pub mod fieldorder;
pub mod generator;
pub mod jsonval;
pub mod laws;
pub mod parser;
pub mod processor;
pub mod strutil;
pub mod types;
