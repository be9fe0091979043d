//! A verified recursive-descent JSON parser.
//!
//! The grammar accepted here is `document := object`: the input is a JSON
//! object, optionally surrounded by whitespace.  Parsing yields a value
//! tree whose top level is a mapping from string keys to values; a
//! repeated key keeps the value of its last occurrence.  Numbers are kept
//! as their raw numeric token text, so that callers decide how to
//! interpret them.
//!
//! The reference semantics is a specification-level parser over the input
//! character sequence (`grammar`), phrased over the value model (`model`).
//! Every executable parsing function — the token scanners in `scan`, the
//! recursive parser and entry points in `parse` — is proved to return
//! exactly what that specification returns, and `laws` proves what the
//! produced mapping holds: exactly the keys of the text, the last value of
//! a repeated key, elements in encounter order, unique keys at every
//! nesting level, and nesting bounded by the depth guard.

pub mod error;
pub mod grammar;
pub mod laws;
pub mod model;
pub mod parse;
pub mod scan;
pub mod value;
