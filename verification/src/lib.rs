//! A lossless structural parser for a subset of Dart source text.
//!
//! The input is cut into an ordered sequence of nodes: directives, top-level
//! variables, functions, classes, comments and verbatim runs. Every byte of the
//! input belongs to exactly one node, so the nodes' spans, put end to end, give
//! the input back.
//!
//! [`parser::parse`] parses a source unit; [`dart`] holds the nodes.

pub mod dart;
pub mod parser;
