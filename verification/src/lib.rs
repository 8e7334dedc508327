//! Front end of a small imperative language: a parser from source text to an
//! abstract syntax tree, scope checking, type checking and error reporting.
pub mod common;
pub mod config;
pub mod frontend;
pub mod table;
pub mod text;
