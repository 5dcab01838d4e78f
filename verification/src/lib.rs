//! Lexer and syntax-tree data types for the Army language.

pub mod ast;
pub mod edits;
pub mod laws;
pub mod lexer;
pub mod scan_spec;
pub mod text;
pub mod token;
pub mod token_shapes;
