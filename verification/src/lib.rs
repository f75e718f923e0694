//! Front end for a small declarative configuration language: a lexical
//! scanner that turns source text into a position-tagged token stream, and
//! a recursive-descent parser that builds a typed abstract syntax tree.
//!
//! Both stages are verified against purely mathematical models of the
//! language (`lexer_spec`, `parser_spec`): the executable scanner and parser
//! are proved to return exactly what the models prescribe, token for token
//! and node for node, including the line/column positions of every token
//! and of every reported error.
pub mod token;
pub mod lexer_error;
pub mod lexer_spec;
pub mod text;
pub mod lexer;
pub mod ast;
pub mod parser_error;
pub mod parser_spec;
pub mod parser;
pub mod laws;
