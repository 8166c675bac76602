//! Scanner, token model and recursive-descent parser for the Lox language.

pub mod chars;
pub mod expr;
pub mod indices;
pub mod numbers;
pub mod parse_laws;
pub mod parse_spec;
pub mod parser;
pub mod scan_spec;
pub mod scanner;
pub mod stmt;
pub mod text;
pub mod token;
