//! A verified interpreter for a line-numbered BASIC-style language.
//!
//! Each statement carries an explicit integer address; control flow jumps to
//! addresses rather than structured blocks. The crate provides the tokenizer,
//! the token and precedence model, a shunting-yard expression parser, a
//! dynamically-typed value with coercing arithmetic and comparison, and a
//! line-indexed program executor driven as a postfix stack machine.

pub mod interpreter;
pub mod lexer;
pub mod numerals;
pub mod parser;
pub mod text;
pub mod token;
pub mod value_type;
