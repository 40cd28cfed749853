//! A small JSON tokenizer and recursive-descent parser.
//!
//! The pipeline is `tokenize` (raw text to a token sequence) followed by
//! `parse` (token sequence to a `JsonType` tree).  Both steps are total:
//! every lexical or syntactic fault is reported as a typed error value, and
//! nesting is bounded by an explicit depth budget, so no input can crash a
//! call or exhaust the stack.  The behaviour of both steps is pinned down by
//! spec functions (`spec_tokenize`, `spec_parse_value`) that each entry point
//! is proved to implement exactly.

pub mod chars;
pub mod errors;
pub mod lexer;
pub mod number;
pub mod parser;
pub mod token;

pub use lexer::Lexer;
pub use lexer::tokenize;
pub use number::ConsumeNumber;
pub use number::LexResult;
pub use parser::JsonType;
pub use parser::Parser;
pub use parser::parse;

pub use errors::LexError;
pub use errors::LexErrorKind;
pub use errors::ParseError;
pub use token::Token;
