use vstd::prelude::*;

use crate::token::Token;
use crate::token::TokenV;

verus! {

/// What went wrong while scanning: the taxonomy of lexical faults.
#[derive(Debug, Clone, PartialEq)]
pub enum LexErrorKind {
    /// A string literal was opened but its closing quote never came.
    UnterminatedString,
    /// A digit run encodes a value outside the 64-bit signed range.
    InvalidNumber,
    /// A bare alphabetic word other than `true`, `false` or `null`.
    InvalidLiteral(String),
    /// A character that starts no token at all.
    UnrecognizedCharacter(char),
}

/// Mathematical image of `LexErrorKind`.
pub enum LexErrorKindV {
    UnterminatedString,
    InvalidNumber,
    InvalidLiteral(Seq<char>),
    UnrecognizedCharacter(char),
}

/// A lexical fault, with the line (1-based, counting newlines) and the
/// character offset (0-based index into the input) where it was found.
#[derive(Debug, Clone, PartialEq)]
pub struct LexError {
    pub kind: LexErrorKind,
    pub line: usize,
    pub pos: usize,
}

/// Mathematical image of `LexError`.
pub struct LexErrorV {
    pub kind: LexErrorKindV,
    pub line: int,
    pub pos: int,
}

impl View for LexErrorKind {
    type V = LexErrorKindV;

    open spec fn view(&self) -> LexErrorKindV {
        match self {
            LexErrorKind::UnterminatedString => LexErrorKindV::UnterminatedString,
            LexErrorKind::InvalidNumber => LexErrorKindV::InvalidNumber,
            LexErrorKind::InvalidLiteral(w) => LexErrorKindV::InvalidLiteral(w@),
            LexErrorKind::UnrecognizedCharacter(c) => LexErrorKindV::UnrecognizedCharacter(*c),
        }
    }
}

impl View for LexError {
    type V = LexErrorV;

    open spec fn view(&self) -> LexErrorV {
        LexErrorV { kind: self.kind@, line: self.line as int, pos: self.pos as int }
    }
}

/// What went wrong while parsing: the taxonomy of syntactic faults.
/// Positions are indices into the token sequence.
#[derive(Debug, Clone, PartialEq)]
pub enum ParseError {
    /// A token that cannot start a value, where a value was required.
    UnexpectedToken { found: Token, pos: usize },
    /// The token sequence ended where a value was required.
    UnexpectedEndOfInput,
    /// Inside an object, neither a string key nor a closing brace came.
    ExpectedKeyOrBrace { pos: usize },
    /// Inside an object, the colon after a key was missing.
    ExpectedColon { pos: usize },
    /// After an object member, neither a comma nor a closing brace came.
    ExpectedCommaOrBrace { pos: usize },
    /// After an array element, neither a comma nor a closing bracket came.
    ExpectedCommaOrBracket { pos: usize },
    /// The value nests deeper than the parser's depth budget.
    DepthExceeded,
}

/// Mathematical image of `ParseError`.
pub enum ParseErrorV {
    UnexpectedToken { found: TokenV, pos: int },
    UnexpectedEndOfInput,
    ExpectedKeyOrBrace { pos: int },
    ExpectedColon { pos: int },
    ExpectedCommaOrBrace { pos: int },
    ExpectedCommaOrBracket { pos: int },
    DepthExceeded,
}

impl View for ParseError {
    type V = ParseErrorV;

    open spec fn view(&self) -> ParseErrorV {
        match self {
            ParseError::UnexpectedToken { found, pos } => ParseErrorV::UnexpectedToken {
                found: found@,
                pos: *pos as int,
            },
            ParseError::UnexpectedEndOfInput => ParseErrorV::UnexpectedEndOfInput,
            ParseError::ExpectedKeyOrBrace { pos } => ParseErrorV::ExpectedKeyOrBrace {
                pos: *pos as int,
            },
            ParseError::ExpectedColon { pos } => ParseErrorV::ExpectedColon { pos: *pos as int },
            ParseError::ExpectedCommaOrBrace { pos } => ParseErrorV::ExpectedCommaOrBrace {
                pos: *pos as int,
            },
            ParseError::ExpectedCommaOrBracket { pos } => ParseErrorV::ExpectedCommaOrBracket {
                pos: *pos as int,
            },
            ParseError::DepthExceeded => ParseErrorV::DepthExceeded,
        }
    }
}

} // verus!
