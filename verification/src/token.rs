use vstd::prelude::*;

verus! {

/// One lexical unit of a JSON document: a structural marker, or a literal
/// carrying its decoded value.  A `FLOAT` carries the literal's text exactly
/// as scanned (digits, a dot, then optional digits); the text determines the
/// numeric value, and callers that need that value convert it themselves.
#[derive(Debug, Clone, PartialEq)]
pub enum Token {
    LBRACE,
    RBRACE,
    LBRAC,
    RBRAC,
    COLON,
    COMMA,
    QUOTE,
    STRING(String),
    INTEGER(i64),
    FLOAT(String),
    BOOLEAN(bool),
    NONE,
}

/// The mathematical image of a `Token`: the same tags, with the string
/// payload abstracted to its character sequence.
pub enum TokenV {
    LBrace,
    RBrace,
    LBrack,
    RBrack,
    Colon,
    Comma,
    Quote,
    Str(Seq<char>),
    Integer(i64),
    Float(Seq<char>),
    Boolean(bool),
    Null,
}

impl View for Token {
    type V = TokenV;

    open spec fn view(&self) -> TokenV {
        match self {
            Token::LBRACE => TokenV::LBrace,
            Token::RBRACE => TokenV::RBrace,
            Token::LBRAC => TokenV::LBrack,
            Token::RBRAC => TokenV::RBrack,
            Token::COLON => TokenV::Colon,
            Token::COMMA => TokenV::Comma,
            Token::QUOTE => TokenV::Quote,
            Token::STRING(s) => TokenV::Str(s@),
            Token::INTEGER(n) => TokenV::Integer(*n),
            Token::FLOAT(t) => TokenV::Float(t@),
            Token::BOOLEAN(b) => TokenV::Boolean(*b),
            Token::NONE => TokenV::Null,
        }
    }
}

impl DeepView for Token {
    type V = TokenV;

    open spec fn deep_view(&self) -> TokenV {
        self.view()
    }
}

impl Token {
    /// An owned copy whose view equals this token's view.
    pub fn duplicate(&self) -> (r: Token)
        ensures
            r@ == self@,
    {
        match self {
            Token::LBRACE => Token::LBRACE,
            Token::RBRACE => Token::RBRACE,
            Token::LBRAC => Token::LBRAC,
            Token::RBRAC => Token::RBRAC,
            Token::COLON => Token::COLON,
            Token::COMMA => Token::COMMA,
            Token::QUOTE => Token::QUOTE,
            Token::STRING(s) => Token::STRING(s.clone()),
            Token::INTEGER(n) => Token::INTEGER(*n),
            Token::FLOAT(t) => Token::FLOAT(t.clone()),
            Token::BOOLEAN(b) => Token::BOOLEAN(*b),
            Token::NONE => Token::NONE,
        }
    }
}

} // verus!
