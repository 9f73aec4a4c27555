//! Tokens produced by the scanner.

use vstd::prelude::*;

verus! {

/// The kind of a token.  A numeric literal carries the bit pattern of the
/// IEEE 754 binary64 value it denotes; an identifier's text is the
/// token's lexeme.
#[derive(Clone, Copy, Debug, PartialEq, Eq, Structural)]
pub enum TokenType {
    LeftParen,
    RightParen,
    Comma,
    // Math
    Plus,
    Minus,
    Star,
    Slash,
    Carrot,
    // Boolean logic
    Not,
    GreaterThan,
    GreaterThanEqual,
    LessThan,
    LessThanEqual,
    EqualEqual,
    NotEqual,
    And,
    Or,
    Identifier,
    Number(u64),
    Eof,
}

/// A token: its kind, the text it was scanned from, and the 1-based
/// source line it starts on.
#[derive(Debug)]
pub struct Token {
    pub token_type: TokenType,
    pub lexeme: String,
    pub line: usize,
}

/// The mathematical model of a token.
pub ghost struct TokenModel {
    pub kind: TokenType,
    pub lexeme: Seq<char>,
    pub line: usize,
}

impl View for Token {
    type V = TokenModel;

    open spec fn view(&self) -> TokenModel {
        TokenModel { kind: self.token_type, lexeme: self.lexeme@, line: self.line }
    }
}

impl DeepView for Token {
    type V = TokenModel;

    open spec fn deep_view(&self) -> TokenModel {
        self.view()
    }
}

impl Token {
    pub fn new(token_type: TokenType, lexeme: String, line: usize) -> (t: Token)
        ensures
            t@ == (TokenModel { kind: token_type, lexeme: lexeme@, line }),
    {
        Token { token_type, lexeme, line }
    }
}

} // verus!
