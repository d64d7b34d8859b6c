//! Tokens produced by the scanner.
use vstd::prelude::*;

verus! {

/// The lexical class of a token.
#[derive(Clone, Copy, Debug, PartialEq, Eq, Structural)]
pub enum TokenKind {
    LeftParen,
    RightParen,
    LeftBrace,
    RightBrace,
    Comma,
    Dot,
    Minus,
    Plus,
    SemiColon,
    Slash,
    Star,
    Bang,
    BangEqual,
    Equal,
    EqualEqual,
    Greater,
    GreaterEqual,
    Less,
    LessEqual,
    Identifier,
    StringPart,
    StringEnd,
    InterpStart,
    InterpEnd,
    Number,
    And,
    Class,
    Else,
    False,
    For,
    Fun,
    If,
    Nil,
    Or,
    Print,
    Return,
    Super,
    This,
    True,
    Var,
    While,
    Error,
    Eof,
}

/// Why the scanner produced an `Error` token.
#[derive(Clone, Copy, Debug, PartialEq, Eq, Structural)]
pub enum ScanError {
    UnexpectedCharacter,
    UnterminatedString,
    ExpectDollar,
    ExpectLeftBrace,
}

impl ScanError {
    /// The human readable text of the error.
    pub fn message(&self) -> (s: &'static str)
        ensures
            s@ == self.spec_message(),
    {
        match self {
            ScanError::UnexpectedCharacter => "Unexpected Character",
            ScanError::UnterminatedString => "Unterminated string.",
            ScanError::ExpectDollar => "Expect '$' to start interpolation.",
            ScanError::ExpectLeftBrace => "Expect '{' after '$' in interpolation.",
        }
    }

    pub open spec fn spec_message(&self) -> Seq<char> {
        match self {
            ScanError::UnexpectedCharacter => "Unexpected Character"@,
            ScanError::UnterminatedString => "Unterminated string."@,
            ScanError::ExpectDollar => "Expect '$' to start interpolation."@,
            ScanError::ExpectLeftBrace => "Expect '{' after '$' in interpolation."@,
        }
    }
}

/// A token: its kind, the source text it covers, the line it ends on and,
/// for `Error` tokens, what went wrong.
#[derive(Debug, PartialEq)]
pub struct Token {
    pub kind: TokenKind,
    pub lexeme: String,
    pub line: usize,
    pub error: Option<ScanError>,
}

/// The mathematical value of a token.
pub struct TokenView {
    pub kind: TokenKind,
    pub lexeme: Seq<char>,
    pub line: int,
    pub error: Option<ScanError>,
}

impl View for Token {
    type V = TokenView;

    open spec fn view(&self) -> TokenView {
        TokenView { kind: self.kind, lexeme: self.lexeme@, line: self.line as int, error: self.error }
    }
}

impl Clone for Token {
    fn clone(&self) -> (t: Self)
        ensures
            t@ == self@,
    {
        Token { kind: self.kind, lexeme: self.lexeme.clone(), line: self.line, error: self.error }
    }
}

} // verus!
