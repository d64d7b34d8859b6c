//! Errors reported by the compiler.
use vstd::prelude::*;
use crate::compiler::token::{Token, TokenKind, TokenView};
use crate::text::{push_decimal, push_str, decimal};

verus! {

/// Where in the source an error was found.
#[derive(Debug, PartialEq)]
pub enum Where {
    AtEnd,
    AtLexeme(String),
}

/// What the compiler found wrong.
#[derive(Debug, PartialEq)]
pub enum CompileErrorKind {
    UnexpectedCharacter,
    ExpectedExpression,
    ExpectRightParen,
    ExpectSemicolon,
    ExpectEndOfExpression,
    ExpectRightBracket,
    UnterminatedString,
    Message(String),
}

/// A compile error: the line, the place and the kind.
#[derive(Debug, PartialEq)]
pub struct CompileError {
    pub line: usize,
    pub where_: Where,
    pub kind: CompileErrorKind,
}

pub enum WhereView {
    AtEnd,
    AtLexeme(Seq<char>),
}

pub enum KindView {
    UnexpectedCharacter,
    ExpectedExpression,
    ExpectRightParen,
    ExpectSemicolon,
    ExpectEndOfExpression,
    ExpectRightBracket,
    UnterminatedString,
    Message(Seq<char>),
}

pub struct CompileErrorView {
    pub line: int,
    pub where_: WhereView,
    pub kind: KindView,
}

impl View for Where {
    type V = WhereView;

    open spec fn view(&self) -> WhereView {
        match self {
            Where::AtEnd => WhereView::AtEnd,
            Where::AtLexeme(s) => WhereView::AtLexeme(s@),
        }
    }
}

impl View for CompileErrorKind {
    type V = KindView;

    open spec fn view(&self) -> KindView {
        match self {
            CompileErrorKind::UnexpectedCharacter => KindView::UnexpectedCharacter,
            CompileErrorKind::ExpectedExpression => KindView::ExpectedExpression,
            CompileErrorKind::ExpectRightParen => KindView::ExpectRightParen,
            CompileErrorKind::ExpectSemicolon => KindView::ExpectSemicolon,
            CompileErrorKind::ExpectEndOfExpression => KindView::ExpectEndOfExpression,
            CompileErrorKind::ExpectRightBracket => KindView::ExpectRightBracket,
            CompileErrorKind::UnterminatedString => KindView::UnterminatedString,
            CompileErrorKind::Message(s) => KindView::Message(s@),
        }
    }
}

impl View for CompileError {
    type V = CompileErrorView;

    open spec fn view(&self) -> CompileErrorView {
        CompileErrorView { line: self.line as int, where_: self.where_@, kind: self.kind@ }
    }
}

/// The error reported at `token`: at the end for `Eof`, else at its lexeme.
pub open spec fn error_at_view(token: TokenView, kind: KindView) -> CompileErrorView {
    CompileErrorView {
        line: token.line,
        where_: if token.kind == TokenKind::Eof {
            WhereView::AtEnd
        } else {
            WhereView::AtLexeme(token.lexeme)
        },
        kind,
    }
}

pub open spec fn kind_message(k: KindView) -> Seq<char> {
    match k {
        KindView::UnexpectedCharacter => "Unexpected character."@,
        KindView::ExpectedExpression => "Expected expression."@,
        KindView::ExpectRightParen => "Expect ')' after expression."@,
        KindView::ExpectSemicolon => "Expect ';' after value."@,
        KindView::ExpectEndOfExpression => "Expect end of expression."@,
        KindView::ExpectRightBracket => "Expect '}' after interpolated expression."@,
        KindView::UnterminatedString => "Unterminated string."@,
        KindView::Message(s) => s,
    }
}

/// The report line of an error: `[line N] Error at end: ...` or
/// `[line N] Error at 'lexeme': ...`.
pub open spec fn error_report(e: CompileErrorView) -> Seq<char> {
    "[line "@ + decimal(e.line as nat) + match e.where_ {
        WhereView::AtEnd => "] Error at end: "@,
        WhereView::AtLexeme(l) => "] Error at '"@ + l + "': "@,
    } + kind_message(e.kind)
}

impl CompileErrorKind {
    /// The text of the error kind.
    pub fn message(&self) -> (s: String)
        ensures
            s@ == kind_message(self@),
    {
        match self {
            CompileErrorKind::UnexpectedCharacter => String::from_str("Unexpected character."),
            CompileErrorKind::ExpectedExpression => String::from_str("Expected expression."),
            CompileErrorKind::ExpectRightParen => String::from_str("Expect ')' after expression."),
            CompileErrorKind::ExpectSemicolon => String::from_str("Expect ';' after value."),
            CompileErrorKind::ExpectEndOfExpression => String::from_str("Expect end of expression."),
            CompileErrorKind::ExpectRightBracket => String::from_str(
                "Expect '}' after interpolated expression.",
            ),
            CompileErrorKind::UnterminatedString => String::from_str("Unterminated string."),
            CompileErrorKind::Message(s) => s.clone(),
        }
    }
}

impl CompileError {
    /// The error of the given kind, reported at `token`.
    pub fn at(token: &Token, kind: CompileErrorKind) -> (e: Self)
        ensures
            e@ == error_at_view(token@, kind@),
    {
        let where_ = match token.kind {
            TokenKind::Eof => Where::AtEnd,
            _ => Where::AtLexeme(token.lexeme.clone()),
        };
        Self { line: token.line, where_, kind }
    }

    /// The report line of the error.
    pub fn message(&self) -> (s: String)
        ensures
            s@ == error_report(self@),
    {
        let mut s = String::new();
        push_str(&mut s, "[line ");
        push_decimal(&mut s, self.line as u64);
        match &self.where_ {
            Where::AtEnd => push_str(&mut s, "] Error at end: "),
            Where::AtLexeme(lex) => {
                push_str(&mut s, "] Error at '");
                push_str(&mut s, lex.as_str());
                push_str(&mut s, "': ");
            },
        }
        let k = self.kind.message();
        push_str(&mut s, k.as_str());
        proof {
            assert(s@ =~= error_report(self@));
        }
        s
    }
}

impl Clone for CompileError {
    fn clone(&self) -> (e: Self)
        ensures
            e@ == self@,
    {
        let where_ = match &self.where_ {
            Where::AtEnd => Where::AtEnd,
            Where::AtLexeme(s) => Where::AtLexeme(s.clone()),
        };
        let kind = match &self.kind {
            CompileErrorKind::UnexpectedCharacter => CompileErrorKind::UnexpectedCharacter,
            CompileErrorKind::ExpectedExpression => CompileErrorKind::ExpectedExpression,
            CompileErrorKind::ExpectRightParen => CompileErrorKind::ExpectRightParen,
            CompileErrorKind::ExpectSemicolon => CompileErrorKind::ExpectSemicolon,
            CompileErrorKind::ExpectEndOfExpression => CompileErrorKind::ExpectEndOfExpression,
            CompileErrorKind::ExpectRightBracket => CompileErrorKind::ExpectRightBracket,
            CompileErrorKind::UnterminatedString => CompileErrorKind::UnterminatedString,
            CompileErrorKind::Message(s) => CompileErrorKind::Message(s.clone()),
        };
        CompileError { line: self.line, where_, kind }
    }
}

} // verus!
