use rlox::compiler::scanner::Scanner;
use rlox::compiler::token::{ScanError, TokenKind};

fn scan_all(src: &str) -> Vec<(TokenKind, String, usize, Option<ScanError>)> {
    let mut s = Scanner::new(src);
    let mut out = Vec::new();
    loop {
        let t = s.scan_token();
        let done = t.kind == TokenKind::Eof || out.len() > 200;
        out.push((t.kind, t.lexeme.clone(), t.line, t.error));
        if done {
            break;
        }
    }
    out
}

fn kinds(src: &str) -> Vec<TokenKind> {
    scan_all(src).into_iter().map(|t| t.0).collect()
}

#[test]
fn scans_arithmetic() {
    let toks = scan_all("1 + 2.5 * (3 - 4) / 5");
    let ks: Vec<TokenKind> = toks.iter().map(|t| t.0).collect();
    assert_eq!(
        ks,
        vec![
            TokenKind::Number,
            TokenKind::Plus,
            TokenKind::Number,
            TokenKind::Star,
            TokenKind::LeftParen,
            TokenKind::Number,
            TokenKind::Minus,
            TokenKind::Number,
            TokenKind::RightParen,
            TokenKind::Slash,
            TokenKind::Number,
            TokenKind::Eof
        ]
    );
    assert_eq!(toks[2].1, "2.5");
    assert_eq!(toks[11].1, "");
}

#[test]
fn scans_punctuation_and_two_char_operators() {
    assert_eq!(
        kinds("{},.;! != = == > >= < <="),
        vec![
            TokenKind::LeftBrace,
            TokenKind::RightBrace,
            TokenKind::Comma,
            TokenKind::Dot,
            TokenKind::SemiColon,
            TokenKind::Bang,
            TokenKind::BangEqual,
            TokenKind::Equal,
            TokenKind::EqualEqual,
            TokenKind::Greater,
            TokenKind::GreaterEqual,
            TokenKind::Less,
            TokenKind::LessEqual,
            TokenKind::Eof
        ]
    );
}

#[test]
fn scans_keywords_and_identifiers() {
    let toks = scan_all("and class else false for fun if nil or print return super this true var while andy _x9");
    let ks: Vec<TokenKind> = toks.iter().map(|t| t.0).collect();
    assert_eq!(
        ks,
        vec![
            TokenKind::And,
            TokenKind::Class,
            TokenKind::Else,
            TokenKind::False,
            TokenKind::For,
            TokenKind::Fun,
            TokenKind::If,
            TokenKind::Nil,
            TokenKind::Or,
            TokenKind::Print,
            TokenKind::Return,
            TokenKind::Super,
            TokenKind::This,
            TokenKind::True,
            TokenKind::Var,
            TokenKind::While,
            TokenKind::Identifier,
            TokenKind::Identifier,
            TokenKind::Eof
        ]
    );
    assert_eq!(toks[16].1, "andy");
    assert_eq!(toks[17].1, "_x9");
}

#[test]
fn number_forms() {
    let toks = scan_all("12 3.25 7. .5");
    assert_eq!(toks[0], (TokenKind::Number, "12".to_string(), 1, None));
    assert_eq!(toks[1], (TokenKind::Number, "3.25".to_string(), 1, None));
    // A dot without digits after it is not part of the number.
    assert_eq!(toks[2], (TokenKind::Number, "7".to_string(), 1, None));
    assert_eq!(toks[3].0, TokenKind::Dot);
    assert_eq!(toks[4], (TokenKind::Dot, ".".to_string(), 1, None));
    assert_eq!(toks[5], (TokenKind::Number, "5".to_string(), 1, None));
}

#[test]
fn comments_and_lines() {
    let toks = scan_all("// note\n1\n\n  2 // tail\n3");
    assert_eq!(toks[0], (TokenKind::Number, "1".to_string(), 2, None));
    assert_eq!(toks[1], (TokenKind::Number, "2".to_string(), 4, None));
    assert_eq!(toks[2], (TokenKind::Number, "3".to_string(), 5, None));
    assert_eq!(toks[3], (TokenKind::Eof, "".to_string(), 5, None));
}

#[test]
fn lone_slash_is_an_operator() {
    assert_eq!(kinds("1/2"), vec![TokenKind::Number, TokenKind::Slash, TokenKind::Number, TokenKind::Eof]);
}

#[test]
fn plain_string() {
    let toks = scan_all("\"hello\"");
    assert_eq!(toks[0], (TokenKind::StringPart, "hello".to_string(), 1, None));
    assert_eq!(toks[1], (TokenKind::StringEnd, "\"".to_string(), 1, None));
    assert_eq!(toks[2].0, TokenKind::Eof);
}

#[test]
fn empty_string() {
    let toks = scan_all("\"\"");
    assert_eq!(toks[0], (TokenKind::StringPart, "".to_string(), 1, None));
    assert_eq!(toks[1], (TokenKind::StringEnd, "\"".to_string(), 1, None));
    assert_eq!(toks[2].0, TokenKind::Eof);
}

#[test]
fn string_spanning_lines_counts_lines() {
    let toks = scan_all("\"a\nb\" 1");
    assert_eq!(toks[0], (TokenKind::StringPart, "a\nb".to_string(), 2, None));
    assert_eq!(toks[2], (TokenKind::Number, "1".to_string(), 2, None));
}

#[test]
fn interpolation_tokens() {
    let toks = scan_all("\"a${1 + {}}b\"");
    let ks: Vec<TokenKind> = toks.iter().map(|t| t.0).collect();
    assert_eq!(
        ks,
        vec![
            TokenKind::StringPart,
            TokenKind::InterpStart,
            TokenKind::Number,
            TokenKind::Plus,
            TokenKind::LeftBrace,
            TokenKind::RightBrace,
            TokenKind::InterpEnd,
            TokenKind::StringPart,
            TokenKind::StringEnd,
            TokenKind::Eof
        ]
    );
    assert_eq!(toks[0].1, "a");
    assert_eq!(toks[1].1, "${");
    assert_eq!(toks[6].1, "}");
    assert_eq!(toks[7].1, "b");
}

#[test]
fn interpolation_at_string_start() {
    let toks = scan_all("\"${2}\"");
    let ks: Vec<TokenKind> = toks.iter().map(|t| t.0).collect();
    assert_eq!(
        ks,
        vec![
            TokenKind::StringPart,
            TokenKind::InterpStart,
            TokenKind::Number,
            TokenKind::InterpEnd,
            TokenKind::StringEnd,
            TokenKind::Eof
        ]
    );
    assert_eq!(toks[0].1, "");
}

#[test]
fn dollar_without_brace_is_an_error() {
    let toks = scan_all("\"a$b\"");
    assert_eq!(toks[0], (TokenKind::StringPart, "a".to_string(), 1, None));
    assert_eq!(toks[1], (TokenKind::Error, "$".to_string(), 1, Some(ScanError::ExpectLeftBrace)));
    assert_eq!(toks[2], (TokenKind::StringPart, "b".to_string(), 1, None));
    assert_eq!(toks[3].0, TokenKind::StringEnd);
}

#[test]
fn unexpected_character() {
    let toks = scan_all("#1");
    assert_eq!(toks[0], (TokenKind::Error, "#".to_string(), 1, Some(ScanError::UnexpectedCharacter)));
    assert_eq!(toks[1].0, TokenKind::Number);
}

#[test]
fn unterminated_string_error_repeats() {
    let mut s = Scanner::new("\"abc");
    let t = s.scan_token();
    assert_eq!(t.kind, TokenKind::Error);
    assert_eq!(t.error, Some(ScanError::UnterminatedString));
    assert_eq!(t.lexeme, "abc");
    let pos = s.position();
    let again = s.scan_token();
    assert_eq!(again.kind, TokenKind::Error);
    assert_eq!(again.error, Some(ScanError::UnterminatedString));
    assert_eq!(again.lexeme, "");
    assert_eq!(s.position(), pos);
}

#[test]
fn eof_is_sticky() {
    let mut s = Scanner::new("  ");
    let a = s.scan_token();
    let b = s.scan_token();
    assert_eq!(a.kind, TokenKind::Eof);
    assert_eq!(b.kind, TokenKind::Eof);
    assert_eq!(s.position(), 2);
}

#[test]
fn non_ascii_text_in_strings() {
    let toks = scan_all("\"héllo ☃\"");
    assert_eq!(toks[0].1, "héllo ☃");
    assert_eq!(toks[1].0, TokenKind::StringEnd);
}

#[test]
fn scan_error_messages() {
    assert_eq!(ScanError::UnexpectedCharacter.message(), "Unexpected Character");
    assert_eq!(ScanError::UnterminatedString.message(), "Unterminated string.");
    assert_eq!(ScanError::ExpectDollar.message(), "Expect '$' to start interpolation.");
    assert_eq!(ScanError::ExpectLeftBrace.message(), "Expect '{' after '$' in interpolation.");
}
