//! The scanner: turns source text into tokens one at a time, with string
//! interpolation (`"a ${expr} b"`) handled by a small mode machine.
use vstd::prelude::*;
use crate::compiler::token::{Token, TokenKind, TokenView, ScanError};
use crate::text::{push_char, chars_of};

verus! {

/// What the scanner is in the middle of.
#[derive(Clone, Copy, Debug, PartialEq, Eq, Structural)]
pub enum ScanMode {
    /// Ordinary code.
    Normal,
    /// Inside the text of a string literal.
    String,
    /// At the `${` that opens an interpolation inside a string.
    Interpolation,
}

/// Character classes at which a run of characters ends.
pub enum Stop {
    NewLine,
    NonAlnum,
    NonDigit,
    QuoteOrDollar,
}

pub open spec fn is_digit_spec(c: char) -> bool {
    '0' <= c && c <= '9'
}

pub open spec fn is_alpha_spec(c: char) -> bool {
    c == '_' || ('a' <= c && c <= 'z') || ('A' <= c && c <= 'Z')
}

pub open spec fn is_alnum_spec(c: char) -> bool {
    is_alpha_spec(c) || is_digit_spec(c)
}

pub open spec fn stops(stop: Stop, c: char) -> bool {
    match stop {
        Stop::NewLine => c == '\n',
        Stop::NonAlnum => !is_alnum_spec(c),
        Stop::NonDigit => !is_digit_spec(c),
        Stop::QuoteOrDollar => c == '"' || c == '$',
    }
}

/// The first index at or after `i` where the source ends or a `stop`
/// character stands.
pub open spec fn first_stop(src: Seq<char>, i: int, stop: Stop) -> int
    decreases src.len() - i,
{
    if i < 0 || i >= src.len() {
        i
    } else if stops(stop, src[i]) {
        i
    } else {
        first_stop(src, i + 1, stop)
    }
}

pub proof fn lemma_first_stop(src: Seq<char>, i: int, stop: Stop)
    requires
        0 <= i <= src.len(),
    ensures
        i <= first_stop(src, i, stop) <= src.len(),
        forall|k: int| i <= k < first_stop(src, i, stop) ==> !stops(stop, #[trigger] src[k]),
        first_stop(src, i, stop) < src.len() ==> stops(stop, src[first_stop(src, i, stop)]),
    decreases src.len() - i,
{
    if i < src.len() && !stops(stop, src[i]) {
        lemma_first_stop(src, i + 1, stop);
    }
}

/// The number of line breaks in `s`.
pub open spec fn newlines(s: Seq<char>) -> nat
    decreases s.len(),
{
    if s.len() == 0 {
        0
    } else {
        newlines(s.drop_last()) + if s.last() == '\n' {
            1nat
        } else {
            0nat
        }
    }
}

pub proof fn lemma_newlines_split(src: Seq<char>, a: int, b: int)
    requires
        0 <= a <= b <= src.len(),
    ensures
        newlines(src.take(b)) == newlines(src.take(a)) + newlines(src.subrange(a, b)),
    decreases b - a,
{
    if a == b {
        assert(src.subrange(a, b) =~= Seq::<char>::empty());
    } else {
        lemma_newlines_split(src, a, b - 1);
        assert(src.take(b).drop_last() =~= src.take(b - 1));
        assert(src.subrange(a, b).drop_last() =~= src.subrange(a, b - 1));
    }
}

pub proof fn lemma_newlines_none(src: Seq<char>, a: int, b: int)
    requires
        0 <= a <= b <= src.len(),
        forall|k: int| a <= k < b ==> #[trigger] src[k] != '\n',
    ensures
        newlines(src.take(b)) == newlines(src.take(a)),
    decreases b - a,
{
    if a < b {
        lemma_newlines_none(src, a, b - 1);
        assert(src.take(b).drop_last() =~= src.take(b - 1));
    }
}

pub proof fn lemma_newlines_bound(s: Seq<char>)
    ensures
        newlines(s) <= s.len(),
    decreases s.len(),
{
    if s.len() > 0 {
        lemma_newlines_bound(s.drop_last());
    }
}

/// The scanner's state, as numbers.
pub struct ScanState {
    pub start: int,
    pub current: int,
    pub line: int,
    pub mode: ScanMode,
    pub depth: int,
}

/// A state is consistent with the source: positions are in range, the depth
/// of `{` nesting inside an interpolation is bounded by what was read, and the
/// line is one more than the number of line breaks read so far.
pub open spec fn state_wf(src: Seq<char>, st: ScanState) -> bool {
    &&& 0 <= st.start <= st.current <= src.len()
    &&& src.len() < usize::MAX
    &&& 0 <= st.depth <= st.current
    &&& st.line == 1 + newlines(src.take(st.current))
    &&& st.mode == ScanMode::Interpolation ==> peek(src, st.current) == Some('$')
}

pub open spec fn mode_rank(m: ScanMode) -> int {
    match m {
        ScanMode::Normal => 0,
        ScanMode::Interpolation => 1,
        ScanMode::String => 2,
    }
}

/// How much scanning is left: three units per unread character, plus one or
/// two while inside a string literal.
pub open spec fn scan_measure(src: Seq<char>, st: ScanState) -> int {
    3 * (src.len() - st.current) + mode_rank(st.mode)
}

pub fn rank_of_mode(m: ScanMode) -> (r: u8)
    ensures
        r == mode_rank(m),
{
    match m {
        ScanMode::Normal => 0,
        ScanMode::Interpolation => 1,
        ScanMode::String => 2,
    }
}

/// The step from `st` to `st2` read something or moved towards ordinary code.
pub open spec fn progressed(st: ScanState, st2: ScanState) -> bool {
    st2.current > st.current || (st2.current == st.current && mode_rank(st2.mode) < mode_rank(st.mode))
}

/// The scanner cannot move on: it stands at the end of a string literal that
/// was never closed, and hands out the same error again and again.
pub open spec fn stuck(src: Seq<char>, st: ScanState) -> bool {
    st.mode == ScanMode::String && st.current >= src.len()
}

pub open spec fn peek(src: Seq<char>, i: int) -> Option<char> {
    if 0 <= i < src.len() {
        Some(src[i])
    } else {
        None
    }
}

pub open spec fn make_tok(kind: TokenKind, src: Seq<char>, st: ScanState) -> TokenView {
    TokenView {
        kind,
        lexeme: src.subrange(st.start, st.current),
        line: st.line,
        error: None,
    }
}

pub open spec fn make_err(e: ScanError, src: Seq<char>, st: ScanState) -> TokenView {
    TokenView {
        kind: TokenKind::Error,
        lexeme: src.subrange(st.start, st.current),
        line: st.line,
        error: Some(e),
    }
}

/// Skipping blanks, line breaks and `//` comments from `i`: where the next
/// token starts and the line it is on.
pub open spec fn skip_ws(src: Seq<char>, i: int, line: int) -> (int, int)
    decreases src.len() - i,
{
    if i < 0 || i >= src.len() {
        (i, line)
    } else {
        let c = src[i];
        if c == ' ' || c == '\r' || c == '\t' {
            skip_ws(src, i + 1, line)
        } else if c == '\n' {
            skip_ws(src, i + 1, line + 1)
        } else if c == '/' && peek(src, i + 1) == Some('/') {
            let e = first_stop(src, i, Stop::NewLine);
            if i < e <= src.len() {
                skip_ws(src, e, line)
            } else {
                (i, line)
            }
        } else {
            (i, line)
        }
    }
}

/// The reserved word spelled by `text`, if any.
pub open spec fn spec_keyword(text: Seq<char>) -> Option<TokenKind> {
    if text == "and"@ {
        Some(TokenKind::And)
    } else if text == "class"@ {
        Some(TokenKind::Class)
    } else if text == "else"@ {
        Some(TokenKind::Else)
    } else if text == "false"@ {
        Some(TokenKind::False)
    } else if text == "for"@ {
        Some(TokenKind::For)
    } else if text == "fun"@ {
        Some(TokenKind::Fun)
    } else if text == "if"@ {
        Some(TokenKind::If)
    } else if text == "nil"@ {
        Some(TokenKind::Nil)
    } else if text == "or"@ {
        Some(TokenKind::Or)
    } else if text == "print"@ {
        Some(TokenKind::Print)
    } else if text == "return"@ {
        Some(TokenKind::Return)
    } else if text == "super"@ {
        Some(TokenKind::Super)
    } else if text == "this"@ {
        Some(TokenKind::This)
    } else if text == "true"@ {
        Some(TokenKind::True)
    } else if text == "var"@ {
        Some(TokenKind::Var)
    } else if text == "while"@ {
        Some(TokenKind::While)
    } else {
        None
    }
}

/// Each reserved word is scanned as its own keyword.
pub proof fn lemma_keywords()
    ensures
        spec_keyword("and"@) == Some(TokenKind::And),
        spec_keyword("class"@) == Some(TokenKind::Class),
        spec_keyword("else"@) == Some(TokenKind::Else),
        spec_keyword("false"@) == Some(TokenKind::False),
        spec_keyword("for"@) == Some(TokenKind::For),
        spec_keyword("fun"@) == Some(TokenKind::Fun),
        spec_keyword("if"@) == Some(TokenKind::If),
        spec_keyword("nil"@) == Some(TokenKind::Nil),
        spec_keyword("or"@) == Some(TokenKind::Or),
        spec_keyword("print"@) == Some(TokenKind::Print),
        spec_keyword("return"@) == Some(TokenKind::Return),
        spec_keyword("super"@) == Some(TokenKind::Super),
        spec_keyword("this"@) == Some(TokenKind::This),
        spec_keyword("true"@) == Some(TokenKind::True),
        spec_keyword("var"@) == Some(TokenKind::Var),
        spec_keyword("while"@) == Some(TokenKind::While),
{
    reveal_strlit("and");
    reveal_strlit("class");
    reveal_strlit("else");
    reveal_strlit("false");
    reveal_strlit("for");
    reveal_strlit("fun");
    reveal_strlit("if");
    reveal_strlit("nil");
    reveal_strlit("or");
    reveal_strlit("print");
    reveal_strlit("return");
    reveal_strlit("super");
    reveal_strlit("this");
    reveal_strlit("true");
    reveal_strlit("var");
    reveal_strlit("while");
    assert("and"@.len() == 3 && "and"@[0] == 'a' && "and"@[1] == 'n');
    assert("class"@.len() == 5 && "class"@[0] == 'c' && "class"@[1] == 'l');
    assert("else"@.len() == 4 && "else"@[0] == 'e' && "else"@[1] == 'l');
    assert("false"@.len() == 5 && "false"@[0] == 'f' && "false"@[1] == 'a');
    assert("for"@.len() == 3 && "for"@[0] == 'f' && "for"@[1] == 'o');
    assert("fun"@.len() == 3 && "fun"@[0] == 'f' && "fun"@[1] == 'u');
    assert("if"@.len() == 2 && "if"@[0] == 'i' && "if"@[1] == 'f');
    assert("nil"@.len() == 3 && "nil"@[0] == 'n' && "nil"@[1] == 'i');
    assert("or"@.len() == 2 && "or"@[0] == 'o' && "or"@[1] == 'r');
    assert("print"@.len() == 5 && "print"@[0] == 'p' && "print"@[1] == 'r');
    assert("return"@.len() == 6 && "return"@[0] == 'r' && "return"@[1] == 'e');
    assert("super"@.len() == 5 && "super"@[0] == 's' && "super"@[1] == 'u');
    assert("this"@.len() == 4 && "this"@[0] == 't' && "this"@[1] == 'h');
    assert("true"@.len() == 4 && "true"@[0] == 't' && "true"@[1] == 'r');
    assert("var"@.len() == 3 && "var"@[0] == 'v' && "var"@[1] == 'a');
    assert("while"@.len() == 5 && "while"@[0] == 'w' && "while"@[1] == 'h');
}

/// The end of a number whose first digit stands just before `i`: digits,
/// then optionally a `.` followed by at least one digit and more digits.
pub open spec fn number_end(src: Seq<char>, i: int) -> int {
    let d = first_stop(src, i, Stop::NonDigit);
    if peek(src, d) == Some('.') && d + 1 < src.len() && is_digit_spec(src[d + 1]) {
        first_stop(src, d + 1, Stop::NonDigit)
    } else {
        d
    }
}

/// Text of a string literal from `st.current` up to the closing quote, the
/// next `$` or the end of the source.
pub open spec fn string_part(src: Seq<char>, st: ScanState) -> (TokenView, ScanState) {
    let c = st.current;
    if peek(src, c) == Some('"') {
        let st2 = ScanState { current: c + 1, mode: ScanMode::Normal, ..st };
        (make_tok(TokenKind::StringEnd, src, st2), st2)
    } else {
        let e = first_stop(src, c, Stop::QuoteOrDollar);
        let st2 = ScanState { current: e, line: st.line + newlines(src.subrange(c, e)), ..st };
        if peek(src, e) == Some('$') {
            let st3 = ScanState { mode: ScanMode::Interpolation, ..st2 };
            (make_tok(TokenKind::StringPart, src, st3), st3)
        } else if e >= src.len() {
            (make_err(ScanError::UnterminatedString, src, st2), st2)
        } else {
            (make_tok(TokenKind::StringPart, src, st2), st2)
        }
    }
}

/// The `${` that opens an interpolation.
pub open spec fn interpolation(src: Seq<char>, st: ScanState) -> (TokenView, ScanState) {
    let c = st.current;
    if peek(src, c) != Some('$') {
        let st2 = ScanState { mode: ScanMode::String, ..st };
        (make_err(ScanError::ExpectDollar, src, st2), st2)
    } else if peek(src, c + 1) != Some('{') {
        let st2 = ScanState { current: c + 1, mode: ScanMode::String, ..st };
        (make_err(ScanError::ExpectLeftBrace, src, st2), st2)
    } else {
        let st2 = ScanState { current: c + 2, depth: 1, mode: ScanMode::Normal, ..st };
        (make_tok(TokenKind::InterpStart, src, st2), st2)
    }
}

/// The token after an opening quote, which stands just before `st.current`.
pub open spec fn string_start(src: Seq<char>, st: ScanState) -> (TokenView, ScanState) {
    let st2 = ScanState { mode: ScanMode::String, start: st.current, ..st };
    if peek(src, st.current) == Some('"') {
        (make_tok(TokenKind::StringPart, src, st2), st2)
    } else {
        string_part(src, st2)
    }
}

/// A one- or two-character operator: `two` when the next character is `=`.
pub open spec fn with_equal(src: Seq<char>, st: ScanState, two: TokenKind, one: TokenKind) -> (
    TokenView,
    ScanState,
) {
    if peek(src, st.current) == Some('=') {
        let st2 = ScanState { current: st.current + 1, ..st };
        (make_tok(two, src, st2), st2)
    } else {
        (make_tok(one, src, st), st)
    }
}

/// The token that begins with `c`, which was just read.
pub open spec fn scan_from_char(src: Seq<char>, st: ScanState, c: char) -> (TokenView, ScanState) {
    if c == '(' {
        (make_tok(TokenKind::LeftParen, src, st), st)
    } else if c == ')' {
        (make_tok(TokenKind::RightParen, src, st), st)
    } else if c == '{' {
        let st2 = if st.depth > 0 {
            ScanState { depth: st.depth + 1, ..st }
        } else {
            st
        };
        (make_tok(TokenKind::LeftBrace, src, st2), st2)
    } else if c == '}' {
        if st.depth > 0 {
            if st.depth == 1 {
                let st2 = ScanState { depth: 0, mode: ScanMode::String, ..st };
                (make_tok(TokenKind::InterpEnd, src, st2), st2)
            } else {
                let st2 = ScanState { depth: st.depth - 1, ..st };
                (make_tok(TokenKind::RightBrace, src, st2), st2)
            }
        } else {
            (make_tok(TokenKind::RightBrace, src, st), st)
        }
    } else if c == ',' {
        (make_tok(TokenKind::Comma, src, st), st)
    } else if c == '.' {
        (make_tok(TokenKind::Dot, src, st), st)
    } else if c == ';' {
        (make_tok(TokenKind::SemiColon, src, st), st)
    } else if c == '+' {
        (make_tok(TokenKind::Plus, src, st), st)
    } else if c == '-' {
        (make_tok(TokenKind::Minus, src, st), st)
    } else if c == '*' {
        (make_tok(TokenKind::Star, src, st), st)
    } else if c == '/' {
        (make_tok(TokenKind::Slash, src, st), st)
    } else if c == '!' {
        with_equal(src, st, TokenKind::BangEqual, TokenKind::Bang)
    } else if c == '=' {
        with_equal(src, st, TokenKind::EqualEqual, TokenKind::Equal)
    } else if c == '>' {
        with_equal(src, st, TokenKind::GreaterEqual, TokenKind::Greater)
    } else if c == '<' {
        with_equal(src, st, TokenKind::LessEqual, TokenKind::Less)
    } else if c == '"' {
        string_start(src, st)
    } else if is_digit_spec(c) {
        let st2 = ScanState { current: number_end(src, st.current), ..st };
        (make_tok(TokenKind::Number, src, st2), st2)
    } else if is_alpha_spec(c) {
        let st2 = ScanState { current: first_stop(src, st.current, Stop::NonAlnum), ..st };
        let text = src.subrange(st2.start, st2.current);
        let kind = match spec_keyword(text) {
            Some(k) => k,
            None => TokenKind::Identifier,
        };
        (make_tok(kind, src, st2), st2)
    } else {
        (make_err(ScanError::UnexpectedCharacter, src, st), st)
    }
}

/// One call of the scanner: the token it returns and the state it leaves.
pub open spec fn scan_step(src: Seq<char>, st: ScanState) -> (TokenView, ScanState) {
    match st.mode {
        ScanMode::Normal => {
            let (p, ln) = skip_ws(src, st.current, st.line);
            if p >= src.len() {
                let st2 = ScanState { start: p, current: p, line: ln, ..st };
                (make_tok(TokenKind::Eof, src, st2), st2)
            } else {
                let st2 = ScanState { start: p, current: p + 1, line: ln, ..st };
                scan_from_char(src, st2, src[p])
            }
        },
        ScanMode::String => string_part(src, ScanState { start: st.current, ..st }),
        ScanMode::Interpolation => interpolation(src, ScanState { start: st.current, ..st }),
    }
}

/// Source scanner.
/// Every scanner step either makes progress, or returns `Eof` at the end of
/// the source, or returns the unterminated-string error at the end of an
/// unclosed string; in the last two cases the state stays as it was (up to
/// the start of the token).
pub proof fn lemma_scan_progress(src: Seq<char>, st: ScanState)
    requires
        state_wf(src, st),
    ensures
        ({
            let (t, st2) = scan_step(src, st);
            ||| progressed(st, st2) && st2.current <= src.len()
            ||| t.kind == TokenKind::Eof && st.mode == ScanMode::Normal && st2 == (ScanState { start: st2.start, ..st })
                && st2.current == src.len()
            ||| t.kind == TokenKind::Error && t.error == Some(ScanError::UnterminatedString) && stuck(src, st)
                && st2 == (ScanState { start: st2.start, ..st })
        }),
{
    match st.mode {
        ScanMode::Normal => {
            lemma_skip_ws_lands(src, st.current, st.line);
            let p = skip_ws(src, st.current, st.line).0;
            if p < src.len() {
                lemma_first_stop(src, p + 1, Stop::NonDigit);
                lemma_first_stop(src, p + 1, Stop::NonAlnum);
                let d = first_stop(src, p + 1, Stop::NonDigit);
                if d + 1 < src.len() {
                    lemma_first_stop(src, d + 1, Stop::NonDigit);
                }
                lemma_first_stop(src, p + 1, Stop::QuoteOrDollar);
            } else if p <= st.current {
                lemma_skip_ws_same(src, st.current, st.line);
            }
        },
        ScanMode::String => {
            lemma_first_stop(src, st.current, Stop::QuoteOrDollar);
        },
        ScanMode::Interpolation => {},
    }
}

/// Every token's lexeme is the text it spans, which lies between where the
/// scanner stood and where it stops; and every token but `Eof`, a string
/// part and an error moves the scanner past at least one character.
pub proof fn lemma_token_span(src: Seq<char>, st: ScanState)
    requires
        state_wf(src, st),
    ensures
        ({
            let (t, st2) = scan_step(src, st);
            &&& t.lexeme == src.subrange(st2.start, st2.current)
            &&& st.current <= st2.start <= st2.current <= src.len()
            &&& (t.kind != TokenKind::Eof && t.kind != TokenKind::StringPart && t.kind
                != TokenKind::Error) ==> st2.current > st.current
        }),
{
    lemma_scan_progress(src, st);
    match st.mode {
        ScanMode::Normal => {
            lemma_skip_ws_lands(src, st.current, st.line);
            let p = skip_ws(src, st.current, st.line).0;
            if p < src.len() {
                lemma_first_stop(src, p + 1, Stop::NonDigit);
                lemma_first_stop(src, p + 1, Stop::NonAlnum);
                let d = first_stop(src, p + 1, Stop::NonDigit);
                if d + 1 < src.len() {
                    lemma_first_stop(src, d + 1, Stop::NonDigit);
                }
                lemma_first_stop(src, p + 1, Stop::QuoteOrDollar);
            }
        },
        ScanMode::String => {
            lemma_first_stop(src, st.current, Stop::QuoteOrDollar);
        },
        ScanMode::Interpolation => {},
    }
}

/// A `//` comment runs to the end of its line: skipping blanks from the start
/// of a comment goes past it, and stops at the end of the source or after a
/// line break that follows the comment.
pub proof fn lemma_comment_skipped(src: Seq<char>, i: int, line: int)
    requires
        0 <= i,
        i + 1 < src.len(),
        src[i] == '/',
        src[i + 1] == '/',
    ensures
        ({
            let p = skip_ws(src, i, line).0;
            &&& i + 1 < p <= src.len()
            &&& p == src.len() || exists|j: int| i < j < p && src[j] == '\n'
        }),
{
    lemma_first_stop(src, i, Stop::NewLine);
    let e = first_stop(src, i, Stop::NewLine);
    assert(!stops(Stop::NewLine, src[i + 1]));
    assert(e > i + 1);
    assert(peek(src, i + 1) == Some('/'));
    assert(skip_ws(src, i, line) == skip_ws(src, e, line));
    if e < src.len() {
        assert(src[e] == '\n');
        lemma_skip_ws_lands(src, e + 1, line + 1);
        assert(skip_ws(src, e, line) == skip_ws(src, e + 1, line + 1));
        let p = skip_ws(src, i, line).0;
        assert(i < e < p && src[e] == '\n');
    }
}

/// In ordinary code, no token starts inside a `//` comment: the next token
/// after one is the end of the source or starts after a line break that
/// follows the comment.
pub proof fn lemma_no_token_in_comment(src: Seq<char>, st: ScanState)
    requires
        state_wf(src, st),
        st.mode == ScanMode::Normal,
        st.current + 1 < src.len(),
        src[st.current] == '/',
        src[st.current + 1] == '/',
    ensures
        ({
            let (t, st2) = scan_step(src, st);
            ||| t.kind == TokenKind::Eof && st2.start == src.len()
            ||| exists|j: int| st.current < j < st2.start && src[j] == '\n'
        }),
{
    lemma_comment_skipped(src, st.current, st.line);
    let p = skip_ws(src, st.current, st.line).0;
    if p < src.len() {
        lemma_token_span(src, st);
    }
}

/// A letter or `_` that stands in ordinary code.
pub open spec fn ascii_word_start(c: char) -> bool {
    ('a' <= c && c <= 'z') || ('A' <= c && c <= 'Z') || c == '_'
}

/// A character that can go on a word: a letter, a digit or `_`.
pub open spec fn ascii_word_char(c: char) -> bool {
    ascii_word_start(c) || ('0' <= c && c <= '9')
}

/// A word in ordinary code, made of letters, digits and `_` and starting with
/// a letter or `_`, is scanned as one identifier or keyword token that spans
/// the whole word.
pub proof fn lemma_word_token(src: Seq<char>, st: ScanState)
    requires
        state_wf(src, st),
        st.mode == ScanMode::Normal,
        st.current < src.len(),
        ascii_word_start(src[st.current]),
    ensures
        ({
            let (t, st2) = scan_step(src, st);
            &&& t.kind == TokenKind::Identifier || spec_keyword(t.lexeme) == Some(t.kind)
            &&& st2.start == st.current
            &&& st2.current > st.current
            &&& t.lexeme == src.subrange(st.current, st2.current)
            &&& forall|k: int| st.current <= k < st2.current ==> ascii_word_char(#[trigger] src[k])
            &&& st2.current == src.len() || !ascii_word_char(src[st2.current])
        }),
{
    let c = src[st.current];
    assert(skip_ws(src, st.current, st.line) == (st.current, st.line));
    lemma_first_stop(src, st.current + 1, Stop::NonAlnum);
}

/// Taking `ch` if it is the next character: whether it was there, and the
/// state after. Both the operator matcher and the interpolation reader take
/// characters this way.
pub open spec fn take_char(src: Seq<char>, st: ScanState, ch: char) -> (bool, ScanState) {
    if peek(src, st.current) == Some(ch) {
        (true, ScanState { current: st.current + 1, ..st })
    } else {
        (false, st)
    }
}

/// Once the scanner has returned `Eof` it stays where it is and returns
/// `Eof` again.
pub proof fn lemma_eof_sticky(src: Seq<char>, st: ScanState)
    requires
        state_wf(src, st),
        scan_step(src, st).0.kind == TokenKind::Eof,
    ensures
        scan_step(src, scan_step(src, st).1) == scan_step(src, st),
{
    lemma_skip_ws_lands(src, st.current, st.line);
    let st2 = scan_step(src, st).1;
    assert(st.mode == ScanMode::Normal);
    assert(st2.current == src.len());
    assert(skip_ws(src, st2.current, st2.line) == (st2.current, st2.line));
}

/// When blank skipping lands at the end without reading, nothing moved.
pub proof fn lemma_skip_ws_same(src: Seq<char>, i: int, line: int)
    requires
        0 <= i <= src.len(),
        skip_ws(src, i, line).0 >= src.len(),
        skip_ws(src, i, line).0 <= i,
    ensures
        skip_ws(src, i, line) == (i, line),
{
    lemma_skip_ws_lands(src, i, line);
    if i < src.len() {
        let c = src[i];
        if c == ' ' || c == '\r' || c == '\t' || c == '\n' {
            lemma_skip_ws_lands(src, i + 1, if c == '\n' { line + 1 } else { line });
        } else if c == '/' && peek(src, i + 1) == Some('/') {
            lemma_first_stop(src, i, Stop::NewLine);
            let e = first_stop(src, i, Stop::NewLine);
            if i < e <= src.len() {
                lemma_skip_ws_lands(src, e, line);
            }
        }
    }
}

/// Where blank skipping stops there is no blank and no line break.
pub proof fn lemma_skip_ws_lands(src: Seq<char>, i: int, line: int)
    requires
        0 <= i <= src.len(),
    ensures
        i <= skip_ws(src, i, line).0 <= src.len(),
        skip_ws(src, i, line).0 < src.len() ==> {
            let c = src[skip_ws(src, i, line).0];
            c != ' ' && c != '\r' && c != '\t' && c != '\n'
        },
    decreases src.len() - i,
{
    if i < src.len() {
        let c = src[i];
        if c == ' ' || c == '\r' || c == '\t' || c == '\n' {
            lemma_skip_ws_lands(src, i + 1, if c == '\n' { line + 1 } else { line });
        } else if c == '/' && peek(src, i + 1) == Some('/') {
            lemma_first_stop(src, i, Stop::NewLine);
            let e = first_stop(src, i, Stop::NewLine);
            if i < e <= src.len() {
                lemma_skip_ws_lands(src, e, line);
            }
        }
    }
}

fn char_stops(stop: &Stop, c: char) -> (r: bool)
    ensures
        r == stops(*stop, c),
{
    match stop {
        Stop::NewLine => c == '\n',
        Stop::NonAlnum => !is_alnum(c),
        Stop::NonDigit => !is_digit(c),
        Stop::QuoteOrDollar => c == '"' || c == '$',
    }
}

/// Source scanner.
pub struct Scanner {
    source: Vec<char>,
    start: usize,
    current: usize,
    line: usize,
    mode: ScanMode,
    interp_depth: usize,
}

pub fn is_digit(c: char) -> (r: bool)
    ensures
        r == is_digit_spec(c),
{
    '0' <= c && c <= '9'
}

pub fn is_alpha(c: char) -> (r: bool)
    ensures
        r == is_alpha_spec(c),
{
    c == '_' || ('a' <= c && c <= 'z') || ('A' <= c && c <= 'Z')
}

pub fn is_alnum(c: char) -> (r: bool)
    ensures
        r == is_alnum_spec(c),
{
    is_alpha(c) || is_digit(c)
}

/// Whether `text` spells the word `w`.
fn is_word(text: &Vec<char>, w: &str) -> (r: bool)
    ensures
        r == (text@ == w@),
{
    let n = w.unicode_len();
    if text.len() != n {
        return false;
    }
    let mut i: usize = 0;
    while i < n
        invariant
            n == w@.len(),
            n == text@.len(),
            0 <= i <= n,
            forall|k: int| 0 <= k < i ==> text@[k] == w@[k],
        decreases n - i,
    {
        if text[i] != w.get_char(i) {
            return false;
        }
        i = i + 1;
    }
    proof {
        assert(text@ =~= w@);
    }
    true
}

/// The reserved word spelled by `text`, if any.
pub fn keyword_kind(text: &Vec<char>) -> (r: Option<TokenKind>)
    ensures
        r == spec_keyword(text@),
{
    if is_word(text, "and") {
        Some(TokenKind::And)
    } else if is_word(text, "class") {
        Some(TokenKind::Class)
    } else if is_word(text, "else") {
        Some(TokenKind::Else)
    } else if is_word(text, "false") {
        Some(TokenKind::False)
    } else if is_word(text, "for") {
        Some(TokenKind::For)
    } else if is_word(text, "fun") {
        Some(TokenKind::Fun)
    } else if is_word(text, "if") {
        Some(TokenKind::If)
    } else if is_word(text, "nil") {
        Some(TokenKind::Nil)
    } else if is_word(text, "or") {
        Some(TokenKind::Or)
    } else if is_word(text, "print") {
        Some(TokenKind::Print)
    } else if is_word(text, "return") {
        Some(TokenKind::Return)
    } else if is_word(text, "super") {
        Some(TokenKind::Super)
    } else if is_word(text, "this") {
        Some(TokenKind::This)
    } else if is_word(text, "true") {
        Some(TokenKind::True)
    } else if is_word(text, "var") {
        Some(TokenKind::Var)
    } else if is_word(text, "while") {
        Some(TokenKind::While)
    } else {
        None
    }
}

impl Scanner {
    /// The source text, as characters.
    pub closed spec fn src(&self) -> Seq<char> {
        self.source@
    }

    /// Where the scanner stands.
    pub closed spec fn state(&self) -> ScanState {
        ScanState {
            start: self.start as int,
            current: self.current as int,
            line: self.line as int,
            mode: self.mode,
            depth: self.interp_depth as int,
        }
    }

    pub open spec fn wf(&self) -> bool {
        state_wf(self.src(), self.state())
    }

    /// A scanner at the start of `source`, on line 1, in ordinary code.
    pub fn new(source: &str) -> (s: Self)
        requires
            source@.len() < usize::MAX,
        ensures
            s.wf(),
            s.src() == source@,
            s.state() == (ScanState { start: 0, current: 0, line: 1, mode: ScanMode::Normal, depth: 0 }),
    {
        let s = Self {
            source: chars_of(source),
            current: 0,
            start: 0,
            line: 1,
            mode: ScanMode::Normal,
            interp_depth: 0,
        };
        proof {
            assert(s.source@.take(0) =~= Seq::<char>::empty());
        }
        s
    }

    /// The position of the next unread character.
    pub fn position(&self) -> (r: usize)
        ensures
            r == self.state().current,
    {
        self.current
    }

    /// What the scanner is in the middle of.
    pub fn mode(&self) -> (r: ScanMode)
        ensures
            r == self.state().mode,
    {
        self.mode
    }

    /// Scans the next token. At the end of the source in ordinary code the
    /// scanner returns `Eof` again and again.
    pub fn scan_token(&mut self) -> (t: Token)
        requires
            old(self).wf(),
        ensures
            final(self).wf(),
            final(self).src() == old(self).src(),
            (t@, final(self).state()) == scan_step(old(self).src(), old(self).state()),
    {
        match self.mode {
            ScanMode::Normal => {
                self.skip_whitespaces();
                self.start = self.current;
                if self.is_at_end() {
                    return self.make_token(TokenKind::Eof);
                }
                proof {
                    lemma_skip_ws_lands(old(self).src(), old(self).state().current, old(self).state().line);
                }
                let current_char = self.advance_char();
                proof {
                    lemma_newlines_step(self.source@, self.current - 1);
                }
                self.scan_token_from_char(current_char)
            },
            ScanMode::String => {
                self.start = self.current;
                self.string_part_or_end()
            },
            ScanMode::Interpolation => {
                self.start = self.current;
                self.interpolation_start_or_end()
            },
        }
    }

    fn scan_token_from_char(&mut self, c: char) -> (t: Token)
        requires
            old(self).state().mode == ScanMode::Normal,
            old(self).wf(),
            old(self).state().current > 0,
            old(self).src()[old(self).state().current - 1] == c,
            old(self).state().depth < old(self).state().current,
            c != '\n' && c != ' ' && c != '\r' && c != '\t',
        ensures
            final(self).wf(),
            final(self).src() == old(self).src(),
            (t@, final(self).state()) == scan_from_char(old(self).src(), old(self).state(), c),
    {
        match c {
            '(' => self.make_token(TokenKind::LeftParen),
            ')' => self.make_token(TokenKind::RightParen),
            '{' => {
                if self.interp_depth > 0 {
                    self.interp_depth = self.interp_depth + 1;
                }
                self.make_token(TokenKind::LeftBrace)
            },
            '}' => {
                if self.interp_depth > 0 {
                    self.interp_depth = self.interp_depth - 1;
                    if self.interp_depth == 0 {
                        self.mode = ScanMode::String;
                        return self.make_token(TokenKind::InterpEnd);
                    }
                }
                self.make_token(TokenKind::RightBrace)
            },
            ',' => self.make_token(TokenKind::Comma),
            '.' => self.make_token(TokenKind::Dot),
            ';' => self.make_token(TokenKind::SemiColon),
            '+' => self.make_token(TokenKind::Plus),
            '-' => self.make_token(TokenKind::Minus),
            '*' => self.make_token(TokenKind::Star),
            '/' => self.make_token(TokenKind::Slash),
            '!' => {
                let kind = if self.match_char('=') {
                    TokenKind::BangEqual
                } else {
                    TokenKind::Bang
                };
                self.make_token(kind)
            },
            '=' => {
                let kind = if self.match_char('=') {
                    TokenKind::EqualEqual
                } else {
                    TokenKind::Equal
                };
                self.make_token(kind)
            },
            '>' => {
                let kind = if self.match_char('=') {
                    TokenKind::GreaterEqual
                } else {
                    TokenKind::Greater
                };
                self.make_token(kind)
            },
            '<' => {
                let kind = if self.match_char('=') {
                    TokenKind::LessEqual
                } else {
                    TokenKind::Less
                };
                self.make_token(kind)
            },
            '"' => self.string(),
            _ => {
                if is_digit(c) {
                    self.number()
                } else if is_alpha(c) {
                    self.identifier()
                } else {
                    self.make_error_token(ScanError::UnexpectedCharacter)
                }
            },
        }
    }

    fn identifier(&mut self) -> (t: Token)
        requires
            old(self).wf(),
        ensures
            final(self).wf(),
            final(self).src() == old(self).src(),
            final(self).state() == (ScanState {
                current: first_stop(old(self).src(), old(self).state().current, Stop::NonAlnum),
                ..old(self).state()
            }),
            t@ == make_tok(
                match spec_keyword(
                    old(self).src().subrange(old(self).state().start, final(self).state().current),
                ) {
                    Some(k) => k,
                    None => TokenKind::Identifier,
                },
                old(self).src(),
                final(self).state(),
            ),
    {
        let ghost src = self.source@;
        let ghost c0 = self.current as int;
        proof {
            lemma_first_stop(src, c0, Stop::NonAlnum);
        }
        while self.continues(Stop::NonAlnum)
            invariant
                self.source@ == src,
                old(self).state() == (ScanState { current: c0, ..self.state() }),
                c0 <= self.current <= first_stop(src, c0, Stop::NonAlnum),
                first_stop(src, self.current as int, Stop::NonAlnum) == first_stop(
                    src,
                    c0,
                    Stop::NonAlnum,
                ),
                src.len() < usize::MAX,
            decreases src.len() - self.current,
        {
            proof {
                lemma_first_stop(src, self.current + 1, Stop::NonAlnum);
            }
            self.advance_char();
        }
        proof {
            lemma_newlines_none(src, c0, self.current as int);
        }
        let text = self.lexeme_chars();
        let kind = match keyword_kind(&text) {
            Some(k) => k,
            None => TokenKind::Identifier,
        };
        self.make_token(kind)
    }

    fn string_part_or_end(&mut self) -> (t: Token)
        requires
            old(self).wf(),
        ensures
            final(self).wf(),
            final(self).src() == old(self).src(),
            (t@, final(self).state()) == string_part(old(self).src(), old(self).state()),
    {
        let ghost src = self.source@;
        let ghost c0 = self.current as int;
        let ghost l0 = self.line as int;
        if self.peek_char() == Some('"') {
            self.advance_char();
            self.mode = ScanMode::Normal;
            proof {
                lemma_newlines_step(src, c0);
            }
            return self.make_token(TokenKind::StringEnd);
        }
        proof {
            lemma_first_stop(src, c0, Stop::QuoteOrDollar);
        }
        let ghost e = first_stop(src, c0, Stop::QuoteOrDollar);
        loop
            invariant
                self.source@ == src,
                src == old(self).src(),
                c0 == old(self).state().current,
                src.len() < usize::MAX,
                old(self).state() == (ScanState { current: c0, line: l0, ..self.state() }),
                0 <= c0 <= self.current <= e <= src.len(),
                e == first_stop(src, c0, Stop::QuoteOrDollar),
                first_stop(src, self.current as int, Stop::QuoteOrDollar) == e,
                self.line == l0 + newlines(src.subrange(c0, self.current as int)),
                l0 == 1 + newlines(src.take(c0)),
                self.start <= c0,
                state_wf(src, old(self).state()),
                peek(src, c0) != Some('"'),
            ensures
                peek(src, c0) != Some('"'),
                peek(src, e) != Some('$'),
                self.source@ == src,
                old(self).state() == (ScanState { current: c0, line: l0, ..self.state() }),
                self.current == e,
                self.line == l0 + newlines(src.subrange(c0, e)),
            decreases src.len() - self.current,
        {
            let p = self.peek_char();
            if p == Some('"') || self.is_at_end() {
                break ;
            }
            proof {
                lemma_first_stop(src, self.current + 1, Stop::QuoteOrDollar);
                lemma_newlines_split(src, c0, self.current + 1);
                lemma_newlines_split(src, c0, self.current as int);
                lemma_newlines_step(src, self.current as int);
                lemma_newlines_bound(src.take(self.current + 1));
            }
            if p == Some('\n') {
                self.line = self.line + 1;
            }
            if p == Some('$') {
                self.mode = ScanMode::Interpolation;
                proof {
                    lemma_newlines_split(src, c0, self.current as int);
                }
                return self.make_token(TokenKind::StringPart);
            }
            self.advance_char();
        }
        proof {
            lemma_newlines_split(src, c0, self.current as int);
        }
        if self.is_at_end() {
            return self.make_error_token(ScanError::UnterminatedString);
        }
        self.make_token(TokenKind::StringPart)
    }

    fn interpolation_start_or_end(&mut self) -> (t: Token)
        requires
            old(self).wf(),
        ensures
            final(self).wf(),
            final(self).src() == old(self).src(),
            (t@, final(self).state()) == interpolation(old(self).src(), old(self).state()),
    {
        let ghost src = self.source@;
        let ghost c0 = self.current as int;
        if !self.consume('$') {
            self.mode = ScanMode::String;
            return self.make_error_token(ScanError::ExpectDollar);
        }
        proof {
            lemma_newlines_step(src, c0);
        }
        if !self.consume('{') {
            self.mode = ScanMode::String;
            return self.make_error_token(ScanError::ExpectLeftBrace);
        }
        proof {
            lemma_newlines_step(src, c0 + 1);
        }
        self.interp_depth = 1;
        self.mode = ScanMode::Normal;
        self.make_token(TokenKind::InterpStart)
    }

    fn string(&mut self) -> (t: Token)
        requires
            old(self).wf(),
        ensures
            final(self).wf(),
            final(self).src() == old(self).src(),
            (t@, final(self).state()) == string_start(old(self).src(), old(self).state()),
    {
        self.mode = ScanMode::String;
        self.start = self.current;
        if self.peek_char() == Some('"') {
            return self.make_token(TokenKind::StringPart);
        }
        self.string_part_or_end()
    }

    fn number(&mut self) -> (t: Token)
        requires
            old(self).wf(),
        ensures
            final(self).wf(),
            final(self).src() == old(self).src(),
            final(self).state() == (ScanState {
                current: number_end(old(self).src(), old(self).state().current),
                ..old(self).state()
            }),
            t@ == make_tok(TokenKind::Number, old(self).src(), final(self).state()),
    {
        let ghost src = self.source@;
        let ghost c0 = self.current as int;
        proof {
            lemma_first_stop(src, c0, Stop::NonDigit);
        }
        let ghost d = first_stop(src, c0, Stop::NonDigit);
        self.digits(Ghost(d));
        proof {
            lemma_newlines_none(src, c0, d);
        }
        let is_fraction = match self.peek_char() {
            Some(c) => c == '.' && match self.peek_next_char() {
                Some(n) => is_digit(n),
                None => false,
            },
            None => false,
        };
        if is_fraction {
            self.advance_char();
            proof {
                lemma_first_stop(src, d + 1, Stop::NonDigit);
                lemma_newlines_step(src, d);
            }
            let ghost f = first_stop(src, d + 1, Stop::NonDigit);
            self.digits(Ghost(f));
            proof {
                lemma_newlines_none(src, d + 1, f);
            }
        }
        self.make_token(TokenKind::Number)
    }

    /// Reads digits up to `stop`, the end of the run of digits.
    fn digits(&mut self, Ghost(stop): Ghost<int>)
        requires
            old(self).state().current <= stop,
            stop == first_stop(old(self).src(), old(self).state().current, Stop::NonDigit),
            old(self).src().len() < usize::MAX,
            stop <= old(self).src().len(),
        ensures
            final(self).src() == old(self).src(),
            final(self).state() == (ScanState { current: stop, ..old(self).state() }),
    {
        let ghost src = self.source@;
        let ghost c0 = self.current as int;
        while self.continues(Stop::NonDigit)
            invariant
                self.source@ == src,
                src.len() < usize::MAX,
                old(self).state() == (ScanState { current: c0, ..self.state() }),
                c0 <= self.current <= stop <= src.len(),
                first_stop(src, self.current as int, Stop::NonDigit) == stop,
            decreases src.len() - self.current,
        {
            proof {
                lemma_first_stop(src, self.current + 1, Stop::NonDigit);
            }
            self.advance_char();
        }
    }

    /// Whether a character follows that does not end a run of the given class.
    fn continues(&self, stop: Stop) -> (r: bool)
        ensures
            r == (0 <= self.state().current < self.src().len() && !stops(
                stop,
                self.src()[self.state().current],
            )),
    {
        if self.current < self.source.len() {
            !char_stops(&stop, self.source[self.current])
        } else {
            false
        }
    }

    fn match_char(&mut self, expected: char) -> (r: bool)
        requires
            old(self).src().len() < usize::MAX,
        ensures
            old(self).wf() && expected != '\n' && old(self).state().mode != ScanMode::Interpolation
                ==> final(self).wf(),
            final(self).src() == old(self).src(),
            (r, final(self).state()) == take_char(old(self).src(), old(self).state(), expected),
    {
        if self.is_at_end() {
            return false;
        }
        if self.peek_char() == Some(expected) {
            proof {
                if self.wf() {
                    lemma_newlines_step(self.source@, self.current as int);
                }
            }
            self.advance_char();
            true
        } else {
            false
        }
    }

    fn skip_whitespaces(&mut self)
        requires
            old(self).state().mode == ScanMode::Normal,
            old(self).wf(),
        ensures
            final(self).wf(),
            final(self).src() == old(self).src(),
            final(self).state() == (ScanState {
                current: skip_ws(old(self).src(), old(self).state().current, old(self).state().line).0,
                line: skip_ws(old(self).src(), old(self).state().current, old(self).state().line).1,
                ..old(self).state()
            }),
    {
        let ghost src = self.source@;
        let ghost target = skip_ws(src, self.current as int, self.line as int);
        loop
            invariant
                self.source@ == src,
                src == old(self).src(),
                target == skip_ws(old(self).src(), old(self).state().current, old(self).state().line),
                self.mode == ScanMode::Normal,
                self.wf(),
                skip_ws(src, self.current as int, self.line as int) == target,
                old(self).state() == (ScanState {
                    current: old(self).state().current,
                    line: old(self).state().line,
                    ..self.state()
                }),
            ensures
                self.source@ == src,
                self.wf(),
                self.current == target.0,
                self.line == target.1,
                old(self).state() == (ScanState {
                    current: old(self).state().current,
                    line: old(self).state().line,
                    ..self.state()
                }),
            decreases src.len() - self.current,
        {
            let ghost cur = self.current as int;
            match self.peek_char() {
                Some(c) => {
                    if c == ' ' || c == '\r' || c == '\t' {
                        self.advance_char();
                        proof {
                            lemma_newlines_step(src, cur);
                        }
                    } else if c == '\n' {
                        proof {
                            lemma_newlines_step(src, cur);
                            lemma_newlines_bound(src.take(cur + 1));
                        }
                        self.line = self.line + 1;
                        self.advance_char();
                    } else if c == '/' {
                        if self.peek_next_char() == Some('/') {
                            proof {
                                lemma_first_stop(src, cur, Stop::NewLine);
                            }
                            self.skip_comment();
                        } else {
                            return ;
                        }
                    } else {
                        break ;
                    }
                },
                None => {
                    break ;
                },
            }
        }
    }

    /// Reads up to the end of the line (the line break itself stays).
    fn skip_comment(&mut self)
        requires
            old(self).state().mode == ScanMode::Normal,
            old(self).wf(),
        ensures
            final(self).wf(),
            final(self).src() == old(self).src(),
            final(self).state() == (ScanState {
                current: first_stop(old(self).src(), old(self).state().current, Stop::NewLine),
                ..old(self).state()
            }),
    {
        let ghost src = self.source@;
        let ghost c0 = self.current as int;
        proof {
            lemma_first_stop(src, c0, Stop::NewLine);
        }
        let ghost e = first_stop(src, c0, Stop::NewLine);
        while self.continues(Stop::NewLine)
            invariant
                self.source@ == src,
                src.len() < usize::MAX,
                old(self).state() == (ScanState { current: c0, ..self.state() }),
                c0 <= self.current <= e <= src.len(),
                first_stop(src, self.current as int, Stop::NewLine) == e,
            decreases src.len() - self.current,
        {
            proof {
                lemma_first_stop(src, self.current + 1, Stop::NewLine);
            }
            self.advance_char();
        }
        proof {
            lemma_newlines_none(src, c0, e);
        }
    }

    fn peek_char(&self) -> (r: Option<char>)
        ensures
            r == peek(self.src(), self.state().current),
    {
        if self.current < self.source.len() {
            Some(self.source[self.current])
        } else {
            None
        }
    }

    fn peek_next_char(&self) -> (r: Option<char>)
        requires
            self.src().len() < usize::MAX,
            self.state().current <= self.src().len(),
        ensures
            r == peek(self.src(), self.state().current + 1),
    {
        if self.current < self.source.len() && self.current + 1 < self.source.len() {
            Some(self.source[self.current + 1])
        } else {
            None
        }
    }

    fn advance_char(&mut self) -> (c: char)
        requires
            old(self).state().current < old(self).src().len(),
            old(self).src().len() < usize::MAX,
        ensures
            final(self).src() == old(self).src(),
            c == old(self).src()[old(self).state().current],
            final(self).state() == (ScanState {
                current: old(self).state().current + 1,
                ..old(self).state()
            }),
    {
        let ch = self.source[self.current];
        self.current = self.current + 1;
        ch
    }

    fn consume(&mut self, ch: char) -> (r: bool)
        requires
            old(self).src().len() < usize::MAX,
        ensures
            final(self).src() == old(self).src(),
            (r, final(self).state()) == take_char(old(self).src(), old(self).state(), ch),
    {
        if self.peek_char() == Some(ch) {
            self.advance_char();
            return true;
        }
        false
    }

    fn is_at_end(&self) -> (r: bool)
        ensures
            r == (self.state().current >= self.src().len()),
    {
        self.current >= self.source.len()
    }

    /// The characters from the start of the current token up to the current
    /// position.
    fn lexeme_chars(&self) -> (v: Vec<char>)
        requires
            self.state().start <= self.state().current <= self.src().len(),
        ensures
            v@ == self.src().subrange(self.state().start, self.state().current),
    {
        let mut v: Vec<char> = Vec::new();
        let mut i = self.start;
        while i < self.current
            invariant
                self.start <= i <= self.current <= self.source@.len(),
                v@ == self.source@.subrange(self.start as int, i as int),
            decreases self.current - i,
        {
            v.push(self.source[i]);
            i = i + 1;
            proof {
                assert(v@ =~= self.source@.subrange(self.start as int, i as int));
            }
        }
        v
    }

    fn lexeme(&self) -> (s: String)
        requires
            self.state().start <= self.state().current <= self.src().len(),
        ensures
            s@ == self.src().subrange(self.state().start, self.state().current),
    {
        let mut s = String::new();
        let mut i = self.start;
        while i < self.current
            invariant
                self.start <= i <= self.current <= self.source@.len(),
                s@ == self.source@.subrange(self.start as int, i as int),
            decreases self.current - i,
        {
            push_char(&mut s, self.source[i]);
            i = i + 1;
            proof {
                assert(s@ =~= self.source@.subrange(self.start as int, i as int));
            }
        }
        s
    }

    fn make_token(&self, kind: TokenKind) -> (t: Token)
        requires
            self.state().start <= self.state().current <= self.src().len(),
        ensures
            t@ == make_tok(kind, self.src(), self.state()),
    {
        Token { kind, lexeme: self.lexeme(), line: self.line, error: None }
    }

    fn make_error_token(&self, e: ScanError) -> (t: Token)
        requires
            self.state().start <= self.state().current <= self.src().len(),
        ensures
            t@ == make_err(e, self.src(), self.state()),
    {
        Token { kind: TokenKind::Error, lexeme: self.lexeme(), line: self.line, error: Some(e) }
    }
}

pub proof fn lemma_newlines_step(src: Seq<char>, c: int)
    requires
        0 <= c < src.len(),
    ensures
        newlines(src.take(c + 1)) == newlines(src.take(c)) + if src[c] == '\n' {
            1nat
        } else {
            0nat
        },
{
    assert(src.take(c + 1).drop_last() =~= src.take(c));
}

} // verus!
