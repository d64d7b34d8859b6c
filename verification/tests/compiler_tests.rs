use rlox::bytecode::chunk::{Chunk, OpType};
use rlox::bytecode::value::{Num, Value};
use rlox::compiler::compile::{compile, try_compile, Compiler, Outcome};
use rlox::compiler::error::{CompileError, CompileErrorKind, Where};
use rlox::compiler::token::{Token, TokenKind};

const RET: u8 = 0;
const CONST: u8 = 1;
const NEG: u8 = 3;
const ADD: u8 = 4;
const SUB: u8 = 5;
const MUL: u8 = 6;
const DIV: u8 = 7;
const NIL: u8 = 8;
const TRUE: u8 = 9;
const FALSE: u8 = 10;
const STR: u8 = 11;

fn ok(src: &str) -> Chunk {
    match compile(src) {
        Ok(c) => c,
        Err(e) => panic!("unexpected errors: {:?}", e),
    }
}

fn errs(src: &str) -> Vec<CompileError> {
    match compile(src) {
        Ok(c) => panic!("unexpected success: {:?}", c.code()),
        Err(e) => e,
    }
}

fn lit(s: &str) -> Value {
    Value::Number(Num::Literal(s.to_string()))
}

fn text(s: &str) -> Value {
    Value::String(s.to_string())
}

#[test]
fn number_literal() {
    let c = ok("1.5");
    assert_eq!(c.code(), &[CONST, 0, RET]);
    assert_eq!(c.get_constant(), &[lit("1.5")]);
    assert_eq!(c.line_at(0), Some(1));
    assert_eq!(c.line_at(2), Some(1));
}

#[test]
fn precedence_of_factor_over_term() {
    let c = ok("1 + 2 * 3");
    assert_eq!(c.code(), &[CONST, 0, CONST, 1, CONST, 2, MUL, ADD, RET]);
    assert_eq!(c.get_constant(), &[lit("1"), lit("2"), lit("3")]);
}

#[test]
fn left_associative_subtraction_and_division() {
    let c = ok("8 - 4 - 2 / 1 / 1");
    assert_eq!(
        c.code(),
        &[CONST, 0, CONST, 1, SUB, CONST, 2, CONST, 3, DIV, CONST, 4, DIV, SUB, RET]
    );
}

#[test]
fn grouping_and_unary() {
    let c = ok("-(1 + 2) * 3");
    assert_eq!(c.code(), &[CONST, 0, CONST, 1, ADD, NEG, CONST, 2, MUL, RET]);
}

#[test]
fn unary_binds_tighter_than_binary() {
    let c = ok("-1 + 2");
    assert_eq!(c.code(), &[CONST, 0, NEG, CONST, 1, ADD, RET]);
}

#[test]
fn literals() {
    assert_eq!(ok("true").code(), &[TRUE, RET]);
    assert_eq!(ok("false").code(), &[FALSE, RET]);
    assert_eq!(ok("nil").code(), &[NIL, RET]);
}

#[test]
fn plain_and_empty_strings() {
    let c = ok("\"ab\"");
    assert_eq!(c.code(), &[CONST, 0, RET]);
    assert_eq!(c.get_constant(), &[text("ab")]);
    let e = ok("\"\"");
    assert_eq!(e.code(), &[CONST, 0, RET]);
    assert_eq!(e.get_constant(), &[text("")]);
}

#[test]
fn interpolated_string() {
    let c = ok("\"a${1}b\"");
    assert_eq!(c.code(), &[CONST, 0, CONST, 1, STR, ADD, CONST, 2, ADD, RET]);
    assert_eq!(c.get_constant(), &[text("a"), lit("1"), text("b")]);
}

#[test]
fn interpolation_first_and_last() {
    let c = ok("\"${1}${2}\"");
    assert_eq!(c.code(), &[CONST, 0, STR, CONST, 1, STR, ADD, RET]);
    assert_eq!(c.get_constant(), &[lit("1"), lit("2")]);
}

#[test]
fn lines_follow_the_source() {
    let c = ok("1 +\n2");
    assert_eq!(c.code(), &[CONST, 0, CONST, 1, ADD, RET]);
    let lines: Vec<Option<usize>> = (0..6).map(|i| c.line_at(i)).collect();
    assert_eq!(lines, vec![Some(1), Some(1), Some(2), Some(2), Some(2), Some(2)]);
}

#[test]
fn many_constants_use_the_long_form() {
    let mut src = String::from("0");
    for i in 1..300 {
        src.push_str(&format!(" + {}", i));
    }
    let c = ok(&src);
    assert_eq!(c.get_constant().len(), 300);
    // constant 256 is loaded with the long form: opcode 2, then 0x00 0x01 0x00
    let code = c.code();
    let mut found = false;
    for i in 0..code.len() - 3 {
        if code[i] == OpType::ConstantLong.to_byte() && code[i + 1] == 0 && code[i + 2] == 1 && code[i + 3] == 0 {
            found = true;
        }
    }
    assert!(found);
}

#[test]
fn trailing_token_is_an_error() {
    let e = errs("1 2");
    assert_eq!(e.len(), 1);
    assert_eq!(
        e[0],
        CompileError { line: 1, where_: Where::AtLexeme("2".to_string()), kind: CompileErrorKind::ExpectEndOfExpression }
    );
    assert_eq!(e[0].message(), "[line 1] Error at '2': Expect end of expression.");
}

#[test]
fn empty_source_expects_expression() {
    let e = errs("");
    assert_eq!(e, vec![CompileError { line: 1, where_: Where::AtEnd, kind: CompileErrorKind::ExpectedExpression }]);
    assert_eq!(e[0].message(), "[line 1] Error at end: Expected expression.");
}

#[test]
fn missing_right_paren() {
    let e = errs("(1\n+ 2");
    assert_eq!(e, vec![CompileError { line: 2, where_: Where::AtEnd, kind: CompileErrorKind::ExpectRightParen }]);
}

#[test]
fn only_the_first_error_is_reported() {
    let e = errs(") ) )");
    assert_eq!(e.len(), 1);
    assert_eq!(e[0].kind, CompileErrorKind::ExpectedExpression);
    assert_eq!(e[0].where_, Where::AtLexeme(")".to_string()));
}

#[test]
fn scanner_error_is_reported_at_the_bad_character() {
    let e = errs("1 + #");
    assert_eq!(
        e,
        vec![CompileError {
            line: 1,
            where_: Where::AtLexeme("#".to_string()),
            kind: CompileErrorKind::Message("Unexpected Character".to_string())
        }]
    );
}

#[test]
fn unterminated_string_never_finishes() {
    assert!(matches!(try_compile("\"abc"), Outcome::Stalled));
    assert!(matches!(try_compile("1 + \"a${2}"), Outcome::Stalled));
    assert!(matches!(try_compile("\""), Outcome::Stalled));
}

#[test]
fn try_compile_finishes_on_closed_strings() {
    match try_compile("\"a${1}b\"") {
        Outcome::Finished(Ok(c)) => assert_eq!(c.code().last(), Some(&RET)),
        other => panic!("unexpected outcome: {:?}", other),
    }
    match try_compile("\"a${1 2}\"") {
        Outcome::Finished(Err(e)) => assert_eq!(e.len(), 1),
        other => panic!("unexpected outcome: {:?}", other),
    }
}

#[test]
fn bad_interpolation_tail() {
    let e = errs("\"a${1 2}\"");
    assert_eq!(e.len(), 1);
    assert_eq!(e[0].kind, CompileErrorKind::ExpectRightBracket);
    assert_eq!(e[0].message(), "[line 1] Error at '2': Expect '}' after interpolated expression.");
}

#[test]
fn compiler_object_compiles() {
    let c = Compiler::new("2 * 2").compile();
    assert_eq!(c.unwrap().code(), &[CONST, 0, CONST, 1, MUL, RET]);
}

#[test]
fn error_kind_messages() {
    assert_eq!(CompileErrorKind::UnexpectedCharacter.message(), "Unexpected character.");
    assert_eq!(CompileErrorKind::ExpectSemicolon.message(), "Expect ';' after value.");
    assert_eq!(CompileErrorKind::UnterminatedString.message(), "Unterminated string.");
    assert_eq!(CompileErrorKind::Message("x y".to_string()).message(), "x y");
}

#[test]
fn error_at_token() {
    let t = Token { kind: TokenKind::Eof, lexeme: String::new(), line: 12, error: None };
    let e = CompileError::at(&t, CompileErrorKind::ExpectedExpression);
    assert_eq!(e.where_, Where::AtEnd);
    assert_eq!(e.message(), "[line 12] Error at end: Expected expression.");
    let t2 = Token { kind: TokenKind::Identifier, lexeme: "foo".to_string(), line: 305, error: None };
    let e2 = CompileError::at(&t2, CompileErrorKind::ExpectRightParen);
    assert_eq!(e2.message(), "[line 305] Error at 'foo': Expect ')' after expression.");
}

fn net_stack_effect(code: &[u8]) -> i64 {
    let mut net = 0i64;
    let mut o = 0usize;
    while o < code.len() {
        let op = code[o];
        let (needs, effect, size) = match op {
            CONST => (0, 1, 2),
            2 => (0, 1, 4),
            NIL | TRUE | FALSE => (0, 1, 1),
            ADD | SUB | MUL | DIV => (2, -1, 1),
            RET => (1, -1, 1),
            _ => (1, 0, 1),
        };
        assert!(net >= needs, "operator at {o} runs on a short stack");
        net += effect;
        o += size;
    }
    net
}

#[test]
fn compiled_code_leaves_one_value_for_return() {
    let sources = [
        "1",
        "-(1 + 2) * 3 / 4",
        "\"a${1}b${2 + 3}\"",
        "\"${1}\"",
        "\"${1}${2}\"",
        "\"\"",
        "true",
        "nil - false",
    ];
    for src in sources {
        let chunk = ok(src);
        let code = chunk.code();
        assert_eq!(code[code.len() - 1], RET, "{src}");
        assert_eq!(net_stack_effect(&code[..code.len() - 1]), 1, "{src}");
    }
}
