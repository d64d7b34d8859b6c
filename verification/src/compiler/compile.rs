//! The single-pass compiler: a Pratt parser over the scanner's tokens that
//! writes stack bytecode as it parses.
use vstd::prelude::*;
use crate::bytecode::chunk::{
    Chunk,
    OpType,
    constant_code,
    MAX_CONSTANTS,
    instrs_ok,
    stack_effect,
    op_effect,
    lemma_instrs_append,
    lemma_instrs_more_consts,
    lemma_instrs_shift,
    lemma_instrs_through,
    lemma_effect_append,
    lemma_effect_shift,
    lemma_constant_code_effect,
    lemma_simple_op_effect,
    op_needs,
    never_underflows,
    lemma_underflow_append,
    lemma_constant_code_safe,
    lemma_simple_op_safe,
    lemma_simple_op_ok,
    lemma_constant_code_ok,
};
use crate::bytecode::value::{Value, ValueView, Num, NumView};
use crate::compiler::error::{CompileError, CompileErrorKind, CompileErrorView, KindView, error_at_view};
use crate::compiler::precedence::Precendence;
use crate::compiler::scanner::{
    Scanner,
    ScanState,
    ScanMode,
    scan_step,
    scan_measure,
    progressed,
    state_wf,
    rank_of_mode,
    lemma_scan_progress,
};
use crate::compiler::token::{Token, TokenKind, TokenView};

verus! {

/// The compiler's state, as mathematical values.
pub struct CompilerView {
    pub scan: ScanState,
    pub current: TokenView,
    pub previous: TokenView,
    pub panic: bool,
    pub errors: Seq<CompileErrorView>,
    pub code: Seq<u8>,
    pub consts: Seq<ValueView>,
    pub lines: Seq<usize>,
    /// The scanner stood at the end of an unclosed string literal when the
    /// parser asked for a token: it hands out the same error for ever after,
    /// so compiling never finishes. Nothing is written to the chunk after it.
    pub stalled: bool,
}

/// A token after which the parser reads nothing more: the end, or an error
/// the scanner cannot get past.
pub open spec fn terminal(t: TokenView) -> bool {
    t.kind == TokenKind::Eof || t.kind == TokenKind::Error
}

/// How much parsing is left: the scanner's measure, counted twice, plus one
/// while the lookahead token is not terminal.
///
/// The parsing definitions below only recurse where this measure drops; the
/// branches that check it keep them total. On the states that compiling
/// reaches the checks always pass: moving past a lookahead that is not
/// terminal lowers the measure and parsing never raises it (the `ensures` of
/// `Compiler::advance` and of the parsing functions), and those functions,
/// which have no such branches, are proved equal to these definitions.
pub open spec fn measure(src: Seq<char>, c: CompilerView) -> int {
    2 * scan_measure(src, c.scan) + if terminal(c.current) {
        0int
    } else {
        1int
    }
}

/// Records an error at `t`, unless an error was recorded before.
pub open spec fn err_at(c: CompilerView, t: TokenView, k: KindView) -> CompilerView {
    if c.panic {
        c
    } else {
        CompilerView { panic: true, errors: c.errors.push(error_at_view(t, k)), ..c }
    }
}

pub open spec fn scan_message(t: TokenView) -> Seq<char> {
    match t.error {
        Some(e) => e.spec_message(),
        None => "Scan error."@,
    }
}

/// Scans until a token that is not an error, reporting the errors on the way;
/// when the scanner cannot get past an error, records that compiling stalls
/// there and stops asking.
pub open spec fn scan_loop(src: Seq<char>, c: CompilerView) -> CompilerView
    decreases scan_measure(src, c.scan),
{
    let (t, st2) = scan_step(src, c.scan);
    let c2 = CompilerView { current: t, scan: st2, ..c };
    if t.kind != TokenKind::Error {
        c2
    } else {
        let c3 = err_at(c2, t, KindView::Message(scan_message(t)));
        if progressed(c.scan, st2) && 0 <= c.scan.current && st2.current <= src.len() {
            scan_loop(src, c3)
        } else {
            CompilerView { stalled: true, ..c3 }
        }
    }
}

pub open spec fn sp_advance(src: Seq<char>, c: CompilerView) -> CompilerView {
    scan_loop(src, CompilerView { previous: c.current, ..c })
}

pub open spec fn sp_consume(src: Seq<char>, c: CompilerView, kind: TokenKind, k: KindView) -> CompilerView {
    if c.current.kind == kind {
        sp_advance(src, c)
    } else {
        err_at(c, c.current, k)
    }
}

pub open spec fn sp_emit_op(c: CompilerView, op: OpType) -> CompilerView {
    if c.stalled {
        c
    } else {
        CompilerView {
            code: c.code.push(op.spec_byte()),
            lines: c.lines.push(c.previous.line as usize),
            ..c
        }
    }
}

pub open spec fn sp_emit_constant(c: CompilerView, v: ValueView) -> CompilerView {
    let bytes = constant_code(c.consts.len() as int);
    if c.stalled {
        c
    } else {
        CompilerView {
            consts: c.consts.push(v),
            code: c.code + bytes,
            lines: c.lines + Seq::new(bytes.len(), |_i: int| c.previous.line as usize),
            ..c
        }
    }
}

pub open spec fn spec_infix_prec(kind: TokenKind) -> Precendence {
    match kind {
        TokenKind::Plus | TokenKind::Minus => Precendence::Term,
        TokenKind::Star | TokenKind::Slash => Precendence::Factor,
        _ => Precendence::Lowest,
    }
}

pub open spec fn is_binary_operator(kind: TokenKind) -> bool {
    kind == TokenKind::Plus || kind == TokenKind::Minus || kind == TokenKind::Star || kind
        == TokenKind::Slash
}

pub open spec fn binary_opcode(kind: TokenKind) -> OpType {
    match kind {
        TokenKind::Plus => OpType::Add,
        TokenKind::Minus => OpType::Subtract,
        TokenKind::Star => OpType::Multiply,
        _ => OpType::Divide,
    }
}

/// A token that can start an expression.
pub open spec fn is_prefix(kind: TokenKind) -> bool {
    kind == TokenKind::Number || kind == TokenKind::LeftParen || kind == TokenKind::Minus || kind
        == TokenKind::StringPart || kind == TokenKind::False || kind == TokenKind::True || kind
        == TokenKind::Nil
}

pub open spec fn sp_number(c: CompilerView) -> CompilerView {
    sp_emit_constant(c, ValueView::Number(NumView::Literal(c.previous.lexeme)))
}

pub open spec fn sp_literal(c: CompilerView) -> CompilerView {
    sp_emit_op(
        c,
        match c.previous.kind {
            TokenKind::False => OpType::False,
            TokenKind::True => OpType::True,
            _ => OpType::Nil,
        },
    )
}

pub open spec fn interpolation_message() -> Seq<char> {
    "Expect string chunk or end of string after interpolation."@
}

/// Parses an expression whose operators bind at least as tightly as `prec`.
pub open spec fn sp_parse_prec(src: Seq<char>, c: CompilerView, prec: Precendence) -> CompilerView
    decreases measure(src, c), 0int,
{
    let c1 = sp_advance(src, c);
    let k = c1.previous.kind;
    let ok = 0 <= measure(src, c1) < measure(src, c);
    let c2 = if k == TokenKind::Number {
        sp_number(c1)
    } else if k == TokenKind::LeftParen {
        if ok {
            sp_grouping(src, c1)
        } else {
            c1
        }
    } else if k == TokenKind::Minus {
        if ok {
            sp_unary(src, c1)
        } else {
            c1
        }
    } else if k == TokenKind::StringPart {
        if ok {
            sp_string(src, c1)
        } else {
            c1
        }
    } else if k == TokenKind::False || k == TokenKind::True || k == TokenKind::Nil {
        sp_literal(c1)
    } else {
        err_at(c1, c1.previous, KindView::ExpectedExpression)
    };
    if is_prefix(k) && 0 <= measure(src, c2) < measure(src, c) {
        sp_infix_loop(src, c2, prec)
    } else {
        c2
    }
}

/// Parses binary operators of at least precedence `prec` and their right
/// operands, for as long as they come.
pub open spec fn sp_infix_loop(src: Seq<char>, c: CompilerView, prec: Precendence) -> CompilerView
    decreases measure(src, c), 0int,
{
    if prec.spec_rank() <= spec_infix_prec(c.current.kind).spec_rank() {
        let c1 = sp_advance(src, c);
        if is_binary_operator(c1.previous.kind) && 0 <= measure(src, c1) < measure(src, c) {
            let c2 = sp_binary(src, c1);
            if 0 <= measure(src, c2) < measure(src, c) {
                sp_infix_loop(src, c2, prec)
            } else {
                c2
            }
        } else {
            c1
        }
    } else {
        c
    }
}

pub open spec fn sp_expression(src: Seq<char>, c: CompilerView) -> CompilerView
    decreases measure(src, c), 1int,
{
    sp_parse_prec(src, c, Precendence::Assignment)
}

pub open spec fn sp_binary(src: Seq<char>, c: CompilerView) -> CompilerView
    decreases measure(src, c), 1int,
{
    let kind = c.previous.kind;
    let c1 = sp_parse_prec(src, c, spec_infix_prec(kind).spec_next());
    sp_emit_op(c1, binary_opcode(kind))
}

pub open spec fn sp_grouping(src: Seq<char>, c: CompilerView) -> CompilerView
    decreases measure(src, c), 2int,
{
    sp_consume(src, sp_expression(src, c), TokenKind::RightParen, KindView::ExpectRightParen)
}

pub open spec fn sp_unary(src: Seq<char>, c: CompilerView) -> CompilerView
    decreases measure(src, c), 1int,
{
    sp_emit_op(sp_parse_prec(src, c, Precendence::Unary), OpType::Negate)
}

/// A string literal: its first part is the previous token; interpolations
/// `${expr}` and further parts follow, joined with `Add`.
pub open spec fn sp_string(src: Seq<char>, c: CompilerView) -> CompilerView
    decreases measure(src, c), 1int,
{
    let has = c.previous.lexeme.len() > 0;
    let c1 = if has {
        sp_emit_constant(c, ValueView::Str(c.previous.lexeme))
    } else {
        c
    };
    let (c2, acc) = sp_interp_loop(src, c1, has);
    let c3 = if !acc {
        sp_emit_constant(c2, ValueView::Str(Seq::empty()))
    } else {
        c2
    };
    sp_consume(src, c3, TokenKind::StringEnd, KindView::UnterminatedString)
}

pub open spec fn sp_interp_loop(src: Seq<char>, c: CompilerView, has: bool) -> (CompilerView, bool)
    decreases measure(src, c), 0int,
{
    if c.current.kind != TokenKind::InterpStart {
        (c, has)
    } else {
        let c1 = sp_advance(src, c);
        if !(0 <= measure(src, c1) < measure(src, c)) {
            (c1, has)
        } else {
            let c5 = sp_interp_body(src, c1, has);
            if 0 <= measure(src, c5) < measure(src, c) {
                sp_interp_rest(src, c5)
            } else {
                (c5, true)
            }
        }
    }
}

/// The expression of an interpolation, its closing `}`, and its conversion
/// to a string joined to what came before.
pub open spec fn sp_interp_body(src: Seq<char>, c1: CompilerView, has: bool) -> CompilerView
    decreases measure(src, c1), 2int,
{
    let c2 = sp_expression(src, c1);
    let c3 = sp_consume(src, c2, TokenKind::InterpEnd, KindView::ExpectRightBracket);
    let c4 = sp_emit_op(c3, OpType::Stringify);
    if has {
        sp_emit_op(c4, OpType::Add)
    } else {
        c4
    }
}

/// The text part after an interpolation, joined to what came before when it
/// is not empty.
pub open spec fn sp_next_part(src: Seq<char>, c5: CompilerView) -> CompilerView {
    let c6 = sp_advance(src, c5);
    if c6.previous.lexeme.len() > 0 {
        sp_emit_op(sp_emit_constant(c6, ValueView::Str(c6.previous.lexeme)), OpType::Add)
    } else {
        c6
    }
}

/// What follows an interpolation: more text and interpolations, or the end.
pub open spec fn sp_interp_rest(src: Seq<char>, c5: CompilerView) -> (CompilerView, bool)
    decreases measure(src, c5), 0int,
{
    if c5.current.kind == TokenKind::StringPart {
        let c7 = sp_next_part(src, c5);
        if 0 <= measure(src, c7) < measure(src, c5) {
            sp_interp_loop(src, c7, true)
        } else {
            (c7, true)
        }
    } else if c5.current.kind == TokenKind::StringEnd {
        (c5, true)
    } else {
        (err_at(c5, c5.current, KindView::Message(interpolation_message())), true)
    }
}

pub open spec fn initial(src: Seq<char>) -> CompilerView {
    let dummy = TokenView { kind: TokenKind::Eof, lexeme: Seq::empty(), line: 1, error: None };
    CompilerView {
        scan: ScanState { start: 0, current: 0, line: 1, mode: ScanMode::Normal, depth: 0 },
        current: dummy,
        previous: dummy,
        panic: false,
        errors: Seq::empty(),
        code: Seq::empty(),
        consts: Seq::empty(),
        lines: Seq::empty(),
        stalled: false,
    }
}

/// Compiling `src`: one expression, then the end of the source, then `Return`.
pub open spec fn sp_compile(src: Seq<char>) -> CompilerView {
    let c1 = sp_advance(src, initial(src));
    let c2 = sp_expression(src, c1);
    let c3 = sp_consume(src, c2, TokenKind::Eof, KindView::ExpectEndOfExpression);
    sp_emit_op(c3, OpType::Return)
}

/// The compiled code and constant pool fit in a chunk: at most
/// `MAX_CONSTANTS` constants, and fewer than `usize::MAX` bytes.
pub open spec fn fits(c: CompilerView) -> bool {
    c.consts.len() <= MAX_CONSTANTS && c.code.len() < usize::MAX
}

/// `b` has at least the code and the constants of `a`.
pub open spec fn grows(a: CompilerView, b: CompilerView) -> bool {
    a.code.len() <= b.code.len() && a.consts.len() <= b.consts.len()
}

/// Scanning writes no code and no constants.
pub proof fn lemma_scan_loop_keeps(src: Seq<char>, c: CompilerView)
    ensures
        scan_loop(src, c).code == c.code,
        scan_loop(src, c).consts == c.consts,
        scan_loop(src, c).lines == c.lines,
        c.errors.len() <= scan_loop(src, c).errors.len(),
    decreases scan_measure(src, c.scan),
{
    let (t, st2) = scan_step(src, c.scan);
    let c2 = CompilerView { current: t, scan: st2, ..c };
    if t.kind == TokenKind::Error {
        let c3 = err_at(c2, t, KindView::Message(scan_message(t)));
        if progressed(c.scan, st2) && 0 <= c.scan.current && st2.current <= src.len() {
            lemma_scan_loop_keeps(src, c3);
        }
    }
}

pub proof fn lemma_advance_keeps(src: Seq<char>, c: CompilerView)
    ensures
        sp_advance(src, c).code == c.code,
        sp_advance(src, c).consts == c.consts,
        sp_advance(src, c).lines == c.lines,
        c.errors.len() <= sp_advance(src, c).errors.len(),
{
    lemma_scan_loop_keeps(src, CompilerView { previous: c.current, ..c });
}

pub proof fn lemma_consume_keeps(src: Seq<char>, c: CompilerView, kind: TokenKind, k: KindView)
    ensures
        sp_consume(src, c, kind, k).code == c.code,
        sp_consume(src, c, kind, k).consts == c.consts,
        c.errors.len() <= sp_consume(src, c, kind, k).errors.len(),
{
    if c.current.kind == kind {
        lemma_advance_keeps(src, c);
    }
}

/// The code of `c` decodes into complete instructions that load constants of
/// its pool.
pub open spec fn decodes(c: CompilerView) -> bool {
    instrs_ok(c.code, c.consts.len() as int, 0)
}

/// The code that `b` appended to `a`'s.
pub open spec fn added(a: CompilerView, b: CompilerView) -> Seq<u8> {
    b.code.subrange(a.code.len() as int, b.code.len() as int)
}

/// `code` runs without taking from an empty stack when it starts with at
/// least `need` values on it.
pub open spec fn holds_out(code: Seq<u8>, need: int) -> bool {
    forall|d: int| d >= need ==> #[trigger] never_underflows(code, 0, d)
}

/// `b`'s code starts with `a`'s code; the code that `b` added leaves `k` more
/// values on the stack, and runs without taking from an empty stack when
/// `need` values are already on it.
pub open spec fn leaves(a: CompilerView, b: CompilerView, k: int, need: int) -> bool {
    &&& a.code.len() <= b.code.len()
    &&& b.code.subrange(0, a.code.len() as int) == a.code
    &&& stack_effect(added(a, b), 0) == k
    &&& holds_out(added(a, b), need)
}

/// A stretch of compiling from `a` to `b` that ends without an error and
/// with room in the chunk went without an error all along, and the code it
/// added leaves `k` more values on the stack and needs `need` values there.
pub open spec fn clean_run(a: CompilerView, b: CompilerView, b_full: bool, k: int, need: int) -> bool {
    !b_full && b.errors.len() == 0 ==> a.errors.len() == 0 && leaves(a, b, k, need)
}

proof fn lemma_leaves_compose(
    a: CompilerView,
    b: CompilerView,
    c: CompilerView,
    k1: int,
    k2: int,
    n1: int,
    n2: int,
    n: int,
)
    requires
        decodes(a),
        decodes(b),
        leaves(a, b, k1, n1),
        leaves(b, c, k2, n2),
        n >= n1,
        n + k1 >= n2,
    ensures
        leaves(a, c, k1 + k2, n),
{
    let nc: int = (a.consts.len() + b.consts.len()) as int;
    lemma_instrs_more_consts(a.code, a.consts.len() as int, nc, 0);
    lemma_instrs_more_consts(b.code, b.consts.len() as int, nc, 0);
    let la = a.code.len() as int;
    let lb = b.code.len() as int;
    let d1 = b.code.subrange(la, lb);
    let d2 = c.code.subrange(lb, c.code.len() as int);
    assert(b.code =~= a.code + d1);
    assert(c.code.subrange(0, la) =~= a.code);
    assert(added(a, c) =~= d1 + d2);
    lemma_instrs_through(a.code, d1, nc, 0);
    lemma_instrs_shift(a.code, d1, nc, 0);
    lemma_effect_append(d1, d2, nc, 0);
    assert forall|d: int| d >= n implies #[trigger] never_underflows(added(a, c), 0, d) by {
        lemma_underflow_append(d1, d2, nc, 0, d);
        assert(never_underflows(d1, 0, d));
        assert(never_underflows(d2, 0, d + k1));
    }
}

proof fn lemma_clean_chain(
    a: CompilerView,
    b: CompilerView,
    c: CompilerView,
    b_full: bool,
    c_full: bool,
    k1: int,
    k2: int,
    n1: int,
    n2: int,
    n: int,
)
    requires
        decodes(a),
        decodes(b),
        !b_full,
        clean_run(a, b, b_full, k1, n1),
        clean_run(b, c, c_full, k2, n2),
        n >= n1,
        n + k1 >= n2,
    ensures
        clean_run(a, c, c_full, k1 + k2, n),
{
    if !c_full && c.errors.len() == 0 {
        lemma_leaves_compose(a, b, c, k1, k2, n1, n2, n);
    }
}

proof fn lemma_clean_weaken(a: CompilerView, b: CompilerView, b_full: bool, k: int, n1: int, n: int)
    requires
        clean_run(a, b, b_full, k, n1),
        n >= n1,
    ensures
        clean_run(a, b, b_full, k, n),
{
    if !b_full && b.errors.len() == 0 {
        assert forall|d: int| d >= n implies #[trigger] never_underflows(added(a, b), 0, d) by {
            assert(never_underflows(added(a, b), 0, d));
        }
    }
}

proof fn lemma_clean_same(a: CompilerView, b: CompilerView, b_full: bool, need: int)
    requires
        a.code == b.code,
        a.errors.len() <= b.errors.len(),
    ensures
        clean_run(a, b, b_full, 0, need),
{
    let l = a.code.len() as int;
    assert(b.code.subrange(0, l) =~= a.code);
    assert(added(a, b) =~= Seq::<u8>::empty());
    assert forall|d: int| d >= need implies #[trigger] never_underflows(added(a, b), 0, d) by {
    }
}

proof fn lemma_emit_op_leaves(c: CompilerView, op: OpType)
    requires
        !c.stalled,
        op != OpType::Constant,
        op != OpType::ConstantLong,
    ensures
        leaves(c, sp_emit_op(c, op), op_effect(op.spec_byte()), op_needs(op.spec_byte())),
{
    let c2 = sp_emit_op(c, op);
    let l = c.code.len() as int;
    assert(c2.code.subrange(0, l) =~= c.code);
    assert(added(c, c2) =~= seq![op.spec_byte()]);
    lemma_simple_op_effect(op);
    assert forall|d: int| d >= op_needs(op.spec_byte()) implies #[trigger] never_underflows(
        added(c, c2),
        0,
        d,
    ) by {
        lemma_simple_op_safe(op, d);
    }
}

proof fn lemma_emit_constant_leaves(c: CompilerView, v: ValueView)
    requires
        !c.stalled,
    ensures
        leaves(c, sp_emit_constant(c, v), 1, 0),
{
    let c2 = sp_emit_constant(c, v);
    let l = c.code.len() as int;
    let bytes = constant_code(c.consts.len() as int);
    assert(c2.code.subrange(0, l) =~= c.code);
    assert(added(c, c2) =~= bytes);
    lemma_constant_code_effect(c.consts.len() as int);
    assert forall|d: int| d >= 0 implies #[trigger] never_underflows(added(c, c2), 0, d) by {
        lemma_constant_code_safe(c.consts.len() as int, d);
    }
}

/// Parsing only appends code and constants.
pub proof fn lemma_parse_prec_grows(src: Seq<char>, c: CompilerView, prec: Precendence)
    ensures
        grows(c, sp_parse_prec(src, c, prec)),
    decreases measure(src, c), 0int,
{
    let c1 = sp_advance(src, c);
    lemma_advance_keeps(src, c);
    let k = c1.previous.kind;
    let ok = 0 <= measure(src, c1) < measure(src, c);
    if ok {
        if k == TokenKind::LeftParen {
            lemma_grouping_grows(src, c1);
        } else if k == TokenKind::Minus {
            lemma_unary_grows(src, c1);
        } else if k == TokenKind::StringPart {
            lemma_string_grows(src, c1);
        }
    }
    let c2 = if k == TokenKind::Number {
        sp_number(c1)
    } else if k == TokenKind::LeftParen {
        if ok {
            sp_grouping(src, c1)
        } else {
            c1
        }
    } else if k == TokenKind::Minus {
        if ok {
            sp_unary(src, c1)
        } else {
            c1
        }
    } else if k == TokenKind::StringPart {
        if ok {
            sp_string(src, c1)
        } else {
            c1
        }
    } else if k == TokenKind::False || k == TokenKind::True || k == TokenKind::Nil {
        sp_literal(c1)
    } else {
        err_at(c1, c1.previous, KindView::ExpectedExpression)
    };
    if is_prefix(k) && 0 <= measure(src, c2) < measure(src, c) {
        lemma_infix_grows(src, c2, prec);
    }
}

pub proof fn lemma_infix_grows(src: Seq<char>, c: CompilerView, prec: Precendence)
    ensures
        grows(c, sp_infix_loop(src, c, prec)),
    decreases measure(src, c), 0int,
{
    if prec.spec_rank() <= spec_infix_prec(c.current.kind).spec_rank() {
        let c1 = sp_advance(src, c);
        lemma_advance_keeps(src, c);
        if is_binary_operator(c1.previous.kind) && 0 <= measure(src, c1) < measure(src, c) {
            lemma_binary_grows(src, c1);
            let c2 = sp_binary(src, c1);
            if 0 <= measure(src, c2) < measure(src, c) {
                lemma_infix_grows(src, c2, prec);
            }
        }
    }
}

pub proof fn lemma_expression_grows(src: Seq<char>, c: CompilerView)
    ensures
        grows(c, sp_expression(src, c)),
    decreases measure(src, c), 1int,
{
    lemma_parse_prec_grows(src, c, Precendence::Assignment);
}

pub proof fn lemma_binary_grows(src: Seq<char>, c: CompilerView)
    ensures
        grows(c, sp_binary(src, c)),
    decreases measure(src, c), 1int,
{
    lemma_parse_prec_grows(src, c, spec_infix_prec(c.previous.kind).spec_next());
}

pub proof fn lemma_grouping_grows(src: Seq<char>, c: CompilerView)
    ensures
        grows(c, sp_grouping(src, c)),
    decreases measure(src, c), 2int,
{
    lemma_expression_grows(src, c);
    lemma_consume_keeps(src, sp_expression(src, c), TokenKind::RightParen, KindView::ExpectRightParen);
}

pub proof fn lemma_unary_grows(src: Seq<char>, c: CompilerView)
    ensures
        grows(c, sp_unary(src, c)),
    decreases measure(src, c), 1int,
{
    lemma_parse_prec_grows(src, c, Precendence::Unary);
}

pub proof fn lemma_string_grows(src: Seq<char>, c: CompilerView)
    ensures
        grows(c, sp_string(src, c)),
    decreases measure(src, c), 1int,
{
    let has = c.previous.lexeme.len() > 0;
    let c1 = if has {
        sp_emit_constant(c, ValueView::Str(c.previous.lexeme))
    } else {
        c
    };
    lemma_interp_loop_grows(src, c1, has);
    let (c2, acc) = sp_interp_loop(src, c1, has);
    let c3 = if !acc {
        sp_emit_constant(c2, ValueView::Str(Seq::empty()))
    } else {
        c2
    };
    lemma_consume_keeps(src, c3, TokenKind::StringEnd, KindView::UnterminatedString);
}

pub proof fn lemma_interp_loop_grows(src: Seq<char>, c: CompilerView, has: bool)
    ensures
        grows(c, sp_interp_loop(src, c, has).0),
    decreases measure(src, c), 0int,
{
    if c.current.kind == TokenKind::InterpStart {
        let c1 = sp_advance(src, c);
        lemma_advance_keeps(src, c);
        if 0 <= measure(src, c1) < measure(src, c) {
            lemma_interp_body_grows(src, c1, has);
            let c5 = sp_interp_body(src, c1, has);
            if 0 <= measure(src, c5) < measure(src, c) {
                lemma_interp_rest_grows(src, c5);
            }
        }
    }
}

pub proof fn lemma_interp_body_grows(src: Seq<char>, c1: CompilerView, has: bool)
    ensures
        grows(c1, sp_interp_body(src, c1, has)),
    decreases measure(src, c1), 2int,
{
    lemma_expression_grows(src, c1);
    lemma_consume_keeps(src, sp_expression(src, c1), TokenKind::InterpEnd, KindView::ExpectRightBracket);
}

pub proof fn lemma_interp_rest_grows(src: Seq<char>, c5: CompilerView)
    ensures
        grows(c5, sp_interp_rest(src, c5).0),
    decreases measure(src, c5), 0int,
{
    if c5.current.kind == TokenKind::StringPart {
        lemma_advance_keeps(src, c5);
        let c7 = sp_next_part(src, c5);
        if 0 <= measure(src, c7) < measure(src, c5) {
            lemma_interp_loop_grows(src, c7, true);
        }
    }
}

fn infix_prec(kind: TokenKind) -> (p: Precendence)
    ensures
        p == spec_infix_prec(kind),
{
    match kind {
        TokenKind::Plus | TokenKind::Minus => Precendence::Term,
        TokenKind::Star | TokenKind::Slash => Precendence::Factor,
        _ => Precendence::Lowest,
    }
}

/// The contract of a finished compilation: `Ok` exactly when no error was
/// recorded, with the compiled chunk, whose instructions all decode, which
/// ends in `Return`, whose code before that `Return` leaves exactly one value
/// on the stack, and which, run from an empty stack, never takes a value from
/// an empty stack (every operator comes after its operands); or `Err` with
/// the one error recorded.
pub open spec fn compiled(src: Seq<char>, r: Result<Chunk, Vec<CompileError>>) -> bool {
    let c = sp_compile(src);
    &&& r.is_ok() == (c.errors.len() == 0)
    &&& r matches Ok(ch) ==> {
        &&& instrs_ok(ch.code_view(), ch.constants_view().len() as int, 0)
        &&& ch.code_view().len() > 0
        &&& ch.code_view().last() == OpType::Return.spec_byte()
        &&& stack_effect(ch.code_view().drop_last(), 0) == 1
        &&& never_underflows(ch.code_view(), 0, 0)
        &&& ch.code_view() == c.code
        &&& ch.constants_view() == c.consts
        &&& ch.lines_view() == c.lines
    }
    &&& r matches Err(es) ==> es@.len() == 1 && es@.map_values(|e: CompileError| e@) == c.errors
}

/// How compiling a source ends.
#[derive(Debug)]
pub enum Outcome {
    /// Compiling finished: the chunk, or the error found.
    Finished(Result<Chunk, Vec<CompileError>>),
    /// The chunk ran out of room: more than `MAX_CONSTANTS` constants, or
    /// more bytes than a `usize` counts.
    Overflow,
    /// The parser asked for a token at the end of an unclosed string
    /// literal, where the scanner hands out the same error for ever; compiling
    /// such a source never finishes.
    Stalled,
}

/// The outcome of compiling `src`: it overflows when the compiled code does
/// not fit in a chunk (that comes first, since nothing is written after a
/// stall), it stalls when the parser reaches the end of an unclosed string,
/// and it finishes otherwise.
pub open spec fn outcome_of(src: Seq<char>, r: Outcome) -> bool {
    let c = sp_compile(src);
    &&& (r is Overflow) == !fits(c)
    &&& (r is Stalled) == (fits(c) && c.stalled)
    &&& r matches Outcome::Finished(res) ==> compiled(src, res)
}

/// Compiles `source` into a chunk, or returns the error it found.
///
/// A chunk holds at most `MAX_CONSTANTS` constants, and the source must
/// compile within that. A source on which the parser reaches the end of an
/// unclosed string literal never finishes compiling (the scanner hands out
/// the same error for ever), so it is left out too; `try_compile` tells both
/// cases apart.
pub fn compile(source: &str) -> (r: Result<Chunk, Vec<CompileError>>)
    requires
        source@.len() < usize::MAX,
        fits(sp_compile(source@)),
        !sp_compile(source@).stalled,
    ensures
        compiled(source@, r),
{
    Compiler::new(source).compile()
}

/// Compiles `source`, telling apart the sources whose code does not fit in a
/// chunk and those on which compiling never finishes.
pub fn try_compile(source: &str) -> (r: Outcome)
    requires
        source@.len() < usize::MAX,
    ensures
        outcome_of(source@, r),
{
    Compiler::new(source).try_compile()
}

/// The compiler: a scanner, the lookahead and the previous token, the errors
/// found so far and the chunk being written; `full` records that the chunk
/// ran out of room, and `stalled` that the scanner got stuck at the end of an
/// unclosed string literal.
pub struct Compiler {
    scanner: Scanner,
    current: Token,
    previous: Token,
    panic_mode: bool,
    errors: Vec<CompileError>,
    chunk: Chunk,
    full: bool,
    stalled: bool,
}

impl Compiler {
    pub closed spec fn src(&self) -> Seq<char> {
        self.scanner.src()
    }

    pub closed spec fn cview(&self) -> CompilerView {
        CompilerView {
            scan: self.scanner.state(),
            current: self.current@,
            previous: self.previous@,
            panic: self.panic_mode,
            errors: self.errors@.map_values(|e: CompileError| e@),
            code: self.chunk.code_view(),
            consts: self.chunk.constants_view(),
            lines: self.chunk.lines_view(),
            stalled: self.stalled,
        }
    }

    /// Scanner and chunk are consistent; at most one error is recorded, and
    /// exactly when the compiler is in panic mode.
    pub closed spec fn wf(&self) -> bool {
        &&& self.scanner.wf()
        &&& self.chunk.code_view().len() < usize::MAX
        &&& self.chunk.code_view().len() == self.chunk.lines_view().len()
        &&& self.panic_mode == (self.errors@.len() > 0)
        &&& self.errors@.len() <= 1
        &&& self.stalled ==> self.errors@.len() > 0
        &&& instrs_ok(self.chunk.code_view(), self.chunk.constants_view().len() as int, 0)
        &&& self.chunk.constants_view().len() <= MAX_CONSTANTS
    }

    /// The chunk ran out of room.
    pub closed spec fn overflowed(&self) -> bool {
        self.full
    }

    /// A compiler at the start of `source`.
    pub fn new(source: &str) -> (c: Self)
        requires
            source@.len() < usize::MAX,
        ensures
            c.wf(),
            !c.overflowed(),
            c.src() == source@,
            c.cview() == initial(source@),
    {
        let scanner = Scanner::new(source);
        let dummy = Token { kind: TokenKind::Eof, lexeme: String::new(), line: 1, error: None };
        let dummy2 = Token { kind: TokenKind::Eof, lexeme: String::new(), line: 1, error: None };
        let c = Self {
            scanner,
            current: dummy,
            previous: dummy2,
            panic_mode: false,
            errors: Vec::new(),
            chunk: Chunk::new(),
            full: false,
            stalled: false,
        };
        proof {
            assert(c.errors@.map_values(|e: CompileError| e@) =~= Seq::<CompileErrorView>::empty());
            assert(c.cview() =~= initial(source@));
        }
        c
    }

    proof fn lemma_decodes(&self)
        requires
            self.wf(),
        ensures
            decodes(self.cview()),
    {
    }

    proof fn lemma_measure_nonneg(&self)
        requires
            self.wf(),
        ensures
            measure(self.src(), self.cview()) >= 0,
    {
    }

    fn error_at(&mut self, token: Token, kind: CompileErrorKind)
        requires
            old(self).wf(),
        ensures
            final(self).wf(),
            final(self).src() == old(self).src(),
            final(self).cview() == err_at(old(self).cview(), token@, kind@),
            final(self).cview().errors.len() > 0,
            final(self).full == old(self).full,
    {
        if self.panic_mode {
            return ;
        }
        self.panic_mode = true;
        let ghost old_errors = self.errors@;
        self.errors.push(CompileError::at(&token, kind));
        proof {
            assert(self.errors@.map_values(|e: CompileError| e@) =~= old_errors.map_values(
                |e: CompileError| e@,
            ).push(error_at_view(token@, kind@)));
        }
    }

    fn error(&mut self, kind: CompileErrorKind)
        requires
            old(self).wf(),
        ensures
            final(self).wf(),
            final(self).src() == old(self).src(),
            final(self).cview() == err_at(old(self).cview(), old(self).cview().previous, kind@),
            final(self).cview().errors.len() > 0,
            final(self).full == old(self).full,
    {
        let t = self.previous.clone();
        self.error_at(t, kind);
    }

    fn error_at_current(&mut self, kind: CompileErrorKind)
        requires
            old(self).wf(),
        ensures
            final(self).wf(),
            final(self).src() == old(self).src(),
            final(self).cview() == err_at(old(self).cview(), old(self).cview().current, kind@),
            final(self).cview().errors.len() > 0,
            final(self).full == old(self).full,
    {
        let t = self.current.clone();
        self.error_at(t, kind);
    }

    /// Moves to the next token that is not an error, reporting the scanner's
    /// errors on the way.
    fn advance(&mut self)
        requires
            old(self).wf(),
        ensures
            final(self).wf(),
            final(self).src() == old(self).src(),
            final(self).cview() == sp_advance(old(self).src(), old(self).cview()),
            final(self).full == old(self).full,
            clean_run(old(self).cview(), final(self).cview(), final(self).full, 0, 0),
            final(self).cview().code == old(self).cview().code,
            final(self).cview().consts == old(self).cview().consts,
            final(self).cview().lines == old(self).cview().lines,
            final(self).cview().previous == old(self).cview().current,
            measure(final(self).src(), final(self).cview()) <= measure(old(self).src(), old(self).cview()),
            !terminal(old(self).cview().current) ==> measure(final(self).src(), final(self).cview())
                < measure(old(self).src(), old(self).cview()),
    {
        let ghost src = self.src();
        let ghost c0 = self.cview();
        self.previous = self.current.clone();
        let ghost target = sp_advance(src, c0);
        loop
            invariant_except_break
                scan_loop(src, self.cview()) == target,
            invariant
                self.wf(),
                self.src() == src,
                self.full == old(self).full,
                self.cview().previous == c0.current,
                scan_measure(src, self.cview().scan) <= scan_measure(src, c0.scan),
                self.cview().code == c0.code,
                self.cview().consts == c0.consts,
                self.cview().lines == c0.lines,
            ensures
                self.wf(),
                self.src() == src,
                self.full == old(self).full,
                self.cview() == target,
                self.cview().code == c0.code,
                self.cview().consts == c0.consts,
                self.cview().lines == c0.lines,
                self.cview().previous == c0.current,
                scan_measure(src, self.cview().scan) < scan_measure(src, c0.scan) || terminal(
                    self.cview().current,
                ),
                scan_measure(src, self.cview().scan) <= scan_measure(src, c0.scan),
            decreases scan_measure(src, self.cview().scan),
        {
            let ghost c = self.cview();
            let before_pos = self.scanner.position();
            let before_rank = rank_of_mode(self.scanner.mode());
            proof {
                lemma_scan_progress(src, c.scan);
            }
            self.current = self.scanner.scan_token();
            let after_pos = self.scanner.position();
            let after_rank = rank_of_mode(self.scanner.mode());
            let moved = after_pos > before_pos || (after_pos == before_pos && after_rank < before_rank);
            if self.current.kind != TokenKind::Error {
                break ;
            }
            let msg = match self.current.error {
                Some(e) => e.message(),
                None => "Scan error.",
            };
            self.error_at_current(CompileErrorKind::Message(String::from_str(msg)));
            if !moved {
                self.stalled = true;
                break ;
            }
        }
        proof {
            lemma_advance_keeps(src, c0);
            lemma_clean_same(c0, self.cview(), self.full, 0);
        }
    }

    /// Moves past the lookahead if it is of `kind`, and reports `msg` at it
    /// otherwise.
    fn consume(&mut self, kind: TokenKind, msg: CompileErrorKind)
        requires
            old(self).wf(),
        ensures
            final(self).wf(),
            final(self).src() == old(self).src(),
            final(self).cview() == sp_consume(old(self).src(), old(self).cview(), kind, msg@),
            final(self).full == old(self).full,
            clean_run(old(self).cview(), final(self).cview(), final(self).full, 0, 0),
            final(self).cview().code == old(self).cview().code,
            final(self).cview().consts == old(self).cview().consts,
            final(self).cview().lines == old(self).cview().lines,
            measure(final(self).src(), final(self).cview()) <= measure(old(self).src(), old(self).cview()),
    {
        if self.current.kind == kind {
            self.advance();
            return ;
        }
        self.error_at_current(msg);
    }

    fn emit_op(&mut self, op: OpType)
        requires
            old(self).wf(),
            !old(self).full,
            op != OpType::Constant,
            op != OpType::ConstantLong,
        ensures
            final(self).wf(),
            final(self).src() == old(self).src(),
            final(self).m() == old(self).m(),
            !final(self).full ==> final(self).cview() == sp_emit_op(old(self).cview(), op),
            final(self).full ==> !fits(sp_emit_op(old(self).cview(), op)),
            clean_run(old(self).cview(), final(self).cview(), final(self).full, op_effect(op.spec_byte()), op_needs(op.spec_byte())),
    {
        if self.stalled {
            return ;
        }
        if self.chunk.code().len() >= usize::MAX - 1 {
            self.full = true;
            return ;
        }
        proof {
            let n = self.chunk.constants_view().len() as int;
            lemma_simple_op_ok(op, n);
            lemma_instrs_append(self.chunk.code_view(), seq![op.spec_byte()], n, n, 0);
            assert(self.chunk.code_view().push(op.spec_byte()) =~= self.chunk.code_view() + seq![
                op.spec_byte(),
            ]);
        }
        self.chunk.write_op(op, self.previous.line);
        proof {
            assert(self.cview() =~= sp_emit_op(old(self).cview(), op));
            lemma_emit_op_leaves(old(self).cview(), op);
        }
    }

    fn emit_constant(&mut self, value: Value)
        requires
            old(self).wf(),
            !old(self).full,
        ensures
            final(self).wf(),
            final(self).src() == old(self).src(),
            final(self).m() == old(self).m(),
            !final(self).full ==> final(self).cview() == sp_emit_constant(old(self).cview(), value@),
            final(self).full ==> !fits(sp_emit_constant(old(self).cview(), value@)),
            clean_run(old(self).cview(), final(self).cview(), final(self).full, 1, 0),
    {
        if self.stalled {
            return ;
        }
        let n = self.chunk.get_constant().len();
        let width: usize = if n <= 0xFF {
            2
        } else {
            4
        };
        if n >= MAX_CONSTANTS || self.chunk.code().len() >= usize::MAX - width {
            self.full = true;
            return ;
        }
        proof {
            let n = self.chunk.constants_view().len() as int;
            lemma_constant_code_ok(n, n + 1);
            lemma_instrs_append(self.chunk.code_view(), constant_code(n), n, n + 1, 0);
        }
        self.chunk.write_constant(value, self.previous.line);
        proof {
            assert(self.cview() =~= sp_emit_constant(old(self).cview(), value@));
            lemma_emit_constant_leaves(old(self).cview(), value@);
        }
    }

    pub open spec fn m(&self) -> int {
        measure(self.src(), self.cview())
    }

    /// Compiles the whole source, telling apart the sources whose code does
    /// not fit in a chunk and those on which compiling never finishes.
    pub fn try_compile(self) -> (r: Outcome)
        requires
            self.wf(),
            !self.overflowed(),
            self.cview() == initial(self.src()),
        ensures
            outcome_of(self.src(), r),
    {
        let mut this = self;
        let ghost src = this.src();
        let ghost c0 = this.cview();
        proof {
            this.lemma_decodes();
        }
        this.advance();
        let ghost c1 = this.cview();
        proof {
            this.lemma_decodes();
        }
        this.expression();
        if this.full {
            proof {
                lemma_consume_keeps(src, sp_expression(src, c1), TokenKind::Eof, KindView::ExpectEndOfExpression);
            }
            return Outcome::Overflow;
        }
        let ghost c2 = this.cview();
        proof {
            this.lemma_decodes();
            lemma_clean_chain(c0, c1, c2, false, false, 0, 1, 0, 0, 0);
        }
        this.consume(TokenKind::Eof, CompileErrorKind::ExpectEndOfExpression);
        let ghost c3 = this.cview();
        proof {
            this.lemma_decodes();
            lemma_clean_chain(c0, c2, c3, false, false, 1, 0, 0, 0, 0);
        }
        this.emit_op(OpType::Return);
        if this.full {
            return Outcome::Overflow;
        }
        if this.stalled {
            return Outcome::Stalled;
        }
        proof {
            if this.errors.len() == 0 {
                assert(c3.code.subrange(0, 0) =~= c0.code);
                assert(c3.code.subrange(0, c3.code.len() as int) =~= c3.code);
                assert(this.cview().code.drop_last() =~= c3.code);
                assert(added(c0, c3) =~= c3.code);
                assert(never_underflows(c3.code, 0, 0));
                let n = c3.consts.len() as int;
                assert(this.cview().code =~= c3.code + seq![OpType::Return.spec_byte()]);
                lemma_underflow_append(c3.code, seq![OpType::Return.spec_byte()], n, 0, 0);
                lemma_simple_op_safe(OpType::Return, 1);
            }
        }
        if this.errors.len() == 0 {
            Outcome::Finished(Ok(this.chunk))
        } else {
            Outcome::Finished(Err(this.errors))
        }
    }

    /// Compiles the whole source: one expression followed by the end. The
    /// compiled code must fit in a chunk, and compiling must finish.
    pub fn compile(self) -> (r: Result<Chunk, Vec<CompileError>>)
        requires
            self.wf(),
            !self.overflowed(),
            self.cview() == initial(self.src()),
            fits(sp_compile(self.src())),
            !sp_compile(self.src()).stalled,
        ensures
            compiled(self.src(), r),
    {
        match self.try_compile() {
            Outcome::Finished(r) => r,
            Outcome::Overflow => Err(Vec::new()),
            Outcome::Stalled => Err(Vec::new()),
        }
    }

    fn expression(&mut self)
        requires
            old(self).wf(),
            !old(self).full,
        ensures
            final(self).wf(),
            final(self).src() == old(self).src(),
            final(self).m() <= old(self).m(),
            !final(self).full ==> final(self).cview() == sp_expression(old(self).src(), old(self).cview()),
            final(self).full ==> !fits(sp_expression(old(self).src(), old(self).cview())),
            clean_run(old(self).cview(), final(self).cview(), final(self).full, 1, 0),
        decreases old(self).m(), 1int,
    {
        self.parse_precendence(Precendence::Assignment);
    }

    /// Parses an expression whose operators bind at least as tightly as `prec`.
    #[verifier::rlimit(40)]
    fn parse_precendence(&mut self, prec: Precendence)
        requires
            old(self).wf(),
            !old(self).full,
        ensures
            final(self).wf(),
            final(self).src() == old(self).src(),
            final(self).m() <= old(self).m(),
            !final(self).full ==> final(self).cview() == sp_parse_prec(old(self).src(), old(self).cview(), prec),
            final(self).full ==> !fits(sp_parse_prec(old(self).src(), old(self).cview(), prec)),
            clean_run(old(self).cview(), final(self).cview(), final(self).full, 1, 0),
        decreases old(self).m(), 0int,
    {
        let ghost src = self.src();
        let ghost c0 = self.cview();
        proof {
            self.lemma_decodes();
        }
        self.advance();
        let ghost c1 = self.cview();
        proof {
            self.lemma_measure_nonneg();
            self.lemma_decodes();
        }
        let kind = self.previous.kind;
        match kind {
            TokenKind::Number => {
                self.number();
                if self.full {
                    proof {
                        lemma_infix_grows(src, sp_number(c1), prec);
                    }
                    return ;
                }
            },
            TokenKind::LeftParen => {
                self.grouping();
                if self.full {
                    proof {
                        lemma_infix_grows(src, sp_grouping(src, c1), prec);
                    }
                    return ;
                }
            },
            TokenKind::Minus => {
                self.unary();
                if self.full {
                    proof {
                        lemma_infix_grows(src, sp_unary(src, c1), prec);
                    }
                    return ;
                }
            },
            TokenKind::StringPart => {
                self.string();
                if self.full {
                    proof {
                        lemma_infix_grows(src, sp_string(src, c1), prec);
                    }
                    return ;
                }
            },
            TokenKind::False | TokenKind::True | TokenKind::Nil => {
                self.literal();
                if self.full {
                    proof {
                        lemma_infix_grows(src, sp_literal(c1), prec);
                    }
                    return ;
                }
            },
            _ => {
                self.error(CompileErrorKind::ExpectedExpression);
                return ;
            },
        }
        let ghost c2 = self.cview();
        proof {
            self.lemma_measure_nonneg();
            self.lemma_decodes();
            lemma_clean_chain(c0, c1, c2, false, false, 0, 1, 0, 0, 0);
        }
        self.infix(prec);
        proof {
            lemma_clean_chain(c0, c2, self.cview(), false, self.full, 1, 0, 0, 1, 0);
        }
    }

    /// Parses binary operators of at least precedence `prec` and their right
    /// operands, for as long as they come.
    fn infix(&mut self, prec: Precendence)
        requires
            old(self).wf(),
            !old(self).full,
        ensures
            final(self).wf(),
            final(self).src() == old(self).src(),
            final(self).m() <= old(self).m(),
            !final(self).full ==> final(self).cview() == sp_infix_loop(old(self).src(), old(self).cview(), prec),
            final(self).full ==> !fits(sp_infix_loop(old(self).src(), old(self).cview(), prec)),
            clean_run(old(self).cview(), final(self).cview(), final(self).full, 0, 1),
        decreases old(self).m(), 0int,
    {
        let ghost src = self.src();
        let ghost c0 = self.cview();
        proof {
            self.lemma_decodes();
        }
        if !prec.le(&infix_prec(self.current.kind)) {
            proof {
                lemma_clean_same(c0, self.cview(), self.full, 1);
            }
            return ;
        }
        self.advance();
        let ghost c1 = self.cview();
        proof {
            self.lemma_measure_nonneg();
            self.lemma_decodes();
        }
        match self.previous.kind {
            TokenKind::Plus | TokenKind::Minus | TokenKind::Star | TokenKind::Slash => {
                self.binary();
                if self.full {
                    proof {
                        lemma_infix_grows(src, sp_binary(src, c1), prec);
                    }
                    return ;
                }
                let ghost c2 = self.cview();
                proof {
                    self.lemma_measure_nonneg();
                    self.lemma_decodes();
                    lemma_clean_chain(c0, c1, c2, false, false, 0, 0, 0, 1, 1);
                }
                self.infix(prec);
                proof {
                    lemma_clean_chain(c0, c2, self.cview(), false, self.full, 0, 0, 1, 1, 1);
                }
            },
            _ => {
                proof {
                    lemma_clean_weaken(c0, c1, self.full, 0, 0, 1);
                }
            },
        }
    }

    fn number(&mut self)
        requires
            old(self).wf(),
            !old(self).full,
        ensures
            final(self).wf(),
            final(self).src() == old(self).src(),
            final(self).m() == old(self).m(),
            !final(self).full ==> final(self).cview() == sp_number(old(self).cview()),
            final(self).full ==> !fits(sp_number(old(self).cview())),
            clean_run(old(self).cview(), final(self).cview(), final(self).full, 1, 0),
    {
        let lexeme = self.previous.lexeme.clone();
        self.emit_constant(Value::Number(Num::Literal(lexeme)));
    }

    fn literal(&mut self)
        requires
            old(self).wf(),
            !old(self).full,
        ensures
            final(self).wf(),
            final(self).src() == old(self).src(),
            final(self).m() == old(self).m(),
            !final(self).full ==> final(self).cview() == sp_literal(old(self).cview()),
            final(self).full ==> !fits(sp_literal(old(self).cview())),
            clean_run(old(self).cview(), final(self).cview(), final(self).full, 1, 0),
    {
        match self.previous.kind {
            TokenKind::False => self.emit_op(OpType::False),
            TokenKind::True => self.emit_op(OpType::True),
            _ => self.emit_op(OpType::Nil),
        }
    }

    fn grouping(&mut self)
        requires
            old(self).wf(),
            !old(self).full,
        ensures
            final(self).wf(),
            final(self).src() == old(self).src(),
            final(self).m() <= old(self).m(),
            !final(self).full ==> final(self).cview() == sp_grouping(old(self).src(), old(self).cview()),
            final(self).full ==> !fits(sp_grouping(old(self).src(), old(self).cview())),
            clean_run(old(self).cview(), final(self).cview(), final(self).full, 1, 0),
        decreases old(self).m(), 2int,
    {
        let ghost src = self.src();
        let ghost c = self.cview();
        proof {
            self.lemma_decodes();
        }
        self.expression();
        if self.full {
            proof {
                lemma_consume_keeps(src, sp_expression(src, c), TokenKind::RightParen, KindView::ExpectRightParen);
            }
            return ;
        }
        let ghost c1 = self.cview();
        proof {
            self.lemma_decodes();
        }
        self.consume(TokenKind::RightParen, CompileErrorKind::ExpectRightParen);
        proof {
            lemma_clean_chain(c, c1, self.cview(), false, self.full, 1, 0, 0, 0, 0);
        }
    }

    fn unary(&mut self)
        requires
            old(self).wf(),
            !old(self).full,
        ensures
            final(self).wf(),
            final(self).src() == old(self).src(),
            final(self).m() <= old(self).m(),
            !final(self).full ==> final(self).cview() == sp_unary(old(self).src(), old(self).cview()),
            final(self).full ==> !fits(sp_unary(old(self).src(), old(self).cview())),
            clean_run(old(self).cview(), final(self).cview(), final(self).full, 1, 0),
        decreases old(self).m(), 1int,
    {
        let ghost c0 = self.cview();
        proof {
            self.lemma_decodes();
        }
        self.parse_precendence(Precendence::Unary);
        if self.full {
            return ;
        }
        let ghost c1 = self.cview();
        proof {
            self.lemma_decodes();
        }
        self.emit_op(OpType::Negate);
        proof {
            lemma_clean_chain(c0, c1, self.cview(), false, self.full, 1, 0, 0, 1, 0);
        }
    }

    fn binary(&mut self)
        requires
            old(self).wf(),
            !old(self).full,
        ensures
            final(self).wf(),
            final(self).src() == old(self).src(),
            final(self).m() <= old(self).m(),
            !final(self).full ==> final(self).cview() == sp_binary(old(self).src(), old(self).cview()),
            final(self).full ==> !fits(sp_binary(old(self).src(), old(self).cview())),
            clean_run(old(self).cview(), final(self).cview(), final(self).full, 0, 1),
        decreases old(self).m(), 1int,
    {
        let ghost c0 = self.cview();
        proof {
            self.lemma_decodes();
        }
        let kind = self.previous.kind;
        let prec = infix_prec(kind);
        self.parse_precendence(prec.next());
        if self.full {
            return ;
        }
        let ghost c1 = self.cview();
        proof {
            self.lemma_decodes();
        }
        let op = match kind {
            TokenKind::Plus => OpType::Add,
            TokenKind::Minus => OpType::Subtract,
            TokenKind::Star => OpType::Multiply,
            _ => OpType::Divide,
        };
        self.emit_op(op);
        proof {
            lemma_clean_chain(c0, c1, self.cview(), false, self.full, 1, -1, 0, 2, 1);
        }
    }

    /// The interpolations of a string literal and the parts between them;
    /// `has_acc` tells whether a string value is already on the stack.
    fn interpolations(&mut self, has_acc: bool) -> (acc: bool)
        requires
            old(self).wf(),
            !old(self).full,
        ensures
            final(self).wf(),
            final(self).src() == old(self).src(),
            final(self).m() <= old(self).m(),
            !final(self).full ==> (final(self).cview(), acc) == sp_interp_loop(
                old(self).src(),
                old(self).cview(),
                has_acc,
            ),
            final(self).full ==> !fits(sp_interp_loop(old(self).src(), old(self).cview(), has_acc).0),
            clean_run(old(self).cview(), final(self).cview(), final(self).full, if acc && !has_acc { 1int } else { 0int }, if has_acc { 1int } else { 0int }),
            has_acc ==> acc,
        decreases old(self).m(), 0int,
    {
        let ghost src = self.src();
        let ghost c0 = self.cview();
        proof {
            self.lemma_decodes();
        }
        if self.current.kind != TokenKind::InterpStart {
            proof {
                lemma_clean_same(c0, self.cview(), self.full, if has_acc { 1int } else { 0int });
            }
            return has_acc;
        }
        self.advance();
        let ghost c1 = self.cview();
        proof {
            self.lemma_measure_nonneg();
            self.lemma_decodes();
        }
        self.interpolation_body(has_acc);
        if self.full {
            proof {
                lemma_interp_rest_grows(src, sp_interp_body(src, c1, has_acc));
            }
            return true;
        }
        let ghost c5 = self.cview();
        let ghost kb: int = if has_acc { 0 } else { 1 };
        let ghost nb: int = if has_acc { 1 } else { 0 };
        proof {
            self.lemma_measure_nonneg();
            self.lemma_decodes();
            lemma_clean_chain(c0, c1, c5, false, false, 0, kb, 0, nb, nb);
        }
        let acc = self.interpolation_rest();
        proof {
            lemma_clean_chain(c0, c5, self.cview(), false, self.full, kb, 0, nb, 1, nb);
        }
        acc
    }

    fn interpolation_body(&mut self, has_acc: bool)
        requires
            old(self).wf(),
            !old(self).full,
        ensures
            final(self).wf(),
            final(self).src() == old(self).src(),
            final(self).m() <= old(self).m(),
            !final(self).full ==> final(self).cview() == sp_interp_body(old(self).src(), old(self).cview(), has_acc),
            final(self).full ==> !fits(sp_interp_body(old(self).src(), old(self).cview(), has_acc)),
            clean_run(old(self).cview(), final(self).cview(), final(self).full, if has_acc { 0int } else { 1int }, if has_acc { 1int } else { 0int }),
        decreases old(self).m(), 2int,
    {
        let ghost src = self.src();
        let ghost c = self.cview();
        proof {
            self.lemma_decodes();
        }
        self.expression();
        if self.full {
            proof {
                lemma_consume_keeps(src, sp_expression(src, c), TokenKind::InterpEnd, KindView::ExpectRightBracket);
            }
            return ;
        }
        let ghost c1 = self.cview();
        proof {
            self.lemma_decodes();
        }
        self.consume(TokenKind::InterpEnd, CompileErrorKind::ExpectRightBracket);
        let ghost c2 = self.cview();
        proof {
            self.lemma_decodes();
            lemma_clean_chain(c, c1, c2, false, false, 1, 0, 0, 0, 0);
        }
        self.emit_op(OpType::Stringify);
        proof {
            lemma_clean_chain(c, c2, self.cview(), false, self.full, 1, 0, 0, 1, 0);
        }
        if self.full {
            return ;
        }
        let ghost c3 = self.cview();
        proof {
            self.lemma_decodes();
        }
        if has_acc {
            self.emit_op(OpType::Add);
            proof {
                lemma_clean_chain(c, c3, self.cview(), false, self.full, 1, -1, 0, 2, 1);
            }
        }
    }

    /// Reads the text part after an interpolation and joins it on when it
    /// is not empty.
    fn next_part(&mut self)
        requires
            old(self).wf(),
            !old(self).full,
            old(self).cview().current.kind == TokenKind::StringPart,
        ensures
            final(self).wf(),
            final(self).src() == old(self).src(),
            final(self).m() < old(self).m(),
            !final(self).full ==> final(self).cview() == sp_next_part(old(self).src(), old(self).cview()),
            final(self).full ==> !fits(sp_next_part(old(self).src(), old(self).cview())),
            clean_run(old(self).cview(), final(self).cview(), final(self).full, 0, 1),
    {
        let ghost c0 = self.cview();
        proof {
            self.lemma_decodes();
        }
        self.advance();
        let ghost c6 = self.cview();
        proof {
            self.lemma_decodes();
        }
        if !self.previous.lexeme.as_str().is_empty() {
            let text = self.previous.lexeme.clone();
            self.emit_constant(Value::String(text));
            if self.full {
                return ;
            }
            let ghost c7 = self.cview();
            proof {
                self.lemma_decodes();
                lemma_clean_chain(c0, c6, c7, false, false, 0, 1, 0, 0, 0);
            }
            self.emit_op(OpType::Add);
            proof {
                lemma_clean_chain(c0, c7, self.cview(), false, self.full, 1, -1, 0, 2, 1);
            }
        } else {
            proof {
                lemma_clean_weaken(c0, c6, self.full, 0, 0, 1);
            }
        }
    }

    fn interpolation_rest(&mut self) -> (acc: bool)
        requires
            old(self).wf(),
            !old(self).full,
        ensures
            final(self).wf(),
            final(self).src() == old(self).src(),
            final(self).m() <= old(self).m(),
            !final(self).full ==> (final(self).cview(), acc) == sp_interp_rest(old(self).src(), old(self).cview()),
            final(self).full ==> !fits(sp_interp_rest(old(self).src(), old(self).cview()).0),
            clean_run(old(self).cview(), final(self).cview(), final(self).full, 0, 1),
            acc,
        decreases old(self).m(), 0int,
    {
        let ghost src = self.src();
        let ghost c0 = self.cview();
        proof {
            self.lemma_decodes();
        }
        match self.current.kind {
            TokenKind::StringPart => {
                self.next_part();
                if self.full {
                    proof {
                        lemma_interp_loop_grows(src, sp_next_part(src, old(self).cview()), true);
                    }
                    return true;
                }
                let ghost c7 = self.cview();
                proof {
                    self.lemma_measure_nonneg();
                    self.lemma_decodes();
                }
                let acc = self.interpolations(true);
                proof {
                    lemma_clean_chain(c0, c7, self.cview(), false, self.full, 0, 0, 1, 1, 1);
                }
                acc
            },
            TokenKind::StringEnd => {
                proof {
                    lemma_clean_same(c0, self.cview(), self.full, 1);
                }
                true
            },
            _ => {
                self.error_at_current(
                    CompileErrorKind::Message(
                        String::from_str("Expect string chunk or end of string after interpolation."),
                    ),
                );
                true
            },
        }
    }

    fn string(&mut self)
        requires
            old(self).wf(),
            !old(self).full,
        ensures
            final(self).wf(),
            final(self).src() == old(self).src(),
            final(self).m() <= old(self).m(),
            !final(self).full ==> final(self).cview() == sp_string(old(self).src(), old(self).cview()),
            final(self).full ==> !fits(sp_string(old(self).src(), old(self).cview())),
            clean_run(old(self).cview(), final(self).cview(), final(self).full, 1, 0),
        decreases old(self).m(), 1int,
    {
        let ghost src = self.src();
        let ghost c = self.cview();
        let has_acc = !self.previous.lexeme.as_str().is_empty();
        let ghost c1 = if has_acc {
            sp_emit_constant(c, ValueView::Str(c.previous.lexeme))
        } else {
            c
        };
        let ghost c2 = sp_interp_loop(src, c1, has_acc).0;
        let ghost acc_s = sp_interp_loop(src, c1, has_acc).1;
        let ghost c3 = if !acc_s {
            sp_emit_constant(c2, ValueView::Str(Seq::empty()))
        } else {
            c2
        };
        proof {
            lemma_interp_loop_grows(src, c1, has_acc);
            lemma_consume_keeps(src, c3, TokenKind::StringEnd, KindView::UnterminatedString);
        }
        proof {
            self.lemma_decodes();
        }
        if has_acc {
            let text = self.previous.lexeme.clone();
            self.emit_constant(Value::String(text));
            if self.full {
                return ;
            }
        } else {
            proof {
                lemma_clean_same(c, self.cview(), self.full, 0);
            }
        }
        let ghost ca = self.cview();
        let ghost ka: int = if has_acc { 1 } else { 0 };
        proof {
            self.lemma_decodes();
        }
        let acc = self.interpolations(has_acc);
        if self.full {
            return ;
        }
        let ghost cb = self.cview();
        let ghost ki: int = if acc && !has_acc { 1 } else { 0 };
        proof {
            self.lemma_decodes();
            lemma_clean_chain(c, ca, cb, false, false, ka, ki, 0, if has_acc { 1int } else { 0int }, 0);
        }
        if !acc {
            self.emit_constant(Value::String(String::new()));
            proof {
                lemma_clean_chain(c, cb, self.cview(), false, self.full, ka + ki, 1, 0, 0, 0);
            }
            if self.full {
                return ;
            }
        }
        let ghost cc = self.cview();
        proof {
            self.lemma_decodes();
        }
        self.consume(TokenKind::StringEnd, CompileErrorKind::UnterminatedString);
        proof {
            lemma_clean_chain(c, cc, self.cview(), false, self.full, 1, 0, 0, 0, 0);
        }
    }
}

} // verus!
