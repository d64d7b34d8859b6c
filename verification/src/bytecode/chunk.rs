//! A chunk of bytecode: instruction bytes, the constant pool and the source
//! line of every byte.
use vstd::prelude::*;
use crate::bytecode::value::{Value, ValueView};
use crate::line::LineTracker;

verus! {

/// The instruction set. Each instruction is one opcode byte; `Constant` is
/// followed by a one-byte pool index and `ConstantLong` by a three-byte
/// little-endian pool index.
#[derive(Clone, Copy, Debug, PartialEq, Eq, Structural)]
pub enum OpType {
    Return,
    Constant,
    ConstantLong,
    Negate,
    Add,
    Subtract,
    Multiply,
    Divide,
    Nil,
    True,
    False,
    Stringify,
}

impl OpType {
    pub open spec fn spec_byte(&self) -> u8 {
        match self {
            OpType::Return => 0,
            OpType::Constant => 1,
            OpType::ConstantLong => 2,
            OpType::Negate => 3,
            OpType::Add => 4,
            OpType::Subtract => 5,
            OpType::Multiply => 6,
            OpType::Divide => 7,
            OpType::Nil => 8,
            OpType::True => 9,
            OpType::False => 10,
            OpType::Stringify => 11,
        }
    }

    /// The opcode byte of the instruction.
    pub fn to_byte(&self) -> (b: u8)
        ensures
            b == self.spec_byte(),
    {
        match self {
            OpType::Return => 0,
            OpType::Constant => 1,
            OpType::ConstantLong => 2,
            OpType::Negate => 3,
            OpType::Add => 4,
            OpType::Subtract => 5,
            OpType::Multiply => 6,
            OpType::Divide => 7,
            OpType::Nil => 8,
            OpType::True => 9,
            OpType::False => 10,
            OpType::Stringify => 11,
        }
    }

    pub open spec fn spec_from_byte(b: u8) -> Option<OpType> {
        if b == 0 {
            Some(OpType::Return)
        } else if b == 1 {
            Some(OpType::Constant)
        } else if b == 2 {
            Some(OpType::ConstantLong)
        } else if b == 3 {
            Some(OpType::Negate)
        } else if b == 4 {
            Some(OpType::Add)
        } else if b == 5 {
            Some(OpType::Subtract)
        } else if b == 6 {
            Some(OpType::Multiply)
        } else if b == 7 {
            Some(OpType::Divide)
        } else if b == 8 {
            Some(OpType::Nil)
        } else if b == 9 {
            Some(OpType::True)
        } else if b == 10 {
            Some(OpType::False)
        } else if b == 11 {
            Some(OpType::Stringify)
        } else {
            None
        }
    }

    /// The instruction an opcode byte stands for, if any.
    pub fn from_byte(b: u8) -> (r: Option<OpType>)
        ensures
            r == Self::spec_from_byte(b),
    {
        if b == 0 {
            Some(OpType::Return)
        } else if b == 1 {
            Some(OpType::Constant)
        } else if b == 2 {
            Some(OpType::ConstantLong)
        } else if b == 3 {
            Some(OpType::Negate)
        } else if b == 4 {
            Some(OpType::Add)
        } else if b == 5 {
            Some(OpType::Subtract)
        } else if b == 6 {
            Some(OpType::Multiply)
        } else if b == 7 {
            Some(OpType::Divide)
        } else if b == 8 {
            Some(OpType::Nil)
        } else if b == 9 {
            Some(OpType::True)
        } else if b == 10 {
            Some(OpType::False)
        } else if b == 11 {
            Some(OpType::Stringify)
        } else {
            None
        }
    }
}

/// Decoding an opcode byte gives back the instruction that was encoded.
pub proof fn lemma_opcode_roundtrip(op: OpType)
    ensures
        OpType::spec_from_byte(op.spec_byte()) == Some(op),
{
}

/// The largest number of constants a chunk can hold.
pub const MAX_CONSTANTS: usize = 0x100_0000;

/// The bytes that load constant number `index`: a short form for the first
/// 256 constants, a long form with a little-endian three-byte index after.
pub open spec fn constant_code(index: int) -> Seq<u8> {
    if index <= 0xFF {
        seq![OpType::Constant.spec_byte(), index as u8]
    } else {
        seq![
            OpType::ConstantLong.spec_byte(),
            (index % 0x100) as u8,
            ((index / 0x100) % 0x100) as u8,
            ((index / 0x1_0000) % 0x100) as u8,
        ]
    }
}

/// The pool index that the three operand bytes of a long constant denote.
pub open spec fn long_index(b1: u8, b2: u8, b3: u8) -> int {
    b1 + b2 * 0x100 + b3 * 0x1_0000
}

/// Decoding the operand of a long constant gives back the index it encodes.
pub proof fn lemma_long_index_roundtrip(index: int)
    requires
        0xFF < index < MAX_CONSTANTS,
    ensures
        long_index(constant_code(index)[1], constant_code(index)[2], constant_code(index)[3])
            == index,
{
}

/// From offset `o` on, the code is a sequence of complete, known instructions
/// whose constant operands name one of the first `nconsts` constants; the long
/// form is used only for constants past the first 256.
pub open spec fn instrs_ok(code: Seq<u8>, nconsts: int, o: int) -> bool
    decreases code.len() - o,
{
    if o < 0 || o >= code.len() {
        o == code.len()
    } else {
        let op = code[o];
        if op == OpType::Constant.spec_byte() {
            o + 1 < code.len() && code[o + 1] < nconsts && instrs_ok(code, nconsts, o + 2)
        } else if op == OpType::ConstantLong.spec_byte() {
            o + 3 < code.len() && 0xFF < long_index(code[o + 1], code[o + 2], code[o + 3])
                < nconsts && instrs_ok(code, nconsts, o + 4)
        } else {
            OpType::spec_from_byte(op) is Some && instrs_ok(code, nconsts, o + 1)
        }
    }
}

/// Whether an instruction stream is well formed only depends on the part
/// from the offset on.
pub proof fn lemma_instrs_shift(p: Seq<u8>, b: Seq<u8>, n: int, o: int)
    requires
        0 <= o <= b.len(),
    ensures
        instrs_ok(p + b, n, p.len() + o) == instrs_ok(b, n, o),
    decreases b.len() - o,
{
    let c = p + b;
    if o < b.len() {
        assert(c[p.len() + o] == b[o]);
        if o + 1 < b.len() {
            assert(c[p.len() + o + 1] == b[o + 1]);
        }
        if o + 3 < b.len() {
            assert(c[p.len() + o + 2] == b[o + 2]);
            assert(c[p.len() + o + 3] == b[o + 3]);
        }
        if o + 1 <= b.len() {
            lemma_instrs_shift(p, b, n, o + 1);
        }
        if o + 2 <= b.len() {
            lemma_instrs_shift(p, b, n, o + 2);
        }
        if o + 4 <= b.len() {
            lemma_instrs_shift(p, b, n, o + 4);
        }
    }
}

/// Appending well-formed code to well-formed code, with at least as many
/// constants, gives well-formed code.
pub proof fn lemma_instrs_append(a: Seq<u8>, b: Seq<u8>, n: int, n2: int, o: int)
    requires
        0 <= o <= a.len(),
        n <= n2,
        instrs_ok(a, n, o),
        instrs_ok(b, n2, 0),
    ensures
        instrs_ok(a + b, n2, o),
    decreases a.len() - o,
{
    let c = a + b;
    if o == a.len() {
        lemma_instrs_shift(a, b, n2, 0);
    } else {
        let op = a[o];
        assert(c[o] == op);
        if op == OpType::Constant.spec_byte() {
            assert(c[o + 1] == a[o + 1]);
            lemma_instrs_append(a, b, n, n2, o + 2);
        } else if op == OpType::ConstantLong.spec_byte() {
            assert(c[o + 1] == a[o + 1]);
            assert(c[o + 2] == a[o + 2]);
            assert(c[o + 3] == a[o + 3]);
            lemma_instrs_append(a, b, n, n2, o + 4);
        } else {
            lemma_instrs_append(a, b, n, n2, o + 1);
        }
    }
}

/// Loading constant `index` is a well-formed instruction when the pool has it.
pub proof fn lemma_constant_code_ok(index: int, n: int)
    requires
        0 <= index < n,
        index < MAX_CONSTANTS,
    ensures
        instrs_ok(constant_code(index), n, 0),
{
    let c = constant_code(index);
    if index > 0xFF {
        lemma_long_index_roundtrip(index);
        assert(instrs_ok(c, n, 4));
    } else {
        assert(instrs_ok(c, n, 2));
    }
}

/// A single instruction without operands is well formed.
pub proof fn lemma_simple_op_ok(op: OpType, n: int)
    requires
        op != OpType::Constant,
        op != OpType::ConstantLong,
    ensures
        instrs_ok(seq![op.spec_byte()], n, 0),
{
    lemma_opcode_roundtrip(op);
    assert(instrs_ok(seq![op.spec_byte()], n, 1));
}

/// How many values the instruction pushes minus how many it pops.
pub open spec fn op_effect(op: u8) -> int {
    match OpType::spec_from_byte(op) {
        Some(OpType::Constant) | Some(OpType::ConstantLong) | Some(OpType::Nil) | Some(
            OpType::True,
        ) | Some(OpType::False) => 1,
        Some(OpType::Add) | Some(OpType::Subtract) | Some(OpType::Multiply) | Some(OpType::Divide)
        | Some(OpType::Return) => -1,
        _ => 0,
    }
}

/// The number of bytes of the instruction that starts with opcode `op`.
pub open spec fn op_size(op: u8) -> int {
    if op == OpType::Constant.spec_byte() {
        2
    } else if op == OpType::ConstantLong.spec_byte() {
        4
    } else {
        1
    }
}

/// The net number of values the instructions from offset `o` on leave on the
/// stack: pushes minus pops, instruction by instruction.
pub open spec fn stack_effect(code: Seq<u8>, o: int) -> int
    decreases code.len() + 4 - o,
{
    if o < 0 || o >= code.len() {
        0
    } else {
        op_effect(code[o]) + stack_effect(code, o + op_size(code[o]))
    }
}

/// How many values the instruction takes off the stack.
pub open spec fn op_needs(op: u8) -> int {
    match OpType::spec_from_byte(op) {
        Some(OpType::Add) | Some(OpType::Subtract) | Some(OpType::Multiply) | Some(
            OpType::Divide,
        ) => 2,
        Some(OpType::Negate) | Some(OpType::Stringify) | Some(OpType::Return) => 1,
        _ => 0,
    }
}

/// Running the instructions from offset `o` on, starting with `d` values on
/// the stack, no instruction takes more values than the stack holds.
pub open spec fn never_underflows(code: Seq<u8>, o: int, d: int) -> bool
    decreases code.len() + 4 - o,
{
    if o < 0 || o >= code.len() {
        true
    } else {
        d >= op_needs(code[o]) && never_underflows(code, o + op_size(code[o]), d + op_effect(code[o]))
    }
}

/// Whether the stack holds out from an offset only depends on the code from
/// there on.
pub proof fn lemma_underflow_shift(p: Seq<u8>, b: Seq<u8>, o: int, d: int)
    requires
        0 <= o <= b.len(),
    ensures
        never_underflows(p + b, p.len() + o, d) == never_underflows(b, o, d),
    decreases b.len() - o,
{
    let c = p + b;
    if o < b.len() {
        assert(c[p.len() + o] == b[o]);
        let next = o + op_size(b[o]);
        let d2 = d + op_effect(b[o]);
        if next <= b.len() {
            lemma_underflow_shift(p, b, next, d2);
        }
        assert(never_underflows(c, p.len() + o, d) == (d >= op_needs(b[o]) && never_underflows(
            c,
            p.len() + next,
            d2,
        )));
        assert(never_underflows(b, o, d) == (d >= op_needs(b[o]) && never_underflows(b, next, d2)));
    }
}

/// Well-formed code followed by more code holds out exactly when the first
/// part does and the rest does from the depth the first part leaves.
pub proof fn lemma_underflow_append(a: Seq<u8>, b: Seq<u8>, n: int, o: int, d: int)
    requires
        0 <= o <= a.len(),
        instrs_ok(a, n, o),
    ensures
        never_underflows(a + b, o, d) == (never_underflows(a, o, d) && never_underflows(
            b,
            0,
            d + stack_effect(a, o),
        )),
    decreases a.len() - o,
{
    let c = a + b;
    if o == a.len() {
        lemma_underflow_shift(a, b, 0, d);
    } else {
        assert(c[o] == a[o]);
        lemma_underflow_append(a, b, n, o + op_size(a[o]), d + op_effect(a[o]));
    }
}

/// Loading a constant takes nothing off the stack.
pub proof fn lemma_constant_code_safe(index: int, d: int)
    requires
        d >= 0,
    ensures
        never_underflows(constant_code(index), 0, d),
{
    let c = constant_code(index);
    lemma_opcode_roundtrip(OpType::Constant);
    lemma_opcode_roundtrip(OpType::ConstantLong);
    assert(op_needs(c[0]) == 0);
    assert(op_size(c[0]) == c.len());
    assert(never_underflows(c, c.len() as int, d + op_effect(c[0])));
}

/// A single instruction without operands holds out exactly when the stack
/// has the values it takes.
pub proof fn lemma_simple_op_safe(op: OpType, d: int)
    requires
        op != OpType::Constant,
        op != OpType::ConstantLong,
    ensures
        never_underflows(seq![op.spec_byte()], 0, d) == (d >= op_needs(op.spec_byte())),
{
    let c = seq![op.spec_byte()];
    assert(never_underflows(c, 1, d + op_effect(op.spec_byte())));
}

/// The stack effect from an offset only depends on the code from there on.
pub proof fn lemma_effect_shift(p: Seq<u8>, b: Seq<u8>, o: int)
    requires
        0 <= o <= b.len(),
    ensures
        stack_effect(p + b, p.len() + o) == stack_effect(b, o),
    decreases b.len() - o,
{
    let c = p + b;
    if o < b.len() {
        assert(c[p.len() + o] == b[o]);
        let next = o + op_size(b[o]);
        if next <= b.len() {
            lemma_effect_shift(p, b, next);
        }
    }
}

/// The stack effect of well-formed code followed by more code adds up.
pub proof fn lemma_effect_append(a: Seq<u8>, b: Seq<u8>, n: int, o: int)
    requires
        0 <= o <= a.len(),
        instrs_ok(a, n, o),
    ensures
        stack_effect(a + b, o) == stack_effect(a, o) + stack_effect(b, 0),
    decreases a.len() - o,
{
    let c = a + b;
    if o == a.len() {
        lemma_effect_shift(a, b, 0);
    } else {
        assert(c[o] == a[o]);
        lemma_effect_append(a, b, n, o + op_size(a[o]));
    }
}

/// Decoding well-formed code that continues past `a` passes through the end
/// of `a` when `a` itself decodes to its end.
pub proof fn lemma_instrs_through(a: Seq<u8>, d: Seq<u8>, n: int, o: int)
    requires
        0 <= o <= a.len(),
        instrs_ok(a, n, o),
        instrs_ok(a + d, n, o),
    ensures
        instrs_ok(a + d, n, a.len() as int),
    decreases a.len() - o,
{
    let c = a + d;
    if o < a.len() {
        assert(c[o] == a[o]);
        lemma_instrs_through(a, d, n, o + op_size(a[o]));
    }
}

/// The code that loads a constant pushes one value.
pub proof fn lemma_constant_code_effect(index: int)
    ensures
        stack_effect(constant_code(index), 0) == 1,
{
    let c = constant_code(index);
    lemma_opcode_roundtrip(OpType::Constant);
    lemma_opcode_roundtrip(OpType::ConstantLong);
    assert(stack_effect(c, c.len() as int) == 0);
}

/// A single instruction without operands has its own effect.
pub proof fn lemma_simple_op_effect(op: OpType)
    requires
        op != OpType::Constant,
        op != OpType::ConstantLong,
    ensures
        stack_effect(seq![op.spec_byte()], 0) == op_effect(op.spec_byte()),
{
    let c = seq![op.spec_byte()];
    assert(stack_effect(c, 1) == 0);
}

/// Well-formed code stays well formed when constants are added.
pub proof fn lemma_instrs_more_consts(code: Seq<u8>, n: int, n2: int, o: int)
    requires
        n <= n2,
        0 <= o,
        instrs_ok(code, n, o),
    ensures
        instrs_ok(code, n2, o),
    decreases code.len() - o,
{
    if o < code.len() {
        let op = code[o];
        if op == OpType::Constant.spec_byte() {
            lemma_instrs_more_consts(code, n, n2, o + 2);
        } else if op == OpType::ConstantLong.spec_byte() {
            lemma_instrs_more_consts(code, n, n2, o + 4);
        } else {
            lemma_instrs_more_consts(code, n, n2, o + 1);
        }
    }
}

/// Bytecode with its constants and line table.
#[derive(Debug)]
pub struct Chunk {
    code: Vec<u8>,
    constants: Vec<Value>,
    lines: LineTracker,
}

impl Chunk {
    /// The instruction bytes.
    pub closed spec fn code_view(&self) -> Seq<u8> {
        self.code@
    }

    /// The constant pool.
    pub closed spec fn constants_view(&self) -> Seq<ValueView> {
        self.constants@.map_values(|v: Value| v@)
    }

    /// The source line of each instruction byte.
    pub closed spec fn lines_view(&self) -> Seq<usize> {
        self.lines@
    }

    /// Every byte has a line; every chunk keeps this.
    #[verifier::type_invariant]
    pub closed spec fn wf(&self) -> bool {
        &&& self.lines@.len() == self.code@.len()
        &&& self.code@.len() < usize::MAX
    }

    /// What well-formedness tells about the views.
    pub proof fn lemma_wf(&self)
        requires
            self.wf(),
        ensures
            self.code_view().len() < usize::MAX,
            self.lines_view().len() == self.code_view().len(),
    {
    }

    /// An empty chunk.
    pub fn new() -> (c: Chunk)
        ensures
            c.code_view() == Seq::<u8>::empty(),
            c.constants_view() == Seq::<ValueView>::empty(),
            c.lines_view() == Seq::<usize>::empty(),
    {
        let c = Chunk { code: Vec::new(), constants: Vec::new(), lines: LineTracker::new() };
        proof {
            assert(c.constants@.map_values(|v: Value| v@) =~= Seq::<ValueView>::empty());
        }
        c
    }

    /// Appends one byte written for source line `line`.
    pub fn write_byte(&mut self, byte: u8, line: usize)
        requires
            old(self).code_view().len() + 1 < usize::MAX,
        ensures
            final(self).code_view() == old(self).code_view().push(byte),
            final(self).lines_view() == old(self).lines_view().push(line),
            final(self).constants_view() == old(self).constants_view(),
    {
        proof {
            use_type_invariant(&*self);
        }
        let mut c = Chunk::new();
        std::mem::swap(&mut c, self);
        let Chunk { mut code, constants, mut lines } = c;
        code.push(byte);
        lines.push(line);
        *self = Chunk { code, constants, lines };
    }

    /// Appends the opcode of `op_code`.
    pub fn write_op(&mut self, op_code: OpType, line: usize)
        requires
            old(self).code_view().len() + 1 < usize::MAX,
        ensures
            final(self).code_view() == old(self).code_view().push(op_code.spec_byte()),
            final(self).lines_view() == old(self).lines_view().push(line),
            final(self).constants_view() == old(self).constants_view(),
    {
        self.write_byte(op_code.to_byte(), line);
    }

    /// Adds `value` to the pool and appends the instruction that loads it.
    /// A chunk holds at most `MAX_CONSTANTS` constants.
    pub fn write_constant(&mut self, value: Value, line: usize)
        requires
            old(self).constants_view().len() < MAX_CONSTANTS,
            old(self).code_view().len() + constant_code(old(self).constants_view().len() as int).len()
                < usize::MAX,
        ensures
            final(self).constants_view() == old(self).constants_view().push(value@),
            final(self).code_view() == old(self).code_view() + constant_code(
                old(self).constants_view().len() as int,
            ),
            final(self).lines_view() == old(self).lines_view() + Seq::new(
                constant_code(old(self).constants_view().len() as int).len(),
                |_i: int| line,
            ),
    {
        proof {
            use_type_invariant(&*self);
        }
        let ghost old_code = self.code@;
        let ghost old_lines = self.lines@;
        let ghost old_consts = self.constants_view();
        let mut c = Chunk::new();
        std::mem::swap(&mut c, self);
        let Chunk { code, mut constants, lines } = c;
        constants.push(value);
        let index = (constants.len() - 1) as u32;
        *self = Chunk { code, constants, lines };
        proof {
            assert(self.constants@.map_values(|v: Value| v@) =~= old_consts.push(value@));
        }
        if index <= 0xFF {
            self.write_op(OpType::Constant, line);
            self.write_byte(index as u8, line);
            proof {
                assert(self.code@ =~= old_code + constant_code(index as int));
                assert(self.lines@ =~= old_lines + Seq::new(2, |_i: int| line));
            }
        } else {
            self.write_op(OpType::ConstantLong, line);
            let b1 = (index & 0xFF) as u8;
            let b2 = ((index >> 8) & 0xFF) as u8;
            let b3 = ((index >> 16) & 0xFF) as u8;
            proof {
                assert(b1 == index % 0x100) by (bit_vector)
                    requires
                        b1 == (index & 0xFF) as u8,
                ;
                assert(b2 == (index / 0x100) % 0x100) by (bit_vector)
                    requires
                        b2 == ((index >> 8) & 0xFF) as u8,
                ;
                assert(b3 == (index / 0x1_0000) % 0x100) by (bit_vector)
                    requires
                        b3 == ((index >> 16) & 0xFF) as u8,
                ;
            }
            self.write_byte(b1, line);
            self.write_byte(b2, line);
            self.write_byte(b3, line);
            proof {
                assert(self.code@ =~= old_code + constant_code(index as int));
                assert(self.lines@ =~= old_lines + Seq::new(4, |_i: int| line));
            }
        }
    }

    /// The constant at `index`, if the pool has one there.
    pub fn value_at(&self, index: usize) -> (r: Option<Value>)
        ensures
            r.is_some() == (index < self.constants_view().len()),
            r matches Some(v) ==> v@ == self.constants_view()[index as int],
    {
        if index < self.constants.len() {
            Some(self.constants[index].clone())
        } else {
            None
        }
    }

    /// The instruction bytes.
    pub fn code(&self) -> (c: &[u8])
        ensures
            c@ == self.code_view(),
    {
        self.code.as_slice()
    }

    /// The constant pool.
    pub fn get_constant(&self) -> (c: &[Value])
        ensures
            c@.map_values(|v: Value| v@) == self.constants_view(),
    {
        self.constants.as_slice()
    }

    /// The source line of the byte at `offset`, or `None` past the end.
    pub fn line_at(&self, offset: usize) -> (r: Option<usize>)
        ensures
            r == if offset < self.code_view().len() {
                Some(self.lines_view()[offset as int])
            } else {
                None::<usize>
            },
    {
        proof {
            use_type_invariant(self);
        }
        self.lines.line_at(offset)
    }
}

} // verus!
