//! Decoding a chunk into a listing, one instruction at a time. What the
//! listing says is decided here; laying it out as text is left to the caller.
use vstd::prelude::*;
use crate::bytecode::chunk::{Chunk, OpType, long_index, instrs_ok, op_size};
use crate::bytecode::value::{Value, ValueView};

verus! {

/// Width of the `=` header around a listing.
pub const HEADER_LENGTH: usize = 20;

/// How the line column of a listing row reads.
#[derive(Clone, Copy, Debug, PartialEq, Eq, Structural)]
pub enum LineMark {
    /// Same line as the byte before: printed as `|`.
    Same,
    Line(usize),
    /// The byte has no line: printed as `?`.
    Unknown,
}

/// What a listing row says about the instruction.
#[derive(Debug, PartialEq)]
#[allow(inconsistent_fields)]
pub enum Listing {
    /// An instruction without operands.
    Simple { name: &'static str },
    /// A short constant load, its pool index and the constant.
    Constant { name: &'static str, index: usize, value: Value },
    /// A short constant load whose operand byte is missing: nothing more is shown.
    ConstantCut { name: &'static str },
    /// A long constant load, its pool index and, if the pool has it, the constant.
    ConstantLong { name: &'static str, index: usize, value: Option<Value> },
    /// A byte that the listing does not know.
    Unknown { opcode: u8 },
}

/// One row of a listing: where the instruction is, its line, what it is and
/// where the next one starts.
#[derive(Debug, PartialEq)]
pub struct Disassembly {
    pub offset: usize,
    pub line: LineMark,
    pub listing: Listing,
    pub next: usize,
}

/// The name under which the listing shows an instruction without operands.
pub open spec fn simple_name(op: u8) -> Option<Seq<char>> {
    if op == OpType::Return.spec_byte() {
        Some("OP_RETURN"@)
    } else if op == OpType::Divide.spec_byte() {
        Some("OP_DIVIDE"@)
    } else if op == OpType::Multiply.spec_byte() {
        Some("OP_MULTIPLY"@)
    } else if op == OpType::Negate.spec_byte() {
        Some("OP_NEGATE"@)
    } else if op == OpType::Subtract.spec_byte() {
        Some("OP_SUBTRACT"@)
    } else if op == OpType::Add.spec_byte() {
        Some("OP_ADD"@)
    } else if op == OpType::Stringify.spec_byte() {
        Some("OP_STRINGIFY"@)
    } else {
        None
    }
}

pub open spec fn spec_line_mark(lines: Seq<usize>, offset: int) -> LineMark {
    if 0 <= offset < lines.len() {
        if offset > 0 && lines[offset - 1] == lines[offset] {
            LineMark::Same
        } else {
            LineMark::Line(lines[offset])
        }
    } else {
        LineMark::Unknown
    }
}

/// The row at `offset` can be listed: there is an opcode, a short constant
/// load that has its operand names a constant of the pool, and a long one has
/// all three operand bytes.
pub open spec fn listable(code: Seq<u8>, consts: Seq<ValueView>, offset: int) -> bool {
    &&& 0 <= offset < code.len()
    &&& (code[offset] == OpType::Constant.spec_byte() && offset + 1 < code.len()) ==> code[offset
        + 1] < consts.len()
    &&& code[offset] == OpType::ConstantLong.spec_byte() ==> offset + 3 < code.len()
}

/// Every row met when listing from `offset` to the end can be listed.
pub open spec fn listable_from(code: Seq<u8>, consts: Seq<ValueView>, offset: int) -> bool
    decreases code.len() - offset,
{
    if offset < 0 || offset >= code.len() {
        true
    } else {
        listable(code, consts, offset) && (offset + op_size(code[offset]) >= code.len()
            || listable_from(code, consts, offset + op_size(code[offset])))
    }
}

/// The row for the instruction at `offset` is as described: it fixes the
/// variant and every field.
pub open spec fn describes(chunk: &Chunk, offset: int, d: &Disassembly) -> bool {
    let code = chunk.code_view();
    let consts = chunk.constants_view();
    let op = code[offset];
    &&& d.offset == offset
    &&& d.next == offset + op_size(op)
    &&& d.line == spec_line_mark(chunk.lines_view(), offset)
    &&& match d.listing {
        Listing::Simple { name } => simple_name(op) == Some(name@),
        Listing::Constant { name, index, value } => {
            &&& op == OpType::Constant.spec_byte()
            &&& offset + 1 < code.len()
            &&& index == code[offset + 1]
            &&& value@ == consts[index as int]
            &&& name@ == "OP_CONSTANT"@
        },
        Listing::ConstantCut { name } => {
            &&& op == OpType::Constant.spec_byte()
            &&& offset + 1 >= code.len()
            &&& name@ == "OP_CONSTANT"@
        },
        Listing::ConstantLong { name, index, value } => {
            &&& op == OpType::ConstantLong.spec_byte()
            &&& index == long_index(code[offset + 1], code[offset + 2], code[offset + 3])
            &&& value.is_some() == (index < consts.len())
            &&& (value matches Some(v) ==> v@ == consts[index as int])
            &&& name@ == "OP_CONSTANT_LONG"@
        },
        Listing::Unknown { opcode } => {
            &&& opcode == op
            &&& simple_name(op) is None
            &&& op != OpType::Constant.spec_byte()
            &&& op != OpType::ConstantLong.spec_byte()
        },
    }
}

/// An instruction without operands is listed under `OP_` followed by its own
/// name, so that different instructions are never listed alike.
pub proof fn lemma_listed_names(chunk: &Chunk, offset: int, d: &Disassembly)
    requires
        0 <= offset < chunk.code_view().len(),
        describes(chunk, offset, d),
    ensures
        ({
            let op = chunk.code_view()[offset];
            d.listing matches Listing::Simple { name } ==> {
                &&& op == OpType::Return.spec_byte() ==> name@ == "OP_RETURN"@
                &&& op == OpType::Negate.spec_byte() ==> name@ == "OP_NEGATE"@
                &&& op == OpType::Add.spec_byte() ==> name@ == "OP_ADD"@
                &&& op == OpType::Subtract.spec_byte() ==> name@ == "OP_SUBTRACT"@
                &&& op == OpType::Multiply.spec_byte() ==> name@ == "OP_MULTIPLY"@
                &&& op == OpType::Divide.spec_byte() ==> name@ == "OP_DIVIDE"@
                &&& op == OpType::Stringify.spec_byte() ==> name@ == "OP_STRINGIFY"@
            }
        }),
{
}

/// The name a simple instruction is listed under tells which instruction it
/// is: no two opcodes share a name.
pub proof fn lemma_listed_names_distinct(x: u8, y: u8)
    requires
        simple_name(x) is Some,
        simple_name(x) == simple_name(y),
    ensures
        x == y,
{
    reveal_strlit("OP_RETURN");
    reveal_strlit("OP_NEGATE");
    reveal_strlit("OP_ADD");
    reveal_strlit("OP_SUBTRACT");
    reveal_strlit("OP_MULTIPLY");
    reveal_strlit("OP_DIVIDE");
    reveal_strlit("OP_STRINGIFY");
    assert("OP_RETURN"@.len() == 9 && "OP_RETURN"@[3] == 'R');
    assert("OP_NEGATE"@.len() == 9 && "OP_NEGATE"@[3] == 'N');
    assert("OP_DIVIDE"@.len() == 9 && "OP_DIVIDE"@[3] == 'D');
    assert("OP_ADD"@.len() == 6);
    assert("OP_SUBTRACT"@.len() == 11 && "OP_SUBTRACT"@[3] == 'S');
    assert("OP_MULTIPLY"@.len() == 11 && "OP_MULTIPLY"@[3] == 'M');
    assert("OP_STRINGIFY"@.len() == 12);
}

/// Code made of complete instructions with valid constant operands, such as
/// every chunk the compiler produces, can be listed from start to end.
pub proof fn lemma_well_formed_listable(code: Seq<u8>, consts: Seq<ValueView>, o: int)
    requires
        0 <= o,
        instrs_ok(code, consts.len() as int, o),
    ensures
        listable_from(code, consts, o),
    decreases code.len() - o,
{
    if o < code.len() {
        let op = code[o];
        if op == OpType::Constant.spec_byte() {
            lemma_well_formed_listable(code, consts, o + 2);
        } else if op == OpType::ConstantLong.spec_byte() {
            lemma_well_formed_listable(code, consts, o + 4);
        } else {
            lemma_well_formed_listable(code, consts, o + 1);
        }
    }
}

fn simple_instruction(name: &'static str) -> (l: Listing)
    ensures
        l == (Listing::Simple { name }),
{
    Listing::Simple { name }
}

fn constant_instruction(name: &'static str, chunk: &Chunk, offset: usize) -> (l: Listing)
    requires
        listable(chunk.code_view(), chunk.constants_view(), offset as int),
        chunk.code_view()[offset as int] == OpType::Constant.spec_byte(),
    ensures
        match l {
            Listing::Constant { name: n, index, value } => {
                &&& n == name
                &&& offset + 1 < chunk.code_view().len()
                &&& index == chunk.code_view()[offset + 1]
                &&& value@ == chunk.constants_view()[index as int]
            },
            Listing::ConstantCut { name: n } => n == name && offset + 1 >= chunk.code_view().len(),
            _ => false,
        },
{
    let code = chunk.code();
    proof {
        use_type_invariant(chunk);
        chunk.lemma_wf();
    }
    if offset + 1 < code.len() {
        let constant = code[offset + 1];
        match chunk.value_at(constant as usize) {
            Some(value) => Listing::Constant { name, index: constant as usize, value },
            None => Listing::ConstantCut { name },
        }
    } else {
        Listing::ConstantCut { name }
    }
}

fn constant_long_instruction(name: &'static str, chunk: &Chunk, offset: usize) -> (l: Listing)
    requires
        offset + 3 < chunk.code_view().len(),
    ensures
        match l {
            Listing::ConstantLong { name: n, index, value } => {
                let code = chunk.code_view();
                &&& n == name
                &&& index == long_index(code[offset + 1], code[offset + 2], code[offset + 3])
                &&& value.is_some() == (index < chunk.constants_view().len())
                &&& (value matches Some(v) ==> v@ == chunk.constants_view()[index as int])
            },
            _ => false,
        },
{
    let code = chunk.code();
    proof {
        use_type_invariant(chunk);
        chunk.lemma_wf();
    }
    let mut constant_index: u32 = 0;
    constant_index = constant_index | (code[offset + 1] as u32);
    constant_index = constant_index | ((code[offset + 2] as u32) << 8);
    constant_index = constant_index | ((code[offset + 3] as u32) << 16);
    let b1 = code[offset + 1];
    let b2 = code[offset + 2];
    let b3 = code[offset + 3];
    proof {
        assert(((0u32 | (b1 as u32)) | ((b2 as u32) << 8)) | ((b3 as u32) << 16) == b1 + b2 * 0x100u32
            + b3 * 0x1_0000u32) by (bit_vector);
    }
    let value = chunk.value_at(constant_index as usize);
    Listing::ConstantLong { name, index: constant_index as usize, value }
}

/// The listing row for the instruction at `offset`.
pub fn disassemble_instruction(chunk: &Chunk, offset: usize) -> (d: Disassembly)
    requires
        listable(chunk.code_view(), chunk.constants_view(), offset as int),
    ensures
        describes(chunk, offset as int, &d),
{
    proof {
        use_type_invariant(chunk);
        chunk.lemma_wf();
    }
    let line = chunk.line_at(offset);
    let prev_line = if offset > 0 {
        chunk.line_at(offset - 1)
    } else {
        None
    };
    let mark = match (line, prev_line) {
        (Some(l), Some(pl)) => if l == pl {
            LineMark::Same
        } else {
            LineMark::Line(l)
        },
        (Some(l), _) => LineMark::Line(l),
        (None, _) => LineMark::Unknown,
    };
    let instruction: u8 = chunk.code()[offset];
    let (listing, len) = match OpType::from_byte(instruction) {
        Some(OpType::Return) => (simple_instruction("OP_RETURN"), 1),
        Some(OpType::Constant) => (constant_instruction("OP_CONSTANT", chunk, offset), 2),
        Some(OpType::ConstantLong) => (
            constant_long_instruction("OP_CONSTANT_LONG", chunk, offset),
            4,
        ),
        Some(OpType::Divide) => (simple_instruction("OP_DIVIDE"), 1),
        Some(OpType::Multiply) => (simple_instruction("OP_MULTIPLY"), 1),
        Some(OpType::Negate) => (simple_instruction("OP_NEGATE"), 1),
        Some(OpType::Subtract) => (simple_instruction("OP_SUBTRACT"), 1),
        Some(OpType::Add) => (simple_instruction("OP_ADD"), 1),
        Some(OpType::Stringify) => (simple_instruction("OP_STRINGIFY"), 1),
        _ => (Listing::Unknown { opcode: instruction }, 1),
    };
    Disassembly { offset, line: mark, listing, next: offset + len }
}

/// The listing of the whole chunk, row by row.
pub fn disassemble_chunk(chunk: &Chunk) -> (rows: Vec<Disassembly>)
    requires
        listable_from(chunk.code_view(), chunk.constants_view(), 0),
    ensures
        forall|i: int| 0 <= i < rows@.len() ==> describes(chunk, rows@[i].offset as int, &rows@[i]),
        rows@.len() > 0 ==> rows@[0].offset == 0,
        forall|i: int| 0 <= i < rows@.len() - 1 ==> #[trigger] rows@[i + 1].offset == rows@[i].next,
        rows@.len() == 0 <==> chunk.code_view().len() == 0,
        rows@.len() > 0 ==> rows@.last().next >= chunk.code_view().len(),
        forall|i: int| 0 <= i < rows@.len() ==> #[trigger] rows@[i].offset < chunk.code_view().len(),
{
    let mut rows: Vec<Disassembly> = Vec::new();
    let mut offset: usize = 0;
    let ghost code = chunk.code_view();
    let ghost consts = chunk.constants_view();
    while offset < chunk.code().len()
        invariant
            code == chunk.code_view(),
            consts == chunk.constants_view(),
            listable_from(code, consts, offset as int),
            forall|i: int| 0 <= i < rows@.len() ==> describes(chunk, rows@[i].offset as int, &rows@[i]),
            rows@.len() > 0 ==> rows@[0].offset == 0,
            forall|i: int| 0 <= i < rows@.len() - 1 ==> #[trigger] rows@[i + 1].offset == rows@[i].next,
            rows@.len() == 0 ==> offset == 0,
            rows@.len() > 0 ==> rows@.last().next == offset,
            forall|i: int| 0 <= i < rows@.len() ==> #[trigger] rows@[i].offset < code.len(),
        decreases code.len() + 4 - offset,
    {
        let d = disassemble_instruction(chunk, offset);
        offset = d.next;
        rows.push(d);
    }
    rows
}

} // verus!
