use rlox::bytecode::chunk::{Chunk, OpType};
use rlox::bytecode::value::Value;
use rlox::compiler::compile::compile;
use rlox::compiler::precedence::Precendence;
use rlox::debug::tracer::{disassemble_chunk, disassemble_instruction, LineMark, Listing};

#[test]
fn write_and_read_bytes() {
    let mut c = Chunk::new();
    c.write_op(OpType::Nil, 4);
    c.write_byte(77, 5);
    assert_eq!(c.code(), &[8, 77]);
    assert_eq!(c.line_at(0), Some(4));
    assert_eq!(c.line_at(1), Some(5));
    assert_eq!(c.line_at(2), None);
}

#[test]
fn constants_short_and_long_form() {
    let mut c = Chunk::new();
    for i in 0..257u32 {
        c.write_constant(Value::String(i.to_string()), 1);
    }
    let code = c.code();
    assert_eq!(&code[0..2], &[1, 0]);
    assert_eq!(&code[510..512], &[1, 255]);
    assert_eq!(&code[512..516], &[2, 0, 1, 0]);
    assert_eq!(c.value_at(256), Some(Value::String("256".to_string())));
    assert_eq!(c.value_at(257), None);
    assert_eq!(c.get_constant().len(), 257);
}

#[test]
fn opcodes_roundtrip() {
    let ops = [
        OpType::Return,
        OpType::Constant,
        OpType::ConstantLong,
        OpType::Negate,
        OpType::Add,
        OpType::Subtract,
        OpType::Multiply,
        OpType::Divide,
        OpType::Nil,
        OpType::True,
        OpType::False,
        OpType::Stringify,
    ];
    for (i, op) in ops.iter().enumerate() {
        assert_eq!(op.to_byte(), i as u8);
        assert_eq!(OpType::from_byte(i as u8), Some(*op));
    }
    assert_eq!(OpType::from_byte(12), None);
}

#[test]
fn precedence_next() {
    assert_eq!(Precendence::Lowest.next(), Precendence::Assignment);
    assert_eq!(Precendence::Term.next(), Precendence::Factor);
    assert_eq!(Precendence::Factor.next(), Precendence::Unary);
    assert_eq!(Precendence::Primary.next(), Precendence::Primary);
    assert!(Precendence::Assignment.le(&Precendence::Term));
    assert!(!Precendence::Factor.le(&Precendence::Term));
}

#[test]
fn listing_of_compiled_chunk() {
    let c = compile("1 +\n2").unwrap();
    let rows = disassemble_chunk(&c);
    assert_eq!(rows.len(), 4);
    assert_eq!(rows[0].offset, 0);
    assert_eq!(rows[0].line, LineMark::Line(1));
    assert_eq!(rows[0].listing, Listing::Constant { name: "OP_CONSTANT", index: 0, value: c.value_at(0).unwrap() });
    assert_eq!(rows[1].offset, 2);
    assert_eq!(rows[1].line, LineMark::Line(2));
    assert_eq!(rows[2].offset, 4);
    assert_eq!(rows[2].line, LineMark::Same);
    assert_eq!(rows[2].listing, Listing::Simple { name: "OP_ADD" });
    assert_eq!(rows[3].listing, Listing::Simple { name: "OP_RETURN" });
    assert_eq!(rows[3].next, 6);
}

#[test]
fn listing_of_odd_bytes() {
    let mut c = Chunk::new();
    c.write_op(OpType::True, 1);
    c.write_op(OpType::ConstantLong, 1);
    c.write_byte(3, 1);
    c.write_byte(0, 1);
    c.write_byte(0, 2);
    c.write_op(OpType::Constant, 2);
    let rows = disassemble_chunk(&c);
    assert_eq!(rows[0].listing, Listing::Unknown { opcode: 9 });
    assert_eq!(rows[1].listing, Listing::ConstantLong { name: "OP_CONSTANT_LONG", index: 3, value: None });
    assert_eq!(rows[1].next, 5);
    assert_eq!(rows[2].listing, Listing::ConstantCut { name: "OP_CONSTANT" });
    assert_eq!(rows[2].line, LineMark::Same);
    let one = disassemble_instruction(&c, 0);
    assert_eq!(one.next, 1);
}

#[test]
fn decimal_text() {
    let mut s = String::from("n=");
    rlox::text::push_decimal(&mut s, 0);
    assert_eq!(s, "n=0");
    let mut t = String::new();
    rlox::text::push_decimal(&mut t, 18446744073709551615);
    assert_eq!(t, "18446744073709551615");
    assert_eq!(rlox::text::chars_of("a☃b"), vec!['a', '☃', 'b']);
}
