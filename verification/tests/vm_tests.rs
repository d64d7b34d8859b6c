use rlox::bytecode::chunk::{Chunk, OpType};
use rlox::bytecode::value::{Evaluated, Num, NumericOp, Value};
use rlox::compiler::compile::compile;
use rlox::runtime::error::{Operator, RuntimeError, ValueType};
use rlox::runtime::machine::{report_runtime_error, Step, Vm};

fn num(n: &Num) -> f64 {
    match n {
        Num::Literal(s) => s.parse().unwrap(),
        Num::Bits(b) => f64::from_bits(*b),
    }
}

fn number(x: f64) -> Value {
    Value::Number(Num::Bits(x.to_bits()))
}

fn perform(op: NumericOp) -> Value {
    match op {
        NumericOp::Negate(a) => number(-num(&a)),
        NumericOp::Add(a, b) => number(num(&a) + num(&b)),
        NumericOp::Subtract(a, b) => number(num(&a) - num(&b)),
        NumericOp::Multiply(a, b) => number(num(&a) * num(&b)),
        NumericOp::Divide(a, b) => number(num(&a) / num(&b)),
        NumericOp::Stringify(a) => Value::String(format!("{}", num(&a))),
    }
}

fn run_chunk(chunk: &Chunk) -> Result<Value, RuntimeError> {
    let mut vm = Vm::new();
    vm.reset();
    loop {
        assert!(vm.ip() < chunk.code().len());
        match vm.step(chunk)? {
            Step::Continue => {}
            Step::Halt(v) => return Ok(v),
            Step::Numeric(op) => vm.push(perform(op)),
        }
    }
}

fn run(src: &str) -> Result<Value, RuntimeError> {
    let chunk = compile(src).unwrap();
    run_chunk(&chunk)
}

fn as_f64(v: &Value) -> f64 {
    match v {
        Value::Number(n) => num(n),
        other => panic!("not a number: {:?}", other),
    }
}

#[test]
fn arithmetic() {
    assert_eq!(as_f64(&run("1 + 2 * 3").unwrap()), 7.0);
    assert_eq!(as_f64(&run("(1 + 2) * 3").unwrap()), 9.0);
    assert_eq!(as_f64(&run("-4 / 2 - 1").unwrap()), -3.0);
    assert_eq!(as_f64(&run("1.5").unwrap()), 1.5);
}

#[test]
fn literal_values() {
    assert_eq!(run("true").unwrap(), Value::Boolean(true));
    assert_eq!(run("false").unwrap(), Value::Boolean(false));
    assert_eq!(run("nil").unwrap(), Value::Nil);
}

#[test]
fn string_concatenation() {
    assert_eq!(run("\"ab\" + \"cd\"").unwrap(), Value::String("abcd".to_string()));
}

#[test]
fn interpolation_runs() {
    assert_eq!(run("\"x${1 + 2}y\"").unwrap(), Value::String("x3y".to_string()));
    assert_eq!(run("\"${true} and ${nil}\"").unwrap(), Value::String("true and nil".to_string()));
    assert_eq!(run("\"<${\"in\"}>\"").unwrap(), Value::String("<in>".to_string()));
    assert_eq!(run("\"\"").unwrap(), Value::String(String::new()));
}

#[test]
fn type_errors() {
    assert_eq!(
        run("1 + true"),
        Err(RuntimeError::BinaryTypeError { op: Operator::Add, a: ValueType::Number, b: ValueType::Boolean, ip: 3 })
    );
    assert_eq!(
        run("\"a\" - \"b\""),
        Err(RuntimeError::BinaryTypeError { op: Operator::Subtract, a: ValueType::String, b: ValueType::String, ip: 4 })
    );
    assert_eq!(
        run("-nil"),
        Err(RuntimeError::UnaryTypeError { op: Operator::Negate, got: ValueType::Nil, ip: 1 })
    );
}

#[test]
fn stack_underflow_on_return() {
    let mut c = Chunk::new();
    c.write_op(OpType::Return, 1);
    assert_eq!(run_chunk(&c), Err(RuntimeError::StackUnderflow { needed: 1, found: 0, ip: 1 }));
}

#[test]
fn stack_underflow_on_binary_with_one_operand() {
    let mut c = Chunk::new();
    c.write_op(OpType::True, 1);
    c.write_op(OpType::Add, 1);
    assert_eq!(run_chunk(&c), Err(RuntimeError::StackUnderflow { needed: 1, found: 0, ip: 2 }));
}

#[test]
fn bad_constant_index() {
    let mut c = Chunk::new();
    c.write_op(OpType::Constant, 1);
    c.write_byte(5, 1);
    assert_eq!(run_chunk(&c), Err(RuntimeError::BadConstantIndex { index: 5, ip: 0 }));
}

#[test]
fn long_constant_is_not_run() {
    let mut c = Chunk::new();
    c.write_op(OpType::ConstantLong, 1);
    c.write_byte(0, 1);
    c.write_byte(0, 1);
    c.write_byte(0, 1);
    assert_eq!(run_chunk(&c), Err(RuntimeError::InvalidOpCode { opcode: 2, ip: 0 }));
}

#[test]
fn unknown_opcode() {
    let mut c = Chunk::new();
    c.write_byte(200, 3);
    let err = run_chunk(&c).unwrap_err();
    assert_eq!(err, RuntimeError::InvalidOpCode { opcode: 200, ip: 0 });
    assert_eq!(report_runtime_error(&c, &err), "[runtime error] line 3 @ ip 0: Invalid opcode 200 at ip 0");
}

#[test]
fn step_by_step_state() {
    let chunk = compile("\"a\" + \"b\"").unwrap();
    let mut vm = Vm::new();
    assert_eq!(vm.step(&chunk), Ok(Step::Continue));
    assert_eq!(vm.ip(), 2);
    assert_eq!(vm.stack(), &[Value::String("a".to_string())]);
    assert_eq!(vm.step(&chunk), Ok(Step::Continue));
    assert_eq!(vm.step(&chunk), Ok(Step::Continue));
    assert_eq!(vm.stack(), &[Value::String("ab".to_string())]);
    assert_eq!(vm.step(&chunk), Ok(Step::Halt(Value::String("ab".to_string()))));
    assert_eq!(vm.stack().len(), 0);
}

#[test]
fn numeric_work_is_handed_out() {
    let chunk = compile("2 * 3").unwrap();
    let mut vm = Vm::new();
    vm.step(&chunk).unwrap();
    vm.step(&chunk).unwrap();
    let s = vm.step(&chunk).unwrap();
    assert_eq!(
        s,
        Step::Numeric(NumericOp::Multiply(Num::Literal("2".to_string()), Num::Literal("3".to_string())))
    );
    assert_eq!(vm.stack().len(), 0);
}

#[test]
fn runtime_error_report_uses_line_of_ip() {
    let chunk = compile("1 +\n  true").unwrap();
    let err = run_chunk(&chunk).unwrap_err();
    assert_eq!(err.ip(), 3);
    assert_eq!(
        report_runtime_error(&chunk, &err),
        "[runtime error] line 2 @ ip 3: Type error at ip 3: + expected number(s), got number and boolean"
    );
}

#[test]
fn runtime_error_messages() {
    assert_eq!(
        RuntimeError::StackUnderflow { needed: 1, found: 0, ip: 10 }.message(),
        "Stack underflow at ip 10 (needed 1, found 0)"
    );
    assert_eq!(
        RuntimeError::BadConstantIndex { index: 42, ip: 7 }.message(),
        "Constant index out of range at ip 7 (index 42)"
    );
    assert_eq!(
        RuntimeError::UnaryTypeError { op: Operator::Negate, got: ValueType::String, ip: 0 }.message(),
        "Type error at ip 0: negate expected number, got string"
    );
    assert_eq!(RuntimeError::InvalidOpCode { opcode: 9, ip: 123456 }.ip(), 123456);
}

#[test]
fn value_operations() {
    assert_eq!(Value::Nil.name_of_type(), "nil");
    assert_eq!(Value::Boolean(true).name_of_type(), "boolean");
    assert_eq!(text("s").name_of_type(), "string");
    assert_eq!(number(1.0).name_of_type(), "number");
    assert_eq!(text("a").add(text("b"), 0), Ok(Evaluated::Done(text("ab"))));
    assert_eq!(
        text("a").mul(text("b"), 4),
        Err(RuntimeError::BinaryTypeError { op: Operator::Multiply, a: ValueType::String, b: ValueType::String, ip: 4 })
    );
    assert_eq!(
        Value::Nil.div(number(1.0), 2),
        Err(RuntimeError::BinaryTypeError { op: Operator::Divide, a: ValueType::Nil, b: ValueType::Number, ip: 2 })
    );
    assert_eq!(
        number(2.0).sub(number(1.0), 0),
        Ok(Evaluated::Numeric(NumericOp::Subtract(Num::Bits(2.0f64.to_bits()), Num::Bits(1.0f64.to_bits()))))
    );
    assert_eq!(number(2.0).negate(0), Ok(Evaluated::Numeric(NumericOp::Negate(Num::Bits(2.0f64.to_bits())))));
    assert_eq!(
        Value::Boolean(false).negate(9),
        Err(RuntimeError::UnaryTypeError { op: Operator::Negate, got: ValueType::Boolean, ip: 9 })
    );
}

fn text(s: &str) -> Value {
    Value::String(s.to_string())
}

#[test]
fn load_after_write() {
    let mut c = Chunk::new();
    c.write_op(OpType::Nil, 1);
    c.write_constant(text("k"), 1);
    let mut vm = Vm::new();
    assert_eq!(vm.step(&c), Ok(Step::Continue));
    assert_eq!(vm.step(&c), Ok(Step::Continue));
    assert_eq!(vm.ip(), 3);
    assert_eq!(vm.stack(), &[Value::Nil, text("k")]);
}

#[test]
fn compiled_chunk_runs_to_return() {
    let chunk = compile("\"n=${-2.5 * 2}\" + \"!\"").unwrap();
    assert_eq!(run_chunk(&chunk), Ok(text("n=-5!")));
}
