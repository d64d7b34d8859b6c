//! The virtual machine. One call of `step` decodes and runs one instruction;
//! the work on floating-point numbers is handed back to the caller as a
//! `NumericOp`, whose result the caller pushes with `push`.
use vstd::prelude::*;
use crate::bytecode::chunk::{Chunk, OpType, constant_code, instrs_ok};
use crate::bytecode::value::{
    Value,
    ValueView,
    Num,
    NumericOp,
    NumericOpView,
    Evaluated,
    EvaluatedView,
    spec_binary,
    spec_negate,
};
use crate::runtime::error::{RuntimeError, Operator, runtime_message};
use crate::line::spec_line_at;
use crate::text::{push_decimal, push_str, decimal};

verus! {

/// What happened in one step.
#[derive(Debug, PartialEq)]
pub enum Step {
    /// The instruction ran; go on with the next one.
    Continue,
    /// `Return` popped this value; the program is done.
    Halt(Value),
    /// Number work to do; push its result and go on.
    Numeric(NumericOp),
}

pub enum StepView {
    Continue,
    Halt(ValueView),
    Numeric(NumericOpView),
}

impl View for Step {
    type V = StepView;

    open spec fn view(&self) -> StepView {
        match self {
            Step::Continue => StepView::Continue,
            Step::Halt(v) => StepView::Halt(v@),
            Step::Numeric(op) => StepView::Numeric(op@),
        }
    }
}

/// The state a step leaves: instruction pointer, stack, and its outcome.
pub type StepOutcome = (int, Seq<ValueView>, Result<StepView, RuntimeError>);

/// A step can run at `ip`: there is an opcode there, and the one-byte operand
/// of a `Constant` is there too.
pub open spec fn can_step(code: Seq<u8>, ip: int) -> bool {
    &&& 0 <= ip < code.len()
    &&& code[ip] == OpType::Constant.spec_byte() ==> ip + 1 < code.len()
}

pub open spec fn underflow(ip: int) -> RuntimeError {
    RuntimeError::StackUnderflow { needed: 1, found: 0, ip: ip as usize }
}

/// Applies the outcome of an operation whose operands are already off the stack.
pub open spec fn apply(ip: int, stack: Seq<ValueView>, r: Result<EvaluatedView, RuntimeError>) -> StepOutcome {
    match r {
        Ok(EvaluatedView::Done(v)) => (ip, stack.push(v), Ok(StepView::Continue)),
        Ok(EvaluatedView::Numeric(op)) => (ip, stack, Ok(StepView::Numeric(op))),
        Err(e) => (ip, stack, Err(e)),
    }
}

/// The text a non-number value turns into under `Stringify`.
pub open spec fn stringified(v: ValueView) -> Seq<char> {
    match v {
        ValueView::Boolean(b) => if b {
            "true"@
        } else {
            "false"@
        },
        ValueView::Str(s) => s,
        _ => "nil"@,
    }
}

/// What running the instruction at `ip` does to the instruction pointer and
/// the stack, and how it ends.
pub open spec fn spec_step(code: Seq<u8>, consts: Seq<ValueView>, ip: int, stack: Seq<ValueView>) -> StepOutcome {
    let op = code[ip];
    let next = ip + 1;
    if op == OpType::Return.spec_byte() {
        if stack.len() == 0 {
            (next, stack, Err(underflow(next)))
        } else {
            (next, stack.drop_last(), Ok(StepView::Halt(stack.last())))
        }
    } else if op == OpType::Constant.spec_byte() {
        let index = code[ip + 1];
        if index < consts.len() {
            (ip + 2, stack.push(consts[index as int]), Ok(StepView::Continue))
        } else {
            (ip + 2, stack, Err(RuntimeError::BadConstantIndex { index: index as usize, ip: ip as usize }))
        }
    } else if op == OpType::Negate.spec_byte() {
        if stack.len() == 0 {
            (next, stack, Err(underflow(next)))
        } else {
            apply(next, stack.drop_last(), spec_negate(stack.last(), ip))
        }
    } else if OpType::Add.spec_byte() <= op <= OpType::Divide.spec_byte() {
        let operator = if op == OpType::Add.spec_byte() {
            Operator::Add
        } else if op == OpType::Subtract.spec_byte() {
            Operator::Subtract
        } else if op == OpType::Multiply.spec_byte() {
            Operator::Multiply
        } else {
            Operator::Divide
        };
        if stack.len() == 0 {
            (next, stack, Err(underflow(next)))
        } else if stack.len() == 1 {
            (next, stack.drop_last(), Err(underflow(next)))
        } else {
            let n = stack.len();
            apply(next, stack.take(n - 2), spec_binary(operator, stack[n - 2], stack[n - 1], ip))
        }
    } else if op == OpType::Nil.spec_byte() {
        (next, stack.push(ValueView::Nil), Ok(StepView::Continue))
    } else if op == OpType::True.spec_byte() {
        (next, stack.push(ValueView::Boolean(true)), Ok(StepView::Continue))
    } else if op == OpType::False.spec_byte() {
        (next, stack.push(ValueView::Boolean(false)), Ok(StepView::Continue))
    } else if op == OpType::Stringify.spec_byte() {
        if stack.len() == 0 {
            (next, stack, Err(underflow(next)))
        } else {
            match stack.last() {
                ValueView::Number(n) => (next, stack.drop_last(), Ok(StepView::Numeric(NumericOpView::Stringify(n)))),
                v => (next, stack.drop_last().push(ValueView::Str(stringified(v))), Ok(StepView::Continue)),
            }
        }
    } else {
        (next, stack, Err(RuntimeError::InvalidOpCode { opcode: op, ip: ip as usize }))
    }
}

/// `Stringify` turns the value on top of the stack into its text in place: a
/// boolean into `true` or `false`, `nil` into `nil`, and a string stays as it
/// is; the machine moves to the next instruction and goes on.
pub proof fn lemma_stringify_text(
    code: Seq<u8>,
    consts: Seq<ValueView>,
    ip: int,
    stack: Seq<ValueView>,
    v: ValueView,
)
    requires
        0 <= ip < code.len(),
        code[ip] == OpType::Stringify.spec_byte(),
    ensures
        v matches ValueView::Boolean(b) ==> spec_step(code, consts, ip, stack.push(v)) == (
            ip + 1,
            stack.push(ValueView::Str(if b { "true"@ } else { "false"@ })),
            Ok::<StepView, RuntimeError>(StepView::Continue),
        ),
        v is Nil ==> spec_step(code, consts, ip, stack.push(v)) == (
            ip + 1,
            stack.push(ValueView::Str("nil"@)),
            Ok::<StepView, RuntimeError>(StepView::Continue),
        ),
        v is Str ==> spec_step(code, consts, ip, stack.push(v)) == (
            ip + 1,
            stack.push(v),
            Ok::<StepView, RuntimeError>(StepView::Continue),
        ),
{
    assert(stack.push(v).drop_last() =~= stack);
}

/// Loading a constant gives back what writing it put in the pool: after the
/// instruction that `write_constant` appends for a new constant, a step at
/// that instruction pushes the constant and moves past the instruction. This
/// holds for the first 256 constants of a chunk, which the short form loads.
pub proof fn lemma_load_after_write(
    code: Seq<u8>,
    consts: Seq<ValueView>,
    v: ValueView,
    stack: Seq<ValueView>,
)
    requires
        consts.len() <= 0xFF,
    ensures
        spec_step(code + constant_code(consts.len() as int), consts.push(v), code.len() as int, stack)
            == (code.len() + 2int, stack.push(v), Ok::<StepView, RuntimeError>(StepView::Continue)),
{
    let c = code + constant_code(consts.len() as int);
    assert(c[code.len() as int] == OpType::Constant.spec_byte());
    assert(c[code.len() + 1int] == consts.len() as u8);
}

/// In well-formed code, such as every chunk the compiler produces, each
/// instruction can be stepped, a constant load never misses the pool, and the
/// only opcode the machine rejects is the long constant form, which it does
/// not run.
pub proof fn lemma_well_formed_steps(code: Seq<u8>, consts: Seq<ValueView>, o: int, stack: Seq<ValueView>)
    requires
        0 <= o < code.len(),
        instrs_ok(code, consts.len() as int, o),
    ensures
        can_step(code, o),
        code[o] == OpType::Constant.spec_byte() ==> spec_step(code, consts, o, stack) == (
            o + 2,
            stack.push(consts[code[o + 1] as int]),
            Ok::<StepView, RuntimeError>(StepView::Continue),
        ),
        spec_step(code, consts, o, stack).2 matches Err(RuntimeError::InvalidOpCode { .. }) ==> code[o]
            == OpType::ConstantLong.spec_byte(),
        consts.len() <= 0x100 ==> !(spec_step(code, consts, o, stack).2 matches Err(
            RuntimeError::InvalidOpCode { .. },
        )),
{
}

/// The report of a runtime error: the source line of the offset it names (0
/// when the offset has no line), the offset and the error's text.
pub open spec fn runtime_report(lines: Seq<usize>, e: RuntimeError) -> Seq<char> {
    let line = match spec_line_at(lines, e.spec_ip() as int) {
        Some(l) => l,
        None => 0,
    };
    "[runtime error] line "@ + decimal(line as nat) + " @ ip "@ + decimal(e.spec_ip() as nat) + ": "@
        + runtime_message(e)
}

/// The report line of a runtime error in `chunk`.
pub fn report_runtime_error(chunk: &Chunk, err: &RuntimeError) -> (s: String)
    ensures
        s@ == runtime_report(chunk.lines_view(), *err),
{
    proof {
        use_type_invariant(chunk);
        chunk.lemma_wf();
    }
    let ip = err.ip();
    let line = match chunk.line_at(ip) {
        Some(l) => l,
        None => 0,
    };
    let mut s = String::new();
    push_str(&mut s, "[runtime error] line ");
    push_decimal(&mut s, line as u64);
    push_str(&mut s, " @ ip ");
    push_decimal(&mut s, ip as u64);
    push_str(&mut s, ": ");
    let m = err.message();
    push_str(&mut s, m.as_str());
    proof {
        assert(s@ =~= runtime_report(chunk.lines_view(), *err));
    }
    s
}

/// The virtual machine: an instruction pointer and a value stack.
#[derive(Debug, PartialEq)]
pub struct Vm {
    ip: usize,
    stack: Vec<Value>,
}

impl Vm {
    pub closed spec fn ip_view(&self) -> int {
        self.ip as int
    }

    pub closed spec fn stack_view(&self) -> Seq<ValueView> {
        self.stack@.map_values(|v: Value| v@)
    }

    /// A machine at offset 0 with an empty stack.
    pub fn new() -> (vm: Self)
        ensures
            vm.ip_view() == 0,
            vm.stack_view() == Seq::<ValueView>::empty(),
    {
        let vm = Vm { ip: 0, stack: Vec::new() };
        proof {
            assert(vm.stack@.map_values(|v: Value| v@) =~= Seq::<ValueView>::empty());
        }
        vm
    }

    /// Prepares a run: offset 0, empty stack.
    pub fn reset(&mut self)
        ensures
            final(self).ip_view() == 0,
            final(self).stack_view() == Seq::<ValueView>::empty(),
    {
        self.ip = 0;
        self.stack.clear();
        proof {
            assert(self.stack@.map_values(|v: Value| v@) =~= Seq::<ValueView>::empty());
        }
    }

    /// The offset of the next instruction.
    pub fn ip(&self) -> (r: usize)
        ensures
            r == self.ip_view(),
    {
        self.ip
    }

    /// The value stack, bottom first.
    pub fn stack(&self) -> (s: &[Value])
        ensures
            s@.map_values(|v: Value| v@) == self.stack_view(),
    {
        self.stack.as_slice()
    }

    /// Pushes a value, such as the result of number work.
    pub fn push(&mut self, value: Value)
        ensures
            final(self).ip_view() == old(self).ip_view(),
            final(self).stack_view() == old(self).stack_view().push(value@),
    {
        self.stack.push(value);
        proof {
            assert(self.stack@.map_values(|v: Value| v@) =~= old(self).stack_view().push(value@));
        }
    }

    fn read_byte(&mut self, chunk: &Chunk) -> (b: u8)
        requires
            0 <= old(self).ip_view() < chunk.code_view().len(),
        ensures
            b == chunk.code_view()[old(self).ip_view()],
            final(self).ip_view() == old(self).ip_view() + 1,
            final(self).stack_view() == old(self).stack_view(),
    {
        let b = chunk.code()[self.ip];
        self.ip = self.ip + 1;
        b
    }

    fn pop(&mut self) -> (r: Result<Value, RuntimeError>)
        ensures
            final(self).ip_view() == old(self).ip_view(),
            old(self).stack_view().len() == 0 ==> r == Err::<Value, RuntimeError>(underflow(old(self).ip_view()))
                && final(self).stack_view() == old(self).stack_view(),
            old(self).stack_view().len() > 0 ==> (r matches Ok(v) && v@ == old(self).stack_view().last()
                && final(self).stack_view() == old(self).stack_view().drop_last()),
    {
        let ghost s0 = self.stack_view();
        match self.stack.pop() {
            Some(v) => {
                proof {
                    assert(self.stack@.map_values(|v: Value| v@) =~= s0.drop_last());
                }
                Ok(v)
            },
            None => Err(RuntimeError::StackUnderflow { needed: 1, found: self.stack.len(), ip: self.ip }),
        }
    }

    fn pop2(&mut self) -> (r: Result<(Value, Value), RuntimeError>)
        ensures
            final(self).ip_view() == old(self).ip_view(),
            old(self).stack_view().len() == 0 ==> r == Err::<(Value, Value), RuntimeError>(underflow(old(self).ip_view()))
                && final(self).stack_view() == old(self).stack_view(),
            old(self).stack_view().len() == 1 ==> r == Err::<(Value, Value), RuntimeError>(underflow(old(self).ip_view()))
                && final(self).stack_view() == old(self).stack_view().drop_last(),
            old(self).stack_view().len() >= 2 ==> (r matches Ok((a, b))
                && a@ == old(self).stack_view()[old(self).stack_view().len() - 2]
                && b@ == old(self).stack_view()[old(self).stack_view().len() - 1]
                && final(self).stack_view() == old(self).stack_view().take(old(self).stack_view().len() - 2)),
    {
        let ghost s0 = self.stack_view();
        let b = self.pop()?;
        let a = self.pop()?;
        proof {
            assert(s0.drop_last().drop_last() =~= s0.take(s0.len() - 2));
        }
        Ok((a, b))
    }

    /// Hands the outcome of an operation to the stack and the caller.
    fn finish(&mut self, r: Result<Evaluated, RuntimeError>) -> (out: Result<Step, RuntimeError>)
        ensures
            ({
                let r_view = match r {
                    Ok(e) => Ok::<EvaluatedView, RuntimeError>(e@),
                    Err(e) => Err(e),
                };
                let o = apply(old(self).ip_view(), old(self).stack_view(), r_view);
                &&& final(self).ip_view() == o.0
                &&& final(self).stack_view() == o.1
                &&& match out {
                    Ok(s) => o.2 == Ok::<StepView, RuntimeError>(s@),
                    Err(e) => o.2 == Err::<StepView, RuntimeError>(e),
                }
            }),
    {
        match r {
            Ok(Evaluated::Done(v)) => {
                self.push(v);
                Ok(Step::Continue)
            },
            Ok(Evaluated::Numeric(op)) => Ok(Step::Numeric(op)),
            Err(e) => Err(e),
        }
    }

    fn binary_op(&mut self, ip: usize, op: Operator) -> (out: Result<Step, RuntimeError>)
        requires
            op != Operator::Negate,
        ensures
            ({
                let s = old(self).stack_view();
                let n = s.len();
                let here = old(self).ip_view();
                let o: StepOutcome = if n == 0 {
                    (here, s, Err(underflow(here)))
                } else if n == 1 {
                    (here, s.drop_last(), Err(underflow(here)))
                } else {
                    apply(here, s.take(n - 2), spec_binary(op, s[n - 2], s[n - 1], ip as int))
                };
                &&& final(self).ip_view() == o.0
                &&& final(self).stack_view() == o.1
                &&& match out {
                    Ok(st) => o.2 == Ok::<StepView, RuntimeError>(st@),
                    Err(e) => o.2 == Err::<StepView, RuntimeError>(e),
                }
            }),
    {
        let (a, b) = self.pop2()?;
        let r = match op {
            Operator::Add => a.add(b, ip),
            Operator::Subtract => a.sub(b, ip),
            Operator::Multiply => a.mul(b, ip),
            _ => a.div(b, ip),
        };
        self.finish(r)
    }

    fn stringify(&mut self) -> (out: Result<Step, RuntimeError>)
        ensures
            ({
                let s = old(self).stack_view();
                let here = old(self).ip_view();
                let o: StepOutcome = if s.len() == 0 {
                    (here, s, Err(underflow(here)))
                } else {
                    match s.last() {
                        ValueView::Number(n) => (here, s.drop_last(), Ok(StepView::Numeric(NumericOpView::Stringify(n)))),
                        v => (here, s.drop_last().push(ValueView::Str(stringified(v))), Ok(StepView::Continue)),
                    }
                };
                &&& final(self).ip_view() == o.0
                &&& final(self).stack_view() == o.1
                &&& match out {
                    Ok(st) => o.2 == Ok::<StepView, RuntimeError>(st@),
                    Err(e) => o.2 == Err::<StepView, RuntimeError>(e),
                }
            }),
    {
        let value = self.pop()?;
        let text = match value {
            Value::Number(n) => {
                return Ok(Step::Numeric(NumericOp::Stringify(n)));
            },
            Value::Boolean(b) => if b {
                String::from_str("true")
            } else {
                String::from_str("false")
            },
            Value::String(s) => s,
            Value::Nil => String::from_str("nil"),
        };
        self.push(Value::String(text));
        Ok(Step::Continue)
    }

    /// Runs the instruction at the instruction pointer.
    pub fn step(&mut self, chunk: &Chunk) -> (out: Result<Step, RuntimeError>)
        requires
            can_step(chunk.code_view(), old(self).ip_view()),
        ensures
            ({
                let o = spec_step(
                    chunk.code_view(),
                    chunk.constants_view(),
                    old(self).ip_view(),
                    old(self).stack_view(),
                );
                &&& final(self).ip_view() == o.0
                &&& final(self).stack_view() == o.1
                &&& match out {
                    Ok(st) => o.2 == Ok::<StepView, RuntimeError>(st@),
                    Err(e) => o.2 == Err::<StepView, RuntimeError>(e),
                }
            }),
    {
        let instruction_ip = self.ip;
        let instruction = self.read_byte(chunk);
        match OpType::from_byte(instruction) {
            Some(OpType::Return) => {
                let value = self.pop()?;
                Ok(Step::Halt(value))
            },
            Some(OpType::Constant) => {
                let offset = self.read_byte(chunk);
                match chunk.value_at(offset as usize) {
                    Some(constant) => {
                        self.push(constant);
                        Ok(Step::Continue)
                    },
                    None => Err(RuntimeError::BadConstantIndex { index: offset as usize, ip: instruction_ip }),
                }
            },
            Some(OpType::Negate) => {
                let v = self.pop()?;
                let r = v.negate(instruction_ip);
                self.finish(r)
            },
            Some(OpType::Add) => self.binary_op(instruction_ip, Operator::Add),
            Some(OpType::Subtract) => self.binary_op(instruction_ip, Operator::Subtract),
            Some(OpType::Multiply) => self.binary_op(instruction_ip, Operator::Multiply),
            Some(OpType::Divide) => self.binary_op(instruction_ip, Operator::Divide),
            Some(OpType::Nil) => {
                self.push(Value::Nil);
                Ok(Step::Continue)
            },
            Some(OpType::True) => {
                self.push(Value::Boolean(true));
                Ok(Step::Continue)
            },
            Some(OpType::False) => {
                self.push(Value::Boolean(false));
                Ok(Step::Continue)
            },
            Some(OpType::Stringify) => self.stringify(),
            _ => Err(RuntimeError::InvalidOpCode { opcode: instruction, ip: instruction_ip }),
        }
    }
}

} // verus!
