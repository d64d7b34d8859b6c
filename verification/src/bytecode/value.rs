//! Runtime values. Numbers are IEEE-754 doubles; their arithmetic happens
//! outside this library, so a number is held either as the literal that wrote
//! it or as the bit pattern of the double.
use vstd::prelude::*;
use crate::runtime::error::{RuntimeError, Operator, ValueType};

verus! {

/// A number: its decimal literal, or the bits of an `f64`.
#[derive(Debug, PartialEq)]
pub enum Num {
    Literal(String),
    Bits(u64),
}

/// A value of the language.
#[derive(Debug, PartialEq)]
pub enum Value {
    Number(Num),
    Boolean(bool),
    String(String),
    Nil,
}

pub enum NumView {
    Literal(Seq<char>),
    Bits(u64),
}

pub enum ValueView {
    Number(NumView),
    Boolean(bool),
    Str(Seq<char>),
    Nil,
}

impl View for Num {
    type V = NumView;

    open spec fn view(&self) -> NumView {
        match self {
            Num::Literal(s) => NumView::Literal(s@),
            Num::Bits(b) => NumView::Bits(*b),
        }
    }
}

impl View for Value {
    type V = ValueView;

    open spec fn view(&self) -> ValueView {
        match self {
            Value::Number(n) => ValueView::Number(n@),
            Value::Boolean(b) => ValueView::Boolean(*b),
            Value::String(s) => ValueView::Str(s@),
            Value::Nil => ValueView::Nil,
        }
    }
}

impl Clone for Num {
    fn clone(&self) -> (r: Self)
        ensures
            r@ == self@,
    {
        match self {
            Num::Literal(s) => Num::Literal(s.clone()),
            Num::Bits(b) => Num::Bits(*b),
        }
    }
}

impl Clone for Value {
    fn clone(&self) -> (r: Self)
        ensures
            r@ == self@,
    {
        match self {
            Value::Number(n) => Value::Number(n.clone()),
            Value::Boolean(b) => Value::Boolean(*b),
            Value::String(s) => Value::String(s.clone()),
            Value::Nil => Value::Nil,
        }
    }
}

/// Number work that only a floating-point unit can do: the operands have
/// been type-checked and taken off the stack; the result goes back on it.
#[derive(Debug, PartialEq)]
pub enum NumericOp {
    Negate(Num),
    Add(Num, Num),
    Subtract(Num, Num),
    Multiply(Num, Num),
    Divide(Num, Num),
    /// The decimal text of a number, as a string value.
    Stringify(Num),
}

pub enum NumericOpView {
    Negate(NumView),
    Add(NumView, NumView),
    Subtract(NumView, NumView),
    Multiply(NumView, NumView),
    Divide(NumView, NumView),
    Stringify(NumView),
}

impl View for NumericOp {
    type V = NumericOpView;

    open spec fn view(&self) -> NumericOpView {
        match self {
            NumericOp::Negate(a) => NumericOpView::Negate(a@),
            NumericOp::Add(a, b) => NumericOpView::Add(a@, b@),
            NumericOp::Subtract(a, b) => NumericOpView::Subtract(a@, b@),
            NumericOp::Multiply(a, b) => NumericOpView::Multiply(a@, b@),
            NumericOp::Divide(a, b) => NumericOpView::Divide(a@, b@),
            NumericOp::Stringify(a) => NumericOpView::Stringify(a@),
        }
    }
}

/// The outcome of an operation on values: a value, or number work to do.
#[derive(Debug, PartialEq)]
pub enum Evaluated {
    Done(Value),
    Numeric(NumericOp),
}

pub enum EvaluatedView {
    Done(ValueView),
    Numeric(NumericOpView),
}

impl View for Evaluated {
    type V = EvaluatedView;

    open spec fn view(&self) -> EvaluatedView {
        match self {
            Evaluated::Done(v) => EvaluatedView::Done(v@),
            Evaluated::Numeric(op) => EvaluatedView::Numeric(op@),
        }
    }
}

pub open spec fn type_of(v: ValueView) -> ValueType {
    match v {
        ValueView::Number(_) => ValueType::Number,
        ValueView::Boolean(_) => ValueType::Boolean,
        ValueView::Nil => ValueType::Nil,
        ValueView::Str(_) => ValueType::String,
    }
}

/// A value's type is the kind of value it is.
pub proof fn lemma_type_of(v: ValueView)
    ensures
        (type_of(v) == ValueType::Number) == (v is Number),
        (type_of(v) == ValueType::Boolean) == (v is Boolean),
        (type_of(v) == ValueType::Nil) == (v is Nil),
        (type_of(v) == ValueType::String) == (v is Str),
{
}

/// The result of `a op b` for one of the four arithmetic operators: number
/// work for two numbers, concatenation for two strings under `+`, and a type
/// error otherwise.
pub open spec fn spec_binary(op: Operator, a: ValueView, b: ValueView, ip: int) -> Result<
    EvaluatedView,
    RuntimeError,
> {
    match (a, b) {
        (ValueView::Number(x), ValueView::Number(y)) => Ok(
            EvaluatedView::Numeric(
                match op {
                    Operator::Add => NumericOpView::Add(x, y),
                    Operator::Subtract => NumericOpView::Subtract(x, y),
                    Operator::Multiply => NumericOpView::Multiply(x, y),
                    _ => NumericOpView::Divide(x, y),
                },
            ),
        ),
        (ValueView::Str(x), ValueView::Str(y)) if op == Operator::Add => Ok(
            EvaluatedView::Done(ValueView::Str(x + y)),
        ),
        _ => Err(
            RuntimeError::BinaryTypeError { op, a: type_of(a), b: type_of(b), ip: ip as usize },
        ),
    }
}

/// Negation takes a number, which goes to number work; any other operand
/// fails with a type error naming its type and the instruction.
pub proof fn lemma_negate_operand(a: ValueView, ip: int)
    ensures
        spec_negate(a, ip).is_ok() == (a is Number),
        a matches ValueView::Number(x) ==> spec_negate(a, ip) == Ok::<EvaluatedView, RuntimeError>(
            EvaluatedView::Numeric(NumericOpView::Negate(x)),
        ),
        !(a is Number) ==> spec_negate(a, ip) == Err::<EvaluatedView, RuntimeError>(
            RuntimeError::UnaryTypeError { op: Operator::Negate, got: type_of(a), ip: ip as usize },
        ),
{
}

/// `+` takes two numbers or two strings, and `-`, `*` and `/` take two
/// numbers; on any other pair of operands the operation fails with a type
/// error naming the operator, the type of each operand in order and the
/// instruction. Two numbers go to number work under the same operator, left
/// operand first; two strings under `+` give the left string followed by the
/// right one.
pub proof fn lemma_binary_operands(op: Operator, a: ValueView, b: ValueView, ip: int)
    requires
        op != Operator::Negate,
    ensures
        spec_binary(op, a, b, ip).is_ok() == ((a is Number && b is Number) || (op == Operator::Add
            && a is Str && b is Str)),
        !spec_binary(op, a, b, ip).is_ok() ==> spec_binary(op, a, b, ip) == Err::<
            EvaluatedView,
            RuntimeError,
        >(RuntimeError::BinaryTypeError { op, a: type_of(a), b: type_of(b), ip: ip as usize }),
        a matches ValueView::Number(x) ==> (b matches ValueView::Number(y) ==> spec_binary(
            op,
            a,
            b,
            ip,
        ) == Ok::<EvaluatedView, RuntimeError>(
            EvaluatedView::Numeric(
                if op == Operator::Add {
                    NumericOpView::Add(x, y)
                } else if op == Operator::Subtract {
                    NumericOpView::Subtract(x, y)
                } else if op == Operator::Multiply {
                    NumericOpView::Multiply(x, y)
                } else {
                    NumericOpView::Divide(x, y)
                },
            ),
        )),
        a matches ValueView::Str(x) ==> (b matches ValueView::Str(y) ==> (op == Operator::Add ==> (
        spec_binary(op, a, b, ip) matches Ok(EvaluatedView::Done(ValueView::Str(s))) && s.len()
            == x.len() + y.len() && s.take(x.len() as int) == x && s.skip(x.len() as int) == y))),
{
    if a is Str && b is Str && op == Operator::Add {
        let x = a->Str_0;
        let y = b->Str_0;
        assert((x + y).take(x.len() as int) =~= x);
        assert((x + y).skip(x.len() as int) =~= y);
    }
}

/// The result of negating `a`.
pub open spec fn spec_negate(a: ValueView, ip: int) -> Result<EvaluatedView, RuntimeError> {
    match a {
        ValueView::Number(x) => Ok(EvaluatedView::Numeric(NumericOpView::Negate(x))),
        _ => Err(RuntimeError::UnaryTypeError { op: Operator::Negate, got: type_of(a), ip: ip as usize }),
    }
}

impl Value {
    pub fn value_type(&self) -> (t: ValueType)
        ensures
            t == type_of(self@),
    {
        match self {
            Value::Number(_) => ValueType::Number,
            Value::Boolean(_) => ValueType::Boolean,
            Value::Nil => ValueType::Nil,
            Value::String(_) => ValueType::String,
        }
    }

    /// The name of the value's type: `number`, `boolean`, `nil` or `string`.
    pub fn name_of_type(&self) -> (s: &'static str)
        ensures
            s@ == type_of(self@).spec_name(),
    {
        self.value_type().name()
    }

    pub fn negate(self, ip: usize) -> (r: Result<Evaluated, RuntimeError>)
        ensures
            r.is_ok() == spec_negate(self@, ip as int).is_ok(),
            r matches Ok(e) ==> spec_negate(self@, ip as int) == Ok::<EvaluatedView, RuntimeError>(e@),
            r matches Err(e) ==> spec_negate(self@, ip as int) == Err::<EvaluatedView, RuntimeError>(e),
    {
        match self {
            Value::Number(n) => Ok(Evaluated::Numeric(NumericOp::Negate(n))),
            other => Err(
                RuntimeError::UnaryTypeError { op: Operator::Negate, got: other.value_type(), ip },
            ),
        }
    }

    fn arith(self, rhs: Value, op: Operator, ip: usize) -> (r: Result<Evaluated, RuntimeError>)
        requires
            op != Operator::Negate,
        ensures
            r.is_ok() == spec_binary(op, self@, rhs@, ip as int).is_ok(),
            r matches Ok(e) ==> spec_binary(op, self@, rhs@, ip as int) == Ok::<
                EvaluatedView,
                RuntimeError,
            >(e@),
            r matches Err(e) ==> spec_binary(op, self@, rhs@, ip as int) == Err::<
                EvaluatedView,
                RuntimeError,
            >(e),
    {
        let ta = self.value_type();
        let tb = rhs.value_type();
        match (self, rhs) {
            (Value::Number(a), Value::Number(b)) => Ok(
                Evaluated::Numeric(
                    match op {
                        Operator::Add => NumericOp::Add(a, b),
                        Operator::Subtract => NumericOp::Subtract(a, b),
                        Operator::Multiply => NumericOp::Multiply(a, b),
                        _ => NumericOp::Divide(a, b),
                    },
                ),
            ),
            (Value::String(a), Value::String(b)) => {
                if op == Operator::Add {
                    let mut result = String::new();
                    result.append(a.as_str());
                    result.append(b.as_str());
                    Ok(Evaluated::Done(Value::String(result)))
                } else {
                    Err(RuntimeError::BinaryTypeError { op, a: ta, b: tb, ip })
                }
            },
            _ => Err(RuntimeError::BinaryTypeError { op, a: ta, b: tb, ip }),
        }
    }

    /// `self + rhs`: number work for two numbers, concatenation for two strings.
    pub fn add(self, rhs: Value, ip: usize) -> (r: Result<Evaluated, RuntimeError>)
        ensures
            r.is_ok() == spec_binary(Operator::Add, self@, rhs@, ip as int).is_ok(),
            r matches Ok(e) ==> spec_binary(Operator::Add, self@, rhs@, ip as int) == Ok::<
                EvaluatedView,
                RuntimeError,
            >(e@),
            r matches Err(e) ==> spec_binary(Operator::Add, self@, rhs@, ip as int) == Err::<
                EvaluatedView,
                RuntimeError,
            >(e),
    {
        self.arith(rhs, Operator::Add, ip)
    }

    /// `self - rhs`, defined on numbers only.
    pub fn sub(self, rhs: Value, ip: usize) -> (r: Result<Evaluated, RuntimeError>)
        ensures
            r.is_ok() == spec_binary(Operator::Subtract, self@, rhs@, ip as int).is_ok(),
            r matches Ok(e) ==> spec_binary(Operator::Subtract, self@, rhs@, ip as int) == Ok::<
                EvaluatedView,
                RuntimeError,
            >(e@),
            r matches Err(e) ==> spec_binary(Operator::Subtract, self@, rhs@, ip as int) == Err::<
                EvaluatedView,
                RuntimeError,
            >(e),
    {
        self.arith(rhs, Operator::Subtract, ip)
    }

    /// `self * rhs`, defined on numbers only.
    pub fn mul(self, rhs: Value, ip: usize) -> (r: Result<Evaluated, RuntimeError>)
        ensures
            r.is_ok() == spec_binary(Operator::Multiply, self@, rhs@, ip as int).is_ok(),
            r matches Ok(e) ==> spec_binary(Operator::Multiply, self@, rhs@, ip as int) == Ok::<
                EvaluatedView,
                RuntimeError,
            >(e@),
            r matches Err(e) ==> spec_binary(Operator::Multiply, self@, rhs@, ip as int) == Err::<
                EvaluatedView,
                RuntimeError,
            >(e),
    {
        self.arith(rhs, Operator::Multiply, ip)
    }

    /// `self / rhs`, defined on numbers only.
    pub fn div(self, rhs: Value, ip: usize) -> (r: Result<Evaluated, RuntimeError>)
        ensures
            r.is_ok() == spec_binary(Operator::Divide, self@, rhs@, ip as int).is_ok(),
            r matches Ok(e) ==> spec_binary(Operator::Divide, self@, rhs@, ip as int) == Ok::<
                EvaluatedView,
                RuntimeError,
            >(e@),
            r matches Err(e) ==> spec_binary(Operator::Divide, self@, rhs@, ip as int) == Err::<
                EvaluatedView,
                RuntimeError,
            >(e),
    {
        self.arith(rhs, Operator::Divide, ip)
    }
}

} // verus!
