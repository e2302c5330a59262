use vstd::prelude::*;
use vstd::arithmetic::power::pow;
use crate::error::{kind_of, Error, ErrorKind, InternalError, RunTimeError};
use crate::value::{view_values, Value, ValueModel};

verus! {

broadcast use vstd::std_specs::vec::group_vec_axioms;

/// The arithmetic operators of expressions.
#[derive(PartialEq, Eq, Structural, Clone, Copy)]
pub enum ArithmeticOperator {
    Addition,
    Subtraction,
    Multiplication,
    Division,
    Modulo,
    Exponent,
}

/// A value that holds no other value: what is handed to graphcore's operators.
pub enum Scalar {
    Null,
    Key(u128),
    Boolean(bool),
    Integer(i64),
    Text(String),
}

/// What graphcore's operators report as an error.
pub enum ArithmeticFailure {
    BinaryOperands,
    NegationOperands,
    Other,
}

pub open spec fn view_scalar(s: Scalar) -> ValueModel {
    match s {
        Scalar::Null => ValueModel::Null,
        Scalar::Key(k) => ValueModel::Key(k),
        Scalar::Boolean(b) => ValueModel::Boolean(b),
        Scalar::Integer(i) => ValueModel::Integer(i),
        Scalar::Text(t) => ValueModel::Text(t@),
    }
}

/// The outcome of an operator as a value model or an error kind.
pub open spec fn scalar_outcome(r: Result<Scalar, ArithmeticFailure>) -> Result<ValueModel, ErrorKind> {
    match r {
        Ok(s) => Ok(view_scalar(s)),
        Err(ArithmeticFailure::BinaryOperands) => Err(ErrorKind::InvalidBinaryOperands),
        Err(ArithmeticFailure::NegationOperands) => Err(ErrorKind::InvalidNegationOperands),
        Err(ArithmeticFailure::Other) => Err(ErrorKind::Other),
    }
}

/// A value that holds no other value.
pub open spec fn is_scalar(v: ValueModel) -> bool {
    v is Null || v is Key || v is Boolean || v is Integer || v is Text
}

pub open spec fn magnitude(x: int) -> int {
    if x < 0 { -x } else { x }
}

/// Integer division rounded towards zero.
pub open spec fn truncated_div(x: int, y: int) -> int {
    let q = magnitude(x) / magnitude(y);
    if (x < 0) == (y < 0) { q } else { -q }
}

/// Remainder of the division rounded towards zero: it has the sign of `x`.
pub open spec fn truncated_rem(x: int, y: int) -> int {
    x - y * truncated_div(x, y)
}

/// The operator on two integers.
pub open spec fn integer_result(op: ArithmeticOperator, x: int, y: int) -> int {
    match op {
        ArithmeticOperator::Addition => x + y,
        ArithmeticOperator::Subtraction => x - y,
        ArithmeticOperator::Multiplication => x * y,
        ArithmeticOperator::Division => truncated_div(x, y),
        ArithmeticOperator::Modulo => truncated_rem(x, y),
        ArithmeticOperator::Exponent => pow(x, y as nat),
    }
}

pub open spec fn fits_i64(x: int) -> bool {
    i64::MIN <= x <= i64::MAX
}

/// The operator on two integers neither overflows, nor divides by zero, nor raises to a power
/// that is negative or beyond `u32` (which gives a floating-point number).
pub open spec fn arithmetic_safe(op: ArithmeticOperator, a: ValueModel, b: ValueModel) -> bool {
    match (a, b) {
        (ValueModel::Integer(x), ValueModel::Integer(y)) => match op {
            ArithmeticOperator::Division | ArithmeticOperator::Modulo => y != 0 && !(x == i64::MIN && y == -1),
            ArithmeticOperator::Exponent => 0 <= y <= u32::MAX && fits_i64(pow(x as int, y as nat)),
            _ => fits_i64(integer_result(op, x as int, y as int)),
        },
        _ => true,
    }
}

/// The operator applied to `a` (left) and `b` (right): null on the left, or null on the right of
/// an integer or a string, gives null; integers give an integer; `+` joins two strings, joins
/// two lists, and appends any other value to a list; anything else is an error.
pub open spec fn arithmetic_spec(op: ArithmeticOperator, a: ValueModel, b: ValueModel) -> Result<ValueModel, ErrorKind> {
    match a {
        ValueModel::Null => Ok(ValueModel::Null),
        ValueModel::Integer(x) => match b {
            ValueModel::Integer(y) => Ok(ValueModel::Integer(integer_result(op, x as int, y as int) as i64)),
            ValueModel::Null => Ok(ValueModel::Null),
            _ => Err(ErrorKind::InvalidBinaryOperands),
        },
        ValueModel::Text(x) => if op == ArithmeticOperator::Addition {
            match b {
                ValueModel::Text(y) => Ok(ValueModel::Text(x + y)),
                ValueModel::Null => Ok(ValueModel::Null),
                _ => Err(ErrorKind::InvalidBinaryOperands),
            }
        } else {
            Err(ErrorKind::InvalidBinaryOperands)
        },
        ValueModel::List(l) => if op == ArithmeticOperator::Addition {
            match b {
                ValueModel::List(m) => Ok(ValueModel::List(l + m)),
                _ => Ok(ValueModel::List(l.push(b))),
            }
        } else {
            Err(ErrorKind::InvalidBinaryOperands)
        },
        _ => Err(ErrorKind::InvalidBinaryOperands),
    }
}

/// Negation: of an integer its opposite, of null null, of anything else an error.
pub open spec fn negation_spec(a: ValueModel) -> Result<ValueModel, ErrorKind> {
    match a {
        ValueModel::Integer(x) => Ok(ValueModel::Integer((-x) as i64)),
        ValueModel::Null => Ok(ValueModel::Null),
        _ => Err(ErrorKind::InvalidNegationOperands),
    }
}

/// Negation does not overflow.
pub open spec fn negation_safe(a: ValueModel) -> bool {
    a matches ValueModel::Integer(x) ==> x != i64::MIN
}

/// A scalar as a graphcore value.
#[verifier::external_body]
fn into_graph(s: Scalar) -> graphcore::Value {
    match s {
        Scalar::Null => graphcore::Value::Null,
        Scalar::Key(k) => graphcore::Value::Key(graphcore::Key::new(k)),
        Scalar::Boolean(b) => graphcore::Value::Boolean(b),
        Scalar::Integer(i) => graphcore::Value::Integer(i),
        Scalar::Text(t) => graphcore::Value::String(t),
    }
}

/// What a graphcore operator gave, as a scalar or a failure.
#[verifier::external_body]
fn from_graph(r: Result<graphcore::Value, graphcore::Error>) -> Result<Scalar, ArithmeticFailure> {
    match r {
        Ok(graphcore::Value::Null) => Ok(Scalar::Null),
        Ok(graphcore::Value::Key(k)) => Ok(Scalar::Key(k.uuid())),
        Ok(graphcore::Value::Boolean(b)) => Ok(Scalar::Boolean(b)),
        Ok(graphcore::Value::Integer(i)) => Ok(Scalar::Integer(i)),
        Ok(graphcore::Value::String(t)) => Ok(Scalar::Text(t)),
        Err(graphcore::Error::InvalidBinaryOperands) => Err(ArithmeticFailure::BinaryOperands),
        Err(graphcore::Error::InvalidNegationOperands) => Err(ArithmeticFailure::NegationOperands),
        _ => Err(ArithmeticFailure::Other),
    }
}

/// graphcore's `Value + Value` on scalars: the contract claims that it gives what
/// `arithmetic_spec` states for addition (sum, string concatenation, null, or an error of its
/// operands), where the sum does not overflow.
#[verifier::external_body]
fn graph_add(a: Scalar, b: Scalar) -> (r: Result<Scalar, ArithmeticFailure>)
    requires
        arithmetic_safe(ArithmeticOperator::Addition, view_scalar(a), view_scalar(b)),
    ensures
        scalar_outcome(r) == arithmetic_spec(ArithmeticOperator::Addition, view_scalar(a), view_scalar(b)),
{
    from_graph(into_graph(a) + into_graph(b))
}

/// graphcore's `Value - Value` on scalars: the contract claims the difference of integers, null
/// for a null operand, and an operand error otherwise, where the difference does not overflow.
#[verifier::external_body]
fn graph_sub(a: Scalar, b: Scalar) -> (r: Result<Scalar, ArithmeticFailure>)
    requires
        arithmetic_safe(ArithmeticOperator::Subtraction, view_scalar(a), view_scalar(b)),
    ensures
        scalar_outcome(r) == arithmetic_spec(ArithmeticOperator::Subtraction, view_scalar(a), view_scalar(b)),
{
    from_graph(into_graph(a) - into_graph(b))
}

/// graphcore's `Value * Value` on scalars: the contract claims the product of integers, null for
/// a null operand, and an operand error otherwise, where the product does not overflow.
#[verifier::external_body]
fn graph_mul(a: Scalar, b: Scalar) -> (r: Result<Scalar, ArithmeticFailure>)
    requires
        arithmetic_safe(ArithmeticOperator::Multiplication, view_scalar(a), view_scalar(b)),
    ensures
        scalar_outcome(r) == arithmetic_spec(ArithmeticOperator::Multiplication, view_scalar(a), view_scalar(b)),
{
    from_graph(into_graph(a) * into_graph(b))
}

/// graphcore's `Value / Value` on scalars: the contract claims the quotient of integers rounded
/// towards zero (Rust's `/` on `i64`), null for a null operand, and an operand error otherwise,
/// where the divisor is not zero and the quotient does not overflow.
#[verifier::external_body]
fn graph_div(a: Scalar, b: Scalar) -> (r: Result<Scalar, ArithmeticFailure>)
    requires
        arithmetic_safe(ArithmeticOperator::Division, view_scalar(a), view_scalar(b)),
    ensures
        scalar_outcome(r) == arithmetic_spec(ArithmeticOperator::Division, view_scalar(a), view_scalar(b)),
{
    from_graph(into_graph(a) / into_graph(b))
}

/// graphcore's `Value % Value` on scalars: the contract claims the remainder of integers with
/// the sign of the dividend (Rust's `%` on `i64`), null for a null operand, and an operand error
/// otherwise, where the divisor is not zero and the division does not overflow.
#[verifier::external_body]
fn graph_rem(a: Scalar, b: Scalar) -> (r: Result<Scalar, ArithmeticFailure>)
    requires
        arithmetic_safe(ArithmeticOperator::Modulo, view_scalar(a), view_scalar(b)),
    ensures
        scalar_outcome(r) == arithmetic_spec(ArithmeticOperator::Modulo, view_scalar(a), view_scalar(b)),
{
    from_graph(into_graph(a) % into_graph(b))
}

/// graphcore's `Value::pow` on scalars: the contract claims the power of integers, null for a
/// null operand, and an operand error otherwise, where the exponent is a `u32` and the power does
/// not overflow.
#[verifier::external_body]
fn graph_pow(a: Scalar, b: Scalar) -> (r: Result<Scalar, ArithmeticFailure>)
    requires
        arithmetic_safe(ArithmeticOperator::Exponent, view_scalar(a), view_scalar(b)),
    ensures
        scalar_outcome(r) == arithmetic_spec(ArithmeticOperator::Exponent, view_scalar(a), view_scalar(b)),
{
    from_graph(into_graph(a).pow(into_graph(b)))
}

/// graphcore's `-Value` on scalars: the contract claims the opposite of an integer, null for
/// null, and a negation error otherwise, where the opposite does not overflow.
#[verifier::external_body]
fn graph_neg(a: Scalar) -> (r: Result<Scalar, ArithmeticFailure>)
    requires
        negation_safe(view_scalar(a)),
    ensures
        scalar_outcome(r) == negation_spec(view_scalar(a)),
{
    from_graph(-into_graph(a))
}

/// The value as a scalar, or back unchanged when it holds other values.
fn to_scalar(v: Value) -> (r: Result<Scalar, Value>)
    ensures
        match r {
            Ok(s) => is_scalar(v@) && view_scalar(s) == v@,
            Err(w) => !is_scalar(v@) && w == v,
        },
{
    match v {
        Value::Null => Ok(Scalar::Null),
        Value::Key(k) => Ok(Scalar::Key(k)),
        Value::Boolean(b) => Ok(Scalar::Boolean(b)),
        Value::Integer(i) => Ok(Scalar::Integer(i)),
        Value::String(t) => Ok(Scalar::Text(t)),
        other => Err(other),
    }
}

/// The scalar as a value, and a failure as the library's error.
fn from_scalar(r: Result<Scalar, ArithmeticFailure>) -> (out: Result<Value, Error>)
    ensures
        match scalar_outcome(r) {
            Ok(m) => out matches Ok(v) && v@ == m,
            Err(k) => out matches Err(e) && kind_of(e) == k,
        },
{
    match r {
        Ok(Scalar::Null) => Ok(Value::Null),
        Ok(Scalar::Key(k)) => Ok(Value::Key(k)),
        Ok(Scalar::Boolean(b)) => Ok(Value::Boolean(b)),
        Ok(Scalar::Integer(i)) => Ok(Value::Integer(i)),
        Ok(Scalar::Text(t)) => Ok(Value::String(t)),
        Err(ArithmeticFailure::BinaryOperands) => Err(Error::RunTime(RunTimeError::InvalidBinaryOperands)),
        Err(ArithmeticFailure::NegationOperands) => Err(Error::RunTime(RunTimeError::InvalidNegationOperands)),
        Err(ArithmeticFailure::Other) => Err(Error::Internal(InternalError::Unimplemented("arithmetic"))),
    }
}

/// Applies an arithmetic operator to `a` (left) and `b` (right). Scalars go to graphcore's
/// operators; lists and the values that hold others follow `arithmetic_spec`.
pub fn arithmetic(op: ArithmeticOperator, a: Value, b: Value) -> (r: Result<Value, Error>)
    requires
        arithmetic_safe(op, a@, b@),
    ensures
        match arithmetic_spec(op, a@, b@) {
            Ok(m) => r matches Ok(v) && v@ == m,
            Err(k) => r matches Err(e) && kind_of(e) == k,
        },
{
    let ghost am = a@;
    let ghost bm = b@;
    match to_scalar(a) {
        Ok(x) => match to_scalar(b) {
            Ok(y) => {
                let res = match op {
                    ArithmeticOperator::Addition => graph_add(x, y),
                    ArithmeticOperator::Subtraction => graph_sub(x, y),
                    ArithmeticOperator::Multiplication => graph_mul(x, y),
                    ArithmeticOperator::Division => graph_div(x, y),
                    ArithmeticOperator::Modulo => graph_rem(x, y),
                    ArithmeticOperator::Exponent => graph_pow(x, y),
                };
                from_scalar(res)
            },
            Err(_) => match x {
                Scalar::Null => Ok(Value::Null),
                _ => Err(Error::RunTime(RunTimeError::InvalidBinaryOperands)),
            },
        },
        Err(Value::Array(l)) => {
            if op == ArithmeticOperator::Addition {
                let mut l = l;
                match b {
                    Value::Array(m) => {
                        let ghost l0 = l@;
                        let ghost m0 = m@;
                        let mut m = m;
                        l.append(&mut m);
                        proof {
                            assert(l@.subrange(0, l0.len() as int) =~= l0);
                            assert(l@.subrange(l0.len() as int, l@.len() as int) =~= m0);
                            lemma_view_values_append(l0, m0.len() as int, l@);
                        }
                    },
                    other => {
                        let ghost l0 = l@;
                        l.push(other);
                        proof {
                            assert(l@.subrange(0, l0.len() as int) =~= l0);
                            lemma_view_values_push(l0, l@);
                        }
                    },
                }
                Ok(Value::Array(l))
            } else {
                Err(Error::RunTime(RunTimeError::InvalidBinaryOperands))
            }
        },
        Err(_) => Err(Error::RunTime(RunTimeError::InvalidBinaryOperands)),
    }
}

/// Negates a value through graphcore's negation.
pub fn negation(a: Value) -> (r: Result<Value, Error>)
    requires
        negation_safe(a@),
    ensures
        match negation_spec(a@) {
            Ok(m) => r matches Ok(v) && v@ == m,
            Err(k) => r matches Err(e) && kind_of(e) == k,
        },
{
    match to_scalar(a) {
        Ok(x) => from_scalar(graph_neg(x)),
        Err(_) => Err(Error::RunTime(RunTimeError::InvalidNegationOperands)),
    }
}

proof fn lemma_view_values_push(l0: Seq<Value>, l1: Seq<Value>)
    requires
        l1.len() == l0.len() + 1,
        l1.subrange(0, l0.len() as int) == l0,
    ensures
        view_values(l1) == view_values(l0).push(l1.last()@),
{
}

proof fn lemma_view_values_append(l0: Seq<Value>, extra: int, l1: Seq<Value>)
    requires
        l1.len() == l0.len() + extra,
        0 <= extra,
        l1.subrange(0, l0.len() as int) == l0,
    ensures
        view_values(l1) == view_values(l0) + view_values(l1.subrange(l0.len() as int, l1.len() as int)),
{
    let tail = l1.subrange(l0.len() as int, l1.len() as int);
    crate::value::lemma_view_values_index(l1);
    crate::value::lemma_view_values_index(l0);
    crate::value::lemma_view_values_index(tail);
    assert(view_values(l1) =~= view_values(l0) + view_values(tail));
}

} // verus!
