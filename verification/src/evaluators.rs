use vstd::prelude::*;
use crate::error::{Error, InternalError, RunTimeError};
use crate::instructions::Instruction;
use crate::store::{SelectEdgeQuery, SelectNodeQuery};
use crate::value::{Value, ValueModel};

verus! {

/// A value on the evaluation stack: a graph value or a selection query.
#[derive(Debug)]
pub enum StackValue {
    GraphValue(Value),
    NodeQuery(SelectNodeQuery),
    EdgeQuery(SelectEdgeQuery),
}

/// The graph value held by a stack value, if it holds one.
pub open spec fn graph_value(v: StackValue) -> Option<ValueModel> {
    match v {
        StackValue::GraphValue(g) => Some(g@),
        _ => None,
    }
}

impl StackValue {
    /// The graph value, or an error for a query.
    pub fn try_into_value(self) -> (r: Result<Value, Error>)
        ensures
            match self {
                StackValue::GraphValue(g) => r == Ok::<Value, Error>(g),
                _ => r matches Err(Error::Internal(InternalError::ExpectedGraphValue { .. })),
            },
    {
        match self {
            StackValue::GraphValue(g) => Ok(g),
            _ => Err(Error::Internal(InternalError::ExpectedGraphValue { context: "try_into" })),
        }
    }
}

/// Converts a value to a boolean, failing for any other kind of value.
pub fn value_to_bool(v: Value) -> (r: Result<bool, Error>)
    ensures
        match v@ {
            ValueModel::Boolean(b) => r == Ok::<bool, Error>(b),
            _ => r matches Err(Error::RunTime(RunTimeError::InvalidValueCast { .. })),
        },
{
    match v {
        Value::Boolean(b) => Ok(b),
        _ => Err(Error::RunTime(RunTimeError::InvalidValueCast { value: Box::new(v), typename: "bool" })),
    }
}

/// Stack of the expression evaluator.
#[derive(Debug)]
pub struct Stack {
    stack: Vec<StackValue>,
}

impl View for Stack {
    type V = Seq<StackValue>;

    closed spec fn view(&self) -> Seq<StackValue> {
        self.stack@
    }
}

impl Stack {
    /// An empty stack.
    pub fn new() -> (r: Stack)
        ensures
            r@ == Seq::<StackValue>::empty(),
    {
        Stack { stack: Vec::new() }
    }

    /// Number of values on the stack.
    pub fn len(&self) -> (r: usize)
        ensures
            r == self@.len(),
    {
        self.stack.len()
    }

    /// Pushes a value on top of the stack.
    pub fn push(&mut self, value: StackValue)
        ensures
            final(self)@ == old(self)@.push(value),
    {
        self.stack.push(value);
    }

    /// Removes the top of the stack, failing when the stack is empty.
    pub fn try_pop(&mut self) -> (r: Result<StackValue, Error>)
        ensures
            old(self)@.len() == 0 ==> (r matches Err(Error::Internal(InternalError::EmptyStack)) && final(self)@ == old(self)@),
            old(self)@.len() > 0 ==> r == Ok::<StackValue, Error>(old(self)@.last())
                && final(self)@ == old(self)@.drop_last(),
    {
        match self.stack.pop() {
            Some(v) => Ok(v),
            None => Err(Error::Internal(InternalError::EmptyStack)),
        }
    }

    /// The top of the stack, failing when the stack is empty.
    pub fn try_last(&self) -> (r: Result<&StackValue, Error>)
        ensures
            self@.len() == 0 ==> (r matches Err(Error::Internal(InternalError::EmptyStack))),
            self@.len() > 0 ==> (r matches Ok(v) && *v == self@.last()),
    {
        let n = self.stack.len();
        if n == 0 {
            Err(Error::Internal(InternalError::EmptyStack))
        } else {
            Ok(&self.stack[n - 1])
        }
    }

    /// Removes the `len` values at the top of the stack, and returns them from the deepest to the top.
    pub fn try_drain(&mut self, len: usize) -> (r: Result<Vec<StackValue>, Error>)
        ensures
            len > old(self)@.len() ==> (r matches Err(Error::Internal(InternalError::EmptyStack))
                && final(self)@ == old(self)@),
            len <= old(self)@.len() ==> (r matches Ok(v)
                && v@ == old(self)@.subrange(old(self)@.len() - len, old(self)@.len() as int)
                && final(self)@ == old(self)@.subrange(0, old(self)@.len() - len)),
    {
        if len > self.stack.len() {
            Err(Error::Internal(InternalError::EmptyStack))
        } else {
            let at = self.stack.len() - len;
            let tail = self.stack.split_off(at);
            Ok(tail)
        }
    }

    /// The values of the stack, from the bottom to the top.
    pub fn into_vec(self) -> (r: Vec<StackValue>)
        ensures
            r@ == self@,
    {
        self.stack
    }

    /// Removes the top of the stack and tells whether it is true: only null and false count as false.
    pub fn try_pop_as_boolean(&mut self) -> (r: Result<bool, Error>)
        ensures
            old(self)@.len() == 0 ==> (r matches Err(Error::Internal(InternalError::EmptyStack)) && final(self)@ == old(self)@),
            old(self)@.len() > 0 ==> final(self)@ == old(self)@.drop_last() && r == Ok::<bool, Error>(
                !(graph_value(old(self)@.last()) == Some(ValueModel::Null)
                    || graph_value(old(self)@.last()) == Some(ValueModel::Boolean(false))),
            ),
    {
        let v = self.try_pop()?;
        match v {
            StackValue::GraphValue(Value::Null) | StackValue::GraphValue(Value::Boolean(false)) => Ok(false),
            _ => Ok(true),
        }
    }

    /// Removes the top of the stack, which must be a graph value.
    pub fn try_pop_into_value(&mut self) -> (r: Result<Value, Error>)
        ensures
            old(self)@.len() == 0 ==> (r matches Err(Error::Internal(InternalError::EmptyStack)) && final(self)@ == old(self)@),
            old(self)@.len() > 0 ==> final(self)@ == old(self)@.drop_last() && match old(self)@.last() {
                StackValue::GraphValue(g) => r == Ok::<Value, Error>(g),
                _ => r matches Err(Error::Internal(InternalError::ExpectedGraphValue { .. })),
            },
    {
        let v = self.try_pop()?;
        v.try_into_value()
    }
}

/// Three-valued conjunction; `None` when an operand that is read is neither a boolean nor null.
pub open spec fn and_result(a: ValueModel, b: ValueModel) -> Option<ValueModel> {
    match a {
        ValueModel::Null => match b {
            ValueModel::Null => Some(ValueModel::Null),
            ValueModel::Boolean(true) => Some(ValueModel::Null),
            ValueModel::Boolean(false) => Some(ValueModel::Boolean(false)),
            _ => None,
        },
        ValueModel::Boolean(true) => Some(b),
        ValueModel::Boolean(false) => Some(ValueModel::Boolean(false)),
        _ => None,
    }
}

/// Three-valued disjunction; `None` when an operand that is read is neither a boolean nor null.
pub open spec fn or_result(a: ValueModel, b: ValueModel) -> Option<ValueModel> {
    match a {
        ValueModel::Null => match b {
            ValueModel::Null => Some(ValueModel::Null),
            ValueModel::Boolean(false) => Some(ValueModel::Null),
            ValueModel::Boolean(true) => Some(ValueModel::Boolean(true)),
            _ => None,
        },
        ValueModel::Boolean(true) => Some(ValueModel::Boolean(true)),
        ValueModel::Boolean(false) => Some(b),
        _ => None,
    }
}

/// Three-valued exclusive disjunction; `None` when an operand is neither a boolean nor null.
pub open spec fn xor_result(a: ValueModel, b: ValueModel) -> Option<ValueModel> {
    if a is Null || b is Null {
        Some(ValueModel::Null)
    } else {
        match (a, b) {
            (ValueModel::Boolean(x), ValueModel::Boolean(y)) => Some(ValueModel::Boolean(x != y)),
            _ => None,
        }
    }
}

/// Three-valued negation.
pub open spec fn not_result(a: ValueModel) -> Option<ValueModel> {
    match a {
        ValueModel::Null => Some(ValueModel::Null),
        ValueModel::Boolean(b) => Some(ValueModel::Boolean(!b)),
        _ => None,
    }
}

/// Result of a boolean operator instruction on the operands `a` (top of the stack) and `b`.
pub open spec fn boolean_operator_result(instruction: Instruction, a: ValueModel, b: ValueModel) -> Option<ValueModel> {
    match instruction {
        Instruction::AndBinaryOperator => and_result(a, b),
        Instruction::OrBinaryOperator => or_result(a, b),
        Instruction::XorBinaryOperator => xor_result(a, b),
        _ => None,
    }
}

/// `true` for the three boolean operator instructions.
pub open spec fn is_boolean_operator(instruction: Instruction) -> bool {
    instruction is AndBinaryOperator || instruction is OrBinaryOperator || instruction is XorBinaryOperator
}

/// Pops two values, applies a three-valued boolean operator and pushes the result.
pub fn execute_boolean_operator(stack: &mut Stack, instruction: &Instruction) -> (r: Result<(), Error>)
    ensures
        old(stack)@.len() < 2 ==> (r matches Err(Error::Internal(InternalError::EmptyStack))
            && final(stack)@ == Seq::<StackValue>::empty()),
        old(stack)@.len() >= 2 ==> {
            let a = old(stack)@[old(stack)@.len() - 1];
            let b = old(stack)@[old(stack)@.len() - 2];
            let rest = old(stack)@.subrange(0, old(stack)@.len() - 2);
            &&& graph_value(a) is None ==> (r matches Err(Error::Internal(InternalError::ExpectedGraphValue { .. })))
            &&& (graph_value(a) is Some && graph_value(b) is None) ==> (r matches Err(Error::Internal(InternalError::ExpectedGraphValue { .. })))
            &&& (graph_value(a) is Some && graph_value(b) is Some) ==> {
                let res = boolean_operator_result(*instruction, graph_value(a).unwrap(), graph_value(b).unwrap());
                &&& !is_boolean_operator(*instruction) ==> (r matches Err(Error::Internal(InternalError::Unreachable { .. })))
                &&& (is_boolean_operator(*instruction) && res is None) ==> (r matches Err(Error::RunTime(RunTimeError::InvalidValueCast { .. })))
                &&& res is Some ==> r is Ok && final(stack)@.len() == rest.len() + 1
                    && final(stack)@.subrange(0, rest.len() as int) == rest
                    && graph_value(final(stack)@.last()) == res
            }
            &&& r is Err ==> final(stack)@ == rest
        },
{
    let ghost s0 = stack@;
    let a = stack.try_pop()?;
    let b = match stack.try_pop() {
        Ok(b) => b,
        Err(e) => {
            assert(stack@ =~= Seq::<StackValue>::empty());
            return Err(e);
        },
    };
    assert(stack@ =~= s0.subrange(0, s0.len() - 2));
    let a: Value = a.try_into_value()?;
    let b: Value = b.try_into_value()?;
    match instruction {
        Instruction::AndBinaryOperator => {
            if a.is_null() {
                if b.is_null() {
                    stack.push(StackValue::GraphValue(Value::Null));
                } else {
                    let bb = value_to_bool(b)?;
                    if bb {
                        stack.push(StackValue::GraphValue(Value::Null));
                    } else {
                        stack.push(StackValue::GraphValue(Value::Boolean(false)));
                    }
                }
            } else {
                let ab = value_to_bool(a)?;
                if ab {
                    if b.is_null() {
                        stack.push(StackValue::GraphValue(Value::Null));
                    } else {
                        stack.push(StackValue::GraphValue(b));
                    }
                } else {
                    stack.push(StackValue::GraphValue(Value::Boolean(false)));
                }
            }
        },
        Instruction::OrBinaryOperator => {
            if a.is_null() {
                if b.is_null() {
                    stack.push(StackValue::GraphValue(Value::Null));
                } else {
                    let bb = value_to_bool(b)?;
                    if !bb {
                        stack.push(StackValue::GraphValue(Value::Null));
                    } else {
                        stack.push(StackValue::GraphValue(Value::Boolean(true)));
                    }
                }
            } else {
                let ab = value_to_bool(a)?;
                if ab {
                    stack.push(StackValue::GraphValue(Value::Boolean(true)));
                } else if b.is_null() {
                    stack.push(StackValue::GraphValue(Value::Null));
                } else {
                    stack.push(StackValue::GraphValue(b));
                }
            }
        },
        Instruction::XorBinaryOperator => {
            if a.is_null() || b.is_null() {
                stack.push(StackValue::GraphValue(Value::Null));
            } else {
                let ab = value_to_bool(a)?;
                let bb = value_to_bool(b)?;
                stack.push(StackValue::GraphValue(Value::Boolean(ab ^ bb)));
            }
        },
        _ => {
            return Err(Error::Internal(InternalError::Unreachable { context: "evaluator/execute_boolean_operator" }));
        },
    }
    Ok(())
}

/// Kleene conjunction and disjunction are commutative on booleans and null.
pub proof fn lemma_and_or_commutative(a: ValueModel, b: ValueModel)
    requires
        a is Null || a is Boolean,
        b is Null || b is Boolean,
    ensures
        and_result(a, b) == and_result(b, a),
        or_result(a, b) == or_result(b, a),
        xor_result(a, b) == xor_result(b, a),
{
}

/// De Morgan's laws hold for the three-valued operators on booleans and null.
pub proof fn lemma_de_morgan(a: ValueModel, b: ValueModel)
    requires
        a is Null || a is Boolean,
        b is Null || b is Boolean,
    ensures
        not_result(and_result(a, b).unwrap()) == or_result(not_result(a).unwrap(), not_result(b).unwrap()),
        not_result(or_result(a, b).unwrap()) == and_result(not_result(a).unwrap(), not_result(b).unwrap()),
{
}

/// On booleans, the three-valued operators agree with the usual ones.
pub proof fn lemma_boolean_operators_on_booleans(x: bool, y: bool)
    ensures
        and_result(ValueModel::Boolean(x), ValueModel::Boolean(y)) == Some(ValueModel::Boolean(x && y)),
        or_result(ValueModel::Boolean(x), ValueModel::Boolean(y)) == Some(ValueModel::Boolean(x || y)),
        xor_result(ValueModel::Boolean(x), ValueModel::Boolean(y)) == Some(ValueModel::Boolean(x != y)),
{
}

/// Orders by a criterion: the order itself when ascending, reversed otherwise.
pub fn handle_asc(o: std::cmp::Ordering, asc: bool) -> (r: std::cmp::Ordering)
    ensures
        asc ==> r == o,
        !asc ==> r == match o {
            std::cmp::Ordering::Less => std::cmp::Ordering::Greater,
            std::cmp::Ordering::Equal => std::cmp::Ordering::Equal,
            std::cmp::Ordering::Greater => std::cmp::Ordering::Less,
        },
{
    if asc {
        o
    } else {
        match o {
            std::cmp::Ordering::Equal => std::cmp::Ordering::Equal,
            std::cmp::Ordering::Less => std::cmp::Ordering::Greater,
            std::cmp::Ordering::Greater => std::cmp::Ordering::Less,
        }
    }
}

} // verus!
