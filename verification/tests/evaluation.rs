use gqlitedb::aggregators::count_values;
use gqlitedb::builtins::value_text;
use gqlitedb::aggregators::{MaxState, MinState};
use gqlitedb::evaluators::{execute_boolean_operator, Stack, StackValue};
use gqlitedb::instructions::Instruction;
use gqlitedb::value::Value;

fn run_boolean_operator(instruction: &Instruction, a: Value, b: Value, expected: Value) {
    let mut stack = Stack::new();
    stack.push(StackValue::GraphValue(b));
    stack.push(StackValue::GraphValue(a));
    execute_boolean_operator(&mut stack, instruction).unwrap();
    let r = stack.try_pop_into_value().unwrap();
    assert_eq!(r, expected);
}

#[test]
fn test_execute_boolean_operator() {
    run_boolean_operator(&Instruction::AndBinaryOperator, Value::Boolean(true), Value::Boolean(true), Value::Boolean(true));
    run_boolean_operator(&Instruction::AndBinaryOperator, Value::Boolean(true), Value::Boolean(false), Value::Boolean(false));
    run_boolean_operator(&Instruction::AndBinaryOperator, Value::Boolean(false), Value::Boolean(true), Value::Boolean(false));
    run_boolean_operator(&Instruction::AndBinaryOperator, Value::Boolean(false), Value::Null, Value::Boolean(false));
    run_boolean_operator(&Instruction::OrBinaryOperator, Value::Null, Value::Boolean(false), Value::Null);
}

#[test]
fn test_xor_with_null_is_null() {
    run_boolean_operator(&Instruction::XorBinaryOperator, Value::Boolean(true), Value::Null, Value::Null);
    run_boolean_operator(&Instruction::XorBinaryOperator, Value::Boolean(true), Value::Boolean(false), Value::Boolean(true));
}

#[test]
fn test_or_true_absorbs_null() {
    run_boolean_operator(&Instruction::OrBinaryOperator, Value::Boolean(true), Value::Null, Value::Boolean(true));
    run_boolean_operator(&Instruction::AndBinaryOperator, Value::Null, Value::Boolean(true), Value::Null);
}

#[test]
fn test_min_max_states() {
    let mut m = MinState::new();
    m.next(Value::Null, false).unwrap();
    m.next(Value::Integer(5), false).unwrap();
    m.next(Value::Integer(3), true).unwrap();
    m.next(Value::Null, true).unwrap();
    m.next(Value::Integer(4), false).unwrap();
    assert_eq!(m.finalise().unwrap(), Value::Integer(3));
    let mut m = MaxState::new();
    m.next(Value::Integer(5), false).unwrap();
    m.next(Value::Integer(7), true).unwrap();
    m.next(Value::Integer(6), false).unwrap();
    assert_eq!(m.finalise().unwrap(), Value::Integer(7));
    assert_eq!(MaxState::new().finalise().unwrap(), Value::Null);
}

#[test]
fn test_value_text() {
    assert_eq!(value_text(&Value::Null), "Null");
    assert_eq!(value_text(&Value::Integer(-12)), "Integer(-12)");
    assert_eq!(value_text(&Value::Boolean(true)), "Boolean(true)");
    assert_eq!(
        value_text(&Value::Array(vec![Value::Integer(1), Value::String("a".to_string())])),
        "Array([Integer(1), String(\"a\")])"
    );
}

#[test]
fn test_count_values() {
    let vs = vec![Value::Integer(1), Value::Null, Value::String("x".to_string()), Value::Null];
    assert_eq!(count_values(&vs).unwrap(), Value::Integer(2));
    assert_eq!(count_values(&vec![]).unwrap(), Value::Integer(0));
}
