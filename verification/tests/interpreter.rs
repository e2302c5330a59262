use gqlitedb::error::{Error, InternalError, RunTimeError};
use gqlitedb::evaluators::{Stack, StackValue};
use gqlitedb::instructions::{Block, Instruction};
use gqlitedb::evaluators::handle_asc;
use gqlitedb::interpreter::is_write_program;
use gqlitedb::text::remove_hex_prefix;
use std::cmp::Ordering;
use gqlitedb::cli::{cli_step, CliAction, CliCommand, CliState};
use gqlitedb::query_result::{combine_results, QueryResult};
use gqlitedb::interpreter::{eval_instruction, eval_instructions};
use gqlitedb::value::{Value, ValueMap};

fn integer(i: i64) -> Value {
    Value::Integer(i)
}

fn run(instructions: Vec<Instruction>, parameters: &ValueMap) -> Result<Vec<Value>, Error> {
    let mut stack = Stack::new();
    eval_instructions(&mut stack, &Vec::new(), &instructions, parameters)?;
    Ok(stack
        .into_vec()
        .into_iter()
        .map(|v| match v {
            StackValue::GraphValue(g) => g,
            _ => panic!("expected graph values"),
        })
        .collect())
}

fn push(v: Value) -> Instruction {
    Instruction::Push { value: v }
}

#[test]
fn test_eval_swap_and_rot3() {
    let p = ValueMap::new();
    assert_eq!(run(vec![push(integer(1)), push(integer(2)), Instruction::Swap], &p).unwrap(), vec![integer(2), integer(1)]);
    assert_eq!(
        run(vec![push(integer(1)), push(integer(2)), push(integer(3)), Instruction::Rot3], &p).unwrap(),
        vec![integer(3), integer(1), integer(2)]
    );
    assert_eq!(
        run(vec![push(integer(1)), push(integer(2)), push(integer(3)), Instruction::InverseRot3], &p).unwrap(),
        vec![integer(2), integer(3), integer(1)]
    );
}

#[test]
fn test_eval_rot3_undone_by_inverse() {
    let p = ValueMap::new();
    let r = run(vec![push(integer(1)), push(integer(2)), push(integer(3)), Instruction::Rot3, Instruction::InverseRot3], &p).unwrap();
    assert_eq!(r, vec![integer(1), integer(2), integer(3)]);
    let r = run(vec![push(integer(1)), push(integer(2)), Instruction::Swap, Instruction::Swap], &p).unwrap();
    assert_eq!(r, vec![integer(1), integer(2)]);
}

#[test]
fn test_eval_empty_stack() {
    let p = ValueMap::new();
    assert!(matches!(run(vec![Instruction::Duplicate], &p), Err(Error::Internal(InternalError::EmptyStack))));
    assert!(matches!(run(vec![push(integer(1)), Instruction::Swap], &p), Err(Error::Internal(InternalError::EmptyStack))));
}

#[test]
fn test_eval_duplicate_not_isnull() {
    let p = ValueMap::new();
    assert_eq!(run(vec![push(integer(7)), Instruction::Duplicate], &p).unwrap(), vec![integer(7), integer(7)]);
    assert_eq!(run(vec![push(Value::Boolean(true)), Instruction::NotUnaryOperator], &p).unwrap(), vec![Value::Boolean(false)]);
    assert_eq!(run(vec![push(Value::Null), Instruction::NotUnaryOperator], &p).unwrap(), vec![Value::Null]);
    assert!(matches!(
        run(vec![push(integer(1)), Instruction::NotUnaryOperator], &p),
        Err(Error::RunTime(RunTimeError::InvalidArgumentType))
    ));
    assert_eq!(run(vec![push(Value::Null), Instruction::IsNullUnaryOperator], &p).unwrap(), vec![Value::Boolean(true)]);
    assert_eq!(run(vec![push(integer(0)), Instruction::IsNullUnaryOperator], &p).unwrap(), vec![Value::Boolean(false)]);
}

#[test]
fn test_eval_parameters() {
    let mut p = ValueMap::new();
    p.insert("a".to_string(), integer(42));
    assert_eq!(run(vec![Instruction::GetParameter { name: "a".to_string() }], &p).unwrap(), vec![integer(42)]);
    assert!(matches!(
        run(vec![Instruction::GetParameter { name: "b".to_string() }], &p),
        Err(Error::RunTime(RunTimeError::UnknownParameter { .. }))
    ));
}

#[test]
fn test_eval_index_access() {
    let p = ValueMap::new();
    let array = Value::Array(vec![integer(10), integer(20), integer(30)]);
    let deep = |v: &Value| v.deep_clone();
    assert_eq!(run(vec![push(deep(&array)), push(integer(1)), Instruction::IndexAccess], &p).unwrap(), vec![integer(20)]);
    assert!(matches!(
        run(vec![push(deep(&array)), push(integer(3)), Instruction::IndexAccess], &p),
        Err(Error::RunTime(RunTimeError::OutOfBound))
    ));
    assert!(matches!(
        run(vec![push(deep(&array)), push(integer(-1)), Instruction::IndexAccess], &p),
        Err(Error::RunTime(RunTimeError::OutOfBound))
    ));
    assert_eq!(run(vec![push(deep(&array)), push(Value::Null), Instruction::IndexAccess], &p).unwrap(), vec![Value::Null]);
    let mut m = ValueMap::new();
    m.insert("k".to_string(), integer(5));
    assert_eq!(
        run(vec![push(Value::Mapping(m.deep_clone())), push(Value::String("k".to_string())), Instruction::IndexAccess], &p).unwrap(),
        vec![integer(5)]
    );
    assert_eq!(
        run(vec![push(Value::Mapping(m.deep_clone())), push(Value::String("z".to_string())), Instruction::IndexAccess], &p).unwrap(),
        vec![Value::Null]
    );
    assert!(matches!(
        run(vec![push(Value::Mapping(m)), push(integer(0)), Instruction::IndexAccess], &p),
        Err(Error::RunTime(RunTimeError::MapElementAccessByNonString))
    ));
}

#[test]
fn test_eval_node_query() {
    let p = ValueMap::new();
    let mut stack = Stack::new();
    let mut props = ValueMap::new();
    props.insert("name".to_string(), Value::String("x".to_string()));
    eval_instruction(&mut stack, &push(Value::Mapping(props)), &Vec::new(), &p).unwrap();
    eval_instruction(&mut stack, &Instruction::CreateNodeQuery { labels: vec!["L".to_string()] }, &Vec::new(), &p).unwrap();
    let v = stack.try_pop().unwrap();
    match v {
        StackValue::NodeQuery(q) => {
            assert!(!q.is_select_all());
            assert!(!q.is_select_only_keys());
        },
        _ => panic!("expected a node query"),
    }
    let mut stack = Stack::new();
    eval_instruction(&mut stack, &push(integer(3)), &Vec::new(), &p).unwrap();
    let r = eval_instruction(&mut stack, &Instruction::CreateNodeQuery { labels: vec![] }, &Vec::new(), &p);
    assert!(matches!(r, Err(Error::RunTime(RunTimeError::InvalidValueCast { .. }))));
}

#[test]
fn test_eval_create_array_and_map() {
    let p = ValueMap::new();
    assert_eq!(
        run(vec![push(integer(1)), push(integer(2)), Instruction::CreateArray { length: 2 }], &p).unwrap(),
        vec![Value::Array(vec![integer(1), integer(2)])]
    );
    assert!(matches!(
        run(vec![push(integer(1)), Instruction::CreateArray { length: 2 }], &p),
        Err(Error::Internal(InternalError::EmptyStack))
    ));
    let r = run(
        vec![push(integer(1)), push(integer(2)), Instruction::CreateMap { keys: vec!["a".to_string(), "b".to_string()] }],
        &p,
    )
    .unwrap();
    assert_eq!(r.len(), 1);
    match &r[0] {
        Value::Mapping(m) => {
            assert_eq!(m.get(&"a".to_string()), Some(&integer(1)));
            assert_eq!(m.get(&"b".to_string()), Some(&integer(2)));
        },
        _ => panic!("expected a map"),
    }
    let r = run(
        vec![push(integer(1)), push(integer(2)), Instruction::CreateMap { keys: vec!["a".to_string(), "a".to_string()] }],
        &p,
    )
    .unwrap();
    match &r[0] {
        Value::Mapping(m) => assert_eq!(m.get(&"a".to_string()), Some(&integer(1))),
        _ => panic!("expected a map"),
    }
}

#[test]
fn test_eval_function_call() {
    let mut stack = Stack::new();
    stack.push(StackValue::GraphValue(integer(1)));
    stack.push(StackValue::GraphValue(integer(3)));
    gqlitedb::interpreter::eval_function_call(&mut stack, &"range".to_string(), 2).unwrap();
    assert_eq!(stack.len(), 1);
    match stack.try_pop().unwrap() {
        StackValue::GraphValue(v) => assert_eq!(v, Value::Array(vec![integer(1), integer(2), integer(3)])),
        _ => panic!("expected a graph value"),
    }
    let mut stack = Stack::new();
    stack.push(StackValue::GraphValue(integer(1)));
    let r = gqlitedb::interpreter::eval_function_call(&mut stack, &"range".to_string(), 2);
    assert!(matches!(r, Err(Error::Internal(InternalError::EmptyStack))));
    let mut stack = Stack::new();
    stack.push(StackValue::GraphValue(Value::Null));
    stack.push(StackValue::GraphValue(integer(5)));
    gqlitedb::interpreter::eval_function_call(&mut stack, &"coalesce".to_string(), 2).unwrap();
    match stack.try_pop().unwrap() {
        StackValue::GraphValue(v) => assert_eq!(v, integer(5)),
        _ => panic!("expected a graph value"),
    }
}

#[test]
fn test_is_write_program() {
    assert!(!is_write_program(&vec![Block::UseGraph { name: "g".to_string() }]));
    assert!(is_write_program(&vec![
        Block::UseGraph { name: "g".to_string() },
        Block::DropGraph { name: "g".to_string(), if_exists: true },
    ]));
    assert!(!is_write_program(&vec![]));
}

#[test]
fn test_handle_asc() {
    assert_eq!(handle_asc(Ordering::Less, true), Ordering::Less);
    assert_eq!(handle_asc(Ordering::Less, false), Ordering::Greater);
    assert_eq!(handle_asc(Ordering::Equal, false), Ordering::Equal);
}

#[test]
fn test_remove_hex_prefix() {
    assert_eq!(remove_hex_prefix("0x1F"), "1F".to_string());
    assert_eq!(remove_hex_prefix("-0xff"), "-ff".to_string());
}

fn range(list: Vec<i64>, start: Option<Value>, end: Option<Value>) -> Result<Value, Error> {
    let mut stack = Stack::new();
    stack.push(StackValue::GraphValue(Value::Array(list.into_iter().map(integer).collect())));
    let has_start = start.is_some();
    let has_end = end.is_some();
    if let Some(s) = start {
        stack.push(StackValue::GraphValue(s));
    }
    if let Some(e) = end {
        stack.push(StackValue::GraphValue(e));
    }
    gqlitedb::interpreter::eval_range_access(&mut stack, has_start, has_end)?;
    match stack.try_pop().unwrap() {
        StackValue::GraphValue(v) => Ok(v),
        _ => panic!("expected a graph value"),
    }
}

fn list(v: Vec<i64>) -> Value {
    Value::Array(v.into_iter().map(integer).collect())
}

#[test]
fn test_eval_range_access() {
    assert_eq!(range(vec![1, 2, 3, 4], Some(integer(1)), Some(integer(3))).unwrap(), list(vec![2, 3]));
    assert_eq!(range(vec![1, 2, 3], Some(integer(-2)), None).unwrap(), list(vec![2, 3]));
    assert_eq!(range(vec![1, 2, 3], None, Some(integer(2))).unwrap(), list(vec![1, 2]));
    assert_eq!(range(vec![1, 2, 3], Some(integer(0)), Some(integer(10))).unwrap(), list(vec![1, 2, 3]));
    assert_eq!(range(vec![1, 2, 3], Some(integer(2)), Some(integer(1))).unwrap(), list(vec![]));
    assert_eq!(range(vec![1, 2, 3], Some(integer(-1)), Some(integer(-2))).unwrap(), list(vec![]));
    assert_eq!(range(vec![1, 2, 3], Some(integer(1)), Some(integer(7))).unwrap(), list(vec![1, 2, 3]));
    assert_eq!(range(vec![1, 2, 3], Some(integer(-3)), Some(integer(-1))).unwrap(), list(vec![1, 2]));
    assert_eq!(range(vec![1, 2, 3], Some(Value::Null), Some(integer(1))).unwrap(), Value::Null);
    assert!(matches!(
        range(vec![1, 2, 3], Some(Value::Boolean(true)), None),
        Err(Error::RunTime(RunTimeError::InvalidValueCast { .. }))
    ));
}

#[test]
fn test_cli_steps() {
    use_cli();
}

fn use_cli() {
    let (s, a) = cli_step(CliState::Idle, Some("MATCH (n)".to_string()));
    assert!(matches!(a, CliAction::Nothing));
    let (s, a) = cli_step(s, Some("RETURN n;".to_string()));
    assert!(matches!(s, CliState::Idle));
    assert!(matches!(a, CliAction::Execute(ref q) if q == "MATCH (n)\nRETURN n;"));
    let (_, a) = cli_step(CliState::Idle, Some(".open file.db".to_string()));
    assert!(matches!(a, CliAction::Command(CliCommand::Open(ref p)) if p == "file.db"));
    let (_, a) = cli_step(CliState::Idle, Some(".open".to_string()));
    assert!(matches!(a, CliAction::Command(CliCommand::MissingOpenArgument)));
    let (_, a) = cli_step(CliState::Idle, Some(".quit".to_string()));
    assert!(matches!(a, CliAction::Command(CliCommand::Quit)));
    let (_, a) = cli_step(CliState::Idle, Some(".foo bar".to_string()));
    assert!(matches!(a, CliAction::Command(CliCommand::Unknown(ref w)) if w == ".foo"));
    let (s, _) = cli_step(CliState::Idle, Some("MATCH (n)".to_string()));
    let (s, a) = cli_step(s, Some("".to_string()));
    assert!(matches!(s, CliState::Idle));
    assert!(matches!(a, CliAction::Execute(ref q) if q == "MATCH (n)"));
    let (_, a) = cli_step(CliState::Idle, None);
    assert!(matches!(a, CliAction::Finished));
}

#[test]
fn test_combine_results() {
    assert!(matches!(combine_results(vec![]), QueryResult::Empty));
    assert!(matches!(combine_results(vec![QueryResult::Value(integer(1))]), QueryResult::Value(Value::Integer(1))));
    match combine_results(vec![QueryResult::Empty, QueryResult::Value(integer(2))]) {
        QueryResult::Array(v) => {
            assert_eq!(v.len(), 2);
            assert!(matches!(v[0], QueryResult::Empty));
        },
        _ => panic!("expected an array"),
    }
}

fn text(t: &str) -> Value {
    Value::String(t.to_string())
}

fn binary(a: Value, b: Value, op: Instruction) -> Result<Vec<Value>, Error> {
    // The right operand is pushed first: the left one is on top when the operator runs.
    run(vec![push(b), push(a), op], &ValueMap::new())
}

#[test]
fn test_eval_arithmetic() {
    assert_eq!(binary(integer(7), integer(2), Instruction::AdditionBinaryOperator).unwrap(), vec![integer(9)]);
    assert_eq!(binary(integer(7), integer(2), Instruction::SubtractionBinaryOperator).unwrap(), vec![integer(5)]);
    assert_eq!(binary(integer(7), integer(2), Instruction::MultiplicationBinaryOperator).unwrap(), vec![integer(14)]);
    assert_eq!(binary(integer(-7), integer(2), Instruction::DivisionBinaryOperator).unwrap(), vec![integer(-3)]);
    assert_eq!(binary(integer(-7), integer(2), Instruction::ModuloBinaryOperator).unwrap(), vec![integer(-1)]);
    assert_eq!(binary(integer(2), integer(10), Instruction::ExponentBinaryOperator).unwrap(), vec![integer(1024)]);
    assert_eq!(binary(Value::Null, integer(2), Instruction::MultiplicationBinaryOperator).unwrap(), vec![Value::Null]);
    assert_eq!(binary(integer(2), Value::Null, Instruction::SubtractionBinaryOperator).unwrap(), vec![Value::Null]);
    assert_eq!(binary(text("ab"), text("cd"), Instruction::AdditionBinaryOperator).unwrap(), vec![text("abcd")]);
    assert!(matches!(
        binary(text("ab"), integer(1), Instruction::AdditionBinaryOperator),
        Err(Error::RunTime(RunTimeError::InvalidBinaryOperands))
    ));
    assert!(matches!(
        binary(Value::Boolean(true), integer(1), Instruction::AdditionBinaryOperator),
        Err(Error::RunTime(RunTimeError::InvalidBinaryOperands))
    ));
    assert!(matches!(
        binary(text("ab"), text("cd"), Instruction::SubtractionBinaryOperator),
        Err(Error::RunTime(RunTimeError::InvalidBinaryOperands))
    ));
}

#[test]
fn test_eval_list_addition() {
    let l = Value::Array(vec![integer(1), integer(2)]);
    assert_eq!(
        binary(l, Value::Array(vec![integer(3)]), Instruction::AdditionBinaryOperator).unwrap(),
        vec![Value::Array(vec![integer(1), integer(2), integer(3)])]
    );
    let l = Value::Array(vec![integer(1)]);
    assert_eq!(
        binary(l, Value::Null, Instruction::AdditionBinaryOperator).unwrap(),
        vec![Value::Array(vec![integer(1), Value::Null])]
    );
    assert!(matches!(
        binary(integer(1), Value::Array(vec![]), Instruction::AdditionBinaryOperator),
        Err(Error::RunTime(RunTimeError::InvalidBinaryOperands))
    ));
}

#[test]
fn test_eval_negation() {
    let p = ValueMap::new();
    assert_eq!(run(vec![push(integer(4)), Instruction::NegationUnaryOperator], &p).unwrap(), vec![integer(-4)]);
    assert_eq!(run(vec![push(Value::Null), Instruction::NegationUnaryOperator], &p).unwrap(), vec![Value::Null]);
    assert!(matches!(
        run(vec![push(text("a")), Instruction::NegationUnaryOperator], &p),
        Err(Error::RunTime(RunTimeError::InvalidNegationOperands))
    ));
}

#[test]
fn test_eval_get_variable() {
    let mut stack = Stack::new();
    let row = vec![integer(10), text("x")];
    let p = ValueMap::new();
    let is = vec![Instruction::GetVariable { col_id: 1 }, Instruction::GetVariable { col_id: 0 }];
    eval_instructions(&mut stack, &row, &is, &p).unwrap();
    let vs: Vec<Value> = stack.into_vec().into_iter().map(|v| match v {
        StackValue::GraphValue(g) => g,
        _ => panic!("expected graph values"),
    }).collect();
    assert_eq!(vs, vec![text("x"), integer(10)]);
}

#[test]
fn test_eval_literals() {
    let mut props = ValueMap::new();
    props.insert("a".to_string(), integer(1));
    let r = run(vec![push(Value::Mapping(props)), Instruction::CreateNodeLiteral { labels: vec!["P".to_string()] }], &ValueMap::new()).unwrap();
    let node = match &r[0] {
        Value::Node(n) => n,
        _ => panic!("expected a node"),
    };
    assert_eq!(node.labels, vec!["P".to_string()]);
    assert_eq!(node.properties.get(&"a".to_string()), Some(&integer(1)));
    let r = run(
        vec![
            push(Value::Null),
            Instruction::CreateNodeLiteral { labels: vec![] },
            push(Value::Null),
            Instruction::CreateNodeLiteral { labels: vec![] },
            push(Value::Null),
            Instruction::CreateEdgeLiteral { labels: vec!["R".to_string()] },
        ],
        &ValueMap::new(),
    )
    .unwrap();
    match &r[0] {
        Value::Path(p) => {
            assert_eq!(p.labels, vec!["R".to_string()]);
            assert_ne!(p.source.key, p.destination.key);
        },
        _ => panic!("expected a path"),
    }
    assert!(matches!(
        run(vec![push(integer(1)), push(integer(2)), push(Value::Null), Instruction::CreateEdgeLiteral { labels: vec![] }], &ValueMap::new()),
        Err(Error::RunTime(RunTimeError::InvalidArgumentType))
    ));
}

use gqlitedb::rows::{eval_count, eval_filter, filter_rows, limit_rows};

#[test]
fn test_filter_rows() {
    let rows = vec![
        vec![Value::Boolean(true)],
        vec![Value::Null],
        vec![integer(1)],
        vec![Value::Boolean(false)],
    ];
    let filter = vec![Instruction::GetVariable { col_id: 0 }];
    let kept = filter_rows(&rows, &filter, &ValueMap::new()).unwrap();
    assert_eq!(kept, vec![vec![Value::Boolean(true)], vec![integer(1)]]);
    assert!(!eval_filter(&vec![Value::Null], &filter, &ValueMap::new()).unwrap());
    let failing = vec![Instruction::Duplicate];
    assert!(matches!(
        filter_rows(&rows, &failing, &ValueMap::new()),
        Err(Error::Internal(InternalError::EmptyStack))
    ));
}

#[test]
fn test_skip_limit_count() {
    let p = ValueMap::new();
    assert_eq!(eval_count(&vec![push(integer(3))], &p).unwrap(), 3);
    assert!(matches!(
        eval_count(&vec![push(integer(-1))], &p),
        Err(Error::RunTime(RunTimeError::NegativeIntegerArgument))
    ));
    assert!(matches!(
        eval_count(&vec![push(Value::String("a".to_string()))], &p),
        Err(Error::RunTime(RunTimeError::InvalidArgumentType))
    ));
    assert!(matches!(eval_count(&vec![], &p), Err(Error::RunTime(RunTimeError::InvalidArgumentType))));
    let mut rows = vec![vec![integer(1)], vec![integer(2)], vec![integer(3)]];
    limit_rows(&mut rows, 2);
    assert_eq!(rows, vec![vec![integer(1)], vec![integer(2)]]);
    limit_rows(&mut rows, 5);
    assert_eq!(rows.len(), 2);
}

#[test]
fn test_eval_same_outcome_twice() {
    let p = ValueMap::new();
    let is = vec![push(integer(6)), push(integer(3)), Instruction::SubtractionBinaryOperator, Instruction::NegationUnaryOperator];
    let a = run(is, &p).unwrap();
    let is = vec![push(integer(6)), push(integer(3)), Instruction::SubtractionBinaryOperator, Instruction::NegationUnaryOperator];
    let b = run(is, &p).unwrap();
    assert_eq!(a, b);
    assert_eq!(a, vec![integer(3)]);
}

use gqlitedb::instructions::RWExpression;
use gqlitedb::program::{call_block, check_graph_used, compute_row, delete_keys, extend_row, return_table, statistics_value, unwind_value, Statistics};
use gqlitedb::value::Node;

#[test]
fn test_unwind_value() {
    let row = vec![integer(7)];
    let rows = unwind_value(&row, Value::Array(vec![integer(1), integer(2)]), 1, 3, 2);
    assert_eq!(rows, vec![vec![integer(7), integer(1)], vec![integer(7), integer(2)]]);
    assert_eq!(unwind_value(&row, Value::Null, 1, 2, 2).len(), 0);
    assert_eq!(unwind_value(&row, integer(5), 1, 2, 2), vec![vec![integer(7), integer(5)]]);
    assert_eq!(extend_row(&row, 3), vec![integer(7), Value::Null, Value::Null]);
}

#[test]
fn test_check_graph_used_and_call() {
    let graphs = vec!["default".to_string(), "g".to_string()];
    assert!(check_graph_used(&graphs, &"g".to_string()).is_ok());
    match check_graph_used(&graphs, &"h".to_string()) {
        Err(Error::RunTime(RunTimeError::UnknownGraph { graph_name })) => assert_eq!(graph_name, "h"),
        _ => panic!("expected an unknown graph"),
    }
    assert!(call_block(&"gqlite.internal.stats".to_string()).is_ok());
    assert!(matches!(call_block(&"other".to_string()), Err(Error::Internal(InternalError::Unimplemented(_)))));
    let v = statistics_value(&Statistics { nodes_count: 3, edges_count: 1, labels_nodes_count: 2, properties_count: 0 });
    match v {
        Value::Mapping(m) => {
            assert_eq!(m.get(&"nodes_count".to_string()), Some(&integer(3)));
            assert_eq!(m.get(&"properties_count".to_string()), Some(&integer(0)));
        },
        _ => panic!("expected a map"),
    }
}

#[test]
fn test_delete_keys_and_return_table() {
    let n = Node { key: 5, labels: vec![], properties: ValueMap::new() };
    let (ns, es) = delete_keys(&vec![Value::Node(n), Value::Null]).unwrap();
    assert_eq!(ns, vec![5u128]);
    assert!(es.is_empty());
    assert!(matches!(delete_keys(&vec![integer(1)]), Err(Error::RunTime(RunTimeError::InvalidDelete))));
    match return_table(vec!["a".to_string()], vec![vec![integer(1)], vec![integer(2)]]) {
        QueryResult::Table(t) => {
            assert_eq!(t.headers, vec!["a".to_string()]);
            assert_eq!(t.data, vec![integer(1), integer(2)]);
        },
        _ => panic!("expected a table"),
    }
}

#[test]
fn test_compute_row() {
    let exprs = vec![
        RWExpression { col_id: 1, instructions: vec![Instruction::GetVariable { col_id: 0 }, push(integer(1)), Instruction::AdditionBinaryOperator], aggregations: vec![] },
        RWExpression { col_id: 2, instructions: vec![Instruction::GetVariable { col_id: 1 }], aggregations: vec![] },
    ];
    let r = compute_row(&vec![integer(4)], &exprs, &ValueMap::new(), 3).unwrap();
    assert_eq!(r, vec![integer(4), integer(5), integer(5)]);
}

use gqlitedb::connection::{automatic_start, automatic_step, Backend, OpenAction, OpenEvent, OpenState};
use gqlitedb::matching::{create_row, edit_labels, finish_match, match_edge_rows, match_node_rows, skip_rows, update_labels_value};
use gqlitedb::rows::{eval_pattern_filter, filter_matched};
use gqlitedb::value::{Edge, Path};

fn node(key: u128) -> Node {
    Node { key, labels: vec![], properties: ValueMap::new() }
}

#[test]
fn test_match_node_rows() {
    let row = vec![Value::Null, integer(1)];
    let rows = match_node_rows(&row, vec![node(1), node(2)], Some(0));
    assert_eq!(rows, vec![vec![Value::Node(node(1)), integer(1)], vec![Value::Node(node(2)), integer(1)]]);
    let bound = vec![Value::Node(node(9))];
    assert_eq!(match_node_rows(&bound, vec![node(1)], Some(0)), vec![vec![Value::Node(node(9))]]);
    assert_eq!(match_node_rows(&row, vec![], Some(0)).len(), 0);
}

#[test]
fn test_match_edge_rows() {
    let p = Path { key: 7, source: node(1), labels: vec!["R".to_string()], properties: ValueMap::new(), destination: node(2) };
    let q = Path { key: 8, source: node(3), labels: vec![], properties: ValueMap::new(), destination: node(4) };
    let row = vec![Value::Null, Value::Null, Value::Null, Value::Null];
    let rows = match_edge_rows(&row, vec![(p, false), (q, true)], Some(0), Some(1), Some(2), None);
    assert_eq!(rows[0][0], Value::Node(node(1)));
    assert_eq!(rows[0][2], Value::Node(node(2)));
    assert_eq!(rows[0][1], Value::Edge(Edge { key: 7, labels: vec!["R".to_string()], properties: ValueMap::new() }));
    assert_eq!(rows[1][0], Value::Node(node(4)));
    assert_eq!(rows[1][2], Value::Node(node(3)));
    assert_eq!(rows[1][3], Value::Null);
}

#[test]
fn test_finish_match_and_skip() {
    let input = vec![integer(1)];
    assert_eq!(finish_match(&input, vec![], true, 2), vec![vec![integer(1), Value::Null]]);
    assert_eq!(finish_match(&input, vec![], false, 2).len(), 0);
    assert_eq!(finish_match(&input, vec![vec![integer(1), integer(2), integer(3)]], true, 2), vec![vec![integer(1), integer(2)]]);
    let mut rows = vec![vec![integer(1)], vec![integer(2)], vec![integer(3)]];
    skip_rows(&mut rows, 1);
    assert_eq!(rows, vec![vec![integer(2)], vec![integer(3)]]);
    skip_rows(&mut rows, 5);
    assert!(rows.is_empty());
}

#[test]
fn test_edit_labels() {
    let ls = vec!["a".to_string(), "b".to_string(), "a".to_string()];
    assert_eq!(edit_labels(ls.clone(), &vec!["c".to_string()], true), vec!["a", "b", "a", "c"]);
    assert_eq!(edit_labels(ls, &vec!["a".to_string()], false), vec!["b"]);
    let n = Node { key: 1, labels: vec!["a".to_string()], properties: ValueMap::new() };
    match update_labels_value(Value::Node(n), &vec!["b".to_string()], true).unwrap() {
        Some(Value::Node(m)) => assert_eq!(m.labels, vec!["a", "b"]),
        _ => panic!("expected a node"),
    }
    assert!(update_labels_value(Value::Null, &vec![], true).unwrap().is_none());
    assert!(matches!(update_labels_value(integer(1), &vec![], true), Err(Error::Internal(InternalError::ExpectedEdge { .. }))));
}

#[test]
fn test_create_row() {
    let p = Path { key: 7, source: node(1), labels: vec![], properties: ValueMap::new(), destination: node(2) };
    let (row, nodes, paths) = create_row(
        vec![Value::Null, Value::Null],
        vec![Value::Node(node(5)), Value::Path(p)],
        &vec![Some(0), Some(1)],
    ).unwrap();
    assert_eq!(row[0], Value::Node(node(5)));
    assert_eq!(row[1], Value::Edge(Edge { key: 7, labels: vec![], properties: ValueMap::new() }));
    assert_eq!(nodes.len(), 1);
    assert_eq!(paths.len(), 1);
    assert!(matches!(create_row(vec![], vec![integer(1)], &vec![None]), Err(Error::Internal(InternalError::Unimplemented(_)))));
}

#[test]
fn test_pattern_filter() {
    let p = ValueMap::new();
    // The filter leaves the stack as it is: the boolean under the item decides.
    assert!(eval_pattern_filter(&vec![], Value::Node(node(1)), &vec![], &p).unwrap());
    // A filter that replaces the item keeps the `true` below it.
    let f = vec![Instruction::Swap, Instruction::NotUnaryOperator, Instruction::Swap];
    assert!(!eval_pattern_filter(&vec![], Value::Node(node(1)), &f, &p).unwrap());
}

#[test]
fn test_automatic_backend() {
    let (s, a) = automatic_start();
    assert!(matches!(a, OpenAction::Open(Backend::SQLite)));
    let (s, a) = automatic_step(s, OpenEvent::Failed { message: "no sqlite".to_string() });
    assert!(matches!(a, OpenAction::Open(Backend::Redb)));
    let (_, a) = automatic_step(s, OpenEvent::Failed { message: "no redb".to_string() });
    match a {
        OpenAction::Fail(Error::StoreError(gqlitedb::error::StoreError::OpeningError { errors })) => {
            assert_eq!(errors, "'no sqlite', 'no redb'")
        },
        _ => panic!("expected an opening error"),
    }
    let (s, _) = automatic_start();
    let (s, a) = automatic_step(s, OpenEvent::Opened);
    assert!(matches!(a, OpenAction::Connected(Backend::SQLite)));
    assert!(matches!(s, OpenState::Done));
}

#[test]
fn test_filter_matched() {
    let p = ValueMap::new();
    let rows = vec![vec![integer(1)], vec![integer(2)]];
    let items = vec![Value::Node(node(1)), Value::Node(node(2))];
    assert_eq!(filter_matched(&rows, &items, &vec![], &p).unwrap(), rows);
    // A filter that turns the boolean under the item to false drops every row.
    let f = vec![
        Instruction::Swap,
        Instruction::NotUnaryOperator,
        Instruction::Swap,
    ];
    assert_eq!(filter_matched(&rows, &items, &f, &p).unwrap().len(), 0);
}
