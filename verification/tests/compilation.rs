use gqlitedb::ast::{LabelExpression, VariableIdentifier};
use gqlitedb::compiler::Compiler;
use gqlitedb::error::{CompileTimeError, Error, InternalError};
use gqlitedb::expression::Expression;
use gqlitedb::functions::Manager;
use gqlitedb::instructions::{Block, Instruction};
use gqlitedb::patterns::{Modifiers, NamedExpression, NodePattern, Pattern};
use gqlitedb::statements::{compile, Call, Create, CreateGraph, Delete, Match, Return, Statement, Unwind, With};
use gqlitedb::value::Value;
use gqlitedb::variables_manager::VariablesManager;

fn var(name: &str, id: u64) -> VariableIdentifier {
    VariableIdentifier::new(name.to_string(), id)
}

fn node(name: &str, id: u64) -> Pattern {
    Pattern::Node(NodePattern { variable: Some(var(name, id)), labels: LabelExpression::Empty, properties: None })
}

fn no_modifiers() -> Modifiers {
    Modifiers { skip: None, limit: None, order_by: None }
}

fn named(name: &str, id: u64, expression: Expression) -> NamedExpression {
    NamedExpression { identifier: var(name, id), expression }
}

fn return_of(expressions: Vec<NamedExpression>) -> Statement {
    Statement::Return(Return { all: false, expressions, modifiers: no_modifiers(), where_expression: None })
}

fn new_compiler() -> Compiler {
    let manager = Manager::new();
    Compiler { function_manager: manager, variables_manager: VariablesManager::new(&manager), temporary_variables: 0 }
}

#[test]
fn test_compile_create_node() {
    let program = compile(&Manager::new(), vec![Statement::Create(Create { patterns: vec![node("n", 1)] })]).unwrap();
    assert_eq!(program.len(), 1);
    match &program[0] {
        Block::Create { actions, variables_size } => {
            assert_eq!(actions.len(), 1);
            assert_eq!(actions[0].variables, vec![Some(0)]);
            assert_eq!(actions[0].instructions.len(), 2);
            assert!(matches!(&actions[0].instructions[0], Instruction::Push { value: Value::Mapping(m) } if m.entries.is_empty()));
            assert!(matches!(&actions[0].instructions[1], Instruction::CreateNodeLiteral { labels } if labels.is_empty()));
            assert_eq!(variables_size.persistent_variables, 1);
            assert_eq!(variables_size.temporary_variables, 0);
        },
        _ => panic!("expected a create block"),
    }
}

#[test]
fn test_compile_match_return() {
    let statements = vec![
        Statement::Match(Match { patterns: vec![node("n", 1)], where_expression: None, optional: false }),
        return_of(vec![named("n", 1, Expression::Variable(var("n", 1)))]),
    ];
    let program = compile(&Manager::new(), statements).unwrap();
    assert_eq!(program.len(), 2);
    assert!(matches!(&program[0], Block::Match { blocks, optional: false, .. } if blocks.len() == 1));
    match &program[1] {
        Block::Return { variables, filter, variables_size, .. } => {
            assert_eq!(variables.len(), 1);
            assert_eq!(variables[0].0, "n".to_string());
            assert_eq!(variables[0].1.col_id, 0);
            assert_eq!(variables[0].1.instructions.len(), 1);
            assert!(matches!(variables[0].1.instructions[0], Instruction::GetVariable { col_id: 0 }));
            assert!(filter.is_empty());
            assert_eq!(variables_size.persistent_variables, 1);
        },
        _ => panic!("expected a return block"),
    }
}

#[test]
fn test_compile_return_all_lists_every_variable() {
    let statements = vec![
        Statement::Match(Match { patterns: vec![node("a", 1), node("b", 2)], where_expression: None, optional: false }),
        Statement::Return(Return { all: true, expressions: vec![], modifiers: no_modifiers(), where_expression: None }),
    ];
    let program = compile(&Manager::new(), statements).unwrap();
    match &program[1] {
        Block::Return { variables, .. } => {
            let mut names: Vec<String> = variables.iter().map(|(n, _)| n.clone()).collect();
            names.sort();
            assert_eq!(names, vec!["a".to_string(), "b".to_string()]);
        },
        _ => panic!("expected a return block"),
    }
}

#[test]
fn test_compile_return_column_conflict() {
    let statements = vec![return_of(vec![
        named("x", 1, Expression::Value(Value::Integer(1))),
        named("x", 1, Expression::Value(Value::Integer(2))),
    ])];
    let r = compile(&Manager::new(), statements);
    assert!(matches!(r, Err(Error::CompileTime(CompileTimeError::ColumnNameConflict { .. }))));
}

#[test]
fn test_compile_unknown_variable() {
    let statements = vec![return_of(vec![named("n", 1, Expression::Variable(var("n", 1)))])];
    let r = compile(&Manager::new(), statements);
    assert!(matches!(r, Err(Error::CompileTime(CompileTimeError::UndefinedVariable { .. }))));
}

#[test]
fn test_compile_create_bound_variable() {
    let statements = vec![
        Statement::Match(Match { patterns: vec![node("n", 1)], where_expression: None, optional: false }),
        Statement::Create(Create { patterns: vec![node("n", 1)] }),
    ];
    let r = compile(&Manager::new(), statements);
    assert!(matches!(r, Err(Error::CompileTime(CompileTimeError::VariableAlreadyBound { .. }))));
}

#[test]
fn test_compile_unwind() {
    let statements = vec![Statement::Unwind(Unwind {
        identifier: var("x", 1),
        expression: Expression::Array(vec![Expression::Value(Value::Integer(1)), Expression::Value(Value::Integer(2))]),
    })];
    let program = compile(&Manager::new(), statements).unwrap();
    match &program[0] {
        Block::Unwind { col_id, instructions, variables_size } => {
            assert_eq!(*col_id, 0);
            assert_eq!(instructions.len(), 3);
            assert!(matches!(instructions[2], Instruction::CreateArray { length: 2 }));
            assert_eq!(variables_size.persistent_variables, 1);
        },
        _ => panic!("expected an unwind block"),
    }
}

#[test]
fn test_compile_delete_integer_is_refused() {
    let statements = vec![Statement::Delete(Delete { detach: false, expressions: vec![Expression::Value(Value::Integer(1))] })];
    let r = compile(&Manager::new(), statements);
    assert!(matches!(r, Err(Error::CompileTime(CompileTimeError::InvalidDelete))));
}

#[test]
fn test_compile_call_arguments_reversed() {
    let statements = vec![Statement::Call(Call {
        name: "proc".to_string(),
        arguments: vec![Expression::Value(Value::Integer(1)), Expression::Value(Value::Integer(2))],
    })];
    let program = compile(&Manager::new(), statements).unwrap();
    match &program[0] {
        Block::Call { arguments, name } => {
            assert_eq!(name, "proc");
            assert!(matches!(arguments[0], Instruction::Push { value: Value::Integer(2) }));
            assert!(matches!(arguments[1], Instruction::Push { value: Value::Integer(1) }));
        },
        _ => panic!("expected a call block"),
    }
}

#[test]
fn test_compile_graph_statements() {
    let statements = vec![Statement::CreateGraph(CreateGraph { name: "g".to_string() })];
    let program = compile(&Manager::new(), statements).unwrap();
    assert!(matches!(&program[0], Block::CreateGraph { name } if name == "g"));
}

#[test]
fn test_compile_with_keeps_named_variables() {
    let statements = vec![
        Statement::Match(Match { patterns: vec![node("a", 1), node("b", 2)], where_expression: None, optional: false }),
        Statement::With(With {
            all: false,
            expressions: vec![named("b", 2, Expression::Variable(var("b", 2)))],
            modifiers: no_modifiers(),
            where_expression: None,
        }),
        return_of(vec![named("a", 1, Expression::Variable(var("a", 1)))]),
    ];
    let r = compile(&Manager::new(), statements);
    assert!(matches!(r, Err(Error::CompileTime(CompileTimeError::UndefinedVariable { .. }))));
}

#[test]
fn test_analyse_requires_set_variables() {
    let mut manager = VariablesManager::new(&Manager::new());
    manager.declare_variable(&var("n", 1), gqlitedb::expression_analyser::ExpressionType::Node).unwrap();
    let r = manager.analyse(&Statement::CreateGraph(CreateGraph { name: "g".to_string() }));
    assert!(matches!(r, Err(Error::Internal(InternalError::NotAllVariablesAreSet { .. }))));
}

#[test]
fn test_compile_expression_binary() {
    let mut compiler = new_compiler();
    let mut instructions = Vec::new();
    let mut aggregations = None;
    let e = Expression::Binary {
        operator: gqlitedb::expression::BinaryOperator::Addition,
        left: Box::new(Expression::Value(Value::Integer(1))),
        right: Box::new(Expression::Value(Value::Integer(2))),
    };
    compiler.compile_expression(&e, &mut instructions, &mut aggregations).unwrap();
    assert_eq!(instructions.len(), 3);
    assert!(matches!(instructions[0], Instruction::Push { value: Value::Integer(2) }));
    assert!(matches!(instructions[1], Instruction::Push { value: Value::Integer(1) }));
    assert!(matches!(instructions[2], Instruction::AdditionBinaryOperator));
}

#[test]
fn test_compile_aggregation_refused_without_context() {
    let mut compiler = new_compiler();
    let mut instructions = Vec::new();
    let mut aggregations = None;
    let e = Expression::FunctionCall { name: "count".to_string(), arguments: vec![Expression::Value(Value::Integer(1))] };
    let r = compiler.compile_expression(&e, &mut instructions, &mut aggregations);
    assert!(r.is_err());
}

#[test]
fn test_variable_names() {
    let mut manager = VariablesManager::new(&Manager::new());
    manager.declare_variable(&var("a", 1), gqlitedb::expression_analyser::ExpressionType::Node).unwrap();
    manager.declare_variable(&var("b", 2), gqlitedb::expression_analyser::ExpressionType::Node).unwrap();
    manager.mark_variables_as_set(Some(&var("b", 2))).unwrap();
    let (set, all) = manager.variable_names();
    assert_eq!(set, vec!["b".to_string()]);
    assert_eq!(all, vec!["a".to_string(), "b".to_string()]);
}
