use gqlitedb::gqb::{to_graph_label_impl, BinOp, ToGraphLabel, Variable, Variables};

#[test]
fn test_to_graph_label() {
    assert_eq!("?%899asadA".to_graph_label(), "__899asadA".to_string());
    assert_eq!("?%899asadA".to_string().to_graph_label(), "__899asadA".to_string());
}

#[test]
fn test_to_graph_label_keeps_underscores_and_replaces_unicode() {
    assert_eq!(to_graph_label_impl("a_b é-1"), "a_b___1".to_string());
    assert_eq!(to_graph_label_impl(""), "".to_string());
}

#[test]
fn test_bin_op_text() {
    assert_eq!(BinOp::And.into_oc_query(), "AND");
    assert_eq!(BinOp::Different.into_oc_query(), "!=");
    assert_eq!(BinOp::SuperiorEqual.into_oc_query(), ">=");
    assert_eq!(BinOp::Division.into_oc_query(), "/");
}

#[test]
fn test_variable_text() {
    assert_eq!(Variable::new("n", 1).to_string(), "n1");
    assert_eq!(Variable::new("e", 305).to_string(), "e305");
}

#[test]
fn test_fill_variables() {
    let a = Variable::new("n", 1);
    let b = Variable::new("n", 2);
    let c = Variable::new("e", 3);
    let mut v = Vec::new();
    a.fill(&mut v);
    (b, c).fill(&mut v);
    vec![a, c].fill(&mut v);
    assert_eq!(v, vec![a, b, c, a, c]);
}

use gqlitedb::query_builder::{binary_op, function_call, Builder, Expression};
use gqlitedb::value::{Value, ValueMap};

fn labels(ls: &[&str]) -> Vec<String> {
    ls.iter().map(|l| l.to_string()).collect()
}

fn props(entries: &[(&str, i64)]) -> ValueMap {
    let mut m = ValueMap::new();
    for (k, v) in entries {
        m.insert(k.to_string(), Value::Integer(*v));
    }
    m
}

#[test]
fn test_create() {
    let mut b = Builder::new();
    let n1 = b.create_node(labels(&["a"]), ValueMap::new());
    let ns = b.create_nodes(vec![(labels(&["b"]), ValueMap::new()), (labels(&["c"]), ValueMap::new())]);
    let (n2, n3) = (ns[0], ns[1]);
    let _ = b.create_edge(n1, labels(&["d"]), ValueMap::new(), n2);
    let _ = b.create_edges(vec![
        (n1, labels(&["e"]), ValueMap::new(), n3),
        (n2, labels(&["f"]), ValueMap::new(), n3),
    ]);
    let (q, b) = b.into_oc_query();
    assert_eq!(q, "CREATE (n1:a), (n2:b), (n3:c), (n1)-[e4:d]->(n2), (n1)-[e5:e]->(n3), (n2)-[e6:f]->(n3)".to_string());
    assert_eq!(b.len(), 0);
}

#[test]
fn test_create_no_label() {
    let mut b = Builder::new();
    b.create_node(labels(&[]), ValueMap::new());
    let (q, b) = b.into_oc_query();
    assert_eq!(q, "CREATE (n1)");
    assert_eq!(b.len(), 0);

    let mut b = Builder::new();
    b.create_node(labels(&[]), props(&[("a", 1)]));
    let (q, b) = b.into_oc_query();
    assert_eq!(q, "CREATE (n1 $b0)");
    assert_eq!(b.len(), 1);
    assert_eq!(b.get(&"$b0".to_string()), Some(&Value::Mapping(props(&[("a", 1)]))));

    let mut b = Builder::new();
    let n1 = b.create_node(labels(&[]), ValueMap::new());
    let n2 = b.create_node(labels(&[]), ValueMap::new());
    b.create_edge(n1, labels(&["a"]), ValueMap::new(), n2);
    let (q, b) = b.into_oc_query();
    assert_eq!(q, "CREATE (n1), (n2), (n1)-[e3:a]->(n2)");
    assert_eq!(b.len(), 0);

    let mut b = Builder::new();
    let n1 = b.create_node(labels(&[]), ValueMap::new());
    let n2 = b.create_node(labels(&[]), ValueMap::new());
    b.create_edge(n1, labels(&["b"]), props(&[("a", 1)]), n2);
    let (q, b) = b.into_oc_query();
    assert_eq!(q, "CREATE (n1), (n2), (n1)-[e3:b $b0]->(n2)");
    assert_eq!(b.get(&"$b0".to_string()), Some(&Value::Mapping(props(&[("a", 1)]))));
    assert_eq!(b.len(), 1);
}

#[test]
fn test_select() {
    let mut b = Builder::new();
    let n1 = b.match_node(labels(&["a"]), props(&[("id", 3)]));
    let n2 = b.node_variable();
    let e1 = b.match_edge(Some(n1), labels(&["b"]), props(&[("id", 2)]), Some(n2));
    let _p1 = b.match_path(Some(n1), labels(&["b"]), props(&[("id", 2)]), Some(n2));
    b.return_variable(n1, "n1".to_string());
    b.return_variable(e1, "e1".to_string());
    b.return_variable(n2, "n2".to_string());
    let (q, b) = b.into_oc_query();
    assert_eq!(
        q,
        "MATCH (n1:a $b0), (n1)-[e3:b $b1]->(n2), p4 = (n1)-[e5:b $b2]->(n2) RETURN n1 AS n1, e3 AS e1, n2 AS n2".to_string()
    );
    assert_eq!(b.len(), 3);
    assert_eq!(b.get(&"$b0".to_string()), Some(&Value::Mapping(props(&[("id", 3)]))));
    assert_eq!(b.get(&"$b1".to_string()), Some(&Value::Mapping(props(&[("id", 2)]))));
    assert_eq!(b.get(&"$b2".to_string()), Some(&Value::Mapping(props(&[("id", 2)]))));
}

#[test]
fn test_delete() {
    let mut b = Builder::new();
    let n1 = b.node_variable();
    let n2 = b.node_variable();
    let n3 = b.node_variable();
    let n4 = b.node_variable();
    let n5 = b.node_variable();
    b.delete(n1);
    b.delete((n2, n3));
    b.delete(vec![n4, n5]);
    let (q, b) = b.into_oc_query();
    assert_eq!(q, "DELETE n1, n2, n3, n4, n5".to_string());
    assert_eq!(b.len(), 0);
}

#[test]
fn test_where() {
    let vid = Value::Key(0x1234_5678_9abc_def0);
    let mut b = Builder::new();
    let v1 = b.match_node(labels(&[]), ValueMap::new());
    b.where_statement(binary_op(
        BinOp::Equal,
        function_call("id".to_string(), vec![Expression::Variable(v1)]),
        Expression::Literal(Box::new(Value::Key(0x1234_5678_9abc_def0))),
    ));
    let (q, b) = b.into_oc_query();
    assert_eq!(q, "MATCH (n1) WHERE (id(n1)) = ($l0)".to_string());
    assert_eq!(b.get(&"$l0".to_string()), Some(&vid));
    assert_eq!(b.len(), 1);
}

#[test]
fn test_set() {
    let mut b = Builder::new();
    let var = b.create_node(labels(&["a"]), ValueMap::new());
    b.set_assignment(var, vec!["bob".to_string()], Expression::Literal(Box::new(Value::Integer(1))));
    b.return_property(var, vec!["bob".to_string()], "bob".to_string());
    let (q, b) = b.into_oc_query();
    assert_eq!(q, "CREATE (n1:a) SET n1.bob = $l0 RETURN n1.bob AS bob");
    assert_eq!(b.get(&"$l0".to_string()), Some(&Value::Integer(1)));
    assert_eq!(b.len(), 1);
}

#[test]
fn test_graph_management_text() {
    let mut b = Builder::new();
    b.create_graph("Hello".to_string(), false);
    b.create_node(labels(&["a"]), ValueMap::new());
    b.use_graph("default".to_string());
    b.create_node(labels(&["b"]), ValueMap::new());
    b.drop_graph("Hello".to_string(), true);
    b.create_graph("Other".to_string(), true);
    let (q, _) = b.into_oc_query();
    assert_eq!(
        q,
        "CREATE GRAPH Hello CREATE (n1:a) USE default CREATE (n2:b) DROP GRAPH IF EXISTS Hello CREATE GRAPH IF NOT EXISTS Other"
    );
}

#[test]
fn test_literal_numbering_follows_properties() {
    let mut b = Builder::new();
    let n1 = b.match_node(labels(&["a", "b"]), props(&[("x", 1)]));
    b.where_statement(binary_op(
        BinOp::And,
        binary_op(BinOp::Superior, Expression::Variable(n1), Expression::Literal(Box::new(Value::Integer(2)))),
        function_call("f".to_string(), vec![Expression::Literal(Box::new(Value::Null)), Expression::Variable(n1)]),
    ));
    b.detach_delete(n1);
    let (q, b) = b.into_oc_query();
    assert_eq!(q, "MATCH (n1:a:b $b0) WHERE ((n1) > ($l1)) AND (f($l2,n1)) DETACH DELETE n1");
    assert_eq!(b.len(), 3);
    assert_eq!(b.get(&"$l1".to_string()), Some(&Value::Integer(2)));
    assert_eq!(b.get(&"$l2".to_string()), Some(&Value::Null));
}
