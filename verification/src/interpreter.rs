use vstd::prelude::*;
use crate::arithmetic::{arithmetic, arithmetic_safe, arithmetic_spec, negation, negation_safe, negation_spec, ArithmeticOperator};
use crate::error::{kind_of, Error, ErrorKind, InternalError, RunTimeError};
use crate::evaluators::{boolean_operator_result, execute_boolean_operator, graph_value, is_boolean_operator, Stack, StackValue};
use crate::instructions::{Block, Instruction};
use crate::store::{EdgeQueryModel, NodeQueryModel, SelectEdgeQuery, SelectNodeQuery};
use crate::value::{clone_strings, view_labels, Node, NodeModel, Path, PathModel, Value, ValueMap, ValueModel};

verus! {

broadcast use vstd::std_specs::vec::group_vec_axioms;

/// Model of a value on the evaluation stack.
pub enum StackModel {
    Graph(ValueModel),
    NodeQuery(NodeQueryModel),
    EdgeQuery(EdgeQueryModel),
}

pub open spec fn view_stack_value(v: StackValue) -> StackModel {
    match v {
        StackValue::GraphValue(g) => StackModel::Graph(g@),
        StackValue::NodeQuery(q) => StackModel::NodeQuery(q@),
        StackValue::EdgeQuery(q) => StackModel::EdgeQuery(q@),
    }
}

/// Model of the evaluation stack, from the bottom to the top.
pub open spec fn view_stack(s: Seq<StackValue>) -> Seq<StackModel> {
    s.map_values(|v: StackValue| view_stack_value(v))
}

/// Removing the top of the stack, which must be a graph value: the rest and the value.
pub open spec fn pop_graph(s: Seq<StackModel>) -> Result<(Seq<StackModel>, ValueModel), ErrorKind> {
    if s.len() == 0 {
        Err(ErrorKind::EmptyStack)
    } else {
        match s.last() {
            StackModel::Graph(v) => Ok((s.drop_last(), v)),
            _ => Err(ErrorKind::ExpectedGraphValue),
        }
    }
}

/// Removing the top of the stack, which must be a node query: the rest and the query.
pub open spec fn pop_node_query(s: Seq<StackModel>) -> Result<(Seq<StackModel>, NodeQueryModel), ErrorKind> {
    if s.len() == 0 {
        Err(ErrorKind::EmptyStack)
    } else {
        match s.last() {
            StackModel::NodeQuery(q) => Ok((s.drop_last(), q)),
            _ => Err(ErrorKind::ExpectedNodeQuery),
        }
    }
}

/// Value of a property, null when missing.
pub open spec fn property_or_null(m: Map<Seq<char>, ValueModel>, k: Seq<char>) -> ValueModel {
    if m.contains_key(k) { m[k] } else { ValueModel::Null }
}

/// Reading a container at a non-null index: an element of a list by an integer, the value of a
/// map by a string, or a property of a node or edge by a string; null in null.
pub open spec fn index_spec(container: ValueModel, index: ValueModel) -> Result<ValueModel, ErrorKind> {
    match container {
        ValueModel::List(a) => match index {
            ValueModel::Integer(i) => if (i as usize) < a.len() { Ok(a[(i as usize) as int]) } else { Err(ErrorKind::OutOfBound) },
            _ => Err(ErrorKind::RunTimeInvalidArgumentType),
        },
        ValueModel::Dict(m) => match index {
            ValueModel::Text(k) => Ok(property_or_null(m, k)),
            _ => Err(ErrorKind::MapElementAccessByNonString),
        },
        ValueModel::Node(n) => match index {
            ValueModel::Text(k) => Ok(property_or_null(n.properties, k)),
            _ => Err(ErrorKind::RunTimeInvalidArgumentType),
        },
        ValueModel::Edge(n) => match index {
            ValueModel::Text(k) => Ok(property_or_null(n.properties, k)),
            _ => Err(ErrorKind::RunTimeInvalidArgumentType),
        },
        ValueModel::Null => Ok(ValueModel::Null),
        _ => Err(ErrorKind::RunTimeInvalidArgumentType),
    }
}

/// Node query made from the properties of a node pattern: the node itself, the nodes with the
/// labels and properties, or none for null.
pub open spec fn node_query_spec(labels: Seq<Seq<char>>, props: ValueModel) -> Result<NodeQueryModel, ErrorKind> {
    match props {
        ValueModel::Node(n) => Ok(NodeQueryModel { keys: Some(seq![n.key]), labels: None, properties: None, select_all: false }),
        ValueModel::Dict(m) => Ok(NodeQueryModel { keys: None, labels: Some(labels), properties: Some(m), select_all: false }),
        ValueModel::Null => Ok(NodeQueryModel { keys: None, labels: None, properties: None, select_all: false }),
        _ => Err(ErrorKind::InvalidValueCast),
    }
}

/// Edge query made from the properties of an edge pattern and the queries of its ends.
pub open spec fn edge_query_spec(labels: Seq<Seq<char>>, props: ValueModel, src: NodeQueryModel, dst: NodeQueryModel) -> Result<EdgeQueryModel, ErrorKind> {
    let none = NodeQueryModel { keys: None, labels: None, properties: None, select_all: false };
    match props {
        ValueModel::Edge(e) => Ok(EdgeQueryModel { keys: Some(seq![e.key]), labels: None, properties: None, source: src, destination: dst }),
        ValueModel::Dict(m) => Ok(EdgeQueryModel { keys: None, labels: Some(labels), properties: Some(m), source: src, destination: dst }),
        ValueModel::Null => Ok(EdgeQueryModel { keys: None, labels: None, properties: None, source: none, destination: none }),
        _ => Err(ErrorKind::InvalidValueCast),
    }
}

/// Removing `n` graph values, the top first: the values from the deepest to the top, or the
/// first error.
pub open spec fn pop_values(s: Seq<StackModel>, n: nat) -> Result<Seq<ValueModel>, ErrorKind>
    decreases n,
{
    if n == 0 {
        Ok(Seq::empty())
    } else {
        match pop_graph(s) {
            Err(k) => Err(k),
            Ok((rest, v)) => match pop_values(rest, (n - 1) as nat) {
                Err(k) => Err(k),
                Ok(vs) => Ok(vs.push(v)),
            },
        }
    }
}

/// The stack once `n` graph values are removed.
pub open spec fn popped(s: Seq<StackModel>, n: nat) -> Seq<StackModel> {
    s.take(s.len() - n)
}

/// Map of keys to values, where the first occurrence of a key wins.
pub open spec fn dict_of(keys: Seq<Seq<char>>, vs: Seq<ValueModel>) -> Map<Seq<char>, ValueModel>
    decreases keys.len(),
{
    if keys.len() == 0 || vs.len() == 0 {
        Map::empty()
    } else {
        dict_of(keys.drop_first(), vs.drop_first()).insert(keys[0], vs[0])
    }
}

/// The arithmetic operator of an instruction, if it is one.
pub open spec fn arithmetic_operator(i: Instruction) -> Option<ArithmeticOperator> {
    match i {
        Instruction::AdditionBinaryOperator => Some(ArithmeticOperator::Addition),
        Instruction::SubtractionBinaryOperator => Some(ArithmeticOperator::Subtraction),
        Instruction::MultiplicationBinaryOperator => Some(ArithmeticOperator::Multiplication),
        Instruction::DivisionBinaryOperator => Some(ArithmeticOperator::Division),
        Instruction::ModuloBinaryOperator => Some(ArithmeticOperator::Modulo),
        Instruction::ExponentBinaryOperator => Some(ArithmeticOperator::Exponent),
        _ => None,
    }
}

/// The two operands at the top of the stack, the left one on top, and the rest of the stack.
pub open spec fn binary_operands(s: Seq<StackModel>) -> Result<(Seq<StackModel>, ValueModel, ValueModel), ErrorKind> {
    let n = s.len();
    if n < 2 {
        Err(ErrorKind::EmptyStack)
    } else {
        match (s[n - 1], s[n - 2]) {
            (StackModel::Graph(a), StackModel::Graph(b)) => Ok((s.take(n - 2), a, b)),
            _ => Err(ErrorKind::ExpectedGraphValue),
        }
    }
}

/// The instructions whose result is given by `step_spec`: all but the node and edge literals,
/// which take a fresh key, and function calls.
pub open spec fn is_deterministic(i: Instruction) -> bool {
    !(i is CreateNodeLiteral || i is CreateEdgeLiteral || i is FunctionCall)
}

/// The instruction can be executed on this stack and a row of this length without a panic or
/// an overflow. Member access, the comparisons and list membership are not evaluated by this
/// library.
pub open spec fn step_safe(i: Instruction, s: Seq<StackModel>, row_len: nat) -> bool {
    match i {
        Instruction::MemberAccess { .. } | Instruction::EqualBinaryOperator | Instruction::NotEqualBinaryOperator
        | Instruction::InferiorBinaryOperator | Instruction::SuperiorBinaryOperator
        | Instruction::InferiorEqualBinaryOperator | Instruction::SuperiorEqualBinaryOperator
        | Instruction::InBinaryOperator | Instruction::NotInBinaryOperator => false,
        Instruction::FunctionCall { function, .. } => crate::builtins::callable(function@),
        Instruction::GetVariable { col_id } => col_id < row_len,
        Instruction::RangeAccess { start, end } => range_safe(s, start, end),
        Instruction::NegationUnaryOperator => pop_graph(s) matches Ok((_, a)) ==> negation_safe(a),
        _ => match arithmetic_operator(i) {
            Some(op) => binary_operands(s) matches Ok((_, a, b)) ==> arithmetic_safe(op, a, b),
            None => true,
        },
    }
}

/// The properties of a literal: those of a map, none for anything else.
pub open spec fn into_map(v: ValueModel) -> Map<Seq<char>, ValueModel> {
    match v {
        ValueModel::Dict(m) => m,
        _ => Map::empty(),
    }
}

/// Removing the top of the stack, which must be a node.
pub open spec fn pop_node(s: Seq<StackModel>) -> Result<(Seq<StackModel>, NodeModel), ErrorKind> {
    match pop_graph(s) {
        Err(k) => Err(k),
        Ok((rest, ValueModel::Node(n))) => Ok((rest, n)),
        Ok(_) => Err(ErrorKind::RunTimeInvalidArgumentType),
    }
}

/// The result of an execution: the new stack, or the kind of the error.
pub open spec fn outcome_of(r: Result<(), Error>, s: Seq<StackModel>) -> Result<Seq<StackModel>, ErrorKind> {
    match r {
        Ok(()) => Ok(s),
        Err(e) => Err(kind_of(e)),
    }
}

/// The outcomes that one instruction may have. A node or edge literal gets a key that is not
/// stated; a function call has the outcome that `call_outcome` gives; every other instruction
/// has the single outcome of `step_spec`.
#[verifier::opaque]
pub open spec fn step_outcome(
    i: Instruction,
    s: Seq<StackModel>,
    params: Map<Seq<char>, ValueModel>,
    row: Seq<ValueModel>,
    out: Result<Seq<StackModel>, ErrorKind>,
) -> bool {
    match i {
        Instruction::CreateNodeLiteral { labels } => match pop_graph(s) {
            Err(k) => out == Err::<Seq<StackModel>, ErrorKind>(k),
            Ok((rest, props)) => exists|key: u128| out == Ok::<Seq<StackModel>, ErrorKind>(rest.push(StackModel::Graph(
                ValueModel::Node(NodeModel { key, labels: view_labels(labels@), properties: into_map(props) })))),
        },
        Instruction::CreateEdgeLiteral { labels } => match pop_graph(s) {
            Err(k) => out == Err::<Seq<StackModel>, ErrorKind>(k),
            Ok((r1, props)) => match pop_node(r1) {
                Err(k) => out == Err::<Seq<StackModel>, ErrorKind>(k),
                Ok((r2, dst)) => match pop_node(r2) {
                    Err(k) => out == Err::<Seq<StackModel>, ErrorKind>(k),
                    Ok((r3, src)) => exists|key: u128| out == Ok::<Seq<StackModel>, ErrorKind>(r3.push(StackModel::Graph(
                        ValueModel::Path(PathModel {
                            key,
                            source: src,
                            labels: view_labels(labels@),
                            properties: into_map(props),
                            destination: dst,
                        })))),
                },
            },
        },
        Instruction::FunctionCall { function, arguments_count } => match drained_values(s, arguments_count as nat) {
            Err(k) => out == Err::<Seq<StackModel>, ErrorKind>(k),
            Ok(args) => match out {
                Err(k) => crate::builtins::call_outcome(function@, args, Err(k)),
                Ok(s2) => {
                    let rest = popped(s, arguments_count as nat);
                    &&& s2.len() == rest.len() + 1
                    &&& s2.drop_last() == rest
                    &&& s2.last() matches StackModel::Graph(v) && crate::builtins::call_outcome(function@, args, Ok(v))
                },
            },
        },
        _ => out == step_spec(i, s, params, row),
    }
}

/// The stack after one instruction, or the error it raises.
pub open spec fn step_spec(
    i: Instruction,
    s: Seq<StackModel>,
    params: Map<Seq<char>, ValueModel>,
    row: Seq<ValueModel>,
) -> Result<Seq<StackModel>, ErrorKind> {
    let n = s.len();
    match i {
        Instruction::Push { value } => Ok(s.push(StackModel::Graph(value@))),
        Instruction::GetParameter { name } => if params.contains_key(name@) {
            Ok(s.push(StackModel::Graph(params[name@])))
        } else {
            Err(ErrorKind::UnknownParameter)
        },
        Instruction::Duplicate => if n == 0 { Err(ErrorKind::EmptyStack) } else { Ok(s.push(s.last())) },
        Instruction::Rot3 => if n < 3 {
            Err(ErrorKind::EmptyStack)
        } else {
            Ok(s.take(n - 3) + seq![s[n - 1], s[n - 3], s[n - 2]])
        },
        Instruction::InverseRot3 => if n < 3 {
            Err(ErrorKind::EmptyStack)
        } else {
            Ok(s.take(n - 3) + seq![s[n - 2], s[n - 1], s[n - 3]])
        },
        Instruction::Swap => if n < 2 { Err(ErrorKind::EmptyStack) } else { Ok(s.take(n - 2) + seq![s[n - 1], s[n - 2]]) },
        Instruction::AndBinaryOperator | Instruction::OrBinaryOperator | Instruction::XorBinaryOperator => if n < 2 {
            Err(ErrorKind::EmptyStack)
        } else {
            match (s[n - 1], s[n - 2]) {
                (StackModel::Graph(a), StackModel::Graph(b)) => match boolean_operator_result(i, a, b) {
                    Some(v) => Ok(s.take(n - 2).push(StackModel::Graph(v))),
                    None => Err(ErrorKind::InvalidValueCast),
                },
                _ => Err(ErrorKind::ExpectedGraphValue),
            }
        },
        Instruction::NotUnaryOperator => match pop_graph(s) {
            Err(k) => Err(k),
            Ok((rest, a)) => match a {
                ValueModel::Null => Ok(rest.push(StackModel::Graph(ValueModel::Null))),
                ValueModel::Boolean(b) => Ok(rest.push(StackModel::Graph(ValueModel::Boolean(!b)))),
                _ => Err(ErrorKind::RunTimeInvalidArgumentType),
            },
        },
        Instruction::IsNullUnaryOperator => match pop_graph(s) {
            Err(k) => Err(k),
            Ok((rest, a)) => Ok(rest.push(StackModel::Graph(ValueModel::Boolean(a is Null)))),
        },
        Instruction::IndexAccess => match pop_graph(s) {
            Err(k) => Err(k),
            Ok((rest, index)) => if index is Null {
                if rest.len() == 0 { Err(ErrorKind::EmptyStack) } else { Ok(rest.drop_last().push(StackModel::Graph(ValueModel::Null))) }
            } else {
                match pop_graph(rest) {
                    Err(k) => Err(k),
                    Ok((rest2, container)) => match index_spec(container, index) {
                        Err(k) => Err(k),
                        Ok(v) => Ok(rest2.push(StackModel::Graph(v))),
                    },
                }
            },
        },
        Instruction::CreateNodeQuery { labels } => match pop_graph(s) {
            Err(k) => Err(k),
            Ok((rest, props)) => match node_query_spec(view_labels(labels@), props) {
                Err(k) => Err(k),
                Ok(q) => Ok(rest.push(StackModel::NodeQuery(q))),
            },
        },
        Instruction::CreateEdgeQuery { labels } => match pop_graph(s) {
            Err(k) => Err(k),
            Ok((r1, props)) => match pop_node_query(r1) {
                Err(k) => Err(k),
                Ok((r2, dst)) => match pop_node_query(r2) {
                    Err(k) => Err(k),
                    Ok((r3, src)) => match edge_query_spec(view_labels(labels@), props, src, dst) {
                        Err(k) => Err(k),
                        Ok(q) => Ok(r3.push(StackModel::EdgeQuery(q))),
                    },
                },
            },
        },
        Instruction::CreateArray { length } => match pop_values(s, length as nat) {
            Err(k) => Err(k),
            Ok(vs) => Ok(popped(s, length as nat).push(StackModel::Graph(ValueModel::List(vs)))),
        },
        Instruction::CreateMap { keys } => match pop_values(s, keys@.len()) {
            Err(k) => Err(k),
            Ok(vs) => Ok(popped(s, keys@.len()).push(StackModel::Graph(ValueModel::Dict(dict_of(view_labels(keys@), vs))))),
        },
        Instruction::GetVariable { col_id } => if col_id < row.len() {
            Ok(s.push(StackModel::Graph(row[col_id as int])))
        } else {
            Err(ErrorKind::Unreachable)
        },
        Instruction::RangeAccess { start, end } => range_step(s, start, end),
        Instruction::NegationUnaryOperator => match pop_graph(s) {
            Err(k) => Err(k),
            Ok((rest, a)) => match negation_spec(a) {
                Err(k) => Err(k),
                Ok(v) => Ok(rest.push(StackModel::Graph(v))),
            },
        },
        _ => match arithmetic_operator(i) {
            Some(op) => match binary_operands(s) {
                Err(k) => Err(k),
                Ok((rest, a, b)) => match arithmetic_spec(op, a, b) {
                    Err(k) => Err(k),
                    Ok(v) => Ok(rest.push(StackModel::Graph(v))),
                },
            },
            None => Err(ErrorKind::Unreachable),
        },
    }
}

/// A trace of an execution: the outcome before each instruction executed so far, starting from
/// the stack `s`; an error is carried to the end unchanged.
pub open spec fn valid_trace(
    is: Seq<Instruction>,
    s: Seq<StackModel>,
    params: Map<Seq<char>, ValueModel>,
    row: Seq<ValueModel>,
    trace: Seq<Result<Seq<StackModel>, ErrorKind>>,
) -> bool {
    &&& 0 < trace.len() <= is.len() + 1
    &&& trace[0] == Ok::<Seq<StackModel>, ErrorKind>(s)
    &&& forall|j: int| 0 <= j < trace.len() - 1 ==> match #[trigger] trace[j] {
        Err(k) => trace[j + 1] == Err::<Seq<StackModel>, ErrorKind>(k),
        Ok(sj) => step_outcome(is[j], sj, params, row, trace[j + 1]),
    }
}

/// The outcomes that the instructions, executed in order, may have: the final stack, or the
/// first error.
pub open spec fn run_outcome(
    is: Seq<Instruction>,
    s: Seq<StackModel>,
    params: Map<Seq<char>, ValueModel>,
    row: Seq<ValueModel>,
    out: Result<Seq<StackModel>, ErrorKind>,
) -> bool {
    exists|trace: Seq<Result<Seq<StackModel>, ErrorKind>>| #[trigger] valid_trace(is, s, params, row, trace)
        && trace.len() == is.len() + 1 && trace.last() == out
}

/// Each instruction can be executed safely on every stack that the instructions before it may
/// leave.
pub open spec fn run_safe(is: Seq<Instruction>, s: Seq<StackModel>, params: Map<Seq<char>, ValueModel>, row: Seq<ValueModel>) -> bool {
    forall|trace: Seq<Result<Seq<StackModel>, ErrorKind>>| #[trigger] valid_trace(is, s, params, row, trace)
        && trace.len() <= is.len() && trace.last() is Ok
        ==> step_safe(is[trace.len() - 1], trace.last()->Ok_0, row.len())
}

/// After an error, the trace carries it to the end.
proof fn lemma_trace_err(
    is: Seq<Instruction>,
    s: Seq<StackModel>,
    params: Map<Seq<char>, ValueModel>,
    row: Seq<ValueModel>,
    trace: Seq<Result<Seq<StackModel>, ErrorKind>>,
    k: ErrorKind,
)
    requires
        valid_trace(is, s, params, row, trace),
        trace.last() == Err::<Seq<StackModel>, ErrorKind>(k),
    ensures
        run_outcome(is, s, params, row, Err(k)),
    decreases is.len() + 1 - trace.len(),
{
    if trace.len() == is.len() + 1 {
        assert(valid_trace(is, s, params, row, trace));
    } else {
        let t2 = trace.push(Err(k));
        assert forall|j: int| 0 <= j < t2.len() - 1 implies match #[trigger] t2[j] {
            Err(k2) => t2[j + 1] == Err::<Seq<StackModel>, ErrorKind>(k2),
            Ok(sj) => step_outcome(is[j], sj, params, row, t2[j + 1]),
        } by {
            if j < trace.len() - 1 {
                assert(t2[j] == trace[j]);
                assert(t2[j + 1] == trace[j + 1]);
            }
        }
        lemma_trace_err(is, s, params, row, t2, k);
    }
}

/// Pushing a value onto the stack.
proof fn lemma_view_push(s: Seq<StackValue>, v: StackValue)
    ensures
        view_stack(s.push(v)) == view_stack(s).push(view_stack_value(v)),
{
    assert(view_stack(s.push(v)) =~= view_stack(s).push(view_stack_value(v)));
}

/// Removing the top of the stack.
proof fn lemma_view_drop_last(s: Seq<StackValue>)
    requires
        s.len() > 0,
    ensures
        view_stack(s.drop_last()) == view_stack(s).drop_last(),
        view_stack(s).last() == view_stack_value(s.last()),
{
    assert(view_stack(s.drop_last()) =~= view_stack(s).drop_last());
}

/// A copy of a stack value.
fn duplicate_stack_value(v: &StackValue) -> (r: StackValue)
    ensures
        view_stack_value(r) == view_stack_value(*v),
{
    match v {
        StackValue::GraphValue(g) => StackValue::GraphValue(g.deep_clone()),
        StackValue::NodeQuery(q) => StackValue::NodeQuery(q.duplicate()),
        StackValue::EdgeQuery(q) => StackValue::EdgeQuery(q.duplicate()),
    }
}

/// Removes the top of the stack, which must be a node query.
fn try_pop_node_query(stack: &mut Stack) -> (r: Result<SelectNodeQuery, Error>)
    ensures
        match pop_node_query(view_stack(old(stack)@)) {
            Err(k) => r matches Err(e) && kind_of(e) == k,
            Ok((rest, q)) => r matches Ok(x) && x@ == q && view_stack(final(stack)@) == rest,
        },
{
    proof {
        if old(stack)@.len() > 0 {
            lemma_view_drop_last(old(stack)@);
        }
    }
    let v = match stack.try_pop() {
        Ok(v) => v,
        Err(e) => return Err(e),
    };
    match v {
        StackValue::NodeQuery(q) => Ok(q),
        _ => Err(Error::Internal(InternalError::ExpectedNodeQuery { context: "try_into" })),
    }
}

/// Removes the top of the stack, which must be a graph value.
fn try_pop_graph(stack: &mut Stack) -> (r: Result<Value, Error>)
    ensures
        match pop_graph(view_stack(old(stack)@)) {
            Err(k) => r matches Err(e) && kind_of(e) == k,
            Ok((rest, v)) => r matches Ok(x) && x@ == v && view_stack(final(stack)@) == rest,
        },
{
    proof {
        if old(stack)@.len() > 0 {
            lemma_view_drop_last(old(stack)@);
        }
    }
    stack.try_pop_into_value()
}

/// Pushes a graph value.
fn push_graph(stack: &mut Stack, v: Value)
    ensures
        view_stack(final(stack)@) == view_stack(old(stack)@).push(StackModel::Graph(v@)),
{
    proof { lemma_view_push(stack@, StackValue::GraphValue(v)); }
    stack.push(StackValue::GraphValue(v));
}

/// Pushes a stack value.
fn push_value(stack: &mut Stack, v: StackValue)
    ensures
        view_stack(final(stack)@) == view_stack(old(stack)@).push(view_stack_value(v)),
{
    proof { lemma_view_push(stack@, v); }
    stack.push(v);
}

/// Reads a container at a non-null index.
fn index_value(container: Value, index: Value) -> (r: Result<Value, Error>)
    requires
        !(index@ is Null),
    ensures
        match index_spec(container@, index@) {
            Err(k) => r matches Err(e) && kind_of(e) == k,
            Ok(v) => r matches Ok(x) && x@ == v,
        },
{
    match container {
        Value::Array(a) => match index {
            Value::Integer(i) => {
                let u = #[verifier::truncate] (i as usize);
                proof { crate::value::lemma_view_values_index(a@); }
                assert(container@ == ValueModel::List(crate::value::view_values(a@)));
                if u < a.len() {
                    let r = a[u].deep_clone();
                    assert(r@ == crate::value::view_values(a@)[u as int]);
                    Ok(r)
                } else {
                    Err(Error::RunTime(RunTimeError::OutOfBound))
                }
            },
            _ => Err(Error::RunTime(RunTimeError::InvalidArgumentType)),
        },
        Value::Mapping(m) => match index {
            Value::String(k) => match m.get(&k) {
                None => {
                    assert(container@ == ValueModel::Dict(m.model()));
                    Ok(Value::Null)
                },
                Some(v) => {
                    assert(container@ == ValueModel::Dict(m.model()));
                    Ok(v.deep_clone())
                },
            },
            _ => Err(Error::RunTime(RunTimeError::MapElementAccessByNonString)),
        },
        Value::Node(n) => match index {
            Value::String(k) => {
                assert(container@ == ValueModel::Node(crate::value::view_node(n)));
                assert(crate::value::view_node(n).properties == n.properties.model());
                match n.properties.get(&k) {
                    Some(v) => Ok(v.deep_clone()),
                    None => Ok(Value::Null),
                }
            },
            _ => Err(Error::RunTime(RunTimeError::InvalidArgumentType)),
        },
        Value::Edge(n) => match index {
            Value::String(k) => {
                assert(container@ == ValueModel::Edge(crate::value::view_edge(n)));
                assert(crate::value::view_edge(n).properties == n.properties.model());
                match n.properties.get(&k) {
                    Some(v) => Ok(v.deep_clone()),
                    None => Ok(Value::Null),
                }
            },
            _ => Err(Error::RunTime(RunTimeError::InvalidArgumentType)),
        },
        Value::Null => Ok(Value::Null),
        _ => Err(Error::RunTime(RunTimeError::InvalidArgumentType)),
    }
}

/// Removes `n` graph values, the top first, and returns them from the deepest to the top.
fn pop_graph_values(stack: &mut Stack, n: usize) -> (r: Result<Vec<Value>, Error>)
    ensures
        match pop_values(view_stack(old(stack)@), n as nat) {
            Err(k) => r matches Err(e) && kind_of(e) == k,
            Ok(vs) => r matches Ok(v) && crate::value::view_values(v@) == vs
                && v@.len() == n
                && view_stack(old(stack)@).len() >= n
                && view_stack(final(stack)@) == popped(view_stack(old(stack)@), n as nat),
        },
    decreases n,
{
    if n == 0 {
        let v: Vec<Value> = Vec::new();
        assert(crate::value::view_values(v@) =~= Seq::<ValueModel>::empty());
        assert(view_stack(stack@).take(view_stack(stack@).len() as int) =~= view_stack(stack@));
        return Ok(v);
    }
    let ghost s0 = view_stack(stack@);
    let top = match try_pop_graph(stack) {
        Ok(v) => v,
        Err(e) => return Err(e),
    };
    let mut rest = match pop_graph_values(stack, n - 1) {
        Ok(r) => r,
        Err(e) => return Err(e),
    };
    let ghost before = rest@;
    rest.push(top);
    proof {
        assert(rest@.subrange(0, rest@.len() - 1) =~= before);
        assert(s0.drop_last().take(s0.drop_last().len() - (n - 1)) =~= s0.take(s0.len() - n));
    }
    Ok(rest)
}

/// Builds the map of `CreateMap` from its keys and values.
fn build_map(keys: &Vec<String>, values: Vec<Value>) -> (r: ValueMap)
    requires
        values@.len() == keys@.len(),
    ensures
        r.model() == dict_of(view_labels(keys@), crate::value::view_values(values@)),
{
    let ghost all = crate::value::view_values(values@);
    let ghost ks = view_labels(keys@);
    let ghost n = keys@.len() as int;
    proof { crate::value::lemma_view_values_index(values@); }
    let ghost orig = values@;
    let mut vs = values;
    let mut m = ValueMap::new();
    let mut j = keys.len();
    assert(dict_of(ks.subrange(n, n), all.subrange(n, n)) =~= Map::<Seq<char>, ValueModel>::empty());
    assert(m.model() =~= Map::<Seq<char>, ValueModel>::empty());
    while j > 0
        invariant
            j <= n,
            n == keys@.len(),
            ks == view_labels(keys@),
            orig.len() == n,
            all == crate::value::view_values(orig),
            all.len() == n,
            forall|i: int| 0 <= i < n ==> #[trigger] all[i] == crate::value::view_value(orig[i]),
            vs@ == orig.take(j as int),
            m.model() == dict_of(ks.subrange(j as int, n), all.subrange(j as int, n)),
        decreases j,
    {
        j = j - 1;
        let v = match vs.pop() {
            Some(v) => v,
            None => Value::Null,
        };
        assert(v == orig[j as int]);
        proof {
            assert(ks.subrange(j as int, n).drop_first() =~= ks.subrange(j + 1, n));
            assert(all.subrange(j as int, n).drop_first() =~= all.subrange(j + 1, n));
            assert(vs@ =~= orig.take(j as int));
        }
        m.insert(keys[j].clone(), v);
    }
    assert(ks.subrange(0, n) =~= ks);
    assert(all.subrange(0, n) =~= all);
    m
}

/// `CreateArray`: the values at the top of the stack become a list.
fn eval_create_array(stack: &mut Stack, length: usize) -> (r: Result<(), Error>)
    ensures
        match pop_values(view_stack(old(stack)@), length as nat) {
            Err(k) => r matches Err(e) && kind_of(e) == k,
            Ok(vs) => r is Ok && view_stack(final(stack)@)
                == popped(view_stack(old(stack)@), length as nat).push(StackModel::Graph(ValueModel::List(vs))),
        },
{
    let vs = match pop_graph_values(stack, length) {
        Ok(v) => v,
        Err(e) => return Err(e),
    };
    push_graph(stack, Value::Array(vs));
    Ok(())
}

/// `CreateMap`: the values at the top of the stack become a map, under the keys in order.
fn eval_create_map(stack: &mut Stack, keys: &Vec<String>) -> (r: Result<(), Error>)
    ensures
        match pop_values(view_stack(old(stack)@), keys@.len()) {
            Err(k) => r matches Err(e) && kind_of(e) == k,
            Ok(vs) => r is Ok && view_stack(final(stack)@)
                == popped(view_stack(old(stack)@), keys@.len()).push(StackModel::Graph(ValueModel::Dict(dict_of(view_labels(keys@), vs)))),
        },
{
    let vs = match pop_graph_values(stack, keys.len()) {
        Ok(v) => v,
        Err(e) => return Err(e),
    };
    let m = build_map(keys, vs);
    proof {
        assert(Value::Mapping(m)@ == ValueModel::Dict(m.model()));
    }
    push_graph(stack, Value::Mapping(m));
    Ok(())
}

/// The values of a row, as the model of `GetVariable` reads them.
pub open spec fn row_model(row: Seq<Value>) -> Seq<ValueModel> {
    row.map_values(|v: Value| v@)
}

/// Pops the two operands of a binary operator: the left one is on top.
fn pop_operands(stack: &mut Stack) -> (r: Result<(Value, Value), Error>)
    ensures
        match binary_operands(view_stack(old(stack)@)) {
            Err(k) => r matches Err(e) && kind_of(e) == k,
            Ok((rest, a, b)) => r matches Ok((x, y)) && x@ == a && y@ == b && view_stack(final(stack)@) == rest,
        },
{
    let ghost s0 = stack@;
    let ghost n = s0.len() as int;
    let a = match stack.try_pop() {
        Ok(v) => v,
        Err(e) => return Err(e),
    };
    let b = match stack.try_pop() {
        Ok(v) => v,
        Err(e) => return Err(e),
    };
    proof {
        lemma_view_drop_last(s0);
        lemma_view_drop_last(s0.drop_last());
        assert(s0.drop_last().drop_last() =~= s0.take(n - 2));
        assert(view_stack(s0).take(n - 2) =~= view_stack(s0).drop_last().drop_last());
        assert(view_stack(s0)[n - 2] == view_stack(s0.drop_last()).last());
    }
    let x = match a.try_into_value() {
        Ok(v) => v,
        Err(e) => return Err(e),
    };
    let y = match b.try_into_value() {
        Ok(v) => v,
        Err(e) => return Err(e),
    };
    Ok((x, y))
}

/// Executes an arithmetic operator on the two values at the top of the stack.
fn eval_arithmetic(stack: &mut Stack, op: ArithmeticOperator) -> (r: Result<(), Error>)
    requires
        binary_operands(view_stack(old(stack)@)) matches Ok((_, a, b)) ==> arithmetic_safe(op, a, b),
    ensures
        match binary_operands(view_stack(old(stack)@)) {
            Err(k) => r matches Err(e) && kind_of(e) == k,
            Ok((rest, a, b)) => match arithmetic_spec(op, a, b) {
                Err(k) => r matches Err(e) && kind_of(e) == k,
                Ok(v) => r is Ok && view_stack(final(stack)@) == rest.push(StackModel::Graph(v)),
            },
        },
{
    let (a, b) = match pop_operands(stack) {
        Ok(p) => p,
        Err(e) => return Err(e),
    };
    let v = match arithmetic(op, a, b) {
        Ok(v) => v,
        Err(e) => return Err(e),
    };
    push_graph(stack, v);
    Ok(())
}

/// `CreateNodeLiteral`: replaces the properties at the top of the stack by a node with a fresh key.
fn eval_node_literal(stack: &mut Stack, labels: &Vec<String>) -> (r: Result<(), Error>)
    ensures
        match pop_graph(view_stack(old(stack)@)) {
            Err(k) => r matches Err(e) && kind_of(e) == k,
            Ok((rest, props)) => r is Ok && exists|key: u128| view_stack(final(stack)@) == rest.push(StackModel::Graph(
                ValueModel::Node(NodeModel { key, labels: view_labels(labels@), properties: into_map(props) }))),
        },
{
    let props = match try_pop_graph(stack) {
        Ok(v) => v,
        Err(e) => return Err(e),
    };
    let properties = literal_properties(props);
    let node = Node { key: fresh_key(), labels: clone_strings(labels), properties };
    push_graph(stack, Value::Node(node));
    Ok(())
}

/// Removes the top of the stack, which must be a node.
fn try_pop_node(stack: &mut Stack) -> (r: Result<Node, Error>)
    ensures
        match pop_node(view_stack(old(stack)@)) {
            Err(k) => r matches Err(e) && kind_of(e) == k,
            Ok((rest, n)) => r matches Ok(x) && crate::value::view_node(x) == n && view_stack(final(stack)@) == rest,
        },
{
    match try_pop_graph(stack) {
        Ok(Value::Node(n)) => Ok(n),
        Ok(_) => Err(Error::RunTime(RunTimeError::InvalidArgumentType)),
        Err(e) => Err(e),
    }
}

/// `CreateEdgeLiteral`: replaces the source, the destination and the properties at the top of
/// the stack by a path with a fresh key.
fn eval_edge_literal(stack: &mut Stack, labels: &Vec<String>) -> (r: Result<(), Error>)
    ensures
        match pop_graph(view_stack(old(stack)@)) {
            Err(k) => r matches Err(e) && kind_of(e) == k,
            Ok((r1, props)) => match pop_node(r1) {
                Err(k) => r matches Err(e) && kind_of(e) == k,
                Ok((r2, dst)) => match pop_node(r2) {
                    Err(k) => r matches Err(e) && kind_of(e) == k,
                    Ok((r3, src)) => r is Ok && exists|key: u128| view_stack(final(stack)@) == r3.push(StackModel::Graph(
                        ValueModel::Path(PathModel {
                            key,
                            source: src,
                            labels: view_labels(labels@),
                            properties: into_map(props),
                            destination: dst,
                        }))),
                },
            },
        },
{
    let props = match try_pop_graph(stack) {
        Ok(v) => v,
        Err(e) => return Err(e),
    };
    let destination = match try_pop_node(stack) {
        Ok(n) => n,
        Err(e) => return Err(e),
    };
    let source = match try_pop_node(stack) {
        Ok(n) => n,
        Err(e) => return Err(e),
    };
    let properties = literal_properties(props);
    let path = Path { key: fresh_key(), source, labels: clone_strings(labels), properties, destination };
    push_graph(stack, Value::Path(path));
    Ok(())
}

/// The properties of a literal: the map, or an empty one for any other value.
fn literal_properties(v: Value) -> (r: ValueMap)
    ensures
        crate::value::view_map(r) == into_map(v@),
{
    match v {
        Value::Mapping(m) => m,
        _ => ValueMap::new(),
    }
}

/// graphcore's `Key::default`: a new key from a random (version 4) UUID. Nothing is stated of
/// its value.
#[verifier::external_body]
fn fresh_key() -> (r: u128) {
    graphcore::Key::default().uuid()
}

/// Executes one instruction on the stack, reading the row and the parameters.
pub fn eval_instruction(stack: &mut Stack, instruction: &Instruction, row: &Vec<Value>, parameters: &ValueMap) -> (r: Result<(), Error>)
    requires
        step_safe(*instruction, view_stack(old(stack)@), row@.len()),
    ensures
        step_outcome(*instruction, view_stack(old(stack)@), parameters.model(), row_model(row@), outcome_of(r, view_stack(final(stack)@))),
{
    let r = match instruction {
        Instruction::CreateNodeLiteral { labels } => eval_node_literal(stack, labels),
        Instruction::CreateEdgeLiteral { labels } => eval_edge_literal(stack, labels),
        Instruction::FunctionCall { function, arguments_count } => eval_function_call(stack, function, *arguments_count),
        _ => eval_stack_instruction(stack, instruction, row, parameters),
    };
    proof { reveal(step_outcome); }
    r
}

/// Executes an instruction whose outcome is given by `step_spec`.
#[verifier::rlimit(60)]
fn eval_stack_instruction(stack: &mut Stack, instruction: &Instruction, row: &Vec<Value>, parameters: &ValueMap) -> (r: Result<(), Error>)
    requires
        is_deterministic(*instruction),
        step_safe(*instruction, view_stack(old(stack)@), row@.len()),
    ensures
        match step_spec(*instruction, view_stack(old(stack)@), parameters.model(), row_model(row@)) {
            Err(k) => r matches Err(e) && kind_of(e) == k,
            Ok(s) => r is Ok && view_stack(final(stack)@) == s,
        },
{
    let ghost s0 = stack@;
    let ghost v0 = view_stack(s0);
    let ghost n = s0.len() as int;
    match instruction {
        Instruction::Push { value } => {
            push_graph(stack, value.deep_clone());
            Ok(())
        },
        Instruction::GetParameter { name } => match parameters.get(name) {
            Some(v) => {
                push_graph(stack, v.deep_clone());
                Ok(())
            },
            None => Err(Error::RunTime(RunTimeError::UnknownParameter { name: name.clone() })),
        },
        Instruction::Duplicate => {
            let d = match stack.try_last() {
                Ok(v) => duplicate_stack_value(v),
                Err(e) => return Err(e),
            };
            proof { lemma_view_drop_last(s0); }
            push_value(stack, d);
            Ok(())
        },
        Instruction::Rot3 | Instruction::InverseRot3 => {
            let a = match stack.try_pop() {
                Ok(v) => v,
                Err(e) => return Err(e),
            };
            let b = match stack.try_pop() {
                Ok(v) => v,
                Err(e) => return Err(e),
            };
            let c = match stack.try_pop() {
                Ok(v) => v,
                Err(e) => return Err(e),
            };
            let rot = match instruction {
                Instruction::Rot3 => true,
                _ => false,
            };
            if rot {
                stack.push(a);
                stack.push(c);
                stack.push(b);
                proof {
                    assert(stack@ =~= s0.take(n - 3) + seq![s0[n - 1], s0[n - 3], s0[n - 2]]);
                    assert(view_stack(stack@) =~= v0.take(n - 3) + seq![v0[n - 1], v0[n - 3], v0[n - 2]]);
                }
            } else {
                stack.push(b);
                stack.push(a);
                stack.push(c);
                proof {
                    assert(stack@ =~= s0.take(n - 3) + seq![s0[n - 2], s0[n - 1], s0[n - 3]]);
                    assert(view_stack(stack@) =~= v0.take(n - 3) + seq![v0[n - 2], v0[n - 1], v0[n - 3]]);
                }
            }
            Ok(())
        },
        Instruction::Swap => {
            let a = match stack.try_pop() {
                Ok(v) => v,
                Err(e) => return Err(e),
            };
            let b = match stack.try_pop() {
                Ok(v) => v,
                Err(e) => return Err(e),
            };
            stack.push(a);
            stack.push(b);
            proof {
                assert(stack@ =~= s0.take(n - 2) + seq![s0[n - 1], s0[n - 2]]);
                assert(view_stack(stack@) =~= v0.take(n - 2) + seq![v0[n - 1], v0[n - 2]]);
            }
            Ok(())
        },
        Instruction::AndBinaryOperator | Instruction::OrBinaryOperator | Instruction::XorBinaryOperator => {
            let r = execute_boolean_operator(stack, instruction);
            proof {
                if n >= 2 && r is Ok {
                    let res = boolean_operator_result(*instruction, graph_value(s0[n - 1]).unwrap(), graph_value(s0[n - 2]).unwrap());
                    assert(graph_value(s0[n - 1]) is Some && graph_value(s0[n - 2]) is Some);
                    assert(res is Some);
                    let x = stack@.last();
                    assert(graph_value(x) == res);
                    match x {
                        StackValue::GraphValue(g) => assert(view_stack_value(x) == StackModel::Graph(res.unwrap())),
                        _ => assert(false),
                    }
                    assert forall|j: int| 0 <= j < n - 2 implies stack@[j] == s0[j] by {
                        assert(stack@.subrange(0, n - 2)[j] == stack@[j]);
                    }
                    assert(view_stack(stack@) =~= v0.take(n - 2).push(StackModel::Graph(res.unwrap())));
                }
            }
            r
        },
        Instruction::NotUnaryOperator => {
            let a = match try_pop_graph(stack) {
                Ok(v) => v,
                Err(e) => return Err(e),
            };
            match a {
                Value::Null => push_graph(stack, Value::Null),
                Value::Boolean(b) => push_graph(stack, Value::Boolean(!b)),
                _ => return Err(Error::RunTime(RunTimeError::InvalidArgumentType)),
            }
            Ok(())
        },
        Instruction::IsNullUnaryOperator => {
            let a = match try_pop_graph(stack) {
                Ok(v) => v,
                Err(e) => return Err(e),
            };
            push_graph(stack, Value::Boolean(a.is_null()));
            Ok(())
        },
        Instruction::IndexAccess => {
            let index = match try_pop_graph(stack) {
                Ok(v) => v,
                Err(e) => return Err(e),
            };
            if index.is_null() {
                let ghost s1 = stack@;
                match stack.try_drain(1) {
                    Ok(_) => {},
                    Err(e) => return Err(e),
                }
                proof {
                    assert(stack@ =~= s1.drop_last());
                    lemma_view_drop_last(s1);
                }
                push_graph(stack, Value::Null);
                Ok(())
            } else {
                let container = match try_pop_graph(stack) {
                    Ok(v) => v,
                    Err(e) => return Err(e),
                };
                let v = match index_value(container, index) {
                    Ok(v) => v,
                    Err(e) => return Err(e),
                };
                push_graph(stack, v);
                Ok(())
            }
        },
        Instruction::CreateNodeQuery { labels } => {
            let props = match try_pop_graph(stack) {
                Ok(v) => v,
                Err(e) => return Err(e),
            };
            let q = match props {
                Value::Node(no) => {
                    let mut keys: Vec<u128> = Vec::new();
                    keys.push(no.key);
                    assert(keys@ =~= seq![no.key]);
                    SelectNodeQuery::select_keys(keys)
                },
                Value::Mapping(ob) => SelectNodeQuery::select_labels_properties(clone_strings(labels), ob),
                Value::Null => SelectNodeQuery::select_none(),
                other => return Err(Error::RunTime(RunTimeError::InvalidValueCast { value: Box::new(other), typename: "Node properties" })),
            };
            push_value(stack, StackValue::NodeQuery(q));
            Ok(())
        },
        Instruction::CreateEdgeQuery { labels } => {
            let props = match try_pop_graph(stack) {
                Ok(v) => v,
                Err(e) => return Err(e),
            };
            let dst = match try_pop_node_query(stack) {
                Ok(q) => q,
                Err(e) => return Err(e),
            };
            let src = match try_pop_node_query(stack) {
                Ok(q) => q,
                Err(e) => return Err(e),
            };
            let q = match props {
                Value::Edge(ed) => {
                    let mut keys: Vec<u128> = Vec::new();
                    keys.push(ed.key);
                    assert(keys@ =~= seq![ed.key]);
                    SelectEdgeQuery::select_source_destination_keys(src, keys, dst)
                },
                Value::Mapping(ob) => SelectEdgeQuery::select_source_destination_labels_properties(src, clone_strings(labels), ob, dst),
                Value::Null => SelectEdgeQuery::select_none(),
                other => return Err(Error::RunTime(RunTimeError::InvalidValueCast { value: Box::new(other), typename: "Edge properties" })),
            };
            push_value(stack, StackValue::EdgeQuery(q));
            Ok(())
        },
        Instruction::CreateArray { length } => eval_create_array(stack, *length),
        Instruction::CreateMap { keys } => eval_create_map(stack, keys),
        Instruction::GetVariable { col_id } => {
            push_graph(stack, row[*col_id].deep_clone());
            Ok(())
        },
        Instruction::RangeAccess { start, end } => eval_range_access(stack, *start, *end),
        Instruction::NegationUnaryOperator => {
            let a = match try_pop_graph(stack) {
                Ok(v) => v,
                Err(e) => return Err(e),
            };
            let v = match negation(a) {
                Ok(v) => v,
                Err(e) => return Err(e),
            };
            push_graph(stack, v);
            Ok(())
        },
        Instruction::AdditionBinaryOperator => eval_arithmetic(stack, ArithmeticOperator::Addition),
        Instruction::SubtractionBinaryOperator => eval_arithmetic(stack, ArithmeticOperator::Subtraction),
        Instruction::MultiplicationBinaryOperator => eval_arithmetic(stack, ArithmeticOperator::Multiplication),
        Instruction::DivisionBinaryOperator => eval_arithmetic(stack, ArithmeticOperator::Division),
        Instruction::ModuloBinaryOperator => eval_arithmetic(stack, ArithmeticOperator::Modulo),
        Instruction::ExponentBinaryOperator => eval_arithmetic(stack, ArithmeticOperator::Exponent),
        _ => Err(Error::Internal(InternalError::Unreachable { context: "eval_instruction" })),
    }
}

/// Executes the instructions in order on the stack, reading the row and the parameters; the
/// first error stops the execution.
pub fn eval_instructions(stack: &mut Stack, row: &Vec<Value>, instructions: &Vec<Instruction>, parameters: &ValueMap) -> (r: Result<(), Error>)
    requires
        run_safe(instructions@, view_stack(old(stack)@), parameters.model(), row_model(row@)),
    ensures
        run_outcome(instructions@, view_stack(old(stack)@), parameters.model(), row_model(row@), outcome_of(r, view_stack(final(stack)@))),
{
    let ghost is = instructions@;
    let ghost s0 = view_stack(stack@);
    let ghost params = parameters.model();
    let ghost rm = row_model(row@);
    let ghost mut tr: Seq<Result<Seq<StackModel>, ErrorKind>> = seq![Ok(s0)];
    for i in 0..instructions.len()
        invariant
            is == instructions@,
            s0 == view_stack(old(stack)@),
            params == parameters.model(),
            rm == row_model(row@),
            rm.len() == row@.len(),
            run_safe(is, s0, params, rm),
            valid_trace(is, s0, params, rm, tr),
            tr.len() == i + 1,
            tr.last() == Ok::<Seq<StackModel>, ErrorKind>(view_stack(stack@)),
    {
        let ghost cur = view_stack(stack@);
        proof {
            assert(valid_trace(is, s0, params, rm, tr));
        }
        let res = eval_instruction(stack, &instructions[i], row, parameters);
        proof {
            let out = outcome_of(res, view_stack(stack@));
            let t2 = tr.push(out);
            assert forall|j: int| 0 <= j < t2.len() - 1 implies match #[trigger] t2[j] {
                Err(k2) => t2[j + 1] == Err::<Seq<StackModel>, ErrorKind>(k2),
                Ok(sj) => step_outcome(is[j], sj, params, rm, t2[j + 1]),
            } by {
                if j < tr.len() - 1 {
                    assert(t2[j] == tr[j]);
                    assert(t2[j + 1] == tr[j + 1]);
                }
            }
            tr = t2;
        }
        match res {
            Ok(()) => {},
            Err(e) => {
                proof { lemma_trace_err(is, s0, params, rm, tr, kind_of(e)); }
                return Err(e);
            },
        }
    }
    assert(valid_trace(is, s0, params, rm, tr));
    Ok(())
}

/// Instructions without node or edge literals and without function calls have a single
/// outcome: their execution is a function of the stack, the row and the parameters.
pub proof fn lemma_run_deterministic(
    is: Seq<Instruction>,
    s: Seq<StackModel>,
    params: Map<Seq<char>, ValueModel>,
    row: Seq<ValueModel>,
    o1: Result<Seq<StackModel>, ErrorKind>,
    o2: Result<Seq<StackModel>, ErrorKind>,
)
    requires
        forall|i: int| 0 <= i < is.len() ==> is_deterministic(#[trigger] is[i]),
        run_outcome(is, s, params, row, o1),
        run_outcome(is, s, params, row, o2),
    ensures
        o1 == o2,
{
    let t1 = choose|t: Seq<Result<Seq<StackModel>, ErrorKind>>| #[trigger] valid_trace(is, s, params, row, t)
        && t.len() == is.len() + 1 && t.last() == o1;
    let t2 = choose|t: Seq<Result<Seq<StackModel>, ErrorKind>>| #[trigger] valid_trace(is, s, params, row, t)
        && t.len() == is.len() + 1 && t.last() == o2;
    lemma_traces_agree(is, s, params, row, t1, t2, is.len() as int);
}

/// Two full traces of deterministic instructions agree up to `j`.
proof fn lemma_traces_agree(
    is: Seq<Instruction>,
    s: Seq<StackModel>,
    params: Map<Seq<char>, ValueModel>,
    row: Seq<ValueModel>,
    t1: Seq<Result<Seq<StackModel>, ErrorKind>>,
    t2: Seq<Result<Seq<StackModel>, ErrorKind>>,
    j: int,
)
    requires
        forall|i: int| 0 <= i < is.len() ==> is_deterministic(#[trigger] is[i]),
        valid_trace(is, s, params, row, t1),
        valid_trace(is, s, params, row, t2),
        t1.len() == is.len() + 1,
        t2.len() == is.len() + 1,
        0 <= j <= is.len(),
    ensures
        t1[j] == t2[j],
    decreases j,
{
    reveal(step_outcome);
    if j > 0 {
        lemma_traces_agree(is, s, params, row, t1, t2, j - 1);
        let i = j - 1;
        assert(match t1[i] {
            Err(k) => t1[i + 1] == Err::<Seq<StackModel>, ErrorKind>(k),
            Ok(si) => step_outcome(is[i], si, params, row, t1[i + 1]),
        });
        assert(match t2[i] {
            Err(k) => t2[i + 1] == Err::<Seq<StackModel>, ErrorKind>(k),
            Ok(si) => step_outcome(is[i], si, params, row, t2[i + 1]),
        });
        assert(is_deterministic(is[i]));
    }
}

/// `InverseRot3` undoes `Rot3`: the stack is as before.
pub proof fn lemma_rot3_undone(s: Seq<StackModel>, params: Map<Seq<char>, ValueModel>, row: Seq<ValueModel>)
    requires
        s.len() >= 3,
    ensures
        step_spec(Instruction::Rot3, s, params, row) matches Ok(s1)
            && step_spec(Instruction::InverseRot3, s1, params, row) == Ok::<Seq<StackModel>, ErrorKind>(s),
{
    let n = s.len() as int;
    let s1 = s.take(n - 3) + seq![s[n - 1], s[n - 3], s[n - 2]];
    assert(s1.take(n - 3) =~= s.take(n - 3));
    assert(s1.take(n - 3) + seq![s1[n - 2], s1[n - 1], s1[n - 3]] =~= s);
}

/// `Rot3` undoes `InverseRot3`: the stack is as before.
pub proof fn lemma_inverse_rot3_undone(s: Seq<StackModel>, params: Map<Seq<char>, ValueModel>, row: Seq<ValueModel>)
    requires
        s.len() >= 3,
    ensures
        step_spec(Instruction::InverseRot3, s, params, row) matches Ok(s1)
            && step_spec(Instruction::Rot3, s1, params, row) == Ok::<Seq<StackModel>, ErrorKind>(s),
{
    let n = s.len() as int;
    let s1 = s.take(n - 3) + seq![s[n - 2], s[n - 1], s[n - 3]];
    assert(s1.take(n - 3) =~= s.take(n - 3));
    assert(s1.take(n - 3) + seq![s1[n - 1], s1[n - 3], s1[n - 2]] =~= s);
}

/// Two `Swap` leave the stack as before.
pub proof fn lemma_swap_twice(s: Seq<StackModel>, params: Map<Seq<char>, ValueModel>, row: Seq<ValueModel>)
    requires
        s.len() >= 2,
    ensures
        step_spec(Instruction::Swap, s, params, row) matches Ok(s1)
            && step_spec(Instruction::Swap, s1, params, row) == Ok::<Seq<StackModel>, ErrorKind>(s),
{
    let n = s.len() as int;
    let s1 = s.take(n - 2) + seq![s[n - 1], s[n - 2]];
    assert(s1.take(n - 2) =~= s.take(n - 2));
    assert(s1.take(n - 2) + seq![s1[n - 1], s1[n - 2]] =~= s);
}

/// Removing the `n` values at the top of the stack for a call: there must be `n` of them, and
/// all graph values.
pub open spec fn drained_values(s: Seq<StackModel>, n: nat) -> Result<Seq<ValueModel>, ErrorKind> {
    if n > s.len() { Err(ErrorKind::EmptyStack) } else { pop_values(s, n) }
}

/// `FunctionCall`: the arguments at the top of the stack, from the deepest to the top, are
/// replaced by the result of the function.
pub fn eval_function_call(stack: &mut Stack, function: &String, arguments_count: usize) -> (r: Result<(), Error>)
    requires
        crate::builtins::callable(function@),
    ensures
        match drained_values(view_stack(old(stack)@), arguments_count as nat) {
            Err(k) => r matches Err(e) && kind_of(e) == k,
            Ok(args) => match r {
                Err(e) => crate::builtins::call_outcome(function@, args, Err(kind_of(e))),
                Ok(()) => {
                    let rest = popped(view_stack(old(stack)@), arguments_count as nat);
                    &&& view_stack(final(stack)@).len() == rest.len() + 1
                    &&& view_stack(final(stack)@).drop_last() == rest
                    &&& view_stack(final(stack)@).last() matches StackModel::Graph(v)
                        && crate::builtins::call_outcome(function@, args, Ok(v))
                },
            },
        },
{
    if arguments_count > stack.len() {
        return Err(Error::Internal(InternalError::EmptyStack));
    }
    let args = match pop_graph_values(stack, arguments_count) {
        Ok(a) => a,
        Err(e) => return Err(e),
    };
    let v = match crate::builtins::call_function(function, &args) {
        Ok(v) => v,
        Err(e) => return Err(e),
    };
    let ghost before = view_stack(stack@);
    push_graph(stack, v);
    proof {
        assert(view_stack(stack@).drop_last() =~= before);
    }
    Ok(())
}

/// A block that changes the graphs: creating or dropping a graph, creating, updating or deleting.
pub open spec fn is_write_block(b: Block) -> bool {
    b is CreateGraph || b is DropGraph || b is Create || b is Update || b is Delete
}

/// Whether the program changes the graphs, and needs a write transaction.
pub fn is_write_program(program: &Vec<Block>) -> (r: bool)
    ensures
        r == exists|i: int| 0 <= i < program@.len() && is_write_block(#[trigger] program@[i]),
{
    for i in 0..program.len()
        invariant
            forall|j: int| 0 <= j < i ==> !is_write_block(#[trigger] program@[j]),
    {
        let w = match &program[i] {
            Block::UseGraph { .. } | Block::Match { .. } | Block::Return { .. } | Block::Unwind { .. } | Block::Call { .. }
            | Block::With { .. } => false,
            Block::CreateGraph { .. } | Block::DropGraph { .. } | Block::Create { .. } | Block::Update { .. }
            | Block::Delete { .. } => true,
        };
        if w {
            assert(is_write_block(program@[i as int]));
            return true;
        }
    }
    false
}

/// A negative start of a range counts from the end: the length is added until it is not negative.
pub open spec fn adjusted_start(s: int, n: int) -> int
    decreases (if s < 0 { -s } else { 0 }),
{
    if s >= 0 || n <= 0 { s } else { adjusted_start(s + n, n) }
}

/// The start is shifted by whole lengths: it stays below the length once it is not negative.
pub proof fn lemma_adjusted_start(s: int, n: int)
    requires
        n > 0,
        s < n,
    ensures
        0 <= adjusted_start(s, n) < n,
        adjusted_start(s, n) >= s,
    decreases (if s < 0 { -s } else { 0 }),
{
    if s < 0 {
        lemma_adjusted_start(s + n, n);
    }
}

/// How much the ends of a range are shifted for a negative start.
pub open spec fn range_shift(vs: Seq<ValueModel>, start: Option<i64>) -> int {
    match start {
        Some(x) => adjusted_start(x as int, vs.len() as int) - x,
        None => 0,
    }
}

/// The range covers the whole list: both ends are given and they are at least its length apart.
pub open spec fn covers_all(vs: Seq<ValueModel>, start: Option<i64>, end: Option<i64>) -> bool {
    start is Some && end is Some && end->0 - start->0 >= vs.len()
}

/// The elements of a list between two optional ends: a negative start counts from the end, and
/// the end is at most the length.
pub open spec fn slice_spec(vs: Seq<ValueModel>, start: Option<i64>, end: Option<i64>) -> Seq<ValueModel> {
    let n = vs.len() as int;
    if covers_all(vs, start, end) {
        vs
    } else {
        let shift = range_shift(vs, start);
        let e2 = match end {
            Some(y) => Some(if y + shift < n { y + shift } else { n }),
            None => None,
        };
        match (start, e2) {
            (Some(x), Some(b)) => if b < x + shift { Seq::empty() } else { vs.subrange(x + shift, b) },
            (Some(x), None) => vs.subrange(x + shift, n),
            (None, Some(b)) => vs.subrange(0, b),
            (None, None) => vs,
        }
    }
}

/// The range can be taken without overflow, endless shifting or slicing out of the list.
pub open spec fn slice_safe(vs: Seq<ValueModel>, start: Option<i64>, end: Option<i64>) -> bool {
    let n = vs.len() as int;
    &&& n <= i64::MAX
    &&& (start is Some && end is Some ==> i64::MIN <= end->0 - start->0 <= i64::MAX)
    &&& !covers_all(vs, start, end) ==> {
        &&& (start matches Some(x) && x < 0 ==> n > 0)
        &&& (end matches Some(y) ==> y + range_shift(vs, start) <= i64::MAX)
        &&& (end is None ==> (start matches Some(x) ==> x + range_shift(vs, start) <= n))
        &&& (start is None ==> (end matches Some(y) ==> y >= 0))
    }
}

/// An optional bound of a range, which must be an integer.
pub open spec fn bound_value(b: Option<ValueModel>) -> Result<Option<i64>, ErrorKind> {
    match b {
        None => Ok(None),
        Some(ValueModel::Integer(i)) => Ok(Some(i)),
        Some(_) => Err(ErrorKind::InvalidValueCast),
    }
}

/// Pops an optional graph value.
pub open spec fn pop_optional(s: Seq<StackModel>, present: bool) -> Result<(Seq<StackModel>, Option<ValueModel>), ErrorKind> {
    if !present {
        Ok((s, None))
    } else {
        match pop_graph(s) {
            Err(k) => Err(k),
            Ok((rest, v)) => Ok((rest, Some(v))),
        }
    }
}

/// The operands of `RangeAccess`: the list, the start and the end, or the error in taking them.
pub open spec fn range_operands(s: Seq<StackModel>, has_start: bool, has_end: bool)
    -> Result<(Seq<StackModel>, ValueModel, Option<ValueModel>, Option<ValueModel>), ErrorKind>
{
    match pop_optional(s, has_end) {
        Err(k) => Err(k),
        Ok((s1, end)) => match pop_optional(s1, has_start) {
            Err(k) => Err(k),
            Ok((s2, start)) => match pop_graph(s2) {
                Err(k) => Err(k),
                Ok((s3, v)) => Ok((s3, v, start, end)),
            },
        },
    }
}

/// `RangeAccess`: the list between the optional start and end, null when one of them is null.
pub open spec fn range_step(s: Seq<StackModel>, has_start: bool, has_end: bool) -> Result<Seq<StackModel>, ErrorKind> {
    match range_operands(s, has_start, has_end) {
        Err(k) => Err(k),
        Ok((rest, v, start, end)) => if (start matches Some(x) && x is Null) || (end matches Some(y) && y is Null) {
            Ok(rest.push(StackModel::Graph(ValueModel::Null)))
        } else {
            match bound_value(start) {
                Err(k) => Err(k),
                Ok(a) => match bound_value(end) {
                    Err(k) => Err(k),
                    Ok(b) => match v {
                        ValueModel::List(vs) => Ok(rest.push(StackModel::Graph(ValueModel::List(slice_spec(vs, a, b))))),
                        _ => Err(ErrorKind::InvalidValueCast),
                    },
                },
            }
        },
    }
}

/// `RangeAccess` does not fail in the executable code on these operands.
pub open spec fn range_safe(s: Seq<StackModel>, has_start: bool, has_end: bool) -> bool {
    match range_operands(s, has_start, has_end) {
        Ok((rest, ValueModel::List(vs), start, end)) => match (bound_value(start), bound_value(end)) {
            (Ok(a), Ok(b)) => slice_safe(vs, a, b),
            _ => true,
        },
        _ => true,
    }
}

/// Copies of the elements `from..to` of a list.
fn copy_range(v: &Vec<Value>, from: usize, to: usize) -> (r: Vec<Value>)
    requires
        from <= to <= v@.len(),
    ensures
        crate::value::view_values(r@) == crate::value::view_values(v@).subrange(from as int, to as int),
{
    proof { crate::value::lemma_view_values_index(v@); }
    let mut out: Vec<Value> = Vec::new();
    for i in from..to
        invariant
            from <= to <= v@.len(),
            out@.len() == i - from,
            forall|j: int| 0 <= j < out@.len() ==> crate::value::view_value(#[trigger] out@[j]) == crate::value::view_value(v@[from + j]),
    {
        out.push(v[i].deep_clone());
    }
    proof {
        crate::value::lemma_view_values_index(out@);
        crate::value::lemma_view_values_index(v@);
        assert(crate::value::view_values(out@) =~= crate::value::view_values(v@).subrange(from as int, to as int));
    }
    out
}

/// An optional bound of a range as an integer.
fn bound_integer(b: Option<Value>) -> (r: Result<Option<i64>, Error>)
    ensures
        match bound_value(match b { Some(v) => Some(v@), None => None }) {
            Err(k) => r matches Err(e) && kind_of(e) == k,
            Ok(x) => r == Ok::<Option<i64>, Error>(x),
        },
{
    match b {
        None => Ok(None),
        Some(Value::Integer(i)) => Ok(Some(i)),
        Some(other) => Err(Error::RunTime(RunTimeError::InvalidValueCast { value: Box::new(other), typename: "i64" })),
    }
}

/// Pops an optional graph value.
fn try_pop_optional(stack: &mut Stack, present: bool) -> (r: Result<Option<Value>, Error>)
    ensures
        match pop_optional(view_stack(old(stack)@), present) {
            Err(k) => r matches Err(e) && kind_of(e) == k,
            Ok((rest, v)) => r matches Ok(x) && view_stack(final(stack)@) == rest
                && v == match x { Some(y) => Some(y@), None => None },
        },
{
    if present {
        match try_pop_graph(stack) {
            Ok(v) => Ok(Some(v)),
            Err(e) => Err(e),
        }
    } else {
        Ok(None)
    }
}

/// The elements of a list between two optional ends.
#[verifier::rlimit(30)]
fn slice_list(v: Vec<Value>, start: Option<i64>, end: Option<i64>) -> (r: Vec<Value>)
    requires
        slice_safe(crate::value::view_values(v@), start, end),
    ensures
        crate::value::view_values(r@) == slice_spec(crate::value::view_values(v@), start, end),
{
    let ghost vs = crate::value::view_values(v@);
    proof { crate::value::lemma_view_values_index(v@); }
    let n = v.len() as i64;
    match (start, end) {
        (Some(a), Some(b)) => {
            if b - a >= n {
                return v;
            }
        },
        _ => {},
    }
    let mut s = start;
    let mut e = end;
    let ghost shift: int = 0;
    proof {
        match start {
            Some(x) => if x < 0 { lemma_adjusted_start(x as int, n as int); },
            None => {},
        }
    }
    loop
        invariant
            vs == crate::value::view_values(v@),
            vs.len() == v@.len(),
            n == v@.len(),
            slice_safe(vs, start, end),
            !covers_all(vs, start, end),
            match start {
                Some(x) => s == Some((x + shift) as i64)
                    && adjusted_start(x + shift, n as int) == adjusted_start(x as int, n as int)
                    && x + shift <= adjusted_start(x as int, n as int)
                    && i64::MIN <= x + shift <= i64::MAX
                    && (x < 0 ==> n > 0),
                None => s is None && shift == 0,
            },
            0 <= shift,
            shift <= range_shift(vs, start),
            match end { Some(y) => e == Some((y + shift) as i64) && y + shift <= i64::MAX, None => e is None },
        ensures
            match s { Some(x) => x >= 0, None => true },
            match start {
                Some(x) => s == Some((x + shift) as i64) && x + shift == adjusted_start(x as int, n as int),
                None => s is None && shift == 0,
            },
            match end { Some(y) => e == Some((y + shift) as i64), None => e is None },
        decreases match s { Some(x) => if x < 0 { -x } else { 0 }, None => 0 },
    {
        match s {
            Some(x) => {
                if x >= 0 {
                    break;
                }
                proof {
                    let c = x as int;
                    let x0 = start->0 as int;
                    assert(x0 + shift == c);
                    assert(x0 < 0 && n > 0);
                    assert(adjusted_start(c, n as int) == adjusted_start(c + n, n as int));
                    if c + n < 0 {
                        lemma_adjusted_start(c + n, n as int);
                    }
                    assert(c + n <= adjusted_start(x0, n as int));
                    assert(shift + n <= range_shift(vs, start));
                    match end {
                        Some(y) => assert(y + shift + n <= i64::MAX),
                        None => {},
                    }
                }
                s = Some(x + n);
                e = match e {
                    Some(y) => Some(y + n),
                    None => None,
                };
                proof { shift = shift + n; }
            },
            None => break,
        }
    }
    assert(shift == range_shift(vs, start));
    let e2 = match e {
        Some(y) => Some(if y < n { y } else { n }),
        None => None,
    };
    match (s, e2) {
        (Some(a), Some(b)) => {
            if b < a {
                let r: Vec<Value> = Vec::new();
                assert(crate::value::view_values(r@) =~= Seq::<ValueModel>::empty());
                r
            } else {
                copy_range(&v, a as usize, b as usize)
            }
        },
        (Some(a), None) => copy_range(&v, a as usize, v.len()),
        (None, Some(b)) => copy_range(&v, 0, b as usize),
        (None, None) => v,
    }
}

/// `RangeAccess`: replaces a list, and the start and end when given, by the elements of the list
/// between them; null when the start or the end is null.
pub fn eval_range_access(stack: &mut Stack, has_start: bool, has_end: bool) -> (r: Result<(), Error>)
    requires
        range_safe(view_stack(old(stack)@), has_start, has_end),
    ensures
        match range_step(view_stack(old(stack)@), has_start, has_end) {
            Err(k) => r matches Err(e) && kind_of(e) == k,
            Ok(s) => r is Ok && view_stack(final(stack)@) == s,
        },
{
    let end = match try_pop_optional(stack, has_end) {
        Ok(x) => x,
        Err(e) => return Err(e),
    };
    let start = match try_pop_optional(stack, has_start) {
        Ok(x) => x,
        Err(e) => return Err(e),
    };
    let v = match try_pop_graph(stack) {
        Ok(x) => x,
        Err(e) => return Err(e),
    };
    let end_null = match &end {
        Some(x) => x.is_null(),
        None => false,
    };
    let start_null = match &start {
        Some(x) => x.is_null(),
        None => false,
    };
    if end_null || start_null {
        push_graph(stack, Value::Null);
        return Ok(());
    }
    let a = match bound_integer(start) {
        Ok(x) => x,
        Err(e) => return Err(e),
    };
    let b = match bound_integer(end) {
        Ok(x) => x,
        Err(e) => return Err(e),
    };
    let list = match v {
        Value::Array(list) => list,
        other => return Err(Error::RunTime(RunTimeError::InvalidValueCast { value: Box::new(other), typename: "array" })),
    };
    let sliced = slice_list(list, a, b);
    push_graph(stack, Value::Array(sliced));
    Ok(())
}

} // verus!
