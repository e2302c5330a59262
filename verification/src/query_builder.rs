use vstd::prelude::*;
use crate::gqb::{bin_op_text, BinOp, Variable, Variables};
use crate::text::{decimal, push_char, push_decimal};
use crate::value::{view_labels, Value, ValueMap, ValueModel};

verus! {

broadcast use vstd::std_specs::vec::group_vec_axioms;

/// Expression used in built queries.
pub enum Expression {
    FunctionCall { name: String, arguments: Vec<Expression> },
    Variable(Variable),
    Literal(Box<Value>),
    Get { expression: Box<Expression>, path: Vec<String> },
    BinaryOp { operator: BinOp, lhs: Box<Expression>, rhs: Box<Expression> },
}

/// A pattern of a `CREATE` or `MATCH` statement.
pub enum MatchCreateFragment {
    Node { variable: Variable, labels: Vec<String>, properties: ValueMap },
    Edge {
        path_variable: Option<Variable>,
        source: Variable,
        edge_variable: Variable,
        destination: Variable,
        labels: Vec<String>,
        properties: ValueMap,
    },
}

/// A statement of a built query.
pub enum Statement {
    Create { fragments: Vec<MatchCreateFragment> },
    Match { fragments: Vec<MatchCreateFragment> },
    Where { expression: Box<Expression> },
    Return { values: Vec<(Expression, String)> },
    Delete { variables: Vec<Variable> },
    DetachDelete { variables: Vec<Variable> },
    SetValues { assignments: Vec<(Expression, Expression)> },
    UseGraph { name: String },
    CreateGraph { name: String, if_not_exists: bool },
    DropGraph { name: String, if_exists: bool },
}

/// Model of a statement: its parts as sequences.
pub enum StatementModel {
    Create(Seq<MatchCreateFragment>),
    Match(Seq<MatchCreateFragment>),
    Where(Expression),
    Return(Seq<(Expression, String)>),
    Delete(Seq<Variable>),
    DetachDelete(Seq<Variable>),
    SetValues(Seq<(Expression, Expression)>),
    UseGraph(Seq<char>),
    CreateGraph(Seq<char>, bool),
    DropGraph(Seq<char>, bool),
}

pub open spec fn view_statement(s: Statement) -> StatementModel {
    match s {
        Statement::Create { fragments } => StatementModel::Create(fragments@),
        Statement::Match { fragments } => StatementModel::Match(fragments@),
        Statement::Where { expression } => StatementModel::Where(*expression),
        Statement::Return { values } => StatementModel::Return(values@),
        Statement::Delete { variables } => StatementModel::Delete(variables@),
        Statement::DetachDelete { variables } => StatementModel::DetachDelete(variables@),
        Statement::SetValues { assignments } => StatementModel::SetValues(assignments@),
        Statement::UseGraph { name } => StatementModel::UseGraph(name@),
        Statement::CreateGraph { name, if_not_exists } => StatementModel::CreateGraph(name@, if_not_exists),
        Statement::DropGraph { name, if_exists } => StatementModel::DropGraph(name@, if_exists),
    }
}

/// Builds OpenCypher queries, with their values bound to parameters.
pub struct Builder {
    statements: Vec<Statement>,
    variables_count: usize,
}

impl View for Builder {
    type V = (Seq<StatementModel>, nat);

    /// The statements, and the number of variables named so far.
    closed spec fn view(&self) -> (Seq<StatementModel>, nat) {
        (self.statements@.map_values(|s: Statement| view_statement(s)), self.variables_count as nat)
    }
}

/// Bindings made while writing a query: parameter names and their values, in order.
pub type BindingSeq = Seq<(Seq<char>, ValueModel)>;

/// The map `m` after the bindings, made in order.
pub open spec fn add_bindings(m: Map<Seq<char>, ValueModel>, b: BindingSeq) -> Map<Seq<char>, ValueModel>
    decreases b.len(),
{
    if b.len() == 0 {
        m
    } else {
        add_bindings(m, b.drop_last()).insert(b.last().0, b.last().1)
    }
}

/// Text of a variable: its prefix and its number.
pub open spec fn var_text(v: Variable) -> Seq<char> {
    v@.0 + decimal(v@.1)
}

/// Name of the parameter numbered `n`, with the prefix `$b` (properties) or `$l` (literals).
pub open spec fn binding_name(kind: char, n: nat) -> Seq<char> {
    seq!['$', kind] + decimal(n)
}

/// Texts joined with a separator.
pub open spec fn join_with(parts: Seq<Seq<char>>, sep: Seq<char>) -> Seq<char>
    decreases parts.len(),
{
    if parts.len() == 0 {
        Seq::empty()
    } else if parts.len() == 1 {
        parts[0]
    } else {
        join_with(parts.drop_last(), sep) + sep + parts.last()
    }
}

/// Labels of a pattern: each preceded by `:`.
pub open spec fn labels_text(labels: Seq<Seq<char>>) -> Seq<char>
    decreases labels.len(),
{
    if labels.len() == 0 {
        Seq::empty()
    } else {
        labels_text(labels.drop_last()) + seq![':'] + labels.last()
    }
}

/// Text of an expression and the literals it binds, numbered from `n`.
pub open spec fn expression_query(e: Expression, n: nat) -> (Seq<char>, BindingSeq)
    decreases e,
{
    match e {
        Expression::BinaryOp { operator, lhs, rhs } => {
            let (l, lb) = expression_query(*lhs, n);
            let (r, rb) = expression_query(*rhs, n + lb.len());
            ("("@ + l + ") "@ + bin_op_text(operator) + " ("@ + r + ")"@, lb + rb)
        },
        Expression::FunctionCall { name, arguments } => {
            let (a, ab) = arguments_query(arguments@, n);
            (name@ + "("@ + a + ")"@, ab)
        },
        Expression::Literal(v) => (binding_name('l', n), seq![(binding_name('l', n), v@)]),
        Expression::Variable(var) => (var_text(var), Seq::empty()),
        Expression::Get { expression, path } => {
            let (t, b) = expression_query(*expression, n);
            (t + "."@ + join_with(view_labels(path@), "."@), b)
        },
    }
}

/// Arguments of a call: their texts joined with `,`, and their bindings.
pub open spec fn arguments_query(args: Seq<Expression>, n: nat) -> (Seq<char>, BindingSeq)
    decreases args,
{
    if args.len() == 0 {
        (Seq::empty(), Seq::empty())
    } else {
        let (t, b) = arguments_query(args.subrange(0, args.len() - 1), n);
        let (x, xb) = expression_query(args[args.len() - 1], n + b.len());
        (if args.len() == 1 { x } else { t + ","@ + x }, b + xb)
    }
}

/// The properties of a pattern, bound to `$bn` when there are any.
pub open spec fn properties_query(properties: ValueMap, n: nat) -> (Seq<char>, BindingSeq) {
    if properties.model() == Map::<Seq<char>, ValueModel>::empty() {
        (Seq::empty(), Seq::empty())
    } else {
        (" "@ + binding_name('b', n), seq![(binding_name('b', n), ValueModel::Dict(properties.model()))])
    }
}

/// Text of a pattern: `(n1:a $b0)` for a node, `p3 = (n1)-[e2:b $b0]->(n4)` for an edge.
pub open spec fn fragment_query(f: MatchCreateFragment, n: nat) -> (Seq<char>, BindingSeq) {
    match f {
        MatchCreateFragment::Node { variable, labels, properties } => {
            let (p, b) = properties_query(properties, n);
            ("("@ + var_text(variable) + labels_text(view_labels(labels@)) + p + ")"@, b)
        },
        MatchCreateFragment::Edge { path_variable, source, edge_variable, destination, labels, properties } => {
            let (p, b) = properties_query(properties, n);
            let prefix = match path_variable {
                Some(v) => var_text(v) + " = "@,
                None => Seq::empty(),
            };
            (prefix + "("@ + var_text(source) + ")-["@ + var_text(edge_variable) + labels_text(view_labels(labels@)) + p
                + "]->("@ + var_text(destination) + ")"@, b)
        },
    }
}

/// Patterns joined with `, `.
pub open spec fn fragments_query(fs: Seq<MatchCreateFragment>, n: nat) -> (Seq<char>, BindingSeq)
    decreases fs.len(),
{
    if fs.len() == 0 {
        (Seq::empty(), Seq::empty())
    } else {
        let (t, b) = fragments_query(fs.drop_last(), n);
        let (x, xb) = fragment_query(fs.last(), n + b.len());
        (if fs.len() == 1 { x } else { t + ", "@ + x }, b + xb)
    }
}

/// Returned values, `expression AS name`, joined with `, `.
pub open spec fn returns_query(vs: Seq<(Expression, String)>, n: nat) -> (Seq<char>, BindingSeq)
    decreases vs.len(),
{
    if vs.len() == 0 {
        (Seq::empty(), Seq::empty())
    } else {
        let (t, b) = returns_query(vs.drop_last(), n);
        let (x, xb) = expression_query(vs.last().0, n + b.len());
        let item = x + " AS "@ + vs.last().1@;
        (if vs.len() == 1 { item } else { t + ", "@ + item }, b + xb)
    }
}

/// Assignments, `target = value`, joined with `, `.
pub open spec fn assignments_query(xs: Seq<(Expression, Expression)>, n: nat) -> (Seq<char>, BindingSeq)
    decreases xs.len(),
{
    if xs.len() == 0 {
        (Seq::empty(), Seq::empty())
    } else {
        let (t, b) = assignments_query(xs.drop_last(), n);
        let (l, lb) = expression_query(xs.last().0, n + b.len());
        let (r, rb) = expression_query(xs.last().1, n + b.len() + lb.len());
        let item = l + " = "@ + r;
        (if xs.len() == 1 { item } else { t + ", "@ + item }, b + lb + rb)
    }
}

/// Variables joined with `, `.
pub open spec fn variables_text(vs: Seq<Variable>) -> Seq<char> {
    join_with(vs.map_values(|v: Variable| var_text(v)), ", "@)
}

/// Text of a statement and the values it binds, numbered from `n`.
pub open spec fn statement_query(s: StatementModel, n: nat) -> (Seq<char>, BindingSeq) {
    match s {
        StatementModel::Create(fs) => {
            let (t, b) = fragments_query(fs, n);
            ("CREATE "@ + t, b)
        },
        StatementModel::Match(fs) => {
            let (t, b) = fragments_query(fs, n);
            ("MATCH "@ + t, b)
        },
        StatementModel::Where(e) => {
            let (t, b) = expression_query(e, n);
            ("WHERE "@ + t, b)
        },
        StatementModel::Return(vs) => {
            let (t, b) = returns_query(vs, n);
            ("RETURN "@ + t, b)
        },
        StatementModel::SetValues(xs) => {
            let (t, b) = assignments_query(xs, n);
            ("SET "@ + t, b)
        },
        StatementModel::Delete(vs) => ("DELETE "@ + variables_text(vs), Seq::empty()),
        StatementModel::DetachDelete(vs) => ("DETACH DELETE "@ + variables_text(vs), Seq::empty()),
        StatementModel::UseGraph(name) => ("USE "@ + name, Seq::empty()),
        StatementModel::CreateGraph(name, if_not_exists) => (
            (if if_not_exists { "CREATE GRAPH IF NOT EXISTS "@ } else { "CREATE GRAPH "@ }) + name,
            Seq::empty(),
        ),
        StatementModel::DropGraph(name, if_exists) => (
            (if if_exists { "DROP GRAPH IF EXISTS "@ } else { "DROP GRAPH "@ }) + name,
            Seq::empty(),
        ),
    }
}

/// Text of the statements, joined with a space, and the values they bind, numbered from `n`.
pub open spec fn query_spec(ss: Seq<StatementModel>, n: nat) -> (Seq<char>, BindingSeq)
    decreases ss.len(),
{
    if ss.len() == 0 {
        (Seq::empty(), Seq::empty())
    } else {
        let (t, b) = query_spec(ss.drop_last(), n);
        let (x, xb) = statement_query(ss.last(), n + b.len());
        (if ss.len() == 1 { x } else { t + " "@ + x }, b + xb)
    }
}

/// The query text of the builder's statements.
pub open spec fn query_text(b: (Seq<StatementModel>, nat)) -> Seq<char> {
    query_spec(b.0, 0).0
}

/// The parameters of the builder's query: each properties map and each literal, under its name.
pub open spec fn query_bindings(b: (Seq<StatementModel>, nat)) -> Map<Seq<char>, ValueModel> {
    add_bindings(Map::empty(), query_spec(b.0, 0).1)
}

/// Bindings made one after the other.
pub proof fn lemma_add_bindings_append(m: Map<Seq<char>, ValueModel>, b1: BindingSeq, b2: BindingSeq)
    ensures
        add_bindings(m, b1 + b2) == add_bindings(add_bindings(m, b1), b2),
    decreases b2.len(),
{
    if b2.len() > 0 {
        assert((b1 + b2).drop_last() =~= b1 + b2.drop_last());
        lemma_add_bindings_append(m, b1, b2.drop_last());
    } else {
        assert(b1 + b2 =~= b1);
    }
}

/// Appends `t` to `s`.
fn append_text(s: &mut String, t: &str)
    ensures
        final(s)@ == old(s)@ + t@,
{
    s.append(t);
}

/// Writes the name of the parameter numbered `n`.
fn binding_text(kind: char, n: usize) -> (r: String)
    ensures
        r@ == binding_name(kind, n as nat),
{
    let mut s = String::new();
    push_char(&mut s, '$');
    push_char(&mut s, kind);
    push_decimal(&mut s, n as u128);
    assert(s@ =~= binding_name(kind, n as nat));
    s
}

/// Text of a variable.
fn variable_text(v: &Variable) -> (r: String)
    ensures
        r@ == var_text(*v),
{
    v.to_string()
}

/// Writes an expression, binding its literals from number `n`; gives the next number.
fn write_expression(e: &Expression, out: &mut String, bindings: &mut ValueMap, n: usize) -> (next: usize)
    requires
        n + expression_query(*e, n as nat).1.len() <= usize::MAX,
    ensures
        final(out)@ == old(out)@ + expression_query(*e, n as nat).0,
        next == n + expression_query(*e, n as nat).1.len(),
        final(bindings).model() == add_bindings(old(bindings).model(), expression_query(*e, n as nat).1),
    decreases e,
{
    match e {
        Expression::BinaryOp { operator, lhs, rhs } => {
            append_text(out, "(");
            let ghost b0 = bindings.model();
            let m = write_expression(lhs, out, bindings, n);
            let ghost b1 = bindings.model();
            append_text(out, ") ");
            let op = operator.into_oc_query();
            append_text(out, op.as_str());
            append_text(out, " (");
            let k = write_expression(rhs, out, bindings, m);
            append_text(out, ")");
            proof {
                let (l, lb) = expression_query(**lhs, n as nat);
                let (r, rb) = expression_query(**rhs, m as nat);
                assert(b1 == add_bindings(b0, lb));
                assert(bindings.model() == add_bindings(b1, rb));
                assert(m == n + lb.len());
                assert(expression_query(*e, n as nat).1 == lb + rb);
                lemma_add_bindings_append(b0, lb, rb);
                assert(b0 == old(bindings).model());
                assert(bindings.model() == add_bindings(b0, expression_query(*e, n as nat).1));
                assert(final(out)@ =~= old(out)@ + expression_query(*e, n as nat).0);
            }
            k
        },
        Expression::FunctionCall { name, arguments } => {
            append_text(out, name.as_str());
            append_text(out, "(");
            let ghost start = out@;
            let ghost b0 = bindings.model();
            let mut k = n;
            let mut i: usize = 0;
            while i < arguments.len()
                invariant
                    0 <= i <= arguments@.len(),
                    n + expression_query(*e, n as nat).1.len() <= usize::MAX,
                    *e == (Expression::FunctionCall { name: *name, arguments: *arguments }),
                    out@ == start + arguments_query(arguments@.subrange(0, i as int), n as nat).0,
                    k == n + arguments_query(arguments@.subrange(0, i as int), n as nat).1.len(),
                    bindings.model() == add_bindings(b0, arguments_query(arguments@.subrange(0, i as int), n as nat).1),
                decreases arguments@.len() - i,
            {
                let ghost pre = arguments@.subrange(0, i as int);
                let ghost next_args = arguments@.subrange(0, i + 1);
                proof {
                    assert(next_args.subrange(0, i as int) =~= pre);
                    assert(next_args[i as int] == arguments@[i as int]);
                    lemma_arguments_prefix(arguments@, i as int + 1, n as nat);
                }
                if i > 0 {
                    append_text(out, ",");
                }
                let ghost before = bindings.model();
                k = write_expression(&arguments[i], out, bindings, k);
                proof {
                    let (x, xb) = expression_query(arguments@[i as int], (n + arguments_query(pre, n as nat).1.len()) as nat);
                    lemma_add_bindings_append(b0, arguments_query(pre, n as nat).1, xb);
                }
                i = i + 1;
                proof {
                    assert(out@ =~= start + arguments_query(arguments@.subrange(0, i as int), n as nat).0);
                }
            }
            append_text(out, ")");
            proof {
                assert(arguments@.subrange(0, arguments@.len() as int) =~= arguments@);
                assert(out@ =~= old(out)@ + expression_query(*e, n as nat).0);
            }
            k
        },
        Expression::Literal(v) => {
            let name = binding_text('l', n);
            append_text(out, name.as_str());
            let ghost b0 = bindings.model();
            bindings.insert(name, v.deep_clone());
            proof {
                let one = seq![(binding_name('l', n as nat), v@)];
                assert(one.drop_last() =~= Seq::<(Seq<char>, ValueModel)>::empty());
                assert(add_bindings(b0, one.drop_last()) == b0);
                assert(add_bindings(b0, one) == b0.insert(binding_name('l', n as nat), v@));
            }
            n + 1
        },
        Expression::Variable(var) => {
            let t = variable_text(var);
            append_text(out, t.as_str());
            n
        },
        Expression::Get { expression, path } => {
            let k = write_expression(expression, out, bindings, n);
            append_text(out, ".");
            write_joined(out, path, ".");
            proof {
                assert(final(out)@ =~= old(out)@ + expression_query(*e, n as nat).0);
            }
            k
        },
    }
}

/// The bindings of the first arguments fit in those of all of them.
proof fn lemma_arguments_prefix(args: Seq<Expression>, i: int, n: nat)
    requires
        0 <= i <= args.len(),
    ensures
        arguments_query(args.subrange(0, i), n).1.len() <= arguments_query(args, n).1.len(),
    decreases args.len() - i,
{
    if i < args.len() {
        lemma_arguments_prefix(args, i + 1, n);
        assert(args.subrange(0, i + 1).subrange(0, i) =~= args.subrange(0, i));
    } else {
        assert(args.subrange(0, i) =~= args);
    }
}

/// Writes texts joined with a separator.
fn write_joined(out: &mut String, parts: &Vec<String>, sep: &str)
    ensures
        final(out)@ == old(out)@ + join_with(view_labels(parts@), sep@),
{
    let ghost start = out@;
    let mut i: usize = 0;
    while i < parts.len()
        invariant
            0 <= i <= parts@.len(),
            out@ == start + join_with(view_labels(parts@.subrange(0, i as int)), sep@),
        decreases parts@.len() - i,
    {
        if i > 0 {
            append_text(out, sep);
        }
        append_text(out, parts[i].as_str());
        proof {
            let p1 = view_labels(parts@.subrange(0, i + 1));
            assert(p1.drop_last() =~= view_labels(parts@.subrange(0, i as int)));
            assert(p1.last() == parts@[i as int]@);
        }
        i = i + 1;
        proof {
            assert(out@ =~= start + join_with(view_labels(parts@.subrange(0, i as int)), sep@));
        }
    }
    assert(parts@.subrange(0, parts@.len() as int) =~= parts@);
}

/// Writes the labels of a pattern.
fn write_labels(out: &mut String, labels: &Vec<String>)
    ensures
        final(out)@ == old(out)@ + labels_text(view_labels(labels@)),
{
    let ghost start = out@;
    let mut i: usize = 0;
    while i < labels.len()
        invariant
            0 <= i <= labels@.len(),
            out@ == start + labels_text(view_labels(labels@.subrange(0, i as int))),
        decreases labels@.len() - i,
    {
        push_char(out, ':');
        append_text(out, labels[i].as_str());
        proof {
            let p1 = view_labels(labels@.subrange(0, i + 1));
            assert(p1.drop_last() =~= view_labels(labels@.subrange(0, i as int)));
        }
        i = i + 1;
        proof {
            assert(out@ =~= start + labels_text(view_labels(labels@.subrange(0, i as int))));
        }
    }
    assert(labels@.subrange(0, labels@.len() as int) =~= labels@);
}

/// Writes the properties of a pattern, binding them to `$bn` when there are any.
fn write_properties(p: &ValueMap, out: &mut String, bindings: &mut ValueMap, n: usize) -> (next: usize)
    requires
        n + properties_query(*p, n as nat).1.len() <= usize::MAX,
    ensures
        final(out)@ == old(out)@ + properties_query(*p, n as nat).0,
        next == n + properties_query(*p, n as nat).1.len(),
        final(bindings).model() == add_bindings(old(bindings).model(), properties_query(*p, n as nat).1),
{
    if p.len() == 0 {
        assert(p.model() == Map::<Seq<char>, ValueModel>::empty());
        n
    } else {
        let ghost last = p.entries@.last();
        assert(p.model().contains_key(last.0@));
        let name = binding_text('b', n);
        append_text(out, " ");
        append_text(out, name.as_str());
        let ghost b0 = bindings.model();
        bindings.insert(name, Value::Mapping(p.deep_clone()));
        proof {
            let one = properties_query(*p, n as nat).1;
            assert(one.drop_last() =~= Seq::<(Seq<char>, ValueModel)>::empty());
            assert(add_bindings(b0, one.drop_last()) == b0);
            assert(final(out)@ =~= old(out)@ + properties_query(*p, n as nat).0);
        }
        n + 1
    }
}

/// Writes a pattern.
fn write_fragment(f: &MatchCreateFragment, out: &mut String, bindings: &mut ValueMap, n: usize) -> (next: usize)
    requires
        n + fragment_query(*f, n as nat).1.len() <= usize::MAX,
    ensures
        final(out)@ == old(out)@ + fragment_query(*f, n as nat).0,
        next == n + fragment_query(*f, n as nat).1.len(),
        final(bindings).model() == add_bindings(old(bindings).model(), fragment_query(*f, n as nat).1),
{
    match f {
        MatchCreateFragment::Node { variable, labels, properties } => {
            append_text(out, "(");
            let t = variable_text(variable);
            append_text(out, t.as_str());
            write_labels(out, labels);
            let k = write_properties(properties, out, bindings, n);
            append_text(out, ")");
            assert(final(out)@ =~= old(out)@ + fragment_query(*f, n as nat).0);
            k
        },
        MatchCreateFragment::Edge { path_variable, source, edge_variable, destination, labels, properties } => {
            match path_variable {
                Some(v) => {
                    let t = variable_text(v);
                    append_text(out, t.as_str());
                    append_text(out, " = ");
                },
                None => {},
            }
            append_text(out, "(");
            let t = variable_text(source);
            append_text(out, t.as_str());
            append_text(out, ")-[");
            let t = variable_text(edge_variable);
            append_text(out, t.as_str());
            write_labels(out, labels);
            let k = write_properties(properties, out, bindings, n);
            append_text(out, "]->(");
            let t = variable_text(destination);
            append_text(out, t.as_str());
            append_text(out, ")");
            assert(final(out)@ =~= old(out)@ + fragment_query(*f, n as nat).0);
            k
        },
    }
}

/// The bindings of the first patterns fit in those of all of them.
proof fn lemma_fragments_prefix(fs: Seq<MatchCreateFragment>, i: int, n: nat)
    requires
        0 <= i <= fs.len(),
    ensures
        fragments_query(fs.subrange(0, i), n).1.len() <= fragments_query(fs, n).1.len(),
    decreases fs.len() - i,
{
    if i < fs.len() {
        lemma_fragments_prefix(fs, i + 1, n);
        assert(fs.subrange(0, i + 1).drop_last() =~= fs.subrange(0, i));
    } else {
        assert(fs.subrange(0, i) =~= fs);
    }
}

/// Writes patterns joined with `, `.
fn write_fragments(fs: &Vec<MatchCreateFragment>, out: &mut String, bindings: &mut ValueMap, n: usize) -> (next: usize)
    requires
        n + fragments_query(fs@, n as nat).1.len() <= usize::MAX,
    ensures
        final(out)@ == old(out)@ + fragments_query(fs@, n as nat).0,
        next == n + fragments_query(fs@, n as nat).1.len(),
        final(bindings).model() == add_bindings(old(bindings).model(), fragments_query(fs@, n as nat).1),
{
    let ghost start = out@;
    let ghost b0 = bindings.model();
    let mut k = n;
    let mut i: usize = 0;
    while i < fs.len()
        invariant
            0 <= i <= fs@.len(),
            n + fragments_query(fs@, n as nat).1.len() <= usize::MAX,
            out@ == start + fragments_query(fs@.subrange(0, i as int), n as nat).0,
            k == n + fragments_query(fs@.subrange(0, i as int), n as nat).1.len(),
            bindings.model() == add_bindings(b0, fragments_query(fs@.subrange(0, i as int), n as nat).1),
        decreases fs@.len() - i,
    {
        let ghost pre = fs@.subrange(0, i as int);
        proof {
            assert(fs@.subrange(0, i + 1).drop_last() =~= pre);
            lemma_fragments_prefix(fs@, i + 1, n as nat);
        }
        if i > 0 {
            append_text(out, ", ");
        }
        k = write_fragment(&fs[i], out, bindings, k);
        proof {
            let (x, xb) = fragment_query(fs@[i as int], (n + fragments_query(pre, n as nat).1.len()) as nat);
            lemma_add_bindings_append(b0, fragments_query(pre, n as nat).1, xb);
        }
        i = i + 1;
        proof {
            assert(out@ =~= start + fragments_query(fs@.subrange(0, i as int), n as nat).0);
        }
    }
    assert(fs@.subrange(0, fs@.len() as int) =~= fs@);
    k
}

/// The bindings of the first returned values fit in those of all of them.
proof fn lemma_returns_prefix(vs: Seq<(Expression, String)>, i: int, n: nat)
    requires
        0 <= i <= vs.len(),
    ensures
        returns_query(vs.subrange(0, i), n).1.len() <= returns_query(vs, n).1.len(),
    decreases vs.len() - i,
{
    if i < vs.len() {
        lemma_returns_prefix(vs, i + 1, n);
        assert(vs.subrange(0, i + 1).drop_last() =~= vs.subrange(0, i));
    } else {
        assert(vs.subrange(0, i) =~= vs);
    }
}

/// Writes returned values, `expression AS name`, joined with `, `.
fn write_returns(vs: &Vec<(Expression, String)>, out: &mut String, bindings: &mut ValueMap, n: usize) -> (next: usize)
    requires
        n + returns_query(vs@, n as nat).1.len() <= usize::MAX,
    ensures
        final(out)@ == old(out)@ + returns_query(vs@, n as nat).0,
        next == n + returns_query(vs@, n as nat).1.len(),
        final(bindings).model() == add_bindings(old(bindings).model(), returns_query(vs@, n as nat).1),
{
    let ghost start = out@;
    let ghost b0 = bindings.model();
    let mut k = n;
    let mut i: usize = 0;
    while i < vs.len()
        invariant
            0 <= i <= vs@.len(),
            n + returns_query(vs@, n as nat).1.len() <= usize::MAX,
            out@ == start + returns_query(vs@.subrange(0, i as int), n as nat).0,
            k == n + returns_query(vs@.subrange(0, i as int), n as nat).1.len(),
            bindings.model() == add_bindings(b0, returns_query(vs@.subrange(0, i as int), n as nat).1),
        decreases vs@.len() - i,
    {
        let ghost pre = vs@.subrange(0, i as int);
        proof {
            assert(vs@.subrange(0, i + 1).drop_last() =~= pre);
            lemma_returns_prefix(vs@, i + 1, n as nat);
        }
        if i > 0 {
            append_text(out, ", ");
        }
        k = write_expression(&vs[i].0, out, bindings, k);
        append_text(out, " AS ");
        append_text(out, vs[i].1.as_str());
        proof {
            let (x, xb) = expression_query(vs@[i as int].0, (n + returns_query(pre, n as nat).1.len()) as nat);
            lemma_add_bindings_append(b0, returns_query(pre, n as nat).1, xb);
        }
        i = i + 1;
        proof {
            assert(out@ =~= start + returns_query(vs@.subrange(0, i as int), n as nat).0);
        }
    }
    assert(vs@.subrange(0, vs@.len() as int) =~= vs@);
    k
}

/// The bindings of the first assignments fit in those of all of them.
proof fn lemma_assignments_prefix(xs: Seq<(Expression, Expression)>, i: int, n: nat)
    requires
        0 <= i <= xs.len(),
    ensures
        assignments_query(xs.subrange(0, i), n).1.len() <= assignments_query(xs, n).1.len(),
    decreases xs.len() - i,
{
    if i < xs.len() {
        lemma_assignments_prefix(xs, i + 1, n);
        assert(xs.subrange(0, i + 1).drop_last() =~= xs.subrange(0, i));
    } else {
        assert(xs.subrange(0, i) =~= xs);
    }
}

/// Writes assignments, `target = value`, joined with `, `.
fn write_assignments(xs: &Vec<(Expression, Expression)>, out: &mut String, bindings: &mut ValueMap, n: usize) -> (next: usize)
    requires
        n + assignments_query(xs@, n as nat).1.len() <= usize::MAX,
    ensures
        final(out)@ == old(out)@ + assignments_query(xs@, n as nat).0,
        next == n + assignments_query(xs@, n as nat).1.len(),
        final(bindings).model() == add_bindings(old(bindings).model(), assignments_query(xs@, n as nat).1),
{
    let ghost start = out@;
    let ghost b0 = bindings.model();
    let mut k = n;
    let mut i: usize = 0;
    while i < xs.len()
        invariant
            0 <= i <= xs@.len(),
            n + assignments_query(xs@, n as nat).1.len() <= usize::MAX,
            out@ == start + assignments_query(xs@.subrange(0, i as int), n as nat).0,
            k == n + assignments_query(xs@.subrange(0, i as int), n as nat).1.len(),
            bindings.model() == add_bindings(b0, assignments_query(xs@.subrange(0, i as int), n as nat).1),
        decreases xs@.len() - i,
    {
        let ghost pre = xs@.subrange(0, i as int);
        proof {
            assert(xs@.subrange(0, i + 1).drop_last() =~= pre);
            lemma_assignments_prefix(xs@, i + 1, n as nat);
        }
        if i > 0 {
            append_text(out, ", ");
        }
        let ghost pb = assignments_query(pre, n as nat).1;
        let m = write_expression(&xs[i].0, out, bindings, k);
        append_text(out, " = ");
        k = write_expression(&xs[i].1, out, bindings, m);
        proof {
            let (l, lb) = expression_query(xs@[i as int].0, (n + pb.len()) as nat);
            let (r, rb) = expression_query(xs@[i as int].1, (n + pb.len() + lb.len()) as nat);
            lemma_add_bindings_append(b0, pb, lb);
            lemma_add_bindings_append(b0, pb + lb, rb);
        }
        i = i + 1;
        proof {
            assert(out@ =~= start + assignments_query(xs@.subrange(0, i as int), n as nat).0);
        }
    }
    assert(xs@.subrange(0, xs@.len() as int) =~= xs@);
    k
}

/// Writes variables joined with `, `.
fn write_variables(out: &mut String, vs: &Vec<Variable>)
    ensures
        final(out)@ == old(out)@ + variables_text(vs@),
{
    let ghost start = out@;
    let mut i: usize = 0;
    while i < vs.len()
        invariant
            0 <= i <= vs@.len(),
            out@ == start + variables_text(vs@.subrange(0, i as int)),
        decreases vs@.len() - i,
    {
        if i > 0 {
            append_text(out, ", ");
        }
        let t = variable_text(&vs[i]);
        append_text(out, t.as_str());
        proof {
            let p1 = vs@.subrange(0, i + 1).map_values(|v: Variable| var_text(v));
            assert(p1.drop_last() =~= vs@.subrange(0, i as int).map_values(|v: Variable| var_text(v)));
        }
        i = i + 1;
        proof {
            assert(out@ =~= start + variables_text(vs@.subrange(0, i as int)));
        }
    }
    assert(vs@.subrange(0, vs@.len() as int) =~= vs@);
}

/// Writes a statement.
fn write_statement(st: &Statement, out: &mut String, bindings: &mut ValueMap, n: usize) -> (next: usize)
    requires
        n + statement_query(view_statement(*st), n as nat).1.len() <= usize::MAX,
    ensures
        final(out)@ == old(out)@ + statement_query(view_statement(*st), n as nat).0,
        next == n + statement_query(view_statement(*st), n as nat).1.len(),
        final(bindings).model() == add_bindings(old(bindings).model(), statement_query(view_statement(*st), n as nat).1),
{
    match st {
        Statement::Create { fragments } => {
            append_text(out, "CREATE ");
            write_fragments(fragments, out, bindings, n)
        },
        Statement::Match { fragments } => {
            append_text(out, "MATCH ");
            write_fragments(fragments, out, bindings, n)
        },
        Statement::Where { expression } => {
            append_text(out, "WHERE ");
            write_expression(expression, out, bindings, n)
        },
        Statement::Return { values } => {
            append_text(out, "RETURN ");
            write_returns(values, out, bindings, n)
        },
        Statement::SetValues { assignments } => {
            append_text(out, "SET ");
            write_assignments(assignments, out, bindings, n)
        },
        Statement::Delete { variables } => {
            append_text(out, "DELETE ");
            write_variables(out, variables);
            n
        },
        Statement::DetachDelete { variables } => {
            append_text(out, "DETACH DELETE ");
            write_variables(out, variables);
            n
        },
        Statement::UseGraph { name } => {
            append_text(out, "USE ");
            append_text(out, name.as_str());
            n
        },
        Statement::CreateGraph { name, if_not_exists } => {
            if *if_not_exists {
                append_text(out, "CREATE GRAPH IF NOT EXISTS ");
            } else {
                append_text(out, "CREATE GRAPH ");
            }
            append_text(out, name.as_str());
            n
        },
        Statement::DropGraph { name, if_exists } => {
            if *if_exists {
                append_text(out, "DROP GRAPH IF EXISTS ");
            } else {
                append_text(out, "DROP GRAPH ");
            }
            append_text(out, name.as_str());
            n
        },
    }
}

/// The bindings of the first statements fit in those of all of them.
proof fn lemma_query_prefix(ss: Seq<StatementModel>, i: int, n: nat)
    requires
        0 <= i <= ss.len(),
    ensures
        query_spec(ss.subrange(0, i), n).1.len() <= query_spec(ss, n).1.len(),
    decreases ss.len() - i,
{
    if i < ss.len() {
        lemma_query_prefix(ss, i + 1, n);
        assert(ss.subrange(0, i + 1).drop_last() =~= ss.subrange(0, i));
    } else {
        assert(ss.subrange(0, i) =~= ss);
    }
}

/// The statements with a pattern added: to the last statement when it is a `CREATE` (or a
/// `MATCH`, for `create == false`), else in a new statement.
pub open spec fn with_fragment(ss: Seq<StatementModel>, create: bool, f: MatchCreateFragment) -> Seq<StatementModel> {
    if create {
        if ss.len() > 0 && ss.last() is Create {
            ss.drop_last().push(StatementModel::Create(ss.last()->Create_0.push(f)))
        } else {
            ss.push(StatementModel::Create(seq![f]))
        }
    } else {
        if ss.len() > 0 && ss.last() is Match {
            ss.drop_last().push(StatementModel::Match(ss.last()->Match_0.push(f)))
        } else {
            ss.push(StatementModel::Match(seq![f]))
        }
    }
}

/// The statements with a returned value added to the last `RETURN`, or to a new one.
pub open spec fn with_return(ss: Seq<StatementModel>, v: (Expression, String)) -> Seq<StatementModel> {
    if ss.len() > 0 && ss.last() is Return {
        ss.drop_last().push(StatementModel::Return(ss.last()->Return_0.push(v)))
    } else {
        ss.push(StatementModel::Return(seq![v]))
    }
}

/// The statements with an assignment added to the last `SET`, or to a new one.
pub open spec fn with_assignment(ss: Seq<StatementModel>, x: (Expression, Expression)) -> Seq<StatementModel> {
    if ss.len() > 0 && ss.last() is SetValues {
        ss.drop_last().push(StatementModel::SetValues(ss.last()->SetValues_0.push(x)))
    } else {
        ss.push(StatementModel::SetValues(seq![x]))
    }
}

/// The statements with variables added to the last `DELETE` (or `DETACH DELETE`, for
/// `detach`), or to a new one.
pub open spec fn with_deleted(ss: Seq<StatementModel>, detach: bool, vs: Seq<Variable>) -> Seq<StatementModel> {
    if detach {
        if ss.len() > 0 && ss.last() is DetachDelete {
            ss.drop_last().push(StatementModel::DetachDelete(ss.last()->DetachDelete_0 + vs))
        } else {
            ss.push(StatementModel::DetachDelete(vs))
        }
    } else {
        if ss.len() > 0 && ss.last() is Delete {
            ss.drop_last().push(StatementModel::Delete(ss.last()->Delete_0 + vs))
        } else {
            ss.push(StatementModel::Delete(vs))
        }
    }
}

/// A member of an expression: `expression.path`.
pub fn get(expression: Expression, path: Vec<String>) -> (r: Expression)
    ensures
        r == (Expression::Get { expression: Box::new(expression), path }),
{
    Expression::Get { expression: Box::new(expression), path }
}

impl Builder {
    /// An empty builder.
    pub fn new() -> (r: Builder)
        ensures
            r@ == (Seq::<StatementModel>::empty(), 0nat),
    {
        let r = Builder { statements: Vec::new(), variables_count: 0 };
        assert(r@.0 =~= Seq::<StatementModel>::empty());
        r
    }

    fn push_statement(&mut self, st: Statement)
        ensures
            final(self)@ == (old(self)@.0.push(view_statement(st)), old(self)@.1),
    {
        let ghost before = self.statements@;
        self.statements.push(st);
        assert(self.statements@.map_values(|s: Statement| view_statement(s))
            =~= before.map_values(|s: Statement| view_statement(s)).push(view_statement(st)));
    }

    /// Removes the last statement.
    fn pop_statement(&mut self) -> (r: Option<Statement>)
        ensures
            old(self)@.0.len() == 0 ==> r is None && final(self)@ == old(self)@,
            old(self)@.0.len() > 0 ==> (r matches Some(st) && view_statement(st) == old(self)@.0.last()
                && final(self)@ == (old(self)@.0.drop_last(), old(self)@.1)),
    {
        let ghost before = self.statements@;
        let r = self.statements.pop();
        proof {
            if before.len() > 0 {
                assert(self.statements@.map_values(|s: Statement| view_statement(s))
                    =~= before.map_values(|s: Statement| view_statement(s)).drop_last());
            }
        }
        r
    }

    fn add_fragment(&mut self, create: bool, f: MatchCreateFragment)
        ensures
            final(self)@ == (with_fragment(old(self)@.0, create, f), old(self)@.1),
    {
        let last = self.pop_statement();
        match last {
            Some(Statement::Create { fragments }) if create => {
                let mut fragments = fragments;
                fragments.push(f);
                self.push_statement(Statement::Create { fragments });
            },
            Some(Statement::Match { fragments }) if !create => {
                let mut fragments = fragments;
                fragments.push(f);
                self.push_statement(Statement::Match { fragments });
            },
            other => {
                match other {
                    Some(st) => self.push_statement(st),
                    None => {},
                }
                let mut fragments = Vec::new();
                fragments.push(f);
                assert(fragments@ =~= seq![f]);
                if create {
                    self.push_statement(Statement::Create { fragments });
                } else {
                    self.push_statement(Statement::Match { fragments });
                }
            },
        }
        proof {
            assert(self@.0 =~= with_fragment(old(self)@.0, create, f));
        }
    }

    fn next_variable(&mut self, suffix: &'static str) -> (r: Variable)
        requires
            old(self)@.1 < usize::MAX,
        ensures
            r@ == (suffix@, old(self)@.1 + 1),
            final(self)@ == (old(self)@.0, old(self)@.1 + 1),
    {
        self.variables_count = self.variables_count + 1;
        Variable::new(suffix, self.variables_count)
    }

    /// A new node variable, `n` followed by the next number.
    pub fn node_variable(&mut self) -> (r: Variable)
        requires
            old(self)@.1 < usize::MAX,
        ensures
            r@ == ("n"@, old(self)@.1 + 1),
            final(self)@ == (old(self)@.0, old(self)@.1 + 1),
    {
        self.next_variable("n")
    }

    /// Creates a node, in the last `CREATE` statement or a new one; gives its variable.
    pub fn create_node(&mut self, labels: Vec<String>, properties: ValueMap) -> (r: Variable)
        requires
            old(self)@.1 < usize::MAX,
        ensures
            r@ == ("n"@, old(self)@.1 + 1),
            final(self)@ == (
                with_fragment(old(self)@.0, true, MatchCreateFragment::Node { variable: r, labels, properties }),
                old(self)@.1 + 1,
            ),
    {
        let variable = self.node_variable();
        self.add_fragment(true, MatchCreateFragment::Node { variable, labels, properties });
        variable
    }

    /// Creates an edge between two variables, in the last `CREATE` statement or a new one; gives
    /// its variable.
    pub fn create_edge(&mut self, source: Variable, labels: Vec<String>, properties: ValueMap, destination: Variable) -> (r: Variable)
        requires
            old(self)@.1 < usize::MAX,
        ensures
            r@ == ("e"@, old(self)@.1 + 1),
            final(self)@ == (
                with_fragment(old(self)@.0, true, MatchCreateFragment::Edge {
                    path_variable: None,
                    source,
                    edge_variable: r,
                    destination,
                    labels,
                    properties,
                }),
                old(self)@.1 + 1,
            ),
    {
        let edge_variable = self.next_variable("e");
        self.add_fragment(true, MatchCreateFragment::Edge { path_variable: None, source, edge_variable, destination, labels, properties });
        edge_variable
    }

    /// Creates nodes, in order, as `create_node` does for each; gives their variables.
    pub fn create_nodes(&mut self, nodes: Vec<(Vec<String>, ValueMap)>) -> (r: Vec<Variable>)
        requires
            old(self)@.1 + nodes@.len() <= usize::MAX,
        ensures
            r@.len() == nodes@.len(),
            forall|i: int| 0 <= i < r@.len() ==> (#[trigger] r@[i])@ == ("n"@, (old(self)@.1 + i + 1) as nat),
            final(self)@ == (created_nodes(old(self)@.0, nodes@, r@), old(self)@.1 + nodes@.len()),
    {
        let ghost all = nodes@;
        let ghost s0 = self@;
        let mut rest = nodes;
        let mut out: Vec<Variable> = Vec::new();
        let n = rest.len();
        let mut i: usize = 0;
        while i < n
            invariant
                n == all.len(),
                0 <= i <= n,
                rest@ == all.skip(i as int),
                s0.1 + n <= usize::MAX,
                out@.len() == i,
                forall|j: int| 0 <= j < i ==> (#[trigger] out@[j])@ == ("n"@, (s0.1 + j + 1) as nat),
                self@ == (created_nodes(s0.0, all.take(i as int), out@), (s0.1 + i) as nat),
            decreases n - i,
        {
            proof { assert(rest@.len() > 0); }
            let (labels, properties) = rest.remove(0);
            proof {
                assert(rest@ =~= all.skip(i + 1));
                assert(all[i as int] == (labels, properties));
            }
            let v = self.create_node(labels, properties);
            let ghost before = out@;
            out.push(v);
            proof {
                let t = all.take(i + 1);
                assert(t.drop_last() =~= all.take(i as int));
                assert(out@.drop_last() =~= before);
                assert(t.last() == all[i as int]);
                lemma_created_nodes_push(s0.0, all.take(i as int), t, out@);
            }
            i = i + 1;
        }
        assert(all.take(n as int) =~= all);
        out
    }

    /// Creates edges, in order, as `create_edge` does for each; gives their variables.
    pub fn create_edges(&mut self, edges: Vec<(Variable, Vec<String>, ValueMap, Variable)>) -> (r: Vec<Variable>)
        requires
            old(self)@.1 + edges@.len() <= usize::MAX,
        ensures
            r@.len() == edges@.len(),
            forall|i: int| 0 <= i < r@.len() ==> (#[trigger] r@[i])@ == ("e"@, (old(self)@.1 + i + 1) as nat),
            final(self)@ == (created_edges(old(self)@.0, edges@, r@), old(self)@.1 + edges@.len()),
    {
        let ghost all = edges@;
        let ghost s0 = self@;
        let mut rest = edges;
        let mut out: Vec<Variable> = Vec::new();
        let n = rest.len();
        let mut i: usize = 0;
        while i < n
            invariant
                n == all.len(),
                0 <= i <= n,
                rest@ == all.skip(i as int),
                s0.1 + n <= usize::MAX,
                out@.len() == i,
                forall|j: int| 0 <= j < i ==> (#[trigger] out@[j])@ == ("e"@, (s0.1 + j + 1) as nat),
                self@ == (created_edges(s0.0, all.take(i as int), out@), (s0.1 + i) as nat),
            decreases n - i,
        {
            proof { assert(rest@.len() > 0); }
            let (source, labels, properties, destination) = rest.remove(0);
            proof {
                assert(rest@ =~= all.skip(i + 1));
                assert(all[i as int] == (source, labels, properties, destination));
            }
            let v = self.create_edge(source, labels, properties, destination);
            let ghost before = out@;
            out.push(v);
            proof {
                let t = all.take(i + 1);
                assert(t.drop_last() =~= all.take(i as int));
                assert(out@.drop_last() =~= before);
                assert(t.last() == all[i as int]);
                lemma_created_edges_push(s0.0, all.take(i as int), t, out@);
            }
            i = i + 1;
        }
        assert(all.take(n as int) =~= all);
        out
    }

    /// Selects a node, in the last `MATCH` statement or a new one; gives its variable.
    pub fn match_node(&mut self, labels: Vec<String>, properties: ValueMap) -> (r: Variable)
        requires
            old(self)@.1 < usize::MAX,
        ensures
            r@ == ("n"@, old(self)@.1 + 1),
            final(self)@ == (
                with_fragment(old(self)@.0, false, MatchCreateFragment::Node { variable: r, labels, properties }),
                old(self)@.1 + 1,
            ),
    {
        let variable = self.node_variable();
        self.add_fragment(false, MatchCreateFragment::Node { variable, labels, properties });
        variable
    }

    /// The given variable, or a new node variable.
    fn variable_or_node(&mut self, v: Option<Variable>) -> (r: Variable)
        requires
            old(self)@.1 < usize::MAX,
        ensures
            v matches Some(x) ==> (r == x && final(self)@ == old(self)@),
            v is None ==> r@ == ("n"@, old(self)@.1 + 1) && final(self)@ == (old(self)@.0, old(self)@.1 + 1),
    {
        match v {
            Some(x) => x,
            None => self.next_variable("n"),
        }
    }

    /// Selects an edge, in the last `MATCH` statement or a new one; a missing source or
    /// destination gets a new node variable, after the edge's. Gives the edge's variable.
    #[verifier::spinoff_prover]
    pub fn match_edge(&mut self, source: Option<Variable>, labels: Vec<String>, properties: ValueMap, destination: Option<Variable>) -> (r: Variable)
        requires
            old(self)@.1 + 3 <= usize::MAX,
        ensures
            r@ == ("e"@, old(self)@.1 + 1),
            exists|src: Variable, dst: Variable| {
                &&& (source matches Some(x) ==> src == x)
                &&& (source is None ==> src@ == ("n"@, old(self)@.1 + 2))
                &&& (destination matches Some(x) ==> dst == x)
                &&& (destination is None ==> dst@ == ("n"@, old(self)@.1 + 2 + (if source is None { 1nat } else { 0nat })))
                &&& final(self)@ == (
                    with_fragment(old(self)@.0, false, MatchCreateFragment::Edge {
                        path_variable: None,
                        source: src,
                        edge_variable: r,
                        destination: dst,
                        labels,
                        properties,
                    }),
                    old(self)@.1 + 1 + (if source is None { 1nat } else { 0nat }) + (if destination is None { 1nat } else { 0nat }),
                )
            },
    {
        let edge_variable = self.next_variable("e");
        let src = self.variable_or_node(source);
        let dst = self.variable_or_node(destination);
        self.add_fragment(false, MatchCreateFragment::Edge { path_variable: None, source: src, edge_variable, destination: dst, labels, properties });
        edge_variable
    }

    /// Selects a path, in the last `MATCH` statement or a new one; a missing source or
    /// destination gets a new node variable, after the path's and the edge's. Gives the path's
    /// and the edge's variables.
    #[verifier::spinoff_prover]
    pub fn match_path(&mut self, source: Option<Variable>, labels: Vec<String>, properties: ValueMap, destination: Option<Variable>) -> (r: (Variable, Variable))
        requires
            old(self)@.1 + 4 <= usize::MAX,
        ensures
            r.0@ == ("p"@, old(self)@.1 + 1),
            r.1@ == ("e"@, old(self)@.1 + 2),
            exists|src: Variable, dst: Variable| {
                &&& (source matches Some(x) ==> src == x)
                &&& (source is None ==> src@ == ("n"@, old(self)@.1 + 3))
                &&& (destination matches Some(x) ==> dst == x)
                &&& (destination is None ==> dst@ == ("n"@, old(self)@.1 + 3 + (if source is None { 1nat } else { 0nat })))
                &&& final(self)@ == (
                    with_fragment(old(self)@.0, false, MatchCreateFragment::Edge {
                        path_variable: Some(r.0),
                        source: src,
                        edge_variable: r.1,
                        destination: dst,
                        labels,
                        properties,
                    }),
                    old(self)@.1 + 2 + (if source is None { 1nat } else { 0nat }) + (if destination is None { 1nat } else { 0nat }),
                )
            },
    {
        let path_variable = self.next_variable("p");
        let edge_variable = self.next_variable("e");
        let src = self.variable_or_node(source);
        let dst = self.variable_or_node(destination);
        self.add_fragment(false, MatchCreateFragment::Edge {
            path_variable: Some(path_variable),
            source: src,
            edge_variable,
            destination: dst,
            labels,
            properties,
        });
        (path_variable, edge_variable)
    }

    fn add_return(&mut self, v: (Expression, String))
        ensures
            final(self)@ == (with_return(old(self)@.0, v), old(self)@.1),
    {
        let last = self.pop_statement();
        match last {
            Some(Statement::Return { values }) => {
                let mut values = values;
                values.push(v);
                self.push_statement(Statement::Return { values });
            },
            other => {
                match other {
                    Some(st) => self.push_statement(st),
                    None => {},
                }
                let mut values = Vec::new();
                values.push(v);
                assert(values@ =~= seq![v]);
                self.push_statement(Statement::Return { values });
            },
        }
        proof {
            assert(self@.0 =~= with_return(old(self)@.0, v));
        }
    }

    fn add_assignment(&mut self, x: (Expression, Expression))
        ensures
            final(self)@ == (with_assignment(old(self)@.0, x), old(self)@.1),
    {
        let last = self.pop_statement();
        match last {
            Some(Statement::SetValues { assignments }) => {
                let mut assignments = assignments;
                assignments.push(x);
                self.push_statement(Statement::SetValues { assignments });
            },
            other => {
                match other {
                    Some(st) => self.push_statement(st),
                    None => {},
                }
                let mut assignments = Vec::new();
                assignments.push(x);
                assert(assignments@ =~= seq![x]);
                self.push_statement(Statement::SetValues { assignments });
            },
        }
        proof {
            assert(self@.0 =~= with_assignment(old(self)@.0, x));
        }
    }

    fn add_deleted<V: Variables>(&mut self, detach: bool, variables: V)
        ensures
            final(self)@ == (with_deleted(old(self)@.0, detach, variables.variables()), old(self)@.1),
    {
        let last = self.pop_statement();
        match last {
            Some(Statement::Delete { variables: vs }) if !detach => {
                let mut vs = vs;
                variables.fill(&mut vs);
                self.push_statement(Statement::Delete { variables: vs });
            },
            Some(Statement::DetachDelete { variables: vs }) if detach => {
                let mut vs = vs;
                variables.fill(&mut vs);
                self.push_statement(Statement::DetachDelete { variables: vs });
            },
            other => {
                match other {
                    Some(st) => self.push_statement(st),
                    None => {},
                }
                let mut vs = Vec::new();
                variables.fill(&mut vs);
                assert(vs@ =~= variables.variables());
                if detach {
                    self.push_statement(Statement::DetachDelete { variables: vs });
                } else {
                    self.push_statement(Statement::Delete { variables: vs });
                }
            },
        }
        proof {
            assert(self@.0 =~= with_deleted(old(self)@.0, detach, variables.variables()));
        }
    }

    /// Assigns an expression to a member of a variable, in the last `SET` statement or a new one.
    pub fn set_assignment(&mut self, variable: Variable, path: Vec<String>, expression: Expression)
        ensures
            final(self)@ == (
                with_assignment(old(self)@.0, (Expression::Get { expression: Box::new(Expression::Variable(variable)), path }, expression)),
                old(self)@.1,
            ),
    {
        let target = get(Expression::Variable(variable), path);
        self.add_assignment((target, expression));
    }

    /// Adds a `WHERE` statement.
    pub fn where_statement(&mut self, expression: Expression)
        ensures
            final(self)@ == (old(self)@.0.push(StatementModel::Where(expression)), old(self)@.1),
    {
        self.push_statement(Statement::Where { expression: Box::new(expression) });
    }

    /// Returns an expression under a column name, in the last `RETURN` statement or a new one.
    pub fn return_expression(&mut self, expression: Expression, name: String)
        ensures
            final(self)@ == (with_return(old(self)@.0, (expression, name)), old(self)@.1),
    {
        self.add_return((expression, name));
    }

    /// Returns a variable under a column name.
    pub fn return_variable(&mut self, variable: Variable, name: String)
        ensures
            final(self)@ == (with_return(old(self)@.0, (Expression::Variable(variable), name)), old(self)@.1),
    {
        self.return_expression(Expression::Variable(variable), name);
    }

    /// Returns a member of a variable under a column name.
    pub fn return_property(&mut self, variable: Variable, path: Vec<String>, name: String)
        ensures
            final(self)@ == (
                with_return(old(self)@.0, (Expression::Get { expression: Box::new(Expression::Variable(variable)), path }, name)),
                old(self)@.1,
            ),
    {
        let e = get(Expression::Variable(variable), path);
        self.return_expression(e, name);
    }

    /// Deletes variables, in the last `DELETE` statement or a new one.
    pub fn delete<V: Variables>(&mut self, variables: V)
        ensures
            final(self)@ == (with_deleted(old(self)@.0, false, variables.variables()), old(self)@.1),
    {
        self.add_deleted(false, variables);
    }

    /// Deletes variables with their edges, in the last `DETACH DELETE` statement or a new one.
    pub fn detach_delete<V: Variables>(&mut self, variables: V)
        ensures
            final(self)@ == (with_deleted(old(self)@.0, true, variables.variables()), old(self)@.1),
    {
        self.add_deleted(true, variables);
    }

    /// Selects the graph that the following statements use.
    pub fn use_graph(&mut self, graphname: String)
        ensures
            final(self)@ == (old(self)@.0.push(StatementModel::UseGraph(graphname@)), old(self)@.1),
    {
        self.push_statement(Statement::UseGraph { name: graphname });
    }

    /// Creates a graph.
    pub fn create_graph(&mut self, graphname: String, if_not_exists: bool)
        ensures
            final(self)@ == (old(self)@.0.push(StatementModel::CreateGraph(graphname@, if_not_exists)), old(self)@.1),
    {
        self.push_statement(Statement::CreateGraph { name: graphname, if_not_exists });
    }

    /// Drops a graph.
    pub fn drop_graph(&mut self, graphname: String, if_exists: bool)
        ensures
            final(self)@ == (old(self)@.0.push(StatementModel::DropGraph(graphname@, if_exists)), old(self)@.1),
    {
        self.push_statement(Statement::DropGraph { name: graphname, if_exists });
    }

    /// The OpenCypher query of the statements, joined with spaces, and its parameters: the
    /// properties of each pattern that has some, as `$bK`, and each literal, as `$lK`, where `K`
    /// counts the parameters bound before.
    pub fn into_oc_query(self) -> (r: (String, ValueMap))
        requires
            query_spec(self@.0, 0).1.len() <= usize::MAX,
        ensures
            r.0@ == query_text(self@),
            r.1.model() == query_bindings(self@),
    {
        let ghost ss = self@.0;
        let mut out = String::new();
        let mut bindings = ValueMap::new();
        let mut k: usize = 0;
        let mut i: usize = 0;
        while i < self.statements.len()
            invariant
                0 <= i <= self.statements@.len(),
                ss == self.statements@.map_values(|s: Statement| view_statement(s)),
                query_spec(ss, 0).1.len() <= usize::MAX,
                out@ == query_spec(ss.subrange(0, i as int), 0).0,
                k == query_spec(ss.subrange(0, i as int), 0).1.len(),
                bindings.model() == add_bindings(Map::empty(), query_spec(ss.subrange(0, i as int), 0).1),
            decreases self.statements@.len() - i,
        {
            let ghost pre = ss.subrange(0, i as int);
            proof {
                assert(ss.subrange(0, i + 1).drop_last() =~= pre);
                assert(ss[i as int] == view_statement(self.statements@[i as int]));
                lemma_query_prefix(ss, i + 1, 0);
            }
            if i > 0 {
                append_text(&mut out, " ");
            }
            k = write_statement(&self.statements[i], &mut out, &mut bindings, k);
            proof {
                let (x, xb) = statement_query(ss[i as int], query_spec(pre, 0).1.len());
                lemma_add_bindings_append(Map::empty(), query_spec(pre, 0).1, xb);
            }
            i = i + 1;
            proof {
                assert(out@ =~= query_spec(ss.subrange(0, i as int), 0).0);
            }
        }
        assert(ss.subrange(0, ss.len() as int) =~= ss);
        (out, bindings)
    }
}

/// A call of a function on arguments.
pub fn function_call(name: String, arguments: Vec<Expression>) -> (r: Expression)
    ensures
        r == (Expression::FunctionCall { name, arguments }),
{
    Expression::FunctionCall { name, arguments }
}

/// A binary operation.
pub fn binary_op(operator: BinOp, lhs: Expression, rhs: Expression) -> (r: Expression)
    ensures
        r == (Expression::BinaryOp { operator, lhs: Box::new(lhs), rhs: Box::new(rhs) }),
{
    Expression::BinaryOp { operator, lhs: Box::new(lhs), rhs: Box::new(rhs) }
}

/// No expression.
pub fn none() -> (r: Option<Expression>)
    ensures
        r is None,
{
    None
}

/// The bindings are numbered in order from `n`: the one at position `i` is named `$b` or `$l`
/// followed by `n + i`.
pub open spec fn numbered(b: BindingSeq, n: nat) -> bool {
    forall|i: int| 0 <= i < b.len() ==> (#[trigger] b[i]).0 == binding_name('b', n + i as nat)
        || b[i].0 == binding_name('l', n + i as nat)
}

proof fn lemma_numbered_append(b1: BindingSeq, b2: BindingSeq, n: nat)
    requires
        numbered(b1, n),
        numbered(b2, n + b1.len()),
    ensures
        numbered(b1 + b2, n),
{
    assert forall|i: int| 0 <= i < (b1 + b2).len() implies ((#[trigger] (b1 + b2)[i]).0 == binding_name('b', n + i as nat)
        || (b1 + b2)[i].0 == binding_name('l', n + i as nat)) by {
        if i >= b1.len() {
            let j = i - b1.len();
            assert((b1 + b2)[i] == b2[j]);
            assert(n + b1.len() + j as nat == n + i as nat);
        } else {
            assert((b1 + b2)[i] == b1[i]);
        }
    }
}

proof fn lemma_numbered_expression(e: Expression, n: nat)
    ensures
        numbered(expression_query(e, n).1, n),
    decreases e,
{
    match e {
        Expression::BinaryOp { operator, lhs, rhs } => {
            let lb = expression_query(*lhs, n).1;
            lemma_numbered_expression(*lhs, n);
            lemma_numbered_expression(*rhs, n + lb.len());
            lemma_numbered_append(lb, expression_query(*rhs, n + lb.len()).1, n);
        },
        Expression::FunctionCall { name, arguments } => {
            lemma_numbered_arguments(arguments@, n);
        },
        Expression::Get { expression, path } => {
            lemma_numbered_expression(*expression, n);
        },
        _ => {},
    }
}

proof fn lemma_numbered_arguments(args: Seq<Expression>, n: nat)
    ensures
        numbered(arguments_query(args, n).1, n),
    decreases args,
{
    if args.len() > 0 {
        let pre = args.subrange(0, args.len() - 1);
        let b = arguments_query(pre, n).1;
        lemma_numbered_arguments(pre, n);
        lemma_numbered_expression(args[args.len() - 1], n + b.len());
        lemma_numbered_append(b, expression_query(args[args.len() - 1], n + b.len()).1, n);
    }
}

proof fn lemma_numbered_fragments(fs: Seq<MatchCreateFragment>, n: nat)
    ensures
        numbered(fragments_query(fs, n).1, n),
    decreases fs.len(),
{
    if fs.len() > 0 {
        let b = fragments_query(fs.drop_last(), n).1;
        lemma_numbered_fragments(fs.drop_last(), n);
        lemma_numbered_append(b, fragment_query(fs.last(), n + b.len()).1, n);
    }
}

proof fn lemma_numbered_returns(vs: Seq<(Expression, String)>, n: nat)
    ensures
        numbered(returns_query(vs, n).1, n),
    decreases vs.len(),
{
    if vs.len() > 0 {
        let b = returns_query(vs.drop_last(), n).1;
        lemma_numbered_returns(vs.drop_last(), n);
        lemma_numbered_expression(vs.last().0, n + b.len());
        lemma_numbered_append(b, expression_query(vs.last().0, n + b.len()).1, n);
    }
}

proof fn lemma_numbered_assignments(xs: Seq<(Expression, Expression)>, n: nat)
    ensures
        numbered(assignments_query(xs, n).1, n),
    decreases xs.len(),
{
    if xs.len() > 0 {
        let b = assignments_query(xs.drop_last(), n).1;
        let lb = expression_query(xs.last().0, n + b.len()).1;
        lemma_numbered_assignments(xs.drop_last(), n);
        lemma_numbered_expression(xs.last().0, n + b.len());
        lemma_numbered_expression(xs.last().1, n + b.len() + lb.len());
        lemma_numbered_append(b, lb, n);
        lemma_numbered_append(b + lb, expression_query(xs.last().1, n + b.len() + lb.len()).1, n);
    }
}

proof fn lemma_numbered_statement(st: StatementModel, n: nat)
    ensures
        numbered(statement_query(st, n).1, n),
{
    match st {
        StatementModel::Create(fs) => lemma_numbered_fragments(fs, n),
        StatementModel::Match(fs) => lemma_numbered_fragments(fs, n),
        StatementModel::Where(e) => lemma_numbered_expression(e, n),
        StatementModel::Return(vs) => lemma_numbered_returns(vs, n),
        StatementModel::SetValues(xs) => lemma_numbered_assignments(xs, n),
        _ => {},
    }
}

/// The parameters that a built query binds are numbered in the order they are bound, from
/// `n`: the `i`-th is named `$bK` (properties of a pattern) or `$lK` (a literal) with `K = n + i`,
/// so each name counts the parameters bound before it.
pub proof fn lemma_query_numbered(ss: Seq<StatementModel>, n: nat)
    ensures
        numbered(query_spec(ss, n).1, n),
    decreases ss.len(),
{
    if ss.len() > 0 {
        let b = query_spec(ss.drop_last(), n).1;
        lemma_query_numbered(ss.drop_last(), n);
        lemma_numbered_statement(ss.last(), n + b.len());
        lemma_numbered_append(b, statement_query(ss.last(), n + b.len()).1, n);
    }
}

/// The statements after creating the nodes in order, each with its variable.
pub open spec fn created_nodes(ss: Seq<StatementModel>, nodes: Seq<(Vec<String>, ValueMap)>, vars: Seq<Variable>) -> Seq<StatementModel>
    decreases nodes.len(),
{
    if nodes.len() == 0 {
        ss
    } else {
        let k = nodes.len() - 1;
        with_fragment(created_nodes(ss, nodes.drop_last(), vars), true,
            MatchCreateFragment::Node { variable: vars[k], labels: nodes[k].0, properties: nodes[k].1 })
    }
}

/// The statements after creating the edges in order, each with its variable.
pub open spec fn created_edges(ss: Seq<StatementModel>, edges: Seq<(Variable, Vec<String>, ValueMap, Variable)>, vars: Seq<Variable>) -> Seq<StatementModel>
    decreases edges.len(),
{
    if edges.len() == 0 {
        ss
    } else {
        let k = edges.len() - 1;
        with_fragment(created_edges(ss, edges.drop_last(), vars), true, MatchCreateFragment::Edge {
            path_variable: None,
            source: edges[k].0,
            edge_variable: vars[k],
            destination: edges[k].3,
            labels: edges[k].1,
            properties: edges[k].2,
        })
    }
}

/// Only the first variables matter to the nodes created before.
proof fn lemma_created_nodes_vars(ss: Seq<StatementModel>, nodes: Seq<(Vec<String>, ValueMap)>, v1: Seq<Variable>, v2: Seq<Variable>)
    requires
        nodes.len() <= v1.len(),
        nodes.len() <= v2.len(),
        forall|j: int| 0 <= j < nodes.len() ==> v1[j] == v2[j],
    ensures
        created_nodes(ss, nodes, v1) == created_nodes(ss, nodes, v2),
    decreases nodes.len(),
{
    if nodes.len() > 0 {
        lemma_created_nodes_vars(ss, nodes.drop_last(), v1, v2);
    }
}

proof fn lemma_created_nodes_push(ss: Seq<StatementModel>, pre: Seq<(Vec<String>, ValueMap)>, t: Seq<(Vec<String>, ValueMap)>, vars: Seq<Variable>)
    requires
        t.len() == pre.len() + 1,
        t.drop_last() == pre,
        vars.len() == t.len(),
    ensures
        created_nodes(ss, t, vars) == with_fragment(created_nodes(ss, pre, vars.drop_last()), true,
            MatchCreateFragment::Node { variable: vars.last(), labels: t.last().0, properties: t.last().1 }),
{
    lemma_created_nodes_vars(ss, pre, vars, vars.drop_last());
}

proof fn lemma_created_edges_vars(ss: Seq<StatementModel>, edges: Seq<(Variable, Vec<String>, ValueMap, Variable)>, v1: Seq<Variable>, v2: Seq<Variable>)
    requires
        edges.len() <= v1.len(),
        edges.len() <= v2.len(),
        forall|j: int| 0 <= j < edges.len() ==> v1[j] == v2[j],
    ensures
        created_edges(ss, edges, v1) == created_edges(ss, edges, v2),
    decreases edges.len(),
{
    if edges.len() > 0 {
        lemma_created_edges_vars(ss, edges.drop_last(), v1, v2);
    }
}

proof fn lemma_created_edges_push(ss: Seq<StatementModel>, pre: Seq<(Variable, Vec<String>, ValueMap, Variable)>, t: Seq<(Variable, Vec<String>, ValueMap, Variable)>, vars: Seq<Variable>)
    requires
        t.len() == pre.len() + 1,
        t.drop_last() == pre,
        vars.len() == t.len(),
    ensures
        created_edges(ss, t, vars) == with_fragment(created_edges(ss, pre, vars.drop_last()), true, MatchCreateFragment::Edge {
            path_variable: None,
            source: t.last().0,
            edge_variable: vars.last(),
            destination: t.last().3,
            labels: t.last().1,
            properties: t.last().2,
        }),
{
    lemma_created_edges_vars(ss, pre, vars, vars.drop_last());
}

/// `t` occurs in `s`.
pub open spec fn occurs_in(t: Seq<char>, s: Seq<char>) -> bool {
    exists|k: int| 0 <= k && k + t.len() <= s.len() && #[trigger] s.subrange(k, k + t.len()) == t
}

/// The name of each binding occurs in the text.
pub open spec fn bindings_occur(b: BindingSeq, s: Seq<char>) -> bool {
    forall|i: int| 0 <= i < b.len() ==> occurs_in((#[trigger] b[i]).0, s)
}

proof fn lemma_occur_within(b: BindingSeq, s: Seq<char>, big: Seq<char>, off: int)
    requires
        bindings_occur(b, s),
        0 <= off,
        off + s.len() <= big.len(),
        big.subrange(off, off + s.len()) == s,
    ensures
        bindings_occur(b, big),
{
    assert forall|i: int| 0 <= i < b.len() implies occurs_in((#[trigger] b[i]).0, big) by {
        let t = b[i].0;
        assert(occurs_in(t, s));
        let k = choose|k: int| 0 <= k && k + t.len() <= s.len() && #[trigger] s.subrange(k, k + t.len()) == t;
        assert(big.subrange(off + k, off + k + t.len()) =~= s.subrange(k, k + t.len()));
    }
}

proof fn lemma_occur_append(b1: BindingSeq, b2: BindingSeq, s: Seq<char>)
    requires
        bindings_occur(b1, s),
        bindings_occur(b2, s),
    ensures
        bindings_occur(b1 + b2, s),
{
    assert forall|i: int| 0 <= i < (b1 + b2).len() implies occurs_in((#[trigger] (b1 + b2)[i]).0, s) by {
        if i < b1.len() {
            assert((b1 + b2)[i] == b1[i]);
        } else {
            assert((b1 + b2)[i] == b2[i - b1.len()]);
        }
    }
}

/// `s` sits in `pre + s + post`.
proof fn lemma_sits(pre: Seq<char>, s: Seq<char>, post: Seq<char>)
    ensures
        (pre + s + post).subrange(pre.len() as int, (pre.len() + s.len()) as int) == s,
{
    assert((pre + s + post).subrange(pre.len() as int, (pre.len() + s.len()) as int) =~= s);
}

proof fn lemma_occur_expression(e: Expression, n: nat)
    ensures
        bindings_occur(expression_query(e, n).1, expression_query(e, n).0),
    decreases e,
{
    match e {
        Expression::BinaryOp { operator, lhs, rhs } => {
            let (l, lb) = expression_query(*lhs, n);
            let (r, rb) = expression_query(*rhs, n + lb.len());
            let t = expression_query(e, n).0;
            lemma_occur_expression(*lhs, n);
            lemma_occur_expression(*rhs, n + lb.len());
            let post_l = ") "@ + bin_op_text(operator) + " ("@ + r + ")"@;
            assert(t =~= "("@ + l + post_l);
            lemma_sits("("@, l, post_l);
            lemma_occur_within(lb, l, t, "("@.len() as int);
            let pre_r = "("@ + l + ") "@ + bin_op_text(operator) + " ("@;
            lemma_sits(pre_r, r, ")"@);
            assert(t =~= pre_r + r + ")"@);
            lemma_occur_within(rb, r, t, pre_r.len() as int);
            lemma_occur_append(lb, rb, t);
            assert(expression_query(e, n).1 == lb + rb);
        },
        Expression::FunctionCall { name, arguments } => {
            let (a, ab) = arguments_query(arguments@, n);
            let t = expression_query(e, n).0;
            lemma_occur_arguments(arguments@, n);
            let pre = name@ + "("@;
            lemma_sits(pre, a, ")"@);
            lemma_occur_within(ab, a, t, pre.len() as int);
        },
        Expression::Literal(v) => {
            let t = expression_query(e, n).0;
            let b = expression_query(e, n).1;
            assert(t.subrange(0, 0 + t.len() as int) =~= t);
            assert(occurs_in(t, t));
            assert(b.len() == 1 && b[0].0 == t);
        },
        Expression::Get { expression, path } => {
            let (x, b) = expression_query(*expression, n);
            let t = expression_query(e, n).0;
            lemma_occur_expression(*expression, n);
            let post = "."@ + join_with(view_labels(path@), "."@);
            assert(t =~= Seq::<char>::empty() + x + post);
            lemma_sits(Seq::<char>::empty(), x, post);
            lemma_occur_within(b, x, t, 0);
        },
        _ => {},
    }
}

proof fn lemma_occur_arguments(args: Seq<Expression>, n: nat)
    ensures
        bindings_occur(arguments_query(args, n).1, arguments_query(args, n).0),
    decreases args,
{
    if args.len() > 0 {
        let pre = args.subrange(0, args.len() - 1);
        let (t, b) = arguments_query(pre, n);
        let (x, xb) = expression_query(args[args.len() - 1], n + b.len());
        let all = arguments_query(args, n).0;
        lemma_occur_arguments(pre, n);
        lemma_occur_expression(args[args.len() - 1], n + b.len());
        if args.len() == 1 {
            assert(b.len() == 0);
            assert(all.subrange(0, all.len() as int) =~= all);
            lemma_occur_within(xb, x, all, 0);
        } else {
            lemma_sits(Seq::<char>::empty(), t, ","@ + x);
            assert(all =~= Seq::<char>::empty() + t + (","@ + x));
            lemma_occur_within(b, t, all, 0);
            lemma_sits(t + ","@, x, Seq::<char>::empty());
            assert(all =~= t + ","@ + x + Seq::<char>::empty());
            lemma_occur_within(xb, x, all, (t + ","@).len() as int);
        }
        lemma_occur_append(b, xb, all);
    }
}

proof fn lemma_occur_fragment(f: MatchCreateFragment, n: nat)
    ensures
        bindings_occur(fragment_query(f, n).1, fragment_query(f, n).0),
{
    reveal_strlit(" ");
    match f {
        MatchCreateFragment::Node { variable, labels, properties } => {
            let (p, b) = properties_query(properties, n);
            let t = fragment_query(f, n).0;
            if b.len() > 0 {
                let name = binding_name('b', n);
                assert(b[0].0 == name);
                let pre = "("@ + var_text(variable) + labels_text(view_labels(labels@)) + " "@;
                lemma_sits(pre, name, ")"@);
                assert(t =~= pre + name + ")"@);
                assert(t.subrange(pre.len() as int, (pre.len() + name.len()) as int) == name);
            }
        },
        MatchCreateFragment::Edge { path_variable, source, edge_variable, destination, labels, properties } => {
            let (p, b) = properties_query(properties, n);
            let t = fragment_query(f, n).0;
            if b.len() > 0 {
                let name = binding_name('b', n);
                assert(b[0].0 == name);
                let prefix = match path_variable {
                    Some(v) => var_text(v) + " = "@,
                    None => Seq::empty(),
                };
                let pre = prefix + "("@ + var_text(source) + ")-["@ + var_text(edge_variable) + labels_text(view_labels(labels@)) + " "@;
                let post = "]->("@ + var_text(destination) + ")"@;
                lemma_sits(pre, name, post);
                assert(t =~= pre + name + post);
                assert(t.subrange(pre.len() as int, (pre.len() + name.len()) as int) == name);
            }
        },
    }
}

proof fn lemma_occur_fragments(fs: Seq<MatchCreateFragment>, n: nat)
    ensures
        bindings_occur(fragments_query(fs, n).1, fragments_query(fs, n).0),
    decreases fs.len(),
{
    if fs.len() > 0 {
        let (t, b) = fragments_query(fs.drop_last(), n);
        let (x, xb) = fragment_query(fs.last(), n + b.len());
        let all = fragments_query(fs, n).0;
        lemma_occur_fragments(fs.drop_last(), n);
        lemma_occur_fragment(fs.last(), n + b.len());
        if fs.len() == 1 {
            assert(b.len() == 0);
            assert(all.subrange(0, all.len() as int) =~= all);
            lemma_occur_within(xb, x, all, 0);
        } else {
            lemma_sits(Seq::<char>::empty(), t, ", "@ + x);
            assert(all =~= Seq::<char>::empty() + t + (", "@ + x));
            lemma_occur_within(b, t, all, 0);
            lemma_sits(t + ", "@, x, Seq::<char>::empty());
            assert(all =~= t + ", "@ + x + Seq::<char>::empty());
            lemma_occur_within(xb, x, all, (t + ", "@).len() as int);
        }
        lemma_occur_append(b, xb, all);
    }
}

proof fn lemma_occur_returns(vs: Seq<(Expression, String)>, n: nat)
    ensures
        bindings_occur(returns_query(vs, n).1, returns_query(vs, n).0),
    decreases vs.len(),
{
    if vs.len() > 0 {
        let (t, b) = returns_query(vs.drop_last(), n);
        let (x, xb) = expression_query(vs.last().0, n + b.len());
        let post = " AS "@ + vs.last().1@;
        let all = returns_query(vs, n).0;
        lemma_occur_returns(vs.drop_last(), n);
        lemma_occur_expression(vs.last().0, n + b.len());
        if vs.len() == 1 {
            assert(b.len() == 0);
            lemma_sits(Seq::<char>::empty(), x, post);
            assert(all =~= Seq::<char>::empty() + x + post);
            lemma_occur_within(xb, x, all, 0);
        } else {
            lemma_sits(Seq::<char>::empty(), t, ", "@ + (x + post));
            assert(all =~= Seq::<char>::empty() + t + (", "@ + (x + post)));
            lemma_occur_within(b, t, all, 0);
            lemma_sits(t + ", "@, x, post);
            assert(all =~= t + ", "@ + x + post);
            lemma_occur_within(xb, x, all, (t + ", "@).len() as int);
        }
        lemma_occur_append(b, xb, all);
    }
}

proof fn lemma_occur_assignments(xs: Seq<(Expression, Expression)>, n: nat)
    ensures
        bindings_occur(assignments_query(xs, n).1, assignments_query(xs, n).0),
    decreases xs.len(),
{
    if xs.len() > 0 {
        let (t, b) = assignments_query(xs.drop_last(), n);
        let (l, lb) = expression_query(xs.last().0, n + b.len());
        let (r, rb) = expression_query(xs.last().1, n + b.len() + lb.len());
        let item = l + " = "@ + r;
        let all = assignments_query(xs, n).0;
        lemma_occur_assignments(xs.drop_last(), n);
        lemma_occur_expression(xs.last().0, n + b.len());
        lemma_occur_expression(xs.last().1, n + b.len() + lb.len());
        let pre = if xs.len() == 1 { Seq::<char>::empty() } else { t + ", "@ };
        assert(all =~= pre + item);
        lemma_sits(pre, l, " = "@ + r);
        assert(all =~= pre + l + (" = "@ + r));
        lemma_occur_within(lb, l, all, pre.len() as int);
        lemma_sits(pre + l + " = "@, r, Seq::<char>::empty());
        assert(all =~= pre + l + " = "@ + r + Seq::<char>::empty());
        lemma_occur_within(rb, r, all, (pre + l + " = "@).len() as int);
        if xs.len() > 1 {
            lemma_sits(Seq::<char>::empty(), t, ", "@ + item);
            assert(all =~= Seq::<char>::empty() + t + (", "@ + item));
            lemma_occur_within(b, t, all, 0);
        } else {
            assert(b.len() == 0);
        }
        lemma_occur_append(b, lb, all);
        lemma_occur_append(b + lb, rb, all);
    }
}

proof fn lemma_occur_statement(st: StatementModel, n: nat)
    ensures
        bindings_occur(statement_query(st, n).1, statement_query(st, n).0),
{
    let all = statement_query(st, n).0;
    match st {
        StatementModel::Create(fs) => {
            lemma_occur_fragments(fs, n);
            let t = fragments_query(fs, n).0;
            lemma_sits("CREATE "@, t, Seq::<char>::empty());
            assert(all =~= "CREATE "@ + t + Seq::<char>::empty());
            lemma_occur_within(fragments_query(fs, n).1, t, all, "CREATE "@.len() as int);
        },
        StatementModel::Match(fs) => {
            lemma_occur_fragments(fs, n);
            let t = fragments_query(fs, n).0;
            lemma_sits("MATCH "@, t, Seq::<char>::empty());
            assert(all =~= "MATCH "@ + t + Seq::<char>::empty());
            lemma_occur_within(fragments_query(fs, n).1, t, all, "MATCH "@.len() as int);
        },
        StatementModel::Where(e) => {
            lemma_occur_expression(e, n);
            let t = expression_query(e, n).0;
            lemma_sits("WHERE "@, t, Seq::<char>::empty());
            assert(all =~= "WHERE "@ + t + Seq::<char>::empty());
            lemma_occur_within(expression_query(e, n).1, t, all, "WHERE "@.len() as int);
        },
        StatementModel::Return(vs) => {
            lemma_occur_returns(vs, n);
            let t = returns_query(vs, n).0;
            lemma_sits("RETURN "@, t, Seq::<char>::empty());
            assert(all =~= "RETURN "@ + t + Seq::<char>::empty());
            lemma_occur_within(returns_query(vs, n).1, t, all, "RETURN "@.len() as int);
        },
        StatementModel::SetValues(xs) => {
            lemma_occur_assignments(xs, n);
            let t = assignments_query(xs, n).0;
            lemma_sits("SET "@, t, Seq::<char>::empty());
            assert(all =~= "SET "@ + t + Seq::<char>::empty());
            lemma_occur_within(assignments_query(xs, n).1, t, all, "SET "@.len() as int);
        },
        _ => {},
    }
}

/// Each parameter that a built query binds is named in the query's text.
pub proof fn lemma_query_bindings_occur(ss: Seq<StatementModel>, n: nat)
    ensures
        bindings_occur(query_spec(ss, n).1, query_spec(ss, n).0),
    decreases ss.len(),
{
    if ss.len() > 0 {
        let (t, b) = query_spec(ss.drop_last(), n);
        let (x, xb) = statement_query(ss.last(), n + b.len());
        let all = query_spec(ss, n).0;
        lemma_query_bindings_occur(ss.drop_last(), n);
        lemma_occur_statement(ss.last(), n + b.len());
        if ss.len() == 1 {
            assert(b.len() == 0);
            assert(all.subrange(0, all.len() as int) =~= all);
            lemma_occur_within(xb, x, all, 0);
        } else {
            lemma_sits(Seq::<char>::empty(), t, " "@ + x);
            assert(all =~= Seq::<char>::empty() + t + (" "@ + x));
            lemma_occur_within(b, t, all, 0);
            lemma_sits(t + " "@, x, Seq::<char>::empty());
            assert(all =~= t + " "@ + x + Seq::<char>::empty());
            lemma_occur_within(xb, x, all, (t + " "@).len() as int);
        }
        lemma_occur_append(b, xb, all);
    }
}

} // verus!
