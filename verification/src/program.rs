use vstd::prelude::*;
use crate::error::{Error, InternalError, RunTimeError};
use crate::error::{kind_of, ErrorKind};
use crate::instructions::RWExpression;
use crate::interpreter::{row_model, run_safe};
use crate::rows::{eval_expression, expression_outcome};
use crate::query_result::{QueryResult, Table};
use crate::value::{view_values, Value, ValueMap, ValueModel};

verus! {

broadcast use vstd::std_specs::vec::group_vec_axioms;

/// A row extended with nulls to `size` columns.
pub open spec fn extended(row: Seq<ValueModel>, size: nat) -> Seq<ValueModel> {
    row + Seq::new((size - row.len()) as nat, |i: int| ValueModel::Null)
}

/// The row that `UNWIND` makes of a row and one value: the row extended to `total` columns, the
/// value in column `col_id`, and only the first `persistent` columns kept.
pub open spec fn unwound_row(row: Seq<ValueModel>, v: ValueModel, col_id: nat, total: nat, persistent: nat) -> Seq<ValueModel> {
    extended(row, total).update(col_id as int, v).take(persistent as int)
}

/// The rows that `UNWIND` makes of a row and the value of its expression: one per element of a
/// list, none for null, one for any other value.
pub open spec fn unwind_spec(row: Seq<ValueModel>, v: ValueModel, col_id: nat, total: nat, persistent: nat) -> Seq<Seq<ValueModel>> {
    match v {
        ValueModel::List(vs) => Seq::new(vs.len(), |i: int| unwound_row(row, vs[i], col_id, total, persistent)),
        ValueModel::Null => Seq::empty(),
        _ => seq![unwound_row(row, v, col_id, total, persistent)],
    }
}

/// The models of rows.
pub open spec fn rows_view(rows: Seq<Vec<Value>>) -> Seq<Seq<ValueModel>> {
    rows.map_values(|r: Vec<Value>| row_model(r@))
}

/// The row that `UNWIND` makes of a row and one value.
fn unwound(row: &Vec<Value>, v: &Value, col_id: usize, total: usize, persistent: usize) -> (r: Vec<Value>)
    requires
        row@.len() <= total,
        col_id < total,
        persistent <= total,
    ensures
        row_model(r@) == unwound_row(row_model(row@), v@, col_id as nat, total as nat, persistent as nat),
{
    let mut out: Vec<Value> = Vec::new();
    let ghost target = unwound_row(row_model(row@), v@, col_id as nat, total as nat, persistent as nat);
    let ghost ext = extended(row_model(row@), total as nat);
    for i in 0..persistent
        invariant
            row@.len() <= total,
            col_id < total,
            persistent <= total,
            target == unwound_row(row_model(row@), v@, col_id as nat, total as nat, persistent as nat),
            ext == extended(row_model(row@), total as nat),
            row_model(out@) == target.take(i as int),
    {
        let item = if i == col_id {
            v.deep_clone()
        } else if i < row.len() {
            row[i].deep_clone()
        } else {
            Value::Null
        };
        proof {
            assert(ext.len() == total);
            assert(target.len() == persistent);
            assert(target[i as int] == ext.update(col_id as int, v@)[i as int]);
            if i != col_id {
                if i < row@.len() {
                    assert(ext[i as int] == row_model(row@)[i as int]);
                } else {
                    assert(ext[i as int] == ValueModel::Null);
                }
            }
            assert(item@ == target[i as int]);
        }
        let ghost before = out@;
        out.push(item);
        proof {
            assert(row_model(out@) =~= row_model(before).push(item@));
            assert(row_model(out@) =~= target.take(i + 1));
        }
    }
    assert(target.take(persistent as int) =~= target);
    out
}

/// `UNWIND`: the rows made of a row and the value of its expression.
pub fn unwind_value(row: &Vec<Value>, v: Value, col_id: usize, total: usize, persistent: usize) -> (r: Vec<Vec<Value>>)
    requires
        row@.len() <= total,
        col_id < total,
        persistent <= total,
    ensures
        rows_view(r@) == unwind_spec(row_model(row@), v@, col_id as nat, total as nat, persistent as nat),
{
    let ghost vm = v@;
    let mut out: Vec<Vec<Value>> = Vec::new();
    match v {
        Value::Array(a) => {
            proof { crate::value::lemma_view_values_index(a@); }
            for i in 0..a.len()
                invariant
                    row@.len() <= total,
                    col_id < total,
                    persistent <= total,
                    vm == ValueModel::List(view_values(a@)),
                    view_values(a@).len() == a@.len(),
                    forall|j: int| 0 <= j < a@.len() ==> #[trigger] view_values(a@)[j] == a@[j]@,
                    rows_view(out@) == unwind_spec(row_model(row@), vm, col_id as nat, total as nat, persistent as nat).take(i as int),
            {
                let r = unwound(row, &a[i], col_id, total, persistent);
                let ghost before = out@;
                out.push(r);
                proof {
                    assert(rows_view(out@) =~= rows_view(before).push(row_model(r@)));
                    assert(rows_view(out@) =~= unwind_spec(row_model(row@), vm, col_id as nat, total as nat, persistent as nat).take(i + 1));
                }
            }
            proof {
                let sp = unwind_spec(row_model(row@), vm, col_id as nat, total as nat, persistent as nat);
                assert(sp.take(a@.len() as int) =~= sp);
            }
            out
        },
        Value::Null => {
            assert(rows_view(out@) =~= Seq::<Seq<ValueModel>>::empty());
            out
        },
        other => {
            let r = unwound(row, &other, col_id, total, persistent);
            out.push(r);
            assert(rows_view(out@) =~= seq![row_model(r@)]);
            out
        },
    }
}

/// `USE`: the graph must be one of those of the store.
pub fn check_graph_used(graphs: &Vec<String>, name: &String) -> (r: Result<(), Error>)
    ensures
        r is Ok <==> (exists|i: int| 0 <= i < graphs@.len() && graphs@[i]@ == name@),
        r matches Err(Error::RunTime(RunTimeError::UnknownGraph { graph_name })) ==> graph_name@ == name@,
        r is Err ==> r matches Err(Error::RunTime(RunTimeError::UnknownGraph { .. })),
{
    for i in 0..graphs.len()
        invariant
            forall|j: int| 0 <= j < i ==> graphs@[j]@ != name@,
    {
        if crate::functions::eq_str(&graphs[i], name.as_str()) {
            return Ok(());
        }
    }
    Err(Error::RunTime(RunTimeError::UnknownGraph { graph_name: name.clone() }))
}

/// What `DELETE` removes: the keys of the nodes, then those of the edges, that the values hold,
/// in order; null removes nothing.
pub open spec fn node_keys(vs: Seq<ValueModel>) -> Seq<u128>
    decreases vs.len(),
{
    if vs.len() == 0 {
        Seq::empty()
    } else {
        let r = node_keys(vs.drop_last());
        match vs.last() {
            ValueModel::Node(n) => r.push(n.key),
            _ => r,
        }
    }
}

pub open spec fn edge_keys(vs: Seq<ValueModel>) -> Seq<u128>
    decreases vs.len(),
{
    if vs.len() == 0 {
        Seq::empty()
    } else {
        let r = edge_keys(vs.drop_last());
        match vs.last() {
            ValueModel::Edge(e) => r.push(e.key),
            _ => r,
        }
    }
}

/// A value that `DELETE` accepts: a node, an edge or null.
pub open spec fn deletable(v: ValueModel) -> bool {
    v is Node || v is Edge || v is Null
}

/// `DELETE`: the keys of the nodes and of the edges that the values of its expressions hold, in
/// order; any value other than a node, an edge or null is an invalid delete.
pub fn delete_keys(values: &Vec<Value>) -> (r: Result<(Vec<u128>, Vec<u128>), Error>)
    ensures
        r is Ok <==> (forall|i: int| 0 <= i < values@.len() ==> deletable(#[trigger] values@[i]@)),
        r matches Ok((ns, es)) ==> ns@ == node_keys(view_values(values@)) && es@ == edge_keys(view_values(values@)),
        r is Err ==> r matches Err(Error::RunTime(RunTimeError::InvalidDelete)),
{
    let mut ns: Vec<u128> = Vec::new();
    let mut es: Vec<u128> = Vec::new();
    proof { crate::value::lemma_view_values_index(values@); }
    let ghost vs = view_values(values@);
    for i in 0..values.len()
        invariant
            vs == view_values(values@),
            vs.len() == values@.len(),
            forall|j: int| 0 <= j < values@.len() ==> #[trigger] vs[j] == values@[j]@,
            forall|j: int| 0 <= j < i ==> deletable(#[trigger] values@[j]@),
            ns@ == node_keys(vs.take(i as int)),
            es@ == edge_keys(vs.take(i as int)),
    {
        proof {
            assert(vs.take(i + 1).drop_last() =~= vs.take(i as int));
            assert(vs.take(i + 1).last() == values@[i as int]@);
        }
        match &values[i] {
            Value::Node(n) => ns.push(n.key),
            Value::Edge(e) => es.push(e.key),
            Value::Null => {},
            _ => return Err(Error::RunTime(RunTimeError::InvalidDelete)),
        }
    }
    assert(vs.take(values@.len() as int) =~= vs);
    Ok((ns, es))
}

/// The result of `RETURN`: a table with the column names as headers and the rows one after the
/// other.
pub fn return_table(headers: Vec<String>, rows: Vec<Vec<Value>>) -> (r: QueryResult)
    ensures
        r matches QueryResult::Table(t) && t.headers@ == headers@
            && view_values(t.data@) == rows_view(rows@).fold_left(Seq::<ValueModel>::empty(), |acc: Seq<ValueModel>, x: Seq<ValueModel>| acc + x),
{
    let mut data: Vec<Value> = Vec::new();
    let mut rows = rows;
    let ghost all = rows_view(rows@);
    let mut i: usize = 0;
    let n = rows.len();
    proof { crate::value::lemma_view_values_index(data@); }
    while i < n
        invariant
            n == rows@.len(),
            all == rows_view(rows@),
            0 <= i <= n,
            view_values(data@) == all.take(i as int).fold_left(Seq::<ValueModel>::empty(), |acc: Seq<ValueModel>, x: Seq<ValueModel>| acc + x),
        decreases n - i,
    {
        let row = &rows[i];
        let ghost before = data@;
        for j in 0..row.len()
            invariant
                view_values(data@) == view_values(before) + row_model(row@).take(j as int),
        {
            let ghost b2 = data@;
            data.push(row[j].deep_clone());
            proof {
                assert(data@.drop_last() =~= b2);
                assert(row_model(row@).take(j + 1) =~= row_model(row@).take(j as int).push(row@[j as int]@));
                assert(view_values(data@) =~= view_values(b2).push(row@[j as int]@));
            }
        }
        proof {
            assert(row_model(row@).take(row@.len() as int) =~= row_model(row@));
            assert(all.take(i + 1).drop_last() =~= all.take(i as int));
            assert(all.take(i + 1).last() == row_model(row@));
        }
        i = i + 1;
    }
    assert(all.take(n as int) =~= all);
    QueryResult::Table(Table { headers, data })
}

/// Counts that a store gives of its contents.
pub struct Statistics {
    pub nodes_count: usize,
    pub edges_count: usize,
    pub labels_nodes_count: usize,
    pub properties_count: usize,
}

/// `CALL`: only `gqlite.internal.stats` is known; any other procedure is not implemented.
pub fn call_block(name: &String) -> (r: Result<(), Error>)
    ensures
        r is Ok <==> name@ == "gqlite.internal.stats"@,
        r is Err ==> r matches Err(Error::Internal(InternalError::Unimplemented(_))),
{
    if crate::functions::eq_str(name, "gqlite.internal.stats") {
        Ok(())
    } else {
        Err(Error::Internal(InternalError::Unimplemented("call for any other function")))
    }
}

/// The value that `CALL gqlite.internal.stats()` gives: a map of the four counts.
pub fn statistics_value(stats: &Statistics) -> (r: Value)
    requires
        stats.nodes_count <= i64::MAX,
        stats.edges_count <= i64::MAX,
        stats.labels_nodes_count <= i64::MAX,
        stats.properties_count <= i64::MAX,
    ensures
        r@ == ValueModel::Dict(Map::<Seq<char>, ValueModel>::empty()
            .insert("nodes_count"@, ValueModel::Integer(stats.nodes_count as i64))
            .insert("edges_count"@, ValueModel::Integer(stats.edges_count as i64))
            .insert("labels_nodes_count"@, ValueModel::Integer(stats.labels_nodes_count as i64))
            .insert("properties_count"@, ValueModel::Integer(stats.properties_count as i64))),
{
    let mut m = ValueMap::new();
    m.insert(String::from_str("nodes_count"), Value::Integer(stats.nodes_count as i64));
    m.insert(String::from_str("edges_count"), Value::Integer(stats.edges_count as i64));
    m.insert(String::from_str("labels_nodes_count"), Value::Integer(stats.labels_nodes_count as i64));
    m.insert(String::from_str("properties_count"), Value::Integer(stats.properties_count as i64));
    Value::Mapping(m)
}

/// One expression of `RETURN` or `WITH` on a row: its value goes to its column.
#[verifier::opaque]
pub open spec fn rw_step(e: RWExpression, params: Map<Seq<char>, ValueModel>, row: Seq<ValueModel>, next: Result<Seq<ValueModel>, ErrorKind>) -> bool {
    exists|ov: Result<ValueModel, ErrorKind>| #[trigger] expression_outcome(e.instructions@, params, row, ov) && next == match ov {
        Ok(v) => Ok::<Seq<ValueModel>, ErrorKind>(row.update(e.col_id as int, v)),
        Err(k) => Err(k),
    }
}

/// A trace of the expressions computed in order on a row; an error is carried to the end.
#[verifier::opaque]
pub open spec fn rw_trace(es: Seq<RWExpression>, params: Map<Seq<char>, ValueModel>, start: Seq<ValueModel>, trace: Seq<Result<Seq<ValueModel>, ErrorKind>>) -> bool {
    &&& 0 < trace.len() <= es.len() + 1
    &&& trace[0] == Ok::<Seq<ValueModel>, ErrorKind>(start)
    &&& forall|j: int| 0 <= j < trace.len() - 1 ==> match #[trigger] trace[j] {
        Err(k) => trace[j + 1] == Err::<Seq<ValueModel>, ErrorKind>(k),
        Ok(r) => rw_step(es[j], params, r, trace[j + 1]),
    }
}

/// The outcomes of the expressions computed in order on a row: the row with every value in its
/// column, or the first error.
pub open spec fn rw_outcome(es: Seq<RWExpression>, params: Map<Seq<char>, ValueModel>, start: Seq<ValueModel>, out: Result<Seq<ValueModel>, ErrorKind>) -> bool {
    exists|trace: Seq<Result<Seq<ValueModel>, ErrorKind>>| #[trigger] rw_trace(es, params, start, trace)
        && trace.len() == es.len() + 1 && trace.last() == out
}

/// Each expression can be computed safely on every row that the expressions before it may leave,
/// and its column exists.
#[verifier::opaque]
pub open spec fn rw_safe(es: Seq<RWExpression>, params: Map<Seq<char>, ValueModel>, start: Seq<ValueModel>) -> bool {
    forall|trace: Seq<Result<Seq<ValueModel>, ErrorKind>>| #[trigger] rw_trace(es, params, start, trace)
        && trace.len() <= es.len() && trace.last() is Ok
        ==> run_safe(es[trace.len() - 1].instructions@, Seq::empty(), params, trace.last()->Ok_0)
            && es[trace.len() - 1].col_id < trace.last()->Ok_0.len()
}

/// A row extended with nulls.
pub fn extend_row(row: &Vec<Value>, total: usize) -> (r: Vec<Value>)
    requires
        row@.len() <= total,
    ensures
        row_model(r@) == extended(row_model(row@), total as nat),
{
    let mut out: Vec<Value> = Vec::new();
    let ghost ext = extended(row_model(row@), total as nat);
    for i in 0..total
        invariant
            row@.len() <= total,
            ext == extended(row_model(row@), total as nat),
            row_model(out@) == ext.take(i as int),
    {
        let item = if i < row.len() { row[i].deep_clone() } else { Value::Null };
        proof {
            if i < row@.len() {
                assert(ext[i as int] == row_model(row@)[i as int]);
            } else {
                assert(ext[i as int] == ValueModel::Null);
            }
        }
        let ghost before = out@;
        out.push(item);
        proof {
            assert(row_model(out@) =~= row_model(before).push(item@));
            assert(row_model(out@) =~= ext.take(i + 1));
        }
    }
    assert(ext.take(total as int) =~= ext);
    out
}

/// Computes the expressions of `RETURN` or `WITH` on a row, in order, each in its column, on the
/// row extended to `total` columns; the first error stops the computation.
pub fn compute_row(row: &Vec<Value>, exprs: &Vec<RWExpression>, parameters: &ValueMap, total: usize) -> (r: Result<Vec<Value>, Error>)
    requires
        row@.len() <= total,
        rw_safe(exprs@, parameters.model(), extended(row_model(row@), total as nat)),
    ensures
        rw_outcome(exprs@, parameters.model(), extended(row_model(row@), total as nat), match r {
            Ok(v) => Ok::<Seq<ValueModel>, ErrorKind>(row_model(v@)),
            Err(e) => Err(kind_of(e)),
        }),
{
    let ghost es = exprs@;
    let ghost p = parameters.model();
    let mut out = extend_row(row, total);
    let ghost start = row_model(out@);
    let ghost mut tr: Seq<Result<Seq<ValueModel>, ErrorKind>> = seq![Ok(start)];
    proof { reveal(rw_trace); }
    for i in 0..exprs.len()
        invariant
            es == exprs@,
            p == parameters.model(),
            start == extended(row_model(row@), total as nat),
            rw_safe(es, p, start),
            rw_trace(es, p, start, tr),
            tr.len() == i + 1,
            tr.last() == Ok::<Seq<ValueModel>, ErrorKind>(row_model(out@)),
    {
        let ghost cur = row_model(out@);
        proof {
            lemma_rw_safe_at(es, p, start, tr);
            assert(out@.len() == cur.len());
        }
        let res = eval_expression(&out, &exprs[i].instructions, parameters);
        match res {
            Ok(v) => {
                let ghost vm = v@;
                let col = exprs[i].col_id;
                proof { lemma_rw_step_ok(es[i as int], p, cur, vm); }
                out.set(col, v);
                proof {
                    assert(row_model(out@) =~= cur.update(col as int, vm));
                    lemma_rw_trace_extend(es, p, start, tr, Ok(row_model(out@)));
                    tr = tr.push(Ok(row_model(out@)));
                }
            },
            Err(e) => {
                proof {
                    let k = kind_of(e);
                    lemma_rw_step_err(es[i as int], p, cur, k);
                    lemma_rw_trace_extend(es, p, start, tr, Err(k));
                    lemma_rw_trace_err(es, p, start, tr.push(Err::<Seq<ValueModel>, ErrorKind>(k)), k);
                }
                return Err(e);
            },
        }
    }
    proof {
        assert(rw_trace(es, p, start, tr));
    }
    Ok(out)
}

/// What safety gives for the next expression of a trace.
proof fn lemma_rw_safe_at(es: Seq<RWExpression>, p: Map<Seq<char>, ValueModel>, start: Seq<ValueModel>, tr: Seq<Result<Seq<ValueModel>, ErrorKind>>)
    requires
        rw_safe(es, p, start),
        rw_trace(es, p, start, tr),
        tr.len() <= es.len(),
        tr.last() is Ok,
    ensures
        run_safe(es[tr.len() - 1].instructions@, Seq::empty(), p, tr.last()->Ok_0),
        es[tr.len() - 1].col_id < tr.last()->Ok_0.len(),
{
    reveal(rw_safe);
}

proof fn lemma_rw_step_ok(e: RWExpression, p: Map<Seq<char>, ValueModel>, row: Seq<ValueModel>, v: ValueModel)
    requires
        expression_outcome(e.instructions@, p, row, Ok(v)),
    ensures
        rw_step(e, p, row, Ok(row.update(e.col_id as int, v))),
{
    reveal(rw_step);
    assert(expression_outcome(e.instructions@, p, row, Ok::<ValueModel, ErrorKind>(v)));
}

proof fn lemma_rw_step_err(e: RWExpression, p: Map<Seq<char>, ValueModel>, row: Seq<ValueModel>, k: ErrorKind)
    requires
        expression_outcome(e.instructions@, p, row, Err(k)),
    ensures
        rw_step(e, p, row, Err(k)),
{
    reveal(rw_step);
    assert(expression_outcome(e.instructions@, p, row, Err::<ValueModel, ErrorKind>(k)));
}

/// A trace extended by one step.
proof fn lemma_rw_trace_extend(
    es: Seq<RWExpression>,
    p: Map<Seq<char>, ValueModel>,
    start: Seq<ValueModel>,
    tr: Seq<Result<Seq<ValueModel>, ErrorKind>>,
    next: Result<Seq<ValueModel>, ErrorKind>,
)
    requires
        rw_trace(es, p, start, tr),
        tr.len() <= es.len(),
        match tr.last() {
            Err(k) => next == Err::<Seq<ValueModel>, ErrorKind>(k),
            Ok(r) => rw_step(es[tr.len() - 1], p, r, next),
        },
    ensures
        rw_trace(es, p, start, tr.push(next)),
{
    reveal(rw_trace);
    let t2 = tr.push(next);
    assert forall|j: int| 0 <= j < t2.len() - 1 implies match #[trigger] t2[j] {
        Err(k) => t2[j + 1] == Err::<Seq<ValueModel>, ErrorKind>(k),
        Ok(r) => rw_step(es[j], p, r, t2[j + 1]),
    } by {
        if j < tr.len() - 1 {
            assert(t2[j] == tr[j]);
            assert(t2[j + 1] == tr[j + 1]);
        }
    }
}

/// After an error, the trace carries it to the end.
proof fn lemma_rw_trace_err(
    es: Seq<RWExpression>,
    p: Map<Seq<char>, ValueModel>,
    start: Seq<ValueModel>,
    tr: Seq<Result<Seq<ValueModel>, ErrorKind>>,
    k: ErrorKind,
)
    requires
        rw_trace(es, p, start, tr),
        tr.last() == Err::<Seq<ValueModel>, ErrorKind>(k),
    ensures
        rw_outcome(es, p, start, Err(k)),
    decreases es.len() + 1 - tr.len(),
{
    reveal(rw_trace);
    if tr.len() == es.len() + 1 {
        assert(rw_trace(es, p, start, tr));
    } else {
        lemma_rw_trace_extend(es, p, start, tr, Err(k));
        lemma_rw_trace_err(es, p, start, tr.push(Err(k)), k);
    }
}


/// Every edge among the values that `DELETE` is given has its key among the edge keys removed,
/// and every edge key removed is that of an edge among the values.
pub proof fn lemma_deleted_edges(vs: Seq<ValueModel>)
    ensures
        forall|i: int| 0 <= i < vs.len() && #[trigger] vs[i] is Edge ==> edge_keys(vs).contains(vs[i]->Edge_0.key),
        forall|k: u128| #[trigger] edge_keys(vs).contains(k) ==> exists|i: int| 0 <= i < vs.len() && vs[i] is Edge && vs[i]->Edge_0.key == k,
        forall|k: u128| #[trigger] node_keys(vs).contains(k) ==> exists|i: int| 0 <= i < vs.len() && vs[i] is Node && vs[i]->Node_0.key == k,
    decreases vs.len(),
{
    if vs.len() > 0 {
        let w = vs.drop_last();
        lemma_deleted_edges(w);
        assert forall|i: int| 0 <= i < vs.len() && #[trigger] vs[i] is Edge implies edge_keys(vs).contains(vs[i]->Edge_0.key) by {
            if i < vs.len() - 1 {
                assert(w[i] == vs[i]);
                let j = choose|j: int| 0 <= j < edge_keys(w).len() && edge_keys(w)[j] == w[i]->Edge_0.key;
                assert(edge_keys(vs)[j] == edge_keys(w)[j]);
            } else {
                assert(edge_keys(vs)[edge_keys(vs).len() - 1] == vs[i]->Edge_0.key);
            }
        }
        assert forall|k: u128| #[trigger] edge_keys(vs).contains(k) implies exists|i: int| 0 <= i < vs.len() && vs[i] is Edge && vs[i]->Edge_0.key == k by {
            let j = choose|j: int| 0 <= j < edge_keys(vs).len() && edge_keys(vs)[j] == k;
            if j < edge_keys(w).len() {
                assert(edge_keys(w).contains(k));
                let i = choose|i: int| 0 <= i < w.len() && w[i] is Edge && w[i]->Edge_0.key == k;
                assert(vs[i] == w[i]);
            } else {
                assert(vs[vs.len() - 1] is Edge);
            }
        }
        assert forall|k: u128| #[trigger] node_keys(vs).contains(k) implies exists|i: int| 0 <= i < vs.len() && vs[i] is Node && vs[i]->Node_0.key == k by {
            let j = choose|j: int| 0 <= j < node_keys(vs).len() && node_keys(vs)[j] == k;
            if j < node_keys(w).len() {
                assert(node_keys(w).contains(k));
                let i = choose|i: int| 0 <= i < w.len() && w[i] is Node && w[i]->Node_0.key == k;
                assert(vs[i] == w[i]);
            } else {
                assert(vs[vs.len() - 1] is Node);
            }
        }
    }
}

/// Every node among the values that `DELETE` is given has its key among the node keys removed.
pub proof fn lemma_deleted_nodes(vs: Seq<ValueModel>)
    ensures
        forall|i: int| 0 <= i < vs.len() && #[trigger] vs[i] is Node ==> node_keys(vs).contains(vs[i]->Node_0.key),
    decreases vs.len(),
{
    if vs.len() > 0 {
        let w = vs.drop_last();
        lemma_deleted_nodes(w);
        assert forall|i: int| 0 <= i < vs.len() && #[trigger] vs[i] is Node implies node_keys(vs).contains(vs[i]->Node_0.key) by {
            if i < vs.len() - 1 {
                assert(w[i] == vs[i]);
                let j = choose|j: int| 0 <= j < node_keys(w).len() && node_keys(w)[j] == w[i]->Node_0.key;
                assert(node_keys(vs)[j] == node_keys(w)[j]);
            } else {
                assert(node_keys(vs)[node_keys(vs).len() - 1] == vs[i]->Node_0.key);
            }
        }
    }
}

/// Values that are all edges give, as the edge keys that `DELETE` removes, their keys in order,
/// and no node key.
pub proof fn lemma_deleted_edges_in_order(vs: Seq<ValueModel>)
    requires
        forall|i: int| 0 <= i < vs.len() ==> #[trigger] vs[i] is Edge,
    ensures
        edge_keys(vs) == vs.map_values(|v: ValueModel| v->Edge_0.key),
        node_keys(vs) == Seq::<u128>::empty(),
    decreases vs.len(),
{
    if vs.len() > 0 {
        let w = vs.drop_last();
        assert(forall|i: int| 0 <= i < w.len() ==> w[i] == vs[i]);
        lemma_deleted_edges_in_order(w);
        assert(vs[vs.len() - 1] is Edge);
        assert(vs.map_values(|v: ValueModel| v->Edge_0.key) =~= w.map_values(|v: ValueModel| v->Edge_0.key).push(vs.last()->Edge_0.key));
    } else {
        assert(vs.map_values(|v: ValueModel| v->Edge_0.key) =~= Seq::<u128>::empty());
    }
}

}
