use vstd::prelude::*;
use crate::error::{Error, InternalError};
use crate::interpreter::row_model;
use crate::program::{extend_row, extended, rows_view};
use crate::value::{view_labels, view_node, view_path, Edge, Node, NodeModel, Path, PathModel, Value, ValueModel};

verus! {

broadcast use vstd::std_specs::vec::group_vec_axioms;

/// The row with the value in the column, when there is one.
pub open spec fn set_column(row: Seq<ValueModel>, col: Option<usize>, v: ValueModel) -> Seq<ValueModel> {
    match col {
        Some(i) => row.update(i as int, v),
        None => row,
    }
}

/// The row with the value in the column, when there is one and it holds null.
pub open spec fn set_column_if_unset(row: Seq<ValueModel>, col: Option<usize>, v: ValueModel) -> Seq<ValueModel> {
    match col {
        Some(i) => if row[i as int] is Null { row.update(i as int, v) } else { row },
        None => row,
    }
}

/// The column exists in a row of `len` values, or there is none.
pub open spec fn column_in(col: Option<usize>, len: nat) -> bool {
    col matches Some(i) ==> i < len
}

/// The row that a matched node makes.
pub open spec fn node_row(row: Seq<ValueModel>, n: NodeModel, variable: Option<usize>) -> Seq<ValueModel> {
    set_column_if_unset(row, variable, ValueModel::Node(n))
}

/// The edge of a path, as a value.
pub open spec fn path_edge(p: PathModel) -> ValueModel {
    ValueModel::Edge(NodeModel { key: p.key, labels: p.labels, properties: p.properties })
}

/// The row that a matched edge makes: its left and right ends are the source and the destination,
/// swapped when the edge was matched in reverse; then its edge and its path.
pub open spec fn edge_row(
    row: Seq<ValueModel>,
    p: PathModel,
    reversed: bool,
    left: Option<usize>,
    edge: Option<usize>,
    right: Option<usize>,
    path: Option<usize>,
) -> Seq<ValueModel> {
    let (l, r) = if reversed { (p.destination, p.source) } else { (p.source, p.destination) };
    let r1 = set_column(row, left, ValueModel::Node(l));
    let r2 = set_column(r1, right, ValueModel::Node(r));
    let r3 = set_column(r2, edge, path_edge(p));
    set_column(r3, path, ValueModel::Path(p))
}

/// A copy of a row.
fn copy_row(row: &Vec<Value>) -> (r: Vec<Value>)
    ensures
        row_model(r@) == row_model(row@),
        r@.len() == row@.len(),
{
    let r = extend_row(row, row.len());
    assert(extended(row_model(row@), row@.len() as nat) =~= row_model(row@));
    r
}

/// Sets a column of a row.
fn set_value(row: &mut Vec<Value>, col: Option<usize>, v: Value)
    requires
        column_in(col, old(row)@.len()),
    ensures
        row_model(final(row)@) == set_column(row_model(old(row)@), col, v@),
        final(row)@.len() == old(row)@.len(),
{
    match col {
        Some(i) => {
            row.set(i, v);
            assert(row_model(row@) =~= row_model(old(row)@).update(i as int, v@));
        },
        None => {},
    }
}

/// Sets a column of a row when it holds null.
fn set_value_if_unset(row: &mut Vec<Value>, col: Option<usize>, v: Value)
    requires
        column_in(col, old(row)@.len()),
    ensures
        row_model(final(row)@) == set_column_if_unset(row_model(old(row)@), col, v@),
        final(row)@.len() == old(row)@.len(),
{
    match col {
        Some(i) => {
            if row[i].is_null() {
                row.set(i, v);
                assert(row_model(row@) =~= row_model(old(row)@).update(i as int, v@));
            }
        },
        None => {},
    }
}

/// `MATCH` of a node: one row per node that the store selected, in order, each the row with the
/// node in the node's column where that column holds null.
pub fn match_node_rows(row: &Vec<Value>, nodes: Vec<Node>, variable: Option<usize>) -> (r: Vec<Vec<Value>>)
    requires
        column_in(variable, row@.len()),
    ensures
        rows_view(r@) == nodes@.map_values(|n: Node| node_row(row_model(row@), view_node(n), variable)),
{
    let mut out: Vec<Vec<Value>> = Vec::new();
    let ghost target = nodes@.map_values(|n: Node| node_row(row_model(row@), view_node(n), variable));
    for i in 0..nodes.len()
        invariant
            column_in(variable, row@.len()),
            target == nodes@.map_values(|n: Node| node_row(row_model(row@), view_node(n), variable)),
            rows_view(out@) == target.take(i as int),
    {
        let mut r = copy_row(row);
        set_value_if_unset(&mut r, variable, Value::Node(nodes[i].deep_clone()));
        let ghost before = out@;
        out.push(r);
        proof {
            assert(rows_view(out@) =~= rows_view(before).push(row_model(r@)));
            assert(rows_view(out@) =~= target.take(i + 1));
        }
    }
    assert(target.take(nodes@.len() as int) =~= target);
    out
}

/// The edge of a path.
fn edge_of(p: &Path) -> (r: Value)
    ensures
        r@ == path_edge(view_path(*p)),
{
    let labels = crate::value::clone_strings(&p.labels);
    let properties = p.properties.deep_clone();
    let e = Edge { key: p.key, labels, properties };
    assert(crate::value::view_map(properties) == properties.model());
    assert(crate::value::view_map(p.properties) == p.properties.model());
    assert(crate::value::view_edge(e) == NodeModel { key: p.key, labels: view_labels(p.labels@), properties: p.properties.model() });
    Value::Edge(e)
}

/// `MATCH` of an edge: one row per edge that the store selected, in order. Its left and right
/// ends go to their columns (swapped when the edge was matched in reverse), then the edge and the
/// path.
pub fn match_edge_rows(
    row: &Vec<Value>,
    edges: Vec<(Path, bool)>,
    left: Option<usize>,
    edge: Option<usize>,
    right: Option<usize>,
    path: Option<usize>,
) -> (r: Vec<Vec<Value>>)
    requires
        column_in(left, row@.len()),
        column_in(edge, row@.len()),
        column_in(right, row@.len()),
        column_in(path, row@.len()),
    ensures
        rows_view(r@) == edges@.map_values(|e: (Path, bool)| edge_row(row_model(row@), view_path(e.0), e.1, left, edge, right, path)),
{
    let mut out: Vec<Vec<Value>> = Vec::new();
    let ghost target = edges@.map_values(|e: (Path, bool)| edge_row(row_model(row@), view_path(e.0), e.1, left, edge, right, path));
    for i in 0..edges.len()
        invariant
            column_in(left, row@.len()),
            column_in(edge, row@.len()),
            column_in(right, row@.len()),
            column_in(path, row@.len()),
            target == edges@.map_values(|e: (Path, bool)| edge_row(row_model(row@), view_path(e.0), e.1, left, edge, right, path)),
            rows_view(out@) == target.take(i as int),
    {
        let p = &edges[i].0;
        let reversed = edges[i].1;
        let mut r = copy_row(row);
        let (l, d) = if reversed {
            (p.destination.deep_clone(), p.source.deep_clone())
        } else {
            (p.source.deep_clone(), p.destination.deep_clone())
        };
        set_value(&mut r, left, Value::Node(l));
        set_value(&mut r, right, Value::Node(d));
        set_value(&mut r, edge, edge_of(p));
        set_value(&mut r, path, Value::Path(p.deep_clone()));
        let ghost before = out@;
        out.push(r);
        proof {
            assert(rows_view(out@) =~= rows_view(before).push(row_model(r@)));
            assert(rows_view(out@) =~= target.take(i + 1));
        }
    }
    assert(target.take(edges@.len() as int) =~= target);
    out
}

/// A row cut to its first `n` values, when it has more.
pub open spec fn truncated(row: Seq<ValueModel>, n: nat) -> Seq<ValueModel> {
    if row.len() > n { row.take(n as int) } else { row }
}

/// The end of `MATCH` for one input row: an optional match that matched nothing keeps the input
/// row, extended to the persistent columns; otherwise the matched rows, cut to those columns.
pub fn finish_match(input: &Vec<Value>, rows: Vec<Vec<Value>>, optional: bool, persistent: usize) -> (r: Vec<Vec<Value>>)
    requires
        input@.len() <= persistent,
    ensures
        rows_view(r@) == if rows@.len() == 0 && optional {
            seq![extended(row_model(input@), persistent as nat)]
        } else {
            rows_view(rows@).map_values(|x: Seq<ValueModel>| truncated(x, persistent as nat))
        },
{
    if rows.len() == 0 && optional {
        let mut out: Vec<Vec<Value>> = Vec::new();
        let e = extend_row(input, persistent);
        out.push(e);
        assert(rows_view(out@) =~= seq![row_model(e@)]);
        out
    } else {
        let mut out: Vec<Vec<Value>> = Vec::new();
        let ghost target = rows_view(rows@).map_values(|x: Seq<ValueModel>| truncated(x, persistent as nat));
        for i in 0..rows.len()
            invariant
                target == rows_view(rows@).map_values(|x: Seq<ValueModel>| truncated(x, persistent as nat)),
                rows_view(out@) == target.take(i as int),
        {
            let mut r = copy_row(&rows[i]);
            let ghost r0 = r@;
            r.truncate(persistent);
            proof {
                assert(row_model(r@) =~= truncated(row_model(r0), persistent as nat));
            }
            let ghost before = out@;
            out.push(r);
            proof {
                assert(rows_view(out@) =~= rows_view(before).push(row_model(r@)));
                assert(rows_view(out@) =~= target.take(i + 1));
            }
        }
        assert(target.take(rows@.len() as int) =~= target);
        out
    }
}

/// `SKIP`: the first `q` rows are dropped, or all of them when there are fewer.
pub fn skip_rows(rows: &mut Vec<Vec<Value>>, q: i64)
    requires
        q >= 0,
    ensures
        final(rows)@ == old(rows)@.skip(if q < old(rows)@.len() { q as int } else { old(rows)@.len() as int }),
{
    let k: usize = if (q as u64) < (rows.len() as u64) { q as usize } else { rows.len() };
    let rest = rows.split_off(k);
    *rows = rest;
    proof {
        assert(rows@ =~= old(rows)@.skip(k as int));
    }
}

/// Labels after an update: added at the end, or removed wherever they occur.
pub open spec fn edited_labels(labels: Seq<Seq<char>>, edit: Seq<Seq<char>>, add: bool) -> Seq<Seq<char>> {
    if add { labels + edit } else { labels.filter(|l: Seq<char>| !edit.contains(l)) }
}

/// Whether a label is one of the labels.
fn has_label(labels: &Vec<String>, l: &String) -> (r: bool)
    ensures
        r == view_labels(labels@).contains(l@),
{
    for i in 0..labels.len()
        invariant
            forall|j: int| 0 <= j < i ==> labels@[j]@ != l@,
    {
        if crate::functions::eq_str(&labels[i], l.as_str()) {
            assert(view_labels(labels@)[i as int] == l@);
            return true;
        }
    }
    proof {
        if view_labels(labels@).contains(l@) {
            let j = choose|j: int| 0 <= j < view_labels(labels@).len() && view_labels(labels@)[j] == l@;
            assert(labels@[j]@ == l@);
        }
    }
    false
}

/// `SET` or `REMOVE` of labels: the labels after adding or removing those of `edit`.
pub fn edit_labels(labels: Vec<String>, edit: &Vec<String>, add: bool) -> (r: Vec<String>)
    ensures
        view_labels(r@) == edited_labels(view_labels(labels@), view_labels(edit@), add),
{
    if add {
        let mut out = labels;
        let ghost before = out@;
        let mut extra = crate::value::clone_strings(edit);
        out.append(&mut extra);
        assert(view_labels(out@) =~= view_labels(before) + view_labels(edit@));
        out
    } else {
        let mut out: Vec<String> = Vec::new();
        let ghost all = view_labels(labels@);
        let ghost e = view_labels(edit@);
        for i in 0..labels.len()
            invariant
                all == view_labels(labels@),
                e == view_labels(edit@),
                view_labels(out@) == all.take(i as int).filter(|l: Seq<char>| !e.contains(l)),
        {
            proof {
                assert(all.take(i + 1).drop_last() =~= all.take(i as int));
                reveal(Seq::filter);
            }
            if !has_label(edit, &labels[i]) {
                let ghost before = out@;
                out.push(labels[i].clone());
                assert(view_labels(out@) =~= view_labels(before).push(labels@[i as int]@));
            }
        }
        assert(all.take(labels@.len() as int) =~= all);
        out
    }
}

/// A node or an edge with its labels edited; nothing for null; any other value is an error.
pub fn update_labels_value(v: Value, edit: &Vec<String>, add: bool) -> (r: Result<Option<Value>, Error>)
    ensures
        match v@ {
            ValueModel::Node(n) => r matches Ok(Some(x)) && x@ == ValueModel::Node(NodeModel {
                labels: edited_labels(n.labels, view_labels(edit@), add), ..n }),
            ValueModel::Edge(n) => r matches Ok(Some(x)) && x@ == ValueModel::Edge(NodeModel {
                labels: edited_labels(n.labels, view_labels(edit@), add), ..n }),
            ValueModel::Null => r matches Ok(None),
            _ => r matches Err(Error::Internal(InternalError::ExpectedEdge { .. })),
        },
{
    match v {
        Value::Node(n) => {
            let labels = edit_labels(n.labels, edit, add);
            Ok(Some(Value::Node(Node { key: n.key, labels, properties: n.properties })))
        },
        Value::Edge(e) => {
            let labels = edit_labels(e.labels, edit, add);
            Ok(Some(Value::Edge(Edge { key: e.key, labels, properties: e.properties })))
        },
        Value::Null => Ok(None),
        _ => Err(Error::Internal(InternalError::ExpectedEdge { context: "evaluator/eval_program" })),
    }
}

/// What `CREATE` makes of a row so far and one created value: a node is created and goes to its
/// column where that column holds null; a path is created and its edge goes to its column; any
/// other value is not supported.
pub open spec fn create_step(
    acc: Option<(Seq<ValueModel>, Seq<NodeModel>, Seq<PathModel>)>,
    v: ValueModel,
    var: Option<usize>,
) -> Option<(Seq<ValueModel>, Seq<NodeModel>, Seq<PathModel>)> {
    match acc {
        None => None,
        Some((row, ns, ps)) => match v {
            ValueModel::Node(n) => Some((set_column_if_unset(row, var, ValueModel::Node(n)), ns.push(n), ps)),
            ValueModel::Path(p) => Some((set_column(row, var, path_edge(p)), ns, ps.push(p))),
            _ => None,
        },
    }
}

/// What `CREATE` makes of a row and the values its action computed, with their columns: the row
/// with the values set, the nodes and the paths to create, in order; none when a value is neither
/// a node nor a path.
pub open spec fn create_spec(row: Seq<ValueModel>, vals: Seq<ValueModel>, vars: Seq<Option<usize>>) -> Option<(Seq<ValueModel>, Seq<NodeModel>, Seq<PathModel>)>
    decreases vals.len(),
{
    if vals.len() == 0 {
        Some((row, Seq::empty(), Seq::empty()))
    } else {
        create_step(create_spec(row, vals.drop_last(), vars.drop_last()), vals.last(), vars.last())
    }
}

/// `CREATE` of one action on a row: the created values go to their columns, and the nodes and
/// paths to create are listed in order.
pub fn create_row(row: Vec<Value>, values: Vec<Value>, variables: &Vec<Option<usize>>) -> (r: Result<(Vec<Value>, Vec<Node>, Vec<Path>), Error>)
    requires
        values@.len() == variables@.len(),
        forall|i: int| 0 <= i < variables@.len() ==> column_in(#[trigger] variables@[i], row@.len()),
    ensures
        match create_spec(row_model(row@), crate::value::view_values(values@), variables@) {
            None => r matches Err(Error::Internal(InternalError::Unimplemented(_))),
            Some((rr, ns, ps)) => r matches Ok((x, n, p)) && row_model(x@) == rr
                && n@.map_values(|m: Node| view_node(m)) == ns && p@.map_values(|q: Path| view_path(q)) == ps,
        },
{
    let mut out = row;
    let ghost start = row_model(out@);
    let ghost len = out@.len();
    let mut nodes: Vec<Node> = Vec::new();
    let mut paths: Vec<Path> = Vec::new();
    let ghost vs = crate::value::view_values(values@);
    proof { crate::value::lemma_view_values_index(values@); }
    for i in 0..values.len()
        invariant
            values@.len() == variables@.len(),
            vs == crate::value::view_values(values@),
            start == row_model(row@),
            vs.len() == values@.len(),
            forall|j: int| 0 <= j < values@.len() ==> #[trigger] vs[j] == values@[j]@,
            forall|j: int| 0 <= j < variables@.len() ==> column_in(#[trigger] variables@[j], len),
            out@.len() == len,
            create_spec(start, vs.take(i as int), variables@.take(i as int)) == Some((
                row_model(out@),
                nodes@.map_values(|m: Node| view_node(m)),
                paths@.map_values(|q: Path| view_path(q)),
            )),
    {
        proof {
            assert(vs.take(i + 1).drop_last() =~= vs.take(i as int));
            assert(variables@.take(i + 1).drop_last() =~= variables@.take(i as int));
            assert(vs.take(i + 1).last() == values@[i as int]@);
            assert(variables@.take(i + 1).last() == variables@[i as int]);
        }
        let var = variables[i];
        match &values[i] {
            Value::Node(n) => {
                let ghost nb = nodes@;
                nodes.push(n.deep_clone());
                set_value_if_unset(&mut out, var, Value::Node(n.deep_clone()));
                proof {
                    assert(nodes@.map_values(|m: Node| view_node(m)) =~= nb.map_values(|m: Node| view_node(m)).push(view_node(*n)));
                }
            },
            Value::Path(p) => {
                let ghost pb = paths@;
                paths.push(p.deep_clone());
                set_value(&mut out, var, edge_of(p));
                proof {
                    assert(paths@.map_values(|q: Path| view_path(q)) =~= pb.map_values(|q: Path| view_path(q)).push(view_path(*p)));
                }
            },
            _ => {
                proof { lemma_create_none(start, vs, variables@, i as int + 1); }
                return Err(Error::Internal(InternalError::Unimplemented("executor/eval/create")));
            },
        }
    }
    assert(vs.take(values@.len() as int) =~= vs);
    assert(variables@.take(values@.len() as int) =~= variables@);
    Ok((out, nodes, paths))
}

/// Once a value is not supported, no later value changes that.
proof fn lemma_create_none(row: Seq<ValueModel>, vals: Seq<ValueModel>, vars: Seq<Option<usize>>, j: int)
    requires
        0 <= j <= vals.len(),
        vals.len() == vars.len(),
        create_spec(row, vals.take(j), vars.take(j)) is None,
    ensures
        create_spec(row, vals, vars) is None,
    decreases vals.len() - j,
{
    if j < vals.len() {
        assert(vals.take(j + 1).drop_last() =~= vals.take(j));
        assert(vars.take(j + 1).drop_last() =~= vars.take(j));
        lemma_create_none(row, vals, vars, j + 1);
    } else {
        assert(vals.take(j) =~= vals);
        assert(vars.take(j) =~= vars);
    }
}


/// In a row made by a matched edge: the path column holds the path itself, with its source and
/// destination; the edge column, unless it is the path column, holds the edge with the path's key,
/// labels and properties; the right column, unless the edge or path column is the same, holds
/// the destination (the source when matched in reverse); the left column, unless another of
/// them is the same, holds the source (the destination when matched in reverse); every other
/// column keeps its value.
pub proof fn lemma_edge_row_columns(
    row: Seq<ValueModel>,
    p: PathModel,
    reversed: bool,
    left: Option<usize>,
    edge: Option<usize>,
    right: Option<usize>,
    path: Option<usize>,
    c: usize,
)
    requires
        column_in(left, row.len()),
        column_in(edge, row.len()),
        column_in(right, row.len()),
        column_in(path, row.len()),
        c < row.len(),
    ensures
        edge_row(row, p, reversed, left, edge, right, path).len() == row.len(),
        path == Some(c) ==> edge_row(row, p, reversed, left, edge, right, path)[c as int] == ValueModel::Path(p),
        edge == Some(c) && path != Some(c) ==> edge_row(row, p, reversed, left, edge, right, path)[c as int]
            == ValueModel::Edge(NodeModel { key: p.key, labels: p.labels, properties: p.properties }),
        right == Some(c) && edge != Some(c) && path != Some(c)
            ==> edge_row(row, p, reversed, left, edge, right, path)[c as int] == ValueModel::Node(if reversed { p.source } else { p.destination }),
        left == Some(c) && right != Some(c) && edge != Some(c) && path != Some(c)
            ==> edge_row(row, p, reversed, left, edge, right, path)[c as int] == ValueModel::Node(if reversed { p.destination } else { p.source }),
        left != Some(c) && right != Some(c) && edge != Some(c) && path != Some(c)
            ==> edge_row(row, p, reversed, left, edge, right, path)[c as int] == row[c as int],
{
    let (l, r) = if reversed { (p.destination, p.source) } else { (p.source, p.destination) };
    let r1 = set_column(row, left, ValueModel::Node(l));
    let r2 = set_column(r1, right, ValueModel::Node(r));
    let r3 = set_column(r2, edge, path_edge(p));
    assert(r1.len() == row.len() && r2.len() == row.len() && r3.len() == row.len());
}

}
