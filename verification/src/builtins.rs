use vstd::prelude::*;
use crate::error::{kind_of, result_matches, Error, ErrorKind, RunTimeError};
use crate::text::{chars_of, decimal, digit_char, i64_to_decimal, signed_decimal};
use crate::value::{
    clone_strings, lemma_view_values_index, view_edge, view_labels, view_map, view_path, view_node, view_values, Edge, NodeModel, Value,
    PathModel, ValueMap, ValueModel,
};

verus! {

broadcast use vstd::std_specs::vec::group_vec_axioms;

/// Text of a value in error messages: its variant and its content, for a list its elements
/// joined with `, `; maps are named only, nodes, edges and paths by their key.
pub open spec fn value_text_spec(v: ValueModel) -> Seq<char>
    decreases v,
{
    match v {
        ValueModel::Null => "Null"@,
        ValueModel::Key(k) => "Key("@ + decimal(k as nat) + ")"@,
        ValueModel::Boolean(b) => if b { "Boolean(true)"@ } else { "Boolean(false)"@ },
        ValueModel::Integer(i) => "Integer("@ + signed_decimal(i as int) + ")"@,
        ValueModel::Text(t) => "String(\""@ + t + "\")"@,
        ValueModel::List(vs) => "Array(["@ + list_text_spec(vs) + "])"@,
        ValueModel::Dict(_) => "Map"@,
        ValueModel::Node(n) => "Node("@ + decimal(n.key as nat) + ")"@,
        ValueModel::Edge(n) => "Edge("@ + decimal(n.key as nat) + ")"@,
        ValueModel::Path(p) => "Path("@ + decimal(p.key as nat) + ")"@,
    }
}

/// Texts of the values of a list, joined with `, `.
pub open spec fn list_text_spec(vs: Seq<ValueModel>) -> Seq<char>
    decreases vs,
{
    if vs.len() == 0 {
        Seq::empty()
    } else if vs.len() == 1 {
        value_text_spec(vs[0])
    } else {
        list_text_spec(vs.subrange(0, vs.len() - 1)) + ", "@ + value_text_spec(vs[vs.len() - 1])
    }
}

fn append_str(s: &mut String, t: &str)
    ensures
        final(s)@ == old(s)@ + t@,
{
    s.append(t);
}

/// Writes the text of a value in error messages.
fn write_value_text(v: &Value, out: &mut String)
    ensures
        final(out)@ == old(out)@ + value_text_spec(v@),
    decreases v,
{
    match v {
        Value::Null => append_str(out, "Null"),
        Value::Key(k) => {
            append_str(out, "Key(");
            crate::text::push_decimal(out, *k);
            append_str(out, ")");
        },
        Value::Boolean(b) => if *b { append_str(out, "Boolean(true)") } else { append_str(out, "Boolean(false)") },
        Value::Integer(i) => {
            append_str(out, "Integer(");
            let t = i64_to_decimal(*i);
            append_str(out, t.as_str());
            append_str(out, ")");
        },
        Value::String(t) => {
            append_str(out, "String(\"");
            append_str(out, t.as_str());
            append_str(out, "\")");
        },
        Value::Array(a) => {
            append_str(out, "Array([");
            let ghost start = out@;
            proof { lemma_view_values_index(a@); }
            for i in 0..a.len()
                invariant
                    *v == Value::Array(*a),
                    view_values(a@).len() == a@.len(),
                    forall|j: int| 0 <= j < a@.len() ==> #[trigger] view_values(a@)[j] == a@[j]@,
                    out@ == start + list_text_spec(view_values(a@).subrange(0, i as int)),
            {
                proof {
                    assert(decreases_to!(*v => (*v)->Array_0));
                    assert(decreases_to!(*a => a@));
                    assert(decreases_to!(a@ => a@[i as int]));
                }
                if i > 0 {
                    append_str(out, ", ");
                }
                write_value_text(&a[i], out);
                proof {
                    let vs = view_values(a@);
                    let pre = vs.subrange(0, i + 1);
                    assert(pre.subrange(0, i as int) =~= vs.subrange(0, i as int));
                    assert(pre[i as int] == a@[i as int]@);
                    if i == 0 {
                        assert(out@ =~= start + list_text_spec(pre));
                    } else {
                        assert(out@ =~= start + list_text_spec(pre));
                    }
                }
            }
            assert(view_values(a@).subrange(0, a@.len() as int) =~= view_values(a@));
            append_str(out, "])");
        },
        Value::Mapping(_) => append_str(out, "Map"),
        Value::Node(n) => {
            append_str(out, "Node(");
            crate::text::push_decimal(out, n.key);
            append_str(out, ")");
        },
        Value::Edge(e) => {
            append_str(out, "Edge(");
            crate::text::push_decimal(out, e.key);
            append_str(out, ")");
        },
        Value::Path(p) => {
            append_str(out, "Path(");
            crate::text::push_decimal(out, p.key);
            append_str(out, ")");
        },
    }
    proof { assert(final(out)@ =~= old(out)@ + value_text_spec(v@)); }
}

/// Text of a value in error messages.
pub fn value_text(v: &Value) -> (r: String)
    ensures
        r@ == value_text_spec(v@),
{
    let mut out = String::new();
    write_value_text(v, &mut out);
    assert(out@ =~= value_text_spec(v@));
    out
}

/// The list holds each key of the map once, as a string, the keys in increasing order (that of
/// a sorted map).
pub open spec fn is_key_list(l: Seq<ValueModel>, m: Map<Seq<char>, ValueModel>) -> bool {
    &&& l.no_duplicates()
    &&& forall|x: ValueModel| l.contains(x) <==> (exists|k: Seq<char>| m.dom().contains(k) && x == ValueModel::Text(k))
    &&& forall|i: int, j: int| 0 <= i < j < l.len() ==> (#[trigger] l[i] matches ValueModel::Text(a)
        && #[trigger] l[j] matches ValueModel::Text(b) && crate::text_order::text_less(a, b))
}

/// Strings of a list of labels.
pub open spec fn texts(s: Seq<Seq<char>>) -> Seq<ValueModel> {
    s.map_values(|l: Seq<char>| ValueModel::Text(l))
}

/// Integers from `min` to `max`, both included.
pub open spec fn integer_range(min: int, max: int) -> Seq<ValueModel>
    decreases max - min + 1,
{
    if max < min {
        Seq::empty()
    } else {
        integer_range(min, max - 1).push(ValueModel::Integer(max as i64))
    }
}

/// Wrong number of arguments for a call.
pub open spec fn arity_error() -> ErrorKind {
    ErrorKind::RunTimeInvalidNumberOfArguments
}

/// Argument of the wrong type.
pub open spec fn argument_error() -> ErrorKind {
    ErrorKind::RunTimeInvalidArgument
}

/// `head(list)`: first element of a list, null for an empty list.
pub open spec fn head_spec(args: Seq<ValueModel>) -> Result<ValueModel, ErrorKind> {
    if args.len() != 1 {
        Err(arity_error())
    } else {
        match args[0] {
            ValueModel::List(a) => Ok(if a.len() > 0 { a[0] } else { ValueModel::Null }),
            _ => Err(argument_error()),
        }
    }
}

/// `range(min, max)`: the integers from `min` to `max`.
pub open spec fn range_spec(args: Seq<ValueModel>) -> Result<ValueModel, ErrorKind> {
    if args.len() != 2 {
        Err(arity_error())
    } else if args[0] is Null && args[1] is Null {
        Ok(ValueModel::Null)
    } else {
        match (args[0], args[1]) {
            (ValueModel::Integer(a), ValueModel::Integer(b)) => Ok(ValueModel::List(integer_range(a as int, b as int))),
            _ => Err(argument_error()),
        }
    }
}

/// `size(x)`: number of elements of a list or map, 1 for a path, null for null. Arguments after
/// the first are ignored.
pub open spec fn size_spec(args: Seq<ValueModel>) -> Result<ValueModel, ErrorKind> {
    if args.len() == 0 {
        Err(arity_error())
    } else {
        match args[0] {
            ValueModel::Null => Ok(ValueModel::Null),
            ValueModel::List(a) => Ok(ValueModel::Integer(a.len() as i64)),
            ValueModel::Dict(m) => Ok(ValueModel::Integer(m.dom().len() as i64)),
            ValueModel::Path(_) => Ok(ValueModel::Integer(1)),
            _ => Err(argument_error()),
        }
    }
}

/// `length(x)`: number of elements of a list or map, 1 for a path. Arguments after the first
/// are ignored.
pub open spec fn length_spec(args: Seq<ValueModel>) -> Result<ValueModel, ErrorKind> {
    if args.len() == 0 {
        Err(arity_error())
    } else {
        match args[0] {
            ValueModel::List(a) => Ok(ValueModel::Integer(a.len() as i64)),
            ValueModel::Dict(m) => Ok(ValueModel::Integer(m.dom().len() as i64)),
            ValueModel::Path(_) => Ok(ValueModel::Integer(1)),
            _ => Err(argument_error()),
        }
    }
}

/// `type(edge)`: first label of an edge.
pub open spec fn type_spec(args: Seq<ValueModel>) -> Result<ValueModel, ErrorKind> {
    if args.len() != 1 {
        Err(arity_error())
    } else {
        match args[0] {
            ValueModel::Null => Ok(ValueModel::Null),
            ValueModel::Edge(e) => if e.labels.len() > 0 { Ok(ValueModel::Text(e.labels[0])) } else { Err(ErrorKind::MissingEdgeLabel) },
            _ => Err(argument_error()),
        }
    }
}

/// `labels(node)`: labels of a node.
pub open spec fn labels_spec(args: Seq<ValueModel>) -> Result<ValueModel, ErrorKind> {
    if args.len() != 1 {
        Err(arity_error())
    } else {
        match args[0] {
            ValueModel::Null => Ok(ValueModel::Null),
            ValueModel::Node(n) => Ok(ValueModel::List(texts(n.labels))),
            _ => Err(argument_error()),
        }
    }
}

/// `nodes(path)`: source and destination of a path.
pub open spec fn nodes_spec(args: Seq<ValueModel>) -> Result<ValueModel, ErrorKind> {
    if args.len() != 1 {
        Err(arity_error())
    } else {
        match args[0] {
            ValueModel::Null => Ok(ValueModel::Null),
            ValueModel::Path(p) => Ok(ValueModel::List(seq![ValueModel::Node(p.source), ValueModel::Node(p.destination)])),
            _ => Err(argument_error()),
        }
    }
}

/// `edges(path)`: the edge of a path.
pub open spec fn edges_spec(args: Seq<ValueModel>) -> Result<ValueModel, ErrorKind> {
    if args.len() != 1 {
        Err(arity_error())
    } else {
        match args[0] {
            ValueModel::Null => Ok(ValueModel::Null),
            ValueModel::Path(p) => Ok(ValueModel::List(seq![ValueModel::Edge(NodeModel { key: p.key, labels: p.labels, properties: p.properties })])),
            _ => Err(argument_error()),
        }
    }
}

/// `coalesce(...)`: first argument that is not null, or null.
pub open spec fn coalesce_spec(args: Seq<ValueModel>) -> ValueModel
    decreases args.len(),
{
    if args.len() == 0 {
        ValueModel::Null
    } else if args[0] is Null {
        coalesce_spec(args.drop_first())
    } else {
        args[0]
    }
}

/// `properties(x)`: properties of a node or edge, or the map itself.
pub open spec fn properties_spec(args: Seq<ValueModel>) -> Result<ValueModel, ErrorKind> {
    if args.len() != 1 {
        Err(arity_error())
    } else {
        match args[0] {
            ValueModel::Null => Ok(ValueModel::Null),
            ValueModel::Node(n) => Ok(ValueModel::Dict(n.properties)),
            ValueModel::Edge(e) => Ok(ValueModel::Dict(e.properties)),
            ValueModel::Dict(m) => Ok(ValueModel::Dict(m)),
            _ => Err(argument_error()),
        }
    }
}

/// `toString(x)`: text of a boolean, an integer or a string.
pub open spec fn to_string_spec(args: Seq<ValueModel>) -> Result<ValueModel, ErrorKind> {
    if args.len() != 1 {
        Err(arity_error())
    } else {
        match args[0] {
            ValueModel::Null => Ok(ValueModel::Null),
            ValueModel::Boolean(b) => Ok(ValueModel::Text(if b { "true"@ } else { "false"@ })),
            ValueModel::Integer(i) => Ok(ValueModel::Text(signed_decimal(i as int))),
            ValueModel::Text(s) => Ok(ValueModel::Text(s)),
            _ => Err(argument_error()),
        }
    }
}

/// `has_label(edge, label)`: whether the edge carries the label.
pub open spec fn has_label_spec(args: Seq<ValueModel>) -> Result<ValueModel, ErrorKind> {
    if args.len() != 2 {
        Err(arity_error())
    } else if args[0] is Null && args[1] is Null {
        Ok(ValueModel::Null)
    } else {
        match (args[0], args[1]) {
            (ValueModel::Edge(e), ValueModel::Text(l)) => Ok(ValueModel::Boolean(e.labels.contains(l))),
            _ => Err(argument_error()),
        }
    }
}

/// Labels of a node or an edge.
pub open spec fn labels_of(v: ValueModel) -> Option<Seq<Seq<char>>> {
    match v {
        ValueModel::Node(n) => Some(n.labels),
        ValueModel::Edge(e) => Some(e.labels),
        _ => None,
    }
}

/// Checks the labels given from position `i` on.
pub open spec fn has_labels_from(labels: Seq<Seq<char>>, args: Seq<ValueModel>, i: int) -> Result<ValueModel, ErrorKind>
    decreases args.len() - i,
{
    if i >= args.len() {
        Ok(ValueModel::Boolean(true))
    } else {
        match args[i] {
            ValueModel::Text(l) => if !labels.contains(l) { Ok(ValueModel::Boolean(false)) } else { has_labels_from(labels, args, i + 1) },
            _ => Err(argument_error()),
        }
    }
}

/// `has_labels(x, label, ...)`: whether the node or edge carries all the labels.
pub open spec fn has_labels_spec(args: Seq<ValueModel>) -> Result<ValueModel, ErrorKind> {
    if args.len() < 2 {
        Err(arity_error())
    } else if args[0] is Null {
        Ok(ValueModel::Null)
    } else {
        match labels_of(args[0]) {
            Some(labels) => has_labels_from(labels, args, 1),
            None => Err(argument_error()),
        }
    }
}

/// Value of a sequence of decimal digits.
pub open spec fn digits_value(s: Seq<char>) -> int
    decreases s.len(),
{
    if s.len() == 0 {
        0
    } else {
        digits_value(s.drop_last()) * 10 + (s.last() as int - '0' as int)
    }
}

/// Whether every character is an ASCII digit.
pub open spec fn all_digits(s: Seq<char>) -> bool {
    forall|i: int| 0 <= i < s.len() ==> '0' <= #[trigger] s[i] && s[i] <= '9'
}

/// Integer written as an optional sign followed by decimal digits, when it fits in 64 bits.
pub open spec fn parse_integer_spec(s: Seq<char>) -> Option<i64> {
    let negative = s.len() > 0 && s[0] == '-';
    let body = if s.len() > 0 && (s[0] == '-' || s[0] == '+') { s.drop_first() } else { s };
    let v = if negative { -digits_value(body) } else { digits_value(body) };
    if body.len() == 0 || !all_digits(body) || v < i64::MIN || v > i64::MAX {
        None
    } else {
        Some(v as i64)
    }
}

/// `toInteger(x)`: an integer, or a string parsed as an integer.
pub open spec fn to_integer_spec(args: Seq<ValueModel>) -> Result<ValueModel, ErrorKind> {
    if args.len() != 1 {
        Err(arity_error())
    } else {
        match args[0] {
            ValueModel::Null => Ok(ValueModel::Null),
            ValueModel::Integer(i) => Ok(ValueModel::Integer(i)),
            ValueModel::Text(s) => match parse_integer_spec(s) {
                Some(i) => Ok(ValueModel::Integer(i)),
                None => Err(argument_error()),
            },
            _ => Err(argument_error()),
        }
    }
}


/// The executable result is the value that the model gives, or an error of the kind it gives.
pub open spec fn value_result_matches(r: Result<Value, Error>, s: Result<ValueModel, ErrorKind>) -> bool {
    match s {
        Ok(v) => r matches Ok(x) && x@ == v,
        Err(k) => r matches Err(e) && kind_of(e) == k,
    }
}

/// Model of an executable result: the model of the value, or the kind of the error.
pub open spec fn result_model(r: Result<Value, Error>) -> Result<ValueModel, ErrorKind> {
    match r {
        Ok(v) => Ok(v@),
        Err(e) => Err(kind_of(e)),
    }
}

/// `keys(x)`: a list of the property names of a map, node or edge, each once, in increasing order;
/// null for null.
pub open spec fn keys_result(args: Seq<ValueModel>, r: Result<ValueModel, ErrorKind>) -> bool {
    if args.len() != 1 {
        r == Err::<ValueModel, ErrorKind>(arity_error())
    } else {
        match args[0] {
            ValueModel::Null => r == Ok::<ValueModel, ErrorKind>(ValueModel::Null),
            ValueModel::Dict(m) => (r matches Ok(ValueModel::List(l)) && is_key_list(l, m)),
            ValueModel::Node(n) => (r matches Ok(ValueModel::List(l)) && is_key_list(l, n.properties)),
            ValueModel::Edge(n) => (r matches Ok(ValueModel::List(l)) && is_key_list(l, n.properties)),
            _ => r == Err::<ValueModel, ErrorKind>(argument_error()),
        }
    }
}

fn invalid_argument(function_name: &'static str, index: usize, expected_type: &'static str, v: &Value) -> (r: Error)
    ensures
        kind_of(r) == argument_error(),
{
    Error::RunTime(RunTimeError::InvalidArgument { function_name, index, expected_type, value: value_text(v) })
}

fn invalid_arity(function_name: &'static str, got: usize, expected: usize) -> (r: Error)
    ensures
        kind_of(r) == arity_error(),
{
    Error::RunTime(RunTimeError::InvalidNumberOfArguments { function_name, got, expected })
}

/// Strings of a list of labels, as values.
fn label_values(labels: &Vec<String>) -> (r: Vec<Value>)
    ensures
        view_values(r@) == texts(view_labels(labels@)),
{
    let mut out: Vec<Value> = Vec::new();
    for i in 0..labels.len()
        invariant
            out@.len() == i,
            forall|j: int| 0 <= j < i ==> (#[trigger] out@[j])@ == ValueModel::Text(labels@[j]@),
    {
        out.push(Value::String(labels[i].clone()));
    }
    proof { lemma_view_values_index(out@); }
    assert(view_values(out@) =~= texts(view_labels(labels@)));
    out
}

/// The keys of a map, as a list of strings, each once.
fn key_values(keys: Vec<String>) -> (r: Vec<Value>)
    requires
        view_labels(keys@).no_duplicates(),
    ensures
        view_values(r@) == texts(view_labels(keys@)),
        texts(view_labels(keys@)).no_duplicates(),
        forall|x: ValueModel| texts(view_labels(keys@)).contains(x)
            <==> (exists|k: Seq<char>| view_labels(keys@).to_set().contains(k) && x == ValueModel::Text(k)),
{
    let r = label_values(&keys);
    let ghost l = view_labels(keys@);
    assert forall|a: int, b: int| 0 <= a < b < texts(l).len() implies texts(l)[a] != texts(l)[b] by {
        assert(l[a] != l[b]);
    }
    assert forall|x: ValueModel| texts(l).contains(x) <==> (exists|k: Seq<char>| l.to_set().contains(k) && x == ValueModel::Text(k)) by {
        if texts(l).contains(x) {
            let p = choose|p: int| 0 <= p < texts(l).len() && texts(l)[p] == x;
            assert(l.to_set().contains(l[p]));
        }
        if exists|k: Seq<char>| l.to_set().contains(k) && x == ValueModel::Text(k) {
            let k = choose|k: Seq<char>| l.to_set().contains(k) && x == ValueModel::Text(k);
            let p = choose|p: int| 0 <= p < l.len() && l[p] == k;
            assert(texts(l)[p] == x);
        }
    }
    r
}

/// Keys of a map, as a list of strings.
fn keys_of_map(m: &ValueMap) -> (r: Value)
    ensures
        r@ matches ValueModel::List(l) && is_key_list(l, m.model()),
{
    let ks0 = m.distinct_keys();
    let ks = crate::text_order::sort_texts(ks0);
    let ghost l = view_labels(ks@);
    let arr = key_values(ks);
    let r = Value::Array(arr);
    assert(r@ == ValueModel::List(texts(l)));
    assert forall|i: int, j: int| 0 <= i < j < texts(l).len() implies (#[trigger] texts(l)[i] matches ValueModel::Text(a)
        && #[trigger] texts(l)[j] matches ValueModel::Text(b) && crate::text_order::text_less(a, b)) by {
        assert(crate::text_order::text_less(l[i], l[j]));
    }
    assert(is_key_list(texts(l), m.model()));
    r
}

/// `head(list)`.
pub struct Head {}

impl Head {
    /// First element of the list, or null.
    pub fn call_impl(array: &Vec<Value>) -> (r: Value)
        ensures
            r@ == (if array@.len() > 0 { array@[0]@ } else { ValueModel::Null }),
    {
        if array.len() > 0 {
            array[0].deep_clone()
        } else {
            Value::Null
        }
    }

    /// Checks the arguments, then calls the function.
    pub fn call(arguments: &Vec<Value>) -> (r: Result<Value, Error>)
        ensures
            value_result_matches(r, head_spec(view_values(arguments@))),
    {
        proof { lemma_view_values_index(arguments@); }
        if arguments.len() != 1 {
            return Err(invalid_arity("head", arguments.len(), 1));
        }
        match &arguments[0] {
            Value::Array(a) => {
                proof { lemma_view_values_index(a@); }
                Ok(Head::call_impl(a))
            },
            v => Err(invalid_argument("head", 0, "Vec<Value>", v)),
        }
    }
}

/// `keys(x)`.
pub struct Keys {}

impl Keys {
    /// Property names of a map, node or edge, each once, in increasing order; null for null.
    pub fn call(arguments: &Vec<Value>) -> (r: Result<Value, Error>)
        ensures
            keys_result(view_values(arguments@), result_model(r)),
    {
        proof { lemma_view_values_index(arguments@); }
        if arguments.len() != 1 {
            return Err(invalid_arity("keys", arguments.len(), 1));
        }
        match &arguments[0] {
            Value::Null => Ok(Value::Null),
            Value::Mapping(m) => {
                assert(view_values(arguments@)[0] == ValueModel::Dict(m.model()));
                Ok(keys_of_map(m))
            },
            Value::Node(n) => {
                assert(view_values(arguments@)[0] == ValueModel::Node(view_node(*n)));
                assert(view_node(*n).properties == n.properties.model());
                Ok(keys_of_map(&n.properties))
            },
            Value::Edge(e) => {
                assert(view_values(arguments@)[0] == ValueModel::Edge(view_edge(*e)));
                assert(view_edge(*e).properties == e.properties.model());
                Ok(keys_of_map(&e.properties))
            },
            v => Err(invalid_argument("keys", 0, "map, node or relationship", v)),
        }
    }
}


/// `range(min, max)`.
pub struct Range {}

impl Range {
    /// The integers from `min` to `max`, both included.
    pub fn call_impl(min: &i64, max: &i64) -> (r: Vec<Value>)
        ensures
            view_values(r@) == integer_range(*min as int, *max as int),
    {
        let mut out: Vec<Value> = Vec::new();
        if *min > *max {
            assert(view_values(out@) =~= integer_range(*min as int, *max as int));
            return out;
        }
        let mut i: i64 = *min;
        assert(view_values(out@) =~= integer_range(*min as int, *min as int - 1));
        loop
            invariant_except_break
                view_values(out@) == integer_range(*min as int, i as int - 1),
            invariant
                *min <= i <= *max,
            ensures
                view_values(out@) == integer_range(*min as int, *max as int),
            decreases *max - i,
        {
            let ghost before = out@;
            out.push(Value::Integer(i));
            proof {
                lemma_view_values_index(before);
                lemma_view_values_index(out@);
                assert(view_values(out@) =~= view_values(before).push(ValueModel::Integer(i)));
            }
            if i == *max {
                break;
            }
            i = i + 1;
        }
        out
    }

    /// Checks the arguments, then calls the function.
    pub fn call(arguments: &Vec<Value>) -> (r: Result<Value, Error>)
        ensures
            value_result_matches(r, range_spec(view_values(arguments@))),
    {
        proof { lemma_view_values_index(arguments@); }
        if arguments.len() != 2 {
            return Err(invalid_arity("range", arguments.len(), 2));
        }
        if arguments[0].is_null() && arguments[1].is_null() {
            return Ok(Value::Null);
        }
        match (&arguments[0], &arguments[1]) {
            (Value::Integer(a), Value::Integer(b)) => Ok(Value::Array(Range::call_impl(a, b))),
            (Value::Integer(_), v) => Err(invalid_argument("range", 1, "i64", v)),
            (v, _) => Err(invalid_argument("range", 0, "i64", v)),
        }
    }
}

/// `size(x)`.
pub struct Size {}

impl Size {
    /// Number of elements of a list or map, 1 for a path, null for null.
    pub fn call(arguments: &Vec<Value>) -> (r: Result<Value, Error>)
        ensures
            value_result_matches(r, size_spec(view_values(arguments@))),
    {
        proof { lemma_view_values_index(arguments@); }
        if arguments.len() == 0 {
            return Err(invalid_arity("size", arguments.len(), 1));
        }
        match &arguments[0] {
            Value::Null => Ok(Value::Null),
            Value::Array(a) => {
                proof { lemma_view_values_index(a@); }
                Ok(Value::Integer(a.len() as i64))
            },
            Value::Mapping(m) => {
                let n = m.distinct_keys().len();
                Ok(Value::Integer(n as i64))
            },
            Value::Path(_) => Ok(Value::Integer(1)),
            v => Err(invalid_argument("size", 0, "array or map", v)),
        }
    }
}

/// `length(x)`.
pub struct Length {}

impl Length {
    /// Number of elements of a list or map, 1 for a path.
    pub fn call(arguments: &Vec<Value>) -> (r: Result<Value, Error>)
        ensures
            value_result_matches(r, length_spec(view_values(arguments@))),
    {
        proof { lemma_view_values_index(arguments@); }
        if arguments.len() == 0 {
            return Err(invalid_arity("length", arguments.len(), 1));
        }
        match &arguments[0] {
            Value::Array(a) => {
                proof { lemma_view_values_index(a@); }
                Ok(Value::Integer(a.len() as i64))
            },
            Value::Mapping(m) => {
                let n = m.distinct_keys().len();
                Ok(Value::Integer(n as i64))
            },
            Value::Path(_) => Ok(Value::Integer(1)),
            v => Err(invalid_argument("length", 0, "array or map", v)),
        }
    }
}

/// `type(edge)`.
pub struct Type {}

impl Type {
    /// First label of the edge.
    pub fn call_impl(edge: &Edge) -> (r: Result<String, Error>)
        ensures
            match r {
                Ok(s) => view_edge(*edge).labels.len() > 0 && s@ == view_edge(*edge).labels[0],
                Err(e) => view_edge(*edge).labels.len() == 0 && kind_of(e) == ErrorKind::MissingEdgeLabel,
            },
    {
        if edge.labels.len() > 0 {
            Ok(edge.labels[0].clone())
        } else {
            Err(Error::RunTime(RunTimeError::MissingEdgeLabel))
        }
    }

    /// Checks the arguments, then calls the function.
    pub fn call(arguments: &Vec<Value>) -> (r: Result<Value, Error>)
        ensures
            value_result_matches(r, type_spec(view_values(arguments@))),
    {
        proof { lemma_view_values_index(arguments@); }
        if arguments.len() != 1 {
            return Err(invalid_arity("type", arguments.len(), 1));
        }
        match &arguments[0] {
            Value::Null => Ok(Value::Null),
            Value::Edge(e) => match Type::call_impl(e) {
                Ok(s) => Ok(Value::String(s)),
                Err(err) => Err(err),
            },
            v => Err(invalid_argument("type", 0, "graph::Edge", v)),
        }
    }
}

/// `labels(node)`.
pub struct Labels {}

impl Labels {
    /// Checks the arguments, then gives the labels of the node.
    pub fn call(arguments: &Vec<Value>) -> (r: Result<Value, Error>)
        ensures
            value_result_matches(r, labels_spec(view_values(arguments@))),
    {
        proof { lemma_view_values_index(arguments@); }
        if arguments.len() != 1 {
            return Err(invalid_arity("labels", arguments.len(), 1));
        }
        match &arguments[0] {
            Value::Null => Ok(Value::Null),
            Value::Node(n) => Ok(Value::Array(label_values(&n.labels))),
            v => Err(invalid_argument("labels", 0, "graph::Node", v)),
        }
    }
}

/// `nodes(path)`.
pub struct Nodes {}

impl Nodes {
    /// Checks the arguments, then gives the source and destination of the path.
    pub fn call(arguments: &Vec<Value>) -> (r: Result<Value, Error>)
        ensures
            value_result_matches(r, nodes_spec(view_values(arguments@))),
    {
        proof { lemma_view_values_index(arguments@); }
        if arguments.len() != 1 {
            return Err(invalid_arity("nodes", arguments.len(), 1));
        }
        match &arguments[0] {
            Value::Null => Ok(Value::Null),
            Value::Path(p) => {
                let out = vec![Value::Node(p.source.deep_clone()), Value::Node(p.destination.deep_clone())];
                proof { lemma_view_values_index(out@); }
                let r = Value::Array(out);
                assert(view_values(out@) =~= seq![ValueModel::Node(view_node(p.source)), ValueModel::Node(view_node(p.destination))]);
                Ok(r)
            },
            v => Err(invalid_argument("nodes", 0, "graph::Path", v)),
        }
    }
}

/// `edges(path)`.
pub struct Edges {}

impl Edges {
    /// Checks the arguments, then gives the edge of the path.
    pub fn call(arguments: &Vec<Value>) -> (r: Result<Value, Error>)
        ensures
            value_result_matches(r, edges_spec(view_values(arguments@))),
    {
        proof { lemma_view_values_index(arguments@); }
        if arguments.len() != 1 {
            return Err(invalid_arity("edges", arguments.len(), 1));
        }
        match &arguments[0] {
            Value::Null => Ok(Value::Null),
            Value::Path(p) => {
                assert(view_values(arguments@)[0] == ValueModel::Path(view_path(*p)));
                let labels = clone_strings(&p.labels);
                let properties = p.properties.deep_clone();
                assert(view_map(properties) == p.properties.model());
                let e = Edge { key: p.key, labels, properties };
                assert(view_edge(e) == NodeModel { key: p.key, labels: view_labels(p.labels@), properties: p.properties.model() });
                assert(Value::Edge(e)@ == ValueModel::Edge(view_edge(e)));
                let out = vec![Value::Edge(e)];
                proof { lemma_view_values_index(out@); }
                assert(out@[0]@ == ValueModel::Edge(NodeModel { key: p.key, labels: view_labels(p.labels@), properties: p.properties.model() }));
                assert(view_values(out@) =~= seq![ValueModel::Edge(NodeModel { key: p.key, labels: view_labels(p.labels@), properties: p.properties.model() })]);
                Ok(Value::Array(out))
            },
            v => Err(invalid_argument("edges", 0, "graph::Path", v)),
        }
    }
}

/// `coalesce(...)`.
pub struct Coalesce {}

impl Coalesce {
    /// First argument that is not null, or null.
    pub fn call(arguments: &Vec<Value>) -> (r: Result<Value, Error>)
        ensures
            value_result_matches(r, Ok(coalesce_spec(view_values(arguments@)))),
    {
        proof { lemma_view_values_index(arguments@); }
        let ghost args = view_values(arguments@);
        assert(args.subrange(0, args.len() as int) =~= args);
        for i in 0..arguments.len()
            invariant
                args == view_values(arguments@),
                args.len() == arguments@.len(),
                forall|j: int| 0 <= j < arguments@.len() ==> #[trigger] args[j] == arguments@[j]@,
                coalesce_spec(args) == coalesce_spec(args.subrange(i as int, args.len() as int)),
        {
            let ghost rest = args.subrange(i as int, args.len() as int);
            assert(rest[0] == args[i as int]);
            if !arguments[i].is_null() {
                return Ok(arguments[i].deep_clone());
            }
            assert(rest.drop_first() =~= args.subrange(i + 1, args.len() as int));
        }
        assert(args.subrange(args.len() as int, args.len() as int) =~= Seq::<ValueModel>::empty());
        Ok(Value::Null)
    }
}

/// `properties(x)`.
pub struct Properties {}

impl Properties {
    /// Checks the arguments, then gives the properties of a node or edge, or the map itself.
    pub fn call(arguments: &Vec<Value>) -> (r: Result<Value, Error>)
        ensures
            value_result_matches(r, properties_spec(view_values(arguments@))),
    {
        proof { lemma_view_values_index(arguments@); }
        if arguments.len() != 1 {
            return Err(invalid_arity("properties", arguments.len(), 1));
        }
        match &arguments[0] {
            Value::Null => Ok(Value::Null),
            Value::Node(n) => {
                assert(view_values(arguments@)[0] == ValueModel::Node(view_node(*n)));
                let r = Value::Mapping(n.properties.deep_clone());
                assert(r@ == ValueModel::Dict(n.properties.model()));
                Ok(r)
            },
            Value::Edge(e) => {
                assert(view_values(arguments@)[0] == ValueModel::Edge(view_edge(*e)));
                let r = Value::Mapping(e.properties.deep_clone());
                assert(r@ == ValueModel::Dict(e.properties.model()));
                Ok(r)
            },
            Value::Mapping(m) => {
                assert(view_values(arguments@)[0] == ValueModel::Dict(m.model()));
                let r = Value::Mapping(m.deep_clone());
                assert(r@ == ValueModel::Dict(m.model()));
                Ok(r)
            },
            v => Err(invalid_argument("properties", 0, "node or relationship", v)),
        }
    }
}

/// `toString(x)`.
pub struct ToString {}

impl ToString {
    /// Checks the arguments, then gives the text of a boolean, an integer or a string.
    pub fn call(arguments: &Vec<Value>) -> (r: Result<Value, Error>)
        ensures
            value_result_matches(r, to_string_spec(view_values(arguments@))),
    {
        proof { lemma_view_values_index(arguments@); }
        if arguments.len() != 1 {
            return Err(invalid_arity("tostring", arguments.len(), 1));
        }
        match &arguments[0] {
            Value::Null => Ok(Value::Null),
            Value::Boolean(b) => Ok(Value::String(if *b { String::from_str("true") } else { String::from_str("false") })),
            Value::Integer(i) => Ok(Value::String(i64_to_decimal(*i))),
            Value::String(s) => Ok(Value::String(s.clone())),
            v => Err(invalid_argument("toString", 0, "boolean or integer or double", v)),
        }
    }
}

/// `has_label(edge, label)`.
pub struct HasLabel {}

/// Whether `labels` holds `label`.
fn contains_label(labels: &Vec<String>, label: &String) -> (r: bool)
    ensures
        r == view_labels(labels@).contains(label@),
{
    for i in 0..labels.len()
        invariant
            forall|j: int| 0 <= j < i ==> labels@[j]@ != label@,
    {
        if labels[i] == *label {
            assert(view_labels(labels@)[i as int] == label@);
            return true;
        }
    }
    assert(!view_labels(labels@).contains(label@)) by {
        if view_labels(labels@).contains(label@) {
            let p = choose|p: int| 0 <= p < view_labels(labels@).len() && view_labels(labels@)[p] == label@;
            assert(labels@[p]@ == label@);
        }
    }
    false
}

impl HasLabel {
    /// Checks the arguments, then tells whether the edge carries the label.
    pub fn call(arguments: &Vec<Value>) -> (r: Result<Value, Error>)
        ensures
            value_result_matches(r, has_label_spec(view_values(arguments@))),
    {
        proof { lemma_view_values_index(arguments@); }
        if arguments.len() != 2 {
            return Err(invalid_arity("has_label", arguments.len(), 2));
        }
        if arguments[0].is_null() && arguments[1].is_null() {
            return Ok(Value::Null);
        }
        match (&arguments[0], &arguments[1]) {
            (Value::Edge(e), Value::String(l)) => Ok(Value::Boolean(contains_label(&e.labels, l))),
            (Value::Edge(_), v) => Err(invalid_argument("has_label", 1, "String", v)),
            (v, _) => Err(invalid_argument("has_label", 0, "crate::graph::Edge", v)),
        }
    }
}

/// `has_labels(x, label, ...)`.
pub struct HasLabels {}

impl HasLabels {
    /// Checks the arguments, then tells whether the node or edge carries all the labels.
    pub fn call(arguments: &Vec<Value>) -> (r: Result<Value, Error>)
        ensures
            value_result_matches(r, has_labels_spec(view_values(arguments@))),
    {
        proof { lemma_view_values_index(arguments@); }
        let ghost args = view_values(arguments@);
        if arguments.len() < 2 {
            return Err(invalid_arity("has_labels", arguments.len(), 2));
        }
        let labels = match &arguments[0] {
            Value::Edge(e) => &e.labels,
            Value::Node(n) => &n.labels,
            Value::Null => return Ok(Value::Null),
            v => return Err(invalid_argument("has_labels", 0, "node or edge", v)),
        };
        assert(labels_of(args[0]) == Some(view_labels(labels@)));
        let mut i: usize = 1;
        while i < arguments.len()
            invariant
                1 <= i <= arguments@.len(),
                args == view_values(arguments@),
                args.len() == arguments@.len(),
                forall|j: int| 0 <= j < arguments@.len() ==> #[trigger] args[j] == arguments@[j]@,
                has_labels_spec(args) == has_labels_from(view_labels(labels@), args, i as int),
            decreases arguments@.len() - i,
        {
            match &arguments[i] {
                Value::String(l) => {
                    if !contains_label(labels, l) {
                        return Ok(Value::Boolean(false));
                    }
                },
                v => return Err(invalid_argument("has_labels", i - 1, "string", v)),
            }
            i = i + 1;
        }
        Ok(Value::Boolean(true))
    }
}


/// The value of digits grows with each digit.
pub proof fn lemma_digits_prefix(s: Seq<char>, i: int)
    requires
        all_digits(s),
        0 <= i <= s.len(),
    ensures
        digits_value(s) >= digits_value(s.take(i)) >= 0,
    decreases s.len() - i,
{
    if i < s.len() {
        assert(s.take(i + 1).drop_last() =~= s.take(i));
        assert(all_digits(s.take(i)));
        lemma_digits_prefix(s, i + 1);
    } else {
        assert(s.take(i) =~= s);
    }
    lemma_digits_nonnegative(s.take(i));
}

pub proof fn lemma_digits_nonnegative(s: Seq<char>)
    requires
        all_digits(s),
    ensures
        digits_value(s) >= 0,
    decreases s.len(),
{
    if s.len() > 0 {
        assert(all_digits(s.drop_last()));
        lemma_digits_nonnegative(s.drop_last());
    }
}

/// Parses an optional sign followed by decimal digits into a 64-bit integer.
pub fn parse_integer(s: &String) -> (r: Option<i64>)
    ensures
        r == parse_integer_spec(s@),
{
    let cs = chars_of(s.as_str());
    let n = cs.len();
    let mut start: usize = 0;
    let mut negative = false;
    if n > 0 && cs[0] == '-' {
        negative = true;
        start = 1;
    } else if n > 0 && cs[0] == '+' {
        start = 1;
    }
    let ghost body = cs@.subrange(start as int, n as int);
    assert(body =~= (if cs@.len() > 0 && (cs@[0] == '-' || cs@[0] == '+') { cs@.drop_first() } else { cs@ }));
    if start == n {
        return None;
    }
    let mut v: i64 = 0;
    assert(body.take(0) =~= Seq::<char>::empty());
    for i in start..n
        invariant
            n == cs@.len(),
            cs@ == s@,
            start <= n,
            body == cs@.subrange(start as int, n as int),
            body == (if cs@.len() > 0 && (cs@[0] == '-' || cs@[0] == '+') { cs@.drop_first() } else { cs@ }),
            negative == (cs@.len() > 0 && cs@[0] == '-'),
            all_digits(body.take(i - start)),
            v == (if negative { -digits_value(body.take(i - start)) } else { digits_value(body.take(i - start)) }),
    {
        let c = cs[i];
        let ghost k = i - start;
        assert(body[k] == c);
        if c < '0' || c > '9' {
            assert(!all_digits(body));
            return None;
        }
        let d: i64 = (c as u32 - '0' as u32) as i64;
        proof {
            assert(body.take(k + 1).drop_last() =~= body.take(k));
            assert(body.take(k + 1).last() == c);
            assert(digits_value(body.take(k + 1)) == digits_value(body.take(k)) * 10 + d);
            assert(all_digits(body.take(k + 1)));
            if all_digits(body) {
                lemma_digits_prefix(body, k + 1);
            }
        }
        let next = if negative {
            match v.checked_mul(10) {
                Some(x) => x.checked_sub(d),
                None => None,
            }
        } else {
            match v.checked_mul(10) {
                Some(x) => x.checked_add(d),
                None => None,
            }
        };
        match next {
            Some(x) => v = x,
            None => return None,
        }
    }
    assert(body.take(body.len() as int) =~= body);
    Some(v)
}

/// `toInteger(x)`.
pub struct ToInteger {}

impl ToInteger {
    /// Checks the arguments, then gives an integer, or a string parsed as an integer.
    pub fn call(arguments: &Vec<Value>) -> (r: Result<Value, Error>)
        ensures
            value_result_matches(r, to_integer_spec(view_values(arguments@))),
    {
        proof { lemma_view_values_index(arguments@); }
        if arguments.len() != 1 {
            return Err(invalid_arity("tointeger", arguments.len(), 1));
        }
        match &arguments[0] {
            Value::Null => Ok(Value::Null),
            Value::Integer(i) => Ok(Value::Integer(*i)),
            Value::String(s) => match parse_integer(s) {
                Some(i) => Ok(Value::Integer(i)),
                None => Err(invalid_argument("toInteger", 0, "A string convertible to integer", &arguments[0])),
            },
            v => Err(invalid_argument("toInteger", 0, "integer, float, or string", v)),
        }
    }
}


/// `range(a, b)` holds `b - a + 1` integers, from `a` up, when `a <= b`, and none otherwise.
pub proof fn lemma_integer_range(a: int, b: int)
    ensures
        integer_range(a, b).len() == (if b < a { 0 } else { b - a + 1 }),
        forall|i: int| 0 <= i < integer_range(a, b).len() ==> #[trigger] integer_range(a, b)[i] == ValueModel::Integer((a + i) as i64),
    decreases b - a + 1,
{
    if b >= a {
        lemma_integer_range(a, b - 1);
    }
}

/// `coalesce` gives null exactly when every argument is null, and otherwise one of its arguments.
pub proof fn lemma_coalesce(args: Seq<ValueModel>)
    ensures
        (coalesce_spec(args) is Null) <==> (forall|i: int| 0 <= i < args.len() ==> #[trigger] args[i] is Null),
        !(coalesce_spec(args) is Null) ==> args.contains(coalesce_spec(args)),
    decreases args.len(),
{
    if args.len() > 0 {
        lemma_coalesce(args.drop_first());
        assert forall|i: int| 0 < i < args.len() implies args[i] == args.drop_first()[i - 1] by {}
        if !(coalesce_spec(args) is Null) && args[0] is Null {
            let x = coalesce_spec(args.drop_first());
            let j = choose|j: int| 0 <= j < args.drop_first().len() && args.drop_first()[j] == x;
            assert(args[j + 1] == x);
        }
        if args[0] is Null && (forall|i: int| 0 <= i < args.drop_first().len() ==> #[trigger] args.drop_first()[i] is Null) {
            assert forall|i: int| 0 <= i < args.len() implies #[trigger] args[i] is Null by {
                if i > 0 {
                    assert(args.drop_first()[i - 1] is Null);
                }
            }
        }
    }
}

/// A decimal digit reads back as its value.
pub proof fn lemma_digit_char(d: nat)
    requires
        d < 10,
    ensures
        '0' <= digit_char(d) <= '9',
        digit_char(d) as int - '0' as int == d,
{
}

/// The digits of a number are decimal digits, and read back as the number.
pub proof fn lemma_decimal_digits(n: nat)
    ensures
        decimal(n).len() > 0,
        all_digits(decimal(n)),
        digits_value(decimal(n)) == n,
    decreases n,
{
    if n >= 10 {
        lemma_decimal_digits(n / 10);
        lemma_digit_char(n % 10);
        let d = decimal(n / 10).push(digit_char(n % 10));
        assert(d.drop_last() =~= decimal(n / 10));
        assert(forall|i: int| 0 <= i < d.len() - 1 ==> d[i] == decimal(n / 10)[i]);
        assert((n / 10) * 10 + n % 10 == n) by (nonlinear_arith);
        assert(decimal(n) == d);
        assert(d.last() == digit_char(n % 10));
        assert(digits_value(d) == digits_value(d.drop_last()) * 10 + (d.last() as int - '0' as int));
        assert(digits_value(d) == (n / 10) * 10 + n % 10);
    } else {
        lemma_digit_char(n);
        let d = decimal(n);
        assert(d == seq![digit_char(n)]);
        assert(d.drop_last() =~= Seq::<char>::empty());
        assert(digits_value(d.drop_last()) == 0);
        assert(digits_value(d) == digits_value(d.drop_last()) * 10 + (d.last() as int - '0' as int));
    }
}

/// `toInteger(toString(i))` gives back `i`: an integer written in decimal parses back to itself.
pub proof fn lemma_parse_printed_integer(i: i64)
    ensures
        parse_integer_spec(signed_decimal(i as int)) == Some(i),
{
    if i < 0 {
        lemma_decimal_digits((-i) as nat);
        let s = signed_decimal(i as int);
        assert(s.drop_first() =~= decimal((-i) as nat));
    } else {
        lemma_decimal_digits(i as nat);
        let s = decimal(i as nat);
        assert('0' <= s[0] && s[0] <= '9');
    }
}


/// The functions that can be called by name: all but those computing with floating point
/// numbers or chance.
pub open spec fn callable(name: Seq<char>) -> bool {
    name == "head"@ || name == "keys"@ || name == "range"@ || name == "size"@ || name == "type"@
        || name == "labels"@ || name == "length"@ || name == "nodes"@ || name == "edges"@
        || name == "coalesce"@ || name == "properties"@ || name == "tointeger"@ || name == "tostring"@
        || name == "has_label"@ || name == "has_labels"@
}

/// What calling a function by name gives.
pub open spec fn call_outcome(name: Seq<char>, args: Seq<ValueModel>, r: Result<ValueModel, ErrorKind>) -> bool {
    if name == "keys"@ {
        keys_result(args, r)
    } else if name == "head"@ {
        r == head_spec(args)
    } else if name == "range"@ {
        r == range_spec(args)
    } else if name == "size"@ {
        r == size_spec(args)
    } else if name == "type"@ {
        r == type_spec(args)
    } else if name == "labels"@ {
        r == labels_spec(args)
    } else if name == "length"@ {
        r == length_spec(args)
    } else if name == "nodes"@ {
        r == nodes_spec(args)
    } else if name == "edges"@ {
        r == edges_spec(args)
    } else if name == "coalesce"@ {
        r == Ok::<ValueModel, ErrorKind>(coalesce_spec(args))
    } else if name == "properties"@ {
        r == properties_spec(args)
    } else if name == "tointeger"@ {
        r == to_integer_spec(args)
    } else if name == "tostring"@ {
        r == to_string_spec(args)
    } else if name == "has_label"@ {
        r == has_label_spec(args)
    } else {
        r == has_labels_spec(args)
    }
}

/// Calls the function of the given name, in lower case, on the arguments.
pub fn call_function(name: &String, arguments: &Vec<Value>) -> (r: Result<Value, Error>)
    requires
        callable(name@),
    ensures
        call_outcome(name@, view_values(arguments@), result_model(r)),
{
    proof {
        reveal_strlit("keys");
        reveal_strlit("head");
        reveal_strlit("range");
        reveal_strlit("size");
        reveal_strlit("type");
        reveal_strlit("labels");
        reveal_strlit("length");
        reveal_strlit("nodes");
        reveal_strlit("edges");
        reveal_strlit("coalesce");
        reveal_strlit("properties");
        reveal_strlit("tointeger");
        reveal_strlit("tostring");
        reveal_strlit("has_label");
        reveal_strlit("has_labels");
    }
    if crate::functions::eq_str(name, "keys") {
        Keys::call(arguments)
    } else if crate::functions::eq_str(name, "head") {
        Head::call(arguments)
    } else if crate::functions::eq_str(name, "range") {
        Range::call(arguments)
    } else if crate::functions::eq_str(name, "size") {
        Size::call(arguments)
    } else if crate::functions::eq_str(name, "type") {
        Type::call(arguments)
    } else if crate::functions::eq_str(name, "labels") {
        Labels::call(arguments)
    } else if crate::functions::eq_str(name, "length") {
        Length::call(arguments)
    } else if crate::functions::eq_str(name, "nodes") {
        Nodes::call(arguments)
    } else if crate::functions::eq_str(name, "edges") {
        Edges::call(arguments)
    } else if crate::functions::eq_str(name, "coalesce") {
        Coalesce::call(arguments)
    } else if crate::functions::eq_str(name, "properties") {
        Properties::call(arguments)
    } else if crate::functions::eq_str(name, "tointeger") {
        ToInteger::call(arguments)
    } else if crate::functions::eq_str(name, "tostring") {
        ToString::call(arguments)
    } else if crate::functions::eq_str(name, "has_label") {
        HasLabel::call(arguments)
    } else {
        HasLabels::call(arguments)
    }
}



/// What a call gives, by the name of the function called.
proof fn reveal_function_names(args: Seq<ValueModel>, r: Result<ValueModel, ErrorKind>)
    ensures
        call_outcome("keys"@, args, r) == keys_result(args, r),
        call_outcome("head"@, args, r) == (r == head_spec(args)),
        call_outcome("range"@, args, r) == (r == range_spec(args)),
        call_outcome("size"@, args, r) == (r == size_spec(args)),
        call_outcome("type"@, args, r) == (r == type_spec(args)),
        call_outcome("labels"@, args, r) == (r == labels_spec(args)),
        call_outcome("length"@, args, r) == (r == length_spec(args)),
        call_outcome("nodes"@, args, r) == (r == nodes_spec(args)),
        call_outcome("edges"@, args, r) == (r == edges_spec(args)),
        call_outcome("coalesce"@, args, r) == (r == Ok::<ValueModel, ErrorKind>(coalesce_spec(args))),
        call_outcome("properties"@, args, r) == (r == properties_spec(args)),
        call_outcome("tointeger"@, args, r) == (r == to_integer_spec(args)),
        call_outcome("tostring"@, args, r) == (r == to_string_spec(args)),
        call_outcome("has_label"@, args, r) == (r == has_label_spec(args)),
        call_outcome("has_labels"@, args, r) == (r == has_labels_spec(args)),
{
    reveal_strlit("keys");
    reveal_strlit("head");
    reveal_strlit("range");
    reveal_strlit("size");
    reveal_strlit("type");
    reveal_strlit("labels");
    reveal_strlit("length");
    reveal_strlit("nodes");
    reveal_strlit("edges");
    reveal_strlit("coalesce");
    reveal_strlit("properties");
    reveal_strlit("tointeger");
    reveal_strlit("tostring");
    reveal_strlit("has_label");
    reveal_strlit("has_labels");
    assert("head"@[0] != "keys"@[0]);
    assert("range"@.len() != "keys"@.len()
        && "range"@.len() != "head"@.len());
    assert("size"@[0] != "keys"@[0]
        && "size"@[0] != "head"@[0]
        && "size"@.len() != "range"@.len());
    assert("type"@[0] != "keys"@[0]
        && "type"@[0] != "head"@[0]
        && "type"@.len() != "range"@.len()
        && "type"@[0] != "size"@[0]);
    assert("labels"@.len() != "keys"@.len()
        && "labels"@.len() != "head"@.len()
        && "labels"@.len() != "range"@.len()
        && "labels"@.len() != "size"@.len()
        && "labels"@.len() != "type"@.len());
    assert("length"@.len() != "keys"@.len()
        && "length"@.len() != "head"@.len()
        && "length"@.len() != "range"@.len()
        && "length"@.len() != "size"@.len()
        && "length"@.len() != "type"@.len()
        && "length"@[1] != "labels"@[1]);
    assert("nodes"@.len() != "keys"@.len()
        && "nodes"@.len() != "head"@.len()
        && "nodes"@[0] != "range"@[0]
        && "nodes"@.len() != "size"@.len()
        && "nodes"@.len() != "type"@.len()
        && "nodes"@.len() != "labels"@.len()
        && "nodes"@.len() != "length"@.len());
    assert("edges"@.len() != "keys"@.len()
        && "edges"@.len() != "head"@.len()
        && "edges"@[0] != "range"@[0]
        && "edges"@.len() != "size"@.len()
        && "edges"@.len() != "type"@.len()
        && "edges"@.len() != "labels"@.len()
        && "edges"@.len() != "length"@.len()
        && "edges"@[0] != "nodes"@[0]);
    assert("coalesce"@.len() != "keys"@.len()
        && "coalesce"@.len() != "head"@.len()
        && "coalesce"@.len() != "range"@.len()
        && "coalesce"@.len() != "size"@.len()
        && "coalesce"@.len() != "type"@.len()
        && "coalesce"@.len() != "labels"@.len()
        && "coalesce"@.len() != "length"@.len()
        && "coalesce"@.len() != "nodes"@.len()
        && "coalesce"@.len() != "edges"@.len());
    assert("properties"@.len() != "keys"@.len()
        && "properties"@.len() != "head"@.len()
        && "properties"@.len() != "range"@.len()
        && "properties"@.len() != "size"@.len()
        && "properties"@.len() != "type"@.len()
        && "properties"@.len() != "labels"@.len()
        && "properties"@.len() != "length"@.len()
        && "properties"@.len() != "nodes"@.len()
        && "properties"@.len() != "edges"@.len()
        && "properties"@.len() != "coalesce"@.len());
    assert("tointeger"@.len() != "keys"@.len()
        && "tointeger"@.len() != "head"@.len()
        && "tointeger"@.len() != "range"@.len()
        && "tointeger"@.len() != "size"@.len()
        && "tointeger"@.len() != "type"@.len()
        && "tointeger"@.len() != "labels"@.len()
        && "tointeger"@.len() != "length"@.len()
        && "tointeger"@.len() != "nodes"@.len()
        && "tointeger"@.len() != "edges"@.len()
        && "tointeger"@.len() != "coalesce"@.len()
        && "tointeger"@.len() != "properties"@.len());
    assert("tostring"@.len() != "keys"@.len()
        && "tostring"@.len() != "head"@.len()
        && "tostring"@.len() != "range"@.len()
        && "tostring"@.len() != "size"@.len()
        && "tostring"@.len() != "type"@.len()
        && "tostring"@.len() != "labels"@.len()
        && "tostring"@.len() != "length"@.len()
        && "tostring"@.len() != "nodes"@.len()
        && "tostring"@.len() != "edges"@.len()
        && "tostring"@[0] != "coalesce"@[0]
        && "tostring"@.len() != "properties"@.len()
        && "tostring"@.len() != "tointeger"@.len());
    assert("has_label"@.len() != "keys"@.len()
        && "has_label"@.len() != "head"@.len()
        && "has_label"@.len() != "range"@.len()
        && "has_label"@.len() != "size"@.len()
        && "has_label"@.len() != "type"@.len()
        && "has_label"@.len() != "labels"@.len()
        && "has_label"@.len() != "length"@.len()
        && "has_label"@.len() != "nodes"@.len()
        && "has_label"@.len() != "edges"@.len()
        && "has_label"@.len() != "coalesce"@.len()
        && "has_label"@.len() != "properties"@.len()
        && "has_label"@[0] != "tointeger"@[0]
        && "has_label"@.len() != "tostring"@.len());
    assert("has_labels"@.len() != "keys"@.len()
        && "has_labels"@.len() != "head"@.len()
        && "has_labels"@.len() != "range"@.len()
        && "has_labels"@.len() != "size"@.len()
        && "has_labels"@.len() != "type"@.len()
        && "has_labels"@.len() != "labels"@.len()
        && "has_labels"@.len() != "length"@.len()
        && "has_labels"@.len() != "nodes"@.len()
        && "has_labels"@.len() != "edges"@.len()
        && "has_labels"@.len() != "coalesce"@.len()
        && "has_labels"@[0] != "properties"@[0]
        && "has_labels"@.len() != "tointeger"@.len()
        && "has_labels"@.len() != "tostring"@.len()
        && "has_labels"@.len() != "has_label"@.len());
}

/// `labels` called on a node gives the list of its labels, as strings, in order.
pub proof fn lemma_call_labels(n: NodeModel, r: Result<ValueModel, ErrorKind>)
    requires
        call_outcome("labels"@, seq![ValueModel::Node(n)], r),
    ensures
        r matches Ok(ValueModel::List(l)) && l.len() == n.labels.len()
            && forall|i: int| 0 <= i < l.len() ==> #[trigger] l[i] == ValueModel::Text(n.labels[i]),
{
    reveal_function_names(seq![ValueModel::Node(n)], r);
}

/// `properties` called on a node or an edge gives the map of its properties, and on a map the
/// map itself.
pub proof fn lemma_call_properties(v: ValueModel, r: Result<ValueModel, ErrorKind>)
    requires
        call_outcome("properties"@, seq![v], r),
    ensures
        v matches ValueModel::Node(n) ==> r == Ok::<ValueModel, ErrorKind>(ValueModel::Dict(n.properties)),
        v matches ValueModel::Edge(e) ==> r == Ok::<ValueModel, ErrorKind>(ValueModel::Dict(e.properties)),
        v matches ValueModel::Dict(m) ==> r == Ok::<ValueModel, ErrorKind>(ValueModel::Dict(m)),
{
    reveal_function_names(seq![v], r);
}

/// `keys` called on a node gives each name of its properties once, as a string, and nothing else.
pub proof fn lemma_call_keys(n: NodeModel, r: Result<ValueModel, ErrorKind>)
    requires
        call_outcome("keys"@, seq![ValueModel::Node(n)], r),
    ensures
        r matches Ok(ValueModel::List(l)) && l.no_duplicates()
            && forall|k: Seq<char>| #[trigger] l.contains(ValueModel::Text(k)) <==> n.properties.dom().contains(k),
{
    reveal_function_names(seq![ValueModel::Node(n)], r);
    if let Ok(ValueModel::List(l)) = r {
        assert forall|k: Seq<char>| #[trigger] l.contains(ValueModel::Text(k)) <==> n.properties.dom().contains(k) by {
            if l.contains(ValueModel::Text(k)) {
                let k2 = choose|k2: Seq<char>| n.properties.dom().contains(k2) && ValueModel::Text(k) == ValueModel::Text(k2);
            }
        }
    }
}

/// `head` gives the first element of a non-empty list, and null for an empty list.
pub proof fn lemma_call_head(a: Seq<ValueModel>, r: Result<ValueModel, ErrorKind>)
    requires
        call_outcome("head"@, seq![ValueModel::List(a)], r),
    ensures
        a.len() > 0 ==> r == Ok::<ValueModel, ErrorKind>(a[0]),
        a.len() == 0 ==> r == Ok::<ValueModel, ErrorKind>(ValueModel::Null),
{
    reveal_function_names(seq![ValueModel::List(a)], r);
}

/// `size` and `length` both give the number of elements of a list.
pub proof fn lemma_call_size_length(a: Seq<ValueModel>, r1: Result<ValueModel, ErrorKind>, r2: Result<ValueModel, ErrorKind>)
    requires
        call_outcome("size"@, seq![ValueModel::List(a)], r1),
        call_outcome("length"@, seq![ValueModel::List(a)], r2),
    ensures
        r1 == Ok::<ValueModel, ErrorKind>(ValueModel::Integer(a.len() as i64)),
        r2 == r1,
{
    reveal_function_names(seq![ValueModel::List(a)], r1);
    reveal_function_names(seq![ValueModel::List(a)], r2);
}

/// `type` gives the first label of an edge that has one.
pub proof fn lemma_call_type(e: NodeModel, r: Result<ValueModel, ErrorKind>)
    requires
        call_outcome("type"@, seq![ValueModel::Edge(e)], r),
        e.labels.len() > 0,
    ensures
        r == Ok::<ValueModel, ErrorKind>(ValueModel::Text(e.labels[0])),
{
    reveal_function_names(seq![ValueModel::Edge(e)], r);
}

/// `nodes` gives the source and the destination of a path, and `edges` its edge, with the
/// path's key, labels and properties.
pub proof fn lemma_call_nodes_edges(p: PathModel, r1: Result<ValueModel, ErrorKind>, r2: Result<ValueModel, ErrorKind>)
    requires
        call_outcome("nodes"@, seq![ValueModel::Path(p)], r1),
        call_outcome("edges"@, seq![ValueModel::Path(p)], r2),
    ensures
        r1 == Ok::<ValueModel, ErrorKind>(ValueModel::List(seq![ValueModel::Node(p.source), ValueModel::Node(p.destination)])),
        r2 == Ok::<ValueModel, ErrorKind>(ValueModel::List(seq![ValueModel::Edge(NodeModel { key: p.key, labels: p.labels, properties: p.properties })])),
{
    reveal_function_names(seq![ValueModel::Path(p)], r1);
    reveal_function_names(seq![ValueModel::Path(p)], r2);
}

/// `coalesce` gives the first argument that is not null, or null when all are.
pub proof fn lemma_call_coalesce(args: Seq<ValueModel>, r: Result<ValueModel, ErrorKind>)
    requires
        call_outcome("coalesce"@, args, r),
    ensures
        r matches Ok(v) && (v is Null <==> forall|i: int| 0 <= i < args.len() ==> #[trigger] args[i] is Null)
            && (!(v is Null) ==> exists|i: int| 0 <= i < args.len() && args[i] == v
                && forall|j: int| 0 <= j < i ==> #[trigger] args[j] is Null),
{
    reveal_function_names(args, r);
    lemma_coalesce_first(args);
}

/// The value of `coalesce` is null when all arguments are, and else the first one that is not.
proof fn lemma_coalesce_first(args: Seq<ValueModel>)
    ensures
        coalesce_spec(args) is Null <==> forall|i: int| 0 <= i < args.len() ==> #[trigger] args[i] is Null,
        !(coalesce_spec(args) is Null) ==> exists|i: int| 0 <= i < args.len() && args[i] == coalesce_spec(args)
            && forall|j: int| 0 <= j < i ==> #[trigger] args[j] is Null,
    decreases args.len(),
{
    if args.len() > 0 && args[0] is Null {
        let w = args.drop_first();
        lemma_coalesce_first(w);
        assert(forall|i: int| 0 < i < args.len() ==> args[i] == w[i - 1]);
        if !(coalesce_spec(args) is Null) {
            let i = choose|i: int| 0 <= i < w.len() && w[i] == coalesce_spec(w) && forall|j: int| 0 <= j < i ==> #[trigger] w[j] is Null;
            assert(args[i + 1] == coalesce_spec(args));
            assert forall|j: int| 0 <= j < i + 1 implies #[trigger] args[j] is Null by {
                if j > 0 {
                    assert(w[j - 1] is Null);
                }
            }
        } else {
            assert forall|i: int| 0 <= i < args.len() implies #[trigger] args[i] is Null by {
                if i > 0 {
                    assert(w[i - 1] is Null);
                }
            }
        }
    }
}

/// `toString` gives a string back unchanged, and `toInteger` an integer.
pub proof fn lemma_call_conversions(t: Seq<char>, i: i64, r1: Result<ValueModel, ErrorKind>, r2: Result<ValueModel, ErrorKind>)
    requires
        call_outcome("tostring"@, seq![ValueModel::Text(t)], r1),
        call_outcome("tointeger"@, seq![ValueModel::Integer(i)], r2),
    ensures
        r1 == Ok::<ValueModel, ErrorKind>(ValueModel::Text(t)),
        r2 == Ok::<ValueModel, ErrorKind>(ValueModel::Integer(i)),
{
    reveal_function_names(seq![ValueModel::Text(t)], r1);
    reveal_function_names(seq![ValueModel::Integer(i)], r2);
}

/// `has_label` tells whether an edge carries a label, and `has_labels` whether a node carries
/// one.
pub proof fn lemma_call_has_label(e: NodeModel, n: NodeModel, l: Seq<char>, r1: Result<ValueModel, ErrorKind>, r2: Result<ValueModel, ErrorKind>)
    requires
        call_outcome("has_label"@, seq![ValueModel::Edge(e), ValueModel::Text(l)], r1),
        call_outcome("has_labels"@, seq![ValueModel::Node(n), ValueModel::Text(l)], r2),
    ensures
        r1 == Ok::<ValueModel, ErrorKind>(ValueModel::Boolean(e.labels.contains(l))),
        r2 == Ok::<ValueModel, ErrorKind>(ValueModel::Boolean(n.labels.contains(l))),
{
    reveal_function_names(seq![ValueModel::Edge(e), ValueModel::Text(l)], r1);
    reveal_function_names(seq![ValueModel::Node(n), ValueModel::Text(l)], r2);
    let args = seq![ValueModel::Node(n), ValueModel::Text(l)];
    assert(has_labels_from(n.labels, args, 2) == Ok::<ValueModel, ErrorKind>(ValueModel::Boolean(true)));
}

/// `range(a, b)` gives the integers from `a` to `b`, both included, in increasing order.
pub proof fn lemma_call_range(a: i64, b: i64, r: Result<ValueModel, ErrorKind>)
    requires
        call_outcome("range"@, seq![ValueModel::Integer(a), ValueModel::Integer(b)], r),
    ensures
        r matches Ok(ValueModel::List(l)) && l.len() == (if b < a { 0 } else { b - a + 1 })
            && forall|j: int| 0 <= j < l.len() ==> #[trigger] l[j] == ValueModel::Integer((a + j) as i64),
{
    reveal_function_names(seq![ValueModel::Integer(a), ValueModel::Integer(b)], r);
    lemma_integer_range(a as int, b as int);
}

} // verus!
