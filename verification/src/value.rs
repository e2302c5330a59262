use vstd::prelude::*;

verus! {

broadcast use vstd::std_specs::vec::group_vec_axioms;

/// Mathematical model of a [`Value`].
pub enum ValueModel {
    Null,
    Key(u128),
    Boolean(bool),
    Integer(i64),
    Text(Seq<char>),
    List(Seq<ValueModel>),
    Dict(Map<Seq<char>, ValueModel>),
    Node(NodeModel),
    Edge(NodeModel),
    Path(PathModel),
}

/// Mathematical model of a node or an edge: its key, labels and properties.
pub struct NodeModel {
    pub key: u128,
    pub labels: Seq<Seq<char>>,
    pub properties: Map<Seq<char>, ValueModel>,
}

/// Mathematical model of a path made of a single edge.
pub struct PathModel {
    pub key: u128,
    pub source: NodeModel,
    pub labels: Seq<Seq<char>>,
    pub properties: Map<Seq<char>, ValueModel>,
    pub destination: NodeModel,
}

/// Unordered map from property names to values.
#[derive(Debug, PartialEq)]
pub struct ValueMap {
    pub entries: Vec<(String, Value)>,
}

/// A node of the graph.
#[derive(Debug, PartialEq)]
pub struct Node {
    pub key: u128,
    pub labels: Vec<String>,
    pub properties: ValueMap,
}

/// An edge of the graph.
#[derive(Debug, PartialEq)]
pub struct Edge {
    pub key: u128,
    pub labels: Vec<String>,
    pub properties: ValueMap,
}

/// A path made of a single edge between two nodes.
#[derive(Debug, PartialEq)]
pub struct Path {
    pub key: u128,
    pub source: Node,
    pub labels: Vec<String>,
    pub properties: ValueMap,
    pub destination: Node,
}

/// A value manipulated by queries.
#[derive(Debug, PartialEq)]
pub enum Value {
    Null,
    Key(u128),
    Boolean(bool),
    Integer(i64),
    String(String),
    Array(Vec<Value>),
    Mapping(ValueMap),
    Node(Node),
    Edge(Edge),
    Path(Path),
}

pub open spec fn view_values(s: Seq<Value>) -> Seq<ValueModel>
    decreases s,
{
    if s.len() == 0 {
        Seq::empty()
    } else {
        view_values(s.subrange(0, s.len() - 1)).push(view_value(s[s.len() - 1]))
    }
}

pub open spec fn view_entries(s: Seq<(String, Value)>) -> Map<Seq<char>, ValueModel>
    decreases s,
{
    if s.len() == 0 {
        Map::empty()
    } else {
        view_entries(s.subrange(0, s.len() - 1)).insert(s[s.len() - 1].0@, view_value(s[s.len() - 1].1))
    }
}

pub open spec fn view_map(m: ValueMap) -> Map<Seq<char>, ValueModel>
    decreases m,
{
    view_entries(m.entries@)
}

pub open spec fn view_labels(s: Seq<String>) -> Seq<Seq<char>> {
    s.map_values(|l: String| l@)
}

pub open spec fn view_node(n: Node) -> NodeModel
    decreases n,
{
    NodeModel { key: n.key, labels: view_labels(n.labels@), properties: view_map(n.properties) }
}

pub open spec fn view_edge(e: Edge) -> NodeModel
    decreases e,
{
    NodeModel { key: e.key, labels: view_labels(e.labels@), properties: view_map(e.properties) }
}

pub open spec fn view_path(p: Path) -> PathModel
    decreases p,
{
    PathModel {
        key: p.key,
        source: view_node(p.source),
        labels: view_labels(p.labels@),
        properties: view_map(p.properties),
        destination: view_node(p.destination),
    }
}

pub open spec fn view_value(v: Value) -> ValueModel
    decreases v,
{
    match v {
        Value::Null => ValueModel::Null,
        Value::Key(k) => ValueModel::Key(k),
        Value::Boolean(b) => ValueModel::Boolean(b),
        Value::Integer(i) => ValueModel::Integer(i),
        Value::String(s) => ValueModel::Text(s@),
        Value::Array(a) => ValueModel::List(view_values(a@)),
        Value::Mapping(m) => ValueModel::Dict(view_map(m)),
        Value::Node(n) => ValueModel::Node(view_node(n)),
        Value::Edge(e) => ValueModel::Edge(view_edge(e)),
        Value::Path(p) => ValueModel::Path(view_path(p)),
    }
}

impl View for Value {
    type V = ValueModel;

    open spec fn view(&self) -> ValueModel {
        view_value(*self)
    }
}


pub proof fn lemma_view_values_index(s: Seq<Value>)
    ensures
        view_values(s).len() == s.len(),
        forall|i: int| 0 <= i < s.len() ==> #[trigger] view_values(s)[i] == view_value(s[i]),
    decreases s.len(),
{
    if s.len() > 0 {
        lemma_view_values_index(s.subrange(0, s.len() - 1));
    }
}

pub proof fn lemma_view_values_ext(s1: Seq<Value>, s2: Seq<Value>)
    requires
        s1.len() == s2.len(),
        forall|i: int| 0 <= i < s1.len() ==> view_value(#[trigger] s1[i]) == view_value(s2[i]),
    ensures
        view_values(s1) == view_values(s2),
{
    lemma_view_values_index(s1);
    lemma_view_values_index(s2);
    assert(view_values(s1) =~= view_values(s2));
}

pub proof fn lemma_view_entries_ext(s1: Seq<(String, Value)>, s2: Seq<(String, Value)>)
    requires
        s1.len() == s2.len(),
        forall|i: int| 0 <= i < s1.len() ==> (#[trigger] s1[i]).0@ == s2[i].0@ && view_value(s1[i].1) == view_value(s2[i].1),
    ensures
        view_entries(s1) == view_entries(s2),
    decreases s1.len(),
{
    if s1.len() > 0 {
        let p1 = s1.subrange(0, s1.len() - 1);
        let p2 = s2.subrange(0, s2.len() - 1);
        assert forall|i: int| 0 <= i < p1.len() implies (#[trigger] p1[i]).0@ == p2[i].0@ && view_value(p1[i].1) == view_value(p2[i].1) by {
            assert(p1[i] == s1[i]);
            assert(p2[i] == s2[i]);
        }
        lemma_view_entries_ext(p1, p2);
        assert(s1[s1.len() - 1].0@ == s2[s2.len() - 1].0@);
    }
}

/// The model of an association list holds a key exactly when one of its entries does.
pub proof fn lemma_view_entries_absent(s: Seq<(String, Value)>, k: Seq<char>)
    requires
        forall|j: int| 0 <= j < s.len() ==> (#[trigger] s[j]).0@ != k,
    ensures
        !view_entries(s).contains_key(k),
    decreases s.len(),
{
    if s.len() > 0 {
        let p = s.subrange(0, s.len() - 1);
        assert forall|j: int| 0 <= j < p.len() implies (#[trigger] p[j]).0@ != k by {
            assert(p[j] == s[j]);
        }
        lemma_view_entries_absent(p, k);
    }
}

/// The model of an association list maps a key to the value of its last entry with that key.
pub proof fn lemma_view_entries_last(s: Seq<(String, Value)>, j: int, k: Seq<char>)
    requires
        0 <= j < s.len(),
        s[j].0@ == k,
        forall|i: int| j < i < s.len() ==> (#[trigger] s[i]).0@ != k,
    ensures
        view_entries(s).contains_key(k),
        view_entries(s)[k] == view_value(s[j].1),
    decreases s.len(),
{
    if j < s.len() - 1 {
        let p = s.subrange(0, s.len() - 1);
        assert(p[j] == s[j]);
        assert forall|i: int| j < i < p.len() implies (#[trigger] p[i]).0@ != k by {
            assert(p[i] == s[i]);
        }
        lemma_view_entries_last(p, j, k);
    }
}

/// Replacing the value of the last entry with key `k` updates the model at `k`.
pub proof fn lemma_view_entries_update(s: Seq<(String, Value)>, j: int, key: String, v: Value)
    requires
        0 <= j < s.len(),
        s[j].0@ == key@,
        forall|i: int| j < i < s.len() ==> (#[trigger] s[i]).0@ != key@,
    ensures
        view_entries(s.update(j, (key, v))) == view_entries(s).insert(key@, view_value(v)),
    decreases s.len(),
{
    let s2 = s.update(j, (key, v));
    let p = s.subrange(0, s.len() - 1);
    let p2 = s2.subrange(0, s2.len() - 1);
    if j == s.len() - 1 {
        assert(p2 =~= p);
        assert(view_entries(s2) =~= view_entries(s).insert(key@, view_value(v)));
    } else {
        assert(p2 =~= p.update(j, (key, v)));
        assert forall|i: int| j < i < p.len() implies (#[trigger] p[i]).0@ != key@ by {
            assert(p[i] == s[i]);
        }
        assert(p[j] == s[j]);
        lemma_view_entries_update(p, j, key, v);
        assert(s2[s2.len() - 1] == s[s.len() - 1]);
        assert(view_entries(s2) =~= view_entries(s).insert(key@, view_value(v)));
    }
}

pub proof fn lemma_view_entries_push(s: Seq<(String, Value)>, key: String, v: Value)
    ensures
        view_entries(s.push((key, v))) == view_entries(s).insert(key@, view_value(v)),
{
    assert(s.push((key, v)).subrange(0, s.len() as int) =~= s);
}

/// Copies a list of strings.
pub fn clone_strings(v: &Vec<String>) -> (r: Vec<String>)
    ensures
        r@ == v@,
        view_labels(r@) == view_labels(v@),
{
    let mut out: Vec<String> = Vec::new();
    for i in 0..v.len()
        invariant
            out@ == v@.subrange(0, i as int),
    {
        out.push(v[i].clone());
        assert(out@ =~= v@.subrange(0, i + 1));
    }
    assert(out@ =~= v@);
    out
}

impl ValueMap {
    /// Model of the map: each key is bound to the value of its last entry.
    pub open spec fn model(&self) -> Map<Seq<char>, ValueModel> {
        view_entries(self.entries@)
    }

    /// Keys of the entries, in order.
    pub open spec fn key_seq(&self) -> Seq<Seq<char>> {
        self.entries@.map_values(|e: (String, Value)| e.0@)
    }

    /// No key occurs twice.
    pub open spec fn wf(&self) -> bool {
        forall|i: int, j: int|
            0 <= i < j < self.entries@.len() ==> (#[trigger] self.entries@[i]).0@ != (#[trigger] self.entries@[j]).0@
    }

    /// Creates an empty map.
    pub fn new() -> (r: ValueMap)
        ensures
            r.model() == Map::<Seq<char>, ValueModel>::empty(),
            r.entries@.len() == 0,
            r.wf(),
    {
        ValueMap { entries: Vec::new() }
    }

    /// Index of the last entry with the given key.
    pub fn find_last(&self, key: &String) -> (r: Option<usize>)
        ensures
            match r {
                Some(j) => j < self.entries@.len() && self.entries@[j as int].0@ == key@
                    && forall|i: int| j < i < self.entries@.len() ==> (#[trigger] self.entries@[i]).0@ != key@,
                None => forall|i: int| 0 <= i < self.entries@.len() ==> (#[trigger] self.entries@[i]).0@ != key@,
            },
    {
        let mut i = self.entries.len();
        while i > 0
            invariant
                i <= self.entries@.len(),
                forall|k: int| i <= k < self.entries@.len() ==> (#[trigger] self.entries@[k]).0@ != key@,
            decreases i,
        {
            i = i - 1;
            if self.entries[i].0 == *key {
                return Some(i);
            }
        }
        None
    }

    /// Value bound to `key`, if any.
    pub fn get(&self, key: &String) -> (r: Option<&Value>)
        ensures
            match r {
                Some(v) => self.model().contains_key(key@) && self.model()[key@] == view_value(*v),
                None => !self.model().contains_key(key@),
            },
    {
        match self.find_last(key) {
            Some(j) => {
                proof {
                    lemma_view_entries_last(self.entries@, j as int, key@);
                }
                Some(&self.entries[j].1)
            },
            None => {
                proof {
                    lemma_view_entries_absent(self.entries@, key@);
                }
                None
            },
        }
    }

    /// Binds `key` to `value`, replacing a previous binding.
    pub fn insert(&mut self, key: String, value: Value)
        ensures
            final(self).model() == old(self).model().insert(key@, view_value(value)),
            old(self).wf() ==> final(self).wf(),
            final(self).key_seq().to_set() == old(self).key_seq().to_set().insert(key@),
    {
        match self.find_last(&key) {
            Some(j) => {
                proof {
                    lemma_view_entries_update(self.entries@, j as int, key, value);
                }
                let ghost old_keys = self.key_seq();
                self.entries.set(j, (key, value));
                proof {
                    assert(self.key_seq() =~= old_keys);
                    assert(old_keys.to_set().insert(key@) =~= old_keys.to_set()) by {
                        assert(old_keys[j as int] == key@);
                    }
                }
            },
            None => {
                proof {
                    lemma_view_entries_push(self.entries@, key, value);
                }
                let ghost old_keys = self.key_seq();
                self.entries.push((key, value));
                proof {
                    assert(self.key_seq() =~= old_keys.push(key@));
                    old_keys.lemma_push_to_set_commute(key@);
                }
            },
        }
    }

    /// Number of entries.
    pub fn len(&self) -> (r: usize)
        ensures
            r == self.entries@.len(),
    {
        self.entries.len()
    }

    /// Keys of the map, in the order of the entries.
    pub fn keys(&self) -> (r: Vec<String>)
        ensures
            view_labels(r@) == self.key_seq(),
    {
        let mut out: Vec<String> = Vec::new();
        for i in 0..self.entries.len()
            invariant
                out@.len() == i,
                forall|j: int| 0 <= j < i ==> (#[trigger] out@[j])@ == self.entries@[j].0@,
        {
            out.push(self.entries[i].0.clone());
        }
        assert(view_labels(out@) =~= self.key_seq());
        out
    }
}


impl ValueMap {
    /// Copies the map, entry by entry.
    pub fn deep_clone(&self) -> (r: ValueMap)
        ensures
            r.model() == self.model(),
            r.key_seq() == self.key_seq(),
            self.wf() ==> r.wf(),
        decreases self,
    {
        let mut out: Vec<(String, Value)> = Vec::new();
        for i in 0..self.entries.len()
            invariant
                out@.len() == i,
                forall|j: int| 0 <= j < i ==> (#[trigger] out@[j]).0@ == self.entries@[j].0@
                    && view_value(out@[j].1) == view_value(self.entries@[j].1),
        {
            assert(decreases_to!(self => self.entries@[i as int].1));
            let k = self.entries[i].0.clone();
            let v = self.entries[i].1.deep_clone();
            out.push((k, v));
        }
        proof {
            lemma_view_entries_ext(out@, self.entries@);
        }
        let r = ValueMap { entries: out };
        assert(r.key_seq() =~= self.key_seq());
        r
    }
}

impl Node {
    /// Copies the node.
    pub fn deep_clone(&self) -> (r: Node)
        ensures
            view_node(r) == view_node(*self),
        decreases self,
    {
        Node { key: self.key, labels: clone_strings(&self.labels), properties: self.properties.deep_clone() }
    }
}

impl Edge {
    /// Copies the edge.
    pub fn deep_clone(&self) -> (r: Edge)
        ensures
            view_edge(r) == view_edge(*self),
        decreases self,
    {
        Edge { key: self.key, labels: clone_strings(&self.labels), properties: self.properties.deep_clone() }
    }
}

impl Path {
    /// Copies the path.
    pub fn deep_clone(&self) -> (r: Path)
        ensures
            view_path(r) == view_path(*self),
        decreases self,
    {
        Path {
            key: self.key,
            source: self.source.deep_clone(),
            labels: clone_strings(&self.labels),
            properties: self.properties.deep_clone(),
            destination: self.destination.deep_clone(),
        }
    }
}

impl Value {
    /// Copies the value.
    pub fn deep_clone(&self) -> (r: Value)
        ensures
            r@ == self@,
        decreases self,
    {
        match self {
            Value::Null => Value::Null,
            Value::Key(k) => Value::Key(*k),
            Value::Boolean(b) => Value::Boolean(*b),
            Value::Integer(i) => Value::Integer(*i),
            Value::String(s) => Value::String(s.clone()),
            Value::Array(a) => {
                let mut out: Vec<Value> = Vec::new();
                for i in 0..a.len()
                    invariant
                        *self == Value::Array(*a),
                        out@.len() == i,
                        forall|j: int| 0 <= j < i ==> view_value(#[trigger] out@[j]) == view_value(a@[j]),
                {
                    proof {
                        assert(decreases_to!(*self => (*self)->Array_0));
                        assert(decreases_to!(*a => a@));
                        assert(decreases_to!(a@ => a@[i as int]));
                    }
                    out.push(a[i].deep_clone());
                }
                proof {
                    lemma_view_values_ext(out@, a@);
                }
                Value::Array(out)
            },
            Value::Mapping(m) => Value::Mapping(m.deep_clone()),
            Value::Node(n) => Value::Node(n.deep_clone()),
            Value::Edge(e) => Value::Edge(e.deep_clone()),
            Value::Path(p) => Value::Path(p.deep_clone()),
        }
    }

    /// `true` for the null value.
    pub fn is_null(&self) -> (r: bool)
        ensures
            r == (self@ is Null),
    {
        match self {
            Value::Null => true,
            _ => false,
        }
    }
}


/// A key is bound in the model of an association list when one of its entries carries it.
pub proof fn lemma_view_entries_present(s: Seq<(String, Value)>, j: int)
    requires
        0 <= j < s.len(),
    ensures
        view_entries(s).contains_key(s[j].0@),
    decreases s.len(),
{
    if j < s.len() - 1 {
        let p = s.subrange(0, s.len() - 1);
        assert(p[j] == s[j]);
        lemma_view_entries_present(p, j);
    }
}

/// Equality of two label lists.
pub fn labels_equal(a: &Vec<String>, b: &Vec<String>) -> (r: bool)
    ensures
        r == (view_labels(a@) == view_labels(b@)),
{
    if a.len() != b.len() {
        assert(view_labels(a@).len() != view_labels(b@).len());
        return false;
    }
    for i in 0..a.len()
        invariant
            a@.len() == b@.len(),
            forall|j: int| 0 <= j < i ==> (#[trigger] a@[j])@ == b@[j]@,
    {
        if a[i] != b[i] {
            assert(view_labels(a@)[i as int] != view_labels(b@)[i as int]);
            return false;
        }
    }
    assert(view_labels(a@) =~= view_labels(b@));
    true
}

impl ValueMap {
    /// Equality of the models of two maps.
    pub fn equals(&self, other: &ValueMap) -> (r: bool)
        ensures
            r == (self.model() == other.model()),
        decreases self, 1nat,
    {
        // Every key of `self` is bound in `other` to an equal value.
        for i in 0..self.entries.len()
            invariant
                forall|j: int| 0 <= j < i ==> other.model().contains_key((#[trigger] self.entries@[j]).0@)
                    && other.model()[self.entries@[j].0@] == self.model()[self.entries@[j].0@],
        {
            let key = &self.entries[i].0;
            let j = match self.find_last(key) { Some(j) => j, None => i };
            proof {
                lemma_view_entries_last(self.entries@, j as int, key@);
            }
            match other.find_last(key) {
                Some(m) => {
                    proof {
                        lemma_view_entries_last(other.entries@, m as int, key@);
                    }
                    assert(decreases_to!(self => self.entries@[j as int].1));
                    if !self.entries[j].1.equals(&other.entries[m].1) {
                        return false;
                    }
                },
                None => {
                    proof { lemma_view_entries_absent(other.entries@, key@); }
                    return false;
                },
            }
        }
        // Every key of `other` is bound in `self`.
        for i in 0..other.entries.len()
            invariant
                forall|j: int| 0 <= j < i ==> self.model().contains_key((#[trigger] other.entries@[j]).0@),
        {
            let key = &other.entries[i].0;
            match self.find_last(key) {
                Some(j) => {
                    proof {
                        lemma_view_entries_last(self.entries@, j as int, key@);
                    }
                },
                None => {
                    proof {
                        lemma_view_entries_absent(self.entries@, key@);
                        lemma_view_entries_present(other.entries@, i as int);
                    }
                    return false;
                },
            }
        }
        assert forall|k: Seq<char>| #[trigger] self.model().contains_key(k) implies
            other.model().contains_key(k) && other.model()[k] == self.model()[k] by {
            if forall|j: int| 0 <= j < self.entries@.len() ==> (#[trigger] self.entries@[j]).0@ != k {
                lemma_view_entries_absent(self.entries@, k);
            }
        }
        assert forall|k: Seq<char>| #[trigger] other.model().contains_key(k) implies
            self.model().contains_key(k) by {
            if forall|j: int| 0 <= j < other.entries@.len() ==> (#[trigger] other.entries@[j]).0@ != k {
                lemma_view_entries_absent(other.entries@, k);
            }
        }
        assert(self.model() =~= other.model());
        true
    }
}

impl Value {
    /// Equality of the models of two values.
    pub fn equals(&self, other: &Value) -> (r: bool)
        ensures
            r == (self@ == other@),
        decreases self, 2nat,
    {
        match (self, other) {
            (Value::Null, Value::Null) => true,
            (Value::Key(a), Value::Key(b)) => { let r = *a == *b; assert(r == (self@ == other@)); r },
            (Value::Boolean(a), Value::Boolean(b)) => { let r = *a == *b; assert(r == (self@ == other@)); r },
            (Value::Integer(a), Value::Integer(b)) => { let r = *a == *b; assert(r == (self@ == other@)); r },
            (Value::String(a), Value::String(b)) => { let r = *a == *b; assert(r == (self@ == other@)); r },
            (Value::Array(a), Value::Array(b)) => {
                proof {
                    lemma_view_values_index(a@);
                    lemma_view_values_index(b@);
                }
                if a.len() != b.len() {
                    assert(view_values(a@).len() != view_values(b@).len());
                    return false;
                }
                for i in 0..a.len()
                    invariant
                        *self == Value::Array(*a),
                        *other == Value::Array(*b),
                        a@.len() == b@.len(),
                        view_values(a@).len() == a@.len(),
                        view_values(b@).len() == b@.len(),
                        forall|j: int| 0 <= j < a@.len() ==> #[trigger] view_values(a@)[j] == view_value(a@[j]),
                        forall|j: int| 0 <= j < b@.len() ==> #[trigger] view_values(b@)[j] == view_value(b@[j]),
                        forall|j: int| 0 <= j < i ==> view_value(#[trigger] a@[j]) == view_value(b@[j]),
                {
                    proof {
                        assert(decreases_to!(*self => (*self)->Array_0));
                        assert(decreases_to!(*a => a@));
                        assert(decreases_to!(a@ => a@[i as int]));
                    }
                    if !a[i].equals(&b[i]) {
                        assert(view_values(a@)[i as int] != view_values(b@)[i as int]);
                        return false;
                    }
                }
                proof {
                    lemma_view_values_ext(a@, b@);
                }
                assert(self@ == other@);
                true
            },
            (Value::Mapping(a), Value::Mapping(b)) => {
                assert(decreases_to!(*self => (*self)->Mapping_0));
                let r = a.equals(b);
                assert(r == (self@ == other@));
                r
            },
            (Value::Node(a), Value::Node(b)) => {
                assert(decreases_to!(*self => (*self)->Node_0));
                assert(decreases_to!(*a => a.properties));
                assert(view_node(*a) == NodeModel { key: a.key, labels: view_labels(a.labels@), properties: a.properties.model() });
                assert(view_node(*b) == NodeModel { key: b.key, labels: view_labels(b.labels@), properties: b.properties.model() });
                let r = a.key == b.key && labels_equal(&a.labels, &b.labels) && a.properties.equals(&b.properties);
                assert(self@ == ValueModel::Node(view_node(*a)));
                assert(r == (self@ == other@));
                r
            },
            (Value::Edge(a), Value::Edge(b)) => {
                assert(decreases_to!(*self => (*self)->Edge_0));
                assert(decreases_to!(*a => a.properties));
                assert(view_edge(*a) == NodeModel { key: a.key, labels: view_labels(a.labels@), properties: a.properties.model() });
                assert(view_edge(*b) == NodeModel { key: b.key, labels: view_labels(b.labels@), properties: b.properties.model() });
                let r = a.key == b.key && labels_equal(&a.labels, &b.labels) && a.properties.equals(&b.properties);
                assert(self@ == ValueModel::Edge(view_edge(*a)));
                assert(r == (self@ == other@));
                r
            },
            (Value::Path(a), Value::Path(b)) => {
                assert(decreases_to!(*self => (*self)->Path_0));
                assert(decreases_to!(*a => a.properties));
                assert(decreases_to!(*a => a.source));
                assert(decreases_to!(a.source => a.source.properties));
                assert(decreases_to!(*a => a.destination));
                assert(decreases_to!(a.destination => a.destination.properties));
                assert(view_node(a.source) == NodeModel { key: a.source.key, labels: view_labels(a.source.labels@), properties: a.source.properties.model() });
                assert(view_node(b.source) == NodeModel { key: b.source.key, labels: view_labels(b.source.labels@), properties: b.source.properties.model() });
                assert(view_node(a.destination) == NodeModel { key: a.destination.key, labels: view_labels(a.destination.labels@), properties: a.destination.properties.model() });
                assert(view_node(b.destination) == NodeModel { key: b.destination.key, labels: view_labels(b.destination.labels@), properties: b.destination.properties.model() });
                let r = a.key == b.key && labels_equal(&a.labels, &b.labels) && a.properties.equals(&b.properties)
                    && a.source.key == b.source.key && labels_equal(&a.source.labels, &b.source.labels)
                    && a.source.properties.equals(&b.source.properties)
                    && a.destination.key == b.destination.key
                    && labels_equal(&a.destination.labels, &b.destination.labels)
                    && a.destination.properties.equals(&b.destination.properties);
                assert(self@ == ValueModel::Path(view_path(*a)));
                assert(view_path(*a) == PathModel { key: a.key, source: view_node(a.source), labels: view_labels(a.labels@), properties: a.properties.model(), destination: view_node(a.destination) });
                assert(view_path(*b) == PathModel { key: b.key, source: view_node(b.source), labels: view_labels(b.labels@), properties: b.properties.model(), destination: view_node(b.destination) });
                assert(r == (self@ == other@));
                r
            },
            _ => { assert(self@ != other@); false },
        }
    }
}


impl ValueMap {
    /// Keys of the map, each once, in the order of their last entries.
    pub fn distinct_keys(&self) -> (r: Vec<String>)
        ensures
            view_labels(r@).no_duplicates(),
            view_labels(r@).to_set() == self.model().dom(),
            self.model().dom().finite(),
            self.model().dom().len() == r@.len(),
    {
        let mut out: Vec<String> = Vec::new();
        let n = self.entries.len();
        for i in 0..n
            invariant
                n == self.entries@.len(),
                view_labels(out@).no_duplicates(),
                forall|k: Seq<char>| view_labels(out@).contains(k) <==>
                    (exists|j: int| 0 <= j < i && #[trigger] self.entries@[j].0@ == k
                        && forall|l: int| j < l < n ==> (#[trigger] self.entries@[l]).0@ != k),
        {
            let mut last = true;
            let mut l = i + 1;
            while l < n
                invariant
                    n == self.entries@.len(),
                    i < l <= n,
                    last == forall|m: int| i < m < l ==> (#[trigger] self.entries@[m]).0@ != self.entries@[i as int].0@,
                decreases n - l,
            {
                if self.entries[l].0 == self.entries[i].0 {
                    last = false;
                }
                l = l + 1;
            }
            if last {
                let ghost before = view_labels(out@);
                let k = self.entries[i].0.clone();
                proof {
                    assert(!before.contains(k@)) by {
                        if before.contains(k@) {
                            let j = choose|j: int| 0 <= j < i && #[trigger] self.entries@[j].0@ == k@
                                && forall|l: int| j < l < n ==> (#[trigger] self.entries@[l]).0@ != k@;
                            assert(self.entries@[i as int].0@ == k@);
                        }
                    }
                }
                out.push(k);
                proof {
                    assert(view_labels(out@) =~= before.push(k@));
                    assert forall|x: Seq<char>| view_labels(out@).contains(x) <==>
                        (exists|j: int| 0 <= j < i + 1 && #[trigger] self.entries@[j].0@ == x
                            && forall|l: int| j < l < n ==> (#[trigger] self.entries@[l]).0@ != x) by {
                        if x == k@ {
                            assert(view_labels(out@)[view_labels(out@).len() - 1] == x);
                            assert(self.entries@[i as int].0@ == x);
                            assert(forall|l: int| i < l < n ==> (#[trigger] self.entries@[l]).0@ != x);
                        } else {
                            if view_labels(out@).contains(x) {
                                let p = choose|p: int| 0 <= p < view_labels(out@).len() && view_labels(out@)[p] == x;
                                assert(p < before.len());
                                assert(before[p] == x);
                                assert(before.contains(x));
                            }
                            if exists|j: int| 0 <= j < i + 1 && #[trigger] self.entries@[j].0@ == x
                                && forall|l: int| j < l < n ==> (#[trigger] self.entries@[l]).0@ != x {
                                let j = choose|j: int| 0 <= j < i + 1 && #[trigger] self.entries@[j].0@ == x
                                    && forall|l: int| j < l < n ==> (#[trigger] self.entries@[l]).0@ != x;
                                assert(j != i);
                                assert(before.contains(x));
                                let p = choose|p: int| 0 <= p < before.len() && before[p] == x;
                                assert(view_labels(out@)[p] == x);
                            }
                        }
                    }
                }
            } else {
                proof {
                    assert forall|x: Seq<char>| view_labels(out@).contains(x) <==>
                        (exists|j: int| 0 <= j < i + 1 && #[trigger] self.entries@[j].0@ == x
                            && forall|l: int| j < l < n ==> (#[trigger] self.entries@[l]).0@ != x) by {
                        if exists|j: int| 0 <= j < i + 1 && #[trigger] self.entries@[j].0@ == x
                            && forall|l: int| j < l < n ==> (#[trigger] self.entries@[l]).0@ != x {
                            let j = choose|j: int| 0 <= j < i + 1 && #[trigger] self.entries@[j].0@ == x
                                && forall|l: int| j < l < n ==> (#[trigger] self.entries@[l]).0@ != x;
                            if j == i {
                                let m = choose|m: int| i < m < n && (#[trigger] self.entries@[m]).0@ == self.entries@[i as int].0@;
                                assert(self.entries@[m].0@ == x);
                            }
                        }
                    }
                }
            }
        }
        proof {
            assert forall|k: Seq<char>| #[trigger] view_labels(out@).to_set().contains(k) <==> self.model().dom().contains(k) by {
                if view_labels(out@).contains(k) {
                    let j = choose|j: int| 0 <= j < n && #[trigger] self.entries@[j].0@ == k
                        && forall|l: int| j < l < n ==> (#[trigger] self.entries@[l]).0@ != k;
                    lemma_view_entries_present(self.entries@, j);
                }
                if self.model().dom().contains(k) {
                    if forall|j: int| 0 <= j < n ==> (#[trigger] self.entries@[j]).0@ != k {
                        lemma_view_entries_absent(self.entries@, k);
                    }
                    let j0 = choose|j: int| 0 <= j < n && (#[trigger] self.entries@[j]).0@ == k;
                    let j = last_index_of(self.entries@, k, j0);
                    assert(view_labels(out@).contains(k));
                }
            }
            assert(view_labels(out@).to_set() =~= self.model().dom());
            view_labels(out@).unique_seq_to_set();
        }
        out
    }
}

/// Index of the last entry with key `k`, at or after `j`.
pub proof fn last_index_of(s: Seq<(String, Value)>, k: Seq<char>, j: int) -> (r: int)
    requires
        0 <= j < s.len(),
        s[j].0@ == k,
    ensures
        j <= r < s.len(),
        s[r].0@ == k,
        forall|l: int| r < l < s.len() ==> (#[trigger] s[l]).0@ != k,
    decreases s.len() - j,
{
    if exists|l: int| j < l < s.len() && (#[trigger] s[l]).0@ == k {
        let l = choose|l: int| j < l < s.len() && (#[trigger] s[l]).0@ == k;
        last_index_of(s, k, l)
    } else {
        j
    }
}


/// A map gives back the value bound by its last insertion, and leaves the other keys unchanged.
pub proof fn lemma_insert_get(m: Map<Seq<char>, ValueModel>, k: Seq<char>, v: ValueModel, other: Seq<char>)
    ensures
        m.insert(k, v).contains_key(k),
        m.insert(k, v)[k] == v,
        other != k ==> (m.insert(k, v).contains_key(other) == m.contains_key(other)),
        other != k && m.contains_key(other) ==> m.insert(k, v)[other] == m[other],
{
}

} // verus!
