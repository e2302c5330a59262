use vstd::prelude::*;
use crate::error::{Error, InternalError};
use crate::value::{
    lemma_view_entries_absent, lemma_view_entries_last, lemma_view_entries_present, view_labels, view_node, view_path,
    Node, Path, PathModel, ValueMap, ValueModel,
};

verus! {

/// Model of a node selection: which keys, labels and properties a node must have.
pub struct NodeQueryModel {
    pub keys: Option<Seq<u128>>,
    pub labels: Option<Seq<Seq<char>>>,
    pub properties: Option<Map<Seq<char>, ValueModel>>,
    pub select_all: bool,
}

/// Model of an edge selection.
pub struct EdgeQueryModel {
    pub keys: Option<Seq<u128>>,
    pub labels: Option<Seq<Seq<char>>>,
    pub properties: Option<Map<Seq<char>, ValueModel>>,
    pub source: NodeQueryModel,
    pub destination: NodeQueryModel,
}

/// `labels` holds every label of `required`.
pub open spec fn has_all_labels(labels: Seq<Seq<char>>, required: Seq<Seq<char>>) -> bool {
    forall|i: int| 0 <= i < required.len() ==> labels.contains(#[trigger] required[i])
}

/// `properties` binds every key of `required` to the same value.
pub open spec fn has_all_properties(
    properties: Map<Seq<char>, ValueModel>,
    required: Map<Seq<char>, ValueModel>,
) -> bool {
    forall|k: Seq<char>| #[trigger] required.contains_key(k) ==> properties.contains_key(k) && properties[k] == required[k]
}

/// Whether a node is selected by a node query.
pub open spec fn node_query_matches(q: NodeQueryModel, key: u128, labels: Seq<Seq<char>>, properties: Map<Seq<char>, ValueModel>) -> bool {
    q.select_all || {
        &&& (q.keys matches Some(keys) ==> keys.contains(key))
        &&& (q.labels matches Some(required) ==> has_all_labels(labels, required))
        &&& (q.properties matches Some(required) ==> has_all_properties(properties, required))
    }
}

/// Whether a single-edge path is selected by an edge query.
pub open spec fn edge_query_matches(q: EdgeQueryModel, p: PathModel) -> bool {
    &&& (q.keys matches Some(keys) ==> keys.contains(p.key))
    &&& (q.labels matches Some(required) ==> has_all_labels(p.labels, required))
    &&& (q.properties matches Some(required) ==> has_all_properties(p.properties, required))
    &&& node_query_matches(q.source, p.source.key, p.source.labels, p.source.properties)
    &&& node_query_matches(q.destination, p.destination.key, p.destination.labels, p.destination.properties)
}

/// Selection of nodes in a graph.
#[derive(Debug)]
pub struct SelectNodeQuery {
    keys: Option<Vec<u128>>,
    labels: Option<Vec<String>>,
    properties: Option<ValueMap>,
    select_all: bool,
}

/// Selection of edges in a graph.
#[derive(Debug)]
pub struct SelectEdgeQuery {
    keys: Option<Vec<u128>>,
    labels: Option<Vec<String>>,
    properties: Option<ValueMap>,
    source: SelectNodeQuery,
    destination: SelectNodeQuery,
}

fn labels_contain(labels: &Vec<String>, label: &String) -> (r: bool)
    ensures
        r == view_labels(labels@).contains(label@),
{
    for i in 0..labels.len()
        invariant
            forall|j: int| 0 <= j < i ==> (#[trigger] labels@[j])@ != label@,
    {
        if labels[i] == *label {
            assert(view_labels(labels@)[i as int] == label@);
            return true;
        }
    }
    assert forall|j: int| 0 <= j < view_labels(labels@).len() implies #[trigger] view_labels(labels@)[j] != label@ by {
        assert(view_labels(labels@)[j] == labels@[j]@);
    }
    false
}

fn contains_all_labels(labels: &Vec<String>, required: &Vec<String>) -> (r: bool)
    ensures
        r == has_all_labels(view_labels(labels@), view_labels(required@)),
{
    for i in 0..required.len()
        invariant
            forall|j: int| 0 <= j < i ==> view_labels(labels@).contains(#[trigger] view_labels(required@)[j]),
    {
        if !labels_contain(labels, &required[i]) {
            assert(view_labels(required@)[i as int] == required@[i as int]@);
            return false;
        }
    }
    true
}

fn contains_key(keys: &Vec<u128>, key: u128) -> (r: bool)
    ensures
        r == keys@.contains(key),
{
    for i in 0..keys.len()
        invariant
            forall|j: int| 0 <= j < i ==> keys@[j] != key,
    {
        if keys[i] == key {
            return true;
        }
    }
    false
}

fn contains_all_properties(properties: &ValueMap, required: &ValueMap) -> (r: bool)
    ensures
        r == has_all_properties(properties.model(), required.model()),
{
    for i in 0..required.entries.len()
        invariant
            forall|j: int| 0 <= j < i ==> {
                let k = (#[trigger] required.entries@[j]).0@;
                properties.model().contains_key(k) && properties.model()[k] == required.model()[k]
            },
    {
        let key = &required.entries[i].0;
        let j = match required.find_last(key) { Some(j) => j, None => i };
        proof {
            lemma_view_entries_last(required.entries@, j as int, key@);
        }
        match properties.get(key) {
            Some(v) => {
                if !v.equals(&required.entries[j].1) {
                    return false;
                }
            },
            None => {
                proof { lemma_view_entries_present(required.entries@, i as int); }
                return false;
            },
        }
    }
    assert forall|k: Seq<char>| #[trigger] required.model().contains_key(k) implies
        properties.model().contains_key(k) && properties.model()[k] == required.model()[k] by {
        if forall|j: int| 0 <= j < required.entries@.len() ==> (#[trigger] required.entries@[j]).0@ != k {
            lemma_view_entries_absent(required.entries@, k);
        }
    }
    true
}

fn matches_node(
    q: &SelectNodeQuery,
    key: u128,
    labels: &Vec<String>,
    properties: &ValueMap,
) -> (r: bool)
    ensures
        r == node_query_matches(q@, key, view_labels(labels@), properties.model()),
{
    if q.select_all {
        return true;
    }
    if let Some(keys) = &q.keys {
        if !contains_key(keys, key) {
            return false;
        }
    }
    if let Some(required) = &q.labels {
        if !contains_all_labels(labels, required) {
            return false;
        }
    }
    if let Some(required) = &q.properties {
        if !contains_all_properties(properties, required) {
            return false;
        }
    }
    true
}

impl View for SelectNodeQuery {
    type V = NodeQueryModel;

    closed spec fn view(&self) -> NodeQueryModel {
        NodeQueryModel {
            keys: match self.keys { Some(k) => Some(k@), None => None },
            labels: match self.labels { Some(l) => Some(view_labels(l@)), None => None },
            properties: match self.properties { Some(p) => Some(p.model()), None => None },
            select_all: self.select_all,
        }
    }
}

impl View for SelectEdgeQuery {
    type V = EdgeQueryModel;

    closed spec fn view(&self) -> EdgeQueryModel {
        EdgeQueryModel {
            keys: match self.keys { Some(k) => Some(k@), None => None },
            labels: match self.labels { Some(l) => Some(view_labels(l@)), None => None },
            properties: match self.properties { Some(p) => Some(p.model()), None => None },
            source: self.source@,
            destination: self.destination@,
        }
    }
}

/// A copy of keys.
fn copy_keys(keys: &Option<Vec<u128>>) -> (r: Option<Vec<u128>>)
    ensures
        match (*keys, r) {
            (Some(a), Some(b)) => a@ == b@,
            (None, None) => true,
            _ => false,
        },
{
    match keys {
        None => None,
        Some(k) => {
            let mut out: Vec<u128> = Vec::new();
            for i in 0..k.len()
                invariant
                    out@ == k@.take(i as int),
            {
                out.push(k[i]);
                assert(out@ =~= k@.take(i + 1));
            }
            assert(k@.take(k@.len() as int) =~= k@);
            Some(out)
        },
    }
}

/// A copy of labels.
fn copy_labels(labels: &Option<Vec<String>>) -> (r: Option<Vec<String>>)
    ensures
        match (*labels, r) {
            (Some(a), Some(b)) => view_labels(a@) == view_labels(b@),
            (None, None) => true,
            _ => false,
        },
{
    match labels {
        None => None,
        Some(l) => Some(crate::value::clone_strings(l)),
    }
}

/// A copy of properties.
fn copy_properties(properties: &Option<ValueMap>) -> (r: Option<ValueMap>)
    ensures
        match (*properties, r) {
            (Some(a), Some(b)) => a.model() == b.model(),
            (None, None) => true,
            _ => false,
        },
{
    match properties {
        None => None,
        Some(p) => Some(p.deep_clone()),
    }
}

impl SelectNodeQuery {
    /// A copy of the query.
    pub fn duplicate(&self) -> (r: SelectNodeQuery)
        ensures
            r@ == self@,
    {
        SelectNodeQuery {
            keys: copy_keys(&self.keys),
            labels: copy_labels(&self.labels),
            properties: copy_properties(&self.properties),
            select_all: self.select_all,
        }
    }

    /// The query selects every node.
    pub fn is_select_all(&self) -> (r: bool)
        ensures
            r == self@.select_all,
    {
        self.select_all
    }

    /// The query holds no criterion and does not select all.
    pub fn is_select_none(&self) -> (r: bool)
        ensures
            r == (self@.keys is None && self@.labels is None && self@.properties is None && !self@.select_all),
    {
        self.keys.is_none() && self.labels.is_none() && self.properties.is_none() && !self.select_all
    }

    /// The query selects by keys only.
    pub fn is_select_only_keys(&self) -> (r: bool)
        ensures
            r == (self@.labels is None && self@.properties is None && !self@.select_all),
    {
        self.labels.is_none() && self.properties.is_none() && !self.select_all
    }

    /// Selects every node.
    pub fn select_all() -> (r: SelectNodeQuery)
        ensures
            r@ == (NodeQueryModel { keys: None, labels: None, properties: None, select_all: true }),
    {
        SelectNodeQuery { keys: None, labels: None, properties: None, select_all: true }
    }

    /// Selects no node.
    pub fn select_none() -> (r: SelectNodeQuery)
        ensures
            r@ == (NodeQueryModel { keys: None, labels: None, properties: None, select_all: false }),
    {
        SelectNodeQuery { keys: None, labels: None, properties: None, select_all: false }
    }

    /// Selects the nodes with one of the given keys.
    pub fn select_keys(keys: Vec<u128>) -> (r: SelectNodeQuery)
        ensures
            r@ == (NodeQueryModel { keys: Some(keys@), labels: None, properties: None, select_all: false }),
    {
        SelectNodeQuery { keys: Some(keys), labels: None, properties: None, select_all: false }
    }

    /// Selects the nodes that hold all the given labels.
    pub fn select_labels(labels: Vec<String>) -> (r: SelectNodeQuery)
        ensures
            r@ == (NodeQueryModel { keys: None, labels: Some(view_labels(labels@)), properties: None, select_all: false }),
    {
        SelectNodeQuery { keys: None, labels: Some(labels), properties: None, select_all: false }
    }

    /// Selects the nodes that hold all the given labels and properties.
    pub fn select_labels_properties(labels: Vec<String>, properties: ValueMap) -> (r: SelectNodeQuery)
        ensures
            r@ == (NodeQueryModel {
                keys: None,
                labels: Some(view_labels(labels@)),
                properties: Some(properties.model()),
                select_all: false,
            }),
    {
        SelectNodeQuery { keys: None, labels: Some(labels), properties: Some(properties), select_all: false }
    }

    /// Whether the node is selected by the query.
    pub fn is_match(&self, node: &Node) -> (r: bool)
        ensures
            r == node_query_matches(self@, node.key, view_labels(node.labels@), node.properties.model()),
    {
        matches_node(self, node.key, &node.labels, &node.properties)
    }
}

impl SelectEdgeQuery {
    /// A copy of the query.
    pub fn duplicate(&self) -> (r: SelectEdgeQuery)
        ensures
            r@ == self@,
    {
        SelectEdgeQuery {
            keys: copy_keys(&self.keys),
            labels: copy_labels(&self.labels),
            properties: copy_properties(&self.properties),
            source: self.source.duplicate(),
            destination: self.destination.duplicate(),
        }
    }
    /// The query selects by keys only, with any source and destination.
    pub fn is_select_only_keys(&self) -> (r: bool)
        ensures
            r == (self@.keys is Some && self@.labels is None && self@.properties is None
                && self@.source.select_all && self@.destination.select_all),
    {
        self.keys.is_some() && self.labels.is_none() && self.properties.is_none() && self.source.select_all
            && self.destination.select_all
    }

    /// Selects every edge.
    pub fn select_all() -> (r: SelectEdgeQuery)
        ensures
            r@ == (EdgeQueryModel {
                keys: None,
                labels: None,
                properties: None,
                source: NodeQueryModel { keys: None, labels: None, properties: None, select_all: true },
                destination: NodeQueryModel { keys: None, labels: None, properties: None, select_all: true },
            }),
    {
        SelectEdgeQuery {
            keys: None,
            labels: None,
            properties: None,
            source: SelectNodeQuery::select_all(),
            destination: SelectNodeQuery::select_all(),
        }
    }

    /// Selects no edge.
    pub fn select_none() -> (r: SelectEdgeQuery)
        ensures
            r@ == (EdgeQueryModel {
                keys: None,
                labels: None,
                properties: None,
                source: NodeQueryModel { keys: None, labels: None, properties: None, select_all: false },
                destination: NodeQueryModel { keys: None, labels: None, properties: None, select_all: false },
            }),
    {
        SelectEdgeQuery {
            keys: None,
            labels: None,
            properties: None,
            source: SelectNodeQuery::select_none(),
            destination: SelectNodeQuery::select_none(),
        }
    }

    /// Selects the edges with one of the given keys.
    pub fn select_keys(keys: Vec<u128>) -> (r: SelectEdgeQuery)
        ensures
            r@ == (EdgeQueryModel {
                keys: Some(keys@),
                labels: None,
                properties: None,
                source: NodeQueryModel { keys: None, labels: None, properties: None, select_all: true },
                destination: NodeQueryModel { keys: None, labels: None, properties: None, select_all: true },
            }),
    {
        SelectEdgeQuery {
            keys: Some(keys),
            labels: None,
            properties: None,
            source: SelectNodeQuery::select_all(),
            destination: SelectNodeQuery::select_all(),
        }
    }

    /// Selects the edges whose source is selected by `source_query`.
    pub fn select_source_keys(source_query: SelectNodeQuery) -> (r: SelectEdgeQuery)
        ensures
            r@ == (EdgeQueryModel {
                keys: None,
                labels: None,
                properties: None,
                source: source_query@,
                destination: NodeQueryModel { keys: None, labels: None, properties: None, select_all: true },
            }),
    {
        SelectEdgeQuery {
            keys: None,
            labels: None,
            properties: None,
            source: source_query,
            destination: SelectNodeQuery::select_all(),
        }
    }

    /// Selects the edges with one of the given keys, between selected nodes.
    pub fn select_source_destination_keys(
        source_query: SelectNodeQuery,
        keys: Vec<u128>,
        destination_query: SelectNodeQuery,
    ) -> (r: SelectEdgeQuery)
        ensures
            r@ == (EdgeQueryModel {
                keys: Some(keys@),
                labels: None,
                properties: None,
                source: source_query@,
                destination: destination_query@,
            }),
    {
        SelectEdgeQuery { keys: Some(keys), labels: None, properties: None, source: source_query, destination: destination_query }
    }

    /// Selects the edges with the given labels and properties, between selected nodes.
    pub fn select_source_destination_labels_properties(
        source_query: SelectNodeQuery,
        labels: Vec<String>,
        properties: ValueMap,
        destination_query: SelectNodeQuery,
    ) -> (r: SelectEdgeQuery)
        ensures
            r@ == (EdgeQueryModel {
                keys: None,
                labels: Some(view_labels(labels@)),
                properties: Some(properties.model()),
                source: source_query@,
                destination: destination_query@,
            }),
    {
        SelectEdgeQuery {
            keys: None,
            labels: Some(labels),
            properties: Some(properties),
            source: source_query,
            destination: destination_query,
        }
    }

    /// Whether the path is selected by the query.
    pub fn is_match(&self, edge: &Path) -> (r: bool)
        ensures
            r == edge_query_matches(self@, view_path(*edge)),
    {
        proof {
            assert(view_path(*edge) == PathModel {
                key: edge.key,
                source: view_node(edge.source),
                labels: view_labels(edge.labels@),
                properties: edge.properties.model(),
                destination: view_node(edge.destination),
            });
            assert(view_node(edge.source).properties == edge.source.properties.model());
            assert(view_node(edge.destination).properties == edge.destination.properties.model());
        }
        if let Some(keys) = &self.keys {
            if !contains_key(keys, edge.key) {
                return false;
            }
        }
        if let Some(required) = &self.labels {
            if !contains_all_labels(&edge.labels, required) {
                return false;
            }
        }
        if let Some(required) = &self.properties {
            if !contains_all_properties(&edge.properties, required) {
                return false;
            }
        }
        matches_node(&self.source, edge.source.key, &edge.source.labels, &edge.source.properties)
            && matches_node(&self.destination, edge.destination.key, &edge.destination.labels, &edge.destination.properties)
    }
}

/// A read transaction of a store.
pub trait ReadTransaction: Sized {
    fn discard(self) -> Result<(), Error>;
}

/// A write transaction of a store.
pub trait WriteTransaction: ReadTransaction {
    fn commit(self) -> Result<(), Error>;
}

/// Box that holds a read or a write transaction of a store.
pub enum TransactionBox<TRead, TWrite> {
    Read(TRead),
    Write(TWrite),
}

impl<TRead, TWrite> TransactionBox<TRead, TWrite> {
    /// Wraps a read transaction.
    pub fn from_read(read: TRead) -> (r: Self)
        ensures
            r == TransactionBox::<TRead, TWrite>::Read(read),
    {
        TransactionBox::Read(read)
    }

    /// Wraps a write transaction.
    pub fn from_write(write: TWrite) -> (r: Self)
        ensures
            r == TransactionBox::<TRead, TWrite>::Write(write),
    {
        TransactionBox::Write(write)
    }

    /// The write transaction, or an error for a read transaction.
    pub fn try_into_write(&mut self) -> (r: Result<&mut TWrite, Error>)
        ensures
            match *old(self) {
                TransactionBox::Read(_) => r matches Err(Error::Internal(InternalError::NotWriteTransaction))
                    && *final(self) == *old(self),
                TransactionBox::Write(w) => r matches Ok(t) && *t == w
                    && *final(self) == TransactionBox::<TRead, TWrite>::Write(*final(t)),
            },
    {
        match self {
            TransactionBox::Read(_) => Err(Error::Internal(InternalError::NotWriteTransaction)),
            TransactionBox::Write(write) => Ok(write),
        }
    }
}

} // verus!
