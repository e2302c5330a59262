use vstd::prelude::*;
use crate::ast::{LabelExpression, LabelModel, VariableIdentifier};
use crate::error::{kind_of, outcome_matches, result_matches, CompileTimeError, Error, ErrorKind, InternalError};
use crate::expression_analyser::{analyse_spec, Analyser, ExpressionType};
use crate::functions::Manager;
use crate::patterns::{properties_equal, var_id, EdgeDirectivity, EdgePattern, NamedExpression, NodePattern, Pattern, PatternShape};

verus! {

broadcast use vstd::std_specs::vec::group_vec_axioms;

/// Model of what a variable was declared from.
pub enum ContentModel {
    Node(PatternShape),
    Edge(PatternShape),
    Empty,
}

/// Model of a variable known to the compiler.
pub struct VariableModel {
    pub content: ContentModel,
    pub variable_type: ExpressionType,
    /// Column of the variable in a row.
    pub col_id: nat,
    /// Whether the variable is expected to hold a value, or was only declared.
    pub is_set: bool,
}

/// What a variable was declared from.
#[derive(Debug)]
pub enum VariableContent {
    Node(NodePattern),
    Edge(EdgePattern),
    Empty,
}

/// A variable known to the compiler.
#[derive(Debug)]
pub struct Variable {
    content: VariableContent,
    variable_type: ExpressionType,
    col_id: usize,
    is_set: bool,
}

impl View for Variable {
    type V = VariableModel;

    closed spec fn view(&self) -> VariableModel {
        VariableModel {
            content: match self.content {
                VariableContent::Node(n) => ContentModel::Node(n.shape()),
                VariableContent::Edge(e) => ContentModel::Edge(e.shape()),
                VariableContent::Empty => ContentModel::Empty,
            },
            variable_type: self.variable_type,
            col_id: self.col_id as nat,
            is_set: self.is_set,
        }
    }
}

/// Shape of a pattern without labels and properties.
pub open spec fn empty_shape() -> PatternShape {
    PatternShape { labels: LabelModel::Empty, properties: None }
}

/// A variable of the given type, not yet set.
pub open spec fn variable_from_expression(t: ExpressionType, col_id: nat) -> VariableModel {
    VariableModel {
        content: match t {
            ExpressionType::Edge => ContentModel::Edge(empty_shape()),
            ExpressionType::Node => ContentModel::Node(empty_shape()),
            _ => ContentModel::Empty,
        },
        variable_type: t,
        col_id,
        is_set: false,
    }
}

/// The same variable, marked as set.
pub open spec fn marked_set(v: VariableModel) -> VariableModel {
    VariableModel { is_set: true, ..v }
}

fn empty_node_pattern() -> (r: NodePattern)
    ensures
        r.variable is None,
        r.shape() == empty_shape(),
{
    NodePattern { variable: None, labels: LabelExpression::Empty, properties: None }
}

impl Variable {
    /// A variable declared by a node pattern.
    pub fn from_node(value: NodePattern, col_id: usize) -> (r: Variable)
        ensures
            r@ == (VariableModel { content: ContentModel::Node(value.shape()), variable_type: ExpressionType::Node, col_id: col_id as nat, is_set: false }),
    {
        Variable { content: VariableContent::Node(value), variable_type: ExpressionType::Node, col_id, is_set: false }
    }

    /// A variable declared by an edge pattern.
    pub fn from_edge(value: EdgePattern, col_id: usize) -> (r: Variable)
        ensures
            r@ == (VariableModel { content: ContentModel::Edge(value.shape()), variable_type: ExpressionType::Edge, col_id: col_id as nat, is_set: false }),
    {
        Variable { content: VariableContent::Edge(value), variable_type: ExpressionType::Edge, col_id, is_set: false }
    }

    /// A variable holding the result of an expression of the given type.
    pub fn from_expression(value: ExpressionType, col_id: usize) -> (r: Variable)
        ensures
            r@ == variable_from_expression(value, col_id as nat),
    {
        match value {
            ExpressionType::Edge => Variable {
                content: VariableContent::Edge(EdgePattern {
                    variable: None,
                    labels: LabelExpression::Empty,
                    properties: None,
                    source: empty_node_pattern(),
                    destination: empty_node_pattern(),
                    directivity: EdgeDirectivity::Directed,
                }),
                variable_type: ExpressionType::Edge,
                col_id,
                is_set: false,
            },
            ExpressionType::Node => Variable {
                content: VariableContent::Node(empty_node_pattern()),
                variable_type: ExpressionType::Node,
                col_id,
                is_set: false,
            },
            variable_type => Variable { content: VariableContent::Empty, variable_type, col_id, is_set: false },
        }
    }

    /// Column of the variable.
    pub fn col_id(&self) -> (r: usize)
        ensures
            r == self@.col_id,
    {
        self.col_id
    }

    /// The variable, marked as set.
    pub fn mark_set(self) -> (r: Variable)
        ensures
            r@ == marked_set(self@),
    {
        let mut s = self;
        s.is_set = true;
        s
    }
}

/// Ids of a sequence of entries.
pub open spec fn entry_ids(s: Seq<(VariableIdentifier, Variable)>) -> Seq<u64> {
    s.map_values(|e: (VariableIdentifier, Variable)| e.0@.1)
}

/// Index of the entry with the given id.
pub open spec fn entry_index(s: Seq<(VariableIdentifier, Variable)>, id: u64) -> int {
    choose|i: int| 0 <= i < s.len() && s[i].0@.1 == id
}

/// Map from id to variable of a sequence of entries with distinct ids.
pub open spec fn entries_model(s: Seq<(VariableIdentifier, Variable)>) -> Map<u64, VariableModel> {
    Map::new(|k: u64| entry_ids(s).contains(k), |k: u64| s[entry_index(s, k)].1@)
}

/// The entries have distinct ids.
pub open spec fn distinct_ids(s: Seq<(VariableIdentifier, Variable)>) -> bool {
    forall|i: int, j: int| 0 <= i < s.len() && 0 <= j < s.len() && i != j ==> #[trigger] s[i].0@.1 != #[trigger] s[j].0@.1
}

pub proof fn lemma_entry_ids_contains(s: Seq<(VariableIdentifier, Variable)>, k: u64)
    ensures
        entry_ids(s).contains(k) <==> exists|i: int| 0 <= i < s.len() && s[i].0@.1 == k,
{
    if entry_ids(s).contains(k) {
        let i = choose|i: int| 0 <= i < entry_ids(s).len() && entry_ids(s)[i] == k;
        assert(s[i].0@.1 == k);
    }
    if exists|i: int| 0 <= i < s.len() && s[i].0@.1 == k {
        let i = choose|i: int| 0 <= i < s.len() && s[i].0@.1 == k;
        assert(entry_ids(s)[i] == k);
    }
}

/// Each entry is found in the model under its id.
pub proof fn lemma_entries_model_at(s: Seq<(VariableIdentifier, Variable)>, i: int)
    requires
        distinct_ids(s),
        0 <= i < s.len(),
    ensures
        entries_model(s).contains_key(s[i].0@.1),
        entries_model(s)[s[i].0@.1] == s[i].1@,
        entry_index(s, s[i].0@.1) == i,
{
    let k = s[i].0@.1;
    lemma_entry_ids_contains(s, k);
    let j = entry_index(s, k);
    assert(0 <= j < s.len() && s[j].0@.1 == k);
    assert(j == i);
}

/// An id is in the model when an entry has it.
pub proof fn lemma_entries_model_dom(s: Seq<(VariableIdentifier, Variable)>, k: u64)
    ensures
        entries_model(s).contains_key(k) <==> exists|i: int| 0 <= i < s.len() && s[i].0@.1 == k,
{
    lemma_entry_ids_contains(s, k);
}

/// Appending an entry with a fresh id inserts it in the model.
pub proof fn lemma_entries_model_push(s: Seq<(VariableIdentifier, Variable)>, e: (VariableIdentifier, Variable))
    requires
        distinct_ids(s),
        !entries_model(s).contains_key(e.0@.1),
    ensures
        distinct_ids(s.push(e)),
        entries_model(s.push(e)) == entries_model(s).insert(e.0@.1, e.1@),
{
    let t = s.push(e);
    lemma_entries_model_dom(s, e.0@.1);
    assert(distinct_ids(t)) by {
        assert forall|i: int, j: int| 0 <= i < t.len() && 0 <= j < t.len() && i != j implies #[trigger] t[i].0@.1 != #[trigger] t[j].0@.1 by {
            if i < s.len() && j < s.len() {
                assert(t[i] == s[i] && t[j] == s[j]);
            } else if i < s.len() {
                assert(t[i] == s[i]);
            } else {
                assert(t[j] == s[j]);
            }
        }
    }
    assert forall|k: u64| #[trigger] entries_model(t).contains_key(k) <==> entries_model(s).insert(e.0@.1, e.1@).contains_key(k) by {
        lemma_entries_model_dom(s, k);
        lemma_entries_model_dom(t, k);
        if exists|i: int| 0 <= i < t.len() && t[i].0@.1 == k {
            let i = choose|i: int| 0 <= i < t.len() && t[i].0@.1 == k;
            if i < s.len() {
                assert(t[i] == s[i]);
            }
        }
        if exists|i: int| 0 <= i < s.len() && s[i].0@.1 == k {
            let i = choose|i: int| 0 <= i < s.len() && s[i].0@.1 == k;
            assert(t[i] == s[i]);
        }
        if k == e.0@.1 {
            assert(t[s.len() as int] == e);
        }
    }
    assert forall|k: u64| #[trigger] entries_model(t).contains_key(k) implies entries_model(t)[k] == entries_model(s).insert(e.0@.1, e.1@)[k] by {
        lemma_entries_model_dom(t, k);
        let i = choose|i: int| 0 <= i < t.len() && t[i].0@.1 == k;
        lemma_entries_model_at(t, i);
        if i < s.len() {
            assert(t[i] == s[i]);
            lemma_entries_model_at(s, i);
        } else {
            assert(t[i] == e);
        }
    }
    assert(entries_model(t) =~= entries_model(s).insert(e.0@.1, e.1@));
}

/// Replacing an entry by one with the same id updates the model.
pub proof fn lemma_entries_model_update(s: Seq<(VariableIdentifier, Variable)>, i: int, e: (VariableIdentifier, Variable))
    requires
        distinct_ids(s),
        0 <= i < s.len(),
        e.0@.1 == s[i].0@.1,
    ensures
        distinct_ids(s.update(i, e)),
        entries_model(s.update(i, e)) == entries_model(s).insert(e.0@.1, e.1@),
{
    let t = s.update(i, e);
    assert(distinct_ids(t)) by {
        assert forall|a: int, b: int| 0 <= a < t.len() && 0 <= b < t.len() && a != b implies #[trigger] t[a].0@.1 != #[trigger] t[b].0@.1 by {
            assert(t[a].0@.1 == s[a].0@.1);
            assert(t[b].0@.1 == s[b].0@.1);
        }
    }
    lemma_entries_model_at(s, i);
    assert forall|k: u64| #[trigger] entries_model(t).contains_key(k) <==> entries_model(s).insert(e.0@.1, e.1@).contains_key(k) by {
        lemma_entries_model_dom(s, k);
        lemma_entries_model_dom(t, k);
        if exists|j: int| 0 <= j < t.len() && t[j].0@.1 == k {
            let j = choose|j: int| 0 <= j < t.len() && t[j].0@.1 == k;
            assert(s[j].0@.1 == k);
        }
        if exists|j: int| 0 <= j < s.len() && s[j].0@.1 == k {
            let j = choose|j: int| 0 <= j < s.len() && s[j].0@.1 == k;
            assert(t[j].0@.1 == k);
        }
    }
    assert forall|k: u64| #[trigger] entries_model(t).contains_key(k) implies entries_model(t)[k] == entries_model(s).insert(e.0@.1, e.1@)[k] by {
        lemma_entries_model_dom(t, k);
        let j = choose|j: int| 0 <= j < t.len() && t[j].0@.1 == k;
        lemma_entries_model_at(t, j);
        if j != i {
            assert(t[j] == s[j]);
            lemma_entries_model_at(s, j);
        }
    }
    assert(entries_model(t) =~= entries_model(s).insert(e.0@.1, e.1@));
}

/// Removing an entry removes its id from the model.
pub proof fn lemma_entries_model_remove(s: Seq<(VariableIdentifier, Variable)>, i: int)
    requires
        distinct_ids(s),
        0 <= i < s.len(),
    ensures
        distinct_ids(s.remove(i)),
        entries_model(s.remove(i)) == entries_model(s).remove(s[i].0@.1),
{
    let t = s.remove(i);
    let k0 = s[i].0@.1;
    assert forall|j: int| 0 <= j < t.len() implies #[trigger] t[j] == (if j < i { s[j] } else { s[j + 1] }) by {}
    assert(distinct_ids(t)) by {
        assert forall|a: int, b: int| 0 <= a < t.len() && 0 <= b < t.len() && a != b implies #[trigger] t[a].0@.1 != #[trigger] t[b].0@.1 by {
            let a2 = if a < i { a } else { a + 1 };
            let b2 = if b < i { b } else { b + 1 };
            assert(t[a] == s[a2]);
            assert(t[b] == s[b2]);
        }
    }
    assert forall|k: u64| #[trigger] entries_model(t).contains_key(k) <==> entries_model(s).remove(k0).contains_key(k) by {
        lemma_entries_model_dom(s, k);
        lemma_entries_model_dom(t, k);
        if exists|j: int| 0 <= j < t.len() && t[j].0@.1 == k {
            let j = choose|j: int| 0 <= j < t.len() && t[j].0@.1 == k;
            let j2 = if j < i { j } else { j + 1 };
            assert(t[j] == s[j2]);
            assert(j2 != i);
        }
        if k != k0 && exists|j: int| 0 <= j < s.len() && s[j].0@.1 == k {
            let j = choose|j: int| 0 <= j < s.len() && s[j].0@.1 == k;
            assert(j != i);
            let j2 = if j < i { j } else { j - 1 };
            assert(t[j2] == s[j]);
        }
    }
    assert forall|k: u64| #[trigger] entries_model(t).contains_key(k) implies entries_model(t)[k] == entries_model(s).remove(k0)[k] by {
        lemma_entries_model_dom(t, k);
        let j = choose|j: int| 0 <= j < t.len() && t[j].0@.1 == k;
        lemma_entries_model_at(t, j);
        let j2 = if j < i { j } else { j + 1 };
        assert(t[j] == s[j2]);
        lemma_entries_model_at(s, j2);
    }
    assert(entries_model(t) =~= entries_model(s).remove(k0));
}

/// The model has as many variables as there are entries.
pub proof fn lemma_entries_model_len(s: Seq<(VariableIdentifier, Variable)>)
    requires
        distinct_ids(s),
    ensures
        entries_model(s).dom().finite(),
        entries_model(s).len() == s.len(),
{
    let ids = entry_ids(s);
    assert(ids.no_duplicates()) by {
        assert forall|i: int, j: int| 0 <= i < ids.len() && 0 <= j < ids.len() && i != j implies ids[i] != ids[j] by {
            assert(ids[i] == s[i].0@.1);
            assert(ids[j] == s[j].0@.1);
        }
    }
    ids.unique_seq_to_set();
    assert(entries_model(s).dom() =~= ids.to_set());
}

/// Types of the variables of a model.
pub open spec fn types_of_variables(m: Map<u64, VariableModel>) -> Map<u64, ExpressionType> {
    m.map_values(|v: VariableModel| v.variable_type)
}

/// Variables of a query being compiled, by identifier.
#[derive(Debug)]
pub struct VariablesManager {
    variables: Vec<(VariableIdentifier, Variable)>,
    function_manager: Manager,
}

impl View for VariablesManager {
    type V = Map<u64, VariableModel>;

    closed spec fn view(&self) -> Map<u64, VariableModel> {
        entries_model(self.variables@)
    }
}

impl VariablesManager {
    #[verifier::type_invariant]
    closed spec fn inv(&self) -> bool {
        distinct_ids(self.variables@)
    }

    /// Types of the variables in scope.
    pub open spec fn types(&self) -> Map<u64, ExpressionType> {
        types_of_variables(self@)
    }

    /// An empty set of variables.
    pub fn new(function_manager: &Manager) -> (r: VariablesManager)
        ensures
            r@ == Map::<u64, VariableModel>::empty(),
    {
        let r = VariablesManager { variables: Vec::new(), function_manager: *function_manager };
        assert(r@ =~= Map::<u64, VariableModel>::empty());
        r
    }

    /// Position of the entry of a variable.
    fn find(&self, id: &VariableIdentifier) -> (r: Option<usize>)
        ensures
            match r {
                Some(i) => i < self.variables@.len() && self.variables@[i as int].0@.1 == id@.1
                    && self@.contains_key(id@.1) && self@[id@.1] == self.variables@[i as int].1@,
                None => !self@.contains_key(id@.1),
            },
    {
        proof { use_type_invariant(self); }
        for i in 0..self.variables.len()
            invariant
                distinct_ids(self.variables@),
                forall|j: int| 0 <= j < i ==> self.variables@[j].0@.1 != id@.1,
        {
            if self.variables[i].0.same_as(id) {
                proof { lemma_entries_model_at(self.variables@, i as int); }
                return Some(i);
            }
        }
        proof { lemma_entries_model_dom(self.variables@, id@.1); }
        None
    }

    /// Whether the identifier is given and denotes a known variable.
    pub fn has_variable(&self, identifier: &Option<VariableIdentifier>) -> (r: bool)
        ensures
            r == (identifier matches Some(i) && self@.contains_key(i@.1)),
    {
        match identifier {
            Some(i) => self.find(i).is_some(),
            None => false,
        }
    }

    /// Column of the variable in a row.
    pub fn get_variable_index(&self, identifier: &VariableIdentifier) -> (r: Result<usize, Error>)
        ensures
            match r {
                Ok(c) => self@.contains_key(identifier@.1) && c == self@[identifier@.1].col_id,
                Err(e) => !self@.contains_key(identifier@.1) && kind_of(e) == ErrorKind::UnknownVariable,
            },
    {
        match self.find(identifier) {
            Some(i) => Ok(self.variables[i].1.col_id()),
            None => Err(Error::Internal(InternalError::UnknownVariable { name: identifier.name().clone() })),
        }
    }

    /// Column of the variable in a row, when an identifier is given.
    pub fn get_variable_index_option(&self, identifier: &Option<VariableIdentifier>) -> (r: Result<Option<usize>, Error>)
        ensures
            match *identifier {
                None => r == Ok::<Option<usize>, Error>(None),
                Some(i) => match r {
                    Ok(Some(c)) => self@.contains_key(i@.1) && c == self@[i@.1].col_id,
                    Ok(None) => false,
                    Err(e) => !self@.contains_key(i@.1) && kind_of(e) == ErrorKind::UnknownVariable,
                },
            },
    {
        match identifier {
            Some(i) => match self.get_variable_index(i) {
                Ok(c) => Ok(Some(c)),
                Err(e) => Err(e),
            },
            None => Ok(None),
        }
    }

    /// Number of variables.
    pub fn variables_count(&self) -> (r: usize)
        ensures
            r == self@.len(),
            self@.dom().finite(),
    {
        proof {
            use_type_invariant(self);
            lemma_entries_model_len(self.variables@);
        }
        self.variables.len()
    }

    /// Whether every variable in scope is set.
    pub fn all_set(&self) -> (r: bool)
        ensures
            r == (forall|k: u64| #[trigger] self@.contains_key(k) ==> self@[k].is_set),
    {
        proof { use_type_invariant(self); }
        let ghost s = self.variables@;
        for i in 0..self.variables.len()
            invariant
                s == self.variables@,
                distinct_ids(s),
                forall|j: int| 0 <= j < i ==> (#[trigger] s[j]).1.is_set,
        {
            if !self.variables[i].1.is_set {
                proof { lemma_entries_model_at(s, i as int); }
                return false;
            }
        }
        proof {
            assert forall|k: u64| #[trigger] self@.contains_key(k) implies self@[k].is_set by {
                lemma_entries_model_dom(s, k);
                let j = choose|j: int| 0 <= j < s.len() && s[j].0@.1 == k;
                lemma_entries_model_at(s, j);
            }
        }
        true
    }

    /// Names of the variables that are set, and of all the variables, for messages; both in the
    /// order of `listing`.
    pub fn variable_names(&self) -> (r: (Vec<String>, Vec<String>))
        ensures
            crate::value::view_labels(r.0@) == set_names(self.listing(), self@),
            crate::value::view_labels(r.1@) == names_of(self.listing()),
    {
        proof { use_type_invariant(self); }
        let ghost s = self.variables@;
        let ghost order = self.listing();
        let mut set_variables: Vec<String> = Vec::new();
        let mut all_variables: Vec<String> = Vec::new();
        assert(order.take(0) =~= Seq::<(Seq<char>, u64)>::empty());
        assert(crate::value::view_labels(set_variables@) =~= Seq::<Seq<char>>::empty());
        assert(crate::value::view_labels(all_variables@) =~= Seq::<Seq<char>>::empty());
        for i in 0..self.variables.len()
            invariant
                s == self.variables@,
                distinct_ids(s),
                order == self.listing(),
                order.len() == s.len(),
                crate::value::view_labels(set_variables@) == set_names(order.take(i as int), self@),
                crate::value::view_labels(all_variables@) == names_of(order.take(i as int)),
        {
            proof {
                lemma_entries_model_at(s, i as int);
                assert(order.take(i + 1).drop_last() =~= order.take(i as int));
                assert(order.take(i + 1).last() == order[i as int]);
                assert(order[i as int] == s[i as int].0@);
            }
            let ghost before_set = set_variables@;
            let ghost before_all = all_variables@;
            if self.variables[i].1.is_set {
                set_variables.push(self.variables[i].0.name().clone());
                assert(crate::value::view_labels(set_variables@) =~= crate::value::view_labels(before_set).push(s[i as int].0@.0));
            }
            all_variables.push(self.variables[i].0.name().clone());
            assert(crate::value::view_labels(all_variables@) =~= crate::value::view_labels(before_all).push(s[i as int].0@.0));
            assert(names_of(order.take(i + 1)) =~= names_of(order.take(i as int)).push(order[i as int].0));
        }
        assert(order.take(order.len() as int) =~= order);
        (set_variables, all_variables)
    }

    /// Identifiers of the variables in scope, in the order in which `variables_list` gives them.
    pub closed spec fn listing(&self) -> Seq<(Seq<char>, u64)> {
        self.variables@.map_values(|e: (VariableIdentifier, Variable)| e.0@)
    }

    /// The listing names each variable in scope exactly once.
    pub fn listing_facts(&self)
        ensures
            lists_variables(self@, self.listing()),
            self.listing().len() == self@.len(),
            self@.dom().finite(),
    {
        proof {
            use_type_invariant(self);
            lemma_entries_model_len(self.variables@);
            let s = self.variables@;
            assert forall|k: u64| #[trigger] self@.contains_key(k) <==> exists|i: int| 0 <= i < self.listing().len() && self.listing()[i].1 == k by {
                lemma_entries_model_dom(s, k);
                if exists|i: int| 0 <= i < s.len() && s[i].0@.1 == k {
                    let i = choose|i: int| 0 <= i < s.len() && s[i].0@.1 == k;
                    assert(self.listing()[i].1 == k);
                }
                if exists|i: int| 0 <= i < self.listing().len() && self.listing()[i].1 == k {
                    let i = choose|i: int| 0 <= i < self.listing().len() && self.listing()[i].1 == k;
                    assert(s[i].0@.1 == k);
                }
            }
            assert forall|i: int, j: int| 0 <= i < j < self.listing().len() implies #[trigger] self.listing()[i].1 != #[trigger] self.listing()[j].1 by {
                assert(s[i].0@.1 != s[j].0@.1);
            }
        }
    }

    /// The variables in scope with their columns, each listed once, in an order of the
    /// manager's choosing.
    pub fn variables_list(&self) -> (r: Vec<(VariableIdentifier, usize)>)
        ensures
            r@.len() == self.listing().len(),
            forall|i: int| 0 <= i < r@.len() ==> (#[trigger] r@[i]).0@ == self.listing()[i]
                && self@.contains_key(self.listing()[i].1)
                && r@[i].1 == self@[self.listing()[i].1].col_id,
            forall|i: int, j: int| 0 <= i < j < r@.len() ==> #[trigger] self.listing()[i].1 != #[trigger] self.listing()[j].1,
            forall|k: u64| #[trigger] self@.contains_key(k) <==> exists|i: int| 0 <= i < r@.len() && self.listing()[i].1 == k,
    {
        let mut r: Vec<(VariableIdentifier, usize)> = Vec::new();
        for i in 0..self.variables.len()
            invariant
                r@.len() == i,
                i <= self.variables@.len(),
                forall|j: int| 0 <= j < i ==> (#[trigger] r@[j]).0@ == self.variables@[j].0@ && r@[j].1 == self.variables@[j].1.col_id,
        {
            r.push((self.variables[i].0.duplicate(), self.variables[i].1.col_id));
        }
        proof {
            use_type_invariant(self);
            let s = self.variables@;
            assert forall|i: int| 0 <= i < r@.len() implies (#[trigger] r@[i]).0@ == self.listing()[i]
                && self@.contains_key(self.listing()[i].1)
                && r@[i].1 == self@[self.listing()[i].1].col_id by {
                lemma_entries_model_at(s, i);
            }
            assert forall|k: u64| #[trigger] self@.contains_key(k) <==> exists|i: int| 0 <= i < r@.len() && self.listing()[i].1 == k by {
                lemma_entries_model_dom(s, k);
                if exists|i: int| 0 <= i < s.len() && s[i].0@.1 == k {
                    let i = choose|i: int| 0 <= i < s.len() && s[i].0@.1 == k;
                    assert(self.listing()[i].1 == k);
                }
                if exists|i: int| 0 <= i < r@.len() && self.listing()[i].1 == k {
                    let i = choose|i: int| 0 <= i < r@.len() && self.listing()[i].1 == k;
                    assert(s[i].0@.1 == k);
                }
            }
            assert forall|i: int, j: int| 0 <= i < j < r@.len() implies #[trigger] self.listing()[i].1 != #[trigger] self.listing()[j].1 by {
                assert(s[i].0@.1 != s[j].0@.1);
            }
        }
        r
    }

    /// Whether the variable, when given, is marked as set.
    pub fn is_set_variable(&self, var_id: &Option<VariableIdentifier>) -> (r: Result<bool, Error>)
        ensures
            match *var_id {
                None => r == Ok::<bool, Error>(false),
                Some(i) => match r {
                    Ok(b) => self@.contains_key(i@.1) && b == self@[i@.1].is_set,
                    Err(e) => !self@.contains_key(i@.1) && kind_of(e) == ErrorKind::UnknownVariable,
                },
            },
    {
        match var_id {
            Some(id) => match self.find(id) {
                Some(i) => Ok(self.variables[i].1.is_set),
                None => Err(Error::Internal(InternalError::UnknownVariable { name: id.name().clone() })),
            },
            None => Ok(false),
        }
    }

    /// Type of a variable.
    pub fn expression_type(&self, identifier: &VariableIdentifier) -> (r: Result<ExpressionType, Error>)
        ensures
            match r {
                Ok(t) => self@.contains_key(identifier@.1) && t == self@[identifier@.1].variable_type,
                Err(e) => !self@.contains_key(identifier@.1) && kind_of(e) == ErrorKind::UndefinedVariable,
            },
    {
        match self.find(identifier) {
            Some(i) => Ok(self.variables[i].1.variable_type),
            None => Err(Error::CompileTime(CompileTimeError::UndefinedVariable { name: identifier.name().clone() })),
        }
    }
}


/// Declaring a variable of the given type: refused when the identifier is already bound.
pub open spec fn declare_spec(m: Map<u64, VariableModel>, id: u64, t: ExpressionType) -> (Map<u64, VariableModel>, Option<ErrorKind>) {
    if m.contains_key(id) {
        (m, Some(ErrorKind::VariableAlreadyBound))
    } else {
        (m.insert(id, variable_from_expression(t, m.len())), None)
    }
}

/// A pattern that names labels or properties must repeat those of the declaration.
pub open spec fn shape_conflicts(requested: PatternShape, declared: PatternShape) -> bool {
    (!(requested.labels is Empty) || requested.properties is Some)
        && (requested.labels != declared.labels || requested.properties != declared.properties)
}

/// Error of using an existing variable as the node of a pattern, if any.
pub open spec fn existing_node_error(v: VariableModel, s: PatternShape) -> Option<ErrorKind> {
    match v.variable_type {
        ExpressionType::Node => match v.content {
            ContentModel::Node(d) => if shape_conflicts(s, d) { Some(ErrorKind::VariableAlreadyBound) } else { None },
            _ => Some(ErrorKind::ExpectedNode),
        },
        ExpressionType::Variant => None,
        _ => Some(ErrorKind::VariableTypeConflict),
    }
}

/// Error of using an existing variable as the edge of a pattern, if any.
pub open spec fn existing_edge_error(v: VariableModel, s: PatternShape) -> Option<ErrorKind> {
    match v.variable_type {
        ExpressionType::Edge => match v.content {
            ContentModel::Edge(d) => if shape_conflicts(s, d) { Some(ErrorKind::VariableAlreadyBound) } else { None },
            _ => Some(ErrorKind::ExpectedEdge),
        },
        ExpressionType::Variant => None,
        _ => Some(ErrorKind::VariableTypeConflict),
    }
}

/// Whether the node of a pattern is an existing, compatible variable.
pub open spec fn existing_node_spec(m: Map<u64, VariableModel>, n: NodePattern) -> Result<bool, ErrorKind> {
    match var_id(n.variable) {
        None => Ok(false),
        Some(id) => if !m.contains_key(id) {
            Ok(false)
        } else {
            match existing_node_error(m[id], n.shape()) {
                Some(k) => Err(k),
                None => Ok(true),
            }
        },
    }
}

/// Whether the edge of a pattern is an existing, compatible variable.
pub open spec fn existing_edge_spec(m: Map<u64, VariableModel>, e: EdgePattern) -> Result<bool, ErrorKind> {
    match var_id(e.variable) {
        None => Ok(false),
        Some(id) => if !m.contains_key(id) {
            Ok(false)
        } else {
            match existing_edge_error(m[id], e.shape()) {
                Some(k) => Err(k),
                None => Ok(true),
            }
        },
    }
}

/// Validation of the node of a pattern: an existing variable must be compatible; a new one is
/// declared, after its properties are analysed.
pub open spec fn validate_node_spec(m: Map<u64, VariableModel>, n: NodePattern) -> (Map<u64, VariableModel>, Option<ErrorKind>) {
    match var_id(n.variable) {
        None => (m, None),
        Some(id) => if m.contains_key(id) {
            (m, existing_node_error(m[id], n.shape()))
        } else {
            let declared = m.insert(id, VariableModel {
                content: ContentModel::Node(n.shape()),
                variable_type: ExpressionType::Node,
                col_id: m.len(),
                is_set: false,
            });
            match n.properties {
                Some(p) => match analyse_spec(p@, types_of_variables(m)) {
                    Err(k) => (m, Some(k)),
                    Ok(_) => (declared, None),
                },
                None => (declared, None),
            }
        },
    }
}

/// Validation of the edge of a pattern: its nodes are validated, then an edge variable must be
/// new, and is declared after its properties are analysed.
pub open spec fn validate_edge_spec(m: Map<u64, VariableModel>, e: EdgePattern) -> (Map<u64, VariableModel>, Option<ErrorKind>) {
    let (m1, k1) = validate_node_spec(m, e.source);
    if k1 is Some {
        (m1, k1)
    } else {
        let (m2, k2) = validate_node_spec(m1, e.destination);
        if k2 is Some {
            (m2, k2)
        } else {
            match var_id(e.variable) {
                None => (m2, None),
                Some(id) => if m2.contains_key(id) {
                    (m2, Some(if m2[id].content is Edge { ErrorKind::VariableAlreadyBound } else { ErrorKind::VariableTypeConflict }))
                } else {
                    let declared = m2.insert(id, VariableModel {
                        content: ContentModel::Edge(e.shape()),
                        variable_type: ExpressionType::Edge,
                        col_id: m2.len(),
                        is_set: false,
                    });
                    match e.properties {
                        Some(p) => match analyse_spec(p@, types_of_variables(m2)) {
                            Err(k) => (m2, Some(k)),
                            Ok(_) => (declared, None),
                        },
                        None => (declared, None),
                    }
                },
            }
        }
    }
}

/// A node that is not an existing variable is validated.
pub open spec fn node_if_new_spec(m: Map<u64, VariableModel>, n: NodePattern) -> (Map<u64, VariableModel>, Option<ErrorKind>) {
    match existing_node_spec(m, n) {
        Err(k) => (m, Some(k)),
        Ok(true) => (m, None),
        Ok(false) => validate_node_spec(m, n),
    }
}

/// Analysis of an edge pattern, optionally named by a path variable.
pub open spec fn analyse_edge_path_spec(
    m: Map<u64, VariableModel>,
    path: Option<u64>,
    e: EdgePattern,
    is_create: bool,
) -> (Map<u64, VariableModel>, Option<ErrorKind>) {
    let (m0, k0) = match path {
        Some(p) => declare_spec(m, p, ExpressionType::Path),
        None => (m, None),
    };
    if k0 is Some {
        (m0, k0)
    } else {
        let (m1, k1) = node_if_new_spec(m0, e.source);
        if k1 is Some {
            (m1, k1)
        } else {
            let (m2, k2) = node_if_new_spec(m1, e.destination);
            if k2 is Some {
                (m2, k2)
            } else if is_create {
                validate_edge_spec(m2, e)
            } else {
                match existing_edge_spec(m2, e) {
                    Err(k) => (m2, Some(k)),
                    Ok(true) => (m2, None),
                    Ok(false) => validate_edge_spec(m2, e),
                }
            }
        }
    }
}

/// Analysis of a pattern of a `MATCH` (or, with `is_create`, a `CREATE`) statement.
pub open spec fn analyse_pattern_spec(m: Map<u64, VariableModel>, p: Pattern, is_create: bool) -> (Map<u64, VariableModel>, Option<ErrorKind>) {
    match p {
        Pattern::Node(n) => validate_node_spec(m, n),
        Pattern::Edge(e) => analyse_edge_path_spec(m, None, e, is_create),
        Pattern::Path(pp) => {
            let (m1, k1) = analyse_edge_path_spec(m, None, pp.edge, is_create);
            if k1 is Some {
                (m1, k1)
            } else {
                declare_spec(m1, pp.variable@.1, ExpressionType::Path)
            }
        },
    }
}

/// Marking a variable as set, when one is given.
pub open spec fn mark_set_spec(m: Map<u64, VariableModel>, id: Option<u64>) -> (Map<u64, VariableModel>, Option<ErrorKind>) {
    match id {
        None => (m, None),
        Some(id) => if m.contains_key(id) {
            (m.insert(id, marked_set(m[id])), None)
        } else {
            (m, Some(ErrorKind::UnknownVariable))
        },
    }
}

/// Binding a named expression: its variable gets the type of the expression and keeps its column
/// if it existed.
pub open spec fn named_expression_spec(m: Map<u64, VariableModel>, ne: NamedExpression) -> (Map<u64, VariableModel>, Result<nat, ErrorKind>) {
    match analyse_spec(ne.expression@, types_of_variables(m)) {
        Err(k) => (m, Err(k)),
        Ok(info) => {
            let id = ne.identifier@.1;
            let col = if m.contains_key(id) { m[id].col_id } else { m.len() };
            (m.insert(id, marked_set(variable_from_expression(info.expression_type, col))), Ok(col))
        },
    }
}

/// Keeping only the named variables, in the given order: the variables that remain to be moved,
/// those kept so far (renumbered and marked as set), and the error met, if any.
pub open spec fn keep_spec(m: Map<u64, VariableModel>, names: Seq<u64>) -> (Map<u64, VariableModel>, Map<u64, VariableModel>, Option<ErrorKind>)
    decreases names.len(),
{
    if names.len() == 0 {
        (m, Map::empty(), None)
    } else {
        let (rest, kept, err) = keep_spec(m, names.drop_last());
        if err is Some {
            (rest, kept, err)
        } else {
            let id = names.last();
            if rest.contains_key(id) {
                (rest.remove(id), kept.insert(id, VariableModel { col_id: (names.len() - 1) as nat, is_set: true, ..rest[id] }), None)
            } else {
                (rest, kept, Some(ErrorKind::UnknownVariable))
            }
        }
    }
}

/// Names of the listed variables, in order.
pub open spec fn names_of(order: Seq<(Seq<char>, u64)>) -> Seq<Seq<char>> {
    order.map_values(|x: (Seq<char>, u64)| x.0)
}

/// Names of the listed variables that are set, in order.
pub open spec fn set_names(order: Seq<(Seq<char>, u64)>, m: Map<u64, VariableModel>) -> Seq<Seq<char>>
    decreases order.len(),
{
    if order.len() == 0 {
        Seq::empty()
    } else {
        let r = set_names(order.drop_last(), m);
        if m[order.last().1].is_set { r.push(order.last().0) } else { r }
    }
}

/// The order lists each variable of the map exactly once.
pub open spec fn lists_variables(m: Map<u64, VariableModel>, order: Seq<(Seq<char>, u64)>) -> bool {
    &&& forall|i: int, j: int| 0 <= i < j < order.len() ==> #[trigger] order[i].1 != #[trigger] order[j].1
    &&& forall|k: u64| #[trigger] m.contains_key(k) <==> exists|i: int| 0 <= i < order.len() && order[i].1 == k
}

/// Ids of a list of identifiers.
pub open spec fn identifier_ids(names: Seq<VariableIdentifier>) -> Seq<u64> {
    names.map_values(|v: VariableIdentifier| v@.1)
}

/// Once an error is met, the rest of the names change nothing.
pub proof fn lemma_keep_err(m: Map<u64, VariableModel>, names: Seq<u64>, j: int)
    requires
        0 <= j <= names.len(),
        keep_spec(m, names.take(j)).2 is Some,
    ensures
        keep_spec(m, names) == keep_spec(m, names.take(j)),
    decreases names.len() - j,
{
    if j < names.len() {
        assert(names.take(j + 1).drop_last() =~= names.take(j));
        lemma_keep_err(m, names, j + 1);
    } else {
        assert(names.take(j) =~= names);
    }
}

/// Error of using `var` for the node of a pattern, if any.
fn node_error(var: &Variable, node: &NodePattern, name: &VariableIdentifier) -> (r: Result<(), Error>)
    ensures
        outcome_matches(r, existing_node_error(var@, node.shape())),
{
    match var.variable_type {
        ExpressionType::Node => match &var.content {
            VariableContent::Node(declared) => {
                if (!node.labels.is_none() || node.properties.is_some())
                    && (!node.labels.equals(&declared.labels) || !properties_equal(&node.properties, &declared.properties)) {
                    Err(Error::CompileTime(CompileTimeError::VariableAlreadyBound { name: name.name().clone() }))
                } else {
                    Ok(())
                }
            },
            _ => Err(Error::Internal(InternalError::ExpectedNode { context: "validate_node" })),
        },
        ExpressionType::Variant => Ok(()),
        _ => Err(Error::CompileTime(CompileTimeError::VariableTypeConflict { name: name.name().clone() })),
    }
}

/// Error of using `var` for the edge of a pattern, if any.
fn edge_error(var: &Variable, edge: &EdgePattern, name: &VariableIdentifier) -> (r: Result<(), Error>)
    ensures
        outcome_matches(r, existing_edge_error(var@, edge.shape())),
{
    match var.variable_type {
        ExpressionType::Edge => match &var.content {
            VariableContent::Edge(declared) => {
                if (!edge.labels.is_none() || edge.properties.is_some())
                    && (!declared.labels.equals(&edge.labels) || !properties_equal(&declared.properties, &edge.properties)) {
                    Err(Error::CompileTime(CompileTimeError::VariableAlreadyBound { name: name.name().clone() }))
                } else {
                    Ok(())
                }
            },
            _ => Err(Error::Internal(InternalError::ExpectedEdge { context: "is_valid_existing_edge" })),
        },
        ExpressionType::Variant => Ok(()),
        _ => Err(Error::CompileTime(CompileTimeError::VariableTypeConflict { name: name.name().clone() })),
    }
}

impl Variable {
    /// Copies the variable.
    fn duplicate(&self) -> (r: Variable)
        ensures
            r@ == self@,
    {
        Variable {
            content: match &self.content {
                VariableContent::Node(n) => VariableContent::Node(n.duplicate()),
                VariableContent::Edge(e) => VariableContent::Edge(e.duplicate()),
                VariableContent::Empty => VariableContent::Empty,
            },
            variable_type: self.variable_type,
            col_id: self.col_id,
            is_set: self.is_set,
        }
    }
}

impl VariablesManager {
    /// Adds a variable under a fresh identifier.
    fn push_new(&mut self, id: VariableIdentifier, var: Variable)
        requires
            !old(self)@.contains_key(id@.1),
        ensures
            final(self)@ == old(self)@.insert(id@.1, var@),
    {
        proof {
            use_type_invariant(&*self);
            lemma_entries_model_push(self.variables@, (id, var));
        }
        let mut vars: Vec<(VariableIdentifier, Variable)> = Vec::new();
        std::mem::swap(&mut vars, &mut self.variables);
        vars.push((id, var));
        self.variables = vars;
    }

    /// Replaces the variable at position `i`, keeping its identifier.
    fn replace_at(&mut self, i: usize, var: Variable)
        requires
            i < old(self).variables@.len(),
        ensures
            final(self)@ == old(self)@.insert(old(self).variables@[i as int].0@.1, var@),
    {
        proof { use_type_invariant(&*self); }
        let id = self.variables[i].0.duplicate();
        proof { lemma_entries_model_update(self.variables@, i as int, (id, var)); }
        let mut vars: Vec<(VariableIdentifier, Variable)> = Vec::new();
        std::mem::swap(&mut vars, &mut self.variables);
        vars.set(i, (id, var));
        self.variables = vars;
    }

    /// Marks the variable, when one is given, as set.
    pub fn mark_variables_as_set(&mut self, var_id: Option<&VariableIdentifier>) -> (r: Result<(), Error>)
        ensures
            ({
                let (m, k) = mark_set_spec(old(self)@, match var_id { Some(i) => Some(i@.1), None => None });
                final(self)@ == m && outcome_matches(r, k)
            }),
            final(self)@.dom().finite(),
            final(self)@.len() == old(self)@.len(),
    {
        proof {
            use_type_invariant(&*self);
            lemma_entries_model_len(self.variables@);
        }
        match var_id {
            None => Ok(()),
            Some(id) => match self.find(id) {
                Some(i) => {
                    let var = self.variables[i].1.duplicate().mark_set();
                    self.replace_at(i, var);
                    proof {
                        use_type_invariant(&*self);
                        lemma_entries_model_len(self.variables@);
                    }
                    Ok(())
                },
                None => Err(Error::Internal(InternalError::UnknownVariable { name: id.name().clone() })),
            },
        }
    }

    /// Declares a variable of the given type.
    pub fn declare_variable(&mut self, var_id: &VariableIdentifier, expression_type: ExpressionType) -> (r: Result<(), Error>)
        ensures
            ({
                let (m, k) = declare_spec(old(self)@, var_id@.1, expression_type);
                final(self)@ == m && outcome_matches(r, k)
            }),
            r is Err ==> (r matches Err(Error::CompileTime(CompileTimeError::VariableAlreadyBound { name })) && name@ == var_id@.0),
    {
        if self.find(var_id).is_some() {
            Err(Error::CompileTime(CompileTimeError::VariableAlreadyBound { name: var_id.name().clone() }))
        } else {
            let count = self.variables_count();
            self.push_new(var_id.duplicate(), Variable::from_expression(expression_type, count));
            Ok(())
        }
    }

    /// Validates the node of a pattern; declares its variable when it is new.
    pub fn validate_node(&mut self, node: &NodePattern) -> (r: Result<(), Error>)
        ensures
            ({
                let (m, k) = validate_node_spec(old(self)@, *node);
                final(self)@ == m && outcome_matches(r, k)
            }),
    {
        match &node.variable {
            None => Ok(()),
            Some(id) => match self.find(id) {
                Some(i) => node_error(&self.variables[i].1, node, id),
                None => {
                    match &node.properties {
                        Some(p) => {
                            let analyser = Analyser::new(&*self, &self.function_manager);
                            match analyser.analyse(p) {
                                Ok(_) => {},
                                Err(e) => return Err(e),
                            }
                        },
                        None => {},
                    }
                    let count = self.variables_count();
                    self.push_new(id.duplicate(), Variable::from_node(node.duplicate(), count));
                    Ok(())
                },
            },
        }
    }

    /// Validates the edge of a pattern and its nodes; declares the new variables.
    pub fn validate_edge(&mut self, edge: &EdgePattern) -> (r: Result<(), Error>)
        ensures
            ({
                let (m, k) = validate_edge_spec(old(self)@, *edge);
                final(self)@ == m && outcome_matches(r, k)
            }),
    {
        match self.validate_node(&edge.source) {
            Ok(()) => {},
            Err(e) => return Err(e),
        }
        match self.validate_node(&edge.destination) {
            Ok(()) => {},
            Err(e) => return Err(e),
        }
        match &edge.variable {
            None => Ok(()),
            Some(id) => match self.find(id) {
                Some(i) => match &self.variables[i].1.content {
                    VariableContent::Edge(_) => Err(Error::CompileTime(CompileTimeError::VariableAlreadyBound { name: id.name().clone() })),
                    _ => Err(Error::CompileTime(CompileTimeError::VariableTypeConflict { name: id.name().clone() })),
                },
                None => {
                    match &edge.properties {
                        Some(p) => {
                            let analyser = Analyser::new(&*self, &self.function_manager);
                            match analyser.analyse(p) {
                                Ok(_) => {},
                                Err(e) => return Err(e),
                            }
                        },
                        None => {},
                    }
                    let count = self.variables_count();
                    self.push_new(id.duplicate(), Variable::from_edge(edge.duplicate(), count));
                    Ok(())
                },
            },
        }
    }

    /// Whether the node of a pattern is an existing variable, compatible with the pattern.
    pub fn is_valid_existing_node(&self, node: &NodePattern) -> (r: Result<bool, Error>)
        ensures
            result_matches(r, existing_node_spec(self@, *node)),
    {
        match &node.variable {
            None => Ok(false),
            Some(id) => match self.find(id) {
                Some(i) => match node_error(&self.variables[i].1, node, id) {
                    Ok(()) => Ok(true),
                    Err(e) => Err(e),
                },
                None => Ok(false),
            },
        }
    }

    /// Whether the edge of a pattern is an existing variable, compatible with the pattern.
    pub fn is_valid_existing_edge(&self, edge: &EdgePattern) -> (r: Result<bool, Error>)
        ensures
            result_matches(r, existing_edge_spec(self@, *edge)),
    {
        match &edge.variable {
            None => Ok(false),
            Some(id) => match self.find(id) {
                Some(i) => match edge_error(&self.variables[i].1, edge, id) {
                    Ok(()) => Ok(true),
                    Err(e) => Err(e),
                },
                None => Ok(false),
            },
        }
    }

    /// A node that is not an existing variable is validated.
    fn node_if_new(&mut self, node: &NodePattern) -> (r: Result<(), Error>)
        ensures
            ({
                let (m, k) = node_if_new_spec(old(self)@, *node);
                final(self)@ == m && outcome_matches(r, k)
            }),
    {
        match self.is_valid_existing_node(node) {
            Err(e) => Err(e),
            Ok(true) => Ok(()),
            Ok(false) => self.validate_node(node),
        }
    }

    /// Analyses an edge pattern, optionally named by a path variable: declares the path, then
    /// validates the nodes and the edge that are not existing variables.
    pub fn analyse_edge_path(&mut self, path_variable: Option<VariableIdentifier>, edge: &EdgePattern, is_create: bool) -> (r: Result<(), Error>)
        ensures
            ({
                let (m, k) = analyse_edge_path_spec(old(self)@, var_id(path_variable), *edge, is_create);
                final(self)@ == m && outcome_matches(r, k)
            }),
    {
        match &path_variable {
            Some(p) => match self.declare_variable(p, ExpressionType::Path) {
                Ok(()) => {},
                Err(e) => return Err(e),
            },
            None => {},
        }
        match self.node_if_new(&edge.source) {
            Ok(()) => {},
            Err(e) => return Err(e),
        }
        match self.node_if_new(&edge.destination) {
            Ok(()) => {},
            Err(e) => return Err(e),
        }
        if is_create {
            self.validate_edge(edge)
        } else {
            match self.is_valid_existing_edge(edge) {
                Err(e) => Err(e),
                Ok(true) => Ok(()),
                Ok(false) => self.validate_edge(edge),
            }
        }
    }

    /// Analyses a pattern of a `MATCH` statement, or of a `CREATE` statement when `is_create`.
    pub fn analyse_pattern(&mut self, pattern: &Pattern, is_create: bool) -> (r: Result<(), Error>)
        ensures
            ({
                let (m, k) = analyse_pattern_spec(old(self)@, *pattern, is_create);
                final(self)@ == m && outcome_matches(r, k)
            }),
    {
        match pattern {
            Pattern::Node(node) => self.validate_node(node),
            Pattern::Edge(edge) => self.analyse_edge_path(None, edge, is_create),
            Pattern::Path(path) => {
                match self.analyse_edge_path(None, &path.edge, is_create) {
                    Ok(()) => {},
                    Err(e) => return Err(e),
                }
                self.declare_variable(&path.variable, ExpressionType::Path)
            },
        }
    }

    /// Analyses a named expression and binds its variable; gives the column of the variable.
    pub fn analyse_named_expression(&mut self, named_expression: &NamedExpression) -> (r: Result<usize, Error>)
        ensures
            ({
                let (m, c) = named_expression_spec(old(self)@, *named_expression);
                final(self)@ == m && match c {
                    Ok(col) => r matches Ok(x) && x == col,
                    Err(k) => r matches Err(e) && kind_of(e) == k,
                }
            }),
    {
        let info = {
            let analyser = Analyser::new(&*self, &self.function_manager);
            match analyser.analyse(&named_expression.expression) {
                Ok(info) => info,
                Err(e) => return Err(e),
            }
        };
        match self.find(&named_expression.identifier) {
            Some(i) => {
                let col_id = self.variables[i].1.col_id();
                self.replace_at(i, Variable::from_expression(info.expression_type, col_id).mark_set());
                Ok(col_id)
            },
            None => {
                let col_id = self.variables_count();
                self.push_new(named_expression.identifier.duplicate(), Variable::from_expression(info.expression_type, col_id).mark_set());
                Ok(col_id)
            },
        }
    }

    /// Keeps only the named variables, numbered in the given order and marked as set.
    pub fn keep_variables(&mut self, names: &Vec<VariableIdentifier>) -> (r: Result<(), Error>)
        ensures
            ({
                let (rest, kept, err) = keep_spec(old(self)@, identifier_ids(names@));
                match err {
                    None => final(self)@ == kept && r is Ok,
                    Some(k) => final(self)@ == rest && outcome_matches(r, Some(k)),
                }
            }),
    {
        let ghost ids = identifier_ids(names@);
        let ghost m0 = self@;
        let mut kept: Vec<(VariableIdentifier, Variable)> = Vec::new();
        assert(ids.take(0) =~= Seq::<u64>::empty());
        assert(entries_model(kept@) =~= Map::<u64, VariableModel>::empty());
        for col in 0..names.len()
            invariant
                ids == identifier_ids(names@),
                m0 == old(self)@,
                keep_spec(m0, ids.take(col as int)) == (self@, entries_model(kept@), None::<ErrorKind>),
                distinct_ids(kept@),
                forall|k: u64| entries_model(kept@).contains_key(k) ==> !self@.contains_key(k),
        {
            proof {
                use_type_invariant(&*self);
                assert(ids.take(col + 1).drop_last() =~= ids.take(col as int));
                assert(ids[col as int] == names@[col as int]@.1);
                assert(ids.take(col + 1).last() == names@[col as int]@.1);
                assert(ids.take(col + 1).len() == col + 1);
                assert(keep_spec(m0, ids.take(col + 1).drop_last()) == (self@, entries_model(kept@), None::<ErrorKind>));
            }
            match self.find(&names[col]) {
                None => {
                    proof {
                        assert(keep_spec(m0, ids.take(col + 1)) == (self@, entries_model(kept@), Some(ErrorKind::UnknownVariable)));
                        lemma_keep_err(m0, ids, col + 1);
                        assert(keep_spec(m0, ids) == (self@, entries_model(kept@), Some(ErrorKind::UnknownVariable)));
                    }
                    return Err(Error::Internal(InternalError::UnknownVariable { name: names[col].name().clone() }));
                },
                Some(i) => {
                    let ghost before = self@;
                    let ghost kept_before = entries_model(kept@);
                    let ghost id = names@[col as int]@.1;
                    let mut vars: Vec<(VariableIdentifier, Variable)> = Vec::new();
                    std::mem::swap(&mut vars, &mut self.variables);
                    proof { lemma_entries_model_remove(vars@, i as int); }
                    let (_, var) = vars.remove(i);
                    self.variables = vars;
                    let mut var = var;
                    var.col_id = col;
                    let var = var.mark_set();
                    let ghost kept_seq = kept@;
                    kept.push((names[col].duplicate(), var));
                    proof {
                        assert(kept@ == kept_seq.push(kept@[kept_seq.len() as int]));
                        lemma_entries_model_push(kept_seq, kept@[kept_seq.len() as int]);
                    }
                    proof {
                        assert(self@ == before.remove(id));
                        assert(entries_model(kept@) == kept_before.insert(id, VariableModel { col_id: col as nat, is_set: true, ..before[id] }));
                        assert(keep_spec(m0, ids.take(col + 1)) == (before.remove(id), kept_before.insert(id, VariableModel { col_id: col as nat, is_set: true, ..before[id] }), None::<ErrorKind>));
                        assert(keep_spec(m0, ids.take(col + 1)) == (self@, entries_model(kept@), None::<ErrorKind>));
                    }
                },
            }
        }
        assert(ids.take(names@.len() as int) =~= ids);
        let mut vars = kept;
        std::mem::swap(&mut vars, &mut self.variables);
        Ok(())
    }
}


/// A declared variable has the declared type, is not set, and takes the next column.
pub proof fn lemma_declare_then_type(m: Map<u64, VariableModel>, id: u64, t: ExpressionType)
    requires
        !m.contains_key(id),
    ensures
        declare_spec(m, id, t).1 is None,
        declare_spec(m, id, t).0.contains_key(id),
        declare_spec(m, id, t).0[id].variable_type == t,
        declare_spec(m, id, t).0[id].col_id == m.len(),
        !declare_spec(m, id, t).0[id].is_set,
        types_of_variables(declare_spec(m, id, t).0)[id] == t,
{
}

/// Declaring an identifier a second time is refused and changes nothing.
pub proof fn lemma_declare_twice(m: Map<u64, VariableModel>, id: u64, t: ExpressionType, u: ExpressionType)
    requires
        !m.contains_key(id),
    ensures
        declare_spec(declare_spec(m, id, t).0, id, u) == (declare_spec(m, id, t).0, Some(ErrorKind::VariableAlreadyBound)),
{
}

/// Keeping variables, when no error occurs, keeps exactly the named ones, set, and numbered in
/// the order of the names.
pub proof fn lemma_keep_numbers(m: Map<u64, VariableModel>, names: Seq<u64>)
    requires
        keep_spec(m, names).2 is None,
    ensures
        forall|i: int| 0 <= i < names.len() ==> (#[trigger] keep_spec(m, names).1.contains_key(names[i])
            && keep_spec(m, names).1[names[i]].col_id == i && keep_spec(m, names).1[names[i]].is_set),
        forall|k: u64| #[trigger] keep_spec(m, names).1.contains_key(k) ==> names.contains(k),
        forall|k: u64| #[trigger] keep_spec(m, names).1.contains_key(k) ==> m.contains_key(k),
    decreases names.len(),
{
    if names.len() > 0 {
        let p = names.drop_last();
        lemma_keep_numbers(m, p);
        lemma_keep_rest(m, p);
        let (rest, kept, err) = keep_spec(m, p);
        assert forall|i: int| 0 <= i < names.len() implies (#[trigger] keep_spec(m, names).1.contains_key(names[i])
            && keep_spec(m, names).1[names[i]].col_id == i && keep_spec(m, names).1[names[i]].is_set) by {
            if i < names.len() - 1 {
                assert(names[i] == p[i]);
                assert(kept.contains_key(p[i]));
                assert(!rest.contains_key(p[i]));
                assert(names[i] != names.last());
            }
        }
        let id = names.last();
        assert(rest.contains_key(id));
        assert(keep_spec(m, names).1 == kept.insert(id, VariableModel { col_id: (names.len() - 1) as nat, is_set: true, ..rest[id] }));
        assert forall|k: u64| keep_spec(m, names).1.contains_key(k) implies names.contains(k) by {
            if k != id {
                assert(kept.contains_key(k));
                assert(p.contains(k));
                let j = choose|j: int| 0 <= j < p.len() && p[j] == k;
                assert(names[j] == k);
            } else {
                assert(names[names.len() - 1] == k);
            }
        }
    }
}

/// What remains to be moved are the variables not kept yet, and none of those kept.
pub proof fn lemma_keep_rest(m: Map<u64, VariableModel>, names: Seq<u64>)
    ensures
        forall|k: u64| #[trigger] keep_spec(m, names).0.contains_key(k) ==> m.contains_key(k) && keep_spec(m, names).0[k] == m[k],
        forall|k: u64| #[trigger] keep_spec(m, names).1.contains_key(k) ==> !keep_spec(m, names).0.contains_key(k),
        forall|k: u64| #[trigger] keep_spec(m, names).1.contains_key(k) ==> m.contains_key(k),
    decreases names.len(),
{
    if names.len() > 0 {
        let p = names.drop_last();
        lemma_keep_rest(m, p);
        let (rest, kept, err) = keep_spec(m, p);
        let id = names.last();
        if err is None && rest.contains_key(id) {
            let r2 = rest.remove(id);
            let k2 = kept.insert(id, VariableModel { col_id: (names.len() - 1) as nat, is_set: true, ..rest[id] });
            assert(keep_spec(m, names) == (r2, k2, None::<ErrorKind>));
            assert forall|k: u64| r2.contains_key(k) implies m.contains_key(k) && r2[k] == m[k] by {
                assert(keep_spec(m, p).0.contains_key(k));
            }
            assert forall|k: u64| k2.contains_key(k) implies !r2.contains_key(k) && m.contains_key(k) by {
                if k != id {
                    assert(keep_spec(m, p).1.contains_key(k));
                } else {
                    assert(keep_spec(m, p).0.contains_key(k));
                }
            }
        } else {
            assert(keep_spec(m, names).0 == rest && keep_spec(m, names).1 == kept);
        }
    }
}

} // verus!
