use vstd::prelude::*;
use crate::text::{concat, push_decimal, decimal};
use crate::value::{Value, ValueModel, view_value};

verus! {

broadcast use vstd::std_specs::vec::group_vec_axioms;

/// Name of a variable of a query. Two identifiers are the same variable when they
/// have the same `id`; the name only serves for messages.
#[derive(Debug)]
pub struct VariableIdentifier {
    name: String,
    id: u64,
}

impl View for VariableIdentifier {
    type V = (Seq<char>, u64);

    closed spec fn view(&self) -> (Seq<char>, u64) {
        (self.name@, self.id)
    }
}

impl VariableIdentifier {
    /// Creates an identifier.
    pub fn new(name: String, id: u64) -> (r: VariableIdentifier)
        ensures
            r@ == (name@, id),
    {
        VariableIdentifier { name, id }
    }

    /// Name of the variable.
    pub fn name(&self) -> (r: &String)
        ensures
            r@ == self@.0,
    {
        &self.name
    }

    /// Name of the variable, consuming the identifier.
    pub fn take_name(self) -> (r: String)
        ensures
            r@ == self@.0,
    {
        self.name
    }

    /// Unique identifier of the variable.
    pub fn id(&self) -> (r: u64)
        ensures
            r == self@.1,
    {
        self.id
    }

    /// Whether the two identifiers denote the same variable.
    pub fn same_as(&self, other: &VariableIdentifier) -> (r: bool)
        ensures
            r == (self@.1 == other@.1),
    {
        self.id == other.id
    }

    /// Copies the identifier.
    pub fn duplicate(&self) -> (r: VariableIdentifier)
        ensures
            r@ == self@,
    {
        VariableIdentifier { name: self.name.clone(), id: self.id }
    }
}

/// Generator of variable identifiers: a given name always yields the same identifier,
/// anonymous variables get fresh identifiers.
#[derive(Debug)]
pub struct VariableIdentifiers {
    next_id: u64,
    identifiers: Vec<VariableIdentifier>,
}

impl View for VariableIdentifiers {
    type V = (u64, Seq<(Seq<char>, u64)>);

    closed spec fn view(&self) -> (u64, Seq<(Seq<char>, u64)>) {
        (self.next_id, self.identifiers@.map_values(|v: VariableIdentifier| v@))
    }
}

/// The named identifiers have distinct names and distinct ids, all below the next id.
pub open spec fn identifiers_wf(m: (u64, Seq<(Seq<char>, u64)>)) -> bool {
    &&& forall|i: int| 0 <= i < m.1.len() ==> (#[trigger] m.1[i]).1 < m.0
    &&& forall|i: int, j: int| 0 <= i < j < m.1.len() ==> (#[trigger] m.1[i]).0 != (#[trigger] m.1[j]).0
    &&& forall|i: int, j: int| 0 <= i < j < m.1.len() ==> (#[trigger] m.1[i]).1 != (#[trigger] m.1[j]).1
}

/// Name given to the anonymous variable with the given id.
pub open spec fn anonymous_name(id: u64) -> Seq<char> {
    "anonymous_"@ + decimal(id as nat)
}

impl VariableIdentifiers {
    /// A generator that has created no identifier.
    pub fn new() -> (r: VariableIdentifiers)
        ensures
            r@ == (0u64, Seq::<(Seq<char>, u64)>::empty()),
            identifiers_wf(r@),
    {
        let r = VariableIdentifiers { next_id: 0, identifiers: Vec::new() };
        assert(r@.1 =~= Seq::<(Seq<char>, u64)>::empty());
        r
    }

    /// Returns the next id and advances the counter, wrapping around like an atomic counter.
    fn next_id(&mut self) -> (r: u64)
        ensures
            r == old(self)@.0,
            final(self)@.0 == (if old(self)@.0 == u64::MAX { 0 } else { (old(self)@.0 + 1) as u64 }),
            final(self).identifiers == old(self).identifiers,
    {
        let id = self.next_id;
        self.next_id = id.wrapping_add(1);
        id
    }

    /// The identifier for the given name: the one already created for this name, or a fresh one.
    pub fn create_variable_from_name(&mut self, name: String) -> (r: VariableIdentifier)
        requires
            old(self)@.0 < u64::MAX,
            identifiers_wf(old(self)@),
        ensures
            identifiers_wf(final(self)@),
            r@.0 == name@,
            (exists|i: int| 0 <= i < old(self)@.1.len() && (#[trigger] old(self)@.1[i]).0 == name@)
                ==> final(self)@ == old(self)@ && old(self)@.1.contains(r@),
            (forall|i: int| 0 <= i < old(self)@.1.len() ==> (#[trigger] old(self)@.1[i]).0 != name@)
                ==> r@.1 == old(self)@.0 && final(self)@ == (
                    (old(self)@.0 + 1) as u64,
                    old(self)@.1.push((name@, old(self)@.0)),
                ),
    {
        let ghost m = self@;
        for i in 0..self.identifiers.len()
            invariant
                self@ == m,
                identifiers_wf(m),
                forall|j: int| 0 <= j < i ==> (#[trigger] m.1[j]).0 != name@,
        {
            if self.identifiers[i].name == name {
                let r = self.identifiers[i].duplicate();
                proof {
                    assert(m.1[i as int] == r@);
                }
                return r;
            }
        }
        let id = self.next_id();
        let vn = VariableIdentifier { name, id };
        let stored = vn.duplicate();
        self.identifiers.push(stored);
        assert(self@.1 =~= m.1.push((vn@.0, id)));
        vn
    }

    /// The identifier for the name, if a name is given.
    pub fn create_variable_from_name_optional(&mut self, name: Option<String>) -> (r: Option<VariableIdentifier>)
        requires
            old(self)@.0 < u64::MAX,
            identifiers_wf(old(self)@),
        ensures
            identifiers_wf(final(self)@),
            name is None <==> r is None,
            name is None ==> final(self)@ == old(self)@,
            name matches Some(n) ==> r matches Some(v) && v@.0 == n@,
    {
        match name {
            Some(name) => Some(self.create_variable_from_name(name)),
            None => None,
        }
    }

    /// A fresh identifier, named after its id.
    pub fn create_anonymous_variable(&mut self) -> (r: VariableIdentifier)
        ensures
            r@ == (anonymous_name(old(self)@.0), old(self)@.0),
            final(self)@.1 == old(self)@.1,
            final(self)@.0 == (if old(self)@.0 == u64::MAX { 0 } else { (old(self)@.0 + 1) as u64 }),
            identifiers_wf(old(self)@) && old(self)@.0 < u64::MAX ==> identifiers_wf(final(self)@),
    {
        let id = self.next_id();
        let mut name = concat("anonymous_", "");
        proof { reveal_strlit("anonymous_"); reveal_strlit(""); }
        push_decimal(&mut name, id as u128);
        let r = VariableIdentifier { name, id };
        assert(self@.1 == old(self)@.1);
        assert(r@.0 =~= anonymous_name(id));
        r
    }
}

/// Mathematical model of a label expression.
pub enum LabelModel {
    Not(Box<LabelModel>),
    And(Seq<LabelModel>),
    Or(Seq<LabelModel>),
    Label(Seq<char>),
    Empty,
}

/// Expression over labels, used to select nodes and edges.
#[derive(Debug)]
pub enum LabelExpression {
    Not(Box<LabelExpression>),
    And(Vec<LabelExpression>),
    Or(Vec<LabelExpression>),
    String(String),
    Empty,
}

pub open spec fn view_label_expressions(s: Seq<LabelExpression>) -> Seq<LabelModel>
    decreases s,
{
    if s.len() == 0 {
        Seq::empty()
    } else {
        view_label_expressions(s.subrange(0, s.len() - 1)).push(view_label_expression(s[s.len() - 1]))
    }
}

pub open spec fn view_label_expression(e: LabelExpression) -> LabelModel
    decreases e,
{
    match e {
        LabelExpression::Not(b) => LabelModel::Not(Box::new(view_label_expression(*b))),
        LabelExpression::And(v) => LabelModel::And(view_label_expressions(v@)),
        LabelExpression::Or(v) => LabelModel::Or(view_label_expressions(v@)),
        LabelExpression::String(s) => LabelModel::Label(s@),
        LabelExpression::Empty => LabelModel::Empty,
    }
}

impl View for LabelExpression {
    type V = LabelModel;

    open spec fn view(&self) -> LabelModel {
        view_label_expression(*self)
    }
}

pub proof fn lemma_view_label_expressions(s: Seq<LabelExpression>)
    ensures
        view_label_expressions(s).len() == s.len(),
        forall|i: int| 0 <= i < s.len() ==> #[trigger] view_label_expressions(s)[i] == view_label_expression(s[i]),
    decreases s.len(),
{
    if s.len() > 0 {
        lemma_view_label_expressions(s.subrange(0, s.len() - 1));
    }
}

pub proof fn lemma_view_label_expressions_push(s: Seq<LabelExpression>, e: LabelExpression)
    ensures
        view_label_expressions(s.push(e)) == view_label_expressions(s).push(view_label_expression(e)),
{
    assert(s.push(e).subrange(0, s.len() as int) =~= s);
}

pub proof fn lemma_view_label_expressions_append(s: Seq<LabelExpression>, t: Seq<LabelExpression>)
    ensures
        view_label_expressions(s + t) == view_label_expressions(s) + view_label_expressions(t),
{
    lemma_view_label_expressions(s);
    lemma_view_label_expressions(t);
    lemma_view_label_expressions(s + t);
    assert(view_label_expressions(s + t) =~= view_label_expressions(s) + view_label_expressions(t));
}

/// Conjunction of label expressions, flattening nested conjunctions.
pub open spec fn label_and(a: LabelModel, b: LabelModel) -> LabelModel {
    match a {
        LabelModel::Empty => b,
        LabelModel::And(v) => match b {
            LabelModel::Empty => LabelModel::And(v),
            LabelModel::And(w) => LabelModel::And(v + w),
            other => LabelModel::And(v.push(other)),
        },
        _ => match b {
            LabelModel::Empty => a,
            LabelModel::And(w) => LabelModel::And(w.push(a)),
            _ => LabelModel::And(seq![a, b]),
        },
    }
}

/// Disjunction of label expressions, flattening nested disjunctions. A disjunction combined
/// with the empty expression becomes a conjunction of the same operands.
pub open spec fn label_or(a: LabelModel, b: LabelModel) -> LabelModel {
    match a {
        LabelModel::Empty => b,
        LabelModel::Or(v) => match b {
            LabelModel::Empty => LabelModel::And(v),
            LabelModel::Or(w) => LabelModel::Or(v + w),
            other => LabelModel::Or(v.push(other)),
        },
        _ => match b {
            LabelModel::Empty => a,
            LabelModel::Or(w) => LabelModel::Or(w.push(a)),
            _ => LabelModel::Or(seq![a, b]),
        },
    }
}

/// Holds for expressions made only of labels and conjunctions: every label is required.
pub open spec fn label_all_inclusive(e: LabelModel) -> bool
    decreases e,
{
    match e {
        LabelModel::Empty => true,
        LabelModel::And(v) => labels_all_inclusive(v),
        LabelModel::Or(_) => false,
        LabelModel::Label(_) => true,
        LabelModel::Not(_) => false,
    }
}

/// Every expression of the sequence is all-inclusive.
pub open spec fn labels_all_inclusive(v: Seq<LabelModel>) -> bool
    decreases v,
{
    if v.len() == 0 {
        true
    } else {
        labels_all_inclusive(v.subrange(0, v.len() - 1)) && label_all_inclusive(v[v.len() - 1])
    }
}

pub proof fn lemma_labels_all_inclusive(v: Seq<LabelModel>)
    ensures
        labels_all_inclusive(v) <==> forall|i: int| 0 <= i < v.len() ==> label_all_inclusive(#[trigger] v[i]),
    decreases v.len(),
{
    if v.len() > 0 {
        let p = v.subrange(0, v.len() - 1);
        lemma_labels_all_inclusive(p);
        assert forall|i: int| 0 <= i < p.len() implies #[trigger] p[i] == v[i] by {}
        if forall|i: int| 0 <= i < v.len() ==> label_all_inclusive(#[trigger] v[i]) {
            assert forall|i: int| 0 <= i < p.len() implies label_all_inclusive(#[trigger] p[i]) by {
                assert(p[i] == v[i]);
            }
            assert(label_all_inclusive(v[v.len() - 1]));
        }
        if labels_all_inclusive(v) {
            assert forall|i: int| 0 <= i < v.len() implies label_all_inclusive(#[trigger] v[i]) by {
                if i < v.len() - 1 {
                    assert(p[i] == v[i]);
                }
            }
        }
    }
}

impl LabelExpression {
    /// Conjunction of two label expressions.
    pub fn and(self, rhs: LabelExpression) -> (r: LabelExpression)
        ensures
            r@ == label_and(self@, rhs@),
    {
        match self {
            LabelExpression::Empty => rhs,
            LabelExpression::And(mut vec) => match rhs {
                LabelExpression::Empty => LabelExpression::And(vec),
                LabelExpression::And(mut rhs_vec) => {
                    let ghost v0 = vec@;
                    let ghost w0 = rhs_vec@;
                    vec.append(&mut rhs_vec);
                    proof { lemma_view_label_expressions_append(v0, w0); }
                    LabelExpression::And(vec)
                },
                other => {
                    let ghost v0 = vec@;
                    proof { lemma_view_label_expressions_push(v0, other); }
                    vec.push(other);
                    LabelExpression::And(vec)
                },
            },
            _ => match rhs {
                LabelExpression::Empty => self,
                LabelExpression::And(mut vec) => {
                    let ghost v0 = vec@;
                    proof { lemma_view_label_expressions_push(v0, self); }
                    vec.push(self);
                    LabelExpression::And(vec)
                },
                _ => {
                    let ghost a = self;
                    let ghost b = rhs;
                    let v = vec![self, rhs];
                    proof {
                        lemma_view_label_expressions(v@);
                        assert(view_label_expressions(v@) =~= seq![view_label_expression(a), view_label_expression(b)]);
                    }
                    LabelExpression::And(v)
                },
            },
        }
    }

    /// Disjunction of two label expressions.
    pub fn or(self, rhs: LabelExpression) -> (r: LabelExpression)
        ensures
            r@ == label_or(self@, rhs@),
    {
        match self {
            LabelExpression::Empty => rhs,
            LabelExpression::Or(mut vec) => match rhs {
                LabelExpression::Empty => LabelExpression::And(vec),
                LabelExpression::Or(mut rhs_vec) => {
                    let ghost v0 = vec@;
                    let ghost w0 = rhs_vec@;
                    vec.append(&mut rhs_vec);
                    proof { lemma_view_label_expressions_append(v0, w0); }
                    LabelExpression::Or(vec)
                },
                other => {
                    let ghost v0 = vec@;
                    proof { lemma_view_label_expressions_push(v0, other); }
                    vec.push(other);
                    LabelExpression::Or(vec)
                },
            },
            _ => match rhs {
                LabelExpression::Empty => self,
                LabelExpression::Or(mut vec) => {
                    let ghost v0 = vec@;
                    proof { lemma_view_label_expressions_push(v0, self); }
                    vec.push(self);
                    LabelExpression::Or(vec)
                },
                _ => {
                    let ghost a = self;
                    let ghost b = rhs;
                    let v = vec![self, rhs];
                    proof {
                        lemma_view_label_expressions(v@);
                        assert(view_label_expressions(v@) =~= seq![view_label_expression(a), view_label_expression(b)]);
                    }
                    LabelExpression::Or(v)
                },
            },
        }
    }

    /// The expression only requires labels: it is made of labels and conjunctions.
    pub fn is_all_inclusive(&self) -> (r: bool)
        ensures
            r == label_all_inclusive(self@),
        decreases self,
    {
        match self {
            LabelExpression::Empty => true,
            LabelExpression::And(exprs) => {
                proof { lemma_view_label_expressions(exprs@); }
                for i in 0..exprs.len()
                    invariant
                        *self == LabelExpression::And(*exprs),
                        view_label_expressions(exprs@).len() == exprs@.len(),
                        forall|j: int| 0 <= j < exprs@.len() ==> #[trigger] view_label_expressions(exprs@)[j] == view_label_expression(exprs@[j]),
                        forall|j: int| 0 <= j < i ==> label_all_inclusive(#[trigger] view_label_expressions(exprs@)[j]),
                {
                    proof {
                        assert(decreases_to!(*self => (*self)->And_0));
                        assert(decreases_to!(*exprs => exprs@));
                        assert(decreases_to!(exprs@ => exprs@[i as int]));
                    }
                    if !exprs[i].is_all_inclusive() {
                        assert(self@ == LabelModel::And(view_label_expressions(exprs@)));
                        assert(!label_all_inclusive(view_label_expressions(exprs@)[i as int]));
                        proof { lemma_labels_all_inclusive(view_label_expressions(exprs@)); }
                        return false;
                    }
                }
                proof { lemma_labels_all_inclusive(view_label_expressions(exprs@)); }
                true
            },
            LabelExpression::Or(_) => false,
            LabelExpression::String(_) => true,
            LabelExpression::Not(_) => false,
        }
    }

    /// The expression is empty.
    pub fn is_none(&self) -> (r: bool)
        ensures
            r == (self@ is Empty),
    {
        match self {
            LabelExpression::Empty => true,
            _ => false,
        }
    }

    /// The expression is a single label.
    pub fn is_string(&self) -> (r: bool)
        ensures
            r == (self@ is Label),
    {
        match self {
            LabelExpression::String(_) => true,
            _ => false,
        }
    }

    /// Equality of the models of two label expressions.
    pub fn equals(&self, other: &LabelExpression) -> (r: bool)
        ensures
            r == (self@ == other@),
        decreases self,
    {
        match (self, other) {
            (LabelExpression::Empty, LabelExpression::Empty) => true,
            (LabelExpression::String(a), LabelExpression::String(b)) => {
                let r = *a == *b;
                assert(r == (self@ == other@));
                r
            },
            (LabelExpression::Not(a), LabelExpression::Not(b)) => {
                assert(decreases_to!(*self => (*self)->Not_0));
                let r = (**a).equals(&**b);
                assert(self@ == LabelModel::Not(Box::new(view_label_expression(**a))));
                assert(other@ == LabelModel::Not(Box::new(view_label_expression(**b))));
                r
            },
            (LabelExpression::And(a), LabelExpression::And(b)) | (LabelExpression::Or(a), LabelExpression::Or(b)) => {
                proof {
                    lemma_view_label_expressions(a@);
                    lemma_view_label_expressions(b@);
                }
                if a.len() != b.len() {
                    assert(view_label_expressions(a@).len() != view_label_expressions(b@).len());
                    return false;
                }
                for i in 0..a.len()
                    invariant
                        (*self == LabelExpression::And(*a) && *other == LabelExpression::And(*b))
                            || (*self == LabelExpression::Or(*a) && *other == LabelExpression::Or(*b)),
                        a@.len() == b@.len(),
                        view_label_expressions(a@).len() == a@.len(),
                        view_label_expressions(b@).len() == b@.len(),
                        forall|j: int| 0 <= j < a@.len() ==> #[trigger] view_label_expressions(a@)[j] == view_label_expression(a@[j]),
                        forall|j: int| 0 <= j < b@.len() ==> #[trigger] view_label_expressions(b@)[j] == view_label_expression(b@[j]),
                        forall|j: int| 0 <= j < i ==> view_label_expression(#[trigger] a@[j]) == view_label_expression(b@[j]),
                {
                    proof {
                        if *self == LabelExpression::And(*a) {
                            assert(decreases_to!(*self => (*self)->And_0));
                        } else {
                            assert(decreases_to!(*self => (*self)->Or_0));
                        }
                        assert(decreases_to!(*a => a@));
                        assert(decreases_to!(a@ => a@[i as int]));
                    }
                    if !a[i].equals(&b[i]) {
                        assert(view_label_expressions(a@)[i as int] != view_label_expressions(b@)[i as int]);
                        return false;
                    }
                }
                assert(view_label_expressions(a@) =~= view_label_expressions(b@));
                true
            },
            _ => false,
        }
    }

    /// Copies the expression.
    pub fn duplicate(&self) -> (r: LabelExpression)
        ensures
            r@ == self@,
        decreases self,
    {
        match self {
            LabelExpression::Empty => LabelExpression::Empty,
            LabelExpression::String(s) => LabelExpression::String(s.clone()),
            LabelExpression::Not(a) => {
                assert(decreases_to!(*self => (*self)->Not_0));
                LabelExpression::Not(Box::new((**a).duplicate()))
            },
            LabelExpression::And(a) | LabelExpression::Or(a) => {
                let mut out: Vec<LabelExpression> = Vec::new();
                for i in 0..a.len()
                    invariant
                        *self == LabelExpression::And(*a) || *self == LabelExpression::Or(*a),
                        out@.len() == i,
                        forall|j: int| 0 <= j < i ==> view_label_expression(#[trigger] out@[j]) == view_label_expression(a@[j]),
                {
                    proof {
                        if *self == LabelExpression::And(*a) {
                            assert(decreases_to!(*self => (*self)->And_0));
                        } else {
                            assert(decreases_to!(*self => (*self)->Or_0));
                        }
                        assert(decreases_to!(*a => a@));
                        assert(decreases_to!(a@ => a@[i as int]));
                    }
                    out.push(a[i].duplicate());
                }
                proof {
                    lemma_view_label_expressions(out@);
                    lemma_view_label_expressions(a@);
                    assert(view_label_expressions(out@) =~= view_label_expressions(a@));
                }
                match self {
                    LabelExpression::And(_) => LabelExpression::And(out),
                    _ => LabelExpression::Or(out),
                }
            },
        }
    }
}

/// `label_and` has the empty expression as neutral element.
pub proof fn lemma_label_and_neutral(a: LabelModel)
    ensures
        label_and(LabelModel::Empty, a) == a,
        label_and(a, LabelModel::Empty) == a,
{
}

/// A conjunction of all-inclusive expressions is all-inclusive.
pub proof fn lemma_label_and_all_inclusive(a: LabelModel, b: LabelModel)
    requires
        label_all_inclusive(a),
        label_all_inclusive(b),
    ensures
        label_all_inclusive(label_and(a, b)),
{
    if let LabelModel::And(v) = a { lemma_labels_all_inclusive(v); }
    if let LabelModel::And(w) = b { lemma_labels_all_inclusive(w); }
    match label_and(a, b) {
        LabelModel::And(x) => { lemma_labels_all_inclusive(x); },
        _ => {},
    }
    match a {
        LabelModel::And(v) => match b {
            LabelModel::And(w) => {
                assert forall|i: int| 0 <= i < (v + w).len() implies label_all_inclusive(#[trigger] (v + w)[i]) by {
                    if i < v.len() {
                        assert((v + w)[i] == v[i]);
                    } else {
                        assert((v + w)[i] == w[i - v.len()]);
                    }
                }
            },
            LabelModel::Empty => {},
            other => {
                assert forall|i: int| 0 <= i < v.push(other).len() implies label_all_inclusive(#[trigger] v.push(other)[i]) by {
                    if i < v.len() {
                        assert(v.push(other)[i] == v[i]);
                    }
                }
            },
        },
        LabelModel::Empty => {},
        _ => match b {
            LabelModel::And(w) => {
                assert forall|i: int| 0 <= i < w.push(a).len() implies label_all_inclusive(#[trigger] w.push(a)[i]) by {
                    if i < w.len() {
                        assert(w.push(a)[i] == w[i]);
                    }
                }
            },
            LabelModel::Empty => {},
            _ => {
                let s = seq![a, b];
                assert forall|i: int| 0 <= i < s.len() implies label_all_inclusive(#[trigger] s[i]) by {
                    if i == 0 { assert(s[i] == a); } else { assert(s[i] == b); }
                }
            },
        },
    }
}

} // verus!
