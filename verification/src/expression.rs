use vstd::prelude::*;
use crate::ast::VariableIdentifier;
use crate::value::{view_labels, clone_strings, labels_equal, Value, ValueModel};

verus! {

broadcast use vstd::std_specs::vec::group_vec_axioms;

/// Binary operators of expressions.
#[derive(Debug, PartialEq, Eq, Structural, Clone, Copy)]
pub enum BinaryOperator {
    LogicalAnd,
    LogicalOr,
    LogicalXor,
    RelationalEqual,
    RelationalDifferent,
    RelationalInferior,
    RelationalSuperior,
    RelationalInferiorEqual,
    RelationalSuperiorEqual,
    RelationalIn,
    RelationalNotIn,
    Addition,
    Subtraction,
    Multiplication,
    Division,
    Modulo,
    Exponent,
}

/// Unary operators of expressions.
#[derive(Debug, PartialEq, Eq, Structural, Clone, Copy)]
pub enum UnaryOperator {
    Negation,
    LogicalNegation,
    IsNull,
    IsNotNull,
}

/// Expressions of a query, as produced by the parser.
#[derive(Debug)]
#[allow(inconsistent_fields)]
pub enum Expression {
    Array(Vec<Expression>),
    FunctionCall { name: String, arguments: Vec<Expression> },
    Mapping(Vec<(String, Expression)>),
    IndexAccess { left: Box<Expression>, index: Box<Expression> },
    RangeAccess { left: Box<Expression>, start: Option<Box<Expression>>, end: Option<Box<Expression>> },
    MemberAccess { left: Box<Expression>, path: Vec<String> },
    Parameter(String),
    Value(Value),
    Variable(VariableIdentifier),
    Binary { operator: BinaryOperator, left: Box<Expression>, right: Box<Expression> },
    Unary { operator: UnaryOperator, value: Box<Expression> },
}

/// Mathematical model of an expression; variables are identified by their id.
pub enum ExprModel {
    Array(Seq<ExprModel>),
    FunctionCall(Seq<char>, Seq<ExprModel>),
    Mapping(Seq<(Seq<char>, ExprModel)>),
    IndexAccess(Box<ExprModel>, Box<ExprModel>),
    RangeAccess(Box<ExprModel>, Option<Box<ExprModel>>, Option<Box<ExprModel>>),
    MemberAccess(Box<ExprModel>, Seq<Seq<char>>),
    Parameter(Seq<char>),
    Literal(ValueModel),
    Variable(u64),
    Binary(BinaryOperator, Box<ExprModel>, Box<ExprModel>),
    Unary(UnaryOperator, Box<ExprModel>),
}

pub open spec fn view_expressions(s: Seq<Expression>) -> Seq<ExprModel>
    decreases s,
{
    if s.len() == 0 {
        Seq::empty()
    } else {
        view_expressions(s.subrange(0, s.len() - 1)).push(view_expression(s[s.len() - 1]))
    }
}

pub open spec fn view_named_expressions(s: Seq<(String, Expression)>) -> Seq<(Seq<char>, ExprModel)>
    decreases s,
{
    if s.len() == 0 {
        Seq::empty()
    } else {
        view_named_expressions(s.subrange(0, s.len() - 1)).push((s[s.len() - 1].0@, view_expression(s[s.len() - 1].1)))
    }
}

pub open spec fn view_optional_expression(o: Option<Box<Expression>>) -> Option<Box<ExprModel>>
    decreases o,
{
    match o {
        Some(b) => Some(Box::new(view_expression(*b))),
        None => None,
    }
}

pub open spec fn view_expression(e: Expression) -> ExprModel
    decreases e,
{
    match e {
        Expression::Array(a) => ExprModel::Array(view_expressions(a@)),
        Expression::FunctionCall { name, arguments } => ExprModel::FunctionCall(name@, view_expressions(arguments@)),
        Expression::Mapping(m) => ExprModel::Mapping(view_named_expressions(m@)),
        Expression::IndexAccess { left, index } => ExprModel::IndexAccess(
            Box::new(view_expression(*left)),
            Box::new(view_expression(*index)),
        ),
        Expression::RangeAccess { left, start, end } => ExprModel::RangeAccess(
            Box::new(view_expression(*left)),
            view_optional_expression(start),
            view_optional_expression(end),
        ),
        Expression::MemberAccess { left, path } => ExprModel::MemberAccess(Box::new(view_expression(*left)), view_labels(path@)),
        Expression::Parameter(p) => ExprModel::Parameter(p@),
        Expression::Value(v) => ExprModel::Literal(v@),
        Expression::Variable(v) => ExprModel::Variable(v@.1),
        Expression::Binary { operator, left, right } => ExprModel::Binary(
            operator,
            Box::new(view_expression(*left)),
            Box::new(view_expression(*right)),
        ),
        Expression::Unary { operator, value } => ExprModel::Unary(operator, Box::new(view_expression(*value))),
    }
}

impl View for Expression {
    type V = ExprModel;

    open spec fn view(&self) -> ExprModel {
        view_expression(*self)
    }
}

pub proof fn lemma_view_expressions(s: Seq<Expression>)
    ensures
        view_expressions(s).len() == s.len(),
        forall|i: int| 0 <= i < s.len() ==> #[trigger] view_expressions(s)[i] == view_expression(s[i]),
    decreases s.len(),
{
    if s.len() > 0 {
        lemma_view_expressions(s.subrange(0, s.len() - 1));
    }
}

pub proof fn lemma_view_named_expressions(s: Seq<(String, Expression)>)
    ensures
        view_named_expressions(s).len() == s.len(),
        forall|i: int| 0 <= i < s.len() ==> #[trigger] view_named_expressions(s)[i] == (s[i].0@, view_expression(s[i].1)),
    decreases s.len(),
{
    if s.len() > 0 {
        lemma_view_named_expressions(s.subrange(0, s.len() - 1));
    }
}

impl Expression {
    /// Copies a list of expressions.
    fn duplicate_all(v: &Vec<Expression>) -> (r: Vec<Expression>)
        ensures
            view_expressions(r@) == view_expressions(v@),
        decreases v, 0nat,
    {
        let mut out: Vec<Expression> = Vec::new();
        for i in 0..v.len()
            invariant
                out@.len() == i,
                forall|j: int| 0 <= j < i ==> view_expression(#[trigger] out@[j]) == view_expression(v@[j]),
        {
            assert(decreases_to!(v => v@[i as int]));
            out.push(v[i].duplicate());
        }
        proof {
            lemma_view_expressions(out@);
            lemma_view_expressions(v@);
            assert(view_expressions(out@) =~= view_expressions(v@));
        }
        out
    }

    /// Copies the expression.
    pub fn duplicate(&self) -> (r: Expression)
        ensures
            r@ == self@,
        decreases self, 1nat,
    {
        match self {
            Expression::Array(a) => {
                assert(decreases_to!(*self => (*self)->Array_0));
                let r = Expression::Array(Expression::duplicate_all(a));
                assert(r@ == ExprModel::Array(view_expressions(a@)));
                assert(self@ == ExprModel::Array(view_expressions(a@)));
                r
            },
            Expression::FunctionCall { name, arguments } => {
                assert(decreases_to!(*self => (*self)->arguments));
                Expression::FunctionCall { name: name.clone(), arguments: Expression::duplicate_all(arguments) }
            },
            Expression::Mapping(m) => {
                let mut out: Vec<(String, Expression)> = Vec::new();
                for i in 0..m.len()
                    invariant
                        *self == Expression::Mapping(*m),
                        out@.len() == i,
                        forall|j: int| 0 <= j < i ==> (#[trigger] out@[j]).0@ == m@[j].0@
                            && view_expression(out@[j].1) == view_expression(m@[j].1),
                {
                    proof {
                        assert(decreases_to!(*self => (*self)->Mapping_0));
                        assert(decreases_to!(*m => m@));
                        assert(decreases_to!(m@ => m@[i as int]));
                        assert(decreases_to!(m@[i as int] => m@[i as int].1));
                    }
                    out.push((m[i].0.clone(), m[i].1.duplicate()));
                }
                proof {
                    lemma_view_named_expressions(out@);
                    lemma_view_named_expressions(m@);
                    assert(view_named_expressions(out@) =~= view_named_expressions(m@));
                }
                Expression::Mapping(out)
            },
            Expression::IndexAccess { left, index } => {
                assert(decreases_to!(*self => (*self)->IndexAccess_left));
                assert(decreases_to!(*self => (*self)->index));
                Expression::IndexAccess { left: Box::new((**left).duplicate()), index: Box::new((**index).duplicate()) }
            },
            Expression::RangeAccess { left, start, end } => {
                assert(decreases_to!(*self => (*self)->RangeAccess_left));
                let s = match start {
                    Some(s) => {
                        assert(decreases_to!(*self => (*self)->start));
                        assert(decreases_to!(*start => (*start)->0));
                        Some(Box::new((**s).duplicate()))
                    },
                    None => None,
                };
                let e = match end {
                    Some(e) => {
                        assert(decreases_to!(*self => (*self)->end));
                        assert(decreases_to!(*end => (*end)->0));
                        Some(Box::new((**e).duplicate()))
                    },
                    None => None,
                };
                assert(view_optional_expression(s) == view_optional_expression(*start));
                assert(view_optional_expression(e) == view_optional_expression(*end));
                Expression::RangeAccess { left: Box::new((**left).duplicate()), start: s, end: e }
            },
            Expression::MemberAccess { left, path } => {
                assert(decreases_to!(*self => (*self)->MemberAccess_left));
                Expression::MemberAccess { left: Box::new((**left).duplicate()), path: clone_strings(path) }
            },
            Expression::Parameter(p) => Expression::Parameter(p.clone()),
            Expression::Value(v) => Expression::Value(v.deep_clone()),
            Expression::Variable(v) => Expression::Variable(v.duplicate()),
            Expression::Binary { operator, left, right } => {
                assert(decreases_to!(*self => (*self)->Binary_left));
                assert(decreases_to!(*self => (*self)->right));
                Expression::Binary {
                    operator: *operator,
                    left: Box::new((**left).duplicate()),
                    right: Box::new((**right).duplicate()),
                }
            },
            Expression::Unary { operator, value } => {
                assert(decreases_to!(*self => (*self)->value));
                Expression::Unary { operator: *operator, value: Box::new((**value).duplicate()) }
            },
        }
    }
}


impl Expression {
    fn equals_all(a: &Vec<Expression>, b: &Vec<Expression>) -> (r: bool)
        ensures
            r == (view_expressions(a@) == view_expressions(b@)),
        decreases a, 0nat,
    {
        proof {
            lemma_view_expressions(a@);
            lemma_view_expressions(b@);
        }
        if a.len() != b.len() {
            assert(view_expressions(a@).len() != view_expressions(b@).len());
            return false;
        }
        for i in 0..a.len()
            invariant
                a@.len() == b@.len(),
                view_expressions(a@).len() == a@.len(),
                view_expressions(b@).len() == b@.len(),
                forall|j: int| 0 <= j < a@.len() ==> #[trigger] view_expressions(a@)[j] == view_expression(a@[j]),
                forall|j: int| 0 <= j < b@.len() ==> #[trigger] view_expressions(b@)[j] == view_expression(b@[j]),
                forall|j: int| 0 <= j < i ==> view_expression(#[trigger] a@[j]) == view_expression(b@[j]),
        {
            assert(decreases_to!(a => a@[i as int]));
            if !a[i].equals(&b[i]) {
                assert(view_expressions(a@)[i as int] != view_expressions(b@)[i as int]);
                return false;
            }
        }
        assert(view_expressions(a@) =~= view_expressions(b@));
        true
    }

    fn equals_optional(a: &Option<Box<Expression>>, b: &Option<Box<Expression>>) -> (r: bool)
        ensures
            r == (view_optional_expression(*a) == view_optional_expression(*b)),
        decreases a, 0nat,
    {
        match (a, b) {
            (Some(x), Some(y)) => {
                assert(decreases_to!(*a => (*a)->0));
                let r = (**x).equals(&**y);
                assert(view_optional_expression(*a) == Some(Box::new(view_expression(**x))));
                assert(view_optional_expression(*b) == Some(Box::new(view_expression(**y))));
                r
            },
            (None, None) => true,
            _ => false,
        }
    }

    /// Equality of the models of two expressions: same structure, same values, same variables.
    pub fn equals(&self, other: &Expression) -> (r: bool)
        ensures
            r == (self@ == other@),
        decreases self, 1nat,
    {
        match (self, other) {
            (Expression::Array(a), Expression::Array(b)) => {
                assert(decreases_to!(*self => (*self)->Array_0));
                let r = Expression::equals_all(a, b);
                assert(self@ == ExprModel::Array(view_expressions(a@)));
                assert(other@ == ExprModel::Array(view_expressions(b@)));
                r
            },
            (Expression::FunctionCall { name: n1, arguments: a1 }, Expression::FunctionCall { name: n2, arguments: a2 }) => {
                assert(decreases_to!(*self => (*self)->arguments));
                let r = *n1 == *n2 && Expression::equals_all(a1, a2);
                assert(self@ == ExprModel::FunctionCall(n1@, view_expressions(a1@)));
                assert(other@ == ExprModel::FunctionCall(n2@, view_expressions(a2@)));
                r
            },
            (Expression::Mapping(a), Expression::Mapping(b)) => {
                proof {
                    lemma_view_named_expressions(a@);
                    lemma_view_named_expressions(b@);
                }
                assert(self@ == ExprModel::Mapping(view_named_expressions(a@)));
                assert(other@ == ExprModel::Mapping(view_named_expressions(b@)));
                if a.len() != b.len() {
                    assert(view_named_expressions(a@).len() != view_named_expressions(b@).len());
                    return false;
                }
                for i in 0..a.len()
                    invariant
                        *self == Expression::Mapping(*a),
                        self@ == ExprModel::Mapping(view_named_expressions(a@)),
                        other@ == ExprModel::Mapping(view_named_expressions(b@)),
                        a@.len() == b@.len(),
                        view_named_expressions(a@).len() == a@.len(),
                        view_named_expressions(b@).len() == b@.len(),
                        forall|j: int| 0 <= j < a@.len() ==> #[trigger] view_named_expressions(a@)[j] == (a@[j].0@, view_expression(a@[j].1)),
                        forall|j: int| 0 <= j < b@.len() ==> #[trigger] view_named_expressions(b@)[j] == (b@[j].0@, view_expression(b@[j].1)),
                        forall|j: int| 0 <= j < i ==> view_named_expressions(a@)[j] == #[trigger] view_named_expressions(b@)[j],
                {
                    proof {
                        assert(decreases_to!(*self => (*self)->Mapping_0));
                        assert(decreases_to!(*a => a@));
                        assert(decreases_to!(a@ => a@[i as int]));
                        assert(decreases_to!(a@[i as int] => a@[i as int].1));
                    }
                    if a[i].0 != b[i].0 || !a[i].1.equals(&b[i].1) {
                        assert(view_named_expressions(a@)[i as int] != view_named_expressions(b@)[i as int]);
                        return false;
                    }
                }
                assert(view_named_expressions(a@) =~= view_named_expressions(b@));
                true
            },
            (Expression::IndexAccess { left: l1, index: i1 }, Expression::IndexAccess { left: l2, index: i2 }) => {
                assert(decreases_to!(*self => (*self)->IndexAccess_left));
                assert(decreases_to!(*self => (*self)->index));
                let r = (**l1).equals(&**l2) && (**i1).equals(&**i2);
                assert(self@ == ExprModel::IndexAccess(Box::new(view_expression(**l1)), Box::new(view_expression(**i1))));
                assert(other@ == ExprModel::IndexAccess(Box::new(view_expression(**l2)), Box::new(view_expression(**i2))));
                r
            },
            (Expression::RangeAccess { left: l1, start: s1, end: e1 }, Expression::RangeAccess { left: l2, start: s2, end: e2 }) => {
                assert(decreases_to!(*self => (*self)->RangeAccess_left));
                assert(decreases_to!(*self => (*self)->start));
                assert(decreases_to!(*self => (*self)->end));
                let r = (**l1).equals(&**l2) && Expression::equals_optional(s1, s2) && Expression::equals_optional(e1, e2);
                assert(self@ == ExprModel::RangeAccess(Box::new(view_expression(**l1)), view_optional_expression(*s1), view_optional_expression(*e1)));
                assert(other@ == ExprModel::RangeAccess(Box::new(view_expression(**l2)), view_optional_expression(*s2), view_optional_expression(*e2)));
                r
            },
            (Expression::MemberAccess { left: l1, path: p1 }, Expression::MemberAccess { left: l2, path: p2 }) => {
                assert(decreases_to!(*self => (*self)->MemberAccess_left));
                let r = (**l1).equals(&**l2) && labels_equal(p1, p2);
                assert(self@ == ExprModel::MemberAccess(Box::new(view_expression(**l1)), view_labels(p1@)));
                assert(other@ == ExprModel::MemberAccess(Box::new(view_expression(**l2)), view_labels(p2@)));
                r
            },
            (Expression::Parameter(a), Expression::Parameter(b)) => {
                let r = *a == *b;
                assert(self@ == ExprModel::Parameter(a@));
                assert(other@ == ExprModel::Parameter(b@));
                r
            },
            (Expression::Value(a), Expression::Value(b)) => {
                let r = a.equals(b);
                assert(self@ == ExprModel::Literal(a@));
                assert(other@ == ExprModel::Literal(b@));
                r
            },
            (Expression::Variable(a), Expression::Variable(b)) => {
                let r = a.same_as(b);
                assert(self@ == ExprModel::Variable(a@.1));
                assert(other@ == ExprModel::Variable(b@.1));
                r
            },
            (Expression::Binary { operator: o1, left: l1, right: r1 }, Expression::Binary { operator: o2, left: l2, right: r2 }) => {
                assert(decreases_to!(*self => (*self)->Binary_left));
                assert(decreases_to!(*self => (*self)->right));
                let r = *o1 == *o2 && (**l1).equals(&**l2) && (**r1).equals(&**r2);
                assert(self@ == ExprModel::Binary(*o1, Box::new(view_expression(**l1)), Box::new(view_expression(**r1))));
                assert(other@ == ExprModel::Binary(*o2, Box::new(view_expression(**l2)), Box::new(view_expression(**r2))));
                r
            },
            (Expression::Unary { operator: o1, value: v1 }, Expression::Unary { operator: o2, value: v2 }) => {
                assert(decreases_to!(*self => (*self)->value));
                let r = *o1 == *o2 && (**v1).equals(&**v2);
                assert(self@ == ExprModel::Unary(*o1, Box::new(view_expression(**v1))));
                assert(other@ == ExprModel::Unary(*o2, Box::new(view_expression(**v2))));
                r
            },
            _ => false,
        }
    }
}

} // verus!
