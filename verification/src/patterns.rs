use vstd::prelude::*;
use crate::ast::{LabelExpression, LabelModel, VariableIdentifier};
use crate::expression::{ExprModel, Expression};

verus! {

/// Direction constraint of an edge pattern.
#[derive(Debug, PartialEq, Eq, Structural, Clone, Copy)]
pub enum EdgeDirectivity {
    Undirected,
    Directed,
}

/// Pattern matching or creating a node: `(variable:labels {properties})`.
#[derive(Debug)]
pub struct NodePattern {
    pub variable: Option<VariableIdentifier>,
    pub labels: LabelExpression,
    pub properties: Option<Expression>,
}

/// Pattern matching or creating an edge between two nodes.
#[derive(Debug)]
pub struct EdgePattern {
    pub variable: Option<VariableIdentifier>,
    pub source: NodePattern,
    pub destination: NodePattern,
    pub directivity: EdgeDirectivity,
    pub labels: LabelExpression,
    pub properties: Option<Expression>,
}

/// Pattern naming a path made of one edge: `p = (a)-[e]->(b)`.
#[derive(Debug)]
pub struct PathPattern {
    pub variable: VariableIdentifier,
    pub edge: EdgePattern,
}

/// A pattern of a `MATCH` or `CREATE` statement.
#[derive(Debug)]
pub enum Pattern {
    Node(NodePattern),
    Edge(EdgePattern),
    Path(PathPattern),
}

/// Model of the parts of a pattern that are compared: labels and properties.
pub struct PatternShape {
    pub labels: LabelModel,
    pub properties: Option<ExprModel>,
}

/// Id of an optional variable.
pub open spec fn var_id(v: Option<VariableIdentifier>) -> Option<u64> {
    match v {
        Some(i) => Some(i@.1),
        None => None,
    }
}

/// Model of optional properties.
pub open spec fn view_properties(p: Option<Expression>) -> Option<ExprModel> {
    match p {
        Some(e) => Some(e@),
        None => None,
    }
}

impl NodePattern {
    /// Labels and properties of the pattern.
    pub open spec fn shape(&self) -> PatternShape {
        PatternShape { labels: self.labels@, properties: view_properties(self.properties) }
    }

    /// Copies the pattern.
    pub fn duplicate(&self) -> (r: NodePattern)
        ensures
            var_id(r.variable) == var_id(self.variable),
            r.shape() == self.shape(),
            r.variable matches Some(v) ==> self.variable matches Some(w) && v@ == w@,
    {
        NodePattern {
            variable: match &self.variable { Some(v) => Some(v.duplicate()), None => None },
            labels: self.labels.duplicate(),
            properties: match &self.properties { Some(p) => Some(p.duplicate()), None => None },
        }
    }
}

impl EdgePattern {
    /// Labels and properties of the pattern.
    pub open spec fn shape(&self) -> PatternShape {
        PatternShape { labels: self.labels@, properties: view_properties(self.properties) }
    }

    /// Copies the pattern.
    pub fn duplicate(&self) -> (r: EdgePattern)
        ensures
            var_id(r.variable) == var_id(self.variable),
            r.shape() == self.shape(),
            var_id(r.source.variable) == var_id(self.source.variable),
            r.source.shape() == self.source.shape(),
            var_id(r.destination.variable) == var_id(self.destination.variable),
            r.destination.shape() == self.destination.shape(),
            r.directivity == self.directivity,
    {
        EdgePattern {
            variable: match &self.variable { Some(v) => Some(v.duplicate()), None => None },
            source: self.source.duplicate(),
            destination: self.destination.duplicate(),
            directivity: self.directivity,
            labels: self.labels.duplicate(),
            properties: match &self.properties { Some(p) => Some(p.duplicate()), None => None },
        }
    }
}

/// Compares optional properties of two patterns.
pub fn properties_equal(a: &Option<Expression>, b: &Option<Expression>) -> (r: bool)
    ensures
        r == (view_properties(*a) == view_properties(*b)),
{
    match (a, b) {
        (Some(x), Some(y)) => x.equals(y),
        (None, None) => true,
        _ => false,
    }
}

/// An expression with the name under which its value is exposed.
#[derive(Debug)]
pub struct NamedExpression {
    pub identifier: VariableIdentifier,
    pub expression: Expression,
}

/// An `ORDER BY` criterion.
#[derive(Debug)]
pub struct OrderByExpression {
    pub asc: bool,
    pub expression: Expression,
}

/// `ORDER BY`, `SKIP` and `LIMIT` of a `RETURN` or `WITH` statement.
#[derive(Debug)]
pub struct Modifiers {
    pub skip: Option<Expression>,
    pub limit: Option<Expression>,
    pub order_by: Option<Vec<OrderByExpression>>,
}

} // verus!
