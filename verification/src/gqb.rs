use vstd::prelude::*;
use vstd::std_specs::iter::IteratorSpec;
use crate::text::{concat, push_char, push_decimal, decimal};

verus! {

broadcast use vstd::std_specs::vec::group_vec_axioms;

/// Binary operator of the query builder.
#[derive(Debug, PartialEq, Eq, Structural, Clone, Copy)]
pub enum BinOp {
    And,
    Or,
    Equal,
    Different,
    Superior,
    SuperiorEqual,
    Inferior,
    InferiorEqual,
    Addition,
    Substraction,
    Multiplication,
    Division,
}

/// OpenCypher text of a binary operator.
pub open spec fn bin_op_text(op: BinOp) -> Seq<char> {
    match op {
        BinOp::And => "AND"@,
        BinOp::Or => "OR"@,
        BinOp::Equal => "="@,
        BinOp::Different => "!="@,
        BinOp::Superior => ">"@,
        BinOp::SuperiorEqual => ">="@,
        BinOp::Inferior => "<"@,
        BinOp::InferiorEqual => "<="@,
        BinOp::Addition => "+"@,
        BinOp::Substraction => "-"@,
        BinOp::Multiplication => "*"@,
        BinOp::Division => "/"@,
    }
}

impl BinOp {
    /// OpenCypher text of the operator.
    pub fn into_oc_query(self) -> (r: String)
        ensures
            r@ == bin_op_text(self),
    {
        let s: &str = match self {
            BinOp::And => "AND",
            BinOp::Or => "OR",
            BinOp::Equal => "=",
            BinOp::Different => "!=",
            BinOp::Superior => ">",
            BinOp::SuperiorEqual => ">=",
            BinOp::Inferior => "<",
            BinOp::InferiorEqual => "<=",
            BinOp::Addition => "+",
            BinOp::Substraction => "-",
            BinOp::Multiplication => "*",
            BinOp::Division => "/",
        };
        String::from_str(s)
    }
}

/// Name of a variable in a built query: a prefix followed by a number.
#[derive(Debug, PartialEq, Eq, Clone, Copy, Hash)]
pub struct Variable {
    suffix: &'static str,
    id: usize,
}

impl View for Variable {
    type V = (Seq<char>, nat);

    closed spec fn view(&self) -> (Seq<char>, nat) {
        (self.suffix@, self.id as nat)
    }
}

impl Variable {
    /// A variable named by its prefix and number.
    pub fn new(suffix: &'static str, id: usize) -> (r: Variable)
        ensures
            r@ == (suffix@, id as nat),
    {
        Variable { suffix, id }
    }

    /// Text of the variable in a query: the prefix, then the number.
    pub fn to_string(&self) -> (r: String)
        ensures
            r@ == self@.0 + decimal(self@.1),
    {
        let mut s = String::from_str(self.suffix);
        push_decimal(&mut s, self.id as u128);
        s
    }
}

/// Variables given to a function of the builder, in order.
pub trait Variables: Sized {
    /// The variables, in order.
    spec fn variables(&self) -> Seq<Variable>;

    /// Appends the variables to `vector`.
    fn fill(self, vector: &mut Vec<Variable>)
        ensures
            final(vector)@ == old(vector)@ + self.variables();
}

impl Variables for Variable {
    open spec fn variables(&self) -> Seq<Variable> {
        seq![*self]
    }

    fn fill(self, vector: &mut Vec<Variable>) {
        let ghost before = vector@;
        vector.push(self);
        assert(vector@ =~= before + seq![self]);
    }
}

impl Variables for Vec<Variable> {
    open spec fn variables(&self) -> Seq<Variable> {
        self@
    }

    fn fill(self, vector: &mut Vec<Variable>) {
        let mut other = self;
        vector.append(&mut other);
    }
}

impl Variables for (Variable, Variable) {
    open spec fn variables(&self) -> Seq<Variable> {
        seq![self.0, self.1]
    }

    fn fill(self, vector: &mut Vec<Variable>) {
        let ghost before = vector@;
        vector.push(self.0);
        vector.push(self.1);
        assert(vector@ =~= before + seq![self.0, self.1]);
    }
}

impl Variables for (Variable, Variable, Variable) {
    open spec fn variables(&self) -> Seq<Variable> {
        seq![self.0, self.1, self.2]
    }

    fn fill(self, vector: &mut Vec<Variable>) {
        let ghost before = vector@;
        vector.push(self.0);
        vector.push(self.1);
        vector.push(self.2);
        assert(vector@ =~= before + seq![self.0, self.1, self.2]);
    }
}

/// Character allowed in a label: ASCII letters and digits, and `_`.
pub open spec fn is_label_char(c: char) -> bool {
    ('a' <= c && c <= 'z') || ('A' <= c && c <= 'Z') || ('0' <= c && c <= '9') || c == '_'
}

/// A label character is kept, any other character becomes `_`.
pub open spec fn label_char(c: char) -> char {
    if is_label_char(c) { c } else { '_' }
}

/// Valid label made from a string.
pub open spec fn graph_label(s: Seq<char>) -> Seq<char> {
    s.map_values(|c: char| label_char(c))
}

/// Makes a string into a valid label: each character that is not an ASCII letter, an ASCII digit
/// or `_` is replaced by `_`.
pub fn to_graph_label_impl(string: &str) -> (r: String)
    ensures
        r@ == graph_label(string@),
{
    broadcast use vstd::string::axiom_spec_iter;
    let mut out = String::new();
    let mut it = string.chars();
    let ghost all = string@;
    let ghost mut done: int = 0;
    assert(it.remaining() == all);
    loop
        invariant
            0 <= done <= all.len(),
            it.remaining() == all.subrange(done, all.len() as int),
            out@ == graph_label(all.subrange(0, done)),
        ensures
            out@ == graph_label(all),
        decreases all.len() - done,
    {
        let next = it.next();
        match next {
            Some(c) => {
                let l = if ('a' <= c && c <= 'z') || ('A' <= c && c <= 'Z') || ('0' <= c && c <= '9') || c == '_' {
                    c
                } else {
                    '_'
                };
                push_char(&mut out, l);
                proof {
                    assert(c == all[done]);
                    assert(graph_label(all.subrange(0, done + 1)) =~= graph_label(all.subrange(0, done)).push(label_char(c)));
                    done = done + 1;
                }
            },
            None => {
                proof {
                    assert(done == all.len());
                    assert(all.subrange(0, done) =~= all);
                }
                break;
            },
        }
    }
    out
}

/// Makes a string into a valid label.
pub trait ToGraphLabel {
    /// Text of the value.
    spec fn text(&self) -> Seq<char>;

    /// Makes the text into a valid label.
    fn to_graph_label(&self) -> (r: String)
        ensures
            r@ == graph_label(self.text());
}

impl ToGraphLabel for String {
    open spec fn text(&self) -> Seq<char> {
        self@
    }

    fn to_graph_label(&self) -> (r: String) {
        to_graph_label_impl(self.as_str())
    }
}

impl ToGraphLabel for str {
    open spec fn text(&self) -> Seq<char> {
        self@
    }

    fn to_graph_label(&self) -> (r: String) {
        to_graph_label_impl(self)
    }
}


/// Every character of a label is a label character, and a label is as long as its text.
pub proof fn lemma_graph_label_valid(s: Seq<char>)
    ensures
        graph_label(s).len() == s.len(),
        forall|i: int| 0 <= i < s.len() ==> is_label_char(#[trigger] graph_label(s)[i]),
{
}

/// Making a label out of a label gives it back.
pub proof fn lemma_graph_label_idempotent(s: Seq<char>)
    ensures
        graph_label(graph_label(s)) == graph_label(s),
{
    assert(graph_label(graph_label(s)) =~= graph_label(s));
}

} // verus!
