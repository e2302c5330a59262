use vstd::prelude::*;
use crate::ast::VariableIdentifier;
use crate::compiler::{
    calls, compile_spec, compiled_bound, create_run, lemma_compile_calls, lemma_compile_temporaries, lemma_create_pattern_step,
    lemma_fits_by_calls, lemma_match_step, match_run, modifiers_error, modifiers_fit, optional_model, patterns_calls,
    properties_calls, view_aggregation, view_aggregations, view_block_match, view_create_action, view_optional_instructions,
    where_code, where_error, AggModel, Compiler,
};
use crate::error::{kind_of, CompileTimeError, Error, ErrorKind, InternalError};
use crate::expression::{ExprModel, Expression};
use crate::expression_analyser::{analyse_spec, Analyser, ExpressionType};
use crate::functions::Manager;
use crate::instructions::{
    view_instructions, Block, BlockMatch, CreateAction, InstrModel, Instruction, Modifiers, RWAggregation, RWExpression, UpdateOne,
    VariablesSizes,
};
use crate::patterns::{var_id, Modifiers as ModifiersAst, NamedExpression, OrderByExpression, Pattern};
use crate::value::{clone_strings, view_labels};
use crate::variables_manager::{
    analyse_edge_path_spec, analyse_pattern_spec, declare_spec, identifier_ids, keep_spec, lists_variables, mark_set_spec,
    named_expression_spec, node_if_new_spec, types_of_variables, validate_edge_spec, validate_node_spec, VariableModel,
    VariablesManager,
};

verus! {

broadcast use vstd::std_specs::vec::group_vec_axioms;


/// `CREATE GRAPH`.
#[derive(Debug)]
pub struct CreateGraph {
    pub name: String,
}

/// `DROP GRAPH`, which may tolerate a missing graph.
#[derive(Debug)]
pub struct DropGraph {
    pub name: String,
    pub if_exists: bool,
}

/// `USE GRAPH`.
#[derive(Debug)]
pub struct UseGraph {
    pub name: String,
}

/// `CREATE` of patterns.
#[derive(Debug)]
pub struct Create {
    pub patterns: Vec<Pattern>,
}

/// `MATCH` or `OPTIONAL MATCH` of patterns, with a `WHERE` expression.
#[derive(Debug)]
pub struct Match {
    pub patterns: Vec<Pattern>,
    pub where_expression: Option<Expression>,
    pub optional: bool,
}

/// `RETURN`: `*` or named expressions, with a `WHERE` expression and modifiers.
#[derive(Debug)]
pub struct Return {
    pub all: bool,
    pub expressions: Vec<NamedExpression>,
    pub modifiers: ModifiersAst,
    pub where_expression: Option<Expression>,
}

/// `WITH`: `*` or named expressions, with a `WHERE` expression and modifiers.
#[derive(Debug)]
pub struct With {
    pub all: bool,
    pub expressions: Vec<NamedExpression>,
    pub modifiers: ModifiersAst,
    pub where_expression: Option<Expression>,
}

/// `UNWIND expression AS identifier`.
#[derive(Debug)]
pub struct Unwind {
    pub identifier: VariableIdentifier,
    pub expression: Expression,
}

/// `DELETE` or `DETACH DELETE` of the values of expressions.
#[derive(Debug)]
pub struct Delete {
    pub detach: bool,
    pub expressions: Vec<Expression>,
}

/// `SET` and `REMOVE` updates.
#[derive(Debug)]
pub struct Update {
    pub updates: Vec<OneUpdate>,
}

/// `CALL` of a procedure.
#[derive(Debug)]
pub struct Call {
    pub name: String,
    pub arguments: Vec<Expression>,
}

/// One update of a `SET` or `REMOVE`.
#[derive(Debug)]
pub enum OneUpdate {
    SetProperty(UpdateProperty),
    AddProperty(UpdateProperty),
    RemoveProperty(RemoveProperty),
    AddLabels(AddRemoveLabels),
    RemoveLabels(AddRemoveLabels),
}

/// Setting or adding a property of a node or edge, at a path.
#[derive(Debug)]
pub struct UpdateProperty {
    pub target: VariableIdentifier,
    pub path: Vec<String>,
    pub expression: Expression,
}

/// Removing the property of a node or edge at a path.
#[derive(Debug)]
pub struct RemoveProperty {
    pub target: VariableIdentifier,
    pub path: Vec<String>,
}

/// Adding or removing labels of a node.
#[derive(Debug)]
pub struct AddRemoveLabels {
    pub target: VariableIdentifier,
    pub labels: Vec<String>,
}

/// A statement of a query.
#[derive(Debug)]
pub enum Statement {
    CreateGraph(CreateGraph),
    DropGraph(DropGraph),
    UseGraph(UseGraph),
    Create(Create),
    Match(Match),
    Return(Return),
    Call(Call),
    With(With),
    Unwind(Unwind),
    Delete(Delete),
    Update(Update),
}

/// Every variable in scope is set.
pub open spec fn all_set(m: Map<u64, VariableModel>) -> bool {
    forall|k: u64| #[trigger] m.contains_key(k) ==> m[k].is_set
}

/// Analysis of the patterns of a `CREATE`: a node pattern may not name a variable in scope.
pub open spec fn create_analysis(m: Map<u64, VariableModel>, ps: Seq<Pattern>) -> (Map<u64, VariableModel>, Option<ErrorKind>)
    decreases ps.len(),
{
    if ps.len() == 0 {
        (m, None)
    } else {
        let (m1, k1) = create_analysis(m, ps.drop_last());
        if k1 is Some {
            (m1, k1)
        } else if ps.last() matches Pattern::Node(n) && var_id(n.variable) matches Some(i) && m1.contains_key(i) {
            (m1, Some(ErrorKind::VariableAlreadyBound))
        } else {
            analyse_pattern_spec(m1, ps.last(), true)
        }
    }
}

/// Analysis of the patterns of a `MATCH`.
pub open spec fn match_analysis(m: Map<u64, VariableModel>, ps: Seq<Pattern>) -> (Map<u64, VariableModel>, Option<ErrorKind>)
    decreases ps.len(),
{
    if ps.len() == 0 {
        (m, None)
    } else {
        let (m1, k1) = match_analysis(m, ps.drop_last());
        if k1 is Some { (m1, k1) } else { analyse_pattern_spec(m1, ps.last(), false) }
    }
}

/// Analysis of a statement before it is compiled: every variable must be set; the patterns of
/// `CREATE` and `MATCH` declare their variables, and `UNWIND` declares its variable, as set.
pub open spec fn analyse_statement_spec(m: Map<u64, VariableModel>, s: Statement) -> (Map<u64, VariableModel>, Option<ErrorKind>) {
    if !all_set(m) {
        (m, Some(ErrorKind::NotAllVariablesAreSet))
    } else {
        match s {
            Statement::Create(c) => create_analysis(m, c.patterns@),
            Statement::Match(x) => match_analysis(m, x.patterns@),
            Statement::Unwind(u) => {
                let (m1, k1) = declare_spec(m, u.identifier@.1, ExpressionType::Variant);
                if k1 is Some { (m1, k1) } else { mark_set_spec(m1, Some(u.identifier@.1)) }
            },
            _ => (m, None),
        }
    }
}

/// An error in the analysis of a prefix of the patterns of a `CREATE` is the error of all of them.
pub proof fn lemma_create_analysis_err(m: Map<u64, VariableModel>, ps: Seq<Pattern>, j: int)
    requires
        0 <= j <= ps.len(),
        create_analysis(m, ps.take(j)).1 is Some,
    ensures
        create_analysis(m, ps) == create_analysis(m, ps.take(j)),
    decreases ps.len() - j,
{
    if j < ps.len() {
        assert(ps.take(j + 1).drop_last() =~= ps.take(j));
        lemma_create_analysis_err(m, ps, j + 1);
    } else {
        assert(ps.take(j) =~= ps);
    }
}

/// An error in the analysis of a prefix of the patterns of a `MATCH` is the error of all of them.
pub proof fn lemma_match_analysis_err(m: Map<u64, VariableModel>, ps: Seq<Pattern>, j: int)
    requires
        0 <= j <= ps.len(),
        match_analysis(m, ps.take(j)).1 is Some,
    ensures
        match_analysis(m, ps) == match_analysis(m, ps.take(j)),
    decreases ps.len() - j,
{
    if j < ps.len() {
        assert(ps.take(j + 1).drop_last() =~= ps.take(j));
        lemma_match_analysis_err(m, ps, j + 1);
    } else {
        assert(ps.take(j) =~= ps);
    }
}

impl VariablesManager {
    /// Analyses the patterns of a `CREATE`.
    #[verifier::rlimit(40)]
    #[verifier::spinoff_prover]
    fn analyse_create(&mut self, patterns: &Vec<Pattern>) -> (r: Result<(), Error>)
        ensures
            ({
                let (m, k) = create_analysis(old(self)@, patterns@);
                final(self)@ == m && crate::error::outcome_matches(r, k)
            }),
    {
        let ghost m = self@;
        let ghost ps = patterns@;
        assert(ps.take(0) =~= Seq::<Pattern>::empty());
        for i in 0..patterns.len()
            invariant
                ps == patterns@,
                m == old(self)@,
                create_analysis(m, ps.take(i as int)) == (self@, None::<ErrorKind>),
        {
            proof {
                assert(ps.take(i + 1).drop_last() =~= ps.take(i as int));
                assert(ps.take(i + 1).last() == ps[i as int]);
            }
            let p = &patterns[i];
            match p {
                Pattern::Node(n) => {
                    if self.has_variable(&n.variable) {
                        match &n.variable {
                            Some(v) => {
                                proof { lemma_create_analysis_err(m, ps, i + 1); }
                                return Err(Error::CompileTime(CompileTimeError::VariableAlreadyBound { name: v.name().clone() }));
                            },
                            None => {},
                        }
                    }
                },
                _ => {},
            }
            match self.analyse_pattern(p, true) {
                Ok(()) => {},
                Err(e) => {
                    proof { lemma_create_analysis_err(m, ps, i + 1); }
                    return Err(e);
                },
            }
        }
        assert(ps.take(ps.len() as int) =~= ps);
        Ok(())
    }

    /// Analyses the patterns of a `MATCH`.
    #[verifier::rlimit(40)]
    #[verifier::spinoff_prover]
    fn analyse_match(&mut self, patterns: &Vec<Pattern>) -> (r: Result<(), Error>)
        ensures
            ({
                let (m, k) = match_analysis(old(self)@, patterns@);
                final(self)@ == m && crate::error::outcome_matches(r, k)
            }),
    {
        let ghost m = self@;
        let ghost ps = patterns@;
        assert(ps.take(0) =~= Seq::<Pattern>::empty());
        for i in 0..patterns.len()
            invariant
                ps == patterns@,
                m == old(self)@,
                match_analysis(m, ps.take(i as int)) == (self@, None::<ErrorKind>),
        {
            proof {
                assert(ps.take(i + 1).drop_last() =~= ps.take(i as int));
                assert(ps.take(i + 1).last() == ps[i as int]);
            }
            match self.analyse_pattern(&patterns[i], false) {
                Ok(()) => {},
                Err(e) => {
                    proof { lemma_match_analysis_err(m, ps, i + 1); }
                    return Err(e);
                },
            }
        }
        assert(ps.take(ps.len() as int) =~= ps);
        Ok(())
    }

    /// Analyses a statement before it is compiled: every variable must be set; the patterns of
    /// `CREATE` (whose nodes may not name a variable in scope) and of `MATCH` declare their
    /// variables, and `UNWIND` declares its variable, as set.
    pub fn analyse(&mut self, statement: &Statement) -> (r: Result<(), Error>)
        ensures
            ({
                let (m, k) = analyse_statement_spec(old(self)@, *statement);
                final(self)@ == m && crate::error::outcome_matches(r, k)
            }),
    {
        if !self.all_set() {
            let (set_variables, all_variables) = self.variable_names();
            return Err(Error::Internal(InternalError::NotAllVariablesAreSet { set_variables, all_variables }));
        }
        match statement {
            Statement::Create(create) => self.analyse_create(&create.patterns),
            Statement::Match(x) => self.analyse_match(&x.patterns),
            Statement::Unwind(u) => {
                match self.declare_variable(&u.identifier, ExpressionType::Variant) {
                    Ok(()) => {},
                    Err(e) => return Err(e),
                }
                self.mark_variables_as_set(Some(&u.identifier))
            },
            _ => Ok(()),
        }
    }
}

/// The columns of the variables are `0` to the number of variables minus one, each used once.
pub open spec fn dense_columns(m: Map<u64, VariableModel>) -> bool {
    &&& m.dom().finite()
    &&& forall|k: u64| #[trigger] m.contains_key(k) ==> m[k].col_id < m.len()
    &&& forall|a: u64, b: u64| #[trigger] m.contains_key(a) && #[trigger] m.contains_key(b) && a != b ==> m[a].col_id != m[b].col_id
}

/// Every variable of `m` is still in `m2`, with its column and its type.
pub open spec fn keeps_variables(m: Map<u64, VariableModel>, m2: Map<u64, VariableModel>) -> bool {
    forall|k: u64| #[trigger] m.contains_key(k) ==> m2.contains_key(k) && m2[k].col_id == m[k].col_id && m2[k].variable_type == m[k].variable_type
}

/// A step of analysis keeps the columns dense and the variables in scope.
pub open spec fn keeps_columns(m: Map<u64, VariableModel>, m2: Map<u64, VariableModel>) -> bool {
    dense_columns(m) ==> dense_columns(m2) && keeps_variables(m, m2)
}

/// Declaring a new variable at the next column keeps the columns dense.
pub proof fn lemma_insert_new_column(m: Map<u64, VariableModel>, k: u64, v: VariableModel)
    requires
        !m.contains_key(k),
        v.col_id == m.len(),
    ensures
        keeps_columns(m, m.insert(k, v)),
{
    if dense_columns(m) {
        let m2 = m.insert(k, v);
        assert(m2.len() == m.len() + 1);
        assert forall|a: u64, b: u64| #[trigger] m2.contains_key(a) && #[trigger] m2.contains_key(b) && a != b implies m2[a].col_id != m2[b].col_id by {
            if a != k && b != k {
                assert(m.contains_key(a) && m.contains_key(b));
            } else if a == k {
                assert(m.contains_key(b));
            } else {
                assert(m.contains_key(a));
            }
        }
    }
}

/// Replacing a variable by one with the same column and type keeps the columns dense.
pub proof fn lemma_replace_column(m: Map<u64, VariableModel>, k: u64, v: VariableModel)
    requires
        m.contains_key(k),
        v.col_id == m[k].col_id,
        v.variable_type == m[k].variable_type,
    ensures
        keeps_columns(m, m.insert(k, v)),
{
    if dense_columns(m) {
        let m2 = m.insert(k, v);
        assert(m2.dom() =~= m.dom());
        assert forall|a: u64, b: u64| #[trigger] m2.contains_key(a) && #[trigger] m2.contains_key(b) && a != b implies m2[a].col_id != m2[b].col_id by {
            assert(m.contains_key(a) && m.contains_key(b));
        }
    }
}

/// Keeping columns is transitive.
pub proof fn lemma_keeps_columns_trans(m1: Map<u64, VariableModel>, m2: Map<u64, VariableModel>, m3: Map<u64, VariableModel>)
    requires
        keeps_columns(m1, m2),
        keeps_columns(m2, m3),
    ensures
        keeps_columns(m1, m3),
{
}

/// Declaring the variable of a node keeps the columns.
pub proof fn lemma_node_columns(m: Map<u64, VariableModel>, n: crate::patterns::NodePattern)
    ensures
        keeps_columns(m, validate_node_spec(m, n).0),
        keeps_columns(m, node_if_new_spec(m, n).0),
{
    match var_id(n.variable) {
        Some(id) => if !m.contains_key(id) {
            lemma_insert_new_column(m, id, VariableModel {
                content: crate::variables_manager::ContentModel::Node(n.shape()),
                variable_type: ExpressionType::Node,
                col_id: m.len(),
                is_set: false,
            });
        },
        None => {},
    }
}

/// Declaring an edge and its nodes keeps the columns.
pub proof fn lemma_edge_columns(m: Map<u64, VariableModel>, e: crate::patterns::EdgePattern)
    ensures
        keeps_columns(m, validate_edge_spec(m, e).0),
{
    lemma_node_columns(m, e.source);
    let m1 = validate_node_spec(m, e.source).0;
    lemma_node_columns(m1, e.destination);
    let m2 = validate_node_spec(m1, e.destination).0;
    lemma_keeps_columns_trans(m, m1, m2);
    match var_id(e.variable) {
        Some(id) => if !m2.contains_key(id) {
            lemma_insert_new_column(m2, id, VariableModel {
                content: crate::variables_manager::ContentModel::Edge(e.shape()),
                variable_type: ExpressionType::Edge,
                col_id: m2.len(),
                is_set: false,
            });
            let m3 = m2.insert(id, VariableModel {
                content: crate::variables_manager::ContentModel::Edge(e.shape()),
                variable_type: ExpressionType::Edge,
                col_id: m2.len(),
                is_set: false,
            });
            lemma_keeps_columns_trans(m, m2, m3);
        },
        None => {},
    }
}

/// Analysing a pattern keeps the columns.
pub proof fn lemma_pattern_columns(m: Map<u64, VariableModel>, p: Pattern, is_create: bool)
    ensures
        keeps_columns(m, analyse_pattern_spec(m, p, is_create).0),
{
    match p {
        Pattern::Node(n) => lemma_node_columns(m, n),
        Pattern::Edge(e) => lemma_edge_path_columns(m, e, is_create),
        Pattern::Path(pp) => {
            lemma_edge_path_columns(m, pp.edge, is_create);
            let m4 = analyse_edge_path_spec(m, None, pp.edge, is_create).0;
            if !m4.contains_key(pp.variable@.1) {
                lemma_insert_new_column(m4, pp.variable@.1, crate::variables_manager::variable_from_expression(ExpressionType::Path, m4.len()));
                lemma_keeps_columns_trans(m, m4, declare_spec(m4, pp.variable@.1, ExpressionType::Path).0);
            }
        },
    }
}

/// Analysing an edge pattern keeps the columns.
pub proof fn lemma_edge_path_columns(m: Map<u64, VariableModel>, e: crate::patterns::EdgePattern, is_create: bool)
    ensures
        keeps_columns(m, analyse_edge_path_spec(m, None, e, is_create).0),
{
    lemma_node_columns(m, e.source);
    let m1 = node_if_new_spec(m, e.source).0;
    lemma_node_columns(m1, e.destination);
    let m2 = node_if_new_spec(m1, e.destination).0;
    lemma_keeps_columns_trans(m, m1, m2);
    lemma_edge_columns(m2, e);
    lemma_keeps_columns_trans(m, m2, validate_edge_spec(m2, e).0);
}

/// Analysing the patterns of a `CREATE` keeps the columns.
pub proof fn lemma_create_analysis_columns(m: Map<u64, VariableModel>, ps: Seq<Pattern>)
    ensures
        keeps_columns(m, create_analysis(m, ps).0),
    decreases ps.len(),
{
    if ps.len() > 0 {
        lemma_create_analysis_columns(m, ps.drop_last());
        let m1 = create_analysis(m, ps.drop_last()).0;
        lemma_pattern_columns(m1, ps.last(), true);
        lemma_keeps_columns_trans(m, m1, analyse_pattern_spec(m1, ps.last(), true).0);
    }
}

/// Analysing the patterns of a `MATCH` keeps the columns.
pub proof fn lemma_match_analysis_columns(m: Map<u64, VariableModel>, ps: Seq<Pattern>)
    ensures
        keeps_columns(m, match_analysis(m, ps).0),
    decreases ps.len(),
{
    if ps.len() > 0 {
        lemma_match_analysis_columns(m, ps.drop_last());
        let m1 = match_analysis(m, ps.drop_last()).0;
        lemma_pattern_columns(m1, ps.last(), false);
        lemma_keeps_columns_trans(m, m1, analyse_pattern_spec(m1, ps.last(), false).0);
    }
}

/// The analysis of a statement, whether it succeeds or fails, keeps the columns of the variables
/// `0` to their number minus one, each used once, and keeps every variable with its column and
/// type; when a variable is not set it fails and changes nothing.
pub proof fn lemma_analyse_columns(m: Map<u64, VariableModel>, st: Statement)
    ensures
        keeps_columns(m, analyse_statement_spec(m, st).0),
        !all_set(m) ==> analyse_statement_spec(m, st) == (m, Some(ErrorKind::NotAllVariablesAreSet)),
{
    if all_set(m) {
        match st {
            Statement::Create(c) => lemma_create_analysis_columns(m, c.patterns@),
            Statement::Match(x) => lemma_match_analysis_columns(m, x.patterns@),
            Statement::Unwind(u) => {
                let id = u.identifier@.1;
                if !m.contains_key(id) {
                    let v = crate::variables_manager::variable_from_expression(ExpressionType::Variant, m.len());
                    lemma_insert_new_column(m, id, v);
                    let m1 = m.insert(id, v);
                    lemma_replace_column(m1, id, crate::variables_manager::marked_set(m1[id]));
                    lemma_keeps_columns_trans(m, m1, m1.insert(id, crate::variables_manager::marked_set(m1[id])));
                }
            },
            _ => {},
        }
    }
}

/// Declaring a node adds at most one variable.
pub proof fn lemma_validate_node_len(m: Map<u64, VariableModel>, n: crate::patterns::NodePattern)
    requires
        m.dom().finite(),
    ensures
        validate_node_spec(m, n).0.dom().finite(),
        validate_node_spec(m, n).0.len() <= m.len() + 1,
        node_if_new_spec(m, n).0.dom().finite(),
        node_if_new_spec(m, n).0.len() <= m.len() + 1,
{
}

/// Declaring an edge and its nodes adds at most three variables.
pub proof fn lemma_validate_edge_len(m: Map<u64, VariableModel>, e: crate::patterns::EdgePattern)
    requires
        m.dom().finite(),
    ensures
        validate_edge_spec(m, e).0.dom().finite(),
        validate_edge_spec(m, e).0.len() <= m.len() + 3,
{
    lemma_validate_node_len(m, e.source);
    let m1 = validate_node_spec(m, e.source).0;
    lemma_validate_node_len(m1, e.destination);
}

/// Analysing an edge, optionally named by a path, adds at most six variables.
pub proof fn lemma_edge_path_len(m: Map<u64, VariableModel>, path: Option<u64>, e: crate::patterns::EdgePattern, is_create: bool)
    requires
        m.dom().finite(),
    ensures
        analyse_edge_path_spec(m, path, e, is_create).0.dom().finite(),
        analyse_edge_path_spec(m, path, e, is_create).0.len() <= m.len() + 6,
{
    let m0 = match path {
        Some(p) => declare_spec(m, p, ExpressionType::Path).0,
        None => m,
    };
    assert(m0.dom().finite() && m0.len() <= m.len() + 1);
    lemma_validate_node_len(m0, e.source);
    let m1 = node_if_new_spec(m0, e.source).0;
    lemma_validate_node_len(m1, e.destination);
    let m2 = node_if_new_spec(m1, e.destination).0;
    lemma_validate_edge_len(m2, e);
}

/// Analysing a pattern adds at most seven variables.
pub proof fn lemma_analyse_pattern_len(m: Map<u64, VariableModel>, p: Pattern, is_create: bool)
    requires
        m.dom().finite(),
    ensures
        analyse_pattern_spec(m, p, is_create).0.dom().finite(),
        analyse_pattern_spec(m, p, is_create).0.len() <= m.len() + 7,
{
    match p {
        Pattern::Node(n) => lemma_validate_node_len(m, n),
        Pattern::Edge(e) => lemma_edge_path_len(m, None, e, is_create),
        Pattern::Path(pp) => {
            lemma_edge_path_len(m, None, pp.edge, is_create);
        },
    }
}

/// Model of an expression of a `RETURN` or `WITH` block: its column, its code and its
/// aggregations.
pub struct RWModel {
    pub col_id: nat,
    pub code: Seq<InstrModel>,
    pub aggregations: Seq<AggModel>,
}

pub open spec fn view_rw_expression(e: RWExpression) -> RWModel {
    RWModel {
        col_id: e.col_id as nat,
        code: view_instructions(e.instructions@),
        aggregations: e.aggregations@.map_values(|a: (usize, RWAggregation)| view_aggregation(a)),
    }
}

/// Model of the expressions of a block, each with the identifier that names it.
pub open spec fn view_rw_entries(s: Seq<(VariableIdentifier, RWExpression)>) -> Seq<((Seq<char>, u64), RWModel)> {
    s.map_values(|x: (VariableIdentifier, RWExpression)| (x.0@, view_rw_expression(x.1)))
}

/// Model of the expressions of a block, each with its name.
pub open spec fn view_named_results(s: Seq<(String, RWExpression)>) -> Seq<(Seq<char>, RWModel)> {
    s.map_values(|x: (String, RWExpression)| (x.0@, view_rw_expression(x.1)))
}

/// The entries, each with the name of its identifier.
pub open spec fn entries_names(s: Seq<((Seq<char>, u64), RWModel)>) -> Seq<(Seq<char>, RWModel)> {
    s.map_values(|x: ((Seq<char>, u64), RWModel)| (x.0.0, x.1))
}

/// The ids of the entries, in order.
pub open spec fn entries_ids(s: Seq<((Seq<char>, u64), RWModel)>) -> Seq<u64> {
    s.map_values(|x: ((Seq<char>, u64), RWModel)| x.0.1)
}

/// The entries of `RETURN *` or `WITH *`: each listed variable, read from its column.
pub open spec fn listed_entries(m: Map<u64, VariableModel>, order: Seq<(Seq<char>, u64)>) -> Seq<((Seq<char>, u64), RWModel)> {
    order.map_values(|v: (Seq<char>, u64)| (v, RWModel {
        col_id: m[v.1].col_id,
        code: seq![InstrModel::GetVariable(m[v.1].col_id)],
        aggregations: Seq::empty(),
    }))
}

/// Some entry has the id.
pub open spec fn entry_named(entries: Seq<((Seq<char>, u64), RWModel)>, id: u64) -> bool {
    exists|i: int| 0 <= i < entries.len() && #[trigger] entries[i].0.1 == id
}

/// State while compiling the named expressions of a `RETURN` or `WITH` block.
pub struct RWRun {
    pub vars: Map<u64, VariableModel>,
    pub temps: nat,
    pub entries: Seq<((Seq<char>, u64), RWModel)>,
    pub error: Option<ErrorKind>,
}

/// Compiling one named expression: the expression with its aggregations, then its name, which
/// must not be taken, becomes a variable.
pub open spec fn rw_step(ne: NamedExpression, a: RWRun) -> RWRun {
    let c = compile_spec(ne.expression@, a.vars, a.temps, Some(Seq::empty()));
    if c.error is Some {
        RWRun { temps: c.temporaries, error: c.error, ..a }
    } else if entry_named(a.entries, ne.identifier@.1) {
        RWRun { temps: c.temporaries, error: Some(ErrorKind::ColumnNameConflict), ..a }
    } else {
        let (m, col) = named_expression_spec(a.vars, ne);
        match col {
            Err(k) => RWRun { vars: m, temps: c.temporaries, error: Some(k), ..a },
            Ok(x) => RWRun {
                vars: m,
                temps: c.temporaries,
                entries: a.entries.push((ne.identifier@, RWModel {
                    col_id: x,
                    code: c.code,
                    aggregations: match c.aggregations { Some(s) => s, None => Seq::empty() },
                })),
                error: None,
            },
        }
    }
}

/// Compiling the named expressions from first to last, after the entries `start`, up to the
/// first error.
pub open spec fn rw_run(exprs: Seq<NamedExpression>, vars: Map<u64, VariableModel>, temps: nat, start: Seq<((Seq<char>, u64), RWModel)>) -> RWRun
    decreases exprs.len(),
{
    if exprs.len() == 0 {
        RWRun { vars, temps, entries: start, error: None }
    } else {
        let a = rw_run(exprs.drop_last(), vars, temps, start);
        if a.error is Some { a } else { rw_step(exprs.last(), a) }
    }
}

/// Calls in the named expressions.
pub open spec fn named_calls(exprs: Seq<NamedExpression>) -> nat
    decreases exprs.len(),
{
    if exprs.len() == 0 { 0 } else { named_calls(exprs.drop_last()) + calls(exprs.last().expression@) }
}

/// Calls in the criteria of an `ORDER BY`.
pub open spec fn order_calls(v: Seq<OrderByExpression>) -> nat
    decreases v.len(),
{
    if v.len() == 0 { 0 } else { order_calls(v.drop_last()) + calls(v.last().expression@) }
}

/// Calls in the modifiers of a block.
pub open spec fn modifiers_calls(m: ModifiersAst) -> nat {
    properties_calls(m.limit) + properties_calls(m.skip) + match m.order_by {
        Some(v) => order_calls(v@),
        None => 0,
    }
}

/// The compiled modifiers are those of the block: the limit, the skip and the criteria.
pub open spec fn modifiers_compiled(m: Modifiers, modifiers: ModifiersAst, vars: Map<u64, VariableModel>, t: nat) -> bool {
    &&& view_optional_instructions(m.limit) == compiled_bound(optional_model(modifiers.limit), vars, t)
    &&& view_optional_instructions(m.skip) == compiled_bound(optional_model(modifiers.skip), vars, t)
    &&& match modifiers.order_by {
        Some(v) => m.order_by@.len() == v@.len() && forall|i: int| 0 <= i < v@.len() ==>
            (#[trigger] m.order_by@[i]).asc == v@[i].asc
            && view_instructions(m.order_by@[i].instructions@) == compile_spec(v@[i].expression@, vars, t, None).code,
        None => m.order_by@.len() == 0,
    }
}

/// The entries a block starts from: every variable in scope for `*`, none otherwise.
pub open spec fn start_entries(all: bool, m: Map<u64, VariableModel>, order: Seq<(Seq<char>, u64)>) -> Seq<((Seq<char>, u64), RWModel)> {
    if all { listed_entries(m, order) } else { Seq::empty() }
}

/// First error of a `RETURN` or `WITH` block: in its expressions, its `WHERE`, its modifiers, or
/// in keeping its variables.
pub open spec fn rw_error(run: RWRun, w: Option<ExprModel>, mods: ModifiersAst) -> Option<ErrorKind> {
    if run.error is Some {
        run.error
    } else if where_error(w, run.vars, run.temps) is Some {
        where_error(w, run.vars, run.temps)
    } else if modifiers_error(mods, run.vars, run.temps) is Some {
        modifiers_error(mods, run.vars, run.temps)
    } else {
        keep_spec(run.vars, entries_ids(run.entries)).2
    }
}

/// A step keeps the map finite, adds at most one variable and takes at most the temporary columns
/// of the calls of the expression.
pub proof fn lemma_rw_step(ne: NamedExpression, a: RWRun)
    requires
        a.vars.dom().finite(),
    ensures
        rw_step(ne, a).vars.dom().finite(),
        rw_step(ne, a).vars.len() <= a.vars.len() + 1,
        a.temps <= rw_step(ne, a).temps <= a.temps + calls(ne.expression@),
{
    lemma_compile_calls(ne.expression@, a.vars, a.temps, Some(Seq::empty()));
    lemma_compile_temporaries(ne.expression@, a.vars, a.temps, Some(Seq::empty()));
}

/// An error in a prefix of the expressions is the error of all of them.
pub proof fn lemma_rw_run_err(exprs: Seq<NamedExpression>, j: int, vars: Map<u64, VariableModel>, temps: nat, start: Seq<((Seq<char>, u64), RWModel)>)
    requires
        0 <= j <= exprs.len(),
        rw_run(exprs.take(j), vars, temps, start).error is Some,
    ensures
        rw_run(exprs, vars, temps, start) == rw_run(exprs.take(j), vars, temps, start),
    decreases exprs.len() - j,
{
    if j < exprs.len() {
        assert(exprs.take(j + 1).drop_last() =~= exprs.take(j));
        lemma_rw_run_err(exprs, j + 1, vars, temps, start);
    } else {
        assert(exprs.take(j) =~= exprs);
    }
}

/// The calls of a prefix are at most those of the whole.
pub proof fn lemma_named_calls_prefix(exprs: Seq<NamedExpression>, i: int)
    requires
        0 <= i <= exprs.len(),
    ensures
        named_calls(exprs.take(i)) <= named_calls(exprs),
    decreases exprs.len(),
{
    if i == exprs.len() {
        assert(exprs.take(i) =~= exprs);
    } else {
        assert(exprs.drop_last().take(i) =~= exprs.take(i));
        lemma_named_calls_prefix(exprs.drop_last(), i);
    }
}

/// The calls of a criterion are at most those of all of them.
pub proof fn lemma_order_calls(v: Seq<OrderByExpression>, i: int)
    requires
        0 <= i < v.len(),
    ensures
        calls(v[i].expression@) <= order_calls(v),
    decreases v.len(),
{
    if i < v.len() - 1 {
        lemma_order_calls(v.drop_last(), i);
    }
}

/// Modifiers fit when their calls fit.
pub proof fn lemma_modifiers_fit(mods: ModifiersAst, vars: Map<u64, VariableModel>, t: nat)
    requires
        t + modifiers_calls(mods) + vars.len() <= usize::MAX,
    ensures
        modifiers_fit(mods, vars, t),
{
    match mods.limit {
        Some(e) => lemma_fits_by_calls(e@, vars, t),
        None => {},
    }
    match mods.skip {
        Some(e) => lemma_fits_by_calls(e@, vars, t),
        None => {},
    }
    match mods.order_by {
        Some(v) => {
            assert forall|i: int| 0 <= i < v@.len() implies crate::compiler::fits(#[trigger] v@[i].expression@, vars, t) by {
                lemma_order_calls(v@, i);
                lemma_fits_by_calls(v@[i].expression@, vars, t);
            }
        },
        None => {},
    }
}

/// Whether some expression of the block is named by the identifier.
fn has_identifier(variables: &Vec<(VariableIdentifier, RWExpression)>, id: &VariableIdentifier) -> (r: bool)
    ensures
        r == entry_named(view_rw_entries(variables@), id@.1),
{
    let ghost e = view_rw_entries(variables@);
    for j in 0..variables.len()
        invariant
            e == view_rw_entries(variables@),
            forall|k: int| 0 <= k < j ==> e[k].0.1 != id@.1,
    {
        if variables[j].0.same_as(id) {
            assert(e[j as int].0.1 == id@.1);
            return true;
        }
    }
    false
}

/// Reads the column of a variable, for `RETURN *` and `WITH *`.
fn read_column(col_id: usize) -> (r: RWExpression)
    ensures
        view_rw_expression(r) == (RWModel { col_id: col_id as nat, code: seq![InstrModel::GetVariable(col_id as nat)], aggregations: Seq::empty() }),
{
    let mut instructions: Vec<Instruction> = Vec::new();
    instructions.push(Instruction::GetVariable { col_id });
    let aggregations: Vec<(usize, RWAggregation)> = Vec::new();
    let r = RWExpression { col_id, instructions, aggregations };
    assert(view_instructions(r.instructions@) =~= seq![InstrModel::GetVariable(col_id as nat)]);
    assert(r.aggregations@.map_values(|a: (usize, RWAggregation)| view_aggregation(a)) =~= Seq::<AggModel>::empty());
    r
}

/// The identifiers of the entries, in order.
fn entry_identifiers(variables: &Vec<(VariableIdentifier, RWExpression)>) -> (r: Vec<VariableIdentifier>)
    ensures
        identifier_ids(r@) == entries_ids(view_rw_entries(variables@)),
{
    let mut r: Vec<VariableIdentifier> = Vec::new();
    for j in 0..variables.len()
        invariant
            r@.len() == j,
            forall|k: int| 0 <= k < j ==> (#[trigger] r@[k])@ == variables@[k].0@,
    {
        r.push(variables[j].0.duplicate());
    }
    assert(identifier_ids(r@) =~= entries_ids(view_rw_entries(variables@)));
    r
}

/// Names the expressions of the block by the names of their identifiers.
fn into_named(variables: Vec<(VariableIdentifier, RWExpression)>) -> (r: Vec<(String, RWExpression)>)
    ensures
        view_named_results(r@) == entries_names(view_rw_entries(variables@)),
{
    let ghost all = entries_names(view_rw_entries(variables@));
    let mut rest = variables;
    let mut out: Vec<(String, RWExpression)> = Vec::new();
    proof {
        assert(view_named_results(out@) + entries_names(view_rw_entries(rest@)) =~= all);
    }
    while rest.len() > 0
        invariant
            view_named_results(out@) + entries_names(view_rw_entries(rest@)) == all,
        decreases rest.len(),
    {
        let ghost before_out = out@;
        let ghost before_rest = rest@;
        let (id, e) = rest.remove(0);
        out.push((id.take_name(), e));
        proof {
            assert(rest@ =~= before_rest.drop_first());
            assert(view_named_results(out@) =~= view_named_results(before_out).push((before_rest[0].0@.0, view_rw_expression(before_rest[0].1))));
            assert(entries_names(view_rw_entries(before_rest))
                =~= seq![(before_rest[0].0@.0, view_rw_expression(before_rest[0].1))] + entries_names(view_rw_entries(rest@)));
            assert(view_named_results(out@) + entries_names(view_rw_entries(rest@))
                =~= view_named_results(before_out) + entries_names(view_rw_entries(before_rest)));
        }
    }
    proof {
        assert(entries_names(view_rw_entries(rest@)) =~= Seq::<(Seq<char>, RWModel)>::empty());
        assert(view_named_results(out@) =~= all);
    }
    out
}

impl Compiler {
    /// The expressions of `RETURN *` and `WITH *`: every variable in scope, read from its
    /// column, in the order of the variables manager.
    fn list_all(&self) -> (r: Vec<(VariableIdentifier, RWExpression)>)
        ensures
            view_rw_entries(r@) == listed_entries(self.variables_manager@, self.variables_manager.listing()),
    {
        let listed = self.variables_manager.variables_list();
        let mut r: Vec<(VariableIdentifier, RWExpression)> = Vec::new();
        let ghost target = listed_entries(self.variables_manager@, self.variables_manager.listing());
        for j in 0..listed.len()
            invariant
                listed@.len() == self.variables_manager.listing().len(),
                forall|i: int| 0 <= i < listed@.len() ==> (#[trigger] listed@[i]).0@ == self.variables_manager.listing()[i]
                    && listed@[i].1 == self.variables_manager@[self.variables_manager.listing()[i].1].col_id,
                target == listed_entries(self.variables_manager@, self.variables_manager.listing()),
                view_rw_entries(r@) == target.take(j as int),
        {
            let ghost before = r@;
            let rw = read_column(listed[j].1);
            r.push((listed[j].0.duplicate(), rw));
            proof {
                let k = j as int;
                let v = self.variables_manager.listing()[k];
                assert(target[k] == (v, RWModel {
                    col_id: self.variables_manager@[v.1].col_id,
                    code: seq![InstrModel::GetVariable(self.variables_manager@[v.1].col_id)],
                    aggregations: Seq::empty(),
                }));
                assert(view_rw_entries(r@) =~= view_rw_entries(before).push(target[k]));
                assert(target.take(k + 1) =~= target.take(k).push(target[k]));
            }
        }
        proof {
            assert(target.take(listed@.len() as int) =~= target);
        }
        r
    }

    /// Compiles the named expressions of a `RETURN` or `WITH` block, after the entries already
    /// in `variables`.
    #[verifier::rlimit(40)]
    fn compile_named_expressions(&mut self, expressions: &Vec<NamedExpression>, variables: &mut Vec<(VariableIdentifier, RWExpression)>) -> (r: Result<(), Error>)
        requires
            old(self).temporary_variables + named_calls(expressions@) + old(self).variables_manager@.len() + expressions@.len() <= usize::MAX,
        ensures
            ({
                let run = rw_run(expressions@, old(self).variables_manager@, old(self).temporary_variables as nat, view_rw_entries(old(variables)@));
                match run.error {
                    Some(k) => r matches Err(e) && kind_of(e) == k,
                    None => r is Ok
                        && view_rw_entries(final(variables)@) == run.entries
                        && final(self).variables_manager@ == run.vars
                        && final(self).temporary_variables == run.temps
                        && run.vars.len() <= old(self).variables_manager@.len() + expressions@.len()
                        && run.temps <= old(self).temporary_variables + named_calls(expressions@),
                }
            }),
    {
        let ghost m = self.variables_manager@;
        let ghost t = self.temporary_variables as nat;
        let ghost ex = expressions@;
        let ghost start = view_rw_entries(variables@);
        let _ = self.variables_manager.variables_count();
        proof {
            assert(ex.take(0) =~= Seq::<NamedExpression>::empty());
        }
        for i in 0..expressions.len()
            invariant
                ex == expressions@,
                m == old(self).variables_manager@,
                t == old(self).temporary_variables as nat,
                start == view_rw_entries(old(variables)@),
                m.dom().finite(),
                t + named_calls(ex) + m.len() + ex.len() <= usize::MAX,
                rw_run(ex.take(i as int), m, t, start).error is None,
                self.variables_manager@ == rw_run(ex.take(i as int), m, t, start).vars,
                self.temporary_variables as nat == rw_run(ex.take(i as int), m, t, start).temps,
                view_rw_entries(variables@) == rw_run(ex.take(i as int), m, t, start).entries,
                self.variables_manager@.dom().finite(),
                self.variables_manager@.len() <= m.len() + i,
                self.temporary_variables <= t + named_calls(ex.take(i as int)),
        {
            let ghost run = rw_run(ex.take(i as int), m, t, start);
            let e = &expressions[i];
            proof {
                assert(ex.take(i + 1).drop_last() =~= ex.take(i as int));
                assert(ex.take(i + 1).last() == ex[i as int]);
                lemma_named_calls_prefix(ex, i + 1);
                lemma_rw_step(ex[i as int], run);
                lemma_compile_calls(e.expression@, run.vars, run.temps, Some(Seq::empty()));
            }
            let mut instructions: Vec<Instruction> = Vec::new();
            let mut aggregations: Option<Vec<(usize, RWAggregation)>> = Some(Vec::new());
            proof {
                assert(view_aggregations(aggregations) =~= Some(Seq::<AggModel>::empty()));
                assert(view_instructions(instructions@) =~= Seq::<InstrModel>::empty());
            }
            match self.compile_expression(&e.expression, &mut instructions, &mut aggregations) {
                Ok(()) => {},
                Err(err) => {
                    proof { lemma_rw_run_err(ex, i + 1, m, t, start); }
                    return Err(err);
                },
            }
            if has_identifier(variables, &e.identifier) {
                proof { lemma_rw_run_err(ex, i + 1, m, t, start); }
                return Err(Error::CompileTime(CompileTimeError::ColumnNameConflict { name: e.identifier.name().clone() }));
            }
            let col_id = match self.variables_manager.analyse_named_expression(e) {
                Ok(c) => c,
                Err(err) => {
                    proof { lemma_rw_run_err(ex, i + 1, m, t, start); }
                    return Err(err);
                },
            };
            let aggs = match aggregations {
                Some(v) => v,
                None => Vec::new(),
            };
            let rw = RWExpression { col_id, instructions, aggregations: aggs };
            let ghost before = variables@;
            variables.push((e.identifier.duplicate(), rw));
            proof {
                assert(view_rw_entries(variables@) =~= view_rw_entries(before).push((e.identifier@, view_rw_expression(rw))));
                let _ = self.variables_manager@.dom();
            }
            let _ = self.variables_manager.variables_count();
        }
        proof {
            assert(ex.take(ex.len() as int) =~= ex);
        }
        Ok(())
    }

    /// Compiles a `RETURN` or `WITH` block: its named expressions (after every variable in scope
    /// for `*`), its `WHERE` expression and its modifiers; then only the named variables remain,
    /// in the order of the block.
    #[verifier::rlimit(40)]
    pub fn compile_return_with(
        &mut self,
        all: bool,
        expressions: &Vec<NamedExpression>,
        where_expression: &Option<Expression>,
        modifiers: &ModifiersAst,
    ) -> (r: Result<(Vec<(String, RWExpression)>, Vec<Instruction>, Modifiers, VariablesSizes), Error>)
        requires
            old(self).temporary_variables + named_calls(expressions@) + properties_calls(*where_expression) + modifiers_calls(*modifiers)
                + old(self).variables_manager@.len() + expressions@.len() <= usize::MAX,
        ensures
            ({
                let m = old(self).variables_manager@;
                let run = rw_run(expressions@, m, old(self).temporary_variables as nat,
                    start_entries(all, m, old(self).variables_manager.listing()));
                match rw_error(run, optional_model(*where_expression), *modifiers) {
                    Some(k) => r matches Err(e) && kind_of(e) == k,
                    None => r matches Ok((variables, filter, mods, sizes))
                        && view_named_results(variables@) == entries_names(run.entries)
                        && view_instructions(filter@) == where_code(optional_model(*where_expression), run.vars, run.temps)
                        && modifiers_compiled(mods, *modifiers, run.vars, run.temps)
                        && sizes.temporary_variables == run.temps
                        && sizes.persistent_variables == run.vars.len()
                        && final(self).variables_manager@ == keep_spec(run.vars, entries_ids(run.entries)).1
                        && final(self).temporary_variables == run.temps,
                }
            }),
    {
        let ghost m = self.variables_manager@;
        let ghost t = self.temporary_variables as nat;
        let mut variables: Vec<(VariableIdentifier, RWExpression)> = Vec::new();
        if all {
            variables = self.list_all();
        }
        proof {
            assert(view_rw_entries(variables@) =~= start_entries(all, m, self.variables_manager.listing()));
        }
        let ghost run = rw_run(expressions@, m, t, start_entries(all, m, self.variables_manager.listing()));
        match self.compile_named_expressions(expressions, &mut variables) {
            Ok(()) => {},
            Err(e) => return Err(e),
        }
        let _ = self.variables_manager.variables_count();
        let filter = match self.compile_where(where_expression) {
            Ok(f) => f,
            Err(e) => return Err(e),
        };
        proof { lemma_modifiers_fit(*modifiers, run.vars, run.temps); }
        let mods = match self.compile_modifiers(modifiers) {
            Ok(x) => x,
            Err(e) => return Err(e),
        };
        let variables_size = self.variables_size();
        let names = entry_identifiers(&variables);
        match self.variables_manager.keep_variables(&names) {
            Ok(()) => {},
            Err(e) => return Err(e),
        }
        let named = into_named(variables);
        Ok((named, filter, mods, variables_size))
    }
}


/// Calls in expressions.
pub open spec fn expressions_calls(es: Seq<Expression>) -> nat
    decreases es.len(),
{
    if es.len() == 0 { 0 } else { expressions_calls(es.drop_last()) + calls(es.last()@) }
}

/// The calls of an expression are at most those of all of them.
pub proof fn lemma_expressions_calls(es: Seq<Expression>, i: int)
    requires
        0 <= i < es.len(),
    ensures
        calls(es[i]@) <= expressions_calls(es),
    decreases es.len(),
{
    if i < es.len() - 1 {
        lemma_expressions_calls(es.drop_last(), i);
    }
}

/// Code of the arguments of a `CALL`, compiled from the last to the first, so that the first
/// is on top of the stack; and the first error met.
pub open spec fn reversed_code(args: Seq<Expression>, vars: Map<u64, VariableModel>, t: nat) -> (Seq<InstrModel>, Option<ErrorKind>)
    decreases args.len(),
{
    if args.len() == 0 {
        (Seq::empty(), None)
    } else {
        let (rest, k) = reversed_code(args.drop_first(), vars, t);
        if k is Some {
            (rest, k)
        } else {
            let c = compile_spec(args.first()@, vars, t, None);
            if c.error is Some { (rest, c.error) } else { (rest + c.code, None) }
        }
    }
}

/// An error in compiling the last arguments is the error of all of them.
pub proof fn lemma_reversed_code_err(args: Seq<Expression>, i: int, vars: Map<u64, VariableModel>, t: nat)
    requires
        0 <= i <= args.len(),
        reversed_code(args.subrange(i, args.len() as int), vars, t).1 is Some,
    ensures
        reversed_code(args, vars, t).1 == reversed_code(args.subrange(i, args.len() as int), vars, t).1,
    decreases i,
{
    if i > 0 {
        assert(args.subrange(i - 1, args.len() as int).drop_first() =~= args.subrange(i, args.len() as int));
        lemma_reversed_code_err(args, i - 1, vars, t);
    } else {
        assert(args.subrange(0, args.len() as int) =~= args);
    }
}

/// Compiling an expression where aggregations are refused.
pub open spec fn plain_code(e: ExprModel, vars: Map<u64, VariableModel>, t: nat) -> Result<Seq<InstrModel>, ErrorKind> {
    let c = compile_spec(e, vars, t, None);
    match c.error {
        Some(k) => Err(k),
        None => Ok(c.code),
    }
}

/// Code of an expression deleted by a `DELETE`: it must be a node, an edge, or of a type known
/// only when it runs.
pub open spec fn delete_spec(e: ExprModel, vars: Map<u64, VariableModel>, t: nat) -> Result<Seq<InstrModel>, ErrorKind> {
    match analyse_spec(e, types_of_variables(vars)) {
        Err(k) => Err(k),
        Ok(info) => if info.expression_type is Node || info.expression_type is Edge || info.expression_type is Variant {
            plain_code(e, vars, t)
        } else {
            Err(ErrorKind::InvalidDelete)
        },
    }
}

/// Code of the expressions of a `DELETE`, from first to last, and the first error met.
pub open spec fn delete_run(es: Seq<Expression>, vars: Map<u64, VariableModel>, t: nat) -> (Seq<Seq<InstrModel>>, Option<ErrorKind>)
    decreases es.len(),
{
    if es.len() == 0 {
        (Seq::empty(), None)
    } else {
        let (a, k) = delete_run(es.drop_last(), vars, t);
        if k is Some {
            (a, k)
        } else {
            match delete_spec(es.last()@, vars, t) {
                Err(k) => (a, Some(k)),
                Ok(c) => (a.push(c), None),
            }
        }
    }
}

/// An error in a prefix of the expressions of a `DELETE` is the error of all of them.
pub proof fn lemma_delete_run_err(es: Seq<Expression>, j: int, vars: Map<u64, VariableModel>, t: nat)
    requires
        0 <= j <= es.len(),
        delete_run(es.take(j), vars, t).1 is Some,
    ensures
        delete_run(es, vars, t).1 == delete_run(es.take(j), vars, t).1,
    decreases es.len() - j,
{
    if j < es.len() {
        assert(es.take(j + 1).drop_last() =~= es.take(j));
        lemma_delete_run_err(es, j + 1, vars, t);
    } else {
        assert(es.take(j) =~= es);
    }
}

/// Model of one compiled update.
pub enum UpdateModel {
    SetProperty(nat, Seq<Seq<char>>, Seq<InstrModel>),
    AddProperty(nat, Seq<Seq<char>>, Seq<InstrModel>),
    RemoveProperty(nat, Seq<Seq<char>>),
    AddLabels(nat, Seq<Seq<char>>),
    RemoveLabels(nat, Seq<Seq<char>>),
}

pub open spec fn view_update(u: UpdateOne) -> UpdateModel {
    match u {
        UpdateOne::SetProperty { target, path, instructions } => UpdateModel::SetProperty(target as nat, view_labels(path@), view_instructions(instructions@)),
        UpdateOne::AddProperty { target, path, instructions } => UpdateModel::AddProperty(target as nat, view_labels(path@), view_instructions(instructions@)),
        UpdateOne::RemoveProperty { target, path } => UpdateModel::RemoveProperty(target as nat, view_labels(path@)),
        UpdateOne::AddLabels { target, labels } => UpdateModel::AddLabels(target as nat, view_labels(labels@)),
        UpdateOne::RemoveLabels { target, labels } => UpdateModel::RemoveLabels(target as nat, view_labels(labels@)),
    }
}

/// Column of the target of an update, which must be in scope.
pub open spec fn target_column(vars: Map<u64, VariableModel>, target: VariableIdentifier) -> Result<nat, ErrorKind> {
    if vars.contains_key(target@.1) { Ok(vars[target@.1].col_id) } else { Err(ErrorKind::UnknownVariable) }
}

/// Compiling one update: the value set or added, then the column of the target.
pub open spec fn update_spec(u: OneUpdate, vars: Map<u64, VariableModel>, t: nat) -> Result<UpdateModel, ErrorKind> {
    match u {
        OneUpdate::SetProperty(p) => match plain_code(p.expression@, vars, t) {
            Err(k) => Err(k),
            Ok(c) => match target_column(vars, p.target) {
                Err(k) => Err(k),
                Ok(col) => Ok(UpdateModel::SetProperty(col, view_labels(p.path@), c)),
            },
        },
        OneUpdate::AddProperty(p) => match plain_code(p.expression@, vars, t) {
            Err(k) => Err(k),
            Ok(c) => match target_column(vars, p.target) {
                Err(k) => Err(k),
                Ok(col) => Ok(UpdateModel::AddProperty(col, view_labels(p.path@), c)),
            },
        },
        OneUpdate::RemoveProperty(p) => match target_column(vars, p.target) {
            Err(k) => Err(k),
            Ok(col) => Ok(UpdateModel::RemoveProperty(col, view_labels(p.path@))),
        },
        OneUpdate::AddLabels(a) => match target_column(vars, a.target) {
            Err(k) => Err(k),
            Ok(col) => Ok(UpdateModel::AddLabels(col, view_labels(a.labels@))),
        },
        OneUpdate::RemoveLabels(a) => match target_column(vars, a.target) {
            Err(k) => Err(k),
            Ok(col) => Ok(UpdateModel::RemoveLabels(col, view_labels(a.labels@))),
        },
    }
}

/// Calls in an update.
pub open spec fn update_calls(u: OneUpdate) -> nat {
    match u {
        OneUpdate::SetProperty(p) => calls(p.expression@),
        OneUpdate::AddProperty(p) => calls(p.expression@),
        _ => 0,
    }
}

/// Calls in updates.
pub open spec fn updates_calls(us: Seq<OneUpdate>) -> nat
    decreases us.len(),
{
    if us.len() == 0 { 0 } else { updates_calls(us.drop_last()) + update_calls(us.last()) }
}

/// The calls of an update are at most those of all of them.
pub proof fn lemma_updates_calls(us: Seq<OneUpdate>, i: int)
    requires
        0 <= i < us.len(),
    ensures
        update_calls(us[i]) <= updates_calls(us),
    decreases us.len(),
{
    if i < us.len() - 1 {
        lemma_updates_calls(us.drop_last(), i);
    }
}

/// The updates of a `SET` or `REMOVE`, compiled from first to last, and the first error met.
pub open spec fn update_run(us: Seq<OneUpdate>, vars: Map<u64, VariableModel>, t: nat) -> (Seq<UpdateModel>, Option<ErrorKind>)
    decreases us.len(),
{
    if us.len() == 0 {
        (Seq::empty(), None)
    } else {
        let (a, k) = update_run(us.drop_last(), vars, t);
        if k is Some {
            (a, k)
        } else {
            match update_spec(us.last(), vars, t) {
                Err(k) => (a, Some(k)),
                Ok(x) => (a.push(x), None),
            }
        }
    }
}

/// An error in a prefix of the updates is the error of all of them.
pub proof fn lemma_update_run_err(us: Seq<OneUpdate>, j: int, vars: Map<u64, VariableModel>, t: nat)
    requires
        0 <= j <= us.len(),
        update_run(us.take(j), vars, t).1 is Some,
    ensures
        update_run(us, vars, t).1 == update_run(us.take(j), vars, t).1,
    decreases us.len() - j,
{
    if j < us.len() {
        assert(us.take(j + 1).drop_last() =~= us.take(j));
        lemma_update_run_err(us, j + 1, vars, t);
    } else {
        assert(us.take(j) =~= us);
    }
}

/// The expressions of a block, without their names.
fn drop_names(variables: Vec<(String, RWExpression)>) -> (r: Vec<RWExpression>)
    ensures
        r@.map_values(|e: RWExpression| view_rw_expression(e)) == view_named_results(variables@).map_values(|x: (Seq<char>, RWModel)| x.1),
{
    let ghost all = view_named_results(variables@).map_values(|x: (Seq<char>, RWModel)| x.1);
    let mut rest = variables;
    let mut out: Vec<RWExpression> = Vec::new();
    proof {
        assert(out@.map_values(|e: RWExpression| view_rw_expression(e)) + view_named_results(rest@).map_values(|x: (Seq<char>, RWModel)| x.1) =~= all);
    }
    while rest.len() > 0
        invariant
            out@.map_values(|e: RWExpression| view_rw_expression(e)) + view_named_results(rest@).map_values(|x: (Seq<char>, RWModel)| x.1) == all,
        decreases rest.len(),
    {
        let ghost before_out = out@;
        let ghost before_rest = rest@;
        let (_, e) = rest.remove(0);
        out.push(e);
        proof {
            assert(rest@ =~= before_rest.drop_first());
            assert(out@.map_values(|e: RWExpression| view_rw_expression(e))
                =~= before_out.map_values(|e: RWExpression| view_rw_expression(e)).push(view_rw_expression(before_rest[0].1)));
            assert(view_named_results(before_rest).map_values(|x: (Seq<char>, RWModel)| x.1)
                =~= seq![view_rw_expression(before_rest[0].1)] + view_named_results(rest@).map_values(|x: (Seq<char>, RWModel)| x.1));
            assert(out@.map_values(|e: RWExpression| view_rw_expression(e)) + view_named_results(rest@).map_values(|x: (Seq<char>, RWModel)| x.1)
                =~= before_out.map_values(|e: RWExpression| view_rw_expression(e)) + view_named_results(before_rest).map_values(|x: (Seq<char>, RWModel)| x.1));
        }
    }
    proof {
        assert(view_named_results(rest@).map_values(|x: (Seq<char>, RWModel)| x.1) =~= Seq::<RWModel>::empty());
        assert(out@.map_values(|e: RWExpression| view_rw_expression(e)) =~= all);
    }
    out
}

impl Compiler {
    /// Compiles an expression where aggregations are refused, into a block of its own.
    pub fn compile_plain(&mut self, e: &Expression) -> (r: Result<Vec<Instruction>, Error>)
        requires
            old(self).temporary_variables + calls(e@) + old(self).variables_manager@.len() <= usize::MAX,
        ensures
            final(self).variables_manager@ == old(self).variables_manager@,
            r is Ok ==> final(self).temporary_variables == old(self).temporary_variables,
            match plain_code(e@, old(self).variables_manager@, old(self).temporary_variables as nat) {
                Err(k) => r matches Err(x) && kind_of(x) == k,
                Ok(c) => r matches Ok(v) && view_instructions(v@) == c,
            },
    {
        let mut instructions: Vec<Instruction> = Vec::new();
        let mut aggregations: Option<Vec<(usize, RWAggregation)>> = None;
        proof {
            lemma_compile_calls(e@, self.variables_manager@, self.temporary_variables as nat, None);
            crate::compiler::lemma_compile_without_aggregations(e@, self.variables_manager@, self.temporary_variables as nat);
            assert(view_instructions(instructions@) =~= Seq::<InstrModel>::empty());
        }
        match self.compile_expression(e, &mut instructions, &mut aggregations) {
            Ok(()) => {},
            Err(x) => return Err(x),
        }
        assert(view_instructions(instructions@) =~= Seq::<InstrModel>::empty() + view_instructions(instructions@));
        Ok(instructions)
    }

    /// Compiles the arguments of a `CALL`, from the last to the first.
    pub fn compile_call_arguments(&mut self, arguments: &Vec<Expression>) -> (r: Result<Vec<Instruction>, Error>)
        requires
            old(self).temporary_variables + expressions_calls(arguments@) + old(self).variables_manager@.len() <= usize::MAX,
        ensures
            final(self).variables_manager@ == old(self).variables_manager@,
            r is Ok ==> final(self).temporary_variables == old(self).temporary_variables,
            ({
                let (code, k) = reversed_code(arguments@, old(self).variables_manager@, old(self).temporary_variables as nat);
                match k {
                    Some(k) => r matches Err(x) && kind_of(x) == k,
                    None => r matches Ok(v) && view_instructions(v@) == code,
                }
            }),
    {
        let ghost m = self.variables_manager@;
        let ghost t = self.temporary_variables as nat;
        let ghost args = arguments@;
        let mut instructions: Vec<Instruction> = Vec::new();
        let mut i = arguments.len();
        proof {
            assert(args.subrange(i as int, args.len() as int) =~= Seq::<Expression>::empty());
            assert(view_instructions(instructions@) =~= Seq::<InstrModel>::empty());
        }
        while i > 0
            invariant
                i <= args.len(),
                args == arguments@,
                m == old(self).variables_manager@,
                t == old(self).temporary_variables as nat,
                self.variables_manager@ == m,
                self.temporary_variables as nat == t,
                t + expressions_calls(args) + m.len() <= usize::MAX,
                reversed_code(args.subrange(i as int, args.len() as int), m, t).1 is None,
                view_instructions(instructions@) == reversed_code(args.subrange(i as int, args.len() as int), m, t).0,
            decreases i,
        {
            i = i - 1;
            proof {
                assert(args.subrange(i as int, args.len() as int).drop_first() =~= args.subrange(i + 1, args.len() as int));
                assert(args.subrange(i as int, args.len() as int).first() == args[i as int]);
                lemma_expressions_calls(args, i as int);
                lemma_compile_calls(args[i as int]@, m, t, None);
                crate::compiler::lemma_compile_without_aggregations(args[i as int]@, m, t);
            }
            let ghost before = view_instructions(instructions@);
            let mut aggregations: Option<Vec<(usize, RWAggregation)>> = None;
            match self.compile_expression(&arguments[i], &mut instructions, &mut aggregations) {
                Ok(()) => {},
                Err(x) => {
                    proof { lemma_reversed_code_err(args, i as int, m, t); }
                    return Err(x);
                },
            }
        }
        proof {
            assert(args.subrange(0, args.len() as int) =~= args);
        }
        Ok(instructions)
    }

    /// Compiles the expressions of a `DELETE`, each into a block of its own.
    pub fn compile_delete(&mut self, expressions: &Vec<Expression>) -> (r: Result<Vec<Vec<Instruction>>, Error>)
        requires
            old(self).temporary_variables + expressions_calls(expressions@) + old(self).variables_manager@.len() <= usize::MAX,
        ensures
            final(self).variables_manager@ == old(self).variables_manager@,
            r is Ok ==> final(self).temporary_variables == old(self).temporary_variables,
            ({
                let (codes, k) = delete_run(expressions@, old(self).variables_manager@, old(self).temporary_variables as nat);
                match k {
                    Some(k) => r matches Err(x) && kind_of(x) == k,
                    None => r matches Ok(v) && v@.map_values(|c: Vec<Instruction>| view_instructions(c@)) == codes,
                }
            }),
    {
        let ghost m = self.variables_manager@;
        let ghost t = self.temporary_variables as nat;
        let ghost es = expressions@;
        let mut out: Vec<Vec<Instruction>> = Vec::new();
        proof {
            assert(es.take(0) =~= Seq::<Expression>::empty());
            assert(out@.map_values(|c: Vec<Instruction>| view_instructions(c@)) =~= Seq::<Seq<InstrModel>>::empty());
        }
        for i in 0..expressions.len()
            invariant
                es == expressions@,
                m == old(self).variables_manager@,
                t == old(self).temporary_variables as nat,
                self.variables_manager@ == m,
                self.temporary_variables as nat == t,
                t + expressions_calls(es) + m.len() <= usize::MAX,
                delete_run(es.take(i as int), m, t).1 is None,
                out@.map_values(|c: Vec<Instruction>| view_instructions(c@)) == delete_run(es.take(i as int), m, t).0,
        {
            proof {
                assert(es.take(i + 1).drop_last() =~= es.take(i as int));
                assert(es.take(i + 1).last() == es[i as int]);
                lemma_expressions_calls(es, i as int);
            }
            let e = &expressions[i];
            let info = {
                let analyser = Analyser::new(&self.variables_manager, &self.function_manager);
                analyser.analyse(e)
            };
            let info = match info {
                Ok(x) => x,
                Err(x) => {
                    proof { lemma_delete_run_err(es, i + 1, m, t); }
                    return Err(x);
                },
            };
            match info.expression_type {
                ExpressionType::Node | ExpressionType::Edge | ExpressionType::Variant => {},
                _ => {
                    proof { lemma_delete_run_err(es, i + 1, m, t); }
                    return Err(Error::CompileTime(CompileTimeError::InvalidDelete));
                },
            }
            let code = match self.compile_plain(e) {
                Ok(c) => c,
                Err(x) => {
                    proof { lemma_delete_run_err(es, i + 1, m, t); }
                    return Err(x);
                },
            };
            let ghost before = out@;
            out.push(code);
            proof {
                assert(out@.map_values(|c: Vec<Instruction>| view_instructions(c@))
                    =~= before.map_values(|c: Vec<Instruction>| view_instructions(c@)).push(view_instructions(code@)));
            }
        }
        proof {
            assert(es.take(es.len() as int) =~= es);
        }
        Ok(out)
    }

    /// Compiles one update of a `SET` or `REMOVE`.
    fn compile_update(&mut self, u: &OneUpdate) -> (r: Result<UpdateOne, Error>)
        requires
            old(self).temporary_variables + update_calls(*u) + old(self).variables_manager@.len() <= usize::MAX,
        ensures
            final(self).variables_manager@ == old(self).variables_manager@,
            r is Ok ==> final(self).temporary_variables == old(self).temporary_variables,
            match update_spec(*u, old(self).variables_manager@, old(self).temporary_variables as nat) {
                Err(k) => r matches Err(x) && kind_of(x) == k,
                Ok(m) => r matches Ok(v) && view_update(v) == m,
            },
    {
        match u {
            OneUpdate::SetProperty(p) => {
                let instructions = match self.compile_plain(&p.expression) {
                    Ok(c) => c,
                    Err(x) => return Err(x),
                };
                let target = match self.variables_manager.get_variable_index(&p.target) {
                    Ok(c) => c,
                    Err(x) => return Err(x),
                };
                Ok(UpdateOne::SetProperty { target, path: clone_strings(&p.path), instructions })
            },
            OneUpdate::AddProperty(p) => {
                let instructions = match self.compile_plain(&p.expression) {
                    Ok(c) => c,
                    Err(x) => return Err(x),
                };
                let target = match self.variables_manager.get_variable_index(&p.target) {
                    Ok(c) => c,
                    Err(x) => return Err(x),
                };
                Ok(UpdateOne::AddProperty { target, path: clone_strings(&p.path), instructions })
            },
            OneUpdate::RemoveProperty(p) => {
                let target = match self.variables_manager.get_variable_index(&p.target) {
                    Ok(c) => c,
                    Err(x) => return Err(x),
                };
                Ok(UpdateOne::RemoveProperty { target, path: clone_strings(&p.path) })
            },
            OneUpdate::AddLabels(a) => {
                let target = match self.variables_manager.get_variable_index(&a.target) {
                    Ok(c) => c,
                    Err(x) => return Err(x),
                };
                Ok(UpdateOne::AddLabels { target, labels: clone_strings(&a.labels) })
            },
            OneUpdate::RemoveLabels(a) => {
                let target = match self.variables_manager.get_variable_index(&a.target) {
                    Ok(c) => c,
                    Err(x) => return Err(x),
                };
                Ok(UpdateOne::RemoveLabels { target, labels: clone_strings(&a.labels) })
            },
        }
    }

    /// Compiles the updates of a `SET` or `REMOVE`, from first to last.
    pub fn compile_updates(&mut self, updates: &Vec<OneUpdate>) -> (r: Result<Vec<UpdateOne>, Error>)
        requires
            old(self).temporary_variables + updates_calls(updates@) + old(self).variables_manager@.len() <= usize::MAX,
        ensures
            final(self).variables_manager@ == old(self).variables_manager@,
            r is Ok ==> final(self).temporary_variables == old(self).temporary_variables,
            ({
                let (ms, k) = update_run(updates@, old(self).variables_manager@, old(self).temporary_variables as nat);
                match k {
                    Some(k) => r matches Err(x) && kind_of(x) == k,
                    None => r matches Ok(v) && v@.map_values(|u: UpdateOne| view_update(u)) == ms,
                }
            }),
    {
        let ghost m = self.variables_manager@;
        let ghost t = self.temporary_variables as nat;
        let ghost us = updates@;
        let mut out: Vec<UpdateOne> = Vec::new();
        proof {
            assert(us.take(0) =~= Seq::<OneUpdate>::empty());
            assert(out@.map_values(|u: UpdateOne| view_update(u)) =~= Seq::<UpdateModel>::empty());
        }
        for i in 0..updates.len()
            invariant
                us == updates@,
                m == old(self).variables_manager@,
                t == old(self).temporary_variables as nat,
                self.variables_manager@ == m,
                self.temporary_variables as nat == t,
                t + updates_calls(us) + m.len() <= usize::MAX,
                update_run(us.take(i as int), m, t).1 is None,
                out@.map_values(|u: UpdateOne| view_update(u)) == update_run(us.take(i as int), m, t).0,
        {
            proof {
                assert(us.take(i + 1).drop_last() =~= us.take(i as int));
                assert(us.take(i + 1).last() == us[i as int]);
                lemma_updates_calls(us, i as int);
            }
            let u = match self.compile_update(&updates[i]) {
                Ok(u) => u,
                Err(x) => {
                    proof { lemma_update_run_err(us, i + 1, m, t); }
                    return Err(x);
                },
            };
            let ghost before = out@;
            out.push(u);
            proof {
                assert(out@.map_values(|u: UpdateOne| view_update(u)) =~= before.map_values(|u: UpdateOne| view_update(u)).push(view_update(u)));
            }
        }
        proof {
            assert(us.take(us.len() as int) =~= us);
        }
        Ok(out)
    }
}


/// What compiling a `CREATE` gives.
#[verifier::opaque]
pub open spec fn create_block(c: Create, m: Map<u64, VariableModel>, r: Result<Block, Error>, after: Map<u64, VariableModel>) -> bool {
    let run = create_run(c.patterns@, m, 0);
    match run.error {
        Some(k) => r matches Err(e) && kind_of(e) == k,
        None => r matches Ok(Block::Create { actions, variables_size })
            && actions@.map_values(|a: CreateAction| view_create_action(a)) == run.actions
            && variables_size.temporary_variables == run.temps
            && variables_size.persistent_variables == run.vars.len()
            && after == run.vars,
    }
}

/// What compiling a `MATCH` gives.
#[verifier::opaque]
pub open spec fn match_block(x: Match, m: Map<u64, VariableModel>, r: Result<Block, Error>, after: Map<u64, VariableModel>) -> bool {
    let run = match_run(x.patterns@, m, 0, x.patterns@.len() == 1);
    match run.error {
        Some(k) => r matches Err(e) && kind_of(e) == k,
        None => match where_error(optional_model(x.where_expression), run.vars, run.temps) {
            Some(k) => r matches Err(e) && kind_of(e) == k,
            None => r matches Ok(Block::Match { blocks, filter, optional, variables_size })
                && blocks@.map_values(|b: BlockMatch| view_block_match(b)) == run.blocks
                && view_instructions(filter@) == where_code(optional_model(x.where_expression), run.vars, run.temps)
                && optional == x.optional
                && variables_size.temporary_variables == run.temps
                && variables_size.persistent_variables == run.vars.len()
                && after == run.vars,
        },
    }
}

/// What compiling a `RETURN` gives.
#[verifier::opaque]
pub open spec fn return_block(x: Return, m: Map<u64, VariableModel>, order: Seq<(Seq<char>, u64)>, r: Result<Block, Error>, after: Map<u64, VariableModel>) -> bool {
    let run = rw_run(x.expressions@, m, 0, start_entries(x.all, m, order));
    match rw_error(run, optional_model(x.where_expression), x.modifiers) {
        Some(k) => r matches Err(e) && kind_of(e) == k,
        None => r matches Ok(Block::Return { variables, filter, modifiers, variables_size })
            && view_named_results(variables@) == entries_names(run.entries)
            && view_instructions(filter@) == where_code(optional_model(x.where_expression), run.vars, run.temps)
            && modifiers_compiled(modifiers, x.modifiers, run.vars, run.temps)
            && variables_size.temporary_variables == run.temps
            && variables_size.persistent_variables == run.vars.len()
            && after == keep_spec(run.vars, entries_ids(run.entries)).1,
    }
}

/// What compiling a `WITH` gives.
#[verifier::opaque]
pub open spec fn with_block(x: With, m: Map<u64, VariableModel>, order: Seq<(Seq<char>, u64)>, r: Result<Block, Error>, after: Map<u64, VariableModel>) -> bool {
    let run = rw_run(x.expressions@, m, 0, start_entries(x.all, m, order));
    match rw_error(run, optional_model(x.where_expression), x.modifiers) {
        Some(k) => r matches Err(e) && kind_of(e) == k,
        None => r matches Ok(Block::With { variables, filter, modifiers, variables_size })
            && variables@.map_values(|e: RWExpression| view_rw_expression(e))
                == entries_names(run.entries).map_values(|x: (Seq<char>, RWModel)| x.1)
            && view_instructions(filter@) == where_code(optional_model(x.where_expression), run.vars, run.temps)
            && modifiers_compiled(modifiers, x.modifiers, run.vars, run.temps)
            && variables_size.temporary_variables == run.temps
            && variables_size.persistent_variables == run.vars.len()
            && after == keep_spec(run.vars, entries_ids(run.entries)).1,
    }
}

/// What compiling a `CALL` gives.
#[verifier::opaque]
pub open spec fn call_block(c: Call, m: Map<u64, VariableModel>, r: Result<Block, Error>, after: Map<u64, VariableModel>) -> bool {
    let (code, k) = reversed_code(c.arguments@, m, 0);
    match k {
        Some(k) => r matches Err(e) && kind_of(e) == k,
        None => r matches Ok(Block::Call { arguments, name })
            && view_instructions(arguments@) == code && name@ == c.name@ && after == m,
    }
}

/// What compiling an `UNWIND` gives.
#[verifier::opaque]
pub open spec fn unwind_block(u: Unwind, m: Map<u64, VariableModel>, r: Result<Block, Error>, after: Map<u64, VariableModel>) -> bool {
    match plain_code(u.expression@, m, 0) {
        Err(k) => r matches Err(e) && kind_of(e) == k,
        Ok(code) => match target_column(m, u.identifier) {
            Err(k) => r matches Err(e) && kind_of(e) == k,
            Ok(col) => r matches Ok(Block::Unwind { col_id, instructions, variables_size })
                && col_id == col
                && view_instructions(instructions@) == code
                && variables_size.temporary_variables == 0
                && variables_size.persistent_variables == m.len()
                && after == m,
        },
    }
}

/// What compiling a `DELETE` gives.
#[verifier::opaque]
pub open spec fn delete_block(d: Delete, m: Map<u64, VariableModel>, r: Result<Block, Error>, after: Map<u64, VariableModel>) -> bool {
    let (codes, k) = delete_run(d.expressions@, m, 0);
    match k {
        Some(k) => r matches Err(e) && kind_of(e) == k,
        None => r matches Ok(Block::Delete { detach, instructions })
            && detach == d.detach
            && instructions@.map_values(|c: Vec<Instruction>| view_instructions(c@)) == codes
            && after == m,
    }
}

/// What compiling a `SET` or `REMOVE` gives.
#[verifier::opaque]
pub open spec fn update_block(u: Update, m: Map<u64, VariableModel>, r: Result<Block, Error>, after: Map<u64, VariableModel>) -> bool {
    let (ms, k) = update_run(u.updates@, m, 0);
    match k {
        Some(k) => r matches Err(e) && kind_of(e) == k,
        None => r matches Ok(Block::Update { updates, variables_size })
            && updates@.map_values(|x: UpdateOne| view_update(x)) == ms
            && variables_size.temporary_variables == 0
            && variables_size.persistent_variables == m.len()
            && after == m,
    }
}

/// What compiling the block of an analysed statement gives, in the variables `m` listed in
/// `order`, and the variables it leaves.
pub open spec fn block_compiled(s: Statement, m: Map<u64, VariableModel>, order: Seq<(Seq<char>, u64)>, r: Result<Block, Error>, after: Map<u64, VariableModel>) -> bool {
    match s {
        Statement::CreateGraph(g) => r matches Ok(Block::CreateGraph { name }) && name@ == g.name@ && after == m,
        Statement::DropGraph(g) => r matches Ok(Block::DropGraph { name, if_exists }) && name@ == g.name@ && if_exists == g.if_exists && after == m,
        Statement::UseGraph(g) => r matches Ok(Block::UseGraph { name }) && name@ == g.name@ && after == m,
        Statement::Create(c) => create_block(c, m, r, after),
        Statement::Match(x) => match_block(x, m, r, after),
        Statement::Return(x) => return_block(x, m, order, r, after),
        Statement::With(x) => with_block(x, m, order, r, after),
        Statement::Call(c) => call_block(c, m, r, after),
        Statement::Unwind(u) => unwind_block(u, m, r, after),
        Statement::Delete(d) => delete_block(d, m, r, after),
        Statement::Update(u) => update_block(u, m, r, after),
    }
}

/// Compiling a statement: its analysis, then its block, in the variables left by the analysis.
#[verifier::opaque]
pub open spec fn statement_step(s: Statement, m: Map<u64, VariableModel>, order: Seq<(Seq<char>, u64)>, r: Result<Block, Error>, after: Map<u64, VariableModel>) -> bool {
    let (m1, k) = analyse_statement_spec(m, s);
    match k {
        Some(k) => r matches Err(e) && kind_of(e) == k,
        None => block_compiled(s, m1, order, r, after),
    }
}

/// The order lists each variable in scope after the analysis of the statement exactly once.
#[verifier::opaque]
pub open spec fn statement_listed(s: Statement, m: Map<u64, VariableModel>, order: Seq<(Seq<char>, u64)>) -> bool {
    lists_variables(analyse_statement_spec(m, s).0, order)
}

/// How many columns the compilation of a statement may take beyond the variables in scope: the
/// temporary columns of its calls, and, for a `MATCH`, of its edges, or for a `RETURN` or `WITH`,
/// of its named expressions.
pub open spec fn statement_calls(s: Statement) -> nat {
    match s {
        Statement::Create(c) => patterns_calls(c.patterns@),
        Statement::Match(x) => x.patterns@.len() + patterns_calls(x.patterns@) + properties_calls(x.where_expression),
        Statement::Return(x) => named_calls(x.expressions@) + properties_calls(x.where_expression) + modifiers_calls(x.modifiers) + x.expressions@.len(),
        Statement::With(x) => named_calls(x.expressions@) + properties_calls(x.where_expression) + modifiers_calls(x.modifiers) + x.expressions@.len(),
        Statement::Call(c) => expressions_calls(c.arguments@),
        Statement::Unwind(u) => calls(u.expression@),
        Statement::Delete(d) => expressions_calls(d.expressions@),
        Statement::Update(u) => updates_calls(u.updates@),
        _ => 0,
    }
}

/// How many variables a statement may add to those in scope.
pub open spec fn statement_growth(s: Statement) -> nat {
    match s {
        Statement::Create(c) => 7 * c.patterns@.len(),
        Statement::Match(x) => 7 * x.patterns@.len(),
        Statement::Return(x) => x.expressions@.len(),
        Statement::With(x) => x.expressions@.len(),
        Statement::Unwind(_) => 1,
        _ => 0,
    }
}

/// How much a statement may add to the columns in use.
pub open spec fn statement_budget(s: Statement) -> nat {
    statement_calls(s) + statement_growth(s)
}

/// The analysis of the patterns of a `CREATE` adds at most seven variables per pattern.
pub proof fn lemma_create_analysis_len(m: Map<u64, VariableModel>, ps: Seq<Pattern>)
    requires
        m.dom().finite(),
    ensures
        create_analysis(m, ps).0.dom().finite(),
        create_analysis(m, ps).0.len() <= m.len() + 7 * ps.len(),
    decreases ps.len(),
{
    if ps.len() > 0 {
        lemma_create_analysis_len(m, ps.drop_last());
        let m1 = create_analysis(m, ps.drop_last()).0;
        lemma_analyse_pattern_len(m1, ps.last(), true);
    }
}

/// The analysis of the patterns of a `MATCH` adds at most seven variables per pattern.
pub proof fn lemma_match_analysis_len(m: Map<u64, VariableModel>, ps: Seq<Pattern>)
    requires
        m.dom().finite(),
    ensures
        match_analysis(m, ps).0.dom().finite(),
        match_analysis(m, ps).0.len() <= m.len() + 7 * ps.len(),
    decreases ps.len(),
{
    if ps.len() > 0 {
        lemma_match_analysis_len(m, ps.drop_last());
        let m1 = match_analysis(m, ps.drop_last()).0;
        lemma_analyse_pattern_len(m1, ps.last(), false);
    }
}

/// Creating patterns that all succeed keeps the variables known.
pub proof fn lemma_create_run_dom(ps: Seq<Pattern>, vars: Map<u64, VariableModel>, t: nat)
    ensures
        create_run(ps, vars, t).error is None ==> create_run(ps, vars, t).vars.dom() == vars.dom(),
    decreases ps.len(),
{
    if ps.len() > 0 {
        lemma_create_run_dom(ps.drop_last(), vars, t);
        let a = create_run(ps.drop_last(), vars, t);
        lemma_create_pattern_step(ps.last(), a.vars, a.temps);
    }
}

/// Matching patterns that all succeed keeps the variables known.
pub proof fn lemma_match_run_dom(ps: Seq<Pattern>, vars: Map<u64, VariableModel>, t: nat, single: bool)
    requires
        vars.dom().finite(),
    ensures
        match_run(ps, vars, t, single).error is None ==> match_run(ps, vars, t, single).vars.dom() == vars.dom(),
    decreases ps.len(),
{
    if ps.len() > 0 {
        lemma_match_run_dom(ps.drop_last(), vars, t, single);
        let a = match_run(ps.drop_last(), vars, t, single);
        if a.error is None {
            lemma_match_step(ps.last(), a, single);
        }
    }
}

/// The variables kept are at most the names given.
pub proof fn lemma_keep_len(m: Map<u64, VariableModel>, names: Seq<u64>)
    ensures
        keep_spec(m, names).1.dom().finite(),
        keep_spec(m, names).1.len() <= names.len(),
    decreases names.len(),
{
    if names.len() > 0 {
        lemma_keep_len(m, names.drop_last());
    }
}

/// The entries of a block are those it started from and at most one per expression.
pub proof fn lemma_rw_run_entries(exprs: Seq<NamedExpression>, vars: Map<u64, VariableModel>, temps: nat, start: Seq<((Seq<char>, u64), RWModel)>)
    ensures
        rw_run(exprs, vars, temps, start).entries.len() <= start.len() + exprs.len(),
    decreases exprs.len(),
{
    if exprs.len() > 0 {
        lemma_rw_run_entries(exprs.drop_last(), vars, temps, start);
    }
}

impl Compiler {
    /// Compiles the block of a `CREATE`.
    fn compile_create_statement(&mut self, c: &Create) -> (r: Result<Block, Error>)
        requires
            old(self).temporary_variables == 0,
            old(self).variables_manager@.dom().finite(),
            statement_calls(Statement::Create(*c)) + old(self).variables_manager@.len() <= usize::MAX,
        ensures
            create_block(*c, old(self).variables_manager@, r, final(self).variables_manager@),
            r is Ok ==> final(self).variables_manager@.dom() == old(self).variables_manager@.dom(),
    {
        proof { reveal(create_block); lemma_create_run_dom(c.patterns@, self.variables_manager@, 0); }
        self.compile_create_patterns(&c.patterns)
    }

    /// Compiles the block of a `MATCH`.
    fn compile_match_statement(&mut self, x: &Match) -> (r: Result<Block, Error>)
        requires
            old(self).temporary_variables == 0,
            old(self).variables_manager@.dom().finite(),
            statement_calls(Statement::Match(*x)) + old(self).variables_manager@.len() <= usize::MAX,
        ensures
            match_block(*x, old(self).variables_manager@, r, final(self).variables_manager@),
            r is Ok ==> final(self).variables_manager@.dom() == old(self).variables_manager@.dom(),
    {
        proof { reveal(match_block); lemma_match_run_dom(x.patterns@, self.variables_manager@, 0, x.patterns@.len() == 1); }
        self.compile_match_patterns(&x.patterns, &x.where_expression, x.optional)
    }

    /// Compiles the block of a `RETURN`.
    #[verifier::rlimit(30)]
    #[verifier::spinoff_prover]
    fn compile_return_statement(&mut self, x: &Return) -> (r: Result<Block, Error>)
        requires
            old(self).temporary_variables == 0,
            statement_calls(Statement::Return(*x)) + old(self).variables_manager@.len() <= usize::MAX,
        ensures
            return_block(*x, old(self).variables_manager@, old(self).variables_manager.listing(), r, final(self).variables_manager@),
            r is Ok ==> final(self).variables_manager@.dom().finite()
                && final(self).variables_manager@.len() <= old(self).variables_manager@.len() + x.expressions@.len(),
    {
        let ghost m = self.variables_manager@;
        let ghost run = rw_run(x.expressions@, m, 0, start_entries(x.all, m, self.variables_manager.listing()));
        let _ = self.variables_manager.variables_count();
        self.variables_manager.listing_facts();
        proof { reveal(return_block); }
        let (variables, filter, modifiers, variables_size) = match self.compile_return_with(x.all, &x.expressions, &x.where_expression, &x.modifiers) {
            Ok(v) => v,
            Err(e) => return Err(e),
        };
        proof {
            lemma_rw_run_entries(x.expressions@, m, 0, start_entries(x.all, m, old(self).variables_manager.listing()));
            lemma_keep_len(run.vars, entries_ids(run.entries));
            assert(entries_ids(run.entries).len() == run.entries.len());
        }
        Ok(Block::Return { variables, filter, modifiers, variables_size })
    }

    /// Compiles the block of a `WITH`.
    #[verifier::rlimit(30)]
    #[verifier::spinoff_prover]
    fn compile_with_statement(&mut self, x: &With) -> (r: Result<Block, Error>)
        requires
            old(self).temporary_variables == 0,
            statement_calls(Statement::With(*x)) + old(self).variables_manager@.len() <= usize::MAX,
        ensures
            with_block(*x, old(self).variables_manager@, old(self).variables_manager.listing(), r, final(self).variables_manager@),
            r is Ok ==> final(self).variables_manager@.dom().finite()
                && final(self).variables_manager@.len() <= old(self).variables_manager@.len() + x.expressions@.len(),
    {
        let ghost m = self.variables_manager@;
        let ghost run = rw_run(x.expressions@, m, 0, start_entries(x.all, m, self.variables_manager.listing()));
        let _ = self.variables_manager.variables_count();
        self.variables_manager.listing_facts();
        proof { reveal(with_block); }
        let (variables, filter, modifiers, variables_size) = match self.compile_return_with(x.all, &x.expressions, &x.where_expression, &x.modifiers) {
            Ok(v) => v,
            Err(e) => return Err(e),
        };
        proof {
            lemma_rw_run_entries(x.expressions@, m, 0, start_entries(x.all, m, old(self).variables_manager.listing()));
            lemma_keep_len(run.vars, entries_ids(run.entries));
            assert(entries_ids(run.entries).len() == run.entries.len());
        }
        Ok(Block::With { variables: drop_names(variables), filter, modifiers, variables_size })
    }

    /// Compiles the block of a `CALL`.
    fn compile_call_statement(&mut self, c: &Call) -> (r: Result<Block, Error>)
        requires
            old(self).temporary_variables == 0,
            statement_calls(Statement::Call(*c)) + old(self).variables_manager@.len() <= usize::MAX,
        ensures
            call_block(*c, old(self).variables_manager@, r, final(self).variables_manager@),
            final(self).variables_manager@ == old(self).variables_manager@,
    {
        proof { reveal(call_block); }
        let arguments = match self.compile_call_arguments(&c.arguments) {
            Ok(a) => a,
            Err(e) => return Err(e),
        };
        Ok(Block::Call { arguments, name: c.name.clone() })
    }

    /// Compiles the block of an `UNWIND`.
    fn compile_unwind_statement(&mut self, u: &Unwind) -> (r: Result<Block, Error>)
        requires
            old(self).temporary_variables == 0,
            statement_calls(Statement::Unwind(*u)) + old(self).variables_manager@.len() <= usize::MAX,
        ensures
            unwind_block(*u, old(self).variables_manager@, r, final(self).variables_manager@),
            final(self).variables_manager@ == old(self).variables_manager@,
    {
        proof { reveal(unwind_block); }
        let instructions = match self.compile_plain(&u.expression) {
            Ok(i) => i,
            Err(e) => return Err(e),
        };
        let col_id = match self.variables_manager.get_variable_index(&u.identifier) {
            Ok(c) => c,
            Err(e) => return Err(e),
        };
        let variables_size = self.variables_size();
        Ok(Block::Unwind { col_id, instructions, variables_size })
    }

    /// Compiles the block of a `DELETE`.
    fn compile_delete_statement(&mut self, d: &Delete) -> (r: Result<Block, Error>)
        requires
            old(self).temporary_variables == 0,
            statement_calls(Statement::Delete(*d)) + old(self).variables_manager@.len() <= usize::MAX,
        ensures
            delete_block(*d, old(self).variables_manager@, r, final(self).variables_manager@),
            final(self).variables_manager@ == old(self).variables_manager@,
    {
        proof { reveal(delete_block); }
        let instructions = match self.compile_delete(&d.expressions) {
            Ok(i) => i,
            Err(e) => return Err(e),
        };
        Ok(Block::Delete { detach: d.detach, instructions })
    }

    /// Compiles the block of a `SET` or `REMOVE`.
    fn compile_update_statement(&mut self, u: &Update) -> (r: Result<Block, Error>)
        requires
            old(self).temporary_variables == 0,
            statement_calls(Statement::Update(*u)) + old(self).variables_manager@.len() <= usize::MAX,
        ensures
            update_block(*u, old(self).variables_manager@, r, final(self).variables_manager@),
            final(self).variables_manager@ == old(self).variables_manager@,
    {
        proof { reveal(update_block); }
        let updates = match self.compile_updates(&u.updates) {
            Ok(x) => x,
            Err(e) => return Err(e),
        };
        let variables_size = self.variables_size();
        Ok(Block::Update { updates, variables_size })
    }

    /// Compiles a statement into a block: the variables manager analyses it, then its block is
    /// compiled, with no temporary column in use at first. The variables in scope after the
    /// analysis are listed in an order of the manager's choosing, which `RETURN *` and `WITH *`
    /// follow.
    #[verifier::rlimit(30)]
    #[verifier::spinoff_prover]
    pub fn compile_statement(&mut self, statement: &Statement) -> (r: Result<Block, Error>)
        requires
            statement_budget(*statement) + old(self).variables_manager@.len() <= usize::MAX,
        ensures
            exists|order: Seq<(Seq<char>, u64)>|
                statement_listed(*statement, old(self).variables_manager@, order)
                && #[trigger] statement_step(*statement, old(self).variables_manager@, order, r, final(self).variables_manager@),
            r is Ok ==> final(self).variables_manager@.dom().finite()
                && final(self).variables_manager@.len() <= old(self).variables_manager@.len() + statement_budget(*statement),
    {
        let _ = self.variables_manager.variables_count();
        let ghost m0 = self.variables_manager@;
        self.temporary_variables = 0;
        proof { reveal(statement_step); reveal(statement_listed); }
        proof {
            match statement {
                Statement::Create(c) => lemma_create_analysis_len(m0, c.patterns@),
                Statement::Match(x) => lemma_match_analysis_len(m0, x.patterns@),
                _ => {},
            }
        }
        let analysed = self.variables_manager.analyse(statement);
        self.variables_manager.listing_facts();
        let ghost m1 = self.variables_manager@;
        let ghost order = self.variables_manager.listing();
        match analysed {
            Ok(()) => {},
            Err(e) => {
                assert(statement_step(*statement, m0, order, Err::<Block, Error>(e), self.variables_manager@));
                return Err(e);
            },
        }
        let r = self.compile_block(statement);
        assert(statement_step(*statement, m0, order, r, self.variables_manager@));
        r
    }

    /// Compiles the block of an analysed statement.
    #[verifier::rlimit(30)]
    #[verifier::spinoff_prover]
    fn compile_block(&mut self, statement: &Statement) -> (r: Result<Block, Error>)
        requires
            old(self).temporary_variables == 0,
            old(self).variables_manager@.dom().finite(),
            statement_calls(*statement) + old(self).variables_manager@.len() <= usize::MAX,
        ensures
            block_compiled(*statement, old(self).variables_manager@, old(self).variables_manager.listing(), r, final(self).variables_manager@),
            r is Ok ==> final(self).variables_manager@.dom().finite()
                && final(self).variables_manager@.len() <= old(self).variables_manager@.len() + match *statement {
                    Statement::Return(x) => x.expressions@.len(),
                    Statement::With(x) => x.expressions@.len(),
                    _ => 0,
                },
    {
        match statement {
            Statement::CreateGraph(g) => Ok(Block::CreateGraph { name: g.name.clone() }),
            Statement::DropGraph(g) => Ok(Block::DropGraph { name: g.name.clone(), if_exists: g.if_exists }),
            Statement::UseGraph(g) => Ok(Block::UseGraph { name: g.name.clone() }),
            Statement::Create(c) => self.compile_create_statement(c),
            Statement::Match(x) => self.compile_match_statement(x),
            Statement::Return(x) => self.compile_return_statement(x),
            Statement::With(x) => self.compile_with_statement(x),
            Statement::Call(c) => self.compile_call_statement(c),
            Statement::Unwind(u) => self.compile_unwind_statement(u),
            Statement::Delete(d) => self.compile_delete_statement(d),
            Statement::Update(u) => self.compile_update_statement(u),
        }
    }
}


/// Sum of the budgets of statements.
pub open spec fn program_budget(ss: Seq<Statement>) -> nat
    decreases ss.len(),
{
    if ss.len() == 0 { 0 } else { program_budget(ss.drop_last()) + statement_budget(ss.last()) }
}

/// The budget of a prefix is at most that of the whole.
pub proof fn lemma_program_budget_prefix(ss: Seq<Statement>, i: int)
    requires
        0 <= i <= ss.len(),
    ensures
        program_budget(ss.take(i)) <= program_budget(ss),
    decreases ss.len(),
{
    if i == ss.len() {
        assert(ss.take(i) =~= ss);
    } else {
        assert(ss.drop_last().take(i) =~= ss.take(i));
        lemma_program_budget_prefix(ss.drop_last(), i);
    }
}

/// The first `n` statements compiled one after the other, from no variable in scope: each in
/// the variables `states[i]`, with the variables after its analysis listed in `orders[i]`, gives
/// `blocks[i]` and leaves `states[i + 1]`.
pub open spec fn compiled_prefix(
    ss: Seq<Statement>,
    states: Seq<Map<u64, VariableModel>>,
    orders: Seq<Seq<(Seq<char>, u64)>>,
    blocks: Seq<Block>,
    n: int,
) -> bool {
    &&& 0 <= n <= ss.len()
    &&& states.len() == n + 1
    &&& orders.len() == n
    &&& blocks.len() == n
    &&& states[0] == Map::<u64, VariableModel>::empty()
    &&& forall|i: int|
        #![trigger statement_listed(ss[i], states[i], orders[i])]
        #![trigger statement_step(ss[i], states[i], orders[i], Ok::<Block, Error>(blocks[i]), states[i + 1])]
        0 <= i < n ==> statement_listed(ss[i], states[i], orders[i])
            && statement_step(ss[i], states[i], orders[i], Ok::<Block, Error>(blocks[i]), states[i + 1])
}

/// One more statement compiled extends the compiled prefix.
pub proof fn lemma_prefix_extend(
    ss: Seq<Statement>,
    states: Seq<Map<u64, VariableModel>>,
    orders: Seq<Seq<(Seq<char>, u64)>>,
    blocks: Seq<Block>,
    n: int,
    order: Seq<(Seq<char>, u64)>,
    block: Block,
    after: Map<u64, VariableModel>,
)
    requires
        compiled_prefix(ss, states, orders, blocks, n),
        n < ss.len(),
        statement_listed(ss[n], states[n], order),
        statement_step(ss[n], states[n], order, Ok::<Block, Error>(block), after),
    ensures
        compiled_prefix(ss, states.push(after), orders.push(order), blocks.push(block), n + 1),
{
    let states2 = states.push(after);
    let orders2 = orders.push(order);
    let blocks2 = blocks.push(block);
    assert(states2[0] == states[0]);
    assert forall|j: int|
        #![trigger statement_listed(ss[j], states2[j], orders2[j])]
        #![trigger statement_step(ss[j], states2[j], orders2[j], Ok::<Block, Error>(blocks2[j]), states2[j + 1])]
        0 <= j < n + 1 implies statement_listed(ss[j], states2[j], orders2[j])
            && statement_step(ss[j], states2[j], orders2[j], Ok::<Block, Error>(blocks2[j]), states2[j + 1]) by {
        if j < n {
            assert(statement_step(ss[j], states[j], orders[j], Ok::<Block, Error>(blocks[j]), states[j + 1]));
            assert(states2[j] == states[j] && states2[j + 1] == states[j + 1]);
            assert(orders2[j] == orders[j] && blocks2[j] == blocks[j]);
        } else {
            assert(states2[j] == states[n] && states2[j + 1] == after);
            assert(orders2[j] == order && blocks2[j] == block);
        }
    }
}

/// The first `n` statements compiled, and the next one failing with `e`.
pub open spec fn failed_at(
    ss: Seq<Statement>,
    states: Seq<Map<u64, VariableModel>>,
    orders: Seq<Seq<(Seq<char>, u64)>>,
    blocks: Seq<Block>,
    n: int,
    order: Seq<(Seq<char>, u64)>,
    after: Map<u64, VariableModel>,
    e: Error,
) -> bool {
    &&& compiled_prefix(ss, states, orders, blocks, n)
    &&& n < ss.len()
    &&& statement_listed(ss[n], states[n], order)
    &&& statement_step(ss[n], states[n], order, Err::<Block, Error>(e), after)
}

/// Compiles the statements of a query into a program: one block per statement, from first to
/// last; the first error stops the compilation.
pub fn compile(function_manager: &Manager, statements: Vec<Statement>) -> (r: Result<Vec<Block>, Error>)
    requires
        program_budget(statements@) <= usize::MAX,
    ensures
        match r {
            Ok(program) => exists|states: Seq<Map<u64, VariableModel>>, orders: Seq<Seq<(Seq<char>, u64)>>|
                #[trigger] compiled_prefix(statements@, states, orders, program@, statements@.len() as int),
            Err(e) => exists|states: Seq<Map<u64, VariableModel>>, orders: Seq<Seq<(Seq<char>, u64)>>, blocks: Seq<Block>, n: int,
                order: Seq<(Seq<char>, u64)>, after: Map<u64, VariableModel>|
                #[trigger] failed_at(statements@, states, orders, blocks, n, order, after, e),
        },
{
    let mut compiler = Compiler {
        variables_manager: VariablesManager::new(function_manager),
        function_manager: *function_manager,
        temporary_variables: 0,
    };
    let ghost ss = statements@;
    let ghost mut states: Seq<Map<u64, VariableModel>> = seq![Map::<u64, VariableModel>::empty()];
    let ghost mut orders: Seq<Seq<(Seq<char>, u64)>> = Seq::empty();
    let mut program: Vec<Block> = Vec::new();
    assert(ss.take(0) =~= Seq::<Statement>::empty());
    for i in 0..statements.len()
        invariant
            ss == statements@,
            program_budget(ss) <= usize::MAX,
            compiled_prefix(ss, states, orders, program@, i as int),
            compiler.variables_manager@ == states[i as int],
            states[i as int].dom().finite(),
            states[i as int].len() <= program_budget(ss.take(i as int)),
    {
        proof {
            assert(ss.take(i + 1).drop_last() =~= ss.take(i as int));
            assert(ss.take(i + 1).last() == ss[i as int]);
            lemma_program_budget_prefix(ss, i + 1);
        }
        let ghost before = compiler.variables_manager@;
        let r = compiler.compile_statement(&statements[i]);
        let ghost after = compiler.variables_manager@;
        assert(statements@[i as int] == ss[i as int]);
        let ghost order = choose|order: Seq<(Seq<char>, u64)>|
            statement_listed(ss[i as int], before, order)
            && #[trigger] statement_step(ss[i as int], before, order, r, after);
        assert(statement_listed(ss[i as int], before, order) && statement_step(ss[i as int], before, order, r, after));
        match r {
            Ok(block) => {
                let ghost old_blocks = program@;
                program.push(block);
                proof {
                    lemma_prefix_extend(ss, states, orders, old_blocks, i as int, order, block, after);
                    states = states.push(after);
                    orders = orders.push(order);
                }
            },
            Err(e) => {
                proof {
                    assert(failed_at(statements@, states, orders, program@, i as int, order, after, e));
                }
                return Err(e);
            },
        }
    }
    let r: Result<Vec<Block>, Error> = Ok(program);
    proof {
        assert(compiled_prefix(statements@, states, orders, program@, statements@.len() as int));
        assert(r matches Ok(p) && compiled_prefix(statements@, states, orders, p@, statements@.len() as int));
    }
    r
}

} // verus!
