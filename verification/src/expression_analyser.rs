use vstd::prelude::*;
use crate::error::{kind_of, result_matches, CompileTimeError, Error, ErrorKind};
use crate::expression::{
    lemma_view_expressions, lemma_view_named_expressions, view_expression, view_expressions, view_named_expressions,
    view_optional_expression, BinaryOperator, ExprModel, Expression, UnaryOperator,
};
use crate::functions::{aggregator_result, function_signature, lowercase, validate_arguments_spec, CheckOutcome, Manager};
use crate::value::{view_labels, Value, ValueModel};
use crate::variables_manager::VariablesManager;


verus! {

broadcast use vstd::std_specs::vec::group_vec_axioms;

/// Static type of an expression, as inferred at compile time.
#[derive(Debug, PartialEq, Eq, Structural, Clone, Copy)]
pub enum ExpressionType {
    Array,
    Key,
    Mapping,
    Node,
    Edge,
    Boolean,
    Null,
    Integer,
    Float,
    Path,
    String,
    Variant,
}

/// What the analysis knows of an expression: its type, whether it is constant, and whether its
/// value comes from an aggregation.
#[derive(Debug, PartialEq, Eq, Structural, Clone, Copy)]
pub struct ExpressionInfo {
    pub expression_type: ExpressionType,
    pub constant: bool,
    pub aggregation_result: bool,
}

/// Checks applied to the type of an operand.
#[derive(Debug, PartialEq, Eq, Structural, Clone, Copy)]
pub enum Validator {
    Any,
    BooleanOrNull,
    Array,
    ArrayOrMap,
    MapOrEdgeOrNodeOrNull,
    IntegerOrNull,
    StringOrNull,
    IntegerOrStringOrNull,
}

/// Types accepted by a validator.
pub open spec fn accepts(v: Validator, t: ExpressionType) -> bool {
    match v {
        Validator::Any => true,
        Validator::BooleanOrNull => t == ExpressionType::Boolean || t == ExpressionType::Null || t == ExpressionType::Variant,
        Validator::Array => t == ExpressionType::Array || t == ExpressionType::Variant,
        Validator::ArrayOrMap => t == ExpressionType::Array || t == ExpressionType::Mapping || t == ExpressionType::Variant,
        Validator::MapOrEdgeOrNodeOrNull => t == ExpressionType::Mapping || t == ExpressionType::Edge
            || t == ExpressionType::Node || t == ExpressionType::Variant || t == ExpressionType::Null,
        Validator::IntegerOrNull => t == ExpressionType::Integer || t == ExpressionType::Null || t == ExpressionType::Variant,
        Validator::StringOrNull => t == ExpressionType::String || t == ExpressionType::Null || t == ExpressionType::Variant,
        Validator::IntegerOrStringOrNull => t == ExpressionType::Integer || t == ExpressionType::String
            || t == ExpressionType::Null || t == ExpressionType::Variant,
    }
}

/// Applies a validator to the outcome of an analysis.
pub open spec fn check(v: Validator, r: Result<ExpressionInfo, ErrorKind>) -> Result<ExpressionInfo, ErrorKind> {
    match r {
        Ok(i) => if accepts(v, i.expression_type) { Ok(i) } else { Err(ErrorKind::InvalidArgumentType) },
        Err(e) => Err(e),
    }
}

/// Every dependent is constant.
pub open spec fn all_constant(deps: Seq<ExpressionInfo>) -> bool {
    forall|i: int| 0 <= i < deps.len() ==> (#[trigger] deps[i]).constant
}

/// Some dependent comes from an aggregation.
pub open spec fn any_aggregation(deps: Seq<ExpressionInfo>) -> bool {
    exists|i: int| 0 <= i < deps.len() && (#[trigger] deps[i]).aggregation_result
}

/// Information of an expression of the given type computed from its dependents.
pub open spec fn info_of(t: ExpressionType, deps: Seq<ExpressionInfo>) -> ExpressionInfo {
    ExpressionInfo { expression_type: t, constant: all_constant(deps), aggregation_result: any_aggregation(deps) }
}

/// Information of an expression whose dependents were analysed as `deps`.
pub open spec fn lift(t: ExpressionType, deps: Result<Seq<ExpressionInfo>, ErrorKind>) -> Result<ExpressionInfo, ErrorKind> {
    match deps {
        Ok(d) => Ok(info_of(t, d)),
        Err(e) => Err(e),
    }
}

/// Type of a literal value.
pub open spec fn literal_type(v: ValueModel) -> ExpressionType {
    match v {
        ValueModel::List(_) => ExpressionType::Array,
        ValueModel::Key(_) => ExpressionType::Key,
        ValueModel::Boolean(_) => ExpressionType::Boolean,
        ValueModel::Edge(_) => ExpressionType::Edge,
        ValueModel::Node(_) => ExpressionType::Node,
        ValueModel::Integer(_) => ExpressionType::Integer,
        ValueModel::Null => ExpressionType::Null,
        ValueModel::Dict(_) => ExpressionType::Mapping,
        ValueModel::Path(_) => ExpressionType::Path,
        ValueModel::Text(_) => ExpressionType::String,
    }
}

/// Types of a sequence of analysed expressions.
pub open spec fn types_of(infos: Seq<ExpressionInfo>) -> Seq<ExpressionType> {
    infos.map_values(|i: ExpressionInfo| i.expression_type)
}

/// Analysis of a sequence of expressions, from first to last, each checked by `v`.
pub open spec fn analyse_list(s: Seq<ExprModel>, v: Validator, vars: Map<u64, ExpressionType>) -> Result<Seq<ExpressionInfo>, ErrorKind>
    decreases s, 0nat,
{
    if s.len() == 0 {
        Ok(Seq::empty())
    } else {
        match analyse_list(s.subrange(0, s.len() - 1), v, vars) {
            Err(e) => Err(e),
            Ok(infos) => match check(v, analyse_spec(s[s.len() - 1], vars)) {
                Err(e) => Err(e),
                Ok(i) => Ok(infos.push(i)),
            },
        }
    }
}

/// Analysis of the values of a map literal, from first to last.
pub open spec fn analyse_entries(s: Seq<(Seq<char>, ExprModel)>, vars: Map<u64, ExpressionType>) -> Result<Seq<ExpressionInfo>, ErrorKind>
    decreases s, 0nat,
{
    if s.len() == 0 {
        Ok(Seq::empty())
    } else {
        match analyse_entries(s.subrange(0, s.len() - 1), vars) {
            Err(e) => Err(e),
            Ok(infos) => match analyse_spec(s[s.len() - 1].1, vars) {
                Err(e) => Err(e),
                Ok(i) => Ok(infos.push(i)),
            },
        }
    }
}

/// Analysis of a binary operation: operands from left to right, each checked by the validator of the operator.
pub open spec fn analyse_pair(e: ExprModel, vars: Map<u64, ExpressionType>) -> Result<ExpressionInfo, ErrorKind>
    decreases e, 0nat,
{
    match e {
        ExprModel::Binary(op, l, r) => {
            let (t, v) = binary_signature(op);
            match check(v, analyse_spec(*l, vars)) {
                Err(err) => Err(err),
                Ok(li) => match check(v, analyse_spec(*r, vars)) {
                    Err(err) => Err(err),
                    Ok(ri) => Ok(info_of(t, seq![li, ri])),
                },
            }
        },
        _ => Err(ErrorKind::InvalidArgumentType),
    }
}

/// Analysis of `l IN r`: the right operand must be a list or a map, and when it is a map the
/// left operand must be a string.
pub open spec fn analyse_in(e: ExprModel, vars: Map<u64, ExpressionType>) -> Result<ExpressionInfo, ErrorKind>
    decreases e, 0nat,
{
    match e {
        ExprModel::Binary(_, l, r) => match analyse_spec(*l, vars) {
            Err(err) => Err(err),
            Ok(li) => match check(Validator::ArrayOrMap, analyse_spec(*r, vars)) {
                Err(err) => Err(err),
                Ok(ri) => if ri.expression_type == ExpressionType::Mapping {
                    match check(Validator::StringOrNull, Ok(li)) {
                        Err(err) => Err(err),
                        Ok(li2) => Ok(info_of(ExpressionType::Boolean, seq![li2, ri])),
                    }
                } else {
                    Ok(info_of(ExpressionType::Boolean, seq![li, ri]))
                },
            },
        },
        _ => Err(ErrorKind::InvalidArgumentType),
    }
}

/// Result type and validator of the operands of a binary operator.
pub open spec fn binary_signature(op: BinaryOperator) -> (ExpressionType, Validator) {
    match op {
        BinaryOperator::LogicalAnd | BinaryOperator::LogicalOr | BinaryOperator::LogicalXor => (ExpressionType::Boolean, Validator::BooleanOrNull),
        BinaryOperator::RelationalEqual | BinaryOperator::RelationalDifferent | BinaryOperator::RelationalInferior
        | BinaryOperator::RelationalSuperior | BinaryOperator::RelationalInferiorEqual
        | BinaryOperator::RelationalSuperiorEqual | BinaryOperator::RelationalIn
        | BinaryOperator::RelationalNotIn => (ExpressionType::Boolean, Validator::Any),
        _ => (ExpressionType::Variant, Validator::Any),
    }
}

/// Result type and validator of the operand of a unary operator.
pub open spec fn unary_signature(op: UnaryOperator) -> (ExpressionType, Validator) {
    match op {
        UnaryOperator::Negation => (ExpressionType::Variant, Validator::Any),
        UnaryOperator::LogicalNegation => (ExpressionType::Boolean, Validator::BooleanOrNull),
        UnaryOperator::IsNull | UnaryOperator::IsNotNull => (ExpressionType::Boolean, Validator::Any),
    }
}

/// Analysis of an optional bound of a range access.
pub open spec fn analyse_bound(b: Option<Box<ExprModel>>, vars: Map<u64, ExpressionType>) -> Result<Seq<ExpressionInfo>, ErrorKind>
    decreases b, 0nat,
{
    match b {
        None => Ok(Seq::empty()),
        Some(e) => match check(Validator::IntegerOrNull, analyse_spec(*e, vars)) {
            Err(err) => Err(err),
            Ok(i) => Ok(seq![i]),
        },
    }
}

/// Static analysis of an expression, given the types of the variables in scope.
pub open spec fn analyse_spec(e: ExprModel, vars: Map<u64, ExpressionType>) -> Result<ExpressionInfo, ErrorKind>
    decreases e, 1nat,
{
    match e {
        ExprModel::Array(v) => lift(ExpressionType::Array, analyse_list(v, Validator::Any, vars)),
        ExprModel::FunctionCall(name, args) => match analyse_list(args, Validator::Any, vars) {
            Err(err) => Err(err),
            Ok(infos) => match validate_arguments_spec(name, types_of(infos)) {
                CheckOutcome::Type(t) => Ok(ExpressionInfo {
                    expression_type: t,
                    constant: function_signature(lowercase(name)) is Some && all_constant(infos),
                    aggregation_result: aggregator_result(name) is Some,
                }),
                CheckOutcome::UnknownFunction => Err(ErrorKind::UnknownFunction),
                CheckOutcome::InvalidNumberOfArguments => Err(ErrorKind::InvalidNumberOfArguments),
                CheckOutcome::InvalidArgumentType => Err(ErrorKind::InvalidArgumentType),
            },
        },
        ExprModel::Mapping(entries) => lift(ExpressionType::Mapping, analyse_entries(entries, vars)),
        ExprModel::MemberAccess(left, _) => match check(Validator::MapOrEdgeOrNodeOrNull, analyse_spec(*left, vars)) {
            Err(err) => Err(err),
            Ok(li) => Ok(info_of(ExpressionType::Variant, seq![li])),
        },
        ExprModel::IndexAccess(left, index) => match analyse_spec(*left, vars) {
            Err(err) => Err(err),
            Ok(li) => match analyse_spec(*index, vars) {
                Err(err) => Err(err),
                Ok(ii) => match li.expression_type {
                    ExpressionType::Array => match check(Validator::IntegerOrNull, Ok(ii)) {
                        Err(err) => Err(err),
                        Ok(ii) => Ok(info_of(ExpressionType::Variant, seq![li, ii])),
                    },
                    ExpressionType::Mapping | ExpressionType::Edge | ExpressionType::Node => match check(Validator::StringOrNull, Ok(ii)) {
                        Err(err) => Err(err),
                        Ok(ii) => Ok(info_of(ExpressionType::Variant, seq![li, ii])),
                    },
                    ExpressionType::Null => Ok(info_of(ExpressionType::Null, seq![li, ii])),
                    ExpressionType::Variant => match check(Validator::IntegerOrStringOrNull, Ok(ii)) {
                        Err(err) => Err(err),
                        Ok(ii) => Ok(info_of(ExpressionType::Variant, seq![li, ii])),
                    },
                    _ => Err(ErrorKind::InvalidArgumentType),
                },
            },
        },
        ExprModel::RangeAccess(left, start, end) => match check(Validator::Array, analyse_spec(*left, vars)) {
            Err(err) => Err(err),
            Ok(li) => match analyse_bound(start, vars) {
                Err(err) => Err(err),
                Ok(si) => match analyse_bound(end, vars) {
                    Err(err) => Err(err),
                    Ok(ei) => Ok(info_of(ExpressionType::Variant, seq![li] + si + ei)),
                },
            },
        },
        ExprModel::Parameter(_) => Ok(ExpressionInfo { expression_type: ExpressionType::Variant, constant: true, aggregation_result: false }),
        ExprModel::Literal(v) => Ok(ExpressionInfo { expression_type: literal_type(v), constant: true, aggregation_result: false }),
        ExprModel::Variable(id) => if vars.contains_key(id) {
            Ok(ExpressionInfo { expression_type: vars[id], constant: false, aggregation_result: false })
        } else {
            Err(ErrorKind::UndefinedVariable)
        },
        ExprModel::Binary(op, _, _) => match op {
            BinaryOperator::RelationalIn | BinaryOperator::RelationalNotIn => analyse_in(e, vars),
            _ => analyse_pair(e, vars),
        },
        ExprModel::Unary(op, v) => match check(unary_signature(op).1, analyse_spec(*v, vars)) {
            Err(err) => Err(err),
            Ok(vi) => Ok(info_of(unary_signature(op).0, seq![vi])),
        },
    }
}


pub proof fn lemma_view_expressions_prefix(s: Seq<Expression>, i: int)
    requires
        0 <= i < s.len(),
    ensures
        view_expressions(s.subrange(0, i + 1)) == view_expressions(s.subrange(0, i)).push(view_expression(s[i])),
{
    assert(s.subrange(0, i + 1).subrange(0, i) =~= s.subrange(0, i));
}

pub proof fn lemma_view_named_expressions_prefix(s: Seq<(String, Expression)>, i: int)
    requires
        0 <= i < s.len(),
    ensures
        view_named_expressions(s.subrange(0, i + 1)) == view_named_expressions(s.subrange(0, i)).push((s[i].0@, view_expression(s[i].1))),
{
    assert(s.subrange(0, i + 1).subrange(0, i) =~= s.subrange(0, i));
}

pub proof fn lemma_analyse_list_push(m: Seq<ExprModel>, x: ExprModel, v: Validator, vars: Map<u64, ExpressionType>)
    ensures
        analyse_list(m.push(x), v, vars) == match analyse_list(m, v, vars) {
            Err(e) => Err(e),
            Ok(infos) => match check(v, analyse_spec(x, vars)) {
                Err(e) => Err(e),
                Ok(i) => Ok(infos.push(i)),
            },
        },
{
    assert(m.push(x).subrange(0, m.len() as int) =~= m);
}

pub proof fn lemma_analyse_entries_push(m: Seq<(Seq<char>, ExprModel)>, x: (Seq<char>, ExprModel), vars: Map<u64, ExpressionType>)
    ensures
        analyse_entries(m.push(x), vars) == match analyse_entries(m, vars) {
            Err(e) => Err(e),
            Ok(infos) => match analyse_spec(x.1, vars) {
                Err(e) => Err(e),
                Ok(i) => Ok(infos.push(i)),
            },
        },
{
    assert(m.push(x).subrange(0, m.len() as int) =~= m);
}

/// An error in the analysis of a prefix is the error of the whole list.
pub proof fn lemma_analyse_list_err(s: Seq<ExprModel>, j: int, v: Validator, vars: Map<u64, ExpressionType>)
    requires
        0 <= j <= s.len(),
        analyse_list(s.subrange(0, j), v, vars) is Err,
    ensures
        analyse_list(s, v, vars) == analyse_list(s.subrange(0, j), v, vars),
    decreases s.len() - j,
{
    if j < s.len() {
        lemma_analyse_list_push(s.subrange(0, j), s[j], v, vars);
        assert(s.subrange(0, j).push(s[j]) =~= s.subrange(0, j + 1));
        lemma_analyse_list_err(s, j + 1, v, vars);
    } else {
        assert(s.subrange(0, j) =~= s);
    }
}

pub proof fn lemma_analyse_entries_err(s: Seq<(Seq<char>, ExprModel)>, j: int, vars: Map<u64, ExpressionType>)
    requires
        0 <= j <= s.len(),
        analyse_entries(s.subrange(0, j), vars) is Err,
    ensures
        analyse_entries(s, vars) == analyse_entries(s.subrange(0, j), vars),
    decreases s.len() - j,
{
    if j < s.len() {
        lemma_analyse_entries_push(s.subrange(0, j), s[j], vars);
        assert(s.subrange(0, j).push(s[j]) =~= s.subrange(0, j + 1));
        lemma_analyse_entries_err(s, j + 1, vars);
    } else {
        assert(s.subrange(0, j) =~= s);
    }
}

/// Checks that an expression has a boolean type, null, or a variant.
pub fn boolean_or_null(x: ExpressionInfo) -> (r: Result<ExpressionInfo, Error>)
    ensures
        result_matches(r, check(Validator::BooleanOrNull, Ok(x))),
{
    match x.expression_type {
        ExpressionType::Boolean | ExpressionType::Null | ExpressionType::Variant => Ok(x),
        _ => Err(Error::CompileTime(CompileTimeError::InvalidArgumentType)),
    }
}

/// Accepts any expression.
pub fn any(x: ExpressionInfo) -> (r: Result<ExpressionInfo, Error>)
    ensures
        result_matches(r, check(Validator::Any, Ok(x))),
{
    Ok(x)
}

/// Checks that an expression is an array, or a variant.
pub fn array(x: ExpressionInfo) -> (r: Result<ExpressionInfo, Error>)
    ensures
        result_matches(r, check(Validator::Array, Ok(x))),
{
    match x.expression_type {
        ExpressionType::Array | ExpressionType::Variant => Ok(x),
        _ => Err(Error::CompileTime(CompileTimeError::InvalidArgumentType)),
    }
}

/// Checks that an expression is an array, a map, or a variant.
pub fn array_or_map(x: ExpressionInfo) -> (r: Result<ExpressionInfo, Error>)
    ensures
        result_matches(r, check(Validator::ArrayOrMap, Ok(x))),
{
    match x.expression_type {
        ExpressionType::Array | ExpressionType::Mapping | ExpressionType::Variant => Ok(x),
        _ => Err(Error::CompileTime(CompileTimeError::InvalidArgumentType)),
    }
}

/// Checks that an expression is a map, an edge, a node, null, or a variant.
pub fn map_or_edge_or_node_or_null(x: ExpressionInfo) -> (r: Result<ExpressionInfo, Error>)
    ensures
        result_matches(r, check(Validator::MapOrEdgeOrNodeOrNull, Ok(x))),
{
    match x.expression_type {
        ExpressionType::Mapping | ExpressionType::Edge | ExpressionType::Node | ExpressionType::Variant | ExpressionType::Null => Ok(x),
        _ => Err(Error::CompileTime(CompileTimeError::InvalidArgumentType)),
    }
}

/// Checks that an expression is an integer, null, or a variant.
pub fn integer_or_null(x: ExpressionInfo) -> (r: Result<ExpressionInfo, Error>)
    ensures
        result_matches(r, check(Validator::IntegerOrNull, Ok(x))),
{
    match x.expression_type {
        ExpressionType::Integer | ExpressionType::Null | ExpressionType::Variant => Ok(x),
        _ => Err(Error::CompileTime(CompileTimeError::InvalidArgumentType)),
    }
}

/// Checks that an expression is a string, null, or a variant.
pub fn string_or_null(x: ExpressionInfo) -> (r: Result<ExpressionInfo, Error>)
    ensures
        result_matches(r, check(Validator::StringOrNull, Ok(x))),
{
    match x.expression_type {
        ExpressionType::String | ExpressionType::Null | ExpressionType::Variant => Ok(x),
        _ => Err(Error::CompileTime(CompileTimeError::InvalidArgumentType)),
    }
}

/// Checks that an expression is an integer, a string, null, or a variant.
pub fn integer_or_string_or_null(x: ExpressionInfo) -> (r: Result<ExpressionInfo, Error>)
    ensures
        result_matches(r, check(Validator::IntegerOrStringOrNull, Ok(x))),
{
    match x.expression_type {
        ExpressionType::Integer | ExpressionType::String | ExpressionType::Null | ExpressionType::Variant => Ok(x),
        _ => Err(Error::CompileTime(CompileTimeError::InvalidArgumentType)),
    }
}

/// Applies a validator.
pub fn validate(v: Validator, x: ExpressionInfo) -> (r: Result<ExpressionInfo, Error>)
    ensures
        result_matches(r, check(v, Ok(x))),
{
    match v {
        Validator::Any => any(x),
        Validator::BooleanOrNull => boolean_or_null(x),
        Validator::Array => array(x),
        Validator::ArrayOrMap => array_or_map(x),
        Validator::MapOrEdgeOrNodeOrNull => map_or_edge_or_node_or_null(x),
        Validator::IntegerOrNull => integer_or_null(x),
        Validator::StringOrNull => string_or_null(x),
        Validator::IntegerOrStringOrNull => integer_or_string_or_null(x),
    }
}

impl ExpressionInfo {
    /// Information with explicit fields.
    pub fn new(expression_type: ExpressionType, constant: bool, aggregation_result: bool) -> (r: ExpressionInfo)
        ensures
            r == (ExpressionInfo { expression_type, constant, aggregation_result }),
    {
        ExpressionInfo { expression_type, constant, aggregation_result }
    }

    /// Information of an expression of the given type: constant when all dependents are,
    /// an aggregation result when one dependent is.
    pub fn new_type(expression_type: ExpressionType, dependents: Vec<ExpressionInfo>) -> (r: ExpressionInfo)
        ensures
            r == info_of(expression_type, dependents@),
    {
        let mut constant = true;
        let mut aggregation_result = false;
        for i in 0..dependents.len()
            invariant
                constant == (forall|j: int| 0 <= j < i ==> (#[trigger] dependents@[j]).constant),
                aggregation_result == (exists|j: int| 0 <= j < i && (#[trigger] dependents@[j]).aggregation_result),
        {
            constant = constant && dependents[i].constant;
            aggregation_result = aggregation_result || dependents[i].aggregation_result;
        }
        ExpressionInfo { expression_type, constant, aggregation_result }
    }
}

/// Static analysis of expressions, given the variables in scope and the available functions.
pub struct Analyser<'b> {
    pub variables_manager: &'b VariablesManager,
    pub functions_manager: &'b Manager,
}

/// Type of a literal value.
fn value_type(v: &Value) -> (r: ExpressionType)
    ensures
        r == literal_type(v@),
{
    match v {
        Value::Array(_) => ExpressionType::Array,
        Value::Key(_) => ExpressionType::Key,
        Value::Boolean(_) => ExpressionType::Boolean,
        Value::Edge(_) => ExpressionType::Edge,
        Value::Node(_) => ExpressionType::Node,
        Value::Integer(_) => ExpressionType::Integer,
        Value::Null => ExpressionType::Null,
        Value::Mapping(_) => ExpressionType::Mapping,
        Value::Path(_) => ExpressionType::Path,
        Value::String(_) => ExpressionType::String,
    }
}

/// Result type and validator of the operands of a binary operator.
fn binary_signature_exec(op: BinaryOperator) -> (r: (ExpressionType, Validator))
    ensures
        r == binary_signature(op),
{
    match op {
        BinaryOperator::LogicalAnd | BinaryOperator::LogicalOr | BinaryOperator::LogicalXor => (ExpressionType::Boolean, Validator::BooleanOrNull),
        BinaryOperator::RelationalEqual | BinaryOperator::RelationalDifferent | BinaryOperator::RelationalInferior
        | BinaryOperator::RelationalSuperior | BinaryOperator::RelationalInferiorEqual
        | BinaryOperator::RelationalSuperiorEqual | BinaryOperator::RelationalIn
        | BinaryOperator::RelationalNotIn => (ExpressionType::Boolean, Validator::Any),
        _ => (ExpressionType::Variant, Validator::Any),
    }
}

/// Result type and validator of the operand of a unary operator.
fn unary_signature_exec(op: UnaryOperator) -> (r: (ExpressionType, Validator))
    ensures
        r == unary_signature(op),
{
    match op {
        UnaryOperator::Negation => (ExpressionType::Variant, Validator::Any),
        UnaryOperator::LogicalNegation => (ExpressionType::Boolean, Validator::BooleanOrNull),
        UnaryOperator::IsNull | UnaryOperator::IsNotNull => (ExpressionType::Boolean, Validator::Any),
    }
}

impl<'b> Analyser<'b> {
    /// An analyser over the given variables and functions.
    pub fn new(variables_manager: &'b VariablesManager, functions_manager: &'b Manager) -> (r: Analyser<'b>)
        ensures
            r.variables_manager == variables_manager,
            r.functions_manager == functions_manager,
    {
        Analyser { variables_manager, functions_manager }
    }

    /// Analyses an expression and checks its type with `v`.
    fn analyse_checked(&self, e: &Expression, v: Validator) -> (r: Result<ExpressionInfo, Error>)
        ensures
            result_matches(r, check(v, analyse_spec(e@, self.variables_manager.types()))),
        decreases e, 2nat,
    {
        match self.analyse(e) {
            Ok(i) => validate(v, i),
            Err(err) => Err(err),
        }
    }

    /// Analyses each expression, in order, checking each with `v`.
    fn analyse_all(&self, exprs: &Vec<Expression>, v: Validator) -> (r: Result<Vec<ExpressionInfo>, Error>)
        ensures
            match analyse_list(view_expressions(exprs@), v, self.variables_manager.types()) {
                Ok(infos) => r matches Ok(x) && x@ == infos,
                Err(k) => r matches Err(e) && kind_of(e) == k,
            },
        decreases exprs, 0nat,
    {
        let ghost vars = self.variables_manager.types();
        let mut out: Vec<ExpressionInfo> = Vec::new();
        assert(exprs@.subrange(0, 0) =~= Seq::<Expression>::empty());
        for i in 0..exprs.len()
            invariant
                vars == self.variables_manager.types(),
                analyse_list(view_expressions(exprs@.subrange(0, i as int)), v, vars) == Ok::<Seq<ExpressionInfo>, ErrorKind>(out@),
        {
            proof {
                lemma_view_expressions_prefix(exprs@, i as int);
                lemma_analyse_list_push(view_expressions(exprs@.subrange(0, i as int)), view_expression(exprs@[i as int]), v, vars);
                lemma_view_expressions(exprs@);
                lemma_view_expressions(exprs@.subrange(0, i + 1));
                assert(view_expressions(exprs@).subrange(0, i + 1) =~= view_expressions(exprs@.subrange(0, i + 1)));
            }
            assert(decreases_to!(exprs => exprs@[i as int]));
            let info = match self.analyse_checked(&exprs[i], v) {
                Ok(info) => info,
                Err(e) => {
                    proof { lemma_analyse_list_err(view_expressions(exprs@), i + 1, v, vars); }
                    return Err(e);
                },
            };
            out.push(info);
        }
        assert(exprs@.subrange(0, exprs@.len() as int) =~= exprs@);
        Ok(out)
    }

    /// Analyses the values of a map literal, in order.
    fn analyse_values(&self, m: &Vec<(String, Expression)>) -> (r: Result<Vec<ExpressionInfo>, Error>)
        ensures
            match analyse_entries(view_named_expressions(m@), self.variables_manager.types()) {
                Ok(infos) => r matches Ok(x) && x@ == infos,
                Err(k) => r matches Err(e) && kind_of(e) == k,
            },
        decreases m, 0nat,
    {
        let ghost vars = self.variables_manager.types();
        let mut out: Vec<ExpressionInfo> = Vec::new();
        assert(m@.subrange(0, 0) =~= Seq::<(String, Expression)>::empty());
        for i in 0..m.len()
            invariant
                vars == self.variables_manager.types(),
                analyse_entries(view_named_expressions(m@.subrange(0, i as int)), vars) == Ok::<Seq<ExpressionInfo>, ErrorKind>(out@),
        {
            proof {
                lemma_view_named_expressions_prefix(m@, i as int);
                lemma_analyse_entries_push(view_named_expressions(m@.subrange(0, i as int)), (m@[i as int].0@, view_expression(m@[i as int].1)), vars);
                lemma_view_named_expressions(m@);
                lemma_view_named_expressions(m@.subrange(0, i + 1));
                assert(view_named_expressions(m@).subrange(0, i + 1) =~= view_named_expressions(m@.subrange(0, i + 1)));
                assert(decreases_to!(m => m@));
                assert(decreases_to!(m@ => m@[i as int]));
                assert(decreases_to!(m@[i as int] => m@[i as int].1));
            }
            let info = match self.analyse(&m[i].1) {
                Ok(info) => info,
                Err(e) => {
                    proof { lemma_analyse_entries_err(view_named_expressions(m@), i + 1, vars); }
                    return Err(e);
                },
            };
            out.push(info);
        }
        assert(m@.subrange(0, m@.len() as int) =~= m@);
        Ok(out)
    }

    /// Analyses a binary operation.
    fn analyse_binary(&self, e: &Expression) -> (r: Result<ExpressionInfo, Error>)
        requires
            e is Binary,
        ensures
            result_matches(r, analyse_spec(e@, self.variables_manager.types())),
        decreases e, 0nat,
    {
        match e {
            Expression::Binary { operator, left, right } => {
                assert(decreases_to!(*e => (*e)->Binary_left));
                assert(decreases_to!(*e => (*e)->right));
                assert(e@ == ExprModel::Binary(*operator, Box::new(view_expression(**left)), Box::new(view_expression(**right))));
                let ghost vars = self.variables_manager.types();
                match operator {
                    BinaryOperator::RelationalIn | BinaryOperator::RelationalNotIn => {
                        assert(analyse_spec(e@, vars) == analyse_in(e@, vars));
                        let li = match self.analyse(left) {
                            Ok(x) => x,
                            Err(err) => return Err(err),
                        };
                        let ri = match self.analyse_checked(right, Validator::ArrayOrMap) {
                            Ok(x) => x,
                            Err(err) => return Err(err),
                        };
                        if ri.expression_type == ExpressionType::Mapping {
                            let li2 = match string_or_null(li) {
                                Ok(x) => x,
                                Err(err) => return Err(err),
                            };
                            let deps = vec![li2, ri];
                            assert(deps@ =~= seq![li2, ri]);
                            Ok(ExpressionInfo::new_type(ExpressionType::Boolean, deps))
                        } else {
                            let deps = vec![li, ri];
                            assert(deps@ =~= seq![li, ri]);
                            Ok(ExpressionInfo::new_type(ExpressionType::Boolean, deps))
                        }
                    },
                    _ => {
                        assert(analyse_spec(e@, vars) == analyse_pair(e@, vars));
                        let (t, v) = binary_signature_exec(*operator);
                        let li = match self.analyse_checked(left, v) {
                            Ok(x) => x,
                            Err(err) => return Err(err),
                        };
                        let ri = match self.analyse_checked(right, v) {
                            Ok(x) => x,
                            Err(err) => return Err(err),
                        };
                        let deps = vec![li, ri];
                        assert(deps@ =~= seq![li, ri]);
                        Ok(ExpressionInfo::new_type(t, deps))
                    },
                }
            },
            _ => Err(Error::CompileTime(CompileTimeError::InvalidArgumentType)),
        }
    }

    /// Analyses a call of a function or an aggregator.
    fn analyse_call(&self, name: &String, arguments: &Vec<Expression>) -> (r: Result<ExpressionInfo, Error>)
        ensures
            result_matches(r, analyse_spec(ExprModel::FunctionCall(name@, view_expressions(arguments@)), self.variables_manager.types())),
        decreases arguments, 1nat,
    {
        let infos = match self.analyse_all(arguments, Validator::Any) {
            Ok(x) => x,
            Err(err) => return Err(err),
        };
        let mut types: Vec<ExpressionType> = Vec::new();
        for i in 0..infos.len()
            invariant
                types@ =~= types_of(infos@.subrange(0, i as int)),
        {
            types.push(infos[i].expression_type);
            assert(types_of(infos@.subrange(0, i + 1)) =~= types_of(infos@.subrange(0, i as int)).push(infos@[i as int].expression_type));
        }
        assert(infos@.subrange(0, infos@.len() as int) =~= infos@);
        let t = match self.functions_manager.validate_arguments(name, &types) {
            Ok(t) => t,
            Err(err) => return Err(err),
        };
        let deterministic = match self.functions_manager.is_deterministic(name) {
            Ok(d) => d,
            Err(err) => return Err(err),
        };
        let aggregate = self.functions_manager.is_aggregate(name);
        let all = ExpressionInfo::new_type(t, infos);
        Ok(ExpressionInfo::new(t, deterministic && all.constant, aggregate))
    }

    /// Analyses an index access.
    fn analyse_index(&self, e: &Expression) -> (r: Result<ExpressionInfo, Error>)
        requires
            e is IndexAccess,
        ensures
            result_matches(r, analyse_spec(e@, self.variables_manager.types())),
        decreases e, 0nat,
    {
        match e {
            Expression::IndexAccess { left, index } => {
                assert(decreases_to!(*e => (*e)->IndexAccess_left));
                assert(decreases_to!(*e => (*e)->index));
                assert(e@ == ExprModel::IndexAccess(Box::new(view_expression(**left)), Box::new(view_expression(**index))));
                let li = match self.analyse(left) {
                    Ok(x) => x,
                    Err(err) => return Err(err),
                };
                let ii = match self.analyse(index) {
                    Ok(x) => x,
                    Err(err) => return Err(err),
                };
                match li.expression_type {
                    ExpressionType::Array => match integer_or_null(ii) {
                        Ok(ii) => {
                            let deps = vec![li, ii];
                            assert(deps@ =~= seq![li, ii]);
                            Ok(ExpressionInfo::new_type(ExpressionType::Variant, deps))
                        },
                        Err(err) => Err(err),
                    },
                    ExpressionType::Mapping | ExpressionType::Edge | ExpressionType::Node => match string_or_null(ii) {
                        Ok(ii) => {
                            let deps = vec![li, ii];
                            assert(deps@ =~= seq![li, ii]);
                            Ok(ExpressionInfo::new_type(ExpressionType::Variant, deps))
                        },
                        Err(err) => Err(err),
                    },
                    ExpressionType::Null => {
                        let deps = vec![li, ii];
                        assert(deps@ =~= seq![li, ii]);
                        Ok(ExpressionInfo::new_type(ExpressionType::Null, deps))
                    },
                    ExpressionType::Variant => match integer_or_string_or_null(ii) {
                        Ok(ii) => {
                            let deps = vec![li, ii];
                            assert(deps@ =~= seq![li, ii]);
                            Ok(ExpressionInfo::new_type(ExpressionType::Variant, deps))
                        },
                        Err(err) => Err(err),
                    },
                    _ => Err(Error::CompileTime(CompileTimeError::InvalidArgumentType)),
                }
            },
            _ => Err(Error::CompileTime(CompileTimeError::InvalidArgumentType)),
        }
    }

    /// Analyses a range access.
    #[verifier::rlimit(100)]
    #[verifier::spinoff_prover]
    fn analyse_range(&self, e: &Expression) -> (r: Result<ExpressionInfo, Error>)
        requires
            e is RangeAccess,
        ensures
            result_matches(r, analyse_spec(e@, self.variables_manager.types())),
        decreases e, 0nat,
    {
        match e {
            Expression::RangeAccess { left, start, end } => {
                let ghost vars = self.variables_manager.types();
                assert(decreases_to!(*e => (*e)->RangeAccess_left));
                assert(e@ == ExprModel::RangeAccess(Box::new(view_expression(**left)), view_optional_expression(*start), view_optional_expression(*end)));
                let li = match self.analyse_checked(left, Validator::Array) {
                    Ok(x) => x,
                    Err(err) => return Err(err),
                };
                let mut deps = vec![li];
                let ghost mut si: Seq<ExpressionInfo> = Seq::empty();
                match start {
                    Some(s) => {
                        assert(decreases_to!(*e => (*e)->start));
                        assert(decreases_to!(*start => (*start)->0));
                        assert(view_optional_expression(*start) == Some(Box::new(view_expression(**s))));
                        let x = match self.analyse_checked(s, Validator::IntegerOrNull) {
                            Ok(x) => x,
                            Err(err) => return Err(err),
                        };
                        deps.push(x);
                        proof { si = seq![x]; }
                    },
                    None => {},
                }
                assert(analyse_bound(view_optional_expression(*start), vars) == Ok::<Seq<ExpressionInfo>, ErrorKind>(si));
                let ghost mut ei: Seq<ExpressionInfo> = Seq::empty();
                match end {
                    Some(x) => {
                        assert(decreases_to!(*e => (*e)->end));
                        assert(decreases_to!(*end => (*end)->0));
                        assert(view_optional_expression(*end) == Some(Box::new(view_expression(**x))));
                        let y = match self.analyse_checked(x, Validator::IntegerOrNull) {
                            Ok(y) => y,
                            Err(err) => return Err(err),
                        };
                        deps.push(y);
                        proof { ei = seq![y]; }
                    },
                    None => {},
                }
                assert(analyse_bound(view_optional_expression(*end), vars) == Ok::<Seq<ExpressionInfo>, ErrorKind>(ei));
                assert(deps@ =~= seq![li] + si + ei);
                Ok(ExpressionInfo::new_type(ExpressionType::Variant, deps))
            },
            _ => Err(Error::CompileTime(CompileTimeError::InvalidArgumentType)),
        }
    }

    /// Static analysis of an expression: its type, whether it is constant, and whether it holds an
    /// aggregation; or the error that makes it invalid.
    pub fn analyse(&self, e: &Expression) -> (r: Result<ExpressionInfo, Error>)
        ensures
            result_matches(r, analyse_spec(e@, self.variables_manager.types())),
        decreases e, 1nat,
    {
        match e {
            Expression::Array(a) => {
                assert(decreases_to!(*e => (*e)->Array_0));
                assert(e@ == ExprModel::Array(view_expressions(a@)));
                match self.analyse_all(a, Validator::Any) {
                    Ok(infos) => Ok(ExpressionInfo::new_type(ExpressionType::Array, infos)),
                    Err(err) => Err(err),
                }
            },
            Expression::FunctionCall { name, arguments } => {
                assert(decreases_to!(*e => (*e)->arguments));
                assert(e@ == ExprModel::FunctionCall(name@, view_expressions(arguments@)));
                self.analyse_call(name, arguments)
            },
            Expression::Mapping(m) => {
                assert(decreases_to!(*e => (*e)->Mapping_0));
                assert(e@ == ExprModel::Mapping(view_named_expressions(m@)));
                match self.analyse_values(m) {
                    Ok(infos) => Ok(ExpressionInfo::new_type(ExpressionType::Mapping, infos)),
                    Err(err) => Err(err),
                }
            },
            Expression::MemberAccess { left, path } => {
                assert(decreases_to!(*e => (*e)->MemberAccess_left));
                assert(e@ == ExprModel::MemberAccess(Box::new(view_expression(**left)), view_labels(path@)));
                match self.analyse_checked(left, Validator::MapOrEdgeOrNodeOrNull) {
                    Ok(li) => {
                        let deps = vec![li];
                        assert(deps@ =~= seq![li]);
                        Ok(ExpressionInfo::new_type(ExpressionType::Variant, deps))
                    },
                    Err(err) => Err(err),
                }
            },
            Expression::IndexAccess { .. } => self.analyse_index(e),
            Expression::RangeAccess { .. } => self.analyse_range(e),
            Expression::Parameter(p) => {
                assert(e@ == ExprModel::Parameter(p@));
                Ok(ExpressionInfo::new(ExpressionType::Variant, true, false))
            },
            Expression::Value(v) => {
                assert(e@ == ExprModel::Literal(v@));
                Ok(ExpressionInfo::new(value_type(v), true, false))
            },
            Expression::Variable(id) => {
                assert(e@ == ExprModel::Variable(id@.1));
                match self.variables_manager.expression_type(id) {
                    Ok(t) => Ok(ExpressionInfo::new(t, false, false)),
                    Err(err) => Err(err),
                }
            },
            Expression::Binary { .. } => self.analyse_binary(e),
            Expression::Unary { operator, value } => {
                assert(decreases_to!(*e => (*e)->value));
                assert(e@ == ExprModel::Unary(*operator, Box::new(view_expression(**value))));
                let (t, v) = unary_signature_exec(*operator);
                match self.analyse_checked(value, v) {
                    Ok(vi) => {
                        let deps = vec![vi];
                        assert(deps@ =~= seq![vi]);
                        Ok(ExpressionInfo::new_type(t, deps))
                    },
                    Err(err) => Err(err),
                }
            },
        }
    }
}


} // verus!
