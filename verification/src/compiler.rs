use vstd::prelude::*;
use crate::ast::{label_all_inclusive, lemma_view_label_expressions, view_label_expression, view_label_expressions, LabelExpression, LabelModel};
use crate::error::{kind_of, outcome_matches, CompileTimeError, Error, ErrorKind, InternalError};
use crate::expression::{
    lemma_view_expressions, lemma_view_named_expressions, view_expression, view_expressions, view_named_expressions,
    view_optional_expression, BinaryOperator, ExprModel, Expression, UnaryOperator,
};
use crate::expression_analyser::{analyse_spec, Analyser, ExpressionType};
use crate::functions::{aggregator_result, function_signature, lowercase, to_lowercase, Manager};
use crate::ast::VariableIdentifier;
use crate::patterns::{var_id, view_properties, EdgeDirectivity, EdgePattern, Modifiers as ModifiersAst, NodePattern, OrderByExpression, Pattern};
use crate::variables_manager::{mark_set_spec, marked_set};
use crate::instructions::{view_instruction, view_instructions, Block, BlockMatch, CreateAction, RWAggregation, RWExpression, InstrModel, Instruction, Modifiers, OrderBy, VariablesSizes};
use crate::value::{clone_strings, view_labels, Value, ValueMap, ValueModel};
use crate::variables_manager::{types_of_variables, VariableModel, VariablesManager};
use crate::arithmetic::{arithmetic_spec, ArithmeticOperator};
use crate::interpreter::{step_spec, StackModel};

verus! {

broadcast use vstd::std_specs::vec::group_vec_axioms;

/// Model of an aggregation and of the column that receives its result.
pub struct AggModel {
    pub col_id: nat,
    pub init: Seq<InstrModel>,
    pub argument: Seq<InstrModel>,
    pub aggregator: Seq<char>,
}

pub open spec fn view_aggregation(a: (usize, RWAggregation)) -> AggModel {
    AggModel {
        col_id: a.0 as nat,
        init: view_instructions(a.1.init_instructions@),
        argument: view_instructions(a.1.argument_instructions@),
        aggregator: a.1.aggregator@,
    }
}

pub open spec fn view_aggregations(o: Option<Vec<(usize, RWAggregation)>>) -> Option<Seq<AggModel>> {
    match o {
        Some(v) => Some(v@.map_values(|a: (usize, RWAggregation)| view_aggregation(a))),
        None => None,
    }
}

/// What compiling an expression produces: the instructions appended to the current block, the
/// aggregations (when the context accepts them), the number of temporary columns, and the
/// error met, if any.
pub struct Emitted {
    pub code: Seq<InstrModel>,
    pub aggregations: Option<Seq<AggModel>>,
    pub temporaries: nat,
    pub error: Option<ErrorKind>,
}

pub open spec fn emitted(code: Seq<InstrModel>, aggregations: Option<Seq<AggModel>>, temporaries: nat) -> Emitted {
    Emitted { code, aggregations, temporaries, error: None }
}

pub open spec fn failed(aggregations: Option<Seq<AggModel>>, temporaries: nat, k: ErrorKind) -> Emitted {
    Emitted { code: Seq::empty(), aggregations, temporaries, error: Some(k) }
}

/// `a`, followed by `b` compiled in the state that `a` left.
pub open spec fn sequence(a: Emitted, b: Emitted) -> Emitted {
    Emitted { code: a.code + b.code, aggregations: b.aggregations, temporaries: b.temporaries, error: b.error }
}

/// `a`, followed by one more instruction when `a` succeeded.
pub open spec fn finish(a: Emitted, i: InstrModel) -> Emitted {
    if a.error is Some { a } else { Emitted { code: a.code.push(i), ..a } }
}

/// Instruction of a binary operator.
pub open spec fn binary_instruction(op: BinaryOperator) -> InstrModel {
    match op {
        BinaryOperator::LogicalAnd => InstrModel::And,
        BinaryOperator::LogicalOr => InstrModel::Or,
        BinaryOperator::LogicalXor => InstrModel::Xor,
        BinaryOperator::RelationalEqual => InstrModel::Equal,
        BinaryOperator::RelationalDifferent => InstrModel::NotEqual,
        BinaryOperator::RelationalInferior => InstrModel::Inferior,
        BinaryOperator::RelationalSuperior => InstrModel::Superior,
        BinaryOperator::RelationalInferiorEqual => InstrModel::InferiorEqual,
        BinaryOperator::RelationalSuperiorEqual => InstrModel::SuperiorEqual,
        BinaryOperator::RelationalIn => InstrModel::In,
        BinaryOperator::RelationalNotIn => InstrModel::NotIn,
        BinaryOperator::Addition => InstrModel::Addition,
        BinaryOperator::Subtraction => InstrModel::Subtraction,
        BinaryOperator::Multiplication => InstrModel::Multiplication,
        BinaryOperator::Division => InstrModel::Division,
        BinaryOperator::Modulo => InstrModel::Modulo,
        BinaryOperator::Exponent => InstrModel::Exponent,
    }
}

/// Keys of the entries of a map literal.
pub open spec fn entry_keys(m: Seq<(Seq<char>, ExprModel)>) -> Seq<Seq<char>> {
    m.map_values(|p: (Seq<char>, ExprModel)| p.0)
}

/// Compiling a list of expressions, from first to last, each leaving its value on the stack.
pub open spec fn compile_list(s: Seq<ExprModel>, vars: Map<u64, VariableModel>, temps: nat, aggs: Option<Seq<AggModel>>) -> Emitted
    decreases s, 0nat,
{
    if s.len() == 0 {
        emitted(Seq::empty(), aggs, temps)
    } else {
        let a = compile_list(s.subrange(0, s.len() - 1), vars, temps, aggs);
        if a.error is Some {
            a
        } else {
            sequence(a, compile_spec(s[s.len() - 1], vars, a.temporaries, a.aggregations))
        }
    }
}

/// Compiling the values of a map literal, from first to last.
pub open spec fn compile_entries(s: Seq<(Seq<char>, ExprModel)>, vars: Map<u64, VariableModel>, temps: nat, aggs: Option<Seq<AggModel>>) -> Emitted
    decreases s, 0nat,
{
    if s.len() == 0 {
        emitted(Seq::empty(), aggs, temps)
    } else {
        let a = compile_entries(s.subrange(0, s.len() - 1), vars, temps, aggs);
        if a.error is Some {
            a
        } else {
            sequence(a, compile_spec(s[s.len() - 1].1, vars, a.temporaries, a.aggregations))
        }
    }
}

/// Compiling an optional operand of a range access.
pub open spec fn compile_optional(o: Option<Box<ExprModel>>, vars: Map<u64, VariableModel>, temps: nat, aggs: Option<Seq<AggModel>>) -> Emitted
    decreases o, 0nat,
{
    match o {
        Some(x) => compile_spec(*x, vars, temps, aggs),
        None => emitted(Seq::empty(), aggs, temps),
    }
}

/// Compiling a call of an aggregator: its argument (and initial value) are compiled apart, the
/// aggregation is recorded, and the expression reads the temporary column of its result.
pub open spec fn compile_aggregation(name: Seq<char>, args: Seq<ExprModel>, vars: Map<u64, VariableModel>, temps: nat, aggs: Option<Seq<AggModel>>) -> Emitted
    decreases args, 0nat,
{
    let col = temps + vars.len();
    let t1 = temps + 1;
    if args.len() == 0 {
        failed(aggs, t1, ErrorKind::MissingAggregationArgument)
    } else {
        let a = compile_spec(args[0], vars, t1, aggs);
        if a.error is Some {
            Emitted { code: Seq::empty(), ..a }
        } else {
            let b = if args.len() > 1 {
                compile_spec(args[1], vars, a.temporaries, a.aggregations)
            } else {
                emitted(Seq::empty(), a.aggregations, a.temporaries)
            };
            if b.error is Some {
                Emitted { code: Seq::empty(), ..b }
            } else {
                match b.aggregations {
                    None => failed(None, b.temporaries, ErrorKind::MissingAggregations),
                    Some(list) => Emitted {
                        code: seq![InstrModel::GetVariable(col)],
                        aggregations: Some(list.push(AggModel { col_id: col, init: b.code, argument: a.code, aggregator: lowercase(name) })),
                        temporaries: b.temporaries,
                        error: None,
                    },
                }
            }
        }
    }
}

/// Compiling an expression whose analysis succeeded.
pub open spec fn compile_node(e: ExprModel, vars: Map<u64, VariableModel>, temps: nat, aggs: Option<Seq<AggModel>>) -> Emitted
    decreases e, 0nat,
{
    match e {
        ExprModel::Literal(v) => emitted(seq![InstrModel::Push(v)], aggs, temps),
        ExprModel::Variable(id) => if vars.contains_key(id) {
            emitted(seq![InstrModel::GetVariable(vars[id].col_id)], aggs, temps)
        } else {
            failed(aggs, temps, ErrorKind::UnknownVariable)
        },
        ExprModel::Parameter(n) => emitted(seq![InstrModel::GetParameter(n)], aggs, temps),
        ExprModel::FunctionCall(name, args) => if aggregator_result(lowercase(name)) is Some {
            compile_aggregation(name, args, vars, temps, aggs)
        } else {
            let a = compile_list(args, vars, temps, aggs);
            if a.error is Some {
                a
            } else if function_signature(lowercase(name)) is None {
                Emitted { error: Some(ErrorKind::UnknownFunction), ..a }
            } else {
                finish(a, InstrModel::FunctionCall(lowercase(name), args.len()))
            }
        },
        ExprModel::Array(v) => finish(compile_list(v, vars, temps, aggs), InstrModel::CreateArray(v.len())),
        ExprModel::Mapping(m) => finish(compile_entries(m, vars, temps, aggs), InstrModel::CreateMap(entry_keys(m))),
        ExprModel::MemberAccess(l, path) => finish(compile_spec(*l, vars, temps, aggs), InstrModel::MemberAccess(path)),
        ExprModel::IndexAccess(l, i) => {
            let a = compile_spec(*l, vars, temps, aggs);
            if a.error is Some {
                a
            } else {
                finish(sequence(a, compile_spec(*i, vars, a.temporaries, a.aggregations)), InstrModel::IndexAccess)
            }
        },
        ExprModel::RangeAccess(l, s, x) => {
            let a = compile_spec(*l, vars, temps, aggs);
            if a.error is Some {
                a
            } else {
                let b = sequence(a, compile_optional(s, vars, a.temporaries, a.aggregations));
                if b.error is Some {
                    b
                } else {
                    finish(sequence(b, compile_optional(x, vars, b.temporaries, b.aggregations)), InstrModel::RangeAccess(s is Some, x is Some))
                }
            }
        },
        ExprModel::Binary(op, l, r) => {
            let a = compile_spec(*r, vars, temps, aggs);
            if a.error is Some {
                a
            } else {
                finish(sequence(a, compile_spec(*l, vars, a.temporaries, a.aggregations)), binary_instruction(op))
            }
        },
        ExprModel::Unary(op, v) => {
            let a = compile_spec(*v, vars, temps, aggs);
            match op {
                UnaryOperator::Negation => finish(a, InstrModel::Negation),
                UnaryOperator::LogicalNegation => finish(a, InstrModel::Not),
                UnaryOperator::IsNull => finish(a, InstrModel::IsNull),
                UnaryOperator::IsNotNull => finish(finish(a, InstrModel::IsNull), InstrModel::Not),
            }
        },
    }
}

/// Compiling an expression into instructions that leave its value on the stack: the expression
/// is analysed first, then its operands are compiled, then the operation.
pub open spec fn compile_spec(e: ExprModel, vars: Map<u64, VariableModel>, temps: nat, aggs: Option<Seq<AggModel>>) -> Emitted
    decreases e, 1nat,
{
    match analyse_spec(e, types_of_variables(vars)) {
        Err(k) => failed(aggs, temps, k),
        Ok(_) => compile_node(e, vars, temps, aggs),
    }
}


/// Compiling never releases temporary columns.
pub proof fn lemma_compile_temporaries(e: ExprModel, vars: Map<u64, VariableModel>, temps: nat, aggs: Option<Seq<AggModel>>)
    ensures
        compile_spec(e, vars, temps, aggs).temporaries >= temps,
    decreases e, 1nat,
{
    if analyse_spec(e, types_of_variables(vars)) is Ok {
        lemma_node_temporaries(e, vars, temps, aggs);
    }
}

pub proof fn lemma_node_temporaries(e: ExprModel, vars: Map<u64, VariableModel>, temps: nat, aggs: Option<Seq<AggModel>>)
    ensures
        compile_node(e, vars, temps, aggs).temporaries >= temps,
    decreases e, 0nat,
{
    match e {
        ExprModel::FunctionCall(name, args) => {
            lemma_aggregation_temporaries(name, args, vars, temps, aggs);
            lemma_list_temporaries(args, vars, temps, aggs);
        },
        ExprModel::Array(v) => lemma_list_temporaries(v, vars, temps, aggs),
        ExprModel::Mapping(m) => lemma_entries_temporaries(m, vars, temps, aggs),
        ExprModel::MemberAccess(l, _) => lemma_compile_temporaries(*l, vars, temps, aggs),
        ExprModel::IndexAccess(l, i) => {
            let a = compile_spec(*l, vars, temps, aggs);
            lemma_compile_temporaries(*l, vars, temps, aggs);
            lemma_compile_temporaries(*i, vars, a.temporaries, a.aggregations);
        },
        ExprModel::RangeAccess(l, st, x) => {
            let a = compile_spec(*l, vars, temps, aggs);
            lemma_compile_temporaries(*l, vars, temps, aggs);
            let b = sequence(a, compile_optional(st, vars, a.temporaries, a.aggregations));
            lemma_optional_temporaries(st, vars, a.temporaries, a.aggregations);
            lemma_optional_temporaries(x, vars, b.temporaries, b.aggregations);
        },
        ExprModel::Binary(_, l, r) => {
            let a = compile_spec(*r, vars, temps, aggs);
            lemma_compile_temporaries(*r, vars, temps, aggs);
            lemma_compile_temporaries(*l, vars, a.temporaries, a.aggregations);
        },
        ExprModel::Unary(_, v) => lemma_compile_temporaries(*v, vars, temps, aggs),
        _ => {},
    }
}

pub proof fn lemma_aggregation_temporaries(name: Seq<char>, args: Seq<ExprModel>, vars: Map<u64, VariableModel>, temps: nat, aggs: Option<Seq<AggModel>>)
    ensures
        compile_aggregation(name, args, vars, temps, aggs).temporaries >= temps + 1,
    decreases args, 0nat,
{
    if args.len() > 0 {
        let a = compile_spec(args[0], vars, temps + 1, aggs);
        lemma_compile_temporaries(args[0], vars, temps + 1, aggs);
        if args.len() > 1 {
            lemma_compile_temporaries(args[1], vars, a.temporaries, a.aggregations);
        }
    }
}

pub proof fn lemma_optional_temporaries(o: Option<Box<ExprModel>>, vars: Map<u64, VariableModel>, temps: nat, aggs: Option<Seq<AggModel>>)
    ensures
        compile_optional(o, vars, temps, aggs).temporaries >= temps,
    decreases o, 0nat,
{
    match o {
        Some(x) => lemma_compile_temporaries(*x, vars, temps, aggs),
        None => {},
    }
}

pub proof fn lemma_list_temporaries(s: Seq<ExprModel>, vars: Map<u64, VariableModel>, temps: nat, aggs: Option<Seq<AggModel>>)
    ensures
        compile_list(s, vars, temps, aggs).temporaries >= temps,
    decreases s, 0nat,
{
    if s.len() > 0 {
        let a = compile_list(s.subrange(0, s.len() - 1), vars, temps, aggs);
        lemma_list_temporaries(s.subrange(0, s.len() - 1), vars, temps, aggs);
        lemma_compile_temporaries(s[s.len() - 1], vars, a.temporaries, a.aggregations);
    }
}

pub proof fn lemma_entries_temporaries(s: Seq<(Seq<char>, ExprModel)>, vars: Map<u64, VariableModel>, temps: nat, aggs: Option<Seq<AggModel>>)
    ensures
        compile_entries(s, vars, temps, aggs).temporaries >= temps,
    decreases s, 0nat,
{
    if s.len() > 0 {
        let a = compile_entries(s.subrange(0, s.len() - 1), vars, temps, aggs);
        lemma_entries_temporaries(s.subrange(0, s.len() - 1), vars, temps, aggs);
        lemma_compile_temporaries(s[s.len() - 1].1, vars, a.temporaries, a.aggregations);
    }
}

/// Compiling the first `j + 1` expressions of a list is compiling the first `j`, then the next one.
pub proof fn lemma_compile_list_step(s: Seq<ExprModel>, j: int, vars: Map<u64, VariableModel>, temps: nat, aggs: Option<Seq<AggModel>>)
    requires
        0 <= j < s.len(),
    ensures
        ({
            let a = compile_list(s.subrange(0, j), vars, temps, aggs);
            compile_list(s.subrange(0, j + 1), vars, temps, aggs) == if a.error is Some {
                a
            } else {
                sequence(a, compile_spec(s[j], vars, a.temporaries, a.aggregations))
            }
        }),
{
    assert(s.subrange(0, j + 1).subrange(0, j) =~= s.subrange(0, j));
}

/// The compilation of a prefix of a list bounds the temporary columns of the whole list, and
/// its error, if any, is the error of the whole list.
pub proof fn lemma_compile_list_prefix(s: Seq<ExprModel>, j: int, vars: Map<u64, VariableModel>, temps: nat, aggs: Option<Seq<AggModel>>)
    requires
        0 <= j <= s.len(),
    ensures
        compile_list(s.subrange(0, j), vars, temps, aggs).temporaries <= compile_list(s, vars, temps, aggs).temporaries,
        compile_list(s.subrange(0, j), vars, temps, aggs).error is Some
            ==> compile_list(s, vars, temps, aggs) == compile_list(s.subrange(0, j), vars, temps, aggs),
    decreases s.len() - j,
{
    if j < s.len() {
        lemma_compile_list_step(s, j, vars, temps, aggs);
        let a = compile_list(s.subrange(0, j), vars, temps, aggs);
        lemma_compile_temporaries(s[j], vars, a.temporaries, a.aggregations);
        lemma_compile_list_prefix(s, j + 1, vars, temps, aggs);
    } else {
        assert(s.subrange(0, j) =~= s);
    }
}

pub proof fn lemma_compile_entries_step(s: Seq<(Seq<char>, ExprModel)>, j: int, vars: Map<u64, VariableModel>, temps: nat, aggs: Option<Seq<AggModel>>)
    requires
        0 <= j < s.len(),
    ensures
        ({
            let a = compile_entries(s.subrange(0, j), vars, temps, aggs);
            compile_entries(s.subrange(0, j + 1), vars, temps, aggs) == if a.error is Some {
                a
            } else {
                sequence(a, compile_spec(s[j].1, vars, a.temporaries, a.aggregations))
            }
        }),
{
    assert(s.subrange(0, j + 1).subrange(0, j) =~= s.subrange(0, j));
}

pub proof fn lemma_compile_entries_prefix(s: Seq<(Seq<char>, ExprModel)>, j: int, vars: Map<u64, VariableModel>, temps: nat, aggs: Option<Seq<AggModel>>)
    requires
        0 <= j <= s.len(),
    ensures
        compile_entries(s.subrange(0, j), vars, temps, aggs).temporaries <= compile_entries(s, vars, temps, aggs).temporaries,
        compile_entries(s.subrange(0, j), vars, temps, aggs).error is Some
            ==> compile_entries(s, vars, temps, aggs) == compile_entries(s.subrange(0, j), vars, temps, aggs),
    decreases s.len() - j,
{
    if j < s.len() {
        lemma_compile_entries_step(s, j, vars, temps, aggs);
        let a = compile_entries(s.subrange(0, j), vars, temps, aggs);
        lemma_compile_temporaries(s[j].1, vars, a.temporaries, a.aggregations);
        lemma_compile_entries_prefix(s, j + 1, vars, temps, aggs);
    } else {
        assert(s.subrange(0, j) =~= s);
    }
}


/// The instructions, aggregations and temporary columns after compiling are those that `out`
/// describes, starting from the instructions `old_code`.
pub open spec fn state_after(
    out: Emitted,
    old_code: Seq<Instruction>,
    code: Seq<Instruction>,
    aggs: Option<Vec<(usize, RWAggregation)>>,
    temps: usize,
) -> bool {
    &&& view_instructions(code) == view_instructions(old_code) + out.code
    &&& view_aggregations(aggs) == out.aggregations
    &&& temps as nat == out.temporaries
}

/// Appends one instruction.
fn emit(instructions: &mut Vec<Instruction>, i: Instruction)
    ensures
        view_instructions(final(instructions)@) == view_instructions(old(instructions)@).push(view_instruction(i)),
{
    let ghost before = instructions@;
    instructions.push(i);
    assert(view_instructions(instructions@) =~= view_instructions(before).push(view_instruction(i)));
}

/// Appending the code of `b` after that of `a`.
proof fn lemma_code_append(c0: Seq<InstrModel>, a: Seq<InstrModel>, b: Seq<InstrModel>)
    ensures
        c0 + a + b == c0 + (a + b),
{
    assert(c0 + a + b =~= c0 + (a + b));
}

/// One more instruction at the end of a sequence.
proof fn lemma_code_push(c0: Seq<InstrModel>, a: Seq<InstrModel>, i: InstrModel)
    ensures
        (c0 + a).push(i) == c0 + a.push(i),
        c0.push(i) == c0 + seq![i],
{
    assert((c0 + a).push(i) =~= c0 + a.push(i));
    assert(c0.push(i) =~= c0 + seq![i]);
}

/// Compiles queries into the blocks of a program.
pub struct Compiler {
    pub function_manager: Manager,
    pub variables_manager: VariablesManager,
    /// Number of temporary columns used by the block being compiled.
    pub temporary_variables: usize,
}

impl Compiler {
    /// Sizes of the persistent and temporary columns of the current block.
    pub fn variables_size(&self) -> (r: VariablesSizes)
        ensures
            r.temporary_variables == self.temporary_variables,
            r.persistent_variables == self.variables_manager@.len(),
    {
        VariablesSizes { temporary_variables: self.temporary_variables, persistent_variables: self.variables_manager.variables_count() }
    }

    /// Reserves a temporary column; its index comes after those of the variables.
    pub fn create_temporary_variable(&mut self) -> (r: usize)
        requires
            old(self).temporary_variables + 1 + old(self).variables_manager@.len() <= usize::MAX,
        ensures
            r == old(self).temporary_variables + old(self).variables_manager@.len(),
            final(self).temporary_variables == old(self).temporary_variables + 1,
            final(self).variables_manager@ == old(self).variables_manager@,
    {
        let col_id = self.temporary_variables;
        self.temporary_variables = self.temporary_variables + 1;
        col_id + self.variables_manager.variables_count()
    }

    /// Compiles a list of expressions, from first to last.
    fn compile_expressions(
        &mut self,
        exprs: &Vec<Expression>,
        instructions: &mut Vec<Instruction>,
        aggregations: &mut Option<Vec<(usize, RWAggregation)>>,
    ) -> (r: Result<(), Error>)
        requires
            compile_list(view_expressions(exprs@), old(self).variables_manager@, old(self).temporary_variables as nat,
                view_aggregations(*old(aggregations))).temporaries + old(self).variables_manager@.len() <= usize::MAX,
        ensures
            final(self).variables_manager@ == old(self).variables_manager@,
            ({
                let out = compile_list(view_expressions(exprs@), old(self).variables_manager@, old(self).temporary_variables as nat,
                    view_aggregations(*old(aggregations)));
                state_after(out, old(instructions)@, final(instructions)@, *final(aggregations), final(self).temporary_variables)
                    && outcome_matches(r, out.error)
            }),
        decreases exprs, 0nat,
    {
        let ghost vars = self.variables_manager@;
        let ghost t0 = self.temporary_variables as nat;
        let ghost a0 = view_aggregations(*aggregations);
        let ghost c0 = instructions@;
        let ghost s = view_expressions(exprs@);
        proof {
            lemma_view_expressions(exprs@);
            assert(s.subrange(0, 0) =~= Seq::<ExprModel>::empty());
            assert(view_instructions(c0) + Seq::<InstrModel>::empty() =~= view_instructions(c0));
        }
        for i in 0..exprs.len()
            invariant
                self.variables_manager@ == vars,
                vars == old(self).variables_manager@,
                t0 == old(self).temporary_variables as nat,
                a0 == view_aggregations(*old(aggregations)),
                c0 == old(instructions)@,
                s == view_expressions(exprs@),
                s.len() == exprs@.len(),
                forall|j: int| 0 <= j < exprs@.len() ==> #[trigger] s[j] == view_expression(exprs@[j]),
                compile_list(s, vars, t0, a0).temporaries + vars.len() <= usize::MAX,
                compile_list(s.subrange(0, i as int), vars, t0, a0).error is None,
                state_after(compile_list(s.subrange(0, i as int), vars, t0, a0), c0, instructions@, *aggregations, self.temporary_variables),
        {
            let ghost a = compile_list(s.subrange(0, i as int), vars, t0, a0);
            let ghost before = instructions@;
            proof {
                lemma_compile_list_step(s, i as int, vars, t0, a0);
                lemma_compile_list_prefix(s, i + 1, vars, t0, a0);
            }
            assert(decreases_to!(exprs => exprs@[i as int]));
            let res = self.compile_expression(&exprs[i], instructions, aggregations);
            proof {
                let b = compile_spec(s[i as int], vars, a.temporaries, a.aggregations);
                lemma_code_append(view_instructions(c0), a.code, b.code);
            }
            match res {
                Ok(()) => {},
                Err(e) => return Err(e),
            }
        }
        assert(s.subrange(0, exprs@.len() as int) =~= s);
        Ok(())
    }

    /// Compiles the values of a map literal, from first to last.
    fn compile_entries_values(
        &mut self,
        m: &Vec<(String, Expression)>,
        instructions: &mut Vec<Instruction>,
        aggregations: &mut Option<Vec<(usize, RWAggregation)>>,
    ) -> (r: Result<(), Error>)
        requires
            compile_entries(view_named_expressions(m@), old(self).variables_manager@, old(self).temporary_variables as nat,
                view_aggregations(*old(aggregations))).temporaries + old(self).variables_manager@.len() <= usize::MAX,
        ensures
            final(self).variables_manager@ == old(self).variables_manager@,
            ({
                let out = compile_entries(view_named_expressions(m@), old(self).variables_manager@, old(self).temporary_variables as nat,
                    view_aggregations(*old(aggregations)));
                state_after(out, old(instructions)@, final(instructions)@, *final(aggregations), final(self).temporary_variables)
                    && outcome_matches(r, out.error)
            }),
        decreases m, 0nat,
    {
        let ghost vars = self.variables_manager@;
        let ghost t0 = self.temporary_variables as nat;
        let ghost a0 = view_aggregations(*aggregations);
        let ghost c0 = instructions@;
        let ghost s = view_named_expressions(m@);
        proof {
            lemma_view_named_expressions(m@);
            assert(s.subrange(0, 0) =~= Seq::<(Seq<char>, ExprModel)>::empty());
            assert(view_instructions(c0) + Seq::<InstrModel>::empty() =~= view_instructions(c0));
        }
        for i in 0..m.len()
            invariant
                self.variables_manager@ == vars,
                vars == old(self).variables_manager@,
                t0 == old(self).temporary_variables as nat,
                a0 == view_aggregations(*old(aggregations)),
                c0 == old(instructions)@,
                s == view_named_expressions(m@),
                s.len() == m@.len(),
                forall|j: int| 0 <= j < m@.len() ==> #[trigger] s[j] == (m@[j].0@, view_expression(m@[j].1)),
                compile_entries(s, vars, t0, a0).temporaries + vars.len() <= usize::MAX,
                compile_entries(s.subrange(0, i as int), vars, t0, a0).error is None,
                state_after(compile_entries(s.subrange(0, i as int), vars, t0, a0), c0, instructions@, *aggregations, self.temporary_variables),
        {
            let ghost a = compile_entries(s.subrange(0, i as int), vars, t0, a0);
            proof {
                lemma_compile_entries_step(s, i as int, vars, t0, a0);
                lemma_compile_entries_prefix(s, i + 1, vars, t0, a0);
                assert(decreases_to!(m => m@));
                assert(decreases_to!(m@ => m@[i as int]));
                assert(decreases_to!(m@[i as int] => m@[i as int].1));
            }
            let res = self.compile_expression(&m[i].1, instructions, aggregations);
            proof {
                let b = compile_spec(s[i as int].1, vars, a.temporaries, a.aggregations);
                lemma_code_append(view_instructions(c0), a.code, b.code);
            }
            match res {
                Ok(()) => {},
                Err(e) => return Err(e),
            }
        }
        assert(s.subrange(0, m@.len() as int) =~= s);
        Ok(())
    }

    /// Compiles an expression: analyses it, then appends the instructions that leave its value
    /// on the stack. Aggregations are recorded in `aggregations`, and refused when it is `None`.
    pub fn compile_expression(
        &mut self,
        expression: &Expression,
        instructions: &mut Vec<Instruction>,
        aggregations: &mut Option<Vec<(usize, RWAggregation)>>,
    ) -> (r: Result<(), Error>)
        requires
            compile_spec(expression@, old(self).variables_manager@, old(self).temporary_variables as nat,
                view_aggregations(*old(aggregations))).temporaries + old(self).variables_manager@.len() <= usize::MAX,
        ensures
            final(self).variables_manager@ == old(self).variables_manager@,
            ({
                let out = compile_spec(expression@, old(self).variables_manager@, old(self).temporary_variables as nat,
                    view_aggregations(*old(aggregations)));
                state_after(out, old(instructions)@, final(instructions)@, *final(aggregations), final(self).temporary_variables)
                    && outcome_matches(r, out.error)
            }),
        decreases expression, 2nat,
    {
        let analysed = {
            let analyser = Analyser::new(&self.variables_manager, &self.function_manager);
            analyser.analyse(expression)
        };
        match analysed {
            Err(e) => {
                assert(view_instructions(instructions@) =~= view_instructions(instructions@) + Seq::<InstrModel>::empty());
                Err(e)
            },
            Ok(_) => self.compile_node(expression, instructions, aggregations),
        }
    }

    /// Compiles an expression whose analysis succeeded.
    fn compile_node(
        &mut self,
        e: &Expression,
        instructions: &mut Vec<Instruction>,
        aggregations: &mut Option<Vec<(usize, RWAggregation)>>,
    ) -> (r: Result<(), Error>)
        requires
            compile_node(e@, old(self).variables_manager@, old(self).temporary_variables as nat,
                view_aggregations(*old(aggregations))).temporaries + old(self).variables_manager@.len() <= usize::MAX,
        ensures
            final(self).variables_manager@ == old(self).variables_manager@,
            ({
                let out = compile_node(e@, old(self).variables_manager@, old(self).temporary_variables as nat,
                    view_aggregations(*old(aggregations)));
                state_after(out, old(instructions)@, final(instructions)@, *final(aggregations), final(self).temporary_variables)
                    && outcome_matches(r, out.error)
            }),
        decreases e, 1nat,
    {
        let ghost c0 = view_instructions(instructions@);
        match e {
            Expression::Value(v) => {
                assert(e@ == ExprModel::Literal(v@));
                emit(instructions, Instruction::Push { value: v.deep_clone() });
                proof { lemma_code_push(c0, Seq::empty(), InstrModel::Push(v@)); }
                Ok(())
            },
            Expression::Variable(id) => {
                assert(e@ == ExprModel::Variable(id@.1));
                match self.variables_manager.get_variable_index(id) {
                    Ok(c) => {
                        emit(instructions, Instruction::GetVariable { col_id: c });
                        proof { lemma_code_push(c0, Seq::empty(), InstrModel::GetVariable(c as nat)); }
                        Ok(())
                    },
                    Err(err) => {
                        assert(c0 + Seq::<InstrModel>::empty() =~= c0);
                        Err(err)
                    },
                }
            },
            Expression::Parameter(p) => {
                assert(e@ == ExprModel::Parameter(p@));
                emit(instructions, Instruction::GetParameter { name: p.clone() });
                proof { lemma_code_push(c0, Seq::empty(), InstrModel::GetParameter(p@)); }
                Ok(())
            },
            Expression::FunctionCall { .. } => self.compile_call(e, instructions, aggregations),
            Expression::Array(a) => {
                assert(decreases_to!(*e => (*e)->Array_0));
                assert(e@ == ExprModel::Array(view_expressions(a@)));
                proof { lemma_view_expressions(a@); }
                let ghost out = compile_list(view_expressions(a@), self.variables_manager@, self.temporary_variables as nat, view_aggregations(*aggregations));
                match self.compile_expressions(a, instructions, aggregations) {
                    Ok(()) => {
                        emit(instructions, Instruction::CreateArray { length: a.len() });
                        proof { lemma_code_push(c0, out.code, InstrModel::CreateArray(a@.len() as nat)); }
                        Ok(())
                    },
                    Err(err) => Err(err),
                }
            },
            Expression::Mapping(m) => {
                assert(decreases_to!(*e => (*e)->Mapping_0));
                assert(e@ == ExprModel::Mapping(view_named_expressions(m@)));
                let ghost out = compile_entries(view_named_expressions(m@), self.variables_manager@, self.temporary_variables as nat, view_aggregations(*aggregations));
                match self.compile_entries_values(m, instructions, aggregations) {
                    Ok(()) => {
                        let mut keys: Vec<String> = Vec::new();
                        proof { lemma_view_named_expressions(m@); }
                        for i in 0..m.len()
                            invariant
                                view_labels(keys@) =~= entry_keys(view_named_expressions(m@)).subrange(0, i as int),
                                view_named_expressions(m@).len() == m@.len(),
                                forall|j: int| 0 <= j < m@.len() ==> #[trigger] view_named_expressions(m@)[j] == (m@[j].0@, view_expression(m@[j].1)),
                        {
                            let ghost before = keys@;
                            let k = m[i].0.clone();
                            assert(entry_keys(view_named_expressions(m@))[i as int] == m@[i as int].0@);
                            keys.push(k);
                            assert(view_labels(keys@) =~= view_labels(before).push(k@));
                            assert(view_labels(keys@) =~= entry_keys(view_named_expressions(m@)).subrange(0, i + 1));
                        }
                        assert(entry_keys(view_named_expressions(m@)).subrange(0, m@.len() as int) =~= entry_keys(view_named_expressions(m@)));
                        emit(instructions, Instruction::CreateMap { keys });
                        proof { lemma_code_push(c0, out.code, InstrModel::CreateMap(entry_keys(view_named_expressions(m@)))); }
                        Ok(())
                    },
                    Err(err) => Err(err),
                }
            },
            Expression::MemberAccess { left, path } => {
                assert(decreases_to!(*e => (*e)->MemberAccess_left));
                assert(e@ == ExprModel::MemberAccess(Box::new(view_expression(**left)), view_labels(path@)));
                let ghost out = compile_spec(view_expression(**left), self.variables_manager@, self.temporary_variables as nat, view_aggregations(*aggregations));
                match self.compile_expression(left, instructions, aggregations) {
                    Ok(()) => {
                        emit(instructions, Instruction::MemberAccess { path: clone_strings(path) });
                        proof { lemma_code_push(c0, out.code, InstrModel::MemberAccess(view_labels(path@))); }
                        Ok(())
                    },
                    Err(err) => Err(err),
                }
            },
            Expression::IndexAccess { .. } => self.compile_index(e, instructions, aggregations),
            Expression::RangeAccess { .. } => self.compile_range(e, instructions, aggregations),
            Expression::Binary { .. } => self.compile_binary(e, instructions, aggregations),
            Expression::Unary { .. } => self.compile_unary(e, instructions, aggregations),
        }
    }

    /// Compiles an index access: the container, the index, then the access.
    fn compile_index(
        &mut self,
        e: &Expression,
        instructions: &mut Vec<Instruction>,
        aggregations: &mut Option<Vec<(usize, RWAggregation)>>,
    ) -> (r: Result<(), Error>)
        requires
            e is IndexAccess,
            compile_node(e@, old(self).variables_manager@, old(self).temporary_variables as nat,
                view_aggregations(*old(aggregations))).temporaries + old(self).variables_manager@.len() <= usize::MAX,
        ensures
            final(self).variables_manager@ == old(self).variables_manager@,
            ({
                let out = compile_node(e@, old(self).variables_manager@, old(self).temporary_variables as nat,
                    view_aggregations(*old(aggregations)));
                state_after(out, old(instructions)@, final(instructions)@, *final(aggregations), final(self).temporary_variables)
                    && outcome_matches(r, out.error)
            }),
        decreases e, 0nat,
    {
        let ghost vars = self.variables_manager@;
        let ghost t0 = self.temporary_variables as nat;
        let ghost a0 = view_aggregations(*aggregations);
        let ghost c0 = view_instructions(instructions@);
        match e {
            Expression::IndexAccess { left, index } => {
                assert(decreases_to!(*e => (*e)->IndexAccess_left));
                assert(decreases_to!(*e => (*e)->index));
                assert(e@ == ExprModel::IndexAccess(Box::new(view_expression(**left)), Box::new(view_expression(**index))));
                let ghost a = compile_spec(view_expression(**left), vars, t0, a0);
                proof { lemma_compile_temporaries(view_expression(**index), vars, a.temporaries, a.aggregations); }
                match self.compile_expression(left, instructions, aggregations) {
                    Ok(()) => {},
                    Err(err) => return Err(err),
                }
                let ghost b = compile_spec(view_expression(**index), vars, a.temporaries, a.aggregations);
                let res = self.compile_expression(index, instructions, aggregations);
                proof { lemma_code_append(c0, a.code, b.code); }
                match res {
                    Ok(()) => {},
                    Err(err) => return Err(err),
                }
                emit(instructions, Instruction::IndexAccess);
                proof { lemma_code_push(c0, a.code + b.code, InstrModel::IndexAccess); }
                Ok(())
            },
            _ => Err(Error::Internal(InternalError::Unreachable { context: "compile_index" })),
        }
    }

    /// Compiles a binary operation: the right operand, the left operand, then the operator.
    fn compile_binary(
        &mut self,
        e: &Expression,
        instructions: &mut Vec<Instruction>,
        aggregations: &mut Option<Vec<(usize, RWAggregation)>>,
    ) -> (r: Result<(), Error>)
        requires
            e is Binary,
            compile_node(e@, old(self).variables_manager@, old(self).temporary_variables as nat,
                view_aggregations(*old(aggregations))).temporaries + old(self).variables_manager@.len() <= usize::MAX,
        ensures
            final(self).variables_manager@ == old(self).variables_manager@,
            ({
                let out = compile_node(e@, old(self).variables_manager@, old(self).temporary_variables as nat,
                    view_aggregations(*old(aggregations)));
                state_after(out, old(instructions)@, final(instructions)@, *final(aggregations), final(self).temporary_variables)
                    && outcome_matches(r, out.error)
            }),
        decreases e, 0nat,
    {
        let ghost vars = self.variables_manager@;
        let ghost t0 = self.temporary_variables as nat;
        let ghost a0 = view_aggregations(*aggregations);
        let ghost c0 = view_instructions(instructions@);
        match e {
            Expression::Binary { operator, left, right } => {
                assert(decreases_to!(*e => (*e)->Binary_left));
                assert(decreases_to!(*e => (*e)->right));
                assert(e@ == ExprModel::Binary(*operator, Box::new(view_expression(**left)), Box::new(view_expression(**right))));
                let ghost a = compile_spec(view_expression(**right), vars, t0, a0);
                proof { lemma_compile_temporaries(view_expression(**left), vars, a.temporaries, a.aggregations); }
                match self.compile_expression(right, instructions, aggregations) {
                    Ok(()) => {},
                    Err(err) => return Err(err),
                }
                let ghost b = compile_spec(view_expression(**left), vars, a.temporaries, a.aggregations);
                let res = self.compile_expression(left, instructions, aggregations);
                proof { lemma_code_append(c0, a.code, b.code); }
                match res {
                    Ok(()) => {},
                    Err(err) => return Err(err),
                }
                let i = binary_instruction_exec(*operator);
                emit(instructions, i);
                proof { lemma_code_push(c0, a.code + b.code, binary_instruction(*operator)); }
                Ok(())
            },
            _ => Err(Error::Internal(InternalError::Unreachable { context: "compile_binary" })),
        }
    }

    /// Compiles a unary operation: the operand, then the operator.
    fn compile_unary(
        &mut self,
        e: &Expression,
        instructions: &mut Vec<Instruction>,
        aggregations: &mut Option<Vec<(usize, RWAggregation)>>,
    ) -> (r: Result<(), Error>)
        requires
            e is Unary,
            compile_node(e@, old(self).variables_manager@, old(self).temporary_variables as nat,
                view_aggregations(*old(aggregations))).temporaries + old(self).variables_manager@.len() <= usize::MAX,
        ensures
            final(self).variables_manager@ == old(self).variables_manager@,
            ({
                let out = compile_node(e@, old(self).variables_manager@, old(self).temporary_variables as nat,
                    view_aggregations(*old(aggregations)));
                state_after(out, old(instructions)@, final(instructions)@, *final(aggregations), final(self).temporary_variables)
                    && outcome_matches(r, out.error)
            }),
        decreases e, 0nat,
    {
        let ghost c0 = view_instructions(instructions@);
        match e {
            Expression::Unary { operator, value } => {
                assert(decreases_to!(*e => (*e)->value));
                assert(e@ == ExprModel::Unary(*operator, Box::new(view_expression(**value))));
                let ghost a = compile_spec(view_expression(**value), self.variables_manager@, self.temporary_variables as nat, view_aggregations(*aggregations));
                match self.compile_expression(value, instructions, aggregations) {
                    Ok(()) => {},
                    Err(err) => return Err(err),
                }
                match operator {
                    UnaryOperator::Negation => {
                        emit(instructions, Instruction::NegationUnaryOperator);
                        proof { lemma_code_push(c0, a.code, InstrModel::Negation); }
                    },
                    UnaryOperator::LogicalNegation => {
                        emit(instructions, Instruction::NotUnaryOperator);
                        proof { lemma_code_push(c0, a.code, InstrModel::Not); }
                    },
                    UnaryOperator::IsNull => {
                        emit(instructions, Instruction::IsNullUnaryOperator);
                        proof { lemma_code_push(c0, a.code, InstrModel::IsNull); }
                    },
                    UnaryOperator::IsNotNull => {
                        emit(instructions, Instruction::IsNullUnaryOperator);
                        emit(instructions, Instruction::NotUnaryOperator);
                        proof {
                            lemma_code_push(c0, a.code, InstrModel::IsNull);
                            lemma_code_push(c0, a.code.push(InstrModel::IsNull), InstrModel::Not);
                        }
                    },
                }
                Ok(())
            },
            _ => Err(Error::Internal(InternalError::Unreachable { context: "compile_unary" })),
        }
    }

    /// Compiles a range access: the container, the bounds that are given, then the access.
    fn compile_range(
        &mut self,
        e: &Expression,
        instructions: &mut Vec<Instruction>,
        aggregations: &mut Option<Vec<(usize, RWAggregation)>>,
    ) -> (r: Result<(), Error>)
        requires
            e is RangeAccess,
            compile_node(e@, old(self).variables_manager@, old(self).temporary_variables as nat,
                view_aggregations(*old(aggregations))).temporaries + old(self).variables_manager@.len() <= usize::MAX,
        ensures
            final(self).variables_manager@ == old(self).variables_manager@,
            ({
                let out = compile_node(e@, old(self).variables_manager@, old(self).temporary_variables as nat,
                    view_aggregations(*old(aggregations)));
                state_after(out, old(instructions)@, final(instructions)@, *final(aggregations), final(self).temporary_variables)
                    && outcome_matches(r, out.error)
            }),
        decreases e, 0nat,
    {
        let ghost vars = self.variables_manager@;
        let ghost t0 = self.temporary_variables as nat;
        let ghost a0 = view_aggregations(*aggregations);
        let ghost c0 = view_instructions(instructions@);
        match e {
            Expression::RangeAccess { left, start, end } => {
                assert(decreases_to!(*e => (*e)->RangeAccess_left));
                assert(e@ == ExprModel::RangeAccess(Box::new(view_expression(**left)), view_optional_expression(*start), view_optional_expression(*end)));
                let ghost a = compile_spec(view_expression(**left), vars, t0, a0);
                let ghost sb = compile_optional(view_optional_expression(*start), vars, a.temporaries, a.aggregations);
                let ghost b = sequence(a, sb);
                let ghost eb = compile_optional(view_optional_expression(*end), vars, b.temporaries, b.aggregations);
                proof {
                    lemma_optional_temporaries(view_optional_expression(*start), vars, a.temporaries, a.aggregations);
                    lemma_optional_temporaries(view_optional_expression(*end), vars, b.temporaries, b.aggregations);
                }
                match self.compile_expression(left, instructions, aggregations) {
                    Ok(()) => {},
                    Err(err) => return Err(err),
                }
                let has_start = match start {
                    Some(x) => {
                        assert(decreases_to!(*e => (*e)->start));
                        assert(decreases_to!(*start => (*start)->0));
                        assert(view_optional_expression(*start) == Some(Box::new(view_expression(**x))));
                        let res = self.compile_expression(x, instructions, aggregations);
                        proof { lemma_code_append(c0, a.code, sb.code); }
                        match res {
                            Ok(()) => {},
                            Err(err) => return Err(err),
                        }
                        true
                    },
                    None => {
                        assert(a.code + sb.code =~= a.code);
                        false
                    },
                };
                let has_end = match end {
                    Some(x) => {
                        assert(decreases_to!(*e => (*e)->end));
                        assert(decreases_to!(*end => (*end)->0));
                        assert(view_optional_expression(*end) == Some(Box::new(view_expression(**x))));
                        let res = self.compile_expression(x, instructions, aggregations);
                        proof { lemma_code_append(c0, b.code, eb.code); }
                        match res {
                            Ok(()) => {},
                            Err(err) => return Err(err),
                        }
                        true
                    },
                    None => {
                        assert(b.code + eb.code =~= b.code);
                        false
                    },
                };
                emit(instructions, Instruction::RangeAccess { start: has_start, end: has_end });
                proof { lemma_code_push(c0, b.code + eb.code, InstrModel::RangeAccess(has_start, has_end)); }
                Ok(())
            },
            _ => Err(Error::Internal(InternalError::Unreachable { context: "compile_range" })),
        }
    }

    /// Compiles a call of a function or of an aggregator.
    fn compile_call(
        &mut self,
        e: &Expression,
        instructions: &mut Vec<Instruction>,
        aggregations: &mut Option<Vec<(usize, RWAggregation)>>,
    ) -> (r: Result<(), Error>)
        requires
            e is FunctionCall,
            compile_node(e@, old(self).variables_manager@, old(self).temporary_variables as nat,
                view_aggregations(*old(aggregations))).temporaries + old(self).variables_manager@.len() <= usize::MAX,
        ensures
            final(self).variables_manager@ == old(self).variables_manager@,
            ({
                let out = compile_node(e@, old(self).variables_manager@, old(self).temporary_variables as nat,
                    view_aggregations(*old(aggregations)));
                state_after(out, old(instructions)@, final(instructions)@, *final(aggregations), final(self).temporary_variables)
                    && outcome_matches(r, out.error)
            }),
        decreases e, 0nat,
    {
        let ghost c0 = view_instructions(instructions@);
        match e {
            Expression::FunctionCall { name, arguments } => {
                assert(decreases_to!(*e => (*e)->arguments));
                assert(e@ == ExprModel::FunctionCall(name@, view_expressions(arguments@)));
                proof { lemma_view_expressions(arguments@); }
                if self.function_manager.has_aggregator(name) {
                    self.compile_aggregation(name, arguments, instructions, aggregations)
                } else {
                    let ghost a = compile_list(view_expressions(arguments@), self.variables_manager@, self.temporary_variables as nat, view_aggregations(*aggregations));
                    match self.compile_expressions(arguments, instructions, aggregations) {
                        Ok(()) => {},
                        Err(err) => return Err(err),
                    }
                    if !self.function_manager.is_function(name) {
                        return Err(Error::CompileTime(CompileTimeError::UnknownFunction { name: name.clone() }));
                    }
                    let function = to_lowercase(name);
                    emit(instructions, Instruction::FunctionCall { function, arguments_count: arguments.len() });
                    proof { lemma_code_push(c0, a.code, InstrModel::FunctionCall(lowercase(name@), arguments@.len() as nat)); }
                    Ok(())
                }
            },
            _ => Err(Error::Internal(InternalError::Unreachable { context: "compile_call" })),
        }
    }

    /// Compiles a call of an aggregator: its argument, and its initial value when one is given,
    /// are compiled apart; the aggregation is recorded, and the call reads its temporary column.
    fn compile_aggregation(
        &mut self,
        name: &String,
        args: &Vec<Expression>,
        instructions: &mut Vec<Instruction>,
        aggregations: &mut Option<Vec<(usize, RWAggregation)>>,
    ) -> (r: Result<(), Error>)
        requires
            compile_aggregation(name@, view_expressions(args@), old(self).variables_manager@, old(self).temporary_variables as nat,
                view_aggregations(*old(aggregations))).temporaries + old(self).variables_manager@.len() <= usize::MAX,
        ensures
            final(self).variables_manager@ == old(self).variables_manager@,
            ({
                let out = compile_aggregation(name@, view_expressions(args@), old(self).variables_manager@, old(self).temporary_variables as nat,
                    view_aggregations(*old(aggregations)));
                state_after(out, old(instructions)@, final(instructions)@, *final(aggregations), final(self).temporary_variables)
                    && outcome_matches(r, out.error)
            }),
        decreases args, 0nat,
    {
        let ghost vars = self.variables_manager@;
        let ghost t0 = self.temporary_variables as nat;
        let ghost a0 = view_aggregations(*aggregations);
        let ghost c0 = view_instructions(instructions@);
        let ghost s = view_expressions(args@);
        proof {
            lemma_view_expressions(args@);
            lemma_aggregation_temporaries(name@, s, vars, t0, a0);
            assert(c0 + Seq::<InstrModel>::empty() =~= c0);
        }
        let col_id = self.create_temporary_variable();
        if args.len() == 0 {
            return Err(Error::Internal(InternalError::MissingAggregationArgument));
        }
        let ghost a = compile_spec(s[0], vars, t0 + 1, a0);
        proof {
            if s.len() > 1 {
                lemma_compile_temporaries(s[1], vars, a.temporaries, a.aggregations);
            }
        }
        assert(decreases_to!(args => args@[0]));
        let mut argument_instructions: Vec<Instruction> = Vec::new();
        match self.compile_expression(&args[0], &mut argument_instructions, aggregations) {
            Ok(()) => {},
            Err(err) => return Err(err),
        }
        assert(view_instructions(argument_instructions@) =~= a.code);
        let mut init_instructions: Vec<Instruction> = Vec::new();
        if args.len() > 1 {
            assert(decreases_to!(args => args@[1]));
            match self.compile_expression(&args[1], &mut init_instructions, aggregations) {
                Ok(()) => {},
                Err(err) => return Err(err),
            }
        }
        let ghost b = if s.len() > 1 { compile_spec(s[1], vars, a.temporaries, a.aggregations) } else { emitted(Seq::empty(), a.aggregations, a.temporaries) };
        assert(view_instructions(init_instructions@) =~= b.code);
        let aggregator = to_lowercase(name);
        match aggregations {
            Some(list) => {
                let ghost before = list@;
                list.push((col_id, RWAggregation { init_instructions, argument_instructions, aggregator }));
                proof {
                    assert(list@.map_values(|x: (usize, RWAggregation)| view_aggregation(x))
                        =~= before.map_values(|x: (usize, RWAggregation)| view_aggregation(x)).push(view_aggregation(list@.last())));
                }
            },
            None => return Err(Error::Internal(InternalError::MissingAggregations)),
        }
        emit(instructions, Instruction::GetVariable { col_id });
        proof { lemma_code_push(c0, Seq::empty(), InstrModel::GetVariable(col_id as nat)); }
        Ok(())
    }
}

/// Instruction of a binary operator.
fn binary_instruction_exec(op: BinaryOperator) -> (r: Instruction)
    ensures
        view_instruction(r) == binary_instruction(op),
{
    match op {
        BinaryOperator::LogicalAnd => Instruction::AndBinaryOperator,
        BinaryOperator::LogicalOr => Instruction::OrBinaryOperator,
        BinaryOperator::LogicalXor => Instruction::XorBinaryOperator,
        BinaryOperator::RelationalEqual => Instruction::EqualBinaryOperator,
        BinaryOperator::RelationalDifferent => Instruction::NotEqualBinaryOperator,
        BinaryOperator::RelationalInferior => Instruction::InferiorBinaryOperator,
        BinaryOperator::RelationalSuperior => Instruction::SuperiorBinaryOperator,
        BinaryOperator::RelationalInferiorEqual => Instruction::InferiorEqualBinaryOperator,
        BinaryOperator::RelationalSuperiorEqual => Instruction::SuperiorEqualBinaryOperator,
        BinaryOperator::RelationalIn => Instruction::InBinaryOperator,
        BinaryOperator::RelationalNotIn => Instruction::NotInBinaryOperator,
        BinaryOperator::Addition => Instruction::AdditionBinaryOperator,
        BinaryOperator::Subtraction => Instruction::SubtractionBinaryOperator,
        BinaryOperator::Multiplication => Instruction::MultiplicationBinaryOperator,
        BinaryOperator::Division => Instruction::DivisionBinaryOperator,
        BinaryOperator::Modulo => Instruction::ModuloBinaryOperator,
        BinaryOperator::Exponent => Instruction::ExponentBinaryOperator,
    }
}


/// Labels given to a created node or edge: single labels and conjunctions of them; `false` when
/// the expression holds anything else.
pub open spec fn create_labels(e: LabelModel) -> (Seq<Seq<char>>, bool)
    decreases e, 1nat,
{
    match e {
        LabelModel::And(v) => create_labels_list(v),
        LabelModel::Label(l) => (seq![l], true),
        LabelModel::Empty => (Seq::empty(), true),
        _ => (Seq::empty(), false),
    }
}

/// Labels of a conjunction, from first to last, up to the first failure.
pub open spec fn create_labels_list(v: Seq<LabelModel>) -> (Seq<Seq<char>>, bool)
    decreases v, 0nat,
{
    if v.len() == 0 {
        (Seq::empty(), true)
    } else {
        let (a, ok) = create_labels_list(v.subrange(0, v.len() - 1));
        if !ok {
            (a, false)
        } else {
            let (b, ok2) = create_labels(v[v.len() - 1]);
            (a + b, ok2)
        }
    }
}

/// Instructions that replace the node or edge at the top of the stack by itself and whether its
/// labels satisfy the expression, calling the function `f` to test one label.
pub open spec fn filter_code(e: LabelModel, f: Seq<char>) -> Seq<InstrModel>
    decreases e, 1nat,
{
    match e {
        LabelModel::And(v) => seq![InstrModel::Push(ValueModel::Boolean(true)), InstrModel::Swap] + filter_list(v, f, InstrModel::And),
        LabelModel::Or(v) => seq![InstrModel::Push(ValueModel::Boolean(false)), InstrModel::Swap] + filter_list(v, f, InstrModel::Or),
        LabelModel::Not(x) => filter_code(*x, f).push(InstrModel::Not),
        LabelModel::Label(l) => seq![InstrModel::Duplicate, InstrModel::Push(ValueModel::Text(l)), InstrModel::FunctionCall(f, 2)],
        LabelModel::Empty => seq![InstrModel::Push(ValueModel::Boolean(true))],
    }
}

/// Filters of the operands of a conjunction or disjunction, each combined with `op`.
pub open spec fn filter_list(v: Seq<LabelModel>, f: Seq<char>, op: InstrModel) -> Seq<InstrModel>
    decreases v, 0nat,
{
    if v.len() == 0 {
        Seq::empty()
    } else {
        filter_list(v.subrange(0, v.len() - 1), f, op) + filter_code(v[v.len() - 1], f)
            + seq![InstrModel::InverseRot3, op, InstrModel::Swap]
    }
}

/// Appends the labels of a created node or edge.
pub fn compile_labels_expression(labels: &mut Vec<String>, label_expressions: &LabelExpression) -> (r: Result<(), Error>)
    ensures
        view_labels(final(labels)@) == view_labels(old(labels)@) + create_labels(label_expressions@).0,
        create_labels(label_expressions@).1 ==> r is Ok,
        !create_labels(label_expressions@).1 ==> (r matches Err(e) && kind_of(e) == ErrorKind::InvalidCreateLabels),
    decreases label_expressions,
{
    let ghost l0 = view_labels(labels@);
    match label_expressions {
        LabelExpression::And(expressions) => {
            let ghost v = view_label_expressions(expressions@);
            proof {
                lemma_view_label_expressions(expressions@);
                assert(label_expressions@ == LabelModel::And(v));
                assert(v.subrange(0, 0) =~= Seq::<LabelModel>::empty());
                assert(l0 + Seq::<Seq<char>>::empty() =~= l0);
            }
            for i in 0..expressions.len()
                invariant
                    *label_expressions == LabelExpression::And(*expressions),
                    l0 == view_labels(old(labels)@),
                    v == view_label_expressions(expressions@),
                    v.len() == expressions@.len(),
                    forall|j: int| 0 <= j < expressions@.len() ==> #[trigger] v[j] == view_label_expression(expressions@[j]),
                    create_labels_list(v.subrange(0, i as int)).1,
                    view_labels(labels@) == l0 + create_labels_list(v.subrange(0, i as int)).0,
            {
                proof {
                    assert(decreases_to!(*label_expressions => (*label_expressions)->And_0));
                    assert(decreases_to!(*expressions => expressions@));
                    assert(decreases_to!(expressions@ => expressions@[i as int]));
                    assert(v.subrange(0, i + 1).subrange(0, i as int) =~= v.subrange(0, i as int));
                }
                let ghost before = create_labels_list(v.subrange(0, i as int)).0;
                let res = compile_labels_expression(labels, &expressions[i]);
                proof {
                    assert(l0 + before + create_labels(v[i as int]).0 =~= l0 + (before + create_labels(v[i as int]).0));
                }
                match res {
                    Ok(()) => {},
                    Err(e) => {
                        proof { lemma_create_labels_list_err(v, i + 1); }
                        return Err(e);
                    },
                }
            }
            assert(v.subrange(0, expressions@.len() as int) =~= v);
            Ok(())
        },
        LabelExpression::String(label) => {
            let ghost before = labels@;
            labels.push(label.clone());
            assert(view_labels(labels@) =~= l0 + seq![label@]);
            Ok(())
        },
        LabelExpression::Empty => {
            assert(l0 + Seq::<Seq<char>>::empty() =~= l0);
            Ok(())
        },
        _ => {
            assert(l0 + Seq::<Seq<char>>::empty() =~= l0);
            Err(Error::Internal(InternalError::InvalidCreateLabels { context: "compile_create_labels" }))
        },
    }
}

/// A failure in a prefix of a conjunction is the failure of the conjunction.
pub proof fn lemma_create_labels_list_err(v: Seq<LabelModel>, j: int)
    requires
        0 <= j <= v.len(),
        !create_labels_list(v.subrange(0, j)).1,
    ensures
        create_labels_list(v) == create_labels_list(v.subrange(0, j)),
    decreases v.len() - j,
{
    if j < v.len() {
        assert(v.subrange(0, j + 1).subrange(0, j) =~= v.subrange(0, j));
        lemma_create_labels_list_err(v, j + 1);
    } else {
        assert(v.subrange(0, j) =~= v);
    }
}

/// Appends the instructions that test the labels of the node or edge at the top of the stack,
/// calling `has_label_function` for each label.
pub fn compile_filter_labels(instructions: &mut Vec<Instruction>, label_expressions: &LabelExpression, has_label_function: &String) -> (r: Result<(), Error>)
    ensures
        r is Ok,
        view_instructions(final(instructions)@) == view_instructions(old(instructions)@) + filter_code(label_expressions@, has_label_function@),
    decreases label_expressions,
{
    let ghost c0 = view_instructions(instructions@);
    match label_expressions {
        LabelExpression::And(expressions) | LabelExpression::Or(expressions) => {
            let is_and = match label_expressions {
                LabelExpression::And(_) => true,
                _ => false,
            };
            let ghost op = if is_and { InstrModel::And } else { InstrModel::Or };
            let ghost v = view_label_expressions(expressions@);
            emit(instructions, Instruction::Push { value: Value::Boolean(is_and) });
            emit(instructions, Instruction::Swap);
            proof {
                lemma_view_label_expressions(expressions@);
                assert(v.subrange(0, 0) =~= Seq::<LabelModel>::empty());
                assert(view_instructions(instructions@) =~= c0 + seq![InstrModel::Push(ValueModel::Boolean(is_and)), InstrModel::Swap] + filter_list(v.subrange(0, 0), has_label_function@, op));
            }
            for i in 0..expressions.len()
                invariant
                    *label_expressions == LabelExpression::And(*expressions) || *label_expressions == LabelExpression::Or(*expressions),
                    is_and == (*label_expressions == LabelExpression::And(*expressions)),
                    op == (if is_and { InstrModel::And } else { InstrModel::Or }),
                    v == view_label_expressions(expressions@),
                    v.len() == expressions@.len(),
                    forall|j: int| 0 <= j < expressions@.len() ==> #[trigger] v[j] == view_label_expression(expressions@[j]),
                    view_instructions(instructions@) == c0 + seq![InstrModel::Push(ValueModel::Boolean(is_and)), InstrModel::Swap]
                        + filter_list(v.subrange(0, i as int), has_label_function@, op),
            {
                proof {
                    if is_and {
                        assert(decreases_to!(*label_expressions => (*label_expressions)->And_0));
                    } else {
                        assert(decreases_to!(*label_expressions => (*label_expressions)->Or_0));
                    }
                    assert(decreases_to!(*expressions => expressions@));
                    assert(decreases_to!(expressions@ => expressions@[i as int]));
                    assert(v.subrange(0, i + 1).subrange(0, i as int) =~= v.subrange(0, i as int));
                }
                let ghost before = view_instructions(instructions@);
                let _ = compile_filter_labels(instructions, &expressions[i], has_label_function);
                emit(instructions, Instruction::InverseRot3);
                if is_and {
                    emit(instructions, Instruction::AndBinaryOperator);
                } else {
                    emit(instructions, Instruction::OrBinaryOperator);
                }
                emit(instructions, Instruction::Swap);
                proof {
                    assert(view_instructions(instructions@) =~= before + filter_code(v[i as int], has_label_function@)
                        + seq![InstrModel::InverseRot3, op, InstrModel::Swap]);
                }
            }
            assert(v.subrange(0, expressions@.len() as int) =~= v);
            proof {
                if is_and {
                    assert(label_expressions@ == LabelModel::And(v));
                } else {
                    assert(label_expressions@ == LabelModel::Or(v));
                }
                assert(c0 + seq![InstrModel::Push(ValueModel::Boolean(is_and)), InstrModel::Swap] + filter_list(v, has_label_function@, op)
                    =~= c0 + (seq![InstrModel::Push(ValueModel::Boolean(is_and)), InstrModel::Swap] + filter_list(v, has_label_function@, op)));
            }
            Ok(())
        },
        LabelExpression::Not(expr) => {
            assert(decreases_to!(*label_expressions => (*label_expressions)->Not_0));
            assert(label_expressions@ == LabelModel::Not(Box::new(view_label_expression(**expr))));
            let _ = compile_filter_labels(instructions, expr, has_label_function);
            emit(instructions, Instruction::NotUnaryOperator);
            proof { lemma_code_push(c0, filter_code(view_label_expression(**expr), has_label_function@), InstrModel::Not); }
            Ok(())
        },
        LabelExpression::String(label) => {
            emit(instructions, Instruction::Duplicate);
            emit(instructions, Instruction::Push { value: Value::String(label.clone()) });
            emit(instructions, Instruction::FunctionCall { function: has_label_function.clone(), arguments_count: 2 });
            assert(view_instructions(instructions@) =~= c0 + filter_code(label_expressions@, has_label_function@));
            Ok(())
        },
        LabelExpression::Empty => {
            emit(instructions, Instruction::Push { value: Value::Boolean(true) });
            assert(view_instructions(instructions@) =~= c0 + filter_code(label_expressions@, has_label_function@));
            Ok(())
        },
    }
}


/// Compiling optional properties: the expression, or an empty map.
pub open spec fn optional_code(p: Option<ExprModel>, vars: Map<u64, VariableModel>, temps: nat) -> Emitted {
    match p {
        Some(e) => compile_spec(e, vars, temps, None),
        None => emitted(seq![InstrModel::Push(ValueModel::Dict(Map::empty()))], None, temps),
    }
}

/// Error of an expression that must be a constant integer, if any.
pub open spec fn constant_integer_error(e: ExprModel, types: Map<u64, ExpressionType>) -> Option<ErrorKind> {
    match analyse_spec(e, types) {
        Err(k) => Some(k),
        Ok(i) => if !i.constant {
            Some(ErrorKind::NonConstantExpression)
        } else if i.expression_type == ExpressionType::Integer || i.expression_type == ExpressionType::Variant {
            None
        } else {
            Some(ErrorKind::InvalidArgumentType)
        },
    }
}

/// What compiling a pattern produces: the variables after it, the instructions and the filter
/// appended, the columns recorded, the temporary columns, and the error met, if any.
pub struct Step {
    pub vars: Map<u64, VariableModel>,
    pub code: Seq<InstrModel>,
    pub filter: Seq<InstrModel>,
    pub columns: Seq<Option<nat>>,
    pub temporaries: nat,
    pub error: Option<ErrorKind>,
}

/// Model of columns.
pub open spec fn view_columns(s: Seq<Option<usize>>) -> Seq<Option<nat>> {
    s.map_values(|c: Option<usize>| match c { Some(x) => Some(x as nat), None => None })
}

/// Column of an optional variable.
pub open spec fn column_of(vars: Map<u64, VariableModel>, id: Option<u64>) -> Option<nat> {
    match id {
        Some(i) => Some(vars[i].col_id),
        None => None,
    }
}

/// Compiling the node of a `CREATE` pattern: its column is recorded and its variable marked as
/// set, then its properties and its labels are compiled.
pub open spec fn create_node_spec(n: NodePattern, vars: Map<u64, VariableModel>, temps: nat) -> Step {
    let id = var_id(n.variable);
    if id matches Some(i) && !vars.contains_key(i) {
        Step { vars, code: Seq::empty(), filter: Seq::empty(), columns: Seq::empty(), temporaries: temps, error: Some(ErrorKind::UnknownVariable) }
    } else {
        let vars1 = mark_set_spec(vars, id).0;
        let p = optional_code(view_properties(n.properties), vars1, temps);
        let base = Step { vars: vars1, code: p.code, filter: Seq::empty(), columns: seq![column_of(vars, id)], temporaries: p.temporaries, error: p.error };
        if p.error is Some {
            base
        } else if !create_labels(n.labels@).1 {
            Step { error: Some(ErrorKind::InvalidCreateLabels), ..base }
        } else {
            Step { code: p.code.push(InstrModel::CreateNodeLiteral(create_labels(n.labels@).0)), ..base }
        }
    }
}

/// Compiling the node of a `MATCH` pattern: its properties and labels make a node query; labels
/// that are not all required become a filter, after the node is fetched with `getter` if given.
pub open spec fn match_node_spec(n: NodePattern, vars: Map<u64, VariableModel>, temps: nat, getter: Option<Seq<char>>) -> Step {
    let p = optional_code(view_properties(n.properties), vars, temps);
    let base = Step { vars, code: p.code, filter: Seq::empty(), columns: Seq::empty(), temporaries: p.temporaries, error: p.error };
    let tail = filter_code(n.labels@, "has_label"@) + seq![InstrModel::Rot3, InstrModel::And, InstrModel::Swap];
    if p.error is Some {
        base
    } else if label_all_inclusive(n.labels@) {
        if !create_labels(n.labels@).1 {
            Step { error: Some(ErrorKind::InvalidCreateLabels), ..base }
        } else {
            Step { code: p.code.push(InstrModel::CreateNodeQuery(create_labels(n.labels@).0)), ..base }
        }
    } else {
        match getter {
            Some(g) => if function_signature(lowercase(g)) is None {
                Step { filter: seq![InstrModel::Duplicate], error: Some(ErrorKind::UnknownFunction), ..base }
            } else {
                Step {
                    code: p.code.push(InstrModel::CreateNodeQuery(Seq::empty())),
                    filter: seq![InstrModel::Duplicate, InstrModel::FunctionCall(lowercase(g), 1)] + tail,
                    ..base
                }
            },
            None => Step { code: p.code.push(InstrModel::CreateNodeQuery(Seq::empty())), filter: tail, ..base },
        }
    }
}

impl Compiler {
    /// Compiles optional properties: the expression, or an empty map. Aggregations are refused.
    pub fn compile_optional_expression(&mut self, properties: &Option<Expression>, instructions: &mut Vec<Instruction>) -> (r: Result<(), Error>)
        requires
            optional_code(view_properties(*properties), old(self).variables_manager@, old(self).temporary_variables as nat).temporaries
                + old(self).variables_manager@.len() <= usize::MAX,
        ensures
            final(self).variables_manager@ == old(self).variables_manager@,
            ({
                let out = optional_code(view_properties(*properties), old(self).variables_manager@, old(self).temporary_variables as nat);
                view_instructions(final(instructions)@) == view_instructions(old(instructions)@) + out.code
                    && final(self).temporary_variables == out.temporaries
                    && outcome_matches(r, out.error)
            }),
    {
        match properties {
            Some(e) => {
                let mut aggregations: Option<Vec<(usize, RWAggregation)>> = None;
                self.compile_expression(e, instructions, &mut aggregations)
            },
            None => {
                let ghost c0 = view_instructions(instructions@);
                let m = ValueMap::new();
                emit(instructions, Instruction::Push { value: Value::Mapping(m) });
                proof { lemma_code_push(c0, Seq::empty(), InstrModel::Push(ValueModel::Dict(Map::empty()))); }
                Ok(())
            },
        }
    }

    /// Checks that an expression is a constant integer, or a constant of unknown type.
    pub fn check_for_constant_integer_expression(&self, x: &Expression) -> (r: Result<(), Error>)
        ensures
            outcome_matches(r, constant_integer_error(x@, self.variables_manager.types())),
    {
        let analyser = Analyser::new(&self.variables_manager, &self.function_manager);
        match analyser.analyse(x) {
            Err(e) => Err(e),
            Ok(ei) => {
                if !ei.constant {
                    Err(Error::CompileTime(CompileTimeError::NonConstantExpression))
                } else {
                    match ei.expression_type {
                        ExpressionType::Integer | ExpressionType::Variant => Ok(()),
                        _ => Err(Error::CompileTime(CompileTimeError::InvalidArgumentType)),
                    }
                }
            },
        }
    }

    /// Compiles the node of a `CREATE` pattern.
    pub fn compile_create_node(&mut self, node: &NodePattern, instructions: &mut Vec<Instruction>, variables: &mut Vec<Option<usize>>) -> (r: Result<(), Error>)
        requires
            create_node_spec(*node, old(self).variables_manager@, old(self).temporary_variables as nat).temporaries
                + old(self).variables_manager@.len() <= usize::MAX,
        ensures
            ({
                let out = create_node_spec(*node, old(self).variables_manager@, old(self).temporary_variables as nat);
                final(self).variables_manager@ == out.vars
                    && view_instructions(final(instructions)@) == view_instructions(old(instructions)@) + out.code
                    && view_columns(final(variables)@) == view_columns(old(variables)@) + out.columns
                    && final(self).temporary_variables == out.temporaries
                    && outcome_matches(r, out.error)
            }),
    {
        let ghost c0 = view_instructions(instructions@);
        let ghost v0 = view_columns(variables@);
        let ghost vars = self.variables_manager@;
        let col = match self.variables_manager.get_variable_index_option(&node.variable) {
            Ok(c) => c,
            Err(e) => {
                assert(c0 + Seq::<InstrModel>::empty() =~= c0);
                assert(v0 + Seq::<Option<nat>>::empty() =~= v0);
                return Err(e);
            },
        };
        variables.push(col);
        assert(view_columns(variables@) =~= v0 + seq![column_of(vars, var_id(node.variable))]);
        match self.variables_manager.mark_variables_as_set(node.variable.as_ref()) {
            Ok(()) => {},
            Err(e) => return Err(e),
        }
        let ghost p = optional_code(view_properties(node.properties), self.variables_manager@, self.temporary_variables as nat);
        match self.compile_optional_expression(&node.properties, instructions) {
            Ok(()) => {},
            Err(e) => return Err(e),
        }
        let mut labels: Vec<String> = Vec::new();
        match compile_labels_expression(&mut labels, &node.labels) {
            Ok(()) => {},
            Err(e) => return Err(e),
        }
        assert(view_labels(labels@) =~= create_labels(node.labels@).0);
        emit(instructions, Instruction::CreateNodeLiteral { labels });
        proof { lemma_code_push(c0, p.code, InstrModel::CreateNodeLiteral(create_labels(node.labels@).0)); }
        Ok(())
    }

    /// Compiles the node of a `MATCH` pattern into a node query and a filter on its labels.
    pub fn compile_match_node(
        &mut self,
        node: &NodePattern,
        instructions: &mut Vec<Instruction>,
        filter: &mut Vec<Instruction>,
        get_node_function_name: Option<&str>,
    ) -> (r: Result<(), Error>)
        requires
            match_node_spec(*node, old(self).variables_manager@, old(self).temporary_variables as nat,
                match get_node_function_name { Some(g) => Some(g@), None => None }).temporaries
                + old(self).variables_manager@.len() <= usize::MAX,
        ensures
            ({
                let out = match_node_spec(*node, old(self).variables_manager@, old(self).temporary_variables as nat,
                    match get_node_function_name { Some(g) => Some(g@), None => None });
                final(self).variables_manager@ == out.vars
                    && view_instructions(final(instructions)@) == view_instructions(old(instructions)@) + out.code
                    && view_instructions(final(filter)@) == view_instructions(old(filter)@) + out.filter
                    && final(self).temporary_variables == out.temporaries
                    && outcome_matches(r, out.error)
            }),
    {
        let ghost c0 = view_instructions(instructions@);
        let ghost f0 = view_instructions(filter@);
        let ghost p = optional_code(view_properties(node.properties), self.variables_manager@, self.temporary_variables as nat);
        proof { assert(f0 + Seq::<InstrModel>::empty() =~= f0); }
        match self.compile_optional_expression(&node.properties, instructions) {
            Ok(()) => {},
            Err(e) => return Err(e),
        }
        let mut labels: Vec<String> = Vec::new();
        if node.labels.is_all_inclusive() {
            match compile_labels_expression(&mut labels, &node.labels) {
                Ok(()) => {},
                Err(e) => return Err(e),
            }
            assert(view_labels(labels@) =~= create_labels(node.labels@).0);
        } else {
            match get_node_function_name {
                Some(g) => {
                    emit(filter, Instruction::Duplicate);
                    let name = String::from_str(g);
                    let function = match self.function_manager.get_function(&name) {
                        Ok(f) => f,
                        Err(e) => {
                            assert(view_instructions(filter@) =~= f0 + seq![InstrModel::Duplicate]);
                            return Err(e);
                        },
                    };
                    emit(filter, Instruction::FunctionCall { function, arguments_count: 1 });
                },
                None => {},
            }
            let ghost f1 = view_instructions(filter@);
            let has_label_name = String::from_str("has_label");
            proof { reveal_strlit("has_label"); }
            let has_label_function = match self.function_manager.get_function(&has_label_name) {
                Ok(f) => f,
                Err(e) => return Err(e),
            };
            let _ = compile_filter_labels(filter, &node.labels, &has_label_function);
            emit(filter, Instruction::Rot3);
            emit(filter, Instruction::AndBinaryOperator);
            emit(filter, Instruction::Swap);
            proof {
                let tail = filter_code(node.labels@, "has_label"@) + seq![InstrModel::Rot3, InstrModel::And, InstrModel::Swap];
                assert(view_instructions(filter@) =~= f1 + tail);
                match get_node_function_name {
                    Some(g) => assert(f1 =~= f0 + seq![InstrModel::Duplicate, InstrModel::FunctionCall(lowercase(g@), 1)]),
                    None => assert(f1 =~= f0),
                }
                assert(view_labels(labels@) =~= Seq::<Seq<char>>::empty());
            }
        }
        let ghost ls = view_labels(labels@);
        emit(instructions, Instruction::CreateNodeQuery { labels });
        proof { lemma_code_push(c0, p.code, InstrModel::CreateNodeQuery(ls)); }
        assert(view_instructions(filter@) == f0 + match_node_spec(*node, old(self).variables_manager@, old(self).temporary_variables as nat,
            match get_node_function_name { Some(g) => Some(g@), None => None }).filter);
        Ok(())
    }
}


/// A binary expression that the analysis accepts and that compiles where aggregations are
/// refused appends the code of its right operand, then that of its left operand, then its
/// operator: the left operand is on top of the stack when the operator runs.
pub proof fn lemma_compile_binary_order(op: BinaryOperator, l: ExprModel, r: ExprModel, vars: Map<u64, VariableModel>, temps: nat)
    requires
        analyse_spec(ExprModel::Binary(op, Box::new(l), Box::new(r)), types_of_variables(vars)) is Ok,
        compile_spec(ExprModel::Binary(op, Box::new(l), Box::new(r)), vars, temps, None).error is None,
    ensures
        compile_spec(ExprModel::Binary(op, Box::new(l), Box::new(r)), vars, temps, None).code
            == compile_spec(r, vars, temps, None).code + compile_spec(l, vars, temps, None).code + seq![binary_instruction(op)],
{
    lemma_compile_without_aggregations(r, vars, temps);
    let a = compile_spec(r, vars, temps, None);
    lemma_compile_without_aggregations(l, vars, a.temporaries);
    assert(compile_spec(ExprModel::Binary(op, Box::new(l), Box::new(r)), vars, temps, None).code
        =~= compile_spec(r, vars, temps, None).code + compile_spec(l, vars, temps, None).code + seq![binary_instruction(op)]);
}

/// Where aggregations are refused, compiling never records one, and a compilation that succeeds
/// uses no temporary column.
pub proof fn lemma_compile_without_aggregations(e: ExprModel, vars: Map<u64, VariableModel>, temps: nat)
    ensures
        compile_spec(e, vars, temps, None).aggregations is None,
        compile_spec(e, vars, temps, None).error is None ==> compile_spec(e, vars, temps, None).temporaries == temps,
    decreases e, 1nat,
{
    if analyse_spec(e, types_of_variables(vars)) is Ok {
        lemma_node_without_aggregations(e, vars, temps);
    }
}

pub proof fn lemma_node_without_aggregations(e: ExprModel, vars: Map<u64, VariableModel>, temps: nat)
    ensures
        compile_node(e, vars, temps, None).aggregations is None,
        compile_node(e, vars, temps, None).error is None ==> compile_node(e, vars, temps, None).temporaries == temps,
    decreases e, 0nat,
{
    match e {
        ExprModel::FunctionCall(name, args) => {
            lemma_list_without_aggregations(args, vars, temps);
            if args.len() > 0 {
                lemma_compile_without_aggregations(args[0], vars, temps + 1);
                let a = compile_spec(args[0], vars, temps + 1, None);
                if args.len() > 1 {
                    lemma_compile_without_aggregations(args[1], vars, a.temporaries);
                }
            }
        },
        ExprModel::Array(v) => lemma_list_without_aggregations(v, vars, temps),
        ExprModel::Mapping(m) => lemma_entries_without_aggregations(m, vars, temps),
        ExprModel::MemberAccess(l, _) => lemma_compile_without_aggregations(*l, vars, temps),
        ExprModel::IndexAccess(l, i) => {
            lemma_compile_without_aggregations(*l, vars, temps);
            let a = compile_spec(*l, vars, temps, None);
            lemma_compile_without_aggregations(*i, vars, a.temporaries);
        },
        ExprModel::RangeAccess(l, st, x) => {
            lemma_compile_without_aggregations(*l, vars, temps);
            let a = compile_spec(*l, vars, temps, None);
            lemma_optional_without_aggregations(st, vars, a.temporaries);
            let b = sequence(a, compile_optional(st, vars, a.temporaries, a.aggregations));
            lemma_optional_without_aggregations(x, vars, b.temporaries);
        },
        ExprModel::Binary(_, l, r) => {
            lemma_compile_without_aggregations(*r, vars, temps);
            let a = compile_spec(*r, vars, temps, None);
            lemma_compile_without_aggregations(*l, vars, a.temporaries);
        },
        ExprModel::Unary(_, v) => lemma_compile_without_aggregations(*v, vars, temps),
        _ => {},
    }
}

pub proof fn lemma_optional_without_aggregations(o: Option<Box<ExprModel>>, vars: Map<u64, VariableModel>, temps: nat)
    ensures
        compile_optional(o, vars, temps, None).aggregations is None,
        compile_optional(o, vars, temps, None).error is None ==> compile_optional(o, vars, temps, None).temporaries == temps,
    decreases o, 0nat,
{
    match o {
        Some(x) => lemma_compile_without_aggregations(*x, vars, temps),
        None => {},
    }
}

pub proof fn lemma_list_without_aggregations(s: Seq<ExprModel>, vars: Map<u64, VariableModel>, temps: nat)
    ensures
        compile_list(s, vars, temps, None).aggregations is None,
        compile_list(s, vars, temps, None).error is None ==> compile_list(s, vars, temps, None).temporaries == temps,
    decreases s, 0nat,
{
    if s.len() > 0 {
        lemma_list_without_aggregations(s.subrange(0, s.len() - 1), vars, temps);
        let a = compile_list(s.subrange(0, s.len() - 1), vars, temps, None);
        lemma_compile_without_aggregations(s[s.len() - 1], vars, a.temporaries);
    }
}

pub proof fn lemma_entries_without_aggregations(s: Seq<(Seq<char>, ExprModel)>, vars: Map<u64, VariableModel>, temps: nat)
    ensures
        compile_entries(s, vars, temps, None).aggregations is None,
        compile_entries(s, vars, temps, None).error is None ==> compile_entries(s, vars, temps, None).temporaries == temps,
    decreases s, 0nat,
{
    if s.len() > 0 {
        lemma_entries_without_aggregations(s.subrange(0, s.len() - 1), vars, temps);
        let a = compile_entries(s.subrange(0, s.len() - 1), vars, temps, None);
        lemma_compile_without_aggregations(s[s.len() - 1].1, vars, a.temporaries);
    }
}


/// The temporary columns of compiling `e` where aggregations are refused fit in a `usize`.
pub open spec fn fits(e: ExprModel, vars: Map<u64, VariableModel>, temps: nat) -> bool {
    compile_spec(e, vars, temps, None).temporaries + vars.len() <= usize::MAX
}

/// Error of a `LIMIT` or `SKIP` expression: it must be a constant integer, and compile.
pub open spec fn bound_error(x: Option<ExprModel>, vars: Map<u64, VariableModel>, temps: nat) -> Option<ErrorKind> {
    match x {
        None => None,
        Some(e) => match constant_integer_error(e, types_of_variables(vars)) {
            Some(k) => Some(k),
            None => compile_spec(e, vars, temps, None).error,
        },
    }
}

/// Criteria of an `ORDER BY`: direction and expression.
pub open spec fn order_by_model(v: Seq<OrderByExpression>) -> Seq<(bool, ExprModel)> {
    v.map_values(|o: OrderByExpression| (o.asc, o.expression@))
}

/// First error in compiling the criteria of an `ORDER BY`.
pub open spec fn order_by_error(s: Seq<(bool, ExprModel)>, vars: Map<u64, VariableModel>, temps: nat) -> Option<ErrorKind>
    decreases s.len(),
{
    if s.len() == 0 {
        None
    } else {
        match order_by_error(s.drop_last(), vars, temps) {
            Some(k) => Some(k),
            None => compile_spec(s.last().1, vars, temps, None).error,
        }
    }
}

/// Optional expression of a modifier.
pub open spec fn optional_model(o: Option<Expression>) -> Option<ExprModel> {
    view_properties(o)
}

/// First error in compiling modifiers: the limit, the skip, then the criteria of the order.
pub open spec fn modifiers_error(m: ModifiersAst, vars: Map<u64, VariableModel>, temps: nat) -> Option<ErrorKind> {
    match bound_error(optional_model(m.limit), vars, temps) {
        Some(k) => Some(k),
        None => match bound_error(optional_model(m.skip), vars, temps) {
            Some(k) => Some(k),
            None => match m.order_by {
                Some(v) => order_by_error(order_by_model(v@), vars, temps),
                None => None,
            },
        },
    }
}

/// Every expression of the modifiers compiles within the limits of a `usize`.
pub open spec fn modifiers_fit(m: ModifiersAst, vars: Map<u64, VariableModel>, temps: nat) -> bool {
    &&& (m.limit matches Some(e) ==> fits(e@, vars, temps))
    &&& (m.skip matches Some(e) ==> fits(e@, vars, temps))
    &&& (m.order_by matches Some(v) ==> forall|i: int| 0 <= i < v@.len() ==> fits(#[trigger] v@[i].expression@, vars, temps))
}

/// Code of an optional compiled expression.
pub open spec fn compiled_bound(x: Option<ExprModel>, vars: Map<u64, VariableModel>, temps: nat) -> Option<Seq<InstrModel>> {
    match x {
        Some(e) => Some(compile_spec(e, vars, temps, None).code),
        None => None,
    }
}

pub open spec fn view_optional_instructions(o: Option<Vec<Instruction>>) -> Option<Seq<InstrModel>> {
    match o {
        Some(v) => Some(view_instructions(v@)),
        None => None,
    }
}

impl Compiler {
    /// Compiles a constant integer expression: the limit or skip of a block.
    fn compile_bound(&mut self, x: &Option<Expression>) -> (r: Result<Option<Vec<Instruction>>, Error>)
        requires
            x matches Some(e) ==> fits(e@, old(self).variables_manager@, old(self).temporary_variables as nat),
        ensures
            final(self).variables_manager@ == old(self).variables_manager@,
            match bound_error(optional_model(*x), old(self).variables_manager@, old(self).temporary_variables as nat) {
                Some(k) => r matches Err(e) && kind_of(e) == k,
                None => r matches Ok(c) && view_optional_instructions(c)
                    == compiled_bound(optional_model(*x), old(self).variables_manager@, old(self).temporary_variables as nat)
                    && final(self).temporary_variables == old(self).temporary_variables,
            },
    {
        match x {
            None => Ok(None),
            Some(e) => {
                match self.check_for_constant_integer_expression(e) {
                    Ok(()) => {},
                    Err(err) => return Err(err),
                }
                let mut instructions: Vec<Instruction> = Vec::new();
                let mut aggregations: Option<Vec<(usize, RWAggregation)>> = None;
                proof { lemma_compile_without_aggregations(e@, self.variables_manager@, self.temporary_variables as nat); }
                match self.compile_expression(e, &mut instructions, &mut aggregations) {
                    Ok(()) => {},
                    Err(err) => return Err(err),
                }
                assert(view_instructions(instructions@) =~= compile_spec(e@, self.variables_manager@, self.temporary_variables as nat, None).code);
                Ok(Some(instructions))
            },
        }
    }

    /// Compiles a criterion of an `ORDER BY`.
    fn compile_criterion(&mut self, o: &OrderByExpression) -> (r: Result<OrderBy, Error>)
        requires
            fits(o.expression@, old(self).variables_manager@, old(self).temporary_variables as nat),
        ensures
            final(self).variables_manager@ == old(self).variables_manager@,
            match compile_spec(o.expression@, old(self).variables_manager@, old(self).temporary_variables as nat, None).error {
                Some(k) => r matches Err(e) && kind_of(e) == k,
                None => r matches Ok(ob) && ob.asc == o.asc
                    && view_instructions(ob.instructions@) == compile_spec(o.expression@, old(self).variables_manager@, old(self).temporary_variables as nat, None).code
                    && final(self).temporary_variables == old(self).temporary_variables,
            },
    {
        let mut instructions: Vec<Instruction> = Vec::new();
        let mut aggregations: Option<Vec<(usize, RWAggregation)>> = None;
        proof { lemma_compile_without_aggregations(o.expression@, self.variables_manager@, self.temporary_variables as nat); }
        match self.compile_expression(&o.expression, &mut instructions, &mut aggregations) {
            Ok(()) => {},
            Err(e) => return Err(e),
        }
        assert(view_instructions(instructions@) =~= compile_spec(o.expression@, old(self).variables_manager@, old(self).temporary_variables as nat, None).code);
        Ok(OrderBy { asc: o.asc, instructions })
    }

    /// Compiles the `LIMIT`, `SKIP` and `ORDER BY` of a `RETURN` or `WITH` block.
    pub fn compile_modifiers(&mut self, modifiers: &ModifiersAst) -> (r: Result<Modifiers, Error>)
        requires
            modifiers_fit(*modifiers, old(self).variables_manager@, old(self).temporary_variables as nat),
        ensures
            final(self).variables_manager@ == old(self).variables_manager@,
            ({
                let vars = old(self).variables_manager@;
                let t = old(self).temporary_variables as nat;
                match modifiers_error(*modifiers, vars, t) {
                    Some(k) => r matches Err(e) && kind_of(e) == k,
                    None => r matches Ok(m)
                        && final(self).temporary_variables == old(self).temporary_variables
                        && view_optional_instructions(m.limit) == compiled_bound(optional_model(modifiers.limit), vars, t)
                        && view_optional_instructions(m.skip) == compiled_bound(optional_model(modifiers.skip), vars, t)
                        && match modifiers.order_by {
                            Some(v) => m.order_by@.len() == v@.len() && forall|i: int| 0 <= i < v@.len() ==>
                                (#[trigger] m.order_by@[i]).asc == v@[i].asc
                                && view_instructions(m.order_by@[i].instructions@) == compile_spec(v@[i].expression@, vars, t, None).code,
                            None => m.order_by@.len() == 0,
                        },
                }
            }),
    {
        let ghost vars = self.variables_manager@;
        let ghost t = self.temporary_variables as nat;
        let limit = match self.compile_bound(&modifiers.limit) {
            Ok(l) => l,
            Err(e) => return Err(e),
        };
        let skip = match self.compile_bound(&modifiers.skip) {
            Ok(s) => s,
            Err(e) => return Err(e),
        };
        let mut order_by: Vec<OrderBy> = Vec::new();
        match &modifiers.order_by {
            None => {},
            Some(v) => {
                let ghost s = order_by_model(v@);
                assert(s.take(0) =~= Seq::<(bool, ExprModel)>::empty());
                for i in 0..v.len()
                    invariant
                        self.variables_manager@ == vars,
                        self.temporary_variables as nat == t,
                        vars == old(self).variables_manager@,
                        t == old(self).temporary_variables as nat,
                        s == order_by_model(v@),
                        modifiers.order_by == Some(*v),
                        bound_error(optional_model(modifiers.limit), vars, t) is None,
                        bound_error(optional_model(modifiers.skip), vars, t) is None,
                        forall|j: int| 0 <= j < v@.len() ==> fits(#[trigger] v@[j].expression@, vars, t),
                        order_by_error(s.take(i as int), vars, t) is None,
                        order_by@.len() == i,
                        forall|j: int| 0 <= j < i ==> (#[trigger] order_by@[j]).asc == v@[j].asc
                            && view_instructions(order_by@[j].instructions@) == compile_spec(v@[j].expression@, vars, t, None).code,
                {
                    proof {
                        assert(s.take(i + 1).drop_last() =~= s.take(i as int));
                        assert(s.take(i + 1).last() == (v@[i as int].asc, v@[i as int].expression@));
                    }
                    match self.compile_criterion(&v[i]) {
                        Ok(o) => order_by.push(o),
                        Err(e) => {
                            proof { lemma_order_by_error_prefix(s, i + 1, vars, t); }
                            return Err(e);
                        },
                    }
                }
                assert(s.take(v@.len() as int) =~= s);
            },
        }
        Ok(Modifiers { limit, skip, order_by })
    }
}

/// An error in a prefix of the criteria is the first error of all the criteria.
pub proof fn lemma_order_by_error_prefix(s: Seq<(bool, ExprModel)>, j: int, vars: Map<u64, VariableModel>, temps: nat)
    requires
        0 <= j <= s.len(),
        order_by_error(s.take(j), vars, temps) is Some,
    ensures
        order_by_error(s, vars, temps) == order_by_error(s.take(j), vars, temps),
    decreases s.len() - j,
{
    if j < s.len() {
        assert(s.take(j + 1).drop_last() =~= s.take(j));
        lemma_order_by_error_prefix(s, j + 1, vars, temps);
    } else {
        assert(s.take(j) =~= s);
    }
}


/// The variable, when given, is known.
pub open spec fn known(vars: Map<u64, VariableModel>, id: Option<u64>) -> bool {
    id matches Some(i) ==> vars.contains_key(i)
}

/// The variable is given, known and set.
pub open spec fn is_set_in(vars: Map<u64, VariableModel>, id: Option<u64>) -> bool {
    id matches Some(i) && vars.contains_key(i) && vars[i].is_set
}

/// Error of an end of a matched edge: an unknown variable, or the error of matching a new node.
pub open spec fn endpoint_error(n: NodePattern, vars: Map<u64, VariableModel>, t: nat, getter: Seq<char>) -> Option<ErrorKind> {
    if !known(vars, var_id(n.variable)) {
        Some(ErrorKind::UnknownVariable)
    } else if is_set_in(vars, var_id(n.variable)) {
        None
    } else {
        match_node_spec(n, vars, t, Some(getter)).error
    }
}

/// Instructions of an end of a matched edge: the node already bound, or a node query.
pub open spec fn endpoint_code(n: NodePattern, vars: Map<u64, VariableModel>, t: nat, getter: Seq<char>) -> Seq<InstrModel> {
    if is_set_in(vars, var_id(n.variable)) {
        seq![InstrModel::GetVariable(vars[var_id(n.variable)->0].col_id), InstrModel::CreateNodeQuery(Seq::empty())]
    } else {
        match_node_spec(n, vars, t, Some(getter)).code
    }
}

/// Filter of an end of a matched edge.
pub open spec fn endpoint_filter(n: NodePattern, vars: Map<u64, VariableModel>, t: nat, getter: Seq<char>) -> Seq<InstrModel> {
    if is_set_in(vars, var_id(n.variable)) {
        Seq::empty()
    } else {
        match_node_spec(n, vars, t, Some(getter)).filter
    }
}

/// Error of the edge itself of a matched edge.
pub open spec fn edge_part_error(e: EdgePattern, vars: Map<u64, VariableModel>, t: nat) -> Option<ErrorKind> {
    if !known(vars, var_id(e.variable)) {
        Some(ErrorKind::UnknownVariable)
    } else if is_set_in(vars, var_id(e.variable)) {
        None
    } else {
        match optional_code(view_properties(e.properties), vars, t).error {
            Some(k) => Some(k),
            None => if label_all_inclusive(e.labels@) && !create_labels(e.labels@).1 {
                Some(ErrorKind::InvalidCreateLabels)
            } else {
                None
            },
        }
    }
}

/// Instructions of the edge itself: the edge already bound, or an edge query.
pub open spec fn edge_part_code(e: EdgePattern, vars: Map<u64, VariableModel>, t: nat) -> Seq<InstrModel> {
    if is_set_in(vars, var_id(e.variable)) {
        seq![InstrModel::GetVariable(vars[var_id(e.variable)->0].col_id), InstrModel::CreateEdgeQuery(Seq::empty())]
    } else {
        optional_code(view_properties(e.properties), vars, t).code.push(InstrModel::CreateEdgeQuery(
            if label_all_inclusive(e.labels@) { create_labels(e.labels@).0 } else { Seq::empty() }))
    }
}

/// Filter of the labels of the edge itself.
pub open spec fn edge_part_filter(e: EdgePattern, vars: Map<u64, VariableModel>) -> Seq<InstrModel> {
    if is_set_in(vars, var_id(e.variable)) || label_all_inclusive(e.labels@) {
        Seq::empty()
    } else {
        filter_code(e.labels@, "has_label"@) + seq![InstrModel::Rot3, InstrModel::And, InstrModel::Swap]
    }
}

/// Filter that keeps the edge apart from the edges matched before it.
pub open spec fn previous_filter(previous: Seq<nat>) -> Seq<InstrModel>
    decreases previous.len(),
{
    if previous.len() == 0 {
        Seq::empty()
    } else {
        previous_filter(previous.drop_last()) + seq![
            InstrModel::Duplicate,
            InstrModel::GetVariable(previous.last()),
            InstrModel::NotEqual,
            InstrModel::InverseRot3,
            InstrModel::And,
            InstrModel::Swap,
        ]
    }
}

/// First error of matching an edge.
pub open spec fn match_edge_error(path: Option<u64>, e: EdgePattern, vars: Map<u64, VariableModel>, t: nat) -> Option<ErrorKind> {
    match endpoint_error(e.source, vars, t, "get_source"@) {
        Some(k) => Some(k),
        None => match endpoint_error(e.destination, vars, t, "get_destination"@) {
            Some(k) => Some(k),
            None => match edge_part_error(e, vars, t) {
                Some(k) => Some(k),
                None => if !known(vars, path) { Some(ErrorKind::UnknownVariable) } else { None },
            },
        },
    }
}

/// Variables after matching an edge: its ends, the edge and the path are marked as set.
pub open spec fn match_edge_vars(path: Option<u64>, e: EdgePattern, vars: Map<u64, VariableModel>) -> Map<u64, VariableModel> {
    mark_set_spec(mark_set_spec(mark_set_spec(mark_set_spec(vars, var_id(e.source.variable)).0,
        var_id(e.destination.variable)).0, var_id(e.variable)).0, path).0
}

/// Column of the edge of a match: the column of its variable, or a new temporary column when
/// several patterns are matched.
pub open spec fn match_edge_column(e: EdgePattern, vars: Map<u64, VariableModel>, t: nat, single: bool) -> Option<nat> {
    if single {
        column_of(vars, var_id(e.variable))
    } else if var_id(e.variable) is Some {
        column_of(vars, var_id(e.variable))
    } else {
        Some(t + vars.len())
    }
}

pub open spec fn view_column(c: Option<usize>) -> Option<nat> {
    match c {
        Some(x) => Some(x as nat),
        None => None,
    }
}

pub open spec fn view_previous(s: Seq<usize>) -> Seq<nat> {
    s.map_values(|x: usize| x as nat)
}


/// Optional column of an optional identifier.
fn duplicate_identifier(v: &Option<VariableIdentifier>) -> (r: Option<VariableIdentifier>)
    ensures
        var_id(r) == var_id(*v),
{
    match v {
        Some(i) => Some(i.duplicate()),
        None => None,
    }
}

/// Appends the filter that keeps the edge apart from the edges matched before it.
fn emit_previous_filter(filter: &mut Vec<Instruction>, previous: &Vec<usize>)
    ensures
        view_instructions(final(filter)@) == view_instructions(old(filter)@) + previous_filter(view_previous(previous@)),
{
    let ghost f0 = view_instructions(filter@);
    let ghost p = view_previous(previous@);
    assert(p.take(0) =~= Seq::<nat>::empty());
    assert(f0 + Seq::<InstrModel>::empty() =~= f0);
    for i in 0..previous.len()
        invariant
            p == view_previous(previous@),
            f0 == view_instructions(old(filter)@),
            view_instructions(filter@) == f0 + previous_filter(p.take(i as int)),
    {
        let ghost before = view_instructions(filter@);
        emit(filter, Instruction::Duplicate);
        emit(filter, Instruction::GetVariable { col_id: previous[i] });
        emit(filter, Instruction::NotEqualBinaryOperator);
        emit(filter, Instruction::InverseRot3);
        emit(filter, Instruction::AndBinaryOperator);
        emit(filter, Instruction::Swap);
        proof {
            assert(p.take(i + 1).drop_last() =~= p.take(i as int));
            assert(p.take(i + 1).last() == previous@[i as int] as nat);
            assert(view_instructions(filter@) =~= f0 + previous_filter(p.take(i + 1)));
        }
    }
    assert(p.take(previous@.len() as int) =~= p);
}

impl Compiler {
    /// Compiles an end of a matched edge; tells whether its variable was already set.
    fn compile_endpoint(&mut self, node: &NodePattern, instructions: &mut Vec<Instruction>, filter: &mut Vec<Instruction>, getter: &str) -> (r: Result<bool, Error>)
        requires
            old(self).temporary_variables + old(self).variables_manager@.len() <= usize::MAX,
            node.properties matches Some(p) ==> fits(p@, old(self).variables_manager@, old(self).temporary_variables as nat),
        ensures
            final(self).variables_manager@ == old(self).variables_manager@,
            ({
                let vars = old(self).variables_manager@;
                let t = old(self).temporary_variables as nat;
                match endpoint_error(*node, vars, t, getter@) {
                    Some(k) => r matches Err(e) && kind_of(e) == k,
                    None => r matches Ok(b) && b == is_set_in(vars, var_id(node.variable))
                        && final(self).temporary_variables == old(self).temporary_variables
                        && view_instructions(final(instructions)@) == view_instructions(old(instructions)@) + endpoint_code(*node, vars, t, getter@)
                        && view_instructions(final(filter)@) == view_instructions(old(filter)@) + endpoint_filter(*node, vars, t, getter@),
                }
            }),
    {
        let ghost c0 = view_instructions(instructions@);
        let ghost f0 = view_instructions(filter@);
        let set = match self.variables_manager.is_set_variable(&node.variable) {
            Ok(b) => b,
            Err(e) => return Err(e),
        };
        if set {
            match &node.variable {
                Some(id) => {
                    let col = match self.variables_manager.get_variable_index(id) {
                        Ok(c) => c,
                        Err(e) => return Err(e),
                    };
                    emit(instructions, Instruction::GetVariable { col_id: col });
                    let empty: Vec<String> = Vec::new();
                    assert(view_labels(empty@) =~= Seq::<Seq<char>>::empty());
                    emit(instructions, Instruction::CreateNodeQuery { labels: empty });
                    assert(view_instructions(instructions@) =~= c0 + endpoint_code(*node, old(self).variables_manager@, old(self).temporary_variables as nat, getter@));
                    assert(f0 + Seq::<InstrModel>::empty() =~= f0);
                },
                None => {},
            }
        } else {
            proof {
                match &node.properties {
                    Some(p) => lemma_compile_without_aggregations(p@, self.variables_manager@, self.temporary_variables as nat),
                    None => {},
                }
            }
            match self.compile_match_node(node, instructions, filter, Some(getter)) {
                Ok(()) => {},
                Err(e) => return Err(e),
            }
        }
        Ok(set)
    }

    /// Compiles the edge itself of a matched edge pattern.
    fn compile_edge_part(&mut self, edge: &EdgePattern, instructions: &mut Vec<Instruction>, filter: &mut Vec<Instruction>) -> (r: Result<(), Error>)
        requires
            old(self).temporary_variables + old(self).variables_manager@.len() <= usize::MAX,
            edge.properties matches Some(p) ==> fits(p@, old(self).variables_manager@, old(self).temporary_variables as nat),
        ensures
            final(self).variables_manager@ == old(self).variables_manager@,
            ({
                let vars = old(self).variables_manager@;
                let t = old(self).temporary_variables as nat;
                match edge_part_error(*edge, vars, t) {
                    Some(k) => r matches Err(e) && kind_of(e) == k,
                    None => r is Ok
                        && final(self).temporary_variables == old(self).temporary_variables
                        && view_instructions(final(instructions)@) == view_instructions(old(instructions)@) + edge_part_code(*edge, vars, t)
                        && view_instructions(final(filter)@) == view_instructions(old(filter)@) + edge_part_filter(*edge, vars),
                }
            }),
    {
        let ghost c0 = view_instructions(instructions@);
        let ghost f0 = view_instructions(filter@);
        let ghost vars = self.variables_manager@;
        let ghost t = self.temporary_variables as nat;
        let set = match self.variables_manager.is_set_variable(&edge.variable) {
            Ok(b) => b,
            Err(e) => return Err(e),
        };
        if set {
            match &edge.variable {
                Some(id) => {
                    let col = match self.variables_manager.get_variable_index(id) {
                        Ok(c) => c,
                        Err(e) => return Err(e),
                    };
                    emit(instructions, Instruction::GetVariable { col_id: col });
                    let empty: Vec<String> = Vec::new();
                    assert(view_labels(empty@) =~= Seq::<Seq<char>>::empty());
                    emit(instructions, Instruction::CreateEdgeQuery { labels: empty });
                    assert(view_instructions(instructions@) =~= c0 + edge_part_code(*edge, vars, t));
                    assert(f0 + Seq::<InstrModel>::empty() =~= f0);
                },
                None => {},
            }
            return Ok(());
        }
        let ghost p = optional_code(view_properties(edge.properties), vars, t);
        proof {
            match &edge.properties {
                Some(e) => lemma_compile_without_aggregations(e@, vars, t),
                None => {},
            }
        }
        match self.compile_optional_expression(&edge.properties, instructions) {
            Ok(()) => {},
            Err(e) => return Err(e),
        }
        let mut labels: Vec<String> = Vec::new();
        if edge.labels.is_all_inclusive() {
            match compile_labels_expression(&mut labels, &edge.labels) {
                Ok(()) => {},
                Err(e) => return Err(e),
            }
            assert(view_labels(labels@) =~= create_labels(edge.labels@).0);
            assert(f0 + Seq::<InstrModel>::empty() =~= f0);
        } else {
            let has_label_name = String::from_str("has_label");
            proof { reveal_strlit("has_label"); }
            let has_label_function = match self.function_manager.get_function(&has_label_name) {
                Ok(f) => f,
                Err(e) => return Err(e),
            };
            let _ = compile_filter_labels(filter, &edge.labels, &has_label_function);
            emit(filter, Instruction::Rot3);
            emit(filter, Instruction::AndBinaryOperator);
            emit(filter, Instruction::Swap);
            assert(view_instructions(filter@) =~= f0 + edge_part_filter(*edge, vars));
            assert(view_labels(labels@) =~= Seq::<Seq<char>>::empty());
        }
        let ghost ls = view_labels(labels@);
        emit(instructions, Instruction::CreateEdgeQuery { labels });
        proof { lemma_code_push(c0, p.code, InstrModel::CreateEdgeQuery(ls)); }
        Ok(())
    }
}


/// Marking a variable as set keeps the variables and their columns.
pub proof fn lemma_mark_set_columns(m: Map<u64, VariableModel>, id: Option<u64>)
    ensures
        mark_set_spec(m, id).1 is None <==> known(m, id),
        mark_set_spec(m, id).0.dom() == m.dom(),
        forall|k: u64| #[trigger] m.contains_key(k) ==> mark_set_spec(m, id).0[k].col_id == m[k].col_id,
{
    match id {
        Some(i) => {
            if m.contains_key(i) {
                assert(m.insert(i, marked_set(m[i])).dom() =~= m.dom());
            }
        },
        None => {},
    }
}

impl Compiler {
    /// Compiles an edge pattern of a `MATCH` statement, optionally named by a path variable.
    /// When several patterns are matched, the edge gets a column (a temporary one when it has no
    /// variable) and must differ from the edges matched before it.
    pub fn compile_match_edge(
        &mut self,
        path_variable: Option<VariableIdentifier>,
        edge: &EdgePattern,
        single_match: bool,
        previous_edges: &mut Vec<usize>,
    ) -> (r: Result<BlockMatch, Error>)
        requires
            old(self).temporary_variables + 1 + old(self).variables_manager@.len() <= usize::MAX,
            edge.source.properties matches Some(p) ==> fits(p@, old(self).variables_manager@, old(self).temporary_variables as nat),
            edge.destination.properties matches Some(p) ==> fits(p@, old(self).variables_manager@, old(self).temporary_variables as nat),
            edge.properties matches Some(p) ==> fits(p@, old(self).variables_manager@, old(self).temporary_variables as nat),
        ensures
            ({
                let vars = old(self).variables_manager@;
                let t = old(self).temporary_variables as nat;
                let path = var_id(path_variable);
                let src = var_id(edge.source.variable);
                let dst = var_id(edge.destination.variable);
                match match_edge_error(path, *edge, vars, t) {
                    Some(k) => r matches Err(e) && kind_of(e) == k,
                    None => r matches Ok(BlockMatch::MatchEdge { instructions, left_variable, edge_variable, right_variable, path_variable: pv, filter, directivity })
                        && view_instructions(instructions@) == endpoint_code(edge.source, vars, t, "get_source"@)
                            + endpoint_code(edge.destination, vars, t, "get_destination"@) + edge_part_code(*edge, vars, t)
                        && view_instructions(filter@) == endpoint_filter(edge.source, vars, t, "get_source"@)
                            + endpoint_filter(edge.destination, vars, t, "get_destination"@) + edge_part_filter(*edge, vars)
                            + (if single_match { Seq::empty() } else { previous_filter(view_previous(old(previous_edges)@)) })
                        && view_column(left_variable) == (if is_set_in(vars, src) { None } else { column_of(vars, src) })
                        && view_column(right_variable) == (if is_set_in(vars, dst) { None } else { column_of(vars, dst) })
                        && view_column(edge_variable) == match_edge_column(*edge, vars, t, single_match)
                        && view_column(pv) == column_of(vars, path)
                        && directivity == edge.directivity
                        && final(self).variables_manager@ == match_edge_vars(path, *edge, vars)
                        && final(self).temporary_variables == (if !single_match && var_id(edge.variable) is None {
                            old(self).temporary_variables + 1
                        } else {
                            old(self).temporary_variables as int
                        })
                        && view_previous(final(previous_edges)@) == (if single_match {
                            view_previous(old(previous_edges)@)
                        } else {
                            view_previous(old(previous_edges)@).push(match_edge_column(*edge, vars, t, single_match)->0)
                        }),
                }
            }),
    {
        let ghost vars = self.variables_manager@;
        let ghost t = self.temporary_variables as nat;
        let ghost p0 = view_previous(previous_edges@);
        let mut instructions: Vec<Instruction> = Vec::new();
        let mut filter: Vec<Instruction> = Vec::new();
        let source_set = match self.compile_endpoint(&edge.source, &mut instructions, &mut filter, "get_source") {
            Ok(b) => b,
            Err(e) => return Err(e),
        };
        proof { reveal_strlit("get_source"); }
        let source_variable = if source_set { None } else { duplicate_identifier(&edge.source.variable) };
        let destination_set = match self.compile_endpoint(&edge.destination, &mut instructions, &mut filter, "get_destination") {
            Ok(b) => b,
            Err(e) => return Err(e),
        };
        let destination_variable = if destination_set { None } else { duplicate_identifier(&edge.destination.variable) };
        match self.compile_edge_part(edge, &mut instructions, &mut filter) {
            Ok(()) => {},
            Err(e) => return Err(e),
        }
        proof {
            assert(view_instructions(instructions@) =~= endpoint_code(edge.source, vars, t, "get_source"@)
                + endpoint_code(edge.destination, vars, t, "get_destination"@) + edge_part_code(*edge, vars, t));
        }
        let ghost f3 = view_instructions(filter@);
        proof {
            assert(f3 =~= endpoint_filter(edge.source, vars, t, "get_source"@)
                + endpoint_filter(edge.destination, vars, t, "get_destination"@) + edge_part_filter(*edge, vars));
        }
        let ghost m0 = self.variables_manager@;
        proof { lemma_mark_set_columns(m0, var_id(edge.source.variable)); }
        match self.variables_manager.mark_variables_as_set(edge.source.variable.as_ref()) {
            Ok(()) => {},
            Err(e) => return Err(e),
        }
        let ghost m1 = self.variables_manager@;
        proof { lemma_mark_set_columns(m1, var_id(edge.destination.variable)); }
        match self.variables_manager.mark_variables_as_set(edge.destination.variable.as_ref()) {
            Ok(()) => {},
            Err(e) => return Err(e),
        }
        let ghost m2 = self.variables_manager@;
        proof { lemma_mark_set_columns(m2, var_id(edge.variable)); }
        match self.variables_manager.mark_variables_as_set(edge.variable.as_ref()) {
            Ok(()) => {},
            Err(e) => return Err(e),
        }
        let ghost m3 = self.variables_manager@;
        let edge_variable = if single_match {
            match self.variables_manager.get_variable_index_option(&edge.variable) {
                Ok(c) => c,
                Err(e) => return Err(e),
            }
        } else {
            let col = match self.variables_manager.get_variable_index_option(&edge.variable) {
                Ok(Some(c)) => c,
                Ok(None) => self.create_temporary_variable(),
                Err(e) => return Err(e),
            };
            emit_previous_filter(&mut filter, previous_edges);
            previous_edges.push(col);
            proof { assert(view_previous(previous_edges@) =~= p0.push(col as nat)); }
            Some(col)
        };
        proof {
            if single_match {
                assert(f3 + Seq::<InstrModel>::empty() =~= f3);
            }
        }
        proof { lemma_mark_set_columns(m3, var_id(path_variable)); }
        match self.variables_manager.mark_variables_as_set(path_variable.as_ref()) {
            Ok(()) => {},
            Err(e) => return Err(e),
        }
        let left_variable = match self.variables_manager.get_variable_index_option(&source_variable) {
            Ok(c) => c,
            Err(e) => return Err(e),
        };
        let right_variable = match self.variables_manager.get_variable_index_option(&destination_variable) {
            Ok(c) => c,
            Err(e) => return Err(e),
        };
        let path_col = match self.variables_manager.get_variable_index_option(&path_variable) {
            Ok(c) => c,
            Err(e) => return Err(e),
        };
        Ok(BlockMatch::MatchEdge {
            instructions,
            left_variable,
            edge_variable,
            right_variable,
            path_variable: path_col,
            filter,
            directivity: edge.directivity,
        })
    }
}


/// Number of calls in an expression: a bound on the temporary columns its compilation takes.
pub open spec fn calls(e: ExprModel) -> nat
    decreases e, 1nat,
{
    match e {
        ExprModel::Array(v) => calls_list(v),
        ExprModel::FunctionCall(_, args) => 1 + calls_list(args),
        ExprModel::Mapping(m) => calls_entries(m),
        ExprModel::IndexAccess(l, i) => calls(*l) + calls(*i),
        ExprModel::RangeAccess(l, s, x) => calls(*l) + calls_optional(s) + calls_optional(x),
        ExprModel::MemberAccess(l, _) => calls(*l),
        ExprModel::Binary(_, l, r) => calls(*l) + calls(*r),
        ExprModel::Unary(_, v) => calls(*v),
        _ => 0,
    }
}

pub open spec fn calls_list(s: Seq<ExprModel>) -> nat
    decreases s, 0nat,
{
    if s.len() == 0 { 0 } else { calls_list(s.subrange(0, s.len() - 1)) + calls(s[s.len() - 1]) }
}

pub open spec fn calls_entries(s: Seq<(Seq<char>, ExprModel)>) -> nat
    decreases s, 0nat,
{
    if s.len() == 0 { 0 } else { calls_entries(s.subrange(0, s.len() - 1)) + calls(s[s.len() - 1].1) }
}

pub open spec fn calls_optional(o: Option<Box<ExprModel>>) -> nat
    decreases o, 0nat,
{
    match o {
        Some(x) => calls(*x),
        None => 0,
    }
}

/// Compiling takes at most one temporary column per call.
pub proof fn lemma_compile_calls(e: ExprModel, vars: Map<u64, VariableModel>, temps: nat, aggs: Option<Seq<AggModel>>)
    ensures
        compile_spec(e, vars, temps, aggs).temporaries <= temps + calls(e),
    decreases e, 1nat,
{
    if analyse_spec(e, types_of_variables(vars)) is Ok {
        lemma_node_calls(e, vars, temps, aggs);
    }
}

pub proof fn lemma_node_calls(e: ExprModel, vars: Map<u64, VariableModel>, temps: nat, aggs: Option<Seq<AggModel>>)
    ensures
        compile_node(e, vars, temps, aggs).temporaries <= temps + calls(e),
    decreases e, 0nat,
{
    match e {
        ExprModel::FunctionCall(name, args) => {
            lemma_list_calls(args, vars, temps, aggs);
            if args.len() > 0 {
                lemma_compile_calls(args[0], vars, temps + 1, aggs);
                let a = compile_spec(args[0], vars, temps + 1, aggs);
                lemma_list_calls_prefix(args, 1);
                if args.len() > 1 {
                    lemma_compile_calls(args[1], vars, a.temporaries, a.aggregations);
                    lemma_list_calls_prefix(args, 2);
                    assert(args.subrange(0, 2).subrange(0, 1) =~= args.subrange(0, 1));
                    assert(args.subrange(0, 1).subrange(0, 0) =~= Seq::<ExprModel>::empty());
                } else {
                    assert(args.subrange(0, 1).subrange(0, 0) =~= Seq::<ExprModel>::empty());
                }
            }
        },
        ExprModel::Array(v) => lemma_list_calls(v, vars, temps, aggs),
        ExprModel::Mapping(m) => lemma_entries_calls(m, vars, temps, aggs),
        ExprModel::MemberAccess(l, _) => lemma_compile_calls(*l, vars, temps, aggs),
        ExprModel::IndexAccess(l, i) => {
            let a = compile_spec(*l, vars, temps, aggs);
            lemma_compile_calls(*l, vars, temps, aggs);
            lemma_compile_calls(*i, vars, a.temporaries, a.aggregations);
        },
        ExprModel::RangeAccess(l, st, x) => {
            let a = compile_spec(*l, vars, temps, aggs);
            lemma_compile_calls(*l, vars, temps, aggs);
            let b = sequence(a, compile_optional(st, vars, a.temporaries, a.aggregations));
            lemma_optional_calls(st, vars, a.temporaries, a.aggregations);
            lemma_optional_calls(x, vars, b.temporaries, b.aggregations);
        },
        ExprModel::Binary(_, l, r) => {
            let a = compile_spec(*r, vars, temps, aggs);
            lemma_compile_calls(*r, vars, temps, aggs);
            lemma_compile_calls(*l, vars, a.temporaries, a.aggregations);
        },
        ExprModel::Unary(_, v) => lemma_compile_calls(*v, vars, temps, aggs),
        _ => {},
    }
}

/// The calls of a prefix of a list are among those of the list.
pub proof fn lemma_list_calls_prefix(s: Seq<ExprModel>, j: int)
    requires
        0 <= j <= s.len(),
    ensures
        calls_list(s.subrange(0, j)) <= calls_list(s),
        j >= 1 ==> calls_list(s.subrange(0, j)) >= calls(s[0]),
        j >= 2 ==> calls_list(s.subrange(0, j)) >= calls(s[0]) + calls(s[1]),
    decreases s.len() - j,
{
    if j < s.len() {
        assert(s.subrange(0, j + 1).subrange(0, j) =~= s.subrange(0, j));
        lemma_list_calls_prefix(s, j + 1);
    } else {
        assert(s.subrange(0, j) =~= s);
    }
    if j >= 1 {
        lemma_list_calls_first(s.subrange(0, j));
    }
    if j >= 2 {
        assert(s.subrange(0, j).subrange(0, 2) =~= s.subrange(0, 2));
        lemma_list_calls_first_two(s.subrange(0, j));
    }
}

pub proof fn lemma_list_calls_first(s: Seq<ExprModel>)
    requires
        s.len() >= 1,
    ensures
        calls_list(s) >= calls(s[0]),
    decreases s.len(),
{
    if s.len() > 1 {
        lemma_list_calls_first(s.subrange(0, s.len() - 1));
    } else {
        assert(s.subrange(0, 0) =~= Seq::<ExprModel>::empty());
    }
}

pub proof fn lemma_list_calls_first_two(s: Seq<ExprModel>)
    requires
        s.len() >= 2,
    ensures
        calls_list(s) >= calls(s[0]) + calls(s[1]),
    decreases s.len(),
{
    if s.len() > 2 {
        let q = s.subrange(0, s.len() - 1);
        lemma_list_calls_first_two(q);
        assert(q[0] == s[0] && q[1] == s[1]);
    } else {
        let p = s.subrange(0, 1);
        assert(s.subrange(0, s.len() - 1) =~= p);
        assert(p.subrange(0, 0) =~= Seq::<ExprModel>::empty());
        assert(p[0] == s[0]);
        assert(calls_list(p) == calls_list(p.subrange(0, 0)) + calls(p[0]));
        assert(calls_list(s) == calls_list(p) + calls(s[1]));
    }
}

pub proof fn lemma_optional_calls(o: Option<Box<ExprModel>>, vars: Map<u64, VariableModel>, temps: nat, aggs: Option<Seq<AggModel>>)
    ensures
        compile_optional(o, vars, temps, aggs).temporaries <= temps + calls_optional(o),
    decreases o, 0nat,
{
    match o {
        Some(x) => lemma_compile_calls(*x, vars, temps, aggs),
        None => {},
    }
}

pub proof fn lemma_list_calls(s: Seq<ExprModel>, vars: Map<u64, VariableModel>, temps: nat, aggs: Option<Seq<AggModel>>)
    ensures
        compile_list(s, vars, temps, aggs).temporaries <= temps + calls_list(s),
    decreases s, 0nat,
{
    if s.len() > 0 {
        let a = compile_list(s.subrange(0, s.len() - 1), vars, temps, aggs);
        lemma_list_calls(s.subrange(0, s.len() - 1), vars, temps, aggs);
        lemma_compile_calls(s[s.len() - 1], vars, a.temporaries, a.aggregations);
    }
}

pub proof fn lemma_entries_calls(s: Seq<(Seq<char>, ExprModel)>, vars: Map<u64, VariableModel>, temps: nat, aggs: Option<Seq<AggModel>>)
    ensures
        compile_entries(s, vars, temps, aggs).temporaries <= temps + calls_entries(s),
    decreases s, 0nat,
{
    if s.len() > 0 {
        let a = compile_entries(s.subrange(0, s.len() - 1), vars, temps, aggs);
        lemma_entries_calls(s.subrange(0, s.len() - 1), vars, temps, aggs);
        lemma_compile_calls(s[s.len() - 1].1, vars, a.temporaries, a.aggregations);
    }
}


/// Model of the matching of one pattern.
pub enum MatchModel {
    Node { code: Seq<InstrModel>, variable: Option<nat>, filter: Seq<InstrModel> },
    Edge {
        code: Seq<InstrModel>,
        left: Option<nat>,
        edge: Option<nat>,
        right: Option<nat>,
        path: Option<nat>,
        filter: Seq<InstrModel>,
        directivity: EdgeDirectivity,
    },
}

pub open spec fn view_block_match(b: BlockMatch) -> MatchModel {
    match b {
        BlockMatch::MatchNode { instructions, variable, filter } => MatchModel::Node {
            code: view_instructions(instructions@),
            variable: view_column(variable),
            filter: view_instructions(filter@),
        },
        BlockMatch::MatchEdge { instructions, left_variable, edge_variable, right_variable, path_variable, filter, directivity } => MatchModel::Edge {
            code: view_instructions(instructions@),
            left: view_column(left_variable),
            edge: view_column(edge_variable),
            right: view_column(right_variable),
            path: view_column(path_variable),
            filter: view_instructions(filter@),
            directivity,
        },
    }
}

/// State while matching patterns: the variables, the temporary columns, the columns of the
/// edges matched so far, the blocks compiled, and the error met, if any.
pub struct MatchRun {
    pub vars: Map<u64, VariableModel>,
    pub temps: nat,
    pub previous: Seq<nat>,
    pub blocks: Seq<MatchModel>,
    pub error: Option<ErrorKind>,
}

/// Matching an edge pattern, optionally named by a path variable.
pub open spec fn match_edge_step(path: Option<u64>, e: EdgePattern, r: MatchRun, single: bool) -> MatchRun {
    let vars = r.vars;
    let t = r.temps;
    let src = var_id(e.source.variable);
    let dst = var_id(e.destination.variable);
    match match_edge_error(path, e, vars, t) {
        Some(k) => MatchRun { error: Some(k), ..r },
        None => MatchRun {
            vars: match_edge_vars(path, e, vars),
            temps: if !single && var_id(e.variable) is None { t + 1 } else { t },
            previous: if single { r.previous } else { r.previous.push(match_edge_column(e, vars, t, single)->0) },
            blocks: r.blocks.push(MatchModel::Edge {
                code: endpoint_code(e.source, vars, t, "get_source"@) + endpoint_code(e.destination, vars, t, "get_destination"@)
                    + edge_part_code(e, vars, t),
                left: if is_set_in(vars, src) { None } else { column_of(vars, src) },
                edge: match_edge_column(e, vars, t, single),
                right: if is_set_in(vars, dst) { None } else { column_of(vars, dst) },
                path: column_of(vars, path),
                filter: endpoint_filter(e.source, vars, t, "get_source"@) + endpoint_filter(e.destination, vars, t, "get_destination"@)
                    + edge_part_filter(e, vars) + (if single { Seq::empty() } else { previous_filter(r.previous) }),
                directivity: e.directivity,
            }),
            error: None,
        },
    }
}

/// Matching one pattern.
pub open spec fn match_pattern_step(p: Pattern, r: MatchRun, single: bool) -> MatchRun {
    match p {
        Pattern::Node(n) => {
            let s = match_node_spec(n, r.vars, r.temps, None);
            let id = var_id(n.variable);
            if s.error is Some {
                MatchRun { error: s.error, ..r }
            } else if !known(r.vars, id) {
                MatchRun { error: Some(ErrorKind::UnknownVariable), ..r }
            } else {
                MatchRun {
                    vars: mark_set_spec(r.vars, id).0,
                    blocks: r.blocks.push(MatchModel::Node { code: s.code, variable: column_of(r.vars, id), filter: s.filter }),
                    error: None,
                    ..r
                }
            }
        },
        Pattern::Edge(e) => match_edge_step(None, e, r, single),
        Pattern::Path(pp) => match_edge_step(Some(pp.variable@.1), pp.edge, r, single),
    }
}

/// Matching patterns from first to last, up to the first error.
pub open spec fn match_run(ps: Seq<Pattern>, vars: Map<u64, VariableModel>, temps: nat, single: bool) -> MatchRun
    decreases ps.len(),
{
    if ps.len() == 0 {
        MatchRun { vars, temps, previous: Seq::empty(), blocks: Seq::empty(), error: None }
    } else {
        let a = match_run(ps.drop_last(), vars, temps, single);
        if a.error is Some { a } else { match_pattern_step(ps.last(), a, single) }
    }
}

/// Calls in optional properties.
pub open spec fn properties_calls(p: Option<Expression>) -> nat {
    match p {
        Some(e) => calls(e@),
        None => 0,
    }
}

/// Calls in the properties of an edge pattern and of its ends.
pub open spec fn edge_calls(e: EdgePattern) -> nat {
    properties_calls(e.source.properties) + properties_calls(e.destination.properties) + properties_calls(e.properties)
}

/// Calls in the properties of a pattern.
pub open spec fn pattern_calls(p: Pattern) -> nat {
    match p {
        Pattern::Node(n) => properties_calls(n.properties),
        Pattern::Edge(e) => edge_calls(e),
        Pattern::Path(pp) => edge_calls(pp.edge),
    }
}

/// Calls in the properties of patterns.
pub open spec fn patterns_calls(ps: Seq<Pattern>) -> nat
    decreases ps.len(),
{
    if ps.len() == 0 { 0 } else { patterns_calls(ps.drop_last()) + pattern_calls(ps.last()) }
}

/// Error of a `WHERE` expression: its analysis, an aggregation, or its compilation.
pub open spec fn where_error(w: Option<ExprModel>, vars: Map<u64, VariableModel>, temps: nat) -> Option<ErrorKind> {
    match w {
        None => None,
        Some(e) => match analyse_spec(e, types_of_variables(vars)) {
            Err(k) => Some(k),
            Ok(i) => if i.aggregation_result { Some(ErrorKind::InvalidAggregation) } else { compile_spec(e, vars, temps, None).error },
        },
    }
}

/// Code of a `WHERE` expression.
pub open spec fn where_code(w: Option<ExprModel>, vars: Map<u64, VariableModel>, temps: nat) -> Seq<InstrModel> {
    match w {
        None => Seq::empty(),
        Some(e) => compile_spec(e, vars, temps, None).code,
    }
}

/// Properties fit when the calls they hold fit.
pub proof fn lemma_fits_by_calls(e: ExprModel, vars: Map<u64, VariableModel>, temps: nat)
    requires
        temps + calls(e) + vars.len() <= usize::MAX,
    ensures
        fits(e, vars, temps),
{
    lemma_compile_calls(e, vars, temps, None);
}

impl Compiler {
    /// Compiles the pattern of a `MATCH` statement.
    fn compile_match_pattern(&mut self, p: &Pattern, single_match: bool, previous_edges: &mut Vec<usize>) -> (r: Result<BlockMatch, Error>)
        requires
            old(self).temporary_variables + 1 + pattern_calls(*p) + old(self).variables_manager@.len() <= usize::MAX,
        ensures
            ({
                let r0 = MatchRun {
                    vars: old(self).variables_manager@,
                    temps: old(self).temporary_variables as nat,
                    previous: view_previous(old(previous_edges)@),
                    blocks: Seq::empty(),
                    error: None,
                };
                let s = match_pattern_step(*p, r0, single_match);
                match s.error {
                    Some(k) => r matches Err(e) && kind_of(e) == k,
                    None => r matches Ok(b) && s.blocks == seq![view_block_match(b)]
                        && final(self).variables_manager@ == s.vars
                        && final(self).temporary_variables == s.temps
                        && view_previous(final(previous_edges)@) == s.previous,
                }
            }),
    {
        let ghost vars = self.variables_manager@;
        let ghost t = self.temporary_variables as nat;
        match p {
            Pattern::Node(node) => {
                proof {
                    match &node.properties {
                        Some(e) => {
                            lemma_fits_by_calls(e@, vars, t);
                            lemma_compile_without_aggregations(e@, vars, t);
                        },
                        None => {},
                    }
                }
                let mut instructions: Vec<Instruction> = Vec::new();
                let mut filter: Vec<Instruction> = Vec::new();
                match self.compile_match_node(node, &mut instructions, &mut filter, None) {
                    Ok(()) => {},
                    Err(e) => return Err(e),
                }
                assert(view_instructions(instructions@) =~= match_node_spec(*node, vars, t, None).code);
                assert(view_instructions(filter@) =~= match_node_spec(*node, vars, t, None).filter);
                proof { lemma_mark_set_columns(vars, var_id(node.variable)); }
                match self.variables_manager.mark_variables_as_set(node.variable.as_ref()) {
                    Ok(()) => {},
                    Err(e) => return Err(e),
                }
                let variable = match self.variables_manager.get_variable_index_option(&node.variable) {
                    Ok(c) => c,
                    Err(e) => return Err(e),
                };
                let b = BlockMatch::MatchNode { instructions, variable, filter };
                assert(seq![MatchModel::Node { code: match_node_spec(*node, vars, t, None).code, variable: column_of(vars, var_id(node.variable)), filter: match_node_spec(*node, vars, t, None).filter }] =~= seq![view_block_match(b)]);
                Ok(b)
            },
            Pattern::Edge(edge) => {
                proof {
                    match &edge.source.properties { Some(e) => lemma_fits_by_calls(e@, vars, t), None => {} }
                    match &edge.destination.properties { Some(e) => lemma_fits_by_calls(e@, vars, t), None => {} }
                    match &edge.properties { Some(e) => lemma_fits_by_calls(e@, vars, t), None => {} }
                }
                let b = self.compile_match_edge(None, edge, single_match, previous_edges);
                proof {
                    if b is Ok {
                        let x = b->Ok_0;
                        assert(Seq::<MatchModel>::empty().push(view_block_match(x)) =~= seq![view_block_match(x)]);
                    }
                }
                b
            },
            Pattern::Path(path) => {
                proof {
                    match &path.edge.source.properties { Some(e) => lemma_fits_by_calls(e@, vars, t), None => {} }
                    match &path.edge.destination.properties { Some(e) => lemma_fits_by_calls(e@, vars, t), None => {} }
                    match &path.edge.properties { Some(e) => lemma_fits_by_calls(e@, vars, t), None => {} }
                }
                let b = self.compile_match_edge(Some(path.variable.duplicate()), &path.edge, single_match, previous_edges);
                proof {
                    if b is Ok {
                        let x = b->Ok_0;
                        assert(Seq::<MatchModel>::empty().push(view_block_match(x)) =~= seq![view_block_match(x)]);
                    }
                }
                b
            },
        }
    }
}


/// The calls of each pattern are among those of all the patterns.
pub proof fn lemma_patterns_calls(ps: Seq<Pattern>, i: int)
    requires
        0 <= i < ps.len(),
    ensures
        pattern_calls(ps[i]) <= patterns_calls(ps),
    decreases ps.len(),
{
    if i < ps.len() - 1 {
        lemma_patterns_calls(ps.drop_last(), i);
    }
}

/// Matching a pattern keeps the variables known and takes at most one temporary column.
pub proof fn lemma_match_step(p: Pattern, r: MatchRun, single: bool)
    requires
        r.vars.dom().finite(),
    ensures
        match_pattern_step(p, r, single).error is None ==> match_pattern_step(p, r, single).vars.dom() == r.vars.dom()
            && match_pattern_step(p, r, single).temps <= r.temps + 1
            && match_pattern_step(p, r, single).temps >= r.temps,
{
    let (path, e) = match p {
        Pattern::Node(n) => (None, EdgePattern { variable: None, source: n, destination: n, directivity: EdgeDirectivity::Directed, labels: n.labels, properties: None }),
        Pattern::Edge(e) => (None, e),
        Pattern::Path(pp) => (Some(pp.variable@.1), pp.edge),
    };
    match p {
        Pattern::Node(n) => {
            lemma_mark_set_columns(r.vars, var_id(n.variable));
        },
        _ => {
            let m0 = r.vars;
            lemma_mark_set_columns(m0, var_id(e.source.variable));
            let m1 = mark_set_spec(m0, var_id(e.source.variable)).0;
            lemma_mark_set_columns(m1, var_id(e.destination.variable));
            let m2 = mark_set_spec(m1, var_id(e.destination.variable)).0;
            lemma_mark_set_columns(m2, var_id(e.variable));
            let m3 = mark_set_spec(m2, var_id(e.variable)).0;
            lemma_mark_set_columns(m3, path);
        },
    }
}

/// Matching a pattern appends its block to those before it, whatever they are.
pub proof fn lemma_step_blocks(p: Pattern, r: MatchRun, single: bool)
    ensures
        ({
            let e = match_pattern_step(p, MatchRun { blocks: Seq::empty(), ..r }, single);
            match_pattern_step(p, r, single) == MatchRun { blocks: if e.error is Some { r.blocks } else { r.blocks + e.blocks }, ..e }
        }),
{
    let r0 = MatchRun { blocks: Seq::empty(), ..r };
    let e = match_pattern_step(p, r0, single);
    let f = match_pattern_step(p, r, single);
    if e.error is None {
        assert(e.blocks.len() == 1);
        assert(r.blocks.push(e.blocks[0]) =~= r.blocks + e.blocks);
        assert(Seq::<MatchModel>::empty().push(e.blocks[0]) =~= e.blocks);
        assert(f.blocks == r.blocks.push(e.blocks[0]));
        assert(f.vars == e.vars && f.temps == e.temps && f.previous == e.previous && f.error == e.error);
    } else {
        match p {
            Pattern::Node(n) => {
                let sn = match_node_spec(n, r.vars, r.temps, None);
                assert(match_node_spec(n, r0.vars, r0.temps, None) == sn);
                if sn.error is Some {
                    assert(f == MatchRun { error: sn.error, ..r });
                } else {
                    assert(!known(r.vars, var_id(n.variable)));
                    assert(f == MatchRun { error: Some(ErrorKind::UnknownVariable), ..r });
                }
            },
            Pattern::Edge(x) => {
                assert(match_edge_error(None, x, r0.vars, r0.temps) == match_edge_error(None, x, r.vars, r.temps));
                assert(f.blocks == r.blocks);
            },
            Pattern::Path(pp) => {
                assert(match_edge_error(Some(pp.variable@.1), pp.edge, r0.vars, r0.temps) == match_edge_error(Some(pp.variable@.1), pp.edge, r.vars, r.temps));
                assert(f.blocks == r.blocks);
            },
        }
        assert(f.error == e.error);
        assert(f.blocks == r.blocks);
        assert(f.vars == e.vars && f.temps == e.temps && f.previous == e.previous);
    }
}

impl Compiler {
    /// Compiles a `WHERE` expression, which may not hold an aggregation.
    pub fn compile_where(&mut self, where_expression: &Option<Expression>) -> (r: Result<Vec<Instruction>, Error>)
        requires
            old(self).temporary_variables + properties_calls(*where_expression) + old(self).variables_manager@.len() <= usize::MAX,
        ensures
            final(self).variables_manager@ == old(self).variables_manager@,
            match where_error(optional_model(*where_expression), old(self).variables_manager@, old(self).temporary_variables as nat) {
                Some(k) => r matches Err(e) && kind_of(e) == k,
                None => r matches Ok(f)
                    && view_instructions(f@) == where_code(optional_model(*where_expression), old(self).variables_manager@, old(self).temporary_variables as nat)
                    && final(self).temporary_variables == old(self).temporary_variables,
            },
    {
        let mut filter: Vec<Instruction> = Vec::new();
        match where_expression {
            Some(w) => {
                let ei = {
                    let analyser = Analyser::new(&self.variables_manager, &self.function_manager);
                    match analyser.analyse(w) {
                        Ok(x) => x,
                        Err(e) => return Err(e),
                    }
                };
                if ei.aggregation_result {
                    return Err(Error::CompileTime(CompileTimeError::InvalidAggregation));
                }
                let mut aggregations: Option<Vec<(usize, RWAggregation)>> = None;
                proof {
                    lemma_fits_by_calls(w@, self.variables_manager@, self.temporary_variables as nat);
                    lemma_compile_without_aggregations(w@, self.variables_manager@, self.temporary_variables as nat);
                }
                match self.compile_expression(w, &mut filter, &mut aggregations) {
                    Ok(()) => {},
                    Err(e) => return Err(e),
                }
                assert(view_instructions(filter@) =~= where_code(optional_model(*where_expression), old(self).variables_manager@, old(self).temporary_variables as nat));
            },
            None => {
                assert(view_instructions(filter@) =~= Seq::<InstrModel>::empty());
            },
        }
        Ok(filter)
    }

    /// Compiles the patterns and the `WHERE` expression of a `MATCH` statement.
    #[verifier::rlimit(60)]
    #[verifier::spinoff_prover]
    pub fn compile_match_patterns(&mut self, patterns: &Vec<Pattern>, where_expression: &Option<Expression>, optional: bool) -> (r: Result<Block, Error>)
        requires
            old(self).temporary_variables + patterns@.len() + patterns_calls(patterns@) + properties_calls(*where_expression)
                + old(self).variables_manager@.len() <= usize::MAX,
        ensures
            ({
                let run = match_run(patterns@, old(self).variables_manager@, old(self).temporary_variables as nat, patterns@.len() == 1);
                match run.error {
                    Some(k) => r matches Err(e) && kind_of(e) == k,
                    None => match where_error(optional_model(*where_expression), run.vars, run.temps) {
                        Some(k) => r matches Err(e) && kind_of(e) == k,
                        None => r matches Ok(Block::Match { blocks, filter, optional: o, variables_size })
                            && blocks@.map_values(|b: BlockMatch| view_block_match(b)) == run.blocks
                            && view_instructions(filter@) == where_code(optional_model(*where_expression), run.vars, run.temps)
                            && o == optional
                            && variables_size.temporary_variables == run.temps
                            && variables_size.persistent_variables == run.vars.len()
                            && final(self).variables_manager@ == run.vars
                            && final(self).temporary_variables == run.temps,
                    },
                }
            }),
    {
        let ghost vars = self.variables_manager@;
        let ghost t = self.temporary_variables as nat;
        let ghost ps = patterns@;
        let is_single = patterns.len() == 1;
        let mut edge_variables: Vec<usize> = Vec::new();
        let mut blocks: Vec<BlockMatch> = Vec::new();
        let _ = self.variables_manager.variables_count();
        proof {
            assert(ps.take(0) =~= Seq::<Pattern>::empty());
            assert(view_previous(edge_variables@) =~= Seq::<nat>::empty());
            assert(blocks@.map_values(|b: BlockMatch| view_block_match(b)) =~= Seq::<MatchModel>::empty());
        }
        for i in 0..patterns.len()
            invariant
                ps == patterns@,
                vars == old(self).variables_manager@,
                t == old(self).temporary_variables as nat,
                vars.dom().finite(),
                is_single == (ps.len() == 1),
                t + ps.len() + patterns_calls(ps) + properties_calls(*where_expression) + vars.len() <= usize::MAX,
                match_run(ps.take(i as int), vars, t, is_single).error is None,
                self.variables_manager@ == match_run(ps.take(i as int), vars, t, is_single).vars,
                self.temporary_variables as nat == match_run(ps.take(i as int), vars, t, is_single).temps,
                view_previous(edge_variables@) == match_run(ps.take(i as int), vars, t, is_single).previous,
                blocks@.map_values(|b: BlockMatch| view_block_match(b)) == match_run(ps.take(i as int), vars, t, is_single).blocks,
                self.variables_manager@.dom() == vars.dom(),
                t <= self.temporary_variables <= t + i,
        {
            let ghost run = match_run(ps.take(i as int), vars, t, is_single);
            proof {
                assert(ps.take(i + 1).drop_last() =~= ps.take(i as int));
                assert(ps.take(i + 1).last() == ps[i as int]);
                lemma_patterns_calls(ps, i as int);
                lemma_match_step(ps[i as int], run, is_single);
                lemma_step_blocks(ps[i as int], run, is_single);
                assert(self.variables_manager@.len() == vars.len());
            }
            let ghost before = blocks@;
            let b = match self.compile_match_pattern(&patterns[i], is_single, &mut edge_variables) {
                Ok(b) => b,
                Err(e) => {
                    proof { lemma_match_run_err(ps, i + 1, vars, t, is_single); }
                    return Err(e);
                },
            };
            blocks.push(b);
            proof {
                assert(blocks@.map_values(|b: BlockMatch| view_block_match(b))
                    =~= before.map_values(|b: BlockMatch| view_block_match(b)).push(view_block_match(blocks@.last())));
            }
        }
        proof {
            assert(ps.take(ps.len() as int) =~= ps);
            assert(self.variables_manager@.len() == vars.len());
        }
        let filter = match self.compile_where(where_expression) {
            Ok(f) => f,
            Err(e) => return Err(e),
        };
        let variables_size = self.variables_size();
        Ok(Block::Match { blocks, filter, optional, variables_size })
    }
}

/// An error while matching a prefix of the patterns is the error of all the patterns.
pub proof fn lemma_match_run_err(ps: Seq<Pattern>, j: int, vars: Map<u64, VariableModel>, temps: nat, single: bool)
    requires
        0 <= j <= ps.len(),
        match_run(ps.take(j), vars, temps, single).error is Some,
    ensures
        match_run(ps, vars, temps, single) == match_run(ps.take(j), vars, temps, single),
    decreases ps.len() - j,
{
    if j < ps.len() {
        assert(ps.take(j + 1).drop_last() =~= ps.take(j));
        lemma_match_run_err(ps, j + 1, vars, temps, single);
    } else {
        assert(ps.take(j) =~= ps);
    }
}


/// Compiling the source of the edge of a `CREATE` pattern: an existing node, or a new one.
pub open spec fn create_source_spec(e: EdgePattern, vars: Map<u64, VariableModel>, t: nat) -> Step {
    let src = var_id(e.source.variable);
    let start = Step { vars, code: Seq::empty(), filter: Seq::empty(), columns: Seq::empty(), temporaries: t, error: None };
    if !known(vars, src) {
        Step { error: Some(ErrorKind::UnknownVariable), ..start }
    } else if is_set_in(vars, src) {
        Step { code: seq![InstrModel::GetVariable(vars[src->0].col_id)], ..start }
    } else {
        let n = create_node_spec(e.source, vars, t);
        if n.error is Some { n } else { Step { code: n.code.push(InstrModel::Duplicate), ..n } }
    }
}

/// Compiling the destination of the edge of a `CREATE` pattern, after its source: the source
/// again, an existing node, or a new one.
pub open spec fn create_destination_spec(e: EdgePattern, s1: Step) -> Step {
    let src = var_id(e.source.variable);
    let dst = var_id(e.destination.variable);
    if src is Some && dst is Some && src == dst {
        Step { code: s1.code.push(InstrModel::Duplicate), ..s1 }
    } else if !known(s1.vars, dst) {
        Step { error: Some(ErrorKind::UnknownVariable), ..s1 }
    } else if is_set_in(s1.vars, dst) {
        Step { code: s1.code.push(InstrModel::GetVariable(s1.vars[dst->0].col_id)), ..s1 }
    } else {
        let n = create_node_spec(e.destination, s1.vars, s1.temporaries);
        Step {
            vars: n.vars,
            code: s1.code + (if n.error is Some { n.code } else { n.code + seq![InstrModel::Duplicate, InstrModel::Rot3] }),
            filter: Seq::empty(),
            columns: s1.columns + n.columns,
            temporaries: n.temporaries,
            error: n.error,
        }
    }
}

/// Compiling the edge itself of a `CREATE` pattern, after its ends: its column, its properties
/// and its single label.
pub open spec fn create_edge_itself_spec(e: EdgePattern, s2: Step) -> Step {
    let id = var_id(e.variable);
    if !known(s2.vars, id) {
        Step { error: Some(ErrorKind::UnknownVariable), ..s2 }
    } else {
        let vars3 = mark_set_spec(s2.vars, id).0;
        let columns3 = s2.columns.push(column_of(s2.vars, id));
        let p = optional_code(view_properties(e.properties), vars3, s2.temporaries);
        let s3 = Step { vars: vars3, code: s2.code + p.code, filter: Seq::empty(), columns: columns3, temporaries: p.temporaries, error: p.error };
        if p.error is Some {
            s3
        } else if !(e.labels@ is Label) {
            Step { error: Some(ErrorKind::NoSingleRelationshipType), ..s3 }
        } else {
            Step { code: s3.code.push(InstrModel::CreateEdgeLiteral(create_labels(e.labels@).0)), ..s3 }
        }
    }
}

/// Compiling the edge of a `CREATE` pattern: its source, its destination, then the edge itself.
pub open spec fn create_edge_spec(e: EdgePattern, vars: Map<u64, VariableModel>, t: nat) -> Step {
    let s1 = create_source_spec(e, vars, t);
    if s1.error is Some {
        s1
    } else {
        let s2 = create_destination_spec(e, s1);
        if s2.error is Some { s2 } else { create_edge_itself_spec(e, s2) }
    }
}

/// Compiling one pattern of a `CREATE` statement; paths cannot be created.
pub open spec fn create_pattern_spec(p: Pattern, vars: Map<u64, VariableModel>, t: nat) -> Step {
    match p {
        Pattern::Node(n) => create_node_spec(n, vars, t),
        Pattern::Edge(e) => create_edge_spec(e, vars, t),
        Pattern::Path(_) => Step { vars, code: Seq::empty(), filter: Seq::empty(), columns: Seq::empty(), temporaries: t, error: Some(ErrorKind::PathPatternInCreateExpression) },
    }
}

/// State while compiling the patterns of a `CREATE` statement.
pub struct CreateRun {
    pub vars: Map<u64, VariableModel>,
    pub temps: nat,
    pub actions: Seq<(Seq<InstrModel>, Seq<Option<nat>>)>,
    pub error: Option<ErrorKind>,
}

/// Compiling the patterns of a `CREATE` statement, from first to last, up to the first error.
pub open spec fn create_run(ps: Seq<Pattern>, vars: Map<u64, VariableModel>, t: nat) -> CreateRun
    decreases ps.len(),
{
    if ps.len() == 0 {
        CreateRun { vars, temps: t, actions: Seq::empty(), error: None }
    } else {
        let a = create_run(ps.drop_last(), vars, t);
        if a.error is Some {
            a
        } else {
            let s = create_pattern_spec(ps.last(), a.vars, a.temps);
            if s.error is Some {
                CreateRun { vars: s.vars, temps: s.temporaries, actions: a.actions, error: s.error }
            } else {
                CreateRun { vars: s.vars, temps: s.temporaries, actions: a.actions.push((s.code, s.columns)), error: None }
            }
        }
    }
}

/// Creating a node keeps the variables known; when it succeeds it takes no temporary column.
pub proof fn lemma_create_node_step(n: NodePattern, vars: Map<u64, VariableModel>, t: nat)
    ensures
        create_node_spec(n, vars, t).vars.dom() == vars.dom(),
        create_node_spec(n, vars, t).temporaries <= t + properties_calls(n.properties),
        create_node_spec(n, vars, t).error is None ==> create_node_spec(n, vars, t).temporaries == t,
{
    lemma_mark_set_columns(vars, var_id(n.variable));
    let vars1 = mark_set_spec(vars, var_id(n.variable)).0;
    match n.properties {
        Some(e) => {
            lemma_compile_calls(e@, vars1, t, None);
            lemma_compile_without_aggregations(e@, vars1, t);
        },
        None => {},
    }
}

/// Creating an edge keeps the variables known; when it succeeds it takes no temporary column.
pub proof fn lemma_create_edge_step(e: EdgePattern, vars: Map<u64, VariableModel>, t: nat)
    ensures
        create_edge_spec(e, vars, t).vars.dom() == vars.dom(),
        create_edge_spec(e, vars, t).temporaries <= t + edge_calls(e),
        create_edge_spec(e, vars, t).error is None ==> create_edge_spec(e, vars, t).temporaries == t,
{
    lemma_create_node_step(e.source, vars, t);
    let s1 = create_source_spec(e, vars, t);
    lemma_create_node_step(e.destination, s1.vars, s1.temporaries);
    let s2 = create_destination_spec(e, s1);
    let id = var_id(e.variable);
    lemma_mark_set_columns(s2.vars, id);
    match e.properties {
        Some(x) => {
            let vars3 = mark_set_spec(s2.vars, id).0;
            lemma_compile_calls(x@, vars3, s2.temporaries, None);
            lemma_compile_without_aggregations(x@, vars3, s2.temporaries);
        },
        None => {},
    }
}

impl Compiler {
    /// Compiles the source of the edge of a `CREATE` pattern.
    fn compile_create_source(&mut self, edge: &EdgePattern, instructions: &mut Vec<Instruction>, variables: &mut Vec<Option<usize>>) -> (r: Result<(), Error>)
        requires
            old(self).temporary_variables + properties_calls(edge.source.properties) + old(self).variables_manager@.len() <= usize::MAX,
        ensures
            ({
                let out = create_source_spec(*edge, old(self).variables_manager@, old(self).temporary_variables as nat);
                final(self).variables_manager@ == out.vars
                    && view_instructions(final(instructions)@) == view_instructions(old(instructions)@) + out.code
                    && view_columns(final(variables)@) == view_columns(old(variables)@) + out.columns
                    && final(self).temporary_variables == out.temporaries
                    && outcome_matches(r, out.error)
            }),
    {
        let ghost c0 = view_instructions(instructions@);
        let ghost v0 = view_columns(variables@);
        let ghost vars = self.variables_manager@;
        let ghost t = self.temporary_variables as nat;
        proof {
            assert(c0 + Seq::<InstrModel>::empty() =~= c0);
            assert(v0 + Seq::<Option<nat>>::empty() =~= v0);
            lemma_create_node_step(edge.source, vars, t);
        }
        let source_set = match self.variables_manager.is_set_variable(&edge.source.variable) {
            Ok(b) => b,
            Err(e) => return Err(e),
        };
        if source_set {
            match &edge.source.variable {
                Some(id) => {
                    let col = match self.variables_manager.get_variable_index(id) {
                        Ok(c) => c,
                        Err(e) => return Err(e),
                    };
                    emit(instructions, Instruction::GetVariable { col_id: col });
                    proof { lemma_code_push(c0, Seq::empty(), InstrModel::GetVariable(col as nat)); }
                },
                None => {},
            }
        } else {
            let ghost n = create_node_spec(edge.source, vars, t);
            match self.compile_create_node(&edge.source, instructions, variables) {
                Ok(()) => {},
                Err(e) => return Err(e),
            }
            emit(instructions, Instruction::Duplicate);
            proof { lemma_code_push(c0, n.code, InstrModel::Duplicate); }
        }
        Ok(())
    }

    /// Compiles the destination of the edge of a `CREATE` pattern, after its source.
    fn compile_create_destination(&mut self, edge: &EdgePattern, instructions: &mut Vec<Instruction>, variables: &mut Vec<Option<usize>>, s1: Ghost<Step>) -> (r: Result<(), Error>)
        requires
            old(self).temporary_variables + properties_calls(edge.destination.properties) + old(self).variables_manager@.len() <= usize::MAX,
            old(self).variables_manager@ == s1@.vars,
            old(self).temporary_variables == s1@.temporaries,
            s1@.error is None,
            view_columns(old(variables)@) == s1@.columns,
            view_instructions(old(instructions)@) == s1@.code,
        ensures
            ({
                let out = create_destination_spec(*edge, s1@);
                final(self).variables_manager@ == out.vars
                    && view_instructions(final(instructions)@) == out.code
                    && view_columns(final(variables)@) == out.columns
                    && final(self).temporary_variables == out.temporaries
                    && outcome_matches(r, out.error)
            }),
    {
        let ghost vars1 = self.variables_manager@;
        let ghost t1 = self.temporary_variables as nat;
        let ghost c1 = view_instructions(instructions@);
        proof { lemma_create_node_step(edge.destination, vars1, t1); }
        let same = match (&edge.source.variable, &edge.destination.variable) {
            (Some(a), Some(b)) => a.same_as(b),
            _ => false,
        };
        proof {
            assert(same == (var_id(edge.source.variable) is Some && var_id(edge.destination.variable) is Some
                && var_id(edge.source.variable) == var_id(edge.destination.variable)));
        }
        if same {
            emit(instructions, Instruction::Duplicate);
            return Ok(());
        }
        let destination_set = match self.variables_manager.is_set_variable(&edge.destination.variable) {
            Ok(b) => b,
            Err(e) => return Err(e),
        };
        if destination_set {
            match &edge.destination.variable {
                Some(id) => {
                    let col = match self.variables_manager.get_variable_index(id) {
                        Ok(c) => c,
                        Err(e) => return Err(e),
                    };
                    emit(instructions, Instruction::GetVariable { col_id: col });
                },
                None => {},
            }
            Ok(())
        } else {
            let ghost n = create_node_spec(edge.destination, vars1, t1);
            let res = self.compile_create_node(&edge.destination, instructions, variables);
            match res {
                Ok(()) => {},
                Err(e) => return Err(e),
            }
            emit(instructions, Instruction::Duplicate);
            emit(instructions, Instruction::Rot3);
            proof {
                assert(view_instructions(instructions@) =~= c1 + (n.code + seq![InstrModel::Duplicate, InstrModel::Rot3]));
            }
            Ok(())
        }
    }

    /// Compiles the edge itself of a `CREATE` pattern, after its ends.
    fn compile_create_edge_itself(&mut self, edge: &EdgePattern, instructions: &mut Vec<Instruction>, variables: &mut Vec<Option<usize>>, s2: Ghost<Step>) -> (r: Result<(), Error>)
        requires
            old(self).temporary_variables + properties_calls(edge.properties) + old(self).variables_manager@.len() <= usize::MAX,
            old(self).variables_manager@ == s2@.vars,
            old(self).temporary_variables == s2@.temporaries,
            s2@.error is None,
            view_columns(old(variables)@) == s2@.columns,
            view_instructions(old(instructions)@) == s2@.code,
        ensures
            ({
                let out = create_edge_itself_spec(*edge, s2@);
                final(self).variables_manager@ == out.vars
                    && view_instructions(final(instructions)@) == out.code
                    && view_columns(final(variables)@) == out.columns
                    && final(self).temporary_variables == out.temporaries
                    && outcome_matches(r, out.error)
            }),
    {
        let ghost vars2 = self.variables_manager@;
        let ghost t2 = self.temporary_variables as nat;
        let ghost c2 = view_instructions(instructions@);
        let ghost v2 = view_columns(variables@);
        let col = match self.variables_manager.get_variable_index_option(&edge.variable) {
            Ok(c) => c,
            Err(e) => return Err(e),
        };
        variables.push(col);
        assert(view_columns(variables@) =~= v2.push(column_of(vars2, var_id(edge.variable))));
        proof { lemma_mark_set_columns(vars2, var_id(edge.variable)); }
        match self.variables_manager.mark_variables_as_set(edge.variable.as_ref()) {
            Ok(()) => {},
            Err(e) => return Err(e),
        }
        let ghost vars3 = self.variables_manager@;
        let ghost p = optional_code(view_properties(edge.properties), vars3, t2);
        proof {
            match &edge.properties {
                Some(x) => lemma_compile_calls(x@, vars3, t2, None),
                None => {},
            }
        }
        match self.compile_optional_expression(&edge.properties, instructions) {
            Ok(()) => {},
            Err(e) => return Err(e),
        }
        if !edge.labels.is_string() {
            return Err(Error::CompileTime(CompileTimeError::NoSingleRelationshipType));
        }
        let mut labels: Vec<String> = Vec::new();
        match compile_labels_expression(&mut labels, &edge.labels) {
            Ok(()) => {},
            Err(e) => return Err(e),
        }
        assert(view_labels(labels@) =~= create_labels(edge.labels@).0);
        emit(instructions, Instruction::CreateEdgeLiteral { labels });
        proof { lemma_code_push(c2, p.code, InstrModel::CreateEdgeLiteral(create_labels(edge.labels@).0)); }
        Ok(())
    }

    /// Compiles the edge of a `CREATE` pattern: its source, its destination, then the edge.
    #[verifier::rlimit(60)]
    #[verifier::spinoff_prover]
    pub fn compile_create_edge(&mut self, edge: &EdgePattern, instructions: &mut Vec<Instruction>, variables: &mut Vec<Option<usize>>) -> (r: Result<(), Error>)
        requires
            old(self).temporary_variables + edge_calls(*edge) + old(self).variables_manager@.len() <= usize::MAX,
        ensures
            ({
                let out = create_edge_spec(*edge, old(self).variables_manager@, old(self).temporary_variables as nat);
                final(self).variables_manager@ == out.vars
                    && view_instructions(final(instructions)@) == view_instructions(old(instructions)@) + out.code
                    && view_columns(final(variables)@) == view_columns(old(variables)@) + out.columns
                    && final(self).temporary_variables == out.temporaries
                    && outcome_matches(r, out.error)
            }),
    {
        let ghost c0 = view_instructions(instructions@);
        let ghost v0 = view_columns(variables@);
        let ghost vars = self.variables_manager@;
        let ghost t = self.temporary_variables as nat;
        let ghost s1 = create_source_spec(*edge, vars, t);
        proof {
            lemma_create_node_step(edge.source, vars, t);
            lemma_create_node_step(edge.destination, s1.vars, s1.temporaries);
        }
        let _ = self.variables_manager.variables_count();
        match self.compile_create_source(edge, instructions, variables) {
            Ok(()) => {},
            Err(e) => return Err(e),
        }
        let ghost s1r = Step { code: c0 + s1.code, columns: v0 + s1.columns, ..s1 };
        let ghost s2r = create_destination_spec(*edge, s1r);
        let ghost s2 = create_destination_spec(*edge, s1);
        proof {
            assert(self.variables_manager@.len() == vars.len());
        }
        let res = self.compile_create_destination(edge, instructions, variables, Ghost(s1r));
        proof {
            assert(s2r.vars == s2.vars && s2r.temporaries == s2.temporaries && s2r.error == s2.error);
            assert(s2r.code =~= c0 + s2.code);
            assert(s2r.columns =~= v0 + s2.columns);
        }
        match res {
            Ok(()) => {},
            Err(e) => return Err(e),
        }
        proof {
            lemma_mark_set_columns(s2.vars, var_id(edge.variable));
        }
        let _ = self.variables_manager.variables_count();
        let ghost s3r = create_edge_itself_spec(*edge, s2r);
        let ghost s3 = create_edge_itself_spec(*edge, s2);
        let res = self.compile_create_edge_itself(edge, instructions, variables, Ghost(s2r));
        proof {
            assert(s3r.vars == s3.vars && s3r.temporaries == s3.temporaries && s3r.error == s3.error);
            assert(s3r.code =~= c0 + s3.code);
            assert(s3r.columns =~= v0 + s3.columns);
        }
        res
    }
}


/// Model of a creation action: its instructions and its columns.
pub open spec fn view_create_action(a: CreateAction) -> (Seq<InstrModel>, Seq<Option<nat>>) {
    (view_instructions(a.instructions@), view_columns(a.variables@))
}

/// Creating a pattern keeps the variables known; when it succeeds it takes no temporary column.
pub proof fn lemma_create_pattern_step(p: Pattern, vars: Map<u64, VariableModel>, t: nat)
    ensures
        create_pattern_spec(p, vars, t).error is None ==> create_pattern_spec(p, vars, t).vars.dom() == vars.dom()
            && create_pattern_spec(p, vars, t).temporaries == t,
        create_pattern_spec(p, vars, t).temporaries <= t + pattern_calls(p),
{
    match p {
        Pattern::Node(n) => lemma_create_node_step(n, vars, t),
        Pattern::Edge(e) => lemma_create_edge_step(e, vars, t),
        Pattern::Path(_) => {},
    }
}

/// An error while creating a prefix of the patterns is the error of all the patterns.
pub proof fn lemma_create_run_err(ps: Seq<Pattern>, j: int, vars: Map<u64, VariableModel>, t: nat)
    requires
        0 <= j <= ps.len(),
        create_run(ps.take(j), vars, t).error is Some,
    ensures
        create_run(ps, vars, t) == create_run(ps.take(j), vars, t),
    decreases ps.len() - j,
{
    if j < ps.len() {
        assert(ps.take(j + 1).drop_last() =~= ps.take(j));
        lemma_create_run_err(ps, j + 1, vars, t);
    } else {
        assert(ps.take(j) =~= ps);
    }
}

impl Compiler {
    /// Compiles one pattern of a `CREATE` statement into the action that creates it.
    pub fn compile_create_pattern(&mut self, pattern: &Pattern) -> (r: Result<CreateAction, Error>)
        requires
            old(self).temporary_variables + pattern_calls(*pattern) + old(self).variables_manager@.len() <= usize::MAX,
        ensures
            ({
                let out = create_pattern_spec(*pattern, old(self).variables_manager@, old(self).temporary_variables as nat);
                final(self).variables_manager@ == out.vars
                    && final(self).temporary_variables == out.temporaries
                    && match out.error {
                        Some(k) => r matches Err(e) && kind_of(e) == k,
                        None => r matches Ok(a) && view_create_action(a) == (out.code, out.columns),
                    }
            }),
    {
        let mut instructions: Vec<Instruction> = Vec::new();
        let mut variables: Vec<Option<usize>> = Vec::new();
        proof {
            assert(view_instructions(instructions@) =~= Seq::<InstrModel>::empty());
            assert(view_columns(variables@) =~= Seq::<Option<nat>>::empty());
            lemma_create_pattern_step(*pattern, self.variables_manager@, self.temporary_variables as nat);
        }
        let res = match pattern {
            Pattern::Node(node) => self.compile_create_node(node, &mut instructions, &mut variables),
            Pattern::Edge(edge) => self.compile_create_edge(edge, &mut instructions, &mut variables),
            Pattern::Path(_) => Err(Error::Internal(InternalError::PathPatternInCreateExpression { context: "compiler/compile_create_patterns" })),
        };
        match res {
            Ok(()) => {
                proof {
                    assert(view_instructions(instructions@) =~= Seq::<InstrModel>::empty() + view_instructions(instructions@));
                }
                Ok(CreateAction { instructions, variables })
            },
            Err(e) => Err(e),
        }
    }

    /// Compiles the patterns of a `CREATE` statement, from first to last.
    #[verifier::rlimit(40)]
    pub fn compile_create_patterns(&mut self, patterns: &Vec<Pattern>) -> (r: Result<Block, Error>)
        requires
            old(self).temporary_variables + patterns_calls(patterns@) + old(self).variables_manager@.len() <= usize::MAX,
        ensures
            ({
                let run = create_run(patterns@, old(self).variables_manager@, old(self).temporary_variables as nat);
                match run.error {
                    Some(k) => r matches Err(e) && kind_of(e) == k,
                    None => r matches Ok(Block::Create { actions, variables_size })
                        && actions@.map_values(|a: CreateAction| view_create_action(a)) == run.actions
                        && variables_size.temporary_variables == run.temps
                        && variables_size.persistent_variables == run.vars.len()
                        && final(self).variables_manager@ == run.vars
                        && final(self).temporary_variables == run.temps,
                }
            }),
    {
        let ghost vars = self.variables_manager@;
        let ghost t = self.temporary_variables as nat;
        let ghost ps = patterns@;
        let mut actions: Vec<CreateAction> = Vec::new();
        let _ = self.variables_manager.variables_count();
        proof {
            assert(ps.take(0) =~= Seq::<Pattern>::empty());
            assert(actions@.map_values(|a: CreateAction| view_create_action(a)) =~= Seq::<(Seq<InstrModel>, Seq<Option<nat>>)>::empty());
        }
        for i in 0..patterns.len()
            invariant
                ps == patterns@,
                vars == old(self).variables_manager@,
                t == old(self).temporary_variables as nat,
                vars.dom().finite(),
                t + patterns_calls(ps) + vars.len() <= usize::MAX,
                create_run(ps.take(i as int), vars, t).error is None,
                self.variables_manager@ == create_run(ps.take(i as int), vars, t).vars,
                self.temporary_variables as nat == create_run(ps.take(i as int), vars, t).temps,
                actions@.map_values(|a: CreateAction| view_create_action(a)) == create_run(ps.take(i as int), vars, t).actions,
                self.variables_manager@.dom() == vars.dom(),
                self.temporary_variables == t,
        {
            let ghost run = create_run(ps.take(i as int), vars, t);
            proof {
                assert(ps.take(i + 1).drop_last() =~= ps.take(i as int));
                assert(ps.take(i + 1).last() == ps[i as int]);
                lemma_patterns_calls(ps, i as int);
                lemma_create_pattern_step(ps[i as int], run.vars, run.temps);
                assert(self.variables_manager@.len() == vars.len());
            }
            let ghost before = actions@;
            let a = match self.compile_create_pattern(&patterns[i]) {
                Ok(a) => a,
                Err(e) => {
                    proof { lemma_create_run_err(ps, i + 1, vars, t); }
                    return Err(e);
                },
            };
            actions.push(a);
            proof {
                assert(actions@.map_values(|a: CreateAction| view_create_action(a))
                    =~= before.map_values(|a: CreateAction| view_create_action(a)).push(view_create_action(actions@.last())));
            }
        }
        proof {
            assert(ps.take(ps.len() as int) =~= ps);
            assert(self.variables_manager@.len() == vars.len());
        }
        let variables_size = self.variables_size();
        Ok(Block::Create { actions, variables_size })
    }
}


/// The arithmetic operator that a binary operator of the language names, if it names one.
pub open spec fn arithmetic_of(op: BinaryOperator) -> Option<ArithmeticOperator> {
    match op {
        BinaryOperator::Addition => Some(ArithmeticOperator::Addition),
        BinaryOperator::Subtraction => Some(ArithmeticOperator::Subtraction),
        BinaryOperator::Multiplication => Some(ArithmeticOperator::Multiplication),
        BinaryOperator::Division => Some(ArithmeticOperator::Division),
        BinaryOperator::Modulo => Some(ArithmeticOperator::Modulo),
        BinaryOperator::Exponent => Some(ArithmeticOperator::Exponent),
        _ => None,
    }
}

/// Compiling `l op r`, for an arithmetic operator, gives the code of `r`, then that of `l`, then
/// one instruction `i`; and `i`, run with the value `a` of `l` on top of the value `b` of `r`,
/// replaces them by `a op b` (or raises the error of `a op b`), whatever the stack below them.
pub proof fn lemma_compiled_arithmetic(
    op: BinaryOperator,
    l: ExprModel,
    r: ExprModel,
    vars: Map<u64, VariableModel>,
    temps: nat,
    aggs: Option<Seq<AggModel>>,
    i: Instruction,
    s: Seq<StackModel>,
    a: ValueModel,
    b: ValueModel,
    params: Map<Seq<char>, ValueModel>,
    row: Seq<ValueModel>,
)
    requires
        arithmetic_of(op) is Some,
        compile_spec(ExprModel::Binary(op, Box::new(l), Box::new(r)), vars, temps, aggs).error is None,
        compile_spec(ExprModel::Binary(op, Box::new(l), Box::new(r)), vars, temps, aggs).code.len() > 0,
        view_instruction(i) == compile_spec(ExprModel::Binary(op, Box::new(l), Box::new(r)), vars, temps, aggs).code.last(),
    ensures
        ({
            let cr = compile_spec(r, vars, temps, aggs);
            compile_spec(ExprModel::Binary(op, Box::new(l), Box::new(r)), vars, temps, aggs).code
                == cr.code + compile_spec(l, vars, cr.temporaries, cr.aggregations).code + seq![view_instruction(i)]
        }),
        step_spec(i, s.push(StackModel::Graph(b)).push(StackModel::Graph(a)), params, row) == match arithmetic_spec(arithmetic_of(op)->0, a, b) {
            Ok(v) => Ok::<Seq<StackModel>, ErrorKind>(s.push(StackModel::Graph(v))),
            Err(k) => Err::<Seq<StackModel>, ErrorKind>(k),
        },
{
    let e = ExprModel::Binary(op, Box::new(l), Box::new(r));
    let cr = compile_spec(r, vars, temps, aggs);
    assert(cr.error is None);
    let whole = compile_spec(e, vars, temps, aggs).code;
    assert(whole =~= cr.code + compile_spec(l, vars, cr.temporaries, cr.aggregations).code + seq![view_instruction(i)]);
    let st = s.push(StackModel::Graph(b)).push(StackModel::Graph(a));
    assert(st.take(st.len() - 2) =~= s);
}

/// Compiling `l op r`, for a logical operator, ends with one instruction `i`; and `i`, run with the
/// boolean `x` of `l` on top of the boolean `y` of `r`, replaces them by `x and y`, `x or y` or
/// `x xor y`, whatever the stack below them.
pub proof fn lemma_compiled_logic(
    op: BinaryOperator,
    l: ExprModel,
    r: ExprModel,
    vars: Map<u64, VariableModel>,
    temps: nat,
    aggs: Option<Seq<AggModel>>,
    i: Instruction,
    s: Seq<StackModel>,
    x: bool,
    y: bool,
    params: Map<Seq<char>, ValueModel>,
    row: Seq<ValueModel>,
)
    requires
        op is LogicalAnd || op is LogicalOr || op is LogicalXor,
        compile_spec(ExprModel::Binary(op, Box::new(l), Box::new(r)), vars, temps, aggs).error is None,
        compile_spec(ExprModel::Binary(op, Box::new(l), Box::new(r)), vars, temps, aggs).code.len() > 0,
        view_instruction(i) == compile_spec(ExprModel::Binary(op, Box::new(l), Box::new(r)), vars, temps, aggs).code.last(),
    ensures
        step_spec(i, s.push(StackModel::Graph(ValueModel::Boolean(y))).push(StackModel::Graph(ValueModel::Boolean(x))), params, row)
            == Ok::<Seq<StackModel>, ErrorKind>(s.push(StackModel::Graph(ValueModel::Boolean(match op {
                BinaryOperator::LogicalAnd => x && y,
                BinaryOperator::LogicalOr => x || y,
                _ => x != y,
            })))),
{
    let st = s.push(StackModel::Graph(ValueModel::Boolean(y))).push(StackModel::Graph(ValueModel::Boolean(x)));
    assert(st.take(st.len() - 2) =~= s);
}

/// Compiling `-e` or `NOT e` ends with one instruction `i`; run on the integer `n`, or the
/// boolean `b`, that `e` left on the stack, `i` replaces it by `-n`, or by `not b`.
pub proof fn lemma_compiled_negations(
    op: UnaryOperator,
    e: ExprModel,
    vars: Map<u64, VariableModel>,
    temps: nat,
    aggs: Option<Seq<AggModel>>,
    i: Instruction,
    s: Seq<StackModel>,
    n: i64,
    b: bool,
    params: Map<Seq<char>, ValueModel>,
    row: Seq<ValueModel>,
)
    requires
        op is Negation || op is LogicalNegation,
        compile_spec(ExprModel::Unary(op, Box::new(e)), vars, temps, aggs).error is None,
        compile_spec(ExprModel::Unary(op, Box::new(e)), vars, temps, aggs).code.len() > 0,
        view_instruction(i) == compile_spec(ExprModel::Unary(op, Box::new(e)), vars, temps, aggs).code.last(),
        n != i64::MIN,
    ensures
        op is Negation ==> step_spec(i, s.push(StackModel::Graph(ValueModel::Integer(n))), params, row)
            == Ok::<Seq<StackModel>, ErrorKind>(s.push(StackModel::Graph(ValueModel::Integer((-n) as i64)))),
        op is LogicalNegation ==> step_spec(i, s.push(StackModel::Graph(ValueModel::Boolean(b))), params, row)
            == Ok::<Seq<StackModel>, ErrorKind>(s.push(StackModel::Graph(ValueModel::Boolean(!b)))),
{
    assert(s.push(StackModel::Graph(ValueModel::Integer(n))).drop_last() =~= s);
    assert(s.push(StackModel::Graph(ValueModel::Boolean(b))).drop_last() =~= s);
}

/// A single label gives a created node or edge exactly that label.
pub proof fn lemma_create_single_label(l: Seq<char>)
    ensures
        create_labels(LabelModel::Label(l)) == (seq![l], true),
{
}

/// A conjunction of single labels gives a created node or edge those labels, in the order in
/// which they are written.
pub proof fn lemma_create_conjunction_of_labels(v: Seq<LabelModel>)
    requires
        forall|j: int| 0 <= j < v.len() ==> v[j] is Label,
    ensures
        create_labels(LabelModel::And(v)).1,
        create_labels(LabelModel::And(v)).0 == v.map_values(|x: LabelModel| x->Label_0),
    decreases v.len(),
{
    if v.len() > 0 {
        let w = v.subrange(0, v.len() - 1);
        assert(forall|j: int| 0 <= j < w.len() ==> w[j] == v[j]);
        lemma_create_conjunction_of_labels(w);
        assert(create_labels(LabelModel::And(v)) == create_labels_list(v));
        assert(create_labels_list(v.subrange(0, v.len() - 1)) == create_labels(LabelModel::And(w)));
        assert(create_labels(v[v.len() - 1]) == (seq![v[v.len() - 1]->Label_0], true));
        assert(v.map_values(|x: LabelModel| x->Label_0) =~= w.map_values(|x: LabelModel| x->Label_0) + seq![v[v.len() - 1]->Label_0]);
    } else {
        assert(create_labels(LabelModel::And(v)) == create_labels_list(v));
        assert(v.map_values(|x: LabelModel| x->Label_0) =~= Seq::<Seq<char>>::empty());
    }
}

/// A conjunction whose parts are all accepted gives a created node or edge the labels of its
/// parts, one part after the other.
pub proof fn lemma_create_conjunction_concatenates(v: Seq<LabelModel>)
    requires
        forall|j: int| 0 <= j < v.len() ==> (#[trigger] create_labels(v[j])).1,
    ensures
        create_labels(LabelModel::And(v)).1,
        create_labels(LabelModel::And(v)).0 == v.map_values(|x: LabelModel| create_labels(x).0).flatten(),
    decreases v.len(),
{
    let parts = v.map_values(|x: LabelModel| create_labels(x).0);
    parts.lemma_flatten_and_flatten_alt_are_equivalent();
    if v.len() > 0 {
        let w = v.subrange(0, v.len() - 1);
        assert(forall|j: int| 0 <= j < w.len() ==> w[j] == v[j]);
        lemma_create_conjunction_concatenates(w);
        let wp = w.map_values(|x: LabelModel| create_labels(x).0);
        wp.lemma_flatten_and_flatten_alt_are_equivalent();
        assert(parts.drop_last() =~= wp);
        assert(create_labels(v[v.len() - 1]).1);
    } else {
        assert(parts =~= Seq::<Seq<Seq<char>>>::empty());
    }
}

/// A created node whose pattern carries a single label, and whose compilation succeeds, is made
/// by a node literal with exactly that label.
pub proof fn lemma_created_node_label(n: NodePattern, vars: Map<u64, VariableModel>, temps: nat, l: Seq<char>)
    requires
        n.labels@ == LabelModel::Label(l),
        create_node_spec(n, vars, temps).error is None,
    ensures
        create_node_spec(n, vars, temps).code.len() > 0,
        create_node_spec(n, vars, temps).code.last() == InstrModel::CreateNodeLiteral(seq![l]),
{
}

} // verus!
