use vstd::prelude::*;
use crate::patterns::EdgeDirectivity;
use crate::value::{view_labels, Value, ValueModel};

verus! {

/// One instruction of the stack machine that evaluates expressions.
#[derive(Debug)]
pub enum Instruction {
    CreateNodeLiteral { labels: Vec<String> },
    CreateEdgeLiteral { labels: Vec<String> },
    CreateNodeQuery { labels: Vec<String> },
    CreateEdgeQuery { labels: Vec<String> },
    /// Call of the function registered under `function`.
    FunctionCall { function: String, arguments_count: usize },
    Push { value: Value },
    GetVariable { col_id: usize },
    GetParameter { name: String },
    CreateArray { length: usize },
    CreateMap { keys: Vec<String> },
    IndexAccess,
    RangeAccess { start: bool, end: bool },
    MemberAccess { path: Vec<String> },
    Duplicate,
    /// If a is the top of the stack, then a b c -> b c a
    Rot3,
    /// If a is the top of the stack, then a b c -> c a b
    InverseRot3,
    Swap,
    AndBinaryOperator,
    OrBinaryOperator,
    XorBinaryOperator,
    NegationUnaryOperator,
    NotUnaryOperator,
    IsNullUnaryOperator,
    EqualBinaryOperator,
    NotEqualBinaryOperator,
    InferiorBinaryOperator,
    SuperiorBinaryOperator,
    InferiorEqualBinaryOperator,
    SuperiorEqualBinaryOperator,
    InBinaryOperator,
    NotInBinaryOperator,
    AdditionBinaryOperator,
    SubtractionBinaryOperator,
    MultiplicationBinaryOperator,
    DivisionBinaryOperator,
    ModuloBinaryOperator,
    ExponentBinaryOperator,
}

/// Mathematical model of an instruction.
pub enum InstrModel {
    CreateNodeLiteral(Seq<Seq<char>>),
    CreateEdgeLiteral(Seq<Seq<char>>),
    CreateNodeQuery(Seq<Seq<char>>),
    CreateEdgeQuery(Seq<Seq<char>>),
    FunctionCall(Seq<char>, nat),
    Push(ValueModel),
    GetVariable(nat),
    GetParameter(Seq<char>),
    CreateArray(nat),
    CreateMap(Seq<Seq<char>>),
    IndexAccess,
    RangeAccess(bool, bool),
    MemberAccess(Seq<Seq<char>>),
    Duplicate,
    Rot3,
    InverseRot3,
    Swap,
    And,
    Or,
    Xor,
    Negation,
    Not,
    IsNull,
    Equal,
    NotEqual,
    Inferior,
    Superior,
    InferiorEqual,
    SuperiorEqual,
    In,
    NotIn,
    Addition,
    Subtraction,
    Multiplication,
    Division,
    Modulo,
    Exponent,
}

/// Model of an instruction.
pub open spec fn view_instruction(i: Instruction) -> InstrModel {
    match i {
        Instruction::CreateNodeLiteral { labels } => InstrModel::CreateNodeLiteral(view_labels(labels@)),
        Instruction::CreateEdgeLiteral { labels } => InstrModel::CreateEdgeLiteral(view_labels(labels@)),
        Instruction::CreateNodeQuery { labels } => InstrModel::CreateNodeQuery(view_labels(labels@)),
        Instruction::CreateEdgeQuery { labels } => InstrModel::CreateEdgeQuery(view_labels(labels@)),
        Instruction::FunctionCall { function, arguments_count } => InstrModel::FunctionCall(function@, arguments_count as nat),
        Instruction::Push { value } => InstrModel::Push(value@),
        Instruction::GetVariable { col_id } => InstrModel::GetVariable(col_id as nat),
        Instruction::GetParameter { name } => InstrModel::GetParameter(name@),
        Instruction::CreateArray { length } => InstrModel::CreateArray(length as nat),
        Instruction::CreateMap { keys } => InstrModel::CreateMap(view_labels(keys@)),
        Instruction::IndexAccess => InstrModel::IndexAccess,
        Instruction::RangeAccess { start, end } => InstrModel::RangeAccess(start, end),
        Instruction::MemberAccess { path } => InstrModel::MemberAccess(view_labels(path@)),
        Instruction::Duplicate => InstrModel::Duplicate,
        Instruction::Rot3 => InstrModel::Rot3,
        Instruction::InverseRot3 => InstrModel::InverseRot3,
        Instruction::Swap => InstrModel::Swap,
        Instruction::AndBinaryOperator => InstrModel::And,
        Instruction::OrBinaryOperator => InstrModel::Or,
        Instruction::XorBinaryOperator => InstrModel::Xor,
        Instruction::NegationUnaryOperator => InstrModel::Negation,
        Instruction::NotUnaryOperator => InstrModel::Not,
        Instruction::IsNullUnaryOperator => InstrModel::IsNull,
        Instruction::EqualBinaryOperator => InstrModel::Equal,
        Instruction::NotEqualBinaryOperator => InstrModel::NotEqual,
        Instruction::InferiorBinaryOperator => InstrModel::Inferior,
        Instruction::SuperiorBinaryOperator => InstrModel::Superior,
        Instruction::InferiorEqualBinaryOperator => InstrModel::InferiorEqual,
        Instruction::SuperiorEqualBinaryOperator => InstrModel::SuperiorEqual,
        Instruction::InBinaryOperator => InstrModel::In,
        Instruction::NotInBinaryOperator => InstrModel::NotIn,
        Instruction::AdditionBinaryOperator => InstrModel::Addition,
        Instruction::SubtractionBinaryOperator => InstrModel::Subtraction,
        Instruction::MultiplicationBinaryOperator => InstrModel::Multiplication,
        Instruction::DivisionBinaryOperator => InstrModel::Division,
        Instruction::ModuloBinaryOperator => InstrModel::Modulo,
        Instruction::ExponentBinaryOperator => InstrModel::Exponent,
    }
}

/// Model of a sequence of instructions.
pub open spec fn view_instructions(s: Seq<Instruction>) -> Seq<InstrModel> {
    s.map_values(|i: Instruction| view_instruction(i))
}

/// Number of columns used by a block of a program.
#[derive(Debug)]
pub struct VariablesSizes {
    /// How many variables are persistent, after the block has been executed.
    pub persistent_variables: usize,
    /// How many temporary variables are used by the block.
    pub temporary_variables: usize,
}

impl VariablesSizes {
    /// Total number of columns, persistent and temporary.
    pub fn total_size(&self) -> (r: usize)
        requires
            self.temporary_variables + self.persistent_variables <= usize::MAX,
        ensures
            r == self.temporary_variables + self.persistent_variables,
    {
        self.temporary_variables + self.persistent_variables
    }
}


/// Creation of one pattern: the instructions that build it, and the columns that receive the
/// nodes and edges created.
#[derive(Debug)]
pub struct CreateAction {
    pub instructions: Vec<Instruction>,
    pub variables: Vec<Option<usize>>,
}

/// Matching of one pattern.
#[derive(Debug)]
pub enum BlockMatch {
    MatchNode {
        instructions: Vec<Instruction>,
        variable: Option<usize>,
        filter: Vec<Instruction>,
    },
    MatchEdge {
        instructions: Vec<Instruction>,
        left_variable: Option<usize>,
        edge_variable: Option<usize>,
        right_variable: Option<usize>,
        path_variable: Option<usize>,
        filter: Vec<Instruction>,
        directivity: EdgeDirectivity,
    },
}

/// An `ORDER BY` criterion.
#[derive(Debug)]
pub struct OrderBy {
    pub asc: bool,
    pub instructions: Vec<Instruction>,
}

/// `LIMIT`, `SKIP` and `ORDER BY` of a `RETURN` or `WITH` block.
#[derive(Debug)]
pub struct Modifiers {
    pub limit: Option<Vec<Instruction>>,
    pub skip: Option<Vec<Instruction>>,
    pub order_by: Vec<OrderBy>,
}


/// An aggregation computed by a `RETURN` or `WITH` block.
#[derive(Debug)]
pub struct RWAggregation {
    /// Computes the initial argument of the aggregator, if it takes one.
    pub init_instructions: Vec<Instruction>,
    /// Computes the value aggregated on each row.
    pub argument_instructions: Vec<Instruction>,
    /// Name of the aggregator, in lower case.
    pub aggregator: String,
}

/// An expression computed by a `RETURN` or `WITH` block.
#[derive(Debug)]
pub struct RWExpression {
    /// Column that receives the value.
    pub col_id: usize,
    /// Instructions that compute the value.
    pub instructions: Vec<Instruction>,
    /// Aggregations used by the expression, with the columns of their results.
    pub aggregations: Vec<(usize, RWAggregation)>,
}

/// Update of one node or edge.
#[derive(Debug)]
pub enum UpdateOne {
    SetProperty { target: usize, path: Vec<String>, instructions: Vec<Instruction> },
    AddProperty { target: usize, path: Vec<String>, instructions: Vec<Instruction> },
    RemoveProperty { target: usize, path: Vec<String> },
    AddLabels { target: usize, labels: Vec<String> },
    RemoveLabels { target: usize, labels: Vec<String> },
}

/// A block of a program: the compiled form of one statement.
#[derive(Debug)]
pub enum Block {
    CreateGraph { name: String },
    DropGraph { name: String, if_exists: bool },
    UseGraph { name: String },
    Create { actions: Vec<CreateAction>, variables_size: VariablesSizes },
    Match { blocks: Vec<BlockMatch>, filter: Vec<Instruction>, optional: bool, variables_size: VariablesSizes },
    Return { variables: Vec<(String, RWExpression)>, filter: Vec<Instruction>, modifiers: Modifiers, variables_size: VariablesSizes },
    Call { arguments: Vec<Instruction>, name: String },
    With { variables: Vec<RWExpression>, filter: Vec<Instruction>, modifiers: Modifiers, variables_size: VariablesSizes },
    Unwind { col_id: usize, instructions: Vec<Instruction>, variables_size: VariablesSizes },
    Delete { detach: bool, instructions: Vec<Vec<Instruction>> },
    Update { updates: Vec<UpdateOne>, variables_size: VariablesSizes },
}

} // verus!
