use vstd::prelude::*;
use crate::value::Value;

verus! {

/// Errors detected while compiling a query.
#[derive(Debug)]
#[allow(inconsistent_fields)]
pub enum CompileTimeError {
    /// An integer literal does not fit in 64 bits.
    IntegerOverflow { text: String },
    /// Variable is not defined.
    UndefinedVariable { name: String },
    /// The variable is already defined.
    VariableAlreadyBound { name: String },
    /// The variable is already bound to a different type.
    VariableTypeConflict { name: String },
    /// `()-[]-()` is not accepted in this context.
    RequiresDirectedRelationship { context: &'static str },
    /// An edge type needs to be specified.
    NoSingleRelationshipType,
    /// Values are not comparable.
    NotComparable,
    /// The function is not known.
    UnknownFunction { name: String },
    /// Aggregation is not accepted in this expression.
    InvalidAggregation,
    /// A column name is used twice.
    ColumnNameConflict { name: String },
    /// Invalid delete argument, expected node or edge.
    InvalidDelete,
    /// Too few or too many arguments.
    InvalidNumberOfArguments { function_name: &'static str, got: usize, expected: usize },
    /// The statement expects a constant expression.
    NonConstantExpression,
    /// Invalid argument type.
    InvalidArgumentType,
}

/// Errors detected while running a query.
#[derive(Debug)]
#[allow(inconsistent_fields)]
pub enum RunTimeError {
    /// Parameter is not known.
    UnknownParameter { name: String },
    /// Too few or too many arguments.
    InvalidNumberOfArguments { function_name: &'static str, got: usize, expected: usize },
    /// Argument of the wrong type.
    InvalidArgument { function_name: &'static str, index: usize, expected_type: &'static str, value: String },
    /// A map value was accessed with a non-string value.
    MapElementAccessByNonString,
    /// Values are not comparable.
    NotComparable,
    /// Edge has no label.
    MissingEdgeLabel,
    /// The function is not known.
    UnknownFunction { name: String },
    /// Operands of a binary operation are not compatible.
    InvalidBinaryOperands,
    /// Operand of a negation is not compatible.
    InvalidNegationOperands,
    /// A value could not be cast to the expected type.
    InvalidValueCast { value: Box<Value>, typename: &'static str },
    /// Invalid delete argument, expected node or edge.
    InvalidDelete,
    /// Node is still connected and cannot be deleted.
    DeleteConnectedNode,
    /// The statement expects a positive integer.
    NegativeIntegerArgument,
    /// Invalid argument type.
    InvalidArgumentType,
    /// Index is out of bound for array.
    OutOfBound,
    /// The graph already exists.
    DuplicatedGraph { graph_name: String },
    /// The graph does not exist.
    UnknownGraph { graph_name: String },
    /// A key of a path is missing in a map.
    MissingKeyInPath { key: String },
    /// Path cannot have null key.
    MissingKey,
}

/// Internal errors, which denote bugs.
#[derive(Debug)]
#[allow(inconsistent_fields)]
pub enum InternalError {
    MissingAggregationState,
    MissingAggregationArgument,
    MissingAggregations,
    ExpectedNode { context: &'static str },
    ExpectedEdge { context: &'static str },
    MissingStackValue { context: &'static str },
    PathPatternInCreateExpression { context: &'static str },
    InvalidCreateLabels { context: &'static str },
    ExpectedGraphValue { context: &'static str },
    ExpectedNodeQuery { context: &'static str },
    ExpectedEdgeQuery { context: &'static str },
    EmptyStack,
    Unreachable { context: &'static str },
    InvalidNumberColumns { actual: usize, expected: usize },
    UnknownVariable { name: String },
    InvalidIndex { index: usize, length: usize },
    InvalidRowLength { got: usize, expected: usize },
    NotAllVariablesAreSet { set_variables: Vec<String>, all_variables: Vec<String> },
    NotWriteTransaction,
    MissingMetadata { key: String },
    InvalidAggregationState,
    InvalidQueryResultCast,
    MissingElementIterator,
    MissingFunctionName,
    UnknownNode,
    UnknownEdge,
    Unimplemented(&'static str),
    Poison(String),
}

/// Errors of the storage backends.
#[derive(Debug)]
#[allow(inconsistent_fields)]
pub enum StoreError {
    /// The backend is not known.
    UnknownBackend { backend: String },
    /// The backend was not built.
    UnavailableBackend { backend: &'static str },
    /// No backend could open the database.
    OpeningError { errors: String },
    /// Attempt at creating an existing graph.
    DuplicatedGraph { graph_name: String },
    /// The graph is not known.
    UnknownGraph { graph_name: String },
    /// Invalid database format.
    InvalidFormat(String),
}

/// Errors of the library.
#[derive(Debug)]
#[allow(inconsistent_fields)]
pub enum Error {
    /// Error that occurs during compilation.
    CompileTime(CompileTimeError),
    /// Error that occurs during execution.
    RunTime(RunTimeError),
    /// Error of the store.
    StoreError(StoreError),
    /// Error that should not occur, most likely a bug.
    Internal(InternalError),
}

/// The kind of an error, without its payload.
#[derive(PartialEq, Eq, Structural, Clone, Copy)]
pub enum ErrorKind {
    IntegerOverflow,
    UndefinedVariable,
    VariableAlreadyBound,
    VariableTypeConflict,
    NoSingleRelationshipType,
    UnknownFunction,
    InvalidAggregation,
    ColumnNameConflict,
    InvalidDelete,
    InvalidNumberOfArguments,
    NonConstantExpression,
    InvalidArgumentType,
    RunTimeInvalidArgument,
    RunTimeInvalidNumberOfArguments,
    RunTimeInvalidArgumentType,
    MissingEdgeLabel,
    InvalidValueCast,
    InvalidBinaryOperands,
    InvalidNegationOperands,
    NegativeIntegerArgument,
    UnknownParameter,
    OutOfBound,
    MapElementAccessByNonString,
    UnknownBackend,
    MissingAggregationArgument,
    MissingAggregations,
    ExpectedNode,
    ExpectedEdge,
    ExpectedGraphValue,
    ExpectedNodeQuery,
    ExpectedEdgeQuery,
    PathPatternInCreateExpression,
    InvalidCreateLabels,
    EmptyStack,
    Unreachable,
    UnknownVariable,
    NotAllVariablesAreSet,
    InvalidAggregationState,
    Other,
}

/// The kind of an error.
pub open spec fn kind_of(e: Error) -> ErrorKind {
    match e {
        Error::CompileTime(c) => match c {
            CompileTimeError::IntegerOverflow { .. } => ErrorKind::IntegerOverflow,
            CompileTimeError::UndefinedVariable { .. } => ErrorKind::UndefinedVariable,
            CompileTimeError::VariableAlreadyBound { .. } => ErrorKind::VariableAlreadyBound,
            CompileTimeError::VariableTypeConflict { .. } => ErrorKind::VariableTypeConflict,
            CompileTimeError::NoSingleRelationshipType => ErrorKind::NoSingleRelationshipType,
            CompileTimeError::UnknownFunction { .. } => ErrorKind::UnknownFunction,
            CompileTimeError::InvalidAggregation => ErrorKind::InvalidAggregation,
            CompileTimeError::ColumnNameConflict { .. } => ErrorKind::ColumnNameConflict,
            CompileTimeError::InvalidDelete => ErrorKind::InvalidDelete,
            CompileTimeError::InvalidNumberOfArguments { .. } => ErrorKind::InvalidNumberOfArguments,
            CompileTimeError::NonConstantExpression => ErrorKind::NonConstantExpression,
            CompileTimeError::InvalidArgumentType => ErrorKind::InvalidArgumentType,
            _ => ErrorKind::Other,
        },
        Error::RunTime(r) => match r {
            RunTimeError::InvalidArgument { .. } => ErrorKind::RunTimeInvalidArgument,
            RunTimeError::InvalidNumberOfArguments { .. } => ErrorKind::RunTimeInvalidNumberOfArguments,
            RunTimeError::InvalidArgumentType => ErrorKind::RunTimeInvalidArgumentType,
            RunTimeError::MissingEdgeLabel => ErrorKind::MissingEdgeLabel,
            RunTimeError::InvalidValueCast { .. } => ErrorKind::InvalidValueCast,
            RunTimeError::InvalidBinaryOperands => ErrorKind::InvalidBinaryOperands,
            RunTimeError::InvalidNegationOperands => ErrorKind::InvalidNegationOperands,
            RunTimeError::NegativeIntegerArgument => ErrorKind::NegativeIntegerArgument,
            RunTimeError::UnknownParameter { .. } => ErrorKind::UnknownParameter,
            RunTimeError::OutOfBound => ErrorKind::OutOfBound,
            RunTimeError::MapElementAccessByNonString => ErrorKind::MapElementAccessByNonString,
            _ => ErrorKind::Other,
        },
        Error::StoreError(s) => match s {
            StoreError::UnknownBackend { .. } => ErrorKind::UnknownBackend,
            _ => ErrorKind::Other,
        },
        Error::Internal(i) => match i {
            InternalError::MissingAggregationArgument => ErrorKind::MissingAggregationArgument,
            InternalError::MissingAggregations => ErrorKind::MissingAggregations,
            InternalError::ExpectedNode { .. } => ErrorKind::ExpectedNode,
            InternalError::ExpectedEdge { .. } => ErrorKind::ExpectedEdge,
            InternalError::ExpectedGraphValue { .. } => ErrorKind::ExpectedGraphValue,
            InternalError::ExpectedNodeQuery { .. } => ErrorKind::ExpectedNodeQuery,
            InternalError::ExpectedEdgeQuery { .. } => ErrorKind::ExpectedEdgeQuery,
            InternalError::PathPatternInCreateExpression { .. } => ErrorKind::PathPatternInCreateExpression,
            InternalError::InvalidCreateLabels { .. } => ErrorKind::InvalidCreateLabels,
            InternalError::EmptyStack => ErrorKind::EmptyStack,
            InternalError::Unreachable { .. } => ErrorKind::Unreachable,
            InternalError::UnknownVariable { .. } => ErrorKind::UnknownVariable,
            InternalError::NotAllVariablesAreSet { .. } => ErrorKind::NotAllVariablesAreSet,
            InternalError::InvalidAggregationState => ErrorKind::InvalidAggregationState,
            _ => ErrorKind::Other,
        },
    }
}

/// The executable result corresponds to the specified one: the same value, or an error of the same kind.
pub open spec fn result_matches<T>(r: Result<T, Error>, s: Result<T, ErrorKind>) -> bool {
    match s {
        Ok(v) => r == Ok::<T, Error>(v),
        Err(k) => r matches Err(e) && kind_of(e) == k,
    }
}

/// The executable outcome of an action corresponds to the specified one: success, or an error
/// of the given kind.
pub open spec fn outcome_matches(r: Result<(), Error>, k: Option<ErrorKind>) -> bool {
    match k {
        None => r is Ok,
        Some(k) => r matches Err(e) && kind_of(e) == k,
    }
}

impl Error {
    /// Returns the underlying error.
    pub fn error(&self) -> (r: &Error)
        ensures
            r == self,
    {
        self
    }
}

} // verus!
