use vstd::prelude::*;

pub mod aggregators;
pub mod arithmetic;
pub mod ast;
pub mod builtins;
pub mod cli;
pub mod compiler;
pub mod connection;
pub mod error;
pub mod evaluators;
pub mod expression;
pub mod expression_analyser;
pub mod functions;
pub mod gqb;
pub mod graphcore_types;
pub mod instructions;
pub mod interpreter;
pub mod matching;
pub mod patterns;
pub mod query_builder;
pub mod program;
pub mod query_result;
pub mod rows;
pub mod statements;
pub mod store;
pub mod text;
pub mod text_order;
pub mod value;
pub mod variables_manager;

verus! {

} // verus!
