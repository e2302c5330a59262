use vstd::prelude::*;
use crate::value::Value;

verus! {

/// A table of values: its headers, and its rows one after the other.
#[derive(Debug)]
pub struct Table {
    pub headers: Vec<String>,
    pub data: Vec<Value>,
}

/// What executing a query gives.
#[derive(Debug)]
pub enum QueryResult {
    /// The query returns nothing.
    Empty,
    /// The query returns a table.
    Table(Table),
    /// Several statements were executed, each with its result, in order.
    Array(Vec<QueryResult>),
    /// The query returns a value.
    Value(Value),
}

/// The result of a query made of several statements: nothing for none, the result itself for one,
/// all of them in order otherwise.
pub fn combine_results(results: Vec<QueryResult>) -> (r: QueryResult)
    ensures
        results@.len() == 0 ==> r is Empty,
        results@.len() == 1 ==> r == results@[0],
        results@.len() > 1 ==> r == QueryResult::Array(results),
{
    if results.len() == 0 {
        QueryResult::Empty
    } else if results.len() == 1 {
        let mut results = results;
        let ghost before = results@;
        let r = results.remove(0);
        assert(r == before[0]);
        r
    } else {
        QueryResult::Array(results)
    }
}

} // verus!
