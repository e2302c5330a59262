use vstd::prelude::*;
use crate::error::{kind_of, Error, ErrorKind, RunTimeError};
use crate::evaluators::{Stack, StackValue};
use crate::instructions::Instruction;
use crate::interpreter::{eval_instructions, outcome_of, pop_graph, row_model, run_outcome, run_safe, view_stack, StackModel};
use crate::value::{Value, ValueMap, ValueModel};

verus! {

broadcast use vstd::std_specs::vec::group_vec_axioms;

/// The truth of the top of the stack: false for null and `false`, true for anything else.
pub open spec fn top_truth(s: Seq<StackModel>) -> Result<bool, ErrorKind> {
    if s.len() == 0 {
        Err(ErrorKind::EmptyStack)
    } else {
        Ok(!(s.last() == StackModel::Graph(ValueModel::Null) || s.last() == StackModel::Graph(ValueModel::Boolean(false))))
    }
}

/// The outcomes of a filter on a row: whether the row is kept, or the error.
pub open spec fn filter_outcome(filter: Seq<Instruction>, params: Map<Seq<char>, ValueModel>, row: Seq<ValueModel>, out: Result<bool, ErrorKind>) -> bool {
    exists|o: Result<Seq<StackModel>, ErrorKind>| #[trigger] run_outcome(filter, Seq::empty(), params, row, o) && match o {
        Err(k) => out == Err::<bool, ErrorKind>(k),
        Ok(s) => out == top_truth(s),
    }
}

/// The rows whose flag is set, in order.
pub open spec fn selected(rows: Seq<Seq<ValueModel>>, flags: Seq<bool>) -> Seq<Seq<ValueModel>>
    decreases rows.len(),
{
    if rows.len() == 0 || flags.len() != rows.len() {
        Seq::empty()
    } else {
        let r = selected(rows.drop_last(), flags.drop_last());
        if flags.last() { r.push(rows.last()) } else { r }
    }
}

/// The models of rows.
pub open spec fn rows_model(rows: Seq<Vec<Value>>) -> Seq<Seq<ValueModel>> {
    rows.map_values(|r: Vec<Value>| row_model(r@))
}

/// Evaluates a filter on a row, on an empty stack: the row is kept unless the result is null or
/// `false`.
pub fn eval_filter(row: &Vec<Value>, filter: &Vec<Instruction>, parameters: &ValueMap) -> (r: Result<bool, Error>)
    requires
        run_safe(filter@, Seq::empty(), parameters.model(), row_model(row@)),
    ensures
        filter_outcome(filter@, parameters.model(), row_model(row@), match r {
            Ok(b) => Ok::<bool, ErrorKind>(b),
            Err(e) => Err(kind_of(e)),
        }),
{
    let mut stack = Stack::new();
    assert(view_stack(stack@) =~= Seq::<StackModel>::empty());
    let res = eval_instructions(&mut stack, row, filter, parameters);
    let ghost o = outcome_of(res, view_stack(stack@));
    assert(run_outcome(filter@, Seq::empty(), parameters.model(), row_model(row@), o));
    match res {
        Err(e) => Err(e),
        Ok(()) => {
            proof {
                if stack@.len() > 0 {
                    assert(view_stack(stack@).last() == crate::interpreter::view_stack_value(stack@.last()));
                }
            }
            stack.try_pop_as_boolean()
        },
    }
}

/// A copy of a row.
fn copy_row(row: &Vec<Value>) -> (r: Vec<Value>)
    ensures
        row_model(r@) == row_model(row@),
{
    let mut out: Vec<Value> = Vec::new();
    for i in 0..row.len()
        invariant
            out@.len() == i,
            row_model(out@) == row_model(row@.subrange(0, i as int)),
    {
        let ghost before = out@;
        let v = row[i].deep_clone();
        out.push(v);
        assert forall|j: int| 0 <= j < i + 1 implies #[trigger] out@[j]@ == row@[j]@ by {
            if j < i {
                assert(row_model(before)[j] == row_model(row@.subrange(0, i as int))[j]);
                assert(out@[j] == before[j]);
            }
        }
        assert(row_model(out@) =~= row_model(row@.subrange(0, i + 1)));
    }
    assert(row@.subrange(0, row@.len() as int) =~= row@);
    out
}

/// Keeps the rows on which the filter holds, in order; the first error stops the filtering.
pub fn filter_rows(rows: &Vec<Vec<Value>>, filter: &Vec<Instruction>, parameters: &ValueMap) -> (r: Result<Vec<Vec<Value>>, Error>)
    requires
        forall|i: int| 0 <= i < rows@.len() ==> run_safe(filter@, Seq::empty(), parameters.model(), #[trigger] row_model(rows@[i]@)),
    ensures
        match r {
            Ok(kept) => exists|flags: Seq<bool>| {
                &&& flags.len() == rows@.len()
                &&& forall|i: int| 0 <= i < rows@.len() ==> filter_outcome(filter@, parameters.model(), #[trigger] row_model(rows@[i]@), Ok(flags[i]))
                &&& rows_model(kept@) == selected(rows_model(rows@), flags)
            },
            Err(e) => exists|i: int| {
                &&& 0 <= i < rows@.len()
                &&& filter_outcome(filter@, parameters.model(), row_model(rows@[i]@), Err(kind_of(e)))
                &&& forall|j: int| 0 <= j < i ==> filter_outcome(filter@, parameters.model(), #[trigger] row_model(rows@[j]@), Ok(true))
                    || filter_outcome(filter@, parameters.model(), row_model(rows@[j]@), Ok(false))
            },
        },
{
    let ghost p = parameters.model();
    let ghost all = rows_model(rows@);
    let mut kept: Vec<Vec<Value>> = Vec::new();
    let ghost mut flags: Seq<bool> = Seq::empty();
    for i in 0..rows.len()
        invariant
            p == parameters.model(),
            all == rows_model(rows@),
            forall|j: int| 0 <= j < rows@.len() ==> run_safe(filter@, Seq::empty(), p, #[trigger] row_model(rows@[j]@)),
            flags.len() == i,
            forall|j: int| 0 <= j < i ==> filter_outcome(filter@, p, #[trigger] row_model(rows@[j]@), Ok(flags[j])),
            rows_model(kept@) == selected(all.subrange(0, i as int), flags),
    {
        let keep = match eval_filter(&rows[i], filter, parameters) {
            Ok(b) => b,
            Err(e) => {
                proof {
                    assert forall|j: int| 0 <= j < i implies filter_outcome(filter@, p, #[trigger] row_model(rows@[j]@), Ok(true))
                        || filter_outcome(filter@, p, row_model(rows@[j]@), Ok(false)) by {
                        if flags[j] {
                            assert(filter_outcome(filter@, p, row_model(rows@[j]@), Ok(true)));
                        } else {
                            assert(filter_outcome(filter@, p, row_model(rows@[j]@), Ok(false)));
                        }
                    }
                }
                return Err(e);
            },
        };
        let ghost before = kept@;
        if keep {
            kept.push(copy_row(&rows[i]));
            assert(rows_model(kept@) =~= rows_model(before).push(row_model(rows@[i as int]@)));
        }
        proof {
            let f2 = flags.push(keep);
            assert(all.subrange(0, i + 1).drop_last() =~= all.subrange(0, i as int));
            assert(f2.drop_last() =~= flags);
            assert(all.subrange(0, i + 1).last() == row_model(rows@[i as int]@));
            flags = f2;
        }
    }
    assert(all.subrange(0, rows@.len() as int) =~= all);
    Ok(kept)
}

/// The count that `SKIP` or `LIMIT` computes from a stack: a non-negative integer at its top.
pub open spec fn count_of(s: Seq<StackModel>) -> Result<i64, ErrorKind> {
    match pop_graph(s) {
        Ok((_, ValueModel::Integer(q))) => if q >= 0 { Ok(q) } else { Err(ErrorKind::NegativeIntegerArgument) },
        _ => Err(ErrorKind::RunTimeInvalidArgumentType),
    }
}

/// The outcomes of the instructions of `SKIP` or `LIMIT`, run on an empty row: the count, or the
/// error.
pub open spec fn count_outcome(is: Seq<Instruction>, params: Map<Seq<char>, ValueModel>, out: Result<i64, ErrorKind>) -> bool {
    exists|o: Result<Seq<StackModel>, ErrorKind>| #[trigger] run_outcome(is, Seq::empty(), params, Seq::empty(), o) && match o {
        Err(k) => out == Err::<i64, ErrorKind>(k),
        Ok(s) => out == count_of(s),
    }
}

/// Evaluates the count of `SKIP` or `LIMIT`: a value that is not an integer is an invalid
/// argument, a negative integer an error of its own.
pub fn eval_count(is: &Vec<Instruction>, parameters: &ValueMap) -> (r: Result<i64, Error>)
    requires
        run_safe(is@, Seq::empty(), parameters.model(), Seq::empty()),
    ensures
        count_outcome(is@, parameters.model(), match r {
            Ok(q) => Ok::<i64, ErrorKind>(q),
            Err(e) => Err(kind_of(e)),
        }),
{
    let mut stack = Stack::new();
    let row: Vec<Value> = Vec::new();
    assert(view_stack(stack@) =~= Seq::<StackModel>::empty());
    assert(row_model(row@) =~= Seq::<ValueModel>::empty());
    let res = eval_instructions(&mut stack, &row, is, parameters);
    let ghost o = outcome_of(res, view_stack(stack@));
    assert(run_outcome(is@, Seq::empty(), parameters.model(), Seq::empty(), o));
    match res {
        Err(e) => Err(e),
        Ok(()) => {
            let ghost s = view_stack(stack@);
            proof {
                if stack@.len() > 0 {
                    assert(s.last() == crate::interpreter::view_stack_value(stack@.last()));
                }
            }
            match stack.try_pop_into_value() {
                Ok(Value::Integer(q)) => if q >= 0 {
                    Ok(q)
                } else {
                    Err(Error::RunTime(RunTimeError::NegativeIntegerArgument))
                },
                _ => Err(Error::RunTime(RunTimeError::InvalidArgumentType)),
            }
        },
    }
}

/// `LIMIT`: keeps the first `q` rows.
pub fn limit_rows(rows: &mut Vec<Vec<Value>>, q: i64)
    requires
        q >= 0,
    ensures
        final(rows)@ == old(rows)@.take(if q < old(rows)@.len() { q as int } else { old(rows)@.len() as int }),
{
    if (q as u64) < (rows.len() as u64) {
        rows.truncate(q as usize);
    }
    proof {
        if !(q < old(rows)@.len()) {
            assert(rows@ =~= old(rows)@.take(old(rows)@.len() as int));
        }
    }
}

/// The outcomes of an expression on a row: the value its instructions leave on top of an empty
/// stack, or the error.
#[verifier::opaque]
pub open spec fn expression_outcome(is: Seq<Instruction>, params: Map<Seq<char>, ValueModel>, row: Seq<ValueModel>, out: Result<ValueModel, ErrorKind>) -> bool {
    exists|o: Result<Seq<StackModel>, ErrorKind>| #[trigger] run_outcome(is, Seq::empty(), params, row, o) && match o {
        Err(k) => out == Err::<ValueModel, ErrorKind>(k),
        Ok(s) => out == match pop_graph(s) {
            Err(k) => Err(k),
            Ok((_, v)) => Ok(v),
        },
    }
}

/// Evaluates an expression on a row: its instructions on an empty stack, then the value on top.
pub fn eval_expression(row: &Vec<Value>, is: &Vec<Instruction>, parameters: &ValueMap) -> (r: Result<Value, Error>)
    requires
        run_safe(is@, Seq::empty(), parameters.model(), row_model(row@)),
    ensures
        expression_outcome(is@, parameters.model(), row_model(row@), match r {
            Ok(v) => Ok::<ValueModel, ErrorKind>(v@),
            Err(e) => Err(kind_of(e)),
        }),
{
    let mut stack = Stack::new();
    assert(view_stack(stack@) =~= Seq::<StackModel>::empty());
    let res = eval_instructions(&mut stack, row, is, parameters);
    let ghost o = outcome_of(res, view_stack(stack@));
    assert(run_outcome(is@, Seq::empty(), parameters.model(), row_model(row@), o));
    proof { reveal(expression_outcome); }
    match res {
        Err(e) => Err(e),
        Ok(()) => {
            proof {
                if stack@.len() > 0 {
                    assert(view_stack(stack@).last() == crate::interpreter::view_stack_value(stack@.last()));
                    assert(view_stack(stack@).len() == stack@.len());
                }
            }
            stack.try_pop_into_value()
        },
    }
}

/// The outcomes of the filter of a matched node or edge: the filter runs on a stack holding
/// `true` then the item; the item is dropped and the boolean below it says whether the row is
/// kept; any other value there is an invalid argument.
pub open spec fn pattern_filter_outcome(
    filter: Seq<Instruction>,
    params: Map<Seq<char>, ValueModel>,
    row: Seq<ValueModel>,
    item: ValueModel,
    out: Result<bool, ErrorKind>,
) -> bool {
    exists|o: Result<Seq<StackModel>, ErrorKind>| #[trigger] run_outcome(filter, pattern_stack(item), params, row, o) && match o {
        Err(k) => out == Err::<bool, ErrorKind>(k),
        Ok(s) => out == if s.len() == 0 {
            Err(ErrorKind::EmptyStack)
        } else {
            match pop_graph(s.drop_last()) {
                Err(k) => Err(k),
                Ok((_, ValueModel::Boolean(b))) => Ok(b),
                Ok(_) => Err(ErrorKind::RunTimeInvalidArgumentType),
            }
        },
    }
}

/// The stack that the filter of a matched item starts from.
pub open spec fn pattern_stack(item: ValueModel) -> Seq<StackModel> {
    seq![StackModel::Graph(ValueModel::Boolean(true)), StackModel::Graph(item)]
}

/// Evaluates the filter of a matched node or edge on its row.
pub fn eval_pattern_filter(row: &Vec<Value>, item: Value, filter: &Vec<Instruction>, parameters: &ValueMap) -> (r: Result<bool, Error>)
    requires
        run_safe(filter@, pattern_stack(item@), parameters.model(), row_model(row@)),
    ensures
        pattern_filter_outcome(filter@, parameters.model(), row_model(row@), item@, match r {
            Ok(b) => Ok::<bool, ErrorKind>(b),
            Err(e) => Err(kind_of(e)),
        }),
{
    let ghost im = item@;
    let mut stack = Stack::new();
    stack.push(StackValue::GraphValue(Value::Boolean(true)));
    stack.push(StackValue::GraphValue(item));
    assert(view_stack(stack@) =~= pattern_stack(im));
    let res = eval_instructions(&mut stack, row, filter, parameters);
    let ghost o = outcome_of(res, view_stack(stack@));
    assert(run_outcome(filter@, pattern_stack(im), parameters.model(), row_model(row@), o));
    match res {
        Err(e) => Err(e),
        Ok(()) => {
            let ghost s = view_stack(stack@);
            proof {
                if stack@.len() > 0 {
                    assert(view_stack(stack@.drop_last()) =~= s.drop_last());
                    if stack@.len() > 1 {
                        assert(s.drop_last().last() == crate::interpreter::view_stack_value(stack@.drop_last().last()));
                    }
                }
            }
            match stack.try_pop() {
                Err(e) => return Err(e),
                Ok(_) => {},
            }
            match stack.try_pop_into_value() {
                Ok(Value::Boolean(b)) => Ok(b),
                Ok(_) => Err(Error::RunTime(RunTimeError::InvalidArgumentType)),
                Err(e) => Err(e),
            }
        },
    }
}

/// Keeps the matched rows whose node or edge passes the pattern's filter, in order; the first
/// error stops the filtering. `items[i]` is the node or edge that made `rows[i]`.
pub fn filter_matched(rows: &Vec<Vec<Value>>, items: &Vec<Value>, filter: &Vec<Instruction>, parameters: &ValueMap) -> (r: Result<Vec<Vec<Value>>, Error>)
    requires
        items@.len() == rows@.len(),
        forall|i: int| 0 <= i < rows@.len() ==> run_safe(filter@, pattern_stack(items@[i]@), parameters.model(), #[trigger] row_model(rows@[i]@)),
    ensures
        match r {
            Ok(kept) => exists|flags: Seq<bool>| {
                &&& flags.len() == rows@.len()
                &&& forall|i: int| 0 <= i < rows@.len() ==> pattern_filter_outcome(filter@, parameters.model(), #[trigger] row_model(rows@[i]@), items@[i]@, Ok(flags[i]))
                &&& rows_model(kept@) == selected(rows_model(rows@), flags)
            },
            Err(e) => exists|i: int| {
                &&& 0 <= i < rows@.len()
                &&& pattern_filter_outcome(filter@, parameters.model(), row_model(rows@[i]@), items@[i]@, Err(kind_of(e)))
                &&& forall|j: int| 0 <= j < i ==> pattern_filter_outcome(filter@, parameters.model(), #[trigger] row_model(rows@[j]@), items@[j]@, Ok(true))
                    || pattern_filter_outcome(filter@, parameters.model(), row_model(rows@[j]@), items@[j]@, Ok(false))
            },
        },
{
    let ghost p = parameters.model();
    let ghost all = rows_model(rows@);
    let mut kept: Vec<Vec<Value>> = Vec::new();
    let ghost mut flags: Seq<bool> = Seq::empty();
    for i in 0..rows.len()
        invariant
            p == parameters.model(),
            all == rows_model(rows@),
            items@.len() == rows@.len(),
            forall|j: int| 0 <= j < rows@.len() ==> run_safe(filter@, pattern_stack(items@[j]@), p, #[trigger] row_model(rows@[j]@)),
            flags.len() == i,
            forall|j: int| 0 <= j < i ==> pattern_filter_outcome(filter@, p, #[trigger] row_model(rows@[j]@), items@[j]@, Ok(flags[j])),
            rows_model(kept@) == selected(all.subrange(0, i as int), flags),
    {
        let item = items[i].deep_clone();
        proof { assert(run_safe(filter@, pattern_stack(items@[i as int]@), p, row_model(rows@[i as int]@))); }
        let keep = match eval_pattern_filter(&rows[i], item, filter, parameters) {
            Ok(b) => b,
            Err(e) => {
                proof {
                    assert forall|j: int| 0 <= j < i implies pattern_filter_outcome(filter@, p, #[trigger] row_model(rows@[j]@), items@[j]@, Ok(true))
                        || pattern_filter_outcome(filter@, p, row_model(rows@[j]@), items@[j]@, Ok(false)) by {
                        if flags[j] {
                            assert(pattern_filter_outcome(filter@, p, row_model(rows@[j]@), items@[j]@, Ok(true)));
                        } else {
                            assert(pattern_filter_outcome(filter@, p, row_model(rows@[j]@), items@[j]@, Ok(false)));
                        }
                    }
                }
                return Err(e);
            },
        };
        let ghost before = kept@;
        if keep {
            kept.push(copy_row(&rows[i]));
            assert(rows_model(kept@) =~= rows_model(before).push(row_model(rows@[i as int]@)));
        }
        proof {
            let f2 = flags.push(keep);
            assert(all.subrange(0, i + 1).drop_last() =~= all.subrange(0, i as int));
            assert(f2.drop_last() =~= flags);
            assert(all.subrange(0, i + 1).last() == row_model(rows@[i as int]@));
            flags = f2;
        }
    }
    assert(all.subrange(0, rows@.len() as int) =~= all);
    Ok(kept)
}

} // verus!
