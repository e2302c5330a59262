use vstd::prelude::*;
use crate::error::{kind_of, Error, ErrorKind, InternalError, RunTimeError};
use crate::value::{lemma_view_values_index, view_values, Value, ValueModel};

verus! {

broadcast use vstd::std_specs::vec::group_vec_axioms;

/// State of `count(x)`: the number of values that are not null.
#[derive(Debug)]
pub struct CountState {
    pub count: i64,
}

impl CountState {
    /// No value counted yet.
    pub fn new() -> (r: CountState)
        ensures
            r.count == 0,
    {
        CountState { count: 0 }
    }

    /// Counts the value when it is not null.
    pub fn next(&mut self, value: Value) -> (r: Result<(), Error>)
        requires
            old(self).count < i64::MAX,
        ensures
            r is Ok,
            final(self).count == old(self).count + (if value@ is Null { 0int } else { 1int }),
    {
        if !value.is_null() {
            self.count = self.count + 1;
        }
        Ok(())
    }

    /// The number of values counted.
    pub fn finalise(self) -> (r: Result<Value, Error>)
        ensures
            r matches Ok(v) && v@ == ValueModel::Integer(self.count),
    {
        Ok(Value::Integer(self.count))
    }
}

/// State of `collect(x)`: the values, in the order they came.
#[derive(Debug)]
pub struct CollectState {
    pub value: Vec<Value>,
}

impl CollectState {
    /// No value collected yet.
    pub fn new() -> (r: CollectState)
        ensures
            r.value@.len() == 0,
    {
        CollectState { value: Vec::new() }
    }

    /// Collects the value, null included.
    pub fn next(&mut self, value: Value) -> (r: Result<(), Error>)
        ensures
            r is Ok,
            view_values(final(self).value@) == view_values(old(self).value@).push(value@),
    {
        let ghost before = self.value@;
        self.value.push(value);
        proof {
            lemma_view_values_index(before);
            lemma_view_values_index(self.value@);
            assert(view_values(self.value@) =~= view_values(before).push(self.value@.last()@));
        }
        Ok(())
    }

    /// The list of the values collected.
    pub fn finalise(self) -> (r: Result<Value, Error>)
        ensures
            r matches Ok(v) && v@ == ValueModel::List(view_values(self.value@)),
    {
        Ok(Value::Array(self.value))
    }
}

/// Next state of `sum(x)`: the first value is taken as it is; then integers are added and nulls
/// are skipped.
pub open spec fn sum_next(state: ValueModel, value: ValueModel) -> Result<ValueModel, ErrorKind> {
    match state {
        ValueModel::Null => Ok(value),
        ValueModel::Integer(s) => match value {
            ValueModel::Null => Ok(state),
            ValueModel::Integer(v) => Ok(ValueModel::Integer((s + v) as i64)),
            _ => Err(ErrorKind::InvalidBinaryOperands),
        },
        _ => Err(ErrorKind::InvalidBinaryOperands),
    }
}

/// The sum of the integers of `sum(x)` stays in 64 bits.
pub open spec fn sum_fits(state: ValueModel, value: ValueModel) -> bool {
    match (state, value) {
        (ValueModel::Integer(s), ValueModel::Integer(v)) => i64::MIN <= s + v <= i64::MAX,
        _ => true,
    }
}

/// State of `sum(x)`.
#[derive(Debug)]
pub struct SumState {
    pub value: Value,
}

impl SumState {
    /// Nothing summed yet: null.
    pub fn new() -> (r: SumState)
        ensures
            r.value@ == ValueModel::Null,
    {
        SumState { value: Value::Null }
    }

    /// Adds the value to the sum.
    pub fn next(&mut self, value: Value) -> (r: Result<(), Error>)
        requires
            sum_fits(old(self).value@, value@),
        ensures
            match sum_next(old(self).value@, value@) {
                Ok(s) => r is Ok && final(self).value@ == s,
                Err(k) => r matches Err(e) && kind_of(e) == k && final(self).value@ == old(self).value@,
            },
    {
        match &self.value {
            Value::Null => {
                self.value = value;
                Ok(())
            },
            Value::Integer(s) => match value {
                Value::Null => Ok(()),
                Value::Integer(v) => {
                    let n = *s + v;
                    self.value = Value::Integer(n);
                    Ok(())
                },
                _ => Err(Error::RunTime(RunTimeError::InvalidBinaryOperands)),
            },
            _ => Err(Error::RunTime(RunTimeError::InvalidBinaryOperands)),
        }
    }

    /// The sum.
    pub fn finalise(self) -> (r: Result<Value, Error>)
        ensures
            r matches Ok(v) && v@ == self.value@,
    {
        Ok(self.value)
    }
}

/// Next state of `avg(x)`, as a sum and a count: the first value is taken as the sum without
/// being counted; then integers are added and counted, and nulls are skipped.
pub open spec fn avg_next(state: ValueModel, count: nat, value: ValueModel) -> Result<(ValueModel, nat), ErrorKind> {
    if state is Null {
        Ok((value, count))
    } else {
        match value {
            ValueModel::Null => Ok((state, count)),
            ValueModel::Integer(i) => match state {
                ValueModel::Integer(s) => Ok((ValueModel::Integer((s + i) as i64), count + 1)),
                _ => Err(ErrorKind::InvalidAggregationState),
            },
            _ => Err(ErrorKind::RunTimeInvalidArgumentType),
        }
    }
}

/// The sum of `avg(x)` stays in 64 bits and the count in a `usize`.
pub open spec fn avg_fits(state: ValueModel, count: nat, value: ValueModel) -> bool {
    match (state, value) {
        (ValueModel::Integer(s), ValueModel::Integer(v)) => i64::MIN <= s + v <= i64::MAX && count + 1 <= usize::MAX,
        _ => true,
    }
}

/// Quotient rounded toward zero, for a positive divisor.
pub open spec fn truncated_quotient(a: int, b: int) -> int {
    if a >= 0 { a / b } else { -((-a) / b) }
}

/// State of `avg(x)`.
#[derive(Debug)]
pub struct AvgState {
    pub value: Value,
    pub count: usize,
}

impl AvgState {
    /// Nothing averaged yet.
    pub fn new() -> (r: AvgState)
        ensures
            r.value@ == ValueModel::Null,
            r.count == 0,
    {
        AvgState { value: Value::Null, count: 0 }
    }

    /// Adds the value to the sum and counts it.
    pub fn next(&mut self, value: Value) -> (r: Result<(), Error>)
        requires
            avg_fits(old(self).value@, old(self).count as nat, value@),
        ensures
            match avg_next(old(self).value@, old(self).count as nat, value@) {
                Ok((s, c)) => r is Ok && final(self).value@ == s && final(self).count == c,
                Err(k) => r matches Err(e) && kind_of(e) == k && final(self).value@ == old(self).value@
                    && final(self).count == old(self).count,
            },
    {
        if self.value.is_null() {
            self.value = value;
            return Ok(());
        }
        match value {
            Value::Null => Ok(()),
            Value::Integer(i) => match &self.value {
                Value::Integer(s) => {
                    let n = *s + i;
                    self.count = self.count + 1;
                    self.value = Value::Integer(n);
                    Ok(())
                },
                _ => Err(Error::Internal(InternalError::InvalidAggregationState)),
            },
            _ => Err(Error::RunTime(RunTimeError::InvalidArgumentType)),
        }
    }

    /// The integer average, rounded toward zero; null when nothing was summed.
    pub fn finalise(self) -> (r: Result<Value, Error>)
        requires
            self.value@ is Integer ==> 0 < self.count <= i64::MAX,
        ensures
            match self.value@ {
                ValueModel::Null => r matches Ok(v) && v@ == ValueModel::Null,
                ValueModel::Integer(s) => r matches Ok(v) && v@ == ValueModel::Integer(truncated_quotient(s as int, self.count as int) as i64),
                _ => r matches Err(e) && kind_of(e) == ErrorKind::InvalidAggregationState,
            },
    {
        match &self.value {
            Value::Null => Ok(Value::Null),
            Value::Integer(s) => {
                let c = self.count as i64;
                Ok(Value::Integer(*s / c))
            },
            _ => Err(Error::Internal(InternalError::InvalidAggregationState)),
        }
    }
}

/// The count of `count(x)` after the values, from an empty state, as `next` computes it.
pub open spec fn count_after(vs: Seq<ValueModel>) -> int
    decreases vs.len(),
{
    if vs.len() == 0 { 0 } else { count_after(vs.drop_last()) + (if vs.last() is Null { 0int } else { 1int }) }
}

/// `count(x)` over values is the number of them that are not null; zero for no value.
pub proof fn lemma_count_values(vs: Seq<ValueModel>)
    ensures
        count_after(vs) == vs.filter(|v: ValueModel| !(v is Null)).len(),
    decreases vs.len(),
{
    if vs.len() > 0 {
        lemma_count_values(vs.drop_last());
    }
    reveal(Seq::filter);
}

/// `count(x)` over values, through its state: `new`, then `next` on each value in order, then
/// `finalise`. The result is the number of values that are not null.
pub fn count_values(vs: &Vec<Value>) -> (r: Result<Value, Error>)
    requires
        vs@.len() < i64::MAX,
    ensures
        r matches Ok(v) && v@ == ValueModel::Integer(
            view_values(vs@).filter(|x: ValueModel| !(x is Null)).len() as i64),
{
    let mut state = CountState::new();
    proof { lemma_view_values_index(vs@); }
    for i in 0..vs.len()
        invariant
            vs@.len() < i64::MAX,
            view_values(vs@).len() == vs@.len(),
            forall|j: int| 0 <= j < vs@.len() ==> #[trigger] view_values(vs@)[j] == vs@[j]@,
            state.count == count_after(view_values(vs@).subrange(0, i as int)),
            0 <= state.count <= i,
    {
        proof {
            let pre = view_values(vs@).subrange(0, i + 1);
            assert(pre.drop_last() =~= view_values(vs@).subrange(0, i as int));
        }
        match state.next(vs[i].deep_clone()) {
            Ok(()) => {},
            Err(_) => {},
        }
    }
    proof {
        assert(view_values(vs@).subrange(0, vs@.len() as int) =~= view_values(vs@));
        lemma_count_values(view_values(vs@));
    }
    state.finalise()
}

/// The extreme value after one more: the first value that is not null is taken, and a later one
/// that is not null replaces it when it comes first in the order that `min` or `max` looks for.
pub open spec fn extreme_next(current: ValueModel, value: ValueModel, comes_first: bool) -> ValueModel {
    if current is Null {
        value
    } else if !(value is Null) && comes_first {
        value
    } else {
        current
    }
}

/// State of `min(x)`: the least value seen, null when none was.
#[derive(Debug)]
pub struct MinState {
    pub value: Value,
}

impl MinState {
    /// No value seen yet.
    pub fn new() -> (r: MinState)
        ensures
            r.value@ == ValueModel::Null,
    {
        MinState { value: Value::Null }
    }

    /// Takes a value; `less` says whether it orders before the current value. The order of
    /// values is not part of this library: callers compare.
    pub fn next(&mut self, value: Value, less: bool) -> (r: Result<(), Error>)
        ensures
            r is Ok,
            final(self).value@ == extreme_next(old(self).value@, value@, less),
    {
        if self.value.is_null() {
            self.value = value;
        } else if !value.is_null() && less {
            self.value = value;
        }
        Ok(())
    }

    /// The least value seen.
    pub fn finalise(self) -> (r: Result<Value, Error>)
        ensures
            r matches Ok(v) && v@ == self.value@,
    {
        Ok(self.value)
    }
}

/// State of `max(x)`: the greatest value seen, null when none was.
#[derive(Debug)]
pub struct MaxState {
    pub value: Value,
}

impl MaxState {
    /// No value seen yet.
    pub fn new() -> (r: MaxState)
        ensures
            r.value@ == ValueModel::Null,
    {
        MaxState { value: Value::Null }
    }

    /// Takes a value; `greater` says whether it orders after the current value. The order of
    /// values is not part of this library: callers compare.
    pub fn next(&mut self, value: Value, greater: bool) -> (r: Result<(), Error>)
        ensures
            r is Ok,
            final(self).value@ == extreme_next(old(self).value@, value@, greater),
    {
        if self.value.is_null() {
            self.value = value;
        } else if !value.is_null() && greater {
            self.value = value;
        }
        Ok(())
    }

    /// The greatest value seen.
    pub fn finalise(self) -> (r: Result<Value, Error>)
        ensures
            r matches Ok(v) && v@ == self.value@,
    {
        Ok(self.value)
    }
}

/// Once `min` or `max` holds a value that is not null, it never goes back to null.
pub proof fn lemma_extreme_stays_set(current: ValueModel, value: ValueModel, comes_first: bool)
    requires
        !(current is Null),
    ensures
        !(extreme_next(current, value, comes_first) is Null),
{
}

} // verus!
