use gqlitedb::aggregators::{AvgState, CollectState, CountState, SumState};
use gqlitedb::builtins::{parse_integer, Keys, Coalesce, Head, Range, Size, ToInteger, ToString};
use gqlitedb::connection::{connection_plan, Backend, ConnectionBuilder, StorePlan};
use gqlitedb::error::{Error, RunTimeError, StoreError};
use gqlitedb::value::{Value, ValueMap};

fn integer(i: i64) -> Value {
    Value::Integer(i)
}

#[test]
fn test_head_and_size() {
    assert_eq!(Head::call(&vec![Value::Array(vec![integer(4), integer(5)])]).unwrap(), integer(4));
    assert_eq!(Head::call(&vec![Value::Array(vec![])]).unwrap(), Value::Null);
    assert_eq!(Size::call(&vec![Value::Array(vec![integer(4), integer(5)])]).unwrap(), integer(2));
    assert_eq!(Size::call(&vec![Value::Null]).unwrap(), Value::Null);
    assert!(matches!(Head::call(&vec![]), Err(Error::RunTime(RunTimeError::InvalidNumberOfArguments { .. }))));
    assert!(matches!(Head::call(&vec![integer(1)]), Err(Error::RunTime(RunTimeError::InvalidArgument { .. }))));
}

#[test]
fn test_range_is_inclusive() {
    assert_eq!(Range::call(&vec![integer(1), integer(3)]).unwrap(), Value::Array(vec![integer(1), integer(2), integer(3)]));
    assert_eq!(Range::call(&vec![integer(3), integer(1)]).unwrap(), Value::Array(vec![]));
    assert_eq!(Range::call(&vec![Value::Null, Value::Null]).unwrap(), Value::Null);
}

#[test]
fn test_coalesce() {
    assert_eq!(Coalesce::call(&vec![Value::Null, integer(2), integer(3)]).unwrap(), integer(2));
    assert_eq!(Coalesce::call(&vec![Value::Null]).unwrap(), Value::Null);
}

#[test]
fn test_to_string_and_back() {
    assert_eq!(ToString::call(&vec![integer(-42)]).unwrap(), Value::String("-42".to_string()));
    assert_eq!(ToString::call(&vec![Value::Boolean(true)]).unwrap(), Value::String("true".to_string()));
    assert_eq!(ToInteger::call(&vec![Value::String("-42".to_string())]).unwrap(), integer(-42));
    assert_eq!(ToInteger::call(&vec![ToString::call(&vec![integer(i64::MIN)]).unwrap()]).unwrap(), integer(i64::MIN));
}

#[test]
fn test_parse_integer_edges() {
    assert_eq!(parse_integer(&"9223372036854775807".to_string()), Some(i64::MAX));
    assert_eq!(parse_integer(&"-9223372036854775808".to_string()), Some(i64::MIN));
    assert_eq!(parse_integer(&"9223372036854775808".to_string()), None);
    assert_eq!(parse_integer(&"+5".to_string()), Some(5));
    assert_eq!(parse_integer(&"".to_string()), None);
    assert_eq!(parse_integer(&"-".to_string()), None);
    assert_eq!(parse_integer(&"1a".to_string()), None);
}

#[test]
fn test_count_and_collect() {
    let mut c = CountState::new();
    c.next(integer(1)).unwrap();
    c.next(Value::Null).unwrap();
    c.next(integer(3)).unwrap();
    assert_eq!(c.finalise().unwrap(), integer(2));
    let mut l = CollectState::new();
    l.next(integer(1)).unwrap();
    l.next(Value::Null).unwrap();
    assert_eq!(l.finalise().unwrap(), Value::Array(vec![integer(1), Value::Null]));
}

#[test]
fn test_sum_and_avg() {
    let mut s = SumState::new();
    s.next(integer(1)).unwrap();
    s.next(integer(2)).unwrap();
    assert_eq!(s.finalise().unwrap(), integer(3));
    let mut a = AvgState::new();
    a.next(integer(10)).unwrap();
    a.next(integer(3)).unwrap();
    a.next(integer(-20)).unwrap();
    assert_eq!(a.finalise().unwrap(), integer(-3));
    assert_eq!(AvgState::new().finalise().unwrap(), Value::Null);
}

#[test]
fn test_connection_builder_options() {
    let mut o = ValueMap::new();
    o.insert("path".to_string(), Value::String("b".to_string()));
    o.insert("x".to_string(), integer(1));
    let m = ConnectionBuilder::new().path("a").backend(Backend::Redb).options(o).into_options();
    assert_eq!(m.get(&"path".to_string()), Some(&Value::String("b".to_string())));
    assert_eq!(m.get(&"backend".to_string()), Some(&Value::String("redb".to_string())));
    assert_eq!(m.get(&"x".to_string()), Some(&integer(1)));
    let m = ConnectionBuilder::new().path("a").path("c").into_options();
    assert_eq!(m.get(&"path".to_string()), Some(&Value::String("c".to_string())));
}

#[test]
fn test_connection_plan() {
    let o = ConnectionBuilder::new().path("db").backend(Backend::Redb).into_options();
    match connection_plan(&o).unwrap() {
        StorePlan::Open { backend, path } => {
            assert_eq!(backend, Backend::Redb);
            assert_eq!(path, Some("db".to_string()));
        },
        _ => panic!("expected a store"),
    }
    assert!(matches!(connection_plan(&ConnectionBuilder::new().into_options()).unwrap(), StorePlan::Automatic));
    let o = ConnectionBuilder::new().backend(Backend::SQLite).into_options();
    assert!(matches!(connection_plan(&o).unwrap(), StorePlan::Open { backend: Backend::SQLite, path: None }));
    let mut o = ValueMap::new();
    o.insert("backend".to_string(), Value::String("postgres".to_string()));
    assert!(matches!(connection_plan(&o), Err(Error::StoreError(StoreError::UnknownBackend { .. }))));
    let mut o = ValueMap::new();
    o.insert("backend".to_string(), integer(1));
    assert!(matches!(connection_plan(&o), Err(Error::RunTime(RunTimeError::InvalidValueCast { .. }))));
}

#[test]
fn test_keys_sorted() {
    let mut m = ValueMap::new();
    m.insert("b".to_string(), integer(1));
    m.insert("a".to_string(), integer(2));
    m.insert("ab".to_string(), integer(3));
    m.insert("b".to_string(), integer(4));
    let r = Keys::call(&vec![Value::Mapping(m)]).unwrap();
    assert_eq!(
        r,
        Value::Array(vec![Value::String("a".to_string()), Value::String("ab".to_string()), Value::String("b".to_string())])
    );
}
