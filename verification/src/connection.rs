use vstd::prelude::*;
use crate::error::{kind_of, Error, ErrorKind, RunTimeError, StoreError};
use crate::value::{lemma_view_entries_push, view_entries, Value, ValueMap, ValueModel};

verus! {

broadcast use vstd::std_specs::vec::group_vec_axioms;

/// Storage backend of a database.
#[derive(Debug, PartialEq, Eq, Structural, Clone, Copy)]
pub enum Backend {
    /// Select the first available backend.
    Automatic,
    /// SQLite backend.
    SQLite,
    /// Redb backend.
    Redb,
}

/// Name of a backend in the connection options.
pub open spec fn backend_name(b: Backend) -> Seq<char> {
    match b {
        Backend::Automatic => "automatic"@,
        Backend::SQLite => "sqlite"@,
        Backend::Redb => "redb"@,
    }
}

/// Builder with a high-level API for the options of a connection.
#[derive(Debug)]
pub struct ConnectionBuilder {
    map: ValueMap,
}

impl View for ConnectionBuilder {
    type V = Map<Seq<char>, ValueModel>;

    closed spec fn view(&self) -> Map<Seq<char>, ValueModel> {
        self.map.model()
    }
}

/// Binding of each entry, inserted in order into `m`.
pub proof fn lemma_insert_entries(m: Map<Seq<char>, ValueModel>, s: Seq<(String, Value)>, i: int)
    requires
        0 <= i < s.len(),
    ensures
        m.union_prefer_right(view_entries(s.subrange(0, i + 1)))
            == m.union_prefer_right(view_entries(s.subrange(0, i))).insert(s[i].0@, s[i].1@),
{
    assert(s.subrange(0, i + 1).subrange(0, i) =~= s.subrange(0, i));
    assert(m.union_prefer_right(view_entries(s.subrange(0, i + 1)))
        =~= m.union_prefer_right(view_entries(s.subrange(0, i))).insert(s[i].0@, s[i].1@));
}

impl ConnectionBuilder {
    /// A builder with no option.
    pub fn new() -> (r: ConnectionBuilder)
        ensures
            r@ == Map::<Seq<char>, ValueModel>::empty(),
    {
        ConnectionBuilder { map: ValueMap::new() }
    }

    /// Merges the options; an option given here replaces the one of the builder.
    pub fn options(self, options: ValueMap) -> (r: ConnectionBuilder)
        ensures
            r@ == self@.union_prefer_right(options.model()),
    {
        let mut s = self;
        let ghost m0 = s@;
        assert(options.entries@.subrange(0, 0) =~= Seq::<(String, Value)>::empty());
        assert(m0.union_prefer_right(view_entries(options.entries@.subrange(0, 0))) =~= m0);
        for i in 0..options.entries.len()
            invariant
                s.map.model() == m0.union_prefer_right(view_entries(options.entries@.subrange(0, i as int))),
        {
            proof { lemma_insert_entries(m0, options.entries@, i as int); }
            let key = options.entries[i].0.clone();
            let value = options.entries[i].1.deep_clone();
            s.map.insert(key, value);
        }
        assert(options.entries@.subrange(0, options.entries@.len() as int) =~= options.entries@);
        s
    }

    /// Sets the path of the database file.
    pub fn path(self, p: &str) -> (r: ConnectionBuilder)
        ensures
            r@ == self@.insert("path"@, ValueModel::Text(p@)),
    {
        let mut s = self;
        s.map.insert(String::from_str("path"), Value::String(String::from_str(p)));
        s
    }

    /// Sets the backend.
    pub fn backend(self, backend: Backend) -> (r: ConnectionBuilder)
        ensures
            r@ == self@.insert("backend"@, ValueModel::Text(backend_name(backend))),
    {
        let mut s = self;
        let key = String::from_str("backend");
        match backend {
            Backend::Automatic => s.map.insert(key, Value::String(String::from_str("automatic"))),
            Backend::SQLite => s.map.insert(key, Value::String(String::from_str("sqlite"))),
            Backend::Redb => s.map.insert(key, Value::String(String::from_str("redb"))),
        }
        s
    }

    /// The options collected by the builder.
    pub fn into_options(self) -> (r: ValueMap)
        ensures
            r.model() == self@,
    {
        self.map
    }
}


/// Setting the path twice keeps the last one.
pub proof fn lemma_path_last_wins(m: Map<Seq<char>, ValueModel>, p: Seq<char>, q: Seq<char>)
    ensures
        m.insert("path"@, ValueModel::Text(p)).insert("path"@, ValueModel::Text(q)) == m.insert("path"@, ValueModel::Text(q)),
{
    assert(m.insert("path"@, ValueModel::Text(p)).insert("path"@, ValueModel::Text(q)) =~= m.insert("path"@, ValueModel::Text(q)));
}

/// Merged options replace those of the builder, and keep the others.
pub proof fn lemma_options_merge(m: Map<Seq<char>, ValueModel>, o: Map<Seq<char>, ValueModel>, k: Seq<char>)
    ensures
        o.contains_key(k) ==> m.union_prefer_right(o)[k] == o[k],
        !o.contains_key(k) && m.contains_key(k) ==> m.union_prefer_right(o)[k] == m[k],
        m.union_prefer_right(o).contains_key(k) <==> (m.contains_key(k) || o.contains_key(k)),
{
}

/// What opening a connection does with its options: try each available backend in turn, or open
/// the store of one backend, at a path or in memory.
#[derive(Debug)]
pub enum StorePlan {
    Automatic,
    Open { backend: Backend, path: Option<String> },
}

/// Model of a plan.
pub enum PlanModel {
    Automatic,
    Open(Backend, Option<Seq<char>>),
}

pub open spec fn view_plan(p: StorePlan) -> PlanModel {
    match p {
        StorePlan::Automatic => PlanModel::Automatic,
        StorePlan::Open { backend, path } => PlanModel::Open(backend, match path { Some(x) => Some(x@), None => None }),
    }
}

/// An optional option, which must be a string when given.
pub open spec fn text_option(m: Map<Seq<char>, ValueModel>, key: Seq<char>) -> Result<Option<Seq<char>>, ErrorKind> {
    if !m.contains_key(key) {
        Ok(None)
    } else {
        match m[key] {
            ValueModel::Text(t) => Ok(Some(t)),
            _ => Err(ErrorKind::InvalidValueCast),
        }
    }
}

/// The plan for the options: the backend is "automatic" when not given; "sqlite" and "redb" open
/// their store at the path when one is given; other names are refused.
pub open spec fn plan_spec(m: Map<Seq<char>, ValueModel>) -> Result<PlanModel, ErrorKind> {
    match text_option(m, "backend"@) {
        Err(k) => Err(k),
        Ok(b) => {
            let name = match b { Some(t) => t, None => "automatic"@ };
            if name == "automatic"@ {
                Ok(PlanModel::Automatic)
            } else if name == "sqlite"@ || name == "redb"@ {
                match text_option(m, "path"@) {
                    Err(k) => Err(k),
                    Ok(p) => Ok(PlanModel::Open(if name == "sqlite"@ { Backend::SQLite } else { Backend::Redb }, p)),
                }
            } else {
                Err(ErrorKind::UnknownBackend)
            }
        },
    }
}

/// Reads a text option.
fn read_text_option(options: &ValueMap, key: &str) -> (r: Result<Option<String>, Error>)
    ensures
        match text_option(options.model(), key@) {
            Err(k) => r matches Err(e) && kind_of(e) == k,
            Ok(t) => r matches Ok(x) && t == match x { Some(y) => Some(y@), None => None },
        },
{
    match options.get(&String::from_str(key)) {
        None => Ok(None),
        Some(Value::String(t)) => Ok(Some(t.clone())),
        Some(other) => Err(Error::RunTime(RunTimeError::InvalidValueCast { value: Box::new(other.deep_clone()), typename: "String" })),
    }
}

/// Decides how to open a connection from its options.
pub fn connection_plan(options: &ValueMap) -> (r: Result<StorePlan, Error>)
    ensures
        match plan_spec(options.model()) {
            Err(k) => r matches Err(e) && kind_of(e) == k,
            Ok(p) => r matches Ok(x) && view_plan(x) == p,
        },
        r matches Err(Error::StoreError(StoreError::UnknownBackend { backend }))
            ==> options.model().contains_key("backend"@) && options.model()["backend"@] == ValueModel::Text(backend@),
{
    proof {
        reveal_strlit("automatic");
        reveal_strlit("sqlite");
        reveal_strlit("redb");
    }
    let backend = match read_text_option(options, "backend") {
        Ok(Some(b)) => b,
        Ok(None) => String::from_str("automatic"),
        Err(e) => return Err(e),
    };
    if crate::functions::eq_str(&backend, "automatic") {
        Ok(StorePlan::Automatic)
    } else if crate::functions::eq_str(&backend, "sqlite") || crate::functions::eq_str(&backend, "redb") {
        let path = match read_text_option(options, "path") {
            Ok(p) => p,
            Err(e) => return Err(e),
        };
        let b = if crate::functions::eq_str(&backend, "sqlite") { Backend::SQLite } else { Backend::Redb };
        Ok(StorePlan::Open { backend: b, path })
    } else {
        Err(Error::StoreError(StoreError::UnknownBackend { backend }))
    }
}

/// Options that name a path and then a store backend open that backend at that path; without a
/// backend the plan tries each available backend.
pub proof fn lemma_builder_plan(m: Map<Seq<char>, ValueModel>, path: Seq<char>, b: Backend)
    ensures
        b != Backend::Automatic ==> plan_spec(m.insert("path"@, ValueModel::Text(path)).insert("backend"@, ValueModel::Text(backend_name(b))))
            == Ok::<PlanModel, ErrorKind>(PlanModel::Open(b, Some(path))),
        !m.contains_key("backend"@) ==> plan_spec(m) == Ok::<PlanModel, ErrorKind>(PlanModel::Automatic),
{
    reveal_strlit("automatic");
    reveal_strlit("sqlite");
    reveal_strlit("redb");
    reveal_strlit("path");
    reveal_strlit("backend");
    let m2 = m.insert("path"@, ValueModel::Text(path)).insert("backend"@, ValueModel::Text(backend_name(b)));
    assert("path"@.len() == 4 && "backend"@.len() == 7);
    assert("path"@ != "backend"@);
    assert("sqlite"@.len() == 6 && "redb"@.len() == 4 && "automatic"@.len() == 9);
    assert("sqlite"@ != "redb"@ && "sqlite"@ != "automatic"@ && "redb"@ != "automatic"@);
    assert(m2["path"@] == ValueModel::Text(path));
}

/// Where the automatic choice of a backend stands: trying SQLite first, then Redb with the
/// message of SQLite's failure, or done.
pub enum OpenState {
    TryingSqlite,
    TryingRedb { sqlite_error: String },
    Done,
}

/// What opening a store with a backend gave: success, or the message of the failure.
pub enum OpenEvent {
    Opened,
    Failed { message: String },
}

/// What to do next: open a store with a backend, use the store that was opened, or fail.
pub enum OpenAction {
    Open(Backend),
    Connected(Backend),
    Fail(Error),
}

/// The messages of the backends' failures, each quoted, joined with `, `.
pub open spec fn opening_errors(sqlite: Seq<char>, redb: Seq<char>) -> Seq<char> {
    "'"@ + sqlite + "', '"@ + redb + "'"@
}

/// The automatic choice starts by opening a SQLite store.
pub fn automatic_start() -> (r: (OpenState, OpenAction))
    ensures
        r.0 is TryingSqlite,
        r.1 matches OpenAction::Open(Backend::SQLite),
{
    (OpenState::TryingSqlite, OpenAction::Open(Backend::SQLite))
}

/// One step of the automatic choice of a backend: SQLite if it opens, else Redb if it opens,
/// else an opening error that quotes both messages.
pub fn automatic_step(state: OpenState, event: OpenEvent) -> (r: (OpenState, OpenAction))
    requires
        !(state is Done),
    ensures
        match (state, event) {
            (OpenState::TryingSqlite, OpenEvent::Opened) => r.0 is Done && r.1 matches OpenAction::Connected(Backend::SQLite),
            (OpenState::TryingSqlite, OpenEvent::Failed { message }) => (r.0 matches OpenState::TryingRedb { sqlite_error }
                && sqlite_error@ == message@) && r.1 matches OpenAction::Open(Backend::Redb),
            (OpenState::TryingRedb { .. }, OpenEvent::Opened) => r.0 is Done && r.1 matches OpenAction::Connected(Backend::Redb),
            (OpenState::TryingRedb { sqlite_error }, OpenEvent::Failed { message }) => r.0 is Done
                && (r.1 matches OpenAction::Fail(Error::StoreError(StoreError::OpeningError { errors }))
                && errors@ == opening_errors(sqlite_error@, message@)),
            _ => false,
        },
{
    match (state, event) {
        (OpenState::TryingSqlite, OpenEvent::Opened) => (OpenState::Done, OpenAction::Connected(Backend::SQLite)),
        (OpenState::TryingSqlite, OpenEvent::Failed { message }) => (OpenState::TryingRedb { sqlite_error: message }, OpenAction::Open(Backend::Redb)),
        (OpenState::TryingRedb { .. }, OpenEvent::Opened) => (OpenState::Done, OpenAction::Connected(Backend::Redb)),
        (OpenState::TryingRedb { sqlite_error }, OpenEvent::Failed { message }) => {
            let mut errors = String::from_str("'");
            errors.append(sqlite_error.as_str());
            errors.append("', '");
            errors.append(message.as_str());
            errors.append("'");
            (OpenState::Done, OpenAction::Fail(Error::StoreError(StoreError::OpeningError { errors })))
        },
        (OpenState::Done, _) => (OpenState::Done, OpenAction::Connected(Backend::Automatic)),
    }
}

} // verus!
