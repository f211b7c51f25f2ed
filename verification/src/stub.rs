//! A host that lives in the guest's own memory: it keeps what is put
//! into its cache in a mapping, answers database and GraphQL calls as
//! it was told to, and records every call. It stands in where no real
//! host is at hand.

use crate::db::query::QueryType;
use crate::errors::{error_for, ErrorKind, HostErr, HostResult};
use crate::host::{Crossing, Host, Model, MAX_LEN};
use crate::request::{delivered, performed, Request};
use vstd::prelude::*;
use vstd::slice::slice_to_vec;

verus! {

/// The answer that a stub gives to every call of one primitive.
#[derive(Debug)]
pub enum Reply {
    /// The call fails with this sentinel.
    Sentinel(i32),
    /// The call succeeds, and these bytes are its result.
    Bytes(Vec<u8>),
}

/// The answer of a stub, as a value.
pub enum Answer {
    Sentinel(i32),
    Bytes(Seq<u8>),
}

impl View for Reply {
    type V = Answer;

    open spec fn view(&self) -> Answer {
        match self {
            Reply::Sentinel(sentinel) => Answer::Sentinel(*sentinel),
            Reply::Bytes(bytes) => Answer::Bytes(bytes@),
        }
    }
}

impl Answer {
    /// A sentinel is negative, and a result can cross the boundary.
    pub open spec fn valid(self) -> bool {
        match self {
            Answer::Sentinel(sentinel) => sentinel < 0,
            Answer::Bytes(bytes) => bytes.len() <= MAX_LEN,
        }
    }

    /// The handle that announces this answer.
    pub open spec fn handle(self) -> int {
        match self {
            Answer::Sentinel(sentinel) => sentinel as int,
            Answer::Bytes(bytes) => bytes.len() as int,
        }
    }

    /// The bytes that this answer stages.
    pub open spec fn staged(self) -> Seq<u8> {
        match self {
            Answer::Sentinel(_) => Seq::empty(),
            Answer::Bytes(bytes) => bytes,
        }
    }
}

/// What a stub was told: the sentinel for a key that the cache does not
/// hold, and the answers to database and GraphQL calls.
pub struct Script {
    pub miss: i32,
    pub database: Answer,
    pub graphql: Answer,
}

impl Script {
    pub open spec fn valid(self) -> bool {
        &&& self.miss < 0
        &&& self.database.valid()
        &&& self.graphql.valid()
    }
}

/// The cache of a stub after the calls of `trace`: each key with the
/// value that was last stored under it.
pub open spec fn store_after(trace: Seq<Crossing>) -> Map<Seq<u8>, Seq<u8>>
    decreases trace.len(),
{
    if trace.len() == 0 {
        Map::empty()
    } else {
        match trace.last() {
            Crossing::CacheSet { key, value, .. } => store_after(trace.drop_last()).insert(
                key,
                value,
            ),
            _ => store_after(trace.drop_last()),
        }
    }
}

/// The result that a stub has staged after the calls of `trace`: that
/// of the last call that asked for one, until it is fetched.
pub open spec fn staged_after(script: Script, trace: Seq<Crossing>) -> Seq<u8>
    decreases trace.len(),
{
    if trace.len() == 0 {
        Seq::empty()
    } else {
        let history = trace.drop_last();
        match trace.last() {
            Crossing::CacheGet { key, .. } => if store_after(history).contains_key(key) {
                store_after(history)[key]
            } else {
                Seq::empty()
            },
            Crossing::DbExec { .. } => script.database.staged(),
            Crossing::GraphqlQuery { .. } => script.graphql.staged(),
            Crossing::FetchResult { .. } => Seq::empty(),
            _ => staged_after(script, history),
        }
    }
}

/// Whether `buffer` holds `staged` at its start, as far as both reach.
pub open spec fn copied(staged: Seq<u8>, buffer: Seq<u8>) -> bool {
    forall|i: int|
        #![trigger buffer[i]]
        0 <= i < buffer.len() && i < staged.len() ==> buffer[i] == staged[i]
}

/// Whether `crossing` is what a stub does after the calls of `history`.
///
/// The cache answers with the length of the value stored under the key,
/// or with the sentinel for a miss. Database and GraphQL calls get the
/// answers of the script. A fetch copies the staged result to the start
/// of the buffer, as far as both reach.
pub open spec fn answers(script: Script, history: Seq<Crossing>, crossing: Crossing) -> bool {
    match crossing {
        Crossing::CacheGet { key, handle } => if store_after(history).contains_key(key) {
            handle == store_after(history)[key].len()
        } else {
            handle == script.miss
        },
        Crossing::DbExec { handle, .. } => handle == script.database.handle(),
        Crossing::GraphqlQuery { handle, .. } => handle == script.graphql.handle(),
        Crossing::FetchResult { bytes } => copied(staged_after(script, history), bytes),
        _ => true,
    }
}

/// Whether `trace` is the record of a stub with this script: each of
/// its calls was answered as a stub does after the calls before it.
pub open spec fn faithful(script: Script, trace: Seq<Crossing>) -> bool {
    forall|i: int| 0 <= i < trace.len() ==> answers(script, trace.take(i), #[trigger] trace[i])
}

/// One more call, answered as a stub does, keeps a record faithful.
pub proof fn lemma_faithful_push(script: Script, trace: Seq<Crossing>, crossing: Crossing)
    requires
        faithful(script, trace),
        answers(script, trace, crossing),
    ensures
        faithful(script, trace.push(crossing)),
{
    let longer = trace.push(crossing);
    assert forall|i: int| 0 <= i < longer.len() implies answers(
        script,
        longer.take(i),
        #[trigger] longer[i],
    ) by {
        if i < trace.len() {
            assert(longer.take(i) == trace.take(i));
        } else {
            assert(longer.take(i) == trace);
        }
    }
}

/// What a call amounts to on a stub that had recorded `history`, where
/// the stub answers the one call with `handle` and stages `staged` for
/// it: a negative handle is the failure that `table` gives, any other
/// brings `staged` back.
proof fn lemma_answered(
    script: Script,
    table: Map<i32, ErrorKind>,
    request: Request,
    history: Seq<Crossing>,
    calls: Seq<Crossing>,
    outcome: HostResult<Vec<u8>>,
    handle: i32,
    staged: Seq<u8>,
)
    requires
        faithful(script, history + calls),
        request.encodable(),
        !(request is CacheSet),
        performed(table, request, calls, outcome),
        handle >= 0 ==> handle == staged.len(),
        forall|h: i32|
            answers(script, history + request.registrations(), #[trigger] request.trigger(h)) ==> h
                == handle,
        staged_after(script, (history + request.registrations()).push(request.trigger(handle)))
            == staged,
    ensures
        handle < 0 ==> outcome == Err::<Vec<u8>, HostErr>(error_for(table, handle)),
        handle >= 0 ==> outcome is Ok && outcome->Ok_0@ == staged,
{
    let record = history + calls;
    let asked = request.registrations().len() as int;
    let at = history.len() + asked;
    let answered = calls[asked].handle().unwrap();
    let run = request.registrations().push(request.trigger(answered));
    assert(calls.take(asked + 1)[asked] == calls[asked]);
    assert(record[at] == request.trigger(answered));
    assert(record.take(at) == history + request.registrations()) by {
        assert(record.take(at) =~= history + calls.take(asked + 1).take(asked));
        assert(run.take(asked) == request.registrations());
    }
    assert(answers(script, record.take(at), record[at]));
    assert(answered == handle);
    if handle >= 0 {
        let bytes = outcome->Ok_0@;
        let fetched = calls.skip(asked + 1);
        assert(fetched == seq![Crossing::FetchResult { bytes }]);
        assert(fetched.len() == 1);
        assert(calls.len() == asked + 2);
        assert(fetched[0] == calls[asked + 1]);
        assert(record[at + 1] == Crossing::FetchResult { bytes });
        assert(record.take(at + 1) == (history + request.registrations()).push(
            request.trigger(handle),
        )) by {
            assert(record.take(at + 1) =~= history + calls.take(asked + 1));
            assert(history + run =~= (history + request.registrations()).push(
                request.trigger(handle),
            ));
        }
        assert(answers(script, record.take(at + 1), record[at + 1]));
        assert(copied(staged, bytes));
        assert(bytes =~= staged);
    }
}

/// What is stored into the cache of a stub is what the next lookup of
/// that key retrieves, whatever the time-to-live: where a stub had
/// recorded `history`, `storing` are the calls of a store of `value`
/// under `key`, and `finding` are those of a lookup of `key` that
/// followed it, the lookup succeeded with `value`.
pub proof fn lemma_cache_round_trip(
    script: Script,
    table: Map<i32, ErrorKind>,
    key: Seq<u8>,
    value: Seq<u8>,
    ttl: i32,
    history: Seq<Crossing>,
    storing: Seq<Crossing>,
    finding: Seq<Crossing>,
    stored: HostResult<()>,
    found: HostResult<Vec<u8>>,
)
    requires
        faithful(script, history + storing + finding),
        key.len() <= MAX_LEN,
        value.len() <= MAX_LEN,
        delivered(Request::CacheSet { key, value, ttl }, storing, stored),
        performed(table, Request::CacheGet { key }, finding, found),
    ensures
        stored is Ok,
        found is Ok,
        found->Ok_0@ == value,
{
    let request = Request::CacheGet { key };
    let before = history + storing;
    let handle = value.len() as i32;
    assert(before + request.registrations() == before);
    assert(before.drop_last() == history);
    assert(before.last() == Crossing::CacheSet { key, value, ttl });
    assert(store_after(before)[key] == value);
    assert(before.push(request.trigger(handle)).drop_last() == before);
    assert(before.push(request.trigger(handle)).last() == request.trigger(handle));
    lemma_answered(script, table, request, before, finding, found, handle, value);
}

/// A lookup of a key that a stub does not hold fails with what `table`
/// gives for the sentinel of a miss: `history` is what the stub had
/// recorded, `calls` are the calls of the lookup.
pub proof fn lemma_cache_miss(
    script: Script,
    table: Map<i32, ErrorKind>,
    key: Seq<u8>,
    history: Seq<Crossing>,
    calls: Seq<Crossing>,
    outcome: HostResult<Vec<u8>>,
)
    requires
        script.valid(),
        faithful(script, history + calls),
        key.len() <= MAX_LEN,
        !store_after(history).contains_key(key),
        performed(table, Request::CacheGet { key }, calls, outcome),
    ensures
        outcome == Err::<Vec<u8>, HostErr>(error_for(table, script.miss)),
{
    let request = Request::CacheGet { key };
    assert(history + request.registrations() == history);
    assert(history.push(request.trigger(script.miss)).last() == request.trigger(script.miss));
    assert(history.push(request.trigger(script.miss)).drop_last() == history);
    lemma_answered(
        script,
        table,
        request,
        history,
        calls,
        outcome,
        script.miss,
        Seq::<u8>::empty(),
    );
}

/// A database call on a stub gets the answer of the script, whatever
/// its arguments and whatever the stub had recorded: the failure that
/// `table` gives for its sentinel, or its bytes.
pub proof fn lemma_database_answer(
    script: Script,
    table: Map<i32, ErrorKind>,
    kind: QueryType,
    name: Seq<u8>,
    args: Seq<(Seq<u8>, Seq<u8>)>,
    history: Seq<Crossing>,
    calls: Seq<Crossing>,
    outcome: HostResult<Vec<u8>>,
)
    requires
        script.valid(),
        faithful(script, history + calls),
        (Request::Db { kind, name, args }).encodable(),
        performed(table, Request::Db { kind, name, args }, calls, outcome),
    ensures
        match script.database {
            Answer::Sentinel(sentinel) => outcome == Err::<Vec<u8>, HostErr>(
                error_for(table, sentinel),
            ),
            Answer::Bytes(bytes) => outcome is Ok && outcome->Ok_0@ == bytes,
        },
{
    let request = Request::Db { kind, name, args };
    let handle = script.database.handle() as i32;
    let asked = history + request.registrations();
    assert(asked.push(request.trigger(handle)).last() == request.trigger(handle));
    lemma_answered(
        script,
        table,
        request,
        history,
        calls,
        outcome,
        handle,
        script.database.staged(),
    );
}

/// A GraphQL call on a stub gets the answer of the script, whatever is
/// asked of which endpoint and whatever the stub had recorded: the
/// failure that `table` gives for its sentinel, or its bytes.
pub proof fn lemma_graphql_answer(
    script: Script,
    table: Map<i32, ErrorKind>,
    endpoint: Seq<u8>,
    query: Seq<u8>,
    history: Seq<Crossing>,
    calls: Seq<Crossing>,
    outcome: HostResult<Vec<u8>>,
)
    requires
        script.valid(),
        faithful(script, history + calls),
        (Request::GraphqlQuery { endpoint, query }).encodable(),
        performed(table, Request::GraphqlQuery { endpoint, query }, calls, outcome),
    ensures
        match script.graphql {
            Answer::Sentinel(sentinel) => outcome == Err::<Vec<u8>, HostErr>(
                error_for(table, sentinel),
            ),
            Answer::Bytes(bytes) => outcome is Ok && outcome->Ok_0@ == bytes,
        },
{
    let request = Request::GraphqlQuery { endpoint, query };
    let handle = script.graphql.handle() as i32;
    let asked = history + request.registrations();
    assert(asked.push(request.trigger(handle)).last() == request.trigger(handle));
    lemma_answered(
        script,
        table,
        request,
        history,
        calls,
        outcome,
        handle,
        script.graphql.staged(),
    );
}

/// One call of a host, as a stub records it.
#[derive(Clone, Debug, PartialEq, Eq)]
pub enum Record {
    AddVar { name: Vec<u8>, value: Vec<u8> },
    CacheSet { key: Vec<u8>, value: Vec<u8>, ttl: i32 },
    CacheGet { key: Vec<u8>, handle: i32 },
    DbExec { kind: i32, name: Vec<u8>, handle: i32 },
    GraphqlQuery { endpoint: Vec<u8>, query: Vec<u8>, handle: i32 },
    FetchResult { bytes: Vec<u8> },
}

impl View for Record {
    type V = Crossing;

    open spec fn view(&self) -> Crossing {
        match self {
            Record::AddVar { name, value } => Crossing::AddVar { name: name@, value: value@ },
            Record::CacheSet { key, value, ttl } => Crossing::CacheSet {
                key: key@,
                value: value@,
                ttl: *ttl,
            },
            Record::CacheGet { key, handle } => Crossing::CacheGet { key: key@, handle: *handle },
            Record::DbExec { kind, name, handle } => Crossing::DbExec {
                kind: *kind,
                name: name@,
                handle: *handle,
            },
            Record::GraphqlQuery { endpoint, query, handle } => Crossing::GraphqlQuery {
                endpoint: endpoint@,
                query: query@,
                handle: *handle,
            },
            Record::FetchResult { bytes } => Crossing::FetchResult { bytes: bytes@ },
        }
    }
}

/// The calls that a list of records stands for.
pub open spec fn trace_of(log: Seq<Record>) -> Seq<Crossing> {
    Seq::new(log.len(), |i: int| log[i]@)
}

/// The mapping that a list of entries amounts to: a later entry for a
/// key replaces an earlier one.
pub open spec fn shelf_of(entries: Seq<(Vec<u8>, Vec<u8>)>) -> Map<Seq<u8>, Seq<u8>>
    decreases entries.len(),
{
    if entries.len() == 0 {
        Map::empty()
    } else {
        shelf_of(entries.drop_last()).insert(entries.last().0@, entries.last().1@)
    }
}

/// The newest entry for a key decides what is stored under it.
proof fn lemma_newest_entry_decides(entries: Seq<(Vec<u8>, Vec<u8>)>, at: int, key: Seq<u8>)
    requires
        0 <= at < entries.len(),
        entries[at].0@ == key,
        forall|j: int| at < j < entries.len() ==> entries[j].0@ != key,
    ensures
        shelf_of(entries).contains_key(key),
        shelf_of(entries)[key] == entries[at].1@,
    decreases entries.len(),
{
    if at < entries.len() - 1 {
        lemma_newest_entry_decides(entries.drop_last(), at, key);
    }
}

/// A key that has no entry is not stored.
proof fn lemma_no_entry_is_absent(entries: Seq<(Vec<u8>, Vec<u8>)>, key: Seq<u8>)
    requires
        forall|j: int| 0 <= j < entries.len() ==> entries[j].0@ != key,
    ensures
        !shelf_of(entries).contains_key(key),
    decreases entries.len(),
{
    if entries.len() > 0 {
        lemma_no_entry_is_absent(entries.drop_last(), key);
    }
}

/// Whether two byte sequences are the same.
fn same_bytes(left: &[u8], right: &[u8]) -> (same: bool)
    ensures
        same == (left@ == right@),
{
    if left.len() != right.len() {
        return false;
    }
    let mut i: usize = 0;
    while i < left.len()
        invariant
            left@.len() == right@.len(),
            i <= left@.len(),
            forall|j: int| 0 <= j < i ==> left@[j] == right@[j],
        decreases left@.len() - i,
    {
        if left[i] != right[i] {
            return false;
        }
        i = i + 1;
    }
    assert(left@ =~= right@);
    true
}

/// The place of the newest entry for `key`, if there is one.
fn find(entries: &Vec<(Vec<u8>, Vec<u8>)>, key: &[u8]) -> (place: Option<usize>)
    ensures
        place is Some <==> shelf_of(entries@).contains_key(key@),
        place is Some ==> place.unwrap() < entries@.len() && shelf_of(entries@)[key@]
            == entries@[place.unwrap() as int].1@,
{
    let mut i: usize = entries.len();
    while i > 0
        invariant
            i <= entries@.len(),
            forall|j: int| i <= j < entries@.len() ==> entries@[j].0@ != key@,
        decreases i,
    {
        i = i - 1;
        if same_bytes(entries[i].0.as_slice(), key) {
            proof {
                lemma_newest_entry_decides(entries@, i as int, key@);
            }
            return Some(i);
        }
    }
    proof {
        lemma_no_entry_is_absent(entries@, key@);
    }
    None
}

/// What a stub holds.
struct Shelf {
    miss: i32,
    database: Reply,
    graphql: Reply,
    entries: Vec<(Vec<u8>, Vec<u8>)>,
    staged: Vec<u8>,
    log: Vec<Record>,
}

impl Shelf {
    spec fn script(&self) -> Script {
        Script { miss: self.miss, database: self.database@, graphql: self.graphql@ }
    }

    spec fn trace(&self) -> Seq<Crossing> {
        trace_of(self.log@)
    }

    /// The entries are the cache, the staged bytes the staged result,
    /// and the log a faithful record, all of the same calls.
    spec fn wf(&self) -> bool {
        &&& self.script().valid()
        &&& faithful(self.script(), self.trace())
        &&& shelf_of(self.entries@) == store_after(self.trace())
        &&& self.staged@ == staged_after(self.script(), self.trace())
        &&& self.staged@.len() <= MAX_LEN
        &&& forall|i: int| 0 <= i < self.entries@.len() ==> self.entries@[i].1@.len() <= MAX_LEN
    }

    /// A stub that was never called, with a script of its own.
    fn blank() -> (shelf: Shelf)
        ensures
            shelf.wf(),
    {
        Shelf {
            miss: -1,
            database: Reply::Sentinel(-1),
            graphql: Reply::Sentinel(-1),
            entries: Vec::new(),
            staged: Vec::new(),
            log: Vec::new(),
        }
    }

    /// Adds `record` to the log and stages `staged`.
    fn note(&mut self, record: Record, staged: Vec<u8>)
        requires
            old(self).script().valid(),
            faithful(old(self).script(), old(self).trace()),
            answers(old(self).script(), old(self).trace(), record@),
            staged@ == staged_after(old(self).script(), old(self).trace().push(record@)),
            staged@.len() <= MAX_LEN,
        ensures
            final(self).script() == old(self).script(),
            final(self).entries == old(self).entries,
            final(self).trace() == old(self).trace().push(record@),
            final(self).trace() == old(self).trace() + seq![record@],
            faithful(final(self).script(), final(self).trace()),
            final(self).staged == staged,
    {
        proof {
            lemma_faithful_push(self.script(), self.trace(), record@);
            assert(trace_of(self.log@.push(record)) =~= trace_of(self.log@).push(record@));
            assert(trace_of(self.log@).push(record@) =~= trace_of(self.log@) + seq![record@]);
        }
        self.log.push(record);
        self.staged = staged;
    }
}

/// The handle and the staged bytes that `reply` amounts to.
fn play(reply: &Reply) -> (answer: (i32, Vec<u8>))
    requires
        reply@.valid(),
    ensures
        answer.0 == reply@.handle(),
        answer.1@ == reply@.staged(),
{
    match reply {
        Reply::Sentinel(sentinel) => (*sentinel, Vec::new()),
        Reply::Bytes(bytes) => (bytes.len() as i32, slice_to_vec(bytes.as_slice())),
    }
}

/// Whether `reply` can be the answer of a stub.
fn playable(reply: &Reply) -> (valid: bool)
    ensures
        valid == reply@.valid(),
{
    match reply {
        Reply::Sentinel(sentinel) => *sentinel < 0,
        Reply::Bytes(bytes) => bytes.len() <= MAX_LEN,
    }
}

/// A host in the guest's own memory.
pub struct StubHost {
    state: Shelf,
}

impl StubHost {
    /// What every stub keeps to: its log is the faithful record of the
    /// calls made through it.
    #[verifier::type_invariant]
    pub closed spec fn wf(&self) -> bool {
        self.state.wf()
    }

    /// A stub that answers a lookup of a key it does not hold with
    /// `miss`, every database call with `database` and every GraphQL
    /// call with `graphql`. There is none where `miss` or a sentinel
    /// among the answers is not negative, or where an answer is too
    /// long to cross the boundary.
    pub fn new(miss: i32, database: Reply, graphql: Reply) -> (stub: Option<StubHost>)
        ensures
            stub is Some <==> (Script { miss, database: database@, graphql: graphql@ }).valid(),
            stub is Some ==> stub.unwrap().model() == Some(
                Model {
                    setup: Script { miss, database: database@, graphql: graphql@ },
                    trace: Seq::<Crossing>::empty(),
                },
            ),
    {
        if miss < 0 && playable(&database) && playable(&graphql) {
            let state = Shelf {
                miss,
                database,
                graphql,
                entries: Vec::new(),
                staged: Vec::new(),
                log: Vec::new(),
            };
            assert(state.trace() =~= Seq::<Crossing>::empty());
            Some(StubHost { state })
        } else {
            None
        }
    }

    /// The calls made to this stub, oldest first.
    pub fn log(&self) -> (log: &Vec<Record>)
        ensures
            self.model() matches Some(model) && trace_of(log@) == model.trace,
    {
        &self.state.log
    }

    /// A stub has a model of itself: a script that can be played, and
    /// a record that is faithful to it.
    pub proof fn lemma_faithful(self)
        requires
            self.wf(),
        ensures
            self.model() matches Some(model) && model.setup.valid() && faithful(
                model.setup,
                model.trace,
            ),
    {
    }
}

impl Host for StubHost {
    type Setup = Script;

    closed spec fn model(&self) -> Option<Model<Script>> {
        Some(Model { setup: self.state.script(), trace: self.state.trace() })
    }

    fn cache_set(&mut self, key: &[u8], value: &[u8], ttl: i32) {
        proof {
            use_type_invariant(&*self);
        }
        let mut state = Shelf::blank();
        core::mem::swap(&mut self.state, &mut state);
        let record = Record::CacheSet { key: slice_to_vec(key), value: slice_to_vec(value), ttl };
        let staged = slice_to_vec(state.staged.as_slice());
        let entry = (slice_to_vec(key), slice_to_vec(value));
        proof {
            assert(state.trace().push(record@).drop_last() == state.trace());
            assert(state.entries@.push(entry).drop_last() == state.entries@);
        }
        state.entries.push(entry);
        state.note(record, staged);
        core::mem::swap(&mut self.state, &mut state);
    }

    fn cache_get(&mut self, key: &[u8]) -> (handle: i32)
        ensures
            old(self).model() matches Some(model) && answers(
                model.setup,
                model.trace,
                Crossing::CacheGet { key: key@, handle },
            ),
    {
        proof {
            use_type_invariant(&*self);
        }
        let mut state = Shelf::blank();
        core::mem::swap(&mut self.state, &mut state);
        let (handle, staged): (i32, Vec<u8>) = match find(&state.entries, key) {
            Some(place) => {
                let value = state.entries[place].1.as_slice();
                (value.len() as i32, slice_to_vec(value))
            },
            None => (state.miss, Vec::new()),
        };
        let record = Record::CacheGet { key: slice_to_vec(key), handle };
        proof {
            assert(state.trace().push(record@).drop_last() == state.trace());
        }
        state.note(record, staged);
        core::mem::swap(&mut self.state, &mut state);
        handle
    }

    fn add_var(&mut self, name: &[u8], value: &[u8]) {
        proof {
            use_type_invariant(&*self);
        }
        let mut state = Shelf::blank();
        core::mem::swap(&mut self.state, &mut state);
        let record = Record::AddVar { name: slice_to_vec(name), value: slice_to_vec(value) };
        let staged = slice_to_vec(state.staged.as_slice());
        proof {
            assert(state.trace().push(record@).drop_last() == state.trace());
        }
        state.note(record, staged);
        core::mem::swap(&mut self.state, &mut state);
    }

    fn db_exec(&mut self, kind: i32, name: &[u8]) -> (handle: i32)
        ensures
            old(self).model() matches Some(model) && answers(
                model.setup,
                model.trace,
                Crossing::DbExec { kind, name: name@, handle },
            ),
    {
        proof {
            use_type_invariant(&*self);
        }
        let mut state = Shelf::blank();
        core::mem::swap(&mut self.state, &mut state);
        let (handle, staged): (i32, Vec<u8>) = play(&state.database);
        let record = Record::DbExec { kind, name: slice_to_vec(name), handle };
        proof {
            assert(state.trace().push(record@).drop_last() == state.trace());
        }
        state.note(record, staged);
        core::mem::swap(&mut self.state, &mut state);
        handle
    }

    fn graphql_query(&mut self, endpoint: &[u8], query: &[u8]) -> (handle: i32)
        ensures
            old(self).model() matches Some(model) && answers(
                model.setup,
                model.trace,
                Crossing::GraphqlQuery { endpoint: endpoint@, query: query@, handle },
            ),
    {
        proof {
            use_type_invariant(&*self);
        }
        let mut state = Shelf::blank();
        core::mem::swap(&mut self.state, &mut state);
        let (handle, staged): (i32, Vec<u8>) = play(&state.graphql);
        let record = Record::GraphqlQuery {
            endpoint: slice_to_vec(endpoint),
            query: slice_to_vec(query),
            handle,
        };
        proof {
            assert(state.trace().push(record@).drop_last() == state.trace());
        }
        state.note(record, staged);
        core::mem::swap(&mut self.state, &mut state);
        handle
    }

    fn fetch_result(&mut self, dest: &mut [u8])
        ensures
            old(self).model() matches Some(model) && answers(
                model.setup,
                model.trace,
                Crossing::FetchResult { bytes: final(dest)@ },
            ),
            forall|i: int|
                staged_after(
                    old(self).model().unwrap().setup,
                    old(self).model().unwrap().trace,
                ).len() <= i < old(dest)@.len() ==> #[trigger] final(dest)@[i] == old(dest)@[i],
    {
        proof {
            use_type_invariant(&*self);
        }
        let mut state = Shelf::blank();
        core::mem::swap(&mut self.state, &mut state);
        let mut i: usize = 0;
        while i < dest.len() && i < state.staged.len()
            invariant
                dest@.len() == old(dest)@.len(),
                i <= state.staged@.len(),
                forall|j: int| 0 <= j < i ==> dest@[j] == state.staged@[j],
                forall|j: int| i <= j < dest@.len() ==> dest@[j] == old(dest)@[j],
            decreases dest@.len() - i,
        {
            dest[i] = state.staged[i];
            i = i + 1;
        }
        let record = Record::FetchResult { bytes: slice_to_vec(dest) };
        proof {
            assert(state.trace().push(record@).drop_last() == state.trace());
        }
        state.note(record, Vec::new());
        core::mem::swap(&mut self.state, &mut state);
    }
}

} // verus!
