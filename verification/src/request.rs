//! The first half of a call: what a request hands to the host, in which
//! order, and what the call as a whole amounts to.

use crate::db::query::{QueryArg, QueryType};
use crate::errors::{ErrorKind, HostErr, HostResult};
use crate::host::{Crossing, MAX_LEN};
use crate::retriever::retrieved;
use vstd::prelude::*;

verus! {

/// The bytes that a text crosses the boundary as.
pub open spec fn utf8(text: Seq<char>) -> Seq<u8> {
    vstd::utf8::encode_utf8(text)
}

/// One request of the guest, as the byte sequences and numbers that it
/// hands over.
pub enum Request {
    /// Store `value` under `key` for `ttl` seconds.
    CacheSet { key: Seq<u8>, value: Seq<u8>, ttl: i32 },
    /// Look `key` up.
    CacheGet { key: Seq<u8> },
    /// Run the prepared query `name` with the arguments `args`, each a
    /// name and a value.
    Db { kind: QueryType, name: Seq<u8>, args: Seq<(Seq<u8>, Seq<u8>)> },
    /// Send `query` to `endpoint`.
    GraphqlQuery { endpoint: Seq<u8>, query: Seq<u8> },
}

/// The names and values of `args` as bytes, in their order.
pub open spec fn arg_bytes(args: Seq<QueryArg>) -> Seq<(Seq<u8>, Seq<u8>)> {
    Seq::new(args.len(), |i: int| (utf8(args[i].name@), utf8(args[i].value@)))
}

impl Request {
    /// Whether every byte sequence of the request can cross the
    /// boundary.
    pub open spec fn encodable(self) -> bool {
        match self {
            Request::CacheSet { key, value, .. } => key.len() <= MAX_LEN && value.len() <= MAX_LEN,
            Request::CacheGet { key } => key.len() <= MAX_LEN,
            Request::Db { name, args, .. } => {
                &&& name.len() <= MAX_LEN
                &&& forall|i: int|
                    0 <= i < args.len() ==> (#[trigger] args[i]).0.len() <= MAX_LEN && args[i].1.len()
                        <= MAX_LEN
            },
            Request::GraphqlQuery { endpoint, query } => endpoint.len() <= MAX_LEN && query.len()
                <= MAX_LEN,
        }
    }

    /// The registrations that go before the call itself: one for each
    /// argument of a database request, in the order of the arguments.
    pub open spec fn registrations(self) -> Seq<Crossing> {
        match self {
            Request::Db { args, .. } => Seq::new(
                args.len(),
                |i: int| Crossing::AddVar { name: args[i].0, value: args[i].1 },
            ),
            _ => Seq::empty(),
        }
    }

    /// The one call that carries the request out, answered with
    /// `handle`. Storing into the cache is answered with nothing.
    pub open spec fn trigger(self, handle: i32) -> Crossing {
        match self {
            Request::CacheSet { key, value, ttl } => Crossing::CacheSet { key, value, ttl },
            Request::CacheGet { key } => Crossing::CacheGet { key, handle },
            Request::Db { kind, name, .. } => Crossing::DbExec { kind: kind.code(), name, handle },
            Request::GraphqlQuery { endpoint, query } => Crossing::GraphqlQuery {
                endpoint,
                query,
                handle,
            },
        }
    }
}

/// What a request that the host answers with nothing does: `calls` are
/// the calls made for it, `outcome` is what the caller gets.
///
/// A request that cannot be encoded fails before the host is called.
/// Any other makes its one call and succeeds.
pub open spec fn delivered(request: Request, calls: Seq<Crossing>, outcome: HostResult<()>) -> bool {
    if request.encodable() {
        &&& outcome == Ok::<(), HostErr>(())
        &&& calls == seq![request.trigger(0)]
    } else {
        &&& outcome == Err::<(), HostErr>(HostErr::Encoding)
        &&& calls == Seq::<Crossing>::empty()
    }
}

/// What a request that the host answers with a handle does: `calls` are
/// the calls made for it, `outcome` is what the caller gets.
///
/// A request that cannot be encoded fails before the host is called.
/// Any other makes its registrations, then its one call, and the
/// result behind the handle that this call was answered with is
/// retrieved.
pub open spec fn performed(
    table: Map<i32, ErrorKind>,
    request: Request,
    calls: Seq<Crossing>,
    outcome: HostResult<Vec<u8>>,
) -> bool {
    if request.encodable() {
        let asked = request.registrations().len() as int;
        &&& calls.len() > asked
        &&& calls[asked].handle() is Some
        &&& calls.take(asked + 1) == request.registrations().push(
            request.trigger(calls[asked].handle().unwrap()),
        )
        &&& retrieved(table, calls[asked].handle().unwrap(), calls.skip(asked + 1), outcome)
    } else {
        &&& outcome == Err::<Vec<u8>, HostErr>(HostErr::Encoding)
        &&& calls == Seq::<Crossing>::empty()
    }
}

/// A request whose registrations were made, whose one call was answered
/// with `handle`, and whose result was then retrieved by the calls
/// `fetched`, was performed.
pub proof fn lemma_performed(
    table: Map<i32, ErrorKind>,
    request: Request,
    handle: i32,
    fetched: Seq<Crossing>,
    outcome: HostResult<Vec<u8>>,
)
    requires
        request.encodable(),
        !(request is CacheSet),
        retrieved(table, handle, fetched, outcome),
    ensures
        performed(
            table,
            request,
            request.registrations().push(request.trigger(handle)) + fetched,
            outcome,
        ),
{
    let asked = request.registrations().len() as int;
    let run = request.registrations().push(request.trigger(handle));
    let calls = run + fetched;
    assert(calls[asked] == request.trigger(handle));
    assert(calls.take(asked + 1) == run);
    assert(calls.skip(asked + 1) == fetched);
}

/// The arguments of a database call are registered one by one, in the
/// order given, and all before the query is run; the query is run once,
/// and nothing follows it but the one fetch of its result, where it has
/// one.
pub proof fn lemma_registrations_precede_query(
    table: Map<i32, ErrorKind>,
    kind: QueryType,
    name: Seq<u8>,
    args: Seq<(Seq<u8>, Seq<u8>)>,
    calls: Seq<Crossing>,
    outcome: HostResult<Vec<u8>>,
)
    requires
        (Request::Db { kind, name, args }).encodable(),
        performed(table, Request::Db { kind, name, args }, calls, outcome),
    ensures
        calls.len() == args.len() + 1 + (if outcome is Ok {
            1nat
        } else {
            0nat
        }),
        forall|i: int|
            0 <= i < args.len() ==> #[trigger] calls[i] == (Crossing::AddVar {
                name: args[i].0,
                value: args[i].1,
            }),
        calls[args.len() as int] matches Crossing::DbExec { kind: code, name: run, handle }
            && code == kind.code() && run == name && (handle >= 0 <==> outcome is Ok),
        outcome is Ok ==> calls.last() == (Crossing::FetchResult { bytes: outcome->Ok_0@ }),
{
    let request = Request::Db { kind, name, args };
    let asked = args.len() as int;
    let handle = calls[asked].handle().unwrap();
    let run = request.registrations().push(request.trigger(handle));
    assert(calls.take(asked + 1).len() == asked + 1);
    assert(calls.skip(asked + 1).len() == calls.len() - asked - 1);
    assert forall|i: int| 0 <= i < args.len() implies #[trigger] calls[i] == (Crossing::AddVar {
        name: args[i].0,
        value: args[i].1,
    }) by {
        assert(calls.take(asked + 1)[i] == calls[i]);
        assert(run[i] == request.registrations()[i]);
    }
    assert(calls.take(asked + 1)[asked] == calls[asked]);
    assert(run[asked] == request.trigger(handle));
    if handle >= 0 {
        assert(calls.skip(asked + 1)[0] == calls.last());
    }
}

} // verus!
