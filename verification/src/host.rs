//! The boundary between guest and host: the primitives that the host
//! offers, the record of what crossed, and the guest that calls.

use crate::errors::{ErrorKind, ErrorMap};
use vstd::prelude::*;

verus! {

/// The longest byte sequence that can be handed to the host: a length
/// crosses the boundary as a signed 32-bit number.
pub const MAX_LEN: usize = 0x7fff_ffff;

/// One call of a host primitive, with what was handed over and what came
/// back.
pub enum Crossing {
    /// A named argument was registered for the next database call.
    AddVar { name: Seq<u8>, value: Seq<u8> },
    /// A value was put into the cache.
    CacheSet { key: Seq<u8>, value: Seq<u8>, ttl: i32 },
    /// The cache was asked for a key and answered with `handle`.
    CacheGet { key: Seq<u8>, handle: i32 },
    /// A named query was run and answered with `handle`.
    DbExec { kind: i32, name: Seq<u8>, handle: i32 },
    /// A GraphQL query was sent and answered with `handle`.
    GraphqlQuery { endpoint: Seq<u8>, query: Seq<u8>, handle: i32 },
    /// The staged result was copied into a buffer of the guest, which
    /// then held `bytes`.
    FetchResult { bytes: Seq<u8> },
}

impl Crossing {
    /// The handle that the host answered with: a size, or a negative
    /// sentinel. Calls that answer nothing have none.
    pub open spec fn handle(self) -> Option<i32> {
        match self {
            Crossing::CacheGet { handle, .. } => Some(handle),
            Crossing::DbExec { handle, .. } => Some(handle),
            Crossing::GraphqlQuery { handle, .. } => Some(handle),
            _ => None,
        }
    }
}

/// What a host can say of itself: what it was made with, and every call
/// that was made to it, oldest first.
pub struct Model<S> {
    pub setup: S,
    pub trace: Seq<Crossing>,
}

/// Whether a host that said `before` of itself says `after` once
/// `calls` were made to it: it was made with the same, and the calls
/// are added to its trace. A host that says nothing is held to nothing.
pub open spec fn noted<S>(before: Option<Model<S>>, after: Option<Model<S>>, calls: Seq<
    Crossing,
>) -> bool {
    match before {
        Some(model) => after == Some(Model { setup: model.setup, trace: model.trace + calls }),
        None => true,
    }
}

/// The primitives of the host, one method each. A byte sequence crosses
/// as an address and a length, so none is longer than `MAX_LEN`.
///
/// A host may keep a model of itself. One that does adds each call to
/// the trace of its model and leaves the setup alone; one that does not
/// has nothing to keep to but its primitives' shapes.
pub trait Host {
    /// What a host of this type is made with.
    type Setup;

    /// What this host says of itself, if anything.
    open spec fn model(&self) -> Option<Model<Self::Setup>> {
        None
    }

    /// Puts `value` into the cache under `key`, to expire after `ttl`
    /// seconds.
    fn cache_set(&mut self, key: &[u8], value: &[u8], ttl: i32)
        requires
            key@.len() <= MAX_LEN,
            value@.len() <= MAX_LEN,
        ensures
            noted(
                old(self).model(),
                final(self).model(),
                seq![Crossing::CacheSet { key: key@, value: value@, ttl }],
            ),
    ;

    /// Asks the cache for `key`. The answer is the size of the value
    /// now staged, or a negative sentinel.
    fn cache_get(&mut self, key: &[u8]) -> (handle: i32)
        requires
            key@.len() <= MAX_LEN,
        ensures
            noted(
                old(self).model(),
                final(self).model(),
                seq![Crossing::CacheGet { key: key@, handle }],
            ),
    ;

    /// Registers one named argument for the next database call.
    fn add_var(&mut self, name: &[u8], value: &[u8])
        requires
            name@.len() <= MAX_LEN,
            value@.len() <= MAX_LEN,
        ensures
            noted(
                old(self).model(),
                final(self).model(),
                seq![Crossing::AddVar { name: name@, value: value@ }],
            ),
    ;

    /// Runs the prepared query `name` of kind `kind` with the arguments
    /// registered since the last database call. The answer is the size
    /// of the result now staged, or a negative sentinel.
    fn db_exec(&mut self, kind: i32, name: &[u8]) -> (handle: i32)
        requires
            name@.len() <= MAX_LEN,
        ensures
            noted(
                old(self).model(),
                final(self).model(),
                seq![Crossing::DbExec { kind, name: name@, handle }],
            ),
    ;

    /// Sends `query` to the GraphQL endpoint `endpoint`. The answer is
    /// the size of the response now staged, or a negative sentinel.
    fn graphql_query(&mut self, endpoint: &[u8], query: &[u8]) -> (handle: i32)
        requires
            endpoint@.len() <= MAX_LEN,
            query@.len() <= MAX_LEN,
        ensures
            noted(
                old(self).model(),
                final(self).model(),
                seq![Crossing::GraphqlQuery { endpoint: endpoint@, query: query@, handle }],
            ),
    ;

    /// Copies the staged result into `dest`, which the guest has sized
    /// for it.
    fn fetch_result(&mut self, dest: &mut [u8])
        requires
            old(dest)@.len() <= MAX_LEN,
        ensures
            final(dest)@.len() == old(dest)@.len(),
            noted(
                old(self).model(),
                final(self).model(),
                seq![Crossing::FetchResult { bytes: final(dest)@ }],
            ),
    ;
}

/// A guest: the host it calls, the meaning of that host's sentinels,
/// and the record of every call it has made, oldest first.
///
/// The host is reached through the guest alone, so that no call goes
/// unrecorded.
pub struct Guest<H: Host> {
    host: H,
    errors: ErrorMap,
    trace: Ghost<Seq<Crossing>>,
}

impl<H: Host> Guest<H> {
    /// The host of this guest.
    pub closed spec fn spec_host(&self) -> &H {
        &self.host
    }

    /// The meaning of the host's sentinels.
    pub closed spec fn spec_errors(&self) -> &ErrorMap {
        &self.errors
    }

    /// The calls that this guest has made, oldest first.
    pub closed spec fn trace(&self) -> Seq<Crossing> {
        self.trace@
    }

    /// The calls that this guest has made since it was `earlier`.
    pub open spec fn since(self, earlier: Guest<H>) -> Seq<Crossing> {
        self.trace().skip(earlier.trace().len() as int)
    }

    /// Whether this guest is `earlier` after the calls `calls` and
    /// nothing else: it reads sentinels as before, the calls are added
    /// to its trace, and its host has noted them.
    pub open spec fn made(self, earlier: Guest<H>, calls: Seq<Crossing>) -> bool {
        &&& self.errors()@ == earlier.errors()@
        &&& self.trace() == earlier.trace() + calls
        &&& noted(earlier.host().model(), self.host().model(), calls)
    }

    /// Whether this guest is `earlier` after some calls and nothing
    /// else.
    pub open spec fn proceeded(self, earlier: Guest<H>) -> bool {
        self.made(earlier, self.since(earlier))
    }

    /// A guest of `host` that reads its sentinels by `errors` and has
    /// made no call yet.
    pub fn new(host: H, errors: ErrorMap) -> (guest: Guest<H>)
        ensures
            *guest.host() == host,
            *guest.errors() == errors,
            guest.trace() == Seq::<Crossing>::empty(),
    {
        Guest { host, errors, trace: Ghost(Seq::empty()) }
    }

    /// The host of this guest.
    #[verifier::when_used_as_spec(spec_host)]
    pub fn host(&self) -> (host: &H)
        ensures
            host == self.spec_host(),
    {
        &self.host
    }

    /// The meaning of the host's sentinels.
    #[verifier::when_used_as_spec(spec_errors)]
    pub fn errors(&self) -> (errors: &ErrorMap)
        ensures
            errors == self.spec_errors(),
    {
        &self.errors
    }

    /// Gives `sentinel` the kind `kind` from now on, as
    /// `ErrorMap::assign` does. No call is made.
    pub fn assign(&mut self, sentinel: i32, kind: ErrorKind) -> (accepted: bool)
        ensures
            accepted == (sentinel < 0),
            accepted ==> final(self).errors()@ == old(self).errors()@.insert(sentinel, kind),
            !accepted ==> final(self).errors()@ == old(self).errors()@,
            final(self).host() == old(self).host(),
            final(self).trace() == old(self).trace(),
    {
        self.errors.assign(sentinel, kind)
    }

    /// Gives the host back.
    pub fn into_host(self) -> (host: H)
        ensures
            host == *self.host(),
    {
        self.host
    }

    /// Calls `Host::cache_set` and records the call.
    pub(crate) fn cache_set(&mut self, key: &[u8], value: &[u8], ttl: i32)
        requires
            key@.len() <= MAX_LEN,
            value@.len() <= MAX_LEN,
        ensures
            final(self).made(
                *old(self),
                seq![Crossing::CacheSet { key: key@, value: value@, ttl }],
            ),
    {
        self.host.cache_set(key, value, ttl);
        proof {
            self.trace@ = self.trace@ + seq![Crossing::CacheSet { key: key@, value: value@, ttl }];
        }
    }

    /// Calls `Host::cache_get` and records the call.
    pub(crate) fn cache_get(&mut self, key: &[u8]) -> (handle: i32)
        requires
            key@.len() <= MAX_LEN,
        ensures
            final(self).made(*old(self), seq![Crossing::CacheGet { key: key@, handle }]),
    {
        let handle: i32 = self.host.cache_get(key);
        proof {
            self.trace@ = self.trace@ + seq![Crossing::CacheGet { key: key@, handle }];
        }
        handle
    }

    /// Calls `Host::add_var` and records the call.
    pub(crate) fn add_var(&mut self, name: &[u8], value: &[u8])
        requires
            name@.len() <= MAX_LEN,
            value@.len() <= MAX_LEN,
        ensures
            final(self).made(*old(self), seq![Crossing::AddVar { name: name@, value: value@ }]),
    {
        self.host.add_var(name, value);
        proof {
            self.trace@ = self.trace@ + seq![Crossing::AddVar { name: name@, value: value@ }];
        }
    }

    /// Calls `Host::db_exec` and records the call.
    pub(crate) fn db_exec(&mut self, kind: i32, name: &[u8]) -> (handle: i32)
        requires
            name@.len() <= MAX_LEN,
        ensures
            final(self).made(*old(self), seq![Crossing::DbExec { kind, name: name@, handle }]),
    {
        let handle: i32 = self.host.db_exec(kind, name);
        proof {
            self.trace@ = self.trace@ + seq![Crossing::DbExec { kind, name: name@, handle }];
        }
        handle
    }

    /// Calls `Host::graphql_query` and records the call.
    pub(crate) fn graphql_query(&mut self, endpoint: &[u8], query: &[u8]) -> (handle: i32)
        requires
            endpoint@.len() <= MAX_LEN,
            query@.len() <= MAX_LEN,
        ensures
            final(self).made(
                *old(self),
                seq![Crossing::GraphqlQuery { endpoint: endpoint@, query: query@, handle }],
            ),
    {
        let handle: i32 = self.host.graphql_query(endpoint, query);
        proof {
            self.trace@ = self.trace@ + seq![
                Crossing::GraphqlQuery { endpoint: endpoint@, query: query@, handle },
            ];
        }
        handle
    }

    /// Calls `Host::fetch_result` on the whole of `dest` and records the
    /// call.
    pub(crate) fn fetch_result(&mut self, dest: &mut Vec<u8>)
        requires
            old(dest)@.len() <= MAX_LEN,
        ensures
            final(dest)@.len() == old(dest)@.len(),
            final(self).made(*old(self), seq![Crossing::FetchResult { bytes: final(dest)@ }]),
    {
        self.host.fetch_result(dest.as_mut_slice());
        proof {
            self.trace@ = self.trace@ + seq![Crossing::FetchResult { bytes: dest@ }];
        }
    }
}

/// Calls made one after the other add up: a guest that made `first`
/// and then `second` made `first + second`.
pub proof fn lemma_made_in_turn<H: Host>(
    start: Guest<H>,
    middle: Guest<H>,
    end: Guest<H>,
    first: Seq<Crossing>,
    second: Seq<Crossing>,
)
    requires
        middle.made(start, first),
        end.made(middle, second),
    ensures
        end.made(start, first + second),
{
    assert(start.trace() + first + second == start.trace() + (first + second));
    match start.host().model() {
        Some(model) => {
            assert(model.trace + first + second == model.trace + (first + second));
        },
        None => {},
    }
}

/// What a guest made since an earlier moment is what was added to its
/// trace.
pub proof fn lemma_made_since<H: Host>(start: Guest<H>, end: Guest<H>, calls: Seq<Crossing>)
    requires
        end.made(start, calls),
    ensures
        end.since(start) == calls,
        end.proceeded(start),
{
    assert((start.trace() + calls).skip(start.trace().len() as int) == calls);
}

} // verus!
