//! The host's database of prepared queries.

pub mod query;

use crate::db::query::{QueryArg, QueryType};
use crate::errors::{HostErr, HostResult};
use crate::host::{lemma_made_in_turn, lemma_made_since, Crossing, Guest, Host, MAX_LEN};
use crate::request::{arg_bytes, lemma_performed, performed, utf8, Request};
use crate::retriever;
use vstd::prelude::*;
use vstd::string::StringSliceAdditionalSpecFns;

verus! {

/// Whether the name and the value of every argument can cross the
/// boundary.
fn all_encodable(args: &Vec<QueryArg>) -> (fit: bool)
    ensures
        fit == (forall|i: int|
            0 <= i < args@.len() ==> (#[trigger] arg_bytes(args@)[i]).0.len() <= MAX_LEN
                && arg_bytes(args@)[i].1.len() <= MAX_LEN),
{
    let mut i: usize = 0;
    while i < args.len()
        invariant
            i <= args@.len(),
            forall|j: int|
                0 <= j < i ==> (#[trigger] arg_bytes(args@)[j]).0.len() <= MAX_LEN && arg_bytes(
                    args@,
                )[j].1.len() <= MAX_LEN,
        decreases args@.len() - i,
    {
        let name_bytes = args[i].name.as_str().as_bytes();
        let value_bytes = args[i].value.as_str().as_bytes();
        assert(arg_bytes(args@)[i as int] == (name_bytes@, value_bytes@));
        if name_bytes.len() > MAX_LEN || value_bytes.len() > MAX_LEN {
            return false;
        }
        i = i + 1;
    }
    true
}

/// Registers every argument with the host, in the order given, then
/// runs the prepared query `name` and retrieves its result.
fn run<H: Host>(guest: &mut Guest<H>, kind: QueryType, name: &str, args: &Vec<QueryArg>) -> (result:
    HostResult<Vec<u8>>)
    ensures
        final(guest).proceeded(*old(guest)),
        performed(
            old(guest).errors()@,
            Request::Db { kind, name: name.spec_bytes(), args: arg_bytes(args@) },
            final(guest).since(*old(guest)),
            result,
        ),
{
    let ghost request = Request::Db { kind, name: name.spec_bytes(), args: arg_bytes(args@) };
    let name_bytes = name.as_bytes();
    if name_bytes.len() > MAX_LEN || !all_encodable(args) {
        proof {
            lemma_made_since(*old(guest), *guest, Seq::empty());
        }
        return Err(HostErr::Encoding);
    }
    proof {
        lemma_made_since(*old(guest), *guest, Seq::empty());
        assert(request.registrations().take(0) == Seq::<Crossing>::empty());
    }
    let mut i: usize = 0;
    while i < args.len()
        invariant
            i <= args@.len(),
            request == (Request::Db { kind, name: name.spec_bytes(), args: arg_bytes(args@) }),
            request.encodable(),
            guest.made(*old(guest), request.registrations().take(i as int)),
        decreases args@.len() - i,
    {
        let arg = &args[i];
        let ghost registered = *guest;
        assert(arg_bytes(args@)[i as int] == (utf8(arg.name@), utf8(arg.value@)));
        guest.add_var(arg.name.as_str().as_bytes(), arg.value.as_str().as_bytes());
        proof {
            let done = request.registrations().take(i as int);
            let one = seq![request.registrations()[i as int]];
            assert(done + one == request.registrations().take(i + 1));
            lemma_made_in_turn(*old(guest), registered, *guest, done, one);
        }
        i = i + 1;
    }
    assert(request.registrations().take(i as int) == request.registrations());
    let ghost registered = *guest;
    let handle: i32 = guest.db_exec(kind.code(), name_bytes);
    let ghost asked = *guest;
    let result = retriever::result(guest, handle);
    proof {
        let run = request.registrations().push(request.trigger(handle));
        assert(request.registrations() + seq![request.trigger(handle)] == run);
        lemma_made_in_turn(
            *old(guest),
            registered,
            asked,
            request.registrations(),
            seq![request.trigger(handle)],
        );
        lemma_made_in_turn(*old(guest), asked, *guest, run, guest.since(asked));
        lemma_made_since(*old(guest), *guest, run + guest.since(asked));
        lemma_performed(old(guest).errors()@, request, handle, guest.since(asked), result);
    }
    result
}

/// Runs the prepared insertion `name` with the arguments `args`. The
/// result is the host's JSON object, which names the row inserted under
/// `lastInsertID`, byte for byte as the host staged it.
pub fn insert<H: Host>(guest: &mut Guest<H>, name: &str, args: Vec<QueryArg>) -> (result:
    HostResult<Vec<u8>>)
    ensures
        final(guest).proceeded(*old(guest)),
        performed(
            old(guest).errors()@,
            Request::Db { kind: QueryType::Insert, name: name.spec_bytes(), args: arg_bytes(args@) },
            final(guest).since(*old(guest)),
            result,
        ),
{
    run(guest, QueryType::Insert, name, &args)
}

/// Runs the prepared selection `name` with the arguments `args`. The
/// result is the host's JSON object, keyed by column name, byte for byte
/// as the host staged it.
pub fn select<H: Host>(guest: &mut Guest<H>, name: &str, args: Vec<QueryArg>) -> (result:
    HostResult<Vec<u8>>)
    ensures
        final(guest).proceeded(*old(guest)),
        performed(
            old(guest).errors()@,
            Request::Db { kind: QueryType::Select, name: name.spec_bytes(), args: arg_bytes(args@) },
            final(guest).since(*old(guest)),
            result,
        ),
{
    run(guest, QueryType::Select, name, &args)
}

} // verus!
