//! The host's cache.

use crate::errors::{HostErr, HostResult};
use crate::host::{lemma_made_in_turn, lemma_made_since, Crossing, Guest, Host, MAX_LEN};
use crate::request::{delivered, lemma_performed, performed, Request};
use crate::retriever;
use vstd::prelude::*;
use vstd::string::StringSliceAdditionalSpecFns;

verus! {

/// The time-to-live of a value that is never to expire. The host reads
/// every negative time-to-live so; this is the one to write.
pub const NO_EXPIRY: i32 = -1;

/// Stores `val` under `key` for `ttl` seconds, or for good where `ttl`
/// is negative. The time-to-live is handed to the host as it is.
pub fn set<H: Host>(guest: &mut Guest<H>, key: &str, val: Vec<u8>, ttl: i32) -> (result:
    HostResult<()>)
    ensures
        final(guest).proceeded(*old(guest)),
        delivered(
            Request::CacheSet { key: key.spec_bytes(), value: val@, ttl },
            final(guest).since(*old(guest)),
            result,
        ),
{
    let key_bytes = key.as_bytes();
    if key_bytes.len() > MAX_LEN || val.len() > MAX_LEN {
        proof {
            lemma_made_since(*old(guest), *guest, Seq::empty());
        }
        return Err(HostErr::Encoding);
    }
    guest.cache_set(key_bytes, val.as_slice(), ttl);
    proof {
        lemma_made_since(
            *old(guest),
            *guest,
            seq![Crossing::CacheSet { key: key.spec_bytes(), value: val@, ttl }],
        );
    }
    Ok(())
}

/// Looks `key` up and retrieves the value stored under it.
pub fn get<H: Host>(guest: &mut Guest<H>, key: &str) -> (result: HostResult<Vec<u8>>)
    ensures
        final(guest).proceeded(*old(guest)),
        performed(
            old(guest).errors()@,
            Request::CacheGet { key: key.spec_bytes() },
            final(guest).since(*old(guest)),
            result,
        ),
{
    let ghost request = Request::CacheGet { key: key.spec_bytes() };
    let key_bytes = key.as_bytes();
    if key_bytes.len() > MAX_LEN {
        proof {
            lemma_made_since(*old(guest), *guest, Seq::empty());
        }
        return Err(HostErr::Encoding);
    }
    let handle: i32 = guest.cache_get(key_bytes);
    let ghost asked = *guest;
    let result = retriever::result(guest, handle);
    proof {
        let run = request.registrations().push(request.trigger(handle));
        assert(run == seq![request.trigger(handle)]);
        lemma_made_in_turn(*old(guest), asked, *guest, run, guest.since(asked));
        lemma_made_since(*old(guest), *guest, run + guest.since(asked));
        lemma_performed(old(guest).errors()@, request, handle, guest.since(asked), result);
    }
    result
}

} // verus!
