//! The second half of a call: from the handle that the host answered
//! with to the bytes of the result, or to a typed failure.
//!
//! A result is retrieved in two steps, because the host cannot know
//! where the guest will keep it: the host first says how long it is,
//! then copies it into the buffer that the guest has made for it.

use crate::errors::{error_for, ErrorKind, ErrorMap, HostErr, HostResult};
use crate::host::{lemma_made_since, Crossing, Guest, Host};
use vstd::prelude::*;

verus! {

/// Where a call stands.
#[derive(Clone, Copy, Debug, PartialEq, Eq, Structural)]
pub enum Phase {
    /// The host was asked and has not answered yet.
    Requested,
    /// The host has announced a result of this many bytes.
    Sized(usize),
    /// The result, of this many bytes, is in a buffer of the guest.
    Fetched(usize),
    /// The call has failed.
    Failed(HostErr),
}

/// What moves a call on.
#[derive(Clone, Copy, Debug, PartialEq, Eq, Structural)]
pub enum Event {
    /// The host answered with this handle.
    Answered(i32),
    /// The host copied the staged result into the guest's buffer.
    Copied,
}

/// The phase that follows `phase` on `event`.
///
/// An answer moves a call that waits for one: a negative handle fails
/// it, with the failure that `table` gives, and any other handle is the
/// size of its result. A copy moves a call whose size is known. Every
/// other event leaves the call where it is; so a call has its result
/// only after it had a size, and a call that has failed or has its
/// result stays so.
pub open spec fn next_phase(table: Map<i32, ErrorKind>, phase: Phase, event: Event) -> Phase {
    match (phase, event) {
        (Phase::Requested, Event::Answered(handle)) => if handle < 0 {
            Phase::Failed(error_for(table, handle))
        } else {
            Phase::Sized(handle as usize)
        },
        (Phase::Sized(size), Event::Copied) => Phase::Fetched(size),
        _ => phase,
    }
}

/// Moves a call on by one event.
pub fn advance(errors: &ErrorMap, phase: Phase, event: Event) -> (next: Phase)
    ensures
        next == next_phase(errors@, phase, event),
        next is Fetched ==> phase is Sized || phase is Fetched,
        phase is Fetched || phase is Failed ==> next == phase,
{
    match (phase, event) {
        (Phase::Requested, Event::Answered(handle)) => if handle < 0 {
            Phase::Failed(errors.classify(handle))
        } else {
            Phase::Sized(handle as usize)
        },
        (Phase::Sized(size), Event::Copied) => Phase::Fetched(size),
        _ => phase,
    }
}

/// What retrieving the result behind `handle` does: `calls` are the
/// calls made for it, `outcome` is what the caller gets.
///
/// A negative handle is a failure, read by `table`, and the host is not
/// called again. Any other handle is a size: the result is fetched in
/// one call, into a buffer of exactly that size, and is the outcome.
pub open spec fn retrieved(
    table: Map<i32, ErrorKind>,
    handle: i32,
    calls: Seq<Crossing>,
    outcome: HostResult<Vec<u8>>,
) -> bool {
    if handle < 0 {
        &&& outcome == Err::<Vec<u8>, HostErr>(error_for(table, handle))
        &&& calls == Seq::<Crossing>::empty()
    } else {
        &&& outcome is Ok
        &&& outcome->Ok_0@.len() == handle
        &&& calls == seq![Crossing::FetchResult { bytes: outcome->Ok_0@ }]
    }
}

/// Retrieves the result that `handle` announces.
pub fn result<H: Host>(guest: &mut Guest<H>, handle: i32) -> (outcome: HostResult<Vec<u8>>)
    ensures
        final(guest).proceeded(*old(guest)),
        retrieved(old(guest).errors()@, handle, final(guest).since(*old(guest)), outcome),
{
    match advance(guest.errors(), Phase::Requested, Event::Answered(handle)) {
        Phase::Failed(error) => {
            proof {
                lemma_made_since(*old(guest), *guest, Seq::empty());
            }
            Err(error)
        },
        Phase::Sized(size) => {
            let mut buffer: Vec<u8> = vec![0u8; size];
            guest.fetch_result(&mut buffer);
            proof {
                lemma_made_since(
                    *old(guest),
                    *guest,
                    seq![Crossing::FetchResult { bytes: buffer@ }],
                );
            }
            Ok(buffer)
        },
        _ => unreached(),
    }
}

} // verus!
