//! GraphQL endpoints reached through the host.

use crate::errors::{HostErr, HostResult};
use crate::host::{lemma_made_in_turn, lemma_made_since, Guest, Host, MAX_LEN};
use crate::request::{lemma_performed, performed, Request};
use crate::retriever;
use vstd::prelude::*;
use vstd::string::StringSliceAdditionalSpecFns;

verus! {

/// Sends the query `document` to `endpoint` and retrieves the response,
/// byte for byte as the host staged it.
pub fn query<H: Host>(guest: &mut Guest<H>, endpoint: &str, document: &str) -> (result: HostResult<
    Vec<u8>,
>)
    ensures
        final(guest).proceeded(*old(guest)),
        performed(
            old(guest).errors()@,
            Request::GraphqlQuery { endpoint: endpoint.spec_bytes(), query: document.spec_bytes() },
            final(guest).since(*old(guest)),
            result,
        ),
{
    let ghost request = Request::GraphqlQuery {
        endpoint: endpoint.spec_bytes(),
        query: document.spec_bytes(),
    };
    let endpoint_bytes = endpoint.as_bytes();
    let document_bytes = document.as_bytes();
    if endpoint_bytes.len() > MAX_LEN || document_bytes.len() > MAX_LEN {
        proof {
            lemma_made_since(*old(guest), *guest, Seq::empty());
        }
        return Err(HostErr::Encoding);
    }
    let handle: i32 = guest.graphql_query(endpoint_bytes, document_bytes);
    let ghost asked = *guest;
    let result = retriever::result(guest, handle);
    proof {
        let run = request.registrations().push(request.trigger(handle));
        assert(run == seq![request.trigger(handle)]);
        lemma_made_in_turn(*old(guest), asked, *guest, run, guest.since(asked));
        lemma_made_since(*old(guest), *guest, run + guest.since(asked));
        lemma_performed(old(guest).errors()@, request, handle, guest.since(asked), result);
    }
    result
}

} // verus!
