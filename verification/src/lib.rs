//! Guest side of a host-call protocol: a sandboxed module asks its host
//! for cache, database and GraphQL operations, and collects each
//! variable-length result in two steps, first its size, then its bytes.
//!
//! - `host`: the primitives of a host, and the guest that calls them
//!   and records every call.
//! - `request`: what each request hands over, and in which order.
//! - `retriever`: from the handle that the host answered with to the
//!   bytes of the result, or to a typed failure.
//! - `errors`: the failures, and the table that reads sentinels.
//! - `cache`, `db`, `graphql`: the operations.
//! - `stub`: a host in memory, for where no real one is at hand.

pub mod cache;
pub mod db;
pub mod errors;
pub mod graphql;
pub mod host;
pub mod request;
pub mod retriever;
pub mod stub;
