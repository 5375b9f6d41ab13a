//! Resolution of running containers into name/address records.
//!
//! The library answers three queries against a snapshot of the container
//! directory: list every resolvable container, find a container by name,
//! and find a container by IPv4 address.  The snapshot itself is fetched
//! by unverified glue around the library; everything that decides what a
//! query returns lives here and is verified.

use vstd::prelude::*;

pub mod docker;
pub mod engine;
pub mod ip;
pub mod laws;
pub mod text;

verus! {

/// Failure of a directory request: the service could not be reached at
/// all, or it was reachable but had no answer for the specific request.
#[derive(Copy, Clone, Debug, PartialEq, Eq, Structural)]
pub enum ResponseError {
    Unavail,
    NotFound,
}

pub type ResponseResult<T> = Result<T, ResponseError>;

} // verus!
