//! The response handle: a single-use, ownership-transferring channel from a
//! unit of work back to its original caller. At most one result is ever
//! sent through a handle; if the caller has abandoned the receiving side,
//! the send fails silently and the result is discarded.

use vstd::prelude::*;
use crate::types::QueryResult;

verus! {

#[verifier::external_type_specification]
#[verifier::external_body]
#[verifier::reject_recursive_types(T)]
pub struct ExSender<T>(tokio::sync::oneshot::Sender<T>);

/// Relies on `tokio::sync::oneshot::Sender::send`: consumes the handle,
/// delivers the value if the receiver still exists, and otherwise hands
/// the very value back as the error.
#[verifier::external_body]
fn send_result(
    handle: tokio::sync::oneshot::Sender<QueryResult>,
    result: QueryResult,
) -> (r: Result<(), QueryResult>)
    ensures
        r matches Err(v) ==> v == result,
{
    handle.send(result)
}

/// Resolve a response handle with the result of its own request. Whether
/// the caller is still listening depends on state outside the pipeline, so
/// nothing is promised about which branch is taken: the result is either
/// delivered (`true`) or, the caller having abandoned the handle, silently
/// discarded (`false`). The handle is consumed either way, so no second
/// result can ever follow.
pub fn resolve(handle: tokio::sync::oneshot::Sender<QueryResult>, result: QueryResult) -> (delivered:
    bool) {
    match send_result(handle, result) {
        Ok(()) => true,
        Err(_) => false,
    }
}

} // verus!
