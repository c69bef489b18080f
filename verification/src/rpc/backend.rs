//! Decisions around a remote backend: whether an endpoint can be handed to
//! the engine, and what the engine's answers mean.

use vstd::prelude::*;
use vstd::string::*;
use crate::cstr::{first_nul, is_first_nul, nul_free};
use crate::rpc::error::RpcError;

verus! {

/// Checks that `endpoint` can be handed to the engine: it holds no zero byte.
pub fn check_endpoint(endpoint: &str) -> (r: Result<(), RpcError>)
    ensures
        r is Ok <==> nul_free(endpoint.spec_bytes()),
        r matches Err(e) ==> (e matches RpcError::StringConversion { position } && is_first_nul(
            endpoint.spec_bytes(),
            position as int,
        )),
{
    match first_nul(endpoint.as_bytes()) {
        None => Ok(()),
        Some(position) => Err(RpcError::StringConversion { position }),
    }
}

/// What the engine's answer to a request for a backend or a device at
/// `endpoint` means: without a handle, initialization failed. On success
/// the endpoint is kept for later requests.
pub fn init_outcome(endpoint: &str, handle_is_null: bool) -> (r: Result<String, RpcError>)
    ensures
        r is Ok <==> !handle_is_null,
        r matches Ok(kept) ==> kept@ == endpoint@,
        r matches Err(e) ==> (e matches RpcError::InitializationFailed { endpoint: named }
            && named@ == endpoint@),
{
    if handle_is_null {
        Err(RpcError::InitializationFailed { endpoint: endpoint.to_owned() })
    } else {
        Ok(endpoint.to_owned())
    }
}

/// What the memory figures a backend reported mean: a total of zero says
/// that the query failed; otherwise they are the free and the total bytes.
pub fn device_memory(free: usize, total: usize) -> (r: Result<(usize, usize), RpcError>)
    ensures
        r is Ok <==> total != 0,
        r is Ok ==> r->Ok_0 == (free, total),
        r is Err ==> r->Err_0 == RpcError::MemoryQueryFailed,
{
    if total == 0 {
        Err(RpcError::MemoryQueryFailed)
    } else {
        Ok((free, total))
    }
}

} // verus!
