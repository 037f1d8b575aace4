//! The request envelope of the Codex app-server protocol.
use vstd::prelude::*;

verus! {

/// A JSON-RPC request as the app-server reads it: an identifier, a method and
/// its parameters, and no `jsonrpc` version member.
#[derive(Debug, Clone, PartialEq, Eq)]
pub struct JsonRpcRequest<T> {
    pub id: u64,
    pub method: String,
    pub params: T,
}

} // verus!
