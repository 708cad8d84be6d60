use vstd::prelude::*;
use crate::sequence::model::{SequenceRaftReq, SequenceRaftResult};
use crate::raft::db::table::TableManagerReq;

pub mod model;
pub mod innerstore;

verus! {

/// A request of the namespace service, carried through raft in the form
/// that service serializes it to; the library does not read it.
#[derive(Clone, Debug)]
pub struct NamespaceRaftReq {
    pub body: Vec<u8>,
}

/// The namespace service's answer to a request routed to the leader.
#[derive(Clone, Copy, Debug, PartialEq, Eq)]
pub enum NamespaceRaftResult {
    /// The request was carried out and has no value to give.
    Done,
}

/// A request of the MCP service, carried through raft in serialized form.
#[derive(Clone, Debug)]
pub struct McpManagerRaftReq {
    pub body: Vec<u8>,
}

/// An answer of the MCP service, carried back in serialized form.
#[derive(Clone, Debug)]
pub struct McpManagerRaftResult {
    pub body: Vec<u8>,
}

/// A command written to the raft log and applied to the state machine.
#[derive(Clone, Debug)]
pub enum ClientRequest {
    /// The address of a node.
    NodeAddr { id: u64, addr: String },
    /// The members of the cluster.
    Members(Vec<u64>),
    /// A configuration set, with its history row.
    ConfigSet {
        key: String,
        value: String,
        config_type: Option<String>,
        desc: Option<String>,
        history_id: u64,
        history_table_id: Option<u64>,
        op_time: i64,
        op_user: Option<String>,
    },
    /// A configuration's whole stored value, with the last history id.
    ConfigFullValue { key: Vec<u8>, value: Vec<u8>, last_seq_id: Option<u64> },
    /// A configuration removed.
    ConfigRemove { key: String },
    TableManagerReq(TableManagerReq),
    NamespaceReq(NamespaceRaftReq),
    SequenceReq { req: SequenceRaftReq },
    McpReq { req: McpManagerRaftReq },
}

/// The answer of the state machine to an applied raft command.
#[derive(Clone, Debug)]
pub enum ClientResponse {
    Success,
    Fail,
    SequenceResp { resp: SequenceRaftResult },
    McpResp { resp: McpManagerRaftResult },
}

impl Default for ClientResponse {
    /// A command that needs no answer succeeded.
    fn default() -> (r: Self)
        ensures
            r == ClientResponse::Success,
    {
        ClientResponse::Success
    }
}

/// Why the storage layer shut down.
#[derive(Clone, Copy, Debug, PartialEq, Eq)]
pub enum ShutdownError {
    UnsafeStorageError,
}

impl ShutdownError {
    /// The error's message.
    pub fn message(&self) -> (r: &'static str)
        ensures
            r@ == "unsafe storage error"@,
    {
        "unsafe storage error"
    }
}

} // verus!
