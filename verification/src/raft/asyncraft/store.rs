use vstd::prelude::*;
use crate::common::strmap::StrMap;

verus! {

/// The answer to a read of the key/value state machine.
#[derive(Clone, Debug, Default)]
pub struct ClientResponse {
    pub value: Option<String>,
}

/// Why the storage layer shut down.
#[derive(Clone, Copy, Debug, PartialEq, Eq)]
pub enum ShutdownError {
    UnsafeStorageError,
}

impl ShutdownError {
    /// The error's message.
    pub fn message(&self) -> (r: &'static str)
        ensures
            r@ == "unsafe storage error"@,
    {
        "unsafe storage error"
    }
}

/// The replicated key/value state machine: the last applied log index and
/// the data.
pub struct StateMachine {
    pub last_applied_log: u64,
    pub data: StrMap<String>,
}

impl StateMachine {
    /// An empty state machine that has applied nothing.
    pub fn new() -> (r: Self)
        ensures
            r.last_applied_log == 0,
            r.data.wf(),
            r.data@ == Map::<Seq<char>, String>::empty(),
    {
        StateMachine { last_applied_log: 0, data: StrMap::new() }
    }
}

/// The index and term of a log entry.
#[derive(Clone, Copy, Debug, Default, PartialEq, Eq)]
pub struct RaftLog {
    pub index: u64,
    pub term: u64,
}

} // verus!
