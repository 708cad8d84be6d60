use vstd::prelude::*;

verus! {

/// The kind of a snapshot's data.
#[derive(Clone, Debug, Default, PartialEq, Eq)]
pub struct SnapshotData {
    pub kind: i32,
}

/// One key/value item of a snapshot, with the kind of table it belongs to.
#[derive(Clone, Debug, Default)]
pub struct SnapshotItem {
    pub kind: i32,
    pub key: Vec<u8>,
    pub value: Vec<u8>,
}

/// A typed payload carried through raft.
#[derive(Clone, Debug, Default)]
pub struct RaftPayload {
    pub kind: String,
    pub body: Vec<u8>,
}

} // verus!
