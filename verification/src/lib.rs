//! Verified core of a raft storage layer: id sequences, the on-disk log
//! and index formats, and the bookkeeping of the raft log, index and
//! snapshot managers.
pub mod common;
pub mod raft;
pub mod sequence;
pub mod transfer;
