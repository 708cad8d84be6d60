pub mod log;
pub mod model;
pub mod raftlog;
pub mod records;
pub mod index_record;
pub mod raftindex;
pub mod snapshot_record;
pub mod raftsnapshot;
pub mod logmanager;
pub mod storecore;
pub mod logfile;
pub mod apply;

use vstd::prelude::*;
use crate::raft::filestore::model::LogRecordDto;
use crate::raft::filestore::apply::EntryPayload;
use crate::raft::store::innerstore::StoreEntry;

verus! {

/// Conversions between what the log files store and raft's entries.
pub struct StoreUtils;

/// A log record whose value is not an entry's payload.
#[derive(Clone, Copy, Debug, PartialEq, Eq)]
pub struct LogFormatError {
    /// The log index of the record.
    pub index: u64,
}

impl StoreUtils {
    /// The entry that a log record holds, given what its value reads as
    /// (`None`: not an entry's payload in its stored JSON form): the
    /// record's index and term with that payload, or an error naming the
    /// record's index.
    pub fn log_record_to_entry(record: LogRecordDto, payload: Option<EntryPayload>) -> (r: Result<StoreEntry, LogFormatError>)
        ensures
            match payload {
                Some(p) => r matches Ok(e) && e.index == record.index && e.term == record.term && e.payload == p,
                None => r == Err::<StoreEntry, LogFormatError>(LogFormatError { index: record.index }),
            },
    {
        match payload {
            Some(p) => Ok(StoreEntry { index: record.index, term: record.term, payload: p }),
            None => Err(LogFormatError { index: record.index }),
        }
    }
}

} // verus!
