use vstd::prelude::*;
use crate::common::strmap::StrMap;
use crate::common::byte_utils::{id_to_bin, bin_to_id_result, id_bytes, id_of_bytes, IdBytesError};
use crate::raft::filestore::model::SnapshotRecordDto;
use crate::sequence::model::{SequenceRaftReq, SequenceRaftResult};

verus! {

/// The name of the data tree that sequence records belong to in snapshots.
pub const SEQUENCE_TREE_NAME: &'static str = "sequence";

/// The next available id of a sequence after a `next_id`: a known
/// sequence moves on by one, a new one hands out 1 and continues at 2.
pub open spec fn spec_next_id(m: Map<Seq<char>, u64>, key: Seq<char>) -> (u64, Map<Seq<char>, u64>) {
    if m.contains_key(key) {
        (m[key], m.insert(key, (m[key] + 1) as u64))
    } else {
        (1, m.insert(key, 2))
    }
}

/// The block handed out by `next_range`: a known sequence hands out
/// `[next, next + step)`, a new one `[1, 1 + step)`.
pub open spec fn spec_next_range(m: Map<Seq<char>, u64>, key: Seq<char>, step: u64) -> (u64, Map<
    Seq<char>,
    u64,
>) {
    if m.contains_key(key) {
        (m[key], m.insert(key, (m[key] + step) as u64))
    } else {
        (1, m.insert(key, (step + 1) as u64))
    }
}

/// Why a snapshot record could not be loaded.
#[derive(Clone, Copy, Debug, PartialEq, Eq)]
pub enum SequenceLoadError {
    /// The value is not the 8 bytes of an id.
    BadValue(IdBytesError),
    /// The key is not UTF-8.
    BadKey,
}

/// The state machine of the id sequences: for each key, the next id that
/// is available.
pub struct SequenceDbManager {
    pub(crate) seq_map: StrMap<u64>,
    init: bool,
}

impl View for SequenceDbManager {
    type V = Map<Seq<char>, u64>;

    closed spec fn view(&self) -> Map<Seq<char>, u64> {
        self.seq_map@
    }
}

impl SequenceDbManager {
    pub closed spec fn wf(&self) -> bool {
        self.seq_map.wf()
    }

    /// The sequences with their next available ids, in creation order.
    pub closed spec fn entries(&self) -> Seq<(String, u64)> {
        self.seq_map.spec_entries()
    }

    /// The state is the map of its entries, whose keys are distinct.
    pub proof fn lemma_entries(&self)
        requires
            self.wf(),
        ensures
            crate::common::strmap::keys_unique(self.entries()),
            self@ == crate::common::strmap::entries_map(self.entries()),
    {
        self.seq_map.lemma_view();
    }

    /// Whether loading the state from a snapshot has completed.
    pub closed spec fn spec_init(&self) -> bool {
        self.init
    }

    pub fn new() -> (r: Self)
        ensures
            r.wf(),
            r@ == Map::<Seq<char>, u64>::empty(),
            !r.spec_init(),
    {
        Self { seq_map: StrMap::new(), init: false }
    }

    /// Hands out the next id of `key`.
    pub fn next_id(&mut self, key: String) -> (r: u64)
        requires
            old(self).wf(),
            old(self)@.contains_key(key@) ==> old(self)@[key@] < u64::MAX,
        ensures
            final(self).wf(),
            (r, final(self)@) == spec_next_id(old(self)@, key@),
            final(self).spec_init() == old(self).spec_init(),
    {
        match self.seq_map.get(&key) {
            Some(id) => {
                let old_id = *id;
                self.seq_map.insert(key, old_id + 1);
                old_id
            },
            None => {
                self.seq_map.insert(key, 1 + 1);
                1
            },
        }
    }

    /// Hands out the next block of `step` ids of `key`; returns its start.
    pub fn next_range(&mut self, key: String, step: u64) -> (r: u64)
        requires
            old(self).wf(),
            old(self)@.contains_key(key@) ==> old(self)@[key@] + step <= u64::MAX,
            !old(self)@.contains_key(key@) ==> step < u64::MAX,
        ensures
            final(self).wf(),
            (r, final(self)@) == spec_next_range(old(self)@, key@, step),
            final(self).spec_init() == old(self).spec_init(),
    {
        match self.seq_map.get(&key) {
            Some(id) => {
                let old_id = *id;
                self.seq_map.insert(key, old_id + step);
                old_id
            },
            None => {
                self.seq_map.insert(key, step + 1);
                1
            },
        }
    }

    /// Applies one raft command.
    pub fn handle(&mut self, msg: SequenceRaftReq) -> (r: SequenceRaftResult)
        requires
            old(self).wf(),
            match msg {
                SequenceRaftReq::NextId(key) => old(self)@.contains_key(key@) ==> old(self)@[key@]
                    < u64::MAX,
                SequenceRaftReq::NextRange(key, step) => (old(self)@.contains_key(key@) ==> old(
                    self,
                )@[key@] + step <= u64::MAX) && (!old(self)@.contains_key(key@) ==> step
                    < u64::MAX),
                _ => true,
            },
        ensures
            final(self).wf(),
            final(self).spec_init() == old(self).spec_init(),
            match msg {
                SequenceRaftReq::NextId(key) => {
                    let (id, m) = spec_next_id(old(self)@, key@);
                    r == SequenceRaftResult::NextId(id) && final(self)@ == m
                },
                SequenceRaftReq::NextRange(key, step) => {
                    let (start, m) = spec_next_range(old(self)@, key@, step);
                    r == SequenceRaftResult::NextRange { start, len: step } && final(self)@ == m
                },
                SequenceRaftReq::SetId(key, id) => r == SequenceRaftResult::Done && final(self)@
                    == old(self)@.insert(key@, id),
                SequenceRaftReq::RemoveId(key) => r == SequenceRaftResult::Done && final(self)@
                    == old(self)@.remove(key@),
            },
    {
        match msg {
            SequenceRaftReq::NextId(key) => {
                let id = self.next_id(key);
                SequenceRaftResult::NextId(id)
            },
            SequenceRaftReq::NextRange(key, step) => {
                let start = self.next_range(key, step);
                SequenceRaftResult::NextRange { start, len: step }
            },
            SequenceRaftReq::SetId(key, id) => {
                self.seq_map.insert(key, id);
                SequenceRaftResult::Done
            },
            SequenceRaftReq::RemoveId(key) => {
                self.seq_map.remove(&key);
                SequenceRaftResult::Done
            },
        }
    }

    /// The snapshot records of the state: one per sequence, in the order the
    /// sequences were created, keyed by the sequence name's bytes, valued by
    /// the next available id's 8 big-endian bytes.
    pub fn build_snapshot(&self) -> (r: Vec<SnapshotRecordDto>)
        requires
            self.wf(),
        ensures
            r@.len() == self.entries().len(),
            forall|i: int|
                0 <= i < r@.len() ==> {
                    let (k, v) = self.entries()[i];
                    &&& (#[trigger] r@[i]).tree@ == SEQUENCE_TREE_NAME@
                    &&& r@[i].key@ == vstd::utf8::encode_utf8(k@)
                    &&& r@[i].value@ == id_bytes(v)
                    &&& r@[i].op_type == 0
                },
    {
        broadcast use vstd::string::group_string_axioms;

        let mut out: Vec<SnapshotRecordDto> = Vec::new();
        let n = self.seq_map.len();
        let mut i: usize = 0;
        while i < n
            invariant
                n == self.entries().len(),
                i <= n,
                out@.len() == i,
                forall|j: int|
                    0 <= j < i ==> {
                        let (k, v) = self.entries()[j];
                        &&& (#[trigger] out@[j]).tree@ == SEQUENCE_TREE_NAME@
                        &&& out@[j].key@ == vstd::utf8::encode_utf8(k@)
                        &&& out@[j].value@ == id_bytes(v)
                        &&& out@[j].op_type == 0
                    },
            decreases n - i,
        {
            let entry = self.seq_map.entry_at(i);
            let key_bytes = vstd::slice::slice_to_vec(entry.0.as_str().as_bytes());
            out.push(SnapshotRecordDto {
                tree: SEQUENCE_TREE_NAME.to_string(),
                key: key_bytes,
                value: id_to_bin(entry.1),
                op_type: 0,
            });
            i += 1;
        }
        out
    }
}


impl SequenceDbManager {
    /// Loads one snapshot record: the sequence named by the key continues at
    /// the id stored in the value.
    pub fn load_snapshot_record(&mut self, record: SnapshotRecordDto) -> (r: Result<(), SequenceLoadError>)
        requires
            old(self).wf(),
        ensures
            final(self).wf(),
            final(self).spec_init() == old(self).spec_init(),
            record.value@.len() < 8 ==> r == Err::<(), SequenceLoadError>(
                SequenceLoadError::BadValue(IdBytesError::TooShort),
            ) && final(self)@ == old(self)@,
            record.value@.len() >= 8 && !vstd::utf8::valid_utf8(record.key@) ==> r == Err::<
                (),
                SequenceLoadError,
            >(SequenceLoadError::BadKey) && final(self)@ == old(self)@,
            record.value@.len() >= 8 && vstd::utf8::valid_utf8(record.key@) ==> r is Ok
                && final(self)@ == old(self)@.insert(
                vstd::utf8::decode_utf8(record.key@),
                id_of_bytes(record.value@),
            ),
    {
        let value = match bin_to_id_result(record.value.as_slice()) {
            Ok(v) => v,
            Err(e) => return Err(SequenceLoadError::BadValue(e)),
        };
        let key = match crate::common::utf8::string_from_utf8(record.key) {
            Some(k) => k,
            None => return Err(SequenceLoadError::BadKey),
        };
        self.seq_map.insert(key, value);
        Ok(())
    }

    /// Marks the loading of the state from a snapshot as complete.
    pub fn load_completed(&mut self)
        requires
            old(self).wf(),
        ensures
            final(self).wf(),
            final(self)@ == old(self)@,
            final(self).spec_init(),
    {
        self.init = true;
    }

    /// The next available id of `key`, if the sequence is known.
    pub fn get(&self, key: &String) -> (r: Option<u64>)
        requires
            self.wf(),
        ensures
            r == (if self@.contains_key(key@) {
                Some(self@[key@])
            } else {
                None
            }),
    {
        match self.seq_map.get(key) {
            Some(v) => Some(*v),
            None => None,
        }
    }
}

/// Two consecutive `next_range` calls on a key hand out adjacent blocks: the
/// second starts where the first ends, so ids are never handed out twice.
pub proof fn law_next_ranges_adjacent(m: Map<Seq<char>, u64>, key: Seq<char>, s1: u64, s2: u64)
    requires
        m.contains_key(key) ==> m[key] + s1 + s2 <= u64::MAX,
        !m.contains_key(key) ==> 1 + s1 + s2 <= u64::MAX,
    ensures
        ({
            let (a, m1) = spec_next_range(m, key, s1);
            let (b, _) = spec_next_range(m1, key, s2);
            b == a + s1
        }),
{
}

/// A `next_id` after a `next_range` hands out the id just after the block.
pub proof fn law_next_id_after_range(m: Map<Seq<char>, u64>, key: Seq<char>, step: u64)
    requires
        m.contains_key(key) ==> m[key] + step < u64::MAX,
        !m.contains_key(key) ==> step + 1 < u64::MAX,
    ensures
        ({
            let (a, m1) = spec_next_range(m, key, step);
            let (b, _) = spec_next_id(m1, key);
            b == a + step
        }),
{
}

/// Commands on one sequence leave every other sequence as it was.
pub proof fn law_other_keys_unchanged(m: Map<Seq<char>, u64>, key: Seq<char>, other: Seq<char>, step: u64)
    requires
        key != other,
    ensures
        spec_next_id(m, key).1.contains_key(other) == m.contains_key(other),
        spec_next_range(m, key, step).1.contains_key(other) == m.contains_key(other),
        m.contains_key(other) ==> spec_next_id(m, key).1[other] == m[other] && spec_next_range(
            m,
            key,
            step,
        ).1[other] == m[other],
{
}
} // verus!
