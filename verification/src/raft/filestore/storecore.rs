use vstd::prelude::*;
use std::collections::HashSet;
use crate::raft::filestore::raftindex::{RaftIndexDto, RaftIndexRequest, RaftIndexResponse};

verus! {

broadcast use vstd::std_specs::hash::group_hash_axioms;

/// The set of the ids in a list.
pub fn vec_to_set(list: &Vec<u64>) -> (r: HashSet<u64>)
    ensures
        r@ == list@.to_set(),
{
    let mut set: HashSet<u64> = HashSet::new();
    let mut i: usize = 0;
    while i < list.len()
        invariant
            i <= list@.len(),
            set@ == list@.subrange(0, i as int).to_set(),
        decreases list@.len() - i,
    {
        set.insert(list[i]);
        proof {
            assert(list@.subrange(0, i as int + 1) == list@.subrange(0, i as int).push(list@[i as int]));
            list@.subrange(0, i as int).lemma_push_to_set_commute(list@[i as int]);
        }
        i += 1;
    }
    assert(list@.subrange(0, list@.len() as int) == list@);
    set
}

/// The members of a raft cluster, and during a change the members after it.
pub struct MembershipConfig {
    pub members: HashSet<u64>,
    pub members_after_consensus: Option<HashSet<u64>>,
}

/// The members after a change as raft takes them: none when the list is empty.
pub open spec fn after_consensus_set(list: Seq<u64>) -> Option<Set<u64>> {
    if list.len() == 0 {
        None
    } else {
        Some(list.to_set())
    }
}

/// The set view of an optional set.
pub open spec fn opt_set(s: Option<HashSet<u64>>) -> Option<Set<u64>> {
    match s {
        Some(h) => Some(h@),
        None => None,
    }
}

impl MembershipConfig {
    /// The membership stored as two lists of ids.
    pub fn from_lists(member: &Vec<u64>, member_after_consensus: &Vec<u64>) -> (r: Self)
        ensures
            r.members@ == member@.to_set(),
            opt_set(r.members_after_consensus) == after_consensus_set(member_after_consensus@),
    {
        let after = if member_after_consensus.len() == 0 {
            None
        } else {
            Some(vec_to_set(member_after_consensus))
        };
        MembershipConfig { members: vec_to_set(member), members_after_consensus: after }
    }

    /// The membership of a node that knows no other: itself alone.
    pub fn new_initial(id: u64) -> (r: Self)
        ensures
            r.members@ == set![id],
            r.members_after_consensus is None,
    {
        let mut members: HashSet<u64> = HashSet::new();
        members.insert(id);
        assert(members@ =~= set![id]);
        MembershipConfig { members, members_after_consensus: None }
    }
}

/// The term and the vote of a node.
pub struct HardState {
    pub current_term: u64,
    pub voted_for: Option<u64>,
}

/// The index and term of a log entry.
#[derive(Clone, Copy, Debug, Default, PartialEq, Eq)]
pub struct LogIndexInfo {
    pub index: u64,
    pub term: u64,
}

/// What a node knows of itself when it starts.
pub struct InitialState {
    pub last_log_index: u64,
    pub last_log_term: u64,
    pub last_applied_log: u64,
    pub hard_state: HardState,
    pub membership: MembershipConfig,
}

impl InitialState {
    /// The state of a node that knows nothing yet: no log, term 0, no
    /// vote, itself the only member.
    pub fn new_initial(id: u64) -> (r: Self)
        ensures
            r.last_log_index == 0 && r.last_log_term == 0 && r.last_applied_log == 0,
            r.hard_state.current_term == 0 && r.hard_state.voted_for is None,
            r.membership.members@ == set![id] && r.membership.members_after_consensus is None,
    {
        InitialState {
            last_log_index: 0,
            last_log_term: 0,
            last_applied_log: 0,
            hard_state: HardState { current_term: 0, voted_for: None },
            membership: MembershipConfig::new_initial(id),
        }
    }

    /// The state that the stored index and the last log entry give: a vote
    /// for node 0 stands for no vote.
    pub fn from_index(last_log: LogIndexInfo, raft_index: &RaftIndexDto, last_applied_log: u64) -> (r: Self)
        ensures
            r.last_log_index == last_log.index && r.last_log_term == last_log.term,
            r.last_applied_log == last_applied_log,
            r.hard_state.current_term == raft_index.current_term,
            r.hard_state.voted_for == if raft_index.voted_for > 0 {
                Some(raft_index.voted_for)
            } else {
                None::<u64>
            },
            r.membership.members@ == raft_index.member@.to_set(),
            opt_set(r.membership.members_after_consensus) == after_consensus_set(raft_index.member_after_consensus@),
    {
        let voted_for = if raft_index.voted_for > 0 {
            Some(raft_index.voted_for)
        } else {
            None
        };
        InitialState {
            last_log_index: last_log.index,
            last_log_term: last_log.term,
            last_applied_log,
            hard_state: HardState { current_term: raft_index.current_term, voted_for },
            membership: MembershipConfig::from_lists(&raft_index.member, &raft_index.member_after_consensus),
        }
    }
}

/// The membership that the index manager's answer to a member load gives;
/// any other answer gives the node alone.
pub fn membership_of_response(resp: RaftIndexResponse, node_id: u64) -> (r: MembershipConfig)
    ensures
        match resp {
            RaftIndexResponse::MemberShip { member, member_after_consensus, node_addrs } => r.members@
                == member@.to_set() && opt_set(r.members_after_consensus) == after_consensus_set(
                member_after_consensus@,
            ),
            _ => r.members@ == set![node_id] && r.members_after_consensus is None,
        },
{
    match resp {
        RaftIndexResponse::MemberShip { member, member_after_consensus, node_addrs } => MembershipConfig::from_lists(
            &member,
            &member_after_consensus,
        ),
        _ => MembershipConfig::new_initial(node_id),
    }
}

/// The state a node starts from, given its last log entry and the index
/// manager's answer to an index load; any other answer gives the state of a
/// node that knows nothing yet.
pub fn initial_state_of_response(last_log: LogIndexInfo, resp: RaftIndexResponse, node_id: u64) -> (r: InitialState)
    ensures
        match resp {
            RaftIndexResponse::RaftIndexInfo { raft_index, last_applied_log } => {
                &&& r.last_log_index == last_log.index && r.last_log_term == last_log.term
                &&& r.last_applied_log == last_applied_log
                &&& r.hard_state.current_term == raft_index.current_term
                &&& r.hard_state.voted_for == if raft_index.voted_for > 0 {
                    Some(raft_index.voted_for)
                } else {
                    None::<u64>
                }
                &&& r.membership.members@ == raft_index.member@.to_set()
                &&& opt_set(r.membership.members_after_consensus) == after_consensus_set(
                    raft_index.member_after_consensus@,
                )
            },
            _ => {
                &&& r.last_log_index == 0 && r.last_log_term == 0 && r.last_applied_log == 0
                &&& r.hard_state.current_term == 0 && r.hard_state.voted_for is None
                &&& r.membership.members@ == set![node_id] && r.membership.members_after_consensus is None
            },
        },
{
    match resp {
        RaftIndexResponse::RaftIndexInfo { raft_index, last_applied_log } => InitialState::from_index(
            last_log,
            &raft_index,
            last_applied_log,
        ),
        _ => InitialState::new_initial(node_id),
    }
}

/// The request that stores a hard state: no vote is stored as node 0.
pub fn save_hard_state_request(hs: &HardState) -> (r: RaftIndexRequest)
    ensures
        r matches RaftIndexRequest::SaveHardState { current_term, voted_for } && current_term == hs.current_term
            && voted_for == match hs.voted_for {
            Some(v) => v,
            None => 0,
        },
{
    let voted_for = match hs.voted_for {
        Some(v) => v,
        None => 0,
    };
    RaftIndexRequest::SaveHardState { current_term: hs.current_term, voted_for }
}

/// What the log manager answers to a write.
#[derive(Clone, Copy, Debug, PartialEq, Eq)]
pub enum WriteLogResult {
    Success,
    Ignore,
    LogIndexEqualError,
}

/// Why the store refused an operation.
#[derive(Clone, Copy, Debug, PartialEq, Eq)]
pub enum StoreError {
    /// A log write found an index other than the one expected.
    LogIndexNotEqual,
    /// Raft writes have been closed for the rest of the process.
    CloseWrite,
}

/// A write answer as the storage interface reports it: written or ignored
/// is success, an index mismatch an error.
pub fn write_log_result_to_result(r: WriteLogResult) -> (res: Result<(), StoreError>)
    ensures
        match r {
            WriteLogResult::Success => res is Ok,
            WriteLogResult::Ignore => res is Ok,
            WriteLogResult::LogIndexEqualError => res == Err::<(), StoreError>(StoreError::LogIndexNotEqual),
        },
{
    match r {
        WriteLogResult::Success => Ok(()),
        WriteLogResult::Ignore => Ok(()),
        WriteLogResult::LogIndexEqualError => Err(StoreError::LogIndexNotEqual),
    }
}

/// The raft write latch of a store: once closed, it stays closed for the
/// rest of the process, and applying entries is refused.
pub struct CloseWrite {
    closed: bool,
}

impl CloseWrite {
    pub closed spec fn spec_closed(&self) -> bool {
        self.closed
    }

    /// A latch that is open.
    pub fn new() -> (r: Self)
        ensures
            !r.spec_closed(),
    {
        CloseWrite { closed: false }
    }

    /// Closes raft writes.
    pub fn set_close_write(&mut self)
        ensures
            final(self).spec_closed(),
    {
        self.closed = true;
    }

    /// Whether raft writes are closed.
    pub fn is_close_write(&self) -> (r: bool)
        ensures
            r == self.spec_closed(),
    {
        self.closed
    }

    /// Applying entries to the state machine is allowed while writes are open.
    pub fn check_apply(&self) -> (r: Result<(), StoreError>)
        ensures
            self.spec_closed() ==> r == Err::<(), StoreError>(StoreError::CloseWrite),
            !self.spec_closed() ==> r is Ok,
    {
        if self.closed {
            Err(StoreError::CloseWrite)
        } else {
            Ok(())
        }
    }
}

/// The first log index to keep after installing a snapshot that deletes the
/// logs through `delete_through`: the next one, or 0 when nothing is deleted.
pub fn split_off_index(delete_through: Option<u64>) -> (r: u64)
    requires
        delete_through matches Some(v) ==> v < u64::MAX,
    ensures
        r == match delete_through {
            Some(v) => (v + 1) as u64,
            None => 0,
        },
{
    match delete_through {
        Some(v) => v + 1,
        None => 0,
    }
}

} // verus!

verus! {

/// The ids of a set, as a list.
pub fn set_to_vec(s: &HashSet<u64>) -> (r: Vec<u64>)
    ensures
        forall|k: u64| r@.contains(k) <==> s@.contains(k),
{
    let mut out: Vec<u64> = Vec::new();
    for x in it: s.iter()
        invariant
            it.seq().unref().to_set() == s@,
            forall|k: u64| #[trigger] out@.contains(k) ==> s@.contains(k),
            forall|k: u64|
                #[trigger] s@.contains(k) ==> out@.contains(k) || exists|j: int|
                    it.index() <= j < it.seq().len() && it.seq().unref()[j] == k,
    {
        proof {
            assert(it.seq().unref()[it.index() as int] == *x);
            assert(it.seq().unref().to_set().contains(*x));
        }
        let ghost before = out@;
        out.push(*x);
        proof {
            assert forall|k: u64| #[trigger] out@.contains(k) implies s@.contains(k) by {
                if k != *x {
                    assert(before.contains(k)) by {
                        let j = choose|j: int| 0 <= j < out@.len() && out@[j] == k;
                        assert(before[j] == k);
                    }
                }
            }
            assert(out@.contains(*x)) by {
                assert(out@[out@.len() - 1] == *x);
            }
            assert forall|k: u64| #[trigger] before.contains(k) implies out@.contains(k) by {
                let j = choose|j: int| 0 <= j < before.len() && before[j] == k;
                assert(out@[j] == k);
            }
        }
    }
    out
}

} // verus!

verus! {

/// What the store does after a snapshot was built for raft's log
/// compaction: answer with the snapshot's term, last index and members,
/// and, for a newly built snapshot (an id other than 0), write a log entry
/// that points at it; id 0 means the snapshot already there is used.
pub struct CompactionPlan {
    pub term: u64,
    pub index: u64,
    pub membership: MembershipConfig,
    /// The id of the snapshot that the pointer entry names, if one is written.
    pub pointer: Option<u64>,
}

/// The compaction answer for the built snapshot with header `header` and id
/// `snapshot_id`.
pub fn compaction_plan(header: &crate::raft::filestore::raftsnapshot::SnapshotHeaderDto, snapshot_id: u64) -> (r: CompactionPlan)
    ensures
        r.term == header.last_term,
        r.index == header.last_index,
        r.membership.members@ == header.member@.to_set(),
        opt_set(r.membership.members_after_consensus) == after_consensus_set(header.member_after_consensus@),
        snapshot_id == 0 ==> r.pointer is None,
        snapshot_id != 0 ==> r.pointer == Some(snapshot_id),
{
    let membership = MembershipConfig::from_lists(&header.member, &header.member_after_consensus);
    let pointer = if snapshot_id == 0 {
        None
    } else {
        Some(snapshot_id)
    };
    CompactionPlan { term: header.last_term, index: header.last_index, membership, pointer }
}

} // verus!
