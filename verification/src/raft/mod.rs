pub mod asyncraft;
pub mod cache;
pub mod cluster;
pub mod db;
pub mod filestore;
pub mod network;
pub mod store;

use vstd::prelude::*;
use crate::raft::filestore::storecore::{MembershipConfig, set_to_vec, opt_set};

verus! {

broadcast use vstd::std_specs::hash::group_hash_axioms;

/// Every node of a membership: the members and, during a change, the
/// members after it.
pub open spec fn all_nodes(m: MembershipConfig) -> Set<u64> {
    match opt_set(m.members_after_consensus) {
        Some(a) => m.members@.union(a),
        None => m.members@,
    }
}

/// What joining node `node_id` asks of the cluster: nothing when it is
/// already one of its nodes; otherwise the membership becomes every node
/// plus this one, and that list of members is written through raft.
pub fn join_plan(m: &MembershipConfig, node_id: u64) -> (r: Option<Vec<u64>>)
    ensures
        all_nodes(*m).contains(node_id) ==> r is None,
        !all_nodes(*m).contains(node_id) ==> (r matches Some(v) && v@.to_set() == all_nodes(*m).insert(node_id)),
{
    let in_after = match &m.members_after_consensus {
        Some(a) => a.contains(&node_id),
        None => false,
    };
    if m.members.contains(&node_id) || in_after {
        return None;
    }
    let mut v = set_to_vec(&m.members);
    let ghost va = v@;
    let mut w: Vec<u64> = match &m.members_after_consensus {
        Some(a) => set_to_vec(a),
        None => Vec::new(),
    };
    let ghost wa = w@;
    v.append(&mut w);
    v.push(node_id);
    proof {
        assert(v@ == va + wa + seq![node_id]);
        assert forall|k: u64| v@.to_set().contains(k) implies all_nodes(*m).insert(node_id).contains(k) by {
            let j = choose|j: int| 0 <= j < v@.len() && v@[j] == k;
            if j < va.len() {
                assert(va[j] == k && va.contains(k));
            } else if j < va.len() + wa.len() {
                assert(wa[j - va.len()] == k && wa.contains(k));
            }
        }
        assert forall|k: u64| all_nodes(*m).insert(node_id).contains(k) implies v@.to_set().contains(k) by {
            if k == node_id {
                assert(v@[v@.len() - 1] == node_id);
            } else if m.members@.contains(k) {
                let j = choose|j: int| 0 <= j < va.len() && va[j] == k;
                assert(v@[j] == k);
            } else {
                assert(wa.contains(k));
                let j = choose|j: int| 0 <= j < wa.len() && wa[j] == k;
                assert(v@[va.len() + j] == k);
            }
        }
        assert(v@.to_set() =~= all_nodes(*m).insert(node_id));
    }
    Some(v)
}

} // verus!
