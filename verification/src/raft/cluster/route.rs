use vstd::prelude::*;
use crate::raft::cluster::model::RouteAddr;

verus! {

/// Where a request goes, before the leader's address is looked up.
#[derive(Clone, Copy, Debug, PartialEq, Eq)]
pub enum RouteTarget {
    /// This node leads: the request is carried out here.
    Local,
    /// Another node leads: the request is sent to it.
    Remote(u64),
    /// No leader is known.
    Unknown,
}

/// The route for the current leader, as seen from node `local_node_id`.
pub fn route_target(leader: Option<u64>, local_node_id: u64) -> (r: RouteTarget)
    ensures
        match leader {
            Some(id) => if id == local_node_id {
                r == RouteTarget::Local
            } else {
                r == RouteTarget::Remote(id)
            },
            None => r == RouteTarget::Unknown,
        },
{
    match leader {
        Some(node_id) => if node_id == local_node_id {
            RouteTarget::Local
        } else {
            RouteTarget::Remote(node_id)
        },
        None => RouteTarget::Unknown,
    }
}

/// The route with the leader's address, once it has been looked up.
pub fn route_addr(target: RouteTarget, addr: String) -> (r: RouteAddr)
    ensures
        match target {
            RouteTarget::Local => r matches RouteAddr::Local,
            RouteTarget::Remote(id) => r matches RouteAddr::Remote(i, a) && i == id && a == addr,
            RouteTarget::Unknown => r matches RouteAddr::Unknown,
        },
{
    match target {
        RouteTarget::Local => RouteAddr::Local,
        RouteTarget::Remote(id) => RouteAddr::Remote(id, addr),
        RouteTarget::Unknown => RouteAddr::Unknown,
    }
}

} // verus!
