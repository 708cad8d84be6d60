use vstd::prelude::*;
use crate::common::idmap::IdMap;
use crate::raft::store::ClientRequest;
use crate::raft::filestore::apply::{EntryPayload, ConfigRaftCmd, ApplyTarget, apply_target_of, apply_target};
use crate::raft::filestore::storecore::{MembershipConfig, HardState, InitialState, LogIndexInfo, opt_set, after_consensus_set};

verus! {

/// An entry of the raft log.
pub struct StoreEntry {
    pub index: u64,
    pub term: u64,
    pub payload: EntryPayload,
}

/// A request to the store of raft's log and state machine.
pub enum StoreRequest {
    GetMembershipConfig,
    /// The initial state, given the last entry of the log, if any.
    GetInitialState { last_log: Option<LogIndexInfo> },
    SaveHardState { current_term: u64, voted_for: Option<u64> },
    GetLogEntries { start: u64, stop: u64 },
    DeleteLogsFrom { start: u64, stop: Option<u64> },
    AppendEntryToLog(StoreEntry),
    ReplicateToLog(Vec<StoreEntry>),
    ApplyEntryToStateMachineRange { start: u64, end: u64 },
    GetTargetAddr(u64),
}

/// The store's answer.
pub enum StoreResponse {
    MembershipConfig(MembershipConfig),
    InitialState(InitialState),
    TargetAddr(Option<String>),
    /// The request was carried out and has no value to give.
    Done,
}

/// The work on the log that a request asks for, the answer aside.
pub enum StoreAction {
    Nothing,
    /// Store the term and the vote.
    SaveHardState,
    /// Read the entries with an index in `[start, end)` and answer with them.
    ReadLog { start: u64, end: u64 },
    /// Delete the entries with an index in `[start, end)`.
    DeleteLog { start: u64, end: u64 },
    /// Write the entries, each under its index, replacing what was there.
    WriteLog(Vec<StoreEntry>),
    /// Read the entries with an index in `[start, end)` and apply them, in
    /// order, with `apply_entries`.
    ApplyRange { start: u64, end: u64 },
}

/// What raft's store knows of the state machine: the last applied index,
/// the term and vote once saved, the members once a change was applied,
/// and the nodes' addresses.
pub struct InnerStore {
    pub id: u64,
    pub last_applied_log: u64,
    pub hard_state: Option<(u64, Option<u64>)>,
    pub membership: Option<(Vec<u64>, Vec<u64>)>,
    pub node_addr: IdMap<String>,
}

/// The entries to apply from a request to apply `[_, end)` when the
/// last applied index is `last_applied`: those after the last applied one,
/// up to `end`; none when that range is empty.
pub open spec fn apply_range_of(last_applied: u64, end: u64) -> Option<(u64, u64)> {
    if last_applied + 1 >= end {
        None
    } else {
        Some(((last_applied + 1) as u64, end))
    }
}

/// The command that the configuration service is sent for an entry.
pub open spec fn config_cmd_of(p: EntryPayload) -> Option<ConfigRaftCmd> {
    match p {
        EntryPayload::Normal(req) => match apply_target_of(req) {
            ApplyTarget::Config(c) => Some(c),
            _ => None,
        },
        _ => None,
    }
}

/// The commands that applying `entries` sends, in order.
pub open spec fn config_cmds_of(entries: Seq<StoreEntry>) -> Seq<ConfigRaftCmd>
    decreases entries.len(),
{
    if entries.len() == 0 {
        Seq::empty()
    } else {
        let prev = config_cmds_of(entries.drop_last());
        match config_cmd_of(entries.last().payload) {
            Some(c) => prev.push(c),
            None => prev,
        }
    }
}

/// The node addresses after applying `entries` to `m`.
pub open spec fn addrs_after(m: Map<u64, String>, entries: Seq<StoreEntry>) -> Map<u64, String>
    decreases entries.len(),
{
    if entries.len() == 0 {
        m
    } else {
        let prev = addrs_after(m, entries.drop_last());
        match entries.last().payload {
            EntryPayload::Normal(ClientRequest::NodeAddr { id, addr }) => prev.insert(id, addr),
            _ => prev,
        }
    }
}

/// The members after applying `entries`: those of the last change among
/// them, or `m` when there is none.
pub open spec fn membership_after(m: Option<(Seq<u64>, Seq<u64>)>, entries: Seq<StoreEntry>) -> Option<
    (Seq<u64>, Seq<u64>),
>
    decreases entries.len(),
{
    if entries.len() == 0 {
        m
    } else {
        match entries.last().payload {
            EntryPayload::ConfigChange { members, members_after_consensus } => Some(
                (members@, members_after_consensus@),
            ),
            _ => membership_after(m, entries.drop_last()),
        }
    }
}

/// The members as lists.
pub open spec fn membership_lists(m: Option<(Vec<u64>, Vec<u64>)>) -> Option<(Seq<u64>, Seq<u64>)> {
    match m {
        Some((a, b)) => Some((a@, b@)),
        None => None,
    }
}

/// `c` is the membership that store `s` answers: the members last applied,
/// or node `s.id` alone before any change was applied.
pub open spec fn membership_fits(s: InnerStore, c: MembershipConfig) -> bool {
    match s.membership {
        Some((m, a)) => c.members@ == m@.to_set() && opt_set(c.members_after_consensus) == after_consensus_set(a@),
        None => c.members@ == set![s.id] && c.members_after_consensus is None,
    }
}

/// `r` is the initial state that store `o` answers given the last log entry
/// `last_log`, and `hard` the term and vote it keeps afterwards: with a
/// saved term and vote, the last entry's index and term (0 and 0 for an
/// empty log), the last applied index, the saved term and vote, and the
/// members; with none, the state of a new node, whose term 0 and absent vote
/// become the saved ones.
pub open spec fn initial_state_fits(
    o: InnerStore,
    hard: Option<(u64, Option<u64>)>,
    last_log: Option<LogIndexInfo>,
    r: InitialState,
) -> bool {
    match o.hard_state {
        Some((term, vote)) => {
            &&& hard == o.hard_state
            &&& r.last_log_index == (match last_log {
                Some(l) => l.index,
                None => 0,
            })
            &&& r.last_log_term == (match last_log {
                Some(l) => l.term,
                None => 0,
            })
            &&& r.last_applied_log == o.last_applied_log
            &&& r.hard_state.current_term == term && r.hard_state.voted_for == vote
            &&& membership_fits(o, r.membership)
        },
        None => {
            &&& hard == Some((0u64, None::<u64>))
            &&& r.last_log_index == 0 && r.last_log_term == 0 && r.last_applied_log == 0
            &&& r.hard_state.current_term == 0 && r.hard_state.voted_for is None
            &&& r.membership.members@ == set![o.id] && r.membership.members_after_consensus is None
        },
    }
}

/// A request to apply entries up to `end` applies those after the last
/// applied index and before `end`, and nothing when there are none.
pub proof fn law_apply_range(last_applied: u64, end: u64)
    requires
        last_applied < u64::MAX,
    ensures
        apply_range_of(last_applied, end) matches Some((s, e)) ==> s == last_applied + 1 && e == end && s < e,
        apply_range_of(last_applied, end) is None ==> last_applied + 1 >= end,
{
}

/// Whether entry `e` carries the address `a` of node `id`.
pub open spec fn sets_addr(e: StoreEntry, id: u64, a: String) -> bool {
    e.payload matches EntryPayload::Normal(ClientRequest::NodeAddr { id: i, addr }) && i == id && addr == a
}

/// Whether entry `e` carries an address of node `id`.
pub open spec fn names_node(e: StoreEntry, id: u64) -> bool {
    e.payload matches EntryPayload::Normal(ClientRequest::NodeAddr { id: i, .. }) && i == id
}

/// Applying entries keeps for each node the address of the last entry
/// that carries one, and leaves the address of every other node as it was.
pub proof fn law_addresses_after_apply(m: Map<u64, String>, es: Seq<StoreEntry>, id: u64)
    ensures
        forall|j: int, a: String|
            0 <= j < es.len() && sets_addr(es[j], id, a) && (forall|k: int| j < k < es.len() ==> !names_node(
                #[trigger] es[k],
                id,
            )) ==> addrs_after(m, es).contains_key(id) && addrs_after(m, es)[id] == a,
        (forall|k: int| 0 <= k < es.len() ==> !names_node(#[trigger] es[k], id)) ==> addrs_after(m, es).contains_key(id)
            == m.contains_key(id) && (m.contains_key(id) ==> addrs_after(m, es)[id] == m[id]),
    decreases es.len(),
{
    if es.len() > 0 {
        let p = es.drop_last();
        law_addresses_after_apply(m, p, id);
        assert forall|j: int, a: String|
            0 <= j < es.len() && sets_addr(es[j], id, a) && (forall|k: int| j < k < es.len() ==> !names_node(
                #[trigger] es[k],
                id,
            )) implies addrs_after(m, es).contains_key(id) && addrs_after(m, es)[id] == a by {
            if j < es.len() - 1 {
                assert(!names_node(es[es.len() - 1], id));
                assert(p[j] == es[j]);
                assert forall|k: int| j < k < p.len() implies !names_node(#[trigger] p[k], id) by {
                    assert(p[k] == es[k]);
                }
            }
        }
        if forall|k: int| 0 <= k < es.len() ==> !names_node(#[trigger] es[k], id) {
            assert(!names_node(es[es.len() - 1], id));
            assert forall|k: int| 0 <= k < p.len() implies !names_node(#[trigger] p[k], id) by {
                assert(p[k] == es[k]);
            }
        }
    }
}

/// Applying entries leaves the members of the last membership change among
/// them, or those there were when none is a change.
pub proof fn law_membership_after_apply(m: Option<(Seq<u64>, Seq<u64>)>, es: Seq<StoreEntry>)
    ensures
        forall|j: int, a: Vec<u64>, b: Vec<u64>|
            0 <= j < es.len() && es[j].payload == (EntryPayload::ConfigChange { members: a, members_after_consensus: b })
                && (forall|k: int| j < k < es.len() ==> !(#[trigger] es[k].payload is ConfigChange))
                ==> membership_after(m, es) == Some((a@, b@)),
        (forall|k: int| 0 <= k < es.len() ==> !(#[trigger] es[k].payload is ConfigChange)) ==> membership_after(m, es)
            == m,
    decreases es.len(),
{
    if es.len() > 0 {
        let p = es.drop_last();
        law_membership_after_apply(m, p);
        assert forall|j: int, a: Vec<u64>, b: Vec<u64>|
            0 <= j < es.len() && es[j].payload == (EntryPayload::ConfigChange { members: a, members_after_consensus: b })
                && (forall|k: int| j < k < es.len() ==> !(#[trigger] es[k].payload is ConfigChange)) implies membership_after(
            m,
            es,
        ) == Some((a@, b@)) by {
            if j < es.len() - 1 {
                assert(!(es[es.len() - 1].payload is ConfigChange));
                assert(p[j] == es[j]);
                assert forall|k: int| j < k < p.len() implies !(#[trigger] p[k].payload is ConfigChange) by {
                    assert(p[k] == es[k]);
                }
            }
        }
        if forall|k: int| 0 <= k < es.len() ==> !(#[trigger] es[k].payload is ConfigChange) {
            assert(!(es[es.len() - 1].payload is ConfigChange));
            assert forall|k: int| 0 <= k < p.len() implies !(#[trigger] p[k].payload is ConfigChange) by {
                assert(p[k] == es[k]);
            }
        }
    }
}

/// What applying a range of entries asks to be stored and sent.
pub struct ApplyEffects {
    /// The commands for the configuration service, in order.
    pub config_cmds: Vec<ConfigRaftCmd>,
    /// Whether the members or the addresses changed and are to be stored.
    pub save_membership: bool,
    /// The last applied index to store, if it changed.
    pub save_last_applied: Option<u64>,
}

impl InnerStore {
    pub open spec fn wf(&self) -> bool {
        self.node_addr.wf()
    }

    /// A store that knows nothing yet.
    pub fn new(id: u64) -> (r: Self)
        ensures
            r.wf(),
            r.id == id,
            r.last_applied_log == 0,
            r.hard_state is None,
            r.membership is None,
            r.node_addr@ == Map::<u64, String>::empty(),
    {
        InnerStore { id, last_applied_log: 0, hard_state: None, membership: None, node_addr: IdMap::new() }
    }

    /// The members: those last applied, or this node alone before any
    /// change was applied.
    pub fn get_membership_config(&self) -> (r: MembershipConfig)
        ensures
            membership_fits(*self, r),
    {
        match &self.membership {
            Some((m, a)) => MembershipConfig::from_lists(m, a),
            None => MembershipConfig::new_initial(self.id),
        }
    }

    /// The state a node starts from, given the last entry of the log: with
    /// a saved term and vote, the last entry's index and term (0 and 0 for
    /// an empty log), the last applied index, the saved term and vote and
    /// the members; with none, the state of a new node, whose term 0 and
    /// absent vote become the saved ones.
    pub fn get_initial_state(&mut self, last_log: Option<LogIndexInfo>) -> (r: InitialState)
        ensures
            final(self).id == old(self).id,
            final(self).last_applied_log == old(self).last_applied_log,
            final(self).membership == old(self).membership,
            final(self).node_addr == old(self).node_addr,
            initial_state_fits(*old(self), final(self).hard_state, last_log, r),
    {
        match self.hard_state {
            Some((term, vote)) => {
                let (last_log_index, last_log_term) = match last_log {
                    Some(l) => (l.index, l.term),
                    None => (0, 0),
                };
                InitialState {
                    last_log_index,
                    last_log_term,
                    last_applied_log: self.last_applied_log,
                    hard_state: HardState { current_term: term, voted_for: vote },
                    membership: self.get_membership_config(),
                }
            },
            None => {
                let r = InitialState::new_initial(self.id);
                self.hard_state = Some((0, None));
                r
            },
        }
    }

    /// The address of node `id`, if known.
    pub fn get_target_addr(&self, id: u64) -> (r: Option<String>)
        requires
            self.wf(),
        ensures
            match r {
                Some(a) => self.node_addr@.contains_key(id) && a == self.node_addr@[id],
                None => !self.node_addr@.contains_key(id),
            },
    {
        match self.node_addr.get(id) {
            Some(a) => Some(a.clone()),
            None => None,
        }
    }

    /// Applies entries read from the log, in order: a configuration command
    /// is sent to the configuration service, a node's address is kept, a
    /// change of the members replaces them; the members are stored when an
    /// address or the members changed; the last applied index becomes the
    /// last entry's and is stored. No entry changes nothing.
    pub fn apply_entries(&mut self, entries: Vec<StoreEntry>) -> (r: ApplyEffects)
        requires
            old(self).wf(),
        ensures
            final(self).wf(),
            final(self).id == old(self).id,
            final(self).hard_state == old(self).hard_state,
            r.config_cmds@ == config_cmds_of(entries@),
            final(self).node_addr@ == addrs_after(old(self).node_addr@, entries@),
            membership_lists(final(self).membership) == membership_after(membership_lists(old(self).membership), entries@),
            entries@.len() == 0 ==> final(self).last_applied_log == old(self).last_applied_log
                && r.save_last_applied is None,
            entries@.len() > 0 ==> final(self).last_applied_log == entries@.last().index
                && r.save_last_applied == Some(entries@.last().index),
    {
        let ghost orig = entries@;
        let ghost addrs0 = self.node_addr@;
        let ghost mem0 = membership_lists(self.membership);
        let n = entries.len();
        let mut rest = entries;
        let mut cmds: Vec<ConfigRaftCmd> = Vec::new();
        let mut save_membership = false;
        let mut last: Option<u64> = None;
        let mut i: usize = 0;
        while i < n
            invariant
                i <= n,
                n == orig.len(),
                rest@ == orig.subrange(i as int, n as int),
                self.wf(),
                self.id == old(self).id,
                self.hard_state == old(self).hard_state,
                self.last_applied_log == old(self).last_applied_log,
                cmds@ == config_cmds_of(orig.subrange(0, i as int)),
                self.node_addr@ == addrs_after(addrs0, orig.subrange(0, i as int)),
                membership_lists(self.membership) == membership_after(mem0, orig.subrange(0, i as int)),
                i == 0 ==> last is None,
                i > 0 ==> last == Some(orig[i - 1].index),
            decreases n - i,
        {
            let e = rest.remove(0);
            assert(e == orig[i as int]);
            let ghost pre = orig.subrange(0, i as int);
            assert(orig.subrange(0, i as int + 1).drop_last() =~= pre);
            last = Some(e.index);
            match e.payload {
                EntryPayload::Normal(req) => {
                    match req {
                        ClientRequest::NodeAddr { id, addr } => {
                            self.node_addr.insert(id, addr);
                            save_membership = true;
                        },
                        _ => {
                            match apply_target(req) {
                                ApplyTarget::Config(c) => cmds.push(c),
                                _ => {},
                            }
                        },
                    }
                },
                EntryPayload::ConfigChange { members, members_after_consensus } => {
                    self.membership = Some((members, members_after_consensus));
                    save_membership = true;
                },
                _ => {},
            }
            proof {
                assert(rest@ =~= orig.subrange(i + 1, n as int));
            }
            i += 1;
        }
        assert(orig.subrange(0, n as int) =~= orig);
        match last {
            Some(l) => {
                self.last_applied_log = l;
            },
            None => {},
        }
        ApplyEffects { config_cmds: cmds, save_membership, save_last_applied: last }
    }

    /// Handles a request: the answer, and the work on the log it asks for.
    /// A request to apply `[_, end)` applies the entries after the last
    /// applied one, up to `end` (nothing when there are none), whatever
    /// start it names; a read of an empty or reversed range answers with no
    /// entries; a delete with its stop before its start deletes nothing; a
    /// delete with no stop deletes every entry from the start on.
    pub fn handle(&mut self, msg: StoreRequest) -> (r: (StoreResponse, StoreAction))
        requires
            old(self).wf(),
            old(self).last_applied_log < u64::MAX,
        ensures
            final(self).wf(),
            final(self).last_applied_log == old(self).last_applied_log,
            final(self).membership == old(self).membership,
            final(self).node_addr == old(self).node_addr,
            match msg {
                StoreRequest::GetMembershipConfig => {
                    &&& r.0 matches StoreResponse::MembershipConfig(c) && membership_fits(*old(self), c)
                    &&& r.1 is Nothing
                    &&& final(self).hard_state == old(self).hard_state
                },
                StoreRequest::GetInitialState { last_log } => {
                    &&& r.0 matches StoreResponse::InitialState(st) && initial_state_fits(
                        *old(self),
                        final(self).hard_state,
                        last_log,
                        st,
                    )
                    &&& r.1 is Nothing
                },
                StoreRequest::SaveHardState { current_term, voted_for } => r.0 is Done && r.1 is SaveHardState
                    && final(self).hard_state == Some((current_term, voted_for)),
                StoreRequest::GetLogEntries { start, stop } => r.0 is Done && final(self).hard_state
                    == old(self).hard_state && if start < stop {
                    r.1 == StoreAction::ReadLog { start, end: stop }
                } else {
                    r.1 is Nothing
                },
                StoreRequest::DeleteLogsFrom { start, stop } => r.0 is Done && final(self).hard_state
                    == old(self).hard_state && match stop {
                    Some(s) => if start > s {
                        r.1 is Nothing
                    } else {
                        r.1 == StoreAction::DeleteLog { start, end: s }
                    },
                    None => r.1 == StoreAction::DeleteLog { start, end: u64::MAX },
                },
                StoreRequest::AppendEntryToLog(e) => {
                    &&& r.0 is Done
                    &&& final(self).hard_state == old(self).hard_state
                    &&& r.1 matches StoreAction::WriteLog(v) && v@ == seq![e]
                },
                StoreRequest::ReplicateToLog(v) => r.0 is Done && final(self).hard_state == old(self).hard_state
                    && r.1 == StoreAction::WriteLog(v),
                StoreRequest::ApplyEntryToStateMachineRange { start, end } => r.0 is Done && final(self).hard_state
                    == old(self).hard_state && match apply_range_of(old(self).last_applied_log, end) {
                    Some((s, e)) => r.1 == StoreAction::ApplyRange { start: s, end: e },
                    None => r.1 is Nothing,
                },
                StoreRequest::GetTargetAddr(id) => {
                    &&& final(self).hard_state == old(self).hard_state
                    &&& r.1 is Nothing
                    &&& r.0 matches StoreResponse::TargetAddr(a) && match a {
                        Some(x) => old(self).node_addr@.contains_key(id) && x == old(self).node_addr@[id],
                        None => !old(self).node_addr@.contains_key(id),
                    }
                },
            },
    {
        match msg {
            StoreRequest::GetMembershipConfig => (
                StoreResponse::MembershipConfig(self.get_membership_config()),
                StoreAction::Nothing,
            ),
            StoreRequest::GetInitialState { last_log } => {
                let s = self.get_initial_state(last_log);
                (StoreResponse::InitialState(s), StoreAction::Nothing)
            },
            StoreRequest::SaveHardState { current_term, voted_for } => {
                self.hard_state = Some((current_term, voted_for));
                (StoreResponse::Done, StoreAction::SaveHardState)
            },
            StoreRequest::GetLogEntries { start, stop } => {
                if start < stop {
                    (StoreResponse::Done, StoreAction::ReadLog { start, end: stop })
                } else {
                    (StoreResponse::Done, StoreAction::Nothing)
                }
            },
            StoreRequest::DeleteLogsFrom { start, stop } => match stop {
                Some(s) => if start > s {
                    (StoreResponse::Done, StoreAction::Nothing)
                } else {
                    (StoreResponse::Done, StoreAction::DeleteLog { start, end: s })
                },
                None => (StoreResponse::Done, StoreAction::DeleteLog { start, end: u64::MAX }),
            },
            StoreRequest::AppendEntryToLog(e) => {
                let mut v: Vec<StoreEntry> = Vec::new();
                v.push(e);
                (StoreResponse::Done, StoreAction::WriteLog(v))
            },
            StoreRequest::ReplicateToLog(v) => (StoreResponse::Done, StoreAction::WriteLog(v)),
            StoreRequest::ApplyEntryToStateMachineRange { start, end } => {
                let s = self.last_applied_log + 1;
                if s >= end {
                    (StoreResponse::Done, StoreAction::Nothing)
                } else {
                    (StoreResponse::Done, StoreAction::ApplyRange { start: s, end })
                }
            },
            StoreRequest::GetTargetAddr(id) => (StoreResponse::TargetAddr(self.get_target_addr(id)), StoreAction::Nothing),
        }
    }
}

} // verus!
