use vstd::prelude::*;
use crate::common::strmap::StrMap;
use crate::sequence::model::{SeqGroup, SeqRange, SequenceRaftResult};
use crate::raft::store::ClientResponse;

verus! {

/// A request to the id sequence service.
#[derive(Clone, Debug)]
pub enum SequenceRequest {
    /// Take the next id of a sequence.
    GetNextId(String),
    /// Refill the spare block of a sequence ahead of time.
    FillRange(String),
    /// Take a block of ids directly from the raft state machine.
    GetDirectRange(String, u64),
}

/// The answer to a `SequenceRequest`.
#[derive(Clone, Copy, Debug)]
pub enum SequenceResult {
    NextId(u64),
    Range(SeqRange),
    /// The request was carried out and has no value to give.
    Done,
}

/// What a request needs after the local step: an id may already be
/// known, or a block of ids has to be asked of the raft state machine.
#[derive(Clone, Debug)]
pub enum SequenceMiddleState {
    NextId(String, Option<u64>, bool),
    FillRange(String, u64),
    GetDirectRange(String, u64),
    FillIgnore,
}

/// The outcome of the asynchronous part of a request, handed back to the
/// manager.
#[derive(Clone, Debug)]
pub enum SequenceBeforeResult {
    NextId(String, u64, bool),
    UseFromRange { key: String, start: u64, len: u64 },
    FillRange { key: String, start: u64, len: u64 },
    DirectRange { start: u64, len: u64 },
    FillIgnore,
}

/// How the middle state is to be completed.
#[derive(Clone, Debug)]
pub enum SequenceAction {
    /// Nothing is to be asked: the result is ready.
    Ready(SequenceBeforeResult),
    /// Ask the raft state machine for the next block of `step` ids of `key`;
    /// its start and length complete the request as `UseFromRange`.
    RangeForNextId { key: String, step: u64 },
    /// The same, completing the request as `FillRange`.
    RangeForFill { key: String, step: u64 },
    /// The same, completing the request as `DirectRange`.
    RangeForDirect { key: String, step: u64 },
}

impl SequenceMiddleState {
    /// What completes the request: an id that is already known needs no
    /// raft round trip, anything else asks for a block; a missing id asks
    /// for a block of `step` ids, the manager's block size.
    pub fn plan(self, step: u64) -> (r: SequenceAction)
        ensures
            match self {
                SequenceMiddleState::NextId(key, Some(v), need) => r matches SequenceAction::Ready(
                    SequenceBeforeResult::NextId(k, x, n),
                ) && k == key && x == v && n == need,
                SequenceMiddleState::NextId(key, None, _) => r matches SequenceAction::RangeForNextId {
                    key: k,
                    step: s,
                } && k == key && s == step,
                SequenceMiddleState::FillRange(key, step) => r matches SequenceAction::RangeForFill {
                    key: k,
                    step: s,
                } && k == key && s == step,
                SequenceMiddleState::GetDirectRange(key, step) => r matches SequenceAction::RangeForDirect {
                    key: k,
                    step: s,
                } && k == key && s == step,
                SequenceMiddleState::FillIgnore => r matches SequenceAction::Ready(
                    SequenceBeforeResult::FillIgnore,
                ),
            },
    {
        match self {
            SequenceMiddleState::NextId(key, Some(v), need) => SequenceAction::Ready(
                SequenceBeforeResult::NextId(key, v, need),
            ),
            SequenceMiddleState::NextId(key, None, _) => SequenceAction::RangeForNextId { key, step },
            SequenceMiddleState::FillRange(key, step) => SequenceAction::RangeForFill { key, step },
            SequenceMiddleState::GetDirectRange(key, step) => SequenceAction::RangeForDirect { key, step },
            SequenceMiddleState::FillIgnore => SequenceAction::Ready(SequenceBeforeResult::FillIgnore),
        }
    }
}

/// Why the asynchronous part of a sequence request failed.
#[derive(Clone, Copy, Debug, PartialEq, Eq)]
pub enum SequenceRouteError {
    /// A block of ids was needed and no route to raft is known.
    NoRaftRouter,
    /// Raft answered the request for a block with something else than a
    /// block.
    BadRangeResponse,
}

impl SequenceMiddleState {
    /// What completes the request when `has_router` says whether a route to
    /// raft is known: the plan of `plan`, but a request that needs a block
    /// of ids is refused when no route is known; a known id and an ignored
    /// fill never need one.
    pub fn route_plan(self, step: u64, has_router: bool) -> (r: Result<SequenceAction, SequenceRouteError>)
        ensures
            match self {
                SequenceMiddleState::NextId(key, Some(v), need) => r matches Ok(SequenceAction::Ready(
                    SequenceBeforeResult::NextId(k, x, n),
                )) && k == key && x == v && n == need,
                SequenceMiddleState::FillIgnore => r matches Ok(
                    SequenceAction::Ready(SequenceBeforeResult::FillIgnore),
                ),
                SequenceMiddleState::NextId(key, None, _) => if has_router {
                    r matches Ok(SequenceAction::RangeForNextId { key: k, step: s }) && k == key && s == step
                } else {
                    r == Err::<SequenceAction, SequenceRouteError>(SequenceRouteError::NoRaftRouter)
                },
                SequenceMiddleState::FillRange(key, st) => if has_router {
                    r matches Ok(SequenceAction::RangeForFill { key: k, step: s }) && k == key && s == st
                } else {
                    r == Err::<SequenceAction, SequenceRouteError>(SequenceRouteError::NoRaftRouter)
                },
                SequenceMiddleState::GetDirectRange(key, st) => if has_router {
                    r matches Ok(SequenceAction::RangeForDirect { key: k, step: s }) && k == key && s == st
                } else {
                    r == Err::<SequenceAction, SequenceRouteError>(SequenceRouteError::NoRaftRouter)
                },
            },
    {
        let a = self.plan(step);
        match a {
            SequenceAction::Ready(_) => Ok(a),
            _ => if has_router {
                Ok(a)
            } else {
                Err(SequenceRouteError::NoRaftRouter)
            },
        }
    }
}

/// The block of ids in raft's answer to a request for a block.
pub fn next_range_of(resp: ClientResponse) -> (r: Result<(u64, u64), SequenceRouteError>)
    ensures
        match resp {
            ClientResponse::SequenceResp { resp: SequenceRaftResult::NextRange { start, len } } => r == Ok::<
                (u64, u64),
                SequenceRouteError,
            >((start, len)),
            _ => r == Err::<(u64, u64), SequenceRouteError>(SequenceRouteError::BadRangeResponse),
        },
{
    match resp {
        ClientResponse::SequenceResp { resp: SequenceRaftResult::NextRange { start, len } } => Ok((start, len)),
        _ => Err(SequenceRouteError::BadRangeResponse),
    }
}

/// The outcome of a request whose block of ids, when one was asked for, is
/// `[start, start + len)`.
pub fn complete_action(a: SequenceAction, start: u64, len: u64) -> (r: SequenceBeforeResult)
    ensures
        match a {
            SequenceAction::Ready(b) => r == b,
            SequenceAction::RangeForNextId { key, .. } => r == (SequenceBeforeResult::UseFromRange { key, start, len }),
            SequenceAction::RangeForFill { key, .. } => r == (SequenceBeforeResult::FillRange { key, start, len }),
            SequenceAction::RangeForDirect { .. } => r == (SequenceBeforeResult::DirectRange { start, len }),
        },
{
    match a {
        SequenceAction::Ready(b) => b,
        SequenceAction::RangeForNextId { key, .. } => SequenceBeforeResult::UseFromRange { key, start, len },
        SequenceAction::RangeForFill { key, .. } => SequenceBeforeResult::FillRange { key, start, len },
        SequenceAction::RangeForDirect { .. } => SequenceBeforeResult::DirectRange { start, len },
    }
}

/// The answer for an id that was or was not available.
pub open spec fn id_result(id: Option<u64>) -> SequenceResult {
    match id {
        Some(x) => SequenceResult::NextId(x),
        None => SequenceResult::Done,
    }
}

/// All groups of a map are consistent.
pub open spec fn groups_wf(m: Map<Seq<char>, SeqGroup>) -> bool {
    forall|k: Seq<char>| #[trigger] m.contains_key(k) ==> m[k].wf()
}

/// The id sequence service of one node: it hands out ids from blocks that it
/// asks of the raft state machine, one spare block ahead.
pub struct SequenceManager {
    pub(crate) seq_map: StrMap<SeqGroup>,
    seq_step: u64,
}

impl View for SequenceManager {
    type V = Map<Seq<char>, SeqGroup>;

    closed spec fn view(&self) -> Map<Seq<char>, SeqGroup> {
        self.seq_map@
    }
}

impl SequenceManager {
    pub closed spec fn wf(&self) -> bool {
        self.seq_map.wf() && groups_wf(self.seq_map@)
    }

    /// The size of the blocks asked for.
    pub closed spec fn spec_seq_step(&self) -> u64 {
        self.seq_step
    }

    pub fn new() -> (r: Self)
        ensures
            r.wf(),
            r@ == Map::<Seq<char>, SeqGroup>::empty(),
            r.spec_seq_step() == 100,
    {
        let r = Self { seq_map: StrMap::new(), seq_step: 100 };
        r
    }

    /// The size of the blocks asked for.
    pub fn seq_step(&self) -> (r: u64)
        ensures
            r == self.spec_seq_step(),
    {
        self.seq_step
    }

    /// Takes the next id of `key` locally, and says whether a refill should
    /// be asked for; a new key gets an empty group and no id.
    pub fn do_next_id(&mut self, key: &String) -> (r: (Option<u64>, bool))
        requires
            old(self).wf(),
        ensures
            final(self).wf(),
            final(self).spec_seq_step() == old(self).spec_seq_step(),
            final(self)@.dom() == old(self)@.dom().insert(key@),
            forall|k: Seq<char>| k != key@ && #[trigger] old(self)@.contains_key(k) ==> final(self)@[k]
                == old(self)@[k],
            old(self)@.contains_key(key@) ==> SeqGroup::next_id_post(
                old(self)@[key@],
                final(self)@[key@],
                r.0,
            ) && r.1 == final(self)@[key@].spec_need_apply(),
            !old(self)@.contains_key(key@) ==> r == (None::<u64>, true) && final(self)@[key@]
                == SeqGroup::spec_new(old(self).spec_seq_step()),
    {
        match self.seq_map.get(key) {
            Some(g) => {
                let mut group = *g;
                let v = group.next_id();
                let need_apply = group.need_apply();
                self.seq_map.insert(key.clone(), group);
                proof {
                    assert(self@.dom() =~= old(self)@.dom().insert(key@));
                }
                (v, need_apply)
            },
            None => {
                let group = SeqGroup::new(self.seq_step);
                self.seq_map.insert(key.clone(), group);
                proof {
                    assert(self@.dom() =~= old(self)@.dom().insert(key@));
                }
                (None, true)
            },
        }
    }

    /// The local part of a request: takes an id, marks a refill as asked
    /// for, or passes the request on.
    pub fn handle(&mut self, msg: SequenceRequest) -> (r: SequenceMiddleState)
        requires
            old(self).wf(),
        ensures
            final(self).wf(),
            final(self).spec_seq_step() == old(self).spec_seq_step(),
            match msg {
                SequenceRequest::GetNextId(key) => r matches SequenceMiddleState::NextId(k, id, need)
                    && k@ == key@ && (old(self)@.contains_key(key@) ==> SeqGroup::next_id_post(
                    old(self)@[key@],
                    final(self)@[key@],
                    id,
                ) && need == final(self)@[key@].spec_need_apply()) && (!old(self)@.contains_key(key@)
                    ==> id is None && need && final(self)@[key@] == SeqGroup::spec_new(
                    old(self).spec_seq_step(),
                )) && final(self)@.dom() == old(self)@.dom().insert(key@),
                SequenceRequest::FillRange(key) => if old(self)@.contains_key(key@)
                    && old(self)@[key@].spec_need_apply() {
                    &&& r matches SequenceMiddleState::FillRange(k, step) && k@ == key@ && step
                        == old(self).spec_seq_step()
                    &&& final(self)@ == old(self)@.insert(key@, final(self)@[key@])
                    &&& final(self)@[key@].spec_next_adding()
                    &&& final(self)@[key@].spec_range_a() == old(self)@[key@].spec_range_a()
                    &&& final(self)@[key@].spec_range_b() == old(self)@[key@].spec_range_b()
                    &&& final(self)@[key@].spec_use_a() == old(self)@[key@].spec_use_a()
                } else {
                    r matches SequenceMiddleState::FillIgnore && final(self)@ == old(self)@
                },
                SequenceRequest::GetDirectRange(key, len) => (r matches SequenceMiddleState::GetDirectRange(
                    k,
                    l,
                ) && k@ == key@ && l == len) && final(self)@ == old(self)@,
            },
    {
        match msg {
            SequenceRequest::GetNextId(key) => {
                let (id, need_apply) = self.do_next_id(&key);
                SequenceMiddleState::NextId(key, id, need_apply)
            },
            SequenceRequest::FillRange(key) => {
                match self.seq_map.get(&key) {
                    Some(g) => {
                        let mut group = *g;
                        if group.need_apply() {
                            group.mark_apply();
                            self.seq_map.insert(key.clone(), group);
                            SequenceMiddleState::FillRange(key, self.seq_step)
                        } else {
                            SequenceMiddleState::FillIgnore
                        }
                    },
                    None => SequenceMiddleState::FillIgnore,
                }
            },
            SequenceRequest::GetDirectRange(key, len) => SequenceMiddleState::GetDirectRange(key, len),
        }
    }

    /// Completes a request with the outcome of its asynchronous part, and
    /// says whether a refill of the key is to be requested next.
    pub fn handle_result(&mut self, before: SequenceBeforeResult) -> (r: (SequenceResult, Option<String>))
        requires
            old(self).wf(),
            match before {
                SequenceBeforeResult::UseFromRange { key, start, len } => start + len <= u64::MAX + 1,
                SequenceBeforeResult::FillRange { key, start, len } => start + len <= u64::MAX + 1,
                SequenceBeforeResult::DirectRange { start, len } => start + len <= u64::MAX + 1,
                _ => true,
            },
        ensures
            final(self).wf(),
            final(self).spec_seq_step() == old(self).spec_seq_step(),
            match before {
                SequenceBeforeResult::NextId(key, id, need) => (r.0 matches SequenceResult::NextId(x) && x
                    == id) && (need ==> (r.1 matches Some(k) && k@ == key@)) && (!need ==> r.1 is None)
                    && final(self)@ == old(self)@,
                SequenceBeforeResult::UseFromRange { key, start, len } => r.1 is None && (old(self)@.contains_key(key@) ==> {
                    let f = final(self)@[key@];
                    &&& final(self)@ == old(self)@.insert(key@, f)
                    &&& exists|g: SeqGroup, id: Option<u64>|
                        SeqGroup::apply_range_post(old(self)@[key@], g, start, len)
                        && #[trigger] SeqGroup::next_id_post(g, f, id) && r.0 == id_result(id)
                }) && (!old(self)@.contains_key(key@) ==> (r.0 matches SequenceResult::Done) && final(self)@ == old(self)@.insert(key@, SeqGroup::spec_new(old(self).spec_seq_step()))),
                SequenceBeforeResult::FillRange { key, start, len } => (r.0 matches SequenceResult::Done)
                    && r.1 is None && (old(self)@.contains_key(key@) ==> {
                    let g = old(self)@[key@];
                    let f = final(self)@[key@];
                    &&& final(self)@ == old(self)@.insert(key@, f)
                    &&& !f.spec_next_adding()
                    &&& f.spec_use_a() == g.spec_use_a()
                    &&& SeqGroup::ranges_after_apply(g, f, start, len)
                }) && (!old(self)@.contains_key(key@) ==> final(self)@ == old(self)@),
                SequenceBeforeResult::DirectRange { start, len } => (r.0 matches SequenceResult::Range(
                    range,
                ) && range == SeqRange::spec_new(start, len)) && r.1 is None && final(self)@ == old(
                    self,
                )@,
                SequenceBeforeResult::FillIgnore => (r.0 matches SequenceResult::Done) && r.1 is None
                    && final(self)@ == old(self)@,
            },
    {
        match before {
            SequenceBeforeResult::NextId(key, id, need_apply) => {
                let follow = if need_apply {
                    Some(key)
                } else {
                    None
                };
                (SequenceResult::NextId(id), follow)
            },
            SequenceBeforeResult::UseFromRange { key, start, len } => {
                let ghost applied: SeqGroup;
                match self.seq_map.get(&key) {
                    Some(g) => {
                        let mut group = *g;
                        group.apply_range(start, len);
                        proof {
                            applied = group;
                        }
                        self.seq_map.insert(key.clone(), group);
                    },
                    None => {},
                }
                proof {
                    assert(self@.dom() =~= old(self)@.dom());
                }
                let ghost mid = self@;
                let (id, _) = self.do_next_id(&key);
                proof {
                    if old(self)@.contains_key(key@) {
                        assert(mid[key@] == applied);
                        assert(SeqGroup::next_id_post(applied, self@[key@], id));
                        assert(self@ =~= old(self)@.insert(key@, self@[key@]));
                    } else {
                        assert(mid == old(self)@);
                    }
                }
                match id {
                    Some(x) => (SequenceResult::NextId(x), None),
                    None => (SequenceResult::Done, None),
                }
            },
            SequenceBeforeResult::FillRange { key, start, len } => {
                match self.seq_map.get(&key) {
                    Some(g) => {
                        let mut group = *g;
                        group.apply_range(start, len);
                        group.clear_apply_mark();
                        self.seq_map.insert(key.clone(), group);
                    },
                    None => {},
                }
                (SequenceResult::Done, None)
            },
            SequenceBeforeResult::FillIgnore => (SequenceResult::Done, None),
            SequenceBeforeResult::DirectRange { start, len } => (
                SequenceResult::Range(SeqRange::new(start, len)),
                None,
            ),
        }
    }
}

} // verus!
