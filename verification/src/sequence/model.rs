use vstd::prelude::*;

verus! {

/// The ids `start + i` for `i` in `[from, to)`.
pub open spec fn id_span(start: int, from: int, to: int) -> Seq<int> {
    Seq::new(if from <= to { (to - from) as nat } else { 0 }, |i: int| start + from + i)
}

/// A half-open block of ids `[start, start + len)` handed out one by one.
#[derive(Clone, Copy, Debug, Default)]
pub struct SeqRange {
    pub(crate) start: u64,
    pub(crate) len: u64,
    current_index: u64,
}

impl SeqRange {
    /// The block is consistent: the cursor lies in the block and every id
    /// of the block fits in a `u64`.
    pub closed spec fn wf(&self) -> bool {
        &&& self.current_index <= self.len
        &&& self.start + self.len <= u64::MAX + 1
    }

    /// The ids that `next_id` will still hand out, in order.
    pub closed spec fn remaining(&self) -> Seq<int> {
        id_span(self.start as int, self.current_index as int, self.len as int)
    }

    /// A fresh block `[start, start + len)` with its cursor at the start.
    pub closed spec fn spec_new(start: u64, len: u64) -> SeqRange {
        SeqRange { start, len, current_index: 0 }
    }

    pub closed spec fn spec_start(&self) -> u64 {
        self.start
    }

    pub closed spec fn spec_len(&self) -> u64 {
        self.len
    }

    pub closed spec fn spec_current_index(&self) -> u64 {
        self.current_index
    }

    pub fn new(start: u64, len: u64) -> (r: Self)
        requires
            start + len <= u64::MAX + 1,
        ensures
            r.wf(),
            r == SeqRange::spec_new(start, len),
            r.spec_start() == start,
            r.spec_len() == len,
            r.spec_current_index() == 0,
            r.remaining() == id_span(start as int, 0, len as int),
    {
        Self { start, len, current_index: 0 }
    }

    /// Replaces the block by `[start, start + len)` and rewinds the cursor.
    pub fn renew(&mut self, start: u64, len: u64)
        requires
            start + len <= u64::MAX + 1,
        ensures
            final(self).wf(),
            *final(self) == SeqRange::spec_new(start, len),
            final(self).spec_start() == start,
            final(self).spec_len() == len,
            final(self).spec_current_index() == 0,
    {
        self.start = start;
        self.len = len;
        self.current_index = 0;
    }

    /// What one call of `next_id` gives: the block with its cursor moved on
    /// and the id at the cursor, or the block unchanged and `None` once it
    /// is used up.
    pub closed spec fn spec_next_id(&self) -> (SeqRange, Option<u64>) {
        if self.current_index < self.len {
            (SeqRange { current_index: (self.current_index + 1) as u64, ..*self }, Some((self.start + self.current_index) as u64))
        } else {
            (*self, None)
        }
    }

    /// Hands out the next id of the block, or `None` once it is used up.
    pub fn next_id(&mut self) -> (r: Option<u64>)
        requires
            old(self).wf(),
        ensures
            (*final(self), r) == old(self).spec_next_id(),
            final(self).wf(),
            final(self).spec_start() == old(self).spec_start(),
            final(self).spec_len() == old(self).spec_len(),
            old(self).spec_current_index() < old(self).spec_len() ==> {
                &&& r == Some((old(self).spec_start() + old(self).spec_current_index()) as u64)
                &&& final(self).spec_current_index() == old(self).spec_current_index() + 1
            },
            old(self).spec_current_index() >= old(self).spec_len() ==> {
                &&& r is None
                &&& final(self).spec_current_index() == old(self).spec_current_index()
            },
            r is Some ==> old(self).remaining().len() > 0 && r->0 == old(self).remaining()[0]
                && final(self).remaining() == old(self).remaining().drop_first(),
            r is None ==> old(self).remaining().len() == 0 && final(self).remaining()
                == old(self).remaining(),
    {
        if self.current_index >= self.len {
            return None;
        }
        let v = self.start + self.current_index;
        self.current_index += 1;
        proof {
            assert(self.remaining() =~= old(self).remaining().drop_first());
        }
        Some(v)
    }

    /// Whether the block still has an id to hand out.
    pub fn has_next(&self) -> (r: bool)
        ensures
            r == (self.spec_current_index() < self.spec_len()),
    {
        self.current_index < self.len
    }

    pub fn start(&self) -> (r: u64)
        ensures
            r == self.spec_start(),
    {
        self.start
    }

    pub fn len(&self) -> (r: u64)
        ensures
            r == self.spec_len(),
    {
        self.len
    }
}

} // verus!

verus! {

impl SeqRange {
    /// What `remaining` is made of.
    pub proof fn lemma_remaining(&self)
        requires
            self.wf(),
        ensures
            self.remaining().len() == self.spec_len() - self.spec_current_index(),
            forall|i: int|
                0 <= i < self.remaining().len() ==> #[trigger] self.remaining()[i]
                    == self.spec_start() + self.spec_current_index() + i,
    {
    }
}

/// What the `k + 1`-th of a run of `next_id` calls on `r` gives.
pub open spec fn nth_next_id(r: SeqRange, k: nat) -> Option<u64>
    decreases k,
{
    if k == 0 {
        r.spec_next_id().1
    } else {
        nth_next_id(r.spec_next_id().0, (k - 1) as nat)
    }
}

proof fn lemma_nth_next_id(r: SeqRange, k: nat)
    requires
        r.wf(),
    ensures
        nth_next_id(r, k) == if r.current_index + k < r.len {
            Some((r.start + r.current_index + k) as u64)
        } else {
            None
        },
    decreases k,
{
    if k > 0 {
        lemma_nth_next_id(r.spec_next_id().0, (k - 1) as nat);
    }
}

/// A block `[s, s + l)`, fresh or renewed, hands out exactly the ids
/// `s, s + 1, ..., s + l - 1`, each once and in that order: the
/// `k + 1`-th call of `next_id` gives `s + k` while `k < l`, and `None`
/// from then on.
pub proof fn law_range_hands_out_each_id_once(s: u64, l: u64, k: nat)
    requires
        s + l <= u64::MAX + 1,
    ensures
        nth_next_id(SeqRange::spec_new(s, l), k) == if k < l {
            Some((s + k) as u64)
        } else {
            None
        },
{
    lemma_nth_next_id(SeqRange::spec_new(s, l), k);
}

/// Two id blocks used in turn: ids come from the current block, and when it
/// runs dry the group switches to the other block, which is refilled ahead
/// of time so that handing out ids rarely waits.
#[derive(Clone, Copy, Debug)]
pub struct SeqGroup {
    range_a: SeqRange,
    range_b: SeqRange,
    use_a: bool,
    step: u64,
    next_adding: bool,
}

impl SeqGroup {
    pub closed spec fn wf(&self) -> bool {
        self.range_a.wf() && self.range_b.wf()
    }

    pub closed spec fn spec_range_a(&self) -> SeqRange {
        self.range_a
    }

    pub closed spec fn spec_range_b(&self) -> SeqRange {
        self.range_b
    }

    pub closed spec fn spec_use_a(&self) -> bool {
        self.use_a
    }

    pub closed spec fn spec_step(&self) -> u64 {
        self.step
    }

    pub closed spec fn spec_next_adding(&self) -> bool {
        self.next_adding
    }

    /// The block ids are taken from.
    pub open spec fn current(&self) -> SeqRange {
        if self.spec_use_a() {
            self.spec_range_a()
        } else {
            self.spec_range_b()
        }
    }

    /// The block used once the current one is exhausted.
    pub open spec fn other(&self) -> SeqRange {
        if self.spec_use_a() {
            self.spec_range_b()
        } else {
            self.spec_range_a()
        }
    }

    /// The group's refill need: no refill is under way and one of the two
    /// blocks is exhausted.
    pub open spec fn spec_need_apply(&self) -> bool {
        !self.spec_next_adding() && (!(self.spec_range_a().spec_current_index()
            < self.spec_range_a().spec_len()) || !(self.spec_range_b().spec_current_index()
            < self.spec_range_b().spec_len()))
    }

    /// A new group: two empty blocks, block b current, no refill asked for.
    pub closed spec fn spec_new(step: u64) -> SeqGroup {
        SeqGroup {
            range_a: SeqRange::spec_new(0, 0),
            range_b: SeqRange::spec_new(0, 0),
            step,
            use_a: false,
            next_adding: false,
        }
    }

    /// What `apply_range` does: the fresh block replaces block a when a is
    /// current and exhausted or b is current and still has ids, else block b.
    pub open spec fn apply_range_post(old: SeqGroup, new: SeqGroup, start: u64, len: u64) -> bool {
        &&& SeqGroup::ranges_after_apply(old, new, start, len)
        &&& new.spec_next_adding() == old.spec_next_adding()
    }

    /// The blocks, cursor choice and step after installing `[start, start + len)`.
    pub open spec fn ranges_after_apply(old: SeqGroup, new: SeqGroup, start: u64, len: u64) -> bool {
        let a_first = (old.spec_use_a() && old.spec_range_a().remaining().len() == 0) || (
        !old.spec_use_a() && old.spec_range_b().remaining().len() > 0);
        let fresh = SeqRange::spec_new(start, len);
        &&& new.wf()
        &&& new.spec_use_a() == old.spec_use_a()
        &&& new.spec_step() == old.spec_step()
        &&& a_first ==> new.spec_range_a() == fresh && new.spec_range_b() == old.spec_range_b()
        &&& !a_first ==> new.spec_range_b() == fresh && new.spec_range_a() == old.spec_range_a()
    }

    /// What `next_id` does: ids come from the current block while it lasts;
    /// when it is exhausted the group switches to the other block and takes
    /// its first id, if it has one.
    pub open spec fn next_id_post(old: SeqGroup, new: SeqGroup, r: Option<u64>) -> bool {
        &&& new.wf()
        &&& new.spec_step() == old.spec_step()
        &&& new.spec_next_adding() == old.spec_next_adding()
        &&& old.current().remaining().len() > 0 ==> {
            &&& r == Some(old.current().remaining()[0] as u64)
            &&& new.spec_use_a() == old.spec_use_a()
            &&& new.current().remaining() == old.current().remaining().drop_first()
            &&& new.other() == old.other()
        }
        &&& old.current().remaining().len() == 0 ==> {
            &&& new.spec_use_a() == !old.spec_use_a()
            &&& new.other() == old.current()
            &&& (old.other().remaining().len() > 0 ==> {
                &&& r == Some(old.other().remaining()[0] as u64)
                &&& new.current().remaining() == old.other().remaining().drop_first()
            })
            &&& (old.other().remaining().len() == 0 ==> r is None && new.current() == old.other())
        }
    }

    pub fn new(step: u64) -> (r: Self)
        ensures
            r == SeqGroup::spec_new(step),
            r.wf(),
            r.spec_step() == step,
            !r.spec_use_a(),
            !r.spec_next_adding(),
            r.spec_range_a().remaining().len() == 0,
            r.spec_range_b().remaining().len() == 0,
            r.spec_range_a().spec_len() == 0 && r.spec_range_a().spec_current_index() == 0,
            r.spec_range_b().spec_len() == 0 && r.spec_range_b().spec_current_index() == 0,
            r.spec_need_apply(),
    {
        let r = Self {
            range_a: SeqRange::new(0, 0),
            range_b: SeqRange::new(0, 0),
            step,
            use_a: false,
            next_adding: false,
        };
        proof {
            r.range_a.lemma_remaining();
            r.range_b.lemma_remaining();
        }
        r
    }

    /// Hands out the next id: from the current block while it lasts, else
    /// the group switches blocks and takes the first id of the other one.
    pub fn next_id(&mut self) -> (r: Option<u64>)
        requires
            old(self).wf(),
        ensures
            SeqGroup::next_id_post(*old(self), *final(self), r),
    {
        let v = self.do_next_id();
        if v.is_none() {
            self.switch_state();
            self.do_next_id()
        } else {
            v
        }
    }

    /// Installs the fresh block `[start, start + len)`: it replaces block
    /// a when a is current and exhausted or when b is current and still has
    /// ids, and block b otherwise.
    pub fn apply_range(&mut self, start: u64, len: u64)
        requires
            old(self).wf(),
            start + len <= u64::MAX + 1,
        ensures
            SeqGroup::apply_range_post(*old(self), *final(self), start, len),
    {
        proof {
            self.range_a.lemma_remaining();
            self.range_b.lemma_remaining();
        }
        if self.use_a && !self.range_a.has_next() || !self.use_a && self.range_b.has_next() {
            self.range_a.renew(start, len);
        } else {
            self.range_b.renew(start, len);
        }
    }

    /// A consistent group holds two consistent blocks, and a block has ids
    /// left exactly when its cursor is before its end.
    pub proof fn lemma_blocks(&self)
        requires
            self.wf(),
        ensures
            self.spec_range_a().wf(),
            self.spec_range_b().wf(),
            self.spec_range_a().remaining().len() > 0 <==> self.spec_range_a().spec_current_index()
                < self.spec_range_a().spec_len(),
            self.spec_range_b().remaining().len() > 0 <==> self.spec_range_b().spec_current_index()
                < self.spec_range_b().spec_len(),
    {
        self.range_a.lemma_remaining();
        self.range_b.lemma_remaining();
    }

    /// Records that a refill has been asked for.
    pub fn mark_apply(&mut self)
        ensures
            final(self).spec_range_a() == old(self).spec_range_a(),
            final(self).spec_range_b() == old(self).spec_range_b(),
            final(self).spec_step() == old(self).spec_step(),
            final(self).spec_use_a() == old(self).spec_use_a(),
            final(self).wf() == old(self).wf(),
            final(self).spec_next_adding(),
    {
        self.next_adding = true;
    }

    /// Records that the asked-for refill has arrived.
    pub fn clear_apply_mark(&mut self)
        ensures
            final(self).spec_range_a() == old(self).spec_range_a(),
            final(self).spec_range_b() == old(self).spec_range_b(),
            final(self).spec_step() == old(self).spec_step(),
            final(self).spec_use_a() == old(self).spec_use_a(),
            final(self).wf() == old(self).wf(),
            !final(self).spec_next_adding(),
    {
        self.next_adding = false;
    }

    /// A refill should be asked for: none is under way and one block is
    /// exhausted.
    pub fn need_apply(&self) -> (r: bool)
        ensures
            r == self.spec_need_apply(),
    {
        if self.next_adding {
            return false;
        }
        if !self.range_a.has_next() || !self.range_b.has_next() {
            true
        } else {
            false
        }
    }

    fn do_next_id(&mut self) -> (r: Option<u64>)
        requires
            old(self).wf(),
        ensures
            final(self).wf(),
            final(self).spec_use_a() == old(self).spec_use_a(),
            final(self).spec_step() == old(self).spec_step(),
            final(self).spec_next_adding() == old(self).spec_next_adding(),
            final(self).other() == old(self).other(),
            r is Some ==> old(self).current().remaining().len() > 0 && r->0
                == old(self).current().remaining()[0] && final(self).current().remaining()
                == old(self).current().remaining().drop_first(),
            r is None ==> old(self).current().remaining().len() == 0 && final(self).current()
                == old(self).current(),
    {
        if self.use_a {
            self.range_a.next_id()
        } else {
            self.range_b.next_id()
        }
    }

    fn switch_state(&mut self)
        ensures
            final(self).spec_range_a() == old(self).spec_range_a(),
            final(self).spec_range_b() == old(self).spec_range_b(),
            final(self).spec_step() == old(self).spec_step(),
            final(self).spec_use_a() == !old(self).spec_use_a(),
            final(self).spec_next_adding() == old(self).spec_next_adding(),
    {
        self.use_a = !self.use_a;
    }

    pub fn step(&self) -> (r: u64)
        ensures
            r == self.spec_step(),
    {
        self.step
    }
}

} // verus!

verus! {

/// A raft command on the id sequences.
#[derive(Clone, Debug)]
pub enum SequenceRaftReq {
    /// Take the next id of a sequence.
    NextId(String),
    /// Take a block of ids of the given length.
    NextRange(String, u64),
    /// Set the next available id of a sequence.
    SetId(String, u64),
    /// Forget a sequence.
    RemoveId(String),
}

/// The answer to a `SequenceRaftReq`.
#[derive(Clone, Copy, Debug, PartialEq, Eq)]
pub enum SequenceRaftResult {
    NextId(u64),
    NextRange { start: u64, len: u64 },
    /// The command was applied and has no value to give.
    Done,
}

} // verus!
