use vstd::prelude::*;
use crate::common::strmap::StrMap;

verus! {

/// A request to the store of named sequences.
#[derive(Clone, Debug)]
pub enum SequenceRequest {
    /// Asks for the last id of a sequence.
    GetLastId(String),
    /// Moves a sequence forward by a step and asks for its new last id.
    GetNextId(String, u64),
    /// Sets the last id of a sequence.
    SetLastId(String, u64),
}

/// The answer of the store of named sequences.
#[derive(Clone, Copy, Debug, PartialEq, Eq, Structural)]
pub enum SequenceResult {
    LastId(u64),
    NextId(u64),
    Done,
}

/// The last id of `key` in `m`: zero for a sequence never used.
pub open spec fn last_id_in(m: Map<Seq<char>, u64>, key: Seq<char>) -> u64 {
    if m.contains_key(key) {
        m[key]
    } else {
        0
    }
}

/// The last ids of named sequences.
pub struct SequenceManager {
    pub seq_info: StrMap<u64>,
}

impl View for SequenceManager {
    type V = Map<Seq<char>, u64>;

    open spec fn view(&self) -> Map<Seq<char>, u64> {
        self.seq_info@
    }
}

/// Whether the store can take `req` without an id passing `u64::MAX`.
pub open spec fn sequence_request_fits(m: Map<Seq<char>, u64>, req: SequenceRequest) -> bool {
    match req {
        SequenceRequest::GetNextId(key, step) => last_id_in(m, key@) + step <= u64::MAX,
        _ => true,
    }
}

impl SequenceManager {
    pub open spec fn wf(&self) -> bool {
        self.seq_info.wf()
    }

    pub fn new() -> (r: Self)
        ensures
            r.wf(),
            r@ == Map::<Seq<char>, u64>::empty(),
    {
        SequenceManager { seq_info: StrMap::new() }
    }

    /// The last id of `key`, zero when the sequence was never used.
    pub fn get_last_id(&self, key: &String) -> (r: u64)
        requires
            self.wf(),
        ensures
            r == last_id_in(self@, key@),
    {
        match self.seq_info.get(key) {
            Some(v) => *v,
            None => 0,
        }
    }

    /// Moves the sequence `key` forward by `step` and gives its new last id.
    pub fn next_id(&mut self, key: String, step: u64) -> (r: u64)
        requires
            old(self).wf(),
            last_id_in(old(self)@, key@) + step <= u64::MAX,
        ensures
            final(self).wf(),
            r == last_id_in(old(self)@, key@) + step,
            final(self)@ == old(self)@.insert(key@, r),
    {
        let last_id = self.get_last_id(&key);
        let next_id = last_id + step;
        self.seq_info.insert(key, next_id);
        next_id
    }

    /// Answers one request.
    pub fn handle(&mut self, msg: SequenceRequest) -> (r: SequenceResult)
        requires
            old(self).wf(),
            sequence_request_fits(old(self)@, msg),
        ensures
            final(self).wf(),
            match msg {
                SequenceRequest::GetLastId(key) => r == SequenceResult::LastId(last_id_in(old(self)@, key@))
                    && final(self)@ == old(self)@,
                SequenceRequest::GetNextId(key, step) => {
                    let v = (last_id_in(old(self)@, key@) + step) as u64;
                    r == SequenceResult::NextId(v) && final(self)@ == old(self)@.insert(key@, v)
                },
                SequenceRequest::SetLastId(key, last_id) => r == SequenceResult::Done && final(self)@
                    == old(self)@.insert(key@, last_id),
            },
    {
        match msg {
            SequenceRequest::GetLastId(key) => {
                let v = self.get_last_id(&key);
                SequenceResult::LastId(v)
            },
            SequenceRequest::GetNextId(key, step) => {
                let v = self.next_id(key, step);
                SequenceResult::NextId(v)
            },
            SequenceRequest::SetLastId(key, last_id) => {
                self.seq_info.insert(key, last_id);
                SequenceResult::Done
            },
        }
    }
}

/// A set id is what a later read of the same sequence gives back.
pub proof fn law_set_then_get(m: Map<Seq<char>, u64>, key: Seq<char>, other: Seq<char>, id: u64)
    ensures
        last_id_in(m.insert(key, id), key) == id,
        other != key ==> last_id_in(m.insert(key, id), other) == last_id_in(m, other),
{
}

/// Why an id could not be handed out.
#[derive(Clone, Copy, Debug, PartialEq, Eq, Structural)]
pub enum SequenceItemError {
    /// The item has not yet read its last id from the store.
    NotInit,
}

/// Hands out ids of one sequence, reserving them from the store a batch at
/// a time so that most ids need no write.
pub struct SequenceItem {
    cache_size: u64,
    batch_size: u64,
    last_id: u64,
    seq_key: String,
    init: bool,
}

impl SequenceItem {
    /// The name of the sequence.
    pub closed spec fn spec_seq_key(&self) -> String {
        self.seq_key
    }

    /// How many reserved ids are left.
    pub closed spec fn spec_cache_size(&self) -> u64 {
        self.cache_size
    }

    /// How many ids a reservation takes.
    pub closed spec fn spec_batch_size(&self) -> u64 {
        self.batch_size
    }

    /// The last id handed out (or read from the store).
    pub closed spec fn spec_last_id(&self) -> u64 {
        self.last_id
    }

    /// Whether the last id has been read from the store.
    pub closed spec fn spec_init(&self) -> bool {
        self.init
    }

    /// The highest id this item may hand out before it must reserve again.
    pub open spec fn reserved(&self) -> int {
        self.spec_last_id() + self.spec_cache_size()
    }

    /// Whether `next_id` can run without an id passing `u64::MAX` and
    /// without taking from an empty reservation of size zero.
    pub open spec fn can_take_next(&self) -> bool {
        self.spec_init() ==> if self.spec_cache_size() == 0 {
            self.spec_batch_size() > 0 && self.spec_last_id() + self.spec_batch_size() <= u64::MAX
        } else {
            self.spec_last_id() < u64::MAX
        }
    }

    pub fn new(seq_key: String, batch_size: u64) -> (r: Self)
        ensures
            r.spec_seq_key() == seq_key,
            r.spec_batch_size() == batch_size,
            r.spec_cache_size() == 0,
            r.spec_last_id() == 0,
            !r.spec_init(),
    {
        SequenceItem { seq_key, batch_size, cache_size: 0, last_id: 0, init: false }
    }

    /// The request that reads this sequence's last id from the store.
    pub fn init_request(&self) -> (r: SequenceRequest)
        ensures
            r == SequenceRequest::GetLastId(self.spec_seq_key()),
    {
        SequenceRequest::GetLastId(self.seq_key.clone())
    }

    /// Takes the store's answer to `init_request`: a last id starts the item
    /// from there; any other answer leaves it as it was.
    pub fn init(&mut self, reply: SequenceResult)
        ensures
            final(self).spec_seq_key() == old(self).spec_seq_key(),
            final(self).spec_batch_size() == old(self).spec_batch_size(),
            final(self).spec_cache_size() == old(self).spec_cache_size(),
            match reply {
                SequenceResult::LastId(v) => final(self).spec_last_id() == v && final(self).spec_init(),
                _ => final(self).spec_last_id() == old(self).spec_last_id() && final(self).spec_init()
                    == old(self).spec_init(),
            },
    {
        match reply {
            SequenceResult::LastId(v) => {
                self.last_id = v;
                self.init = true;
            },
            _ => {},
        }
    }

    /// Moves the sequence past an id that a table already holds. When `id`
    /// lies beyond the current reservation, the item continues from `id`,
    /// reserves nothing more, and gives back the write that records `id`.
    pub fn set_table_last_id(&mut self, id: u64) -> (r: Option<SequenceRequest>)
        requires
            old(self).spec_last_id() + old(self).spec_batch_size() <= u64::MAX,
        ensures
            final(self).spec_seq_key() == old(self).spec_seq_key(),
            final(self).spec_cache_size() == old(self).spec_cache_size(),
            if old(self).spec_last_id() + old(self).spec_batch_size() < id {
                &&& final(self).spec_last_id() == id
                &&& final(self).spec_batch_size() == 0
                &&& final(self).spec_init()
                &&& r == Some(SequenceRequest::SetLastId(old(self).spec_seq_key(), id))
            } else {
                &&& final(self).spec_last_id() == old(self).spec_last_id()
                &&& final(self).spec_batch_size() == old(self).spec_batch_size()
                &&& final(self).spec_init() == old(self).spec_init()
                &&& r is None
            },
    {
        if self.last_id + self.batch_size < id {
            self.last_id = id;
            self.batch_size = 0;
            self.init = true;
            Some(SequenceRequest::SetLastId(self.seq_key.clone(), id))
        } else {
            None
        }
    }

    /// Hands out the next id. When the reservation is used up, a new batch is
    /// reserved first and the write that records it is given back with the id.
    pub fn next_id(&mut self) -> (r: Result<(u64, Option<SequenceRequest>), SequenceItemError>)
        requires
            old(self).can_take_next(),
        ensures
            final(self).spec_seq_key() == old(self).spec_seq_key(),
            final(self).spec_batch_size() == old(self).spec_batch_size(),
            !old(self).spec_init() ==> r == Err::<(u64, Option<SequenceRequest>), SequenceItemError>(
                SequenceItemError::NotInit,
            ) && *final(self) == *old(self),
            old(self).spec_init() ==> (r matches Ok((id, write)) && {
                &&& id == old(self).spec_last_id() + 1
                &&& final(self).spec_last_id() == id
                &&& final(self).spec_init()
                &&& if old(self).spec_cache_size() == 0 {
                    &&& write == Some(SequenceRequest::SetLastId(
                        old(self).spec_seq_key(),
                        (old(self).spec_last_id() + old(self).spec_batch_size()) as u64,
                    ))
                    &&& final(self).spec_cache_size() == old(self).spec_batch_size() - 1
                } else {
                    &&& write is None
                    &&& final(self).spec_cache_size() == old(self).spec_cache_size() - 1
                }
                &&& id <= final(self).reserved()
                &&& final(self).reserved() == if old(self).spec_cache_size() == 0 {
                    old(self).spec_last_id() + old(self).spec_batch_size()
                } else {
                    old(self).reserved()
                }
            }),
    {
        if !self.init {
            return Err(SequenceItemError::NotInit);
        }
        let mut write: Option<SequenceRequest> = None;
        if self.cache_size == 0 {
            let cache_last_id = self.last_id + self.batch_size;
            write = Some(SequenceRequest::SetLastId(self.seq_key.clone(), cache_last_id));
            self.cache_size = self.batch_size;
        }
        self.cache_size -= 1;
        self.last_id += 1;
        Ok((self.last_id, write))
    }
}

} // verus!
