use vstd::prelude::*;

verus! {

/// Whether the keys of `entries` are pairwise distinct.
pub open spec fn id_keys_unique<V>(entries: Seq<(u64, V)>) -> bool {
    forall|i: int, j: int|
        0 <= i < entries.len() && 0 <= j < entries.len() && i != j ==> #[trigger] entries[i].0
            != #[trigger] entries[j].0
}

/// Whether some entry has the key `k`.
pub open spec fn id_has_key<V>(entries: Seq<(u64, V)>, k: u64) -> bool {
    exists|i: int| 0 <= i < entries.len() && #[trigger] entries[i].0 == k
}

/// The map that a list of entries with distinct keys stands for.
pub open spec fn id_entries_map<V>(entries: Seq<(u64, V)>) -> Map<u64, V> {
    Map::new(
        |k: u64| id_has_key(entries, k),
        |k: u64| entries[choose|i: int| 0 <= i < entries.len() && #[trigger] entries[i].0 == k].1,
    )
}

/// In a list with distinct keys, the entry at `i` gives the map's value for its key.
pub proof fn lemma_id_entries_map_at<V>(entries: Seq<(u64, V)>, i: int)
    requires
        id_keys_unique(entries),
        0 <= i < entries.len(),
    ensures
        id_entries_map(entries).contains_key(entries[i].0),
        id_entries_map(entries)[entries[i].0] == entries[i].1,
{
    let k = entries[i].0;
    assert(id_has_key(entries, k));
    let j = choose|j: int| 0 <= j < entries.len() && #[trigger] entries[j].0 == k;
    assert(entries[j].0 == k);
}

/// A map from ids to values, kept as a list of entries in insertion
/// order with distinct keys.
#[verifier::reject_recursive_types(V)]
pub struct IdMap<V> {
    entries: Vec<(u64, V)>,
}

impl<V> View for IdMap<V> {
    type V = Map<u64, V>;

    closed spec fn view(&self) -> Map<u64, V> {
        id_entries_map(self.entries@)
    }
}

impl<V> IdMap<V> {
    pub closed spec fn wf(&self) -> bool {
        id_keys_unique(self.entries@)
    }

    /// The entries, in insertion order.
    pub closed spec fn spec_entries(&self) -> Seq<(u64, V)> {
        self.entries@
    }

    /// The view is the map of the entries, whose keys are distinct.
    pub proof fn lemma_view(&self)
        requires
            self.wf(),
        ensures
            id_keys_unique(self.spec_entries()),
            self@ == id_entries_map(self.spec_entries()),
            self@.dom().finite(),
            self@.dom().len() == self.spec_entries().len(),
    {
        let e = self.entries@;
        let ks = Seq::new(e.len(), |i: int| e[i].0);
        assert(ks.no_duplicates()) by {
            assert forall|i: int, j: int| 0 <= i < ks.len() && 0 <= j < ks.len() && i != j
                implies ks[i] != ks[j] by {
                assert(e[i].0 != e[j].0);
            }
        }
        assert(ks.to_set() =~= self@.dom()) by {
            assert forall|k: u64| ks.to_set().contains(k) implies self@.dom().contains(k) by {
                let i = choose|i: int| 0 <= i < ks.len() && ks[i] == k;
                assert(e[i].0 == k);
            }
            assert forall|k: u64| self@.dom().contains(k) implies ks.to_set().contains(k) by {
                let i = choose|i: int| 0 <= i < e.len() && #[trigger] e[i].0 == k;
                assert(ks[i] == k);
            }
        }
        ks.unique_seq_to_set();
    }

    pub fn new() -> (r: Self)
        ensures
            r.wf(),
            r@ == Map::<u64, V>::empty(),
            r.spec_entries().len() == 0,
    {
        let r = Self { entries: Vec::new() };
        assert(r@ =~= Map::<u64, V>::empty());
        r
    }

    /// The position of the entry with key `k`, if there is one.
    fn find(&self, k: u64) -> (r: Option<usize>)
        requires
            self.wf(),
        ensures
            match r {
                Some(i) => i < self.entries@.len() && self.entries@[i as int].0 == k,
                None => !id_has_key(self.entries@, k),
            },
    {
        let mut i: usize = 0;
        while i < self.entries.len()
            invariant
                i <= self.entries@.len(),
                forall|j: int| 0 <= j < i ==> self.entries@[j].0 != k,
            decreases self.entries@.len() - i,
        {
            if self.entries[i].0 == k {
                return Some(i);
            }
            i += 1;
        }
        None
    }

    pub fn contains_key(&self, k: u64) -> (r: bool)
        requires
            self.wf(),
        ensures
            r == self@.contains_key(k),
    {
        self.find(k).is_some()
    }

    pub fn get(&self, k: u64) -> (r: Option<&V>)
        requires
            self.wf(),
        ensures
            match r {
                Some(v) => self@.contains_key(k) && *v == self@[k],
                None => !self@.contains_key(k),
            },
    {
        match self.find(k) {
            Some(i) => {
                proof {
                    lemma_id_entries_map_at(self.entries@, i as int);
                }
                Some(&self.entries[i].1)
            },
            None => None,
        }
    }

    /// Sets the value of `k`, adding the key at the end when it is new.
    pub fn insert(&mut self, k: u64, v: V)
        requires
            old(self).wf(),
        ensures
            final(self).wf(),
            final(self)@ == old(self)@.insert(k, v),
            old(self)@.contains_key(k) ==> final(self).spec_entries().len()
                == old(self).spec_entries().len(),
            !old(self)@.contains_key(k) ==> final(self).spec_entries() == old(self).spec_entries().push((k, v)),
    {
        let ghost old_e = self.entries@;
        match self.find(k) {
            Some(i) => {
                let ghost kk = k;
                self.entries.set(i, (k, v));
                proof {
                    let e = self.entries@;
                    assert(id_keys_unique(e)) by {
                        assert forall|a: int, b: int|
                            0 <= a < e.len() && 0 <= b < e.len() && a != b implies #[trigger] e[a].0
                            != #[trigger] e[b].0 by {
                            assert(old_e[a].0 != old_e[b].0);
                        }
                    }
                    assert forall|key: u64|
                        id_has_key(e, key) == (id_has_key(old_e, key) || key == kk) by {
                        if id_has_key(old_e, key) {
                            let j = choose|j: int| 0 <= j < old_e.len() && #[trigger] old_e[j].0 == key;
                            if j != i {
                                assert(e[j].0 == key);
                            }
                        }
                        if key == kk {
                            assert(e[i as int].0 == key);
                        }
                        if id_has_key(e, key) {
                            let j = choose|j: int| 0 <= j < e.len() && #[trigger] e[j].0 == key;
                            if j != i {
                                assert(old_e[j].0 == key);
                            }
                        }
                    }
                    assert forall|key: u64| #[trigger] id_has_key(e, key) && key != kk implies
                        id_entries_map(e)[key] == id_entries_map(old_e)[key] by {
                        let j = choose|j: int| 0 <= j < e.len() && #[trigger] e[j].0 == key;
                        lemma_id_entries_map_at(e, j);
                        lemma_id_entries_map_at(old_e, j);
                    }
                    lemma_id_entries_map_at(e, i as int);
                    assert(id_entries_map(e) =~= id_entries_map(old_e).insert(kk, v));
                }
            },
            None => {
                let ghost kk = k;
                self.entries.push((k, v));
                proof {
                    let e = self.entries@;
                    assert(id_keys_unique(e)) by {
                        assert forall|a: int, b: int|
                            0 <= a < e.len() && 0 <= b < e.len() && a != b implies #[trigger] e[a].0
                            != #[trigger] e[b].0 by {
                            if a < old_e.len() && b < old_e.len() {
                                assert(old_e[a].0 != old_e[b].0);
                            } else if a < old_e.len() {
                                assert(old_e[a].0 != kk);
                            } else {
                                assert(old_e[b].0 != kk);
                            }
                        }
                    }
                    assert forall|key: u64|
                        id_has_key(e, key) == (id_has_key(old_e, key) || key == kk) by {
                        if id_has_key(old_e, key) {
                            let j = choose|j: int| 0 <= j < old_e.len() && #[trigger] old_e[j].0 == key;
                            assert(e[j].0 == key);
                        }
                        if id_has_key(e, key) {
                            let j = choose|j: int| 0 <= j < e.len() && #[trigger] e[j].0 == key;
                            if j < old_e.len() {
                                assert(old_e[j].0 == key);
                            }
                        }
                        if key == kk {
                            assert(e[old_e.len() as int].0 == key);
                        }
                    }
                    assert forall|key: u64| #[trigger] id_has_key(e, key) && key != kk implies
                        id_entries_map(e)[key] == id_entries_map(old_e)[key] by {
                        let j = choose|j: int| 0 <= j < e.len() && #[trigger] e[j].0 == key;
                        lemma_id_entries_map_at(e, j);
                        lemma_id_entries_map_at(old_e, j);
                    }
                    lemma_id_entries_map_at(e, old_e.len() as int);
                    assert(id_entries_map(e) =~= id_entries_map(old_e).insert(kk, v));
                }
            },
        }
    }

    /// Removes the key `k`; the other entries keep their order.
    pub fn remove(&mut self, k: u64)
        requires
            old(self).wf(),
        ensures
            final(self).wf(),
            final(self)@ == old(self)@.remove(k),
    {
        let ghost old_e = self.entries@;
        match self.find(k) {
            Some(i) => {
                let _ = self.entries.remove(i);
                proof {
                    let e = self.entries@;
                    assert forall|a: int| 0 <= a < e.len() implies #[trigger] e[a] == (if a < i {
                        old_e[a]
                    } else {
                        old_e[a + 1]
                    }) by {}
                    assert(id_keys_unique(e)) by {
                        assert forall|a: int, b: int|
                            0 <= a < e.len() && 0 <= b < e.len() && a != b implies #[trigger] e[a].0
                            != #[trigger] e[b].0 by {
                            let oa = if a < i { a } else { a + 1 };
                            let ob = if b < i { b } else { b + 1 };
                            assert(old_e[oa].0 != old_e[ob].0);
                        }
                    }
                    assert forall|key: u64|
                        id_has_key(e, key) == (id_has_key(old_e, key) && key != k) by {
                        if id_has_key(old_e, key) && key != k {
                            let j = choose|j: int| 0 <= j < old_e.len() && #[trigger] old_e[j].0 == key;
                            assert(j != i);
                            if j < i {
                                assert(e[j].0 == key);
                            } else {
                                assert(e[j - 1].0 == key);
                            }
                        }
                        if id_has_key(e, key) {
                            let j = choose|j: int| 0 <= j < e.len() && #[trigger] e[j].0 == key;
                            let oj = if j < i { j } else { j + 1 };
                            assert(old_e[oj].0 == key);
                            assert(oj != i);
                            assert(old_e[oj].0 != old_e[i as int].0);
                        }
                    }
                    assert forall|key: u64| #[trigger] id_has_key(e, key) implies
                        id_entries_map(e)[key] == id_entries_map(old_e)[key] by {
                        let j = choose|j: int| 0 <= j < e.len() && #[trigger] e[j].0 == key;
                        let oj = if j < i { j } else { j + 1 };
                        lemma_id_entries_map_at(e, j);
                        lemma_id_entries_map_at(old_e, oj);
                    }
                    assert(id_entries_map(e) =~= id_entries_map(old_e).remove(k));
                }
            },
            None => {
                assert(id_entries_map(old_e) =~= id_entries_map(old_e).remove(k));
            },
        }
    }

    /// The number of entries.
    pub fn len(&self) -> (r: usize)
        ensures
            r == self.spec_entries().len(),
    {
        self.entries.len()
    }

    /// All entries, in insertion order.
    pub fn as_vec(&self) -> (r: &Vec<(u64, V)>)
        ensures
            r@ == self.spec_entries(),
    {
        &self.entries
    }

    /// The entry at position `i` in insertion order.
    pub fn entry_at(&self, i: usize) -> (r: &(u64, V))
        requires
            i < self.spec_entries().len(),
        ensures
            *r == self.spec_entries()[i as int],
    {
        &self.entries[i]
    }
}

/// One more entry with a new key adds that key to the map.
pub proof fn lemma_id_entries_map_push<V>(e: Seq<(u64, V)>, k: u64, v: V)
    requires
        id_keys_unique(e.push((k, v))),
    ensures
        id_keys_unique(e),
        id_entries_map(e.push((k, v))) == id_entries_map(e).insert(k, v),
{
    let n = e.push((k, v));
    assert(id_keys_unique(e)) by {
        assert forall|a: int, b: int| 0 <= a < e.len() && 0 <= b < e.len() && a != b implies #[trigger] e[a].0
            != #[trigger] e[b].0 by {
            assert(n[a].0 != n[b].0);
        }
    }
    assert forall|key: u64| id_has_key(n, key) == (id_has_key(e, key) || key == k) by {
        if id_has_key(e, key) {
            let j = choose|j: int| 0 <= j < e.len() && #[trigger] e[j].0 == key;
            assert(n[j].0 == key);
        }
        if id_has_key(n, key) {
            let j = choose|j: int| 0 <= j < n.len() && #[trigger] n[j].0 == key;
            if j < e.len() {
                assert(e[j].0 == key);
            }
        }
        if key == k {
            assert(n[e.len() as int].0 == key);
        }
    }
    assert forall|key: u64| #[trigger] id_has_key(n, key) && key != k implies id_entries_map(n)[key]
        == id_entries_map(e)[key] by {
        let j = choose|j: int| 0 <= j < n.len() && #[trigger] n[j].0 == key;
        assert(j < e.len()) by {
            if j == e.len() {
                assert(n[j].0 == k);
            }
        }
        lemma_id_entries_map_at(n, j);
        lemma_id_entries_map_at(e, j);
    }
    lemma_id_entries_map_at(n, e.len() as int);
    assert(id_entries_map(n) =~= id_entries_map(e).insert(k, v));
}

impl IdMap<String> {
    /// A copy of the map with the same entries in the same order.
    pub fn duplicate(&self) -> (r: Self)
        ensures
            r.spec_entries().len() == self.spec_entries().len(),
            forall|i: int| 0 <= i < self.spec_entries().len() ==> #[trigger] r.spec_entries()[i] == self.spec_entries()[i],
            r.spec_entries() == self.spec_entries(),
            r@ == self@,
            r.wf() == self.wf(),
    {
        let mut out: Vec<(u64, String)> = Vec::new();
        let mut i: usize = 0;
        while i < self.entries.len()
            invariant
                i <= self.entries@.len(),
                out@ == self.entries@.subrange(0, i as int),
            decreases self.entries@.len() - i,
        {
            let k = self.entries[i].0;
            let v = self.entries[i].1.clone();
            out.push((k, v));
            proof {
                assert(out@ =~= self.entries@.subrange(0, i as int + 1));
            }
            i += 1;
        }
        assert(self.entries@.subrange(0, self.entries@.len() as int) == self.entries@);
        IdMap { entries: out }
    }
}

} // verus!
