//! A keyed store of loaded data that counts the requests made for each entry.
use vstd::prelude::*;

verus! {

/// One stored value with its request counters.
pub struct UsageData<V> {
    last_cycle_reqs: u64,
    in_progress_reqs: u64,
    data: V,
}

impl<V> UsageData<V> {
    /// Requests counted in the last completed cycle.
    pub closed spec fn last_cycle(&self) -> u64 {
        self.last_cycle_reqs
    }

    /// Requests counted in the current cycle.
    pub closed spec fn in_progress(&self) -> u64 {
        self.in_progress_reqs
    }

    /// The stored value.
    pub closed spec fn value(&self) -> V {
        self.data
    }

    /// A fresh entry with both counters at zero.
    pub fn new(data: V) -> (r: Self)
        ensures
            r.last_cycle() == 0,
            r.in_progress() == 0,
            r.value() == data,
    {
        UsageData { last_cycle_reqs: 0, in_progress_reqs: 0, data: data }
    }
}

/// Whether the keys of `K` compare in executable code as they do in specifications.
pub open spec fn key_model<K: PartialEq>() -> bool {
    vstd::laws_eq::obeys_concrete_eq::<K>()
}

/// Whether no key occurs twice in `s`.
pub open spec fn distinct_keys<K, D>(s: Seq<(K, D)>) -> bool {
    forall|i: int, j: int| 0 <= i < s.len() && 0 <= j < s.len() && i != j ==> s[i].0 != s[j].0
}

/// The map that a sequence of distinct key/value pairs stands for.
pub open spec fn pairs_to_map<K, D>(s: Seq<(K, D)>) -> Map<K, D> {
    Map::new(
        |k: K| exists|i: int| 0 <= i < s.len() && s[i].0 == k,
        |k: K| s[choose|i: int| 0 <= i < s.len() && s[i].0 == k].1,
    )
}

/// In a sequence of distinct keys, the pair at `i` is what the map holds for its key.
pub proof fn lemma_pairs_to_map_index<K, D>(s: Seq<(K, D)>, i: int)
    requires
        distinct_keys(s),
        0 <= i < s.len(),
    ensures
        pairs_to_map(s).dom().contains(s[i].0),
        pairs_to_map(s)[s[i].0] == s[i].1,
{
    let k = s[i].0;
    assert(exists|j: int| 0 <= j < s.len() && s[j].0 == k);
    let j = choose|j: int| 0 <= j < s.len() && s[j].0 == k;
    assert(j == i);
}

/// Replacing the value at `i` replaces the value of its key in the map.
pub proof fn lemma_pairs_to_map_update<K, D>(s: Seq<(K, D)>, i: int, d: D)
    requires
        distinct_keys(s),
        0 <= i < s.len(),
    ensures
        distinct_keys(s.update(i, (s[i].0, d))),
        pairs_to_map(s.update(i, (s[i].0, d))) =~= pairs_to_map(s).insert(s[i].0, d),
{
    let t = s.update(i, (s[i].0, d));
    assert forall|k: K| #[trigger] pairs_to_map(t).dom().contains(k) == pairs_to_map(s).insert(s[i].0, d).dom().contains(k) by {
        if exists|j: int| 0 <= j < s.len() && s[j].0 == k {
            let j = choose|j: int| 0 <= j < s.len() && s[j].0 == k;
            assert(t[j].0 == k);
        }
        if exists|j: int| 0 <= j < t.len() && t[j].0 == k {
            let j = choose|j: int| 0 <= j < t.len() && t[j].0 == k;
            assert(s[j].0 == k);
        }
    }
    assert forall|k: K| #[trigger] pairs_to_map(t).dom().contains(k) implies pairs_to_map(t)[k] == pairs_to_map(s).insert(s[i].0, d)[k] by {
        let j = choose|j: int| 0 <= j < t.len() && t[j].0 == k;
        lemma_pairs_to_map_index(t, j);
        if j != i {
            lemma_pairs_to_map_index(s, j);
        }
    }
}

/// Appending a pair with a new key adds that key to the map.
pub proof fn lemma_pairs_to_map_push<K, D>(s: Seq<(K, D)>, k: K, d: D)
    requires
        distinct_keys(s),
        !pairs_to_map(s).dom().contains(k),
    ensures
        distinct_keys(s.push((k, d))),
        pairs_to_map(s.push((k, d))) =~= pairs_to_map(s).insert(k, d),
{
    let t = s.push((k, d));
    assert forall|i: int| 0 <= i < s.len() implies s[i].0 != k by {
        if s[i].0 == k {
            assert(pairs_to_map(s).dom().contains(k));
        }
    }
    assert forall|q: K| #[trigger] pairs_to_map(t).dom().contains(q) == pairs_to_map(s).insert(k, d).dom().contains(q) by {
        if exists|j: int| 0 <= j < s.len() && s[j].0 == q {
            let j = choose|j: int| 0 <= j < s.len() && s[j].0 == q;
            assert(t[j].0 == q);
        }
        if q == k {
            assert(t[s.len() as int].0 == q);
        }
        if exists|j: int| 0 <= j < t.len() && t[j].0 == q {
            let j = choose|j: int| 0 <= j < t.len() && t[j].0 == q;
            if j < s.len() {
                assert(s[j].0 == q);
            }
        }
    }
    assert forall|q: K| #[trigger] pairs_to_map(t).dom().contains(q) implies pairs_to_map(t)[q] == pairs_to_map(s).insert(k, d)[q] by {
        let j = choose|j: int| 0 <= j < t.len() && t[j].0 == q;
        lemma_pairs_to_map_index(t, j);
        if j < s.len() {
            lemma_pairs_to_map_index(s, j);
        }
    }
}

/// Entries of type `V` by key of type `K`, each with request counters.
pub struct Usage<K, V> {
    num_tracked_cycles: u8,
    data: Vec<(K, UsageData<V>)>,
}

impl<K, V> Usage<K, V> {
    /// No key is stored twice.
    pub closed spec fn wf(&self) -> bool {
        distinct_keys(self.data@)
    }

    /// The stored entries by key.
    pub closed spec fn view(&self) -> Map<K, UsageData<V>> {
        pairs_to_map(self.data@)
    }

    /// The number of request cycles the store was made to track.
    pub closed spec fn cycles(&self) -> u8 {
        self.num_tracked_cycles
    }
}

impl<K: Eq + std::hash::Hash, V> Usage<K, V> {
    /// An empty store that tracks `cycles` request cycles.
    pub fn new(cycles: u8) -> (r: Self)
        ensures
            r.wf(),
            r.view() == Map::<K, UsageData<V>>::empty(),
            r.cycles() == cycles,
    {
        let r = Usage { num_tracked_cycles: cycles, data: Vec::new() };
        assert(r.view() =~= Map::<K, UsageData<V>>::empty());
        r
    }

    /// The index of `key` in the entries, if it is stored.
    fn find(&self, key: &K) -> (r: Option<usize>)
        requires
            key_model::<K>(),
            self.wf(),
        ensures
            r is None <==> !self.view().dom().contains(*key),
            r matches Some(i) ==> i < self.data@.len() && self.data@[i as int].0 == *key,
    {
        let mut i: usize = 0;
        while i < self.data.len()
            invariant
                i <= self.data@.len(),
                key_model::<K>(),
                distinct_keys(self.data@),
                forall|j: int| 0 <= j < i ==> self.data@[j].0 != *key,
            decreases self.data@.len() - i,
        {
            proof {
                reveal(vstd::laws_eq::obeys_concrete_eq);
            }
            if self.data[i].0 == *key {
                proof {
                    lemma_pairs_to_map_index(self.data@, i as int);
                }
                return Some(i);
            }
            i = i + 1;
        }
        proof {
            if self.view().dom().contains(*key) {
                let j = choose|j: int| 0 <= j < self.data@.len() && self.data@[j].0 == *key;
                assert(self.data@[j].0 != *key);
            }
        }
        None
    }

    /// Whether an entry is stored for `key`.
    pub fn contains_key(&self, key: &K) -> (r: bool)
        requires
            key_model::<K>(),
            self.wf(),
        ensures
            r == self.view().dom().contains(*key),
    {
        self.find(key).is_some()
    }

    /// Stores `val` for `key` with fresh counters; returns the value it replaces.
    pub fn insert(&mut self, key: K, val: V) -> (r: Option<V>)
        requires
            key_model::<K>(),
            old(self).wf(),
        ensures
            final(self).wf(),
            final(self).view() == old(self).view().insert(key, UsageData::spec_new(val)),
            final(self).cycles() == old(self).cycles(),
            r == (if old(self).view().dom().contains(key) {
                Some(old(self).view()[key].value())
            } else {
                None
            }),
    {
        let entry = UsageData::new(val);
        match self.find(&key) {
            Some(i) => {
                proof {
                    lemma_pairs_to_map_index(self.data@, i as int);
                    lemma_pairs_to_map_update(self.data@, i as int, entry);
                }
                let mut data = Vec::new();
                std::mem::swap(&mut data, &mut self.data);
                let (k, old_entry) = data.remove(i);
                data.insert(i, (k, entry));
                assert(data@ =~= old(self).data@.update(i as int, (key, entry)));
                self.data = data;
                Some(old_entry.data)
            },
            None => {
                proof {
                    lemma_pairs_to_map_push(self.data@, key, entry);
                }
                let mut data = Vec::new();
                std::mem::swap(&mut data, &mut self.data);
                data.push((key, entry));
                self.data = data;
                None
            },
        }
    }

    /// The value stored for `key`, counting one request for it.
    pub fn get(&mut self, key: &K) -> (r: Option<&V>)
        requires
            key_model::<K>(),
            old(self).wf(),
        ensures
            final(self).wf(),
            final(self).cycles() == old(self).cycles(),
            old(self).view().dom().contains(*key) ==> {
                &&& r == Some(&old(self).view()[*key].value())
                &&& final(self).view() == old(self).view().insert(*key, old(self).view()[*key].requested())
            },
            !old(self).view().dom().contains(*key) ==> r is None && final(self).view() == old(self).view(),
    {
        match self.find(key) {
            Some(i) => {
                proof {
                    lemma_pairs_to_map_index(self.data@, i as int);
                }
                let mut data = Vec::new();
                std::mem::swap(&mut data, &mut self.data);
                let (k, mut entry) = data.remove(i);
                let ghost old_entry = entry;
                entry.in_progress_reqs = entry.in_progress_reqs.saturating_add(1);
                proof {
                    lemma_pairs_to_map_update(old(self).data@, i as int, entry);
                }
                data.insert(i, (k, entry));
                assert(data@ =~= old(self).data@.update(i as int, (*key, entry)));
                self.data = data;
                Some(&self.data[i].1.data)
            },
            None => None,
        }
    }
}

impl<K: Eq + std::hash::Hash, V> Usage<K, V> {
    /// The value stored for `key`, for change in place, counting one request for it.
    pub fn get_mut(&mut self, key: &K) -> (r: Option<&mut V>)
        requires
            key_model::<K>(),
            old(self).wf(),
        ensures
            final(self).wf(),
            final(self).cycles() == old(self).cycles(),
            old(self).view().dom().contains(*key) ==> (r matches Some(m) && {
                &&& *m == old(self).view()[*key].value()
                &&& final(self).view() == old(self).view().insert(
                    *key,
                    old(self).view()[*key].requested().with_value(*final(m)),
                )
            }),
            !old(self).view().dom().contains(*key) ==> r is None && final(self).view() == old(self).view(),
    {
        match self.find(key) {
            Some(i) => {
                proof {
                    lemma_pairs_to_map_index(self.data@, i as int);
                }
                let entry = &mut self.data[i].1;
                entry.in_progress_reqs = entry.in_progress_reqs.saturating_add(1);
                proof {
                    lemma_pairs_to_map_update(old(self).data@, i as int, *final(entry));
                }
                Some(&mut entry.data)
            },
            None => None,
        }
    }
}

impl<V> UsageData<V> {
    /// The entry with its value replaced.
    pub closed spec fn with_value(self, v: V) -> Self {
        UsageData { data: v, ..self }
    }

    /// A fresh entry, as a value.
    pub closed spec fn spec_new(data: V) -> Self {
        UsageData { last_cycle_reqs: 0, in_progress_reqs: 0, data: data }
    }

    /// The entry after one more request; a counter that has reached the
    /// largest `u64` stays there.
    pub closed spec fn requested(self) -> Self {
        UsageData {
            in_progress_reqs: if self.in_progress_reqs == u64::MAX {
                u64::MAX
            } else {
                (self.in_progress_reqs + 1) as u64
            },
            ..self
        }
    }
}

/// What a fresh entry holds.
pub broadcast proof fn lemma_spec_new<V>(v: V)
    ensures
        (#[trigger] UsageData::spec_new(v)).value() == v,
        UsageData::spec_new(v).in_progress() == 0,
        UsageData::spec_new(v).last_cycle() == 0,
{
}

/// What an entry holds after one more request.
pub broadcast proof fn lemma_requested<V>(d: UsageData<V>)
    ensures
        (#[trigger] d.requested()).value() == d.value(),
        d.requested().in_progress() == (if d.in_progress() == u64::MAX {
            u64::MAX
        } else {
            (d.in_progress() + 1) as u64
        }),
        d.requested().last_cycle() == d.last_cycle(),
{
}

/// What an entry holds after its value is replaced.
pub broadcast proof fn lemma_with_value<V>(d: UsageData<V>, v: V)
    ensures
        (#[trigger] d.with_value(v)).value() == v,
        d.with_value(v).in_progress() == d.in_progress(),
        d.with_value(v).last_cycle() == d.last_cycle(),
{
}

pub broadcast group group_usage_data {
    lemma_spec_new,
    lemma_requested,
    lemma_with_value,
}


/// After `insert(key, val)`, a request for `key` finds `val`, with the request
/// counters of the entry starting from zero; other keys keep their entries.
pub proof fn lemma_get_after_insert<K, V>(m: Map<K, UsageData<V>>, key: K, val: V, other: K)
    ensures
        m.insert(key, UsageData::spec_new(val)).dom().contains(key),
        m.insert(key, UsageData::spec_new(val))[key].value() == val,
        m.insert(key, UsageData::spec_new(val))[key].in_progress() == 0,
        other != key ==> (m.insert(key, UsageData::spec_new(val)).dom().contains(other)
            == m.dom().contains(other)),
        other != key && m.dom().contains(other) ==> m.insert(key, UsageData::spec_new(val))[other]
            == m[other],
{
}

/// After a change in place through `get_mut(key)` that leaves `v`, a request
/// for `key` finds `v`; the two requests are both counted. Other keys keep
/// their entries.
pub proof fn lemma_get_after_get_mut<K, V>(m: Map<K, UsageData<V>>, key: K, v: V, other: K)
    requires
        m.dom().contains(key),
    ensures
        ({
            let after_mut = m.insert(key, m[key].requested().with_value(v));
            let after_get = after_mut.insert(key, after_mut[key].requested());
            &&& after_mut.dom().contains(key)
            &&& after_mut[key].value() == v
            &&& after_get[key].value() == v
            &&& after_get[key].in_progress() == (if m[key].in_progress() >= u64::MAX - 1 {
                u64::MAX as int
            } else {
                m[key].in_progress() + 2
            })
            &&& other != key && m.dom().contains(other) ==> after_get[other] == m[other]
        }),
{
    broadcast use group_usage_data;
}

} // verus!
