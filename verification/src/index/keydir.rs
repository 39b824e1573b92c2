//! The KeyDir: for every key ever written, where its latest record lives.
//!
//! Keys are kept in insertion order; a hash table from a 64-bit FNV-1a hash
//! of each key to the positions of the keys with that hash gives lookups in
//! expected constant time.
use crate::codec::bytes_eq;
use std::collections::HashMap;
use vstd::prelude::*;

verus! {

broadcast use vstd::std_specs::hash::group_hash_axioms;

/// Where the latest record of a key lives, and what it says.
#[derive(Clone, Copy, Debug, PartialEq, Eq, Structural)]
pub struct KeyDirEntry {
    pub file_id: u32,
    pub offset: u64,
    pub size_bytes: u32,
    pub timestamp: u64,
    pub is_tombstone: bool,
}

/// The starting state of the 64-bit FNV-1a hash.
pub const FNV_OFFSET_BASIS: u64 = 0xcbf2_9ce4_8422_2325;

/// The multiplier of the 64-bit FNV-1a hash.
pub const FNV_PRIME: u64 = 0x0000_0100_0000_01b3;

/// The 64-bit FNV-1a hash of a byte string.
pub open spec fn key_hash(s: Seq<u8>) -> u64
    decreases s.len(),
{
    if s.len() == 0 {
        FNV_OFFSET_BASIS
    } else {
        vstd::wrapping::u64_specs::wrapping_mul(
            key_hash(s.drop_last()) ^ (s.last() as u64),
            FNV_PRIME,
        )
    }
}

/// Computes the 64-bit FNV-1a hash of `key`.
pub fn hash_key(key: &[u8]) -> (h: u64)
    ensures
        h == key_hash(key@),
{
    let mut h: u64 = FNV_OFFSET_BASIS;
    let mut i: usize = 0;
    while i < key.len()
        invariant
            i <= key@.len(),
            h == key_hash(key@.subrange(0, i as int)),
        decreases key@.len() - i,
    {
        proof {
            let next = key@.subrange(0, i + 1);
            assert(next.drop_last() =~= key@.subrange(0, i as int));
            assert(next.last() == key@[i as int]);
        }
        h = (h ^ (key[i] as u64)).wrapping_mul(FNV_PRIME);
        i = i + 1;
    }
    proof {
        assert(key@.subrange(0, key@.len() as int) =~= key@);
    }
    h
}

/// The keys whose latest record holds a value.
pub open spec fn live_keys(kd: Map<Seq<u8>, KeyDirEntry>) -> Set<Seq<u8>> {
    kd.dom().filter(|k: Seq<u8>| !kd[k].is_tombstone)
}

/// The keys whose latest record is a tombstone.
pub open spec fn tombstoned_keys(kd: Map<Seq<u8>, KeyDirEntry>) -> Set<Seq<u8>> {
    kd.dom().filter(|k: Seq<u8>| kd[k].is_tombstone)
}

/// The number of entries that are tombstones.
pub open spec fn count_tombstones(s: Seq<KeyDirEntry>) -> nat
    decreases s.len(),
{
    if s.len() == 0 {
        0
    } else {
        count_tombstones(s.drop_last()) + if s.last().is_tombstone {
            1nat
        } else {
            0nat
        }
    }
}

/// The keys among the first `n` of `ks` whose entry in `es` is a tombstone.
spec fn tombstoned_prefix(ks: Seq<Seq<u8>>, es: Seq<KeyDirEntry>, n: int) -> Set<Seq<u8>> {
    Set::new(|k: Seq<u8>| exists|i: int| 0 <= i < n && ks[i] == k && #[trigger] es[i].is_tombstone)
}

proof fn lemma_tombstoned_prefix(ks: Seq<Seq<u8>>, es: Seq<KeyDirEntry>, n: int)
    requires
        ks.no_duplicates(),
        ks.len() == es.len(),
        0 <= n <= ks.len(),
    ensures
        tombstoned_prefix(ks, es, n).finite(),
        tombstoned_prefix(ks, es, n).len() == count_tombstones(es.take(n)),
    decreases n,
{
    if n == 0 {
        assert(tombstoned_prefix(ks, es, 0) =~= Set::<Seq<u8>>::empty());
        assert(es.take(0) =~= Seq::<KeyDirEntry>::empty());
    } else {
        lemma_tombstoned_prefix(ks, es, n - 1);
        let t = tombstoned_prefix(ks, es, n - 1);
        let t2 = tombstoned_prefix(ks, es, n);
        assert(es.take(n).drop_last() =~= es.take(n - 1));
        assert(es.take(n).last() == es[n - 1]);
        assert(!t.contains(ks[n - 1])) by {
            if t.contains(ks[n - 1]) {
                let i = choose|i: int| 0 <= i < n - 1 && ks[i] == ks[n - 1] && #[trigger] es[i].is_tombstone;
            }
        }
        if es[n - 1].is_tombstone {
            assert(t2 =~= t.insert(ks[n - 1])) by {
                assert forall|k: Seq<u8>| t2.contains(k) implies t.insert(ks[n - 1]).contains(k) by {
                    let i = choose|i: int| 0 <= i < n && ks[i] == k && #[trigger] es[i].is_tombstone;
                    if i < n - 1 {
                        assert(t.contains(k));
                    }
                }
                assert forall|k: Seq<u8>| t.insert(ks[n - 1]).contains(k) implies t2.contains(k) by {
                    if k == ks[n - 1] {
                        assert(es[n - 1].is_tombstone);
                    } else {
                        let i = choose|i: int| 0 <= i < n - 1 && ks[i] == k && #[trigger] es[i].is_tombstone;
                    }
                }
            }
        } else {
            assert(t2 =~= t) by {
                assert forall|k: Seq<u8>| t2.contains(k) implies t.contains(k) by {
                    let i = choose|i: int| 0 <= i < n && ks[i] == k && #[trigger] es[i].is_tombstone;
                    assert(i != n - 1);
                }
                assert forall|k: Seq<u8>| t.contains(k) implies t2.contains(k) by {
                    let i = choose|i: int| 0 <= i < n - 1 && ks[i] == k && #[trigger] es[i].is_tombstone;
                }
            }
        }
    }
}

/// The map from keys to entries, with keys in the order they were first
/// inserted.
pub struct KeyDir {
    keys: Vec<Vec<u8>>,
    entries: Vec<KeyDirEntry>,
    buckets: HashMap<u64, Vec<usize>>,
}

impl KeyDir {
    /// The keys, in the order each was first inserted.
    pub closed spec fn key_seq(&self) -> Seq<Seq<u8>> {
        Seq::new(self.keys@.len(), |i: int| self.keys@[i]@)
    }

    /// The entries, in the same order as `key_seq`.
    pub closed spec fn entry_seq(&self) -> Seq<KeyDirEntry> {
        self.entries@
    }

    /// The internal consistency of the index.
    pub closed spec fn wf(&self) -> bool {
        &&& self.keys@.len() == self.entries@.len()
        &&& forall|i: int, j: int|
            0 <= i < self.keys@.len() && 0 <= j < self.keys@.len() && i != j ==> #[trigger] self.keys@[i]@
                != #[trigger] self.keys@[j]@
        &&& forall|i: int|
            #![trigger self.keys@[i]]
            0 <= i < self.keys@.len() ==> {
                &&& self.buckets@.contains_key(key_hash(self.keys@[i]@))
                &&& self.buckets@[key_hash(self.keys@[i]@)]@.contains(i as usize)
            }
        &&& forall|h: u64, j: int|
            #![trigger self.buckets@[h]@[j]]
            self.buckets@.contains_key(h) && 0 <= j < self.buckets@[h]@.len() ==> {
                &&& self.buckets@[h]@[j] < self.keys@.len()
                &&& key_hash(self.keys@[self.buckets@[h]@[j] as int]@) == h
            }
    }

    /// The map from each key to its entry.
    pub open spec fn view(&self) -> Map<Seq<u8>, KeyDirEntry> {
        Map::new(
            |k: Seq<u8>| self.key_seq().contains(k),
            |k: Seq<u8>| self.entry_seq()[self.key_seq().index_of(k)],
        )
    }

    proof fn lemma_key_seq_facts(&self)
        requires
            self.wf(),
        ensures
            self.key_seq().len() == self.entry_seq().len(),
            self.key_seq().no_duplicates(),
            forall|i: int|
                0 <= i < self.key_seq().len() ==> #[trigger] self.key_seq().index_of(
                    self.key_seq()[i],
                ) == i,
    {
        let ks = self.key_seq();
        assert forall|i: int, j: int|
            0 <= i < ks.len() && 0 <= j < ks.len() && i != j implies ks[i] != ks[j] by {
            assert(ks[i] == self.keys@[i]@);
            assert(ks[j] == self.keys@[j]@);
        }
        assert forall|i: int| 0 <= i < ks.len() implies #[trigger] ks.index_of(ks[i]) == i by {
            assert(ks.contains(ks[i]));
        }
    }

    /// The live keys and the tombstones of the map are counted by the
    /// entries: as many tombstoned keys as tombstone entries, and live and
    /// tombstoned keys together are all keys.
    pub proof fn lemma_counts(&self)
        requires
            self.wf(),
        ensures
            self@.dom().finite(),
            self@.len() == self.key_seq().len(),
            live_keys(self@).finite(),
            tombstoned_keys(self@).finite(),
            tombstoned_keys(self@).len() == count_tombstones(self.entry_seq()),
            live_keys(self@).len() + tombstoned_keys(self@).len() == self.key_seq().len(),
    {
        self.lemma_key_seq_facts();
        let ks = self.key_seq();
        let es = self.entry_seq();
        let n = ks.len() as int;
        lemma_tombstoned_prefix(ks, es, n);
        assert(es.take(n) =~= es);
        ks.unique_seq_to_set();
        assert(self@.dom() =~= ks.to_set());
        let t = tombstoned_prefix(ks, es, n);
        assert(tombstoned_keys(self@) =~= t) by {
            assert forall|k: Seq<u8>| tombstoned_keys(self@).contains(k) implies t.contains(k) by {
                let i = ks.index_of(k);
                assert(ks[i] == k);
                assert(es[i].is_tombstone);
            }
            assert forall|k: Seq<u8>| t.contains(k) implies tombstoned_keys(self@).contains(k) by {
                let i = choose|i: int| 0 <= i < n && ks[i] == k && #[trigger] es[i].is_tombstone;
                assert(ks.contains(k));
                assert(ks.index_of(ks[i]) == i);
            }
        }
        self@.dom().lemma_len_filter(|k: Seq<u8>| !self@[k].is_tombstone);
        let live = live_keys(self@);
        assert(live + t =~= self@.dom());
        assert(live.disjoint(t));
        vstd::set_lib::lemma_set_disjoint_lens(live, t);
    }

    /// An empty index.
    pub fn new() -> (kd: Self)
        ensures
            kd.wf(),
            kd@ == Map::<Seq<u8>, KeyDirEntry>::empty(),
            kd.key_seq() == Seq::<Seq<u8>>::empty(),
    {
        let kd = KeyDir { keys: Vec::new(), entries: Vec::new(), buckets: HashMap::new() };
        proof {
            assert(kd.key_seq() =~= Seq::<Seq<u8>>::empty());
            assert(kd@ =~= Map::<Seq<u8>, KeyDirEntry>::empty());
        }
        kd
    }

    /// The position of `key` in `key_seq`, if present.
    fn find(&self, key: &[u8]) -> (r: Option<usize>)
        requires
            self.wf(),
        ensures
            match r {
                Some(i) => i < self.key_seq().len() && self.key_seq()[i as int] == key@,
                None => !self.key_seq().contains(key@),
            },
    {
        let h = hash_key(key);
        let n = self.keys.len();
        match self.buckets.get(&h) {
            None => {
                proof {
                    if self.key_seq().contains(key@) {
                        let i = choose|i: int|
                            0 <= i < self.key_seq().len() && self.key_seq()[i] == key@;
                        assert(self.keys@[i]@ == key@);
                    }
                }
                None
            },
            Some(bucket) => {
                let mut j: usize = 0;
                while j < bucket.len()
                    invariant
                        self.wf(),
                        self.buckets@.contains_key(h),
                        bucket@ == self.buckets@[h]@,
                        h == key_hash(key@),
                        n == self.keys@.len(),
                        j <= bucket@.len(),
                        forall|t: int| 0 <= t < j ==> self.keys@[bucket@[t] as int]@ != key@,
                    decreases bucket@.len() - j,
                {
                    let idx = bucket[j];
                    proof {
                        assert(self.buckets@[h]@[j as int] < self.keys@.len());
                    }
                    if bytes_eq(self.keys[idx].as_slice(), key) {
                        proof {
                            assert(idx < self.keys@.len());
                            assert(self.key_seq()[idx as int] == self.keys@[idx as int]@);
                            assert(self.keys@[idx as int]@ == key@);
                        }
                        return Some(idx);
                    }
                    j = j + 1;
                }
                proof {
                    if self.key_seq().contains(key@) {
                        let i = choose|i: int|
                            0 <= i < self.key_seq().len() && self.key_seq()[i] == key@;
                        assert(self.keys@[i]@ == key@);
                        assert(self.buckets@[key_hash(self.keys@[i]@)]@.contains(i as usize));
                        let t = choose|t: int| 0 <= t < bucket@.len() && bucket@[t] == i as usize;
                        assert(self.keys@[bucket@[t] as int]@ != key@);
                    }
                }
                None
            },
        }
    }

    /// Sets the entry of `key`, replacing any earlier one.  A new key goes
    /// to the end of the key order; a known key keeps its place.
    pub fn insert(&mut self, key: Vec<u8>, entry: KeyDirEntry)
        requires
            old(self).wf(),
        ensures
            final(self).wf(),
            final(self)@ == old(self)@.insert(key@, entry),
            old(self).key_seq().contains(key@) ==> final(self).key_seq() == old(self).key_seq(),
            !old(self).key_seq().contains(key@) ==> final(self).key_seq() == old(
                self,
            ).key_seq().push(key@),
    {
        proof {
            self.lemma_key_seq_facts();
        }
        match self.find(key.as_slice()) {
            Some(i) => {
                self.entries.set(i, entry);
                proof {
                    assert(self.key_seq() =~= old(self).key_seq());
                    self.lemma_key_seq_facts();
                    assert(self@ =~= old(self)@.insert(key@, entry));
                }
            },
            None => {
                let h = hash_key(key.as_slice());
                let idx = self.keys.len();
                let ghost old_keys = self.keys@;
                self.keys.push(key);
                self.entries.push(entry);
                let bucket = match self.buckets.remove(&h) {
                    Some(b) => b,
                    None => Vec::new(),
                };
                let ghost old_bucket = bucket@;
                let mut bucket = bucket;
                bucket.push(idx);
                self.buckets.insert(h, bucket);
                proof {
                    let ob = old(self).buckets@;
                    assert(old_bucket == if ob.contains_key(h) {
                        ob[h]@
                    } else {
                        Seq::<usize>::empty()
                    });
                    assert(self.key_seq() =~= old(self).key_seq().push(key@));
                    assert forall|i: int, j: int|
                        0 <= i < self.keys@.len() && 0 <= j < self.keys@.len() && i != j implies #[trigger] self.keys@[i]@
                        != #[trigger] self.keys@[j]@ by {
                        if i < idx && j < idx {
                            assert(old(self).keys@[i] == self.keys@[i]);
                            assert(old(self).keys@[j] == self.keys@[j]);
                        } else if i == idx {
                            assert(old(self).key_seq()[j] == self.keys@[j]@);
                        } else {
                            assert(old(self).key_seq()[i] == self.keys@[i]@);
                        }
                    }
                    assert forall|i: int| 0 <= i < self.keys@.len() implies {
                        &&& self.buckets@.contains_key(key_hash(#[trigger] self.keys@[i]@))
                        &&& self.buckets@[key_hash(self.keys@[i]@)]@.contains(i as usize)
                    } by {
                        if i < idx {
                            assert(old(self).keys@[i] == self.keys@[i]);
                            let hi = key_hash(self.keys@[i]@);
                            assert(ob.contains_key(hi));
                            assert(ob[hi]@.contains(i as usize));
                            if hi == h {
                                let t = choose|t: int|
                                    0 <= t < ob[hi]@.len() && ob[hi]@[t] == i as usize;
                                assert(self.buckets@[h]@[t] == i as usize);
                            }
                        } else {
                            assert(self.buckets@[h]@[old_bucket.len() as int] == idx);
                        }
                    }
                    assert forall|hh: u64, j: int|
                        self.buckets@.contains_key(hh) && 0 <= j
                            < self.buckets@[hh]@.len() implies {
                        &&& #[trigger] self.buckets@[hh]@[j] < self.keys@.len()
                        &&& key_hash(self.keys@[self.buckets@[hh]@[j] as int]@) == hh
                    } by {
                        if hh == h {
                            if j < old_bucket.len() {
                                assert(ob[h]@[j] == self.buckets@[h]@[j]);
                                assert(old(self).keys@[ob[h]@[j] as int] == self.keys@[ob[h]@[j] as int]);
                            }
                        } else {
                            assert(ob[hh] == self.buckets@[hh]);
                            assert(old(self).keys@[ob[hh]@[j] as int] == self.keys@[ob[hh]@[j] as int]);
                        }
                    }
                    self.lemma_key_seq_facts();
                    assert forall|k: Seq<u8>| old(self).key_seq().contains(k) implies self.key_seq().index_of(k)
                        == old(self).key_seq().index_of(k) by {
                        let i = old(self).key_seq().index_of(k);
                        assert(self.key_seq()[i] == k);
                    }
                    assert(self.key_seq().index_of(key@) == idx) by {
                        assert(self.key_seq()[idx as int] == key@);
                    }
                    assert forall|k: Seq<u8>| #[trigger] self.key_seq().contains(k) == (old(self).key_seq().contains(k) || k == key@) by {
                        if self.key_seq().contains(k) && k != key@ {
                            let i = choose|i: int| 0 <= i < self.key_seq().len() && self.key_seq()[i] == k;
                            assert(i < idx);
                            assert(old(self).key_seq()[i] == k);
                        }
                        if old(self).key_seq().contains(k) {
                            let i = choose|i: int| 0 <= i < old(self).key_seq().len() && old(self).key_seq()[i] == k;
                            assert(self.key_seq()[i] == k);
                        }
                        if k == key@ {
                            assert(self.key_seq()[idx as int] == k);
                        }
                    }
                    assert(self@.dom() =~= old(self)@.dom().insert(key@));
                    assert forall|k: Seq<u8>| #[trigger] self@.contains_key(k) implies self@[k] == old(self)@.insert(key@, entry)[k] by {
                        if k != key@ {
                            let i = old(self).key_seq().index_of(k);
                            assert(self.entry_seq()[i] == old(self).entry_seq()[i]);
                        }
                    }
                    assert(self@ =~= old(self)@.insert(key@, entry));
                }
            },
        }
    }

    /// The entry of `key`, if the key is present.
    pub fn get(&self, key: &[u8]) -> (r: Option<&KeyDirEntry>)
        requires
            self.wf(),
        ensures
            match r {
                Some(e) => self@.contains_key(key@) && *e == self@[key@],
                None => !self@.contains_key(key@),
            },
    {
        proof {
            self.lemma_key_seq_facts();
        }
        match self.find(key) {
            Some(i) => {
                proof {
                    assert(self.key_seq().index_of(key@) == i);
                }
                Some(&self.entries[i])
            },
            None => None,
        }
    }

    /// The number of keys.
    pub fn len(&self) -> (n: usize)
        requires
            self.wf(),
        ensures
            n == self@.len(),
            n == self.key_seq().len(),
            n == self.entry_seq().len(),
    {
        proof {
            self.lemma_key_seq_facts();
            self.key_seq().unique_seq_to_set();
            assert(self@.dom() =~= self.key_seq().to_set());
        }
        self.keys.len()
    }

    /// Whether there are no keys.
    pub fn is_empty(&self) -> (b: bool)
        requires
            self.wf(),
        ensures
            b == (self@.len() == 0),
    {
        self.len() == 0
    }

    /// Every entry, in key order.
    pub fn values(&self) -> (v: Vec<KeyDirEntry>)
        requires
            self.wf(),
        ensures
            v@ == self.entry_seq(),
    {
        self.entries.clone()
    }

    /// Every key with its entry, in key order.
    pub fn iter(&self) -> (v: Vec<(Vec<u8>, KeyDirEntry)>)
        requires
            self.wf(),
        ensures
            v@.len() == self.key_seq().len(),
            forall|i: int|
                0 <= i < v@.len() ==> #[trigger] v@[i].0@ == self.key_seq()[i] && v@[i].1
                    == self.entry_seq()[i],
    {
        let mut out: Vec<(Vec<u8>, KeyDirEntry)> = Vec::new();
        let mut i: usize = 0;
        while i < self.keys.len()
            invariant
                self.wf(),
                i <= self.keys@.len(),
                out@.len() == i,
                forall|t: int|
                    0 <= t < i ==> #[trigger] out@[t].0@ == self.key_seq()[t] && out@[t].1
                        == self.entry_seq()[t],
            decreases self.keys@.len() - i,
        {
            let k = crate::codec::copy_range(self.keys[i].as_slice(), 0, self.keys[i].len());
            proof {
                assert(self.keys@[i as int]@.subrange(0, self.keys@[i as int]@.len() as int) =~= self.keys@[i as int]@);
            }
            out.push((k, self.entries[i]));
            i = i + 1;
        }
        out
    }
}

impl Default for KeyDir {
    fn default() -> (kd: Self)
        ensures
            kd.wf(),
            kd@ == Map::<Seq<u8>, KeyDirEntry>::empty(),
            kd.key_seq() == Seq::<Seq<u8>>::empty(),
    {
        KeyDir::new()
    }
}

} // verus!
