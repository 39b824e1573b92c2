//! The catalog of data files: which ids exist, which file takes appends,
//! how full it is, and when to start the next one.
//!
//! The files themselves are opened, written and read by the caller; the
//! catalog decides where each record goes.
use std::collections::BTreeSet;
use vstd::prelude::*;
use vstd::laws_cmp::obeys_cmp;
use vstd::std_specs::btree::{increasing_seq, spec_btree_keys_iter};
use vstd::std_specs::cmp::OrdSpec;
use vstd::std_specs::iter::IteratorSpec;

verus! {

/// Where a record was written.
#[derive(Copy, Clone, Debug, PartialEq, Eq, Structural)]
pub struct RecordLocation {
    pub file_id: u32,
    pub offset: u64,
    pub size_bytes: u32,
}

/// `a + b`, or `u64::MAX` when the sum does not fit.
pub open spec fn saturating_sum(a: u64, b: u64) -> u64 {
    if a + b > u64::MAX {
        u64::MAX
    } else {
        (a + b) as u64
    }
}

/// Whether a sequence of ids is strictly increasing.
pub open spec fn strictly_increasing(s: Seq<u32>) -> bool {
    forall|i: int, j: int| 0 <= i < j < s.len() ==> s[i] < s[j]
}

/// The id of the file that takes appends when a directory holds data
/// files with ids `found`: the newest one, or 1 when there is none.
pub open spec fn spec_active_id(found: Seq<u32>) -> u32
    decreases found.len(),
{
    if found.len() == 0 {
        1
    } else {
        let rest = spec_active_id(found.drop_last());
        if found.len() == 1 || found.last() > rest {
            found.last()
        } else {
            rest
        }
    }
}

/// The id of the file that takes appends: the largest of `found`, or 1.
pub fn active_id_for(found: &[u32]) -> (id: u32)
    ensures
        id == spec_active_id(found@),
        found@.len() > 0 ==> found@.contains(id),
        forall|i: int| 0 <= i < found@.len() ==> found@[i] <= id,
{
    let mut best: u32 = 1;
    let mut i: usize = 0;
    while i < found.len()
        invariant
            i <= found@.len(),
            best == spec_active_id(found@.subrange(0, i as int)),
            i > 0 ==> found@.subrange(0, i as int).contains(best),
            forall|t: int| 0 <= t < i ==> found@[t] <= best,
        decreases found@.len() - i,
    {
        proof {
            let p = found@.subrange(0, i + 1);
            assert(p.drop_last() =~= found@.subrange(0, i as int));
            assert(p.last() == found@[i as int]);
            if i > 0 {
                let w = choose|t: int| 0 <= t < i && found@.subrange(0, i as int)[t] == best;
                assert(p[w] == best);
            }
            assert(p[i as int] == found@[i as int]);
        }
        if i == 0 || found[i] > best {
            best = found[i];
        }
        i = i + 1;
    }
    proof {
        assert(found@.subrange(0, found@.len() as int) =~= found@);
    }
    best
}

/// Inserts `id` into a strictly increasing vector unless it is present.
fn insert_sorted(ids: &mut Vec<u32>, id: u32)
    requires
        strictly_increasing(old(ids)@),
    ensures
        strictly_increasing(final(ids)@),
        final(ids)@.to_set() == old(ids)@.to_set().insert(id),
{
    let mut pos: usize = 0;
    while pos < ids.len() && ids[pos] < id
        invariant
            pos <= ids@.len(),
            ids@ == old(ids)@,
            forall|t: int| 0 <= t < pos ==> ids@[t] < id,
        decreases ids@.len() - pos,
    {
        pos = pos + 1;
    }
    if pos < ids.len() && ids[pos] == id {
        proof {
            assert(ids@.to_set() =~= old(ids)@.to_set().insert(id)) by {
                assert(ids@.contains(id)) by {
                    assert(ids@[pos as int] == id);
                }
            }
        }
        return;
    }
    ids.insert(pos, id);
    proof {
        let o = old(ids)@;
        let n = ids@;
        assert(n =~= o.subrange(0, pos as int).push(id) + o.subrange(pos as int, o.len() as int));
        assert forall|i: int, j: int| 0 <= i < j < n.len() implies n[i] < n[j] by {
            if j < pos {
            } else if j == pos {
            } else if i < pos {
                assert(n[j] == o[j - 1]);
                assert(o[pos as int] > id);
                if j - 1 > pos {
                    assert(o[pos as int] < o[j - 1]);
                }
            } else if i == pos {
                assert(n[j] == o[j - 1]);
                if j - 1 > pos {
                    assert(o[pos as int] < o[j - 1]);
                }
            } else {
                assert(n[i] == o[i - 1]);
                assert(n[j] == o[j - 1]);
            }
        }
        assert forall|x: u32| n.contains(x) <==> o.contains(x) || x == id by {
            if n.contains(x) {
                let k = choose|k: int| 0 <= k < n.len() && n[k] == x;
                if k < pos {
                    assert(o[k] == x);
                } else if k > pos {
                    assert(o[k - 1] == x);
                }
            }
            if o.contains(x) {
                let k = choose|k: int| 0 <= k < o.len() && o[k] == x;
                if k < pos {
                    assert(n[k] == x);
                } else {
                    assert(n[k + 1] == x);
                }
            }
            if x == id {
                assert(n[pos as int] == id);
            }
        }
        assert(n.to_set() =~= o.to_set().insert(id));
    }
}

/// The distinct ids of `found` (in any order, possibly repeated), in
/// increasing order.
pub fn sorted_ids(found: &[u32]) -> (ids: Vec<u32>)
    ensures
        strictly_increasing(ids@),
        ids@.to_set() == found@.to_set(),
{
    let mut ids: Vec<u32> = Vec::new();
    let mut i: usize = 0;
    proof {
        assert(ids@.to_set() =~= found@.subrange(0, 0).to_set());
    }
    while i < found.len()
        invariant
            i <= found@.len(),
            strictly_increasing(ids@),
            ids@.to_set() == found@.subrange(0, i as int).to_set(),
        decreases found@.len() - i,
    {
        insert_sorted(&mut ids, found[i]);
        proof {
            assert(found@.subrange(0, i + 1).to_set() =~= found@.subrange(0, i as int).to_set().insert(found@[i as int])) by {
                assert forall|x: u32| #[trigger] found@.subrange(0, i + 1).to_set().contains(x) == found@.subrange(0, i as int).to_set().insert(found@[i as int]).contains(x) by {
                    let p = found@.subrange(0, i + 1);
                    let q = found@.subrange(0, i as int);
                    if p.contains(x) {
                        let k = choose|k: int| 0 <= k < p.len() && p[k] == x;
                        if k < i {
                            assert(q[k] == x);
                        }
                    }
                    if q.contains(x) {
                        let k = choose|k: int| 0 <= k < q.len() && q[k] == x;
                        assert(p[k] == x);
                    }
                    if x == found@[i as int] {
                        assert(p[i as int] == x);
                    }
                }
            }
        }
        i = i + 1;
    }
    proof {
        assert(found@.subrange(0, found@.len() as int) =~= found@);
    }
    ids
}

/// The ids of `found` in increasing order, each as often as it occurs.
pub fn sort_ids(found: &[u32]) -> (ids: Vec<u32>)
    ensures
        forall|i: int, j: int| 0 <= i <= j < ids@.len() ==> ids@[i] <= ids@[j],
        ids@.to_multiset() == found@.to_multiset(),
{
    broadcast use vstd::seq_lib::group_to_multiset_ensures;

    let mut ids: Vec<u32> = Vec::new();
    let mut i: usize = 0;
    proof {
        assert(found@.subrange(0, 0) =~= Seq::<u32>::empty());
        assert(ids@ =~= Seq::<u32>::empty());
    }
    while i < found.len()
        invariant
            i <= found@.len(),
            forall|a: int, b: int| 0 <= a <= b < ids@.len() ==> ids@[a] <= ids@[b],
            ids@.to_multiset() == found@.subrange(0, i as int).to_multiset(),
        decreases found@.len() - i,
    {
        let x = found[i];
        let mut pos: usize = 0;
        while pos < ids.len() && ids[pos] <= x
            invariant
                pos <= ids@.len(),
                forall|t: int| 0 <= t < pos ==> ids@[t] <= x,
            decreases ids@.len() - pos,
        {
            pos = pos + 1;
        }
        let ghost o = ids@;
        ids.insert(pos, x);
        proof {
            let n = ids@;
            assert(n == o.insert(pos as int, x));
            assert forall|a: int, b: int| 0 <= a <= b < n.len() implies n[a] <= n[b] by {
                if a < pos && b > pos {
                    assert(n[b] == o[b - 1]);
                    assert(o[pos as int] > x);
                    assert(o[pos as int] <= o[b - 1]);
                } else if a == pos && b > pos {
                    assert(n[b] == o[b - 1]);
                    assert(o[pos as int] <= o[b - 1]);
                } else if a > pos {
                    assert(n[a] == o[a - 1] && n[b] == o[b - 1]);
                }
            }
            assert(found@.subrange(0, i + 1) =~= found@.subrange(0, i as int).push(x));
            vstd::seq_lib::to_multiset_insert(o, pos as int, x);
            vstd::seq_lib::to_multiset_build(found@.subrange(0, i as int), x);
        }
        i = i + 1;
    }
    proof {
        assert(found@.subrange(0, found@.len() as int) =~= found@);
    }
    ids
}

/// The ids of `set` in increasing order, as iterating it yields them.
fn ascending_ids(set: &BTreeSet<u32>) -> (v: Vec<u32>)
    ensures
        strictly_increasing(v@),
        v@.to_set() == set@,
{
    broadcast use vstd::std_specs::btree::group_btree_axioms;
    broadcast use vstd::laws_cmp::group_laws_cmp;

    let mut v: Vec<u32> = Vec::new();
    for id in it: set.iter()
        invariant
            it.seq() == spec_btree_keys_iter(set).remaining(),
            v@.len() == it.index(),
            forall|i: int| 0 <= i < it.index() ==> v@[i] == *it.seq()[i],
    {
        v.push(*id);
    }
    proof {
        let r = spec_btree_keys_iter(set).remaining();
        assert(obeys_cmp::<u32>());
        assert(obeys_cmp::<&u32>());
        assert(increasing_seq(r));
        assert(v@ =~= r.unref());
        assert forall|i: int, j: int| 0 <= i < j < v@.len() implies v@[i] < v@[j] by {
            assert(OrdSpec::cmp_spec(&r[i], &r[j]) is Less);
        }
    }
    v
}

/// Two strictly increasing sequences holding the same ids are equal.
proof fn lemma_ascending_unique(a: Seq<u32>, b: Seq<u32>)
    requires
        strictly_increasing(a),
        strictly_increasing(b),
        a.to_set() == b.to_set(),
    ensures
        a == b,
    decreases a.len(),
{
    if a.len() == 0 {
        if b.len() > 0 {
            assert(b.to_set().contains(b[0]));
        }
        assert(a =~= b);
    } else {
        if b.len() == 0 {
            assert(a.to_set().contains(a[0]));
        }
        let x = a.last();
        let y = b.last();
        assert(b.to_set().contains(x));
        assert(a.to_set().contains(y));
        let kx = choose|k: int| 0 <= k < b.len() && b[k] == x;
        let ky = choose|k: int| 0 <= k < a.len() && a[k] == y;
        if kx < b.len() - 1 {
            assert(x < y);
        }
        if ky < a.len() - 1 {
            assert(y < x);
        }
        assert(x == y);
        let a2 = a.drop_last();
        let b2 = b.drop_last();
        assert forall|z: u32| a2.to_set().contains(z) == b2.to_set().contains(z) by {
            if a2.to_set().contains(z) {
                let k = choose|k: int| 0 <= k < a2.len() && a2[k] == z;
                assert(a[k] == z && z < x);
                assert(b.to_set().contains(z));
                let m = choose|m: int| 0 <= m < b.len() && b[m] == z;
                assert(m != b.len() - 1);
                assert(b2[m] == z);
            }
            if b2.to_set().contains(z) {
                let k = choose|k: int| 0 <= k < b2.len() && b2[k] == z;
                assert(b[k] == z && z < y);
                assert(a.to_set().contains(z));
                let m = choose|m: int| 0 <= m < a.len() && a[m] == z;
                assert(m != a.len() - 1);
                assert(a2[m] == z);
            }
        }
        assert(a2.to_set() =~= b2.to_set());
        lemma_ascending_unique(a2, b2);
        assert(a =~= a2.push(x));
        assert(b =~= b2.push(y));
    }
}

/// The known data files and the state of the one taking appends.
pub struct FileCatalog {
    known_file_ids: BTreeSet<u32>,
    order: Ghost<Seq<u32>>,
    active_id: u32,
    active_len: u64,
    max_data_file_size_bytes: u64,
}

impl FileCatalog {
    /// Known ids, oldest first.
    pub closed spec fn ids(&self) -> Seq<u32> {
        self.order@
    }

    /// The set holds exactly the ids.
    pub closed spec fn holds_ids(&self) -> bool {
        self.known_file_ids@ == self.order@.to_set()
    }

    /// The id of the file taking appends.
    pub closed spec fn spec_active_id(&self) -> u32 {
        self.active_id
    }

    /// The length of the file taking appends.
    pub closed spec fn spec_active_len(&self) -> u64 {
        self.active_len
    }

    /// The size at which a non-empty active file is closed.
    pub closed spec fn spec_max_size(&self) -> u64 {
        self.max_data_file_size_bytes
    }

    /// The ids are strictly increasing and the active file is the newest.
    pub open spec fn wf(&self) -> bool {
        &&& self.holds_ids()
        &&& strictly_increasing(self.ids())
        &&& self.ids().len() > 0
        &&& self.ids().last() == self.spec_active_id()
    }

    /// The catalog of a directory holding the data files `found` (in any
    /// order, possibly repeated), whose newest file (or file 1, created
    /// when there is none) is `active_len` bytes long.
    pub fn open(found: &[u32], active_len: u64, max_data_file_size_bytes: u64) -> (c: Self)
        ensures
            c.wf(),
            c.ids().to_set() == found@.to_set().insert(spec_active_id(found@)),
            c.spec_active_id() == spec_active_id(found@),
            c.spec_active_len() == active_len,
            c.spec_max_size() == max_data_file_size_bytes,
    {
        let mut known_file_ids: BTreeSet<u32> = BTreeSet::new();
        let mut i: usize = 0;
        while i < found.len()
            invariant
                i <= found@.len(),
                known_file_ids@ == found@.subrange(0, i as int).to_set(),
            decreases found@.len() - i,
        {
            insert_id(&mut known_file_ids, found[i]);
            proof {
                lemma_prefix_set_step(found@, i as int);
            }
            i = i + 1;
        }
        let active_id = active_id_for(found);
        insert_id(&mut known_file_ids, active_id);
        let ordered = ascending_ids(&known_file_ids);
        proof {
            assert(found@.subrange(0, found@.len() as int) =~= found@);
            let n = ordered@;
            assert(n.to_set().contains(active_id));
            let w = choose|k: int| 0 <= k < n.len() && n[k] == active_id;
            assert forall|k: int| 0 <= k < n.len() implies n[k] <= active_id by {
                assert(n.to_set().contains(n[k]));
                if n[k] != active_id {
                    assert(found@.to_set().contains(n[k]));
                    let t = choose|t: int| 0 <= t < found@.len() && found@[t] == n[k];
                }
            }
            if w < n.len() - 1 {
                assert(n[w] < n[n.len() - 1]);
            }
        }
        let order = Ghost(ordered@);
        FileCatalog { known_file_ids, order, active_id, active_len, max_data_file_size_bytes }
    }

    /// The id of the file taking appends.
    pub fn active_id(&self) -> (id: u32)
        ensures
            id == self.spec_active_id(),
    {
        self.active_id
    }

    /// The length of the file taking appends.
    pub fn active_len(&self) -> (len: u64)
        ensures
            len == self.spec_active_len(),
    {
        self.active_len
    }

    /// Whether a record of `encoded_len` bytes must go to a new file: the
    /// active file already holds data and the record would take it past
    /// the size limit.
    pub fn needs_rotation(&self, encoded_len: u64) -> (rotate: bool)
        ensures
            rotate == (self.spec_active_len() != 0 && saturating_sum(
                self.spec_active_len(),
                encoded_len,
            ) > self.spec_max_size()),
    {
        self.active_len != 0 && self.active_len.saturating_add(encoded_len)
            > self.max_data_file_size_bytes
    }

    /// The id of the file that would follow the active one.
    pub fn next_file_id(&self) -> (id: u32)
        requires
            self.spec_active_id() < u32::MAX,
        ensures
            id == self.spec_active_id() + 1,
    {
        self.active_id + 1
    }

    /// Makes the file after the active one (holding `new_len` bytes) the
    /// active file and records it as known.
    pub fn rotate(&mut self, new_len: u64)
        requires
            old(self).wf(),
            old(self).spec_active_id() < u32::MAX,
        ensures
            final(self).wf(),
            final(self).ids() == old(self).ids().push((old(self).spec_active_id() + 1) as u32),
            final(self).spec_active_id() == old(self).spec_active_id() + 1,
            final(self).spec_active_len() == new_len,
            final(self).spec_max_size() == old(self).spec_max_size(),
    {
        let next = self.active_id + 1;
        insert_id(&mut self.known_file_ids, next);
        self.order = Ghost(self.order@.push(next));
        self.active_id = next;
        self.active_len = new_len;
        proof {
            let o = old(self).ids();
            let n = self.ids();
            assert forall|i: int, j: int| 0 <= i < j < n.len() implies n[i] < n[j] by {
                if j == n.len() - 1 {
                    if i < o.len() - 1 {
                        assert(o[i] < o.last());
                    }
                } else {
                    assert(n[i] == o[i] && n[j] == o[j]);
                }
            }
            assert forall|x: u32| n.contains(x) == (o.contains(x) || x == next) by {
                if n.contains(x) {
                    let k = choose|k: int| 0 <= k < n.len() && n[k] == x;
                    if k < o.len() {
                        assert(o[k] == x);
                    }
                }
                if o.contains(x) {
                    let k = choose|k: int| 0 <= k < o.len() && o[k] == x;
                    assert(n[k] == x);
                }
                if x == next {
                    assert(n[o.len() as int] == x);
                }
            }
            assert(n.to_set() =~= o.to_set().insert(next));
        }
    }

    /// Records that `size` bytes were appended to the active file, and
    /// returns where they went: the active file, at its former end.
    pub fn record_append(&mut self, size: u64) -> (loc: RecordLocation)
        requires
            old(self).wf(),
            old(self).spec_active_len() + size <= u64::MAX,
        ensures
            final(self).wf(),
            final(self).ids() == old(self).ids(),
            final(self).spec_active_id() == old(self).spec_active_id(),
            final(self).spec_active_len() == old(self).spec_active_len() + size,
            final(self).spec_max_size() == old(self).spec_max_size(),
            loc.file_id == old(self).spec_active_id(),
            loc.offset == old(self).spec_active_len(),
            loc.size_bytes == size as u32,
    {
        let offset = self.active_len;
        self.active_len = self.active_len + size;
        #[verifier::truncate]
        let size_bytes = size as u32;
        RecordLocation { file_id: self.active_id, offset, size_bytes }
    }

    /// Whether a data file with this id is known.
    pub fn contains(&self, file_id: u32) -> (b: bool)
        requires
            self.wf(),
        ensures
            b == self.ids().contains(file_id),
    {
        contains_id(&self.known_file_ids, file_id)
    }

    /// The known data file ids, oldest first.
    pub fn file_ids_oldest_to_newest(&self) -> (ids: Vec<u32>)
        requires
            self.wf(),
        ensures
            ids@ == self.ids(),
    {
        let ids = ascending_ids(&self.known_file_ids);
        proof {
            lemma_ascending_unique(ids@, self.ids());
        }
        ids
    }
}

/// Adds `id` to the set.
fn insert_id(set: &mut BTreeSet<u32>, id: u32)
    ensures
        final(set)@ == old(set)@.insert(id),
{
    broadcast use vstd::laws_cmp::group_laws_cmp;

    set.insert(id);
}

/// Whether `id` is in the set.
fn contains_id(set: &BTreeSet<u32>, id: u32) -> (b: bool)
    ensures
        b == set@.contains(id),
{
    broadcast use vstd::std_specs::btree::group_btree_axioms;
    broadcast use vstd::laws_cmp::group_laws_cmp;

    set.contains(&id)
}

/// The ids among the first `i + 1` of `found` are those among the first
/// `i` and the `i`-th.
proof fn lemma_prefix_set_step(found: Seq<u32>, i: int)
    requires
        0 <= i < found.len(),
    ensures
        found.subrange(0, i + 1).to_set() == found.subrange(0, i).to_set().insert(found[i]),
{
    let p = found.subrange(0, i + 1);
    let q = found.subrange(0, i);
    assert forall|x: u32| #[trigger] p.to_set().contains(x) == q.to_set().insert(found[i]).contains(x) by {
        if p.contains(x) {
            let k = choose|k: int| 0 <= k < p.len() && p[k] == x;
            if k < i {
                assert(q[k] == x);
            }
        }
        if q.contains(x) {
            let k = choose|k: int| 0 <= k < q.len() && q[k] == x;
            assert(p[k] == x);
        }
        if x == found[i] {
            assert(p[i] == x);
        }
    }
    assert(p.to_set() =~= q.to_set().insert(found[i]));
}

} // verus!
