//! Merge (compaction): the latest value of every live key is rewritten
//! into fresh data files; tombstones and overwritten records are dropped.
//!
//! The caller reads each live record's value and writes the merged files;
//! this module selects what to read and what to write.
use crate::codec::copy_range;
use crate::engine::{
    all_encodable, all_normal, empty_files, keys_distinct, lemma_write_files_reads,
    spec_encode_all, spec_get, spec_live_entry, spec_write_files,
};
use crate::error::BitdbError;
use crate::index::keydir::{live_keys, tombstoned_keys, KeyDir, KeyDirEntry};
use crate::record::{DecodeResult, Record, RecordFlags, RecordView};
use vstd::prelude::*;

verus! {

/// A live record ready to be written into the merged output: its key, its
/// value, and the timestamp of the record it was read from.
#[derive(Clone, Debug, PartialEq, Eq)]
pub struct LiveRecord {
    pub key: Vec<u8>,
    pub value: Vec<u8>,
    pub timestamp: u64,
}

/// The keys and entries whose entry is not a tombstone, in order.
pub open spec fn spec_live_pairs(keys: Seq<Seq<u8>>, entries: Seq<KeyDirEntry>) -> Seq<
    (Seq<u8>, KeyDirEntry),
>
    decreases keys.len(),
{
    if keys.len() == 0 || entries.len() == 0 {
        Seq::empty()
    } else {
        let rest = spec_live_pairs(keys.drop_last(), entries.drop_last());
        if entries.last().is_tombstone {
            rest
        } else {
            rest.push((keys.last(), entries.last()))
        }
    }
}

/// The keys of a KeyDir whose latest record holds a value, with their
/// entries, in key order.
pub fn live_entries(keydir: &KeyDir) -> (v: Vec<(Vec<u8>, KeyDirEntry)>)
    requires
        keydir.wf(),
    ensures
        v@.len() == spec_live_pairs(keydir.key_seq(), keydir.entry_seq()).len(),
        forall|i: int|
            0 <= i < v@.len() ==> (#[trigger] v@[i]).0@ == spec_live_pairs(
                keydir.key_seq(),
                keydir.entry_seq(),
            )[i].0 && v@[i].1 == spec_live_pairs(keydir.key_seq(), keydir.entry_seq())[i].1,
{
    let all = keydir.iter();
    let n = keydir.len();
    let ghost ks = keydir.key_seq();
    let ghost es = keydir.entry_seq();
    let mut out: Vec<(Vec<u8>, KeyDirEntry)> = Vec::new();
    let mut i: usize = 0;
    while i < all.len()
        invariant
            i <= all@.len(),
            all@.len() == ks.len(),
            ks.len() == es.len(),
            forall|t: int|
                0 <= t < all@.len() ==> #[trigger] all@[t].0@ == ks[t] && all@[t].1 == es[t],
            out@.len() == spec_live_pairs(ks.take(i as int), es.take(i as int)).len(),
            forall|t: int|
                0 <= t < out@.len() ==> (#[trigger] out@[t]).0@ == spec_live_pairs(
                    ks.take(i as int),
                    es.take(i as int),
                )[t].0 && out@[t].1 == spec_live_pairs(ks.take(i as int), es.take(i as int))[t].1,
        decreases all@.len() - i,
    {
        let ghost before = spec_live_pairs(ks.take(i as int), es.take(i as int));
        proof {
            assert(all@[i as int].0@ == ks[i as int] && all@[i as int].1 == es[i as int]);
            assert(ks.take(i + 1).drop_last() =~= ks.take(i as int));
            assert(es.take(i + 1).drop_last() =~= es.take(i as int));
            assert(ks.take(i + 1).last() == ks[i as int]);
            assert(es.take(i + 1).last() == es[i as int]);
            assert(spec_live_pairs(ks.take(i + 1), es.take(i + 1)) == if es[i as int].is_tombstone {
                before
            } else {
                before.push((ks[i as int], es[i as int]))
            });
        }
        if !all[i].1.is_tombstone {
            let k = copy_range(all[i].0.as_slice(), 0, all[i].0.len());
            proof {
                assert(all@[i as int].0@.subrange(0, all@[i as int].0@.len() as int)
                    =~= all@[i as int].0@);
            }
            out.push((k, all[i].1));
        }
        i = i + 1;
    }
    proof {
        assert(ks.take(ks.len() as int) =~= ks);
        assert(es.take(es.len() as int) =~= es);
    }
    out
}

/// The live record for `key`, whose latest record (described by `entry`)
/// decoded to `decoded`: the decoded value with the entry's timestamp.
pub fn live_record(key: Vec<u8>, entry: &KeyDirEntry, decoded: DecodeResult) -> (r: LiveRecord)
    ensures
        r.key == key,
        r.value == decoded.record.value,
        r.timestamp == entry.timestamp,
{
    LiveRecord { key, value: decoded.record.value, timestamp: entry.timestamp }
}

/// The record that the merged output holds for a live record.
pub open spec fn spec_merged_record(key: Seq<u8>, value: Seq<u8>, timestamp: u64) -> RecordView {
    RecordView { timestamp, key, value, flags: RecordFlags::Normal }
}

/// The record written to the merged output for a live record: its key,
/// value and timestamp, as a normal (non-tombstone) record.
pub fn merged_record(live: LiveRecord) -> (r: Record)
    ensures
        r@ == spec_merged_record(live.key@, live.value@, live.timestamp),
{
    Record::new(live.timestamp, live.key, live.value, RecordFlags::Normal)
}

// ---- what a merge preserves -------------------------------------------------
/// The records a merge writes for the live keys `keys`, whose values are
/// `values`: each as a normal record with its KeyDir entry's timestamp.
pub open spec fn spec_merge_records(
    kd: Map<Seq<u8>, KeyDirEntry>,
    keys: Seq<Seq<u8>>,
    values: Seq<Seq<u8>>,
) -> Seq<RecordView> {
    Seq::new(keys.len(), |i: int| spec_merged_record(keys[i], values[i], kd[keys[i]].timestamp))
}

/// A merge keeps every read as it was: when `keys` lists each live key of
/// the KeyDir `kd` once, every live key reads back as its value in
/// `values`, and the merge writes their records, in order, split into
/// batches, batch `j` into the fresh data file `ids[j]`, then reading any
/// key from the merged files and the KeyDir the writes built gives what it
/// gave before the merge; the merged KeyDir holds exactly the live keys,
/// none of them as a tombstone.
pub proof fn law_merge_preserves_reads(
    files: Map<u32, Seq<u8>>,
    kd: Map<Seq<u8>, KeyDirEntry>,
    keys: Seq<Seq<u8>>,
    values: Seq<Seq<u8>>,
    ids: Seq<u32>,
    batches: Seq<Seq<RecordView>>,
    k: Seq<u8>,
)
    requires
        merge_inputs(files, kd, keys, values, ids, batches),
    ensures
        ({
            let (merged_files, merged_kd) = spec_merge_output(ids, batches);
            &&& spec_get(merged_files, merged_kd, k) == spec_get(files, kd, k)
            &&& merged_kd.contains_key(k) == keys.contains(k)
            &&& merged_kd.contains_key(k) ==> !merged_kd[k].is_tombstone
        }),
{
    let rs = spec_merge_records(kd, keys, values);
    batches.lemma_flatten_and_flatten_alt_are_equivalent();
    assert(batches.take(batches.len() as int) =~= batches);
    assert(ids.take(ids.len() as int) =~= ids);
    assert(all_normal(rs));
    assert(keys_distinct(rs)) by {
        assert forall|i: int, j: int| 0 <= i < j < rs.len() implies #[trigger] rs[i].key
            != #[trigger] rs[j].key by {
            assert(rs[i].key == keys[i]);
            assert(rs[j].key == keys[j]);
        }
    }
    lemma_write_files_reads(ids, batches, ids.len() as int, k);
    if keys.contains(k) {
        let i = choose|i: int| 0 <= i < keys.len() && keys[i] == k;
        assert(rs[i].key == k);
        assert(spec_get(files, kd, keys[i]) == Ok::<Option<Seq<u8>>, BitdbError>(
            Some(values[i]),
        ));
    } else {
        assert forall|i: int| 0 <= i < rs.len() implies #[trigger] rs[i].key != k by {
            assert(rs[i].key == keys[i]);
        }
        assert(!(spec_live_entry(kd, k) is Some));
    }
}


/// The files and the KeyDir that a merge writing `batches`, batch `j` into
/// the fresh data file `ids[j]`, leaves behind.
pub open spec fn spec_merge_output(ids: Seq<u32>, batches: Seq<Seq<RecordView>>) -> (
    Map<u32, Seq<u8>>,
    Map<Seq<u8>, KeyDirEntry>,
) {
    spec_write_files(empty_files(ids), Map::<Seq<u8>, KeyDirEntry>::empty(), ids, batches)
}

/// What a merge of the store (`files`, `kd`) reads and writes: `keys`
/// lists each live key once, `values` holds what each reads as, and the
/// merged records, in order, are split into `batches` for the distinct
/// fresh files `ids`, each batch small enough to address.
pub open spec fn merge_inputs(
    files: Map<u32, Seq<u8>>,
    kd: Map<Seq<u8>, KeyDirEntry>,
    keys: Seq<Seq<u8>>,
    values: Seq<Seq<u8>>,
    ids: Seq<u32>,
    batches: Seq<Seq<RecordView>>,
) -> bool {
    &&& keys.no_duplicates()
    &&& forall|key: Seq<u8>| (spec_live_entry(kd, key) is Some) <==> keys.contains(key)
    &&& values.len() == keys.len()
    &&& forall|i: int|
        0 <= i < keys.len() ==> spec_get(files, kd, #[trigger] keys[i]) == Ok::<
            Option<Seq<u8>>,
            BitdbError,
        >(Some(values[i]))
    &&& batches.flatten() == spec_merge_records(kd, keys, values)
    &&& ids.len() == batches.len()
    &&& ids.no_duplicates()
    &&& forall|j: int| 0 <= j < batches.len() ==> all_encodable(#[trigger] batches[j])
    &&& forall|j: int|
        0 <= j < batches.len() ==> (#[trigger] spec_encode_all(batches[j])).len() <= usize::MAX
}

/// A merge keeps the live keys and leaves no tombstone: the merged KeyDir's
/// live keys are the store's live keys, so the live count is unchanged,
/// and the tombstone count is zero.
pub proof fn law_merge_keeps_stats(
    files: Map<u32, Seq<u8>>,
    kd: Map<Seq<u8>, KeyDirEntry>,
    keys: Seq<Seq<u8>>,
    values: Seq<Seq<u8>>,
    ids: Seq<u32>,
    batches: Seq<Seq<RecordView>>,
)
    requires
        merge_inputs(files, kd, keys, values, ids, batches),
    ensures
        ({
            let merged_kd = spec_merge_output(ids, batches).1;
            &&& live_keys(merged_kd) == live_keys(kd)
            &&& tombstoned_keys(merged_kd) == Set::<Seq<u8>>::empty()
            &&& live_keys(merged_kd).len() == live_keys(kd).len()
            &&& tombstoned_keys(merged_kd).len() == 0
        }),
{
    let merged_kd = spec_merge_output(ids, batches).1;
    assert forall|k: Seq<u8>| live_keys(merged_kd).contains(k) == live_keys(kd).contains(k) by {
        law_merge_preserves_reads(files, kd, keys, values, ids, batches, k);
        assert(keys.contains(k) == (spec_live_entry(kd, k) is Some));
    }
    assert forall|k: Seq<u8>| !tombstoned_keys(merged_kd).contains(k) by {
        law_merge_preserves_reads(files, kd, keys, values, ids, batches, k);
    }
    assert(live_keys(merged_kd) =~= live_keys(kd));
    assert(tombstoned_keys(merged_kd) =~= Set::<Seq<u8>>::empty());
}

/// Merging twice changes nothing that the first merge did not: when the
/// merged store is merged again, by the same rules, every key reads as it
/// did before either merge, the live keys are those of the first merge,
/// and there is still no tombstone.
pub proof fn law_merge_twice(
    files: Map<u32, Seq<u8>>,
    kd: Map<Seq<u8>, KeyDirEntry>,
    keys: Seq<Seq<u8>>,
    values: Seq<Seq<u8>>,
    ids: Seq<u32>,
    batches: Seq<Seq<RecordView>>,
    keys2: Seq<Seq<u8>>,
    values2: Seq<Seq<u8>>,
    ids2: Seq<u32>,
    batches2: Seq<Seq<RecordView>>,
)
    requires
        merge_inputs(files, kd, keys, values, ids, batches),
        merge_inputs(
            spec_merge_output(ids, batches).0,
            spec_merge_output(ids, batches).1,
            keys2,
            values2,
            ids2,
            batches2,
        ),
    ensures
        ({
            let (files1, kd1) = spec_merge_output(ids, batches);
            let (files2, kd2) = spec_merge_output(ids2, batches2);
            &&& forall|k: Seq<u8>|
                #![trigger spec_get(files2, kd2, k)]
                spec_get(files2, kd2, k) == spec_get(files1, kd1, k) && spec_get(files2, kd2, k)
                    == spec_get(files, kd, k)
            &&& live_keys(kd2) == live_keys(kd1)
            &&& tombstoned_keys(kd2) == tombstoned_keys(kd1)
            &&& tombstoned_keys(kd2) == Set::<Seq<u8>>::empty()
        }),
{
    let (files1, kd1) = spec_merge_output(ids, batches);
    let (files2, kd2) = spec_merge_output(ids2, batches2);
    assert forall|k: Seq<u8>|
        #![trigger spec_get(files2, kd2, k)]
        spec_get(files2, kd2, k) == spec_get(files1, kd1, k) && spec_get(files2, kd2, k)
            == spec_get(files, kd, k) by {
        law_merge_preserves_reads(files, kd, keys, values, ids, batches, k);
        law_merge_preserves_reads(files1, kd1, keys2, values2, ids2, batches2, k);
    }
    law_merge_keeps_stats(files, kd, keys, values, ids, batches);
    law_merge_keeps_stats(files1, kd1, keys2, values2, ids2, batches2);
}

} // verus!
