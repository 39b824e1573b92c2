//! The store's state and decisions: which file takes the next record,
//! what the KeyDir says after each write, and which records a read must
//! decode.  The caller performs the file I/O that these decisions call
//! for.
use crate::config::Options;
use crate::error::BitdbError;
use crate::record::{encodable, law_decode_inverts_encode, lemma_decode_prefix, spec_decode_one, spec_encode, RecordFlags, RecordView};
use crate::index::keydir::{count_tombstones, live_keys, tombstoned_keys, KeyDir, KeyDirEntry};
use crate::config::CorruptionPolicy;
use crate::recovery::{law_hint_never_changes_scan, spec_hint_bytes_for, spec_scan_file, law_apply_scan_concat, rebuild_from_scans, record_entry, spec_apply_scan, spec_rebuild, spec_scan, ScanEntry, ScanEntryView};
use crate::record::lemma_encode_len;
use crate::storage::file_set::{FileCatalog, RecordLocation, saturating_sum, spec_active_id};
use crate::text::{push_decimal, push_str, spec_decimal, string_from};
use vstd::prelude::*;

verus! {

/// Counts of keys whose latest record holds a value and of keys whose
/// latest record is a tombstone.
#[derive(Copy, Clone, Debug, PartialEq, Eq, Structural)]
pub struct EngineStats {
    pub live_keys: usize,
    pub tombstones: usize,
}

/// Counts the live keys and the tombstones of a KeyDir.
pub fn stats_of(keydir: &KeyDir) -> (st: EngineStats)
    requires
        keydir.wf(),
    ensures
        st.live_keys == live_keys(keydir@).len(),
        st.tombstones == tombstoned_keys(keydir@).len(),
        st.live_keys + st.tombstones == keydir@.len(),
{
    let entries = keydir.values();
    let total = keydir.len();
    let mut live_keys: usize = 0;
    let mut tombstones: usize = 0;
    let mut i: usize = 0;
    while i < entries.len()
        invariant
            i <= entries@.len(),
            entries@ == keydir.entry_seq(),
            total == keydir.key_seq().len(),
            entries@.len() == total,
            tombstones == count_tombstones(entries@.subrange(0, i as int)),
            live_keys + tombstones == i,
        decreases entries@.len() - i,
    {
        proof {
            let p = entries@.subrange(0, i + 1);
            assert(p.drop_last() =~= entries@.subrange(0, i as int));
        }
        if entries[i].is_tombstone {
            tombstones = tombstones + 1;
        } else {
            live_keys = live_keys + 1;
        }
        i = i + 1;
    }
    proof {
        assert(entries@.subrange(0, entries@.len() as int) =~= entries@);
        keydir.lemma_counts();
    }
    EngineStats { live_keys, tombstones }
}

/// The line the command line prints for `stats`.
pub open spec fn spec_stats_report(st: EngineStats) -> Seq<char> {
    "live_keys="@ + spec_decimal(st.live_keys as nat) + " tombstones="@ + spec_decimal(
        st.tombstones as nat,
    )
}

/// The line the command line prints for `stats`, such as
/// `live_keys=2 tombstones=1`.
pub fn stats_report(st: EngineStats) -> (s: String)
    ensures
        s@ == spec_stats_report(st),
{
    let mut s = string_from("live_keys=");
    push_decimal(&mut s, st.live_keys as u64);
    push_str(&mut s, " tombstones=");
    push_decimal(&mut s, st.tombstones as u64);
    s
}

/// The KeyDir entry for a record written at `loc` with timestamp `ts`.
pub open spec fn spec_write_entry(loc: RecordLocation, ts: u64, tombstone: bool) -> KeyDirEntry {
    KeyDirEntry {
        file_id: loc.file_id,
        offset: loc.offset,
        size_bytes: loc.size_bytes,
        timestamp: ts,
        is_tombstone: tombstone,
    }
}

/// The entry a read must follow for `key`: none when the key is unknown
/// or its latest record is a tombstone.
pub open spec fn spec_live_entry(kd: Map<Seq<u8>, KeyDirEntry>, key: Seq<u8>) -> Option<
    KeyDirEntry,
> {
    if kd.contains_key(key) && !kd[key].is_tombstone {
        Some(kd[key])
    } else {
        None
    }
}

/// The store's catalog of data files and its KeyDir.
pub struct EngineCore {
    options: Options,
    catalog: FileCatalog,
    keydir: KeyDir,
}

impl EngineCore {
    /// The catalog and KeyDir are consistent.
    pub open spec fn wf(&self) -> bool {
        &&& self.spec_catalog().wf()
        &&& self.spec_keydir().wf()
        &&& self.spec_catalog().spec_max_size() == self.spec_options().max_data_file_size_bytes
    }

    pub closed spec fn spec_options(&self) -> Options {
        self.options
    }

    pub closed spec fn spec_catalog(&self) -> FileCatalog {
        self.catalog
    }

    pub closed spec fn spec_keydir(&self) -> KeyDir {
        self.keydir
    }

    /// The state of a store opened on a directory holding the data files
    /// `found`, whose active file is `active_len` bytes long, and whose
    /// files, oldest first, scanned to `scans`.
    pub fn open(options: Options, found: &[u32], active_len: u64, scans: &[Vec<ScanEntry>]) -> (e:
        Self)
        ensures
            e.wf(),
            e.spec_options() == options,
            e.spec_catalog().ids().to_set() == found@.to_set().insert(spec_active_id(found@)),
            e.spec_catalog().spec_active_id() == spec_active_id(found@),
            e.spec_catalog().spec_active_len() == active_len,
            e.spec_keydir()@ == spec_rebuild(
                scans@.map_values(|v: Vec<ScanEntry>| v@.map_values(|e: ScanEntry| e@)),
            ),
    {
        let catalog = FileCatalog::open(found, active_len, options.max_data_file_size_bytes);
        let keydir = rebuild_from_scans(scans);
        EngineCore { options, catalog, keydir }
    }

    pub fn options(&self) -> (o: Options)
        ensures
            o == self.spec_options(),
    {
        self.options
    }

    pub fn catalog(&self) -> (c: &FileCatalog)
        ensures
            *c == self.spec_catalog(),
    {
        &self.catalog
    }

    pub fn keydir(&self) -> (k: &KeyDir)
        ensures
            *k == self.spec_keydir(),
    {
        &self.keydir
    }

    /// Whether a record of `encoded_len` bytes must start a new data file.
    pub fn needs_rotation(&self, encoded_len: u64) -> (rotate: bool)
        requires
            self.wf(),
        ensures
            rotate == (self.spec_catalog().spec_active_len() != 0 && saturating_sum(
                self.spec_catalog().spec_active_len(),
                encoded_len,
            ) > self.spec_catalog().spec_max_size()),
    {
        self.catalog.needs_rotation(encoded_len)
    }

    /// Makes the next data file (holding `new_len` bytes) the active one.
    pub fn rotate(&mut self, new_len: u64)
        requires
            old(self).wf(),
            old(self).spec_catalog().spec_active_id() < u32::MAX,
        ensures
            final(self).wf(),
            final(self).spec_options() == old(self).spec_options(),
            final(self).spec_keydir() == old(self).spec_keydir(),
            final(self).spec_catalog().ids() == old(self).spec_catalog().ids().push(
                (old(self).spec_catalog().spec_active_id() + 1) as u32,
            ),
            final(self).spec_catalog().spec_active_id() == old(self).spec_catalog().spec_active_id()
                + 1,
            final(self).spec_catalog().spec_active_len() == new_len,
    {
        self.catalog.rotate(new_len);
    }

    /// Records that a record of `size` bytes for `key` (a tombstone when
    /// `tombstone`) with timestamp `ts` was appended to the active file:
    /// the KeyDir now points `key` at it.  Returns where it was written.
    pub fn commit_write(&mut self, key: Vec<u8>, ts: u64, tombstone: bool, size: u64) -> (loc:
        RecordLocation)
        requires
            old(self).wf(),
            old(self).spec_catalog().spec_active_len() + size <= u64::MAX,
        ensures
            final(self).wf(),
            final(self).spec_options() == old(self).spec_options(),
            loc.file_id == old(self).spec_catalog().spec_active_id(),
            loc.offset == old(self).spec_catalog().spec_active_len(),
            loc.size_bytes == size as u32,
            final(self).spec_catalog().ids() == old(self).spec_catalog().ids(),
            final(self).spec_catalog().spec_active_id() == old(self).spec_catalog().spec_active_id(),
            final(self).spec_catalog().spec_active_len() == old(self).spec_catalog().spec_active_len()
                + size,
            final(self).spec_keydir()@ == old(self).spec_keydir()@.insert(
                key@,
                spec_write_entry(loc, ts, tombstone),
            ),
    {
        let loc = self.catalog.record_append(size);
        let entry = KeyDirEntry {
            file_id: loc.file_id,
            offset: loc.offset,
            size_bytes: loc.size_bytes,
            timestamp: ts,
            is_tombstone: tombstone,
        };
        self.keydir.insert(key, entry);
        loc
    }

    /// The entry a read of `key` must follow, if the key holds a value.
    pub fn live_entry(&self, key: &[u8]) -> (r: Option<KeyDirEntry>)
        requires
            self.wf(),
        ensures
            r == spec_live_entry(self.spec_keydir()@, key@),
    {
        match self.keydir.get(key) {
            Some(e) => if e.is_tombstone {
                None
            } else {
                Some(*e)
            },
            None => None,
        }
    }

    /// Where a read of `key` must decode its value: nothing when the key
    /// holds no value, the entry when its data file is known, and
    /// `DataFileNotFound` when it is not.
    pub fn locate(&self, key: &[u8]) -> (r: Result<Option<KeyDirEntry>, BitdbError>)
        requires
            self.wf(),
        ensures
            r == match spec_live_entry(self.spec_keydir()@, key@) {
                None => Ok(None),
                Some(e) => if self.spec_catalog().ids().contains(e.file_id) {
                    Ok(Some(e))
                } else {
                    Err(BitdbError::DataFileNotFound(e.file_id))
                },
            },
    {
        match self.live_entry(key) {
            None => Ok(None),
            Some(e) => if self.catalog.contains(e.file_id) {
                Ok(Some(e))
            } else {
                Err(BitdbError::DataFileNotFound(e.file_id))
            },
        }
    }

    /// Whether the data file `file_id`, which a merge reads a live record
    /// from, is known: `DataFileNotFound` when it is not.
    pub fn check_known_file(&self, file_id: u32) -> (r: Result<(), BitdbError>)
        requires
            self.wf(),
        ensures
            r == if self.spec_catalog().ids().contains(file_id) {
                Ok::<(), BitdbError>(())
            } else {
                Err(BitdbError::DataFileNotFound(file_id))
            },
    {
        if self.catalog.contains(file_id) {
            Ok(())
        } else {
            Err(BitdbError::DataFileNotFound(file_id))
        }
    }

    /// The live key and tombstone counts.
    pub fn stats(&self) -> (st: EngineStats)
        requires
            self.wf(),
        ensures
            st.live_keys == live_keys(self.spec_keydir()@).len(),
            st.tombstones == tombstoned_keys(self.spec_keydir()@).len(),
            st.live_keys + st.tombstones == self.spec_keydir()@.len(),
    {
        stats_of(&self.keydir)
    }
}

// ---- the store as a mathematical object -------------------------------------
/// The bytes of `file` from `offset` on (none when `offset` is past its end).
pub open spec fn bytes_from(file: Seq<u8>, offset: int) -> Seq<u8> {
    if 0 <= offset <= file.len() {
        file.subrange(offset, file.len() as int)
    } else {
        Seq::empty()
    }
}

/// What a read of `key` returns, given the contents of the data files and
/// the KeyDir: nothing for an unknown or deleted key, otherwise the value
/// of the record the KeyDir points at, or the error reading it gives.
pub open spec fn spec_get(
    files: Map<u32, Seq<u8>>,
    kd: Map<Seq<u8>, KeyDirEntry>,
    key: Seq<u8>,
) -> Result<Option<Seq<u8>>, BitdbError> {
    match spec_live_entry(kd, key) {
        None => Ok(None),
        Some(e) => if !files.contains_key(e.file_id) {
            Err(BitdbError::DataFileNotFound(e.file_id))
        } else {
            match spec_decode_one(bytes_from(files[e.file_id], e.offset as int)) {
                Ok((r, _)) => Ok(Some(r.value)),
                Err(err) => Err(err),
            }
        },
    }
}

/// The data files after `bytes` are appended to file `id`.
pub open spec fn spec_append(files: Map<u32, Seq<u8>>, id: u32, bytes: Seq<u8>) -> Map<
    u32,
    Seq<u8>,
> {
    files.insert(id, files[id] + bytes)
}

/// The store after writing record `r` at `loc`: its encoding appended to
/// the file, and the KeyDir pointing its key at it.
pub open spec fn spec_write(
    files: Map<u32, Seq<u8>>,
    kd: Map<Seq<u8>, KeyDirEntry>,
    loc: RecordLocation,
    r: RecordView,
) -> (Map<u32, Seq<u8>>, Map<Seq<u8>, KeyDirEntry>) {
    (
        spec_append(files, loc.file_id, spec_encode(r)),
        kd.insert(r.key, spec_write_entry(loc, r.timestamp, r.flags == RecordFlags::Tombstone)),
    )
}

/// A read gives back what a write wrote: after writing a value for a key
/// at the end of a data file, reading the key returns that value.
pub proof fn law_get_after_put(
    files: Map<u32, Seq<u8>>,
    kd: Map<Seq<u8>, KeyDirEntry>,
    loc: RecordLocation,
    r: RecordView,
)
    requires
        files.contains_key(loc.file_id),
        files[loc.file_id].len() == loc.offset,
        encodable(r),
        r.flags == RecordFlags::Normal,
    ensures
        ({
            let (files2, kd2) = spec_write(files, kd, loc, r);
            spec_get(files2, kd2, r.key) == Ok::<Option<Seq<u8>>, BitdbError>(Some(r.value))
        }),
{
    let (files2, kd2) = spec_write(files, kd, loc, r);
    let file2 = files2[loc.file_id];
    assert(bytes_from(file2, loc.offset as int) =~= spec_encode(r) + Seq::<u8>::empty());
    law_decode_inverts_encode(r, Seq::empty());
}

/// A deleted key reads as absent: after writing a tombstone for a key,
/// reading it returns nothing.
pub proof fn law_get_after_delete(
    files: Map<u32, Seq<u8>>,
    kd: Map<Seq<u8>, KeyDirEntry>,
    loc: RecordLocation,
    r: RecordView,
)
    requires
        r.flags == RecordFlags::Tombstone,
    ensures
        ({
            let (files2, kd2) = spec_write(files, kd, loc, r);
            spec_get(files2, kd2, r.key) == Ok::<Option<Seq<u8>>, BitdbError>(None)
        }),
{
}

/// Writing one key leaves the reads of every other key as they were,
/// whenever those reads succeeded.
pub proof fn law_write_keeps_other_keys(
    files: Map<u32, Seq<u8>>,
    kd: Map<Seq<u8>, KeyDirEntry>,
    loc: RecordLocation,
    r: RecordView,
    other: Seq<u8>,
)
    requires
        files.contains_key(loc.file_id),
        other != r.key,
        spec_get(files, kd, other) is Ok,
    ensures
        ({
            let (files2, kd2) = spec_write(files, kd, loc, r);
            spec_get(files2, kd2, other) == spec_get(files, kd, other)
        }),
{
    let (files2, kd2) = spec_write(files, kd, loc, r);
    assert(spec_live_entry(kd2, other) == spec_live_entry(kd, other));
    if let Some(e) = spec_live_entry(kd, other) {
        if e.file_id == loc.file_id {
            let old_file = files[e.file_id];
            let x = bytes_from(old_file, e.offset as int);
            if e.offset <= old_file.len() {
                assert(bytes_from(files2[e.file_id], e.offset as int) =~= x + spec_encode(r));
                lemma_decode_prefix(x, spec_encode(r));
            } else {
                assert(spec_decode_one(x) is Err);
            }
        }
    }
}

/// Writing a value for a key makes it live: the live keys gain it and the
/// tombstoned keys lose it, so the live count grows by one exactly when
/// the key was absent or deleted, and the tombstone count shrinks by one
/// exactly when it was deleted.
pub proof fn law_stats_after_put(
    files: Map<u32, Seq<u8>>,
    kd: Map<Seq<u8>, KeyDirEntry>,
    loc: RecordLocation,
    r: RecordView,
)
    requires
        kd.dom().finite(),
        r.flags == RecordFlags::Normal,
    ensures
        ({
            let kd2 = spec_write(files, kd, loc, r).1;
            &&& live_keys(kd2) == live_keys(kd).insert(r.key)
            &&& tombstoned_keys(kd2) == tombstoned_keys(kd).remove(r.key)
            &&& live_keys(kd2).len() == live_keys(kd).len() + if live_keys(kd).contains(r.key) {
                0int
            } else {
                1int
            }
            &&& tombstoned_keys(kd2).len() == tombstoned_keys(kd).len() - if tombstoned_keys(
                kd,
            ).contains(r.key) {
                1int
            } else {
                0int
            }
        }),
{
    let kd2 = spec_write(files, kd, loc, r).1;
    lemma_stats_sets_finite(kd);
    assert(live_keys(kd2) =~= live_keys(kd).insert(r.key));
    assert(tombstoned_keys(kd2) =~= tombstoned_keys(kd).remove(r.key));
}

/// Deleting a key makes it a tombstone: the live keys lose it and the
/// tombstoned keys gain it, so a live key moves from one count to the
/// other, an unknown key adds a tombstone, and a deleted key changes
/// nothing.
pub proof fn law_stats_after_delete(
    files: Map<u32, Seq<u8>>,
    kd: Map<Seq<u8>, KeyDirEntry>,
    loc: RecordLocation,
    r: RecordView,
)
    requires
        kd.dom().finite(),
        r.flags == RecordFlags::Tombstone,
    ensures
        ({
            let kd2 = spec_write(files, kd, loc, r).1;
            &&& live_keys(kd2) == live_keys(kd).remove(r.key)
            &&& tombstoned_keys(kd2) == tombstoned_keys(kd).insert(r.key)
            &&& live_keys(kd2).len() == live_keys(kd).len() - if live_keys(kd).contains(r.key) {
                1int
            } else {
                0int
            }
            &&& tombstoned_keys(kd2).len() == tombstoned_keys(kd).len() + if tombstoned_keys(
                kd,
            ).contains(r.key) {
                0int
            } else {
                1int
            }
        }),
{
    let kd2 = spec_write(files, kd, loc, r).1;
    lemma_stats_sets_finite(kd);
    assert(live_keys(kd2) =~= live_keys(kd).remove(r.key));
    assert(tombstoned_keys(kd2) =~= tombstoned_keys(kd).insert(r.key));
}

proof fn lemma_stats_sets_finite(kd: Map<Seq<u8>, KeyDirEntry>)
    requires
        kd.dom().finite(),
    ensures
        live_keys(kd).finite(),
        tombstoned_keys(kd).finite(),
{
    kd.dom().lemma_len_filter(|k: Seq<u8>| !kd[k].is_tombstone);
    kd.dom().lemma_len_filter(|k: Seq<u8>| kd[k].is_tombstone);
}

/// A record reads back from where it was written however many bytes were
/// appended to its file afterwards.
pub proof fn law_read_back_after_appends(file: Seq<u8>, r: RecordView, more: Seq<u8>)
    requires
        encodable(r),
    ensures
        spec_decode_one(bytes_from(file + spec_encode(r) + more, file.len() as int)) == Ok::<
            (RecordView, nat),
            BitdbError,
        >((r, spec_encode(r).len())),
{
    let all = file + spec_encode(r) + more;
    assert(bytes_from(all, file.len() as int) =~= spec_encode(r) + more);
    law_decode_inverts_encode(r, more);
}

// ---- reopening a store ----------------------------------------------------
/// The encodings of `rs`, one after another.
pub open spec fn spec_encode_all(rs: Seq<RecordView>) -> Seq<u8>
    decreases rs.len(),
{
    if rs.len() == 0 {
        Seq::empty()
    } else {
        spec_encode(rs[0]) + spec_encode_all(rs.drop_first())
    }
}

/// What scanning the encodings of `rs`, stored in file `file_id` from
/// `base` on, finds: each record at the offset where it was written.
pub open spec fn spec_records_scan(file_id: u32, rs: Seq<RecordView>, base: int) -> Seq<
    ScanEntryView,
>
    decreases rs.len(),
{
    if rs.len() == 0 {
        Seq::empty()
    } else {
        let n = spec_encode(rs[0]).len();
        seq![
            ScanEntryView {
                file_id,
                offset: base as u64,
                entry: record_entry(file_id, base, rs[0], n),
                key: rs[0].key,
            },
        ] + spec_records_scan(file_id, rs.drop_first(), base + n)
    }
}

/// Whether every record of `rs` is encodable.
pub open spec fn all_encodable(rs: Seq<RecordView>) -> bool {
    forall|i: int| 0 <= i < rs.len() ==> encodable(#[trigger] rs[i])
}

/// Where the next record goes when it is appended to file `file_id`.
pub open spec fn spec_next_location(files: Map<u32, Seq<u8>>, file_id: u32, r: RecordView) -> RecordLocation {
    RecordLocation {
        file_id,
        offset: files[file_id].len() as u64,
        size_bytes: spec_encode(r).len() as u32,
    }
}

/// The store after writing `rs`, in order, each at the end of file
/// `file_id`.
pub open spec fn spec_write_all(
    files: Map<u32, Seq<u8>>,
    kd: Map<Seq<u8>, KeyDirEntry>,
    file_id: u32,
    rs: Seq<RecordView>,
) -> (Map<u32, Seq<u8>>, Map<Seq<u8>, KeyDirEntry>)
    decreases rs.len(),
{
    if rs.len() == 0 {
        (files, kd)
    } else {
        let (f2, k2) = spec_write(files, kd, spec_next_location(files, file_id, rs[0]), rs[0]);
        spec_write_all(f2, k2, file_id, rs.drop_first())
    }
}

pub(crate) proof fn lemma_all_encodable_rest(rs: Seq<RecordView>)
    requires
        all_encodable(rs),
        rs.len() > 0,
    ensures
        all_encodable(rs.drop_first()),
        encodable(rs[0]),
{
    assert forall|i: int| 0 <= i < rs.drop_first().len() implies encodable(
        #[trigger] rs.drop_first()[i],
    ) by {
        assert(rs.drop_first()[i] == rs[i + 1]);
    }
}

/// Scanning a file that holds exactly the encodings of some records (after
/// any prefix) finds exactly those records, at the offsets they were
/// written to, whatever the corruption policy.
pub proof fn law_scan_finds_written_records(
    file_id: u32,
    p: Seq<u8>,
    rs: Seq<RecordView>,
    policy: CorruptionPolicy,
)
    requires
        all_encodable(rs),
        p.len() + spec_encode_all(rs).len() <= usize::MAX,
    ensures
        spec_scan(file_id, p + spec_encode_all(rs), p.len() as int, policy) == Ok::<
            Seq<ScanEntryView>,
            BitdbError,
        >(spec_records_scan(file_id, rs, p.len() as int)),
    decreases rs.len(),
{
    let bytes = p + spec_encode_all(rs);
    if rs.len() == 0 {
        assert(bytes.len() == p.len());
    } else {
        lemma_all_encodable_rest(rs);
        let r0 = rs[0];
        let rest = rs.drop_first();
        let e0 = spec_encode(r0);
        lemma_encode_len(r0);
        assert(bytes.subrange(p.len() as int, bytes.len() as int) =~= e0 + spec_encode_all(rest));
        law_decode_inverts_encode(r0, spec_encode_all(rest));
        assert(bytes =~= (p + e0) + spec_encode_all(rest));
        law_scan_finds_written_records(file_id, p + e0, rest, policy);
    }
}

/// A damaged record stops a scan according to the corruption policy: after
/// any number of well-formed records, a record whose checksum, magic,
/// version or flags is wrong makes the scan fail with exactly that error
/// under `Fail`, and ends it under `SkipCorruptedTail`, which keeps the
/// well-formed records before it and nothing from the damaged one on.
pub proof fn law_damaged_record_stops_scan(
    file_id: u32,
    p: Seq<u8>,
    rs: Seq<RecordView>,
    tail: Seq<u8>,
    e: BitdbError,
)
    requires
        all_encodable(rs),
        p.len() + spec_encode_all(rs).len() + tail.len() <= usize::MAX,
        tail.len() > 0,
        spec_decode_one(tail) == Err::<(RecordView, nat), BitdbError>(e),
        e.spec_is_corruption(),
    ensures
        spec_scan(file_id, p + spec_encode_all(rs) + tail, p.len() as int, CorruptionPolicy::Fail)
            == Err::<Seq<ScanEntryView>, BitdbError>(e),
        spec_scan(
            file_id,
            p + spec_encode_all(rs) + tail,
            p.len() as int,
            CorruptionPolicy::SkipCorruptedTail,
        ) == Ok::<Seq<ScanEntryView>, BitdbError>(spec_records_scan(file_id, rs, p.len() as int)),
    decreases rs.len(),
{
    lemma_scan_stops_at_tail(file_id, p, rs, tail, CorruptionPolicy::Fail);
    lemma_scan_stops_at_tail(file_id, p, rs, tail, CorruptionPolicy::SkipCorruptedTail);
    assert(tail.subrange(0, tail.len() as int) =~= tail);
    assert(e != BitdbError::TruncatedRecord);
    let found = spec_records_scan(file_id, rs, p.len() as int);
    assert(found + Seq::<ScanEntryView>::empty() =~= found);
}

/// A record cut short ends a scan under every policy: after any number of
/// well-formed records, a final record whose bytes stop early (an
/// unfinished write) is left out and the scan succeeds with the records
/// before it.
pub proof fn law_cut_record_ends_scan(
    file_id: u32,
    p: Seq<u8>,
    rs: Seq<RecordView>,
    tail: Seq<u8>,
    policy: CorruptionPolicy,
)
    requires
        all_encodable(rs),
        p.len() + spec_encode_all(rs).len() + tail.len() <= usize::MAX,
        spec_decode_one(tail) == Err::<(RecordView, nat), BitdbError>(BitdbError::TruncatedRecord),
    ensures
        spec_scan(file_id, p + spec_encode_all(rs) + tail, p.len() as int, policy) == Ok::<
            Seq<ScanEntryView>,
            BitdbError,
        >(spec_records_scan(file_id, rs, p.len() as int)),
{
    lemma_scan_stops_at_tail(file_id, p, rs, tail, policy);
    assert(tail.subrange(0, tail.len() as int) =~= tail);
    let found = spec_records_scan(file_id, rs, p.len() as int);
    assert(found + Seq::<ScanEntryView>::empty() =~= found);
}

/// Scanning well-formed records followed by bytes that do not decode finds
/// the records, then does what the decode error calls for at the tail.
proof fn lemma_scan_stops_at_tail(
    file_id: u32,
    p: Seq<u8>,
    rs: Seq<RecordView>,
    tail: Seq<u8>,
    policy: CorruptionPolicy,
)
    requires
        all_encodable(rs),
        p.len() + spec_encode_all(rs).len() + tail.len() <= usize::MAX,
        spec_decode_one(tail) is Err,
    ensures
        ({
            let bytes = p + spec_encode_all(rs) + tail;
            let at_tail = spec_scan(file_id, bytes, (p.len() + spec_encode_all(rs).len()) as int, policy);
            &&& at_tail == spec_scan(file_id, tail, 0, policy)
            &&& spec_scan(file_id, bytes, p.len() as int, policy) == match at_tail {
                Ok(t) => Ok::<Seq<ScanEntryView>, BitdbError>(
                    spec_records_scan(file_id, rs, p.len() as int) + t,
                ),
                Err(err) => Err(err),
            }
        }),
    decreases rs.len(),
{
    let bytes = p + spec_encode_all(rs) + tail;
    let k: int = (p.len() + spec_encode_all(rs).len()) as int;
    assert(bytes.subrange(k, bytes.len() as int) =~= tail);
    if tail.len() > 0 {
        assert(tail.subrange(0, tail.len() as int) =~= tail);
    }
    if rs.len() == 0 {
        assert(spec_records_scan(file_id, rs, p.len() as int) =~= Seq::<ScanEntryView>::empty());
        match spec_scan(file_id, bytes, p.len() as int, policy) {
            Ok(t) => {
                assert(Seq::<ScanEntryView>::empty() + t =~= t);
            },
            Err(_) => {},
        }
    } else {
        lemma_all_encodable_rest(rs);
        let r0 = rs[0];
        let rest = rs.drop_first();
        let e0 = spec_encode(r0);
        lemma_encode_len(r0);
        assert(bytes.subrange(p.len() as int, bytes.len() as int) =~= e0 + (spec_encode_all(rest)
            + tail));
        law_decode_inverts_encode(r0, spec_encode_all(rest) + tail);
        assert(bytes =~= (p + e0) + spec_encode_all(rest) + tail);
        lemma_scan_stops_at_tail(file_id, p + e0, rest, tail, policy);
        let n = e0.len();
        let q: int = (p.len() + n) as int;
        match spec_scan(file_id, bytes, q, policy) {
            Ok(t) => {
                let first = seq![
                    ScanEntryView {
                        file_id,
                        offset: p.len() as u64,
                        entry: record_entry(file_id, p.len() as int, r0, n),
                        key: r0.key,
                    },
                ];
                assert(spec_records_scan(file_id, rs, p.len() as int) == first
                    + spec_records_scan(file_id, rest, q));
                match spec_scan(file_id, bytes, k, policy) {
                    Ok(tt) => {
                        assert(first + (spec_records_scan(file_id, rest, q) + tt) =~= (
                        first + spec_records_scan(file_id, rest, q)) + tt);
                    },
                    Err(_) => {},
                }
            },
            Err(_) => {},
        }
    }
}

/// Writing records in order at the end of a file appends their encodings
/// and builds the KeyDir that applying their scan entries builds.
pub(crate) proof fn lemma_write_all_is_scan(
    files: Map<u32, Seq<u8>>,
    kd: Map<Seq<u8>, KeyDirEntry>,
    file_id: u32,
    rs: Seq<RecordView>,
)
    requires
        files.contains_key(file_id),
        all_encodable(rs),
        files[file_id].len() + spec_encode_all(rs).len() <= u64::MAX,
    ensures
        ({
            let (f2, k2) = spec_write_all(files, kd, file_id, rs);
            &&& f2 == files.insert(file_id, files[file_id] + spec_encode_all(rs))
            &&& k2 == spec_apply_scan(
                kd,
                spec_records_scan(file_id, rs, files[file_id].len() as int),
            )
        }),
    decreases rs.len(),
{
    if rs.len() == 0 {
        assert(files[file_id] + spec_encode_all(rs) =~= files[file_id]);
        assert(files.insert(file_id, files[file_id]) =~= files);
    } else {
        lemma_all_encodable_rest(rs);
        let r0 = rs[0];
        let rest = rs.drop_first();
        lemma_encode_len(r0);
        let loc = spec_next_location(files, file_id, r0);
        let (f1, k1) = spec_write(files, kd, loc, r0);
        lemma_write_all_is_scan(f1, k1, file_id, rest);
        assert(f1[file_id] + spec_encode_all(rest) =~= files[file_id] + spec_encode_all(rs));
        assert(f1.insert(file_id, f1[file_id] + spec_encode_all(rest)) =~= files.insert(
            file_id,
            files[file_id] + spec_encode_all(rs),
        ));
        let base = files[file_id].len() as int;
        let n = spec_encode(r0).len();
        let first = ScanEntryView {
            file_id,
            offset: base as u64,
            entry: record_entry(file_id, base, r0, n),
            key: r0.key,
        };
        let all = spec_records_scan(file_id, rs, base);
        let tail = spec_records_scan(file_id, rest, base + n);
        assert(all == seq![first] + tail);
        assert(k1 == spec_apply_scan(kd, seq![first])) by {
            assert(seq![first].drop_last() =~= Seq::<ScanEntryView>::empty());
            assert(spec_apply_scan(kd, Seq::<ScanEntryView>::empty()) == kd);
            assert(seq![first].last() == first);
            assert(spec_write_entry(loc, r0.timestamp, r0.flags == RecordFlags::Tombstone)
                == first.entry);
        }
        law_apply_scan_concat(kd, seq![first], tail);
    }
}

/// The store after writing each batch of records, in order, at the end of
/// its data file: batch `j` goes to file `ids[j]`.
pub open spec fn spec_write_files(
    files: Map<u32, Seq<u8>>,
    kd: Map<Seq<u8>, KeyDirEntry>,
    ids: Seq<u32>,
    batches: Seq<Seq<RecordView>>,
) -> (Map<u32, Seq<u8>>, Map<Seq<u8>, KeyDirEntry>)
    decreases ids.len(),
{
    if ids.len() == 0 || batches.len() == 0 {
        (files, kd)
    } else {
        let (f, k) = spec_write_files(files, kd, ids.drop_last(), batches.drop_last());
        spec_write_all(f, k, ids.last(), batches.last())
    }
}

/// Empty data files with the ids `ids`.
pub open spec fn empty_files(ids: Seq<u32>) -> Map<u32, Seq<u8>> {
    Map::new(|id: u32| ids.contains(id), |id: u32| Seq::<u8>::empty())
}

/// What scanning each data file finds, when file `ids[j]` holds batch `j`.
pub open spec fn spec_batch_scans(ids: Seq<u32>, batches: Seq<Seq<RecordView>>) -> Seq<
    Seq<ScanEntryView>,
> {
    Seq::new(ids.len(), |j: int| spec_records_scan(ids[j], batches[j], 0))
}

proof fn lemma_write_files(ids: Seq<u32>, batches: Seq<Seq<RecordView>>, n: int)
    requires
        0 <= n <= ids.len(),
        ids.len() == batches.len(),
        ids.no_duplicates(),
        forall|j: int| 0 <= j < batches.len() ==> all_encodable(#[trigger] batches[j]),
        forall|j: int|
            0 <= j < batches.len() ==> (#[trigger] spec_encode_all(batches[j])).len() <= usize::MAX,
    ensures
        ({
            let (files, kd) = spec_write_files(
                empty_files(ids),
                Map::<Seq<u8>, KeyDirEntry>::empty(),
                ids.take(n),
                batches.take(n),
            );
            &&& files.dom() == empty_files(ids).dom()
            &&& forall|j: int| 0 <= j < n ==> files[#[trigger] ids[j]] == spec_encode_all(batches[j])
            &&& forall|j: int| n <= j < ids.len() ==> files[#[trigger] ids[j]] == Seq::<u8>::empty()
            &&& kd == spec_rebuild(spec_batch_scans(ids, batches).take(n))
        }),
    decreases n,
{
    let f0 = empty_files(ids);
    let k0 = Map::<Seq<u8>, KeyDirEntry>::empty();
    if n == 0 {
        assert(spec_batch_scans(ids, batches).take(0) =~= Seq::<Seq<ScanEntryView>>::empty());
        assert forall|j: int| 0 <= j < ids.len() implies f0[#[trigger] ids[j]] == Seq::<
            u8,
        >::empty() by {
            assert(ids.contains(ids[j]));
        }
    } else {
        lemma_write_files(ids, batches, n - 1);
        assert(ids.take(n).drop_last() =~= ids.take(n - 1));
        assert(batches.take(n).drop_last() =~= batches.take(n - 1));
        let (f1, k1) = spec_write_files(f0, k0, ids.take(n - 1), batches.take(n - 1));
        let id = ids[n - 1];
        let b = batches[n - 1];
        assert(ids.contains(id));
        assert(f1.contains_key(id));
        lemma_write_all_is_scan(f1, k1, id, b);
        let (f2, k2) = spec_write_all(f1, k1, id, b);
        assert(f2 == f1.insert(id, f1[id] + spec_encode_all(b)));
        assert(f1[id] + spec_encode_all(b) =~= spec_encode_all(b));
        assert(f2.dom() =~= f0.dom());
        assert forall|j: int| 0 <= j < n implies f2[#[trigger] ids[j]] == spec_encode_all(
            batches[j],
        ) by {
            if j < n - 1 {
                assert(ids[j] != id);
            }
        }
        assert forall|j: int| n <= j < ids.len() implies f2[#[trigger] ids[j]] == Seq::<
            u8,
        >::empty() by {
            assert(ids[j] != id);
        }
        let scans = spec_batch_scans(ids, batches);
        assert(scans.take(n).drop_last() =~= scans.take(n - 1));
        assert(scans.take(n).last() == spec_records_scan(id, b, 0));
    }
}

/// Whether no two records of `rs` have the same key.
pub open spec fn keys_distinct(rs: Seq<RecordView>) -> bool {
    forall|i: int, j: int| 0 <= i < j < rs.len() ==> #[trigger] rs[i].key != #[trigger] rs[j].key
}

/// Whether every record of `rs` holds a value.
pub open spec fn all_normal(rs: Seq<RecordView>) -> bool {
    forall|i: int| 0 <= i < rs.len() ==> (#[trigger] rs[i]).flags == RecordFlags::Normal
}

/// Writing records with distinct keys at the end of a file: each written
/// key reads back as its record's value (and is no tombstone), every other
/// key reads as before.
pub(crate) proof fn lemma_write_all_reads(
    files: Map<u32, Seq<u8>>,
    kd: Map<Seq<u8>, KeyDirEntry>,
    fid: u32,
    rs: Seq<RecordView>,
    k: Seq<u8>,
)
    requires
        files.contains_key(fid),
        all_encodable(rs),
        all_normal(rs),
        keys_distinct(rs),
        files[fid].len() + spec_encode_all(rs).len() <= u64::MAX,
        spec_get(files, kd, k) is Ok,
    ensures
        ({
            let (f2, k2) = spec_write_all(files, kd, fid, rs);
            &&& f2 == files.insert(fid, files[fid] + spec_encode_all(rs))
            &&& forall|i: int|
                0 <= i < rs.len() && #[trigger] rs[i].key == k ==> {
                    &&& spec_get(f2, k2, k) == Ok::<Option<Seq<u8>>, BitdbError>(Some(rs[i].value))
                    &&& k2.contains_key(k)
                    &&& !k2[k].is_tombstone
                }
            &&& (forall|i: int| 0 <= i < rs.len() ==> #[trigger] rs[i].key != k) ==> {
                &&& spec_get(f2, k2, k) == spec_get(files, kd, k)
                &&& k2.contains_key(k) == kd.contains_key(k)
                &&& kd.contains_key(k) ==> k2[k] == kd[k]
            }
        }),
    decreases rs.len(),
{
    lemma_write_all_is_scan(files, kd, fid, rs);
    if rs.len() > 0 {
        lemma_all_encodable_rest(rs);
        let r0 = rs[0];
        let rest = rs.drop_first();
        let loc = spec_next_location(files, fid, r0);
        let (f1, k1) = spec_write(files, kd, loc, r0);
        assert(spec_encode_all(rs) == spec_encode(r0) + spec_encode_all(rest));
        assert(f1[fid] == files[fid] + spec_encode(r0));
        assert(all_normal(rest)) by {
            assert forall|i: int| 0 <= i < rest.len() implies (#[trigger] rest[i]).flags
                == RecordFlags::Normal by {
                assert(rest[i] == rs[i + 1]);
            }
        }
        assert(keys_distinct(rest)) by {
            assert forall|i: int, j: int| 0 <= i < j < rest.len() implies #[trigger] rest[i].key
                != #[trigger] rest[j].key by {
                assert(rest[i] == rs[i + 1]);
                assert(rest[j] == rs[j + 1]);
            }
        }
        assert(r0.flags == RecordFlags::Normal);
        if k == r0.key {
            law_get_after_put(files, kd, loc, r0);
            assert forall|j: int| 0 <= j < rest.len() implies #[trigger] rest[j].key != k by {
                assert(rest[j] == rs[j + 1]);
            }
            lemma_write_all_reads(f1, k1, fid, rest, k);
            assert forall|i: int| 0 <= i < rs.len() && #[trigger] rs[i].key == k implies i == 0 by {
                if i > 0 {
                    assert(rs[0].key != rs[i].key);
                }
            }
        } else {
            law_write_keeps_other_keys(files, kd, loc, r0, k);
            lemma_write_all_reads(f1, k1, fid, rest, k);
            assert forall|i: int| 0 <= i < rs.len() && #[trigger] rs[i].key == k implies rest[i - 1]
                == rs[i] by {}
            if forall|i: int| 0 <= i < rs.len() ==> #[trigger] rs[i].key != k {
                assert forall|j: int| 0 <= j < rest.len() implies #[trigger] rest[j].key != k by {
                    assert(rest[j] == rs[j + 1]);
                }
            }
        }
    }
}

/// Writing batches of records, batch `j` at the end of the fresh file
/// `ids[j]`, when no key occurs twice: each written key reads back as its
/// record's value (and is no tombstone), and every other key is absent.
pub(crate) proof fn lemma_write_files_reads(
    ids: Seq<u32>,
    batches: Seq<Seq<RecordView>>,
    n: int,
    k: Seq<u8>,
)
    requires
        0 <= n <= ids.len(),
        ids.len() == batches.len(),
        ids.no_duplicates(),
        forall|j: int| 0 <= j < batches.len() ==> all_encodable(#[trigger] batches[j]),
        forall|j: int|
            0 <= j < batches.len() ==> (#[trigger] spec_encode_all(batches[j])).len() <= usize::MAX,
        all_normal(batches.take(n).flatten_alt()),
        keys_distinct(batches.take(n).flatten_alt()),
    ensures
        ({
            let (files, kd) = spec_write_files(
                empty_files(ids),
                Map::<Seq<u8>, KeyDirEntry>::empty(),
                ids.take(n),
                batches.take(n),
            );
            let w = batches.take(n).flatten_alt();
            &&& forall|i: int|
                0 <= i < w.len() && #[trigger] w[i].key == k ==> {
                    &&& spec_get(files, kd, k) == Ok::<Option<Seq<u8>>, BitdbError>(Some(w[i].value))
                    &&& kd.contains_key(k)
                    &&& !kd[k].is_tombstone
                }
            &&& (forall|i: int| 0 <= i < w.len() ==> #[trigger] w[i].key != k) ==> {
                &&& spec_get(files, kd, k) == Ok::<Option<Seq<u8>>, BitdbError>(None)
                &&& !kd.contains_key(k)
            }
        }),
    decreases n,
{
    let f0 = empty_files(ids);
    let k0 = Map::<Seq<u8>, KeyDirEntry>::empty();
    if n == 0 {
        assert(batches.take(0) =~= Seq::<Seq<RecordView>>::empty());
        assert(ids.take(0) =~= Seq::<u32>::empty());
    } else {
        let w = batches.take(n).flatten_alt();
        let prev = batches.take(n - 1).flatten_alt();
        let b = batches[n - 1];
        let id = ids[n - 1];
        assert(batches.take(n).drop_last() =~= batches.take(n - 1));
        assert(ids.take(n).drop_last() =~= ids.take(n - 1));
        assert(batches.take(n).last() == b);
        assert(ids.take(n).last() == id);
        assert(w == prev + b);
        assert(all_normal(prev)) by {
            assert forall|i: int| 0 <= i < prev.len() implies (#[trigger] prev[i]).flags
                == RecordFlags::Normal by {
                assert(w[i] == prev[i]);
            }
        }
        assert(keys_distinct(prev)) by {
            assert forall|i: int, j: int| 0 <= i < j < prev.len() implies #[trigger] prev[i].key
                != #[trigger] prev[j].key by {
                assert(w[i] == prev[i]);
                assert(w[j] == prev[j]);
            }
        }
        assert(all_normal(b)) by {
            assert forall|i: int| 0 <= i < b.len() implies (#[trigger] b[i]).flags
                == RecordFlags::Normal by {
                assert(w[prev.len() + i] == b[i]);
            }
        }
        assert(keys_distinct(b)) by {
            assert forall|i: int, j: int| 0 <= i < j < b.len() implies #[trigger] b[i].key
                != #[trigger] b[j].key by {
                assert(w[prev.len() + i] == b[i]);
                assert(w[prev.len() + j] == b[j]);
            }
        }
        lemma_write_files_reads(ids, batches, n - 1, k);
        lemma_write_files(ids, batches, n - 1);
        let (f1, k1) = spec_write_files(f0, k0, ids.take(n - 1), batches.take(n - 1));
        assert(f1[ids[n - 1]] == Seq::<u8>::empty());
        assert(f1.contains_key(id)) by {
            assert(ids.contains(id));
        }
        assert(spec_get(f1, k1, k) is Ok) by {
            if !(forall|i: int| 0 <= i < prev.len() ==> #[trigger] prev[i].key != k) {
                let i = choose|i: int| 0 <= i < prev.len() && #[trigger] prev[i].key == k;
            }
        }
        lemma_write_all_reads(f1, k1, id, b, k);
        assert forall|i: int| 0 <= i < w.len() && #[trigger] w[i].key == k implies {
            &&& spec_get(spec_write_all(f1, k1, id, b).0, spec_write_all(f1, k1, id, b).1, k)
                == Ok::<Option<Seq<u8>>, BitdbError>(Some(w[i].value))
            &&& spec_write_all(f1, k1, id, b).1.contains_key(k)
            &&& !spec_write_all(f1, k1, id, b).1[k].is_tombstone
        } by {
            if i < prev.len() {
                assert(prev[i] == w[i]);
                assert forall|p: int| 0 <= p < b.len() implies #[trigger] b[p].key != k by {
                    assert(w[prev.len() + p] == b[p]);
                    assert(w[i].key != w[prev.len() + p].key);
                }
            } else {
                assert(b[i - prev.len()] == w[i]);
            }
        }
        if forall|i: int| 0 <= i < w.len() ==> #[trigger] w[i].key != k {
            assert forall|i: int| 0 <= i < prev.len() implies #[trigger] prev[i].key != k by {
                assert(w[i] == prev[i]);
            }
            assert forall|p: int| 0 <= p < b.len() implies #[trigger] b[p].key != k by {
                assert(w[prev.len() + p] == b[p]);
            }
        }
    }
}

/// Reopening a store rebuilds the KeyDir its writes built: when each data
/// file holds exactly the records written to it, in order, and the files
/// were filled one after another, scanning the files finds those records
/// and the KeyDir rebuilt from the scans, oldest file first, equals the
/// one the writes produced, so every read after reopening returns what it
/// returned before.
pub proof fn law_reopen_rebuilds_keydir(
    ids: Seq<u32>,
    batches: Seq<Seq<RecordView>>,
    policy: CorruptionPolicy,
)
    requires
        ids.len() == batches.len(),
        ids.no_duplicates(),
        forall|j: int| 0 <= j < batches.len() ==> all_encodable(#[trigger] batches[j]),
        forall|j: int|
            0 <= j < batches.len() ==> (#[trigger] spec_encode_all(batches[j])).len() <= usize::MAX,
    ensures
        ({
            let (files, kd) = spec_write_files(
                empty_files(ids),
                Map::<Seq<u8>, KeyDirEntry>::empty(),
                ids,
                batches,
            );
            let scans = spec_batch_scans(ids, batches);
            &&& forall|j: int|
                0 <= j < ids.len() ==> files[#[trigger] ids[j]] == spec_encode_all(batches[j])
            &&& forall|j: int|
                0 <= j < ids.len() ==> spec_scan(ids[j], #[trigger] files[ids[j]], 0, policy)
                    == Ok::<Seq<ScanEntryView>, BitdbError>(scans[j])
            &&& spec_rebuild(scans) == kd
        }),
{
    lemma_write_files(ids, batches, ids.len() as int);
    assert(ids.take(ids.len() as int) =~= ids);
    assert(batches.take(batches.len() as int) =~= batches);
    let scans = spec_batch_scans(ids, batches);
    assert(scans.take(ids.len() as int) =~= scans);
    let (files, kd) = spec_write_files(
        empty_files(ids),
        Map::<Seq<u8>, KeyDirEntry>::empty(),
        ids,
        batches,
    );
    assert forall|j: int| 0 <= j < ids.len() implies spec_scan(
        ids[j],
        #[trigger] files[ids[j]],
        0,
        policy,
    ) == Ok::<Seq<ScanEntryView>, BitdbError>(scans[j]) by {
        assert(Seq::<u8>::empty() + spec_encode_all(batches[j]) =~= spec_encode_all(batches[j]));
        law_scan_finds_written_records(ids[j], Seq::empty(), batches[j], policy);
    }
}

proof fn lemma_encode_all_split(rs: Seq<RecordView>, i: int)
    requires
        0 <= i <= rs.len(),
    ensures
        spec_encode_all(rs) == spec_encode_all(rs.take(i)) + spec_encode_all(rs.skip(i)),
    decreases i,
{
    if i == 0 {
        assert(rs.take(0) =~= Seq::<RecordView>::empty());
        assert(rs.skip(0) =~= rs);
        assert(spec_encode_all(rs.take(0)) + spec_encode_all(rs) =~= spec_encode_all(rs));
    } else {
        let rest = rs.drop_first();
        lemma_encode_all_split(rest, i - 1);
        assert(rest.take(i - 1) =~= rs.take(i).drop_first());
        assert(rest.skip(i - 1) =~= rs.skip(i));
        assert(rs.take(i)[0] == rs[0]);
        assert(spec_encode_all(rs) =~= spec_encode(rs[0]) + spec_encode_all(rest));
        assert(spec_encode_all(rs.take(i)) =~= spec_encode(rs[0]) + spec_encode_all(
            rs.take(i).drop_first(),
        ));
    }
}

/// The hint file of a data file that took `batch`, written after its first
/// `m` records (`None` when none was written).
pub open spec fn spec_batch_hint(file_id: u32, batch: Seq<RecordView>, hinted: Option<nat>) -> Option<
    Seq<u8>,
> {
    match hinted {
        None => None,
        Some(m) => Some(spec_hint_bytes_for(file_id, spec_encode_all(batch.take(m as int)))),
    }
}

/// Reopening a store rebuilds the KeyDir its writes built, with or without
/// hint files: when each data file holds the records written to it, in
/// order, and its hint file (if any) was written after some of those
/// records, as merge writes one before later appends, then scanning each
/// file through its hint finds exactly the file's records, and the KeyDir
/// rebuilt from them equals the one the writes produced.
pub proof fn law_reopen_with_hint_files(
    ids: Seq<u32>,
    batches: Seq<Seq<RecordView>>,
    hinted: Seq<Option<nat>>,
    policy: CorruptionPolicy,
)
    requires
        ids.len() == batches.len(),
        hinted.len() == ids.len(),
        ids.no_duplicates(),
        forall|j: int| 0 <= j < batches.len() ==> all_encodable(#[trigger] batches[j]),
        forall|j: int|
            0 <= j < batches.len() ==> (#[trigger] spec_encode_all(batches[j])).len() <= usize::MAX,
        forall|j: int|
            0 <= j < hinted.len() && #[trigger] hinted[j] is Some ==> hinted[j]->0 <= batches[j].len(),
    ensures
        ({
            let (files, kd) = spec_write_files(
                empty_files(ids),
                Map::<Seq<u8>, KeyDirEntry>::empty(),
                ids,
                batches,
            );
            let scans = spec_batch_scans(ids, batches);
            &&& forall|j: int|
                0 <= j < ids.len() ==> spec_scan_file(
                    ids[j],
                    spec_batch_hint(ids[j], batches[j], hinted[j]),
                    #[trigger] files[ids[j]],
                    policy,
                ) == Ok::<Seq<ScanEntryView>, BitdbError>(scans[j])
            &&& spec_rebuild(scans) == kd
        }),
{
    law_reopen_rebuilds_keydir(ids, batches, policy);
    let (files, kd) = spec_write_files(
        empty_files(ids),
        Map::<Seq<u8>, KeyDirEntry>::empty(),
        ids,
        batches,
    );
    let scans = spec_batch_scans(ids, batches);
    assert forall|j: int| 0 <= j < ids.len() implies spec_scan_file(
        ids[j],
        spec_batch_hint(ids[j], batches[j], hinted[j]),
        #[trigger] files[ids[j]],
        policy,
    ) == Ok::<Seq<ScanEntryView>, BitdbError>(scans[j]) by {
        assert(files[ids[j]] == spec_encode_all(batches[j]));
        if let Some(m) = hinted[j] {
            let b = batches[j];
            lemma_encode_all_split(b, m as int);
            let first = b.take(m as int);
            assert(all_encodable(first)) by {
                assert forall|i: int| 0 <= i < first.len() implies encodable(#[trigger] first[i]) by {
                    assert(first[i] == b[i]);
                }
            }
            assert(Seq::<u8>::empty() + spec_encode_all(first) =~= spec_encode_all(first));
            law_scan_finds_written_records(ids[j], Seq::empty(), first, CorruptionPolicy::Fail);
            law_hint_never_changes_scan(
                ids[j],
                spec_encode_all(first),
                spec_encode_all(b.skip(m as int)),
                policy,
            );
        }
    }
}

} // verus!
