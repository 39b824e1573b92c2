//! Rebuilding the KeyDir from the records in the data files (or from their
//! hint files).
//!
//! Records are applied oldest file first and, within a file, in offset
//! order, so the last record written for a key is the one the KeyDir keeps.
use crate::codec::copy_range;
use crate::config::CorruptionPolicy;
use crate::error::BitdbError;
use crate::index::keydir::{KeyDir, KeyDirEntry};
use crate::record::{decode_one, spec_decode_one, RecordFlags, RecordView, HEADER_LEN};
use crate::storage::hint_file::{
    spec_encode_hint_file,
    hint_to_keydir_entry, parse_hint_file, spec_parse_hint_file, HintEntry, HintEntryView,
};
use vstd::prelude::*;

verus! {

/// One record found while scanning a file: which file, where in it, the
/// KeyDir entry it produces, and its key.
#[derive(Clone, Debug, PartialEq, Eq)]
pub struct ScanEntry {
    pub file_id: u32,
    pub offset: u64,
    pub entry: KeyDirEntry,
    pub key: Vec<u8>,
}

/// A scan entry as a mathematical value.
pub struct ScanEntryView {
    pub file_id: u32,
    pub offset: u64,
    pub entry: KeyDirEntry,
    pub key: Seq<u8>,
}

impl View for ScanEntry {
    type V = ScanEntryView;

    open spec fn view(&self) -> ScanEntryView {
        ScanEntryView { file_id: self.file_id, offset: self.offset, entry: self.entry, key: self.key@ }
    }
}

/// The KeyDir entry for a record of `file_id` at `offset` occupying `size`
/// bytes.  The size is cut to 32 bits.
pub open spec fn record_entry(file_id: u32, offset: int, r: RecordView, size: nat) -> KeyDirEntry {
    KeyDirEntry {
        file_id,
        offset: offset as u64,
        size_bytes: size as u32,
        timestamp: r.timestamp,
        is_tombstone: r.flags == RecordFlags::Tombstone,
    }
}

/// The records of `bytes` from `offset` on, in order, under `policy`: a
/// record cut short ends the scan, a damaged record fails it under `Fail`
/// and ends it under `SkipCorruptedTail`.
pub open spec fn spec_scan(file_id: u32, bytes: Seq<u8>, offset: int, policy: CorruptionPolicy) -> Result<
    Seq<ScanEntryView>,
    BitdbError,
>
    decreases bytes.len() - offset,
{
    if offset < 0 || offset >= bytes.len() {
        Ok(Seq::empty())
    } else {
        match spec_decode_one(bytes.subrange(offset, bytes.len() as int)) {
            Ok((r, n)) => if n == 0 {
                Ok(Seq::empty())
            } else {
                match spec_scan(file_id, bytes, offset + n, policy) {
                    Ok(rest) => Ok(
                        seq![
                            ScanEntryView {
                                file_id,
                                offset: offset as u64,
                                entry: record_entry(file_id, offset, r, n),
                                key: r.key,
                            },
                        ] + rest,
                    ),
                    Err(e) => Err(e),
                }
            },
            Err(e) => if e == BitdbError::TruncatedRecord {
                Ok(Seq::empty())
            } else if e.spec_is_corruption() && policy == CorruptionPolicy::SkipCorruptedTail {
                Ok(Seq::empty())
            } else {
                Err(e)
            },
        }
    }
}

/// Whether executable scan entries are the given mathematical ones.
pub open spec fn scan_entries_match(v: Seq<ScanEntry>, s: Seq<ScanEntryView>) -> bool {
    &&& v.len() == s.len()
    &&& forall|i: int| 0 <= i < v.len() ==> #[trigger] v[i]@ == s[i]
}

/// A decoded record always spans at least its header.
pub proof fn lemma_decoded_len_at_least_header(input: Seq<u8>)
    ensures
        spec_decode_one(input) matches Ok((_, n)) ==> HEADER_LEN <= n <= input.len(),
{
}

/// Decodes every record of a data file's bytes, in order.
///
/// A record cut short ends the scan (its bytes are an unfinished write).
/// A damaged record fails the scan under `CorruptionPolicy::Fail` and ends
/// it under `CorruptionPolicy::SkipCorruptedTail`.
pub fn scan_data_bytes(file_id: u32, bytes: &[u8], policy: CorruptionPolicy) -> (r: Result<
    Vec<ScanEntry>,
    BitdbError,
>)
    ensures
        match (r, spec_scan(file_id, bytes@, 0, policy)) {
            (Ok(v), Ok(s)) => scan_entries_match(v@, s),
            (Err(e1), Err(e2)) => e1 == e2,
            _ => false,
        },
{
    let ghost total = spec_scan(file_id, bytes@, 0, policy);
    let mut offset: usize = 0;
    let mut entries: Vec<ScanEntry> = Vec::new();
    let n = bytes.len();
    while offset < n
        invariant
            n == bytes@.len(),
            offset <= n,
            total == spec_scan(file_id, bytes@, 0, policy),
            total == match spec_scan(file_id, bytes@, offset as int, policy) {
                Ok(rest) => Ok(entries@.map_values(|e: ScanEntry| e@) + rest),
                Err(e) => Err(e),
            },
        ensures
            total == Ok::<Seq<ScanEntryView>, BitdbError>(entries@.map_values(|e: ScanEntry| e@)),
        decreases n - offset,
    {
        let ghost before = entries@.map_values(|e: ScanEntry| e@);
        match decode_one(&bytes[offset..n]) {
            Ok(decoded) => {
                proof {
                    lemma_decoded_len_at_least_header(bytes@.subrange(offset as int, n as int));
                }
                let entry = KeyDirEntry {
                    file_id,
                    offset: offset as u64,
                    size_bytes: decoded.bytes_read as u32,
                    timestamp: decoded.record.timestamp,
                    is_tombstone: match decoded.record.flags {
                        RecordFlags::Tombstone => true,
                        RecordFlags::Normal => false,
                    },
                };
                let next = offset + decoded.bytes_read;
                let ghost e_view = ScanEntryView {
                    file_id,
                    offset: offset as u64,
                    entry,
                    key: decoded.record.key@,
                };
                entries.push(ScanEntry { file_id, offset: offset as u64, entry, key: decoded.record.key });
                proof {
                    let after = entries@.map_values(|e: ScanEntry| e@);
                    assert(after =~= before + seq![e_view]);
                    match spec_scan(file_id, bytes@, next as int, policy) {
                        Ok(rest) => {
                            assert(before + (seq![e_view] + rest) =~= after + rest);
                        },
                        Err(_) => {},
                    }
                }
                offset = next;
            },
            Err(e) => {
                if e == BitdbError::TruncatedRecord {
                    proof {
                        assert(entries@.map_values(|e: ScanEntry| e@) + Seq::<ScanEntryView>::empty() =~= entries@.map_values(|e: ScanEntry| e@));
                    }
                    break;
                }
                if e.is_corruption() {
                    match policy {
                        CorruptionPolicy::Fail => {
                            return Err(e);
                        },
                        CorruptionPolicy::SkipCorruptedTail => {
                            proof {
                                assert(entries@.map_values(|e: ScanEntry| e@) + Seq::<ScanEntryView>::empty() =~= entries@.map_values(|e: ScanEntry| e@));
                            }
                            break;
                        },
                    }
                }
                return Err(e);
            },
        }
    }
    Ok(entries)
}

/// The KeyDir contents after inserting each scanned record's entry, in
/// order, into `m`.
pub open spec fn spec_apply_scan(m: Map<Seq<u8>, KeyDirEntry>, s: Seq<ScanEntryView>) -> Map<
    Seq<u8>,
    KeyDirEntry,
>
    decreases s.len(),
{
    if s.len() == 0 {
        m
    } else {
        spec_apply_scan(m, s.drop_last()).insert(s.last().key, s.last().entry)
    }
}

/// Inserts the entry of every scanned record into the KeyDir, in order.
pub fn apply_scan(keydir: &mut KeyDir, entries: &[ScanEntry])
    requires
        old(keydir).wf(),
    ensures
        final(keydir).wf(),
        final(keydir)@ == spec_apply_scan(old(keydir)@, entries@.map_values(|e: ScanEntry| e@)),
{
    let ghost views = entries@.map_values(|e: ScanEntry| e@);
    let mut i: usize = 0;
    while i < entries.len()
        invariant
            keydir.wf(),
            i <= entries@.len(),
            views == entries@.map_values(|e: ScanEntry| e@),
            keydir@ == spec_apply_scan(old(keydir)@, views.take(i as int)),
        decreases entries@.len() - i,
    {
        let key = copy_range(entries[i].key.as_slice(), 0, entries[i].key.len());
        proof {
            let k = entries@[i as int].key@;
            assert(k.subrange(0, k.len() as int) =~= k);
            let t = views.take(i + 1);
            assert(t.drop_last() =~= views.take(i as int));
            assert(t.last() == views[i as int]);
        }
        keydir.insert(key, entries[i].entry);
        i = i + 1;
    }
    proof {
        assert(views.take(entries@.len() as int) =~= views);
    }
}

/// The position of the last element of `s` whose key is `k`, if any.
pub open spec fn last_index_of_key(s: Seq<ScanEntryView>, k: Seq<u8>) -> Option<int>
    decreases s.len(),
{
    if s.len() == 0 {
        None
    } else if s.last().key == k {
        Some(s.len() - 1)
    } else {
        last_index_of_key(s.drop_last(), k)
    }
}

/// The last record written for a key wins: after applying scanned records,
/// a key maps to the entry of its last record, and a key without records
/// keeps what it had.
pub proof fn law_last_record_wins(m: Map<Seq<u8>, KeyDirEntry>, s: Seq<ScanEntryView>, k: Seq<u8>)
    ensures
        match last_index_of_key(s, k) {
            Some(i) => {
                &&& 0 <= i < s.len()
                &&& s[i].key == k
                &&& forall|j: int| i < j < s.len() ==> #[trigger] s[j].key != k
                &&& spec_apply_scan(m, s).contains_key(k)
                &&& spec_apply_scan(m, s)[k] == s[i].entry
            },
            None => {
                &&& forall|j: int| 0 <= j < s.len() ==> #[trigger] s[j].key != k
                &&& spec_apply_scan(m, s).contains_key(k) == m.contains_key(k)
                &&& m.contains_key(k) ==> spec_apply_scan(m, s)[k] == m[k]
            },
        },
    decreases s.len(),
{
    if s.len() > 0 {
        law_last_record_wins(m, s.drop_last(), k);
        if s.last().key != k {
            assert forall|j: int| 0 <= j < s.len() - 1 implies s.drop_last()[j] == s[j] by {}
        }
    }
}

/// Applying records file by file is the same as applying all of them at
/// once in the same order, so a rebuild that scans files concurrently and
/// then applies their records oldest file first gives the same KeyDir as
/// one that scans and applies each file in turn.
pub proof fn law_apply_scan_concat(
    m: Map<Seq<u8>, KeyDirEntry>,
    a: Seq<ScanEntryView>,
    b: Seq<ScanEntryView>,
)
    ensures
        spec_apply_scan(m, a + b) == spec_apply_scan(spec_apply_scan(m, a), b),
    decreases b.len(),
{
    if b.len() == 0 {
        assert(a + b =~= a);
    } else {
        law_apply_scan_concat(m, a, b.drop_last());
        assert((a + b).drop_last() =~= a + b.drop_last());
        assert((a + b).last() == b.last());
    }
}

/// The scan entry that a hint entry of file `file_id` stands for.
pub open spec fn hint_scan_entry(file_id: u32, h: HintEntryView) -> ScanEntryView {
    ScanEntryView { file_id, offset: h.offset, entry: hint_to_keydir_entry(h), key: h.key }
}

/// The hint entry that summarises a scanned record.
pub open spec fn scan_hint_entry(e: ScanEntryView) -> HintEntryView {
    HintEntryView {
        key: e.key,
        file_id: e.file_id,
        offset: e.entry.offset,
        size_bytes: e.entry.size_bytes,
        timestamp: e.entry.timestamp,
        is_tombstone: e.entry.is_tombstone,
    }
}

/// The scan entries of file `file_id` that its hint entries stand for.
pub fn scan_entries_from_hints(file_id: u32, hints: &[HintEntry]) -> (v: Vec<ScanEntry>)
    ensures
        scan_entries_match(v@, hints@.map_values(|h: HintEntry| hint_scan_entry(file_id, h@))),
{
    let mut out: Vec<ScanEntry> = Vec::new();
    let mut i: usize = 0;
    while i < hints.len()
        invariant
            i <= hints@.len(),
            out@.len() == i,
            forall|t: int|
                0 <= t < i ==> #[trigger] out@[t]@ == hint_scan_entry(file_id, hints@[t]@),
        decreases hints@.len() - i,
    {
        let h = &hints[i];
        let key = copy_range(h.key.as_slice(), 0, h.key.len());
        proof {
            assert(h.key@.subrange(0, h.key@.len() as int) =~= h.key@);
        }
        out.push(ScanEntry { file_id, offset: h.offset, entry: h.to_keydir_entry(), key });
        i = i + 1;
    }
    out
}

/// The scan entries a hint file of `file_id` provides, or `None` when the
/// hint file is malformed (the caller then scans the data file instead).
pub fn scan_from_hint_bytes(file_id: u32, hint_bytes: &[u8]) -> (r: Option<Vec<ScanEntry>>)
    ensures
        match (r, spec_parse_hint_file(hint_bytes@)) {
            (Some(v), Some(hs)) => scan_entries_match(
                v@,
                hs.map_values(|h: HintEntryView| hint_scan_entry(file_id, h)),
            ),
            (None, None) => true,
            _ => false,
        },
{
    match parse_hint_file(hint_bytes) {
        Ok(hints) => {
            let v = scan_entries_from_hints(file_id, hints.as_slice());
            proof {
                let hs = spec_parse_hint_file(hint_bytes@)->Some_0;
                let a = hints@.map_values(|h: HintEntry| hint_scan_entry(file_id, h@));
                let b = hs.map_values(|h: HintEntryView| hint_scan_entry(file_id, h));
                assert(a =~= b);
            }
            Some(v)
        },
        Err(_) => None,
    }
}

/// The hint entries summarising every record of a data file's bytes.
/// A record cut short ends the summary; a damaged record fails it.
pub fn hint_entries_for_data(file_id: u32, bytes: &[u8]) -> (r: Result<Vec<HintEntry>, BitdbError>)
    ensures
        match (r, spec_scan(file_id, bytes@, 0, CorruptionPolicy::Fail)) {
            (Ok(v), Ok(s)) => v@.map_values(|h: HintEntry| h@) == s.map_values(
                |e: ScanEntryView| scan_hint_entry(e),
            ),
            (Err(e1), Err(e2)) => e1 == e2,
            _ => false,
        },
{
    let scanned = match scan_data_bytes(file_id, bytes, CorruptionPolicy::Fail) {
        Ok(v) => v,
        Err(e) => return Err(e),
    };
    let ghost s = spec_scan(file_id, bytes@, 0, CorruptionPolicy::Fail)->Ok_0;
    let mut out: Vec<HintEntry> = Vec::new();
    let mut i: usize = 0;
    while i < scanned.len()
        invariant
            i <= scanned@.len(),
            scan_entries_match(scanned@, s),
            out@.len() == i,
            forall|t: int| 0 <= t < i ==> #[trigger] out@[t]@ == scan_hint_entry(s[t]),
        decreases scanned@.len() - i,
    {
        let e = &scanned[i];
        let key = copy_range(e.key.as_slice(), 0, e.key.len());
        proof {
            assert(e.key@.subrange(0, e.key@.len() as int) =~= e.key@);
            assert(scanned@[i as int]@ == s[i as int]);
        }
        out.push(
            HintEntry {
                key,
                file_id: e.file_id,
                offset: e.entry.offset,
                size_bytes: e.entry.size_bytes,
                timestamp: e.entry.timestamp,
                is_tombstone: e.entry.is_tombstone,
            },
        );
        i = i + 1;
    }
    proof {
        assert(out@.map_values(|h: HintEntry| h@) =~= s.map_values(
            |e: ScanEntryView| scan_hint_entry(e),
        ));
    }
    Ok(out)
}

/// The KeyDir built by applying the scans of the data files in the given
/// order (oldest file first).
pub open spec fn spec_rebuild(scans: Seq<Seq<ScanEntryView>>) -> Map<Seq<u8>, KeyDirEntry>
    decreases scans.len(),
{
    if scans.len() == 0 {
        Map::empty()
    } else {
        spec_apply_scan(spec_rebuild(scans.drop_last()), scans.last())
    }
}

/// Builds the KeyDir from the scans of every data file, oldest file first.
pub fn rebuild_from_scans(scans: &[Vec<ScanEntry>]) -> (kd: KeyDir)
    ensures
        kd.wf(),
        kd@ == spec_rebuild(
            scans@.map_values(|v: Vec<ScanEntry>| v@.map_values(|e: ScanEntry| e@)),
        ),
{
    let ghost views = scans@.map_values(|v: Vec<ScanEntry>| v@.map_values(|e: ScanEntry| e@));
    let mut keydir = KeyDir::new();
    let mut i: usize = 0;
    while i < scans.len()
        invariant
            keydir.wf(),
            i <= scans@.len(),
            views == scans@.map_values(|v: Vec<ScanEntry>| v@.map_values(|e: ScanEntry| e@)),
            keydir@ == spec_rebuild(views.take(i as int)),
        decreases scans@.len() - i,
    {
        apply_scan(&mut keydir, scans[i].as_slice());
        proof {
            let t = views.take(i + 1);
            assert(t.drop_last() =~= views.take(i as int));
            assert(t.last() == views[i as int]);
        }
        i = i + 1;
    }
    proof {
        assert(views.take(scans@.len() as int) =~= views);
    }
    keydir
}

/// Every entry a scan of file `file_id` produces belongs to that file, is
/// located where its KeyDir entry says, has a key of at most `u32::MAX`
/// bytes, and the offsets strictly increase.
pub proof fn lemma_scan_entries_shape(
    file_id: u32,
    bytes: Seq<u8>,
    offset: int,
    policy: CorruptionPolicy,
)
    requires
        0 <= offset,
        bytes.len() <= usize::MAX,
    ensures
        spec_scan(file_id, bytes, offset, policy) matches Ok(s) ==> {
            &&& forall|i: int|
                0 <= i < s.len() ==> {
                    &&& (#[trigger] s[i]).file_id == file_id
                    &&& s[i].entry.file_id == file_id
                    &&& s[i].entry.offset == s[i].offset
                    &&& s[i].key.len() <= u32::MAX
                    &&& offset <= s[i].offset < bytes.len()
                }
            &&& forall|i: int, j: int| 0 <= i < j < s.len() ==> s[i].offset < s[j].offset
        },
    decreases bytes.len() - offset,
{
    if 0 <= offset < bytes.len() {
        let input = bytes.subrange(offset, bytes.len() as int);
        lemma_decoded_len_at_least_header(input);
        match spec_decode_one(input) {
            Ok((r, n)) => {
                if n > 0 {
                    lemma_scan_entries_shape(file_id, bytes, offset + n, policy);
                    let h = crate::record::spec_parse_header(input)->Ok_0;
                    assert(r.key.len() == h.key_len);
                }
            },
            Err(_) => {},
        }
    }
}

/// A hint file written for a data file leads rebuild to the same records
/// as scanning the data file itself: encoding the hint entries of a
/// successful scan, reading them back and turning them into scan entries
/// gives exactly the scan.
pub proof fn law_hint_file_matches_data_scan(file_id: u32, bytes: Seq<u8>)
    requires
        bytes.len() <= usize::MAX,
        spec_scan(file_id, bytes, 0, CorruptionPolicy::Fail) is Ok,
        spec_scan(file_id, bytes, 0, CorruptionPolicy::Fail)->Ok_0.len() <= u32::MAX,
    ensures
        ({
            let s = spec_scan(file_id, bytes, 0, CorruptionPolicy::Fail)->Ok_0;
            let hints = s.map_values(|e: ScanEntryView| scan_hint_entry(e));
            &&& spec_parse_hint_file(crate::storage::hint_file::spec_encode_hint_file(hints)) == Some(hints)
            &&& hints.map_values(|h: HintEntryView| hint_scan_entry(file_id, h)) == s
        }),
{
    let s = spec_scan(file_id, bytes, 0, CorruptionPolicy::Fail)->Ok_0;
    let hints = s.map_values(|e: ScanEntryView| scan_hint_entry(e));
    lemma_scan_entries_shape(file_id, bytes, 0, CorruptionPolicy::Fail);
    assert forall|i: int| 0 <= i < hints.len() implies #[trigger] hints[i].key.len() <= u32::MAX by {
        assert(hints[i].key == s[i].key);
    }
    crate::storage::hint_file::law_parse_hint_file_inverts_encode(hints, Seq::empty());
    assert(crate::storage::hint_file::spec_encode_hint_file(hints) + Seq::<u8>::empty()
        =~= crate::storage::hint_file::spec_encode_hint_file(hints));
    let back = hints.map_values(|h: HintEntryView| hint_scan_entry(file_id, h));
    assert forall|i: int| 0 <= i < s.len() implies back[i] == s[i] by {
        assert(s[i].file_id == file_id);
        assert(s[i].entry.file_id == file_id);
        assert(s[i].entry.offset == s[i].offset);
    }
    assert(back =~= s);
}

// ---- choosing between a hint file and its data file -------------------------
/// Where the records a hint file describes end: the end of its last entry
/// (zero for no entries).
pub open spec fn hint_end(hs: Seq<HintEntryView>) -> int {
    if hs.len() == 0 {
        0
    } else {
        hs.last().offset + hs.last().size_bytes
    }
}

/// What scanning one data file finds, given its hint file (if any): the
/// hint's entries when the hint parses and describes the data file up to
/// its end, otherwise the records of the data file itself.  A hint that
/// stops short of the data file's end was written before later appends and
/// is not used.
pub open spec fn spec_scan_file(
    file_id: u32,
    hint: Option<Seq<u8>>,
    data: Seq<u8>,
    policy: CorruptionPolicy,
) -> Result<Seq<ScanEntryView>, BitdbError> {
    match hint {
        Some(h) => match spec_parse_hint_file(h) {
            Some(hs) => if hint_end(hs) == data.len() {
                Ok(hs.map_values(|x: HintEntryView| hint_scan_entry(file_id, x)))
            } else {
                spec_scan(file_id, data, 0, policy)
            },
            None => spec_scan(file_id, data, 0, policy),
        },
        None => spec_scan(file_id, data, 0, policy),
    }
}

/// Scans one data file: through its hint file (`None` when there is none)
/// when the hint parses and reaches the data file's end, otherwise through
/// the data file's records.
pub fn scan_file(file_id: u32, hint: Option<&[u8]>, data: &[u8], policy: CorruptionPolicy) -> (r:
    Result<Vec<ScanEntry>, BitdbError>)
    ensures
        match (
            r,
            spec_scan_file(
                file_id,
                match hint {
                    Some(h) => Some(h@),
                    None => None,
                },
                data@,
                policy,
            ),
        ) {
            (Ok(v), Ok(s)) => scan_entries_match(v@, s),
            (Err(e1), Err(e2)) => e1 == e2,
            _ => false,
        },
{
    if let Some(h) = hint {
        if let Some(entries) = scan_from_hint_bytes(file_id, h) {
            let n = entries.len();
            let mut covered = data.len() == 0;
            if n > 0 {
                let offset = entries[n - 1].entry.offset;
                let size = entries[n - 1].entry.size_bytes as u64;
                covered = offset <= u64::MAX - size && offset + size == data.len() as u64;
            }
            proof {
                let hs = spec_parse_hint_file(h@)->Some_0;
                let m = hs.map_values(|x: HintEntryView| hint_scan_entry(file_id, x));
                assert(m.len() == hs.len());
                assert(entries@.len() == hs.len());
                if n > 0 {
                    assert(entries@[n - 1]@ == m[n - 1]);
                    assert(m[n - 1] == hint_scan_entry(file_id, hs[n - 1]));
                    assert(hs.last() == hs[n - 1]);
                    assert(entries@[n - 1].entry.offset == hs.last().offset);
                    assert(entries@[n - 1].entry.size_bytes == hs.last().size_bytes);
                }
                assert(covered == (hint_end(hs) == data@.len()));
            }
            if covered {
                return Ok(entries);
            }
        }
    }
    scan_data_bytes(file_id, data, policy)
}

/// A scan under `Fail` that succeeds met no damaged record, so every
/// policy finds the same records.
pub proof fn lemma_scan_policy_irrelevant(
    file_id: u32,
    bytes: Seq<u8>,
    offset: int,
    policy: CorruptionPolicy,
)
    requires
        spec_scan(file_id, bytes, offset, CorruptionPolicy::Fail) is Ok,
    ensures
        spec_scan(file_id, bytes, offset, policy) == spec_scan(
            file_id,
            bytes,
            offset,
            CorruptionPolicy::Fail,
        ),
    decreases bytes.len() - offset,
{
    if 0 <= offset < bytes.len() {
        match spec_decode_one(bytes.subrange(offset, bytes.len() as int)) {
            Ok((r, n)) => {
                if n > 0 {
                    lemma_scan_policy_irrelevant(file_id, bytes, offset + n, policy);
                }
            },
            Err(e) => {},
        }
    }
}

/// A successful scan from `offset` finds at most one record per byte, and
/// each record it finds, as its entry records it, ends no later than where
/// the next one starts, or than the bytes' end for the last one.
pub proof fn lemma_scan_extent(file_id: u32, bytes: Seq<u8>, offset: int, policy: CorruptionPolicy)
    requires
        0 <= offset,
        bytes.len() <= usize::MAX,
    ensures
        spec_scan(file_id, bytes, offset, policy) matches Ok(s) ==> {
            &&& s.len() <= if offset <= bytes.len() {
                bytes.len() - offset
            } else {
                0
            }
            &&& forall|i: int|
                0 <= i < s.len() ==> #[trigger] s[i].offset + s[i].entry.size_bytes <= if i + 1
                    < s.len() {
                    s[i + 1].offset as int
                } else {
                    bytes.len() as int
                }
        },
    decreases bytes.len() - offset,
{
    if 0 <= offset < bytes.len() {
        let input = bytes.subrange(offset, bytes.len() as int);
        lemma_decoded_len_at_least_header(input);
        match spec_decode_one(input) {
            Ok((r, n)) => {
                if n > 0 {
                    lemma_scan_extent(file_id, bytes, offset + n, policy);
                    match spec_scan(file_id, bytes, offset + n, policy) {
                        Ok(rest) => {
                            let s = spec_scan(file_id, bytes, offset, policy)->Ok_0;
                            assert(s[0].offset == offset);
                            assert(s[0].entry.size_bytes <= n);
                            if rest.len() > 0 {
                                lemma_scan_starts_at(file_id, bytes, offset + n, policy);
                                assert(s[1] == rest[0]);
                            }
                            assert forall|i: int|
                                0 <= i < s.len() implies #[trigger] s[i].offset
                                + s[i].entry.size_bytes <= if i + 1 < s.len() {
                                s[i + 1].offset as int
                            } else {
                                bytes.len() as int
                            } by {
                                if i > 0 {
                                    assert(s[i] == rest[i - 1]);
                                    if i + 1 < s.len() {
                                        assert(s[i + 1] == rest[i]);
                                    }
                                }
                            }
                        },
                        Err(_) => {},
                    }
                }
            },
            Err(_) => {},
        }
    }
}

/// The first record a non-empty scan from `offset` finds is at `offset`.
proof fn lemma_scan_starts_at(file_id: u32, bytes: Seq<u8>, offset: int, policy: CorruptionPolicy)
    requires
        0 <= offset,
    ensures
        spec_scan(file_id, bytes, offset, policy) matches Ok(s) ==> (s.len() > 0 ==> s[0].offset
            == offset as u64),
{
}

/// The bytes of the hint file written for a data file holding `data`.
pub open spec fn spec_hint_bytes_for(file_id: u32, data: Seq<u8>) -> Seq<u8> {
    spec_encode_hint_file(
        spec_scan(file_id, data, 0, CorruptionPolicy::Fail)->Ok_0.map_values(
            |e: ScanEntryView| scan_hint_entry(e),
        ),
    )
}

/// A hint file never changes what a scan of its data file finds: whether
/// the hint was written for the data file as it is now, or for what it held
/// before later appends, scanning the file through the hint gives the
/// records of the data file itself.
pub proof fn law_hint_never_changes_scan(
    file_id: u32,
    written: Seq<u8>,
    appended: Seq<u8>,
    policy: CorruptionPolicy,
)
    requires
        written.len() + appended.len() <= usize::MAX,
        spec_scan(file_id, written, 0, CorruptionPolicy::Fail) is Ok,
    ensures
        spec_scan_file(
            file_id,
            Some(spec_hint_bytes_for(file_id, written)),
            written + appended,
            policy,
        ) == spec_scan(file_id, written + appended, 0, policy),
{
    let s = spec_scan(file_id, written, 0, CorruptionPolicy::Fail)->Ok_0;
    let hints = s.map_values(|e: ScanEntryView| scan_hint_entry(e));
    let data = written + appended;
    lemma_scan_extent(file_id, written, 0, CorruptionPolicy::Fail);
    lemma_scan_entries_shape(file_id, written, 0, CorruptionPolicy::Fail);
    assert forall|i: int| 0 <= i < hints.len() implies #[trigger] hints[i].key.len() <= u32::MAX by {
        assert(hints[i].key == s[i].key);
    }
    crate::storage::hint_file::lemma_parse_counted_prefix(hints, Seq::empty());
    assert(spec_encode_hint_file(hints) + Seq::<u8>::empty() =~= spec_encode_hint_file(hints));
    let c = (hints.len() as u32) as int;
    let read = hints.take(c);
    assert(spec_parse_hint_file(spec_hint_bytes_for(file_id, written)) == Some(read));
    if hint_end(read) == data.len() {
        // The hint is used only when it covers every record: a shorter one
        // ends where an uncovered record starts, before the data's end.
        if c < hints.len() {
            if c == 0 {
                assert(s[0].offset < written.len());
            } else {
                assert(read.last() == scan_hint_entry(s[c - 1]));
                assert(s[c - 1].offset + s[c - 1].entry.size_bytes <= s[c].offset);
                assert(s[c].offset < written.len());
            }
            assert(false);
        }
        assert(read =~= hints);
        if s.len() > 0 {
            assert(hints.last() == scan_hint_entry(s.last()));
            assert(s[s.len() - 1].offset + s[s.len() - 1].entry.size_bytes <= written.len());
        }
        assert(appended.len() == 0);
        assert(data =~= written);
        law_hint_file_matches_data_scan(file_id, written);
        lemma_scan_policy_irrelevant(file_id, written, 0, policy);
    }
}

} // verus!
