/// Tests for the store's building blocks: the KeyDir, file naming, the
/// file catalog, hint files, scanning, rebuild, the engine's state, and
/// merge planning.
use bitdb::config::{CorruptionPolicy, Options};
use bitdb::crc::compute_crc;
use bitdb::engine::{stats_of, stats_report, EngineCore, EngineStats};
use bitdb::error::BitdbError;
use bitdb::index::keydir::{hash_key, KeyDir, KeyDirEntry};
use bitdb::merge::{live_entries, live_record, merged_record};
use bitdb::record::{decode_one, encode, Record, RecordFlags};
use bitdb::recovery::{
    apply_scan, hint_entries_for_data, rebuild_from_scans, scan_data_bytes, scan_file,
    scan_from_hint_bytes,
};
use bitdb::storage::data_file::{data_file_name, hint_file_name, parse_data_file_id};
use bitdb::storage::file_set::{sort_ids, sorted_ids, FileCatalog};
use bitdb::storage::hint_file::{encode_hint_file, parse_hint_file, HintEntry};
use bitdb::text::push_hex;

fn entry(file_id: u32, offset: u64, tombstone: bool) -> KeyDirEntry {
    KeyDirEntry {
        file_id,
        offset,
        size_bytes: 30,
        timestamp: 7,
        is_tombstone: tombstone,
    }
}

fn records_bytes(records: &[Record]) -> Vec<u8> {
    let mut out = Vec::new();
    for r in records {
        out.extend_from_slice(&encode(r));
    }
    out
}

// ---- checksums and hashing --------------------------------------------------

#[test]
fn crc_covers_the_frame_without_its_checksum_field() {
    // The checksum field (bytes 6..10) is skipped: what is hashed is the
    // standard check string, whose CRC32 is 0xCBF43926.
    let mut frame = b"123456".to_vec();
    frame.extend_from_slice(&[0xAA, 0xBB, 0xCC, 0xDD]);
    frame.extend_from_slice(b"789");
    assert_eq!(compute_crc(&frame), 0xCBF4_3926);
}

#[test]
fn key_hash_is_fnv1a() {
    assert_eq!(hash_key(b""), 0xcbf2_9ce4_8422_2325);
    assert_eq!(hash_key(b"a"), 0xaf63_dc4c_8601_ec8c);
}

// ---- KeyDir -----------------------------------------------------------------

#[test]
fn keydir_insert_get_and_overwrite() {
    let mut kd = KeyDir::new();
    assert!(kd.is_empty());
    kd.insert(b"alpha".to_vec(), entry(1, 0, false));
    kd.insert(b"beta".to_vec(), entry(1, 40, false));
    kd.insert(b"alpha".to_vec(), entry(2, 80, true));
    assert_eq!(kd.len(), 2);
    assert_eq!(kd.get(b"alpha"), Some(&entry(2, 80, true)));
    assert_eq!(kd.get(b"beta"), Some(&entry(1, 40, false)));
    assert_eq!(kd.get(b"gamma"), None);
    assert_eq!(kd.values().len(), 2);
    let pairs = kd.iter();
    assert!(pairs.contains(&(b"alpha".to_vec(), entry(2, 80, true))));
}

#[test]
fn stats_count_live_keys_and_tombstones() {
    let mut kd = KeyDir::new();
    kd.insert(b"a".to_vec(), entry(1, 0, false));
    kd.insert(b"b".to_vec(), entry(1, 10, true));
    kd.insert(b"c".to_vec(), entry(1, 20, false));
    let st = stats_of(&kd);
    assert_eq!(st, EngineStats { live_keys: 2, tombstones: 1 });
    assert_eq!(stats_report(st), "live_keys=2 tombstones=1");
}

// ---- file names -------------------------------------------------------------

#[test]
fn data_and_hint_file_names_are_zero_padded() {
    assert_eq!(data_file_name(1), "00000001.data");
    assert_eq!(hint_file_name(42), "00000042.hint");
    assert_eq!(data_file_name(4_000_000_000), "4000000000.data");
}

#[test]
fn data_file_ids_are_parsed_back_from_names() {
    assert_eq!(parse_data_file_id("00000001.data"), Some(1));
    assert_eq!(parse_data_file_id(&data_file_name(123_456)), Some(123_456));
    assert_eq!(parse_data_file_id("00000001.hint"), None);
    assert_eq!(parse_data_file_id("tracer_meta.json"), None);
    assert_eq!(parse_data_file_id("abc.data"), None);
    assert_eq!(parse_data_file_id("99999999999.data"), None);
}

// ---- file catalog -----------------------------------------------------------

#[test]
fn catalog_opens_on_the_newest_file_and_rotates() {
    let mut c = FileCatalog::open(&[3, 1, 2, 3], 100, 64);
    assert_eq!(c.file_ids_oldest_to_newest(), vec![1, 2, 3]);
    assert_eq!(c.active_id(), 3);
    assert_eq!(c.active_len(), 100);
    assert!(c.needs_rotation(1));
    assert_eq!(c.next_file_id(), 4);
    c.rotate(0);
    assert_eq!(c.active_id(), 4);
    assert!(!c.needs_rotation(1000), "an empty file takes any record");
    let loc = c.record_append(40);
    assert_eq!((loc.file_id, loc.offset, loc.size_bytes), (4, 0, 40));
    let loc = c.record_append(10);
    assert_eq!((loc.file_id, loc.offset), (4, 40));
    assert!(c.contains(2));
    assert!(!c.contains(9));
}

#[test]
fn empty_directory_starts_with_file_one() {
    let c = FileCatalog::open(&[], 0, 1024);
    assert_eq!(c.file_ids_oldest_to_newest(), vec![1]);
    assert_eq!(c.active_id(), 1);
}

#[test]
fn sorted_ids_orders_and_dedups() {
    assert_eq!(sorted_ids(&[5, 2, 9, 2, 1]), vec![1, 2, 5, 9]);
    assert_eq!(sorted_ids(&[]), Vec::<u32>::new());
}

#[test]
fn sort_ids_keeps_repeated_ids() {
    assert_eq!(sort_ids(&[5, 2, 9, 2, 1]), vec![1, 2, 2, 5, 9]);
    assert_eq!(sort_ids(&[7]), vec![7]);
    assert_eq!(sort_ids(&[]), Vec::<u32>::new());
}

#[test]
fn catalog_lists_ids_in_increasing_order_after_rotations() {
    let mut c = FileCatalog::open(&[10, 4, 7], 5, 64);
    c.rotate(0);
    c.rotate(0);
    assert_eq!(c.file_ids_oldest_to_newest(), vec![4, 7, 10, 11, 12]);
    assert!(c.contains(11));
    assert!(!c.contains(5));
}

// ---- hint files -------------------------------------------------------------

#[test]
fn hint_file_roundtrip() {
    let entries = vec![
        HintEntry {
            key: b"k1".to_vec(),
            file_id: 3,
            offset: 0,
            size_bytes: 30,
            timestamp: 11,
            is_tombstone: false,
        },
        HintEntry {
            key: b"k2".to_vec(),
            file_id: 3,
            offset: 30,
            size_bytes: 28,
            timestamp: 12,
            is_tombstone: true,
        },
    ];
    let bytes = encode_hint_file(&entries);
    assert_eq!(parse_hint_file(&bytes), Ok(entries.clone()));
    assert_eq!(entries[1].to_keydir_entry().is_tombstone, true);
    assert_eq!(entries[0].to_keydir_entry().offset, 0);
}

#[test]
fn corrupt_hint_file_is_rejected() {
    assert_eq!(parse_hint_file(b"not a valid hint"), Err(BitdbError::InvalidHintFile));
    assert_eq!(scan_from_hint_bytes(1, b"not a valid hint"), None);
}

// ---- scanning and rebuild ---------------------------------------------------

#[test]
fn scan_finds_each_record_at_its_offset() {
    let a = Record::new(1, b"a".to_vec(), b"first".to_vec(), RecordFlags::Normal);
    let b = Record::new(2, b"b".to_vec(), Vec::new(), RecordFlags::Tombstone);
    let bytes = records_bytes(&[a.clone(), b.clone()]);
    let entries = scan_data_bytes(5, &bytes, CorruptionPolicy::Fail).expect("scan should work");
    assert_eq!(entries.len(), 2);
    assert_eq!(entries[0].offset, 0);
    assert_eq!(entries[1].offset, encode(&a).len() as u64);
    assert_eq!(entries[1].key, b"b".to_vec());
    assert!(entries[1].entry.is_tombstone);
    assert_eq!(entries[0].entry.file_id, 5);
}

#[test]
fn scan_stops_at_a_truncated_tail() {
    let a = Record::new(1, b"a".to_vec(), b"first".to_vec(), RecordFlags::Normal);
    let b = Record::new(2, b"b".to_vec(), b"second".to_vec(), RecordFlags::Normal);
    let mut bytes = records_bytes(&[a, b]);
    bytes.truncate(bytes.len() - 3);
    let entries = scan_data_bytes(1, &bytes, CorruptionPolicy::Fail).expect("a cut tail is not an error");
    assert_eq!(entries.len(), 1);
}

#[test]
fn bad_crc_fails_scan_or_ends_it_by_policy() {
    let a = Record::new(1, b"a".to_vec(), b"first".to_vec(), RecordFlags::Normal);
    let b = Record::new(2, b"b".to_vec(), b"second".to_vec(), RecordFlags::Normal);
    let mut bytes = records_bytes(&[a.clone(), b]);
    let last = bytes.len() - 1;
    bytes[last] ^= 0xFF;
    let failed = scan_data_bytes(1, &bytes, CorruptionPolicy::Fail);
    assert!(matches!(failed, Err(BitdbError::ChecksumMismatch { .. })));
    let skipped = scan_data_bytes(1, &bytes, CorruptionPolicy::SkipCorruptedTail).expect("skip policy");
    assert_eq!(skipped.len(), 1);
    assert_eq!(skipped[0].key, a.key);
}

#[test]
fn rebuild_keeps_latest_record_across_files() {
    let f1 = records_bytes(&[
        Record::new(1, b"k".to_vec(), b"old".to_vec(), RecordFlags::Normal),
        Record::new(2, b"gone".to_vec(), b"x".to_vec(), RecordFlags::Normal),
    ]);
    let f2 = records_bytes(&[
        Record::new(3, b"k".to_vec(), b"new".to_vec(), RecordFlags::Normal),
        Record::new(4, b"gone".to_vec(), Vec::new(), RecordFlags::Tombstone),
    ]);
    let s1 = scan_data_bytes(1, &f1, CorruptionPolicy::Fail).unwrap();
    let s2 = scan_data_bytes(2, &f2, CorruptionPolicy::Fail).unwrap();
    let kd = rebuild_from_scans(&[s1.clone(), s2.clone()]);
    assert_eq!(kd.len(), 2);
    let k = kd.get(b"k").unwrap();
    assert_eq!((k.file_id, k.offset, k.timestamp), (2, 0, 3));
    assert!(kd.get(b"gone").unwrap().is_tombstone);

    // Applying the scans one after another gives the same KeyDir.
    let mut step = KeyDir::new();
    apply_scan(&mut step, &s1);
    apply_scan(&mut step, &s2);
    assert_eq!(step.get(b"k"), kd.get(b"k"));
    assert_eq!(step.get(b"gone"), kd.get(b"gone"));
}

#[test]
fn hint_file_for_data_rebuilds_the_same_entries() {
    let bytes = records_bytes(&[
        Record::new(1, b"x".to_vec(), b"1".to_vec(), RecordFlags::Normal),
        Record::new(2, b"y".to_vec(), b"2".to_vec(), RecordFlags::Normal),
    ]);
    let hints = hint_entries_for_data(7, &bytes).expect("hints should build");
    let from_hints = scan_from_hint_bytes(7, &encode_hint_file(&hints)).expect("hints should parse");
    let from_data = scan_data_bytes(7, &bytes, CorruptionPolicy::Fail).unwrap();
    assert_eq!(from_hints, from_data);
}

// ---- the engine's state -----------------------------------------------------

#[test]
fn engine_core_tracks_writes_and_rotation() {
    let opts = Options {
        max_data_file_size_bytes: 64,
        ..Options::default()
    };
    let mut core = EngineCore::open(opts, &[], 0, &[]);
    assert_eq!(core.catalog().active_id(), 1);
    let r = Record::new(1, b"alpha".to_vec(), b"one".to_vec(), RecordFlags::Normal);
    let size = encode(&r).len() as u64;
    assert!(!core.needs_rotation(size));
    let loc = core.commit_write(b"alpha".to_vec(), 1, false, size);
    assert_eq!((loc.file_id, loc.offset), (1, 0));
    assert_eq!(core.live_entry(b"alpha").map(|e| e.offset), Some(0));
    assert!(core.needs_rotation(size));
    core.rotate(0);
    let loc = core.commit_write(b"alpha".to_vec(), 2, true, 30);
    assert_eq!(loc.file_id, 2);
    assert_eq!(core.live_entry(b"alpha"), None, "a deleted key has no live entry");
    assert_eq!(core.stats(), EngineStats { live_keys: 0, tombstones: 1 });
}

#[test]
fn reopened_engine_reads_back_what_was_written() {
    let r = Record::new(9, b"persist".to_vec(), b"value".to_vec(), RecordFlags::Normal);
    let bytes = encode(&r);
    let scans = vec![scan_data_bytes(1, &bytes, CorruptionPolicy::Fail).unwrap()];
    let core = EngineCore::open(Options::default(), &[1], bytes.len() as u64, &scans);
    let e = core.live_entry(b"persist").expect("key should exist");
    let decoded = decode_one(&bytes[e.offset as usize..]).unwrap();
    assert_eq!(decoded.record.value, b"value".to_vec());
    assert_eq!(core.catalog().active_len(), bytes.len() as u64);
}

// ---- merge ------------------------------------------------------------------

#[test]
fn merge_picks_live_latest_entries() {
    let mut kd = KeyDir::new();
    kd.insert(b"live".to_vec(), entry(1, 0, false));
    kd.insert(b"dead".to_vec(), entry(1, 30, true));
    kd.insert(b"live".to_vec(), entry(2, 0, false));
    let live = live_entries(&kd);
    assert_eq!(live.len(), 1);
    assert_eq!(live[0].0, b"live".to_vec());
    assert_eq!(live[0].1.file_id, 2);

    let stored = Record::new(7, b"live".to_vec(), b"v2".to_vec(), RecordFlags::Normal);
    let decoded = decode_one(&encode(&stored)).unwrap();
    let rec = live_record(live[0].0.clone(), &live[0].1, decoded);
    let out = merged_record(rec);
    assert_eq!(out, Record::new(7, b"live".to_vec(), b"v2".to_vec(), RecordFlags::Normal));
}

#[test]
fn data_file_ids_accept_a_plus_sign_as_u32_parsing_does() {
    assert_eq!(parse_data_file_id("+7.data"), Some(7));
    assert_eq!(parse_data_file_id(".data"), None);
    assert_eq!(parse_data_file_id("+.data"), None);
}

// ---- scanning a data file through its hint file -----------------------------

fn two_records() -> Vec<Record> {
    vec![
        Record::new(1, b"a".to_vec(), b"1".to_vec(), RecordFlags::Normal),
        Record::new(2, b"b".to_vec(), b"2".to_vec(), RecordFlags::Normal),
    ]
}

#[test]
fn scan_file_uses_a_hint_that_covers_the_data_file() {
    let data = records_bytes(&two_records());
    let hint = encode_hint_file(&hint_entries_for_data(3, &data).unwrap());
    let through_hint = scan_file(3, Some(&hint), &data, CorruptionPolicy::Fail).unwrap();
    let through_data = scan_data_bytes(3, &data, CorruptionPolicy::Fail).unwrap();
    assert_eq!(through_hint, through_data);
    assert_eq!(through_hint.len(), 2);
    assert_eq!(through_hint[1].key, b"b".to_vec());
}

#[test]
fn scan_file_ignores_a_hint_that_later_appends_made_stale() {
    let first = records_bytes(&two_records()[..1]);
    let hint = encode_hint_file(&hint_entries_for_data(3, &first).unwrap());
    let data = records_bytes(&two_records());
    let scanned = scan_file(3, Some(&hint), &data, CorruptionPolicy::Fail).unwrap();
    assert_eq!(scanned.len(), 2, "the record appended after the hint is found");
    assert_eq!(scanned, scan_data_bytes(3, &data, CorruptionPolicy::Fail).unwrap());
    assert_eq!(scan_from_hint_bytes(3, &hint).unwrap().len(), 1);
}

#[test]
fn scan_file_falls_back_to_the_data_on_a_corrupt_or_missing_hint() {
    let data = records_bytes(&two_records());
    let expected = scan_data_bytes(3, &data, CorruptionPolicy::Fail).unwrap();
    let corrupt = scan_file(3, Some(b"not a valid hint"), &data, CorruptionPolicy::Fail).unwrap();
    assert_eq!(corrupt, expected);
    let missing = scan_file(3, None, &data, CorruptionPolicy::Fail).unwrap();
    assert_eq!(missing, expected);
}

#[test]
fn scan_file_of_an_empty_file_with_an_empty_hint_is_empty() {
    let hint = encode_hint_file(&[]);
    assert_eq!(scan_file(9, Some(&hint), &[], CorruptionPolicy::Fail).unwrap(), Vec::new());
}

// ---- statistics under writes ------------------------------------------------

#[test]
fn stats_follow_put_and_delete() {
    let mut kd = KeyDir::new();
    kd.insert(b"k".to_vec(), entry(1, 0, false));
    assert_eq!(stats_of(&kd), EngineStats { live_keys: 1, tombstones: 0 });
    // Deleting a live key moves it from one count to the other.
    kd.insert(b"k".to_vec(), entry(1, 30, true));
    assert_eq!(stats_of(&kd), EngineStats { live_keys: 0, tombstones: 1 });
    // Deleting it again changes nothing.
    kd.insert(b"k".to_vec(), entry(1, 60, true));
    assert_eq!(stats_of(&kd), EngineStats { live_keys: 0, tombstones: 1 });
    // Deleting a key never written adds a tombstone.
    kd.insert(b"never".to_vec(), entry(1, 90, true));
    assert_eq!(stats_of(&kd), EngineStats { live_keys: 0, tombstones: 2 });
    // Writing a deleted key makes it live again.
    kd.insert(b"k".to_vec(), entry(1, 120, false));
    assert_eq!(stats_of(&kd), EngineStats { live_keys: 1, tombstones: 1 });
}

// ---- error messages -----------------------------------------------------------

#[test]
fn error_messages_match_the_program_texts() {
    assert_eq!(BitdbError::TruncatedRecord.message(), "record truncated");
    assert_eq!(
        BitdbError::InvalidRecordMagic(0xdeadbeef).message(),
        "invalid record magic: 0xdeadbeef"
    );
    assert_eq!(BitdbError::InvalidRecordMagic(0).message(), "invalid record magic: 0x0");
    assert_eq!(BitdbError::InvalidRecordVersion(2).message(), "invalid record version: 2");
    assert_eq!(BitdbError::InvalidRecordFlags(255).message(), "invalid record flags: 255");
    assert_eq!(
        BitdbError::ChecksumMismatch { expected: 0x1a, actual: 0xffffffff }.message(),
        "record checksum mismatch: expected=0x1a, actual=0xffffffff"
    );
    assert_eq!(BitdbError::DataFileNotFound(7).message(), "data file not found: 7");
    assert_eq!(BitdbError::InvalidHintFile.message(), "invalid hint file");
}

#[test]
fn hex_rendering_matches_std_formatting() {
    for n in [0u64, 9, 10, 15, 16, 255, 4096, 0xabcdef, u64::MAX] {
        let mut s = String::new();
        push_hex(&mut s, n);
        assert_eq!(s, format!("{n:x}"));
    }
}

// ---- locating a read ----------------------------------------------------------

#[test]
fn locate_reports_an_unknown_data_file() {
    let mut core = EngineCore::open(Options::default(), &[], 0, &[]);
    core.commit_write(b"k".to_vec(), 1, false, 30);
    core.commit_write(b"gone".to_vec(), 2, true, 30);
    let e = core.locate(b"k").unwrap().unwrap();
    assert_eq!((e.file_id, e.offset), (1, 0));
    assert_eq!(core.locate(b"gone"), Ok(None));
    assert_eq!(core.locate(b"never"), Ok(None));
    assert_eq!(core.check_known_file(1), Ok(()));
    assert_eq!(core.check_known_file(5), Err(BitdbError::DataFileNotFound(5)));
}
