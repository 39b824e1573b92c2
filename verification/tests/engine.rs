/// Tests of the store as a whole: writes, reads, reopening, rebuild from
/// data and hint files, damaged tails, rotation, and merge.
///
/// The library decides everything (which file takes a record, what the
/// KeyDir says, what a scan finds, what a merge writes); these tests carry
/// out its decisions on a directory kept in memory, the way the program
/// carries them out on disk.
use std::cell::RefCell;
use std::collections::BTreeMap;
use std::rc::Rc;

use bitdb::config::{CorruptionPolicy, Options, Parallelism};
use bitdb::engine::{EngineCore, EngineStats};
use bitdb::error::BitdbError;
use bitdb::index::keydir::{KeyDir, KeyDirEntry};
use bitdb::merge::{live_entries, live_record, merged_record};
use bitdb::record::{decode_one, encode, DecodeResult, Record, RecordFlags};
use bitdb::recovery::{hint_entries_for_data, rebuild_from_scans, ScanEntry};
use bitdb::storage::data_file::{data_file_name, hint_file_name, parse_data_file_id};
use bitdb::storage::file_set::{active_id_for, sorted_ids, FileCatalog, RecordLocation};
use bitdb::storage::hint_file::encode_hint_file;

// ---- a directory in memory ---------------------------------------------------

/// A directory of files kept in memory; `sub` gives a subdirectory.
#[derive(Clone)]
struct MemDir {
    root: Rc<RefCell<BTreeMap<String, Vec<u8>>>>,
    prefix: String,
}

fn tempdir() -> MemDir {
    MemDir {
        root: Rc::new(RefCell::new(BTreeMap::new())),
        prefix: String::new(),
    }
}

impl MemDir {
    fn sub(&self, name: &str) -> MemDir {
        MemDir {
            root: self.root.clone(),
            prefix: format!("{}{}/", self.prefix, name),
        }
    }

    fn full(&self, name: &str) -> String {
        format!("{}{}", self.prefix, name)
    }

    /// The names of the files directly in this directory.
    fn list(&self) -> Vec<String> {
        self.root
            .borrow()
            .keys()
            .filter_map(|k| k.strip_prefix(&self.prefix).map(|s| s.to_string()))
            .filter(|s| !s.contains('/'))
            .collect()
    }

    /// Whether a file, or a subdirectory holding files, has this name.
    fn has(&self, name: &str) -> bool {
        let full = self.full(name);
        let as_dir = format!("{full}/");
        self.root.borrow().keys().any(|k| *k == full || k.starts_with(&as_dir))
    }

    fn read(&self, name: &str) -> Option<Vec<u8>> {
        self.root.borrow().get(&self.full(name)).cloned()
    }

    fn write(&self, name: &str, bytes: &[u8]) {
        self.root.borrow_mut().insert(self.full(name), bytes.to_vec());
    }

    fn append(&self, name: &str, bytes: &[u8]) {
        self.root.borrow_mut().entry(self.full(name)).or_default().extend_from_slice(bytes);
    }

    fn remove(&self, name: &str) {
        self.root.borrow_mut().remove(&self.full(name));
    }

    fn data_ids(&self) -> Vec<u32> {
        self.list().iter().filter_map(|n| parse_data_file_id(n)).collect()
    }

    fn count_data_files(&self) -> usize {
        self.list().iter().filter(|n| n.ends_with(".data")).count()
    }
}

// ---- the store's files --------------------------------------------------------

/// The data files of a directory, appended to as the library's catalog says.
struct FileSet {
    dir: MemDir,
    catalog: FileCatalog,
}

impl FileSet {
    fn open(dir: &MemDir, options: &Options) -> Result<FileSet, BitdbError> {
        let found = dir.data_ids();
        let active = active_id_for(&found);
        dir.append(&data_file_name(active), &[]);
        let len = dir.read(&data_file_name(active)).unwrap().len() as u64;
        Ok(FileSet {
            dir: dir.clone(),
            catalog: FileCatalog::open(&found, len, options.max_data_file_size_bytes),
        })
    }

    fn append(&mut self, record: &Record) -> Result<RecordLocation, BitdbError> {
        let bytes = encode(record);
        let size = bytes.len() as u64;
        if self.catalog.needs_rotation(size) {
            let next = self.catalog.next_file_id();
            self.dir.append(&data_file_name(next), &[]);
            let len = self.dir.read(&data_file_name(next)).unwrap().len() as u64;
            self.catalog.rotate(len);
        }
        let loc = self.catalog.record_append(size);
        self.dir.append(&data_file_name(loc.file_id), &bytes);
        Ok(loc)
    }

    fn read_at(&self, file_id: u32, offset: u64) -> Result<DecodeResult, BitdbError> {
        if !self.catalog.contains(file_id) {
            return Err(BitdbError::DataFileNotFound(file_id));
        }
        let Some(bytes) = self.dir.read(&data_file_name(file_id)) else {
            return Err(BitdbError::DataFileNotFound(file_id));
        };
        decode_one(&bytes[offset as usize..])
    }

    fn write_hint_files(&self) -> Result<(), BitdbError> {
        for id in self.catalog.file_ids_oldest_to_newest() {
            let bytes = self.dir.read(&data_file_name(id)).unwrap_or_default();
            let hints = hint_entries_for_data(id, &bytes)?;
            self.dir.write(&hint_file_name(id), &encode_hint_file(&hints));
        }
        Ok(())
    }
}

/// Scans one data file, through its hint file when the library accepts it.
fn scan_file(dir: &MemDir, id: u32, policy: CorruptionPolicy) -> Result<Vec<ScanEntry>, BitdbError> {
    let hint = dir.read(&hint_file_name(id));
    let bytes = dir.read(&data_file_name(id)).ok_or(BitdbError::DataFileNotFound(id))?;
    bitdb::recovery::scan_file(id, hint.as_deref(), &bytes, policy)
}

fn scan_all(dir: &MemDir, ids: &[u32], policy: CorruptionPolicy) -> Result<Vec<Vec<ScanEntry>>, BitdbError> {
    ids.iter().map(|&id| scan_file(dir, id, policy)).collect()
}

/// The KeyDir rebuilt from the files of `file_set`, oldest first.
fn rebuild_keydir(file_set: &FileSet, policy: CorruptionPolicy) -> Result<KeyDir, BitdbError> {
    let scans = scan_all(&file_set.dir, &file_set.catalog.file_ids_oldest_to_newest(), policy)?;
    Ok(rebuild_from_scans(&scans))
}

// ---- the store ----------------------------------------------------------------

/// The store on a directory, following the library's `EngineCore`.
struct Engine {
    dir: MemDir,
    core: EngineCore,
    clock: u64,
}

impl Engine {
    fn open(dir: &MemDir, options: Options) -> Result<Engine, BitdbError> {
        let found = dir.data_ids();
        let active = active_id_for(&found);
        dir.append(&data_file_name(active), &[]);
        let active_len = dir.read(&data_file_name(active)).unwrap().len() as u64;
        let mut all = found.clone();
        all.push(active);
        let scans = scan_all(dir, &sorted_ids(&all), options.corruption_policy)?;
        Ok(Engine {
            dir: dir.clone(),
            core: EngineCore::open(options, &found, active_len, &scans),
            clock: 1,
        })
    }

    fn append_record(&mut self, record: &Record) {
        let bytes = encode(record);
        let size = bytes.len() as u64;
        if self.core.needs_rotation(size) {
            let next = self.core.catalog().next_file_id();
            self.dir.append(&data_file_name(next), &[]);
            let len = self.dir.read(&data_file_name(next)).unwrap().len() as u64;
            self.core.rotate(len);
        }
        self.dir.append(&data_file_name(self.core.catalog().active_id()), &bytes);
        let tombstone = record.flags == RecordFlags::Tombstone;
        self.core.commit_write(record.key.clone(), record.timestamp, tombstone, size);
    }

    fn write(&mut self, key: &[u8], value: &[u8], flags: RecordFlags) -> Result<(), BitdbError> {
        self.clock += 1;
        let record = Record::new(self.clock, key.to_vec(), value.to_vec(), flags);
        self.append_record(&record);
        Ok(())
    }

    fn put(&mut self, key: &[u8], value: &[u8]) -> Result<(), BitdbError> {
        self.write(key, value, RecordFlags::Normal)
    }

    fn delete(&mut self, key: &[u8]) -> Result<(), BitdbError> {
        self.write(key, &[], RecordFlags::Tombstone)
    }

    fn read_entry(&self, entry: &KeyDirEntry) -> Result<DecodeResult, BitdbError> {
        self.core.check_known_file(entry.file_id)?;
        let bytes = self
            .dir
            .read(&data_file_name(entry.file_id))
            .ok_or(BitdbError::DataFileNotFound(entry.file_id))?;
        decode_one(&bytes[entry.offset as usize..])
    }

    fn get(&self, key: &[u8]) -> Result<Option<Vec<u8>>, BitdbError> {
        match self.core.locate(key)? {
            None => Ok(None),
            Some(e) => Ok(Some(self.read_entry(&e)?.record.value)),
        }
    }

    fn sync(&self) -> Result<(), BitdbError> {
        Ok(())
    }

    fn stats(&self) -> EngineStats {
        self.core.stats()
    }

    fn merge(&mut self) -> Result<(), BitdbError> {
        let options = self.core.options();
        let tmp = self.dir.sub(".merge_tmp");
        for name in tmp.list() {
            tmp.remove(&name);
        }
        let mut records = Vec::new();
        for (key, entry) in live_entries(self.core.keydir()) {
            let decoded = self.read_entry(&entry)?;
            records.push(merged_record(live_record(key, &entry, decoded)));
        }
        {
            let mut merged = Engine::open(&tmp, options)?;
            for r in &records {
                merged.append_record(r);
            }
            for id in merged.core.catalog().file_ids_oldest_to_newest() {
                let bytes = tmp.read(&data_file_name(id)).unwrap_or_default();
                let hints = hint_entries_for_data(id, &bytes)?;
                tmp.write(&hint_file_name(id), &encode_hint_file(&hints));
            }
        }
        for name in self.dir.list() {
            if name.ends_with(".data") || name.ends_with(".hint") {
                self.dir.remove(&name);
            }
        }
        for name in tmp.list() {
            let bytes = tmp.read(&name).unwrap();
            self.dir.write(&name, &bytes);
            tmp.remove(&name);
        }
        *self = Engine::open(&self.dir, options)?;
        Ok(())
    }
}

fn with_policy(options: Options, corruption_policy: CorruptionPolicy) -> Options {
    Options { corruption_policy, ..options }
}

// ---- basic --------------------------------------------------------------------

#[test]
fn open_empty_database_succeeds() {
    let dir = tempdir();
    let options = Options::default();
    let engine = Engine::open(&dir, options);
    assert!(engine.is_ok());
}

#[test]
fn engine_put_get_delete_and_reopen() {
    let dir = tempdir();
    let options = Options::default();
    {
        let mut engine = Engine::open(&dir, options).expect("open should succeed");
        engine.put(b"alpha", b"1").expect("put should succeed");
        let got = engine.get(b"alpha").expect("get should succeed");
        assert_eq!(got, Some(b"1".to_vec()));
        engine.put(b"alpha", b"2").expect("overwrite should succeed");
        let got = engine.get(b"alpha").expect("get should succeed");
        assert_eq!(got, Some(b"2".to_vec()));
        engine.delete(b"alpha").expect("delete should succeed");
        let got = engine.get(b"alpha").expect("get should succeed");
        assert_eq!(got, None);
        engine.sync().expect("sync should succeed");
    }
    let mut reopened = Engine::open(&dir, options).expect("reopen should succeed");
    let got = reopened.get(b"alpha").expect("get should succeed");
    assert_eq!(got, None);
    reopened.put(b"beta", b"persist").expect("put should succeed");
    let stats = reopened.stats();
    assert_eq!(stats.live_keys, 1);
}

#[test]
fn engine_supports_binary_keys_and_values() {
    let dir = tempdir();
    let options = Options::default();
    let mut engine = Engine::open(&dir, options).expect("open should work");
    let key = [0, 255, 1, 2];
    let value = [9, 8, 0, 7];
    engine.put(&key, &value).expect("put should work");
    let got = engine.get(&key).expect("get should work");
    assert_eq!(got, Some(value.to_vec()));
}

// ---- rebuild ------------------------------------------------------------------

#[test]
fn rebuild_empty_directory_has_empty_keydir() {
    let dir = tempdir();
    let options = Options::default();
    let file_set = FileSet::open(&dir, &options).expect("open should succeed");
    let keydir = rebuild_keydir(&file_set, options.corruption_policy).expect("rebuild should succeed");
    assert_eq!(keydir.len(), 0);
}

#[test]
fn rebuild_keeps_latest_overwrite() {
    let dir = tempdir();
    let options = Options::default();
    {
        let mut file_set = FileSet::open(&dir, &options).expect("open should succeed");
        file_set
            .append(&Record::new(1, b"alpha".to_vec(), b"first".to_vec(), RecordFlags::Normal))
            .expect("append should succeed");
        file_set
            .append(&Record::new(2, b"alpha".to_vec(), b"second".to_vec(), RecordFlags::Normal))
            .expect("append should succeed");
    }
    let reopened = FileSet::open(&dir, &options).expect("open should succeed");
    let keydir = rebuild_keydir(&reopened, options.corruption_policy).expect("rebuild should succeed");
    let entry = keydir.get(b"alpha").expect("key should exist");
    assert!(!entry.is_tombstone);
    let decoded = reopened.read_at(entry.file_id, entry.offset).expect("read should succeed");
    assert_eq!(decoded.record.value, b"second".to_vec());
}

#[test]
fn rebuild_tombstone_hides_previous_value() {
    let dir = tempdir();
    let options = Options::default();
    {
        let mut file_set = FileSet::open(&dir, &options).expect("open should succeed");
        file_set
            .append(&Record::new(1, b"dead".to_vec(), b"value".to_vec(), RecordFlags::Normal))
            .expect("append should succeed");
        file_set
            .append(&Record::new(2, b"dead".to_vec(), Vec::new(), RecordFlags::Tombstone))
            .expect("append should succeed");
    }
    let reopened = FileSet::open(&dir, &options).expect("open should succeed");
    let keydir = rebuild_keydir(&reopened, options.corruption_policy).expect("rebuild should succeed");
    let entry = keydir.get(b"dead").expect("key should exist");
    assert!(entry.is_tombstone);
}

#[test]
fn rebuild_scans_across_multiple_files() {
    let dir = tempdir();
    let options = Options {
        max_data_file_size_bytes: 64,
        ..Options::default()
    };
    {
        let mut file_set = FileSet::open(&dir, &options).expect("open should succeed");
        file_set
            .append(&Record::new(1, b"k1".to_vec(), b"v1".to_vec(), RecordFlags::Normal))
            .expect("append should succeed");
        file_set
            .append(&Record::new(2, b"k2".to_vec(), b"v2".to_vec(), RecordFlags::Normal))
            .expect("append should succeed");
        file_set
            .append(&Record::new(3, b"k1".to_vec(), b"v3".to_vec(), RecordFlags::Normal))
            .expect("append should succeed");
    }
    let reopened = FileSet::open(&dir, &options).expect("open should succeed");
    let keydir = rebuild_keydir(&reopened, options.corruption_policy).expect("rebuild should succeed");
    assert_eq!(keydir.len(), 2);
    let k1 = keydir.get(b"k1").expect("k1 should exist");
    let r1 = reopened.read_at(k1.file_id, k1.offset).expect("read should work");
    assert_eq!(r1.record.value, b"v3".to_vec());
}

// ---- damaged files ------------------------------------------------------------

#[test]
fn truncated_tail_is_ignored_on_reopen() {
    let dir = tempdir();
    let options = Options::default();
    {
        let mut engine = Engine::open(&dir, options).expect("open should work");
        engine.put(b"k1", b"v1").expect("put should work");
        engine.put(b"k2", b"v2").expect("put should work");
        engine.sync().expect("sync should work");
    }
    let mut bytes = dir.read("00000001.data").expect("data file should open");
    let len = bytes.len();
    bytes.truncate(len - 4);
    dir.write("00000001.data", &bytes);
    let reopened = Engine::open(&dir, with_policy(options, CorruptionPolicy::SkipCorruptedTail))
        .expect("open should succeed with truncated tail policy");
    assert_eq!(reopened.get(b"k1").expect("get should work"), Some(b"v1".to_vec()));
    assert_eq!(reopened.get(b"k2").expect("get should work"), None);
}

#[test]
fn bad_crc_fails_open_in_fail_policy() {
    let dir = tempdir();
    let options = Options::default();
    {
        let mut engine = Engine::open(&dir, options).expect("open should work");
        engine.put(b"k", b"v").expect("put should work");
        engine.sync().expect("sync should work");
    }
    let mut bytes = dir.read("00000001.data").expect("data file should open");
    bytes[12] = 0xFF;
    dir.write("00000001.data", &bytes);
    let result = Engine::open(&dir, with_policy(options, CorruptionPolicy::Fail));
    assert!(result.is_err());
}

#[test]
fn bad_crc_is_ignored_in_skip_corrupted_tail_policy() {
    let dir = tempdir();
    let options = Options::default();
    {
        let mut engine = Engine::open(&dir, options).expect("open should work");
        engine.put(b"k", b"v").expect("put should work");
        engine.sync().expect("sync should work");
    }
    let mut bytes = dir.read("00000001.data").expect("data file should open");
    bytes[12] = 0xEE;
    dir.write("00000001.data", &bytes);
    let reopened = Engine::open(&dir, with_policy(options, CorruptionPolicy::SkipCorruptedTail))
        .expect("open should succeed");
    assert_eq!(reopened.get(b"k").expect("get should work"), None);
}

// ---- hint files ---------------------------------------------------------------

#[test]
fn hint_file_is_written_and_loaded_for_rebuild() {
    let dir = tempdir();
    let options = Options::default();
    {
        let mut file_set = FileSet::open(&dir, &options).expect("open should succeed");
        file_set
            .append(&Record::new(1, b"h1".to_vec(), b"v1".to_vec(), RecordFlags::Normal))
            .expect("append should succeed");
        file_set
            .append(&Record::new(2, b"h2".to_vec(), b"v2".to_vec(), RecordFlags::Normal))
            .expect("append should succeed");
        file_set.write_hint_files().expect("hints should write");
    }
    let reopened = FileSet::open(&dir, &options).expect("open should succeed");
    let keydir = rebuild_keydir(&reopened, options.corruption_policy).expect("rebuild should work");
    assert_eq!(keydir.len(), 2);
    assert!(dir.has("00000001.hint"));
}

#[test]
fn rebuild_falls_back_to_data_scan_when_hint_missing() {
    let dir = tempdir();
    let options = Options::default();
    {
        let mut file_set = FileSet::open(&dir, &options).expect("open should succeed");
        file_set
            .append(&Record::new(1, b"k".to_vec(), b"v".to_vec(), RecordFlags::Normal))
            .expect("append should succeed");
    }
    let reopened = FileSet::open(&dir, &options).expect("open should succeed");
    let keydir = rebuild_keydir(&reopened, options.corruption_policy).expect("rebuild should work");
    let entry = keydir.get(b"k").expect("key should exist");
    let decoded = reopened.read_at(entry.file_id, entry.offset).expect("read should work");
    assert_eq!(decoded.record.value, b"v".to_vec());
}

#[test]
fn rebuild_falls_back_to_data_scan_when_hint_corrupt() {
    let dir = tempdir();
    let options = Options::default();
    {
        let mut file_set = FileSet::open(&dir, &options).expect("open should succeed");
        file_set
            .append(&Record::new(1, b"x".to_vec(), b"y".to_vec(), RecordFlags::Normal))
            .expect("append should succeed");
        file_set.write_hint_files().expect("hints should write");
    }
    dir.write("00000001.hint", b"not a valid hint");
    let reopened = FileSet::open(&dir, &options).expect("open should succeed");
    let keydir = rebuild_keydir(&reopened, options.corruption_policy).expect("rebuild should work");
    assert!(keydir.get(b"x").is_some());
}

// ---- storage ------------------------------------------------------------------

#[test]
fn append_and_read_record_by_offset() {
    let dir = tempdir();
    let options = Options {
        max_data_file_size_bytes: 1024,
        ..Options::default()
    };
    let mut file_set = FileSet::open(&dir, &options).expect("fileset open should succeed");
    let record = Record::new(1, b"k1".to_vec(), b"v1".to_vec(), RecordFlags::Normal);
    let location = file_set.append(&record).expect("append should succeed");
    let decoded = file_set.read_at(location.file_id, location.offset).expect("read should succeed");
    assert_eq!(decoded.record, record);
}

#[test]
fn append_multiple_records_are_readable_in_order() {
    let dir = tempdir();
    let options = Options {
        max_data_file_size_bytes: 1024,
        ..Options::default()
    };
    let mut file_set = FileSet::open(&dir, &options).expect("fileset open should succeed");
    let r1 = Record::new(1, b"a".to_vec(), b"1".to_vec(), RecordFlags::Normal);
    let r2 = Record::new(2, b"b".to_vec(), b"2".to_vec(), RecordFlags::Normal);
    let l1 = file_set.append(&r1).expect("append should succeed");
    let l2 = file_set.append(&r2).expect("append should succeed");
    assert_eq!(l1.file_id, l2.file_id);
    assert!(l2.offset > l1.offset);
    let d1 = file_set.read_at(l1.file_id, l1.offset).expect("read should succeed");
    let d2 = file_set.read_at(l2.file_id, l2.offset).expect("read should succeed");
    assert_eq!(d1.record, r1);
    assert_eq!(d2.record, r2);
}

#[test]
fn rotates_data_file_when_size_limit_reached() {
    let dir = tempdir();
    let options = Options {
        max_data_file_size_bytes: 64,
        ..Options::default()
    };
    let mut file_set = FileSet::open(&dir, &options).expect("fileset open should succeed");
    let first = Record::new(1, b"first".to_vec(), b"value".to_vec(), RecordFlags::Normal);
    let second = Record::new(2, b"second".to_vec(), b"value".to_vec(), RecordFlags::Normal);
    let l1 = file_set.append(&first).expect("append should succeed");
    let l2 = file_set.append(&second).expect("append should succeed");
    assert!(l2.file_id > l1.file_id);
}

#[test]
fn reopen_existing_files_preserves_reads() {
    let dir = tempdir();
    let options = Options {
        max_data_file_size_bytes: 1024,
        ..Options::default()
    };
    let location = {
        let mut file_set = FileSet::open(&dir, &options).expect("fileset open should succeed");
        let record = Record::new(1, b"persist".to_vec(), b"ok".to_vec(), RecordFlags::Normal);
        file_set.append(&record).expect("append should succeed")
    };
    let reopened = FileSet::open(&dir, &options).expect("fileset reopen should succeed");
    let decoded = reopened.read_at(location.file_id, location.offset).expect("read should succeed");
    assert_eq!(decoded.record.key, b"persist".to_vec());
    assert_eq!(decoded.record.value, b"ok".to_vec());
}

#[test]
fn read_from_unknown_file_id_fails() {
    let dir = tempdir();
    let options = Options::default();
    let file_set = FileSet::open(&dir, &options).expect("fileset open should succeed");
    let err = file_set.read_at(999, 0).expect_err("read must fail");
    assert!(matches!(err, BitdbError::DataFileNotFound(999)));
}

// ---- merge --------------------------------------------------------------------

#[test]
fn merge_keeps_only_live_latest_values() {
    let dir = tempdir();
    let options = Options {
        max_data_file_size_bytes: 80,
        ..Options::default()
    };
    let mut engine = Engine::open(&dir, options).expect("open should work");
    engine.put(b"a", b"1").expect("put should work");
    engine.put(b"a", b"2").expect("put should work");
    engine.put(b"b", b"1").expect("put should work");
    engine.delete(b"b").expect("delete should work");
    engine.put(b"c", b"3").expect("put should work");
    engine.merge().expect("merge should work");
    assert_eq!(engine.get(b"a").expect("get should work"), Some(b"2".to_vec()));
    assert_eq!(engine.get(b"b").expect("get should work"), None);
    assert_eq!(engine.get(b"c").expect("get should work"), Some(b"3".to_vec()));
}

#[test]
fn merge_cleans_old_files_and_installs_compacted_files() {
    let dir = tempdir();
    let options = Options {
        max_data_file_size_bytes: 64,
        ..Options::default()
    };
    let mut engine = Engine::open(&dir, options).expect("open should work");
    for i in 0..20 {
        let key = "hot-key";
        let value = format!("payload-{i}");
        engine.put(key.as_bytes(), value.as_bytes()).expect("put should work");
    }
    let before = dir.count_data_files();
    assert!(before > 1);
    engine.merge().expect("merge should work");
    let after = dir.count_data_files();
    assert!(after > 0);
    assert!(after < before);
    assert!(!dir.has(".merge_tmp"));
}

#[test]
fn merge_keeps_reads_and_drops_tombstones_from_stats() {
    let dir = tempdir();
    let options = Options {
        max_data_file_size_bytes: 128,
        parallelism: Parallelism::Serial,
        ..Options::default()
    };
    let mut engine = Engine::open(&dir, options).expect("open should work");
    for i in 0..30u32 {
        let key = format!("k{}", i % 7);
        engine.put(key.as_bytes(), format!("v{i}").as_bytes()).unwrap();
    }
    engine.delete(b"k3").unwrap();
    let before: Vec<_> = (0..7).map(|i| engine.get(format!("k{i}").as_bytes()).unwrap()).collect();
    assert_eq!(engine.stats(), EngineStats { live_keys: 6, tombstones: 1 });
    engine.merge().unwrap();
    let after: Vec<_> = (0..7).map(|i| engine.get(format!("k{i}").as_bytes()).unwrap()).collect();
    assert_eq!(before, after);
    assert_eq!(engine.stats(), EngineStats { live_keys: 6, tombstones: 0 });
    let reopened = Engine::open(&dir, options).unwrap();
    assert_eq!(reopened.get(b"k6").unwrap(), Some(b"v27".to_vec()));
}

#[test]
fn writes_after_a_merge_survive_reopening() {
    let dir = tempdir();
    let options = Options::default();
    let mut engine = Engine::open(&dir, options).unwrap();
    engine.put(b"a", b"1").unwrap();
    engine.put(b"a", b"2").unwrap();
    engine.merge().unwrap();
    assert!(dir.has("00000001.hint"), "merge writes a hint file");
    engine.put(b"b", b"later").unwrap();
    engine.put(b"a", b"3").unwrap();
    let reopened = Engine::open(&dir, options).unwrap();
    assert_eq!(reopened.get(b"b").unwrap(), Some(b"later".to_vec()));
    assert_eq!(reopened.get(b"a").unwrap(), Some(b"3".to_vec()));
    assert_eq!(reopened.stats(), EngineStats { live_keys: 2, tombstones: 0 });
}
