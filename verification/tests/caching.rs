use ripgrep_all::adapters::zip::{ZipAdapter, ZipEntry};
use ripgrep_all::adapters::{AdaptError, AdaptInfo, AdapterEntry, FileAdapter};
use ripgrep_all::cache_key::{compute_cache_key, ModifiedTime};
use ripgrep_all::config::{CacheConfig, RgaConfig};
use ripgrep_all::error::PreprocError;
use ripgrep_all::matching::FileMatcher;
use ripgrep_all::preproc::{rga_preproc, Commit};
use ripgrep_all::preproc_cache::{CacheError, NoCache, PreprocCache};
use std::cell::Cell;
use std::collections::BTreeMap;
use std::io::{Cursor, Read, Write};
use std::path::PathBuf;
use std::time::{Duration, SystemTime};

struct Unzip {
    runs: Cell<usize>,
}

impl FileAdapter for Unzip {
    fn adapt(&self, ai: AdaptInfo, detection_reason: &FileMatcher) -> Result<Vec<AdaptInfo>, AdaptError> {
        self.runs.set(self.runs.get() + 1);
        let mut archive = zip::ZipArchive::new(Cursor::new(ai.inp.clone()))
            .map_err(|e| AdaptError { message: e.to_string() })?;
        let mut entries = Vec::new();
        for i in 0..archive.len() {
            let mut file = archive.by_index(i).map_err(|e| AdaptError { message: e.to_string() })?;
            let mut content = Vec::new();
            file.read_to_end(&mut content).map_err(|e| AdaptError { message: e.to_string() })?;
            entries.push(ZipEntry { filename: file.name().to_string(), content });
        }
        Ok(ZipAdapter::new().adapt(ai, detection_reason, entries))
    }
}

#[derive(Default)]
struct MemCache {
    stored: BTreeMap<(String, Vec<u8>), Vec<u8>>,
    gets: Cell<usize>,
    sets: usize,
    fail_get: bool,
    fail_set: bool,
}

impl PreprocCache for MemCache {
    fn get(&self, db_name: &str, key: &[u8]) -> Result<Option<Vec<u8>>, CacheError> {
        self.gets.set(self.gets.get() + 1);
        if self.fail_get {
            return Err(CacheError { message: "cannot read".to_string() });
        }
        Ok(self.stored.get(&(db_name.to_string(), key.to_vec())).cloned())
    }

    fn set(&mut self, db_name: &str, key: &[u8], value: &[u8]) -> Result<(), CacheError> {
        self.sets += 1;
        if self.fail_set {
            return Err(CacheError { message: "cannot write".to_string() });
        }
        self.stored.insert((db_name.to_string(), key.to_vec()), value.to_vec());
        Ok(())
    }
}

fn make_zip(files: &[(&str, Vec<u8>)]) -> Vec<u8> {
    let mut zip = zip::ZipWriter::new(Cursor::new(Vec::new()));
    let options = zip::write::FileOptions::default().compression_method(zip::CompressionMethod::Stored);
    for (name, content) in files {
        zip.start_file(*name, options).unwrap();
        zip.write_all(content).unwrap();
    }
    zip.finish().unwrap().into_inner()
}

fn outer_zip() -> Vec<u8> {
    let inner = make_zip(&[("inner.txt", b"inner text file".to_vec())]);
    make_zip(&[("outer.txt", b"outer text file".to_vec()), ("inner.zip", inner)])
}

const EXPECTED: &str = "outer.txt: outer text file\ninner.zip: inner.txt: inner text file\n";

fn config(max_blob_len: usize) -> RgaConfig {
    RgaConfig {
        accurate: false,
        adapters: Vec::new(),
        max_archive_recursion: 4,
        cache: CacheConfig { disabled: false, max_blob_len, compression_level: 12 },
    }
}

fn registry(version: i32) -> Vec<AdapterEntry<Unzip>> {
    let mut meta = ZipAdapter::new().metadata();
    meta.version = version;
    vec![AdapterEntry { meta, adapter: Unzip { runs: Cell::new(0) } }]
}

fn file(path: &str, inp: Vec<u8>) -> AdaptInfo {
    AdaptInfo {
        filepath_hint: path.to_string(),
        is_real_file: true,
        archive_recursion_depth: 0,
        inp,
        line_prefix: String::new(),
        postprocess: true,
    }
}

fn at(secs_since_epoch: u64) -> Option<ModifiedTime> {
    Some(ModifiedTime { secs_since_epoch, nanos_since_epoch: 0 })
}

#[test]
fn second_run_on_the_same_file_comes_from_the_cache() {
    let registry = registry(1);
    let cfg = config(2000000);
    let mut cache = MemCache::default();
    let first = rga_preproc(&cfg, &registry, file("/data/outer.zip", outer_zip()), &mut cache, at(100)).unwrap();
    assert_eq!(String::from_utf8(first.bytes.clone()).unwrap(), EXPECTED);
    assert!(!first.from_cache);
    assert!(matches!(first.commit, Commit::Stored));
    assert_eq!(registry[0].adapter.runs.get(), 2);
    assert_eq!(cache.stored.len(), 1);

    let second = rga_preproc(&cfg, &registry, file("/data/outer.zip", outer_zip()), &mut cache, at(100)).unwrap();
    assert_eq!(second.bytes, first.bytes);
    assert!(second.from_cache);
    assert!(matches!(second.commit, Commit::NotTried));
    // no adapter ran for the second run, and nothing was stored again
    assert_eq!(registry[0].adapter.runs.get(), 2);
    assert_eq!(cache.sets, 1);
    assert_eq!(cache.gets.get(), 2);
}

#[test]
fn the_output_is_stored_under_the_adapters_partition() {
    let registry = registry(1);
    let mut cache = MemCache::default();
    rga_preproc(&config(2000000), &registry, file("/data/outer.zip", outer_zip()), &mut cache, at(100)).unwrap();
    let ((partition, key), value) = cache.stored.iter().next().unwrap();
    assert_eq!(partition, "zip.v1");
    assert_eq!(value, EXPECTED.as_bytes());
    let active = vec![&registry[0]];
    let expected_key = compute_cache_key("/data/outer.zip", &at(100).unwrap(), &registry[0].meta, &active).unwrap();
    assert_eq!(key, &expected_key);
}

#[test]
fn a_modified_file_is_not_found_in_the_cache() {
    let registry = registry(1);
    let cfg = config(2000000);
    let mut cache = MemCache::default();
    rga_preproc(&cfg, &registry, file("/data/outer.zip", outer_zip()), &mut cache, at(100)).unwrap();
    let changed = make_zip(&[("outer.txt", b"changed".to_vec())]);
    let second = rga_preproc(&cfg, &registry, file("/data/outer.zip", changed), &mut cache, at(101)).unwrap();
    assert!(!second.from_cache);
    assert_eq!(second.bytes, b"outer.txt: changed\n".to_vec());
    assert!(matches!(second.commit, Commit::Stored));
    assert_eq!(cache.stored.len(), 2);
    // a change of the nanoseconds alone is a change too
    let third = rga_preproc(
        &cfg,
        &registry,
        file("/data/outer.zip", outer_zip()),
        &mut cache,
        Some(ModifiedTime { secs_since_epoch: 100, nanos_since_epoch: 1 }),
    )
    .unwrap();
    assert!(!third.from_cache);
}

#[test]
fn another_path_is_not_found_in_the_cache() {
    let registry = registry(1);
    let cfg = config(2000000);
    let mut cache = MemCache::default();
    rga_preproc(&cfg, &registry, file("/data/outer.zip", outer_zip()), &mut cache, at(100)).unwrap();
    let other = rga_preproc(&cfg, &registry, file("/data/other.zip", outer_zip()), &mut cache, at(100)).unwrap();
    assert!(!other.from_cache);
    // the same place written in another way is the same file
    let same = rga_preproc(&cfg, &registry, file("/data/x/../outer.zip", outer_zip()), &mut cache, at(100)).unwrap();
    assert!(same.from_cache);
}

#[test]
fn output_over_the_limit_is_never_stored() {
    let registry = registry(1);
    let cfg = config(EXPECTED.len() - 1);
    let mut cache = MemCache::default();
    for run in 1..=3 {
        let r = rga_preproc(&cfg, &registry, file("/data/outer.zip", outer_zip()), &mut cache, at(100)).unwrap();
        assert_eq!(String::from_utf8(r.bytes).unwrap(), EXPECTED);
        assert!(!r.from_cache);
        assert!(matches!(r.commit, Commit::NotTried));
        assert_eq!(registry[0].adapter.runs.get(), 2 * run);
    }
    assert!(cache.stored.is_empty());
    assert_eq!(cache.sets, 0);
}

#[test]
fn output_of_exactly_the_limit_is_stored() {
    let registry = registry(1);
    let cfg = config(EXPECTED.len());
    let mut cache = MemCache::default();
    let r = rga_preproc(&cfg, &registry, file("/data/outer.zip", outer_zip()), &mut cache, at(100)).unwrap();
    assert!(matches!(r.commit, Commit::Stored));
    assert_eq!(cache.stored.len(), 1);
}

#[test]
fn a_new_version_is_not_found_in_the_cache() {
    let cfg = config(2000000);
    let mut cache = MemCache::default();
    let old = registry(1);
    rga_preproc(&cfg, &old, file("/data/outer.zip", outer_zip()), &mut cache, at(100)).unwrap();
    let new = registry(2);
    let r = rga_preproc(&cfg, &new, file("/data/outer.zip", outer_zip()), &mut cache, at(100)).unwrap();
    assert!(!r.from_cache);
    assert_eq!(new[0].adapter.runs.get(), 2);
    let partitions: Vec<&str> = cache.stored.keys().map(|k| k.0.as_str()).collect();
    assert_eq!(partitions, vec!["zip.v1", "zip.v2"]);
    // the old version still finds its own
    let again = rga_preproc(&cfg, &old, file("/data/outer.zip", outer_zip()), &mut cache, at(100)).unwrap();
    assert!(again.from_cache);
}

#[test]
fn a_negative_version_has_a_partition_of_its_own() {
    let cfg = config(2000000);
    let mut cache = MemCache::default();
    let reg = registry(-12);
    rga_preproc(&cfg, &reg, file("/data/outer.zip", outer_zip()), &mut cache, at(100)).unwrap();
    assert_eq!(cache.stored.keys().next().unwrap().0, "zip.v-12");
}

#[test]
fn a_failed_commit_keeps_the_output() {
    let registry = registry(1);
    let mut cache = MemCache { fail_set: true, ..MemCache::default() };
    let r = rga_preproc(&config(2000000), &registry, file("/data/outer.zip", outer_zip()), &mut cache, at(100)).unwrap();
    assert_eq!(String::from_utf8(r.bytes).unwrap(), EXPECTED);
    match r.commit {
        Commit::Failed(e) => assert_eq!(e.message, "cannot write"),
        other => panic!("expected a failed commit, got {:?}", other),
    }
}

#[test]
fn a_failed_lookup_is_an_error() {
    let registry = registry(1);
    let mut cache = MemCache { fail_get: true, ..MemCache::default() };
    let r = rga_preproc(&config(2000000), &registry, file("/data/outer.zip", outer_zip()), &mut cache, at(100));
    match r {
        Err(PreprocError::Cache(e)) => assert_eq!(e.message, "cannot read"),
        _ => panic!("expected the cache's failure"),
    }
    assert_eq!(registry[0].adapter.runs.get(), 0);
}

#[test]
fn without_a_time_or_with_the_cache_off_nothing_is_cached() {
    let registry = registry(1);
    let mut cache = MemCache::default();
    let r = rga_preproc(&config(2000000), &registry, file("/data/outer.zip", outer_zip()), &mut cache, None).unwrap();
    assert_eq!(String::from_utf8(r.bytes).unwrap(), EXPECTED);
    assert!(matches!(r.commit, Commit::NotTried));
    let mut off = config(2000000);
    off.cache.disabled = true;
    let r = rga_preproc(&off, &registry, file("/data/outer.zip", outer_zip()), &mut cache, at(100)).unwrap();
    assert!(matches!(r.commit, Commit::NotTried));
    let nested = AdaptInfo { is_real_file: false, ..file("outer.zip", outer_zip()) };
    let r = rga_preproc(&config(2000000), &registry, nested, &mut cache, at(100)).unwrap();
    assert!(matches!(r.commit, Commit::NotTried));
    assert_eq!(cache.gets.get(), 0);
    assert_eq!(cache.sets, 0);
}

#[test]
fn a_file_that_nothing_takes_is_handed_on_byte_for_byte() {
    let registry = registry(1);
    let mut cache = MemCache::default();
    let bytes: Vec<u8> = (0..=255u8).chain(b"\n\n\r\n".iter().copied()).collect();
    let nested = AdaptInfo {
        filepath_hint: "dir/blob.bin".to_string(),
        is_real_file: false,
        archive_recursion_depth: 3,
        inp: bytes.clone(),
        line_prefix: "dir/blob.bin: ".to_string(),
        postprocess: false,
    };
    let r = rga_preproc(&config(2000000), &registry, nested, &mut cache, None).unwrap();
    assert_eq!(r.bytes, bytes);
    assert!(!r.from_cache);
    assert!(matches!(r.commit, Commit::NotTried));
    // on disk, in accurate mode
    let mut accurate = config(2000000);
    accurate.accurate = true;
    let on_disk = AdaptInfo { postprocess: false, ..file("/data/blob.bin", bytes.clone()) };
    let r = rga_preproc(&accurate, &registry, on_disk, &mut cache, at(100)).unwrap();
    assert_eq!(r.bytes, bytes);
    assert_eq!(cache.gets.get(), 0);
    assert_eq!(registry[0].adapter.runs.get(), 0);
}

#[test]
fn a_file_on_disk_that_nothing_takes_is_refused() {
    let registry = registry(1);
    let mut cache = MemCache::default();
    let r = rga_preproc(&config(2000000), &registry, file("/data/notes.txt", b"abc".to_vec()), &mut cache, at(100));
    match r {
        Err(PreprocError::NoAdapterFound(path)) => assert_eq!(path, "/data/notes.txt"),
        _ => panic!("expected a refusal"),
    }
}

fn le64(n: u64) -> Vec<u8> {
    n.to_le_bytes().to_vec()
}

#[test]
fn the_key_of_a_recursing_adapter_holds_every_active_adapter() {
    let mut other = ZipAdapter::new().metadata();
    other.name = "tar".to_string();
    other.version = -2;
    let registry = vec![
        AdapterEntry { meta: ZipAdapter::new().metadata(), adapter: Unzip { runs: Cell::new(0) } },
        AdapterEntry { meta: other, adapter: Unzip { runs: Cell::new(0) } },
    ];
    let active = vec![&registry[0], &registry[1]];
    let modified = ModifiedTime { secs_since_epoch: 0x0102030405060708, nanos_since_epoch: 999999999 };
    let key = compute_cache_key("/tmp//x/../a.zip", &modified, &registry[0].meta, &active).unwrap();
    let mut expected = Vec::new();
    expected.extend(le64(2));
    expected.extend(le64(3));
    expected.extend(b"zip");
    expected.extend(1i32.to_le_bytes());
    expected.extend(le64(3));
    expected.extend(b"tar");
    expected.extend([0xfe, 0xff, 0xff, 0xff]);
    expected.extend(le64(10));
    expected.extend(b"/tmp/a.zip");
    expected.extend([8, 7, 6, 5, 4, 3, 2, 1]);
    expected.extend(999999999u32.to_le_bytes());
    assert_eq!(key, expected);
    // the same bytes as the tuple of list, path and system time gives
    let time = SystemTime::UNIX_EPOCH + Duration::new(0x0102030405060708, 999999999);
    let list = vec![("zip".to_string(), 1i32), ("tar".to_string(), -2i32)];
    assert_eq!(key, bincode::serialize(&(list, PathBuf::from("/tmp/a.zip"), time)).unwrap());
}

#[test]
fn the_key_of_another_adapter_holds_that_adapter_alone() {
    let mut meta = ZipAdapter::new().metadata();
    meta.recurses = false;
    meta.name = "pdf".to_string();
    meta.version = 7;
    let registry = vec![
        AdapterEntry { meta: ZipAdapter::new().metadata(), adapter: Unzip { runs: Cell::new(0) } },
        AdapterEntry { meta, adapter: Unzip { runs: Cell::new(0) } },
    ];
    let active = vec![&registry[0], &registry[1]];
    let modified = ModifiedTime { secs_since_epoch: 5, nanos_since_epoch: 6 };
    let key = compute_cache_key("./a.pdf", &modified, &registry[1].meta, &active).unwrap();
    let mut expected = Vec::new();
    expected.extend(le64(3));
    expected.extend(b"pdf");
    expected.extend(7i32.to_le_bytes());
    expected.extend(le64(5));
    expected.extend(b"a.pdf");
    expected.extend(le64(5));
    expected.extend(6u32.to_le_bytes());
    assert_eq!(key, expected);
    let time = SystemTime::UNIX_EPOCH + Duration::new(5, 6);
    assert_eq!(key, bincode::serialize(&("pdf".to_string(), 7i32, PathBuf::from("a.pdf"), time)).unwrap());
    // it does not change with the other active adapters
    let alone = vec![&registry[1]];
    assert_eq!(key, compute_cache_key("./a.pdf", &modified, &registry[1].meta, &alone).unwrap());
}

#[test]
fn the_key_is_the_same_for_the_same_inputs_and_changes_with_each_of_them() {
    let registry = registry(1);
    let bumped = registry_with_version(2);
    let active = vec![&registry[0]];
    let modified = ModifiedTime { secs_since_epoch: 5, nanos_since_epoch: 6 };
    let key = compute_cache_key("/a/b.zip", &modified, &registry[0].meta, &active).unwrap();
    assert_eq!(key, compute_cache_key("/a/b.zip", &modified, &registry[0].meta, &active).unwrap());
    assert_ne!(key, compute_cache_key("/a/c.zip", &modified, &registry[0].meta, &active).unwrap());
    let later = ModifiedTime { secs_since_epoch: 6, nanos_since_epoch: 6 };
    assert_ne!(key, compute_cache_key("/a/b.zip", &later, &registry[0].meta, &active).unwrap());
    let active_bumped = vec![&bumped[0]];
    assert_ne!(key, compute_cache_key("/a/b.zip", &modified, &bumped[0].meta, &active_bumped).unwrap());
}

fn registry_with_version(version: i32) -> Vec<AdapterEntry<Unzip>> {
    registry(version)
}

#[test]
fn with_no_cache_every_run_is_fresh() {
    let registry = registry(1);
    let cfg = config(2000000);
    let mut cache = NoCache;
    for run in 1..=2 {
        let r = rga_preproc(&cfg, &registry, file("/data/outer.zip", outer_zip()), &mut cache, at(100)).unwrap();
        assert_eq!(String::from_utf8(r.bytes).unwrap(), EXPECTED);
        assert!(!r.from_cache);
        assert!(matches!(r.commit, Commit::Stored));
        assert_eq!(registry[0].adapter.runs.get(), 2 * run);
    }
    assert!(matches!(cache.get("zip.v1", b"key"), Ok(None)));
    assert!(cache.set("zip.v1", b"key", b"value").is_ok());
    assert!(matches!(cache.get("zip.v1", b"key"), Ok(None)));
}
