use std::collections::HashMap;

use weave::blobs::{BlobStore, FileStream, Ingested};
use weave::error::ErrorClass;
use weave::model::{FileEntry, GitMode};
use weave::path::{RepoPath, StepKind};
use weave::scan::{
    apply_mode, finish_read, materialize_delete, materialize_file, read_path, scan_repository,
    FileMeta, Listing, Looked, MetaKind, ScanCache, Seen,
};

const NOW: i64 = 1_000_000;

/// A file as the disk would report it.
struct OnDisk {
    bytes: Vec<u8>,
    mtime_ms: i64,
}

struct Scratch {
    files: HashMap<String, OnDisk>,
    blobs: BlobStore,
}

impl Scratch {
    fn new() -> Scratch {
        Scratch { files: HashMap::new(), blobs: BlobStore::open("/scratch/blobs") }
    }

    fn file(&mut self, rel: &str, bytes: &[u8], mtime_ms: i64) -> RepoPath {
        self.files.insert(rel.to_string(), OnDisk { bytes: bytes.to_vec(), mtime_ms });
        RepoPath::new(rel).unwrap()
    }

    /// A file that has been sitting there for a while.
    fn settled_file(&mut self, rel: &str, bytes: &[u8]) -> RepoPath {
        self.file(rel, bytes, NOW - 30_000)
    }
}

fn stream(bytes: &[u8]) -> Ingested {
    let mut s = FileStream::stream_file(64);
    s.feed(bytes);
    s.finish()
}

fn read(scratch: &mut Scratch, path: &RepoPath, cache: &mut ScanCache) -> Option<FileEntry> {
    let meta = scratch.files.get(path.as_str()).map(|f| FileMeta {
        kind: MetaKind::File,
        size: f.bytes.len() as u64,
        mtime_ms: Some(f.mtime_ms),
    });
    let looked =
        read_path(path, &vec![StepKind::Plain], &meta, None, None, &scratch.blobs, cache).unwrap();
    match looked {
        Looked::Absent => None,
        Looked::Known(e) => Some(e),
        Looked::Ingest(mode) => {
            let bytes = scratch.files[path.as_str()].bytes.clone();
            let ingested = scratch.blobs.ingest_file(Some(stream(&bytes)), Some(stream(&bytes)));
            finish_read(path, &meta.unwrap(), mode, &ingested, NOW, cache)
        }
    }
}

#[test]
fn an_unchanged_file_is_answered_from_metadata() {
    let mut scratch = Scratch::new();
    let path = scratch.settled_file("asset.bin", b"first content");
    let mut cache = ScanCache::new();

    let first = read(&mut scratch, &path, &mut cache).expect("present");
    assert_eq!(cache.len(), 1);

    scratch.settled_file("asset.bin", b"other content");
    let second = read(&mut scratch, &path, &mut cache).expect("present");
    assert_eq!(
        second.blob_hash, first.blob_hash,
        "the metadata said nothing changed, so nothing was read"
    );
}

#[test]
fn a_changed_file_is_read_again() {
    let mut scratch = Scratch::new();
    let path = scratch.settled_file("asset.bin", b"aaaaaaaa");
    let mut cache = ScanCache::new();
    let first = read(&mut scratch, &path, &mut cache).expect("present");

    let second_path = scratch.file("asset.bin", b"bbbbbbbb", NOW - 20_000);
    assert_eq!(second_path, path);
    let second = read(&mut scratch, &path, &mut cache).expect("present");
    assert_ne!(first.blob_hash, second.blob_hash);
    assert_eq!(second.size, 8);
}

#[test]
fn a_freshly_written_file_is_not_cached() {
    let mut scratch = Scratch::new();
    let path = scratch.file("hot.bin", b"just now", NOW);
    let mut cache = ScanCache::new();
    read(&mut scratch, &path, &mut cache).expect("present");
    assert!(cache.is_empty(), "a racily clean file must not be cached");
}

#[test]
fn a_hit_is_refused_when_the_blob_is_gone() {
    let mut scratch = Scratch::new();
    let path = scratch.settled_file("asset.bin", b"content that will vanish");
    let mut cache = ScanCache::new();
    let entry = read(&mut scratch, &path, &mut cache).expect("present");
    assert_eq!(cache.len(), 1);

    scratch.blobs.forget(&entry.blob_hash);
    assert!(!scratch.blobs.has(&entry.blob_hash));

    let again = read(&mut scratch, &path, &mut cache).expect("present");
    assert_eq!(again.blob_hash, entry.blob_hash);
    assert!(scratch.blobs.has(&entry.blob_hash), "the content was stored again");
}

#[test]
fn a_vanished_path_is_dropped_from_the_cache() {
    let mut scratch = Scratch::new();
    let path = scratch.settled_file("asset.bin", b"here for now");
    let mut cache = ScanCache::new();
    read(&mut scratch, &path, &mut cache).expect("present");
    assert_eq!(cache.len(), 1);
    scratch.files.clear();
    assert!(read(&mut scratch, &path, &mut cache).is_none());
    assert!(cache.is_empty());
}

#[test]
fn the_mode_comes_from_the_permissions_where_there_are_any() {
    let scratch = Scratch::new();
    let path = RepoPath::new("tool").unwrap();
    let meta = Some(FileMeta { kind: MetaKind::File, size: 1, mtime_ms: None });
    let mut cache = ScanCache::new();
    let steps = vec![StepKind::Plain];
    match read_path(&path, &steps, &meta, Some(0o755), None, &scratch.blobs, &mut cache).unwrap() {
        Looked::Ingest(mode) => assert_eq!(mode, GitMode::Executable),
        other => panic!("unexpected {other:?}"),
    }
    let before = FileEntry::from_bytes(b"x", GitMode::Executable);
    match read_path(&path, &steps, &meta, None, Some(&before), &scratch.blobs, &mut cache).unwrap()
    {
        Looked::Ingest(mode) => assert_eq!(mode, GitMode::Executable),
        other => panic!("unexpected {other:?}"),
    }
}

#[test]
fn a_scan_reports_what_it_cannot_synchronize() {
    let raw = vec![
        "good.txt".to_string(),
        "nul".to_string(),
        "GOOD.txt".to_string(),
        "locked.txt".to_string(),
        "gone.txt".to_string(),
    ];
    let seen = vec![
        Seen::File(FileEntry::from_bytes(b"g", GitMode::Regular)),
        Seen::Absent,
        Seen::Absent,
        Seen::Unreadable(weave::error::repository("no permission")),
        Seen::Absent,
    ];
    let result = scan_repository(&raw, seen);
    let found: Vec<&str> = result.entries.iter().map(|f| f.path.as_str()).collect();
    assert_eq!(found, vec!["good.txt"]);
    let refused: Vec<&str> = result.rejected.iter().map(|r| r.path.as_str()).collect();
    assert_eq!(refused, vec!["nul", "GOOD.txt", "locked.txt"]);
    assert_eq!(weave::error::repository("x").class, ErrorClass::RepositoryError);
}

#[test]
fn only_verified_content_replaces_a_file() {
    let mut scratch = Scratch::new();
    let path = RepoPath::new("a/b.txt").unwrap();
    let (hash, _) = scratch.blobs.put(b"content");
    let steps = vec![StepKind::Plain, StepKind::Plain];
    assert!(materialize_file(&path, &steps, &scratch.blobs, &hash, &hash).is_ok());
    let other = weave::util::sha256_hex(b"other");
    let damaged = materialize_file(&path, &steps, &scratch.blobs, &hash, &other).unwrap_err();
    assert_eq!(damaged.class, ErrorClass::IntegrityError);
    let gone = materialize_file(&path, &steps, &scratch.blobs, &other, &other).unwrap_err();
    assert_eq!(gone.class, ErrorClass::IntegrityError);
    let linked = vec![StepKind::Link, StepKind::Plain];
    let refused = materialize_file(&path, &linked, &scratch.blobs, &hash, &hash).unwrap_err();
    assert_eq!(refused.class, ErrorClass::UnsupportedError);
}

#[test]
fn a_mode_changes_the_executable_bits_alone() {
    assert_eq!(apply_mode(0o100640, GitMode::Executable), Some(0o100751));
    assert_eq!(apply_mode(0o100755, GitMode::Regular), Some(0o100644));
    assert_eq!(apply_mode(0o100600, GitMode::Regular), None);
}

#[test]
fn emptied_directories_are_pruned_from_the_inside() {
    let path = RepoPath::new("a/b/c/d.txt").unwrap();
    assert_eq!(materialize_delete(&path, &vec![true, true, true]), vec!["a/b/c", "a/b", "a"]);
    assert_eq!(materialize_delete(&path, &vec![true, false, true]), vec!["a/b/c"]);
    assert!(materialize_delete(&path, &vec![true, true, false]).is_empty());
    assert!(materialize_delete(&RepoPath::new("x").unwrap(), &Vec::new()).is_empty());
}

#[test]
fn a_file_above_the_limit_is_set_aside_unread() {
    let mut listing = Listing::new(10);
    assert!(listing.consider("../out.txt").is_none());
    let big = listing.consider("big.bin").unwrap();
    assert!(listing.weigh(big, Some(11), true).is_none());
    let edge = listing.consider("edge.bin").unwrap();
    let edge = listing.weigh(edge, Some(10), false).unwrap();
    listing.record(edge, Seen::File(FileEntry::from_bytes(b"0123456789", GitMode::Regular)));
    let gone = listing.consider("gone.bin").unwrap();
    let gone = listing.weigh(gone, None, false).unwrap();
    listing.record(gone, Seen::Absent);
    assert_eq!(listing.found(), vec![RepoPath::new("edge.bin").unwrap()]);
    assert_eq!(listing.result.rejected.len(), 1);
    assert_eq!(listing.oversize.len(), 1);
    assert_eq!(listing.oversize[0].path.as_str(), "big.bin");
    assert_eq!(listing.oversize[0].size, 11);
    assert!(listing.oversize[0].canonical);
}

#[test]
fn found_files_have_names_of_their_own() {
    let entry = |b: &[u8]| Seen::File(FileEntry::from_bytes(b, GitMode::Regular));
    let raw: Vec<String> =
        ["Readme.md", "a.txt", "gone.txt", "readme.md"].iter().map(|s| s.to_string()).collect();
    let seen = vec![entry(b"1"), entry(b"2"), Seen::Absent, entry(b"3")];
    let r = scan_repository(&raw, seen);
    let found: Vec<&str> = r.entries.iter().map(|f| f.path.as_str()).collect();
    assert_eq!(found, vec!["Readme.md", "a.txt"]);
    assert_eq!(r.rejected.len(), 1);
    assert_eq!(r.rejected[0].path, "readme.md");
}
