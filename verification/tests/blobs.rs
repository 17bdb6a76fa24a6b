use std::collections::HashMap;

use weave::blobs::{
    BlobStore, BlobWriter, Claims, EntryKind, FileStream, GcReport, Ingested, Listed, Place,
    GC_GRACE_MS,
};
use weave::error::ErrorClass;
use weave::util::sha256_hex;

/// The unit in which files are read.
const CHUNK: usize = 64 * 1024;

/// A store with the bytes it keeps, as a disk would hold them.
struct Disk {
    store: BlobStore,
    claims: Claims,
    blobs: HashMap<String, Vec<u8>>,
    partials: HashMap<String, Vec<u8>>,
}

impl Disk {
    fn new() -> Disk {
        Disk {
            store: BlobStore::open("/scratch/blobs"),
            claims: Claims::claimed(),
            blobs: HashMap::new(),
            partials: HashMap::new(),
        }
    }

    fn put(&mut self, bytes: &[u8]) -> String {
        let (hash, fresh) = self.store.put(bytes);
        if fresh {
            self.blobs.insert(hash.clone(), bytes.to_vec());
        }
        hash
    }

    fn get(&self, hash: &str) -> Vec<u8> {
        let read = match self.blobs.get(hash) {
            Some(b) => Ok(b.clone()),
            None => Err("no such file".to_string()),
        };
        self.store.get(hash, read).unwrap()
    }

    fn ingest(&mut self, bytes: &[u8], prefix: usize) -> Ingested {
        let probe = stream(bytes, prefix);
        let copied = stream(bytes, prefix);
        let got = self.store.ingest_file(Some(probe), Some(copied)).unwrap();
        self.blobs.insert(got.hash.clone(), bytes.to_vec());
        got
    }

    /// A writer over the partial of `hash`, and the bytes it was fed with.
    fn resume(&mut self, hash: &str) -> Option<BlobWriter> {
        let mut prefix = BlobWriter::start(true);
        if let Some(held) = self.partials.get(hash) {
            prefix.write(held);
        }
        self.store.resume_writer(&mut self.claims, hash, Some(prefix)).unwrap()
    }

    fn write(&mut self, hash: &str, w: &mut BlobWriter, bytes: &[u8]) {
        w.write(bytes);
        self.partials.entry(hash.to_string()).or_default().extend_from_slice(bytes);
    }

    fn partial_path(&self, hash: &str) -> String {
        format!("{}/.partial/{}", self.store.root(), hash)
    }

    fn release(&mut self, hash: &str) {
        let path = self.partial_path(hash);
        self.claims.release(&path);
    }

    fn finish(&mut self, w: BlobWriter, hash: &str) -> weave::error::Result<u64> {
        let done = w.finish_expecting(hash);
        self.release(hash);
        let held = self.partials.remove(hash);
        if let Ok(size) = &done {
            self.store.install(hash, *size);
            self.blobs.insert(hash.to_string(), held.unwrap_or_default());
        }
        done
    }

    fn listing(&self, modified_ms: u64) -> Vec<Listed> {
        let mut items = Vec::new();
        for (hash, bytes) in &self.blobs {
            items.push(Listed {
                place: Place::Shard(hash[..2].to_string()),
                name: hash.clone(),
                kind: EntryKind::File,
                size: bytes.len() as u64,
                modified_ms: Some(modified_ms),
            });
        }
        for (hash, bytes) in &self.partials {
            items.push(Listed {
                place: Place::PartialDir,
                name: hash.clone(),
                kind: EntryKind::File,
                size: bytes.len() as u64,
                modified_ms: Some(modified_ms),
            });
        }
        items
    }

    fn collect(&mut self, live: &[&String], min_age_ms: u64) -> GcReport {
        let now = 1_000_000_000;
        let items = self.listing(now - 1);
        let live: Vec<String> = live.iter().map(|s| s.to_string()).collect();
        let doomed = self.store.collect_garbage(&items, &live, &self.claims, now, min_age_ms);
        let mut report = GcReport::default();
        for at in doomed {
            report.count(&items[at]);
            match &items[at].place {
                Place::Shard(_) => {
                    self.blobs.remove(&items[at].name);
                    self.store.forget(&items[at].name);
                }
                Place::PartialDir => {
                    self.partials.remove(&items[at].name);
                }
                Place::Root => {}
            }
        }
        report
    }
}

fn stream(bytes: &[u8], prefix: usize) -> Ingested {
    let mut s = FileStream::stream_file(prefix);
    for slice in bytes.chunks(CHUNK) {
        s.feed(slice);
    }
    s.finish()
}

#[test]
fn deduplicates_and_verifies() {
    let mut disk = Disk::new();
    let h1 = disk.put(b"hello");
    let h2 = disk.put(b"hello");
    assert_eq!(h1, h2);
    assert_eq!(disk.get(&h1), b"hello");
    assert!(disk.store.has(&h1));
    assert_eq!(disk.store.stats().0, 1);
}

#[test]
fn streaming_and_in_memory_agree_across_the_chunk_boundary() {
    let mut disk = Disk::new();
    for size in [0usize, 1, CHUNK - 1, CHUNK, CHUNK + 1, 3 * CHUNK + 17] {
        let bytes: Vec<u8> = (0..size).map(|i| (i % 251) as u8).collect();
        let ingested = disk.ingest(&bytes, 8);
        assert_eq!(ingested.hash, sha256_hex(&bytes), "size {size}");
        assert_eq!(ingested.size, size as u64, "size {size}");
        assert_eq!(ingested.prefix, bytes[..bytes.len().min(8)], "size {size}");
        assert!(disk.store.has(&ingested.hash));
        assert_eq!(disk.get(&ingested.hash), bytes, "size {size}");
    }
}

#[test]
fn ingesting_the_same_content_twice_stores_it_once() {
    let mut disk = Disk::new();
    let bytes = vec![9u8; CHUNK * 2];
    let first = disk.ingest(&bytes, 0);
    let second = disk.ingest(&bytes, 0);
    assert_eq!(first.hash, second.hash);
    assert_eq!(disk.store.stats().0, 1);
}

#[test]
fn copy_out_reproduces_the_exact_bytes() {
    let mut disk = Disk::new();
    let bytes: Vec<u8> = (0..CHUNK * 2 + 5).map(|i| (i % 256) as u8).collect();
    let hash = disk.put(&bytes);
    let copied = disk.blobs[&hash].clone();
    disk.store.copy_out(&hash, &sha256_hex(&copied)).unwrap();
    assert_eq!(copied, bytes);
    let damaged = disk.store.copy_out(&hash, &sha256_hex(b"damaged")).unwrap_err();
    assert_eq!(damaged.class, ErrorClass::IntegrityError);
}

#[test]
fn a_mismatched_announcement_installs_nothing() {
    let disk = Disk::new();
    let lie = sha256_hex(b"something else");
    let mut writer = disk.store.writer();
    writer.write(b"actual content");
    let err = writer.finish_expecting(&lie).unwrap_err();
    assert_eq!(err.class, ErrorClass::IntegrityError);
    assert!(!disk.store.has(&lie));
    assert_eq!(disk.store.stats().0, 0);
}

#[test]
fn an_abandoned_write_leaves_nothing_behind() {
    let disk = Disk::new();
    {
        let mut writer = disk.store.writer();
        writer.write(&vec![1u8; CHUNK + 3]);
        assert_eq!(writer.written(), (CHUNK + 3) as u64);
    }
    assert_eq!(disk.store.stats().0, 0);
}

#[test]
fn a_dropped_resumable_write_is_continued_from_where_it_stopped() {
    let mut disk = Disk::new();
    let bytes: Vec<u8> = (0..CHUNK * 3 + 11).map(|i| (i % 253) as u8).collect();
    let hash = sha256_hex(&bytes);
    let cut = CHUNK + 700;
    {
        let mut writer = disk.resume(&hash).expect("unclaimed");
        assert_eq!(writer.written(), 0);
        assert!(writer.resumable());
        disk.write(&hash, &mut writer, &bytes[..cut]);
    }
    disk.release(&hash);
    assert!(!disk.store.has(&hash), "a partial must never install");

    let mut writer = disk.resume(&hash).expect("unclaimed");
    assert_eq!(writer.written(), cut as u64, "resumed offset");
    disk.write(&hash, &mut writer, &bytes[cut..]);
    assert_eq!(disk.finish(writer, &hash).unwrap(), bytes.len() as u64);
    assert_eq!(disk.get(&hash), bytes);
}

#[test]
fn a_resumed_write_hashes_the_prefix_it_inherited() {
    let mut disk = Disk::new();
    let bytes = b"the quick brown fox jumps over the lazy dog".to_vec();
    let hash = sha256_hex(&bytes);
    disk.partials.insert(hash.clone(), bytes[..10].to_vec());

    let mut writer = disk.resume(&hash).expect("unclaimed");
    assert_eq!(writer.written(), 10);
    disk.write(&hash, &mut writer, &bytes[10..]);
    disk.finish(writer, &hash).unwrap();
    assert_eq!(disk.get(&hash), bytes);
}

#[test]
fn a_corrupt_partial_is_discarded_rather_than_resumed_onto() {
    let mut disk = Disk::new();
    let bytes = vec![7u8; 4096];
    let hash = sha256_hex(&bytes);
    disk.partials.insert(hash.clone(), vec![0u8; 100]);

    let mut writer = disk.resume(&hash).expect("unclaimed");
    assert_eq!(writer.written(), 100);
    disk.write(&hash, &mut writer, &bytes[100..]);
    let err = disk.finish(writer, &hash).unwrap_err();
    assert_eq!(err.class, ErrorClass::IntegrityError);
    assert!(!disk.store.has(&hash));
    assert!(!disk.partials.contains_key(&hash), "a corrupt prefix must not survive");

    // And the retry, starting from zero, succeeds.
    let mut writer = disk.resume(&hash).expect("unclaimed");
    assert_eq!(writer.written(), 0);
    disk.write(&hash, &mut writer, &bytes);
    disk.finish(writer, &hash).unwrap();
    assert!(disk.store.has(&hash));
}

#[test]
fn a_partial_can_be_reset_to_zero() {
    let mut disk = Disk::new();
    let bytes = b"short".to_vec();
    let hash = sha256_hex(&bytes);
    {
        let mut writer = disk.resume(&hash).expect("unclaimed");
        disk.write(&hash, &mut writer, b"a much longer sequence of bytes");
    }
    disk.release(&hash);
    let mut writer = disk.resume(&hash).expect("unclaimed");
    assert_eq!(writer.written(), 31);
    writer.reset();
    disk.partials.remove(&hash);
    assert_eq!(writer.written(), 0);
    disk.write(&hash, &mut writer, &bytes);
    disk.finish(writer, &hash).unwrap();
    assert_eq!(disk.get(&hash), bytes);
}

#[test]
fn a_partial_is_claimed_by_at_most_one_writer() {
    let mut disk = Disk::new();
    let hash = sha256_hex(b"contended");
    let first = disk.resume(&hash);
    assert!(first.is_some());
    assert!(disk.resume(&hash).is_none());
    // A second handle on the same directory is still the same process.
    let other = BlobStore::open("/scratch/blobs");
    assert!(other.resume_writer(&mut disk.claims, &hash, None).unwrap().is_none());
    disk.release(&hash);
    assert!(disk.resume(&hash).is_some());
}

#[test]
fn a_malformed_hash_is_refused_a_partial() {
    let disk = Disk::new();
    let mut claims = Claims::claimed();
    assert!(disk.store.resume_writer(&mut claims, "../escape", None).is_err());
    assert!(disk.store.resume_writer(&mut claims, &"z".repeat(64), None).is_err());
}

#[test]
fn collection_keeps_referenced_content_and_removes_the_rest() {
    let mut disk = Disk::new();
    let live_hash = disk.put(b"still referenced");
    let dead_hash = disk.put(b"nothing points here");

    // Nothing is old enough yet.
    let report = disk.collect(&[&live_hash], GC_GRACE_MS);
    assert!(report.is_empty());
    assert!(disk.store.has(&dead_hash));

    let report = disk.collect(&[&live_hash], 0);
    assert_eq!(report.blobs, 1);
    assert_eq!(report.bytes, b"nothing points here".len() as u64);
    assert!(disk.store.has(&live_hash), "referenced content must survive");
    assert!(!disk.store.has(&dead_hash));
}

#[test]
fn collection_leaves_a_claimed_partial_alone() {
    let mut disk = Disk::new();
    let hash = sha256_hex(b"in flight");
    let mut writer = disk.resume(&hash).expect("unclaimed");
    disk.write(&hash, &mut writer, b"in fl");

    let report = disk.collect(&[], 0);
    assert_eq!(report.partials, 0);
    assert_eq!(disk.partials[&hash].len(), 5);

    // Once the writer is gone the partial is collectable like anything else.
    disk.release(&hash);
    let report = disk.collect(&[], 0);
    assert_eq!(report.partials, 1);
    assert!(!disk.partials.contains_key(&hash));
}

#[test]
fn collection_removes_abandoned_temporaries() {
    let disk = Disk::new();
    let items = vec![Listed {
        place: Place::Root,
        name: ".part-deadbeef".to_string(),
        kind: EntryKind::File,
        size: 1,
        modified_ms: Some(1),
    }];
    let mut leftover: Vec<usize> = vec![0];
    let doomed = disk.store.collect_garbage(&items, &Vec::new(), &disk.claims, 2, 0);
    let mut report = GcReport::default();
    for at in doomed {
        report.count(&items[at]);
        leftover.retain(|left| *left != at);
    }
    assert_eq!(report.temps, 1);
    assert!(leftover.is_empty());
}

#[test]
fn collection_removes_a_partial_whose_blob_is_already_installed() {
    let mut disk = Disk::new();
    let bytes = b"arrived twice".to_vec();
    let hash = disk.put(&bytes);
    {
        let mut writer = disk.resume(&hash).expect("unclaimed");
        disk.write(&hash, &mut writer, &bytes[..4]);
    }
    disk.release(&hash);
    let report = disk.collect(&[&hash], GC_GRACE_MS);
    assert_eq!(report.partials, 1);
    assert!(disk.store.has(&hash), "the blob itself is referenced");
}

#[test]
fn something_modified_in_the_future_is_kept() {
    let disk = Disk::new();
    let items = vec![Listed {
        place: Place::Shard("ab".to_string()),
        name: "ab".repeat(32),
        kind: EntryKind::File,
        size: 1,
        modified_ms: Some(10),
    }];
    assert!(disk.store.collect_garbage(&items, &Vec::new(), &disk.claims, 5, 1).is_empty());
    assert_eq!(disk.store.collect_garbage(&items, &Vec::new(), &disk.claims, 11, 1), vec![0]);
}

#[test]
fn room_is_asked_for_twice_the_size_and_a_margin() {
    let disk = Disk::new();
    let size = 1024 * 1024;
    assert!(disk.store.ensure_room_for(size, None).is_ok());
    assert!(disk.store.ensure_room_for(size, Some(u64::MAX)).is_ok());
    let err = disk.store.ensure_room_for(size, Some(size)).unwrap_err();
    assert_eq!(err.class, ErrorClass::PersistenceError);
    assert!(err.message.starts_with("Not enough disk space for a 1.0 MiB file"));
}

#[test]
fn missing_and_corrupt_content_is_told_apart() {
    let mut disk = Disk::new();
    let absent = disk.store.get(&"0".repeat(64), Err("gone".to_string())).unwrap_err();
    assert_eq!(absent.class, ErrorClass::IntegrityError);
    let hash = disk.put(b"content");
    let corrupt = disk.store.get(&hash, Ok(b"c0ntent".to_vec())).unwrap_err();
    assert_eq!(corrupt.class, ErrorClass::IntegrityError);
    assert!(corrupt.message.contains("is corrupt"));
    assert_eq!(disk.store.size_of(&hash).unwrap(), 7);
    assert_eq!(
        disk.store.path_of(&hash).unwrap(),
        format!("/scratch/blobs/{}/{}", &hash[..2], hash)
    );
}

#[test]
fn only_full_references_are_ever_held() {
    let mut disk = Disk::new();
    disk.store.install("ab", 2);
    assert!(!disk.store.has("ab"));
    let hash = disk.put(b"ab");
    assert!(disk.store.has(&hash));
    disk.store.install("ab", 2);
    assert!(!disk.store.has("ab"));
}

#[test]
fn an_ingested_file_is_held_at_its_size() {
    let mut disk = Disk::new();
    let got = disk.ingest(b"some content", 4);
    assert_eq!(got.size, 12);
    assert!(disk.store.has(&got.hash));
    assert_eq!(disk.store.size_held(&got.hash), 12);
    let again = disk.ingest(b"some content", 4);
    assert_eq!(again.hash, got.hash);
    assert_eq!(disk.store.size_held(&got.hash), 12);
}

#[test]
fn names_are_measured_in_bytes() {
    let disk = Disk::new();
    let old = |shard: &str, name: String| Listed {
        place: Place::Shard(shard.to_string()),
        name,
        kind: EntryKind::File,
        size: 1,
        modified_ms: Some(1),
    };
    let items = vec![
        old("\u{e9}\u{e9}", "ab".repeat(32)),
        old("\u{e9}", "ab".repeat(32)),
        old("ab", "\u{e9}".repeat(64)),
        old("ab", "\u{e9}".repeat(32)),
    ];
    let doomed = disk.store.collect_garbage(&items, &Vec::new(), &disk.claims, 9, 0);
    assert_eq!(doomed, vec![1, 3]);

    let gone = || Err("no such file".to_string());
    let long = disk.store.get(&"\u{e9}".repeat(64), gone()).unwrap_err();
    assert!(long.message.starts_with("Malformed blob reference: "));
    let short = disk.store.get(&"\u{e9}".repeat(32), gone()).unwrap_err();
    assert!(short.message.ends_with(" is missing"));
    assert!(short.detail.unwrap().starts_with("/scratch/blobs/\u{e9}/\u{e9}\u{e9}"));
}
