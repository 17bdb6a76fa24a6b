use std::collections::HashMap;

use weave::blobs::{BlobStore, BlobWriter};
use weave::blobwire::{
    abort_frame, chunk_frame, decode, end_frame, frame, BlobReceiver, Delivered, Incoming,
    TransferIds, KIND_CHUNK, KIND_END, MAX_DATA_MESSAGE, MAX_OPEN_TRANSFERS, WIRE_CHUNK,
};
use weave::error::Result;
use weave::util::sha256_hex;

/// A receiver with the store and the partials behind it.
struct Side {
    receiver: BlobReceiver,
    store: BlobStore,
    partials: HashMap<String, Vec<u8>>,
    open: HashMap<u64, String>,
}

impl Side {
    fn new() -> Side {
        Side {
            receiver: BlobReceiver::new(),
            store: BlobStore::open("/scratch/blobs"),
            partials: HashMap::new(),
            open: HashMap::new(),
        }
    }

    fn offer(&mut self, id: u64, hash: &str, size: u64) -> Result<u64> {
        let mut writer = BlobWriter::start(true);
        if let Some(held) = self.partials.get(hash) {
            writer.write(held);
        }
        let from = self.receiver.accept_offer(id, hash, size, &self.store, None, writer)?;
        if from == 0 {
            self.partials.remove(hash);
        }
        self.open.insert(id, hash.to_string());
        Ok(from)
    }

    fn take(&mut self, bytes: &[u8]) -> Delivered {
        let frame = decode(bytes).unwrap();
        let outcome = self.receiver.accept(decode(bytes).unwrap());
        if let (Incoming::Chunk { transfer_id, bytes }, Delivered::More) = (&frame, &outcome) {
            let hash = self.open[transfer_id].clone();
            self.partials.entry(hash).or_default().extend_from_slice(bytes);
        }
        match &outcome {
            Delivered::Installed { hash, .. } => {
                let held = self.partials.remove(hash).unwrap_or_default();
                self.store.install(hash, held.len() as u64);
                assert_eq!(&sha256_hex(&held), hash);
            }
            Delivered::Failed { hash, .. } => {
                self.partials.remove(hash);
            }
            _ => {}
        }
        outcome
    }

    fn reconnect(&mut self) {
        self.receiver = BlobReceiver::new();
        self.open.clear();
    }

    fn send(&mut self, id: u64, bytes: &[u8]) -> Delivered {
        let hash = sha256_hex(bytes);
        self.offer(id, &hash, bytes.len() as u64).unwrap();
        self.send_open(id, bytes)
    }

    fn send_open(&mut self, id: u64, bytes: &[u8]) -> Delivered {
        for slice in bytes.chunks(WIRE_CHUNK).filter(|s| !s.is_empty()) {
            assert_eq!(self.take(&chunk_frame(id, slice)), Delivered::More);
        }
        self.take(&end_frame(id))
    }
}

#[test]
fn frames_round_trip_including_the_empty_payload() {
    let payload = vec![0xA5u8; WIRE_CHUNK];
    let encoded = chunk_frame(7, &payload);
    assert!(encoded.len() <= MAX_DATA_MESSAGE);
    assert_eq!(
        decode(&encoded).unwrap(),
        Incoming::Chunk { transfer_id: 7, bytes: &payload }
    );
    assert_eq!(
        decode(&end_frame(u64::MAX)).unwrap(),
        Incoming::End { transfer_id: u64::MAX }
    );
    assert_eq!(decode(&abort_frame(0)).unwrap(), Incoming::Abort { transfer_id: 0 });
}

#[test]
fn malformed_frames_are_refused_rather_than_guessed_at() {
    assert!(decode(&[]).is_err());
    assert!(decode(&[KIND_CHUNK, 0, 0]).is_err());
    assert!(decode(&frame(99, 1, b"body")).is_err());
    // An end marker carrying a payload is a sender this side does not
    // understand, not an end marker with something extra.
    assert!(decode(&frame(KIND_END, 1, b"body")).is_err());
}

#[test]
fn a_frame_starts_with_its_kind_and_transfer() {
    assert_eq!(
        chunk_frame(0x0102_0304_0506_0708, b"ab"),
        vec![0, 1, 2, 3, 4, 5, 6, 7, 8, b'a', b'b']
    );
}

#[test]
fn a_transfer_spanning_many_frames_installs_the_exact_bytes() {
    let mut side = Side::new();
    let bytes: Vec<u8> = (0..(WIRE_CHUNK * 3 + 11)).map(|i| (i % 251) as u8).collect();
    let hash = sha256_hex(&bytes);

    assert_eq!(
        side.send(1, &bytes),
        Delivered::Installed { transfer_id: 1, hash: hash.clone() }
    );
    assert_eq!(side.store.size_of(&hash).unwrap(), bytes.len() as u64);
    assert_eq!(side.receiver.open_count(), 0);
}

#[test]
fn concurrent_transfers_do_not_contaminate_each_other() {
    let mut side = Side::new();
    let a: Vec<u8> = (0..(WIRE_CHUNK + 5)).map(|i| (i % 97) as u8).collect();
    let b: Vec<u8> = (0..(WIRE_CHUNK * 2)).map(|i| (i % 131) as u8).collect();
    let (ha, hb) = (sha256_hex(&a), sha256_hex(&b));

    side.offer(1, &ha, a.len() as u64).unwrap();
    side.offer(2, &hb, b.len() as u64).unwrap();

    // Interleave the two transfers frame by frame.
    let mut fa = a.chunks(WIRE_CHUNK);
    let mut fb = b.chunks(WIRE_CHUNK);
    loop {
        let (na, nb) = (fa.next(), fb.next());
        if na.is_none() && nb.is_none() {
            break;
        }
        if let Some(slice) = na {
            assert_eq!(side.take(&chunk_frame(1, slice)), Delivered::More);
        }
        if let Some(slice) = nb {
            assert_eq!(side.take(&chunk_frame(2, slice)), Delivered::More);
        }
    }
    assert_eq!(
        side.take(&end_frame(2)),
        Delivered::Installed { transfer_id: 2, hash: hb.clone() }
    );
    assert_eq!(
        side.take(&end_frame(1)),
        Delivered::Installed { transfer_id: 1, hash: ha.clone() }
    );
    assert_eq!(side.store.size_of(&ha).unwrap(), a.len() as u64);
    assert_eq!(side.store.size_of(&hb).unwrap(), b.len() as u64);
}

#[test]
fn content_that_does_not_match_the_announced_hash_installs_nothing() {
    let mut side = Side::new();
    let honest = vec![1u8; WIRE_CHUNK + 3];
    let hash = sha256_hex(&honest);
    let mut tampered = honest.clone();
    tampered[WIRE_CHUNK] ^= 0xFF;

    side.offer(1, &hash, tampered.len() as u64).unwrap();
    for slice in tampered.chunks(WIRE_CHUNK) {
        side.take(&chunk_frame(1, slice));
    }
    match side.take(&end_frame(1)) {
        Delivered::Failed { transfer_id, .. } => assert_eq!(transfer_id, 1),
        other => panic!("tampered content was not refused: {other:?}"),
    }
    assert!(!side.store.has(&hash));
}

#[test]
fn a_truncated_transfer_installs_nothing() {
    let mut side = Side::new();
    let bytes = vec![4u8; WIRE_CHUNK * 2];
    let hash = sha256_hex(&bytes);

    side.offer(1, &hash, bytes.len() as u64).unwrap();
    side.take(&chunk_frame(1, &bytes[..WIRE_CHUNK]));
    match side.take(&end_frame(1)) {
        Delivered::Failed { reason, .. } => assert!(reason.contains("never arrived")),
        other => panic!("a truncated transfer was accepted: {other:?}"),
    }
    assert!(!side.store.has(&hash));
}

#[test]
fn a_sender_cannot_write_more_than_it_announced() {
    let mut side = Side::new();
    let hash = sha256_hex(b"small");
    side.offer(1, &hash, 5).unwrap();
    match side.take(&chunk_frame(1, &[0u8; 4096])) {
        Delivered::Failed { reason, .. } => assert!(reason.contains("announced size")),
        other => panic!("an overlong transfer was accepted: {other:?}"),
    }
    assert_eq!(side.receiver.open_count(), 0);
}

#[test]
fn an_interrupted_connection_is_resumed_rather_than_restarted() {
    let mut side = Side::new();
    let bytes: Vec<u8> = (0..(WIRE_CHUNK * 3)).map(|i| (i % 241) as u8).collect();
    let hash = sha256_hex(&bytes);
    side.offer(1, &hash, bytes.len() as u64).unwrap();
    side.take(&chunk_frame(1, &bytes[..WIRE_CHUNK]));
    // A new receiver is what a lost connection brings.
    side.reconnect();
    assert!(!side.store.has(&hash), "a partial transfer must not install");
    assert_eq!(side.partials[&hash].len(), WIRE_CHUNK);

    // A fresh connection: new receiver, new transfer id, same content.
    let from_offset = side.offer(7, &hash, bytes.len() as u64).unwrap();
    assert_eq!(from_offset, WIRE_CHUNK as u64, "resumed, not restarted");
    for slice in bytes[WIRE_CHUNK..].chunks(WIRE_CHUNK) {
        assert_eq!(side.take(&chunk_frame(7, slice)), Delivered::More);
    }
    assert_eq!(
        side.take(&end_frame(7)),
        Delivered::Installed { transfer_id: 7, hash: hash.clone() }
    );
    assert_eq!(side.store.size_of(&hash).unwrap(), bytes.len() as u64);
    assert!(side.partials.is_empty(), "the partial became the blob");
}

#[test]
fn a_resumed_transfer_that_ends_wrong_installs_nothing() {
    let mut side = Side::new();
    let bytes = vec![3u8; WIRE_CHUNK * 2];
    let hash = sha256_hex(&bytes);
    side.offer(1, &hash, bytes.len() as u64).unwrap();
    side.take(&chunk_frame(1, &bytes[..WIRE_CHUNK]));
    side.reconnect();
    assert_eq!(side.offer(2, &hash, bytes.len() as u64).unwrap(), WIRE_CHUNK as u64);
    side.take(&chunk_frame(2, &vec![0xFFu8; WIRE_CHUNK]));
    match side.take(&end_frame(2)) {
        Delivered::Failed { transfer_id, .. } => assert_eq!(transfer_id, 2),
        other => panic!("a mismatched resume was accepted: {other:?}"),
    }
    assert!(!side.store.has(&hash));
    // The bad prefix goes too, or every later attempt would fail the same way.
    assert!(side.partials.is_empty());
}

#[test]
fn a_partial_longer_than_the_offer_restarts_from_zero() {
    let mut side = Side::new();
    let short = vec![5u8; 32];
    let hash = sha256_hex(&short);
    side.offer(1, &hash, 4096).unwrap();
    side.take(&chunk_frame(1, &[5u8; 4096]));
    side.reconnect();
    assert_eq!(side.offer(2, &hash, short.len() as u64).unwrap(), 0);
    assert_eq!(
        side.send_open(2, &short),
        Delivered::Installed { transfer_id: 2, hash: hash.clone() }
    );
    assert_eq!(side.store.size_of(&hash).unwrap(), 32);
}

#[test]
fn frames_for_an_unknown_transfer_are_reported_not_written() {
    let mut side = Side::new();
    assert_eq!(
        side.take(&chunk_frame(42, b"orphan")),
        Delivered::Stray { transfer_id: 42 }
    );
    assert_eq!(side.take(&end_frame(42)), Delivered::Stray { transfer_id: 42 });
}

#[test]
fn an_aborted_transfer_is_reported_and_installs_nothing() {
    let mut side = Side::new();
    let bytes = vec![2u8; 64];
    let hash = sha256_hex(&bytes);
    side.offer(3, &hash, bytes.len() as u64).unwrap();
    side.take(&chunk_frame(3, &bytes[..32]));
    match side.take(&abort_frame(3)) {
        Delivered::Failed { transfer_id, .. } => assert_eq!(transfer_id, 3),
        other => panic!("an abort was not reported: {other:?}"),
    }
    assert!(!side.store.has(&hash));
}

#[test]
fn the_number_of_open_transfers_is_bounded() {
    let mut side = Side::new();
    let hash = sha256_hex(b"x");
    for id in 0..MAX_OPEN_TRANSFERS as u64 {
        side.offer(id, &hash, 1).unwrap();
    }
    assert!(side.offer(999, &hash, 1).is_err());
}

#[test]
fn re_offering_an_open_transfer_id_is_refused() {
    let mut side = Side::new();
    let hash = sha256_hex(b"x");
    side.offer(1, &hash, 1).unwrap();
    assert!(side.offer(1, &hash, 1).is_err());
}

#[test]
fn a_malformed_hash_is_refused_before_a_writer_exists() {
    let mut side = Side::new();
    assert!(side.offer(1, "not-a-hash", 1).is_err());
    assert!(side.offer(1, &"z".repeat(64), 1).is_err());
    assert_eq!(side.receiver.open_count(), 0);
}

#[test]
fn an_empty_blob_transfers_as_an_end_marker_alone() {
    let mut side = Side::new();
    let hash = sha256_hex(b"");
    assert_eq!(
        side.send(1, b""),
        Delivered::Installed { transfer_id: 1, hash: hash.clone() }
    );
    assert_eq!(side.store.size_of(&hash).unwrap(), 0);
}

#[test]
fn transfer_ids_never_repeat() {
    let mut ids = TransferIds::default();
    let first = ids.next_id();
    assert_ne!(first, 0, "zero stays available as a never-used id");
    assert_eq!(ids.next_id(), first + 1);
}
