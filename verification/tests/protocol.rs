use weave::model::{FileEntry, FileKind, FileOperation, GitMode, PROTOCOL_VERSION};
use weave::path::RepoPath;
use weave::proto::{state_hash, ClientEnvelope, ClientMessage, ManifestEntry};
use weave::util::sha256_hex;

#[test]
fn envelope_carries_version_and_type() {
    let env = ClientEnvelope::wrap(ClientMessage::Ping { nonce: 7 });
    assert_eq!(env.protocol_version, PROTOCOL_VERSION);
    assert!(matches!(env.message, ClientMessage::Ping { nonce: 7 }));
}

fn row(path: &str, content: &[u8]) -> ManifestEntry {
    ManifestEntry {
        path: RepoPath::new(path).unwrap(),
        entry: FileEntry::from_bytes(content, GitMode::Regular),
    }
}

#[test]
fn state_hash_is_order_independent() {
    let a = state_hash(&vec![row("b.txt", b"one"), row("a.txt", b"two")]);
    let b = state_hash(&vec![row("a.txt", b"two"), row("b.txt", b"one")]);
    assert_eq!(a, b);
}

#[test]
fn the_state_hash_covers_path_mode_and_content() {
    let text = format!(
        "a.txt\0100644\0{}\nb.txt\0100644\0{}\n",
        sha256_hex(b"two"),
        sha256_hex(b"one")
    );
    assert_eq!(
        state_hash(&vec![row("b.txt", b"one"), row("a.txt", b"two")]),
        sha256_hex(text.as_bytes())
    );
    assert_eq!(
        sha256_hex(b"abc"),
        "ba7816bf8f01cfea414140de5dae2223b00361a396177a9cb410ff61f20015ad"
    );
}

fn operation(actor_id: u128) -> FileOperation {
    FileOperation {
        operation_id: 1,
        actor_id,
        task_id: None,
        local_seq: 1,
        base_revision: 0,
        base_entry: None,
        path: RepoPath::new("a.txt").unwrap(),
        desired_entry: Some(FileEntry::from_bytes(b"A", GitMode::Regular)),
        content: None,
    }
}

#[test]
fn a_payload_hash_leaves_the_actor_out() {
    assert_eq!(operation(1).payload_hash(), operation(2).payload_hash());
    let mut other = operation(1);
    other.desired_entry = None;
    assert_ne!(operation(1).payload_hash(), other.payload_hash());
}

#[test]
fn a_payload_is_compact_json_with_sorted_keys() {
    let hash = sha256_hex(b"A");
    assert_eq!(
        operation(1).canonical_payload(),
        format!(
            "{{\"base_entry\":null,\"base_revision\":0,\"desired_entry\":{{\"blob_hash\":\"{hash}\",\
             \"file_kind\":\"text\",\"git_mode\":\"100644\",\"size\":1}},\"local_seq\":1,\
             \"path\":\"a.txt\",\"task_id\":null}}"
        )
    );
}

#[test]
fn text_is_valid_utf8_without_nul() {
    assert_eq!(FileKind::classify("caf\u{e9}\n".as_bytes()), FileKind::Text);
    assert_eq!(FileKind::classify(&[0xff, 0xfe, b'a']), FileKind::Binary);
    assert_eq!(FileKind::classify(b"a\0b"), FileKind::Binary);
}
