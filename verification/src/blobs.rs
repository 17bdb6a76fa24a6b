//! Content-addressed blob store.
//!
//! Every byte sequence Weave must be able to reproduce - canonical state,
//! outbox candidates, conflict candidates, historical revisions - lives in the
//! store, keyed by SHA-256 over the exact bytes. Identical content is stored
//! once.
//!
//! [`BlobStore`] is the catalogue of what is durably installed. The caller
//! moves the bytes: it writes a temporary file, and renames it into place only
//! when the catalogue says so.

use vstd::prelude::*;
use vstd::utf8::{is_ascii_chars, is_ascii_chars_encode_utf8};

use crate::error::{
    detailed, integrity, persistence, plain, ErrorClass, ErrorView, Result, WeaveError,
};
pub use crate::model::Ingested;
use crate::path::{below, join_path};
use crate::text::{
    begins_with, byte_count, byte_len, chars_of, has_prefix, listed, lists, same_text, text_of,
    texts,
};
use crate::util::{
    content_hash, format_size, hex, hex_digit_char, is_hex_digit, lemma_hex_of, sha256_digest,
    sha256_hex, size_form,
};

verus! {

/// Unit of streamed I/O.
pub const CHUNK: usize = 262144;

/// How long unreferenced content is kept before collection: long enough that
/// nothing in flight is ever collected out from under itself.
pub const GC_GRACE_MS: u64 = 3600000;

/// Headroom kept beyond what a transfer itself needs.
pub const SPACE_MARGIN: u64 = 67108864;

// ---------------------------------------------------------------------------
// Incremental hashing
// ---------------------------------------------------------------------------

/// The incremental SHA-256 state of the `sha2` crate: a growing run of bytes
/// of which only the digest can be taken out.
#[verifier::external_body]
pub struct ContentHasher {
    state: sha2::Sha256,
}

/// The bytes a hasher has been fed, in order.
pub uninterp spec fn absorbed(h: ContentHasher) -> Seq<u8>;

/// `Sha256::new`: a hasher that has been fed nothing.
#[verifier::external_body]
fn new_hasher() -> (h: ContentHasher)
    ensures
        absorbed(h) == Seq::<u8>::empty(),
{
    ContentHasher { state: <sha2::Sha256 as sha2::Digest>::new() }
}

/// `Digest::update`: the bytes are fed behind those before them.
#[verifier::external_body]
fn feed_hasher(h: &mut ContentHasher, data: &[u8])
    ensures
        absorbed(*final(h)) == absorbed(*old(h)) + data@,
{
    sha2::Digest::update(&mut h.state, data)
}

/// `Digest::finalize`: the digest of everything that was fed, the same as if
/// it had been fed in one piece.
#[verifier::external_body]
fn hasher_digest(h: &ContentHasher) -> (digest: Vec<u8>)
    ensures
        digest@ == sha256_digest(absorbed(*h)),
        digest@.len() == 32,
{
    sha2::Digest::finalize(h.state.clone()).to_vec()
}

// ---------------------------------------------------------------------------
// Claims on partial files
// ---------------------------------------------------------------------------

/// Partial files claimed by a live writer somewhere in this process.
///
/// Two writers must never append to the same partial: each hashes what it
/// believes it wrote, and interleaved bytes would make both wrong.
pub struct Claims {
    held: Vec<String>,
}

impl Claims {
    /// The claimed paths.
    pub closed spec fn paths(&self) -> Seq<Seq<char>> {
        texts(self.held@)
    }

    /// Whether a path is claimed.
    pub open spec fn claims(&self, path: Seq<char>) -> bool {
        self.paths().contains(path)
    }

    /// No path is claimed.
    pub fn claimed() -> (c: Claims)
        ensures
            c.paths() == Seq::<Seq<char>>::empty(),
    {
        let c = Claims { held: Vec::new() };
        proof {
            assert(c.paths() =~= Seq::<Seq<char>>::empty());
        }
        c
    }

    pub fn is_claimed(&self, path: &str) -> (yes: bool)
        ensures
            yes == self.claims(path@),
    {
        let yes = listed(&self.held, path);
        proof {
            let held = self.held@;
            if yes {
                let i = choose|i: int| 0 <= i < held.len() && (#[trigger] held[i])@ == path@;
                assert(self.paths()[i] == path@);
            } else if self.claims(path@) {
                let i = choose|i: int| 0 <= i < self.paths().len() && self.paths()[i] == path@;
                assert(held[i]@ == path@);
            }
        }
        yes
    }

    /// Claim a path, unless somebody already does.
    pub fn hold(&mut self, path: &str) -> (taken: bool)
        ensures
            taken == !old(self).claims(path@),
            final(self).paths() == if taken {
                old(self).paths().push(path@)
            } else {
                old(self).paths()
            },
            final(self).claims(path@),
    {
        if self.is_claimed(path) {
            return false;
        }
        let ghost before = self.held@;
        let t = path.to_owned();
        self.held.push(t);
        proof {
            crate::text::lemma_texts_push(before, t);
            let all = self.paths();
            assert(all[all.len() - 1] == path@);
        }
        true
    }

    /// Give a path back.
    pub fn release(&mut self, path: &str)
        ensures
            final(self).paths() == old(self).paths().filter(|p: Seq<char>| p != path@),
    {
        let mut kept: Vec<String> = Vec::new();
        let mut i: usize = 0;
        let ghost all = self.paths();
        let ghost keep = |p: Seq<char>| p != path@;
        proof {
            assert(texts(kept@) =~= all.take(0).filter(keep)) by {
                reveal(Seq::filter);
            }
        }
        while i < self.held.len()
            invariant
                i <= self.held@.len(),
                all == texts(self.held@),
                keep == (|p: Seq<char>| p != path@),
                texts(kept@) == all.take(i as int).filter(keep),
            decreases self.held@.len() - i,
        {
            let ghost before = kept@;
            if !same_text(self.held[i].as_str(), path) {
                let t = self.held[i].clone();
                kept.push(t);
                proof {
                    crate::text::lemma_texts_push(before, t);
                }
            }
            proof {
                reveal(Seq::filter);
                assert(all.take(i + 1).drop_last() =~= all.take(i as int));
                assert(all.take(i + 1).last() == self.held@[i as int]@);
            }
            i = i + 1;
        }
        proof {
            assert(all.take(i as int) =~= all);
        }
        self.held = kept;
    }
}

// ---------------------------------------------------------------------------
// Garbage collection
// ---------------------------------------------------------------------------

/// What one garbage-collection pass removed.
#[derive(Debug, Clone, Copy, PartialEq, Eq, Structural)]
pub struct GcReport {
    pub blobs: u64,
    pub bytes: u64,
    pub partials: u64,
    pub temps: u64,
}

impl Default for GcReport {
    fn default() -> (r: GcReport)
        ensures
            r == (GcReport { blobs: 0, bytes: 0, partials: 0, temps: 0 }),
    {
        GcReport { blobs: 0, bytes: 0, partials: 0, temps: 0 }
    }
}

impl GcReport {
    pub fn is_empty(&self) -> (yes: bool)
        ensures
            yes == (self.blobs == 0 && self.partials == 0 && self.temps == 0),
    {
        self.blobs == 0 && self.partials == 0 && self.temps == 0
    }

    /// Count one removed item.
    pub fn count(&mut self, item: &Listed)
        requires
            old(self).blobs < u64::MAX,
            old(self).bytes + item.size <= u64::MAX,
            old(self).partials < u64::MAX,
            old(self).temps < u64::MAX,
        ensures
            *final(self) == match item.place {
                Place::Root => GcReport { temps: (old(self).temps + 1) as u64, ..*old(self) },
                Place::PartialDir => GcReport {
                    partials: (old(self).partials + 1) as u64,
                    ..*old(self)
                },
                Place::Shard(_) => GcReport {
                    blobs: (old(self).blobs + 1) as u64,
                    bytes: (old(self).bytes + item.size) as u64,
                    ..*old(self)
                },
            },
    {
        match &item.place {
            Place::Root => {
                self.temps = self.temps + 1;
            },
            Place::PartialDir => {
                self.partials = self.partials + 1;
            },
            Place::Shard(_) => {
                self.blobs = self.blobs + 1;
                self.bytes = self.bytes + item.size;
            },
        }
    }
}

/// Where in the store a file was found.
#[derive(Debug)]
pub enum Place {
    /// Directly in the root: anonymous temporaries live here.
    Root,
    /// Among the resumable partial transfers.
    PartialDir,
    /// In a shard directory of this name.
    Shard(String),
}

#[derive(Debug, Clone, Copy, PartialEq, Eq, Structural)]
pub enum EntryKind {
    File,
    Directory,
    Other,
}

/// One directory entry of the store.
#[derive(Debug)]
pub struct Listed {
    pub place: Place,
    pub name: String,
    pub kind: EntryKind,
    pub size: u64,
    /// `None` when the platform does not say.
    pub modified_ms: Option<u64>,
}

/// Old enough to collect. Something modified in the future is treated as
/// young, which only delays it.
pub open spec fn is_stale(modified_ms: Option<u64>, now_ms: u64, min_age_ms: u64) -> bool {
    min_age_ms == 0 || (modified_ms matches Some(m) && m <= now_ms && now_ms - m >= min_age_ms)
}

pub fn stale(modified_ms: Option<u64>, now_ms: u64, min_age_ms: u64) -> (yes: bool)
    ensures
        yes == is_stale(modified_ms, now_ms, min_age_ms),
{
    if min_age_ms == 0 {
        return true;
    }
    match modified_ms {
        Some(m) => m <= now_ms && now_ms - m >= min_age_ms,
        None => false,
    }
}

/// Sixty-four hexadecimal digits, in either case.
pub open spec fn is_reference(hash: Seq<char>) -> bool {
    hash.len() == 64 && forall|i: int| 0 <= i < 64 ==> is_any_hex(#[trigger] hash[i])
}

/// What is installed once `hash` was, unless it was already.
pub open spec fn with_blob(store: Map<Seq<char>, u64>, hash: Seq<char>, size: u64) -> Map<
    Seq<char>,
    u64,
> {
    if store.contains_key(hash) || !is_reference(hash) {
        store
    } else {
        store.insert(hash, size)
    }
}

pub open spec fn is_any_hex(c: char) -> bool {
    is_hex_digit(c) || 'A' <= c <= 'F'
}

/// Whether `hash` can name content.
pub fn well_formed(hash: &str) -> (yes: bool)
    ensures
        yes == is_reference(hash@),
{
    let chars = chars_of(hash);
    if chars.len() != 64 {
        return false;
    }
    let mut i: usize = 0;
    while i < 64
        invariant
            chars@ == hash@,
            chars@.len() == 64,
            i <= 64,
            forall|k: int| 0 <= k < i ==> is_any_hex(#[trigger] hash@[k]),
        decreases 64 - i,
    {
        let c = chars[i];
        if !(hex_digit_char(c) || ('A' <= c && c <= 'F')) {
            assert(!is_any_hex(hash@[i as int]));
            return false;
        }
        i = i + 1;
    }
    true
}

// ---------------------------------------------------------------------------
// The catalogue
// ---------------------------------------------------------------------------

/// One installed blob.
#[derive(Debug)]
pub struct StoredBlob {
    pub hash: String,
    pub size: u64,
}

/// The catalogue of durably installed content.
#[derive(Debug)]
pub struct BlobStore {
    root: String,
    blobs: Vec<StoredBlob>,
}

/// Whether a character is written in two bytes.
pub open spec fn takes_two(c: char) -> bool {
    '\u{80}' <= c <= '\u{7ff}'
}

fn is_two_bytes(c: char) -> (yes: bool)
    ensures
        yes == takes_two(c),
{
    '\u{80}' <= c && c <= '\u{7ff}'
}

/// The directory content is kept in: the first two bytes of its name. A name
/// that cannot be cut there is cut behind its second character.
pub open spec fn shard_of(hash: Seq<char>) -> Seq<char> {
    if hash.len() < 2 {
        hash
    } else if takes_two(hash[0]) {
        hash.take(1)
    } else {
        hash.take(2)
    }
}

/// Where content of this name is kept below `root`: a directory named after
/// its first two bytes, then the name itself.
pub open spec fn blob_path(root: Seq<char>, hash: Seq<char>) -> Seq<char> {
    below(below(root, shard_of(hash)), hash)
}

/// Where an unfinished transfer of this content is kept.
pub open spec fn partial_path(root: Seq<char>, hash: Seq<char>) -> Seq<char> {
    below(below(root, ".partial"@), hash)
}

/// The position of `hash` in a list of blobs, or its length.
pub open spec fn blob_index(blobs: Seq<StoredBlob>, hash: Seq<char>) -> int
    decreases blobs.len(),
{
    if blobs.len() == 0 {
        0
    } else if blobs[0].hash@ == hash {
        0
    } else {
        1 + blob_index(blobs.drop_first(), hash)
    }
}

pub proof fn lemma_blob_index(blobs: Seq<StoredBlob>, hash: Seq<char>, at: int)
    requires
        0 <= at <= blobs.len(),
        at < blobs.len() ==> blobs[at].hash@ == hash,
        forall|k: int| 0 <= k < at ==> (#[trigger] blobs[k]).hash@ != hash,
    ensures
        blob_index(blobs, hash) == at,
    decreases blobs.len(),
{
    if blobs.len() > 0 && blobs[0].hash@ != hash {
        let rest = blobs.drop_first();
        assert forall|k: int| 0 <= k < at - 1 implies (#[trigger] rest[k]).hash@ != hash by {
            assert(rest[k] == blobs[k + 1]);
        }
        lemma_blob_index(rest, hash, at - 1);
    }
}

pub proof fn lemma_blob_index_push(blobs: Seq<StoredBlob>, b: StoredBlob, hash: Seq<char>)
    ensures
        blob_index(blobs, hash) <= blobs.len(),
        0 <= blob_index(blobs, hash),
        blob_index(blobs.push(b), hash) == if blob_index(blobs, hash) < blobs.len() {
            blob_index(blobs, hash)
        } else if b.hash@ == hash {
            blobs.len() as int
        } else {
            blobs.len() as int + 1
        },
        blob_index(blobs, hash) < blobs.len() ==> blobs[blob_index(blobs, hash)].hash@ == hash,
    decreases blobs.len(),
{
    reveal_with_fuel(blob_index, 2);
    if blobs.len() > 0 {
        assert(blobs.push(b).drop_first() =~= blobs.drop_first().push(b));
        lemma_blob_index_push(blobs.drop_first(), b, hash);
    } else {
        assert(blobs.push(b).drop_first() =~= Seq::<StoredBlob>::empty());
    }
}

/// The size of the content named `hash`, when it is installed.
pub open spec fn size_in(blobs: Seq<StoredBlob>, hash: Seq<char>) -> Option<u64> {
    let i = blob_index(blobs, hash);
    if 0 <= i < blobs.len() {
        Some(blobs[i].size)
    } else {
        None
    }
}

pub open spec fn total_size(blobs: Seq<StoredBlob>) -> nat
    decreases blobs.len(),
{
    if blobs.len() == 0 {
        0
    } else {
        total_size(blobs.drop_last()) + blobs.last().size as nat
    }
}

/// What content is answered with when it is not installed.
pub open spec fn missing_blob(root: Seq<char>, hash: Seq<char>) -> ErrorView {
    detailed(
        ErrorClass::IntegrityError,
        "IntegrityError: blob "@ + hash + " is missing"@,
        blob_path(root, hash) + "\n\nRun `weave recover` to diagnose the Weave blob store."@,
    )
}

/// What content is answered with when its bytes hash to something else.
pub open spec fn corrupt_blob(hash: Seq<char>, actual: Seq<char>) -> ErrorView {
    detailed(
        ErrorClass::IntegrityError,
        "IntegrityError: blob "@ + hash + " is corrupt"@,
        "Stored bytes hash to "@ + actual + "."@,
    )
}

pub open spec fn malformed_reference(hash: Seq<char>) -> Seq<char> {
    "Malformed blob reference: "@ + hash
}

fn malformed(hash: &str) -> (s: String)
    ensures
        s@ == malformed_reference(hash@),
{
    let mut s = "Malformed blob reference: ".to_owned();
    s.push_str(hash);
    s
}

fn corrupt(hash: &str, actual: &str) -> (e: WeaveError)
    ensures
        e@ == corrupt_blob(hash@, actual@),
{
    let mut m = "IntegrityError: blob ".to_owned();
    m.push_str(hash);
    m.push_str(" is corrupt");
    let mut d = "Stored bytes hash to ".to_owned();
    d.push_str(actual);
    d.push_str(".");
    integrity(m.as_str()).with_detail(d)
}

/// Room for a file of `size`: one working copy, one blob, and a margin.
pub open spec fn room_needed(size: u64) -> int {
    let twice = if size * 2 > u64::MAX {
        u64::MAX as int
    } else {
        size * 2
    };
    if twice + SPACE_MARGIN > u64::MAX {
        u64::MAX as int
    } else {
        twice + SPACE_MARGIN
    }
}

pub open spec fn no_room(size: u64, free: u64) -> ErrorView {
    detailed(
        ErrorClass::PersistenceError,
        "Not enough disk space for a "@ + size_form(size) + " file: "@ + size_form(free)
            + " free."@,
        "Weave keeps a working copy and a content-addressed copy of every file. Free some space; the transfer is retried on its own."@,
    )
}

impl BlobStore {
    /// The installed blobs.
    pub closed spec fn catalogue(&self) -> Seq<StoredBlob> {
        self.blobs@
    }

    pub closed spec fn place(&self) -> Seq<char> {
        self.root@
    }

    /// The size of the content named `hash`, when it is installed.
    pub open spec fn held(&self, hash: Seq<char>) -> Option<u64> {
        size_in(self.catalogue(), hash)
    }

    /// Whether the content named `hash` is installed.
    pub open spec fn holds(&self, hash: Seq<char>) -> bool {
        self.held(hash) is Some
    }

    /// Everything installed, with its size.
    pub open spec fn sizes(&self) -> Map<Seq<char>, u64> {
        Map::new(|h: Seq<char>| self.holds(h), |h: Seq<char>| self.held(h)->0)
    }

    /// No content is installed under two entries, and none under a name that
    /// is no reference.
    pub open spec fn wf(&self) -> bool {
        &&& forall|i: int, j: int|
            0 <= i < j < self.catalogue().len() ==> (#[trigger] self.catalogue()[i]).hash@
                != (#[trigger] self.catalogue()[j]).hash@
        &&& forall|i: int|
            0 <= i < self.catalogue().len() ==> is_reference(
                (#[trigger] self.catalogue()[i]).hash@,
            )
    }

    /// An empty store below `root`.
    pub fn open(root: &str) -> (s: BlobStore)
        ensures
            s.wf(),
            s.place() == root@,
            s.catalogue() == Seq::<StoredBlob>::empty(),
            s.sizes() == Map::<Seq<char>, u64>::empty(),
    {
        let s = BlobStore { root: root.to_owned(), blobs: Vec::new() };
        proof {
            assert(s.sizes() =~= Map::<Seq<char>, u64>::empty());
        }
        s
    }

    pub fn root(&self) -> (s: &str)
        ensures
            s@ == self.place(),
    {
        self.root.as_str()
    }

    fn find(&self, hash: &str) -> (at: usize)
        ensures
            at == blob_index(self.catalogue(), hash@),
            at <= self.catalogue().len(),
    {
        let mut i: usize = 0;
        while i < self.blobs.len()
            invariant
                i <= self.blobs@.len(),
                forall|k: int| 0 <= k < i ==> (#[trigger] self.blobs@[k]).hash@ != hash@,
            decreases self.blobs@.len() - i,
        {
            if same_text(self.blobs[i].hash.as_str(), hash) {
                proof {
                    lemma_blob_index(self.blobs@, hash@, i as int);
                }
                return i;
            }
            i = i + 1;
        }
        proof {
            lemma_blob_index(self.blobs@, hash@, i as int);
        }
        i
    }

    /// Where content named `hash` is kept.
    pub fn path_for(&self, hash: &str) -> (s: String)
        ensures
            s@ == blob_path(self.place(), hash@),
    {
        let chars = chars_of(hash);
        let n: usize = if chars.len() < 2 {
            chars.len()
        } else if is_two_bytes(chars[0]) {
            1
        } else {
            2
        };
        let shard = text_of(&chars, 0, n);
        proof {
            assert(shard@ =~= shard_of(hash@));
        }
        let dir = join_path(self.root.as_str(), shard.as_str());
        join_path(dir.as_str(), hash)
    }

    /// Record that `hash` has been installed. Tells whether the bytes have to
    /// be moved into place; when they are there already the work was redundant,
    /// not wrong. A name that is no reference is never installed.
    pub fn install(&mut self, hash: &str, size: u64) -> (fresh: bool)
        requires
            old(self).wf(),
        ensures
            final(self).wf(),
            final(self).place() == old(self).place(),
            fresh == (is_reference(hash@) && !old(self).holds(hash@)),
            is_reference(hash@) ==> final(self).holds(hash@),
            fresh ==> final(self).held(hash@) == Some(size),
            forall|other: Seq<char>|
                other != hash@ ==> final(self).held(other) == old(self).held(other),
            final(self).sizes() == with_blob(old(self).sizes(), hash@, size),
            !fresh ==> final(self).catalogue() == old(self).catalogue(),
            fresh ==> final(self).catalogue().len() == old(self).catalogue().len() + 1,
            fresh ==> final(self).catalogue().drop_last() == old(self).catalogue(),
            fresh ==> final(self).catalogue().last().size == size,
    {
        let at = self.find(hash);
        if at < self.blobs.len() || !well_formed(hash) {
            return false;
        }
        let ghost before = self.blobs@;
        let b = StoredBlob { hash: hash.to_owned(), size };
        self.blobs.push(b);
        proof {
            assert(self.blobs@ == before.push(b));
            assert(before.push(b).drop_last() =~= before);
            lemma_blob_index_push(before, b, hash@);
            assert forall|other: Seq<char>| other != hash@ implies size_in(before.push(b), other)
                == size_in(before, other) by {
                lemma_blob_index_push(before, b, other);
            }
            assert forall|i: int| 0 <= i < before.len() implies (#[trigger] before[i]).hash@
                != hash@ by {
                if before[i].hash@ == hash@ {
                    lemma_not_absent(before, hash@, i);
                }
            }
            assert(self.sizes() =~= old(self).sizes().insert(hash@, size));
        }
        true
    }

    /// Content was removed from the store.
    pub fn forget(&mut self, hash: &str)
        requires
            old(self).wf(),
        ensures
            final(self).wf(),
            final(self).place() == old(self).place(),
            final(self).sizes() == old(self).sizes().remove(hash@),
    {
        let at = self.find(hash);
        let ghost before = self.blobs@;
        if at < self.blobs.len() {
            let _ = self.blobs.remove(at);
        }
        proof {
            let after = self.blobs@;
            assert forall|other: Seq<char>| other != hash@ implies size_in(after, other)
                == #[trigger] size_in(before, other) by {
                if at < before.len() {
                    lemma_blob_found(before, hash@);
                    lemma_blob_index_remove(before, at as int, other);
                }
            }
            assert(size_in(after, hash@) is None) by {
                if at < before.len() {
                    lemma_blob_found(before, hash@);
                    assert forall|k: int| 0 <= k < after.len() implies (#[trigger] after[k]).hash@
                        != hash@ by {
                        if k < at {
                            assert(after[k] == before[k]);
                        } else {
                            assert(after[k] == before[k + 1]);
                        }
                    }
                    lemma_blob_index(after, hash@, after.len() as int);
                }
            }
            assert(self.wf()) by {
                assert forall|i: int, j: int| 0 <= i < j < after.len() implies (#[trigger] after[i]).hash@
                    != (#[trigger] after[j]).hash@ by {
                    let a = if at < before.len() && i >= at { i + 1 } else { i };
                    let b = if at < before.len() && j >= at { j + 1 } else { j };
                    assert(after[i] == before[a]);
                    assert(after[j] == before[b]);
                }
            }
            assert(self.sizes() =~= old(self).sizes().remove(hash@));
        }
    }

    /// Store bytes and return their hash, and whether they have to be written.
    /// What is written reads back under that hash.
    pub fn put(&mut self, bytes: &[u8]) -> (r: (String, bool))
        requires
            old(self).wf(),
        ensures
            final(self).wf(),
            final(self).place() == old(self).place(),
            r.0@ == content_hash(bytes@),
            r.1 == !old(self).holds(content_hash(bytes@)),
            final(self).holds(content_hash(bytes@)),
            r.1 ==> final(self).held(content_hash(bytes@)) == Some(bytes@.len() as u64),
            !r.1 ==> final(self).catalogue() == old(self).catalogue(),
            forall|other: Seq<char>|
                other != content_hash(bytes@) ==> final(self).held(other) == old(self).held(other),
            final(self).sizes() == put_of(old(self).sizes(), bytes@),
            reads_as(r.0@, bytes@),
    {
        let hash = sha256_hex(bytes);
        proof {
            lemma_hex_of(sha256_digest(bytes@));
            assert(is_reference(hash@));
            lemma_reference_bytes(hash@);
        }
        let fresh = self.install(hash.as_str(), bytes.len() as u64);
        (hash, fresh)
    }

    /// Whether content is installed. Only a reference can name any.
    pub fn has(&self, hash: &str) -> (yes: bool)
        ensures
            yes == self.holds(hash@),
            self.wf() && yes ==> is_reference(hash@),
    {
        let at = self.find(hash);
        proof {
            lemma_blob_found(self.catalogue(), hash@);
        }
        at < self.blobs.len()
    }

    /// The error for content that is not installed.
    pub fn lost(&self, hash: &str) -> (e: WeaveError)
        ensures
            e@ == if byte_len(hash@) != 64 {
                plain(ErrorClass::IntegrityError, malformed_reference(hash@))
            } else {
                missing_blob(self.place(), hash@)
            },
    {
        if byte_count(hash) != 64 {
            return integrity(malformed(hash).as_str());
        }
        let mut m = "IntegrityError: blob ".to_owned();
        m.push_str(hash);
        m.push_str(" is missing");
        let mut d = self.path_for(hash);
        d.push_str("\n\nRun `weave recover` to diagnose the Weave blob store.");
        integrity(m.as_str()).with_detail(d)
    }

    /// Check the bytes read for `hash`. `read` is what the file gave, or the
    /// reason it could not be read.
    pub fn get(&self, hash: &str, read: std::result::Result<Vec<u8>, String>) -> (r: Result<Vec<u8>>)
        ensures
            match r {
                Ok(bytes) => read matches Ok(b) && bytes@ == b@ && reads_as(hash@, b@),
                Err(e) => if byte_len(hash@) != 64 {
                    e@ == plain(ErrorClass::IntegrityError, malformed_reference(hash@))
                } else {
                    match read {
                        Ok(b) => content_hash(b@) != hash@ && e@ == corrupt_blob(
                            hash@,
                            content_hash(b@),
                        ),
                        Err(why) => e@ == detailed(
                            ErrorClass::IntegrityError,
                            "IntegrityError: blob "@ + hash@ + " is missing"@,
                            blob_path(self.place(), hash@) + ": "@ + why@
                                + "\n\nRun `weave recover` to diagnose the Weave blob store."@,
                        ),
                    }
                },
            },
    {
        if byte_count(hash) != 64 {
            return Err(integrity(malformed(hash).as_str()));
        }
        match read {
            Err(why) => {
                let mut m = "IntegrityError: blob ".to_owned();
                m.push_str(hash);
                m.push_str(" is missing");
                let mut d = self.path_for(hash);
                d.push_str(": ");
                d.push_str(why.as_str());
                d.push_str("\n\nRun `weave recover` to diagnose the Weave blob store.");
                Err(integrity(m.as_str()).with_detail(d))
            },
            Ok(bytes) => {
                let actual = sha256_hex(bytes.as_slice());
                if !same_text(actual.as_str(), hash) {
                    return Err(corrupt(hash, actual.as_str()));
                }
                Ok(bytes)
            },
        }
    }

    /// Location of an installed blob, for callers that hand a path to another
    /// process rather than reading the bytes themselves.
    pub fn path_of(&self, hash: &str) -> (r: Result<String>)
        ensures
            match r {
                Ok(path) => self.holds(hash@) && path@ == blob_path(self.place(), hash@),
                Err(e) => !self.holds(hash@) && e@ == missing_blob(self.place(), hash@),
            },
    {
        let path = self.path_for(hash);
        if !self.has(hash) {
            let mut m = "IntegrityError: blob ".to_owned();
            m.push_str(hash);
            m.push_str(" is missing");
            let mut d = path;
            d.push_str("\n\nRun `weave recover` to diagnose the Weave blob store.");
            return Err(integrity(m.as_str()).with_detail(d));
        }
        Ok(path)
    }

    /// The size of content that is installed.
    pub fn size_held(&self, hash: &str) -> (n: u64)
        requires
            self.holds(hash@),
        ensures
            self.held(hash@) == Some(n),
            self.sizes()[hash@] == n,
    {
        let at = self.find(hash);
        self.blobs[at].size
    }

    pub fn size_of(&self, hash: &str) -> (r: Result<u64>)
        ensures
            match r {
                Ok(size) => self.held(hash@) == Some(size),
                Err(e) => !self.holds(hash@) && e@ == missing_blob(self.place(), hash@),
            },
    {
        match self.path_of(hash) {
            Ok(_) => {
                let at = self.find(hash);
                Ok(self.blobs[at].size)
            },
            Err(e) => Err(e),
        }
    }

    /// Refuse an incoming transfer that this disk plainly cannot hold. A
    /// platform that will not report free space is not an obstacle: unknown
    /// means proceed.
    pub fn ensure_room_for(&self, size: u64, free: Option<u64>) -> (r: Result<()>)
        ensures
            match r {
                Ok(_) => free matches Some(f) ==> f >= room_needed(size),
                Err(e) => free matches Some(f) && f < room_needed(size) && e@ == no_room(size, f),
            },
    {
        let free: u64 = match free {
            Some(f) => f,
            None => {
                return Ok(());
            },
        };
        let twice: u64 = if size > u64::MAX / 2 {
            u64::MAX
        } else {
            size * 2
        };
        let needed: u64 = if twice > u64::MAX - SPACE_MARGIN {
            u64::MAX
        } else {
            twice + SPACE_MARGIN
        };
        if free >= needed {
            return Ok(());
        }
        let mut m = "Not enough disk space for a ".to_owned();
        m.push_str(format_size(size).as_str());
        m.push_str(" file: ");
        m.push_str(format_size(free).as_str());
        m.push_str(" free.");
        Err(
            persistence(m.as_str()).with_detail(
                "Weave keeps a working copy and a content-addressed copy of every file. Free some space; the transfer is retried on its own.".to_owned(),
            ),
        )
    }

    /// Start a streamed write that is not worth resuming.
    pub fn writer(&self) -> (w: BlobWriter)
        ensures
            w.wf(),
            w.content() == Seq::<u8>::empty(),
            !w.is_resumable(),
    {
        BlobWriter::start(false)
    }

    /// Start, or continue, a resumable write of the content `hash` names.
    /// `prefix` is a writer fed with the bytes already on disk, or `None` when
    /// they cannot be read.
    ///
    /// `Ok(None)` when another writer in this process already holds that
    /// partial. The caller falls back to an anonymous writer, which is always
    /// safe, merely not resumable.
    pub fn resume_writer(
        &self,
        claims: &mut Claims,
        hash: &str,
        prefix: Option<BlobWriter>,
    ) -> (r: Result<Option<BlobWriter>>)
        requires
            prefix matches Some(w) ==> w.wf(),
        ensures
            match r {
                Err(e) => !is_reference(hash@) && e@ == plain(
                    ErrorClass::IntegrityError,
                    malformed_reference(hash@),
                ) && final(claims).paths() == old(claims).paths(),
                Ok(None) => is_reference(hash@) && old(claims).claims(
                    partial_path(self.place(), hash@),
                ) && final(claims).paths() == old(claims).paths(),
                Ok(Some(w)) => {
                    &&& is_reference(hash@)
                    &&& !old(claims).claims(partial_path(self.place(), hash@))
                    &&& final(claims).paths() == old(claims).paths().push(
                        partial_path(self.place(), hash@),
                    )
                    &&& w.wf()
                    &&& w.is_resumable()
                    &&& w.content() == match prefix {
                        Some(p) => p.content(),
                        None => Seq::<u8>::empty(),
                    }
                },
            },
    {
        if !well_formed(hash) {
            return Err(integrity(malformed(hash).as_str()));
        }
        let dir = join_path(self.root.as_str(), ".partial");
        let path = join_path(dir.as_str(), hash);
        if !claims.hold(path.as_str()) {
            return Ok(None);
        }
        match prefix {
            Some(mut w) => {
                w.make_resumable();
                Ok(Some(w))
            },
            None => Ok(Some(BlobWriter::start(true))),
        }
    }

    /// Store the contents of a file: `probe` is what a first read found, and
    /// `copied` what a second read copied into the store, or `None` where the
    /// file had vanished. Whichever read produces the answer, hash, size and
    /// prefix all come from that same read.
    pub fn ingest_file(
        &mut self,
        probe: Option<Ingested>,
        copied: Option<Ingested>,
    ) -> (r: Option<Ingested>)
        requires
            old(self).wf(),
            copied matches Some(c) ==> is_reference(c.hash@),
        ensures
            final(self).wf(),
            final(self).place() == old(self).place(),
            r == match probe {
                None => None,
                Some(p) => if old(self).holds(p.hash@) {
                    Some(p)
                } else {
                    copied
                },
            },
            r matches Some(i) ==> final(self).holds(i.hash@),
            r matches Some(i) ==> !old(self).holds(i.hash@) ==> final(self).held(i.hash@) == Some(
                i.size,
            ),
            (r matches Some(i) ==> old(self).holds(i.hash@)) ==> final(self).catalogue() == old(
                self,
            ).catalogue(),
            forall|other: Seq<char>|
                (r matches Some(i) ==> other != i.hash@) ==> final(self).held(other) == old(
                    self,
                ).held(other),
    {
        let probe = match probe {
            Some(p) => p,
            None => {
                return None;
            },
        };
        if self.has(probe.hash.as_str()) {
            return Some(probe);
        }
        match copied {
            Some(c) => {
                let _ = self.install(c.hash.as_str(), c.size);
                Some(c)
            },
            None => None,
        }
    }

    /// Check what was copied out of the store: `actual` is the hash of the
    /// bytes as they streamed. Only a match may replace the destination.
    pub fn copy_out(&self, hash: &str, actual: &str) -> (r: Result<()>)
        ensures
            match r {
                Ok(_) => self.holds(hash@) && actual@ == hash@,
                Err(e) => if !self.holds(hash@) {
                    e@ == missing_blob(self.place(), hash@)
                } else {
                    actual@ != hash@ && e@ == corrupt_blob(hash@, actual@)
                },
            },
    {
        match self.path_of(hash) {
            Err(e) => Err(e),
            Ok(_) => {
                if !same_text(actual, hash) {
                    return Err(corrupt(hash, actual));
                }
                Ok(())
            },
        }
    }

    /// Total number of stored blobs and total bytes, for diagnostics.
    pub fn stats(&self) -> (r: (u64, u64))
        requires
            total_size(self.catalogue()) <= u64::MAX,
        ensures
            r.0 == self.catalogue().len(),
            r.1 == total_size(self.catalogue()),
    {
        let mut bytes: u64 = 0;
        let mut i: usize = 0;
        while i < self.blobs.len()
            invariant
                i <= self.blobs@.len(),
                total_size(self.blobs@) <= u64::MAX,
                bytes == total_size(self.blobs@.take(i as int)),
            decreases self.blobs@.len() - i,
        {
            proof {
                assert(self.blobs@.take(i + 1).drop_last() =~= self.blobs@.take(i as int));
                lemma_total_size_grows(self.blobs@, i + 1);
            }
            bytes = bytes + self.blobs[i].size;
            i = i + 1;
        }
        proof {
            assert(self.blobs@.take(i as int) =~= self.blobs@);
        }
        (self.blobs.len() as u64, bytes)
    }

    /// Whether one entry of the store may be deleted.
    pub open spec fn collectable(
        &self,
        item: Listed,
        live: Seq<String>,
        claims: Claims,
        now_ms: u64,
        min_age_ms: u64,
    ) -> bool {
        match item.place {
            Place::Root => {
                &&& item.kind != EntryKind::Directory
                &&& begins_with(item.name@, ".part-"@)
                &&& is_stale(item.modified_ms, now_ms, min_age_ms)
            },
            Place::PartialDir => {
                &&& !claims.claims(partial_path(self.place(), item.name@))
                &&& item.kind == EntryKind::File
                &&& {
                    ||| byte_len(item.name@) == 64 && self.holds(item.name@)
                    ||| is_stale(item.modified_ms, now_ms, min_age_ms)
                }
            },
            Place::Shard(name) => {
                &&& byte_len(name@) == 2
                &&& byte_len(item.name@) == 64
                &&& !lists(live, item.name@)
                &&& item.kind == EntryKind::File
                &&& is_stale(item.modified_ms, now_ms, min_age_ms)
            },
        }
    }

    /// A partial is worth keeping only while someone may still resume it: it is
    /// claimed by a live writer, or it is recent enough that the peer holding
    /// the rest may still come back. One already installed is redundant
    /// whatever its age.
    fn sweep_partial(&self, item: &Listed, claims: &Claims, now_ms: u64, min_age_ms: u64) -> (yes:
        bool)
        requires
            item.place is PartialDir,
        ensures
            forall|live: Seq<String>|
                yes == #[trigger] self.collectable(*item, live, *claims, now_ms, min_age_ms),
    {
        let dir = join_path(self.root.as_str(), ".partial");
        let path = join_path(dir.as_str(), item.name.as_str());
        if claims.is_claimed(path.as_str()) || item.kind != EntryKind::File {
            return false;
        }
        let redundant = byte_count(item.name.as_str()) == 64 && self.has(item.name.as_str());
        redundant || stale(item.modified_ms, now_ms, min_age_ms)
    }

    /// Which entries nothing can reach any more, by position. `live` is every
    /// hash the caller can still name; `min_age_ms` protects content that is
    /// young enough that the reference to it may not exist yet.
    pub fn collect_garbage(
        &self,
        items: &Vec<Listed>,
        live: &Vec<String>,
        claims: &Claims,
        now_ms: u64,
        min_age_ms: u64,
    ) -> (doomed: Vec<usize>)
        ensures
            forall|k: int|
                0 <= k < doomed@.len() ==> (#[trigger] doomed@[k]) < items@.len()
                    && self.collectable(
                    items@[doomed@[k] as int],
                    live@,
                    *claims,
                    now_ms,
                    min_age_ms,
                ),
            forall|i: int|
                0 <= i < items@.len() && self.collectable(
                    #[trigger] items@[i],
                    live@,
                    *claims,
                    now_ms,
                    min_age_ms,
                ) ==> doomed@.contains(i as usize),
            forall|a: int, b: int| 0 <= a < b < doomed@.len() ==> doomed@[a] < doomed@[b],
    {
        let mut doomed: Vec<usize> = Vec::new();
        let mut i: usize = 0;
        while i < items.len()
            invariant
                i <= items@.len(),
                forall|k: int|
                    0 <= k < doomed@.len() ==> (#[trigger] doomed@[k]) < i && self.collectable(
                        items@[doomed@[k] as int],
                        live@,
                        *claims,
                        now_ms,
                        min_age_ms,
                    ),
                forall|j: int|
                    0 <= j < i && self.collectable(
                        #[trigger] items@[j],
                        live@,
                        *claims,
                        now_ms,
                        min_age_ms,
                    ) ==> doomed@.contains(j as usize),
                forall|a: int, b: int| 0 <= a < b < doomed@.len() ==> doomed@[a] < doomed@[b],
            decreases items@.len() - i,
        {
            let item = &items[i];
            let remove = match &item.place {
                Place::Root => item.kind != EntryKind::Directory && has_prefix(
                    item.name.as_str(),
                    ".part-",
                ) && stale(item.modified_ms, now_ms, min_age_ms),
                Place::PartialDir => self.sweep_partial(item, claims, now_ms, min_age_ms),
                Place::Shard(name) => byte_count(name.as_str()) == 2 && byte_count(
                    item.name.as_str(),
                ) == 64 && !listed(live, item.name.as_str()) && item.kind == EntryKind::File
                    && stale(item.modified_ms, now_ms, min_age_ms),
            };
            let ghost before = doomed@;
            if remove {
                doomed.push(i);
                proof {
                    assert(doomed@[doomed@.len() - 1] == i);
                    assert forall|j: int|
                        0 <= j < i + 1 && self.collectable(
                            #[trigger] items@[j],
                            live@,
                            *claims,
                            now_ms,
                            min_age_ms,
                        ) implies doomed@.contains(j as usize) by {
                        if j < i {
                            let k = choose|k: int|
                                0 <= k < before.len() && before[k] == j as usize;
                            assert(doomed@[k] == j as usize);
                        }
                    }
                }
            }
            i = i + 1;
        }
        doomed
    }
}

proof fn lemma_blob_found(blobs: Seq<StoredBlob>, hash: Seq<char>)
    ensures
        0 <= blob_index(blobs, hash) <= blobs.len(),
        blob_index(blobs, hash) < blobs.len() ==> blobs[blob_index(blobs, hash)].hash@ == hash,
    decreases blobs.len(),
{
    if blobs.len() > 0 && blobs[0].hash@ != hash {
        lemma_blob_found(blobs.drop_first(), hash);
    }
}

proof fn lemma_blob_index_remove(blobs: Seq<StoredBlob>, at: int, other: Seq<char>)
    requires
        0 <= at < blobs.len(),
        blobs[at].hash@ != other,
    ensures
        size_in(blobs.remove(at), other) == size_in(blobs, other),
    decreases blobs.len(),
{
    let left = blobs.remove(at);
    if at == 0 {
        assert(left =~= blobs.drop_first());
    } else if blobs[0].hash@ != other {
        lemma_blob_index_remove(blobs.drop_first(), at - 1, other);
        assert(left.drop_first() =~= blobs.drop_first().remove(at - 1));
    }
    lemma_blob_found(blobs, other);
    lemma_blob_found(left, other);
    lemma_blob_found(blobs.drop_first(), other);
    lemma_blob_found(left.drop_first(), other);
}

proof fn lemma_not_absent(blobs: Seq<StoredBlob>, hash: Seq<char>, i: int)
    requires
        0 <= i < blobs.len(),
        blobs[i].hash@ == hash,
    ensures
        0 <= blob_index(blobs, hash) < blobs.len(),
    decreases blobs.len(),
{
    if blobs[0].hash@ != hash {
        assert(blobs.drop_first()[i - 1] == blobs[i]);
        lemma_not_absent(blobs.drop_first(), hash, i - 1);
    }
}

proof fn lemma_total_size_grows(blobs: Seq<StoredBlob>, i: int)
    requires
        0 <= i <= blobs.len(),
    ensures
        total_size(blobs.take(i)) <= total_size(blobs),
    decreases blobs.len(),
{
    if i == blobs.len() {
        assert(blobs.take(i) =~= blobs);
    } else {
        lemma_total_size_grows(blobs.drop_last(), i);
        assert(blobs.drop_last().take(i) =~= blobs.take(i));
    }
}

// ---------------------------------------------------------------------------
// Streamed writes
// ---------------------------------------------------------------------------

/// A blob being written incrementally.
///
/// The content hash is computed as bytes arrive, so the writer never needs the
/// whole blob and the caller never has to trust the sender: installation is
/// refused unless the bytes hash to what was announced.
pub struct BlobWriter {
    hasher: ContentHasher,
    written: u64,
    resumable: bool,
}

/// A prefix of some content, and whether a later write may continue it.
pub struct Held {
    pub content: Seq<u8>,
    pub resumable: bool,
}

/// What a write is refused with when it does not hash to what was announced.
pub open spec fn announced_mismatch(expected: Seq<char>, actual: Seq<char>) -> Seq<char> {
    "IntegrityError: content announced as "@ + expected + " hashes to "@ + actual
}

impl BlobWriter {
    /// Everything written so far.
    pub closed spec fn content(&self) -> Seq<u8> {
        absorbed(self.hasher)
    }

    pub closed spec fn is_resumable(&self) -> bool {
        self.resumable
    }

    pub closed spec fn count(&self) -> u64 {
        self.written
    }

    /// What the writer holds, and whether that outlives it.
    pub open spec fn held(&self) -> Held {
        Held { content: self.content(), resumable: self.is_resumable() }
    }

    /// The count is the length of what was written.
    pub open spec fn wf(&self) -> bool {
        self.count() == self.content().len()
    }

    pub fn start(resumable: bool) -> (w: BlobWriter)
        ensures
            w.wf(),
            w.content() == Seq::<u8>::empty(),
            w.is_resumable() == resumable,
    {
        BlobWriter { hasher: new_hasher(), written: 0, resumable }
    }

    fn make_resumable(&mut self)
        ensures
            final(self).content() == old(self).content(),
            final(self).count() == old(self).count(),
            final(self).is_resumable(),
    {
        self.resumable = true;
    }

    pub fn write(&mut self, bytes: &[u8])
        requires
            old(self).wf(),
            old(self).count() + bytes@.len() <= u64::MAX,
        ensures
            final(self).wf(),
            final(self).content() == old(self).content() + bytes@,
            final(self).is_resumable() == old(self).is_resumable(),
    {
        feed_hasher(&mut self.hasher, bytes);
        self.written = self.written + bytes.len() as u64;
    }

    pub fn written(&self) -> (n: u64)
        requires
            self.wf(),
        ensures
            n == self.content().len(),
            n == self.count(),
    {
        self.written
    }

    /// True when this write survives being dropped and can be continued later.
    pub fn resumable(&self) -> (yes: bool)
        ensures
            yes == self.is_resumable(),
    {
        self.resumable
    }

    /// Throw away everything held so far and start again from offset zero.
    pub fn reset(&mut self)
        ensures
            final(self).wf(),
            final(self).content() == Seq::<u8>::empty(),
            final(self).is_resumable() == old(self).is_resumable(),
    {
        self.hasher = new_hasher();
        self.written = 0;
    }

    /// The address of what was written.
    pub fn seal(&self) -> (hash: String)
        ensures
            hash@ == content_hash(self.content()),
            hash@.len() == 64,
    {
        let digest = hasher_digest(&self.hasher);
        proof {
            lemma_hex_of(digest@);
        }
        hex(digest.as_slice())
    }

    /// The address and length of what was actually written; it may be installed
    /// under that name.
    pub fn finish(self) -> (r: (String, u64))
        requires
            self.wf(),
        ensures
            r.0@ == content_hash(self.content()),
            r.0@.len() == 64,
            r.1 == self.content().len(),
    {
        (self.seal(), self.written)
    }

    /// Same, but refuse unless the content hashes to `expected`. This is the
    /// integrity backstop for anything received from the network: a truncated,
    /// corrupt or hostile transfer leaves the store untouched.
    pub fn finish_expecting(self, expected: &str) -> (r: Result<u64>)
        requires
            self.wf(),
        ensures
            match r {
                Ok(n) => content_hash(self.content()) == expected@ && n == self.content().len(),
                Err(e) => content_hash(self.content()) != expected@ && e@ == plain(
                    ErrorClass::IntegrityError,
                    announced_mismatch(expected@, content_hash(self.content())),
                ),
            },
    {
        let hash = self.seal();
        if !same_text(hash.as_str(), expected) {
            let mut m = "IntegrityError: content announced as ".to_owned();
            m.push_str(expected);
            m.push_str(" hashes to ");
            m.push_str(hash.as_str());
            return Err(integrity(m.as_str()));
        }
        Ok(self.written)
    }
}

/// A file being read once: hashed, counted, and its first bytes kept.
pub struct FileStream {
    writer: BlobWriter,
    prefix: Vec<u8>,
    limit: usize,
}

impl FileStream {
    /// Everything read so far.
    pub closed spec fn content(&self) -> Seq<u8> {
        self.writer.content()
    }

    pub closed spec fn kept_limit(&self) -> usize {
        self.limit
    }

    pub closed spec fn wf(&self) -> bool {
        &&& self.writer.wf()
        &&& self.prefix@ == first_bytes(self.writer.content(), self.limit)
    }

    pub fn stream_file(prefix_limit: usize) -> (s: FileStream)
        ensures
            s.wf(),
            s.content() == Seq::<u8>::empty(),
            s.kept_limit() == prefix_limit,
    {
        let s = FileStream {
            writer: BlobWriter::start(false),
            prefix: Vec::new(),
            limit: prefix_limit,
        };
        proof {
            assert(s.prefix@ =~= first_bytes(Seq::<u8>::empty(), prefix_limit));
        }
        s
    }

    pub fn feed(&mut self, bytes: &[u8])
        requires
            old(self).wf(),
            old(self).content().len() + bytes@.len() <= u64::MAX,
        ensures
            final(self).wf(),
            final(self).content() == old(self).content() + bytes@,
            final(self).kept_limit() == old(self).kept_limit(),
    {
        let ghost before = self.writer.content();
        let mut i: usize = 0;
        while i < bytes.len() && self.prefix.len() < self.limit
            invariant
                i <= bytes@.len(),
                self.writer == old(self).writer,
                self.limit == old(self).limit,
                before == self.writer.content(),
                self.prefix@ == first_bytes(before + bytes@.take(i as int), self.limit),
                old(self).wf(),
            decreases bytes@.len() - i,
        {
            self.prefix.push(bytes[i]);
            proof {
                let now = before + bytes@.take(i as int);
                assert(before + bytes@.take(i + 1) =~= now.push(bytes@[i as int]));
                assert(self.prefix@ =~= first_bytes(now.push(bytes@[i as int]), self.limit));
            }
            i = i + 1;
        }
        proof {
            if i == bytes@.len() {
                assert(bytes@.take(i as int) =~= bytes@);
            } else {
                assert(self.prefix@ =~= first_bytes(before + bytes@, self.limit));
            }
        }
        self.writer.write(bytes);
    }

    pub fn finish(self) -> (i: Ingested)
        requires
            self.wf(),
        ensures
            i.hash@ == content_hash(self.content()),
            is_reference(i.hash@),
            i.size == self.content().len(),
            i.prefix@ == first_bytes(self.content(), self.kept_limit()),
    {
        proof {
            lemma_hex_of(sha256_digest(self.content()));
        }
        let (hash, size) = self.writer.finish();
        Ingested { hash, size, prefix: self.prefix }
    }
}

/// At most the first `limit` bytes.
pub open spec fn first_bytes(bytes: Seq<u8>, limit: usize) -> Seq<u8> {
    if bytes.len() <= limit {
        bytes
    } else {
        bytes.take(limit as int)
    }
}

// ---------------------------------------------------------------------------
// What the store guarantees
// ---------------------------------------------------------------------------

/// What a store holds once bytes were put into it: they are there, under their
/// hash, unless they were already.
pub open spec fn put_of(store: Map<Seq<char>, u64>, bytes: Seq<u8>) -> Map<Seq<char>, u64> {
    if store.contains_key(content_hash(bytes)) {
        store
    } else {
        store.insert(content_hash(bytes), bytes.len() as u64)
    }
}

/// A reference takes one byte for each of its characters.
pub proof fn lemma_reference_bytes(hash: Seq<char>)
    requires
        is_reference(hash),
    ensures
        byte_len(hash) == 64,
{
    assert(is_ascii_chars(hash)) by {
        assert forall|i: int| 0 <= i < hash.len() implies '\0' <= #[trigger] hash[i] <= '\u{7f}' by {
            assert(is_any_hex(hash[i]));
        }
    }
    is_ascii_chars_encode_utf8(hash);
}

/// Whether bytes read from the place of a name are what the name stands for.
pub open spec fn reads_as(hash: Seq<char>, bytes: Seq<u8>) -> bool {
    byte_len(hash) == 64 && content_hash(bytes) == hash
}

/// Identical content is stored once: it is held under its hash, putting it
/// again changes nothing, and no other content is touched.
pub proof fn content_is_stored_once(store: Map<Seq<char>, u64>, bytes: Seq<u8>)
    ensures
        put_of(store, bytes).contains_key(content_hash(bytes)),
        put_of(put_of(store, bytes), bytes) == put_of(store, bytes),
        forall|other: Seq<char>|
            other != content_hash(bytes) ==> put_of(store, bytes).contains_key(other)
                == #[trigger] store.contains_key(other),
{
}

/// Only references are held: no shorter text is ever the name of content.
pub proof fn only_references_are_held(store: BlobStore, hash: Seq<char>)
    requires
        store.wf(),
        store.holds(hash),
    ensures
        is_reference(hash),
        hash.len() == 64,
{
    lemma_blob_found(store.catalogue(), hash);
}

/// Content somebody can still name is never collected, however old it is.
pub proof fn live_content_is_kept(
    store: BlobStore,
    item: Listed,
    live: Seq<String>,
    claims: Claims,
    now_ms: u64,
    min_age_ms: u64,
)
    requires
        item.place is Shard,
        lists(live, item.name@),
    ensures
        !store.collectable(item, live, claims, now_ms, min_age_ms),
{
}

/// A partial that a writer holds is never collected.
pub proof fn claimed_partials_are_kept(
    store: BlobStore,
    item: Listed,
    live: Seq<String>,
    claims: Claims,
    now_ms: u64,
    min_age_ms: u64,
)
    requires
        item.place is PartialDir,
        claims.claims(partial_path(store.place(), item.name@)),
    ensures
        !store.collectable(item, live, claims, now_ms, min_age_ms),
{
}

/// Within the grace period nothing but a redundant partial is collected.
pub proof fn young_content_is_kept(
    store: BlobStore,
    item: Listed,
    live: Seq<String>,
    claims: Claims,
    now_ms: u64,
    min_age_ms: u64,
)
    requires
        min_age_ms > 0,
        item.modified_ms matches Some(m) && (m > now_ms || now_ms - m < min_age_ms),
        store.collectable(item, live, claims, now_ms, min_age_ms),
    ensures
        item.place is PartialDir,
        store.holds(item.name@),
{
}

} // verus!
