//! Core Weave domain types.

use vstd::prelude::*;
use vstd::utf8::valid_utf8;

use crate::error::ErrorClass;
use crate::path::RepoPath;
use crate::text::{decimal, decimal_text, opt_view, same_text, texts, views};
use crate::util::{
    content_hash, hex_number, sha256_hex, short_form, short_id, uuid_form, uuid_text, Uuid,
};

verus! {

// ---------------------------------------------------------------------------
// Limits
// ---------------------------------------------------------------------------

/// Files larger than this are never three-way merged as text.
pub const TEXT_MERGE_LIMIT: u64 = 1048576;

/// Files larger than this are not synchronized at all.
pub const MAX_SYNCED_FILE: u64 = 10485760;

/// The size limit of a session that has not chosen another one.
pub const DEFAULT_MAX_FILE_SIZE: u64 = 10485760;

/// How much of a file decides its classification: one byte more than the
/// largest mergeable text.
pub const CLASSIFY_PREFIX: usize = 1048577;

/// Maximum WebSocket frame accepted.
pub const MAX_PROTOCOL_MESSAGE: usize = 50331648;

/// Backpressure bounds per remote connection.
pub const MAX_QUEUED_MESSAGES: usize = 256;

pub const MAX_QUEUED_BYTES: usize = 33554432;

/// Wire protocol version.
pub const PROTOCOL_VERSION: u32 = 1;

// ---------------------------------------------------------------------------
// File entries
// ---------------------------------------------------------------------------

/// The Git file modes Weave supports. Tracked symlinks and gitlinks are not
/// representable on purpose.
#[derive(Debug, Clone, Copy, PartialEq, Eq, PartialOrd, Ord, Hash, Structural)]
pub enum GitMode {
    Regular,
    Executable,
}

impl GitMode {
    pub open spec fn name(self) -> Seq<char> {
        match self {
            GitMode::Regular => "100644"@,
            GitMode::Executable => "100755"@,
        }
    }

    pub fn as_str(self) -> (s: &'static str)
        ensures
            s@ == self.name(),
    {
        match self {
            GitMode::Regular => "100644",
            GitMode::Executable => "100755",
        }
    }

    /// The mode with a name.
    pub open spec fn named(s: Seq<char>) -> Option<GitMode> {
        if s == "100644"@ {
            Some(GitMode::Regular)
        } else if s == "100755"@ {
            Some(GitMode::Executable)
        } else {
            None
        }
    }

    pub fn parse(s: &str) -> (mode: Option<GitMode>)
        ensures
            mode == GitMode::named(s@),
    {
        if same_text(s, "100644") {
            Some(GitMode::Regular)
        } else if same_text(s, "100755") {
            Some(GitMode::Executable)
        } else {
            None
        }
    }

    pub fn is_executable(self) -> (yes: bool)
        ensures
            yes == (self == GitMode::Executable),
    {
        match self {
            GitMode::Executable => true,
            GitMode::Regular => false,
        }
    }
}

/// Parsing a mode's name gives the mode back.
pub proof fn mode_names_parse_back(a: GitMode, b: GitMode)
    ensures
        a.name() == b.name() ==> a == b,
        GitMode::named(a.name()) == Some(a),
{
    reveal_strlit("100644");
    reveal_strlit("100755");
    assert("100644"@[3] != "100755"@[3]);
}

/// Nothing but the name of a mode parses as one.
pub proof fn only_mode_names_parse(s: Seq<char>)
    ensures
        GitMode::named(s) matches Some(mode) ==> mode.name() == s,
        GitMode::named(s) is None ==> s != GitMode::Regular.name() && s
            != GitMode::Executable.name(),
{
}

/// `str::from_utf8` accepts exactly the valid UTF-8 byte sequences.
#[verifier::external_body]
fn is_utf8(bytes: &[u8]) -> (yes: bool)
    ensures
        yes == valid_utf8(bytes@),
{
    std::str::from_utf8(bytes).is_ok()
}

/// Deterministic text/binary classification.
#[derive(Debug, Clone, Copy, PartialEq, Eq, Hash, Structural)]
pub enum FileKind {
    Text,
    Binary,
}

/// Text is short, free of NUL bytes and valid UTF-8; all else is binary.
pub open spec fn kind_of(bytes: Seq<u8>) -> FileKind {
    if bytes.len() <= TEXT_MERGE_LIMIT && !bytes.contains(0) && valid_utf8(bytes) {
        FileKind::Text
    } else {
        FileKind::Binary
    }
}

impl FileKind {
    /// Classify bytes. Deterministic from the bytes and the limit.
    pub fn classify(bytes: &[u8]) -> (kind: FileKind)
        ensures
            kind == kind_of(bytes@),
    {
        if bytes.len() as u64 > TEXT_MERGE_LIMIT {
            return FileKind::Binary;
        }
        let mut i: usize = 0;
        while i < bytes.len()
            invariant
                i <= bytes@.len(),
                forall|k: int| 0 <= k < i ==> bytes@[k] != 0,
            decreases bytes@.len() - i,
        {
            if bytes[i] == 0 {
                assert(bytes@[i as int] == 0);
                return FileKind::Binary;
            }
            i = i + 1;
        }
        if !is_utf8(bytes) {
            return FileKind::Binary;
        }
        FileKind::Text
    }

    pub open spec fn name(self) -> Seq<char> {
        match self {
            FileKind::Text => "text"@,
            FileKind::Binary => "binary"@,
        }
    }

    pub fn as_str(self) -> (s: &'static str)
        ensures
            s@ == self.name(),
    {
        match self {
            FileKind::Text => "text",
            FileKind::Binary => "binary",
        }
    }
}

/// An entry as plain values.
pub struct EntryView {
    pub blob_hash: Seq<char>,
    pub size: u64,
    pub git_mode: GitMode,
    pub file_kind: FileKind,
}

/// A repository entry. Absence of a `FileEntry` represents a missing path.
#[derive(Debug, PartialEq, Eq, Hash)]
pub struct FileEntry {
    /// Lowercase hex SHA-256 over the exact file bytes.
    pub blob_hash: String,
    pub size: u64,
    pub git_mode: GitMode,
    pub file_kind: FileKind,
}

impl View for FileEntry {
    type V = EntryView;

    open spec fn view(&self) -> EntryView {
        EntryView {
            blob_hash: self.blob_hash@,
            size: self.size,
            git_mode: self.git_mode,
            file_kind: self.file_kind,
        }
    }
}

impl Clone for FileEntry {
    fn clone(&self) -> (copy: FileEntry)
        ensures
            copy == *self,
    {
        FileEntry {
            blob_hash: self.blob_hash.clone(),
            size: self.size,
            git_mode: self.git_mode,
            file_kind: self.file_kind,
        }
    }
}

/// An optional entry as plain values.
pub open spec fn entry_view(e: Option<FileEntry>) -> Option<EntryView> {
    match e {
        Some(x) => Some(x@),
        None => None,
    }
}

/// A borrowed optional entry as plain values.
pub open spec fn entry_ref(e: Option<&FileEntry>) -> Option<EntryView> {
    match e {
        Some(x) => Some(x@),
        None => None,
    }
}

/// Same content and same mode, or both absent.
pub open spec fn same_state(a: Option<EntryView>, b: Option<EntryView>) -> bool {
    match (a, b) {
        (None, None) => true,
        (Some(x), Some(y)) => x.blob_hash == y.blob_hash && x.git_mode == y.git_mode,
        _ => false,
    }
}

/// The first bytes of an ingested file, with its address and full size.
#[derive(Debug)]
pub struct Ingested {
    pub hash: String,
    pub size: u64,
    pub prefix: Vec<u8>,
}

/// The entry that stands for some bytes.
pub open spec fn entry_of(bytes: Seq<u8>, git_mode: GitMode) -> EntryView {
    EntryView {
        blob_hash: content_hash(bytes),
        size: bytes.len() as u64,
        git_mode,
        file_kind: kind_of(bytes),
    }
}

impl FileEntry {
    pub fn from_bytes(bytes: &[u8], git_mode: GitMode) -> (e: FileEntry)
        ensures
            e@ == entry_of(bytes@, git_mode),
    {
        FileEntry {
            blob_hash: sha256_hex(bytes),
            size: bytes.len() as u64,
            git_mode,
            file_kind: FileKind::classify(bytes),
        }
    }

    /// The entry for a file that was streamed into the blob store, classified
    /// from the prefix that was kept.
    pub fn from_ingested(ingested: &Ingested, git_mode: GitMode) -> (e: FileEntry)
        ensures
            e@ == (EntryView {
                blob_hash: ingested.hash@,
                size: ingested.size,
                git_mode,
                file_kind: kind_of(ingested.prefix@),
            }),
    {
        FileEntry {
            blob_hash: ingested.hash.clone(),
            size: ingested.size,
            git_mode,
            file_kind: FileKind::classify(ingested.prefix.as_slice()),
        }
    }

    /// Same content and same mode.
    pub fn same_as(a: Option<&FileEntry>, b: Option<&FileEntry>) -> (same: bool)
        ensures
            same == same_state(entry_ref(a), entry_ref(b)),
    {
        match (a, b) {
            (None, None) => true,
            (Some(x), Some(y)) => same_text(x.blob_hash.as_str(), y.blob_hash.as_str())
                && x.git_mode == y.git_mode,
            _ => false,
        }
    }
}

/// A copy of an optional entry.
pub fn copy_entry(e: &Option<FileEntry>) -> (copy: Option<FileEntry>)
    ensures
        copy == *e,
{
    match e {
        Some(x) => Some(x.clone()),
        None => None,
    }
}

/// Classifying the kept prefix of a streamed file agrees with classifying the
/// whole file.
pub proof fn prefix_classification_agrees(bytes: Seq<u8>, prefix: Seq<u8>)
    requires
        prefix == if bytes.len() <= CLASSIFY_PREFIX {
            bytes
        } else {
            bytes.take(CLASSIFY_PREFIX as int)
        },
    ensures
        kind_of(prefix) == kind_of(bytes),
{
}

/// Being in the same state is an equivalence.
pub proof fn same_state_is_an_equivalence(
    a: Option<EntryView>,
    b: Option<EntryView>,
    c: Option<EntryView>,
)
    ensures
        same_state(a, a),
        same_state(a, b) == same_state(b, a),
        same_state(a, b) && same_state(b, c) ==> same_state(a, c),
{
}

// ---------------------------------------------------------------------------
// Revisions
// ---------------------------------------------------------------------------

/// One accepted canonical mutation. Complete before/after information is kept,
/// so creation, deletion, content change and mode change are distinguishable
/// and every revision is reconstructible.
#[derive(Debug)]
pub struct Revision {
    pub revision: u64,
    pub operation_id: Uuid,
    pub actor_id: Uuid,
    pub task_id: Option<Uuid>,
    pub timestamp_ms: i64,
    pub path: RepoPath,
    pub before: Option<FileEntry>,
    pub after: Option<FileEntry>,
}

/// A revision as plain values.
pub struct RevisionView {
    pub revision: u64,
    pub operation_id: Uuid,
    pub actor_id: Uuid,
    pub task_id: Option<Uuid>,
    pub timestamp_ms: i64,
    pub path: Seq<char>,
    pub before: Option<EntryView>,
    pub after: Option<EntryView>,
}

impl View for Revision {
    type V = RevisionView;

    open spec fn view(&self) -> RevisionView {
        RevisionView {
            revision: self.revision,
            operation_id: self.operation_id,
            actor_id: self.actor_id,
            task_id: self.task_id,
            timestamp_ms: self.timestamp_ms,
            path: self.path@,
            before: entry_view(self.before),
            after: entry_view(self.after),
        }
    }
}

impl Clone for Revision {
    fn clone(&self) -> (copy: Revision)
        ensures
            copy == *self,
    {
        Revision {
            revision: self.revision,
            operation_id: self.operation_id,
            actor_id: self.actor_id,
            task_id: self.task_id,
            timestamp_ms: self.timestamp_ms,
            path: self.path.clone(),
            before: copy_entry(&self.before),
            after: copy_entry(&self.after),
        }
    }
}

// ---------------------------------------------------------------------------
// Operations
// ---------------------------------------------------------------------------

/// A participant's desired state for one path.
#[derive(Debug)]
pub struct FileOperation {
    pub operation_id: Uuid,
    /// Advisory only: the host rebinds this to the connection's identity.
    pub actor_id: Uuid,
    pub task_id: Option<Uuid>,
    pub local_seq: u64,
    pub base_revision: u64,
    pub base_entry: Option<FileEntry>,
    pub path: RepoPath,
    /// `None` means deletion.
    pub desired_entry: Option<FileEntry>,
    /// Full file content, when it travels with the operation.
    pub content: Option<Vec<u8>>,
}

/// An operation as plain values.
pub struct OperationView {
    pub operation_id: Uuid,
    pub actor_id: Uuid,
    pub task_id: Option<Uuid>,
    pub local_seq: u64,
    pub base_revision: u64,
    pub base_entry: Option<EntryView>,
    pub path: Seq<char>,
    pub desired_entry: Option<EntryView>,
    pub content: Option<Seq<u8>>,
}

impl View for FileOperation {
    type V = OperationView;

    open spec fn view(&self) -> OperationView {
        OperationView {
            operation_id: self.operation_id,
            actor_id: self.actor_id,
            task_id: self.task_id,
            local_seq: self.local_seq,
            base_revision: self.base_revision,
            base_entry: entry_view(self.base_entry),
            path: self.path@,
            desired_entry: entry_view(self.desired_entry),
            content: match self.content {
                Some(bytes) => Some(bytes@),
                None => None,
            },
        }
    }
}

/// How a character is written in a JSON string: quotes, backslashes and
/// control characters are escaped, everything else stands for itself.
pub open spec fn json_char(c: char) -> Seq<char> {
    if c == '"' || c == '\\' {
        seq!['\\', c]
    } else if c == '\u{8}' {
        "\\b"@
    } else if c == '\t' {
        "\\t"@
    } else if c == '\n' {
        "\\n"@
    } else if c == '\u{c}' {
        "\\f"@
    } else if c == '\r' {
        "\\r"@
    } else if (c as u32) < 0x20 {
        "\\u"@ + hex_number(c as u32 as nat, 4)
    } else {
        seq![c]
    }
}

/// A string as a JSON string literal.
pub open spec fn json_form(s: Seq<char>) -> Seq<char> {
    "\""@ + s.map_values(|c: char| json_char(c)).flatten() + "\""@
}

/// `serde_json::to_string` on a string: the literal in quotes, each character
/// written in its place. Serializing a string never fails.
#[verifier::external_body]
fn json_string(s: &str) -> (t: String)
    ensures
        t@ == json_form(s@),
{
    serde_json::to_string(s).unwrap_or_default()
}

/// An optional entry as a JSON object with its keys in alphabetical order.
pub open spec fn entry_json(e: Option<EntryView>) -> Seq<char> {
    match e {
        None => "null"@,
        Some(x) => "{\"blob_hash\":"@ + json_form(x.blob_hash) + ",\"file_kind\":\""@
            + x.file_kind.name() + "\",\"git_mode\":\""@ + x.git_mode.name() + "\",\"size\":"@
            + decimal(x.size as nat) + "}"@,
    }
}

pub fn entry_json_text(e: &Option<FileEntry>) -> (s: String)
    ensures
        s@ == entry_json(entry_view(*e)),
{
    match e {
        None => "null".to_owned(),
        Some(x) => {
            let mut s = "{\"blob_hash\":".to_owned();
            s.push_str(json_string(x.blob_hash.as_str()).as_str());
            s.push_str(",\"file_kind\":\"");
            s.push_str(x.file_kind.as_str());
            s.push_str("\",\"git_mode\":\"");
            s.push_str(x.git_mode.as_str());
            s.push_str("\",\"size\":");
            s.push_str(decimal_text(x.size).as_str());
            s.push_str("}");
            s
        },
    }
}

/// An optional entry as a JSON object with its keys in the order they are
/// declared.
pub open spec fn entry_json_declared(e: Option<EntryView>) -> Seq<char> {
    match e {
        None => "null"@,
        Some(x) => "{\"blob_hash\":"@ + json_form(x.blob_hash) + ",\"size\":"@ + decimal(
            x.size as nat,
        ) + ",\"git_mode\":\""@ + x.git_mode.name() + "\",\"file_kind\":\""@ + x.file_kind.name()
            + "\"}"@,
    }
}

pub fn entry_json_declared_text(e: &Option<FileEntry>) -> (s: String)
    ensures
        s@ == entry_json_declared(entry_view(*e)),
{
    match e {
        None => "null".to_owned(),
        Some(x) => {
            let mut s = "{\"blob_hash\":".to_owned();
            s.push_str(json_string(x.blob_hash.as_str()).as_str());
            s.push_str(",\"size\":");
            s.push_str(decimal_text(x.size).as_str());
            s.push_str(",\"git_mode\":\"");
            s.push_str(x.git_mode.as_str());
            s.push_str("\",\"file_kind\":\"");
            s.push_str(x.file_kind.as_str());
            s.push_str("\"}");
            s
        },
    }
}

/// An optional identifier as JSON.
pub open spec fn id_json(id: Option<Uuid>) -> Seq<char> {
    match id {
        None => "null"@,
        Some(x) => "\""@ + uuid_form(x) + "\""@,
    }
}

pub fn id_json_text(id: Option<Uuid>) -> (s: String)
    ensures
        s@ == id_json(id),
{
    match id {
        None => "null".to_owned(),
        Some(x) => {
            let mut s = "\"".to_owned();
            s.push_str(uuid_text(x).as_str());
            s.push_str("\"");
            s
        },
    }
}

impl OperationView {
    /// The semantically meaningful payload as compact JSON, keys in
    /// alphabetical order.
    pub open spec fn payload(self) -> Seq<char> {
        "{\"base_entry\":"@ + entry_json(self.base_entry) + ",\"base_revision\":"@ + decimal(
            self.base_revision as nat,
        ) + ",\"desired_entry\":"@ + entry_json(self.desired_entry) + ",\"local_seq\":"@ + decimal(
            self.local_seq as nat,
        ) + ",\"path\":"@ + json_form(self.path) + ",\"task_id\":"@ + id_json(self.task_id) + "}"@
    }

    /// The digest of the payload, as stored beside an operation's result.
    pub open spec fn payload_digest(self) -> Seq<char> {
        content_hash(vstd::utf8::encode_utf8(self.payload()))
    }
}

/// The actor and the content an operation carries do not enter its payload:
/// a retransmission over another connection has the same digest.
pub proof fn payload_ignores_actor_and_content(a: OperationView, b: OperationView)
    requires
        a.task_id == b.task_id,
        a.local_seq == b.local_seq,
        a.base_revision == b.base_revision,
        a.base_entry == b.base_entry,
        a.path == b.path,
        a.desired_entry == b.desired_entry,
    ensures
        a.payload_digest() == b.payload_digest(),
{
}

impl FileOperation {
    /// The text whose digest identifies the payload.
    pub fn canonical_payload(&self) -> (s: String)
        ensures
            s@ == self@.payload(),
    {
        let mut s = "{\"base_entry\":".to_owned();
        s.push_str(entry_json_text(&self.base_entry).as_str());
        s.push_str(",\"base_revision\":");
        s.push_str(decimal_text(self.base_revision).as_str());
        s.push_str(",\"desired_entry\":");
        s.push_str(entry_json_text(&self.desired_entry).as_str());
        s.push_str(",\"local_seq\":");
        s.push_str(decimal_text(self.local_seq).as_str());
        s.push_str(",\"path\":");
        s.push_str(json_string(self.path.as_str()).as_str());
        s.push_str(",\"task_id\":");
        s.push_str(id_json_text(self.task_id).as_str());
        s.push_str("}");
        s
    }

    /// Stable hash over the semantically meaningful payload, used to detect a
    /// retransmitted `operation_id` carrying a different payload.
    pub fn payload_hash(&self) -> (s: String)
        ensures
            s@ == self@.payload_digest(),
    {
        let text = self.canonical_payload();
        sha256_hex(text.as_str().as_bytes())
    }
}

/// The durable result of an operation, replayable for idempotent retransmits.
#[derive(Debug)]
pub enum OperationOutcome {
    /// Canonical state advanced. A new revision was created.
    Accepted { revision: u64, canonical_entry: Option<FileEntry> },
    /// The desired state already matched canonical state; no revision consumed.
    Converged { revision: u64, canonical_entry: Option<FileEntry> },
    /// A clean three-way merge produced content different from the request.
    Merged { revision: u64, canonical_entry: Option<FileEntry> },
    /// Reconciliation could not proceed automatically. Canonical state is
    /// unchanged and a Weave conflict was created.
    Conflicted {
        conflict_id: Uuid,
        kind: ConflictKind,
        revision: u64,
        canonical_entry: Option<FileEntry>,
    },
    /// The operation was refused. Canonical state is unchanged.
    Rejected { class: ErrorClass, message: String },
}

/// An outcome as plain values.
pub enum OutcomeView {
    Accepted { revision: u64, canonical_entry: Option<EntryView> },
    Converged { revision: u64, canonical_entry: Option<EntryView> },
    Merged { revision: u64, canonical_entry: Option<EntryView> },
    Conflicted {
        conflict_id: Uuid,
        kind: ConflictKind,
        revision: u64,
        canonical_entry: Option<EntryView>,
    },
    Rejected { class: ErrorClass, message: Seq<char> },
}

impl View for OperationOutcome {
    type V = OutcomeView;

    open spec fn view(&self) -> OutcomeView {
        match *self {
            OperationOutcome::Accepted { revision, canonical_entry } => OutcomeView::Accepted {
                revision,
                canonical_entry: entry_view(canonical_entry),
            },
            OperationOutcome::Converged { revision, canonical_entry } => OutcomeView::Converged {
                revision,
                canonical_entry: entry_view(canonical_entry),
            },
            OperationOutcome::Merged { revision, canonical_entry } => OutcomeView::Merged {
                revision,
                canonical_entry: entry_view(canonical_entry),
            },
            OperationOutcome::Conflicted {
                conflict_id,
                kind,
                revision,
                canonical_entry,
            } => OutcomeView::Conflicted {
                conflict_id,
                kind,
                revision,
                canonical_entry: entry_view(canonical_entry),
            },
            OperationOutcome::Rejected { class, message } => OutcomeView::Rejected {
                class,
                message: message@,
            },
        }
    }
}

impl Clone for OperationOutcome {
    fn clone(&self) -> (copy: OperationOutcome)
        ensures
            copy == *self,
    {
        match self {
            OperationOutcome::Accepted { revision, canonical_entry } => OperationOutcome::Accepted {
                revision: *revision,
                canonical_entry: copy_entry(canonical_entry),
            },
            OperationOutcome::Converged {
                revision,
                canonical_entry,
            } => OperationOutcome::Converged {
                revision: *revision,
                canonical_entry: copy_entry(canonical_entry),
            },
            OperationOutcome::Merged { revision, canonical_entry } => OperationOutcome::Merged {
                revision: *revision,
                canonical_entry: copy_entry(canonical_entry),
            },
            OperationOutcome::Conflicted {
                conflict_id,
                kind,
                revision,
                canonical_entry,
            } => OperationOutcome::Conflicted {
                conflict_id: *conflict_id,
                kind: *kind,
                revision: *revision,
                canonical_entry: copy_entry(canonical_entry),
            },
            OperationOutcome::Rejected { class, message } => OperationOutcome::Rejected {
                class: *class,
                message: message.clone(),
            },
        }
    }
}

impl OperationOutcome {
    /// The canonical state an outcome speaks of.
    pub fn canonical(&self) -> (r: Option<(u64, Option<FileEntry>)>)
        ensures
            r == match *self {
                OperationOutcome::Accepted { revision, canonical_entry } => Some(
                    (revision, canonical_entry),
                ),
                OperationOutcome::Converged { revision, canonical_entry } => Some(
                    (revision, canonical_entry),
                ),
                OperationOutcome::Merged { revision, canonical_entry } => Some(
                    (revision, canonical_entry),
                ),
                OperationOutcome::Conflicted { revision, canonical_entry, .. } => Some(
                    (revision, canonical_entry),
                ),
                OperationOutcome::Rejected { .. } => None,
            },
    {
        match self {
            OperationOutcome::Accepted { revision, canonical_entry } => Some(
                (*revision, copy_entry(canonical_entry)),
            ),
            OperationOutcome::Converged { revision, canonical_entry } => Some(
                (*revision, copy_entry(canonical_entry)),
            ),
            OperationOutcome::Merged { revision, canonical_entry } => Some(
                (*revision, copy_entry(canonical_entry)),
            ),
            OperationOutcome::Conflicted { revision, canonical_entry, .. } => Some(
                (*revision, copy_entry(canonical_entry)),
            ),
            OperationOutcome::Rejected { .. } => None,
        }
    }

    /// Every outcome settles its operation.
    pub fn is_resolved(&self) -> (yes: bool)
        ensures
            yes,
    {
        true
    }
}

// ---------------------------------------------------------------------------
// Conflicts
// ---------------------------------------------------------------------------

#[derive(Debug, Clone, Copy, PartialEq, Eq, Structural)]
pub enum ConflictKind {
    ConcurrentCreate,
    DeleteModify,
    BinaryConcurrentEdit,
    TextConcurrentEdit,
    ModeConflict,
}

impl ConflictKind {
    pub open spec fn name(self) -> Seq<char> {
        match self {
            ConflictKind::ConcurrentCreate => "concurrent_create"@,
            ConflictKind::DeleteModify => "delete_modify"@,
            ConflictKind::BinaryConcurrentEdit => "binary_concurrent_edit"@,
            ConflictKind::TextConcurrentEdit => "text_concurrent_edit"@,
            ConflictKind::ModeConflict => "mode_conflict"@,
        }
    }

    pub open spec fn description(self) -> Seq<char> {
        match self {
            ConflictKind::ConcurrentCreate => "The same path was created independently with different content."@,
            ConflictKind::DeleteModify => "One side deleted the file while the other modified it."@,
            ConflictKind::BinaryConcurrentEdit => "A binary file was modified concurrently; binary content is never merged."@,
            ConflictKind::TextConcurrentEdit => "Overlapping line-level edits could not be merged automatically."@,
            ConflictKind::ModeConflict => "The executable bit was changed incompatibly on both sides."@,
        }
    }

    pub fn as_str(self) -> (s: &'static str)
        ensures
            s@ == self.name(),
    {
        match self {
            ConflictKind::ConcurrentCreate => "concurrent_create",
            ConflictKind::DeleteModify => "delete_modify",
            ConflictKind::BinaryConcurrentEdit => "binary_concurrent_edit",
            ConflictKind::TextConcurrentEdit => "text_concurrent_edit",
            ConflictKind::ModeConflict => "mode_conflict",
        }
    }

    pub fn describe(self) -> (s: &'static str)
        ensures
            s@ == self.description(),
    {
        match self {
            ConflictKind::ConcurrentCreate => "The same path was created independently with different content.",
            ConflictKind::DeleteModify => "One side deleted the file while the other modified it.",
            ConflictKind::BinaryConcurrentEdit => "A binary file was modified concurrently; binary content is never merged.",
            ConflictKind::TextConcurrentEdit => "Overlapping line-level edits could not be merged automatically.",
            ConflictKind::ModeConflict => "The executable bit was changed incompatibly on both sides.",
        }
    }
}

#[derive(Debug, Clone, Copy, PartialEq, Eq, Structural)]
pub enum ConflictStatus {
    Open,
    Resolved,
    Dismissed,
}

impl ConflictStatus {
    pub open spec fn name(self) -> Seq<char> {
        match self {
            ConflictStatus::Open => "open"@,
            ConflictStatus::Resolved => "resolved"@,
            ConflictStatus::Dismissed => "dismissed"@,
        }
    }

    pub fn as_str(self) -> (s: &'static str)
        ensures
            s@ == self.name(),
    {
        match self {
            ConflictStatus::Open => "open",
            ConflictStatus::Resolved => "resolved",
            ConflictStatus::Dismissed => "dismissed",
        }
    }
}

#[derive(Debug)]
pub struct Conflict {
    pub id: Uuid,
    pub path: RepoPath,
    pub kind: ConflictKind,
    pub base_entry: Option<FileEntry>,
    pub canonical_entry: Option<FileEntry>,
    pub incoming_entry: Option<FileEntry>,
    /// The newest local candidate on the originating machine.
    pub latest_local_candidate: Option<FileEntry>,
    pub incoming_actor_id: Uuid,
    pub incoming_task_id: Option<Uuid>,
    pub canonical_revision: u64,
    pub created_at_ms: i64,
    pub status: ConflictStatus,
    /// Revision that resolved the conflict, when resolved.
    pub resolved_revision: Option<u64>,
}

/// A conflict as plain values.
pub struct ConflictView {
    pub id: Uuid,
    pub path: Seq<char>,
    pub kind: ConflictKind,
    pub base_entry: Option<EntryView>,
    pub canonical_entry: Option<EntryView>,
    pub incoming_entry: Option<EntryView>,
    pub latest_local_candidate: Option<EntryView>,
    pub incoming_actor_id: Uuid,
    pub incoming_task_id: Option<Uuid>,
    pub canonical_revision: u64,
    pub created_at_ms: i64,
    pub status: ConflictStatus,
    pub resolved_revision: Option<u64>,
}

impl View for Conflict {
    type V = ConflictView;

    open spec fn view(&self) -> ConflictView {
        ConflictView {
            id: self.id,
            path: self.path@,
            kind: self.kind,
            base_entry: entry_view(self.base_entry),
            canonical_entry: entry_view(self.canonical_entry),
            incoming_entry: entry_view(self.incoming_entry),
            latest_local_candidate: entry_view(self.latest_local_candidate),
            incoming_actor_id: self.incoming_actor_id,
            incoming_task_id: self.incoming_task_id,
            canonical_revision: self.canonical_revision,
            created_at_ms: self.created_at_ms,
            status: self.status,
            resolved_revision: self.resolved_revision,
        }
    }
}

impl Clone for Conflict {
    fn clone(&self) -> (copy: Conflict)
        ensures
            copy == *self,
    {
        Conflict {
            id: self.id,
            path: self.path.clone(),
            kind: self.kind,
            base_entry: copy_entry(&self.base_entry),
            canonical_entry: copy_entry(&self.canonical_entry),
            incoming_entry: copy_entry(&self.incoming_entry),
            latest_local_candidate: copy_entry(&self.latest_local_candidate),
            incoming_actor_id: self.incoming_actor_id,
            incoming_task_id: self.incoming_task_id,
            canonical_revision: self.canonical_revision,
            created_at_ms: self.created_at_ms,
            status: self.status,
            resolved_revision: self.resolved_revision,
        }
    }
}

impl Conflict {
    pub fn short_id(&self) -> (s: String)
        ensures
            s@ == short_form('C', self.id),
    {
        short_id('C', self.id)
    }
}

// ---------------------------------------------------------------------------
// Tasks
// ---------------------------------------------------------------------------

#[derive(Debug, Clone, Copy, PartialEq, Eq, Structural)]
pub enum TaskStatus {
    Active,
    Completed,
    Cancelled,
}

impl TaskStatus {
    pub open spec fn name(self) -> Seq<char> {
        match self {
            TaskStatus::Active => "active"@,
            TaskStatus::Completed => "completed"@,
            TaskStatus::Cancelled => "cancelled"@,
        }
    }

    pub fn as_str(self) -> (s: &'static str)
        ensures
            s@ == self.name(),
    {
        match self {
            TaskStatus::Active => "active",
            TaskStatus::Completed => "completed",
            TaskStatus::Cancelled => "cancelled",
        }
    }
}

/// An advisory soft lock: one file, optionally one line range.
#[derive(Debug, PartialEq, Eq)]
pub struct TaskScope {
    pub path: RepoPath,
    /// Inclusive 1-based line range, when declared.
    pub line_start: Option<u32>,
    pub line_end: Option<u32>,
    /// The entry the range was declared against. When the file moves on and
    /// the range can no longer be mapped safely, the scope degrades to file
    /// level.
    pub declared_against: Option<FileEntry>,
    pub stale: bool,
}

/// A scope as plain values.
pub struct ScopeView {
    pub path: Seq<char>,
    pub line_start: Option<u32>,
    pub line_end: Option<u32>,
    pub declared_against: Option<EntryView>,
    pub stale: bool,
}

impl View for TaskScope {
    type V = ScopeView;

    open spec fn view(&self) -> ScopeView {
        ScopeView {
            path: self.path@,
            line_start: self.line_start,
            line_end: self.line_end,
            declared_against: entry_view(self.declared_against),
            stale: self.stale,
        }
    }
}

impl Clone for TaskScope {
    fn clone(&self) -> (copy: TaskScope)
        ensures
            copy == *self,
    {
        TaskScope {
            path: self.path.clone(),
            line_start: self.line_start,
            line_end: self.line_end,
            declared_against: copy_entry(&self.declared_against),
            stale: self.stale,
        }
    }
}

impl ScopeView {
    /// The lines a scope is limited to, when it still is.
    pub open spec fn range(self) -> Option<(u32, u32)> {
        if self.stale {
            None
        } else {
            match (self.line_start, self.line_end) {
                (Some(a), Some(b)) => Some((a, b)),
                _ => None,
            }
        }
    }

    /// Whether a scope covers a line of its file.
    pub open spec fn covers(self, line: int) -> bool {
        match self.range() {
            Some((a, b)) => a <= line <= b,
            None => true,
        }
    }

    /// How a scope is shown.
    pub open spec fn form(self) -> Seq<char> {
        match (self.line_start, self.line_end) {
            (Some(a), Some(b)) => if !self.stale {
                self.path + ":"@ + decimal(a as nat) + "-"@ + decimal(b as nat)
            } else {
                self.path + ":"@ + decimal(a as nat) + "-"@ + decimal(b as nat)
                    + " (stale, file-level)"@
            },
            _ => self.path,
        }
    }

    /// Two scopes overlap when they name the same file and either scope is
    /// file-level, stale, or their line ranges intersect.
    pub open spec fn overlapping(self, other: ScopeView) -> bool {
        self.path == other.path && match (self.range(), other.range()) {
            (Some((a1, a2)), Some((b1, b2))) => a1 <= b2 && b1 <= a2,
            _ => true,
        }
    }
}

impl TaskScope {
    pub fn display(&self) -> (s: String)
        ensures
            s@ == self@.form(),
    {
        let mut s = self.path.as_str().to_owned();
        match (self.line_start, self.line_end) {
            (Some(a), Some(b)) => {
                s.push_str(":");
                s.push_str(decimal_text(a as u64).as_str());
                s.push_str("-");
                s.push_str(decimal_text(b as u64).as_str());
                if self.stale {
                    s.push_str(" (stale, file-level)");
                }
            },
            _ => {},
        }
        s
    }

    /// Two scopes overlap when they name the same file and either scope is
    /// file-level, stale, or their line ranges intersect.
    pub fn overlaps(&self, other: &TaskScope) -> (yes: bool)
        ensures
            yes == self@.overlapping(other@),
    {
        if !self.path.same(&other.path) {
            return false;
        }
        match (self.effective_range(), other.effective_range()) {
            (Some((a1, a2)), Some((b1, b2))) => a1 <= b2 && b1 <= a2,
            _ => true,
        }
    }

    pub fn effective_range(&self) -> (r: Option<(u32, u32)>)
        ensures
            r == self@.range(),
    {
        if self.stale {
            return None;
        }
        match (self.line_start, self.line_end) {
            (Some(a), Some(b)) => Some((a, b)),
            _ => None,
        }
    }
}

/// Overlap is mutual, and on well-ordered ranges it means exactly that some
/// line of the same file is covered by both.
pub proof fn overlap_is_a_shared_line(a: ScopeView, b: ScopeView)
    requires
        a.range() matches Some((x, y)) ==> 1 <= x <= y,
        b.range() matches Some((x, y)) ==> 1 <= x <= y,
    ensures
        a.overlapping(b) == b.overlapping(a),
        a.overlapping(b) == (a.path == b.path && exists|line: int|
            1 <= line && a.covers(line) && #[trigger] b.covers(line)),
{
    if a.overlapping(b) {
        let line: int = match (a.range(), b.range()) {
            (Some((a1, a2)), Some((b1, b2))) => if a1 <= b1 {
                b1 as int
            } else {
                a1 as int
            },
            (Some((a1, a2)), None) => a1 as int,
            (None, Some((b1, b2))) => b1 as int,
            (None, None) => 1,
        };
        assert(a.covers(line) && b.covers(line));
    }
}

/// A task as plain values and sequences.
pub struct TaskView {
    pub id: Uuid,
    pub actor_id: Uuid,
    pub description: Seq<char>,
    pub status: TaskStatus,
    pub created_at_ms: i64,
    pub updated_at_ms: i64,
    pub created_revision: u64,
    pub completed_revision: Option<u64>,
    pub scopes: Seq<ScopeView>,
    pub touched_paths: Seq<Seq<char>>,
    pub first_accepted_revision: Option<u64>,
    pub last_accepted_revision: Option<u64>,
}

#[derive(Debug)]
pub struct Task {
    pub id: Uuid,
    pub actor_id: Uuid,
    pub description: String,
    pub status: TaskStatus,
    pub created_at_ms: i64,
    pub updated_at_ms: i64,
    pub created_revision: u64,
    pub completed_revision: Option<u64>,
    pub scopes: Vec<TaskScope>,
    pub touched_paths: Vec<RepoPath>,
    pub first_accepted_revision: Option<u64>,
    pub last_accepted_revision: Option<u64>,
}

impl View for Task {
    type V = TaskView;

    open spec fn view(&self) -> TaskView {
        TaskView {
            id: self.id,
            actor_id: self.actor_id,
            description: self.description@,
            status: self.status,
            created_at_ms: self.created_at_ms,
            updated_at_ms: self.updated_at_ms,
            created_revision: self.created_revision,
            completed_revision: self.completed_revision,
            scopes: views(self.scopes@),
            touched_paths: views(self.touched_paths@),
            first_accepted_revision: self.first_accepted_revision,
            last_accepted_revision: self.last_accepted_revision,
        }
    }
}

/// A copy of a list of paths.
pub fn copy_paths(list: &Vec<RepoPath>) -> (copy: Vec<RepoPath>)
    ensures
        copy@ == list@,
{
    let copy = list.clone();
    proof {
        assert(copy@ =~= list@);
    }
    copy
}

/// A copy of a list of scopes.
pub fn copy_scopes(list: &Vec<TaskScope>) -> (copy: Vec<TaskScope>)
    ensures
        copy@ == list@,
{
    let copy = list.clone();
    proof {
        assert(copy@ =~= list@);
    }
    copy
}

impl Clone for Task {
    fn clone(&self) -> (copy: Task)
        ensures
            copy@ == self@,
    {
        Task {
            id: self.id,
            actor_id: self.actor_id,
            description: self.description.clone(),
            status: self.status,
            created_at_ms: self.created_at_ms,
            updated_at_ms: self.updated_at_ms,
            created_revision: self.created_revision,
            completed_revision: self.completed_revision,
            scopes: copy_scopes(&self.scopes),
            touched_paths: copy_paths(&self.touched_paths),
            first_accepted_revision: self.first_accepted_revision,
            last_accepted_revision: self.last_accepted_revision,
        }
    }
}

impl Task {
    pub fn short_id(&self) -> (s: String)
        ensures
            s@ == short_form('T', self.id),
    {
        short_id('T', self.id)
    }
}

// ---------------------------------------------------------------------------
// Git publication
// ---------------------------------------------------------------------------

#[derive(Debug, Clone, Copy, PartialEq, Eq, Structural)]
pub enum PrepareStatus {
    Prepared,
    Published,
    Superseded,
}

impl PrepareStatus {
    pub open spec fn name(self) -> Seq<char> {
        match self {
            PrepareStatus::Prepared => "Prepared"@,
            PrepareStatus::Published => "Published"@,
            PrepareStatus::Superseded => "Superseded"@,
        }
    }

    pub fn as_str(self) -> (s: &'static str)
        ensures
            s@ == self.name(),
    {
        match self {
            PrepareStatus::Prepared => "Prepared",
            PrepareStatus::Published => "Published",
            PrepareStatus::Superseded => "Superseded",
        }
    }
}

#[derive(Debug)]
pub struct CommitPreparation {
    pub prepare_id: Uuid,
    pub target_revision: u64,
    pub parent_commit_oid: String,
    pub requesting_actor: Uuid,
    pub included_task_ids: Vec<Uuid>,
    /// The same Tasks with the detail an agent needs to write a semantic
    /// commit message.
    pub included_tasks: Vec<PreparedTask>,
    /// Union of every path the included Tasks touched.
    pub touched_paths: Vec<RepoPath>,
    pub unassigned_revisions: Vec<u64>,
    pub created_at_ms: i64,
    pub status: PrepareStatus,
    /// Revision published previously, for reporting.
    pub previous_published_revision: u64,
    /// Paths added/modified/removed between the previous publication and
    /// target.
    pub diff_summary: DiffSummary,
    /// Actors that contributed accepted revisions to this range.
    pub contributors: Vec<Contributor>,
    /// Participants that were not connected when the barrier ran.
    pub disconnected_participants: Vec<String>,
}

/// A preparation as plain values and sequences.
pub struct PreparationView {
    pub prepare_id: Uuid,
    pub target_revision: u64,
    pub parent_commit_oid: Seq<char>,
    pub requesting_actor: Uuid,
    pub included_task_ids: Seq<Uuid>,
    pub included_tasks: Seq<PreparedTaskView>,
    pub touched_paths: Seq<Seq<char>>,
    pub unassigned_revisions: Seq<u64>,
    pub created_at_ms: i64,
    pub status: PrepareStatus,
    pub previous_published_revision: u64,
    pub diff_summary: DiffView,
    pub contributors: Seq<ContributorView>,
    pub disconnected_participants: Seq<Seq<char>>,
}

impl View for CommitPreparation {
    type V = PreparationView;

    open spec fn view(&self) -> PreparationView {
        PreparationView {
            prepare_id: self.prepare_id,
            target_revision: self.target_revision,
            parent_commit_oid: self.parent_commit_oid@,
            requesting_actor: self.requesting_actor,
            included_task_ids: self.included_task_ids@,
            included_tasks: views(self.included_tasks@),
            touched_paths: views(self.touched_paths@),
            unassigned_revisions: self.unassigned_revisions@,
            created_at_ms: self.created_at_ms,
            status: self.status,
            previous_published_revision: self.previous_published_revision,
            diff_summary: self.diff_summary@,
            contributors: views(self.contributors@),
            disconnected_participants: texts(self.disconnected_participants@),
        }
    }
}

impl CommitPreparation {
    pub fn short_id(&self) -> (s: String)
        ensures
            s@ == short_form('P', self.prepare_id),
    {
        short_id('P', self.prepare_id)
    }
}

/// A Task that contributed accepted revisions to a prepared publication.
#[derive(Debug)]
pub struct PreparedTask {
    pub id: Uuid,
    pub short_id: String,
    pub description: String,
    pub status: TaskStatus,
    pub actor_id: Uuid,
    pub actor_display_name: String,
    pub touched_paths: Vec<RepoPath>,
    pub revisions: Vec<u64>,
}

/// A copy of a list of numbers.
pub fn copy_numbers(list: &Vec<u64>) -> (copy: Vec<u64>)
    ensures
        copy@ == list@,
{
    let copy = list.clone();
    proof {
        assert(copy@ =~= list@);
    }
    copy
}

/// A copy of a list of strings.
pub fn copy_texts(list: &Vec<String>) -> (copy: Vec<String>)
    ensures
        copy@ == list@,
{
    let copy = list.clone();
    proof {
        assert(copy@ =~= list@);
    }
    copy
}

impl Clone for PreparedTask {
    fn clone(&self) -> (copy: PreparedTask)
        ensures
            copy@ == self@,
    {
        PreparedTask {
            id: self.id,
            short_id: self.short_id.clone(),
            description: self.description.clone(),
            status: self.status,
            actor_id: self.actor_id,
            actor_display_name: self.actor_display_name.clone(),
            touched_paths: copy_paths(&self.touched_paths),
            revisions: copy_numbers(&self.revisions),
        }
    }
}

impl Clone for Contributor {
    fn clone(&self) -> (copy: Contributor)
        ensures
            copy@ == self@,
    {
        Contributor {
            actor_id: self.actor_id,
            display_name: self.display_name.clone(),
            email: copy_text(&self.email),
            revisions: self.revisions,
        }
    }
}

impl Clone for DiffSummary {
    fn clone(&self) -> (copy: DiffSummary)
        ensures
            copy@ == self@,
    {
        DiffSummary {
            added: copy_paths(&self.added),
            modified: copy_paths(&self.modified),
            deleted: copy_paths(&self.deleted),
        }
    }
}

impl Clone for CommitPreparation {
    fn clone(&self) -> (copy: CommitPreparation)
        ensures
            copy@ == self@,
    {
        let included_tasks = self.included_tasks.clone();
        let contributors = self.contributors.clone();
        proof {
            assert(views(included_tasks@) =~= views(self.included_tasks@));
            assert(views(contributors@) =~= views(self.contributors@));
        }
        CommitPreparation {
            prepare_id: self.prepare_id,
            target_revision: self.target_revision,
            parent_commit_oid: self.parent_commit_oid.clone(),
            requesting_actor: self.requesting_actor,
            included_task_ids: copy_ids(&self.included_task_ids),
            included_tasks,
            touched_paths: copy_paths(&self.touched_paths),
            unassigned_revisions: copy_numbers(&self.unassigned_revisions),
            created_at_ms: self.created_at_ms,
            status: self.status,
            previous_published_revision: self.previous_published_revision,
            diff_summary: self.diff_summary.clone(),
            contributors,
            disconnected_participants: copy_texts(&self.disconnected_participants),
        }
    }
}

/// A contributing Task as plain values and sequences.
pub struct PreparedTaskView {
    pub id: Uuid,
    pub short_id: Seq<char>,
    pub description: Seq<char>,
    pub status: TaskStatus,
    pub actor_id: Uuid,
    pub actor_display_name: Seq<char>,
    pub touched_paths: Seq<Seq<char>>,
    pub revisions: Seq<u64>,
}

impl View for PreparedTask {
    type V = PreparedTaskView;

    open spec fn view(&self) -> PreparedTaskView {
        PreparedTaskView {
            id: self.id,
            short_id: self.short_id@,
            description: self.description@,
            status: self.status,
            actor_id: self.actor_id,
            actor_display_name: self.actor_display_name@,
            touched_paths: views(self.touched_paths@),
            revisions: self.revisions@,
        }
    }
}

/// A diff as sequences of paths.
pub struct DiffView {
    pub added: Seq<Seq<char>>,
    pub modified: Seq<Seq<char>>,
    pub deleted: Seq<Seq<char>>,
}

impl View for DiffSummary {
    type V = DiffView;

    open spec fn view(&self) -> DiffView {
        DiffView {
            added: views(self.added@),
            modified: views(self.modified@),
            deleted: views(self.deleted@),
        }
    }
}

#[derive(Debug)]
pub struct DiffSummary {
    pub added: Vec<RepoPath>,
    pub modified: Vec<RepoPath>,
    pub deleted: Vec<RepoPath>,
}

impl DiffSummary {
    /// How many paths changed.
    pub fn total(&self) -> (n: usize)
        requires
            self.added@.len() + self.modified@.len() + self.deleted@.len() <= usize::MAX,
        ensures
            n == self.added@.len() + self.modified@.len() + self.deleted@.len(),
    {
        self.added.len() + self.modified.len() + self.deleted.len()
    }
}

#[derive(Debug)]
pub struct Contributor {
    pub actor_id: Uuid,
    pub display_name: String,
    pub email: Option<String>,
    pub revisions: u64,
}

/// A contributor as plain values.
pub struct ContributorView {
    pub actor_id: Uuid,
    pub display_name: Seq<char>,
    pub email: Option<Seq<char>>,
    pub revisions: u64,
}

impl View for Contributor {
    type V = ContributorView;

    open spec fn view(&self) -> ContributorView {
        ContributorView {
            actor_id: self.actor_id,
            display_name: self.display_name@,
            email: opt_view(self.email),
            revisions: self.revisions,
        }
    }
}

#[derive(Debug)]
pub struct CommitDescriptor {
    pub prepare_id: Uuid,
    pub target_revision: u64,
    pub parent_commit_oid: String,
    pub tree_oid: String,
    pub commit_oid: String,
    pub author_name: String,
    pub author_email: String,
    pub committer_name: String,
    pub committer_email: String,
    pub timestamp: i64,
    pub timezone: String,
    pub message: String,
    pub contributing_task_ids: Vec<Uuid>,
    pub branch: String,
}

/// A commit descriptor as plain values and sequences.
pub struct DescriptorView {
    pub prepare_id: Uuid,
    pub target_revision: u64,
    pub parent_commit_oid: Seq<char>,
    pub tree_oid: Seq<char>,
    pub commit_oid: Seq<char>,
    pub author_name: Seq<char>,
    pub author_email: Seq<char>,
    pub committer_name: Seq<char>,
    pub committer_email: Seq<char>,
    pub timestamp: i64,
    pub timezone: Seq<char>,
    pub message: Seq<char>,
    pub contributing_task_ids: Seq<Uuid>,
    pub branch: Seq<char>,
}

impl View for CommitDescriptor {
    type V = DescriptorView;

    open spec fn view(&self) -> DescriptorView {
        DescriptorView {
            prepare_id: self.prepare_id,
            target_revision: self.target_revision,
            parent_commit_oid: self.parent_commit_oid@,
            tree_oid: self.tree_oid@,
            commit_oid: self.commit_oid@,
            author_name: self.author_name@,
            author_email: self.author_email@,
            committer_name: self.committer_name@,
            committer_email: self.committer_email@,
            timestamp: self.timestamp,
            timezone: self.timezone@,
            message: self.message@,
            contributing_task_ids: self.contributing_task_ids@,
            branch: self.branch@,
        }
    }
}

/// A copy of a list of identifiers.
pub fn copy_ids(list: &Vec<Uuid>) -> (copy: Vec<Uuid>)
    ensures
        copy@ == list@,
{
    let copy = list.clone();
    proof {
        assert(copy@ =~= list@);
    }
    copy
}

impl Clone for CommitDescriptor {
    fn clone(&self) -> (copy: CommitDescriptor)
        ensures
            copy@ == self@,
    {
        CommitDescriptor {
            prepare_id: self.prepare_id,
            target_revision: self.target_revision,
            parent_commit_oid: self.parent_commit_oid.clone(),
            tree_oid: self.tree_oid.clone(),
            commit_oid: self.commit_oid.clone(),
            author_name: self.author_name.clone(),
            author_email: self.author_email.clone(),
            committer_name: self.committer_name.clone(),
            committer_email: self.committer_email.clone(),
            timestamp: self.timestamp,
            timezone: self.timezone.clone(),
            message: self.message.clone(),
            contributing_task_ids: copy_ids(&self.contributing_task_ids),
            branch: self.branch.clone(),
        }
    }
}

/// Local application progress of a publication.
#[derive(Debug, Clone, Copy, PartialEq, Eq, Structural)]
pub enum PublicationStage {
    Pending,
    ObjectsInstalled,
    RefUpdated,
    IndexUpdated,
    Complete,
}

impl PublicationStage {
    pub open spec fn name(self) -> Seq<char> {
        match self {
            PublicationStage::Pending => "pending"@,
            PublicationStage::ObjectsInstalled => "objects_installed"@,
            PublicationStage::RefUpdated => "ref_updated"@,
            PublicationStage::IndexUpdated => "index_updated"@,
            PublicationStage::Complete => "complete"@,
        }
    }

    pub fn as_str(self) -> (s: &'static str)
        ensures
            s@ == self.name(),
    {
        match self {
            PublicationStage::Pending => "pending",
            PublicationStage::ObjectsInstalled => "objects_installed",
            PublicationStage::RefUpdated => "ref_updated",
            PublicationStage::IndexUpdated => "index_updated",
            PublicationStage::Complete => "complete",
        }
    }
}

#[derive(Debug, Clone, Copy, PartialEq, Eq, Structural)]
pub enum PushStatus {
    NotAttempted,
    NoUpstream,
    Pushed,
    Failed,
    Diverged,
}

impl PushStatus {
    pub open spec fn name(self) -> Seq<char> {
        match self {
            PushStatus::NotAttempted => "not_attempted"@,
            PushStatus::NoUpstream => "no_upstream"@,
            PushStatus::Pushed => "pushed"@,
            PushStatus::Failed => "failed"@,
            PushStatus::Diverged => "diverged"@,
        }
    }

    pub fn as_str(self) -> (s: &'static str)
        ensures
            s@ == self.name(),
    {
        match self {
            PushStatus::NotAttempted => "not_attempted",
            PushStatus::NoUpstream => "no_upstream",
            PushStatus::Pushed => "pushed",
            PushStatus::Failed => "failed",
            PushStatus::Diverged => "diverged",
        }
    }
}

/// The canonical publication record persisted by the host and mirrored by
/// every client as control state.
#[derive(Debug)]
pub struct GitPublication {
    pub descriptor: CommitDescriptor,
    pub stage: PublicationStage,
    pub push_status: PushStatus,
    pub push_error: Option<String>,
    pub created_at_ms: i64,
    /// Monotonic index of this publication within the session, so clients can
    /// apply publications in order after a disconnect.
    pub sequence: u64,
}

/// A publication as plain values and sequences.
pub struct PublicationView {
    pub descriptor: DescriptorView,
    pub stage: PublicationStage,
    pub push_status: PushStatus,
    pub push_error: Option<Seq<char>>,
    pub created_at_ms: i64,
    pub sequence: u64,
}

impl View for GitPublication {
    type V = PublicationView;

    open spec fn view(&self) -> PublicationView {
        PublicationView {
            descriptor: self.descriptor@,
            stage: self.stage,
            push_status: self.push_status,
            push_error: opt_view(self.push_error),
            created_at_ms: self.created_at_ms,
            sequence: self.sequence,
        }
    }
}

/// A copy of an optional string.
pub fn copy_text(s: &Option<String>) -> (copy: Option<String>)
    ensures
        copy == *s,
{
    match s {
        Some(t) => Some(t.clone()),
        None => None,
    }
}

impl Clone for GitPublication {
    fn clone(&self) -> (copy: GitPublication)
        ensures
            copy@ == self@,
    {
        GitPublication {
            descriptor: self.descriptor.clone(),
            stage: self.stage,
            push_status: self.push_status,
            push_error: copy_text(&self.push_error),
            created_at_ms: self.created_at_ms,
            sequence: self.sequence,
        }
    }
}

// ---------------------------------------------------------------------------
// Presence and status
// ---------------------------------------------------------------------------

#[derive(Debug, Clone, Copy, PartialEq, Eq, Structural)]
pub enum Role {
    Host,
    Participant,
}

impl Role {
    pub open spec fn name(self) -> Seq<char> {
        match self {
            Role::Host => "host"@,
            Role::Participant => "participant"@,
        }
    }

    pub fn as_str(self) -> (s: &'static str)
        ensures
            s@ == self.name(),
    {
        match self {
            Role::Host => "host",
            Role::Participant => "participant",
        }
    }
}

/// Synchronization state of one replica.
#[derive(Debug, PartialEq, Eq)]
pub enum SyncState {
    /// Normal operation.
    Live,
    /// External Git mutation detected; Weave stops synchronizing until the
    /// expected Git state is restored. Weave never repairs it automatically.
    Paused { reason: String, detail: String },
    /// Persistence or integrity failure; no new mutations are accepted.
    Degraded { reason: String },
}

/// A synchronization state as plain values.
pub enum SyncView {
    Live,
    Paused { reason: Seq<char>, detail: Seq<char> },
    Degraded { reason: Seq<char> },
}

impl View for SyncState {
    type V = SyncView;

    open spec fn view(&self) -> SyncView {
        match *self {
            SyncState::Live => SyncView::Live,
            SyncState::Paused { reason, detail } => SyncView::Paused {
                reason: reason@,
                detail: detail@,
            },
            SyncState::Degraded { reason } => SyncView::Degraded { reason: reason@ },
        }
    }
}

impl Clone for SyncState {
    fn clone(&self) -> (copy: SyncState)
        ensures
            copy == *self,
    {
        match self {
            SyncState::Live => SyncState::Live,
            SyncState::Paused { reason, detail } => SyncState::Paused {
                reason: reason.clone(),
                detail: detail.clone(),
            },
            SyncState::Degraded { reason } => SyncState::Degraded { reason: reason.clone() },
        }
    }
}

impl SyncState {
    pub fn label(&self) -> (s: &'static str)
        ensures
            s@ == match *self {
                SyncState::Live => "live"@,
                SyncState::Paused { .. } => "paused"@,
                SyncState::Degraded { .. } => "degraded"@,
            },
    {
        match self {
            SyncState::Live => "live",
            SyncState::Paused { .. } => "paused",
            SyncState::Degraded { .. } => "degraded",
        }
    }

    pub fn is_live(&self) -> (yes: bool)
        ensures
            yes == (self@ is Live),
    {
        match self {
            SyncState::Live => true,
            _ => false,
        }
    }
}

#[derive(Debug)]
pub struct PeerInfo {
    pub actor_id: Uuid,
    pub display_name: String,
    pub role: Role,
    pub online: bool,
    pub last_known_revision: u64,
    pub active_task_id: Option<Uuid>,
    pub active_task_description: Option<String>,
    pub last_seen_ms: i64,
}

/// A peer as plain values.
pub struct PeerView {
    pub actor_id: Uuid,
    pub display_name: Seq<char>,
    pub role: Role,
    pub online: bool,
    pub last_known_revision: u64,
    pub active_task_id: Option<Uuid>,
    pub active_task_description: Option<Seq<char>>,
    pub last_seen_ms: i64,
}

impl View for PeerInfo {
    type V = PeerView;

    open spec fn view(&self) -> PeerView {
        PeerView {
            actor_id: self.actor_id,
            display_name: self.display_name@,
            role: self.role,
            online: self.online,
            last_known_revision: self.last_known_revision,
            active_task_id: self.active_task_id,
            active_task_description: opt_view(self.active_task_description),
            last_seen_ms: self.last_seen_ms,
        }
    }
}

impl Clone for PeerInfo {
    fn clone(&self) -> (copy: PeerInfo)
        ensures
            copy == *self,
    {
        PeerInfo {
            actor_id: self.actor_id,
            display_name: self.display_name.clone(),
            role: self.role,
            online: self.online,
            last_known_revision: self.last_known_revision,
            active_task_id: self.active_task_id,
            active_task_description: copy_text(&self.active_task_description),
            last_seen_ms: self.last_seen_ms,
        }
    }
}

} // verus!
