//! The wire protocol.
//!
//! Every frame carries a protocol version and a message type. No file content
//! appears here: messages carry `FileEntry` metadata, and the bytes behind a
//! `blob_hash` are streamed on the data plane and referenced by hash. That is
//! what makes the size of a file a resource question rather than a protocol
//! one.

use vstd::prelude::*;
use vstd::utf8::encode_utf8;

use crate::error::{ErrorClass, ErrorView};
use crate::model::{
    entry_view, CommitPreparation, Conflict, ConflictKind, ConflictView, EntryView, FileEntry,
    FileOperation, GitPublication, OperationOutcome, OperationView, OutcomeView, PeerInfo, PeerView,
    PreparationView, PublicationView, PushStatus, Revision, RevisionView, ScopeView, SyncState,
    SyncView, Task, TaskScope, TaskView, DEFAULT_MAX_FILE_SIZE, PROTOCOL_VERSION,
};
use crate::path::RepoPath;
use crate::text::{
    lemma_text_le_antisymmetric, lemma_text_le_total, lemma_text_le_transitive, opt_view,
    text_before, text_le, texts, views,
};
use crate::util::{content_hash, sha256_hex, Uuid};

verus! {

/// Immutable session facts shared with every participant.
#[derive(Debug)]
pub struct SessionInfo {
    pub session_id: Uuid,
    pub repo_name: String,
    pub branch: String,
    pub base_commit: String,
    pub host_actor_id: Uuid,
    pub host_display_name: String,
    pub created_at_ms: i64,
}

/// Session facts as plain values.
pub struct SessionView {
    pub session_id: Uuid,
    pub repo_name: Seq<char>,
    pub branch: Seq<char>,
    pub base_commit: Seq<char>,
    pub host_actor_id: Uuid,
    pub host_display_name: Seq<char>,
    pub created_at_ms: i64,
}

impl View for SessionInfo {
    type V = SessionView;

    open spec fn view(&self) -> SessionView {
        SessionView {
            session_id: self.session_id,
            repo_name: self.repo_name@,
            branch: self.branch@,
            base_commit: self.base_commit@,
            host_actor_id: self.host_actor_id,
            host_display_name: self.host_display_name@,
            created_at_ms: self.created_at_ms,
        }
    }
}

impl Clone for SessionInfo {
    fn clone(&self) -> (copy: SessionInfo)
        ensures
            copy == *self,
    {
        SessionInfo {
            session_id: self.session_id,
            repo_name: self.repo_name.clone(),
            branch: self.branch.clone(),
            base_commit: self.base_commit.clone(),
            host_actor_id: self.host_actor_id,
            host_display_name: self.host_display_name.clone(),
            created_at_ms: self.created_at_ms,
        }
    }
}

/// One manifest row as plain values.
pub struct RowView {
    pub path: Seq<char>,
    pub entry: EntryView,
}

/// One manifest row.
#[derive(Debug)]
pub struct ManifestEntry {
    pub path: RepoPath,
    pub entry: FileEntry,
}

impl View for ManifestEntry {
    type V = RowView;

    open spec fn view(&self) -> RowView {
        RowView { path: self.path@, entry: self.entry@ }
    }
}

impl Clone for ManifestEntry {
    fn clone(&self) -> (copy: ManifestEntry)
        ensures
            copy == *self,
    {
        ManifestEntry { path: self.path.clone(), entry: self.entry.clone() }
    }
}

/// A manifest as plain rows.
pub open spec fn rows(list: Seq<ManifestEntry>) -> Seq<RowView> {
    list.map_values(|m: ManifestEntry| m@)
}

/// The control half of a blob transfer, identical in both directions.
///
/// The exchange is: `Offer`, then `Want` or `Have` from the receiver, then the
/// bytes on the data plane, then `Done` or `Failed`. The receiver chooses the
/// starting offset because only it knows what it already holds, and the sender
/// waits for `Done` before relying on the blob being present at the far end.
#[derive(Debug, PartialEq, Eq)]
pub enum BlobControl {
    Offer { transfer_id: u64, hash: String, size: u64 },
    Want { transfer_id: u64, from_offset: u64 },
    /// The receiver already holds this content; nothing will be sent.
    Have { transfer_id: u64, hash: String },
    /// Received, verified against its hash, and durably installed.
    Done { transfer_id: u64, hash: String },
    Failed { transfer_id: u64, hash: String, reason: String },
    /// Answer to a request for content this side cannot produce.
    Unavailable { hash: String, reason: String },
}

/// A blob control message as plain values.
pub enum BlobView {
    Offer { transfer_id: u64, hash: Seq<char>, size: u64 },
    Want { transfer_id: u64, from_offset: u64 },
    Have { transfer_id: u64, hash: Seq<char> },
    Done { transfer_id: u64, hash: Seq<char> },
    Failed { transfer_id: u64, hash: Seq<char>, reason: Seq<char> },
    Unavailable { hash: Seq<char>, reason: Seq<char> },
}

impl View for BlobControl {
    type V = BlobView;

    open spec fn view(&self) -> BlobView {
        match *self {
            BlobControl::Offer { transfer_id, hash, size } => BlobView::Offer {
                transfer_id,
                hash: hash@,
                size,
            },
            BlobControl::Want { transfer_id, from_offset } => BlobView::Want {
                transfer_id,
                from_offset,
            },
            BlobControl::Have { transfer_id, hash } => BlobView::Have { transfer_id, hash: hash@ },
            BlobControl::Done { transfer_id, hash } => BlobView::Done { transfer_id, hash: hash@ },
            BlobControl::Failed { transfer_id, hash, reason } => BlobView::Failed {
                transfer_id,
                hash: hash@,
                reason: reason@,
            },
            BlobControl::Unavailable { hash, reason } => BlobView::Unavailable {
                hash: hash@,
                reason: reason@,
            },
        }
    }
}

/// Everything a reconnecting or resuming client knows.
#[derive(Debug)]
pub struct ClientResumeState {
    /// Highest revision such that every revision up to and including it has
    /// been applied and persisted locally. Not "highest revision seen".
    pub last_applied_revision: u64,
    pub control_version: u64,
    pub last_publication_sequence: u64,
    pub pending_operation_ids: Vec<Uuid>,
    /// Deterministic hash over the local replica manifest.
    pub replica_hash: String,
    /// False on a first join: the client has no canonical manifest at all.
    pub has_manifest: bool,
}

/// What a client has, as plain values.
pub struct ResumeView {
    pub last_applied_revision: u64,
    pub control_version: u64,
    pub last_publication_sequence: u64,
    pub pending_operation_ids: Seq<Uuid>,
    pub replica_hash: Seq<char>,
    pub has_manifest: bool,
}

impl View for ClientResumeState {
    type V = ResumeView;

    open spec fn view(&self) -> ResumeView {
        ResumeView {
            last_applied_revision: self.last_applied_revision,
            control_version: self.control_version,
            last_publication_sequence: self.last_publication_sequence,
            pending_operation_ids: self.pending_operation_ids@,
            replica_hash: self.replica_hash@,
            has_manifest: self.has_manifest,
        }
    }
}

/// A path one participant is holding back because it is above the session
/// limit. The file blocks publication for everybody: whoever prepares a commit
/// has to be able to see which file it is, how large, and whose machine it is
/// on.
#[derive(Debug, PartialEq, Eq)]
pub struct OversizePath {
    pub actor_id: Uuid,
    pub display_name: String,
    pub path: RepoPath,
    pub size: u64,
    /// The session already holds canonical content for this path, and the
    /// local file has since grown past the limit.
    pub canonical: bool,
}

/// A held-back path as plain values.
pub struct OversizeView {
    pub actor_id: Uuid,
    pub display_name: Seq<char>,
    pub path: Seq<char>,
    pub size: u64,
    pub canonical: bool,
}

impl View for OversizePath {
    type V = OversizeView;

    open spec fn view(&self) -> OversizeView {
        OversizeView {
            actor_id: self.actor_id,
            display_name: self.display_name@,
            path: self.path@,
            size: self.size,
            canonical: self.canonical,
        }
    }
}

impl Clone for OversizePath {
    fn clone(&self) -> (copy: OversizePath)
        ensures
            copy == *self,
    {
        OversizePath {
            actor_id: self.actor_id,
            display_name: self.display_name.clone(),
            path: self.path.clone(),
            size: self.size,
            canonical: self.canonical,
        }
    }
}

/// What one participant reports about its own oversize paths. A report
/// replaces that actor's whole set, so a path that came back under the limit
/// needs no separate retraction.
#[derive(Debug, PartialEq, Eq)]
pub struct OversizeReport {
    pub path: RepoPath,
    pub size: u64,
    pub canonical: bool,
}

/// A reported path as plain values.
pub struct ReportView {
    pub path: Seq<char>,
    pub size: u64,
    pub canonical: bool,
}

impl View for OversizeReport {
    type V = ReportView;

    open spec fn view(&self) -> ReportView {
        ReportView { path: self.path@, size: self.size, canonical: self.canonical }
    }
}

impl Clone for OversizeReport {
    fn clone(&self) -> (copy: OversizeReport)
        ensures
            copy == *self,
    {
        OversizeReport { path: self.path.clone(), size: self.size, canonical: self.canonical }
    }
}

/// Current control state.
#[derive(Debug)]
pub struct ControlSnapshot {
    pub control_version: u64,
    pub tasks: Vec<Task>,
    pub conflicts: Vec<Conflict>,
    pub publication: Option<GitPublication>,
    pub publication_sequence: u64,
    pub session: SessionInfo,
    /// Largest file this session synchronizes. Every participant judges its
    /// own working tree against this value, never against a local preference.
    pub max_file_size: u64,
    /// Every path any participant is currently holding back, session-wide.
    pub oversize: Vec<OversizePath>,
}

/// Control state as plain values and sequences.
pub struct ControlView {
    pub control_version: u64,
    pub tasks: Seq<TaskView>,
    pub conflicts: Seq<ConflictView>,
    pub publication: Option<PublicationView>,
    pub publication_sequence: u64,
    pub session: SessionView,
    pub max_file_size: u64,
    pub oversize: Seq<OversizeView>,
}

impl Clone for ControlSnapshot {
    fn clone(&self) -> (copy: ControlSnapshot)
        ensures
            copy@ == self@,
    {
        let copy = ControlSnapshot {
            control_version: self.control_version,
            tasks: self.tasks.clone(),
            conflicts: self.conflicts.clone(),
            publication: match &self.publication {
                Some(p) => Some(p.clone()),
                None => None,
            },
            publication_sequence: self.publication_sequence,
            session: self.session.clone(),
            max_file_size: self.max_file_size,
            oversize: self.oversize.clone(),
        };
        proof {
            assert(views(copy.tasks@) =~= views(self.tasks@));
            assert(views(copy.conflicts@) =~= views(self.conflicts@));
            assert(views(copy.oversize@) =~= views(self.oversize@));
        }
        copy
    }
}

impl View for ControlSnapshot {
    type V = ControlView;

    open spec fn view(&self) -> ControlView {
        ControlView {
            control_version: self.control_version,
            tasks: views(self.tasks@),
            conflicts: views(self.conflicts@),
            publication: opt_view(self.publication),
            publication_sequence: self.publication_sequence,
            session: self.session@,
            max_file_size: self.max_file_size,
            oversize: views(self.oversize@),
        }
    }
}

/// The limit of a control snapshot that does not name one.
pub fn default_max_file_size() -> (n: u64)
    ensures
        n == DEFAULT_MAX_FILE_SIZE,
{
    DEFAULT_MAX_FILE_SIZE
}

#[derive(Debug)]
pub enum PrepareOutcome {
    Prepared(Box<CommitPreparation>),
    Rejected { class: ErrorClass, message: String, detail: Option<String> },
}

/// The answer to a commit preparation, as plain values.
pub enum PrepareView {
    Prepared(PreparationView),
    Rejected(ErrorView),
}

impl View for PrepareOutcome {
    type V = PrepareView;

    open spec fn view(&self) -> PrepareView {
        match *self {
            PrepareOutcome::Prepared(prep) => PrepareView::Prepared((*prep)@),
            PrepareOutcome::Rejected { class, message, detail } => PrepareView::Rejected(
                ErrorView { class, message: message@, detail: opt_view(detail) },
            ),
        }
    }
}

#[derive(Debug)]
pub enum CommitOutcome {
    Published { publication: Box<GitPublication> },
    Rejected { class: ErrorClass, message: String, detail: Option<String> },
}

/// The answer to a commit creation, as plain values.
pub enum CommitView {
    Published(PublicationView),
    Rejected(ErrorView),
}

impl View for CommitOutcome {
    type V = CommitView;

    open spec fn view(&self) -> CommitView {
        match *self {
            CommitOutcome::Published { publication } => CommitView::Published((*publication)@),
            CommitOutcome::Rejected { class, message, detail } => CommitView::Rejected(
                ErrorView { class, message: message@, detail: opt_view(detail) },
            ),
        }
    }
}

/// A conflict discovered locally during a continuation rebase.
#[derive(Debug)]
pub struct ConflictReport {
    /// Client-proposed identifier so the reporting machine can enter conflict
    /// draft mode immediately, without waiting for a round trip.
    pub id: Uuid,
    pub path: RepoPath,
    pub kind: ConflictKind,
    pub base_entry: Option<FileEntry>,
    pub canonical_entry: Option<FileEntry>,
    pub incoming_entry: Option<FileEntry>,
    pub latest_local_candidate: Option<FileEntry>,
    pub incoming_task_id: Option<Uuid>,
}

/// A reported conflict as plain values.
pub struct ReportedConflict {
    pub id: Uuid,
    pub path: Seq<char>,
    pub kind: ConflictKind,
    pub base_entry: Option<EntryView>,
    pub canonical_entry: Option<EntryView>,
    pub incoming_entry: Option<EntryView>,
    pub latest_local_candidate: Option<EntryView>,
    pub incoming_task_id: Option<Uuid>,
}

impl View for ConflictReport {
    type V = ReportedConflict;

    open spec fn view(&self) -> ReportedConflict {
        ReportedConflict {
            id: self.id,
            path: self.path@,
            kind: self.kind,
            base_entry: opt_view(self.base_entry),
            canonical_entry: opt_view(self.canonical_entry),
            incoming_entry: opt_view(self.incoming_entry),
            latest_local_candidate: opt_view(self.latest_local_candidate),
            incoming_task_id: self.incoming_task_id,
        }
    }
}

// ---------------------------------------------------------------------------
// Client -> Host
// ---------------------------------------------------------------------------

#[allow(inconsistent_fields)]
#[derive(Debug)]
pub enum ClientMessage {
    Hello {
        session_id: Uuid,
        actor_id: Uuid,
        display_name: String,
        git_name: String,
        git_email: String,
        base_commit: String,
        branch: String,
        resume: ClientResumeState,
    },
    /// Submit an operation. Every blob it references must already be durably
    /// present at the host; the host refuses it otherwise.
    SubmitOperation { operation: Box<FileOperation> },
    RequestBlobs { hashes: Vec<String> },
    /// One step of a blob transfer in either direction.
    Blob { blob: BlobControl },
    /// Ask for a fresh full canonical manifest (divergence, corruption, or a
    /// gap the client cannot close by replay).
    RequestManifest { reason: String },
    RequestControlSnapshot,
    /// This participant's complete set of paths held back for being above the
    /// session limit. Sent whenever the set changes and once on every connect.
    ReportOversize { paths: Vec<OversizeReport> },
    /// Ask the session to change its file size limit.
    SetFileLimit { request_id: Uuid, max_file_size: u64 },
    ReportConflict { report: Box<ConflictReport> },
    AttachLocalCandidate { conflict_id: Uuid, entry: Option<FileEntry> },
    ResolveConflict {
        request_id: Uuid,
        conflict_id: Uuid,
        operation_id: Uuid,
        /// Canonical entry the resolution was based on: the host refuses the
        /// resolution if canonical moved.
        expected_canonical: Option<FileEntry>,
        resolved_entry: Option<FileEntry>,
    },
    DismissConflict { request_id: Uuid, conflict_id: Uuid },
    TaskStart { request_id: Uuid, task_id: Uuid, description: String, scopes: Vec<TaskScope> },
    TaskUpdate {
        request_id: Uuid,
        task_id: Uuid,
        description: Option<String>,
        scopes: Option<Vec<TaskScope>>,
    },
    TaskComplete { request_id: Uuid, task_id: Uuid },
    TaskCancel { request_id: Uuid, task_id: Uuid },
    CommitPrepare { request_id: Uuid, allow_active_tasks: bool },
    CommitCreate { request_id: Uuid, prepare_id: Uuid, message: String },
    PushRequest { request_id: Uuid },
    BarrierAck { barrier_id: Uuid, watermark: u64 },
    BarrierReady { barrier_id: Uuid, ok: bool, detail: String },
    ReplicaHash { revision: u64, hash: String },
    Presence { last_applied_revision: u64, active_task_id: Option<Uuid> },
    Ping { nonce: u64 },
    Pong { nonce: u64 },
}

/// A message to the host, as plain values.
#[allow(inconsistent_fields)]
pub enum ClientMessageView {
    Hello {
        session_id: Uuid,
        actor_id: Uuid,
        display_name: Seq<char>,
        git_name: Seq<char>,
        git_email: Seq<char>,
        base_commit: Seq<char>,
        branch: Seq<char>,
        resume: ResumeView,
    },
    SubmitOperation { operation: OperationView },
    RequestBlobs { hashes: Seq<Seq<char>> },
    Blob { blob: BlobView },
    RequestManifest { reason: Seq<char> },
    RequestControlSnapshot,
    ReportOversize { paths: Seq<ReportView> },
    SetFileLimit { request_id: Uuid, max_file_size: u64 },
    ReportConflict { report: ReportedConflict },
    AttachLocalCandidate { conflict_id: Uuid, entry: Option<EntryView> },
    ResolveConflict {
        request_id: Uuid,
        conflict_id: Uuid,
        operation_id: Uuid,
        expected_canonical: Option<EntryView>,
        resolved_entry: Option<EntryView>,
    },
    DismissConflict { request_id: Uuid, conflict_id: Uuid },
    TaskStart {
        request_id: Uuid,
        task_id: Uuid,
        description: Seq<char>,
        scopes: Seq<ScopeView>,
    },
    TaskUpdate {
        request_id: Uuid,
        task_id: Uuid,
        description: Option<Seq<char>>,
        scopes: Option<Seq<ScopeView>>,
    },
    TaskComplete { request_id: Uuid, task_id: Uuid },
    TaskCancel { request_id: Uuid, task_id: Uuid },
    CommitPrepare { request_id: Uuid, allow_active_tasks: bool },
    CommitCreate { request_id: Uuid, prepare_id: Uuid, message: Seq<char> },
    PushRequest { request_id: Uuid },
    BarrierAck { barrier_id: Uuid, watermark: u64 },
    BarrierReady { barrier_id: Uuid, ok: bool, detail: Seq<char> },
    ReplicaHash { revision: u64, hash: Seq<char> },
    Presence { last_applied_revision: u64, active_task_id: Option<Uuid> },
    Ping { nonce: u64 },
    Pong { nonce: u64 },
}

impl View for ClientMessage {
    type V = ClientMessageView;

    open spec fn view(&self) -> ClientMessageView {
        match *self {
            ClientMessage::Hello {
                session_id,
                actor_id,
                display_name,
                git_name,
                git_email,
                base_commit,
                branch,
                resume,
            } => ClientMessageView::Hello {
                session_id,
                actor_id,
                display_name: display_name@,
                git_name: git_name@,
                git_email: git_email@,
                base_commit: base_commit@,
                branch: branch@,
                resume: resume@,
            },
            ClientMessage::SubmitOperation { operation } => ClientMessageView::SubmitOperation {
                operation: (*operation)@,
            },
            ClientMessage::RequestBlobs { hashes } => ClientMessageView::RequestBlobs {
                hashes: texts(hashes@),
            },
            ClientMessage::Blob { blob } => ClientMessageView::Blob { blob: blob@ },
            ClientMessage::RequestManifest { reason } => ClientMessageView::RequestManifest {
                reason: reason@,
            },
            ClientMessage::RequestControlSnapshot => ClientMessageView::RequestControlSnapshot,
            ClientMessage::ReportOversize { paths } => ClientMessageView::ReportOversize {
                paths: views(paths@),
            },
            ClientMessage::SetFileLimit { request_id, max_file_size } => {
                ClientMessageView::SetFileLimit { request_id, max_file_size }
            },
            ClientMessage::ReportConflict { report } => ClientMessageView::ReportConflict {
                report: (*report)@,
            },
            ClientMessage::AttachLocalCandidate { conflict_id, entry } => {
                ClientMessageView::AttachLocalCandidate { conflict_id, entry: entry_view(entry) }
            },
            ClientMessage::ResolveConflict {
                request_id,
                conflict_id,
                operation_id,
                expected_canonical,
                resolved_entry,
            } => ClientMessageView::ResolveConflict {
                request_id,
                conflict_id,
                operation_id,
                expected_canonical: entry_view(expected_canonical),
                resolved_entry: entry_view(resolved_entry),
            },
            ClientMessage::DismissConflict { request_id, conflict_id } => {
                ClientMessageView::DismissConflict { request_id, conflict_id }
            },
            ClientMessage::TaskStart { request_id, task_id, description, scopes } => {
                ClientMessageView::TaskStart {
                    request_id,
                    task_id,
                    description: description@,
                    scopes: views(scopes@),
                }
            },
            ClientMessage::TaskUpdate { request_id, task_id, description, scopes } => {
                ClientMessageView::TaskUpdate {
                    request_id,
                    task_id,
                    description: opt_view(description),
                    scopes: match scopes {
                        Some(list) => Some(views(list@)),
                        None => None,
                    },
                }
            },
            ClientMessage::TaskComplete { request_id, task_id } => {
                ClientMessageView::TaskComplete { request_id, task_id }
            },
            ClientMessage::TaskCancel { request_id, task_id } => {
                ClientMessageView::TaskCancel { request_id, task_id }
            },
            ClientMessage::CommitPrepare { request_id, allow_active_tasks } => {
                ClientMessageView::CommitPrepare { request_id, allow_active_tasks }
            },
            ClientMessage::CommitCreate { request_id, prepare_id, message } => {
                ClientMessageView::CommitCreate { request_id, prepare_id, message: message@ }
            },
            ClientMessage::PushRequest { request_id } => ClientMessageView::PushRequest {
                request_id,
            },
            ClientMessage::BarrierAck { barrier_id, watermark } => {
                ClientMessageView::BarrierAck { barrier_id, watermark }
            },
            ClientMessage::BarrierReady { barrier_id, ok, detail } => {
                ClientMessageView::BarrierReady { barrier_id, ok, detail: detail@ }
            },
            ClientMessage::ReplicaHash { revision, hash } => ClientMessageView::ReplicaHash {
                revision,
                hash: hash@,
            },
            ClientMessage::Presence { last_applied_revision, active_task_id } => {
                ClientMessageView::Presence { last_applied_revision, active_task_id }
            },
            ClientMessage::Ping { nonce } => ClientMessageView::Ping { nonce },
            ClientMessage::Pong { nonce } => ClientMessageView::Pong { nonce },
        }
    }
}

// ---------------------------------------------------------------------------
// Host -> Client
// ---------------------------------------------------------------------------

#[allow(inconsistent_fields)]
#[derive(Debug)]
pub enum HostMessage {
    Welcome {
        session: SessionInfo,
        /// The consistent snapshot point.
        snapshot_revision: u64,
        /// Full canonical manifest when the client needs to be rebuilt from
        /// scratch; `None` when the client will be caught up by replay.
        manifest: Option<Vec<ManifestEntry>>,
        control: Box<ControlSnapshot>,
        /// Publications the client has not yet installed, oldest first.
        pending_publications: Vec<GitPublication>,
        host_state_hash: String,
    },
    /// A fresh canonical manifest, replacing the client's replica.
    ManifestSnapshot {
        snapshot_revision: u64,
        manifest: Vec<ManifestEntry>,
        host_state_hash: String,
    },
    /// Metadata only. A participant that does not hold the referenced blob
    /// pulls it with `RequestBlobs`.
    RevisionBroadcast { revision: Box<Revision> },
    OperationResult { operation_id: Uuid, outcome: Box<OperationOutcome> },
    /// One step of a blob transfer in either direction.
    Blob { blob: BlobControl },
    Control { control: Box<ControlSnapshot> },
    Presence { peers: Vec<PeerInfo> },
    /// Commit preparation barrier.
    BarrierStart { barrier_id: Uuid },
    BarrierEnd { barrier_id: Uuid },
    /// The publication descriptor, plus the hash of the pack holding the exact
    /// host-produced Git objects.
    Publication { publication: Box<GitPublication>, pack_hash: Option<String> },
    PrepareResult { request_id: Uuid, outcome: Box<PrepareOutcome> },
    CommitResult { request_id: Uuid, outcome: Box<CommitOutcome> },
    PushResult { request_id: Uuid, status: PushStatus, message: String },
    /// Generic acknowledgement for control requests.
    Ack { request_id: Uuid, note: Option<String> },
    Error {
        request_id: Option<Uuid>,
        class: ErrorClass,
        message: String,
        detail: Option<String>,
    },
    /// The host stopped accepting mutations. Clients surface this rather than
    /// guessing.
    HostState { state: SyncState },
    Ping { nonce: u64 },
    Pong { nonce: u64 },
    Goodbye { reason: String },
}

/// A host message as plain values and sequences.
#[allow(inconsistent_fields)]
pub enum HostMessageView {
    Welcome {
        session: SessionView,
        snapshot_revision: u64,
        manifest: Option<Seq<RowView>>,
        control: ControlView,
        pending_publications: Seq<PublicationView>,
        host_state_hash: Seq<char>,
    },
    ManifestSnapshot {
        snapshot_revision: u64,
        manifest: Seq<RowView>,
        host_state_hash: Seq<char>,
    },
    RevisionBroadcast { revision: RevisionView },
    OperationResult { operation_id: Uuid, outcome: OutcomeView },
    Blob { blob: BlobView },
    Control { control: ControlView },
    Presence { peers: Seq<PeerView> },
    BarrierStart { barrier_id: Uuid },
    BarrierEnd { barrier_id: Uuid },
    Publication { publication: PublicationView, pack_hash: Option<Seq<char>> },
    PrepareResult { request_id: Uuid, outcome: PrepareView },
    CommitResult { request_id: Uuid, outcome: CommitView },
    PushResult { request_id: Uuid, status: PushStatus, message: Seq<char> },
    Ack { request_id: Uuid, note: Option<Seq<char>> },
    Error { request_id: Option<Uuid>, error: ErrorView },
    HostState { state: SyncView },
    Ping { nonce: u64 },
    Pong { nonce: u64 },
    Goodbye { reason: Seq<char> },
}

impl View for HostMessage {
    type V = HostMessageView;

    open spec fn view(&self) -> HostMessageView {
        match *self {
            HostMessage::Welcome {
                session,
                snapshot_revision,
                manifest,
                control,
                pending_publications,
                host_state_hash,
            } => HostMessageView::Welcome {
                session: session@,
                snapshot_revision,
                manifest: match manifest {
                    Some(m) => Some(rows(m@)),
                    None => None,
                },
                control: (*control)@,
                pending_publications: views(pending_publications@),
                host_state_hash: host_state_hash@,
            },
            HostMessage::ManifestSnapshot {
                snapshot_revision,
                manifest,
                host_state_hash,
            } => HostMessageView::ManifestSnapshot {
                snapshot_revision,
                manifest: rows(manifest@),
                host_state_hash: host_state_hash@,
            },
            HostMessage::RevisionBroadcast { revision } => HostMessageView::RevisionBroadcast {
                revision: (*revision)@,
            },
            HostMessage::OperationResult {
                operation_id,
                outcome,
            } => HostMessageView::OperationResult { operation_id, outcome: (*outcome)@ },
            HostMessage::Blob { blob } => HostMessageView::Blob { blob: blob@ },
            HostMessage::Control { control } => HostMessageView::Control { control: (*control)@ },
            HostMessage::Presence { peers } => HostMessageView::Presence { peers: views(peers@) },
            HostMessage::BarrierStart { barrier_id } => HostMessageView::BarrierStart {
                barrier_id,
            },
            HostMessage::BarrierEnd { barrier_id } => HostMessageView::BarrierEnd { barrier_id },
            HostMessage::Publication { publication, pack_hash } => HostMessageView::Publication {
                publication: (*publication)@,
                pack_hash: opt_view(pack_hash),
            },
            HostMessage::PrepareResult { request_id, outcome } => HostMessageView::PrepareResult {
                request_id,
                outcome: (*outcome)@,
            },
            HostMessage::CommitResult { request_id, outcome } => HostMessageView::CommitResult {
                request_id,
                outcome: (*outcome)@,
            },
            HostMessage::PushResult {
                request_id,
                status,
                message,
            } => HostMessageView::PushResult { request_id, status, message: message@ },
            HostMessage::Ack { request_id, note } => HostMessageView::Ack {
                request_id,
                note: opt_view(note),
            },
            HostMessage::Error { request_id, class, message, detail } => HostMessageView::Error {
                request_id,
                error: ErrorView { class, message: message@, detail: opt_view(detail) },
            },
            HostMessage::HostState { state } => HostMessageView::HostState { state: state@ },
            HostMessage::Ping { nonce } => HostMessageView::Ping { nonce },
            HostMessage::Pong { nonce } => HostMessageView::Pong { nonce },
            HostMessage::Goodbye { reason } => HostMessageView::Goodbye { reason: reason@ },
        }
    }
}

// ---------------------------------------------------------------------------
// Envelopes
// ---------------------------------------------------------------------------

#[derive(Debug)]
pub struct ClientEnvelope {
    pub protocol_version: u32,
    pub message: ClientMessage,
}

#[derive(Debug)]
pub struct HostEnvelope {
    pub protocol_version: u32,
    pub message: HostMessage,
}

impl ClientEnvelope {
    pub fn wrap(message: ClientMessage) -> (e: ClientEnvelope)
        ensures
            e == (ClientEnvelope { protocol_version: PROTOCOL_VERSION, message }),
    {
        ClientEnvelope { protocol_version: PROTOCOL_VERSION, message }
    }
}

impl HostEnvelope {
    pub fn wrap(message: HostMessage) -> (e: HostEnvelope)
        ensures
            e == (HostEnvelope { protocol_version: PROTOCOL_VERSION, message }),
    {
        HostEnvelope { protocol_version: PROTOCOL_VERSION, message }
    }
}

// ---------------------------------------------------------------------------
// The replica state hash
// ---------------------------------------------------------------------------

/// `row` put behind every row of an ordered list that does not come after it.
pub open spec fn place(list: Seq<RowView>, row: RowView) -> Seq<RowView>
    decreases list.len(),
{
    if list.len() == 0 || text_le(list.last().path, row.path) {
        list.push(row)
    } else {
        place(list.drop_last(), row).push(list.last())
    }
}

/// The rows ordered by path.
pub open spec fn sort_rows(list: Seq<RowView>) -> Seq<RowView>
    decreases list.len(),
{
    if list.len() == 0 {
        Seq::empty()
    } else {
        place(sort_rows(list.drop_last()), list.last())
    }
}

/// What one row contributes to the hash: path, mode and content address.
pub open spec fn row_text(row: RowView) -> Seq<char> {
    row.path + "\0"@ + row.entry.git_mode.name() + "\0"@ + row.entry.blob_hash + "\n"@
}

pub open spec fn rows_text(list: Seq<RowView>) -> Seq<char>
    decreases list.len(),
{
    if list.len() == 0 {
        Seq::empty()
    } else {
        rows_text(list.drop_last()) + row_text(list.last())
    }
}

/// The hash of a manifest: its rows in path order.
pub open spec fn hash_of_rows(list: Seq<RowView>) -> Seq<char> {
    content_hash(encode_utf8(rows_text(sort_rows(list))))
}

fn row_string(m: &ManifestEntry) -> (s: String)
    ensures
        s@ == row_text(m@),
{
    let mut s = m.path.as_str().to_owned();
    s.push_str("\0");
    s.push_str(m.entry.git_mode.as_str());
    s.push_str("\0");
    s.push_str(m.entry.blob_hash.as_str());
    s.push_str("\n");
    s
}

pub proof fn lemma_place_is_insert(list: Seq<RowView>, row: RowView, at: int)
    requires
        0 <= at <= list.len(),
        at > 0 ==> text_le(list[at - 1].path, row.path),
        forall|k: int| at <= k < list.len() ==> !text_le((#[trigger] list[k]).path, row.path),
    ensures
        place(list, row) == list.insert(at, row),
    decreases list.len(),
{
    if at == list.len() {
        assert(list.insert(at, row) =~= list.push(row));
    } else {
        lemma_place_is_insert(list.drop_last(), row, at);
        assert(list.drop_last().insert(at, row).push(list.last()) =~= list.insert(at, row));
    }
}

/// Deterministic replica state hash: sort by canonical path, hash `path`,
/// `git_mode` and `blob_hash`.
pub fn state_hash(entries: &Vec<ManifestEntry>) -> (s: String)
    ensures
        s@ == hash_of_rows(rows(entries@)),
{
    let mut order: Vec<usize> = Vec::new();
    let ghost mut placed: Seq<RowView> = Seq::empty();
    let mut i: usize = 0;
    proof {
        assert(rows(entries@).take(0) =~= Seq::<RowView>::empty());
    }
    while i < entries.len()
        invariant
            i <= entries@.len(),
            placed == sort_rows(rows(entries@).take(i as int)),
            placed.len() == order@.len(),
            order@.len() == i,
            forall|k: int| 0 <= k < order@.len() ==> (#[trigger] order@[k]) < entries@.len(),
            forall|k: int|
                0 <= k < order@.len() ==> placed[k] == entries@[(#[trigger] order@[k]) as int]@,
        decreases entries@.len() - i,
    {
        let ghost row = entries@[i as int]@;
        let mut at: usize = order.len();
        while at > 0 && !text_before(
            entries[order[at - 1]].path.as_str(),
            entries[i].path.as_str(),
        )
            invariant
                i < entries@.len(),
                row == entries@[i as int]@,
                at <= order@.len(),
                placed.len() == order@.len(),
                forall|k: int| 0 <= k < order@.len() ==> (#[trigger] order@[k]) < entries@.len(),
                forall|k: int|
                    0 <= k < order@.len() ==> placed[k] == entries@[(#[trigger] order@[k]) as int]@,
                forall|k: int|
                    at <= k < placed.len() ==> !text_le((#[trigger] placed[k]).path, row.path),
            decreases at,
        {
            assert(placed[at - 1] == entries@[order@[at - 1] as int]@);
            at = at - 1;
        }
        proof {
            if at > 0 {
                assert(placed[at - 1] == entries@[order@[at - 1] as int]@);
            }
            lemma_place_is_insert(placed, row, at as int);
            let now = rows(entries@).take(i + 1);
            assert(now.drop_last() =~= rows(entries@).take(i as int));
            assert(now.last() == row);
            placed = placed.insert(at as int, row);
        }
        order.insert(at, i);
        i = i + 1;
    }
    proof {
        assert(rows(entries@).take(i as int) =~= rows(entries@));
    }
    let mut text = String::new();
    let mut k: usize = 0;
    while k < order.len()
        invariant
            k <= order@.len(),
            placed == sort_rows(rows(entries@)),
            placed.len() == order@.len(),
            forall|j: int| 0 <= j < order@.len() ==> (#[trigger] order@[j]) < entries@.len(),
            forall|j: int|
                0 <= j < order@.len() ==> placed[j] == entries@[(#[trigger] order@[j]) as int]@,
            text@ == rows_text(placed.take(k as int)),
        decreases order@.len() - k,
    {
        text.push_str(row_string(&entries[order[k]]).as_str());
        proof {
            assert(placed.take(k + 1).drop_last() =~= placed.take(k as int));
            assert(placed.take(k + 1).last() == entries@[order@[k as int] as int]@);
        }
        k = k + 1;
    }
    proof {
        assert(placed.take(k as int) =~= placed);
    }
    sha256_hex(text.as_str().as_bytes())
}

// ---------------------------------------------------------------------------
// Order independence
// ---------------------------------------------------------------------------

/// Rows in ascending order of their paths.
pub open spec fn rows_sorted(list: Seq<RowView>) -> bool {
    forall|i: int, j: int|
        0 <= i < j < list.len() ==> text_le((#[trigger] list[i]).path, (#[trigger] list[j]).path)
}

/// No path occurs twice.
pub open spec fn rows_distinct(list: Seq<RowView>) -> bool {
    forall|i: int, j: int|
        0 <= i < j < list.len() ==> (#[trigger] list[i]).path != (#[trigger] list[j]).path
}

pub proof fn lemma_place(list: Seq<RowView>, row: RowView)
    requires
        rows_sorted(list),
    ensures
        rows_sorted(place(list, row)),
        place(list, row).len() == list.len() + 1,
        place(list, row).to_multiset() == list.to_multiset().insert(row),
        forall|k: int| 0 <= k < list.len() + 1 ==> {
            ||| (#[trigger] place(list, row)[k]) == row
            ||| list.contains(place(list, row)[k])
        },
    decreases list.len(),
{
    list.to_multiset_ensures();
    if list.len() == 0 || text_le(list.last().path, row.path) {
        let all = list.push(row);
        assert forall|i: int, j: int| 0 <= i < j < all.len() implies text_le(
            (#[trigger] all[i]).path,
            (#[trigger] all[j]).path,
        ) by {
            if j == list.len() && i < list.len() - 1 {
                assert(text_le(list[i].path, list[list.len() - 1].path));
                lemma_text_le_transitive(list[i].path, list.last().path, row.path);
            }
        }
        assert forall|k: int| 0 <= k < all.len() implies {
            ||| (#[trigger] all[k]) == row
            ||| list.contains(all[k])
        } by {
            if k < list.len() {
                assert(list[k] == all[k]);
            }
        }
    } else {
        let front = list.drop_last();
        let x = list.last();
        assert(rows_sorted(front));
        lemma_place(front, row);
        let p = place(front, row);
        let all = p.push(x);
        lemma_text_le_total(x.path, row.path);
        assert forall|i: int, j: int| 0 <= i < j < all.len() implies text_le(
            (#[trigger] all[i]).path,
            (#[trigger] all[j]).path,
        ) by {
            if j == p.len() {
                if p[i] != row {
                    let k = choose|k: int| 0 <= k < front.len() && front[k] == p[i];
                    assert(text_le(list[k].path, list[list.len() - 1].path));
                }
            }
        }
        assert forall|k: int| 0 <= k < all.len() implies {
            ||| (#[trigger] all[k]) == row
            ||| list.contains(all[k])
        } by {
            if k < p.len() {
                if p[k] != row {
                    let m = choose|m: int| 0 <= m < front.len() && front[m] == p[k];
                    assert(list[m] == all[k]);
                }
            } else {
                assert(list[list.len() - 1] == all[k]);
            }
        }
        p.to_multiset_ensures();
        front.to_multiset_ensures();
        assert(list =~= front.push(x));
        assert(all.to_multiset() =~= list.to_multiset().insert(row));
    }
}

pub proof fn lemma_sort_rows(list: Seq<RowView>)
    ensures
        rows_sorted(sort_rows(list)),
        sort_rows(list).to_multiset() == list.to_multiset(),
        sort_rows(list).len() == list.len(),
    decreases list.len(),
{
    list.to_multiset_ensures();
    if list.len() > 0 {
        lemma_sort_rows(list.drop_last());
        lemma_place(sort_rows(list.drop_last()), list.last());
        list.drop_last().to_multiset_ensures();
        assert(list =~= list.drop_last().push(list.last()));
    } else {
        assert(sort_rows(list) =~= list);
    }
}

/// Two ordered lists of the same rows with distinct paths are the same list.
pub proof fn lemma_sorted_unique(a: Seq<RowView>, b: Seq<RowView>)
    requires
        rows_sorted(a),
        rows_sorted(b),
        rows_distinct(a),
        a.to_multiset() == b.to_multiset(),
    ensures
        a == b,
    decreases a.len(),
{
    a.to_multiset_ensures();
    b.to_multiset_ensures();
    if a.len() == 0 {
        assert(a =~= b);
    } else {
        let x = a.last();
        let y = b.last();
        assert(a.contains(x));
        assert(b.to_multiset().count(x) > 0);
        assert(b.contains(x));
        assert(b.contains(y));
        assert(a.to_multiset().count(y) > 0);
        assert(a.contains(y));
        let i = choose|i: int| 0 <= i < a.len() && a[i] == y;
        let j = choose|j: int| 0 <= j < b.len() && b[j] == x;
        if i < a.len() - 1 {
            assert(text_le(a[i].path, a[a.len() - 1].path));
            if j < b.len() - 1 {
                assert(text_le(b[j].path, b[b.len() - 1].path));
            } else {
                crate::text::lemma_text_le_reflexive(x.path);
            }
            lemma_text_le_antisymmetric(x.path, y.path);
            assert(a[i].path == a[a.len() - 1].path);
        }
        assert(x == y);
        let fa = a.drop_last();
        let fb = b.drop_last();
        fa.to_multiset_ensures();
        fb.to_multiset_ensures();
        assert(a =~= fa.push(x));
        assert(b =~= fb.push(x));
        assert(fa.to_multiset() =~= a.to_multiset().remove(x));
        assert(fb.to_multiset() =~= b.to_multiset().remove(x));
        lemma_sorted_unique(fa, fb);
    }
}

pub proof fn lemma_distinct_kept(a: Seq<RowView>, b: Seq<RowView>)
    requires
        rows_distinct(a),
        a.to_multiset() == b.to_multiset(),
    ensures
        rows_distinct(b),
    decreases a.len(),
{
    a.to_multiset_ensures();
    b.to_multiset_ensures();
    assert forall|i: int, j: int| 0 <= i < j < b.len() implies (#[trigger] b[i]).path
        != (#[trigger] b[j]).path by {
        if b[i].path == b[j].path {
            assert(b.contains(b[i]) && b.contains(b[j]));
            assert(a.to_multiset().count(b[i]) > 0 && a.to_multiset().count(b[j]) > 0);
            assert(a.contains(b[i]) && a.contains(b[j]));
            let p = choose|p: int| 0 <= p < a.len() && a[p] == b[i];
            let q = choose|q: int| 0 <= q < a.len() && a[q] == b[j];
            assert(p == q);
            // One row standing twice in `b` would have to stand twice in `a`.
            let row = b[i];
            assert(b.to_multiset().count(row) >= 2) by {
                let rest = b.remove(j);
                rest.to_multiset_ensures();
                assert(rest[i] == row);
                assert(rest.contains(row));
                assert(b.to_multiset() =~= rest.to_multiset().insert(row)) by {
                    b.to_multiset_ensures();
                    assert(b.remove(j).to_multiset() =~= b.to_multiset().remove(b[j]));
                    assert(b.to_multiset().count(b[j]) > 0);
                }
            }
            let less = a.remove(p);
            less.to_multiset_ensures();
            assert(a.remove(p).to_multiset() =~= a.to_multiset().remove(a[p]));
            assert(less.to_multiset().count(row) >= 1);
            assert(less.contains(row));
            let r = choose|r: int| 0 <= r < less.len() && less[r] == row;
            let r2 = if r < p {
                r
            } else {
                r + 1
            };
            assert(a[r2] == row);
            if r2 < p {
                assert(a[r2].path != a[p].path);
            } else {
                assert(a[p].path != a[r2].path);
            }
        }
    }
}

/// The order in which the rows of a manifest are listed does not change its
/// hash.
pub proof fn state_hash_ignores_order(a: Seq<RowView>, b: Seq<RowView>)
    requires
        rows_distinct(a),
        a.to_multiset() == b.to_multiset(),
    ensures
        hash_of_rows(a) == hash_of_rows(b),
{
    lemma_sort_rows(a);
    lemma_sort_rows(b);
    lemma_distinct_kept(a, sort_rows(a));
    lemma_sorted_unique(sort_rows(a), sort_rows(b));
}

} // verus!
