//! The rules of the participant replica: what every event does to its state.
//!
//! The invariant that shapes this file: Weave never overwrites local bytes it
//! has not already captured durably. Everything that needs the disk or Git is
//! a piece of work at the head of a queue; the program around the replica
//! performs it and hands the outcome back.

use vstd::prelude::*;

use crate::store_host::by_path;
use crate::blobs::Held;
use crate::client_blobs::{
    control_rule, data_rule, enqueue_wants_rule, pump_wants_rule, reconnect_rule, send_rule,
    stored_rule, EmittedView, JobView, TrafficView,
};
use crate::error::{detailed, plain, ErrorClass, ErrorView};
use crate::host_rules::{git_problem, GitFacts};
use crate::model::{
    entry_view, same_state, ConflictKind, ConflictStatus, ConflictView, EntryView, FileEntry,
    Ingested, OperationView, OutcomeView, PeerView, PublicationStage, PublicationView, PushStatus,
    RevisionView, Role, SyncView, TaskStatus, TaskView,
};
use crate::path::{path_error, path_fault, RepoPath};
use crate::proto::{
    hash_of_rows, BlobView, ClientMessageView, CommitView, ControlView, HostMessageView,
    OversizeReport, PrepareView, ReportView, ReportedConflict, ResumeView, RowView, SessionView,
};
use crate::reconcile::{reconcile_rule, MergeView, ReconciledView};
use crate::scan::{FileMeta, FoundView, MetaKind, RejectedView};
use crate::store_client::{
    adopted, drop_record, flight_ids, flight_of, is_outstanding, paths_of, put_record, record_of,
    unconfirmed, undrafted, unsent, DraftView, FlightView, JournalView, PendingView, Placed,
    ReplicaView, StateView,
};
use crate::text::{decimal, join};
use crate::util::{content_hash, oid_head, revision_form, short_form, size_form, Uuid};

verus! {

pub const TICK_MS: u64 = 400;

pub const SAFETY_RESCAN_MS: i64 = 15000;

pub const PRESENCE_INTERVAL_MS: i64 = 8000;

pub const HEARTBEAT_INTERVAL_MS: i64 = 15000;

pub const CLIENT_GUARD_INTERVAL_MS: i64 = 3000;

pub const RETRY_INTERVAL_MS: i64 = 2000;

/// An in-flight operation with no durable result after this long is resent.
pub const RESEND_AFTER_MS: i64 = 20000;

/// How often unreachable content is swept up.
pub const GC_INTERVAL_MS: i64 = 900000;

/// Files this size and above are captured only once they have stopped
/// changing.
pub const STABILITY_THRESHOLD: u64 = 8388608;

/// How long a large file has to hold still.
pub const STABILITY_WINDOW_MS: i64 = 1000;

/// How many notices are kept.
pub const MAX_NOTICES: usize = 20;

// ---------------------------------------------------------------------------
// State
// ---------------------------------------------------------------------------

/// A barrier this replica is part of.
#[derive(Debug, Clone, Copy, PartialEq, Eq, Structural)]
pub struct BarrierLocal {
    pub barrier_id: Uuid,
    pub watermark: u64,
    pub ready_sent: bool,
    pub conflicted: bool,
}

/// A request forwarded to the host whose answer completes a command.
#[derive(Debug, Clone, Copy, PartialEq, Eq, Structural)]
pub struct PendingRequest {
    pub request_id: Uuid,
    pub call: u64,
}

/// When each timed duty was last performed.
#[derive(Debug, Clone, Copy, PartialEq, Eq, Structural)]
pub struct Timers {
    pub rescan_ms: i64,
    pub presence_ms: i64,
    pub heartbeat_ms: i64,
    pub git_check_ms: i64,
    pub retry_ms: i64,
    pub gc_ms: i64,
}

/// What a large file looked like when it was last checked, and the canonical
/// state its change is based on: frozen at the first sighting.
pub struct ObservationView {
    pub path: Seq<char>,
    pub size: u64,
    pub mtime_ms: i64,
    pub at_ms: i64,
    pub base_revision: u64,
    pub base_entry: Option<EntryView>,
}

/// What a large file looked like when it was last checked for stability.
#[derive(Debug)]
pub struct Observation {
    pub path: RepoPath,
    pub size: u64,
    pub mtime_ms: i64,
    pub at_ms: i64,
    pub base_revision: u64,
    pub base_entry: Option<FileEntry>,
}

impl View for Observation {
    type V = ObservationView;

    open spec fn view(&self) -> ObservationView {
        ObservationView {
            path: self.path@,
            size: self.size,
            mtime_ms: self.mtime_ms,
            at_ms: self.at_ms,
            base_revision: self.base_revision,
            base_entry: entry_view(self.base_entry),
        }
    }
}

impl Placed for Observation {
    open spec fn place_of(v: ObservationView) -> Seq<char> {
        v.path
    }

    fn place(&self) -> &RepoPath {
        &self.path
    }
}

/// A publication whose pack is still travelling.
pub struct AwaitedView {
    pub hash: Seq<char>,
    pub publication: PublicationView,
}

/// Why a path is being looked at.
#[derive(Debug, Clone, Copy, PartialEq, Eq, Structural)]
pub enum Why {
    /// Something may have changed; a failure is noted and the work goes on.
    Changed,
    /// A large file was still being written.
    Watched,
    /// Canonical content is to be written there.
    Materialize,
    /// Local work that was rebased is to be written there.
    Rebase,
    /// Canonical content is to be written over a draft.
    Restore,
}

/// What a write to the working tree is for.
#[derive(Debug, Clone, Copy, PartialEq, Eq, Structural)]
pub enum Purpose {
    /// Canonical content, or locally rebased bytes.
    Replace,
    /// Canonical content over a conflicting draft.
    Restore,
}

/// The base of a change that was frozen while the file was being written.
pub type Frozen = Option<(u64, Option<EntryView>)>;

/// A piece of work.
#[allow(inconsistent_fields)]
pub enum WorkView {
    /// List the repository, then look at everything.
    Rescan,
    /// Look at what Weave knows of and the listing did not have.
    FindMissing { seen: Seq<Seq<char>> },
    Missing { path: Seq<char> },
    NoteIgnored,
    SyncTree,
    Materialize { path: Seq<char> },
    /// Look at a path.
    Visit { path: Seq<char>, why: Why },
    /// Read a path.
    Read { path: Seq<char>, why: Why, frozen: Frozen },
    /// Write a path, or delete it.
    Write { path: Seq<char>, entry: Option<EntryView>, purpose: Purpose },
    Submit { path: Seq<char> },
    Flush,
    FlushPath { path: Seq<char> },
    CheckBarrier,
    ReportOversize,
    /// The host rebuilds its picture of this replica.
    ForgetReport,
    Restore { path: Seq<char> },
    RestoreAwaited,
    InstallAwaited { hash: Seq<char> },
    Publish { publication: PublicationView, pack: Option<Seq<char>> },
    InstallObjects { publication: PublicationView, pack: Option<Seq<char>> },
    ReadRef { publication: PublicationView },
    UpdateRef { publication: PublicationView },
    ReadTree { publication: PublicationView },
    Rebase {
        path: Seq<char>,
        base: Option<EntryView>,
        canonical: Option<EntryView>,
        pending: PendingView,
    },
    /// Run a line-level merge for a rebase.
    Merge {
        path: Seq<char>,
        base: Option<EntryView>,
        canonical: Option<EntryView>,
        pending: PendingView,
    },
    Conflicted { path: Seq<char>, conflict_id: Uuid, in_barrier: bool },
    LimitChanged,
    /// A path the watcher named.
    Changed { raw: Seq<char> },
    Freeze { barrier_id: Uuid },
    VerifyJoin,
    Drain,
    Applied { revision: u64 },
    AfterWatched { paths: Seq<Seq<char>> },
    GitGuard,
    TickRescan,
    TickWatched,
    TickRetry,
    TickPresence,
    TickHeartbeat,
    TickCollect,
    Repaired { publication: PublicationView, stage: PublicationStage },
    AnswerRescan { call: u64 },
    /// Read the working file of a conflict that is being resolved.
    ResolveRead { call: u64, conflict: ConflictView },
    /// Take in the file that holds a resolution.
    ResolveIngest { call: u64, conflict: ConflictView, file: Seq<char> },
}

/// The answer to a command.
#[allow(inconsistent_fields)]
pub enum AnswerView {
    Failed(ErrorView),
    Prepared(crate::model::PreparationView),
    Published(PublicationView),
    Pushed { message: Seq<char> },
    Acknowledged { note: Option<Seq<char>> },
    Rescanned { rejected: Seq<RejectedView> },
    Peers { peers: Seq<PeerView> },
    Tasks { tasks: Seq<TaskView>, active: Option<Uuid> },
    Task { task: TaskView, overlaps: Seq<crate::client_ipc::OverlapView> },
    Conflicts { conflicts: Seq<ConflictView>, open: nat },
    Conflict(crate::client_ipc::DetailView),
    Status(crate::client_ipc::StatusView),
}

/// Something the program around the replica has to do.
#[allow(inconsistent_fields)]
pub enum ClientEffectView {
    Send(ClientMessageView),
    Stream(JobView),
    /// Put merged bytes into the blob store.
    Install { hash: Seq<char>, bytes: Seq<u8> },
    Answer { call: u64, answer: AnswerView },
    /// End the session with this error.
    Exit(ErrorView),
    /// Sweep up unreachable content.
    Collect,
    /// Say that an interrupted publication was finished.
    Repaired(Seq<char>),
}

/// The replica as plain values.
pub struct ClientView {
    pub replica: ReplicaView,
    pub traffic: TrafficView,
    pub actor_id: Uuid,
    pub display_name: Seq<char>,
    pub git_name: Seq<char>,
    pub git_email: Seq<char>,
    pub role: Role,
    pub session: SessionView,
    pub branch: Seq<char>,
    pub expected_head: Seq<char>,
    pub attached: bool,
    pub pumping: bool,
    pub connected: bool,
    pub connection_note: Seq<char>,
    pub control: Option<ControlView>,
    pub peers: Seq<PeerView>,
    pub host_state: SyncView,
    pub local_state: SyncView,
    /// Revisions that came early, in ascending order.
    pub pending_revisions: Seq<RevisionView>,
    pub barrier: Option<BarrierLocal>,
    pub requests: Seq<PendingRequest>,
    pub awaiting_pack: Seq<AwaitedView>,
    pub awaiting_restore: Seq<Seq<char>>,
    pub rejected: Seq<RejectedView>,
    pub notices: Seq<Seq<char>>,
    /// Paths that became ignored, found during a rescan.
    pub ignored: Seq<Seq<char>>,
    pub unstable: Seq<ObservationView>,
    pub max_file_size: u64,
    pub reported_oversize: Option<Seq<ReportView>>,
    /// Whether the session may be ended from here.
    pub may_exit: bool,
    pub timers: Timers,
    pub heartbeat_nonce: u64,
    pub git_problem_pending: bool,
    pub materialization_blocked: bool,
    pub shutdown: bool,
    pub todo: Seq<WorkView>,
    pub outbox: Seq<ClientEffectView>,
}

/// Numbers are left for one more step.
pub open spec fn client_room(v: ClientView) -> bool {
    &&& crate::client_blobs::ids_left(v.traffic)
    &&& v.replica.local_seq < u64::MAX
    &&& v.replica.last_applied_revision < u64::MAX
    &&& v.heartbeat_nonce < u64::MAX
}

impl ClientView {
    pub open spec fn effect(self, e: ClientEffectView) -> ClientView {
        ClientView { outbox: self.outbox.push(e), ..self }
    }

    /// Send to the host, when there is a connection to send on.
    pub open spec fn send(self, m: ClientMessageView) -> ClientView {
        if self.attached {
            self.effect(ClientEffectView::Send(m))
        } else {
            self
        }
    }

    /// Work to do before anything that is queued.
    pub open spec fn first(self, list: Seq<WorkView>) -> ClientView {
        ClientView { todo: list + self.todo, ..self }
    }

    pub open spec fn with_replica(self, replica: ReplicaView) -> ClientView {
        ClientView { replica, ..self }
    }

    pub open spec fn with_state(self, path: Seq<char>, state: StateView) -> ClientView {
        self.with_replica(self.replica.with_state(path, state))
    }

    pub open spec fn state(self, path: Seq<char>) -> StateView {
        self.replica.state(path)
    }

    /// Whether content is here.
    pub open spec fn holds(self, hash: Seq<char>) -> bool {
        self.traffic.store.contains_key(hash)
    }

    /// Tell the person, once.
    pub open spec fn note(self, text: Seq<char>) -> ClientView {
        if self.notices.contains(text) {
            self
        } else {
            let all = self.notices.push(text);
            ClientView {
                notices: if all.len() > MAX_NOTICES {
                    all.drop_first()
                } else {
                    all
                },
                ..self
            }
        }
    }

    /// A path cannot take part; the first reason stands.
    pub open spec fn note_rejected(self, path: Seq<char>, reason: Seq<char>) -> ClientView {
        if is_rejected(self.rejected, path) {
            self
        } else {
            ClientView { rejected: self.rejected.push(RejectedView { path, reason }), ..self }
        }
    }

    pub open spec fn paused(self) -> bool {
        !(self.local_state is Live)
    }

    /// The replica is unusable until it is looked after.
    pub open spec fn degraded(self, reason: Seq<char>) -> ClientView {
        ClientView { local_state: SyncView::Degraded { reason }, ..self }
    }

    /// Anything this replica needs that is still in transit.
    pub open spec fn waiting_for_content(self) -> bool {
        ||| self.materialization_blocked
        ||| self.traffic.wanted.len() > 0 || self.traffic.requested.len() > 0
        ||| self.awaiting_pack.len() > 0
        ||| self.awaiting_restore.len() > 0
    }

    pub open spec fn answer(self, call: u64, answer: AnswerView) -> ClientView {
        self.effect(ClientEffectView::Answer { call, answer })
    }
}

pub open spec fn is_rejected(list: Seq<RejectedView>, path: Seq<char>) -> bool {
    exists|i: int| 0 <= i < list.len() && (#[trigger] list[i]).path == path
}

/// The command that waits for an answer, and the others.
pub open spec fn call_of(list: Seq<PendingRequest>, request_id: Uuid) -> Option<u64>
    decreases list.len(),
{
    if list.len() == 0 {
        None
    } else if list[0].request_id == request_id {
        Some(list[0].call)
    } else {
        call_of(list.drop_first(), request_id)
    }
}

pub open spec fn without_request(list: Seq<PendingRequest>, request_id: Uuid) -> Seq<PendingRequest>
    decreases list.len(),
{
    if list.len() == 0 {
        list
    } else if list[0].request_id == request_id {
        list.drop_first()
    } else {
        seq![list[0]] + without_request(list.drop_first(), request_id)
    }
}

/// The host answered a forwarded request.
#[verifier::opaque]
pub open spec fn complete_request(v: ClientView, request_id: Uuid, answer: AnswerView) -> ClientView {
    match call_of(v.requests, request_id) {
        Some(call) => ClientView {
            requests: without_request(v.requests, request_id),
            ..v
        }.answer(call, answer),
        None => v,
    }
}

/// The first active task of this participant.
pub open spec fn active_task_in(tasks: Seq<TaskView>, actor_id: Uuid) -> Option<TaskView>
    decreases tasks.len(),
{
    if tasks.len() == 0 {
        None
    } else if tasks[0].actor_id == actor_id && tasks[0].status == TaskStatus::Active {
        Some(tasks[0])
    } else {
        active_task_in(tasks.drop_first(), actor_id)
    }
}

pub open spec fn my_task(v: ClientView) -> Option<Uuid> {
    match v.control {
        Some(c) => match active_task_in(c.tasks, v.actor_id) {
            Some(t) => Some(t.id),
            None => None,
        },
        None => None,
    }
}

// ---------------------------------------------------------------------------
// Content
// ---------------------------------------------------------------------------

pub open spec fn send_all(v: ClientView, list: Seq<ClientMessageView>) -> ClientView
    decreases list.len(),
{
    if list.len() == 0 {
        v
    } else {
        send_all(v, list.drop_last()).send(list.last())
    }
}

pub open spec fn stream_all(v: ClientView, list: Seq<JobView>) -> ClientView
    decreases list.len(),
{
    if list.len() == 0 {
        v
    } else {
        let before = stream_all(v, list.drop_last());
        if before.pumping {
            before.effect(ClientEffectView::Stream(list.last()))
        } else {
            before
        }
    }
}

pub open spec fn refusal_note(hash: Seq<char>, reason: Seq<char>) -> Seq<char> {
    "content "@ + oid_head(hash) + " could not be transferred: "@ + reason
}

pub open spec fn note_refused(v: ClientView, list: Seq<(Seq<char>, Seq<char>)>) -> ClientView
    decreases list.len(),
{
    if list.len() == 0 {
        v
    } else {
        note_refused(v, list.drop_last()).note(refusal_note(list.last().0, list.last().1))
    }
}

pub open spec fn installs(list: Seq<Seq<char>>) -> Seq<WorkView> {
    list.map_values(|hash: Seq<char>| WorkView::InstallAwaited { hash })
}

/// Carry out the consequences of one blob-plane event.
#[verifier::opaque]
pub open spec fn emit(v: ClientView, e: EmittedView) -> ClientView {
    let told = note_refused(stream_all(send_all(v, e.messages), e.jobs), e.refused);
    if e.installed.len() > 0 {
        told.first(
            installs(e.installed) + seq![
                WorkView::RestoreAwaited,
                WorkView::SyncTree,
                WorkView::CheckBarrier,
            ],
        )
    } else {
        told
    }
}

/// Ask the host for content.
#[verifier::opaque]
pub open spec fn want_blobs(v: ClientView, hashes: Seq<Seq<char>>) -> ClientView {
    let (traffic, e) = pump_wants_rule(enqueue_wants_rule(v.traffic, hashes));
    let asked = emit(ClientView { traffic, ..v }, e);
    if traffic.wanted.len() > 0 || traffic.requested.len() > 0 {
        ClientView { materialization_blocked: true, ..asked }
    } else {
        asked
    }
}

/// Send a message once the content it names is at the host.
#[verifier::opaque]
pub open spec fn send_with(
    v: ClientView,
    key: Uuid,
    needs: Seq<Seq<char>>,
    message: ClientMessageView,
) -> ClientView {
    let (traffic, e) = send_rule(v.traffic, key, needs, message);
    emit(ClientView { traffic, ..v }, e)
}

// ---------------------------------------------------------------------------
// The size limit
// ---------------------------------------------------------------------------

pub open spec fn grown_note(path: Seq<char>, size: u64, limit: u64) -> Seq<char> {
    path + " has grown to "@ + size_form(size) + ", above the session limit of "@ + size_form(limit)
        + ". Your copy is preserved and untouched, the session still holds the previous content, and Git publication is blocked until this is resolved. Shrink the file, or raise the limit with `weave limit set <size>`."@
}

pub open spec fn held_note(path: Seq<char>, size: u64, limit: u64) -> Seq<char> {
    path + " is "@ + size_form(size) + ", above the session limit of "@ + size_form(limit)
        + ". It stays exactly as it is on this machine and is not synchronized, and Git publication is blocked until this is resolved. Shrink or delete the file, or raise the limit with `weave limit set <size>`."@
}

/// Record that a path is held back, and say so once.
#[verifier::opaque]
pub open spec fn record_oversize(v: ClientView, path: Seq<char>, size: u64) -> ClientView {
    let canonical = v.state(path).confirmed is Some;
    let kept = v.with_replica(
        ReplicaView {
            oversize: put_record::<OversizeReport>(
                v.replica.oversize,
                ReportView { path, size, canonical },
            ),
            ..v.replica
        },
    );
    if v.replica.is_oversize(path) {
        kept
    } else if canonical {
        kept.note(grown_note(path, size, v.max_file_size))
    } else {
        kept.note(held_note(path, size, v.max_file_size))
    }
}

/// A path is not held back any more; said once.
#[verifier::opaque]
pub open spec fn forget_oversize(v: ClientView, path: Seq<char>) -> ClientView {
    let kept = v.with_replica(
        ReplicaView {
            oversize: drop_record::<OversizeReport>(v.replica.oversize, path),
            ..v.replica
        },
    );
    if v.replica.is_oversize(path) {
        kept.note(
            path + " is within the session file size limit again and is synchronized normally."@,
        )
    } else {
        kept
    }
}

/// Whether a path is above the limit, judged from its size alone.
#[verifier::opaque]
pub open spec fn check_oversize(v: ClientView, path: Seq<char>, meta: Option<FileMeta>) -> (
    ClientView,
    bool,
) {
    match meta {
        Some(m) => if m.kind == MetaKind::File && m.size > v.max_file_size {
            (record_oversize(v, path, m.size), true)
        } else {
            (forget_oversize(v, path), false)
        },
        None => (forget_oversize(v, path), false),
    }
}

pub open spec fn oversize_line(r: ReportView, limit: u64) -> Seq<char> {
    r.path + " is "@ + size_form(r.size) + ", above the session limit of "@ + size_form(limit)
}

pub open spec fn oversize_lines(list: Seq<ReportView>, limit: u64) -> Seq<Seq<char>> {
    list.map_values(|r: ReportView| oversize_line(r, limit))
}

/// What is held back, as a barrier reports it.
pub open spec fn oversize_detail(v: ClientView) -> Option<Seq<char>> {
    if v.replica.oversize.len() == 0 {
        None
    } else {
        Some(join(oversize_lines(v.replica.oversize, v.max_file_size), "; "@))
    }
}

/// Tell the host what is held back, when that has changed.
#[verifier::opaque]
pub open spec fn sync_oversize_report(v: ClientView) -> ClientView {
    if !v.connected || v.reported_oversize == Some(v.replica.oversize) {
        v
    } else {
        check_barrier(
            ClientView { reported_oversize: Some(v.replica.oversize), ..v }.send(
                ClientMessageView::ReportOversize { paths: v.replica.oversize },
            ),
        )
    }
}

pub open spec fn join_lines(list: Seq<ReportView>) -> Seq<Seq<char>> {
    list.map_values(|r: ReportView| r.path + " — "@ + size_form(r.size))
}

pub open spec fn join_error(v: ClientView) -> ErrorView {
    let mine = v.replica.oversize;
    detailed(
        ErrorClass::UnsupportedError,
        "Cannot join this Weave session: "@ + mine[0].path
            + " is above the session file size limit of "@ + size_form(v.max_file_size) + "."@,
        join(join_lines(mine), "\n"@)
            + "\n\nRemove these files from the repository, or ask the host to raise the limit with `weave limit set <size>`, then join again."@,
    )
}

/// A machine that cannot represent the session from its first moment does not
/// enter it half-way.
#[verifier::opaque]
pub open spec fn verify_join(v: ClientView) -> ClientView {
    if v.replica.oversize.len() == 0 {
        v
    } else if v.may_exit {
        ClientView { shutdown: true, ..v.effect(ClientEffectView::Exit(join_error(v))) }
    } else {
        v.degraded(join_error(v).message)
    }
}

// ---------------------------------------------------------------------------
// Barriers
// ---------------------------------------------------------------------------

/// What a large file looked like when it was last checked.
pub open spec fn observed(list: Seq<ObservationView>, path: Seq<char>) -> Option<ObservationView> {
    record_of::<Observation>(list, path)
}

/// My open conflicts, one line each.
pub open spec fn my_conflicts(list: Seq<ConflictView>, actor_id: Uuid) -> Seq<Seq<char>>
    decreases list.len(),
{
    if list.len() == 0 {
        Seq::empty()
    } else {
        let before = my_conflicts(list.drop_last(), actor_id);
        let c = list.last();
        if c.status == ConflictStatus::Open && c.incoming_actor_id == actor_id {
            before.push(short_form('C', c.id) + " — "@ + c.path)
        } else {
            before
        }
    }
}

/// Whether anything captured up to the watermark is still to be answered.
pub open spec fn outstanding(v: ClientView, watermark: u64) -> bool {
    exists|i: int|
        0 <= i < v.replica.states.len() && is_outstanding(
            (#[trigger] v.replica.states[i]).state,
            watermark,
        )
}

/// What keeps this replica from being ready.
pub open spec fn blockers(v: ClientView, conflicted: bool) -> Seq<Seq<char>> {
    let open = match v.control {
        Some(c) => my_conflicts(c.conflicts, v.actor_id),
        None => Seq::empty(),
    };
    let first = if open.len() > 0 {
        seq![join(open, "; "@)]
    } else if conflicted {
        seq!["unresolved conflict from pre-barrier work"@]
    } else {
        Seq::empty()
    };
    match oversize_detail(v) {
        Some(d) => first.push(d),
        None => first,
    }
}

/// A participant answers a barrier once, and only when every operation at or
/// before its watermark is settled and no content is in transit.
#[verifier::opaque]
pub open spec fn check_barrier(v: ClientView) -> ClientView {
    match v.barrier {
        None => v,
        Some(b) => if b.ready_sent || v.waiting_for_content() || outstanding(v, b.watermark) {
            v
        } else {
            let list = blockers(v, b.conflicted);
            ClientView {
                barrier: Some(BarrierLocal { ready_sent: true, ..b }),
                ..v.send(
                    ClientMessageView::BarrierReady {
                        barrier_id: b.barrier_id,
                        ok: list.len() == 0,
                        detail: join(list, "; "@),
                    },
                )
            }
        },
    }
}

/// Freeze the watermark: everything visible has been captured.
#[verifier::opaque]
pub open spec fn freeze(v: ClientView, barrier_id: Uuid) -> ClientView {
    let watermark = v.replica.local_seq;
    ClientView {
        barrier: Some(
            BarrierLocal { barrier_id, watermark, ready_sent: false, conflicted: false },
        ),
        ..v
    }.send(ClientMessageView::BarrierAck { barrier_id, watermark }).first(
        seq![WorkView::Flush, WorkView::CheckBarrier],
    )
}

// ---------------------------------------------------------------------------
// The outbox
// ---------------------------------------------------------------------------

pub open spec fn operation_of(v: ClientView, path: Seq<char>, f: FlightView) -> OperationView {
    OperationView {
        operation_id: f.operation_id,
        actor_id: v.actor_id,
        task_id: f.task_id,
        local_seq: f.local_seq,
        base_revision: f.base_revision,
        base_entry: f.base_entry,
        path,
        desired_entry: f.desired,
        content: None,
    }
}

pub open spec fn needs_of(entry: Option<EntryView>) -> Seq<Seq<char>> {
    match entry {
        Some(e) => seq![e.blob_hash],
        None => Seq::empty(),
    }
}

/// Send the operation of a path, behind its content. Work captured after the
/// watermark of a barrier waits.
#[verifier::opaque]
pub open spec fn submit_path(v: ClientView, path: Seq<char>, now_ms: i64) -> ClientView {
    let state = v.state(path);
    match state.in_flight {
        None => v,
        Some(f) => if f.sent || !v.connected || (v.barrier matches Some(b) && f.local_seq
            > b.watermark) {
            v
        } else {
            send_with(
                v,
                f.operation_id,
                needs_of(f.desired),
                ClientMessageView::SubmitOperation { operation: operation_of(v, path, f) },
            ).with_state(
                path,
                StateView {
                    in_flight: Some(FlightView { sent: true, sent_at_ms: now_ms, ..f }),
                    ..state
                },
            )
        },
    }
}

/// Turn queued work into the next operation in flight.
#[verifier::opaque]
pub open spec fn promote_pending(v: ClientView, path: Seq<char>, now_ms: i64, fresh: Uuid) -> ClientView {
    let state = v.state(path);
    if state.in_flight is Some || state.conflict_draft is Some {
        v
    } else {
        match state.pending_local {
            None => v,
            Some(p) => submit_path(
                v.with_state(
                    path,
                    StateView {
                        pending_local: None,
                        in_flight: Some(
                            FlightView {
                                operation_id: fresh,
                                base_revision: state.confirmed_revision,
                                base_entry: state.confirmed,
                                desired: p.desired,
                                local_seq: p.local_seq,
                                task_id: p.task_id,
                                sent: false,
                                sent_at_ms: 0,
                            },
                        ),
                        ..state
                    },
                ),
                path,
                now_ms,
            ),
        }
    }
}

/// What the outbox holds for one path goes out, again where no answer came.
#[verifier::opaque]
pub open spec fn flush_path(v: ClientView, path: Seq<char>, now_ms: i64, fresh: Uuid) -> ClientView {
    let state = v.state(path);
    match state.in_flight {
        Some(f) => if !f.sent {
            submit_path(v, path, now_ms)
        } else if now_ms - f.sent_at_ms > RESEND_AFTER_MS {
            submit_path(
                v.with_state(
                    path,
                    StateView { in_flight: Some(FlightView { sent: false, ..f }), ..state },
                ),
                path,
                now_ms,
            )
        } else {
            v
        },
        None => promote_pending(v, path, now_ms, fresh),
    }
}

pub open spec fn flush_works(paths: Seq<Seq<char>>) -> Seq<WorkView> {
    paths.map_values(|path: Seq<char>| WorkView::FlushPath { path })
}

#[verifier::opaque]
pub open spec fn flush_outbox(v: ClientView) -> ClientView {
    if v.connected {
        v.first(flush_works(paths_of(v.replica.states)))
    } else {
        v
    }
}

// ---------------------------------------------------------------------------
// Capture
// ---------------------------------------------------------------------------

pub open spec fn settled(v: ClientView, path: Seq<char>) -> ClientView {
    ClientView { unstable: drop_record::<Observation>(v.unstable, path), ..v }
}

/// Whether a path is worth capturing. A large file has to hold still: not
/// touched for a whole window, or seen twice alike, a window apart. What it is
/// based on is frozen at the first sighting.
#[verifier::opaque]
pub open spec fn settle(v: ClientView, path: Seq<char>, meta: Option<FileMeta>, now_ms: i64) -> (
    ClientView,
    bool,
) {
    match meta {
        None => (settled(v, path), true),
        Some(m) => if m.kind != MetaKind::File || m.size < STABILITY_THRESHOLD {
            (settled(v, path), true)
        } else {
            match m.mtime_ms {
                None => (settled(v, path), true),
                Some(mtime_ms) => if now_ms - mtime_ms >= STABILITY_WINDOW_MS {
                    (settled(v, path), true)
                } else {
                    match observed(v.unstable, path) {
                        Some(o) => if o.size == m.size && o.mtime_ms == mtime_ms {
                            if now_ms - o.at_ms >= STABILITY_WINDOW_MS {
                                (settled(v, path), true)
                            } else {
                                (v, false)
                            }
                        } else {
                            (
                                sighted(v, path, m.size, mtime_ms, now_ms, o.base_revision, o.base_entry),
                                false,
                            )
                        },
                        None => (
                            sighted(
                                v,
                                path,
                                m.size,
                                mtime_ms,
                                now_ms,
                                v.state(path).confirmed_revision,
                                v.state(path).confirmed,
                            ),
                            false,
                        ),
                    }
                },
            }
        },
    }
}

pub open spec fn sighted(
    v: ClientView,
    path: Seq<char>,
    size: u64,
    mtime_ms: i64,
    at_ms: i64,
    base_revision: u64,
    base_entry: Option<EntryView>,
) -> ClientView {
    ClientView {
        unstable: put_record::<Observation>(
            v.unstable,
            ObservationView { path, size, mtime_ms, at_ms, base_revision, base_entry },
        ),
        ..v
    }
}

/// The base frozen for a path.
pub open spec fn frozen_base(v: ClientView, path: Seq<char>) -> Frozen {
    match observed(v.unstable, path) {
        Some(o) => Some((o.base_revision, o.base_entry)),
        None => None,
    }
}

/// Durably capture what is on disk, if it differs from what Weave last saw or
/// wrote there. Comparing by content is what keeps a file Weave wrote from
/// echoing back as a local edit.
#[verifier::opaque]
pub open spec fn capture(
    v: ClientView,
    path: Seq<char>,
    entry: Option<EntryView>,
    frozen: Frozen,
    now_ms: i64,
    fresh: Uuid,
) -> (ClientView, bool) {
    let state = v.state(path);
    if same_state(entry, state.materialized) {
        (v, false)
    } else {
        let seq = (v.replica.local_seq + 1) as u64;
        let task_id = my_task(v);
        let counted = v.with_replica(ReplicaView { local_seq: seq, ..v.replica });
        match (state.conflict_draft, state.in_flight) {
            // Captured, never submitted by itself.
            (Some(d), _) => (
                counted.with_state(
                    path,
                    StateView {
                        conflict_draft: Some(DraftView { entry, local_seq: seq, ..d }),
                        materialized: entry,
                        ..state
                    },
                ),
                true,
            ),
            // One operation in flight per path; newer work coalesces behind it.
            (None, Some(_)) => (
                check_barrier(
                    counted.with_state(
                        path,
                        StateView {
                            pending_local: Some(
                                PendingView { desired: entry, local_seq: seq, task_id },
                            ),
                            materialized: entry,
                            ..state
                        },
                    ),
                ),
                true,
            ),
            (None, None) => {
                let (base_revision, base_entry) = match frozen {
                    Some(f) => f,
                    None => (state.confirmed_revision, state.confirmed),
                };
                (
                    submit_path(
                        counted.with_state(
                            path,
                            StateView {
                                in_flight: Some(
                                    FlightView {
                                        operation_id: fresh,
                                        base_revision,
                                        base_entry,
                                        desired: entry,
                                        local_seq: seq,
                                        task_id,
                                        sent: false,
                                        sent_at_ms: 0,
                                    },
                                ),
                                materialized: entry,
                                ..state
                            },
                        ),
                        path,
                        now_ms,
                    ),
                    true,
                )
            },
        }
    }
}

/// The head of the queue is done.
pub open spec fn popped(v: ClientView) -> ClientView {
    ClientView { todo: v.todo.drop_first(), ..v }
}

/// A look at a path: wait, hold back, or read.
#[verifier::opaque]
pub open spec fn visited(
    v: ClientView,
    path: Seq<char>,
    why: Why,
    meta: Option<FileMeta>,
    now_ms: i64,
) -> ClientView {
    let frozen = frozen_base(v, path);
    let (a, still) = settle(v, path, meta, now_ms);
    if !still {
        finish_visit(a, path, why, false)
    } else {
        let (b, over) = check_oversize(a, path, meta);
        if over {
            finish_visit(b, path, why, false)
        } else {
            b.first(seq![WorkView::Read { path, why, frozen }])
        }
    }
}

/// A path was read: its content is in the blob store by now.
#[verifier::opaque]
pub open spec fn read_done(
    v: ClientView,
    path: Seq<char>,
    why: Why,
    frozen: Frozen,
    entry: Option<EntryView>,
    now_ms: i64,
    fresh: Uuid,
) -> ClientView {
    let state = v.state(path);
    let (next, captured) = capture(with_content(v, entry), path, entry, frozen, now_ms, fresh);
    if captured && never_shown(state) {
        // The change was made on top of what was on disk, not on top of what
        // is in flight: the two are merged.
        match next.state(path).pending_local {
            Some(pending) => next.first(
                seq![
                    WorkView::Rebase {
                        path,
                        base: state.materialized,
                        canonical: candidate(state),
                        pending,
                    },
                ],
            ),
            None => next,
        }
    } else {
        finish_visit(next, path, why, captured)
    }
}

/// The newest local work on a path that is on its way to the host.
pub open spec fn candidate(state: StateView) -> Option<EntryView> {
    match (state.pending_local, state.in_flight) {
        (Some(p), _) => p.desired,
        (None, Some(f)) => f.desired,
        (None, None) => state.materialized,
    }
}

/// The working file never showed the newest local work: a rebase came to
/// something else, and the write had to wait.
pub open spec fn never_shown(state: StateView) -> bool {
    state.in_flight is Some && state.conflict_draft is None && !same_state(
        candidate(state),
        state.materialized,
    )
}

/// A path could not be read.
#[verifier::opaque]
pub open spec fn read_failed(v: ClientView, path: Seq<char>, why: Why, e: ErrorView) -> ClientView {
    match why {
        Why::Changed => v.note_rejected(path, e.message),
        Why::Watched => settled(v, path).note_rejected(path, e.message),
        Why::Materialize | Why::Rebase | Why::Restore => fail(v, e),
    }
}

/// A look for the sake of a write that captured nothing may be followed by the
/// write. Content that was never captured, because it still changes or is above
/// the limit, is never overwritten.
#[verifier::opaque]
pub open spec fn finish_visit(v: ClientView, path: Seq<char>, why: Why, captured: bool) -> ClientView {
    if captured || observed(v.unstable, path) is Some || v.replica.is_oversize(path) {
        v
    } else {
        match why {
            Why::Changed | Why::Watched => v,
            Why::Materialize => write_canonical(v, path),
            Why::Rebase => write_candidate(v, path),
            Why::Restore => write_restored(v, path),
        }
    }
}

// ---------------------------------------------------------------------------
// Materialization
// ---------------------------------------------------------------------------

/// Whether canonical content may be considered for a path at all.
pub open spec fn wants_canonical(state: StateView) -> bool {
    !state.has_local_work() && !same_state(state.confirmed, state.materialized)
}

/// Bring a path to canonical state, but look at it first.
#[verifier::opaque]
pub open spec fn materialize_if_safe(v: ClientView, path: Seq<char>) -> ClientView {
    if wants_canonical(v.state(path)) {
        v.first(seq![WorkView::Visit { path, why: Why::Materialize }])
    } else {
        v
    }
}

#[verifier::opaque]
pub open spec fn write_canonical(v: ClientView, path: Seq<char>) -> ClientView {
    match v.state(path).confirmed {
        Some(e) => if v.holds(e.blob_hash) {
            v.first(
                seq![WorkView::Write { path, entry: Some(e), purpose: Purpose::Replace }],
            )
        } else {
            want_blobs(v, seq![e.blob_hash])
        },
        None => v.first(seq![WorkView::Write { path, entry: None, purpose: Purpose::Replace }]),
    }
}

/// A path was written.
#[verifier::opaque]
pub open spec fn written(
    v: ClientView,
    path: Seq<char>,
    entry: Option<EntryView>,
    purpose: Purpose,
) -> ClientView {
    let state = v.state(path);
    v.with_state(
        path,
        StateView {
            materialized: entry,
            conflict_draft: match (purpose, state.conflict_draft) {
                (Purpose::Restore, Some(d)) => Some(DraftView { entry, ..d }),
                (_, d) => d,
            },
            ..state
        },
    )
}

pub open spec fn materialize_works(paths: Seq<Seq<char>>) -> Seq<WorkView> {
    paths.map_values(|path: Seq<char>| WorkView::Materialize { path })
}

#[verifier::opaque]
pub open spec fn sync_working_tree(v: ClientView) -> ClientView {
    ClientView { materialization_blocked: false, ..v }.first(
        materialize_works(paths_of(v.replica.states)),
    )
}

/// Restore canonical content over a draft, but look at the file first.
#[verifier::opaque]
pub open spec fn restore(v: ClientView, path: Seq<char>) -> ClientView {
    v.first(seq![WorkView::Visit { path, why: Why::Restore }])
}

/// Canonical content over a draft, deliberately.
#[verifier::opaque]
pub open spec fn write_restored(v: ClientView, path: Seq<char>) -> ClientView {
    match v.state(path).confirmed {
        Some(e) => if v.holds(e.blob_hash) {
            v.first(
                seq![WorkView::Write { path, entry: Some(e), purpose: Purpose::Restore }],
            )
        } else {
            want_blobs(
                ClientView {
                    awaiting_restore: if v.awaiting_restore.contains(path) {
                        v.awaiting_restore
                    } else {
                        v.awaiting_restore.push(path)
                    },
                    ..v
                },
                seq![e.blob_hash],
            )
        },
        None => v.first(seq![WorkView::Write { path, entry: None, purpose: Purpose::Restore }]),
    }
}

/// Local work that was rebased, unless the file shows it already.
#[verifier::opaque]
pub open spec fn write_candidate(v: ClientView, path: Seq<char>) -> ClientView {
    let state = v.state(path);
    if never_shown(state) {
        v.first(
            seq![
                WorkView::Write { path, entry: candidate(state), purpose: Purpose::Replace },
            ],
        )
    } else {
        v
    }
}

pub open spec fn restore_works(paths: Seq<Seq<char>>) -> Seq<WorkView> {
    paths.map_values(|path: Seq<char>| WorkView::Restore { path })
}

#[verifier::opaque]
pub open spec fn restore_awaited(v: ClientView) -> ClientView {
    ClientView { awaiting_restore: Seq::empty(), ..v }.first(restore_works(v.awaiting_restore))
}

// ---------------------------------------------------------------------------
// Rescans
// ---------------------------------------------------------------------------

pub open spec fn visit_works(paths: Seq<Seq<char>>) -> Seq<WorkView> {
    paths.map_values(|path: Seq<char>| WorkView::Visit { path, why: Why::Changed })
}

/// A full rescan, unless the replica is paused.
#[verifier::opaque]
pub open spec fn full_rescan(v: ClientView, now_ms: i64) -> ClientView {
    let timed = ClientView { timers: Timers { rescan_ms: now_ms, ..v.timers }, ..v };
    if v.paused() {
        timed
    } else {
        timed.first(seq![WorkView::Rescan])
    }
}

#[verifier::opaque]
pub open spec fn record_all(v: ClientView, list: Seq<ReportView>) -> ClientView
    decreases list.len(),
{
    if list.len() == 0 {
        v
    } else {
        record_oversize(record_all(v, list.drop_last()), list.last().path, list.last().size)
    }
}

pub open spec fn report_paths(list: Seq<ReportView>) -> Seq<Seq<char>> {
    list.map_values(|r: ReportView| r.path)
}

/// The repository was listed: look at everything that was found, then at what
/// was not.
#[verifier::opaque]
pub open spec fn scanned(
    v: ClientView,
    found: Seq<Seq<char>>,
    oversize: Seq<ReportView>,
    rejected: Seq<RejectedView>,
) -> ClientView {
    record_all(ClientView { rejected, ..v }, oversize).first(
        visit_works(found) + seq![
            WorkView::FindMissing { seen: found + report_paths(oversize) },
            WorkView::NoteIgnored,
            WorkView::SyncTree,
        ],
    )
}

/// The known paths that were not seen and should be there.
pub open spec fn missing_works(r: ReplicaView, paths: Seq<Seq<char>>, seen: Seq<Seq<char>>) -> Seq<
    WorkView,
>
    decreases paths.len(),
{
    if paths.len() == 0 {
        Seq::empty()
    } else {
        let before = missing_works(r, paths.drop_last(), seen);
        let path = paths.last();
        if !seen.contains(path) && (r.state(path).materialized is Some || r.state(path).confirmed
            is Some) {
            before.push(WorkView::Missing { path })
        } else {
            before
        }
    }
}

/// A path Git did not report: ignored now, if it is on disk, else gone.
#[verifier::opaque]
pub open spec fn missing(v: ClientView, path: Seq<char>, exists_on_disk: bool) -> ClientView {
    if exists_on_disk {
        ClientView { ignored: v.ignored.push(path), ..v }
    } else {
        v.first(seq![WorkView::Visit { path, why: Why::Changed }])
    }
}

#[verifier::opaque]
pub open spec fn note_ignored(v: ClientView) -> ClientView {
    if v.ignored.len() == 0 {
        v
    } else {
        ClientView { ignored: Seq::empty(), ..v }.note(
            decimal(v.ignored.len()) + " path(s) are now Git-ignored and no longer synchronized: "@
                + join(v.ignored, ", "@),
        )
    }
}

pub open spec fn changed_works(list: Seq<Seq<char>>, ignored: Seq<Seq<char>>) -> Seq<WorkView>
    decreases list.len(),
{
    if list.len() == 0 {
        Seq::empty()
    } else if ignored.contains(list.last()) {
        changed_works(list.drop_last(), ignored)
    } else {
        changed_works(list.drop_last(), ignored).push(WorkView::Changed { raw: list.last() })
    }
}

/// The watcher named paths; Git says which of them it ignores.
#[verifier::opaque]
pub open spec fn watch_batch(v: ClientView, raw: Seq<Seq<char>>, ignored: Seq<Seq<char>>) -> ClientView {
    if v.paused() {
        v
    } else {
        v.first(changed_works(raw, ignored))
    }
}

#[verifier::opaque]
pub open spec fn changed(v: ClientView, raw: Seq<char>) -> ClientView {
    match path_fault(raw) {
        Some(why) => v.note_rejected(raw, path_error(raw, why).message),
        None => v.first(seq![WorkView::Visit { path: raw, why: Why::Changed }]),
    }
}

/// The working tree before the first manifest: seen, and no local work.
#[verifier::opaque]
pub open spec fn seeded(v: ClientView, found: Seq<FoundView>) -> ClientView
    decreases found.len(),
{
    if found.len() == 0 {
        v
    } else {
        let before = seeded(v, found.drop_last());
        let f = found.last();
        let state = before.state(f.path);
        let kept = ClientView {
            traffic: stored_rule(before.traffic, f.entry.blob_hash, f.entry.size),
            ..before
        };
        if state.materialized is Some || state.has_local_work() {
            kept
        } else {
            kept.with_state(f.path, StateView { materialized: Some(f.entry), ..state })
        }
    }
}

// ---------------------------------------------------------------------------
// Failures
// ---------------------------------------------------------------------------

pub open spec fn rescan_calls(list: Seq<WorkView>) -> Seq<u64>
    decreases list.len(),
{
    if list.len() == 0 {
        Seq::empty()
    } else {
        match list.last() {
            WorkView::AnswerRescan { call } => rescan_calls(list.drop_last()).push(call),
            _ => rescan_calls(list.drop_last()),
        }
    }
}

pub open spec fn answer_all(v: ClientView, calls: Seq<u64>, e: ErrorView) -> ClientView
    decreases calls.len(),
{
    if calls.len() == 0 {
        v
    } else {
        answer_all(v, calls.drop_last(), e).answer(calls.last(), AnswerView::Failed(e))
    }
}

/// Something failed: the rest of this event's work is given up. A session whose
/// repair fails does not start. Where a command asked for it, the command gets the error; otherwise a failure of
/// storage or integrity leaves the replica degraded.
#[verifier::opaque]
pub open spec fn fail(v: ClientView, e: ErrorView) -> ClientView {
    let stopped = ClientView { todo: Seq::empty(), ..v };
    let calls = rescan_calls(v.todo);
    if repairing(v.todo) {
        ClientView { shutdown: true, ..stopped.effect(ClientEffectView::Exit(e)) }
    } else if calls.len() > 0 {
        answer_all(stopped, calls, e)
    } else if e.class == ErrorClass::PersistenceError || e.class == ErrorClass::IntegrityError {
        stopped.degraded(e.message)
    } else {
        stopped
    }
}

// ---------------------------------------------------------------------------
// Revisions
// ---------------------------------------------------------------------------

/// A revision put among those that came early.
pub open spec fn with_revision(list: Seq<RevisionView>, r: RevisionView) -> Seq<RevisionView>
    decreases list.len(),
{
    if list.len() == 0 {
        seq![r]
    } else if list[0].revision == r.revision {
        seq![r] + list.drop_first()
    } else if r.revision < list[0].revision {
        seq![r] + list
    } else {
        seq![list[0]] + with_revision(list.drop_first(), r)
    }
}

#[verifier::opaque]
pub open spec fn enqueue_revision(v: ClientView, r: RevisionView) -> ClientView {
    if r.revision <= v.replica.last_applied_revision {
        v
    } else {
        ClientView { pending_revisions: with_revision(v.pending_revisions, r), ..v }.first(
            seq![WorkView::Drain],
        )
    }
}

/// Where the revision that is due stands among those that came early.
pub open spec fn due_at(list: Seq<RevisionView>, number: u64) -> int
    decreases list.len(),
{
    if list.len() == 0 {
        0
    } else if list[0].revision == number {
        0
    } else {
        1 + due_at(list.drop_first(), number)
    }
}

pub open spec fn gap_reason(last: u64, next: u64) -> Seq<char> {
    "gap between "@ + revision_form(last) + " and "@ + revision_form(next)
}

/// Apply what is due, strictly in order. A gap that persists means a broadcast
/// was lost: ask for a snapshot.
#[verifier::opaque]
pub open spec fn drain(v: ClientView) -> ClientView {
    let last = v.replica.last_applied_revision;
    let at = due_at(v.pending_revisions, (last + 1) as u64);
    if at < v.pending_revisions.len() {
        let r = v.pending_revisions[at];
        let state = v.state(r.path);
        let taken = ClientView { pending_revisions: v.pending_revisions.remove(at), ..v };
        let told = if r.revision > state.confirmed_revision {
            taken.with_state(
                r.path,
                StateView {
                    confirmed: r.after,
                    confirmed_revision: r.revision,
                    ..state
                },
            )
        } else {
            taken
        };
        told.first(
            seq![
                WorkView::Materialize { path: r.path },
                WorkView::Applied { revision: r.revision },
                WorkView::Drain,
            ],
        )
    } else if v.pending_revisions.len() > 0 && v.pending_revisions[0].revision > last + 1 {
        v.send(
            ClientMessageView::RequestManifest {
                reason: gap_reason(last, v.pending_revisions[0].revision),
            },
        )
    } else {
        v
    }
}

pub open spec fn manifest_fault() -> ErrorView {
    plain(
        ErrorClass::IntegrityError,
        "The canonical manifest sent by the host failed its own state hash check."@,
    )
}

/// The hashes of a manifest that are not here.
pub open spec fn absent_hashes(held: Map<Seq<char>, u64>, list: Seq<RowView>) -> Seq<Seq<char>>
    decreases list.len(),
{
    if list.len() == 0 {
        Seq::empty()
    } else if held.contains_key(list.last().entry.blob_hash) {
        absent_hashes(held, list.drop_last())
    } else {
        absent_hashes(held, list.drop_last()).push(list.last().entry.blob_hash)
    }
}

/// Install a canonical manifest that matches its own hash, its rows in their
/// places.
#[verifier::opaque]
pub open spec fn apply_manifest(v: ClientView, revision: u64, manifest: Seq<RowView>) -> ClientView {
    let adopted_view = v.with_replica(
        ReplicaView {
            states: adopted(unconfirmed(v.replica.states, revision), revision, manifest),
            has_manifest: true,
            last_applied_revision: revision,
            ..v.replica
        },
    );
    want_blobs(
        ClientView {
            pending_revisions: v.pending_revisions.filter(
                |r: RevisionView| r.revision > revision,
            ),
            ..adopted_view
        },
        absent_hashes(v.traffic.store, manifest),
    )
}

// ---------------------------------------------------------------------------
// Control state
// ---------------------------------------------------------------------------

pub open spec fn open_ids(list: Seq<ConflictView>) -> Seq<Uuid>
    decreases list.len(),
{
    if list.len() == 0 {
        Seq::empty()
    } else if list.last().status == ConflictStatus::Open {
        open_ids(list.drop_last()).push(list.last().id)
    } else {
        open_ids(list.drop_last())
    }
}

/// The identifiers of `before` that `now` does not have.
pub open spec fn gone(before: Seq<Uuid>, now: Seq<Uuid>) -> Seq<Uuid>
    decreases before.len(),
{
    if before.len() == 0 {
        Seq::empty()
    } else if now.contains(before.last()) {
        gone(before.drop_last(), now)
    } else {
        gone(before.drop_last(), now).push(before.last())
    }
}

pub open spec fn limit_note(limit: u64) -> Seq<char> {
    "The session file size limit is now "@ + size_form(limit) + "."@
}

/// New control state. Drafts of conflicts that are no longer open end.
#[verifier::opaque]
pub open spec fn apply_control(v: ClientView, c: ControlView) -> ClientView {
    let before = match v.control {
        Some(old_control) => open_ids(old_control.conflicts),
        None => Seq::empty(),
    };
    let closed = gone(before, open_ids(c.conflicts));
    let known = ClientView {
        control: Some(c),
        max_file_size: c.max_file_size,
        ..v.with_replica(ReplicaView { control: Some(c), ..v.replica })
    };
    let freed = if closed.len() > 0 {
        known.with_replica(
            ReplicaView {
                states: undrafted(known.replica.states, closed),
                ..known.replica
            },
        )
    } else {
        known
    };
    let limited = c.max_file_size != v.max_file_size;
    freed.first(
        if closed.len() > 0 && limited {
            seq![WorkView::SyncTree, WorkView::LimitChanged]
        } else if closed.len() > 0 {
            seq![WorkView::SyncTree]
        } else if limited {
            seq![WorkView::LimitChanged]
        } else {
            Seq::empty()
        },
    )
}

/// A new limit re-decides every path, in both directions: what is held back is
/// derived afresh from the files themselves.
#[verifier::opaque]
pub open spec fn limit_changed(v: ClientView, now_ms: i64) -> ClientView {
    full_rescan(
        v.note(limit_note(v.max_file_size)).with_replica(
            ReplicaView { oversize: Seq::empty(), ..v.replica },
        ).first(seq![WorkView::ReportOversize]),
        now_ms,
    )
}

// ---------------------------------------------------------------------------
// Operation results
// ---------------------------------------------------------------------------

/// The canonical state an outcome speaks of.
pub open spec fn canonical_of(o: OutcomeView) -> Option<(u64, Option<EntryView>)> {
    match o {
        OutcomeView::Accepted { revision, canonical_entry } => Some((revision, canonical_entry)),
        OutcomeView::Converged { revision, canonical_entry } => Some((revision, canonical_entry)),
        OutcomeView::Merged { revision, canonical_entry } => Some((revision, canonical_entry)),
        OutcomeView::Conflicted { revision, canonical_entry, .. } => Some(
            (revision, canonical_entry),
        ),
        OutcomeView::Rejected { .. } => None,
    }
}

/// An operation was refused. What may pass is retried; what has lost its base
/// is queued again and the manifest asked for; anything else ends there. The
/// bytes on disk stay.
#[verifier::opaque]
pub open spec fn operation_rejected(
    v: ClientView,
    path: Seq<char>,
    class: ErrorClass,
    message: Seq<char>,
) -> ClientView {
    let state = v.state(path);
    if class == ErrorClass::SessionError || class == ErrorClass::NetworkError || class
        == ErrorClass::PersistenceError {
        v.with_state(
            path,
            StateView {
                in_flight: match state.in_flight {
                    Some(f) => Some(FlightView { sent: false, ..f }),
                    None => None,
                },
                ..state
            },
        ).note(path + ": "@ + message + " (queued for retry)"@)
    } else if class == ErrorClass::ProtocolError {
        v.with_state(
            path,
            StateView {
                in_flight: None,
                pending_local: match (state.in_flight, state.pending_local) {
                    (Some(f), None) => Some(
                        PendingView {
                            desired: f.desired,
                            local_seq: f.local_seq,
                            task_id: f.task_id,
                        },
                    ),
                    (_, p) => p,
                },
                ..state
            },
        ).note(path + ": "@ + message + "; resynchronizing"@).send(
            ClientMessageView::RequestManifest { reason: message },
        )
    } else {
        v.with_state(
            path,
            StateView { in_flight: None, pending_local: None, ..state },
        ).note_rejected(path, message)
    }
}

/// The result of an operation. Newer local work is rebased onto the canonical
/// result before the working tree is touched.
#[verifier::opaque]
pub open spec fn operation_result(v: ClientView, operation_id: Uuid, outcome: OutcomeView) -> ClientView {
    match flight_of(v.replica.states, operation_id) {
        None => v,
        Some(row) => {
            let path = row.path;
            let state = v.state(path);
            match (outcome, state.in_flight) {
                (_, None) => v,
                (OutcomeView::Rejected { class, message }, Some(f)) => if f.operation_id
                    != operation_id {
                    v
                } else {
                    check_barrier(operation_rejected(v, path, class, message))
                },
                (_, Some(f)) => if f.operation_id != operation_id {
                    v
                } else {
                    let (revision, canonical) = canonical_of(outcome)->0;
                    let newer = revision >= state.confirmed_revision;
                    let after = StateView {
                        confirmed: if newer {
                            canonical
                        } else {
                            state.confirmed
                        },
                        confirmed_revision: if newer {
                            revision
                        } else {
                            state.confirmed_revision
                        },
                        in_flight: None,
                        ..state
                    };
                    let told = v.with_state(path, after);
                    match outcome {
                        OutcomeView::Conflicted { conflict_id, .. } => conflicted(
                            told,
                            path,
                            conflict_id,
                        ),
                        _ => match after.pending_local {
                            Some(pending) => told.first(
                                seq![
                                    WorkView::Rebase {
                                        path,
                                        base: f.desired,
                                        canonical,
                                        pending,
                                    },
                                    WorkView::CheckBarrier,
                                ],
                            ),
                            None => told.first(
                                seq![WorkView::Materialize { path }, WorkView::CheckBarrier],
                            ),
                        },
                    }
                },
            }
        },
    }
}

/// The content of an entry, when it is here.
pub open spec fn held_needs(v: ClientView, entry: Option<EntryView>) -> Seq<Seq<char>> {
    match entry {
        Some(e) => if v.holds(e.blob_hash) {
            seq![e.blob_hash]
        } else {
            Seq::empty()
        },
        None => Seq::empty(),
    }
}

/// The host turned an operation into a conflict. The newest candidate is
/// attached to it before anything is restored.
#[verifier::opaque]
pub open spec fn conflicted(v: ClientView, path: Seq<char>, conflict_id: Uuid) -> ClientView {
    let state = v.state(path);
    let attached = match state.pending_local {
        Some(p) => send_with(
            v,
            conflict_id,
            held_needs(v, p.desired),
            ClientMessageView::AttachLocalCandidate { conflict_id, entry: p.desired },
        ),
        None => v,
    };
    attached.with_state(
        path,
        StateView {
            pending_local: None,
            conflict_draft: Some(
                DraftView {
                    conflict_id,
                    entry: match state.pending_local {
                        Some(p) => p.desired,
                        None => state.materialized,
                    },
                    local_seq: v.replica.local_seq,
                },
            ),
            ..state
        },
    ).first(
        seq![
            WorkView::Restore { path },
            WorkView::Conflicted { path, conflict_id, in_barrier: true },
            WorkView::CheckBarrier,
        ],
    )
}

pub open spec fn conflict_note(path: Seq<char>, conflict_id: Uuid) -> Seq<char> {
    "Conflict "@ + short_form('C', conflict_id) + " — "@ + path
        + "\nYour changes could not be merged automatically.\nNo work was discarded.\nRun: weave conflict show "@
        + short_form('C', conflict_id)
}

/// The conflict is in place.
#[verifier::opaque]
pub open spec fn conflict_placed(
    v: ClientView,
    path: Seq<char>,
    conflict_id: Uuid,
    in_barrier: bool,
) -> ClientView {
    ClientView {
        barrier: match v.barrier {
            Some(b) => if in_barrier {
                Some(BarrierLocal { conflicted: true, ..b })
            } else {
                Some(b)
            },
            None => None,
        },
        ..v
    }.note(conflict_note(path, conflict_id))
}

/// What newer local work came to: the next operation, or what waits behind the
/// one it was merged with.
pub open spec fn landed(
    state: StateView,
    entry: Option<EntryView>,
    pending: PendingView,
    fresh: Uuid,
) -> StateView {
    match state.in_flight {
        Some(f) => StateView {
            pending_local: if same_state(entry, f.desired) {
                None
            } else {
                Some(PendingView { desired: entry, ..pending })
            },
            ..state
        },
        None => StateView {
            pending_local: None,
            in_flight: Some(
                FlightView {
                    operation_id: fresh,
                    base_revision: state.confirmed_revision,
                    base_entry: state.confirmed,
                    desired: entry,
                    local_seq: pending.local_seq,
                    task_id: pending.task_id,
                    sent: false,
                    sent_at_ms: 0,
                },
            ),
            ..state
        },
    }
}

/// Show what newer local work came to, then send what is due.
pub open spec fn show_works(path: Seq<char>) -> Seq<WorkView> {
    seq![WorkView::Visit { path, why: Why::Rebase }, WorkView::Submit { path }]
}

/// Everything a conflict names that is here.
pub open spec fn conflict_needs(
    v: ClientView,
    state: StateView,
    base: Option<EntryView>,
    canonical: Option<EntryView>,
    desired: Option<EntryView>,
) -> Seq<Seq<char>> {
    let sides = held_needs(v, base) + held_needs(v, desired);
    if state.in_flight is Some {
        sides + held_needs(v, canonical)
    } else {
        sides
    }
}

/// Newer local work cannot be merged: both sides go to the host before the
/// file is restored.
#[verifier::opaque]
pub open spec fn clash(
    v: ClientView,
    path: Seq<char>,
    kind: ConflictKind,
    base: Option<EntryView>,
    canonical: Option<EntryView>,
    pending: PendingView,
    fresh: Uuid,
) -> ClientView {
    let state = v.state(path);
    send_with(
        v,
        fresh,
        conflict_needs(v, state, base, canonical, pending.desired),
        ClientMessageView::ReportConflict {
            report: ReportedConflict {
                id: fresh,
                path,
                kind,
                base_entry: base,
                canonical_entry: canonical,
                incoming_entry: pending.desired,
                latest_local_candidate: pending.desired,
                incoming_task_id: pending.task_id,
            },
        },
    ).with_state(
        path,
        StateView {
            pending_local: None,
            conflict_draft: Some(
                DraftView {
                    conflict_id: fresh,
                    entry: pending.desired,
                    local_seq: pending.local_seq,
                },
            ),
            ..state
        },
    ).first(
        seq![
            WorkView::Restore { path },
            WorkView::Conflicted { path, conflict_id: fresh, in_barrier: false },
        ],
    )
}

/// Rebase newer local work: its base is the candidate that was in flight, and
/// the canonical result is what it meets. Where the file never showed what is
/// in flight, its base is what the file did show, and it meets what is in
/// flight.
#[verifier::opaque]
pub open spec fn rebase(
    v: ClientView,
    path: Seq<char>,
    base: Option<EntryView>,
    canonical: Option<EntryView>,
    pending: PendingView,
    merge: Option<MergeView>,
    fresh: Uuid,
) -> ClientView {
    let state = v.state(path);
    match reconcile_rule(base, canonical, pending.desired, merge) {
        ReconciledView::NeedsMerge => v.first(
            seq![WorkView::Merge { path, base, canonical, pending }],
        ),
        ReconciledView::Converged => if state.in_flight is Some {
            v.with_state(path, landed(state, canonical, pending, fresh)).first(show_works(path))
        } else {
            v.with_state(path, StateView { pending_local: None, ..state }).first(
                seq![WorkView::Materialize { path }],
            )
        },
        ReconciledView::Accept { entry, merged } => {
            let ready = if merged && merge matches Some(MergeView::Clean(_)) {
                install_merged(v, merge->0->Clean_0)
            } else {
                v
            };
            ready.with_state(path, landed(state, entry, pending, fresh)).first(show_works(path))
        },
        ReconciledView::Conflict(kind) => clash(v, path, kind, base, canonical, pending, fresh),
    }
}

/// Put merged bytes into the store, unless they are there.
#[verifier::opaque]
pub open spec fn install_merged(v: ClientView, bytes: Seq<u8>) -> ClientView {
    let hash = content_hash(bytes);
    if v.holds(hash) {
        v
    } else {
        ClientView { traffic: stored_rule(v.traffic, hash, bytes.len() as u64), ..v }.effect(
            ClientEffectView::Install { hash, bytes },
        )
    }
}

/// A merge could not be run. Content that is missing is asked for and the work
/// stays queued; nothing is discarded.
#[verifier::opaque]
pub open spec fn merge_failed(v: ClientView, canonical: Option<EntryView>, e: ErrorView) -> ClientView {
    if e.class == ErrorClass::IntegrityError {
        want_blobs(v, needs_of(canonical))
    } else {
        fail(v, e)
    }
}

// ---------------------------------------------------------------------------
// Publications
// ---------------------------------------------------------------------------

pub open spec fn is_awaited(list: Seq<AwaitedView>, hash: Seq<char>, sequence: u64) -> bool {
    exists|i: int|
        0 <= i < list.len() && (#[trigger] list[i]).hash == hash && list[i].publication.sequence
            == sequence
}

/// A publication waits for its pack.
#[verifier::opaque]
pub open spec fn on_publication(v: ClientView, publication: PublicationView, pack: Option<Seq<char>>) -> ClientView {
    match pack {
        Some(hash) => if !v.holds(hash) {
            want_blobs(
                ClientView {
                    awaiting_pack: if is_awaited(
                        v.awaiting_pack,
                        hash,
                        publication.sequence,
                    ) {
                        v.awaiting_pack
                    } else {
                        v.awaiting_pack.push(AwaitedView { hash, publication })
                    },
                    ..v
                },
                seq![hash],
            )
        } else {
            v.first(seq![WorkView::Publish { publication, pack }])
        },
        None => v.first(seq![WorkView::Publish { publication, pack }]),
    }
}

/// The publications that waited for a pack, in the order of their numbers.
pub open spec fn ready_publications(list: Seq<AwaitedView>, hash: Seq<char>) -> Seq<PublicationView>
    decreases list.len(),
{
    if list.len() == 0 {
        Seq::empty()
    } else {
        let before = ready_publications(list.drop_last(), hash);
        if list.last().hash == hash {
            place_publication(before, list.last().publication)
        } else {
            before
        }
    }
}

pub open spec fn place_publication(list: Seq<PublicationView>, p: PublicationView) -> Seq<PublicationView>
    decreases list.len(),
{
    if list.len() == 0 || list.last().sequence <= p.sequence {
        list.push(p)
    } else {
        place_publication(list.drop_last(), p).push(list.last())
    }
}

pub open spec fn still_awaited(list: Seq<AwaitedView>, hash: Seq<char>) -> Seq<AwaitedView> {
    list.filter(|a: AwaitedView| a.hash != hash)
}

pub open spec fn publish_works(list: Seq<PublicationView>, hash: Seq<char>) -> Seq<WorkView> {
    list.map_values(
        |publication: PublicationView| WorkView::Publish { publication, pack: Some(hash) },
    )
}

#[verifier::opaque]
pub open spec fn install_awaited(v: ClientView, hash: Seq<char>) -> ClientView {
    ClientView { awaiting_pack: still_awaited(v.awaiting_pack, hash), ..v }.first(
        publish_works(ready_publications(v.awaiting_pack, hash), hash),
    )
}

/// Install a publication, unless it is.
#[verifier::opaque]
pub open spec fn publish(v: ClientView, p: PublicationView, pack: Option<Seq<char>>) -> ClientView {
    if v.replica.stage_of(p.sequence) == Some(PublicationStage::Complete) {
        ClientView {
            expected_head: p.descriptor.commit_oid,
            ..v.with_replica(ReplicaView { publication_sequence: p.sequence, ..v.replica })
        }
    } else {
        v.with_replica(v.replica.journaled(p, PublicationStage::Pending)).first(
            seq![WorkView::InstallObjects { publication: p, pack }],
        )
    }
}

/// Why installed objects are not what was announced, or `None`.
pub open spec fn objects_fault(p: PublicationView, present: bool, tree: Option<Seq<char>>) -> Option<ErrorView> {
    if !present {
        Some(
            plain(
                ErrorClass::IntegrityError,
                "The published commit "@ + oid_head(p.descriptor.commit_oid)
                    + " is missing after installing the host's Git objects."@,
            ),
        )
    } else if tree != Some(p.descriptor.tree_oid) {
        Some(
            plain(
                ErrorClass::IntegrityError,
                "The published commit does not carry the tree named in its descriptor."@,
            ),
        )
    } else {
        None
    }
}

/// The objects were verified before branch metadata is touched.
#[verifier::opaque]
pub open spec fn objects_installed(
    v: ClientView,
    p: PublicationView,
    present: bool,
    tree: Option<Seq<char>>,
) -> ClientView {
    match objects_fault(p, present, tree) {
        Some(e) => fail(v, e),
        None => v.with_replica(
            v.replica.journaled(p, PublicationStage::ObjectsInstalled),
        ).first(seq![WorkView::ReadRef { publication: p }]),
    }
}

/// Where the branch stands now.
#[verifier::opaque]
pub open spec fn ref_read(v: ClientView, p: PublicationView, current: Option<Seq<char>>) -> ClientView {
    if current == Some(p.descriptor.commit_oid) {
        ref_updated(v, p)
    } else {
        v.first(seq![WorkView::UpdateRef { publication: p }])
    }
}

/// The branch stands at the commit.
#[verifier::opaque]
pub open spec fn ref_updated(v: ClientView, p: PublicationView) -> ClientView {
    ClientView {
        expected_head: p.descriptor.commit_oid,
        ..v.with_replica(v.replica.journaled(p, PublicationStage::RefUpdated))
    }.first(seq![WorkView::ReadTree { publication: p }])
}

pub open spec fn installed_note(p: PublicationView) -> Seq<char> {
    "Git publication installed: "@ + oid_head(p.descriptor.commit_oid) + " ("@ + revision_form(
        p.descriptor.target_revision,
    ) + ")"@
}

/// The index stands at the tree: the publication is installed.
#[verifier::opaque]
pub open spec fn tree_read(v: ClientView, p: PublicationView) -> ClientView {
    v.with_replica(
        ReplicaView {
            publication_sequence: p.sequence,
            ..v.replica.journaled(p, PublicationStage::IndexUpdated).journaled(
                p,
                PublicationStage::Complete,
            )
        },
    ).note(installed_note(p))
}

/// The publications that did not get to their end.
pub open spec fn interrupted(r: ReplicaView) -> Seq<JournalView> {
    r.journal.filter(|j: JournalView| j.stage != PublicationStage::Complete)
}

/// Finish each of them, and say so once it is.
pub open spec fn repair_works(list: Seq<JournalView>) -> Seq<WorkView>
    decreases list.len(),
{
    if list.len() == 0 {
        Seq::empty()
    } else {
        let j = list.last();
        repair_works(list.drop_last()) + seq![
            WorkView::Publish { publication: j.publication, pack: None },
            WorkView::Repaired { publication: j.publication, stage: j.stage },
        ]
    }
}

pub open spec fn repair_line(p: PublicationView, stage: PublicationStage) -> Seq<char> {
    "resumed publication "@ + oid_head(p.descriptor.commit_oid) + " from stage "@ + stage.name()
}

/// Whether a repair is under way.
pub open spec fn repairing(list: Seq<WorkView>) -> bool {
    exists|i: int| 0 <= i < list.len() && (#[trigger] list[i]) is Repaired
}

// ---------------------------------------------------------------------------
// The Git guard and the clock
// ---------------------------------------------------------------------------

pub open spec fn client_git_problem(v: ClientView, g: GitFacts) -> Option<(Seq<char>, Seq<char>)> {
    git_problem(
        v.branch,
        v.expected_head,
        g,
        "Weave paused: Git state changed outside Weave."@,
        "Weave paused: the Git index changed outside Weave."@,
        "Weave owns all Git-writing operations during a session. Run `git reset` to unstage, or leave the session."@,
    )
}

/// A problem counts only when it is still there at the following check: a
/// publication moves the branch and the index one after the other, and looks
/// like a problem in between.
#[verifier::opaque]
pub open spec fn git_guard(v: ClientView, g: GitFacts, now_ms: i64) -> ClientView {
    match (client_git_problem(v, g), v.local_state) {
        (Some((reason, detail)), SyncView::Live) => if v.git_problem_pending {
            ClientView {
                git_problem_pending: false,
                local_state: SyncView::Paused { reason, detail },
                ..v
            }
        } else {
            ClientView { git_problem_pending: true, ..v }
        },
        (None, SyncView::Paused { .. }) => full_rescan(
            ClientView { git_problem_pending: false, local_state: SyncView::Live, ..v },
            now_ms,
        ),
        (None, _) => ClientView { git_problem_pending: false, ..v },
        _ => v,
    }
}

#[verifier::opaque]
pub open spec fn tick(v: ClientView, now_ms: i64) -> ClientView {
    let guard = now_ms - v.timers.git_check_ms >= CLIENT_GUARD_INTERVAL_MS;
    let timed = ClientView {
        timers: Timers {
            git_check_ms: if guard {
                now_ms
            } else {
                v.timers.git_check_ms
            },
            ..v.timers
        },
        ..v
    };
    let rest = seq![
        WorkView::TickRescan,
        WorkView::TickWatched,
        WorkView::TickRetry,
        WorkView::TickPresence,
        WorkView::TickHeartbeat,
        WorkView::TickCollect,
    ];
    if guard {
        timed.first(seq![WorkView::GitGuard] + rest)
    } else {
        timed.first(rest)
    }
}

#[verifier::opaque]
pub open spec fn tick_rescan(v: ClientView, now_ms: i64) -> ClientView {
    if now_ms - v.timers.rescan_ms >= SAFETY_RESCAN_MS {
        full_rescan(v, now_ms)
    } else {
        v
    }
}

pub open spec fn observed_paths(list: Seq<ObservationView>) -> Seq<Seq<char>> {
    list.map_values(|o: ObservationView| o.path)
}

pub open spec fn watched_works(paths: Seq<Seq<char>>) -> Seq<WorkView> {
    paths.map_values(|path: Seq<char>| WorkView::Visit { path, why: Why::Watched })
}

/// A file that was still being written is looked at again.
#[verifier::opaque]
pub open spec fn tick_watched(v: ClientView) -> ClientView {
    if v.unstable.len() == 0 || v.paused() {
        v
    } else {
        let paths = observed_paths(v.unstable);
        v.first(watched_works(paths) + seq![WorkView::AfterWatched { paths }])
    }
}

/// What settled may have been holding canonical content out of the tree.
#[verifier::opaque]
pub open spec fn after_watched(v: ClientView, paths: Seq<Seq<char>>) -> ClientView {
    if exists|i: int| 0 <= i < paths.len() && observed(v.unstable, #[trigger] paths[i]) is None {
        v.first(seq![WorkView::SyncTree])
    } else {
        v
    }
}

#[verifier::opaque]
pub open spec fn tick_retry(v: ClientView, now_ms: i64) -> ClientView {
    if now_ms - v.timers.retry_ms >= RETRY_INTERVAL_MS {
        ClientView { timers: Timers { retry_ms: now_ms, ..v.timers }, ..v }.first(
            if v.materialization_blocked {
                seq![
                    WorkView::Flush,
                    WorkView::ReportOversize,
                    WorkView::SyncTree,
                    WorkView::CheckBarrier,
                ]
            } else {
                seq![WorkView::Flush, WorkView::ReportOversize, WorkView::CheckBarrier]
            },
        )
    } else {
        v
    }
}

#[verifier::opaque]
pub open spec fn tick_presence(v: ClientView, now_ms: i64) -> ClientView {
    if v.connected && now_ms - v.timers.presence_ms >= PRESENCE_INTERVAL_MS {
        let told = ClientView {
            timers: Timers { presence_ms: now_ms, ..v.timers },
            ..v
        }.send(
            ClientMessageView::Presence {
                last_applied_revision: v.replica.last_applied_revision,
                active_task_id: my_task(v),
            },
        );
        if v.replica.has_manifest {
            told.send(
                ClientMessageView::ReplicaHash {
                    revision: v.replica.last_applied_revision,
                    hash: hash_of_rows(v.replica.manifest()),
                },
            )
        } else {
            told
        }
    } else {
        v
    }
}

#[verifier::opaque]
pub open spec fn tick_heartbeat(v: ClientView, now_ms: i64) -> ClientView {
    if v.connected && now_ms - v.timers.heartbeat_ms >= HEARTBEAT_INTERVAL_MS {
        let nonce = (v.heartbeat_nonce + 1) as u64;
        ClientView {
            timers: Timers { heartbeat_ms: now_ms, ..v.timers },
            heartbeat_nonce: nonce,
            ..v
        }.send(ClientMessageView::Ping { nonce })
    } else {
        v
    }
}

#[verifier::opaque]
pub open spec fn tick_collect(v: ClientView, now_ms: i64) -> ClientView {
    if now_ms - v.timers.gc_ms >= GC_INTERVAL_MS {
        ClientView { timers: Timers { gc_ms: now_ms, ..v.timers }, ..v }.effect(
            ClientEffectView::Collect,
        )
    } else {
        v
    }
}

// ---------------------------------------------------------------------------
// Connections
// ---------------------------------------------------------------------------

pub open spec fn resume_of(v: ClientView) -> ResumeView {
    ResumeView {
        last_applied_revision: v.replica.last_applied_revision,
        control_version: match v.replica.control {
            Some(c) => c.control_version,
            None => 0,
        },
        last_publication_sequence: v.replica.publication_sequence,
        pending_operation_ids: flight_ids(v.replica.states),
        replica_hash: hash_of_rows(v.replica.manifest()),
        has_manifest: v.replica.has_manifest,
    }
}

/// A connection: hello first, then the transfers again, then a rescan of what
/// was edited while nobody watched.
#[verifier::opaque]
pub open spec fn connected(v: ClientView, head: Seq<char>, now_ms: i64) -> ClientView {
    let hello = ClientView {
        attached: true,
        pumping: true,
        connected: true,
        connection_note: "online"@,
        ..v
    }.send(
        ClientMessageView::Hello {
            session_id: v.session.session_id,
            actor_id: v.actor_id,
            display_name: v.display_name,
            git_name: v.git_name,
            git_email: v.git_email,
            base_commit: head,
            branch: v.branch,
            resume: resume_of(v),
        },
    );
    let queued = full_rescan(hello.first(seq![WorkView::ForgetReport]), now_ms);
    let (traffic, e) = reconnect_rule(v.traffic);
    emit(ClientView { traffic, ..queued }, e)
}

/// The host's picture is rebuilt from this replica.
#[verifier::opaque]
pub open spec fn forget_report(v: ClientView) -> ClientView {
    sync_oversize_report(ClientView { reported_oversize: None, ..v })
}

/// Work that was not sent stays in the outbox; nothing is discarded.
#[verifier::opaque]
pub open spec fn disconnected(v: ClientView, reason: Seq<char>) -> ClientView {
    ClientView {
        connected: false,
        connection_note: reason,
        attached: false,
        pumping: false,
        ..v.with_replica(ReplicaView { states: unsent(v.replica.states), ..v.replica })
    }
}

/// One control message of a transfer.
#[verifier::opaque]
pub open spec fn blob_event(v: ClientView, blob: BlobView, free: Option<u64>, held: Held) -> ClientView {
    let (traffic, e) = control_rule(v.traffic, blob, free, held);
    emit(ClientView { traffic, ..v }, e)
}

/// One frame of content.
#[verifier::opaque]
pub open spec fn data_event(v: ClientView, frame: Seq<u8>) -> ClientView {
    let (traffic, e) = data_rule(v.traffic, frame);
    emit(ClientView { traffic, ..v }, e)
}

/// The connection cannot take any more.
pub open spec fn overflowed(v: ClientView) -> ClientView {
    ClientView {
        connected: false,
        connection_note: "outbound queue overflow"@,
        attached: false,
        ..v
    }
}

// ---------------------------------------------------------------------------
// Host messages
// ---------------------------------------------------------------------------

#[verifier::opaque]
pub open spec fn prepare_answer(p: PrepareView) -> AnswerView {
    match p {
        PrepareView::Prepared(prep) => AnswerView::Prepared(prep),
        PrepareView::Rejected(e) => AnswerView::Failed(e),
    }
}

#[verifier::opaque]
pub open spec fn commit_answer(c: CommitView) -> AnswerView {
    match c {
        CommitView::Published(p) => AnswerView::Published(p),
        CommitView::Rejected(e) => AnswerView::Failed(e),
    }
}

#[verifier::opaque]
pub open spec fn push_answer(status: PushStatus, message: Seq<char>) -> AnswerView {
    if status == PushStatus::Pushed {
        AnswerView::Pushed { message }
    } else {
        AnswerView::Failed(
            detailed(ErrorClass::GitError, message, "Push status: "@ + status.name()),
        )
    }
}

pub open spec fn after_manifest() -> Seq<WorkView> {
    seq![WorkView::Drain, WorkView::SyncTree, WorkView::Flush]
}

/// A manifest that fails its own hash is refused. Its rows are in their places
/// by then.
pub open spec fn manifest_ok(manifest: Seq<RowView>, hash: Seq<char>) -> bool {
    hash_of_rows(by_path(manifest)) == hash
}

/// The host took this replica in. A replica that was new until now is held to
/// the session's limit.
#[verifier::opaque]
pub open spec fn welcomed(
    v: ClientView,
    session: SessionView,
    revision: u64,
    manifest: Option<Seq<RowView>>,
    control: ControlView,
    hash: Seq<char>,
) -> ClientView {
    let met = ClientView {
        session,
        ..v.with_replica(ReplicaView { session: Some(session), ..v.replica })
    };
    if manifest matches Some(rows) && !manifest_ok(rows, hash) {
        fail(met, manifest_fault())
    } else {
        let queued = met.first(
            if !v.replica.has_manifest {
                seq![WorkView::VerifyJoin] + after_manifest()
            } else {
                after_manifest()
            },
        );
        let placed = match manifest {
            Some(rows) => apply_manifest(queued, revision, by_path(rows)),
            None => queued,
        };
        apply_control(placed, control)
    }
}

/// The canonical manifest came as a whole.
#[verifier::opaque]
pub open spec fn snapshot(v: ClientView, revision: u64, manifest: Seq<RowView>, hash: Seq<char>) -> ClientView {
    if manifest_ok(manifest, hash) {
        apply_manifest(v.first(after_manifest()), revision, by_path(manifest))
    } else {
        fail(v, manifest_fault())
    }
}

/// A barrier is over: what waited for it goes out.
#[verifier::opaque]
pub open spec fn barrier_ended(v: ClientView, barrier_id: Uuid) -> ClientView {
    match v.barrier {
        Some(b) => if b.barrier_id == barrier_id {
            flush_outbox(ClientView { barrier: None, ..v })
        } else {
            v
        },
        None => v,
    }
}

/// A message of the host other than a step of a transfer.
pub open spec fn host_message(v: ClientView, m: HostMessageView, now_ms: i64) -> ClientView {
    match m {
        HostMessageView::Welcome {
            session,
            snapshot_revision,
            manifest,
            control,
            host_state_hash,
            ..
        } => welcomed(v, session, snapshot_revision, manifest, control, host_state_hash),
        HostMessageView::ManifestSnapshot { snapshot_revision, manifest, host_state_hash } => {
            snapshot(v, snapshot_revision, manifest, host_state_hash)
        },
        HostMessageView::RevisionBroadcast { revision } => enqueue_revision(v, revision),
        HostMessageView::OperationResult { operation_id, outcome } => operation_result(
            v,
            operation_id,
            outcome,
        ),
        HostMessageView::Blob { .. } => v,
        HostMessageView::Control { control } => apply_control(v, control),
        HostMessageView::Presence { peers } => ClientView { peers, ..v },
        HostMessageView::BarrierStart { barrier_id } => full_rescan(
            v.first(seq![WorkView::Freeze { barrier_id }]),
            now_ms,
        ),
        HostMessageView::BarrierEnd { barrier_id } => barrier_ended(v, barrier_id),
        HostMessageView::Publication { publication, pack_hash } => on_publication(
            v,
            publication,
            pack_hash,
        ),
        HostMessageView::PrepareResult { request_id, outcome } => complete_request(
            v,
            request_id,
            prepare_answer(outcome),
        ),
        HostMessageView::CommitResult { request_id, outcome } => complete_request(
            v,
            request_id,
            commit_answer(outcome),
        ),
        HostMessageView::PushResult { request_id, status, message } => complete_request(
            v,
            request_id,
            push_answer(status, message),
        ),
        HostMessageView::Ack { request_id, note } => complete_request(
            v,
            request_id,
            AnswerView::Acknowledged { note },
        ),
        HostMessageView::Error { request_id, error } => match request_id {
            Some(id) => complete_request(v, id, AnswerView::Failed(error)),
            None => v.note(error.message),
        },
        HostMessageView::HostState { state } => ClientView { host_state: state, ..v },
        HostMessageView::Ping { nonce } => v.send(ClientMessageView::Pong { nonce }),
        HostMessageView::Pong { .. } => v,
        HostMessageView::Goodbye { reason } => ClientView {
            connected: false,
            connection_note: reason,
            ..v
        },
    }
}

// ---------------------------------------------------------------------------
// One step of work
// ---------------------------------------------------------------------------

/// What the outside hands back for the work at the head of the queue.
#[allow(inconsistent_fields)]
pub enum ReplyView {
    /// The work needs nothing from outside.
    Go,
    Listed { found: Seq<Seq<char>>, oversize: Seq<ReportView>, rejected: Seq<RejectedView> },
    Exists(bool),
    Meta(Option<FileMeta>),
    Entry(Option<EntryView>),
    Written,
    Objects { present: bool, tree: Option<Seq<char>> },
    Ref(Option<Seq<char>>),
    RefMoved,
    TreeRead,
    Merged(MergeView),
    Git(GitFacts),
    Ingested(Option<Ingested>),
    Failed(ErrorView),
}

pub open spec fn goes_in_tree(w: WorkView) -> bool {
    w is FindMissing || w is NoteIgnored || w is SyncTree || w is Materialize || w is Submit || w
        is Flush || w is FlushPath || w is CheckBarrier || w is ReportOversize || w is ForgetReport
        || w is Restore || w is RestoreAwaited || w is LimitChanged || w is Changed
}

/// Work on the tree and the outbox that needs nothing from outside.
pub open spec fn go_tree(p: ClientView, w: WorkView, now_ms: i64, fresh: Uuid) -> ClientView {
    match w {
        WorkView::FindMissing { seen } => p.first(
            missing_works(p.replica, paths_of(p.replica.states), seen),
        ),
        WorkView::NoteIgnored => note_ignored(p),
        WorkView::SyncTree => sync_working_tree(p),
        WorkView::Materialize { path } => materialize_if_safe(p, path),
        WorkView::Submit { path } => submit_path(p, path, now_ms),
        WorkView::Flush => flush_outbox(p),
        WorkView::FlushPath { path } => flush_path(p, path, now_ms, fresh),
        WorkView::CheckBarrier => check_barrier(p),
        WorkView::ReportOversize => sync_oversize_report(p),
        WorkView::ForgetReport => forget_report(p),
        WorkView::Restore { path } => restore(p, path),
        WorkView::RestoreAwaited => restore_awaited(p),
        WorkView::LimitChanged => limit_changed(p, now_ms),
        WorkView::Changed { raw } => changed(p, raw),
        _ => p,
    }
}

pub open spec fn goes_in_session(w: WorkView) -> bool {
    w is InstallAwaited || w is Publish || w is Rebase || w is Conflicted || w is Freeze || w
        is VerifyJoin || w is Drain || w is Applied || w is AfterWatched || w is AnswerRescan || w
        is Repaired
}

/// Work on the session that needs nothing from outside.
pub open spec fn go_session(p: ClientView, w: WorkView, fresh: Uuid) -> ClientView {
    match w {
        WorkView::InstallAwaited { hash } => install_awaited(p, hash),
        WorkView::Publish { publication, pack } => publish(p, publication, pack),
        WorkView::Rebase { path, base, canonical, pending } => rebase(
            p,
            path,
            base,
            canonical,
            pending,
            None,
            fresh,
        ),
        WorkView::Conflicted { path, conflict_id, in_barrier } => conflict_placed(
            p,
            path,
            conflict_id,
            in_barrier,
        ),
        WorkView::Freeze { barrier_id } => freeze(p, barrier_id),
        WorkView::VerifyJoin => verify_join(p),
        WorkView::Drain => drain(p),
        WorkView::Applied { revision } => p.with_replica(
            ReplicaView { last_applied_revision: revision, ..p.replica },
        ),
        WorkView::AfterWatched { paths } => after_watched(p, paths),
        WorkView::AnswerRescan { call } => p.answer(
            call,
            AnswerView::Rescanned { rejected: p.rejected },
        ),
        WorkView::Repaired { publication, stage } => p.effect(
            ClientEffectView::Repaired(repair_line(publication, stage)),
        ),
        _ => p,
    }
}

pub open spec fn goes_in_tick(w: WorkView) -> bool {
    w is TickRescan || w is TickWatched || w is TickRetry || w is TickPresence || w is TickHeartbeat
        || w is TickCollect
}

/// What is due at a time.
pub open spec fn go_tick(p: ClientView, w: WorkView, now_ms: i64) -> ClientView {
    match w {
        WorkView::TickRescan => tick_rescan(p, now_ms),
        WorkView::TickWatched => tick_watched(p),
        WorkView::TickRetry => tick_retry(p, now_ms),
        WorkView::TickPresence => tick_presence(p, now_ms),
        WorkView::TickHeartbeat => tick_heartbeat(p, now_ms),
        WorkView::TickCollect => tick_collect(p, now_ms),
        _ => p,
    }
}

/// Work that needs nothing from outside; anything else stays where it is.
#[verifier::opaque]
pub open spec fn go(v: ClientView, now_ms: i64, fresh: Uuid) -> ClientView {
    let w = v.todo[0];
    if goes_in_tree(w) {
        go_tree(popped(v), w, now_ms, fresh)
    } else if goes_in_session(w) {
        go_session(popped(v), w, fresh)
    } else if goes_in_tick(w) {
        go_tick(popped(v), w, now_ms)
    } else {
        v
    }
}

/// The work at the head of the queue failed.
#[verifier::opaque]
pub open spec fn work_failed(v: ClientView, e: ErrorView) -> ClientView {
    let p = popped(v);
    match v.todo[0] {
        WorkView::Read { path, why, .. } => read_failed(p, path, why, e),
        WorkView::Merge { canonical, .. } => merge_failed(p, canonical, e),
        WorkView::ResolveRead { call, .. } => p.answer(call, AnswerView::Failed(e)),
        WorkView::ResolveIngest { call, .. } => p.answer(call, AnswerView::Failed(e)),
        WorkView::Rescan => fail(p, e),
        WorkView::Write { .. } => fail(p, e),
        WorkView::InstallObjects { .. } => fail(p, e),
        WorkView::ReadRef { .. } => fail(p, e),
        WorkView::UpdateRef { .. } => fail(p, e),
        WorkView::ReadTree { .. } => fail(p, e),
        WorkView::GitGuard => fail(p, e),
        _ => v,
    }
}

/// Content that was taken in is here.
pub open spec fn with_content(v: ClientView, entry: Option<EntryView>) -> ClientView {
    match entry {
        Some(e) => ClientView { traffic: stored_rule(v.traffic, e.blob_hash, e.size), ..v },
        None => v,
    }
}

/// One step of work. An answer that does not belong to the work at the head of
/// the queue changes nothing.
pub open spec fn advance(
    v: ClientView,
    r: ReplyView,
    now_ms: i64,
    fresh: Uuid,
    second: Uuid,
) -> ClientView {
    if v.todo.len() == 0 {
        v
    } else {
        let p = popped(v);
        match (v.todo[0], r) {
            (_, ReplyView::Go) => go(v, now_ms, fresh),
            (_, ReplyView::Failed(e)) => work_failed(v, e),
            (WorkView::Rescan, ReplyView::Listed { found, oversize, rejected }) => scanned(
                p,
                found,
                oversize,
                rejected,
            ),
            (WorkView::Missing { path }, ReplyView::Exists(yes)) => missing(p, path, yes),
            (WorkView::Visit { path, why }, ReplyView::Meta(meta)) => visited(
                p,
                path,
                why,
                meta,
                now_ms,
            ),
            (WorkView::Read { path, why, frozen }, ReplyView::Entry(entry)) => read_done(
                p,
                path,
                why,
                frozen,
                entry,
                now_ms,
                fresh,
            ),
            (WorkView::Write { path, entry, purpose }, ReplyView::Written) => written(
                p,
                path,
                entry,
                purpose,
            ),
            (WorkView::InstallObjects { publication, .. }, ReplyView::Objects { present, tree }) => {
                objects_installed(p, publication, present, tree)
            },
            (WorkView::ReadRef { publication }, ReplyView::Ref(current)) => ref_read(
                p,
                publication,
                current,
            ),
            (WorkView::UpdateRef { publication }, ReplyView::RefMoved) => ref_updated(
                p,
                publication,
            ),
            (WorkView::ReadTree { publication }, ReplyView::TreeRead) => tree_read(p, publication),
            (WorkView::Merge { path, base, canonical, pending }, ReplyView::Merged(m)) => rebase(
                p,
                path,
                base,
                canonical,
                pending,
                Some(m),
                fresh,
            ),
            (WorkView::GitGuard, ReplyView::Git(g)) => git_guard(p, g, now_ms),
            (WorkView::ResolveRead { call, conflict }, ReplyView::Entry(entry)) => {
                crate::client_ipc::resolve_with(
                    with_content(p, entry),
                    call,
                    conflict,
                    entry,
                    fresh,
                    second,
                )
            },
            (WorkView::ResolveIngest { call, conflict, file }, ReplyView::Ingested(i)) => {
                match crate::client_ipc::supplied_entry(conflict, file, i) {
                    Err(e) => p.answer(call, AnswerView::Failed(e)),
                    Ok(entry) => crate::client_ipc::resolve_with(
                        with_content(p, Some(entry)),
                        call,
                        conflict,
                        Some(entry),
                        fresh,
                        second,
                    ),
                }
            },
            _ => v,
        }
    }
}

} // verus!
