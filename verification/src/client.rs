//! The participant replica engine.
//!
//! One synchronous state machine per machine. The host runs one of these too,
//! so its own edits follow the identical path.

use vstd::prelude::*;

use crate::blobs::{BlobStore, Listed};
use crate::client_blobs::{fresh_traffic, BlobTraffic, PumpJob};
use crate::client_ipc::{ConflictDetail, Overlap, Status};
use crate::client_rules::{
    active_task_in, call_of, client_room, complete_request, my_task, without_request, AnswerView,
    AwaitedView, BarrierLocal, ClientEffectView, ClientView, Frozen, Observation, ObservationView,
    PendingRequest, Purpose, ReplyView, Timers, Why, WorkView, MAX_NOTICES,
};
use crate::error::WeaveError;
use crate::gitx::MergeOutcome;
use crate::host::GitState;
use crate::host_rules::Applied;
use crate::model::{
    entry_view, CommitPreparation, Conflict, FileEntry, GitPublication, Ingested, PeerInfo,
    PeerView, PublicationStage, Revision, RevisionView, Role, SyncState, SyncView, Task, TaskStatus,
    DEFAULT_MAX_FILE_SIZE,
};
use crate::path::RepoPath;
use crate::proto::{ClientMessage, ControlSnapshot, OversizeReport, ReportView, SessionInfo};
use crate::reconcile::merge_view;
use crate::scan::{FileMeta, RejectedPath, RejectedView};
use crate::store_client::{ClientStore, PathState, PendingLocal};
use crate::text::{lemma_texts_push, lemma_views_push, listed, opt_view, same_text, texts, views};
use crate::util::Uuid;

verus! {

// ---------------------------------------------------------------------------
// State
// ---------------------------------------------------------------------------

/// A publication whose pack is still travelling.
#[derive(Debug)]
pub struct Awaited {
    pub hash: String,
    pub publication: GitPublication,
}

impl View for Awaited {
    type V = AwaitedView;

    open spec fn view(&self) -> AwaitedView {
        AwaitedView { hash: self.hash@, publication: self.publication@ }
    }
}

/// The base of a change that was frozen while the file was being written.
#[derive(Debug)]
pub struct FrozenBase {
    pub revision: u64,
    pub entry: Option<FileEntry>,
}

pub open spec fn frozen_view(f: Option<FrozenBase>) -> Frozen {
    match f {
        Some(b) => Some((b.revision, entry_view(b.entry))),
        None => None,
    }
}

/// A piece of work.
#[allow(inconsistent_fields)]
#[derive(Debug)]
pub enum Work {
    Rescan,
    FindMissing { seen: Vec<RepoPath> },
    Missing { path: RepoPath },
    NoteIgnored,
    SyncTree,
    Materialize { path: RepoPath },
    Visit { path: RepoPath, why: Why },
    Read { path: RepoPath, why: Why, frozen: Option<FrozenBase> },
    Write { path: RepoPath, entry: Option<FileEntry>, purpose: Purpose },
    Submit { path: RepoPath },
    Flush,
    FlushPath { path: RepoPath },
    CheckBarrier,
    ReportOversize,
    ForgetReport,
    Restore { path: RepoPath },
    RestoreAwaited,
    InstallAwaited { hash: String },
    Publish { publication: GitPublication, pack: Option<String> },
    InstallObjects { publication: GitPublication, pack: Option<String> },
    ReadRef { publication: GitPublication },
    UpdateRef { publication: GitPublication },
    ReadTree { publication: GitPublication },
    Rebase {
        path: RepoPath,
        base: Option<FileEntry>,
        canonical: Option<FileEntry>,
        pending: PendingLocal,
    },
    Merge {
        path: RepoPath,
        base: Option<FileEntry>,
        canonical: Option<FileEntry>,
        pending: PendingLocal,
    },
    Conflicted { path: RepoPath, conflict_id: Uuid, in_barrier: bool },
    LimitChanged,
    Changed { raw: String },
    Freeze { barrier_id: Uuid },
    VerifyJoin,
    Drain,
    Applied { revision: u64 },
    AfterWatched { paths: Vec<RepoPath> },
    GitGuard,
    TickRescan,
    TickWatched,
    TickRetry,
    TickPresence,
    TickHeartbeat,
    TickCollect,
    Repaired { publication: GitPublication, stage: PublicationStage },
    AnswerRescan { call: u64 },
    ResolveRead { call: u64, conflict: Conflict },
    ResolveIngest { call: u64, conflict: Conflict, file: String },
}

impl View for Work {
    type V = WorkView;

    open spec fn view(&self) -> WorkView {
        match *self {
            Work::Rescan => WorkView::Rescan,
            Work::FindMissing { seen } => WorkView::FindMissing { seen: views(seen@) },
            Work::Missing { path } => WorkView::Missing { path: path@ },
            Work::NoteIgnored => WorkView::NoteIgnored,
            Work::SyncTree => WorkView::SyncTree,
            Work::Materialize { path } => WorkView::Materialize { path: path@ },
            Work::Visit { path, why } => WorkView::Visit { path: path@, why },
            Work::Read { path, why, frozen } => WorkView::Read {
                path: path@,
                why,
                frozen: frozen_view(frozen),
            },
            Work::Write { path, entry, purpose } => WorkView::Write {
                path: path@,
                entry: entry_view(entry),
                purpose,
            },
            Work::Submit { path } => WorkView::Submit { path: path@ },
            Work::Flush => WorkView::Flush,
            Work::FlushPath { path } => WorkView::FlushPath { path: path@ },
            Work::CheckBarrier => WorkView::CheckBarrier,
            Work::ReportOversize => WorkView::ReportOversize,
            Work::ForgetReport => WorkView::ForgetReport,
            Work::Restore { path } => WorkView::Restore { path: path@ },
            Work::RestoreAwaited => WorkView::RestoreAwaited,
            Work::InstallAwaited { hash } => WorkView::InstallAwaited { hash: hash@ },
            Work::Publish { publication, pack } => WorkView::Publish {
                publication: publication@,
                pack: opt_view(pack),
            },
            Work::InstallObjects { publication, pack } => WorkView::InstallObjects {
                publication: publication@,
                pack: opt_view(pack),
            },
            Work::ReadRef { publication } => WorkView::ReadRef { publication: publication@ },
            Work::UpdateRef { publication } => WorkView::UpdateRef { publication: publication@ },
            Work::ReadTree { publication } => WorkView::ReadTree { publication: publication@ },
            Work::Rebase { path, base, canonical, pending } => WorkView::Rebase {
                path: path@,
                base: entry_view(base),
                canonical: entry_view(canonical),
                pending: pending@,
            },
            Work::Merge { path, base, canonical, pending } => WorkView::Merge {
                path: path@,
                base: entry_view(base),
                canonical: entry_view(canonical),
                pending: pending@,
            },
            Work::Conflicted { path, conflict_id, in_barrier } => WorkView::Conflicted {
                path: path@,
                conflict_id,
                in_barrier,
            },
            Work::LimitChanged => WorkView::LimitChanged,
            Work::Changed { raw } => WorkView::Changed { raw: raw@ },
            Work::Freeze { barrier_id } => WorkView::Freeze { barrier_id },
            Work::VerifyJoin => WorkView::VerifyJoin,
            Work::Drain => WorkView::Drain,
            Work::Applied { revision } => WorkView::Applied { revision },
            Work::AfterWatched { paths } => WorkView::AfterWatched { paths: views(paths@) },
            Work::GitGuard => WorkView::GitGuard,
            Work::TickRescan => WorkView::TickRescan,
            Work::TickWatched => WorkView::TickWatched,
            Work::TickRetry => WorkView::TickRetry,
            Work::TickPresence => WorkView::TickPresence,
            Work::TickHeartbeat => WorkView::TickHeartbeat,
            Work::TickCollect => WorkView::TickCollect,
            Work::Repaired { publication, stage } => WorkView::Repaired {
                publication: publication@,
                stage,
            },
            Work::AnswerRescan { call } => WorkView::AnswerRescan { call },
            Work::ResolveRead { call, conflict } => WorkView::ResolveRead {
                call,
                conflict: conflict@,
            },
            Work::ResolveIngest { call, conflict, file } => WorkView::ResolveIngest {
                call,
                conflict: conflict@,
                file: file@,
            },
        }
    }
}

/// The answer to a command.
#[allow(inconsistent_fields)]
#[derive(Debug)]
pub enum Answer {
    Failed(WeaveError),
    Prepared(Box<CommitPreparation>),
    Published(Box<GitPublication>),
    Pushed { message: String },
    Acknowledged { note: Option<String> },
    Rescanned { rejected: Vec<RejectedPath> },
    Peers { peers: Vec<PeerInfo> },
    Tasks { tasks: Vec<Task>, active: Option<Uuid> },
    Task { task: Box<Task>, overlaps: Vec<Overlap> },
    Conflicts { conflicts: Vec<Conflict>, open: usize },
    Conflict(Box<ConflictDetail>),
    Status(Box<Status>),
}

impl View for Answer {
    type V = AnswerView;

    open spec fn view(&self) -> AnswerView {
        match *self {
            Answer::Failed(e) => AnswerView::Failed(e@),
            Answer::Prepared(p) => AnswerView::Prepared((*p)@),
            Answer::Published(p) => AnswerView::Published((*p)@),
            Answer::Pushed { message } => AnswerView::Pushed { message: message@ },
            Answer::Acknowledged { note } => AnswerView::Acknowledged { note: opt_view(note) },
            Answer::Rescanned { rejected } => AnswerView::Rescanned { rejected: views(rejected@) },
            Answer::Peers { peers } => AnswerView::Peers { peers: views(peers@) },
            Answer::Tasks { tasks, active } => AnswerView::Tasks { tasks: views(tasks@), active },
            Answer::Task { task, overlaps } => AnswerView::Task {
                task: (*task)@,
                overlaps: views(overlaps@),
            },
            Answer::Conflicts { conflicts, open } => AnswerView::Conflicts {
                conflicts: views(conflicts@),
                open: open as nat,
            },
            Answer::Conflict(d) => AnswerView::Conflict((*d)@),
            Answer::Status(s) => AnswerView::Status((*s)@),
        }
    }
}

/// Something the program around the replica has to do.
#[allow(inconsistent_fields)]
pub enum ClientEffect {
    Send(ClientMessage),
    Stream(PumpJob),
    /// Store merged content, before the next piece of work: that may need it.
    Install { hash: String, bytes: Vec<u8> },
    Answer { call: u64, answer: Answer },
    Exit(WeaveError),
    Collect,
    Repaired(String),
}

impl View for ClientEffect {
    type V = ClientEffectView;

    open spec fn view(&self) -> ClientEffectView {
        match *self {
            ClientEffect::Send(m) => ClientEffectView::Send(m@),
            ClientEffect::Stream(j) => ClientEffectView::Stream(j@),
            ClientEffect::Install { hash, bytes } => ClientEffectView::Install {
                hash: hash@,
                bytes: bytes@,
            },
            ClientEffect::Answer { call, answer } => ClientEffectView::Answer {
                call,
                answer: answer@,
            },
            ClientEffect::Exit(e) => ClientEffectView::Exit(e@),
            ClientEffect::Collect => ClientEffectView::Collect,
            ClientEffect::Repaired(line) => ClientEffectView::Repaired(line@),
        }
    }
}

/// What the outside hands back for the work at the head of the queue.
#[allow(inconsistent_fields)]
pub enum Reply {
    Go,
    Listed { found: Vec<RepoPath>, oversize: Vec<OversizeReport>, rejected: Vec<RejectedPath> },
    Exists(bool),
    Meta(Option<FileMeta>),
    Entry(Option<FileEntry>),
    Written,
    Objects { present: bool, tree: Option<String> },
    Ref(Option<String>),
    RefMoved,
    TreeRead,
    Merged(MergeOutcome),
    Git(GitState),
    Ingested(Option<Ingested>),
    Failed(WeaveError),
}

impl View for Reply {
    type V = ReplyView;

    open spec fn view(&self) -> ReplyView {
        match *self {
            Reply::Go => ReplyView::Go,
            Reply::Listed { found, oversize, rejected } => ReplyView::Listed {
                found: views(found@),
                oversize: views(oversize@),
                rejected: views(rejected@),
            },
            Reply::Exists(yes) => ReplyView::Exists(yes),
            Reply::Meta(m) => ReplyView::Meta(m),
            Reply::Entry(e) => ReplyView::Entry(entry_view(e)),
            Reply::Written => ReplyView::Written,
            Reply::Objects { present, tree } => ReplyView::Objects {
                present,
                tree: opt_view(tree),
            },
            Reply::Ref(r) => ReplyView::Ref(opt_view(r)),
            Reply::RefMoved => ReplyView::RefMoved,
            Reply::TreeRead => ReplyView::TreeRead,
            Reply::Merged(m) => ReplyView::Merged(merge_view(Some(m))->0),
            Reply::Git(g) => ReplyView::Git(g@),
            Reply::Ingested(i) => ReplyView::Ingested(i),
            Reply::Failed(e) => ReplyView::Failed(e@),
        }
    }
}

/// Who a replica belongs to, and the session it is part of.
pub struct Identity {
    pub actor_id: Uuid,
    pub display_name: String,
    pub git_name: String,
    pub git_email: String,
    pub role: Role,
    pub session: SessionInfo,
    pub branch: String,
}

pub struct ClientEngine {
    pub(crate) store: ClientStore,
    pub(crate) traffic: BlobTraffic,
    pub(crate) id: Identity,
    pub(crate) expected_head: String,
    pub(crate) attached: bool,
    pub(crate) pumping: bool,
    pub(crate) connected: bool,
    pub(crate) connection_note: String,
    pub(crate) control: Option<ControlSnapshot>,
    pub(crate) peers: Vec<PeerInfo>,
    pub(crate) host_state: SyncState,
    pub(crate) local_state: SyncState,
    pub(crate) pending_revisions: Vec<Revision>,
    pub(crate) barrier: Option<BarrierLocal>,
    pub(crate) requests: Vec<PendingRequest>,
    pub(crate) awaiting_pack: Vec<Awaited>,
    pub(crate) awaiting_restore: Vec<RepoPath>,
    pub(crate) rejected: Vec<RejectedPath>,
    pub(crate) notices: Vec<String>,
    pub(crate) ignored: Vec<String>,
    pub(crate) unstable: Vec<Observation>,
    pub(crate) max_file_size: u64,
    pub(crate) reported_oversize: Option<Vec<OversizeReport>>,
    pub(crate) may_exit: bool,
    pub(crate) timers: Timers,
    pub(crate) heartbeat_nonce: u64,
    pub(crate) git_problem_pending: bool,
    pub(crate) materialization_blocked: bool,
    pub(crate) shutdown: bool,
    pub(crate) todo: Vec<Work>,
    pub(crate) outbox: Vec<ClientEffect>,
}

pub open spec fn reports_view(r: Option<Vec<OversizeReport>>) -> Option<Seq<ReportView>> {
    match r {
        Some(list) => Some(views(list@)),
        None => None,
    }
}

impl View for ClientEngine {
    type V = ClientView;

    open(crate) spec fn view(&self) -> ClientView {
        ClientView {
            replica: self.store@,
            traffic: self.traffic@,
            actor_id: self.id.actor_id,
            display_name: self.id.display_name@,
            git_name: self.id.git_name@,
            git_email: self.id.git_email@,
            role: self.id.role,
            session: self.id.session@,
            branch: self.id.branch@,
            expected_head: self.expected_head@,
            attached: self.attached,
            pumping: self.pumping,
            connected: self.connected,
            connection_note: self.connection_note@,
            control: opt_view(self.control),
            peers: views(self.peers@),
            host_state: self.host_state@,
            local_state: self.local_state@,
            pending_revisions: views(self.pending_revisions@),
            barrier: self.barrier,
            requests: self.requests@,
            awaiting_pack: views(self.awaiting_pack@),
            awaiting_restore: views(self.awaiting_restore@),
            rejected: views(self.rejected@),
            notices: texts(self.notices@),
            ignored: texts(self.ignored@),
            unstable: views(self.unstable@),
            max_file_size: self.max_file_size,
            reported_oversize: reports_view(self.reported_oversize),
            may_exit: self.may_exit,
            timers: self.timers,
            heartbeat_nonce: self.heartbeat_nonce,
            git_problem_pending: self.git_problem_pending,
            materialization_blocked: self.materialization_blocked,
            shutdown: self.shutdown,
            todo: views(self.todo@),
            outbox: views(self.outbox@),
        }
    }
}

// ---------------------------------------------------------------------------
// Small steps
// ---------------------------------------------------------------------------

impl ClientEngine {
    pub open(crate) spec fn wf(&self) -> bool {
        self.traffic.wf()
    }

    /// A replica that has not met the host yet. `now_ms` starts the clock of
    /// the sweep, so that the first one waits until it is known what to keep.
    pub fn new(
        store: ClientStore,
        blobs: BlobStore,
        id: Identity,
        expected_head: String,
        may_exit: bool,
        now_ms: i64,
    ) -> (e: ClientEngine)
        requires
            blobs.wf(),
        ensures
            e.wf(),
            e@ == (ClientView {
                replica: store@,
                traffic: fresh_traffic(blobs),
                actor_id: id.actor_id,
                display_name: id.display_name@,
                git_name: id.git_name@,
                git_email: id.git_email@,
                role: id.role,
                session: id.session@,
                branch: id.branch@,
                expected_head: expected_head@,
                attached: false,
                pumping: false,
                connected: false,
                connection_note: "connecting"@,
                control: None,
                peers: Seq::empty(),
                host_state: SyncView::Live,
                local_state: SyncView::Live,
                pending_revisions: Seq::empty(),
                barrier: None,
                requests: Seq::empty(),
                awaiting_pack: Seq::empty(),
                awaiting_restore: Seq::empty(),
                rejected: Seq::empty(),
                notices: Seq::empty(),
                ignored: Seq::empty(),
                unstable: Seq::empty(),
                max_file_size: match store@.control {
                    Some(c) => c.max_file_size,
                    None => DEFAULT_MAX_FILE_SIZE,
                },
                reported_oversize: None,
                may_exit,
                timers: Timers {
                    rescan_ms: 0,
                    presence_ms: 0,
                    heartbeat_ms: 0,
                    git_check_ms: 0,
                    retry_ms: 0,
                    gc_ms: now_ms,
                },
                heartbeat_nonce: 0,
                git_problem_pending: false,
                materialization_blocked: false,
                shutdown: false,
                todo: Seq::empty(),
                outbox: Seq::empty(),
            }),
    {
        let max_file_size: u64 = match store.control_cache() {
            Some(c) => c.max_file_size,
            None => DEFAULT_MAX_FILE_SIZE,
        };
        let e = ClientEngine {
            store,
            traffic: BlobTraffic::new(blobs),
            id,
            expected_head,
            attached: false,
            pumping: false,
            connected: false,
            connection_note: "connecting".to_owned(),
            control: None,
            peers: Vec::new(),
            host_state: SyncState::Live,
            local_state: SyncState::Live,
            pending_revisions: Vec::new(),
            barrier: None,
            requests: Vec::new(),
            awaiting_pack: Vec::new(),
            awaiting_restore: Vec::new(),
            rejected: Vec::new(),
            notices: Vec::new(),
            ignored: Vec::new(),
            unstable: Vec::new(),
            max_file_size,
            reported_oversize: None,
            may_exit,
            timers: Timers {
                rescan_ms: 0,
                presence_ms: 0,
                heartbeat_ms: 0,
                git_check_ms: 0,
                retry_ms: 0,
                gc_ms: now_ms,
            },
            heartbeat_nonce: 0,
            git_problem_pending: false,
            materialization_blocked: false,
            shutdown: false,
            todo: Vec::new(),
            outbox: Vec::new(),
        };
        proof {
            assert(e@.peers =~= Seq::<PeerView>::empty());
            assert(e@.pending_revisions =~= Seq::<RevisionView>::empty());
            assert(e@.awaiting_pack =~= Seq::<AwaitedView>::empty());
            assert(e@.awaiting_restore =~= Seq::<Seq<char>>::empty());
            assert(e@.rejected =~= Seq::<RejectedView>::empty());
            assert(e@.notices =~= Seq::<Seq<char>>::empty());
            assert(e@.ignored =~= Seq::<Seq<char>>::empty());
            assert(e@.unstable =~= Seq::<ObservationView>::empty());
            assert(e@.todo =~= Seq::<WorkView>::empty());
            assert(e@.outbox =~= Seq::<ClientEffectView>::empty());
        }
        e
    }

    /// Everything queued for the outside so far, oldest first.
    pub fn take_effects(&mut self) -> (list: Vec<ClientEffect>)
        requires
            old(self).wf(),
        ensures
            final(self).wf(),
            views(list@) == old(self)@.outbox,
            final(self)@ == (ClientView { outbox: Seq::empty(), ..old(self)@ }),
    {
        let mut list: Vec<ClientEffect> = Vec::new();
        std::mem::swap(&mut list, &mut self.outbox);
        proof {
            assert(views(self.outbox@) =~= Seq::<ClientEffectView>::empty());
        }
        list
    }

    /// Whether numbers are left for one more step.
    pub fn has_room(&self) -> (yes: bool)
        ensures
            yes == client_room(self@),
    {
        self.traffic.has_ids() && self.store.local_seq() < u64::MAX
            && self.store.last_applied_revision() < u64::MAX && self.heartbeat_nonce < u64::MAX
    }

    /// The size above which a file stays where it is.
    pub fn file_limit(&self) -> (limit: u64)
        ensures
            limit == self@.max_file_size,
    {
        self.max_file_size
    }

    /// What this replica knows.
    pub fn store(&self) -> (s: &ClientStore)
        ensures
            s@ == self@.replica,
    {
        &self.store
    }

    /// The work at the head of the queue.
    pub fn head(&self) -> (w: Option<&Work>)
        ensures
            match w {
                Some(x) => self@.todo.len() > 0 && self@.todo[0] == x@,
                None => self@.todo.len() == 0,
            },
    {
        if self.todo.len() > 0 {
            Some(&self.todo[0])
        } else {
            None
        }
    }

    /// Whether the session has to end.
    pub fn is_over(&self) -> (yes: bool)
        ensures
            yes == self@.shutdown,
    {
        self.shutdown
    }

    pub(crate) fn effect(&mut self, e: ClientEffect)
        requires
            old(self).wf(),
        ensures
            final(self).wf(),
            final(self)@ == old(self)@.effect(e@),
    {
        let ghost before = self.outbox@;
        self.outbox.push(e);
        proof {
            lemma_views_push(before, e);
        }
    }

    pub(crate) fn send(&mut self, m: ClientMessage)
        requires
            old(self).wf(),
        ensures
            final(self).wf(),
            final(self)@ == old(self)@.send(m@),
    {
        if self.attached {
            self.effect(ClientEffect::Send(m));
        }
    }

    pub(crate) fn answer(&mut self, call: u64, answer: Answer)
        requires
            old(self).wf(),
        ensures
            final(self).wf(),
            final(self)@ == old(self)@.answer(call, answer@),
    {
        self.effect(ClientEffect::Answer { call, answer });
    }

    pub(crate) fn first(&mut self, list: Vec<Work>)
        requires
            old(self).wf(),
        ensures
            final(self).wf(),
            final(self)@ == old(self)@.first(views(list@)),
    {
        let ghost before = self.todo@;
        let ghost works = list@;
        let mut list = list;
        list.append(&mut self.todo);
        self.todo = list;
        proof {
            assert(views(self.todo@) =~= views(works) + views(before));
        }
    }

    pub(crate) fn first_one(&mut self, w: Work)
        requires
            old(self).wf(),
        ensures
            final(self).wf(),
            final(self)@ == old(self)@.first(seq![w@]),
    {
        let mut list: Vec<Work> = Vec::new();
        list.push(w);
        proof {
            assert(views(list@) =~= seq![w@]);
        }
        self.first(list);
    }

    pub(crate) fn put_state(&mut self, path: &RepoPath, state: PathState)
        requires
            old(self).wf(),
        ensures
            final(self).wf(),
            final(self)@ == old(self)@.with_state(path@, state@),
    {
        self.store.put_path_state(path, state);
    }

    pub(crate) fn note(&mut self, text: String)
        requires
            old(self).wf(),
        ensures
            final(self).wf(),
            final(self)@ == old(self)@.note(text@),
    {
        if !listed(&self.notices, text.as_str()) {
            let ghost before = self.notices@;
            self.notices.push(text);
            proof {
                lemma_texts_push(before, text);
                assert(texts(self.notices@).len() == self.notices@.len());
            }
            if self.notices.len() > MAX_NOTICES {
                let ghost all = self.notices@;
                let _ = self.notices.remove(0);
                proof {
                    assert(texts(self.notices@) =~= texts(all).drop_first());
                }
            }
        }
    }

    pub(crate) fn note_rejected(&mut self, path: &str, reason: &str)
        requires
            old(self).wf(),
        ensures
            final(self).wf(),
            final(self)@ == old(self)@.note_rejected(path@, reason@),
    {
        let mut i: usize = 0;
        while i < self.rejected.len()
            invariant
                *self == *old(self),
                self.wf(),
                i <= self.rejected@.len(),
                forall|k: int|
                    0 <= k < i ==> (#[trigger] views(self.rejected@)[k]).path != path@,
            decreases self.rejected@.len() - i,
        {
            if same_text(self.rejected[i].path.as_str(), path) {
                proof {
                    assert(views(self.rejected@)[i as int].path == path@);
                }
                return;
            }
            i = i + 1;
        }
        let ghost before = self.rejected@;
        let r = RejectedPath { path: path.to_owned(), reason: reason.to_owned() };
        self.rejected.push(r);
        proof {
            lemma_views_push(before, r);
        }
    }

    pub(crate) fn paused(&self) -> (yes: bool)
        ensures
            yes == self@.paused(),
    {
        !self.local_state.is_live()
    }

    pub(crate) fn degrade(&mut self, reason: &str)
        requires
            old(self).wf(),
        ensures
            final(self).wf(),
            final(self)@ == old(self)@.degraded(reason@),
    {
        self.local_state = SyncState::Degraded { reason: reason.to_owned() };
    }

    /// True while anything this replica needs is still in transit.
    pub fn waiting_for_content(&self) -> (yes: bool)
        ensures
            yes == self@.waiting_for_content(),
    {
        proof {
            assert(views(self.awaiting_pack@).len() == self.awaiting_pack@.len());
            assert(views(self.awaiting_restore@).len() == self.awaiting_restore@.len());
        }
        self.materialization_blocked || self.traffic.waiting_for_content()
            || self.awaiting_pack.len() > 0 || self.awaiting_restore.len() > 0
    }

    pub(crate) fn complete_request(&mut self, request_id: Uuid, answer: Answer)
        requires
            old(self).wf(),
        ensures
            final(self).wf(),
            final(self)@ == complete_request(old(self)@, request_id, answer@),
    {
        proof {
            reveal(complete_request);
        }
        let ghost all = self.requests@;
        let mut i: usize = 0;
        proof {
            assert(all.skip(0) =~= all);
            assert(all.take(0) + without_request(all.skip(0), request_id) =~= without_request(
                all,
                request_id,
            ));
        }
        while i < self.requests.len()
            invariant
                self@ == old(self)@,
                self.wf(),
                all == self.requests@,
                i <= all.len(),
                call_of(all, request_id) == call_of(all.skip(i as int), request_id),
                without_request(all, request_id) == all.take(i as int) + without_request(
                    all.skip(i as int),
                    request_id,
                ),
            decreases all.len() - i,
        {
            proof {
                reveal(complete_request);
                assert(all.skip(i as int)[0] == all[i as int]);
                assert(all.skip(i as int).drop_first() =~= all.skip(i + 1));
            }
            if self.requests[i].request_id == request_id {
                let call = self.requests[i].call;
                let _ = self.requests.remove(i);
                proof {
                    assert(self.requests@ =~= all.take(i as int) + all.skip(i + 1));
                }
                self.answer(call, answer);
                return;
            }
            proof {
                assert(all.take(i + 1) + without_request(all.skip(i + 1), request_id) =~= all.take(
                    i as int,
                ) + (seq![all[i as int]] + without_request(all.skip(i + 1), request_id)));
            }
            i = i + 1;
        }
    }

    /// The first active task of this participant.
    pub(crate) fn my_active_task(&self) -> (t: Option<&Task>)
        ensures
            match t {
                Some(x) => self@.control is Some && active_task_in(
                    self@.control->0.tasks,
                    self@.actor_id,
                ) == Some(x@),
                None => self@.control is None || active_task_in(
                    self@.control->0.tasks,
                    self@.actor_id,
                ) is None,
            },
    {
        match &self.control {
            None => None,
            Some(c) => {
                let ghost all = views(c.tasks@);
                let ghost me = self.id.actor_id;
                let mut i: usize = 0;
                proof {
                    assert(all.skip(0) =~= all);
                }
                while i < c.tasks.len()
                    invariant
                        all == views(c.tasks@),
                        me == self.id.actor_id,
                        self.control matches Some(x) && x@.tasks == all,
                        i <= c.tasks@.len(),
                        active_task_in(all, me) == active_task_in(all.skip(i as int), me),
                    decreases c.tasks@.len() - i,
                {
                    proof {
                        assert(all.skip(i as int)[0] == c.tasks@[i as int]@);
                        assert(all.skip(i as int).drop_first() =~= all.skip(i + 1));
                    }
                    if c.tasks[i].actor_id == self.id.actor_id && c.tasks[i].status
                        == TaskStatus::Active {
                        return Some(&c.tasks[i]);
                    }
                    i = i + 1;
                }
                None
            },
        }
    }

    pub(crate) fn my_task_id(&self) -> (t: Option<Uuid>)
        ensures
            t == my_task(self@),
    {
        match self.my_active_task() {
            Some(t) => Some(t.id),
            None => None,
        }
    }
}

} // verus!
