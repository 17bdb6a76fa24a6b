//! The replica: the Git guard, the clock, the connection and the host's messages.

use vstd::prelude::*;

use crate::store_host::place_rows;
use crate::client::{Answer, ClientEffect, ClientEngine, Work};
use crate::client_blobs::{ids_left, DiskFacts};
use crate::client_content::works_of_visit;
use crate::client_rules::{
    after_manifest, after_watched, barrier_ended, blob_event, commit_answer, complete_request,
    connected, data_event, disconnected, fail, flush_outbox, forget_report, full_rescan, git_guard,
    host_message, manifest_fault, observed, observed_paths, overflowed, prepare_answer, push_answer,
    resume_of, snapshot, tick, tick_collect, tick_heartbeat, tick_presence, tick_rescan, tick_retry,
    tick_watched, watched_works, welcomed, Why, WorkView, CLIENT_GUARD_INTERVAL_MS, GC_INTERVAL_MS,
    HEARTBEAT_INTERVAL_MS, PRESENCE_INTERVAL_MS, RETRY_INTERVAL_MS, SAFETY_RESCAN_MS,
};
use crate::error::{git as git_err, integrity, WeaveError};
use crate::host::{find_git_problem, GitState};
use crate::model::{PushStatus, SyncState};
use crate::path::RepoPath;
use crate::proto::{
    rows, state_hash, BlobControl, ClientMessage, ClientResumeState, CommitOutcome, ControlSnapshot,
    HostMessage, HostMessageView, ManifestEntry, PrepareOutcome, SessionInfo,
};
use crate::store_client::locate;
use crate::text::{opt_view, same_text, views};
use crate::util::Uuid;

verus! {

impl ClientEngine {
    // ------------------------------------------------- the guard and the clock

    /// Detect Git state mutated outside Weave.
    pub(crate) fn git_guard(&mut self, g: &GitState, now_ms: i64)
        requires
            old(self).wf(),
        ensures
            final(self).wf(),
            final(self)@ == git_guard(old(self)@, g@, now_ms),
    {
        proof {
            reveal(git_guard);
        }
        let problem = find_git_problem(
            self.id.branch.as_str(),
            self.expected_head.as_str(),
            g,
            "Weave paused: Git state changed outside Weave.",
            "Weave paused: the Git index changed outside Weave.",
            "Weave owns all Git-writing operations during a session. Run `git reset` to unstage, or leave the session.",
        );
        let paused = match &self.local_state {
            SyncState::Paused { .. } => true,
            _ => false,
        };
        match problem {
            Some((reason, detail)) => {
                if self.local_state.is_live() {
                    if self.git_problem_pending {
                        self.git_problem_pending = false;
                        self.local_state = SyncState::Paused { reason, detail };
                    } else {
                        self.git_problem_pending = true;
                    }
                }
            },
            None => {
                self.git_problem_pending = false;
                if paused {
                    self.local_state = SyncState::Live;
                    self.full_rescan(now_ms);
                }
            },
        }
    }

    /// The clock moved on.
    pub fn on_tick(&mut self, now_ms: i64)
        requires
            old(self).wf(),
            now_ms >= 0,
        ensures
            final(self).wf(),
            final(self)@ == tick(old(self)@, now_ms),
    {
        proof {
            reveal(tick);
        }
        let guard = self.timers.git_check_ms <= now_ms - CLIENT_GUARD_INTERVAL_MS;
        let mut works: Vec<Work> = Vec::new();
        if guard {
            self.timers.git_check_ms = now_ms;
            works.push(Work::GitGuard);
        }
        let ghost start = views(works@);
        works.push(Work::TickRescan);
        works.push(Work::TickWatched);
        works.push(Work::TickRetry);
        works.push(Work::TickPresence);
        works.push(Work::TickHeartbeat);
        works.push(Work::TickCollect);
        proof {
            let rest = seq![
                WorkView::TickRescan,
                WorkView::TickWatched,
                WorkView::TickRetry,
                WorkView::TickPresence,
                WorkView::TickHeartbeat,
                WorkView::TickCollect,
            ];
            if guard {
                assert(views(works@) =~= seq![WorkView::GitGuard] + rest);
            } else {
                assert(views(works@) =~= rest);
            }
        }
        self.first(works);
    }

    pub(crate) fn tick_rescan(&mut self, now_ms: i64)
        requires
            old(self).wf(),
            now_ms >= 0,
        ensures
            final(self).wf(),
            final(self)@ == tick_rescan(old(self)@, now_ms),
    {
        proof {
            reveal(tick_rescan);
        }
        if self.timers.rescan_ms <= now_ms - SAFETY_RESCAN_MS {
            self.full_rescan(now_ms);
        }
    }

    /// The files that are still being written, as far as was seen.
    pub fn unstable_paths(&self) -> (paths: Vec<RepoPath>)
        ensures
            views(paths@) == observed_paths(self@.unstable),
    {
        let mut paths: Vec<RepoPath> = Vec::new();
        let mut i: usize = 0;
        while i < self.unstable.len()
            invariant
                i <= self.unstable@.len(),
                paths@.len() == i,
                forall|k: int| 0 <= k < i ==> (#[trigger] paths@[k])@ == self.unstable@[k]@.path,
            decreases self.unstable@.len() - i,
        {
            paths.push(self.unstable[i].path.clone());
            i = i + 1;
        }
        proof {
            assert(views(paths@) =~= observed_paths(views(self.unstable@)));
        }
        paths
    }

    pub(crate) fn tick_watched(&mut self)
        requires
            old(self).wf(),
        ensures
            final(self).wf(),
            final(self)@ == tick_watched(old(self)@),
    {
        proof {
            reveal(tick_watched);
        }
        proof {
            assert(views(self.unstable@).len() == self.unstable@.len());
        }
        if self.unstable.len() == 0 || self.paused() {
            return;
        }
        let paths = self.unstable_paths();
        let mut works = works_of_visit(&paths, Why::Watched);
        let ghost start = works@;
        let ghost names = views(paths@);
        works.push(Work::AfterWatched { paths });
        proof {
            assert(views(start) == watched_works(names));
            assert(views(works@) =~= views(start) + seq![WorkView::AfterWatched { paths: names }]);
        }
        self.first(works);
    }

    pub(crate) fn after_watched(&mut self, paths: &Vec<RepoPath>)
        requires
            old(self).wf(),
        ensures
            final(self).wf(),
            final(self)@ == after_watched(old(self)@, views(paths@)),
    {
        proof {
            reveal(after_watched);
        }
        let mut i: usize = 0;
        while i < paths.len()
            invariant
                *self == *old(self),
                self.wf(),
                i <= paths@.len(),
                forall|k: int|
                    0 <= k < i ==> observed(self@.unstable, #[trigger] views(paths@)[k]) is Some,
            decreases paths@.len() - i,
        {
            if locate(&self.unstable, &paths[i]) >= self.unstable.len() {
                proof {
                    assert(observed(self@.unstable, views(paths@)[i as int]) is None);
                    reveal(after_watched);
                }
                self.first_one(Work::SyncTree);
                return;
            }
            i = i + 1;
        }
    }

    pub(crate) fn tick_retry(&mut self, now_ms: i64)
        requires
            old(self).wf(),
            now_ms >= 0,
        ensures
            final(self).wf(),
            final(self)@ == tick_retry(old(self)@, now_ms),
    {
        proof {
            reveal(tick_retry);
        }
        if self.timers.retry_ms <= now_ms - RETRY_INTERVAL_MS {
            self.timers.retry_ms = now_ms;
            let blocked = self.materialization_blocked;
            let mut works: Vec<Work> = Vec::new();
            works.push(Work::Flush);
            works.push(Work::ReportOversize);
            if blocked {
                works.push(Work::SyncTree);
            }
            works.push(Work::CheckBarrier);
            proof {
                if blocked {
                    assert(views(works@) =~= seq![
                        WorkView::Flush,
                        WorkView::ReportOversize,
                        WorkView::SyncTree,
                        WorkView::CheckBarrier,
                    ]);
                } else {
                    assert(views(works@) =~= seq![
                        WorkView::Flush,
                        WorkView::ReportOversize,
                        WorkView::CheckBarrier,
                    ]);
                }
            }
            self.first(works);
        }
    }

    pub(crate) fn tick_presence(&mut self, now_ms: i64)
        requires
            old(self).wf(),
            now_ms >= 0,
        ensures
            final(self).wf(),
            final(self)@ == tick_presence(old(self)@, now_ms),
    {
        proof {
            reveal(tick_presence);
        }
        if self.connected && self.timers.presence_ms <= now_ms - PRESENCE_INTERVAL_MS {
            self.timers.presence_ms = now_ms;
            let last_applied_revision = self.store.last_applied_revision();
            let active_task_id = self.my_task_id();
            self.send(ClientMessage::Presence { last_applied_revision, active_task_id });
            // Before the first manifest an empty replica is not a diverged one.
            if self.store.has_manifest() {
                let manifest = self.store.replica_manifest();
                let hash = state_hash(&manifest);
                self.send(ClientMessage::ReplicaHash { revision: last_applied_revision, hash });
            }
        }
    }

    pub(crate) fn tick_heartbeat(&mut self, now_ms: i64)
        requires
            old(self).wf(),
            now_ms >= 0,
            old(self)@.heartbeat_nonce < u64::MAX,
        ensures
            final(self).wf(),
            final(self)@ == tick_heartbeat(old(self)@, now_ms),
    {
        proof {
            reveal(tick_heartbeat);
        }
        if self.connected && self.timers.heartbeat_ms <= now_ms - HEARTBEAT_INTERVAL_MS {
            self.timers.heartbeat_ms = now_ms;
            self.heartbeat_nonce = self.heartbeat_nonce + 1;
            let nonce = self.heartbeat_nonce;
            self.send(ClientMessage::Ping { nonce });
        }
    }

    pub(crate) fn tick_collect(&mut self, now_ms: i64)
        requires
            old(self).wf(),
            now_ms >= 0,
        ensures
            final(self).wf(),
            final(self)@ == tick_collect(old(self)@, now_ms),
    {
        proof {
            reveal(tick_collect);
        }
        if self.timers.gc_ms <= now_ms - GC_INTERVAL_MS {
            self.timers.gc_ms = now_ms;
            self.effect(ClientEffect::Collect);
        }
    }

    // ----------------------------------------------------------- connections

    fn resume_state(&self) -> (r: ClientResumeState)
        ensures
            r@ == resume_of(self@),
    {
        let manifest = self.store.replica_manifest();
        ClientResumeState {
            last_applied_revision: self.store.last_applied_revision(),
            control_version: self.store.control_version(),
            last_publication_sequence: self.store.last_publication_sequence(),
            pending_operation_ids: self.store.pending_operations(),
            replica_hash: state_hash(&manifest),
            has_manifest: self.store.has_manifest(),
        }
    }

    /// A connection is there; `head` is the commit the repository is at.
    pub fn on_connected(&mut self, head: String, now_ms: i64)
        requires
            old(self).wf(),
            ids_left(old(self)@.traffic),
        ensures
            final(self).wf(),
            final(self)@ == connected(old(self)@, head@, now_ms),
    {
        proof {
            reveal(connected);
            reveal(full_rescan);
        }
        let resume = self.resume_state();
        self.attached = true;
        self.pumping = true;
        self.connected = true;
        self.connection_note = "online".to_owned();
        let hello = ClientMessage::Hello {
            session_id: self.id.session.session_id,
            actor_id: self.id.actor_id,
            display_name: self.id.display_name.clone(),
            git_name: self.id.git_name.clone(),
            git_email: self.id.git_email.clone(),
            base_commit: head,
            branch: self.id.branch.clone(),
            resume,
        };
        self.send(hello);
        self.first_one(Work::ForgetReport);
        self.full_rescan(now_ms);
        let e = self.traffic.reconnected();
        self.emit(e);
    }

    pub(crate) fn forget_report(&mut self)
        requires
            old(self).wf(),
        ensures
            final(self).wf(),
            final(self)@ == forget_report(old(self)@),
    {
        proof {
            reveal(forget_report);
        }
        self.reported_oversize = None;
        self.sync_oversize_report();
    }

    /// The connection is gone.
    pub fn on_disconnected(&mut self, reason: String)
        requires
            old(self).wf(),
        ensures
            final(self).wf(),
            final(self)@ == disconnected(old(self)@, reason@),
    {
        proof {
            reveal(disconnected);
        }
        self.connected = false;
        self.connection_note = reason;
        self.attached = false;
        self.pumping = false;
        self.store.mark_all_unsent();
    }

    /// The connection could not take a message.
    pub fn on_overflow(&mut self)
        requires
            old(self).wf(),
        ensures
            final(self).wf(),
            final(self)@ == overflowed(old(self)@),
    {
        self.connected = false;
        self.connection_note = "outbound queue overflow".to_owned();
        self.attached = false;
    }

    /// One control message of a transfer.
    pub fn on_blob(&mut self, blob: BlobControl, disk: DiskFacts)
        requires
            old(self).wf(),
            ids_left(old(self)@.traffic),
            disk.writer.wf(),
        ensures
            final(self).wf(),
            final(self)@ == blob_event(
                old(self)@,
                blob@,
                disk.free,
                disk.writer.held(),
            ),
    {
        proof {
            reveal(blob_event);
        }
        let e = self.traffic.on_control(blob, disk);
        self.emit(e);
    }

    /// One frame of content.
    pub fn on_data(&mut self, frame: &[u8])
        requires
            old(self).wf(),
        ensures
            final(self).wf(),
            final(self)@ == data_event(old(self)@, frame@),
    {
        proof {
            reveal(data_event);
        }
        let e = self.traffic.on_data(frame);
        self.emit(e);
    }

    fn queue_after_manifest(&mut self, first_join: bool)
        requires
            old(self).wf(),
        ensures
            final(self).wf(),
            final(self)@ == old(self)@.first(
                if first_join {
                    seq![WorkView::VerifyJoin] + after_manifest()
                } else {
                    after_manifest()
                },
            ),
    {
        let mut works: Vec<Work> = Vec::new();
        if first_join {
            works.push(Work::VerifyJoin);
        }
        works.push(Work::Drain);
        works.push(Work::SyncTree);
        works.push(Work::Flush);
        proof {
            if first_join {
                assert(views(works@) =~= seq![WorkView::VerifyJoin] + after_manifest());
            } else {
                assert(views(works@) =~= after_manifest());
            }
        }
        self.first(works);
    }

    fn manifest_refused(&mut self)
        requires
            old(self).wf(),
        ensures
            final(self).wf(),
            final(self)@ == fail(old(self)@, manifest_fault()),
    {
        proof {
            reveal(fail);
        }
        self.fail(
            integrity("The canonical manifest sent by the host failed its own state hash check."),
        );
    }

    fn on_welcome(
        &mut self,
        session: SessionInfo,
        revision: u64,
        manifest: Option<Vec<ManifestEntry>>,
        control: ControlSnapshot,
        hash: String,
    )
        requires
            old(self).wf(),
        ensures
            final(self).wf(),
            final(self)@ == welcomed(
                old(self)@,
                session@,
                revision,
                match manifest {
                    Some(m) => Some(rows(m@)),
                    None => None,
                },
                control@,
                hash@,
            ),
    {
        proof {
            reveal(welcomed);
        }
        // Read before the manifest is installed, which is what makes a replica
        // stop being new.
        let first_join = !self.store.has_manifest();
        self.store.set_session(session.clone());
        self.id.session = session;
        let placed = match &manifest {
            Some(m) => Some(place_rows(m)),
            None => None,
        };
        match &placed {
            Some(m) => {
                if !same_text(state_hash(m).as_str(), hash.as_str()) {
                    self.manifest_refused();
                    return;
                }
            },
            None => {},
        }
        self.queue_after_manifest(first_join);
        match &placed {
            Some(m) => {
                self.apply_manifest(revision, m);
            },
            None => {},
        }
        self.apply_control(control);
    }

    pub(crate) fn barrier_ended(&mut self, barrier_id: Uuid)
        requires
            old(self).wf(),
        ensures
            final(self).wf(),
            final(self)@ == barrier_ended(old(self)@, barrier_id),
    {
        proof {
            reveal(barrier_ended);
        }
        match self.barrier {
            Some(b) => {
                if b.barrier_id == barrier_id {
                    self.barrier = None;
                    self.flush_outbox();
                }
            },
            None => {},
        }
    }

    fn on_prepare_result(&mut self, request_id: Uuid, outcome: PrepareOutcome)
        requires
            old(self).wf(),
        ensures
            final(self).wf(),
            final(self)@ == complete_request(old(self)@, request_id, prepare_answer(outcome@)),
    {
        proof {
            reveal(prepare_answer);
        }
        let answer = match outcome {
            PrepareOutcome::Prepared(prep) => Answer::Prepared(prep),
            PrepareOutcome::Rejected { class, message, detail } => Answer::Failed(
                WeaveError { class, message, detail },
            ),
        };
        self.complete_request(request_id, answer);
    }

    fn on_commit_result(&mut self, request_id: Uuid, outcome: CommitOutcome)
        requires
            old(self).wf(),
        ensures
            final(self).wf(),
            final(self)@ == complete_request(old(self)@, request_id, commit_answer(outcome@)),
    {
        proof {
            reveal(commit_answer);
        }
        let answer = match outcome {
            CommitOutcome::Published { publication } => Answer::Published(publication),
            CommitOutcome::Rejected { class, message, detail } => Answer::Failed(
                WeaveError { class, message, detail },
            ),
        };
        self.complete_request(request_id, answer);
    }

    fn on_push_result(&mut self, request_id: Uuid, status: PushStatus, message: String)
        requires
            old(self).wf(),
        ensures
            final(self).wf(),
            final(self)@ == complete_request(
                old(self)@,
                request_id,
                push_answer(status, message@),
            ),
    {
        proof {
            reveal(push_answer);
        }
        let answer = if status == PushStatus::Pushed {
            Answer::Pushed { message }
        } else {
            let mut d = "Push status: ".to_owned();
            d.push_str(status.as_str());
            Answer::Failed(git_err(message.as_str()).with_detail(d))
        };
        self.complete_request(request_id, answer);
    }

    fn on_error(&mut self, request_id: Option<Uuid>, e: WeaveError)
        requires
            old(self).wf(),
        ensures
            final(self).wf(),
            final(self)@ == (match request_id {
                Some(id) => complete_request(
                    old(self)@,
                    id,
                    crate::client_rules::AnswerView::Failed(e@),
                ),
                None => old(self)@.note(e@.message),
            }),
    {
        match request_id {
            Some(id) => {
                self.complete_request(id, Answer::Failed(e));
            },
            None => {
                self.note(e.message);
            },
        }
    }

    fn on_barrier_start(&mut self, barrier_id: Uuid, now_ms: i64)
        requires
            old(self).wf(),
        ensures
            final(self).wf(),
            final(self)@ == full_rescan(
                old(self)@.first(seq![WorkView::Freeze { barrier_id }]),
                now_ms,
            ),
    {
        self.first_one(Work::Freeze { barrier_id });
        self.full_rescan(now_ms);
    }

    fn on_snapshot(&mut self, revision: u64, manifest: Vec<ManifestEntry>, hash: String)
        requires
            old(self).wf(),
        ensures
            final(self).wf(),
            final(self)@ == snapshot(old(self)@, revision, rows(manifest@), hash@),
    {
        proof {
            reveal(snapshot);
        }
        let placed = place_rows(&manifest);
        if same_text(state_hash(&placed).as_str(), hash.as_str()) {
            self.queue_after_manifest(false);
            self.apply_manifest(revision, &placed);
        } else {
            self.manifest_refused();
        }
    }

    /// A message of the host. A step of a transfer is handed back, to be taken
    /// by [`ClientEngine::on_blob`] together with what the disk says.
    #[verifier::rlimit(30)]
    pub fn on_host_message(&mut self, m: HostMessage, now_ms: i64) -> (step: Option<BlobControl>)
        requires
            old(self).wf(),
            ids_left(old(self)@.traffic),
        ensures
            final(self).wf(),
            final(self)@ == host_message(old(self)@, m@, now_ms),
            opt_view(step) == match m@ {
                HostMessageView::Blob { blob } => Some(blob),
                _ => None,
            },
    {
        match m {
            HostMessage::Welcome {
                session,
                snapshot_revision,
                manifest,
                control,
                pending_publications,
                host_state_hash,
            } => {
                self.on_welcome(session, snapshot_revision, manifest, *control, host_state_hash);
            },
            HostMessage::ManifestSnapshot { snapshot_revision, manifest, host_state_hash } => {
                self.on_snapshot(snapshot_revision, manifest, host_state_hash);
            },
            HostMessage::RevisionBroadcast { revision } => {
                self.enqueue_revision(*revision);
            },
            HostMessage::OperationResult { operation_id, outcome } => {
                self.on_operation_result(operation_id, *outcome);
            },
            HostMessage::Blob { blob } => {
                return Some(blob);
            },
            HostMessage::Control { control } => {
                self.apply_control(*control);
            },
            HostMessage::Presence { peers } => {
                self.peers = peers;
            },
            HostMessage::BarrierStart { barrier_id } => {
                self.on_barrier_start(barrier_id, now_ms);
            },
            HostMessage::BarrierEnd { barrier_id } => {
                self.barrier_ended(barrier_id);
            },
            HostMessage::Publication { publication, pack_hash } => {
                self.on_publication(*publication, pack_hash);
            },
            HostMessage::PrepareResult { request_id, outcome } => {
                self.on_prepare_result(request_id, *outcome);
            },
            HostMessage::CommitResult { request_id, outcome } => {
                self.on_commit_result(request_id, *outcome);
            },
            HostMessage::PushResult { request_id, status, message } => {
                self.on_push_result(request_id, status, message);
            },
            HostMessage::Ack { request_id, note } => {
                self.complete_request(request_id, Answer::Acknowledged { note });
            },
            HostMessage::Error { request_id, class, message, detail } => {
                self.on_error(request_id, WeaveError { class, message, detail });
            },
            HostMessage::HostState { state } => {
                self.host_state = state;
            },
            HostMessage::Ping { nonce } => {
                self.send(ClientMessage::Pong { nonce });
            },
            HostMessage::Pong { .. } => {},
            HostMessage::Goodbye { reason } => {
                self.connected = false;
                self.connection_note = reason;
            },
        }
        None
    }
}

} // verus!
