//! The coordinator: one message at a time.

use vstd::prelude::*;

use crate::error::{plain, protocol, ErrorClass, ErrorView, WeaveError};
use crate::gitx::{MergeOutcome, PushResult};
use crate::host_rules::{
    attach_rule, conn_of, disconnect_rule, dismiss_rule, hello_rule, host_room, limit_rule,
    oversize_rule, presence_rule, refuse_rule, replica_hash_rule, report_rule, request_blobs_rule,
    resolve_rule, seen, snapshot_message, submit_rule, task_finish_rule, task_start_rule,
    task_update_rule, with_conn, BarrierPeerView, BarrierView, ConnView, HelloView, HostView,
    ResolutionView, BARRIER_TIMEOUT_MS,
};
use crate::model::{entry_view, FileOperation, OperationView, TaskStatus};
use crate::proto::{BlobControl, BlobView, ClientMessage, HostMessage, HostMessageView};
use crate::publish_rules::{
    all_answered, barrier_ack_rule, barrier_ready_rule, finish_rule, prepare_rule, push_refused,
    try_finish_rule, FinishedView,
};
use crate::reconcile::merge_view;
use crate::text::{opt_view, texts, views};
use crate::util::{is_random, new_uuid, Uuid};
use crate::host::{conn_index, Hello, HostEngine};
use crate::host_submit::Submitted;
use crate::host_requests::{lemma_with_conn, Resolution};
use crate::host_publish::Finished;

verus! {

/// What is left to do after a message: work that only the program around the
/// coordinator can perform.
#[allow(inconsistent_fields)]
pub enum HostStep {
    /// Everything is settled.
    Done,
    /// A line-level merge is needed; submit the operation again with it.
    NeedsMerge(Box<FileOperation>),
    /// A barrier is over: submit what was withheld, then conclude.
    Finished(Box<Finished>),
    /// Build the commit of a preparation.
    CreateCommit { request_id: Uuid, prepare_id: Uuid, message: String },
    /// Push the branch.
    Push { request_id: Uuid },
    /// Look at the disk, then hand the step of the transfer back.
    Blob(BlobControl),
    /// The message could not be handled.
    Failed(WeaveError),
}

/// What is left to do after a message, as plain values.
pub enum StepView {
    Done,
    NeedsMerge(OperationView),
    Finished(FinishedView),
    CreateCommit { request_id: Uuid, prepare_id: Uuid, message: Seq<char> },
    Push { request_id: Uuid },
    Blob(BlobView),
    Failed(ErrorView),
}

impl View for HostStep {
    type V = StepView;

    open spec fn view(&self) -> StepView {
        match *self {
            HostStep::Done => StepView::Done,
            HostStep::NeedsMerge(op) => StepView::NeedsMerge((*op)@),
            HostStep::Finished(f) => StepView::Finished((*f)@),
            HostStep::CreateCommit { request_id, prepare_id, message } => StepView::CreateCommit {
                request_id,
                prepare_id,
                message: message@,
            },
            HostStep::Push { request_id } => StepView::Push { request_id },
            HostStep::Blob(b) => StepView::Blob(b@),
            HostStep::Failed(e) => StepView::Failed(e@),
        }
    }
}

/// Identifiers for whatever a message makes the host create.
#[derive(Clone, Copy)]
pub struct FreshIds {
    pub first: Uuid,
    pub second: Uuid,
}

pub open spec fn finished_step(r: (HostView, Option<FinishedView>)) -> (HostView, StepView) {
    (
        r.0,
        match r.1 {
            Some(f) => StepView::Finished(f),
            None => StepView::Done,
        },
    )
}

pub open spec fn merge_step(r: (HostView, bool), actor_id: Uuid, op: OperationView) -> (
    HostView,
    StepView,
) {
    (
        r.0,
        if r.1 {
            StepView::Done
        } else {
            StepView::NeedsMerge(OperationView { actor_id, ..op })
        },
    )
}

/// A connection is lost: it leaves the session and a running barrier, which may
/// be over now, and everybody hears who is present, at once or when the barrier
/// has been concluded.
pub open spec fn lost_rule(h: HostView, conn_id: u64, now_ms: i64, fresh: Uuid) -> (
    HostView,
    StepView,
) {
    let (next, f) = try_finish_rule(disconnect_rule(h, conn_id), now_ms, fresh);
    match f {
        None => (next.broadcast_presence(), StepView::Done),
        Some(f) => (next, StepView::Finished(FinishedView { presence_due: true, ..f })),
    }
}

/// Whether a barrier has waited long enough.
pub open spec fn is_expired(b: BarrierView, now_ms: i64) -> bool {
    now_ms - b.started_ms > BARRIER_TIMEOUT_MS
}

/// A running barrier at a tick: over when its time is, or when everybody has
/// answered.
pub open spec fn barrier_tick_rule(h: HostView, now_ms: i64, fresh: Uuid) -> (HostView, StepView) {
    match h.barrier {
        Some(b) => if is_expired(b, now_ms) {
            let (next, f) = finish_rule(h, b, now_ms, fresh);
            (next, StepView::Finished(f))
        } else {
            finished_step(try_finish_rule(h, now_ms, fresh))
        },
        None => (h, StepView::Done),
    }
}

/// An operation a barrier withheld: submitted now, unless its sender has left.
pub open spec fn released_rule(
    h: HostView,
    conn_id: u64,
    op: OperationView,
    now_ms: i64,
    fresh: Uuid,
) -> (HostView, StepView) {
    match h.actor_of(conn_id) {
        Some(actor_id) => merge_step(
            submit_rule(h, conn_id, actor_id, op, None, now_ms, fresh),
            actor_id,
            op,
        ),
        None => (h, StepView::Done),
    }
}

/// A message of somebody who has introduced itself.
pub open spec fn authenticated_rule(
    h: HostView,
    conn_id: u64,
    actor_id: Uuid,
    m: ClientMessage,
    now_ms: i64,
    ids: FreshIds,
) -> (HostView, StepView) {
    match m {
        ClientMessage::SubmitOperation { operation } => merge_step(
            submit_rule(h, conn_id, actor_id, (*operation)@, None, now_ms, ids.first),
            actor_id,
            (*operation)@,
        ),
        ClientMessage::RequestBlobs { hashes } => (
            request_blobs_rule(h, conn_id, texts(hashes@)).0,
            StepView::Done,
        ),
        ClientMessage::Blob { blob } => (h, StepView::Blob(blob@)),
        ClientMessage::RequestManifest { reason } => (
            h.send(conn_id, snapshot_message(h)),
            StepView::Done,
        ),
        ClientMessage::RequestControlSnapshot => (
            h.send(conn_id, HostMessageView::Control { control: h.control() }),
            StepView::Done,
        ),
        ClientMessage::ReportOversize { paths } => (
            oversize_rule(h, conn_id, actor_id, views(paths@)),
            StepView::Done,
        ),
        ClientMessage::SetFileLimit { request_id, max_file_size } => (
            limit_rule(h, conn_id, request_id, max_file_size),
            StepView::Done,
        ),
        ClientMessage::ReportConflict { report } => (
            report_rule(h, actor_id, (*report)@, now_ms),
            StepView::Done,
        ),
        ClientMessage::AttachLocalCandidate { conflict_id, entry } => {
            let (next, fault) = attach_rule(h, conflict_id, entry_view(entry));
            (
                next,
                match fault {
                    Some(e) => StepView::Failed(e),
                    None => StepView::Done,
                },
            )
        },
        ClientMessage::ResolveConflict {
            request_id,
            conflict_id,
            operation_id,
            expected_canonical,
            resolved_entry,
        } => (
            resolve_rule(
                h,
                conn_id,
                actor_id,
                ResolutionView {
                    request_id,
                    conflict_id,
                    operation_id,
                    expected_canonical: entry_view(expected_canonical),
                    resolved_entry: entry_view(resolved_entry),
                },
                now_ms,
            ),
            StepView::Done,
        ),
        ClientMessage::DismissConflict { request_id, conflict_id } => (
            dismiss_rule(h, conn_id, request_id, conflict_id),
            StepView::Done,
        ),
        ClientMessage::TaskStart { request_id, task_id, description, scopes } => (
            task_start_rule(
                h,
                conn_id,
                actor_id,
                request_id,
                task_id,
                description@,
                views(scopes@),
                now_ms,
            ),
            StepView::Done,
        ),
        ClientMessage::TaskUpdate { request_id, task_id, description, scopes } => (
            task_update_rule(
                h,
                conn_id,
                actor_id,
                request_id,
                task_id,
                opt_view(description),
                match scopes {
                    Some(list) => Some(views(list@)),
                    None => None,
                },
                now_ms,
            ),
            StepView::Done,
        ),
        ClientMessage::TaskComplete { request_id, task_id } => (
            task_finish_rule(
                h,
                conn_id,
                actor_id,
                request_id,
                task_id,
                TaskStatus::Completed,
                now_ms,
            ),
            StepView::Done,
        ),
        ClientMessage::TaskCancel { request_id, task_id } => (
            task_finish_rule(
                h,
                conn_id,
                actor_id,
                request_id,
                task_id,
                TaskStatus::Cancelled,
                now_ms,
            ),
            StepView::Done,
        ),
        // A request that starts no barrier is only answered.
        ClientMessage::CommitPrepare { request_id, allow_active_tasks } => if h.barrier is Some
            || !(h.state is Live) {
            (
                prepare_rule(
                    h,
                    conn_id,
                    actor_id,
                    request_id,
                    allow_active_tasks,
                    now_ms,
                    ids.first,
                ),
                StepView::Done,
            )
        } else {
            finished_step(
                try_finish_rule(
                    prepare_rule(
                        h,
                        conn_id,
                        actor_id,
                        request_id,
                        allow_active_tasks,
                        now_ms,
                        ids.first,
                    ),
                    now_ms,
                    ids.second,
                ),
            )
        },
        ClientMessage::CommitCreate { request_id, prepare_id, message } => (
            h,
            StepView::CreateCommit { request_id, prepare_id, message: message@ },
        ),
        ClientMessage::PushRequest { request_id } => match push_refused(h) {
            None => (h, StepView::Push { request_id }),
            Some((status, message)) => (
                h.send(conn_id, HostMessageView::PushResult { request_id, status, message }),
                StepView::Done,
            ),
        },
        ClientMessage::BarrierAck { barrier_id, watermark } => finished_step(
            try_finish_rule(
                barrier_ack_rule(h, conn_id, barrier_id, watermark),
                now_ms,
                ids.second,
            ),
        ),
        ClientMessage::BarrierReady { barrier_id, ok, detail } => finished_step(
            try_finish_rule(
                barrier_ready_rule(h, conn_id, barrier_id, ok, detail@),
                now_ms,
                ids.second,
            ),
        ),
        ClientMessage::ReplicaHash { revision, hash } => (
            replica_hash_rule(h, conn_id, revision, hash@),
            StepView::Done,
        ),
        ClientMessage::Presence { last_applied_revision, active_task_id } => (
            presence_rule(h, conn_id, last_applied_revision, active_task_id),
            StepView::Done,
        ),
        ClientMessage::Hello { .. } => (h, StepView::Done),
        ClientMessage::Ping { .. } => (h, StepView::Done),
        ClientMessage::Pong { .. } => (h, StepView::Done),
    }
}

/// Any message. Nobody is heard before it has introduced itself.
pub open spec fn message_rule(
    h: HostView,
    conn_id: u64,
    m: ClientMessage,
    now_ms: i64,
    ids: FreshIds,
) -> (HostView, StepView) {
    let g = seen(h, conn_id, now_ms);
    match m {
        ClientMessage::Hello {
            session_id,
            actor_id,
            display_name,
            git_name,
            git_email,
            base_commit,
            branch,
            resume,
        } => (
            hello_rule(
                g,
                conn_id,
                HelloView {
                    session_id,
                    actor_id,
                    display_name: display_name@,
                    git_name: git_name@,
                    git_email: git_email@,
                    base_commit: base_commit@,
                    branch: branch@,
                    resume: resume@,
                },
                now_ms,
            ),
            StepView::Done,
        ),
        ClientMessage::Ping { nonce } => (
            g.send(conn_id, HostMessageView::Pong { nonce }),
            StepView::Done,
        ),
        ClientMessage::Pong { .. } => (g, StepView::Done),
        _ => match g.actor_of(conn_id) {
            None => (
                g.send_error(
                    conn_id,
                    None,
                    plain(ErrorClass::ProtocolError, "Send `hello` before any other message."@),
                ),
                StepView::Done,
            ),
            Some(actor_id) => authenticated_rule(g, conn_id, actor_id, m, now_ms, ids),
        },
    }
}

/// Transfer numbers are left for what a message asks for.
pub open spec fn message_room(h: HostView, conn_id: u64, m: ClientMessage) -> bool {
    m matches ClientMessage::RequestBlobs { hashes } ==> conn_of(h.conns, conn_id) matches Some(c)
        ==> c.link.last_id + hashes@.len() <= u64::MAX
}

/// A failure of the host itself: it stops accepting changes when its storage
/// or its content cannot be trusted.
pub open spec fn failure_rule(h: HostView, e: ErrorView) -> HostView {
    if e.class == ErrorClass::PersistenceError || e.class == ErrorClass::IntegrityError {
        h.degraded(e.message)
    } else {
        h
    }
}

impl HostEngine {
    /// Whether numbers are left for one more event.
    pub fn has_room(&self) -> (yes: bool)
        requires
            self.wf(),
        ensures
            yes == host_room(self@),
    {
        self.store.current_revision() < u64::MAX - 1 && self.store.control_version() <= u64::MAX - 4
            && match self.store.latest_publication() {
            Some(p) => p.sequence < u64::MAX,
            None => true,
        }
    }

    /// Whether transfer numbers are left for what a message asks for.
    pub fn has_room_for(&self, conn_id: u64, m: &ClientMessage) -> (yes: bool)
        ensures
            yes == message_room(self@, conn_id, *m),
    {
        match m {
            ClientMessage::RequestBlobs { hashes } => {
                let at = conn_index(&self.conns, conn_id);
                at >= self.conns.len() || hashes.len() as u64 <= u64::MAX
                    - self.conns[at].link.last_id()
            },
            _ => true,
        }
    }

    /// A message of somebody who has introduced itself.
    pub fn on_authenticated(
        &mut self,
        conn_id: u64,
        actor_id: Uuid,
        m: ClientMessage,
        now_ms: i64,
        ids: FreshIds,
    ) -> (s: HostStep)
        requires
            old(self).wf(),
            host_room(old(self)@),
            message_room(old(self)@, conn_id, m),
            now_ms >= 0,
        ensures
            final(self).wf(),
            (final(self)@, s@) == authenticated_rule(
                old(self)@,
                conn_id,
                actor_id,
                m,
                now_ms,
                ids,
            ),
    {
        match m {
            ClientMessage::SubmitOperation { operation } => {
                match self.submit_with(conn_id, actor_id, *operation, None, now_ms, ids.first) {
                    Submitted::Done => HostStep::Done,
                    Submitted::NeedsMerge(op) => HostStep::NeedsMerge(op),
                }
            },
            ClientMessage::RequestBlobs { hashes } => {
                self.on_request_blobs(conn_id, hashes);
                HostStep::Done
            },
            ClientMessage::Blob { blob } => HostStep::Blob(blob),
            ClientMessage::RequestManifest { reason } => {
                self.send_snapshot(conn_id);
                HostStep::Done
            },
            ClientMessage::RequestControlSnapshot => {
                let control = self.control_snapshot();
                self.send(conn_id, HostMessage::Control { control: Box::new(control) });
                HostStep::Done
            },
            ClientMessage::ReportOversize { paths } => {
                self.on_report_oversize(conn_id, actor_id, paths);
                HostStep::Done
            },
            ClientMessage::SetFileLimit { request_id, max_file_size } => {
                self.on_set_file_limit(conn_id, request_id, max_file_size);
                HostStep::Done
            },
            ClientMessage::ReportConflict { report } => {
                self.on_report_conflict(actor_id, *report, now_ms);
                HostStep::Done
            },
            ClientMessage::AttachLocalCandidate { conflict_id, entry } => {
                match self.on_attach_candidate(conflict_id, entry) {
                    Ok(_) => HostStep::Done,
                    Err(e) => HostStep::Failed(e),
                }
            },
            ClientMessage::ResolveConflict {
                request_id,
                conflict_id,
                operation_id,
                expected_canonical,
                resolved_entry,
            } => {
                self.on_resolve_conflict(
                    conn_id,
                    actor_id,
                    Resolution {
                        request_id,
                        conflict_id,
                        operation_id,
                        expected_canonical,
                        resolved_entry,
                    },
                    now_ms,
                );
                HostStep::Done
            },
            ClientMessage::DismissConflict { request_id, conflict_id } => {
                self.on_dismiss_conflict(conn_id, request_id, conflict_id);
                HostStep::Done
            },
            ClientMessage::TaskStart { request_id, task_id, description, scopes } => {
                self.on_task_start(
                    conn_id,
                    actor_id,
                    request_id,
                    task_id,
                    description,
                    scopes,
                    now_ms,
                );
                HostStep::Done
            },
            ClientMessage::TaskUpdate { request_id, task_id, description, scopes } => {
                self.on_task_update(
                    conn_id,
                    actor_id,
                    request_id,
                    task_id,
                    description,
                    scopes,
                    now_ms,
                );
                HostStep::Done
            },
            ClientMessage::TaskComplete { request_id, task_id } => {
                self.on_task_finish(
                    conn_id,
                    actor_id,
                    request_id,
                    task_id,
                    TaskStatus::Completed,
                    now_ms,
                );
                HostStep::Done
            },
            ClientMessage::TaskCancel { request_id, task_id } => {
                self.on_task_finish(
                    conn_id,
                    actor_id,
                    request_id,
                    task_id,
                    TaskStatus::Cancelled,
                    now_ms,
                );
                HostStep::Done
            },
            ClientMessage::CommitPrepare { request_id, allow_active_tasks } => {
                let refused = self.barrier.is_some() || !self.state.is_live();
                self.on_commit_prepare(
                    conn_id,
                    actor_id,
                    request_id,
                    allow_active_tasks,
                    now_ms,
                    ids.first,
                );
                if refused {
                    HostStep::Done
                } else {
                    self.settle_barrier(now_ms, ids.second)
                }
            },
            ClientMessage::CommitCreate { request_id, prepare_id, message } => {
                HostStep::CreateCommit { request_id, prepare_id, message }
            },
            ClientMessage::PushRequest { request_id } => {
                if self.on_push(conn_id, request_id) {
                    HostStep::Push { request_id }
                } else {
                    HostStep::Done
                }
            },
            ClientMessage::BarrierAck { barrier_id, watermark } => {
                self.on_barrier_ack(conn_id, barrier_id, watermark);
                self.settle_barrier(now_ms, ids.second)
            },
            ClientMessage::BarrierReady { barrier_id, ok, detail } => {
                self.on_barrier_ready(conn_id, barrier_id, ok, detail);
                self.settle_barrier(now_ms, ids.second)
            },
            ClientMessage::ReplicaHash { revision, hash } => {
                self.on_replica_hash(conn_id, revision, hash.as_str());
                HostStep::Done
            },
            ClientMessage::Presence { last_applied_revision, active_task_id } => {
                self.on_presence(conn_id, last_applied_revision, active_task_id);
                HostStep::Done
            },
            ClientMessage::Hello { .. } => HostStep::Done,
            ClientMessage::Ping { .. } => HostStep::Done,
            ClientMessage::Pong { .. } => HostStep::Done,
        }
    }

    fn settle_barrier(&mut self, now_ms: i64, fresh: Uuid) -> (s: HostStep)
        requires
            old(self).wf(),
            host_room(old(self)@),
        ensures
            final(self).wf(),
            (final(self)@, s@) == finished_step(try_finish_rule(old(self)@, now_ms, fresh)),
    {
        match self.try_finish_barrier(now_ms, fresh) {
            Some(f) => HostStep::Finished(Box::new(f)),
            None => HostStep::Done,
        }
    }

    /// Any message, with the identifiers for whatever it creates.
    pub fn on_message_with(
        &mut self,
        conn_id: u64,
        m: ClientMessage,
        now_ms: i64,
        ids: FreshIds,
    ) -> (s: HostStep)
        requires
            old(self).wf(),
            host_room(old(self)@),
            message_room(old(self)@, conn_id, m),
            now_ms >= 0,
        ensures
            final(self).wf(),
            (final(self)@, s@) == message_rule(old(self)@, conn_id, m, now_ms, ids),
    {
        self.note_seen(conn_id, now_ms);
        proof {
            lemma_seen_keeps_links(old(self)@.conns, conn_id, now_ms);
        }
        match m {
            ClientMessage::Hello {
                session_id,
                actor_id,
                display_name,
                git_name,
                git_email,
                base_commit,
                branch,
                resume,
            } => {
                self.on_hello(
                    conn_id,
                    Hello {
                        session_id,
                        actor_id,
                        display_name,
                        git_name,
                        git_email,
                        base_commit,
                        branch,
                        resume,
                    },
                    now_ms,
                );
                HostStep::Done
            },
            ClientMessage::Ping { nonce } => {
                self.send(conn_id, HostMessage::Pong { nonce });
                HostStep::Done
            },
            ClientMessage::Pong { .. } => HostStep::Done,
            other => match self.actor_of(conn_id) {
                None => {
                    let e = protocol("Send `hello` before any other message.");
                    self.send_error(conn_id, None, e);
                    HostStep::Done
                },
                Some(actor_id) => self.on_authenticated(conn_id, actor_id, other, now_ms, ids),
            },
        }
    }

    /// Any message.
    pub fn on_message(&mut self, conn_id: u64, m: ClientMessage, now_ms: i64) -> (s: HostStep)
        requires
            old(self).wf(),
            host_room(old(self)@),
            message_room(old(self)@, conn_id, m),
            now_ms >= 0,
        ensures
            final(self).wf(),
            exists|ids: FreshIds|
                is_random(ids.first) && is_random(ids.second) && (final(self)@, s@)
                    == #[trigger] message_rule(old(self)@, conn_id, m, now_ms, ids),
    {
        let ids = FreshIds { first: new_uuid(), second: new_uuid() };
        self.on_message_with(conn_id, m, now_ms, ids)
    }

    /// An operation again, with the merge it needed; also one that a barrier
    /// withheld.
    pub fn on_submit(
        &mut self,
        conn_id: u64,
        actor_id: Uuid,
        op: FileOperation,
        merge: Option<MergeOutcome>,
        now_ms: i64,
    ) -> (s: HostStep)
        requires
            old(self).wf(),
            host_room(old(self)@),
        ensures
            final(self).wf(),
            exists|fresh: Uuid|
                is_random(fresh) && (final(self)@, s@) == merge_step(
                    #[trigger] submit_rule(
                        old(self)@,
                        conn_id,
                        actor_id,
                        op@,
                        merge_view(merge),
                        now_ms,
                        fresh,
                    ),
                    actor_id,
                    op@,
                ),
    {
        let fresh = new_uuid();
        match self.submit_with(conn_id, actor_id, op, merge, now_ms, fresh) {
            Submitted::Done => HostStep::Done,
            Submitted::NeedsMerge(again) => HostStep::NeedsMerge(again),
        }
    }

    /// A connection is lost, with the identifier for a preparation that comes of
    /// it.
    pub fn lose_connection_with(&mut self, conn_id: u64, now_ms: i64, fresh: Uuid) -> (s: HostStep)
        requires
            old(self).wf(),
            host_room(old(self)@),
        ensures
            final(self).wf(),
            (final(self)@, s@) == lost_rule(old(self)@, conn_id, now_ms, fresh),
    {
        self.on_disconnected(conn_id);
        match self.try_finish_barrier(now_ms, fresh) {
            Some(f) => {
                let mut f = f;
                f.presence_due = true;
                HostStep::Finished(Box::new(f))
            },
            None => {
                self.broadcast_presence();
                HostStep::Done
            },
        }
    }

    /// A connection is lost.
    pub fn lose_connection(&mut self, conn_id: u64, now_ms: i64) -> (s: HostStep)
        requires
            old(self).wf(),
            host_room(old(self)@),
        ensures
            final(self).wf(),
            exists|fresh: Uuid|
                is_random(fresh) && (final(self)@, s@) == #[trigger] lost_rule(
                    old(self)@,
                    conn_id,
                    now_ms,
                    fresh,
                ),
    {
        let fresh = new_uuid();
        self.lose_connection_with(conn_id, now_ms, fresh)
    }

    /// A running barrier at a tick, with the identifier for a preparation that
    /// comes of it.
    pub fn tick_barrier_with(&mut self, now_ms: i64, fresh: Uuid) -> (s: HostStep)
        requires
            old(self).wf(),
            host_room(old(self)@),
            now_ms >= 0,
        ensures
            final(self).wf(),
            (final(self)@, s@) == barrier_tick_rule(old(self)@, now_ms, fresh),
    {
        let expired = match &self.barrier {
            Some(b) => now_ms - b.started_ms > BARRIER_TIMEOUT_MS,
            None => false,
        };
        if expired {
            match self.finish_barrier(now_ms, fresh) {
                Some(f) => HostStep::Finished(Box::new(f)),
                None => HostStep::Done,
            }
        } else {
            self.settle_barrier(now_ms, fresh)
        }
    }

    /// A running barrier at a tick.
    pub fn tick_barrier(&mut self, now_ms: i64) -> (s: HostStep)
        requires
            old(self).wf(),
            host_room(old(self)@),
            now_ms >= 0,
        ensures
            final(self).wf(),
            exists|fresh: Uuid|
                is_random(fresh) && (final(self)@, s@) == #[trigger] barrier_tick_rule(
                    old(self)@,
                    now_ms,
                    fresh,
                ),
    {
        let fresh = new_uuid();
        self.tick_barrier_with(now_ms, fresh)
    }

    /// An operation a barrier withheld, with the identifier for a conflict that
    /// comes of it.
    pub fn on_released_with(&mut self, conn_id: u64, op: FileOperation, now_ms: i64, fresh: Uuid) -> (s:
        HostStep)
        requires
            old(self).wf(),
            host_room(old(self)@),
        ensures
            final(self).wf(),
            (final(self)@, s@) == released_rule(old(self)@, conn_id, op@, now_ms, fresh),
    {
        match self.actor_of(conn_id) {
            Some(actor_id) => match self.submit_with(conn_id, actor_id, op, None, now_ms, fresh) {
                Submitted::Done => HostStep::Done,
                Submitted::NeedsMerge(again) => HostStep::NeedsMerge(again),
            },
            None => HostStep::Done,
        }
    }

    /// An operation a barrier withheld.
    pub fn on_released(&mut self, conn_id: u64, op: FileOperation, now_ms: i64) -> (s: HostStep)
        requires
            old(self).wf(),
            host_room(old(self)@),
        ensures
            final(self).wf(),
            exists|fresh: Uuid|
                is_random(fresh) && (final(self)@, s@) == #[trigger] released_rule(
                    old(self)@,
                    conn_id,
                    op@,
                    now_ms,
                    fresh,
                ),
    {
        let fresh = new_uuid();
        self.on_released_with(conn_id, op, now_ms, fresh)
    }

    /// The merge an operation needed could not be run: the operation is
    /// refused, and its sender hears why. `op` is what was handed out to be
    /// merged, with the actor it is from.
    pub fn merge_failed(&mut self, conn_id: u64, op: &FileOperation, e: WeaveError)
        requires
            old(self).wf(),
        ensures
            final(self).wf(),
            final(self)@ == refuse_rule(old(self)@, conn_id, op.actor_id, op@, e@),
    {
        self.refuse(conn_id, op.actor_id, op, e);
    }

    /// A failure while a message was handled.
    pub fn on_failure(&mut self, e: &WeaveError)
        requires
            old(self).wf(),
        ensures
            final(self).wf(),
            final(self)@ == failure_rule(old(self)@, e@),
    {
        if e.class == ErrorClass::PersistenceError || e.class == ErrorClass::IntegrityError {
            self.enter_degraded(e.message.as_str());
        }
    }

    /// The host stops: everybody is told.
    pub fn on_shutdown(&mut self)
        requires
            old(self).wf(),
        ensures
            final(self).wf(),
            final(self)@ == old(self)@.broadcast(
                HostMessageView::Goodbye { reason: "host stopped"@ },
            ),
    {
        self.broadcast(HostMessage::Goodbye { reason: "host stopped".to_owned() });
    }
}

// ---------------------------------------------------------------------------
// Laws
// ---------------------------------------------------------------------------

/// A barrier waits for connected participants only: whoever leaves is taken out
/// of it, and it runs on only while somebody else has still to answer. Everybody
/// hears who is left, at once or when the barrier has been concluded.
pub proof fn nobody_who_left_is_waited_for(h: HostView, conn_id: u64, now_ms: i64, fresh: Uuid)
    ensures
        ({
            let (next, step) = lost_rule(h, conn_id, now_ms, fresh);
            &&& conn_of(next.conns, conn_id) is None
            &&& next.barrier matches Some(b) ==> !all_answered(b.peers) && forall|i: int|
                0 <= i < b.peers.len() ==> (#[trigger] b.peers[i]).id != conn_id
            &&& next.barrier is None && h.barrier is Some ==> step is Finished
            &&& match step {
                StepView::Done => next.outbox == disconnect_rule(
                    h,
                    conn_id,
                ).broadcast_presence().outbox,
                StepView::Finished(f) => f.presence_due,
                _ => false,
            }
        }),
{
    let keep = |c: ConnView| c.id != conn_id;
    let left = h.conns.filter(keep);
    assert forall|i: int| 0 <= i < left.len() implies (#[trigger] left[i]).id != conn_id by {
        h.conns.lemma_filter_pred(keep, i);
    }
    lemma_no_conn(left, conn_id);
    if let Some(b) = h.barrier {
        let wait = |p: BarrierPeerView| p.id != conn_id;
        let peers = b.peers.filter(wait);
        assert forall|i: int| 0 <= i < peers.len() implies (#[trigger] peers[i]).id != conn_id by {
            b.peers.lemma_filter_pred(wait, i);
        }
    }
}

proof fn lemma_no_conn(list: Seq<ConnView>, id: u64)
    requires
        forall|i: int| 0 <= i < list.len() ==> (#[trigger] list[i]).id != id,
    ensures
        conn_of(list, id) is None,
    decreases list.len(),
{
    if list.len() > 0 {
        assert(list[0].id != id);
        let rest = list.drop_first();
        assert forall|i: int| 0 <= i < rest.len() implies (#[trigger] rest[i]).id != id by {
            assert(rest[i] == list[i + 1]);
        }
        lemma_no_conn(rest, id);
    }
}

/// After a tick a barrier is running only if its time is not over and somebody
/// has still to answer.
pub proof fn a_barrier_is_over_in_time(h: HostView, now_ms: i64, fresh: Uuid)
    ensures
        ({
            let (next, step) = barrier_tick_rule(h, now_ms, fresh);
            &&& next.barrier matches Some(b) ==> !is_expired(b, now_ms) && !all_answered(b.peers)
                && next == h
            &&& next.barrier is None && h.barrier is Some ==> step is Finished
        }),
{
}

proof fn lemma_seen_keeps_links(list: Seq<ConnView>, id: u64, now_ms: i64)
    ensures
        conn_of(list, id) matches Some(c) ==> conn_of(
            with_conn(list, id, ConnView { last_seen_ms: now_ms, ..c }),
            id,
        ) == Some(ConnView { last_seen_ms: now_ms, ..c }),
    decreases list.len(),
{
    if conn_of(list, id) is Some {
        lemma_conn_found(list, id);
        lemma_with_conn(list, id, ConnView { last_seen_ms: now_ms, ..conn_of(list, id)->0 });
    }
}

proof fn lemma_conn_found(list: Seq<ConnView>, id: u64)
    ensures
        conn_of(list, id) matches Some(c) ==> c.id == id,
    decreases list.len(),
{
    if list.len() > 0 {
        lemma_conn_found(list.drop_first(), id);
    }
}

} // verus!
