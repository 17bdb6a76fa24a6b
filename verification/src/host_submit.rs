//! The coordinator: operations.

use vstd::prelude::*;

use crate::error::{protocol, repository, unsupported, ErrorClass, Result, WeaveError};
use crate::gitx::MergeOutcome;
use crate::host_rules::{
    accept, aged_scope, aged_scopes, apply_rule, attribute_rule, conflicted, converge, credited,
    effective_task_of, host_room, install_rule, operation_fault, peer_of, put_blob, refuse_rule,
    submit_rule, withheld, Applied, BarrierPeerView,
};
use crate::model::{
    copy_entry, entry_view, Conflict, ConflictKind, ConflictStatus, FileEntry, FileOperation,
    OperationOutcome, OperationView, Revision, SyncState, TaskScope, TaskStatus, MAX_SYNCED_FILE,
};
use crate::path::RepoPath;
use crate::publish::has_path;
use crate::publish_rules::with_peer;
use crate::reconcile::{merge_view, reconcile, MergeContext, Reconciled};
use crate::store_host::{RecordView, StoreView};
use crate::text::{decimal_text, lemma_views_push, same_text, views};
use crate::util::{sha256_hex, Uuid};
use crate::host::{lemma_peer_at, op_views, BarrierPeer, HostEffect, HostEngine};

verus! {

/// What became of one attempt to apply an operation.
pub enum ApplyResult {
    Done,
    NeedsMerge,
    Failed(WeaveError),
}

impl View for ApplyResult {
    type V = Applied;

    open spec fn view(&self) -> Applied {
        match *self {
            ApplyResult::Done => Applied::Done,
            ApplyResult::NeedsMerge => Applied::NeedsMerge,
            ApplyResult::Failed(e) => Applied::Failed(e@),
        }
    }
}

/// What became of one submitted operation.
pub enum Submitted {
    /// It is settled; the answer is queued.
    Done,
    /// Both sides edited the same text. Run a line-level merge of base,
    /// canonical and desired content, and submit again with its outcome.
    NeedsMerge(Box<FileOperation>),
}

fn copy_bytes(bytes: &Vec<u8>) -> (copy: Vec<u8>)
    ensures
        copy@ == bytes@,
{
    let copy = bytes.clone();
    proof {
        assert(copy@ =~= bytes@);
    }
    copy
}

impl HostEngine {
    pub(crate) fn put_blob(&mut self, bytes: &Vec<u8>)
        requires
            old(self).wf(),
        ensures
            final(self).wf(),
            final(self)@ == put_blob(old(self)@, bytes@),
    {
        let (hash, fresh) = self.blobs.put(bytes.as_slice());
        if fresh {
            let copy = copy_bytes(bytes);
            self.effect(HostEffect::Install { hash, bytes: copy });
        }
    }

    /// Make sure the content of an entry is here.
    pub(crate) fn install_content(&mut self, entry: &FileEntry, content: &Option<Vec<u8>>) -> (r: Result<()>)
        requires
            old(self).wf(),
        ensures
            final(self).wf(),
            final(self)@ == install_rule(
                old(self)@,
                entry@,
                match *content {
                    Some(bytes) => Some(bytes@),
                    None => None,
                },
            ).0,
            match r {
                Ok(_) => install_rule(
                    old(self)@,
                    entry@,
                    match *content {
                        Some(bytes) => Some(bytes@),
                        None => None,
                    },
                ).1 is None,
                Err(e) => install_rule(
                    old(self)@,
                    entry@,
                    match *content {
                        Some(bytes) => Some(bytes@),
                        None => None,
                    },
                ).1 == Some(e@),
            },
    {
        if self.blobs.has(entry.blob_hash.as_str()) {
            return Ok(());
        }
        match content {
            None => {
                let mut m = "Operation references blob ".to_owned();
                m.push_str(entry.blob_hash.as_str());
                m.push_str(" without supplying its content.");
                Err(protocol(m.as_str()))
            },
            Some(bytes) => {
                if bytes.len() as u64 != entry.size {
                    return Err(
                        protocol(
                            "Operation content length does not match the declared entry size.",
                        ),
                    );
                }
                let hash = sha256_hex(bytes.as_slice());
                if !same_text(hash.as_str(), entry.blob_hash.as_str()) {
                    return Err(
                        protocol("Operation content does not hash to the declared blob."),
                    );
                }
                self.put_blob(bytes);
                Ok(())
            },
        }
    }

    /// Only an active Task owned by this actor may be attributed.
    fn effective_task(&self, actor_id: Uuid, requested: Option<Uuid>) -> (t: Option<Uuid>)
        ensures
            t == effective_task_of(self@, actor_id, requested),
    {
        match requested {
            None => None,
            Some(id) => match self.store.task(id) {
                Some(t) => if t.actor_id == actor_id && t.status == TaskStatus::Active {
                    Some(id)
                } else {
                    None
                },
                None => None,
            },
        }
    }

    /// The scopes of a task, with those marked stale whose file has moved on.
    fn mark_stale_scopes(&self, scopes: &Vec<TaskScope>) -> (out: Vec<TaskScope>)
        requires
            self.wf(),
        ensures
            views(out@) == aged_scopes(self@.store, views(scopes@)),
    {
        let mut out: Vec<TaskScope> = Vec::new();
        let ghost all = aged_scopes(self@.store, views(scopes@));
        let mut i: usize = 0;
        proof {
            assert(views(out@) =~= all.take(0));
        }
        while i < scopes.len()
            invariant
                self.wf(),
                all == aged_scopes(self@.store, views(scopes@)),
                i <= scopes@.len(),
                views(out@) == all.take(i as int),
            decreases scopes@.len() - i,
        {
            let ghost before = out@;
            let mut scope = scopes[i].clone();
            if !scope.stale && scope.line_start.is_some() {
                let current = self.store.manifest_entry(&scope.path);
                if !FileEntry::same_as(current.as_ref(), scope.declared_against.as_ref()) {
                    scope.stale = true;
                }
            }
            out.push(scope);
            proof {
                lemma_views_push(before, scope);
                assert(all[i as int] == aged_scope(self@.store, scopes@[i as int]@));
                assert(scope@ == all[i as int]);
                assert(all.take(i + 1) =~= all.take(i as int).push(scope@));
            }
            i = i + 1;
        }
        proof {
            assert(all.take(i as int) =~= all);
        }
        out
    }

    fn attribute_revision_to_task(
        &mut self,
        task_id: Uuid,
        path: &RepoPath,
        revision: u64,
        now_ms: i64,
    )
        requires
            old(self).wf(),
            old(self)@.store.control_version < u64::MAX,
        ensures
            final(self).wf(),
            final(self)@ == attribute_rule(old(self)@, task_id, path@, revision, now_ms),
    {
        match self.store.task(task_id) {
            None => {},
            Some(t) => {
                let mut task = t;
                let ghost was = task@;
                let scopes = self.mark_stale_scopes(&task.scopes);
                if !has_path(&task.touched_paths, path) {
                    let ghost before = task.touched_paths@;
                    let p = path.clone();
                    task.touched_paths.push(p);
                    proof {
                        lemma_views_push(before, p);
                    }
                }
                if task.first_accepted_revision.is_none() {
                    task.first_accepted_revision = Some(revision);
                }
                task.last_accepted_revision = Some(revision);
                task.updated_at_ms = now_ms;
                task.scopes = scopes;
                proof {
                    assert(task@ == credited(old(self)@.store, was, path@, revision, now_ms));
                }
                self.store.put_task(task);
                self.control_changed();
            },
        }
    }

    pub(crate) fn record(&mut self, op: &FileOperation, actor_id: Uuid, outcome: &OperationOutcome)
        requires
            old(self).wf(),
        ensures
            final(self).wf(),
            final(self)@ == old(self)@.with_store(
                StoreView {
                    operations: old(self)@.store.operations.push(
                        RecordView {
                            operation_id: op.operation_id,
                            actor_id,
                            payload_hash: op@.payload_digest(),
                            outcome: outcome@,
                        },
                    ),
                    ..old(self)@.store
                },
            ),
    {
        let hash = op.payload_hash();
        self.store.record_operation_result(op.operation_id, actor_id, hash.as_str(), outcome);
    }

    pub(crate) fn converge(&mut self, conn_id: u64, actor_id: Uuid, op: &FileOperation)
        requires
            old(self).wf(),
        ensures
            final(self).wf(),
            final(self)@ == converge(old(self)@, conn_id, actor_id, op@),
    {
        let outcome = OperationOutcome::Converged {
            revision: self.store.current_revision(),
            canonical_entry: self.store.manifest_entry(&op.path),
        };
        self.record(op, actor_id, &outcome);
        self.reply_operation(conn_id, op.operation_id, outcome);
    }

    pub(crate) fn accept(
        &mut self,
        conn_id: u64,
        actor_id: Uuid,
        op: &FileOperation,
        entry: Option<FileEntry>,
        merged: bool,
        now_ms: i64,
    )
        requires
            old(self).wf(),
            host_room(old(self)@),
        ensures
            final(self).wf(),
            final(self)@ == accept(
                old(self)@,
                conn_id,
                actor_id,
                op@,
                entry_view(entry),
                merged,
                now_ms,
            ),
    {
        let task_id = self.effective_task(actor_id, op.task_id);
        let number: u64 = self.store.current_revision() + 1;
        let record = Revision {
            revision: number,
            operation_id: op.operation_id,
            actor_id,
            task_id,
            timestamp_ms: now_ms,
            path: op.path.clone(),
            before: self.store.manifest_entry(&op.path),
            after: copy_entry(&entry),
        };
        let outcome = if merged {
            OperationOutcome::Merged { revision: number, canonical_entry: entry }
        } else {
            OperationOutcome::Accepted { revision: number, canonical_entry: entry }
        };
        let hash = op.payload_hash();
        self.store.commit_revision(record.clone(), hash.as_str(), &outcome);
        match task_id {
            Some(id) => {
                self.attribute_revision_to_task(id, &op.path, number, now_ms);
            },
            None => {},
        }
        self.reply_operation(conn_id, op.operation_id, outcome);
        self.broadcast_revision(record);
    }

    pub(crate) fn conflicted(
        &mut self,
        conn_id: u64,
        actor_id: Uuid,
        op: &FileOperation,
        kind: ConflictKind,
        now_ms: i64,
        fresh: Uuid,
    )
        requires
            old(self).wf(),
            host_room(old(self)@),
        ensures
            final(self).wf(),
            final(self)@ == conflicted(
                old(self)@,
                conn_id,
                actor_id,
                op@,
                kind,
                now_ms,
                fresh,
            ),
    {
        let revision = self.store.current_revision();
        let current = self.store.manifest_entry(&op.path);
        let conflict = Conflict {
            id: fresh,
            path: op.path.clone(),
            kind,
            base_entry: copy_entry(&op.base_entry),
            canonical_entry: copy_entry(&current),
            incoming_entry: copy_entry(&op.desired_entry),
            latest_local_candidate: None,
            incoming_actor_id: actor_id,
            incoming_task_id: self.effective_task(actor_id, op.task_id),
            canonical_revision: revision,
            created_at_ms: now_ms,
            status: ConflictStatus::Open,
            resolved_revision: None,
        };
        self.store.put_conflict(conflict);
        let outcome = OperationOutcome::Conflicted {
            conflict_id: fresh,
            kind,
            revision,
            canonical_entry: current,
        };
        self.record(op, actor_id, &outcome);
        self.bump();
        self.reply_operation(conn_id, op.operation_id, outcome);
        self.broadcast_control();
    }

    fn check_operation(&self, op: &FileOperation) -> (r: Result<()>)
        requires
            self.wf(),
        ensures
            match r {
                Ok(_) => operation_fault(self@, op@) is None,
                Err(e) => operation_fault(self@, op@) == Some(e@),
            },
    {
        // The host validates the declared base against its own history; it
        // never trusts the declared entry alone.
        match self.store.validate_base(op) {
            Ok(_) => {},
            Err(e) => {
                return Err(e);
            },
        }
        // Portable path collision.
        if op.desired_entry.is_some() && self.store.manifest_entry(&op.path).is_none() {
            match self.store.colliding_path(&op.path) {
                Some(other) => {
                    let mut m = op.path.as_str().to_owned();
                    m.push_str(" collides with ");
                    m.push_str(other.as_str());
                    m.push_str(".");
                    return Err(
                        unsupported(m.as_str()).with_detail(
                            "Two repository paths that differ only by case or Unicode normalization cannot coexist in a portable Weave session.".to_owned(),
                        ),
                    );
                },
                None => {},
            }
        }
        Ok(())
    }

    fn try_apply(
        &mut self,
        conn_id: u64,
        actor_id: Uuid,
        op: &FileOperation,
        merge: Option<MergeOutcome>,
        now_ms: i64,
        fresh: Uuid,
    ) -> (r: ApplyResult)
        requires
            old(self).wf(),
            host_room(old(self)@),
        ensures
            final(self).wf(),
            (final(self)@, r@) == apply_rule(
                old(self)@,
                conn_id,
                actor_id,
                op@,
                merge_view(merge),
                now_ms,
                fresh,
            ),
    {
        match &op.desired_entry {
            Some(entry) => {
                if entry.size > MAX_SYNCED_FILE {
                    let mut m = op.path.as_str().to_owned();
                    m.push_str(" is ");
                    m.push_str(decimal_text(entry.size).as_str());
                    m.push_str(" bytes, above the ");
                    m.push_str(decimal_text(MAX_SYNCED_FILE / 1048576).as_str());
                    m.push_str(" MiB Weave file limit.");
                    return ApplyResult::Failed(unsupported(m.as_str()));
                }
                match self.install_content(entry, &op.content) {
                    Ok(_) => {},
                    Err(e) => {
                        return ApplyResult::Failed(e);
                    },
                }
            },
            None => {},
        }
        match self.check_operation(op) {
            Ok(_) => {},
            Err(e) => {
                return ApplyResult::Failed(e);
            },
        }
        let current = self.store.manifest_entry(&op.path);
        let ctx = MergeContext::new(merge);
        let outcome = reconcile(
            &ctx,
            op.base_entry.as_ref(),
            current.as_ref(),
            op.desired_entry.as_ref(),
        );
        match outcome {
            Err(e) => ApplyResult::Failed(e),
            Ok(Reconciled::Converged) => {
                self.converge(conn_id, actor_id, op);
                ApplyResult::Done
            },
            Ok(Reconciled::Accept { entry, merged }) => {
                if merged {
                    match &ctx.merge {
                        Some(MergeOutcome::Clean(bytes)) => {
                            self.put_blob(bytes);
                        },
                        _ => {},
                    }
                }
                self.accept(conn_id, actor_id, op, entry, merged, now_ms);
                ApplyResult::Done
            },
            Ok(Reconciled::Conflict(kind)) => {
                self.conflicted(conn_id, actor_id, op, kind, now_ms, fresh);
                ApplyResult::Done
            },
            Ok(Reconciled::NeedsMerge) => ApplyResult::NeedsMerge,
        }
    }

    pub(crate) fn refuse(&mut self, conn_id: u64, actor_id: Uuid, op: &FileOperation, e: WeaveError)
        requires
            old(self).wf(),
        ensures
            final(self).wf(),
            final(self)@ == refuse_rule(old(self)@, conn_id, actor_id, op@, e@),
    {
        // Durability failures must never be acknowledged.
        if e.class == ErrorClass::PersistenceError || e.class == ErrorClass::IntegrityError {
            self.enter_degraded(e.message.as_str());
            self.reply_operation(
                conn_id,
                op.operation_id,
                OperationOutcome::Rejected { class: e.class, message: e.message },
            );
        } else {
            let mut message = e.message;
            match &e.detail {
                Some(d) => {
                    message.push_str("\n");
                    message.push_str(d.as_str());
                },
                None => {},
            }
            let outcome = OperationOutcome::Rejected { class: e.class, message };
            self.record(op, actor_id, &outcome);
            self.reply_operation(conn_id, op.operation_id, outcome);
        }
    }

    fn is_withheld(&self, conn_id: u64, local_seq: u64) -> (yes: bool)
        ensures
            yes == withheld(self@, conn_id, local_seq),
    {
        match &self.barrier {
            None => false,
            Some(b) => {
                let at = peer_index(&b.peers, conn_id);
                if at < b.peers.len() {
                    match b.peers[at].watermark {
                        Some(w) => local_seq > w,
                        None => false,
                    }
                } else {
                    false
                }
            },
        }
    }

    /// One submitted operation. `merge` is the outcome of the line-level merge,
    /// when one was asked for; `fresh` names the conflict, should there be one.
    pub fn submit_with(
        &mut self,
        conn_id: u64,
        actor_id: Uuid,
        op: FileOperation,
        merge: Option<MergeOutcome>,
        now_ms: i64,
        fresh: Uuid,
    ) -> (r: Submitted)
        requires
            old(self).wf(),
            host_room(old(self)@),
        ensures
            final(self).wf(),
            final(self)@ == submit_rule(
                old(self)@,
                conn_id,
                actor_id,
                op@,
                merge_view(merge),
                now_ms,
                fresh,
            ).0,
            match r {
                Submitted::Done => submit_rule(
                    old(self)@,
                    conn_id,
                    actor_id,
                    op@,
                    merge_view(merge),
                    now_ms,
                    fresh,
                ).1,
                Submitted::NeedsMerge(again) => !submit_rule(
                    old(self)@,
                    conn_id,
                    actor_id,
                    op@,
                    merge_view(merge),
                    now_ms,
                    fresh,
                ).1 && (*again)@ == (OperationView { actor_id, ..op@ }),
            },
    {
        // Actor identity is bound to the connection, never taken from the
        // payload.
        let mut op = op;
        op.actor_id = actor_id;
        // Post-barrier work is queued until the target revision is fixed.
        if self.is_withheld(conn_id, op.local_seq) {
            let ghost before = self.deferred_ops@;
            let ghost v = op@;
            self.deferred_ops.push((conn_id, op));
            proof {
                assert(op_views(self.deferred_ops@) =~= op_views(before).push((conn_id, v)));
            }
            return Submitted::Done;
        }
        if !self.state.is_live() {
            let mut message = "Host is not accepting changes: ".to_owned();
            match &self.state {
                SyncState::Paused { reason, detail } => {
                    message.push_str(reason.as_str());
                },
                SyncState::Degraded { reason } => {
                    message.push_str(reason.as_str());
                },
                SyncState::Live => {},
            }
            self.reply_operation(
                conn_id,
                op.operation_id,
                OperationOutcome::Rejected { class: ErrorClass::SessionError, message },
            );
            return Submitted::Done;
        }
        // Idempotency.
        match self.store.lookup_operation(op.operation_id) {
            Some((stored_hash, outcome)) => {
                let hash = op.payload_hash();
                if same_text(stored_hash.as_str(), hash.as_str()) {
                    self.reply_operation(conn_id, op.operation_id, outcome);
                } else {
                    self.reply_operation(
                        conn_id,
                        op.operation_id,
                        OperationOutcome::Rejected {
                            class: ErrorClass::ProtocolError,
                            message: "Operation identifier reused with a different payload.".to_owned(),
                        },
                    );
                }
                return Submitted::Done;
            },
            None => {},
        }
        match self.try_apply(conn_id, actor_id, &op, merge, now_ms, fresh) {
            ApplyResult::Done => Submitted::Done,
            ApplyResult::NeedsMerge => Submitted::NeedsMerge(Box::new(op)),
            ApplyResult::Failed(e) => {
                self.refuse(conn_id, actor_id, &op, e);
                Submitted::Done
            },
        }
    }
}

/// Where a peer stands, or the length.
pub(crate) fn peer_index(peers: &Vec<BarrierPeer>, id: u64) -> (at: usize)
    ensures
        at <= peers@.len(),
        peer_of(views(peers@), id) == if at < peers@.len() {
            Some(peers@[at as int]@)
        } else {
            None
        },
        forall|p: BarrierPeerView|
            p.id == id ==> #[trigger] with_peer(views(peers@), p) == if at < peers@.len() {
                views(peers@).update(at as int, p)
            } else {
                views(peers@).push(p)
            },
{
    let mut i: usize = 0;
    while i < peers.len() && peers[i].id != id
        invariant
            i <= peers@.len(),
            forall|k: int| 0 <= k < i ==> (#[trigger] views(peers@)[k]).id != id,
        decreases peers@.len() - i,
    {
        i = i + 1;
    }
    proof {
        assert forall|p: BarrierPeerView| p.id == id implies #[trigger] with_peer(views(peers@), p)
            == (if i < peers@.len() {
            views(peers@).update(i as int, p)
        } else {
            views(peers@).push(p)
        }) by {
            lemma_peer_at(views(peers@), p, i as int);
        }
        lemma_peer_at(
            views(peers@),
            BarrierPeerView { id, watermark: None, ready: None },
            i as int,
        );
    }
    i
}

} // verus!
