//! The coordinator: conflicts, tasks and everything else a participant asks for.

use vstd::prelude::*;

use crate::client_blobs::DiskFacts;
use crate::error::{conflict as conflict_err, usage, Result, WeaveError};
use crate::host_blobs::{offer_step, LinkAction};
use crate::host_rules::{
    attach_rule, attributed, blob_rule, conn_of, data_rule, declared_scopes, dismiss_rule, follow,
    host_room, limit_rule, no_conflict, oversize_rule, presence_rule, replica_hash_rule,
    report_rule, request_blobs_rule, resolution_digest, resolution_fault, resolve_rule,
    snapshot_message, task_fault, task_finish_rule, task_start_rule, task_update_rule,
    with_active_task, with_conn, ConnView, HostView, ResolutionView,
};
use crate::model::{
    copy_entry, entry_json_declared_text, entry_view, Conflict, ConflictStatus, FileEntry,
    OperationOutcome, Revision, Task, TaskScope, TaskStatus,
};
use crate::proto::{
    state_hash, BlobControl, ConflictReport, HostMessage, OversizePath, OversizeReport,
};
use crate::store_host::found;
use crate::text::{lemma_views_push, opt_view, same_text, texts, views};
use crate::util::{fmt_revision, sha256_hex, short_id, uuid_text, Uuid};
use crate::host::{conn_index, HostEffect, HostEngine};

verus! {

/// A resolution as the client sends it.
pub struct Resolution {
    pub request_id: Uuid,
    pub conflict_id: Uuid,
    pub operation_id: Uuid,
    pub expected_canonical: Option<FileEntry>,
    pub resolved_entry: Option<FileEntry>,
}

impl View for Resolution {
    type V = ResolutionView;

    open spec fn view(&self) -> ResolutionView {
        ResolutionView {
            request_id: self.request_id,
            conflict_id: self.conflict_id,
            operation_id: self.operation_id,
            expected_canonical: entry_view(self.expected_canonical),
            resolved_entry: entry_view(self.resolved_entry),
        }
    }
}

fn no_conflict_error(conflict_id: Uuid) -> (e: WeaveError)
    ensures
        e@ == no_conflict(conflict_id),
{
    let mut m = "No Weave conflict ".to_owned();
    m.push_str(uuid_text(conflict_id).as_str());
    m.push_str(".");
    usage(m.as_str())
}

fn resolution_hash(conflict_id: Uuid, entry: &Option<FileEntry>) -> (s: String)
    ensures
        s@ == resolution_digest(conflict_id, entry_view(*entry)),
{
    let mut text = "[\"".to_owned();
    text.push_str(uuid_text(conflict_id).as_str());
    text.push_str("\",");
    text.push_str(entry_json_declared_text(entry).as_str());
    text.push_str("]");
    sha256_hex(text.as_str().as_bytes())
}

impl HostEngine {
    /// A conflict a client found while rebasing.
    pub fn on_report_conflict(&mut self, actor_id: Uuid, r: ConflictReport, now_ms: i64)
        requires
            old(self).wf(),
            host_room(old(self)@),
        ensures
            final(self).wf(),
            final(self)@ == report_rule(old(self)@, actor_id, r@, now_ms),
    {
        if self.store.conflict(r.id).is_some() {
            return;
        }
        let revision = self.store.current_revision();
        self.store.put_conflict(
            Conflict {
                id: r.id,
                path: r.path,
                kind: r.kind,
                base_entry: r.base_entry,
                canonical_entry: r.canonical_entry,
                incoming_entry: r.incoming_entry,
                latest_local_candidate: r.latest_local_candidate,
                incoming_actor_id: actor_id,
                incoming_task_id: r.incoming_task_id,
                canonical_revision: revision,
                created_at_ms: now_ms,
                status: ConflictStatus::Open,
                resolved_revision: None,
            },
        );
        self.control_changed();
    }

    /// The newest local candidate of a conflict.
    pub fn on_attach_candidate(&mut self, conflict_id: Uuid, entry: Option<FileEntry>) -> (r:
        Result<()>)
        requires
            old(self).wf(),
            host_room(old(self)@),
        ensures
            final(self).wf(),
            final(self)@ == attach_rule(old(self)@, conflict_id, entry_view(entry)).0,
            match r {
                Ok(_) => attach_rule(old(self)@, conflict_id, entry_view(entry)).1 is None,
                Err(e) => attach_rule(old(self)@, conflict_id, entry_view(entry)).1 == Some(e@),
            },
    {
        match self.store.conflict(conflict_id) {
            None => Ok(()),
            Some(c) => {
                let mut conflict = c;
                match &entry {
                    Some(e) => match self.install_content(e, &None) {
                        Ok(_) => {},
                        Err(fault) => {
                            return Err(fault);
                        },
                    },
                    None => {},
                }
                conflict.latest_local_candidate = entry;
                self.store.put_conflict(conflict);
                self.control_changed();
                Ok(())
            },
        }
    }

    /// Check a resolution, and hand out the conflict it settles.
    fn check_resolution(&mut self, r: &Resolution) -> (c: Result<Conflict>)
        requires
            old(self).wf(),
        ensures
            final(self).wf(),
            final(self)@ == old(self)@,
            match c {
                Ok(conflict) => resolution_fault(old(self)@, r@) is None && found::<Conflict>(
                    old(self)@.store.conflicts,
                    r.conflict_id,
                ) == Some(conflict@),
                Err(e) => resolution_fault(old(self)@, r@) == Some(e@),
            },
    {
        match self.store.conflict(r.conflict_id) {
            None => Err(no_conflict_error(r.conflict_id)),
            Some(conflict) => {
                if conflict.status != ConflictStatus::Open {
                    let mut m = "Conflict ".to_owned();
                    m.push_str(conflict.short_id().as_str());
                    m.push_str(" is already ");
                    m.push_str(conflict.status.as_str());
                    m.push_str(".");
                    return Err(usage(m.as_str()));
                }
                let current = self.store.manifest_entry(&conflict.path);
                if !FileEntry::same_as(current.as_ref(), r.expected_canonical.as_ref()) {
                    // The resolver must reconsider against the latest canonical
                    // state; the conflict stays open.
                    let mut d = "The canonical content of ".to_owned();
                    d.push_str(conflict.path.as_str());
                    d.push_str(
                        " changed while the resolution was being prepared.\n\nRe-read the file and run `weave conflict resolve ",
                    );
                    d.push_str(conflict.short_id().as_str());
                    d.push_str("` again.");
                    return Err(conflict_err("ResolutionOutdated").with_detail(d));
                }
                match &r.resolved_entry {
                    Some(e) => match self.install_content(e, &None) {
                        Ok(_) => {},
                        Err(fault) => {
                            return Err(fault);
                        },
                    },
                    None => {},
                }
                Ok(conflict)
            },
        }
    }

    /// Resolve a conflict with one atomic request.
    pub fn on_resolve_conflict(&mut self, conn_id: u64, actor_id: Uuid, r: Resolution, now_ms: i64)
        requires
            old(self).wf(),
            host_room(old(self)@),
        ensures
            final(self).wf(),
            final(self)@ == resolve_rule(old(self)@, conn_id, actor_id, r@, now_ms),
    {
        let conflict = match self.check_resolution(&r) {
            Ok(c) => c,
            Err(e) => {
                self.send_error(conn_id, Some(r.request_id), e);
                return;
            },
        };
        let ghost was = conflict@;
        let current = self.store.manifest_entry(&conflict.path);
        if FileEntry::same_as(r.resolved_entry.as_ref(), current.as_ref()) {
            let mut done = conflict;
            done.status = ConflictStatus::Resolved;
            done.resolved_revision = Some(self.store.current_revision());
            self.store.put_conflict(done);
            self.bump();
            self.ack(
                conn_id,
                r.request_id,
                Some("Resolution matched canonical state; no new revision.".to_owned()),
            );
            self.broadcast_control();
            return;
        }
        let number: u64 = self.store.current_revision() + 1;
        let record = Revision {
            revision: number,
            operation_id: r.operation_id,
            actor_id,
            task_id: None,
            timestamp_ms: now_ms,
            path: conflict.path.clone(),
            before: current,
            after: copy_entry(&r.resolved_entry),
        };
        let hash = resolution_hash(r.conflict_id, &r.resolved_entry);
        let outcome = OperationOutcome::Accepted {
            revision: number,
            canonical_entry: r.resolved_entry,
        };
        self.store.commit_revision(record.clone(), hash.as_str(), &outcome);
        let mut done = conflict;
        done.status = ConflictStatus::Resolved;
        done.resolved_revision = Some(number);
        self.store.put_conflict(done);
        self.bump();
        let mut note = "Resolved at ".to_owned();
        note.push_str(fmt_revision(number).as_str());
        note.push_str(".");
        self.ack(conn_id, r.request_id, Some(note));
        self.broadcast_revision(record);
        self.broadcast_control();
    }

    /// Dismiss a conflict without changing canonical state.
    pub fn on_dismiss_conflict(&mut self, conn_id: u64, request_id: Uuid, conflict_id: Uuid)
        requires
            old(self).wf(),
            host_room(old(self)@),
        ensures
            final(self).wf(),
            final(self)@ == dismiss_rule(old(self)@, conn_id, request_id, conflict_id),
    {
        match self.store.conflict(conflict_id) {
            None => {
                self.send_error(conn_id, Some(request_id), no_conflict_error(conflict_id));
            },
            Some(c) => {
                let mut conflict = c;
                conflict.status = ConflictStatus::Dismissed;
                self.store.put_conflict(conflict);
                self.bump();
                self.ack(conn_id, request_id, None);
                self.broadcast_control();
            },
        }
    }

    /// Scopes as they are declared now.
    fn declare_scopes(&self, scopes: &Vec<TaskScope>) -> (out: Vec<TaskScope>)
        requires
            self.wf(),
        ensures
            views(out@) == declared_scopes(self@.store, views(scopes@)),
    {
        let mut out: Vec<TaskScope> = Vec::new();
        let ghost all = declared_scopes(self@.store, views(scopes@));
        let mut i: usize = 0;
        proof {
            assert(views(out@) =~= all.take(0));
        }
        while i < scopes.len()
            invariant
                self.wf(),
                all == declared_scopes(self@.store, views(scopes@)),
                i <= scopes@.len(),
                views(out@) == all.take(i as int),
            decreases scopes@.len() - i,
        {
            let ghost before = out@;
            let mut scope = scopes[i].clone();
            scope.declared_against = self.store.manifest_entry(&scope.path);
            scope.stale = false;
            out.push(scope);
            proof {
                lemma_views_push(before, scope);
                assert(scope@ == all[i as int]);
                assert(all.take(i + 1) =~= all.take(i as int).push(scope@));
            }
            i = i + 1;
        }
        proof {
            assert(all.take(i as int) =~= all);
        }
        out
    }

    fn set_active_task(&mut self, conn_id: u64, task: Option<Uuid>)
        requires
            old(self).wf(),
        ensures
            final(self).wf(),
            final(self)@ == with_active_task(old(self)@, conn_id, task),
    {
        let at = conn_index(&self.conns, conn_id);
        if at < self.conns.len() {
            let ghost before = self.conns@;
            self.conns[at].active_task_id = task;
            proof {
                assert forall|i: int| 0 <= i < self@.conns.len() implies (
                #[trigger] self@.conns[i]).last_seen_ms >= 0 by {
                    assert(views(before)[i].last_seen_ms >= 0);
                }
                assert(views(self.conns@) =~= views(before).update(
                    at as int,
                    ConnView { active_task_id: task, ..before[at as int]@ },
                ));
            }
        }
    }

    /// Start a Task: one active Task per participant.
    pub fn on_task_start(
        &mut self,
        conn_id: u64,
        actor_id: Uuid,
        request_id: Uuid,
        task_id: Uuid,
        description: String,
        scopes: Vec<TaskScope>,
        now_ms: i64,
    )
        requires
            old(self).wf(),
            host_room(old(self)@),
        ensures
            final(self).wf(),
            final(self)@ == task_start_rule(
                old(self)@,
                conn_id,
                actor_id,
                request_id,
                task_id,
                description@,
                views(scopes@),
                now_ms,
            ),
    {
        match self.store.active_task_for_actor(actor_id) {
            Some(existing) => {
                let mut m = "You already have an active Task: ".to_owned();
                m.push_str(existing.short_id().as_str());
                m.push_str(" — ");
                m.push_str(existing.description.as_str());
                let e = usage(m.as_str()).with_detail(
                    "V1 allows one active Task per participant. Complete or cancel it first.".to_owned(),
                );
                self.send_error(conn_id, Some(request_id), e);
            },
            None => {
                let declared = self.declare_scopes(&scopes);
                let task = Task {
                    id: task_id,
                    actor_id,
                    description,
                    status: TaskStatus::Active,
                    created_at_ms: now_ms,
                    updated_at_ms: now_ms,
                    created_revision: self.store.current_revision(),
                    completed_revision: None,
                    scopes: declared,
                    touched_paths: Vec::new(),
                    first_accepted_revision: None,
                    last_accepted_revision: None,
                };
                proof {
                    assert(task@.touched_paths =~= Seq::<Seq<char>>::empty());
                }
                self.store.put_task(task);
                self.bump();
                self.set_active_task(conn_id, Some(task_id));
                self.ack(conn_id, request_id, None);
                self.broadcast_control();
                self.broadcast_presence();
            },
        }
    }

    /// The task, if this actor may change it.
    fn own_task(&self, actor_id: Uuid, task_id: Uuid) -> (r: Result<Task>)
        ensures
            match r {
                Ok(t) => task_fault(self@, actor_id, task_id) is None && found::<Task>(
                    self@.store.tasks,
                    task_id,
                ) == Some(t@),
                Err(e) => task_fault(self@, actor_id, task_id) == Some(e@),
            },
    {
        match self.store.task(task_id) {
            None => {
                let mut m = "No Weave Task ".to_owned();
                m.push_str(uuid_text(task_id).as_str());
                m.push_str(".");
                Err(usage(m.as_str()))
            },
            Some(t) => {
                if t.actor_id != actor_id {
                    return Err(usage("That Task belongs to another participant."));
                }
                Ok(t)
            },
        }
    }

    pub fn on_task_update(
        &mut self,
        conn_id: u64,
        actor_id: Uuid,
        request_id: Uuid,
        task_id: Uuid,
        description: Option<String>,
        scopes: Option<Vec<TaskScope>>,
        now_ms: i64,
    )
        requires
            old(self).wf(),
            host_room(old(self)@),
        ensures
            final(self).wf(),
            final(self)@ == task_update_rule(
                old(self)@,
                conn_id,
                actor_id,
                request_id,
                task_id,
                opt_view(description),
                match scopes {
                    Some(list) => Some(views(list@)),
                    None => None,
                },
                now_ms,
            ),
    {
        match self.own_task(actor_id, task_id) {
            Err(e) => {
                self.send_error(conn_id, Some(request_id), e);
            },
            Ok(t) => {
                let mut task = t;
                match description {
                    Some(d) => {
                        task.description = d;
                    },
                    None => {},
                }
                match scopes {
                    Some(list) => {
                        task.scopes = self.declare_scopes(&list);
                    },
                    None => {},
                }
                task.updated_at_ms = now_ms;
                self.store.put_task(task);
                self.bump();
                self.ack(conn_id, request_id, None);
                self.broadcast_control();
            },
        }
    }

    /// Complete or cancel a Task.
    pub fn on_task_finish(
        &mut self,
        conn_id: u64,
        actor_id: Uuid,
        request_id: Uuid,
        task_id: Uuid,
        status: TaskStatus,
        now_ms: i64,
    )
        requires
            old(self).wf(),
            host_room(old(self)@),
        ensures
            final(self).wf(),
            final(self)@ == task_finish_rule(
                old(self)@,
                conn_id,
                actor_id,
                request_id,
                task_id,
                status,
                now_ms,
            ),
    {
        match self.own_task(actor_id, task_id) {
            Err(e) => {
                self.send_error(conn_id, Some(request_id), e);
            },
            Ok(t) => {
                let mut task = t;
                task.status = status;
                task.completed_revision = Some(self.store.current_revision());
                task.updated_at_ms = now_ms;
                self.store.put_task(task);
                self.bump();
                let at = conn_index(&self.conns, conn_id);
                let was_active = at < self.conns.len() && match self.conns[at].active_task_id {
                    Some(id) => id == task_id,
                    None => false,
                };
                if was_active {
                    self.set_active_task(conn_id, None);
                }
                self.ack(conn_id, request_id, None);
                self.broadcast_control();
                self.broadcast_presence();
            },
        }
    }

    // ------------------------------------------------- snapshots and content

    pub(crate) fn send_snapshot(&mut self, conn_id: u64)
        requires
            old(self).wf(),
        ensures
            final(self).wf(),
            final(self)@ == old(self)@.send(conn_id, snapshot_message(old(self)@)),
    {
        let manifest = self.store.manifest_all();
        let host_hash = state_hash(&manifest);
        let current = self.store.current_revision();
        self.send(
            conn_id,
            HostMessage::ManifestSnapshot {
                snapshot_revision: current,
                manifest,
                host_state_hash: host_hash,
            },
        );
    }

    /// Compare a replica with canonical state.
    pub fn on_replica_hash(&mut self, conn_id: u64, revision: u64, hash: &str)
        requires
            old(self).wf(),
        ensures
            final(self).wf(),
            final(self)@ == replica_hash_rule(old(self)@, conn_id, revision, hash@),
    {
        if revision == self.store.current_revision() {
            let manifest = self.store.manifest_all();
            let host_hash = state_hash(&manifest);
            if !same_text(host_hash.as_str(), hash) {
                self.send_snapshot(conn_id);
            }
        }
    }

    pub fn on_presence(&mut self, conn_id: u64, last_applied_revision: u64, active_task_id: Option<Uuid>)
        requires
            old(self).wf(),
        ensures
            final(self).wf(),
            final(self)@ == presence_rule(
                old(self)@,
                conn_id,
                last_applied_revision,
                active_task_id,
            ),
    {
        let at = conn_index(&self.conns, conn_id);
        if at < self.conns.len() {
            let ghost before = self.conns@;
            self.conns[at].last_applied_revision = last_applied_revision;
            self.conns[at].active_task_id = active_task_id;
            proof {
                assert forall|i: int| 0 <= i < self.conns@.len() implies (
                #[trigger] self.conns@[i]).link == before[i].link && self.conns@[i].last_seen_ms
                    == before[i].last_seen_ms by {}
                assert forall|i: int| 0 <= i < self@.conns.len() implies (
                #[trigger] self@.conns[i]).last_seen_ms >= 0 by {
                    assert(views(before)[i].last_seen_ms >= 0);
                }
                assert(views(self.conns@) =~= views(before).update(
                    at as int,
                    ConnView { last_applied_revision, active_task_id, ..before[at as int]@ },
                ));
            }
        }
        self.broadcast_presence();
    }

    /// A participant's complete set of paths held back for their size.
    pub fn on_report_oversize(&mut self, conn_id: u64, actor_id: Uuid, paths: Vec<OversizeReport>)
        requires
            old(self).wf(),
            host_room(old(self)@),
        ensures
            final(self).wf(),
            final(self)@ == oversize_rule(old(self)@, conn_id, actor_id, views(paths@)),
    {
        let at = conn_index(&self.conns, conn_id);
        let name = if at < self.conns.len() {
            self.conns[at].display_name.clone()
        } else {
            String::new()
        };
        let ghost all = attributed(actor_id, name@, views(paths@));
        let mut list: Vec<OversizePath> = Vec::new();
        let mut i: usize = 0;
        proof {
            assert(views(list@) =~= all.take(0));
        }
        while i < paths.len()
            invariant
                all == attributed(actor_id, name@, views(paths@)),
                i <= paths@.len(),
                views(list@) == all.take(i as int),
            decreases paths@.len() - i,
        {
            let ghost before = list@;
            let o = OversizePath {
                actor_id,
                display_name: name.clone(),
                path: paths[i].path.clone(),
                size: paths[i].size,
                canonical: paths[i].canonical,
            };
            list.push(o);
            proof {
                lemma_views_push(before, o);
                assert(o@ == all[i as int]);
                assert(all.take(i + 1) =~= all.take(i as int).push(o@));
            }
            i = i + 1;
        }
        proof {
            assert(all.take(i as int) =~= all);
        }
        self.store.replace_oversize(actor_id, list);
        self.control_changed();
    }

    /// Change the session's file size limit.
    pub fn on_set_file_limit(&mut self, conn_id: u64, request_id: Uuid, max_file_size: u64)
        requires
            old(self).wf(),
            host_room(old(self)@),
        ensures
            final(self).wf(),
            final(self)@ == limit_rule(old(self)@, conn_id, request_id, max_file_size),
    {
        self.store.set_max_file_size(max_file_size);
        self.bump();
        self.ack(conn_id, request_id, None);
        self.broadcast_control();
    }

    /// Content a client asks for.
    pub fn on_request_blobs(&mut self, conn_id: u64, hashes: Vec<String>)
        requires
            old(self).wf(),
            conn_of(old(self)@.conns, conn_id) matches Some(c) ==> c.link.last_id + hashes@.len()
                <= u64::MAX,
        ensures
            final(self).wf(),
            final(self)@ == request_blobs_rule(old(self)@, conn_id, texts(hashes@)).0,
    {
        let ghost all = texts(hashes@);
        let mut i: usize = 0;
        while i < hashes.len()
            invariant
                self.wf(),
                all == texts(hashes@),
                i <= hashes@.len(),
                (self@, true) == request_blobs_rule(old(self)@, conn_id, all.take(i as int)),
                conn_of(self@.conns, conn_id) matches Some(c) ==> c.link.last_id + (hashes@.len()
                    - i) <= u64::MAX,
            decreases hashes@.len() - i,
        {
            proof {
                assert(all.take(i + 1).drop_last() =~= all.take(i as int));
                assert(all.take(i + 1).last() == hashes@[i as int]@);
            }
            let hash = hashes[i].as_str();
            if !self.blobs.has(hash) {
                let e = self.blobs.lost(hash);
                let reason = e.message.clone();
                self.enter_degraded(reason.as_str());
                self.send_error(conn_id, None, e);
                proof {
                    lemma_request_stops(old(self)@, conn_id, all, i + 1);
                }
                return;
            }
            let size = self.blobs.size_held(hash);
            let at = conn_index(&self.conns, conn_id);
            if at < self.conns.len() {
                let ghost before = self.conns@;
                let blob = self.conns[at].link.offer(hash, size);
                proof {
                    let link = offer_step(before[at as int].link@, hash@, size).0;
                    assert forall|k: int| 0 <= k < self.conns@.len() implies (
                    #[trigger] self.conns@[k]).link.wf() by {
                        if k != at {
                            assert(self.conns@[k] == before[k]);
                        }
                    }
                    assert forall|k: int| 0 <= k < self@.conns.len() implies (
                    #[trigger] self@.conns[k]).last_seen_ms >= 0 by {
                        assert(views(before)[k].last_seen_ms >= 0);
                    }
                    assert(views(self.conns@) =~= views(before).update(
                        at as int,
                        ConnView { link, ..before[at as int]@ },
                    ));
                    lemma_conn_updated(
                        views(before),
                        conn_id,
                        at as int,
                        ConnView { link, ..before[at as int]@ },
                    );
                }
                self.send(conn_id, HostMessage::Blob { blob });
            }
            i = i + 1;
        }
        proof {
            assert(all.take(i as int) =~= all);
        }
    }

    pub(crate) fn follow(&mut self, conn_id: u64, a: LinkAction)
        requires
            old(self).wf(),
        ensures
            final(self).wf(),
            final(self)@ == follow(old(self)@, conn_id, a@),
    {
        match a {
            LinkAction::Nothing => {},
            LinkAction::Answer(blob) => {
                self.send(conn_id, HostMessage::Blob { blob });
            },
            LinkAction::Stream(job) => {
                self.effect(HostEffect::Stream { to: conn_id, job });
            },
            LinkAction::Installed { transfer_id, hash, size } => {
                let _ = self.blobs.install(hash.as_str(), size);
                self.send(
                    conn_id,
                    HostMessage::Blob { blob: BlobControl::Done { transfer_id, hash } },
                );
            },
        }
    }

    /// One control message of a transfer.
    pub fn on_blob(&mut self, conn_id: u64, blob: BlobControl, disk: DiskFacts)
        requires
            old(self).wf(),
            disk.writer.wf(),
        ensures
            final(self).wf(),
            final(self)@ == blob_rule(
                old(self)@,
                conn_id,
                blob@,
                disk.free,
                disk.writer.held(),
            ),
    {
        let at = conn_index(&self.conns, conn_id);
        if at < self.conns.len() {
            let ghost before = self.conns@;
            let action = self.conns[at].link.on_control(&self.blobs, blob, disk);
            proof {
                let link = self.conns@[at as int].link@;
                assert forall|k: int| 0 <= k < self.conns@.len() implies (
                #[trigger] self.conns@[k]).link.wf() by {
                    if k != at {
                        assert(self.conns@[k] == before[k]);
                    }
                }
                assert forall|k: int| 0 <= k < self@.conns.len() implies (
                #[trigger] self@.conns[k]).last_seen_ms >= 0 by {
                    assert(views(before)[k].last_seen_ms >= 0);
                }
                assert(views(self.conns@) =~= views(before).update(
                    at as int,
                    ConnView { link, ..before[at as int]@ },
                ));
            }
            self.follow(conn_id, action);
        }
    }

    /// One frame of content.
    pub fn on_data(&mut self, conn_id: u64, frame: &[u8])
        requires
            old(self).wf(),
        ensures
            final(self).wf(),
            final(self)@ == data_rule(old(self)@, conn_id, frame@),
    {
        let at = conn_index(&self.conns, conn_id);
        if at < self.conns.len() {
            let ghost before = self.conns@;
            let action = self.conns[at].link.on_data(frame);
            proof {
                let link = self.conns@[at as int].link@;
                assert forall|k: int| 0 <= k < self.conns@.len() implies (
                #[trigger] self.conns@[k]).link.wf() by {
                    if k != at {
                        assert(self.conns@[k] == before[k]);
                    }
                }
                assert forall|k: int| 0 <= k < self@.conns.len() implies (
                #[trigger] self@.conns[k]).last_seen_ms >= 0 by {
                    assert(views(before)[k].last_seen_ms >= 0);
                }
                assert(views(self.conns@) =~= views(before).update(
                    at as int,
                    ConnView { link, ..before[at as int]@ },
                ));
            }
            self.follow(conn_id, action);
        }
    }
}

/// Once an answer has ended, further requests change nothing.
proof fn lemma_request_stops(h: HostView, conn_id: u64, hashes: Seq<Seq<char>>, i: int)
    requires
        0 <= i <= hashes.len(),
        !request_blobs_rule(h, conn_id, hashes.take(i)).1,
    ensures
        request_blobs_rule(h, conn_id, hashes) == request_blobs_rule(h, conn_id, hashes.take(i)),
    decreases hashes.len(),
{
    if i == hashes.len() {
        assert(hashes.take(i) =~= hashes);
    } else {
        assert(hashes.drop_last().take(i) =~= hashes.take(i));
        lemma_request_stops(h, conn_id, hashes.drop_last(), i);
    }
}

/// Changing a connection leaves it findable under its number.
proof fn lemma_conn_updated(list: Seq<ConnView>, id: u64, at: int, c: ConnView)
    requires
        0 <= at < list.len(),
        c.id == id,
        conn_of(list, id) == Some(list[at]),
        with_conn(list, id, c) == list.update(at, c),
    ensures
        conn_of(list.update(at, c), id) == Some(c),
    decreases list.len(),
{
    lemma_with_conn(list, id, c);
}

pub(crate) proof fn lemma_with_conn(list: Seq<ConnView>, id: u64, c: ConnView)
    requires
        c.id == id,
        conn_of(list, id) is Some,
    ensures
        conn_of(with_conn(list, id, c), id) == Some(c),
    decreases list.len(),
{
    if list.len() > 0 {
        if list[0].id != id {
            lemma_with_conn(list.drop_first(), id, c);
            assert((seq![list[0]] + with_conn(list.drop_first(), id, c)).drop_first()
                =~= with_conn(list.drop_first(), id, c));
        }
    }
}

} // verus!
