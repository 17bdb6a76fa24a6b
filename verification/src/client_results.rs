//! The replica: revisions, control state and the results of operations.

use vstd::prelude::*;

use crate::client::{ClientEffect, ClientEngine, Work};
use crate::client_blobs::ids_left;
use crate::client_content::needed;
use crate::client_rules::{
    absent_hashes, apply_control, apply_manifest, clash, conflict_placed, conflicted, drain, due_at,
    enqueue_revision, gone, held_needs, install_merged, landed, limit_changed, merge_failed,
    open_ids, operation_rejected, operation_result, rebase, show_works, with_revision, BarrierLocal,
    ClientView, Why, WorkView,
};
use crate::error::{ErrorClass, WeaveError};
use crate::gitx::MergeOutcome;
use crate::model::{
    copy_entry, entry_view, Conflict, ConflictKind, ConflictStatus, FileEntry, OperationOutcome,
    Revision, RevisionView,
};
use crate::path::RepoPath;
use crate::proto::{rows, ClientMessage, ConflictReport, ControlSnapshot, ManifestEntry};
use crate::reconcile::{merge_view, reconcile, MergeContext, MergeView, Reconciled};
use crate::store_client::{ConflictDraft, InFlight, PathState, PendingLocal, StateView};
use crate::store_host::has_id;
use crate::text::{lemma_texts_push, lemma_views_push, texts, views};
use crate::util::{fmt_revision, format_size, sha256_hex, short_id, Uuid};

verus! {

// ---------------------------------------------------------------------------
// Revisions and control state
// ---------------------------------------------------------------------------

proof fn lemma_revision_at(list: Seq<RevisionView>, r: RevisionView, at: int)
    requires
        0 <= at <= list.len(),
        forall|k: int| 0 <= k < at ==> (#[trigger] list[k]).revision < r.revision,
        at < list.len() ==> list[at].revision >= r.revision,
    ensures
        with_revision(list, r) == if at < list.len() && list[at].revision == r.revision {
            list.update(at, r)
        } else {
            list.insert(at, r)
        },
    decreases list.len(),
{
    if list.len() == 0 {
        assert(list.insert(0, r) =~= seq![r]);
    } else if at == 0 {
        assert(list.update(0, r) =~= seq![r] + list.drop_first());
        assert(list.insert(0, r) =~= seq![r] + list);
    } else {
        let rest = list.drop_first();
        assert(list[0].revision < r.revision);
        assert forall|k: int| 0 <= k < at - 1 implies (#[trigger] rest[k]).revision
            < r.revision by {
            assert(rest[k] == list[k + 1]);
        }
        lemma_revision_at(rest, r, at - 1);
        if at < list.len() && list[at].revision == r.revision {
            assert(list.update(at, r) =~= seq![list[0]] + rest.update(at - 1, r));
        } else {
            assert(list.insert(at, r) =~= seq![list[0]] + rest.insert(at - 1, r));
        }
    }
}

proof fn lemma_due_at(list: Seq<RevisionView>, number: u64, at: int)
    requires
        0 <= at <= list.len(),
        forall|k: int| 0 <= k < at ==> (#[trigger] list[k]).revision != number,
        at < list.len() ==> list[at].revision == number,
    ensures
        due_at(list, number) == at,
    decreases list.len(),
{
    if list.len() > 0 && at > 0 {
        let rest = list.drop_first();
        assert(list[0].revision != number);
        assert forall|k: int| 0 <= k < at - 1 implies (#[trigger] rest[k]).revision != number by {
            assert(rest[k] == list[k + 1]);
        }
        lemma_due_at(rest, number, at - 1);
    }
}

fn ids_gone(before: &Vec<Uuid>, now: &Vec<Uuid>) -> (list: Vec<Uuid>)
    ensures
        list@ == gone(before@, now@),
{
    let mut list: Vec<Uuid> = Vec::new();
    let mut i: usize = 0;
    proof {
        assert(list@ =~= gone(before@.take(0), now@));
    }
    while i < before.len()
        invariant
            i <= before@.len(),
            list@ == gone(before@.take(i as int), now@),
        decreases before@.len() - i,
    {
        proof {
            assert(before@.take(i + 1).drop_last() =~= before@.take(i as int));
            assert(before@.take(i + 1).last() == before@[i as int]);
        }
        if !has_id(now, before[i]) {
            list.push(before[i]);
        }
        i = i + 1;
    }
    proof {
        assert(before@.take(i as int) =~= before@);
    }
    list
}

fn ids_open(list: &Vec<Conflict>) -> (ids: Vec<Uuid>)
    ensures
        ids@ == open_ids(views(list@)),
{
    let mut ids: Vec<Uuid> = Vec::new();
    let ghost all = views(list@);
    let mut i: usize = 0;
    proof {
        assert(ids@ =~= open_ids(all.take(0)));
    }
    while i < list.len()
        invariant
            all == views(list@),
            i <= list@.len(),
            ids@ == open_ids(all.take(i as int)),
        decreases list@.len() - i,
    {
        proof {
            assert(all.take(i + 1).drop_last() =~= all.take(i as int));
            assert(all.take(i + 1).last() == list@[i as int]@);
        }
        if list[i].status == ConflictStatus::Open {
            ids.push(list[i].id);
        }
        i = i + 1;
    }
    proof {
        assert(all.take(i as int) =~= all);
    }
    ids
}

/// What newer local work came to.
fn land(state: PathState, entry: Option<FileEntry>, pending: &PendingLocal, fresh: Uuid) -> (s:
    PathState)
    ensures
        s@ == landed(state@, entry_view(entry), pending@, fresh),
{
    let mut s = state;
    match &s.in_flight {
        Some(f) => {
            s.pending_local = if FileEntry::same_as(entry.as_ref(), f.desired.as_ref()) {
                None
            } else {
                Some(
                    PendingLocal {
                        desired: entry,
                        local_seq: pending.local_seq,
                        task_id: pending.task_id,
                    },
                )
            };
        },
        None => {
            s.pending_local = None;
            s.in_flight = Some(
                InFlight {
                    operation_id: fresh,
                    base_revision: s.confirmed_revision,
                    base_entry: copy_entry(&s.confirmed),
                    desired: entry,
                    local_seq: pending.local_seq,
                    task_id: pending.task_id,
                    sent: false,
                    sent_at_ms: 0,
                },
            );
        },
    }
    s
}

impl ClientEngine {
    pub(crate) fn enqueue_revision(&mut self, r: Revision)
        requires
            old(self).wf(),
        ensures
            final(self).wf(),
            final(self)@ == enqueue_revision(old(self)@, r@),
    {
        proof {
            reveal(enqueue_revision);
        }
        if r.revision <= self.store.last_applied_revision() {
            return;
        }
        self.put_revision(r);
        self.first_one(Work::Drain);
    }

    fn put_revision(&mut self, r: Revision)
        requires
            old(self).wf(),
        ensures
            final(self).wf(),
            final(self)@ == (ClientView {
                pending_revisions: with_revision(old(self)@.pending_revisions, r@),
                ..old(self)@
            }),
    {
        let ghost before = self.pending_revisions@;
        let mut i: usize = 0;
        while i < self.pending_revisions.len() && self.pending_revisions[i].revision < r.revision
            invariant
                *self == *old(self),
                self.wf(),
                before == self.pending_revisions@,
                i <= self.pending_revisions@.len(),
                forall|k: int|
                    0 <= k < i ==> (#[trigger] views(before)[k]).revision < r.revision,
            decreases self.pending_revisions@.len() - i,
        {
            i = i + 1;
        }
        proof {
            lemma_revision_at(views(before), r@, i as int);
        }
        if i < self.pending_revisions.len() && self.pending_revisions[i].revision == r.revision {
            self.pending_revisions[i] = r;
            proof {
                assert(views(self.pending_revisions@) =~= views(before).update(i as int, r@));
            }
        } else {
            self.pending_revisions.insert(i, r);
            proof {
                assert(views(self.pending_revisions@) =~= views(before).insert(i as int, r@));
            }
        }
    }

    fn find_due(&self, number: u64) -> (at: usize)
        ensures
            at <= self.pending_revisions@.len(),
            at as int == due_at(self@.pending_revisions, number),
            at < self.pending_revisions@.len() ==> self.pending_revisions@[at as int].revision
                == number,
    {
        let mut i: usize = 0;
        while i < self.pending_revisions.len()
            invariant
                i <= self.pending_revisions@.len(),
                forall|k: int|
                    0 <= k < i ==> (#[trigger] views(self.pending_revisions@)[k]).revision
                        != number,
            decreases self.pending_revisions@.len() - i,
        {
            if self.pending_revisions[i].revision == number {
                proof {
                    lemma_due_at(views(self.pending_revisions@), number, i as int);
                }
                return i;
            }
            i = i + 1;
        }
        proof {
            lemma_due_at(views(self.pending_revisions@), number, i as int);
        }
        i
    }

    /// Apply buffered revisions strictly in order.
    pub(crate) fn drain_pending_revisions(&mut self)
        requires
            old(self).wf(),
            old(self)@.replica.last_applied_revision < u64::MAX,
        ensures
            final(self).wf(),
            final(self)@ == drain(old(self)@),
    {
        proof {
            reveal(drain);
        }
        let last = self.store.last_applied_revision();
        let at = self.find_due(last + 1);
        proof {
            assert(views(self.pending_revisions@).len() == self.pending_revisions@.len());
        }
        if at < self.pending_revisions.len() {
            let ghost before = self.pending_revisions@;
            let r = self.pending_revisions.remove(at);
            proof {
                assert(views(self.pending_revisions@) =~= views(before).remove(at as int));
                assert(views(before)[at as int] == r@);
            }
            let mut state = self.store.path_state(&r.path);
            if r.revision > state.confirmed_revision {
                state.confirmed = copy_entry(&r.after);
                state.confirmed_revision = r.revision;
                self.put_state(&r.path, state);
            }
            let mut works: Vec<Work> = Vec::new();
            works.push(Work::Materialize { path: r.path.clone() });
            works.push(Work::Applied { revision: r.revision });
            works.push(Work::Drain);
            proof {
                assert(views(works@) =~= seq![
                    WorkView::Materialize { path: r@.path },
                    WorkView::Applied { revision: r.revision },
                    WorkView::Drain,
                ]);
            }
            self.first(works);
        } else if self.pending_revisions.len() > 0 && self.pending_revisions[0].revision > last
            + 1 {
            // A broadcast was lost: ask for a snapshot.
            let mut reason = "gap between ".to_owned();
            reason.push_str(fmt_revision(last).as_str());
            reason.push_str(" and ");
            reason.push_str(fmt_revision(self.pending_revisions[0].revision).as_str());
            self.send(ClientMessage::RequestManifest { reason });
        }
    }

    fn missing_hashes(&self, manifest: &Vec<ManifestEntry>) -> (list: Vec<String>)
        ensures
            texts(list@) == absent_hashes(self@.traffic.store, rows(manifest@)),
    {
        let mut list: Vec<String> = Vec::new();
        let ghost all = rows(manifest@);
        let mut i: usize = 0;
        proof {
            assert(texts(list@) =~= absent_hashes(self@.traffic.store, all.take(0)));
        }
        while i < manifest.len()
            invariant
                all == rows(manifest@),
                i <= manifest@.len(),
                texts(list@) == absent_hashes(self@.traffic.store, all.take(i as int)),
            decreases manifest@.len() - i,
        {
            let ghost before = list@;
            proof {
                assert(all.take(i + 1).drop_last() =~= all.take(i as int));
                assert(all.take(i + 1).last() == manifest@[i as int]@);
            }
            if !self.traffic.holds(manifest[i].entry.blob_hash.as_str()) {
                let h = manifest[i].entry.blob_hash.clone();
                list.push(h);
                proof {
                    lemma_texts_push(before, h);
                }
            }
            i = i + 1;
        }
        proof {
            assert(all.take(i as int) =~= all);
        }
        list
    }

    fn drop_old_revisions(&mut self, revision: u64)
        requires
            old(self).wf(),
        ensures
            final(self).wf(),
            final(self)@ == (ClientView {
                pending_revisions: old(self)@.pending_revisions.filter(
                    |r: RevisionView| r.revision > revision,
                ),
                ..old(self)@
            }),
    {
        let ghost all = self@.pending_revisions;
        let ghost keep = |r: RevisionView| r.revision > revision;
        let mut kept: Vec<Revision> = Vec::new();
        let mut i: usize = 0;
        proof {
            reveal(Seq::filter);
            assert(views(kept@) =~= all.take(0).filter(keep));
        }
        while i < self.pending_revisions.len()
            invariant
                *self == *old(self),
                self.wf(),
                all == views(self.pending_revisions@),
                keep == (|r: RevisionView| r.revision > revision),
                i <= self.pending_revisions@.len(),
                views(kept@) == all.take(i as int).filter(keep),
            decreases self.pending_revisions@.len() - i,
        {
            let ghost before = kept@;
            proof {
                reveal(Seq::filter);
                assert(all.take(i + 1).drop_last() =~= all.take(i as int));
                assert(all.take(i + 1).last() == self.pending_revisions@[i as int]@);
            }
            if self.pending_revisions[i].revision > revision {
                let r = self.pending_revisions[i].clone();
                kept.push(r);
                proof {
                    lemma_views_push(before, r);
                }
            }
            i = i + 1;
        }
        proof {
            assert(all.take(i as int) =~= all);
        }
        self.pending_revisions = kept;
    }

    pub(crate) fn apply_manifest(&mut self, revision: u64, manifest: &Vec<ManifestEntry>)
        requires
            old(self).wf(),
        ensures
            final(self).wf(),
            final(self)@ == apply_manifest(old(self)@, revision, rows(manifest@)),
    {
        proof {
            reveal(apply_manifest);
        }
        self.store.replace_confirmed_manifest(revision, manifest);
        self.store.set_last_applied_revision(revision);
        self.drop_old_revisions(revision);
        let list = self.missing_hashes(manifest);
        self.want_blobs(list);
    }

    /// New control state.
    pub(crate) fn apply_control(&mut self, control: ControlSnapshot)
        requires
            old(self).wf(),
        ensures
            final(self).wf(),
            final(self)@ == apply_control(old(self)@, control@),
    {
        proof {
            reveal(apply_control);
        }
        let before: Vec<Uuid> = match &self.control {
            Some(c) => ids_open(&c.conflicts),
            None => Vec::new(),
        };
        let now = ids_open(&control.conflicts);
        let closed = ids_gone(&before, &now);
        let limited = control.max_file_size != self.max_file_size;
        self.max_file_size = control.max_file_size;
        self.store.set_control_cache(control.clone());
        self.control = Some(control);
        let mut works: Vec<Work> = Vec::new();
        if closed.len() > 0 {
            self.store.close_drafts(&closed);
            works.push(Work::SyncTree);
        }
        if limited {
            works.push(Work::LimitChanged);
        }
        proof {
            if closed.len() > 0 && limited {
                assert(views(works@) =~= seq![WorkView::SyncTree, WorkView::LimitChanged]);
            } else if closed.len() > 0 {
                assert(views(works@) =~= seq![WorkView::SyncTree]);
            } else if limited {
                assert(views(works@) =~= seq![WorkView::LimitChanged]);
            } else {
                assert(views(works@) =~= Seq::<WorkView>::empty());
            }
        }
        self.first(works);
    }

    pub(crate) fn limit_changed(&mut self, now_ms: i64)
        requires
            old(self).wf(),
        ensures
            final(self).wf(),
            final(self)@ == limit_changed(old(self)@, now_ms),
    {
        proof {
            reveal(limit_changed);
        }
        let mut text = "The session file size limit is now ".to_owned();
        text.push_str(format_size(self.max_file_size).as_str());
        text.push_str(".");
        self.note(text);
        self.store.clear_all_oversize();
        self.first_one(Work::ReportOversize);
        self.full_rescan(now_ms);
    }

    // ------------------------------------------------------ operation results

    fn on_operation_rejected(&mut self, path: &RepoPath, class: ErrorClass, message: String)
        requires
            old(self).wf(),
        ensures
            final(self).wf(),
            final(self)@ == operation_rejected(old(self)@, path@, class, message@),
    {
        proof {
            reveal(operation_rejected);
        }
        let mut state = self.store.path_state(path);
        if class == ErrorClass::SessionError || class == ErrorClass::NetworkError || class
            == ErrorClass::PersistenceError {
            // May pass: keep the operation and retry.
            match state.in_flight.take() {
                Some(f) => {
                    let mut f = f;
                    f.sent = false;
                    state.in_flight = Some(f);
                },
                None => {},
            }
            self.put_state(path, state);
            let mut text = path.as_str().to_owned();
            text.push_str(": ");
            text.push_str(message.as_str());
            text.push_str(" (queued for retry)");
            self.note(text);
        } else if class == ErrorClass::ProtocolError {
            // The base is not the host's any more: keep the bytes and start
            // over from a fresh one.
            match state.in_flight.take() {
                Some(f) => {
                    if state.pending_local.is_none() {
                        state.pending_local = Some(
                            PendingLocal {
                                desired: f.desired,
                                local_seq: f.local_seq,
                                task_id: f.task_id,
                            },
                        );
                    }
                },
                None => {},
            }
            self.put_state(path, state);
            let mut text = path.as_str().to_owned();
            text.push_str(": ");
            text.push_str(message.as_str());
            text.push_str("; resynchronizing");
            self.note(text);
            self.send(ClientMessage::RequestManifest { reason: message });
        } else {
            // The file cannot take part; its bytes stay on disk.
            state.in_flight = None;
            state.pending_local = None;
            self.put_state(path, state);
            self.note_rejected(path.as_str(), message.as_str());
        }
    }

    pub(crate) fn on_operation_result(&mut self, operation_id: Uuid, outcome: OperationOutcome)
        requires
            old(self).wf(),
            ids_left(old(self)@.traffic),
        ensures
            final(self).wf(),
            final(self)@ == operation_result(old(self)@, operation_id, outcome@),
    {
        proof {
            reveal(operation_result);
        }
        let path = match self.store.find_flight(operation_id) {
            Some(p) => p,
            None => {
                return;
            },
        };
        let mut state = self.store.path_state(&path);
        let flight = match state.in_flight.take() {
            Some(f) => f,
            None => {
                return;
            },
        };
        if flight.operation_id != operation_id {
            return;
        }
        let ghost told = outcome@;
        let known = outcome.canonical();
        match outcome {
            OperationOutcome::Rejected { class, message } => {
                self.on_operation_rejected(&path, class, message);
                self.check_barrier_ready();
            },
            other => {
                let (revision, canonical) = match known {
                    Some(k) => k,
                    None => (state.confirmed_revision, copy_entry(&state.confirmed)),
                };
                if revision >= state.confirmed_revision {
                    state.confirmed = copy_entry(&canonical);
                    state.confirmed_revision = revision;
                }
                let pending = match &state.pending_local {
                    Some(p) => Some(p.clone()),
                    None => None,
                };
                self.put_state(&path, state);
                match other {
                    OperationOutcome::Conflicted { conflict_id, .. } => {
                        proof {
                            crate::store_client::a_path_keeps_what_was_put(
                                old(self)@.replica,
                                path@,
                                state@,
                                path@,
                            );
                        }
                        self.on_conflicted(&path, conflict_id);
                    },
                    _ => {
                        let mut works: Vec<Work> = Vec::new();
                        match pending {
                            Some(pending) => {
                                works.push(
                                    Work::Rebase {
                                        path,
                                        base: flight.desired,
                                        canonical,
                                        pending,
                                    },
                                );
                                works.push(Work::CheckBarrier);
                                proof {
                                    assert(views(works@) =~= seq![
                                        WorkView::Rebase {
                                            path: path@,
                                            base: entry_view(flight.desired),
                                            canonical: entry_view(canonical),
                                            pending: pending@,
                                        },
                                        WorkView::CheckBarrier,
                                    ]);
                                }
                            },
                            None => {
                                works.push(Work::Materialize { path });
                                works.push(Work::CheckBarrier);
                                proof {
                                    assert(views(works@) =~= seq![
                                        WorkView::Materialize { path: path@ },
                                        WorkView::CheckBarrier,
                                    ]);
                                }
                            },
                        }
                        self.first(works);
                    },
                }
            },
        }
    }

    fn held_hash(&self, entry: &Option<FileEntry>) -> (list: Vec<String>)
        ensures
            texts(list@) == held_needs(self@, entry_view(*entry)),
    {
        let mut list: Vec<String> = Vec::new();
        match entry {
            Some(e) => {
                if self.traffic.holds(e.blob_hash.as_str()) {
                    list.push(e.blob_hash.clone());
                }
            },
            None => {},
        }
        proof {
            assert(texts(list@) =~= held_needs(self@, entry_view(*entry)));
        }
        list
    }

    /// The host turned an operation into a conflict.
    fn on_conflicted(&mut self, path: &RepoPath, conflict_id: Uuid)
        requires
            old(self).wf(),
            ids_left(old(self)@.traffic),
        ensures
            final(self).wf(),
            final(self)@ == conflicted(old(self)@, path@, conflict_id),
    {
        proof {
            reveal(conflicted);
        }
        let mut state = self.store.path_state(path);
        let local_seq = self.store.local_seq();
        let draft = match state.pending_local.take() {
            Some(p) => {
                // Attached before anything is restored.
                let needs = self.held_hash(&p.desired);
                self.send_with(
                    conflict_id,
                    needs,
                    ClientMessage::AttachLocalCandidate {
                        conflict_id,
                        entry: copy_entry(&p.desired),
                    },
                );
                p.desired
            },
            None => copy_entry(&state.materialized),
        };
        state.conflict_draft = Some(ConflictDraft { conflict_id, entry: draft, local_seq });
        self.put_state(path, state);
        let mut works: Vec<Work> = Vec::new();
        works.push(Work::Restore { path: path.clone() });
        works.push(Work::Conflicted { path: path.clone(), conflict_id, in_barrier: true });
        works.push(Work::CheckBarrier);
        proof {
            assert(views(works@) =~= seq![
                WorkView::Restore { path: path@ },
                WorkView::Conflicted { path: path@, conflict_id, in_barrier: true },
                WorkView::CheckBarrier,
            ]);
        }
        self.first(works);
    }

    pub(crate) fn conflict_placed(&mut self, path: &RepoPath, conflict_id: Uuid, in_barrier: bool)
        requires
            old(self).wf(),
        ensures
            final(self).wf(),
            final(self)@ == conflict_placed(old(self)@, path@, conflict_id, in_barrier),
    {
        proof {
            reveal(conflict_placed);
        }
        match self.barrier {
            Some(b) => {
                if in_barrier {
                    self.barrier = Some(
                        BarrierLocal {
                            barrier_id: b.barrier_id,
                            watermark: b.watermark,
                            ready_sent: b.ready_sent,
                            conflicted: true,
                        },
                    );
                }
            },
            None => {},
        }
        let mut text = "Conflict ".to_owned();
        text.push_str(short_id('C', conflict_id).as_str());
        text.push_str(" — ");
        text.push_str(path.as_str());
        text.push_str(
            "\nYour changes could not be merged automatically.\nNo work was discarded.\nRun: weave conflict show ",
        );
        text.push_str(short_id('C', conflict_id).as_str());
        self.note(text);
    }

    pub(crate) fn install_merged(&mut self, bytes: Vec<u8>)
        requires
            old(self).wf(),
        ensures
            final(self).wf(),
            final(self)@ == install_merged(old(self)@, bytes@),
    {
        proof {
            reveal(install_merged);
        }
        let hash = sha256_hex(bytes.as_slice());
        if !self.traffic.holds(hash.as_str()) {
            self.traffic.stored(hash.as_str(), bytes.len() as u64);
            self.effect(ClientEffect::Install { hash, bytes });
        }
    }

    /// Show what newer local work came to, then send what is due.
    fn show(&mut self, path: RepoPath)
        requires
            old(self).wf(),
        ensures
            final(self).wf(),
            final(self)@ == old(self)@.first(show_works(path@)),
    {
        let mut works: Vec<Work> = Vec::new();
        works.push(Work::Visit { path: path.clone(), why: Why::Rebase });
        works.push(Work::Submit { path });
        proof {
            assert(views(works@) =~= show_works(path@));
        }
        self.first(works);
    }

    /// Newer local work takes the place of what was in flight.
    fn carry_on(&mut self, path: RepoPath, entry: Option<FileEntry>, pending: &PendingLocal, fresh: Uuid)
        requires
            old(self).wf(),
        ensures
            final(self).wf(),
            final(self)@ == old(self)@.with_state(
                path@,
                landed(old(self)@.state(path@), entry_view(entry), pending@, fresh),
            ).first(show_works(path@)),
    {
        let state = land(self.store.path_state(&path), entry, pending, fresh);
        self.put_state(&path, state);
        self.show(path);
    }

    /// Newer local work came to what is canonical.
    fn come_together(
        &mut self,
        path: RepoPath,
        canonical: Option<FileEntry>,
        pending: &PendingLocal,
        fresh: Uuid,
    )
        requires
            old(self).wf(),
        ensures
            final(self).wf(),
            final(self)@ == if old(self)@.state(path@).in_flight is Some {
                old(self)@.with_state(
                    path@,
                    landed(old(self)@.state(path@), entry_view(canonical), pending@, fresh),
                ).first(show_works(path@))
            } else {
                old(self)@.with_state(
                    path@,
                    StateView { pending_local: None, ..old(self)@.state(path@) },
                ).first(seq![WorkView::Materialize { path: path@ }])
            },
    {
        let mut state = self.store.path_state(&path);
        if state.in_flight.is_some() {
            self.carry_on(path, canonical, pending, fresh);
        } else {
            state.pending_local = None;
            self.put_state(&path, state);
            self.first_one(Work::Materialize { path });
        }
    }

    /// Put the bytes of a clean merge into the store.
    fn keep_merged(&mut self, merged: bool, merge: Option<MergeOutcome>)
        requires
            old(self).wf(),
        ensures
            final(self).wf(),
            final(self)@ == if merged && merge_view(merge) matches Some(MergeView::Clean(_)) {
                install_merged(old(self)@, merge_view(merge)->0->Clean_0)
            } else {
                old(self)@
            },
    {
        if merged {
            match merge {
                Some(MergeOutcome::Clean(bytes)) => {
                    self.install_merged(bytes);
                },
                _ => {},
            }
        }
    }

    /// Newer local work cannot be merged.
    fn report_clash(
        &mut self,
        path: RepoPath,
        kind: ConflictKind,
        base: Option<FileEntry>,
        canonical: Option<FileEntry>,
        pending: PendingLocal,
        fresh: Uuid,
    )
        requires
            old(self).wf(),
            ids_left(old(self)@.traffic),
        ensures
            final(self).wf(),
            final(self)@ == clash(
                old(self)@,
                path@,
                kind,
                entry_view(base),
                entry_view(canonical),
                pending@,
                fresh,
            ),
    {
        proof {
            reveal(clash);
        }
        let mut state = self.store.path_state(&path);
        // Both sides reach the host before the report that names them.
        let mut needs = self.held_hash(&base);
        let mut more = self.held_hash(&pending.desired);
        let ghost first = texts(needs@);
        let ghost second = texts(more@);
        needs.append(&mut more);
        proof {
            assert(texts(needs@) =~= first + second);
        }
        if state.in_flight.is_some() {
            let mut last = self.held_hash(&canonical);
            let ghost sides = texts(needs@);
            let ghost third = texts(last@);
            needs.append(&mut last);
            proof {
                assert(texts(needs@) =~= sides + third);
            }
        }
        let report = ConflictReport {
            id: fresh,
            path: path.clone(),
            kind,
            base_entry: base,
            canonical_entry: canonical,
            incoming_entry: copy_entry(&pending.desired),
            latest_local_candidate: copy_entry(&pending.desired),
            incoming_task_id: pending.task_id,
        };
        self.send_with(
            fresh,
            needs,
            ClientMessage::ReportConflict { report: Box::new(report) },
        );
        state.pending_local = None;
        state.conflict_draft = Some(
            ConflictDraft {
                conflict_id: fresh,
                entry: pending.desired,
                local_seq: pending.local_seq,
            },
        );
        self.put_state(&path, state);
        let mut works: Vec<Work> = Vec::new();
        works.push(Work::Restore { path: path.clone() });
        works.push(Work::Conflicted { path, conflict_id: fresh, in_barrier: false });
        proof {
            assert(views(works@) =~= seq![
                WorkView::Restore { path: path@ },
                WorkView::Conflicted {
                    path: path@,
                    conflict_id: fresh,
                    in_barrier: false,
                },
            ]);
        }
        self.first(works);
    }

    /// Local continuation rebase: the base is the candidate that was in
    /// flight, and the canonical result is what newer work meets.
    #[verifier::spinoff_prover]
    pub(crate) fn continuation_rebase(
        &mut self,
        path: RepoPath,
        base: Option<FileEntry>,
        canonical: Option<FileEntry>,
        pending: PendingLocal,
        merge: Option<MergeOutcome>,
        fresh: Uuid,
    )
        requires
            old(self).wf(),
            ids_left(old(self)@.traffic),
        ensures
            final(self).wf(),
            final(self)@ == rebase(
                old(self)@,
                path@,
                entry_view(base),
                entry_view(canonical),
                pending@,
                merge_view(merge),
                fresh,
            ),
    {
        proof {
            reveal(rebase);
        }
        let ctx = MergeContext::new(merge);
        let outcome = match reconcile(
            &ctx,
            base.as_ref(),
            canonical.as_ref(),
            pending.desired.as_ref(),
        ) {
            Ok(v) => v,
            Err(_) => {
                return;
            },
        };
        match outcome {
            Reconciled::NeedsMerge => {
                self.first_one(Work::Merge { path, base, canonical, pending });
            },
            Reconciled::Converged => {
                self.come_together(path, canonical, &pending, fresh);
            },
            Reconciled::Accept { entry, merged } => {
                proof {
                    reveal(install_merged);
                }
                self.keep_merged(merged, ctx.merge);
                self.carry_on(path, entry, &pending, fresh);
            },
            Reconciled::Conflict(kind) => {
                self.report_clash(path, kind, base, canonical, pending, fresh);
            },
        }
    }

    pub(crate) fn merge_failed(&mut self, canonical: &Option<FileEntry>, e: WeaveError)
        requires
            old(self).wf(),
        ensures
            final(self).wf(),
            final(self)@ == merge_failed(old(self)@, entry_view(*canonical), e@),
    {
        proof {
            reveal(merge_failed);
        }
        if e.class == ErrorClass::IntegrityError {
            let list = needed(canonical);
            self.want_blobs(list);
        } else {
            self.fail(e);
        }
    }
}

} // verus!
