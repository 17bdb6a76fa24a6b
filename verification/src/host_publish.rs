//! The coordinator: barriers and publications.

use vstd::prelude::*;

use crate::error::{
    conflict as conflict_err, git as git_err, session as session_err, usage, Result, WeaveError,
};
use crate::gitx::PushResult;
use crate::host_rules::{
    host_room, name_of, send_publication, BarrierPeerView, BarrierView, ConnView, HostView,
    NameView,
};
use crate::model::{
    copy_ids, CommitDescriptor, CommitPreparation, FileOperation, GitPublication, OperationView,
    PrepareStatus, PublicationStage, PublicationView, PushStatus, Revision, Task,
};
use crate::proto::{
    rows, CommitOutcome, HostMessage, HostMessageView, ManifestEntry, PrepareOutcome, PrepareView,
};
use crate::publish::{
    collect_contributors, collect_tasks, describe_conflicts, describe_range, diff_manifests,
    full_message, record_push, report_push, sort_paths,
};
use crate::publish_rules::{
    all_answered, announce, author_fault, barrier_ack_rule, barrier_ready_rule, blocking_task,
    commit_author, commit_done_rule, commit_fault, completed_rule, conclude_rule, conn_name,
    covered, descriptor_of, finish_rule, has_answered, is_online, preparation_fault, preparation_of,
    prepare_rejected, prepare_rule, progress, push_refused, push_rule, pushed_rule, record_rule,
    ref_updated_rule, silent_peers, try_finish_rule, unready_peers, waiting_peers, with_absent,
    with_peer, FinishedView,
};
use crate::store_host::{
    contributor_counts, found, stored, task_revisions, tasks_contributing, unassigned_revisions,
    StoreView,
};
use crate::text::{
    join_text, lemma_texts_push, lemma_views_push, listed, opt_view, same_text, texts, trim_text,
    views,
};
use crate::util::{short_id, short_oid, uuid_text, Uuid};
use crate::host::{conn_index, lemma_name_at, op_views, BarrierPeer, BarrierState, HostEngine};
use crate::host_session::copy_peer;
use crate::host_submit::peer_index;

verus! {

/// A finished barrier: the answer for the requester, and the operations that
/// were withheld, in the order they came.
pub struct Finished {
    pub requester_conn: u64,
    pub request_id: Uuid,
    pub outcome: PrepareOutcome,
    pub released: Vec<(u64, FileOperation)>,
    /// Whether everybody has still to hear who is present.
    pub presence_due: bool,
}

impl View for Finished {
    type V = FinishedView;

    open spec fn view(&self) -> FinishedView {
        FinishedView {
            requester_conn: self.requester_conn,
            request_id: self.request_id,
            outcome: self.outcome@,
            released: op_views(self.released@),
            presence_due: self.presence_due,
        }
    }
}

fn no_answer(id: u64) -> (p: BarrierPeer)
    ensures
        p@ == (BarrierPeerView { id, watermark: None, ready: None }),
{
    BarrierPeer { id, watermark: None, ready: None }
}

fn rejected_prepare(e: WeaveError) -> (o: PrepareOutcome)
    ensures
        o@ == PrepareView::Rejected(e@),
{
    PrepareOutcome::Rejected { class: e.class, message: e.message, detail: e.detail }
}

impl HostEngine {
    fn reject_prepare(&mut self, conn_id: u64, request_id: Uuid, e: WeaveError)
        requires
            old(self).wf(),
        ensures
            final(self).wf(),
            final(self)@ == prepare_rejected(old(self)@, conn_id, request_id, e@),
    {
        let outcome = rejected_prepare(e);
        self.send(conn_id, HostMessage::PrepareResult { request_id, outcome: Box::new(outcome) });
    }

    /// Start a commit preparation: a barrier that every participant answers.
    pub fn on_commit_prepare(
        &mut self,
        conn_id: u64,
        actor_id: Uuid,
        request_id: Uuid,
        allow_active_tasks: bool,
        now_ms: i64,
        fresh: Uuid,
    )
        requires
            old(self).wf(),
            now_ms >= 0,
        ensures
            final(self).wf(),
            final(self)@ == prepare_rule(
                old(self)@,
                conn_id,
                actor_id,
                request_id,
                allow_active_tasks,
                now_ms,
                fresh,
            ),
    {
        if self.barrier.is_some() {
            let e = session_err("Another commit preparation is already running.").with_detail(
                "Wait for it to finish and retry.".to_owned(),
            );
            self.reject_prepare(conn_id, request_id, e);
            return;
        }
        if !self.state.is_live() {
            let e = session_err("Weave is paused; Git publication is unavailable.").with_detail(
                "Run `weave status` for the reason.".to_owned(),
            );
            self.reject_prepare(conn_id, request_id, e);
            return;
        }
        let ids = self.known();
        let ghost all = waiting_peers(ids@);
        let mut peers: Vec<BarrierPeer> = Vec::new();
        let mut i: usize = 0;
        proof {
            assert(views(peers@) =~= all.take(0));
        }
        while i < ids.len()
            invariant
                all == waiting_peers(ids@),
                i <= ids@.len(),
                views(peers@) == all.take(i as int),
            decreases ids@.len() - i,
        {
            let ghost before = peers@;
            let p = no_answer(ids[i]);
            peers.push(p);
            proof {
                lemma_views_push(before, p);
                assert(all.take(i + 1) =~= all.take(i as int).push(p@));
            }
            i = i + 1;
        }
        proof {
            assert(all.take(i as int) =~= all);
        }
        self.barrier = Some(
            BarrierState {
                barrier_id: fresh,
                request_id,
                requester_conn: conn_id,
                requester_actor: actor_id,
                allow_active_tasks,
                started_ms: now_ms,
                peers,
            },
        );
        self.broadcast(HostMessage::BarrierStart { barrier_id: fresh });
    }

    fn set_peer(&mut self, p: BarrierPeer)
        requires
            old(self).wf(),
            old(self)@.barrier is Some,
        ensures
            final(self).wf(),
            final(self)@ == (HostView {
                barrier: Some(
                    BarrierView {
                        peers: with_peer(old(self)@.barrier->0.peers, p@),
                        ..old(self)@.barrier->0
                    },
                ),
                ..old(self)@
            }),
    {
        match self.barrier.take() {
            Some(b) => {
                let mut b = b;
                let ghost before = b.peers@;
                let at = peer_index(&b.peers, p.id);
                if at < b.peers.len() {
                    b.peers[at] = p;
                    proof {
                        assert(views(b.peers@) =~= views(before).update(at as int, p@));
                    }
                } else {
                    b.peers.push(p);
                    proof {
                        lemma_views_push(before, p);
                    }
                }
                self.barrier = Some(b);
            },
            None => {},
        }
    }

    /// The progress of a connection in the running barrier.
    fn progress_of(&self, barrier_id: Uuid, conn_id: u64) -> (p: Option<BarrierPeer>)
        ensures
            opt_view(p) == match self@.barrier {
                Some(b) => if b.barrier_id == barrier_id {
                    Some(progress(b.peers, conn_id))
                } else {
                    None
                },
                None => None,
            },
    {
        match &self.barrier {
            Some(b) => {
                if b.barrier_id != barrier_id {
                    return None;
                }
                let at = peer_index(&b.peers, conn_id);
                if at < b.peers.len() {
                    Some(copy_peer(&b.peers[at]))
                } else {
                    Some(no_answer(conn_id))
                }
            },
            None => None,
        }
    }

    /// A participant froze its watermark.
    pub fn on_barrier_ack(&mut self, conn_id: u64, barrier_id: Uuid, watermark: u64)
        requires
            old(self).wf(),
        ensures
            final(self).wf(),
            final(self)@ == barrier_ack_rule(old(self)@, conn_id, barrier_id, watermark),
    {
        match self.progress_of(barrier_id, conn_id) {
            Some(p) => {
                let mut p = p;
                p.watermark = Some(watermark);
                self.set_peer(p);
            },
            None => {},
        }
    }

    /// A participant said whether everything up to its watermark is settled.
    pub fn on_barrier_ready(&mut self, conn_id: u64, barrier_id: Uuid, ok: bool, detail: String)
        requires
            old(self).wf(),
        ensures
            final(self).wf(),
            final(self)@ == barrier_ready_rule(old(self)@, conn_id, barrier_id, ok, detail@),
    {
        match self.progress_of(barrier_id, conn_id) {
            Some(p) => {
                let mut p = p;
                p.ready = Some((ok, detail));
                self.set_peer(p);
            },
            None => {},
        }
    }

    fn name_of_conn(&self, id: u64) -> (s: String)
        ensures
            s@ == conn_name(self@, id),
    {
        let at = conn_index(&self.conns, id);
        if at < self.conns.len() {
            self.conns[at].display_name.clone()
        } else {
            "unknown participant".to_owned()
        }
    }

    /// The peers that are not ready, and the peers that said nothing.
    fn unanswered(&self, peers: &Vec<BarrierPeer>) -> (r: (Vec<String>, Vec<String>))
        ensures
            texts(r.0@) == unready_peers(self@, views(peers@)),
            texts(r.1@) == silent_peers(self@, views(peers@)),
    {
        let mut unready: Vec<String> = Vec::new();
        let mut silent: Vec<String> = Vec::new();
        let ghost all = views(peers@);
        let mut i: usize = 0;
        proof {
            assert(texts(unready@) =~= unready_peers(self@, all.take(0)));
            assert(texts(silent@) =~= silent_peers(self@, all.take(0)));
        }
        while i < peers.len()
            invariant
                all == views(peers@),
                i <= peers@.len(),
                texts(unready@) == unready_peers(self@, all.take(i as int)),
                texts(silent@) == silent_peers(self@, all.take(i as int)),
            decreases peers@.len() - i,
        {
            let ghost unready0 = unready@;
            let ghost silent0 = silent@;
            proof {
                assert(all.take(i + 1).drop_last() =~= all.take(i as int));
                assert(all.take(i + 1).last() == peers@[i as int]@);
            }
            let name = self.name_of_conn(peers[i].id);
            match &peers[i].ready {
                Some((ok, detail)) => {
                    if !*ok {
                        let mut line = name;
                        line.push_str(": ");
                        line.push_str(detail.as_str());
                        unready.push(line);
                        proof {
                            lemma_texts_push(unready0, line);
                        }
                    }
                },
                None => {
                    silent.push(name);
                    proof {
                        lemma_texts_push(silent0, name);
                    }
                },
            }
            i = i + 1;
        }
        proof {
            assert(all.take(i as int) =~= all);
        }
        (unready, silent)
    }

    /// The first active task that contributed to what would be published.
    fn find_blocking_task(&self, tasks: &Vec<Task>, span: &Vec<Revision>) -> (e: Option<WeaveError>)
        requires
            views(span@) == covered(self@.store),
        ensures
            opt_view(e) == blocking_task(self@, views(tasks@)),
    {
        let ghost all = views(tasks@);
        let mut i: usize = 0;
        proof {
            assert(all.skip(0) =~= all);
        }
        while i < tasks.len()
            invariant
                all == views(tasks@),
                i <= tasks@.len(),
                views(span@) == covered(self@.store),
                blocking_task(self@, all) == blocking_task(self@, all.skip(i as int)),
            decreases tasks@.len() - i,
        {
            proof {
                assert(all.skip(i as int)[0] == tasks@[i as int]@);
                assert(all.skip(i as int).drop_first() =~= all.skip(i + 1));
            }
            let list = task_revisions(span, tasks[i].id);
            if list.len() > 0 {
                let mut d = tasks[i].short_id();
                d.push_str(" — ");
                match self.find_name(tasks[i].actor_id) {
                    Some(n) => {
                        d.push_str(n.as_str());
                    },
                    None => {
                        d.push_str("a participant");
                    },
                }
                d.push_str("\n\"");
                d.push_str(tasks[i].description.as_str());
                d.push_str("\"\n\nis still active and contributed:\n");
                d.push_str(describe_range(&list).as_str());
                d.push_str("\n\nComplete or cancel the Task first.");
                return Some(conflict_err("Cannot prepare Git publication.").with_detail(d));
            }
            i = i + 1;
        }
        None
    }

    fn find_name(&self, actor_id: Uuid) -> (n: Option<String>)
        ensures
            opt_view(n) == name_of(self@.names, actor_id),
    {
        let mut i: usize = 0;
        while i < self.names.len()
            invariant
                i <= self.names@.len(),
                forall|k: int|
                    0 <= k < i ==> (#[trigger] views(self.names@)[k]).actor_id != actor_id,
            decreases self.names@.len() - i,
        {
            if self.names[i].actor_id == actor_id {
                proof {
                    lemma_name_at(
                        views(self.names@),
                        NameView { actor_id, name: Seq::empty() },
                        i as int,
                    );
                }
                return Some(self.names[i].name.clone());
            }
            i = i + 1;
        }
        proof {
            lemma_name_at(
                views(self.names@),
                NameView { actor_id, name: Seq::empty() },
                i as int,
            );
        }
        None
    }

    fn has_conn(&self, actor_id: Uuid) -> (yes: bool)
        ensures
            yes == is_online(self@.conns, actor_id),
    {
        let mut i: usize = 0;
        while i < self.conns.len()
            invariant
                i <= self.conns@.len(),
                forall|k: int|
                    0 <= k < i ==> (#[trigger] views(self.conns@)[k]).actor_id != Some(actor_id),
            decreases self.conns@.len() - i,
        {
            match self.conns[i].actor_id {
                Some(a) => {
                    if a == actor_id {
                        proof {
                            assert(views(self.conns@)[i as int].actor_id == Some(actor_id));
                        }
                        return true;
                    }
                },
                None => {},
            }
            i = i + 1;
        }
        false
    }

    /// Everybody who could not take part.
    pub(crate) fn absent(&self, silent: Vec<String>) -> (list: Vec<String>)
        ensures
            texts(list@) == with_absent(self@, texts(silent@), self@.store.actors),
    {
        let ghost start = texts(silent@);
        let mut list = silent;
        let actors = self.store.actors();
        let ghost all = views(actors@);
        let mut i: usize = 0;
        proof {
            assert(texts(list@) == with_absent(self@, start, all.take(0)));
        }
        while i < actors.len()
            invariant
                all == views(actors@),
                i <= actors@.len(),
                texts(list@) == with_absent(self@, start, all.take(i as int)),
            decreases actors@.len() - i,
        {
            let ghost before = list@;
            proof {
                assert(all.take(i + 1).drop_last() =~= all.take(i as int));
                assert(all.take(i + 1).last() == actors@[i as int]@);
            }
            let online = self.has_conn(actors[i].actor_id);
            if !online && !listed(&list, actors[i].display_name.as_str()) {
                let name = actors[i].display_name.clone();
                list.push(name);
                proof {
                    lemma_texts_push(before, name);
                }
            }
            i = i + 1;
        }
        proof {
            assert(all.take(i as int) =~= all);
        }
        list
    }

    /// Make the preparation, bound to the current revision, or say why not.
    fn build_preparation(
        &mut self,
        b: &BarrierState,
        now_ms: i64,
        fresh: Uuid,
    ) -> (r: Result<CommitPreparation>)
        requires
            old(self).wf(),
            host_room(old(self)@),
        ensures
            final(self).wf(),
            match r {
                Err(e) => preparation_fault(old(self)@, b@) == Some(e@) && final(self)@ == old(
                    self,
                )@,
                Ok(prep) => {
                    &&& preparation_fault(old(self)@, b@) is None
                    &&& prep@ == preparation_of(old(self)@, b@, now_ms, fresh)
                    &&& final(self)@ == old(self)@.with_store(
                        StoreView {
                            preparations: stored::<CommitPreparation>(
                                old(self)@.store.preparations,
                                prep@,
                            ),
                            ..old(self)@.store
                        }.bumped(),
                    )
                },
            },
    {
        let (unready, silent) = self.unanswered(&b.peers);
        if unready.len() > 0 {
            let mut d = join_text(&unready, "\n");
            d.push_str("\n\nResolve or dismiss every open conflict with `weave conflict resolve`.");
            return Err(
                conflict_err(
                    "Cannot prepare Git publication: unresolved conflicts from pre-barrier work.",
                ).with_detail(d),
            );
        }
        let open = self.store.open_conflicts();
        if open.len() > 0 {
            let lines = describe_conflicts(&open);
            let mut d = join_text(&lines, "\n");
            d.push_str("\n\nResolve or dismiss them, then run `weave commit prepare` again.");
            return Err(
                conflict_err(
                    "Cannot prepare Git publication: open Weave conflicts remain.",
                ).with_detail(d),
            );
        }
        let target_revision = self.store.current_revision();
        let latest = self.store.latest_publication();
        let previous: u64 = match &latest {
            Some(p) => p.descriptor.target_revision,
            None => 0,
        };
        let parent_commit_oid = match &latest {
            Some(p) => p.descriptor.commit_oid.clone(),
            None => self.session.base_commit.clone(),
        };
        let span = self.store.span(previous, target_revision);
        // An active Task whose accepted revisions are inside the target must
        // not be silently published.
        if !b.allow_active_tasks {
            let active = self.store.active_tasks();
            match self.find_blocking_task(&active, &span) {
                Some(e) => {
                    return Err(e);
                },
                None => {},
            }
        }
        let included_task_ids = tasks_contributing(&span);
        let (included_tasks, touched) = collect_tasks(&self.store, &included_task_ids, &span);
        let counts = contributor_counts(&span);
        proof {
            assert(views(counts@) =~= counts@);
        }
        let contributors = collect_contributors(&self.store, &counts);
        let before = self.store.manifest_at(previous);
        let after = self.store.manifest_at(target_revision);
        let prep = CommitPreparation {
            prepare_id: fresh,
            target_revision,
            parent_commit_oid,
            requesting_actor: b.requester_actor,
            included_task_ids,
            included_tasks,
            touched_paths: sort_paths(&touched),
            unassigned_revisions: unassigned_revisions(&span),
            created_at_ms: now_ms,
            status: PrepareStatus::Prepared,
            previous_published_revision: previous,
            diff_summary: diff_manifests(&before, &after),
            contributors,
            disconnected_participants: self.absent(silent),
        };
        self.store.put_preparation(prep.clone());
        self.bump();
        Ok(prep)
    }

    /// The barrier is over: make or refuse the preparation, tell everybody and
    /// let the withheld operations go.
    pub fn finish_barrier(&mut self, now_ms: i64, fresh: Uuid) -> (f: Option<Finished>)
        requires
            old(self).wf(),
            host_room(old(self)@),
        ensures
            final(self).wf(),
            match old(self)@.barrier {
                None => f is None && final(self)@ == old(self)@,
                Some(b) => f is Some && (final(self)@, f->0@) == finish_rule(
                    old(self)@,
                    b,
                    now_ms,
                    fresh,
                ),
            },
    {
        match self.barrier.take() {
            None => None,
            Some(b) => {
                let outcome = match self.build_preparation(&b, now_ms, fresh) {
                    Ok(prep) => PrepareOutcome::Prepared(Box::new(prep)),
                    Err(e) => rejected_prepare(e),
                };
                self.broadcast(HostMessage::BarrierEnd { barrier_id: b.barrier_id });
                let mut released: Vec<(u64, FileOperation)> = Vec::new();
                std::mem::swap(&mut released, &mut self.deferred_ops);
                proof {
                    assert(op_views(self.deferred_ops@) =~= Seq::<(u64, OperationView)>::empty());
                }
                Some(
                    Finished {
                        requester_conn: b.requester_conn,
                        request_id: b.request_id,
                        outcome,
                        released,
                        presence_due: false,
                    },
                )
            },
        }
    }

    /// Finish the barrier, if there is one and everybody has answered.
    pub fn try_finish_barrier(&mut self, now_ms: i64, fresh: Uuid) -> (f: Option<Finished>)
        requires
            old(self).wf(),
            host_room(old(self)@),
        ensures
            final(self).wf(),
            (final(self)@, opt_view(f)) == try_finish_rule(old(self)@, now_ms, fresh),
    {
        let ready = match &self.barrier {
            None => false,
            Some(b) => everybody_answered(&b.peers),
        };
        if ready {
            self.finish_barrier(now_ms, fresh)
        } else {
            None
        }
    }

    /// The withheld operations have been handled: answer the requester, and
    /// tell everybody who is present where that is due.
    pub fn conclude(
        &mut self,
        requester_conn: u64,
        request_id: Uuid,
        outcome: PrepareOutcome,
        presence_due: bool,
    )
        requires
            old(self).wf(),
        ensures
            final(self).wf(),
            final(self)@ == conclude_rule(
                old(self)@,
                requester_conn,
                request_id,
                outcome@,
                presence_due,
            ),
    {
        self.send(
            requester_conn,
            HostMessage::PrepareResult { request_id, outcome: Box::new(outcome) },
        );
        self.broadcast_control();
        if presence_due {
            self.broadcast_presence();
        }
    }

    // ------------------------------------------------------------- the commit

    /// Check a commit request, and hand out its preparation with the manifest
    /// of the revision it is bound to.
    pub fn begin_commit(&self, prepare_id: Uuid, message: &str, head: &str) -> (r: Result<
        (CommitPreparation, Vec<ManifestEntry>),
    >)
        requires
            self.wf(),
        ensures
            match r {
                Ok((prep, manifest)) => {
                    &&& commit_fault(self@, prepare_id, message@, head@) is None
                    &&& found::<CommitPreparation>(self@.store.preparations, prepare_id) == Some(
                        prep@,
                    )
                    &&& rows(manifest@) == self@.store.at(prep@.target_revision)
                },
                Err(e) => commit_fault(self@, prepare_id, message@, head@) == Some(e@),
            },
    {
        match self.store.preparation(prepare_id) {
            None => {
                let mut m = "No Weave commit preparation ".to_owned();
                m.push_str(uuid_text(prepare_id).as_str());
                m.push_str(".");
                Err(
                    usage(m.as_str()).with_detail(
                        "Run `weave commit prepare` to create one.".to_owned(),
                    ),
                )
            },
            Some(prep) => {
                if prep.status != PrepareStatus::Prepared {
                    let mut m = "Preparation ".to_owned();
                    m.push_str(prep.short_id().as_str());
                    m.push_str(" is already ");
                    m.push_str(prep.status.as_str());
                    m.push_str(".");
                    return Err(usage(m.as_str()));
                }
                if trim_text(message).as_str().is_empty() {
                    return Err(
                        usage("A commit message is required.").with_detail(
                            "Pass --message, or supply the message on stdin.".to_owned(),
                        ),
                    );
                }
                if !same_text(head, prep.parent_commit_oid.as_str()) {
                    let mut d = "Expected parent:\n".to_owned();
                    d.push_str(short_oid(prep.parent_commit_oid.as_str()).as_str());
                    d.push_str("\n\nCurrent Git commit:\n");
                    d.push_str(short_oid(head).as_str());
                    d.push_str("\n\nRun `weave commit prepare` again.");
                    return Err(
                        git_err(
                            "The Git branch moved since this publication was prepared.",
                        ).with_detail(d),
                    );
                }
                let manifest = self.store.manifest_at(prep.target_revision);
                Ok((prep, manifest))
            },
        }
    }

    fn author_of(&self, actor_id: Uuid) -> (a: (String, String))
        ensures
            (a.0@, a.1@) == commit_author(self@, actor_id),
    {
        match self.store.actor(actor_id) {
            Some(a) => {
                if trim_text(a.git_email.as_str()).as_str().is_empty() {
                    (a.git_name, self.host_git_email.clone())
                } else {
                    (a.git_name, a.git_email)
                }
            },
            None => (self.host_git_name.clone(), self.host_git_email.clone()),
        }
    }

    /// Describe the commit that will be made of a tree.
    pub fn describe_commit(
        &self,
        prep: &CommitPreparation,
        actor_id: Uuid,
        message: &str,
        tree_oid: String,
        timestamp: i64,
    ) -> (r: Result<CommitDescriptor>)
        ensures
            match r {
                Ok(d) => author_fault(self@, actor_id) is None && d@ == descriptor_of(
                    self@,
                    prep@,
                    actor_id,
                    message@,
                    tree_oid@,
                    timestamp,
                ),
                Err(e) => author_fault(self@, actor_id) == Some(e@),
            },
    {
        let (author_name, author_email) = self.author_of(actor_id);
        if trim_text(author_email.as_str()).as_str().is_empty() {
            return Err(
                usage("No Git email address is configured for the commit author.").with_detail(
                    "Run `git config user.email you@example.com` on the requesting machine (and on the host), then prepare the publication again.".to_owned(),
                ),
            );
        }
        if trim_text(self.host_git_email.as_str()).as_str().is_empty() {
            return Err(
                usage("The Weave host has no Git email address configured.").with_detail(
                    "Run `git config user.email you@example.com` on the host and retry.".to_owned(),
                ),
            );
        }
        let full = full_message(prep, message, author_email.as_str());
        Ok(
            CommitDescriptor {
                prepare_id: prep.prepare_id,
                target_revision: prep.target_revision,
                parent_commit_oid: prep.parent_commit_oid.clone(),
                tree_oid,
                commit_oid: String::new(),
                author_name,
                author_email,
                committer_name: self.host_git_name.clone(),
                committer_email: self.host_git_email.clone(),
                timestamp,
                timezone: "+0000".to_owned(),
                message: full,
                contributing_task_ids: copy_ids(&prep.included_task_ids),
                branch: self.branch.clone(),
            },
        )
    }

    /// Whether there is a remote to push to.
    pub fn has_remote(&self) -> (yes: bool)
        ensures
            yes == (self@.remote is Some),
    {
        self.remote_name.is_some()
    }

    /// Record a publication before any ref is touched.
    pub fn record_publication(
        &mut self,
        descriptor: CommitDescriptor,
        commit_oid: String,
        now_ms: i64,
    ) -> (p: GitPublication)
        requires
            old(self).wf(),
            host_room(old(self)@),
        ensures
            final(self).wf(),
            (final(self)@, p@) == record_rule(old(self)@, descriptor@, commit_oid@, now_ms),
    {
        let mut descriptor = descriptor;
        descriptor.commit_oid = commit_oid;
        let p = GitPublication {
            descriptor,
            stage: PublicationStage::ObjectsInstalled,
            push_status: PushStatus::NotAttempted,
            push_error: None,
            created_at_ms: now_ms,
            sequence: self.store.next_publication_sequence(),
        };
        self.store.put_publication(p.clone());
        p
    }

    /// The branch has moved to the commit.
    pub fn ref_updated(&mut self, p: GitPublication) -> (next: GitPublication)
        requires
            old(self).wf(),
        ensures
            final(self).wf(),
            (final(self)@, next@) == ref_updated_rule(old(self)@, p@),
    {
        let mut p = p;
        p.stage = PublicationStage::RefUpdated;
        self.store.put_publication(p.clone());
        self.expected_head = p.descriptor.commit_oid.clone();
        p
    }

    /// The index has moved too: the publication is complete.
    pub fn publication_complete(&mut self, p: GitPublication) -> (next: GitPublication)
        requires
            old(self).wf(),
        ensures
            final(self).wf(),
            (final(self)@, next@) == completed_rule(old(self)@, p@),
    {
        let mut p = p;
        p.stage = PublicationStage::Complete;
        self.store.put_publication(p.clone());
        match self.store.preparation(p.descriptor.prepare_id) {
            Some(prep) => {
                let mut prep = prep;
                prep.status = PrepareStatus::Published;
                self.store.put_preparation(prep);
            },
            None => {},
        }
        p
    }

    /// The automatic push was tried, or there is no remote to push to.
    pub fn publication_pushed(&mut self, p: GitPublication, push: Option<PushResult>) -> (next:
        GitPublication)
        requires
            old(self).wf(),
            old(self)@.store.control_version < u64::MAX,
        ensures
            final(self).wf(),
            (final(self)@, next@) == pushed_rule(old(self)@, p@, opt_view(push)),
    {
        let next = record_push(p, push);
        self.store.put_publication(next.clone());
        self.bump();
        next
    }

    fn announce_publication(&mut self, p: &GitPublication)
        requires
            old(self).wf(),
        ensures
            final(self).wf(),
            final(self)@ == announce(old(self)@, old(self)@.conns, p@),
    {
        let ghost all = self@.conns;
        let mut i: usize = 0;
        proof {
            assert(all.take(0) =~= Seq::<ConnView>::empty());
        }
        while i < self.conns.len()
            invariant
                self.wf(),
                all == old(self)@.conns,
                self@.conns == all,
                self.conns@.len() == all.len(),
                i <= all.len(),
                self@ == announce(old(self)@, all.take(i as int), p@),
            decreases all.len() - i,
        {
            proof {
                assert(all.take(i + 1).drop_last() =~= all.take(i as int));
                assert(all.take(i + 1).last() == self.conns@[i as int]@);
                lemma_announce_frame(old(self)@, all.take(i + 1), p@);
            }
            let id = self.conns[i].id;
            self.send_publication(id, p);
            i = i + 1;
        }
        proof {
            assert(all.take(i as int) =~= all);
        }
    }

    /// Answer a commit request.
    pub fn commit_done(&mut self, conn_id: u64, request_id: Uuid, outcome: CommitOutcome)
        requires
            old(self).wf(),
        ensures
            final(self).wf(),
            final(self)@ == commit_done_rule(old(self)@, conn_id, request_id, outcome@),
    {
        match &outcome {
            CommitOutcome::Published { publication } => {
                self.announce_publication(publication);
            },
            CommitOutcome::Rejected { .. } => {},
        }
        self.send(conn_id, HostMessage::CommitResult { request_id, outcome: Box::new(outcome) });
        self.broadcast_control();
    }

    /// A push request: whether it can be tried. If not, it is answered.
    pub fn on_push(&mut self, conn_id: u64, request_id: Uuid) -> (go: bool)
        requires
            old(self).wf(),
        ensures
            final(self).wf(),
            go == (push_refused(old(self)@) is None),
            final(self)@ == match push_refused(old(self)@) {
                None => old(self)@,
                Some((status, message)) => old(self)@.send(
                    conn_id,
                    HostMessageView::PushResult { request_id, status, message },
                ),
            },
    {
        if self.store.latest_publication().is_none() {
            self.send(
                conn_id,
                HostMessage::PushResult {
                    request_id,
                    status: PushStatus::NotAttempted,
                    message: "Nothing has been published yet.".to_owned(),
                },
            );
            return false;
        }
        if self.remote_name.is_none() {
            self.send(
                conn_id,
                HostMessage::PushResult {
                    request_id,
                    status: PushStatus::NoUpstream,
                    message: "This branch has no upstream remote.".to_owned(),
                },
            );
            return false;
        }
        true
    }

    /// A push request was tried.
    pub fn push_done(&mut self, conn_id: u64, request_id: Uuid, result: PushResult)
        requires
            old(self).wf(),
            host_room(old(self)@),
            push_refused(old(self)@) is None,
        ensures
            final(self).wf(),
            final(self)@ == push_rule(old(self)@, conn_id, request_id, result@),
    {
        let remote = match &self.remote_name {
            Some(r) => r.clone(),
            None => String::new(),
        };
        let (status, message) = report_push(remote.as_str(), self.branch.as_str(), result);
        match self.store.latest_publication() {
            Some(p) => {
                let mut p = p;
                p.push_status = status;
                p.push_error = if status == PushStatus::Pushed {
                    None
                } else {
                    Some(message.clone())
                };
                self.store.put_publication(p);
            },
            None => {},
        }
        self.bump();
        self.send(conn_id, HostMessage::PushResult { request_id, status, message });
        self.broadcast_control();
    }
}

/// Whether a barrier has nothing left to wait for.
fn everybody_answered(peers: &Vec<BarrierPeer>) -> (yes: bool)
    ensures
        yes == all_answered(views(peers@)),
{
    let mut i: usize = 0;
    while i < peers.len()
        invariant
            i <= peers@.len(),
            forall|k: int| 0 <= k < i ==> has_answered(#[trigger] views(peers@)[k]),
        decreases peers@.len() - i,
    {
        if peers[i].watermark.is_none() || peers[i].ready.is_none() {
            proof {
                assert(!has_answered(views(peers@)[i as int]));
            }
            return false;
        }
        i = i + 1;
    }
    true
}

/// An announcement changes nothing but the outbox.
proof fn lemma_announce_frame(h: HostView, conns: Seq<ConnView>, p: PublicationView)
    ensures
        announce(h, conns, p) == (HostView { outbox: announce(h, conns, p).outbox, ..h }),
    decreases conns.len(),
{
    if conns.len() > 0 {
        lemma_announce_frame(h, conns.drop_last(), p);
    }
}

} // verus!
