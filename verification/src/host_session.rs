//! The coordinator: connections, the Git guard, and hello.

use vstd::prelude::*;

use crate::error::{repository, session as session_err, WeaveError};
use crate::host_blobs::BlobLink;
use crate::host_rules::{
    acceptable_commit, connect_rule, disconnect_rule, enroll, git_check_due, git_state_rule,
    held_rule, hello_fault, hello_rule, needs_snapshot, seen, send_publication, send_publications,
    send_revisions, supersede, superseded, tick_rule, welcome, with_name, without_conn,
    BarrierPeerView, ConnView, HostView, NameView, GIT_GUARD_INTERVAL_MS, MAX_REPLAY,
};
use crate::model::{GitPublication, PublicationView, Revision, RevisionView, SyncState};
use crate::proto::{hash_of_rows, rows, state_hash, ClientResumeState, HostMessage, HostMessageView};
use crate::store_host::{found, span_of, ActorRecord};
use crate::text::{join, lemma_views_push, opt_view, same_text, views};
use crate::util::{short_oid, Uuid};
use crate::host::{
    conn_index, find_git_problem, lemma_name_at, remove_conn, ActorName, BarrierPeer, Conn,
    GitState, Hello, HostEffect, HostEngine, TickWork,
};

verus! {

impl HostEngine {
    /// A connection arrived.
    pub fn on_connected(&mut self, conn_id: u64, is_local: bool, now_ms: i64)
        requires
            old(self).wf(),
            now_ms >= 0,
        ensures
            final(self).wf(),
            final(self)@ == connect_rule(old(self)@, conn_id, is_local, now_ms),
    {
        remove_conn(&mut self.conns, conn_id);
        proof {
            lemma_filter_keeps(old(self)@.conns, conn_id);
        }
        let c = Conn {
            id: conn_id,
            is_local,
            actor_id: None,
            display_name: String::new(),
            last_applied_revision: 0,
            active_task_id: None,
            last_seen_ms: now_ms,
            link: BlobLink::new(),
        };
        let ghost before = self.conns@;
        self.conns.push(c);
        proof {
            lemma_views_push(before, c);
            assert(c@.display_name =~= Seq::<char>::empty());
        }
    }

    /// A connection is gone, from the session and from a running barrier. What
    /// follows from it is [`HostEngine::lose_connection`]'s.
    pub fn on_disconnected(&mut self, conn_id: u64)
        requires
            old(self).wf(),
        ensures
            final(self).wf(),
            final(self)@ == disconnect_rule(old(self)@, conn_id),
    {
        remove_conn(&mut self.conns, conn_id);
        proof {
            lemma_filter_keeps(old(self)@.conns, conn_id);
        }
        if let Some(b) = self.barrier.take() {
            let ghost all = views(b.peers@);
            let ghost keep = |p: BarrierPeerView| p.id != conn_id;
            let mut b = b;
            let mut kept: Vec<BarrierPeer> = Vec::new();
            let mut i: usize = 0;
            proof {
                reveal(Seq::filter);
                assert(views(kept@) =~= all.take(0).filter(keep));
            }
            while i < b.peers.len()
                invariant
                    i <= b.peers@.len(),
                    all == views(b.peers@),
                    keep == (|p: BarrierPeerView| p.id != conn_id),
                    views(kept@) == all.take(i as int).filter(keep),
                decreases b.peers@.len() - i,
            {
                let ghost before = kept@;
                proof {
                    reveal(Seq::filter);
                    assert(all.take(i + 1).drop_last() =~= all.take(i as int));
                    assert(all.take(i + 1).last() == b.peers@[i as int]@);
                }
                if b.peers[i].id != conn_id {
                    let p = copy_peer(&b.peers[i]);
                    kept.push(p);
                    proof {
                        lemma_views_push(before, p);
                    }
                }
                i = i + 1;
            }
            proof {
                assert(all.take(i as int) =~= all);
            }
            b.peers = kept;
            self.barrier = Some(b);
        }
    }

    /// What is due at this time. A running barrier is taken up by
    /// [`HostEngine::tick_barrier`], after the look at Git.
    pub fn on_tick(&mut self, now_ms: i64) -> (w: TickWork)
        requires
            old(self).wf(),
            now_ms >= 0,
        ensures
            final(self).wf(),
            w.check_git == git_check_due(old(self)@, now_ms),
            w.barrier == (old(self)@.barrier is Some),
            final(self)@ == tick_rule(old(self)@, now_ms),
    {
        let check_git = now_ms - self.last_git_check_ms >= GIT_GUARD_INTERVAL_MS;
        if check_git {
            self.last_git_check_ms = now_ms;
        }
        TickWork { check_git, barrier: self.barrier.is_some() }
    }

    /// Detect Git state mutated outside Weave. Weave never repairs it; it
    /// pauses until the expected state returns.
    pub fn check_git_state(&mut self, g: &GitState)
        requires
            old(self).wf(),
        ensures
            final(self).wf(),
            final(self)@ == git_state_rule(old(self)@, g@),
    {
        let problem = find_git_problem(
            self.branch.as_str(),
            self.expected_head.as_str(),
            g,
            "Git state changed outside Weave.",
            "Git index changed outside Weave.",
            "Staged changes were found. Weave owns all Git-writing operations during a session. Run `git reset` to unstage, or leave the session.",
        );
        let paused = match &self.state {
            SyncState::Paused { .. } => true,
            _ => false,
        };
        match problem {
            Some((reason, detail)) => {
                if self.state.is_live() {
                    self.state = SyncState::Paused { reason, detail };
                    let state = self.state.clone();
                    self.broadcast(HostMessage::HostState { state });
                }
            },
            None => {
                if paused {
                    self.state = SyncState::Live;
                    self.broadcast(HostMessage::HostState { state: SyncState::Live });
                }
            },
        }
    }

    /// A connection is heard from.
    pub(crate) fn note_seen(&mut self, conn_id: u64, now_ms: i64)
        requires
            old(self).wf(),
            now_ms >= 0,
        ensures
            final(self).wf(),
            final(self)@ == seen(old(self)@, conn_id, now_ms),
    {
        let at = conn_index(&self.conns, conn_id);
        if at < self.conns.len() {
            let ghost before = self.conns@;
            self.conns[at].last_seen_ms = now_ms;
            proof {
                assert(views(self.conns@) =~= views(before).update(
                    at as int,
                    ConnView { last_seen_ms: now_ms, ..before[at as int]@ },
                ));
            }
        }
    }

    // ------------------------------------------------------------------ hello

    fn hello_refused(&self, x: &Hello) -> (e: Option<WeaveError>)
        ensures
            opt_view(e) == hello_fault(self@, x@),
    {
        if x.session_id != self.session.session_id {
            return Some(
                session_err("That invite is for a different Weave session.").with_detail(
                    "Ask the host for the current invite (`weave invite` on the host).".to_owned(),
                ),
            );
        }
        if !same_text(x.branch.as_str(), self.branch.as_str()) {
            let mut d = "Session branch:\n".to_owned();
            d.push_str(self.branch.as_str());
            d.push_str("\n\nYour branch:\n");
            d.push_str(x.branch.as_str());
            d.push_str("\n\nCheck out the session branch and retry.");
            return Some(
                repository(
                    "Your branch is not compatible with this Weave session.",
                ).with_detail(d),
            );
        }
        // A first-time joiner must sit at the session base commit or at a
        // Weave-published commit.
        if !x.resume.has_manifest && !self.acceptable_join_commit(x.base_commit.as_str()) {
            let mut d = "Session base:\n".to_owned();
            d.push_str(short_oid(self.session.base_commit.as_str()).as_str());
            d.push_str("\n\nYour current Git commit:\n");
            d.push_str(short_oid(x.base_commit.as_str()).as_str());
            d.push_str("\n\nCheckout the expected base commit and retry.");
            return Some(repository("Cannot join Weave session.").with_detail(d));
        }
        None
    }

    fn acceptable_join_commit(&self, commit: &str) -> (yes: bool)
        ensures
            yes == acceptable_commit(self@, commit@),
    {
        if same_text(commit, self.session.base_commit.as_str()) {
            return true;
        }
        match self.store.latest_publication() {
            Some(p) => same_text(p.descriptor.commit_oid.as_str(), commit),
            None => false,
        }
    }

    fn put_name(&mut self, actor_id: Uuid, name: &str)
        requires
            old(self).wf(),
        ensures
            final(self).wf(),
            final(self)@ == (HostView {
                names: with_name(old(self)@.names, NameView { actor_id, name: name@ }),
                ..old(self)@
            }),
    {
        let n = ActorName { actor_id, name: name.to_owned() };
        let mut i: usize = 0;
        while i < self.names.len() && self.names[i].actor_id != actor_id
            invariant
                i <= self.names@.len(),
                forall|k: int| 0 <= k < i ==> (#[trigger] views(self.names@)[k]).actor_id != actor_id,
            decreases self.names@.len() - i,
        {
            i = i + 1;
        }
        let ghost before = self.names@;
        proof {
            lemma_name_at(views(before), n@, i as int);
        }
        if i < self.names.len() {
            self.names[i] = n;
            proof {
                crate::text::lemma_views_update(before, i as int, n);
            }
        } else {
            self.names.push(n);
            proof {
                lemma_views_push(before, n);
            }
        }
    }

    /// The other connections of an actor.
    fn stale_conns(&self, conn_id: u64, actor_id: Uuid) -> (ids: Vec<u64>)
        ensures
            ids@ == superseded(self@.conns, conn_id, actor_id),
    {
        let mut ids: Vec<u64> = Vec::new();
        let mut i: usize = 0;
        while i < self.conns.len()
            invariant
                i <= self.conns@.len(),
                ids@ == superseded(self@.conns.take(i as int), conn_id, actor_id),
            decreases self.conns@.len() - i,
        {
            proof {
                assert(self@.conns.len() == self.conns@.len());
                assert(self@.conns.take(i + 1).drop_last() =~= self@.conns.take(i as int));
                assert(self@.conns.take(i + 1).last() == self.conns@[i as int]@);
            }
            let same_actor = match self.conns[i].actor_id {
                Some(a) => a == actor_id,
                None => false,
            };
            if self.conns[i].id != conn_id && same_actor {
                ids.push(self.conns[i].id);
            }
            i = i + 1;
        }
        proof {
            assert(self@.conns.take(i as int) =~= self@.conns);
        }
        ids
    }

    pub(crate) fn supersede(&mut self, ids: &Vec<u64>)
        requires
            old(self).wf(),
        ensures
            final(self).wf(),
            final(self)@ == supersede(old(self)@, ids@),
    {
        let mut i: usize = 0;
        while i < ids.len()
            invariant
                self.wf(),
                i <= ids@.len(),
                self@ == supersede(old(self)@, ids@.take(i as int)),
            decreases ids@.len() - i,
        {
            proof {
                assert(ids@.take(i + 1).drop_last() =~= ids@.take(i as int));
                assert(ids@.take(i + 1).last() == ids@[i as int]);
                lemma_filter_keeps(self@.conns, ids@[i as int]);
            }
            let id = ids[i];
            remove_conn(&mut self.conns, id);
            self.send(
                id,
                HostMessage::Goodbye { reason: "superseded by a new connection".to_owned() },
            );
            self.effect(HostEffect::Close { conn_id: id });
            i = i + 1;
        }
        proof {
            assert(ids@.take(i as int) =~= ids@);
        }
    }

    pub(crate) fn enroll(&mut self, conn_id: u64, x: &Hello, now_ms: i64)
        requires
            old(self).wf(),
            now_ms >= 0,
        ensures
            final(self).wf(),
            final(self)@ == enroll(old(self)@, conn_id, x@, now_ms),
    {
        let ids = self.stale_conns(conn_id, x.actor_id);
        self.store.upsert_actor(
            ActorRecord {
                actor_id: x.actor_id,
                display_name: x.display_name.clone(),
                git_name: x.git_name.clone(),
                git_email: x.git_email.clone(),
                last_seen_ms: now_ms,
            },
        );
        self.put_name(x.actor_id, x.display_name.as_str());
        // One connection per actor: a reconnect supersedes the stale socket.
        self.supersede(&ids);
        let at = conn_index(&self.conns, conn_id);
        if at < self.conns.len() {
            let ghost before = self.conns@;
            self.conns[at].actor_id = Some(x.actor_id);
            self.conns[at].display_name = x.display_name.clone();
            self.conns[at].last_applied_revision = x.resume.last_applied_revision;
            proof {
                assert forall|i: int| 0 <= i < self.conns@.len() implies (
                #[trigger] self.conns@[i]).link == before[i].link && self.conns@[i].last_seen_ms
                    == before[i].last_seen_ms by {}
                assert forall|i: int| 0 <= i < self@.conns.len() implies (
                #[trigger] self@.conns[i]).last_seen_ms >= 0 by {
                    assert(views(before)[i].last_seen_ms >= 0);
                }
                assert(views(self.conns@) =~= views(before).update(
                    at as int,
                    ConnView {
                        actor_id: Some(x.actor_id),
                        display_name: x.display_name@,
                        last_applied_revision: x.resume.last_applied_revision,
                        ..before[at as int]@
                    },
                ));
            }
        }
    }

    fn snapshot_needed(&self, r: &ClientResumeState, host_hash: &str) -> (yes: bool)
        requires
            self.wf(),
            host_hash@ == hash_of_rows(self@.store.rows),
        ensures
            yes == needs_snapshot(self@, r@),
    {
        let current = self.store.current_revision();
        if !r.has_manifest || r.last_applied_revision > current {
            return true;
        }
        if current - r.last_applied_revision > MAX_REPLAY {
            return true;
        }
        r.last_applied_revision == current && !r.replica_hash.as_str().is_empty() && !same_text(
            r.replica_hash.as_str(),
            host_hash,
        )
    }

    pub(crate) fn send_revisions(&mut self, conn_id: u64, list: Vec<Revision>)
        requires
            old(self).wf(),
        ensures
            final(self).wf(),
            final(self)@ == send_revisions(old(self)@, conn_id, views(list@)),
    {
        let mut i: usize = 0;
        while i < list.len()
            invariant
                self.wf(),
                i <= list@.len(),
                self@ == send_revisions(old(self)@, conn_id, views(list@).take(i as int)),
            decreases list@.len() - i,
        {
            proof {
                let now = views(list@).take(i + 1);
                assert(now.drop_last() =~= views(list@).take(i as int));
                assert(now.last() == list@[i as int]@);
            }
            let revision = list[i].clone();
            self.send(conn_id, HostMessage::RevisionBroadcast { revision: Box::new(revision) });
            i = i + 1;
        }
        proof {
            assert(views(list@).take(i as int) =~= views(list@));
        }
    }

    /// Announce a publication. The host machine already holds the objects it
    /// just created; everybody else needs a pack first.
    pub(crate) fn send_publication(&mut self, conn_id: u64, p: &GitPublication)
        requires
            old(self).wf(),
        ensures
            final(self).wf(),
            final(self)@ == send_publication(old(self)@, conn_id, p@),
    {
        let at = conn_index(&self.conns, conn_id);
        let is_local = at < self.conns.len() && self.conns[at].is_local;
        if is_local {
            self.send(
                conn_id,
                HostMessage::Publication { publication: Box::new(p.clone()), pack_hash: None },
            );
        } else {
            self.effect(HostEffect::Pack { to: conn_id, publication: p.clone() });
        }
    }

    /// Content was put into the blob store by somebody else on this machine.
    pub fn content_stored(&mut self, hash: &str, size: u64)
        requires
            old(self).wf(),
        ensures
            final(self).wf(),
            final(self)@ == held_rule(old(self)@, hash@, size),
    {
        let _ = self.blobs.install(hash, size);
    }

    /// Content was removed from the blob store.
    pub fn content_removed(&mut self, hash: &str)
        requires
            old(self).wf(),
        ensures
            final(self).wf(),
            final(self)@ == (HostView { blobs: old(self)@.blobs.remove(hash@), ..old(self)@ }),
    {
        self.blobs.forget(hash);
    }

    /// A pack is in the blob store: announce the publication it belongs to.
    pub fn publication_packed(
        &mut self,
        conn_id: u64,
        p: GitPublication,
        pack_hash: String,
        pack_size: u64,
    )
        requires
            old(self).wf(),
        ensures
            final(self).wf(),
            final(self)@ == held_rule(old(self)@, pack_hash@, pack_size).send(
                conn_id,
                HostMessageView::Publication { publication: p@, pack_hash: Some(pack_hash@) },
            ),
    {
        self.content_stored(pack_hash.as_str(), pack_size);
        self.send(
            conn_id,
            HostMessage::Publication { publication: Box::new(p), pack_hash: Some(pack_hash) },
        );
    }

    pub(crate) fn send_publications(&mut self, conn_id: u64, list: &Vec<GitPublication>)
        requires
            old(self).wf(),
        ensures
            final(self).wf(),
            final(self)@ == send_publications(old(self)@, conn_id, views(list@)),
    {
        let mut i: usize = 0;
        while i < list.len()
            invariant
                self.wf(),
                i <= list@.len(),
                self@ == send_publications(old(self)@, conn_id, views(list@).take(i as int)),
            decreases list@.len() - i,
        {
            proof {
                let now = views(list@).take(i + 1);
                assert(now.drop_last() =~= views(list@).take(i as int));
                assert(now.last() == list@[i as int]@);
            }
            self.send_publication(conn_id, &list[i]);
            i = i + 1;
        }
        proof {
            assert(views(list@).take(i as int) =~= views(list@));
        }
    }

    pub(crate) fn welcome(&mut self, conn_id: u64, r: &ClientResumeState)
        requires
            old(self).wf(),
        ensures
            final(self).wf(),
            final(self)@ == welcome(old(self)@, conn_id, r@),
    {
        let current = self.store.current_revision();
        let manifest_all = self.store.manifest_all();
        let host_hash = state_hash(&manifest_all);
        let snapshot = self.snapshot_needed(r, host_hash.as_str());
        let control = self.control_snapshot();
        let pending = self.store.publications_after(r.last_publication_sequence);
        let copies = pending.clone();
        proof {
            assert(views(copies@) =~= views(pending@));
        }
        let session = self.session.clone();
        self.send(
            conn_id,
            HostMessage::Welcome {
                session,
                snapshot_revision: current,
                manifest: if snapshot {
                    Some(manifest_all)
                } else {
                    None
                },
                control: Box::new(control),
                pending_publications: copies,
                host_state_hash: host_hash,
            },
        );
        let ghost greeted = self@;
        // Replay the revisions the client is missing.
        if !snapshot && r.last_applied_revision < current {
            let list = self.store.span(r.last_applied_revision, current);
            self.send_revisions(conn_id, list);
        }
        let ghost before = self@;
        proof {
            lemma_send_revisions_frame(
                greeted,
                conn_id,
                span_of(old(self)@.store.log, r.last_applied_revision, current),
            );
        }
        // A disconnected client must never permanently miss a publication.
        self.send_publications(conn_id, &pending);
        proof {
            lemma_send_publications_frame(before, conn_id, views(pending@));
        }
        if !self.state.is_live() {
            let state = self.state.clone();
            self.send(conn_id, HostMessage::HostState { state });
        }
        self.broadcast_presence();
    }

    /// A client says hello.
    pub fn on_hello(&mut self, conn_id: u64, x: Hello, now_ms: i64)
        requires
            old(self).wf(),
            now_ms >= 0,
        ensures
            final(self).wf(),
            final(self)@ == hello_rule(old(self)@, conn_id, x@, now_ms),
    {
        match self.hello_refused(&x) {
            Some(e) => {
                self.send_error(conn_id, None, e);
            },
            None => {
                self.enroll(conn_id, &x, now_ms);
                self.welcome(conn_id, &x.resume);
            },
        }
    }
}

/// Sending revisions queues messages and changes nothing else.
proof fn lemma_send_revisions_frame(h: HostView, conn_id: u64, list: Seq<RevisionView>)
    ensures
        send_revisions(h, conn_id, list) == (HostView {
            outbox: send_revisions(h, conn_id, list).outbox,
            ..h
        }),
    decreases list.len(),
{
    if list.len() > 0 {
        lemma_send_revisions_frame(h, conn_id, list.drop_last());
    }
}

/// Announcing publications queues effects and changes nothing else.
proof fn lemma_send_publications_frame(h: HostView, conn_id: u64, list: Seq<PublicationView>)
    ensures
        send_publications(h, conn_id, list) == (HostView {
            outbox: send_publications(h, conn_id, list).outbox,
            ..h
        }),
    decreases list.len(),
{
    if list.len() > 0 {
        lemma_send_publications_frame(h, conn_id, list.drop_last());
    }
}

/// Taking connections out leaves the others as they are.
proof fn lemma_filter_keeps(list: Seq<ConnView>, id: u64)
    ensures
        forall|i: int|
            0 <= i < without_conn(list, id).len() ==> list.contains(
                #[trigger] without_conn(list, id)[i],
            ),
    decreases list.len(),
{
    reveal(Seq::filter);
    if list.len() > 0 {
        let front = list.drop_last();
        lemma_filter_keeps(front, id);
        let kept = without_conn(list, id);
        assert forall|i: int| 0 <= i < kept.len() implies list.contains(#[trigger] kept[i]) by {
            if i < without_conn(front, id).len() {
                assert(kept[i] == without_conn(front, id)[i]);
                let k = choose|k: int| 0 <= k < front.len() && front[k] == kept[i];
                assert(list[k] == kept[i]);
            } else {
                assert(list[list.len() - 1] == kept[i]);
            }
        }
    }
}

pub(crate) fn copy_peer(p: &BarrierPeer) -> (copy: BarrierPeer)
    ensures
        copy@ == p@,
{
    BarrierPeer {
        id: p.id,
        watermark: p.watermark,
        ready: match &p.ready {
            Some((ok, detail)) => Some((*ok, detail.clone())),
            None => None,
        },
    }
}

} // verus!
