//! The host coordinator: the single authority for canonical state.
//!
//! One synchronous state machine. Revision numbers are assigned only here, and
//! every accepted mutation is part of canonical state before the message that
//! acknowledges it is queued. The program around it persists the state, then
//! performs the queued effects in order.

use vstd::prelude::*;

use crate::blobs::BlobStore;
use crate::client_blobs::PumpJob;
use crate::error::WeaveError;
use crate::host_blobs::BlobLink;
use crate::host_rules::{
    conn_of, git_problem, host_ok, known_conns, name_of, online_peers, peer_of, place_peer, role_of,
    sort_peers, with_conn, with_name, with_offline, without_conn, BarrierPeerView, BarrierView,
    ConnView, EffectView, GitFacts, HelloView, HostView, NameView,
};
use crate::model::{
    FileOperation, GitPublication, OperationOutcome, OperationView, PeerInfo, PeerView, Revision,
    Role, SyncState, SyncView,
};
use crate::proto::{ClientResumeState, ControlSnapshot, HostMessage, SessionInfo};
use crate::publish_rules::with_peer;
use crate::store_host::HostStore;
use crate::text::{lemma_views_push, opt_view, same_text, text_before, text_le, views};
use crate::util::{short_oid, Uuid};

verus! {

// ---------------------------------------------------------------------------
// State
// ---------------------------------------------------------------------------

/// One connection.
pub struct Conn {
    pub id: u64,
    pub is_local: bool,
    pub actor_id: Option<Uuid>,
    pub display_name: String,
    pub last_applied_revision: u64,
    pub active_task_id: Option<Uuid>,
    pub last_seen_ms: i64,
    pub link: BlobLink,
}

impl View for Conn {
    type V = ConnView;

    open spec fn view(&self) -> ConnView {
        ConnView {
            id: self.id,
            is_local: self.is_local,
            actor_id: self.actor_id,
            display_name: self.display_name@,
            last_applied_revision: self.last_applied_revision,
            active_task_id: self.active_task_id,
            last_seen_ms: self.last_seen_ms,
            link: self.link@,
        }
    }
}

/// The name an actor introduced itself with.
pub struct ActorName {
    pub actor_id: Uuid,
    pub name: String,
}

impl View for ActorName {
    type V = NameView;

    open spec fn view(&self) -> NameView {
        NameView { actor_id: self.actor_id, name: self.name@ }
    }
}

/// One connection's progress in a barrier.
pub struct BarrierPeer {
    pub id: u64,
    pub watermark: Option<u64>,
    pub ready: Option<(bool, String)>,
}

impl View for BarrierPeer {
    type V = BarrierPeerView;

    open spec fn view(&self) -> BarrierPeerView {
        BarrierPeerView {
            id: self.id,
            watermark: self.watermark,
            ready: match self.ready {
                Some((ok, detail)) => Some((ok, detail@)),
                None => None,
            },
        }
    }
}

/// A commit preparation waiting for its participants.
pub struct BarrierState {
    pub barrier_id: Uuid,
    pub request_id: Uuid,
    pub requester_conn: u64,
    pub requester_actor: Uuid,
    pub allow_active_tasks: bool,
    pub started_ms: i64,
    pub peers: Vec<BarrierPeer>,
}

impl View for BarrierState {
    type V = BarrierView;

    open spec fn view(&self) -> BarrierView {
        BarrierView {
            barrier_id: self.barrier_id,
            request_id: self.request_id,
            requester_conn: self.requester_conn,
            requester_actor: self.requester_actor,
            allow_active_tasks: self.allow_active_tasks,
            started_ms: self.started_ms,
            peers: views(self.peers@),
        }
    }
}

/// Something the program around the coordinator has to do.
#[allow(inconsistent_fields)]
pub enum HostEffect {
    Send { to: Vec<u64>, message: HostMessage },
    Close { conn_id: u64 },
    Install { hash: String, bytes: Vec<u8> },
    Stream { to: u64, job: PumpJob },
    Pack { to: u64, publication: GitPublication },
}

impl View for HostEffect {
    type V = EffectView;

    open spec fn view(&self) -> EffectView {
        match *self {
            HostEffect::Send { to, message } => EffectView::Send { to: to@, message: message@ },
            HostEffect::Close { conn_id } => EffectView::Close { conn_id },
            HostEffect::Install { hash, bytes } => EffectView::Install {
                hash: hash@,
                bytes: bytes@,
            },
            HostEffect::Stream { to, job } => EffectView::Stream { to, job: job@ },
            HostEffect::Pack { to, publication } => EffectView::Pack {
                to,
                publication: publication@,
            },
        }
    }
}

/// A joining client.
pub struct Hello {
    pub session_id: Uuid,
    pub actor_id: Uuid,
    pub display_name: String,
    pub git_name: String,
    pub git_email: String,
    pub base_commit: String,
    pub branch: String,
    pub resume: ClientResumeState,
}

impl View for Hello {
    type V = HelloView;

    open spec fn view(&self) -> HelloView {
        HelloView {
            session_id: self.session_id,
            actor_id: self.actor_id,
            display_name: self.display_name@,
            git_name: self.git_name@,
            git_email: self.git_email@,
            base_commit: self.base_commit@,
            branch: self.branch@,
            resume: self.resume@,
        }
    }
}

/// The coordinator.
pub struct HostEngine {
    pub(crate) store: HostStore,
    pub(crate) blobs: BlobStore,
    pub(crate) session: SessionInfo,
    pub(crate) names: Vec<ActorName>,
    pub(crate) conns: Vec<Conn>,
    pub(crate) barrier: Option<BarrierState>,
    pub(crate) deferred_ops: Vec<(u64, FileOperation)>,
    pub(crate) state: SyncState,
    pub(crate) last_git_check_ms: i64,
    pub(crate) expected_head: String,
    pub(crate) branch: String,
    pub(crate) host_git_name: String,
    pub(crate) host_git_email: String,
    pub(crate) remote_name: Option<String>,
    pub(crate) outbox: Vec<HostEffect>,
}

pub open spec fn op_views(list: Seq<(u64, FileOperation)>) -> Seq<(u64, OperationView)> {
    list.map_values(|p: (u64, FileOperation)| (p.0, p.1@))
}

impl View for HostEngine {
    type V = HostView;

    open(crate) spec fn view(&self) -> HostView {
        HostView {
            store: self.store@,
            place: self.blobs.place(),
            blobs: self.blobs.sizes(),
            session: self.session@,
            names: views(self.names@),
            conns: views(self.conns@),
            barrier: opt_view(self.barrier),
            deferred: op_views(self.deferred_ops@),
            state: self.state@,
            last_git_check_ms: self.last_git_check_ms,
            expected_head: self.expected_head@,
            branch: self.branch@,
            git_name: self.host_git_name@,
            git_email: self.host_git_email@,
            remote: opt_view(self.remote_name),
            outbox: views(self.outbox@),
        }
    }
}

// ---------------------------------------------------------------------------
// Lists of connections
// ---------------------------------------------------------------------------

proof fn lemma_conn_at(list: Seq<ConnView>, id: u64, c: ConnView, at: int)
    requires
        0 <= at <= list.len(),
        at < list.len() ==> list[at].id == id,
        forall|k: int| 0 <= k < at ==> (#[trigger] list[k]).id != id,
    ensures
        conn_of(list, id) == if at < list.len() {
            Some(list[at])
        } else {
            None
        },
        with_conn(list, id, c) == if at < list.len() {
            list.update(at, c)
        } else {
            list
        },
    decreases list.len(),
{
    if list.len() > 0 {
        let rest = list.drop_first();
        if at > 0 {
            assert(list[0].id != id);
            assert forall|k: int| 0 <= k < at - 1 implies (#[trigger] rest[k]).id != id by {
                assert(rest[k] == list[k + 1]);
            }
            lemma_conn_at(rest, id, c, at - 1);
            if at < list.len() {
                assert(list.update(at, c) =~= seq![list[0]] + rest.update(at - 1, c));
            } else {
                assert(list =~= seq![list[0]] + rest);
            }
        } else {
            assert(list.update(0, c) =~= seq![c] + rest);
        }
    }
}

pub(crate) proof fn lemma_name_at(list: Seq<NameView>, n: NameView, at: int)
    requires
        0 <= at <= list.len(),
        at < list.len() ==> list[at].actor_id == n.actor_id,
        forall|k: int| 0 <= k < at ==> (#[trigger] list[k]).actor_id != n.actor_id,
    ensures
        name_of(list, n.actor_id) == if at < list.len() {
            Some(list[at].name)
        } else {
            None
        },
        with_name(list, n) == if at < list.len() {
            list.update(at, n)
        } else {
            list.push(n)
        },
    decreases list.len(),
{
    if list.len() > 0 {
        let rest = list.drop_first();
        if at > 0 {
            assert(list[0].actor_id != n.actor_id);
            assert forall|k: int| 0 <= k < at - 1 implies (#[trigger] rest[k]).actor_id
                != n.actor_id by {
                assert(rest[k] == list[k + 1]);
            }
            lemma_name_at(rest, n, at - 1);
            if at < list.len() {
                assert(list.update(at, n) =~= seq![list[0]] + rest.update(at - 1, n));
            } else {
                assert(list.push(n) =~= seq![list[0]] + rest.push(n));
            }
        } else {
            assert(list.update(0, n) =~= seq![n] + rest);
        }
    } else {
        assert(list.push(n) =~= seq![n]);
    }
}

pub(crate) proof fn lemma_peer_at(list: Seq<BarrierPeerView>, p: BarrierPeerView, at: int)
    requires
        0 <= at <= list.len(),
        at < list.len() ==> list[at].id == p.id,
        forall|k: int| 0 <= k < at ==> (#[trigger] list[k]).id != p.id,
    ensures
        peer_of(list, p.id) == if at < list.len() {
            Some(list[at])
        } else {
            None
        },
        with_peer(list, p) == if at < list.len() {
            list.update(at, p)
        } else {
            list.push(p)
        },
    decreases list.len(),
{
    if list.len() > 0 {
        let rest = list.drop_first();
        if at > 0 {
            assert(list[0].id != p.id);
            assert forall|k: int| 0 <= k < at - 1 implies (#[trigger] rest[k]).id != p.id by {
                assert(rest[k] == list[k + 1]);
            }
            lemma_peer_at(rest, p, at - 1);
            if at < list.len() {
                assert(list.update(at, p) =~= seq![list[0]] + rest.update(at - 1, p));
            } else {
                assert(list.push(p) =~= seq![list[0]] + rest.push(p));
            }
        } else {
            assert(list.update(0, p) =~= seq![p] + rest);
        }
    } else {
        assert(list.push(p) =~= seq![p]);
    }
}

/// Where a connection stands, or the length.
pub(crate) fn conn_index(conns: &Vec<Conn>, id: u64) -> (at: usize)
    ensures
        at <= conns@.len(),
        at < conns@.len() ==> conns@[at as int].id == id,
        conn_of(views(conns@), id) == if at < conns@.len() {
            Some(conns@[at as int]@)
        } else {
            None
        },
        forall|c: ConnView|
            #[trigger] with_conn(views(conns@), id, c) == if at < conns@.len() {
                views(conns@).update(at as int, c)
            } else {
                views(conns@)
            },
{
    let mut i: usize = 0;
    while i < conns.len() && conns[i].id != id
        invariant
            i <= conns@.len(),
            forall|k: int| 0 <= k < i ==> (#[trigger] views(conns@)[k]).id != id,
        decreases conns@.len() - i,
    {
        i = i + 1;
    }
    proof {
        assert forall|c: ConnView|
            #[trigger] with_conn(views(conns@), id, c) == (if i < conns@.len() {
                views(conns@).update(i as int, c)
            } else {
                views(conns@)
            }) by {
            lemma_conn_at(views(conns@), id, c, i as int);
        }
        lemma_conn_at(views(conns@), id, arbitrary(), i as int);
    }
    i
}

/// Whether every connection's transfers are sound.
pub open spec fn links_ok(list: Seq<Conn>) -> bool {
    forall|i: int| 0 <= i < list.len() ==> (#[trigger] list[i]).link.wf()
}

/// Take a connection out.
pub(crate) fn remove_conn(conns: &mut Vec<Conn>, id: u64)
    requires
        links_ok(old(conns)@),
    ensures
        views(final(conns)@) == without_conn(views(old(conns)@), id),
        links_ok(final(conns)@),
{
    let mut pending: Vec<Conn> = Vec::new();
    std::mem::swap(&mut pending, conns);
    let ghost all = views(pending@);
    let ghost keep = |c: ConnView| c.id != id;
    let mut kept: Vec<Conn> = Vec::new();
    proof {
        reveal(Seq::filter);
        assert(views(kept@) =~= all.take(0).filter(keep));
        assert(views(pending@) =~= all.skip(0));
    }
    let ghost mut done: int = 0;
    while pending.len() > 0
        invariant
            0 <= done <= all.len(),
            done + pending@.len() == all.len(),
            views(pending@) == all.skip(done),
            keep == (|c: ConnView| c.id != id),
            views(kept@) == all.take(done).filter(keep),
            links_ok(pending@),
            links_ok(kept@),
        decreases pending@.len(),
    {
        let ghost waiting = pending@;
        let ghost before = kept@;
        let c = pending.remove(0);
        proof {
            assert(c == waiting[0]);
            assert(c@ == views(waiting)[0]);
            assert(c@ == all[done]);
            crate::text::lemma_views_remove(waiting, 0);
            assert(views(waiting).remove(0) =~= all.skip(done + 1));
            assert forall|k: int| 0 <= k < pending@.len() implies (#[trigger] pending@[k]).link.wf() by {
                assert(pending@[k] == waiting[k + 1]);
            }
            reveal(Seq::filter);
            assert(all.take(done + 1).drop_last() =~= all.take(done));
            assert(all.take(done + 1).last() == all[done]);
        }
        if c.id != id {
            kept.push(c);
            proof {
                lemma_views_push(before, c);
            }
        }
        proof {
            done = done + 1;
        }
    }
    proof {
        assert(all.take(done) =~= all);
    }
    std::mem::swap(&mut kept, conns);
}

impl HostEngine {
    pub open(crate) spec fn wf(&self) -> bool {
        &&& host_ok(self@)
        &&& self.blobs.wf()
        &&& links_ok(self.conns@)
    }

    pub fn new(
        store: HostStore,
        blobs: BlobStore,
        session: SessionInfo,
        expected_head: String,
        branch: String,
        host_git_name: String,
        host_git_email: String,
        remote_name: Option<String>,
    ) -> (e: HostEngine)
        requires
            store@.ok(),
            blobs.wf(),
        ensures
            e.wf(),
            e@ == (HostView {
                store: store@,
                place: blobs.place(),
                blobs: blobs.sizes(),
                session: session@,
                names: Seq::empty(),
                conns: Seq::empty(),
                barrier: None,
                deferred: Seq::empty(),
                state: SyncView::Live,
                last_git_check_ms: 0,
                expected_head: expected_head@,
                branch: branch@,
                git_name: host_git_name@,
                git_email: host_git_email@,
                remote: opt_view(remote_name),
                outbox: Seq::empty(),
            }),
    {
        let e = HostEngine {
            store,
            blobs,
            session,
            names: Vec::new(),
            conns: Vec::new(),
            barrier: None,
            deferred_ops: Vec::new(),
            state: SyncState::Live,
            last_git_check_ms: 0,
            expected_head,
            branch,
            host_git_name,
            host_git_email,
            remote_name,
            outbox: Vec::new(),
        };
        proof {
            assert(e@.names =~= Seq::<NameView>::empty());
            assert(e@.conns =~= Seq::<ConnView>::empty());
            assert(e@.deferred =~= Seq::<(u64, OperationView)>::empty());
            assert(e@.outbox =~= Seq::<EffectView>::empty());
        }
        e
    }

    /// Canonical state.
    pub fn store(&self) -> (s: &HostStore)
        ensures
            s@ == self@.store,
    {
        &self.store
    }

    /// Everything queued so far, oldest first.
    pub fn take_effects(&mut self) -> (list: Vec<HostEffect>)
        requires
            old(self).wf(),
        ensures
            final(self).wf(),
            views(list@) == old(self)@.outbox,
            final(self)@ == (HostView { outbox: Seq::empty(), ..old(self)@ }),
    {
        let mut list: Vec<HostEffect> = Vec::new();
        std::mem::swap(&mut list, &mut self.outbox);
        proof {
            assert(views(self.outbox@) =~= Seq::<EffectView>::empty());
        }
        list
    }

    pub(crate) fn effect(&mut self, e: HostEffect)
        requires
            old(self).wf(),
        ensures
            final(self).wf(),
            final(self)@ == old(self)@.effect(e@),
    {
        let ghost before = self.outbox@;
        self.outbox.push(e);
        proof {
            lemma_views_push(before, e);
        }
    }

    pub(crate) fn send(&mut self, conn_id: u64, message: HostMessage)
        requires
            old(self).wf(),
        ensures
            final(self).wf(),
            final(self)@ == old(self)@.send(conn_id, message@),
    {
        let mut to: Vec<u64> = Vec::new();
        to.push(conn_id);
        proof {
            assert(to@ =~= seq![conn_id]);
        }
        self.effect(HostEffect::Send { to, message });
    }

    /// The connections of everybody who said hello.
    pub(crate) fn known(&self) -> (ids: Vec<u64>)
        ensures
            ids@ == known_conns(self@.conns),
    {
        let mut ids: Vec<u64> = Vec::new();
        let mut i: usize = 0;
        while i < self.conns.len()
            invariant
                i <= self.conns@.len(),
                ids@ == known_conns(self@.conns.take(i as int)),
            decreases self.conns@.len() - i,
        {
            proof {
                let now = self@.conns.take(i + 1);
                assert(self@.conns.len() == self.conns@.len());
                assert(now.drop_last() =~= self@.conns.take(i as int));
                assert(now.last() == self.conns@[i as int]@);
            }
            if self.conns[i].actor_id.is_some() {
                ids.push(self.conns[i].id);
            }
            i = i + 1;
        }
        proof {
            assert(self@.conns.take(i as int) =~= self@.conns);
        }
        ids
    }

    pub(crate) fn broadcast(&mut self, message: HostMessage)
        requires
            old(self).wf(),
        ensures
            final(self).wf(),
            final(self)@ == old(self)@.broadcast(message@),
    {
        let to = self.known();
        self.effect(HostEffect::Send { to, message });
    }

    pub(crate) fn send_error(&mut self, conn_id: u64, request_id: Option<Uuid>, e: WeaveError)
        requires
            old(self).wf(),
        ensures
            final(self).wf(),
            final(self)@ == old(self)@.send_error(conn_id, request_id, e@),
    {
        self.send(
            conn_id,
            HostMessage::Error { request_id, class: e.class, message: e.message, detail: e.detail },
        );
    }

    pub(crate) fn reply_operation(&mut self, conn_id: u64, operation_id: Uuid, outcome: OperationOutcome)
        requires
            old(self).wf(),
        ensures
            final(self).wf(),
            final(self)@ == old(self)@.reply(conn_id, operation_id, outcome@),
    {
        self.send(
            conn_id,
            HostMessage::OperationResult { operation_id, outcome: Box::new(outcome) },
        );
    }

    pub(crate) fn ack(&mut self, conn_id: u64, request_id: Uuid, note: Option<String>)
        requires
            old(self).wf(),
        ensures
            final(self).wf(),
            final(self)@ == old(self)@.ack(conn_id, request_id, opt_view(note)),
    {
        self.send(conn_id, HostMessage::Ack { request_id, note });
    }

    pub(crate) fn control_snapshot(&self) -> (c: ControlSnapshot)
        ensures
            c@ == self@.control(),
    {
        let publication = self.store.latest_publication();
        let publication_sequence: u64 = match &publication {
            Some(p) => p.sequence,
            None => 0,
        };
        ControlSnapshot {
            control_version: self.store.control_version(),
            tasks: self.store.tasks(),
            conflicts: self.store.conflicts(),
            publication,
            publication_sequence,
            session: self.session.clone(),
            max_file_size: self.store.max_file_size(),
            oversize: self.store.oversize(),
        }
    }

    pub(crate) fn broadcast_control(&mut self)
        requires
            old(self).wf(),
        ensures
            final(self).wf(),
            final(self)@ == old(self)@.broadcast_control(),
    {
        let control = self.control_snapshot();
        self.broadcast(HostMessage::Control { control: Box::new(control) });
    }

    pub(crate) fn bump(&mut self)
        requires
            old(self).wf(),
            old(self)@.store.control_version < u64::MAX,
        ensures
            final(self).wf(),
            final(self)@ == old(self)@.with_store(old(self)@.store.bumped()),
    {
        self.store.bump_control_version();
    }

    pub(crate) fn control_changed(&mut self)
        requires
            old(self).wf(),
            old(self)@.store.control_version < u64::MAX,
        ensures
            final(self).wf(),
            final(self)@ == old(self)@.control_changed(),
    {
        self.bump();
        self.broadcast_control();
    }

    pub(crate) fn broadcast_revision(&mut self, revision: Revision)
        requires
            old(self).wf(),
        ensures
            final(self).wf(),
            final(self)@ == old(self)@.broadcast_revision(revision@),
    {
        self.broadcast(HostMessage::RevisionBroadcast { revision: Box::new(revision) });
    }

    /// Stop accepting mutations after a persistence or integrity failure.
    pub fn enter_degraded(&mut self, reason: &str)
        requires
            old(self).wf(),
        ensures
            final(self).wf(),
            final(self)@ == old(self)@.degraded(reason@),
    {
        self.state = SyncState::Degraded { reason: reason.to_owned() };
        let state = self.state.clone();
        self.broadcast(HostMessage::HostState { state });
    }

    pub fn actor_of(&self, conn_id: u64) -> (a: Option<Uuid>)
        ensures
            a == self@.actor_of(conn_id),
    {
        let at = conn_index(&self.conns, conn_id);
        if at < self.conns.len() {
            self.conns[at].actor_id
        } else {
            None
        }
    }

    // ---------------------------------------------------------------- presence

    pub(crate) fn role_of(&self, actor_id: Uuid) -> (r: Role)
        ensures
            r == role_of(self@, actor_id),
    {
        if actor_id == self.session.host_actor_id {
            Role::Host
        } else {
            Role::Participant
        }
    }

    pub(crate) fn peers(&self) -> (list: Vec<PeerInfo>)
        ensures
            views(list@) == with_offline(
                self@,
                online_peers(self@, self@.conns),
                self@.store.actors,
            ),
    {
        let mut list: Vec<PeerInfo> = Vec::new();
        let ghost conns = self@.conns;
        let mut i: usize = 0;
        proof {
            assert(views(list@) =~= online_peers(self@, conns.take(0)));
        }
        while i < self.conns.len()
            invariant
                conns == views(self.conns@),
                i <= self.conns@.len(),
                views(list@) == online_peers(self@, conns.take(i as int)),
            decreases self.conns@.len() - i,
        {
            let ghost before = list@;
            proof {
                assert(conns.take(i + 1).drop_last() =~= conns.take(i as int));
                assert(conns.take(i + 1).last() == self.conns@[i as int]@);
            }
            let c = &self.conns[i];
            match c.actor_id {
                None => {},
                Some(actor_id) => {
                    let description = match c.active_task_id {
                        Some(id) => match self.store.task(id) {
                            Some(t) => Some(t.description),
                            None => None,
                        },
                        None => None,
                    };
                    let p = PeerInfo {
                        actor_id,
                        display_name: c.display_name.clone(),
                        role: self.role_of(actor_id),
                        online: true,
                        last_known_revision: c.last_applied_revision,
                        active_task_id: c.active_task_id,
                        active_task_description: description,
                        last_seen_ms: c.last_seen_ms,
                    };
                    list.push(p);
                    proof {
                        lemma_views_push(before, p);
                    }
                },
            }
            i = i + 1;
        }
        proof {
            assert(conns.take(i as int) =~= conns);
        }
        let ghost online = views(list@);
        let actors = self.store.actors();
        let ghost all = views(actors@);
        let mut k: usize = 0;
        proof {
            assert(with_offline(self@, online, all.take(0)) == online);
        }
        while k < actors.len()
            invariant
                all == views(actors@),
                k <= actors@.len(),
                views(list@) == with_offline(self@, online, all.take(k as int)),
            decreases actors@.len() - k,
        {
            let ghost before = list@;
            proof {
                assert(all.take(k + 1).drop_last() =~= all.take(k as int));
                assert(all.take(k + 1).last() == actors@[k as int]@);
            }
            let a = &actors[k];
            let mut known: bool = false;
            let mut j: usize = 0;
            while j < list.len()
                invariant
                    k < actors@.len(),
                    *a == actors@[k as int],
                    j <= list@.len(),
                    known == (exists|m: int|
                        0 <= m < j && (#[trigger] views(list@)[m]).actor_id == a.actor_id),
                decreases list@.len() - j,
            {
                proof {
                    assert(views(list@)[j as int].actor_id == list@[j as int].actor_id);
                }
                if list[j].actor_id == a.actor_id {
                    known = true;
                }
                j = j + 1;
            }
            if !known {
                let p = PeerInfo {
                    actor_id: a.actor_id,
                    display_name: a.display_name.clone(),
                    role: self.role_of(a.actor_id),
                    online: false,
                    last_known_revision: 0,
                    active_task_id: None,
                    active_task_description: None,
                    last_seen_ms: a.last_seen_ms,
                };
                list.push(p);
                proof {
                    lemma_views_push(before, p);
                }
            }
            k = k + 1;
        }
        proof {
            assert(all.take(k as int) =~= all);
        }
        list
    }

    /// Tell everybody who is in the session.
    pub fn broadcast_presence(&mut self)
        requires
            old(self).wf(),
        ensures
            final(self).wf(),
            final(self)@ == old(self)@.broadcast_presence(),
    {
        let list = self.peers();
        let peers = order_peers(list);
        self.broadcast(HostMessage::Presence { peers });
    }
}

proof fn lemma_place_peer(list: Seq<PeerView>, p: PeerView, at: int)
    requires
        0 <= at <= list.len(),
        at > 0 ==> text_le(list[at - 1].display_name, p.display_name),
        forall|k: int|
            at <= k < list.len() ==> !text_le((#[trigger] list[k]).display_name, p.display_name),
    ensures
        place_peer(list, p) == list.insert(at, p),
    decreases list.len(),
{
    if at == list.len() {
        assert(list.insert(at, p) =~= list.push(p));
    } else {
        lemma_place_peer(list.drop_last(), p, at);
        assert(list.drop_last().insert(at, p).push(list.last()) =~= list.insert(at, p));
    }
}

/// The peers ordered by name; equal names keep their order.
pub fn order_peers(list: Vec<PeerInfo>) -> (out: Vec<PeerInfo>)
    ensures
        views(out@) == sort_peers(views(list@)),
{
    let mut out: Vec<PeerInfo> = Vec::new();
    let ghost all = views(list@);
    let mut i: usize = 0;
    proof {
        assert(views(out@) =~= sort_peers(all.take(0)));
    }
    while i < list.len()
        invariant
            all == views(list@),
            i <= list@.len(),
            views(out@) == sort_peers(all.take(i as int)),
        decreases list@.len() - i,
    {
        let p = list[i].clone();
        let mut at: usize = out.len();
        while at > 0 && !text_before(out[at - 1].display_name.as_str(), p.display_name.as_str())
            invariant
                at <= out@.len(),
                forall|k: int|
                    at <= k < out@.len() ==> !text_le(
                        (#[trigger] views(out@)[k]).display_name,
                        p.display_name@,
                    ),
            decreases at,
        {
            at = at - 1;
        }
        let ghost before = out@;
        proof {
            if at > 0 {
                assert(views(out@)[at - 1] == out@[at - 1]@);
            }
            lemma_place_peer(views(out@), p@, at as int);
            assert(all.take(i + 1).drop_last() =~= all.take(i as int));
            assert(all.take(i + 1).last() == p@);
        }
        out.insert(at, p);
        proof {
            assert(views(out@) =~= views(before).insert(at as int, p@));
        }
        i = i + 1;
    }
    proof {
        assert(all.take(i as int) =~= all);
    }
    out
}

/// What Git looks like from outside.
pub struct GitState {
    pub branch: Option<String>,
    pub head: String,
    pub staged: bool,
}

impl View for GitState {
    type V = GitFacts;

    open spec fn view(&self) -> GitFacts {
        GitFacts { branch: opt_view(self.branch), head: self.head@, staged: self.staged }
    }
}

/// Why Git state is not what the session expects.
pub fn find_git_problem(
    branch: &str,
    expected_head: &str,
    g: &GitState,
    headline: &str,
    index_headline: &str,
    index_detail: &str,
) -> (r: Option<(String, String)>)
    ensures
        match r {
            Some((reason, detail)) => git_problem(
                branch@,
                expected_head@,
                g@,
                headline@,
                index_headline@,
                index_detail@,
            ) == Some((reason@, detail@)),
            None => git_problem(
                branch@,
                expected_head@,
                g@,
                headline@,
                index_headline@,
                index_detail@,
            ) is None,
        },
{
    let here = match &g.branch {
        Some(b) => same_text(b.as_str(), branch),
        None => false,
    };
    if !here {
        let mut d = "Expected branch:\n".to_owned();
        d.push_str(branch);
        d.push_str("\n\nCurrent branch:\n");
        match &g.branch {
            Some(b) => {
                d.push_str(b.as_str());
            },
            None => {
                d.push_str("(detached HEAD)");
            },
        }
        d.push_str("\n\nRestore the expected state or leave the session.");
        return Some((headline.to_owned(), d));
    }
    if !same_text(g.head.as_str(), expected_head) {
        let mut d = "Expected Git commit:\n".to_owned();
        d.push_str(short_oid(expected_head).as_str());
        d.push_str("\n\nCurrent Git commit:\n");
        d.push_str(short_oid(g.head.as_str()).as_str());
        d.push_str("\n\nRestore the expected state or leave the session.");
        return Some((headline.to_owned(), d));
    }
    if g.staged {
        return Some((index_headline.to_owned(), index_detail.to_owned()));
    }
    None
}

/// What a tick has to look into.
pub struct TickWork {
    /// Git state is due to be checked.
    pub check_git: bool,
    /// A barrier is running: see whether it is over.
    pub barrier: bool,
}

} // verus!
