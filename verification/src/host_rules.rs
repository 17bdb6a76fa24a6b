//! The rules of the host coordinator, over plain values.
//!
//! Every event is a function from one coordinator state to the next. What has
//! to be sent, stored or closed as a result is queued in the state's outbox,
//! in order; a mutation is part of the state before anything that acknowledges
//! it is in the outbox.

use vstd::prelude::*;

use crate::blobs::{with_blob, Held};
use crate::blobs::{malformed_reference, missing_blob};
use crate::client_blobs::JobView;
use crate::error::{detailed, plain, ErrorClass, ErrorView};
use crate::host_blobs::{fresh_link, link_data, link_step, offer_step, LinkStep, LinkView};
use crate::model::{
    same_state, Conflict, ConflictKind, ConflictStatus, ConflictView, EntryView, OperationView,
    OutcomeView, PeerView, PublicationView, RevisionView, Role, ScopeView, SyncView, Task,
    TaskStatus, TaskView, MAX_SYNCED_FILE,
};
use crate::proto::{
    hash_of_rows, BlobView, ControlView, HostMessageView, OversizeView, ReportView,
    ReportedConflict, ResumeView, SessionView,
};
use crate::reconcile::{reconcile_rule, MergeView, ReconciledView};
use crate::store_host::{
    active_for, base_fault, colliding, committed, found, held_by_others, later_than, span_of,
    stored, ActorRecord, ActorView, OperationRecord, RecordView, StoreView,
};
use crate::text::{byte_len, decimal, text_le};
use crate::util::{content_hash, oid_head, revision_form, short_form, uuid_form, Uuid};

verus! {

/// How long the host waits for every connected participant to complete a
/// commit-preparation barrier before proceeding with a warning.
pub const BARRIER_TIMEOUT_MS: i64 = 20000;

/// Replaying more than this many revisions is slower than sending a snapshot.
pub const MAX_REPLAY: u64 = 5000;

/// Interval between external-Git-state checks.
pub const GIT_GUARD_INTERVAL_MS: i64 = 3000;

// ---------------------------------------------------------------------------
// State
// ---------------------------------------------------------------------------

/// One connection.
pub struct ConnView {
    pub id: u64,
    pub is_local: bool,
    /// Who is at the other end, once it said hello.
    pub actor_id: Option<Uuid>,
    pub display_name: Seq<char>,
    pub last_applied_revision: u64,
    pub active_task_id: Option<Uuid>,
    pub last_seen_ms: i64,
    /// Its transfers.
    pub link: LinkView,
}

/// The name an actor introduced itself with.
pub struct NameView {
    pub actor_id: Uuid,
    pub name: Seq<char>,
}

/// One connection's progress in a barrier.
pub struct BarrierPeerView {
    pub id: u64,
    pub watermark: Option<u64>,
    pub ready: Option<(bool, Seq<char>)>,
}

/// A commit preparation waiting for its participants.
pub struct BarrierView {
    pub barrier_id: Uuid,
    pub request_id: Uuid,
    pub requester_conn: u64,
    pub requester_actor: Uuid,
    pub allow_active_tasks: bool,
    pub started_ms: i64,
    pub peers: Seq<BarrierPeerView>,
}

/// Something the program around the coordinator has to do.
#[allow(inconsistent_fields)]
pub enum EffectView {
    /// Send a message to these connections.
    Send { to: Seq<u64>, message: HostMessageView },
    /// Close a connection.
    Close { conn_id: u64 },
    /// Write a blob, durably, before anything behind it.
    Install { hash: Seq<char>, bytes: Seq<u8> },
    /// Stream a blob to a connection.
    Stream { to: u64, job: JobView },
    /// Pack the Git objects of a publication and announce it to a connection.
    Pack { to: u64, publication: PublicationView },
}

/// The whole coordinator.
pub struct HostView {
    pub store: StoreView,
    /// Where the blob store is.
    pub place: Seq<char>,
    /// What the blob store holds.
    pub blobs: Map<Seq<char>, u64>,
    pub session: SessionView,
    pub names: Seq<NameView>,
    pub conns: Seq<ConnView>,
    pub barrier: Option<BarrierView>,
    /// Operations withheld until the running barrier has fixed its target.
    pub deferred: Seq<(u64, OperationView)>,
    pub state: SyncView,
    pub last_git_check_ms: i64,
    pub expected_head: Seq<char>,
    pub branch: Seq<char>,
    pub git_name: Seq<char>,
    pub git_email: Seq<char>,
    pub remote: Option<Seq<char>>,
    pub outbox: Seq<EffectView>,
}

/// The first connection with this number.
pub open spec fn conn_of(list: Seq<ConnView>, id: u64) -> Option<ConnView>
    decreases list.len(),
{
    if list.len() == 0 {
        None
    } else if list[0].id == id {
        Some(list[0])
    } else {
        conn_of(list.drop_first(), id)
    }
}

/// The connections with one of them changed.
pub open spec fn with_conn(list: Seq<ConnView>, id: u64, c: ConnView) -> Seq<ConnView>
    decreases list.len(),
{
    if list.len() == 0 {
        list
    } else if list[0].id == id {
        seq![c] + list.drop_first()
    } else {
        seq![list[0]] + with_conn(list.drop_first(), id, c)
    }
}

/// The connections without one of them.
pub open spec fn without_conn(list: Seq<ConnView>, id: u64) -> Seq<ConnView> {
    list.filter(|c: ConnView| c.id != id)
}

/// The connections of everybody who said hello, in order.
pub open spec fn known_conns(list: Seq<ConnView>) -> Seq<u64>
    decreases list.len(),
{
    if list.len() == 0 {
        Seq::empty()
    } else if list.last().actor_id is Some {
        known_conns(list.drop_last()).push(list.last().id)
    } else {
        known_conns(list.drop_last())
    }
}

pub open spec fn name_of(list: Seq<NameView>, actor_id: Uuid) -> Option<Seq<char>>
    decreases list.len(),
{
    if list.len() == 0 {
        None
    } else if list[0].actor_id == actor_id {
        Some(list[0].name)
    } else {
        name_of(list.drop_first(), actor_id)
    }
}

pub open spec fn with_name(list: Seq<NameView>, n: NameView) -> Seq<NameView>
    decreases list.len(),
{
    if list.len() == 0 {
        seq![n]
    } else if list[0].actor_id == n.actor_id {
        seq![n] + list.drop_first()
    } else {
        seq![list[0]] + with_name(list.drop_first(), n)
    }
}

impl HostView {
    /// Queue something to do.
    pub open spec fn effect(self, e: EffectView) -> HostView {
        HostView { outbox: self.outbox.push(e), ..self }
    }

    /// Send to one connection.
    pub open spec fn send(self, conn_id: u64, message: HostMessageView) -> HostView {
        self.effect(EffectView::Send { to: seq![conn_id], message })
    }

    /// Send to everybody who said hello.
    pub open spec fn broadcast(self, message: HostMessageView) -> HostView {
        self.effect(EffectView::Send { to: known_conns(self.conns), message })
    }

    pub open spec fn send_error(
        self,
        conn_id: u64,
        request_id: Option<Uuid>,
        error: ErrorView,
    ) -> HostView {
        self.send(conn_id, HostMessageView::Error { request_id, error })
    }

    pub open spec fn reply(self, conn_id: u64, operation_id: Uuid, outcome: OutcomeView) -> HostView {
        self.send(conn_id, HostMessageView::OperationResult { operation_id, outcome })
    }

    pub open spec fn ack(self, conn_id: u64, request_id: Uuid, note: Option<Seq<char>>) -> HostView {
        self.send(conn_id, HostMessageView::Ack { request_id, note })
    }

    /// Current control state.
    pub open spec fn control(self) -> ControlView {
        ControlView {
            control_version: self.store.control_version,
            tasks: self.store.tasks,
            conflicts: self.store.conflicts,
            publication: self.store.latest(),
            publication_sequence: match self.store.latest() {
                Some(p) => p.sequence,
                None => 0,
            },
            session: self.session,
            max_file_size: self.store.max_file_size,
            oversize: self.store.oversize,
        }
    }

    pub open spec fn broadcast_control(self) -> HostView {
        self.broadcast(HostMessageView::Control { control: self.control() })
    }

    pub open spec fn broadcast_presence(self) -> HostView {
        self.broadcast(HostMessageView::Presence { peers: presence(self) })
    }

    pub open spec fn broadcast_revision(self, revision: RevisionView) -> HostView {
        self.broadcast(HostMessageView::RevisionBroadcast { revision })
    }

    pub open spec fn with_store(self, store: StoreView) -> HostView {
        HostView { store, ..self }
    }

    /// A change of control state: count it, then tell everybody.
    pub open spec fn control_changed(self) -> HostView {
        self.with_store(self.store.bumped()).broadcast_control()
    }

    /// No further mutation is accepted.
    pub open spec fn degraded(self, reason: Seq<char>) -> HostView {
        let state = SyncView::Degraded { reason };
        HostView { state, ..self }.broadcast(HostMessageView::HostState { state })
    }

    /// Who is at the other end of a connection.
    pub open spec fn actor_of(self, conn_id: u64) -> Option<Uuid> {
        match conn_of(self.conns, conn_id) {
            Some(c) => c.actor_id,
            None => None,
        }
    }
}

/// What holds of every coordinator state.
pub open spec fn host_ok(h: HostView) -> bool {
    &&& h.store.ok()
    &&& h.last_git_check_ms >= 0
    &&& h.barrier matches Some(b) ==> b.started_ms >= 0
    &&& forall|i: int| 0 <= i < h.conns.len() ==> (#[trigger] h.conns[i]).last_seen_ms >= 0
}

/// Numbers are left for one more event.
pub open spec fn host_room(h: HostView) -> bool {
    &&& h.store.log.len() + 1 < u64::MAX
    &&& h.store.control_version + 4 <= u64::MAX
    &&& h.store.latest() matches Some(p) ==> p.sequence < u64::MAX
}

// ---------------------------------------------------------------------------
// Presence
// ---------------------------------------------------------------------------

pub open spec fn role_of(h: HostView, actor_id: Uuid) -> Role {
    if actor_id == h.session.host_actor_id {
        Role::Host
    } else {
        Role::Participant
    }
}

/// Everybody connected.
pub open spec fn online_peers(h: HostView, conns: Seq<ConnView>) -> Seq<PeerView>
    decreases conns.len(),
{
    if conns.len() == 0 {
        Seq::empty()
    } else {
        let before = online_peers(h, conns.drop_last());
        let c = conns.last();
        match c.actor_id {
            None => before,
            Some(actor_id) => before.push(
                PeerView {
                    actor_id,
                    display_name: c.display_name,
                    role: role_of(h, actor_id),
                    online: true,
                    last_known_revision: c.last_applied_revision,
                    active_task_id: c.active_task_id,
                    active_task_description: match c.active_task_id {
                        Some(id) => match found::<Task>(h.store.tasks, id) {
                            Some(t) => Some(t.description),
                            None => None,
                        },
                        None => None,
                    },
                    last_seen_ms: c.last_seen_ms,
                },
            ),
        }
    }
}

/// Whether a list of peers has an actor.
pub open spec fn has_peer(peers: Seq<PeerView>, actor_id: Uuid) -> bool {
    exists|i: int| 0 <= i < peers.len() && (#[trigger] peers[i]).actor_id == actor_id
}

/// Everybody the host has met who is not in the list yet.
pub open spec fn with_offline(h: HostView, peers: Seq<PeerView>, actors: Seq<ActorView>) -> Seq<
    PeerView,
>
    decreases actors.len(),
{
    if actors.len() == 0 {
        peers
    } else {
        let before = with_offline(h, peers, actors.drop_last());
        let a = actors.last();
        if has_peer(before, a.actor_id) {
            before
        } else {
            before.push(
                PeerView {
                    actor_id: a.actor_id,
                    display_name: a.display_name,
                    role: role_of(h, a.actor_id),
                    online: false,
                    last_known_revision: 0,
                    active_task_id: None,
                    active_task_description: None,
                    last_seen_ms: a.last_seen_ms,
                },
            )
        }
    }
}

/// `p` behind every peer of an ordered list whose name does not come after.
pub open spec fn place_peer(list: Seq<PeerView>, p: PeerView) -> Seq<PeerView>
    decreases list.len(),
{
    if list.len() == 0 || text_le(list.last().display_name, p.display_name) {
        list.push(p)
    } else {
        place_peer(list.drop_last(), p).push(list.last())
    }
}

/// The peers ordered by name; equal names keep their order.
pub open spec fn sort_peers(list: Seq<PeerView>) -> Seq<PeerView>
    decreases list.len(),
{
    if list.len() == 0 {
        Seq::empty()
    } else {
        place_peer(sort_peers(list.drop_last()), list.last())
    }
}

/// Everybody in the session, connected or not, ordered by name.
pub open spec fn presence(h: HostView) -> Seq<PeerView> {
    sort_peers(with_offline(h, online_peers(h, h.conns), h.store.actors))
}

// ---------------------------------------------------------------------------
// Connections and the Git guard
// ---------------------------------------------------------------------------

/// A connection arrived: nothing is known of it but its number. A number used
/// again replaces the connection that had it.
pub open spec fn connect_rule(h: HostView, conn_id: u64, is_local: bool, now_ms: i64) -> HostView {
    let c = ConnView {
        id: conn_id,
        is_local,
        actor_id: None,
        display_name: Seq::empty(),
        last_applied_revision: 0,
        active_task_id: None,
        last_seen_ms: now_ms,
        link: fresh_link(),
    };
    HostView { conns: without_conn(h.conns, conn_id).push(c), ..h }
}

/// A connection takes no further part in a barrier.
pub open spec fn leave_barrier(b: Option<BarrierView>, conn_id: u64) -> Option<BarrierView> {
    match b {
        Some(b) => Some(
            BarrierView {
                peers: b.peers.filter(|p: BarrierPeerView| p.id != conn_id),
                ..b
            },
        ),
        None => None,
    }
}

/// Whether the coordinator's Git state is due to be looked at.
pub open spec fn git_check_due(h: HostView, now_ms: i64) -> bool {
    now_ms - h.last_git_check_ms >= GIT_GUARD_INTERVAL_MS
}

/// A tick notes when Git was looked at last.
pub open spec fn tick_rule(h: HostView, now_ms: i64) -> HostView {
    HostView {
        last_git_check_ms: if git_check_due(h, now_ms) {
            now_ms
        } else {
            h.last_git_check_ms
        },
        ..h
    }
}

/// A connection is gone, from the session and from a running barrier.
pub open spec fn disconnect_rule(h: HostView, conn_id: u64) -> HostView {
    HostView {
        conns: without_conn(h.conns, conn_id),
        barrier: leave_barrier(h.barrier, conn_id),
        ..h
    }
}

/// What Git looks like from outside.
pub struct GitFacts {
    pub branch: Option<Seq<char>>,
    pub head: Seq<char>,
    pub staged: bool,
}

/// Why Git state is not what the session expects: the headline and the detail.
/// `prefix` opens the headline, `index_note` is the headline and the detail
/// for a changed index.
pub open spec fn git_problem(
    branch: Seq<char>,
    expected_head: Seq<char>,
    g: GitFacts,
    headline: Seq<char>,
    index_headline: Seq<char>,
    index_detail: Seq<char>,
) -> Option<(Seq<char>, Seq<char>)> {
    if g.branch != Some(branch) {
        Some(
            (
                headline,
                "Expected branch:\n"@ + branch + "\n\nCurrent branch:\n"@ + (match g.branch {
                    Some(b) => b,
                    None => "(detached HEAD)"@,
                }) + "\n\nRestore the expected state or leave the session."@,
            ),
        )
    } else if g.head != expected_head {
        Some(
            (
                headline,
                "Expected Git commit:\n"@ + oid_head(expected_head) + "\n\nCurrent Git commit:\n"@
                    + oid_head(g.head) + "\n\nRestore the expected state or leave the session."@,
            ),
        )
    } else if g.staged {
        Some((index_headline, index_detail))
    } else {
        None
    }
}

pub open spec fn host_git_problem(h: HostView, g: GitFacts) -> Option<(Seq<char>, Seq<char>)> {
    git_problem(
        h.branch,
        h.expected_head,
        g,
        "Git state changed outside Weave."@,
        "Git index changed outside Weave."@,
        "Staged changes were found. Weave owns all Git-writing operations during a session. Run `git reset` to unstage, or leave the session."@,
    )
}

/// Pause on a problem, resume when it is gone. A degraded host stays degraded,
/// and Weave never repairs Git state itself.
pub open spec fn git_state_rule(h: HostView, g: GitFacts) -> HostView {
    match (host_git_problem(h, g), h.state) {
        (Some((reason, detail)), SyncView::Live) => {
            let state = SyncView::Paused { reason, detail };
            HostView { state, ..h }.broadcast(HostMessageView::HostState { state })
        },
        (None, SyncView::Paused { .. }) => HostView { state: SyncView::Live, ..h }.broadcast(
            HostMessageView::HostState { state: SyncView::Live },
        ),
        _ => h,
    }
}

/// The connection is heard from.
pub open spec fn seen(h: HostView, conn_id: u64, now_ms: i64) -> HostView {
    match conn_of(h.conns, conn_id) {
        Some(c) => HostView {
            conns: with_conn(h.conns, conn_id, ConnView { last_seen_ms: now_ms, ..c }),
            ..h
        },
        None => h,
    }
}

// ---------------------------------------------------------------------------
// Hello
// ---------------------------------------------------------------------------

/// What a joining client says of itself.
pub struct HelloView {
    pub session_id: Uuid,
    pub actor_id: Uuid,
    pub display_name: Seq<char>,
    pub git_name: Seq<char>,
    pub git_email: Seq<char>,
    pub base_commit: Seq<char>,
    pub branch: Seq<char>,
    pub resume: ResumeView,
}

/// The commits a first-time joiner may sit at: the session base, or what Weave
/// published last.
pub open spec fn acceptable_commit(h: HostView, commit: Seq<char>) -> bool {
    ||| commit == h.session.base_commit
    ||| h.store.latest() matches Some(p) && p.descriptor.commit_oid == commit
}

/// Why a hello is refused, or `None`.
pub open spec fn hello_fault(h: HostView, x: HelloView) -> Option<ErrorView> {
    if x.session_id != h.session.session_id {
        Some(
            detailed(
                ErrorClass::SessionError,
                "That invite is for a different Weave session."@,
                "Ask the host for the current invite (`weave invite` on the host)."@,
            ),
        )
    } else if x.branch != h.branch {
        Some(
            detailed(
                ErrorClass::RepositoryError,
                "Your branch is not compatible with this Weave session."@,
                "Session branch:\n"@ + h.branch + "\n\nYour branch:\n"@ + x.branch
                    + "\n\nCheck out the session branch and retry."@,
            ),
        )
    } else if !x.resume.has_manifest && !acceptable_commit(h, x.base_commit) {
        Some(
            detailed(
                ErrorClass::RepositoryError,
                "Cannot join Weave session."@,
                "Session base:\n"@ + oid_head(h.session.base_commit)
                    + "\n\nYour current Git commit:\n"@ + oid_head(x.base_commit)
                    + "\n\nCheckout the expected base commit and retry."@,
            ),
        )
    } else {
        None
    }
}

/// The other connections of an actor.
pub open spec fn superseded(conns: Seq<ConnView>, conn_id: u64, actor_id: Uuid) -> Seq<u64>
    decreases conns.len(),
{
    if conns.len() == 0 {
        Seq::empty()
    } else {
        let before = superseded(conns.drop_last(), conn_id, actor_id);
        let c = conns.last();
        if c.id != conn_id && c.actor_id == Some(actor_id) {
            before.push(c.id)
        } else {
            before
        }
    }
}

/// One connection per actor: a reconnect supersedes the stale sockets.
pub open spec fn supersede(h: HostView, ids: Seq<u64>) -> HostView
    decreases ids.len(),
{
    if ids.len() == 0 {
        h
    } else {
        let g = supersede(h, ids.drop_last());
        let id = ids.last();
        HostView { conns: without_conn(g.conns, id), ..g }.send(
            id,
            HostMessageView::Goodbye { reason: "superseded by a new connection"@ },
        ).effect(EffectView::Close { conn_id: id })
    }
}

/// Whether replay cannot bring a client up to date.
pub open spec fn needs_snapshot(h: HostView, r: ResumeView) -> bool {
    let current = h.store.revision();
    ||| !r.has_manifest
    ||| r.last_applied_revision > current
    ||| current - r.last_applied_revision > MAX_REPLAY
    ||| r.last_applied_revision == current && r.replica_hash.len() > 0 && r.replica_hash
        != hash_of_rows(h.store.rows)
}

pub open spec fn send_revisions(h: HostView, conn_id: u64, list: Seq<RevisionView>) -> HostView
    decreases list.len(),
{
    if list.len() == 0 {
        h
    } else {
        send_revisions(h, conn_id, list.drop_last()).send(
            conn_id,
            HostMessageView::RevisionBroadcast { revision: list.last() },
        )
    }
}

/// Content is in the blob store, unless it was already.
pub open spec fn held_rule(h: HostView, hash: Seq<char>, size: u64) -> HostView {
    HostView { blobs: with_blob(h.blobs, hash, size), ..h }
}

/// Announce a publication. The host machine already holds the objects it just
/// created; everybody else needs a pack.
pub open spec fn send_publication(h: HostView, conn_id: u64, p: PublicationView) -> HostView {
    if conn_of(h.conns, conn_id) matches Some(c) && c.is_local {
        h.send(conn_id, HostMessageView::Publication { publication: p, pack_hash: None })
    } else {
        h.effect(EffectView::Pack { to: conn_id, publication: p })
    }
}

pub open spec fn send_publications(h: HostView, conn_id: u64, list: Seq<PublicationView>) -> HostView
    decreases list.len(),
{
    if list.len() == 0 {
        h
    } else {
        send_publication(send_publications(h, conn_id, list.drop_last()), conn_id, list.last())
    }
}

/// The client is known by name.
pub open spec fn introduced(h: HostView, x: HelloView, now_ms: i64) -> HostView {
    HostView {
        store: StoreView {
            actors: stored::<ActorRecord>(
                h.store.actors,
                ActorView {
                    actor_id: x.actor_id,
                    display_name: x.display_name,
                    git_name: x.git_name,
                    git_email: x.git_email,
                    last_seen_ms: now_ms,
                },
            ),
            ..h.store
        },
        names: with_name(h.names, NameView { actor_id: x.actor_id, name: x.display_name }),
        ..h
    }
}

/// The client is in: known, alone on its connection, and heard of.
pub open spec fn enroll(h: HostView, conn_id: u64, x: HelloView, now_ms: i64) -> HostView {
    let met = introduced(h, x, now_ms);
    let alone = supersede(met, superseded(h.conns, conn_id, x.actor_id));
    match conn_of(alone.conns, conn_id) {
        Some(c) => HostView {
            conns: with_conn(
                alone.conns,
                conn_id,
                ConnView {
                    actor_id: Some(x.actor_id),
                    display_name: x.display_name,
                    last_applied_revision: x.resume.last_applied_revision,
                    ..c
                },
            ),
            ..alone
        },
        None => alone,
    }
}

/// Everything a client that is in needs to catch up.
pub open spec fn welcome(h: HostView, conn_id: u64, r: ResumeView) -> HostView {
    let current = h.store.revision();
    let snapshot = needs_snapshot(h, r);
    let pending = later_than(h.store.publications, r.last_publication_sequence);
    let greeted = h.send(
        conn_id,
        HostMessageView::Welcome {
            session: h.session,
            snapshot_revision: current,
            manifest: if snapshot {
                Some(h.store.rows)
            } else {
                None
            },
            control: h.control(),
            pending_publications: pending,
            host_state_hash: hash_of_rows(h.store.rows),
        },
    );
    let replayed = if !snapshot && r.last_applied_revision < current {
        send_revisions(greeted, conn_id, span_of(h.store.log, r.last_applied_revision, current))
    } else {
        greeted
    };
    let published = send_publications(replayed, conn_id, pending);
    let told = if h.state is Live {
        published
    } else {
        published.send(conn_id, HostMessageView::HostState { state: h.state })
    };
    told.broadcast_presence()
}

pub open spec fn hello_rule(h: HostView, conn_id: u64, x: HelloView, now_ms: i64) -> HostView {
    match hello_fault(h, x) {
        Some(fault) => h.send_error(conn_id, None, fault),
        None => welcome(enroll(h, conn_id, x, now_ms), conn_id, x.resume),
    }
}

// ---------------------------------------------------------------------------
// Operations
// ---------------------------------------------------------------------------

/// Make sure the content of an entry is here: held already, or supplied and
/// exactly what it claims to be.
pub open spec fn install_rule(h: HostView, e: EntryView, content: Option<Seq<u8>>) -> (
    HostView,
    Option<ErrorView>,
) {
    if h.blobs.contains_key(e.blob_hash) {
        (h, None)
    } else {
        match content {
            None => (
                h,
                Some(
                    plain(
                        ErrorClass::ProtocolError,
                        "Operation references blob "@ + e.blob_hash
                            + " without supplying its content."@,
                    ),
                ),
            ),
            Some(bytes) => if bytes.len() != e.size {
                (
                    h,
                    Some(
                        plain(
                            ErrorClass::ProtocolError,
                            "Operation content length does not match the declared entry size."@,
                        ),
                    ),
                )
            } else if content_hash(bytes) != e.blob_hash {
                (
                    h,
                    Some(
                        plain(
                            ErrorClass::ProtocolError,
                            "Operation content does not hash to the declared blob."@,
                        ),
                    ),
                )
            } else {
                (put_blob(h, bytes), None)
            },
        }
    }
}

/// Store bytes under their hash, unless they are there.
pub open spec fn put_blob(h: HostView, bytes: Seq<u8>) -> HostView {
    let hash = content_hash(bytes);
    if h.blobs.contains_key(hash) {
        h
    } else {
        HostView { blobs: h.blobs.insert(hash, bytes.len() as u64), ..h }.effect(
            EffectView::Install { hash, bytes },
        )
    }
}

/// Only an active Task owned by this actor may be attributed.
pub open spec fn effective_task_of(h: HostView, actor_id: Uuid, requested: Option<Uuid>) -> Option<
    Uuid,
> {
    match requested {
        None => None,
        Some(id) => match found::<Task>(h.store.tasks, id) {
            Some(t) => if t.actor_id == actor_id && t.status == TaskStatus::Active {
                Some(id)
            } else {
                None
            },
            None => None,
        },
    }
}

/// A line-range scope degrades to file level once the file it was declared
/// against has moved on.
pub open spec fn aged_scope(s: StoreView, scope: ScopeView) -> ScopeView {
    if !scope.stale && scope.line_start is Some && !same_state(
        s.entry(scope.path),
        scope.declared_against,
    ) {
        ScopeView { stale: true, ..scope }
    } else {
        scope
    }
}

pub open spec fn aged_scopes(s: StoreView, scopes: Seq<ScopeView>) -> Seq<ScopeView> {
    scopes.map_values(|x: ScopeView| aged_scope(s, x))
}

/// A task after one of its revisions was accepted.
pub open spec fn credited(s: StoreView, t: TaskView, path: Seq<char>, revision: u64, now_ms: i64) -> TaskView {
    TaskView {
        touched_paths: if t.touched_paths.contains(path) {
            t.touched_paths
        } else {
            t.touched_paths.push(path)
        },
        first_accepted_revision: match t.first_accepted_revision {
            Some(r) => Some(r),
            None => Some(revision),
        },
        last_accepted_revision: Some(revision),
        updated_at_ms: now_ms,
        scopes: aged_scopes(s, t.scopes),
        ..t
    }
}

/// Attribute an accepted revision to a task.
pub open spec fn attribute_rule(
    h: HostView,
    task_id: Uuid,
    path: Seq<char>,
    revision: u64,
    now_ms: i64,
) -> HostView {
    match found::<Task>(h.store.tasks, task_id) {
        None => h,
        Some(t) => h.with_store(
            StoreView {
                tasks: stored::<Task>(
                    h.store.tasks,
                    credited(h.store, t, path, revision, now_ms),
                ),
                ..h.store
            },
        ).control_changed(),
    }
}

/// What became of one attempt to apply an operation.
pub enum Applied {
    Done,
    /// The answer depends on a line-level merge that has not been run.
    NeedsMerge,
    Failed(ErrorView),
}

/// Which paths cannot coexist.
pub open spec fn collision_error(path: Seq<char>, other: Seq<char>) -> ErrorView {
    detailed(
        ErrorClass::UnsupportedError,
        path + " collides with "@ + other + "."@,
        "Two repository paths that differ only by case or Unicode normalization cannot coexist in a portable Weave session."@,
    )
}

pub open spec fn too_large(path: Seq<char>, size: u64) -> ErrorView {
    plain(
        ErrorClass::UnsupportedError,
        path + " is "@ + decimal(size as nat) + " bytes, above the "@ + decimal(
            (MAX_SYNCED_FILE / 1048576) as nat,
        ) + " MiB Weave file limit."@,
    )
}

/// Why an operation is refused before it is reconciled.
pub open spec fn operation_fault(h: HostView, op: OperationView) -> Option<ErrorView> {
    if base_fault(h.store, op) is Some {
        base_fault(h.store, op)
    } else if op.desired_entry is Some && h.store.entry(op.path) is None && colliding(
        h.store.rows,
        op.path,
    ) is Some {
        Some(collision_error(op.path, colliding(h.store.rows, op.path)->0))
    } else {
        None
    }
}

/// Canonical state already is what the operation wants.
pub open spec fn converge(h: HostView, conn_id: u64, actor_id: Uuid, op: OperationView) -> HostView {
    let outcome = OutcomeView::Converged {
        revision: h.store.revision(),
        canonical_entry: h.store.entry(op.path),
    };
    h.with_store(
        StoreView {
            operations: h.store.operations.push(
                RecordView {
                    operation_id: op.operation_id,
                    actor_id,
                    payload_hash: op.payload_digest(),
                    outcome,
                },
            ),
            ..h.store
        },
    ).reply(conn_id, op.operation_id, outcome)
}

/// The outcome of an accepted operation.
pub open spec fn accepted_outcome(merged: bool, revision: u64, entry: Option<EntryView>) -> OutcomeView {
    if merged {
        OutcomeView::Merged { revision, canonical_entry: entry }
    } else {
        OutcomeView::Accepted { revision, canonical_entry: entry }
    }
}

/// Canonical state advances by one revision.
pub open spec fn accept(
    h: HostView,
    conn_id: u64,
    actor_id: Uuid,
    op: OperationView,
    entry: Option<EntryView>,
    merged: bool,
    now_ms: i64,
) -> HostView {
    let task_id = effective_task_of(h, actor_id, op.task_id);
    let revision = RevisionView {
        revision: (h.store.revision() + 1) as u64,
        operation_id: op.operation_id,
        actor_id,
        task_id,
        timestamp_ms: now_ms,
        path: op.path,
        before: h.store.entry(op.path),
        after: entry,
    };
    let outcome = accepted_outcome(merged, revision.revision, entry);
    let done = h.with_store(committed(h.store, revision, op.payload_digest(), outcome));
    let credited = match task_id {
        Some(id) => attribute_rule(done, id, op.path, revision.revision, now_ms),
        None => done,
    };
    credited.reply(conn_id, op.operation_id, outcome).broadcast_revision(revision)
}

/// Canonical state stays, and a conflict keeps every candidate.
pub open spec fn conflicted(
    h: HostView,
    conn_id: u64,
    actor_id: Uuid,
    op: OperationView,
    kind: ConflictKind,
    now_ms: i64,
    fresh: Uuid,
) -> HostView {
    let revision = h.store.revision();
    let current = h.store.entry(op.path);
    let conflict = ConflictView {
        id: fresh,
        path: op.path,
        kind,
        base_entry: op.base_entry,
        canonical_entry: current,
        incoming_entry: op.desired_entry,
        latest_local_candidate: None,
        incoming_actor_id: actor_id,
        incoming_task_id: effective_task_of(h, actor_id, op.task_id),
        canonical_revision: revision,
        created_at_ms: now_ms,
        status: ConflictStatus::Open,
        resolved_revision: None,
    };
    let outcome = OutcomeView::Conflicted {
        conflict_id: fresh,
        kind,
        revision,
        canonical_entry: current,
    };
    h.with_store(
        StoreView {
            conflicts: stored::<Conflict>(h.store.conflicts, conflict),
            operations: h.store.operations.push(
                RecordView {
                    operation_id: op.operation_id,
                    actor_id,
                    payload_hash: op.payload_digest(),
                    outcome,
                },
            ),
            ..h.store
        }.bumped(),
    ).reply(conn_id, op.operation_id, outcome).broadcast_control()
}

/// Apply an operation that has its content in place.
pub open spec fn reconciled(
    h: HostView,
    conn_id: u64,
    actor_id: Uuid,
    op: OperationView,
    merge: Option<MergeView>,
    now_ms: i64,
    fresh: Uuid,
) -> (HostView, Applied) {
    match reconcile_rule(op.base_entry, h.store.entry(op.path), op.desired_entry, merge) {
        ReconciledView::Converged => (converge(h, conn_id, actor_id, op), Applied::Done),
        ReconciledView::Accept { entry, merged } => {
            let ready = if merged && merge matches Some(MergeView::Clean(bytes)) {
                put_blob(h, merge->0->Clean_0)
            } else {
                h
            };
            (accept(ready, conn_id, actor_id, op, entry, merged, now_ms), Applied::Done)
        },
        ReconciledView::Conflict(kind) => (
            conflicted(h, conn_id, actor_id, op, kind, now_ms, fresh),
            Applied::Done,
        ),
        ReconciledView::NeedsMerge => (h, Applied::NeedsMerge),
    }
}

/// Try to apply an operation that was not seen before.
pub open spec fn apply_rule(
    h: HostView,
    conn_id: u64,
    actor_id: Uuid,
    op: OperationView,
    merge: Option<MergeView>,
    now_ms: i64,
    fresh: Uuid,
) -> (HostView, Applied) {
    if op.desired_entry matches Some(e) && e.size > MAX_SYNCED_FILE {
        (h, Applied::Failed(too_large(op.path, op.desired_entry->0.size)))
    } else {
        let (ready, fault) = match op.desired_entry {
            Some(e) => install_rule(h, e, op.content),
            None => (h, None),
        };
        if fault is Some {
            (ready, Applied::Failed(fault->0))
        } else {
            match operation_fault(ready, op) {
                Some(fault) => (ready, Applied::Failed(fault)),
                None => reconciled(ready, conn_id, actor_id, op, merge, now_ms, fresh),
            }
        }
    }
}

/// The message of a refused operation.
pub open spec fn refusal(e: ErrorView) -> Seq<char> {
    match e.detail {
        Some(d) => e.message + "\n"@ + d,
        None => e.message,
    }
}

/// An operation failed. Durability failures are never acknowledged as results;
/// every other refusal is, so that a retransmission gets the same answer.
pub open spec fn refuse_rule(
    h: HostView,
    conn_id: u64,
    actor_id: Uuid,
    op: OperationView,
    e: ErrorView,
) -> HostView {
    if e.class == ErrorClass::PersistenceError || e.class == ErrorClass::IntegrityError {
        h.degraded(e.message).reply(
            conn_id,
            op.operation_id,
            OutcomeView::Rejected { class: e.class, message: e.message },
        )
    } else {
        let outcome = OutcomeView::Rejected { class: e.class, message: refusal(e) };
        h.with_store(
            StoreView {
                operations: h.store.operations.push(
                    RecordView {
                        operation_id: op.operation_id,
                        actor_id,
                        payload_hash: op.payload_digest(),
                        outcome,
                    },
                ),
                ..h.store
            },
        ).reply(conn_id, op.operation_id, outcome)
    }
}

/// Whether a barrier withholds an operation: it was captured after the
/// sender's watermark.
pub open spec fn withheld(h: HostView, conn_id: u64, local_seq: u64) -> bool {
    match h.barrier {
        Some(b) => match peer_of(b.peers, conn_id) {
            Some(p) => p.watermark matches Some(w) && local_seq > w,
            None => false,
        },
        None => false,
    }
}

pub open spec fn peer_of(peers: Seq<BarrierPeerView>, id: u64) -> Option<BarrierPeerView>
    decreases peers.len(),
{
    if peers.len() == 0 {
        None
    } else if peers[0].id == id {
        Some(peers[0])
    } else {
        peer_of(peers.drop_first(), id)
    }
}

/// Why a host that is not live refuses changes.
pub open spec fn not_live_reason(s: SyncView) -> Seq<char> {
    match s {
        SyncView::Live => Seq::empty(),
        SyncView::Paused { reason, .. } => reason,
        SyncView::Degraded { reason } => reason,
    }
}

/// One submitted operation. `given` is what the sender wrote; the actor is the
/// connection's, never the payload's.
pub open spec fn submit_rule(
    h: HostView,
    conn_id: u64,
    actor_id: Uuid,
    given: OperationView,
    merge: Option<MergeView>,
    now_ms: i64,
    fresh: Uuid,
) -> (HostView, bool) {
    let op = OperationView { actor_id, ..given };
    if withheld(h, conn_id, op.local_seq) {
        (HostView { deferred: h.deferred.push((conn_id, op)), ..h }, true)
    } else if !(h.state is Live) {
        (
            h.reply(
                conn_id,
                op.operation_id,
                OutcomeView::Rejected {
                    class: ErrorClass::SessionError,
                    message: "Host is not accepting changes: "@ + not_live_reason(h.state),
                },
            ),
            true,
        )
    } else {
        match found::<OperationRecord>(h.store.operations, op.operation_id) {
            Some(rec) => (
                h.reply(
                    conn_id,
                    op.operation_id,
                    if rec.payload_hash == op.payload_digest() {
                        rec.outcome
                    } else {
                        OutcomeView::Rejected {
                            class: ErrorClass::ProtocolError,
                            message: "Operation identifier reused with a different payload."@,
                        }
                    },
                ),
                true,
            ),
            None => {
                let (next, applied) = apply_rule(
                    h,
                    conn_id,
                    actor_id,
                    op,
                    merge,
                    now_ms,
                    fresh,
                );
                match applied {
                    Applied::Done => (next, true),
                    Applied::NeedsMerge => (next, false),
                    Applied::Failed(e) => (refuse_rule(next, conn_id, actor_id, op, e), true),
                }
            },
        }
    }
}

// ---------------------------------------------------------------------------
// Conflicts
// ---------------------------------------------------------------------------

/// A reported conflict is recorded once, whatever is retransmitted.
pub open spec fn report_rule(h: HostView, actor_id: Uuid, r: ReportedConflict, now_ms: i64) -> HostView {
    if found::<Conflict>(h.store.conflicts, r.id) is Some {
        h
    } else {
        h.with_store(
            StoreView {
                conflicts: stored::<Conflict>(
                    h.store.conflicts,
                    ConflictView {
                        id: r.id,
                        path: r.path,
                        kind: r.kind,
                        base_entry: r.base_entry,
                        canonical_entry: r.canonical_entry,
                        incoming_entry: r.incoming_entry,
                        latest_local_candidate: r.latest_local_candidate,
                        incoming_actor_id: actor_id,
                        incoming_task_id: r.incoming_task_id,
                        canonical_revision: h.store.revision(),
                        created_at_ms: now_ms,
                        status: ConflictStatus::Open,
                        resolved_revision: None,
                    },
                ),
                ..h.store
            },
        ).control_changed()
    }
}

/// Attach the newest local candidate to a conflict. Its content must be here.
pub open spec fn attach_rule(h: HostView, conflict_id: Uuid, entry: Option<EntryView>) -> (
    HostView,
    Option<ErrorView>,
) {
    match found::<Conflict>(h.store.conflicts, conflict_id) {
        None => (h, None),
        Some(c) => {
            let (ready, fault) = match entry {
                Some(e) => install_rule(h, e, None),
                None => (h, None),
            };
            if fault is Some {
                (ready, fault)
            } else {
                (
                    ready.with_store(
                        StoreView {
                            conflicts: stored::<Conflict>(
                                ready.store.conflicts,
                                ConflictView { latest_local_candidate: entry, ..c },
                            ),
                            ..ready.store
                        },
                    ).control_changed(),
                    None,
                )
            }
        },
    }
}

pub open spec fn no_conflict(conflict_id: Uuid) -> ErrorView {
    plain(ErrorClass::UsageError, "No Weave conflict "@ + uuid_form(conflict_id) + "."@)
}

/// A resolution as the client sends it.
pub struct ResolutionView {
    pub request_id: Uuid,
    pub conflict_id: Uuid,
    pub operation_id: Uuid,
    pub expected_canonical: Option<EntryView>,
    pub resolved_entry: Option<EntryView>,
}

/// Why a resolution is refused, or `None`.
pub open spec fn resolution_fault(h: HostView, r: ResolutionView) -> Option<ErrorView> {
    match found::<Conflict>(h.store.conflicts, r.conflict_id) {
        None => Some(no_conflict(r.conflict_id)),
        Some(c) => if c.status != ConflictStatus::Open {
            Some(
                plain(
                    ErrorClass::UsageError,
                    "Conflict "@ + short_form('C', c.id) + " is already "@ + c.status.name() + "."@,
                ),
            )
        } else if !same_state(h.store.entry(c.path), r.expected_canonical) {
            Some(
                detailed(
                    ErrorClass::ConflictError,
                    "ResolutionOutdated"@,
                    "The canonical content of "@ + c.path
                        + " changed while the resolution was being prepared.\n\nRe-read the file and run `weave conflict resolve "@
                        + short_form('C', c.id) + "` again."@,
                ),
            )
        } else {
            match r.resolved_entry {
                Some(e) => install_rule(h, e, None).1,
                None => None,
            }
        },
    }
}

/// The digest a resolution is stored under.
pub open spec fn resolution_digest(conflict_id: Uuid, entry: Option<EntryView>) -> Seq<char> {
    content_hash(
        vstd::utf8::encode_utf8(
            "[\""@ + uuid_form(conflict_id) + "\","@ + crate::model::entry_json_declared(entry)
                + "]"@,
        ),
    )
}

/// The conflict is settled at a revision.
pub open spec fn settled(s: StoreView, c: ConflictView, revision: u64) -> StoreView {
    StoreView {
        conflicts: stored::<Conflict>(
            s.conflicts,
            ConflictView {
                status: ConflictStatus::Resolved,
                resolved_revision: Some(revision),
                ..c
            },
        ),
        ..s
    }
}

/// Resolve a conflict with one atomic request: the revision and the status
/// change together. A resolution that matches canonical state takes no
/// revision.
pub open spec fn resolve_rule(
    h: HostView,
    conn_id: u64,
    actor_id: Uuid,
    r: ResolutionView,
    now_ms: i64,
) -> HostView {
    match resolution_fault(h, r) {
        Some(fault) => h.send_error(conn_id, Some(r.request_id), fault),
        None => {
            let c = found::<Conflict>(h.store.conflicts, r.conflict_id)->0;
            let current = h.store.entry(c.path);
            if same_state(r.resolved_entry, current) {
                h.with_store(settled(h.store, c, h.store.revision()).bumped()).ack(
                    conn_id,
                    r.request_id,
                    Some("Resolution matched canonical state; no new revision."@),
                ).broadcast_control()
            } else {
                let revision = RevisionView {
                    revision: (h.store.revision() + 1) as u64,
                    operation_id: r.operation_id,
                    actor_id,
                    task_id: None,
                    timestamp_ms: now_ms,
                    path: c.path,
                    before: current,
                    after: r.resolved_entry,
                };
                let done = committed(
                    h.store,
                    revision,
                    resolution_digest(r.conflict_id, r.resolved_entry),
                    OutcomeView::Accepted {
                        revision: revision.revision,
                        canonical_entry: r.resolved_entry,
                    },
                );
                h.with_store(settled(done, c, revision.revision).bumped()).ack(
                    conn_id,
                    r.request_id,
                    Some("Resolved at "@ + revision_form(revision.revision) + "."@),
                ).broadcast_revision(revision).broadcast_control()
            }
        },
    }
}

pub open spec fn dismiss_rule(h: HostView, conn_id: u64, request_id: Uuid, conflict_id: Uuid) -> HostView {
    match found::<Conflict>(h.store.conflicts, conflict_id) {
        None => h.send_error(conn_id, Some(request_id), no_conflict(conflict_id)),
        Some(c) => h.with_store(
            StoreView {
                conflicts: stored::<Conflict>(
                    h.store.conflicts,
                    ConflictView { status: ConflictStatus::Dismissed, ..c },
                ),
                ..h.store
            }.bumped(),
        ).ack(conn_id, request_id, None).broadcast_control(),
    }
}

// ---------------------------------------------------------------------------
// Tasks
// ---------------------------------------------------------------------------

/// Scopes as they are declared now.
pub open spec fn declared_scopes(s: StoreView, scopes: Seq<ScopeView>) -> Seq<ScopeView> {
    scopes.map_values(
        |x: ScopeView| ScopeView { declared_against: s.entry(x.path), stale: false, ..x },
    )
}

pub open spec fn with_active_task(h: HostView, conn_id: u64, task: Option<Uuid>) -> HostView {
    match conn_of(h.conns, conn_id) {
        Some(c) => HostView {
            conns: with_conn(h.conns, conn_id, ConnView { active_task_id: task, ..c }),
            ..h
        },
        None => h,
    }
}

/// One active Task per participant.
pub open spec fn task_start_rule(
    h: HostView,
    conn_id: u64,
    actor_id: Uuid,
    request_id: Uuid,
    task_id: Uuid,
    description: Seq<char>,
    scopes: Seq<ScopeView>,
    now_ms: i64,
) -> HostView {
    match active_for(h.store.tasks, actor_id) {
        Some(existing) => h.send_error(
            conn_id,
            Some(request_id),
            detailed(
                ErrorClass::UsageError,
                "You already have an active Task: "@ + short_form('T', existing.id) + " — "@
                    + existing.description,
                "V1 allows one active Task per participant. Complete or cancel it first."@,
            ),
        ),
        None => with_active_task(
            h.with_store(
                StoreView {
                    tasks: stored::<Task>(
                        h.store.tasks,
                        TaskView {
                            id: task_id,
                            actor_id,
                            description,
                            status: TaskStatus::Active,
                            created_at_ms: now_ms,
                            updated_at_ms: now_ms,
                            created_revision: h.store.revision(),
                            completed_revision: None,
                            scopes: declared_scopes(h.store, scopes),
                            touched_paths: Seq::empty(),
                            first_accepted_revision: None,
                            last_accepted_revision: None,
                        },
                    ),
                    ..h.store
                }.bumped(),
            ),
            conn_id,
            Some(task_id),
        ).ack(conn_id, request_id, None).broadcast_control().broadcast_presence(),
    }
}

/// Why a task cannot be changed by this actor, or `None`.
pub open spec fn task_fault(h: HostView, actor_id: Uuid, task_id: Uuid) -> Option<ErrorView> {
    match found::<Task>(h.store.tasks, task_id) {
        None => Some(
            plain(ErrorClass::UsageError, "No Weave Task "@ + uuid_form(task_id) + "."@),
        ),
        Some(t) => if t.actor_id != actor_id {
            Some(plain(ErrorClass::UsageError, "That Task belongs to another participant."@))
        } else {
            None
        },
    }
}

pub open spec fn task_update_rule(
    h: HostView,
    conn_id: u64,
    actor_id: Uuid,
    request_id: Uuid,
    task_id: Uuid,
    description: Option<Seq<char>>,
    scopes: Option<Seq<ScopeView>>,
    now_ms: i64,
) -> HostView {
    match task_fault(h, actor_id, task_id) {
        Some(fault) => h.send_error(conn_id, Some(request_id), fault),
        None => {
            let t = found::<Task>(h.store.tasks, task_id)->0;
            let next = TaskView {
                description: match description {
                    Some(d) => d,
                    None => t.description,
                },
                scopes: match scopes {
                    Some(list) => declared_scopes(h.store, list),
                    None => t.scopes,
                },
                updated_at_ms: now_ms,
                ..t
            };
            h.with_store(
                StoreView { tasks: stored::<Task>(h.store.tasks, next), ..h.store }.bumped(),
            ).ack(conn_id, request_id, None).broadcast_control()
        },
    }
}

pub open spec fn task_finish_rule(
    h: HostView,
    conn_id: u64,
    actor_id: Uuid,
    request_id: Uuid,
    task_id: Uuid,
    status: TaskStatus,
    now_ms: i64,
) -> HostView {
    match task_fault(h, actor_id, task_id) {
        Some(fault) => h.send_error(conn_id, Some(request_id), fault),
        None => {
            let t = found::<Task>(h.store.tasks, task_id)->0;
            let next = TaskView {
                status,
                completed_revision: Some(h.store.revision()),
                updated_at_ms: now_ms,
                ..t
            };
            let done = h.with_store(
                StoreView { tasks: stored::<Task>(h.store.tasks, next), ..h.store }.bumped(),
            );
            let cleared = if conn_of(done.conns, conn_id) matches Some(c) && c.active_task_id
                == Some(task_id) {
                with_active_task(done, conn_id, None)
            } else {
                done
            };
            cleared.ack(conn_id, request_id, None).broadcast_control().broadcast_presence()
        },
    }
}

// ---------------------------------------------------------------------------
// Snapshots and replica checks
// ---------------------------------------------------------------------------

pub open spec fn snapshot_message(h: HostView) -> HostMessageView {
    HostMessageView::ManifestSnapshot {
        snapshot_revision: h.store.revision(),
        manifest: h.store.rows,
        host_state_hash: hash_of_rows(h.store.rows),
    }
}

/// A replica that claims the current revision with another hash has diverged,
/// and gets a fresh canonical snapshot.
pub open spec fn replica_hash_rule(h: HostView, conn_id: u64, revision: u64, hash: Seq<char>) -> HostView {
    if revision == h.store.revision() && hash_of_rows(h.store.rows) != hash {
        h.send(conn_id, snapshot_message(h))
    } else {
        h
    }
}

pub open spec fn presence_rule(
    h: HostView,
    conn_id: u64,
    last_applied_revision: u64,
    active_task_id: Option<Uuid>,
) -> HostView {
    (match conn_of(h.conns, conn_id) {
        Some(c) => HostView {
            conns: with_conn(
                h.conns,
                conn_id,
                ConnView { last_applied_revision, active_task_id, ..c },
            ),
            ..h
        },
        None => h,
    }).broadcast_presence()
}

/// Everything an actor holds back, attributed to it.
pub open spec fn attributed(actor_id: Uuid, name: Seq<char>, paths: Seq<ReportView>) -> Seq<
    OversizeView,
> {
    paths.map_values(
        |r: ReportView|
            OversizeView {
                actor_id,
                display_name: name,
                path: r.path,
                size: r.size,
                canonical: r.canonical,
            },
    )
}

/// A report replaces that actor's whole set.
pub open spec fn oversize_rule(h: HostView, conn_id: u64, actor_id: Uuid, paths: Seq<ReportView>) -> HostView {
    let name = match conn_of(h.conns, conn_id) {
        Some(c) => c.display_name,
        None => Seq::empty(),
    };
    h.with_store(
        StoreView {
            oversize: held_by_others(h.store.oversize, actor_id) + attributed(
                actor_id,
                name,
                paths,
            ),
            ..h.store
        },
    ).control_changed()
}

/// The session changes its file size limit.
pub open spec fn limit_rule(h: HostView, conn_id: u64, request_id: Uuid, max_file_size: u64) -> HostView {
    h.with_store(StoreView { max_file_size, ..h.store }.bumped()).ack(
        conn_id,
        request_id,
        None,
    ).broadcast_control()
}

// ---------------------------------------------------------------------------
// Content
// ---------------------------------------------------------------------------

pub open spec fn with_link(h: HostView, conn_id: u64, link: LinkView) -> HostView {
    match conn_of(h.conns, conn_id) {
        Some(c) => HostView {
            conns: with_conn(h.conns, conn_id, ConnView { link, ..c }),
            ..h
        },
        None => h,
    }
}

/// What content the host cannot produce is answered with.
pub open spec fn lost_content(place: Seq<char>, hash: Seq<char>) -> ErrorView {
    if byte_len(hash) != 64 {
        plain(ErrorClass::IntegrityError, malformed_reference(hash))
    } else {
        missing_blob(place, hash)
    }
}

/// Content the host is asked for. Each piece is offered in turn; the first one
/// that is missing degrades the host and ends the answer, for content is never
/// silently substituted.
pub open spec fn request_blobs_rule(h: HostView, conn_id: u64, hashes: Seq<Seq<char>>) -> (
    HostView,
    bool,
)
    decreases hashes.len(),
{
    if hashes.len() == 0 {
        (h, true)
    } else {
        let (g, going) = request_blobs_rule(h, conn_id, hashes.drop_last());
        let hash = hashes.last();
        if !going {
            (g, false)
        } else if !g.blobs.contains_key(hash) {
            let fault = lost_content(g.place, hash);
            (g.degraded(fault.message).send_error(conn_id, None, fault), false)
        } else {
            match conn_of(g.conns, conn_id) {
                Some(c) => {
                    let (link, blob) = offer_step(c.link, hash, g.blobs[hash]);
                    (
                        with_link(g, conn_id, link).send(conn_id, HostMessageView::Blob { blob }),
                        true,
                    )
                },
                None => (g, true),
            }
        }
    }
}

/// What one step of a transfer makes the coordinator do.
pub open spec fn follow(h: HostView, conn_id: u64, step: LinkStep) -> HostView {
    match step {
        LinkStep::Nothing => h,
        LinkStep::Answer(blob) => h.send(conn_id, HostMessageView::Blob { blob }),
        LinkStep::Stream(job) => h.effect(EffectView::Stream { to: conn_id, job }),
        LinkStep::Installed { transfer_id, hash, size } => HostView {
            blobs: with_blob(h.blobs, hash, size),
            ..h
        }.send(conn_id, HostMessageView::Blob { blob: BlobView::Done { transfer_id, hash } }),
    }
}

/// One control message of a transfer.
pub open spec fn blob_rule(
    h: HostView,
    conn_id: u64,
    blob: BlobView,
    free: Option<u64>,
    held: Held,
) -> HostView {
    match conn_of(h.conns, conn_id) {
        Some(c) => {
            let (link, step) = link_step(c.link, h.blobs, blob, free, held);
            follow(with_link(h, conn_id, link), conn_id, step)
        },
        None => h,
    }
}

/// One frame of content.
pub open spec fn data_rule(h: HostView, conn_id: u64, frame: Seq<u8>) -> HostView {
    match conn_of(h.conns, conn_id) {
        Some(c) => {
            let (link, step) = link_data(c.link, frame);
            follow(with_link(h, conn_id, link), conn_id, step)
        },
        None => h,
    }
}

} // verus!
