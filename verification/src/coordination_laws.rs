//! How the coordinator deals with those connected to it: who is there, what they
//! are told, and how a barrier gathers their answers.

use vstd::prelude::*;

use crate::error::ErrorClass;
use crate::host_blobs::{offer_step, LinkStep};
use crate::host_rules::{
    accept, conn_of, connect_rule, converge, declared_scopes, disconnect_rule, follow,
    git_check_due, git_problem, introduced, known_conns, name_of, needs_snapshot, peer_of,
    presence_rule, put_blob, refuse_rule, request_blobs_rule, role_of, send_publications,
    send_revisions, tick_rule, welcome, with_conn, with_name, withheld, without_conn,
    BarrierPeerView, ConnView, EffectView, GitFacts, HelloView, HostView, NameView,
};
use crate::host_step::barrier_tick_rule;
use crate::model::{
    entry_of, same_state, EntryView, FileKind, GitMode, OperationView, OutcomeView, PublicationView,
    RevisionView, Role, ScopeView, SyncView,
};
use crate::proto::{BlobView, CommitView, HostMessageView, PrepareView, ResumeView, RowView};
use crate::publish_rules::{
    all_answered, announce, author_fault, barrier_ack_rule, barrier_ready_rule, commit_author,
    commit_done_rule, conclude_rule, conn_name, has_answered, progress, silent_peers, unready_peers,
    with_peer,
};
use crate::store_host::{
    found, later_than, row_of, span_of, stored_is_found, ActorRecord, StoreView,
};
use crate::text::trim;
use crate::util::{content_hash, Uuid};

verus! {

// ---------------------------------------------------------------------------
// Content
// ---------------------------------------------------------------------------

/// An entry describes its content: the hash and the length of the bytes, the
/// mode it was given, and text exactly when the bytes are at most a mebibyte of
/// valid UTF-8 without a NUL byte.
pub proof fn an_entry_describes_its_content(bytes: Seq<u8>, mode: GitMode)
    ensures
        entry_of(bytes, mode).blob_hash == content_hash(bytes),
        entry_of(bytes, mode).git_mode == mode,
        bytes.len() <= u64::MAX ==> entry_of(bytes, mode).size == bytes.len(),
        (entry_of(bytes, mode).file_kind == FileKind::Text) == (bytes.len() <= 1024 * 1024
            && vstd::utf8::valid_utf8(bytes) && forall|i: int|
            0 <= i < bytes.len() ==> #[trigger] bytes[i] != 0),
{
    if bytes.contains(0) {
        let i = choose|i: int| 0 <= i < bytes.len() && bytes[i] == 0;
        assert(bytes[i] == 0);
    }
}

/// Two states are the same exactly when both are absent or both have the same
/// content under the same mode.
pub proof fn a_state_is_content_and_mode(a: Option<EntryView>, b: Option<EntryView>)
    ensures
        a is None && b is None ==> same_state(a, b),
        a is None != b is None ==> !same_state(a, b),
        a is Some && b is Some ==> same_state(a, b) == (a->0.blob_hash == b->0.blob_hash
            && a->0.git_mode == b->0.git_mode),
{
}

/// A manifest gives for a path the entry of the row with that path.
pub proof fn a_manifest_gives_each_path_its_entry(list: Seq<RowView>, path: Seq<char>)
    ensures
        match row_of(list, path) {
            Some(e) => exists|i: int|
                0 <= i < list.len() && (#[trigger] list[i]).path == path && list[i].entry == e
                    && forall|j: int| 0 <= j < i ==> (#[trigger] list[j]).path != path,
            None => forall|i: int| 0 <= i < list.len() ==> (#[trigger] list[i]).path != path,
        },
    decreases list.len(),
{
    if list.len() > 0 {
        let rest = list.drop_first();
        a_manifest_gives_each_path_its_entry(rest, path);
        if list[0].path == path {
            assert(list[0].entry == row_of(list, path)->0);
        } else {
            match row_of(rest, path) {
                Some(e) => {
                    let i = choose|i: int|
                        0 <= i < rest.len() && (#[trigger] rest[i]).path == path && rest[i].entry == e
                            && forall|j: int| 0 <= j < i ==> (#[trigger] rest[j]).path != path;
                    assert(list[i + 1] == rest[i]);
                    assert forall|j: int| 0 <= j < i + 1 implies (#[trigger] list[j]).path != path by {
                        if j > 0 {
                            assert(rest[j - 1] == list[j]);
                        }
                    }
                },
                None => {
                    assert forall|i: int| 0 <= i < list.len() implies (#[trigger] list[i]).path
                        != path by {
                        if i > 0 {
                            assert(rest[i - 1] == list[i]);
                        }
                    }
                },
            }
        }
    }
}

// ---------------------------------------------------------------------------
// Connections
// ---------------------------------------------------------------------------

/// A connection is found by its number, and the first of that number is.
pub proof fn a_connection_is_found_by_its_number(list: Seq<ConnView>, id: u64)
    ensures
        match conn_of(list, id) {
            Some(c) => exists|i: int|
                0 <= i < list.len() && #[trigger] list[i] == c && c.id == id && forall|j: int|
                    0 <= j < i ==> (#[trigger] list[j]).id != id,
            None => forall|i: int| 0 <= i < list.len() ==> (#[trigger] list[i]).id != id,
        },
    decreases list.len(),
{
    if list.len() > 0 {
        let rest = list.drop_first();
        a_connection_is_found_by_its_number(rest, id);
        if list[0].id == id {
            assert(list[0] == conn_of(list, id)->0);
        } else {
            match conn_of(rest, id) {
                Some(c) => {
                    let i = choose|i: int|
                        0 <= i < rest.len() && #[trigger] rest[i] == c && c.id == id && forall|j: int|
                            0 <= j < i ==> (#[trigger] rest[j]).id != id;
                    assert(list[i + 1] == c);
                    assert forall|j: int| 0 <= j < i + 1 implies (#[trigger] list[j]).id != id by {
                        if j > 0 {
                            assert(rest[j - 1] == list[j]);
                        }
                    }
                },
                None => {
                    assert forall|i: int| 0 <= i < list.len() implies (#[trigger] list[i]).id
                        != id by {
                        if i > 0 {
                            assert(rest[i - 1] == list[i]);
                        }
                    }
                },
            }
        }
    }
}

/// A changed connection is the one that is found afterwards, and no other is
/// touched.
pub proof fn one_connection_is_changed(list: Seq<ConnView>, id: u64, c: ConnView, i: int)
    requires
        c.id == id,
        0 <= i < list.len(),
    ensures
        with_conn(list, id, c).len() == list.len(),
        list[i].id != id ==> with_conn(list, id, c)[i] == list[i],
        list[i].id == id && (forall|j: int| 0 <= j < i ==> (#[trigger] list[j]).id != id)
            ==> with_conn(list, id, c)[i] == c,
        conn_of(with_conn(list, id, c), id) == Some(c) || conn_of(list, id) is None,
    decreases list.len(),
{
    let rest = list.drop_first();
    let next = with_conn(list, id, c);
    if list[0].id == id {
        assert(next[0] == c);
        if i > 0 {
            assert(next[i] == list[i]);
            if list[i].id == id {
                assert(list[0].id == id);
            }
        }
    } else {
        let tail = with_conn(rest, id, c);
        if i > 0 {
            one_connection_is_changed(rest, id, c, i - 1);
            assert(rest[i - 1] == list[i]);
            assert(next[i] == tail[i - 1]);
            if forall|j: int| 0 <= j < i ==> (#[trigger] list[j]).id != id {
                assert forall|j: int| 0 <= j < i - 1 implies (#[trigger] rest[j]).id != id by {
                    assert(rest[j] == list[j + 1]);
                }
            }
        } else if rest.len() > 0 {
            one_connection_is_changed(rest, id, c, 0);
        }
        assert(next.drop_first() =~= tail);
        assert(next[0] == list[0]);
    }
}

/// A new connection is nobody's until it says hello; it replaces one of the same
/// number, and every other stays.
pub proof fn a_new_connection_is_nobodys(
    h: HostView,
    conn_id: u64,
    is_local: bool,
    now_ms: i64,
    other: ConnView,
)
    ensures
        ({
            let next = connect_rule(h, conn_id, is_local, now_ms);
            let c = next.conns.last();
            &&& next.conns.len() > 0
            &&& c.id == conn_id
            &&& c.is_local == is_local
            &&& c.actor_id is None
            &&& c.active_task_id is None
            &&& c.last_applied_revision == 0
            &&& c.last_seen_ms == now_ms
            &&& c.link.offers.len() == 0
            &&& c.link.transfers == crate::blobwire::OpenTransfers::empty()
            &&& other.id != conn_id ==> next.conns.contains(other) == h.conns.contains(other)
            &&& next.store == h.store
            &&& next.outbox == h.outbox
            &&& next.barrier == h.barrier
        }),
{
    let kept = without_conn(h.conns, conn_id);
    let next = connect_rule(h, conn_id, is_local, now_ms).conns;
    lemma_without(h.conns, conn_id, other);
    if other.id != conn_id {
        if kept.contains(other) {
            let i = choose|i: int| 0 <= i < kept.len() && kept[i] == other;
            assert(next[i] == other);
        }
        if next.contains(other) {
            let i = choose|i: int| 0 <= i < next.len() && next[i] == other;
            assert(kept[i] == other);
        }
    }
}

proof fn lemma_without(list: Seq<ConnView>, id: u64, c: ConnView)
    ensures
        without_conn(list, id).contains(c) == (list.contains(c) && c.id != id),
{
    let keep = |x: ConnView| x.id != id;
    if without_conn(list, id).contains(c) {
        let i = choose|i: int| 0 <= i < without_conn(list, id).len() && without_conn(list, id)[i] == c;
        list.lemma_filter_pred(keep, i);
        list.lemma_filter_contains_rev(keep, c);
    }
    if list.contains(c) && c.id != id {
        let i = choose|i: int| 0 <= i < list.len() && list[i] == c;
        list.lemma_filter_contains(keep, i);
    }
}

/// A lost connection is gone, from a running barrier too; everybody else stays,
/// and no work is lost.
pub proof fn a_lost_connection_is_gone(h: HostView, conn_id: u64, other: ConnView, p: BarrierPeerView)
    ensures
        ({
            let next = disconnect_rule(h, conn_id);
            &&& next.conns.contains(other) == (h.conns.contains(other) && other.id != conn_id)
            &&& next.barrier is Some == h.barrier is Some
            &&& h.barrier is Some ==> next.barrier->0.peers.contains(p) == (
            h.barrier->0.peers.contains(p) && p.id != conn_id)
            &&& h.barrier is Some ==> next.barrier->0.request_id == h.barrier->0.request_id
                && next.barrier->0.requester_conn == h.barrier->0.requester_conn
                && next.barrier->0.barrier_id == h.barrier->0.barrier_id
            &&& next.store == h.store
            &&& next.deferred == h.deferred
            &&& next.outbox == h.outbox
        }),
{
    lemma_without(h.conns, conn_id, other);
    if h.barrier is Some {
        let list = h.barrier->0.peers;
        let keep = |x: BarrierPeerView| x.id != conn_id;
        let left = list.filter(keep);
        if left.contains(p) {
            let i = choose|i: int| 0 <= i < left.len() && left[i] == p;
            list.lemma_filter_pred(keep, i);
            list.lemma_filter_contains_rev(keep, p);
        }
        if list.contains(p) && p.id != conn_id {
            let i = choose|i: int| 0 <= i < list.len() && list[i] == p;
            list.lemma_filter_contains(keep, i);
        }
    }
}

/// What a participant says of itself is recorded of its connection alone, and
/// everybody known is told who is there.
pub proof fn presence_is_recorded_and_told(
    h: HostView,
    conn_id: u64,
    applied: u64,
    task: Option<Uuid>,
    i: int,
)
    requires
        0 <= i < h.conns.len(),
    ensures
        ({
            let next = presence_rule(h, conn_id, applied, task);
            let first = forall|j: int| 0 <= j < i ==> (#[trigger] h.conns[j]).id != conn_id;
            &&& next.conns.len() == h.conns.len()
            &&& h.conns[i].id != conn_id ==> next.conns[i] == h.conns[i]
            &&& h.conns[i].id == conn_id && first ==> next.conns[i] == (ConnView {
                last_applied_revision: applied,
                active_task_id: task,
                ..h.conns[i]
            })
            &&& next.outbox.len() == h.outbox.len() + 1
            &&& next.outbox.last() matches EffectView::Send { to, message } && to == known_conns(
                next.conns,
            ) && message is Presence
            &&& next.store == h.store
        }),
{
    a_connection_is_found_by_its_number(h.conns, conn_id);
    match conn_of(h.conns, conn_id) {
        Some(c) => {
            let new = ConnView { last_applied_revision: applied, active_task_id: task, ..c };
            one_connection_is_changed(h.conns, conn_id, new, i);
            let k = choose|k: int|
                0 <= k < h.conns.len() && #[trigger] h.conns[k] == c && c.id == conn_id && forall|
                    j: int,
                |
                    0 <= j < k ==> (#[trigger] h.conns[j]).id != conn_id;
            if h.conns[i].id == conn_id && forall|j: int|
                0 <= j < i ==> (#[trigger] h.conns[j]).id != conn_id {
                if k < i {
                    assert(h.conns[k].id != conn_id);
                }
                if i < k {
                    assert(h.conns[i].id != conn_id);
                }
            }
        },
        None => {},
    }
}

/// Whoever opened the session is its host; everybody else takes part.
pub proof fn whoever_opened_the_session_is_its_host(h: HostView, actor_id: Uuid)
    ensures
        (role_of(h, actor_id) == Role::Host) == (actor_id == h.session.host_actor_id),
{
}

// ---------------------------------------------------------------------------
// What a newcomer is told
// ---------------------------------------------------------------------------

/// The publications that are still to come are all that came after the one
/// named, in their order.
pub proof fn what_came_later_is_pending(list: Seq<PublicationView>, sequence: u64, p: PublicationView)
    ensures
        later_than(list, sequence).contains(p) == (list.contains(p) && p.sequence > sequence),
{
    let keep = |x: PublicationView| x.sequence > sequence;
    let left = later_than(list, sequence);
    if left.contains(p) {
        let i = choose|i: int| 0 <= i < left.len() && left[i] == p;
        list.lemma_filter_pred(keep, i);
        list.lemma_filter_contains_rev(keep, p);
    }
    if list.contains(p) && p.sequence > sequence {
        let i = choose|i: int| 0 <= i < list.len() && list[i] == p;
        list.lemma_filter_contains(keep, i);
    }
}

proof fn lemma_revisions_sent(h: HostView, conn_id: u64, list: Seq<RevisionView>)
    ensures
        ({
            let next = send_revisions(h, conn_id, list);
            &&& next.outbox.len() == h.outbox.len() + list.len()
            &&& forall|i: int| 0 <= i < h.outbox.len() ==> #[trigger] next.outbox[i] == h.outbox[i]
            &&& forall|i: int|
                0 <= i < list.len() ==> next.outbox[h.outbox.len() + i] == (EffectView::Send {
                    to: seq![conn_id],
                    message: HostMessageView::RevisionBroadcast { revision: #[trigger] list[i] },
                })
            &&& next == HostView { outbox: next.outbox, ..h }
        }),
    decreases list.len(),
{
    if list.len() > 0 {
        let front = list.drop_last();
        lemma_revisions_sent(h, conn_id, front);
        let next = send_revisions(h, conn_id, list);
        assert forall|i: int| 0 <= i < list.len() implies next.outbox[h.outbox.len() + i] == (
        EffectView::Send {
            to: seq![conn_id],
            message: HostMessageView::RevisionBroadcast { revision: #[trigger] list[i] },
        }) by {
            if i < front.len() {
                assert(front[i] == list[i]);
            }
        }
    }
}

proof fn lemma_publications_sent(h: HostView, conn_id: u64, list: Seq<PublicationView>)
    ensures
        ({
            let next = send_publications(h, conn_id, list);
            &&& next.outbox.len() == h.outbox.len() + list.len()
            &&& forall|i: int| 0 <= i < h.outbox.len() ==> #[trigger] next.outbox[i] == h.outbox[i]
            &&& next == HostView { outbox: next.outbox, ..h }
        }),
    decreases list.len(),
{
    if list.len() > 0 {
        lemma_publications_sent(h, conn_id, list.drop_last());
    }
}

/// The first thing a newcomer hears is a welcome that says where the session
/// stands: its revision, the publications it lacks, and the whole manifest
/// exactly when replay will not do. The revisions it lacks follow in their order
/// where they are replayed.
pub proof fn a_welcome_says_where_the_session_stands(h: HostView, conn_id: u64, r: ResumeView)
    ensures
        ({
            let next = welcome(h, conn_id, r);
            let at = h.outbox.len() as int;
            let missed = span_of(h.store.log, r.last_applied_revision, h.store.revision());
            &&& next.outbox.len() > at
            &&& next.outbox[at] matches EffectView::Send {
                to,
                message: HostMessageView::Welcome {
                    session,
                    snapshot_revision,
                    manifest,
                    pending_publications,
                    ..
                },
            } && to == seq![conn_id] && session == h.session && snapshot_revision == h.store.revision() && manifest == (
            if needs_snapshot(h, r) {
                Some(h.store.rows)
            } else {
                None
            }) && pending_publications == later_than(
                h.store.publications,
                r.last_publication_sequence,
            )
            &&& !needs_snapshot(h, r) && r.last_applied_revision < h.store.revision() ==> forall|
                k: int,
            |
                0 <= k < missed.len() ==> next.outbox[at + 1 + k] == (EffectView::Send {
                    to: seq![conn_id],
                    message: HostMessageView::RevisionBroadcast { revision: #[trigger] missed[k] },
                })
            &&& next.outbox.last() matches EffectView::Send { to, message } && to == known_conns(
                h.conns,
            ) && message is Presence
            &&& next.state == h.state
        }),
{
    let current = h.store.revision();
    let pending = later_than(h.store.publications, r.last_publication_sequence);
    let greeted = h.send(
        conn_id,
        HostMessageView::Welcome {
            session: h.session,
            snapshot_revision: current,
            manifest: if needs_snapshot(h, r) {
                Some(h.store.rows)
            } else {
                None
            },
            control: h.control(),
            pending_publications: pending,
            host_state_hash: crate::proto::hash_of_rows(h.store.rows),
        },
    );
    let missed = span_of(h.store.log, r.last_applied_revision, current);
    lemma_revisions_sent(greeted, conn_id, missed);
    let replayed = if !needs_snapshot(h, r) && r.last_applied_revision < current {
        send_revisions(greeted, conn_id, missed)
    } else {
        greeted
    };
    lemma_publications_sent(replayed, conn_id, pending);
    let next = welcome(h, conn_id, r);
    let at = h.outbox.len() as int;
    assert(greeted.outbox[at] == greeted.outbox.last());
    assert(replayed.outbox[at] == greeted.outbox[at]);
    let published = send_publications(replayed, conn_id, pending);
    assert(published.outbox[at] == replayed.outbox[at]);
    if !needs_snapshot(h, r) && r.last_applied_revision < current {
        assert forall|k: int| 0 <= k < missed.len() implies next.outbox[at + 1 + k] == (
        EffectView::Send {
            to: seq![conn_id],
            message: HostMessageView::RevisionBroadcast { revision: #[trigger] missed[k] },
        }) by {
            assert(greeted.outbox.len() + k == at + 1 + k);
            assert(published.outbox[at + 1 + k] == replayed.outbox[at + 1 + k]);
        }
    }
}

/// A publication is announced to every connection: to the local one as it is,
/// to every other with its objects.
pub proof fn a_publication_is_announced_to_everybody(
    h: HostView,
    conns: Seq<ConnView>,
    p: PublicationView,
)
    ensures
        ({
            let next = announce(h, conns, p);
            &&& next.outbox.len() == h.outbox.len() + conns.len()
            &&& forall|i: int| 0 <= i < h.outbox.len() ==> #[trigger] next.outbox[i] == h.outbox[i]
            &&& next == HostView { outbox: next.outbox, ..h }
            &&& forall|i: int|
                0 <= i < conns.len() ==> {
                    let sent = next.outbox[h.outbox.len() + i];
                    let to = (#[trigger] conns[i]).id;
                    let local = conn_of(h.conns, to) is Some && conn_of(h.conns, to)->0.is_local;
                    &&& local ==> sent == (EffectView::Send {
                        to: seq![to],
                        message: HostMessageView::Publication { publication: p, pack_hash: None },
                    })
                    &&& !local ==> sent == (EffectView::Pack { to, publication: p })
                }
        }),
    decreases conns.len(),
{
    if conns.len() > 0 {
        let front = conns.drop_last();
        a_publication_is_announced_to_everybody(h, front, p);
        let mid = announce(h, front, p);
        let next = announce(h, conns, p);
        assert forall|i: int| 0 <= i < conns.len() implies ({
            let sent = next.outbox[h.outbox.len() + i];
            let to = (#[trigger] conns[i]).id;
            let local = conn_of(h.conns, to) is Some && conn_of(h.conns, to)->0.is_local;
            &&& local ==> sent == (EffectView::Send {
                to: seq![to],
                message: HostMessageView::Publication { publication: p, pack_hash: None },
            })
            &&& !local ==> sent == (EffectView::Pack { to, publication: p })
        }) by {
            if i < front.len() {
                assert(front[i] == conns[i]);
                assert(next.outbox[h.outbox.len() + i] == mid.outbox[h.outbox.len() + i]);
            }
        }
    }
}

/// Whoever asked for a commit is told how it went; only one that was published
/// is announced.
pub proof fn a_commit_is_answered(
    h: HostView,
    conn_id: u64,
    request_id: Uuid,
    outcome: CommitView,
)
    ensures
        ({
            let next = commit_done_rule(h, conn_id, request_id, outcome);
            let told = if outcome is Published {
                h.conns.len()
            } else {
                0
            };
            &&& next.outbox.len() >= h.outbox.len() + told + 1
            &&& next.outbox[(h.outbox.len() + told) as int] == (EffectView::Send {
                to: seq![conn_id],
                message: HostMessageView::CommitResult { request_id, outcome },
            })
            &&& next.store == h.store
        }),
{
    match outcome {
        CommitView::Published(p) => {
            a_publication_is_announced_to_everybody(h, h.conns, p);
        },
        CommitView::Rejected(_) => {},
    }
}

// ---------------------------------------------------------------------------
// The barrier
// ---------------------------------------------------------------------------

/// A participant's answers are kept as it gave them, and nobody else's are
/// touched.
pub proof fn an_answer_is_kept_for_its_participant(
    list: Seq<BarrierPeerView>,
    p: BarrierPeerView,
    id: u64,
)
    ensures
        peer_of(with_peer(list, p), p.id) == Some(p),
        id != p.id ==> peer_of(with_peer(list, p), id) == peer_of(list, id),
    decreases list.len(),
{
    reveal_with_fuel(peer_of, 2);
    let next = with_peer(list, p);
    if list.len() > 0 {
        let rest = list.drop_first();
        an_answer_is_kept_for_its_participant(rest, p, id);
        if list[0].id == p.id {
            assert(next.drop_first() =~= rest);
            assert(next[0] == p);
        } else {
            assert(next.drop_first() =~= with_peer(rest, p));
            assert(next[0] == list[0]);
        }
    } else {
        assert(next[0] == p);
        assert(next.drop_first() =~= Seq::<BarrierPeerView>::empty());
    }
}

/// The answers to a running barrier are recorded, each beside what the
/// participant said before; an answer to any other barrier changes nothing.
pub proof fn a_barrier_hears_its_own_answers(
    h: HostView,
    conn_id: u64,
    barrier_id: Uuid,
    watermark: u64,
    ok: bool,
    detail: Seq<char>,
)
    ensures
        ({
            let acked = barrier_ack_rule(h, conn_id, barrier_id, watermark);
            let told = barrier_ready_rule(h, conn_id, barrier_id, ok, detail);
            let runs = h.barrier is Some && h.barrier->0.barrier_id == barrier_id;
            let was = peer_of(h.barrier->0.peers, conn_id);
            &&& !runs ==> acked == h && told == h
            &&& runs ==> {
                let a = peer_of(acked.barrier->0.peers, conn_id);
                let t = peer_of(told.barrier->0.peers, conn_id);
                &&& acked.barrier is Some && told.barrier is Some
                &&& a is Some && a->0.watermark == Some(watermark)
                &&& t is Some && t->0.ready == Some((ok, detail))
                &&& was is Some ==> a->0.ready == was->0.ready && t->0.watermark
                    == was->0.watermark
                &&& was is None ==> a->0.ready is None && t->0.watermark is None
            }
            &&& acked.outbox == h.outbox
            &&& told.outbox == h.outbox
            &&& acked.deferred == h.deferred
            &&& told.deferred == h.deferred
        }),
{
    if h.barrier is Some {
        let b = h.barrier->0;
        lemma_peer_id(b.peers, conn_id);
        let was = progress(b.peers, conn_id);
        an_answer_is_kept_for_its_participant(
            b.peers,
            BarrierPeerView { watermark: Some(watermark), ..was },
            conn_id,
        );
        an_answer_is_kept_for_its_participant(
            b.peers,
            BarrierPeerView { ready: Some((ok, detail)), ..was },
            conn_id,
        );
    }
}

proof fn lemma_peer_id(list: Seq<BarrierPeerView>, id: u64)
    ensures
        peer_of(list, id) matches Some(p) ==> p.id == id,
    decreases list.len(),
{
    if list.len() > 0 {
        lemma_peer_id(list.drop_first(), id);
    }
}

/// Work is withheld exactly while a barrier runs whose participant captured it
/// after the mark it gave.
pub proof fn work_is_withheld_after_the_mark(h: HostView, conn_id: u64, local_seq: u64)
    ensures
        withheld(h, conn_id, local_seq) == {
            &&& h.barrier is Some
            &&& peer_of(h.barrier->0.peers, conn_id) is Some
            &&& peer_of(h.barrier->0.peers, conn_id)->0.watermark is Some
            &&& local_seq > peer_of(h.barrier->0.peers, conn_id)->0.watermark->0
        },
{
}

/// A barrier is over as soon as every participant has given its mark and said
/// whether it is ready, or once more than twenty seconds have passed; not
/// before.
pub proof fn a_barrier_is_over_when_everybody_answered(h: HostView, now_ms: i64, fresh: Uuid)
    ensures
        ({
            let (next, step) = barrier_tick_rule(h, now_ms, fresh);
            let b = h.barrier->0;
            let over = h.barrier is Some && (now_ms - b.started_ms > 20000 || forall|i: int|
                0 <= i < b.peers.len() ==> (#[trigger] b.peers[i]).watermark is Some
                    && b.peers[i].ready is Some);
            &&& !over ==> next == h && step is Done
            &&& over ==> {
                &&& step is Finished
                &&& next.barrier is None
                &&& next.deferred.len() == 0
                &&& step->Finished_0.released == h.deferred
                &&& step->Finished_0.request_id == b.request_id
                &&& step->Finished_0.requester_conn == b.requester_conn
                &&& next.outbox.len() == h.outbox.len() + 1
                &&& next.outbox.last() == (EffectView::Send {
                    to: known_conns(h.conns),
                    message: HostMessageView::BarrierEnd { barrier_id: b.barrier_id },
                })
            }
        }),
{
    if h.barrier is Some {
        let b = h.barrier->0;
        if all_answered(b.peers) {
            assert forall|i: int| 0 <= i < b.peers.len() implies (#[trigger] b.peers[i]).watermark
                is Some && b.peers[i].ready is Some by {
                assert(has_answered(b.peers[i]));
            }
        }
    }
}

/// Whoever asked for a preparation is told how it went.
pub proof fn a_preparation_is_answered(
    h: HostView,
    conn_id: u64,
    request_id: Uuid,
    outcome: PrepareView,
    due: bool,
)
    ensures
        ({
            let next = conclude_rule(h, conn_id, request_id, outcome, due);
            &&& next.outbox.len() == h.outbox.len() + if due {
                3int
            } else {
                2int
            }
            &&& next.outbox[h.outbox.len() as int] == (EffectView::Send {
                to: seq![conn_id],
                message: HostMessageView::PrepareResult { request_id, outcome },
            })
        }),
{
}

/// A commit has the address of whoever asked for it where there is one, else the
/// host's; it is refused exactly where there is none, or the host has none.
pub proof fn a_commit_has_an_address(h: HostView, actor_id: Uuid)
    ensures
        ({
            let own = found::<ActorRecord>(h.store.actors, actor_id);
            let has_own = own is Some && trim(own->0.git_email).len() > 0;
            let host_has = trim(h.git_email).len() > 0;
            &&& own is Some ==> commit_author(h, actor_id).0 == own->0.git_name
            &&& has_own ==> commit_author(h, actor_id).1 == own->0.git_email
            &&& !has_own ==> commit_author(h, actor_id).1 == h.git_email
            &&& own is None ==> commit_author(h, actor_id).0 == h.git_name
            &&& (author_fault(h, actor_id) is None) == host_has
            &&& author_fault(h, actor_id) is Some ==> author_fault(h, actor_id)->0.class
                == ErrorClass::UsageError
        }),
{
}

// ---------------------------------------------------------------------------
// Work
// ---------------------------------------------------------------------------

/// A refusal is answered as it is; it is on record unless the store or the
/// content failed, which stops the session instead.
pub proof fn a_refusal_is_answered(
    h: HostView,
    conn_id: u64,
    actor_id: Uuid,
    op: OperationView,
    e: crate::error::ErrorView,
)
    ensures
        ({
            let next = refuse_rule(h, conn_id, actor_id, op, e);
            let broken = e.class == ErrorClass::PersistenceError || e.class
                == ErrorClass::IntegrityError;
            &&& next.outbox.len() > h.outbox.len()
            &&& next.outbox.last() matches EffectView::Send {
                to,
                message: HostMessageView::OperationResult {
                    operation_id,
                    outcome: OutcomeView::Rejected { class, .. },
                },
            } && to == seq![conn_id] && operation_id == op.operation_id && class == e.class
            &&& broken ==> next.store == h.store && next.state == (SyncView::Degraded {
                reason: e.message,
            })
            &&& !broken ==> next.state == h.state && next.store.operations.len()
                == h.store.operations.len() + 1 && next.store.operations.last().operation_id
                == op.operation_id && next.store.operations.last().actor_id == actor_id
            &&& next.store.rows == h.store.rows
            &&& next.store.log == h.store.log
        }),
{
}

/// Content is stored under its hash, once, before anything that names it goes
/// out.
pub proof fn content_is_stored_under_its_hash(h: HostView, bytes: Seq<u8>)
    ensures
        ({
            let next = put_blob(h, bytes);
            &&& next.blobs.contains_key(content_hash(bytes))
            &&& h.blobs.contains_key(content_hash(bytes)) ==> next == h
            &&& !h.blobs.contains_key(content_hash(bytes)) ==> next.outbox == h.outbox.push(
                EffectView::Install { hash: content_hash(bytes), bytes },
            ) && next.blobs[content_hash(bytes)] == bytes.len() as u64
            &&& next.store == h.store
        }),
{
}

/// A scope is declared against what its path is now, and is fresh.
pub proof fn a_scope_is_declared_against_what_is_there(s: StoreView, scopes: Seq<ScopeView>, i: int)
    requires
        0 <= i < scopes.len(),
    ensures
        declared_scopes(s, scopes).len() == scopes.len(),
        declared_scopes(s, scopes)[i].path == scopes[i].path,
        declared_scopes(s, scopes)[i].line_start == scopes[i].line_start,
        declared_scopes(s, scopes)[i].line_end == scopes[i].line_end,
        declared_scopes(s, scopes)[i].declared_against == s.entry(scopes[i].path),
        !declared_scopes(s, scopes)[i].stale,
{
}

/// Git is as a session expects exactly when it is on the branch, at the commit,
/// with nothing staged.
pub proof fn git_is_as_expected_on_branch_and_commit(
    branch: Seq<char>,
    expected_head: Seq<char>,
    g: GitFacts,
    headline: Seq<char>,
    index_headline: Seq<char>,
    index_detail: Seq<char>,
)
    ensures
        (git_problem(branch, expected_head, g, headline, index_headline, index_detail) is None) == (
        g.branch == Some(branch) && g.head == expected_head && !g.staged),
{
}

/// An effect that offers content to a connection.
pub open spec fn offers(e: EffectView, conn_id: u64, name: Seq<char>, length: u64) -> bool {
    e matches EffectView::Send {
        to,
        message: HostMessageView::Blob { blob: BlobView::Offer { hash, size, .. } },
    } && to == seq![conn_id] && hash == name && size == length
}

/// Content that is asked for is offered, all of it in the order asked, up to the
/// first that is lost; that stops the session and says so.
pub proof fn requested_content_is_offered(
    h: HostView,
    conn_id: u64,
    hashes: Seq<Seq<char>>,
)
    requires
        conn_of(h.conns, conn_id) is Some,
    ensures
        ({
            let (next, all) = request_blobs_rule(h, conn_id, hashes);
            let held = forall|i: int|
                0 <= i < hashes.len() ==> h.blobs.contains_key(#[trigger] hashes[i]);
            &&& all == held
            &&& next.blobs == h.blobs
            &&& conn_of(next.conns, conn_id) is Some
            &&& all ==> next.outbox.len() == h.outbox.len() + hashes.len() && next.state == h.state
            &&& all ==> forall|i: int|
                0 <= i < hashes.len() ==> offers(
                    next.outbox[h.outbox.len() + i],
                    conn_id,
                    #[trigger] hashes[i],
                    h.blobs[hashes[i]],
                )
            &&& all ==> forall|i: int|
                0 <= i < h.outbox.len() ==> #[trigger] next.outbox[i] == h.outbox[i]
            &&& !all ==> next.state is Degraded
        }),
    decreases hashes.len(),
{
    if hashes.len() > 0 {
        let front = hashes.drop_last();
        requested_content_is_offered(h, conn_id, front);
        let (mid, going) = request_blobs_rule(h, conn_id, front);
        let (next, all) = request_blobs_rule(h, conn_id, hashes);
        assert(hashes =~= front.push(hashes.last()));
        let held = forall|i: int|
            0 <= i < hashes.len() ==> h.blobs.contains_key(#[trigger] hashes[i]);
        if held {
            assert forall|i: int| 0 <= i < front.len() implies h.blobs.contains_key(
                #[trigger] front[i],
            ) by {
                assert(front[i] == hashes[i]);
            }
            assert(h.blobs.contains_key(hashes[hashes.len() - 1]));
        }
        if going && mid.blobs.contains_key(hashes.last()) {
            assert forall|i: int| 0 <= i < hashes.len() implies h.blobs.contains_key(
                #[trigger] hashes[i],
            ) by {
                if i < front.len() {
                    assert(front[i] == hashes[i]);
                }
            }
            let c = conn_of(mid.conns, conn_id)->0;
            let (link, blob) = offer_step(c.link, hashes.last(), mid.blobs[hashes.last()]);
            a_connection_is_found_by_its_number(mid.conns, conn_id);
            let k = choose|k: int| 0 <= k < mid.conns.len() && #[trigger] mid.conns[k] == c;
            one_connection_is_changed(mid.conns, conn_id, ConnView { link, ..c }, k);
            assert(next.outbox =~= mid.outbox.push(next.outbox.last()));
            assert forall|i: int| 0 <= i < hashes.len() implies offers(
                next.outbox[h.outbox.len() + i],
                conn_id,
                #[trigger] hashes[i],
                h.blobs[hashes[i]],
            ) by {
                if i < front.len() {
                    assert(front[i] == hashes[i]);
                    assert(next.outbox[h.outbox.len() + i] == mid.outbox[h.outbox.len() + i]);
                }
            }
        }
        if !going {
            let i = choose|i: int|
                0 <= i < front.len() && !h.blobs.contains_key(#[trigger] front[i]);
            assert(hashes[i] == front[i]);
        }
    }
}

/// What a step of a transfer asks for is done: an answer is sent, a stream is
/// started, and installed content is held and confirmed.
pub proof fn a_step_of_a_transfer_is_carried_out(h: HostView, conn_id: u64, step: LinkStep)
    ensures
        ({
            let next = follow(h, conn_id, step);
            &&& match step {
                LinkStep::Nothing => next == h,
                LinkStep::Answer(blob) => next.outbox == h.outbox.push(
                    EffectView::Send { to: seq![conn_id], message: HostMessageView::Blob { blob } },
                ) && next.blobs == h.blobs,
                LinkStep::Stream(job) => next.outbox == h.outbox.push(
                    EffectView::Stream { to: conn_id, job },
                ) && next.blobs == h.blobs,
                LinkStep::Installed { transfer_id, hash, size } => next.outbox == h.outbox.push(
                    EffectView::Send {
                        to: seq![conn_id],
                        message: HostMessageView::Blob {
                            blob: BlobView::Done { transfer_id, hash },
                        },
                    },
                ) && (crate::blobs::is_reference(hash) ==> next.blobs.contains_key(hash)) && forall|
                    k: Seq<char>,
                |
                    k != hash ==> #[trigger] next.blobs.contains_key(k) == h.blobs.contains_key(k),
            }
            &&& next.store == h.store
        }),
{
}

/// Git is looked at once three seconds have passed, and a tick changes nothing
/// else.
pub proof fn git_is_looked_at_in_time(h: HostView, now_ms: i64)
    ensures
        git_check_due(h, now_ms) == (now_ms - h.last_git_check_ms >= 3000),
        now_ms - h.last_git_check_ms >= 3000 ==> tick_rule(h, now_ms).last_git_check_ms == now_ms,
        now_ms - h.last_git_check_ms < 3000 ==> tick_rule(h, now_ms) == h,
        tick_rule(h, now_ms).store == h.store,
        tick_rule(h, now_ms).conns == h.conns,
        tick_rule(h, now_ms).outbox == h.outbox,
{
}

/// What everybody is to know goes to every connection that said hello, in one
/// message; a session that breaks says so to all of them.
pub proof fn what_everybody_is_to_know_is_broadcast(
    h: HostView,
    message: HostMessageView,
    reason: Seq<char>,
)
    ensures
        h.broadcast(message).outbox == h.outbox.push(
            EffectView::Send { to: known_conns(h.conns), message },
        ),
        h.degraded(reason).state == (SyncView::Degraded { reason }),
        h.degraded(reason).outbox == h.outbox.push(
            EffectView::Send {
                to: known_conns(h.conns),
                message: HostMessageView::HostState { state: SyncView::Degraded { reason } },
            },
        ),
        h.degraded(reason).store == h.store,
{
}

/// What is agreed beside the files is told whole: the tasks, the conflicts, the
/// last publication, the limit and what is held back.
pub proof fn control_is_told_whole(h: HostView)
    ensures
        h.control().tasks == h.store.tasks,
        h.control().conflicts == h.store.conflicts,
        h.control().publication == h.store.latest(),
        h.store.latest() is Some ==> h.control().publication_sequence == h.store.latest()->0.sequence,
        h.store.latest() is None ==> h.control().publication_sequence == 0,
        h.control().max_file_size == h.store.max_file_size,
        h.control().oversize == h.store.oversize,
        h.control().control_version == h.store.control_version,
        h.control().session == h.session,
        h.broadcast_control().outbox == h.outbox.push(
            EffectView::Send {
                to: known_conns(h.conns),
                message: HostMessageView::Control { control: h.control() },
            },
        ),
{
}

/// Whoever says hello is on record as they introduced themselves, and nobody
/// else's record changes.
pub proof fn whoever_says_hello_is_on_record(h: HostView, x: HelloView, now_ms: i64, other: Uuid)
    ensures
        ({
            let next = introduced(h, x, now_ms);
            let a = found::<ActorRecord>(next.store.actors, x.actor_id);
            &&& a is Some
            &&& a->0.display_name == x.display_name
            &&& a->0.git_name == x.git_name
            &&& a->0.git_email == x.git_email
            &&& a->0.last_seen_ms == now_ms
            &&& other != x.actor_id ==> found::<ActorRecord>(next.store.actors, other) == found::<
                ActorRecord,
            >(h.store.actors, other)
            &&& next.store.log == h.store.log
            &&& next.store.rows == h.store.rows
            &&& next.conns == h.conns
        }),
{
    let a = crate::store_host::ActorView {
        actor_id: x.actor_id,
        display_name: x.display_name,
        git_name: x.git_name,
        git_email: x.git_email,
        last_seen_ms: now_ms,
    };
    stored_is_found::<ActorRecord>(h.store.actors, a, x.actor_id);
    stored_is_found::<ActorRecord>(h.store.actors, a, other);
}

/// A revision that is sent says what the path was and has become, by whom, and
/// is the next one; whoever submitted is answered with it.
pub proof fn an_accepted_operation_is_the_next_revision(
    h: HostView,
    conn_id: u64,
    actor_id: Uuid,
    op: OperationView,
    entry: Option<EntryView>,
    merged: bool,
    now_ms: i64,
)
    ensures
        ({
            let next = accept(h, conn_id, actor_id, op, entry, merged, now_ms);
            let r = next.store.log.last();
            &&& next.store.log.len() == h.store.log.len() + 1
            &&& r.revision == (h.store.revision() + 1) as u64
            &&& r.operation_id == op.operation_id
            &&& r.actor_id == actor_id
            &&& r.path == op.path
            &&& r.before == h.store.entry(op.path)
            &&& r.after == entry
            &&& r.timestamp_ms == now_ms
            &&& next.outbox.len() >= h.outbox.len() + 2
            &&& next.outbox.last() == (EffectView::Send {
                to: known_conns(h.conns),
                message: HostMessageView::RevisionBroadcast { revision: r },
            })
            &&& next.outbox[next.outbox.len() - 2] == (EffectView::Send {
                to: seq![conn_id],
                message: HostMessageView::OperationResult {
                    operation_id: op.operation_id,
                    outcome: if merged {
                        OutcomeView::Merged { revision: r.revision, canonical_entry: entry }
                    } else {
                        OutcomeView::Accepted { revision: r.revision, canonical_entry: entry }
                    },
                },
            })
        }),
{
}

/// An operation that changes nothing is answered with what stands, and makes no
/// revision.
pub proof fn a_converged_operation_makes_no_revision(
    h: HostView,
    conn_id: u64,
    actor_id: Uuid,
    op: OperationView,
)
    ensures
        ({
            let next = converge(h, conn_id, actor_id, op);
            &&& next.store.log == h.store.log
            &&& next.store.rows == h.store.rows
            &&& next.store.operations.len() == h.store.operations.len() + 1
            &&& next.store.operations.last().operation_id == op.operation_id
            &&& next.outbox == h.outbox.push(
                EffectView::Send {
                    to: seq![conn_id],
                    message: HostMessageView::OperationResult {
                        operation_id: op.operation_id,
                        outcome: OutcomeView::Converged {
                            revision: h.store.revision(),
                            canonical_entry: h.store.entry(op.path),
                        },
                    },
                },
            )
        }),
{
}

/// A name that was given is the one that is found, and nobody else's changes.
pub proof fn a_name_that_was_given_is_found(list: Seq<NameView>, n: NameView, other: Uuid)
    ensures
        name_of(with_name(list, n), n.actor_id) == Some(n.name),
        other != n.actor_id ==> name_of(with_name(list, n), other) == name_of(list, other),
    decreases list.len(),
{
    reveal_with_fuel(name_of, 2);
    let next = with_name(list, n);
    if list.len() > 0 {
        let rest = list.drop_first();
        a_name_that_was_given_is_found(rest, n, other);
        if list[0].actor_id == n.actor_id {
            assert(next[0] == n);
            assert(next.drop_first() =~= rest);
        } else {
            assert(next[0] == list[0]);
            assert(next.drop_first() =~= with_name(rest, n));
        }
    } else {
        assert(next[0] == n);
        assert(next.drop_first() =~= Seq::<NameView>::empty());
    }
}

/// Whoever gave no answer to a barrier is named as silent, and whoever said that
/// it is not ready is named with its reason; nobody else is.
pub proof fn whoever_holds_up_a_barrier_is_named(
    h: HostView,
    peers: Seq<BarrierPeerView>,
    text: Seq<char>,
)
    ensures
        silent_peers(h, peers).contains(text) == exists|i: int|
            0 <= i < peers.len() && (#[trigger] peers[i]).ready is None && text == conn_name(
                h,
                peers[i].id,
            ),
        unready_peers(h, peers).contains(text) == exists|i: int|
            0 <= i < peers.len() && (#[trigger] peers[i]).ready is Some && !(peers[i].ready->0).0
                && text == conn_name(h, peers[i].id) + ": "@ + (peers[i].ready->0).1,
    decreases peers.len(),
{
    if peers.len() > 0 {
        let front = peers.drop_last();
        let last = peers[peers.len() - 1];
        whoever_holds_up_a_barrier_is_named(h, front, text);
        assert forall|i: int| 0 <= i < front.len() implies #[trigger] front[i] == peers[i] by {
        }
        crate::text::lemma_push_contains(silent_peers(h, front), conn_name(h, last.id), text);
        if last.ready is Some {
            crate::text::lemma_push_contains(
                unready_peers(h, front),
                conn_name(h, last.id) + ": "@ + (last.ready->0).1,
                text,
            );
        }
        if silent_peers(h, front).contains(text) {
            let i = choose|i: int|
                0 <= i < front.len() && (#[trigger] front[i]).ready is None && text == conn_name(
                    h,
                    front[i].id,
                );
            assert(peers[i] == front[i]);
        }
        if unready_peers(h, front).contains(text) {
            let i = choose|i: int|
                0 <= i < front.len() && (#[trigger] front[i]).ready is Some && !(
                front[i].ready->0).0 && text == conn_name(h, front[i].id) + ": "@ + (
                front[i].ready->0).1;
            assert(peers[i] == front[i]);
        }
        if exists|i: int|
            0 <= i < peers.len() && (#[trigger] peers[i]).ready is None && text == conn_name(
                h,
                peers[i].id,
            ) {
            let i = choose|i: int|
                0 <= i < peers.len() && (#[trigger] peers[i]).ready is None && text == conn_name(
                    h,
                    peers[i].id,
                );
            if i < front.len() {
                assert(front[i] == peers[i]);
            }
        }
        if exists|i: int|
            0 <= i < peers.len() && (#[trigger] peers[i]).ready is Some && !(peers[i].ready->0).0
                && text == conn_name(h, peers[i].id) + ": "@ + (peers[i].ready->0).1 {
            let i = choose|i: int|
                0 <= i < peers.len() && (#[trigger] peers[i]).ready is Some && !(
                peers[i].ready->0).0 && text == conn_name(h, peers[i].id) + ": "@ + (
                peers[i].ready->0).1;
            if i < front.len() {
                assert(front[i] == peers[i]);
            }
        }
    }
}

} // verus!
