//! What a replica does with what it sees and hears: which files it captures and
//! on what base, what it sends, how it follows the host, and when it is ready
//! to be published.

use vstd::prelude::*;

use crate::client_laws::{lemma_send_with, lemma_submit_path, lemma_want_blobs};
use crate::client_rules::{
    absent_hashes, active_task_in, apply_control, blockers, canonical_of, capture, check_barrier,
    check_oversize, client_git_problem, conflicted, enqueue_revision, git_guard, gone, held_needs,
    landed, materialize_if_safe, my_conflicts, my_task, objects_fault, objects_installed, observed,
    on_publication, open_ids, operation_of, operation_rejected, operation_result, publish, rebase,
    record_oversize, ref_read, ref_updated, seeded, settle, submit_path, tree_read, verify_join,
    wants_canonical, with_revision, write_canonical, AwaitedView, ClientEffectView, ClientView,
    Frozen, Purpose, Why, WorkView,
};
use crate::error::ErrorClass;
use crate::host_rules::GitFacts;
use crate::model::{
    ConflictStatus, ConflictView, EntryView, OutcomeView, PublicationStage, PublicationView,
    RevisionView, TaskStatus, TaskView,
};
use crate::proto::{ClientMessageView, ControlView, OversizeReport, RowView};
use crate::reconcile::{apart, reconcile_rule, MergeView, ReconciledView};
use crate::scan::{FileMeta, FoundView, MetaKind};
use crate::store_client::{
    a_path_keeps_what_was_put, flight_of, put_is_found, DraftView, FlightView, JournalRow,
    JournalView, PendingView, ReplicaView, StateView,
};
use crate::store_host::stored_is_found;
use crate::util::Uuid;

verus! {

// ---------------------------------------------------------------------------
// Capture
// ---------------------------------------------------------------------------

/// A file is taken as it is exactly when it is small, is none, tells no time, has
/// not been touched for a second, or was seen alike a second ago.
pub proof fn a_large_file_has_to_hold_still(
    v: ClientView,
    path: Seq<char>,
    meta: Option<FileMeta>,
    now_ms: i64,
)
    ensures
        settle(v, path, meta, now_ms).1 == {
            let m = meta->0;
            let o = observed(v.unstable, path);
            ||| meta is None
            ||| m.kind != MetaKind::File
            ||| m.size < 8 * 1024 * 1024
            ||| m.mtime_ms is None
            ||| now_ms - m.mtime_ms->0 >= 1000
            ||| o is Some && o->0.size == m.size && Some(o->0.mtime_ms) == m.mtime_ms && now_ms
                - o->0.at_ms >= 1000
        },
{
    reveal(settle);
}

/// A file is held back exactly when it is above the limit of the session, judged
/// by its size.
pub proof fn a_file_is_held_back_above_the_limit(
    v: ClientView,
    path: Seq<char>,
    meta: Option<FileMeta>,
    other: Seq<char>,
)
    ensures
        ({
            let (next, over) = check_oversize(v, path, meta);
            &&& over == (meta is Some && meta->0.kind == MetaKind::File && meta->0.size
                > v.max_file_size)
            &&& over ==> next.replica.is_oversize(path)
            &&& over && other != path ==> next.replica.is_oversize(other) == v.replica.is_oversize(
                other,
            )
            &&& next.replica.states == v.replica.states
            &&& next.todo == v.todo
            &&& next.outbox == v.outbox
        }),
{
    reveal(check_oversize);
    reveal(record_oversize);
    reveal(crate::client_rules::forget_oversize);
    if let Some(m) = meta {
        let r = crate::proto::ReportView {
            path,
            size: m.size,
            canonical: v.state(path).confirmed is Some,
        };
        put_is_found::<OversizeReport>(v.replica.oversize, r, path);
        put_is_found::<OversizeReport>(v.replica.oversize, r, other);
    }
}

/// Work is captured exactly when the file is not what it was last seen or
/// written as. Where it goes depends on what the path has: into its draft, behind
/// the operation in flight, or into an operation of its own, on the base frozen
/// when the file began to change or else on what is confirmed.
pub proof fn a_change_is_captured_on_its_base(
    v: ClientView,
    path: Seq<char>,
    entry: Option<EntryView>,
    frozen: Frozen,
    now_ms: i64,
    fresh: Uuid,
)
    requires
        v.replica.local_seq < u64::MAX,
    ensures
        ({
            let (next, captured) = capture(v, path, entry, frozen, now_ms, fresh);
            let s = v.state(path);
            let t = next.state(path);
            &&& captured == apart(entry, s.materialized)
            &&& !captured ==> next == v
            &&& captured ==> {
                &&& t.materialized == entry
                &&& t.confirmed == s.confirmed
                &&& t.confirmed_revision == s.confirmed_revision
                &&& s.conflict_draft is Some ==> {
                    &&& t.conflict_draft is Some
                    &&& t.conflict_draft->0.entry == entry
                    &&& t.conflict_draft->0.conflict_id == s.conflict_draft->0.conflict_id
                    &&& t.in_flight == s.in_flight
                    &&& t.pending_local == s.pending_local
                }
                &&& s.conflict_draft is None && s.in_flight is Some ==> {
                    &&& t.pending_local is Some
                    &&& t.pending_local->0.desired == entry
                    &&& t.in_flight == s.in_flight
                    &&& t.conflict_draft is None
                }
                &&& s.conflict_draft is None && s.in_flight is None ==> {
                    &&& t.in_flight is Some
                    &&& t.in_flight->0.operation_id == fresh
                    &&& t.in_flight->0.desired == entry
                    &&& frozen is Some ==> t.in_flight->0.base_revision == (frozen->0).0
                        && t.in_flight->0.base_entry == (frozen->0).1
                    &&& frozen is None ==> t.in_flight->0.base_revision == s.confirmed_revision
                        && t.in_flight->0.base_entry == s.confirmed
                    &&& t.conflict_draft is None
                    &&& t.pending_local == s.pending_local
                }
            }
        }),
{
    reveal(capture);
    let s = v.state(path);
    if apart(entry, s.materialized) {
        let seq = (v.replica.local_seq + 1) as u64;
        let task_id = my_task(v);
        let counted = v.with_replica(ReplicaView { local_seq: seq, ..v.replica });
        match (s.conflict_draft, s.in_flight) {
            (Some(d), _) => {
                let t = StateView {
                    conflict_draft: Some(DraftView { entry, local_seq: seq, ..d }),
                    materialized: entry,
                    ..s
                };
                a_path_keeps_what_was_put(counted.replica, path, t, path);
            },
            (None, Some(_)) => {
                let t = StateView {
                    pending_local: Some(
                        PendingView { desired: entry, local_seq: seq, task_id },
                    ),
                    materialized: entry,
                    ..s
                };
                a_path_keeps_what_was_put(counted.replica, path, t, path);
                reveal(check_barrier);
            },
            (None, None) => {
                let (base_revision, base_entry) = match frozen {
                    Some(f) => f,
                    None => (s.confirmed_revision, s.confirmed),
                };
                let t = StateView {
                    in_flight: Some(
                        FlightView {
                            operation_id: fresh,
                            base_revision,
                            base_entry,
                            desired: entry,
                            local_seq: seq,
                            task_id,
                            sent: false,
                            sent_at_ms: 0,
                        },
                    ),
                    materialized: entry,
                    ..s
                };
                a_path_keeps_what_was_put(counted.replica, path, t, path);
                lemma_submit_path(counted.with_state(path, t), path, now_ms);
            },
        }
    }
}

/// The task work is done under is one's own active one.
pub proof fn work_is_done_under_ones_own_task(tasks: Seq<TaskView>, actor_id: Uuid)
    ensures
        match active_task_in(tasks, actor_id) {
            Some(t) => tasks.contains(t) && t.actor_id == actor_id && t.status
                == TaskStatus::Active,
            None => forall|i: int|
                0 <= i < tasks.len() ==> !((#[trigger] tasks[i]).actor_id == actor_id
                    && tasks[i].status == TaskStatus::Active),
        },
    decreases tasks.len(),
{
    if tasks.len() > 0 {
        let rest = tasks.drop_first();
        work_is_done_under_ones_own_task(rest, actor_id);
        if tasks[0].actor_id == actor_id && tasks[0].status == TaskStatus::Active {
            assert(tasks.contains(tasks[0]));
        } else {
            match active_task_in(rest, actor_id) {
                Some(t) => {
                    let i = choose|i: int| 0 <= i < rest.len() && rest[i] == t;
                    assert(tasks[i + 1] == t);
                },
                None => {
                    assert forall|i: int| 0 <= i < tasks.len() implies !((
                    #[trigger] tasks[i]).actor_id == actor_id && tasks[i].status
                        == TaskStatus::Active) by {
                        if i > 0 {
                            assert(rest[i - 1] == tasks[i]);
                        }
                    }
                },
            }
        }
    }
}

// ---------------------------------------------------------------------------
// What is sent
// ---------------------------------------------------------------------------

/// The operation of a path carries what was captured, and whose it is.
pub proof fn an_operation_carries_what_was_captured(
    v: ClientView,
    path: Seq<char>,
    f: FlightView,
)
    ensures
        ({
            let op = operation_of(v, path, f);
            &&& op.path == path
            &&& op.desired_entry == f.desired
            &&& op.base_entry == f.base_entry
            &&& op.base_revision == f.base_revision
            &&& op.operation_id == f.operation_id
            &&& op.local_seq == f.local_seq
            &&& op.task_id == f.task_id
            &&& op.actor_id == v.actor_id
        }),
{
}

/// An operation goes out exactly when it has not, there is a connection, and no
/// barrier holds it back: it is marked as sent then, and only then.
pub proof fn an_operation_goes_out_once(v: ClientView, path: Seq<char>, now_ms: i64)
    ensures
        ({
            let next = submit_path(v, path, now_ms);
            let s = v.state(path);
            let t = next.state(path);
            let f = s.in_flight;
            let goes = f is Some && !f->0.sent && v.connected && !(v.barrier is Some
                && f->0.local_seq > v.barrier->0.watermark);
            &&& !goes ==> next == v
            &&& goes ==> {
                &&& t.in_flight is Some
                &&& t.in_flight->0.sent
                &&& t.in_flight->0.sent_at_ms == now_ms
                &&& t.in_flight->0.operation_id == f->0.operation_id
                &&& t.in_flight->0.desired == f->0.desired
            }
            &&& t.confirmed == s.confirmed && t.materialized == s.materialized && t.pending_local
                == s.pending_local && t.conflict_draft == s.conflict_draft
        }),
{
    lemma_submit_path(v, path, now_ms);
    reveal(submit_path);
    let s = v.state(path);
    if let Some(f) = s.in_flight {
        let needs = crate::client_rules::needs_of(f.desired);
        let m = ClientMessageView::SubmitOperation { operation: operation_of(v, path, f) };
        lemma_send_with(v, f.operation_id, needs, m);
        let sent = crate::client_rules::send_with(v, f.operation_id, needs, m);
        let t = StateView {
            in_flight: Some(
                FlightView { sent: true, sent_at_ms: now_ms, ..f },
            ),
            ..s
        };
        a_path_keeps_what_was_put(sent.replica, path, t, path);
    }
}

// ---------------------------------------------------------------------------
// Following the host
// ---------------------------------------------------------------------------

/// A revision that came early waits among the others, in the order of their
/// numbers; one of the same number is replaced.
pub proof fn early_revisions_wait_in_order(list: Seq<RevisionView>, r: RevisionView)
    requires
        forall|i: int, j: int|
            0 <= i < j < list.len() ==> (#[trigger] list[i]).revision < (#[trigger] list[j]).revision,
    ensures
        ({
            let all = with_revision(list, r);
            &&& forall|i: int, j: int|
                0 <= i < j < all.len() ==> (#[trigger] all[i]).revision < (
                #[trigger] all[j]).revision
            &&& all.contains(r)
            &&& forall|x: RevisionView|
                x.revision != r.revision ==> #[trigger] all.contains(x) == list.contains(x)
            &&& all.len() > 0 && (all[0] == r || list.len() > 0 && all[0] == list[0])
        }),
    decreases list.len(),
{
    let all = with_revision(list, r);
    if list.len() == 0 {
        assert(all[0] == r);
        assert forall|x: RevisionView| x.revision != r.revision implies #[trigger] all.contains(x)
            == list.contains(x) by {
            if all.contains(x) {
                let i = choose|i: int| 0 <= i < all.len() && all[i] == x;
            }
        }
    } else {
        let rest = list.drop_first();
        assert forall|i: int, j: int| 0 <= i < j < rest.len() implies (#[trigger] rest[i]).revision
            < (#[trigger] rest[j]).revision by {
            assert(list[i + 1].revision < list[j + 1].revision);
        }
        early_revisions_wait_in_order(rest, r);
        let tail = with_revision(rest, r);
        if list[0].revision == r.revision {
            assert(all =~= seq![r] + rest);
            assert forall|i: int, j: int| 0 <= i < j < all.len() implies (#[trigger] all[i]).revision
                < (#[trigger] all[j]).revision by {
                if i == 0 {
                    assert(list[0].revision < list[j].revision);
                } else {
                    assert(list[i].revision < list[j].revision);
                }
            }
            assert(all[0] == r);
            assert forall|x: RevisionView| x.revision != r.revision implies #[trigger] all.contains(
                x,
            ) == list.contains(x) by {
                if all.contains(x) {
                    let i = choose|i: int| 0 <= i < all.len() && all[i] == x;
                    assert(list[i] == x);
                }
                if list.contains(x) {
                    let i = choose|i: int| 0 <= i < list.len() && list[i] == x;
                    assert(all[i] == x);
                }
            }
        } else if r.revision < list[0].revision {
            assert(all =~= seq![r] + list);
            assert forall|i: int, j: int| 0 <= i < j < all.len() implies (#[trigger] all[i]).revision
                < (#[trigger] all[j]).revision by {
                if i == 0 {
                    if j > 1 {
                        assert(list[0].revision < list[j - 1].revision);
                    }
                } else {
                    assert(list[i - 1].revision < list[j - 1].revision);
                }
            }
            assert(all[0] == r);
            assert forall|x: RevisionView| x.revision != r.revision implies #[trigger] all.contains(
                x,
            ) == list.contains(x) by {
                if all.contains(x) {
                    let i = choose|i: int| 0 <= i < all.len() && all[i] == x;
                    assert(list[i - 1] == x);
                }
                if list.contains(x) {
                    let i = choose|i: int| 0 <= i < list.len() && list[i] == x;
                    assert(all[i + 1] == x);
                }
            }
        } else {
            assert(all =~= seq![list[0]] + tail);
            assert forall|i: int, j: int| 0 <= i < j < all.len() implies (#[trigger] all[i]).revision
                < (#[trigger] all[j]).revision by {
                if i == 0 {
                    if j == 1 {
                        if tail[0] != r {
                            assert(list[0].revision < list[1].revision);
                        }
                    } else {
                        assert(tail[0].revision < tail[j - 1].revision);
                        if tail[0] != r {
                            assert(list[0].revision < list[1].revision);
                        }
                    }
                } else {
                    assert(tail[i - 1].revision < tail[j - 1].revision);
                }
            }
            let k = choose|k: int| 0 <= k < tail.len() && tail[k] == r;
            assert(all[k + 1] == r);
            assert forall|x: RevisionView| x.revision != r.revision implies #[trigger] all.contains(
                x,
            ) == list.contains(x) by {
                if all.contains(x) {
                    let i = choose|i: int| 0 <= i < all.len() && all[i] == x;
                    if i > 0 {
                        assert(tail[i - 1] == x);
                        assert(tail.contains(x));
                        assert(rest.contains(x));
                        let q = choose|q: int| 0 <= q < rest.len() && rest[q] == x;
                        assert(list[q + 1] == x);
                    } else {
                        assert(list[0] == x);
                    }
                }
                if list.contains(x) {
                    let i = choose|i: int| 0 <= i < list.len() && list[i] == x;
                    if i > 0 {
                        assert(rest[i - 1] == x);
                        assert(rest.contains(x));
                        assert(tail.contains(x));
                        let q = choose|q: int| 0 <= q < tail.len() && tail[q] == x;
                        assert(all[q + 1] == x);
                    } else {
                        assert(all[0] == x);
                    }
                }
            }
        }
    }
}

/// Canonical content may replace a file exactly when the path has no local work
/// and the file is not canonical already; it is looked at first.
pub proof fn canonical_content_waits_for_local_work(v: ClientView, path: Seq<char>)
    ensures
        ({
            let s = v.state(path);
            let free = s.in_flight is None && s.pending_local is None && s.conflict_draft is None;
            &&& wants_canonical(s) == (free && apart(s.confirmed, s.materialized))
            &&& materialize_if_safe(v, path) == if free && apart(s.confirmed, s.materialized) {
                v.first(seq![WorkView::Visit { path, why: Why::Materialize }])
            } else {
                v
            }
        }),
{
    reveal(materialize_if_safe);
}

/// What is written is what is confirmed, once its content is at hand; until then
/// nothing is.
pub proof fn what_is_written_is_what_is_confirmed(v: ClientView, path: Seq<char>)
    ensures
        ({
            let next = write_canonical(v, path);
            let e = v.state(path).confirmed;
            let there = e is None || v.traffic.store.contains_key(e->0.blob_hash);
            &&& there ==> next == v.first(
                seq![WorkView::Write { path, entry: e, purpose: Purpose::Replace }],
            )
            &&& next.replica == v.replica
        }),
{
    reveal(write_canonical);
    if let Some(e) = v.state(path).confirmed {
        lemma_want_blobs(v, seq![e.blob_hash]);
    }
}

/// New control state is taken as it is. A draft ends exactly when its conflict
/// was open before and is not any more.
pub proof fn a_draft_ends_with_its_conflict(v: ClientView, c: ControlView, i: int)
    requires
        0 <= i < v.replica.states.len(),
    ensures
        ({
            let next = apply_control(v, c);
            let row = v.replica.states[i];
            let after = next.replica.states[i];
            let d = row.state.conflict_draft;
            let was = d is Some && v.control is Some && exists|k: int|
                0 <= k < v.control->0.conflicts.len() && (#[trigger] v.control->0.conflicts[k]).id
                    == d->0.conflict_id && v.control->0.conflicts[k].status == ConflictStatus::Open;
            let still = exists|k: int|
                0 <= k < c.conflicts.len() && (#[trigger] c.conflicts[k]).id == d->0.conflict_id
                    && c.conflicts[k].status == ConflictStatus::Open;
            &&& next.control == Some(c)
            &&& next.replica.control == Some(c)
            &&& next.max_file_size == c.max_file_size
            &&& next.replica.states.len() == v.replica.states.len()
            &&& after.path == row.path
            &&& after.state.conflict_draft == if was && !still {
                None
            } else {
                d
            }
            &&& after.state.confirmed == row.state.confirmed
            &&& after.state.materialized == row.state.materialized
            &&& after.state.in_flight == row.state.in_flight
            &&& after.state.pending_local == row.state.pending_local
        }),
{
    reveal(apply_control);
    let before = match v.control {
        Some(o) => open_ids(o.conflicts),
        None => Seq::empty(),
    };
    let now = open_ids(c.conflicts);
    let closed = gone(before, now);
    if let Some(d) = v.replica.states[i].state.conflict_draft {
        if let Some(o) = v.control {
            lemma_open_ids(o.conflicts, d.conflict_id);
        }
        lemma_open_ids(c.conflicts, d.conflict_id);
        lemma_gone(before, now, d.conflict_id);
        if closed.contains(d.conflict_id) {
            assert(closed.len() > 0);
        }
    }
}

proof fn lemma_open_ids(list: Seq<ConflictView>, id: Uuid)
    ensures
        open_ids(list).contains(id) == exists|k: int|
            0 <= k < list.len() && (#[trigger] list[k]).id == id && list[k].status
                == ConflictStatus::Open,
    decreases list.len(),
{
    if list.len() > 0 {
        let front = list.drop_last();
        let last = list.last();
        lemma_open_ids(front, id);
        lemma_pushed(open_ids(front), last.id, id);
        assert(list[list.len() - 1] == last);
        if exists|k: int|
            0 <= k < front.len() && (#[trigger] front[k]).id == id && front[k].status
                == ConflictStatus::Open {
            let k = choose|k: int|
                0 <= k < front.len() && (#[trigger] front[k]).id == id && front[k].status
                    == ConflictStatus::Open;
            assert(list[k] == front[k]);
        }
        if exists|k: int|
            0 <= k < list.len() && (#[trigger] list[k]).id == id && list[k].status
                == ConflictStatus::Open {
            let k = choose|k: int|
                0 <= k < list.len() && (#[trigger] list[k]).id == id && list[k].status
                    == ConflictStatus::Open;
            if k < front.len() {
                assert(front[k] == list[k]);
            }
        }
    }
}

proof fn lemma_gone(before: Seq<Uuid>, now: Seq<Uuid>, id: Uuid)
    ensures
        gone(before, now).contains(id) == (before.contains(id) && !now.contains(id)),
    decreases before.len(),
{
    if before.len() > 0 {
        let front = before.drop_last();
        lemma_gone(front, now, id);
        lemma_pushed(gone(front, now), before.last(), id);
        lemma_pushed(front, before.last(), id);
        assert(before =~= front.push(before.last()));
    }
}

proof fn lemma_pushed<T>(list: Seq<T>, t: T, u: T)
    ensures
        list.push(t).contains(u) == (list.contains(u) || t == u),
{
    if list.contains(u) {
        let i = choose|i: int| 0 <= i < list.len() && list[i] == u;
        assert(list.push(t)[i] == u);
    }
    assert(list.push(t)[list.len() as int] == t);
    if list.push(t).contains(u) && t != u {
        let i = choose|i: int| 0 <= i < list.push(t).len() && list.push(t)[i] == u;
        assert(list[i] == u);
    }
}

/// What becomes of a refused operation: what may pass is kept to be sent again;
/// what has lost its base is kept as local work and the manifest is asked for;
/// anything else is given up, and the path is named with the reason.
pub proof fn a_refused_operation_is_kept_where_it_may_pass(
    v: ClientView,
    path: Seq<char>,
    class: ErrorClass,
    message: Seq<char>,
)
    requires
        v.state(path).in_flight is Some,
    ensures
        ({
            let next = operation_rejected(v, path, class, message);
            let s = v.state(path);
            let t = next.state(path);
            let passes = class == ErrorClass::SessionError || class == ErrorClass::NetworkError || class
                == ErrorClass::PersistenceError;
            let lost = class == ErrorClass::ProtocolError;
            &&& t.materialized == s.materialized
            &&& t.confirmed == s.confirmed
            &&& passes ==> {
                &&& t.in_flight is Some
                &&& !t.in_flight->0.sent
                &&& t.in_flight->0.desired == s.in_flight->0.desired
                &&& t.in_flight->0.operation_id == s.in_flight->0.operation_id
                &&& t.pending_local == s.pending_local
            }
            &&& lost ==> {
                &&& t.in_flight is None
                &&& t.pending_local is Some
                &&& s.pending_local is None ==> t.pending_local->0.desired
                    == s.in_flight->0.desired
                &&& s.pending_local is Some ==> t.pending_local == s.pending_local
                &&& v.attached ==> next.outbox.last() == ClientEffectView::Send(
                    ClientMessageView::RequestManifest { reason: message },
                )
            }
            &&& !passes && !lost ==> {
                &&& t.in_flight is None
                &&& t.pending_local is None
                &&& exists|k: int|
                    0 <= k < next.rejected.len() && (#[trigger] next.rejected[k]).path == path
            }
        }),
{
    reveal(operation_rejected);
    let s = v.state(path);
    let next = operation_rejected(v, path, class, message);
    let f = s.in_flight->0;
    let a = StateView {
        in_flight: Some(FlightView { sent: false, ..f }),
        ..s
    };
    let b = StateView {
        in_flight: None,
        pending_local: match s.pending_local {
            None => Some(
                PendingView {
                    desired: f.desired,
                    local_seq: f.local_seq,
                    task_id: f.task_id,
                },
            ),
            p => p,
        },
        ..s
    };
    let c = StateView { in_flight: None, pending_local: None, ..s };
    a_path_keeps_what_was_put(v.replica, path, a, path);
    a_path_keeps_what_was_put(v.replica, path, b, path);
    a_path_keeps_what_was_put(v.replica, path, c, path);
    if !(class == ErrorClass::SessionError || class == ErrorClass::NetworkError || class
        == ErrorClass::PersistenceError || class == ErrorClass::ProtocolError) {
        if crate::client_rules::is_rejected(v.rejected, path) {
            let k = choose|k: int|
                0 <= k < v.rejected.len() && (#[trigger] v.rejected[k]).path == path;
            assert(next.rejected[k].path == path);
        } else {
            assert(next.rejected[v.rejected.len() as int].path == path);
        }
    }
}

// ---------------------------------------------------------------------------
// Publications
// ---------------------------------------------------------------------------

/// Installed objects are what was announced exactly when the commit is there
/// with its tree; the branch is looked at only then.
pub proof fn a_publication_is_verified_before_the_branch(
    v: ClientView,
    p: PublicationView,
    present: bool,
    tree: Option<Seq<char>>,
)
    ensures
        ({
            let right = present && tree == Some(p.descriptor.tree_oid);
            let next = objects_installed(v, p, present, tree);
            &&& (objects_fault(p, present, tree) is None) == right
            &&& right ==> next.todo == seq![WorkView::ReadRef { publication: p }] + v.todo
                && next.replica.stage_of(p.sequence) == Some(PublicationStage::ObjectsInstalled)
            &&& next.expected_head == v.expected_head
        }),
{
    reveal(objects_installed);
    reveal(crate::client_rules::fail);
    let j = JournalView { publication: p, stage: PublicationStage::ObjectsInstalled };
    stored_is_found::<JournalRow>(v.replica.journal, j, p.sequence as u128);
    if !(present && tree == Some(p.descriptor.tree_oid)) {
        lemma_answers(
            ClientView { todo: Seq::empty(), ..v },
            crate::client_rules::rescan_calls(v.todo),
            objects_fault(p, present, tree)->0,
        );
    }
}

proof fn lemma_answers(v: ClientView, calls: Seq<u64>, e: crate::error::ErrorView)
    ensures
        crate::client_rules::answer_all(v, calls, e).expected_head == v.expected_head,
    decreases calls.len(),
{
    if calls.len() > 0 {
        lemma_answers(v, calls.drop_last(), e);
    }
}

/// The branch is moved exactly when it is not at the commit yet; the index
/// follows, and only then the publication is installed.
pub proof fn the_index_follows_the_branch(v: ClientView, p: PublicationView, current: Option<Seq<char>>)
    ensures
        ({
            let read = ref_read(v, p, current);
            let moved = ref_updated(v, p);
            let done = tree_read(v, p);
            let there = current == Some(p.descriptor.commit_oid);
            &&& there ==> read == moved
            &&& !there ==> read == v.first(seq![WorkView::UpdateRef { publication: p }])
            &&& moved.expected_head == p.descriptor.commit_oid
            &&& moved.todo == seq![WorkView::ReadTree { publication: p }] + v.todo
            &&& moved.replica.stage_of(p.sequence) == Some(PublicationStage::RefUpdated)
            &&& done.replica.stage_of(p.sequence) == Some(PublicationStage::Complete)
            &&& done.replica.publication_sequence == p.sequence
            &&& done.todo == v.todo
        }),
{
    reveal(ref_read);
    reveal(ref_updated);
    reveal(tree_read);
    let at = |stage: PublicationStage| JournalView { publication: p, stage };
    let key = p.sequence as u128;
    stored_is_found::<JournalRow>(v.replica.journal, at(PublicationStage::RefUpdated), key);
    let indexed = v.replica.journaled(p, PublicationStage::IndexUpdated);
    stored_is_found::<JournalRow>(indexed.journal, at(PublicationStage::Complete), key);
}

/// A publication whose pack is not at hand waits for it, once; any other is
/// taken up at once.
pub proof fn a_publication_waits_for_its_pack(
    v: ClientView,
    p: PublicationView,
    pack: Option<Seq<char>>,
)
    ensures
        ({
            let next = on_publication(v, p, pack);
            let waits = pack is Some && !v.traffic.store.contains_key(pack->0);
            &&& !waits ==> next == v.first(seq![WorkView::Publish { publication: p, pack }])
            &&& next.replica == v.replica
        }),
{
    reveal(on_publication);
    if let Some(hash) = pack {
        let held = ClientView {
            awaiting_pack: if crate::client_rules::is_awaited(v.awaiting_pack, hash, p.sequence) {
                v.awaiting_pack
            } else {
                v.awaiting_pack.push(AwaitedView { hash, publication: p })
            },
            ..v
        };
        lemma_want_blobs(held, seq![hash]);
    }
}

/// A publication that is installed is not installed again; any other begins with
/// its objects.
pub proof fn a_publication_is_installed_once(v: ClientView, p: PublicationView, pack: Option<Seq<char>>)
    ensures
        ({
            let next = publish(v, p, pack);
            let done = v.replica.stage_of(p.sequence) == Some(PublicationStage::Complete);
            &&& done ==> next.todo == v.todo && next.expected_head == p.descriptor.commit_oid
                && next.replica.publication_sequence == p.sequence && next.replica.journal
                == v.replica.journal
            &&& !done ==> next.todo == seq![WorkView::InstallObjects { publication: p, pack }]
                + v.todo && next.replica.stage_of(p.sequence) == Some(PublicationStage::Pending)
                && next.expected_head == v.expected_head
        }),
{
    reveal(publish);
    let j = JournalView { publication: p, stage: PublicationStage::Pending };
    stored_is_found::<JournalRow>(v.replica.journal, j, p.sequence as u128);
}

// ---------------------------------------------------------------------------
// Barriers and the guard
// ---------------------------------------------------------------------------

/// A replica is ready to be published exactly when it has no open conflict of
/// its own, met none since the barrier began, and holds no file back.
pub proof fn a_replica_is_ready_when_nothing_stands_in_the_way(v: ClientView, conflicted: bool)
    ensures
        (blockers(v, conflicted).len() == 0) == {
            &&& !conflicted
            &&& v.replica.oversize.len() == 0
            &&& v.control is Some ==> forall|k: int|
                0 <= k < v.control->0.conflicts.len() ==> !((
                #[trigger] v.control->0.conflicts[k]).status == ConflictStatus::Open
                    && v.control->0.conflicts[k].incoming_actor_id == v.actor_id)
        },
{
    if let Some(c) = v.control {
        lemma_my_conflicts(c.conflicts, v.actor_id);
    }
}

proof fn lemma_my_conflicts(list: Seq<ConflictView>, actor_id: Uuid)
    ensures
        (my_conflicts(list, actor_id).len() == 0) == forall|k: int|
            0 <= k < list.len() ==> !((#[trigger] list[k]).status == ConflictStatus::Open
                && list[k].incoming_actor_id == actor_id),
    decreases list.len(),
{
    if list.len() > 0 {
        let front = list.drop_last();
        lemma_my_conflicts(front, actor_id);
        let last = list[list.len() - 1];
        if forall|k: int|
            0 <= k < list.len() ==> !((#[trigger] list[k]).status == ConflictStatus::Open
                && list[k].incoming_actor_id == actor_id) {
            assert(!(last.status == ConflictStatus::Open && last.incoming_actor_id == actor_id));
            assert forall|k: int| 0 <= k < front.len() implies !((
            #[trigger] front[k]).status == ConflictStatus::Open && front[k].incoming_actor_id
                == actor_id) by {
                assert(front[k] == list[k]);
            }
        } else {
            let k = choose|k: int|
                0 <= k < list.len() && ((#[trigger] list[k]).status == ConflictStatus::Open
                    && list[k].incoming_actor_id == actor_id);
            if k < front.len() {
                assert(front[k] == list[k]);
            }
        }
    }
}

/// A barrier is answered exactly once, when nothing is in transit and nothing
/// captured up to its watermark is unanswered; the answer says whether the
/// replica is ready.
pub proof fn a_barrier_is_answered_with_readiness(v: ClientView)
    requires
        v.attached,
    ensures
        ({
            let next = check_barrier(v);
            let b = v.barrier;
            let due = b is Some && !b->0.ready_sent && !v.waiting_for_content()
                && !crate::client_rules::outstanding(v, b->0.watermark);
            &&& !due ==> next == v
            &&& due ==> {
                &&& next.barrier is Some
                &&& next.barrier->0.ready_sent
                &&& next.barrier->0.watermark == b->0.watermark
                &&& match next.outbox.last() {
                    ClientEffectView::Send(
                        ClientMessageView::BarrierReady { barrier_id, ok, detail },
                    ) => barrier_id == b->0.barrier_id && ok == (blockers(
                        v,
                        b->0.conflicted,
                    ).len() == 0),
                    _ => false,
                }
            }
        }),
{
    reveal(check_barrier);
}

/// A replica pauses when Git is not as the session expects it at two checks in a
/// row, and resumes, with a full look at the tree, as soon as it is again.
pub proof fn a_replica_pauses_while_git_stays_wrong(v: ClientView, g: GitFacts, now_ms: i64)
    ensures
        ({
            let right = g.branch == Some(v.branch) && g.head == v.expected_head && !g.staged;
            let next = git_guard(v, g, now_ms);
            &&& (client_git_problem(v, g) is None) == right
            &&& v.local_state is Live && right ==> next.local_state is Live
                && !next.git_problem_pending
            &&& v.local_state is Live && !right && !v.git_problem_pending ==> next.local_state is Live
                && next.git_problem_pending
            &&& v.local_state is Live && !right && v.git_problem_pending ==> next.local_state
                is Paused
            &&& v.local_state is Paused && right ==> next.local_state is Live && next.todo
                == seq![WorkView::Rescan] + v.todo
            &&& v.local_state is Paused && !right ==> next.local_state == v.local_state
            &&& v.local_state is Degraded ==> next.local_state == v.local_state
            &&& next.replica == v.replica
        }),
{
    reveal(git_guard);
    reveal(crate::client_rules::full_rescan);
}

/// A machine that holds a file back from its first moment does not enter the
/// session; any other goes on.
pub proof fn a_first_join_needs_every_file_within_the_limit(v: ClientView)
    ensures
        ({
            let next = verify_join(v);
            &&& v.replica.oversize.len() == 0 ==> next == v
            &&& v.replica.oversize.len() > 0 && v.may_exit ==> next.shutdown && next.outbox.last()
                is Exit
            &&& v.replica.oversize.len() > 0 && !v.may_exit ==> next.local_state is Degraded
            &&& next.replica == v.replica
        }),
{
    reveal(verify_join);
}

/// What newer work is rebased to: asked to be merged where contents clash, kept
/// as a draft of a conflict where it cannot be, and otherwise the next operation
/// on what is confirmed.
pub proof fn newer_work_is_rebased_onto_what_it_meets(
    v: ClientView,
    path: Seq<char>,
    base: Option<EntryView>,
    met: Option<EntryView>,
    pending: PendingView,
    merge: Option<MergeView>,
    fresh: Uuid,
)
    requires
        v.state(path).in_flight is None,
    ensures
        ({
            let next = rebase(v, path, base, met, pending, merge, fresh);
            let s = v.state(path);
            let t = next.state(path);
            match reconcile_rule(base, met, pending.desired, merge) {
                ReconciledView::NeedsMerge => next == v.first(
                    seq![WorkView::Merge { path, base, canonical: met, pending }],
                ),
                ReconciledView::Converged => {
                    &&& t.pending_local is None
                    &&& t.in_flight is None
                    &&& next.todo == seq![WorkView::Materialize { path }] + v.todo
                },
                ReconciledView::Accept { entry, .. } => {
                    &&& t.pending_local is None
                    &&& t.in_flight is Some
                    &&& t.in_flight->0.desired == entry
                    &&& t.in_flight->0.base_entry == s.confirmed
                    &&& t.in_flight->0.base_revision == s.confirmed_revision
                    &&& t.in_flight->0.operation_id == fresh
                    &&& !t.in_flight->0.sent
                    &&& next.todo == seq![
                        WorkView::Visit { path, why: Why::Rebase },
                        WorkView::Submit { path },
                    ] + v.todo
                },
                ReconciledView::Conflict(kind) => {
                    &&& t.pending_local is None
                    &&& t.conflict_draft is Some
                    &&& t.conflict_draft->0.conflict_id == fresh
                    &&& t.conflict_draft->0.entry == pending.desired
                },
            }
        }),
{
    reveal(rebase);
    reveal(crate::client_rules::install_merged);
    reveal(crate::client_rules::clash);
    let s = v.state(path);
    match reconcile_rule(base, met, pending.desired, merge) {
        ReconciledView::NeedsMerge => {},
        ReconciledView::Converged => {
            a_path_keeps_what_was_put(
                v.replica,
                path,
                StateView { pending_local: None, ..s },
                path,
            );
        },
        ReconciledView::Accept { entry, .. } => {
            a_path_keeps_what_was_put(v.replica, path, landed(s, entry, pending, fresh), path);
        },
        ReconciledView::Conflict(kind) => {
            let needs = crate::client_rules::conflict_needs(v, s, base, met, pending.desired);
            let m = ClientMessageView::ReportConflict {
                report: crate::proto::ReportedConflict {
                    id: fresh,
                    path,
                    kind,
                    base_entry: base,
                    canonical_entry: met,
                    incoming_entry: pending.desired,
                    latest_local_candidate: pending.desired,
                    incoming_task_id: pending.task_id,
                },
            };
            lemma_send_with(v, fresh, needs, m);
            let t = StateView {
                pending_local: None,
                conflict_draft: Some(
                    DraftView {
                        conflict_id: fresh,
                        entry: pending.desired,
                        local_seq: pending.local_seq,
                    },
                ),
                ..s
            };
            a_path_keeps_what_was_put(
                crate::client_rules::send_with(v, fresh, needs, m).replica,
                path,
                t,
                path,
            );
        },
    }
}

// ---------------------------------------------------------------------------
// Answers
// ---------------------------------------------------------------------------

/// An operation that was accepted, merged or converged is no longer under way;
/// what the host answered is agreed unless something newer is; newer work of the
/// path is rebased onto it, and otherwise the file is brought up to date.
pub proof fn an_answer_settles_its_operation(
    v: ClientView,
    operation_id: Uuid,
    outcome: OutcomeView,
    path: Seq<char>,
)
    requires
        flight_of(v.replica.states, operation_id) is Some,
        flight_of(v.replica.states, operation_id)->0.path == path,
        v.state(path).in_flight is Some,
        v.state(path).in_flight->0.operation_id == operation_id,
        outcome is Accepted || outcome is Merged || outcome is Converged,
    ensures
        ({
            let next = operation_result(v, operation_id, outcome);
            let s = v.state(path);
            let t = next.state(path);
            let (revision, entry) = match outcome {
                OutcomeView::Accepted { revision, canonical_entry } => (revision, canonical_entry),
                OutcomeView::Merged { revision, canonical_entry } => (revision, canonical_entry),
                OutcomeView::Converged { revision, canonical_entry } => (revision, canonical_entry),
                _ => (0u64, None),
            };
            &&& t.in_flight is None
            &&& revision >= s.confirmed_revision ==> t.confirmed == entry && t.confirmed_revision
                == revision
            &&& revision < s.confirmed_revision ==> t.confirmed == s.confirmed
                && t.confirmed_revision == s.confirmed_revision
            &&& t.pending_local == s.pending_local
            &&& t.conflict_draft == s.conflict_draft
            &&& t.materialized == s.materialized
            &&& s.pending_local is Some ==> next.todo == seq![
                WorkView::Rebase {
                    path,
                    base: s.in_flight->0.desired,
                    canonical: entry,
                    pending: s.pending_local->0,
                },
                WorkView::CheckBarrier,
            ] + v.todo
            &&& s.pending_local is None ==> next.todo == seq![
                WorkView::Materialize { path },
                WorkView::CheckBarrier,
            ] + v.todo
        }),
{
    reveal(operation_result);
    let s = v.state(path);
    let (revision, canonical) = canonical_of(outcome)->0;
    let newer = revision >= s.confirmed_revision;
    let after = StateView {
        confirmed: if newer {
            canonical
        } else {
            s.confirmed
        },
        confirmed_revision: if newer {
            revision
        } else {
            s.confirmed_revision
        },
        in_flight: None,
        ..s
    };
    a_path_keeps_what_was_put(v.replica, path, after, path);
}

/// A revision that was applied already changes nothing; any later one is kept and
/// taken up.
pub proof fn a_later_revision_is_taken_up(v: ClientView, r: RevisionView)
    ensures
        r.revision <= v.replica.last_applied_revision ==> enqueue_revision(v, r) == v,
        r.revision > v.replica.last_applied_revision ==> enqueue_revision(v, r).todo == seq![
            WorkView::Drain,
        ] + v.todo && enqueue_revision(v, r).pending_revisions == with_revision(
            v.pending_revisions,
            r,
        ) && enqueue_revision(v, r).replica == v.replica,
{
    reveal(enqueue_revision);
}

/// The content a manifest lacks here is exactly what it names and is not held.
pub proof fn lacking_content_is_named(
    held: Map<Seq<char>, u64>,
    list: Seq<RowView>,
    hash: Seq<char>,
)
    ensures
        absent_hashes(held, list).contains(hash) == (!held.contains_key(hash) && exists|i: int|
            0 <= i < list.len() && (#[trigger] list[i]).entry.blob_hash == hash),
    decreases list.len(),
{
    if list.len() > 0 {
        let front = list.drop_last();
        let last = list[list.len() - 1];
        lacking_content_is_named(held, front, hash);
        crate::text::lemma_push_contains(absent_hashes(held, front), last.entry.blob_hash, hash);
        if exists|i: int| 0 <= i < front.len() && (#[trigger] front[i]).entry.blob_hash == hash {
            let i = choose|i: int|
                0 <= i < front.len() && (#[trigger] front[i]).entry.blob_hash == hash;
            assert(list[i] == front[i]);
        }
        if exists|i: int| 0 <= i < list.len() && (#[trigger] list[i]).entry.blob_hash == hash {
            let i = choose|i: int|
                0 <= i < list.len() && (#[trigger] list[i]).entry.blob_hash == hash;
            if i < front.len() {
                assert(front[i] == list[i]);
            }
        }
    }
}

/// What the session agreed beside the files is what the replica knows; a new
/// limit is applied, and a closed conflict has the tree brought up to date.
pub proof fn what_was_agreed_is_known(v: ClientView, c: ControlView)
    ensures
        ({
            let next = apply_control(v, c);
            &&& next.control == Some(c)
            &&& next.replica.control == Some(c)
            &&& next.max_file_size == c.max_file_size
            &&& c.max_file_size != v.max_file_size ==> next.todo.contains(WorkView::LimitChanged)
            &&& c.max_file_size == v.max_file_size && v.control is None ==> next.todo == v.todo
            &&& v.control is Some && gone(
                open_ids(v.control->0.conflicts),
                open_ids(c.conflicts),
            ).len() > 0 ==> next.todo.contains(WorkView::SyncTree)
        }),
{
    reveal(apply_control);
    let next = apply_control(v, c);
    let before = match v.control {
        Some(known) => open_ids(known.conflicts),
        None => Seq::empty(),
    };
    let closed = gone(before, open_ids(c.conflicts));
    if closed.len() > 0 {
        assert(next.todo[0] == WorkView::SyncTree);
        if c.max_file_size != v.max_file_size {
            assert(next.todo[1] == WorkView::LimitChanged);
        }
    } else {
        if c.max_file_size != v.max_file_size {
            assert(next.todo[0] == WorkView::LimitChanged);
        } else {
            assert(next.todo =~= v.todo);
        }
    }
}

/// The sides of a conflict that are held go along with its report, and no other.
pub proof fn only_held_content_goes_along(v: ClientView, entry: Option<EntryView>)
    ensures
        entry is Some && v.holds(entry->0.blob_hash) ==> held_needs(v, entry) == seq![
            entry->0.blob_hash,
        ],
        !(entry is Some && v.holds(entry->0.blob_hash)) ==> held_needs(v, entry).len() == 0,
{
    reveal(held_needs);
}

/// A file found on disk at the start is taken as written where nothing is known
/// of the disk and no work of the path stands; anything else stays as it is.
pub proof fn a_found_file_is_taken_as_written(v: ClientView, f: FoundView, other: Seq<char>)
    ensures
        ({
            let next = seeded(v, seq![f]);
            let s = v.state(f.path);
            let free = s.materialized is None && s.in_flight is None && s.pending_local is None
                && s.conflict_draft is None;
            &&& free ==> next.state(f.path) == (StateView { materialized: Some(f.entry), ..s })
            &&& !free ==> next.state(f.path) == s
            &&& other != f.path ==> next.state(other) == v.state(other)
        }),
{
    reveal_with_fuel(seeded, 2);
    let s = v.state(f.path);
    assert(seq![f].drop_last() =~= Seq::<FoundView>::empty());
    assert(seq![f].last() == f);
    a_path_keeps_what_was_put(
        v.replica,
        f.path,
        StateView { materialized: Some(f.entry), ..s },
        f.path,
    );
    a_path_keeps_what_was_put(
        v.replica,
        f.path,
        StateView { materialized: Some(f.entry), ..s },
        other,
    );
}

} // verus!
