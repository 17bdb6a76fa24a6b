//! What the host and the replicas guarantee together: everybody ends up with
//! the host's state, and nobody's work is lost on the way.

use vstd::prelude::*;

use crate::client_laws::lemma_want_blobs;
use crate::client_rules::{
    absent_hashes, advance, apply_manifest, canonical_of, drain, due_at, operation_result,
    ClientView, ReplyView,
};
use crate::host_rules::{
    effective_task_of, enroll, hello_fault, hello_rule, host_room, install_rule, introduced,
    known_conns, needs_snapshot, send_publications, send_revisions, submit_rule, supersede,
    superseded, EffectView, HelloView, HostView,
};
use crate::model::{
    Conflict, ConflictStatus, ConflictView, EntryView, OperationView, OutcomeView, PublicationView,
    RevisionView, TaskView,
};
use crate::proto::{hash_of_rows, HostMessageView, RowView};
use crate::reconcile::{reconcile_rule, MergeView, ReconciledView};
use crate::steady::{an_answer_speaks_of_its_path, local_work_leaves_canonical_state_alone};
use crate::store_client::{
    a_path_keeps_what_was_put, adopted, flight_of, put_is_found, record_of, state_in, unconfirmed,
    PathRow, PathRowView, ReplicaView, StateView,
};
use crate::store_host::{
    by_path, found, in_order, later_than, lemma_replay_in_order, ordered_rows_are_in_place, replay,
    row_of, set_row_changes_one_path, span_of, stored, stored_is_found, StoreView,
};
use crate::text::text_le;
use crate::util::Uuid;

verus! {

// ---------------------------------------------------------------------------
// Convergence
// ---------------------------------------------------------------------------

/// The entry of a path as it was at a revision.
pub open spec fn entry_at(h: StoreView, revision: int, path: Seq<char>) -> Option<EntryView> {
    row_of(replay(h.base, h.log.take(revision)), path)
}

pub open spec fn later(a: u64, b: u64) -> u64 {
    if a >= b {
        a
    } else {
        b
    }
}

/// No revision after `from`, up to `upto`, is about a path.
pub open spec fn quiet(h: StoreView, from: u64, upto: u64, path: Seq<char>) -> bool {
    forall|k: int| from <= k < upto ==> (#[trigger] h.log[k]).path != path
}

/// What a replica holds canonical of a path is what the host had at the
/// revision up to which the replica knows the path, and nothing has happened to
/// the path since the revision it was confirmed at. A snapshot, the last of
/// which was at `since`, confirms at once all it does not list.
pub open spec fn knows(s: StateView, h: StoreView, since: u64, upto: u64, path: Seq<char>) -> bool {
    &&& s.confirmed_revision <= h.log.len()
    &&& s.confirmed == entry_at(h, later(s.confirmed_revision, upto) as int, path)
    &&& quiet(h, later(s.confirmed_revision, since), upto, path)
}

/// A replica whose last snapshot was at `since` is in step with the host up to
/// a revision.
pub open spec fn in_step(r: ReplicaView, h: StoreView, since: u64, upto: u64) -> bool {
    &&& since <= upto <= h.log.len()
    &&& forall|path: Seq<char>| knows(#[trigger] r.state(path), h, since, upto, path)
}

/// What was broadcast to a replica is what the host has on record.
pub open spec fn genuine(list: Seq<RevisionView>, h: StoreView) -> bool {
    forall|i: int|
        0 <= i < list.len() ==> 1 <= (#[trigger] list[i]).revision <= h.log.len() && list[i]
            == h.log[list[i].revision - 1]
}

proof fn lemma_one_revision(h: StoreView, r: int, path: Seq<char>)
    requires
        h.ok(),
        0 <= r < h.log.len(),
    ensures
        entry_at(h, r + 1, path) == if path == h.log[r].path {
            h.log[r].after
        } else {
            entry_at(h, r, path)
        },
{
    let before = h.log.take(r);
    assert(h.log.take(r + 1).drop_last() =~= before);
    assert(h.log.take(r + 1).last() == h.log[r]);
    lemma_replay_in_order(h.base, before);
    set_row_changes_one_path(replay(h.base, before), h.log[r].path, h.log[r].after, path);
}

/// What nothing happens to stays as it is.
proof fn lemma_quiet(h: StoreView, from: u64, upto: u64, path: Seq<char>)
    requires
        h.ok(),
        from <= upto <= h.log.len(),
        quiet(h, from, upto, path),
    ensures
        entry_at(h, from as int, path) == entry_at(h, upto as int, path),
    decreases upto - from,
{
    if from < upto {
        assert(h.log[from as int].path != path);
        lemma_one_revision(h, from as int, path);
        lemma_quiet(h, (from + 1) as u64, upto, path);
    }
}

proof fn lemma_due(list: Seq<RevisionView>, number: u64)
    ensures
        0 <= due_at(list, number) <= list.len(),
        due_at(list, number) < list.len() ==> list[due_at(list, number)].revision == number,
    decreases list.len(),
{
    if list.len() > 0 && list[0].revision != number {
        lemma_due(list.drop_first(), number);
    }
}

/// Applying the next revision keeps a replica in step: before and after it is
/// marked as applied, every path is what the host had.
pub proof fn a_revision_keeps_the_replica_in_step(v: ClientView, h: StoreView, since: u64)
    requires
        h.ok(),
        v.replica.last_applied_revision < u64::MAX,
        in_step(v.replica, h, since, v.replica.last_applied_revision),
        genuine(v.pending_revisions, h),
    ensures
        ({
            let last = v.replica.last_applied_revision;
            let next = drain(v).replica;
            &&& in_step(next, h, since, last)
            &&& due_at(v.pending_revisions, (last + 1) as u64) < v.pending_revisions.len()
                ==> in_step(next, h, since, (last + 1) as u64)
        }),
{
    reveal(drain);
    let last = v.replica.last_applied_revision;
    let at = due_at(v.pending_revisions, (last + 1) as u64);
    lemma_due(v.pending_revisions, (last + 1) as u64);
    if at < v.pending_revisions.len() {
        let r = v.pending_revisions[at];
        let s = v.state(r.path);
        let told = StateView { confirmed: r.after, confirmed_revision: r.revision, ..s };
        let next = drain(v).replica;
        assert(r.revision == last + 1);
        assert(r == h.log[last as int]);
        assert forall|path: Seq<char>|
            knows(#[trigger] next.state(path), h, since, last, path) && knows(
                next.state(path),
                h,
                since,
                (last + 1) as u64,
                path,
            ) by {
            lemma_one_revision(h, last as int, path);
            a_path_keeps_what_was_put(v.replica, r.path, told, path);
            assert(knows(v.replica.state(path), h, since, last, path));
        }
    }
}

proof fn lemma_unconfirmed(list: Seq<PathRowView>, revision: u64, path: Seq<char>)
    ensures
        state_in(unconfirmed(list, revision), path) == match record_of::<PathRow>(list, path) {
            Some(r) => StateView { confirmed: None, confirmed_revision: revision, ..r.state },
            None => StateView::untouched(),
        },
    decreases list.len(),
{
    if list.len() > 0 {
        let all = unconfirmed(list, revision);
        assert(all.drop_first() =~= unconfirmed(list.drop_first(), revision));
        lemma_unconfirmed(list.drop_first(), revision, path);
    }
}

/// The entry of a path is that of the last row with it.
proof fn lemma_row_of_last(rows: Seq<RowView>, path: Seq<char>)
    requires
        in_order(rows),
        rows.len() > 0,
    ensures
        in_order(rows.drop_last()),
        row_of(rows, path) == if rows.last().path == path {
            Some(rows.last().entry)
        } else {
            row_of(rows.drop_last(), path)
        },
    decreases rows.len(),
{
    assert forall|i: int, j: int| 0 <= i < j < rows.drop_last().len() implies text_le(
        (#[trigger] rows.drop_last()[i]).path,
        (#[trigger] rows.drop_last()[j]).path,
    ) && rows.drop_last()[i].path != rows.drop_last()[j].path by {
        assert(rows.drop_last()[i] == rows[i]);
        assert(rows.drop_last()[j] == rows[j]);
    }
    if rows.len() == 1 {
        assert(rows.drop_first() =~= Seq::<RowView>::empty());
        assert(rows.drop_last() =~= Seq::<RowView>::empty());
        reveal_with_fuel(row_of, 2);
    } else {
        let rest = rows.drop_first();
        assert forall|i: int, j: int| 0 <= i < j < rest.len() implies text_le(
            (#[trigger] rest[i]).path,
            (#[trigger] rest[j]).path,
        ) && rest[i].path != rest[j].path by {
            assert(rest[i] == rows[i + 1]);
            assert(rest[j] == rows[j + 1]);
        }
        lemma_row_of_last(rest, path);
        assert(rest.drop_last() =~= rows.drop_last().drop_first());
        assert(rows.drop_last()[0] == rows[0]);
        assert(rows[0].path != rows[rows.len() - 1].path);
    }
}

proof fn lemma_adopted(list: Seq<PathRowView>, revision: u64, rows: Seq<RowView>, path: Seq<char>)
    requires
        in_order(rows),
    ensures
        ({
            let s = state_in(adopted(unconfirmed(list, revision), revision, rows), path);
            &&& s.confirmed == row_of(rows, path)
            &&& s.confirmed_revision == revision || s.confirmed_revision == 0
        }),
    decreases rows.len(),
{
    if rows.len() == 0 {
        lemma_unconfirmed(list, revision, path);
    } else {
        lemma_row_of_last(rows, path);
        lemma_adopted(list, revision, rows.drop_last(), path);
        let before = adopted(unconfirmed(list, revision), revision, rows.drop_last());
        let row = rows.last();
        put_is_found::<PathRow>(
            before,
            PathRowView {
                path: row.path,
                state: StateView {
                    confirmed: Some(row.entry),
                    confirmed_revision: revision,
                    ..state_in(before, row.path)
                },
            },
            path,
        );
    }
}

/// A snapshot brings a replica into step, whatever it knew before.
pub proof fn a_snapshot_brings_the_replica_into_step(v: ClientView, h: StoreView, revision: u64)
    requires
        h.ok(),
        revision <= h.log.len(),
    ensures
        in_step(
            apply_manifest(v, revision, by_path(h.at(revision))).replica,
            h,
            revision,
            revision,
        ),
        apply_manifest(v, revision, by_path(h.at(revision))).replica.last_applied_revision
            == revision,
{
    reveal(apply_manifest);
    let rows = h.at(revision);
    assert(h.log.take(h.log.len() as int) =~= h.log);
    assert(rows == replay(h.base, h.log.take(revision as int)));
    lemma_replay_in_order(h.base, h.log.take(revision as int));
    ordered_rows_are_in_place(rows);
    let next = apply_manifest(v, revision, rows).replica;
    let known = v.with_replica(
        ReplicaView {
            states: adopted(unconfirmed(v.replica.states, revision), revision, rows),
            has_manifest: true,
            last_applied_revision: revision,
            ..v.replica
        },
    );
    lemma_want_blobs(
        ClientView {
            pending_revisions: v.pending_revisions.filter(
                |r: RevisionView| r.revision > revision,
            ),
            ..known
        },
        absent_hashes(v.traffic.store, rows),
    );
    assert(next.states == adopted(unconfirmed(v.replica.states, revision), revision, rows));
    assert forall|path: Seq<char>|
        knows(#[trigger] next.state(path), h, revision, revision, path) by {
        lemma_adopted(v.replica.states, revision, rows, path);
    }
}

/// Whatever a replica does on its own keeps it in step.
pub proof fn local_work_keeps_the_replica_in_step(
    v: ClientView,
    r: ReplyView,
    now_ms: i64,
    fresh: Uuid,
    second: Uuid,
    h: StoreView,
    since: u64,
)
    requires
        in_step(v.replica, h, since, v.replica.last_applied_revision),
        v.todo.len() > 0 ==> !(v.todo[0] is Drain) && !(v.todo[0] is Applied),
    ensures
        in_step(
            advance(v, r, now_ms, fresh, second).replica,
            h,
            since,
            advance(v, r, now_ms, fresh, second).replica.last_applied_revision,
        ),
{
    local_work_leaves_canonical_state_alone(v, r, now_ms, fresh, second);
    let next = advance(v, r, now_ms, fresh, second).replica;
    let last = v.replica.last_applied_revision;
    assert forall|path: Seq<char>| knows(#[trigger] next.state(path), h, since, last, path) by {
        assert(knows(v.replica.state(path), h, since, last, path));
    }
}

/// An answer keeps a replica in step, however late it comes and however often
/// it is repeated. It tells what its path was at some revision. That revision
/// may be older than the last snapshot only for a path the snapshot confirmed:
/// an operation made after a snapshot is answered later than it.
pub proof fn an_answer_keeps_the_replica_in_step(
    v: ClientView,
    operation_id: Uuid,
    outcome: OutcomeView,
    h: StoreView,
    since: u64,
)
    requires
        h.ok(),
        in_step(v.replica, h, since, v.replica.last_applied_revision),
        canonical_of(outcome) matches Some((revision, entry)) ==> flight_of(
            v.replica.states,
            operation_id,
        ) matches Some(row) ==> {
            &&& revision <= h.log.len()
            &&& entry == entry_at(h, revision as int, row.path)
            &&& since <= later(revision, v.state(row.path).confirmed_revision)
        },
    ensures
        in_step(
            operation_result(v, operation_id, outcome).replica,
            h,
            since,
            v.replica.last_applied_revision,
        ),
{
    let next = operation_result(v, operation_id, outcome).replica;
    let last = v.replica.last_applied_revision;
    assert forall|path: Seq<char>| knows(#[trigger] next.state(path), h, since, last, path) by {
        an_answer_speaks_of_its_path(v, operation_id, outcome, path);
        let s = v.replica.state(path);
        let t = next.state(path);
        assert(knows(s, h, since, last, path));
        if t.confirmed_revision != s.confirmed_revision || t.confirmed != s.confirmed {
            assert(quiet(h, later(t.confirmed_revision, since), last, path)) by {
                assert forall|k: int| later(t.confirmed_revision, since) <= k < last implies (
                #[trigger] h.log[k]).path != path by {
                    assert(later(s.confirmed_revision, since) <= k);
                }
            }
            if t.confirmed_revision < last {
                lemma_quiet(h, t.confirmed_revision, last, path);
            }
        }
    }
}

/// A replica that is in step and has applied everything holds canonical
/// exactly what the host does.
pub proof fn a_replica_in_step_converges(r: ReplicaView, h: StoreView, since: u64)
    requires
        h.ok(),
        in_step(r, h, since, h.revision()),
    ensures
        forall|path: Seq<char>| (#[trigger] r.state(path)).confirmed == h.entry(path),
{
    assert(h.log.take(h.log.len() as int) =~= h.log);
    assert forall|path: Seq<char>| (#[trigger] r.state(path)).confirmed == h.entry(path) by {
        assert(knows(r.state(path), h, since, h.revision(), path));
    }
}

// ---------------------------------------------------------------------------
// What everybody is told
// ---------------------------------------------------------------------------

/// `b` says everything `a` does, in the same order, and perhaps more.
pub open spec fn says_more(a: HostView, b: HostView) -> bool {
    &&& a.outbox.len() <= b.outbox.len()
    &&& forall|i: int| 0 <= i < a.outbox.len() ==> #[trigger] b.outbox[i] == a.outbox[i]
}

proof fn lemma_send_revisions(h: HostView, conn_id: u64, list: Seq<RevisionView>)
    ensures
        says_more(h, send_revisions(h, conn_id, list)),
        forall|i: int|
            0 <= i < list.len() ==> #[trigger] send_revisions(h, conn_id, list).outbox.contains(
                told(conn_id, list[i]),
            ),
    decreases list.len(),
{
    if list.len() > 0 {
        let before = send_revisions(h, conn_id, list.drop_last());
        let after = send_revisions(h, conn_id, list);
        lemma_send_revisions(h, conn_id, list.drop_last());
        assert forall|i: int| 0 <= i < list.len() implies #[trigger] after.outbox.contains(
            told(conn_id, list[i]),
        ) by {
            if i == list.len() - 1 {
                assert(after.outbox[before.outbox.len() as int] == told(conn_id, list[i]));
            } else {
                assert(list.drop_last()[i] == list[i]);
                assert(before.outbox.contains(told(conn_id, list.drop_last()[i])));
                let k = choose|k: int|
                    0 <= k < before.outbox.len() && before.outbox[k] == told(conn_id, list[i]);
                assert(after.outbox[k] == before.outbox[k]);
            }
        }
    }
}

proof fn lemma_send_publications(h: HostView, conn_id: u64, list: Seq<PublicationView>)
    ensures
        says_more(h, send_publications(h, conn_id, list)),
    decreases list.len(),
{
    if list.len() > 0 {
        lemma_send_publications(h, conn_id, list.drop_last());
    }
}

proof fn lemma_span_has(log: Seq<RevisionView>, after: u64, upto: u64, k: int)
    requires
        0 <= k < log.len(),
        after < log[k].revision <= upto,
    ensures
        span_of(log, after, upto).contains(log[k]),
    decreases log.len(),
{
    reveal(Seq::filter);
    let rest = log.drop_last();
    let whole = span_of(log, after, upto);
    let part = span_of(rest, after, upto);
    if k == log.len() - 1 {
        assert(whole == part.push(log[k]));
        assert(whole[part.len() as int] == log[k]);
    } else {
        assert(rest[k] == log[k]);
        lemma_span_has(rest, after, upto, k);
        let i = choose|i: int| 0 <= i < part.len() && part[i] == log[k];
        assert(whole[i] == log[k]);
    }
}

/// One revision, told to one connection.
pub open spec fn told(conn_id: u64, revision: RevisionView) -> EffectView {
    EffectView::Send {
        to: seq![conn_id],
        message: HostMessageView::RevisionBroadcast { revision },
    }
}

/// A client that is let in gets everything it lacks: the whole manifest, or
/// every revision it has not applied.
pub proof fn a_welcome_closes_the_gap(h: HostView, conn_id: u64, x: HelloView, now_ms: i64)
    requires
        h.store.ok(),
        hello_fault(h, x) is None,
    ensures
        ({
            let next = hello_rule(h, conn_id, x, now_ms);
            let from = x.resume.last_applied_revision;
            ||| exists|i: int|
                0 <= i < next.outbox.len() && (#[trigger] next.outbox[i] matches EffectView::Send {
                    to,
                    message: HostMessageView::Welcome { manifest, snapshot_revision, .. },
                } && to == seq![conn_id] && manifest == Some(h.store.rows) && snapshot_revision
                    == h.store.revision())
            ||| forall|k: int|
                from <= k < h.store.log.len() ==> next.outbox.contains(
                    told(conn_id, #[trigger] h.store.log[k]),
                )
        }),
{
    let e = enroll(h, conn_id, x, now_ms);
    lemma_enroll_keeps_history(h, conn_id, x, now_ms);
    let r = x.resume;
    let next = hello_rule(h, conn_id, x, now_ms);
    let current = e.store.revision();
    let snapshot = needs_snapshot(e, r);
    let pending = later_than(e.store.publications, r.last_publication_sequence);
    let greeted = e.send(
        conn_id,
        HostMessageView::Welcome {
            session: e.session,
            snapshot_revision: current,
            manifest: if snapshot {
                Some(e.store.rows)
            } else {
                None
            },
            control: e.control(),
            pending_publications: pending,
            host_state_hash: hash_of_rows(e.store.rows),
        },
    );
    let list = span_of(e.store.log, r.last_applied_revision, current);
    let replayed = if !snapshot && r.last_applied_revision < current {
        send_revisions(greeted, conn_id, list)
    } else {
        greeted
    };
    lemma_send_revisions(greeted, conn_id, list);
    lemma_send_publications(replayed, conn_id, pending);
    assert(says_more(replayed, next));
    if snapshot {
        let at = e.outbox.len() as int;
        assert(next.outbox[at] == greeted.outbox[at]);
    } else {
        assert forall|k: int| r.last_applied_revision <= k < h.store.log.len() implies next.outbox.contains(
            told(conn_id, #[trigger] h.store.log[k]),
        ) by {
            let rev = h.store.log[k];
            lemma_span_has(e.store.log, r.last_applied_revision, current, k);
            let i = choose|i: int| 0 <= i < list.len() && list[i] == rev;
            assert(replayed.outbox.contains(told(conn_id, list[i])));
            let j = choose|j: int|
                0 <= j < replayed.outbox.len() && replayed.outbox[j] == told(conn_id, rev);
            assert(next.outbox[j] == told(conn_id, rev));
        }
    }
}

proof fn lemma_supersede_keeps_history(h: HostView, ids: Seq<u64>)
    ensures
        supersede(h, ids).store == h.store,
    decreases ids.len(),
{
    if ids.len() > 0 {
        lemma_supersede_keeps_history(h, ids.drop_last());
    }
}

proof fn lemma_enroll_keeps_history(h: HostView, conn_id: u64, x: HelloView, now_ms: i64)
    ensures
        enroll(h, conn_id, x, now_ms).store.log == h.store.log,
        enroll(h, conn_id, x, now_ms).store.rows == h.store.rows,
{
    let met = introduced(h, x, now_ms);
    lemma_supersede_keeps_history(met, superseded(h.conns, conn_id, x.actor_id));
}

/// Every revision an operation makes is announced to everybody who said hello.
pub proof fn an_accepted_revision_is_announced(
    h: HostView,
    conn_id: u64,
    actor_id: Uuid,
    op: OperationView,
    merge: Option<MergeView>,
    now_ms: i64,
    fresh: Uuid,
)
    requires
        submit_rule(h, conn_id, actor_id, op, merge, now_ms, fresh).0.store.log != h.store.log,
    ensures
        ({
            let next = submit_rule(h, conn_id, actor_id, op, merge, now_ms, fresh).0;
            &&& next.store.log.len() == h.store.log.len() + 1
            &&& next.outbox.len() > 0
            &&& next.outbox.last() == (EffectView::Send {
                to: known_conns(h.conns),
                message: HostMessageView::RevisionBroadcast { revision: next.store.log.last() },
            })
        }),
{
}

/// The first answer to an operation tells what is canonical now: the newest
/// revision, and what its path is at it.
pub proof fn a_first_answer_is_genuine(
    h: HostView,
    conn_id: u64,
    actor_id: Uuid,
    op: OperationView,
    merge: Option<MergeView>,
    now_ms: i64,
    fresh: Uuid,
)
    requires
        h.store.ok(),
        host_room(h),
        submit_rule(h, conn_id, actor_id, op, merge, now_ms, fresh).0.store.operations
            != h.store.operations,
    ensures
        ({
            let next = submit_rule(h, conn_id, actor_id, op, merge, now_ms, fresh).0.store;
            let record = next.operations.last();
            &&& next.operations.len() == h.store.operations.len() + 1
            &&& record.operation_id == op.operation_id
            &&& canonical_of(record.outcome) matches Some((revision, entry)) ==> revision
                == next.revision() && revision >= h.store.revision() && entry == next.entry(op.path)
        }),
{
    let ready = match op.desired_entry {
        Some(e) => install_rule(h, e, op.content).0,
        None => h,
    };
    assert(ready.store == h.store);
    lemma_replay_in_order(h.store.base, h.store.log);
    match reconcile_rule(op.base_entry, h.store.entry(op.path), op.desired_entry, merge) {
        ReconciledView::Accept { entry, .. } => {
            set_row_changes_one_path(h.store.rows, op.path, entry, op.path);
        },
        _ => {},
    }
}

/// What was true of a path at a revision stays true of it, however the log
/// grows: an answer that is repeated is as genuine as it was.
pub proof fn an_answer_stays_genuine(a: StoreView, b: StoreView, revision: u64, path: Seq<char>)
    requires
        a.base == b.base,
        revision <= a.log.len() <= b.log.len(),
        b.log.take(a.log.len() as int) == a.log,
    ensures
        entry_at(a, revision as int, path) == entry_at(b, revision as int, path),
{
    assert(a.log.take(revision as int) =~= b.log.take(revision as int)) by {
        assert forall|k: int| 0 <= k < revision implies a.log[k] == b.log[k] by {
            assert(b.log.take(a.log.len() as int)[k] == b.log[k]);
        }
    }
}

/// Edits that cannot be reconciled become a conflict that holds everything
/// that was at stake: the common base, what is canonical, and what was wanted.
/// Canonical state stays as it is.
pub proof fn a_conflict_preserves_every_candidate(
    h: HostView,
    conn_id: u64,
    actor_id: Uuid,
    op: OperationView,
    merge: Option<MergeView>,
    now_ms: i64,
    fresh: Uuid,
)
    requires
        submit_rule(h, conn_id, actor_id, op, merge, now_ms, fresh).0.store.conflicts
            != h.store.conflicts,
    ensures
        ({
            let next = submit_rule(h, conn_id, actor_id, op, merge, now_ms, fresh).0;
            let c = found::<Conflict>(next.store.conflicts, fresh);
            &&& next.store.rows == h.store.rows
            &&& next.store.log == h.store.log
            &&& c is Some
            &&& c->0.status == ConflictStatus::Open
            &&& c->0.path == op.path
            &&& c->0.base_entry == op.base_entry
            &&& c->0.canonical_entry == h.store.entry(op.path)
            &&& c->0.incoming_entry == op.desired_entry
            &&& c->0.incoming_actor_id == actor_id
            &&& forall|id: Uuid|
                id != fresh ==> #[trigger] found::<Conflict>(next.store.conflicts, id) == found::<
                    Conflict,
                >(h.store.conflicts, id)
        }),
{
    let ready = match op.desired_entry {
        Some(e) => install_rule(h, e, op.content).0,
        None => h,
    };
    assert(ready.store == h.store);
    let next = submit_rule(h, conn_id, actor_id, op, merge, now_ms, fresh).0;
    let kind = reconcile_rule(
        op.base_entry,
        h.store.entry(op.path),
        op.desired_entry,
        merge,
    )->Conflict_0;
    let c = ConflictView {
        id: fresh,
        path: op.path,
        kind,
        base_entry: op.base_entry,
        canonical_entry: h.store.entry(op.path),
        incoming_entry: op.desired_entry,
        latest_local_candidate: None,
        incoming_actor_id: actor_id,
        incoming_task_id: effective_task_of(ready, actor_id, op.task_id),
        canonical_revision: h.store.revision(),
        created_at_ms: now_ms,
        status: ConflictStatus::Open,
        resolved_revision: None,
    };
    assert(next.store.conflicts == stored::<Conflict>(h.store.conflicts, c));
    stored_is_found::<Conflict>(h.store.conflicts, c, fresh);
    assert forall|id: Uuid| id != fresh implies #[trigger] found::<Conflict>(
        next.store.conflicts,
        id,
    ) == found::<Conflict>(h.store.conflicts, id) by {
        stored_is_found::<Conflict>(h.store.conflicts, c, id);
    }
}

// ---------------------------------------------------------------------------
// Tasks are advice
// ---------------------------------------------------------------------------

/// Whatever tasks there are, and whoever declared them, an operation comes to
/// the same files: a task never keeps anybody from editing.
pub proof fn tasks_never_block_an_edit(
    h: HostView,
    tasks: Seq<TaskView>,
    conn_id: u64,
    actor_id: Uuid,
    op: OperationView,
    merge: Option<MergeView>,
    now_ms: i64,
    fresh: Uuid,
)
    ensures
        ({
            let other = h.with_store(StoreView { tasks, ..h.store });
            let a = submit_rule(h, conn_id, actor_id, op, merge, now_ms, fresh);
            let b = submit_rule(other, conn_id, actor_id, op, merge, now_ms, fresh);
            &&& a.0.store.rows == b.0.store.rows
            &&& a.1 == b.1
        }),
{
}

} // verus!
