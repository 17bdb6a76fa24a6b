//! What the coordinator guarantees, whatever arrives.

use vstd::prelude::*;

use crate::error::ErrorClass;
use crate::host_step::{authenticated_rule, message_rule, FreshIds};
use crate::host_rules::{
    apply_rule, conn_of, dismiss_rule, enroll, git_state_rule, hello_fault, host_git_problem,
    host_ok, host_room, install_rule, introduced, resolution_fault, resolve_rule, seen, submit_rule,
    supersede, superseded, with_conn, withheld, ConnView, EffectView, GitFacts, HelloView, HostView,
    ResolutionView,
};
use crate::model::{
    same_state, CommitPreparation, Conflict, ConflictStatus, ContributorView, GitPublication,
    OperationView, OutcomeView, PreparationView, PrepareStatus, PublicationStage, PublicationView,
    RevisionView,
};
use crate::proto::{ClientMessage, HostMessageView};
use crate::publish_rules::{
    completed_rule, finish_rule, preparation_of, record_rule, ref_updated_rule, trailer_of,
    trailers_of,
};
use crate::reconcile::MergeView;
use crate::store_host::{
    filed_is_found, filing_keeps_the_order, found, lemma_index_of, lemma_index_of_is,
    lemma_replay_in_order, set_row, set_row_changes_one_path, stored_is_found, OperationRecord,
    RecordView, StoreView,
};
use crate::util::Uuid;

verus! {

// ---------------------------------------------------------------------------
// Operations
// ---------------------------------------------------------------------------

/// An operation that is on record with the same payload is answered as it was
/// the first time, and nothing else happens.
pub proof fn a_repeated_operation_gets_the_same_answer(
    h: HostView,
    conn_id: u64,
    actor_id: Uuid,
    op: OperationView,
    merge: Option<MergeView>,
    now_ms: i64,
    fresh: Uuid,
    record: RecordView,
)
    requires
        h.state is Live,
        !withheld(h, conn_id, op.local_seq),
        found::<OperationRecord>(h.store.operations, op.operation_id) == Some(record),
        record.payload_hash == op.payload_digest(),
    ensures
        submit_rule(h, conn_id, actor_id, op, merge, now_ms, fresh) == (
            h.reply(conn_id, op.operation_id, record.outcome),
            true,
        ),
{
    let bound = OperationView { actor_id, ..op };
    crate::model::payload_ignores_actor_and_content(bound, op);
}

/// An identifier that comes back with another payload is refused, and nothing
/// else happens.
pub proof fn a_reused_identifier_is_refused(
    h: HostView,
    conn_id: u64,
    actor_id: Uuid,
    op: OperationView,
    merge: Option<MergeView>,
    now_ms: i64,
    fresh: Uuid,
    record: RecordView,
)
    requires
        h.state is Live,
        !withheld(h, conn_id, op.local_seq),
        found::<OperationRecord>(h.store.operations, op.operation_id) == Some(record),
        record.payload_hash != op.payload_digest(),
    ensures
        submit_rule(h, conn_id, actor_id, op, merge, now_ms, fresh) == (
            h.reply(
                conn_id,
                op.operation_id,
                OutcomeView::Rejected {
                    class: ErrorClass::ProtocolError,
                    message: "Operation identifier reused with a different payload."@,
                },
            ),
            true,
        ),
{
    let bound = OperationView { actor_id, ..op };
    crate::model::payload_ignores_actor_and_content(bound, op);
}

proof fn lemma_recorded(list: Seq<RecordView>, r: RecordView)
    requires
        found::<OperationRecord>(list, r.operation_id) is None,
    ensures
        found::<OperationRecord>(list.push(r), r.operation_id) == Some(r),
{
    lemma_index_of::<OperationRecord>(list, r.operation_id);
    lemma_index_of_is::<OperationRecord>(list.push(r), r.operation_id, list.len() as int);
}

/// The answer to an operation, as it leaves the host.
pub open spec fn answer(conn_id: u64, operation_id: Uuid, outcome: OutcomeView) -> EffectView {
    EffectView::Send {
        to: seq![conn_id],
        message: HostMessageView::OperationResult { operation_id, outcome },
    }
}

/// An operation that a live host settles is on record with the very outcome
/// that was answered, so that a retransmission gets the same answer. The
/// exception is a failure that leaves the host degraded.
pub proof fn a_settled_operation_is_on_record(
    h: HostView,
    conn_id: u64,
    actor_id: Uuid,
    op: OperationView,
    merge: Option<MergeView>,
    now_ms: i64,
    fresh: Uuid,
)
    requires
        h.state is Live,
        !withheld(h, conn_id, op.local_seq),
        found::<OperationRecord>(h.store.operations, op.operation_id) is None,
    ensures
        ({
            let (g, settled) = submit_rule(h, conn_id, actor_id, op, merge, now_ms, fresh);
            settled && g.state is Live ==> {
                let record = found::<OperationRecord>(g.store.operations, op.operation_id);
                &&& record is Some
                &&& record->0.payload_hash == op.payload_digest()
                &&& record->0.actor_id == actor_id
                &&& g.outbox.contains(answer(conn_id, op.operation_id, record->0.outcome))
            }
        }),
{
    let bound = OperationView { actor_id, ..op };
    crate::model::payload_ignores_actor_and_content(bound, op);
    let (g, settled) = submit_rule(h, conn_id, actor_id, op, merge, now_ms, fresh);
    if settled && g.state is Live {
        let (next, applied) = apply_rule(h, conn_id, actor_id, bound, merge, now_ms, fresh);
        let ready = match op.desired_entry {
            Some(e) => install_rule(h, e, op.content).0,
            None => h,
        };
        assert(ready.store == h.store);
        let n = h.store.operations.len() as int;
        let outcome = g.store.operations[n].outcome;
        let record = RecordView {
            operation_id: op.operation_id,
            actor_id,
            payload_hash: op.payload_digest(),
            outcome,
        };
        assert(g.store.operations =~= h.store.operations.push(record));
        lemma_recorded(h.store.operations, record);
        let sent = answer(conn_id, op.operation_id, outcome);
        let last = g.outbox.len() - 1;
        assert(g.outbox[last] == sent || g.outbox[last - 1] == sent);
    }
}

/// Who sent an operation is decided by the connection, never by the payload.
pub proof fn the_payload_names_no_actor(
    h: HostView,
    conn_id: u64,
    actor_id: Uuid,
    op: OperationView,
    claimed: Uuid,
    merge: Option<MergeView>,
    now_ms: i64,
    fresh: Uuid,
)
    ensures
        submit_rule(
            h,
            conn_id,
            actor_id,
            OperationView { actor_id: claimed, ..op },
            merge,
            now_ms,
            fresh,
        ) == submit_rule(h, conn_id, actor_id, op, merge, now_ms, fresh),
{
}

/// With the outcome of a merge at hand no operation is left open.
pub proof fn a_merge_settles_the_operation(
    h: HostView,
    conn_id: u64,
    actor_id: Uuid,
    op: OperationView,
    merge: MergeView,
    now_ms: i64,
    fresh: Uuid,
)
    ensures
        submit_rule(h, conn_id, actor_id, op, Some(merge), now_ms, fresh).1,
{
}

/// A host that is not live changes nothing of canonical state.
pub proof fn a_host_that_is_not_live_keeps_its_state(
    h: HostView,
    conn_id: u64,
    actor_id: Uuid,
    op: OperationView,
    merge: Option<MergeView>,
    now_ms: i64,
    fresh: Uuid,
)
    requires
        !(h.state is Live),
    ensures
        submit_rule(h, conn_id, actor_id, op, merge, now_ms, fresh).0.store == h.store,
        submit_rule(h, conn_id, actor_id, op, merge, now_ms, fresh).0.blobs == h.blobs,
{
}

/// Whether `after` follows from `before` by at most one revision, made by this
/// actor on this path.
pub open spec fn one_step(before: StoreView, after: StoreView, actor_id: Uuid, path: Seq<char>) -> bool {
    ||| after.log == before.log && after.rows == before.rows
    ||| exists|r: RevisionView| #[trigger] made_of(before, after, r) && r.actor_id == actor_id
        && r.path == path
}

/// Whether `after` is `before` with one more revision.
pub open spec fn made_of(before: StoreView, after: StoreView, r: RevisionView) -> bool {
    &&& r.revision == before.revision() + 1
    &&& r.before == before.entry(r.path)
    &&& after.log == before.log.push(r)
    &&& after.rows == set_row(before.rows, r.path, r.after)
}

/// One operation makes at most one revision: the next number, on the path of
/// the operation, in the name of the connection's actor. Withheld, refused,
/// converged and conflicting operations make none.
pub proof fn an_operation_makes_one_revision_at_most(
    h: HostView,
    conn_id: u64,
    actor_id: Uuid,
    op: OperationView,
    merge: Option<MergeView>,
    now_ms: i64,
    fresh: Uuid,
)
    requires
        h.store.ok(),
        host_room(h),
    ensures
        one_step(
            h.store,
            submit_rule(h, conn_id, actor_id, op, merge, now_ms, fresh).0.store,
            actor_id,
            op.path,
        ),
{
    let bound = OperationView { actor_id, ..op };
    let g = submit_rule(h, conn_id, actor_id, op, merge, now_ms, fresh).0;
    let ready = match op.desired_entry {
        Some(e) => install_rule(h, e, op.content).0,
        None => h,
    };
    assert(ready.store == h.store);
    if g.store.log != h.store.log || g.store.rows != h.store.rows {
        let r = g.store.log.last();
        assert(made_of(h.store, g.store, r));
    }
}

/// Every file an operation does not name is left alone.
pub proof fn other_paths_are_left_alone(
    h: HostView,
    conn_id: u64,
    actor_id: Uuid,
    op: OperationView,
    merge: Option<MergeView>,
    now_ms: i64,
    fresh: Uuid,
    other: Seq<char>,
)
    requires
        h.store.ok(),
        host_room(h),
        other != op.path,
    ensures
        submit_rule(h, conn_id, actor_id, op, merge, now_ms, fresh).0.store.entry(other)
            == h.store.entry(other),
{
    an_operation_makes_one_revision_at_most(h, conn_id, actor_id, op, merge, now_ms, fresh);
    let g = submit_rule(h, conn_id, actor_id, op, merge, now_ms, fresh).0;
    if g.store.rows != h.store.rows {
        let r = choose|r: RevisionView| #[trigger]
            made_of(h.store, g.store, r) && r.actor_id == actor_id && r.path == op.path;
        lemma_replay_in_order(h.store.base, h.store.log);
        set_row_changes_one_path(h.store.rows, r.path, r.after, other);
    }
}

// ---------------------------------------------------------------------------
// Conflicts
// ---------------------------------------------------------------------------

/// A refused resolution changes nothing but the answer.
pub proof fn a_refused_resolution_changes_nothing(
    h: HostView,
    conn_id: u64,
    actor_id: Uuid,
    r: ResolutionView,
    now_ms: i64,
)
    requires
        resolution_fault(h, r) is Some,
    ensures
        resolve_rule(h, conn_id, actor_id, r, now_ms) == h.send_error(
            conn_id,
            Some(r.request_id),
            resolution_fault(h, r)->0,
        ),
{
}

/// A resolution is atomic: the conflict is settled and the file is what the
/// resolution says, both or neither.
pub proof fn a_resolution_settles_its_conflict(
    h: HostView,
    conn_id: u64,
    actor_id: Uuid,
    r: ResolutionView,
    now_ms: i64,
)
    requires
        h.store.ok(),
        host_room(h),
        resolution_fault(h, r) is None,
    ensures
        ({
            let c = found::<Conflict>(h.store.conflicts, r.conflict_id)->0;
            let g = resolve_rule(h, conn_id, actor_id, r, now_ms);
            let after = found::<Conflict>(g.store.conflicts, r.conflict_id);
            &&& after is Some
            &&& after->0.status == ConflictStatus::Resolved
            &&& after->0.resolved_revision == Some(g.store.revision())
            &&& same_state(g.store.entry(c.path), r.resolved_entry)
            &&& one_step(h.store, g.store, actor_id, c.path)
        }),
{
    let c = found::<Conflict>(h.store.conflicts, r.conflict_id)->0;
    let g = resolve_rule(h, conn_id, actor_id, r, now_ms);
    lemma_index_of::<Conflict>(h.store.conflicts, r.conflict_id);
    let done = crate::model::ConflictView {
        status: ConflictStatus::Resolved,
        resolved_revision: Some(g.store.revision()),
        ..c
    };
    stored_is_found::<Conflict>(h.store.conflicts, done, r.conflict_id);
    crate::model::same_state_is_an_equivalence(
        r.resolved_entry,
        h.store.entry(c.path),
        r.resolved_entry,
    );
    if !same_state(r.resolved_entry, h.store.entry(c.path)) {
        let rev = g.store.log.last();
        lemma_replay_in_order(h.store.base, h.store.log);
        set_row_changes_one_path(h.store.rows, c.path, r.resolved_entry, c.path);
        assert(made_of(h.store, g.store, rev));
    }
}

/// Dismissing a conflict changes no file.
pub proof fn a_dismissal_changes_no_file(
    h: HostView,
    conn_id: u64,
    request_id: Uuid,
    conflict_id: Uuid,
)
    ensures
        dismiss_rule(h, conn_id, request_id, conflict_id).store.rows == h.store.rows,
        dismiss_rule(h, conn_id, request_id, conflict_id).store.log == h.store.log,
{
}

// ---------------------------------------------------------------------------
// Connections
// ---------------------------------------------------------------------------

/// Nobody changes canonical state before it has introduced itself.
pub proof fn nobody_is_heard_before_hello(
    h: HostView,
    conn_id: u64,
    m: ClientMessage,
    now_ms: i64,
    ids: FreshIds,
)
    requires
        seen(h, conn_id, now_ms).actor_of(conn_id) is None,
        !(m is Hello),
    ensures
        message_rule(h, conn_id, m, now_ms, ids).0.store == h.store,
        message_rule(h, conn_id, m, now_ms, ids).0.blobs == h.blobs,
        message_rule(h, conn_id, m, now_ms, ids).0.barrier == h.barrier,
        message_rule(h, conn_id, m, now_ms, ids).1 is Done,
{
}

/// A refused introduction leaves no trace but the answer.
pub proof fn a_refused_hello_leaves_no_trace(h: HostView, conn_id: u64, x: HelloView, now_ms: i64)
    requires
        hello_fault(h, x) is Some,
    ensures
        crate::host_rules::hello_rule(h, conn_id, x, now_ms) == h.send_error(
            conn_id,
            None,
            hello_fault(h, x)->0,
        ),
{
}

/// An actor has one connection: the newest one supersedes the others.
pub proof fn an_actor_has_one_connection(h: HostView, conn_id: u64, x: HelloView, now_ms: i64)
    ensures
        forall|i: int|
            0 <= i < enroll(h, conn_id, x, now_ms).conns.len() && (#[trigger] enroll(
                h,
                conn_id,
                x,
                now_ms,
            ).conns[i]).actor_id == Some(x.actor_id) ==> enroll(h, conn_id, x, now_ms).conns[i].id
                == conn_id,
{
    let ids = superseded(h.conns, conn_id, x.actor_id);
    let met = introduced(h, x, now_ms);
    let alone = supersede(met, ids);
    assert forall|i: int|
        0 <= i < alone.conns.len() && (#[trigger] alone.conns[i]).actor_id == Some(
            x.actor_id,
        ) implies alone.conns[i].id == conn_id by {
        let c = alone.conns[i];
        assert(alone.conns.contains(c));
        lemma_supersede_members(met, ids, c);
        if c.id != conn_id {
            lemma_superseded_lists(h.conns, conn_id, x.actor_id, c);
        }
    }
    let c0 = conn_of(alone.conns, conn_id);
    if c0 is Some {
        let c = ConnView {
            actor_id: Some(x.actor_id),
            display_name: x.display_name,
            last_applied_revision: x.resume.last_applied_revision,
            ..c0->0
        };
        lemma_found_id(alone.conns, conn_id);
        lemma_with_conn_members(alone.conns, conn_id, c);
    }
}

proof fn lemma_found_id(list: Seq<ConnView>, id: u64)
    ensures
        conn_of(list, id) matches Some(c) ==> c.id == id,
    decreases list.len(),
{
    if list.len() > 0 {
        lemma_found_id(list.drop_first(), id);
    }
}

proof fn lemma_with_conn_members(list: Seq<ConnView>, id: u64, c: ConnView)
    ensures
        with_conn(list, id, c).len() == list.len(),
        forall|i: int|
            0 <= i < list.len() ==> (#[trigger] with_conn(list, id, c)[i]) == c || with_conn(
                list,
                id,
                c,
            )[i] == list[i],
    decreases list.len(),
{
    if list.len() > 0 && list[0].id != id {
        lemma_with_conn_members(list.drop_first(), id, c);
    }
}

proof fn lemma_supersede_frame(met: HostView, ids: Seq<u64>)
    ensures
        supersede(met, ids).store == met.store,
        supersede(met, ids).names == met.names,
    decreases ids.len(),
{
    if ids.len() > 0 {
        lemma_supersede_frame(met, ids.drop_last());
    }
}

proof fn lemma_supersede_members(h: HostView, ids: Seq<u64>, c: ConnView)
    requires
        supersede(h, ids).conns.contains(c),
    ensures
        h.conns.contains(c),
        !ids.contains(c.id),
    decreases ids.len(),
{
    if ids.len() > 0 {
        let g = supersede(h, ids.drop_last());
        let keep = |x: ConnView| x.id != ids.last();
        lemma_kept(g.conns, keep, c);
        lemma_supersede_members(h, ids.drop_last(), c);
        assert(ids =~= ids.drop_last().push(ids.last()));
        if ids.contains(c.id) {
            let k = choose|k: int| 0 <= k < ids.len() && ids[k] == c.id;
            if k < ids.len() - 1 {
                assert(ids.drop_last()[k] == c.id);
            }
        }
    }
}

proof fn lemma_kept(list: Seq<ConnView>, keep: spec_fn(ConnView) -> bool, c: ConnView)
    requires
        list.filter(keep).contains(c),
    ensures
        list.contains(c),
        keep(c),
    decreases list.len(),
{
    reveal(Seq::filter);
    if list.len() > 0 {
        let rest = list.drop_last();
        let kept = rest.filter(keep);
        if keep(list.last()) && c == list.last() {
            assert(list[list.len() - 1] == c);
        } else {
            let k = choose|k: int| 0 <= k < list.filter(keep).len() && list.filter(keep)[k] == c;
            assert(kept[k] == c);
            lemma_kept(rest, keep, c);
            let j = choose|j: int| 0 <= j < rest.len() && rest[j] == c;
            assert(list[j] == c);
        }
    }
}

proof fn lemma_superseded_lists(list: Seq<ConnView>, conn_id: u64, actor_id: Uuid, c: ConnView)
    requires
        list.contains(c),
        c.id != conn_id,
        c.actor_id == Some(actor_id),
    ensures
        superseded(list, conn_id, actor_id).contains(c.id),
    decreases list.len(),
{
    let k = choose|k: int| 0 <= k < list.len() && list[k] == c;
    let before = superseded(list.drop_last(), conn_id, actor_id);
    if k == list.len() - 1 {
        assert(before.push(c.id)[before.len() as int] == c.id);
    } else {
        assert(list.drop_last()[k] == c);
        lemma_superseded_lists(list.drop_last(), conn_id, actor_id, c);
        let j = choose|j: int| 0 <= j < before.len() && before[j] == c.id;
        assert(superseded(list, conn_id, actor_id)[j] == c.id);
    }
}

// ---------------------------------------------------------------------------
// The Git guard
// ---------------------------------------------------------------------------

/// The guard pauses and resumes; a degraded host stays degraded, whatever Git
/// looks like.
pub proof fn the_guard_never_lifts_degradation(h: HostView, g: GitFacts)
    requires
        h.state is Degraded,
    ensures
        git_state_rule(h, g) == h,
{
}

/// After a look at Git a host that is not degraded is live exactly when Git is
/// as expected.
pub proof fn the_guard_follows_git(h: HostView, g: GitFacts)
    requires
        !(h.state is Degraded),
    ensures
        (git_state_rule(h, g).state is Live) == (host_git_problem(h, g) is None),
        git_state_rule(h, g).store == h.store,
{
}

// ---------------------------------------------------------------------------
// Publication
// ---------------------------------------------------------------------------

/// No withheld operation is lost: a barrier that ends lets all of them go, in
/// the order they came.
pub proof fn withheld_work_is_released(
    h: HostView,
    b: crate::host_rules::BarrierView,
    now_ms: i64,
    fresh: Uuid,
)
    ensures
        finish_rule(h, b, now_ms, fresh).1.released == h.deferred,
        finish_rule(h, b, now_ms, fresh).0.deferred.len() == 0,
        finish_rule(h, b, now_ms, fresh).0.barrier is None,
        finish_rule(h, b, now_ms, fresh).0.store.rows == h.store.rows,
        finish_rule(h, b, now_ms, fresh).0.store.log == h.store.log,
{
}

/// An operation captured after its sender's watermark waits, and is kept as it
/// came.
pub proof fn late_work_waits(
    h: HostView,
    conn_id: u64,
    actor_id: Uuid,
    op: OperationView,
    merge: Option<MergeView>,
    now_ms: i64,
    fresh: Uuid,
)
    requires
        withheld(h, conn_id, op.local_seq),
    ensures
        submit_rule(h, conn_id, actor_id, op, merge, now_ms, fresh).0 == (HostView {
            deferred: h.deferred.push((conn_id, OperationView { actor_id, ..op })),
            ..h
        }),
{
}

/// A preparation is bound to one revision: what that revision held stays the
/// same, whatever is accepted afterwards.
pub proof fn a_preparation_is_bound_to_its_revision(
    h: HostView,
    b: crate::host_rules::BarrierView,
    now_ms: i64,
    fresh: Uuid,
    conn_id: u64,
    actor_id: Uuid,
    op: OperationView,
    merge: Option<MergeView>,
    later_ms: i64,
    other: Uuid,
)
    requires
        h.store.ok(),
        host_room(h),
    ensures
        preparation_of(h, b, now_ms, fresh).target_revision == h.store.revision(),
        submit_rule(h, conn_id, actor_id, op, merge, later_ms, other).0.store.at(
            preparation_of(h, b, now_ms, fresh).target_revision,
        ) == h.store.rows,
{
    let s = h.store;
    let target = s.revision();
    an_operation_makes_one_revision_at_most(h, conn_id, actor_id, op, merge, later_ms, other);
    let t = submit_rule(h, conn_id, actor_id, op, merge, later_ms, other).0.store;
    crate::store_host::history_ends_at_the_present(s);
    lemma_base_kept(h, conn_id, actor_id, op, merge, later_ms, other);
    if t.log != s.log || t.rows != s.rows {
        let r = choose|r: RevisionView| #[trigger]
            made_of(s, t, r) && r.actor_id == actor_id && r.path == op.path;
        assert(t.log.take(target as int) =~= s.log);
    }
}

proof fn lemma_base_kept(
    h: HostView,
    conn_id: u64,
    actor_id: Uuid,
    op: OperationView,
    merge: Option<MergeView>,
    now_ms: i64,
    fresh: Uuid,
)
    ensures
        submit_rule(h, conn_id, actor_id, op, merge, now_ms, fresh).0.store.base == h.store.base,
{
}

/// A publication is on record before the branch moves; the expected head moves
/// with the branch; only a complete publication uses up its preparation.
pub proof fn a_publication_advances_in_order(
    h: HostView,
    d: crate::model::DescriptorView,
    commit_oid: Seq<char>,
    now_ms: i64,
)
    requires
        host_ok(h),
    ensures
        ({
            let (recorded, p) = record_rule(h, d, commit_oid, now_ms);
            let (moved, q) = ref_updated_rule(recorded, p);
            let (complete, r) = completed_rule(moved, q);
            &&& p.stage == PublicationStage::ObjectsInstalled
            &&& recorded.expected_head == h.expected_head
            &&& found::<GitPublication>(recorded.store.publications, p.sequence as u128) == Some(p)
            &&& q.stage == PublicationStage::RefUpdated
            &&& moved.expected_head == commit_oid
            &&& moved.store.preparations == h.store.preparations
            &&& found::<GitPublication>(moved.store.publications, p.sequence as u128) == Some(q)
            &&& r.stage == PublicationStage::Complete
            &&& found::<GitPublication>(complete.store.publications, p.sequence as u128) == Some(r)
            &&& found::<CommitPreparation>(h.store.preparations, d.prepare_id) is Some ==> {
                &&& found::<CommitPreparation>(complete.store.preparations, d.prepare_id) is Some
                &&& found::<CommitPreparation>(
                    complete.store.preparations,
                    d.prepare_id,
                )->0.status == PrepareStatus::Published
            }
        }),
{
    let (recorded, p) = record_rule(h, d, commit_oid, now_ms);
    let (moved, q) = ref_updated_rule(recorded, p);
    let (complete, r) = completed_rule(moved, q);
    filing_keeps_the_order(h.store.publications, p);
    filing_keeps_the_order(recorded.store.publications, q);
    filed_is_found(h.store.publications, p);
    filed_is_found(recorded.store.publications, q);
    filed_is_found(moved.store.publications, r);
    match found::<CommitPreparation>(h.store.preparations, d.prepare_id) {
        Some(prep) => {
            lemma_index_of::<CommitPreparation>(h.store.preparations, d.prepare_id);
            stored_is_found::<CommitPreparation>(
                h.store.preparations,
                PreparationView { status: PrepareStatus::Published, ..prep },
                d.prepare_id,
            );
        },
        None => {},
    }
}

/// Trailers credit contributors other than the author, under the address they
/// gave, each once. No address is invented.
pub proof fn trailers_credit_others_once(list: Seq<ContributorView>, author_email: Seq<char>)
    ensures
        crate::text::distinct(trailers_of(list, author_email)),
        forall|t: Seq<char>| #[trigger]
            trailers_of(list, author_email).contains(t) <==> exists|i: int|
                0 <= i < list.len() && (#[trigger] list[i]).email is Some && list[i].email
                    != Some(author_email) && t == trailer_of(list[i].display_name, list[i].email->0),
    decreases list.len(),
{
    if list.len() > 0 {
        let front = list.drop_last();
        let before = trailers_of(front, author_email);
        trailers_credit_others_once(front, author_email);
        let all = trailers_of(list, author_email);
        assert forall|t: Seq<char>| #[trigger] all.contains(t) <==> exists|i: int|
            0 <= i < list.len() && (#[trigger] list[i]).email is Some && list[i].email != Some(
                author_email,
            ) && t == trailer_of(list[i].display_name, list[i].email->0) by {
            if list.last().email is Some {
                crate::text::lemma_push_contains(
                    before,
                    trailer_of(list.last().display_name, list.last().email->0),
                    t,
                );
            }
            if all.contains(t) {
                if before.contains(t) {
                    let i = choose|i: int|
                        0 <= i < front.len() && (#[trigger] front[i]).email is Some
                            && front[i].email != Some(author_email) && t == trailer_of(
                            front[i].display_name,
                            front[i].email->0,
                        );
                    assert(list[i] == front[i]);
                } else {
                    assert(list[list.len() - 1] == list.last());
                }
            }
            if exists|i: int|
                0 <= i < list.len() && (#[trigger] list[i]).email is Some && list[i].email != Some(
                    author_email,
                ) && t == trailer_of(list[i].display_name, list[i].email->0) {
                let i = choose|i: int|
                    0 <= i < list.len() && (#[trigger] list[i]).email is Some && list[i].email
                        != Some(author_email) && t == trailer_of(
                        list[i].display_name,
                        list[i].email->0,
                    );
                if i < front.len() {
                    assert(front[i] == list[i]);
                }
            }
        }
        assert forall|i: int, j: int| 0 <= i < j < all.len() implies #[trigger] all[i]
            != #[trigger] all[j] by {
            if j == before.len() {
                assert(before.contains(before[i]));
            }
        }
    }
}

// ---------------------------------------------------------------------------
// Every message
// ---------------------------------------------------------------------------

/// Whether `t` has the history of `s`, with one more revision at most.
pub open spec fn grows(s: StoreView, t: StoreView) -> bool {
    &&& t.base == s.base
    &&& s.log.len() <= t.log.len() <= s.log.len() + 1
    &&& t.log.take(s.log.len() as int) == s.log
    &&& t.control_version >= s.control_version
}

proof fn lemma_same_log(s: StoreView, t: StoreView)
    requires
        t.base == s.base,
        t.log == s.log,
        t.control_version >= s.control_version,
    ensures
        grows(s, t),
{
    assert(s.log.take(s.log.len() as int) =~= s.log);
}

proof fn lemma_submit_grows(
    h: HostView,
    conn_id: u64,
    actor_id: Uuid,
    op: OperationView,
    now_ms: i64,
    fresh: Uuid,
)
    requires
        h.store.ok(),
        host_room(h),
    ensures
        grows(h.store, submit_rule(h, conn_id, actor_id, op, None, now_ms, fresh).0.store),
{
    let s = h.store;
    let t = submit_rule(h, conn_id, actor_id, op, None, now_ms, fresh).0.store;
    an_operation_makes_one_revision_at_most(h, conn_id, actor_id, op, None, now_ms, fresh);
    assert(s.log.take(s.log.len() as int) =~= s.log);
    assert(s.log.push(t.log.last()).take(s.log.len() as int) =~= s.log);
}

proof fn lemma_tasks_grow(
    h: HostView,
    conn_id: u64,
    actor_id: Uuid,
    m: ClientMessage,
    now_ms: i64,
    ids: FreshIds,
)
    requires
        host_room(h),
        m is TaskStart || m is TaskUpdate || m is TaskComplete || m is TaskCancel,
    ensures
        grows(h.store, authenticated_rule(h, conn_id, actor_id, m, now_ms, ids).0.store),
{
    lemma_same_log(h.store, authenticated_rule(h, conn_id, actor_id, m, now_ms, ids).0.store);
}

proof fn lemma_conflicts_grow(
    h: HostView,
    conn_id: u64,
    actor_id: Uuid,
    m: ClientMessage,
    now_ms: i64,
    ids: FreshIds,
)
    requires
        h.store.ok(),
        host_room(h),
        m is ReportConflict || m is AttachLocalCandidate || m is ResolveConflict || m
            is DismissConflict,
    ensures
        grows(h.store, authenticated_rule(h, conn_id, actor_id, m, now_ms, ids).0.store),
{
    let s = h.store;
    let t = authenticated_rule(h, conn_id, actor_id, m, now_ms, ids).0.store;
    assert(s.log.take(s.log.len() as int) =~= s.log);
    assert(s.log.push(t.log.last()).take(s.log.len() as int) =~= s.log);
}

proof fn lemma_barrier_grows(
    h: HostView,
    conn_id: u64,
    actor_id: Uuid,
    m: ClientMessage,
    now_ms: i64,
    ids: FreshIds,
)
    requires
        host_room(h),
        m is CommitPrepare || m is BarrierAck || m is BarrierReady,
    ensures
        grows(h.store, authenticated_rule(h, conn_id, actor_id, m, now_ms, ids).0.store),
{
    lemma_same_log(h.store, authenticated_rule(h, conn_id, actor_id, m, now_ms, ids).0.store);
}

proof fn lemma_content_grows(
    h: HostView,
    conn_id: u64,
    actor_id: Uuid,
    m: ClientMessage,
    now_ms: i64,
    ids: FreshIds,
)
    requires
        host_room(h),
        m is RequestBlobs || m is Blob,
    ensures
        grows(h.store, authenticated_rule(h, conn_id, actor_id, m, now_ms, ids).0.store),
{
    if let ClientMessage::RequestBlobs { hashes } = m {
        lemma_request_store(h, conn_id, crate::text::texts(hashes@));
    }
    lemma_same_log(h.store, authenticated_rule(h, conn_id, actor_id, m, now_ms, ids).0.store);
}

proof fn lemma_reports_grow(
    h: HostView,
    conn_id: u64,
    actor_id: Uuid,
    m: ClientMessage,
    now_ms: i64,
    ids: FreshIds,
)
    requires
        host_room(h),
        m is ReportOversize || m is SetFileLimit || m is Presence || m is ReplicaHash,
    ensures
        grows(h.store, authenticated_rule(h, conn_id, actor_id, m, now_ms, ids).0.store),
{
    lemma_same_log(h.store, authenticated_rule(h, conn_id, actor_id, m, now_ms, ids).0.store);
}

proof fn lemma_questions_grow(
    h: HostView,
    conn_id: u64,
    actor_id: Uuid,
    m: ClientMessage,
    now_ms: i64,
    ids: FreshIds,
)
    requires
        host_room(h),
        m is RequestManifest || m is RequestControlSnapshot || m is CommitCreate || m is PushRequest,
    ensures
        grows(h.store, authenticated_rule(h, conn_id, actor_id, m, now_ms, ids).0.store),
{
    lemma_same_log(h.store, authenticated_rule(h, conn_id, actor_id, m, now_ms, ids).0.store);
}

/// History only grows: whatever a message does, no earlier revision changes,
/// and the base stays what it was.
pub proof fn history_only_grows(
    h: HostView,
    conn_id: u64,
    m: ClientMessage,
    now_ms: i64,
    ids: FreshIds,
)
    requires
        h.store.ok(),
        host_room(h),
    ensures
        grows(h.store, message_rule(h, conn_id, m, now_ms, ids).0.store),
{
    let g = seen(h, conn_id, now_ms);
    assert(g.store == h.store);
    lemma_same_log(h.store, h.store);
    match m {
        ClientMessage::Hello {
            session_id,
            actor_id,
            display_name,
            git_name,
            git_email,
            base_commit,
            branch,
            resume,
        } => {
            let x = HelloView {
                session_id,
                actor_id,
                display_name: display_name@,
                git_name: git_name@,
                git_email: git_email@,
                base_commit: base_commit@,
                branch: branch@,
                resume: resume@,
            };
            lemma_welcome_store(g, conn_id, x, now_ms);
            lemma_same_log(h.store, crate::host_rules::hello_rule(g, conn_id, x, now_ms).store);
        },
        ClientMessage::Ping { .. } => {},
        ClientMessage::Pong { .. } => {},
        ClientMessage::SubmitOperation { operation } => {
            if g.actor_of(conn_id) is Some {
                lemma_submit_grows(
                    g,
                    conn_id,
                    g.actor_of(conn_id)->0,
                    (*operation)@,
                    now_ms,
                    ids.first,
                );
            }
        },
        _ => {
            if g.actor_of(conn_id) is Some {
                let actor_id = g.actor_of(conn_id)->0;
                if m is TaskStart || m is TaskUpdate || m is TaskComplete || m is TaskCancel {
                    lemma_tasks_grow(g, conn_id, actor_id, m, now_ms, ids);
                } else if m is ReportConflict || m is AttachLocalCandidate || m is ResolveConflict
                    || m is DismissConflict {
                    lemma_conflicts_grow(g, conn_id, actor_id, m, now_ms, ids);
                } else if m is CommitPrepare || m is BarrierAck || m is BarrierReady {
                    lemma_barrier_grows(g, conn_id, actor_id, m, now_ms, ids);
                } else if m is RequestBlobs || m is Blob {
                    lemma_content_grows(g, conn_id, actor_id, m, now_ms, ids);
                } else if m is ReportOversize || m is SetFileLimit || m is Presence || m
                    is ReplicaHash {
                    lemma_reports_grow(g, conn_id, actor_id, m, now_ms, ids);
                } else {
                    lemma_questions_grow(g, conn_id, actor_id, m, now_ms, ids);
                }
            }
        },
    }
}

proof fn lemma_request_store(h: HostView, conn_id: u64, hashes: Seq<Seq<char>>)
    ensures
        crate::host_rules::request_blobs_rule(h, conn_id, hashes).0.store == h.store,
    decreases hashes.len(),
{
    if hashes.len() > 0 {
        lemma_request_store(h, conn_id, hashes.drop_last());
    }
}

proof fn lemma_welcome_store(h: HostView, conn_id: u64, x: HelloView, now_ms: i64)
    ensures
        ({
            let t = crate::host_rules::hello_rule(h, conn_id, x, now_ms).store;
            t == StoreView { actors: t.actors, ..h.store }
        }),
{
    let g = enroll(h, conn_id, x, now_ms);
    lemma_supersede_frame(introduced(h, x, now_ms), superseded(h.conns, conn_id, x.actor_id));
    lemma_sends_store(g, conn_id, x.resume);
}

proof fn lemma_sends_store(g: HostView, conn_id: u64, r: crate::proto::ResumeView)
    ensures
        crate::host_rules::welcome(g, conn_id, r).store == g.store,
{
    let current = g.store.revision();
    let pending = crate::store_host::later_than(
        g.store.publications,
        r.last_publication_sequence,
    );
    let greeted = g.send(
        conn_id,
        HostMessageView::Welcome {
            session: g.session,
            snapshot_revision: current,
            manifest: if crate::host_rules::needs_snapshot(g, r) {
                Some(g.store.rows)
            } else {
                None
            },
            control: g.control(),
            pending_publications: pending,
            host_state_hash: crate::proto::hash_of_rows(g.store.rows),
        },
    );
    let span = crate::store_host::span_of(g.store.log, r.last_applied_revision, current);
    lemma_revisions_store(greeted, conn_id, span);
    lemma_publications_store(greeted, conn_id, pending);
    lemma_publications_store(
        crate::host_rules::send_revisions(greeted, conn_id, span),
        conn_id,
        pending,
    );
}

proof fn lemma_revisions_store(h: HostView, conn_id: u64, list: Seq<RevisionView>)
    ensures
        crate::host_rules::send_revisions(h, conn_id, list).store == h.store,
    decreases list.len(),
{
    if list.len() > 0 {
        lemma_revisions_store(h, conn_id, list.drop_last());
    }
}

proof fn lemma_publications_store(h: HostView, conn_id: u64, list: Seq<PublicationView>)
    ensures
        crate::host_rules::send_publications(h, conn_id, list).store == h.store,
    decreases list.len(),
{
    if list.len() > 0 {
        lemma_publications_store(h, conn_id, list.drop_last());
    }
}

} // verus!
