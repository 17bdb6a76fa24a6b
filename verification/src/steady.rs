//! What local work leaves alone: what a replica knows of canonical state.

use vstd::prelude::*;

use crate::client_blobs::{send_rule, EmittedView};
use crate::client_ipc::{resolve_with, supplied_entry};
use crate::client_laws::{lemma_note_refused, lemma_send_all, lemma_stream_all, lemma_want_blobs};
use crate::client_rules::{
    advance, after_watched, answer_all, apply_control, barrier_ended, canonical_of, capture,
    changed, check_barrier, check_oversize, clash, complete_request, conflict_needs,
    conflict_placed, conflicted, emit, enqueue_revision, fail, finish_visit, flush_outbox,
    flush_path, forget_oversize, forget_report, freeze, full_rescan, git_guard, go, go_session,
    go_tick, go_tree, gone, held_needs, host_message, install_awaited, install_merged, is_awaited,
    landed, limit_changed, materialize_if_safe, merge_failed, missing, my_task, needs_of,
    note_ignored, objects_fault, objects_installed, on_publication, open_ids, operation_of,
    operation_rejected, operation_result, popped, promote_pending, publish, read_done, read_failed,
    rebase, record_all, record_oversize, ref_read, ref_updated, rescan_calls, restore,
    restore_awaited, scanned, send_all, send_with, settle, stream_all, submit_path,
    sync_oversize_report, sync_working_tree, tick_collect, tick_heartbeat, tick_presence,
    tick_rescan, tick_retry, tick_watched, tree_read, verify_join, visited, with_content,
    work_failed, write_candidate, write_canonical, write_restored, written, AwaitedView, ClientView,
    Frozen, PendingRequest, Purpose, ReplyView, Why, WorkView,
};
use crate::error::{ErrorClass, ErrorView};
use crate::model::{ConflictView, EntryView, OutcomeView, PublicationView};
use crate::proto::{ClientMessageView, ControlView, HostMessageView, ReportView, ReportedConflict};
use crate::reconcile::{reconcile_rule, MergeView, ReconciledView};
use crate::scan::FileMeta;
use crate::store_client::{
    a_path_keeps_what_was_put, flight_of, state_in, undrafted, DraftView, FlightView, PathRowView,
    PendingView, ReplicaView, StateView,
};
use crate::util::Uuid;

verus! {

/// `b` knows the same of canonical state as `a`.
pub open spec fn steady(a: ReplicaView, b: ReplicaView) -> bool {
    &&& b.last_applied_revision == a.last_applied_revision
    &&& forall|path: Seq<char>|
        (#[trigger] b.state(path)).confirmed == a.state(path).confirmed && b.state(
            path,
        ).confirmed_revision == a.state(path).confirmed_revision
}

/// Nothing but other things than paths changed.
spec fn same_paths(a: ReplicaView, b: ReplicaView) -> bool {
    b.states == a.states && b.last_applied_revision == a.last_applied_revision
}

proof fn lemma_put(r: ReplicaView, path: Seq<char>, s: StateView)
    requires
        s.confirmed == r.state(path).confirmed,
        s.confirmed_revision == r.state(path).confirmed_revision,
    ensures
        steady(r, r.with_state(path, s)),
{
    assert forall|other: Seq<char>|
        (#[trigger] r.with_state(path, s).state(other)).confirmed == r.state(other).confirmed
            && r.with_state(path, s).state(other).confirmed_revision == r.state(
            other,
        ).confirmed_revision by {
        a_path_keeps_what_was_put(r, path, s, other);
    }
}

proof fn lemma_emit(v: ClientView, e: EmittedView)
    ensures
        emit(v, e).replica == v.replica,
{
    reveal(emit);
    let a = send_all(v, e.messages);
    let b = stream_all(a, e.jobs);
    lemma_send_all(v, e.messages);
    lemma_stream_all(a, e.jobs);
    lemma_note_refused(b, e.refused);
}

proof fn lemma_send_with(
    v: ClientView,
    key: Uuid,
    needs: Seq<Seq<char>>,
    message: ClientMessageView,
)
    ensures
        send_with(v, key, needs, message).replica == v.replica,
{
    reveal(send_with);
    let (traffic, e) = send_rule(v.traffic, key, needs, message);
    lemma_emit(ClientView { traffic, ..v }, e);
}

proof fn lemma_answer_all(v: ClientView, calls: Seq<u64>, e: ErrorView)
    ensures
        answer_all(v, calls, e).replica == v.replica,
    decreases calls.len(),
{
    if calls.len() > 0 {
        lemma_answer_all(v, calls.drop_last(), e);
    }
}

proof fn lemma_fail(v: ClientView, e: ErrorView)
    ensures
        fail(v, e).replica == v.replica,
{
    reveal(fail);
    let stopped = ClientView { todo: Seq::empty(), ..v };
    lemma_answer_all(stopped, rescan_calls(v.todo), e);
}

proof fn lemma_check_barrier(v: ClientView)
    ensures
        check_barrier(v).replica == v.replica,
{
    reveal(check_barrier);
}

proof fn lemma_submit_path(v: ClientView, path: Seq<char>, now_ms: i64)
    ensures
        steady(v.replica, submit_path(v, path, now_ms).replica),
{
    reveal(submit_path);
    let state = v.state(path);
    if let Some(f) = state.in_flight {
        let m = ClientMessageView::SubmitOperation {
            operation: operation_of(v, path, f),
        };
        lemma_send_with(v, f.operation_id, needs_of(f.desired), m);
        lemma_put(
            v.replica,
            path,
            StateView {
                in_flight: Some(
                    FlightView { sent: true, sent_at_ms: now_ms, ..f },
                ),
                ..state
            },
        );
    }
}

proof fn lemma_promote_pending(v: ClientView, path: Seq<char>, now_ms: i64, fresh: Uuid)
    ensures
        steady(v.replica, promote_pending(v, path, now_ms, fresh).replica),
{
    reveal(promote_pending);
    let state = v.state(path);
    if state.in_flight is None && state.conflict_draft is None && state.pending_local is Some {
        let p = state.pending_local->0;
        let s = StateView {
            pending_local: None,
            in_flight: Some(
                FlightView {
                    operation_id: fresh,
                    base_revision: state.confirmed_revision,
                    base_entry: state.confirmed,
                    desired: p.desired,
                    local_seq: p.local_seq,
                    task_id: p.task_id,
                    sent: false,
                    sent_at_ms: 0,
                },
            ),
            ..state
        };
        lemma_put(v.replica, path, s);
        lemma_submit_path(v.with_state(path, s), path, now_ms);
    }
}

proof fn lemma_flush_path(v: ClientView, path: Seq<char>, now_ms: i64, fresh: Uuid)
    ensures
        steady(v.replica, flush_path(v, path, now_ms, fresh).replica),
{
    reveal(flush_path);
    let state = v.state(path);
    match state.in_flight {
        Some(f) => {
            let s = StateView {
                in_flight: Some(FlightView { sent: false, ..f }),
                ..state
            };
            lemma_put(v.replica, path, s);
            lemma_submit_path(v, path, now_ms);
            lemma_submit_path(v.with_state(path, s), path, now_ms);
        },
        None => {
            lemma_promote_pending(v, path, now_ms, fresh);
        },
    }
}

proof fn lemma_capture(
    v: ClientView,
    path: Seq<char>,
    entry: Option<EntryView>,
    frozen: Frozen,
    now_ms: i64,
    fresh: Uuid,
)
    ensures
        steady(v.replica, capture(v, path, entry, frozen, now_ms, fresh).0.replica),
{
    reveal(capture);
    let state = v.state(path);
    let seq = (v.replica.local_seq + 1) as u64;
    let counted = v.with_replica(ReplicaView { local_seq: seq, ..v.replica });
    assert(steady(v.replica, counted.replica));
    assert(counted.state(path) == state);
    let (next, _) = capture(v, path, entry, frozen, now_ms, fresh);
    if let Some(d) = state.conflict_draft {
        lemma_put(
            counted.replica,
            path,
            StateView {
                conflict_draft: Some(
                    DraftView { entry, local_seq: seq, ..d },
                ),
                materialized: entry,
                ..state
            },
        );
    } else if let Some(_) = state.in_flight {
        let s = StateView {
            pending_local: Some(
                PendingView {
                    desired: entry,
                    local_seq: seq,
                    task_id: my_task(v),
                },
            ),
            materialized: entry,
            ..state
        };
        lemma_put(counted.replica, path, s);
        lemma_check_barrier(counted.with_state(path, s));
    } else {
        let (base_revision, base_entry) = match frozen {
            Some(f) => f,
            None => (state.confirmed_revision, state.confirmed),
        };
        let s = StateView {
            in_flight: Some(
                FlightView {
                    operation_id: fresh,
                    base_revision,
                    base_entry,
                    desired: entry,
                    local_seq: seq,
                    task_id: my_task(v),
                    sent: false,
                    sent_at_ms: 0,
                },
            ),
            materialized: entry,
            ..state
        };
        lemma_put(counted.replica, path, s);
        lemma_submit_path(counted.with_state(path, s), path, now_ms);
    }
}

proof fn lemma_record_oversize(v: ClientView, path: Seq<char>, size: u64)
    ensures
        same_paths(v.replica, record_oversize(v, path, size).replica),
{
    reveal(record_oversize);
}

proof fn lemma_record_all(v: ClientView, list: Seq<ReportView>)
    ensures
        same_paths(v.replica, record_all(v, list).replica),
    decreases list.len(),
{
    reveal_with_fuel(record_all, 2);
    if list.len() > 0 {
        lemma_record_all(v, list.drop_last());
        lemma_record_oversize(
            record_all(v, list.drop_last()),
            list.last().path,
            list.last().size,
        );
    }
}

proof fn lemma_check_oversize(v: ClientView, path: Seq<char>, meta: Option<FileMeta>)
    ensures
        same_paths(v.replica, check_oversize(v, path, meta).0.replica),
{
    reveal(check_oversize);
    reveal(forget_oversize);
    if let Some(m) = meta {
        lemma_record_oversize(v, path, m.size);
    }
}

proof fn lemma_finish_visit(v: ClientView, path: Seq<char>, why: Why, captured: bool)
    ensures
        finish_visit(v, path, why, captured).replica == v.replica,
{
    reveal(finish_visit);
    reveal(write_canonical);
    reveal(write_candidate);
    reveal(write_restored);
    if let Some(e) = v.state(path).confirmed {
        lemma_want_blobs(v, seq![e.blob_hash]);
        lemma_want_blobs(
            ClientView {
                awaiting_restore: if v.awaiting_restore.contains(path) {
                    v.awaiting_restore
                } else {
                    v.awaiting_restore.push(path)
                },
                ..v
            },
            seq![e.blob_hash],
        );
    }
}

proof fn lemma_visited(v: ClientView, path: Seq<char>, why: Why, meta: Option<FileMeta>, now_ms: i64)
    ensures
        same_paths(v.replica, visited(v, path, why, meta, now_ms).replica),
{
    reveal(visited);
    reveal(settle);
    let (a, still) = settle(v, path, meta, now_ms);
    lemma_finish_visit(a, path, why, false);
    let (b, over) = check_oversize(a, path, meta);
    lemma_check_oversize(a, path, meta);
    lemma_finish_visit(b, path, why, false);
}

proof fn lemma_read_done(
    v: ClientView,
    path: Seq<char>,
    why: Why,
    frozen: Frozen,
    entry: Option<EntryView>,
    now_ms: i64,
    fresh: Uuid,
)
    ensures
        steady(v.replica, read_done(v, path, why, frozen, entry, now_ms, fresh).replica),
{
    reveal(read_done);
    let start = with_content(v, entry);
    lemma_capture(start, path, entry, frozen, now_ms, fresh);
    let (next, captured) = capture(start, path, entry, frozen, now_ms, fresh);
    lemma_finish_visit(next, path, why, captured);
}

proof fn lemma_written(v: ClientView, path: Seq<char>, entry: Option<EntryView>, purpose: Purpose)
    ensures
        steady(v.replica, written(v, path, entry, purpose).replica),
{
    reveal(written);
    let state = v.state(path);
    lemma_put(
        v.replica,
        path,
        StateView {
            materialized: entry,
            conflict_draft: match (purpose, state.conflict_draft) {
                (Purpose::Restore, Some(d)) => Some(
                    DraftView { entry, ..d },
                ),
                (_, d) => d,
            },
            ..state
        },
    );
}

proof fn lemma_rebase(
    v: ClientView,
    path: Seq<char>,
    base: Option<EntryView>,
    canonical: Option<EntryView>,
    pending: PendingView,
    merge: Option<MergeView>,
    fresh: Uuid,
)
    ensures
        steady(v.replica, rebase(v, path, base, canonical, pending, merge, fresh).replica),
{
    reveal(rebase);
    reveal(install_merged);
    let state = v.state(path);
    lemma_put(v.replica, path, StateView { pending_local: None, ..state });
    lemma_put(v.replica, path, landed(state, canonical, pending, fresh));
    match reconcile_rule(base, canonical, pending.desired, merge) {
        ReconciledView::Accept { entry, .. } => {
            lemma_put(v.replica, path, landed(state, entry, pending, fresh));
        },
        ReconciledView::Conflict(kind) => {
            reveal(clash);
            lemma_send_with(
                v,
                fresh,
                conflict_needs(v, state, base, canonical, pending.desired),
                ClientMessageView::ReportConflict {
                    report: ReportedConflict {
                        id: fresh,
                        path,
                        kind,
                        base_entry: base,
                        canonical_entry: canonical,
                        incoming_entry: pending.desired,
                        latest_local_candidate: pending.desired,
                        incoming_task_id: pending.task_id,
                    },
                },
            );
            lemma_put(
                v.replica,
                path,
                StateView {
                    pending_local: None,
                    conflict_draft: Some(
                        DraftView {
                            conflict_id: fresh,
                            entry: pending.desired,
                            local_seq: pending.local_seq,
                        },
                    ),
                    ..state
                },
            );
        },
        _ => {},
    }
}

proof fn lemma_sync_oversize_report(v: ClientView)
    ensures
        sync_oversize_report(v).replica == v.replica,
{
    reveal(sync_oversize_report);
    lemma_check_barrier(
        ClientView { reported_oversize: Some(v.replica.oversize), ..v }.send(
            ClientMessageView::ReportOversize { paths: v.replica.oversize },
        ),
    );
}

proof fn lemma_go_tree(p: ClientView, w: WorkView, now_ms: i64, fresh: Uuid)
    ensures
        steady(p.replica, go_tree(p, w, now_ms, fresh).replica),
{
    reveal(note_ignored);
    reveal(sync_working_tree);
    reveal(materialize_if_safe);
    reveal(flush_outbox);
    reveal(forget_report);
    reveal(restore);
    reveal(restore_awaited);
    reveal(limit_changed);
    reveal(full_rescan);
    reveal(changed);
    match w {
        WorkView::Submit { path } => lemma_submit_path(p, path, now_ms),
        WorkView::FlushPath { path } => lemma_flush_path(p, path, now_ms, fresh),
        WorkView::CheckBarrier => lemma_check_barrier(p),
        WorkView::ReportOversize => lemma_sync_oversize_report(p),
        WorkView::ForgetReport => lemma_sync_oversize_report(
            ClientView { reported_oversize: None, ..p },
        ),
        _ => {},
    }
}

proof fn lemma_go_session(p: ClientView, w: WorkView, fresh: Uuid)
    requires
        !(w is Drain),
        !(w is Applied),
    ensures
        steady(p.replica, go_session(p, w, fresh).replica),
{
    reveal(install_awaited);
    reveal(publish);
    reveal(conflict_placed);
    reveal(freeze);
    reveal(verify_join);
    reveal(after_watched);
    if let WorkView::Rebase { path, base, canonical, pending } = w {
        lemma_rebase(p, path, base, canonical, pending, None, fresh);
    }
}

proof fn lemma_go_tick(p: ClientView, w: WorkView, now_ms: i64)
    ensures
        same_paths(p.replica, go_tick(p, w, now_ms).replica),
{
    reveal(tick_rescan);
    reveal(full_rescan);
    reveal(tick_watched);
    reveal(tick_retry);
    reveal(tick_presence);
    reveal(tick_heartbeat);
    reveal(tick_collect);
}

proof fn lemma_work_failed(v: ClientView, e: ErrorView)
    ensures
        work_failed(v, e).replica == v.replica,
{
    reveal(work_failed);
    reveal(read_failed);
    reveal(merge_failed);
    let p = popped(v);
    lemma_fail(p, e);
    if let WorkView::Merge { canonical, .. } = v.todo[0] {
        lemma_want_blobs(p, needs_of(canonical));
    }
}

proof fn lemma_resolve_with(
    v: ClientView,
    call: u64,
    c: ConflictView,
    entry: Option<EntryView>,
    request_id: Uuid,
    operation_id: Uuid,
)
    ensures
        resolve_with(v, call, c, entry, request_id, operation_id).replica == v.replica,
{
    reveal(resolve_with);
    lemma_send_with(
        ClientView {
            requests: v.requests.push(PendingRequest { request_id, call }),
            ..v
        },
        request_id,
        needs_of(entry),
        ClientMessageView::ResolveConflict {
            request_id,
            conflict_id: c.id,
            operation_id,
            expected_canonical: v.state(c.path).confirmed,
            resolved_entry: entry,
        },
    );
}

proof fn lemma_publishing(
    v: ClientView,
    p: PublicationView,
    present: bool,
    tree: Option<Seq<char>>,
    current: Option<Seq<char>>,
)
    ensures
        same_paths(v.replica, objects_installed(v, p, present, tree).replica),
        same_paths(v.replica, ref_read(v, p, current).replica),
        same_paths(v.replica, ref_updated(v, p).replica),
        same_paths(v.replica, tree_read(v, p).replica),
{
    reveal(objects_installed);
    reveal(ref_read);
    reveal(ref_updated);
    reveal(tree_read);
    if let Some(e) = objects_fault(p, present, tree) {
        lemma_fail(v, e);
    }
}

/// No step of local work touches what a replica knows of canonical state:
/// neither capturing, writing, merging, submitting and publishing nor anything
/// that fails on the way. Only revisions, snapshots and answers do.
pub proof fn local_work_leaves_canonical_state_alone(
    v: ClientView,
    r: ReplyView,
    now_ms: i64,
    fresh: Uuid,
    second: Uuid,
)
    requires
        v.todo.len() > 0 ==> !(v.todo[0] is Drain) && !(v.todo[0] is Applied),
    ensures
        steady(v.replica, advance(v, r, now_ms, fresh, second).replica),
{
    if v.todo.len() > 0 {
        let p = popped(v);
        let w = v.todo[0];
        match (w, r) {
            (_, ReplyView::Go) => {
                reveal(go);
                lemma_go_tree(p, w, now_ms, fresh);
                lemma_go_session(p, w, fresh);
                lemma_go_tick(p, w, now_ms);
            },
            (_, ReplyView::Failed(e)) => lemma_work_failed(v, e),
            (WorkView::Rescan, ReplyView::Listed { found, oversize, rejected }) => {
                reveal(scanned);
                lemma_record_all(ClientView { rejected, ..p }, oversize);
            },
            (WorkView::Missing { path }, ReplyView::Exists(yes)) => {
                reveal(missing);
            },
            (WorkView::Visit { path, why }, ReplyView::Meta(meta)) => {
                lemma_visited(p, path, why, meta, now_ms);
            },
            (WorkView::Read { path, why, frozen }, ReplyView::Entry(entry)) => {
                lemma_read_done(p, path, why, frozen, entry, now_ms, fresh);
            },
            (WorkView::Write { path, entry, purpose }, ReplyView::Written) => {
                lemma_written(p, path, entry, purpose);
            },
            (WorkView::InstallObjects { publication, .. }, ReplyView::Objects { present, tree }) => {
                lemma_publishing(p, publication, present, tree, None);
            },
            (WorkView::ReadRef { publication }, ReplyView::Ref(current)) => {
                lemma_publishing(p, publication, true, None, current);
            },
            (WorkView::UpdateRef { publication }, ReplyView::RefMoved) => {
                lemma_publishing(p, publication, true, None, None);
            },
            (WorkView::ReadTree { publication }, ReplyView::TreeRead) => {
                lemma_publishing(p, publication, true, None, None);
            },
            (WorkView::Merge { path, base, canonical, pending }, ReplyView::Merged(m)) => {
                lemma_rebase(p, path, base, canonical, pending, Some(m), fresh);
            },
            (WorkView::GitGuard, ReplyView::Git(g)) => {
                reveal(git_guard);
                reveal(full_rescan);
            },
            (WorkView::ResolveRead { call, conflict }, ReplyView::Entry(entry)) => {
                lemma_resolve_with(with_content(p, entry), call, conflict, entry, fresh, second);
            },
            (WorkView::ResolveIngest { call, conflict, file }, ReplyView::Ingested(i)) => {
                if let Ok(entry) = supplied_entry(conflict, file, i) {
                    lemma_resolve_with(
                        with_content(p, Some(entry)),
                        call,
                        conflict,
                        Some(entry),
                        fresh,
                        second,
                    );
                }
            },
            _ => {},
        }
    }
}

// ---------------------------------------------------------------------------
// What the host says
// ---------------------------------------------------------------------------

proof fn lemma_undrafted(list: Seq<PathRowView>, closed: Seq<Uuid>, path: Seq<char>)
    ensures
        state_in(undrafted(list, closed), path).confirmed == state_in(list, path).confirmed,
        state_in(undrafted(list, closed), path).confirmed_revision == state_in(
            list,
            path,
        ).confirmed_revision,
    decreases list.len(),
{
    if list.len() > 0 {
        let all = undrafted(list, closed);
        assert(all.drop_first() =~= undrafted(list.drop_first(), closed));
        lemma_undrafted(list.drop_first(), closed, path);
    }
}

proof fn lemma_apply_control(v: ClientView, c: ControlView)
    ensures
        steady(v.replica, apply_control(v, c).replica),
{
    reveal(apply_control);
    let before = match v.control {
        Some(was) => open_ids(was.conflicts),
        None => Seq::empty(),
    };
    let closed = gone(before, open_ids(c.conflicts));
    let next = apply_control(v, c).replica;
    assert forall|path: Seq<char>|
        (#[trigger] next.state(path)).confirmed == v.replica.state(path).confirmed && next.state(
            path,
        ).confirmed_revision == v.replica.state(path).confirmed_revision by {
        lemma_undrafted(v.replica.states, closed, path);
    }
}

/// What the host says changes what a replica knows of canonical state only
/// where it says so: in a welcome, a snapshot, or the answer to an operation.
/// A revision waits for its turn.
pub proof fn news_leaves_canonical_state_alone(v: ClientView, m: HostMessageView, now_ms: i64)
    requires
        !(m is Welcome),
        !(m is ManifestSnapshot),
        !(m is OperationResult),
    ensures
        steady(v.replica, host_message(v, m, now_ms).replica),
{
    reveal(enqueue_revision);
    reveal(full_rescan);
    reveal(barrier_ended);
    reveal(flush_outbox);
    reveal(complete_request);
    match m {
        HostMessageView::Control { control } => lemma_apply_control(v, control),
        HostMessageView::Publication { publication, pack_hash } => {
            reveal(on_publication);
            if let Some(hash) = pack_hash {
                lemma_want_blobs(
                    ClientView {
                        awaiting_pack: if is_awaited(v.awaiting_pack, hash, publication.sequence) {
                            v.awaiting_pack
                        } else {
                            v.awaiting_pack.push(AwaitedView { hash, publication })
                        },
                        ..v
                    },
                    seq![hash],
                );
            }
        },
        _ => {},
    }
}

proof fn lemma_operation_rejected(
    v: ClientView,
    path: Seq<char>,
    class: ErrorClass,
    message: Seq<char>,
)
    ensures
        steady(v.replica, operation_rejected(v, path, class, message).replica),
{
    reveal(operation_rejected);
    let state = v.state(path);
    let retried = StateView {
        in_flight: match state.in_flight {
            Some(f) => Some(FlightView { sent: false, ..f }),
            None => None,
        },
        ..state
    };
    let queued = StateView {
        in_flight: None,
        pending_local: match (state.in_flight, state.pending_local) {
            (Some(f), None) => Some(
                PendingView { desired: f.desired, local_seq: f.local_seq, task_id: f.task_id },
            ),
            (_, p) => p,
        },
        ..state
    };
    lemma_put(v.replica, path, retried);
    lemma_put(v.replica, path, queued);
    lemma_put(
        v.replica,
        path,
        StateView { in_flight: None, pending_local: None, ..state },
    );
}

proof fn lemma_conflicted(v: ClientView, path: Seq<char>, conflict_id: Uuid)
    ensures
        steady(v.replica, conflicted(v, path, conflict_id).replica),
{
    reveal(conflicted);
    let state = v.state(path);
    if let Some(p) = state.pending_local {
        lemma_send_with(
            v,
            conflict_id,
            held_needs(v, p.desired),
            ClientMessageView::AttachLocalCandidate { conflict_id, entry: p.desired },
        );
    }
    lemma_put(
        v.replica,
        path,
        StateView {
            pending_local: None,
            conflict_draft: Some(
                DraftView {
                    conflict_id,
                    entry: match state.pending_local {
                        Some(p) => p.desired,
                        None => state.materialized,
                    },
                    local_seq: v.replica.local_seq,
                },
            ),
            ..state
        },
    );
}

/// The answer to an operation speaks of the operation's path alone, and never
/// replaces newer knowledge of it.
pub proof fn an_answer_speaks_of_its_path(
    v: ClientView,
    operation_id: Uuid,
    outcome: OutcomeView,
    path: Seq<char>,
)
    ensures
        ({
            let next = operation_result(v, operation_id, outcome).replica;
            let s = v.replica.state(path);
            let t = next.state(path);
            &&& next.last_applied_revision == v.replica.last_applied_revision
            &&& {
                ||| t.confirmed == s.confirmed && t.confirmed_revision == s.confirmed_revision
                ||| {
                    &&& flight_of(v.replica.states, operation_id) matches Some(row) && row.path
                        == path
                    &&& canonical_of(outcome) == Some((t.confirmed_revision, t.confirmed))
                    &&& t.confirmed_revision >= s.confirmed_revision
                }
            }
        }),
{
    reveal(operation_result);
    if let Some(row) = flight_of(v.replica.states, operation_id) {
        let state = v.state(row.path);
        if let Some(f) = state.in_flight {
            match outcome {
                OutcomeView::Rejected { class, message } => {
                    lemma_operation_rejected(v, row.path, class, message);
                    lemma_check_barrier(operation_rejected(v, row.path, class, message));
                },
                _ => {
                    let (revision, canonical) = canonical_of(outcome)->0;
                    let newer = revision >= state.confirmed_revision;
                    let after = StateView {
                        confirmed: if newer {
                            canonical
                        } else {
                            state.confirmed
                        },
                        confirmed_revision: if newer {
                            revision
                        } else {
                            state.confirmed_revision
                        },
                        in_flight: None,
                        ..state
                    };
                    a_path_keeps_what_was_put(v.replica, row.path, after, path);
                    if let OutcomeView::Conflicted { conflict_id, .. } = outcome {
                        lemma_conflicted(v.with_state(row.path, after), row.path, conflict_id);
                    }
                },
            }
        }
    }
}

} // verus!
