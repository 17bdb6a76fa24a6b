//! When the working tree is written: only right after a look that found nothing
//! that is not captured.

use vstd::prelude::*;

use crate::store_host::by_path;
use crate::blobs::Held;
use crate::client_blobs::{
    control_rule, data_rule, enqueue_wants_rule, pump_wants_rule, reconnect_rule, send_rule,
    EmittedView,
};
use crate::client_ipc::{
    ask_host, create_commit, dismiss_conflict, dispatch_rule, end_task, find_conflict,
    resolution_entry, resolve_conflict, resolve_with, show_conflict, show_task, start_task,
    supplied_entry, update_task, Chosen,
};
use crate::client_laws::{
    a_file_above_the_limit_is_left_alone, a_file_being_written_is_left_alone, lemma_note_refused,
    lemma_send_all, lemma_stream_all,
};
use crate::client_rules::{
    absent_hashes, advance, after_manifest, after_watched, answer_all, apply_control,
    apply_manifest, barrier_ended, blob_event, candidate, canonical_of, capture, changed,
    changed_works, check_barrier, check_oversize, clash, complete_request, conflict_needs,
    conflict_placed, conflicted, connected, data_event, disconnected, drain, due_at, emit,
    enqueue_revision, fail, finish_visit, flush_outbox, flush_path, flush_works, forget_oversize,
    forget_report, freeze, frozen_base, full_rescan, git_guard, go, go_session, go_tick, go_tree,
    held_needs, host_message, install_awaited, install_merged, installs, interrupted, is_awaited,
    limit_changed, limit_note, manifest_fault, materialize_if_safe, materialize_works, merge_failed,
    missing, missing_works, my_task, needs_of, note_ignored, objects_fault, objects_installed,
    observed, observed_paths, on_publication, operation_of, operation_rejected, operation_result,
    overflowed, popped, promote_pending, publish, publish_works, read_done, read_failed,
    ready_publications, rebase, record_all, record_oversize, ref_read, ref_updated, repair_works,
    report_paths, rescan_calls, restore, restore_awaited, restore_works, resume_of, scanned,
    send_all, send_with, settle, show_works, snapshot, stream_all, submit_path,
    sync_oversize_report, sync_working_tree, tick, tick_collect, tick_heartbeat, tick_presence,
    tick_rescan, tick_retry, tick_watched, tree_read, verify_join, visit_works, visited, want_blobs,
    watch_batch, watched_works, welcomed, with_content, work_failed, write_candidate,
    write_canonical, write_restored, written, AwaitedView, ClientView, Frozen, PendingRequest,
    ReplyView, Why, WorkView,
};
use crate::error::ErrorView;
use crate::ipc::IpcCommand;
use crate::model::{
    same_state, ConflictView, EntryView, OutcomeView, PublicationView, RevisionView, SyncView,
};
use crate::proto::{
    BlobView, ClientMessageView, ControlView, HostMessageView, ReportView, ReportedConflict,
    RowView,
};
use crate::reconcile::{reconcile_rule, MergeView, ReconciledView};
use crate::scan::{FileMeta, MetaKind};
use crate::store_client::{
    adopted, flight_of, paths_of, unconfirmed, FlightView, JournalView, PendingView, ReplicaView,
    StateView,
};
use crate::text::opt_view;
use crate::util::Uuid;

verus! {

// ---------------------------------------------------------------------------
// Queues
// ---------------------------------------------------------------------------

/// `b` holds no write that `a` does not.
pub open spec fn adds_none(a: Seq<WorkView>, b: Seq<WorkView>) -> bool {
    forall|i: int| 0 <= i < b.len() && (#[trigger] b[i]) is Write ==> a.contains(b[i])
}

spec fn no_write(list: Seq<WorkView>) -> bool {
    forall|i: int| 0 <= i < list.len() ==> !((#[trigger] list[i]) is Write)
}

proof fn lemma_self(a: Seq<WorkView>)
    ensures
        adds_none(a, a),
{
}

proof fn lemma_prepend(a: Seq<WorkView>, list: Seq<WorkView>)
    requires
        no_write(list),
    ensures
        adds_none(a, list + a),
{
    let b = list + a;
    assert forall|i: int| 0 <= i < b.len() && (#[trigger] b[i]) is Write implies a.contains(
        b[i],
    ) by {
        if i < list.len() {
            assert(b[i] == list[i]);
        } else {
            assert(b[i] == a[i - list.len()]);
        }
    }
}

proof fn lemma_trans(a: Seq<WorkView>, b: Seq<WorkView>, c: Seq<WorkView>)
    requires
        adds_none(a, b),
        adds_none(b, c),
    ensures
        adds_none(a, c),
{
    assert forall|i: int| 0 <= i < c.len() && (#[trigger] c[i]) is Write implies a.contains(
        c[i],
    ) by {
        let j = choose|j: int| 0 <= j < b.len() && b[j] == c[i];
        assert(b[j] is Write);
    }
}

proof fn lemma_popped(v: ClientView)
    requires
        v.todo.len() > 0,
    ensures
        adds_none(v.todo, popped(v).todo),
{
    let b = popped(v).todo;
    assert forall|i: int| 0 <= i < b.len() && (#[trigger] b[i]) is Write implies v.todo.contains(
        b[i],
    ) by {
        assert(b[i] == v.todo[i + 1]);
    }
}

// ---------------------------------------------------------------------------
// Rules that queue no write
// ---------------------------------------------------------------------------

proof fn lemma_emit(v: ClientView, e: EmittedView)
    ensures
        adds_none(v.todo, emit(v, e).todo),
{
    reveal(emit);
    let a = send_all(v, e.messages);
    let b = stream_all(a, e.jobs);
    lemma_send_all(v, e.messages);
    lemma_stream_all(a, e.jobs);
    lemma_note_refused(b, e.refused);
    lemma_self(v.todo);
    lemma_prepend(
        v.todo,
        installs(e.installed) + seq![
            WorkView::RestoreAwaited,
            WorkView::SyncTree,
            WorkView::CheckBarrier,
        ],
    );
}

proof fn lemma_want_blobs(v: ClientView, hashes: Seq<Seq<char>>)
    ensures
        adds_none(v.todo, want_blobs(v, hashes).todo),
{
    reveal(want_blobs);
    let (traffic, e) = pump_wants_rule(enqueue_wants_rule(v.traffic, hashes));
    lemma_emit(ClientView { traffic, ..v }, e);
}

proof fn lemma_send_with(
    v: ClientView,
    key: Uuid,
    needs: Seq<Seq<char>>,
    message: ClientMessageView,
)
    ensures
        adds_none(v.todo, send_with(v, key, needs, message).todo),
{
    reveal(send_with);
    let (traffic, e) = send_rule(v.traffic, key, needs, message);
    lemma_emit(ClientView { traffic, ..v }, e);
}

proof fn lemma_answer_all(v: ClientView, calls: Seq<u64>, e: ErrorView)
    ensures
        answer_all(v, calls, e).todo == v.todo,
    decreases calls.len(),
{
    if calls.len() > 0 {
        lemma_answer_all(v, calls.drop_last(), e);
    }
}

proof fn lemma_fail(v: ClientView, e: ErrorView)
    ensures
        fail(v, e).todo.len() == 0,
{
    reveal(fail);
    lemma_answer_all(ClientView { todo: Seq::empty(), ..v }, rescan_calls(v.todo), e);
}

proof fn lemma_check_barrier(v: ClientView)
    ensures
        check_barrier(v).todo == v.todo,
{
    reveal(check_barrier);
}

proof fn lemma_submit_path(v: ClientView, path: Seq<char>, now_ms: i64)
    ensures
        adds_none(v.todo, submit_path(v, path, now_ms).todo),
{
    reveal(submit_path);
    lemma_self(v.todo);
    if let Some(f) = v.state(path).in_flight {
        let m = ClientMessageView::SubmitOperation { operation: operation_of(v, path, f) };
        lemma_send_with(v, f.operation_id, needs_of(f.desired), m);
    }
}

proof fn lemma_promote_pending(v: ClientView, path: Seq<char>, now_ms: i64, fresh: Uuid)
    ensures
        adds_none(v.todo, promote_pending(v, path, now_ms, fresh).todo),
{
    reveal(promote_pending);
    lemma_self(v.todo);
    let state = v.state(path);
    if let Some(p) = state.pending_local {
        lemma_submit_path(
            v.with_state(
                path,
                StateView {
                    pending_local: None,
                    in_flight: Some(
                        FlightView {
                            operation_id: fresh,
                            base_revision: state.confirmed_revision,
                            base_entry: state.confirmed,
                            desired: p.desired,
                            local_seq: p.local_seq,
                            task_id: p.task_id,
                            sent: false,
                            sent_at_ms: 0,
                        },
                    ),
                    ..state
                },
            ),
            path,
            now_ms,
        );
    }
}

proof fn lemma_flush_path(v: ClientView, path: Seq<char>, now_ms: i64, fresh: Uuid)
    ensures
        adds_none(v.todo, flush_path(v, path, now_ms, fresh).todo),
{
    reveal(flush_path);
    lemma_self(v.todo);
    let state = v.state(path);
    match state.in_flight {
        Some(f) => {
            lemma_submit_path(v, path, now_ms);
            lemma_submit_path(
                v.with_state(
                    path,
                    StateView { in_flight: Some(FlightView { sent: false, ..f }), ..state },
                ),
                path,
                now_ms,
            );
        },
        None => lemma_promote_pending(v, path, now_ms, fresh),
    }
}

proof fn lemma_capture(
    v: ClientView,
    path: Seq<char>,
    entry: Option<EntryView>,
    frozen: Frozen,
    now_ms: i64,
    fresh: Uuid,
)
    ensures
        adds_none(v.todo, capture(v, path, entry, frozen, now_ms, fresh).0.todo),
        !capture(v, path, entry, frozen, now_ms, fresh).1 ==> capture(
            v,
            path,
            entry,
            frozen,
            now_ms,
            fresh,
        ).0 == v && same_state(entry, v.state(path).materialized),
{
    reveal(capture);
    lemma_self(v.todo);
    let state = v.state(path);
    let seq = (v.replica.local_seq + 1) as u64;
    let counted = v.with_replica(ReplicaView { local_seq: seq, ..v.replica });
    if state.conflict_draft is None {
        if state.in_flight is Some {
            lemma_check_barrier(
                counted.with_state(
                    path,
                    StateView {
                        pending_local: Some(
                            PendingView { desired: entry, local_seq: seq, task_id: my_task(v) },
                        ),
                        materialized: entry,
                        ..state
                    },
                ),
            );
        } else {
            let (base_revision, base_entry) = match frozen {
                Some(f) => f,
                None => (state.confirmed_revision, state.confirmed),
            };
            lemma_submit_path(
                counted.with_state(
                    path,
                    StateView {
                        in_flight: Some(
                            FlightView {
                                operation_id: fresh,
                                base_revision,
                                base_entry,
                                desired: entry,
                                local_seq: seq,
                                task_id: my_task(v),
                                sent: false,
                                sent_at_ms: 0,
                            },
                        ),
                        materialized: entry,
                        ..state
                    },
                ),
                path,
                now_ms,
            );
        }
    }
}

proof fn lemma_record_all(v: ClientView, list: Seq<ReportView>)
    ensures
        record_all(v, list).todo == v.todo,
    decreases list.len(),
{
    reveal_with_fuel(record_all, 2);
    reveal(record_oversize);
    if list.len() > 0 {
        lemma_record_all(v, list.drop_last());
    }
}

proof fn lemma_visited(v: ClientView, path: Seq<char>, why: Why, meta: Option<FileMeta>, now_ms: i64)
    ensures
        adds_none(v.todo, visited(v, path, why, meta, now_ms).todo),
{
    lemma_self(v.todo);
    if !settle(v, path, meta, now_ms).1 {
        a_file_being_written_is_left_alone(v, path, why, meta, now_ms);
    } else if meta matches Some(m) && m.kind == MetaKind::File && m.size > v.max_file_size {
        a_file_above_the_limit_is_left_alone(v, path, why, meta->0, now_ms);
    } else {
        reveal(visited);
        reveal(settle);
        reveal(check_oversize);
        reveal(forget_oversize);
        let a = settle(v, path, meta, now_ms).0;
        assert(a.max_file_size == v.max_file_size);
        lemma_prepend(
            v.todo,
            seq![
                WorkView::Read {
                    path,
                    why,
                    frozen: frozen_base(v, path),
                },
            ],
        );
    }
}

proof fn lemma_missing_works(r: ReplicaView, paths: Seq<Seq<char>>, seen: Seq<Seq<char>>)
    ensures
        no_write(missing_works(r, paths, seen)),
    decreases paths.len(),
{
    if paths.len() > 0 {
        lemma_missing_works(r, paths.drop_last(), seen);
    }
}

proof fn lemma_changed_works(list: Seq<Seq<char>>, ignored: Seq<Seq<char>>)
    ensures
        no_write(changed_works(list, ignored)),
    decreases list.len(),
{
    if list.len() > 0 {
        lemma_changed_works(list.drop_last(), ignored);
    }
}

proof fn lemma_repair_works(list: Seq<JournalView>)
    ensures
        no_write(repair_works(list)),
    decreases list.len(),
{
    if list.len() > 0 {
        lemma_repair_works(list.drop_last());
    }
}

proof fn lemma_rebase(
    v: ClientView,
    path: Seq<char>,
    base: Option<EntryView>,
    canonical: Option<EntryView>,
    pending: PendingView,
    merge: Option<MergeView>,
    fresh: Uuid,
)
    ensures
        adds_none(v.todo, rebase(v, path, base, canonical, pending, merge, fresh).todo),
{
    reveal(rebase);
    reveal(install_merged);
    let state = v.state(path);
    lemma_prepend(v.todo, seq![WorkView::Merge { path, base, canonical, pending }]);
    lemma_prepend(v.todo, seq![WorkView::Materialize { path }]);
    lemma_prepend(v.todo, show_works(path));
    if let ReconciledView::Conflict(kind) = reconcile_rule(base, canonical, pending.desired, merge) {
        reveal(clash);
        let needs = conflict_needs(v, state, base, canonical, pending.desired);
        let m = ClientMessageView::ReportConflict {
            report: ReportedConflict {
                id: fresh,
                path,
                kind,
                base_entry: base,
                canonical_entry: canonical,
                incoming_entry: pending.desired,
                latest_local_candidate: pending.desired,
                incoming_task_id: pending.task_id,
            },
        };
        lemma_send_with(v, fresh, needs, m);
        let sent = send_with(v, fresh, needs, m).todo;
        let list = seq![
            WorkView::Restore { path },
            WorkView::Conflicted { path, conflict_id: fresh, in_barrier: false },
        ];
        lemma_prepend(sent, list);
        lemma_trans(v.todo, sent, list + sent);
    }
}

proof fn lemma_full_rescan(v: ClientView, now_ms: i64)
    ensures
        adds_none(v.todo, full_rescan(v, now_ms).todo),
{
    reveal(full_rescan);
    lemma_self(v.todo);
    lemma_prepend(v.todo, seq![WorkView::Rescan]);
}

proof fn lemma_sync_oversize_report(v: ClientView)
    ensures
        sync_oversize_report(v).todo == v.todo,
{
    reveal(sync_oversize_report);
    lemma_check_barrier(
        ClientView { reported_oversize: Some(v.replica.oversize), ..v }.send(
            ClientMessageView::ReportOversize { paths: v.replica.oversize },
        ),
    );
}

proof fn lemma_go_tree(p: ClientView, w: WorkView, now_ms: i64, fresh: Uuid)
    ensures
        adds_none(p.todo, go_tree(p, w, now_ms, fresh).todo),
{
    lemma_self(p.todo);
    match w {
        WorkView::FindMissing { seen } => {
            let list = missing_works(p.replica, paths_of(p.replica.states), seen);
            lemma_missing_works(p.replica, paths_of(p.replica.states), seen);
            lemma_prepend(p.todo, list);
        },
        WorkView::NoteIgnored => {
            reveal(note_ignored);
        },
        WorkView::SyncTree => {
            reveal(sync_working_tree);
            lemma_prepend(p.todo, materialize_works(paths_of(p.replica.states)));
        },
        WorkView::Materialize { path } => {
            reveal(materialize_if_safe);
            lemma_prepend(p.todo, seq![WorkView::Visit { path, why: Why::Materialize }]);
        },
        WorkView::Submit { path } => lemma_submit_path(p, path, now_ms),
        WorkView::Flush => lemma_flush_outbox(p),
        WorkView::FlushPath { path } => lemma_flush_path(p, path, now_ms, fresh),
        WorkView::CheckBarrier => lemma_check_barrier(p),
        WorkView::ReportOversize => lemma_sync_oversize_report(p),
        WorkView::ForgetReport => {
            reveal(forget_report);
            lemma_sync_oversize_report(ClientView { reported_oversize: None, ..p });
        },
        WorkView::Restore { path } => {
            reveal(restore);
            lemma_prepend(p.todo, seq![WorkView::Visit { path, why: Why::Restore }]);
        },
        WorkView::RestoreAwaited => {
            reveal(restore_awaited);
            lemma_prepend(p.todo, restore_works(p.awaiting_restore));
        },
        WorkView::LimitChanged => {
            reveal(limit_changed);
            let start = p.note(limit_note(p.max_file_size)).with_replica(
                ReplicaView { oversize: Seq::empty(), ..p.replica },
            ).first(seq![WorkView::ReportOversize]);
            lemma_prepend(p.todo, seq![WorkView::ReportOversize]);
            lemma_full_rescan(start, now_ms);
            lemma_trans(p.todo, start.todo, full_rescan(start, now_ms).todo);
        },
        WorkView::Changed { raw } => {
            reveal(changed);
            lemma_prepend(p.todo, seq![WorkView::Visit { path: raw, why: Why::Changed }]);
        },
        _ => {},
    }
}

proof fn lemma_flush_outbox(v: ClientView)
    ensures
        adds_none(v.todo, flush_outbox(v).todo),
{
    reveal(flush_outbox);
    lemma_self(v.todo);
    lemma_prepend(v.todo, flush_works(paths_of(v.replica.states)));
}

proof fn lemma_go_session(p: ClientView, w: WorkView, fresh: Uuid)
    ensures
        adds_none(p.todo, go_session(p, w, fresh).todo),
{
    lemma_self(p.todo);
    match w {
        WorkView::InstallAwaited { hash } => {
            reveal(install_awaited);
            lemma_prepend(
                p.todo,
                publish_works(ready_publications(p.awaiting_pack, hash), hash),
            );
        },
        WorkView::Publish { publication, pack } => {
            reveal(publish);
            lemma_prepend(p.todo, seq![WorkView::InstallObjects { publication, pack }]);
        },
        WorkView::Rebase { path, base, canonical, pending } => lemma_rebase(
            p,
            path,
            base,
            canonical,
            pending,
            None,
            fresh,
        ),
        WorkView::Conflicted { path, conflict_id, in_barrier } => {
            reveal(conflict_placed);
        },
        WorkView::Freeze { barrier_id } => {
            reveal(freeze);
            lemma_prepend(p.todo, seq![WorkView::Flush, WorkView::CheckBarrier]);
        },
        WorkView::VerifyJoin => {
            reveal(verify_join);
        },
        WorkView::Drain => {
            reveal(drain);
            let at = due_at(
                p.pending_revisions,
                (p.replica.last_applied_revision + 1) as u64,
            );
            let r = p.pending_revisions[at];
            lemma_prepend(
                p.todo,
                seq![
                    WorkView::Materialize { path: r.path },
                    WorkView::Applied { revision: r.revision },
                    WorkView::Drain,
                ],
            );
        },
        WorkView::AfterWatched { paths } => {
            reveal(after_watched);
            lemma_prepend(p.todo, seq![WorkView::SyncTree]);
        },
        _ => {},
    }
}

proof fn lemma_go_tick(p: ClientView, w: WorkView, now_ms: i64)
    ensures
        adds_none(p.todo, go_tick(p, w, now_ms).todo),
{
    lemma_self(p.todo);
    match w {
        WorkView::TickRescan => {
            reveal(tick_rescan);
            lemma_full_rescan(p, now_ms);
        },
        WorkView::TickWatched => {
            reveal(tick_watched);
            let paths = observed_paths(p.unstable);
            lemma_prepend(p.todo, watched_works(paths) + seq![WorkView::AfterWatched { paths }]);
        },
        WorkView::TickRetry => {
            reveal(tick_retry);
            lemma_prepend(
                p.todo,
                seq![
                    WorkView::Flush,
                    WorkView::ReportOversize,
                    WorkView::SyncTree,
                    WorkView::CheckBarrier,
                ],
            );
            lemma_prepend(
                p.todo,
                seq![WorkView::Flush, WorkView::ReportOversize, WorkView::CheckBarrier],
            );
        },
        WorkView::TickPresence => {
            reveal(tick_presence);
        },
        WorkView::TickHeartbeat => {
            reveal(tick_heartbeat);
        },
        WorkView::TickCollect => {
            reveal(tick_collect);
        },
        _ => {},
    }
}

proof fn lemma_work_failed(v: ClientView, e: ErrorView)
    requires
        v.todo.len() > 0,
    ensures
        adds_none(v.todo, work_failed(v, e).todo),
{
    reveal(work_failed);
    reveal(read_failed);
    reveal(merge_failed);
    let p = popped(v);
    lemma_self(v.todo);
    lemma_popped(v);
    lemma_fail(p, e);
    if let WorkView::Merge { canonical, .. } = v.todo[0] {
        lemma_want_blobs(p, needs_of(canonical));
        lemma_trans(v.todo, p.todo, want_blobs(p, needs_of(canonical)).todo);
    }
}

proof fn lemma_resolve_with(
    v: ClientView,
    call: u64,
    c: ConflictView,
    entry: Option<EntryView>,
    request_id: Uuid,
    operation_id: Uuid,
)
    ensures
        adds_none(v.todo, resolve_with(v, call, c, entry, request_id, operation_id).todo),
{
    reveal(resolve_with);
    lemma_send_with(
        ClientView {
            requests: v.requests.push(PendingRequest { request_id, call }),
            ..v
        },
        request_id,
        needs_of(entry),
        ClientMessageView::ResolveConflict {
            request_id,
            conflict_id: c.id,
            operation_id,
            expected_canonical: v.state(c.path).confirmed,
            resolved_entry: entry,
        },
    );
}

proof fn lemma_publishing(
    v: ClientView,
    p: PublicationView,
    present: bool,
    tree: Option<Seq<char>>,
    current: Option<Seq<char>>,
)
    ensures
        adds_none(v.todo, objects_installed(v, p, present, tree).todo),
        adds_none(v.todo, ref_read(v, p, current).todo),
        adds_none(v.todo, ref_updated(v, p).todo),
        adds_none(v.todo, tree_read(v, p).todo),
{
    reveal(objects_installed);
    reveal(ref_read);
    reveal(ref_updated);
    reveal(tree_read);
    lemma_self(v.todo);
    lemma_prepend(v.todo, seq![WorkView::ReadRef { publication: p }]);
    lemma_prepend(v.todo, seq![WorkView::UpdateRef { publication: p }]);
    lemma_prepend(v.todo, seq![WorkView::ReadTree { publication: p }]);
    if let Some(e) = objects_fault(p, present, tree) {
        lemma_fail(v, e);
    }
}

// ---------------------------------------------------------------------------
// What the queue guarantees
// ---------------------------------------------------------------------------

/// A write that was queued by reading a path: it comes first, it is for that
/// path, the file was found to be what Weave last saw or wrote there, and it is
/// neither still changing nor held back.
pub open spec fn follows_a_look(v: ClientView, r: ReplyView, next: ClientView, at: int) -> bool {
    &&& at == 0
    &&& v.todo[0] matches WorkView::Read { path: p, .. } && {
        &&& next.todo[0] matches WorkView::Write { path: q, .. } && q == p
        &&& r matches ReplyView::Entry(entry) && same_state(entry, v.state(p).materialized)
        &&& observed(next.unstable, p) is None
        &&& !next.replica.is_oversize(p)
        &&& next.state(p) == v.state(p)
    }
}

/// Every write to the working tree follows a look: whatever the work and its
/// outcome, a write is queued only by reading the path it is for, as the very
/// next thing to do, and only when the file held nothing that is not captured.
pub proof fn every_write_follows_a_look(
    v: ClientView,
    r: ReplyView,
    now_ms: i64,
    fresh: Uuid,
    second: Uuid,
    at: int,
)
    requires
        0 <= at < advance(v, r, now_ms, fresh, second).todo.len(),
        advance(v, r, now_ms, fresh, second).todo[at] is Write,
        !v.todo.contains(advance(v, r, now_ms, fresh, second).todo[at]),
    ensures
        follows_a_look(v, r, advance(v, r, now_ms, fresh, second), at),
{
    let next = advance(v, r, now_ms, fresh, second);
    lemma_self(v.todo);
    if v.todo.len() == 0 {
        assert(v.todo.contains(next.todo[at]));
    } else {
        let p = popped(v);
        lemma_popped(v);
        lemma_self(p.todo);
        match (v.todo[0], r) {
            (WorkView::Read { path, why, frozen }, ReplyView::Entry(entry)) => {
                lemma_read(v, path, why, frozen, entry, now_ms, fresh, at);
            },
            _ => {
                lemma_other_work(v, r, now_ms, fresh, second);
                assert(v.todo.contains(next.todo[at]));
            },
        }
    }
}

proof fn lemma_read(
    v: ClientView,
    path: Seq<char>,
    why: Why,
    frozen: Frozen,
    entry: Option<EntryView>,
    now_ms: i64,
    fresh: Uuid,
    at: int,
)
    requires
        v.todo.len() > 0,
        v.todo[0] == (WorkView::Read { path, why, frozen }),
        0 <= at < read_done(popped(v), path, why, frozen, entry, now_ms, fresh).todo.len(),
        read_done(popped(v), path, why, frozen, entry, now_ms, fresh).todo[at] is Write,
        !v.todo.contains(
            read_done(popped(v), path, why, frozen, entry, now_ms, fresh).todo[at],
        ),
    ensures
        follows_a_look(
            v,
            ReplyView::Entry(entry),
            read_done(popped(v), path, why, frozen, entry, now_ms, fresh),
            at,
        ),
{
    reveal(read_done);
    reveal(finish_visit);
    reveal(write_canonical);
    reveal(write_candidate);
    reveal(write_restored);
    let p = popped(v);
    let start = with_content(p, entry);
    let (after, captured) = capture(start, path, entry, frozen, now_ms, fresh);
    let next = read_done(p, path, why, frozen, entry, now_ms, fresh);
    lemma_popped(v);
    lemma_capture(start, path, entry, frozen, now_ms, fresh);
    lemma_trans(v.todo, p.todo, after.todo);
    if captured {
        if let Some(pending) = after.state(path).pending_local {
            let list = seq![
                WorkView::Rebase {
                    path,
                    base: p.state(path).materialized,
                    canonical: candidate(p.state(path)),
                    pending,
                },
            ];
            lemma_prepend(after.todo, list);
            lemma_trans(v.todo, after.todo, list + after.todo);
        }
        assert(adds_none(v.todo, next.todo));
        assert(v.todo.contains(next.todo[at]));
    } else {
        assert(after == start);
        if let Some(e) = after.state(path).confirmed {
            lemma_want_blobs(after, seq![e.blob_hash]);
            lemma_trans(v.todo, p.todo, want_blobs(after, seq![e.blob_hash]).todo);
            let waiting = ClientView {
                awaiting_restore: if after.awaiting_restore.contains(path) {
                    after.awaiting_restore
                } else {
                    after.awaiting_restore.push(path)
                },
                ..after
            };
            lemma_want_blobs(waiting, seq![e.blob_hash]);
            lemma_trans(v.todo, p.todo, want_blobs(waiting, seq![e.blob_hash]).todo);
        }
        if next.todo.len() != p.todo.len() + 1 || at > 0 {
            if next.todo.len() == p.todo.len() + 1 && next.todo.drop_first() =~= p.todo {
                assert(next.todo[at] == p.todo[at - 1]);
                assert(p.todo[at - 1] == v.todo[at]);
            }
            assert(v.todo.contains(next.todo[at]));
        }
    }
}

proof fn lemma_other_work(v: ClientView, r: ReplyView, now_ms: i64, fresh: Uuid, second: Uuid)
    requires
        v.todo.len() > 0,
        !(v.todo[0] is Read && r is Entry),
    ensures
        adds_none(v.todo, advance(v, r, now_ms, fresh, second).todo),
{
    let p = popped(v);
    let w = v.todo[0];
    let next = advance(v, r, now_ms, fresh, second);
    lemma_popped(v);
    lemma_self(v.todo);
    lemma_self(p.todo);
    match (w, r) {
        (_, ReplyView::Go) => {
            reveal(go);
            lemma_go_tree(p, w, now_ms, fresh);
            lemma_go_session(p, w, fresh);
            lemma_go_tick(p, w, now_ms);
            lemma_trans(v.todo, p.todo, go_tree(p, w, now_ms, fresh).todo);
            lemma_trans(v.todo, p.todo, go_session(p, w, fresh).todo);
            lemma_trans(v.todo, p.todo, go_tick(p, w, now_ms).todo);
        },
        (_, ReplyView::Failed(e)) => lemma_work_failed(v, e),
        (WorkView::Rescan, ReplyView::Listed { found, oversize, rejected }) => {
            reveal(scanned);
            lemma_record_all(ClientView { rejected, ..p }, oversize);
            lemma_prepend(
                p.todo,
                visit_works(found) + seq![
                    WorkView::FindMissing { seen: found + report_paths(oversize) },
                    WorkView::NoteIgnored,
                    WorkView::SyncTree,
                ],
            );
            lemma_trans(v.todo, p.todo, next.todo);
        },
        (WorkView::Missing { path }, ReplyView::Exists(yes)) => {
            reveal(missing);
            lemma_prepend(p.todo, seq![WorkView::Visit { path, why: Why::Changed }]);
            lemma_trans(v.todo, p.todo, next.todo);
        },
        (WorkView::Visit { path, why }, ReplyView::Meta(meta)) => {
            lemma_visited(p, path, why, meta, now_ms);
            lemma_trans(v.todo, p.todo, next.todo);
        },
        (WorkView::Write { path, entry, purpose }, ReplyView::Written) => {
            reveal(written);
        },
        (WorkView::InstallObjects { publication, .. }, ReplyView::Objects { present, tree }) => {
            lemma_publishing(p, publication, present, tree, None);
            lemma_trans(v.todo, p.todo, next.todo);
        },
        (WorkView::ReadRef { publication }, ReplyView::Ref(current)) => {
            lemma_publishing(p, publication, true, None, current);
            lemma_trans(v.todo, p.todo, next.todo);
        },
        (WorkView::UpdateRef { publication }, ReplyView::RefMoved) => {
            lemma_publishing(p, publication, true, None, None);
            lemma_trans(v.todo, p.todo, next.todo);
        },
        (WorkView::ReadTree { publication }, ReplyView::TreeRead) => {
            lemma_publishing(p, publication, true, None, None);
            lemma_trans(v.todo, p.todo, next.todo);
        },
        (WorkView::Merge { path, base, canonical, pending }, ReplyView::Merged(m)) => {
            lemma_rebase(p, path, base, canonical, pending, Some(m), fresh);
            lemma_trans(v.todo, p.todo, next.todo);
        },
        (WorkView::GitGuard, ReplyView::Git(g)) => {
            reveal(git_guard);
            let live = ClientView {
                git_problem_pending: false,
                local_state: SyncView::Live,
                ..p
            };
            lemma_full_rescan(live, now_ms);
            lemma_trans(v.todo, p.todo, next.todo);
        },
        (WorkView::ResolveRead { call, conflict }, ReplyView::Entry(entry)) => {
            lemma_resolve_with(with_content(p, entry), call, conflict, entry, fresh, second);
            lemma_trans(v.todo, p.todo, next.todo);
        },
        (WorkView::ResolveIngest { call, conflict, file }, ReplyView::Ingested(i)) => {
            if let Ok(entry) = supplied_entry(conflict, file, i) {
                lemma_resolve_with(
                    with_content(p, Some(entry)),
                    call,
                    conflict,
                    Some(entry),
                    fresh,
                    second,
                );
                lemma_trans(v.todo, p.todo, next.todo);
            }
        },
        _ => {},
    }
}

// ---------------------------------------------------------------------------
// Events
// ---------------------------------------------------------------------------

proof fn lemma_apply_control(v: ClientView, c: ControlView)
    ensures
        adds_none(v.todo, apply_control(v, c).todo),
{
    reveal(apply_control);
    lemma_prepend(v.todo, seq![WorkView::SyncTree, WorkView::LimitChanged]);
    lemma_prepend(v.todo, seq![WorkView::SyncTree]);
    lemma_prepend(v.todo, seq![WorkView::LimitChanged]);
    lemma_prepend(v.todo, Seq::empty());
}

proof fn lemma_apply_manifest(v: ClientView, revision: u64, manifest: Seq<RowView>)
    ensures
        adds_none(v.todo, apply_manifest(v, revision, manifest).todo),
{
    reveal(apply_manifest);
    let known = v.with_replica(
        ReplicaView {
            states: adopted(unconfirmed(v.replica.states, revision), revision, manifest),
            has_manifest: true,
            last_applied_revision: revision,
            ..v.replica
        },
    );
    lemma_want_blobs(
        ClientView {
            pending_revisions: v.pending_revisions.filter(
                |r: RevisionView| r.revision > revision,
            ),
            ..known
        },
        absent_hashes(v.traffic.store, manifest),
    );
}

proof fn lemma_conflicted(v: ClientView, path: Seq<char>, conflict_id: Uuid)
    ensures
        adds_none(v.todo, conflicted(v, path, conflict_id).todo),
{
    reveal(conflicted);
    let list = seq![
        WorkView::Restore { path },
        WorkView::Conflicted { path, conflict_id, in_barrier: true },
        WorkView::CheckBarrier,
    ];
    lemma_self(v.todo);
    lemma_prepend(v.todo, list);
    if let Some(p) = v.state(path).pending_local {
        let m = ClientMessageView::AttachLocalCandidate { conflict_id, entry: p.desired };
        lemma_send_with(v, conflict_id, held_needs(v, p.desired), m);
        let sent = send_with(v, conflict_id, held_needs(v, p.desired), m).todo;
        lemma_prepend(sent, list);
        lemma_trans(v.todo, sent, list + sent);
    }
}

proof fn lemma_operation_result(v: ClientView, operation_id: Uuid, outcome: OutcomeView)
    ensures
        adds_none(v.todo, operation_result(v, operation_id, outcome).todo),
{
    reveal(operation_result);
    lemma_self(v.todo);
    if let Some(row) = flight_of(v.replica.states, operation_id) {
        let path = row.path;
        let state = v.state(path);
        if let Some(f) = state.in_flight {
            match outcome {
                OutcomeView::Rejected { class, message } => {
                    reveal(operation_rejected);
                    lemma_check_barrier(operation_rejected(v, path, class, message));
                },
                _ => {
                    let (revision, canonical) = canonical_of(outcome)->0;
                    let newer = revision >= state.confirmed_revision;
                    let after = StateView {
                        confirmed: if newer {
                            canonical
                        } else {
                            state.confirmed
                        },
                        confirmed_revision: if newer {
                            revision
                        } else {
                            state.confirmed_revision
                        },
                        in_flight: None,
                        ..state
                    };
                    if let OutcomeView::Conflicted { conflict_id, .. } = outcome {
                        lemma_conflicted(v.with_state(path, after), path, conflict_id);
                    }
                    if let Some(pending) = after.pending_local {
                        lemma_prepend(
                            v.todo,
                            seq![
                                WorkView::Rebase { path, base: f.desired, canonical, pending },
                                WorkView::CheckBarrier,
                            ],
                        );
                    }
                    lemma_prepend(
                        v.todo,
                        seq![WorkView::Materialize { path }, WorkView::CheckBarrier],
                    );
                },
            }
        }
    }
}

/// No message of the host queues a write.
pub proof fn no_message_queues_a_write(v: ClientView, m: HostMessageView, now_ms: i64)
    ensures
        adds_none(v.todo, host_message(v, m, now_ms).todo),
{
    lemma_self(v.todo);
    match m {
        HostMessageView::Welcome { session, snapshot_revision, manifest, control, host_state_hash, .. } => {
            reveal(welcomed);
            let met = ClientView {
                session,
                ..v.with_replica(ReplicaView { session: Some(session), ..v.replica })
            };
            lemma_fail(met, manifest_fault());
            let list = if !v.replica.has_manifest {
                seq![WorkView::VerifyJoin] + after_manifest()
            } else {
                after_manifest()
            };
            lemma_prepend(v.todo, list);
            let queued = met.first(list);
            let placed = match manifest {
                Some(rows) => apply_manifest(queued, snapshot_revision, by_path(rows)),
                None => queued,
            };
            if let Some(rows) = manifest {
                lemma_apply_manifest(queued, snapshot_revision, by_path(rows));
                lemma_trans(v.todo, queued.todo, placed.todo);
            }
            lemma_apply_control(placed, control);
            lemma_trans(v.todo, placed.todo, apply_control(placed, control).todo);
        },
        HostMessageView::ManifestSnapshot { snapshot_revision, manifest, host_state_hash } => {
            reveal(snapshot);
            lemma_fail(v, manifest_fault());
            let queued = v.first(after_manifest());
            lemma_prepend(v.todo, after_manifest());
            lemma_apply_manifest(queued, snapshot_revision, by_path(manifest));
            lemma_trans(
                v.todo,
                queued.todo,
                apply_manifest(queued, snapshot_revision, by_path(manifest)).todo,
            );
        },
        HostMessageView::RevisionBroadcast { revision } => {
            reveal(enqueue_revision);
            lemma_prepend(v.todo, seq![WorkView::Drain]);
        },
        HostMessageView::OperationResult { operation_id, outcome } => lemma_operation_result(
            v,
            operation_id,
            outcome,
        ),
        HostMessageView::Control { control } => lemma_apply_control(v, control),
        HostMessageView::BarrierStart { barrier_id } => {
            let list = seq![WorkView::Freeze { barrier_id }];
            lemma_prepend(v.todo, list);
            lemma_full_rescan(v.first(list), now_ms);
            lemma_trans(v.todo, list + v.todo, full_rescan(v.first(list), now_ms).todo);
        },
        HostMessageView::BarrierEnd { barrier_id } => {
            reveal(barrier_ended);
            lemma_flush_outbox(ClientView { barrier: None, ..v });
        },
        HostMessageView::Publication { publication, pack_hash } => {
            reveal(on_publication);
            lemma_prepend(v.todo, seq![WorkView::Publish { publication, pack: pack_hash }]);
            if let Some(hash) = pack_hash {
                lemma_want_blobs(
                    ClientView {
                        awaiting_pack: if is_awaited(v.awaiting_pack, hash, publication.sequence) {
                            v.awaiting_pack
                        } else {
                            v.awaiting_pack.push(AwaitedView { hash, publication })
                        },
                        ..v
                    },
                    seq![hash],
                );
            }
        },
        _ => {
            reveal(complete_request);
        },
    }
}

/// Nor does any command.
pub proof fn no_command_queues_a_write(
    v: ClientView,
    call: u64,
    command: IpcCommand,
    now_ms: i64,
    first: Uuid,
    second: Uuid,
)
    ensures
        adds_none(v.todo, dispatch_rule(v, call, command, now_ms, first, second).todo),
{
    lemma_self(v.todo);
    match command {
        IpcCommand::Rescan => {
            let list = seq![WorkView::AnswerRescan { call }];
            lemma_prepend(v.todo, list);
            lemma_full_rescan(v.first(list), now_ms);
            lemma_trans(v.todo, list + v.todo, full_rescan(v.first(list), now_ms).todo);
        },
        IpcCommand::ConflictResolve { id, source, content_file } => {
            reveal(resolve_conflict);
            if let Ok(c) = find_conflict(v, id@) {
                lemma_prepend(v.todo, seq![WorkView::ResolveRead { call, conflict: c }]);
                match resolution_entry(v, c, source, opt_view(content_file)) {
                    Chosen::Entry(entry) => lemma_resolve_with(v, call, c, entry, first, second),
                    Chosen::File(f) => lemma_prepend(
                        v.todo,
                        seq![WorkView::ResolveIngest { call, conflict: c, file: f }],
                    ),
                    _ => {},
                }
            }
        },
        _ => {
            reveal(show_task);
            reveal(start_task);
            reveal(update_task);
            reveal(end_task);
            reveal(show_conflict);
            reveal(dismiss_conflict);
            reveal(create_commit);
            reveal(ask_host);
        },
    }
}

/// Nor does the clock, the watcher, a connection that comes or goes, content
/// that arrives, or a repair.
pub proof fn no_other_event_queues_a_write(
    v: ClientView,
    now_ms: i64,
    text: Seq<char>,
    raw: Seq<Seq<char>>,
    ignored: Seq<Seq<char>>,
    blob: BlobView,
    free: Option<u64>,
    held: Held,
    frame: Seq<u8>,
)
    ensures
        adds_none(v.todo, tick(v, now_ms).todo),
        adds_none(v.todo, watch_batch(v, raw, ignored).todo),
        adds_none(v.todo, connected(v, text, now_ms).todo),
        adds_none(v.todo, disconnected(v, text).todo),
        adds_none(v.todo, overflowed(v).todo),
        adds_none(v.todo, blob_event(v, blob, free, held).todo),
        adds_none(v.todo, data_event(v, frame).todo),
        adds_none(v.todo, v.first(repair_works(interrupted(v.replica))).todo),
{
    lemma_self(v.todo);
    lemma_tick(v, now_ms);
    reveal(watch_batch);
    lemma_changed_works(raw, ignored);
    lemma_prepend(v.todo, changed_works(raw, ignored));
    lemma_connected(v, text, now_ms);
    reveal(disconnected);
    reveal(blob_event);
    let (traffic, e) = control_rule(v.traffic, blob, free, held);
    lemma_emit(ClientView { traffic, ..v }, e);
    reveal(data_event);
    let (traffic, e) = data_rule(v.traffic, frame);
    lemma_emit(ClientView { traffic, ..v }, e);
    lemma_repair_works(interrupted(v.replica));
    lemma_prepend(v.todo, repair_works(interrupted(v.replica)));
}

proof fn lemma_tick(v: ClientView, now_ms: i64)
    ensures
        adds_none(v.todo, tick(v, now_ms).todo),
{
    reveal(tick);
    let rest = seq![
        WorkView::TickRescan,
        WorkView::TickWatched,
        WorkView::TickRetry,
        WorkView::TickPresence,
        WorkView::TickHeartbeat,
        WorkView::TickCollect,
    ];
    lemma_prepend(v.todo, rest);
    lemma_prepend(v.todo, seq![WorkView::GitGuard] + rest);
}

proof fn lemma_connected(v: ClientView, head: Seq<char>, now_ms: i64)
    ensures
        adds_none(v.todo, connected(v, head, now_ms).todo),
{
    reveal(connected);
    let hello = ClientView {
        attached: true,
        pumping: true,
        connected: true,
        connection_note: "online"@,
        ..v
    }.send(
        ClientMessageView::Hello {
            session_id: v.session.session_id,
            actor_id: v.actor_id,
            display_name: v.display_name,
            git_name: v.git_name,
            git_email: v.git_email,
            base_commit: head,
            branch: v.branch,
            resume: resume_of(v),
        },
    );
    let list = seq![WorkView::ForgetReport];
    let start = hello.first(list);
    lemma_prepend(v.todo, list);
    lemma_full_rescan(start, now_ms);
    let queued = full_rescan(start, now_ms);
    lemma_trans(v.todo, start.todo, queued.todo);
    let (traffic, e) = reconnect_rule(v.traffic);
    let ready = ClientView { traffic, ..queued };
    lemma_emit(ready, e);
    lemma_trans(v.todo, queued.todo, emit(ready, e).todo);
}

} // verus!
