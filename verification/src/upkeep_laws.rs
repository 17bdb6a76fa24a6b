//! What a replica does by itself: what it repeats and how often, what a look at
//! the tree leads to, and what becomes of work that waited or failed.

use vstd::prelude::*;

use crate::scan::RejectedView;
use crate::client_laws::{lemma_send_with, lemma_submit_path, lemma_want_blobs};
use crate::client_rules::{
    after_watched, barrier_ended, candidate, changed, clash, conflict_note, conflict_placed, drain,
    due_at, fail, finish_visit, forget_oversize, full_rescan, grown_note, held_note, install_merged,
    limit_changed, merge_failed, missing_works, my_task, note_ignored, promote_pending, read_failed,
    record_oversize, rescan_calls, resume_of, scanned, send_with, settled, sighted, tick,
    tick_collect, tick_heartbeat, tick_presence, tick_rescan, tick_retry, tick_watched, want_blobs,
    write_candidate, write_canonical, write_restored, ClientEffectView, ClientView, Observation,
    ObservationView, Purpose, Why, WorkView,
};
use crate::error::{ErrorClass, ErrorView};
use crate::model::{ConflictKind, EntryView, RevisionView, SyncView};
use crate::proto::{ClientMessageView, OversizeReport, ReportView};
use crate::store_client::{
    a_path_keeps_what_was_put, drop_record, flight_ids, put_is_found, record_of, PathRowView,
    PendingView, Placed, ReplicaView, StateView,
};
use crate::util::{content_hash, Uuid};

verus! {

// ---------------------------------------------------------------------------
// The clock
// ---------------------------------------------------------------------------

/// A tick looks after everything there is to look after, and after Git too when
/// three seconds have passed.
pub proof fn a_tick_looks_after_everything(v: ClientView, now_ms: i64)
    ensures
        ({
            let next = tick(v, now_ms);
            let guard = now_ms - v.timers.git_check_ms >= 3000;
            &&& next.todo.contains(WorkView::TickRescan)
            &&& next.todo.contains(WorkView::TickWatched)
            &&& next.todo.contains(WorkView::TickRetry)
            &&& next.todo.contains(WorkView::TickPresence)
            &&& next.todo.contains(WorkView::TickHeartbeat)
            &&& next.todo.contains(WorkView::TickCollect)
            &&& guard ==> next.todo[0] is GitGuard && next.timers.git_check_ms == now_ms
            &&& !guard ==> next.todo[0] is TickRescan && next.timers == v.timers
            &&& next.replica == v.replica
            &&& next.outbox == v.outbox
        }),
{
    reveal(tick);
    let next = tick(v, now_ms);
    let at: int = if now_ms - v.timers.git_check_ms >= 3000 {
        1
    } else {
        0
    };
    assert(next.todo[at] == WorkView::TickRescan);
    assert(next.todo[at + 1] == WorkView::TickWatched);
    assert(next.todo[at + 2] == WorkView::TickRetry);
    assert(next.todo[at + 3] == WorkView::TickPresence);
    assert(next.todo[at + 4] == WorkView::TickHeartbeat);
    assert(next.todo[at + 5] == WorkView::TickCollect);
}

/// The tree is looked through again every fifteen seconds, unless the replica is
/// paused.
pub proof fn the_tree_is_looked_through_in_time(v: ClientView, now_ms: i64)
    ensures
        ({
            let next = tick_rescan(v, now_ms);
            let due = now_ms - v.timers.rescan_ms >= 15000;
            &&& !due ==> next == v
            &&& due ==> next.timers.rescan_ms == now_ms
            &&& due && v.local_state is Live ==> next.todo == seq![WorkView::Rescan] + v.todo
            &&& due && !(v.local_state is Live) ==> next.todo == v.todo
            &&& next.replica == v.replica
        }),
{
    reveal(tick_rescan);
    reveal(full_rescan);
}

/// A replica that is connected says every eight seconds how far it is and what
/// it works on, and proves what it holds where it holds anything.
pub proof fn presence_is_told_in_time(v: ClientView, now_ms: i64)
    requires
        v.attached,
    ensures
        ({
            let next = tick_presence(v, now_ms);
            let due = v.connected && now_ms - v.timers.presence_ms >= 8000;
            let at = v.outbox.len() as int;
            &&& !due ==> next == v
            &&& due ==> next.timers.presence_ms == now_ms && next.outbox.len() == at + if v.replica.has_manifest {
                2int
            } else {
                1int
            }
            &&& due ==> next.outbox[at] == ClientEffectView::Send(
                ClientMessageView::Presence {
                    last_applied_revision: v.replica.last_applied_revision,
                    active_task_id: my_task(v),
                },
            )
            &&& due && v.replica.has_manifest ==> next.outbox[at + 1] == ClientEffectView::Send(
                ClientMessageView::ReplicaHash {
                    revision: v.replica.last_applied_revision,
                    hash: crate::proto::hash_of_rows(v.replica.manifest()),
                },
            )
            &&& next.replica == v.replica
        }),
{
    reveal(tick_presence);
}

/// A connection that is up is tried every fifteen seconds, each time with
/// another number.
pub proof fn a_connection_is_tried_in_time(v: ClientView, now_ms: i64)
    requires
        v.attached,
        v.heartbeat_nonce < u64::MAX,
    ensures
        ({
            let next = tick_heartbeat(v, now_ms);
            let due = v.connected && now_ms - v.timers.heartbeat_ms >= 15000;
            &&& !due ==> next == v
            &&& due ==> next.heartbeat_nonce == v.heartbeat_nonce + 1 && next.timers.heartbeat_ms
                == now_ms && next.outbox == v.outbox.push(
                ClientEffectView::Send(ClientMessageView::Ping { nonce: next.heartbeat_nonce }),
            )
            &&& next.replica == v.replica
        }),
{
    reveal(tick_heartbeat);
}

/// Work that waits is tried again every two seconds; so is the tree where
/// content was lacking.
pub proof fn waiting_work_is_tried_in_time(v: ClientView, now_ms: i64)
    ensures
        ({
            let next = tick_retry(v, now_ms);
            let due = now_ms - v.timers.retry_ms >= 2000;
            &&& !due ==> next == v
            &&& due ==> next.timers.retry_ms == now_ms && next.todo.contains(WorkView::Flush)
                && next.todo.contains(WorkView::ReportOversize) && next.todo.contains(
                WorkView::CheckBarrier,
            )
            &&& due && v.materialization_blocked ==> next.todo.contains(WorkView::SyncTree)
            &&& next.replica == v.replica
        }),
{
    reveal(tick_retry);
    let next = tick_retry(v, now_ms);
    if now_ms - v.timers.retry_ms >= 2000 {
        assert(next.todo[0] == WorkView::Flush);
        assert(next.todo[1] == WorkView::ReportOversize);
        if v.materialization_blocked {
            assert(next.todo[2] == WorkView::SyncTree);
            assert(next.todo[3] == WorkView::CheckBarrier);
        } else {
            assert(next.todo[2] == WorkView::CheckBarrier);
        }
    }
}

/// Content that nothing names is swept every fifteen minutes.
pub proof fn content_is_swept_in_time(v: ClientView, now_ms: i64)
    ensures
        ({
            let next = tick_collect(v, now_ms);
            let due = now_ms - v.timers.gc_ms >= 15 * 60 * 1000;
            &&& !due ==> next == v
            &&& due ==> next.timers.gc_ms == now_ms && next.outbox == v.outbox.push(
                ClientEffectView::Collect,
            )
            &&& next.replica == v.replica
        }),
{
    reveal(tick_collect);
}

/// Every file that was still being written is looked at again, unless the
/// replica is paused.
pub proof fn an_unfinished_file_is_looked_at_again(v: ClientView, i: int)
    requires
        0 <= i < v.unstable.len(),
        v.local_state is Live,
    ensures
        tick_watched(v).todo.contains(
            WorkView::Visit { path: v.unstable[i].path, why: Why::Watched },
        ),
        tick_watched(v).replica == v.replica,
{
    reveal(tick_watched);
    let next = tick_watched(v);
    assert(next.todo[i] == WorkView::Visit { path: v.unstable[i].path, why: Why::Watched });
}

// ---------------------------------------------------------------------------
// The tree
// ---------------------------------------------------------------------------

/// Every file that a look through the tree found is visited, and what was to be
/// done goes on after.
pub proof fn what_was_found_is_visited(
    v: ClientView,
    paths: Seq<Seq<char>>,
    oversize: Seq<ReportView>,
    rejected: Seq<RejectedView>,
    i: int,
)
    requires
        0 <= i < paths.len(),
    ensures
        scanned(v, paths, oversize, rejected).todo[i] == (WorkView::Visit {
            path: paths[i],
            why: Why::Changed,
        }),
        scanned(v, paths, oversize, rejected).todo.contains(WorkView::NoteIgnored),
        scanned(v, paths, oversize, rejected).todo.contains(WorkView::SyncTree),
        scanned(v, paths, oversize, rejected).todo[paths.len() as int] matches WorkView::FindMissing {
            seen,
        } && forall|k: int| 0 <= k < paths.len() ==> seen.contains(#[trigger] paths[k]),
{
    reveal(scanned);
    let next = scanned(v, paths, oversize, rejected);
    let n = paths.len() as int;
    let seen = paths + crate::client_rules::report_paths(oversize);
    assert(next.todo[n] == WorkView::FindMissing { seen });
    assert(next.todo[n + 1] == WorkView::NoteIgnored);
    assert(next.todo[n + 2] == WorkView::SyncTree);
    assert forall|k: int| 0 <= k < paths.len() implies seen.contains(#[trigger] paths[k]) by {
        assert(seen[k] == paths[k]);
    }
}

/// A file is missing exactly when it was not seen though it was on disk or is
/// agreed.
pub proof fn what_was_not_seen_is_missing(
    r: ReplicaView,
    paths: Seq<Seq<char>>,
    seen: Seq<Seq<char>>,
    path: Seq<char>,
)
    ensures
        missing_works(r, paths, seen).contains(WorkView::Missing { path }) == (paths.contains(path)
            && !seen.contains(path) && (r.state(path).materialized is Some || r.state(
            path,
        ).confirmed is Some)),
    decreases paths.len(),
{
    if paths.len() > 0 {
        let front = paths.drop_last();
        what_was_not_seen_is_missing(r, front, seen, path);
        assert(paths =~= front.push(paths.last()));
        crate::text::lemma_push_contains(front, paths.last(), path);
        let before = missing_works(r, front, seen);
        let w = WorkView::Missing { path: paths.last() };
        let x = WorkView::Missing { path };
        let more = before.push(w);
        if before.contains(x) {
            let k = choose|k: int| 0 <= k < before.len() && before[k] == x;
            assert(more[k] == x);
        }
        if more.contains(x) && w != x {
            let k = choose|k: int| 0 <= k < more.len() && more[k] == x;
            assert(before[k] == x);
        }
        assert(more[before.len() as int] == w);
    }
}

/// A file that is being written is remembered as it was seen, on the base it
/// had, beside every other.
pub proof fn a_sighting_is_remembered(
    v: ClientView,
    path: Seq<char>,
    size: u64,
    mtime_ms: i64,
    at_ms: i64,
    base_revision: u64,
    base_entry: Option<EntryView>,
    other: Seq<char>,
)
    ensures
        ({
            let next = sighted(v, path, size, mtime_ms, at_ms, base_revision, base_entry);
            &&& record_of::<Observation>(next.unstable, path) == Some(
                ObservationView { path, size, mtime_ms, at_ms, base_revision, base_entry },
            )
            &&& other != path ==> record_of::<Observation>(next.unstable, other) == record_of::<
                Observation,
            >(v.unstable, other)
            &&& next.replica == v.replica
        }),
{
    let o = ObservationView { path, size, mtime_ms, at_ms, base_revision, base_entry };
    put_is_found::<Observation>(v.unstable, o, path);
    put_is_found::<Observation>(v.unstable, o, other);
}

/// A new limit is told once, forgets what was held back under the old one, and
/// has the tree looked through.
pub proof fn a_new_limit_is_applied_to_the_tree(v: ClientView, now_ms: i64)
    ensures
        limit_changed(v, now_ms).replica.oversize.len() == 0,
        limit_changed(v, now_ms).timers.rescan_ms == now_ms,
        limit_changed(v, now_ms).todo.contains(WorkView::ReportOversize),
        v.local_state is Live ==> limit_changed(v, now_ms).todo[0] is Rescan,
        limit_changed(v, now_ms).replica.states == v.replica.states,
{
    reveal(limit_changed);
    reveal(full_rescan);
    let next = limit_changed(v, now_ms);
    if v.local_state is Live {
        assert(next.todo[1] == WorkView::ReportOversize);
    } else {
        assert(next.todo[0] == WorkView::ReportOversize);
    }
}

/// The newest work of a path is what waits, else what is under way, else what is
/// on disk.
pub proof fn the_newest_work_is_what_waits(s: StateView)
    ensures
        s.pending_local is Some ==> candidate(s) == s.pending_local->0.desired,
        s.pending_local is None && s.in_flight is Some ==> candidate(s) == s.in_flight->0.desired,
        s.pending_local is None && s.in_flight is None ==> candidate(s) == s.materialized,
{
}

/// A file whose conflict was recorded is put back as it is agreed: at once where
/// the content is held, else as soon as it comes; where there is none it is
/// removed.
pub proof fn a_conflicted_file_is_put_back(v: ClientView, path: Seq<char>)
    ensures
        ({
            let next = write_restored(v, path);
            let agreed = v.state(path).confirmed;
            &&& agreed is None || v.holds(agreed->0.blob_hash) ==> next == v.first(
                seq![WorkView::Write { path, entry: agreed, purpose: Purpose::Restore }],
            )
            &&& agreed is Some && !v.holds(agreed->0.blob_hash) ==> next.todo == v.todo
            &&& next.replica == v.replica
        }),
{
    reveal(write_restored);
    match v.state(path).confirmed {
        Some(e) => {
            let waiting = ClientView {
                awaiting_restore: if v.awaiting_restore.contains(path) {
                    v.awaiting_restore
                } else {
                    v.awaiting_restore.push(path)
                },
                ..v
            };
            lemma_want_blobs(waiting, seq![e.blob_hash]);
            lemma_want_keeps_work(waiting, seq![e.blob_hash]);
        },
        None => {},
    }
}

proof fn lemma_want_keeps_work(v: ClientView, hashes: Seq<Seq<char>>)
    ensures
        want_blobs(v, hashes).todo == v.todo,
        want_blobs(v, hashes).awaiting_restore == v.awaiting_restore,
{
    reveal(want_blobs);
    reveal(crate::client_rules::emit);
    let (traffic, e) = crate::client_blobs::pump_wants_rule(
        crate::client_blobs::enqueue_wants_rule(v.traffic, hashes),
    );
    let start = ClientView { traffic, ..v };
    let a = crate::client_rules::send_all(start, e.messages);
    let b = crate::client_rules::stream_all(a, e.jobs);
    crate::client_laws::lemma_send_all(start, e.messages);
    crate::client_laws::lemma_stream_all(a, e.jobs);
    crate::client_laws::lemma_note_refused(b, e.refused);
}

// ---------------------------------------------------------------------------
// Work that waited or failed
// ---------------------------------------------------------------------------

/// Work that waited goes under way as soon as nothing of the same path is and no
/// conflict is open, on what is agreed now; otherwise nothing changes.
pub proof fn waiting_work_goes_under_way(v: ClientView, path: Seq<char>, now_ms: i64, fresh: Uuid)
    ensures
        ({
            let next = promote_pending(v, path, now_ms, fresh);
            let s = v.state(path);
            let t = next.state(path);
            let goes = s.in_flight is None && s.conflict_draft is None && s.pending_local is Some;
            &&& !goes ==> next == v
            &&& goes ==> {
                &&& t.pending_local is None
                &&& t.in_flight is Some
                &&& t.in_flight->0.operation_id == fresh
                &&& t.in_flight->0.desired == s.pending_local->0.desired
                &&& t.in_flight->0.local_seq == s.pending_local->0.local_seq
                &&& t.in_flight->0.task_id == s.pending_local->0.task_id
                &&& t.in_flight->0.base_entry == s.confirmed
                &&& t.in_flight->0.base_revision == s.confirmed_revision
                &&& t.confirmed == s.confirmed
                &&& t.materialized == s.materialized
            }
        }),
{
    reveal(promote_pending);
    let s = v.state(path);
    if s.in_flight is None && s.conflict_draft is None && s.pending_local is Some {
        let p = s.pending_local->0;
        let t = StateView {
            pending_local: None,
            in_flight: Some(
                crate::store_client::FlightView {
                    operation_id: fresh,
                    base_revision: s.confirmed_revision,
                    base_entry: s.confirmed,
                    desired: p.desired,
                    local_seq: p.local_seq,
                    task_id: p.task_id,
                    sent: false,
                    sent_at_ms: 0,
                },
            ),
            ..s
        };
        a_path_keeps_what_was_put(v.replica, path, t, path);
        lemma_submit_path(v.with_state(path, t), path, now_ms);
    }
}

/// Work that cannot be merged becomes a conflict that keeps it: the draft holds
/// what was wanted, and the file is put back as it is agreed.
pub proof fn a_clash_keeps_the_work(
    v: ClientView,
    path: Seq<char>,
    kind: ConflictKind,
    base: Option<EntryView>,
    canonical: Option<EntryView>,
    pending: PendingView,
    fresh: Uuid,
)
    ensures
        ({
            let next = clash(v, path, kind, base, canonical, pending, fresh);
            let s = v.state(path);
            let t = next.state(path);
            &&& t.pending_local is None
            &&& t.conflict_draft is Some
            &&& t.conflict_draft->0.conflict_id == fresh
            &&& t.conflict_draft->0.entry == pending.desired
            &&& t.conflict_draft->0.local_seq == pending.local_seq
            &&& t.in_flight == s.in_flight
            &&& t.confirmed == s.confirmed
            &&& t.materialized == s.materialized
            &&& next.todo == seq![
                WorkView::Restore { path },
                WorkView::Conflicted { path, conflict_id: fresh, in_barrier: false },
            ] + v.todo
        }),
{
    reveal(clash);
    let s = v.state(path);
    let needs = crate::client_rules::conflict_needs(v, s, base, canonical, pending.desired);
    let m = ClientMessageView::ReportConflict {
        report: crate::proto::ReportedConflict {
            id: fresh,
            path,
            kind,
            base_entry: base,
            canonical_entry: canonical,
            incoming_entry: pending.desired,
            latest_local_candidate: pending.desired,
            incoming_task_id: pending.task_id,
        },
    };
    lemma_send_with(v, fresh, needs, m);
    let told = send_with(v, fresh, needs, m);
    let t = StateView {
        pending_local: None,
        conflict_draft: Some(
            crate::store_client::DraftView {
                conflict_id: fresh,
                entry: pending.desired,
                local_seq: pending.local_seq,
            },
        ),
        ..s
    };
    a_path_keeps_what_was_put(told.replica, path, t, path);
}

/// Merged content is held afterwards, under its hash.
pub proof fn merged_content_is_held(v: ClientView, bytes: Seq<u8>)
    ensures
        ({
            let next = install_merged(v, bytes);
            let hash = content_hash(bytes);
            &&& v.holds(hash) ==> next == v
            &&& !v.holds(hash) ==> next.outbox == v.outbox.push(
                ClientEffectView::Install { hash, bytes },
            )
            &&& next.replica == v.replica
            &&& next.todo == v.todo
        }),
{
    reveal(install_merged);
}

/// A barrier that ended is over, and only that one.
pub proof fn a_barrier_that_ended_is_over(v: ClientView, barrier_id: Uuid)
    ensures
        v.barrier is Some && v.barrier->0.barrier_id == barrier_id ==> barrier_ended(
            v,
            barrier_id,
        ).barrier is None,
        !(v.barrier is Some && v.barrier->0.barrier_id == barrier_id) ==> barrier_ended(v, barrier_id)
            == v,
        barrier_ended(v, barrier_id).replica == v.replica,
{
    reveal(barrier_ended);
    reveal(crate::client_rules::flush_outbox);
}

/// A file that cannot be read is named to its owner where it was looked at for
/// its own sake; anywhere else the failure ends the work at hand.
pub proof fn an_unreadable_file_is_named(v: ClientView, path: Seq<char>, e: ErrorView)
    ensures
        ({
            let next = read_failed(v, path, Why::Changed, e);
            &&& next.replica == v.replica
            &&& next.todo == v.todo
            &&& exists|i: int| 0 <= i < next.rejected.len() && (#[trigger] next.rejected[i]).path == path
        }),
        ({
            let next = read_failed(v, path, Why::Watched, e);
            &&& next.replica == v.replica
            &&& next.todo == v.todo
            &&& exists|i: int| 0 <= i < next.rejected.len() && (#[trigger] next.rejected[i]).path == path
        }),
{
    reveal(read_failed);
    reveal(settled);
    let next = read_failed(v, path, Why::Changed, e);
    if !crate::client_rules::is_rejected(v.rejected, path) {
        assert(next.rejected[v.rejected.len() as int].path == path);
    }
    let watched = read_failed(v, path, Why::Watched, e);
    if !crate::client_rules::is_rejected(v.rejected, path) {
        assert(watched.rejected[v.rejected.len() as int].path == path);
    }
}

/// A failure gives up the work at hand and nothing else: broken storage or
/// content stops the replica, any other failure does not; a command that asked
/// gets the error.
pub proof fn a_failure_gives_up_the_work_at_hand(v: ClientView, e: ErrorView)
    requires
        forall|i: int|
            0 <= i < v.todo.len() ==> !((#[trigger] v.todo[i]) is Repaired)
                && !(v.todo[i] is AnswerRescan),
    ensures
        ({
            let next = fail(v, e);
            let broken = e.class == ErrorClass::PersistenceError || e.class
                == ErrorClass::IntegrityError;
            &&& next.todo.len() == 0
            &&& broken ==> next.local_state == (SyncView::Degraded { reason: e.message })
            &&& !broken ==> next.local_state == v.local_state
            &&& next.replica == v.replica
            &&& next.outbox == v.outbox
            &&& next.shutdown == v.shutdown
        }),
{
    reveal(fail);
    lemma_no_calls(v.todo);
}

proof fn lemma_no_calls(list: Seq<WorkView>)
    requires
        forall|i: int| 0 <= i < list.len() ==> !((#[trigger] list[i]) is AnswerRescan),
    ensures
        rescan_calls(list).len() == 0,
    decreases list.len(),
{
    if list.len() > 0 {
        assert(!(list[list.len() - 1] is AnswerRescan));
        let front = list.drop_last();
        assert forall|i: int| 0 <= i < front.len() implies !((#[trigger] front[i])
            is AnswerRescan) by {
            assert(front[i] == list[i]);
        }
        lemma_no_calls(front);
    }
}

/// What a replica says of itself when it comes back: how far it is, what it
/// holds and which operations are under way.
pub proof fn a_replica_says_where_it_left_off(v: ClientView, id: Uuid)
    ensures
        resume_of(v).last_applied_revision == v.replica.last_applied_revision,
        resume_of(v).last_publication_sequence == v.replica.publication_sequence,
        resume_of(v).has_manifest == v.replica.has_manifest,
        resume_of(v).pending_operation_ids.contains(id) == exists|i: int|
            0 <= i < v.replica.states.len() && (#[trigger] v.replica.states[i]).state.in_flight
                is Some && v.replica.states[i].state.in_flight->0.operation_id == id,
{
    lemma_flight_ids(v.replica.states, id);
}

proof fn lemma_flight_ids(list: Seq<PathRowView>, id: Uuid)
    ensures
        flight_ids(list).contains(id) == exists|i: int|
            0 <= i < list.len() && (#[trigger] list[i]).state.in_flight is Some
                && list[i].state.in_flight->0.operation_id == id,
    decreases list.len(),
{
    if list.len() > 0 {
        let front = list.drop_last();
        lemma_flight_ids(front, id);
        let before = flight_ids(front);
        let last = list[list.len() - 1];
        if flight_ids(front).contains(id) {
            let i = choose|i: int|
                0 <= i < front.len() && (#[trigger] front[i]).state.in_flight is Some
                    && front[i].state.in_flight->0.operation_id == id;
            assert(list[i] == front[i]);
            let k = choose|k: int| 0 <= k < before.len() && before[k] == id;
            assert(flight_ids(list)[k] == id);
        }
        if last.state.in_flight is Some {
            let all = flight_ids(list);
            assert(all[before.len() as int] == last.state.in_flight->0.operation_id);
            if all.contains(id) && last.state.in_flight->0.operation_id != id {
                let k = choose|k: int| 0 <= k < all.len() && all[k] == id;
                assert(before[k] == id);
            }
        }
        if exists|i: int|
            0 <= i < list.len() && (#[trigger] list[i]).state.in_flight is Some
                && list[i].state.in_flight->0.operation_id == id {
            let i = choose|i: int|
                0 <= i < list.len() && (#[trigger] list[i]).state.in_flight is Some
                    && list[i].state.in_flight->0.operation_id == id;
            if i < front.len() {
                assert(front[i] == list[i]);
            }
        }
    }
}

// ---------------------------------------------------------------------------
// What is said and remembered
// ---------------------------------------------------------------------------

/// What is noted stands among the notices.
pub proof fn what_is_noted_stands(v: ClientView, text: Seq<char>)
    ensures
        v.note(text).notices.contains(text),
        v.note(text).replica == v.replica,
        v.note(text).todo == v.todo,
{
    if !v.notices.contains(text) {
        let all = v.notices.push(text);
        let next = v.note(text).notices;
        assert(all[v.notices.len() as int] == text);
        if all.len() > 20 {
            assert(next[next.len() - 1] == text);
        }
    }
}

/// A record that is dropped is gone, and every other stays.
pub proof fn a_dropped_record_is_gone<T: Placed>(list: Seq<T::V>, path: Seq<char>, other: Seq<char>)
    ensures
        other != path ==> record_of::<T>(drop_record::<T>(list, path), other) == record_of::<T>(
            list,
            other,
        ),
        (forall|i: int, j: int|
            0 <= i < j < list.len() ==> T::place_of(#[trigger] list[i]) != T::place_of(
                #[trigger] list[j],
            )) ==> record_of::<T>(drop_record::<T>(list, path), path) is None,
    decreases list.len(),
{
    reveal_with_fuel(record_of, 2);
    if list.len() > 0 {
        let rest = list.drop_first();
        a_dropped_record_is_gone::<T>(rest, path, other);
        let next = drop_record::<T>(list, path);
        let once = forall|i: int, j: int|
            0 <= i < j < list.len() ==> T::place_of(#[trigger] list[i]) != T::place_of(
                #[trigger] list[j],
            );
        if T::place_of(list[0]) == path {
            assert(next =~= rest);
            if once {
                assert forall|i: int| 0 <= i < rest.len() implies T::place_of(#[trigger] rest[i])
                    != path by {
                    assert(rest[i] == list[i + 1]);
                    assert(T::place_of(list[0]) != T::place_of(list[i + 1]));
                }
                lemma_no_record::<T>(rest, path);
            }
        } else {
            assert(next[0] == list[0]);
            assert(next.drop_first() =~= drop_record::<T>(rest, path));
            if once {
                assert forall|i: int, j: int| 0 <= i < j < rest.len() implies T::place_of(
                    #[trigger] rest[i],
                ) != T::place_of(#[trigger] rest[j]) by {
                    assert(rest[i] == list[i + 1]);
                    assert(rest[j] == list[j + 1]);
                }
            }
        }
    }
}

proof fn lemma_no_record<T: Placed>(list: Seq<T::V>, path: Seq<char>)
    requires
        forall|i: int| 0 <= i < list.len() ==> T::place_of(#[trigger] list[i]) != path,
    ensures
        record_of::<T>(list, path) is None,
    decreases list.len(),
{
    if list.len() > 0 {
        assert(T::place_of(list[0]) != path);
        let rest = list.drop_first();
        assert forall|i: int| 0 <= i < rest.len() implies T::place_of(#[trigger] rest[i])
            != path by {
            assert(rest[i] == list[i + 1]);
        }
        lemma_no_record::<T>(rest, path);
    }
}

/// A file above the limit is reported with its size and whether the session holds
/// it, and its owner is told the first time; every other report stays.
pub proof fn a_file_above_the_limit_is_reported(
    v: ClientView,
    path: Seq<char>,
    size: u64,
    other: Seq<char>,
)
    ensures
        ({
            let next = record_oversize(v, path, size);
            let canonical = v.state(path).confirmed is Some;
            &&& record_of::<OversizeReport>(next.replica.oversize, path) == Some(
                ReportView { path, size, canonical },
            )
            &&& other != path ==> record_of::<OversizeReport>(next.replica.oversize, other)
                == record_of::<OversizeReport>(v.replica.oversize, other)
            &&& !v.replica.is_oversize(path) && canonical ==> next.notices.contains(
                grown_note(path, size, v.max_file_size),
            )
            &&& !v.replica.is_oversize(path) && !canonical ==> next.notices.contains(
                held_note(path, size, v.max_file_size),
            )
            &&& next.replica.states == v.replica.states
        }),
{
    reveal(record_oversize);
    let r = ReportView { path, size, canonical: v.state(path).confirmed is Some };
    put_is_found::<OversizeReport>(v.replica.oversize, r, path);
    put_is_found::<OversizeReport>(v.replica.oversize, r, other);
    let kept = v.with_replica(
        ReplicaView {
            oversize: crate::store_client::put_record::<OversizeReport>(v.replica.oversize, r),
            ..v.replica
        },
    );
    what_is_noted_stands(kept, grown_note(path, size, v.max_file_size));
    what_is_noted_stands(kept, held_note(path, size, v.max_file_size));
}

/// A file that is within the limit again is no longer reported, which its owner
/// is told; every other report stays.
pub proof fn a_file_within_the_limit_is_forgotten(v: ClientView, path: Seq<char>, other: Seq<char>)
    requires
        forall|i: int, j: int|
            0 <= i < j < v.replica.oversize.len() ==> (#[trigger] v.replica.oversize[i]).path != (
            #[trigger] v.replica.oversize[j]).path,
    ensures
        !forget_oversize(v, path).replica.is_oversize(path),
        other != path ==> forget_oversize(v, path).replica.is_oversize(other)
            == v.replica.is_oversize(other),
        v.replica.is_oversize(path) ==> forget_oversize(v, path).notices.contains(
            path + " is within the session file size limit again and is synchronized normally."@,
        ),
        forget_oversize(v, path).replica.states == v.replica.states,
{
    reveal(forget_oversize);
    a_dropped_record_is_gone::<OversizeReport>(v.replica.oversize, path, other);
    let kept = v.with_replica(
        ReplicaView {
            oversize: drop_record::<OversizeReport>(v.replica.oversize, path),
            ..v.replica
        },
    );
    what_is_noted_stands(
        kept,
        path + " is within the session file size limit again and is synchronized normally."@,
    );
}

/// A merge whose content is lost asks for it again; any other failure of a merge
/// ends the work at hand.
pub proof fn a_merge_without_content_asks_for_it(
    v: ClientView,
    canonical: Option<EntryView>,
    e: ErrorView,
)
    ensures
        e.class == ErrorClass::IntegrityError && canonical is Some ==> merge_failed(v, canonical, e)
            == want_blobs(v, seq![canonical->0.blob_hash]),
        e.class != ErrorClass::IntegrityError ==> merge_failed(v, canonical, e) == fail(v, e),
{
    reveal(merge_failed);
}

/// A visit that captured nothing goes on with what it was made for, unless the
/// file is still being written or above the limit.
pub proof fn a_visit_ends_in_what_it_was_for(v: ClientView, path: Seq<char>, why: Why, captured: bool)
    ensures
        ({
            let next = finish_visit(v, path, why, captured);
            let stays = captured || record_of::<Observation>(v.unstable, path) is Some
                || v.replica.is_oversize(path);
            &&& stays ==> next == v
            &&& !stays && (why is Changed || why is Watched) ==> next == v
            &&& !stays && why is Materialize ==> next == write_canonical(v, path)
            &&& !stays && why is Rebase ==> next == write_candidate(v, path)
            &&& !stays && why is Restore ==> next == write_restored(v, path)
        }),
{
    reveal(finish_visit);
}

/// Once a file that was being written holds still, the tree is brought up to
/// date; until then nothing is.
pub proof fn a_settled_file_brings_the_tree_up_to_date(v: ClientView, paths: Seq<Seq<char>>)
    ensures
        (exists|i: int|
            0 <= i < paths.len() && record_of::<Observation>(v.unstable, #[trigger] paths[i]) is None)
            ==> after_watched(v, paths).todo == seq![WorkView::SyncTree] + v.todo,
        (forall|i: int|
            0 <= i < paths.len() ==> record_of::<Observation>(v.unstable, #[trigger] paths[i]) is Some)
            ==> after_watched(v, paths) == v,
{
    reveal(after_watched);
    if exists|i: int|
        0 <= i < paths.len() && record_of::<Observation>(v.unstable, #[trigger] paths[i]) is None {
        let i = choose|i: int|
            0 <= i < paths.len() && record_of::<Observation>(v.unstable, #[trigger] paths[i]) is None;
        assert(crate::client_rules::observed(v.unstable, paths[i]) is None);
    }
    if forall|i: int|
        0 <= i < paths.len() ==> record_of::<Observation>(v.unstable, #[trigger] paths[i]) is Some {
        assert forall|i: int| 0 <= i < paths.len() implies crate::client_rules::observed(
            v.unstable,
            #[trigger] paths[i],
        ) is Some by {
        }
    }
}

/// A change of a file is looked at where its path is valid; otherwise the path is
/// named.
pub proof fn a_change_is_looked_at(v: ClientView, raw: Seq<char>)
    ensures
        crate::path::path_fault(raw) is None ==> changed(v, raw).todo == seq![
            WorkView::Visit { path: raw, why: Why::Changed },
        ] + v.todo,
        crate::path::path_fault(raw) is Some ==> changed(v, raw).todo == v.todo && exists|i: int|
            0 <= i < changed(v, raw).rejected.len() && (#[trigger] changed(v, raw).rejected[i]).path
                == raw,
        changed(v, raw).replica == v.replica,
{
    reveal(changed);
    if crate::path::path_fault(raw) is Some && !crate::client_rules::is_rejected(v.rejected, raw) {
        assert(changed(v, raw).rejected[v.rejected.len() as int].path == raw);
    }
}

/// A conflict is told to whoever's work met it, and one from before a barrier
/// counts against that barrier.
pub proof fn a_conflict_is_told(v: ClientView, path: Seq<char>, conflict_id: Uuid, in_barrier: bool)
    ensures
        ({
            let next = conflict_placed(v, path, conflict_id, in_barrier);
            &&& next.barrier is Some == v.barrier is Some
            &&& v.barrier is Some && in_barrier ==> next.barrier->0.conflicted
            &&& v.barrier is Some && !in_barrier ==> next.barrier == v.barrier
            &&& v.barrier is Some ==> next.barrier->0.watermark == v.barrier->0.watermark
                && next.barrier->0.barrier_id == v.barrier->0.barrier_id
            &&& next.notices.contains(conflict_note(path, conflict_id))
            &&& next.replica == v.replica
        }),
{
    reveal(conflict_placed);
    let placed = ClientView {
        barrier: match v.barrier {
            Some(b) => if in_barrier {
                Some(crate::client_rules::BarrierLocal { conflicted: true, ..b })
            } else {
                Some(b)
            },
            None => None,
        },
        ..v
    };
    what_is_noted_stands(placed, conflict_note(path, conflict_id));
}

/// Paths that came to be ignored are told of once, all of them.
pub proof fn ignored_paths_are_told_of_once(v: ClientView)
    ensures
        v.ignored.len() == 0 ==> note_ignored(v) == v,
        v.ignored.len() > 0 ==> note_ignored(v).ignored.len() == 0 && note_ignored(
            v,
        ).notices.contains(
            crate::text::decimal(v.ignored.len())
                + " path(s) are now Git-ignored and no longer synchronized: "@ + crate::text::join(
                v.ignored,
                ", "@,
            ),
        ),
        note_ignored(v).replica == v.replica,
{
    reveal(note_ignored);
    let cleared = ClientView { ignored: Seq::empty(), ..v };
    what_is_noted_stands(
        cleared,
        crate::text::decimal(v.ignored.len())
            + " path(s) are now Git-ignored and no longer synchronized: "@ + crate::text::join(
            v.ignored,
            ", "@,
        ),
    );
}

/// The next revision in turn is agreed for its path, unless something newer is,
/// and the file is brought up to date; where one is missing the manifest is asked
/// for.
pub proof fn the_next_revision_is_agreed(v: ClientView, r: RevisionView)
    requires
        v.pending_revisions == seq![r],
        r.revision == v.replica.last_applied_revision + 1,
    ensures
        ({
            let next = drain(v);
            let s = v.state(r.path);
            let t = next.state(r.path);
            &&& next.pending_revisions.len() == 0
            &&& r.revision > s.confirmed_revision ==> t.confirmed == r.after && t.confirmed_revision
                == r.revision
            &&& r.revision <= s.confirmed_revision ==> t == s
            &&& t.in_flight == s.in_flight && t.pending_local == s.pending_local && t.materialized
                == s.materialized && t.conflict_draft == s.conflict_draft
            &&& next.todo == seq![
                WorkView::Materialize { path: r.path },
                WorkView::Applied { revision: r.revision },
                WorkView::Drain,
            ] + v.todo
        }),
{
    reveal(drain);
    reveal_with_fuel(due_at, 2);
    let s = v.state(r.path);
    assert(v.pending_revisions[0] == r);
    a_path_keeps_what_was_put(
        v.replica,
        r.path,
        StateView { confirmed: r.after, confirmed_revision: r.revision, ..s },
        r.path,
    );
}

} // verus!
