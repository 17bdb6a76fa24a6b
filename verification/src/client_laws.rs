//! What the replica guarantees, whatever happens on disk and on the wire.

use vstd::prelude::*;

use crate::store_host::by_path;
use crate::blobs::missing_blob;
use crate::client_blobs::{
    all_at_host, and_refuse, and_send, enqueue_uploads_rule, enqueue_wants_rule, nothing,
    pump_uploads_from, pump_wants_rule, send_rule, without_needing, DeferredView, EmittedView,
    JobView, TrafficView, UploadView, MAX_CONCURRENT_UPLOADS,
};
use crate::client_rules::{
    answer_all, blockers, capture, check_barrier, check_oversize, client_git_problem, conflicted,
    disconnected, drain, due_at, emit, fail, finish_visit, frozen_base, git_guard, manifest_fault,
    materialize_if_safe, my_task, note_refused, objects_fault, objects_installed, observed,
    operation_rejected, outstanding, publish, read_done, record_oversize, rescan_calls, send_all,
    send_with, settle, snapshot, stream_all, submit_path, visited, want_blobs, with_content,
    BarrierLocal, ClientView, Frozen, Observation, ObservationView, Why, WorkView, MAX_NOTICES,
    STABILITY_THRESHOLD, STABILITY_WINDOW_MS,
};
use crate::error::{ErrorClass, ErrorView};
use crate::host_rules::GitFacts;
use crate::model::{same_state, EntryView, PublicationStage, PublicationView, RevisionView};
use crate::proto::{hash_of_rows, BlobView, ClientMessageView, OversizeReport, ReportView, RowView};
use crate::scan::{FileMeta, MetaKind};
use crate::store_client::{
    a_path_keeps_what_was_put, put_is_found, DraftView, FlightView, PendingView, ReplicaView,
    StateView,
};
use crate::util::Uuid;

verus! {

// ---------------------------------------------------------------------------
// What sending leaves alone
// ---------------------------------------------------------------------------

/// `b` is `a` with other things queued for the outside and other notices.
pub open spec fn only_told(a: ClientView, b: ClientView) -> bool {
    b == ClientView { outbox: b.outbox, notices: b.notices, ..a }
}

pub(crate) proof fn lemma_send_all(v: ClientView, list: Seq<ClientMessageView>)
    ensures
        only_told(v, send_all(v, list)),
    decreases list.len(),
{
    if list.len() > 0 {
        lemma_send_all(v, list.drop_last());
    }
}

pub(crate) proof fn lemma_stream_all(v: ClientView, list: Seq<JobView>)
    ensures
        only_told(v, stream_all(v, list)),
    decreases list.len(),
{
    if list.len() > 0 {
        lemma_stream_all(v, list.drop_last());
    }
}

pub(crate) proof fn lemma_note_refused(v: ClientView, list: Seq<(Seq<char>, Seq<char>)>)
    ensures
        only_told(v, note_refused(v, list)),
    decreases list.len(),
{
    if list.len() > 0 {
        lemma_note_refused(v, list.drop_last());
    }
}

proof fn lemma_emit(v: ClientView, e: EmittedView)
    requires
        e.installed.len() == 0,
    ensures
        only_told(v, emit(v, e)),
{
    reveal(emit);
    let a = send_all(v, e.messages);
    let b = stream_all(a, e.jobs);
    lemma_send_all(v, e.messages);
    lemma_stream_all(a, e.jobs);
    lemma_note_refused(b, e.refused);
}

/// Asking for content leaves what a replica knows alone.
pub(crate) proof fn lemma_want_blobs(v: ClientView, hashes: Seq<Seq<char>>)
    ensures
        want_blobs(v, hashes).replica == v.replica,
{
    reveal(want_blobs);
    reveal(emit);
    let (traffic, e) = pump_wants_rule(enqueue_wants_rule(v.traffic, hashes));
    let start = ClientView { traffic, ..v };
    let a = send_all(start, e.messages);
    let b = stream_all(a, e.jobs);
    lemma_send_all(start, e.messages);
    lemma_stream_all(a, e.jobs);
    lemma_note_refused(b, e.refused);
}

proof fn lemma_offers_install_nothing(v: TrafficView, out: EmittedView)
    requires
        out.installed.len() == 0,
    ensures
        pump_uploads_from(v, out).1.installed.len() == 0,
    decreases v.to_upload.len(),
{
    if v.uploading.len() < MAX_CONCURRENT_UPLOADS && v.to_upload.len() > 0 {
        let hash = v.to_upload[0];
        let rest = TrafficView { to_upload: v.to_upload.drop_first(), ..v };
        if !v.store.contains_key(hash) {
            lemma_offers_install_nothing(
                TrafficView { deferred: without_needing(v.deferred, hash), ..rest },
                and_refuse(out, hash, missing_blob(v.place, hash).message),
            );
        } else {
            let transfer_id = (v.last_id + 1) as u64;
            lemma_offers_install_nothing(
                TrafficView {
                    last_id: transfer_id,
                    uploading: v.uploading.push(UploadView { transfer_id, hash }),
                    ..rest
                },
                and_send(
                    out,
                    ClientMessageView::Blob {
                        blob: BlobView::Offer { transfer_id, hash, size: v.store[hash] },
                    },
                ),
            );
        }
    }
}

/// `b` is `a` with other transfers, other things queued and other notices.
pub open spec fn only_sent(a: ClientView, b: ClientView) -> bool {
    b == ClientView { traffic: b.traffic, outbox: b.outbox, notices: b.notices, ..a }
}

pub(crate) proof fn lemma_send_with(v: ClientView, key: Uuid, needs: Seq<Seq<char>>, m: ClientMessageView)
    ensures
        only_sent(v, send_with(v, key, needs, m)),
{
    reveal(send_with);
    let (traffic, e) = send_rule(v.traffic, key, needs, m);
    let kept = TrafficView {
        deferred: v.traffic.deferred.filter(|d: DeferredView| d.key != key),
        ..v.traffic
    };
    if !all_at_host(needs, v.traffic.at_host) {
        let queued = enqueue_uploads_rule(kept, needs);
        lemma_offers_install_nothing(
            TrafficView {
                deferred: queued.deferred.push(DeferredView { key, needs, message: m }),
                ..queued
            },
            nothing(),
        );
    }
    lemma_emit(ClientView { traffic, ..v }, e);
}

/// Sending the operation of a path only marks it as sent.
pub(crate) proof fn lemma_submit_path(v: ClientView, path: Seq<char>, now_ms: i64)
    ensures
        ({
            let n = submit_path(v, path, now_ms);
            let s = v.state(path);
            let t = n.state(path);
            &&& n == ClientView {
                replica: n.replica,
                traffic: n.traffic,
                outbox: n.outbox,
                notices: n.notices,
                ..v
            }
            &&& n.replica == ReplicaView { states: n.replica.states, ..v.replica }
            &&& t == StateView { in_flight: t.in_flight, ..s }
            &&& (t.in_flight is Some) == (s.in_flight is Some)
            &&& s.in_flight matches Some(f) ==> t.in_flight->0 == FlightView {
                sent: t.in_flight->0.sent,
                sent_at_ms: t.in_flight->0.sent_at_ms,
                ..f
            }
        }),
{
    reveal(submit_path);
    let state = v.state(path);
    match state.in_flight {
        None => {},
        Some(f) => {
            let m = ClientMessageView::SubmitOperation {
                operation: crate::client_rules::operation_of(v, path, f),
            };
            let sent = send_with(v, f.operation_id, crate::client_rules::needs_of(f.desired), m);
            lemma_send_with(v, f.operation_id, crate::client_rules::needs_of(f.desired), m);
            a_path_keeps_what_was_put(
                sent.replica,
                path,
                StateView {
                    in_flight: Some(FlightView { sent: true, sent_at_ms: now_ms, ..f }),
                    ..state
                },
                path,
            );
        },
    }
}

proof fn lemma_check_barrier(v: ClientView)
    ensures
        check_barrier(v) == (ClientView {
            barrier: check_barrier(v).barrier,
            outbox: check_barrier(v).outbox,
            ..v
        }),
{
    reveal(check_barrier);
}

// ---------------------------------------------------------------------------
// No lost edits
// ---------------------------------------------------------------------------

/// Whether a path keeps a candidate under a local number: as a draft, behind
/// an operation, or as the operation in flight.
pub open spec fn keeps(s: StateView, entry: Option<EntryView>, local_seq: u64) -> bool {
    ||| s.conflict_draft matches Some(d) && d.entry == entry && d.local_seq == local_seq
    ||| s.pending_local matches Some(p) && p.desired == entry && p.local_seq == local_seq
    ||| s.in_flight matches Some(f) && f.desired == entry && f.local_seq == local_seq
}

/// Bytes on disk that differ from what Weave last saw there are captured: the
/// path has local work from then on, and keeps exactly what was read under the
/// next local number.
pub proof fn a_capture_is_kept(
    v: ClientView,
    path: Seq<char>,
    entry: Option<EntryView>,
    frozen: Frozen,
    now_ms: i64,
    fresh: Uuid,
)
    requires
        v.replica.local_seq < u64::MAX,
        !same_state(entry, v.state(path).materialized),
    ensures
        ({
            let (n, captured) = capture(v, path, entry, frozen, now_ms, fresh);
            &&& captured
            &&& n.state(path).has_local_work()
            &&& keeps(n.state(path), entry, (v.replica.local_seq + 1) as u64)
            &&& n.state(path).materialized == entry
            &&& n.replica.local_seq == v.replica.local_seq + 1
            &&& n.todo == v.todo
        }),
{
    reveal(capture);
    let state = v.state(path);
    let seq = (v.replica.local_seq + 1) as u64;
    let task_id = my_task(v);
    let counted = v.with_replica(ReplicaView { local_seq: seq, ..v.replica });
    match (state.conflict_draft, state.in_flight) {
        (Some(d), _) => {
            let s = StateView {
                conflict_draft: Some(DraftView { entry, local_seq: seq, ..d }),
                materialized: entry,
                ..state
            };
            a_path_keeps_what_was_put(counted.replica, path, s, path);
        },
        (None, Some(_)) => {
            let s = StateView {
                pending_local: Some(PendingView { desired: entry, local_seq: seq, task_id }),
                materialized: entry,
                ..state
            };
            a_path_keeps_what_was_put(counted.replica, path, s, path);
            lemma_check_barrier(counted.with_state(path, s));
        },
        (None, None) => {
            let (base_revision, base_entry) = match frozen {
                Some(f) => f,
                None => (state.confirmed_revision, state.confirmed),
            };
            let s = StateView {
                in_flight: Some(
                    FlightView {
                        operation_id: fresh,
                        base_revision,
                        base_entry,
                        desired: entry,
                        local_seq: seq,
                        task_id,
                        sent: false,
                        sent_at_ms: 0,
                    },
                ),
                materialized: entry,
                ..state
            };
            a_path_keeps_what_was_put(counted.replica, path, s, path);
            lemma_submit_path(counted.with_state(path, s), path, now_ms);
        },
    }
}

/// A path with local work is never considered for canonical content.
pub proof fn local_work_is_never_overwritten(v: ClientView, path: Seq<char>)
    requires
        v.state(path).has_local_work(),
    ensures
        materialize_if_safe(v, path) == v,
{
    reveal(materialize_if_safe);
}

/// A look at a path that finds bytes Weave has not captured yet captures them
/// and queues no write, however the look came about. Where the file never
/// showed what is in flight, the captured bytes are merged with that.
pub proof fn uncaptured_bytes_are_never_overwritten(
    v: ClientView,
    path: Seq<char>,
    why: Why,
    frozen: Frozen,
    entry: Option<EntryView>,
    now_ms: i64,
    fresh: Uuid,
)
    requires
        v.replica.local_seq < u64::MAX,
        !same_state(entry, v.state(path).materialized),
    ensures
        ({
            let next = read_done(v, path, why, frozen, entry, now_ms, fresh);
            ||| next.todo == v.todo
            ||| {
                &&& next.todo.len() == v.todo.len() + 1
                &&& next.todo[0] is Rebase
                &&& next.todo.drop_first() == v.todo
            }
        }),
        read_done(v, path, why, frozen, entry, now_ms, fresh).state(path).has_local_work(),
        keeps(
            read_done(v, path, why, frozen, entry, now_ms, fresh).state(path),
            entry,
            (v.replica.local_seq + 1) as u64,
        ),
{
    reveal(read_done);
    reveal(finish_visit);
    a_capture_is_kept(with_content(v, entry), path, entry, frozen, now_ms, fresh);
    let (after, _) = capture(with_content(v, entry), path, entry, frozen, now_ms, fresh);
    let next = read_done(v, path, why, frozen, entry, now_ms, fresh);
    if next.todo.len() > v.todo.len() {
        assert(next.todo.drop_first() =~= after.todo);
    }
}

/// A large file that still changes is neither read nor overwritten.
pub proof fn a_file_being_written_is_left_alone(
    v: ClientView,
    path: Seq<char>,
    why: Why,
    meta: Option<FileMeta>,
    now_ms: i64,
)
    requires
        !settle(v, path, meta, now_ms).1,
    ensures
        visited(v, path, why, meta, now_ms).todo == v.todo,
        visited(v, path, why, meta, now_ms).replica == v.replica,
        observed(visited(v, path, why, meta, now_ms).unstable, path) is Some,
{
    reveal(visited);
    reveal(settle);
    reveal(finish_visit);
    lemma_settle_observes(v, path, meta, now_ms);
}

proof fn lemma_settle_observes(v: ClientView, path: Seq<char>, meta: Option<FileMeta>, now_ms: i64)
    requires
        !settle(v, path, meta, now_ms).1,
    ensures
        observed(settle(v, path, meta, now_ms).0.unstable, path) is Some,
        settle(v, path, meta, now_ms).0 == (ClientView {
            unstable: settle(v, path, meta, now_ms).0.unstable,
            ..v
        }),
{
    reveal(settle);
    let m = meta->0;
    let mtime_ms = m.mtime_ms->0;
    match observed(v.unstable, path) {
        Some(o) => {
            let again = ObservationView {
                path,
                size: m.size,
                mtime_ms,
                at_ms: now_ms,
                base_revision: o.base_revision,
                base_entry: o.base_entry,
            };
            put_is_found::<Observation>(v.unstable, again, path);
        },
        None => {
            let fresh = ObservationView {
                path,
                size: m.size,
                mtime_ms,
                at_ms: now_ms,
                base_revision: v.state(path).confirmed_revision,
                base_entry: v.state(path).confirmed,
            };
            put_is_found::<Observation>(v.unstable, fresh, path);
        },
    }
}

/// A file above the limit is neither read nor overwritten: it is recorded, and
/// that is all.
pub proof fn a_file_above_the_limit_is_left_alone(
    v: ClientView,
    path: Seq<char>,
    why: Why,
    meta: FileMeta,
    now_ms: i64,
)
    requires
        meta.kind == MetaKind::File,
        meta.size > v.max_file_size,
    ensures
        visited(v, path, why, Some(meta), now_ms).todo == v.todo,
        visited(v, path, why, Some(meta), now_ms).replica.states == v.replica.states,
        settle(v, path, Some(meta), now_ms).1 ==> visited(
            v,
            path,
            why,
            Some(meta),
            now_ms,
        ).replica.is_oversize(path),
{
    reveal(visited);
    reveal(finish_visit);
    reveal(check_oversize);
    reveal(record_oversize);
    reveal(settle);
    if settle(v, path, Some(meta), now_ms).1 {
        let a = settle(v, path, Some(meta), now_ms).0;
        put_is_found::<OversizeReport>(
            a.replica.oversize,
            ReportView {
                path,
                size: meta.size,
                canonical: a.state(path).confirmed is Some,
            },
            path,
        );
    } else {
        lemma_settle_observes(v, path, Some(meta), now_ms);
    }
}

/// A connection that is gone takes nothing with it: every operation in flight
/// is kept, to be sent again.
pub proof fn a_disconnect_discards_nothing(v: ClientView, reason: Seq<char>, i: int)
    requires
        0 <= i < v.replica.states.len(),
    ensures
        disconnected(v, reason).replica.states.len() == v.replica.states.len(),
        ({
            let was = v.replica.states[i];
            let now = disconnected(v, reason).replica.states[i];
            &&& now.path == was.path
            &&& now.state == StateView { in_flight: now.state.in_flight, ..was.state }
            &&& was.state.in_flight is None ==> now.state.in_flight is None
            &&& was.state.in_flight matches Some(f) ==> now.state.in_flight == Some(
                FlightView { sent: false, ..f },
            )
        }),
{
    reveal(disconnected);
}

/// Refusing an operation never touches what is on disk. A refusal that may
/// pass, or that only lost its base, keeps the work queued.
pub proof fn a_refusal_keeps_the_bytes(
    v: ClientView,
    path: Seq<char>,
    class: ErrorClass,
    message: Seq<char>,
    f: FlightView,
)
    requires
        v.state(path).in_flight == Some(f),
    ensures
        ({
            let n = operation_rejected(v, path, class, message);
            &&& n.todo == v.todo
            &&& n.state(path).materialized == v.state(path).materialized
            &&& n.state(path).conflict_draft == v.state(path).conflict_draft
            &&& (class == ErrorClass::SessionError || class == ErrorClass::NetworkError || class
                == ErrorClass::PersistenceError) ==> n.state(path).in_flight == Some(
                FlightView { sent: false, ..f },
            )
            &&& class == ErrorClass::ProtocolError ==> n.state(path).in_flight is None && n.state(
                path,
            ).pending_local is Some && (v.state(path).pending_local is None ==> n.state(
                path,
            ).pending_local->0.desired == f.desired)
        }),
{
    reveal(operation_rejected);
    let state = v.state(path);
    let retried = StateView { in_flight: Some(FlightView { sent: false, ..f }), ..state };
    let requeued = StateView {
        in_flight: None,
        pending_local: match state.pending_local {
            None => Some(
                PendingView {
                    desired: f.desired,
                    local_seq: f.local_seq,
                    task_id: f.task_id,
                },
            ),
            Some(p) => Some(p),
        },
        ..state
    };
    let ended = StateView { in_flight: None, pending_local: None, ..state };
    a_path_keeps_what_was_put(v.replica, path, retried, path);
    a_path_keeps_what_was_put(v.replica, path, requeued, path);
    a_path_keeps_what_was_put(v.replica, path, ended, path);
}

/// A conflict keeps the newest candidate: it becomes the draft before anything
/// is restored.
pub proof fn a_conflict_keeps_the_newest_candidate(v: ClientView, path: Seq<char>, conflict_id: Uuid)
    ensures
        ({
            let s = v.state(path);
            let d = conflicted(v, path, conflict_id).state(path).conflict_draft;
            &&& d is Some
            &&& d->0.conflict_id == conflict_id
            &&& d->0.entry == (match s.pending_local {
                Some(p) => p.desired,
                None => s.materialized,
            })
        }),
{
    reveal(conflicted);
    let state = v.state(path);
    let attached = match state.pending_local {
        Some(p) => send_with(
            v,
            conflict_id,
            crate::client_rules::held_needs(v, p.desired),
            ClientMessageView::AttachLocalCandidate { conflict_id, entry: p.desired },
        ),
        None => v,
    };
    a_path_keeps_what_was_put(
        attached.replica,
        path,
        StateView {
            pending_local: None,
            conflict_draft: Some(
                DraftView {
                    conflict_id,
                    entry: match state.pending_local {
                        Some(p) => p.desired,
                        None => state.materialized,
                    },
                    local_seq: v.replica.local_seq,
                },
            ),
            ..state
        },
        path,
    );
}

// ---------------------------------------------------------------------------
// Large files
// ---------------------------------------------------------------------------

/// Small files, deletions and anything that is no file never wait.
pub proof fn small_files_never_wait(
    v: ClientView,
    path: Seq<char>,
    meta: Option<FileMeta>,
    now_ms: i64,
)
    requires
        meta matches Some(m) ==> m.kind != MetaKind::File || m.size < STABILITY_THRESHOLD,
    ensures
        settle(v, path, meta, now_ms).1,
{
    reveal(settle);
}

/// A file that nothing has written to for a whole window is finished, every
/// time it is asked about.
pub proof fn a_finished_file_stays_settled(
    v: ClientView,
    path: Seq<char>,
    meta: FileMeta,
    now_ms: i64,
    later_ms: i64,
)
    requires
        meta.mtime_ms matches Some(t) && now_ms - t >= STABILITY_WINDOW_MS,
        now_ms <= later_ms,
    ensures
        settle(v, path, Some(meta), now_ms).1,
        settle(settle(v, path, Some(meta), now_ms).0, path, Some(meta), later_ms).1,
{
    reveal(settle);
}

/// What a growing file is based on is frozen at the first sighting: canonical
/// state that arrives meanwhile competes with it and is no base for it.
pub proof fn a_growing_file_keeps_its_base(
    v: ClientView,
    path: Seq<char>,
    meta: FileMeta,
    now_ms: i64,
)
    requires
        observed(v.unstable, path) is Some,
        !settle(v, path, Some(meta), now_ms).1,
    ensures
        frozen_base(settle(v, path, Some(meta), now_ms).0, path) == frozen_base(v, path),
{
    reveal(settle);
    let o = observed(v.unstable, path)->0;
    let again = ObservationView {
        path,
        size: meta.size,
        mtime_ms: meta.mtime_ms->0,
        at_ms: now_ms,
        base_revision: o.base_revision,
        base_entry: o.base_entry,
    };
    put_is_found::<Observation>(v.unstable, again, path);
}

// ---------------------------------------------------------------------------
// Barriers
// ---------------------------------------------------------------------------

/// A barrier is not answered while content is still arriving, whichever queue
/// holds it up.
pub proof fn a_barrier_waits_for_content(v: ClientView)
    requires
        v.waiting_for_content(),
    ensures
        check_barrier(v) == v,
{
    reveal(check_barrier);
}

/// Nor while an operation at or before the watermark is unanswered.
pub proof fn a_barrier_waits_for_operations(v: ClientView, b: BarrierLocal)
    requires
        v.barrier == Some(b),
        outstanding(v, b.watermark),
    ensures
        check_barrier(v) == v,
{
    reveal(check_barrier);
}

/// A barrier is answered at most once.
pub proof fn a_barrier_is_answered_once(v: ClientView)
    ensures
        check_barrier(check_barrier(v)) == check_barrier(v),
{
    reveal(check_barrier);
}

/// As long as a file is held back, the answer to a barrier is no.
pub proof fn a_held_back_file_blocks_publication(v: ClientView, conflicted: bool)
    requires
        v.replica.oversize.len() > 0,
    ensures
        blockers(v, conflicted).len() > 0,
{
}

/// Work captured after the watermark is not sent until the barrier is over.
pub proof fn work_after_the_watermark_waits(
    v: ClientView,
    path: Seq<char>,
    f: FlightView,
    b: BarrierLocal,
    now_ms: i64,
)
    requires
        v.state(path).in_flight == Some(f),
        v.barrier == Some(b),
        f.local_seq > b.watermark,
    ensures
        submit_path(v, path, now_ms) == v,
{
    reveal(submit_path);
}

// ---------------------------------------------------------------------------
// Revisions
// ---------------------------------------------------------------------------

proof fn lemma_due(list: Seq<RevisionView>, number: u64)
    ensures
        0 <= due_at(list, number) <= list.len(),
        due_at(list, number) < list.len() ==> list[due_at(list, number)].revision == number,
    decreases list.len(),
{
    if list.len() > 0 && list[0].revision != number {
        lemma_due(list.drop_first(), number);
    }
}

/// Revisions are applied strictly in order: whatever came early, only the
/// successor of the last one applied is taken up, and a replica's canonical
/// state never goes back.
pub proof fn revisions_are_applied_in_order(v: ClientView, path: Seq<char>)
    requires
        v.replica.last_applied_revision < u64::MAX,
    ensures
        ({
            let n = drain(v);
            &&& n.replica.last_applied_revision == v.replica.last_applied_revision
            &&& n.state(path).confirmed_revision >= v.state(path).confirmed_revision
            &&& !(n.todo == v.todo) ==> n.todo.len() > 2 && n.todo[1] == (WorkView::Applied {
                revision: (v.replica.last_applied_revision + 1) as u64,
            })
        }),
{
    reveal(drain);
    let last = v.replica.last_applied_revision;
    lemma_due(v.pending_revisions, (last + 1) as u64);
    let at = due_at(v.pending_revisions, (last + 1) as u64);
    if at < v.pending_revisions.len() {
        let r = v.pending_revisions[at];
        let state = v.state(r.path);
        a_path_keeps_what_was_put(
            v.replica,
            r.path,
            StateView { confirmed: r.after, confirmed_revision: r.revision, ..state },
            path,
        );
    }
}

/// A manifest that fails its own hash changes nothing the replica knows.
pub proof fn a_broken_manifest_changes_nothing(
    v: ClientView,
    revision: u64,
    manifest: Seq<RowView>,
    hash: Seq<char>,
)
    requires
        hash_of_rows(by_path(manifest)) != hash,
    ensures
        snapshot(v, revision, manifest, hash).replica == v.replica,
        snapshot(v, revision, manifest, hash).traffic == v.traffic,
{
    reveal(snapshot);
    reveal(fail);
    lemma_answer_all(
        ClientView { todo: Seq::empty(), ..v },
        rescan_calls(v.todo),
        manifest_fault(),
    );
}

proof fn lemma_answer_all(v: ClientView, calls: Seq<u64>, e: ErrorView)
    ensures
        answer_all(v, calls, e) == (ClientView { outbox: answer_all(v, calls, e).outbox, ..v }),
    decreases calls.len(),
{
    if calls.len() > 0 {
        lemma_answer_all(v, calls.drop_last(), e);
    }
}

// ---------------------------------------------------------------------------
// Git
// ---------------------------------------------------------------------------

/// One look at Git is no evidence: a live replica pauses only on a problem
/// that is still there at the following check.
pub proof fn a_problem_has_to_persist(v: ClientView, g: GitFacts, h: GitFacts, now_ms: i64)
    requires
        v.local_state is Live,
        !v.git_problem_pending,
        client_git_problem(v, g) is Some,
    ensures
        git_guard(v, g, now_ms).local_state is Live,
        client_git_problem(v, h) is Some ==> git_guard(git_guard(v, g, now_ms), h, now_ms).local_state
            is Paused,
        client_git_problem(v, h) is None ==> git_guard(git_guard(v, g, now_ms), h, now_ms) == v,
{
    reveal(git_guard);
}

/// Nothing of Git is touched for a publication whose objects are not what was
/// announced.
pub proof fn a_broken_publication_moves_nothing(
    v: ClientView,
    p: PublicationView,
    present: bool,
    tree: Option<Seq<char>>,
)
    requires
        objects_fault(p, present, tree) is Some,
    ensures
        objects_installed(v, p, present, tree).expected_head == v.expected_head,
        objects_installed(v, p, present, tree).replica == v.replica,
        objects_installed(v, p, present, tree).todo.len() == 0,
{
    reveal(objects_installed);
    reveal(fail);
    lemma_answer_all(
        ClientView { todo: Seq::empty(), ..v },
        rescan_calls(v.todo),
        objects_fault(p, present, tree)->0,
    );
}

/// A publication that is installed is not installed again.
pub proof fn an_installed_publication_stays(v: ClientView, p: PublicationView, pack: Option<Seq<char>>)
    requires
        v.replica.stage_of(p.sequence) == Some(PublicationStage::Complete),
    ensures
        publish(v, p, pack).todo == v.todo,
        publish(v, p, pack).replica.journal == v.replica.journal,
        publish(v, p, pack).expected_head == p.descriptor.commit_oid,
{
    reveal(publish);
}

/// A person is not flooded: notices are kept once, and only so many.
pub proof fn notices_are_bounded(v: ClientView, text: Seq<char>)
    requires
        v.notices.len() <= MAX_NOTICES,
    ensures
        v.note(text).notices.len() <= MAX_NOTICES,
        v.notices.contains(text) ==> v.note(text) == v,
{
}

} // verus!
