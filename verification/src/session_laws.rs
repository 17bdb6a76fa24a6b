//! What the coordinator does with a request: who is let in, what becomes of an
//! operation, a conflict and a task, and who hears of it.

use vstd::prelude::*;

use crate::error::ErrorClass;
use crate::host_requests::lemma_with_conn;
use crate::host_rules::{
    aged_scope, apply_rule, attach_rule, conn_of, credited, dismiss_rule, effective_task_of,
    git_state_rule, hello_fault, host_git_problem, install_rule, known_conns, limit_rule,
    needs_snapshot, online_peers, oversize_rule, place_peer, reconciled, replica_hash_rule,
    report_rule, resolution_fault, resolve_rule, sort_peers, task_fault, task_finish_rule,
    task_start_rule, task_update_rule, with_offline, ConnView, EffectView, GitFacts, HelloView,
    HostView, ResolutionView,
};
use crate::model::{
    Conflict, ConflictStatus, ConflictView, EntryView, OperationView, OutcomeView, PeerView,
    ScopeView, Task, TaskStatus, TaskView,
};
use crate::proto::{
    hash_of_rows, HostMessageView, OversizeView, ReportView, ReportedConflict, ResumeView, RowView,
};
use crate::reconcile::{apart, reconcile_rule, MergeView, ReconciledView};
use crate::store_host::{
    active_for, colliding, found, lemma_replay_in_order, row_of, set_row_changes_one_path,
    stored_is_found, ActorView, StoreView,
};
use crate::text::text_le;
use crate::path::key_of;
use crate::util::{content_hash, Uuid};

verus! {

/// Whether a message is among what is sent from a position on.
pub open spec fn is_told(outbox: Seq<EffectView>, from: int, to: Seq<u64>, message: HostMessageView) -> bool {
    exists|k: int|
        from <= k < outbox.len() && #[trigger] outbox[k] == (EffectView::Send { to, message })
}

/// All that is sent is an error, to one connection.
pub open spec fn only_an_error(before: Seq<EffectView>, after: Seq<EffectView>, conn_id: u64) -> bool {
    after.len() == before.len() + 1 && match after[before.len() as int] {
        EffectView::Send { to, message } => to == seq![conn_id] && message is Error,
        _ => false,
    }
}

proof fn lemma_told(outbox: Seq<EffectView>, from: int, k: int, to: Seq<u64>, message: HostMessageView)
    requires
        from <= k < outbox.len(),
        outbox[k] == (EffectView::Send { to, message }),
    ensures
        is_told(outbox, from, to, message),
{
}

// ---------------------------------------------------------------------------
// Hello
// ---------------------------------------------------------------------------

/// Whoever says hello is let in exactly when the session and the branch are
/// right and, the first time, the commit is the session's base or the one
/// published last.
pub proof fn whoever_fits_the_session_is_let_in(h: HostView, x: HelloView)
    ensures
        (hello_fault(h, x) is None) == {
            &&& x.session_id == h.session.session_id
            &&& x.branch == h.branch
            &&& x.resume.has_manifest || x.base_commit == h.session.base_commit || (
            h.store.publications.len() > 0 && h.store.publications.last().descriptor.commit_oid
                == x.base_commit)
        },
        hello_fault(h, x) matches Some(e) ==> (e.class == ErrorClass::SessionError) == (x.session_id
            != h.session.session_id) && (e.class == ErrorClass::RepositoryError) == (x.session_id
            == h.session.session_id),
{
}

/// A client gets the whole manifest exactly when replaying revisions cannot
/// bring it up to date: it has none, claims a revision the host has not reached,
/// is more than five thousand behind, or claims the newest with another state.
pub proof fn a_manifest_is_sent_where_replay_will_not_do(h: HostView, r: ResumeView)
    ensures
        needs_snapshot(h, r) == {
            ||| !r.has_manifest
            ||| r.last_applied_revision as int > h.store.revision() as int
            ||| h.store.revision() as int - r.last_applied_revision as int > 5000
            ||| r.last_applied_revision == h.store.revision() && r.replica_hash.len() > 0
                && r.replica_hash != hash_of_rows(h.store.rows)
        },
{
}

/// A replica that claims the newest revision with another state is sent the
/// manifest, and nobody else is.
pub proof fn a_diverged_replica_is_sent_the_manifest(
    h: HostView,
    conn_id: u64,
    revision: u64,
    hash: Seq<char>,
)
    ensures
        ({
            let next = replica_hash_rule(h, conn_id, revision, hash);
            let diverged = revision == h.store.revision() && hash != hash_of_rows(h.store.rows);
            &&& next.store == h.store
            &&& !diverged ==> next == h
            &&& diverged ==> is_told(
                next.outbox,
                h.outbox.len() as int,
                seq![conn_id],
                HostMessageView::ManifestSnapshot {
                    snapshot_revision: h.store.revision(),
                    manifest: h.store.rows,
                    host_state_hash: hash_of_rows(h.store.rows),
                },
            )
        }),
{
    let next = replica_hash_rule(h, conn_id, revision, hash);
    if next.outbox.len() > h.outbox.len() {
        assert(next.outbox[h.outbox.len() as int] == next.outbox.last());
    }
}

// ---------------------------------------------------------------------------
// Git
// ---------------------------------------------------------------------------

/// Git is as the session expects it exactly on its branch, at its commit, with
/// nothing staged. A live session pauses where it is not, a paused one resumes
/// where it is again, and everybody hears of either.
pub proof fn a_session_pauses_while_git_is_not_as_expected(h: HostView, g: GitFacts)
    ensures
        ({
            let right = g.branch == Some(h.branch) && g.head == h.expected_head && !g.staged;
            let next = git_state_rule(h, g);
            &&& (host_git_problem(h, g) is None) == right
            &&& h.state is Live ==> (next.state is Live) == right && (next.state is Paused)
                == !right
            &&& h.state is Paused && right ==> next.state is Live
            &&& h.state is Paused && !right ==> next.state == h.state
            &&& h.state is Degraded ==> next == h
            &&& next.state != h.state ==> is_told(
                next.outbox,
                h.outbox.len() as int,
                known_conns(h.conns),
                HostMessageView::HostState { state: next.state },
            )
            &&& next.state == h.state ==> next.outbox == h.outbox
            &&& next.store == h.store
        }),
{
    let next = git_state_rule(h, g);
    if next.outbox.len() > h.outbox.len() {
        assert(next.outbox[h.outbox.len() as int] == next.outbox.last());
    }
}

// ---------------------------------------------------------------------------
// Operations
// ---------------------------------------------------------------------------

/// Content is in place exactly when it is held already, or supplied in the
/// declared size under its own hash.
pub proof fn content_is_taken_only_as_declared(h: HostView, e: EntryView, content: Option<Seq<u8>>)
    ensures
        ({
            let (next, fault) = install_rule(h, e, content);
            let held = h.blobs.contains_key(e.blob_hash);
            let supplied = content is Some && content->0.len() == e.size && content_hash(content->0)
                == e.blob_hash;
            &&& (fault is None) == (held || supplied)
            &&& fault is None ==> next.blobs.contains_key(e.blob_hash)
            &&& fault is Some || held ==> next == h
            &&& !held && supplied ==> next.blobs == h.blobs.insert(e.blob_hash, e.size)
                && next.outbox.last() == (EffectView::Install {
                hash: e.blob_hash,
                bytes: content->0,
            })
            &&& next.store == h.store
        }),
{
}

/// A path that differs from one in the manifest only in what file systems may
/// confuse cannot be added.
proof fn lemma_colliding(list: Seq<RowView>, path: Seq<char>)
    ensures
        (colliding(list, path) is Some) == exists|i: int|
            0 <= i < list.len() && (#[trigger] list[i]).path != path && key_of(list[i].path)
                == key_of(path),
    decreases list.len(),
{
    if list.len() > 0 {
        let rest = list.drop_first();
        lemma_colliding(rest, path);
        if exists|i: int|
            0 <= i < rest.len() && (#[trigger] rest[i]).path != path && key_of(rest[i].path) == key_of(
                path,
            ) {
            let i = choose|i: int|
                0 <= i < rest.len() && (#[trigger] rest[i]).path != path && key_of(rest[i].path)
                    == key_of(path);
            assert(list[i + 1] == rest[i]);
        }
        if exists|i: int|
            0 <= i < list.len() && (#[trigger] list[i]).path != path && key_of(list[i].path) == key_of(
                path,
            ) {
            let i = choose|i: int|
                0 <= i < list.len() && (#[trigger] list[i]).path != path && key_of(list[i].path)
                    == key_of(path);
            if i > 0 {
                assert(rest[i - 1] == list[i]);
            }
        }
    }
}

/// Whether an operation can be taken up at all: its file is not too large, its
/// content is at hand or supplied as declared, its base is what the log says the
/// path was at that revision, and a new path collides with none.
pub open spec fn can_be_taken_up(h: HostView, op: OperationView) -> bool {
    let now = row_of(h.store.rows, op.path);
    let then = if op.base_revision as int >= h.store.log.len() {
        now
    } else {
        row_of(
            crate::store_host::replay(h.store.base, h.store.log.take(op.base_revision as int)),
            op.path,
        )
    };
    &&& op.desired_entry is Some ==> {
        let e = op.desired_entry->0;
        &&& e.size <= 10 * 1024 * 1024
        &&& h.blobs.contains_key(e.blob_hash) || (op.content is Some && op.content->0.len() == e.size
            && content_hash(op.content->0) == e.blob_hash)
    }
    &&& op.base_revision <= h.store.revision()
    &&& !apart(then, op.base_entry)
    &&& op.desired_entry is Some && now is None ==> forall|i: int|
        0 <= i < h.store.rows.len() ==> !((#[trigger] h.store.rows[i]).path != op.path && key_of(
            h.store.rows[i].path,
        ) == key_of(op.path))
}

/// An operation fails exactly when it cannot be taken up; otherwise what it came
/// to depends on the three states of its path alone.
pub proof fn an_operation_is_refused_only_for_a_cause(
    h: HostView,
    conn_id: u64,
    actor_id: Uuid,
    op: OperationView,
    merge: Option<MergeView>,
    now_ms: i64,
    fresh: Uuid,
)
    requires
        h.store.log.len() < u64::MAX,
    ensures
        (apply_rule(h, conn_id, actor_id, op, merge, now_ms, fresh).1 is Failed)
            == !can_be_taken_up(h, op),
{
    lemma_colliding(h.store.rows, op.path);
    if let Some(e) = op.desired_entry {
        content_is_taken_only_as_declared(h, e, op.content);
    }
}

/// What becomes of an operation that can be taken up: accepted, it is the newest
/// revision and its path is what was agreed; converged, nothing changes; in
/// conflict, canonical state stays and everything at stake is kept. Its sender
/// hears which.
pub proof fn an_operation_does_what_was_agreed(
    h: HostView,
    conn_id: u64,
    actor_id: Uuid,
    op: OperationView,
    merge: Option<MergeView>,
    now_ms: i64,
    fresh: Uuid,
)
    requires
        h.store.ok(),
        h.store.log.len() + 1 < u64::MAX,
        can_be_taken_up(h, op),
    ensures
        ({
            let next = apply_rule(h, conn_id, actor_id, op, merge, now_ms, fresh).0;
            let now = row_of(h.store.rows, op.path);
            let n = h.store.log.len() as int;
            let m = h.outbox.len() as int;
            match reconcile_rule(op.base_entry, now, op.desired_entry, merge) {
                ReconciledView::Accept { entry, merged } => {
                    let r = next.store.log.last();
                    &&& next.store.log.len() == n + 1
                    &&& next.store.log.take(n) == h.store.log
                    &&& r.revision == n + 1
                    &&& r.path == op.path
                    &&& r.before == now
                    &&& r.after == entry
                    &&& r.actor_id == actor_id
                    &&& r.operation_id == op.operation_id
                    &&& r.timestamp_ms == now_ms
                    &&& r.task_id is Some ==> r.task_id == op.task_id
                    &&& row_of(next.store.rows, op.path) == entry
                    &&& next.store.conflicts == h.store.conflicts
                    &&& exists|o: OutcomeView|
                        {
                            &&& #[trigger] is_told(
                                next.outbox,
                                m,
                                seq![conn_id],
                                HostMessageView::OperationResult {
                                    operation_id: op.operation_id,
                                    outcome: o,
                                },
                            )
                            &&& if merged {
                                o == (OutcomeView::Merged {
                                    revision: (n + 1) as u64,
                                    canonical_entry: entry,
                                })
                            } else {
                                o == (OutcomeView::Accepted {
                                    revision: (n + 1) as u64,
                                    canonical_entry: entry,
                                })
                            }
                        }
                    &&& is_told(
                        next.outbox,
                        m,
                        known_conns(h.conns),
                        HostMessageView::RevisionBroadcast { revision: r },
                    )
                },
                ReconciledView::Converged => {
                    &&& next.store.log == h.store.log
                    &&& next.store.rows == h.store.rows
                    &&& next.store.conflicts == h.store.conflicts
                    &&& is_told(
                        next.outbox,
                        m,
                        seq![conn_id],
                        HostMessageView::OperationResult {
                            operation_id: op.operation_id,
                            outcome: OutcomeView::Converged {
                                revision: n as u64,
                                canonical_entry: now,
                            },
                        },
                    )
                },
                ReconciledView::Conflict(kind) => {
                    let c = found::<Conflict>(next.store.conflicts, fresh);
                    &&& next.store.log == h.store.log
                    &&& next.store.rows == h.store.rows
                    &&& c is Some
                    &&& c->0.path == op.path
                    &&& c->0.kind == kind
                    &&& c->0.status == ConflictStatus::Open
                    &&& c->0.base_entry == op.base_entry
                    &&& c->0.canonical_entry == now
                    &&& c->0.incoming_entry == op.desired_entry
                    &&& c->0.incoming_actor_id == actor_id
                    &&& is_told(
                        next.outbox,
                        m,
                        seq![conn_id],
                        HostMessageView::OperationResult {
                            operation_id: op.operation_id,
                            outcome: OutcomeView::Conflicted {
                                conflict_id: fresh,
                                kind,
                                revision: n as u64,
                                canonical_entry: now,
                            },
                        },
                    )
                },
                ReconciledView::NeedsMerge => {
                    &&& next.store == h.store
                    &&& !(merge is Some)
                },
            }
        }),
{
    an_operation_is_refused_only_for_a_cause(h, conn_id, actor_id, op, merge, now_ms, fresh);
    let ready = match op.desired_entry {
        Some(e) => install_rule(h, e, op.content).0,
        None => h,
    };
    assert(ready.store == h.store);
    assert(ready.outbox.len() >= h.outbox.len());
    assert(ready.conns == h.conns);
    let (next, applied) = reconciled(ready, conn_id, actor_id, op, merge, now_ms, fresh);
    assert(next == apply_rule(h, conn_id, actor_id, op, merge, now_ms, fresh).0);
    lemma_replay_in_order(h.store.base, h.store.log);
    let now = row_of(h.store.rows, op.path);
    let m = h.outbox.len() as int;
    match reconcile_rule(op.base_entry, now, op.desired_entry, merge) {
        ReconciledView::Accept { entry, merged } => {
            set_row_changes_one_path(h.store.rows, op.path, entry, op.path);
            let r = next.store.log.last();
            assert(next.store.log.take(h.store.log.len() as int) =~= h.store.log);
            let o = crate::host_rules::accepted_outcome(merged, r.revision, entry);
            let k = next.outbox.len() - 2;
            lemma_told(
                next.outbox,
                m,
                k,
                seq![conn_id],
                HostMessageView::OperationResult { operation_id: op.operation_id, outcome: o },
            );
            lemma_told(
                next.outbox,
                m,
                next.outbox.len() - 1,
                known_conns(h.conns),
                HostMessageView::RevisionBroadcast { revision: r },
            );
        },
        ReconciledView::Converged => {
            lemma_told(
                next.outbox,
                m,
                next.outbox.len() - 1,
                seq![conn_id],
                HostMessageView::OperationResult {
                    operation_id: op.operation_id,
                    outcome: OutcomeView::Converged {
                        revision: h.store.revision(),
                        canonical_entry: now,
                    },
                },
            );
        },
        ReconciledView::Conflict(kind) => {
            let c = ConflictView {
                id: fresh,
                path: op.path,
                kind,
                base_entry: op.base_entry,
                canonical_entry: now,
                incoming_entry: op.desired_entry,
                latest_local_candidate: None,
                incoming_actor_id: actor_id,
                incoming_task_id: effective_task_of(ready, actor_id, op.task_id),
                canonical_revision: h.store.revision(),
                created_at_ms: now_ms,
                status: ConflictStatus::Open,
                resolved_revision: None,
            };
            stored_is_found::<Conflict>(h.store.conflicts, c, fresh);
            lemma_told(
                next.outbox,
                m,
                next.outbox.len() - 2,
                seq![conn_id],
                HostMessageView::OperationResult {
                    operation_id: op.operation_id,
                    outcome: OutcomeView::Conflicted {
                        conflict_id: fresh,
                        kind,
                        revision: h.store.revision(),
                        canonical_entry: now,
                    },
                },
            );
        },
        ReconciledView::NeedsMerge => {},
    }
}

// ---------------------------------------------------------------------------
// Tasks
// ---------------------------------------------------------------------------

/// Work is attributed to a task exactly when its author asked for that task,
/// owns it, and is still at it.
pub proof fn only_an_active_task_of_ones_own_is_credited(
    h: HostView,
    actor_id: Uuid,
    requested: Option<Uuid>,
)
    ensures
        ({
            let t = found::<Task>(h.store.tasks, requested->0);
            effective_task_of(h, actor_id, requested) == if requested is Some && t is Some
                && t->0.actor_id == actor_id && t->0.status == TaskStatus::Active {
                requested
            } else {
                None
            }
        }),
{
}

/// A task that is credited with a revision has touched its path, counts it as
/// its newest and, if it is the first, as its first; what it is about stays.
pub proof fn a_credited_task_has_touched_the_path(
    s: StoreView,
    t: TaskView,
    path: Seq<char>,
    revision: u64,
    now_ms: i64,
    other: Seq<char>,
)
    ensures
        ({
            let u = credited(s, t, path, revision, now_ms);
            &&& u.touched_paths.contains(path)
            &&& other != path ==> u.touched_paths.contains(other) == t.touched_paths.contains(other)
            &&& u.last_accepted_revision == Some(revision)
            &&& u.first_accepted_revision == if t.first_accepted_revision is Some {
                t.first_accepted_revision
            } else {
                Some(revision)
            }
            &&& u.id == t.id
            &&& u.actor_id == t.actor_id
            &&& u.status == t.status
            &&& u.description == t.description
            &&& u.scopes.len() == t.scopes.len()
            &&& u.updated_at_ms == now_ms
        }),
{
    let u = credited(s, t, path, revision, now_ms);
    crate::text::lemma_push_contains(t.touched_paths, path, path);
    crate::text::lemma_push_contains(t.touched_paths, path, other);
}

/// A range of lines goes stale exactly when the file is no longer what the
/// range was declared against; stale once, it stays so, and nothing else of a
/// scope changes.
pub proof fn a_range_goes_stale_with_its_file(s: StoreView, x: ScopeView)
    ensures
        ({
            let y = aged_scope(s, x);
            &&& y.stale == (x.stale || x.line_start is Some && apart(
                s.entry(x.path),
                x.declared_against,
            ))
            &&& y.path == x.path
            &&& y.line_start == x.line_start
            &&& y.line_end == x.line_end
            &&& y.declared_against == x.declared_against
        }),
{
}

/// The active task of an actor is one of theirs that is active.
proof fn lemma_active(list: Seq<TaskView>, actor_id: Uuid)
    ensures
        (active_for(list, actor_id) is Some) == exists|i: int|
            0 <= i < list.len() && (#[trigger] list[i]).actor_id == actor_id && list[i].status
                == TaskStatus::Active,
    decreases list.len(),
{
    if list.len() > 0 {
        let rest = list.drop_first();
        lemma_active(rest, actor_id);
        if exists|i: int|
            0 <= i < rest.len() && (#[trigger] rest[i]).actor_id == actor_id && rest[i].status
                == TaskStatus::Active {
            let i = choose|i: int|
                0 <= i < rest.len() && (#[trigger] rest[i]).actor_id == actor_id && rest[i].status
                    == TaskStatus::Active;
            assert(list[i + 1] == rest[i]);
        }
        if exists|i: int|
            0 <= i < list.len() && (#[trigger] list[i]).actor_id == actor_id && list[i].status
                == TaskStatus::Active {
            let i = choose|i: int|
                0 <= i < list.len() && (#[trigger] list[i]).actor_id == actor_id && list[i].status
                    == TaskStatus::Active;
            if i > 0 {
                assert(rest[i - 1] == list[i]);
            }
        }
    }
}

/// A task is started exactly when its actor has none that is active. It is then
/// on record as described, active, with its scopes declared against what the
/// files are now, and its actor is seen to work on it; otherwise nothing changes
/// but that the requester hears why.
pub proof fn a_task_is_started_where_none_is_active(
    h: HostView,
    conn_id: u64,
    actor_id: Uuid,
    request_id: Uuid,
    task_id: Uuid,
    description: Seq<char>,
    scopes: Seq<ScopeView>,
    now_ms: i64,
    other: Uuid,
)
    ensures
        ({
            let next = task_start_rule(
                h,
                conn_id,
                actor_id,
                request_id,
                task_id,
                description,
                scopes,
                now_ms,
            );
            let m = h.outbox.len() as int;
            let busy = exists|i: int|
                0 <= i < h.store.tasks.len() && (#[trigger] h.store.tasks[i]).actor_id == actor_id
                    && h.store.tasks[i].status == TaskStatus::Active;
            let t = found::<Task>(next.store.tasks, task_id);
            &&& busy ==> next.store == h.store && next.conns == h.conns && only_an_error(h.outbox, next.outbox, conn_id)
            &&& !busy ==> {
                &&& t is Some
                &&& t->0.actor_id == actor_id
                &&& t->0.description == description
                &&& t->0.status == TaskStatus::Active
                &&& t->0.created_revision == h.store.revision()
                &&& t->0.completed_revision is None
                &&& t->0.touched_paths.len() == 0
                &&& t->0.first_accepted_revision is None && t->0.last_accepted_revision is None
                &&& t->0.scopes.len() == scopes.len()
                &&& forall|i: int|
                    0 <= i < scopes.len() ==> {
                        let s = #[trigger] t->0.scopes[i];
                        &&& s.path == scopes[i].path
                        &&& s.line_start == scopes[i].line_start
                        &&& s.line_end == scopes[i].line_end
                        &&& s.declared_against == row_of(h.store.rows, scopes[i].path)
                        &&& !s.stale
                    }
                &&& other != task_id ==> found::<Task>(next.store.tasks, other) == found::<Task>(
                    h.store.tasks,
                    other,
                )
                &&& conn_of(h.conns, conn_id) is Some ==> conn_of(next.conns, conn_id) is Some
                    && conn_of(next.conns, conn_id)->0.active_task_id == Some(task_id)
                &&& is_told(
                    next.outbox,
                    m,
                    seq![conn_id],
                    HostMessageView::Ack { request_id, note: None },
                )
            }
            &&& next.store.log == h.store.log && next.store.rows == h.store.rows
                && next.store.conflicts == h.store.conflicts
        }),
{
    lemma_active(h.store.tasks, actor_id);
    let next = task_start_rule(
        h,
        conn_id,
        actor_id,
        request_id,
        task_id,
        description,
        scopes,
        now_ms,
    );
    let m = h.outbox.len() as int;
    if active_for(h.store.tasks, actor_id) is None {
        let t = TaskView {
            id: task_id,
            actor_id,
            description,
            status: TaskStatus::Active,
            created_at_ms: now_ms,
            updated_at_ms: now_ms,
            created_revision: h.store.revision(),
            completed_revision: None,
            scopes: crate::host_rules::declared_scopes(h.store, scopes),
            touched_paths: Seq::empty(),
            first_accepted_revision: None,
            last_accepted_revision: None,
        };
        stored_is_found::<Task>(h.store.tasks, t, task_id);
        stored_is_found::<Task>(h.store.tasks, t, other);
        lemma_conn_id(h.conns, conn_id);
        if let Some(c) = conn_of(h.conns, conn_id) {
            lemma_with_conn(
                h.conns,
                conn_id,
                ConnView { active_task_id: Some(task_id), ..c },
            );
        }
        lemma_told(
            next.outbox,
            m,
            m,
            seq![conn_id],
            HostMessageView::Ack { request_id, note: None },
        );
    }
}

proof fn lemma_conn_id(list: Seq<ConnView>, id: u64)
    ensures
        conn_of(list, id) matches Some(c) ==> c.id == id,
    decreases list.len(),
{
    if list.len() > 0 {
        lemma_conn_id(list.drop_first(), id);
    }
}

/// A task is changed by its owner only. What was given replaces what was there,
/// what was not given stays, and the status does too.
pub proof fn a_task_is_changed_by_its_owner(
    h: HostView,
    conn_id: u64,
    actor_id: Uuid,
    request_id: Uuid,
    task_id: Uuid,
    description: Option<Seq<char>>,
    scopes: Option<Seq<ScopeView>>,
    now_ms: i64,
    other: Uuid,
)
    ensures
        ({
            let next = task_update_rule(
                h,
                conn_id,
                actor_id,
                request_id,
                task_id,
                description,
                scopes,
                now_ms,
            );
            let m = h.outbox.len() as int;
            let t = found::<Task>(h.store.tasks, task_id);
            let u = found::<Task>(next.store.tasks, task_id);
            let owned = t is Some && t->0.actor_id == actor_id;
            &&& !owned ==> next.store == h.store && only_an_error(h.outbox, next.outbox, conn_id)
            &&& owned ==> {
                &&& u is Some
                &&& u->0.description == if description is Some {
                    description->0
                } else {
                    t->0.description
                }
                &&& scopes is None ==> u->0.scopes == t->0.scopes
                &&& scopes is Some ==> u->0.scopes.len() == scopes->0.len() && forall|i: int|
                    0 <= i < scopes->0.len() ==> (#[trigger] u->0.scopes[i]).path
                        == scopes->0[i].path && u->0.scopes[i].line_start == scopes->0[i].line_start
                        && u->0.scopes[i].line_end == scopes->0[i].line_end && !u->0.scopes[i].stale
                        && u->0.scopes[i].declared_against == row_of(
                        h.store.rows,
                        scopes->0[i].path,
                    )
                &&& u->0.status == t->0.status
                &&& u->0.actor_id == t->0.actor_id
                &&& u->0.touched_paths == t->0.touched_paths
                &&& u->0.updated_at_ms == now_ms
                &&& other != task_id ==> found::<Task>(next.store.tasks, other) == found::<Task>(
                    h.store.tasks,
                    other,
                )
                &&& is_told(
                    next.outbox,
                    m,
                    seq![conn_id],
                    HostMessageView::Ack { request_id, note: None },
                )
            }
        }),
{
    let next = task_update_rule(
        h,
        conn_id,
        actor_id,
        request_id,
        task_id,
        description,
        scopes,
        now_ms,
    );
    let m = h.outbox.len() as int;
    crate::store_host::lemma_index_of::<Task>(h.store.tasks, task_id);
    if task_fault(h, actor_id, task_id) is None {
        let t = found::<Task>(h.store.tasks, task_id)->0;
        let u = TaskView {
            description: match description {
                Some(d) => d,
                None => t.description,
            },
            scopes: match scopes {
                Some(list) => crate::host_rules::declared_scopes(h.store, list),
                None => t.scopes,
            },
            updated_at_ms: now_ms,
            ..t
        };
        stored_is_found::<Task>(h.store.tasks, u, task_id);
        stored_is_found::<Task>(h.store.tasks, u, other);
        lemma_told(
            next.outbox,
            m,
            m,
            seq![conn_id],
            HostMessageView::Ack { request_id, note: None },
        );
    }
}

/// A task is finished by its owner only: it gets the status asked for, at the
/// revision of now, and its owner is no longer seen to work on it.
pub proof fn a_task_is_finished_by_its_owner(
    h: HostView,
    conn_id: u64,
    actor_id: Uuid,
    request_id: Uuid,
    task_id: Uuid,
    status: TaskStatus,
    now_ms: i64,
    other: Uuid,
)
    ensures
        ({
            let next = task_finish_rule(
                h,
                conn_id,
                actor_id,
                request_id,
                task_id,
                status,
                now_ms,
            );
            let m = h.outbox.len() as int;
            let t = found::<Task>(h.store.tasks, task_id);
            let u = found::<Task>(next.store.tasks, task_id);
            let owned = t is Some && t->0.actor_id == actor_id;
            &&& !owned ==> next.store == h.store && next.conns == h.conns && only_an_error(h.outbox, next.outbox, conn_id)
            &&& owned ==> {
                &&& u is Some
                &&& u->0.status == status
                &&& u->0.completed_revision == Some(h.store.revision())
                &&& u->0.description == t->0.description
                &&& u->0.actor_id == t->0.actor_id
                &&& u->0.scopes == t->0.scopes
                &&& u->0.touched_paths == t->0.touched_paths
                &&& other != task_id ==> found::<Task>(next.store.tasks, other) == found::<Task>(
                    h.store.tasks,
                    other,
                )
                &&& conn_of(next.conns, conn_id) matches Some(c) ==> c.active_task_id != Some(
                    task_id,
                )
                &&& is_told(
                    next.outbox,
                    m,
                    seq![conn_id],
                    HostMessageView::Ack { request_id, note: None },
                )
            }
        }),
{
    let next = task_finish_rule(h, conn_id, actor_id, request_id, task_id, status, now_ms);
    let m = h.outbox.len() as int;
    crate::store_host::lemma_index_of::<Task>(h.store.tasks, task_id);
    if task_fault(h, actor_id, task_id) is None {
        let t = found::<Task>(h.store.tasks, task_id)->0;
        let u = TaskView {
            status,
            completed_revision: Some(h.store.revision()),
            updated_at_ms: now_ms,
            ..t
        };
        stored_is_found::<Task>(h.store.tasks, u, task_id);
        stored_is_found::<Task>(h.store.tasks, u, other);
        lemma_conn_id(h.conns, conn_id);
        if let Some(c) = conn_of(h.conns, conn_id) {
            if c.active_task_id == Some(task_id) {
                lemma_with_conn(h.conns, conn_id, ConnView { active_task_id: None, ..c });
            }
        }
        lemma_told(
            next.outbox,
            m,
            m,
            seq![conn_id],
            HostMessageView::Ack { request_id, note: None },
        );
    }
}

// ---------------------------------------------------------------------------
// Conflicts
// ---------------------------------------------------------------------------

/// A reported conflict is open, with every candidate it was reported with; one
/// that is on record already is left as it is.
pub proof fn a_reported_conflict_is_recorded_once(
    h: HostView,
    actor_id: Uuid,
    r: ReportedConflict,
    now_ms: i64,
    other: Uuid,
)
    ensures
        ({
            let next = report_rule(h, actor_id, r, now_ms);
            let known = found::<Conflict>(h.store.conflicts, r.id);
            let c = found::<Conflict>(next.store.conflicts, r.id);
            &&& known is Some ==> next == h
            &&& known is None ==> {
                &&& c is Some
                &&& c->0.path == r.path
                &&& c->0.kind == r.kind
                &&& c->0.base_entry == r.base_entry
                &&& c->0.canonical_entry == r.canonical_entry
                &&& c->0.incoming_entry == r.incoming_entry
                &&& c->0.latest_local_candidate == r.latest_local_candidate
                &&& c->0.incoming_actor_id == actor_id
                &&& c->0.incoming_task_id == r.incoming_task_id
                &&& c->0.status == ConflictStatus::Open
                &&& c->0.resolved_revision is None
                &&& c->0.canonical_revision == h.store.revision()
            }
            &&& other != r.id ==> found::<Conflict>(next.store.conflicts, other)
                == found::<Conflict>(h.store.conflicts, other)
            &&& next.store.log == h.store.log && next.store.rows == h.store.rows
        }),
{
    let c = ConflictView {
        id: r.id,
        path: r.path,
        kind: r.kind,
        base_entry: r.base_entry,
        canonical_entry: r.canonical_entry,
        incoming_entry: r.incoming_entry,
        latest_local_candidate: r.latest_local_candidate,
        incoming_actor_id: actor_id,
        incoming_task_id: r.incoming_task_id,
        canonical_revision: h.store.revision(),
        created_at_ms: now_ms,
        status: ConflictStatus::Open,
        resolved_revision: None,
    };
    stored_is_found::<Conflict>(h.store.conflicts, c, r.id);
    stored_is_found::<Conflict>(h.store.conflicts, c, other);
}

/// The newest candidate is attached to a conflict that is on record, once its
/// content is at hand, and nothing else of the conflict changes.
pub proof fn the_newest_candidate_is_attached(
    h: HostView,
    conflict_id: Uuid,
    entry: Option<EntryView>,
    other: Uuid,
)
    ensures
        ({
            let (next, fault) = attach_rule(h, conflict_id, entry);
            let c = found::<Conflict>(h.store.conflicts, conflict_id);
            let d = found::<Conflict>(next.store.conflicts, conflict_id);
            let there = entry is None || h.blobs.contains_key(entry->0.blob_hash);
            &&& (fault is Some) == (c is Some && !there)
            &&& c is None || !there ==> next == h
            &&& c is Some && there ==> {
                &&& d is Some
                &&& d->0.latest_local_candidate == entry
                &&& d->0.path == c->0.path
                &&& d->0.kind == c->0.kind
                &&& d->0.status == c->0.status
                &&& d->0.base_entry == c->0.base_entry
                &&& d->0.canonical_entry == c->0.canonical_entry
                &&& d->0.incoming_entry == c->0.incoming_entry
                &&& d->0.incoming_actor_id == c->0.incoming_actor_id
            }
            &&& other != conflict_id ==> found::<Conflict>(next.store.conflicts, other)
                == found::<Conflict>(h.store.conflicts, other)
        }),
{
    crate::store_host::lemma_index_of::<Conflict>(h.store.conflicts, conflict_id);
    if let Some(c) = found::<Conflict>(h.store.conflicts, conflict_id) {
        let d = ConflictView { latest_local_candidate: entry, ..c };
        stored_is_found::<Conflict>(h.store.conflicts, d, conflict_id);
        stored_is_found::<Conflict>(h.store.conflicts, d, other);
    }
}

/// A resolution is taken exactly when the conflict is open, canonical state is
/// what the resolver saw, and the resolved content is at hand. The path then is
/// what was resolved, the conflict is settled, and its requester hears so; a
/// revision is made only where canonical state changes.
pub proof fn a_resolution_makes_the_path_what_was_resolved(
    h: HostView,
    conn_id: u64,
    actor_id: Uuid,
    r: ResolutionView,
    now_ms: i64,
    other: Uuid,
)
    requires
        h.store.ok(),
        h.store.log.len() + 1 < u64::MAX,
    ensures
        ({
            let next = resolve_rule(h, conn_id, actor_id, r, now_ms);
            let m = h.outbox.len() as int;
            let c = found::<Conflict>(h.store.conflicts, r.conflict_id);
            let now = row_of(h.store.rows, c->0.path);
            let taken = c is Some && c->0.status == ConflictStatus::Open && !apart(
                now,
                r.expected_canonical,
            ) && (r.resolved_entry is None || h.blobs.contains_key(r.resolved_entry->0.blob_hash));
            let d = found::<Conflict>(next.store.conflicts, r.conflict_id);
            &&& (resolution_fault(h, r) is None) == taken
            &&& !taken ==> next.store == h.store && only_an_error(h.outbox, next.outbox, conn_id)
            &&& taken ==> {
                &&& !apart(row_of(next.store.rows, c->0.path), r.resolved_entry)
                &&& d is Some
                &&& d->0.status == ConflictStatus::Resolved
                &&& d->0.resolved_revision == Some(next.store.revision())
                &&& d->0.path == c->0.path
                &&& d->0.base_entry == c->0.base_entry
                &&& d->0.incoming_entry == c->0.incoming_entry
                &&& apart(r.resolved_entry, now) ==> next.store.log.len() == h.store.log.len() + 1
                    && next.store.log.last().after == r.resolved_entry && next.store.log.last().path
                    == c->0.path && next.store.log.last().before == now
                    && next.store.log.last().actor_id == actor_id
                &&& !apart(r.resolved_entry, now) ==> next.store.log == h.store.log
                    && next.store.rows == h.store.rows
                &&& match next.outbox[m] {
                    EffectView::Send { to, message: HostMessageView::Ack { request_id, .. } } => to
                        == seq![conn_id] && request_id == r.request_id,
                    _ => false,
                }
            }
            &&& other != r.conflict_id ==> found::<Conflict>(next.store.conflicts, other)
                == found::<Conflict>(h.store.conflicts, other)
        }),
{
    crate::store_host::lemma_index_of::<Conflict>(h.store.conflicts, r.conflict_id);
    lemma_replay_in_order(h.store.base, h.store.log);
    if let Some(c) = found::<Conflict>(h.store.conflicts, r.conflict_id) {
        let now = h.store.entry(c.path);
        set_row_changes_one_path(h.store.rows, c.path, r.resolved_entry, c.path);
        let at = if !apart(r.resolved_entry, now) {
            h.store.revision()
        } else {
            (h.store.revision() + 1) as u64
        };
        let d = ConflictView {
            status: ConflictStatus::Resolved,
            resolved_revision: Some(at),
            ..c
        };
        stored_is_found::<Conflict>(h.store.conflicts, d, r.conflict_id);
        stored_is_found::<Conflict>(h.store.conflicts, d, other);
    }
}

/// A dismissed conflict is dismissed, keeps everything else, and changes no
/// file; one that is not on record is an error.
pub proof fn a_dismissed_conflict_keeps_its_candidates(
    h: HostView,
    conn_id: u64,
    request_id: Uuid,
    conflict_id: Uuid,
    other: Uuid,
)
    ensures
        ({
            let next = dismiss_rule(h, conn_id, request_id, conflict_id);
            let m = h.outbox.len() as int;
            let c = found::<Conflict>(h.store.conflicts, conflict_id);
            let d = found::<Conflict>(next.store.conflicts, conflict_id);
            &&& c is None ==> next.store == h.store && only_an_error(h.outbox, next.outbox, conn_id)
            &&& c is Some ==> {
                &&& d is Some
                &&& d->0.status == ConflictStatus::Dismissed
                &&& d->0.path == c->0.path
                &&& d->0.base_entry == c->0.base_entry
                &&& d->0.canonical_entry == c->0.canonical_entry
                &&& d->0.incoming_entry == c->0.incoming_entry
                &&& d->0.latest_local_candidate == c->0.latest_local_candidate
                &&& is_told(
                    next.outbox,
                    m,
                    seq![conn_id],
                    HostMessageView::Ack { request_id, note: None },
                )
            }
            &&& next.store.log == h.store.log && next.store.rows == h.store.rows
            &&& other != conflict_id ==> found::<Conflict>(next.store.conflicts, other)
                == found::<Conflict>(h.store.conflicts, other)
        }),
{
    crate::store_host::lemma_index_of::<Conflict>(h.store.conflicts, conflict_id);
    let next = dismiss_rule(h, conn_id, request_id, conflict_id);
    let m = h.outbox.len() as int;
    if let Some(c) = found::<Conflict>(h.store.conflicts, conflict_id) {
        let d = ConflictView { status: ConflictStatus::Dismissed, ..c };
        stored_is_found::<Conflict>(h.store.conflicts, d, conflict_id);
        stored_is_found::<Conflict>(h.store.conflicts, d, other);
        lemma_told(
            next.outbox,
            m,
            m,
            seq![conn_id],
            HostMessageView::Ack { request_id, note: None },
        );
    }
}

// ---------------------------------------------------------------------------
// The size limit
// ---------------------------------------------------------------------------

/// A new limit holds for the session, is confirmed to whoever set it, and
/// everybody is told of it; nothing else changes.
pub proof fn a_new_limit_is_known_to_everybody(
    h: HostView,
    conn_id: u64,
    request_id: Uuid,
    max_file_size: u64,
)
    ensures
        ({
            let next = limit_rule(h, conn_id, request_id, max_file_size);
            let m = h.outbox.len() as int;
            &&& next.store.max_file_size == max_file_size
            &&& next.store.oversize == h.store.oversize
            &&& next.store.log == h.store.log && next.store.rows == h.store.rows
            &&& next.outbox.len() == m + 2
            &&& is_told(
                next.outbox,
                m,
                seq![conn_id],
                HostMessageView::Ack { request_id, note: None },
            )
            &&& match next.outbox[m + 1] {
                EffectView::Send { to, message: HostMessageView::Control { control } } => to
                    == known_conns(h.conns) && control.max_file_size == max_file_size,
                _ => false,
            }
        }),
{
    let next = limit_rule(h, conn_id, request_id, max_file_size);
    lemma_told(
        next.outbox,
        h.outbox.len() as int,
        h.outbox.len() as int,
        seq![conn_id],
        HostMessageView::Ack { request_id, note: None },
    );
}

/// What an actor reports replaces all it reported before, under its own name;
/// what others reported stays.
pub proof fn a_report_replaces_ones_own(
    h: HostView,
    conn_id: u64,
    actor_id: Uuid,
    paths: Seq<ReportView>,
    o: OversizeView,
)
    ensures
        ({
            let next = oversize_rule(h, conn_id, actor_id, paths).store;
            next.oversize.contains(o) == if o.actor_id == actor_id {
                (exists|i: int|
                    0 <= i < paths.len() && (#[trigger] paths[i]).path == o.path && paths[i].size
                        == o.size && paths[i].canonical == o.canonical) && o.display_name == (
                if conn_of(h.conns, conn_id) is Some {
                    conn_of(h.conns, conn_id)->0.display_name
                } else {
                    Seq::empty()
                })
            } else {
                h.store.oversize.contains(o)
            }
        }),
{
    let name = match conn_of(h.conns, conn_id) {
        Some(c) => c.display_name,
        None => Seq::empty(),
    };
    let others = |x: OversizeView| x.actor_id != actor_id;
    let kept = h.store.oversize.filter(others);
    let mine = crate::host_rules::attributed(actor_id, name, paths);
    let all = oversize_rule(h, conn_id, actor_id, paths).store.oversize;
    assert(all == kept + mine);
    if all.contains(o) {
        let i = choose|i: int| 0 <= i < all.len() && all[i] == o;
        if i < kept.len() {
            h.store.oversize.lemma_filter_pred(others, i);
            assert(kept.contains(o));
            h.store.oversize.lemma_filter_contains_rev(others, o);
        } else {
            assert(mine[i - kept.len()] == o);
            assert(paths[i - kept.len()].path == o.path);
        }
    }
    if o.actor_id != actor_id && h.store.oversize.contains(o) {
        let i = choose|i: int| 0 <= i < h.store.oversize.len() && h.store.oversize[i] == o;
        h.store.oversize.lemma_filter_contains(others, i);
        let k = choose|k: int| 0 <= k < kept.len() && kept[k] == o;
        assert(all[k] == o);
    }
    if o.actor_id == actor_id && o.display_name == name && exists|i: int|
        0 <= i < paths.len() && (#[trigger] paths[i]).path == o.path && paths[i].size == o.size
            && paths[i].canonical == o.canonical {
        let i = choose|i: int|
            0 <= i < paths.len() && (#[trigger] paths[i]).path == o.path && paths[i].size == o.size
                && paths[i].canonical == o.canonical;
        assert(mine[i] == o);
        assert(all[kept.len() + i] == o);
    }
}

// ---------------------------------------------------------------------------
// Presence
// ---------------------------------------------------------------------------

/// Everybody who said hello is shown online, with what their connection says of
/// them.
pub proof fn whoever_is_connected_is_online(h: HostView, conns: Seq<ConnView>, i: int)
    requires
        0 <= i < conns.len(),
        conns[i].actor_id is Some,
    ensures
        exists|k: int|
            {
                &&& 0 <= k < online_peers(h, conns).len()
                &&& (#[trigger] online_peers(h, conns)[k]).actor_id == conns[i].actor_id->0
                &&& online_peers(h, conns)[k].online
                &&& online_peers(h, conns)[k].display_name == conns[i].display_name
                &&& online_peers(h, conns)[k].last_known_revision == conns[i].last_applied_revision
                &&& online_peers(h, conns)[k].active_task_id == conns[i].active_task_id
                &&& online_peers(h, conns)[k].last_seen_ms == conns[i].last_seen_ms
            },
    decreases conns.len(),
{
    let all = online_peers(h, conns);
    let before = online_peers(h, conns.drop_last());
    if i == conns.len() - 1 {
        assert(all[all.len() - 1].actor_id == conns[i].actor_id->0);
    } else {
        whoever_is_connected_is_online(h, conns.drop_last(), i);
        let k = choose|k: int|
            {
                &&& 0 <= k < before.len()
                &&& (#[trigger] before[k]).actor_id == conns[i].actor_id->0
                &&& before[k].online
                &&& before[k].display_name == conns[i].display_name
                &&& before[k].last_known_revision == conns[i].last_applied_revision
                &&& before[k].active_task_id == conns[i].active_task_id
                &&& before[k].last_seen_ms == conns[i].last_seen_ms
            };
        assert(all[k] == before[k]);
    }
}

/// Everybody the host has met is shown, offline unless they were listed as
/// online.
pub proof fn whoever_was_met_is_shown(h: HostView, peers: Seq<PeerView>, actors: Seq<ActorView>)
    ensures
        ({
            let all = with_offline(h, peers, actors);
            &&& all.len() >= peers.len()
            &&& forall|k: int| 0 <= k < peers.len() ==> #[trigger] all[k] == peers[k]
            &&& forall|k: int| peers.len() <= k < all.len() ==> !(#[trigger] all[k]).online
            &&& forall|i: int|
                0 <= i < actors.len() ==> crate::host_rules::has_peer(
                    all,
                    (#[trigger] actors[i]).actor_id,
                )
        }),
    decreases actors.len(),
{
    if actors.len() > 0 {
        let front = actors.drop_last();
        whoever_was_met_is_shown(h, peers, front);
        let before = with_offline(h, peers, front);
        let all = with_offline(h, peers, actors);
        assert forall|i: int| 0 <= i < actors.len() implies crate::host_rules::has_peer(
            all,
            (#[trigger] actors[i]).actor_id,
        ) by {
            if i < front.len() {
                assert(crate::host_rules::has_peer(before, front[i].actor_id));
                let k = choose|k: int|
                    0 <= k < before.len() && (#[trigger] before[k]).actor_id == front[i].actor_id;
                assert(all[k] == before[k]);
            } else if !crate::host_rules::has_peer(before, actors[i].actor_id) {
                assert(all[all.len() - 1].actor_id == actors[i].actor_id);
            }
        }
    }
}

/// Ordering the peers by name loses nobody and adds nobody.
pub proof fn ordering_keeps_every_peer(list: Seq<PeerView>)
    ensures
        sort_peers(list).len() == list.len(),
        forall|p: PeerView| #[trigger] sort_peers(list).contains(p) == list.contains(p),
        forall|i: int, j: int|
            0 <= i < j < sort_peers(list).len() ==> text_le(
                (#[trigger] sort_peers(list)[i]).display_name,
                (#[trigger] sort_peers(list)[j]).display_name,
            ),
    decreases list.len(),
{
    if list.len() > 0 {
        let front = list.drop_last();
        ordering_keeps_every_peer(front);
        lemma_place_peer(sort_peers(front), list.last());
        assert(list =~= front.push(list.last()));
        assert forall|p: PeerView| #[trigger] sort_peers(list).contains(p) == list.contains(p) by {
            lemma_push_peer(front, list.last(), p);
            assert(sort_peers(front).contains(p) == front.contains(p));
        }
    }
}

proof fn lemma_push_peer(list: Seq<PeerView>, t: PeerView, u: PeerView)
    ensures
        list.push(t).contains(u) == (list.contains(u) || t == u),
{
    if list.contains(u) {
        let i = choose|i: int| 0 <= i < list.len() && list[i] == u;
        assert(list.push(t)[i] == u);
    }
    assert(list.push(t)[list.len() as int] == t);
    if list.push(t).contains(u) && t != u {
        let i = choose|i: int| 0 <= i < list.push(t).len() && list.push(t)[i] == u;
        assert(list[i] == u);
    }
}

proof fn lemma_place_peer(list: Seq<PeerView>, p: PeerView)
    ensures
        place_peer(list, p).len() == list.len() + 1,
        forall|u: PeerView| #[trigger]
            place_peer(list, p).contains(u) == (list.contains(u) || u == p),
        (forall|i: int, j: int|
            0 <= i < j < list.len() ==> text_le(
                (#[trigger] list[i]).display_name,
                (#[trigger] list[j]).display_name,
            )) ==> forall|i: int, j: int|
            0 <= i < j < place_peer(list, p).len() ==> text_le(
                (#[trigger] place_peer(list, p)[i]).display_name,
                (#[trigger] place_peer(list, p)[j]).display_name,
            ),
    decreases list.len(),
{
    let all = place_peer(list, p);
    let ordered = forall|i: int, j: int|
        0 <= i < j < list.len() ==> text_le(
            (#[trigger] list[i]).display_name,
            (#[trigger] list[j]).display_name,
        );
    if list.len() == 0 || text_le(list.last().display_name, p.display_name) {
        assert forall|u: PeerView| #[trigger] all.contains(u) == (list.contains(u) || u == p) by {
            lemma_push_peer(list, p, u);
        }
        if ordered {
            assert forall|i: int, j: int| 0 <= i < j < all.len() implies text_le(
                (#[trigger] all[i]).display_name,
                (#[trigger] all[j]).display_name,
            ) by {
                if j == list.len() && i < list.len() - 1 {
                    assert(text_le(list[i].display_name, list[list.len() - 1].display_name));
                    crate::text::lemma_text_le_transitive(
                        list[i].display_name,
                        list[list.len() - 1].display_name,
                        p.display_name,
                    );
                }
            }
        }
    } else {
        let front = list.drop_last();
        let last = list.last();
        let placed = place_peer(front, p);
        lemma_place_peer(front, p);
        assert(list =~= front.push(last));
        assert forall|u: PeerView| #[trigger] all.contains(u) == (list.contains(u) || u == p) by {
            lemma_push_peer(placed, last, u);
            lemma_push_peer(front, last, u);
            assert(placed.contains(u) == (front.contains(u) || u == p));
        }
        if ordered {
            crate::text::lemma_text_le_total(last.display_name, p.display_name);
            assert forall|i: int, j: int| 0 <= i < j < front.len() implies text_le(
                (#[trigger] front[i]).display_name,
                (#[trigger] front[j]).display_name,
            ) by {
                assert(text_le(list[i].display_name, list[j].display_name));
            }
            assert forall|i: int, j: int| 0 <= i < j < all.len() implies text_le(
                (#[trigger] all[i]).display_name,
                (#[trigger] all[j]).display_name,
            ) by {
                if j == placed.len() {
                    assert(placed.contains(placed[i]));
                    if placed[i] != p {
                        assert(front.contains(placed[i]));
                        let k = choose|k: int| 0 <= k < front.len() && front[k] == placed[i];
                        assert(text_le(list[k].display_name, list[list.len() - 1].display_name));
                    }
                } else {
                    assert(all[i] == placed[i] && all[j] == placed[j]);
                }
            }
        }
    }
}

} // verus!
