//! The rules of Git publication: the barrier, the preparation and the commit.
//!
//! A publication is bound to one immutable revision. A short barrier makes
//! sure nothing in flight is missed; the commit is then built from that
//! revision, never from the live working tree.

use vstd::prelude::*;

use crate::error::{detailed, plain, ErrorClass, ErrorView};
use crate::host_rules::{
    conn_of, known_conns, name_of, peer_of, send_publication, BarrierPeerView, BarrierView,
    ConnView, HostView,
};
use crate::model::{
    same_state, CommitPreparation, ConflictView, ContributorView, DescriptorView, DiffView,
    OperationView, PreparationView, PrepareStatus, PreparedTaskView, PublicationStage,
    PublicationView, PushStatus, Task, TaskView,
};
use crate::proto::{rows_distinct, CommitView, HostMessageView, PrepareView, RowView};
use crate::store_host::{
    active_of, counts_of, filed, found, in_order, open_of, revisions_of, row_of, span_of, stored,
    tasks_of, unassigned_of, ActorCount, ActorRecord, ActorView, StoreView,
};
use crate::text::{distinct, join, sort_list, sorted, text_le, trim, trim_end};
use crate::util::{oid_head, revision_form, short_form, uuid_form, Uuid};

verus! {

// ---------------------------------------------------------------------------
// Diffs
// ---------------------------------------------------------------------------

/// The paths of `after` that `before` does not have.
pub open spec fn added_paths(before: Seq<RowView>, after: Seq<RowView>) -> Seq<Seq<char>>
    decreases after.len(),
{
    if after.len() == 0 {
        Seq::empty()
    } else if row_of(before, after.last().path) is None {
        added_paths(before, after.drop_last()).push(after.last().path)
    } else {
        added_paths(before, after.drop_last())
    }
}

/// The paths in both whose content or mode differs.
pub open spec fn modified_paths(before: Seq<RowView>, after: Seq<RowView>) -> Seq<Seq<char>>
    decreases after.len(),
{
    if after.len() == 0 {
        Seq::empty()
    } else {
        let rest = modified_paths(before, after.drop_last());
        match row_of(before, after.last().path) {
            Some(was) => if !same_state(Some(was), Some(after.last().entry)) {
                rest.push(after.last().path)
            } else {
                rest
            },
            None => rest,
        }
    }
}

/// Added, modified and deleted paths between two manifests.
pub open spec fn diff_of(before: Seq<RowView>, after: Seq<RowView>) -> DiffView {
    DiffView {
        added: added_paths(before, after),
        modified: modified_paths(before, after),
        deleted: added_paths(after, before),
    }
}

/// Nothing is listed that did not change, and everything that did is: a path
/// is added, modified or deleted exactly when its state differs.
pub proof fn a_diff_is_complete(before: Seq<RowView>, after: Seq<RowView>, path: Seq<char>)
    ensures
        diff_of(before, after).added.contains(path) == (row_of(after, path) is Some && row_of(
            before,
            path,
        ) is None),
        diff_of(before, after).deleted.contains(path) == (row_of(before, path) is Some && row_of(
            after,
            path,
        ) is None),
        rows_distinct(after) ==> diff_of(before, after).modified.contains(path) == (row_of(
            after,
            path,
        ) is Some && row_of(before, path) is Some && !same_state(
            row_of(before, path),
            row_of(after, path),
        )),
{
    lemma_added(before, after, path);
    lemma_added(after, before, path);
    if rows_distinct(after) {
        lemma_modified(before, after, path);
    }
}

/// The lists of a diff between ordered manifests are in order, each path once.
pub proof fn a_diff_is_in_order(before: Seq<RowView>, after: Seq<RowView>)
    requires
        in_order(before),
        in_order(after),
    ensures
        sorted(diff_of(before, after).added) && distinct(diff_of(before, after).added),
        sorted(diff_of(before, after).modified) && distinct(diff_of(before, after).modified),
        sorted(diff_of(before, after).deleted) && distinct(diff_of(before, after).deleted),
{
    lemma_added_in_order(before, after);
    lemma_added_in_order(after, before);
    lemma_modified_in_order(before, after);
}

/// Every path of a list stands in the manifest.
spec fn all_listed(list: Seq<Seq<char>>, rows: Seq<RowView>) -> bool {
    forall|i: int| 0 <= i < list.len() ==> is_listed(#[trigger] list[i], rows)
}

spec fn is_listed(path: Seq<char>, rows: Seq<RowView>) -> bool {
    exists|k: int| 0 <= k < rows.len() && (#[trigger] rows[k]).path == path
}

proof fn lemma_front_in_order(rows: Seq<RowView>)
    requires
        in_order(rows),
        rows.len() > 0,
    ensures
        in_order(rows.drop_last()),
{
    let front = rows.drop_last();
    assert forall|i: int, j: int| 0 <= i < j < front.len() implies text_le(
        (#[trigger] front[i]).path,
        (#[trigger] front[j]).path,
    ) && front[i].path != front[j].path by {
        assert(text_le(rows[i].path, rows[j].path));
    }
}

/// A list of paths from all but the last row goes on with the last one's.
proof fn lemma_next_path(list: Seq<Seq<char>>, rows: Seq<RowView>)
    requires
        in_order(rows),
        rows.len() > 0,
        all_listed(list, rows.drop_last()),
        sorted(list),
        distinct(list),
    ensures
        all_listed(list, rows),
        all_listed(list.push(rows.last().path), rows),
        sorted(list.push(rows.last().path)),
        distinct(list.push(rows.last().path)),
{
    let front = rows.drop_last();
    let last = rows[rows.len() - 1].path;
    assert forall|i: int| 0 <= i < list.len() implies is_listed(#[trigger] list[i], rows)
        && text_le(list[i], last) && list[i] != last by {
        assert(is_listed(list[i], front));
        let k = choose|k: int| 0 <= k < front.len() && (#[trigger] front[k]).path == list[i];
        assert(rows[k].path == list[i]);
        assert(text_le(rows[k].path, rows[rows.len() - 1].path));
    }
    assert(is_listed(last, rows));
}

proof fn lemma_added_in_order(before: Seq<RowView>, after: Seq<RowView>)
    requires
        in_order(after),
    ensures
        sorted(added_paths(before, after)),
        distinct(added_paths(before, after)),
        all_listed(added_paths(before, after), after),
    decreases after.len(),
{
    if after.len() > 0 {
        lemma_front_in_order(after);
        lemma_added_in_order(before, after.drop_last());
        lemma_next_path(added_paths(before, after.drop_last()), after);
    }
}

proof fn lemma_modified_in_order(before: Seq<RowView>, after: Seq<RowView>)
    requires
        in_order(after),
    ensures
        sorted(modified_paths(before, after)),
        distinct(modified_paths(before, after)),
        all_listed(modified_paths(before, after), after),
    decreases after.len(),
{
    if after.len() > 0 {
        lemma_front_in_order(after);
        lemma_modified_in_order(before, after.drop_last());
        lemma_next_path(modified_paths(before, after.drop_last()), after);
    }
}

proof fn lemma_modified(before: Seq<RowView>, after: Seq<RowView>, path: Seq<char>)
    requires
        rows_distinct(after),
    ensures
        modified_paths(before, after).contains(path) == (row_of(after, path) is Some && row_of(
            before,
            path,
        ) is Some && !same_state(row_of(before, path), row_of(after, path))),
    decreases after.len(),
{
    if after.len() > 0 {
        let front = after.drop_last();
        lemma_modified(before, front, path);
        lemma_row_of_push(front, after.last(), path);
        assert(after =~= front.push(after.last()));
        crate::text::lemma_push_contains(modified_paths(before, front), after.last().path, path);
        if path == after.last().path {
            lemma_row_absent(front, path);
        }
    }
}

proof fn lemma_row_absent(list: Seq<RowView>, path: Seq<char>)
    requires
        forall|i: int| 0 <= i < list.len() ==> (#[trigger] list[i]).path != path,
    ensures
        row_of(list, path) is None,
    decreases list.len(),
{
    if list.len() > 0 {
        assert(list[0].path != path);
        let rest = list.drop_first();
        assert forall|i: int| 0 <= i < rest.len() implies (#[trigger] rest[i]).path != path by {
            assert(rest[i] == list[i + 1]);
        }
        lemma_row_absent(rest, path);
    }
}

proof fn lemma_added(before: Seq<RowView>, after: Seq<RowView>, path: Seq<char>)
    ensures
        added_paths(before, after).contains(path) == (row_of(after, path) is Some && row_of(
            before,
            path,
        ) is None),
    decreases after.len(),
{
    if after.len() > 0 {
        let front = after.drop_last();
        lemma_added(before, front, path);
        lemma_row_of_push(front, after.last(), path);
        assert(after =~= front.push(after.last()));
        crate::text::lemma_push_contains(added_paths(before, front), after.last().path, path);
    }
}

proof fn lemma_row_of_push(list: Seq<RowView>, row: RowView, path: Seq<char>)
    ensures
        row_of(list.push(row), path) == if row_of(list, path) is Some {
            row_of(list, path)
        } else if row.path == path {
            Some(row.entry)
        } else {
            None
        },
    decreases list.len(),
{
    reveal_with_fuel(row_of, 2);
    if list.len() > 0 {
        lemma_row_of_push(list.drop_first(), row, path);
        assert(list.push(row).drop_first() =~= list.drop_first().push(row));
    } else {
        assert(list.push(row).drop_first() =~= Seq::<RowView>::empty());
    }
}

// ---------------------------------------------------------------------------
// The barrier
// ---------------------------------------------------------------------------

pub open spec fn prepare_rejected(
    h: HostView,
    conn_id: u64,
    request_id: Uuid,
    e: ErrorView,
) -> HostView {
    h.send(
        conn_id,
        HostMessageView::PrepareResult { request_id, outcome: PrepareView::Rejected(e) },
    )
}

/// Everybody who has to answer, with nothing answered yet.
pub open spec fn waiting_peers(ids: Seq<u64>) -> Seq<BarrierPeerView> {
    ids.map_values(|id: u64| BarrierPeerView { id, watermark: None, ready: None })
}

/// Start a barrier, unless one is running or the session is not live.
pub open spec fn prepare_rule(
    h: HostView,
    conn_id: u64,
    actor_id: Uuid,
    request_id: Uuid,
    allow_active_tasks: bool,
    now_ms: i64,
    fresh: Uuid,
) -> HostView {
    if h.barrier is Some {
        prepare_rejected(
            h,
            conn_id,
            request_id,
            detailed(
                ErrorClass::SessionError,
                "Another commit preparation is already running."@,
                "Wait for it to finish and retry."@,
            ),
        )
    } else if !(h.state is Live) {
        prepare_rejected(
            h,
            conn_id,
            request_id,
            detailed(
                ErrorClass::SessionError,
                "Weave is paused; Git publication is unavailable."@,
                "Run `weave status` for the reason."@,
            ),
        )
    } else {
        HostView {
            barrier: Some(
                BarrierView {
                    barrier_id: fresh,
                    request_id,
                    requester_conn: conn_id,
                    requester_actor: actor_id,
                    allow_active_tasks,
                    started_ms: now_ms,
                    peers: waiting_peers(known_conns(h.conns)),
                },
            ),
            ..h
        }.broadcast(HostMessageView::BarrierStart { barrier_id: fresh })
    }
}

/// One peer's progress changed; a peer not in the barrier joins it.
pub open spec fn with_peer(peers: Seq<BarrierPeerView>, p: BarrierPeerView) -> Seq<BarrierPeerView>
    decreases peers.len(),
{
    if peers.len() == 0 {
        seq![p]
    } else if peers[0].id == p.id {
        seq![p] + peers.drop_first()
    } else {
        seq![peers[0]] + with_peer(peers.drop_first(), p)
    }
}

/// The progress of a connection so far.
pub open spec fn progress(peers: Seq<BarrierPeerView>, id: u64) -> BarrierPeerView {
    match peer_of(peers, id) {
        Some(p) => p,
        None => BarrierPeerView { id, watermark: None, ready: None },
    }
}

/// A peer froze its watermark.
pub open spec fn barrier_ack_rule(h: HostView, conn_id: u64, barrier_id: Uuid, watermark: u64) -> HostView {
    match h.barrier {
        Some(b) => if b.barrier_id == barrier_id {
            let p = BarrierPeerView {
                watermark: Some(watermark),
                ..progress(b.peers, conn_id)
            };
            HostView { barrier: Some(BarrierView { peers: with_peer(b.peers, p), ..b }), ..h }
        } else {
            h
        },
        None => h,
    }
}

/// A peer said whether everything up to its watermark is settled.
pub open spec fn barrier_ready_rule(
    h: HostView,
    conn_id: u64,
    barrier_id: Uuid,
    ok: bool,
    detail: Seq<char>,
) -> HostView {
    match h.barrier {
        Some(b) => if b.barrier_id == barrier_id {
            let p = BarrierPeerView { ready: Some((ok, detail)), ..progress(b.peers, conn_id) };
            HostView { barrier: Some(BarrierView { peers: with_peer(b.peers, p), ..b }), ..h }
        } else {
            h
        },
        None => h,
    }
}

/// Whether a peer has answered both questions.
pub open spec fn has_answered(p: BarrierPeerView) -> bool {
    p.watermark is Some && p.ready is Some
}

/// Whether a barrier has nothing left to wait for.
pub open spec fn all_answered(peers: Seq<BarrierPeerView>) -> bool {
    forall|i: int| 0 <= i < peers.len() ==> has_answered(#[trigger] peers[i])
}

/// The name of a connection, as far as it is known.
pub open spec fn conn_name(h: HostView, id: u64) -> Seq<char> {
    match conn_of(h.conns, id) {
        Some(c) => c.display_name,
        None => "unknown participant"@,
    }
}

/// The peers that said they are not ready, and why.
pub open spec fn unready_peers(h: HostView, peers: Seq<BarrierPeerView>) -> Seq<Seq<char>>
    decreases peers.len(),
{
    if peers.len() == 0 {
        Seq::empty()
    } else {
        let before = unready_peers(h, peers.drop_last());
        match peers.last().ready {
            Some((ok, detail)) => if !ok {
                before.push(conn_name(h, peers.last().id) + ": "@ + detail)
            } else {
                before
            },
            None => before,
        }
    }
}

/// The peers that said nothing.
pub open spec fn silent_peers(h: HostView, peers: Seq<BarrierPeerView>) -> Seq<Seq<char>>
    decreases peers.len(),
{
    if peers.len() == 0 {
        Seq::empty()
    } else {
        let before = silent_peers(h, peers.drop_last());
        if peers.last().ready is None {
            before.push(conn_name(h, peers.last().id))
        } else {
            before
        }
    }
}

// ---------------------------------------------------------------------------
// The preparation
// ---------------------------------------------------------------------------

/// One line per open conflict.
pub open spec fn conflict_lines(list: Seq<ConflictView>) -> Seq<Seq<char>> {
    list.map_values(|c: ConflictView| short_form('C', c.id) + " — "@ + c.path)
}

/// The revision published last, and its commit.
pub open spec fn previous_revision(s: StoreView) -> u64 {
    match s.latest() {
        Some(p) => p.descriptor.target_revision,
        None => 0,
    }
}

pub open spec fn parent_commit(h: HostView) -> Seq<char> {
    match h.store.latest() {
        Some(p) => p.descriptor.commit_oid,
        None => h.session.base_commit,
    }
}

/// The revisions a preparation covers.
pub open spec fn covered(s: StoreView) -> Seq<crate::model::RevisionView> {
    span_of(s.log, previous_revision(s), s.revision())
}

/// A run of revisions as a person reads it.
pub open spec fn range_form(list: Seq<u64>) -> Seq<char>
    recommends
        list.len() > 0,
{
    if list.len() == 1 {
        revision_form(list[0])
    } else {
        revision_form(list[0]) + "–"@ + revision_form(list.last())
    }
}

/// Why an active task stands in the way.
pub open spec fn active_task_error(h: HostView, t: TaskView, list: Seq<u64>) -> ErrorView {
    detailed(
        ErrorClass::ConflictError,
        "Cannot prepare Git publication."@,
        short_form('T', t.id) + " — "@ + (match name_of(h.names, t.actor_id) {
            Some(n) => n,
            None => "a participant"@,
        }) + "\n\""@ + t.description + "\"\n\nis still active and contributed:\n"@ + range_form(
            list,
        ) + "\n\nComplete or cancel the Task first."@,
    )
}

/// The first active task that contributed to what would be published.
pub open spec fn blocking_task(h: HostView, tasks: Seq<TaskView>) -> Option<ErrorView>
    decreases tasks.len(),
{
    if tasks.len() == 0 {
        None
    } else {
        let list = revisions_of(covered(h.store), tasks[0].id);
        if list.len() > 0 {
            Some(active_task_error(h, tasks[0], list))
        } else {
            blocking_task(h, tasks.drop_first())
        }
    }
}

/// Why a publication cannot be prepared, or `None`.
pub open spec fn preparation_fault(h: HostView, b: BarrierView) -> Option<ErrorView> {
    let unready = unready_peers(h, b.peers);
    if unready.len() > 0 {
        Some(
            detailed(
                ErrorClass::ConflictError,
                "Cannot prepare Git publication: unresolved conflicts from pre-barrier work."@,
                join(unready, "\n"@)
                    + "\n\nResolve or dismiss every open conflict with `weave conflict resolve`."@,
            ),
        )
    } else if open_of(h.store.conflicts).len() > 0 {
        Some(
            detailed(
                ErrorClass::ConflictError,
                "Cannot prepare Git publication: open Weave conflicts remain."@,
                join(conflict_lines(open_of(h.store.conflicts)), "\n"@)
                    + "\n\nResolve or dismiss them, then run `weave commit prepare` again."@,
            ),
        )
    } else if !b.allow_active_tasks {
        blocking_task(h, active_of(h.store.tasks))
    } else {
        None
    }
}

/// The name an actor is recorded under.
pub open spec fn recorded_name(s: StoreView, actor_id: Uuid) -> Seq<char> {
    match found::<ActorRecord>(s.actors, actor_id) {
        Some(a) => a.display_name,
        None => "unknown"@,
    }
}

/// The contributing tasks that are still on record.
pub open spec fn prepared_tasks(s: StoreView, ids: Seq<Uuid>) -> Seq<PreparedTaskView>
    decreases ids.len(),
{
    if ids.len() == 0 {
        Seq::empty()
    } else {
        let before = prepared_tasks(s, ids.drop_last());
        match found::<Task>(s.tasks, ids.last()) {
            None => before,
            Some(t) => before.push(
                PreparedTaskView {
                    id: t.id,
                    short_id: short_form('T', t.id),
                    description: t.description,
                    status: t.status,
                    actor_id: t.actor_id,
                    actor_display_name: recorded_name(s, t.actor_id),
                    touched_paths: t.touched_paths,
                    revisions: revisions_of(covered(s), ids.last()),
                },
            ),
        }
    }
}

/// `list` with the paths of `more` it does not have yet.
pub open spec fn union(list: Seq<Seq<char>>, more: Seq<Seq<char>>) -> Seq<Seq<char>>
    decreases more.len(),
{
    if more.len() == 0 {
        list
    } else {
        let before = union(list, more.drop_last());
        if before.contains(more.last()) {
            before
        } else {
            before.push(more.last())
        }
    }
}

/// Every path the prepared tasks touched, each once.
pub open spec fn all_touched(tasks: Seq<PreparedTaskView>) -> Seq<Seq<char>>
    decreases tasks.len(),
{
    if tasks.len() == 0 {
        Seq::empty()
    } else {
        union(all_touched(tasks.drop_last()), tasks.last().touched_paths)
    }
}

/// Weave never invents an address.
pub open spec fn contributor_of(s: StoreView, c: ActorCount) -> ContributorView {
    ContributorView {
        actor_id: c.actor_id,
        display_name: recorded_name(s, c.actor_id),
        email: match found::<ActorRecord>(s.actors, c.actor_id) {
            Some(a) => if trim(a.git_email).len() == 0 {
                None
            } else {
                Some(a.git_email)
            },
            None => None,
        },
        revisions: c.revisions,
    }
}

pub open spec fn contributors_of(s: StoreView) -> Seq<ContributorView> {
    counts_of(covered(s)).map_values(|c: ActorCount| contributor_of(s, c))
}

/// Whether an actor has a connection.
pub open spec fn is_online(conns: Seq<ConnView>, actor_id: Uuid) -> bool {
    exists|i: int| 0 <= i < conns.len() && (#[trigger] conns[i]).actor_id == Some(actor_id)
}

/// Everybody who could not take part: the silent, then the absent.
pub open spec fn with_absent(h: HostView, list: Seq<Seq<char>>, actors: Seq<ActorView>) -> Seq<
    Seq<char>,
>
    decreases actors.len(),
{
    if actors.len() == 0 {
        list
    } else {
        let before = with_absent(h, list, actors.drop_last());
        let a = actors.last();
        if !is_online(h.conns, a.actor_id) && !before.contains(a.display_name) {
            before.push(a.display_name)
        } else {
            before
        }
    }
}

/// The preparation, bound to the current revision.
pub open spec fn preparation_of(h: HostView, b: BarrierView, now_ms: i64, fresh: Uuid) -> PreparationView {
    let s = h.store;
    let ids = tasks_of(covered(s));
    let tasks = prepared_tasks(s, ids);
    PreparationView {
        prepare_id: fresh,
        target_revision: s.revision(),
        parent_commit_oid: parent_commit(h),
        requesting_actor: b.requester_actor,
        included_task_ids: ids,
        included_tasks: tasks,
        touched_paths: sort_list(all_touched(tasks)),
        unassigned_revisions: unassigned_of(covered(s)),
        created_at_ms: now_ms,
        status: PrepareStatus::Prepared,
        previous_published_revision: previous_revision(s),
        diff_summary: diff_of(s.at(previous_revision(s)), s.at(s.revision())),
        contributors: contributors_of(s),
        disconnected_participants: with_absent(h, silent_peers(h, b.peers), s.actors),
    }
}

/// What a finished barrier leads to: the answer for the requester, and the
/// operations that were withheld.
pub struct FinishedView {
    pub requester_conn: u64,
    pub request_id: Uuid,
    pub outcome: PrepareView,
    pub released: Seq<(u64, OperationView)>,
    /// Whether everybody has still to hear who is present.
    pub presence_due: bool,
}

/// The barrier is over: the preparation is made or refused, everybody is told,
/// and the withheld operations are let go.
pub open spec fn finish_rule(h: HostView, b: BarrierView, now_ms: i64, fresh: Uuid) -> (
    HostView,
    FinishedView,
) {
    let open = HostView { barrier: None, ..h };
    let (prepared, outcome) = match preparation_fault(open, b) {
        Some(fault) => (open, PrepareView::Rejected(fault)),
        None => {
            let prep = preparation_of(open, b, now_ms, fresh);
            (
                open.with_store(
                    StoreView {
                        preparations: stored::<CommitPreparation>(open.store.preparations, prep),
                        ..open.store
                    }.bumped(),
                ),
                PrepareView::Prepared(prep),
            )
        },
    };
    (
        HostView {
            deferred: Seq::empty(),
            ..prepared.broadcast(HostMessageView::BarrierEnd { barrier_id: b.barrier_id })
        },
        FinishedView {
            requester_conn: b.requester_conn,
            request_id: b.request_id,
            outcome,
            released: h.deferred,
            presence_due: false,
        },
    )
}

/// Finish the barrier, if there is one and everybody has answered.
pub open spec fn try_finish_rule(h: HostView, now_ms: i64, fresh: Uuid) -> (
    HostView,
    Option<FinishedView>,
) {
    match h.barrier {
        Some(b) => if all_answered(b.peers) {
            let (next, f) = finish_rule(h, b, now_ms, fresh);
            (next, Some(f))
        } else {
            (h, None)
        },
        None => (h, None),
    }
}

/// The withheld operations have been handled: answer the requester, and tell
/// everybody who is present where that is due.
pub open spec fn conclude_rule(
    h: HostView,
    requester_conn: u64,
    request_id: Uuid,
    outcome: PrepareView,
    presence_due: bool,
) -> HostView {
    let told = h.send(
        requester_conn,
        HostMessageView::PrepareResult { request_id, outcome },
    ).broadcast_control();
    if presence_due {
        told.broadcast_presence()
    } else {
        told
    }
}

// ---------------------------------------------------------------------------
// The commit
// ---------------------------------------------------------------------------

/// Why a commit is refused before anything is built, or `None`.
pub open spec fn commit_fault(h: HostView, prepare_id: Uuid, message: Seq<char>, head: Seq<char>) -> Option<
    ErrorView,
> {
    match found::<CommitPreparation>(h.store.preparations, prepare_id) {
        None => Some(
            detailed(
                ErrorClass::UsageError,
                "No Weave commit preparation "@ + uuid_form(prepare_id) + "."@,
                "Run `weave commit prepare` to create one."@,
            ),
        ),
        Some(prep) => if prep.status != PrepareStatus::Prepared {
            Some(
                plain(
                    ErrorClass::UsageError,
                    "Preparation "@ + short_form('P', prep.prepare_id) + " is already "@
                        + prep.status.name() + "."@,
                ),
            )
        } else if trim(message).len() == 0 {
            Some(
                detailed(
                    ErrorClass::UsageError,
                    "A commit message is required."@,
                    "Pass --message, or supply the message on stdin."@,
                ),
            )
        } else if head != prep.parent_commit_oid {
            Some(
                detailed(
                    ErrorClass::GitError,
                    "The Git branch moved since this publication was prepared."@,
                    "Expected parent:\n"@ + oid_head(prep.parent_commit_oid)
                        + "\n\nCurrent Git commit:\n"@ + oid_head(head)
                        + "\n\nRun `weave commit prepare` again."@,
                ),
            )
        } else {
            None
        },
    }
}

/// Who a commit is by: the requester, with the host's address where the
/// requester has none.
pub open spec fn commit_author(h: HostView, actor_id: Uuid) -> (Seq<char>, Seq<char>) {
    match found::<ActorRecord>(h.store.actors, actor_id) {
        Some(a) => if trim(a.git_email).len() > 0 {
            (a.git_name, a.git_email)
        } else {
            (a.git_name, h.git_email)
        },
        None => (h.git_name, h.git_email),
    }
}

/// A primary commit author must have a usable address; Weave never invents
/// one.
pub open spec fn author_fault(h: HostView, actor_id: Uuid) -> Option<ErrorView> {
    if trim(commit_author(h, actor_id).1).len() == 0 {
        Some(
            detailed(
                ErrorClass::UsageError,
                "No Git email address is configured for the commit author."@,
                "Run `git config user.email you@example.com` on the requesting machine (and on the host), then prepare the publication again."@,
            ),
        )
    } else if trim(h.git_email).len() == 0 {
        Some(
            detailed(
                ErrorClass::UsageError,
                "The Weave host has no Git email address configured."@,
                "Run `git config user.email you@example.com` on the host and retry."@,
            ),
        )
    } else {
        None
    }
}

pub open spec fn trailer_of(name: Seq<char>, email: Seq<char>) -> Seq<char> {
    "Co-authored-by: "@ + name + " <"@ + email + ">"@
}

/// One trailer per contributor with an address other than the author's, each
/// once.
pub open spec fn trailers_of(list: Seq<ContributorView>, author_email: Seq<char>) -> Seq<Seq<char>>
    decreases list.len(),
{
    if list.len() == 0 {
        Seq::empty()
    } else {
        let before = trailers_of(list.drop_last(), author_email);
        match list.last().email {
            None => before,
            Some(email) => if email == author_email || before.contains(
                trailer_of(list.last().display_name, email),
            ) {
                before
            } else {
                before.push(trailer_of(list.last().display_name, email))
            },
        }
    }
}

/// The full commit message.
pub open spec fn commit_message(prep: PreparationView, message: Seq<char>, author_email: Seq<char>) -> Seq<
    char,
> {
    let trailers = sort_list(trailers_of(prep.contributors, author_email));
    let head = trim_end(message);
    if trailers.len() == 0 {
        head + "\n"@
    } else {
        head + "\n\n"@ + join(trailers, "\n"@) + "\n"@
    }
}

/// The commit that will be made of a tree.
pub open spec fn descriptor_of(
    h: HostView,
    prep: PreparationView,
    actor_id: Uuid,
    message: Seq<char>,
    tree_oid: Seq<char>,
    timestamp: i64,
) -> DescriptorView {
    let (author_name, author_email) = commit_author(h, actor_id);
    DescriptorView {
        prepare_id: prep.prepare_id,
        target_revision: prep.target_revision,
        parent_commit_oid: prep.parent_commit_oid,
        tree_oid,
        commit_oid: Seq::empty(),
        author_name,
        author_email,
        committer_name: h.git_name,
        committer_email: h.git_email,
        timestamp,
        timezone: "+0000"@,
        message: commit_message(prep, message, author_email),
        contributing_task_ids: prep.included_task_ids,
        branch: h.branch,
    }
}

/// Record a publication before any ref is touched, so a crash leaves a journal
/// to repair.
pub open spec fn record_rule(
    h: HostView,
    d: DescriptorView,
    commit_oid: Seq<char>,
    now_ms: i64,
) -> (HostView, PublicationView) {
    let p = PublicationView {
        descriptor: DescriptorView { commit_oid, ..d },
        stage: PublicationStage::ObjectsInstalled,
        push_status: PushStatus::NotAttempted,
        push_error: None,
        created_at_ms: now_ms,
        sequence: match h.store.latest() {
            Some(last) => (last.sequence + 1) as u64,
            None => 1,
        },
    };
    (save_publication(h, p), p)
}

pub open spec fn save_publication(h: HostView, p: PublicationView) -> HostView {
    h.with_store(
        StoreView {
            publications: filed(h.store.publications, p),
            ..h.store
        },
    )
}

/// The branch has moved to the commit.
pub open spec fn ref_updated_rule(h: HostView, p: PublicationView) -> (HostView, PublicationView) {
    let next = PublicationView { stage: PublicationStage::RefUpdated, ..p };
    (
        HostView { expected_head: p.descriptor.commit_oid, ..save_publication(h, next) },
        next,
    )
}

/// The index has moved too: the publication is complete and its preparation
/// used up.
pub open spec fn completed_rule(h: HostView, p: PublicationView) -> (HostView, PublicationView) {
    let next = PublicationView { stage: PublicationStage::Complete, ..p };
    let saved = save_publication(h, next);
    (
        match found::<CommitPreparation>(saved.store.preparations, p.descriptor.prepare_id) {
            Some(prep) => saved.with_store(
                StoreView {
                    preparations: stored::<CommitPreparation>(
                        saved.store.preparations,
                        PreparationView { status: PrepareStatus::Published, ..prep },
                    ),
                    ..saved.store
                },
            ),
            None => saved,
        },
        next,
    )
}

/// How a push went, when one was tried.
pub struct PushView {
    pub ok: bool,
    pub diverged: bool,
    pub message: Seq<char>,
}

pub open spec fn divergence_text(raw: Seq<char>) -> Seq<char> {
    "Remote branch diverged from the Weave session.\n\nAutomatic reconciliation with external Git history is not supported in V1.\n\n"@
        + raw
}

/// What is recorded of the automatic push after a commit.
pub open spec fn with_push(p: PublicationView, push: Option<PushView>) -> PublicationView {
    match push {
        None => PublicationView { push_status: PushStatus::NoUpstream, ..p },
        Some(r) => if r.ok {
            PublicationView { push_status: PushStatus::Pushed, ..p }
        } else if r.diverged {
            PublicationView {
                push_status: PushStatus::Diverged,
                push_error: Some(divergence_text(r.message)),
                ..p
            }
        } else {
            PublicationView { push_status: PushStatus::Failed, push_error: Some(r.message), ..p }
        },
    }
}

pub open spec fn pushed_rule(h: HostView, p: PublicationView, push: Option<PushView>) -> (
    HostView,
    PublicationView,
) {
    let next = with_push(p, push);
    let saved = save_publication(h, next);
    (saved.with_store(saved.store.bumped()), next)
}

/// Announce a publication on every connection.
pub open spec fn announce(h: HostView, conns: Seq<ConnView>, p: PublicationView) -> HostView
    decreases conns.len(),
{
    if conns.len() == 0 {
        h
    } else {
        send_publication(announce(h, conns.drop_last(), p), conns.last().id, p)
    }
}

/// Answer a commit request.
pub open spec fn commit_done_rule(h: HostView, conn_id: u64, request_id: Uuid, outcome: CommitView) -> HostView {
    let told = match outcome {
        CommitView::Published(p) => announce(h, h.conns, p),
        CommitView::Rejected(_) => h,
    };
    told.send(conn_id, HostMessageView::CommitResult { request_id, outcome }).broadcast_control()
}

/// Whether a push request can be tried, or how it is answered.
pub open spec fn push_refused(h: HostView) -> Option<(PushStatus, Seq<char>)> {
    if h.store.latest() is None {
        Some((PushStatus::NotAttempted, "Nothing has been published yet."@))
    } else if h.remote is None {
        Some((PushStatus::NoUpstream, "This branch has no upstream remote."@))
    } else {
        None
    }
}

/// How a requested push is reported.
pub open spec fn push_report(remote: Seq<char>, branch: Seq<char>, r: PushView) -> (
    PushStatus,
    Seq<char>,
) {
    if r.ok {
        (PushStatus::Pushed, "Pushed to "@ + remote + "/"@ + branch + "."@)
    } else if r.diverged {
        (PushStatus::Diverged, divergence_text(r.message))
    } else {
        (PushStatus::Failed, r.message)
    }
}

/// A push request was tried: record it on the newest publication and say so.
pub open spec fn push_rule(h: HostView, conn_id: u64, request_id: Uuid, r: PushView) -> HostView {
    let (status, message) = push_report(h.remote->0, h.branch, r);
    let p = h.store.latest()->0;
    let next = PublicationView {
        push_status: status,
        push_error: if status == PushStatus::Pushed {
            None
        } else {
            Some(message)
        },
        ..p
    };
    let saved = save_publication(h, next);
    saved.with_store(saved.store.bumped()).send(
        conn_id,
        HostMessageView::PushResult { request_id, status, message },
    ).broadcast_control()
}

} // verus!
