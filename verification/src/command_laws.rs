//! What a command comes to: which item an identifier means, what a resolution
//! resolves to, what is shown, and what goes to the host.

use vstd::prelude::*;

use crate::client_ipc::{
    count_active, count_named, count_open, create_commit, detail_of, dismiss_conflict, end_task,
    find_conflict, find_rule, find_task, first_named, id_position, names, overlaps_of, peer_name,
    resolution_entry, resolve_conflict, scopes_of, start_task, status_of, supplied_entry, touches,
    touching, update_task, Chosen,
};
use crate::client_rules::{
    call_of, complete_request, without_request, AnswerView, ClientEffectView, ClientView,
    PendingRequest, WorkView,
};
use crate::error::ErrorClass;
use crate::ipc::ResolveSource;
use crate::model::{
    ConflictStatus, ConflictView, EntryView, GitMode, Ingested, PeerView, ScopeView, TaskStatus,
    TaskView,
};
use crate::proto::ClientMessageView;
use crate::store_client::count_working;
use crate::store_client::PathRowView;
use crate::text::{same_ignoring_case, trim};
use crate::text_laws::{is_blank, trimming_takes_blanks_only};
use crate::util::{a_notation_names_one_identifier, is_notation, parsed_uuid, short_form, Uuid};

verus! {

// ---------------------------------------------------------------------------
// Identifiers
// ---------------------------------------------------------------------------

proof fn lemma_position(ids: Seq<Uuid>, id: Uuid)
    ensures
        0 <= id_position(ids, id) <= ids.len(),
        id_position(ids, id) < ids.len() ==> ids[id_position(ids, id)] == id,
        id_position(ids, id) == ids.len() ==> !ids.contains(id),
    decreases ids.len(),
{
    if ids.len() > 0 && ids[0] != id {
        let rest = ids.drop_first();
        lemma_position(rest, id);
        if id_position(ids, id) == ids.len() && ids.contains(id) {
            let k = choose|k: int| 0 <= k < ids.len() && ids[k] == id;
            assert(rest[k - 1] == id);
        }
    }
}

/// The full identifier of an item, in any notation and with blanks around it,
/// finds that item.
pub proof fn a_full_identifier_finds_its_item(
    ids: Seq<Uuid>,
    letter: char,
    raw: Seq<char>,
    label: Seq<char>,
    k: int,
)
    requires
        0 <= k < ids.len(),
        is_notation(trim(raw), ids[k]),
    ensures
        find_rule(ids, letter, raw, label) matches Ok(at) && 0 <= at < ids.len() && ids[at]
            == ids[k],
{
    a_notation_names_one_identifier(trim(raw), ids[k]);
    lemma_position(ids, ids[k]);
    assert(ids.contains(ids[k]));
}

proof fn lemma_named(ids: Seq<Uuid>, letter: char, needle: Seq<char>)
    ensures
        ({
            let n = count_named(ids, letter, needle);
            let at = first_named(ids, letter, needle);
            &&& 0 <= at <= ids.len()
            &&& at < ids.len() ==> names(letter, ids[at], needle)
            &&& forall|j: int| 0 <= j < at ==> !names(letter, #[trigger] ids[j], needle)
            &&& (n == 0) == (at == ids.len())
        }),
    decreases ids.len(),
{
    if ids.len() > 0 {
        let rest = ids.drop_first();
        lemma_named(rest, letter, needle);
        lemma_count_first(ids, letter, needle);
        if !names(letter, ids[0], needle) {
            let at = first_named(ids, letter, needle);
            assert forall|j: int| 0 <= j < at implies !names(letter, #[trigger] ids[j], needle) by {
                if j > 0 {
                    assert(rest[j - 1] == ids[j]);
                }
            }
        }
    }
}

proof fn lemma_count_first(ids: Seq<Uuid>, letter: char, needle: Seq<char>)
    requires
        ids.len() > 0,
    ensures
        count_named(ids, letter, needle) == count_named(ids.drop_first(), letter, needle) + (
        if names(letter, ids[0], needle) {
            1nat
        } else {
            0
        }),
    decreases ids.len(),
{
    if ids.len() == 1 {
        assert(ids.drop_last() =~= Seq::<Uuid>::empty());
        assert(ids.drop_first() =~= Seq::<Uuid>::empty());
        reveal_with_fuel(count_named, 2);
    } else {
        lemma_count_first(ids.drop_last(), letter, needle);
        assert(ids.drop_last().drop_first() =~= ids.drop_first().drop_last());
        assert(ids.drop_first().last() == ids.last());
        assert(ids.drop_last()[0] == ids[0]);
    }
}

/// What a person wrote finds an item exactly when it is the identifier of one, or
/// names just one; what is found is that one.
pub proof fn a_name_finds_the_one_item_it_means(
    ids: Seq<Uuid>,
    letter: char,
    raw: Seq<char>,
    label: Seq<char>,
)
    ensures
        ({
            let needle = trim(raw);
            let id = parsed_uuid(needle);
            let known = id is Some && ids.contains(id->0);
            match find_rule(ids, letter, raw, label) {
                Ok(at) => {
                    &&& 0 <= at < ids.len()
                    &&& known ==> ids[at] == id->0
                    &&& !known ==> names(letter, ids[at], needle) && forall|j: int|
                        0 <= j < ids.len() && j != at ==> !names(letter, #[trigger] ids[j], needle)
                },
                Err(e) => {
                    &&& !known
                    &&& e.class == ErrorClass::UsageError
                    &&& (forall|j: int| 0 <= j < ids.len() ==> !names(letter, #[trigger] ids[j], needle))
                        || exists|i: int, j: int|
                        0 <= i < j < ids.len() && names(letter, #[trigger] ids[i], needle) && names(
                            letter,
                            #[trigger] ids[j],
                            needle,
                        )
                },
            }
        }),
{
    let needle = trim(raw);
    if let Some(id) = parsed_uuid(needle) {
        lemma_position(ids, id);
        if id_position(ids, id) < ids.len() {
            assert(ids.contains(id));
        }
    }
    lemma_named(ids, letter, needle);
    let n = count_named(ids, letter, needle);
    let at = first_named(ids, letter, needle);
    if at < ids.len() {
        let rest = ids.skip(at + 1);
        lemma_named(rest, letter, needle);
        lemma_count_skip(ids, letter, needle, at);
        let next = first_named(rest, letter, needle);
        if n == 1 {
            assert forall|j: int| 0 <= j < ids.len() && j != at implies !names(
                letter,
                #[trigger] ids[j],
                needle,
            ) by {
                if j > at {
                    assert(rest[j - at - 1] == ids[j]);
                }
            }
        } else {
            assert(rest[next] == ids[at + 1 + next]);
            assert(names(letter, ids[at], needle) && names(letter, ids[at + 1 + next], needle));
        }
    }
}

proof fn lemma_count_skip(ids: Seq<Uuid>, letter: char, needle: Seq<char>, at: int)
    requires
        0 <= at < ids.len(),
        names(letter, ids[at], needle),
        forall|j: int| 0 <= j < at ==> !names(letter, #[trigger] ids[j], needle),
    ensures
        count_named(ids, letter, needle) == count_named(ids.skip(at + 1), letter, needle) + 1,
    decreases at,
{
    lemma_count_first(ids, letter, needle);
    let rest = ids.drop_first();
    if at == 0 {
        assert(ids.skip(1) =~= rest);
    } else {
        assert(!names(letter, ids[0], needle));
        assert forall|j: int| 0 <= j < at - 1 implies !names(letter, #[trigger] rest[j], needle) by {
            assert(rest[j] == ids[j + 1]);
        }
        lemma_count_skip(rest, letter, needle, at - 1);
        assert(rest.skip(at) =~= ids.skip(at + 1));
    }
}

/// The short identifier an item is shown under names it, in letters of either
/// case.
pub proof fn a_short_identifier_names_its_item(letter: char, id: Uuid, needle: Seq<char>)
    requires
        same_ignoring_case(short_form(letter, id), needle),
    ensures
        names(letter, id, needle),
{
}

/// A task or a conflict that is found is one of those the replica knows.
pub proof fn what_is_found_is_known(v: ClientView, needle: Seq<char>)
    ensures
        find_task(v, needle) matches Ok(t) ==> v.control is Some && v.control->0.tasks.contains(t),
        find_conflict(v, needle) matches Ok(c) ==> v.control is Some
            && v.control->0.conflicts.contains(c),
{
    let tasks = crate::client_ipc::tasks_of(v);
    let conflicts = crate::client_ipc::conflicts_of(v);
    a_name_finds_the_one_item_it_means(crate::client_ipc::task_ids(tasks), 'T', needle, "Task"@);
    a_name_finds_the_one_item_it_means(
        crate::client_ipc::conflict_ids(conflicts),
        'C',
        needle,
        "conflict"@,
    );
    if let Ok(at) = find_rule(crate::client_ipc::task_ids(tasks), 'T', needle, "Task"@) {
        assert(tasks.contains(tasks[at]));
    }
    if let Ok(at) = find_rule(crate::client_ipc::conflict_ids(conflicts), 'C', needle, "conflict"@) {
        assert(conflicts.contains(conflicts[at]));
    }
}

// ---------------------------------------------------------------------------
// Overlaps
// ---------------------------------------------------------------------------

proof fn lemma_touching(mine: Seq<ScopeView>, other: Seq<ScopeView>)
    ensures
        (touching(mine, other).len() == 0) == forall|i: int, j: int|
            0 <= i < mine.len() && 0 <= j < other.len() ==> !(#[trigger] mine[i]).overlapping(
                #[trigger] other[j],
            ),
    decreases other.len(),
{
    if other.len() > 0 {
        let front = other.drop_last();
        lemma_touching(mine, front);
        let last = other[other.len() - 1];
        if touches(mine, last) {
            let i = choose|i: int| 0 <= i < mine.len() && (#[trigger] mine[i]).overlapping(last);
            assert(mine[i].overlapping(other[other.len() - 1]));
        } else if touching(mine, front).len() == 0 {
            assert forall|i: int, j: int| 0 <= i < mine.len() && 0 <= j < other.len() implies !(
            #[trigger] mine[i]).overlapping(#[trigger] other[j]) by {
                if j < front.len() {
                    assert(front[j] == other[j]);
                    assert(!mine[i].overlapping(front[j]));
                }
            }
        } else {
            let (i, j) = choose|i: int, j: int|
                0 <= i < mine.len() && 0 <= j < front.len() && (#[trigger] mine[i]).overlapping(
                    #[trigger] front[j],
                );
            assert(other[j] == front[j]);
            assert(mine[i].overlapping(other[j]));
        }
    }
}

/// A task is shown to overlap another exactly when that is a different one,
/// still active, and some scope of the one overlaps some scope of the other.
pub proof fn overlapping_tasks_are_shown(tasks: Seq<TaskView>, task: TaskView, id: Uuid)
    ensures
        (exists|k: int|
            0 <= k < overlaps_of(tasks, task).len() && (#[trigger] overlaps_of(
                tasks,
                task,
            )[k]).task_id == id) == exists|n: int|
            {
                &&& 0 <= n < tasks.len()
                &&& (#[trigger] tasks[n]).id == id
                &&& id != task.id
                &&& tasks[n].status == TaskStatus::Active
                &&& exists|i: int, j: int|
                    0 <= i < task.scopes.len() && 0 <= j < tasks[n].scopes.len() && (
                    #[trigger] task.scopes[i]).overlapping(#[trigger] tasks[n].scopes[j])
            },
    decreases tasks.len(),
{
    if tasks.len() > 0 {
        let front = tasks.drop_last();
        let before = overlaps_of(front, task);
        let all = overlaps_of(tasks, task);
        let other = tasks[tasks.len() - 1];
        overlapping_tasks_are_shown(front, task, id);
        lemma_touching(task.scopes, other.scopes);
        if exists|k: int| 0 <= k < before.len() && (#[trigger] before[k]).task_id == id {
            let k = choose|k: int| 0 <= k < before.len() && (#[trigger] before[k]).task_id == id;
            assert(all[k] == before[k]);
            let n = choose|n: int|
                {
                    &&& 0 <= n < front.len()
                    &&& (#[trigger] front[n]).id == id
                    &&& id != task.id
                    &&& front[n].status == TaskStatus::Active
                    &&& exists|i: int, j: int|
                        0 <= i < task.scopes.len() && 0 <= j < front[n].scopes.len() && (
                        #[trigger] task.scopes[i]).overlapping(#[trigger] front[n].scopes[j])
                };
            assert(tasks[n] == front[n]);
        }
        if all.len() > before.len() {
            assert(all[before.len() as int].task_id == other.id);
            let (i, j) = choose|i: int, j: int|
                0 <= i < task.scopes.len() && 0 <= j < other.scopes.len() && (
                #[trigger] task.scopes[i]).overlapping(#[trigger] other.scopes[j]);
            assert(tasks[tasks.len() - 1].id == other.id);
        }
        if exists|k: int| 0 <= k < all.len() && (#[trigger] all[k]).task_id == id {
            let k = choose|k: int| 0 <= k < all.len() && (#[trigger] all[k]).task_id == id;
            if k < before.len() {
                assert(before[k] == all[k]);
            }
        }
        if exists|n: int|
            {
                &&& 0 <= n < tasks.len()
                &&& (#[trigger] tasks[n]).id == id
                &&& id != task.id
                &&& tasks[n].status == TaskStatus::Active
                &&& exists|i: int, j: int|
                    0 <= i < task.scopes.len() && 0 <= j < tasks[n].scopes.len() && (
                    #[trigger] task.scopes[i]).overlapping(#[trigger] tasks[n].scopes[j])
            } {
            let n = choose|n: int|
                {
                    &&& 0 <= n < tasks.len()
                    &&& (#[trigger] tasks[n]).id == id
                    &&& id != task.id
                    &&& tasks[n].status == TaskStatus::Active
                    &&& exists|i: int, j: int|
                        0 <= i < task.scopes.len() && 0 <= j < tasks[n].scopes.len() && (
                        #[trigger] task.scopes[i]).overlapping(#[trigger] tasks[n].scopes[j])
                };
            if n < front.len() {
                assert(front[n] == tasks[n]);
            }
        }
    }
}

// ---------------------------------------------------------------------------
// Resolutions
// ---------------------------------------------------------------------------

/// What a resolution resolves to is what its source says: nothing, what is
/// canonical, the incoming candidate, the newest local one, the working file, or
/// the file that was supplied. A candidate has to be at hand.
pub proof fn a_resolution_takes_what_its_source_says(
    v: ClientView,
    c: ConflictView,
    file: Option<Seq<char>>,
)
    ensures
        ({
            let held = |e: Option<EntryView>|
                e is None || v.traffic.store.contains_key(e->0.blob_hash);
            let newest = if c.latest_local_candidate is Some {
                c.latest_local_candidate
            } else {
                c.incoming_entry
            };
            &&& resolution_entry(v, c, ResolveSource::Delete, file) == Chosen::Entry(None)
            &&& resolution_entry(v, c, ResolveSource::Canonical, file) == Chosen::Entry(
                v.state(c.path).confirmed,
            )
            &&& held(c.incoming_entry) ==> resolution_entry(v, c, ResolveSource::Incoming, file)
                == Chosen::Entry(c.incoming_entry)
            &&& !held(c.incoming_entry) ==> resolution_entry(v, c, ResolveSource::Incoming, file)
                is Fault
            &&& held(newest) ==> resolution_entry(v, c, ResolveSource::LocalCandidate, file)
                == Chosen::Entry(newest)
            &&& !held(newest) ==> resolution_entry(v, c, ResolveSource::LocalCandidate, file) is Fault
            &&& resolution_entry(v, c, ResolveSource::WorkingTree, file) is WorkingTree
            &&& file is Some ==> resolution_entry(v, c, ResolveSource::Supplied, file)
                == Chosen::File(file->0)
            &&& file is None ==> resolution_entry(v, c, ResolveSource::Supplied, file) is Fault
        }),
{
}

/// A supplied file is taken with its content, in the mode the path has, unless
/// it is not there or above ten mebibytes.
pub proof fn a_supplied_file_is_taken_as_it_is(
    c: ConflictView,
    file: Seq<char>,
    ingested: Option<Ingested>,
)
    ensures
        match supplied_entry(c, file, ingested) {
            Ok(e) => {
                &&& ingested is Some
                &&& ingested->0.size <= 10 * 1024 * 1024
                &&& e.blob_hash == ingested->0.hash@
                &&& e.size == ingested->0.size
                &&& c.canonical_entry is Some ==> e.git_mode == c.canonical_entry->0.git_mode
                &&& c.canonical_entry is None ==> e.git_mode == GitMode::Regular
            },
            Err(_) => ingested is None || ingested->0.size > 10 * 1024 * 1024,
        },
{
}

// ---------------------------------------------------------------------------
// Requests
// ---------------------------------------------------------------------------

/// A request went to the host under a number of its own, and its answer will go
/// to whoever asked.
pub open spec fn is_forwarded(
    v: ClientView,
    next: ClientView,
    call: u64,
    request_id: Uuid,
    m: ClientMessageView,
) -> bool {
    &&& next.requests == v.requests.push(PendingRequest { request_id, call })
    &&& v.attached ==> next.outbox == v.outbox.push(ClientEffectView::Send(m))
    &&& next.replica == v.replica
    &&& next.todo == v.todo
}

/// A request is answered with an error, and nothing else happens.
pub open spec fn is_refused(v: ClientView, next: ClientView, call: u64) -> bool {
    &&& next.outbox.len() == v.outbox.len() + 1
    &&& match next.outbox.last() {
        ClientEffectView::Answer { call: c, answer } => c == call && answer is Failed,
        _ => false,
    }
    &&& next.replica == v.replica
    &&& next.todo == v.todo
    &&& next.requests == v.requests
}

/// A task is asked to be started exactly when there is a host, a description
/// that says something, and scopes that can be read; the host gets both as they
/// were given.
pub proof fn starting_a_task_asks_the_host(
    v: ClientView,
    call: u64,
    description: Seq<char>,
    scopes: Seq<Seq<char>>,
    first: Uuid,
    second: Uuid,
)
    ensures
        ({
            let next = start_task(v, call, description, scopes, first, second);
            let goes = v.connected && !is_blank(description) && scopes_of(scopes) is Ok;
            &&& goes ==> is_forwarded(
                v,
                next,
                call,
                first,
                ClientMessageView::TaskStart {
                    request_id: first,
                    task_id: second,
                    description,
                    scopes: scopes_of(scopes)->Ok_0,
                },
            )
            &&& !goes ==> is_refused(v, next, call)
        }),
{
    reveal(start_task);
    trimming_takes_blanks_only(description);
}

/// A task is changed, completed or cancelled by name: the host is asked about
/// the task that was found, and nobody is where none was.
pub proof fn changing_a_task_asks_the_host(
    v: ClientView,
    call: u64,
    id: Seq<char>,
    description: Option<Seq<char>>,
    scopes: Option<Seq<Seq<char>>>,
    first: Uuid,
)
    ensures
        ({
            let t = find_task(v, id);
            let readable = scopes is None || scopes_of(scopes->0) is Ok;
            let updated = update_task(v, call, id, description, scopes, first);
            let completed = end_task(v, call, id, true, first);
            let cancelled = end_task(v, call, id, false, first);
            &&& v.connected && t is Ok && readable ==> is_forwarded(
                v,
                updated,
                call,
                first,
                ClientMessageView::TaskUpdate {
                    request_id: first,
                    task_id: t->Ok_0.id,
                    description,
                    scopes: if scopes is Some {
                        Some(scopes_of(scopes->0)->Ok_0)
                    } else {
                        None
                    },
                },
            )
            &&& !(v.connected && t is Ok && readable) ==> is_refused(v, updated, call)
            &&& v.connected && t is Ok ==> is_forwarded(
                v,
                completed,
                call,
                first,
                ClientMessageView::TaskComplete { request_id: first, task_id: t->Ok_0.id },
            ) && is_forwarded(
                v,
                cancelled,
                call,
                first,
                ClientMessageView::TaskCancel { request_id: first, task_id: t->Ok_0.id },
            )
            &&& !(v.connected && t is Ok) ==> is_refused(v, completed, call) && is_refused(
                v,
                cancelled,
                call,
            )
        }),
{
    reveal(update_task);
    reveal(end_task);
}

/// A conflict is dismissed by name, and a commit made of the preparation that
/// was named, with the message as it was given.
pub proof fn dismissing_and_committing_ask_the_host(
    v: ClientView,
    call: u64,
    id: Seq<char>,
    message: Seq<char>,
    first: Uuid,
)
    ensures
        ({
            let c = find_conflict(v, id);
            let dismissed = dismiss_conflict(v, call, id, first);
            let p = parsed_uuid(trim(id));
            let committed = create_commit(v, call, id, message, first);
            &&& v.connected && c is Ok ==> is_forwarded(
                v,
                dismissed,
                call,
                first,
                ClientMessageView::DismissConflict { request_id: first, conflict_id: c->Ok_0.id },
            )
            &&& !(v.connected && c is Ok) ==> is_refused(v, dismissed, call)
            &&& v.connected && p is Some ==> is_forwarded(
                v,
                committed,
                call,
                first,
                ClientMessageView::CommitCreate { request_id: first, prepare_id: p->0, message },
            )
            &&& !(v.connected && p is Some) ==> is_refused(v, committed, call)
        }),
{
    reveal(dismiss_conflict);
    reveal(create_commit);
}

/// A conflict is resolved only while it is open and there is a host: from the
/// working file or a supplied one after it has been read, and refused where the
/// source has nothing to offer.
pub proof fn only_an_open_conflict_is_resolved(
    v: ClientView,
    call: u64,
    id: Seq<char>,
    source: ResolveSource,
    file: Option<Seq<char>>,
    first: Uuid,
    second: Uuid,
)
    ensures
        ({
            let c = find_conflict(v, id);
            let next = resolve_conflict(v, call, id, source, file, first, second);
            let goes = v.connected && c is Ok && c->Ok_0.status == ConflictStatus::Open;
            &&& !goes ==> is_refused(v, next, call)
            &&& goes ==> match resolution_entry(v, c->Ok_0, source, file) {
                Chosen::Fault(_) => is_refused(v, next, call),
                Chosen::WorkingTree => next == v.first(
                    seq![WorkView::ResolveRead { call, conflict: c->Ok_0 }],
                ),
                Chosen::File(f) => next == v.first(
                    seq![WorkView::ResolveIngest { call, conflict: c->Ok_0, file: f }],
                ),
                Chosen::Entry(_) => true,
            }
        }),
{
    reveal(resolve_conflict);
}

/// The host's answer goes to whoever asked under its number, once; an answer to
/// nothing changes nothing.
pub proof fn an_answer_goes_to_whoever_asked(v: ClientView, request_id: Uuid, answer: AnswerView, i: int)
    requires
        0 <= i < v.requests.len(),
        v.requests[i].request_id == request_id,
        forall|k: int| 0 <= k < i ==> (#[trigger] v.requests[k]).request_id != request_id,
    ensures
        ({
            let next = complete_request(v, request_id, answer);
            &&& next.outbox == v.outbox.push(
                ClientEffectView::Answer { call: v.requests[i].call, answer },
            )
            &&& next.requests == v.requests.remove(i)
            &&& next.replica == v.replica
        }),
{
    reveal(complete_request);
    lemma_request(v.requests, request_id, i);
}

proof fn lemma_request(list: Seq<PendingRequest>, request_id: Uuid, i: int)
    requires
        0 <= i < list.len(),
        list[i].request_id == request_id,
        forall|k: int| 0 <= k < i ==> (#[trigger] list[k]).request_id != request_id,
    ensures
        call_of(list, request_id) == Some(list[i].call),
        without_request(list, request_id) == list.remove(i),
    decreases list.len(),
{
    if i == 0 {
        assert(list.remove(0) =~= list.drop_first());
    } else {
        let rest = list.drop_first();
        assert(list[0].request_id != request_id);
        assert forall|k: int| 0 <= k < i - 1 implies (#[trigger] rest[k]).request_id
            != request_id by {
            assert(rest[k] == list[k + 1]);
        }
        lemma_request(rest, request_id, i - 1);
        assert(list.remove(i) =~= seq![list[0]] + rest.remove(i - 1));
    }
}

// ---------------------------------------------------------------------------
// Status
// ---------------------------------------------------------------------------

proof fn lemma_counts(tasks: Seq<TaskView>, conflicts: Seq<ConflictView>, rows: Seq<PathRowView>)
    ensures
        count_active(tasks) == tasks.filter(|t: TaskView| t.status == TaskStatus::Active).len(),
        count_open(conflicts) == conflicts.filter(
            |c: ConflictView| c.status == ConflictStatus::Open,
        ).len(),
        count_working(rows) == rows.filter(
            |r: PathRowView|
                r.state.in_flight is Some || r.state.pending_local is Some || r.state.conflict_draft
                    is Some,
        ).len(),
    decreases tasks.len() + conflicts.len() + rows.len(),
{
    reveal(Seq::filter);
    if tasks.len() > 0 {
        lemma_counts(tasks.drop_last(), conflicts, rows);
    } else if conflicts.len() > 0 {
        lemma_counts(tasks, conflicts.drop_last(), rows);
    } else if rows.len() > 0 {
        lemma_counts(tasks, conflicts, rows.drop_last());
    }
    if conflicts.len() > 0 {
        lemma_counts_of(conflicts.drop_last(), Seq::empty());
        lemma_counts_of(conflicts, Seq::empty());
    }
    lemma_counts_of(conflicts, rows);
}

proof fn lemma_counts_of(conflicts: Seq<ConflictView>, rows: Seq<PathRowView>)
    ensures
        count_open(conflicts) == conflicts.filter(
            |c: ConflictView| c.status == ConflictStatus::Open,
        ).len(),
        count_working(rows) == rows.filter(
            |r: PathRowView|
                r.state.in_flight is Some || r.state.pending_local is Some || r.state.conflict_draft
                    is Some,
        ).len(),
    decreases conflicts.len() + rows.len(),
{
    reveal(Seq::filter);
    if conflicts.len() > 0 {
        lemma_counts_of(conflicts.drop_last(), rows);
    }
    if rows.len() > 0 {
        lemma_counts_of(conflicts, rows.drop_last());
    }
}

/// The status shows the replica as it is: how far it is ahead of what was
/// published, what waits in its outbox, what is open, and what keeps it from
/// being live, its own reason before the host's.
pub proof fn the_status_shows_the_replica_as_it_is(v: ClientView)
    requires
        v.control is Some,
    ensures
        ({
            let s = status_of(v);
            let c = v.control->0;
            &&& s.live_revision == v.replica.last_applied_revision
            &&& c.publication is None ==> s.published_revision == 0
            &&& c.publication is Some ==> s.published_revision
                == c.publication->0.descriptor.target_revision
            &&& s.revisions_ahead as int == if s.live_revision > s.published_revision {
                s.live_revision - s.published_revision
            } else {
                0
            }
            &&& s.tasks_active == c.tasks.filter(|t: TaskView| t.status == TaskStatus::Active).len()
            &&& s.conflicts_open == c.conflicts.filter(
                |x: ConflictView| x.status == ConflictStatus::Open,
            ).len()
            &&& s.outbox_pending == v.replica.states.filter(
                |r: PathRowView|
                    r.state.in_flight is Some || r.state.pending_local is Some
                        || r.state.conflict_draft is Some,
            ).len()
            &&& s.connected == v.connected
            &&& s.participants == v.peers
            &&& s.rejected_paths == v.rejected
            &&& s.notices == v.notices
            &&& s.branch == v.branch
            &&& !(v.local_state is Live) ==> s.sync_state == v.local_state
            &&& v.local_state is Live ==> s.sync_state == v.host_state
        }),
{
    reveal(status_of);
    lemma_counts(v.control->0.tasks, v.control->0.conflicts, v.replica.states);
}

/// A participant is named by what the session calls them.
pub proof fn a_participant_is_named(list: Seq<PeerView>, actor_id: Uuid)
    ensures
        match peer_name(list, actor_id) {
            Some(name) => exists|i: int|
                0 <= i < list.len() && (#[trigger] list[i]).actor_id == actor_id
                    && list[i].display_name == name,
            None => forall|i: int| 0 <= i < list.len() ==> (#[trigger] list[i]).actor_id != actor_id,
        },
    decreases list.len(),
{
    if list.len() > 0 {
        let rest = list.drop_first();
        a_participant_is_named(rest, actor_id);
        if list[0].actor_id == actor_id {
            assert(list[0].display_name == peer_name(list, actor_id)->0);
        } else {
            match peer_name(rest, actor_id) {
                Some(name) => {
                    let i = choose|i: int|
                        0 <= i < rest.len() && (#[trigger] rest[i]).actor_id == actor_id
                            && rest[i].display_name == name;
                    assert(list[i + 1] == rest[i]);
                },
                None => {
                    assert forall|i: int| 0 <= i < list.len() implies (#[trigger] list[i]).actor_id
                        != actor_id by {
                        if i > 0 {
                            assert(rest[i - 1] == list[i]);
                        }
                    }
                },
            }
        }
    }
}

/// A conflict is shown as it is on record, with what the path is now and whose
/// work met it.
pub proof fn a_conflict_is_shown_as_it_is(v: ClientView, c: ConflictView)
    ensures
        detail_of(v, c).conflict == c,
        detail_of(v, c).current_canonical == v.state(c.path).confirmed,
        detail_of(v, c).in_conflict_draft == v.state(c.path).conflict_draft is Some,
        detail_of(v, c).incoming_actor == peer_name(v.peers, c.incoming_actor_id),
        detail_of(v, c).short_id == crate::util::short_form('C', c.id),
        c.incoming_task_id is None ==> detail_of(v, c).incoming_task is None,
{
    reveal(detail_of);
}

} // verus!
