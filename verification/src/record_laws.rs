//! What the records of a replica and of canonical state say: which content they
//! name, what is missing, what a look through the tree keeps, and which scopes
//! are refused.

use vstd::prelude::*;

use crate::blobs::{Claims, EntryKind, Listed, Place};
use crate::client_ipc::{lines_of, scope_of, scope_parts, slashed};
use crate::error::{ErrorClass, ErrorView};
use crate::live::{abandoned, host_names, names, replica_names, state_names};
use crate::model::{ConflictStatus, ConflictView, EntryView, OperationView, TaskStatus, TaskView};
use crate::path::{key_of, path_fault};
use crate::proto::{OversizeView, RowView};
use crate::recover::{database_finding, is_missing, lost_references, reference_findings};
use crate::scan::{above, holder_of, scan_step, FoundView, ScanView, SeenView};
use crate::store_client::{
    drafted, is_outstanding, undrafted, unsent, FlightView, PathRowView, StateView,
};
use crate::store_host::{active_of, base_fault, colliding, held_by_others, open_of, StoreView};
use crate::text::{byte_len, decimal, find_char, number, trim};
use crate::util::{oid_head, size_form, Uuid};

verus! {

// ---------------------------------------------------------------------------
// Content that is named
// ---------------------------------------------------------------------------

/// An entry names exactly its own content.
pub proof fn an_entry_names_its_content(e: Option<EntryView>, hash: Seq<char>)
    ensures
        names(e, hash) == (e is Some && e->0.blob_hash == hash),
{
}

/// A replica names the content of everything it knows of a path: what is agreed,
/// what is on disk, what is under way and what it is based on, what waits, and a
/// draft; and of every conflict.
pub proof fn a_replica_names_all_it_knows(
    v: crate::client_rules::ClientView,
    e: EntryView,
    i: int,
)
    ensures
        ({
            let s = v.replica.states[i].state;
            0 <= i < v.replica.states.len() && (s.confirmed == Some(e) || s.materialized == Some(e)
                || s.in_flight is Some && (s.in_flight->0.base_entry == Some(e)
                || s.in_flight->0.desired == Some(e)) || s.pending_local is Some
                && s.pending_local->0.desired == Some(e) || s.conflict_draft is Some
                && s.conflict_draft->0.entry == Some(e)) ==> replica_names(v, e.blob_hash)
        }),
        v.control is Some && ({
            let list = v.control->0.conflicts;
            0 <= i < list.len() && (list[i].base_entry == Some(e) || list[i].canonical_entry == Some(e)
                || list[i].incoming_entry == Some(e) || list[i].latest_local_candidate == Some(e))
        }) ==> replica_names(v, e.blob_hash),
        0 <= i < v.awaiting_pack.len() ==> replica_names(v, v.awaiting_pack[i].hash),
{
    if 0 <= i < v.replica.states.len() {
        if state_names(v.replica.states[i].state, e.blob_hash) {
            assert(crate::live::states_name(
                v.replica.states,
                v.replica.states.len() as int,
                e.blob_hash,
            ));
        }
    }
    if v.control is Some {
        let list = v.control->0.conflicts;
        if 0 <= i < list.len() {
            if crate::live::conflict_names(list[i], e.blob_hash) {
                assert(crate::live::conflicts_name(list, list.len() as int, e.blob_hash));
            }
        }
    }
    if 0 <= i < v.awaiting_pack.len() {
        assert(crate::live::packs_name(
            v.awaiting_pack,
            v.awaiting_pack.len() as int,
            v.awaiting_pack[i].hash,
        ));
    }
}

/// Canonical state names the content of every file, of both sides of every
/// revision and of every side of every conflict, and nothing else.
pub proof fn canonical_state_names_all_its_content(s: StoreView, hash: Seq<char>)
    ensures
        host_names(s, hash) == {
            ||| exists|i: int| 0 <= i < s.rows.len() && (#[trigger] s.rows[i]).entry.blob_hash == hash
            ||| exists|i: int|
                0 <= i < s.log.len() && ((#[trigger] s.log[i]).before is Some
                    && s.log[i].before->0.blob_hash == hash || s.log[i].after is Some
                    && s.log[i].after->0.blob_hash == hash)
            ||| exists|i: int|
                0 <= i < s.conflicts.len() && ((#[trigger] s.conflicts[i]).base_entry is Some
                    && s.conflicts[i].base_entry->0.blob_hash == hash
                    || s.conflicts[i].canonical_entry is Some
                    && s.conflicts[i].canonical_entry->0.blob_hash == hash
                    || s.conflicts[i].incoming_entry is Some
                    && s.conflicts[i].incoming_entry->0.blob_hash == hash
                    || s.conflicts[i].latest_local_candidate is Some
                    && s.conflicts[i].latest_local_candidate->0.blob_hash == hash)
        },
{
    if exists|i: int|
        0 <= i < s.conflicts.len() && ((#[trigger] s.conflicts[i]).base_entry is Some
            && s.conflicts[i].base_entry->0.blob_hash == hash || s.conflicts[i].canonical_entry is Some
            && s.conflicts[i].canonical_entry->0.blob_hash == hash || s.conflicts[i].incoming_entry
            is Some && s.conflicts[i].incoming_entry->0.blob_hash == hash
            || s.conflicts[i].latest_local_candidate is Some
            && s.conflicts[i].latest_local_candidate->0.blob_hash == hash) {
        let i = choose|i: int|
            0 <= i < s.conflicts.len() && ((#[trigger] s.conflicts[i]).base_entry is Some
                && s.conflicts[i].base_entry->0.blob_hash == hash || s.conflicts[i].canonical_entry
                is Some && s.conflicts[i].canonical_entry->0.blob_hash == hash
                || s.conflicts[i].incoming_entry is Some
                && s.conflicts[i].incoming_entry->0.blob_hash == hash
                || s.conflicts[i].latest_local_candidate is Some
                && s.conflicts[i].latest_local_candidate->0.blob_hash == hash);
        assert(crate::live::conflict_names(s.conflicts[i], hash));
    }
}

/// A replica's sweep takes exactly what is of no use: old temporaries, partials
/// that nobody writes and that are old or installed, and old content that
/// neither the replica nor canonical state names. Old is an hour.
pub proof fn what_nothing_names_is_swept(
    v: crate::client_rules::ClientView,
    item: Listed,
    host: Seq<Seq<char>>,
    claims: Claims,
    now_ms: u64,
)
    ensures
        ({
            let old_enough = item.modified_ms is Some && item.modified_ms->0 + 3600000 <= now_ms;
            let name = item.name@;
            abandoned(v, item, host, claims, now_ms) == match item.place {
                Place::Root => item.kind != EntryKind::Directory && old_enough && name.len() >= 6
                    && name.take(6) == ".part-"@,
                Place::PartialDir => item.kind == EntryKind::File && !claims.claims(
                    crate::blobs::partial_path(v.traffic.place, name),
                ) && (old_enough || byte_len(name) == 64 && v.traffic.store.contains_key(name)),
                Place::Shard(shard) => item.kind == EntryKind::File && byte_len(shard@) == 2
                    && byte_len(name) == 64 && old_enough && !replica_names(v, name)
                    && !host.contains(name),
            }
        }),
{
    reveal_strlit(".part-");
    let name = item.name@;
    if name.len() >= 6 {
        assert(name.subrange(0, 6) =~= name.take(6));
    }
}

// ---------------------------------------------------------------------------
// What is missing
// ---------------------------------------------------------------------------

/// Canonical content is reported lost exactly for the files whose content is not
/// held.
pub proof fn lost_content_is_reported(held: Map<Seq<char>, u64>, list: Seq<RowView>)
    ensures
        (lost_references(held, list).len() == 0) == (forall|i: int|
            0 <= i < list.len() ==> held.contains_key((#[trigger] list[i]).entry.blob_hash)),
        lost_references(held, list).len() <= list.len(),
        forall|i: int|
            0 <= i < list.len() && !held.contains_key((#[trigger] list[i]).entry.blob_hash)
                ==> lost_references(held, list).contains(
                list[i].path + " -> "@ + list[i].entry.blob_hash,
            ),
    decreases list.len(),
{
    if list.len() > 0 {
        let front = list.drop_last();
        lost_content_is_reported(held, front);
        let before = lost_references(held, front);
        let all = lost_references(held, list);
        let last = list[list.len() - 1];
        assert forall|i: int|
            0 <= i < list.len() && !held.contains_key((#[trigger] list[i]).entry.blob_hash)
            implies all.contains(list[i].path + " -> "@ + list[i].entry.blob_hash) by {
            if i < front.len() {
                assert(front[i] == list[i]);
                let text = list[i].path + " -> "@ + list[i].entry.blob_hash;
                let k = choose|k: int| 0 <= k < before.len() && before[k] == text;
                assert(all[k] == text);
            } else {
                assert(all[before.len() as int] == last.path + " -> "@ + last.entry.blob_hash);
            }
        }
        if forall|i: int|
            0 <= i < list.len() ==> held.contains_key((#[trigger] list[i]).entry.blob_hash) {
            assert forall|i: int| 0 <= i < front.len() implies held.contains_key(
                (#[trigger] front[i]).entry.blob_hash,
            ) by {
                assert(front[i] == list[i]);
            }
        }
        if all.len() == 0 {
            assert forall|i: int| 0 <= i < list.len() implies held.contains_key(
                (#[trigger] list[i]).entry.blob_hash,
            ) by {
                if i < front.len() {
                    assert(front[i] == list[i]);
                }
            }
        }
    }
}

/// Content counts as missing exactly when it is named and not held.
pub proof fn what_is_not_held_is_missing(held: Map<Seq<char>, u64>, e: Option<EntryView>)
    ensures
        (is_missing(held, e) == 1) == (e is Some && !held.contains_key(e->0.blob_hash)),
        is_missing(held, e) <= 1,
{
}

/// The findings of a healthy machine say so: a database without problems, and
/// canonical content that is all there.
pub proof fn a_healthy_machine_is_said_to_be(what: Seq<char>, problems: Seq<Seq<char>>)
    ensures
        problems.len() == 0 ==> database_finding(what, problems) == what + " database integrity: ok"@,
        problems.len() > 0 ==> database_finding(what, problems) == what + " database problems: "@
            + crate::text::join(problems, "; "@),
        problems.len() == 0 ==> reference_findings(problems) == seq![
            "Canonical blob references: ok"@,
        ],
        problems.len() > 0 ==> reference_findings(problems).len() > 1
            && reference_findings(problems)[0] == "IntegrityError: "@ + decimal(problems.len())
            + " canonical blob reference(s) are missing"@,
{
    if problems.len() > 0 {
        lemma_shown(problems);
    }
}

proof fn lemma_shown(missing: Seq<Seq<char>>)
    requires
        missing.len() > 0,
    ensures
        crate::recover::shown_missing(missing).len() > 0,
{
}

// ---------------------------------------------------------------------------
// The tree
// ---------------------------------------------------------------------------

/// A listed file is kept exactly when it is a file, its path is valid and no
/// other file that was kept means the same path elsewhere; a path that cannot be
/// kept is named, and nothing else is.
pub proof fn a_listed_file_is_kept(v: ScanView, raw: Seq<char>, seen: SeenView)
    ensures
        ({
            let next = scan_step(v, raw, seen);
            let clashes = exists|i: int|
                0 <= i < v.entries.len() && key_of((#[trigger] v.entries[i]).path) == key_of(raw);
            &&& path_fault(raw) is Some ==> next.entries == v.entries && next.rejected.len()
                == v.rejected.len() + 1 && next.rejected.last().path == raw
            &&& path_fault(raw) is None && !clashes ==> match seen {
                SeenView::File(entry) => next.rejected == v.rejected && next.entries
                    == v.entries.push(FoundView { path: raw, entry }),
                SeenView::Absent => next == v,
                SeenView::Unreadable(e) => next.entries == v.entries && next.rejected.len()
                    == v.rejected.len() + 1 && next.rejected.last().path == raw
                    && next.rejected.last().reason == e.message,
            }
            &&& next.rejected.len() + next.entries.len() <= v.rejected.len() + v.entries.len() + 1
        }),
{
    lemma_holder(v.entries, key_of(raw));
}

proof fn lemma_holder(list: Seq<FoundView>, key: Seq<char>)
    ensures
        match holder_of(list, key) {
            Some(path) => exists|i: int|
                0 <= i < list.len() && (#[trigger] list[i]).path == path && key_of(path) == key,
            None => forall|i: int| 0 <= i < list.len() ==> key_of((#[trigger] list[i]).path) != key,
        },
    decreases list.len(),
{
    if list.len() > 0 {
        let front = list.drop_last();
        lemma_holder(front, key);
        if key_of(list.last().path) == key {
            assert(list[list.len() - 1].path == list.last().path);
        } else {
            match holder_of(front, key) {
                Some(path) => {
                    let i = choose|i: int|
                        0 <= i < front.len() && (#[trigger] front[i]).path == path && key_of(path) == key;
                    assert(list[i] == front[i]);
                },
                None => {
                    assert forall|i: int| 0 <= i < list.len() implies key_of((#[trigger] list[i]).path)
                        != key by {
                        if i < front.len() {
                            assert(front[i] == list[i]);
                        }
                    }
                },
            }
        }
    }
}

/// A file is above a limit exactly when its size is known and larger.
pub proof fn a_file_at_the_limit_is_within_it(size: Option<u64>, limit: u64)
    ensures
        above(size, limit) == (size is Some && size->0 > limit),
{
}

// ---------------------------------------------------------------------------
// Canonical state
// ---------------------------------------------------------------------------

/// The paths that collide with a path are those that differ from it and mean the
/// same elsewhere; one is found exactly when there is one.
pub proof fn a_collision_is_found(list: Seq<RowView>, path: Seq<char>)
    ensures
        match colliding(list, path) {
            Some(other) => exists|i: int|
                0 <= i < list.len() && (#[trigger] list[i]).path == other && other != path && key_of(
                    other,
                ) == key_of(path),
            None => forall|i: int|
                0 <= i < list.len() && (#[trigger] list[i]).path != path ==> key_of(list[i].path)
                    != key_of(path),
        },
    decreases list.len(),
{
    if list.len() > 0 {
        let rest = list.drop_first();
        a_collision_is_found(rest, path);
        if list[0].path != path && key_of(list[0].path) == key_of(path) {
            assert(list[0].path == colliding(list, path)->0);
        } else {
            match colliding(rest, path) {
                Some(other) => {
                    let i = choose|i: int|
                        0 <= i < rest.len() && (#[trigger] rest[i]).path == other && other != path
                            && key_of(other) == key_of(path);
                    assert(list[i + 1] == rest[i]);
                },
                None => {
                    assert forall|i: int|
                        0 <= i < list.len() && (#[trigger] list[i]).path != path implies key_of(
                        list[i].path,
                    ) != key_of(path) by {
                        if i > 0 {
                            assert(rest[i - 1] == list[i]);
                        }
                    }
                },
            }
        }
    }
}

/// A base is accepted exactly when the session has reached its revision and the
/// path was then what it is said to have been.
pub proof fn a_base_has_to_be_true(s: StoreView, op: OperationView)
    ensures
        (base_fault(s, op) is None) == {
            let was = crate::store_host::row_of(s.at(op.base_revision), op.path);
            &&& op.base_revision <= s.revision()
            &&& was is Some == op.base_entry is Some
            &&& was is Some ==> was->0.blob_hash == op.base_entry->0.blob_hash && was->0.git_mode
                == op.base_entry->0.git_mode
        },
        base_fault(s, op) is Some ==> base_fault(s, op)->0.class == ErrorClass::ProtocolError,
{
}

/// The tasks under way are those that are active, the open conflicts those that
/// are open, and what others hold back is what is not one's own.
pub proof fn what_is_open_is_told_apart(
    tasks: Seq<TaskView>,
    t: TaskView,
    conflicts: Seq<ConflictView>,
    c: ConflictView,
    held: Seq<OversizeView>,
    o: OversizeView,
    actor_id: Uuid,
)
    ensures
        active_of(tasks).contains(t) == (tasks.contains(t) && t.status == TaskStatus::Active),
        open_of(conflicts).contains(c) == (conflicts.contains(c) && c.status
            == ConflictStatus::Open),
        held_by_others(held, actor_id).contains(o) == (held.contains(o) && o.actor_id != actor_id),
{
    lemma_filter::<TaskView>(tasks, |x: TaskView| x.status == TaskStatus::Active, t);
    lemma_filter::<ConflictView>(conflicts, |x: ConflictView| x.status == ConflictStatus::Open, c);
    lemma_filter::<OversizeView>(held, |x: OversizeView| x.actor_id != actor_id, o);
}

proof fn lemma_filter<T>(list: Seq<T>, keep: spec_fn(T) -> bool, x: T)
    ensures
        list.filter(keep).contains(x) == (list.contains(x) && keep(x)),
{
    let kept = list.filter(keep);
    if kept.contains(x) {
        let i = choose|i: int| 0 <= i < kept.len() && kept[i] == x;
        list.lemma_filter_pred(keep, i);
        list.lemma_filter_contains_rev(keep, x);
    }
    if list.contains(x) && keep(x) {
        let i = choose|i: int| 0 <= i < list.len() && list[i] == x;
        list.lemma_filter_contains(keep, i);
    }
}

// ---------------------------------------------------------------------------
// The replica's record
// ---------------------------------------------------------------------------

/// A lost connection makes every operation unsent and changes nothing else; a
/// closed conflict ends its draft and no other.
pub proof fn each_path_keeps_its_work(list: Seq<PathRowView>, closed: Seq<Uuid>, i: int)
    requires
        0 <= i < list.len(),
    ensures
        ({
            let a = unsent(list)[i];
            let b = undrafted(list, closed)[i];
            let s = list[i].state;
            let ends = s.conflict_draft is Some && closed.contains(s.conflict_draft->0.conflict_id);
            &&& unsent(list).len() == list.len()
            &&& undrafted(list, closed).len() == list.len()
            &&& a.path == list[i].path
            &&& b.path == list[i].path
            &&& a.state.in_flight is Some == s.in_flight is Some
            &&& s.in_flight is Some ==> a.state.in_flight->0 == (FlightView {
                sent: false,
                ..s.in_flight->0
            })
            &&& a.state.confirmed == s.confirmed && a.state.materialized == s.materialized
                && a.state.pending_local == s.pending_local && a.state.conflict_draft
                == s.conflict_draft && a.state.confirmed_revision == s.confirmed_revision
            &&& b.state.conflict_draft == if ends {
                None
            } else {
                s.conflict_draft
            }
            &&& b.state.in_flight == s.in_flight && b.state.pending_local == s.pending_local
                && b.state.confirmed == s.confirmed && b.state.materialized == s.materialized
        }),
{
}

/// The paths in conflict are exactly those with a draft.
pub proof fn a_path_in_conflict_has_a_draft(list: Seq<PathRowView>, path: Seq<char>)
    ensures
        drafted(list).contains(path) == exists|i: int|
            0 <= i < list.len() && (#[trigger] list[i]).path == path && list[i].state.conflict_draft
                is Some,
    decreases list.len(),
{
    if list.len() > 0 {
        let front = list.drop_last();
        let last = list[list.len() - 1];
        a_path_in_conflict_has_a_draft(front, path);
        crate::text::lemma_push_contains(drafted(front), last.path, path);
        if drafted(front).contains(path) {
            let i = choose|i: int|
                0 <= i < front.len() && (#[trigger] front[i]).path == path
                    && front[i].state.conflict_draft is Some;
            assert(list[i] == front[i]);
        }
        if exists|i: int|
            0 <= i < list.len() && (#[trigger] list[i]).path == path && list[i].state.conflict_draft
                is Some {
            let i = choose|i: int|
                0 <= i < list.len() && (#[trigger] list[i]).path == path
                    && list[i].state.conflict_draft is Some;
            if i < front.len() {
                assert(front[i] == list[i]);
            }
        }
    }
}

/// Work of a path is outstanding at a mark exactly when there is some and its
/// newest was captured by then.
pub proof fn work_is_outstanding_up_to_the_mark(s: StateView, mark: u64)
    ensures
        is_outstanding(s, mark) == {
            let a: u64 = if s.in_flight is Some {
                s.in_flight->0.local_seq
            } else {
                0
            };
            let b: u64 = if s.pending_local is Some {
                s.pending_local->0.local_seq
            } else {
                0
            };
            &&& a > 0 || b > 0
            &&& a <= mark && b <= mark
            &&& s.in_flight is Some || s.pending_local is Some
        },
{
}

// ---------------------------------------------------------------------------
// Scopes
// ---------------------------------------------------------------------------

/// A line range is taken exactly when both its ends are numbers, it begins at
/// the first line or later and does not end before it begins.
pub proof fn a_line_range_is_two_lines_in_order(item: Seq<char>, range: Seq<char>)
    ensures
        ({
            let at = find_char(range, '-');
            let a = number(trim(range.take(at)));
            let b = number(trim(range.skip(at + 1)));
            let good = a is Some && b is Some && 1 <= a->0 && a->0 <= b->0 && b->0 <= u32::MAX;
            &&& good ==> lines_of(item, range) == Ok::<(u32, u32), ErrorView>(
                (a->0 as u32, b->0 as u32),
            )
            &&& !good ==> lines_of(item, range) is Err && lines_of(item, range)->Err_0.class
                == ErrorClass::UsageError
        }),
{
}

/// A backslash in a scope stands for a slash; every other character for itself.
pub proof fn a_scope_may_be_written_with_backslashes(s: Seq<char>, i: int)
    requires
        0 <= i < s.len(),
    ensures
        slashed(s).len() == s.len(),
        s[i] == '\\' ==> slashed(s)[i] == '/',
        s[i] != '\\' ==> slashed(s)[i] == s[i],
{
}

/// A scope whose path is not valid is refused, whatever lines it names; one
/// without lines is taken exactly when its path is valid.
pub proof fn a_scope_needs_a_valid_path(item: Seq<char>)
    ensures
        ({
            let path = slashed(scope_parts(item).0);
            &&& path_fault(path) is Some ==> scope_of(item) is Err
            &&& path_fault(path) is None && scope_parts(item).1 is None ==> scope_of(item) is Ok
            &&& scope_of(item) is Ok ==> scope_of(item)->Ok_0.path == path
                && !scope_of(item)->Ok_0.stale && scope_of(item)->Ok_0.line_start is Some
                == scope_parts(item).1 is Some && scope_of(item)->Ok_0.line_end is Some
                == scope_parts(item).1 is Some
        }),
{
}

// ---------------------------------------------------------------------------
// Notation
// ---------------------------------------------------------------------------

/// A commit is shown by the first seven characters of its name.
pub proof fn a_commit_is_shown_by_its_beginning(oid: Seq<char>)
    ensures
        oid.len() <= 7 ==> oid_head(oid) == oid,
        oid.len() > 7 ==> oid_head(oid) == oid.take(7),
{
}

/// A size is shown in the largest unit it fills, with one decimal cut off.
pub proof fn a_size_is_shown_in_its_unit(bytes: u64)
    ensures
        bytes < 1024 ==> size_form(bytes) == decimal(bytes as nat) + " B"@,
        1024 <= bytes < 1024 * 1024 ==> size_form(bytes) == decimal(bytes as nat / 1024) + "."@
            + decimal((bytes as nat % 1024) * 10 / 1024) + " KiB"@,
        1024 * 1024 <= bytes < 1024 * 1024 * 1024 ==> size_form(bytes) == decimal(
            bytes as nat / 1048576,
        ) + "."@ + decimal((bytes as nat % 1048576) * 10 / 1048576) + " MiB"@,
        bytes >= 1024 * 1024 * 1024 ==> size_form(bytes) == decimal(bytes as nat / 1073741824) + "."@
            + decimal((bytes as nat % 1073741824) * 10 / 1073741824) + " GiB"@,
{
}

} // verus!
