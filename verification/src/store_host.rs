//! The host's canonical state: what a session has durably agreed on.
//!
//! Canonical files are the base manifest plus an append-only log of revisions;
//! the current manifest is always what replaying that log gives. Beside it
//! stand the results of operations, for idempotent retransmission, and the
//! control state everybody sees: tasks, conflicts, preparations, publications.

use vstd::prelude::*;

use crate::error::{plain, protocol, ErrorClass, ErrorView, Result};
use crate::model::{
    entry_view, same_state, CommitPreparation, Conflict, ConflictStatus, ConflictView, EntryView,
    FileEntry, FileOperation, GitPublication, OperationOutcome, OperationView, OutcomeView,
    PreparationView, PublicationView, Revision, RevisionView, Task, TaskStatus, TaskView,
    DEFAULT_MAX_FILE_SIZE,
};
use crate::path::{key_of, RepoPath};
use crate::proto::{rows, ManifestEntry, OversizePath, OversizeView, RowView};
use crate::text::{
    lemma_text_le_antisymmetric, lemma_text_le_reflexive, lemma_text_le_total,
    lemma_text_le_transitive, lemma_views_push, lemma_views_update, opt_view, same_text,
    text_before, text_le, views,
};
use crate::util::{revision_form, Uuid};

verus! {

// ---------------------------------------------------------------------------
// Records found by a key
// ---------------------------------------------------------------------------

/// A record that is stored and found under a key.
pub trait Keyed: View + Sized {
    spec fn key_of(v: Self::V) -> Uuid;

    fn key(&self) -> (k: Uuid)
        ensures
            k == Self::key_of(self@),
    ;
}

/// The position of the first record with this key, or the length.
pub open spec fn index_of<T: Keyed>(list: Seq<T::V>, key: Uuid) -> int
    decreases list.len(),
{
    if list.len() == 0 {
        0
    } else if T::key_of(list[0]) == key {
        0
    } else {
        1 + index_of::<T>(list.drop_first(), key)
    }
}

/// The first record with this key.
pub open spec fn found<T: Keyed>(list: Seq<T::V>, key: Uuid) -> Option<T::V> {
    let i = index_of::<T>(list, key);
    if 0 <= i < list.len() {
        Some(list[i])
    } else {
        None
    }
}

/// The list with a record put under its key: replaced, or added at the end.
pub open spec fn stored<T: Keyed>(list: Seq<T::V>, v: T::V) -> Seq<T::V> {
    let i = index_of::<T>(list, T::key_of(v));
    if 0 <= i < list.len() {
        list.update(i, v)
    } else {
        list.push(v)
    }
}

pub proof fn lemma_index_of<T: Keyed>(list: Seq<T::V>, key: Uuid)
    ensures
        0 <= index_of::<T>(list, key) <= list.len(),
        index_of::<T>(list, key) < list.len() ==> T::key_of(list[index_of::<T>(list, key)]) == key,
        forall|k: int|
            0 <= k < index_of::<T>(list, key) ==> T::key_of(#[trigger] list[k]) != key,
    decreases list.len(),
{
    if list.len() > 0 && T::key_of(list[0]) != key {
        lemma_index_of::<T>(list.drop_first(), key);
        assert forall|k: int| 0 <= k < index_of::<T>(list, key) implies T::key_of(
            #[trigger] list[k],
        ) != key by {
            if k > 0 {
                assert(list[k] == list.drop_first()[k - 1]);
            }
        }
    }
}

pub proof fn lemma_index_of_is<T: Keyed>(list: Seq<T::V>, key: Uuid, at: int)
    requires
        0 <= at <= list.len(),
        at < list.len() ==> T::key_of(list[at]) == key,
        forall|k: int| 0 <= k < at ==> T::key_of(#[trigger] list[k]) != key,
    ensures
        index_of::<T>(list, key) == at,
{
    lemma_index_of::<T>(list, key);
    let f = index_of::<T>(list, key);
    if f < at {
        assert(T::key_of(list[f]) != key);
    } else if at < f {
        assert(T::key_of(list[at]) != key);
    }
}

/// Where the first record with this key stands.
pub fn position<T: Keyed>(list: &Vec<T>, key: Uuid) -> (at: usize)
    ensures
        at == index_of::<T>(views(list@), key),
        at <= list@.len(),
{
    let mut i: usize = 0;
    while i < list.len()
        invariant
            i <= list@.len(),
            forall|k: int| 0 <= k < i ==> T::key_of(#[trigger] views(list@)[k]) != key,
        decreases list@.len() - i,
    {
        let k = list[i].key();
        proof {
            assert(views(list@)[i as int] == list@[i as int]@);
        }
        if k == key {
            proof {
                lemma_index_of_is::<T>(views(list@), key, i as int);
            }
            return i;
        }
        i = i + 1;
    }
    proof {
        lemma_index_of_is::<T>(views(list@), key, i as int);
    }
    i
}

/// Put a record under its key.
pub fn store<T: Keyed>(list: &mut Vec<T>, x: T)
    ensures
        views(final(list)@) == stored::<T>(views(old(list)@), x@),
{
    let k = x.key();
    let at = position(list, k);
    let ghost before = list@;
    if at < list.len() {
        list[at] = x;
        proof {
            lemma_views_update(before, at as int, x);
            assert(list@ == before.update(at as int, x));
        }
    } else {
        list.push(x);
        proof {
            lemma_views_push(before, x);
        }
    }
}

/// Finding what was just stored gives it back, and leaves every other key
/// alone.
pub proof fn stored_is_found<T: Keyed>(list: Seq<T::V>, v: T::V, key: Uuid)
    ensures
        found::<T>(stored::<T>(list, v), key) == if key == T::key_of(v) {
            Some(v)
        } else {
            found::<T>(list, key)
        },
{
    let id = T::key_of(v);
    lemma_index_of::<T>(list, id);
    lemma_index_of::<T>(list, key);
    let all = stored::<T>(list, v);
    let at = index_of::<T>(list, id);
    let old_at = index_of::<T>(list, key);
    if key == id {
        lemma_index_of_is::<T>(all, key, at);
    } else if old_at < list.len() {
        lemma_index_of_is::<T>(all, key, old_at);
    } else {
        lemma_index_of_is::<T>(all, key, all.len() as int);
    }
}

// ---------------------------------------------------------------------------
// Manifests
// ---------------------------------------------------------------------------

/// The entry a manifest has for a path.
pub open spec fn row_of(list: Seq<RowView>, path: Seq<char>) -> Option<EntryView>
    decreases list.len(),
{
    if list.len() == 0 {
        None
    } else if list[0].path == path {
        Some(list[0].entry)
    } else {
        row_of(list.drop_first(), path)
    }
}

/// The manifest with `row` in its place.
pub open spec fn put_row(list: Seq<RowView>, row: RowView) -> Seq<RowView>
    decreases list.len(),
{
    if list.len() == 0 {
        seq![row]
    } else if list[0].path == row.path {
        seq![row] + list.drop_first()
    } else if text_le(row.path, list[0].path) {
        seq![row] + list
    } else {
        seq![list[0]] + put_row(list.drop_first(), row)
    }
}

/// Rows put in their places one after another: by path, and where a path comes
/// more than once its last row counts.
pub open spec fn by_path(list: Seq<RowView>) -> Seq<RowView>
    decreases list.len(),
{
    if list.len() == 0 {
        list
    } else {
        put_row(by_path(list.drop_last()), list.last())
    }
}

/// The manifest without a path.
pub open spec fn drop_row(list: Seq<RowView>, path: Seq<char>) -> Seq<RowView>
    decreases list.len(),
{
    if list.len() == 0 {
        list
    } else if list[0].path == path {
        list.drop_first()
    } else {
        seq![list[0]] + drop_row(list.drop_first(), path)
    }
}

/// The manifest with a path in a new state.
pub open spec fn set_row(list: Seq<RowView>, path: Seq<char>, entry: Option<EntryView>) -> Seq<
    RowView,
> {
    match entry {
        Some(e) => put_row(list, RowView { path, entry: e }),
        None => drop_row(list, path),
    }
}

/// The manifest after a run of revisions.
pub open spec fn replay(base: Seq<RowView>, log: Seq<RevisionView>) -> Seq<RowView>
    decreases log.len(),
{
    if log.len() == 0 {
        base
    } else {
        set_row(replay(base, log.drop_last()), log.last().path, log.last().after)
    }
}

/// In ascending order of paths, each path once.
pub open spec fn in_order(list: Seq<RowView>) -> bool {
    forall|i: int, j: int|
        0 <= i < j < list.len() ==> text_le((#[trigger] list[i]).path, (#[trigger] list[j]).path)
            && list[i].path != list[j].path
}

/// Where the row of a path stands or would stand.
pub open spec fn slot(list: Seq<RowView>, path: Seq<char>, at: int) -> bool {
    &&& 0 <= at <= list.len()
    &&& forall|k: int|
        0 <= k < at ==> (#[trigger] list[k]).path != path && !text_le(path, list[k].path)
    &&& at < list.len() ==> text_le(path, list[at].path)
}

pub proof fn lemma_slot(list: Seq<RowView>, row: RowView, at: int)
    requires
        slot(list, row.path, at),
    ensures
        put_row(list, row) == if at < list.len() && list[at].path == row.path {
            list.update(at, row)
        } else {
            list.insert(at, row)
        },
    decreases list.len(),
{
    if list.len() == 0 {
        assert(list.insert(at, row) =~= seq![row]);
    } else if at == 0 {
        if list[0].path == row.path {
            assert(list.update(0, row) =~= seq![row] + list.drop_first());
        } else {
            assert(list.insert(0, row) =~= seq![row] + list);
        }
    } else {
        let rest = list.drop_first();
        assert(list[0].path != row.path && !text_le(row.path, list[0].path));
        assert forall|k: int| 0 <= k < at - 1 implies (#[trigger] rest[k]).path != row.path
            && !text_le(row.path, rest[k].path) by {
            assert(rest[k] == list[k + 1]);
        }
        lemma_slot(rest, row, at - 1);
        if at < list.len() && list[at].path == row.path {
            assert(list.update(at, row) =~= seq![list[0]] + rest.update(at - 1, row));
        } else {
            assert(list.insert(at, row) =~= seq![list[0]] + rest.insert(at - 1, row));
        }
    }
}

pub proof fn lemma_drop_slot(list: Seq<RowView>, path: Seq<char>, at: int)
    requires
        slot(list, path, at),
        in_order(list),
    ensures
        drop_row(list, path) == if at < list.len() && list[at].path == path {
            list.remove(at)
        } else {
            list
        },
        row_of(list, path) == if at < list.len() && list[at].path == path {
            Some(list[at].entry)
        } else {
            None
        },
    decreases list.len(),
{
    if list.len() == 0 {
    } else if list[0].path == path {
        assert(list.remove(0) =~= list.drop_first());
    } else {
        let rest = list.drop_first();
        if at > 0 {
            assert forall|k: int| 0 <= k < at - 1 implies (#[trigger] rest[k]).path != path
                && !text_le(path, rest[k].path) by {
                assert(rest[k] == list[k + 1]);
            }
            assert forall|i: int, j: int| 0 <= i < j < rest.len() implies text_le(
                (#[trigger] rest[i]).path,
                (#[trigger] rest[j]).path,
            ) && rest[i].path != rest[j].path by {
                assert(rest[i] == list[i + 1] && rest[j] == list[j + 1]);
            }
            lemma_drop_slot(rest, path, at - 1);
            if at < list.len() && list[at].path == path {
                assert(list.remove(at) =~= seq![list[0]] + rest.remove(at - 1));
            } else {
                assert(list =~= seq![list[0]] + rest);
            }
        } else {
            // Everything from here on comes after the path.
            lemma_absent(list, path);
        }
    }
}

/// A path before the first of an ordered list is not in it.
proof fn lemma_absent(list: Seq<RowView>, path: Seq<char>)
    requires
        in_order(list),
        list.len() > 0 ==> text_le(path, list[0].path) && path != list[0].path,
    ensures
        drop_row(list, path) == list,
        row_of(list, path) is None,
    decreases list.len(),
{
    if list.len() > 0 {
        let rest = list.drop_first();
        assert forall|i: int, j: int| 0 <= i < j < rest.len() implies text_le(
            (#[trigger] rest[i]).path,
            (#[trigger] rest[j]).path,
        ) && rest[i].path != rest[j].path by {
            assert(rest[i] == list[i + 1] && rest[j] == list[j + 1]);
        }
        if rest.len() > 0 {
            assert(rest[0] == list[1]);
            lemma_text_le_transitive(path, list[0].path, list[1].path);
            if path == list[1].path {
                lemma_text_le_antisymmetric(list[0].path, path);
            }
        }
        lemma_absent(rest, path);
        assert(list =~= seq![list[0]] + rest);
    }
}

/// Changing one path keeps a manifest in order and touches no other path.
pub proof fn set_row_changes_one_path(
    list: Seq<RowView>,
    path: Seq<char>,
    entry: Option<EntryView>,
    other: Seq<char>,
)
    requires
        in_order(list),
    ensures
        in_order(set_row(list, path, entry)),
        row_of(set_row(list, path, entry), path) == entry,
        other != path ==> row_of(set_row(list, path, entry), other) == row_of(list, other),
    decreases list.len(),
{
    match entry {
        Some(e) => lemma_put_row(list, RowView { path, entry: e }, other),
        None => lemma_drop_row(list, path, other),
    }
}

proof fn lemma_rest_in_order(list: Seq<RowView>)
    requires
        in_order(list),
        list.len() > 0,
    ensures
        in_order(list.drop_first()),
{
    let rest = list.drop_first();
    assert forall|i: int, j: int| 0 <= i < j < rest.len() implies text_le(
        (#[trigger] rest[i]).path,
        (#[trigger] rest[j]).path,
    ) && rest[i].path != rest[j].path by {
        assert(rest[i] == list[i + 1] && rest[j] == list[j + 1]);
    }
}

proof fn lemma_prepend_in_order(head: RowView, rest: Seq<RowView>)
    requires
        in_order(rest),
        rest.len() > 0 ==> text_le(head.path, rest[0].path) && head.path != rest[0].path,
    ensures
        in_order(seq![head] + rest),
{
    let all = seq![head] + rest;
    assert forall|i: int, j: int| 0 <= i < j < all.len() implies text_le(
        (#[trigger] all[i]).path,
        (#[trigger] all[j]).path,
    ) && all[i].path != all[j].path by {
        if i > 0 {
            assert(all[i] == rest[i - 1] && all[j] == rest[j - 1]);
        } else if j > 1 {
            assert(all[j] == rest[j - 1]);
            assert(text_le(rest[0].path, rest[j - 1].path));
            lemma_text_le_transitive(head.path, rest[0].path, rest[j - 1].path);
            if head.path == rest[j - 1].path {
                lemma_text_le_antisymmetric(head.path, rest[0].path);
            }
        } else {
            assert(all[j] == rest[0]);
        }
    }
}

proof fn lemma_put_row(list: Seq<RowView>, row: RowView, other: Seq<char>)
    requires
        in_order(list),
    ensures
        in_order(put_row(list, row)),
        put_row(list, row).len() > 0,
        put_row(list, row)[0] == row || (list.len() > 0 && put_row(list, row)[0] == list[0]),
        row_of(put_row(list, row), row.path) == Some(row.entry),
        other != row.path ==> row_of(put_row(list, row), other) == row_of(list, other),
    decreases list.len(),
{
    let all = put_row(list, row);
    if list.len() == 0 {
        assert(all.drop_first() =~= list);
        assert(in_order(all));
    } else {
        let rest = list.drop_first();
        lemma_rest_in_order(list);
        if list[0].path == row.path {
            assert(all.drop_first() =~= rest);
            if rest.len() > 0 {
                assert(rest[0] == list[1]);
            }
            lemma_prepend_in_order(row, rest);
        } else if text_le(row.path, list[0].path) {
            assert(all.drop_first() =~= list);
            lemma_prepend_in_order(row, list);
            lemma_absent(list, row.path);
        } else {
            lemma_put_row(rest, row, other);
            lemma_put_row(rest, row, row.path);
            let tail = put_row(rest, row);
            assert(all.drop_first() =~= tail);
            lemma_text_le_total(row.path, list[0].path);
            if rest.len() > 0 {
                assert(rest[0] == list[1]);
            }
            lemma_prepend_in_order(list[0], tail);
        }
    }
}

proof fn lemma_drop_row(list: Seq<RowView>, path: Seq<char>, other: Seq<char>)
    requires
        in_order(list),
    ensures
        in_order(drop_row(list, path)),
        drop_row(list, path).len() > 0 ==> list.len() > 0 && (drop_row(list, path)[0] == list[0]
            || (list.len() > 1 && drop_row(list, path)[0] == list[1])),
        row_of(drop_row(list, path), path) is None,
        other != path ==> row_of(drop_row(list, path), other) == row_of(list, other),
    decreases list.len(),
{
    let all = drop_row(list, path);
    if list.len() > 0 {
        let rest = list.drop_first();
        lemma_rest_in_order(list);
        if list[0].path == path {
            if rest.len() > 0 {
                assert(rest[0] == list[1]);
            }
            lemma_absent(rest, path);
        } else {
            lemma_drop_row(rest, path, other);
            let tail = drop_row(rest, path);
            assert(all.drop_first() =~= tail);
            if tail.len() > 0 {
                assert(rest[0] == list[1]);
                if tail[0] == rest[0] {
                } else {
                    assert(rest.len() > 1 && tail[0] == rest[1]);
                    assert(rest[1] == list[2]);
                }
            }
            lemma_prepend_in_order(list[0], tail);
        }
    }
}

pub proof fn lemma_replay_in_order(base: Seq<RowView>, log: Seq<RevisionView>)
    requires
        in_order(base),
    ensures
        in_order(replay(base, log)),
    decreases log.len(),
{
    if log.len() > 0 {
        lemma_replay_in_order(base, log.drop_last());
        set_row_changes_one_path(
            replay(base, log.drop_last()),
            log.last().path,
            log.last().after,
            Seq::empty(),
        );
    }
}

/// Where the row of `path` stands or would stand.
pub fn find_slot(list: &Vec<ManifestEntry>, path: &RepoPath) -> (at: usize)
    requires
        in_order(rows(list@)),
    ensures
        slot(rows(list@), path@, at as int),
{
    let mut i: usize = 0;
    while i < list.len() && !text_before(path.as_str(), list[i].path.as_str())
        invariant
            i <= list@.len(),
            forall|k: int|
                0 <= k < i ==> (#[trigger] rows(list@)[k]).path != path@ && !text_le(
                    path@,
                    rows(list@)[k].path,
                ),
        decreases list@.len() - i,
    {
        proof {
            assert(rows(list@)[i as int].path == list@[i as int].path@);
            lemma_text_le_reflexive(path@);
        }
        i = i + 1;
    }
    proof {
        if i < list@.len() {
            assert(rows(list@)[i as int].path == list@[i as int].path@);
        }
    }
    i
}

/// The entry of `path` in a manifest.
pub fn lookup(list: &Vec<ManifestEntry>, path: &RepoPath) -> (e: Option<FileEntry>)
    requires
        in_order(rows(list@)),
    ensures
        entry_view(e) == row_of(rows(list@), path@),
{
    let at = find_slot(list, path);
    proof {
        lemma_drop_slot(rows(list@), path@, at as int);
    }
    if at < list.len() && list[at].path.same(&path) {
        Some(list[at].entry.clone())
    } else {
        None
    }
}

/// Bring one path of a manifest into a new state.
pub fn assign(list: &mut Vec<ManifestEntry>, path: &RepoPath, entry: &Option<FileEntry>)
    requires
        in_order(rows(old(list)@)),
    ensures
        rows(final(list)@) == set_row(rows(old(list)@), path@, entry_view(*entry)),
        in_order(rows(final(list)@)),
{
    let at = find_slot(list, path);
    let ghost before = list@;
    proof {
        lemma_drop_slot(rows(before), path@, at as int);
        set_row_changes_one_path(rows(before), path@, entry_view(*entry), path@);
    }
    let present = at < list.len() && list[at].path.same(path);
    match entry {
        Some(e) => {
            let m = ManifestEntry { path: path.clone(), entry: e.clone() };
            proof {
                lemma_slot(rows(before), m@, at as int);
            }
            if present {
                list[at] = m;
                proof {
                    assert(rows(list@) =~= rows(before).update(at as int, m@));
                }
            } else {
                list.insert(at, m);
                proof {
                    assert(rows(list@) =~= rows(before).insert(at as int, m@));
                }
            }
        },
        None => {
            if present {
                let _ = list.remove(at);
                proof {
                    assert(rows(list@) =~= rows(before).remove(at as int));
                }
            }
        },
    }
}

/// The rows of a list, each in its place.
pub fn place_rows(list: &Vec<ManifestEntry>) -> (placed: Vec<ManifestEntry>)
    ensures
        rows(placed@) == by_path(rows(list@)),
        in_order(rows(placed@)),
{
    let ghost all = rows(list@);
    let mut placed: Vec<ManifestEntry> = Vec::new();
    let mut i: usize = 0;
    proof {
        assert(rows(placed@) =~= all.take(0));
    }
    while i < list.len()
        invariant
            i <= list@.len(),
            all == rows(list@),
            rows(placed@) == by_path(all.take(i as int)),
            in_order(rows(placed@)),
        decreases list@.len() - i,
    {
        proof {
            assert(all.take(i + 1).drop_last() =~= all.take(i as int));
            assert(all.take(i + 1).last() == list@[i as int]@);
        }
        let entry = Some(list[i].entry.clone());
        assign(&mut placed, &list[i].path, &entry);
        i = i + 1;
    }
    proof {
        assert(all.take(i as int) =~= all);
    }
    placed
}

/// However a manifest lists its rows, each path stands in it once, in order.
pub proof fn placed_rows_are_in_order(list: Seq<RowView>)
    ensures
        in_order(by_path(list)),
    decreases list.len(),
{
    if list.len() > 0 {
        placed_rows_are_in_order(list.drop_last());
        lemma_put_row(by_path(list.drop_last()), list.last(), list.last().path);
    }
}

/// The last row of a path is the one that counts.
pub proof fn the_last_row_of_a_path_counts(list: Seq<RowView>, i: int)
    requires
        0 <= i < list.len(),
        forall|j: int| i < j < list.len() ==> (#[trigger] list[j]).path != list[i].path,
    ensures
        row_of(by_path(list), list[i].path) == Some(list[i].entry),
    decreases list.len(),
{
    let front = list.drop_last();
    placed_rows_are_in_order(front);
    lemma_put_row(by_path(front), list.last(), list[i].path);
    if i < list.len() - 1 {
        assert(list[list.len() - 1].path != list[i].path);
        the_last_row_of_a_path_counts(front, i);
    }
}

/// Rows that are in order stay as they are.
pub proof fn ordered_rows_are_in_place(list: Seq<RowView>)
    requires
        in_order(list),
    ensures
        by_path(list) == list,
    decreases list.len(),
{
    if list.len() > 0 {
        let front = list.drop_last();
        let row = list.last();
        assert forall|i: int, j: int| 0 <= i < j < front.len() implies text_le(
            (#[trigger] front[i]).path,
            (#[trigger] front[j]).path,
        ) && front[i].path != front[j].path by {
            assert(text_le(list[i].path, list[j].path));
        }
        ordered_rows_are_in_place(front);
        assert forall|k: int| 0 <= k < front.len() implies (#[trigger] front[k]).path != row.path
            && !text_le(row.path, front[k].path) by {
            assert(text_le(list[k].path, list[list.len() - 1].path));
            if text_le(row.path, front[k].path) {
                lemma_text_le_antisymmetric(row.path, front[k].path);
            }
        }
        lemma_slot(front, row, front.len() as int);
        assert(front.insert(front.len() as int, row) =~= list);
    }
}

/// A copy of a manifest.
pub fn copy_rows(list: &Vec<ManifestEntry>) -> (copy: Vec<ManifestEntry>)
    ensures
        copy@ == list@,
{
    let copy = list.clone();
    proof {
        assert(copy@ =~= list@);
    }
    copy
}

// ---------------------------------------------------------------------------
// Records
// ---------------------------------------------------------------------------

/// A participant the host has met.
#[derive(Debug)]
pub struct ActorRecord {
    pub actor_id: Uuid,
    pub display_name: String,
    pub git_name: String,
    pub git_email: String,
    pub last_seen_ms: i64,
}

/// A participant as plain values.
pub struct ActorView {
    pub actor_id: Uuid,
    pub display_name: Seq<char>,
    pub git_name: Seq<char>,
    pub git_email: Seq<char>,
    pub last_seen_ms: i64,
}

impl View for ActorRecord {
    type V = ActorView;

    open spec fn view(&self) -> ActorView {
        ActorView {
            actor_id: self.actor_id,
            display_name: self.display_name@,
            git_name: self.git_name@,
            git_email: self.git_email@,
            last_seen_ms: self.last_seen_ms,
        }
    }
}

impl Clone for ActorRecord {
    fn clone(&self) -> (copy: ActorRecord)
        ensures
            copy == *self,
    {
        ActorRecord {
            actor_id: self.actor_id,
            display_name: self.display_name.clone(),
            git_name: self.git_name.clone(),
            git_email: self.git_email.clone(),
            last_seen_ms: self.last_seen_ms,
        }
    }
}

impl Keyed for ActorRecord {
    open spec fn key_of(v: ActorView) -> Uuid {
        v.actor_id
    }

    fn key(&self) -> Uuid {
        self.actor_id
    }
}

/// The stored result of one operation.
#[derive(Debug)]
pub struct OperationRecord {
    pub operation_id: Uuid,
    pub actor_id: Uuid,
    pub payload_hash: String,
    pub outcome: OperationOutcome,
}

/// A stored result as plain values.
pub struct RecordView {
    pub operation_id: Uuid,
    pub actor_id: Uuid,
    pub payload_hash: Seq<char>,
    pub outcome: OutcomeView,
}

impl View for OperationRecord {
    type V = RecordView;

    open spec fn view(&self) -> RecordView {
        RecordView {
            operation_id: self.operation_id,
            actor_id: self.actor_id,
            payload_hash: self.payload_hash@,
            outcome: self.outcome@,
        }
    }
}

impl Keyed for OperationRecord {
    open spec fn key_of(v: RecordView) -> Uuid {
        v.operation_id
    }

    fn key(&self) -> Uuid {
        self.operation_id
    }
}

impl Keyed for Task {
    open spec fn key_of(v: TaskView) -> Uuid {
        v.id
    }

    fn key(&self) -> Uuid {
        self.id
    }
}

impl Keyed for Conflict {
    open spec fn key_of(v: ConflictView) -> Uuid {
        v.id
    }

    fn key(&self) -> Uuid {
        self.id
    }
}

impl Keyed for CommitPreparation {
    open spec fn key_of(v: PreparationView) -> Uuid {
        v.prepare_id
    }

    fn key(&self) -> Uuid {
        self.prepare_id
    }
}

impl Keyed for GitPublication {
    open spec fn key_of(v: PublicationView) -> Uuid {
        v.sequence as u128
    }

    fn key(&self) -> Uuid {
        self.sequence as u128
    }
}

// ---------------------------------------------------------------------------
// The store
// ---------------------------------------------------------------------------

/// Publications by ascending sequence, no two with the same.
pub open spec fn ascending(list: Seq<PublicationView>) -> bool {
    forall|i: int, j: int|
        0 <= i < j < list.len() ==> (#[trigger] list[i]).sequence < (#[trigger] list[j]).sequence
}

/// The publications with one more, in its place by sequence; it replaces one of
/// the same sequence.
pub open spec fn filed(list: Seq<PublicationView>, p: PublicationView) -> Seq<PublicationView>
    decreases list.len(),
{
    if list.len() == 0 || list.last().sequence < p.sequence {
        list.push(p)
    } else if list.last().sequence == p.sequence {
        list.drop_last().push(p)
    } else {
        filed(list.drop_last(), p).push(list.last())
    }
}

/// Every sequence is below a bound.
pub open spec fn all_below(list: Seq<PublicationView>, top: u64) -> bool {
    forall|i: int| 0 <= i < list.len() ==> (#[trigger] list[i]).sequence < top
}

/// Filing a publication keeps them in order, and below what all were below.
pub proof fn filing_keeps_the_order(list: Seq<PublicationView>, p: PublicationView)
    ensures
        ascending(list) ==> ascending(filed(list, p)),
        filed(list, p).len() > 0,
        forall|top: u64|
            p.sequence < top && all_below(list, top) ==> #[trigger] all_below(filed(list, p), top),
    decreases list.len(),
{
    if list.len() == 0 || list.last().sequence <= p.sequence {
        let front = if list.len() == 0 || list.last().sequence < p.sequence {
            list
        } else {
            list.drop_last()
        };
        assert(filed(list, p) == front.push(p));
        if ascending(list) {
            assert forall|i: int, j: int| 0 <= i < j < front.push(p).len() implies (
            #[trigger] front.push(p)[i]).sequence < (#[trigger] front.push(p)[j]).sequence by {
                if j == front.len() {
                    if i < list.len() - 1 {
                        assert(list[i].sequence < list[list.len() - 1].sequence);
                    }
                } else {
                    assert(list[i].sequence < list[j].sequence);
                }
            }
        }
    } else {
        let front = list.drop_last();
        filing_keeps_the_order(front, p);
        let next = filed(front, p);
        let top = list.last().sequence;
        if ascending(list) {
            assert forall|i: int| 0 <= i < front.len() implies (#[trigger] front[i]).sequence
                < top by {
                assert(list[i].sequence < list[list.len() - 1].sequence);
            }
            assert(all_below(front, top));
            assert(all_below(next, top));
            assert(ascending(front)) by {
                assert forall|i: int, j: int| 0 <= i < j < front.len() implies (
                #[trigger] front[i]).sequence < (#[trigger] front[j]).sequence by {
                    assert(list[i].sequence < list[j].sequence);
                }
            }
        }
        assert forall|top: u64| p.sequence < top && all_below(list, top) implies #[trigger] all_below(
            filed(list, p),
            top,
        ) by {
            assert forall|i: int| 0 <= i < front.len() implies (#[trigger] front[i]).sequence
                < top by {
                assert(front[i] == list[i]);
            }
            assert(all_below(front, top));
            assert(all_below(next, top));
            assert(list[list.len() - 1].sequence < top);
        }
    }
}

/// What was filed is found under its sequence.
pub proof fn filed_is_found(list: Seq<PublicationView>, p: PublicationView)
    requires
        ascending(list),
    ensures
        found::<GitPublication>(filed(list, p), p.sequence as u128) == Some(p),
{
    filing_keeps_the_order(list, p);
    lemma_filed_holds(list, p);
    let next = filed(list, p);
    let at = choose|i: int| 0 <= i < next.len() && #[trigger] next[i] == p;
    lemma_index_of::<GitPublication>(next, p.sequence as u128);
    let i = index_of::<GitPublication>(next, p.sequence as u128);
    if i < at {
        assert(next[i].sequence < next[at].sequence);
    } else if at < i {
        assert(GitPublication::key_of(next[at]) != p.sequence as u128);
    }
}

proof fn lemma_filed_holds(list: Seq<PublicationView>, p: PublicationView)
    ensures
        exists|i: int| 0 <= i < filed(list, p).len() && #[trigger] filed(list, p)[i] == p,
    decreases list.len(),
{
    let next = filed(list, p);
    if list.len() == 0 || list.last().sequence <= p.sequence {
        assert(next[next.len() - 1] == p);
    } else {
        lemma_filed_holds(list.drop_last(), p);
        let front = filed(list.drop_last(), p);
        let i = choose|i: int| 0 <= i < front.len() && #[trigger] front[i] == p;
        assert(next[i] == p);
    }
}

/// The latest publication has the highest sequence of all.
pub proof fn the_latest_has_the_highest_sequence(s: StoreView, i: int)
    requires
        s.ok(),
        0 <= i < s.publications.len(),
    ensures
        s.latest() is Some,
        s.publications[i].sequence <= s.latest()->0.sequence,
{
    if i < s.publications.len() - 1 {
        assert(s.publications[i].sequence < s.publications[s.publications.len() - 1].sequence);
    }
}

/// What a returning client still has to see comes by ascending sequence.
pub proof fn pending_publications_come_in_order(list: Seq<PublicationView>, sequence: u64)
    requires
        ascending(list),
    ensures
        ascending(later_than(list, sequence)),
    decreases list.len(),
{
    let wanted = |p: PublicationView| p.sequence > sequence;
    reveal(Seq::filter);
    if list.len() > 0 {
        let front = list.drop_last();
        assert forall|i: int, j: int| 0 <= i < j < front.len() implies (#[trigger] front[i]).sequence
            < (#[trigger] front[j]).sequence by {
            assert(list[i].sequence < list[j].sequence);
        }
        pending_publications_come_in_order(front, sequence);
        let before = front.filter(wanted);
        assert(before == later_than(front, sequence));
        assert forall|i: int| 0 <= i < before.len() implies (#[trigger] before[i]).sequence
            < list.last().sequence by {
            front.lemma_filter_contains_rev(wanted, before[i]);
            let k = choose|k: int| 0 <= k < front.len() && front[k] == before[i];
            assert(list[k].sequence < list[list.len() - 1].sequence);
        }
    }
}

/// Canonical state as plain values and sequences.
pub struct StoreView {
    /// The manifest at revision zero.
    pub base: Seq<RowView>,
    /// Every accepted mutation, oldest first.
    pub log: Seq<RevisionView>,
    /// The current manifest, ordered by path.
    pub rows: Seq<RowView>,
    pub operations: Seq<RecordView>,
    pub actors: Seq<ActorView>,
    pub tasks: Seq<TaskView>,
    pub conflicts: Seq<ConflictView>,
    pub preparations: Seq<PreparationView>,
    pub publications: Seq<PublicationView>,
    pub control_version: u64,
    pub max_file_size: u64,
    pub oversize: Seq<OversizeView>,
}

impl StoreView {
    /// Revisions are numbered from one without gaps, the current manifest is
    /// what replaying them gives, and publications stand by ascending sequence.
    pub open spec fn ok(self) -> bool {
        &&& in_order(self.base)
        &&& ascending(self.publications)
        &&& self.log.len() < u64::MAX
        &&& forall|i: int|
            0 <= i < self.log.len() ==> (#[trigger] self.log[i]).revision == i + 1
        &&& self.rows == replay(self.base, self.log)
    }

    /// The number of the newest revision.
    pub open spec fn revision(self) -> u64 {
        self.log.len() as u64
    }

    /// The canonical entry of a path.
    pub open spec fn entry(self, path: Seq<char>) -> Option<EntryView> {
        row_of(self.rows, path)
    }

    /// The manifest as it was at a revision.
    pub open spec fn at(self, revision: u64) -> Seq<RowView> {
        if revision >= self.log.len() {
            self.rows
        } else {
            replay(self.base, self.log.take(revision as int))
        }
    }

    /// The publication with the highest sequence, which is the newest.
    pub open spec fn latest(self) -> Option<PublicationView> {
        if self.publications.len() == 0 {
            None
        } else {
            Some(self.publications.last())
        }
    }

    /// One more step of control state.
    pub open spec fn bumped(self) -> StoreView {
        StoreView { control_version: (self.control_version + 1) as u64, ..self }
    }
}

/// Canonical state.
#[derive(Debug)]
pub struct HostStore {
    base: Vec<ManifestEntry>,
    log: Vec<Revision>,
    manifest: Vec<ManifestEntry>,
    operations: Vec<OperationRecord>,
    actors: Vec<ActorRecord>,
    tasks: Vec<Task>,
    conflicts: Vec<Conflict>,
    preparations: Vec<CommitPreparation>,
    publications: Vec<GitPublication>,
    control_version: u64,
    max_file_size: u64,
    oversize: Vec<OversizePath>,
}

impl View for HostStore {
    type V = StoreView;

    closed spec fn view(&self) -> StoreView {
        StoreView {
            base: rows(self.base@),
            log: views(self.log@),
            rows: rows(self.manifest@),
            operations: views(self.operations@),
            actors: views(self.actors@),
            tasks: views(self.tasks@),
            conflicts: views(self.conflicts@),
            preparations: views(self.preparations@),
            publications: views(self.publications@),
            control_version: self.control_version,
            max_file_size: self.max_file_size,
            oversize: views(self.oversize@),
        }
    }
}

/// Whether a declared base is what the log says the path was at that revision.
pub open spec fn base_fault(s: StoreView, op: OperationView) -> Option<ErrorView> {
    if op.base_revision > s.revision() {
        Some(
            plain(
                ErrorClass::ProtocolError,
                "Operation is based on "@ + revision_form(op.base_revision)
                    + ", which the host has not reached."@,
            ),
        )
    } else if !same_state(row_of(s.at(op.base_revision), op.path), op.base_entry) {
        Some(
            plain(
                ErrorClass::ProtocolError,
                "Operation base does not match the canonical state of "@ + op.path + " at "@
                    + revision_form(op.base_revision) + "."@,
            ),
        )
    } else {
        None
    }
}

/// The first path of a manifest that cannot coexist with `path`.
pub open spec fn colliding(list: Seq<RowView>, path: Seq<char>) -> Option<Seq<char>>
    decreases list.len(),
{
    if list.len() == 0 {
        None
    } else if list[0].path != path && key_of(list[0].path) == key_of(path) {
        Some(list[0].path)
    } else {
        colliding(list.drop_first(), path)
    }
}

/// What committing one revision does to canonical state.
pub open spec fn committed(
    s: StoreView,
    revision: RevisionView,
    payload_hash: Seq<char>,
    outcome: OutcomeView,
) -> StoreView {
    StoreView {
        log: s.log.push(revision),
        rows: set_row(s.rows, revision.path, revision.after),
        operations: s.operations.push(
            RecordView {
                operation_id: revision.operation_id,
                actor_id: revision.actor_id,
                payload_hash,
                outcome,
            },
        ),
        ..s
    }
}

impl HostStore {
    /// A session that starts from this manifest.
    pub fn new(base: Vec<ManifestEntry>) -> (s: HostStore)
        requires
            in_order(rows(base@)),
        ensures
            s@.ok(),
            s@ == (StoreView {
                base: rows(base@),
                log: Seq::empty(),
                rows: rows(base@),
                operations: Seq::empty(),
                actors: Seq::empty(),
                tasks: Seq::empty(),
                conflicts: Seq::empty(),
                preparations: Seq::empty(),
                publications: Seq::empty(),
                control_version: 0,
                max_file_size: DEFAULT_MAX_FILE_SIZE,
                oversize: Seq::empty(),
            }),
    {
        let manifest = copy_rows(&base);
        let s = HostStore {
            base,
            log: Vec::new(),
            manifest,
            operations: Vec::new(),
            actors: Vec::new(),
            tasks: Vec::new(),
            conflicts: Vec::new(),
            preparations: Vec::new(),
            publications: Vec::new(),
            control_version: 0,
            max_file_size: DEFAULT_MAX_FILE_SIZE,
            oversize: Vec::new(),
        };
        proof {
            assert(s@.log =~= Seq::<RevisionView>::empty());
            assert(s@.operations =~= Seq::<RecordView>::empty());
            assert(s@.actors =~= Seq::<ActorView>::empty());
            assert(s@.tasks =~= Seq::<TaskView>::empty());
            assert(s@.conflicts =~= Seq::<ConflictView>::empty());
            assert(s@.preparations =~= Seq::<PreparationView>::empty());
            assert(s@.publications =~= Seq::<PublicationView>::empty());
            assert(s@.oversize =~= Seq::<OversizeView>::empty());
        }
        s
    }

    pub fn current_revision(&self) -> (r: u64)
        requires
            self@.ok(),
        ensures
            r == self@.revision(),
    {
        proof {
            assert(self@.log.len() == self.log@.len());
        }
        self.log.len() as u64
    }

    pub fn manifest_entry(&self, path: &RepoPath) -> (e: Option<FileEntry>)
        requires
            self@.ok(),
        ensures
            entry_view(e) == self@.entry(path@),
    {
        proof {
            lemma_replay_in_order(self@.base, self@.log);
        }
        lookup(&self.manifest, path)
    }

    /// The current manifest, ordered by path.
    pub fn manifest_all(&self) -> (list: Vec<ManifestEntry>)
        ensures
            rows(list@) == self@.rows,
    {
        copy_rows(&self.manifest)
    }

    /// The manifest at a revision, rebuilt from the log.
    pub fn manifest_at(&self, revision: u64) -> (list: Vec<ManifestEntry>)
        requires
            self@.ok(),
        ensures
            rows(list@) == self@.at(revision),
            in_order(rows(list@)),
    {
        let mut list = copy_rows(&self.base);
        let mut i: usize = 0;
        proof {
            assert(self@.log.take(0) =~= Seq::<RevisionView>::empty());
            lemma_replay_in_order(self@.base, self@.log);
        }
        while i < self.log.len() && (i as u64) < revision
            invariant
                self@.ok(),
                i <= self.log@.len(),
                i <= revision,
                self@.log.len() == self.log@.len(),
                rows(list@) == replay(self@.base, self@.log.take(i as int)),
                in_order(rows(list@)),
            decreases self.log@.len() - i,
        {
            proof {
                assert(self@.log.take(i + 1).drop_last() =~= self@.log.take(i as int));
                assert(self@.log.take(i + 1).last() == self.log@[i as int]@);
            }
            assign(&mut list, &self.log[i].path, &self.log[i].after);
            i = i + 1;
        }
        proof {
            assert(self@.log.take(self@.log.len() as int) =~= self@.log);
        }
        list
    }

    /// Rebuild the current manifest from the durable history, and tell how many
    /// files it has.
    pub fn rebuild_manifest(&mut self) -> (count: usize)
        requires
            old(self)@.ok(),
        ensures
            final(self)@ == old(self)@,
            count == old(self)@.rows.len(),
    {
        let r = self.current_revision();
        let list = self.manifest_at(r);
        let n = list.len();
        proof {
            assert(self@.log.len() == self.log@.len());
        }
        self.manifest = list;
        n
    }

    /// The host validates the declared base against its own history; it never
    /// trusts the declared entry alone.
    pub fn validate_base(&self, op: &FileOperation) -> (r: Result<()>)
        requires
            self@.ok(),
        ensures
            match r {
                Ok(_) => base_fault(self@, op@) is None,
                Err(e) => base_fault(self@, op@) == Some(e@),
            },
    {
        if op.base_revision > self.current_revision() {
            let mut m = "Operation is based on ".to_owned();
            m.push_str(crate::util::fmt_revision(op.base_revision).as_str());
            m.push_str(", which the host has not reached.");
            return Err(protocol(m.as_str()));
        }
        let then = self.manifest_at(op.base_revision);
        let entry = lookup(&then, &op.path);
        if !FileEntry::same_as(entry.as_ref(), op.base_entry.as_ref()) {
            let mut m = "Operation base does not match the canonical state of ".to_owned();
            m.push_str(op.path.as_str());
            m.push_str(" at ");
            m.push_str(crate::util::fmt_revision(op.base_revision).as_str());
            m.push_str(".");
            return Err(protocol(m.as_str()));
        }
        Ok(())
    }

    /// The first canonical path that cannot coexist with `path`.
    pub fn colliding_path(&self, path: &RepoPath) -> (other: Option<RepoPath>)
        ensures
            opt_view(other) == colliding(self@.rows, path@),
    {
        let key = path.collision_key();
        let mut i: usize = 0;
        proof {
            assert(self@.rows.skip(0) =~= self@.rows);
        }
        while i < self.manifest.len()
            invariant
                i <= self.manifest@.len(),
                key@ == key_of(path@),
                colliding(self@.rows, path@) == colliding(self@.rows.skip(i as int), path@),
            decreases self.manifest@.len() - i,
        {
            proof {
                assert(self@.rows.len() == self.manifest@.len());
                assert(self@.rows.skip(i as int)[0] == self.manifest@[i as int]@);
                assert(self@.rows.skip(i as int).drop_first() =~= self@.rows.skip(i + 1));
            }
            let other = &self.manifest[i].path;
            if !other.same(path) && same_text(other.collision_key().as_str(), key.as_str()) {
                return Some(other.clone());
            }
            i = i + 1;
        }
        None
    }

    /// The stored result of an operation, with the digest it was stored under.
    pub fn lookup_operation(&self, operation_id: Uuid) -> (r: Option<(String, OperationOutcome)>)
        ensures
            match r {
                Some((hash, outcome)) => found::<OperationRecord>(
                    self@.operations,
                    operation_id,
                ) matches Some(rec) && rec.payload_hash == hash@ && rec.outcome == outcome@,
                None => found::<OperationRecord>(self@.operations, operation_id) is None,
            },
    {
        let at = position(&self.operations, operation_id);
        if at < self.operations.len() {
            Some((self.operations[at].payload_hash.clone(), self.operations[at].outcome.clone()))
        } else {
            None
        }
    }

    pub fn record_operation_result(
        &mut self,
        operation_id: Uuid,
        actor_id: Uuid,
        payload_hash: &str,
        outcome: &OperationOutcome,
    )
        ensures
            final(self)@ == (StoreView {
                operations: old(self)@.operations.push(
                    RecordView {
                        operation_id,
                        actor_id,
                        payload_hash: payload_hash@,
                        outcome: outcome@,
                    },
                ),
                ..old(self)@
            }),
    {
        let ghost before = self.operations@;
        let r = OperationRecord {
            operation_id,
            actor_id,
            payload_hash: payload_hash.to_owned(),
            outcome: outcome.clone(),
        };
        self.operations.push(r);
        proof {
            lemma_views_push(before, r);
        }
    }

    /// Accept one mutation: append it to the log, move the manifest, and store
    /// the operation's result, all at once.
    pub fn commit_revision(
        &mut self,
        revision: Revision,
        payload_hash: &str,
        outcome: &OperationOutcome,
    )
        requires
            old(self)@.ok(),
            old(self)@.log.len() + 1 < u64::MAX,
            revision.revision == old(self)@.revision() + 1,
        ensures
            final(self)@ == committed(old(self)@, revision@, payload_hash@, outcome@),
            final(self)@.ok(),
    {
        let ghost v = self@;
        proof {
            lemma_replay_in_order(v.base, v.log);
        }
        assign(&mut self.manifest, &revision.path, &revision.after);
        self.record_operation_result(
            revision.operation_id,
            revision.actor_id,
            payload_hash,
            outcome,
        );
        let ghost before = self.log@;
        self.log.push(revision);
        proof {
            lemma_views_push(before, revision);
            assert(self@.log.drop_last() =~= v.log);
            assert(self@.log.last() == revision@);
        }
    }

    pub fn control_version(&self) -> (n: u64)
        ensures
            n == self@.control_version,
    {
        self.control_version
    }

    pub fn bump_control_version(&mut self)
        requires
            old(self)@.control_version < u64::MAX,
        ensures
            final(self)@ == old(self)@.bumped(),
    {
        self.control_version = self.control_version + 1;
    }

    pub fn task(&self, id: Uuid) -> (t: Option<Task>)
        ensures
            opt_view(t) == found::<Task>(self@.tasks, id),
    {
        let at = position(&self.tasks, id);
        if at < self.tasks.len() {
            Some(self.tasks[at].clone())
        } else {
            None
        }
    }

    pub fn put_task(&mut self, t: Task)
        ensures
            final(self)@ == (StoreView {
                tasks: stored::<Task>(old(self)@.tasks, t@),
                ..old(self)@
            }),
    {
        store(&mut self.tasks, t);
    }

    pub fn tasks(&self) -> (list: Vec<Task>)
        ensures
            views(list@) == self@.tasks,
    {
        let list = self.tasks.clone();
        proof {
            assert(views(list@) =~= views(self.tasks@));
        }
        list
    }

    pub fn conflict(&self, id: Uuid) -> (c: Option<Conflict>)
        ensures
            opt_view(c) == found::<Conflict>(self@.conflicts, id),
    {
        let at = position(&self.conflicts, id);
        if at < self.conflicts.len() {
            Some(self.conflicts[at].clone())
        } else {
            None
        }
    }

    pub fn put_conflict(&mut self, c: Conflict)
        ensures
            final(self)@ == (StoreView {
                conflicts: stored::<Conflict>(old(self)@.conflicts, c@),
                ..old(self)@
            }),
    {
        store(&mut self.conflicts, c);
    }

    pub fn conflicts(&self) -> (list: Vec<Conflict>)
        ensures
            views(list@) == self@.conflicts,
    {
        let list = self.conflicts.clone();
        proof {
            assert(views(list@) =~= views(self.conflicts@));
        }
        list
    }

    pub fn upsert_actor(&mut self, a: ActorRecord)
        ensures
            final(self)@ == (StoreView {
                actors: stored::<ActorRecord>(old(self)@.actors, a@),
                ..old(self)@
            }),
    {
        store(&mut self.actors, a);
    }

    /// The publication with the highest sequence.
    pub fn latest_publication(&self) -> (p: Option<GitPublication>)
        ensures
            opt_view(p) == self@.latest(),
    {
        let n = self.publications.len();
        if n == 0 {
            None
        } else {
            Some(self.publications[n - 1].clone())
        }
    }

    pub fn put_publication(&mut self, p: GitPublication)
        ensures
            final(self)@ == (StoreView {
                publications: filed(old(self)@.publications, p@),
                ..old(self)@
            }),
            old(self)@.ok() ==> final(self)@.ok(),
    {
        let ghost before = self@.publications;
        let ghost v = p@;
        let mut i: usize = self.publications.len();
        proof {
            assert(before.take(i as int) =~= before);
            assert(before.skip(i as int) =~= Seq::<PublicationView>::empty());
            assert(filed(before, v) =~= filed(before, v) + Seq::<PublicationView>::empty());
        }
        while i > 0 && self.publications[i - 1].sequence > p.sequence
            invariant
                i <= self.publications@.len(),
                before == views(self.publications@),
                v == p@,
                filed(before, v) == filed(before.take(i as int), v) + before.skip(i as int),
            decreases i,
        {
            proof {
                assert(before.take(i as int).last() == before[i - 1]);
                assert(before[i - 1] == self.publications@[i - 1]@);
                assert(before.take(i as int).drop_last() =~= before.take(i - 1));
                assert(filed(before.take(i - 1), v).push(before[i - 1]) + before.skip(i as int)
                    =~= filed(before.take(i - 1), v) + before.skip(i - 1));
            }
            i = i - 1;
        }
        proof {
            if i > 0 {
                assert(before.take(i as int).last() == before[i - 1]);
                assert(before[i - 1] == self.publications@[i - 1]@);
            }
            filing_keeps_the_order(before, v);
        }
        if i > 0 && self.publications[i - 1].sequence == p.sequence {
            self.publications.set(i - 1, p);
            proof {
                assert(views(self.publications@) =~= before.take(i as int).drop_last().push(v)
                    + before.skip(i as int));
            }
        } else {
            self.publications.insert(i, p);
            proof {
                assert(views(self.publications@) =~= before.take(i as int).push(v) + before.skip(
                    i as int,
                ));
            }
        }
    }

    /// Every operation that was answered.
    pub fn operations(&self) -> (list: &Vec<OperationRecord>)
        ensures
            views(list@) == self@.operations,
    {
        &self.operations
    }

    /// Every preparation.
    pub fn preparations(&self) -> (list: &Vec<CommitPreparation>)
        ensures
            views(list@) == self@.preparations,
    {
        &self.preparations
    }

    pub fn put_preparation(&mut self, p: CommitPreparation)
        ensures
            final(self)@ == (StoreView {
                preparations: stored::<CommitPreparation>(old(self)@.preparations, p@),
                ..old(self)@
            }),
    {
        store(&mut self.preparations, p);
    }
}

// ---------------------------------------------------------------------------
// Reading a span of history
// ---------------------------------------------------------------------------

/// The revisions after `after`, up to and including `upto`.
pub open spec fn span_of(log: Seq<RevisionView>, after: u64, upto: u64) -> Seq<RevisionView> {
    log.filter(|r: RevisionView| after < r.revision <= upto)
}

/// The revisions of a span that belong to one task.
pub open spec fn revisions_of(span: Seq<RevisionView>, task_id: Uuid) -> Seq<u64>
    decreases span.len(),
{
    if span.len() == 0 {
        Seq::empty()
    } else if span.last().task_id == Some(task_id) {
        revisions_of(span.drop_last(), task_id).push(span.last().revision)
    } else {
        revisions_of(span.drop_last(), task_id)
    }
}

/// The revisions of a span that belong to no task.
pub open spec fn unassigned_of(span: Seq<RevisionView>) -> Seq<u64>
    decreases span.len(),
{
    if span.len() == 0 {
        Seq::empty()
    } else if span.last().task_id is None {
        unassigned_of(span.drop_last()).push(span.last().revision)
    } else {
        unassigned_of(span.drop_last())
    }
}

/// The tasks of a span, each once, in the order of their first revision.
pub open spec fn tasks_of(span: Seq<RevisionView>) -> Seq<Uuid>
    decreases span.len(),
{
    if span.len() == 0 {
        Seq::empty()
    } else {
        let before = tasks_of(span.drop_last());
        match span.last().task_id {
            Some(id) => if before.contains(id) {
                before
            } else {
                before.push(id)
            },
            None => before,
        }
    }
}

/// How many revisions one actor contributed.
#[derive(Debug, Clone, Copy, PartialEq, Eq, Structural)]
pub struct ActorCount {
    pub actor_id: Uuid,
    pub revisions: u64,
}

impl View for ActorCount {
    type V = ActorCount;

    open spec fn view(&self) -> ActorCount {
        *self
    }
}

impl Keyed for ActorCount {
    open spec fn key_of(v: ActorCount) -> Uuid {
        v.actor_id
    }

    fn key(&self) -> Uuid {
        self.actor_id
    }
}

/// The actors of a span with their number of revisions, in the order of their
/// first one.
pub open spec fn counts_of(span: Seq<RevisionView>) -> Seq<ActorCount>
    decreases span.len(),
{
    if span.len() == 0 {
        Seq::empty()
    } else {
        let before = counts_of(span.drop_last());
        let actor_id = span.last().actor_id;
        stored::<ActorCount>(
            before,
            ActorCount {
                actor_id,
                revisions: match found::<ActorCount>(before, actor_id) {
                    Some(c) => (c.revisions + 1) as u64,
                    None => 1,
                },
            },
        )
    }
}

proof fn lemma_counts_bounded(span: Seq<RevisionView>)
    ensures
        forall|i: int|
            0 <= i < counts_of(span).len() ==> (#[trigger] counts_of(span)[i]).revisions
                <= span.len(),
    decreases span.len(),
{
    if span.len() > 0 {
        lemma_counts_bounded(span.drop_last());
        let before = counts_of(span.drop_last());
        lemma_index_of::<ActorCount>(before, span.last().actor_id);
    }
}

/// The revisions of a span that belong to one task.
pub fn task_revisions(span: &Vec<Revision>, task_id: Uuid) -> (list: Vec<u64>)
    ensures
        list@ == revisions_of(views(span@), task_id),
{
    let mut list: Vec<u64> = Vec::new();
    let mut i: usize = 0;
    while i < span.len()
        invariant
            i <= span@.len(),
            list@ == revisions_of(views(span@).take(i as int), task_id),
        decreases span@.len() - i,
    {
        proof {
            let now = views(span@).take(i + 1);
            assert(now.drop_last() =~= views(span@).take(i as int));
            assert(now.last() == span@[i as int]@);
        }
        match span[i].task_id {
            Some(id) => {
                if id == task_id {
                    list.push(span[i].revision);
                }
            },
            None => {},
        }
        i = i + 1;
    }
    proof {
        assert(views(span@).take(i as int) =~= views(span@));
    }
    list
}

/// The revisions of a span that belong to no task.
pub fn unassigned_revisions(span: &Vec<Revision>) -> (list: Vec<u64>)
    ensures
        list@ == unassigned_of(views(span@)),
{
    let mut list: Vec<u64> = Vec::new();
    let mut i: usize = 0;
    while i < span.len()
        invariant
            i <= span@.len(),
            list@ == unassigned_of(views(span@).take(i as int)),
        decreases span@.len() - i,
    {
        proof {
            let now = views(span@).take(i + 1);
            assert(now.drop_last() =~= views(span@).take(i as int));
            assert(now.last() == span@[i as int]@);
        }
        if span[i].task_id.is_none() {
            list.push(span[i].revision);
        }
        i = i + 1;
    }
    proof {
        assert(views(span@).take(i as int) =~= views(span@));
    }
    list
}

/// Whether a list of identifiers holds one.
pub fn has_id(list: &Vec<Uuid>, id: Uuid) -> (yes: bool)
    ensures
        yes == list@.contains(id),
{
    let mut i: usize = 0;
    while i < list.len()
        invariant
            i <= list@.len(),
            forall|k: int| 0 <= k < i ==> list@[k] != id,
        decreases list@.len() - i,
    {
        if list[i] == id {
            assert(list@[i as int] == id);
            return true;
        }
        i = i + 1;
    }
    false
}

/// The tasks of a span, each once, in the order of their first revision.
pub fn tasks_contributing(span: &Vec<Revision>) -> (list: Vec<Uuid>)
    ensures
        list@ == tasks_of(views(span@)),
{
    let mut list: Vec<Uuid> = Vec::new();
    let mut i: usize = 0;
    while i < span.len()
        invariant
            i <= span@.len(),
            list@ == tasks_of(views(span@).take(i as int)),
        decreases span@.len() - i,
    {
        proof {
            let now = views(span@).take(i + 1);
            assert(now.drop_last() =~= views(span@).take(i as int));
            assert(now.last() == span@[i as int]@);
        }
        match span[i].task_id {
            Some(id) => {
                if !has_id(&list, id) {
                    list.push(id);
                }
            },
            None => {},
        }
        i = i + 1;
    }
    proof {
        assert(views(span@).take(i as int) =~= views(span@));
    }
    list
}

/// The actors of a span with their number of revisions.
pub fn contributor_counts(span: &Vec<Revision>) -> (list: Vec<ActorCount>)
    ensures
        list@ == counts_of(views(span@)),
{
    let mut list: Vec<ActorCount> = Vec::new();
    let mut i: usize = 0;
    while i < span.len()
        invariant
            i <= span@.len(),
            list@ == counts_of(views(span@).take(i as int)),
        decreases span@.len() - i,
    {
        proof {
            let now = views(span@).take(i + 1);
            assert(now.drop_last() =~= views(span@).take(i as int));
            assert(now.last() == span@[i as int]@);
            assert(views(list@) =~= list@);
            lemma_counts_bounded(views(span@).take(i as int));
            assert(span.len() <= usize::MAX);
        }
        let actor_id = span[i].actor_id;
        let at = position(&list, actor_id);
        let n: u64 = if at < list.len() {
            list[at].revisions + 1
        } else {
            1
        };
        store(&mut list, ActorCount { actor_id, revisions: n });
        proof {
            assert(views(list@) =~= list@);
        }
        i = i + 1;
    }
    proof {
        assert(views(span@).take(i as int) =~= views(span@));
    }
    list
}

/// The conflicts nobody has settled yet.
pub open spec fn open_of(list: Seq<ConflictView>) -> Seq<ConflictView> {
    list.filter(|c: ConflictView| c.status == ConflictStatus::Open)
}

/// The tasks somebody is working on.
pub open spec fn active_of(list: Seq<TaskView>) -> Seq<TaskView> {
    list.filter(|t: TaskView| t.status == TaskStatus::Active)
}

/// The first task somebody is working on.
pub open spec fn active_for(list: Seq<TaskView>, actor_id: Uuid) -> Option<TaskView>
    decreases list.len(),
{
    if list.len() == 0 {
        None
    } else if list[0].actor_id == actor_id && list[0].status == TaskStatus::Active {
        Some(list[0])
    } else {
        active_for(list.drop_first(), actor_id)
    }
}

/// The first active task of an actor.
pub fn first_active(list: &Vec<Task>, actor_id: Uuid) -> (t: Option<Task>)
    ensures
        opt_view(t) == active_for(views(list@), actor_id),
{
    let mut i: usize = 0;
    proof {
        assert(views(list@).skip(0) =~= views(list@));
    }
    while i < list.len()
        invariant
            i <= list@.len(),
            active_for(views(list@), actor_id) == active_for(
                views(list@).skip(i as int),
                actor_id,
            ),
        decreases list@.len() - i,
    {
        proof {
            assert(views(list@).skip(i as int)[0] == list@[i as int]@);
            assert(views(list@).skip(i as int).drop_first() =~= views(list@).skip(i + 1));
        }
        if list[i].actor_id == actor_id && list[i].status == TaskStatus::Active {
            return Some(list[i].clone());
        }
        i = i + 1;
    }
    None
}

/// The publications behind a sequence number.
pub open spec fn later_than(list: Seq<PublicationView>, sequence: u64) -> Seq<PublicationView> {
    list.filter(|p: PublicationView| p.sequence > sequence)
}

/// The paths held back by everybody but one actor.
pub open spec fn held_by_others(list: Seq<OversizeView>, actor_id: Uuid) -> Seq<OversizeView> {
    list.filter(|o: OversizeView| o.actor_id != actor_id)
}

impl HostStore {
    /// The revisions after `after`, up to and including `upto`.
    pub fn span(&self, after: u64, upto: u64) -> (list: Vec<Revision>)
        ensures
            views(list@) == span_of(self@.log, after, upto),
    {
        let mut list: Vec<Revision> = Vec::new();
        let mut i: usize = 0;
        let ghost all = self@.log;
        let ghost keep = |r: RevisionView| after < r.revision <= upto;
        proof {
            reveal(Seq::filter);
            assert(views(list@) =~= all.take(0).filter(keep));
        }
        while i < self.log.len()
            invariant
                i <= self.log@.len(),
                all == views(self.log@),
                keep == (|r: RevisionView| after < r.revision <= upto),
                views(list@) == all.take(i as int).filter(keep),
            decreases self.log@.len() - i,
        {
            let ghost before = list@;
            proof {
                reveal(Seq::filter);
                assert(all.take(i + 1).drop_last() =~= all.take(i as int));
                assert(all.take(i + 1).last() == self.log@[i as int]@);
            }
            if after < self.log[i].revision && self.log[i].revision <= upto {
                let r = self.log[i].clone();
                list.push(r);
                proof {
                    lemma_views_push(before, r);
                }
            }
            i = i + 1;
        }
        proof {
            assert(all.take(i as int) =~= all);
        }
        list
    }

    pub fn open_conflicts(&self) -> (list: Vec<Conflict>)
        ensures
            views(list@) == open_of(self@.conflicts),
    {
        let mut list: Vec<Conflict> = Vec::new();
        let mut i: usize = 0;
        let ghost all = self@.conflicts;
        let ghost keep = |c: ConflictView| c.status == ConflictStatus::Open;
        proof {
            reveal(Seq::filter);
            assert(views(list@) =~= all.take(0).filter(keep));
        }
        while i < self.conflicts.len()
            invariant
                i <= self.conflicts@.len(),
                all == views(self.conflicts@),
                keep == (|c: ConflictView| c.status == ConflictStatus::Open),
                views(list@) == all.take(i as int).filter(keep),
            decreases self.conflicts@.len() - i,
        {
            let ghost before = list@;
            proof {
                reveal(Seq::filter);
                assert(all.take(i + 1).drop_last() =~= all.take(i as int));
                assert(all.take(i + 1).last() == self.conflicts@[i as int]@);
            }
            if self.conflicts[i].status == ConflictStatus::Open {
                let c = self.conflicts[i].clone();
                list.push(c);
                proof {
                    lemma_views_push(before, c);
                }
            }
            i = i + 1;
        }
        proof {
            assert(all.take(i as int) =~= all);
        }
        list
    }

    pub fn active_tasks(&self) -> (list: Vec<Task>)
        ensures
            views(list@) == active_of(self@.tasks),
    {
        let mut list: Vec<Task> = Vec::new();
        let mut i: usize = 0;
        let ghost all = self@.tasks;
        let ghost keep = |t: TaskView| t.status == TaskStatus::Active;
        proof {
            reveal(Seq::filter);
            assert(views(list@) =~= all.take(0).filter(keep));
        }
        while i < self.tasks.len()
            invariant
                i <= self.tasks@.len(),
                all == views(self.tasks@),
                keep == (|t: TaskView| t.status == TaskStatus::Active),
                views(list@) == all.take(i as int).filter(keep),
            decreases self.tasks@.len() - i,
        {
            let ghost before = list@;
            proof {
                reveal(Seq::filter);
                assert(all.take(i + 1).drop_last() =~= all.take(i as int));
                assert(all.take(i + 1).last() == self.tasks@[i as int]@);
            }
            if self.tasks[i].status == TaskStatus::Active {
                let t = self.tasks[i].clone();
                list.push(t);
                proof {
                    lemma_views_push(before, t);
                }
            }
            i = i + 1;
        }
        proof {
            assert(all.take(i as int) =~= all);
        }
        list
    }

    pub fn active_task_for_actor(&self, actor_id: Uuid) -> (t: Option<Task>)
        ensures
            opt_view(t) == active_for(self@.tasks, actor_id),
    {
        first_active(&self.tasks, actor_id)
    }

    pub fn actor(&self, actor_id: Uuid) -> (a: Option<ActorRecord>)
        ensures
            opt_view(a) == found::<ActorRecord>(self@.actors, actor_id),
    {
        let at = position(&self.actors, actor_id);
        if at < self.actors.len() {
            Some(self.actors[at].clone())
        } else {
            None
        }
    }

    pub fn actors(&self) -> (list: Vec<ActorRecord>)
        ensures
            views(list@) == self@.actors,
    {
        let list = self.actors.clone();
        proof {
            assert(views(list@) =~= views(self.actors@));
        }
        list
    }

    pub fn preparation(&self, prepare_id: Uuid) -> (p: Option<CommitPreparation>)
        ensures
            opt_view(p) == found::<CommitPreparation>(self@.preparations, prepare_id),
    {
        let at = position(&self.preparations, prepare_id);
        if at < self.preparations.len() {
            Some(self.preparations[at].clone())
        } else {
            None
        }
    }

    /// The number of the next publication of this session.
    pub fn next_publication_sequence(&self) -> (n: u64)
        requires
            self@.latest() matches Some(p) ==> p.sequence < u64::MAX,
        ensures
            n == match self@.latest() {
                Some(p) => (p.sequence + 1) as u64,
                None => 1,
            },
    {
        match self.latest_publication() {
            Some(p) => p.sequence + 1,
            None => 1,
        }
    }

    /// The publications a client that installed `sequence` has still to see.
    pub fn publications_after(&self, sequence: u64) -> (list: Vec<GitPublication>)
        ensures
            views(list@) == later_than(self@.publications, sequence),
    {
        let mut list: Vec<GitPublication> = Vec::new();
        let mut i: usize = 0;
        let ghost all = self@.publications;
        let ghost keep = |p: PublicationView| p.sequence > sequence;
        proof {
            reveal(Seq::filter);
            assert(views(list@) =~= all.take(0).filter(keep));
        }
        while i < self.publications.len()
            invariant
                i <= self.publications@.len(),
                all == views(self.publications@),
                keep == (|p: PublicationView| p.sequence > sequence),
                views(list@) == all.take(i as int).filter(keep),
            decreases self.publications@.len() - i,
        {
            let ghost before = list@;
            proof {
                reveal(Seq::filter);
                assert(all.take(i + 1).drop_last() =~= all.take(i as int));
                assert(all.take(i + 1).last() == self.publications@[i as int]@);
            }
            if self.publications[i].sequence > sequence {
                let p = self.publications[i].clone();
                list.push(p);
                proof {
                    lemma_views_push(before, p);
                }
            }
            i = i + 1;
        }
        proof {
            assert(all.take(i as int) =~= all);
        }
        list
    }

    pub fn max_file_size(&self) -> (n: u64)
        ensures
            n == self@.max_file_size,
    {
        self.max_file_size
    }

    pub fn set_max_file_size(&mut self, n: u64)
        ensures
            final(self)@ == (StoreView { max_file_size: n, ..old(self)@ }),
    {
        self.max_file_size = n;
    }

    pub fn oversize(&self) -> (list: Vec<OversizePath>)
        ensures
            views(list@) == self@.oversize,
    {
        let list = self.oversize.clone();
        proof {
            assert(views(list@) =~= views(self.oversize@));
        }
        list
    }

    /// Replace everything one actor holds back.
    pub fn replace_oversize(&mut self, actor_id: Uuid, paths: Vec<OversizePath>)
        ensures
            final(self)@ == (StoreView {
                oversize: held_by_others(old(self)@.oversize, actor_id) + views(paths@),
                ..old(self)@
            }),
    {
        let mut list: Vec<OversizePath> = Vec::new();
        let mut i: usize = 0;
        let ghost all = self@.oversize;
        let ghost keep = |o: OversizeView| o.actor_id != actor_id;
        proof {
            reveal(Seq::filter);
            assert(views(list@) =~= all.take(0).filter(keep));
        }
        while i < self.oversize.len()
            invariant
                i <= self.oversize@.len(),
                all == views(self.oversize@),
                keep == (|o: OversizeView| o.actor_id != actor_id),
                views(list@) == all.take(i as int).filter(keep),
            decreases self.oversize@.len() - i,
        {
            let ghost before = list@;
            proof {
                reveal(Seq::filter);
                assert(all.take(i + 1).drop_last() =~= all.take(i as int));
                assert(all.take(i + 1).last() == self.oversize@[i as int]@);
            }
            if self.oversize[i].actor_id != actor_id {
                let o = self.oversize[i].clone();
                list.push(o);
                proof {
                    lemma_views_push(before, o);
                }
            }
            i = i + 1;
        }
        let ghost kept = list@;
        let mut paths = paths;
        let ghost added = paths@;
        list.append(&mut paths);
        proof {
            assert(all.take(i as int) =~= all);
            assert(views(list@) =~= views(kept) + views(added));
        }
        self.oversize = list;
    }
}

// ---------------------------------------------------------------------------
// What canonical state guarantees
// ---------------------------------------------------------------------------

/// Accepting a revision changes exactly the path it names, to exactly what it
/// says, and numbers it next.
pub proof fn a_revision_changes_one_path(
    s: StoreView,
    revision: RevisionView,
    payload_hash: Seq<char>,
    outcome: OutcomeView,
    other: Seq<char>,
)
    requires
        s.ok(),
        s.log.len() + 1 < u64::MAX,
        revision.revision == s.revision() + 1,
    ensures
        committed(s, revision, payload_hash, outcome).ok(),
        committed(s, revision, payload_hash, outcome).revision() == s.revision() + 1,
        committed(s, revision, payload_hash, outcome).entry(revision.path) == revision.after,
        other != revision.path ==> committed(s, revision, payload_hash, outcome).entry(other)
            == s.entry(other),
{
    let t = committed(s, revision, payload_hash, outcome);
    lemma_replay_in_order(s.base, s.log);
    set_row_changes_one_path(s.rows, revision.path, revision.after, other);
    assert(t.log.drop_last() =~= s.log);
}

/// Every past state stays reconstructible: accepting more revisions never
/// changes what the manifest was at an earlier one.
pub proof fn history_is_immutable(
    s: StoreView,
    revision: RevisionView,
    payload_hash: Seq<char>,
    outcome: OutcomeView,
    past: u64,
)
    requires
        s.ok(),
        past <= s.revision(),
    ensures
        committed(s, revision, payload_hash, outcome).at(past) == s.at(past),
{
    let t = committed(s, revision, payload_hash, outcome);
    assert(t.log.take(past as int) =~= s.log.take(past as int));
    assert(s.log.take(s.log.len() as int) =~= s.log);
}

/// The manifest at the newest revision is the current manifest, and at
/// revision zero it is the base.
pub proof fn history_ends_at_the_present(s: StoreView)
    requires
        s.ok(),
    ensures
        s.at(s.revision()) == s.rows,
        s.log.len() > 0 ==> s.at(0) == s.base,
{
    if s.log.len() > 0 {
        assert(s.log.take(0) =~= Seq::<RevisionView>::empty());
    }
}

} // verus!
