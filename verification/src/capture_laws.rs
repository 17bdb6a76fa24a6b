//! What the working tree is taken for: modes, links, the metadata cache, and
//! what a removed file leaves behind.

use vstd::prelude::*;

use crate::blobs::BlobStore;
use crate::error::ErrorView;
use crate::gitx::disk_mode;
use crate::model::{EntryView, GitMode};
use crate::path::{indirection, StepKind};
use crate::scan::{
    ancestors, emptied, hit_rule, look_rule, mode_bits, remember_rule, write_fault, FileMeta,
    LookedView, MetaKind, Stat, StatView,
};
use crate::store_client::{drop_record, put_is_found, record_of};
use crate::text::{join, split, split_then_join};

verus! {

/// On a platform that reports permissions a file is executable exactly when an
/// executable bit is set, whatever it was before.
pub proof fn a_mode_is_read_from_the_permissions(
    bits: u32,
    previous: Option<EntryView>,
    other: Option<EntryView>,
)
    ensures
        (disk_mode(Some(bits), previous) == GitMode::Executable) == (bits & 0o111 != 0),
        disk_mode(Some(bits), previous) == disk_mode(Some(bits), other),
{
}

/// Without permissions a file keeps the mode it had, and a new one is regular.
pub proof fn a_mode_is_kept_without_permissions(e: EntryView)
    ensures
        disk_mode(None, Some(e)) == e.git_mode,
        disk_mode(None, None) == GitMode::Regular,
{
}

/// A mode that was written is read back, and the other permissions of the file
/// stay as they were.
pub proof fn a_mode_that_was_written_reads_back(
    current: u32,
    mode: GitMode,
    previous: Option<EntryView>,
)
    ensures
        disk_mode(Some(mode_bits(current, mode)), previous) == mode,
        mode_bits(current, mode) & !0o111u32 == current & !0o111u32,
        mode_bits(mode_bits(current, mode), mode) == mode_bits(current, mode),
{
    assert((current | 0o111) & 0o111 != 0) by (bit_vector);
    assert((current & !0o111u32) & 0o111 == 0) by (bit_vector);
    assert((current | 0o111) & !0o111u32 == current & !0o111u32) by (bit_vector);
    assert((current & !0o111u32) & !0o111u32 == current & !0o111u32) by (bit_vector);
    assert((current | 0o111) | 0o111 == current | 0o111) by (bit_vector);
}

/// Whether a walk along the steps of a path meets something that is neither a
/// plain entry nor missing, before anything is missing.
pub open spec fn meets(steps: Seq<StepKind>, at: int) -> bool {
    &&& 0 <= at < steps.len()
    &&& !(steps[at] is Plain) && !(steps[at] is Missing)
    &&& forall|k: int| 0 <= k < at ==> (#[trigger] steps[k]) is Plain
}

/// A path is refused exactly when the walk to it meets a link, another
/// indirection or something unreadable; what comes behind a missing entry does
/// not matter.
pub proof fn a_link_on_the_way_is_refused(path: Seq<char>, steps: Seq<StepKind>)
    ensures
        (indirection(path, steps) is Some) == exists|at: int| #[trigger] meets(steps, at),
    decreases steps.len(),
{
    if steps.len() > 0 {
        let rest = steps.drop_first();
        a_link_on_the_way_is_refused(path, rest);
        if steps[0] is Plain {
            if exists|at: int| #[trigger] meets(rest, at) {
                let at = choose|at: int| #[trigger] meets(rest, at);
                assert forall|k: int| 0 <= k < at + 1 implies (#[trigger] steps[k]) is Plain by {
                    if k > 0 {
                        assert(rest[k - 1] == steps[k]);
                    }
                }
                assert(rest[at] == steps[at + 1]);
                assert(meets(steps, at + 1));
            }
            if exists|at: int| #[trigger] meets(steps, at) {
                let at = choose|at: int| #[trigger] meets(steps, at);
                assert(rest[at - 1] == steps[at]);
                assert forall|k: int| 0 <= k < at - 1 implies (#[trigger] rest[k]) is Plain by {
                    assert(rest[k] == steps[k + 1]);
                }
                assert(meets(rest, at - 1));
            }
        } else if steps[0] is Missing {
            if exists|at: int| #[trigger] meets(steps, at) {
                let at = choose|at: int| #[trigger] meets(steps, at);
                if at > 0 {
                    assert(steps[0] is Plain);
                }
            }
        } else {
            assert(meets(steps, 0));
        }
    }
}

/// What a look at a path comes to: an error where the way or the path itself is
/// a link, nothing where there is no file, and otherwise the file in the mode
/// its permissions give it. The content is known only where the cache has the
/// very size and time of it and the content is at hand.
pub proof fn a_look_finds_what_is_there(
    cache: Seq<StatView>,
    held: Map<Seq<char>, u64>,
    path: Seq<char>,
    steps: Seq<StepKind>,
    meta: Option<FileMeta>,
    permissions: Option<u32>,
    previous: Option<EntryView>,
)
    ensures
        ({
            let r = look_rule(cache, held, path, steps, meta, permissions, previous).1;
            let barred = indirection(path, steps) is Some;
            let link = meta is Some && meta->0.kind == MetaKind::Symlink;
            let none = meta is None || meta->0.kind == MetaKind::Directory;
            let mode = disk_mode(permissions, previous);
            let known = record_of::<Stat>(cache, path);
            let fresh = known is Some && known->0.size == meta->0.size && meta->0.mtime_ms == Some(
                known->0.mtime_ms,
            ) && held.contains_key(known->0.entry.blob_hash);
            &&& r is Err == (barred || link)
            &&& !barred && none ==> r == Ok::<LookedView, ErrorView>(LookedView::Absent)
            &&& !barred && !link && !none && fresh ==> (r matches Ok(LookedView::Known(e)) && e.git_mode
                == mode && e.blob_hash == known->0.entry.blob_hash && e.size == known->0.entry.size
                && e.file_kind == known->0.entry.file_kind)
            &&& !barred && !link && !none && !fresh ==> r == Ok::<LookedView, ErrorView>(
                LookedView::Ingest(mode),
            )
        }),
{
}

/// A file that was hashed and has held still for two seconds is known again by
/// its size and time, for as long as its content is at hand.
pub proof fn a_settled_file_is_known_again(
    cache: Seq<StatView>,
    path: Seq<char>,
    meta: FileMeta,
    entry: EntryView,
    now_ms: i64,
    held: Map<Seq<char>, u64>,
    other: Seq<char>,
)
    requires
        meta.mtime_ms is Some,
        now_ms - meta.mtime_ms->0 >= 2000,
    ensures
        ({
            let next = remember_rule(cache, path, meta, entry, now_ms);
            &&& held.contains_key(entry.blob_hash) ==> hit_rule(next, path, meta, held) == Some(entry)
            &&& !held.contains_key(entry.blob_hash) ==> hit_rule(next, path, meta, held) is None
            &&& forall|m: FileMeta|
                m.size != meta.size || m.mtime_ms != meta.mtime_ms ==> #[trigger] hit_rule(
                    next,
                    path,
                    m,
                    held,
                ) is None
            &&& other != path ==> record_of::<Stat>(next, other) == record_of::<Stat>(cache, other)
        }),
{
    let v = StatView { path, size: meta.size, mtime_ms: meta.mtime_ms->0, entry };
    put_is_found::<Stat>(cache, v, path);
    put_is_found::<Stat>(cache, v, other);
}

/// A file touched less than two seconds ago, or without a time, is not
/// remembered: its content is read again.
pub proof fn a_racy_file_is_not_remembered(
    cache: Seq<StatView>,
    path: Seq<char>,
    meta: FileMeta,
    entry: EntryView,
    now_ms: i64,
)
    requires
        meta.mtime_ms is None || now_ms - meta.mtime_ms->0 < 2000,
        forall|i: int, j: int|
            0 <= i < j < cache.len() ==> (#[trigger] cache[i]).path != (#[trigger] cache[j]).path,
    ensures
        record_of::<Stat>(remember_rule(cache, path, meta, entry, now_ms), path) is None,
{
    lemma_dropped(cache, path);
}

proof fn lemma_dropped(cache: Seq<StatView>, path: Seq<char>)
    requires
        forall|i: int, j: int|
            0 <= i < j < cache.len() ==> (#[trigger] cache[i]).path != (#[trigger] cache[j]).path,
    ensures
        record_of::<Stat>(drop_record::<Stat>(cache, path), path) is None,
    decreases cache.len(),
{
    if cache.len() > 0 {
        let rest = cache.drop_first();
        assert forall|i: int, j: int| 0 <= i < j < rest.len() implies (#[trigger] rest[i]).path != (
        #[trigger] rest[j]).path by {
            assert(cache[i + 1].path != cache[j + 1].path);
        }
        if cache[0].path == path {
            assert forall|k: int| 0 <= k < rest.len() implies (#[trigger] rest[k]).path != path by {
                assert(cache[0].path != cache[k + 1].path);
            }
            lemma_none(rest, path);
        } else {
            lemma_dropped(rest, path);
            let all = seq![cache[0]] + drop_record::<Stat>(rest, path);
            assert(all.drop_first() =~= drop_record::<Stat>(rest, path));
        }
    }
}

proof fn lemma_none(list: Seq<StatView>, path: Seq<char>)
    requires
        forall|k: int| 0 <= k < list.len() ==> (#[trigger] list[k]).path != path,
    ensures
        record_of::<Stat>(list, path) is None,
    decreases list.len(),
{
    if list.len() > 0 {
        assert(list[0].path != path);
        let rest = list.drop_first();
        assert forall|k: int| 0 <= k < rest.len() implies (#[trigger] rest[k]).path != path by {
            assert(rest[k] == list[k + 1]);
        }
        lemma_none(rest, path);
    }
}

/// Canonical content replaces a working file exactly when no link is on the way,
/// the content is at hand, and its bytes are what its name says.
pub proof fn only_proven_content_is_written(
    path: Seq<char>,
    steps: Seq<StepKind>,
    blobs: BlobStore,
    hash: Seq<char>,
    actual: Seq<char>,
)
    ensures
        (write_fault(path, steps, blobs, hash, actual) is None) == (!(exists|at: int| #[trigger]
            meets(steps, at)) && blobs.holds(hash) && actual == hash),
{
    a_link_on_the_way_is_refused(path, steps);
}

/// A directory goes with a removed path exactly when it and everything between
/// it and the path held nothing else; the innermost goes first.
pub proof fn emptied_directories_go_innermost_first(dirs: Seq<Seq<char>>, bare: Seq<bool>)
    requires
        dirs.len() == bare.len(),
    ensures
        ({
            let gone = emptied(dirs, bare);
            let n = gone.len() as int;
            &&& n <= dirs.len()
            &&& forall|k: int| 0 <= k < n ==> #[trigger] gone[k] == dirs[dirs.len() - 1 - k]
            &&& forall|k: int| dirs.len() - n <= k < dirs.len() ==> #[trigger] bare[k]
            &&& n < dirs.len() ==> !bare[dirs.len() - 1 - n]
        }),
{
    lemma_emptied(dirs, bare);
}

proof fn lemma_emptied(dirs: Seq<Seq<char>>, bare: Seq<bool>)
    requires
        dirs.len() <= bare.len(),
    ensures
        ({
            let gone = emptied(dirs, bare);
            let n = gone.len() as int;
            &&& n <= dirs.len()
            &&& forall|k: int| 0 <= k < n ==> #[trigger] gone[k] == dirs[dirs.len() - 1 - k]
            &&& forall|k: int| dirs.len() - n <= k < dirs.len() ==> #[trigger] bare[k]
            &&& n < dirs.len() ==> !bare[dirs.len() - 1 - n]
        }),
    decreases dirs.len(),
{
    if dirs.len() > 0 && bare[dirs.len() - 1] {
        let front = dirs.drop_last();
        lemma_emptied(front, bare);
        let rest = emptied(front, bare);
        let gone = emptied(dirs, bare);
        assert forall|k: int| 0 <= k < gone.len() implies #[trigger] gone[k] == dirs[dirs.len() - 1
            - k] by {
            if k > 0 {
                assert(gone[k] == rest[k - 1]);
            }
        }
    }
}

/// The directories above a path, outermost first, are its own beginnings, each
/// ending before a slash.
pub proof fn the_directories_above_a_path_are_its_beginnings(path: Seq<char>, i: int)
    requires
        0 <= i < ancestors(path).len(),
    ensures
        ({
            let d = ancestors(path)[i];
            &&& d.len() < path.len()
            &&& path.take(d.len() as int) == d
            &&& path[d.len() as int] == '/'
            &&& ancestors(path).len() + 1 == split(path, '/').len()
        }),
{
    let parts = split(path, '/');
    split_then_join(path, '/');
    reveal_strlit("/");
    assert("/"@ =~= seq!['/']);
    lemma_join_begins(parts, i + 1);
}

proof fn lemma_join_begins(parts: Seq<Seq<char>>, n: int)
    requires
        0 < n < parts.len(),
    ensures
        ({
            let all = join(parts, seq!['/']);
            let d = join(parts.take(n), seq!['/']);
            &&& d.len() < all.len()
            &&& all.take(d.len() as int) == d
            &&& all[d.len() as int] == '/'
        }),
    decreases parts.len(),
{
    let sep = seq!['/'];
    let front = parts.drop_last();
    let all = join(parts, sep);
    let head = join(front, sep);
    assert(all == head + sep + parts.last());
    if n == front.len() {
        assert(parts.take(n) =~= front);
        assert(all.take(head.len() as int) =~= head);
    } else {
        lemma_join_begins(front, n);
        assert(parts.take(n) =~= front.take(n));
        let d = join(parts.take(n), sep);
        assert(all.take(d.len() as int) =~= head.take(d.len() as int));
    }
}

} // verus!
