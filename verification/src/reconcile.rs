//! Three-way reconciliation of one path.
//!
//! The host runs it on every submitted operation; a client runs the same
//! function when it rebases a newer local candidate, with the in-flight
//! candidate as base, the canonical result as current and the newer local
//! candidate as incoming.
//!
//! Conflict marker output is never returned: a textual conflict discards the
//! merge output entirely, so no working tree can ever receive automatically
//! generated `<<<<<<<` markers.

use vstd::prelude::*;

use crate::util::content_hash;
use crate::error::Result;
use crate::gitx::MergeOutcome;
use crate::model::{
    entry_of, entry_ref, entry_view, kind_of, same_state, ConflictKind, EntryView, FileEntry,
    FileKind, GitMode, TEXT_MERGE_LIMIT,
};
use crate::text::same_text;

verus! {

/// Result of reconciling one path.
#[derive(Debug, PartialEq)]
pub enum Reconciled {
    /// Nothing to do: the desired state is already the canonical state. No
    /// revision is consumed.
    Converged,
    /// Canonical state advances to `entry`.
    Accept {
        entry: Option<FileEntry>,
        /// True when the entry is the product of a three-way text merge and
        /// therefore differs from both sides.
        merged: bool,
    },
    /// Reconciliation requires a human or agent decision.
    Conflict(ConflictKind),
    /// Both sides edited the same text. The answer depends on a line-level
    /// merge of the three contents, which has not been run yet.
    NeedsMerge,
}

/// A reconciliation result as plain values.
pub enum ReconciledView {
    Converged,
    Accept { entry: Option<EntryView>, merged: bool },
    Conflict(ConflictKind),
    NeedsMerge,
}

impl View for Reconciled {
    type V = ReconciledView;

    open spec fn view(&self) -> ReconciledView {
        match *self {
            Reconciled::Converged => ReconciledView::Converged,
            Reconciled::Accept { entry, merged } => ReconciledView::Accept {
                entry: entry_view(entry),
                merged,
            },
            Reconciled::Conflict(kind) => ReconciledView::Conflict(kind),
            Reconciled::NeedsMerge => ReconciledView::NeedsMerge,
        }
    }
}

/// A merge outcome as plain values.
pub enum MergeView {
    Clean(Seq<u8>),
    Conflict,
}

/// What the merge tool answered, when it has been asked.
pub open spec fn merge_view(m: Option<MergeOutcome>) -> Option<MergeView> {
    match m {
        Some(MergeOutcome::Clean(bytes)) => Some(MergeView::Clean(bytes@)),
        Some(MergeOutcome::Conflict) => Some(MergeView::Conflict),
        None => None,
    }
}

/// What reconciliation knows beside the three entries: the answer of the
/// line-level merge, when it has been run.
pub struct MergeContext {
    pub merge: Option<MergeOutcome>,
}

impl MergeContext {
    pub fn new(merge: Option<MergeOutcome>) -> (ctx: MergeContext)
        ensures
            ctx.merge == merge,
    {
        MergeContext { merge }
    }
}

// ---------------------------------------------------------------------------
// The rules
// ---------------------------------------------------------------------------

/// Text small enough to be merged line by line.
pub open spec fn is_mergeable(e: EntryView) -> bool {
    e.file_kind == FileKind::Text && e.size <= TEXT_MERGE_LIMIT
}

pub fn mergeable_text(e: &FileEntry) -> (yes: bool)
    ensures
        yes == is_mergeable(e@),
{
    e.file_kind == FileKind::Text && e.size <= TEXT_MERGE_LIMIT
}

/// The executable bit was changed on both sides, to different values.
pub open spec fn modes_clash(b: EntryView, c: EntryView, i: EntryView) -> bool {
    c.git_mode != b.git_mode && i.git_mode != b.git_mode && c.git_mode != i.git_mode
}

/// The mode that stands: the incoming one where the submitter changed it.
pub open spec fn final_mode(b: EntryView, c: EntryView, i: EntryView) -> GitMode {
    if i.git_mode != b.git_mode {
        i.git_mode
    } else {
        c.git_mode
    }
}

/// Both sides changed the content, and not to the same content.
pub open spec fn contents_clash(b: EntryView, c: EntryView, i: EntryView) -> bool {
    c.blob_hash != b.blob_hash && i.blob_hash != b.blob_hash && c.blob_hash != i.blob_hash
}

/// `e` with another mode.
pub open spec fn with_mode(e: EntryView, mode: GitMode) -> EntryView {
    EntryView { git_mode: mode, ..e }
}

/// Canonical state becomes `entry`, unless it is there already.
pub open spec fn settle(entry: EntryView, merged: bool, c: EntryView) -> ReconciledView {
    if same_state(Some(entry), Some(c)) {
        ReconciledView::Converged
    } else {
        ReconciledView::Accept { entry: Some(entry), merged }
    }
}

/// Reconciliation of a path that is present in all three states.
pub open spec fn present_rule(
    b: EntryView,
    c: EntryView,
    i: EntryView,
    merge: Option<MergeView>,
) -> ReconciledView {
    let mode = final_mode(b, c, i);
    if modes_clash(b, c, i) {
        ReconciledView::Conflict(ConflictKind::ModeConflict)
    } else if !contents_clash(b, c, i) {
        let content = if i.blob_hash != b.blob_hash && c.blob_hash == b.blob_hash {
            i
        } else {
            c
        };
        settle(with_mode(content, mode), false, c)
    } else if !(is_mergeable(b) && is_mergeable(c) && is_mergeable(i)) {
        ReconciledView::Conflict(ConflictKind::BinaryConcurrentEdit)
    } else {
        match merge {
            None => ReconciledView::NeedsMerge,
            Some(MergeView::Conflict) => ReconciledView::Conflict(ConflictKind::TextConcurrentEdit),
            Some(MergeView::Clean(bytes)) => {
                let entry = entry_of(bytes, mode);
                settle(entry, !same_state(Some(entry), Some(i)), c)
            },
        }
    }
}

/// The whole matrix.
pub open spec fn reconcile_rule(
    base: Option<EntryView>,
    current: Option<EntryView>,
    incoming: Option<EntryView>,
    merge: Option<MergeView>,
) -> ReconciledView {
    if same_state(incoming, current) {
        ReconciledView::Converged
    } else if same_state(current, base) {
        ReconciledView::Accept { entry: incoming, merged: false }
    } else if same_state(incoming, base) {
        ReconciledView::Converged
    } else {
        match (base, current, incoming) {
            (Some(b), Some(c), Some(i)) => present_rule(b, c, i, merge),
            (None, _, _) => ReconciledView::Conflict(ConflictKind::ConcurrentCreate),
            (Some(_), _, _) => ReconciledView::Conflict(ConflictKind::DeleteModify),
        }
    }
}

/// Reconcile `incoming` against `current` given their common `base`.
pub fn reconcile(
    ctx: &MergeContext,
    base: Option<&FileEntry>,
    current: Option<&FileEntry>,
    incoming: Option<&FileEntry>,
) -> (r: Result<Reconciled>)
    ensures
        r matches Ok(done) && done@ == reconcile_rule(
            entry_ref(base),
            entry_ref(current),
            entry_ref(incoming),
            merge_view(ctx.merge),
        ),
{
    // Identical desired state converges without a revision.
    if FileEntry::same_as(incoming, current) {
        return Ok(Reconciled::Converged);
    }
    // No concurrent change: accept directly (create, modify, delete, mode-only
    // change).
    if FileEntry::same_as(current, base) {
        return Ok(
            Reconciled::Accept {
                entry: match incoming {
                    Some(e) => Some(e.clone()),
                    None => None,
                },
                merged: false,
            },
        );
    }
    // The submitter's desired state equals the base it declared: it carries no
    // change of its own, so the concurrent canonical state simply stands.
    if FileEntry::same_as(incoming, base) {
        return Ok(Reconciled::Converged);
    }
    match (base, current, incoming) {
        (Some(b), Some(c), Some(i)) => reconcile_present(ctx, b, c, i),
        (None, _, _) => Ok(Reconciled::Conflict(ConflictKind::ConcurrentCreate)),
        (Some(_), _, _) => Ok(Reconciled::Conflict(ConflictKind::DeleteModify)),
    }
}

/// Reconcile a path that is present in all three states.
pub fn reconcile_present(
    ctx: &MergeContext,
    b: &FileEntry,
    c: &FileEntry,
    i: &FileEntry,
) -> (r: Result<Reconciled>)
    ensures
        r matches Ok(done) && done@ == present_rule(b@, c@, i@, merge_view(ctx.merge)),
{
    let c_mode_changed = c.git_mode != b.git_mode;
    let i_mode_changed = i.git_mode != b.git_mode;
    if c_mode_changed && i_mode_changed && c.git_mode != i.git_mode {
        return Ok(Reconciled::Conflict(ConflictKind::ModeConflict));
    }
    let mode: GitMode = if i_mode_changed {
        i.git_mode
    } else {
        c.git_mode
    };

    let c_content_changed = !same_text(c.blob_hash.as_str(), b.blob_hash.as_str());
    let i_content_changed = !same_text(i.blob_hash.as_str(), b.blob_hash.as_str());

    let mut merged: bool = false;
    let mut entry: FileEntry = if !i_content_changed {
        c.clone()
    } else if !c_content_changed {
        i.clone()
    } else if same_text(c.blob_hash.as_str(), i.blob_hash.as_str()) {
        c.clone()
    } else {
        // Binary content is never merged.
        if !(mergeable_text(b) && mergeable_text(c) && mergeable_text(i)) {
            return Ok(Reconciled::Conflict(ConflictKind::BinaryConcurrentEdit));
        }
        match &ctx.merge {
            None => {
                return Ok(Reconciled::NeedsMerge);
            },
            // The merged result may differ from both sides.
            Some(MergeOutcome::Clean(bytes)) => {
                let result = FileEntry::from_bytes(bytes.as_slice(), mode);
                merged = !FileEntry::same_as(Some(&result), Some(i));
                result
            },
            // Merge-marker output is discarded.
            Some(MergeOutcome::Conflict) => {
                return Ok(Reconciled::Conflict(ConflictKind::TextConcurrentEdit));
            },
        }
    };
    entry.git_mode = mode;
    if FileEntry::same_as(Some(&entry), Some(c)) {
        Ok(Reconciled::Converged)
    } else {
        Ok(Reconciled::Accept { entry: Some(entry), merged })
    }
}

// ---------------------------------------------------------------------------
// What the rules guarantee
// ---------------------------------------------------------------------------

/// Whether `side` changed the content of the path relative to `base`.
pub open spec fn edits_content(base: Option<EntryView>, side: Option<EntryView>) -> bool {
    match (base, side) {
        (Some(b), Some(s)) => b.blob_hash != s.blob_hash,
        (None, None) => false,
        _ => true,
    }
}

/// Whether two states hold the same content.
pub open spec fn same_content(a: Option<EntryView>, b: Option<EntryView>) -> bool {
    !edits_content(a, b)
}

/// No edit is lost without a trace: when canonical state advances without a
/// merge, the result carries the content of every side that changed it, or a
/// clean merge found the request to carry both changes; when nothing has to be
/// done, the submitter either changed nothing, or its change is canonical
/// already, or what it was merged to is.
pub proof fn no_edit_is_lost(
    base: Option<EntryView>,
    current: Option<EntryView>,
    incoming: Option<EntryView>,
    merge: Option<MergeView>,
)
    ensures
        match reconcile_rule(base, current, incoming, merge) {
            ReconciledView::Accept { entry, merged } => {
                ||| merged
                ||| {
                    &&& same_state(entry, incoming)
                    &&& merge matches Some(MergeView::Clean(bytes)) && entry == Some(
                        entry_of(bytes, entry->0.git_mode),
                    )
                }
                ||| {
                    &&& edits_content(base, current) ==> same_content(entry, current)
                    &&& edits_content(base, incoming) ==> same_content(entry, incoming)
                }
            },
            ReconciledView::Converged => {
                ||| !edits_content(base, incoming)
                ||| same_content(current, incoming)
                ||| {
                    &&& merge matches Some(MergeView::Clean(bytes))
                    &&& current is Some
                    &&& current->0.blob_hash == content_hash(merge->0->Clean_0)
                }
            },
            _ => true,
        },
{
}

/// A mode change made on one side only survives, and one made alike on both
/// sides does too.
pub proof fn a_one_sided_mode_change_survives(
    b: EntryView,
    c: EntryView,
    i: EntryView,
    merge: Option<MergeView>,
)
    ensures
        reconcile_rule(Some(b), Some(c), Some(i), merge) matches ReconciledView::Accept {
            entry,
            merged,
        } ==> entry matches Some(e) && {
            &&& i.git_mode != b.git_mode ==> e.git_mode == i.git_mode
            &&& c.git_mode != b.git_mode && i.git_mode == b.git_mode ==> e.git_mode == c.git_mode
            &&& c.git_mode == b.git_mode && i.git_mode == b.git_mode ==> e.git_mode == b.git_mode
        },
{
}

/// A merge is taken only of three small texts, and only where both sides
/// changed the content differently; binary content is never merged.
pub proof fn only_clashing_texts_are_merged(
    base: Option<EntryView>,
    current: Option<EntryView>,
    incoming: Option<EntryView>,
    merge: Option<MergeView>,
)
    ensures
        match reconcile_rule(base, current, incoming, merge) {
            ReconciledView::Accept { entry, merged } => merged ==> {
                &&& base is Some && current is Some && incoming is Some
                &&& is_mergeable(base->0) && is_mergeable(current->0) && is_mergeable(incoming->0)
                &&& contents_clash(base->0, current->0, incoming->0)
                &&& merge is Some
                &&& merge->0 is Clean
                &&& entry == Some(
                    entry_of(merge->0->Clean_0, final_mode(base->0, current->0, incoming->0)),
                )
                &&& !same_state(entry, current)
                &&& !same_state(entry, incoming)
            },
            _ => true,
        },
{
}

/// Without a concurrent change the desired state is taken as it is.
pub proof fn an_unchallenged_change_is_accepted(
    base: Option<EntryView>,
    current: Option<EntryView>,
    incoming: Option<EntryView>,
    merge: Option<MergeView>,
)
    requires
        same_state(current, base),
        !same_state(incoming, current),
    ensures
        reconcile_rule(base, current, incoming, merge) == (ReconciledView::Accept {
            entry: incoming,
            merged: false,
        }),
{
}

/// Submitting what was just accepted again converges: nothing is applied
/// twice.
pub proof fn resubmission_converges(
    base: Option<EntryView>,
    current: Option<EntryView>,
    incoming: Option<EntryView>,
    merge: Option<MergeView>,
    later: Option<MergeView>,
)
    requires
        reconcile_rule(base, current, incoming, merge) == (ReconciledView::Accept {
            entry: incoming,
            merged: false,
        }),
    ensures
        reconcile_rule(base, incoming, incoming, later) == ReconciledView::Converged,
{
}

/// Which of two concurrent changes arrives first decides nothing about
/// whether they conflict, nor about the kind of conflict.
pub proof fn conflicts_are_symmetric(
    base: Option<EntryView>,
    x: Option<EntryView>,
    y: Option<EntryView>,
    merge: Option<MergeView>,
    kind: ConflictKind,
)
    ensures
        (reconcile_rule(base, x, y, merge) == ReconciledView::Conflict(kind)) == (reconcile_rule(
            base,
            y,
            x,
            merge,
        ) == ReconciledView::Conflict(kind)),
{
}

/// Deleting on one side what the other side modified is never resolved
/// implicitly, in either direction.
pub proof fn delete_against_modify_conflicts(
    b: EntryView,
    m: EntryView,
    merge: Option<MergeView>,
)
    requires
        !same_state(Some(b), Some(m)),
    ensures
        reconcile_rule(Some(b), None, Some(m), merge) == ReconciledView::Conflict(
            ConflictKind::DeleteModify,
        ),
        reconcile_rule(Some(b), Some(m), None, merge) == ReconciledView::Conflict(
            ConflictKind::DeleteModify,
        ),
{
}

/// A merge that failed never changes the canonical content.
pub proof fn a_failed_merge_changes_nothing(
    base: Option<EntryView>,
    current: Option<EntryView>,
    incoming: Option<EntryView>,
)
    ensures
        reconcile_rule(base, current, incoming, Some(MergeView::Conflict))
            == ReconciledView::Conflict(ConflictKind::TextConcurrentEdit) <==> reconcile_rule(
            base,
            current,
            incoming,
            None,
        ) == ReconciledView::NeedsMerge,
{
}

/// Two states of a path that are not the same: one is absent, or their contents
/// or their modes differ.
pub open spec fn apart(a: Option<EntryView>, b: Option<EntryView>) -> bool {
    match (a, b) {
        (Some(x), Some(y)) => !(x.blob_hash == y.blob_hash && x.git_mode == y.git_mode),
        (None, None) => false,
        _ => true,
    }
}

/// A text of at most a mebibyte.
pub open spec fn is_small_text(e: EntryView) -> bool {
    e.file_kind == FileKind::Text && e.size <= 1024 * 1024
}

/// Three texts with three contents, in modes that two people did not change to
/// different ones.
pub open spec fn asks_for_merge(b: EntryView, c: EntryView, i: EntryView) -> bool {
    &&& is_small_text(b) && is_small_text(c) && is_small_text(i)
    &&& b.blob_hash != c.blob_hash
    &&& b.blob_hash != i.blob_hash
    &&& c.blob_hash != i.blob_hash
    &&& c.git_mode == b.git_mode || i.git_mode == b.git_mode || c.git_mode == i.git_mode
}

/// The mode of a result: what one side changed it to, or what all had.
pub open spec fn keeps_mode_change(e: EntryView, b: EntryView, c: EntryView, i: EntryView) -> bool {
    &&& i.git_mode != b.git_mode ==> e.git_mode == i.git_mode
    &&& i.git_mode == b.git_mode ==> e.git_mode == c.git_mode
}

/// A clean merge stands: canonical state becomes exactly the merged bytes, in
/// the mode that one side gave them. Nothing is done only where canonical
/// content and mode are those already.
pub proof fn a_clean_merge_stands(b: EntryView, c: EntryView, i: EntryView, bytes: Seq<u8>)
    requires
        asks_for_merge(b, c, i),
    ensures
        match reconcile_rule(Some(b), Some(c), Some(i), Some(MergeView::Clean(bytes))) {
            ReconciledView::Accept { entry, merged } => {
                &&& entry is Some
                &&& entry->0.blob_hash == content_hash(bytes)
                &&& entry->0.size == bytes.len() as u64
                &&& entry->0.file_kind == kind_of(bytes)
                &&& keeps_mode_change(entry->0, b, c, i)
                &&& apart(entry, Some(c))
                &&& merged == apart(entry, Some(i))
            },
            ReconciledView::Converged => {
                &&& c.blob_hash == content_hash(bytes)
                &&& keeps_mode_change(c, b, c, i)
            },
            _ => false,
        },
{
}

/// A merge is asked for where both sides changed a small text to different
/// contents, and nowhere else.
pub proof fn a_merge_is_asked_for_where_texts_clash(
    base: Option<EntryView>,
    current: Option<EntryView>,
    incoming: Option<EntryView>,
)
    ensures
        (reconcile_rule(base, current, incoming, None) == ReconciledView::NeedsMerge) == (base
            is Some && current is Some && incoming is Some && asks_for_merge(
            base->0,
            current->0,
            incoming->0,
        )),
        forall|m: MergeView|
            !(#[trigger] reconcile_rule(base, current, incoming, Some(m)) is NeedsMerge),
{
}

/// Every conflict has its cause, and every cause its conflict: both sides
/// changed the path and do not agree, and either it was new to both, or one
/// deleted it, or the modes went apart, or the contents did and cannot be
/// merged.
pub proof fn every_conflict_has_its_cause(
    base: Option<EntryView>,
    current: Option<EntryView>,
    incoming: Option<EntryView>,
    merge: Option<MergeView>,
)
    ensures
        ({
            let r = reconcile_rule(base, current, incoming, merge);
            let both = apart(current, base) && apart(incoming, base) && apart(incoming, current);
            let all = base is Some && current is Some && incoming is Some;
            let (b, c, i) = (base->0, current->0, incoming->0);
            let modes = c.git_mode != b.git_mode && i.git_mode != b.git_mode && c.git_mode
                != i.git_mode;
            let contents = c.blob_hash != b.blob_hash && i.blob_hash != b.blob_hash && c.blob_hash
                != i.blob_hash;
            let texts = is_small_text(b) && is_small_text(c) && is_small_text(i);
            &&& (r == ReconciledView::Conflict(ConflictKind::ConcurrentCreate)) == (both && base
                is None)
            &&& (r == ReconciledView::Conflict(ConflictKind::DeleteModify)) == (both && base is Some
                && !all)
            &&& (r == ReconciledView::Conflict(ConflictKind::ModeConflict)) == (both && all && modes)
            &&& (r == ReconciledView::Conflict(ConflictKind::BinaryConcurrentEdit)) == (both && all
                && !modes && contents && !texts)
            &&& (r == ReconciledView::Conflict(ConflictKind::TextConcurrentEdit)) == (both && all
                && !modes && contents && texts && merge == Some(MergeView::Conflict))
        }),
{
}

/// Changes that do not touch the same thing are combined: the content of the
/// side that changed it, in the mode of the side that changed that.
pub proof fn separate_changes_are_combined(
    b: EntryView,
    c: EntryView,
    i: EntryView,
    merge: Option<MergeView>,
)
    requires
        apart(Some(i), Some(c)),
        b.blob_hash == c.blob_hash || b.blob_hash == i.blob_hash || c.blob_hash == i.blob_hash,
        c.git_mode == b.git_mode || i.git_mode == b.git_mode || c.git_mode == i.git_mode,
    ensures
        match reconcile_rule(Some(b), Some(c), Some(i), merge) {
            ReconciledView::Accept { entry, merged } => {
                &&& !merged
                &&& entry is Some
                &&& i.blob_hash != b.blob_hash ==> entry->0.blob_hash == i.blob_hash
                &&& i.blob_hash == b.blob_hash ==> entry->0.blob_hash == c.blob_hash
                &&& keeps_mode_change(entry->0, b, c, i)
                &&& apart(entry, Some(c))
                &&& entry->0.size == i.size && entry->0.file_kind == i.file_kind || entry->0.size
                    == c.size && entry->0.file_kind == c.file_kind
            },
            // Canonical state is the combination already.
            ReconciledView::Converged => {
                &&& i.blob_hash != b.blob_hash ==> c.blob_hash == i.blob_hash
                &&& i.git_mode != b.git_mode ==> c.git_mode == i.git_mode
            },
            _ => false,
        },
{
}

/// Nothing is done exactly where there is nothing to do: the request carries no
/// change, or canonical state has it already.
pub proof fn nothing_is_done_only_where_nothing_is_left(
    base: Option<EntryView>,
    current: Option<EntryView>,
    incoming: Option<EntryView>,
)
    ensures
        !apart(incoming, current) || !apart(incoming, base) && apart(current, base) ==> forall|
            m: Option<MergeView>,
        |
            #[trigger] reconcile_rule(base, current, incoming, m) == ReconciledView::Converged,
        apart(incoming, current) && !apart(current, base) ==> forall|m: Option<MergeView>|
            #[trigger] reconcile_rule(base, current, incoming, m) == (ReconciledView::Accept {
                entry: incoming,
                merged: false,
            }),
{
}

} // verus!
