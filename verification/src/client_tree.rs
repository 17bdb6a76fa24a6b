//! The replica: capture before overwrite, materialization and rescans.

use vstd::prelude::*;

use crate::client::{frozen_view, Answer, ClientEffect, ClientEngine, FrozenBase, Work};
use crate::client_content::{works_of_materialize, works_of_restore, works_of_visit};
use crate::client_rules::{
    answer_all, candidate, capture, changed, changed_works, client_room, fail, finish_visit,
    frozen_base, full_rescan, materialize_if_safe, missing, missing_works, never_shown,
    note_ignored, read_done, read_failed, record_all, repairing, report_paths, rescan_calls,
    restore, restore_awaited, scanned, seeded, settle, settled, sighted, sync_working_tree,
    visit_works, visited, watch_batch, with_content, write_candidate, write_canonical,
    write_restored, written, ClientView, Observation, Purpose, Why, WorkView, STABILITY_THRESHOLD,
    STABILITY_WINDOW_MS,
};
use crate::error::{ErrorClass, WeaveError};
use crate::model::{copy_entry, entry_view, FileEntry};
use crate::path::RepoPath;
use crate::proto::{OversizeReport, ReportView};
use crate::publish::has_path;
use crate::scan::{FileMeta, Found, FoundView, MetaKind, RejectedPath};
use crate::store_client::{locate, paths_of, put, InFlight, PathState, PendingLocal};
use crate::text::{
    decimal_text, join_text, lemma_texts_push, lemma_views_push, listed, texts, views,
};
use crate::util::Uuid;

verus! {

// ---------------------------------------------------------------------------
// Capture and materialization
// ---------------------------------------------------------------------------

/// The newest local work on a path.
fn newest(state: &PathState) -> (e: Option<FileEntry>)
    ensures
        entry_view(e) == candidate(state@),
{
    match &state.pending_local {
        Some(p) => copy_entry(&p.desired),
        None => match &state.in_flight {
            Some(f) => copy_entry(&f.desired),
            None => copy_entry(&state.materialized),
        },
    }
}

/// Whether the working file never showed the newest local work.
fn is_hidden(state: &PathState) -> (yes: bool)
    ensures
        yes == never_shown(state@),
{
    if state.in_flight.is_none() || state.conflict_draft.is_some() {
        return false;
    }
    let e = newest(state);
    !FileEntry::same_as(e.as_ref(), state.materialized.as_ref())
}

impl ClientEngine {
    pub(crate) fn settled(&mut self, path: &RepoPath)
        requires
            old(self).wf(),
        ensures
            final(self).wf(),
            final(self)@ == settled(old(self)@, path@),
    {
        let at = locate(&self.unstable, path);
        if at < self.unstable.len() {
            let ghost before = self.unstable@;
            let _ = self.unstable.remove(at);
            proof {
                assert(views(self.unstable@) =~= views(before).remove(at as int));
            }
        }
    }

    pub(crate) fn sighted(
        &mut self,
        path: &RepoPath,
        size: u64,
        mtime_ms: i64,
        at_ms: i64,
        base_revision: u64,
        base_entry: Option<FileEntry>,
    )
        requires
            old(self).wf(),
        ensures
            final(self).wf(),
            final(self)@ == sighted(
                old(self)@,
                path@,
                size,
                mtime_ms,
                at_ms,
                base_revision,
                entry_view(base_entry),
            ),
    {
        put(
            &mut self.unstable,
            Observation {
                path: path.clone(),
                size,
                mtime_ms,
                at_ms,
                base_revision,
                base_entry,
            },
        );
    }

    /// Whether a path is in a state worth capturing.
    pub fn has_settled(&mut self, path: &RepoPath, meta: &Option<FileMeta>, now_ms: i64) -> (still:
        bool)
        requires
            old(self).wf(),
            now_ms >= 0,
        ensures
            final(self).wf(),
            (final(self)@, still) == settle(old(self)@, path@, *meta, now_ms),
    {
        proof {
            reveal(settle);
        }
        let m = match meta {
            None => {
                self.settled(path);
                return true;
            },
            Some(m) => *m,
        };
        if m.kind != MetaKind::File || m.size < STABILITY_THRESHOLD {
            self.settled(path);
            return true;
        }
        let mtime_ms: i64 = match m.mtime_ms {
            None => {
                // Nothing to compare: better captured than waited for forever.
                self.settled(path);
                return true;
            },
            Some(t) => t,
        };
        if mtime_ms <= now_ms - STABILITY_WINDOW_MS {
            self.settled(path);
            return true;
        }
        let at = locate(&self.unstable, path);
        if at < self.unstable.len() {
            let o = &self.unstable[at];
            if o.size == m.size && o.mtime_ms == mtime_ms {
                // The window is measured from the first sighting.
                if o.at_ms <= now_ms - STABILITY_WINDOW_MS {
                    self.settled(path);
                    return true;
                }
                return false;
            }
            let base_revision = o.base_revision;
            let base_entry = copy_entry(&o.base_entry);
            self.sighted(path, m.size, mtime_ms, now_ms, base_revision, base_entry);
            return false;
        }
        let state = self.store.path_state(path);
        self.sighted(path, m.size, mtime_ms, now_ms, state.confirmed_revision, state.confirmed);
        false
    }

    pub(crate) fn frozen_base(&self, path: &RepoPath) -> (f: Option<FrozenBase>)
        ensures
            frozen_view(f) == frozen_base(self@, path@),
    {
        let at = locate(&self.unstable, path);
        if at < self.unstable.len() {
            Some(
                FrozenBase {
                    revision: self.unstable[at].base_revision,
                    entry: copy_entry(&self.unstable[at].base_entry),
                },
            )
        } else {
            None
        }
    }

    /// Durably capture what is on disk, if it differs from what Weave last saw
    /// or wrote there.
    pub fn capture_path(
        &mut self,
        path: &RepoPath,
        entry: Option<FileEntry>,
        frozen: Option<FrozenBase>,
        now_ms: i64,
        fresh: Uuid,
    ) -> (captured: bool)
        requires
            old(self).wf(),
            client_room(old(self)@),
        ensures
            final(self).wf(),
            (final(self)@, captured) == capture(
                old(self)@,
                path@,
                entry_view(entry),
                frozen_view(frozen),
                now_ms,
                fresh,
            ),
    {
        proof {
            reveal(capture);
        }
        let mut state = self.store.path_state(path);
        if FileEntry::same_as(entry.as_ref(), state.materialized.as_ref()) {
            return false;
        }
        let task_id = self.my_task_id();
        let seq: u64 = self.store.next_local_seq();
        match state.conflict_draft.take() {
            Some(d) => {
                // Captured durably, never submitted by itself.
                let mut d = d;
                d.entry = copy_entry(&entry);
                d.local_seq = seq;
                state.conflict_draft = Some(d);
                state.materialized = entry;
                self.put_state(path, state);
                return true;
            },
            None => {},
        }
        if state.in_flight.is_some() {
            // One operation in flight per path; newer work coalesces behind it.
            state.pending_local = Some(
                PendingLocal { desired: copy_entry(&entry), local_seq: seq, task_id },
            );
            state.materialized = entry;
            self.put_state(path, state);
            self.check_barrier_ready();
            return true;
        }
        let (base_revision, base_entry) = match frozen {
            Some(f) => (f.revision, f.entry),
            None => (state.confirmed_revision, copy_entry(&state.confirmed)),
        };
        state.in_flight = Some(
            InFlight {
                operation_id: fresh,
                base_revision,
                base_entry,
                desired: copy_entry(&entry),
                local_seq: seq,
                task_id,
                sent: false,
                sent_at_ms: 0,
            },
        );
        state.materialized = entry;
        self.put_state(path, state);
        self.submit_path(path, now_ms);
        true
    }

    pub(crate) fn finish_visit(&mut self, path: &RepoPath, why: Why, captured: bool)
        requires
            old(self).wf(),
        ensures
            final(self).wf(),
            final(self)@ == finish_visit(old(self)@, path@, why, captured),
    {
        proof {
            reveal(finish_visit);
        }
        if captured {
            return;
        }
        // Nothing was recorded from a file that still changes: overwriting it
        // would discard whatever is being written into it.
        if locate(&self.unstable, path) < self.unstable.len() {
            return;
        }
        // Nor from a file above the limit: only this machine holds its bytes.
        if self.store.is_oversize(path) {
            return;
        }
        match why {
            Why::Changed | Why::Watched => {},
            Why::Materialize => {
                self.write_canonical(path);
            },
            Why::Rebase => {
                self.write_candidate(path);
            },
            Why::Restore => {
                self.write_restored(path);
            },
        }
    }

    /// What the filesystem says of a path that is being looked at.
    pub(crate) fn visited(&mut self, path: &RepoPath, why: Why, meta: Option<FileMeta>, now_ms: i64)
        requires
            old(self).wf(),
            now_ms >= 0,
        ensures
            final(self).wf(),
            final(self)@ == visited(old(self)@, path@, why, meta, now_ms),
    {
        proof {
            reveal(visited);
        }
        let frozen = self.frozen_base(path);
        if !self.has_settled(path, &meta, now_ms) {
            self.finish_visit(path, why, false);
            return;
        }
        if self.check_oversize(path, &meta) {
            self.finish_visit(path, why, false);
            return;
        }
        self.first_one(Work::Read { path: path.clone(), why, frozen });
    }

    pub(crate) fn keep_content(&mut self, entry: &Option<FileEntry>)
        requires
            old(self).wf(),
        ensures
            final(self).wf(),
            final(self)@ == with_content(old(self)@, entry_view(*entry)),
    {
        match entry {
            Some(e) => {
                self.traffic.stored(e.blob_hash.as_str(), e.size);
            },
            None => {},
        }
    }

    pub(crate) fn read_done(
        &mut self,
        path: &RepoPath,
        why: Why,
        frozen: Option<FrozenBase>,
        entry: Option<FileEntry>,
        now_ms: i64,
        fresh: Uuid,
    )
        requires
            old(self).wf(),
            client_room(old(self)@),
        ensures
            final(self).wf(),
            final(self)@ == read_done(
                old(self)@,
                path@,
                why,
                frozen_view(frozen),
                entry_view(entry),
                now_ms,
                fresh,
            ),
    {
        proof {
            reveal(read_done);
        }
        let state = self.store.path_state(path);
        self.keep_content(&entry);
        let captured = self.capture_path(path, entry, frozen, now_ms, fresh);
        if captured && is_hidden(&state) {
            let now = self.store.path_state(path);
            match now.pending_local {
                Some(pending) => {
                    let canonical = newest(&state);
                    self.first_one(
                        Work::Rebase {
                            path: path.clone(),
                            base: state.materialized,
                            canonical,
                            pending,
                        },
                    );
                },
                None => {},
            }
            return;
        }
        self.finish_visit(path, why, captured);
    }

    pub(crate) fn read_failed(&mut self, path: &RepoPath, why: Why, e: WeaveError)
        requires
            old(self).wf(),
        ensures
            final(self).wf(),
            final(self)@ == read_failed(old(self)@, path@, why, e@),
    {
        proof {
            reveal(read_failed);
        }
        match why {
            Why::Changed => {
                self.note_rejected(path.as_str(), e.message.as_str());
            },
            Why::Watched => {
                self.settled(path);
                self.note_rejected(path.as_str(), e.message.as_str());
            },
            Why::Materialize | Why::Rebase | Why::Restore => {
                self.fail(e);
            },
        }
    }

    /// Bring the working tree to canonical state for one path, but only when
    /// doing so cannot lose local bytes.
    pub fn materialize_if_safe(&mut self, path: &RepoPath)
        requires
            old(self).wf(),
        ensures
            final(self).wf(),
            final(self)@ == materialize_if_safe(old(self)@, path@),
    {
        proof {
            reveal(materialize_if_safe);
        }
        let state = self.store.path_state(path);
        if state.has_local_work() {
            return;
        }
        if FileEntry::same_as(state.confirmed.as_ref(), state.materialized.as_ref()) {
            return;
        }
        self.first_one(Work::Visit { path: path.clone(), why: Why::Materialize });
    }

    pub(crate) fn write_canonical(&mut self, path: &RepoPath)
        requires
            old(self).wf(),
        ensures
            final(self).wf(),
            final(self)@ == write_canonical(old(self)@, path@),
    {
        proof {
            reveal(write_canonical);
        }
        let state = self.store.path_state(path);
        match state.confirmed {
            Some(e) => {
                if !self.traffic.holds(e.blob_hash.as_str()) {
                    self.want_blob(e.blob_hash.as_str());
                    return;
                }
                self.first_one(
                    Work::Write { path: path.clone(), entry: Some(e), purpose: Purpose::Replace },
                );
            },
            None => {
                self.first_one(
                    Work::Write { path: path.clone(), entry: None, purpose: Purpose::Replace },
                );
            },
        }
    }

    /// A path was written.
    pub(crate) fn written(&mut self, path: &RepoPath, entry: Option<FileEntry>, purpose: Purpose)
        requires
            old(self).wf(),
        ensures
            final(self).wf(),
            final(self)@ == written(old(self)@, path@, entry_view(entry), purpose),
    {
        proof {
            reveal(written);
        }
        let mut state = self.store.path_state(path);
        if purpose == Purpose::Restore {
            // The draft now starts from canonical content on disk.
            match state.conflict_draft.take() {
                Some(d) => {
                    let mut d = d;
                    d.entry = copy_entry(&entry);
                    state.conflict_draft = Some(d);
                },
                None => {},
            }
        }
        state.materialized = entry;
        self.put_state(path, state);
    }

    pub(crate) fn sync_working_tree(&mut self)
        requires
            old(self).wf(),
        ensures
            final(self).wf(),
            final(self)@ == sync_working_tree(old(self)@),
    {
        proof {
            reveal(sync_working_tree);
        }
        self.materialization_blocked = false;
        let paths = self.store.all_paths();
        let works = works_of_materialize(&paths);
        self.first(works);
    }

    /// Restore canonical content over a draft, once the local candidate is
    /// durably stored and the file was looked at.
    pub(crate) fn restore_canonical_for_conflict(&mut self, path: &RepoPath)
        requires
            old(self).wf(),
        ensures
            final(self).wf(),
            final(self)@ == restore(old(self)@, path@),
    {
        proof {
            reveal(restore);
        }
        self.first_one(Work::Visit { path: path.clone(), why: Why::Restore });
    }

    /// Show local work that was rebased.
    pub(crate) fn write_candidate(&mut self, path: &RepoPath)
        requires
            old(self).wf(),
        ensures
            final(self).wf(),
            final(self)@ == write_candidate(old(self)@, path@),
    {
        proof {
            reveal(write_candidate);
        }
        let state = self.store.path_state(path);
        if is_hidden(&state) {
            let entry = newest(&state);
            self.first_one(Work::Write { path: path.clone(), entry, purpose: Purpose::Replace });
        }
    }

    pub(crate) fn write_restored(&mut self, path: &RepoPath)
        requires
            old(self).wf(),
        ensures
            final(self).wf(),
            final(self)@ == write_restored(old(self)@, path@),
    {
        proof {
            reveal(write_restored);
        }
        let state = self.store.path_state(path);
        match state.confirmed {
            Some(e) => {
                if !self.traffic.holds(e.blob_hash.as_str()) {
                    if !has_path(&self.awaiting_restore, path) {
                        let ghost before = self.awaiting_restore@;
                        let p = path.clone();
                        self.awaiting_restore.push(p);
                        proof {
                            lemma_views_push(before, p);
                        }
                    }
                    self.want_blob(e.blob_hash.as_str());
                    return;
                }
                self.first_one(
                    Work::Write { path: path.clone(), entry: Some(e), purpose: Purpose::Restore },
                );
            },
            None => {
                self.first_one(
                    Work::Write { path: path.clone(), entry: None, purpose: Purpose::Restore },
                );
            },
        }
    }

    pub(crate) fn restore_awaited(&mut self)
        requires
            old(self).wf(),
        ensures
            final(self).wf(),
            final(self)@ == restore_awaited(old(self)@),
    {
        proof {
            reveal(restore_awaited);
        }
        let mut paths: Vec<RepoPath> = Vec::new();
        std::mem::swap(&mut paths, &mut self.awaiting_restore);
        proof {
            assert(views(self.awaiting_restore@) =~= Seq::<Seq<char>>::empty());
        }
        let works = works_of_restore(&paths);
        self.first(works);
    }

    // --------------------------------------------------------------- rescans

    /// Authoritative full rescan.
    pub fn full_rescan(&mut self, now_ms: i64)
        requires
            old(self).wf(),
        ensures
            final(self).wf(),
            final(self)@ == full_rescan(old(self)@, now_ms),
    {
        proof {
            reveal(full_rescan);
        }
        self.timers.rescan_ms = now_ms;
        if !self.paused() {
            self.first_one(Work::Rescan);
        }
    }

    pub(crate) fn record_all(&mut self, list: &Vec<OversizeReport>)
        requires
            old(self).wf(),
        ensures
            final(self).wf(),
            final(self)@ == record_all(old(self)@, views(list@)),
    {
        proof {
            reveal(record_all);
        }
        let ghost all = views(list@);
        let mut i: usize = 0;
        proof {
            assert(all.take(0) =~= Seq::<ReportView>::empty());
        }
        while i < list.len()
            invariant
                self.wf(),
                all == views(list@),
                i <= list@.len(),
                self@ == record_all(old(self)@, all.take(i as int)),
            decreases list@.len() - i,
        {
            proof {
                assert(all.take(i + 1).drop_last() =~= all.take(i as int));
                assert(all.take(i + 1).last() == list@[i as int]@);
                reveal(record_all);
            }
            self.record_oversize(&list[i].path, list[i].size);
            i = i + 1;
        }
        proof {
            assert(all.take(i as int) =~= all);
        }
    }

    /// The repository was listed.
    pub(crate) fn scanned(
        &mut self,
        found: Vec<RepoPath>,
        oversize: Vec<OversizeReport>,
        rejected: Vec<RejectedPath>,
    )
        requires
            old(self).wf(),
        ensures
            final(self).wf(),
            final(self)@ == scanned(
                old(self)@,
                views(found@),
                views(oversize@),
                views(rejected@),
            ),
    {
        proof {
            reveal(scanned);
        }
        self.rejected = rejected;
        self.record_all(&oversize);
        let mut works = works_of_visit(&found, Why::Changed);
        let ghost start = works@;
        let mut seen = found;
        let ghost names = views(seen@);
        let mut i: usize = 0;
        proof {
            assert(views(seen@) =~= names + report_paths(views(oversize@)).take(0));
        }
        while i < oversize.len()
            invariant
                i <= oversize@.len(),
                views(seen@) == names + report_paths(views(oversize@)).take(i as int),
            decreases oversize@.len() - i,
        {
            let ghost before = seen@;
            let p = oversize[i].path.clone();
            seen.push(p);
            proof {
                lemma_views_push(before, p);
                let all = report_paths(views(oversize@));
                assert(all[i as int] == p@);
                assert(names + all.take(i + 1) =~= (names + all.take(i as int)).push(p@));
            }
            i = i + 1;
        }
        proof {
            let all = report_paths(views(oversize@));
            assert(all.take(i as int) =~= all);
        }
        let ghost known = views(seen@);
        works.push(Work::FindMissing { seen });
        works.push(Work::NoteIgnored);
        works.push(Work::SyncTree);
        proof {
            assert(views(start) == visit_works(names));
            assert(views(works@) =~= views(start) + seq![
                WorkView::FindMissing { seen: known },
                WorkView::NoteIgnored,
                WorkView::SyncTree,
            ]);
        }
        self.first(works);
    }

    pub(crate) fn find_missing(&mut self, seen: &Vec<RepoPath>)
        requires
            old(self).wf(),
        ensures
            final(self).wf(),
            final(self)@ == old(self)@.first(
                missing_works(
                    old(self)@.replica,
                    paths_of(old(self)@.replica.states),
                    views(seen@),
                ),
            ),
    {
        let paths = self.store.all_paths();
        let ghost all = views(paths@);
        let ghost r = self@.replica;
        let mut works: Vec<Work> = Vec::new();
        let mut i: usize = 0;
        proof {
            assert(views(works@) =~= missing_works(r, all.take(0), views(seen@)));
        }
        while i < paths.len()
            invariant
                *self == *old(self),
                self.wf(),
                r == self@.replica,
                all == views(paths@),
                i <= paths@.len(),
                views(works@) == missing_works(r, all.take(i as int), views(seen@)),
            decreases paths@.len() - i,
        {
            let ghost before = works@;
            proof {
                assert(all.take(i + 1).drop_last() =~= all.take(i as int));
                assert(all.take(i + 1).last() == paths@[i as int]@);
            }
            if !has_path(seen, &paths[i]) {
                let state = self.store.path_state(&paths[i]);
                if state.materialized.is_some() || state.confirmed.is_some() {
                    let w = Work::Missing { path: paths[i].clone() };
                    works.push(w);
                    proof {
                        lemma_views_push(before, w);
                    }
                }
            }
            i = i + 1;
        }
        proof {
            assert(all.take(i as int) =~= all);
        }
        self.first(works);
    }

    pub(crate) fn missing(&mut self, path: RepoPath, exists_on_disk: bool)
        requires
            old(self).wf(),
        ensures
            final(self).wf(),
            final(self)@ == missing(old(self)@, path@, exists_on_disk),
    {
        proof {
            reveal(missing);
        }
        if exists_on_disk {
            let ghost before = self.ignored@;
            let name = path.into_string();
            self.ignored.push(name);
            proof {
                lemma_texts_push(before, name);
            }
        } else {
            self.first_one(Work::Visit { path, why: Why::Changed });
        }
    }

    pub(crate) fn note_ignored(&mut self)
        requires
            old(self).wf(),
        ensures
            final(self).wf(),
            final(self)@ == note_ignored(old(self)@),
    {
        proof {
            reveal(note_ignored);
        }
        proof {
            assert(texts(self.ignored@).len() == self.ignored@.len());
        }
        if self.ignored.len() > 0 {
            let mut list: Vec<String> = Vec::new();
            std::mem::swap(&mut list, &mut self.ignored);
            proof {
                assert(texts(self.ignored@) =~= Seq::<Seq<char>>::empty());
            }
            let mut text = decimal_text(list.len() as u64);
            text.push_str(" path(s) are now Git-ignored and no longer synchronized: ");
            text.push_str(join_text(&list, ", ").as_str());
            self.note(text);
        }
    }

    /// Paths the watcher named, and those among them that Git ignores.
    pub fn on_watch_batch(&mut self, raw: Vec<String>, ignored: Vec<String>)
        requires
            old(self).wf(),
        ensures
            final(self).wf(),
            final(self)@ == watch_batch(old(self)@, texts(raw@), texts(ignored@)),
    {
        proof {
            reveal(watch_batch);
        }
        if self.paused() {
            return;
        }
        let ghost all = texts(raw@);
        let mut works: Vec<Work> = Vec::new();
        let mut i: usize = 0;
        proof {
            assert(views(works@) =~= changed_works(all.take(0), texts(ignored@)));
        }
        while i < raw.len()
            invariant
                all == texts(raw@),
                i <= raw@.len(),
                views(works@) == changed_works(all.take(i as int), texts(ignored@)),
            decreases raw@.len() - i,
        {
            let ghost before = works@;
            proof {
                assert(all.take(i + 1).drop_last() =~= all.take(i as int));
                assert(all.take(i + 1).last() == raw@[i as int]@);
            }
            if !listed(&ignored, raw[i].as_str()) {
                let w = Work::Changed { raw: raw[i].clone() };
                works.push(w);
                proof {
                    lemma_views_push(before, w);
                }
            }
            i = i + 1;
        }
        proof {
            assert(all.take(i as int) =~= all);
        }
        self.first(works);
    }

    pub(crate) fn changed(&mut self, raw: &str)
        requires
            old(self).wf(),
        ensures
            final(self).wf(),
            final(self)@ == changed(old(self)@, raw@),
    {
        proof {
            reveal(changed);
        }
        match RepoPath::new(raw) {
            Ok(path) => {
                self.first_one(Work::Visit { path, why: Why::Changed });
            },
            Err(e) => {
                self.note_rejected(raw, e.message.as_str());
            },
        }
    }

    /// Record the working tree as seen, without treating it as local work.
    pub fn seed_materialized_from_disk(&mut self, found: Vec<Found>, rejected: Vec<RejectedPath>)
        requires
            old(self).wf(),
        ensures
            final(self).wf(),
            final(self)@ == seeded(
                ClientView { rejected: views(rejected@), ..old(self)@ },
                views(found@),
            ),
    {
        proof {
            reveal(seeded);
        }
        self.rejected = rejected;
        let ghost start = self@;
        let ghost all = views(found@);
        let mut i: usize = 0;
        proof {
            assert(all.take(0) =~= Seq::<FoundView>::empty());
        }
        while i < found.len()
            invariant
                self.wf(),
                all == views(found@),
                i <= found@.len(),
                self@ == seeded(start, all.take(i as int)),
            decreases found@.len() - i,
        {
            proof {
                assert(all.take(i + 1).drop_last() =~= all.take(i as int));
                assert(all.take(i + 1).last() == found@[i as int]@);
                reveal(seeded);
            }
            let f = &found[i];
            self.traffic.stored(f.entry.blob_hash.as_str(), f.entry.size);
            let mut state = self.store.path_state(&f.path);
            if !state.materialized.is_some() && !state.has_local_work() {
                state.materialized = Some(f.entry.clone());
                self.put_state(&f.path, state);
            }
            i = i + 1;
        }
        proof {
            assert(all.take(i as int) =~= all);
        }
    }

    // -------------------------------------------------------------- failures

    pub(crate) fn fail(&mut self, e: WeaveError)
        requires
            old(self).wf(),
        ensures
            final(self).wf(),
            final(self)@ == fail(old(self)@, e@),
    {
        proof {
            reveal(fail);
        }
        let ghost all = views(self.todo@);
        let mut calls: Vec<u64> = Vec::new();
        let mut i: usize = 0;
        proof {
            assert(calls@ =~= rescan_calls(all.take(0)));
        }
        let mut repairs: bool = false;
        while i < self.todo.len()
            invariant
                *self == *old(self),
                self.wf(),
                all == views(self.todo@),
                i <= self.todo@.len(),
                calls@ == rescan_calls(all.take(i as int)),
                repairs == repairing(all.take(i as int)),
            decreases self.todo@.len() - i,
        {
            proof {
                assert(all.take(i + 1).drop_last() =~= all.take(i as int));
                assert(all.take(i + 1).last() == self.todo@[i as int]@);
                if repairing(all.take(i as int)) {
                    let before = all.take(i as int);
                    let k = choose|k: int|
                        0 <= k < before.len() && (#[trigger] before[k]) is Repaired;
                    assert(all.take(i + 1)[k] is Repaired);
                }
                if all.take(i + 1)[i as int] is Repaired {
                    assert(repairing(all.take(i + 1)));
                }
                if repairing(all.take(i + 1)) && !(all.take(i + 1)[i as int] is Repaired) {
                    let before = all.take(i + 1);
                    let k = choose|k: int|
                        0 <= k < before.len() && (#[trigger] before[k]) is Repaired;
                    assert(all.take(i as int)[k] is Repaired);
                }
            }
            match &self.todo[i] {
                Work::AnswerRescan { call } => {
                    calls.push(*call);
                },
                Work::Repaired { .. } => {
                    repairs = true;
                },
                _ => {},
            }
            i = i + 1;
        }
        proof {
            assert(all.take(i as int) =~= all);
        }
        self.todo = Vec::new();
        proof {
            assert(views(self.todo@) =~= Seq::<WorkView>::empty());
        }
        if repairs {
            self.effect(ClientEffect::Exit(e));
            self.shutdown = true;
            return;
        }
        if calls.len() > 0 {
            let ghost start = self@;
            let mut k: usize = 0;
            proof {
                assert(calls@.take(0) =~= Seq::<u64>::empty());
            }
            while k < calls.len()
                invariant
                    self.wf(),
                    k <= calls@.len(),
                    self@ == answer_all(start, calls@.take(k as int), e@),
                decreases calls@.len() - k,
            {
                proof {
                    assert(calls@.take(k + 1).drop_last() =~= calls@.take(k as int));
                    assert(calls@.take(k + 1).last() == calls@[k as int]);
                }
                let copy = e.clone();
                self.answer(calls[k], Answer::Failed(copy));
                k = k + 1;
            }
            proof {
                assert(calls@.take(k as int) =~= calls@);
            }
        } else if e.class == ErrorClass::PersistenceError || e.class
            == ErrorClass::IntegrityError {
            self.degrade(e.message.as_str());
        }
    }
}

} // verus!
