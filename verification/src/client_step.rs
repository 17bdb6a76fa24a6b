//! The replica: one step of work at a time.

use vstd::prelude::*;

use crate::client::{Answer, ClientEffect, ClientEngine, Reply, Work};
use crate::client_publish::repaired_line;
use crate::client_blobs::ids_left;
use crate::client_content::needed;
use crate::client_ipc::{resolve_with, take_supplied};
use crate::client_rules::{
    advance, client_room, go, go_session, go_tick, go_tree, goes_in_session, goes_in_tick,
    goes_in_tree, popped, work_failed, ClientView, PendingRequest,
};
use crate::error::WeaveError;
use crate::model::{entry_view, Conflict, FileEntry};
use crate::proto::ClientMessage;
use crate::scan::RejectedPath;
use crate::text::views;
use crate::util::{is_random, new_uuid, Uuid};

verus! {

// ---------------------------------------------------------------------------
// One step of work
// ---------------------------------------------------------------------------

proof fn lemma_put_back(v: ClientView)
    requires
        v.todo.len() > 0,
    ensures
        popped(v).first(seq![v.todo[0]]) == v,
{
    assert(seq![v.todo[0]] + v.todo.drop_first() =~= v.todo);
}

impl ClientEngine {
    fn pop(&mut self) -> (w: Work)
        requires
            old(self).wf(),
            old(self)@.todo.len() > 0,
        ensures
            final(self).wf(),
            final(self)@ == popped(old(self)@),
            w@ == old(self)@.todo[0],
    {
        let ghost before = self.todo@;
        proof {
            assert(views(before).len() == before.len());
            assert(views(before)[0] == before[0]@);
        }
        let w = self.todo.remove(0);
        proof {
            assert(views(self.todo@) =~= views(before).drop_first());
        }
        w
    }

    fn put_back(&mut self, w: Work, Ghost(was): Ghost<ClientView>)
        requires
            old(self).wf(),
            was.todo.len() > 0,
            old(self)@ == popped(was),
            w@ == was.todo[0],
        ensures
            final(self).wf(),
            final(self)@ == was,
    {
        proof {
            lemma_put_back(was);
        }
        self.first_one(w);
    }

    /// Work on the tree and the outbox that needs nothing from outside.
    pub(crate) fn go_tree(&mut self, w: Work, now_ms: i64, fresh: Uuid) -> (left: Option<Work>)
        requires
            old(self).wf(),
            client_room(old(self)@),
            now_ms >= 0,
        ensures
            final(self).wf(),
            match left {
                None => goes_in_tree(w@) && final(self)@ == go_tree(
                    old(self)@,
                    w@,
                    now_ms,
                    fresh,
                ),
                Some(x) => !goes_in_tree(w@) && x == w && final(self)@ == old(self)@,
            },
    {
        match w {
            Work::FindMissing { seen } => {
                self.find_missing(&seen);
            },
            Work::NoteIgnored => {
                self.note_ignored();
            },
            Work::SyncTree => {
                self.sync_working_tree();
            },
            Work::Materialize { path } => {
                self.materialize_if_safe(&path);
            },
            Work::Submit { path } => {
                self.submit_path(&path, now_ms);
            },
            Work::Flush => {
                self.flush_outbox();
            },
            Work::FlushPath { path } => {
                self.flush_path(&path, now_ms, fresh);
            },
            Work::CheckBarrier => {
                self.check_barrier_ready();
            },
            Work::ReportOversize => {
                self.sync_oversize_report();
            },
            Work::ForgetReport => {
                self.forget_report();
            },
            Work::Restore { path } => {
                self.restore_canonical_for_conflict(&path);
            },
            Work::RestoreAwaited => {
                self.restore_awaited();
            },
            Work::LimitChanged => {
                self.limit_changed(now_ms);
            },
            Work::Changed { raw } => {
                self.changed(raw.as_str());
            },
            other => {
                return Some(other);
            },
        }
        None
    }

    /// Work on the session that needs nothing from outside.
    pub(crate) fn go_session(&mut self, w: Work, fresh: Uuid) -> (left: Option<Work>)
        requires
            old(self).wf(),
            client_room(old(self)@),
        ensures
            final(self).wf(),
            match left {
                None => goes_in_session(w@) && final(self)@ == go_session(old(self)@, w@, fresh),
                Some(x) => !goes_in_session(w@) && x == w && final(self)@ == old(self)@,
            },
    {
        match w {
            Work::InstallAwaited { hash } => {
                self.install_awaited_publications(hash.as_str());
            },
            Work::Publish { publication, pack } => {
                self.apply_publication(publication, pack);
            },
            Work::Rebase { path, base, canonical, pending } => {
                self.continuation_rebase(path, base, canonical, pending, None, fresh);
            },
            Work::Conflicted { path, conflict_id, in_barrier } => {
                self.conflict_placed(&path, conflict_id, in_barrier);
            },
            Work::Freeze { barrier_id } => {
                self.freeze(barrier_id);
            },
            Work::VerifyJoin => {
                self.verify_join_against_limit();
            },
            Work::Drain => {
                self.drain_pending_revisions();
            },
            Work::Applied { revision } => {
                self.store.set_last_applied_revision(revision);
            },
            Work::AfterWatched { paths } => {
                self.after_watched(&paths);
            },
            Work::AnswerRescan { call } => {
                let rejected = copy_rejected(&self.rejected);
                self.answer(call, Answer::Rescanned { rejected });
            },
            Work::Repaired { publication, stage } => {
                let line = repaired_line(&publication, stage);
                self.effect(ClientEffect::Repaired(line));
            },
            other => {
                return Some(other);
            },
        }
        None
    }

    /// What is due at a time.
    pub(crate) fn go_tick(&mut self, w: Work, now_ms: i64) -> (left: Option<Work>)
        requires
            old(self).wf(),
            client_room(old(self)@),
            now_ms >= 0,
        ensures
            final(self).wf(),
            match left {
                None => goes_in_tick(w@) && final(self)@ == go_tick(old(self)@, w@, now_ms),
                Some(x) => !goes_in_tick(w@) && x == w && final(self)@ == old(self)@,
            },
    {
        match w {
            Work::TickRescan => {
                self.tick_rescan(now_ms);
            },
            Work::TickWatched => {
                self.tick_watched();
            },
            Work::TickRetry => {
                self.tick_retry(now_ms);
            },
            Work::TickPresence => {
                self.tick_presence(now_ms);
            },
            Work::TickHeartbeat => {
                self.tick_heartbeat(now_ms);
            },
            Work::TickCollect => {
                self.tick_collect(now_ms);
            },
            other => {
                return Some(other);
            },
        }
        None
    }

    pub(crate) fn go(&mut self, w: Work, now_ms: i64, fresh: Uuid, Ghost(was): Ghost<ClientView>)
        requires
            old(self).wf(),
            was.todo.len() > 0,
            old(self)@ == popped(was),
            w@ == was.todo[0],
            client_room(was),
            now_ms >= 0,
        ensures
            final(self).wf(),
            final(self)@ == go(was, now_ms, fresh),
    {
        proof {
            reveal(go);
        }
        match self.go_tree(w, now_ms, fresh) {
            None => {},
            Some(w) => match self.go_session(w, fresh) {
                None => {},
                Some(w) => match self.go_tick(w, now_ms) {
                    None => {},
                    Some(w) => {
                        self.put_back(w, Ghost(was));
                    },
                },
            },
        }
    }

    pub(crate) fn resolve_with(
        &mut self,
        call: u64,
        c: &Conflict,
        entry: Option<FileEntry>,
        request_id: Uuid,
        operation_id: Uuid,
    )
        requires
            old(self).wf(),
            ids_left(old(self)@.traffic),
        ensures
            final(self).wf(),
            final(self)@ == resolve_with(
                old(self)@,
                call,
                c@,
                entry_view(entry),
                request_id,
                operation_id,
            ),
    {
        proof {
            reveal(resolve_with);
        }
        let state = self.store.path_state(&c.path);
        self.requests.push(PendingRequest { request_id, call });
        let needs = needed(&entry);
        self.send_with(
            request_id,
            needs,
            ClientMessage::ResolveConflict {
                request_id,
                conflict_id: c.id,
                operation_id,
                expected_canonical: state.confirmed,
                resolved_entry: entry,
            },
        );
    }

    /// The work at the head of the queue failed.
    pub(crate) fn work_failed(&mut self, w: Work, e: WeaveError, Ghost(was): Ghost<ClientView>)
        requires
            old(self).wf(),
            was.todo.len() > 0,
            old(self)@ == popped(was),
            w@ == was.todo[0],
        ensures
            final(self).wf(),
            final(self)@ == work_failed(was, e@),
    {
        proof {
            reveal(work_failed);
        }
        match w {
            Work::Read { path, why, .. } => {
                self.read_failed(&path, why, e);
            },
            Work::Merge { canonical, .. } => {
                self.merge_failed(&canonical, e);
            },
            Work::ResolveRead { call, .. } => {
                self.answer(call, Answer::Failed(e));
            },
            Work::ResolveIngest { call, .. } => {
                self.answer(call, Answer::Failed(e));
            },
            Work::Rescan => {
                self.fail(e);
            },
            Work::Write { .. } => {
                self.fail(e);
            },
            Work::InstallObjects { .. } => {
                self.fail(e);
            },
            Work::ReadRef { .. } => {
                self.fail(e);
            },
            Work::UpdateRef { .. } => {
                self.fail(e);
            },
            Work::ReadTree { .. } => {
                self.fail(e);
            },
            Work::GitGuard => {
                self.fail(e);
            },
            other => {
                self.put_back(other, Ghost(was));
            },
        }
    }

    /// The outside answered for the work at the head of the queue.
    fn work_answered(
        &mut self,
        w: Work,
        r: Reply,
        now_ms: i64,
        fresh: Uuid,
        second: Uuid,
        Ghost(was): Ghost<ClientView>,
    )
        requires
            old(self).wf(),
            was.todo.len() > 0,
            old(self)@ == popped(was),
            w@ == was.todo[0],
            client_room(was),
            now_ms >= 0,
            !(r is Go),
            !(r is Failed),
        ensures
            final(self).wf(),
            final(self)@ == advance(was, r@, now_ms, fresh, second),
    {
        match (w, r) {
            (Work::Rescan, Reply::Listed { found, oversize, rejected }) => {
                self.scanned(found, oversize, rejected);
            },
            (Work::Missing { path }, Reply::Exists(yes)) => {
                self.missing(path, yes);
            },
            (Work::Visit { path, why }, Reply::Meta(meta)) => {
                self.visited(&path, why, meta, now_ms);
            },
            (Work::Read { path, why, frozen }, Reply::Entry(entry)) => {
                self.read_done(&path, why, frozen, entry, now_ms, fresh);
            },
            (Work::Write { path, entry, purpose }, Reply::Written) => {
                self.written(&path, entry, purpose);
            },
            (Work::InstallObjects { publication, .. }, Reply::Objects { present, tree }) => {
                self.objects_installed(publication, present, tree);
            },
            (Work::ReadRef { publication }, Reply::Ref(current)) => {
                self.ref_read(publication, current);
            },
            (Work::UpdateRef { publication }, Reply::RefMoved) => {
                self.ref_updated(publication);
            },
            (Work::ReadTree { publication }, Reply::TreeRead) => {
                self.tree_read(publication);
            },
            (Work::Merge { path, base, canonical, pending }, Reply::Merged(m)) => {
                self.continuation_rebase(path, base, canonical, pending, Some(m), fresh);
            },
            (Work::GitGuard, Reply::Git(g)) => {
                self.git_guard(&g, now_ms);
            },
            (Work::ResolveRead { call, conflict }, Reply::Entry(entry)) => {
                self.keep_content(&entry);
                self.resolve_with(call, &conflict, entry, fresh, second);
            },
            (Work::ResolveIngest { call, conflict, file }, Reply::Ingested(i)) => {
                match take_supplied(&conflict, file.as_str(), &i) {
                    Ok(entry) => {
                        let entry = Some(entry);
                        self.keep_content(&entry);
                        self.resolve_with(call, &conflict, entry, fresh, second);
                    },
                    Err(e) => {
                        self.answer(call, Answer::Failed(e));
                    },
                }
            },
            (other, _) => {
                self.put_back(other, Ghost(was));
            },
        }
    }

    /// One step of work, with the identifiers for whatever it creates.
    pub fn advance_with(&mut self, r: Reply, now_ms: i64, fresh: Uuid, second: Uuid)
        requires
            old(self).wf(),
            client_room(old(self)@),
            now_ms >= 0,
        ensures
            final(self).wf(),
            final(self)@ == advance(old(self)@, r@, now_ms, fresh, second),
    {
        if self.todo.len() == 0 {
            return;
        }
        let ghost was = self@;
        let w = self.pop();
        match r {
            Reply::Go => {
                self.go(w, now_ms, fresh, Ghost(was));
            },
            Reply::Failed(e) => {
                self.work_failed(w, e, Ghost(was));
            },
            other => {
                self.work_answered(w, other, now_ms, fresh, second, Ghost(was));
            },
        }
    }

    /// One step of work. The outside performs what [`ClientEngine::head`] asks
    /// for and hands the outcome back.
    pub fn advance(&mut self, r: Reply, now_ms: i64)
        requires
            old(self).wf(),
            client_room(old(self)@),
            now_ms >= 0,
        ensures
            final(self).wf(),
            exists|fresh: Uuid, second: Uuid|
                is_random(fresh) && is_random(second) && final(self)@ == #[trigger] advance(old(self)@, r@, now_ms, fresh, second),
    {
        let fresh = new_uuid();
        let second = new_uuid();
        self.advance_with(r, now_ms, fresh, second);
    }
}

/// A copy of a list of refused paths.
pub(crate) fn copy_rejected(list: &Vec<RejectedPath>) -> (copy: Vec<RejectedPath>)
    ensures
        views(copy@) == views(list@),
{
    let copy = list.clone();
    proof {
        assert(views(copy@) =~= views(list@));
    }
    copy
}

} // verus!
