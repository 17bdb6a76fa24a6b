//! The replica: content in transit, the size limit, barriers and the outbox.

use vstd::prelude::*;

use crate::client::{ClientEffect, ClientEngine, Work};
use crate::client_blobs::{ids_left, job_views, out_views, pair_views, Emitted, JobView, PumpJob};
use crate::client_rules::{
    blockers, check_barrier, check_oversize, emit, flush_outbox, flush_path, flush_works,
    forget_oversize, freeze, installs, join_error, join_lines, materialize_works, my_conflicts,
    needs_of, note_refused, oversize_detail, oversize_lines, promote_pending, record_oversize,
    restore_works, send_all, send_with, stream_all, submit_path, sync_oversize_report, verify_join,
    want_blobs, BarrierLocal, Why, WorkView, RESEND_AFTER_MS,
};
use crate::error::{unsupported, WeaveError};
use crate::model::{copy_entry, entry_view, ConflictStatus, FileEntry, FileOperation};
use crate::path::RepoPath;
use crate::proto::{ClientMessage, ClientMessageView};
use crate::scan::{FileMeta, MetaKind};
use crate::store_client::{copy_reports, same_reports, InFlight};
use crate::text::{join_text, lemma_texts_push, opt_view, texts, views};
use crate::util::{format_size, short_oid, Uuid};

verus! {

// ---------------------------------------------------------------------------
// Lists of work
// ---------------------------------------------------------------------------

pub(crate) fn works_of_visit(paths: &Vec<RepoPath>, why: Why) -> (list: Vec<Work>)
    ensures
        views(list@) == views(paths@).map_values(
            |path: Seq<char>| WorkView::Visit { path, why },
        ),
{
    let mut list: Vec<Work> = Vec::new();
    let mut i: usize = 0;
    while i < paths.len()
        invariant
            i <= paths@.len(),
            list@.len() == i,
            forall|k: int|
                0 <= k < i ==> (#[trigger] list@[k])@ == (WorkView::Visit {
                    path: paths@[k]@,
                    why,
                }),
        decreases paths@.len() - i,
    {
        list.push(Work::Visit { path: paths[i].clone(), why });
        i = i + 1;
    }
    proof {
        assert(views(list@) =~= views(paths@).map_values(
            |path: Seq<char>| WorkView::Visit { path, why },
        ));
    }
    list
}

pub(crate) fn works_of_materialize(paths: &Vec<RepoPath>) -> (list: Vec<Work>)
    ensures
        views(list@) == materialize_works(views(paths@)),
{
    let mut list: Vec<Work> = Vec::new();
    let mut i: usize = 0;
    while i < paths.len()
        invariant
            i <= paths@.len(),
            list@.len() == i,
            forall|k: int|
                0 <= k < i ==> (#[trigger] list@[k])@ == (WorkView::Materialize {
                    path: paths@[k]@,
                }),
        decreases paths@.len() - i,
    {
        list.push(Work::Materialize { path: paths[i].clone() });
        i = i + 1;
    }
    proof {
        assert(views(list@) =~= materialize_works(views(paths@)));
    }
    list
}

fn works_of_flush(paths: &Vec<RepoPath>) -> (list: Vec<Work>)
    ensures
        views(list@) == flush_works(views(paths@)),
{
    let mut list: Vec<Work> = Vec::new();
    let mut i: usize = 0;
    while i < paths.len()
        invariant
            i <= paths@.len(),
            list@.len() == i,
            forall|k: int|
                0 <= k < i ==> (#[trigger] list@[k])@ == (WorkView::FlushPath {
                    path: paths@[k]@,
                }),
        decreases paths@.len() - i,
    {
        list.push(Work::FlushPath { path: paths[i].clone() });
        i = i + 1;
    }
    proof {
        assert(views(list@) =~= flush_works(views(paths@)));
    }
    list
}

pub(crate) fn works_of_restore(paths: &Vec<RepoPath>) -> (list: Vec<Work>)
    ensures
        views(list@) == restore_works(views(paths@)),
{
    let mut list: Vec<Work> = Vec::new();
    let mut i: usize = 0;
    while i < paths.len()
        invariant
            i <= paths@.len(),
            list@.len() == i,
            forall|k: int|
                0 <= k < i ==> (#[trigger] list@[k])@ == (WorkView::Restore { path: paths@[k]@ }),
        decreases paths@.len() - i,
    {
        list.push(Work::Restore { path: paths[i].clone() });
        i = i + 1;
    }
    proof {
        assert(views(list@) =~= restore_works(views(paths@)));
    }
    list
}

fn works_of_install(hashes: &Vec<String>) -> (list: Vec<Work>)
    ensures
        views(list@) == installs(texts(hashes@)),
{
    let mut list: Vec<Work> = Vec::new();
    let mut i: usize = 0;
    while i < hashes.len()
        invariant
            i <= hashes@.len(),
            list@.len() == i,
            forall|k: int|
                0 <= k < i ==> (#[trigger] list@[k])@ == (WorkView::InstallAwaited {
                    hash: hashes@[k]@,
                }),
        decreases hashes@.len() - i,
    {
        list.push(Work::InstallAwaited { hash: hashes[i].clone() });
        i = i + 1;
    }
    proof {
        assert(views(list@) =~= installs(texts(hashes@)));
    }
    list
}

// ---------------------------------------------------------------------------
// Content
// ---------------------------------------------------------------------------

impl ClientEngine {
    fn send_messages(&mut self, list: Vec<ClientMessage>)
        requires
            old(self).wf(),
        ensures
            final(self).wf(),
            final(self)@ == send_all(old(self)@, out_views(list@)),
    {
        let ghost all = out_views(list@);
        let mut left = list;
        let ghost mut done: int = 0;
        proof {
            assert(all.take(0) =~= Seq::<ClientMessageView>::empty());
            assert(all.skip(0) =~= all);
        }
        while left.len() > 0
            invariant
                self.wf(),
                0 <= done <= all.len(),
                left@.len() == all.len() - done,
                out_views(left@) == all.skip(done),
                self@ == send_all(old(self)@, all.take(done)),
            decreases left@.len(),
        {
            let ghost before = left@;
            proof {
                assert(all.take(done + 1).drop_last() =~= all.take(done));
                assert(out_views(left@)[0] == left@[0]@);
                assert(all.skip(done)[0] == all[done]);
            }
            let m = left.remove(0);
            proof {
                assert(out_views(left@) =~= out_views(before).remove(0));
                assert(all.skip(done).remove(0) =~= all.skip(done + 1));
            }
            self.send(m);
            proof {
                done = done + 1;
            }
        }
        proof {
            assert(all.take(done) =~= all);
        }
    }

    fn stream_jobs(&mut self, list: Vec<PumpJob>)
        requires
            old(self).wf(),
        ensures
            final(self).wf(),
            final(self)@ == stream_all(old(self)@, job_views(list@)),
    {
        let ghost all = job_views(list@);
        let mut left = list;
        let ghost mut done: int = 0;
        proof {
            assert(all.take(0) =~= Seq::<JobView>::empty());
            assert(all.skip(0) =~= all);
        }
        while left.len() > 0
            invariant
                self.wf(),
                0 <= done <= all.len(),
                left@.len() == all.len() - done,
                job_views(left@) == all.skip(done),
                self@ == stream_all(old(self)@, all.take(done)),
            decreases left@.len(),
        {
            let ghost before = left@;
            proof {
                assert(all.take(done + 1).drop_last() =~= all.take(done));
                assert(job_views(left@)[0] == left@[0]@);
                assert(all.skip(done)[0] == all[done]);
            }
            let j = left.remove(0);
            proof {
                assert(job_views(left@) =~= job_views(before).remove(0));
                assert(all.skip(done).remove(0) =~= all.skip(done + 1));
            }
            if self.pumping {
                self.effect(ClientEffect::Stream(j));
            }
            proof {
                done = done + 1;
            }
        }
        proof {
            assert(all.take(done) =~= all);
        }
    }

    fn note_refusals(&mut self, list: &Vec<(String, String)>)
        requires
            old(self).wf(),
        ensures
            final(self).wf(),
            final(self)@ == note_refused(old(self)@, pair_views(list@)),
    {
        let ghost all = pair_views(list@);
        let mut i: usize = 0;
        proof {
            assert(all.take(0) =~= Seq::<(Seq<char>, Seq<char>)>::empty());
        }
        while i < list.len()
            invariant
                self.wf(),
                all == pair_views(list@),
                i <= list@.len(),
                self@ == note_refused(old(self)@, all.take(i as int)),
            decreases list@.len() - i,
        {
            proof {
                assert(all.take(i + 1).drop_last() =~= all.take(i as int));
                assert(all.take(i + 1).last() == (list@[i as int].0@, list@[i as int].1@));
            }
            let mut text = "content ".to_owned();
            text.push_str(short_oid(list[i].0.as_str()).as_str());
            text.push_str(" could not be transferred: ");
            text.push_str(list[i].1.as_str());
            self.note(text);
            i = i + 1;
        }
        proof {
            assert(all.take(i as int) =~= all);
        }
    }

    /// Carry out the consequences of one blob-plane event.
    pub(crate) fn emit(&mut self, e: Emitted)
        requires
            old(self).wf(),
        ensures
            final(self).wf(),
            final(self)@ == emit(old(self)@, e@),
    {
        proof {
            reveal(emit);
        }
        self.send_messages(e.messages);
        self.stream_jobs(e.jobs);
        self.note_refusals(&e.refused);
        proof {
            assert(texts(e.installed@).len() == e.installed@.len());
        }
        if e.installed.len() > 0 {
            let mut works = works_of_install(&e.installed);
            let ghost start = works@;
            works.push(Work::RestoreAwaited);
            works.push(Work::SyncTree);
            works.push(Work::CheckBarrier);
            proof {
                assert(views(works@) =~= views(start) + seq![
                    WorkView::RestoreAwaited,
                    WorkView::SyncTree,
                    WorkView::CheckBarrier,
                ]);
            }
            self.first(works);
        }
    }

    /// Ask the host for content the working tree needs.
    pub(crate) fn want_blobs(&mut self, hashes: Vec<String>)
        requires
            old(self).wf(),
        ensures
            final(self).wf(),
            final(self)@ == want_blobs(old(self)@, texts(hashes@)),
    {
        proof {
            reveal(want_blobs);
        }
        let e = self.traffic.want(hashes);
        let waiting = self.traffic.waiting_for_content();
        self.emit(e);
        if waiting {
            self.materialization_blocked = true;
        }
    }

    pub(crate) fn want_blob(&mut self, hash: &str)
        requires
            old(self).wf(),
        ensures
            final(self).wf(),
            final(self)@ == want_blobs(old(self)@, seq![hash@]),
    {
        proof {
            reveal(want_blobs);
        }
        let mut list: Vec<String> = Vec::new();
        let h = hash.to_owned();
        list.push(h);
        proof {
            assert(texts(list@) =~= seq![hash@]);
        }
        self.want_blobs(list);
    }

    pub(crate) fn send_with(&mut self, key: Uuid, needs: Vec<String>, message: ClientMessage)
        requires
            old(self).wf(),
            ids_left(old(self)@.traffic),
        ensures
            final(self).wf(),
            final(self)@ == send_with(old(self)@, key, texts(needs@), message@),
    {
        proof {
            reveal(send_with);
        }
        let e = self.traffic.send_when_uploaded(key, needs, message);
        self.emit(e);
    }

    // -------------------------------------------------------- the size limit

    /// Durably record that a path is being held back, and say so once.
    pub(crate) fn record_oversize(&mut self, path: &RepoPath, size: u64)
        requires
            old(self).wf(),
        ensures
            final(self).wf(),
            final(self)@ == record_oversize(old(self)@, path@, size),
    {
        proof {
            reveal(record_oversize);
        }
        let canonical = self.store.path_state(path).confirmed.is_some();
        let known = self.store.is_oversize(path);
        self.store.put_oversize(path, size, canonical);
        if !known {
            let mut text = path.as_str().to_owned();
            if canonical {
                text.push_str(" has grown to ");
            } else {
                text.push_str(" is ");
            }
            text.push_str(format_size(size).as_str());
            text.push_str(", above the session limit of ");
            text.push_str(format_size(self.max_file_size).as_str());
            if canonical {
                text.push_str(
                    ". Your copy is preserved and untouched, the session still holds the previous content, and Git publication is blocked until this is resolved. Shrink the file, or raise the limit with `weave limit set <size>`.",
                );
            } else {
                text.push_str(
                    ". It stays exactly as it is on this machine and is not synchronized, and Git publication is blocked until this is resolved. Shrink or delete the file, or raise the limit with `weave limit set <size>`.",
                );
            }
            self.note(text);
        }
    }

    pub(crate) fn forget_oversize(&mut self, path: &RepoPath)
        requires
            old(self).wf(),
        ensures
            final(self).wf(),
            final(self)@ == forget_oversize(old(self)@, path@),
    {
        proof {
            reveal(forget_oversize);
        }
        if self.store.clear_oversize(path) {
            let mut text = path.as_str().to_owned();
            text.push_str(
                " is within the session file size limit again and is synchronized normally.",
            );
            self.note(text);
        }
    }

    /// Is a path above the session limit? Judged before anything is read.
    pub fn check_oversize(&mut self, path: &RepoPath, meta: &Option<FileMeta>) -> (over: bool)
        requires
            old(self).wf(),
        ensures
            final(self).wf(),
            (final(self)@, over) == check_oversize(old(self)@, path@, *meta),
    {
        proof {
            reveal(check_oversize);
        }
        match meta {
            Some(m) => {
                if m.kind == MetaKind::File && m.size > self.max_file_size {
                    self.record_oversize(path, m.size);
                    return true;
                }
            },
            None => {},
        }
        self.forget_oversize(path);
        false
    }

    /// What is held back, as a barrier reports it.
    pub fn oversize_detail(&self) -> (d: Option<String>)
        ensures
            opt_view(d) == oversize_detail(self@),
    {
        let mine = self.store.oversize();
        proof {
            assert(views(mine@).len() == mine@.len());
        }
        if mine.len() == 0 {
            return None;
        }
        let ghost all = oversize_lines(views(mine@), self.max_file_size);
        let mut lines: Vec<String> = Vec::new();
        let mut i: usize = 0;
        proof {
            assert(texts(lines@) =~= all.take(0));
        }
        while i < mine.len()
            invariant
                all == oversize_lines(views(mine@), self.max_file_size),
                i <= mine@.len(),
                texts(lines@) == all.take(i as int),
            decreases mine@.len() - i,
        {
            let ghost before = lines@;
            let mut line = mine[i].path.as_str().to_owned();
            line.push_str(" is ");
            line.push_str(format_size(mine[i].size).as_str());
            line.push_str(", above the session limit of ");
            line.push_str(format_size(self.max_file_size).as_str());
            lines.push(line);
            proof {
                lemma_texts_push(before, line);
                assert(line@ == all[i as int]);
                assert(all.take(i + 1) =~= all.take(i as int).push(line@));
            }
            i = i + 1;
        }
        proof {
            assert(all.take(i as int) =~= all);
        }
        Some(join_text(&lines, "; "))
    }

    /// Tell the host what this replica is holding back, when that has changed.
    pub(crate) fn sync_oversize_report(&mut self)
        requires
            old(self).wf(),
        ensures
            final(self).wf(),
            final(self)@ == sync_oversize_report(old(self)@),
    {
        proof {
            reveal(sync_oversize_report);
        }
        if !self.connected {
            return;
        }
        let current = self.store.oversize();
        let same = match &self.reported_oversize {
            Some(list) => same_reports(list, &current),
            None => false,
        };
        if same {
            return;
        }
        self.reported_oversize = Some(copy_reports(&current));
        self.send(ClientMessage::ReportOversize { paths: current });
        self.check_barrier_ready();
    }

    fn join_failure(&self) -> (e: WeaveError)
        requires
            self@.replica.oversize.len() > 0,
        ensures
            e@ == join_error(self@),
    {
        let mine = self.store.oversize();
        let ghost all = join_lines(views(mine@));
        let mut lines: Vec<String> = Vec::new();
        let mut i: usize = 0;
        proof {
            assert(texts(lines@) =~= all.take(0));
        }
        while i < mine.len()
            invariant
                all == join_lines(views(mine@)),
                i <= mine@.len(),
                texts(lines@) == all.take(i as int),
            decreases mine@.len() - i,
        {
            let ghost before = lines@;
            let mut line = mine[i].path.as_str().to_owned();
            line.push_str(" — ");
            line.push_str(format_size(mine[i].size).as_str());
            lines.push(line);
            proof {
                lemma_texts_push(before, line);
                assert(line@ == all[i as int]);
                assert(all.take(i + 1) =~= all.take(i as int).push(line@));
            }
            i = i + 1;
        }
        proof {
            assert(all.take(i as int) =~= all);
            assert(views(mine@)[0] == mine@[0]@);
        }
        let mut m = "Cannot join this Weave session: ".to_owned();
        m.push_str(mine[0].path.as_str());
        m.push_str(" is above the session file size limit of ");
        m.push_str(format_size(self.max_file_size).as_str());
        m.push_str(".");
        let mut d = join_text(&lines, "\n");
        d.push_str(
            "\n\nRemove these files from the repository, or ask the host to raise the limit with `weave limit set <size>`, then join again.",
        );
        unsupported(m.as_str()).with_detail(d)
    }

    /// The authoritative check a join cannot make before it connects.
    pub(crate) fn verify_join_against_limit(&mut self)
        requires
            old(self).wf(),
        ensures
            final(self).wf(),
            final(self)@ == verify_join(old(self)@),
    {
        proof {
            reveal(verify_join);
        }
        let mine = self.store.oversize();
        proof {
            assert(views(mine@).len() == mine@.len());
        }
        if mine.len() == 0 {
            return;
        }
        let e = self.join_failure();
        if self.may_exit {
            self.effect(ClientEffect::Exit(e));
            self.shutdown = true;
        } else {
            self.degrade(e.message.as_str());
        }
    }

    // -------------------------------------------------------------- barriers

    pub(crate) fn conflict_lines(&self) -> (list: Vec<String>)
        ensures
            texts(list@) == match self@.control {
                Some(c) => my_conflicts(c.conflicts, self@.actor_id),
                None => Seq::empty(),
            },
    {
        let mut list: Vec<String> = Vec::new();
        match &self.control {
            None => {
                proof {
                    assert(texts(list@) =~= Seq::<Seq<char>>::empty());
                }
            },
            Some(c) => {
                let ghost all = views(c.conflicts@);
                let ghost me = self.id.actor_id;
                let mut i: usize = 0;
                proof {
                    assert(texts(list@) =~= my_conflicts(all.take(0), me));
                }
                while i < c.conflicts.len()
                    invariant
                        all == views(c.conflicts@),
                        me == self.id.actor_id,
                        i <= c.conflicts@.len(),
                        texts(list@) == my_conflicts(all.take(i as int), me),
                    decreases c.conflicts@.len() - i,
                {
                    let ghost before = list@;
                    proof {
                        assert(all.take(i + 1).drop_last() =~= all.take(i as int));
                        assert(all.take(i + 1).last() == c.conflicts@[i as int]@);
                    }
                    if c.conflicts[i].status == ConflictStatus::Open
                        && c.conflicts[i].incoming_actor_id == self.id.actor_id {
                        let mut line = c.conflicts[i].short_id();
                        line.push_str(" — ");
                        line.push_str(c.conflicts[i].path.as_str());
                        list.push(line);
                        proof {
                            lemma_texts_push(before, line);
                        }
                    }
                    i = i + 1;
                }
                proof {
                    assert(all.take(i as int) =~= all);
                }
            },
        }
        list
    }

    fn find_blockers(&self, conflicted: bool) -> (list: Vec<String>)
        ensures
            texts(list@) == blockers(self@, conflicted),
    {
        let open = self.conflict_lines();
        let mut list: Vec<String> = Vec::new();
        proof {
            assert(texts(open@).len() == open@.len());
            assert(texts(list@) =~= Seq::<Seq<char>>::empty());
        }
        if open.len() > 0 {
            let line = join_text(&open, "; ");
            list.push(line);
            proof {
                assert(texts(list@) =~= seq![line@]);
            }
        } else if conflicted {
            let line = "unresolved conflict from pre-barrier work".to_owned();
            list.push(line);
            proof {
                assert(texts(list@) =~= seq![line@]);
            }
        }
        match self.oversize_detail() {
            Some(d) => {
                let ghost before = list@;
                list.push(d);
                proof {
                    lemma_texts_push(before, d);
                }
            },
            None => {},
        }
        list
    }

    /// Answer the barrier, once everything up to the watermark is settled and
    /// no content is in transit.
    pub fn check_barrier_ready(&mut self)
        requires
            old(self).wf(),
        ensures
            final(self).wf(),
            final(self)@ == check_barrier(old(self)@),
    {
        proof {
            reveal(check_barrier);
        }
        match self.barrier {
            None => {},
            Some(b) => {
                if b.ready_sent || self.waiting_for_content() || self.store.has_outstanding(
                    b.watermark,
                ) {
                    return;
                }
                let list = self.find_blockers(b.conflicted);
                proof {
                    assert(texts(list@).len() == list@.len());
                }
                let ok = list.len() == 0;
                let detail = join_text(&list, "; ");
                self.send(
                    ClientMessage::BarrierReady { barrier_id: b.barrier_id, ok, detail },
                );
                self.barrier = Some(
                    BarrierLocal {
                        barrier_id: b.barrier_id,
                        watermark: b.watermark,
                        ready_sent: true,
                        conflicted: b.conflicted,
                    },
                );
            },
        }
    }

    /// Everything visible has been captured: freeze the watermark.
    pub(crate) fn freeze(&mut self, barrier_id: Uuid)
        requires
            old(self).wf(),
        ensures
            final(self).wf(),
            final(self)@ == freeze(old(self)@, barrier_id),
    {
        proof {
            reveal(freeze);
        }
        let watermark = self.store.local_seq();
        self.barrier = Some(
            BarrierLocal { barrier_id, watermark, ready_sent: false, conflicted: false },
        );
        self.send(ClientMessage::BarrierAck { barrier_id, watermark });
        let mut works: Vec<Work> = Vec::new();
        works.push(Work::Flush);
        works.push(Work::CheckBarrier);
        proof {
            assert(views(works@) =~= seq![WorkView::Flush, WorkView::CheckBarrier]);
        }
        self.first(works);
    }

    // ------------------------------------------------------------ the outbox

    /// Send the operation of a path, behind its content.
    pub(crate) fn submit_path(&mut self, path: &RepoPath, now_ms: i64)
        requires
            old(self).wf(),
            ids_left(old(self)@.traffic),
        ensures
            final(self).wf(),
            final(self)@ == submit_path(old(self)@, path@, now_ms),
    {
        proof {
            reveal(submit_path);
        }
        let state = self.store.path_state(path);
        let f = match &state.in_flight {
            Some(f) => f.clone(),
            None => {
                return;
            },
        };
        if f.sent || !self.connected {
            return;
        }
        match &self.barrier {
            Some(b) => {
                if f.local_seq > b.watermark {
                    return;
                }
            },
            None => {},
        }
        let needs = needed(&f.desired);
        let op = FileOperation {
            operation_id: f.operation_id,
            actor_id: self.id.actor_id,
            task_id: f.task_id,
            local_seq: f.local_seq,
            base_revision: f.base_revision,
            base_entry: copy_entry(&f.base_entry),
            path: path.clone(),
            desired_entry: copy_entry(&f.desired),
            content: None,
        };
        self.send_with(
            f.operation_id,
            needs,
            ClientMessage::SubmitOperation { operation: Box::new(op) },
        );
        let mut state = state;
        let mut f = f;
        f.sent = true;
        f.sent_at_ms = now_ms;
        state.in_flight = Some(f);
        self.put_state(path, state);
    }

    /// Turn queued work into the next operation in flight.
    pub(crate) fn promote_pending(&mut self, path: &RepoPath, now_ms: i64, fresh: Uuid)
        requires
            old(self).wf(),
            ids_left(old(self)@.traffic),
        ensures
            final(self).wf(),
            final(self)@ == promote_pending(old(self)@, path@, now_ms, fresh),
    {
        proof {
            reveal(promote_pending);
        }
        let mut state = self.store.path_state(path);
        if state.in_flight.is_some() || state.conflict_draft.is_some() {
            return;
        }
        match state.pending_local.take() {
            None => {},
            Some(p) => {
                state.in_flight = Some(
                    InFlight {
                        operation_id: fresh,
                        base_revision: state.confirmed_revision,
                        base_entry: copy_entry(&state.confirmed),
                        desired: p.desired,
                        local_seq: p.local_seq,
                        task_id: p.task_id,
                        sent: false,
                        sent_at_ms: 0,
                    },
                );
                self.put_state(path, state);
                self.submit_path(path, now_ms);
            },
        }
    }

    pub(crate) fn flush_path(&mut self, path: &RepoPath, now_ms: i64, fresh: Uuid)
        requires
            old(self).wf(),
            ids_left(old(self)@.traffic),
            now_ms >= 0,
        ensures
            final(self).wf(),
            final(self)@ == flush_path(old(self)@, path@, now_ms, fresh),
    {
        proof {
            reveal(flush_path);
        }
        let mut state = self.store.path_state(path);
        match state.in_flight.take() {
            Some(f) => {
                if !f.sent {
                    self.submit_path(path, now_ms);
                } else if f.sent_at_ms < now_ms - RESEND_AFTER_MS {
                    // Retransmission is safe: the host resolves a repeated
                    // identifier to its original result.
                    let mut f = f;
                    f.sent = false;
                    state.in_flight = Some(f);
                    self.put_state(path, state);
                    self.submit_path(path, now_ms);
                }
            },
            None => {
                self.promote_pending(path, now_ms, fresh);
            },
        }
    }

    pub(crate) fn flush_outbox(&mut self)
        requires
            old(self).wf(),
        ensures
            final(self).wf(),
            final(self)@ == flush_outbox(old(self)@),
    {
        proof {
            reveal(flush_outbox);
        }
        if self.connected {
            let paths = self.store.all_paths();
            let works = works_of_flush(&paths);
            self.first(works);
        }
    }
}

/// The content an entry needs at the host.
pub(crate) fn needed(entry: &Option<FileEntry>) -> (list: Vec<String>)
    ensures
        texts(list@) == needs_of(entry_view(*entry)),
{
    let mut list: Vec<String> = Vec::new();
    match entry {
        Some(e) => {
            list.push(e.blob_hash.clone());
        },
        None => {},
    }
    proof {
        assert(texts(list@) =~= needs_of(entry_view(*entry)));
    }
    list
}

} // verus!
