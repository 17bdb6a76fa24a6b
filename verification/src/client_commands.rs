//! The replica: commands.

use vstd::prelude::*;

use crate::client::{Answer, ClientEngine, Work};
use crate::client_blobs::ids_left;
use crate::client_ipc::{
    active_tasks, ask_host, conflict_ids, conflicts_of, create_commit, detail_of, dismiss_conflict,
    dispatch_rule, end_task, find_by_id, find_conflict, find_peer, find_task, forward,
    not_connected_error, open_conflicts, overlapping_tasks, parse_scopes, refuse, require_blob,
    resolution_entry, resolve_conflict, resolve_with, show_conflict, show_task, start_task,
    status_of, task_ids, tasks_of, update_task, wrong_role, Chosen, ConflictDetail, Status,
};
use crate::client_rules::{active_task_in, full_rescan, PendingRequest, WorkView};
use crate::client_step::copy_rejected;
use crate::error::{usage, ErrorView, Result, WeaveError};
use crate::ipc::{IpcCommand, ResolveSource};
use crate::model::{
    copy_entry, copy_texts, entry_view, Conflict, ConflictStatus, ConflictView, FileEntry, Task,
    TaskScope, TaskView,
};
use crate::proto::{rows, state_hash, ClientMessage};
use crate::store_host::position;
use crate::text::{opt_view, texts, trim_text, views};
use crate::util::{is_random, new_uuid, parse_uuid, Uuid};

verus! {

impl ClientEngine {
    fn tasks(&self) -> (list: Vec<Task>)
        ensures
            views(list@) == tasks_of(self@),
    {
        match &self.control {
            Some(c) => {
                let list = c.tasks.clone();
                proof {
                    assert(views(list@) =~= views(c.tasks@));
                }
                list
            },
            None => {
                let list: Vec<Task> = Vec::new();
                proof {
                    assert(views(list@) =~= Seq::<TaskView>::empty());
                }
                list
            },
        }
    }

    fn conflicts(&self) -> (list: Vec<Conflict>)
        ensures
            views(list@) == conflicts_of(self@),
    {
        match &self.control {
            Some(c) => {
                let list = c.conflicts.clone();
                proof {
                    assert(views(list@) =~= views(c.conflicts@));
                }
                list
            },
            None => {
                let list: Vec<Conflict> = Vec::new();
                proof {
                    assert(views(list@) =~= Seq::<ConflictView>::empty());
                }
                list
            },
        }
    }

    fn find_task(&self, needle: &str) -> (r: Result<Task>)
        ensures
            match r {
                Ok(t) => find_task(self@, needle@) == Ok::<TaskView, ErrorView>(t@),
                Err(e) => find_task(self@, needle@) == Err::<TaskView, ErrorView>(e@),
            },
    {
        let tasks = self.tasks();
        let mut ids: Vec<Uuid> = Vec::new();
        let mut i: usize = 0;
        while i < tasks.len()
            invariant
                i <= tasks@.len(),
                ids@.len() == i,
                forall|k: int| 0 <= k < i ==> ids@[k] == (#[trigger] tasks@[k]).id,
            decreases tasks@.len() - i,
        {
            ids.push(tasks[i].id);
            i = i + 1;
        }
        proof {
            assert(ids@ =~= task_ids(views(tasks@)));
        }
        match find_by_id(&ids, 'T', needle, "Task") {
            Ok(at) => {
                proof {
                    assert(views(tasks@)[at as int] == tasks@[at as int]@);
                }
                Ok(tasks[at].clone())
            },
            Err(e) => Err(e),
        }
    }

    fn find_conflict(&self, needle: &str) -> (r: Result<Conflict>)
        ensures
            match r {
                Ok(c) => find_conflict(self@, needle@) == Ok::<ConflictView, ErrorView>(c@),
                Err(e) => find_conflict(self@, needle@) == Err::<ConflictView, ErrorView>(e@),
            },
    {
        let conflicts = self.conflicts();
        let mut ids: Vec<Uuid> = Vec::new();
        let mut i: usize = 0;
        while i < conflicts.len()
            invariant
                i <= conflicts@.len(),
                ids@.len() == i,
                forall|k: int| 0 <= k < i ==> ids@[k] == (#[trigger] conflicts@[k]).id,
            decreases conflicts@.len() - i,
        {
            ids.push(conflicts[i].id);
            i = i + 1;
        }
        proof {
            assert(ids@ =~= conflict_ids(views(conflicts@)));
        }
        match find_by_id(&ids, 'C', needle, "conflict") {
            Ok(at) => {
                proof {
                    assert(views(conflicts@)[at as int] == conflicts@[at as int]@);
                }
                Ok(conflicts[at].clone())
            },
            Err(e) => Err(e),
        }
    }

    fn refuse(&mut self, call: u64, e: WeaveError)
        requires
            old(self).wf(),
        ensures
            final(self).wf(),
            final(self)@ == refuse(old(self)@, call, e@),
    {
        self.answer(call, Answer::Failed(e));
    }

    fn forward(&mut self, call: u64, request_id: Uuid, m: ClientMessage)
        requires
            old(self).wf(),
        ensures
            final(self).wf(),
            final(self)@ == forward(old(self)@, call, request_id, m@),
    {
        self.requests.push(PendingRequest { request_id, call });
        self.send(m);
    }

    /// Everything `weave status` tells.
    pub fn status(&self) -> (s: Status)
        ensures
            s@ == status_of(self@),
    {
        proof {
            reveal(status_of);
        }
        let manifest = self.store.replica_manifest();
        let (outbox_pending, conflict_drafts) = self.store.work_summary();
        let tasks = self.tasks();
        let conflicts = self.conflicts();
        let publication = match &self.control {
            Some(c) => match &c.publication {
                Some(p) => Some(p.clone()),
                None => None,
            },
            None => None,
        };
        let published_revision: u64 = match &publication {
            Some(p) => p.descriptor.target_revision,
            None => 0,
        };
        let live_revision = self.store.last_applied_revision();
        let participants = self.peers.clone();
        proof {
            assert(views(participants@) =~= views(self.peers@));
            assert(rows(manifest@).len() == manifest@.len());
            if self.control is None {
                assert(active_task_in(Seq::<TaskView>::empty(), self.id.actor_id) is None);
            }
        }
        Status {
            role: self.id.role,
            actor_id: self.id.actor_id,
            display_name: self.id.display_name.clone(),
            session_id: self.id.session.session_id,
            host: self.id.session.host_display_name.clone(),
            branch: self.id.branch.clone(),
            base_commit: self.id.session.base_commit.clone(),
            publication,
            published_revision,
            live_revision,
            revisions_ahead: if live_revision > published_revision {
                live_revision - published_revision
            } else {
                0
            },
            state: state_hash(&manifest),
            connected: self.connected,
            connection_note: self.connection_note.clone(),
            sync_state: if self.paused() {
                self.local_state.clone()
            } else {
                self.host_state.clone()
            },
            participants,
            active_task: match self.my_active_task() {
                Some(t) => Some(t.clone()),
                None => None,
            },
            tasks_active: active_tasks(&tasks),
            outbox_pending,
            conflicts_open: open_conflicts(&conflicts),
            conflict_drafts,
            rejected_paths: copy_rejected(&self.rejected),
            notices: copy_texts(&self.notices),
            file_count: manifest.len(),
        }
    }

    fn conflict_detail(&self, c: Conflict) -> (d: ConflictDetail)
        ensures
            d@ == detail_of(self@, c@),
    {
        proof {
            reveal(detail_of);
        }
        let state = self.store.path_state(&c.path);
        let tasks = self.tasks();
        let incoming_task = match c.incoming_task_id {
            Some(id) => {
                let at = position(&tasks, id);
                if at < tasks.len() {
                    Some(tasks[at].clone())
                } else {
                    None
                }
            },
            None => None,
        };
        ConflictDetail {
            short_id: c.short_id(),
            kind_description: c.kind.describe().to_owned(),
            incoming_actor: find_peer(&self.peers, c.incoming_actor_id),
            incoming_task,
            current_canonical: state.confirmed,
            in_conflict_draft: state.conflict_draft.is_some(),
            conflict: c,
        }
    }

    fn show_task(&mut self, call: u64, id: &str)
        requires
            old(self).wf(),
        ensures
            final(self).wf(),
            final(self)@ == show_task(old(self)@, call, id@),
    {
        proof {
            reveal(show_task);
        }
        match self.find_task(id) {
            Err(e) => {
                self.refuse(call, e);
            },
            Ok(task) => {
                let tasks = self.tasks();
                let overlaps = overlapping_tasks(&tasks, &task);
                self.answer(call, Answer::Task { task: Box::new(task), overlaps });
            },
        }
    }

    fn start_task(
        &mut self,
        call: u64,
        description: String,
        scopes: Vec<String>,
        first: Uuid,
        second: Uuid,
    )
        requires
            old(self).wf(),
        ensures
            final(self).wf(),
            final(self)@ == start_task(
                old(self)@,
                call,
                description@,
                texts(scopes@),
                first,
                second,
            ),
    {
        proof {
            reveal(start_task);
        }
        if !self.connected {
            self.refuse(call, not_connected_error());
            return;
        }
        if trim_text(description.as_str()).as_str().is_empty() {
            let e = usage("A Task description is required.").with_detail(
                "Pass --description \"what you intend to change\".".to_owned(),
            );
            self.refuse(call, e);
            return;
        }
        match parse_scopes(&scopes) {
            Err(e) => {
                self.refuse(call, e);
            },
            Ok(scopes) => {
                self.forward(
                    call,
                    first,
                    ClientMessage::TaskStart {
                        request_id: first,
                        task_id: second,
                        description,
                        scopes,
                    },
                );
            },
        }
    }

    fn update_task(
        &mut self,
        call: u64,
        id: &str,
        description: Option<String>,
        scopes: Option<Vec<String>>,
        first: Uuid,
    )
        requires
            old(self).wf(),
        ensures
            final(self).wf(),
            final(self)@ == update_task(
                old(self)@,
                call,
                id@,
                opt_view(description),
                match scopes {
                    Some(list) => Some(texts(list@)),
                    None => None,
                },
                first,
            ),
    {
        proof {
            reveal(update_task);
        }
        if !self.connected {
            self.refuse(call, not_connected_error());
            return;
        }
        let task = match self.find_task(id) {
            Ok(t) => t,
            Err(e) => {
                self.refuse(call, e);
                return;
            },
        };
        let scopes: Option<Vec<TaskScope>> = match scopes {
            None => None,
            Some(raw) => match parse_scopes(&raw) {
                Ok(list) => Some(list),
                Err(e) => {
                    self.refuse(call, e);
                    return;
                },
            },
        };
        self.forward(
            call,
            first,
            ClientMessage::TaskUpdate { request_id: first, task_id: task.id, description, scopes },
        );
    }

    fn end_task(&mut self, call: u64, id: &str, completed: bool, first: Uuid)
        requires
            old(self).wf(),
        ensures
            final(self).wf(),
            final(self)@ == end_task(old(self)@, call, id@, completed, first),
    {
        proof {
            reveal(end_task);
        }
        if !self.connected {
            self.refuse(call, not_connected_error());
            return;
        }
        match self.find_task(id) {
            Err(e) => {
                self.refuse(call, e);
            },
            Ok(task) => {
                let m = if completed {
                    ClientMessage::TaskComplete { request_id: first, task_id: task.id }
                } else {
                    ClientMessage::TaskCancel { request_id: first, task_id: task.id }
                };
                self.forward(call, first, m);
            },
        }
    }

    fn show_conflict(&mut self, call: u64, id: &str)
        requires
            old(self).wf(),
        ensures
            final(self).wf(),
            final(self)@ == show_conflict(old(self)@, call, id@),
    {
        proof {
            reveal(show_conflict);
        }
        match self.find_conflict(id) {
            Err(e) => {
                self.refuse(call, e);
            },
            Ok(c) => {
                let detail = self.conflict_detail(c);
                self.answer(call, Answer::Conflict(Box::new(detail)));
            },
        }
    }

    fn dismiss_conflict(&mut self, call: u64, id: &str, first: Uuid)
        requires
            old(self).wf(),
        ensures
            final(self).wf(),
            final(self)@ == dismiss_conflict(old(self)@, call, id@, first),
    {
        proof {
            reveal(dismiss_conflict);
        }
        if !self.connected {
            self.refuse(call, not_connected_error());
            return;
        }
        match self.find_conflict(id) {
            Err(e) => {
                self.refuse(call, e);
            },
            Ok(c) => {
                self.forward(
                    call,
                    first,
                    ClientMessage::DismissConflict { request_id: first, conflict_id: c.id },
                );
            },
        }
    }

    fn require_blob(&self, entry: Option<FileEntry>) -> (r: Result<Option<FileEntry>>)
        ensures
            match r {
                Ok(e) => require_blob(self@, entry_view(entry)) == Chosen::Entry(entry_view(e)),
                Err(e) => require_blob(self@, entry_view(entry)) == Chosen::Fault(e@),
            },
    {
        match &entry {
            Some(e) => {
                if !self.traffic.holds(e.blob_hash.as_str()) {
                    return Err(
                        usage(
                            "That candidate's content is not available on this machine.",
                        ).with_detail(
                            "Run `weave conflict show <id>` to write the available candidates to .git/weave/conflicts, edit the working file, then resolve from the working tree.".to_owned(),
                        ),
                    );
                }
            },
            None => {},
        }
        Ok(entry)
    }

    fn chosen_entry(
        &mut self,
        call: u64,
        c: &Conflict,
        r: Result<Option<FileEntry>>,
        first: Uuid,
        second: Uuid,
    )
        requires
            old(self).wf(),
            ids_left(old(self)@.traffic),
        ensures
            final(self).wf(),
            final(self)@ == (match r {
                Ok(entry) => resolve_with(
                    old(self)@,
                    call,
                    c@,
                    entry_view(entry),
                    first,
                    second,
                ),
                Err(e) => refuse(old(self)@, call, e@),
            }),
    {
        match r {
            Ok(entry) => {
                self.resolve_with(call, c, entry, first, second);
            },
            Err(e) => {
                self.refuse(call, e);
            },
        }
    }

    fn resolve_from(
        &mut self,
        call: u64,
        c: Conflict,
        source: ResolveSource,
        file: Option<String>,
        first: Uuid,
        second: Uuid,
    )
        requires
            old(self).wf(),
            ids_left(old(self)@.traffic),
        ensures
            final(self).wf(),
            final(self)@ == (match resolution_entry(
                old(self)@,
                c@,
                source,
                opt_view(file),
            ) {
                Chosen::Fault(e) => refuse(old(self)@, call, e),
                Chosen::Entry(entry) => resolve_with(old(self)@, call, c@, entry, first, second),
                Chosen::WorkingTree => old(self)@.first(
                    seq![WorkView::ResolveRead { call, conflict: c@ }],
                ),
                Chosen::File(f) => old(self)@.first(
                    seq![WorkView::ResolveIngest { call, conflict: c@, file: f }],
                ),
            }),
    {
        match source {
            ResolveSource::Delete => {
                self.chosen_entry(call, &c, Ok(None), first, second);
            },
            ResolveSource::Canonical => {
                let state = self.store.path_state(&c.path);
                self.chosen_entry(call, &c, Ok(state.confirmed), first, second);
            },
            ResolveSource::Incoming => {
                let r = self.require_blob(copy_entry(&c.incoming_entry));
                self.chosen_entry(call, &c, r, first, second);
            },
            ResolveSource::LocalCandidate => {
                let entry = if c.latest_local_candidate.is_some() {
                    copy_entry(&c.latest_local_candidate)
                } else {
                    copy_entry(&c.incoming_entry)
                };
                let r = self.require_blob(entry);
                self.chosen_entry(call, &c, r, first, second);
            },
            ResolveSource::Supplied => match file {
                Some(file) => {
                    self.first_one(Work::ResolveIngest { call, conflict: c, file });
                },
                None => {
                    self.refuse(call, usage("No resolved content was supplied."));
                },
            },
            ResolveSource::WorkingTree => {
                self.first_one(Work::ResolveRead { call, conflict: c });
            },
        }
    }

    fn resolve_conflict(
        &mut self,
        call: u64,
        id: &str,
        source: ResolveSource,
        file: Option<String>,
        first: Uuid,
        second: Uuid,
    )
        requires
            old(self).wf(),
            ids_left(old(self)@.traffic),
        ensures
            final(self).wf(),
            final(self)@ == resolve_conflict(
                old(self)@,
                call,
                id@,
                source,
                opt_view(file),
                first,
                second,
            ),
    {
        proof {
            reveal(resolve_conflict);
        }
        if !self.connected {
            self.refuse(call, not_connected_error());
            return;
        }
        let c = match self.find_conflict(id) {
            Ok(c) => c,
            Err(e) => {
                self.refuse(call, e);
                return;
            },
        };
        if c.status != ConflictStatus::Open {
            let mut m = "Conflict ".to_owned();
            m.push_str(c.short_id().as_str());
            m.push_str(" is already ");
            m.push_str(c.status.as_str());
            m.push_str(".");
            self.refuse(call, usage(m.as_str()));
            return;
        }
        self.resolve_from(call, c, source, file, first, second);
    }

    fn create_commit(&mut self, call: u64, prepare_id: String, message: String, first: Uuid)
        requires
            old(self).wf(),
        ensures
            final(self).wf(),
            final(self)@ == create_commit(old(self)@, call, prepare_id@, message@, first),
    {
        proof {
            reveal(create_commit);
        }
        if !self.connected {
            self.refuse(call, not_connected_error());
            return;
        }
        match parse_uuid(trim_text(prepare_id.as_str()).as_str()) {
            None => {
                let mut m = "`".to_owned();
                m.push_str(prepare_id.as_str());
                m.push_str("` is not a Weave preparation identifier.");
                let e = usage(m.as_str()).with_detail(
                    "Use the `prepare_id` reported by `weave commit prepare --json`.".to_owned(),
                );
                self.refuse(call, e);
            },
            Some(id) => {
                self.forward(
                    call,
                    first,
                    ClientMessage::CommitCreate { request_id: first, prepare_id: id, message },
                );
            },
        }
    }

    fn ask_host(&mut self, call: u64, first: Uuid, m: ClientMessage)
        requires
            old(self).wf(),
        ensures
            final(self).wf(),
            final(self)@ == ask_host(old(self)@, call, first, m@),
    {
        proof {
            reveal(ask_host);
        }
        if !self.connected {
            self.refuse(call, not_connected_error());
        } else {
            self.forward(call, first, m);
        }
    }

    fn rescan_for(&mut self, call: u64, now_ms: i64)
        requires
            old(self).wf(),
        ensures
            final(self).wf(),
            final(self)@ == full_rescan(
                old(self)@.first(seq![WorkView::AnswerRescan { call }]),
                now_ms,
            ),
    {
        self.first_one(Work::AnswerRescan { call });
        self.full_rescan(now_ms);
    }

    /// One command, with the identifiers for whatever it creates.
    #[verifier::rlimit(30)]
    pub fn dispatch_with(
        &mut self,
        call: u64,
        command: IpcCommand,
        now_ms: i64,
        first: Uuid,
        second: Uuid,
    )
        requires
            old(self).wf(),
            ids_left(old(self)@.traffic),
        ensures
            final(self).wf(),
            final(self)@ == dispatch_rule(old(self)@, call, command, now_ms, first, second),
    {
        match command {
            IpcCommand::Status => {
                let s = self.status();
                self.answer(call, Answer::Status(Box::new(s)));
            },
            IpcCommand::Peers => {
                let peers = self.peers.clone();
                proof {
                    assert(views(peers@) =~= views(self.peers@));
                }
                self.answer(call, Answer::Peers { peers });
            },
            IpcCommand::Rescan => {
                self.rescan_for(call, now_ms);
            },
            IpcCommand::TaskList => {
                let tasks = self.tasks();
                let active = self.my_task_id();
                self.answer(call, Answer::Tasks { tasks, active });
            },
            IpcCommand::TaskShow { id } => {
                self.show_task(call, id.as_str());
            },
            IpcCommand::TaskStart { description, scopes } => {
                self.start_task(call, description, scopes, first, second);
            },
            IpcCommand::TaskUpdate { id, description, scopes } => {
                self.update_task(call, id.as_str(), description, scopes, first);
            },
            IpcCommand::TaskComplete { id } => {
                self.end_task(call, id.as_str(), true, first);
            },
            IpcCommand::TaskCancel { id } => {
                self.end_task(call, id.as_str(), false, first);
            },
            IpcCommand::ConflictList => {
                let conflicts = self.conflicts();
                let open = open_conflicts(&conflicts);
                self.answer(call, Answer::Conflicts { conflicts, open });
            },
            IpcCommand::ConflictShow { id } => {
                self.show_conflict(call, id.as_str());
            },
            IpcCommand::ConflictDismiss { id } => {
                self.dismiss_conflict(call, id.as_str(), first);
            },
            IpcCommand::ConflictResolve { id, source, content_file } => {
                self.resolve_conflict(call, id.as_str(), source, content_file, first, second);
            },
            IpcCommand::CommitPrepare { allow_active_tasks } => {
                self.ask_host(
                    call,
                    first,
                    ClientMessage::CommitPrepare { request_id: first, allow_active_tasks },
                );
            },
            IpcCommand::CommitCreate { prepare_id, message } => {
                self.create_commit(call, prepare_id, message, first);
            },
            IpcCommand::Push => {
                self.ask_host(call, first, ClientMessage::PushRequest { request_id: first });
            },
            IpcCommand::Invite => {
                self.refuse(call, wrong_role_error());
            },
            IpcCommand::TunnelRestart => {
                self.refuse(call, wrong_role_error());
            },
            IpcCommand::Stop => {
                self.refuse(call, wrong_role_error());
            },
            IpcCommand::Leave => {
                self.refuse(call, wrong_role_error());
            },
        }
    }

    /// One command.
    pub fn dispatch(&mut self, call: u64, command: IpcCommand, now_ms: i64)
        requires
            old(self).wf(),
            ids_left(old(self)@.traffic),
        ensures
            final(self).wf(),
            exists|first: Uuid, second: Uuid|
                is_random(first) && is_random(second) && final(self)@ == #[trigger] dispatch_rule(
                    old(self)@,
                    call,
                    command,
                    now_ms,
                    first,
                    second,
                ),
    {
        let first = new_uuid();
        let second = new_uuid();
        self.dispatch_with(call, command, now_ms, first, second);
    }
}

fn wrong_role_error() -> (e: WeaveError)
    ensures
        e@ == wrong_role(),
{
    usage("That command is not available in this session role.")
}

} // verus!
