//! A commit, from its preparation to the pushed branch, one Git command at a
//! time: what is to be done next, and what an outcome leads to.
//!
//! Objects are built from the prepared revision, never from the live working
//! tree. The publication is on record before the branch moves, the index
//! follows the branch, and the push comes last.

use vstd::prelude::*;

use crate::error::{ErrorView, WeaveError};
use crate::gitx::{PushResult, TreeEntry};
use crate::host::HostEngine;
use crate::host_rules::{host_ok, host_room, HostView};
use crate::model::{
    CommitDescriptor, CommitPreparation, DescriptorView, GitMode, GitPublication, PreparationView,
    PublicationStage, PublicationView,
};
use crate::proto::{rows, ManifestEntry, RowView};
use crate::publish_rules::{
    author_fault, commit_fault, completed_rule, descriptor_of, pushed_rule, record_rule,
    ref_updated_rule, PushView,
};
use crate::store_host::{filed_is_found, found};
use crate::util::Uuid;

verus! {

/// What a commit waits for.
pub enum CommitTask {
    /// The commit the branch is at.
    ReadHead { actor_id: Uuid, prepare_id: Uuid, message: String },
    /// The object of the first row that has none yet.
    HashObject {
        actor_id: Uuid,
        message: String,
        prep: CommitPreparation,
        manifest: Vec<ManifestEntry>,
        entries: Vec<TreeEntry>,
    },
    /// The tree of all objects.
    WriteTree { actor_id: Uuid, message: String, prep: CommitPreparation, entries: Vec<TreeEntry> },
    /// The commit of the tree.
    CommitTree { descriptor: CommitDescriptor },
    /// The branch, from the parent to the commit; what is on record has to be
    /// durable first.
    MoveRef { publication: GitPublication },
    /// The index, at the commit's tree.
    ReadTree { publication: GitPublication },
    /// The remote branch.
    Push { publication: GitPublication },
    /// Nothing: the commit is made.
    Published { publication: GitPublication },
    /// Nothing: the commit is refused.
    Rejected { error: WeaveError },
}

pub enum CommitTaskView {
    ReadHead { actor_id: Uuid, prepare_id: Uuid, message: Seq<char> },
    HashObject {
        actor_id: Uuid,
        message: Seq<char>,
        prep: PreparationView,
        manifest: Seq<RowView>,
        entries: Seq<TreeView>,
    },
    WriteTree {
        actor_id: Uuid,
        message: Seq<char>,
        prep: PreparationView,
        entries: Seq<TreeView>,
    },
    CommitTree { descriptor: DescriptorView },
    MoveRef { publication: PublicationView },
    ReadTree { publication: PublicationView },
    Push { publication: PublicationView },
    Published { publication: PublicationView },
    Rejected { error: ErrorView },
}

/// One file of a tree.
pub struct TreeView {
    pub path: Seq<char>,
    pub mode: GitMode,
    pub oid: Seq<char>,
}

pub open spec fn tree_views(list: Seq<TreeEntry>) -> Seq<TreeView> {
    list.map_values(|e: TreeEntry| TreeView { path: e.path@, mode: e.mode, oid: e.oid@ })
}

impl View for CommitTask {
    type V = CommitTaskView;

    open spec fn view(&self) -> CommitTaskView {
        match *self {
            CommitTask::ReadHead { actor_id, prepare_id, message } => CommitTaskView::ReadHead {
                actor_id,
                prepare_id,
                message: message@,
            },
            CommitTask::HashObject { actor_id, message, prep, manifest, entries } =>
            CommitTaskView::HashObject {
                actor_id,
                message: message@,
                prep: prep@,
                manifest: rows(manifest@),
                entries: tree_views(entries@),
            },
            CommitTask::WriteTree { actor_id, message, prep, entries } => CommitTaskView::WriteTree {
                actor_id,
                message: message@,
                prep: prep@,
                entries: tree_views(entries@),
            },
            CommitTask::CommitTree { descriptor } => CommitTaskView::CommitTree {
                descriptor: descriptor@,
            },
            CommitTask::MoveRef { publication } => CommitTaskView::MoveRef {
                publication: publication@,
            },
            CommitTask::ReadTree { publication } => CommitTaskView::ReadTree {
                publication: publication@,
            },
            CommitTask::Push { publication } => CommitTaskView::Push { publication: publication@ },
            CommitTask::Published { publication } => CommitTaskView::Published {
                publication: publication@,
            },
            CommitTask::Rejected { error } => CommitTaskView::Rejected { error: error@ },
        }
    }
}

/// How a command went.
pub enum CommitReply {
    /// The object it named.
    Oid(String),
    /// It did what it had to.
    Moved,
    Pushed(PushResult),
    Failed(WeaveError),
}

pub enum CommitReplyView {
    Oid(Seq<char>),
    Moved,
    Pushed(PushView),
    Failed(ErrorView),
}

impl View for CommitReply {
    type V = CommitReplyView;

    open spec fn view(&self) -> CommitReplyView {
        match *self {
            CommitReply::Oid(oid) => CommitReplyView::Oid(oid@),
            CommitReply::Moved => CommitReplyView::Moved,
            CommitReply::Pushed(r) => CommitReplyView::Pushed(r@),
            CommitReply::Failed(e) => CommitReplyView::Failed(e@),
        }
    }
}

/// The objects of a manifest, and once all are there, the tree.
pub open spec fn collect(
    actor_id: Uuid,
    message: Seq<char>,
    prep: PreparationView,
    manifest: Seq<RowView>,
    entries: Seq<TreeView>,
) -> CommitTaskView {
    if entries.len() < manifest.len() {
        CommitTaskView::HashObject { actor_id, message, prep, manifest, entries }
    } else {
        CommitTaskView::WriteTree { actor_id, message, prep, entries }
    }
}

/// The index has followed the branch: the publication is complete, and pushed
/// where there is a remote.
pub open spec fn indexed_rule(h: HostView, publication: PublicationView) -> (HostView, CommitTaskView) {
    let (next, publication) = completed_rule(h, publication);
    if h.remote is Some {
        (next, CommitTaskView::Push { publication })
    } else {
        let (last, publication) = pushed_rule(next, publication, None);
        (last, CommitTaskView::Published { publication })
    }
}

/// What an outcome leads to. One that does not answer what was asked for
/// changes nothing.
pub open spec fn commit_rule(
    h: HostView,
    task: CommitTaskView,
    r: CommitReplyView,
    now_ms: i64,
    now_s: i64,
) -> (HostView, CommitTaskView) {
    match (task, r) {
        (CommitTaskView::Published { .. }, _) => (h, task),
        (CommitTaskView::Rejected { .. }, _) => (h, task),
        (_, CommitReplyView::Failed(error)) => (h, CommitTaskView::Rejected { error }),
        (
            CommitTaskView::ReadHead { actor_id, prepare_id, message },
            CommitReplyView::Oid(head),
        ) => match commit_fault(h, prepare_id, message, head) {
            Some(error) => (h, CommitTaskView::Rejected { error }),
            None => {
                let prep = found::<CommitPreparation>(h.store.preparations, prepare_id)->0;
                (h, collect(actor_id, message, prep, h.store.at(prep.target_revision), Seq::empty()))
            },
        },
        (
            CommitTaskView::HashObject { actor_id, message, prep, manifest, entries },
            CommitReplyView::Oid(oid),
        ) => if entries.len() < manifest.len() {
            let row = manifest[entries.len() as int];
            let e = TreeView { path: row.path, mode: row.entry.git_mode, oid };
            (h, collect(actor_id, message, prep, manifest, entries.push(e)))
        } else {
            (h, task)
        },
        (
            CommitTaskView::WriteTree { actor_id, message, prep, entries },
            CommitReplyView::Oid(tree),
        ) => match author_fault(h, actor_id) {
            Some(error) => (h, CommitTaskView::Rejected { error }),
            None => (
                h,
                CommitTaskView::CommitTree {
                    descriptor: descriptor_of(h, prep, actor_id, message, tree, now_s),
                },
            ),
        },
        (CommitTaskView::CommitTree { descriptor }, CommitReplyView::Oid(oid)) => {
            let (next, publication) = record_rule(h, descriptor, oid, now_ms);
            (next, CommitTaskView::MoveRef { publication })
        },
        (CommitTaskView::MoveRef { publication }, CommitReplyView::Moved) => {
            let (next, publication) = ref_updated_rule(h, publication);
            (next, CommitTaskView::ReadTree { publication })
        },
        (CommitTaskView::ReadTree { publication }, CommitReplyView::Moved) => indexed_rule(
            h,
            publication,
        ),
        (CommitTaskView::Push { publication }, CommitReplyView::Pushed(push)) => {
            let (next, publication) = pushed_rule(h, publication, Some(push));
            (next, CommitTaskView::Published { publication })
        },
        (_, _) => (h, task),
    }
}

/// The object of one more row of a manifest.
fn gather(manifest: &Vec<ManifestEntry>, entries: Vec<TreeEntry>, oid: String) -> (all: Vec<TreeEntry>)
    requires
        entries@.len() < manifest@.len(),
    ensures
        ({
            let row = rows(manifest@)[entries@.len() as int];
            tree_views(all@) == tree_views(entries@).push(
                TreeView { path: row.path, mode: row.entry.git_mode, oid: oid@ },
            )
        }),
{
    let n = entries.len();
    let mut all = entries;
    let ghost before = tree_views(all@);
    let row = manifest[n].clone();
    let e = TreeEntry { path: row.path, mode: row.entry.git_mode, oid };
    let ghost v = TreeView { path: e.path@, mode: e.mode, oid: e.oid@ };
    all.push(e);
    proof {
        assert(tree_views(all@) =~= before.push(v));
        assert(rows(manifest@)[n as int] == manifest@[n as int]@);
    }
    all
}

fn collected(
    actor_id: Uuid,
    message: String,
    prep: CommitPreparation,
    manifest: Vec<ManifestEntry>,
    entries: Vec<TreeEntry>,
) -> (task: CommitTask)
    ensures
        task@ == collect(actor_id, message@, prep@, rows(manifest@), tree_views(entries@)),
{
    if entries.len() < manifest.len() {
        CommitTask::HashObject { actor_id, message, prep, manifest, entries }
    } else {
        CommitTask::WriteTree { actor_id, message, prep, entries }
    }
}

impl HostEngine {
    fn index_moved(&mut self, publication: GitPublication) -> (next: CommitTask)
        requires
            old(self).wf(),
            host_room(old(self)@),
        ensures
            final(self).wf(),
            (final(self)@, next@) == indexed_rule(old(self)@, publication@),
    {
        let publication = self.publication_complete(publication);
        if self.has_remote() {
            CommitTask::Push { publication }
        } else {
            let publication = self.publication_pushed(publication, None);
            CommitTask::Published { publication }
        }
    }

    /// One step of a commit. The outside runs what the task asks for and hands
    /// the outcome back, until the task is done.
    #[verifier::spinoff_prover]
    pub fn commit_next(&mut self, task: CommitTask, r: CommitReply, now_ms: i64, now_s: i64) -> (next:
        CommitTask)
        requires
            old(self).wf(),
            host_room(old(self)@),
        ensures
            final(self).wf(),
            (final(self)@, next@) == commit_rule(old(self)@, task@, r@, now_ms, now_s),
    {
        match (task, r) {
            (CommitTask::Published { publication }, _) => CommitTask::Published { publication },
            (CommitTask::Rejected { error }, _) => CommitTask::Rejected { error },
            (_, CommitReply::Failed(error)) => CommitTask::Rejected { error },
            (CommitTask::ReadHead { actor_id, prepare_id, message }, CommitReply::Oid(head)) => {
                match self.begin_commit(prepare_id, message.as_str(), head.as_str()) {
                    Err(error) => CommitTask::Rejected { error },
                    Ok((prep, manifest)) => {
                        let entries: Vec<TreeEntry> = Vec::new();
                        proof {
                            assert(tree_views(entries@) =~= Seq::<TreeView>::empty());
                        }
                        collected(actor_id, message, prep, manifest, entries)
                    },
                }
            },
            (
                CommitTask::HashObject { actor_id, message, prep, manifest, entries },
                CommitReply::Oid(oid),
            ) => {
                if entries.len() >= manifest.len() {
                    return CommitTask::HashObject { actor_id, message, prep, manifest, entries };
                }
                let entries = gather(&manifest, entries, oid);
                collected(actor_id, message, prep, manifest, entries)
            },
            (CommitTask::WriteTree { actor_id, message, prep, entries }, CommitReply::Oid(tree)) => {
                match self.describe_commit(&prep, actor_id, message.as_str(), tree, now_s) {
                    Ok(descriptor) => CommitTask::CommitTree { descriptor },
                    Err(error) => CommitTask::Rejected { error },
                }
            },
            (CommitTask::CommitTree { descriptor }, CommitReply::Oid(oid)) => {
                let publication = self.record_publication(descriptor, oid, now_ms);
                CommitTask::MoveRef { publication }
            },
            (CommitTask::MoveRef { publication }, CommitReply::Moved) => {
                let publication = self.ref_updated(publication);
                CommitTask::ReadTree { publication }
            },
            (CommitTask::ReadTree { publication }, CommitReply::Moved) => {
                self.index_moved(publication)
            },
            (CommitTask::Push { publication }, CommitReply::Pushed(push)) => {
                let publication = self.publication_pushed(publication, Some(push));
                CommitTask::Published { publication }
            },
            (task, _) => task,
        }
    }
}

// ---------------------------------------------------------------------------
// Laws
// ---------------------------------------------------------------------------

/// A branch is only ever moved to a commit that is on record, and the head the
/// coordinator expects has not moved before it.
pub proof fn the_record_comes_before_the_branch(
    h: HostView,
    task: CommitTaskView,
    r: CommitReplyView,
    now_ms: i64,
    now_s: i64,
)
    requires
        host_ok(h),
        !(task is MoveRef),
    ensures
        ({
            let (next, then) = commit_rule(h, task, r, now_ms, now_s);
            then matches CommitTaskView::MoveRef { publication } ==> {
                &&& task is CommitTree
                &&& publication.stage == PublicationStage::ObjectsInstalled
                &&& found::<GitPublication>(
                    next.store.publications,
                    publication.sequence as u128,
                ) == Some(publication)
                &&& next.expected_head == h.expected_head
            }
        }),
{
    if let (CommitTaskView::CommitTree { descriptor }, CommitReplyView::Oid(oid)) = (task, r) {
        let (next, p) = record_rule(h, descriptor, oid, now_ms);
        filed_is_found(h.store.publications, p);
    }
}

/// The expected head moves when the branch has, and to where it has.
pub proof fn the_head_moves_with_the_branch(
    h: HostView,
    task: CommitTaskView,
    r: CommitReplyView,
    now_ms: i64,
    now_s: i64,
)
    ensures
        commit_rule(h, task, r, now_ms, now_s).0.expected_head == match (task, r) {
            (CommitTaskView::MoveRef { publication }, CommitReplyView::Moved) =>
            publication.descriptor.commit_oid,
            _ => h.expected_head,
        },
{
}

/// A command that failed ends the commit with its error and changes nothing
/// that is on record.
pub proof fn a_failed_command_ends_the_commit(
    h: HostView,
    task: CommitTaskView,
    e: ErrorView,
    now_ms: i64,
    now_s: i64,
)
    requires
        !(task is Published),
        !(task is Rejected),
    ensures
        commit_rule(h, task, CommitReplyView::Failed(e), now_ms, now_s) == (
            h,
            CommitTaskView::Rejected { error: e },
        ),
{
}

/// How far a commit has still to go.
pub open spec fn left_to_do(task: CommitTaskView) -> nat {
    match task {
        CommitTaskView::ReadHead { .. } => 6,
        CommitTaskView::HashObject { .. } => 6,
        CommitTaskView::WriteTree { .. } => 5,
        CommitTaskView::CommitTree { .. } => 4,
        CommitTaskView::MoveRef { .. } => 3,
        CommitTaskView::ReadTree { .. } => 2,
        CommitTaskView::Push { .. } => 1,
        CommitTaskView::Published { .. } => 0,
        CommitTaskView::Rejected { .. } => 0,
    }
}

/// Every answer takes a commit forward, by one object while the tree is
/// gathered and to a later command after that; none ever takes it back.
pub proof fn a_commit_only_goes_forward(
    h: HostView,
    task: CommitTaskView,
    r: CommitReplyView,
    now_ms: i64,
    now_s: i64,
)
    ensures
        ({
            let then = commit_rule(h, task, r, now_ms, now_s).1;
            ||| then == task
            ||| left_to_do(then) < left_to_do(task)
            ||| task is ReadHead && then is HashObject
            ||| task is HashObject && then is HashObject && then->HashObject_entries.len()
                == task->HashObject_entries.len() + 1 && then->HashObject_entries.len()
                < then->HashObject_manifest.len() && then->HashObject_manifest
                == task->HashObject_manifest
        }),
{
}

/// The tree holds the files of the prepared revision and nothing else: each
/// under its path and mode, in the manifest's order.
pub proof fn the_tree_is_the_prepared_revision(
    h: HostView,
    task: CommitTaskView,
    r: CommitReplyView,
    now_ms: i64,
    now_s: i64,
)
    requires
        task matches CommitTaskView::HashObject { manifest, entries, .. } ==> gathered(
            manifest,
            entries,
        ),
    ensures
        match commit_rule(h, task, r, now_ms, now_s).1 {
            CommitTaskView::HashObject { prep, manifest, entries, .. } => {
                &&& gathered(manifest, entries)
                &&& task is ReadHead ==> manifest == h.store.at(prep.target_revision)
                &&& task is HashObject ==> manifest == task->HashObject_manifest
            },
            CommitTaskView::WriteTree { prep, entries, .. } => {
                &&& task is ReadHead ==> h.store.at(prep.target_revision).len() == 0
                    && entries.len() == 0
                &&& task is HashObject ==> entries.len() >= task->HashObject_manifest.len()
                    && gathered(task->HashObject_manifest, entries)
            },
            _ => true,
        },
{
}

/// Whether the entries are those of the first rows.
pub open spec fn gathered(manifest: Seq<RowView>, entries: Seq<TreeView>) -> bool {
    &&& entries.len() <= manifest.len()
    &&& forall|i: int|
        0 <= i < entries.len() ==> (#[trigger] entries[i]).path == manifest[i].path
            && entries[i].mode == manifest[i].entry.git_mode
}

} // verus!
