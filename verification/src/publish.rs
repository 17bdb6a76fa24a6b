//! The pieces a Git publication is made of: the diff, the tasks, the
//! contributors and the commit message.

use vstd::prelude::*;

use crate::model::{
    CommitPreparation, Conflict, Contributor, DiffSummary, FileEntry, GitPublication, PreparedTask,
    PushStatus, Revision,
};
use crate::gitx::PushResult;
use crate::path::RepoPath;
use crate::proto::{rows, ManifestEntry};
use crate::publish_rules::{
    added_paths, all_touched, commit_message, conflict_lines, contributor_of, covered, diff_of,
    divergence_text, modified_paths, prepared_tasks, push_report, range_form, recorded_name,
    trailers_of, union, with_push, PushView,
};
use crate::store_host::{row_of, task_revisions, ActorCount, HostStore};
use crate::text::{
    join_text, lemma_place_text, lemma_texts_push, lemma_views_push, listed, opt_view, same_text,
    sort_list, sort_texts, text_before, text_le, texts, trim_end_text, trim_text, views,
};
use crate::util::{fmt_revision, Uuid};

verus! {

// ---------------------------------------------------------------------------
// Paths
// ---------------------------------------------------------------------------

/// Whether a list of paths has one.
pub fn has_path(list: &Vec<RepoPath>, path: &RepoPath) -> (yes: bool)
    ensures
        yes == views(list@).contains(path@),
{
    let mut i: usize = 0;
    while i < list.len()
        invariant
            i <= list@.len(),
            forall|k: int| 0 <= k < i ==> (#[trigger] views(list@)[k]) != path@,
        decreases list@.len() - i,
    {
        if list[i].same(path) {
            assert(views(list@)[i as int] == path@);
            return true;
        }
        i = i + 1;
    }
    false
}

/// The paths in ascending order.
pub fn sort_paths(list: &Vec<RepoPath>) -> (out: Vec<RepoPath>)
    ensures
        views(out@) == sort_list(views(list@)),
{
    let mut out: Vec<RepoPath> = Vec::new();
    let ghost all = views(list@);
    let mut i: usize = 0;
    proof {
        assert(views(out@) =~= sort_list(all.take(0)));
    }
    while i < list.len()
        invariant
            all == views(list@),
            i <= list@.len(),
            views(out@) == sort_list(all.take(i as int)),
        decreases list@.len() - i,
    {
        let p = list[i].clone();
        let mut at: usize = out.len();
        while at > 0 && !text_before(out[at - 1].as_str(), p.as_str())
            invariant
                at <= out@.len(),
                forall|k: int| at <= k < out@.len() ==> !text_le(#[trigger] views(out@)[k], p@),
            decreases at,
        {
            at = at - 1;
        }
        let ghost before = out@;
        proof {
            if at > 0 {
                assert(views(out@)[at - 1] == out@[at - 1]@);
            }
            lemma_place_text(views(out@), p@, at as int);
            assert(all.take(i + 1).drop_last() =~= all.take(i as int));
            assert(all.take(i + 1).last() == p@);
        }
        out.insert(at, p);
        proof {
            assert(views(out@) =~= views(before).insert(at as int, p@));
        }
        i = i + 1;
    }
    proof {
        assert(all.take(i as int) =~= all);
    }
    out
}

/// Add the paths that a list does not have yet.
fn add_paths(list: &mut Vec<RepoPath>, more: &Vec<RepoPath>)
    ensures
        views(final(list)@) == union(views(old(list)@), views(more@)),
{
    let ghost start = views(list@);
    let ghost all = views(more@);
    let mut i: usize = 0;
    proof {
        assert(all.take(0) =~= Seq::<Seq<char>>::empty());
    }
    while i < more.len()
        invariant
            all == views(more@),
            i <= more@.len(),
            views(list@) == union(start, all.take(i as int)),
        decreases more@.len() - i,
    {
        let ghost before = list@;
        proof {
            assert(all.take(i + 1).drop_last() =~= all.take(i as int));
            assert(all.take(i + 1).last() == more@[i as int]@);
        }
        if !has_path(list, &more[i]) {
            let p = more[i].clone();
            list.push(p);
            proof {
                lemma_views_push(before, p);
            }
        }
        i = i + 1;
    }
    proof {
        assert(all.take(i as int) =~= all);
    }
}

// ---------------------------------------------------------------------------
// Diffs
// ---------------------------------------------------------------------------

/// What a manifest holds at a path.
fn find_row<'a>(list: &'a Vec<ManifestEntry>, path: &RepoPath) -> (e: Option<&'a FileEntry>)
    ensures
        row_of(rows(list@), path@) == match e {
            Some(f) => Some(f@),
            None => None,
        },
{
    let ghost all = rows(list@);
    let mut i: usize = 0;
    proof {
        assert(all.skip(0) =~= all);
    }
    while i < list.len()
        invariant
            all == rows(list@),
            i <= list@.len(),
            row_of(all, path@) == row_of(all.skip(i as int), path@),
        decreases list@.len() - i,
    {
        proof {
            assert(all.skip(i as int)[0] == list@[i as int]@);
            assert(all.skip(i as int).drop_first() =~= all.skip(i + 1));
        }
        if list[i].path.same(path) {
            return Some(&list[i].entry);
        }
        i = i + 1;
    }
    None
}

fn paths_only_in(after: &Vec<ManifestEntry>, before: &Vec<ManifestEntry>) -> (list: Vec<RepoPath>)
    ensures
        views(list@) == added_paths(rows(before@), rows(after@)),
{
    let mut list: Vec<RepoPath> = Vec::new();
    let ghost all = rows(after@);
    let mut i: usize = 0;
    proof {
        assert(views(list@) =~= added_paths(rows(before@), all.take(0)));
    }
    while i < after.len()
        invariant
            all == rows(after@),
            i <= after@.len(),
            views(list@) == added_paths(rows(before@), all.take(i as int)),
        decreases after@.len() - i,
    {
        let ghost prior = list@;
        proof {
            assert(all.take(i + 1).drop_last() =~= all.take(i as int));
            assert(all.take(i + 1).last() == after@[i as int]@);
        }
        if find_row(before, &after[i].path).is_none() {
            let p = after[i].path.clone();
            list.push(p);
            proof {
                lemma_views_push(prior, p);
            }
        }
        i = i + 1;
    }
    proof {
        assert(all.take(i as int) =~= all);
    }
    list
}

fn paths_changed(before: &Vec<ManifestEntry>, after: &Vec<ManifestEntry>) -> (list: Vec<RepoPath>)
    ensures
        views(list@) == modified_paths(rows(before@), rows(after@)),
{
    let mut list: Vec<RepoPath> = Vec::new();
    let ghost all = rows(after@);
    let mut i: usize = 0;
    proof {
        assert(views(list@) =~= modified_paths(rows(before@), all.take(0)));
    }
    while i < after.len()
        invariant
            all == rows(after@),
            i <= after@.len(),
            views(list@) == modified_paths(rows(before@), all.take(i as int)),
        decreases after@.len() - i,
    {
        let ghost prior = list@;
        proof {
            assert(all.take(i + 1).drop_last() =~= all.take(i as int));
            assert(all.take(i + 1).last() == after@[i as int]@);
        }
        match find_row(before, &after[i].path) {
            Some(was) => {
                if !FileEntry::same_as(Some(was), Some(&after[i].entry)) {
                    let p = after[i].path.clone();
                    list.push(p);
                    proof {
                        lemma_views_push(prior, p);
                    }
                }
            },
            None => {},
        }
        i = i + 1;
    }
    proof {
        assert(all.take(i as int) =~= all);
    }
    list
}

/// Added, modified and deleted paths between two manifests.
pub fn diff_manifests(before: &Vec<ManifestEntry>, after: &Vec<ManifestEntry>) -> (d: DiffSummary)
    ensures
        d@ == diff_of(rows(before@), rows(after@)),
{
    DiffSummary {
        added: paths_only_in(after, before),
        modified: paths_changed(before, after),
        deleted: paths_only_in(before, after),
    }
}

// ---------------------------------------------------------------------------
// Preparations
// ---------------------------------------------------------------------------

/// One line per open conflict.
pub fn describe_conflicts(list: &Vec<Conflict>) -> (lines: Vec<String>)
    ensures
        texts(lines@) == conflict_lines(views(list@)),
{
    let mut lines: Vec<String> = Vec::new();
    let ghost all = conflict_lines(views(list@));
    let mut i: usize = 0;
    proof {
        assert(texts(lines@) =~= all.take(0));
    }
    while i < list.len()
        invariant
            all == conflict_lines(views(list@)),
            i <= list@.len(),
            texts(lines@) == all.take(i as int),
        decreases list@.len() - i,
    {
        let ghost before = lines@;
        let mut line = list[i].short_id();
        line.push_str(" — ");
        line.push_str(list[i].path.as_str());
        lines.push(line);
        proof {
            lemma_texts_push(before, line);
            assert(line@ == all[i as int]);
            assert(all.take(i + 1) =~= all.take(i as int).push(line@));
        }
        i = i + 1;
    }
    proof {
        assert(all.take(i as int) =~= all);
    }
    lines
}

/// A run of revisions as a person reads it.
pub fn describe_range(list: &Vec<u64>) -> (s: String)
    requires
        list@.len() > 0,
    ensures
        s@ == range_form(list@),
{
    let mut s = fmt_revision(list[0]);
    if list.len() > 1 {
        s.push_str("–");
        s.push_str(fmt_revision(list[list.len() - 1]).as_str());
    }
    s
}

/// The name an actor is recorded under.
pub fn name_on_record(store: &HostStore, actor_id: Uuid) -> (s: String)
    ensures
        s@ == recorded_name(store@, actor_id),
{
    match store.actor(actor_id) {
        Some(a) => a.display_name,
        None => "unknown".to_owned(),
    }
}

/// The contributing tasks that are still on record, and every path they
/// touched.
pub fn collect_tasks(store: &HostStore, ids: &Vec<Uuid>, span: &Vec<Revision>) -> (r: (
    Vec<PreparedTask>,
    Vec<RepoPath>,
))
    requires
        views(span@) == covered(store@),
    ensures
        views(r.0@) == prepared_tasks(store@, ids@),
        views(r.1@) == all_touched(prepared_tasks(store@, ids@)),
{
    let mut tasks: Vec<PreparedTask> = Vec::new();
    let mut touched: Vec<RepoPath> = Vec::new();
    let mut i: usize = 0;
    proof {
        assert(views(tasks@) =~= prepared_tasks(store@, ids@.take(0)));
        assert(views(touched@) =~= all_touched(views(tasks@)));
    }
    while i < ids.len()
        invariant
            views(span@) == covered(store@),
            i <= ids@.len(),
            views(tasks@) == prepared_tasks(store@, ids@.take(i as int)),
            views(touched@) == all_touched(views(tasks@)),
        decreases ids@.len() - i,
    {
        let ghost before = tasks@;
        proof {
            assert(ids@.take(i + 1).drop_last() =~= ids@.take(i as int));
            assert(ids@.take(i + 1).last() == ids@[i as int]);
        }
        match store.task(ids[i]) {
            None => {},
            Some(task) => {
                let revisions = task_revisions(span, ids[i]);
                add_paths(&mut touched, &task.touched_paths);
                let p = PreparedTask {
                    id: task.id,
                    short_id: task.short_id(),
                    description: task.description,
                    status: task.status,
                    actor_id: task.actor_id,
                    actor_display_name: name_on_record(store, task.actor_id),
                    touched_paths: task.touched_paths,
                    revisions,
                };
                tasks.push(p);
                proof {
                    lemma_views_push(before, p);
                    assert(views(tasks@).drop_last() =~= views(before));
                    assert(views(tasks@).last() == p@);
                }
            },
        }
        i = i + 1;
    }
    proof {
        assert(ids@.take(i as int) =~= ids@);
    }
    (tasks, touched)
}

/// The contributors of a span. Weave never invents an address.
pub fn collect_contributors(store: &HostStore, counts: &Vec<ActorCount>) -> (list: Vec<Contributor>)
    ensures
        views(list@) == counts@.map_values(|c: ActorCount| contributor_of(store@, c)),
{
    let mut list: Vec<Contributor> = Vec::new();
    let ghost all = counts@.map_values(|c: ActorCount| contributor_of(store@, c));
    let mut i: usize = 0;
    proof {
        assert(views(list@) =~= all.take(0));
    }
    while i < counts.len()
        invariant
            all == counts@.map_values(|c: ActorCount| contributor_of(store@, c)),
            i <= counts@.len(),
            views(list@) == all.take(i as int),
        decreases counts@.len() - i,
    {
        let ghost before = list@;
        let actor_id = counts[i].actor_id;
        let email: Option<String> = match store.actor(actor_id) {
            Some(a) => {
                if trim_text(a.git_email.as_str()).as_str().is_empty() {
                    None
                } else {
                    Some(a.git_email)
                }
            },
            None => None,
        };
        let c = Contributor {
            actor_id,
            display_name: name_on_record(store, actor_id),
            email,
            revisions: counts[i].revisions,
        };
        list.push(c);
        proof {
            lemma_views_push(before, c);
            assert(c@ == all[i as int]);
            assert(all.take(i + 1) =~= all.take(i as int).push(c@));
        }
        i = i + 1;
    }
    proof {
        assert(all.take(i as int) =~= all);
    }
    list
}

// ---------------------------------------------------------------------------
// Commits
// ---------------------------------------------------------------------------

/// One trailer per contributor with an address other than the author's, each
/// once, in ascending order.
pub fn coauthor_trailers(prep: &CommitPreparation, author_email: &str) -> (list: Vec<String>)
    ensures
        texts(list@) == sort_list(trailers_of(prep@.contributors, author_email@)),
{
    let mut trailers: Vec<String> = Vec::new();
    let ghost all = views(prep.contributors@);
    let mut i: usize = 0;
    proof {
        assert(texts(trailers@) =~= trailers_of(all.take(0), author_email@));
    }
    while i < prep.contributors.len()
        invariant
            all == views(prep.contributors@),
            i <= prep.contributors@.len(),
            texts(trailers@) == trailers_of(all.take(i as int), author_email@),
        decreases prep.contributors@.len() - i,
    {
        let ghost before = trailers@;
        proof {
            assert(all.take(i + 1).drop_last() =~= all.take(i as int));
            assert(all.take(i + 1).last() == prep.contributors@[i as int]@);
        }
        match &prep.contributors[i].email {
            None => {},
            Some(email) => {
                if !same_text(email.as_str(), author_email) {
                    let mut t = "Co-authored-by: ".to_owned();
                    t.push_str(prep.contributors[i].display_name.as_str());
                    t.push_str(" <");
                    t.push_str(email.as_str());
                    t.push_str(">");
                    if !listed(&trailers, t.as_str()) {
                        trailers.push(t);
                        proof {
                            lemma_texts_push(before, t);
                        }
                    }
                }
            },
        }
        i = i + 1;
    }
    proof {
        assert(all.take(i as int) =~= all);
    }
    sort_texts(trailers)
}

/// The full commit message.
pub fn full_message(prep: &CommitPreparation, message: &str, author_email: &str) -> (s: String)
    ensures
        s@ == commit_message(prep@, message@, author_email@),
{
    let mut full = trim_end_text(message);
    let trailers = coauthor_trailers(prep, author_email);
    if trailers.len() > 0 {
        full.push_str("\n\n");
        full.push_str(join_text(&trailers, "\n").as_str());
    }
    full.push_str("\n");
    full
}

impl View for PushResult {
    type V = PushView;

    open spec fn view(&self) -> PushView {
        PushView { ok: self.ok, diverged: self.diverged, message: self.message@ }
    }
}

/// What a person is told when the remote has moved on.
pub fn divergence_message(raw: &str) -> (s: String)
    ensures
        s@ == divergence_text(raw@),
{
    let mut s =
        "Remote branch diverged from the Weave session.\n\nAutomatic reconciliation with external Git history is not supported in V1.\n\n".to_owned();
    s.push_str(raw);
    s
}

/// Record how the automatic push went.
pub fn record_push(p: GitPublication, push: Option<PushResult>) -> (next: GitPublication)
    ensures
        next@ == with_push(p@, opt_view(push)),
{
    let mut next = p;
    match push {
        None => {
            next.push_status = PushStatus::NoUpstream;
        },
        Some(r) => {
            if r.ok {
                next.push_status = PushStatus::Pushed;
            } else if r.diverged {
                next.push_status = PushStatus::Diverged;
                next.push_error = Some(divergence_message(r.message.as_str()));
            } else {
                next.push_status = PushStatus::Failed;
                next.push_error = Some(r.message);
            }
        },
    }
    next
}

/// How a requested push is reported.
pub fn report_push(remote: &str, branch: &str, r: PushResult) -> (out: (PushStatus, String))
    ensures
        (out.0, out.1@) == push_report(remote@, branch@, r@),
{
    if r.ok {
        let mut s = "Pushed to ".to_owned();
        s.push_str(remote);
        s.push_str("/");
        s.push_str(branch);
        s.push_str(".");
        (PushStatus::Pushed, s)
    } else if r.diverged {
        (PushStatus::Diverged, divergence_message(r.message.as_str()))
    } else {
        (PushStatus::Failed, r.message)
    }
}

} // verus!
