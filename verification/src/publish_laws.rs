//! What a publication is: which work it covers, whom it credits, what its
//! commit says, and how its push is reported.

use vstd::prelude::*;

use crate::error::ErrorClass;
use crate::host_laws::trailers_credit_others_once;
use crate::host_rules::{known_conns, BarrierPeerView, BarrierView, EffectView, HostView};
use crate::model::{
    CommitPreparation, ConflictStatus, ContributorView, DescriptorView, PreparationView,
    PrepareStatus, PreparedTaskView, PublicationView, PushStatus, RevisionView, Task, TaskStatus,
    TaskView,
};
use crate::proto::HostMessageView;
use crate::publish_rules::{
    all_touched, blocking_task, commit_fault, commit_message, conn_name, contributors_of, covered,
    descriptor_of, diff_of, preparation_fault, preparation_of, prepare_rule, prepared_tasks,
    previous_revision, push_refused, push_report, push_rule, record_rule, silent_peers, trailers_of,
    union, unready_peers, with_absent, with_push, PushView,
};
use crate::store_host::{
    active_of, ascending, counts_of, filed_is_found, found, open_of, revisions_of, row_of, span_of,
    stored_is_found, tasks_of, unassigned_of, ActorCount, ActorRecord, ActorView, StoreView,
};
use crate::model::GitPublication;
use crate::text::{distinct, join, sort_list, sorted, trim_end};
use crate::text_laws::{
    is_blank, sorting_keeps_every_string, trimming_takes_blanks_only,
    trimming_the_end_takes_blanks_only,
};
use crate::util::Uuid;

verus! {

// ---------------------------------------------------------------------------
// The push
// ---------------------------------------------------------------------------

/// A publication counts as pushed exactly when a push was tried and succeeded.
/// A push that failed leaves an error text, which tells a remote that went its
/// own way from any other failure; where there was nothing to push to, that is
/// what is on record. Nothing else of the publication changes.
pub proof fn only_a_push_that_succeeded_counts(p: PublicationView, push: Option<PushView>)
    ensures
        ({
            let q = with_push(p, push);
            &&& (q.push_status == PushStatus::Pushed) == (push is Some && push->0.ok)
            &&& (q.push_status == PushStatus::NoUpstream) == (push is None)
            &&& (q.push_status == PushStatus::Diverged) == (push is Some && !push->0.ok
                && push->0.diverged)
            &&& (q.push_status == PushStatus::Failed) == (push is Some && !push->0.ok
                && !push->0.diverged)
            &&& push is Some && !push->0.ok ==> {
                &&& q.push_error is Some
                &&& ends_with(q.push_error->0, push->0.message)
                &&& q.push_status == PushStatus::Failed ==> q.push_error->0 == push->0.message
            }
            &&& push is None || push->0.ok ==> q.push_error == p.push_error
            &&& q.descriptor == p.descriptor
            &&& q.stage == p.stage
            &&& q.created_at_ms == p.created_at_ms
            &&& q.sequence == p.sequence
        }),
{
    if let Some(r) = push {
        let e = crate::publish_rules::divergence_text(r.message);
        lemma_ends_with(
            "Remote branch diverged from the Weave session.\n\nAutomatic reconciliation with external Git history is not supported in V1.\n\n"@,
            r.message,
        );
        lemma_ends_with(Seq::empty(), r.message);
        assert(Seq::<char>::empty() + r.message =~= r.message);
    }
}

/// Whether a text ends with another.
pub open spec fn ends_with(s: Seq<char>, tail: Seq<char>) -> bool {
    s.len() >= tail.len() && s.skip(s.len() - tail.len()) == tail
}

proof fn lemma_ends_with(head: Seq<char>, tail: Seq<char>)
    ensures
        ends_with(head + tail, tail),
{
    assert((head + tail).skip(head.len() as int) =~= tail);
}

/// A requested push is answered with how it went, and put on record with the
/// newest publication: pushed exactly when it succeeded, and with an error text
/// exactly when it did not.
pub proof fn a_requested_push_is_reported_as_it_went(
    h: HostView,
    conn_id: u64,
    request_id: Uuid,
    r: PushView,
)
    requires
        ascending(h.store.publications),
        h.store.latest() is Some,
        h.remote is Some,
    ensures
        ({
            let next = push_rule(h, conn_id, request_id, r);
            let n = h.outbox.len() as int;
            let old = h.store.latest()->0;
            let q = found::<GitPublication>(next.store.publications, old.sequence as u128);
            &&& q is Some
            &&& (q->0.push_status == PushStatus::Pushed) == r.ok
            &&& (q->0.push_status == PushStatus::Diverged) == (!r.ok && r.diverged)
            &&& (q->0.push_status == PushStatus::Failed) == (!r.ok && !r.diverged)
            &&& (q->0.push_error is None) == r.ok
            &&& !r.ok ==> ends_with(q->0.push_error->0, r.message)
            &&& q->0.descriptor == old.descriptor
            &&& q->0.stage == old.stage
            &&& next.outbox.len() > n
            &&& next.outbox[n] matches EffectView::Send { to, message } && {
                &&& to == seq![conn_id]
                &&& message matches HostMessageView::PushResult {
                    request_id: answered,
                    status,
                    message: said,
                } && {
                    &&& answered == request_id
                    &&& status == q->0.push_status
                    &&& !r.ok ==> said == q->0.push_error->0
                }
            }
        }),
{
    let (status, message) = push_report(h.remote->0, h.branch, r);
    let p = h.store.latest()->0;
    let q = PublicationView {
        push_status: status,
        push_error: if status == PushStatus::Pushed {
            None
        } else {
            Some(message)
        },
        ..p
    };
    filed_is_found(h.store.publications, q);
    only_a_push_that_succeeded_counts(p, Some(r));
}

/// A push is tried exactly when something has been published and there is a
/// remote.
pub proof fn a_push_needs_a_publication_and_a_remote(h: HostView)
    ensures
        (push_refused(h) is None) == (h.store.publications.len() > 0 && h.remote is Some),
        push_refused(h) matches Some((status, _)) ==> status != PushStatus::Pushed,
{
}

// ---------------------------------------------------------------------------
// The commit
// ---------------------------------------------------------------------------

/// `head` is a text without the white space at its end.
pub open spec fn is_without_end(s: Seq<char>, head: Seq<char>) -> bool {
    &&& head.len() <= s.len()
    &&& s.take(head.len() as int) == head
    &&& is_blank(s.skip(head.len() as int))
    &&& head.len() > 0 ==> !crate::text::is_space(head[head.len() - 1])
}

/// The lines that credit everybody but the author: each contributor with an
/// address of their own, once, in order.
pub open spec fn are_credits(
    lines: Seq<Seq<char>>,
    contributors: Seq<ContributorView>,
    author_email: Seq<char>,
) -> bool {
    &&& sorted(lines)
    &&& distinct(lines)
    &&& forall|t: Seq<char>| #[trigger]
        lines.contains(t) == exists|i: int|
            0 <= i < contributors.len() && (#[trigger] contributors[i]).email is Some
                && contributors[i].email->0 != author_email && t == "Co-authored-by: "@
                + contributors[i].display_name + " <"@ + contributors[i].email->0 + ">"@
}

/// The message of a commit is the message that was asked for, without the white
/// space at its end; then, where anybody is credited, a blank line and a line
/// for each; then a line break.
pub proof fn a_commit_says_what_was_asked(
    prep: PreparationView,
    message: Seq<char>,
    author_email: Seq<char>,
)
    ensures
        exists|head: Seq<char>, lines: Seq<Seq<char>>|
            {
                &&& #[trigger] is_without_end(message, head)
                &&& #[trigger] are_credits(lines, prep.contributors, author_email)
                &&& commit_message(prep, message, author_email) == if lines.len() == 0 {
                    head + "\n"@
                } else {
                    head + "\n\n"@ + join(lines, "\n"@) + "\n"@
                }
            },
{
    let list = trailers_of(prep.contributors, author_email);
    let lines = sort_list(list);
    let head = trim_end(message);
    trimming_the_end_takes_blanks_only(message);
    assert(is_without_end(message, head));
    trailers_credit_others_once(prep.contributors, author_email);
    sorting_keeps_every_string(list);
    assert(are_credits(lines, prep.contributors, author_email)) by {
        let c = prep.contributors;
        assert forall|t: Seq<char>| #[trigger] lines.contains(t) == exists|i: int|
            0 <= i < c.len() && (#[trigger] c[i]).email is Some && c[i].email->0 != author_email && t
                == "Co-authored-by: "@ + c[i].display_name + " <"@ + c[i].email->0 + ">"@ by {
            assert(lines.contains(t) == list.contains(t));
            if exists|i: int|
                0 <= i < c.len() && (#[trigger] c[i]).email is Some && c[i].email->0 != author_email
                    && t == "Co-authored-by: "@ + c[i].display_name + " <"@ + c[i].email->0
                    + ">"@ {
                let i = choose|i: int|
                    0 <= i < c.len() && (#[trigger] c[i]).email is Some && c[i].email->0
                        != author_email && t == "Co-authored-by: "@ + c[i].display_name + " <"@
                        + c[i].email->0 + ">"@;
                assert(c[i].email != Some(author_email));
                assert(list.contains(t));
            }
            if list.contains(t) {
                let i = choose|i: int|
                    0 <= i < c.len() && (#[trigger] c[i]).email is Some && c[i].email != Some(
                        author_email,
                    ) && t == crate::publish_rules::trailer_of(c[i].display_name, c[i].email->0);
                assert(c[i].email->0 != author_email);
            }
        }
    }
}

/// In particular a commit begins with the message that was asked for, whoever
/// contributed, and ends its last line.
pub proof fn a_commit_begins_with_its_message(
    prep: PreparationView,
    message: Seq<char>,
    author_email: Seq<char>,
    head: Seq<char>,
)
    requires
        is_without_end(message, head),
    ensures
        ({
            let all = commit_message(prep, message, author_email);
            &&& all.len() > head.len()
            &&& all.take(head.len() as int) == head
            &&& all[head.len() as int] == '\n'
            &&& all[all.len() - 1] == '\n'
        }),
{
    reveal_strlit("\n");
    reveal_strlit("\n\n");
    trimming_the_end_takes_blanks_only(message);
    let mine = trim_end(message);
    assert(mine == head) by {
        if mine.len() < head.len() {
            assert(message.skip(mine.len() as int)[head.len() - 1 - mine.len()] == head[head.len()
                - 1]);
        } else if head.len() < mine.len() {
            assert(message.skip(head.len() as int)[mine.len() - 1 - head.len()] == mine[mine.len()
                - 1]);
        }
    }
    let all = commit_message(prep, message, author_email);
    assert(all.take(head.len() as int) =~= head);
}

/// A commit can be made exactly of a preparation that is still open, with a
/// message that says something, on the commit it was prepared on.
pub proof fn a_commit_needs_an_open_preparation(
    h: HostView,
    prepare_id: Uuid,
    message: Seq<char>,
    head: Seq<char>,
)
    ensures
        (commit_fault(h, prepare_id, message, head) is None) == ({
            let prep = found::<CommitPreparation>(h.store.preparations, prepare_id);
            &&& prep is Some
            &&& prep->0.status == PrepareStatus::Prepared
            &&& !is_blank(message)
            &&& prep->0.parent_commit_oid == head
        }),
        commit_fault(h, prepare_id, message, head) matches Some(e) ==> e.class
            == ErrorClass::UsageError || e.class == ErrorClass::GitError,
{
    trimming_takes_blanks_only(message);
}

/// A commit is by whoever asked for it: under their Git name, and under their
/// address where they have one, else the host's. No address is made up.
pub proof fn a_commit_is_by_whoever_asked(
    h: HostView,
    prep: PreparationView,
    actor_id: Uuid,
    message: Seq<char>,
    tree: Seq<char>,
    timestamp: i64,
)
    ensures
        ({
            let d = descriptor_of(h, prep, actor_id, message, tree, timestamp);
            let actor = found::<ActorRecord>(h.store.actors, actor_id);
            &&& actor is Some ==> d.author_name == actor->0.git_name
            &&& actor is Some && !is_blank(actor->0.git_email) ==> d.author_email
                == actor->0.git_email
            &&& actor is None || is_blank(actor->0.git_email) ==> d.author_email == h.git_email
            &&& actor is None ==> d.author_name == h.git_name
            &&& d.committer_name == h.git_name
            &&& d.committer_email == h.git_email
            &&& d.tree_oid == tree
            &&& d.parent_commit_oid == prep.parent_commit_oid
            &&& d.target_revision == prep.target_revision
            &&& d.prepare_id == prep.prepare_id
            &&& d.contributing_task_ids == prep.included_task_ids
            &&& d.timestamp == timestamp
            &&& d.timezone == "+0000"@
            &&& d.branch == h.branch
            &&& d.message == commit_message(prep, message, d.author_email)
        }),
{
    if let Some(a) = found::<ActorRecord>(h.store.actors, actor_id) {
        trimming_takes_blanks_only(a.git_email);
    }
}

// ---------------------------------------------------------------------------
// What a preparation covers
// ---------------------------------------------------------------------------

/// The revisions behind a number, of a log that counts from one, are the rest of
/// the log.
proof fn lemma_span(log: Seq<RevisionView>, after: u64, upto: u64)
    requires
        forall|i: int| 0 <= i < log.len() ==> (#[trigger] log[i]).revision == i + 1,
        log.len() <= upto,
    ensures
        span_of(log, after, upto) == if after <= log.len() {
            log.skip(after as int)
        } else {
            Seq::empty()
        },
    decreases log.len(),
{
    reveal(Seq::filter);
    if log.len() > 0 {
        let front = log.drop_last();
        assert forall|i: int| 0 <= i < front.len() implies (#[trigger] front[i]).revision == i
            + 1 by {
            assert(front[i] == log[i]);
        }
        lemma_span(front, after, upto);
        assert(log.last().revision == log.len());
        if after <= front.len() {
            assert(log.skip(after as int) =~= front.skip(after as int).push(log.last()));
        } else if after == log.len() {
            assert(log.skip(after as int) =~= Seq::<RevisionView>::empty());
        }
    } else {
        assert(span_of(log, after, upto) =~= Seq::<RevisionView>::empty());
        if after == 0 {
            assert(log.skip(0) =~= Seq::<RevisionView>::empty());
        }
    }
}

/// A preparation covers every revision since the one published last, up to the
/// newest, and no other.
pub proof fn a_preparation_covers_what_is_unpublished(s: StoreView)
    requires
        s.ok(),
    ensures
        covered(s) == match s.latest() {
            Some(p) => if p.descriptor.target_revision <= s.log.len() {
                s.log.skip(p.descriptor.target_revision as int)
            } else {
                Seq::empty()
            },
            None => s.log,
        },
{
    lemma_span(s.log, previous_revision(s), s.revision());
    assert(s.log.skip(0) =~= s.log);
}

/// The revisions of a task, and of no task, are those that say so, in order.
pub proof fn revisions_are_told_apart_by_task(span: Seq<RevisionView>, task_id: Uuid, n: u64)
    ensures
        revisions_of(span, task_id).contains(n) == exists|i: int|
            0 <= i < span.len() && (#[trigger] span[i]).task_id == Some(task_id)
                && span[i].revision == n,
        unassigned_of(span).contains(n) == exists|i: int|
            0 <= i < span.len() && (#[trigger] span[i]).task_id is None && span[i].revision == n,
    decreases span.len(),
{
    if span.len() > 0 {
        let front = span.drop_last();
        let last = span.last();
        revisions_are_told_apart_by_task(front, task_id, n);
        lemma_push_has(revisions_of(front, task_id), last.revision, n);
        lemma_push_has(unassigned_of(front), last.revision, n);
        if exists|i: int|
            0 <= i < front.len() && (#[trigger] front[i]).task_id == Some(task_id)
                && front[i].revision == n {
            let i = choose|i: int|
                0 <= i < front.len() && (#[trigger] front[i]).task_id == Some(task_id)
                    && front[i].revision == n;
            assert(span[i] == front[i]);
        }
        if exists|i: int|
            0 <= i < front.len() && (#[trigger] front[i]).task_id is None && front[i].revision == n {
            let i = choose|i: int|
                0 <= i < front.len() && (#[trigger] front[i]).task_id is None && front[i].revision
                    == n;
            assert(span[i] == front[i]);
        }
        assert(span[span.len() - 1] == last);
        if exists|i: int|
            0 <= i < span.len() && (#[trigger] span[i]).task_id == Some(task_id) && span[i].revision
                == n {
            let i = choose|i: int|
                0 <= i < span.len() && (#[trigger] span[i]).task_id == Some(task_id)
                    && span[i].revision == n;
            if i < front.len() {
                assert(front[i] == span[i]);
            }
        }
        if exists|i: int|
            0 <= i < span.len() && (#[trigger] span[i]).task_id is None && span[i].revision == n {
            let i = choose|i: int|
                0 <= i < span.len() && (#[trigger] span[i]).task_id is None && span[i].revision == n;
            if i < front.len() {
                assert(front[i] == span[i]);
            }
        }
    }
}

proof fn lemma_push_has<T>(list: Seq<T>, t: T, u: T)
    ensures
        list.push(t).contains(u) == (list.contains(u) || t == u),
{
    if list.contains(u) {
        let i = choose|i: int| 0 <= i < list.len() && list[i] == u;
        assert(list.push(t)[i] == u);
    }
    assert(list.push(t)[list.len() as int] == t);
    if list.push(t).contains(u) && t != u {
        let i = choose|i: int| 0 <= i < list.push(t).len() && list.push(t)[i] == u;
        assert(list[i] == u);
    }
}

/// The tasks of a publication are those of the revisions it covers, each once.
pub proof fn a_task_is_included_when_it_contributed(span: Seq<RevisionView>, id: Uuid)
    ensures
        tasks_of(span).contains(id) == exists|i: int|
            0 <= i < span.len() && (#[trigger] span[i]).task_id == Some(id),
        tasks_of(span).no_duplicates(),
    decreases span.len(),
{
    if span.len() > 0 {
        let front = span.drop_last();
        let before = tasks_of(front);
        let last = span.last();
        a_task_is_included_when_it_contributed(front, id);
        assert(span[span.len() - 1] == last);
        if let Some(t) = last.task_id {
            a_task_is_included_when_it_contributed(front, t);
            lemma_push_has(before, t, id);
            if !before.contains(t) {
                let all = before.push(t);
                assert forall|i: int, j: int|
                    0 <= i < all.len() && 0 <= j < all.len() && i != j implies all[i] != all[j] by {
                    if i == before.len() {
                        assert(before.contains(before[j]));
                    } else if j == before.len() {
                        assert(before.contains(before[i]));
                    }
                }
            }
        }
        if exists|i: int| 0 <= i < front.len() && (#[trigger] front[i]).task_id == Some(id) {
            let i = choose|i: int|
                0 <= i < front.len() && (#[trigger] front[i]).task_id == Some(id);
            assert(span[i] == front[i]);
        }
        if exists|i: int| 0 <= i < span.len() && (#[trigger] span[i]).task_id == Some(id) {
            let i = choose|i: int| 0 <= i < span.len() && (#[trigger] span[i]).task_id == Some(id);
            if i < front.len() {
                assert(front[i] == span[i]);
            }
        }
    }
}

/// How many revisions of a span are by an actor.
pub open spec fn made_by(span: Seq<RevisionView>, actor_id: Uuid) -> nat {
    span.filter(|r: RevisionView| r.actor_id == actor_id).len()
}

/// Everybody who made a revision is credited, with the number they made, and
/// nobody else is.
pub proof fn everybody_is_credited_with_their_revisions(span: Seq<RevisionView>, actor_id: Uuid)
    requires
        span.len() < u64::MAX,
    ensures
        match found::<ActorCount>(counts_of(span), actor_id) {
            Some(c) => c.actor_id == actor_id && c.revisions == made_by(span, actor_id)
                && made_by(span, actor_id) > 0,
            None => made_by(span, actor_id) == 0,
        },
        made_by(span, actor_id) <= span.len(),
    decreases span.len(),
{
    reveal(Seq::filter);
    if span.len() > 0 {
        let front = span.drop_last();
        let before = counts_of(front);
        let who = span.last().actor_id;
        everybody_is_credited_with_their_revisions(front, actor_id);
        everybody_is_credited_with_their_revisions(front, who);
        let c = ActorCount {
            actor_id: who,
            revisions: match found::<ActorCount>(before, who) {
                Some(c) => (c.revisions + 1) as u64,
                None => 1,
            },
        };
        stored_is_found::<ActorCount>(before, c, actor_id);
    }
}

/// A contributor's address is the one they gave, and none where they gave none.
pub proof fn no_address_is_made_up(s: StoreView, i: int)
    requires
        0 <= i < contributors_of(s).len(),
    ensures
        ({
            let c = contributors_of(s)[i];
            let a = found::<ActorRecord>(s.actors, c.actor_id);
            &&& c.email is Some == (a is Some && !is_blank(a->0.git_email))
            &&& c.email is Some ==> c.email->0 == a->0.git_email
            &&& a is Some ==> c.display_name == a->0.display_name
            &&& contributors_of(s).len() == counts_of(covered(s)).len()
            &&& c.actor_id == counts_of(covered(s))[i].actor_id
            &&& c.revisions == counts_of(covered(s))[i].revisions
        }),
{
    let c = contributors_of(s)[i];
    if let Some(a) = found::<ActorRecord>(s.actors, c.actor_id) {
        trimming_takes_blanks_only(a.git_email);
    }
}

/// A preparation is of the newest revision, on the commit published last or the
/// one the session began on.
pub proof fn a_preparation_follows_the_last_publication(
    h: HostView,
    b: BarrierView,
    now_ms: i64,
    fresh: Uuid,
)
    ensures
        ({
            let p = preparation_of(h, b, now_ms, fresh);
            &&& p.prepare_id == fresh
            &&& p.status == PrepareStatus::Prepared
            &&& p.target_revision == h.store.log.len() as u64
            &&& p.requesting_actor == b.requester_actor
            &&& h.store.publications.len() == 0 ==> p.parent_commit_oid == h.session.base_commit
                && p.previous_published_revision == 0
            &&& h.store.publications.len() > 0 ==> p.parent_commit_oid
                == h.store.publications.last().descriptor.commit_oid && p.previous_published_revision
                == h.store.publications.last().descriptor.target_revision
            &&& p.included_task_ids == tasks_of(covered(h.store))
            &&& p.unassigned_revisions == unassigned_of(covered(h.store))
            &&& sorted(p.touched_paths)
        }),
{
    sorting_keeps_every_string(all_touched(prepared_tasks(h.store, tasks_of(covered(h.store)))));
}

/// A publication is prepared exactly when no participant said it was not ready,
/// no conflict is open, and no active task contributed, unless that was allowed.
pub proof fn a_publication_is_prepared_when_nothing_stands_in_the_way(h: HostView, b: BarrierView)
    ensures
        (preparation_fault(h, b) is None) == {
            &&& forall|i: int|
                0 <= i < b.peers.len() ==> !((#[trigger] b.peers[i]).ready matches Some((ok, _))
                    && !ok)
            &&& forall|i: int|
                0 <= i < h.store.conflicts.len() ==> (#[trigger] h.store.conflicts[i]).status
                    != ConflictStatus::Open
            &&& b.allow_active_tasks || forall|i: int|
                0 <= i < h.store.tasks.len() && (#[trigger] h.store.tasks[i]).status
                    == TaskStatus::Active ==> revisions_of(
                    covered(h.store),
                    h.store.tasks[i].id,
                ).len() == 0
        },
        preparation_fault(h, b) matches Some(e) ==> e.class == ErrorClass::ConflictError,
{
    lemma_unready(h, b.peers);
    let isopen = |c: crate::model::ConflictView| c.status == ConflictStatus::Open;
    let conflicts = h.store.conflicts;
    if open_of(conflicts).len() > 0 {
        conflicts.lemma_filter_pred(isopen, 0);
        conflicts.lemma_filter_contains_rev(isopen, open_of(conflicts)[0]);
        let i = choose|i: int| 0 <= i < conflicts.len() && conflicts[i] == open_of(conflicts)[0];
        assert(conflicts[i].status == ConflictStatus::Open);
    } else {
        assert forall|i: int| 0 <= i < conflicts.len() implies (#[trigger] conflicts[i]).status
            != ConflictStatus::Open by {
            if conflicts[i].status == ConflictStatus::Open {
                conflicts.lemma_filter_contains(isopen, i);
            }
        }
    }
    let isactive = |t: TaskView| t.status == TaskStatus::Active;
    let tasks = h.store.tasks;
    let active = active_of(tasks);
    lemma_blocking(h, active);
    if forall|i: int| 0 <= i < active.len() ==> revisions_of(covered(h.store), (#[trigger] active[i]).id).len()
        == 0 {
        assert forall|i: int|
            0 <= i < tasks.len() && (#[trigger] tasks[i]).status == TaskStatus::Active implies revisions_of(
            covered(h.store),
            tasks[i].id,
        ).len() == 0 by {
            tasks.lemma_filter_contains(isactive, i);
            let k = choose|k: int| 0 <= k < active.len() && active[k] == tasks[i];
            assert(revisions_of(covered(h.store), active[k].id).len() == 0);
        }
    } else {
        let k = choose|k: int|
            0 <= k < active.len() && revisions_of(covered(h.store), (#[trigger] active[k]).id).len()
                != 0;
        tasks.lemma_filter_pred(isactive, k);
        tasks.lemma_filter_contains_rev(isactive, active[k]);
        let i = choose|i: int| 0 <= i < tasks.len() && tasks[i] == active[k];
        assert(tasks[i].status == TaskStatus::Active);
    }
}

proof fn lemma_blocking(h: HostView, tasks: Seq<TaskView>)
    ensures
        (blocking_task(h, tasks) is None) == forall|i: int|
            0 <= i < tasks.len() ==> revisions_of(covered(h.store), (#[trigger] tasks[i]).id).len()
                == 0,
        blocking_task(h, tasks) matches Some(e) ==> e.class == ErrorClass::ConflictError,
    decreases tasks.len(),
{
    if tasks.len() > 0 {
        let rest = tasks.drop_first();
        lemma_blocking(h, rest);
        if forall|i: int| 0 <= i < tasks.len() ==> revisions_of(covered(h.store), (#[trigger] tasks[i]).id).len()
            == 0 {
            assert(revisions_of(covered(h.store), tasks[0].id).len() == 0);
            assert forall|i: int| 0 <= i < rest.len() implies revisions_of(
                covered(h.store),
                (#[trigger] rest[i]).id,
            ).len() == 0 by {
                assert(rest[i] == tasks[i + 1]);
            }
        } else {
            let k = choose|k: int|
                0 <= k < tasks.len() && revisions_of(covered(h.store), (#[trigger] tasks[k]).id).len()
                    != 0;
            if k > 0 {
                assert(rest[k - 1] == tasks[k]);
            }
        }
    }
}

proof fn lemma_unready(h: HostView, peers: Seq<BarrierPeerView>)
    ensures
        (unready_peers(h, peers).len() == 0) == forall|i: int|
            0 <= i < peers.len() ==> !((#[trigger] peers[i]).ready matches Some((ok, _)) && !ok),
    decreases peers.len(),
{
    if peers.len() > 0 {
        let front = peers.drop_last();
        lemma_unready(h, front);
        if forall|i: int| 0 <= i < peers.len() ==> !((#[trigger] peers[i]).ready matches Some((ok, _)) && !ok) {
            assert(!(peers[peers.len() - 1].ready matches Some((ok, _)) && !ok));
            assert forall|i: int| 0 <= i < front.len() implies !((#[trigger] front[i]).ready matches Some(
                (ok, _),
            ) && !ok) by {
                assert(front[i] == peers[i]);
            }
        } else {
            let k = choose|k: int|
                0 <= k < peers.len() && ((#[trigger] peers[k]).ready matches Some((ok, _)) && !ok);
            if k < front.len() {
                assert(front[k] == peers[k]);
            }
        }
    }
}

/// Who could not take part is named: everybody who said nothing, and everybody
/// who is known and not connected.
pub proof fn whoever_could_not_take_part_is_named(
    h: HostView,
    list: Seq<Seq<char>>,
    actors: Seq<ActorView>,
    name: Seq<char>,
)
    ensures
        with_absent(h, list, actors).contains(name) == (list.contains(name) || exists|i: int|
            0 <= i < actors.len() && (#[trigger] actors[i]).display_name == name && forall|k: int|
                0 <= k < h.conns.len() ==> (#[trigger] h.conns[k]).actor_id != Some(
                    actors[i].actor_id,
                )),
    decreases actors.len(),
{
    if actors.len() > 0 {
        let front = actors.drop_last();
        let a = actors.last();
        whoever_could_not_take_part_is_named(h, list, front, name);
        lemma_push_has(with_absent(h, list, front), a.display_name, name);
        assert(actors[actors.len() - 1] == a);
        if exists|i: int|
            0 <= i < front.len() && (#[trigger] front[i]).display_name == name && forall|k: int|
                0 <= k < h.conns.len() ==> (#[trigger] h.conns[k]).actor_id != Some(
                    front[i].actor_id,
                ) {
            let i = choose|i: int|
                0 <= i < front.len() && (#[trigger] front[i]).display_name == name && forall|k: int|
                    0 <= k < h.conns.len() ==> (#[trigger] h.conns[k]).actor_id != Some(
                        front[i].actor_id,
                    );
            assert(actors[i] == front[i]);
        }
        if exists|i: int|
            0 <= i < actors.len() && (#[trigger] actors[i]).display_name == name && forall|k: int|
                0 <= k < h.conns.len() ==> (#[trigger] h.conns[k]).actor_id != Some(
                    actors[i].actor_id,
                ) {
            let i = choose|i: int|
                0 <= i < actors.len() && (#[trigger] actors[i]).display_name == name && forall|k: int|
                    0 <= k < h.conns.len() ==> (#[trigger] h.conns[k]).actor_id != Some(
                        actors[i].actor_id,
                    );
            if i < front.len() {
                assert(front[i] == actors[i]);
            }
        }
    }
}

/// A barrier is started exactly when none is running and the session is live,
/// and asks everybody who is connected and known; otherwise the requester hears
/// why not.
pub proof fn a_barrier_asks_everybody(
    h: HostView,
    conn_id: u64,
    actor_id: Uuid,
    request_id: Uuid,
    allow: bool,
    now_ms: i64,
    fresh: Uuid,
)
    ensures
        ({
            let next = prepare_rule(h, conn_id, actor_id, request_id, allow, now_ms, fresh);
            let starts = h.barrier is None && h.state is Live;
            &&& next.outbox.len() == h.outbox.len() + 1
            &&& starts ==> {
                &&& next.barrier is Some
                &&& next.barrier->0.requester_conn == conn_id
                &&& next.barrier->0.requester_actor == actor_id
                &&& next.barrier->0.request_id == request_id
                &&& next.barrier->0.allow_active_tasks == allow
                &&& next.barrier->0.started_ms == now_ms
                &&& next.barrier->0.peers.len() == known_conns(h.conns).len()
                &&& forall|i: int|
                    0 <= i < next.barrier->0.peers.len() ==> (#[trigger] next.barrier->0.peers[i]).id
                        == known_conns(h.conns)[i] && next.barrier->0.peers[i].watermark is None
                        && next.barrier->0.peers[i].ready is None
                &&& next.outbox.last() == (EffectView::Send {
                    to: known_conns(h.conns),
                    message: HostMessageView::BarrierStart { barrier_id: next.barrier->0.barrier_id },
                })
            }
            &&& !starts ==> {
                &&& next.barrier == h.barrier
                &&& next.outbox.last() matches EffectView::Send { to, message } && to == seq![
                    conn_id,
                ] && message is PrepareResult
            }
            &&& next.store == h.store
        }),
{
}

/// Everybody who said hello is known by their connection, and nobody else.
pub proof fn whoever_said_hello_is_known(list: Seq<crate::host_rules::ConnView>, id: u64)
    ensures
        known_conns(list).contains(id) == exists|i: int|
            0 <= i < list.len() && (#[trigger] list[i]).id == id && list[i].actor_id is Some,
    decreases list.len(),
{
    if list.len() > 0 {
        let front = list.drop_last();
        whoever_said_hello_is_known(front, id);
        lemma_push_has(known_conns(front), list.last().id, id);
        assert(list[list.len() - 1] == list.last());
        if exists|i: int| 0 <= i < front.len() && (#[trigger] front[i]).id == id && front[i].actor_id is Some {
            let i = choose|i: int|
                0 <= i < front.len() && (#[trigger] front[i]).id == id && front[i].actor_id is Some;
            assert(list[i] == front[i]);
        }
        if exists|i: int| 0 <= i < list.len() && (#[trigger] list[i]).id == id && list[i].actor_id is Some {
            let i = choose|i: int|
                0 <= i < list.len() && (#[trigger] list[i]).id == id && list[i].actor_id is Some;
            if i < front.len() {
                assert(front[i] == list[i]);
            }
        }
    }
}

// ---------------------------------------------------------------------------
// What a preparation says
// ---------------------------------------------------------------------------

proof fn lemma_union(list: Seq<Seq<char>>, more: Seq<Seq<char>>, path: Seq<char>)
    ensures
        union(list, more).contains(path) == (list.contains(path) || more.contains(path)),
    decreases more.len(),
{
    if more.len() > 0 {
        let front = more.drop_last();
        lemma_union(list, front, path);
        assert(more =~= front.push(more.last()));
        crate::text::lemma_push_contains(front, more.last(), path);
        crate::text::lemma_push_contains(union(list, front), more.last(), path);
    }
}

proof fn lemma_all_touched(tasks: Seq<PreparedTaskView>, path: Seq<char>)
    ensures
        all_touched(tasks).contains(path) == exists|i: int|
            0 <= i < tasks.len() && (#[trigger] tasks[i]).touched_paths.contains(path),
    decreases tasks.len(),
{
    if tasks.len() > 0 {
        let front = tasks.drop_last();
        let last = tasks[tasks.len() - 1];
        lemma_all_touched(front, path);
        lemma_union(all_touched(front), last.touched_paths, path);
        if all_touched(front).contains(path) {
            let i = choose|i: int|
                0 <= i < front.len() && (#[trigger] front[i]).touched_paths.contains(path);
            assert(tasks[i] == front[i]);
        }
        if exists|i: int|
            0 <= i < tasks.len() && (#[trigger] tasks[i]).touched_paths.contains(path) {
            let i = choose|i: int|
                0 <= i < tasks.len() && (#[trigger] tasks[i]).touched_paths.contains(path);
            if i < front.len() {
                assert(front[i] == tasks[i]);
            }
        }
    }
}

/// A preparation lists a path as touched exactly when one of its tasks touched
/// it, and says what changed since the last publication.
pub proof fn a_preparation_lists_what_was_touched(
    h: HostView,
    b: BarrierView,
    now_ms: i64,
    fresh: Uuid,
    path: Seq<char>,
)
    ensures
        ({
            let p = preparation_of(h, b, now_ms, fresh);
            let before = h.store.at(previous_revision(h.store));
            let after = h.store.at(h.store.revision());
            &&& p.touched_paths.contains(path) == exists|i: int|
                0 <= i < p.included_tasks.len() && (
                #[trigger] p.included_tasks[i]).touched_paths.contains(path)
            &&& p.diff_summary == diff_of(before, after)
            &&& p.diff_summary.added.contains(path) == (row_of(after, path) is Some && row_of(
                before,
                path,
            ) is None)
            &&& p.diff_summary.deleted.contains(path) == (row_of(before, path) is Some && row_of(
                after,
                path,
            ) is None)
            &&& p.created_at_ms == now_ms
        }),
{
    let p = preparation_of(h, b, now_ms, fresh);
    lemma_all_touched(p.included_tasks, path);
    sorting_keeps_every_string(all_touched(p.included_tasks));
    assert(p.touched_paths.contains(path) == all_touched(p.included_tasks).contains(path));
    crate::publish_rules::a_diff_is_complete(
        h.store.at(previous_revision(h.store)),
        h.store.at(h.store.revision()),
        path,
    );
}

/// Every task that is included is described as it is, with its own revisions.
pub proof fn an_included_task_is_described(s: StoreView, ids: Seq<Uuid>, i: int)
    requires
        0 <= i < ids.len(),
        found::<Task>(s.tasks, ids[i]) is Some,
    ensures
        exists|k: int|
            {
                let t = found::<Task>(s.tasks, ids[i])->0;
                &&& 0 <= k < prepared_tasks(s, ids).len()
                &&& (#[trigger] prepared_tasks(s, ids)[k]).id == t.id
                &&& prepared_tasks(s, ids)[k].description == t.description
                &&& prepared_tasks(s, ids)[k].status == t.status
                &&& prepared_tasks(s, ids)[k].actor_id == t.actor_id
                &&& prepared_tasks(s, ids)[k].touched_paths == t.touched_paths
                &&& prepared_tasks(s, ids)[k].revisions == revisions_of(covered(s), ids[i])
            },
    decreases ids.len(),
{
    let front = ids.drop_last();
    let before = prepared_tasks(s, front);
    let all = prepared_tasks(s, ids);
    let t = found::<Task>(s.tasks, ids[i])->0;
    if i < front.len() {
        assert(front[i] == ids[i]);
        an_included_task_is_described(s, front, i);
        let k = choose|k: int|
            {
                &&& 0 <= k < before.len()
                &&& (#[trigger] before[k]).id == t.id
                &&& before[k].description == t.description
                &&& before[k].status == t.status
                &&& before[k].actor_id == t.actor_id
                &&& before[k].touched_paths == t.touched_paths
                &&& before[k].revisions == revisions_of(covered(s), ids[i])
            };
        assert(all[k] == before[k]);
    } else {
        let k = before.len() as int;
        assert(all[k].id == t.id);
    }
}

/// A publication is recorded as the next one, for its commit, and not pushed yet.
pub proof fn a_publication_is_recorded_as_the_next(
    h: HostView,
    d: DescriptorView,
    commit_oid: Seq<char>,
    now_ms: i64,
)
    requires
        ascending(h.store.publications),
        h.store.latest() is Some ==> h.store.latest()->0.sequence < u64::MAX,
    ensures
        ({
            let (next, p) = record_rule(h, d, commit_oid, now_ms);
            &&& p.descriptor.commit_oid == commit_oid
            &&& p.descriptor.tree_oid == d.tree_oid
            &&& p.descriptor.parent_commit_oid == d.parent_commit_oid
            &&& p.descriptor.message == d.message
            &&& p.descriptor.target_revision == d.target_revision
            &&& p.descriptor.prepare_id == d.prepare_id
            &&& h.store.latest() is None ==> p.sequence == 1
            &&& h.store.latest() is Some ==> p.sequence == h.store.latest()->0.sequence + 1
            &&& p.push_status == PushStatus::NotAttempted
            &&& p.push_error is None
            &&& p.created_at_ms == now_ms
            &&& next.store.publications.contains(p)
            &&& next.store.log == h.store.log
        }),
{
    let (next, p) = record_rule(h, d, commit_oid, now_ms);
    filed_is_found(h.store.publications, p);
    lemma_found_is_listed(next.store.publications, p.sequence as u128);
}

proof fn lemma_found_is_listed(list: Seq<PublicationView>, key: Uuid)
    ensures
        found::<GitPublication>(list, key) matches Some(p) ==> list.contains(p),
{
    crate::store_host::lemma_index_of::<GitPublication>(list, key);
}

/// A preparation names everybody whose work it may lack: whoever gave no answer,
/// and whoever is known and not connected.
pub proof fn a_preparation_names_whoever_is_missing(
    h: HostView,
    b: BarrierView,
    now_ms: i64,
    fresh: Uuid,
    i: int,
)
    ensures
        0 <= i < b.peers.len() && b.peers[i].ready is None ==> preparation_of(
            h,
            b,
            now_ms,
            fresh,
        ).disconnected_participants.contains(conn_name(h, b.peers[i].id)),
        0 <= i < h.store.actors.len() && (forall|k: int|
            0 <= k < h.conns.len() ==> (#[trigger] h.conns[k]).actor_id != Some(
                h.store.actors[i].actor_id,
            )) ==> preparation_of(h, b, now_ms, fresh).disconnected_participants.contains(
            h.store.actors[i].display_name,
        ),
{
    let silent = silent_peers(h, b.peers);
    if 0 <= i < b.peers.len() && b.peers[i].ready is None {
        let name = conn_name(h, b.peers[i].id);
        crate::coordination_laws::whoever_holds_up_a_barrier_is_named(h, b.peers, name);
        whoever_could_not_take_part_is_named(h, silent, h.store.actors, name);
    }
    if 0 <= i < h.store.actors.len() {
        let name = h.store.actors[i].display_name;
        whoever_could_not_take_part_is_named(h, silent, h.store.actors, name);
    }
}

} // verus!
