//! What commands print for people, line by line.

use vstd::prelude::*;

use crate::client_ipc::{ConflictDetail, DetailView, Overlap, OverlapView, Status, StatusView};
use crate::model::{
    CommitPreparation, Conflict, ConflictStatus, ConflictView, Contributor, ContributorView,
    GitPublication, PeerInfo, PeerView, PreparationView, PublicationView, PushStatus, ScopeView,
    SyncState, SyncView, Task, TaskScope, TaskStatus, TaskView,
};
use crate::path::RepoPath;
use crate::scan::{RejectedPath, RejectedView};
use crate::text::{
    chars_of, decimal, decimal_text, lemma_texts_push, opt_view, text_of, texts, views,
};
use crate::util::{
    fmt_revision, oid_head, revision_form, short_form, short_id, short_oid, uuid_form, uuid_text,
    Uuid,
};

verus! {

// ---------------------------------------------------------------------------
// Lines
// ---------------------------------------------------------------------------

fn say(lines: &mut Vec<String>, line: String)
    ensures
        texts(final(lines)@) == texts(old(lines)@).push(line@),
{
    let ghost before = lines@;
    lines.push(line);
    proof {
        lemma_texts_push(before, line);
    }
}

fn tell(lines: &mut Vec<String>, line: &str)
    ensures
        texts(final(lines)@) == texts(old(lines)@).push(line@),
{
    say(lines, line.to_owned());
}

fn extend(lines: &mut Vec<String>, more: Vec<String>)
    ensures
        texts(final(lines)@) == texts(old(lines)@) + texts(more@),
{
    let ghost before = lines@;
    let ghost added = more@;
    let mut more = more;
    lines.append(&mut more);
    proof {
        assert(texts(lines@) =~= texts(before) + texts(added));
    }
}

fn with(start: &str, end: &str) -> (s: String)
    ensures
        s@ == start@ + end@,
{
    let mut s = start.to_owned();
    s.push_str(end);
    s
}

fn between(start: &str, middle: &str, end: &str) -> (s: String)
    ensures
        s@ == start@ + middle@ + end@,
{
    let mut s = start.to_owned();
    s.push_str(middle);
    s.push_str(end);
    s
}

pub open spec fn plural_form(count: nat, singular: Seq<char>) -> Seq<char> {
    if count == 1 {
        decimal(count) + " "@ + singular
    } else {
        decimal(count) + " "@ + singular + "s"@
    }
}

pub fn plural(count: u64, singular: &str) -> (s: String)
    ensures
        s@ == plural_form(count as nat, singular@),
{
    let mut s = decimal_text(count);
    s.push_str(" ");
    s.push_str(singular);
    if count != 1 {
        s.push_str("s");
    }
    s
}

/// A text filled up with blanks to a width.
pub open spec fn padded(s: Seq<char>, width: nat) -> Seq<char>
    decreases width - s.len(),
{
    if s.len() < width {
        padded(s.push(' '), width)
    } else {
        s
    }
}

fn pad(s: &str, width: usize) -> (t: String)
    ensures
        t@ == padded(s@, width as nat),
{
    let mut n: usize = chars_of(s).len();
    let mut t = s.to_owned();
    while n < width
        invariant
            n == t@.len(),
            padded(t@, width as nat) == padded(s@, width as nat),
        decreases width - n,
    {
        t.push(' ');
        n = n + 1;
    }
    t
}

// ---------------------------------------------------------------------------
// Status
// ---------------------------------------------------------------------------

pub open spec fn status_head(repository: Seq<char>, s: StatusView) -> Seq<Seq<char>> {
    seq![
        "Weave — "@ + repository,
        ""@,
        "Role: "@ + s.role.name(),
        "Host: "@ + s.host,
        ""@,
        "Branch: "@ + s.branch,
        ""@,
    ]
}

pub open spec fn status_publication(p: Option<PublicationView>) -> Seq<Seq<char>> {
    match p {
        None => seq!["Git publication:\n(none yet)"@],
        Some(p) => {
            let lines = seq![
                "Git publication:"@,
                oid_head(p.descriptor.commit_oid),
                "Revision: "@ + revision_form(p.descriptor.target_revision),
            ];
            if p.push_status == PushStatus::Pushed {
                lines
            } else {
                let told = lines.push("Push: "@ + p.push_status.name());
                match p.push_error {
                    Some(e) => told.push(e),
                    None => told,
                }
            }
        },
    }
}

pub open spec fn status_live(s: StatusView) -> Seq<Seq<char>> {
    seq![
        ""@,
        "Live:"@,
        revision_form(s.live_revision),
        plural_form(s.revisions_ahead as nat, "revision"@) + " ahead"@,
        ""@,
        "State:"@,
        cut(s.state, 16),
        ""@,
        "Connection:"@,
        if s.connected {
            "online"@
        } else {
            "offline"@
        },
    ]
}

/// At most the first `n` characters.
pub open spec fn cut(s: Seq<char>, n: nat) -> Seq<char> {
    if s.len() <= n {
        s
    } else {
        s.take(n as int)
    }
}

fn cut_text(s: &str, n: usize) -> (t: String)
    ensures
        t@ == cut(s@, n as nat),
{
    let chars = chars_of(s);
    let end = if chars.len() <= n {
        chars.len()
    } else {
        n
    };
    let t = text_of(&chars, 0, end);
    proof {
        assert(t@ =~= cut(s@, n as nat));
    }
    t
}

pub open spec fn status_sync(s: SyncView) -> Seq<Seq<char>> {
    match s {
        SyncView::Live => Seq::empty(),
        SyncView::Paused { reason, detail } => seq![""@, reason, ""@, detail],
        SyncView::Degraded { reason } => seq![""@, reason],
    }
}

pub open spec fn participant_line(p: PeerView) -> Seq<char> {
    (if p.online {
        "\u{2713}"@
    } else {
        "\u{00b7}"@
    }) + " "@ + p.display_name
}

pub open spec fn status_participants(list: Seq<PeerView>) -> Seq<Seq<char>> {
    seq![""@, "Participants:"@] + (if list.len() == 0 {
        seq!["(none)"@]
    } else {
        list.map_values(|p: PeerView| participant_line(p))
    })
}

pub open spec fn task_line(t: TaskView) -> Seq<char> {
    short_form('T', t.id) + " — "@ + t.description
}

pub open spec fn status_work(s: StatusView) -> Seq<Seq<char>> {
    seq![
        ""@,
        "Active Task:"@,
        match s.active_task {
            Some(t) => task_line(t),
            None => "(none)"@,
        },
        ""@,
        "Outbox:"@,
        decimal(s.outbox_pending) + " pending"@,
        ""@,
        "Conflicts:"@,
        decimal(s.conflicts_open),
    ]
}

pub open spec fn rejected_line(r: RejectedView) -> Seq<char> {
    "  "@ + r.path + " — "@ + r.reason
}

/// At most the first ten paths that are not synchronized.
pub open spec fn status_rejected(list: Seq<RejectedView>) -> Seq<Seq<char>> {
    if list.len() == 0 {
        Seq::empty()
    } else {
        let shown = if list.len() <= 10 {
            list
        } else {
            list.take(10)
        };
        seq![""@, "Not synchronized:"@] + shown.map_values(|r: RejectedView| rejected_line(r))
    }
}

/// The newest notices first, at most five.
pub open spec fn newest_notices(list: Seq<Seq<char>>, n: nat) -> Seq<Seq<char>>
    decreases n,
{
    if n == 0 || list.len() == 0 {
        Seq::empty()
    } else {
        seq!["  "@ + list.last()] + newest_notices(list.drop_last(), (n - 1) as nat)
    }
}

pub open spec fn status_notices(list: Seq<Seq<char>>) -> Seq<Seq<char>> {
    if list.len() == 0 {
        Seq::empty()
    } else {
        seq![""@, "Notices:"@] + newest_notices(list, 5)
    }
}

pub open spec fn status_lines(repository: Seq<char>, s: StatusView) -> Seq<Seq<char>> {
    status_head(repository, s) + status_publication(s.publication) + status_live(s) + status_sync(
        s.sync_state,
    ) + status_participants(s.participants) + status_work(s) + status_rejected(s.rejected_paths)
        + status_notices(s.notices)
}

fn show_head(repository: &str, s: &Status) -> (lines: Vec<String>)
    ensures
        texts(lines@) == status_head(repository@, s@),
{
    let mut lines: Vec<String> = Vec::new();
    say(&mut lines, with("Weave — ", repository));
    tell(&mut lines, "");
    say(&mut lines, with("Role: ", s.role.as_str()));
    say(&mut lines, with("Host: ", s.host.as_str()));
    tell(&mut lines, "");
    say(&mut lines, with("Branch: ", s.branch.as_str()));
    tell(&mut lines, "");
    proof {
        assert(texts(lines@) =~= status_head(repository@, s@));
    }
    lines
}

fn show_publication(p: &Option<GitPublication>) -> (lines: Vec<String>)
    ensures
        texts(lines@) == status_publication(opt_view(*p)),
{
    let mut lines: Vec<String> = Vec::new();
    match p {
        None => {
            tell(&mut lines, "Git publication:\n(none yet)");
        },
        Some(p) => {
            tell(&mut lines, "Git publication:");
            say(&mut lines, short_oid(p.descriptor.commit_oid.as_str()));
            say(
                &mut lines,
                with("Revision: ", fmt_revision(p.descriptor.target_revision).as_str()),
            );
            if p.push_status != PushStatus::Pushed {
                say(&mut lines, with("Push: ", p.push_status.as_str()));
                match &p.push_error {
                    Some(e) => {
                        tell(&mut lines, e.as_str());
                    },
                    None => {},
                }
            }
        },
    }
    proof {
        assert(texts(lines@) =~= status_publication(opt_view(*p)));
    }
    lines
}

fn show_live(s: &Status) -> (lines: Vec<String>)
    ensures
        texts(lines@) == status_live(s@),
{
    let mut lines: Vec<String> = Vec::new();
    tell(&mut lines, "");
    tell(&mut lines, "Live:");
    say(&mut lines, fmt_revision(s.live_revision));
    say(&mut lines, with(plural(s.revisions_ahead, "revision").as_str(), " ahead"));
    tell(&mut lines, "");
    tell(&mut lines, "State:");
    say(&mut lines, cut_text(s.state.as_str(), 16));
    tell(&mut lines, "");
    tell(&mut lines, "Connection:");
    if s.connected {
        tell(&mut lines, "online");
    } else {
        tell(&mut lines, "offline");
    }
    proof {
        assert(texts(lines@) =~= status_live(s@));
    }
    lines
}

fn show_sync(s: &SyncState) -> (lines: Vec<String>)
    ensures
        texts(lines@) == status_sync(s@),
{
    let mut lines: Vec<String> = Vec::new();
    match s {
        SyncState::Live => {},
        SyncState::Paused { reason, detail } => {
            tell(&mut lines, "");
            tell(&mut lines, reason.as_str());
            tell(&mut lines, "");
            tell(&mut lines, detail.as_str());
        },
        SyncState::Degraded { reason } => {
            tell(&mut lines, "");
            tell(&mut lines, reason.as_str());
        },
    }
    proof {
        assert(texts(lines@) =~= status_sync(s@));
    }
    lines
}

fn show_participants(list: &Vec<PeerInfo>) -> (lines: Vec<String>)
    ensures
        texts(lines@) == status_participants(views(list@)),
{
    let mut lines: Vec<String> = Vec::new();
    tell(&mut lines, "");
    tell(&mut lines, "Participants:");
    let ghost start = texts(lines@);
    let ghost all = views(list@).map_values(|p: PeerView| participant_line(p));
    proof {
        assert(start =~= seq![""@, "Participants:"@]);
    }
    if list.len() == 0 {
        tell(&mut lines, "(none)");
        proof {
            assert(texts(lines@) =~= start + seq!["(none)"@]);
        }
        return lines;
    }
    let mut i: usize = 0;
    proof {
        assert(texts(lines@) =~= start + all.take(0));
    }
    while i < list.len()
        invariant
            all == views(list@).map_values(|p: PeerView| participant_line(p)),
            i <= list@.len(),
            texts(lines@) == start + all.take(i as int),
        decreases list@.len() - i,
    {
        let mut line = (if list[i].online {
            "\u{2713}"
        } else {
            "\u{00b7}"
        }).to_owned();
        line.push_str(" ");
        line.push_str(list[i].display_name.as_str());
        proof {
            assert(line@ == all[i as int]);
            assert((start + all.take(i as int)).push(line@) =~= start + all.take(i + 1));
        }
        say(&mut lines, line);
        i = i + 1;
    }
    proof {
        assert(all.take(i as int) =~= all);
    }
    lines
}

fn line_of_task(t: &Task) -> (s: String)
    ensures
        s@ == task_line(t@),
{
    let mut s = t.short_id();
    s.push_str(" — ");
    s.push_str(t.description.as_str());
    s
}

fn show_work(s: &Status) -> (lines: Vec<String>)
    ensures
        texts(lines@) == status_work(s@),
{
    let mut lines: Vec<String> = Vec::new();
    tell(&mut lines, "");
    tell(&mut lines, "Active Task:");
    match &s.active_task {
        Some(t) => {
            say(&mut lines, line_of_task(t));
        },
        None => {
            tell(&mut lines, "(none)");
        },
    }
    tell(&mut lines, "");
    tell(&mut lines, "Outbox:");
    say(&mut lines, with(decimal_text(s.outbox_pending as u64).as_str(), " pending"));
    tell(&mut lines, "");
    tell(&mut lines, "Conflicts:");
    say(&mut lines, decimal_text(s.conflicts_open as u64));
    proof {
        assert(texts(lines@) =~= status_work(s@));
    }
    lines
}

fn show_rejected(list: &Vec<RejectedPath>) -> (lines: Vec<String>)
    ensures
        texts(lines@) == status_rejected(views(list@)),
{
    let mut lines: Vec<String> = Vec::new();
    if list.len() == 0 {
        proof {
            assert(texts(lines@) =~= Seq::<Seq<char>>::empty());
        }
        return lines;
    }
    tell(&mut lines, "");
    tell(&mut lines, "Not synchronized:");
    let ghost start = texts(lines@);
    let ghost shown = if list@.len() <= 10 {
        views(list@)
    } else {
        views(list@).take(10)
    };
    let ghost all = shown.map_values(|r: RejectedView| rejected_line(r));
    let mut i: usize = 0;
    proof {
        assert(start =~= seq![""@, "Not synchronized:"@]);
        assert(texts(lines@) =~= start + all.take(0));
    }
    while i < list.len() && i < 10
        invariant
            shown == (if list@.len() <= 10 {
                views(list@)
            } else {
                views(list@).take(10)
            }),
            all == shown.map_values(|r: RejectedView| rejected_line(r)),
            i <= list@.len(),
            i <= 10,
            texts(lines@) == start + all.take(i as int),
        decreases list@.len() - i,
    {
        let mut line = "  ".to_owned();
        line.push_str(list[i].path.as_str());
        line.push_str(" — ");
        line.push_str(list[i].reason.as_str());
        proof {
            assert(shown[i as int] == list@[i as int]@);
            assert(line@ == all[i as int]);
            assert((start + all.take(i as int)).push(line@) =~= start + all.take(i + 1));
        }
        say(&mut lines, line);
        i = i + 1;
    }
    proof {
        assert(all.take(i as int) =~= all);
    }
    lines
}

fn show_notices(list: &Vec<String>) -> (lines: Vec<String>)
    ensures
        texts(lines@) == status_notices(texts(list@)),
{
    let mut lines: Vec<String> = Vec::new();
    if list.len() == 0 {
        proof {
            assert(texts(lines@) =~= Seq::<Seq<char>>::empty());
        }
        return lines;
    }
    tell(&mut lines, "");
    tell(&mut lines, "Notices:");
    let ghost start = texts(lines@);
    let ghost all = texts(list@);
    let mut i: usize = list.len();
    let mut left: usize = 5;
    proof {
        assert(start =~= seq![""@, "Notices:"@]);
        assert(all.take(i as int) =~= all);
    }
    while i > 0 && left > 0
        invariant
            all == texts(list@),
            i <= list@.len(),
            left <= 5,
            texts(lines@) + newest_notices(all.take(i as int), left as nat) == start
                + newest_notices(all, 5),
        decreases left,
    {
        let ghost before = texts(lines@);
        proof {
            assert(all.take(i as int).last() == list@[i - 1]@);
            assert(all.take(i as int).drop_last() =~= all.take(i - 1));
            let rest = newest_notices(all.take(i - 1), (left - 1) as nat);
            assert(before + (seq!["  "@ + list@[i - 1]@] + rest) =~= before.push(
                "  "@ + list@[i - 1]@,
            ) + rest);
        }
        say(&mut lines, with("  ", list[i - 1].as_str()));
        i = i - 1;
        left = left - 1;
    }
    proof {
        assert(newest_notices(all.take(i as int), left as nat) =~= Seq::<Seq<char>>::empty());
        assert(texts(lines@) + Seq::<Seq<char>>::empty() =~= texts(lines@));
    }
    lines
}

/// What `weave status` prints.
pub fn status(repository: &str, s: &Status) -> (lines: Vec<String>)
    ensures
        texts(lines@) == status_lines(repository@, s@),
{
    let mut lines = show_head(repository, s);
    extend(&mut lines, show_publication(&s.publication));
    extend(&mut lines, show_live(s));
    extend(&mut lines, show_sync(&s.sync_state));
    extend(&mut lines, show_participants(&s.participants));
    extend(&mut lines, show_work(s));
    extend(&mut lines, show_rejected(&s.rejected_paths));
    extend(&mut lines, show_notices(&s.notices));
    lines
}

// ---------------------------------------------------------------------------
// Participants and invites
// ---------------------------------------------------------------------------

pub open spec fn peer_lines(p: PeerView) -> Seq<Seq<char>> {
    let line = (if p.online {
        "online "@
    } else {
        "offline"@
    }) + "  "@ + padded(p.display_name, 20) + " "@ + padded(p.role.name(), 12) + " "@
        + revision_form(p.last_known_revision);
    match p.active_task_description {
        Some(t) => seq![line, "         Task: "@ + t],
        None => seq![line],
    }
}

pub open spec fn all_peer_lines(list: Seq<PeerView>) -> Seq<Seq<char>>
    decreases list.len(),
{
    if list.len() == 0 {
        Seq::empty()
    } else {
        all_peer_lines(list.drop_last()) + peer_lines(list.last())
    }
}

fn show_peer(p: &PeerInfo) -> (lines: Vec<String>)
    ensures
        texts(lines@) == peer_lines(p@),
{
    let mut lines: Vec<String> = Vec::new();
    let mut line = (if p.online {
        "online "
    } else {
        "offline"
    }).to_owned();
    line.push_str("  ");
    line.push_str(pad(p.display_name.as_str(), 20).as_str());
    line.push_str(" ");
    line.push_str(pad(p.role.as_str(), 12).as_str());
    line.push_str(" ");
    line.push_str(fmt_revision(p.last_known_revision).as_str());
    say(&mut lines, line);
    match &p.active_task_description {
        Some(t) => {
            say(&mut lines, with("         Task: ", t.as_str()));
        },
        None => {},
    }
    proof {
        assert(texts(lines@) =~= peer_lines(p@));
    }
    lines
}

/// What `weave peers` prints.
pub fn peers(list: &Vec<PeerInfo>) -> (lines: Vec<String>)
    ensures
        texts(lines@) == if list@.len() == 0 {
            seq!["(no participants)"@]
        } else {
            all_peer_lines(views(list@))
        },
{
    let mut lines: Vec<String> = Vec::new();
    if list.len() == 0 {
        tell(&mut lines, "(no participants)");
        proof {
            assert(texts(lines@) =~= seq!["(no participants)"@]);
        }
        return lines;
    }
    let ghost all = views(list@);
    let mut i: usize = 0;
    proof {
        assert(texts(lines@) =~= all_peer_lines(all.take(0)));
    }
    while i < list.len()
        invariant
            all == views(list@),
            i <= list@.len(),
            texts(lines@) == all_peer_lines(all.take(i as int)),
        decreases list@.len() - i,
    {
        proof {
            assert(all.take(i + 1).drop_last() =~= all.take(i as int));
            assert(all.take(i + 1).last() == list@[i as int]@);
        }
        extend(&mut lines, show_peer(&list[i]));
        i = i + 1;
    }
    proof {
        assert(all.take(i as int) =~= all);
    }
    lines
}

pub open spec fn invite_lines(invite: Seq<char>, endpoint: Seq<char>) -> Seq<Seq<char>> {
    seq![
        "Weave invite:"@,
        ""@,
        invite,
        ""@,
        "Endpoint: "@ + endpoint,
        ""@,
        "The invite grants full read/write access to this session."@,
        "Send it over a channel you trust."@,
    ]
}

/// What `weave invite` prints.
pub fn invite(text: &str, endpoint: &str) -> (lines: Vec<String>)
    ensures
        texts(lines@) == invite_lines(text@, endpoint@),
{
    let mut lines: Vec<String> = Vec::new();
    tell(&mut lines, "Weave invite:");
    tell(&mut lines, "");
    tell(&mut lines, text);
    tell(&mut lines, "");
    say(&mut lines, with("Endpoint: ", endpoint));
    tell(&mut lines, "");
    tell(&mut lines, "The invite grants full read/write access to this session.");
    tell(&mut lines, "Send it over a channel you trust.");
    proof {
        assert(texts(lines@) =~= invite_lines(text@, endpoint@));
    }
    lines
}

// ---------------------------------------------------------------------------
// Tasks
// ---------------------------------------------------------------------------

pub open spec fn scope_lines(list: Seq<ScopeView>) -> Seq<Seq<char>> {
    list.map_values(|s: ScopeView| "      "@ + s.form())
}

pub open spec fn active_lines(list: Seq<TaskView>) -> Seq<Seq<char>>
    decreases list.len(),
{
    if list.len() == 0 {
        Seq::empty()
    } else {
        let before = active_lines(list.drop_last());
        let t = list.last();
        if t.status == TaskStatus::Active {
            before.push("  "@ + task_line(t)) + scope_lines(t.scopes)
        } else {
            before
        }
    }
}

pub open spec fn task_list_lines(list: Seq<TaskView>) -> Seq<Seq<char>> {
    let active = crate::client_ipc::count_active(list);
    let head = if active == 0 {
        seq![""@, "No active Tasks."@]
    } else {
        seq![""@, "Active Tasks:"@] + active_lines(list)
    };
    if list.len() > active {
        head + seq![
            ""@,
            decimal((list.len() - active) as nat) + " completed or cancelled Task(s)."@,
        ]
    } else {
        head
    }
}

fn show_scopes(list: &Vec<TaskScope>) -> (lines: Vec<String>)
    ensures
        texts(lines@) == scope_lines(views(list@)),
{
    let mut lines: Vec<String> = Vec::new();
    let mut i: usize = 0;
    while i < list.len()
        invariant
            i <= list@.len(),
            lines@.len() == i,
            forall|k: int| 0 <= k < i ==> (#[trigger] lines@[k])@ == "      "@ + list@[k]@.form(),
        decreases list@.len() - i,
    {
        lines.push(with("      ", list[i].display().as_str()));
        i = i + 1;
    }
    proof {
        assert(texts(lines@) =~= scope_lines(views(list@)));
    }
    lines
}

fn show_active(list: &Vec<Task>) -> (lines: Vec<String>)
    ensures
        texts(lines@) == active_lines(views(list@)),
{
    let mut lines: Vec<String> = Vec::new();
    let ghost all = views(list@);
    let mut i: usize = 0;
    proof {
        assert(texts(lines@) =~= active_lines(all.take(0)));
    }
    while i < list.len()
        invariant
            all == views(list@),
            i <= list@.len(),
            texts(lines@) == active_lines(all.take(i as int)),
        decreases list@.len() - i,
    {
        proof {
            assert(all.take(i + 1).drop_last() =~= all.take(i as int));
            assert(all.take(i + 1).last() == list@[i as int]@);
        }
        if list[i].status == TaskStatus::Active {
            say(&mut lines, with("  ", line_of_task(&list[i]).as_str()));
            extend(&mut lines, show_scopes(&list[i].scopes));
        }
        i = i + 1;
    }
    proof {
        assert(all.take(i as int) =~= all);
    }
    lines
}

/// What `weave task list` prints.
pub fn task_list(list: &Vec<Task>) -> (lines: Vec<String>)
    ensures
        texts(lines@) == task_list_lines(views(list@)),
{
    let active = crate::client_ipc::active_tasks(list);
    let mut lines: Vec<String> = Vec::new();
    tell(&mut lines, "");
    if active == 0 {
        tell(&mut lines, "No active Tasks.");
        proof {
            assert(texts(lines@) =~= seq![""@, "No active Tasks."@]);
        }
    } else {
        tell(&mut lines, "Active Tasks:");
        proof {
            assert(texts(lines@) =~= seq![""@, "Active Tasks:"@]);
        }
        extend(&mut lines, show_active(list));
    }
    if list.len() > active {
        let ghost head = texts(lines@);
        let done: u64 = (list.len() - active) as u64;
        tell(&mut lines, "");
        say(&mut lines, with(decimal_text(done).as_str(), " completed or cancelled Task(s)."));
        proof {
            assert(texts(lines@) =~= head + seq![
                ""@,
                decimal(done as nat) + " completed or cancelled Task(s)."@,
            ]);
        }
    }
    lines
}

pub open spec fn started_lines(active: Option<Uuid>, list: Seq<TaskView>) -> Seq<Seq<char>> {
    seq![
        match active {
            Some(id) => "Task started: "@ + short_form('T', id),
            None => "Task started."@,
        },
    ] + task_list_lines(list)
}

/// What `weave task start` prints.
pub fn task_started(active: Option<Uuid>, list: &Vec<Task>) -> (lines: Vec<String>)
    ensures
        texts(lines@) == started_lines(active, views(list@)),
{
    let mut lines: Vec<String> = Vec::new();
    match active {
        Some(id) => {
            say(&mut lines, with("Task started: ", short_id('T', id).as_str()));
        },
        None => {
            tell(&mut lines, "Task started.");
        },
    }
    proof {
        assert(texts(lines@) =~= seq![
            match active {
                Some(id) => "Task started: "@ + short_form('T', id),
                None => "Task started."@,
            },
        ]);
    }
    extend(&mut lines, task_list(list));
    lines
}

pub open spec fn indented(list: Seq<Seq<char>>) -> Seq<Seq<char>> {
    list.map_values(|s: Seq<char>| "  "@ + s)
}

pub open spec fn titled(title: Seq<char>, list: Seq<Seq<char>>) -> Seq<Seq<char>> {
    if list.len() == 0 {
        Seq::empty()
    } else {
        seq![""@, title] + indented(list)
    }
}

pub open spec fn overlap_lines(o: OverlapView) -> Seq<Seq<char>> {
    seq![""@, o.short_id + " — "@ + o.description, ""@, "Scope:"@] + o.scopes
}

pub open spec fn all_overlap_lines(list: Seq<OverlapView>) -> Seq<Seq<char>>
    decreases list.len(),
{
    if list.len() == 0 {
        Seq::empty()
    } else {
        all_overlap_lines(list.drop_last()) + overlap_lines(list.last())
    }
}

pub open spec fn overlap_section(list: Seq<OverlapView>) -> Seq<Seq<char>> {
    if list.len() == 0 {
        Seq::empty()
    } else {
        seq![""@, "Potential overlap"@] + all_overlap_lines(list) + seq![
            ""@,
            "A Task scope is advisory. It does not prevent anyone from editing."@,
        ]
    }
}

pub open spec fn scope_paths(list: Seq<ScopeView>) -> Seq<Seq<char>> {
    list.map_values(|s: ScopeView| s.path)
}

pub open spec fn task_show_lines(t: TaskView, overlaps: Seq<OverlapView>) -> Seq<Seq<char>> {
    seq![task_line(t), "Status: "@ + t.status.name()] + titled("Scope:"@, scope_paths(t.scopes))
        + titled("Touched paths:"@, t.touched_paths) + overlap_section(overlaps)
}

fn show_titled(title: &str, list: &Vec<String>) -> (lines: Vec<String>)
    ensures
        texts(lines@) == titled(title@, texts(list@)),
{
    let mut lines: Vec<String> = Vec::new();
    proof {
        assert(texts(list@).len() == list@.len());
    }
    if list.len() == 0 {
        proof {
            assert(texts(lines@) =~= Seq::<Seq<char>>::empty());
        }
        return lines;
    }
    tell(&mut lines, "");
    tell(&mut lines, title);
    let ghost start = texts(lines@);
    let ghost all = indented(texts(list@));
    let mut i: usize = 0;
    proof {
        assert(start =~= seq![""@, title@]);
        assert(texts(lines@) =~= start + all.take(0));
    }
    while i < list.len()
        invariant
            all == indented(texts(list@)),
            i <= list@.len(),
            texts(lines@) == start + all.take(i as int),
        decreases list@.len() - i,
    {
        let line = with("  ", list[i].as_str());
        proof {
            assert(line@ == all[i as int]);
            assert((start + all.take(i as int)).push(line@) =~= start + all.take(i + 1));
        }
        say(&mut lines, line);
        i = i + 1;
    }
    proof {
        assert(all.take(i as int) =~= all);
    }
    lines
}

fn path_texts(list: &Vec<RepoPath>) -> (out: Vec<String>)
    ensures
        texts(out@) == views(list@),
{
    let mut out: Vec<String> = Vec::new();
    let mut i: usize = 0;
    while i < list.len()
        invariant
            i <= list@.len(),
            out@.len() == i,
            forall|k: int| 0 <= k < i ==> (#[trigger] out@[k])@ == list@[k]@,
        decreases list@.len() - i,
    {
        out.push(list[i].as_str().to_owned());
        i = i + 1;
    }
    proof {
        assert(texts(out@) =~= views(list@));
    }
    out
}

fn scope_path_texts(list: &Vec<TaskScope>) -> (out: Vec<String>)
    ensures
        texts(out@) == scope_paths(views(list@)),
{
    let mut out: Vec<String> = Vec::new();
    let mut i: usize = 0;
    while i < list.len()
        invariant
            i <= list@.len(),
            out@.len() == i,
            forall|k: int| 0 <= k < i ==> (#[trigger] out@[k])@ == list@[k]@.path,
        decreases list@.len() - i,
    {
        out.push(list[i].path.as_str().to_owned());
        i = i + 1;
    }
    proof {
        assert(texts(out@) =~= scope_paths(views(list@)));
    }
    out
}

fn show_overlaps(list: &Vec<Overlap>) -> (lines: Vec<String>)
    ensures
        texts(lines@) == overlap_section(views(list@)),
{
    let mut lines: Vec<String> = Vec::new();
    if list.len() == 0 {
        proof {
            assert(texts(lines@) =~= Seq::<Seq<char>>::empty());
        }
        return lines;
    }
    tell(&mut lines, "");
    tell(&mut lines, "Potential overlap");
    let ghost start = texts(lines@);
    let ghost all = views(list@);
    let mut i: usize = 0;
    proof {
        assert(start =~= seq![""@, "Potential overlap"@]);
        assert(texts(lines@) =~= start + all_overlap_lines(all.take(0)));
    }
    while i < list.len()
        invariant
            all == views(list@),
            i <= list@.len(),
            texts(lines@) == start + all_overlap_lines(all.take(i as int)),
        decreases list@.len() - i,
    {
        let ghost before = texts(lines@);
        let ghost sofar = all_overlap_lines(all.take(i as int));
        proof {
            assert(all.take(i + 1).drop_last() =~= all.take(i as int));
            assert(all.take(i + 1).last() == list@[i as int]@);
        }
        let o = &list[i];
        let mut more: Vec<String> = Vec::new();
        tell(&mut more, "");
        say(&mut more, between(o.short_id.as_str(), " — ", o.description.as_str()));
        tell(&mut more, "");
        tell(&mut more, "Scope:");
        proof {
            assert(texts(more@) =~= seq![
                ""@,
                o@.short_id + " — "@ + o@.description,
                ""@,
                "Scope:"@,
            ]);
        }
        extend(&mut more, crate::model::copy_texts(&o.scopes));
        proof {
            assert(texts(more@) == overlap_lines(o@));
            assert(before + texts(more@) =~= start + (sofar + texts(more@)));
        }
        extend(&mut lines, more);
        i = i + 1;
    }
    proof {
        assert(all.take(i as int) =~= all);
    }
    let ghost head = texts(lines@);
    tell(&mut lines, "");
    tell(&mut lines, "A Task scope is advisory. It does not prevent anyone from editing.");
    proof {
        assert(texts(lines@) =~= head + seq![
            ""@,
            "A Task scope is advisory. It does not prevent anyone from editing."@,
        ]);
    }
    lines
}

/// What `weave task show` prints.
pub fn task_show(t: &Task, overlaps: &Vec<Overlap>) -> (lines: Vec<String>)
    ensures
        texts(lines@) == task_show_lines(t@, views(overlaps@)),
{
    let mut lines: Vec<String> = Vec::new();
    say(&mut lines, line_of_task(t));
    say(&mut lines, with("Status: ", t.status.as_str()));
    proof {
        assert(texts(lines@) =~= seq![task_line(t@), "Status: "@ + t@.status.name()]);
    }
    let scopes = scope_path_texts(&t.scopes);
    extend(&mut lines, show_titled("Scope:", &scopes));
    let touched = path_texts(&t.touched_paths);
    extend(&mut lines, show_titled("Touched paths:", &touched));
    extend(&mut lines, show_overlaps(overlaps));
    lines
}

// ---------------------------------------------------------------------------
// Conflicts
// ---------------------------------------------------------------------------

pub open spec fn open_lines(list: Seq<ConflictView>) -> Seq<Seq<char>>
    decreases list.len(),
{
    if list.len() == 0 {
        Seq::empty()
    } else {
        let before = open_lines(list.drop_last());
        let c = list.last();
        if c.status == ConflictStatus::Open {
            before.push(short_form('C', c.id) + "  "@ + c.kind.name() + "  "@ + c.path)
        } else {
            before
        }
    }
}

pub open spec fn conflict_list_lines(list: Seq<ConflictView>) -> Seq<Seq<char>> {
    let open = crate::client_ipc::count_open(list);
    let head = if open == 0 {
        seq!["No open conflicts."@]
    } else {
        open_lines(list) + seq![""@, "Run `weave conflict show <id>` for candidate content."@]
    };
    if list.len() > open {
        head + seq![
            ""@,
            decimal((list.len() - open) as nat) + " resolved or dismissed conflict(s)."@,
        ]
    } else {
        head
    }
}

fn show_open(list: &Vec<Conflict>) -> (lines: Vec<String>)
    ensures
        texts(lines@) == open_lines(views(list@)),
{
    let mut lines: Vec<String> = Vec::new();
    let ghost all = views(list@);
    let mut i: usize = 0;
    proof {
        assert(texts(lines@) =~= open_lines(all.take(0)));
    }
    while i < list.len()
        invariant
            all == views(list@),
            i <= list@.len(),
            texts(lines@) == open_lines(all.take(i as int)),
        decreases list@.len() - i,
    {
        proof {
            assert(all.take(i + 1).drop_last() =~= all.take(i as int));
            assert(all.take(i + 1).last() == list@[i as int]@);
        }
        if list[i].status == ConflictStatus::Open {
            let mut line = list[i].short_id();
            line.push_str("  ");
            line.push_str(list[i].kind.as_str());
            line.push_str("  ");
            line.push_str(list[i].path.as_str());
            say(&mut lines, line);
        }
        i = i + 1;
    }
    proof {
        assert(all.take(i as int) =~= all);
    }
    lines
}

/// What `weave conflict list` prints.
pub fn conflict_list(list: &Vec<Conflict>) -> (lines: Vec<String>)
    ensures
        texts(lines@) == conflict_list_lines(views(list@)),
{
    let open = crate::client_ipc::open_conflicts(list);
    let mut lines: Vec<String> = Vec::new();
    if open == 0 {
        tell(&mut lines, "No open conflicts.");
        proof {
            assert(texts(lines@) =~= seq!["No open conflicts."@]);
        }
    } else {
        lines = show_open(list);
        let ghost head = texts(lines@);
        tell(&mut lines, "");
        tell(&mut lines, "Run `weave conflict show <id>` for candidate content.");
        proof {
            assert(texts(lines@) =~= head + seq![
                ""@,
                "Run `weave conflict show <id>` for candidate content."@,
            ]);
        }
    }
    if list.len() > open {
        let ghost head = texts(lines@);
        let closed: u64 = (list.len() - open) as u64;
        tell(&mut lines, "");
        say(&mut lines, with(decimal_text(closed).as_str(), " resolved or dismissed conflict(s)."));
        proof {
            assert(texts(lines@) =~= head + seq![
                ""@,
                decimal(closed as nat) + " resolved or dismissed conflict(s)."@,
            ]);
        }
    }
    lines
}

/// A candidate that was written out, under its label.
#[derive(Debug)]
pub struct CandidateFile {
    pub label: String,
    pub path: String,
}

pub open spec fn candidate_line(c: CandidateFile) -> Seq<char> {
    "  "@ + padded(c.label@, 10) + " "@ + c.path@
}

pub open spec fn candidate_lines(files: Seq<CandidateFile>) -> Seq<Seq<char>> {
    if files.len() == 0 {
        Seq::empty()
    } else {
        seq![""@, "Candidate content:"@] + files.map_values(|c: CandidateFile| candidate_line(c))
    }
}

pub open spec fn conflict_show_lines(
    d: DetailView,
    files: Seq<CandidateFile>,
    working: Seq<char>,
) -> Seq<Seq<char>> {
    let head = seq![
        "Conflict "@ + d.short_id,
        ""@,
        d.conflict.path,
        ""@,
        d.kind_description,
        "No work was discarded."@,
        ""@,
    ];
    let from = match d.incoming_actor {
        Some(a) => head.push("Incoming from: "@ + a),
        None => head,
    };
    let task = match d.incoming_task {
        Some(t) => from.push("Task: "@ + t.description),
        None => from,
    };
    task + candidate_lines(files) + seq![
        ""@,
        "Working file: "@ + working,
        ""@,
        "Edit the working file to one coherent result, then run:"@,
        "  weave conflict resolve "@ + d.short_id,
    ]
}

fn show_candidates(files: &Vec<CandidateFile>) -> (lines: Vec<String>)
    ensures
        texts(lines@) == candidate_lines(files@),
{
    let mut lines: Vec<String> = Vec::new();
    if files.len() == 0 {
        proof {
            assert(texts(lines@) =~= Seq::<Seq<char>>::empty());
        }
        return lines;
    }
    tell(&mut lines, "");
    tell(&mut lines, "Candidate content:");
    let ghost start = texts(lines@);
    let ghost all = files@.map_values(|c: CandidateFile| candidate_line(c));
    let mut i: usize = 0;
    proof {
        assert(start =~= seq![""@, "Candidate content:"@]);
        assert(texts(lines@) =~= start + all.take(0));
    }
    while i < files.len()
        invariant
            all == files@.map_values(|c: CandidateFile| candidate_line(c)),
            i <= files@.len(),
            texts(lines@) == start + all.take(i as int),
        decreases files@.len() - i,
    {
        let mut line = "  ".to_owned();
        line.push_str(pad(files[i].label.as_str(), 10).as_str());
        line.push_str(" ");
        line.push_str(files[i].path.as_str());
        proof {
            assert(line@ == all[i as int]);
            assert((start + all.take(i as int)).push(line@) =~= start + all.take(i + 1));
        }
        say(&mut lines, line);
        i = i + 1;
    }
    proof {
        assert(all.take(i as int) =~= all);
    }
    lines
}

/// What `weave conflict show` prints.
pub fn conflict_show(d: &ConflictDetail, files: &Vec<CandidateFile>, working: &str) -> (lines: Vec<
    String,
>)
    ensures
        texts(lines@) == conflict_show_lines(d@, files@, working@),
{
    let mut lines: Vec<String> = Vec::new();
    say(&mut lines, with("Conflict ", d.short_id.as_str()));
    tell(&mut lines, "");
    tell(&mut lines, d.conflict.path.as_str());
    tell(&mut lines, "");
    tell(&mut lines, d.kind_description.as_str());
    tell(&mut lines, "No work was discarded.");
    tell(&mut lines, "");
    proof {
        assert(texts(lines@) =~= seq![
            "Conflict "@ + d@.short_id,
            ""@,
            d@.conflict.path,
            ""@,
            d@.kind_description,
            "No work was discarded."@,
            ""@,
        ]);
    }
    match &d.incoming_actor {
        Some(a) => {
            say(&mut lines, with("Incoming from: ", a.as_str()));
        },
        None => {},
    }
    match &d.incoming_task {
        Some(t) => {
            say(&mut lines, with("Task: ", t.description.as_str()));
        },
        None => {},
    }
    extend(&mut lines, show_candidates(files));
    let ghost head = texts(lines@);
    tell(&mut lines, "");
    say(&mut lines, with("Working file: ", working));
    tell(&mut lines, "");
    tell(&mut lines, "Edit the working file to one coherent result, then run:");
    say(&mut lines, with("  weave conflict resolve ", d.short_id.as_str()));
    proof {
        assert(texts(lines@) =~= head + seq![
            ""@,
            "Working file: "@ + working@,
            ""@,
            "Edit the working file to one coherent result, then run:"@,
            "  weave conflict resolve "@ + d@.short_id,
        ]);
    }
    lines
}

// ---------------------------------------------------------------------------
// Publications
// ---------------------------------------------------------------------------

pub open spec fn prepare_head(p: PreparationView) -> Seq<Seq<char>> {
    seq![
        "Prepare:"@,
        short_form('P', p.prepare_id),
        ""@,
        "Target revision:"@,
        revision_form(p.target_revision),
        ""@,
        "Parent Git commit:"@,
        oid_head(p.parent_commit_oid),
        ""@,
        "Changes since "@ + revision_form(p.previous_published_revision) + ": "@ + decimal(
            p.diff_summary.added.len(),
        ) + " added, "@ + decimal(p.diff_summary.modified.len()) + " modified, "@ + decimal(
            p.diff_summary.deleted.len(),
        ) + " deleted"@,
    ]
}

pub open spec fn contributor_line(c: ContributorView) -> Seq<char> {
    "  "@ + c.display_name + " ("@ + plural_form(c.revisions as nat, "revision"@) + ")"@
}

pub open spec fn contributor_section(list: Seq<ContributorView>) -> Seq<Seq<char>> {
    if list.len() == 0 {
        Seq::empty()
    } else {
        seq![""@, "Contributors:"@] + list.map_values(|c: ContributorView| contributor_line(c))
    }
}

pub open spec fn unassigned_section(n: nat) -> Seq<Seq<char>> {
    if n == 0 {
        Seq::empty()
    } else {
        seq![""@, plural_form(n, "revision"@) + " not associated with a Task."@]
    }
}

pub open spec fn disconnected_section(n: nat) -> Seq<Seq<char>> {
    if n == 0 {
        Seq::empty()
    } else {
        seq![
            ""@,
            plural_form(n, "participant is"@) + " disconnected."@,
            "Unsynchronized local work on those machines cannot be included."@,
        ]
    }
}

pub open spec fn prepare_lines(p: PreparationView) -> Seq<Seq<char>> {
    prepare_head(p) + contributor_section(p.contributors) + unassigned_section(
        p.unassigned_revisions.len(),
    ) + disconnected_section(p.disconnected_participants.len()) + seq![
        ""@,
        "Create the Git publication with:"@,
        "  weave commit create "@ + uuid_form(p.prepare_id) + " --message \"...\""@,
    ]
}

fn show_prepare_head(p: &CommitPreparation) -> (lines: Vec<String>)
    ensures
        texts(lines@) == prepare_head(p@),
{
    let mut lines: Vec<String> = Vec::new();
    tell(&mut lines, "Prepare:");
    say(&mut lines, p.short_id());
    tell(&mut lines, "");
    tell(&mut lines, "Target revision:");
    say(&mut lines, fmt_revision(p.target_revision));
    tell(&mut lines, "");
    tell(&mut lines, "Parent Git commit:");
    say(&mut lines, short_oid(p.parent_commit_oid.as_str()));
    tell(&mut lines, "");
    let mut line = "Changes since ".to_owned();
    line.push_str(fmt_revision(p.previous_published_revision).as_str());
    line.push_str(": ");
    line.push_str(decimal_text(p.diff_summary.added.len() as u64).as_str());
    line.push_str(" added, ");
    line.push_str(decimal_text(p.diff_summary.modified.len() as u64).as_str());
    line.push_str(" modified, ");
    line.push_str(decimal_text(p.diff_summary.deleted.len() as u64).as_str());
    line.push_str(" deleted");
    say(&mut lines, line);
    proof {
        assert(texts(lines@) =~= prepare_head(p@));
    }
    lines
}

fn show_contributors(list: &Vec<Contributor>) -> (lines: Vec<String>)
    ensures
        texts(lines@) == contributor_section(views(list@)),
{
    let mut lines: Vec<String> = Vec::new();
    if list.len() == 0 {
        proof {
            assert(texts(lines@) =~= Seq::<Seq<char>>::empty());
        }
        return lines;
    }
    tell(&mut lines, "");
    tell(&mut lines, "Contributors:");
    let ghost start = texts(lines@);
    let ghost all = views(list@).map_values(|c: ContributorView| contributor_line(c));
    let mut i: usize = 0;
    proof {
        assert(start =~= seq![""@, "Contributors:"@]);
        assert(texts(lines@) =~= start + all.take(0));
    }
    while i < list.len()
        invariant
            all == views(list@).map_values(|c: ContributorView| contributor_line(c)),
            i <= list@.len(),
            texts(lines@) == start + all.take(i as int),
        decreases list@.len() - i,
    {
        let mut line = "  ".to_owned();
        line.push_str(list[i].display_name.as_str());
        line.push_str(" (");
        line.push_str(plural(list[i].revisions, "revision").as_str());
        line.push_str(")");
        proof {
            assert(line@ == all[i as int]);
            assert((start + all.take(i as int)).push(line@) =~= start + all.take(i + 1));
        }
        say(&mut lines, line);
        i = i + 1;
    }
    proof {
        assert(all.take(i as int) =~= all);
    }
    lines
}

fn show_unassigned(n: usize) -> (lines: Vec<String>)
    ensures
        texts(lines@) == unassigned_section(n as nat),
{
    let mut lines: Vec<String> = Vec::new();
    if n > 0 {
        tell(&mut lines, "");
        say(
            &mut lines,
            with(plural(n as u64, "revision").as_str(), " not associated with a Task."),
        );
    }
    proof {
        assert(texts(lines@) =~= unassigned_section(n as nat));
    }
    lines
}

fn show_disconnected(n: usize) -> (lines: Vec<String>)
    ensures
        texts(lines@) == disconnected_section(n as nat),
{
    let mut lines: Vec<String> = Vec::new();
    if n > 0 {
        tell(&mut lines, "");
        say(&mut lines, with(plural(n as u64, "participant is").as_str(), " disconnected."));
        tell(&mut lines, "Unsynchronized local work on those machines cannot be included.");
    }
    proof {
        assert(texts(lines@) =~= disconnected_section(n as nat));
    }
    lines
}

/// What `weave commit prepare` prints.
pub fn prepare(p: &CommitPreparation) -> (lines: Vec<String>)
    ensures
        texts(lines@) == prepare_lines(p@),
{
    let mut lines = show_prepare_head(p);
    extend(&mut lines, show_contributors(&p.contributors));
    extend(&mut lines, show_unassigned(p.unassigned_revisions.len()));
    extend(&mut lines, show_disconnected(p.disconnected_participants.len()));
    let ghost head = texts(lines@);
    tell(&mut lines, "");
    tell(&mut lines, "Create the Git publication with:");
    say(
        &mut lines,
        between("  weave commit create ", uuid_text(p.prepare_id).as_str(), " --message \"...\""),
    );
    proof {
        assert(texts(lines@) =~= head + seq![
            ""@,
            "Create the Git publication with:"@,
            "  weave commit create "@ + uuid_form(p@.prepare_id) + " --message \"...\""@,
        ]);
    }
    lines
}

pub open spec fn push_lines(status: PushStatus, error: Option<Seq<char>>) -> Seq<Seq<char>> {
    match status {
        PushStatus::Pushed => seq!["Pushed to the remote."@],
        PushStatus::NoUpstream => seq![
            "No upstream remote is configured; nothing was pushed."@,
        ],
        PushStatus::NotAttempted => seq!["Push was not attempted."@],
        _ => {
            let head = seq!["Remote push failed: "@ + status.name()];
            let why = match error {
                Some(e) => head + seq![""@, e],
                None => head,
            };
            why + seq![""@, "Live collaboration continues."@, "Run:"@, "weave push"@]
        },
    }
}

pub open spec fn publication_lines(p: PublicationView) -> Seq<Seq<char>> {
    seq![
        "Commit created:"@,
        oid_head(p.descriptor.commit_oid),
        ""@,
        "Revision: "@ + revision_form(p.descriptor.target_revision),
        "Branch:   "@ + p.descriptor.branch,
        ""@,
    ] + push_lines(p.push_status, p.push_error)
}

fn show_push(status: PushStatus, error: &Option<String>) -> (lines: Vec<String>)
    ensures
        texts(lines@) == push_lines(status, opt_view(*error)),
{
    let mut lines: Vec<String> = Vec::new();
    match status {
        PushStatus::Pushed => {
            tell(&mut lines, "Pushed to the remote.");
        },
        PushStatus::NoUpstream => {
            tell(&mut lines, "No upstream remote is configured; nothing was pushed.");
        },
        PushStatus::NotAttempted => {
            tell(&mut lines, "Push was not attempted.");
        },
        _ => {
            say(&mut lines, with("Remote push failed: ", status.as_str()));
            match error {
                Some(e) => {
                    tell(&mut lines, "");
                    tell(&mut lines, e.as_str());
                },
                None => {},
            }
            tell(&mut lines, "");
            tell(&mut lines, "Live collaboration continues.");
            tell(&mut lines, "Run:");
            tell(&mut lines, "weave push");
        },
    }
    proof {
        assert(texts(lines@) =~= push_lines(status, opt_view(*error)));
    }
    lines
}

/// What `weave commit create` prints.
pub fn publication(p: &GitPublication) -> (lines: Vec<String>)
    ensures
        texts(lines@) == publication_lines(p@),
{
    let mut lines: Vec<String> = Vec::new();
    tell(&mut lines, "Commit created:");
    say(&mut lines, short_oid(p.descriptor.commit_oid.as_str()));
    tell(&mut lines, "");
    say(&mut lines, with("Revision: ", fmt_revision(p.descriptor.target_revision).as_str()));
    say(&mut lines, with("Branch:   ", p.descriptor.branch.as_str()));
    tell(&mut lines, "");
    proof {
        assert(texts(lines@) =~= seq![
            "Commit created:"@,
            oid_head(p@.descriptor.commit_oid),
            ""@,
            "Revision: "@ + revision_form(p@.descriptor.target_revision),
            "Branch:   "@ + p@.descriptor.branch,
            ""@,
        ]);
    }
    extend(&mut lines, show_push(p.push_status, &p.push_error));
    lines
}

} // verus!
