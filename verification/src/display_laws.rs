//! What a person is shown, and what their commands ask for.

use vstd::prelude::*;

use crate::cli::{
    plan_of, wants_json, Command, CommitCommand, ConflictCommand, Plan, Show, TaskCommand,
};
use crate::client_ipc::{count_active, count_open, StatusView};
use crate::ipc::IpcCommand;
use crate::model::{
    ConflictStatus, ConflictView, PeerView, PublicationView, PushStatus, SyncView, TaskStatus,
    TaskView,
};
use crate::render::{
    active_lines, all_peer_lines, conflict_list_lines, newest_notices, open_lines, padded,
    peer_lines, plural_form, publication_lines, push_lines, rejected_line, status_live,
    status_participants, status_publication, status_rejected, status_sync, status_work, task_line,
};
use crate::scan::RejectedView;
use crate::text::decimal;
use crate::util::{oid_head, revision_form, short_form};

verus! {

// ---------------------------------------------------------------------------
// Lines
// ---------------------------------------------------------------------------

proof fn lemma_sum(a: Seq<Seq<char>>, b: Seq<Seq<char>>, x: Seq<char>)
    ensures
        (a + b).contains(x) == (a.contains(x) || b.contains(x)),
{
    let all = a + b;
    if a.contains(x) {
        let i = choose|i: int| 0 <= i < a.len() && a[i] == x;
        assert(all[i] == x);
    }
    if b.contains(x) {
        let i = choose|i: int| 0 <= i < b.len() && b[i] == x;
        assert(all[a.len() + i] == x);
    }
    if all.contains(x) {
        let i = choose|i: int| 0 <= i < all.len() && all[i] == x;
        if i < a.len() {
            assert(a[i] == x);
        } else {
            assert(b[i - a.len()] == x);
        }
    }
}

/// A text is filled up with blanks to its width, and never cut.
pub proof fn a_text_is_filled_up_with_blanks(s: Seq<char>, width: nat)
    ensures
        padded(s, width).len() == if s.len() < width {
            width
        } else {
            s.len()
        },
        padded(s, width).take(s.len() as int) == s,
        forall|i: int| s.len() <= i < padded(s, width).len() ==> #[trigger] padded(s, width)[i] == ' ',
    decreases width - s.len(),
{
    if s.len() < width {
        a_text_is_filled_up_with_blanks(s.push(' '), width);
        let all = padded(s, width);
        assert(all.take(s.len() as int + 1) == s.push(' '));
        assert(all.take(s.len() as int) =~= all.take(s.len() as int + 1).take(s.len() as int));
        assert(s.push(' ').take(s.len() as int) =~= s);
        assert(all[s.len() as int] == all.take(s.len() as int + 1)[s.len() as int]);
    } else {
        assert(s.take(s.len() as int) =~= s);
    }
}

/// One thing is named in the singular, any other number in the plural.
pub proof fn a_count_has_its_number(count: nat, thing: Seq<char>)
    ensures
        count == 1 ==> plural_form(count, thing) == decimal(1) + " "@ + thing,
        count != 1 ==> plural_form(count, thing) == decimal(count) + " "@ + thing + "s"@,
{
}

// ---------------------------------------------------------------------------
// Publications
// ---------------------------------------------------------------------------

/// A push is shown as it went: only one that succeeded is said to have been
/// made, and one that failed is said to have failed, with its reason.
pub proof fn a_push_is_shown_as_it_went(status: PushStatus, error: Option<Seq<char>>)
    ensures
        push_lines(status, error).contains("Pushed to the remote."@) ==> status == PushStatus::Pushed
            || error == Some("Pushed to the remote."@),
        status == PushStatus::Pushed ==> push_lines(status, error) == seq!["Pushed to the remote."@],
        status == PushStatus::NoUpstream ==> push_lines(status, error) == seq![
            "No upstream remote is configured; nothing was pushed."@,
        ],
        status == PushStatus::Failed || status == PushStatus::Diverged ==> push_lines(
            status,
            error,
        )[0] == "Remote push failed: "@ + status.name(),
        (status == PushStatus::Failed || status == PushStatus::Diverged) && error is Some
            ==> push_lines(status, error).contains(error->0),
{
    reveal_strlit("Pushed to the remote.");
    reveal_strlit("No upstream remote is configured; nothing was pushed.");
    reveal_strlit("Push was not attempted.");
    reveal_strlit("Remote push failed: ");
    reveal_strlit("");
    reveal_strlit("Live collaboration continues.");
    reveal_strlit("Run:");
    reveal_strlit("weave push");
    let all = push_lines(status, error);
    let target = "Pushed to the remote."@;
    if status == PushStatus::Failed || status == PushStatus::Diverged {
        assert(all[0] == "Remote push failed: "@ + status.name());
        assert(all[0][0] == 'R');
        if error is Some {
            assert(all[2] == error->0);
        }
    }
    assert("No upstream remote is configured; nothing was pushed."@[0] == 'N');
    assert("Push was not attempted."@[4] == ' ');
    assert(target[4] == 'e');
    assert(target[0] == 'P');
    assert("Live collaboration continues."@[0] == 'L');
    assert("Run:"@[0] == 'R');
    assert("weave push"@[0] == 'w');
    assert(""@.len() == 0);
    if all.contains(target) {
        let i = choose|i: int| 0 <= i < all.len() && all[i] == target;
        if status == PushStatus::Failed || status == PushStatus::Diverged {
            if error is Some {
                assert(i == 0 || i == 1 || i == 2 || i == 3 || i == 4 || i == 5 || i == 6);
                assert(i == 2 ==> all[2] == error->0);
            } else {
                assert(i == 0 || i == 1 || i == 2 || i == 3 || i == 4);
            }
        }
    }
}

/// The last publication is shown by its commit and its revision, with what
/// became of its push unless that succeeded.
pub proof fn a_publication_is_shown_by_its_commit(p: PublicationView)
    ensures
        ({
            let lines = status_publication(Some(p));
            &&& lines.contains(oid_head(p.descriptor.commit_oid))
            &&& lines.contains("Revision: "@ + revision_form(p.descriptor.target_revision))
            &&& p.push_status == PushStatus::Pushed ==> lines.len() == 3
            &&& p.push_status != PushStatus::Pushed ==> lines.contains(
                "Push: "@ + p.push_status.name(),
            )
            &&& p.push_status != PushStatus::Pushed && p.push_error is Some ==> lines.contains(
                p.push_error->0,
            )
            &&& publication_lines(p).contains(oid_head(p.descriptor.commit_oid))
            &&& publication_lines(p).contains("Branch:   "@ + p.descriptor.branch)
        }),
{
    let lines = status_publication(Some(p));
    assert(lines[1] == oid_head(p.descriptor.commit_oid));
    assert(lines[2] == "Revision: "@ + revision_form(p.descriptor.target_revision));
    if p.push_status != PushStatus::Pushed {
        assert(lines[3] == "Push: "@ + p.push_status.name());
        if p.push_error is Some {
            assert(lines[4] == p.push_error->0);
        }
    }
    let told = publication_lines(p);
    assert(told[1] == oid_head(p.descriptor.commit_oid));
    assert(told[4] == "Branch:   "@ + p.descriptor.branch);
}

// ---------------------------------------------------------------------------
// Lists
// ---------------------------------------------------------------------------

/// As many tasks count as active, and as many conflicts as open, as there are.
pub proof fn what_is_open_is_counted(tasks: Seq<TaskView>, conflicts: Seq<ConflictView>)
    ensures
        count_active(tasks) == tasks.filter(|t: TaskView| t.status == TaskStatus::Active).len(),
        count_open(conflicts) == conflicts.filter(
            |c: ConflictView| c.status == ConflictStatus::Open,
        ).len(),
    decreases tasks.len() + conflicts.len(),
{
    reveal(Seq::filter);
    if tasks.len() > 0 {
        what_is_open_is_counted(tasks.drop_last(), conflicts);
    } else if conflicts.len() > 0 {
        what_is_open_is_counted(tasks, conflicts.drop_last());
    }
}

/// Every open conflict is listed, under its short identifier, with its kind and
/// path; a closed one is only counted.
pub proof fn an_open_conflict_is_listed(list: Seq<ConflictView>, i: int)
    requires
        0 <= i < list.len(),
    ensures
        list[i].status == ConflictStatus::Open ==> open_lines(list).contains(
            short_form('C', list[i].id) + "  "@ + list[i].kind.name() + "  "@ + list[i].path,
        ),
        list[i].status == ConflictStatus::Open ==> conflict_list_lines(list).contains(
            short_form('C', list[i].id) + "  "@ + list[i].kind.name() + "  "@ + list[i].path,
        ),
        open_lines(list).len() == count_open(list),
    decreases list.len(),
{
    let front = list.drop_last();
    let before = open_lines(front);
    let all = open_lines(list);
    let text = short_form('C', list[i].id) + "  "@ + list[i].kind.name() + "  "@ + list[i].path;
    lemma_open_count(list);
    if list[i].status == ConflictStatus::Open {
        if i < front.len() {
            an_open_conflict_is_listed(front, i);
            assert(front[i] == list[i]);
            let k = choose|k: int| 0 <= k < before.len() && before[k] == text;
            assert(all[k] == text);
        } else {
            assert(all[before.len() as int] == text);
        }
        let more = seq![""@, "Run `weave conflict show <id>` for candidate content."@];
        lemma_sum(all, more, text);
        lemma_sum(
            all + more,
            seq![
                ""@,
                decimal((list.len() - count_open(list)) as nat)
                    + " resolved or dismissed conflict(s)."@,
            ],
            text,
        );
        assert(count_open(list) > 0) by {
            assert(all.contains(text));
        }
    }
}

proof fn lemma_open_count(list: Seq<ConflictView>)
    ensures
        open_lines(list).len() == count_open(list),
    decreases list.len(),
{
    if list.len() > 0 {
        lemma_open_count(list.drop_last());
    }
}

/// Every active task is listed, under its short identifier, with its
/// description.
pub proof fn an_active_task_is_listed(list: Seq<TaskView>, i: int)
    requires
        0 <= i < list.len(),
        list[i].status == TaskStatus::Active,
    ensures
        active_lines(list).contains("  "@ + (short_form('T', list[i].id) + " — "@ + list[i].description)),
    decreases list.len(),
{
    let front = list.drop_last();
    let before = active_lines(front);
    let text = "  "@ + (short_form('T', list[i].id) + " — "@ + list[i].description);
    let t = list.last();
    if i < front.len() {
        an_active_task_is_listed(front, i);
        assert(front[i] == list[i]);
        if t.status == TaskStatus::Active {
            lemma_sum(before, seq!["  "@ + task_line(t)], text);
            assert(before + seq!["  "@ + task_line(t)] =~= before.push("  "@ + task_line(t)));
            lemma_sum(
                before.push("  "@ + task_line(t)),
                crate::render::scope_lines(t.scopes),
                text,
            );
        }
    } else {
        assert(before.push(text)[before.len() as int] == text);
        lemma_sum(before.push(text), crate::render::scope_lines(t.scopes), text);
    }
}

/// Everybody is listed, online or offline as they are, with their task.
pub proof fn everybody_is_listed(list: Seq<PeerView>, i: int)
    requires
        0 <= i < list.len(),
    ensures
        exists|k: int|
            0 <= k < all_peer_lines(list).len() && #[trigger] all_peer_lines(list)[k] == (
            if list[i].online {
                "online "@
            } else {
                "offline"@
            }) + "  "@ + padded(list[i].display_name, 20) + " "@ + padded(list[i].role.name(), 12)
                + " "@ + revision_form(list[i].last_known_revision),
        list[i].active_task_description is Some ==> all_peer_lines(list).contains(
            "         Task: "@ + list[i].active_task_description->0,
        ),
    decreases list.len(),
{
    let front = list.drop_last();
    let before = all_peer_lines(front);
    let own = peer_lines(list.last());
    let all = all_peer_lines(list);
    if i < front.len() {
        everybody_is_listed(front, i);
        assert(front[i] == list[i]);
        let k = choose|k: int|
            0 <= k < before.len() && #[trigger] before[k] == (if list[i].online {
                "online "@
            } else {
                "offline"@
            }) + "  "@ + padded(list[i].display_name, 20) + " "@ + padded(list[i].role.name(), 12)
                + " "@ + revision_form(list[i].last_known_revision);
        assert(all[k] == before[k]);
        if list[i].active_task_description is Some {
            lemma_sum(before, own, "         Task: "@ + list[i].active_task_description->0);
        }
    } else {
        assert(all[before.len() as int] == own[0]);
        if list[i].active_task_description is Some {
            assert(all[before.len() as int + 1] == own[1]);
        }
    }
}

// ---------------------------------------------------------------------------
// The status
// ---------------------------------------------------------------------------

/// The status says whether the replica is connected, how far it is, what is
/// wrong with it, what it works on and how much waits.
pub proof fn the_status_says_how_things_stand(s: StatusView)
    ensures
        status_live(s).last() == if s.connected {
            "online"@
        } else {
            "offline"@
        },
        status_live(s).contains(revision_form(s.live_revision)),
        s.sync_state is Live ==> status_sync(s.sync_state).len() == 0,
        s.sync_state matches SyncView::Paused { reason, detail } ==> status_sync(
            s.sync_state,
        ).contains(reason) && status_sync(s.sync_state).contains(detail),
        s.sync_state matches SyncView::Degraded { reason } ==> status_sync(s.sync_state).contains(
            reason,
        ),
        s.active_task is Some ==> status_work(s).contains(task_line(s.active_task->0)),
        status_work(s).contains(decimal(s.outbox_pending) + " pending"@),
        status_work(s).last() == decimal(s.conflicts_open),
{
    assert(status_live(s)[2] == revision_form(s.live_revision));
    match s.sync_state {
        SyncView::Paused { reason, detail } => {
            assert(status_sync(s.sync_state)[1] == reason);
            assert(status_sync(s.sync_state)[3] == detail);
        },
        SyncView::Degraded { reason } => {
            assert(status_sync(s.sync_state)[1] == reason);
        },
        _ => {},
    }
    if s.active_task is Some {
        assert(status_work(s)[2] == task_line(s.active_task->0));
    }
    assert(status_work(s)[5] == decimal(s.outbox_pending) + " pending"@);
}

/// The status names every participant, and the first ten files that are left
/// out.
pub proof fn the_status_names_everybody(
    peers: Seq<PeerView>,
    rejected: Seq<RejectedView>,
    i: int,
)
    ensures
        0 <= i < peers.len() ==> status_participants(peers)[i + 2] == (if peers[i].online {
            "\u{2713}"@
        } else {
            "\u{00b7}"@
        }) + " "@ + peers[i].display_name,
        status_participants(peers).len() == 2 + if peers.len() == 0 {
            1
        } else {
            peers.len()
        },
        0 <= i < rejected.len() && i < 10 ==> status_rejected(rejected)[i + 2] == rejected_line(
            rejected[i],
        ),
        rejected.len() == 0 ==> status_rejected(rejected).len() == 0,
{
}

/// The newest notices are shown, the newest first.
pub proof fn the_newest_notices_are_shown(list: Seq<Seq<char>>, n: nat, i: int)
    ensures
        newest_notices(list, n).len() == if list.len() < n {
            list.len()
        } else {
            n
        },
        0 <= i < newest_notices(list, n).len() ==> newest_notices(list, n)[i] == "  "@ + list[
            list.len() - 1 - i],
    decreases n,
{
    if n > 0 && list.len() > 0 {
        the_newest_notices_are_shown(list.drop_last(), (n - 1) as nat, i - 1);
    }
}

// ---------------------------------------------------------------------------
// Commands
// ---------------------------------------------------------------------------

/// A command is refused exactly when it should make a commit and says nothing of
/// it.
pub proof fn a_commit_needs_a_message(command: Command)
    ensures
        (plan_of(command) is None) == (command matches Command::Commit(CommitCommand::Create {
            message,
            message_stdin,
            ..
        }) && message is None && !message_stdin),
{
}

/// Whatever a command asks of the session is answered in the form it asked for.
pub proof fn an_answer_has_the_form_asked_for(command: Command)
    ensures
        plan_of(command) matches Some(Plan::Call { json, .. }) ==> json == wants_json(command),
        plan_of(command) matches Some(Plan::CreateFromStdin { json, .. }) ==> json == wants_json(
            command,
        ),
        command matches Command::Leave(a) ==> wants_json(command) == a.json,
        command matches Command::Stop(a) ==> wants_json(command) == a.json,
        command matches Command::Status(a) ==> wants_json(command) == a.json,
        command matches Command::Peers(a) ==> wants_json(command) == a.json,
        command matches Command::Push(a) ==> wants_json(command) == a.json,
        command matches Command::Rescan(a) ==> wants_json(command) == a.json,
        command matches Command::Invite(a) ==> wants_json(command) == a.json,
        command matches Command::Commit(CommitCommand::Create { json, .. }) ==> wants_json(command)
            == json,
        command matches Command::Commit(CommitCommand::Prepare { json, .. }) ==> wants_json(command)
            == json,
        command matches Command::Task(TaskCommand::Start { json, .. }) ==> wants_json(command)
            == json,
        command matches Command::Conflict(ConflictCommand::Resolve { json, .. }) ==> wants_json(
            command,
        ) == json,
{
}

/// Each command asks the session for what it names, with the arguments it was
/// given.
pub proof fn a_command_asks_for_what_it_names(command: Command)
    ensures
        ({
            let asked = match plan_of(command) {
                Some(Plan::Call { command, .. }) => Some(command),
                _ => None,
            };
            match command {
                Command::Leave(_) => asked == Some(IpcCommand::Leave),
                Command::Stop(_) => asked == Some(IpcCommand::Stop),
                Command::Peers(_) => asked == Some(IpcCommand::Peers),
                Command::Invite(_) => asked == Some(IpcCommand::Invite),
                Command::Rescan(_) => asked == Some(IpcCommand::Rescan),
                Command::Push(_) => asked == Some(IpcCommand::Push),
                Command::Tunnel(_) => asked == Some(IpcCommand::TunnelRestart),
                Command::Task(TaskCommand::Start { description, files, .. }) => asked == Some(
                    IpcCommand::TaskStart { description, scopes: files },
                ),
                Command::Task(TaskCommand::List(_)) => asked == Some(IpcCommand::TaskList),
                Command::Task(TaskCommand::Show { id, .. }) => asked == Some(
                    IpcCommand::TaskShow { id },
                ),
                Command::Task(TaskCommand::Update { id, description, files, .. }) => asked == Some(
                    IpcCommand::TaskUpdate {
                        id,
                        description,
                        scopes: if files@.len() == 0 {
                            None
                        } else {
                            Some(files)
                        },
                    },
                ),
                Command::Task(TaskCommand::Complete { id, .. }) => asked == Some(
                    IpcCommand::TaskComplete { id },
                ),
                Command::Task(TaskCommand::Cancel { id, .. }) => asked == Some(
                    IpcCommand::TaskCancel { id },
                ),
                Command::Conflict(ConflictCommand::List(_)) => asked == Some(
                    IpcCommand::ConflictList,
                ),
                Command::Conflict(ConflictCommand::Show { id, .. }) => asked == Some(
                    IpcCommand::ConflictShow { id },
                ),
                Command::Conflict(ConflictCommand::Dismiss { id, .. }) => asked == Some(
                    IpcCommand::ConflictDismiss { id },
                ),
                Command::Commit(CommitCommand::Prepare { allow_active_tasks, .. }) => asked == Some(
                    IpcCommand::CommitPrepare { allow_active_tasks },
                ),
                Command::Commit(CommitCommand::Create { prepare_id, message, .. }) => message is Some
                    ==> asked == Some(
                    IpcCommand::CommitCreate { prepare_id, message: message->0 },
                ),
                Command::Host(a) => plan_of(command) == Some(Plan::Host(a)),
                Command::Join(a) => plan_of(command) == Some(Plan::Join(a)),
                Command::Resume => plan_of(command) == Some(Plan::Resume),
                Command::Status(a) => plan_of(command) == Some(Plan::Status(a)),
                Command::Recover(a) => plan_of(command) == Some(Plan::Recover(a)),
                Command::Doctor(a) => plan_of(command) == Some(Plan::Doctor(a)),
                _ => true,
            }
        }),
{
}

} // verus!
