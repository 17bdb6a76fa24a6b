//! That everything which arrives is acted on: messages, frames, replies of git
//! and pieces of work each reach what they are for.

use vstd::prelude::*;

use crate::client_ipc::dispatch_rule;
use crate::client_rules::{
    apply_control, barrier_ended, check_barrier, commit_answer, complete_request, enqueue_revision,
    flush_outbox, flush_path, freeze, full_rescan, go, host_message, install_awaited,
    materialize_if_safe, missing_works, note_ignored, on_publication, operation_result, popped,
    prepare_answer, publish, push_answer, rebase, restore, snapshot, submit_path,
    sync_oversize_report, sync_working_tree, tick_collect, tick_heartbeat, tick_presence,
    tick_rescan, tick_retry, tick_watched, verify_join, written, AnswerView, ClientEffectView,
    ClientView, Purpose, Why, WorkView,
};
use crate::commit::{commit_rule, CommitReplyView, CommitTaskView, TreeView};
use crate::error::ErrorClass;
use crate::host_rules::{
    dismiss_rule, limit_rule, oversize_rule, presence_rule, replica_hash_rule, report_rule,
    request_blobs_rule, EffectView, HostView,
};
use crate::host_step::{authenticated_rule, failure_rule, StepView};
use crate::ipc::IpcCommand;
use crate::link::{
    link_rule, peer_rule, waits, ActionView, Arrived, Entrance, Link, LinkEvent, Opened,
    PeerActionView, PeerEvent, PeerStage, Stage,
};
use crate::model::{EntryView, PushStatus, SyncView, PROTOCOL_VERSION};
use crate::proto::{ClientMessage, ClientMessageView, CommitView, HostMessageView, PrepareView};
use crate::publish_rules::{author_fault, push_refused};
use crate::store_client::{a_path_keeps_what_was_put, paths_of, FlightView, StateView};
use crate::util::Uuid;

verus! {

// ---------------------------------------------------------------------------
// Connections
// ---------------------------------------------------------------------------

/// Everything a secured host says in this protocol is heard, and a frame that is
/// no message ends nothing; whatever else arrives ends the connection.
pub proof fn a_secured_host_is_heard(l: Link, a: Arrived)
    requires
        l.stage == Stage::Open,
    ensures
        ({
            let (next, act) = link_rule(l, LinkEvent::Frame(a));
            match a {
                Arrived::Binary(Opened::Control { version }) => if version == PROTOCOL_VERSION {
                    next == l && act is Deliver
                } else {
                    next.stage == Stage::Waiting && act is Drop
                },
                Arrived::Binary(Opened::Data) => next == l && act is DeliverData,
                Arrived::Binary(Opened::Partial) => next == l && act is Nothing,
                Arrived::Binary(Opened::Malformed(_)) => next == l && act is Nothing,
                Arrived::KeepAlive => next == l && act is Nothing,
                _ => next.stage == Stage::Waiting && act is Drop,
            }
        }),
{
}

/// A connection goes through its stages: it is tried when it is due, shakes hands
/// once it stands, answers the reply, and joins once it is secured.
pub proof fn a_connection_goes_through_its_stages(l: Link)
    ensures
        l.stage == Stage::Waiting ==> link_rule(l, LinkEvent::Due) == (
            Link { stage: Stage::Connecting, ..l },
            ActionView::Connect,
        ),
        l.stage == Stage::Connecting ==> link_rule(l, LinkEvent::Upgraded) == (
            Link { stage: Stage::Handshaking, ..l },
            ActionView::Handshake,
        ),
        l.stage == Stage::Handshaking ==> link_rule(l, LinkEvent::Secured) == (
            Link { stage: Stage::Open, ..l },
            ActionView::Join,
        ),
        l.stage == Stage::Handshaking ==> link_rule(l, LinkEvent::TimedOut).1 is Drop,
        l.stage == Stage::Handshaking ==> forall|o: Opened|
            (#[trigger] link_rule(l, LinkEvent::Reply(Arrived::Binary(o)))) == (
                l,
                ActionView::FinishHandshake,
            ),
        l.stage == Stage::Open ==> link_rule(l, LinkEvent::QueueClosed).1 is Drop,
{
}

/// The wait doubles with each failure up to eight seconds, and starts over after
/// a connection that worked.
pub proof fn the_wait_doubles(backoff: u64, was_open: bool)
    ensures
        was_open ==> waits(backoff, was_open) == 1,
        !was_open && 2 * backoff < 8 ==> waits(backoff, was_open) == 2 * backoff,
        !was_open && 2 * backoff >= 8 ==> waits(backoff, was_open) == 8,
{
}

/// Everything a secured participant says in this protocol reaches the session; a
/// message that cannot be read is complained of, and another protocol ends the
/// connection with a word.
pub proof fn a_secured_participant_is_heard(g: Entrance, conn_id: u64, a: Arrived)
    ensures
        ({
            let s = PeerStage::Open(conn_id);
            let (after, next, act) = peer_rule(g, s, PeerEvent::Frame(a));
            &&& after == g
            &&& match a {
                Arrived::Binary(Opened::Control { version }) => if version == PROTOCOL_VERSION {
                    next == s && act == (PeerActionView::Deliver { conn_id })
                } else {
                    next == PeerStage::Over && (act matches PeerActionView::Leave {
                        conn_id: gone,
                        last_word,
                    } && gone == conn_id && last_word is Some)
                },
                Arrived::Binary(Opened::Data) => next == s && act == (PeerActionView::DeliverData {
                    conn_id,
                }),
                Arrived::Binary(Opened::Partial) => next == s && act is Nothing,
                Arrived::Binary(Opened::Malformed(_)) => next == s && act is Complain,
                Arrived::KeepAlive => next == s && act is Nothing,
                _ => next == PeerStage::Over && act == (PeerActionView::Leave {
                    conn_id,
                    last_word: None,
                }),
            }
        }),
{
}

/// A handshake is answered, joins the session once it is secured, and is hung up
/// on where it fails.
pub proof fn a_handshake_is_answered(g: Entrance, o: Opened)
    requires
        g.next_conn < u64::MAX,
    ensures
        ({
            let s = PeerStage::Handshaking;
            &&& peer_rule(g, s, PeerEvent::Reply(Arrived::Binary(o))) == (
                g,
                s,
                PeerActionView::Answer,
            )
            &&& peer_rule(g, s, PeerEvent::Secured).1 == PeerStage::Open(g.next_conn)
            &&& peer_rule(g, s, PeerEvent::Secured).2 == (PeerActionView::Join {
                conn_id: g.next_conn,
            })
            &&& g.pending > 0 ==> peer_rule(g, s, PeerEvent::Secured).0.pending == g.pending - 1
            &&& peer_rule(g, s, PeerEvent::TimedOut).2 is HangUp
            &&& peer_rule(g, s, PeerEvent::HandshakeFailed).2 is HangUp
            &&& g.pending > 0 ==> peer_rule(g, s, PeerEvent::TimedOut).0.pending == g.pending - 1
        }),
{
}

// ---------------------------------------------------------------------------
// The coordinator
// ---------------------------------------------------------------------------

/// Every message of a participant is acted on, in the name of whoever sent it.
pub proof fn every_message_of_a_participant_is_acted_on(
    h: HostView,
    conn_id: u64,
    actor_id: Uuid,
    m: ClientMessage,
    now_ms: i64,
    ids: crate::host_step::FreshIds,
)
    ensures
        ({
            let (next, step) = authenticated_rule(h, conn_id, actor_id, m, now_ms, ids);
            match m {
                ClientMessage::RequestBlobs { hashes } => next == request_blobs_rule(
                    h,
                    conn_id,
                    crate::text::texts(hashes@),
                ).0 && step is Done,
                ClientMessage::Blob { blob } => next == h && step == StepView::Blob(blob@),
                ClientMessage::RequestManifest { .. } => step is Done && next.outbox.len()
                    == h.outbox.len() + 1 && (next.outbox.last() matches EffectView::Send {
                    to,
                    message: HostMessageView::ManifestSnapshot { snapshot_revision, manifest, .. },
                } && to == seq![conn_id] && snapshot_revision == h.store.revision() && manifest
                    == h.store.rows),
                ClientMessage::RequestControlSnapshot => step is Done && next.outbox
                    == h.outbox.push(
                    EffectView::Send {
                        to: seq![conn_id],
                        message: HostMessageView::Control { control: h.control() },
                    },
                ),
                ClientMessage::ReportOversize { paths } => next == oversize_rule(
                    h,
                    conn_id,
                    actor_id,
                    crate::text::views(paths@),
                ),
                ClientMessage::SetFileLimit { request_id, max_file_size } => next == limit_rule(
                    h,
                    conn_id,
                    request_id,
                    max_file_size,
                ),
                ClientMessage::ReportConflict { report } => next == report_rule(
                    h,
                    actor_id,
                    (*report)@,
                    now_ms,
                ),
                ClientMessage::DismissConflict { request_id, conflict_id } => next == dismiss_rule(
                    h,
                    conn_id,
                    request_id,
                    conflict_id,
                ),
                ClientMessage::CommitCreate { request_id, prepare_id, message } => next == h && step
                    == (StepView::CreateCommit { request_id, prepare_id, message: message@ }),
                ClientMessage::PushRequest { request_id } => (push_refused(h) is None ==> next == h
                    && step == (StepView::Push { request_id })) && (push_refused(h) is Some
                    ==> step is Done && next.outbox.len() == h.outbox.len() + 1),
                ClientMessage::ReplicaHash { revision, hash } => next == replica_hash_rule(
                    h,
                    conn_id,
                    revision,
                    hash@,
                ),
                ClientMessage::Presence { last_applied_revision, active_task_id } => next
                    == presence_rule(h, conn_id, last_applied_revision, active_task_id),
                ClientMessage::SubmitOperation { operation } => next
                    == crate::host_rules::submit_rule(
                    h,
                    conn_id,
                    actor_id,
                    (*operation)@,
                    None,
                    now_ms,
                    ids.first,
                ).0 && (step is Done || step is NeedsMerge),
                _ => true,
            }
        }),
{
}

/// A failure of storage or of content stops the session; any other failure
/// leaves it as it is.
pub proof fn only_broken_storage_stops_the_session(h: HostView, e: crate::error::ErrorView)
    ensures
        e.class == ErrorClass::PersistenceError || e.class == ErrorClass::IntegrityError
            ==> failure_rule(h, e).state == (SyncView::Degraded { reason: e.message }),
        e.class != ErrorClass::PersistenceError && e.class != ErrorClass::IntegrityError
            ==> failure_rule(h, e) == h,
{
}

// ---------------------------------------------------------------------------
// The commit
// ---------------------------------------------------------------------------

/// A file that git has stored enters the tree under its own path and mode, in
/// the order of the manifest; the tree is written once every file is in.
pub proof fn every_file_enters_the_tree(
    h: HostView,
    actor_id: Uuid,
    message: Seq<char>,
    prep: crate::model::PreparationView,
    manifest: Seq<crate::proto::RowView>,
    entries: Seq<TreeView>,
    oid: Seq<char>,
    now_ms: i64,
    now_s: i64,
)
    requires
        entries.len() < manifest.len(),
    ensures
        ({
            let task = CommitTaskView::HashObject { actor_id, message, prep, manifest, entries };
            let (next, task_next) = commit_rule(
                h,
                task,
                CommitReplyView::Oid(oid),
                now_ms,
                now_s,
            );
            let row = manifest[entries.len() as int];
            let more = entries.push(TreeView { path: row.path, mode: row.entry.git_mode, oid });
            &&& next == h
            &&& more.len() < manifest.len() ==> task_next == (CommitTaskView::HashObject {
                actor_id,
                message,
                prep,
                manifest,
                entries: more,
            })
            &&& more.len() == manifest.len() ==> task_next == (CommitTaskView::WriteTree {
                actor_id,
                message,
                prep,
                entries: more,
            })
        }),
{
}

/// A commit that nothing stands against goes on from each step to the next, up
/// to a push where there is a remote.
pub proof fn a_commit_goes_on(
    h: HostView,
    actor_id: Uuid,
    message: Seq<char>,
    prep: crate::model::PreparationView,
    entries: Seq<TreeView>,
    tree: Seq<char>,
    publication: crate::model::PublicationView,
    push: crate::publish_rules::PushView,
    now_ms: i64,
    now_s: i64,
)
    ensures
        ({
            let task = CommitTaskView::WriteTree { actor_id, message, prep, entries };
            let next = commit_rule(h, task, CommitReplyView::Oid(tree), now_ms, now_s).1;
            &&& author_fault(h, actor_id) is None ==> next is CommitTree
            &&& author_fault(h, actor_id) is Some ==> next == (CommitTaskView::Rejected {
                error: author_fault(h, actor_id)->0,
            })
        }),
        commit_rule(
            h,
            CommitTaskView::MoveRef { publication },
            CommitReplyView::Moved,
            now_ms,
            now_s,
        ).1 is ReadTree,
        h.remote is Some ==> commit_rule(
            h,
            CommitTaskView::ReadTree { publication },
            CommitReplyView::Moved,
            now_ms,
            now_s,
        ).1 is Push,
        h.remote is None ==> (commit_rule(
            h,
            CommitTaskView::ReadTree { publication },
            CommitReplyView::Moved,
            now_ms,
            now_s,
        ).1 matches CommitTaskView::Published { publication: p } && p.push_status
            == PushStatus::NoUpstream),
        commit_rule(
            h,
            CommitTaskView::Push { publication },
            CommitReplyView::Pushed(push),
            now_ms,
            now_s,
        ).1 matches CommitTaskView::Published { publication: p } && (p.push_status
            == PushStatus::Pushed) == push.ok,
{
}

// ---------------------------------------------------------------------------
// The replica
// ---------------------------------------------------------------------------

/// Every message of the host is acted on.
pub proof fn every_message_of_the_host_is_acted_on(v: ClientView, m: HostMessageView, now_ms: i64)
    ensures
        ({
            let next = host_message(v, m, now_ms);
            match m {
                HostMessageView::RevisionBroadcast { revision } => next == enqueue_revision(
                    v,
                    revision,
                ),
                HostMessageView::OperationResult { operation_id, outcome } => next
                    == operation_result(v, operation_id, outcome),
                HostMessageView::ManifestSnapshot {
                    snapshot_revision,
                    manifest,
                    host_state_hash,
                } => next == snapshot(v, snapshot_revision, manifest, host_state_hash),
                HostMessageView::Control { control } => next == apply_control(v, control),
                HostMessageView::Presence { peers } => next.peers == peers && next.replica
                    == v.replica,
                HostMessageView::BarrierStart { barrier_id } => v.local_state is Live
                    ==> next.todo == seq![WorkView::Rescan, WorkView::Freeze { barrier_id }]
                    + v.todo,
                HostMessageView::BarrierEnd { barrier_id } => next == barrier_ended(v, barrier_id),
                HostMessageView::Publication { publication, pack_hash } => next == on_publication(
                    v,
                    publication,
                    pack_hash,
                ),
                HostMessageView::Ack { request_id, note } => next == complete_request(
                    v,
                    request_id,
                    AnswerView::Acknowledged { note },
                ),
                HostMessageView::Error { request_id, error } => request_id is Some ==> next
                    == complete_request(v, request_id->0, AnswerView::Failed(error)),
                HostMessageView::HostState { state } => next.host_state == state,
                HostMessageView::Ping { nonce } => v.attached ==> next.outbox == v.outbox.push(
                    ClientEffectView::Send(ClientMessageView::Pong { nonce }),
                ),
                HostMessageView::Goodbye { reason } => !next.connected && next.connection_note
                    == reason && next.replica == v.replica,
                _ => true,
            }
        }),
{
    reveal(host_message);
    reveal(full_rescan);
    match m {
        HostMessageView::BarrierStart { barrier_id } => {
            assert(seq![WorkView::Rescan] + (seq![WorkView::Freeze { barrier_id }] + v.todo)
                =~= seq![WorkView::Rescan, WorkView::Freeze { barrier_id }] + v.todo);
        },
        _ => {},
    }
}

/// A request is answered as the host answered it: what was made, or why not.
pub proof fn an_answer_tells_how_it_went(
    p: PrepareView,
    c: CommitView,
    status: PushStatus,
    message: Seq<char>,
)
    ensures
        p matches PrepareView::Prepared(x) ==> prepare_answer(p) == AnswerView::Prepared(x),
        p matches PrepareView::Rejected(e) ==> prepare_answer(p) == AnswerView::Failed(e),
        c matches CommitView::Published(x) ==> commit_answer(c) == AnswerView::Published(x),
        c matches CommitView::Rejected(e) ==> commit_answer(c) == AnswerView::Failed(e),
        status == PushStatus::Pushed ==> push_answer(status, message) == (AnswerView::Pushed {
            message,
        }),
        status != PushStatus::Pushed ==> (push_answer(status, message) matches AnswerView::Failed(
            e,
        ) && e.message == message && e.class == ErrorClass::GitError),
{
    reveal(prepare_answer);
    reveal(commit_answer);
    reveal(push_answer);
}

/// Every piece of work on the tree is done when its turn comes.
pub proof fn every_piece_of_work_on_the_tree_is_done(v: ClientView, now_ms: i64, fresh: Uuid)
    requires
        v.todo.len() > 0,
    ensures
        ({
            let next = go(v, now_ms, fresh);
            let p = popped(v);
            match v.todo[0] {
                WorkView::Materialize { path } => next == materialize_if_safe(p, path),
                WorkView::Submit { path } => next == submit_path(p, path, now_ms),
                WorkView::FlushPath { path } => next == flush_path(p, path, now_ms, fresh),
                WorkView::CheckBarrier => next == check_barrier(p),
                WorkView::ReportOversize => next == sync_oversize_report(p),
                WorkView::Restore { path } => next.todo == seq![
                    WorkView::Visit { path, why: Why::Restore },
                ] + p.todo,
                WorkView::SyncTree => next == sync_working_tree(p),
                WorkView::Flush => next == flush_outbox(p),
                WorkView::NoteIgnored => next == note_ignored(p),
                WorkView::FindMissing { seen } => next == p.first(
                    missing_works(p.replica, paths_of(p.replica.states), seen),
                ),
                _ => true,
            }
        }),
{
    reveal(go);
    reveal(restore);
}

/// Every other piece of work is done when its turn comes.
pub proof fn every_piece_of_work_is_done(v: ClientView, now_ms: i64, fresh: Uuid)
    requires
        v.todo.len() > 0,
    ensures
        ({
            let next = go(v, now_ms, fresh);
            let p = popped(v);
            match v.todo[0] {
                WorkView::InstallAwaited { hash } => next == install_awaited(p, hash),
                WorkView::Publish { publication, pack } => next == publish(p, publication, pack),
                WorkView::Rebase { path, base, canonical, pending } => next == rebase(
                    p,
                    path,
                    base,
                    canonical,
                    pending,
                    None,
                    fresh,
                ),
                WorkView::Freeze { barrier_id } => next == freeze(p, barrier_id),
                WorkView::VerifyJoin => next == verify_join(p),
                WorkView::Drain => next == crate::client_rules::drain(p),
                WorkView::Applied { revision } => next.replica.last_applied_revision == revision
                    && next.replica.states == p.replica.states,
                WorkView::AnswerRescan { call } => next.outbox == p.outbox.push(
                    ClientEffectView::Answer {
                        call,
                        answer: AnswerView::Rescanned { rejected: p.rejected },
                    },
                ),
                WorkView::TickRescan => next == tick_rescan(p, now_ms),
                WorkView::TickWatched => next == tick_watched(p),
                WorkView::TickRetry => next == tick_retry(p, now_ms),
                WorkView::TickPresence => next == tick_presence(p, now_ms),
                WorkView::TickHeartbeat => next == tick_heartbeat(p, now_ms),
                WorkView::TickCollect => next == tick_collect(p, now_ms),
                _ => true,
            }
        }),
{
    reveal(go);
}

/// The outbox of a connected replica is gone through path by path, and so is the
/// tree.
pub proof fn every_path_gets_its_turn(v: ClientView, i: int)
    requires
        0 <= i < v.replica.states.len(),
    ensures
        v.connected ==> flush_outbox(v).todo[i] == (WorkView::FlushPath {
            path: v.replica.states[i].path,
        }),
        !v.connected ==> flush_outbox(v) == v,
        sync_working_tree(v).todo[i] == (WorkView::Materialize { path: v.replica.states[i].path }),
        flush_outbox(v).replica == v.replica,
        sync_working_tree(v).replica == v.replica,
{
    reveal(flush_outbox);
    reveal(sync_working_tree);
}

/// An operation that was never sent goes out; one that has had no answer for
/// twenty seconds goes out again; one that was sent lately waits.
pub proof fn an_unanswered_operation_goes_out_again(
    v: ClientView,
    path: Seq<char>,
    now_ms: i64,
    fresh: Uuid,
)
    requires
        v.state(path).in_flight is Some,
    ensures
        ({
            let s = v.state(path);
            let f = s.in_flight->0;
            let next = flush_path(v, path, now_ms, fresh);
            &&& !f.sent ==> next == submit_path(v, path, now_ms)
            &&& f.sent && now_ms - f.sent_at_ms <= 20000 ==> next == v
            &&& f.sent && now_ms - f.sent_at_ms > 20000 ==> next == submit_path(
                v.with_state(
                    path,
                    StateView { in_flight: Some(FlightView { sent: false, ..f }), ..s },
                ),
                path,
                now_ms,
            )
        }),
{
    reveal(flush_path);
}

/// A replica that freezes for a barrier tells how much it has captured, and then
/// sends what it has.
pub proof fn a_frozen_replica_tells_its_mark(v: ClientView, barrier_id: Uuid)
    ensures
        ({
            let next = freeze(v, barrier_id);
            &&& next.barrier is Some
            &&& next.barrier->0.barrier_id == barrier_id
            &&& next.barrier->0.watermark == v.replica.local_seq
            &&& !next.barrier->0.ready_sent
            &&& !next.barrier->0.conflicted
            &&& v.attached ==> next.outbox == v.outbox.push(
                ClientEffectView::Send(
                    ClientMessageView::BarrierAck { barrier_id, watermark: v.replica.local_seq },
                ),
            )
            &&& next.todo == seq![WorkView::Flush, WorkView::CheckBarrier] + v.todo
            &&& next.replica == v.replica
        }),
{
    reveal(freeze);
}

/// What was written is what is on disk; a file that was put back has its draft
/// follow, and nothing else of the path changes.
pub proof fn what_was_written_is_on_disk(
    v: ClientView,
    path: Seq<char>,
    entry: Option<EntryView>,
    purpose: Purpose,
)
    ensures
        ({
            let s = v.state(path);
            let t = written(v, path, entry, purpose).state(path);
            &&& t.materialized == entry
            &&& t.confirmed == s.confirmed
            &&& t.in_flight == s.in_flight
            &&& t.pending_local == s.pending_local
            &&& t.conflict_draft is Some == s.conflict_draft is Some
            &&& purpose == Purpose::Replace ==> t.conflict_draft == s.conflict_draft
            &&& s.conflict_draft is Some && purpose == Purpose::Restore ==> t.conflict_draft->0.entry
                == entry && t.conflict_draft->0.conflict_id == s.conflict_draft->0.conflict_id
        }),
{
    reveal(written);
    let s = v.state(path);
    let t = StateView {
        materialized: entry,
        conflict_draft: match (purpose, s.conflict_draft) {
            (Purpose::Restore, Some(d)) => Some(crate::store_client::DraftView { entry, ..d }),
            (_, d) => d,
        },
        ..s
    };
    a_path_keeps_what_was_put(v.replica, path, t, path);
}

/// A report of what is held back goes to a host that has not had it yet.
pub proof fn a_report_goes_out_once(v: ClientView)
    ensures
        !v.connected ==> sync_oversize_report(v) == v,
        v.reported_oversize == Some(v.replica.oversize) ==> sync_oversize_report(v) == v,
        v.connected ==> sync_oversize_report(v).reported_oversize == Some(v.replica.oversize),
        v.connected && v.attached && v.reported_oversize != Some(v.replica.oversize)
            ==> sync_oversize_report(v).outbox.len() > v.outbox.len() && sync_oversize_report(
            v,
        ).outbox[v.outbox.len() as int] == ClientEffectView::Send(
            ClientMessageView::ReportOversize { paths: v.replica.oversize },
        ),
{
    reveal(sync_oversize_report);
    reveal(check_barrier);
}

/// What a person asks of the replica alone is answered at once, from what it
/// knows.
pub proof fn a_question_is_answered_at_once(
    v: ClientView,
    call: u64,
    command: IpcCommand,
    now_ms: i64,
    first: Uuid,
    second: Uuid,
)
    requires
        command is Status || command is Peers || command is TaskList || command is ConflictList,
    ensures
        ({
            let next = dispatch_rule(v, call, command, now_ms, first, second);
            &&& next.outbox.len() == v.outbox.len() + 1
            &&& next.outbox.last() matches ClientEffectView::Answer { call: c, answer } && c == call
                && match command {
                IpcCommand::Status => answer is Status,
                IpcCommand::Peers => answer == (AnswerView::Peers { peers: v.peers }),
                IpcCommand::TaskList => answer is Tasks,
                _ => answer is Conflicts,
            }
            &&& next.replica == v.replica
            &&& next.todo == v.todo
        }),
{
    reveal(dispatch_rule);
}

} // verus!
