//! Starting, joining and resuming a session: what has to hold of the
//! repository, and what the daemon decides about its connections.

use vstd::prelude::*;

use crate::doctor::Intent;
use crate::error::{
    detailed, network, plain, protocol, repository, session as session_err, unsupported, usage,
    ErrorClass, ErrorView, Result, WeaveError,
};
use crate::gitx::{Unsupported, UnsupportedView};
use crate::ipc::IpcCommand;
use crate::model::{GitPublication, Role, PROTOCOL_VERSION};
use crate::proto::{HostMessage, HostMessageView, SessionInfo, SessionView};
use crate::scan::{RejectedPath, RejectedView};
use crate::text::{
    begins_with, decimal, decimal_text, has_prefix, join, join_text, lemma_texts_push, opt_view,
    same_text, texts, trim, trim_text, views,
};
use crate::util::{oid_head, short_oid, Uuid};

verus! {

#[derive(Debug, Clone, Copy, PartialEq, Eq, Structural)]
pub struct HostOptions {
    pub lan: bool,
    pub local_only: bool,
}

#[derive(Debug)]
pub struct JoinOptions {
    pub invite: String,
    /// Set when the caller already ran the join preflight.
    pub preflighted: bool,
}

#[derive(Debug, Clone, Copy, PartialEq, Eq, Structural)]
pub enum TransportMode {
    Tunnel,
    Lan,
    Local,
}

/// What a machine remembers of its session.
#[derive(Debug)]
pub struct SessionRecord {
    pub role: Role,
    pub session: SessionInfo,
    pub secret: String,
    pub endpoint: Option<String>,
    pub mode: TransportMode,
    pub created_at_ms: i64,
}

/// What an invite carries.
#[derive(Debug)]
pub struct InvitePayload {
    pub protocol_version: u32,
    pub url: String,
    pub session_id: Uuid,
    pub secret: String,
    pub base_commit: String,
    pub branch: String,
    pub repo_name: String,
}

/// An invite as plain values.
pub struct InviteView {
    pub protocol_version: u32,
    pub url: Seq<char>,
    pub session_id: Uuid,
    pub secret: Seq<char>,
    pub base_commit: Seq<char>,
    pub branch: Seq<char>,
    pub repo_name: Seq<char>,
}

impl View for InvitePayload {
    type V = InviteView;

    open spec fn view(&self) -> InviteView {
        InviteView {
            protocol_version: self.protocol_version,
            url: self.url@,
            session_id: self.session_id,
            secret: self.secret@,
            base_commit: self.base_commit@,
            branch: self.branch@,
            repo_name: self.repo_name@,
        }
    }
}

/// What hosting with these options needs: a tunnel, unless the session stays on
/// this machine or network.
pub open spec fn intent_of(opts: HostOptions) -> Intent {
    if opts.local_only || opts.lan {
        Intent::HostLocal
    } else {
        Intent::HostRemote
    }
}

/// The checks that must hold before hosting: a tunnel needs `cloudflared`.
pub fn host_intent(opts: HostOptions) -> (i: Intent)
    ensures
        i == intent_of(opts),
{
    if opts.local_only || opts.lan {
        Intent::HostLocal
    } else {
        Intent::HostRemote
    }
}

// ---------------------------------------------------------------------------
// Repository preconditions
// ---------------------------------------------------------------------------

pub open spec fn feature_list(list: Seq<UnsupportedView>) -> Seq<char>
    decreases list.len(),
{
    if list.len() == 0 {
        Seq::empty()
    } else {
        feature_list(list.drop_last()) + "- "@ + list.last().feature + ": "@ + list.last().detail
            + "\n"@
    }
}

/// Why a repository cannot be used, or `None`.
pub open spec fn unsupported_fault(
    found: Result<Vec<Unsupported>>,
    operation: Option<String>,
) -> Option<ErrorView> {
    match found {
        Err(e) => Some(e@),
        Ok(list) => if list@.len() > 0 {
            Some(
                detailed(
                    ErrorClass::UnsupportedError,
                    "This repository uses features Weave V1 does not support."@,
                    feature_list(views(list@))
                        + "\nWeave V1 deliberately refuses these features rather than corrupting them."@,
                ),
            )
        } else {
            match operation {
                Some(op) => Some(
                    detailed(
                        ErrorClass::RepositoryError,
                        "A Git "@ + op@ + " is in progress."@,
                        "Finish or abort the Git operation before using Weave."@,
                    ),
                ),
                None => None,
            }
        },
    }
}

pub fn verify_supported_repository(
    found: &Result<Vec<Unsupported>>,
    operation: &Option<String>,
) -> (r: Result<()>)
    ensures
        match r {
            Ok(_) => unsupported_fault(*found, *operation) is None,
            Err(e) => unsupported_fault(*found, *operation) == Some(e@),
        },
{
    match found {
        Err(e) => Err(e.clone()),
        Ok(list) => {
            if list.len() > 0 {
                let mut detail = String::new();
                let ghost all = views(list@);
                let mut i: usize = 0;
                proof {
                    assert(detail@ =~= feature_list(all.take(0)));
                }
                while i < list.len()
                    invariant
                        all == views(list@),
                        i <= list@.len(),
                        detail@ == feature_list(all.take(i as int)),
                    decreases list@.len() - i,
                {
                    proof {
                        assert(all.take(i + 1).drop_last() =~= all.take(i as int));
                        assert(all.take(i + 1).last() == list@[i as int]@);
                    }
                    detail.push_str("- ");
                    detail.push_str(list[i].feature.as_str());
                    detail.push_str(": ");
                    detail.push_str(list[i].detail.as_str());
                    detail.push_str("\n");
                    i = i + 1;
                }
                proof {
                    assert(all.take(i as int) =~= all);
                }
                detail.push_str(
                    "\nWeave V1 deliberately refuses these features rather than corrupting them.",
                );
                return Err(
                    unsupported(
                        "This repository uses features Weave V1 does not support.",
                    ).with_detail(detail),
                );
            }
            match operation {
                Some(op) => {
                    let mut m = "A Git ".to_owned();
                    m.push_str(op.as_str());
                    m.push_str(" is in progress.");
                    Err(
                        repository(m.as_str()).with_detail(
                            "Finish or abort the Git operation before using Weave.".to_owned(),
                        ),
                    )
                },
                None => Ok(()),
            }
        },
    }
}

/// How many uncommitted entries are shown.
pub const PREVIEW: usize = 12;

pub open spec fn preview(list: Seq<Seq<char>>) -> Seq<char> {
    if list.len() <= PREVIEW {
        join(list, "\n"@)
    } else {
        join(list.take(PREVIEW as int), "\n"@) + "\n... and "@ + decimal(
            (list.len() - PREVIEW) as nat,
        ) + " more"@
    }
}

/// Why the working tree is not clean, or `None`.
pub open spec fn dirty_fault(dirty: Result<Vec<String>>) -> Option<ErrorView> {
    match dirty {
        Err(e) => Some(e@),
        Ok(list) => if list@.len() == 0 {
            None
        } else {
            Some(
                detailed(
                    ErrorClass::RepositoryError,
                    "The working tree is not clean."@,
                    preview(texts(list@))
                        + "\n\nCommit, stash or discard these changes before starting a Weave session."@,
                ),
            )
        },
    }
}

pub fn verify_clean_working_tree(dirty: &Result<Vec<String>>) -> (r: Result<()>)
    ensures
        match r {
            Ok(_) => dirty_fault(*dirty) is None,
            Err(e) => dirty_fault(*dirty) == Some(e@),
        },
{
    match dirty {
        Err(e) => Err(e.clone()),
        Ok(list) => {
            if list.len() == 0 {
                return Ok(());
            }
            let ghost all = texts(list@);
            let mut shown: Vec<String> = Vec::new();
            let mut i: usize = 0;
            proof {
                assert(texts(shown@) =~= all.take(0));
            }
            while i < list.len() && i < PREVIEW
                invariant
                    all == texts(list@),
                    i <= list@.len(),
                    i <= PREVIEW,
                    texts(shown@) == all.take(i as int),
                decreases list@.len() - i,
            {
                let ghost before = shown@;
                let t = list[i].clone();
                shown.push(t);
                proof {
                    lemma_texts_push(before, t);
                    assert(all.take(i + 1) =~= all.take(i as int).push(t@));
                }
                i = i + 1;
            }
            let mut detail = join_text(&shown, "\n");
            if list.len() > PREVIEW {
                detail.push_str("\n... and ");
                detail.push_str(decimal_text((list.len() - PREVIEW) as u64).as_str());
                detail.push_str(" more");
            } else {
                proof {
                    assert(all.take(i as int) =~= all);
                }
            }
            detail.push_str(
                "\n\nCommit, stash or discard these changes before starting a Weave session.",
            );
            Err(repository("The working tree is not clean.").with_detail(detail))
        },
    }
}

/// What was found of the repository a session is to run in.
#[derive(Debug)]
pub struct StartFacts {
    pub unsupported: Result<Vec<Unsupported>>,
    pub operation: Option<String>,
    pub branch: Option<String>,
    pub dirty: Result<Vec<String>>,
    pub head: Option<String>,
}

/// Why a repository cannot host a new session, or `None`.
pub open spec fn new_host_fault(f: StartFacts) -> Option<ErrorView> {
    if unsupported_fault(f.unsupported, f.operation) is Some {
        unsupported_fault(f.unsupported, f.operation)
    } else if f.branch is None {
        Some(
            detailed(
                ErrorClass::RepositoryError,
                "HEAD is detached."@,
                "Weave needs one checked-out branch. Run `git switch <branch>`."@,
            ),
        )
    } else {
        dirty_fault(f.dirty)
    }
}

pub fn verify_new_host_repository(f: &StartFacts) -> (r: Result<()>)
    ensures
        match r {
            Ok(_) => new_host_fault(*f) is None,
            Err(e) => new_host_fault(*f) == Some(e@),
        },
{
    match verify_supported_repository(&f.unsupported, &f.operation) {
        Err(e) => {
            return Err(e);
        },
        Ok(_) => {},
    }
    if f.branch.is_none() {
        return Err(
            repository("HEAD is detached.").with_detail(
                "Weave needs one checked-out branch. Run `git switch <branch>`.".to_owned(),
            ),
        );
    }
    verify_clean_working_tree(&f.dirty)
}

// ---------------------------------------------------------------------------
// Hosting
// ---------------------------------------------------------------------------

pub open spec fn no_branch() -> ErrorView {
    detailed(
        ErrorClass::RepositoryError,
        "Weave needs a checked-out branch (HEAD is detached)."@,
        "Run `git switch <branch>` and retry."@,
    )
}

fn no_branch_error() -> (e: WeaveError)
    ensures
        e@ == no_branch(),
{
    repository("Weave needs a checked-out branch (HEAD is detached).").with_detail(
        "Run `git switch <branch>` and retry.".to_owned(),
    )
}

pub open spec fn no_commit() -> ErrorView {
    detailed(
        ErrorClass::RepositoryError,
        "This repository has no commits yet."@,
        "Weave publishes on top of an existing commit. Make an initial commit and retry."@,
    )
}

/// Whether a record makes this machine the host of a session that goes on.
pub open spec fn resumes(record: Option<SessionRecord>) -> bool {
    record matches Some(r) && r.role == Role::Host
}

/// Why hosting cannot start, or `None`. A session that goes on needs no clean
/// tree; a new one does.
pub open spec fn host_fault(f: StartFacts, resuming: bool) -> Option<ErrorView> {
    let first = if resuming {
        unsupported_fault(f.unsupported, f.operation)
    } else {
        new_host_fault(f)
    };
    if first is Some {
        first
    } else if f.branch is None {
        Some(no_branch())
    } else if f.head is None {
        Some(no_commit())
    } else {
        None
    }
}

/// What hosting starts from.
#[derive(Debug)]
pub struct HostStart {
    pub resuming: bool,
    pub branch: String,
    pub head: String,
}

/// Decide whether this repository can host.
pub fn run_host(f: &StartFacts, record: &Option<SessionRecord>) -> (r: Result<HostStart>)
    ensures
        match r {
            Ok(s) => {
                &&& host_fault(*f, resumes(*record)) is None
                &&& s.resuming == resumes(*record)
                &&& f.branch matches Some(b) && s.branch@ == b@
                &&& f.head matches Some(h) && s.head@ == h@
            },
            Err(e) => host_fault(*f, resumes(*record)) == Some(e@),
        },
{
    let resuming = match record {
        Some(r) => r.role == Role::Host,
        None => false,
    };
    let checked = if resuming {
        verify_supported_repository(&f.unsupported, &f.operation)
    } else {
        verify_new_host_repository(f)
    };
    match checked {
        Err(e) => {
            return Err(e);
        },
        Ok(_) => {},
    }
    let branch = match &f.branch {
        Some(b) => b.clone(),
        None => {
            return Err(no_branch_error());
        },
    };
    let head = match &f.head {
        Some(h) => h.clone(),
        None => {
            return Err(
                repository("This repository has no commits yet.").with_detail(
                    "Weave publishes on top of an existing commit. Make an initial commit and retry.".to_owned(),
                ),
            );
        },
    };
    Ok(HostStart { resuming, branch, head })
}

/// The facts of a fresh session: revision zero is the host's tree now.
pub fn new_session(
    session_id: Uuid,
    repo_name: String,
    start: &HostStart,
    host_actor_id: Uuid,
    host_display_name: String,
    now_ms: i64,
) -> (s: SessionInfo)
    ensures
        s@ == (SessionView {
            session_id,
            repo_name: repo_name@,
            branch: start.branch@,
            base_commit: start.head@,
            host_actor_id,
            host_display_name: host_display_name@,
            created_at_ms: now_ms,
        }),
{
    SessionInfo {
        session_id,
        repo_name,
        branch: start.branch.clone(),
        base_commit: start.head.clone(),
        host_actor_id,
        host_display_name,
        created_at_ms: now_ms,
    }
}

/// Why Git is not where the session left it, or `None`.
pub open spec fn head_fault(expected: Seq<char>, head: Seq<char>) -> Option<ErrorView> {
    if head == expected {
        None
    } else {
        Some(
            detailed(
                ErrorClass::RepositoryError,
                "Git state changed outside Weave."@,
                "Expected Git commit:\n"@ + oid_head(expected) + "\n\nCurrent Git commit:\n"@
                    + oid_head(head)
                    + "\n\nRestore the expected state before resuming the session."@,
            ),
        )
    }
}

/// The commit local Git state should be at: that of the newest publication, or
/// the one the session began on.
pub fn expected_head(latest: &Option<GitPublication>, base: &str) -> (head: String)
    ensures
        head@ == match *latest {
            Some(p) => p@.descriptor.commit_oid,
            None => base@,
        },
{
    match latest {
        Some(p) => p.descriptor.commit_oid.clone(),
        None => base.to_owned(),
    }
}

/// The name a participant is shown under: the one they chose, or their Git
/// name.
pub fn shown_name(chosen: &Option<String>, git_name: &str) -> (name: String)
    ensures
        name@ == match *chosen {
            Some(n) => n@,
            None => git_name@,
        },
{
    match chosen {
        Some(n) => n.clone(),
        None => git_name.to_owned(),
    }
}

/// The publication that local Git state should reflect is the one it does.
pub fn verify_head(expected: &str, head: &str) -> (r: Result<()>)
    ensures
        match r {
            Ok(_) => head_fault(expected@, head@) is None,
            Err(e) => head_fault(expected@, head@) == Some(e@),
        },
{
    if same_text(head, expected) {
        return Ok(());
    }
    let mut d = "Expected Git commit:\n".to_owned();
    d.push_str(short_oid(expected).as_str());
    d.push_str("\n\nCurrent Git commit:\n");
    d.push_str(short_oid(head).as_str());
    d.push_str("\n\nRestore the expected state before resuming the session.");
    Err(repository("Git state changed outside Weave.").with_detail(d))
}

/// Where a session listens: beyond this machine only for the local network.
pub open spec fn address_for(opts: HostOptions) -> Seq<char> {
    if opts.lan {
        "0.0.0.0:0"@
    } else {
        "127.0.0.1:0"@
    }
}

/// The address the coordinator binds to: every interface in LAN mode, loopback
/// otherwise.
pub fn bind_address(opts: HostOptions) -> (s: &'static str)
    ensures
        s@ == address_for(opts),
{
    if opts.lan {
        "0.0.0.0:0"
    } else {
        "127.0.0.1:0"
    }
}

/// How a session is reached.
pub open spec fn mode_for(opts: HostOptions) -> TransportMode {
    if opts.local_only {
        TransportMode::Local
    } else if opts.lan {
        TransportMode::Lan
    } else {
        TransportMode::Tunnel
    }
}

/// How participants reach the host.
pub fn transport_mode(opts: HostOptions) -> (m: TransportMode)
    ensures
        m == mode_for(opts),
{
    if opts.local_only {
        TransportMode::Local
    } else if opts.lan {
        TransportMode::Lan
    } else {
        TransportMode::Tunnel
    }
}

/// The address advertised in LAN mode: an override wins over detection.
pub fn local_ip(chosen: &Option<String>, detected: &str) -> (s: String)
    ensures
        s@ == match *chosen {
            Some(a) => if trim(a@).len() > 0 {
                trim(a@)
            } else {
                detected@
            },
            None => detected@,
        },
{
    match chosen {
        Some(a) => {
            let t = trim_text(a.as_str());
            if !t.as_str().is_empty() {
                return t;
            }
        },
        None => {},
    }
    detected.to_owned()
}

// ---------------------------------------------------------------------------
// Joining
// ---------------------------------------------------------------------------

pub open spec fn wrong_branch(wanted: Seq<char>, have: Seq<char>) -> ErrorView {
    detailed(
        ErrorClass::RepositoryError,
        "Cannot join Weave session."@,
        "Session branch:\n"@ + wanted + "\n\nYour branch:\n"@ + have
            + "\n\nCheck out the session branch and retry."@,
    )
}

pub open spec fn wrong_base(wanted: Seq<char>, have: Seq<char>) -> ErrorView {
    detailed(
        ErrorClass::RepositoryError,
        "Cannot join Weave session."@,
        "Session base:\n"@ + oid_head(wanted) + "\n\nYour current Git commit:\n"@ + oid_head(have)
            + "\n\nCheckout the expected base commit and retry."@,
    )
}

/// Whether a record is of the session an invite is for.
pub open spec fn rejoins(record: Option<SessionRecord>, session_id: Uuid) -> bool {
    record matches Some(r) && r.session.session_id == session_id
}

pub open spec fn head_or_empty(f: StartFacts) -> Seq<char> {
    match f.head {
        Some(h) => h@,
        None => Seq::empty(),
    }
}

/// Why joining cannot start, or `None`. Whoever comes back may have local work;
/// whoever is new has to stand at the session's base, with a clean tree.
pub open spec fn join_fault(f: StartFacts, invite: InviteView, rejoining: bool) -> Option<ErrorView> {
    if unsupported_fault(f.unsupported, f.operation) is Some {
        unsupported_fault(f.unsupported, f.operation)
    } else {
        match f.branch {
            None => Some(no_branch()),
            Some(b) => if b@ != invite.branch {
                Some(wrong_branch(invite.branch, b@))
            } else if rejoining {
                None
            } else if dirty_fault(f.dirty) is Some {
                dirty_fault(f.dirty)
            } else if head_or_empty(f) != invite.base_commit {
                Some(wrong_base(invite.base_commit, head_or_empty(f)))
            } else {
                None
            },
        }
    }
}

/// Decide whether this repository can join. Says whether it comes back.
pub fn run_join(f: &StartFacts, invite: &InvitePayload, record: &Option<SessionRecord>) -> (r:
    Result<bool>)
    ensures
        match r {
            Ok(again) => again == rejoins(*record, invite.session_id) && join_fault(
                *f,
                invite@,
                again,
            ) is None,
            Err(e) => join_fault(*f, invite@, rejoins(*record, invite.session_id)) == Some(e@),
        },
{
    match verify_supported_repository(&f.unsupported, &f.operation) {
        Err(e) => {
            return Err(e);
        },
        Ok(_) => {},
    }
    let branch = match &f.branch {
        Some(b) => b,
        None => {
            return Err(no_branch_error());
        },
    };
    if !same_text(branch.as_str(), invite.branch.as_str()) {
        let mut d = "Session branch:\n".to_owned();
        d.push_str(invite.branch.as_str());
        d.push_str("\n\nYour branch:\n");
        d.push_str(branch.as_str());
        d.push_str("\n\nCheck out the session branch and retry.");
        return Err(repository("Cannot join Weave session.").with_detail(d));
    }
    let rejoining = match record {
        Some(r) => r.session.session_id == invite.session_id,
        None => false,
    };
    if !rejoining {
        match verify_clean_working_tree(&f.dirty) {
            Err(e) => {
                return Err(e);
            },
            Ok(_) => {},
        }
        let head = match &f.head {
            Some(h) => h.clone(),
            None => {
                let h = String::new();
                proof {
                    assert(h@ =~= Seq::<char>::empty());
                }
                h
            },
        };
        if !same_text(head.as_str(), invite.base_commit.as_str()) {
            let mut d = "Session base:\n".to_owned();
            d.push_str(short_oid(invite.base_commit.as_str()).as_str());
            d.push_str("\n\nYour current Git commit:\n");
            d.push_str(short_oid(head.as_str()).as_str());
            d.push_str("\n\nCheckout the expected base commit and retry.");
            return Err(repository("Cannot join Weave session.").with_detail(d));
        }
    }
    Ok(rejoining)
}

/// Whether the replica of another session has to be dropped: nothing of it may
/// be inherited.
pub fn must_reset(stored: &Option<SessionInfo>, session_id: Uuid) -> (yes: bool)
    ensures
        yes == (stored matches Some(s) && s.session_id != session_id),
{
    match stored {
        Some(s) => s.session_id != session_id,
        None => false,
    }
}

/// The session a participant joins, as far as the invite says.
pub fn joined_session(invite: &InvitePayload, now_ms: i64) -> (s: SessionInfo)
    ensures
        s@ == (SessionView {
            session_id: invite.session_id,
            repo_name: invite.repo_name@,
            branch: invite.branch@,
            base_commit: invite.base_commit@,
            host_actor_id: 0,
            host_display_name: "host"@,
            created_at_ms: now_ms,
        }),
{
    SessionInfo {
        session_id: invite.session_id,
        repo_name: invite.repo_name.clone(),
        branch: invite.branch.clone(),
        base_commit: invite.base_commit.clone(),
        host_actor_id: 0,
        host_display_name: "host".to_owned(),
        created_at_ms: now_ms,
    }
}

/// How a participant reaches its host: an encrypted URL goes through a tunnel.
pub fn joined_mode(url: &str) -> (m: TransportMode)
    ensures
        m == if begins_with(url@, "wss://"@) {
            TransportMode::Tunnel
        } else {
            TransportMode::Lan
        },
{
    if has_prefix(url, "wss://") {
        TransportMode::Tunnel
    } else {
        TransportMode::Lan
    }
}

// ---------------------------------------------------------------------------
// Resuming
// ---------------------------------------------------------------------------

/// How a session is resumed.
#[derive(Debug)]
pub enum Resume {
    Host(HostOptions),
    Join(InvitePayload),
}

pub open spec fn no_session() -> ErrorView {
    detailed(
        ErrorClass::SessionError,
        "There is no Weave session to resume in this repository."@,
        "Start one with `weave host`, or join one with `weave join`."@,
    )
}

pub open spec fn no_endpoint() -> ErrorView {
    detailed(
        ErrorClass::SessionError,
        "This participant session has no recorded host endpoint."@,
        "Ask the host for a fresh invite and run `weave join`."@,
    )
}

pub open spec fn options_of(mode: TransportMode) -> HostOptions {
    HostOptions { lan: mode == TransportMode::Lan, local_only: mode == TransportMode::Local }
}

/// The invite a record stands for.
pub open spec fn invite_of(r: SessionRecord, url: Seq<char>) -> InviteView {
    InviteView {
        protocol_version: PROTOCOL_VERSION,
        url,
        session_id: r.session.session_id,
        secret: r.secret@,
        base_commit: r.session.base_commit@,
        branch: r.session.branch@,
        repo_name: r.session.repo_name@,
    }
}

pub fn invite_for(r: &SessionRecord, url: &str) -> (p: InvitePayload)
    ensures
        p@ == invite_of(*r, url@),
{
    InvitePayload {
        protocol_version: PROTOCOL_VERSION,
        url: url.to_owned(),
        session_id: r.session.session_id,
        secret: r.secret.clone(),
        base_commit: r.session.base_commit.clone(),
        branch: r.session.branch.clone(),
        repo_name: r.session.repo_name.clone(),
    }
}

/// Decide how to resume: a host in the mode it had, a participant with the
/// invite its record stands for.
pub fn run_resume(record: &Option<SessionRecord>) -> (r: Result<Resume>)
    ensures
        match *record {
            None => r matches Err(e) && e@ == no_session(),
            Some(s) => match s.role {
                Role::Host => r matches Ok(Resume::Host(o)) && o == options_of(s.mode),
                Role::Participant => match s.endpoint {
                    Some(url) => r matches Ok(Resume::Join(p)) && p@ == invite_of(s, url@),
                    None => r matches Err(e) && e@ == no_endpoint(),
                },
            },
        },
{
    match record {
        None => Err(
            session_err("There is no Weave session to resume in this repository.").with_detail(
                "Start one with `weave host`, or join one with `weave join`.".to_owned(),
            ),
        ),
        Some(s) => match s.role {
            Role::Host => Ok(
                Resume::Host(
                    HostOptions {
                        lan: s.mode == TransportMode::Lan,
                        local_only: s.mode == TransportMode::Local,
                    },
                ),
            ),
            Role::Participant => match &s.endpoint {
                Some(url) => Ok(Resume::Join(invite_for(s, url.as_str()))),
                None => Err(
                    session_err(
                        "This participant session has no recorded host endpoint.",
                    ).with_detail(
                        "Ask the host for a fresh invite and run `weave join`.".to_owned(),
                    ),
                ),
            },
        },
    }
}

// ---------------------------------------------------------------------------
// Invites and the tunnel
// ---------------------------------------------------------------------------

/// Why no invite can be given, or `None`.
pub open spec fn invite_fault(record: Option<SessionRecord>) -> Option<ErrorView> {
    match record {
        None => Some(plain(ErrorClass::SessionError, "No Weave session record is present."@)),
        Some(r) => if r.role != Role::Host {
            Some(plain(ErrorClass::UsageError, "Only the host can produce a Weave invite."@))
        } else if r.endpoint is None {
            Some(
                detailed(
                    ErrorClass::SessionError,
                    "This session has no remote endpoint."@,
                    "It was started with --local. Restart it with `weave host` or `weave host --lan` to invite other participants."@,
                ),
            )
        } else {
            None
        },
    }
}

/// The invite of a hosted session.
pub fn invite_text(record: &Option<SessionRecord>) -> (r: Result<InvitePayload>)
    ensures
        match r {
            Ok(p) => invite_fault(*record) is None && p@ == invite_of(
                record->0,
                record->0.endpoint->0@,
            ),
            Err(e) => invite_fault(*record) == Some(e@),
        },
{
    match record {
        None => Err(session_err("No Weave session record is present.")),
        Some(r) => {
            if r.role != Role::Host {
                return Err(usage("Only the host can produce a Weave invite."));
            }
            match &r.endpoint {
                Some(url) => Ok(invite_for(r, url.as_str())),
                None => Err(
                    session_err("This session has no remote endpoint.").with_detail(
                        "It was started with --local. Restart it with `weave host` or `weave host --lan` to invite other participants.".to_owned(),
                    ),
                ),
            }
        },
    }
}

/// Why the tunnel cannot be replaced, or `None`.
pub open spec fn restart_fault(role: Role, record: Option<SessionRecord>) -> Option<ErrorView> {
    if role != Role::Host {
        Some(plain(ErrorClass::UsageError, "Only the host manages the Weave tunnel."@))
    } else {
        match record {
            None => Some(plain(ErrorClass::SessionError, "No Weave session record is present."@)),
            Some(r) => if r.mode != TransportMode::Tunnel {
                Some(
                    detailed(
                        ErrorClass::UsageError,
                        "This session is not using a Cloudflare Quick Tunnel."@,
                        "Tunnel restart applies to sessions started with plain `weave host`."@,
                    ),
                )
            } else {
                None
            },
        }
    }
}

/// Whether the tunnel may be replaced.
pub fn may_restart_tunnel(role: Role, record: &Option<SessionRecord>) -> (r: Result<()>)
    ensures
        match r {
            Ok(_) => restart_fault(role, *record) is None,
            Err(e) => restart_fault(role, *record) == Some(e@),
        },
{
    if role != Role::Host {
        return Err(usage("Only the host manages the Weave tunnel."));
    }
    match record {
        None => Err(session_err("No Weave session record is present.")),
        Some(r) => {
            if r.mode != TransportMode::Tunnel {
                return Err(
                    usage("This session is not using a Cloudflare Quick Tunnel.").with_detail(
                        "Tunnel restart applies to sessions started with plain `weave host`.".to_owned(),
                    ),
                );
            }
            Ok(())
        },
    }
}

// ---------------------------------------------------------------------------
// Connections
// ---------------------------------------------------------------------------

pub open spec fn version_error(version: u32) -> ErrorView {
    detailed(
        ErrorClass::ProtocolError,
        "Unsupported Weave protocol version "@ + decimal(version as nat) + "."@,
        "Every participant must run a matching Weave version."@,
    )
}

/// What a peer is told that speaks another version, before it is dropped.
pub fn version_refusal(version: u32) -> (m: Option<HostMessage>)
    ensures
        opt_view(m) == if version == PROTOCOL_VERSION {
            None
        } else {
            Some(HostMessageView::Error { request_id: None, error: version_error(version) })
        },
{
    if version == PROTOCOL_VERSION {
        return None;
    }
    let mut message = "Unsupported Weave protocol version ".to_owned();
    message.push_str(decimal_text(version as u64).as_str());
    message.push_str(".");
    Some(
        HostMessage::Error {
            request_id: None,
            class: ErrorClass::ProtocolError,
            message,
            detail: Some("Every participant must run a matching Weave version.".to_owned()),
        },
    )
}

/// Why a participant gives up on a host that speaks another version.
pub fn foreign_host(version: u32) -> (s: Option<String>)
    ensures
        opt_view(s) == if version == PROTOCOL_VERSION {
            None
        } else {
            Some("host speaks Weave protocol version "@ + decimal(version as nat))
        },
{
    if version == PROTOCOL_VERSION {
        return None;
    }
    let mut s = "host speaks Weave protocol version ".to_owned();
    s.push_str(decimal_text(version as u64).as_str());
    Some(s)
}

/// The longest wait between two attempts to connect, in seconds.
pub const MAX_BACKOFF: u64 = 8;

/// How long to wait before the next attempt: anew after a connection, twice as
/// long after a failure, up to a low cap.
pub fn next_backoff(backoff: u64, connected: bool) -> (n: u64)
    requires
        backoff <= MAX_BACKOFF,
    ensures
        n == if connected {
            1
        } else if 2 * backoff < MAX_BACKOFF {
            2 * backoff
        } else {
            MAX_BACKOFF as int
        },
        n <= MAX_BACKOFF,
{
    if connected {
        1
    } else if 2 * backoff < MAX_BACKOFF {
        2 * backoff
    } else {
        MAX_BACKOFF
    }
}

/// A connect failure as a person can act on it. A host that answers without an
/// encrypted session is never fallen back to.
pub open spec fn connect_error(status: Option<u16>, said: Seq<char>) -> ErrorView {
    if status == Some(404u16) || status == Some(401u16) {
        detailed(
            ErrorClass::ProtocolError,
            "This host is not running an end-to-end encrypted Weave session."@,
            "It answered as a Weave 1.x host, whose application protocol was not encrypted. Weave will not fall back to it. Both sides must run Weave 2 or newer."@,
        )
    } else {
        plain(ErrorClass::NetworkError, "Could not reach the Weave host: "@ + said)
    }
}

pub fn describe_connect_failure(status: Option<u16>, said: &str) -> (e: WeaveError)
    ensures
        e@ == connect_error(status, said@),
{
    let refused = match status {
        Some(s) => s == 404 || s == 401,
        None => false,
    };
    if refused {
        return protocol(
            "This host is not running an end-to-end encrypted Weave session.",
        ).with_detail(
            "It answered as a Weave 1.x host, whose application protocol was not encrypted. Weave will not fall back to it. Both sides must run Weave 2 or newer.".to_owned(),
        );
    }
    let mut m = "Could not reach the Weave host: ".to_owned();
    m.push_str(said);
    network(m.as_str())
}

/// The bytes still queued once a message has left the queue.
pub fn release(queued: usize, len: usize) -> (left: usize)
    ensures
        left == if len <= queued {
            queued - len
        } else {
            0
        },
{
    if len <= queued {
        queued - len
    } else {
        0
    }
}

/// Who answers a command.
#[derive(Debug)]
pub enum Route {
    Stop,
    Leave,
    Invite,
    TunnelRestart,
    /// The replica.
    Engine(IpcCommand),
}

/// Who answers a command: the daemon itself, or the replica.
pub open spec fn route_of(command: IpcCommand) -> Route {
    match command {
        IpcCommand::Stop => Route::Stop,
        IpcCommand::Leave => Route::Leave,
        IpcCommand::Invite => Route::Invite,
        IpcCommand::TunnelRestart => Route::TunnelRestart,
        _ => Route::Engine(command),
    }
}

/// Commands about the daemon itself are answered by it, all others by the
/// replica.
pub fn handle_ipc_command(command: IpcCommand) -> (r: Route)
    ensures
        r == route_of(command),
{
    match command {
        IpcCommand::Stop => Route::Stop,
        IpcCommand::Leave => Route::Leave,
        IpcCommand::Invite => Route::Invite,
        IpcCommand::TunnelRestart => Route::TunnelRestart,
        other => Route::Engine(other),
    }
}

// ---------------------------------------------------------------------------
// Banners
// ---------------------------------------------------------------------------

fn tell(lines: &mut Vec<String>, a: &str, b: &str)
    ensures
        texts(final(lines)@) == texts(old(lines)@).push(a@ + b@),
{
    let ghost before = lines@;
    let mut s = a.to_owned();
    s.push_str(b);
    lines.push(s);
    proof {
        lemma_texts_push(before, s);
    }
}

fn say(lines: &mut Vec<String>, a: &str)
    ensures
        texts(final(lines)@) == texts(old(lines)@).push(a@),
{
    let ghost before = lines@;
    let s = a.to_owned();
    lines.push(s);
    proof {
        lemma_texts_push(before, s);
    }
}

pub open spec fn rejected_lines(list: Seq<RejectedView>) -> Seq<Seq<char>> {
    list.map_values(|r: RejectedView| "  "@ + r.path + " — "@ + r.reason)
}

pub open spec fn rejected_report(list: Seq<RejectedView>) -> Seq<Seq<char>> {
    if list.len() == 0 {
        Seq::empty()
    } else {
        let shown = if list.len() <= 20 {
            list
        } else {
            list.take(20)
        };
        let head = seq![
            "Some paths cannot participate in this Weave session:"@,
        ] + rejected_lines(shown);
        (if list.len() > 20 {
            head.push("  ... and "@ + decimal((list.len() - 20) as nat) + " more"@)
        } else {
            head
        }).push(""@)
    }
}

/// What is said of paths that stay out of a session.
pub fn report_rejected(list: &Vec<RejectedPath>) -> (lines: Vec<String>)
    ensures
        texts(lines@) == rejected_report(views(list@)),
{
    let mut lines: Vec<String> = Vec::new();
    if list.len() == 0 {
        proof {
            assert(texts(lines@) =~= Seq::<Seq<char>>::empty());
        }
        return lines;
    }
    say(&mut lines, "Some paths cannot participate in this Weave session:");
    let ghost start = texts(lines@);
    let ghost shown = if list@.len() <= 20 {
        views(list@)
    } else {
        views(list@).take(20)
    };
    let ghost all = rejected_lines(shown);
    let mut i: usize = 0;
    proof {
        assert(start =~= seq!["Some paths cannot participate in this Weave session:"@]);
        assert(texts(lines@) =~= start + all.take(0));
    }
    while i < list.len() && i < 20
        invariant
            shown == (if list@.len() <= 20 {
                views(list@)
            } else {
                views(list@).take(20)
            }),
            all == rejected_lines(shown),
            i <= list@.len(),
            i <= 20,
            texts(lines@) == start + all.take(i as int),
        decreases list@.len() - i,
    {
        let mut line = "  ".to_owned();
        line.push_str(list[i].path.as_str());
        line.push_str(" — ");
        line.push_str(list[i].reason.as_str());
        proof {
            assert(shown[i as int] == list@[i as int]@);
            assert(line@ == all[i as int]);
            assert((start + all.take(i as int)).push(line@) =~= start + all.take(i + 1));
        }
        say(&mut lines, line.as_str());
        i = i + 1;
    }
    proof {
        assert(all.take(i as int) =~= all);
    }
    if list.len() > 20 {
        let mut line = "  ... and ".to_owned();
        line.push_str(decimal_text((list.len() - 20) as u64).as_str());
        line.push_str(" more");
        say(&mut lines, line.as_str());
    }
    say(&mut lines, "");
    lines
}

pub open spec fn banner_head(repo: Seq<char>, role: Seq<char>, you: Seq<char>, branch: Seq<char>) -> Seq<
    Seq<char>,
> {
    seq!["Weave — "@ + repo, ""@, "Role: "@ + role, "You:  "@ + you, "Branch: "@ + branch]
}

fn show_banner_head(repo: &str, role: &str, you: &str, branch: &str) -> (lines: Vec<String>)
    ensures
        texts(lines@) == banner_head(repo@, role@, you@, branch@),
{
    let mut lines: Vec<String> = Vec::new();
    tell(&mut lines, "Weave — ", repo);
    say(&mut lines, "");
    tell(&mut lines, "Role: ", role);
    tell(&mut lines, "You:  ", you);
    tell(&mut lines, "Branch: ", branch);
    proof {
        assert(texts(lines@) =~= banner_head(repo@, role@, you@, branch@));
    }
    lines
}

pub open spec fn join_banner(repo: Seq<char>, you: Seq<char>, branch: Seq<char>) -> Seq<Seq<char>> {
    banner_head(repo, "participant"@, you, branch) + seq![
        ""@,
        "Connecting to the Weave host..."@,
        ""@,
        "Run `weave status` from another terminal at any time."@,
        "Press Ctrl-C to leave the live session."@,
        ""@,
    ]
}

/// What a participant sees first.
pub fn print_join_banner(repo: &str, you: &str, branch: &str) -> (lines: Vec<String>)
    ensures
        texts(lines@) == join_banner(repo@, you@, branch@),
{
    let mut lines = show_banner_head(repo, "participant", you, branch);
    let ghost head = texts(lines@);
    say(&mut lines, "");
    say(&mut lines, "Connecting to the Weave host...");
    say(&mut lines, "");
    say(&mut lines, "Run `weave status` from another terminal at any time.");
    say(&mut lines, "Press Ctrl-C to leave the live session.");
    say(&mut lines, "");
    proof {
        assert(texts(lines@) =~= head + seq![
            ""@,
            "Connecting to the Weave host..."@,
            ""@,
            "Run `weave status` from another terminal at any time."@,
            "Press Ctrl-C to leave the live session."@,
            ""@,
        ]);
    }
    lines
}

/// How participants are told to come.
pub open spec fn reach_lines(mode: TransportMode, invite: Seq<char>, address: Seq<char>) -> Seq<
    Seq<char>,
> {
    match mode {
        TransportMode::Tunnel => seq![
            "Share this invite with participants:"@,
            ""@,
            invite,
            ""@,
            "The invite grants full read/write access to this session. Send it over a"@,
            "channel you trust."@,
        ],
        TransportMode::Lan => seq![
            "Weave LAN session"@,
            ""@,
            "Address:"@,
            address,
            ""@,
            "Share this invite with participants on the same network:"@,
            ""@,
            invite,
        ],
        TransportMode::Local => seq!["Local session: no remote endpoint is exposed."@],
    }
}

fn show_reach(mode: TransportMode, invite: &str, address: &str) -> (lines: Vec<String>)
    ensures
        texts(lines@) == reach_lines(mode, invite@, address@),
{
    let mut lines: Vec<String> = Vec::new();
    match mode {
        TransportMode::Tunnel => {
            say(&mut lines, "Share this invite with participants:");
            say(&mut lines, "");
            say(&mut lines, invite);
            say(&mut lines, "");
            say(
                &mut lines,
                "The invite grants full read/write access to this session. Send it over a",
            );
            say(&mut lines, "channel you trust.");
        },
        TransportMode::Lan => {
            say(&mut lines, "Weave LAN session");
            say(&mut lines, "");
            say(&mut lines, "Address:");
            say(&mut lines, address);
            say(&mut lines, "");
            say(&mut lines, "Share this invite with participants on the same network:");
            say(&mut lines, "");
            say(&mut lines, invite);
        },
        TransportMode::Local => {
            say(&mut lines, "Local session: no remote endpoint is exposed.");
        },
    }
    proof {
        assert(texts(lines@) =~= reach_lines(mode, invite@, address@));
    }
    lines
}

pub open spec fn host_banner(
    repo: Seq<char>,
    you: Seq<char>,
    session: SessionView,
    mode: TransportMode,
    invite: Seq<char>,
    address: Seq<char>,
) -> Seq<Seq<char>> {
    banner_head(repo, "host"@, you, session.branch) + seq![
        "Base commit: "@ + oid_head(session.base_commit),
        ""@,
    ] + reach_lines(mode, invite, address) + seq![
        ""@,
        "Run `weave status` from another terminal at any time."@,
        "Press Ctrl-C to stop hosting."@,
        ""@,
    ]
}

/// What a host sees first.
pub fn print_host_banner(
    repo: &str,
    you: &str,
    session: &SessionInfo,
    mode: TransportMode,
    invite: &str,
    address: &str,
) -> (lines: Vec<String>)
    ensures
        texts(lines@) == host_banner(repo@, you@, session@, mode, invite@, address@),
{
    let mut lines = show_banner_head(repo, "host", you, session.branch.as_str());
    let ghost head = texts(lines@);
    let ghost base = seq!["Base commit: "@ + oid_head(session@.base_commit), ""@];
    let ghost tail = seq![
        ""@,
        "Run `weave status` from another terminal at any time."@,
        "Press Ctrl-C to stop hosting."@,
        ""@,
    ];
    tell(&mut lines, "Base commit: ", short_oid(session.base_commit.as_str()).as_str());
    say(&mut lines, "");
    let mut more = show_reach(mode, invite, address);
    let ghost reach = texts(more@);
    proof {
        assert(texts(lines@) =~= head + base);
    }
    let ghost before = lines@;
    let ghost added = more@;
    lines.append(&mut more);
    proof {
        assert(texts(lines@) =~= texts(before) + texts(added));
    }
    say(&mut lines, "");
    say(&mut lines, "Run `weave status` from another terminal at any time.");
    say(&mut lines, "Press Ctrl-C to stop hosting.");
    say(&mut lines, "");
    proof {
        assert(texts(lines@) =~= head + base + reach + tail);
    }
    lines
}

// ---------------------------------------------------------------------------
// What resuming keeps
// ---------------------------------------------------------------------------

/// Resuming as a host keeps the way participants come, and the invite of a
/// resumed participant is for the session its record is of.
pub proof fn resuming_keeps_the_session(r: SessionRecord, url: Seq<char>)
    ensures
        ({
            let o = options_of(r.mode);
            (if o.local_only {
                TransportMode::Local
            } else if o.lan {
                TransportMode::Lan
            } else {
                TransportMode::Tunnel
            }) == r.mode
        }),
        rejoins(Some(r), invite_of(r, url).session_id),
{
}

} // verus!
