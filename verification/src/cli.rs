//! The Weave command line: what every command asks for.
//!
//! Every command an agent drives supports `--json`: stable field names, the
//! machine-readable result on stdout, diagnostics on stderr, meaningful exit
//! codes, and no interactive prompt.

use vstd::prelude::*;

use crate::bootstrap::BootstrapResult;
use crate::error::{detailed, usage, ErrorClass, ErrorView, Result, WeaveError};
use crate::ipc::{IpcCommand, ResolveSource};
use crate::text::{opt_view, same_text, trim, trim_text};

verus! {

#[derive(Debug)]
pub struct Cli {
    /// Run against a different repository directory.
    pub repo: Option<String>,
    /// Verbose diagnostic logging on stderr.
    pub verbose: bool,
    pub command: Command,
}

#[derive(Debug)]
pub enum Command {
    /// Host a Weave session for this repository.
    Host(HostArgs),
    /// Join a Weave session using an invite.
    Join(JoinArgs),
    /// Resume this repository's Weave session after a crash or restart.
    Resume,
    /// Leave the session and forget its local session record.
    Leave(JsonArgs),
    /// Stop the running Weave daemon, keeping the session record.
    Stop(JsonArgs),
    /// Show the state of the live session.
    Status(JsonArgs),
    /// List session participants.
    Peers(JsonArgs),
    /// Print the invite for this session (host only).
    Invite(JsonArgs),
    /// Force a full repository rescan.
    Rescan(JsonArgs),
    /// Describe intent with Tasks and advisory soft locks.
    Task(TaskCommand),
    /// Inspect and resolve Weave conflicts.
    Conflict(ConflictCommand),
    /// Prepare and create Git publications.
    Commit(CommitCommand),
    /// Ask the host to push the published branch to its remote.
    Push(JsonArgs),
    /// Manage the tunnel.
    Tunnel(TunnelCommand),
    /// Agent integration helpers.
    Agent(AgentCommand),
    /// Check that this machine and repository can run Weave.
    Doctor(JsonArgs),
    /// Diagnose and repair Weave storage without discarding data.
    Recover(RecoverArgs),
    /// Read and write local Weave configuration.
    Config(ConfigCommand),
}

#[derive(Debug, Clone, Copy, PartialEq, Eq, Structural)]
pub struct JsonArgs {
    /// Machine-readable output.
    pub json: bool,
}

#[derive(Debug, Clone, Copy, PartialEq, Eq, Structural)]
pub struct HostArgs {
    /// Serve on the local network instead of a tunnel.
    pub lan: bool,
    /// Do not expose any remote endpoint; only this machine participates.
    pub local: bool,
}

#[derive(Debug)]
pub struct JoinArgs {
    /// Read the invite from a file instead of prompting.
    pub invite_file: Option<String>,
    /// Read the invite from standard input instead of prompting.
    pub invite_stdin: bool,
}

#[allow(inconsistent_fields)]
#[derive(Debug)]
pub enum TaskCommand {
    /// Start one Task describing what you are about to change.
    Start { description: String, files: Vec<String>, json: bool },
    /// List Tasks in this session.
    List(JsonArgs),
    /// Show one Task and its overlaps.
    Show { id: String, json: bool },
    /// Update a Task description or scopes.
    Update { id: String, description: Option<String>, files: Vec<String>, json: bool },
    /// Complete a Task.
    Complete { id: String, json: bool },
    /// Cancel a Task.
    Cancel { id: String, json: bool },
}

#[derive(Debug)]
pub enum ConflictCommand {
    /// List Weave conflicts.
    List(JsonArgs),
    /// Show one conflict, writing its candidates below the Git directory.
    Show { id: String, json: bool },
    /// Resolve a conflict with one atomic request.
    Resolve { id: String, source: ResolveChoice, content_file: Option<String>, json: bool },
    /// Dismiss a conflict without changing canonical state.
    Dismiss { id: String, json: bool },
}

#[derive(Debug, Clone, Copy, PartialEq, Eq, Structural)]
pub enum ResolveChoice {
    /// The file as it currently is in your working tree (default).
    Working,
    /// Keep the canonical host content.
    Canonical,
    /// The latest preserved local candidate.
    Local,
    /// The rejected incoming candidate.
    Incoming,
    /// Resolve by deleting the path.
    Delete,
}

#[derive(Debug)]
pub enum CommitCommand {
    /// Bind a Git publication to one immutable live revision.
    Prepare { allow_active_tasks: bool, json: bool },
    /// Create the prepared Git publication on the host.
    Create { prepare_id: String, message: Option<String>, message_stdin: bool, json: bool },
}

#[derive(Debug, Clone, Copy, PartialEq, Eq, Structural)]
pub enum TunnelCommand {
    /// Replace the tunnel, keeping the same Weave session.
    Restart(JsonArgs),
}

#[derive(Debug, Clone, Copy, PartialEq, Eq, Structural)]
pub enum AgentCommand {
    /// Write the managed Weave block into the repository's AGENTS.md.
    Bootstrap(JsonArgs),
}

#[derive(Debug)]
pub struct RecoverArgs {
    /// Rebuild the derived canonical manifest from durable revision history.
    pub rebuild: bool,
    /// Export the latest recoverable canonical files to this directory.
    pub export: Option<String>,
    pub json: bool,
}

#[derive(Debug)]
pub enum ConfigCommand {
    /// Show all local Weave configuration.
    List(JsonArgs),
    /// Read one configuration value.
    Get { key: String, json: bool },
    /// Set one configuration value.
    Assign { key: String, value: String, json: bool },
}

// ---------------------------------------------------------------------------
// Machine-readable output
// ---------------------------------------------------------------------------

/// Whether a command was asked for machine-readable output, so that a failure
/// is reported that way too. A doctor's report is its own failure.
pub open spec fn wants_json(command: Command) -> bool {
    match command {
        Command::Host(_) | Command::Join(_) | Command::Resume | Command::Doctor(_) => false,
        Command::Leave(a) => a.json,
        Command::Stop(a) => a.json,
        Command::Status(a) => a.json,
        Command::Peers(a) => a.json,
        Command::Invite(a) => a.json,
        Command::Rescan(a) => a.json,
        Command::Push(a) => a.json,
        Command::Tunnel(TunnelCommand::Restart(a)) => a.json,
        Command::Agent(AgentCommand::Bootstrap(a)) => a.json,
        Command::Recover(a) => a.json,
        Command::Task(t) => match t {
            TaskCommand::Start { json, .. } => json,
            TaskCommand::List(a) => a.json,
            TaskCommand::Show { json, .. } => json,
            TaskCommand::Update { json, .. } => json,
            TaskCommand::Complete { json, .. } => json,
            TaskCommand::Cancel { json, .. } => json,
        },
        Command::Conflict(c) => match c {
            ConflictCommand::List(a) => a.json,
            ConflictCommand::Show { json, .. } => json,
            ConflictCommand::Resolve { json, .. } => json,
            ConflictCommand::Dismiss { json, .. } => json,
        },
        Command::Commit(c) => match c {
            CommitCommand::Prepare { json, .. } => json,
            CommitCommand::Create { json, .. } => json,
        },
        Command::Config(c) => match c {
            ConfigCommand::List(a) => a.json,
            ConfigCommand::Get { json, .. } => json,
            ConfigCommand::Assign { json, .. } => json,
        },
    }
}

/// Whether the selected command was asked for machine-readable output.
pub fn uses_json(command: &Command) -> (yes: bool)
    ensures
        yes == wants_json(*command),
{
    match command {
        Command::Host(_) | Command::Join(_) | Command::Resume | Command::Doctor(_) => false,
        Command::Leave(a) => a.json,
        Command::Stop(a) => a.json,
        Command::Status(a) => a.json,
        Command::Peers(a) => a.json,
        Command::Invite(a) => a.json,
        Command::Rescan(a) => a.json,
        Command::Push(a) => a.json,
        Command::Tunnel(TunnelCommand::Restart(a)) => a.json,
        Command::Agent(AgentCommand::Bootstrap(a)) => a.json,
        Command::Recover(a) => a.json,
        Command::Task(t) => match t {
            TaskCommand::Start { json, .. } => *json,
            TaskCommand::List(a) => a.json,
            TaskCommand::Show { json, .. } => *json,
            TaskCommand::Update { json, .. } => *json,
            TaskCommand::Complete { json, .. } => *json,
            TaskCommand::Cancel { json, .. } => *json,
        },
        Command::Conflict(c) => match c {
            ConflictCommand::List(a) => a.json,
            ConflictCommand::Show { json, .. } => *json,
            ConflictCommand::Resolve { json, .. } => *json,
            ConflictCommand::Dismiss { json, .. } => *json,
        },
        Command::Commit(c) => match c {
            CommitCommand::Prepare { json, .. } => *json,
            CommitCommand::Create { json, .. } => *json,
        },
        Command::Config(c) => match c {
            ConfigCommand::List(a) => a.json,
            ConfigCommand::Get { json, .. } => *json,
            ConfigCommand::Assign { json, .. } => *json,
        },
    }
}

// ---------------------------------------------------------------------------
// Plans
// ---------------------------------------------------------------------------

/// How the answer of the daemon is shown to a person.
#[derive(Debug, Clone, Copy, PartialEq, Eq, Structural)]
pub enum Show {
    Stopping,
    Left,
    Peers,
    Invite,
    Rescanned,
    TaskStarted,
    TaskList,
    TaskShow,
    TaskCompleted,
    TaskCancelled,
    ConflictList,
    ConflictShow,
    ConflictResolved,
    ConflictDismissed,
    Prepared,
    Published,
    Push,
}

/// The default wait for the daemon's answer, in seconds.
pub const CALL_TIMEOUT: u64 = 120;

/// A new tunnel may take longer to come up.
pub const TUNNEL_TIMEOUT: u64 = 180;

/// What a command comes to.
#[allow(inconsistent_fields)]
#[derive(Debug)]
pub enum Plan {
    Host(HostArgs),
    Join(JoinArgs),
    Resume,
    /// Ask the daemon, then where wanted ask it again, and show the last
    /// answer.
    Call {
        command: IpcCommand,
        follow_up: Option<IpcCommand>,
        timeout_s: u64,
        show: Show,
        json: bool,
    },
    /// Ask the daemon, when one is running.
    Status(JsonArgs),
    /// Read the message, then create the publication.
    CreateFromStdin { prepare_id: String, json: bool },
    Bootstrap(JsonArgs),
    Doctor(JsonArgs),
    Recover(RecoverArgs),
    Config(ConfigCommand),
}

pub open spec fn call(command: IpcCommand, show: Show, json: bool) -> Plan {
    Plan::Call { command, follow_up: None, timeout_s: CALL_TIMEOUT, show, json }
}

pub open spec fn call_then(command: IpcCommand, next: IpcCommand, show: Show, json: bool) -> Plan {
    Plan::Call { command, follow_up: Some(next), timeout_s: CALL_TIMEOUT, show, json }
}

pub open spec fn task_plan(t: TaskCommand) -> Plan {
    match t {
        TaskCommand::Start { description, files, json } => call_then(
            IpcCommand::TaskStart { description, scopes: files },
            IpcCommand::TaskList,
            Show::TaskStarted,
            json,
        ),
        TaskCommand::List(a) => call(IpcCommand::TaskList, Show::TaskList, a.json),
        TaskCommand::Show { id, json } => call(IpcCommand::TaskShow { id }, Show::TaskShow, json),
        TaskCommand::Update { id, description, files, json } => call_then(
            IpcCommand::TaskUpdate {
                id,
                description,
                scopes: if files@.len() == 0 {
                    None
                } else {
                    Some(files)
                },
            },
            IpcCommand::TaskShow { id },
            Show::TaskShow,
            json,
        ),
        TaskCommand::Complete { id, json } => call_then(
            IpcCommand::TaskComplete { id },
            IpcCommand::TaskShow { id },
            Show::TaskCompleted,
            json,
        ),
        TaskCommand::Cancel { id, json } => call_then(
            IpcCommand::TaskCancel { id },
            IpcCommand::TaskShow { id },
            Show::TaskCancelled,
            json,
        ),
    }
}

/// A file named on the command line wins over any other source.
pub open spec fn source_of(choice: ResolveChoice, file: Option<String>) -> ResolveSource {
    if file is Some {
        ResolveSource::Supplied
    } else {
        match choice {
            ResolveChoice::Working => ResolveSource::WorkingTree,
            ResolveChoice::Canonical => ResolveSource::Canonical,
            ResolveChoice::Local => ResolveSource::LocalCandidate,
            ResolveChoice::Incoming => ResolveSource::Incoming,
            ResolveChoice::Delete => ResolveSource::Delete,
        }
    }
}

pub open spec fn conflict_plan(c: ConflictCommand) -> Plan {
    match c {
        ConflictCommand::List(a) => call(IpcCommand::ConflictList, Show::ConflictList, a.json),
        ConflictCommand::Show { id, json } => call(
            IpcCommand::ConflictShow { id },
            Show::ConflictShow,
            json,
        ),
        ConflictCommand::Resolve { id, source, content_file, json } => call(
            IpcCommand::ConflictResolve {
                id,
                source: source_of(source, content_file),
                content_file,
            },
            Show::ConflictResolved,
            json,
        ),
        ConflictCommand::Dismiss { id, json } => call(
            IpcCommand::ConflictDismiss { id },
            Show::ConflictDismissed,
            json,
        ),
    }
}

pub open spec fn no_message() -> ErrorView {
    detailed(
        ErrorClass::UsageError,
        "A commit message is required."@,
        "Pass --message \"docs: refine market narrative\", or --message-stdin."@,
    )
}

/// What a command comes to, or `None` where a commit has no message.
pub open spec fn plan_of(command: Command) -> Option<Plan> {
    match command {
        Command::Host(a) => Some(Plan::Host(a)),
        Command::Join(a) => Some(Plan::Join(a)),
        Command::Resume => Some(Plan::Resume),
        Command::Leave(a) => Some(call(IpcCommand::Leave, Show::Left, a.json)),
        Command::Stop(a) => Some(call(IpcCommand::Stop, Show::Stopping, a.json)),
        Command::Status(a) => Some(Plan::Status(a)),
        Command::Peers(a) => Some(call(IpcCommand::Peers, Show::Peers, a.json)),
        Command::Invite(a) => Some(call(IpcCommand::Invite, Show::Invite, a.json)),
        Command::Rescan(a) => Some(call(IpcCommand::Rescan, Show::Rescanned, a.json)),
        Command::Task(t) => Some(task_plan(t)),
        Command::Conflict(c) => Some(conflict_plan(c)),
        Command::Commit(c) => match c {
            CommitCommand::Prepare { allow_active_tasks, json } => Some(
                call(
                    IpcCommand::CommitPrepare { allow_active_tasks },
                    Show::Prepared,
                    json,
                ),
            ),
            CommitCommand::Create { prepare_id, message, message_stdin, json } => match message {
                Some(m) => Some(
                    call(
                        IpcCommand::CommitCreate { prepare_id, message: m },
                        Show::Published,
                        json,
                    ),
                ),
                None => if message_stdin {
                    Some(Plan::CreateFromStdin { prepare_id, json })
                } else {
                    None
                },
            },
        },
        Command::Push(a) => Some(call(IpcCommand::Push, Show::Push, a.json)),
        Command::Tunnel(TunnelCommand::Restart(a)) => Some(
            Plan::Call {
                command: IpcCommand::TunnelRestart,
                follow_up: None,
                timeout_s: TUNNEL_TIMEOUT,
                show: Show::Invite,
                json: a.json,
            },
        ),
        Command::Agent(AgentCommand::Bootstrap(a)) => Some(Plan::Bootstrap(a)),
        Command::Doctor(a) => Some(Plan::Doctor(a)),
        Command::Recover(a) => Some(Plan::Recover(a)),
        Command::Config(c) => Some(Plan::Config(c)),
    }
}

fn ask(command: IpcCommand, show: Show, json: bool) -> (p: Plan)
    ensures
        p == call(command, show, json),
{
    Plan::Call { command, follow_up: None, timeout_s: CALL_TIMEOUT, show, json }
}

fn ask_twice(command: IpcCommand, next: IpcCommand, show: Show, json: bool) -> (p: Plan)
    ensures
        p == call_then(command, next, show, json),
{
    Plan::Call { command, follow_up: Some(next), timeout_s: CALL_TIMEOUT, show, json }
}

pub fn task(t: TaskCommand) -> (p: Plan)
    ensures
        p == task_plan(t),
{
    match t {
        TaskCommand::Start { description, files, json } => ask_twice(
            IpcCommand::TaskStart { description, scopes: files },
            IpcCommand::TaskList,
            Show::TaskStarted,
            json,
        ),
        TaskCommand::List(a) => ask(IpcCommand::TaskList, Show::TaskList, a.json),
        TaskCommand::Show { id, json } => ask(IpcCommand::TaskShow { id }, Show::TaskShow, json),
        TaskCommand::Update { id, description, files, json } => {
            let again = id.clone();
            let scopes = if files.len() == 0 {
                None
            } else {
                Some(files)
            };
            ask_twice(
                IpcCommand::TaskUpdate { id, description, scopes },
                IpcCommand::TaskShow { id: again },
                Show::TaskShow,
                json,
            )
        },
        TaskCommand::Complete { id, json } => {
            let again = id.clone();
            ask_twice(
                IpcCommand::TaskComplete { id },
                IpcCommand::TaskShow { id: again },
                Show::TaskCompleted,
                json,
            )
        },
        TaskCommand::Cancel { id, json } => {
            let again = id.clone();
            ask_twice(
                IpcCommand::TaskCancel { id },
                IpcCommand::TaskShow { id: again },
                Show::TaskCancelled,
                json,
            )
        },
    }
}

pub fn conflict(c: ConflictCommand) -> (p: Plan)
    ensures
        p == conflict_plan(c),
{
    match c {
        ConflictCommand::List(a) => ask(IpcCommand::ConflictList, Show::ConflictList, a.json),
        ConflictCommand::Show { id, json } => ask(
            IpcCommand::ConflictShow { id },
            Show::ConflictShow,
            json,
        ),
        ConflictCommand::Resolve { id, source, content_file, json } => {
            let source = if content_file.is_some() {
                ResolveSource::Supplied
            } else {
                match source {
                    ResolveChoice::Working => ResolveSource::WorkingTree,
                    ResolveChoice::Canonical => ResolveSource::Canonical,
                    ResolveChoice::Local => ResolveSource::LocalCandidate,
                    ResolveChoice::Incoming => ResolveSource::Incoming,
                    ResolveChoice::Delete => ResolveSource::Delete,
                }
            };
            ask(
                IpcCommand::ConflictResolve { id, source, content_file },
                Show::ConflictResolved,
                json,
            )
        },
        ConflictCommand::Dismiss { id, json } => ask(
            IpcCommand::ConflictDismiss { id },
            Show::ConflictDismissed,
            json,
        ),
    }
}

/// What a command comes to.
pub fn run(command: Command) -> (r: Result<Plan>)
    ensures
        match plan_of(command) {
            Some(p) => r == Ok::<Plan, WeaveError>(p),
            None => r matches Err(e) && e@ == no_message(),
        },
{
    let plan = match command {
        Command::Host(a) => Plan::Host(a),
        Command::Join(a) => Plan::Join(a),
        Command::Resume => Plan::Resume,
        Command::Leave(a) => ask(IpcCommand::Leave, Show::Left, a.json),
        Command::Stop(a) => ask(IpcCommand::Stop, Show::Stopping, a.json),
        Command::Status(a) => Plan::Status(a),
        Command::Peers(a) => ask(IpcCommand::Peers, Show::Peers, a.json),
        Command::Invite(a) => ask(IpcCommand::Invite, Show::Invite, a.json),
        Command::Rescan(a) => ask(IpcCommand::Rescan, Show::Rescanned, a.json),
        Command::Task(t) => task(t),
        Command::Conflict(c) => conflict(c),
        Command::Commit(c) => match c {
            CommitCommand::Prepare { allow_active_tasks, json } => ask(
                IpcCommand::CommitPrepare { allow_active_tasks },
                Show::Prepared,
                json,
            ),
            CommitCommand::Create { prepare_id, message, message_stdin, json } => match message {
                Some(m) => ask(
                    IpcCommand::CommitCreate { prepare_id, message: m },
                    Show::Published,
                    json,
                ),
                None => {
                    if !message_stdin {
                        return Err(
                            usage("A commit message is required.").with_detail(
                                "Pass --message \"docs: refine market narrative\", or --message-stdin.".to_owned(),
                            ),
                        );
                    }
                    Plan::CreateFromStdin { prepare_id, json }
                },
            },
        },
        Command::Push(a) => ask(IpcCommand::Push, Show::Push, a.json),
        Command::Tunnel(TunnelCommand::Restart(a)) => Plan::Call {
            command: IpcCommand::TunnelRestart,
            follow_up: None,
            timeout_s: TUNNEL_TIMEOUT,
            show: Show::Invite,
            json: a.json,
        },
        Command::Agent(AgentCommand::Bootstrap(a)) => Plan::Bootstrap(a),
        Command::Doctor(a) => Plan::Doctor(a),
        Command::Recover(a) => Plan::Recover(a),
        Command::Config(c) => Plan::Config(c),
    };
    Ok(plan)
}

// ---------------------------------------------------------------------------
// Configuration
// ---------------------------------------------------------------------------

/// A configuration key.
#[derive(Debug, Clone, Copy, PartialEq, Eq, Structural)]
pub enum ConfigKey {
    ActorId,
    DisplayName,
}

pub open spec fn unknown(key: Seq<char>) -> ErrorView {
    detailed(
        ErrorClass::UsageError,
        "Unknown Weave configuration key `"@ + key + "`."@,
        "Known keys: display_name (read-only: actor_id)."@,
    )
}

pub fn unknown_key(key: &str) -> (e: WeaveError)
    ensures
        e@ == unknown(key@),
{
    let mut m = "Unknown Weave configuration key `".to_owned();
    m.push_str(key);
    m.push_str("`.");
    usage(m.as_str()).with_detail("Known keys: display_name (read-only: actor_id).".to_owned())
}

pub open spec fn is_display_name(key: Seq<char>) -> bool {
    key == "display_name"@ || key == "display-name"@
}

pub open spec fn is_actor_id(key: Seq<char>) -> bool {
    key == "actor_id"@ || key == "actor-id"@
}

/// The key to read.
pub fn key_to_get(key: &str) -> (r: Result<ConfigKey>)
    ensures
        match r {
            Ok(k) => (k == ConfigKey::ActorId && is_actor_id(key@)) || (k == ConfigKey::DisplayName
                && is_display_name(key@)),
            Err(e) => !is_actor_id(key@) && !is_display_name(key@) && e@ == unknown(key@),
        },
{
    if same_text(key, "actor_id") || same_text(key, "actor-id") {
        proof {
            reveal_strlit("actor_id");
            reveal_strlit("actor-id");
            reveal_strlit("display_name");
            reveal_strlit("display-name");
        }
        return Ok(ConfigKey::ActorId);
    }
    if same_text(key, "display_name") || same_text(key, "display-name") {
        return Ok(ConfigKey::DisplayName);
    }
    Err(unknown_key(key))
}

/// The display name to store: blank means none. No other key can be set.
pub fn name_to_set(key: &str, value: &str) -> (r: Result<Option<String>>)
    ensures
        match r {
            Ok(n) => is_display_name(key@) && opt_view(n) == if trim(value@).len() == 0 {
                None
            } else {
                Some(trim(value@))
            },
            Err(e) => !is_display_name(key@) && e@ == unknown(key@),
        },
{
    if !same_text(key, "display_name") && !same_text(key, "display-name") {
        return Err(unknown_key(key));
    }
    let t = trim_text(value);
    if t.as_str().is_empty() {
        Ok(None)
    } else {
        Ok(Some(t))
    }
}

// ---------------------------------------------------------------------------
// Invites and bootstrap
// ---------------------------------------------------------------------------

pub open spec fn no_invite() -> ErrorView {
    detailed(
        ErrorClass::UsageError,
        "No invite was entered."@,
        "Ask the host to run `weave invite`, or use --invite-file / --invite-stdin."@,
    )
}

/// An invite as it was read. One that was asked for at a prompt has to be
/// there.
pub fn read_invite(text: &str, prompted: bool) -> (r: Result<String>)
    ensures
        match r {
            Ok(s) => s@ == trim(text@) && (prompted ==> s@.len() > 0),
            Err(e) => prompted && trim(text@).len() == 0 && e@ == no_invite(),
        },
{
    let t = trim_text(text);
    if prompted && t.as_str().is_empty() {
        return Err(
            usage("No invite was entered.").with_detail(
                "Ask the host to run `weave invite`, or use --invite-file / --invite-stdin.".to_owned(),
            ),
        );
    }
    Ok(t)
}

pub open spec fn bootstrap_form(path: Seq<char>, created: bool, updated: bool) -> Seq<char> {
    if created {
        "Created "@ + path + " with the Weave collaboration block."@
    } else if updated {
        "Updated the Weave block in "@ + path + "."@
    } else {
        "The Weave block in "@ + path + " is already up to date."@
    }
}

/// What `weave agent bootstrap` prints.
pub fn bootstrap_line(path: &str, r: &BootstrapResult) -> (s: String)
    ensures
        s@ == bootstrap_form(path@, r.created, r.updated),
{
    let mut s = String::new();
    if r.created {
        s.push_str("Created ");
        s.push_str(path);
        s.push_str(" with the Weave collaboration block.");
    } else if r.updated {
        s.push_str("Updated the Weave block in ");
        s.push_str(path);
        s.push_str(".");
    } else {
        s.push_str("The Weave block in ");
        s.push_str(path);
        s.push_str(" is already up to date.");
    }
    proof {
        assert(s@ =~= bootstrap_form(path@, r.created, r.updated));
    }
    s
}

} // verus!
