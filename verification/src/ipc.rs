//! The local control endpoint: what short-lived commands say to the daemon
//! that runs the session, and what it answers.

use vstd::prelude::*;

use crate::error::{detailed, session as session_err, ErrorClass, ErrorView, Result, WeaveError};
use crate::model::copy_text;
use crate::text::opt_view;

verus! {

/// Where the resolved bytes for a conflict resolution come from.
#[derive(Debug, Clone, Copy, PartialEq, Eq, Structural)]
pub enum ResolveSource {
    /// Whatever is in the working tree right now (the default).
    WorkingTree,
    /// Keep the canonical host content.
    Canonical,
    /// Use the latest preserved local candidate.
    LocalCandidate,
    /// Use the rejected incoming candidate.
    Incoming,
    /// Resolve by deleting the path.
    Delete,
    /// Use the content of a file named with the request.
    Supplied,
}

#[allow(inconsistent_fields)]
#[derive(Debug)]
pub enum IpcCommand {
    Status,
    Peers,
    Invite,
    Rescan,
    TaskList,
    TaskStart { description: String, scopes: Vec<String> },
    TaskShow { id: String },
    TaskUpdate { id: String, description: Option<String>, scopes: Option<Vec<String>> },
    TaskComplete { id: String },
    TaskCancel { id: String },
    ConflictList,
    ConflictShow { id: String },
    ConflictResolve { id: String, source: ResolveSource, content_file: Option<String> },
    ConflictDismiss { id: String },
    CommitPrepare { allow_active_tasks: bool },
    CommitCreate { prepare_id: String, message: String },
    Push,
    TunnelRestart,
    Stop,
    Leave,
}

#[derive(Debug)]
pub struct IpcRequest {
    pub token: String,
    pub command: IpcCommand,
}

/// An answer; its data is JSON text.
#[allow(inconsistent_fields)]
#[derive(Debug)]
pub enum IpcResponse {
    Done { ok: bool, data: String },
    Failed { ok: bool, class: ErrorClass, message: String, detail: Option<String> },
}

impl IpcResponse {
    pub fn ok(data: String) -> (r: IpcResponse)
        ensures
            r matches IpcResponse::Done { ok: true, data: d } && d@ == data@,
    {
        IpcResponse::Done { ok: true, data }
    }

    pub fn empty() -> (r: IpcResponse)
        ensures
            r matches IpcResponse::Done { ok: true, data: d } && d@ == "{}"@,
    {
        IpcResponse::Done { ok: true, data: "{}".to_owned() }
    }

    pub fn error(e: &WeaveError) -> (r: IpcResponse)
        ensures
            r matches IpcResponse::Failed { ok: false, class, message, detail } && (ErrorView {
                class,
                message: message@,
                detail: opt_view(detail),
            }) == e@,
    {
        IpcResponse::Failed {
            ok: false,
            class: e.class,
            message: e.message.clone(),
            detail: copy_text(&e.detail),
        }
    }

    pub fn into_result(self) -> (r: Result<String>)
        ensures
            match self {
                IpcResponse::Done { data, .. } => r matches Ok(d) && d@ == data@,
                IpcResponse::Failed { class, message, detail, .. } => r matches Err(e) && e@ == (
                ErrorView { class, message: message@, detail: opt_view(detail) }),
            },
    {
        match self {
            IpcResponse::Done { data, .. } => Ok(data),
            IpcResponse::Failed { class, message, detail, .. } => Err(
                WeaveError { class, message, detail },
            ),
        }
    }
}

/// What a command is told when nothing answers.
pub fn no_daemon() -> (e: WeaveError)
    ensures
        e@ == detailed(
            ErrorClass::SessionError,
            "No Weave session is running for this repository."@,
            "Start one with `weave host` (or `weave join` to enter someone else's session)."@,
        ),
{
    session_err("No Weave session is running for this repository.").with_detail(
        "Start one with `weave host` (or `weave join` to enter someone else's session).".to_owned(),
    )
}

} // verus!
