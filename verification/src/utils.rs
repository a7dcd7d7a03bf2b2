//! The preamble of an invocation: who runs it, where, and on which revision.

use crate::events::{new_invoke_event, Et, Event, ExecutionStart, InvokeEvent, InvokeVariant};
use vstd::prelude::*;
use vstd::string::*;

verus! {

/// Calls `whoami::fallible::hostname`: the name of the host, if the
/// operating system tells it.  Nothing is claimed of the name.
#[verifier::external_body]
fn hostname() -> Option<String> {
    whoami::fallible::hostname().ok()
}

/// Calls `whoami::fallible::username`: the name of the user, if the
/// operating system tells it.  Nothing is claimed of the name.
#[verifier::external_body]
fn username() -> Option<String> {
    whoami::fallible::username().ok()
}

/// What a revision control system says of where the engine runs.  Each
/// part is empty where it could not be found out.
#[derive(Debug, PartialEq, Eq)]
pub struct GitInfo {
    pub hash: String,
    pub branch: String,
    pub repo: String,
}

/// The preamble for the given host and user.  A host that is not known is
/// called `unknown_host`, a user that is not known `unkown_user`.
pub fn execution_start(
    hostname: Option<String>,
    username: Option<String>,
    smelt_root: String,
    git: GitInfo,
) -> (out: ExecutionStart)
    ensures
        out.hostname@ == match hostname {
            Some(name) => name@,
            None => "unknown_host"@,
        },
        out.username@ == match username {
            Some(name) => name@,
            None => "unkown_user"@,
        },
        out.smelt_root == smelt_root,
        out.git_hash == git.hash,
        out.git_branch == git.branch,
        out.git_repo == git.repo,
{
    let hostname = match hostname {
        Some(name) => name,
        None => String::from_str("unknown_host"),
    };
    let username = match username {
        Some(name) => name,
        None => String::from_str("unkown_user"),
    };
    ExecutionStart {
        hostname,
        username,
        smelt_root,
        git_hash: git.hash,
        git_branch: git.branch,
        git_repo: git.repo,
    }
}

/// The preamble for this host and this user, as far as the operating
/// system tells them.
pub fn exec_info(smelt_root: String, git: GitInfo) -> (out: ExecutionStart)
    ensures
        out.smelt_root == smelt_root,
        out.git_hash == git.hash,
        out.git_branch == git.branch,
        out.git_repo == git.repo,
{
    execution_start(hostname(), username(), smelt_root, git)
}

/// The event that opens the invocation `trace_id`.
pub fn invoke_start_message(trace_id: String, smelt_root: String, git: GitInfo) -> (out: Event)
    ensures
        out.trace_id == trace_id,
        out.summary() is InvokeStart,
        out.et matches Some(Et::Invoke(InvokeEvent { invoke_variant: Some(InvokeVariant::Start(start)) }))
            && start.smelt_root == smelt_root && start.git_hash == git.hash && start.git_branch
            == git.branch && start.git_repo == git.repo,
{
    let invoke_variant = InvokeVariant::Start(exec_info(smelt_root, git));
    new_invoke_event(trace_id, invoke_variant)
}

} // verus!
