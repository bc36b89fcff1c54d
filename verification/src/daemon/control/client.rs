//! Client side of the control socket: how the CLI reads what the daemon says.

use vstd::prelude::*;

use crate::daemon::control::protocol::{CloneProgress, Response, ResponseView};
use crate::order::same_text;
use crate::text::{join3, starts_with};

verus! {

/// What is said when the daemon does not answer in time.
pub const NO_ANSWER: &'static str = "the daemon did not answer";

/// What is said when an answer cannot be decoded: it most likely comes from a
/// daemon of another build.
pub const UNREADABLE: &'static str =
    "cannot read the daemon's answer: if it runs another build of jj-mesh, restart it with `jj-mesh service restart`";

/// Error of every command that needs the daemon when none is running.
///
/// The CLI entry point recognizes this type and reports it as a plain message
/// rather than an error report: not having started the daemon yet is an expected
/// situation, not a failure to debug.
#[derive(Clone, Copy, PartialEq, Eq, Structural, Debug)]
pub struct DaemonNotRunning;

impl DaemonNotRunning {
    /// The error as shown to the user.
    pub fn message(&self) -> (text: String)
        ensures
            text@
                == "The jj-mesh daemon is not running. Install it with `jj-mesh service install`."@,
    {
        "The jj-mesh daemon is not running. Install it with `jj-mesh service install`.".to_owned()
    }
}

/// Whether a build names a commit it can be compared by.
pub open spec fn known(build: Seq<char>) -> bool {
    build.len() > 0 && !"unknown"@.is_prefix_of(build)
}

/// Whether a daemon is certainly another build than the CLI. Builds without a
/// known commit cannot be compared.
pub open spec fn mismatched(daemon: Seq<char>, own: Seq<char>) -> bool {
    known(daemon) && known(own) && daemon != own
}

fn is_known(build: &str) -> (r: bool)
    ensures
        r == known(build@),
{
    !build.is_empty() && !starts_with(build, "unknown")
}

/// Checks that the daemon is not another build than the CLI: the exchange would
/// likely fail to decode. Fails with the error shown to the user.
pub fn check_build(daemon: &str, own: &str) -> (r: Result<(), String>)
    ensures
        match r {
            Ok(()) => !mismatched(daemon@, own@),
            Err(text) => {
                &&& mismatched(daemon@, own@)
                &&& text@ == "the daemon runs jj-mesh build "@ + daemon@
                    + " while this command is build "@ + own@
                    + ": restart it with `jj-mesh service restart`"@
            },
        },
{
    if is_known(daemon) && is_known(own) && !same_text(daemon, own) {
        let mut text = join3(
            "the daemon runs jj-mesh build ",
            daemon,
            " while this command is build ",
        );
        text.append(own);
        text.append(": restart it with `jj-mesh service restart`");
        return Err(text);
    }
    Ok(())
}

/// What an answer means to a waiting command.
pub enum Frame {
    /// Show the progress and wait on.
    Progress(CloneProgress),
    /// The request failed.
    Failed(String),
    /// The terminal answer.
    Answer(Response),
}

/// Reads an answer: progress frames are passed on, an error ends the request,
/// and the first other answer is what the command asked for.
pub fn read_frame(response: Response) -> (frame: Frame)
    ensures
        match (response@, frame) {
            (ResponseView::CloneProgress(progress), Frame::Progress(p)) => p@ == progress,
            (ResponseView::Error(message), Frame::Failed(m)) => m@ == message,
            (ResponseView::CloneProgress(progress), _) => false,
            (ResponseView::Error(message), _) => false,
            (other, Frame::Answer(r)) => r@ == other,
            _ => false,
        },
{
    match response {
        Response::CloneProgress(progress) => Frame::Progress(progress),
        Response::Error(message) => Frame::Failed(message),
        response => Frame::Answer(response),
    }
}

/// Builds mismatch exactly when both are known and differ: a build that is not
/// told, or does not know its commit, is never taken for another.
pub proof fn only_known_builds_mismatch(daemon: Seq<char>, own: Seq<char>)
    ensures
        !mismatched(own, own),
        mismatched(daemon, own) == mismatched(own, daemon),
        daemon.len() == 0 || "unknown"@.is_prefix_of(daemon) ==> !mismatched(daemon, own),
        daemon != own && daemon.len() > 0 && own.len() > 0 && !"unknown"@.is_prefix_of(daemon)
            && !"unknown"@.is_prefix_of(own) ==> mismatched(daemon, own),
{
}

} // verus!
