//! `jj-mesh repo clone`: bootstrap a mesh repo onto this machine.
//!
//! Creates a fresh jj repo, gives its workspace a machine-unique name (mesh
//! machines must never share one), asks the daemon to pull the mesh repo's full
//! state from a peer and register it, lets jj merge the fresh workspace into the
//! replicated history, and starts the working copy on trunk.
//!
//! The repo is never colocated: a mesh repo supports at most one colocated
//! checkout.

use vstd::prelude::*;

use super::JjCommand;
use crate::cli::{Reply, ReplyView};
use crate::config::path::FsPath;
use crate::daemon::control::protocol::{
    CloneProgress, CloneProgressView, Request, RequestView, Response, ResponseView, TransferPhase,
    TransferProgress,
};
use crate::order::Duplicate;
use crate::text::{decimal_text, join2, join3};

verus! {

/// Clone a repo from another machine.
///
/// The repo must have been added to the mesh with `jj-mesh repo add`.
#[derive(PartialEq, Eq, Debug)]
pub struct CloneArgs {
    /// Name of the repo in the mesh.
    pub name: String,
    /// Directory to create the repo in (defaults to the repo name). It must not
    /// exist before the clone.
    pub path: Option<FsPath>,
    /// This machine's workspace name in the repo (defaults to the hostname).
    pub workspace: Option<String>,
}

/// The directory a clone creates.
pub open spec fn clone_path(args: CloneArgs) -> Seq<u8> {
    match args.path {
        Some(path) => path@,
        None => vstd::utf8::encode_utf8(args.name@),
    }
}

/// The revset of the usual trunk bookmark names, as local ones.
pub const LOCAL_TRUNK: &'static str =
    "latest(bookmarks(exact:\"main\") | bookmarks(exact:\"master\") | bookmarks(exact:\"trunk\"))";

/// The revset of the remote trunk.
pub const REMOTE_TRUNK: &'static str = "latest(trunk() ~ root())";

/// What a fresh clone does once the pull is through.
#[derive(Clone, Copy, PartialEq, Eq, Structural, Debug)]
pub enum Finish {
    /// Run `jj status`, which merges the fresh workspace into the pulled
    /// history.
    Status,
    /// Recover a stale working copy: a re-clone after `repo forget` finds the
    /// previous instance's same-name workspace in the pulled history.
    UpdateStale,
    /// Start on the remote trunk.
    RemoteTrunk,
    /// Start on a local trunk: a mesh-only repo has no remote bookmarks.
    LocalTrunk,
    /// The clone is ready.
    Ready,
    /// The clone fails with what `jj status` said.
    Failed,
}

/// What follows a step, given whether it succeeded. A recovered working copy
/// keeps its position instead of jumping to trunk, and starting on trunk is
/// best-effort: the clone itself succeeded.
pub open spec fn finish_step(step: Finish, succeeded: bool) -> Finish {
    match step {
        Finish::Status => if succeeded {
            Finish::RemoteTrunk
        } else {
            Finish::UpdateStale
        },
        Finish::UpdateStale => if succeeded {
            Finish::Ready
        } else {
            Finish::Failed
        },
        Finish::RemoteTrunk => if succeeded {
            Finish::Ready
        } else {
            Finish::LocalTrunk
        },
        Finish::LocalTrunk => Finish::Ready,
        Finish::Ready => Finish::Ready,
        Finish::Failed => Finish::Failed,
    }
}

impl Finish {
    /// What follows this step.
    pub fn next(self, succeeded: bool) -> (next: Self)
        ensures
            next == finish_step(self, succeeded),
    {
        match self {
            Finish::Status => if succeeded {
                Finish::RemoteTrunk
            } else {
                Finish::UpdateStale
            },
            Finish::UpdateStale => if succeeded {
                Finish::Ready
            } else {
                Finish::Failed
            },
            Finish::RemoteTrunk => if succeeded {
                Finish::Ready
            } else {
                Finish::LocalTrunk
            },
            Finish::LocalTrunk => Finish::Ready,
            Finish::Ready => Finish::Ready,
            Finish::Failed => Finish::Failed,
        }
    }

    /// The jj command of this step, none once it is over.
    pub fn command(&self) -> (command: Option<JjCommand>)
        ensures
            match command {
                Some(c) => match *self {
                    Finish::Status => c@ == seq!["status"@],
                    Finish::UpdateStale => c@ == seq!["workspace"@, "update-stale"@],
                    Finish::RemoteTrunk => c@ == seq!["new"@, REMOTE_TRUNK@],
                    Finish::LocalTrunk => c@ == seq!["new"@, LOCAL_TRUNK@],
                    _ => false,
                },
                None => *self is Ready || *self is Failed,
            },
    {
        let mut command = JjCommand::new();
        match self {
            Finish::Status => {
                command.arg("status");
                assert(command@ =~= seq!["status"@]);
            },
            Finish::UpdateStale => {
                command.arg("workspace");
                command.arg("update-stale");
                assert(command@ =~= seq!["workspace"@, "update-stale"@]);
            },
            Finish::RemoteTrunk => {
                command.arg("new");
                command.arg(REMOTE_TRUNK);
                assert(command@ =~= seq!["new"@, REMOTE_TRUNK@]);
            },
            Finish::LocalTrunk => {
                command.arg("new");
                command.arg(LOCAL_TRUNK);
                assert(command@ =~= seq!["new"@, LOCAL_TRUNK@]);
            },
            Finish::Ready => {
                return None;
            },
            Finish::Failed => {
                return None;
            },
        }
        Some(command)
    }
}

impl CloneArgs {
    /// The directory the clone creates.
    pub fn path(&self) -> (path: FsPath)
        ensures
            path@ == clone_path(*self),
    {
        match &self.path {
            Some(path) => path.duplicate(),
            None => FsPath::new(self.name.as_str()),
        }
    }

    /// The workspace name: the one asked for, or the hostname.
    pub fn workspace(&self, hostname: &str) -> (name: String)
        ensures
            name@ == match self.workspace {
                Some(name) => name@,
                None => hostname@,
            },
    {
        match &self.workspace {
            Some(name) => name.clone(),
            None => hostname.to_owned(),
        }
    }

    /// What is said when the directory is there already.
    pub fn occupied(&self) -> (text: String)
        ensures
            text@ == crate::config::path::lossy_text(clone_path(*self))
                + " already exists (clone creates the directory)"@,
    {
        join2(
            self.path().display().as_str(),
            " already exists (clone creates the directory)",
        )
    }

    /// `jj git init` of the fresh repo. Never colocated, whatever the user's
    /// `git.colocate`.
    pub fn init(&self) -> (command: JjCommand)
        ensures
            command@ == seq![
                "git"@,
                "init"@,
                "--no-colocate"@,
                crate::config::path::lossy_text(clone_path(*self)),
            ],
    {
        let path = self.path();
        let mut command = JjCommand::new();
        command.arg("git");
        command.arg("init");
        command.arg("--no-colocate");
        command.arg(path.display().as_str());
        assert(command@ =~= seq![
            "git"@,
            "init"@,
            "--no-colocate"@,
            crate::config::path::lossy_text(clone_path(*self)),
        ]);
        command
    }

    /// What is asked of the daemon, once the directory is there under its
    /// canonical path.
    pub fn request(&self, canonical: FsPath) -> (request: Request)
        ensures
            request@ == (RequestView::CloneRepo { name: self.name@, path: canonical@ }),
    {
        Request::CloneRepo { name: self.name.clone(), path: canonical }
    }

    /// What is said around an error of the pull.
    pub fn unregistered(&self) -> (text: String)
        ensures
            text@ == "the repo directory "@ + crate::config::path::lossy_text(clone_path(*self))
                + " was created but not registered, remove it before retrying"@,
    {
        join3(
            "the repo directory ",
            self.path().display().as_str(),
            " was created but not registered, remove it before retrying",
        )
    }

    /// Reads the daemon's terminal answer.
    pub fn reply(&self, response: Response) -> (reply: Reply)
        ensures
            reply@ == match response@ {
                ResponseView::Cloned { ops, git_objects } => ReplyView::Done {
                    text: "Cloned `"@ + self.name@ + "` in "@ + crate::config::path::lossy_text(
                        clone_path(*self),
                    ),
                },
                ResponseView::Error(error) => ReplyView::Failed { error },
                other => ReplyView::Unexpected { response: other },
            },
    {
        match response {
            Response::Cloned { ops: _, git_objects: _ } => {
                let mut text = join3("Cloned `", self.name.as_str(), "` in ");
                text.append(self.path().display().as_str());
                Reply::Done { text }
            },
            Response::Error(error) => Reply::Failed { error },
            response => Reply::Unexpected { response },
        }
    }
}

/// A byte count as [`indicatif::HumanBytes`] shows it: in bytes below one
/// kibibyte, else with two decimals in the largest binary unit it fills.
pub uninterp spec fn human_bytes_text(bytes: u64) -> Seq<char>;

/// The `Display` of [`indicatif::HumanBytes`], a function of the count alone.
/// The rounding of its decimals is left to the name.
#[verifier::external_body]
fn human_bytes(bytes: u64) -> (text: String)
    ensures
        text@ == human_bytes_text(bytes),
{
    indicatif::HumanBytes(bytes).to_string()
}

/// How progress is shown: a spinner while a phase has no known end, a bar once
/// its total is known.
#[derive(PartialEq, Eq, Debug)]
pub enum Shown {
    Spinner { message: String },
    Bar { prefix: String, position: u64, total: u64, message: String },
}

/// How progress is shown, by content.
pub enum ShownView {
    Spinner { message: Seq<char> },
    Bar { prefix: Seq<char>, position: u64, total: u64, message: Seq<char> },
}

impl View for Shown {
    type V = ShownView;

    open spec fn view(&self) -> ShownView {
        match self {
            Shown::Spinner { message } => ShownView::Spinner { message: message@ },
            Shown::Bar { prefix, position, total, message } => ShownView::Bar {
                prefix: prefix@,
                position: *position,
                total: *total,
                message: message@,
            },
        }
    }
}

/// How a progress frame is shown, given its byte count as a text.
pub open spec fn shown_progress(progress: CloneProgressView, bytes: Seq<char>) -> ShownView {
    let peer = progress.peer;
    let transfer = progress.transfer;
    if peer.len() == 0 {
        ShownView::Spinner { message: "Contacting peers..."@ }
    } else {
        match (transfer.phase, transfer.total) {
            (TransferPhase::Ops, None) => ShownView::Spinner {
                message: "Pulling history from `"@ + peer + "`: "@ + crate::text::decimal(
                    transfer.current as nat,
                ) + " operations"@,
            },
            (TransferPhase::Ops, Some(total)) => ShownView::Bar {
                prefix: "Pulling history from `"@ + peer + "`"@,
                position: transfer.current,
                total,
                message: "operations"@,
            },
            (TransferPhase::Git, None) => ShownView::Spinner {
                message: "Pulling files from `"@ + peer + "`: "@ + bytes,
            },
            (TransferPhase::Git, Some(total)) => ShownView::Bar {
                prefix: "Pulling files from `"@ + peer + "`"@,
                position: transfer.current,
                total,
                message: "objects ("@ + bytes + ")"@,
            },
            (TransferPhase::Apply, total) => ShownView::Spinner {
                message: "Writing the repo..."@,
            },
        }
    }
}

/// Decides how a progress frame is shown, as phases and totals come and go.
pub fn show_progress(progress: &CloneProgress) -> (shown: Shown)
    ensures
        shown@ == shown_progress(progress@, human_bytes_text(progress@.transfer.bytes)),
{
    progress_line(progress, human_bytes(progress.transfer.bytes).as_str())
}

/// [`show_progress`], given the frame's byte count as a text.
pub fn progress_line(progress: &CloneProgress, bytes: &str) -> (shown: Shown)
    ensures
        shown@ == shown_progress(progress@, bytes@),
{
    let transfer: &TransferProgress = &progress.transfer;
    if progress.peer.as_str().is_empty() {
        // Seeded state before the daemon picked a source peer.
        return Shown::Spinner { message: "Contacting peers...".to_owned() };
    }
    match transfer.phase {
        TransferPhase::Ops => {
            let prefix = join3("Pulling history from `", progress.peer.as_str(), "`");
            match transfer.total {
                None => {
                    let mut message = join3(
                        "Pulling history from `",
                        progress.peer.as_str(),
                        "`: ",
                    );
                    message.append(decimal_text(transfer.current).as_str());
                    message.append(" operations");
                    Shown::Spinner { message }
                },
                Some(total) => Shown::Bar {
                    prefix,
                    position: transfer.current,
                    total,
                    message: "operations".to_owned(),
                },
            }
        },
        TransferPhase::Git => {
            let prefix = join3("Pulling files from `", progress.peer.as_str(), "`");
            match transfer.total {
                None => {
                    let mut message = join3(
                        "Pulling files from `",
                        progress.peer.as_str(),
                        "`: ",
                    );
                    message.append(bytes);
                    Shown::Spinner { message }
                },
                Some(total) => Shown::Bar {
                    prefix,
                    position: transfer.current,
                    total,
                    message: join3("objects (", bytes, ")"),
                },
            }
        },
        TransferPhase::Apply => Shown::Spinner { message: "Writing the repo...".to_owned() },
    }
}

/// A clone ends ready unless both the first status run and the recovery fail. It
/// recovers only after a failed status, starts on a local trunk only after the
/// remote one failed, and stays where it is once recovered.
pub proof fn clones_end_ready_or_failed(step: Finish, succeeded: bool)
    ensures
        ({
            let next = finish_step(step, succeeded);
            &&& next is UpdateStale <==> step is Status && !succeeded
            &&& next is RemoteTrunk <==> step is Status && succeeded
            &&& next is LocalTrunk <==> step is RemoteTrunk && !succeeded
            &&& next is Failed <==> step is Failed || (step is UpdateStale && !succeeded)
            &&& !(next is Status)
        }),
        finish_step(Finish::UpdateStale, true) is Ready,
        finish_step(Finish::LocalTrunk, succeeded) is Ready,
        finish_step(Finish::Ready, succeeded) is Ready,
{
}

/// Progress is a bar exactly while something of a known total is being pulled
/// from a peer, at the place and out of the total that was reported.
pub proof fn bars_need_a_total(progress: CloneProgressView, bytes: Seq<char>)
    ensures
        ({
            let shown = shown_progress(progress, bytes);
            let transfer = progress.transfer;
            &&& shown is Bar <==> progress.peer.len() > 0 && transfer.total is Some && !(
            transfer.phase is Apply)
            &&& shown is Bar ==> shown->position == transfer.current && Some(shown->total)
                == transfer.total
        }),
{
}

} // verus!
