//! Command-line interface: what the commands ask of the daemon, decide and show.

pub mod commit;
pub mod complete;
pub mod peer;
pub mod repo;
pub mod service;
pub mod status;
pub mod ui;

use vstd::prelude::*;

use crate::config::path::FsPath;
use crate::daemon::control::protocol::{Response, ResponseView};

verus! {

/// A parsed command line.
pub struct Cli {
    /// Custom configuration directory.
    pub config_dir: Option<FsPath>,
    pub command: Command,
}

/// The commands of `jj-mesh`.
pub enum Command {
    Repo(repo::RepoArgs),
    Peer(peer::PeerArgs),
    Service(service::ServiceArgs),
    Status(status::StatusArgs),
    /// What the installed service runs; users manage the daemon through
    /// `jj-mesh service`.
    RunDaemon(RunDaemonArgs),
}

/// Run the sync daemon in the foreground.
#[derive(Clone, Copy, PartialEq, Eq, Structural, Debug)]
pub struct RunDaemonArgs {}

/// What a daemon answer means to a command.
pub enum Reply {
    /// The command succeeded; the text is for the user.
    Done { text: String },
    /// The command failed.
    Failed { error: String },
    /// The daemon answered something else.
    Unexpected { response: Response },
}

/// What a daemon answer means to a command, by content.
pub enum ReplyView {
    Done { text: Seq<char> },
    Failed { error: Seq<char> },
    Unexpected { response: ResponseView },
}

impl View for Reply {
    type V = ReplyView;

    open spec fn view(&self) -> ReplyView {
        match self {
            Reply::Done { text } => ReplyView::Done { text: text@ },
            Reply::Failed { error } => ReplyView::Failed { error: error@ },
            Reply::Unexpected { response } => ReplyView::Unexpected { response: response@ },
        }
    }
}

} // verus!
