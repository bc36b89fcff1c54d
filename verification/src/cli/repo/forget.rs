//! `jj-mesh repo forget`: unregister a repo on this machine only.

use vstd::prelude::*;

use crate::cli::{Reply, ReplyView};
use crate::daemon::control::protocol::{Request, RequestView, Response, ResponseView};
use crate::text::join3;

verus! {

/// Forget the local instance of a repo.
///
/// This machine stops synchronizing the repo and unregisters it, without
/// touching any of the local files. Other machines keep syncing it.
#[derive(PartialEq, Eq, Debug)]
pub struct ForgetArgs {
    /// Name of the repo in the mesh.
    pub name: String,
}

/// What the user reads once a repo is forgotten.
pub open spec fn forgotten_text(name: Seq<char>, path: Seq<u8>) -> Seq<char> {
    "Forgot repo `"@ + name + "`; it is no longer synchronized on this machine\nIts files at "@
        + crate::config::path::lossy_text(path)
        + " are untouched, and the mesh still has the repo\nNote: if no other machine holds `"@
        + name
        + "`, nobody can clone it anymore; retire the name with `jj-mesh repo remove` instead"@
}

impl ForgetArgs {
    /// What is asked of the daemon.
    pub fn request(&self) -> (request: Request)
        ensures
            request@ == (RequestView::ForgetRepo { name: self.name@ }),
    {
        Request::ForgetRepo { name: self.name.clone() }
    }

    /// Reads the daemon's answer.
    pub fn reply(&self, response: Response) -> (reply: Reply)
        ensures
            reply@ == match response@ {
                ResponseView::RepoForgotten { path } => ReplyView::Done {
                    text: forgotten_text(self.name@, path),
                },
                ResponseView::Error(error) => ReplyView::Failed { error },
                other => ReplyView::Unexpected { response: other },
            },
    {
        match response {
            Response::RepoForgotten { path } => {
                let mut text = join3(
                    "Forgot repo `",
                    self.name.as_str(),
                    "`; it is no longer synchronized on this machine\nIts files at ",
                );
                text.append(path.display().as_str());
                text.append(
                    " are untouched, and the mesh still has the repo\nNote: if no other machine holds `",
                );
                text.append(self.name.as_str());
                text.append(
                    "`, nobody can clone it anymore; retire the name with `jj-mesh repo remove` instead",
                );
                Reply::Done { text }
            },
            Response::Error(error) => Reply::Failed { error },
            response => Reply::Unexpected { response },
        }
    }
}

} // verus!
