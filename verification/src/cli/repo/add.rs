//! `jj-mesh repo add`: register a repo on the mesh.

use vstd::prelude::*;

use crate::cli::{Reply, ReplyView};
use crate::config::path::FsPath;
use crate::daemon::control::protocol::{Request, RequestView, Response, ResponseView};
use crate::order::{Duplicate, same_text};
use crate::text::join3;

verus! {

/// Add a repo to the mesh.
///
/// The repo will be made available for other machines to clone with `jj-mesh
/// repo clone`, and any changes will be synced across the mesh.
#[derive(PartialEq, Eq, Debug)]
pub struct AddArgs {
    /// Path inside the jj repo to add (defaults to the current directory).
    pub path: Option<FsPath>,
    /// Name of the repo in the mesh (defaults to the repo directory name).
    pub name: Option<String>,
    /// This machine's workspace name in the repo (defaults to the hostname).
    pub workspace: Option<String>,
}

/// The name a repo is added under: the one asked for, or that of its directory.
pub open spec fn added_name(name: Option<Seq<char>>, root: Seq<u8>) -> Option<Seq<char>> {
    match name {
        Some(name) => Some(name),
        None => match crate::config::path::name_in(root) {
            Some(dir) => Some(crate::config::path::lossy_text(dir)),
            None => None,
        },
    }
}

/// The name a workspace is given, if it is to be renamed: a repo still on jj's
/// `default` workspace name gets the hostname, so workspace names stay unique
/// across the mesh; a deliberately named workspace is kept as-is.
pub open spec fn new_workspace(
    asked: Option<Seq<char>>,
    current: Seq<char>,
    hostname: Seq<char>,
) -> Option<Seq<char>> {
    match asked {
        Some(name) => Some(name),
        None => if current == "default"@ {
            Some(hostname)
        } else {
            None
        },
    }
}

impl AddArgs {
    /// Where to look for the repo.
    pub fn path(&self) -> (path: FsPath)
        ensures
            path@ == match self.path {
                Some(p) => p@,
                None => vstd::utf8::encode_utf8("."@),
            },
    {
        match &self.path {
            Some(path) => path.duplicate(),
            None => FsPath::new("."),
        }
    }

    /// The name of the repo found at `root`; fails with the error shown to the
    /// user.
    pub fn name(&self, root: &FsPath) -> (r: Result<String, String>)
        ensures
            match r {
                Ok(name) => added_name(crate::net::sync::text_view(self.name), root@) == Some(
                    name@,
                ),
                Err(text) => {
                    &&& added_name(crate::net::sync::text_view(self.name), root@) is None
                    &&& text@ == "cannot derive a name from "@ + crate::config::path::lossy_text(
                        match self.path {
                            Some(p) => p@,
                            None => vstd::utf8::encode_utf8("."@),
                        },
                    ) + ", use --name"@
                },
            },
    {
        if let Some(name) = &self.name {
            return Ok(name.clone());
        }
        match root.file_name() {
            Some(dir) => Ok(dir.display()),
            None => Err(
                join3(
                    "cannot derive a name from ",
                    self.path().display().as_str(),
                    ", use --name",
                ),
            ),
        }
    }

    /// The name to give the repo's workspace, if it is to be renamed.
    pub fn workspace(&self, current: &str, hostname: &str) -> (name: Option<String>)
        ensures
            crate::net::sync::text_view(name) == new_workspace(
                crate::net::sync::text_view(self.workspace),
                current@,
                hostname@,
            ),
    {
        match &self.workspace {
            Some(name) => Some(name.clone()),
            None => if same_text(current, "default") {
                Some(hostname.to_owned())
            } else {
                None
            },
        }
    }
}

/// What is asked of the daemon.
pub fn request(name: &str, root: &FsPath) -> (request: Request)
    ensures
        request@ == (RequestView::AddRepo { name: name@, path: root@ }),
{
    Request::AddRepo { name: name.to_owned(), path: root.duplicate() }
}

/// Reads the daemon's answer.
pub fn reply(name: &str, root: &FsPath, response: Response) -> (reply: Reply)
    ensures
        reply@ == match response@ {
            ResponseView::RepoAdded => ReplyView::Done {
                text: "Added repo `"@ + name@ + "` at "@ + crate::config::path::lossy_text(root@),
            },
            ResponseView::Error(error) => ReplyView::Failed { error },
            other => ReplyView::Unexpected { response: other },
        },
{
    match response {
        Response::RepoAdded => {
            let mut text = join3("Added repo `", name, "` at ");
            text.append(root.display().as_str());
            Reply::Done { text }
        },
        Response::Error(error) => Reply::Failed { error },
        response => Reply::Unexpected { response },
    }
}

/// A repo goes by the name it is given, else by the name of its directory; one
/// that has neither gets none.
pub proof fn given_names_win(name: Option<Seq<char>>, root: Seq<u8>)
    ensures
        name is Some ==> added_name(name, root) == name,
        name is None ==> (added_name(name, root) is Some
            <==> crate::config::path::name_in(root) is Some),
        name is None && crate::config::path::name_in(root) is Some ==> added_name(
            name,
            root,
        )->Some_0 == crate::config::path::lossy_text(crate::config::path::name_in(root)->Some_0),
{
}

/// A workspace is renamed to the name asked for, else to the host's only while
/// it still goes by the default; one named on purpose is kept.
pub proof fn deliberate_workspace_names_are_kept(
    asked: Option<Seq<char>>,
    current: Seq<char>,
    hostname: Seq<char>,
)
    ensures
        asked is Some ==> new_workspace(asked, current, hostname) == asked,
        asked is None && current != "default"@ ==> new_workspace(asked, current, hostname) is None,
        asked is None && current == "default"@ ==> new_workspace(asked, current, hostname) == Some(
            hostname,
        ),
{
}

} // verus!
