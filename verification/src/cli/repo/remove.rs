//! `jj-mesh repo remove`: retire a repo from the whole mesh.

use vstd::prelude::*;

use crate::cli::{Reply, ReplyView};
use crate::daemon::control::protocol::{Request, RequestView, Response, ResponseView};
use crate::text::{join3, trim};

verus! {

/// Remove a repo from the whole mesh.
///
/// Every machine stops synchronizing the repo. The files stay untouched.
#[derive(PartialEq, Eq, Debug)]
pub struct RemoveArgs {
    /// Name of the repo in the mesh.
    pub name: String,
    /// Skip the confirmation prompt.
    pub yes: bool,
}

/// A character with ASCII capitals made small.
pub open spec fn lowered(c: char) -> char {
    if 'A' <= c <= 'Z' {
        (c as u32 + 32) as char
    } else {
        c
    }
}

/// Whether an answer to the confirmation prompt agrees.
pub open spec fn agrees(answer: Seq<char>) -> bool {
    let said = crate::text::trimmed(answer).map_values(|c: char| lowered(c));
    said == "y"@ || said == "yes"@
}

/// Whether a character is a given small letter, or its capital.
fn is_letter(c: char, small: char, capital: char) -> (r: bool)
    requires
        'a' <= small <= 'z',
        capital as u32 + 32 == small as u32,
    ensures
        r == (lowered(c) == small),
{
    c == small || c == capital
}

/// Reads the answer to the confirmation prompt.
pub fn confirms(answer: &str) -> (r: bool)
    ensures
        r == agrees(answer@),
{
    let said = trim(answer);
    let ghost small = said@.map_values(|c: char| lowered(c));
    proof {
        reveal_strlit("y");
        reveal_strlit("yes");
    }
    if said.len() == 1 && is_letter(said[0], 'y', 'Y') {
        assert(small =~= "y"@);
        return true;
    }
    if said.len() == 3 && is_letter(said[0], 'y', 'Y') && is_letter(said[1], 'e', 'E') && is_letter(
        said[2],
        's',
        'S',
    ) {
        assert(small =~= "yes"@);
        return true;
    }
    proof {
        assert(small.len() == said@.len());
        if small == "y"@ {
            assert(small[0] == lowered(said@[0]));
        }
        if small == "yes"@ {
            assert(small[0] == lowered(said@[0]));
            assert(small[1] == lowered(said@[1]));
            assert(small[2] == lowered(said@[2]));
        }
    }
    false
}

impl RemoveArgs {
    /// The question put to the user before the mesh-wide removal.
    pub fn prompt(&self) -> (text: String)
        ensures
            text@ == "Remove `"@ + self.name@ + "` from every machine on the mesh? [y/N] "@,
    {
        join3("Remove `", self.name.as_str(), "` from every machine on the mesh? [y/N] ")
    }

    /// What is said when there is no terminal to put the question on.
    pub fn unconfirmed(&self) -> (text: String)
        ensures
            text@ == "refusing to remove `"@ + self.name@
                + "` without a terminal to confirm on; pass --yes"@,
    {
        join3(
            "refusing to remove `",
            self.name.as_str(),
            "` without a terminal to confirm on; pass --yes",
        )
    }

    /// What is asked of the daemon.
    pub fn request(&self) -> (request: Request)
        ensures
            request@ == (RequestView::RemoveRepo { name: self.name@ }),
    {
        Request::RemoveRepo { name: self.name.clone() }
    }

    /// Reads the daemon's answer.
    pub fn reply(&self, response: Response) -> (reply: Reply)
        ensures
            reply@ == match response@ {
                ResponseView::RepoRemoved { was_local } => ReplyView::Done {
                    text: if was_local {
                        "Removed repo `"@ + self.name@ + "` from the mesh"@
                            + "\nIt is no longer synchronized here; its files are untouched."@
                    } else {
                        "Removed repo `"@ + self.name@ + "` from the mesh"@
                    },
                },
                ResponseView::Error(error) => ReplyView::Failed { error },
                other => ReplyView::Unexpected { response: other },
            },
    {
        match response {
            Response::RepoRemoved { was_local } => {
                let mut text = join3("Removed repo `", self.name.as_str(), "` from the mesh");
                if was_local {
                    text.append("\nIt is no longer synchronized here; its files are untouched.");
                }
                Reply::Done { text }
            },
            Response::Error(error) => Reply::Failed { error },
            response => Reply::Unexpected { response },
        }
    }
}

} // verus!
