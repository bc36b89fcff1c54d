//! `jj-mesh peer`: manage the paired machines.
//!
//! Pairing always runs through the daemon, which owns the machine-key endpoint:
//! the CLI drives it over the control socket. Hosting only asks the daemon for a
//! ticket; the daemon completes the pairing on its own once the other machine
//! redeems the ticket.

use vstd::prelude::*;

use super::{Reply, ReplyView};
use crate::daemon::control::protocol::{
    PAIR_TICKET_TTL, Request, RequestView, Response, ResponseView,
};
use crate::text::{decimal_text, join2, join3};

verus! {

/// How long to wait for the daemon to issue a ticket, in milliseconds (it may
/// first wait for its relay connection to come up).
pub const TICKET_TIMEOUT: u64 = 45_000;

/// Manage the machines of the mesh.
pub struct PeerArgs {
    pub command: PeerCommand,
}

/// What to do with the machines of the mesh.
pub enum PeerCommand {
    Add(AddArgs),
    Remove(RemoveArgs),
    Rename(RenameArgs),
}

/// Pair with another machine, adding it to the mesh.
#[derive(PartialEq, Eq, Debug)]
pub struct AddArgs {
    /// Pairing ticket printed on the other machine; without one, a ticket is
    /// generated.
    pub ticket: Option<String>,
}

/// Remove a machine from the mesh.
#[derive(PartialEq, Eq, Debug)]
pub struct RemoveArgs {
    /// Name of the peer to remove.
    pub peer: String,
}

/// Rename this machine.
#[derive(PartialEq, Eq, Debug)]
pub struct RenameArgs {
    /// New name of this machine.
    pub name: String,
}

/// What the user reads once a ticket is issued.
pub open spec fn hosting_text(ticket: Seq<char>) -> Seq<char> {
    "To pair, run this on the other machine:\n\n    jj-mesh peer add "@ + ticket
        + "\n\nThe ticket is valid for "@ + crate::text::decimal(
        (PAIR_TICKET_TTL / 60_000) as nat,
    )
        + " minutes, for a single pairing; running `jj-mesh peer add` again replaces it. The new peer will show up in `jj-mesh status`."@
}

impl AddArgs {
    /// What is asked of the daemon: to host a pairing, or to join one.
    pub fn request(self) -> (request: Request)
        ensures
            request@ == match self.ticket {
                Some(ticket) => RequestView::PairJoin { ticket: ticket@ },
                None => RequestView::PairHost,
            },
    {
        match self.ticket {
            Some(ticket) => Request::PairJoin { ticket },
            None => Request::PairHost,
        }
    }
}

/// Reads the answer to hosting a pairing.
pub fn hosted(response: Response) -> (reply: Reply)
    ensures
        reply@ == match response@ {
            ResponseView::PairTicket(ticket) => ReplyView::Done { text: hosting_text(ticket) },
            ResponseView::Error(error) => ReplyView::Failed {
                error: "cannot start pairing: "@ + error,
            },
            other => ReplyView::Unexpected { response: other },
        },
{
    match response {
        Response::PairTicket(ticket) => {
            let mut text = join3(
                "To pair, run this on the other machine:\n\n    jj-mesh peer add ",
                ticket.as_str(),
                "\n\nThe ticket is valid for ",
            );
            text.append(decimal_text(PAIR_TICKET_TTL / 60_000).as_str());
            text.append(
                " minutes, for a single pairing; running `jj-mesh peer add` again replaces it. The new peer will show up in `jj-mesh status`.",
            );
            Reply::Done { text }
        },
        Response::Error(error) => Reply::Failed {
            error: join2("cannot start pairing: ", error.as_str()),
        },
        response => Reply::Unexpected { response },
    }
}

/// Reads the answer to joining a pairing.
pub fn joined(response: Response) -> (reply: Reply)
    ensures
        reply@ == match response@ {
            ResponseView::Paired { name, endpoint } => ReplyView::Done {
                text: "Paired with `"@ + name + "` ("@ + crate::net::endpoint::hex_lower(endpoint)
                    + ")"@,
            },
            ResponseView::Error(error) => ReplyView::Failed { error: "pairing failed: "@ + error },
            other => ReplyView::Unexpected { response: other },
        },
{
    match response {
        Response::Paired { name, endpoint } => {
            let mut text = join3("Paired with `", name.as_str(), "` (");
            text.append(endpoint.to_text().as_str());
            text.append(")");
            Reply::Done { text }
        },
        Response::Error(error) => Reply::Failed {
            error: join2("pairing failed: ", error.as_str()),
        },
        response => Reply::Unexpected { response },
    }
}

impl RemoveArgs {
    /// What is asked of the daemon.
    pub fn request(&self) -> (request: Request)
        ensures
            request@ == (RequestView::RemovePeer { peer: self.peer@ }),
    {
        Request::RemovePeer { peer: self.peer.clone() }
    }

    /// Reads the daemon's answer.
    pub fn reply(&self, response: Response) -> (reply: Reply)
        ensures
            reply@ == match response@ {
                ResponseView::PeerRemoved(endpoint) => ReplyView::Done {
                    text: "Removed peer `"@ + self.peer@ + "` ("@
                        + crate::net::endpoint::hex_lower(endpoint) + ")"@,
                },
                ResponseView::Error(error) => ReplyView::Failed { error },
                other => ReplyView::Unexpected { response: other },
            },
    {
        match response {
            Response::PeerRemoved(endpoint) => {
                let mut text = join3("Removed peer `", self.peer.as_str(), "` (");
                text.append(endpoint.to_text().as_str());
                text.append(")");
                Reply::Done { text }
            },
            Response::Error(error) => Reply::Failed { error },
            response => Reply::Unexpected { response },
        }
    }
}

impl RenameArgs {
    /// What is asked of the daemon.
    pub fn request(&self) -> (request: Request)
        ensures
            request@ == (RequestView::RenameMachine { name: self.name@ }),
    {
        Request::RenameMachine { name: self.name.clone() }
    }

    /// Reads the daemon's answer.
    pub fn reply(&self, response: Response) -> (reply: Reply)
        ensures
            reply@ == match response@ {
                ResponseView::MachineRenamed => ReplyView::Done {
                    text: "This machine is now `"@ + self.name@ + "`"@,
                },
                ResponseView::Error(error) => ReplyView::Failed { error },
                other => ReplyView::Unexpected { response: other },
            },
    {
        match response {
            Response::MachineRenamed => Reply::Done {
                text: join3("This machine is now `", self.name.as_str(), "`"),
            },
            Response::Error(error) => Reply::Failed { error },
            response => Reply::Unexpected { response },
        }
    }
}

} // verus!
