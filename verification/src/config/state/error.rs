//! Why a change to the mesh state is refused.

use vstd::prelude::*;

use super::repo::RepoId;
use crate::config::name::{NameError, NameFault};
use crate::config::path::FsPath;
use crate::net::endpoint::EndpointId;
use crate::text::{decimal_text, join3};

verus! {

/// A refused change.
#[derive(PartialEq, Eq, Debug)]
pub enum StateError {
    /// A name is not usable.
    Name(NameError),
    /// The endpoint is already part of the mesh.
    AlreadyPaired { endpoint: EndpointId, name: String },
    /// The mesh has as many machines as it may.
    MeshFull,
    /// A record cannot be changed anymore.
    Corrupted { subject: String, version: u64 },
    /// Several peers carry the name.
    AmbiguousPeer { selector: String },
    /// No peer carries the name.
    NoPeer { selector: String },
    /// The endpoint is no peer.
    NotPaired { endpoint: EndpointId },
    /// A repo of that name is registered here.
    RepoExists { name: String },
    /// A repo at that path is registered here.
    PathAdded { path: FsPath, name: String },
    /// The mesh knows the name with another id.
    ForksName { name: String },
    /// The id is registered here already.
    RepoRegistered { id: RepoId, name: String },
    /// The mesh has as many repos as it may.
    MeshReposFull,
    /// Neither the mesh nor this machine knows the repo.
    NoMeshRepo { name: String },
    /// The name is retired already.
    RepoRemoved { name: String },
    /// The repo is not registered here.
    NotRegistered { name: String },
}

/// A refused change, as contracts speak of it.
pub enum Fault {
    Name { kind: Seq<char>, fault: NameFault },
    AlreadyPaired { endpoint: Seq<u8>, name: Seq<char> },
    MeshFull,
    Corrupted { subject: Seq<char>, version: nat },
    AmbiguousPeer { selector: Seq<char> },
    NoPeer { selector: Seq<char> },
    NotPaired { endpoint: Seq<u8> },
    RepoExists { name: Seq<char> },
    PathAdded { path: Seq<u8>, name: Seq<char> },
    ForksName { name: Seq<char> },
    RepoRegistered { id: Seq<char>, name: Seq<char> },
    MeshReposFull,
    NoMeshRepo { name: Seq<char> },
    RepoRemoved { name: Seq<char> },
    NotRegistered { name: Seq<char> },
}

impl View for StateError {
    type V = Fault;

    open spec fn view(&self) -> Fault {
        match self {
            StateError::Name(e) => Fault::Name { kind: e.kind@, fault: e.fault },
            StateError::AlreadyPaired { endpoint, name } => Fault::AlreadyPaired {
                endpoint: endpoint@,
                name: name@,
            },
            StateError::MeshFull => Fault::MeshFull,
            StateError::Corrupted { subject, version } => Fault::Corrupted {
                subject: subject@,
                version: *version as nat,
            },
            StateError::AmbiguousPeer { selector } => Fault::AmbiguousPeer { selector: selector@ },
            StateError::NoPeer { selector } => Fault::NoPeer { selector: selector@ },
            StateError::NotPaired { endpoint } => Fault::NotPaired { endpoint: endpoint@ },
            StateError::RepoExists { name } => Fault::RepoExists { name: name@ },
            StateError::PathAdded { path, name } => Fault::PathAdded { path: path@, name: name@ },
            StateError::ForksName { name } => Fault::ForksName { name: name@ },
            StateError::RepoRegistered { id, name } => Fault::RepoRegistered {
                id: id@,
                name: name@,
            },
            StateError::MeshReposFull => Fault::MeshReposFull,
            StateError::NoMeshRepo { name } => Fault::NoMeshRepo { name: name@ },
            StateError::RepoRemoved { name } => Fault::RepoRemoved { name: name@ },
            StateError::NotRegistered { name } => Fault::NotRegistered { name: name@ },
        }
    }
}

/// The error as shown to the user.
pub open spec fn fault_text(fault: Fault) -> Seq<char> {
    match fault {
        Fault::Name { kind, fault } => crate::config::name::name_error_text(kind, fault),
        Fault::AlreadyPaired { endpoint, name } => "endpoint "@ + crate::net::endpoint::hex_lower(
            endpoint,
        ) + " is already paired as `"@ + name + "`"@,
        Fault::MeshFull => "the mesh already has 256 machines"@,
        Fault::Corrupted { subject, version } => "the mesh record of `"@ + subject
            + "` is corrupted (version "@ + crate::text::decimal(version)
            + "); remove it from mesh.json on every machine"@,
        Fault::AmbiguousPeer { selector } => "several peers are named `"@ + selector
            + "`; use the endpoint id (see `jj-mesh status`)"@,
        Fault::NoPeer { selector } => "no peer named `"@ + selector + "`"@,
        Fault::NotPaired { endpoint } => "endpoint "@ + crate::net::endpoint::hex_lower(endpoint)
            + " is not a paired peer"@,
        Fault::RepoExists { name } => "a repo named `"@ + name + "` already exists"@,
        Fault::PathAdded { path, name } => crate::config::path::lossy_text(path)
            + " is already added as `"@ + name + "`"@,
        Fault::ForksName { name } => "a repo named `"@ + name
            + "` already exists in the mesh; clone it instead"@,
        Fault::RepoRegistered { id, name } => "repo "@ + id + " is already registered as `"@ + name
            + "`"@,
        Fault::MeshReposFull => "the mesh already has 1024 repos"@,
        Fault::NoMeshRepo { name } => "no repo named `"@ + name + "` in the mesh"@,
        Fault::RepoRemoved { name } => "repo `"@ + name + "` is already removed"@,
        Fault::NotRegistered { name } => "no repo named `"@ + name
            + "` is registered on this machine"@,
    }
}

impl StateError {
    /// The error as shown to the user.
    pub fn message(&self) -> (text: String)
        ensures
            text@ == fault_text(self@),
    {
        match self {
            StateError::Name(e) => e.message(),
            StateError::AlreadyPaired { endpoint, name } => {
                let mut text = join3(
                    "endpoint ",
                    endpoint.to_text().as_str(),
                    " is already paired as `",
                );
                text.append(name.as_str());
                text.append("`");
                text
            },
            StateError::MeshFull => "the mesh already has 256 machines".to_owned(),
            StateError::Corrupted { subject, version } => {
                let mut text = join3(
                    "the mesh record of `",
                    subject.as_str(),
                    "` is corrupted (version ",
                );
                text.append(decimal_text(*version).as_str());
                text.append("); remove it from mesh.json on every machine");
                text
            },
            StateError::AmbiguousPeer { selector } => join3(
                "several peers are named `",
                selector.as_str(),
                "`; use the endpoint id (see `jj-mesh status`)",
            ),
            StateError::NoPeer { selector } => join3("no peer named `", selector.as_str(), "`"),
            StateError::NotPaired { endpoint } => join3(
                "endpoint ",
                endpoint.to_text().as_str(),
                " is not a paired peer",
            ),
            StateError::RepoExists { name } => join3(
                "a repo named `",
                name.as_str(),
                "` already exists",
            ),
            StateError::PathAdded { path, name } => {
                let mut text = join3(
                    path.display().as_str(),
                    " is already added as `",
                    name.as_str(),
                );
                text.append("`");
                text
            },
            StateError::ForksName { name } => join3(
                "a repo named `",
                name.as_str(),
                "` already exists in the mesh; clone it instead",
            ),
            StateError::RepoRegistered { id, name } => {
                let mut text = join3("repo ", id.as_str(), " is already registered as `");
                text.append(name.as_str());
                text.append("`");
                text
            },
            StateError::MeshReposFull => "the mesh already has 1024 repos".to_owned(),
            StateError::NoMeshRepo { name } => join3(
                "no repo named `",
                name.as_str(),
                "` in the mesh",
            ),
            StateError::RepoRemoved { name } => join3(
                "repo `",
                name.as_str(),
                "` is already removed",
            ),
            StateError::NotRegistered { name } => join3(
                "no repo named `",
                name.as_str(),
                "` is registered on this machine",
            ),
        }
    }
}

} // verus!
