//! `service.toml`: records which program installed the daemon service.

use vstd::prelude::*;

use crate::order::same_text;

verus! {

/// Which program installed the daemon service, and under which label.
///
/// `jj-mesh service install` records itself as [`Self::CLI`]; external managers
/// (the Home Manager module) record their own name. A missing file means no
/// recorded installation.
#[derive(PartialEq, Eq, Debug)]
pub struct ServiceState {
    pub installer: String,
    pub label: String,
}

/// Installer name recorded by `jj-mesh service install`.
pub const CLI: &'static str = "cli";

impl ServiceState {
    /// The record of a label installed by the CLI.
    pub fn by_cli(label: &str) -> (state: Self)
        ensures
            state.installer@ == CLI@,
            state.label@ == label@,
    {
        ServiceState { installer: CLI.to_owned(), label: label.to_owned() }
    }

    /// Whether the CLI installed the service.
    pub fn is_cli(&self) -> (r: bool)
        ensures
            r == (self.installer@ == CLI@),
    {
        same_text(self.installer.as_str(), CLI)
    }
}

} // verus!
