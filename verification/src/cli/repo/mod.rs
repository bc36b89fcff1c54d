//! `jj-mesh repo`: manage the repos synchronized on the mesh.

pub mod add;
pub mod clone;
pub mod forget;
pub mod remove;

use vstd::prelude::*;

use crate::text::join3;

verus! {

/// Manage the repos synchronized on the mesh.
pub struct RepoArgs {
    pub command: RepoCommand,
}

/// What to do with the repos of the mesh.
pub enum RepoCommand {
    Add(add::AddArgs),
    Clone(clone::CloneArgs),
    Forget(forget::ForgetArgs),
    Remove(remove::RemoveArgs),
}

/// The arguments of a jj command.
#[derive(PartialEq, Eq, Debug)]
pub struct JjCommand {
    pub args: Vec<String>,
}

impl View for JjCommand {
    type V = Seq<Seq<char>>;

    open spec fn view(&self) -> Seq<Seq<char>> {
        crate::cli::ui::texts_view(self.args@)
    }
}

impl JjCommand {
    /// A command without arguments.
    pub fn new() -> (command: Self)
        ensures
            command@ == Seq::<Seq<char>>::empty(),
    {
        let command = JjCommand { args: Vec::new() };
        assert(command@ =~= Seq::empty());
        command
    }

    /// Adds an argument.
    pub fn arg(&mut self, arg: &str)
        ensures
            final(self)@ == old(self)@.push(arg@),
    {
        let ghost before = self.args@;
        self.args.push(arg.to_owned());
        assert(crate::cli::ui::texts_view(self.args@) =~= crate::cli::ui::texts_view(before).push(
            arg@,
        ));
    }

    /// What is said when the command failed, with what it wrote to stderr.
    pub fn failure(&self, stderr: &str) -> (text: String)
        ensures
            text@ == "jj "@ + crate::cli::status::joined_texts(self@, " "@) + " failed:\n"@
                + stderr@,
    {
        let mut text = join3(
            "jj ",
            crate::cli::status::join_texts(&self.args, " ").as_str(),
            " failed:\n",
        );
        text.append(stderr);
        text
    }
}

/// `jj workspace rename`, giving this machine's copy of a repo its own name.
pub fn rename_workspace(workspace: &str) -> (command: JjCommand)
    ensures
        command@ == seq!["workspace"@, "rename"@, workspace@],
{
    let mut command = JjCommand::new();
    command.arg("workspace");
    command.arg("rename");
    command.arg(workspace);
    assert(command@ =~= seq!["workspace"@, "rename"@, workspace@]);
    command
}

} // verus!
