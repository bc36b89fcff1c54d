//! Configuration directory resolution.
//!
//! The directory follows the XDG convention (usually `~/.config/jj-mesh`), and
//! is created on first use.

use vstd::prelude::*;

use crate::config::path::FsPath;
use crate::order::Duplicate;

verus! {

/// What stands at a path.
#[derive(Clone, Copy, PartialEq, Eq, Structural, Debug)]
pub enum Found {
    /// Nothing that can be looked at.
    Nothing,
    /// A directory.
    Directory,
    /// Something else.
    Other,
}

/// Why a custom config directory cannot be used.
#[derive(Clone, Copy, PartialEq, Eq, Structural, Debug)]
pub enum ResolveError {
    /// The directory cannot be opened.
    CannotOpen,
    /// The path is no directory.
    NotADirectory,
}

impl ResolveError {
    /// The error as shown to the user.
    pub fn message(&self) -> (text: String)
        ensures
            text@ == match *self {
                ResolveError::CannotOpen => "cannot open custom config directory"@,
                ResolveError::NotADirectory => "custom config path is not a directory"@,
            },
    {
        match self {
            ResolveError::CannotOpen => "cannot open custom config directory".to_owned(),
            ResolveError::NotADirectory => "custom config path is not a directory".to_owned(),
        }
    }
}

/// Resolved configuration directory.
pub struct ConfigDir {
    path: FsPath,
    /// Whether the directory was overridden on the command line, in which case
    /// per-machine paths like the daemon socket stay inside it.
    custom: bool,
}

/// A configuration directory: where it is, and whether it was overridden.
#[verifier::ext_equal]
pub struct ConfigDirView {
    pub path: Seq<u8>,
    pub custom: bool,
}

impl View for ConfigDir {
    type V = ConfigDirView;

    closed spec fn view(&self) -> ConfigDirView {
        ConfigDirView { path: self.path@, custom: self.custom }
    }
}

/// Where the daemon's control socket is: in the runtime directory if there is
/// one, but inside custom config directories, so several daemons can coexist on
/// one machine.
pub open spec fn socket_of(dir: ConfigDirView, runtime_dir: Option<Seq<u8>>) -> Seq<u8> {
    crate::config::path::joined_name(
        if !dir.custom && runtime_dir is Some {
            runtime_dir->Some_0
        } else {
            dir.path
        },
        "jj-mesh.sock"@,
    )
}

impl ConfigDir {
    /// Uses a directory given on the command line. It is never created
    /// implicitly: it must already exist, as `found` says of it.
    pub fn custom(path: FsPath, found: Found) -> (r: Result<Self, ResolveError>)
        ensures
            match r {
                Ok(dir) => found == Found::Directory && dir@ == (ConfigDirView {
                    path: path@,
                    custom: true,
                }),
                Err(ResolveError::CannotOpen) => found == Found::Nothing,
                Err(ResolveError::NotADirectory) => found == Found::Other,
            },
    {
        match found {
            Found::Directory => Ok(ConfigDir { path, custom: true }),
            Found::Nothing => Err(ResolveError::CannotOpen),
            Found::Other => Err(ResolveError::NotADirectory),
        }
    }

    /// The standard directory below the user's config home.
    pub fn standard(config_home: &FsPath) -> (dir: Self)
        ensures
            dir@ == (ConfigDirView {
                path: crate::config::path::joined_name(config_home@, "jj-mesh"@),
                custom: false,
            }),
    {
        ConfigDir { path: config_home.join("jj-mesh"), custom: false }
    }

    /// The resolved config directory path.
    pub fn path(&self) -> (path: &FsPath)
        ensures
            path@ == self@.path,
    {
        &self.path
    }

    /// Whether the directory was overridden on the command line.
    pub fn is_custom(&self) -> (custom: bool)
        ensures
            custom == self@.custom,
    {
        self.custom
    }

    /// Path of the machine identity key file (`machine.key`).
    pub fn machine_key(&self) -> (path: FsPath)
        ensures
            path@ == crate::config::path::joined_name(self@.path, "machine.key"@),
    {
        self.path.join("machine.key")
    }

    /// Path of the mesh state file (`mesh.json`).
    pub fn mesh_file(&self) -> (path: FsPath)
        ensures
            path@ == crate::config::path::joined_name(self@.path, "mesh.json"@),
    {
        self.path.join("mesh.json")
    }

    /// Path of the daemon settings file (`config.toml`).
    pub fn settings_file(&self) -> (path: FsPath)
        ensures
            path@ == crate::config::path::joined_name(self@.path, "config.toml"@),
    {
        self.path.join("config.toml")
    }

    /// Path of the service record (`service.toml`).
    pub fn service_state_file(&self) -> (path: FsPath)
        ensures
            path@ == crate::config::path::joined_name(self@.path, "service.toml"@),
    {
        self.path.join("service.toml")
    }

    /// Path of the daemon control socket, given the user's runtime directory.
    ///
    /// Usually `$XDG_RUNTIME_DIR/jj-mesh.sock`; kept inside custom config
    /// directories so several daemons can coexist on one machine.
    pub fn socket_path(&self, runtime_dir: Option<FsPath>) -> (path: FsPath)
        ensures
            path@ == socket_of(
                self@,
                match runtime_dir {
                    Some(dir) => Some(dir@),
                    None => None,
                },
            ),
    {
        if !self.custom {
            if let Some(dir) = runtime_dir {
                return dir.join("jj-mesh.sock");
            }
        }
        self.path.join("jj-mesh.sock")
    }
}

impl Duplicate for ConfigDir {
    fn duplicate(&self) -> (copy: Self) {
        ConfigDir { path: self.path.duplicate(), custom: self.custom }
    }
}

/// The socket stands in the runtime directory where there is one and the config
/// directory is the usual one, and in the config directory otherwise, so that
/// daemons with directories of their own do not meet.
pub proof fn custom_directories_have_their_own_socket(
    path: Seq<u8>,
    runtime_dir: Seq<u8>,
    other: Option<Seq<u8>>,
)
    ensures
        ({
            let usual = ConfigDirView { path, custom: false };
            let own = ConfigDirView { path, custom: true };
            let below = |dir: Seq<u8>| crate::config::path::joined_name(dir, "jj-mesh.sock"@);
            &&& socket_of(usual, Some(runtime_dir)) == below(runtime_dir)
            &&& socket_of(usual, None) == below(path)
            &&& socket_of(own, other) == below(path)
        }),
{
}

} // verus!
