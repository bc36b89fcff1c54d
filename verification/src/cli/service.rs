//! `jj-mesh service`: manage the daemon as a user service.

use vstd::prelude::*;

use crate::config::path::FsPath;
use crate::config::resolve::ConfigDir;
use crate::order::Duplicate;
use crate::text::{chars_of, is_control, is_white_space, join3};

verus! {

/// Seconds before the service is restarted after a failure.
pub const RESTART_DELAY_SECS: u32 = 5;

/// How long `restart` waits for the service to leave or reach the running
/// state, in milliseconds. Stopping is asynchronous on launchd, and starting
/// reports success as soon as the process forks, so both transitions are
/// verified by polling rather than trusted.
pub const RESTART_WAIT: u64 = 10_000;

/// Delay after a verified start before re-checking that the service is still
/// up, to catch a daemon that exits right away (bad binary, another instance
/// holding the lock).
pub const RESTART_SETTLE: u64 = 1_000;

/// Delay between two looks at the service.
pub const POLL_INTERVAL: u64 = 200;

/// Install and manage the background service.
pub struct ServiceArgs {
    pub command: ServiceCommand,
}

/// What to do with the background service.
pub enum ServiceCommand {
    /// Install and start the daemon service.
    Install {
        /// Program path written into the service (defaults to current binary).
        program: Option<FsPath>,
        /// jj binary the daemon runs (sets `JJ_BIN` in the service).
        jj_bin: Option<FsPath>,
    },
    /// Stop and remove the daemon service.
    Uninstall,
    /// Start the installed daemon service.
    Start,
    /// Stop the daemon service.
    Stop,
    /// Restart the daemon service.
    Restart,
}

/// What is wrong with a path for a service definition.
#[derive(Clone, Copy, PartialEq, Eq, Structural, Debug)]
pub enum PathFault {
    /// The path is relative.
    Relative,
    /// The path holds characters that the definition would not survive.
    Unsafe,
}

/// A path that cannot be embedded in a service definition.
#[derive(PartialEq, Eq, Debug)]
pub struct ServicePathError {
    /// What the path is of.
    pub what: String,
    pub path: FsPath,
    pub fault: PathFault,
}

impl ServicePathError {
    /// The error as shown to the user, with the path as the caller shows it.
    pub fn message(&self, shown: &str) -> (text: String)
        ensures
            text@ == self.what@ + (match self.fault {
                PathFault::Relative => " must be absolute: "@,
                PathFault::Unsafe =>
                " must not contain whitespace, control characters or any of `%<>&\"'`, as it is written unescaped into the service definition: "@,
            }) + shown@,
    {
        match self.fault {
            PathFault::Relative => join3(self.what.as_str(), " must be absolute: ", shown),
            PathFault::Unsafe => join3(
                self.what.as_str(),
                " must not contain whitespace, control characters or any of `%<>&\"'`, as it is written unescaped into the service definition: ",
                shown,
            ),
        }
    }
}

/// Whether a character must stay out of a service definition: white space
/// silently corrupts `ExecStart`, control characters (newlines) could inject
/// arbitrary unit directives, `%` is rewritten by systemd's specifier expansion,
/// and the XML metacharacters would break the launchd plist.
pub open spec fn unsafe_char(c: char) -> bool {
    ||| crate::text::white_space(c)
    ||| crate::text::control(c)
    ||| c == '%'
    ||| c == '<'
    ||| c == '>'
    ||| c == '&'
    ||| c == '"'
    ||| c == '\''
}

/// Whether a text can stand in a service definition as it is.
pub open spec fn embeddable(text: Seq<char>) -> bool {
    forall|i: int| 0 <= i < text.len() ==> !unsafe_char(#[trigger] text[i])
}

/// What is wrong with a path for a service definition, if anything.
pub open spec fn path_fault(path: Seq<u8>) -> Option<PathFault> {
    if !crate::config::path::absolute(path) {
        Some(PathFault::Relative)
    } else if !embeddable(crate::config::path::lossy_text(path)) {
        Some(PathFault::Unsafe)
    } else {
        None
    }
}

/// Checks that a path can be embedded in a service definition, which is written
/// without any quoting or escaping. systemd also refuses non-absolute paths
/// outside its fixed `/usr` search path.
pub fn validate_service_path(what: &str, path: &FsPath) -> (r: Result<(), ServicePathError>)
    ensures
        match r {
            Ok(()) => path_fault(path@) is None,
            Err(e) => path_fault(path@) == Some(e.fault) && e.what@ == what@ && e.path@ == path@,
        },
{
    if !path.is_absolute() {
        return Err(
            ServicePathError {
                what: what.to_owned(),
                path: path.duplicate(),
                fault: PathFault::Relative,
            },
        );
    }
    let text = chars_of(path.display().as_str());
    let mut i: usize = 0;
    while i < text.len()
        invariant
            i <= text@.len(),
            crate::config::path::absolute(path@),
            text@ == crate::config::path::lossy_text(path@),
            forall|j: int| 0 <= j < i ==> !unsafe_char(#[trigger] text@[j]),
        decreases text@.len() - i,
    {
        let c: char = text[i];
        if is_white_space(c) || is_control(c) || c == '%' || c == '<' || c == '>' || c == '&' || c
            == '"' || c == '\'' {
            assert(unsafe_char(text@[i as int]));
            return Err(
                ServicePathError {
                    what: what.to_owned(),
                    path: path.duplicate(),
                    fault: PathFault::Unsafe,
                },
            );
        }
        i = i + 1;
    }
    Ok(())
}

/// What is written into the service definition.
pub struct Definition {
    pub program: FsPath,
    pub args: Vec<FsPath>,
    pub environment: Vec<(String, String)>,
}

/// The first thing that keeps a service from being installed: which path, and
/// why.
pub open spec fn install_fault(
    program: Seq<u8>,
    jj_bin: Option<Seq<u8>>,
    dir: crate::config::resolve::ConfigDirView,
) -> Option<(Seq<char>, Seq<u8>, PathFault)> {
    if path_fault(program) is Some {
        Some(("the program path"@, program, path_fault(program)->Some_0))
    } else if jj_bin is Some && path_fault(jj_bin->Some_0) is Some {
        Some(("the jj binary path"@, jj_bin->Some_0, path_fault(jj_bin->Some_0)->Some_0))
    } else if dir.custom && path_fault(dir.path) is Some {
        Some(("the config directory"@, dir.path, path_fault(dir.path)->Some_0))
    } else {
        None
    }
}

/// The arguments the service runs the program with. A custom config directory is
/// baked into the service (useful for side setups); the default is resolved by
/// the daemon at startup.
pub open spec fn service_args(dir: crate::config::resolve::ConfigDirView) -> Seq<Seq<u8>> {
    if dir.custom {
        seq![
            vstd::utf8::encode_utf8("--config-dir"@),
            dir.path,
            vstd::utf8::encode_utf8("run-daemon"@),
        ]
    } else {
        seq![vstd::utf8::encode_utf8("run-daemon"@)]
    }
}

/// The environment the service runs in.
pub open spec fn service_environment(jj_bin: Option<Seq<u8>>) -> Seq<(Seq<char>, Seq<char>)> {
    let logging = seq![("RUST_LOG"@, "jj_mesh=info"@)];
    match jj_bin {
        Some(path) => logging.push(("JJ_BIN"@, crate::config::path::lossy_text(path))),
        None => logging,
    }
}

/// An optional path by content.
pub open spec fn optional_path(path: Option<FsPath>) -> Option<Seq<u8>> {
    match path {
        Some(p) => Some(p@),
        None => None,
    }
}

/// Writes up the service: checks every path that goes into the definition, and
/// what the program runs with. Environment values are written into the service
/// definition just as unescaped as the paths, so they get the same restrictions.
pub fn define(program: FsPath, jj_bin: &Option<FsPath>, dir: &ConfigDir) -> (r: Result<
    Definition,
    ServicePathError,
>)
    ensures
        match r {
            Ok(definition) => {
                &&& install_fault(program@, optional_path(*jj_bin), dir@) is None
                &&& definition.program@ == program@
                &&& definition.args@.map_values(|a: FsPath| a@) == service_args(dir@)
                &&& definition.environment@.map_values(|e: (String, String)| (e.0@, e.1@))
                    == service_environment(optional_path(*jj_bin))
            },
            Err(e) => install_fault(program@, optional_path(*jj_bin), dir@) == Some(
                (e.what@, e.path@, e.fault),
            ),
        },
{
    match validate_service_path("the program path", &program) {
        Ok(()) => {},
        Err(e) => {
            return Err(e);
        },
    }
    let mut environment: Vec<(String, String)> = Vec::new();
    environment.push(("RUST_LOG".to_owned(), "jj_mesh=info".to_owned()));
    if let Some(jj_bin) = jj_bin {
        match validate_service_path("the jj binary path", jj_bin) {
            Ok(()) => {},
            Err(e) => {
                return Err(e);
            },
        }
        environment.push(("JJ_BIN".to_owned(), jj_bin.display()));
    }
    let mut args: Vec<FsPath> = Vec::new();
    if dir.is_custom() {
        match validate_service_path("the config directory", dir.path()) {
            Ok(()) => {},
            Err(e) => {
                return Err(e);
            },
        }
        args.push(FsPath::new("--config-dir"));
        args.push(dir.path().duplicate());
    }
    args.push(FsPath::new("run-daemon"));
    assert(args@.map_values(|a: FsPath| a@) =~= service_args(dir@));
    assert(environment@.map_values(|e: (String, String)| (e.0@, e.1@)) =~= service_environment(
        optional_path(*jj_bin),
    ));
    Ok(Definition { program, args, environment })
}

/// What a restart waits for.
#[derive(Clone, Copy, PartialEq, Eq, Structural, Debug)]
pub enum Phase {
    /// The service to leave the running state, until a time.
    Stopping { deadline: u64 },
    /// The service to reach the running state, until a time.
    Starting { deadline: u64 },
    /// The started service to prove stable.
    Settling,
}

/// What a restart does next.
#[derive(PartialEq, Eq, Debug)]
pub enum Step {
    /// Look at the service again after [`POLL_INTERVAL`].
    Poll,
    /// Start the service.
    Start,
    /// Look at the service again after [`RESTART_SETTLE`].
    Settle,
    /// The service is restarted.
    Finished,
    /// The restart failed.
    Failed { error: String },
}

/// A restart: the service was told to stop, is started once it has, and both
/// transitions are verified.
pub struct Restart {
    phase: Phase,
}

impl View for Restart {
    type V = Phase;

    closed spec fn view(&self) -> Phase {
        self.phase
    }
}

/// What a restart does next, by content.
pub enum StepView {
    Poll,
    Start,
    Settle,
    Finished,
    Failed { error: Seq<char> },
}

impl View for Step {
    type V = StepView;

    open spec fn view(&self) -> StepView {
        match self {
            Step::Poll => StepView::Poll,
            Step::Start => StepView::Start,
            Step::Settle => StepView::Settle,
            Step::Finished => StepView::Finished,
            Step::Failed { error } => StepView::Failed { error: error@ },
        }
    }
}

/// What a restart in a phase does when it sees the service running or not, at a
/// time.
pub open spec fn restart_step(phase: Phase, running: bool, shown: Seq<char>, now: u64) -> StepView {
    match phase {
        Phase::Stopping { deadline } => if !running {
            StepView::Start
        } else if now >= deadline {
            StepView::Failed { error: "the service did not stop (status: "@ + shown + ")"@ }
        } else {
            StepView::Poll
        },
        Phase::Starting { deadline } => if running {
            StepView::Settle
        } else if now >= deadline {
            StepView::Failed { error: "the service did not start (status: "@ + shown + ")"@ }
        } else {
            StepView::Poll
        },
        Phase::Settling => if running {
            StepView::Finished
        } else {
            StepView::Failed {
                error: "the service started but died (status: "@ + shown + "); check its logs"@,
            }
        },
    }
}

impl Restart {
    /// A restart whose service was told to stop.
    pub fn stopping(now: u64) -> (restart: Self)
        requires
            now + RESTART_WAIT <= u64::MAX,
        ensures
            restart@ == (Phase::Stopping { deadline: (now + RESTART_WAIT) as u64 }),
    {
        Restart { phase: Phase::Stopping { deadline: now + RESTART_WAIT } }
    }

    /// The stopped service was started.
    pub fn started(&mut self, now: u64)
        requires
            now + RESTART_WAIT <= u64::MAX,
        ensures
            final(self)@ == (Phase::Starting { deadline: (now + RESTART_WAIT) as u64 }),
    {
        self.phase = Phase::Starting { deadline: now + RESTART_WAIT };
    }

    /// Takes in a look at the service: whether it runs, and its status as the
    /// caller shows it.
    pub fn observe(&mut self, running: bool, shown: &str, now: u64) -> (step: Step)
        ensures
            step@ == restart_step(old(self)@, running, shown@, now),
            final(self)@ == if step is Settle {
                Phase::Settling
            } else {
                old(self)@
            },
    {
        match self.phase {
            Phase::Stopping { deadline } => if !running {
                Step::Start
            } else if now >= deadline {
                Step::Failed { error: join3("the service did not stop (status: ", shown, ")") }
            } else {
                Step::Poll
            },
            Phase::Starting { deadline } => if running {
                self.phase = Phase::Settling;
                Step::Settle
            } else if now >= deadline {
                Step::Failed { error: join3("the service did not start (status: ", shown, ")") }
            } else {
                Step::Poll
            },
            Phase::Settling => if running {
                Step::Finished
            } else {
                Step::Failed {
                    error: join3(
                        "the service started but died (status: ",
                        shown,
                        "); check its logs",
                    ),
                }
            },
        }
    }
}

/// A restart does not wait forever: from its deadline on, a look at the service
/// moves it on or fails it.
pub proof fn restarts_end(phase: Phase, running: bool, shown: Seq<char>, now: u64)
    requires
        match phase {
            Phase::Stopping { deadline } => now >= deadline,
            Phase::Starting { deadline } => now >= deadline,
            Phase::Settling => true,
        },
    ensures
        !(restart_step(phase, running, shown, now) is Poll),
{
}

/// A restart starts the service once it stopped, waits on it only before the
/// deadline, and reports success only for a service still running once it was
/// given time to settle.
pub proof fn restarts_follow_the_service(phase: Phase, running: bool, shown: Seq<char>, now: u64)
    ensures
        ({
            let step = restart_step(phase, running, shown, now);
            &&& step is Start <==> phase is Stopping && !running
            &&& step is Settle <==> phase is Starting && running
            &&& step is Finished <==> phase is Settling && running
            &&& step is Poll <==> {
                ||| phase is Stopping && running && now < phase->Stopping_deadline
                ||| phase is Starting && !running && now < phase->Starting_deadline
            }
            &&& step is Failed <==> {
                ||| phase is Stopping && running && now >= phase->Stopping_deadline
                ||| phase is Starting && !running && now >= phase->Starting_deadline
                ||| phase is Settling && !running
            }
        }),
{
}

/// A path can stand in a service definition exactly when it is absolute and its
/// text holds nothing that such a definition would read as more than text.
pub proof fn only_plain_absolute_paths_are_embedded(path: Seq<u8>)
    ensures
        path_fault(path) is None <==> {
            &&& path.len() > 0
            &&& path[0] == 47u8
            &&& forall|i: int|
                0 <= i < crate::config::path::lossy_text(path).len() ==> {
                    let c = #[trigger] crate::config::path::lossy_text(path)[i];
                    &&& !crate::text::white_space(c)
                    &&& !crate::text::control(c)
                    &&& c != '%'
                    &&& c != '<'
                    &&& c != '>'
                    &&& c != '&'
                    &&& c != '"'
                    &&& c != '\''
                }
        },
        path.len() == 0 || path[0] != 47u8 ==> path_fault(path) == Some(PathFault::Relative),
        path.len() > 0 && path[0] == 47u8 && path_fault(path) is Some ==> path_fault(path) == Some(
            PathFault::Unsafe,
        ),
{
}

/// A service is defined exactly when every path that goes into its definition
/// can stand there: the program's, that of the jj binary where one is given, and
/// that of the config directory where it is not the usual one.
pub proof fn definitions_need_every_path(
    program: Seq<u8>,
    jj_bin: Option<Seq<u8>>,
    dir: crate::config::resolve::ConfigDirView,
)
    ensures
        install_fault(program, jj_bin, dir) is None <==> {
            &&& path_fault(program) is None
            &&& jj_bin is Some ==> path_fault(jj_bin->Some_0) is None
            &&& dir.custom ==> path_fault(dir.path) is None
        },
        service_args(dir).last() == vstd::utf8::encode_utf8("run-daemon"@),
        dir.custom <==> service_args(dir).len() == 3,
        dir.custom ==> service_args(dir)[1] == dir.path,
        service_environment(jj_bin)[0] == ("RUST_LOG"@, "jj_mesh=info"@),
        jj_bin is Some <==> service_environment(jj_bin).len() == 2,
{
}

} // verus!
