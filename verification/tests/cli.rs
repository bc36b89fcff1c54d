//! The command line: what commands ask for and show.

use jj_mesh::cli::commit;
use jj_mesh::cli::complete;
use jj_mesh::cli::peer;
use jj_mesh::cli::repo::clone::{CloneArgs, Finish, Shown, progress_line, show_progress};
use jj_mesh::cli::repo::forget::ForgetArgs;
use jj_mesh::cli::repo::remove::{RemoveArgs, confirms};
use jj_mesh::cli::repo::{self, rename_workspace};
use jj_mesh::cli::service::{
    PathFault, Phase, RESTART_WAIT, Restart, Step, define, validate_service_path,
};
use jj_mesh::cli::status::{
    collect_issues, connection_summary, header, render, watch_summary,
};
use jj_mesh::cli::ui::{Line, Span, Style, display_path, fill, name_width};
use jj_mesh::cli::Reply;
use jj_mesh::config::path::FsPath;
use jj_mesh::config::resolve::{ConfigDir, Found};
use jj_mesh::config::state::MeshState;
use jj_mesh::config::state::repo::{Repo, RepoId};
use jj_mesh::daemon::control::protocol::{
    CloneProgress, ConflictStatus, ConnectionStatus, PathInfo, PausedStatus, PeerReport,
    PeerStatus, RepoStatus, Request, Response, Route, Status, TransferPhase, TransferProgress,
    WatchStatus,
};
use jj_mesh::net::endpoint::EndpointId;
use jj_mesh::net::sync::{RepoHealth, RepoHealthState, StatusReport};

fn plain(lines: &[Line]) -> Vec<String> {
    lines
        .iter()
        .map(|line| line.spans.iter().map(|s| s.text.as_str()).collect::<String>())
        .collect()
}

fn span(style: Style, text: &str) -> Span {
    Span { style, text: text.to_owned() }
}

fn done(reply: Reply) -> String {
    match reply {
        Reply::Done { text } => text,
        Reply::Failed { error } => panic!("failed: {error}"),
        Reply::Unexpected { .. } => panic!("unexpected"),
    }
}

fn failed(reply: Reply) -> String {
    match reply {
        Reply::Failed { error } => error,
        _ => panic!("the command fails"),
    }
}

fn idle_status() -> Status {
    Status {
        name: "desk".to_owned(),
        endpoint: EndpointId::from_bytes([1; 32]),
        uptime_secs: 3_700,
        jj_version: None,
        peers: vec![],
        repos: vec![],
        available: vec![],
        conflicts: vec![],
        paused: vec![],
        peer_reports: vec![],
    }
}

#[test]
fn columns_are_filled_by_characters() {
    assert_eq!(name_width(&vec!["a".to_owned(), "abc".to_owned(), String::new()]), 3);
    assert_eq!(name_width(&vec![]), 0);
    assert_eq!(name_width(&vec!["é".to_owned()]), 2);
    assert_eq!(fill("ab", 4), "ab  ");
    assert_eq!(fill("abcd", 2), "abcd");
    assert_eq!(fill("é", 2), "é ");
}

#[test]
fn paths_are_shown_from_home() {
    let home = Some(FsPath::new("/home/u"));
    assert_eq!(display_path(&FsPath::new("/home/u/x"), &home), "~/x");
    assert_eq!(display_path(&FsPath::new("/home/u"), &home), "~");
    assert_eq!(display_path(&FsPath::new("/home/uv"), &home), "/home/uv");
    assert_eq!(display_path(&FsPath::new("/home/u/x"), &None), "/home/u/x");
}

#[test]
fn watches_are_summed_up() {
    assert_eq!(watch_summary(&WatchStatus::Opening).spans, vec![span(Style::Plain, "opening")]);
    assert_eq!(
        watch_summary(&WatchStatus::Watching {
            op_heads: 1,
            last_change_secs: Some(61),
            last_sync_secs: None,
        })
        .spans,
        vec![span(Style::Good, "watching"), span(Style::Plain, " (synced 1m 1s ago)")],
    );
    assert_eq!(
        watch_summary(&WatchStatus::Watching {
            op_heads: 1,
            last_change_secs: None,
            last_sync_secs: None,
        })
        .spans,
        vec![span(Style::Good, "watching")],
    );
    assert_eq!(
        watch_summary(&WatchStatus::Failed { error: "a\x1bb".to_owned(), retry_in_secs: 5 }).spans,
        vec![span(Style::Bad, "error:"), span(Style::Plain, " a?b (retry in 5s)")],
    );
    assert_eq!(
        watch_summary(&WatchStatus::Missing { retry_in_secs: 5 }).spans,
        vec![span(Style::Warn, "directory missing"), span(Style::Plain, " (retry in 5s)")],
    );
    assert_eq!(
        watch_summary(&WatchStatus::Indexing).spans,
        vec![span(Style::Plain, "indexing commits")],
    );
}

#[test]
fn connections_are_summed_up() {
    assert_eq!(
        connection_summary(&ConnectionStatus::Connecting { failures: 1 }).spans,
        vec![span(Style::Warn, "connecting")],
    );
    assert_eq!(
        connection_summary(&ConnectionStatus::Backoff {
            retry_in_secs: 9,
            error: "refused".to_owned(),
        })
        .spans,
        vec![span(Style::Bad, "unreachable"), span(Style::Plain, " (retry in 9s)")],
    );
    assert_eq!(
        connection_summary(&ConnectionStatus::Connected {
            path: Some(PathInfo {
                route: Route::Direct { addr: "1.2.3.4:5".to_owned() },
                rtt_ms: 7,
            }),
            since_secs: 59,
        })
        .spans,
        vec![
            span(Style::Good, "connected"),
            span(Style::Plain, " direct 1.2.3.4:5 (rtt 7 ms), up 59s"),
        ],
    );
    assert_eq!(
        plain(&[connection_summary(&ConnectionStatus::Connected {
            path: Some(PathInfo { route: Route::Relay { url: "r".to_owned() }, rtt_ms: 70 }),
            since_secs: 60,
        })]),
        vec!["connected relay r (rtt 70 ms), up 1m 0s"],
    );
    assert_eq!(
        plain(&[connection_summary(&ConnectionStatus::Connected { path: None, since_secs: 0 })]),
        vec!["connected path pending, up 0s"],
    );
}

#[test]
fn issues_are_gathered() {
    let mut status = idle_status();
    assert!(collect_issues(&status, &vec![]).is_empty());
    status.conflicts.push(ConflictStatus { repo: "a".to_owned(), peer: "p".to_owned() });
    status.paused.push(PausedStatus {
        repo: "b".to_owned(),
        peers: vec!["p".to_owned(), "q".to_owned()],
    });
    let health = |name: &str, state| RepoHealth { name: name.to_owned(), state };
    status.peer_reports.push(PeerReport {
        peer: "p".to_owned(),
        report: StatusReport {
            daemon_version: "1".to_owned(),
            jj_version: None,
            repos: vec![
                health("c", RepoHealthState::Healthy),
                health("d", RepoHealthState::Failed),
                health("e", RepoHealthState::Missing),
                health("f", RepoHealthState::Paused),
            ],
        },
    });
    assert_eq!(
        collect_issues(&status, &vec![Some("old jj".to_owned())]),
        vec![
            "`a`: peer p announced a different repo under the same name",
            "`b`: this machine and p, q both have a colocated instance",
            "p: old jj",
            "`d` on p: sync error (see that machine's status)",
            "`e` on p: directory missing on that machine",
            "`f` on p: paused there (colocation conflict)",
        ],
    );
    assert_eq!(collect_issues(&status, &vec![]).len(), 5);
}

#[test]
fn the_status_is_laid_out() {
    assert_eq!(header("1.2", "abc").spans, vec![span(Style::Dim, "jj-mesh 1.2 (abc)")]);
    assert_eq!(
        plain(&render(&idle_status(), &None, &None, &vec![])),
        vec!["daemon: running (uptime 1h 1m)", "", "no paired peers", "", "no repos added"],
    );

    let mut status = idle_status();
    status.peers.push(PeerStatus {
        name: "laptop".to_owned(),
        endpoint: EndpointId::from_bytes([2; 32]),
        connection: ConnectionStatus::Connecting { failures: 0 },
    });
    status.peers.push(PeerStatus {
        name: "pi".to_owned(),
        endpoint: EndpointId::from_bytes([3; 32]),
        connection: ConnectionStatus::Connecting { failures: 0 },
    });
    status.repos.push(RepoStatus {
        name: "a".to_owned(),
        path: FsPath::new("/home/u/a"),
        watch: WatchStatus::Opening,
    });
    status.repos.push(RepoStatus {
        name: "long".to_owned(),
        path: FsPath::new("/srv/long"),
        watch: WatchStatus::Indexing,
    });
    status.available = vec!["x".to_owned(), "y".to_owned()];
    status.conflicts.push(ConflictStatus { repo: "a".to_owned(), peer: "pi".to_owned() });
    let lines = render(
        &status,
        &Some(FsPath::new("/home/u")),
        &Some("jj is old".to_owned()),
        &vec![],
    );
    assert_eq!(
        plain(&lines),
        vec![
            "daemon: running (uptime 1h 1m)",
            "warning: jj is old",
            "",
            "peers:",
            "  laptop  connecting",
            "  pi      connecting",
            "",
            "repos:",
            "  a     ~/a        opening",
            "  long  /srv/long  indexing commits",
            "",
            "  (available: x, y)",
            "",
            "issues:",
            "  `a`: peer pi announced a different repo under the same name",
        ],
    );
    assert_eq!(lines[3].spans[0].style, Style::Heading);
    assert_eq!(lines[13].spans[0].style, Style::Alert);
}

#[test]
fn service_paths_are_plain() {
    let fault = |path: &str| validate_service_path("p", &FsPath::new(path)).map_err(|e| e.fault);
    assert_eq!(fault("/usr/bin/jj-mesh"), Ok(()));
    assert_eq!(fault("bin/jj-mesh"), Err(PathFault::Relative));
    for bad in ["/a b", "/a\nb", "/a%b", "/a<b", "/a>b", "/a&b", "/a\"b", "/a'b", "/a\u{3000}b"] {
        assert_eq!(fault(bad), Err(PathFault::Unsafe), "{bad:?}");
    }
    let error = validate_service_path("the program path", &FsPath::new("x")).unwrap_err();
    assert_eq!(error.message("\"x\""), "the program path must be absolute: \"x\"");
    let error = validate_service_path("it", &FsPath::new("/a b")).unwrap_err();
    assert_eq!(
        error.message("\"/a b\""),
        "it must not contain whitespace, control characters or any of `%<>&\"'`, as it is written unescaped into the service definition: \"/a b\"",
    );
}

#[test]
fn service_definitions_bake_in_custom_directories() {
    let standard = ConfigDir::standard(&FsPath::new("/home/u/.config"));
    let definition = match define(FsPath::new("/bin/jj-mesh"), &None, &standard) {
        Ok(definition) => definition,
        Err(e) => panic!("{}", e.what),
    };
    assert_eq!(definition.program, FsPath::new("/bin/jj-mesh"));
    assert_eq!(definition.args, vec![FsPath::new("run-daemon")]);
    assert_eq!(
        definition.environment,
        vec![("RUST_LOG".to_owned(), "jj_mesh=info".to_owned())],
    );

    let custom = match ConfigDir::custom(FsPath::new("/side"), Found::Directory) {
        Ok(dir) => dir,
        Err(e) => panic!("{}", e.message()),
    };
    let jj = Some(FsPath::new("/bin/jj"));
    let definition = match define(FsPath::new("/bin/jj-mesh"), &jj, &custom) {
        Ok(definition) => definition,
        Err(e) => panic!("{}", e.what),
    };
    assert_eq!(
        definition.args,
        vec![FsPath::new("--config-dir"), FsPath::new("/side"), FsPath::new("run-daemon")],
    );
    assert_eq!(definition.environment[1], ("JJ_BIN".to_owned(), "/bin/jj".to_owned()));

    match define(FsPath::new("/bin/jj-mesh"), &Some(FsPath::new("jj")), &custom) {
        Err(e) => assert_eq!((e.what.as_str(), e.fault), ("the jj binary path", PathFault::Relative)),
        Ok(_) => panic!("a relative jj"),
    }
}

#[test]
fn restarts_verify_both_transitions() {
    let mut restart = Restart::stopping(0);
    assert_eq!(restart.observe(true, "Running", 100), Step::Poll);
    assert_eq!(restart.observe(false, "Stopped", 200), Step::Start);
    restart.started(300);
    assert_eq!(restart.observe(false, "Stopped", 400), Step::Poll);
    assert_eq!(restart.observe(true, "Running", 500), Step::Settle);
    assert_eq!(restart.observe(true, "Running", 1500), Step::Finished);

    let mut restart = Restart::stopping(0);
    assert_eq!(
        restart.observe(true, "Running", RESTART_WAIT),
        Step::Failed { error: "the service did not stop (status: Running)".to_owned() },
    );
    restart.started(0);
    assert_eq!(
        restart.observe(false, "Stopped", RESTART_WAIT),
        Step::Failed { error: "the service did not start (status: Stopped)".to_owned() },
    );
    assert_eq!(restart.observe(true, "Running", 1), Step::Settle);
    assert_eq!(
        restart.observe(false, "Stopped", 2),
        Step::Failed {
            error: "the service started but died (status: Stopped); check its logs".to_owned(),
        },
    );
    assert_eq!(Phase::Settling, Phase::Settling);
}

#[test]
fn completions_come_from_the_state() {
    let mut state = MeshState::default();
    let peer = EndpointId::from_bytes([7; 32]);
    state.add_peer(peer, "laptop".to_owned()).unwrap();
    for name in ["b", "a", "c"] {
        let repo = Repo { id: RepoId::generate(), path: FsPath::new(&format!("/{name}")) };
        state.add_repo(name.to_owned(), repo).unwrap();
    }
    state.forget_repo("b").unwrap();
    state.remove_repo("c").unwrap();
    assert_eq!(complete::registered_repos(&state), vec!["a"]);
    assert_eq!(complete::mesh_repos(&state), vec!["a", "b"]);
    assert_eq!(complete::clonable_repos(&state), vec!["b"]);
    assert_eq!(complete::peers(&state), vec![("laptop".to_owned(), "07".repeat(32))]);
}

#[test]
fn peer_commands_ask_and_answer() {
    let host = peer::AddArgs { ticket: None };
    assert_eq!(host.request(), Request::PairHost);
    let join = peer::AddArgs { ticket: Some("t".to_owned()) };
    assert_eq!(join.request(), Request::PairJoin { ticket: "t".to_owned() });

    let text = done(peer::hosted(Response::PairTicket("TICKET".to_owned())));
    assert!(text.contains("    jj-mesh peer add TICKET\n"));
    assert!(text.contains("valid for 3 minutes"));
    assert_eq!(
        failed(peer::hosted(Response::Error("no relay".to_owned()))),
        "cannot start pairing: no relay",
    );
    let endpoint = EndpointId::from_bytes([0xab; 32]);
    assert_eq!(
        done(peer::joined(Response::Paired { name: "l".to_owned(), endpoint })),
        format!("Paired with `l` ({})", "ab".repeat(32)),
    );
    assert_eq!(
        failed(peer::joined(Response::Error("bad".to_owned()))),
        "pairing failed: bad",
    );
    assert!(matches!(peer::joined(Response::RepoAdded), Reply::Unexpected { .. }));

    let remove = peer::RemoveArgs { peer: "l".to_owned() };
    assert_eq!(remove.request(), Request::RemovePeer { peer: "l".to_owned() });
    assert_eq!(
        done(remove.reply(Response::PeerRemoved(endpoint))),
        format!("Removed peer `l` ({})", "ab".repeat(32)),
    );
    let rename = peer::RenameArgs { name: "desk".to_owned() };
    assert_eq!(rename.request(), Request::RenameMachine { name: "desk".to_owned() });
    assert_eq!(done(rename.reply(Response::MachineRenamed)), "This machine is now `desk`");
    assert_eq!(failed(rename.reply(Response::Error("no".to_owned()))), "no");
}

#[test]
fn adding_a_repo_derives_its_name() {
    let bare = repo::add::AddArgs { path: None, name: None, workspace: None };
    assert_eq!(bare.path(), FsPath::new("."));
    assert_eq!(bare.name(&FsPath::new("/home/u/proj")), Ok("proj".to_owned()));
    assert_eq!(
        bare.name(&FsPath::new("/")),
        Err("cannot derive a name from ., use --name".to_owned()),
    );
    assert_eq!(bare.workspace("default", "desk"), Some("desk".to_owned()));
    assert_eq!(bare.workspace("mine", "desk"), None);

    let named = repo::add::AddArgs {
        path: Some(FsPath::new("x")),
        name: Some("n".to_owned()),
        workspace: Some("w".to_owned()),
    };
    assert_eq!(named.path(), FsPath::new("x"));
    assert_eq!(named.name(&FsPath::new("/")), Ok("n".to_owned()));
    assert_eq!(named.workspace("mine", "desk"), Some("w".to_owned()));
    assert_eq!(rename_workspace("w").args, vec!["workspace", "rename", "w"]);

    let root = FsPath::new("/r");
    assert_eq!(
        repo::add::request("n", &root),
        Request::AddRepo { name: "n".to_owned(), path: FsPath::new("/r") },
    );
    assert_eq!(done(repo::add::reply("n", &root, Response::RepoAdded)), "Added repo `n` at /r");
}

#[test]
fn cloning_a_repo_runs_its_steps() {
    let args = CloneArgs { name: "proj".to_owned(), path: None, workspace: None };
    assert_eq!(args.path(), FsPath::new("proj"));
    assert_eq!(args.workspace("desk"), "desk");
    assert_eq!(args.init().args, vec!["git", "init", "--no-colocate", "proj"]);
    assert_eq!(args.init().failure("boom"), "jj git init --no-colocate proj failed:\nboom");
    assert_eq!(args.occupied(), "proj already exists (clone creates the directory)");
    assert_eq!(
        args.unregistered(),
        "the repo directory proj was created but not registered, remove it before retrying",
    );
    assert_eq!(
        args.request(FsPath::new("/cwd/proj")),
        Request::CloneRepo { name: "proj".to_owned(), path: FsPath::new("/cwd/proj") },
    );
    assert_eq!(
        done(args.reply(Response::Cloned { ops: 1, git_objects: 2 })),
        "Cloned `proj` in proj",
    );

    assert_eq!(Finish::Status.command().unwrap().args, vec!["status"]);
    assert_eq!(Finish::Status.next(true), Finish::RemoteTrunk);
    assert_eq!(Finish::RemoteTrunk.next(true), Finish::Ready);
    assert_eq!(Finish::RemoteTrunk.next(false), Finish::LocalTrunk);
    assert_eq!(Finish::LocalTrunk.next(false), Finish::Ready);
    assert_eq!(Finish::Status.next(false), Finish::UpdateStale);
    assert_eq!(Finish::UpdateStale.next(true), Finish::Ready);
    assert_eq!(Finish::UpdateStale.next(false), Finish::Failed);
    assert!(Finish::Ready.command().is_none());
    assert_eq!(
        Finish::RemoteTrunk.command().unwrap().args,
        vec!["new", "latest(trunk() ~ root())"],
    );
    assert_eq!(
        Finish::LocalTrunk.command().unwrap().args[1],
        r#"latest(bookmarks(exact:"main") | bookmarks(exact:"master") | bookmarks(exact:"trunk"))"#,
    );
}

#[test]
fn progress_shows_phases() {
    let frame = |peer: &str, phase, total| CloneProgress {
        peer: peer.to_owned(),
        transfer: TransferProgress { phase, current: 5, total, bytes: 3 << 20 },
    };
    let spinner = |message: &str| Shown::Spinner { message: message.to_owned() };
    assert_eq!(show_progress(&frame("", TransferPhase::Git, None)), spinner("Contacting peers..."));
    assert_eq!(
        show_progress(&frame("p", TransferPhase::Ops, None)),
        spinner("Pulling history from `p`: 5 operations"),
    );
    assert_eq!(
        show_progress(&frame("p", TransferPhase::Ops, Some(9))),
        Shown::Bar {
            prefix: "Pulling history from `p`".to_owned(),
            position: 5,
            total: 9,
            message: "operations".to_owned(),
        },
    );
    assert_eq!(
        show_progress(&frame("p", TransferPhase::Git, None)),
        spinner("Pulling files from `p`: 3.00 MiB"),
    );
    assert_eq!(
        show_progress(&frame("p", TransferPhase::Git, Some(9))),
        Shown::Bar {
            prefix: "Pulling files from `p`".to_owned(),
            position: 5,
            total: 9,
            message: "objects (3.00 MiB)".to_owned(),
        },
    );
    assert_eq!(
        show_progress(&frame("p", TransferPhase::Apply, Some(1))),
        spinner("Writing the repo..."),
    );
}

#[test]
fn bytes_are_human() {
    let shown = |bytes: u64| {
        let frame = CloneProgress {
            peer: "p".to_owned(),
            transfer: TransferProgress {
                phase: TransferPhase::Git,
                current: 0,
                total: None,
                bytes,
            },
        };
        match show_progress(&frame) {
            Shown::Spinner { message } => message,
            Shown::Bar { .. } => panic!("no total is known"),
        }
    };
    assert_eq!(shown(15), "Pulling files from `p`: 15 B");
    assert_eq!(shown(1_500), "Pulling files from `p`: 1.46 KiB");
    assert_eq!(shown(1_500_000), "Pulling files from `p`: 1.43 MiB");
}

#[test]
fn progress_takes_the_byte_count_as_a_text() {
    let frame = CloneProgress {
        peer: "p".to_owned(),
        transfer: TransferProgress {
            phase: TransferPhase::Git,
            current: 1,
            total: Some(2),
            bytes: 7,
        },
    };
    assert_eq!(
        progress_line(&frame, "lots"),
        Shown::Bar {
            prefix: "Pulling files from `p`".to_owned(),
            position: 1,
            total: 2,
            message: "objects (lots)".to_owned(),
        },
    );
}

#[test]
fn removing_a_repo_is_confirmed() {
    for yes in ["y", "Y", "yes\n", " YES ", "yEs"] {
        assert!(confirms(yes), "{yes:?}");
    }
    for no in ["", "n", "no", "yess", "ye", "y e s", "\u{FF59}"] {
        assert!(!confirms(no), "{no:?}");
    }
    let args = RemoveArgs { name: "proj".to_owned(), yes: false };
    assert_eq!(args.prompt(), "Remove `proj` from every machine on the mesh? [y/N] ");
    assert_eq!(
        args.unconfirmed(),
        "refusing to remove `proj` without a terminal to confirm on; pass --yes",
    );
    assert_eq!(args.request(), Request::RemoveRepo { name: "proj".to_owned() });
    assert_eq!(
        done(args.reply(Response::RepoRemoved { was_local: false })),
        "Removed repo `proj` from the mesh",
    );
    assert_eq!(
        done(args.reply(Response::RepoRemoved { was_local: true })),
        "Removed repo `proj` from the mesh\nIt is no longer synchronized here; its files are untouched.",
    );
}

#[test]
fn forgetting_a_repo_says_where_it_is() {
    let args = ForgetArgs { name: "proj".to_owned() };
    assert_eq!(args.request(), Request::ForgetRepo { name: "proj".to_owned() });
    assert_eq!(
        done(args.reply(Response::RepoForgotten { path: FsPath::new("/p") })),
        "Forgot repo `proj`; it is no longer synchronized on this machine\n\
         Its files at /p are untouched, and the mesh still has the repo\n\
         Note: if no other machine holds `proj`, nobody can clone it anymore; \
         retire the name with `jj-mesh repo remove` instead",
    );
}

#[test]
fn builds_are_labelled() {
    let head = Some("abcd1234\n".to_owned());
    assert_eq!(commit::git_commit(&head, false), "abcd1234");
    assert_eq!(commit::git_commit(&head, true), "abcd1234+");
    assert_eq!(commit::git_commit(&None, true), "unknown");
    assert_eq!(commit::label(&Some("given".to_owned()), &head, true), "given");
    assert_eq!(commit::label(&Some(String::new()), &head, false), "abcd1234");
    assert_eq!(commit::label(&None, &None, false), "unknown");
}
