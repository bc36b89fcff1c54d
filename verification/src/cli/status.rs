//! `jj-mesh status`: show the daemon and mesh state.

use vstd::prelude::*;

use super::ui::{Line, SpanView, Style, display_path, fill, format_duration, name_width};
use crate::config::name::sanitize;
use crate::config::path::FsPath;
use crate::daemon::control::protocol::{
    ConflictView, ConnectionStatus, ConnectionView, PathInfo, PathInfoView, PausedView,
    PeerReportView, PeerStatusView, RepoStatusView, Route, RouteView, Status, StatusView,
    WatchStatus, WatchView,
};
use crate::net::sync::{RepoHealth, RepoHealthState, RepoHealthView};
use crate::text::{decimal_text, join2, join3};

verus! {

/// Show the daemon state and the live mesh status.
#[derive(Clone, Copy, PartialEq, Eq, Structural, Debug)]
pub struct StatusArgs {}

/// What a report's repo state means to the user, none when it is healthy.
pub open spec fn problem(state: RepoHealthState) -> Option<Seq<char>> {
    match state {
        RepoHealthState::Healthy => None,
        RepoHealthState::Failed => Some("sync error (see that machine's status)"@),
        RepoHealthState::Missing => Some("directory missing on that machine"@),
        RepoHealthState::Paused => Some("paused there (colocation conflict)"@),
    }
}

/// Texts joined by a separator.
pub open spec fn joined_texts(texts: Seq<Seq<char>>, separator: Seq<char>) -> Seq<char>
    decreases texts.len(),
{
    if texts.len() == 0 {
        Seq::empty()
    } else if texts.len() == 1 {
        texts[0]
    } else {
        joined_texts(texts.drop_last(), separator) + separator + texts.last()
    }
}

/// Joins texts by a separator.
pub fn join_texts(texts: &Vec<String>, separator: &str) -> (text: String)
    ensures
        text@ == joined_texts(super::ui::texts_view(texts@), separator@),
{
    let ghost all = super::ui::texts_view(texts@);
    let mut text = String::new();
    let mut i: usize = 0;
    assert(text@ =~= Seq::empty());
    while i < texts.len()
        invariant
            i <= texts@.len(),
            all == super::ui::texts_view(texts@),
            text@ == joined_texts(all.take(i as int), separator@),
        decreases texts@.len() - i,
    {
        assert(all.take(i + 1).drop_last() =~= all.take(i as int));
        if i > 0 {
            text.append(separator);
        }
        text.append(texts[i].as_str());
        assert(i == 0 ==> text@ =~= texts@[0]@);
        i = i + 1;
    }
    assert(all.take(i as int) =~= all);
    text
}

/// The issues of contested names.
pub open spec fn conflict_issues(conflicts: Seq<ConflictView>) -> Seq<Seq<char>> {
    conflicts.map_values(
        |c: ConflictView|
            "`"@ + c.repo + "`: peer "@ + c.peer
                + " announced a different repo under the same name"@,
    )
}

/// The issues of paused repos.
pub open spec fn pause_issues(paused: Seq<PausedView>) -> Seq<Seq<char>> {
    paused.map_values(
        |p: PausedView|
            "`"@ + p.repo + "`: this machine and "@ + joined_texts(p.peers, ", "@)
                + " both have a colocated instance"@,
    )
}

/// The issues a peer reports of its repos.
pub open spec fn repo_issues(peer: Seq<char>, repos: Seq<RepoHealthView>) -> Seq<Seq<char>>
    decreases repos.len(),
{
    if repos.len() == 0 {
        Seq::empty()
    } else {
        let rest = repo_issues(peer, repos.drop_last());
        match problem(repos.last().state) {
            Some(what) => rest.push("`"@ + repos.last().name + "` on "@ + peer + ": "@ + what),
            None => rest,
        }
    }
}

/// The warning for a report, where there is one.
pub open spec fn warning_at(warnings: Seq<Option<Seq<char>>>, i: int) -> Option<Seq<char>> {
    if 0 <= i < warnings.len() {
        warnings[i]
    } else {
        None
    }
}

/// The issues peers report, with a warning for some of them.
pub open spec fn report_issues(
    reports: Seq<PeerReportView>,
    warnings: Seq<Option<Seq<char>>>,
) -> Seq<Seq<char>>
    decreases reports.len(),
{
    if reports.len() == 0 {
        Seq::empty()
    } else {
        let rest = report_issues(reports.drop_last(), warnings);
        let last = reports.last();
        let warned = match warning_at(warnings, reports.len() - 1) {
            Some(warning) => rest.push(last.peer + ": "@ + warning),
            None => rest,
        };
        warned + repo_issues(last.peer, last.report.repos)
    }
}

/// Everything that needs the user's attention.
pub open spec fn issues_of(status: StatusView, warnings: Seq<Option<Seq<char>>>) -> Seq<Seq<char>> {
    conflict_issues(status.conflicts) + pause_issues(status.paused) + report_issues(
        status.peer_reports,
        warnings,
    )
}

/// Optional texts by content.
pub open spec fn warnings_view(warnings: Seq<Option<String>>) -> Seq<Option<Seq<char>>> {
    warnings.map_values(|w: Option<String>| crate::net::sync::text_view(w))
}

/// Adds an issue to a list.
fn note(issues: &mut Vec<String>, issue: String)
    ensures
        super::ui::texts_view(final(issues)@) == super::ui::texts_view(old(issues)@).push(issue@),
{
    issues.push(issue);
    assert(super::ui::texts_view(issues@) =~= super::ui::texts_view(old(issues)@).push(issue@));
}

/// Adds the issues a peer reports of its repos.
fn note_repos(issues: &mut Vec<String>, peer: &str, repos: &Vec<RepoHealth>)
    ensures
        super::ui::texts_view(final(issues)@) == super::ui::texts_view(old(issues)@) + repo_issues(
            peer@,
            crate::net::sync::healths_view(repos@),
        ),
{
    let ghost all = crate::net::sync::healths_view(repos@);
    let ghost start = super::ui::texts_view(issues@);
    let mut i: usize = 0;
    assert(start =~= start + repo_issues(peer@, all.take(0)));
    while i < repos.len()
        invariant
            i <= repos@.len(),
            all == crate::net::sync::healths_view(repos@),
            super::ui::texts_view(issues@) == start + repo_issues(peer@, all.take(i as int)),
        decreases repos@.len() - i,
    {
        assert(all.take(i + 1).drop_last() =~= all.take(i as int));
        assert(all.take(i + 1).last() == repos@[i as int]@);
        let what: Option<&str> = match repos[i].state {
            RepoHealthState::Healthy => None,
            RepoHealthState::Failed => Some("sync error (see that machine's status)"),
            RepoHealthState::Missing => Some("directory missing on that machine"),
            RepoHealthState::Paused => Some("paused there (colocation conflict)"),
        };
        if let Some(what) = what {
            let mut issue = join3("`", repos[i].name.as_str(), "` on ");
            issue.append(peer);
            issue.append(": ");
            issue.append(what);
            note(issues, issue);
            assert(super::ui::texts_view(issues@) =~= start + repo_issues(
                peer@,
                all.take(i + 1),
            ));
        }
        i = i + 1;
    }
    assert(all.take(i as int) =~= all);
}

/// Gathers everything that needs the user's attention into one list: local name
/// conflicts and pauses, plus the problems connected peers report about their
/// own instances. Healthy peer reports stay silent. `warnings` holds what the
/// peers' jj versions give rise to, in the order of the reports.
pub fn collect_issues(status: &Status, warnings: &Vec<Option<String>>) -> (issues: Vec<String>)
    ensures
        super::ui::texts_view(issues@) == issues_of(status@, warnings_view(warnings@)),
{
    let mut issues: Vec<String> = Vec::new();
    let ghost conflicts = status@.conflicts;
    let ghost paused = status@.paused;
    let ghost reports = status@.peer_reports;
    let ghost warned = warnings_view(warnings@);
    let mut i: usize = 0;
    assert(super::ui::texts_view(issues@) =~= conflict_issues(conflicts.take(0)));
    while i < status.conflicts.len()
        invariant
            i <= status.conflicts@.len(),
            conflicts == status@.conflicts,
            conflicts.len() == status.conflicts@.len(),
            super::ui::texts_view(issues@) == conflict_issues(conflicts.take(i as int)),
        decreases status.conflicts@.len() - i,
    {
        let ghost before = super::ui::texts_view(issues@);
        let mut issue = join3("`", status.conflicts[i].repo.as_str(), "`: peer ");
        issue.append(status.conflicts[i].peer.as_str());
        issue.append(" announced a different repo under the same name");
        assert(conflicts[i as int] == status.conflicts@[i as int]@);
        let ghost text = issue@;
        note(&mut issues, issue);
        assert(conflict_issues(conflicts.take(i + 1)) =~= before.push(text));
        i = i + 1;
    }
    assert(conflicts.take(i as int) =~= conflicts);
    let ghost first = super::ui::texts_view(issues@);
    let mut j: usize = 0;
    assert(first =~= first + pause_issues(paused.take(0)));
    while j < status.paused.len()
        invariant
            j <= status.paused@.len(),
            paused == status@.paused,
            paused.len() == status.paused@.len(),
            super::ui::texts_view(issues@) == first + pause_issues(paused.take(j as int)),
        decreases status.paused@.len() - j,
    {
        let ghost before = super::ui::texts_view(issues@);
        let peers = join_texts(&status.paused[j].peers, ", ");
        let mut issue = join3(
            "`",
            status.paused[j].repo.as_str(),
            "`: this machine and ",
        );
        issue.append(peers.as_str());
        issue.append(" both have a colocated instance");
        assert(paused[j as int] == status.paused@[j as int]@);
        assert(super::ui::texts_view(status.paused@[j as int].peers@)
            =~= paused[j as int].peers);
        let ghost text = issue@;
        note(&mut issues, issue);
        assert(pause_issues(paused.take(j + 1)) =~= pause_issues(paused.take(j as int)).push(
            text,
        ));
        assert(first + pause_issues(paused.take(j + 1)) =~= before.push(text));
        j = j + 1;
    }
    assert(paused.take(j as int) =~= paused);
    let ghost second = super::ui::texts_view(issues@);
    let mut k: usize = 0;
    assert(second =~= second + report_issues(reports.take(0), warned));
    while k < status.peer_reports.len()
        invariant
            k <= status.peer_reports@.len(),
            reports == status@.peer_reports,
            reports.len() == status.peer_reports@.len(),
            warned == warnings_view(warnings@),
            super::ui::texts_view(issues@) == second + report_issues(
                reports.take(k as int),
                warned,
            ),
        decreases status.peer_reports@.len() - k,
    {
        assert(reports.take(k + 1).drop_last() =~= reports.take(k as int));
        assert(reports.take(k + 1).last() == status.peer_reports@[k as int]@);
        let peer = status.peer_reports[k].peer.as_str();
        let ghost before = report_issues(reports.take(k as int), warned);
        let ghost mut so_far = before;
        if k < warnings.len() {
            assert(warned[k as int] == crate::net::sync::text_view(warnings@[k as int]));
            if let Some(warning) = &warnings[k] {
                let issue = join3(peer, ": ", warning.as_str());
                proof {
                    so_far = before.push(issue@);
                    assert(second + so_far =~= (second + before).push(issue@));
                }
                note(&mut issues, issue);
            }
        }
        note_repos(&mut issues, peer, &status.peer_reports[k].report.repos);
        assert(super::ui::texts_view(issues@) =~= second + report_issues(
            reports.take(k + 1),
            warned,
        ));
        k = k + 1;
    }
    assert(reports.take(k as int) =~= reports);
    issues
}

/// The one-line description of a repo watch.
pub open spec fn watch_spans(watch: WatchView) -> Seq<SpanView> {
    match watch {
        WatchView::Opening => seq![super::ui::span(Style::Plain, "opening"@)],
        WatchView::Watching { op_heads, last_change_secs, last_sync_secs } => {
            let watching = seq![super::ui::span(Style::Good, "watching"@)];
            match last_change_secs {
                Some(secs) => watching.push(
                    super::ui::span(
                        Style::Plain,
                        " (synced "@ + super::ui::duration_text(secs as nat) + " ago)"@,
                    ),
                ),
                None => watching,
            }
        },
        WatchView::Failed { error, retry_in_secs } => seq![
            super::ui::span(Style::Bad, "error:"@),
            super::ui::span(
                Style::Plain,
                " "@ + crate::config::name::sanitized(error) + " (retry in "@
                    + super::ui::duration_text(retry_in_secs as nat) + ")"@,
            ),
        ],
        WatchView::Missing { retry_in_secs } => seq![
            super::ui::span(Style::Warn, "directory missing"@),
            super::ui::span(
                Style::Plain,
                " (retry in "@ + super::ui::duration_text(retry_in_secs as nat) + ")"@,
            ),
        ],
        WatchView::Indexing => seq![super::ui::span(Style::Plain, "indexing commits"@)],
    }
}

/// One-line description of a repo watch.
pub fn watch_summary(watch: &WatchStatus) -> (summary: Line)
    ensures
        summary@ == watch_spans(watch@),
{
    let mut line = Line::blank();
    match watch {
        WatchStatus::Opening => {
            line.add(Style::Plain, "opening");
        },
        WatchStatus::Watching { op_heads, last_change_secs, last_sync_secs } => {
            line.add(Style::Good, "watching");
            if let Some(secs) = last_change_secs {
                let synced = join3(" (synced ", format_duration(*secs).as_str(), " ago)");
                line.add(Style::Plain, synced.as_str());
            }
        },
        WatchStatus::Failed { error, retry_in_secs } => {
            line.add(Style::Bad, "error:");
            let mut detail = join3(" ", sanitize(error.as_str()).as_str(), " (retry in ");
            detail.append(format_duration(*retry_in_secs).as_str());
            detail.append(")");
            line.add(Style::Plain, detail.as_str());
        },
        WatchStatus::Missing { retry_in_secs } => {
            line.add(Style::Warn, "directory missing");
            let detail = join3(" (retry in ", format_duration(*retry_in_secs).as_str(), ")");
            line.add(Style::Plain, detail.as_str());
        },
        WatchStatus::Indexing => {
            line.add(Style::Plain, "indexing commits");
        },
    }
    assert(line@ =~= watch_spans(watch@));
    line
}

/// The route of a connection, as shown.
pub open spec fn route_text(path: Option<PathInfoView>) -> Seq<char> {
    match path {
        Some(PathInfoView { route: RouteView::Direct { addr }, rtt_ms }) => "direct "@ + addr
            + " (rtt "@ + crate::text::decimal(rtt_ms as nat) + " ms)"@,
        Some(PathInfoView { route: RouteView::Relay { url }, rtt_ms }) => "relay "@ + url
            + " (rtt "@ + crate::text::decimal(rtt_ms as nat) + " ms)"@,
        None => "path pending"@,
    }
}

/// The one-line description of a peer connection.
pub open spec fn connection_spans(connection: ConnectionView) -> Seq<SpanView> {
    match connection {
        ConnectionView::Connecting { failures } => seq![
            super::ui::span(Style::Warn, "connecting"@),
        ],
        ConnectionView::Backoff { retry_in_secs, error } => seq![
            super::ui::span(Style::Bad, "unreachable"@),
            super::ui::span(
                Style::Plain,
                " (retry in "@ + super::ui::duration_text(retry_in_secs as nat) + ")"@,
            ),
        ],
        ConnectionView::Connected { path, since_secs } => seq![
            super::ui::span(Style::Good, "connected"@),
            super::ui::span(
                Style::Plain,
                " "@ + route_text(path) + ", up "@ + super::ui::duration_text(since_secs as nat),
            ),
        ],
    }
}

/// The route of a connection, as shown.
fn route_summary(path: &Option<PathInfo>) -> (text: String)
    ensures
        text@ == route_text(crate::daemon::control::protocol::path_view(*path)),
{
    match path {
        Some(info) => {
            let mut text = match &info.route {
                Route::Direct { addr } => join3("direct ", addr.as_str(), " (rtt "),
                Route::Relay { url } => join3("relay ", url.as_str(), " (rtt "),
            };
            text.append(decimal_text(info.rtt_ms).as_str());
            text.append(" ms)");
            text
        },
        None => "path pending".to_owned(),
    }
}

/// One-line description of a peer connection.
pub fn connection_summary(connection: &ConnectionStatus) -> (summary: Line)
    ensures
        summary@ == connection_spans(connection@),
{
    let mut line = Line::blank();
    match connection {
        ConnectionStatus::Connecting { failures } => {
            line.add(Style::Warn, "connecting");
        },
        ConnectionStatus::Backoff { retry_in_secs, error } => {
            line.add(Style::Bad, "unreachable");
            let detail = join3(" (retry in ", format_duration(*retry_in_secs).as_str(), ")");
            line.add(Style::Plain, detail.as_str());
        },
        ConnectionStatus::Connected { path, since_secs } => {
            line.add(Style::Good, "connected");
            let mut detail = join3(" ", route_summary(path).as_str(), ", up ");
            detail.append(format_duration(*since_secs).as_str());
            line.add(Style::Plain, detail.as_str());
        },
    }
    assert(line@ =~= connection_spans(connection@));
    line
}

/// The line that says what this program is.
pub fn header(version: &str, commit: &str) -> (line: Line)
    ensures
        line@ == seq![
            super::ui::span(Style::Dim, "jj-mesh "@ + version@ + " ("@ + commit@ + ")"@),
        ],
{
    let mut text = join3("jj-mesh ", version, " (");
    text.append(commit);
    text.append(")");
    let mut line = Line::blank();
    line.add(Style::Dim, text.as_str());
    line
}

/// The names of peers.
pub open spec fn names_of_peers(peers: Seq<PeerStatusView>) -> Seq<Seq<char>> {
    peers.map_values(|p: PeerStatusView| p.name)
}

/// The names of repos.
pub open spec fn names_of_repos(repos: Seq<RepoStatusView>) -> Seq<Seq<char>> {
    repos.map_values(|r: RepoStatusView| r.name)
}

/// The shown paths of repos.
pub open spec fn paths_of_repos(repos: Seq<RepoStatusView>, home: Option<Seq<u8>>) -> Seq<
    Seq<char>,
> {
    repos.map_values(|r: RepoStatusView| super::ui::shortened(r.path, home))
}

/// The line of a peer, in a column of a width.
pub open spec fn peer_line(peer: PeerStatusView, width: nat) -> Seq<SpanView> {
    seq![super::ui::span(Style::Plain, "  "@ + super::ui::filled(peer.name, width) + "  "@)]
        + connection_spans(peer.connection)
}

/// The lines of the peers.
pub open spec fn peer_lines(peers: Seq<PeerStatusView>) -> Seq<Seq<SpanView>> {
    if peers.len() == 0 {
        seq![seq![super::ui::span(Style::Plain, "no paired peers"@)]]
    } else {
        let width = super::ui::widest(names_of_peers(peers));
        seq![seq![super::ui::span(Style::Heading, "peers:"@)]] + peers.map_values(
            |p: PeerStatusView| peer_line(p, width),
        )
    }
}

/// The line of a repo, in columns of given widths.
pub open spec fn repo_line(
    repo: RepoStatusView,
    home: Option<Seq<u8>>,
    width: nat,
    path_width: nat,
) -> Seq<SpanView> {
    seq![
        super::ui::span(Style::Plain, "  "@ + super::ui::filled(repo.name, width) + "  "@),
        super::ui::span(
            Style::Dim,
            super::ui::filled(super::ui::shortened(repo.path, home), path_width),
        ),
        super::ui::span(Style::Plain, "  "@),
    ] + watch_spans(repo.watch)
}

/// The lines of the repos.
pub open spec fn repo_lines(repos: Seq<RepoStatusView>, home: Option<Seq<u8>>) -> Seq<
    Seq<SpanView>,
> {
    if repos.len() == 0 {
        seq![seq![super::ui::span(Style::Plain, "no repos added"@)]]
    } else {
        let width = super::ui::widest(names_of_repos(repos));
        let path_width = super::ui::widest(paths_of_repos(repos, home));
        seq![seq![super::ui::span(Style::Heading, "repos:"@)]] + repos.map_values(
            |r: RepoStatusView| repo_line(r, home, width, path_width),
        )
    }
}

/// The lines of the clonable repos: none when there are none.
pub open spec fn available_lines(available: Seq<Seq<char>>) -> Seq<Seq<SpanView>> {
    if available.len() == 0 {
        Seq::empty()
    } else {
        seq![
            Seq::empty(),
            seq![
                super::ui::span(Style::Plain, "  "@),
                super::ui::span(
                    Style::Dim,
                    "(available: "@ + joined_texts(available, ", "@) + ")"@,
                ),
            ],
        ]
    }
}

/// The lines of the issues: none when there are none.
pub open spec fn issue_lines(issues: Seq<Seq<char>>) -> Seq<Seq<SpanView>> {
    if issues.len() == 0 {
        Seq::empty()
    } else {
        seq![Seq::empty(), seq![super::ui::span(Style::Alert, "issues:"@)]] + issues.map_values(
            |i: Seq<char>| seq![super::ui::span(Style::Plain, "  "@ + i)],
        )
    }
}

/// The lines on the daemon itself.
pub open spec fn daemon_lines(uptime_secs: u64, warning: Option<Seq<char>>) -> Seq<Seq<SpanView>> {
    let running = seq![
        seq![
            super::ui::span(Style::Plain, "daemon: "@),
            super::ui::span(Style::Good, "running"@),
            super::ui::span(
                Style::Plain,
                " (uptime "@ + super::ui::duration_text(uptime_secs as nat) + ")"@,
            ),
        ],
    ];
    match warning {
        Some(warning) => running.push(
            seq![
                super::ui::span(Style::Warn, "warning:"@),
                super::ui::span(Style::Plain, " "@ + warning),
            ],
        ),
        None => running,
    }
}

/// What the `status` command shows of a daemon state.
pub open spec fn status_lines(
    status: StatusView,
    home: Option<Seq<u8>>,
    warning: Option<Seq<char>>,
    peer_warnings: Seq<Option<Seq<char>>>,
) -> Seq<Seq<SpanView>> {
    daemon_lines(status.uptime_secs, warning) + seq![Seq::<SpanView>::empty()] + peer_lines(
        status.peers,
    ) + seq![Seq::<SpanView>::empty()] + repo_lines(status.repos, home) + available_lines(
        status.available,
    ) + issue_lines(issues_of(status, peer_warnings))
}

/// Adds a line to a list.
fn put(lines: &mut Vec<Line>, line: Line)
    ensures
        super::ui::lines_view(final(lines)@) == super::ui::lines_view(old(lines)@).push(line@),
{
    lines.push(line);
    assert(super::ui::lines_view(lines@) =~= super::ui::lines_view(old(lines)@).push(line@));
}

fn put_daemon(lines: &mut Vec<Line>, uptime_secs: u64, warning: &Option<String>)
    ensures
        super::ui::lines_view(final(lines)@) == super::ui::lines_view(old(lines)@) + daemon_lines(
            uptime_secs,
            crate::net::sync::text_view(*warning),
        ),
{
    let ghost start = super::ui::lines_view(lines@);
    let mut line = Line::plain("daemon: ");
    line.add(Style::Good, "running");
    let uptime = join3(" (uptime ", format_duration(uptime_secs).as_str(), ")");
    line.add(Style::Plain, uptime.as_str());
    let ghost running = line@;
    put(lines, line);
    assert(daemon_lines(uptime_secs, None)[0] =~= running);
    assert(daemon_lines(uptime_secs, None) =~= seq![running]);
    assert(start + daemon_lines(uptime_secs, None) =~= start.push(running));
    if let Some(warning) = warning {
        let mut line = Line::blank();
        line.add(Style::Warn, "warning:");
        line.add(Style::Plain, join2(" ", warning.as_str()).as_str());
        let ghost warned = line@;
        put(lines, line);
        assert(daemon_lines(uptime_secs, Some(warning@))[1] =~= warned);
        assert(daemon_lines(uptime_secs, Some(warning@)) =~= seq![running, warned]);
        assert(start + daemon_lines(uptime_secs, Some(warning@)) =~= start.push(running).push(
            warned,
        ));
    }
}

fn put_peers(lines: &mut Vec<Line>, status: &Status)
    ensures
        super::ui::lines_view(final(lines)@) == super::ui::lines_view(old(lines)@) + peer_lines(
            status@.peers,
        ),
{
    let ghost start = super::ui::lines_view(lines@);
    let ghost peers = status@.peers;
    if status.peers.len() == 0 {
        let line = Line::plain("no paired peers");
        let ghost none = line@;
        put(lines, line);
        assert(peers.len() == 0);
        assert(start + peer_lines(peers) =~= start.push(none));
        return;
    }
    let mut names: Vec<String> = Vec::new();
    let mut i: usize = 0;
    assert(super::ui::texts_view(names@) =~= names_of_peers(peers).take(0));
    while i < status.peers.len()
        invariant
            i <= status.peers@.len(),
            peers == status@.peers,
            super::ui::texts_view(names@) == names_of_peers(peers).take(i as int),
        decreases status.peers@.len() - i,
    {
        note(&mut names, status.peers[i].name.clone());
        assert(names_of_peers(peers).take(i + 1) =~= names_of_peers(peers).take(i as int).push(
            status.peers@[i as int].name@,
        ));
        i = i + 1;
    }
    assert(names_of_peers(peers).take(i as int) =~= names_of_peers(peers));
    let width: usize = name_width(&names);
    let ghost shown = |p: PeerStatusView| peer_line(p, width as nat);
    let mut heading = Line::blank();
    heading.add(Style::Heading, "peers:");
    let ghost head = seq![seq![super::ui::span(Style::Heading, "peers:"@)]];
    put(lines, heading);
    let mut j: usize = 0;
    assert(super::ui::lines_view(lines@) =~= start + head + peers.take(0).map_values(shown));
    while j < status.peers.len()
        invariant
            j <= status.peers@.len(),
            peers == status@.peers,
            peers.len() == status.peers@.len(),
            shown == (|p: PeerStatusView| peer_line(p, width as nat)),
            super::ui::lines_view(lines@) == start + head + peers.take(j as int).map_values(
                shown,
            ),
        decreases status.peers@.len() - j,
    {
        let ghost before = super::ui::lines_view(lines@);
        let cell = join3("  ", fill(status.peers[j].name.as_str(), width).as_str(), "  ");
        let mut line = Line::plain(cell.as_str());
        line.extend(connection_summary(&status.peers[j].connection).spans);
        assert(peers[j as int] == status.peers@[j as int]@);
        assert(line@ =~= peer_line(peers[j as int], width as nat));
        let ghost added = line@;
        put(lines, line);
        assert(peers.take(j + 1).map_values(shown) =~= peers.take(j as int).map_values(
            shown,
        ).push(added));
        assert(start + head + peers.take(j + 1).map_values(shown) =~= before.push(added));
        j = j + 1;
    }
    assert(peers.take(j as int) =~= peers);
    assert(start + peer_lines(peers) =~= start + head + peers.map_values(shown));
}

fn put_repos(lines: &mut Vec<Line>, status: &Status, home: &Option<FsPath>)
    ensures
        super::ui::lines_view(final(lines)@) == super::ui::lines_view(old(lines)@) + repo_lines(
            status@.repos,
            home_view(*home),
        ),
{
    let ghost start = super::ui::lines_view(lines@);
    let ghost repos = status@.repos;
    let ghost at = home_view(*home);
    if status.repos.len() == 0 {
        let line = Line::plain("no repos added");
        let ghost none = line@;
        put(lines, line);
        assert(repos.len() == 0);
        assert(start + repo_lines(repos, at) =~= start.push(none));
        return;
    }
    let mut names: Vec<String> = Vec::new();
    let mut paths: Vec<String> = Vec::new();
    let mut i: usize = 0;
    assert(super::ui::texts_view(names@) =~= names_of_repos(repos).take(0));
    assert(super::ui::texts_view(paths@) =~= paths_of_repos(repos, at).take(0));
    while i < status.repos.len()
        invariant
            i <= status.repos@.len(),
            repos == status@.repos,
            at == home_view(*home),
            super::ui::texts_view(names@) == names_of_repos(repos).take(i as int),
            super::ui::texts_view(paths@) == paths_of_repos(repos, at).take(i as int),
        decreases status.repos@.len() - i,
    {
        let path = display_path(&status.repos[i].path, home);
        let ghost shown_path = path@;
        note(&mut names, status.repos[i].name.clone());
        note(&mut paths, path);
        assert(repos[i as int] == status.repos@[i as int]@);
        assert(names_of_repos(repos).take(i + 1) =~= names_of_repos(repos).take(i as int).push(
            status.repos@[i as int].name@,
        ));
        assert(paths_of_repos(repos, at).take(i + 1) =~= paths_of_repos(repos, at).take(
            i as int,
        ).push(shown_path));
        i = i + 1;
    }
    assert(names_of_repos(repos).take(i as int) =~= names_of_repos(repos));
    assert(paths_of_repos(repos, at).take(i as int) =~= paths_of_repos(repos, at));
    let width: usize = name_width(&names);
    let path_width: usize = name_width(&paths);
    let ghost shown = |r: RepoStatusView| repo_line(r, at, width as nat, path_width as nat);
    let mut heading = Line::blank();
    heading.add(Style::Heading, "repos:");
    let ghost head = seq![seq![super::ui::span(Style::Heading, "repos:"@)]];
    put(lines, heading);
    let mut j: usize = 0;
    assert(paths@.len() == super::ui::texts_view(paths@).len());
    assert(super::ui::lines_view(lines@) =~= start + head + repos.take(0).map_values(shown));
    while j < status.repos.len()
        invariant
            j <= status.repos@.len(),
            repos == status@.repos,
            repos.len() == status.repos@.len(),
            paths@.len() == repos.len(),
            super::ui::texts_view(paths@) == paths_of_repos(repos, at),
            shown == (|r: RepoStatusView| repo_line(r, at, width as nat, path_width as nat)),
            super::ui::lines_view(lines@) == start + head + repos.take(j as int).map_values(
                shown,
            ),
        decreases status.repos@.len() - j,
    {
        let ghost before = super::ui::lines_view(lines@);
        let cell = join3("  ", fill(status.repos[j].name.as_str(), width).as_str(), "  ");
        let mut line = Line::plain(cell.as_str());
        line.add(Style::Dim, fill(paths[j].as_str(), path_width).as_str());
        line.add(Style::Plain, "  ");
        line.extend(watch_summary(&status.repos[j].watch).spans);
        assert(repos[j as int] == status.repos@[j as int]@);
        assert(super::ui::texts_view(paths@)[j as int] == paths@[j as int]@);
        assert(line@ =~= repo_line(repos[j as int], at, width as nat, path_width as nat));
        let ghost added = line@;
        put(lines, line);
        assert(repos.take(j + 1).map_values(shown) =~= repos.take(j as int).map_values(
            shown,
        ).push(added));
        assert(start + head + repos.take(j + 1).map_values(shown) =~= before.push(added));
        j = j + 1;
    }
    assert(repos.take(j as int) =~= repos);
    assert(start + repo_lines(repos, at) =~= start + head + repos.map_values(shown));
}

fn put_available(lines: &mut Vec<Line>, status: &Status)
    ensures
        super::ui::lines_view(final(lines)@) == super::ui::lines_view(old(lines)@)
            + available_lines(status@.available),
{
    let ghost start = super::ui::lines_view(lines@);
    assert(super::ui::texts_view(status.available@) =~= status@.available);
    if status.available.len() == 0 {
        assert(start + available_lines(status@.available) =~= start);
        return;
    }
    put(lines, Line::blank());
    let list = join3("(available: ", join_texts(&status.available, ", ").as_str(), ")");
    let mut line = Line::plain("  ");
    line.add(Style::Dim, list.as_str());
    let ghost added = line@;
    put(lines, line);
    assert(added =~= available_lines(status@.available)[1]);
    assert(start + available_lines(status@.available) =~= start.push(Seq::empty()).push(added));
}

fn put_issues(lines: &mut Vec<Line>, issues: &Vec<String>)
    ensures
        super::ui::lines_view(final(lines)@) == super::ui::lines_view(old(lines)@) + issue_lines(
            super::ui::texts_view(issues@),
        ),
{
    let ghost start = super::ui::lines_view(lines@);
    let ghost all = super::ui::texts_view(issues@);
    if issues.len() == 0 {
        assert(start + issue_lines(all) =~= start);
        return;
    }
    put(lines, Line::blank());
    let mut heading = Line::blank();
    heading.add(Style::Alert, "issues:");
    put(lines, heading);
    let ghost head = seq![Seq::empty(), seq![super::ui::span(Style::Alert, "issues:"@)]];
    let ghost shown = |i: Seq<char>| seq![super::ui::span(Style::Plain, "  "@ + i)];
    let mut j: usize = 0;
    assert(super::ui::lines_view(lines@) =~= start + head + all.take(0).map_values(shown));
    while j < issues.len()
        invariant
            j <= issues@.len(),
            all == super::ui::texts_view(issues@),
            all.len() == issues@.len(),
            shown == (|i: Seq<char>| seq![super::ui::span(Style::Plain, "  "@ + i)]),
            super::ui::lines_view(lines@) == start + head + all.take(j as int).map_values(shown),
        decreases issues@.len() - j,
    {
        let ghost before = super::ui::lines_view(lines@);
        let line = Line::plain(join2("  ", issues[j].as_str()).as_str());
        let ghost added = line@;
        assert(added == shown(all[j as int]));
        put(lines, line);
        assert(all.take(j + 1).map_values(shown) =~= all.take(j as int).map_values(shown).push(
            added,
        ));
        assert(start + head + all.take(j + 1).map_values(shown) =~= before.push(added));
        j = j + 1;
    }
    assert(all.take(j as int) =~= all);
    assert(start + issue_lines(all) =~= start + head + all.map_values(shown));
}

/// The home directory by content.
pub open spec fn home_view(home: Option<FsPath>) -> Option<Seq<u8>> {
    match home {
        Some(h) => Some(h@),
        None => None,
    }
}

/// What the `status` command shows of a daemon state, given the home directory,
/// the warning this machine's jj version gives rise to, and those of the peers',
/// in the order of their reports.
pub fn render(
    status: &Status,
    home: &Option<FsPath>,
    warning: &Option<String>,
    peer_warnings: &Vec<Option<String>>,
) -> (lines: Vec<Line>)
    ensures
        super::ui::lines_view(lines@) == status_lines(
            status@,
            home_view(*home),
            crate::net::sync::text_view(*warning),
            warnings_view(peer_warnings@),
        ),
{
    let mut lines: Vec<Line> = Vec::new();
    put_daemon(&mut lines, status.uptime_secs, warning);
    put(&mut lines, Line::blank());
    put_peers(&mut lines, status);
    put(&mut lines, Line::blank());
    put_repos(&mut lines, status, home);
    put_available(&mut lines, status);
    let issues = collect_issues(status, peer_warnings);
    put_issues(&mut lines, &issues);
    assert(super::ui::lines_view(lines@) =~= status_lines(
        status@,
        home_view(*home),
        crate::net::sync::text_view(*warning),
        warnings_view(peer_warnings@),
    ));
    lines
}

/// Healthy reports stay silent: a state without conflicts and pauses, whose
/// peers report only healthy repos and nothing to warn of, has no issues.
pub proof fn healthy_meshes_are_silent(status: StatusView, warnings: Seq<Option<Seq<char>>>)
    requires
        status.conflicts.len() == 0,
        status.paused.len() == 0,
        forall|i: int| 0 <= i < warnings.len() ==> (#[trigger] warnings[i]) is None,
        forall|i: int, j: int|
            0 <= i < status.peer_reports.len() && 0 <= j
                < status.peer_reports[i].report.repos.len() ==> (
            #[trigger] status.peer_reports[i].report.repos[j]).state == RepoHealthState::Healthy,
    ensures
        issues_of(status, warnings).len() == 0,
{
    lemma_healthy_reports(status.peer_reports, warnings);
}

proof fn lemma_healthy_repos(peer: Seq<char>, repos: Seq<RepoHealthView>)
    requires
        forall|j: int|
            0 <= j < repos.len() ==> (#[trigger] repos[j]).state == RepoHealthState::Healthy,
    ensures
        repo_issues(peer, repos).len() == 0,
    decreases repos.len(),
{
    if repos.len() > 0 {
        assert(forall|j: int|
            0 <= j < repos.len() - 1 ==> #[trigger] repos.drop_last()[j] == repos[j]);
        lemma_healthy_repos(peer, repos.drop_last());
        assert(repos[repos.len() - 1] == repos.last());
    }
}

proof fn lemma_healthy_reports(reports: Seq<PeerReportView>, warnings: Seq<Option<Seq<char>>>)
    requires
        forall|i: int| 0 <= i < warnings.len() ==> (#[trigger] warnings[i]) is None,
        forall|i: int, j: int|
            0 <= i < reports.len() && 0 <= j < reports[i].report.repos.len() ==> (
            #[trigger] reports[i].report.repos[j]).state == RepoHealthState::Healthy,
    ensures
        report_issues(reports, warnings).len() == 0,
    decreases reports.len(),
{
    if reports.len() > 0 {
        let rest = reports.drop_last();
        assert(forall|i: int| 0 <= i < rest.len() ==> #[trigger] rest[i] == reports[i]);
        lemma_healthy_reports(rest, warnings);
        let last = reports.last();
        assert(reports[reports.len() - 1] == last);
        lemma_healthy_repos(last.peer, last.report.repos);
    }
}

/// Every conflict, every pause and every repo a peer reports as not healthy is
/// an issue, and so is every warning; a healthy one is none.
pub proof fn problems_become_issues(
    status: StatusView,
    warnings: Seq<Option<Seq<char>>>,
    i: int,
    j: int,
)
    ensures
        issues_of(status, warnings).len() >= status.conflicts.len() + status.paused.len(),
        0 <= i < status.peer_reports.len() && 0 <= j < status.peer_reports[i].report.repos.len()
            && status.peer_reports[i].report.repos[j].state != RepoHealthState::Healthy
            ==> issues_of(status, warnings).len() > status.conflicts.len() + status.paused.len(),
        0 <= i < status.peer_reports.len() && i < warnings.len() && warnings[i] is Some
            ==> issues_of(status, warnings).len() > status.conflicts.len() + status.paused.len(),
        problem(RepoHealthState::Healthy) is None,
        problem(RepoHealthState::Failed) is Some,
        problem(RepoHealthState::Missing) is Some,
        problem(RepoHealthState::Paused) is Some,
{
    lemma_reported(status.peer_reports, warnings, i, j);
}

proof fn lemma_reported_repos(peer: Seq<char>, repos: Seq<RepoHealthView>, j: int)
    ensures
        0 <= j < repos.len() && repos[j].state != RepoHealthState::Healthy ==> repo_issues(
            peer,
            repos,
        ).len() > 0,
    decreases repos.len(),
{
    if repos.len() > 0 {
        lemma_reported_repos(peer, repos.drop_last(), j);
        if 0 <= j < repos.len() - 1 {
            assert(repos.drop_last()[j] == repos[j]);
        }
        assert(repos[repos.len() - 1] == repos.last());
    }
}

proof fn lemma_reported(
    reports: Seq<PeerReportView>,
    warnings: Seq<Option<Seq<char>>>,
    i: int,
    j: int,
)
    ensures
        0 <= i < reports.len() && 0 <= j < reports[i].report.repos.len()
            && reports[i].report.repos[j].state != RepoHealthState::Healthy ==> report_issues(
            reports,
            warnings,
        ).len() > 0,
        0 <= i < reports.len() && i < warnings.len() && warnings[i] is Some ==> report_issues(
            reports,
            warnings,
        ).len() > 0,
    decreases reports.len(),
{
    if reports.len() > 0 {
        lemma_reported(reports.drop_last(), warnings, i, j);
        let last = reports.last();
        assert(reports[reports.len() - 1] == last);
        if 0 <= i < reports.len() - 1 {
            assert(reports.drop_last()[i] == reports[i]);
        }
        lemma_reported_repos(last.peer, last.report.repos, j);
    }
}

/// The status shows one line for each peer and repo, below a heading.
pub proof fn every_peer_and_repo_has_a_line(
    peers: Seq<PeerStatusView>,
    repos: Seq<RepoStatusView>,
    issues: Seq<Seq<char>>,
    home: Option<Seq<u8>>,
)
    ensures
        peer_lines(peers).len() == peers.len() + 1,
        repo_lines(repos, home).len() == repos.len() + 1,
        issues.len() > 0 ==> issue_lines(issues).len() == issues.len() + 2,
        issues.len() == 0 ==> issue_lines(issues).len() == 0,
{
}

} // verus!
