//! Broadcasting this machine's health.

use vstd::prelude::*;

use crate::daemon::hub::{HubView, SyncHub};
use crate::daemon::repos::{RepoSet, RepoSetView};
use crate::net::sync::{MessageView, RepoHealthView, StatusReport, StatusReportView};
use crate::order::{Duplicate, Same};
use crate::sorted_map;

verus! {

/// Coalescing window for status changes, in milliseconds: a failing repo can
/// flip states quickly, and peers only care about the latest.
pub const STATUS_DEBOUNCE: u64 = 1_000;

/// Broadcasts this machine's health to the peers, publishing only when it
/// changed: an idle mesh stays silent. A report lost with its connection is
/// replayed on reconnect.
pub struct Reporter {
    daemon_version: String,
    jj_version: Option<String>,
    published: Option<StatusReport>,
}

/// A reporter by content.
#[verifier::ext_equal]
pub struct ReporterView {
    pub daemon_version: Seq<char>,
    pub jj_version: Option<Seq<char>>,
    pub published: Option<StatusReportView>,
}

impl View for Reporter {
    type V = ReporterView;

    closed spec fn view(&self) -> ReporterView {
        ReporterView {
            daemon_version: self.daemon_version@,
            jj_version: crate::net::sync::text_view(self.jj_version),
            published: match self.published {
                Some(report) => Some(report@),
                None => None,
            },
        }
    }
}

/// The report of the current health.
pub open spec fn report_of(r: ReporterView, repos: RepoSetView, h: HubView) -> StatusReportView {
    StatusReportView {
        daemon_version: r.daemon_version,
        jj_version: r.jj_version,
        repos: sorted_map::listing::<String, crate::daemon::repos::HandleView>(
            repos.repos,
        ).map_values(
            |e: (Seq<char>, crate::daemon::repos::HandleView)|
                RepoHealthView {
                    name: e.0,
                    state: crate::daemon::repos::health_of(
                        e.1.state,
                        crate::daemon::hub::paused(h, e.0),
                    ),
                },
        ),
    }
}

/// The hub with a report published.
pub open spec fn reporting(h: HubView, report: StatusReportView) -> HubView {
    HubView {
        peers: crate::daemon::hub::broadcasted(h.peers, MessageView::Status(report)),
        status: Some(report),
        ..h
    }
}

impl Reporter {
    /// A reporter that has published nothing yet.
    pub fn new(daemon_version: String, jj_version: Option<String>) -> (reporter: Self)
        ensures
            reporter@ == (ReporterView {
                daemon_version: daemon_version@,
                jj_version: crate::net::sync::text_view(jj_version),
                published: None,
            }),
    {
        Reporter { daemon_version, jj_version, published: None }
    }

    /// Publishes the current health if it changed since the last time; tells
    /// whether it did.
    pub fn refresh(&mut self, repos: &RepoSet, hub: &mut SyncHub) -> (published: bool)
        ensures
            ({
                let report = report_of(old(self)@, repos@, old(hub)@);
                &&& published == (old(self)@.published != Some(report))
                &&& final(self)@ == ReporterView { published: Some(report), ..old(self)@ }
                &&& final(hub)@ == if published {
                    reporting(old(hub)@, report)
                } else {
                    old(hub)@
                }
            }),
    {
        let report = StatusReport {
            daemon_version: self.daemon_version.clone(),
            jj_version: match &self.jj_version {
                Some(version) => Some(version.clone()),
                None => None,
            },
            repos: repos.health(hub),
        };
        let unchanged: bool = match &self.published {
            Some(published) => published.same(&report),
            None => false,
        };
        if unchanged {
            return false;
        }
        hub.publish_status(report.duplicate());
        self.published = Some(report);
        true
    }
}

/// A health that did not change is published once: reporting it again leaves
/// the hub alone.
pub proof fn unchanged_health_is_silent(r: ReporterView, repos: RepoSetView, h: HubView)
    ensures
        ({
            let report = report_of(r, repos, h);
            let after = ReporterView { published: Some(report), ..r };
            after.published == Some(report_of(after, repos, reporting(h, report)))
        }),
{
    let report = report_of(r, repos, h);
    let after = ReporterView { published: Some(report), ..r };
    assert(report_of(after, repos, reporting(h, report)).repos =~= report.repos);
}

} // verus!
