//! `config.toml`: user-tunable daemon behavior.
//!
//! Every key is optional and defaults in code, so a missing or empty file is
//! valid. Tables under `[repos.<name>]` override the global keys for one repo,
//! keyed by mesh repo name. A fully commented template documenting the defaults
//! is written on first daemon start.

use vstd::prelude::*;

use crate::sorted_map::SortedMap;

verus! {

/// Default seconds between an edit and its automatic snapshot.
pub const DEFAULT_SNAPSHOT_INTERVAL: u64 = 20;

/// Default for running `jj workspace update-stale` after syncs.
pub const DEFAULT_UPDATE_STALE: bool = true;

/// Ceiling on the snapshot interval in seconds, so arithmetic on deadlines can
/// never overflow. A day is already indistinguishable from disabled.
pub const MAX_SNAPSHOT_INTERVAL: u64 = 86400;

/// Template written to a missing `config.toml`. Every key stays commented out:
/// the file documents the defaults without freezing them.
pub const TEMPLATE: &'static str = "# jj-mesh configuration
#
# The commented values below are the default options. Restart the background
# service after updating this file. 

# Interval between automatic snapshots of the working copy, in seconds.
# Set 0 to disable auto-snapshotting.
#snapshot-interval = 20

# Update the working copy after syncing if stale.
#update-stale = true

# Configuration can be overriden per repo:
#
#[repos.example]
#snapshot-interval = 0
#update-stale = false
";

/// Contents of `config.toml`. Fields keep the "unset" state so resolution can
/// fall back per key: repo override, then global, then default.
pub struct Settings {
    pub snapshot_interval: Option<u64>,
    pub update_stale: Option<bool>,
    pub repos: SortedMap<String, RepoOverrides>,
}

/// One `[repos.<name>]` table.
#[derive(Clone, Copy, PartialEq, Eq, Structural, Debug)]
pub struct RepoOverrides {
    pub snapshot_interval: Option<u64>,
    pub update_stale: Option<bool>,
}

/// Effective settings for one repo, after override resolution.
#[derive(Clone, Copy, PartialEq, Eq, Structural, Debug)]
pub struct RepoSettings {
    /// Seconds between an edit and its snapshot; `None` disables
    /// auto-snapshotting.
    pub snapshot_interval: Option<u64>,
    /// Whether to run `jj workspace update-stale` after syncing.
    pub update_stale: bool,
}

/// Settings by content.
#[verifier::ext_equal]
pub struct SettingsView {
    pub snapshot_interval: Option<u64>,
    pub update_stale: Option<bool>,
    pub repos: Map<Seq<char>, RepoOverrides>,
}

impl View for RepoOverrides {
    type V = RepoOverrides;

    open spec fn view(&self) -> RepoOverrides {
        *self
    }
}

impl View for Settings {
    type V = SettingsView;

    open spec fn view(&self) -> SettingsView {
        SettingsView {
            snapshot_interval: self.snapshot_interval,
            update_stale: self.update_stale,
            repos: self.repos@,
        }
    }
}

/// A repo's overrides, none where it has no table.
pub open spec fn overrides_of(s: SettingsView, name: Seq<char>) -> RepoOverrides {
    if s.repos.contains_key(name) {
        s.repos[name]
    } else {
        RepoOverrides { snapshot_interval: None, update_stale: None }
    }
}

/// The first value set: the repo's, the global one, the default.
pub open spec fn first_set<T>(repo: Option<T>, global: Option<T>, default: T) -> T {
    match (repo, global) {
        (Some(value), _) => value,
        (None, Some(value)) => value,
        (None, None) => default,
    }
}

/// The settings in effect for a repo.
pub open spec fn effective(s: SettingsView, name: Seq<char>) -> RepoSettings {
    let o = overrides_of(s, name);
    let interval = first_set(
        o.snapshot_interval,
        s.snapshot_interval,
        DEFAULT_SNAPSHOT_INTERVAL,
    );
    RepoSettings {
        snapshot_interval: if interval == 0 {
            None
        } else if interval > MAX_SNAPSHOT_INTERVAL {
            Some(MAX_SNAPSHOT_INTERVAL)
        } else {
            Some(interval)
        },
        update_stale: first_set(o.update_stale, s.update_stale, DEFAULT_UPDATE_STALE),
    }
}

impl Default for Settings {
    /// Nothing set.
    fn default() -> (settings: Self)
        ensures
            settings@ == (SettingsView {
                snapshot_interval: None,
                update_stale: None,
                repos: Map::empty(),
            }),
    {
        Settings { snapshot_interval: None, update_stale: None, repos: SortedMap::new() }
    }
}

impl Settings {
    /// Resolves the effective settings for one repo.
    pub fn for_repo(&self, name: &str) -> (settings: RepoSettings)
        ensures
            settings == effective(self@, name@),
    {
        let overrides = match self.repos.get(&name.to_owned()) {
            Some(overrides) => *overrides,
            None => RepoOverrides { snapshot_interval: None, update_stale: None },
        };
        let interval: u64 = match overrides.snapshot_interval {
            Some(interval) => interval,
            None => match self.snapshot_interval {
                Some(interval) => interval,
                None => DEFAULT_SNAPSHOT_INTERVAL,
            },
        };
        let capped: u64 = if interval > MAX_SNAPSHOT_INTERVAL {
            MAX_SNAPSHOT_INTERVAL
        } else {
            interval
        };
        RepoSettings {
            snapshot_interval: if capped > 0 {
                Some(capped)
            } else {
                None
            },
            update_stale: match overrides.update_stale {
                Some(update_stale) => update_stale,
                None => match self.update_stale {
                    Some(update_stale) => update_stale,
                    None => DEFAULT_UPDATE_STALE,
                },
            },
        }
    }
}

/// An effective interval is never zero and never above the ceiling.
pub proof fn intervals_are_bounded(s: SettingsView, name: Seq<char>)
    ensures
        match effective(s, name).snapshot_interval {
            Some(interval) => 0 < interval <= MAX_SNAPSHOT_INTERVAL,
            None => true,
        },
{
}

/// What one repo's table says concerns no other repo.
pub proof fn overrides_stay_local(
    s: SettingsView,
    name: Seq<char>,
    other: Seq<char>,
    overrides: RepoOverrides,
)
    requires
        name != other,
    ensures
        effective(SettingsView { repos: s.repos.insert(name, overrides), ..s }, other)
            == effective(s, other),
{
}

/// What is set for a repo wins over what is set for all, and that over the
/// default; no interval switches snapshots off, and one over the cap is cut.
pub proof fn the_most_specific_setting_wins(s: SettingsView, name: Seq<char>)
    ensures
        ({
            let own = s.repos.contains_key(name);
            let o = s.repos[name];
            let secs = if own && o.snapshot_interval is Some {
                o.snapshot_interval->Some_0
            } else if s.snapshot_interval is Some {
                s.snapshot_interval->Some_0
            } else {
                20
            };
            let got = effective(s, name);
            &&& secs == 0 <==> got.snapshot_interval is None
            &&& 0 < secs <= 86400 ==> got.snapshot_interval->Some_0 == secs
            &&& secs > 86400 ==> got.snapshot_interval->Some_0 == 86400
            &&& own && o.update_stale is Some ==> Some(got.update_stale) == o.update_stale
            &&& !(own && o.update_stale is Some) && s.update_stale is Some ==> Some(
                got.update_stale,
            ) == s.update_stale
            &&& !(own && o.update_stale is Some) && s.update_stale is None ==> got.update_stale
        }),
{
}

} // verus!
