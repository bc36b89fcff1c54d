//! `config.toml`: overrides, defaults and the template.

use jj_mesh::config::settings::{
    DEFAULT_SNAPSHOT_INTERVAL, MAX_SNAPSHOT_INTERVAL, RepoOverrides, Settings, TEMPLATE,
};

fn overrides(table: &toml::Table) -> RepoOverrides {
    RepoOverrides {
        snapshot_interval: table
            .get("snapshot-interval")
            .map(|v| v.as_integer().unwrap() as u64),
        update_stale: table.get("update-stale").map(|v| v.as_bool().unwrap()),
    }
}

fn parse(text: &str) -> Settings {
    let table: toml::Table = toml::from_str(text).unwrap();
    let global = overrides(&table);
    let mut settings = Settings::default();
    settings.snapshot_interval = global.snapshot_interval;
    settings.update_stale = global.update_stale;
    if let Some(repos) = table.get("repos") {
        for (name, repo) in repos.as_table().unwrap() {
            settings.repos.insert(name.clone(), overrides(repo.as_table().unwrap()));
        }
    }
    settings
}

fn is_default(settings: &Settings) -> bool {
    settings.snapshot_interval.is_none()
        && settings.update_stale.is_none()
        && settings.repos.is_empty()
}

#[test]
fn empty_file_yields_defaults() {
    let settings = parse("");
    let repo = settings.for_repo("any");
    assert_eq!(repo.snapshot_interval, Some(DEFAULT_SNAPSHOT_INTERVAL));
    assert!(repo.update_stale);
}

#[test]
fn per_repo_overrides_global_overrides_default() {
    let settings = parse(
        "snapshot-interval = 60\n\
         [repos.quiet]\n\
         snapshot-interval = 0\n\
         update-stale = false\n",
    );

    let global = settings.for_repo("other");
    assert_eq!(global.snapshot_interval, Some(60));
    assert!(global.update_stale);

    let quiet = settings.for_repo("quiet");
    assert_eq!(quiet.snapshot_interval, None);
    assert!(!quiet.update_stale);
}

#[test]
fn oversized_interval_is_clamped() {
    let mut settings = Settings::default();
    settings.snapshot_interval = Some(u64::MAX);
    assert_eq!(settings.for_repo("any").snapshot_interval, Some(MAX_SNAPSHOT_INTERVAL));
}

/// The template must parse as-is (all comments, so all defaults), and its
/// commented-out keys must parse once uncommented.
#[test]
fn template_matches_schema() {
    assert!(is_default(&parse(TEMPLATE)));

    let mut uncommented = String::new();
    for line in TEMPLATE.lines() {
        let key = line
            .strip_prefix('#')
            .filter(|rest| !rest.is_empty() && !rest.starts_with([' ', '#']));
        uncommented.push_str(key.unwrap_or(line));
        uncommented.push('\n');
    }
    let settings = parse(&uncommented);
    assert!(!is_default(&settings));
    assert_eq!(settings.for_repo("example").snapshot_interval, None);
    assert!(!settings.for_repo("example").update_stale);
}
