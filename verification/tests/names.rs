//! Names and messages shown to the user, and repo ids read from the outside.

use jj_mesh::cli::ui;
use jj_mesh::config::name::{
    MAX_NAME_LEN, MAX_SANITIZED_LEN, NameFault, is_confusable, sanitize, sanitize_bounded,
    validate_name,
};
use jj_mesh::config::state::repo::{REPO_ID_LEN, RepoId};

#[test]
fn sanitize_replaces_escape_sequences() {
    assert_eq!(sanitize("plain text"), "plain text");
    assert_eq!(sanitize("a\x1b[2Kb\r\nc"), "a?[2Kb??c");
}

#[test]
fn sanitize_masks_escape_sequences() {
    assert_eq!(sanitize("plain text"), "plain text");
    assert_eq!(sanitize("a\x1b[2Kb\r\nc"), "a?[2Kb??c");
    assert_eq!(sanitize("admin\u{200B}istrator"), "admin?istrator");
}

#[test]
fn sanitize_bounded_marks_the_cut() {
    let long = "x".repeat(MAX_SANITIZED_LEN + 10);
    let cut = sanitize_bounded(&long);
    assert_eq!(cut.chars().count(), MAX_SANITIZED_LEN + 1);
    assert!(cut.ends_with('…'));
    assert_eq!(sanitize_bounded("short"), "short");
}

#[test]
fn names_are_bounded_and_plain() {
    assert!(validate_name("repo", "proj").is_ok());
    assert!(validate_name("repo", &"x".repeat(MAX_NAME_LEN)).is_ok());
    assert_eq!(validate_name("repo", "").unwrap_err().fault, NameFault::Empty);
    assert_eq!(
        validate_name("repo", &"x".repeat(MAX_NAME_LEN + 1)).unwrap_err().fault,
        NameFault::TooLong,
    );
    let err = validate_name("repo", "a\u{202E}b").unwrap_err();
    assert_eq!(err.fault, NameFault::Confusable);
    assert_eq!(err.message(), "repo name contains control or invisible characters");
    assert!(is_confusable('\u{FEFF}'));
    assert!(!is_confusable('é'));
}

/// Reads a repo id the way it arrives from another machine.
fn received(bytes: &[u8]) -> Result<RepoId, String> {
    let text: String = postcard::from_bytes(bytes).unwrap();
    RepoId::try_from(text)
}

fn check_repo_ids() {
    let ok = postcard::to_stdvec(RepoId::generate().as_str()).unwrap();
    assert!(received(&ok).is_ok());

    for bad in ["", "short", &"a".repeat(33), &"Z".repeat(32), "e\x1b[2K\n"] {
        let bytes = postcard::to_stdvec(&bad).unwrap();
        assert!(received(&bytes).is_err(), "{bad:?} must be rejected");
    }
}

#[test]
fn state_repo_id_rejects_non_generated_forms() {
    check_repo_ids();
}

#[test]
fn repo_repo_id_rejects_non_generated_forms() {
    check_repo_ids();
}

#[test]
fn repo_ids_are_random_hex() {
    let (a, b) = (RepoId::generate(), RepoId::generate());
    assert_ne!(a, b);
    assert_eq!(a.as_str().len(), REPO_ID_LEN);
    assert!(a.as_str().chars().all(|c| c.is_ascii_hexdigit() && !c.is_ascii_uppercase()));
    assert_eq!(RepoId::try_from(a.as_str().to_owned()), Ok(a));
}

#[test]
fn durations_are_compact() {
    assert_eq!(ui::format_duration(0), "0s");
    assert_eq!(ui::format_duration(43), "43s");
    assert_eq!(ui::format_duration(60), "1m 0s");
    assert_eq!(ui::format_duration(723), "12m 3s");
    assert_eq!(ui::format_duration(7440), "2h 4m");
    assert_eq!(ui::format_duration(86400), "1d 0h");
    assert_eq!(ui::format_duration(90061), "1d 1h");
    assert_eq!(ui::format_duration(u64::MAX), "213503982334601d 7h");
}
