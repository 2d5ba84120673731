use mhmot::{is_newer_version, update_info, GitHubRelease};

#[test]
fn test_version_comparison() {
    assert!(is_newer_version("1.0.0", "1.0.1"));
    assert!(is_newer_version("1.0.0", "1.1.0"));
    assert!(is_newer_version("1.0.0", "2.0.0"));
    assert!(!is_newer_version("1.0.1", "1.0.0"));
    assert!(!is_newer_version("1.0.0", "1.0.0"));
    assert!(!is_newer_version("2.0.0", "1.9.9"));
}

#[test]
fn version_missing_components_count_as_zero() {
    assert!(!is_newer_version("1.0", "1.0.0"));
    assert!(is_newer_version("1", "1.0.1"));
    assert!(!is_newer_version("", ""));
    assert!(is_newer_version("", "0.0.1"));
}

#[test]
fn version_skips_pieces_that_are_not_numbers() {
    // "1.x.0" reads as 1.0, so 1.0.1 is newer.
    assert!(is_newer_version("1.x.0", "1.0.1"));
    // A leading plus sign is accepted, a minus sign is not.
    assert!(!is_newer_version("+1.0.0", "1.0.0"));
    assert!(is_newer_version("-1.0.0", "0.1.0"));
    // A component too large for u32 is skipped.
    assert!(is_newer_version("4294967296.1", "1.1"));
    assert!(is_newer_version("4294967295.0", "4294967295.1"));
}

#[test]
fn version_compares_only_three_components() {
    assert!(!is_newer_version("1.0.0.1", "1.0.0.9"));
}

#[test]
fn update_info_strips_leading_v_and_defaults_notes() {
    let release = GitHubRelease {
        tag_name: "vv2.0.0".to_string(),
        name: "Release".to_string(),
        html_url: "https://example.invalid/release".to_string(),
        published_at: "2025-01-01T00:00:00Z".to_string(),
        body: None,
    };
    let info = update_info("1.0.0", release);
    assert!(info.available);
    assert_eq!(info.current_version, "1.0.0");
    assert_eq!(info.latest_version, "2.0.0");
    assert_eq!(info.download_url, "https://example.invalid/release");
    assert_eq!(info.release_notes, "Geen release notes beschikbaar.");
}

#[test]
fn update_info_keeps_release_notes() {
    let release = GitHubRelease {
        tag_name: "1.0.0".to_string(),
        name: "Release".to_string(),
        html_url: "u".to_string(),
        published_at: "p".to_string(),
        body: Some("notes".to_string()),
    };
    let info = update_info("1.0.0", release);
    assert!(!info.available);
    assert_eq!(info.latest_version, "1.0.0");
    assert_eq!(info.release_notes, "notes");
}
