use ro_control::catalog::{
    get_available_nvidia_versions, get_official_nvidia_versions_with_changes,
    parse_changelog_notes,
};

#[test]
fn no_matches_returns_fixed_fallback() {
    let r = get_available_nvidia_versions(Some("Last metadata expiration check\nError: No matching Packages to list"));
    assert!(r.is_fallback);
    assert_eq!(r.versions, vec!["565", "550", "535"]);
}

#[test]
fn missing_listing_returns_fixed_fallback() {
    let r = get_available_nvidia_versions(None);
    assert!(r.is_fallback);
    assert_eq!(r.versions, vec!["565", "550", "535"]);
}

#[test]
fn versions_extracted_sorted_and_deduplicated() {
    let listing = "Available Packages\n\
                   akmod-nvidia.x86_64            550.90.07-1.fc40    rpmfusion-nonfree\n\
                   akmod-nvidia.x86_64            565.57.01-1.fc40    rpmfusion-nonfree-updates\n\
                   akmod-nvidia-open.x86_64       565.57.01-2.fc40    rpmfusion-nonfree\n\
                   akmod-nvidia.x86_64            535.183.01-1.fc40   rpmfusion-nonfree\n";
    let r = get_available_nvidia_versions(Some(listing));
    assert!(!r.is_fallback);
    assert_eq!(r.versions, vec!["565.57.01", "550.90.07", "535.183.01"]);
}

#[test]
fn changelog_entries_mined_with_two_line_summaries() {
    let changelog = "* Thu Oct 17 Leigh Scott - 3:565.57.01-1\n\
                     - Update to 565.57.01 release\n\
                     - Rebuild for new kernel\n\
                     - This third line is dropped\n\
                     \n\
                     * Tue Sep 03 Leigh Scott - 3:550.90.07-1\n\
                     - Update to 550.90.07\n";
    let notes = parse_changelog_notes(changelog);
    assert_eq!(notes.len(), 2);
    assert_eq!(notes[0].0, "565.57.01");
    assert_eq!(notes[0].1, "Update to 565.57.01 release Rebuild for new kernel");
    assert_eq!(notes[1].0, "550.90.07");
    assert_eq!(notes[1].1, "Update to 550.90.07");
}

#[test]
fn official_versions_correlated_by_prefix() {
    let listing = "akmod-nvidia.x86_64  565.57.01-1.fc40\nakmod-nvidia.x86_64  550.90.07-1.fc40\n";
    let changelog = "* Thu Oct 17 - 3:565.57.01-1\n\
                     - Update to 565.57.01 release\n\
                     * Tue Sep 03 - 3:550.90.07-1\n\
                     - Update to 550.90.07\n";
    let entries = get_official_nvidia_versions_with_changes(Some(listing), Some(changelog));
    assert_eq!(entries.len(), 2);
    assert_eq!(entries[0].version, "565.57.01");
    assert_eq!(entries[0].changelog_summary, "Update to 565.57.01 release");
    assert_eq!(entries[1].version, "550.90.07");
    assert_eq!(entries[1].changelog_summary, "Update to 550.90.07");
}

#[test]
fn unmatched_versions_get_static_summary() {
    let listing = "akmod-nvidia.x86_64  565.57.01-1.fc40\n";
    let entries = get_official_nvidia_versions_with_changes(Some(listing), None);
    assert_eq!(entries.len(), 1);
    assert_eq!(
        entries[0].changelog_summary,
        "Official repository metadata checked. Detailed notes unavailable."
    );
}

#[test]
fn fallback_versions_flow_into_official_list() {
    let entries = get_official_nvidia_versions_with_changes(None, None);
    assert_eq!(entries.len(), 3);
    assert_eq!(entries[0].version, "565");
    assert_eq!(entries[1].version, "550");
    assert_eq!(entries[2].version, "535");
}

#[test]
fn three_digit_code_matches_changelog_key() {
    // The changelog entry only carries a bare 3-digit code; the catalog
    // version prefix-matches it.
    let listing = "akmod-nvidia.x86_64  565.57.01-1.fc40\n";
    let changelog = "* Thu Oct 17 driver 565 rollout\n- New feature drop\n";
    let entries = get_official_nvidia_versions_with_changes(Some(listing), Some(changelog));
    assert_eq!(entries.len(), 1);
    assert_eq!(entries[0].changelog_summary, "New feature drop");
}
