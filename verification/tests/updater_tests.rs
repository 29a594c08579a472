use ro_control::updater::{check_for_updates, ReleaseAsset, ReleaseMeta};

fn release(tag: &str, assets: Vec<(&str, &str)>) -> ReleaseMeta {
    ReleaseMeta {
        tag_name: tag.to_string(),
        body: Some("Bug fixes and improvements".to_string()),
        assets: assets
            .into_iter()
            .map(|(name, url)| ReleaseAsset { name: name.to_string(), download_url: url.to_string() })
            .collect(),
    }
}

#[test]
fn newer_release_reports_update_with_rpm_asset() {
    let rel = release(
        "v1.2.0",
        vec![
            ("ro-control-1.2.0.tar.gz", "https://example.invalid/src.tar.gz"),
            ("ro-control-1.2.0.x86_64.rpm", "https://example.invalid/pkg.rpm"),
        ],
    );
    let info = check_for_updates(Some(&rel), "1.1.0");
    assert!(info.has_update);
    assert_eq!(info.version, "1.2.0");
    assert_eq!(info.download_url.as_deref(), Some("https://example.invalid/pkg.rpm"));
    assert_eq!(info.release_notes, "Bug fixes and improvements");
}

#[test]
fn same_or_older_release_reports_no_update() {
    let rel = release("v1.1.0", vec![]);
    let info = check_for_updates(Some(&rel), "1.1.0");
    assert!(!info.has_update);
    assert!(info.version.is_empty());
    assert!(info.download_url.is_none());

    let older = release("v1.0.9", vec![]);
    assert!(!check_for_updates(Some(&older), "1.1.0").has_update);
}

#[test]
fn failed_fetch_reports_no_update() {
    let info = check_for_updates(None, "1.1.0");
    assert!(!info.has_update);
    assert!(info.version.is_empty());
    assert!(info.download_url.is_none());
    assert!(info.release_notes.is_empty());
}

#[test]
fn update_without_rpm_asset_has_no_url() {
    let rel = release("2.0.0", vec![("source.tar.gz", "https://example.invalid/src.tar.gz")]);
    let info = check_for_updates(Some(&rel), "1.1.0");
    assert!(info.has_update);
    assert_eq!(info.version, "2.0.0");
    assert!(info.download_url.is_none());
}
