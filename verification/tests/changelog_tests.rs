use cambi::changelog::extract_versions;

#[test]
fn extracts_versions_from_default_headers() {
    let markdown = "### 2026-02-22 / 1.2.3\n\n- feat: x\n\n### 2026-02-21 / 1.2.2\n\n- fix: y\n";
    let versions = extract_versions(markdown);
    assert!(versions.contains(&"1.2.3".to_string()));
    assert!(versions.contains(&"1.2.2".to_string()));
}

#[test]
fn extract_versions_reports_each_version_once() {
    let markdown = "### 2026-02-22 / 1.2.3\n\n- feat: x\n\n### 2026-02-21 / 1.2.3\n\n- fix: y\n";
    assert_eq!(extract_versions(markdown), vec!["1.2.3".to_string()]);
}

#[test]
fn extract_versions_accepts_leading_zero_versions() {
    let markdown = "### 2026-02-22 / 01.2.3\n";
    assert_eq!(extract_versions(markdown), vec!["01.2.3".to_string()]);
}

#[test]
fn extract_versions_rejects_malformed_headings() {
    let markdown = "### 2026-2-22 / 1.2.3\n## 2026-02-22 / 1.2.3\n### 2026-02-22 / 1.2\n### 2026-02-22 / 1.2.3.4\n";
    assert!(extract_versions(markdown).is_empty());

    let spaced = "###   2026-02-22   /   7.8.9   \n";
    assert_eq!(extract_versions(spaced), vec!["7.8.9".to_string()]);
}
