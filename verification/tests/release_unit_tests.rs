use cambi::release::{
    normalize_release_version, parse_github_repo_from_url, release_tag, release_title,
    render_release_body, validate_release_request,
};

#[test]
fn parse_github_repo_from_url_handles_formats() {
    assert_eq!(
        parse_github_repo_from_url("git@github.com:org/repo.git"),
        Some(("org".to_string(), "repo".to_string()))
    );
    assert_eq!(
        parse_github_repo_from_url("https://github.com/org/repo"),
        Some(("org".to_string(), "repo".to_string()))
    );
    assert_eq!(parse_github_repo_from_url("https://example.com/org/repo"), None);
}

#[test]
fn release_helpers_cover_edge_cases() {
    assert_eq!(normalize_release_version("v1.2.3"), "1.2.3");
    assert_eq!(release_tag("v1.2.3"), "v1.2.3");
    assert_eq!(release_title("v1.2.3"), "1.2.3");
    assert_eq!(render_release_body(&[]), "- No notable changes.");
}

#[test]
fn render_release_body_lists_subjects() {
    let subjects = vec!["feat: a".to_string(), "fix: b".to_string()];
    assert_eq!(render_release_body(subjects.as_slice()), "- feat: a\n- fix: b");
}

#[test]
fn release_rejects_target_with_rebuild_at_runtime() {
    let error = validate_release_request(Some("1.2.3"), true, false).expect_err("must fail");
    assert!(error.contains("Cannot combine --rebuild with an explicit release target"));
}

#[test]
fn release_rejects_prerelease_without_target_at_runtime() {
    let error = validate_release_request(None, false, true).expect_err("must fail");
    assert!(error.contains("--prerelease requires an explicit positional release target"));
}

#[test]
fn parse_github_repo_from_url_handles_trailing_slash_and_dotted_owner() {
    assert_eq!(
        parse_github_repo_from_url("https://github.com/some.org/repo/"),
        Some(("some.org".to_string(), "repo".to_string()))
    );
    assert_eq!(parse_github_repo_from_url("https://github.com/org/re.po"), None);
    assert_eq!(parse_github_repo_from_url("github.com//repo"), None);
}
