use cambi::changelog::TagWindow;
use cambi::filters::CommitFilter;
use cambi::git::GitCommit;
use cambi::release::{
    build_release_candidates, detect_owner_repo, resolve_owner_repo, resolve_token,
    select_target_candidates, validate_release_request,
};

fn commit(subject: &str, time: i64) -> GitCommit {
    GitCommit { subject: subject.to_string(), body: String::new(), time }
}

#[test]
fn candidates_follow_tag_windows() {
    let windows = vec![
        TagWindow {
            tag_name: "0.1.0".to_string(),
            tag_time: 5,
            commits: vec![commit("feat: first", 4), commit("chore: skip me", 3)],
        },
        TagWindow { tag_name: "v0.2.0".to_string(), tag_time: 9, commits: vec![] },
    ];
    let filter = CommitFilter::new(&[]).expect("filter");
    let candidates = build_release_candidates(&windows, &filter);
    assert_eq!(candidates.len(), 2);
    assert_eq!(candidates[0].tag_name, "v0.1.0");
    assert_eq!(candidates[0].title, "0.1.0");
    assert_eq!(candidates[0].body, "- feat: first");
    assert_eq!(candidates[1].tag_name, "v0.2.0");
    assert_eq!(candidates[1].body, "- No notable changes.");
}

#[test]
fn selection_takes_the_newest_unless_rebuilding() {
    let filter = CommitFilter::new(&[]).expect("filter");
    let windows = vec![
        TagWindow { tag_name: "v0.1.0".to_string(), tag_time: 1, commits: vec![] },
        TagWindow { tag_name: "v0.2.0".to_string(), tag_time: 2, commits: vec![] },
    ];
    let candidates = build_release_candidates(&windows, &filter);

    let all = select_target_candidates(candidates, true).expect("rebuild keeps all");
    assert_eq!(all.len(), 2);

    let latest = select_target_candidates(all, false).expect("latest only");
    assert_eq!(latest.len(), 1);
    assert_eq!(latest[0].tag_name, "v0.2.0");

    let none = select_target_candidates(Vec::new(), false).expect_err("empty set");
    assert_eq!(none, "No release candidates produced from git tags");
}

#[test]
fn owner_repo_and_token_resolution() {
    let pair = resolve_owner_repo(Some("o".to_string()), Some("r".to_string()), None).expect("pair");
    assert_eq!(pair, ("o".to_string(), "r".to_string()));

    let detected = resolve_owner_repo(None, None, Some(("a".to_string(), "b".to_string())))
        .expect("detected");
    assert_eq!(detected, ("a".to_string(), "b".to_string()));

    let missing = resolve_owner_repo(None, None, None).expect_err("must fail");
    assert!(missing.contains("Cannot determine GitHub owner/repo"));

    assert_eq!(resolve_token(Some("t".to_string())).expect("token"), "t");
    assert!(resolve_token(None).expect_err("must fail").contains("Missing GitHub token"));
}

#[test]
fn owner_repo_detection_reads_both_manifests() {
    let cargo = "[package]\nname = \"demo\"\nrepository = \"https://github.com/org/from-cargo\"\n";
    assert_eq!(
        detect_owner_repo(Some(cargo), None),
        Some(("org".to_string(), "from-cargo".to_string()))
    );

    let package_json = "{\n  \"repository\": \"git@github.com:org/from-json.git\"\n}\n";
    assert_eq!(
        detect_owner_repo(None, Some(package_json)),
        Some(("org".to_string(), "from-json".to_string()))
    );

    let object_form = "{\n  \"repository\": { \"url\": \"https://github.com/org/from-object\" }\n}\n";
    assert_eq!(
        detect_owner_repo(None, Some(object_form)),
        Some(("org".to_string(), "from-object".to_string()))
    );

    assert_eq!(detect_owner_repo(Some("no repository line\n"), None), None);
}

#[test]
fn validation_accepts_consistent_requests() {
    assert!(validate_release_request(None, false, false).is_ok());
    assert!(validate_release_request(Some("1.2.3"), false, true).is_ok());
    assert!(validate_release_request(None, true, false).is_ok());
}
