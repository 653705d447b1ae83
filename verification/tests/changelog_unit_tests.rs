use cambi::changelog::{bump_version, collect_releasable_commits, normalize_tag_version};
use cambi::conventional::BumpLevel;
use cambi::filters::CommitFilter;
use cambi::git::GitCommit;
use cambi::version::{Version, format_version};

#[test]
fn normalize_tag_version_handles_prefixed_and_invalid() {
    assert_eq!(
        format_version(&normalize_tag_version("v1.2.3").expect("parse")),
        "1.2.3"
    );
    assert_eq!(
        format_version(&normalize_tag_version("1.2.3").expect("parse")),
        "1.2.3"
    );
    assert!(normalize_tag_version("not-semver").is_none());
}

#[test]
fn bump_version_covers_all_levels() {
    assert_eq!(
        format_version(&bump_version(Some(Version::new(1, 2, 3)), BumpLevel::Patch)),
        "1.2.4"
    );
    assert_eq!(
        format_version(&bump_version(Some(Version::new(1, 2, 3)), BumpLevel::Minor)),
        "1.3.0"
    );
    assert_eq!(
        format_version(&bump_version(Some(Version::new(1, 2, 3)), BumpLevel::Major)),
        "2.0.0"
    );
    assert_eq!(format_version(&bump_version(None, BumpLevel::Patch)), "0.0.1");
}

#[test]
fn collect_releasable_commits_filters_chore_and_ignored() {
    let commits = vec![
        GitCommit {
            subject: "feat: add".to_string(),
            body: "".to_string(),
            time: 1,
        },
        GitCommit {
            subject: "chore: clean".to_string(),
            body: "".to_string(),
            time: 2,
        },
        GitCommit {
            subject: "wip: temp".to_string(),
            body: "".to_string(),
            time: 3,
        },
    ];

    let filter = CommitFilter::new(&["^wip: .+$".to_string()]).expect("regex");
    let kept = collect_releasable_commits(commits, &filter);
    assert_eq!(kept.len(), 1);
    assert_eq!(kept[0].subject, "feat: add");
}

#[test]
fn prerelease_and_build_text_survive_a_bump() {
    let current = normalize_tag_version("v1.2.3-rc.1+build5").expect("parse");
    assert_eq!(current.pre, "rc.1");
    assert_eq!(current.build, "build5");
    let next = bump_version(Some(current), BumpLevel::Minor);
    assert_eq!(format_version(&next), "1.3.0-rc.1+build5");
}
