use cambi::changelog::{ChangelogOutcome, TagWindow, compose_changelog_update, compose_rebuild_document};
use cambi::filters::CommitFilter;
use cambi::git::GitCommit;
use cambi::version::Version;

fn commit(subject: &str, time: i64) -> GitCommit {
    GitCommit { subject: subject.to_string(), body: String::new(), time }
}

fn empty_filter() -> CommitFilter {
    CommitFilter::new(&[]).expect("empty pattern list")
}

#[test]
fn feat_commit_after_a_tag_yields_the_next_minor_section() {
    // One feat commit on top of v0.1.0 publishes 0.2.0 with one bullet.
    let outcome = compose_changelog_update(
        "",
        vec![commit("feat: add output", 0)],
        &empty_filter(),
        Some(Version::new(0, 1, 0)),
        None,
        None,
    )
    .expect("compose");

    match outcome {
        ChangelogOutcome::Updated { document, version } => {
            assert_eq!(version, "0.2.0");
            assert_eq!(document, "### 1970-01-01 / 0.2.0\n\n- feat: add output\n");
        }
        _ => panic!("expected an update"),
    }
}

#[test]
fn composing_is_idempotent_over_its_own_output() {
    let first = compose_changelog_update(
        "",
        vec![commit("feat: add output", 0)],
        &empty_filter(),
        Some(Version::new(0, 1, 0)),
        None,
        None,
    )
    .expect("compose");

    let document = match first {
        ChangelogOutcome::Updated { document, .. } => document,
        _ => panic!("expected an update"),
    };

    let second = compose_changelog_update(
        document.as_str(),
        vec![commit("feat: add output", 0)],
        &empty_filter(),
        Some(Version::new(0, 1, 0)),
        None,
        None,
    )
    .expect("compose");

    match second {
        ChangelogOutcome::VersionAlreadyPresent(v) => assert_eq!(v, "0.2.0"),
        _ => panic!("expected an idempotent skip"),
    }

    // Byte-identical output on identical input.
    let again = compose_changelog_update(
        "",
        vec![commit("feat: add output", 0)],
        &empty_filter(),
        Some(Version::new(0, 1, 0)),
        None,
        None,
    )
    .expect("compose");
    match again {
        ChangelogOutcome::Updated { document: document2, .. } => assert_eq!(document2, document),
        _ => panic!("expected an update"),
    }
}

#[test]
fn no_releasable_commits_leave_the_document_alone() {
    let outcome = compose_changelog_update(
        "old",
        vec![commit("chore: cleanup", 1)],
        &empty_filter(),
        None,
        None,
        None,
    )
    .expect("compose");
    assert!(matches!(outcome, ChangelogOutcome::NoReleasableCommits));
}

#[test]
fn invalid_target_is_rejected_with_its_text() {
    let error = compose_changelog_update(
        "",
        vec![commit("feat: add output", 0)],
        &empty_filter(),
        None,
        Some("not-a-version"),
        None,
    )
    .expect_err("must fail");
    assert_eq!(error, "Invalid changelog target version 'not-a-version'");
}

#[test]
fn explicit_target_overrides_the_detected_bump() {
    let outcome = compose_changelog_update(
        "",
        vec![commit("feat: add output", 0)],
        &empty_filter(),
        Some(Version::new(0, 1, 0)),
        Some("major"),
        None,
    )
    .expect("compose");
    match outcome {
        ChangelogOutcome::Updated { version, .. } => assert_eq!(version, "1.0.0"),
        _ => panic!("expected an update"),
    }

    let exact = compose_changelog_update(
        "",
        vec![commit("feat: add output", 0)],
        &empty_filter(),
        Some(Version::new(0, 1, 0)),
        Some("v3.4.5"),
        None,
    )
    .expect("compose");
    match exact {
        ChangelogOutcome::Updated { version, .. } => assert_eq!(version, "3.4.5"),
        _ => panic!("expected an update"),
    }
}

#[test]
fn rebuild_renders_every_window_newest_first() {
    let windows = vec![
        TagWindow {
            tag_name: "v0.1.0".to_string(),
            tag_time: 5,
            commits: vec![commit("feat: first", 4)],
        },
        TagWindow {
            tag_name: "v0.2.0".to_string(),
            tag_time: 9,
            commits: vec![commit("fix: second", 8)],
        },
    ];
    let document = compose_rebuild_document(
        &windows,
        vec![commit("feat: pending", 12)],
        Some(Version::new(0, 2, 0)),
        &empty_filter(),
        None,
    );
    assert_eq!(
        document,
        "### 1970-01-01 / 0.3.0\n\n- feat: pending\n\n### 1970-01-01 / 0.2.0\n\n- fix: second\n\n### 1970-01-01 / 0.1.0\n\n- feat: first\n"
    );
}

#[test]
fn section_date_comes_from_the_most_recent_commit() {
    // The breaking commit sorts first, but the date follows the newest
    // commit of the window: 200000 seconds after the epoch is two days in.
    let outcome = compose_changelog_update(
        "",
        vec![commit("refactor!: rework", 0), commit("fix: later", 200000)],
        &empty_filter(),
        Some(Version::new(0, 1, 0)),
        None,
        None,
    )
    .expect("compose");
    match outcome {
        ChangelogOutcome::Updated { document, version } => {
            assert_eq!(version, "1.0.0");
            assert_eq!(
                document,
                "### 1970-01-03 / 1.0.0\n\n- refactor!: rework\n- fix: later\n"
            );
        }
        _ => panic!("expected an update"),
    }
}

#[test]
fn rebuild_with_nothing_to_render_is_empty() {
    let document = compose_rebuild_document(&Vec::new(), Vec::new(), None, &empty_filter(), None);
    assert_eq!(document, "");
}
