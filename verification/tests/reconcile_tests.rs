use cambi::release::{ExistingRelease, PlanKind, ReleaseCandidate, plan_deletions, plan_upsert};

fn existing(id: u64, tag: &str, name: &str, body: &str) -> ExistingRelease {
    ExistingRelease {
        id,
        tag_name: tag.to_string(),
        name: Some(name.to_string()),
        body: Some(body.to_string()),
    }
}

fn candidate(tag: &str, title: &str, body: &str) -> ReleaseCandidate {
    ReleaseCandidate {
        tag_name: tag.to_string(),
        title: title.to_string(),
        body: body.to_string(),
    }
}

#[test]
fn identical_desired_and_existing_sets_plan_no_calls() {
    let remote = vec![
        existing(1, "v0.1.0", "0.1.0", "- feat: a"),
        existing(2, "v0.2.0", "0.2.0", "- fix: b"),
    ];
    let desired = vec![
        candidate("v0.1.0", "0.1.0", "- feat: a"),
        candidate("v0.2.0", "0.2.0", "- fix: b"),
    ];

    let kept_tags: Vec<String> = desired.iter().map(|c| c.tag_name.clone()).collect();
    assert!(plan_deletions(&remote, &kept_tags).is_empty());

    for c in &desired {
        let (kind, payload) = plan_upsert(&remote, c, false);
        assert!(matches!(kind, PlanKind::Skip));
        assert_eq!(payload.tag_name, c.tag_name);
    }
}

#[test]
fn rebuild_deletes_unmatched_and_creates_missing() {
    // Existing releases v0.1.0 and v9.9.9, desired v0.1.0 and v0.2.0: the
    // plan deletes v9.9.9, keeps v0.1.0 untouched, and creates v0.2.0.
    let remote = vec![
        existing(10, "v0.1.0", "0.1.0", "- feat: a"),
        existing(99, "v9.9.9", "9.9.9", "- old"),
    ];
    let desired = vec![
        candidate("v0.1.0", "0.1.0", "- feat: a"),
        candidate("v0.2.0", "0.2.0", "- feat: b"),
    ];

    let kept_tags: Vec<String> = desired.iter().map(|c| c.tag_name.clone()).collect();
    let deletions = plan_deletions(&remote, &kept_tags);
    assert_eq!(deletions, vec![99]);

    // The re-read after the delete no longer lists v9.9.9.
    let fresh = vec![existing(10, "v0.1.0", "0.1.0", "- feat: a")];
    let (kind_kept, _) = plan_upsert(&fresh, &desired[0], false);
    assert!(matches!(kind_kept, PlanKind::Skip));
    let (kind_new, payload) = plan_upsert(&fresh, &desired[1], false);
    assert!(matches!(kind_new, PlanKind::Create));
    assert_eq!(payload.tag_name, "v0.2.0");
    assert_eq!(payload.name, "0.2.0");
    assert!(!payload.draft);
    assert!(!payload.prerelease);
}

#[test]
fn differing_body_plans_an_update_in_place() {
    let remote = vec![existing(7, "v0.3.0", "0.3.0", "- stale")];
    let c = candidate("v0.3.0", "0.3.0", "- fresh");
    let (kind, payload) = plan_upsert(&remote, &c, true);
    match kind {
        PlanKind::Update(id) => assert_eq!(id, 7),
        _ => panic!("expected an update"),
    }
    assert!(payload.prerelease);
}

#[test]
fn missing_name_or_body_counts_as_different() {
    let remote = vec![ExistingRelease {
        id: 3,
        tag_name: "v0.4.0".to_string(),
        name: None,
        body: Some("- same".to_string()),
    }];
    let c = candidate("v0.4.0", "0.4.0", "- same");
    let (kind, _) = plan_upsert(&remote, &c, false);
    assert!(matches!(kind, PlanKind::Update(3)));
}
