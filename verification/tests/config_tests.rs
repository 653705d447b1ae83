use cambi::config::{ConfigOverrides, EffectiveConfig, FileConfig, overlay_file_config};
use cambi::git::split_message;

fn env_of(pairs: &[(&str, &str)]) -> Vec<(String, String)> {
    pairs
        .iter()
        .map(|(k, v)| (k.to_string(), v.to_string()))
        .collect()
}

#[test]
fn precedence_is_flags_over_env_over_config_over_defaults() {
    let file = FileConfig {
        token: Some("file-token".to_string()),
        owner: Some("file-owner".to_string()),
        repo: Some("file-repo".to_string()),
        tag_pattern: Some("file-pattern".to_string()),
        changelog_template: Some("file-template".to_string()),
        ignore_patterns: None,
    };
    let env = env_of(&[
        ("CAMBI_TOKEN", "env-token"),
        ("CAMBI_REPO", "env-repo"),
    ]);
    let flags = ConfigOverrides {
        token: Some("flag-token".to_string()),
        owner: None,
        repo: None,
        tag_pattern: None,
        verbose: Some(true),
    };

    let effective = EffectiveConfig::from_sources(Some(file), &env, flags);
    assert_eq!(effective.token.as_deref(), Some("flag-token"));
    assert_eq!(effective.owner.as_deref(), Some("file-owner"));
    assert_eq!(effective.repo.as_deref(), Some("env-repo"));
    assert_eq!(effective.tag_pattern, "file-pattern");
    assert_eq!(effective.changelog_template.as_deref(), Some("file-template"));
    assert!(effective.verbose);
}

#[test]
fn defaults_are_applied_when_no_source_provides_values() {
    let effective =
        EffectiveConfig::from_sources(None, &Vec::new(), ConfigOverrides::default());
    assert_eq!(effective.token, None);
    assert_eq!(effective.owner, None);
    assert_eq!(effective.repo, None);
    assert_eq!(effective.tag_pattern, r"^v\d+\.\d+\.\d+$");
    assert_eq!(effective.changelog_template, None);
    assert_eq!(
        effective.ignore_patterns,
        vec![
            "^.+: fixup$".to_string(),
            "^.+: wip$".to_string(),
            "^fixup: .+$".to_string(),
            "^wip: .+$".to_string(),
            "^fixup$".to_string(),
            "^wip$".to_string(),
            "^Merge .+$".to_string(),
        ]
    );
    assert!(!effective.verbose);
}

#[test]
fn file_ignore_patterns_are_used_when_env_is_absent() {
    let file = FileConfig {
        token: None,
        owner: None,
        repo: None,
        tag_pattern: None,
        changelog_template: None,
        ignore_patterns: Some(vec!["^skip$".to_string()]),
    };
    let effective = EffectiveConfig::from_sources(Some(file), &Vec::new(), ConfigOverrides::default());
    assert_eq!(effective.ignore_patterns, vec!["^skip$".to_string()]);
}

#[test]
fn env_cambi_token_beats_gh_release_token() {
    let env = env_of(&[
        ("GH_RELEASE_TOKEN", "gh"),
        ("CAMBI_TOKEN", "cambi"),
    ]);
    let effective = EffectiveConfig::from_sources(None, &env, ConfigOverrides::default());
    assert_eq!(effective.token.as_deref(), Some("cambi"));
}

#[test]
fn ignore_patterns_empty_entries_are_trimmed() {
    let env = env_of(&[("CAMBI_IGNORE_PATTERNS", " ^wip$ ;; ^fixup$ ; ")]);
    let effective = EffectiveConfig::from_sources(None, &env, ConfigOverrides::default());
    assert_eq!(effective.ignore_patterns, vec!["^wip$".to_string(), "^fixup$".to_string()]);
}

#[test]
fn env_can_enable_verbose_without_flag() {
    let env = env_of(&[("CAMBI_VERBOSE", "true")]);
    let effective = EffectiveConfig::from_sources(None, &env, ConfigOverrides::default());
    assert!(effective.verbose);

    let env = env_of(&[("CAMBI_VERBOSE", "no")]);
    let effective = EffectiveConfig::from_sources(None, &env, ConfigOverrides::default());
    assert!(!effective.verbose);
}

#[test]
fn verbose_flag_false_overrides_true_env() {
    let env = env_of(&[("CAMBI_VERBOSE", "1")]);
    let flags = ConfigOverrides { verbose: Some(false), ..ConfigOverrides::default() };
    let effective = EffectiveConfig::from_sources(None, &env, flags);
    assert!(!effective.verbose);
}

#[test]
fn load_file_merges_global_then_local_with_local_priority() {
    let global = FileConfig {
        token: Some("global-token".to_string()),
        owner: Some("global-owner".to_string()),
        repo: None,
        tag_pattern: None,
        changelog_template: None,
        ignore_patterns: None,
    };
    let local = FileConfig {
        token: Some("local-token".to_string()),
        owner: None,
        repo: Some("local-repo".to_string()),
        tag_pattern: None,
        changelog_template: None,
        ignore_patterns: None,
    };
    let merged = overlay_file_config(global, local);
    assert_eq!(merged.token.as_deref(), Some("local-token"));
    assert_eq!(merged.owner.as_deref(), Some("global-owner"));
    assert_eq!(merged.repo.as_deref(), Some("local-repo"));
}

#[test]
fn split_message_trims_subject_and_body() {
    let (subject, body) = split_message("feat: add \n\nBody first line\nBody second line\n");
    assert_eq!(subject, "feat: add");
    assert_eq!(body, "Body first line\nBody second line");

    let (subject, body) = split_message("");
    assert_eq!(subject, "");
    assert_eq!(body, "");

    let (subject, body) = split_message("only subject");
    assert_eq!(subject, "only subject");
    assert_eq!(body, "");
}
