use cambi::conventional::BumpLevel;
use cambi::git::GitTag;
use cambi::manifests::{
    update_cargo_toml_version, update_gemspec_version, update_mix_exs_version,
    update_package_json_version, update_package_swift_version, update_plain_version_file,
    update_pubspec_yaml_version, update_pyproject_toml_version,
};
use cambi::version::{UpdateTarget, Version, derive_tag_name, latest_tag_version, format_version, normalize_semver, parse_update_target};

#[test]
fn cargo_toml_version_is_bumped_in_place() {
    let content = "[package]\nname = \"demo\"\nversion = \"1.2.3\"\n\n[dependencies]\nserde = \"1\"\n";
    let (doc, version) =
        update_cargo_toml_version(content, &UpdateTarget::Bump(BumpLevel::Major), "Cargo.toml")
            .expect("update");
    assert_eq!(version, "2.0.0");
    assert!(doc.contains("version = \"2.0.0\""));
    assert!(doc.contains("serde = \"1\""));
}

#[test]
fn cargo_toml_errors_name_the_problem() {
    let invalid = update_cargo_toml_version("not [ toml", &UpdateTarget::Bump(BumpLevel::Patch), "Cargo.toml");
    assert_eq!(invalid.expect_err("must fail"), "Invalid TOML in Cargo.toml");

    let missing = update_cargo_toml_version("[lib]\nname = \"x\"\n", &UpdateTarget::Bump(BumpLevel::Patch), "Cargo.toml");
    assert_eq!(missing.expect_err("must fail"), "No [package] section found in Cargo.toml");

    let field = update_cargo_toml_version("[package]\nname = \"x\"\n", &UpdateTarget::Bump(BumpLevel::Patch), "Cargo.toml");
    assert_eq!(field.expect_err("must fail"), "No package version found in Cargo.toml");
}

#[test]
fn package_json_version_is_bumped() {
    let content = "{\n  \"name\": \"demo\",\n  \"version\": \"0.1.0\"\n}\n";
    let (doc, version) =
        update_package_json_version(content, &UpdateTarget::Bump(BumpLevel::Minor), "package.json")
            .expect("update");
    assert_eq!(version, "0.2.0");
    assert!(doc.contains("\"version\": \"0.2.0\""));
    assert!(doc.ends_with('\n'));
}

#[test]
fn pyproject_supports_project_and_poetry_tables() {
    let project = "[project]\nname = \"demo\"\nversion = \"0.1.0\"\n";
    let (doc, version) =
        update_pyproject_toml_version(project, &UpdateTarget::Bump(BumpLevel::Patch), "pyproject.toml")
            .expect("update");
    assert_eq!(version, "0.1.1");
    assert!(doc.contains("version = \"0.1.1\""));

    let poetry = "[tool.poetry]\nname = \"demo\"\nversion = \"2.0.0\"\n";
    let (doc, version) =
        update_pyproject_toml_version(poetry, &UpdateTarget::Bump(BumpLevel::Major), "pyproject.toml")
            .expect("update");
    assert_eq!(version, "3.0.0");
    assert!(doc.contains("version = \"3.0.0\""));

    let neither = update_pyproject_toml_version("[build-system]\nrequires = []\n", &UpdateTarget::Bump(BumpLevel::Patch), "pyproject.toml");
    assert!(neither.expect_err("must fail").contains("No supported version field"));
}

#[test]
fn pubspec_yaml_version_is_bumped() {
    let content = "name: demo\nversion: 1.0.0\n";
    let (doc, version) =
        update_pubspec_yaml_version(content, &UpdateTarget::Bump(BumpLevel::Minor), "pubspec.yaml")
            .expect("update");
    assert_eq!(version, "1.1.0");
    assert!(doc.contains("1.1.0"));
}

#[test]
fn gemspec_version_line_is_rewritten() {
    let content = "Gem::Specification.new do |spec|\n  spec.name = \"demo\"\n  spec.version = \"0.3.0\"\nend\n";
    let (doc, version) =
        update_gemspec_version(content, &UpdateTarget::Bump(BumpLevel::Patch), "demo.gemspec")
            .expect("update");
    assert_eq!(version, "0.3.1");
    assert!(doc.contains("  spec.version = \"0.3.1\"\n"));
    assert!(doc.contains("spec.name = \"demo\""));

    let none = update_gemspec_version("no version here\n", &UpdateTarget::Bump(BumpLevel::Patch), "demo.gemspec");
    assert_eq!(none.expect_err("must fail"), "No spec.version assignment found in demo.gemspec");
}

#[test]
fn gemspec_preserves_single_quotes() {
    let content = "  spec.version = '0.3.0'\n";
    let (doc, version) =
        update_gemspec_version(content, &UpdateTarget::Bump(BumpLevel::Patch), "demo.gemspec")
            .expect("update");
    assert_eq!(version, "0.3.1");
    assert_eq!(doc, "  spec.version = '0.3.1'\n");
}

#[test]
fn mix_exs_version_line_is_rewritten() {
    let content = "defmodule Demo.MixProject do\n  def project do\n    [\n      version: \"0.5.0\",\n    ]\n  end\nend\n";
    let (doc, version) =
        update_mix_exs_version(content, &UpdateTarget::Bump(BumpLevel::Minor), "mix.exs")
            .expect("update");
    assert_eq!(version, "0.6.0");
    assert!(doc.contains("      version: \"0.6.0\",\n"));
}

#[test]
fn package_swift_supports_both_forms() {
    let var_form = "import PackageDescription\nlet version = \"1.0.0\"\n";
    let (doc, version) =
        update_package_swift_version(var_form, &UpdateTarget::Bump(BumpLevel::Major), "Package.swift")
            .expect("update");
    assert_eq!(version, "2.0.0");
    assert!(doc.contains("let version = \"2.0.0\"\n"));

    let arg_form = "let package = Package(\n    version: \"1.0.0\",\n)\n";
    let (doc, version) =
        update_package_swift_version(arg_form, &UpdateTarget::Bump(BumpLevel::Patch), "Package.swift")
            .expect("update");
    assert_eq!(version, "1.0.1");
    assert!(doc.contains("    version: \"1.0.1\",\n"));

    let none = update_package_swift_version("nothing\n", &UpdateTarget::Bump(BumpLevel::Patch), "Package.swift");
    assert!(none.expect_err("must fail").contains("No supported version assignment found"));
}

#[test]
fn plain_version_file_uses_existing_content_or_tags() {
    let (doc, version) = update_plain_version_file(
        Some("v2.3.4\n"),
        &Vec::new(),
        &UpdateTarget::Bump(BumpLevel::Patch),
    )
    .expect("update");
    assert_eq!(version, "2.3.5");
    assert_eq!(doc, "2.3.5\n");

    let tags = vec![GitTag { name: "v0.9.0".to_string(), time: 4 }];
    let (doc, version) = update_plain_version_file(None, &tags, &UpdateTarget::Bump(BumpLevel::Minor))
        .expect("update");
    assert_eq!(version, "0.10.0");
    assert_eq!(doc, "0.10.0\n");
}

#[test]
fn latest_tag_version_skips_unparsable_tags() {
    let tags = vec![
        GitTag { name: "nightly".to_string(), time: 9 },
        GitTag { name: "v1.4.0".to_string(), time: 8 },
        GitTag { name: "v1.3.0".to_string(), time: 7 },
    ];
    assert_eq!(format_version(&latest_tag_version(&tags)), "1.4.0");
    assert_eq!(format_version(&latest_tag_version(&Vec::new())), "0.0.0");
}

#[test]
fn normalize_semver_trims_and_strips_the_prefix() {
    let v = normalize_semver("  v1.2.3 ").expect("parse");
    assert_eq!(format_version(&v), "1.2.3");
    let error = normalize_semver(" nope ").expect_err("must fail");
    assert_eq!(error, "Invalid semver 'nope'");
}

#[test]
fn parse_update_target_accepts_keywords_and_versions() {
    match parse_update_target(Some("MAJOR"), BumpLevel::Patch).expect("parse") {
        UpdateTarget::Bump(b) => assert_eq!(b, BumpLevel::Major),
        _ => panic!("expected a bump"),
    }
    match parse_update_target(None, BumpLevel::Minor).expect("parse") {
        UpdateTarget::Bump(b) => assert_eq!(b, BumpLevel::Minor),
        _ => panic!("expected the detected bump"),
    }
    match parse_update_target(Some("v7.8.9"), BumpLevel::Patch).expect("parse") {
        UpdateTarget::Exact(v) => assert_eq!(format_version(&v), "7.8.9"),
        _ => panic!("expected an exact version"),
    }
    assert!(parse_update_target(Some("bogus"), BumpLevel::Patch).is_err());
}

#[test]
fn derive_tag_name_follows_the_pattern() {
    assert_eq!(
        derive_tag_name(r"^v\d+\.\d+\.\d+$", "1.2.3").expect("derive"),
        "v1.2.3"
    );
    assert_eq!(
        derive_tag_name(r"^\d+\.\d+\.\d+$", "1.2.3").expect("derive"),
        "1.2.3"
    );
    assert_eq!(
        derive_tag_name(r"^release-\d+\.\d+\.\d+$", "1.2.3").expect("derive"),
        "release-1.2.3"
    );
    assert!(derive_tag_name(r"(", "1.2.3").expect_err("bad regex").contains("Invalid tag regex pattern"));
    assert!(
        derive_tag_name(r"^nightly$", "1.2.3")
            .expect_err("underivable")
            .contains("Cannot derive tag from pattern")
    );
}

#[test]
fn exact_targets_replace_instead_of_bumping() {
    let content = "[package]\nname = \"demo\"\nversion = \"1.2.3\"\n";
    let (_, version) = update_cargo_toml_version(
        content,
        &UpdateTarget::Exact(Version::new(9, 9, 9)),
        "Cargo.toml",
    )
    .expect("update");
    assert_eq!(version, "9.9.9");
}
