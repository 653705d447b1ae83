//! Project-manifest version rewriting: each supported manifest kind reads its
//! current version field, resolves the next version, and rewrites only that
//! field. Structured formats go through their own parsers behind trusted
//! items; line-oriented formats are parsed here.

use crate::text::{
    leading_ws, lines_spec, str_chars, string_from_chars, trim_spec,
};
use crate::version::{
    UpdateTarget, Version, normalize_semver, normalized_version_text, semver_parse,
};
use crate::changelog::{parts_seq, vparts};
use vstd::prelude::*;

verus! {

broadcast use vstd::string::group_string_axioms;

/// Why a structured manifest yields no version.
#[derive(Debug, Clone, Copy, PartialEq, Eq, Structural)]
pub enum ManifestError {
    /// The text does not parse in the manifest's format.
    BadSyntax,
    /// The format parses but the expected section is absent.
    MissingSection,
    /// The section is there but carries no version field.
    MissingField,
}

/// The `package.version` string that toml_edit reads out of Cargo.toml text,
/// when the text parses and the field is a string.
pub uninterp spec fn cargo_version_of(content: Seq<char>) -> Option<Seq<char>>;

/// The Cargo.toml text re-rendered by toml_edit with `package.version` set to
/// `next`, formatting preserved.
pub uninterp spec fn cargo_with_version(content: Seq<char>, next: Seq<char>) -> Seq<char>;

/// Relies on toml_edit::DocumentMut: parses the manifest and reads
/// `package.version`; which failure arm comes back is not specified.
#[verifier::external_body]
fn cargo_read_version(content: &str) -> (r: Result<String, ManifestError>)
    ensures
        r is Ok <==> cargo_version_of(content@) is Some,
        r matches Ok(v) ==> cargo_version_of(content@) == Some(v@),
{
    let doc: toml_edit::DocumentMut = match content.parse() {
        Ok(d) => d,
        Err(_) => return Err(ManifestError::BadSyntax),
    };
    let package = match doc.get("package").and_then(toml_edit::Item::as_table_like) {
        Some(p) => p,
        None => return Err(ManifestError::MissingSection),
    };
    match package.get("version").and_then(toml_edit::Item::as_str) {
        Some(v) => Ok(v.to_string()),
        None => Err(ManifestError::MissingField),
    }
}

/// Relies on toml_edit::DocumentMut: rewrites `package.version` in place and
/// re-renders the document.
#[verifier::external_body]
fn cargo_write_version(content: &str, next: &str) -> (r: Option<String>)
    ensures
        r is Some <==> cargo_version_of(content@) is Some,
        r matches Some(out) ==> out@ == cargo_with_version(content@, next@),
{
    let mut doc: toml_edit::DocumentMut = content.parse().ok()?;
    doc.get("package").and_then(toml_edit::Item::as_table_like)?.get("version").and_then(
        toml_edit::Item::as_str,
    )?;
    doc["package"]["version"] = toml_edit::value(next);
    Some(doc.to_string())
}

/// The `version` string serde_json reads at the top of package.json text.
pub uninterp spec fn package_json_version_of(content: Seq<char>) -> Option<Seq<char>>;

/// The package.json text re-rendered by serde_json with `version` set to
/// `next`, pretty-printed, without a trailing newline.
pub uninterp spec fn package_json_with_version(content: Seq<char>, next: Seq<char>) -> Seq<char>;

/// Relies on serde_json: parses the text and reads the top-level `version`
/// string of the object.
#[verifier::external_body]
fn package_json_read_version(content: &str) -> (r: Result<String, ManifestError>)
    ensures
        r is Ok <==> package_json_version_of(content@) is Some,
        r matches Ok(v) ==> package_json_version_of(content@) == Some(v@),
{
    let json: serde_json::Value = match serde_json::from_str(content) {
        Ok(v) => v,
        Err(_) => return Err(ManifestError::BadSyntax),
    };
    if !json.is_object() {
        return Err(ManifestError::MissingSection);
    }
    match json.get("version").and_then(|value| value.as_str()) {
        Some(v) => Ok(v.to_string()),
        None => Err(ManifestError::MissingField),
    }
}

/// Relies on serde_json: replaces the top-level `version` string and
/// pretty-prints the object.
#[verifier::external_body]
fn package_json_write_version(content: &str, next: &str) -> (r: Option<String>)
    ensures
        r is Some <==> package_json_version_of(content@) is Some,
        r matches Some(out) ==> out@ == package_json_with_version(content@, next@),
{
    let mut json: serde_json::Value = serde_json::from_str(content).ok()?;
    json.get("version").and_then(|value| value.as_str())?;
    let object = json.as_object_mut()?;
    object.insert("version".to_string(), serde_json::Value::String(next.to_string()));
    serde_json::to_string_pretty(&json).ok()
}

/// The `[project].version` string the toml crate reads out of pyproject text.
pub uninterp spec fn pyproject_project_version_of(content: Seq<char>) -> Option<Seq<char>>;

/// The pyproject text re-rendered by the toml crate with `[project].version`
/// set to `next`, pretty-printed, without a trailing newline.
pub uninterp spec fn pyproject_project_with_version(content: Seq<char>, next: Seq<char>) -> Seq<
    char,
>;

/// The `[tool.poetry].version` string the toml crate reads out of pyproject
/// text.
pub uninterp spec fn pyproject_poetry_version_of(content: Seq<char>) -> Option<Seq<char>>;

/// The pyproject text re-rendered by the toml crate with
/// `[tool.poetry].version` set to `next`, pretty-printed, without a trailing
/// newline.
pub uninterp spec fn pyproject_poetry_with_version(content: Seq<char>, next: Seq<char>) -> Seq<
    char,
>;

/// Whether the toml crate parses the text at all.
pub uninterp spec fn toml_text_parses(content: Seq<char>) -> bool;

/// Relies on toml::from_str: whether the text is TOML.
#[verifier::external_body]
fn toml_parse_check(content: &str) -> (r: bool)
    ensures
        r == toml_text_parses(content@),
{
    content.parse::<toml::Value>().is_ok()
}

/// Relies on the toml crate: reads `[project].version`.
#[verifier::external_body]
fn pyproject_project_read(content: &str) -> (r: Option<String>)
    ensures
        r is Some <==> pyproject_project_version_of(content@) is Some,
        r matches Some(v) ==> pyproject_project_version_of(content@) == Some(v@),
{
    let parsed: toml::Value = content.parse().ok()?;
    let version = parsed.get("project")?.as_table()?.get("version")?.as_str()?;
    Some(version.to_string())
}

/// Relies on the toml crate: rewrites `[project].version` and pretty-prints.
#[verifier::external_body]
fn pyproject_project_write(content: &str, next: &str) -> (r: Option<String>)
    ensures
        r is Some <==> pyproject_project_version_of(content@) is Some,
        r matches Some(out) ==> out@ == pyproject_project_with_version(content@, next@),
{
    let mut parsed: toml::Value = content.parse().ok()?;
    let table = parsed.get_mut("project")?.as_table_mut()?;
    table.get("version")?.as_str()?;
    table.insert("version".to_string(), toml::Value::String(next.to_string()));
    toml::to_string_pretty(&parsed).ok()
}

/// Relies on the toml crate: reads `[tool.poetry].version`.
#[verifier::external_body]
fn pyproject_poetry_read(content: &str) -> (r: Option<String>)
    ensures
        r is Some <==> pyproject_poetry_version_of(content@) is Some,
        r matches Some(v) ==> pyproject_poetry_version_of(content@) == Some(v@),
{
    let parsed: toml::Value = content.parse().ok()?;
    let version = parsed.get("tool")?.as_table()?.get("poetry")?.as_table()?.get(
        "version",
    )?.as_str()?;
    Some(version.to_string())
}

/// Relies on the toml crate: rewrites `[tool.poetry].version` and
/// pretty-prints.
#[verifier::external_body]
fn pyproject_poetry_write(content: &str, next: &str) -> (r: Option<String>)
    ensures
        r is Some <==> pyproject_poetry_version_of(content@) is Some,
        r matches Some(out) ==> out@ == pyproject_poetry_with_version(content@, next@),
{
    let mut parsed: toml::Value = content.parse().ok()?;
    let poetry = parsed.get_mut("tool")?.as_table_mut()?.get_mut("poetry")?.as_table_mut()?;
    poetry.get("version")?.as_str()?;
    poetry.insert("version".to_string(), toml::Value::String(next.to_string()));
    toml::to_string_pretty(&parsed).ok()
}

/// The top-level `version` string serde_yaml reads out of pubspec text.
pub uninterp spec fn pubspec_version_of(content: Seq<char>) -> Option<Seq<char>>;

/// The pubspec text re-rendered by serde_yaml with `version` set to `next`.
pub uninterp spec fn pubspec_with_version(content: Seq<char>, next: Seq<char>) -> Seq<char>;

/// Relies on serde_yaml: parses the text and reads the top-level `version`
/// string of the mapping.
#[verifier::external_body]
fn pubspec_read_version(content: &str) -> (r: Result<String, ManifestError>)
    ensures
        r is Ok <==> pubspec_version_of(content@) is Some,
        r matches Ok(v) ==> pubspec_version_of(content@) == Some(v@),
{
    let parsed: serde_yaml::Value = match serde_yaml::from_str(content) {
        Ok(v) => v,
        Err(_) => return Err(ManifestError::BadSyntax),
    };
    if !parsed.is_mapping() {
        return Err(ManifestError::MissingSection);
    }
    match parsed.get("version").and_then(serde_yaml::Value::as_str) {
        Some(v) => Ok(v.to_string()),
        None => Err(ManifestError::MissingField),
    }
}

/// Relies on serde_yaml: replaces the top-level `version` string and
/// re-renders the mapping.
#[verifier::external_body]
fn pubspec_write_version(content: &str, next: &str) -> (r: Option<String>)
    ensures
        r is Some <==> pubspec_version_of(content@) is Some,
        r matches Some(out) ==> out@ == pubspec_with_version(content@, next@),
{
    let mut parsed: serde_yaml::Value = serde_yaml::from_str(content).ok()?;
    parsed.get("version").and_then(serde_yaml::Value::as_str)?;
    let map = parsed.as_mapping_mut()?;
    map.insert(
        serde_yaml::Value::String("version".to_string()),
        serde_yaml::Value::String(next.to_string()),
    );
    serde_yaml::to_string(&parsed).ok()
}

/// The next version for a current version text under a target: the text must
/// normalize to a strict version, and the bumped number must have headroom.
pub open spec fn spec_next_from(current_text: Seq<char>, target: UpdateTarget) -> Result<
    (u64, u64, u64, Seq<char>, Seq<char>),
    Seq<char>,
> {
    match semver_parse(normalized_version_text(current_text)) {
        None => Err("Invalid semver '"@ + trim_spec(current_text) + "'"@),
        Some(p) => {
            match target {
                UpdateTarget::Bump(b) => Ok(
                    crate::changelog::bump_parts(p, b),
                ),
                UpdateTarget::Exact(v) => Ok(vparts(v)),
            }
        },
    }
}

/// Whether a parsed current version has headroom for the requested bump.
pub open spec fn parsed_headroom(current_text: Seq<char>, target: UpdateTarget) -> bool {
    match (semver_parse(normalized_version_text(current_text)), target) {
        (Some(p), UpdateTarget::Bump(b)) => match b {
            crate::conventional::BumpLevel::Major => p.0 < u64::MAX,
            crate::conventional::BumpLevel::Minor => p.1 < u64::MAX,
            crate::conventional::BumpLevel::Patch => p.2 < u64::MAX,
        },
        _ => true,
    }
}

/// Resolve the next version from a current version text. The version-number
/// overflow rejection is this library's own guard: a bump step past `u64`
/// cannot be represented.
fn next_from_current(current: &str, target: &UpdateTarget) -> (r: Result<Version, String>)
    ensures
        (r is Ok <==> semver_parse(normalized_version_text(current@)) is Some && parsed_headroom(
            current@,
            *target,
        )),
        r matches Ok(v) ==> spec_next_from(current@, *target) matches Ok(p) && vparts(v) == p,
        r matches Err(e) ==> !parsed_headroom(current@, *target) || (spec_next_from(current@, *target)
            matches Err(m) && e@ == m),
{
    let parsed = match normalize_semver(current) {
        Ok(v) => v,
        Err(e) => {
            return Err(e);
        },
    };
    let fits = match target {
        UpdateTarget::Bump(b) => match b {
            crate::conventional::BumpLevel::Major => parsed.major < u64::MAX,
            crate::conventional::BumpLevel::Minor => parsed.minor < u64::MAX,
            crate::conventional::BumpLevel::Patch => parsed.patch < u64::MAX,
        },
        UpdateTarget::Exact(_) => true,
    };
    if !fits {
        return Err(String::from_str("version number too large to bump"));
    }
    Ok(crate::version::resolve_target_version(parsed, target))
}

/// `before` ++ `mid` ++ `after`, as one string.
fn concat3(before: &str, mid: &str, after: &str) -> (r: String)
    ensures
        r@ == before@ + mid@ + after@,
{
    let mut out: Vec<char> = str_chars(before);
    let mid_chars = str_chars(mid);
    crate::text::push_chars(&mut out, &mid_chars);
    let after_chars = str_chars(after);
    crate::text::push_chars(&mut out, &after_chars);
    string_from_chars(&out)
}

/// Rewrite the `package.version` field of Cargo.toml text; `path` only
/// labels error messages. Returns the new text and the new version.
pub fn update_cargo_toml_version(content: &str, target: &UpdateTarget, path: &str) -> (r: Result<
    (String, String),
    String,
>)
    ensures
        ({
            let read = cargo_version_of(content@);
            &&& (r is Ok <==> (read matches Some(cur) && semver_parse(
                normalized_version_text(cur),
            ) is Some && parsed_headroom(cur, *target)))
            &&& (r matches Ok(p) ==> read matches Some(cur) && (spec_next_from(cur, *target)
                matches Ok(np) && p.1@ == parts_seq(np) && p.0@ == cargo_with_version(
                content@,
                parts_seq(np),
            )))
        }),
{
    let current = match cargo_read_version(content) {
        Ok(v) => v,
        Err(ManifestError::BadSyntax) => {
            return Err(concat3("Invalid TOML in ", path, ""));
        },
        Err(ManifestError::MissingSection) => {
            return Err(concat3("No [package] section found in ", path, ""));
        },
        Err(ManifestError::MissingField) => {
            return Err(concat3("No package version found in ", path, ""));
        },
    };
    let next = match next_from_current(current.as_str(), target) {
        Ok(v) => v,
        Err(e) => {
            return Err(e);
        },
    };
    let next_string = crate::version::format_version(&next);
    match cargo_write_version(content, next_string.as_str()) {
        Some(out) => Ok((out, next_string)),
        None => Err(concat3("Invalid TOML in ", path, "")),
    }
}

/// Rewrite the top-level `version` field of package.json text.
pub fn update_package_json_version(content: &str, target: &UpdateTarget, path: &str) -> (r: Result<
    (String, String),
    String,
>)
    ensures
        ({
            let read = package_json_version_of(content@);
            &&& (r is Ok <==> (read matches Some(cur) && semver_parse(
                normalized_version_text(cur),
            ) is Some && parsed_headroom(cur, *target)))
            &&& (r matches Ok(p) ==> read matches Some(cur) && (spec_next_from(cur, *target)
                matches Ok(np) && p.1@ == parts_seq(np) && p.0@ == package_json_with_version(
                content@,
                parts_seq(np),
            ) + "\n"@))
        }),
{
    let current = match package_json_read_version(content) {
        Ok(v) => v,
        Err(ManifestError::BadSyntax) => {
            return Err(concat3("Invalid JSON in ", path, ""));
        },
        Err(ManifestError::MissingSection) => {
            return Err(concat3("", path, " must contain a top-level object"));
        },
        Err(ManifestError::MissingField) => {
            return Err(concat3("No 'version' field found in ", path, ""));
        },
    };
    let next = match next_from_current(current.as_str(), target) {
        Ok(v) => v,
        Err(e) => {
            return Err(e);
        },
    };
    let next_string = crate::version::format_version(&next);
    match package_json_write_version(content, next_string.as_str()) {
        Some(out) => {
            let doc = concat3(out.as_str(), "\n", "");
            proof {
                reveal_strlit("");
                assert(doc@ =~= package_json_with_version(content@, next_string@) + "\n"@);
            }
            Ok((doc, next_string))
        },
        None => Err(concat3("Invalid JSON in ", path, "")),
    }
}

/// Rewrite the version of pyproject text: `[project].version` when present,
/// else `[tool.poetry].version`.
pub fn update_pyproject_toml_version(content: &str, target: &UpdateTarget, path: &str) -> (r:
    Result<(String, String), String>)
    ensures
        ({
            let proj = pyproject_project_version_of(content@);
            let poetry = pyproject_poetry_version_of(content@);
            &&& (proj matches Some(cur)) ==> ({
                let cur = proj.unwrap();
                &&& (r is Ok <==> semver_parse(normalized_version_text(cur)) is Some
                    && parsed_headroom(cur, *target))
                &&& (r matches Ok(p) ==> (spec_next_from(cur, *target) matches Ok(np) && p.1@
                    == parts_seq(np) && p.0@ == pyproject_project_with_version(
                    content@,
                    parts_seq(np),
                ) + "\n"@))
            })
            &&& (proj is None && poetry is Some) ==> ({
                let cur = poetry.unwrap();
                &&& (r is Ok <==> semver_parse(normalized_version_text(cur)) is Some
                    && parsed_headroom(cur, *target))
                &&& (r matches Ok(p) ==> (spec_next_from(cur, *target) matches Ok(np) && p.1@
                    == parts_seq(np) && p.0@ == pyproject_poetry_with_version(
                    content@,
                    parts_seq(np),
                ) + "\n"@))
            })
            &&& (proj is None && poetry is None ==> r is Err)
        }),
{
    match pyproject_project_read(content) {
        Some(current) => {
            let next = match next_from_current(current.as_str(), target) {
                Ok(v) => v,
                Err(e) => {
                    return Err(e);
                },
            };
            let next_string = crate::version::format_version(&next);
            match pyproject_project_write(content, next_string.as_str()) {
                Some(out) => {
                    let doc = concat3(out.as_str(), "\n", "");
                    proof {
                        reveal_strlit("");
                        assert(doc@ =~= pyproject_project_with_version(content@, next_string@)
                            + "\n"@);
                    }
                    return Ok((doc, next_string));
                },
                None => {
                    return Err(concat3("Invalid TOML in ", path, ""));
                },
            }
        },
        None => {},
    }
    match pyproject_poetry_read(content) {
        Some(current) => {
            let next = match next_from_current(current.as_str(), target) {
                Ok(v) => v,
                Err(e) => {
                    return Err(e);
                },
            };
            let next_string = crate::version::format_version(&next);
            match pyproject_poetry_write(content, next_string.as_str()) {
                Some(out) => {
                    let doc = concat3(out.as_str(), "\n", "");
                    proof {
                        reveal_strlit("");
                        assert(doc@ =~= pyproject_poetry_with_version(content@, next_string@)
                            + "\n"@);
                    }
                    return Ok((doc, next_string));
                },
                None => {
                    return Err(concat3("Invalid TOML in ", path, ""));
                },
            }
        },
        None => {},
    }
    if !toml_parse_check(content) {
        return Err(concat3("Invalid TOML in ", path, ""));
    }
    Err(
        concat3(
            "No supported version field found in ",
            path,
            " (expected [project].version or [tool.poetry].version)",
        ),
    )
}

/// Rewrite the top-level `version` field of pubspec text.
pub fn update_pubspec_yaml_version(content: &str, target: &UpdateTarget, path: &str) -> (r: Result<
    (String, String),
    String,
>)
    ensures
        ({
            let read = pubspec_version_of(content@);
            &&& (r is Ok <==> (read matches Some(cur) && semver_parse(
                normalized_version_text(cur),
            ) is Some && parsed_headroom(cur, *target)))
            &&& (r matches Ok(p) ==> read matches Some(cur) && (spec_next_from(cur, *target)
                matches Ok(np) && p.1@ == parts_seq(np) && p.0@ == pubspec_with_version(
                content@,
                parts_seq(np),
            )))
        }),
{
    let current = match pubspec_read_version(content) {
        Ok(v) => v,
        Err(ManifestError::BadSyntax) => {
            return Err(concat3("Invalid YAML in ", path, ""));
        },
        Err(ManifestError::MissingSection) => {
            return Err(concat3("", path, " must contain a top-level mapping"));
        },
        Err(ManifestError::MissingField) => {
            return Err(concat3("No 'version' field found in ", path, ""));
        },
    };
    let next = match next_from_current(current.as_str(), target) {
        Ok(v) => v,
        Err(e) => {
            return Err(e);
        },
    };
    let next_string = crate::version::format_version(&next);
    match pubspec_write_version(content, next_string.as_str()) {
        Some(out) => Ok((out, next_string)),
        None => Err(concat3("Invalid YAML in ", path, "")),
    }
}

/// A string delimiter.
pub open spec fn is_quote(c: char) -> bool {
    c == '"' || c == '\''
}

fn is_quote_char(c: char) -> (r: bool)
    ensures
        r == is_quote(c),
{
    c == '"' || c == '\''
}

/// The first delimiter at or after `i`.
pub open spec fn first_quote_from(s: Seq<char>, i: int) -> Option<int>
    decreases s.len() - i,
{
    if i < 0 || i >= s.len() {
        None
    } else if is_quote(s[i]) {
        Some(i)
    } else {
        first_quote_from(s, i + 1)
    }
}

proof fn lemma_first_quote(s: Seq<char>, i: int)
    requires
        0 <= i,
    ensures
        first_quote_from(s, i) matches Some(j) ==> i <= j < s.len() && is_quote(s[j]) && forall|
            k: int,
        | i <= k < j ==> !is_quote(s[k]),
        first_quote_from(s, i) is None ==> forall|k: int| i <= k < s.len() ==> !is_quote(s[k]),
    decreases s.len() - i,
{
    if i < s.len() && !is_quote(s[i]) {
        lemma_first_quote(s, i + 1);
    }
}

fn find_quote_from(s: &Vec<char>, from: usize) -> (r: Option<usize>)
    ensures
        match r {
            Some(j) => first_quote_from(s@, from as int) == Some(j as int) && from <= j
                < s@.len(),
            None => first_quote_from(s@, from as int) is None,
        },
{
    let mut i: usize = from;
    if from >= s.len() {
        return None;
    }
    while i < s.len()
        invariant
            from <= i <= s@.len(),
            first_quote_from(s@, from as int) == first_quote_from(s@, i as int),
        decreases s@.len() - i,
    {
        if is_quote_char(s[i]) {
            return Some(i);
        }
        i = i + 1;
    }
    None
}

/// Only whitespace up to the end of the line.
pub open spec fn only_ws(s: Seq<char>) -> bool {
    leading_ws(s) == s.len()
}

/// Whitespace, then at most one comma, then whitespace, to the end.
pub open spec fn ws_comma_ws(s: Seq<char>) -> bool {
    let t = s.skip(leading_ws(s) as int);
    t.len() == 0 || (t[0] == ',' && only_ws(t.skip(1)))
}

/// The version span of a quoted assignment line: `(a, b)` such that the
/// version text is `line[a..b]`, sitting between two delimiters.
/// `head` is where the delimiter search starts, after the line's keyword; a
/// comma may close the line when `comma` holds.
pub open spec fn quoted_span(line: Seq<char>, head: int, comma: bool) -> Option<(int, int)> {
    let p = head + leading_ws(line.skip(head));
    if p < line.len() && is_quote(line[p]) {
        match first_quote_from(line, p + 1) {
            Some(b) => {
                if b > p + 1 && (if comma {
                    ws_comma_ws(line.skip(b + 1))
                } else {
                    only_ws(line.skip(b + 1))
                }) {
                    Some((p + 1, b))
                } else {
                    None
                }
            },
            None => None,
        }
    } else {
        None
    }
}

/// A gemspec version line: `spec.version = "x.y.z"`, surrounded by
/// whitespace, with either delimiter.
pub open spec fn gemspec_span(line: Seq<char>) -> Option<(int, int)> {
    let a0 = leading_ws(line) as int;
    let lit = "spec.version"@;
    if !crate::text::match_at(line, lit, a0) {
        None
    } else {
        let p1 = a0 + lit.len();
        let p2 = p1 + leading_ws(line.skip(p1));
        if p2 < line.len() && line[p2] == '=' {
            quoted_span(line, p2 + 1, false)
        } else {
            None
        }
    }
}

/// A mix.exs version line: `version: "x.y.z"`, an optional trailing comma.
pub open spec fn mix_span(line: Seq<char>) -> Option<(int, int)> {
    let a0 = leading_ws(line) as int;
    let lit = "version:"@;
    if !crate::text::match_at(line, lit, a0) {
        None
    } else {
        quoted_span(line, a0 + lit.len(), true)
    }
}

/// A Package.swift `let`/`var` version line: `let version = "x.y.z"`.
pub open spec fn swift_var_span(line: Seq<char>) -> Option<(int, int)> {
    let a0 = leading_ws(line) as int;
    let let_lit = "let"@;
    let var_lit = "var"@;
    if !(crate::text::match_at(line, let_lit, a0) || crate::text::match_at(line, var_lit, a0)) {
        None
    } else {
        let p1 = a0 + 3;
        let w = leading_ws(line.skip(p1)) as int;
        if w == 0 {
            None
        } else {
            let p2 = p1 + w;
            let ver_lit = "version"@;
            if !crate::text::match_at(line, ver_lit, p2) {
                None
            } else {
                let p3 = p2 + ver_lit.len();
                let p4 = p3 + leading_ws(line.skip(p3));
                if p4 < line.len() && line[p4] == '=' {
                    quoted_span(line, p4 + 1, false)
                } else {
                    None
                }
            }
        }
    }
}

/// A Package.swift argument version line: `version: "x.y.z"`, whitespace
/// allowed before the colon, an optional trailing comma.
pub open spec fn swift_arg_span(line: Seq<char>) -> Option<(int, int)> {
    let a0 = leading_ws(line) as int;
    let lit = "version"@;
    if !crate::text::match_at(line, lit, a0) {
        None
    } else {
        let p1 = a0 + lit.len();
        let p2 = p1 + leading_ws(line.skip(p1));
        if p2 < line.len() && line[p2] == ':' {
            quoted_span(line, p2 + 1, true)
        } else {
            None
        }
    }
}

/// The line-oriented manifest grammars.
#[derive(Debug, Clone, Copy, PartialEq, Eq, Structural)]
pub enum LineGrammar {
    /// `spec.version = "x.y.z"`.
    Gemspec,
    /// `version: "x.y.z",`.
    MixExs,
    /// `let version = "x.y.z"` or `version: "x.y.z",`.
    PackageSwift,
}

/// The version span a grammar finds in one line.
pub open spec fn grammar_span(g: LineGrammar, line: Seq<char>) -> Option<(int, int)> {
    match g {
        LineGrammar::Gemspec => gemspec_span(line),
        LineGrammar::MixExs => mix_span(line),
        LineGrammar::PackageSwift => match swift_var_span(line) {
            Some(p) => Some(p),
            None => swift_arg_span(line),
        },
    }
}

/// Match only whitespace to the end, starting at `from`.
fn check_only_ws(line: &Vec<char>, from: usize) -> (r: bool)
    requires
        from <= line@.len(),
    ensures
        r == only_ws(line@.skip(from as int)),
{
    let n = line.len();
    let w = crate::text::count_ws(line, from);
    from + w == n
}

/// Match whitespace, one optional comma, whitespace, to the end.
fn check_ws_comma_ws(line: &Vec<char>, from: usize) -> (r: bool)
    requires
        from <= line@.len(),
    ensures
        r == ws_comma_ws(line@.skip(from as int)),
{
    let n = line.len();
    let ghost s = line@.skip(from as int);
    let w = crate::text::count_ws(line, from);
    let p = from + w;
    proof {
        assert(s.skip(leading_ws(s) as int) =~= line@.skip(p as int));
    }
    if p == line.len() {
        return true;
    }
    if line[p] != ',' {
        return false;
    }
    proof {
        assert(line@.skip(p as int)[0] == line@[p as int]);
        assert(line@.skip(p as int).skip(1) =~= line@.skip(p + 1));
    }
    check_only_ws(line, p + 1)
}

/// Match a quoted version span from `head`.
fn find_quoted_span(line: &Vec<char>, head: usize, comma: bool) -> (r: Option<(usize, usize)>)
    requires
        head <= line@.len(),
    ensures
        match r {
            Some(p) => quoted_span(line@, head as int, comma) == Some((p.0 as int, p.1 as int))
                && head < p.0 <= p.1 < line@.len(),
            None => quoted_span(line@, head as int, comma) is None,
        },
{
    let n = line.len();
    let w = crate::text::count_ws(line, head);
    let p = head + w;
    if p >= n || !is_quote_char(line[p]) {
        return None;
    }
    match find_quote_from(line, p + 1) {
        Some(b) => {
            if b <= p + 1 {
                return None;
            }
            let tail_ok = if comma {
                check_ws_comma_ws(line, b + 1)
            } else {
                check_only_ws(line, b + 1)
            };
            if tail_ok {
                Some((p + 1, b))
            } else {
                None
            }
        },
        None => None,
    }
}

/// Find a grammar's version span in one line.
fn grammar_span_exec(g: LineGrammar, line: &Vec<char>) -> (r: Option<(usize, usize)>)
    ensures
        match r {
            Some(p) => grammar_span(g, line@) == Some((p.0 as int, p.1 as int)) && p.0 <= p.1
                < line@.len(),
            None => grammar_span(g, line@) is None,
        },
{
    match g {
        LineGrammar::Gemspec => {
            let a0 = crate::text::count_ws(line, 0);
            proof {
                assert(line@.skip(0) =~= line@);
                reveal_strlit("spec.version");
            }
            let lit = str_chars("spec.version");
            if line.len() - a0 < lit.len() || !crate::text::matches_at(line, &lit, a0) {
                return None;
            }
            let p1 = a0 + 12;
            let w = crate::text::count_ws(line, p1);
            let p2 = p1 + w;
            if p2 >= line.len() || line[p2] != '=' {
                return None;
            }
            find_quoted_span(line, p2 + 1, false)
        },
        LineGrammar::MixExs => {
            let a0 = crate::text::count_ws(line, 0);
            proof {
                assert(line@.skip(0) =~= line@);
                reveal_strlit("version:");
            }
            let lit = str_chars("version:");
            if line.len() - a0 < lit.len() || !crate::text::matches_at(line, &lit, a0) {
                return None;
            }
            find_quoted_span(line, a0 + 8, true)
        },
        LineGrammar::PackageSwift => {
            let a0 = crate::text::count_ws(line, 0);
            proof {
                assert(line@.skip(0) =~= line@);
                reveal_strlit("let");
                reveal_strlit("var");
                reveal_strlit("version");
            }
            let let_lit = str_chars("let");
            let var_lit = str_chars("var");
            let ver_lit = str_chars("version");
            let var_form: Option<(usize, usize)>;
            if line.len() - a0 >= 3 && (crate::text::matches_at(line, &let_lit, a0)
                || crate::text::matches_at(line, &var_lit, a0)) {
                let p1 = a0 + 3;
                let w = crate::text::count_ws(line, p1);
                if w == 0 {
                    var_form = None;
                } else {
                    let p2 = p1 + w;
                    if line.len() - p2 < 7 || !crate::text::matches_at(line, &ver_lit, p2) {
                        var_form = None;
                    } else {
                        let p3 = p2 + 7;
                        let w2 = crate::text::count_ws(line, p3);
                        let p4 = p3 + w2;
                        if p4 >= line.len() || line[p4] != '=' {
                            var_form = None;
                        } else {
                            var_form = find_quoted_span(line, p4 + 1, false);
                        }
                    }
                }
            } else {
                var_form = None;
            }
            match var_form {
                Some(p) => Some(p),
                None => {
                    if swift_var_none_check(line, a0) {
                        if line.len() - a0 < 7 || !crate::text::matches_at(line, &ver_lit, a0) {
                            return None;
                        }
                        let p1 = a0 + 7;
                        let w = crate::text::count_ws(line, p1);
                        let p2 = p1 + w;
                        if p2 >= line.len() || line[p2] != ':' {
                            return None;
                        }
                        find_quoted_span(line, p2 + 1, true)
                    } else {
                        None
                    }
                },
            }
        },
    }
}

/// The `let`/`var` form does not match, so only the argument form can.
/// Recomputed as a plain fact for the exec flow.
fn swift_var_none_check(line: &Vec<char>, a0_hint: usize) -> (r: bool)
    ensures
        r == (swift_var_span(line@) is None),
{
    proof {
        reveal_strlit("let");
        reveal_strlit("var");
        reveal_strlit("version");
        assert(line@.skip(0) =~= line@);
    }
    let a0 = crate::text::count_ws(line, 0);
    let let_lit = str_chars("let");
    let var_lit = str_chars("var");
    let ver_lit = str_chars("version");
    if line.len() - a0 < 3 || !(crate::text::matches_at(line, &let_lit, a0)
        || crate::text::matches_at(line, &var_lit, a0)) {
        return true;
    }
    let p1 = a0 + 3;
    let w = crate::text::count_ws(line, p1);
    if w == 0 {
        return true;
    }
    let p2 = p1 + w;
    if line.len() - p2 < 7 || !crate::text::matches_at(line, &ver_lit, p2) {
        return true;
    }
    let p3 = p2 + 7;
    let w2 = crate::text::count_ws(line, p3);
    let p4 = p3 + w2;
    if p4 >= line.len() || line[p4] != '=' {
        return true;
    }
    find_quoted_span(line, p4 + 1, false).is_none()
}

/// The first line at or after `i` where the grammar finds a version span.
pub open spec fn first_span_line(g: LineGrammar, lines: Seq<Seq<char>>, i: int) -> Option<int>
    decreases lines.len() - i,
{
    if i < 0 || i >= lines.len() {
        None
    } else if grammar_span(g, lines[i]) is Some {
        Some(i)
    } else {
        first_span_line(g, lines, i + 1)
    }
}

/// The document a line-oriented rewrite produces: the first matching line has
/// its version span replaced by `next`; all lines are rejoined with newlines
/// and one trailing newline.
pub open spec fn spec_line_rewrite(
    g: LineGrammar,
    content: Seq<char>,
    next: Seq<char>,
) -> Option<(Seq<char>, Seq<char>)> {
    let lines = lines_spec(content);
    match first_span_line(g, lines, 0) {
        None => None,
        Some(j) => {
            match grammar_span(g, lines[j]) {
                Some(span) => {
                    let line = lines[j];
                    let current = line.subrange(span.0, span.1);
                    let rebuilt = line.take(span.0) + next + line.skip(span.1);
                    Some(
                        (
                            current,
                            crate::text::join_spec(lines.update(j, rebuilt), "\n"@) + "\n"@,
                        ),
                    )
                },
                None => None,
            }
        },
    }
}

/// Rewrite the first line a grammar matches, resolving the next version from
/// the matched current version; `missing` is the error for a document with no
/// matching line.
fn rewrite_version_line(
    content: &str,
    g: LineGrammar,
    target: &UpdateTarget,
    missing: String,
) -> (r: Result<(String, String), String>)
    ensures
        ({
            let lines = lines_spec(content@);
            &&& first_span_line(g, lines, 0) is None ==> (r matches Err(e) && e@ == missing@)
            &&& (first_span_line(g, lines, 0) matches Some(j)) ==> ({
                let j = first_span_line(g, lines, 0).unwrap();
                let span = grammar_span(g, lines[j]).unwrap();
                let cur = lines[j].subrange(span.0, span.1);
                &&& (r is Ok <==> semver_parse(normalized_version_text(cur)) is Some
                    && parsed_headroom(cur, *target))
                &&& (r matches Ok(p) ==> (spec_next_from(cur, *target) matches Ok(np) && p.1@
                    == parts_seq(np) && (spec_line_rewrite(g, content@, parts_seq(np)) matches Some(
                    rw,
                ) && p.0@ == rw.1)))
            })
        }),
{
    let chars = str_chars(content);
    let mut lines = crate::text::lines_chars(&chars);
    let ghost line_views = lines_spec(content@);
    let mut j: usize = 0;
    let mut found: Option<(usize, usize)> = None;
    loop
        invariant_except_break
            found is None,
        invariant
            lines@.len() == line_views.len(),
            forall|k: int| 0 <= k < lines@.len() ==> lines@[k]@ == line_views[k],
            0 <= j <= lines@.len(),
            first_span_line(g, line_views, 0) == first_span_line(g, line_views, j as int),
        ensures
            match found {
                Some(p) => j < lines@.len() && first_span_line(g, line_views, 0) == Some(
                    j as int,
                ) && grammar_span(g, line_views[j as int]) == Some((p.0 as int, p.1 as int))
                    && p.0 <= p.1 < line_views[j as int].len(),
                None => first_span_line(g, line_views, 0) is None,
            },
        decreases lines@.len() - j,
    {
        if j >= lines.len() {
            proof {
                assert(first_span_line(g, line_views, j as int) is None);
            }
            break;
        }
        match grammar_span_exec(g, &lines[j]) {
            Some(p) => {
                found = Some(p);
                break;
            },
            None => {},
        }
        j = j + 1;
    }
    let span: (usize, usize);
    match found {
        Some(p) => {
            span = p;
        },
        None => {
            return Err(missing);
        },
    }
    let line = &lines[j];
    let current_chars = crate::text::sub_chars(line, span.0, span.1);
    let current = string_from_chars(&current_chars);
    let next = match next_from_current(current.as_str(), target) {
        Ok(v) => v,
        Err(e) => {
            return Err(e);
        },
    };
    let next_string = crate::version::format_version(&next);
    let next_chars = str_chars(next_string.as_str());
    let mut rebuilt = crate::text::sub_chars(line, 0, span.0);
    crate::text::push_chars(&mut rebuilt, &next_chars);
    let tail = crate::text::sub_chars(line, span.1, line.len());
    crate::text::push_chars(&mut rebuilt, &tail);
    proof {
        assert(line_views[j as int].take(span.0 as int) =~= lines@[j as int]@.subrange(
            0,
            span.0 as int,
        ));
        assert(line_views[j as int].skip(span.1 as int) =~= lines@[j as int]@.subrange(
            span.1 as int,
            lines@[j as int]@.len() as int,
        ));
        assert(rebuilt@ =~= line_views[j as int].take(span.0 as int) + version_seq_of(next)
            + line_views[j as int].skip(span.1 as int));
    }
    lines.set(j, rebuilt);
    proof {
        assert(lines@.map_values(|l: Vec<char>| l@) =~= line_views.update(
            j as int,
            line_views[j as int].take(span.0 as int) + version_seq_of(next)
                + line_views[j as int].skip(span.1 as int),
        ));
    }
    let nl = str_chars("\n");
    let mut out = crate::text::join_chars(&lines, &nl);
    crate::text::push_chars(&mut out, &nl);
    Ok((string_from_chars(&out), next_string))
}

/// The rendered text of a version value.
pub open spec fn version_seq_of(v: Version) -> Seq<char> {
    crate::version::version_seq(v)
}

/// Rewrite the `spec.version = "..."` assignment of gemspec text.
pub fn update_gemspec_version(content: &str, target: &UpdateTarget, path: &str) -> (r: Result<
    (String, String),
    String,
>)
    ensures
        ({
            let lines = lines_spec(content@);
            &&& first_span_line(LineGrammar::Gemspec, lines, 0) is None ==> r is Err
            &&& (first_span_line(LineGrammar::Gemspec, lines, 0) matches Some(j)) ==> ({
                let j = first_span_line(LineGrammar::Gemspec, lines, 0).unwrap();
                let span = grammar_span(LineGrammar::Gemspec, lines[j]).unwrap();
                let cur = lines[j].subrange(span.0, span.1);
                &&& (r is Ok <==> semver_parse(normalized_version_text(cur)) is Some
                    && parsed_headroom(cur, *target))
                &&& (r matches Ok(p) ==> (spec_next_from(cur, *target) matches Ok(np) && p.1@
                    == parts_seq(np) && (spec_line_rewrite(
                    LineGrammar::Gemspec,
                    content@,
                    parts_seq(np),
                ) matches Some(rw) && p.0@ == rw.1)))
            })
        }),
{
    let missing = concat3("No spec.version assignment found in ", path, "");
    rewrite_version_line(content, LineGrammar::Gemspec, target, missing)
}

/// Rewrite the `version: "..."` field of mix.exs text.
pub fn update_mix_exs_version(content: &str, target: &UpdateTarget, path: &str) -> (r: Result<
    (String, String),
    String,
>)
    ensures
        ({
            let lines = lines_spec(content@);
            &&& first_span_line(LineGrammar::MixExs, lines, 0) is None ==> r is Err
            &&& (first_span_line(LineGrammar::MixExs, lines, 0) matches Some(j)) ==> ({
                let j = first_span_line(LineGrammar::MixExs, lines, 0).unwrap();
                let span = grammar_span(LineGrammar::MixExs, lines[j]).unwrap();
                let cur = lines[j].subrange(span.0, span.1);
                &&& (r is Ok <==> semver_parse(normalized_version_text(cur)) is Some
                    && parsed_headroom(cur, *target))
                &&& (r matches Ok(p) ==> (spec_next_from(cur, *target) matches Ok(np) && p.1@
                    == parts_seq(np) && (spec_line_rewrite(
                    LineGrammar::MixExs,
                    content@,
                    parts_seq(np),
                ) matches Some(rw) && p.0@ == rw.1)))
            })
        }),
{
    let missing = concat3("No version: field found in ", path, "");
    rewrite_version_line(content, LineGrammar::MixExs, target, missing)
}

/// Rewrite the `let/var version = "..."` or `version: "..."` assignment of
/// Package.swift text.
pub fn update_package_swift_version(content: &str, target: &UpdateTarget, path: &str) -> (r:
    Result<(String, String), String>)
    ensures
        ({
            let lines = lines_spec(content@);
            &&& first_span_line(LineGrammar::PackageSwift, lines, 0) is None ==> r is Err
            &&& (first_span_line(LineGrammar::PackageSwift, lines, 0) matches Some(j)) ==> ({
                let j = first_span_line(LineGrammar::PackageSwift, lines, 0).unwrap();
                let span = grammar_span(LineGrammar::PackageSwift, lines[j]).unwrap();
                let cur = lines[j].subrange(span.0, span.1);
                &&& (r is Ok <==> semver_parse(normalized_version_text(cur)) is Some
                    && parsed_headroom(cur, *target))
                &&& (r matches Ok(p) ==> (spec_next_from(cur, *target) matches Ok(np) && p.1@
                    == parts_seq(np) && (spec_line_rewrite(
                    LineGrammar::PackageSwift,
                    content@,
                    parts_seq(np),
                ) matches Some(rw) && p.0@ == rw.1)))
            })
        }),
{
    let missing = concat3(
        "No supported version assignment found in ",
        path,
        " (expected let/var version = \"x.y.z\" or version: \"x.y.z\")",
    );
    rewrite_version_line(content, LineGrammar::PackageSwift, target, missing)
}

/// Rewrite a plain version file: its whole content is the version. An absent
/// file falls back to the newest parsable tag version (or `0.0.0`).
pub fn update_plain_version_file(
    content: Option<&str>,
    tags: &Vec<crate::git::GitTag>,
    target: &UpdateTarget,
) -> (r: Result<(String, String), String>)
    ensures
        ({
            &&& (content matches Some(text) ==> {
                &&& (r is Ok <==> semver_parse(normalized_version_text(text@)) is Some
                    && parsed_headroom(text@, *target))
                &&& (r matches Ok(p) ==> (spec_next_from(text@, *target) matches Ok(np) && p.1@
                    == parts_seq(np) && p.0@ == parts_seq(np) + "\n"@))
            })
        }),
{
    let current: Version = match content {
        Some(text) => {
            match normalize_semver(text) {
                Ok(v) => v,
                Err(e) => {
                    return Err(e);
                },
            }
        },
        None => crate::version::latest_tag_version(tags),
    };
    let fits = match target {
        UpdateTarget::Bump(b) => match b {
            crate::conventional::BumpLevel::Major => current.major < u64::MAX,
            crate::conventional::BumpLevel::Minor => current.minor < u64::MAX,
            crate::conventional::BumpLevel::Patch => current.patch < u64::MAX,
        },
        UpdateTarget::Exact(_) => true,
    };
    if !fits {
        return Err(String::from_str("version number too large to bump"));
    }
    let next = crate::version::resolve_target_version(current, target);
    let next_string = crate::version::format_version(&next);
    let doc = concat3(next_string.as_str(), "\n", "");
    proof {
        reveal_strlit("");
        assert(doc@ =~= crate::version::version_seq(next) + "\n"@);
    }
    Ok((doc, next_string))
}

/// The manifest kinds the update path probes, in probing order.
#[derive(Debug, Clone, Copy, PartialEq, Eq, Structural)]
pub enum ManifestKind {
    CargoToml,
    PackageJson,
    PyprojectToml,
    Gemspec,
    MixExs,
    PubspecYaml,
    PackageSwift,
    VersionFile,
}

/// Which manifest files are present in the project directory.
#[derive(Debug, Clone, Copy, PartialEq, Eq, Structural)]
pub struct ManifestPresence {
    pub cargo_toml: bool,
    pub package_json: bool,
    pub pyproject_toml: bool,
    pub gemspec: bool,
    pub mix_exs: bool,
    pub pubspec_yaml: bool,
    pub package_swift: bool,
    pub version_file: bool,
}

/// The manifest kind the update path works on: the first present kind in the
/// fixed probing order.
pub fn select_manifest(present: &ManifestPresence) -> (r: Option<ManifestKind>)
    ensures
        r == if present.cargo_toml {
            Some(ManifestKind::CargoToml)
        } else if present.package_json {
            Some(ManifestKind::PackageJson)
        } else if present.pyproject_toml {
            Some(ManifestKind::PyprojectToml)
        } else if present.gemspec {
            Some(ManifestKind::Gemspec)
        } else if present.mix_exs {
            Some(ManifestKind::MixExs)
        } else if present.pubspec_yaml {
            Some(ManifestKind::PubspecYaml)
        } else if present.package_swift {
            Some(ManifestKind::PackageSwift)
        } else if present.version_file {
            Some(ManifestKind::VersionFile)
        } else {
            None
        },
{
    if present.cargo_toml {
        Some(ManifestKind::CargoToml)
    } else if present.package_json {
        Some(ManifestKind::PackageJson)
    } else if present.pyproject_toml {
        Some(ManifestKind::PyprojectToml)
    } else if present.gemspec {
        Some(ManifestKind::Gemspec)
    } else if present.mix_exs {
        Some(ManifestKind::MixExs)
    } else if present.pubspec_yaml {
        Some(ManifestKind::PubspecYaml)
    } else if present.package_swift {
        Some(ManifestKind::PackageSwift)
    } else if present.version_file {
        Some(ManifestKind::VersionFile)
    } else {
        None
    }
}

} // verus!
