//! The semantic-version model and the version resolver: bump arithmetic,
//! normalization of raw version text, and target selection.

use crate::conventional::{BumpLevel, spec_infer_bump};
use crate::filters::CommitFilter;
use crate::git::{GitCommit, GitTag};
use crate::text::{
    ascii_lower_chars, ascii_lower_seq, dec_spec, str_chars, string_from_chars, strip_leading,
    strip_leading_chars, trim_chars, trim_spec, u64_to_chars,
};
use vstd::prelude::*;

verus! {

broadcast use vstd::string::group_string_axioms;

/// A semantic version held as plain values: the three numbers and the raw
/// pre-release and build-metadata texts (empty when absent).
#[derive(Debug, PartialEq, Eq)]
pub struct Version {
    pub major: u64,
    pub minor: u64,
    pub patch: u64,
    pub pre: String,
    pub build: String,
}

impl Clone for Version {
    fn clone(&self) -> (r: Self)
        ensures
            r == *self,
    {
        Version {
            major: self.major,
            minor: self.minor,
            patch: self.patch,
            pre: self.pre.clone(),
            build: self.build.clone(),
        }
    }
}

impl Version {
    /// A plain `major.minor.patch` version without pre-release or build text.
    pub fn new(major: u64, minor: u64, patch: u64) -> (r: Self)
        ensures
            r.major == major && r.minor == minor && r.patch == patch,
            r.pre@ == Seq::<char>::empty() && r.build@ == Seq::<char>::empty(),
    {
        Version { major, minor, patch, pre: String::new(), build: String::new() }
    }
}

/// The rendered form of a version: `major.minor.patch`, then `-pre` when a
/// pre-release is present and `+build` when build metadata is present.
pub open spec fn version_seq(v: Version) -> Seq<char> {
    dec_spec(v.major as nat) + "."@ + dec_spec(v.minor as nat) + "."@ + dec_spec(v.patch as nat)
        + (if v.pre@.len() > 0 {
        "-"@ + v.pre@
    } else {
        Seq::empty()
    }) + (if v.build@.len() > 0 {
        "+"@ + v.build@
    } else {
        Seq::empty()
    })
}

/// Render a version as text.
pub fn format_version(v: &Version) -> (r: String)
    ensures
        r@ == version_seq(*v),
{
    let mut out: Vec<char> = u64_to_chars(v.major);
    let dot = str_chars(".");
    crate::text::push_chars(&mut out, &dot);
    let minor_digits = u64_to_chars(v.minor);
    crate::text::push_chars(&mut out, &minor_digits);
    crate::text::push_chars(&mut out, &dot);
    let patch_digits = u64_to_chars(v.patch);
    crate::text::push_chars(&mut out, &patch_digits);
    let pre_chars = str_chars(v.pre.as_str());
    if pre_chars.len() > 0 {
        let dash = str_chars("-");
        crate::text::push_chars(&mut out, &dash);
        crate::text::push_chars(&mut out, &pre_chars);
    }
    let build_chars = str_chars(v.build.as_str());
    if build_chars.len() > 0 {
        let plus = str_chars("+");
        crate::text::push_chars(&mut out, &plus);
        crate::text::push_chars(&mut out, &build_chars);
    }
    proof {
        assert(out@ =~= version_seq(*v));
    }
    string_from_chars(&out)
}

/// What `semver::Version::parse` makes of a text: `None` for a rejection, or
/// the parts `(major, minor, patch, pre, build)`. A function of the text alone.
pub uninterp spec fn semver_parse(s: Seq<char>) -> Option<(u64, u64, u64, Seq<char>, Seq<char>)>;

/// Relies on semver::Version::parse: strict SemVer 2.0.0 parsing,
/// deterministic in the text; the parts come back as plain values.
#[verifier::external_body]
pub fn parse_semver(s: &str) -> (r: Option<Version>)
    ensures
        r is Some <==> semver_parse(s@) is Some,
        r matches Some(v) ==> semver_parse(s@) matches Some(p) && v.major == p.0 && v.minor == p.1
            && v.patch == p.2 && v.pre@ == p.3 && v.build@ == p.4,
{
    match semver::Version::parse(s) {
        Ok(v) => Some(
            Version {
                major: v.major,
                minor: v.minor,
                patch: v.patch,
                pre: v.pre.as_str().to_string(),
                build: v.build.as_str().to_string(),
            },
        ),
        Err(_) => None,
    }
}

/// The version text a raw string normalizes to: trimmed, leading `v`s stripped.
pub open spec fn normalized_version_text(raw: Seq<char>) -> Seq<char> {
    strip_leading(trim_spec(raw), 'v')
}

/// Normalize raw version text and parse it strictly; rejections name the
/// offending trimmed text.
pub fn normalize_semver(raw: &str) -> (r: Result<Version, String>)
    ensures
        r is Ok <==> semver_parse(normalized_version_text(raw@)) is Some,
        r matches Ok(v) ==> semver_parse(normalized_version_text(raw@)) matches Some(p) && v.major
            == p.0 && v.minor == p.1 && v.patch == p.2 && v.pre@ == p.3 && v.build@ == p.4,
        r matches Err(e) ==> e@ == "Invalid semver '"@ + trim_spec(raw@) + "'"@,
{
    let chars = str_chars(raw);
    let trimmed = trim_chars(&chars);
    let stripped = strip_leading_chars(&trimmed, 'v');
    let text = string_from_chars(&stripped);
    match parse_semver(text.as_str()) {
        Some(v) => Ok(v),
        None => {
            let mut msg: Vec<char> = str_chars("Invalid semver '");
            crate::text::push_chars(&mut msg, &trimmed);
            let quote = str_chars("'");
            crate::text::push_chars(&mut msg, &quote);
            Err(string_from_chars(&msg))
        },
    }
}

/// One bump step applied to a version: the bumped field rises by one, the
/// lower fields reset, pre-release and build text stay.
pub fn bump_semver(current: Version, bump: BumpLevel) -> (r: Version)
    requires
        bump is Major ==> current.major < u64::MAX,
        bump is Minor ==> current.minor < u64::MAX,
        bump is Patch ==> current.patch < u64::MAX,
    ensures
        bump is Major ==> r.major == current.major + 1 && r.minor == 0 && r.patch == 0,
        bump is Minor ==> r.major == current.major && r.minor == current.minor + 1 && r.patch
            == 0,
        bump is Patch ==> r.major == current.major && r.minor == current.minor && r.patch
            == current.patch + 1,
        r.pre == current.pre && r.build == current.build,
{
    let mut next = current;
    match bump {
        BumpLevel::Major => {
            next.major = next.major + 1;
            next.minor = 0;
            next.patch = 0;
        },
        BumpLevel::Minor => {
            next.minor = next.minor + 1;
            next.patch = 0;
        },
        BumpLevel::Patch => {
            next.patch = next.patch + 1;
        },
    }
    next
}

/// What an update aims at: one bump step, or an exact version.
#[derive(Debug)]
pub enum UpdateTarget {
    Bump(BumpLevel),
    Exact(Version),
}

impl Clone for UpdateTarget {
    fn clone(&self) -> (r: Self)
        ensures
            r == *self,
    {
        match self {
            UpdateTarget::Bump(b) => UpdateTarget::Bump(*b),
            UpdateTarget::Exact(v) => UpdateTarget::Exact(v.clone()),
        }
    }
}

/// Whether a bump of `current` at `bump` stays within `u64`.
pub open spec fn bump_fits(current: Version, bump: BumpLevel) -> bool {
    match bump {
        BumpLevel::Major => current.major < u64::MAX,
        BumpLevel::Minor => current.minor < u64::MAX,
        BumpLevel::Patch => current.patch < u64::MAX,
    }
}

/// The version a target resolves to against the current version.
pub open spec fn spec_resolve_target(current: Version, target: UpdateTarget) -> Version {
    match target {
        UpdateTarget::Bump(b) => match b {
            BumpLevel::Major => Version {
                major: (current.major + 1) as u64,
                minor: 0,
                patch: 0,
                pre: current.pre,
                build: current.build,
            },
            BumpLevel::Minor => Version {
                major: current.major,
                minor: (current.minor + 1) as u64,
                patch: 0,
                pre: current.pre,
                build: current.build,
            },
            BumpLevel::Patch => Version {
                major: current.major,
                minor: current.minor,
                patch: (current.patch + 1) as u64,
                pre: current.pre,
                build: current.build,
            },
        },
        UpdateTarget::Exact(v) => v,
    }
}

/// Resolve a target against the current version: a keyword bumps, an exact
/// version replaces.
pub fn resolve_target_version(current: Version, target: &UpdateTarget) -> (r: Version)
    requires
        target matches UpdateTarget::Bump(b) ==> bump_fits(current, *b),
    ensures
        r == spec_resolve_target(current, *target),
{
    match target {
        UpdateTarget::Bump(bump) => bump_semver(current, *bump),
        UpdateTarget::Exact(version) => version.clone(),
    }
}

/// Parse an explicit update target, falling back to the detected bump: the
/// keywords name a bump, case-insensitively; any other text must normalize to
/// a strict version.
pub fn parse_update_target(target: Option<&str>, commits_bump: BumpLevel) -> (r: Result<
    UpdateTarget,
    String,
>)
    ensures
        target is None ==> (r matches Ok(t) && t == UpdateTarget::Bump(commits_bump)),
        target matches Some(raw) ==> {
            let low = ascii_lower_seq(raw@);
            &&& low == "major"@ ==> (r matches Ok(t) && t == UpdateTarget::Bump(BumpLevel::Major))
            &&& low == "minor"@ ==> (r matches Ok(t) && t == UpdateTarget::Bump(BumpLevel::Minor))
            &&& low == "patch"@ ==> (r matches Ok(t) && t == UpdateTarget::Bump(BumpLevel::Patch))
            &&& (low != "major"@ && low != "minor"@ && low != "patch"@) ==> {
                &&& (r is Ok <==> semver_parse(normalized_version_text(raw@)) is Some)
                &&& (r matches Ok(t) ==> (t matches UpdateTarget::Exact(v) && (semver_parse(
                    normalized_version_text(raw@),
                ) matches Some(p) && v.major == p.0 && v.minor == p.1 && v.patch == p.2
                    && v.pre@ == p.3 && v.build@ == p.4)))
                &&& (r matches Err(e) ==> e@ == "Invalid semver '"@ + trim_spec(raw@) + "'"@)
            }
        },
{
    match target {
        None => Ok(UpdateTarget::Bump(commits_bump)),
        Some(raw_target) => {
            proof {
                reveal_strlit("major");
                reveal_strlit("minor");
                reveal_strlit("patch");
                assert("major"@[1] == 'a' && "minor"@[1] == 'i' && "patch"@[1] == 'a');
                assert("major"@[0] == 'm' && "patch"@[0] == 'p');
                assert("major"@ != "minor"@ && "major"@ != "patch"@ && "minor"@ != "patch"@);
            }
            let raw_chars = str_chars(raw_target);
            let low = ascii_lower_chars(&raw_chars);
            let major_kw = str_chars("major");
            let minor_kw = str_chars("minor");
            let patch_kw = str_chars("patch");
            if crate::text::eq_chars(&low, &major_kw) {
                Ok(UpdateTarget::Bump(BumpLevel::Major))
            } else if crate::text::eq_chars(&low, &minor_kw) {
                Ok(UpdateTarget::Bump(BumpLevel::Minor))
            } else if crate::text::eq_chars(&low, &patch_kw) {
                Ok(UpdateTarget::Bump(BumpLevel::Patch))
            } else {
                match normalize_semver(raw_target) {
                    Ok(v) => Ok(UpdateTarget::Exact(v)),
                    Err(e) => Err(e),
                }
            }
        },
    }
}

/// The parts of the newest tag whose name parses as a (possibly `v`-prefixed)
/// version, walking newest to oldest.
pub open spec fn spec_latest_tag_version(names: Seq<Seq<char>>) -> Option<(u64, u64, u64, Seq<char>, Seq<char>)>
    decreases names.len(),
{
    if names.len() == 0 {
        None
    } else {
        match semver_parse(normalized_version_text(names[0])) {
            Some(p) => Some(p),
            None => spec_latest_tag_version(names.drop_first()),
        }
    }
}

/// The version of the newest parsable tag, or `0.0.0` when no tag parses.
/// The tags come newest first, as the history provider lists them.
pub fn latest_tag_version(tags: &Vec<GitTag>) -> (r: Version)
    ensures
        match spec_latest_tag_version(tags@.map_values(|t: GitTag| t.name@)) {
            Some(p) => r.major == p.0 && r.minor == p.1 && r.patch == p.2 && r.pre@ == p.3
                && r.build@ == p.4,
            None => r.major == 0 && r.minor == 0 && r.patch == 0 && r.pre@
                == Seq::<char>::empty() && r.build@ == Seq::<char>::empty(),
        },
{
    let ghost names = tags@.map_values(|t: GitTag| t.name@);
    let mut i: usize = 0;
    proof {
        assert(names.skip(0) =~= names);
    }
    while i < tags.len()
        invariant
            names == tags@.map_values(|t: GitTag| t.name@),
            i <= tags@.len(),
            spec_latest_tag_version(names) == spec_latest_tag_version(names.skip(i as int)),
        decreases tags@.len() - i,
    {
        proof {
            assert(names.skip(i as int)[0] == names[i as int]);
            assert(names.skip(i as int).drop_first() =~= names.skip(i + 1));
        }
        match normalize_semver(tags[i].name.as_str()) {
            Ok(v) => {
                return v;
            },
            Err(_) => {},
        }
        i = i + 1;
    }
    proof {
        assert(spec_latest_tag_version(names.skip(tags@.len() as int)) is None);
    }
    Version::new(0, 0, 0)
}

/// A pattern text with backslash escapes resolved: each `\` takes the next
/// character literally; a trailing lone `\` is dropped.
pub open spec fn unescape_spec(s: Seq<char>) -> Seq<char>
    decreases s.len(),
{
    if s.len() == 0 {
        s
    } else if s[0] == '\\' {
        if s.len() >= 2 {
            seq![s[1]] + unescape_spec(s.skip(2))
        } else {
            Seq::empty()
        }
    } else {
        seq![s[0]] + unescape_spec(s.skip(1))
    }
}

fn unescape_chars(s: &Vec<char>) -> (r: Vec<char>)
    ensures
        r@ == unescape_spec(s@),
{
    let n: usize = s.len();
    let mut out: Vec<char> = Vec::new();
    let mut i: usize = 0;
    proof {
        assert(s@.skip(0) =~= s@);
        assert(out@ + unescape_spec(s@) =~= unescape_spec(s@));
    }
    while i < n
        invariant
            n == s@.len(),
            i <= n,
            unescape_spec(s@) == out@ + unescape_spec(s@.skip(i as int)),
        decreases n - i,
    {
        let ghost prev = i as int;
        let ghost rest = s@.skip(prev);
        let ghost prev_out = out@;
        if s[i] == '\\' {
            if i + 1 < n {
                out.push(s[i + 1]);
                i = i + 2;
                proof {
                    assert(rest[0] == '\\' && rest.len() >= 2);
                    assert(rest.skip(2) =~= s@.skip(prev + 2));
                    assert(prev_out + (seq![s@[prev + 1]] + unescape_spec(s@.skip(i as int)))
                        =~= out@ + unescape_spec(s@.skip(i as int)));
                }
            } else {
                i = i + 1;
                proof {
                    assert(rest[0] == '\\' && rest.len() == 1);
                    assert(unescape_spec(rest) =~= Seq::<char>::empty());
                    assert(s@.skip(i as int).len() == 0);
                    assert(prev_out + Seq::<char>::empty() =~= prev_out);
                    assert(prev_out + unescape_spec(s@.skip(i as int)) =~= prev_out);
                }
            }
        } else {
            out.push(s[i]);
            i = i + 1;
            proof {
                assert(rest[0] == s@[prev] && rest[0] != '\\');
                assert(rest.skip(1) =~= s@.skip(prev + 1));
                assert(prev_out + (seq![s@[prev]] + unescape_spec(s@.skip(i as int))) =~= out@
                    + unescape_spec(s@.skip(i as int)));
            }
        }
    }
    proof {
        assert(s@.skip(n as int).len() == 0);
        assert(out@ + unescape_spec(s@.skip(n as int)) =~= out@);
    }
    out
}

/// The pattern without one leading `^` and one trailing `$`.
pub open spec fn bare_pattern(pattern: Seq<char>) -> Seq<char> {
    let s1 = if pattern.len() > 0 && pattern[0] == '^' {
        pattern.drop_first()
    } else {
        pattern
    };
    if s1.len() > 0 && s1.last() == '$' {
        s1.drop_last()
    } else {
        s1
    }
}

/// The candidate tag names derived for a version: the pattern's unescaped
/// literal prefix and suffix around the version placeholder when the pattern
/// holds one, then `v`-prefixed, then the bare version.
pub open spec fn tag_candidates(pattern: Seq<char>, version: Seq<char>) -> Seq<Seq<char>> {
    let raw = bare_pattern(pattern);
    let placeholder = "\\d+\\.\\d+\\.\\d+"@;
    let generated: Seq<Seq<char>> = match crate::text::find_seq(raw, placeholder) {
        Some(i) => seq![
            unescape_spec(raw.take(i)) + version + unescape_spec(raw.skip(i + placeholder.len())),
        ],
        None => Seq::empty(),
    };
    generated + seq!["v"@ + version, version]
}

/// The first candidate the pattern accepts, scanning from `i`.
pub open spec fn first_matching_candidate(
    cands: Seq<Seq<char>>,
    pattern: Seq<char>,
    i: int,
) -> Option<Seq<char>>
    decreases cands.len() - i,
{
    if i < 0 || i >= cands.len() {
        None
    } else if crate::filters::regex_match(pattern, cands[i]) {
        Some(cands[i])
    } else {
        first_matching_candidate(cands, pattern, i + 1)
    }
}

/// Derive the tag name for a version from the configured tag pattern: the
/// first derived candidate the pattern accepts.
#[verifier::loop_isolation(false)]
pub fn derive_tag_name(tag_pattern: &str, version: &str) -> (r: Result<String, String>)
    ensures
        !crate::filters::regex_ok(tag_pattern@) ==> (r matches Err(e) && e@
            == "Invalid tag regex pattern: "@ + tag_pattern@),
        crate::filters::regex_ok(tag_pattern@) ==> {
            let goal = first_matching_candidate(tag_candidates(tag_pattern@, version@), tag_pattern@, 0);
            &&& (r is Ok <==> goal is Some)
            &&& (r matches Ok(t) ==> goal == Some(t@))
            &&& (r matches Err(e) ==> e@ == "Cannot derive tag from pattern '"@ + tag_pattern@
                + "' for version "@ + version@)
        },
{
    match crate::filters::regex_compile_check(tag_pattern) {
        Ok(_) => {},
        Err(_) => {
            let mut msg: Vec<char> = str_chars("Invalid tag regex pattern: ");
            let pat_chars = str_chars(tag_pattern);
            crate::text::push_chars(&mut msg, &pat_chars);
            return Err(string_from_chars(&msg));
        },
    }
    let pattern_chars = str_chars(tag_pattern);
    let version_chars = str_chars(version);

    let mut raw = if pattern_chars.len() > 0 && pattern_chars[0] == '^' {
        crate::text::sub_chars(&pattern_chars, 1, pattern_chars.len())
    } else {
        crate::text::sub_chars(&pattern_chars, 0, pattern_chars.len())
    };
    proof {
        if pattern_chars@.len() > 0 && pattern_chars@[0] == '^' {
            assert(raw@ =~= tag_pattern@.drop_first());
        } else {
            assert(raw@ =~= tag_pattern@);
        }
    }
    if raw.len() > 0 && raw[raw.len() - 1] == '$' {
        let newlen = raw.len() - 1;
        let shorter = crate::text::sub_chars(&raw, 0, newlen);
        proof {
            assert(shorter@ =~= raw@.drop_last());
        }
        raw = shorter;
    }
    proof {
        assert(raw@ == bare_pattern(tag_pattern@));
    }

    let placeholder = str_chars("\\d+\\.\\d+\\.\\d+");
    let mut candidates: Vec<String> = Vec::new();
    match crate::text::find_in(&raw, &placeholder) {
        Some(i) => {
            proof {
                crate::text::lemma_find_from_properties(raw@, placeholder@, 0);
            }
            let prefix = unescape_chars(&crate::text::sub_chars(&raw, 0, i));
            let suffix = unescape_chars(&crate::text::sub_chars(&raw, i + placeholder.len(), raw.len()));
            let mut generated: Vec<char> = prefix;
            crate::text::push_chars(&mut generated, &version_chars);
            crate::text::push_chars(&mut generated, &suffix);
            proof {
                assert(raw@.subrange(0, i as int) =~= raw@.take(i as int));
                assert(raw@.subrange(i + placeholder@.len(), raw@.len() as int) =~= raw@.skip(
                    i + placeholder@.len(),
                ));
            }
            candidates.push(string_from_chars(&generated));
        },
        None => {},
    }
    let mut v_prefixed: Vec<char> = str_chars("v");
    crate::text::push_chars(&mut v_prefixed, &version_chars);
    candidates.push(string_from_chars(&v_prefixed));
    candidates.push(String::from_str(version));
    proof {
        assert(candidates@.map_values(|c: String| c@) =~= tag_candidates(
            tag_pattern@,
            version@,
        ));
    }

    let ghost cands = tag_candidates(tag_pattern@, version@);
    let mut k: usize = 0;
    while k < candidates.len()
        invariant
            candidates@.map_values(|c: String| c@) == cands,
            k <= cands.len(),
            first_matching_candidate(cands, tag_pattern@, 0) == first_matching_candidate(
                cands,
                tag_pattern@,
                k as int,
            ),
        decreases cands.len() - k,
    {
        proof {
            assert(cands[k as int] == candidates@[k as int]@);
        }
        if crate::filters::regex_is_match(tag_pattern, candidates[k].as_str()) {
            let found = candidates[k].clone();
            return Ok(found);
        }
        k = k + 1;
    }
    proof {
        assert(first_matching_candidate(cands, tag_pattern@, k as int) is None);
    }
    let mut msg: Vec<char> = str_chars("Cannot derive tag from pattern '");
    crate::text::push_chars(&mut msg, &pattern_chars);
    let mid = str_chars("' for version ");
    crate::text::push_chars(&mut msg, &mid);
    crate::text::push_chars(&mut msg, &version_chars);
    Err(string_from_chars(&msg))
}

/// The aggregate bump of a commit stream: the maximum bump level over the
/// commits the filter keeps, `Patch` when none is kept.
pub open spec fn spec_detect_bump(commits: Seq<GitCommit>, patterns: Seq<Seq<char>>) -> BumpLevel
    decreases commits.len(),
{
    if commits.len() == 0 {
        BumpLevel::Patch
    } else {
        let rest = spec_detect_bump(commits.drop_first(), patterns);
        if CommitFilter::spec_is_ignored(patterns, commits[0].subject@) {
            rest
        } else {
            let own = spec_infer_bump(commits[0].subject@, commits[0].body@);
            if crate::conventional::bump_rank(own) >= crate::conventional::bump_rank(rest) {
                own
            } else {
                rest
            }
        }
    }
}

/// Aggregate the bump level over a commit stream, ignoring filtered commits.
pub fn detect_bump(commits: &Vec<GitCommit>, filter: &CommitFilter) -> (r: BumpLevel)
    requires
        filter.wf(),
    ensures
        r == spec_detect_bump(commits@, filter@),
{
    let mut bump = BumpLevel::Patch;
    let mut i: usize = commits.len();
    proof {
        assert(commits@.skip(i as int).len() == 0);
    }
    while i > 0
        invariant
            filter.wf(),
            i <= commits@.len(),
            bump == spec_detect_bump(commits@.skip(i as int), filter@),
        decreases i,
    {
        i = i - 1;
        proof {
            assert(commits@.skip(i as int)[0] == commits@[i as int]);
            assert(commits@.skip(i as int).drop_first() =~= commits@.skip(i + 1));
        }
        let c = &commits[i];
        if !filter.is_ignored(c.subject.as_str()) {
            let own = crate::conventional::infer_bump(c.subject.as_str(), c.body.as_str());
            bump = own.max(bump);
        }
    }
    proof {
        assert(commits@.skip(0) =~= commits@);
    }
    bump
}

} // verus!
