//! The command-line surface: argument records for each subcommand and a
//! parser for the tool's grammar, with the flag conflicts and requirements
//! checked before any work starts.

use crate::text::{eq_chars, str_chars};
use vstd::prelude::*;

verus! {

/// Arguments of the `semver` subcommand.
#[derive(Debug)]
pub struct SemverArgs {
    /// Override start tag instead of auto-detecting the latest version tag.
    pub from_tag: Option<String>,
}

/// Arguments of the `version` subcommand.
#[derive(Debug)]
pub struct VersionArgs {
    /// Override start tag instead of auto-detecting the latest version tag.
    pub from_tag: Option<String>,
}

/// Arguments of the `update` subcommand.
#[derive(Debug)]
pub struct UpdateArgs {
    /// Optional explicit update target: a bump keyword or a version.
    pub target: Option<String>,
    /// Override start tag instead of auto-detecting the latest version tag.
    pub from_tag: Option<String>,
    /// Auto-commit the updated version file.
    pub commit: bool,
    /// Custom commit message; only together with `commit`.
    pub commit_message: Option<String>,
    /// Create a tag for the new version; only together with `commit`.
    pub tag: bool,
}

impl Default for UpdateArgs {
    fn default() -> (r: Self)
        ensures
            r.target is None && r.from_tag is None && !r.commit && r.commit_message is None
                && !r.tag,
    {
        UpdateArgs { target: None, from_tag: None, commit: false, commit_message: None, tag: false }
    }
}

/// Arguments of the `changelog` subcommand.
#[derive(Debug)]
pub struct ChangelogArgs {
    /// Optional explicit changelog target; excluded by `rebuild`.
    pub target: Option<String>,
    /// Regenerate the whole changelog from the first commit.
    pub rebuild: bool,
    /// Auto-commit when the changelog is the only changed file; excluded by
    /// `dry_run`.
    pub commit: bool,
    /// Custom commit message; only together with `commit`.
    pub commit_message: Option<String>,
    /// Preview without writing files; excluded by `commit`.
    pub dry_run: bool,
}

impl Default for ChangelogArgs {
    fn default() -> (r: Self)
        ensures
            r.target is None && !r.rebuild && !r.commit && r.commit_message is None && !r.dry_run,
    {
        ChangelogArgs {
            target: None,
            rebuild: false,
            commit: false,
            commit_message: None,
            dry_run: false,
        }
    }
}

/// Arguments of the `release` subcommand.
#[derive(Debug)]
pub struct ReleaseArgs {
    /// Optional explicit release target; excluded by `rebuild`.
    pub target: Option<String>,
    /// Delete and recreate the remote releases from scratch.
    pub rebuild: bool,
    /// Print only the notes of the latest release; excludes the remote flags.
    pub notes_only: bool,
    /// Override the release-store token.
    pub token: Option<String>,
    /// Override the release-store owner.
    pub owner: Option<String>,
    /// Override the release-store repository.
    pub repo: Option<String>,
    /// Preview release actions without remote calls.
    pub dry_run: bool,
    /// Mark the release as a pre-release; needs an explicit target.
    pub prerelease: bool,
}

impl Default for ReleaseArgs {
    fn default() -> (r: Self)
        ensures
            r.target is None && !r.rebuild && !r.notes_only && r.token is None && r.owner is None
                && r.repo is None && !r.dry_run && !r.prerelease,
    {
        ReleaseArgs {
            target: None,
            rebuild: false,
            notes_only: false,
            token: None,
            owner: None,
            repo: None,
            dry_run: false,
            prerelease: false,
        }
    }
}

/// The chosen subcommand with its arguments.
#[derive(Debug)]
pub enum Command {
    Version(VersionArgs),
    Semver(SemverArgs),
    Update(UpdateArgs),
    Changelog(ChangelogArgs),
    Release(ReleaseArgs),
}

impl Command {
    /// The subcommand's name.
    pub fn name(&self) -> (r: &'static str)
        ensures
            self is Version ==> r@ == "version"@,
            self is Semver ==> r@ == "semver"@,
            self is Update ==> r@ == "update"@,
            self is Changelog ==> r@ == "changelog"@,
            self is Release ==> r@ == "release"@,
    {
        match self {
            Self::Version(_) => "version",
            Self::Semver(_) => "semver",
            Self::Update(_) => "update",
            Self::Changelog(_) => "changelog",
            Self::Release(_) => "release",
        }
    }
}

/// The whole invocation: global options and one subcommand.
#[derive(Debug)]
pub struct Args {
    /// Optional explicit configuration file path.
    pub config: Option<String>,
    /// Override of the release-tag matcher pattern.
    pub tag_pattern: Option<String>,
    /// Verbose output.
    pub verbose: bool,
    pub command: Command,
}

/// A parsed `Args` value respects the grammar's flag requirements and
/// exclusions.
pub open spec fn args_well_formed(a: Args) -> bool {
    match a.command {
        Command::Version(_) => true,
        Command::Semver(_) => true,
        Command::Update(u) => (u.commit_message is Some ==> u.commit) && (u.tag ==> u.commit),
        Command::Changelog(c) => (c.commit_message is Some ==> c.commit) && !(c.commit
            && c.dry_run) && (c.rebuild ==> c.target is None),
        Command::Release(r) => (r.rebuild ==> r.target is None) && (r.notes_only ==> !r.rebuild
            && r.token is None && r.owner is None && r.repo is None && !r.dry_run),
    }
}

/// The two texts are equal.
fn tok_is(t: &str, w: &str) -> (r: bool)
    ensures
        r == (t@ == w@),
{
    let a = str_chars(t);
    let b = str_chars(w);
    eq_chars(&a, &b)
}

/// The text opens with `-`, marking a flag.
fn is_flag(t: &str) -> (r: bool) {
    let chars = str_chars(t);
    chars.len() > 0 && chars[0] == '-'
}

impl Args {
    /// Parse an invocation, the leading element being the program name. The
    /// returned arguments respect every flag requirement and exclusion; any
    /// unknown token, missing value, or conflicting pair is rejected with a
    /// message naming it.
    pub fn try_parse_from(args: &[&str]) -> (r: Result<Args, String>)
    ensures
        r matches Ok(a) ==> args_well_formed(a),
        args@.len() == 0 ==> r is Err,
{
    if args.len() == 0 {
        return Err(String::from_str("missing program name"));
    }
    let mut config: Option<String> = None;
    let mut tag_pattern: Option<String> = None;
    let mut verbose = false;
    let mut i: usize = 1;
    // Global options may stand before the subcommand.
    while i < args.len()
        invariant
            1 <= i <= args@.len(),
        decreases args@.len() - i,
    {
        let t = args[i];
        if tok_is(t, "-c") || tok_is(t, "--config") {
            if i + 1 >= args.len() {
                return Err(String::from_str("missing value for --config"));
            }
            config = Some(String::from_str(args[i + 1]));
            i = i + 2;
        } else if tok_is(t, "-p") || tok_is(t, "--tag-pattern") {
            if i + 1 >= args.len() {
                return Err(String::from_str("missing value for --tag-pattern"));
            }
            tag_pattern = Some(String::from_str(args[i + 1]));
            i = i + 2;
        } else if tok_is(t, "-v") || tok_is(t, "--verbose") {
            verbose = true;
            i = i + 1;
        } else if is_flag(t) {
            return Err(String::from_str("unexpected option before a subcommand"));
        } else {
            // The subcommand token.
            let rest_start = i + 1;
            let command: Command;
            if tok_is(t, "version") || tok_is(t, "v") {
                match parse_plain_tail(args, rest_start, &mut config, &mut tag_pattern) {
                    Ok((from_tag, vflag)) => {
                        verbose = verbose || vflag;
                        command = Command::Version(VersionArgs { from_tag });
                    },
                    Err(e) => {
                        return Err(e);
                    },
                }
            } else if tok_is(t, "semver") || tok_is(t, "s") {
                match parse_plain_tail(args, rest_start, &mut config, &mut tag_pattern) {
                    Ok((from_tag, vflag)) => {
                        verbose = verbose || vflag;
                        command = Command::Semver(SemverArgs { from_tag });
                    },
                    Err(e) => {
                        return Err(e);
                    },
                }
            } else if tok_is(t, "update") || tok_is(t, "u") {
                match parse_update_tail(args, rest_start, &mut config, &mut tag_pattern) {
                    Ok((update_args, vflag)) => {
                        verbose = verbose || vflag;
                        command = Command::Update(update_args);
                    },
                    Err(e) => {
                        return Err(e);
                    },
                }
            } else if tok_is(t, "changelog") || tok_is(t, "c") {
                match parse_changelog_tail(args, rest_start, &mut config, &mut tag_pattern) {
                    Ok((changelog_args, vflag)) => {
                        verbose = verbose || vflag;
                        command = Command::Changelog(changelog_args);
                    },
                    Err(e) => {
                        return Err(e);
                    },
                }
            } else if tok_is(t, "release") || tok_is(t, "r") {
                match parse_release_tail(args, rest_start, &mut config, &mut tag_pattern) {
                    Ok((release_args, vflag)) => {
                        verbose = verbose || vflag;
                        command = Command::Release(release_args);
                    },
                    Err(e) => {
                        return Err(e);
                    },
                }
            } else {
                return Err(String::from_str("unknown subcommand"));
            }
            return Ok(Args { config, tag_pattern, verbose, command });
        }
    }
        Err(String::from_str("missing subcommand"))
    }
}

/// Consume a global option if `t` names one, returning how many tokens it
/// took; `0` means the token is no global option.
fn take_global(
    args: &[&str],
    i: usize,
    config: &mut Option<String>,
    tag_pattern: &mut Option<String>,
    verbose: &mut bool,
) -> (r: Result<usize, String>)
    requires
        i < args@.len(),
    ensures
        r matches Ok(n) ==> 1 <= n <= 2 || n == 0,
        r matches Ok(n) ==> (n == 2 ==> i + 1 < args@.len()),
{
    let t = args[i];
    if tok_is(t, "-c") || tok_is(t, "--config") {
        if i + 1 >= args.len() {
            return Err(String::from_str("missing value for --config"));
        }
        *config = Some(String::from_str(args[i + 1]));
        Ok(2)
    } else if tok_is(t, "-p") || tok_is(t, "--tag-pattern") {
        if i + 1 >= args.len() {
            return Err(String::from_str("missing value for --tag-pattern"));
        }
        *tag_pattern = Some(String::from_str(args[i + 1]));
        Ok(2)
    } else if tok_is(t, "-v") || tok_is(t, "--verbose") {
        *verbose = true;
        Ok(1)
    } else {
        Ok(0)
    }
}

/// Parse the tail of `version` or `semver`: only `--from-tag` and globals.
fn parse_plain_tail(
    args: &[&str],
    start: usize,
    config: &mut Option<String>,
    tag_pattern: &mut Option<String>,
) -> (r: Result<(Option<String>, bool), String>)
{
    let mut from_tag: Option<String> = None;
    let mut verbose = false;
    let mut i: usize = start;
    while i < args.len()
        invariant
            i >= start,
        decreases args@.len() - i,
    {
        let t = args[i];
        match take_global(args, i, config, tag_pattern, &mut verbose) {
            Ok(0) => {
                if tok_is(t, "-f") || tok_is(t, "--from-tag") {
                    if i + 1 >= args.len() {
                        return Err(String::from_str("missing value for --from-tag"));
                    }
                    from_tag = Some(String::from_str(args[i + 1]));
                    i = i + 2;
                } else {
                    return Err(String::from_str("unexpected argument"));
                }
            },
            Ok(n) => {
                i = i + n;
            },
            Err(e) => {
                return Err(e);
            },
        }
    }
    Ok((from_tag, verbose))
}

/// Parse the tail of `update`: a positional target, `--from-tag`, `--commit`,
/// `--commit-message`, `--tag`, and globals.
fn parse_update_tail(
    args: &[&str],
    start: usize,
    config: &mut Option<String>,
    tag_pattern: &mut Option<String>,
) -> (r: Result<(UpdateArgs, bool), String>)
    ensures
        r matches Ok(p) ==> (p.0.commit_message is Some ==> p.0.commit) && (p.0.tag
            ==> p.0.commit),
{
    let mut target: Option<String> = None;
    let mut from_tag: Option<String> = None;
    let mut commit = false;
    let mut commit_message: Option<String> = None;
    let mut tag = false;
    let mut verbose = false;
    let mut i: usize = start;
    while i < args.len()
        invariant
            i >= start,
        decreases args@.len() - i,
    {
        let t = args[i];
        match take_global(args, i, config, tag_pattern, &mut verbose) {
            Ok(0) => {
                if tok_is(t, "-f") || tok_is(t, "--from-tag") {
                    if i + 1 >= args.len() {
                        return Err(String::from_str("missing value for --from-tag"));
                    }
                    from_tag = Some(String::from_str(args[i + 1]));
                    i = i + 2;
                } else if tok_is(t, "-o") || tok_is(t, "--commit") {
                    commit = true;
                    i = i + 1;
                } else if tok_is(t, "-m") || tok_is(t, "--commit-message") {
                    if i + 1 >= args.len() {
                        return Err(String::from_str("missing value for --commit-message"));
                    }
                    commit_message = Some(String::from_str(args[i + 1]));
                    i = i + 2;
                } else if tok_is(t, "-t") || tok_is(t, "--tag") {
                    tag = true;
                    i = i + 1;
                } else if is_flag(t) {
                    return Err(String::from_str("unexpected option"));
                } else if target.is_none() {
                    target = Some(String::from_str(t));
                    i = i + 1;
                } else {
                    return Err(String::from_str("unexpected extra argument"));
                }
            },
            Ok(n) => {
                i = i + n;
            },
            Err(e) => {
                return Err(e);
            },
        }
    }
    if commit_message.is_some() && !commit {
        return Err(String::from_str("--commit-message requires --commit"));
    }
    if tag && !commit {
        return Err(String::from_str("--tag requires --commit"));
    }
    Ok((UpdateArgs { target, from_tag, commit, commit_message, tag }, verbose))
}

/// Parse the tail of `changelog`: a positional target, `--rebuild`,
/// `--commit`, `--commit-message`, `--dry-run`, and globals.
fn parse_changelog_tail(
    args: &[&str],
    start: usize,
    config: &mut Option<String>,
    tag_pattern: &mut Option<String>,
) -> (r: Result<(ChangelogArgs, bool), String>)
    ensures
        r matches Ok(p) ==> (p.0.commit_message is Some ==> p.0.commit) && !(p.0.commit
            && p.0.dry_run) && (p.0.rebuild ==> p.0.target is None),
{
    let mut target: Option<String> = None;
    let mut rebuild = false;
    let mut commit = false;
    let mut commit_message: Option<String> = None;
    let mut dry_run = false;
    let mut verbose = false;
    let mut i: usize = start;
    while i < args.len()
        invariant
            i >= start,
        decreases args@.len() - i,
    {
        let t = args[i];
        match take_global(args, i, config, tag_pattern, &mut verbose) {
            Ok(0) => {
                if tok_is(t, "-r") || tok_is(t, "--rebuild") {
                    rebuild = true;
                    i = i + 1;
                } else if tok_is(t, "-o") || tok_is(t, "--commit") {
                    commit = true;
                    i = i + 1;
                } else if tok_is(t, "-m") || tok_is(t, "--commit-message") {
                    if i + 1 >= args.len() {
                        return Err(String::from_str("missing value for --commit-message"));
                    }
                    commit_message = Some(String::from_str(args[i + 1]));
                    i = i + 2;
                } else if tok_is(t, "-d") || tok_is(t, "--dry-run") {
                    dry_run = true;
                    i = i + 1;
                } else if is_flag(t) {
                    return Err(String::from_str("unexpected option"));
                } else if target.is_none() {
                    target = Some(String::from_str(t));
                    i = i + 1;
                } else {
                    return Err(String::from_str("unexpected extra argument"));
                }
            },
            Ok(n) => {
                i = i + n;
            },
            Err(e) => {
                return Err(e);
            },
        }
    }
    if commit_message.is_some() && !commit {
        return Err(String::from_str("--commit-message requires --commit"));
    }
    if commit && dry_run {
        return Err(String::from_str("--commit excludes --dry-run"));
    }
    if rebuild && target.is_some() {
        return Err(String::from_str("--rebuild excludes an explicit target"));
    }
    Ok((ChangelogArgs { target, rebuild, commit, commit_message, dry_run }, verbose))
}

/// Parse the tail of `release`: a positional target, `--rebuild`,
/// `--notes-only`, the remote overrides, `--dry-run`, `--prerelease`,
/// and globals.
fn parse_release_tail(
    args: &[&str],
    start: usize,
    config: &mut Option<String>,
    tag_pattern: &mut Option<String>,
) -> (r: Result<(ReleaseArgs, bool), String>)
    ensures
        r matches Ok(p) ==> (p.0.rebuild ==> p.0.target is None) && (p.0.notes_only
            ==> !p.0.rebuild && p.0.token is None && p.0.owner is None && p.0.repo is None
            && !p.0.dry_run),
{
    let mut target: Option<String> = None;
    let mut rebuild = false;
    let mut notes_only = false;
    let mut token: Option<String> = None;
    let mut owner: Option<String> = None;
    let mut repo: Option<String> = None;
    let mut dry_run = false;
    let mut prerelease = false;
    let mut verbose = false;
    let mut i: usize = start;
    while i < args.len()
        invariant
            i >= start,
        decreases args@.len() - i,
    {
        let t = args[i];
        match take_global(args, i, config, tag_pattern, &mut verbose) {
            Ok(0) => {
                if tok_is(t, "-r") || tok_is(t, "--rebuild") {
                    rebuild = true;
                    i = i + 1;
                } else if tok_is(t, "-n") || tok_is(t, "--notes-only") {
                    notes_only = true;
                    i = i + 1;
                } else if tok_is(t, "-t") || tok_is(t, "--token") {
                    if i + 1 >= args.len() {
                        return Err(String::from_str("missing value for --token"));
                    }
                    token = Some(String::from_str(args[i + 1]));
                    i = i + 2;
                } else if tok_is(t, "-o") || tok_is(t, "--owner") {
                    if i + 1 >= args.len() {
                        return Err(String::from_str("missing value for --owner"));
                    }
                    owner = Some(String::from_str(args[i + 1]));
                    i = i + 2;
                } else if tok_is(t, "-u") || tok_is(t, "--repo") {
                    if i + 1 >= args.len() {
                        return Err(String::from_str("missing value for --repo"));
                    }
                    repo = Some(String::from_str(args[i + 1]));
                    i = i + 2;
                } else if tok_is(t, "-d") || tok_is(t, "--dry-run") {
                    dry_run = true;
                    i = i + 1;
                } else if tok_is(t, "-a") || tok_is(t, "--prerelease") {
                    prerelease = true;
                    i = i + 1;
                } else if is_flag(t) {
                    return Err(String::from_str("unexpected option"));
                } else if target.is_none() {
                    target = Some(String::from_str(t));
                    i = i + 1;
                } else {
                    return Err(String::from_str("unexpected extra argument"));
                }
            },
            Ok(n) => {
                i = i + n;
            },
            Err(e) => {
                return Err(e);
            },
        }
    }
    if rebuild && target.is_some() {
        return Err(String::from_str("--rebuild excludes an explicit target"));
    }
    if notes_only && (rebuild || dry_run) {
        return Err(String::from_str("--notes-only excludes --rebuild and --dry-run"));
    }
    if notes_only && (token.is_some() || owner.is_some() || repo.is_some()) {
        return Err(String::from_str("--notes-only excludes the remote overrides"));
    }
    Ok(
        (
            ReleaseArgs { target, rebuild, notes_only, token, owner, repo, dry_run, prerelease },
            verbose,
        ),
    )
}

} // verus!
