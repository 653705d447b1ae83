//! Configuration merging: file values, environment values and flag overrides
//! folded into one effective configuration, flags winning over environment,
//! environment over file, file over defaults.

use crate::text::{ascii_lower_seq, split_chars, split_spec, str_chars, string_from_chars, trim_chars, trim_spec};
use vstd::prelude::*;

verus! {

broadcast use vstd::string::group_string_axioms;

/// What a configuration file may set.
#[derive(Debug)]
pub struct FileConfig {
    pub token: Option<String>,
    pub owner: Option<String>,
    pub repo: Option<String>,
    pub tag_pattern: Option<String>,
    pub changelog_template: Option<String>,
    pub ignore_patterns: Option<Vec<String>>,
}

impl Default for FileConfig {
    fn default() -> (r: Self)
        ensures
            r.token is None && r.owner is None && r.repo is None && r.tag_pattern is None
                && r.changelog_template is None && r.ignore_patterns is None,
    {
        FileConfig {
            token: None,
            owner: None,
            repo: None,
            tag_pattern: None,
            changelog_template: None,
            ignore_patterns: None,
        }
    }
}

/// What the command line may override.
#[derive(Debug)]
pub struct ConfigOverrides {
    pub token: Option<String>,
    pub owner: Option<String>,
    pub repo: Option<String>,
    pub tag_pattern: Option<String>,
    pub verbose: Option<bool>,
}

impl Default for ConfigOverrides {
    fn default() -> (r: Self)
        ensures
            r.token is None && r.owner is None && r.repo is None && r.tag_pattern is None
                && r.verbose is None,
    {
        ConfigOverrides { token: None, owner: None, repo: None, tag_pattern: None, verbose: None }
    }
}

/// The configuration a run works with.
#[derive(Debug)]
pub struct EffectiveConfig {
    pub token: Option<String>,
    pub owner: Option<String>,
    pub repo: Option<String>,
    pub tag_pattern: String,
    pub changelog_template: Option<String>,
    pub ignore_patterns: Vec<String>,
    pub verbose: bool,
}

/// The view of an optional text.
pub open spec fn ov(o: Option<String>) -> Option<Seq<char>> {
    match o {
        Some(s) => Some(s@),
        None => None,
    }
}

/// The first value bound to `key` in the environment pairs.
pub open spec fn env_get(env: Seq<(Seq<char>, Seq<char>)>, key: Seq<char>) -> Option<Seq<char>>
    decreases env.len(),
{
    if env.len() == 0 {
        None
    } else if env[0].0 == key {
        Some(env[0].1)
    } else {
        env_get(env.drop_first(), key)
    }
}

/// The first present choice.
pub open spec fn first_of2(a: Option<Seq<char>>, b: Option<Seq<char>>) -> Option<Seq<char>> {
    if a is Some {
        a
    } else {
        b
    }
}

/// The trimmed, non-empty pieces of a `;`-separated list.
pub open spec fn split_patterns(raw: Seq<char>) -> Seq<Seq<char>> {
    split_spec(raw, ';').map_values(|p: Seq<char>| trim_spec(p)).filter(
        |p: Seq<char>| p.len() != 0,
    )
}

/// Look an environment variable up.
fn env_lookup(env: &Vec<(String, String)>, key: &str) -> (r: Option<String>)
    ensures
        ov(r) == env_get(env@.map_values(|p: (String, String)| (p.0@, p.1@)), key@),
{
    let ghost pairs = env@.map_values(|p: (String, String)| (p.0@, p.1@));
    let key_chars = str_chars(key);
    let mut i: usize = 0;
    proof {
        assert(pairs.skip(0) =~= pairs);
    }
    while i < env.len()
        invariant
            pairs == env@.map_values(|p: (String, String)| (p.0@, p.1@)),
            key_chars@ == key@,
            i <= env@.len(),
            env_get(pairs, key@) == env_get(pairs.skip(i as int), key@),
        decreases env@.len() - i,
    {
        proof {
            assert(pairs.skip(i as int)[0] == pairs[i as int]);
            assert(pairs.skip(i as int).drop_first() =~= pairs.skip(i + 1));
        }
        let name_chars = str_chars(env[i].0.as_str());
        if crate::text::eq_chars(&name_chars, &key_chars) {
            return Some(env[i].1.clone());
        }
        i = i + 1;
    }
    proof {
        assert(env_get(pairs.skip(env@.len() as int), key@) is None);
    }
    None
}

/// The overlay's value where it has one, else the base's: the local
/// configuration file wins over the global one, field by field.
pub fn overlay_file_config(base: FileConfig, overlay: FileConfig) -> (r: FileConfig)
    ensures
        r.token == if overlay.token is Some {
            overlay.token
        } else {
            base.token
        },
        r.owner == if overlay.owner is Some {
            overlay.owner
        } else {
            base.owner
        },
        r.repo == if overlay.repo is Some {
            overlay.repo
        } else {
            base.repo
        },
        r.tag_pattern == if overlay.tag_pattern is Some {
            overlay.tag_pattern
        } else {
            base.tag_pattern
        },
        r.changelog_template == if overlay.changelog_template is Some {
            overlay.changelog_template
        } else {
            base.changelog_template
        },
        r.ignore_patterns == if overlay.ignore_patterns is Some {
            overlay.ignore_patterns
        } else {
            base.ignore_patterns
        },
{
    FileConfig {
        token: match overlay.token {
            Some(v) => Some(v),
            None => base.token,
        },
        owner: match overlay.owner {
            Some(v) => Some(v),
            None => base.owner,
        },
        repo: match overlay.repo {
            Some(v) => Some(v),
            None => base.repo,
        },
        tag_pattern: match overlay.tag_pattern {
            Some(v) => Some(v),
            None => base.tag_pattern,
        },
        changelog_template: match overlay.changelog_template {
            Some(v) => Some(v),
            None => base.changelog_template,
        },
        ignore_patterns: match overlay.ignore_patterns {
            Some(v) => Some(v),
            None => base.ignore_patterns,
        },
    }
}

impl EffectiveConfig {
    /// Fold the three sources: flags win over environment variables, those
    /// over the configuration file, and fixed defaults close the gaps.
    #[verifier::loop_isolation(false)]
    pub fn from_sources(
        config: Option<FileConfig>,
        env: &Vec<(String, String)>,
        flags: ConfigOverrides,
    ) -> (r: Self)
        ensures
            ({
                let pairs = env@.map_values(|p: (String, String)| (p.0@, p.1@));
                let file_token = match config {
                    Some(ref c) => ov(c.token),
                    None => None,
                };
                let file_owner = match config {
                    Some(ref c) => ov(c.owner),
                    None => None,
                };
                let file_repo = match config {
                    Some(ref c) => ov(c.repo),
                    None => None,
                };
                let file_pattern = match config {
                    Some(ref c) => ov(c.tag_pattern),
                    None => None,
                };
                let file_template = match config {
                    Some(ref c) => ov(c.changelog_template),
                    None => None,
                };
                &&& ov(r.token) == first_of2(
                    ov(flags.token),
                    first_of2(
                        first_of2(
                            env_get(pairs, "CAMBI_TOKEN"@),
                            env_get(pairs, "GH_RELEASE_TOKEN"@),
                        ),
                        file_token,
                    ),
                )
                &&& ov(r.owner) == first_of2(
                    ov(flags.owner),
                    first_of2(env_get(pairs, "CAMBI_OWNER"@), file_owner),
                )
                &&& ov(r.repo) == first_of2(
                    ov(flags.repo),
                    first_of2(env_get(pairs, "CAMBI_REPO"@), file_repo),
                )
                &&& Some(r.tag_pattern@) == first_of2(
                    first_of2(
                        ov(flags.tag_pattern),
                        first_of2(env_get(pairs, "CAMBI_TAG_PATTERN"@), file_pattern),
                    ),
                    Some("^v\\d+\\.\\d+\\.\\d+$"@),
                )
                &&& ov(r.changelog_template) == first_of2(
                    env_get(pairs, "CAMBI_CHANGELOG_TEMPLATE"@),
                    file_template,
                )
                &&& r.verbose == match flags.verbose {
                    Some(v) => v,
                    None => match env_get(pairs, "CAMBI_VERBOSE"@) {
                        Some(raw) => raw == "1"@ || raw == "true"@ || raw == "yes"@,
                        None => false,
                    },
                }
                &&& (env_get(pairs, "CAMBI_IGNORE_PATTERNS"@) matches Some(raw)
                    ==> r.ignore_patterns@.map_values(|p: String| p@) == split_patterns(raw))
                &&& (env_get(pairs, "CAMBI_IGNORE_PATTERNS"@) is None ==> match config {
                    Some(ref c) => match c.ignore_patterns {
                        Some(ref list) => r.ignore_patterns == *list,
                        None => default_patterns_shape(r.ignore_patterns@.map_values(|p: String| p@)),
                    },
                    None => default_patterns_shape(r.ignore_patterns@.map_values(|p: String| p@)),
                })
            }),
    {
        let file_cfg = match config {
            Some(c) => c,
            None => FileConfig::default(),
        };

        let token = pick3(flags.token, env_lookup(env, "CAMBI_TOKEN"), env_lookup(env, "GH_RELEASE_TOKEN"), file_cfg.token);
        let owner = pick2(flags.owner, env_lookup(env, "CAMBI_OWNER"), file_cfg.owner);
        let repo = pick2(flags.repo, env_lookup(env, "CAMBI_REPO"), file_cfg.repo);

        let tag_pattern = match pick2(
            flags.tag_pattern,
            env_lookup(env, "CAMBI_TAG_PATTERN"),
            file_cfg.tag_pattern,
        ) {
            Some(p) => p,
            None => String::from_str("^v\\d+\\.\\d+\\.\\d+$"),
        };

        let changelog_template = match env_lookup(env, "CAMBI_CHANGELOG_TEMPLATE") {
            Some(v) => Some(v),
            None => file_cfg.changelog_template,
        };

        let ignore_patterns: Vec<String> = match env_lookup(env, "CAMBI_IGNORE_PATTERNS") {
            Some(raw) => split_ignore_patterns(raw.as_str()),
            None => match file_cfg.ignore_patterns {
                Some(list) => list,
                None => default_ignore_patterns(),
            },
        };

        let verbose = match flags.verbose {
            Some(v) => v,
            None => match env_lookup(env, "CAMBI_VERBOSE") {
                Some(raw) => {
                    proof {
                        reveal_strlit("1");
                        reveal_strlit("true");
                        reveal_strlit("yes");
                    }
                    let raw_chars = str_chars(raw.as_str());
                    let one = str_chars("1");
                    let yes_true = str_chars("true");
                    let yes = str_chars("yes");
                    crate::text::eq_chars(&raw_chars, &one) || crate::text::eq_chars(
                        &raw_chars,
                        &yes_true,
                    ) || crate::text::eq_chars(&raw_chars, &yes)
                },
                None => false,
            },
        };

        EffectiveConfig {
            token,
            owner,
            repo,
            tag_pattern,
            changelog_template,
            ignore_patterns,
            verbose,
        }
    }
}

/// `a`, else `b`, else `c`.
fn pick2(a: Option<String>, b: Option<String>, c: Option<String>) -> (r: Option<String>)
    ensures
        ov(r) == first_of2(ov(a), first_of2(ov(b), ov(c))),
{
    match a {
        Some(v) => Some(v),
        None => match b {
            Some(v) => Some(v),
            None => c,
        },
    }
}

/// `a`, else `b`, else `c`, else `d`.
fn pick3(a: Option<String>, b: Option<String>, c: Option<String>, d: Option<String>) -> (r: Option<
    String,
>)
    ensures
        ov(r) == first_of2(ov(a), first_of2(first_of2(ov(b), ov(c)), ov(d))),
{
    match a {
        Some(v) => Some(v),
        None => match b {
            Some(v) => Some(v),
            None => match c {
                Some(v) => Some(v),
                None => d,
            },
        },
    }
}

/// The trimmed, non-empty entries of a `;`-separated pattern list.
fn split_ignore_patterns(raw: &str) -> (r: Vec<String>)
    ensures
        r@.map_values(|p: String| p@) == split_patterns(raw@),
{
    let chars = str_chars(raw);
    let pieces = split_chars(&chars, ';');
    let ghost piece_views = split_spec(raw@, ';');
    let ghost trimmed_views = piece_views.map_values(|p: Seq<char>| trim_spec(p));
    let ghost keep = |p: Seq<char>| p.len() != 0;
    let mut out: Vec<String> = Vec::new();
    let mut i: usize = 0;
    proof {
        reveal(Seq::filter);
        assert(trimmed_views.take(0) =~= Seq::<Seq<char>>::empty());
        assert(out@.map_values(|p: String| p@) =~= trimmed_views.take(0).filter(keep));
    }
    while i < pieces.len()
        invariant
            pieces@.len() == piece_views.len(),
            forall|k: int| 0 <= k < pieces@.len() ==> pieces@[k]@ == piece_views[k],
            trimmed_views == piece_views.map_values(|p: Seq<char>| trim_spec(p)),
            keep == (|p: Seq<char>| p.len() != 0),
            i <= pieces@.len(),
            out@.map_values(|p: String| p@) == trimmed_views.take(i as int).filter(keep),
        decreases pieces@.len() - i,
    {
        let trimmed = trim_chars(&pieces[i]);
        proof {
            assert(trimmed_views.take(i + 1) =~= trimmed_views.take(i as int).push(
                trimmed_views[i as int],
            ));
            trimmed_views.take(i as int).lemma_filter_push(trimmed_views[i as int], keep);
        }
        let ghost prev = out@.map_values(|p: String| p@);
        if trimmed.len() > 0 {
            out.push(string_from_chars(&trimmed));
            proof {
                assert(out@.map_values(|p: String| p@) =~= prev.push(trimmed_views[i as int]));
            }
        }
        i = i + 1;
    }
    proof {
        assert(trimmed_views.take(trimmed_views.len() as int) =~= trimmed_views);
    }
    out
}

/// The seven built-in ignore patterns, in order: fixup and wip commits in
/// every spelling, and merges.
pub open spec fn default_patterns_shape(ps: Seq<Seq<char>>) -> bool {
    ps.len() == 7 && ps[0] == "^.+: fixup$"@ && ps[1] == "^.+: wip$"@ && ps[2] == "^fixup: .+$"@
        && ps[3] == "^wip: .+$"@ && ps[4] == "^fixup$"@ && ps[5] == "^wip$"@ && ps[6]
        == "^Merge .+$"@
}

/// The fixed ignore patterns: fixup and wip commits, and merges.
pub fn default_ignore_patterns() -> (r: Vec<String>)
    ensures
        default_patterns_shape(r@.map_values(|p: String| p@)),
{
    let mut out: Vec<String> = Vec::new();
    out.push(String::from_str("^.+: fixup$"));
    out.push(String::from_str("^.+: wip$"));
    out.push(String::from_str("^fixup: .+$"));
    out.push(String::from_str("^wip: .+$"));
    out.push(String::from_str("^fixup$"));
    out.push(String::from_str("^wip$"));
    out.push(String::from_str("^Merge .+$"));
    proof {
        assert(out@.map_values(|p: String| p@)[0] == "^.+: fixup$"@);
        assert(out@.map_values(|p: String| p@)[1] == "^.+: wip$"@);
        assert(out@.map_values(|p: String| p@)[2] == "^fixup: .+$"@);
        assert(out@.map_values(|p: String| p@)[3] == "^wip: .+$"@);
        assert(out@.map_values(|p: String| p@)[4] == "^fixup$"@);
        assert(out@.map_values(|p: String| p@)[5] == "^wip$"@);
        assert(out@.map_values(|p: String| p@)[6] == "^Merge .+$"@);
    }
    out
}

} // verus!
