//! Release reconciliation: candidates derived from tag windows, and the
//! create/update/delete plan that makes the remote release set match them.

use crate::changelog::{
    TagWindow, apply_default_sorting, bullets_joined, collect_releasable_commits, releasable,
    sort_commits, subjects_of,
};
use crate::filters::CommitFilter;
use crate::text::{
    ends_with_seq, find_from, find_seq, match_at, str_chars, string_from_chars, strip_leading,
    strip_leading_chars,
};
use vstd::prelude::*;

verus! {

broadcast use vstd::string::group_string_axioms;

/// The desired state of one release.
#[derive(Debug)]
pub struct ReleaseCandidate {
    pub tag_name: String,
    pub title: String,
    pub body: String,
}

impl Clone for ReleaseCandidate {
    fn clone(&self) -> (r: Self)
        ensures
            r == *self,
    {
        ReleaseCandidate {
            tag_name: self.tag_name.clone(),
            title: self.title.clone(),
            body: self.body.clone(),
        }
    }
}

/// One release as the remote store reports it.
#[derive(Debug)]
pub struct ExistingRelease {
    pub id: u64,
    pub tag_name: String,
    pub name: Option<String>,
    pub body: Option<String>,
}

impl Clone for ExistingRelease {
    fn clone(&self) -> (r: Self)
        ensures
            r == *self,
    {
        ExistingRelease {
            id: self.id,
            tag_name: self.tag_name.clone(),
            name: match &self.name {
                Some(n) => Some(n.clone()),
                None => None,
            },
            body: match &self.body {
                Some(b) => Some(b.clone()),
                None => None,
            },
        }
    }
}

/// What one create or update call must send.
#[derive(Debug)]
pub struct ReleasePayload {
    pub tag_name: String,
    pub name: String,
    pub body: String,
    pub draft: bool,
    pub prerelease: bool,
}

/// A version with its leading `v`s stripped.
pub fn normalize_release_version(version: &str) -> (r: String)
    ensures
        r@ == strip_leading(version@, 'v'),
{
    let chars = str_chars(version);
    let stripped = strip_leading_chars(&chars, 'v');
    string_from_chars(&stripped)
}

/// The canonical release tag: `v` before the stripped version.
pub fn release_tag(tag: &str) -> (r: String)
    ensures
        r@ == "v"@ + strip_leading(tag@, 'v'),
{
    let mut out: Vec<char> = str_chars("v");
    let chars = str_chars(tag);
    let stripped = strip_leading_chars(&chars, 'v');
    crate::text::push_chars(&mut out, &stripped);
    string_from_chars(&out)
}

/// The release title: the stripped version.
pub fn release_title(tag: &str) -> (r: String)
    ensures
        r@ == strip_leading(tag@, 'v'),
{
    normalize_release_version(tag)
}

/// The body of a release: its subjects as a bullet list, or a placeholder
/// when the window holds no commit.
pub open spec fn spec_release_body(subjects: Seq<Seq<char>>) -> Seq<char> {
    if subjects.len() == 0 {
        "- No notable changes."@
    } else {
        bullets_joined(subjects)
    }
}

pub fn render_release_body(commits: &[String]) -> (r: String)
    ensures
        r@ == spec_release_body(commits@.map_values(|c: String| c@)),
{
    let ghost views = commits@.map_values(|c: String| c@);
    if commits.len() == 0 {
        proof {
            assert(views.len() == 0);
        }
        let placeholder = String::from_str("- No notable changes.");
        return placeholder;
    }
    let nl = str_chars("\n");
    let mut pieces: Vec<Vec<char>> = Vec::new();
    let mut i: usize = 0;
    while i < commits.len()
        invariant
            views == commits@.map_values(|c: String| c@),
            i <= commits@.len(),
            pieces@.len() == i,
            forall|k: int| 0 <= k < i ==> #[trigger] pieces@[k]@ == "- "@ + views[k],
        decreases commits@.len() - i,
    {
        let mut piece: Vec<char> = str_chars("- ");
        let commit_chars = str_chars(commits[i].as_str());
        crate::text::push_chars(&mut piece, &commit_chars);
        pieces.push(piece);
        i = i + 1;
    }
    let joined = crate::text::join_chars(&pieces, &nl);
    proof {
        assert(pieces@.map_values(|p: Vec<char>| p@) =~= views.map_values(
            |c: Seq<char>| "- "@ + c,
        ));
    }
    string_from_chars(&joined)
}

/// The candidate one window produces: canonical tag, stripped title, and the
/// sorted releasable subjects as the body.
pub open spec fn spec_candidate(w: TagWindow, patterns: Seq<Seq<char>>) -> (
    Seq<char>,
    Seq<char>,
    Seq<char>,
) {
    let kept = w.commits@.filter(|c: crate::git::GitCommit| releasable(patterns, c));
    (
        "v"@ + strip_leading(w.tag_name@, 'v'),
        strip_leading(w.tag_name@, 'v'),
        spec_release_body(subjects_of(sort_commits(kept))),
    )
}

/// Build one release candidate per window, in the windows' given order.
#[verifier::loop_isolation(false)]
pub fn build_release_candidates(windows: &Vec<TagWindow>, filter: &CommitFilter) -> (r: Vec<
    ReleaseCandidate,
>)
    requires
        filter.wf(),
    ensures
        r@.len() == windows@.len(),
        forall|k: int|
            0 <= k < r@.len() ==> {
                let c = #[trigger] r@[k];
                let goal = spec_candidate(windows@[k], filter@);
                c.tag_name@ == goal.0 && c.title@ == goal.1 && c.body@ == goal.2
            },
{
    let mut out: Vec<ReleaseCandidate> = Vec::new();
    let mut i: usize = 0;
    while i < windows.len()
        invariant
            i <= windows@.len(),
            out@.len() == i,
            forall|k: int|
                0 <= k < i ==> {
                    let c = #[trigger] out@[k];
                    let goal = spec_candidate(windows@[k], filter@);
                    c.tag_name@ == goal.0 && c.title@ == goal.1 && c.body@ == goal.2
                },
        decreases windows@.len() - i,
    {
        let w = &windows[i];
        let mut kept = collect_releasable_commits(crate::git::clone_commits(&w.commits), filter);
        apply_default_sorting(&mut kept);
        let mut subjects: Vec<String> = Vec::new();
        let mut j: usize = 0;
        while j < kept.len()
            invariant
                j <= kept@.len(),
                subjects@.len() == j,
                forall|m: int| 0 <= m < j ==> subjects@[m]@ == kept@[m].subject@,
            decreases kept@.len() - j,
        {
            subjects.push(kept[j].subject.clone());
            j = j + 1;
        }
        let body = render_release_body(subjects.as_slice());
        proof {
            assert(subjects@.map_values(|c: String| c@) =~= subjects_of(
                sort_commits(
                    windows@[i as int].commits@.filter(
                        |c: crate::git::GitCommit| releasable(filter@, c),
                    ),
                ),
            ));
        }
        let candidate = ReleaseCandidate {
            tag_name: release_tag(w.tag_name.as_str()),
            title: release_title(w.tag_name.as_str()),
            body,
        };
        out.push(candidate);
        i = i + 1;
    }
    out
}

/// The index of the first remote release carrying a tag, if any.
pub open spec fn find_release(existing: Seq<ExistingRelease>, tag: Seq<char>) -> Option<int>
    decreases existing.len(),
{
    if existing.len() == 0 {
        None
    } else if existing[0].tag_name@ == tag {
        Some(0)
    } else {
        match find_release(existing.drop_first(), tag) {
            Some(i) => Some(i + 1),
            None => None,
        }
    }
}

/// What the reconciler decides for one candidate.
pub enum PlanKind {
    /// The remote release already matches: no call.
    Skip,
    /// No remote release carries the tag: create one.
    Create,
    /// A remote release carries the tag but differs: update it in place.
    Update(u64),
}

/// The decision for one candidate against the remote set: matching is by tag
/// name only; a found release is kept untouched exactly when its name and
/// body equal the candidate's.
pub open spec fn spec_plan_kind(existing: Seq<ExistingRelease>, c: ReleaseCandidate) -> PlanKind {
    match find_release(existing, c.tag_name@) {
        None => PlanKind::Create,
        Some(i) => {
            let found = existing[i];
            let same_name = match found.name {
                Some(n) => n@ == c.title@,
                None => false,
            };
            let same_body = match found.body {
                Some(b) => b@ == c.body@,
                None => false,
            };
            if same_name && same_body {
                PlanKind::Skip
            } else {
                PlanKind::Update(found.id)
            }
        },
    }
}

/// Decide one candidate's action. The returned payload always carries the
/// candidate's tag, title and body; the flags are never drafts, and
/// pre-release exactly when requested.
#[verifier::loop_isolation(false)]
pub fn plan_upsert(existing: &Vec<ExistingRelease>, candidate: &ReleaseCandidate, prerelease: bool) -> (r: (
    PlanKind,
    ReleasePayload,
))
    ensures
        r.0 == spec_plan_kind(existing@, *candidate),
        r.1.tag_name@ == candidate.tag_name@ && r.1.name@ == candidate.title@ && r.1.body@
            == candidate.body@ && r.1.draft == false && r.1.prerelease == prerelease,
{
    let payload = ReleasePayload {
        tag_name: candidate.tag_name.clone(),
        name: candidate.title.clone(),
        body: candidate.body.clone(),
        draft: false,
        prerelease,
    };
    let tag_chars = str_chars(candidate.tag_name.as_str());
    let mut i: usize = 0;
    proof {
        assert(existing@.skip(0) =~= existing@);
    }
    while i < existing.len()
        invariant
            tag_chars@ == candidate.tag_name@,
            i <= existing@.len(),
            find_release(existing@, candidate.tag_name@) == match find_release(
                existing@.skip(i as int),
                candidate.tag_name@,
            ) {
                Some(m) => Some(m + i),
                None => None,
            },
        decreases existing@.len() - i,
    {
        proof {
            assert(existing@.skip(i as int)[0] == existing@[i as int]);
            assert(existing@.skip(i as int).drop_first() =~= existing@.skip(i + 1));
        }
        let entry_tag = str_chars(existing[i].tag_name.as_str());
        if crate::text::eq_chars(&entry_tag, &tag_chars) {
            proof {
                assert(find_release(existing@.skip(i as int), candidate.tag_name@) == Some(0int));
                assert(find_release(existing@, candidate.tag_name@) == Some(i as int));
            }
            let found = &existing[i];
            let same_name = match &found.name {
                Some(n) => {
                    let n_chars = str_chars(n.as_str());
                    let t_chars = str_chars(candidate.title.as_str());
                    crate::text::eq_chars(&n_chars, &t_chars)
                },
                None => false,
            };
            let same_body = match &found.body {
                Some(b) => {
                    let b_chars = str_chars(b.as_str());
                    let c_chars = str_chars(candidate.body.as_str());
                    crate::text::eq_chars(&b_chars, &c_chars)
                },
                None => false,
            };
            if same_name && same_body {
                return (PlanKind::Skip, payload);
            }
            return (PlanKind::Update(found.id), payload);
        }
        proof {
            assert(existing@[i as int].tag_name@ != candidate.tag_name@);
            assert(find_release(existing@.skip(i as int), candidate.tag_name@) == match
                find_release(existing@.skip(i + 1), candidate.tag_name@) {
                Some(m) => Some(m + 1),
                None => None,
            });
        }
        i = i + 1;
    }
    proof {
        assert(existing@.skip(existing@.len() as int).len() == 0);
    }
    (PlanKind::Create, payload)
}

/// A tag stands among the kept tags.
pub open spec fn tag_kept(tags: Seq<Seq<char>>, tag: Seq<char>) -> bool {
    exists|k: int| 0 <= k < tags.len() && tags[k] == tag
}

/// The identifiers of the remote releases whose tag is not among the kept
/// tags, in the remote set's order.
pub open spec fn deletion_ids(existing: Seq<ExistingRelease>, tags: Seq<Seq<char>>) -> Seq<u64> {
    existing.filter(|e: ExistingRelease| !tag_kept(tags, e.tag_name@)).map_values(
        |e: ExistingRelease| e.id,
    )
}

/// The rebuild step's deletions: every remote release whose tag no candidate
/// carries.
#[verifier::loop_isolation(false)]
pub fn plan_deletions(existing: &Vec<ExistingRelease>, kept_tags: &Vec<String>) -> (r: Vec<u64>)
    ensures
        r@ == deletion_ids(existing@, kept_tags@.map_values(|t: String| t@)),
{
    let ghost tags = kept_tags@.map_values(|t: String| t@);
    let ghost pred = |e: ExistingRelease| !tag_kept(tags, e.tag_name@);
    let mut out: Vec<u64> = Vec::new();
    let mut i: usize = 0;
    proof {
        reveal(Seq::filter);
        assert(existing@.take(0) =~= Seq::<ExistingRelease>::empty());
        assert(existing@.take(0).filter(pred) =~= Seq::<ExistingRelease>::empty());
        assert(out@ =~= existing@.take(0).filter(pred).map_values(|e: ExistingRelease| e.id));
    }
    while i < existing.len()
        invariant
            i <= existing@.len(),
            out@ == existing@.take(i as int).filter(pred).map_values(
                |e: ExistingRelease| e.id,
            ),
        decreases existing@.len() - i,
    {
        let entry_tag = str_chars(existing[i].tag_name.as_str());
        let mut found = false;
        let mut k: usize = 0;
        while k < kept_tags.len()
            invariant
                entry_tag@ == existing@[i as int].tag_name@,
                i < existing@.len(),
                k <= tags.len(),
                found == exists|m: int| 0 <= m < k && tags[m] == existing@[i as int].tag_name@,
            decreases tags.len() - k,
        {
            proof {
                assert(tags[k as int] == kept_tags@[k as int]@);
            }
            let t_chars = str_chars(kept_tags[k].as_str());
            if crate::text::eq_chars(&t_chars, &entry_tag) {
                found = true;
                proof {
                    assert(tags[k as int] == existing@[i as int].tag_name@);
                }
            }
            k = k + 1;
        }
        proof {
            assert(found == tag_kept(tags, existing@[i as int].tag_name@));
            existing@.take(i as int).lemma_filter_push(existing@[i as int], pred);
            assert(existing@.take(i + 1) =~= existing@.take(i as int).push(
                existing@[i as int],
            ));
        }
        if !found {
            out.push(existing[i].id);
            proof {
                assert(existing@.take(i + 1).filter(pred).map_values(|e: ExistingRelease| e.id)
                    =~= existing@.take(i as int).filter(pred).map_values(
                    |e: ExistingRelease| e.id,
                ).push(existing@[i as int].id));
            }
        } else {
            proof {
                assert(existing@.take(i + 1).filter(pred) == existing@.take(i as int).filter(
                    pred,
                ));
            }
        }
        i = i + 1;
    }
    proof {
        assert(existing@.take(existing@.len() as int) =~= existing@);
    }
    out
}

/// When the desired and remote sets already agree on a candidate's tag —
/// the first remote release carrying the tag has the candidate's name and
/// body — the reconciler plans no call for it.
pub proof fn lemma_reconcile_skips_matching(existing: Seq<ExistingRelease>, c: ReleaseCandidate)
    requires
        find_release(existing, c.tag_name@) matches Some(i) && (existing[i].name matches Some(n)
            && n@ == c.title@) && (existing[i].body matches Some(b) && b@ == c.body@),
    ensures
        spec_plan_kind(existing, c) == PlanKind::Skip,
{
}

/// When every remote release's tag stands among the kept tags, the rebuild
/// step deletes nothing.
pub proof fn lemma_reconcile_deletes_nothing(existing: Seq<ExistingRelease>, tags: Seq<Seq<char>>)
    requires
        forall|k: int| 0 <= k < existing.len() ==> tag_kept(tags, #[trigger] existing[k].tag_name@),
    ensures
        deletion_ids(existing, tags).len() == 0,
    decreases existing.len(),
{
    reveal(Seq::filter);
    let pred = |e: ExistingRelease| !tag_kept(tags, e.tag_name@);
    if existing.len() > 0 {
        assert(forall|k: int|
            0 <= k < existing.drop_last().len() ==> tag_kept(
                tags,
                #[trigger] existing.drop_last()[k].tag_name@,
            )) by {
            assert(forall|k: int|
                0 <= k < existing.drop_last().len() ==> existing.drop_last()[k] == existing[k]);
        }
        lemma_reconcile_deletes_nothing(existing.drop_last(), tags);
        assert(!pred(existing.last()));
    }
}

/// The owner/repository pair read off the tail of a repository URL after
/// `github.com[:/]`: a non-empty owner up to `/`, then the repository name
/// without `/` or `.`, an optional `.git`, an optional final `/`.
pub open spec fn repo_tail(t: Seq<char>) -> Option<(Seq<char>, Seq<char>)> {
    match find_seq(t, "/"@) {
        None => None,
        Some(k) => {
            if k == 0 {
                None
            } else {
                let owner = t.take(k);
                let rest = t.skip(k + 1);
                let no_slash = if rest.len() > 0 && rest.last() == '/' {
                    rest.drop_last()
                } else {
                    rest
                };
                let repo = if ends_with_seq(no_slash, ".git"@) {
                    no_slash.take(no_slash.len() - 4)
                } else {
                    no_slash
                };
                if repo.len() == 0 || crate::text::contains_seq(repo, "/"@)
                    || crate::text::contains_seq(repo, "."@) {
                    None
                } else {
                    Some((owner, repo))
                }
            }
        },
    }
}

/// The leftmost `github.com` occurrence, at or after `i`, whose tail parses.
pub open spec fn github_repo_from(s: Seq<char>, i: int) -> Option<(Seq<char>, Seq<char>)>
    decreases s.len() - i,
{
    let lit = "github.com"@;
    if i < 0 || i + lit.len() + 1 > s.len() {
        None
    } else if match_at(s, lit, i) && (s[i + lit.len()] == ':' || s[i + lit.len()] == '/') {
        match repo_tail(s.skip(i + lit.len() + 1)) {
            Some(p) => Some(p),
            None => github_repo_from(s, i + 1),
        }
    } else {
        github_repo_from(s, i + 1)
    }
}

/// The owner/repository pair a URL names, when it points into github.com.
pub open spec fn spec_github_repo(s: Seq<char>) -> Option<(Seq<char>, Seq<char>)> {
    github_repo_from(s, 0)
}

/// Parse the repository tail after `github.com[:/]`.
fn repo_tail_exec(t: &Vec<char>) -> (r: Option<(String, String)>)
    ensures
        r is Some <==> repo_tail(t@) is Some,
        r matches Some(p) ==> repo_tail(t@) == Some((p.0@, p.1@)),
{
    let n: usize = t.len();
    let slash = str_chars("/");
    let k = match crate::text::find_in(t, &slash) {
        Some(k) => k,
        None => {
            return None;
        },
    };
    proof {
        reveal_strlit("/");
        crate::text::lemma_find_from_properties(t@, "/"@, 0);
        assert(match_at(t@, "/"@, k as int));
        assert(k + 1 <= t@.len());
    }
    if k == 0 {
        return None;
    }
    let owner = crate::text::sub_chars(t, 0, k);
    let mut rest = crate::text::sub_chars(t, k + 1, n);
    proof {
        assert(owner@ =~= t@.take(k as int));
        assert(rest@ =~= t@.skip(k + 1));
    }
    if rest.len() > 0 && rest[rest.len() - 1] == '/' {
        let newlen = rest.len() - 1;
        let shorter = crate::text::sub_chars(&rest, 0, newlen);
        proof {
            assert(shorter@ =~= rest@.drop_last());
        }
        rest = shorter;
    }
    let git_suffix = str_chars(".git");
    proof {
        reveal_strlit(".git");
    }
    if crate::text::ends_with_in(&rest, &git_suffix) {
        let newlen = rest.len() - 4;
        let shorter = crate::text::sub_chars(&rest, 0, newlen);
        proof {
            assert(shorter@ =~= rest@.take(rest@.len() - 4));
        }
        rest = shorter;
    }
    let dot = str_chars(".");
    if rest.len() == 0 || crate::text::contains_in(&rest, &slash) || crate::text::contains_in(
        &rest,
        &dot,
    ) {
        return None;
    }
    Some((string_from_chars(&owner), string_from_chars(&rest)))
}

/// The owner and repository named by a URL pointing into github.com, from
/// the leftmost occurrence whose tail parses.
#[verifier::loop_isolation(false)]
pub fn parse_github_repo_from_url(url: &str) -> (r: Option<(String, String)>)
    ensures
        r is Some <==> spec_github_repo(url@) is Some,
        r matches Some(p) ==> spec_github_repo(url@) == Some((p.0@, p.1@)),
{
    let chars = str_chars(url);
    let n: usize = chars.len();
    let ghub = str_chars("github.com");
    proof {
        reveal_strlit("github.com");
        assert(ghub@.len() == 10);
    }
    if n < 11 {
        return None;
    }
    let mut i: usize = 0;
    proof {
        assert(github_repo_from(url@, 0) == spec_github_repo(url@));
    }
    while i <= n - 11
        invariant
            i <= n - 10,
            spec_github_repo(url@) == github_repo_from(url@, i as int),
        decreases n - i,
    {
        if crate::text::matches_at(&chars, &ghub, i) && (chars[i + 10] == ':' || chars[i + 10]
            == '/') {
            let tail = crate::text::sub_chars(&chars, i + 11, n);
            proof {
                assert(tail@ =~= url@.skip(i + 11));
            }
            match repo_tail_exec(&tail) {
                Some(p) => {
                    return Some(p);
                },
                None => {},
            }
        }
        i = i + 1;
    }
    proof {
        assert(github_repo_from(url@, i as int) is None);
    }
    None
}

/// A line assigning the repository URL in Cargo.toml text:
/// `repository = "url"`, surrounded by whitespace, the URL non-empty.
pub open spec fn cargo_repo_span(line: Seq<char>) -> Option<(int, int)> {
    let a0 = crate::text::leading_ws(line) as int;
    let lit = "repository"@;
    if !match_at(line, lit, a0) {
        None
    } else {
        let p1 = a0 + lit.len();
        let p2 = p1 + crate::text::leading_ws(line.skip(p1));
        if p2 < line.len() && line[p2] == '=' {
            let p3 = p2 + 1;
            let p4 = p3 + crate::text::leading_ws(line.skip(p3));
            if p4 < line.len() && line[p4] == '"' {
                match find_from(line, "\""@, p4 + 1) {
                    Some(b) => {
                        if b > p4 + 1 && crate::text::leading_ws(line.skip(b + 1)) == line.skip(
                            b + 1,
                        ).len() {
                            Some((p4 + 1, b))
                        } else {
                            None
                        }
                    },
                    None => None,
                }
            } else {
                None
            }
        } else {
            None
        }
    }
}

/// The first `repository = "..."` URL of Cargo.toml text, by lines.
pub open spec fn first_cargo_repo_url(lines: Seq<Seq<char>>, i: int) -> Option<Seq<char>>
    decreases lines.len() - i,
{
    if i < 0 || i >= lines.len() {
        None
    } else {
        match cargo_repo_span(lines[i]) {
            Some(span) => Some(lines[i].subrange(span.0, span.1)),
            None => first_cargo_repo_url(lines, i + 1),
        }
    }
}

/// Parse one line as a repository assignment.
fn cargo_repo_span_exec(line: &Vec<char>) -> (r: Option<(usize, usize)>)
    ensures
        match r {
            Some(p) => cargo_repo_span(line@) == Some((p.0 as int, p.1 as int)) && p.0 <= p.1
                <= line@.len(),
            None => cargo_repo_span(line@) is None,
        },
{
    let n: usize = line.len();
    let a0 = crate::text::count_ws(line, 0);
    proof {
        assert(line@.skip(0) =~= line@);
        reveal_strlit("repository");
    }
    let lit = str_chars("repository");
    if n - a0 < 10 || !crate::text::matches_at(line, &lit, a0) {
        return None;
    }
    let p1 = a0 + 10;
    let w1 = crate::text::count_ws(line, p1);
    let p2 = p1 + w1;
    if p2 >= n || line[p2] != '=' {
        return None;
    }
    let p3 = p2 + 1;
    let w2 = crate::text::count_ws(line, p3);
    let p4 = p3 + w2;
    if p4 >= n || line[p4] != '"' {
        return None;
    }
    let quote = str_chars("\"");
    proof {
        reveal_strlit("\"");
    }
    let tail = crate::text::sub_chars(line, p4 + 1, n);
    proof {
        assert(tail@ =~= line@.skip(p4 + 1));
    }
    let b = match crate::text::find_in(&tail, &quote) {
        Some(j) => {
            proof {
                crate::text::lemma_find_from_properties(tail@, "\""@, 0);
                lemma_find_offset(line@, "\""@, p4 + 1, j as int);
            }
            p4 + 1 + j
        },
        None => {
            proof {
                lemma_find_offset_none(line@, "\""@, p4 + 1);
            }
            return None;
        },
    };
    if b <= p4 + 1 {
        return None;
    }
    let w3 = crate::text::count_ws(line, b + 1);
    if b + 1 + w3 != n {
        return None;
    }
    Some((p4 + 1, b))
}

/// A match found in the suffix stands at the offset position of the whole.
proof fn lemma_find_offset(s: Seq<char>, pat: Seq<char>, off: int, j: int)
    requires
        0 <= off <= s.len(),
        find_seq(s.skip(off), pat) == Some(j),
    ensures
        find_from(s, pat, off) == Some(off + j),
{
    crate::text::lemma_find_from_properties(s.skip(off), pat, 0);
    assert(s.skip(off).subrange(j, j + pat.len() as int) =~= s.subrange(
        off + j,
        off + j + pat.len() as int,
    ));
    assert(match_at(s, pat, off + j));
    crate::text::lemma_find_from_properties(s, pat, off);
    crate::text::lemma_find_from_complete(s, pat, off, off + j);
    let m = find_from(s, pat, off).unwrap();
    if m < off + j {
        assert(match_at(s, pat, m));
        assert(s.subrange(m, m + pat.len() as int) =~= s.skip(off).subrange(
            m - off,
            m - off + pat.len() as int,
        ));
        assert(match_at(s.skip(off), pat, m - off));
        assert(false);
    }
}

/// No match in the suffix means none at or after the offset in the whole.
proof fn lemma_find_offset_none(s: Seq<char>, pat: Seq<char>, off: int)
    requires
        0 <= off <= s.len(),
        find_seq(s.skip(off), pat) is None,
    ensures
        find_from(s, pat, off) is None,
{
    crate::text::lemma_find_from_properties(s.skip(off), pat, 0);
    match find_from(s, pat, off) {
        Some(m) => {
            crate::text::lemma_find_from_properties(s, pat, off);
            assert(match_at(s, pat, m));
            assert(s.subrange(m, m + pat.len() as int) =~= s.skip(off).subrange(
                m - off,
                m - off + pat.len() as int,
            ));
            assert(match_at(s.skip(off), pat, m - off));
            crate::text::lemma_find_from_complete(s.skip(off), pat, 0, m - off);
            assert(false);
        },
        None => {},
    }
}

/// The first repository URL a Cargo.toml text assigns, if any.
#[verifier::loop_isolation(false)]
pub fn cargo_repository_url(content: &str) -> (r: Option<String>)
    ensures
        r is Some <==> first_cargo_repo_url(crate::text::lines_spec(content@), 0) is Some,
        r matches Some(u) ==> first_cargo_repo_url(crate::text::lines_spec(content@), 0) == Some(
            u@,
        ),
{
    let chars = str_chars(content);
    let lines = crate::text::lines_chars(&chars);
    let ghost line_views = crate::text::lines_spec(content@);
    let mut j: usize = 0;
    while j < lines.len()
        invariant
            j <= lines@.len(),
            first_cargo_repo_url(line_views, 0) == first_cargo_repo_url(line_views, j as int),
        decreases lines@.len() - j,
    {
        match cargo_repo_span_exec(&lines[j]) {
            Some(span) => {
                let url = crate::text::sub_chars(&lines[j], span.0, span.1);
                proof {
                    assert(url@ =~= line_views[j as int].subrange(
                        span.0 as int,
                        span.1 as int,
                    ));
                }
                return Some(string_from_chars(&url));
            },
            None => {},
        }
        j = j + 1;
    }
    proof {
        assert(first_cargo_repo_url(line_views, j as int) is None);
    }
    None
}

/// The repository URL serde_json reads out of package.json text: the
/// `repository` field as a string, or its `url` member.
pub uninterp spec fn package_json_repo_url(content: Seq<char>) -> Option<Seq<char>>;

/// Relies on serde_json: the `repository` field's URL, as a string field or
/// the `url` member of an object.
#[verifier::external_body]
fn package_json_repo_url_read(content: &str) -> (r: Option<String>)
    ensures
        r is Some <==> package_json_repo_url(content@) is Some,
        r matches Some(u) ==> package_json_repo_url(content@) == Some(u@),
{
    let json: serde_json::Value = serde_json::from_str(content).ok()?;
    let repository = json.get("repository")?;
    match repository.as_str() {
        Some(u) => Some(u.to_string()),
        None => repository.get("url")?.as_str().map(str::to_string),
    }
}

/// The owner/repository pair the manifest texts point at: Cargo.toml's
/// repository URL first, then package.json's.
pub open spec fn spec_detect_owner_repo(
    cargo: Option<Seq<char>>,
    package_json: Option<Seq<char>>,
) -> Option<(Seq<char>, Seq<char>)> {
    let from_cargo = match cargo {
        Some(c) => match first_cargo_repo_url(crate::text::lines_spec(c), 0) {
            Some(u) => spec_github_repo(u),
            None => None,
        },
        None => None,
    };
    if from_cargo is Some {
        from_cargo
    } else {
        match package_json {
            Some(p) => match package_json_repo_url(p) {
                Some(u) => spec_github_repo(u),
                None => None,
            },
            None => None,
        }
    }
}

/// Detect the owner and repository from manifest texts.
pub fn detect_owner_repo(cargo: Option<&str>, package_json: Option<&str>) -> (r: Option<
    (String, String),
>)
    ensures
        ({
            let cv: Option<Seq<char>> = match cargo {
                Some(c) => Some(c@),
                None => None,
            };
            let pv: Option<Seq<char>> = match package_json {
                Some(p) => Some(p@),
                None => None,
            };
            &&& (r is Some <==> spec_detect_owner_repo(cv, pv) is Some)
            &&& (r matches Some(p) ==> spec_detect_owner_repo(cv, pv) == Some((p.0@, p.1@)))
        }),
{
    match cargo {
        Some(content) => {
            match cargo_repository_url(content) {
                Some(url) => {
                    match parse_github_repo_from_url(url.as_str()) {
                        Some(p) => {
                            return Some(p);
                        },
                        None => {},
                    }
                },
                None => {},
            }
        },
        None => {},
    }
    match package_json {
        Some(content) => {
            match package_json_repo_url_read(content) {
                Some(url) => parse_github_repo_from_url(url.as_str()),
                None => None,
            }
        },
        None => None,
    }
}

/// Reject request combinations before any remote work: an explicit target
/// excludes a rebuild, and a pre-release mark needs an explicit target.
pub fn validate_release_request(target: Option<&str>, rebuild: bool, prerelease: bool) -> (r:
    Result<(), String>)
    ensures
        r is Ok <==> !(rebuild && target is Some) && !(prerelease && target is None),
        rebuild && target is Some ==> (r matches Err(e) && e@
            == "Cannot combine --rebuild with an explicit release target"@),
        !(rebuild && target is Some) && prerelease && target is None ==> (r matches Err(e) && e@
            == "--prerelease requires an explicit positional release target"@),
{
    if rebuild && target.is_some() {
        return Err(String::from_str("Cannot combine --rebuild with an explicit release target"));
    }
    if prerelease && target.is_none() {
        return Err(
            String::from_str("--prerelease requires an explicit positional release target"),
        );
    }
    Ok(())
}

/// The candidates one run reconciles: all of them in rebuild mode, else only
/// the newest (the last of the oldest-first list).
pub fn select_target_candidates(candidates: Vec<ReleaseCandidate>, rebuild: bool) -> (r: Result<
    Vec<ReleaseCandidate>,
    String,
>)
    ensures
        rebuild ==> (r matches Ok(v) && v@ == candidates@),
        !rebuild && candidates@.len() > 0 ==> (r matches Ok(v) && v@ == seq![
            candidates@.last(),
        ]),
        !rebuild && candidates@.len() == 0 ==> (r matches Err(e) && e@
            == "No release candidates produced from git tags"@),
{
    if rebuild {
        return Ok(candidates);
    }
    if candidates.len() == 0 {
        return Err(String::from_str("No release candidates produced from git tags"));
    }
    let last = candidates[candidates.len() - 1].clone();
    let mut out: Vec<ReleaseCandidate> = Vec::new();
    out.push(last);
    proof {
        assert(out@ =~= seq![candidates@.last()]);
    }
    Ok(out)
}

/// The owner/repository pair a run uses: both overrides when given, else the
/// detected pair, else a configuration error.
pub fn resolve_owner_repo(
    owner: Option<String>,
    repo: Option<String>,
    detected: Option<(String, String)>,
) -> (r: Result<(String, String), String>)
    ensures
        owner matches Some(o) ==> (repo matches Some(p) ==> (r matches Ok(pair) && pair.0 == o
            && pair.1 == p)),
        !(owner is Some && repo is Some) && detected is Some ==> r == Ok::<
            (String, String),
            String,
        >(detected.unwrap()),
        !(owner is Some && repo is Some) && detected is None ==> (r matches Err(e) && e@
            == "Cannot determine GitHub owner/repo. Set CAMBI_OWNER and CAMBI_REPO, or use --owner/--repo."@),
{
    match (owner, repo) {
        (Some(o), Some(p)) => Ok((o, p)),
        (o, p) => {
            match detected {
                Some(pair) => Ok(pair),
                None => Err(
                    String::from_str(
                        "Cannot determine GitHub owner/repo. Set CAMBI_OWNER and CAMBI_REPO, or use --owner/--repo.",
                    ),
                ),
            }
        },
    }
}

/// The bearer token a run uses, or a configuration error.
pub fn resolve_token(token: Option<String>) -> (r: Result<String, String>)
    ensures
        token matches Some(t) ==> (r matches Ok(v) && v == t),
        token is None ==> (r matches Err(e) && e@
            == "Missing GitHub token. Set GH_RELEASE_TOKEN/CAMBI_TOKEN or pass --token."@),
{
    match token {
        Some(t) => Ok(t),
        None => Err(
            String::from_str("Missing GitHub token. Set GH_RELEASE_TOKEN/CAMBI_TOKEN or pass --token."),
        ),
    }
}

} // verus!
