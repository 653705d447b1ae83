//! Changelog composition: presentation ordering of a release window, section
//! rendering, heading extraction, and the idempotent merge into an existing
//! changelog document.

use crate::conventional::BumpLevel;
use crate::filters::CommitFilter;
use crate::git::GitCommit;
use crate::text::{
    ascii_lower_chars, ascii_lower_seq, contains_in, contains_seq, is_digit, is_ws,
    leading_digits, leading_ws, starts_with_in, starts_with_seq, str_chars, string_from_chars,
    strip_leading, strip_leading_chars, trim_spec, trim_start_spec,
};
use crate::version::{Version, bump_fits, parse_semver, semver_parse, version_seq};
use vstd::multiset::Multiset;
use vstd::prelude::*;

verus! {

broadcast use vstd::string::group_string_axioms;

/// One rendered changelog section: a calendar date, a version, and the commit
/// subjects it lists.
pub struct ChangelogSection {
    pub date: String,
    pub version: String,
    pub commits: Vec<String>,
}

/// The presentation priority of a subject: breaking markers first, then
/// features, then fixes, then the rest. This literal inspection is a display
/// heuristic, separate from the grammar-accurate bump classifier.
pub open spec fn priority_of(subject: Seq<char>) -> int {
    if contains_seq(subject, "BREAKING CHANGE"@) || contains_seq(subject, "!:"@) {
        3
    } else if starts_with_seq(subject, "feat"@) {
        2
    } else if starts_with_seq(subject, "fix"@) {
        1
    } else {
        0
    }
}

/// The presentation priority of one commit subject.
pub fn priority(subject: &str) -> (r: i32)
    ensures
        r as int == priority_of(subject@),
{
    let subj = str_chars(subject);
    let breaking = str_chars("BREAKING CHANGE");
    let bang = str_chars("!:");
    if contains_in(&subj, &breaking) || contains_in(&subj, &bang) {
        return 3;
    }
    let feat = str_chars("feat");
    if starts_with_in(&subj, &feat) {
        return 2;
    }
    let fix = str_chars("fix");
    if starts_with_in(&subj, &fix) {
        return 1;
    }
    0
}

/// `a` must come strictly before `b`: higher priority first, then newer first.
pub open spec fn commit_before(a: GitCommit, b: GitCommit) -> bool {
    priority_of(a.subject@) > priority_of(b.subject@) || (priority_of(a.subject@) == priority_of(
        b.subject@,
    ) && a.time > b.time)
}

/// Insertion of one commit into an ordered run, after every commit it does
/// not strictly precede; equal keys therefore keep their existing order.
pub open spec fn insert_sorted(x: GitCommit, s: Seq<GitCommit>) -> Seq<GitCommit>
    decreases s.len(),
{
    if s.len() == 0 {
        seq![x]
    } else if commit_before(x, s[0]) {
        seq![x] + s
    } else {
        seq![s[0]] + insert_sorted(x, s.drop_first())
    }
}

/// The stable sort of a commit run under `commit_before`.
pub open spec fn sort_commits(s: Seq<GitCommit>) -> Seq<GitCommit>
    decreases s.len(),
{
    if s.len() == 0 {
        s
    } else {
        insert_sorted(s.last(), sort_commits(s.drop_last()))
    }
}

/// No later element must come strictly before an earlier one.
pub open spec fn commits_ordered(s: Seq<GitCommit>) -> bool {
    forall|i: int, j: int| 0 <= i < j < s.len() ==> !commit_before(#[trigger] s[j], #[trigger] s[i])
}

proof fn lemma_insert_prefix(x: GitCommit, s: Seq<GitCommit>, p: int)
    requires
        0 <= p <= s.len(),
        forall|k: int| 0 <= k < p ==> !commit_before(x, #[trigger] s[k]),
        p < s.len() ==> commit_before(x, s[p]),
    ensures
        insert_sorted(x, s) == s.take(p) + seq![x] + s.skip(p),
    decreases p,
{
    if p == 0 {
        if s.len() == 0 {
            assert(insert_sorted(x, s) =~= s.take(0) + seq![x] + s.skip(0));
        } else {
            assert(seq![x] + s =~= s.take(0) + seq![x] + s.skip(0));
        }
    } else {
        lemma_insert_prefix(x, s.drop_first(), p - 1);
        assert(seq![s[0]] + (s.drop_first().take(p - 1) + seq![x] + s.drop_first().skip(p - 1))
            =~= s.take(p) + seq![x] + s.skip(p));
    }
}

proof fn lemma_insert_ordered(x: GitCommit, s: Seq<GitCommit>)
    requires
        commits_ordered(s),
    ensures
        commits_ordered(insert_sorted(x, s)),
        insert_sorted(x, s).len() == s.len() + 1,
    decreases s.len(),
{
    if s.len() == 0 {
    } else if commit_before(x, s[0]) {
        let r = seq![x] + s;
        assert forall|i: int, j: int| 0 <= i < j < r.len() implies !commit_before(r[j], r[i]) by {
            if i == 0 {
                if commit_before(r[j], x) {
                    assert(commit_before(r[j], s[0]));
                }
            }
        }
    } else {
        lemma_insert_ordered(x, s.drop_first());
        let t = insert_sorted(x, s.drop_first());
        let r = seq![s[0]] + t;
        assert forall|i: int, j: int| 0 <= i < j < r.len() implies !commit_before(r[j], r[i]) by {
            if i == 0 {
                let y = r[j];
                assert(t[j - 1] == y);
                if commit_before(y, s[0]) {
                    // y is either x, which does not precede s[0], or a commit
                    // that already followed s[0] in the ordered run.
                    if exists|m: int| 0 <= m < s.drop_first().len() && s.drop_first()[m] == y {
                        let m = choose|m: int|
                            0 <= m < s.drop_first().len() && s.drop_first()[m] == y;
                        assert(!commit_before(s[m + 1], s[0]));
                    } else {
                        lemma_insert_membership(x, s.drop_first(), j - 1);
                    }
                }
            }
        }
    }
}

/// Every element of the inserted run is the new element or one of the old run.
proof fn lemma_insert_membership(x: GitCommit, s: Seq<GitCommit>, j: int)
    requires
        0 <= j < insert_sorted(x, s).len(),
    ensures
        insert_sorted(x, s)[j] == x || exists|m: int| 0 <= m < s.len() && s[m] == insert_sorted(
            x,
            s,
        )[j],
    decreases s.len(),
{
    if s.len() == 0 {
    } else if commit_before(x, s[0]) {
    } else {
        if j == 0 {
        } else {
            lemma_insert_membership(x, s.drop_first(), j - 1);
            let t = insert_sorted(x, s.drop_first());
            if t[j - 1] != x {
                let m = choose|m: int|
                    0 <= m < s.drop_first().len() && s.drop_first()[m] == t[j - 1];
                assert(s[m + 1] == insert_sorted(x, s)[j]);
            }
        }
    }
}

proof fn lemma_insert_multiset(x: GitCommit, s: Seq<GitCommit>)
    ensures
        insert_sorted(x, s).to_multiset() == s.to_multiset().insert(x),
    decreases s.len(),
{
    broadcast use vstd::seq_lib::group_to_multiset_ensures;

    if s.len() == 0 {
        assert(seq![x] =~= Seq::<GitCommit>::empty().push(x));
        assert(Seq::<GitCommit>::empty().push(x).to_multiset() == Seq::<
            GitCommit,
        >::empty().to_multiset().insert(x));
        assert(s.to_multiset() =~= Multiset::<GitCommit>::empty());
    } else if commit_before(x, s[0]) {
        assert(seq![x] + s =~= s.insert(0, x));
        vstd::seq_lib::lemma_multiset_commutative(seq![x], s);
        assert(seq![x].to_multiset() =~= Multiset::<GitCommit>::empty().insert(x));
        assert((seq![x] + s).to_multiset() == seq![x].to_multiset().add(s.to_multiset()));
        assert(Multiset::<GitCommit>::empty().insert(x).add(s.to_multiset()) =~= s.to_multiset()
            .insert(x));
    } else {
        lemma_insert_multiset(x, s.drop_first());
        let t = insert_sorted(x, s.drop_first());
        vstd::seq_lib::lemma_multiset_commutative(seq![s[0]], t);
        vstd::seq_lib::lemma_multiset_commutative(seq![s[0]], s.drop_first());
        assert(seq![s[0]] + s.drop_first() =~= s);
        assert(seq![s[0]].to_multiset() =~= Multiset::<GitCommit>::empty().insert(s[0]));
        assert((seq![s[0]] + t).to_multiset() == seq![s[0]].to_multiset().add(t.to_multiset()));
        assert(Multiset::<GitCommit>::empty().insert(s[0]).add(
            s.drop_first().to_multiset().insert(x),
        ) =~= (seq![s[0]] + s.drop_first()).to_multiset().insert(x));
    }
}

/// The sorted run is ordered.
pub proof fn lemma_sort_commits_ordered(s: Seq<GitCommit>)
    ensures
        commits_ordered(sort_commits(s)),
        sort_commits(s).len() == s.len(),
    decreases s.len(),
{
    if s.len() > 0 {
        lemma_sort_commits_ordered(s.drop_last());
        lemma_insert_ordered(s.last(), sort_commits(s.drop_last()));
    }
}

/// The sorted run holds exactly the commits of the input.
pub proof fn lemma_sort_commits_permutes(s: Seq<GitCommit>)
    ensures
        sort_commits(s).to_multiset() == s.to_multiset(),
    decreases s.len(),
{
    broadcast use vstd::seq_lib::group_to_multiset_ensures;

    if s.len() > 0 {
        lemma_sort_commits_permutes(s.drop_last());
        lemma_insert_multiset(s.last(), sort_commits(s.drop_last()));
        assert(s.drop_last().push(s.last()) =~= s);
        assert(s.drop_last().push(s.last()).to_multiset() == s.drop_last().to_multiset().insert(
            s.last(),
        ));
    }
}

/// Commits that are not the ordered head keep their order through a filter.
proof fn lemma_filter_none(s: Seq<GitCommit>, pred: spec_fn(GitCommit) -> bool)
    requires
        forall|m: int| 0 <= m < s.len() ==> !pred(#[trigger] s[m]),
    ensures
        s.filter(pred) == Seq::<GitCommit>::empty(),
    decreases s.len(),
{
    reveal(Seq::filter);
    if s.len() > 0 {
        lemma_filter_none(s.drop_last(), pred);
    }
}

/// Filtering a run with a head: the head is kept or dropped, the rest filters.
proof fn lemma_filter_cons(h: GitCommit, s: Seq<GitCommit>, pred: spec_fn(GitCommit) -> bool)
    ensures
        (seq![h] + s).filter(pred) == if pred(h) {
            seq![h] + s.filter(pred)
        } else {
            s.filter(pred)
        },
{
    reveal(Seq::filter);
    Seq::<GitCommit>::filter_distributes_over_add(seq![h], s, pred);
    assert(seq![h] =~= Seq::<GitCommit>::empty().push(h));
    Seq::<GitCommit>::empty().lemma_filter_push(h, pred);
    if pred(h) {
        assert(seq![h].filter(pred) =~= seq![h]);
    } else {
        assert(seq![h].filter(pred) =~= Seq::<GitCommit>::empty());
        assert(Seq::<GitCommit>::empty() + s.filter(pred) =~= s.filter(pred));
    }
}

proof fn lemma_insert_filter_key(x: GitCommit, s: Seq<GitCommit>, p: int, t: i64)
    requires
        commits_ordered(s),
    ensures
        insert_sorted(x, s).filter(
            |c: GitCommit| priority_of(c.subject@) == p && c.time == t,
        ) == if priority_of(x.subject@) == p && x.time == t {
            s.filter(|c: GitCommit| priority_of(c.subject@) == p && c.time == t).push(x)
        } else {
            s.filter(|c: GitCommit| priority_of(c.subject@) == p && c.time == t)
        },
    decreases s.len(),
{
    let pred = |c: GitCommit| priority_of(c.subject@) == p && c.time == t;
    reveal(Seq::filter);
    if s.len() == 0 {
        assert(seq![x] =~= Seq::<GitCommit>::empty().push(x));
        Seq::<GitCommit>::empty().lemma_filter_push(x, pred);
        assert(s.filter(pred) == Seq::<GitCommit>::empty().filter(pred));
        assert(Seq::<GitCommit>::empty().filter(pred) =~= Seq::<GitCommit>::empty());
        if pred(x) {
            assert(seq![x].filter(pred) =~= Seq::<GitCommit>::empty().push(x));
            assert(s.filter(pred).push(x) =~= Seq::<GitCommit>::empty().push(x));
        }
    } else if commit_before(x, s[0]) {
        lemma_filter_cons(x, s, pred);
        if pred(x) {
            // x strictly precedes the ordered head, so every element's key is
            // strictly below x's key and nothing in s matches the filter.
            assert forall|m: int| 0 <= m < s.len() implies !pred(#[trigger] s[m]) by {
                if m > 0 {
                    assert(!commit_before(s[m], s[0]));
                }
            }
            lemma_filter_none(s, pred);
            assert(seq![x] + Seq::<GitCommit>::empty() =~= Seq::<GitCommit>::empty().push(x));
        }
    } else {
        assert(commits_ordered(s.drop_first())) by {
            assert(forall|i: int, j: int|
                0 <= i < j < s.drop_first().len() ==> !commit_before(
                    #[trigger] s.drop_first()[j],
                    #[trigger] s.drop_first()[i],
                )) by {
                assert(forall|i: int, j: int|
                    0 <= i < j < s.drop_first().len() ==> s.drop_first()[j] == s[j + 1]
                        && s.drop_first()[i] == s[i + 1]);
            }
        }
        lemma_insert_filter_key(x, s.drop_first(), p, t);
        let rest = insert_sorted(x, s.drop_first());
        lemma_filter_cons(s[0], rest, pred);
        lemma_filter_cons(s[0], s.drop_first(), pred);
        assert(seq![s[0]] + s.drop_first() =~= s);
        if pred(x) && pred(s[0]) {
            assert((seq![s[0]] + s.drop_first().filter(pred)).push(x) =~= (seq![s[0]] + s
                .drop_first().filter(pred).push(x)));
        }
    }
}

/// Stability of the window sort: for every key, the commits carrying that key
/// appear in the sorted run exactly as they appeared in the input.
pub proof fn lemma_sort_commits_stable(s: Seq<GitCommit>, p: int, t: i64)
    ensures
        sort_commits(s).filter(|c: GitCommit| priority_of(c.subject@) == p && c.time == t)
            == s.filter(|c: GitCommit| priority_of(c.subject@) == p && c.time == t),
    decreases s.len(),
{
    let pred = |c: GitCommit| priority_of(c.subject@) == p && c.time == t;
    reveal(Seq::filter);
    if s.len() > 0 {
        lemma_sort_commits_stable(s.drop_last(), p, t);
        lemma_sort_commits_ordered(s.drop_last());
        lemma_insert_filter_key(s.last(), sort_commits(s.drop_last()), p, t);
    }
}


/// `a` must come strictly before `b` in presentation order?
fn commit_before_exec(a: &GitCommit, b: &GitCommit) -> (r: bool)
    ensures
        r == commit_before(*a, *b),
{
    let pa = priority(a.subject.as_str());
    let pb = priority(b.subject.as_str());
    pa > pb || (pa == pb && a.time > b.time)
}

/// Insert one commit into an already ordered vector, after every commit it
/// does not strictly precede.
fn insert_commit(result: &mut Vec<GitCommit>, x: GitCommit)
    ensures
        final(result)@ == insert_sorted(x, old(result)@),
{
    let mut p: usize = 0;
    while p < result.len() && !commit_before_exec(&x, &result[p])
        invariant
            p <= result@.len(),
            result@ == old(result)@,
            forall|k: int| 0 <= k < p ==> !commit_before(x, #[trigger] result@[k]),
        decreases result@.len() - p,
    {
        p = p + 1;
    }
    proof {
        lemma_insert_prefix(x, result@, p as int);
    }
    result.insert(p, x);
    proof {
        assert(old(result)@.insert(p as int, x) =~= old(result)@.take(p as int) + seq![x] + old(
            result,
        )@.skip(p as int));
    }
}

/// Sort a window's commits for presentation: priority buckets first, newer
/// commits first inside a bucket, original order breaking remaining ties.
pub fn apply_default_sorting(commits: &mut Vec<GitCommit>)
    ensures
        final(commits)@ == sort_commits(old(commits)@),
{
    let ghost orig = commits@;
    let mut result: Vec<GitCommit> = Vec::new();
    let mut i: usize = 0;
    proof {
        assert(orig.take(0) =~= Seq::<GitCommit>::empty());
    }
    while i < commits.len()
        invariant
            commits@ == orig,
            i <= orig.len(),
            result@ == sort_commits(orig.take(i as int)),
        decreases orig.len() - i,
    {
        let x = commits[i].clone();
        insert_commit(&mut result, x);
        proof {
            assert(orig.take(i + 1).drop_last() =~= orig.take(i as int));
            assert(orig.take(i + 1).last() == orig[i as int]);
        }
        i = i + 1;
    }
    proof {
        assert(orig.take(orig.len() as int) =~= orig);
    }
    *commits = result;
}

/// The version a tag name parses to, after stripping leading `v`s; `None`
/// when the stripped name is no strict version.
pub fn normalize_tag_version(tag_name: &str) -> (r: Option<Version>)
    ensures
        r is Some <==> semver_parse(strip_leading(tag_name@, 'v')) is Some,
        r matches Some(v) ==> semver_parse(strip_leading(tag_name@, 'v')) matches Some(p)
            && v.major == p.0 && v.minor == p.1 && v.patch == p.2 && v.pre@ == p.3 && v.build@
            == p.4,
{
    let chars = str_chars(tag_name);
    let stripped = strip_leading_chars(&chars, 'v');
    let text = string_from_chars(&stripped);
    parse_semver(text.as_str())
}

/// One bump step from an optional current version; an absent current version
/// counts as `0.0.0`.
pub fn bump_version(current: Option<Version>, bump: BumpLevel) -> (r: Version)
    requires
        current matches Some(c) ==> bump_fits(c, bump),
    ensures
        current matches Some(c) ==> {
            &&& bump is Major ==> r.major == c.major + 1 && r.minor == 0 && r.patch == 0
            &&& bump is Minor ==> r.major == c.major && r.minor == c.minor + 1 && r.patch == 0
            &&& bump is Patch ==> r.major == c.major && r.minor == c.minor && r.patch == c.patch
                + 1
            &&& r.pre == c.pre && r.build == c.build
        },
        current is None ==> {
            &&& bump is Major ==> r.major == 1 && r.minor == 0 && r.patch == 0
            &&& bump is Minor ==> r.major == 0 && r.minor == 1 && r.patch == 0
            &&& bump is Patch ==> r.major == 0 && r.minor == 0 && r.patch == 1
            &&& r.pre@ == Seq::<char>::empty() && r.build@ == Seq::<char>::empty()
        },
{
    match current {
        Some(c) => crate::version::bump_semver(c, bump),
        None => crate::version::bump_semver(Version::new(0, 0, 0), bump),
    }
}

/// Relies on chrono's `DateTime::<Utc>::from_timestamp` and `%Y-%m-%d`
/// formatting: the UTC calendar date of a Unix timestamp, a function of the
/// timestamp alone; a timestamp chrono cannot hold falls back to the epoch.
/// For timestamps between the epoch and the last second of year 9999,
/// `%Y` is four zero-padded digits and `%m`/`%d` two, so the text has the
/// ten-character `dddd-dd-dd` shape.
pub uninterp spec fn utc_date_string(timestamp: int) -> Seq<char>;

#[verifier::external_body]
pub fn format_date(timestamp: i64) -> (r: String)
    ensures
        r@ == utc_date_string(timestamp as int),
        0 <= timestamp <= 253402300799 ==> r@.len() == 10 && date_prefix(r@),
{
    chrono::DateTime::<chrono::Utc>::from_timestamp(timestamp, 0)
        .unwrap_or(chrono::DateTime::<chrono::Utc>::UNIX_EPOCH)
        .format("%Y-%m-%d")
        .to_string()
}

/// The bullet block of the default template: each subject as `- subject`,
/// one per line, each line newline-terminated.
pub open spec fn bullet_lines(commits: Seq<Seq<char>>) -> Seq<char>
    decreases commits.len(),
{
    if commits.len() == 0 {
        Seq::empty()
    } else {
        "- "@ + commits[0] + "\n"@ + bullet_lines(commits.drop_first())
    }
}

proof fn lemma_bullet_lines_push(commits: Seq<Seq<char>>, c: Seq<char>)
    ensures
        bullet_lines(commits.push(c)) == bullet_lines(commits) + ("- "@ + c + "\n"@),
    decreases commits.len(),
{
    if commits.len() == 0 {
        assert(commits.push(c)[0] == c);
        assert(commits.push(c).drop_first() =~= Seq::<Seq<char>>::empty());
        assert(bullet_lines(Seq::<Seq<char>>::empty()) == Seq::<char>::empty());
        assert(bullet_lines(commits.push(c)) == "- "@ + c + "\n"@ + Seq::<char>::empty());
        assert(Seq::<char>::empty() + ("- "@ + c + "\n"@) =~= "- "@ + c + "\n"@
            + Seq::<char>::empty());
    } else {
        lemma_bullet_lines_push(commits.drop_first(), c);
        assert(commits.push(c).drop_first() =~= commits.drop_first().push(c));
        assert(commits.push(c)[0] == commits[0]);
        assert(bullet_lines(commits.push(c)) == "- "@ + commits[0] + "\n"@ + bullet_lines(
            commits.drop_first().push(c),
        ));
        assert("- "@ + commits[0] + "\n"@ + (bullet_lines(commits.drop_first()) + ("- "@ + c
            + "\n"@)) =~= ("- "@ + commits[0] + "\n"@ + bullet_lines(commits.drop_first())) + (
        "- "@ + c + "\n"@));
    }
}

/// The bullet list for templates: `- subject` lines joined by newlines,
/// without a trailing newline.
pub open spec fn bullets_joined(commits: Seq<Seq<char>>) -> Seq<char> {
    crate::text::join_spec(commits.map_values(|c: Seq<char>| "- "@ + c), "\n"@)
}

/// The default rendering: `### date / version`, a blank line, the bullets,
/// trimmed of surrounding whitespace.
pub open spec fn render_default(date: Seq<char>, version: Seq<char>, commits: Seq<Seq<char>>) -> Seq<
    char,
> {
    trim_spec("### "@ + date + " / "@ + version + "\n\n"@ + bullet_lines(commits))
}

/// A template rendering: `$DATE`, then `$VERSION`, then `$COMMITS` replaced
/// in that order, the result trimmed.
pub open spec fn render_template(
    template: Seq<char>,
    date: Seq<char>,
    version: Seq<char>,
    commits: Seq<Seq<char>>,
) -> Seq<char> {
    trim_spec(
        crate::text::replace_spec(
            crate::text::replace_spec(
                crate::text::replace_spec(template, "$DATE"@, date),
                "$VERSION"@,
                version,
            ),
            "$COMMITS"@,
            bullets_joined(commits),
        ),
    )
}

/// Render one section, with the default layout or through a template.
pub fn render_section(section: &ChangelogSection, template: Option<&str>) -> (r: String)
    ensures
        template is None ==> r@ == render_default(
            section.date@,
            section.version@,
            section.commits@.map_values(|c: String| c@),
        ),
        template matches Some(t) ==> r@ == render_template(
            t@,
            section.date@,
            section.version@,
            section.commits@.map_values(|c: String| c@),
        ),
{
    let ghost commit_views = section.commits@.map_values(|c: String| c@);
    let dash = str_chars("- ");
    let nl = str_chars("\n");
    match template {
        Some(t) => {
            let mut pieces: Vec<Vec<char>> = Vec::new();
            let mut i: usize = 0;
            while i < section.commits.len()
                invariant
                    commit_views == section.commits@.map_values(|c: String| c@),
                    dash@ == "- "@,
                    i <= section.commits@.len(),
                    pieces@.len() == i,
                    forall|k: int|
                        0 <= k < i ==> #[trigger] pieces@[k]@ == "- "@ + commit_views[k],
                decreases section.commits@.len() - i,
            {
                let mut piece: Vec<char> = str_chars("- ");
                let commit_chars = str_chars(section.commits[i].as_str());
                crate::text::push_chars(&mut piece, &commit_chars);
                pieces.push(piece);
                i = i + 1;
            }
            let joined = crate::text::join_chars(&pieces, &nl);
            proof {
                assert(pieces@.map_values(|p: Vec<char>| p@) =~= commit_views.map_values(
                    |c: Seq<char>| "- "@ + c,
                ));
            }
            proof {
                reveal_strlit("$DATE");
                reveal_strlit("$VERSION");
                reveal_strlit("$COMMITS");
            }
            let t_chars = str_chars(t);
            let date_chars = str_chars(section.date.as_str());
            let version_chars = str_chars(section.version.as_str());
            let pat_date = str_chars("$DATE");
            let pat_version = str_chars("$VERSION");
            let pat_commits = str_chars("$COMMITS");
            let step1 = crate::text::replace_chars(&t_chars, &pat_date, &date_chars);
            let step2 = crate::text::replace_chars(&step1, &pat_version, &version_chars);
            let step3 = crate::text::replace_chars(&step2, &pat_commits, &joined);
            let trimmed = crate::text::trim_chars(&step3);
            string_from_chars(&trimmed)
        },
        None => {
            let mut out: Vec<char> = str_chars("### ");
            let date_chars = str_chars(section.date.as_str());
            crate::text::push_chars(&mut out, &date_chars);
            let sep = str_chars(" / ");
            crate::text::push_chars(&mut out, &sep);
            let version_chars = str_chars(section.version.as_str());
            crate::text::push_chars(&mut out, &version_chars);
            let blank = str_chars("\n\n");
            crate::text::push_chars(&mut out, &blank);
            let ghost header = out@;
            let mut i: usize = 0;
            proof {
                assert(commit_views.take(0) =~= Seq::<Seq<char>>::empty());
            }
            while i < section.commits.len()
                invariant
                    commit_views == section.commits@.map_values(|c: String| c@),
                    dash@ == "- "@,
                    nl@ == "\n"@,
                    i <= section.commits@.len(),
                    out@ == header + bullet_lines(commit_views.take(i as int)),
                decreases section.commits@.len() - i,
            {
                crate::text::push_chars(&mut out, &dash);
                let commit_chars = str_chars(section.commits[i].as_str());
                crate::text::push_chars(&mut out, &commit_chars);
                crate::text::push_chars(&mut out, &nl);
                proof {
                    lemma_bullet_lines_push(commit_views.take(i as int), commit_views[i as int]);
                    assert(commit_views.take(i + 1) =~= commit_views.take(i as int).push(
                        commit_views[i as int],
                    ));
                    assert(header + (bullet_lines(commit_views.take(i as int)) + ("- "@
                        + commit_views[i as int] + "\n"@)) =~= ((header + bullet_lines(
                        commit_views.take(i as int),
                    ) + "- "@) + commit_views[i as int]) + "\n"@);
                }
                i = i + 1;
            }
            proof {
                assert(commit_views.take(commit_views.len() as int) =~= commit_views);
                assert(header + bullet_lines(commit_views) =~= "### "@ + section.date@ + " / "@
                    + section.version@ + "\n\n"@ + bullet_lines(commit_views));
            }
            let trimmed = crate::text::trim_chars(&out);
            string_from_chars(&trimmed)
        },
    }
}

/// A new section prepended to an existing document: alone with one trailing
/// newline when the document was blank, else separated by exactly one blank
/// line, the whole ending in one newline.
pub open spec fn spec_prepended(existing: Seq<char>, section: Seq<char>) -> Seq<char> {
    if trim_spec(existing).len() == 0 {
        section + "\n"@
    } else {
        section + "\n\n"@ + trim_spec(existing) + "\n"@
    }
}

pub fn with_prepended_section(existing: &str, section_markdown: &str) -> (r: String)
    ensures
        r@ == spec_prepended(existing@, section_markdown@),
{
    let existing_chars = str_chars(existing);
    let trimmed = crate::text::trim_chars(&existing_chars);
    let mut out: Vec<char> = str_chars(section_markdown);
    if trimmed.len() == 0 {
        let nl = str_chars("\n");
        crate::text::push_chars(&mut out, &nl);
    } else {
        let blank = str_chars("\n\n");
        crate::text::push_chars(&mut out, &blank);
        crate::text::push_chars(&mut out, &trimmed);
        let nl = str_chars("\n");
        crate::text::push_chars(&mut out, &nl);
        proof {
            assert(section_markdown@ + "\n\n"@ + trim_spec(existing@) + "\n"@ =~= ((
            section_markdown@ + "\n\n"@) + trim_spec(existing@)) + "\n"@);
        }
    }
    string_from_chars(&out)
}

/// A commit the changelog and release paths keep: not ignored by the filter
/// and not a `chore`.
pub open spec fn releasable(patterns: Seq<Seq<char>>, c: GitCommit) -> bool {
    !CommitFilter::spec_is_ignored(patterns, c.subject@) && !starts_with_seq(c.subject@, "chore"@)
}

/// Keep only the releasable commits, in their given order.
pub fn collect_releasable_commits(commits: Vec<GitCommit>, filter: &CommitFilter) -> (r: Vec<
    GitCommit,
>)
    requires
        filter.wf(),
    ensures
        r@ == commits@.filter(|c: GitCommit| releasable(filter@, c)),
{
    let ghost pred = |c: GitCommit| releasable(filter@, c);
    let chore = str_chars("chore");
    let mut out: Vec<GitCommit> = Vec::new();
    let mut i: usize = 0;
    proof {
        reveal(Seq::filter);
        assert(commits@.take(0) =~= Seq::<GitCommit>::empty());
        assert(commits@.take(0).filter(pred) =~= Seq::<GitCommit>::empty());
    }
    while i < commits.len()
        invariant
            filter.wf(),
            chore@ == "chore"@,
            pred == (|c: GitCommit| releasable(filter@, c)),
            i <= commits@.len(),
            out@ == commits@.take(i as int).filter(pred),
        decreases commits@.len() - i,
    {
        let c = &commits[i];
        let subj = str_chars(c.subject.as_str());
        let keep = !filter.is_ignored(c.subject.as_str()) && !starts_with_in(&subj, &chore);
        proof {
            commits@.take(i as int).lemma_filter_push(commits@[i as int], pred);
            assert(commits@.take(i + 1) =~= commits@.take(i as int).push(commits@[i as int]));
        }
        if keep {
            out.push(commits[i].clone());
        }
        i = i + 1;
    }
    proof {
        assert(commits@.take(commits@.len() as int) =~= commits@);
    }
    out
}

/// Ten characters shaped like a calendar date, `dddd-dd-dd`, open the text.
pub open spec fn date_prefix(s: Seq<char>) -> bool {
    s.len() >= 10 && is_digit(s[0]) && is_digit(s[1]) && is_digit(s[2]) && is_digit(s[3]) && s[4]
        == '-' && is_digit(s[5]) && is_digit(s[6]) && s[7] == '-' && is_digit(s[8]) && is_digit(
        s[9],
    )
}

/// The version published by a changelog heading line: the line must read
/// `###`, whitespace, a date, `/` between optional whitespace, and the
/// `major.minor.patch` digits, with only whitespace to the end.
pub open spec fn heading_version(line: Seq<char>) -> Option<Seq<char>> {
    if line.len() < 3 || line.take(3) != "###"@ {
        None
    } else {
        let s1 = line.skip(3);
        if leading_ws(s1) == 0 {
            None
        } else {
            let s2 = s1.skip(leading_ws(s1) as int);
            if !date_prefix(s2) {
                None
            } else {
                let s3 = s2.skip(10);
                let s4 = s3.skip(leading_ws(s3) as int);
                if s4.len() == 0 || s4[0] != '/' {
                    None
                } else {
                    let s5 = s4.skip(1);
                    let s6 = s5.skip(leading_ws(s5) as int);
                    let d1 = leading_digits(s6) as int;
                    if d1 == 0 {
                        None
                    } else {
                        let s7 = s6.skip(d1);
                        if s7.len() == 0 || s7[0] != '.' {
                            None
                        } else {
                            let s8 = s7.skip(1);
                            let d2 = leading_digits(s8) as int;
                            if d2 == 0 {
                                None
                            } else {
                                let s9 = s8.skip(d2);
                                if s9.len() == 0 || s9[0] != '.' {
                                    None
                                } else {
                                    let s10 = s9.skip(1);
                                    let d3 = leading_digits(s10) as int;
                                    if d3 == 0 || leading_ws(s10.skip(d3)) != s10.skip(
                                        d3,
                                    ).len() {
                                        None
                                    } else {
                                        Some(
                                            s6.take(d1) + "."@ + s8.take(d2) + "."@ + s10.take(
                                                d3,
                                            ),
                                        )
                                    }
                                }
                            }
                        }
                    }
                }
            }
        }
    }
}

/// Parse one line as a published-version heading.
#[verifier::rlimit(80)]
pub fn heading_version_exec(line: &Vec<char>) -> (r: Option<Vec<char>>)
    ensures
        r is Some <==> heading_version(line@) is Some,
        r matches Some(v) ==> heading_version(line@) == Some(v@),
{
    let n: usize = line.len();
    let hashes = str_chars("###");
    proof {
        reveal_strlit("###");
    }
    if !starts_with_in(line, &hashes) {
        proof {
            if line@.len() >= 3 {
                assert(line@.take(3) =~= line@.subrange(0, 3));
            }
        }
        return None;
    }
    proof {
        assert(line@.take(3) =~= line@.subrange(0, 3));
    }
    let ghost s1 = line@.skip(3);
    let w1 = crate::text::count_ws(line, 3);
    proof {
        assert(s1 =~= line@.skip(3));
    }
    if w1 == 0 {
        return None;
    }
    let p2 = 3 + w1;
    let ghost s2 = line@.skip(p2 as int);
    proof {
        assert(s1.skip(w1 as int) =~= s2);
    }
    if line.len() - p2 < 10 {
        return None;
    }
    let date_ok = crate::text::is_digit_char(line[p2]) && crate::text::is_digit_char(line[p2 + 1])
        && crate::text::is_digit_char(line[p2 + 2]) && crate::text::is_digit_char(line[p2 + 3])
        && line[p2 + 4] == '-' && crate::text::is_digit_char(line[p2 + 5])
        && crate::text::is_digit_char(line[p2 + 6]) && line[p2 + 7] == '-'
        && crate::text::is_digit_char(line[p2 + 8]) && crate::text::is_digit_char(line[p2 + 9]);
    if !date_ok {
        return None;
    }
    let p3 = p2 + 10;
    let ghost s3 = line@.skip(p3 as int);
    proof {
        assert(s2.skip(10) =~= s3);
    }
    let w2 = crate::text::count_ws(line, p3);
    let p4 = p3 + w2;
    let ghost s4 = line@.skip(p4 as int);
    proof {
        assert(s3.skip(w2 as int) =~= s4);
    }
    if p4 == line.len() || line[p4] != '/' {
        return None;
    }
    let p5 = p4 + 1;
    let ghost s5 = line@.skip(p5 as int);
    proof {
        assert(s4.skip(1) =~= s5);
    }
    let w3 = crate::text::count_ws(line, p5);
    let p6 = p5 + w3;
    let ghost s6 = line@.skip(p6 as int);
    proof {
        assert(s5.skip(w3 as int) =~= s6);
    }
    let d1 = crate::text::count_digits(line, p6);
    if d1 == 0 {
        return None;
    }
    let p7 = p6 + d1;
    let ghost s7 = line@.skip(p7 as int);
    proof {
        assert(s6.skip(d1 as int) =~= s7);
    }
    if p7 == line.len() || line[p7] != '.' {
        return None;
    }
    let p8 = p7 + 1;
    let ghost s8 = line@.skip(p8 as int);
    proof {
        assert(s7.skip(1) =~= s8);
    }
    let d2 = crate::text::count_digits(line, p8);
    if d2 == 0 {
        return None;
    }
    let p9 = p8 + d2;
    let ghost s9 = line@.skip(p9 as int);
    proof {
        assert(s8.skip(d2 as int) =~= s9);
    }
    if p9 == line.len() || line[p9] != '.' {
        return None;
    }
    let p10 = p9 + 1;
    let ghost s10 = line@.skip(p10 as int);
    proof {
        assert(s9.skip(1) =~= s10);
    }
    let d3 = crate::text::count_digits(line, p10);
    if d3 == 0 {
        return None;
    }
    let p11 = p10 + d3;
    let ghost s11 = line@.skip(p11 as int);
    proof {
        assert(s10.skip(d3 as int) =~= s11);
    }
    let w4 = crate::text::count_ws(line, p11);
    if p11 + w4 != line.len() {
        proof {
            assert(leading_ws(s11) != s11.len());
        }
        return None;
    }
    let mut out = crate::text::sub_chars(line, p6, p7);
    let dot = str_chars(".");
    crate::text::push_chars(&mut out, &dot);
    let part2 = crate::text::sub_chars(line, p8, p9);
    crate::text::push_chars(&mut out, &part2);
    crate::text::push_chars(&mut out, &dot);
    let part3 = crate::text::sub_chars(line, p10, p11);
    crate::text::push_chars(&mut out, &part3);
    proof {
        assert(leading_ws(s11) == s11.len());
        assert(s6.take(d1 as int) =~= line@.subrange(p6 as int, p7 as int));
        assert(s8.take(d2 as int) =~= line@.subrange(p8 as int, p9 as int));
        assert(s10.take(d3 as int) =~= line@.subrange(p10 as int, p11 as int));
        assert(out@ =~= s6.take(d1 as int) + "."@ + s8.take(d2 as int) + "."@ + s10.take(
            d3 as int,
        ));
    }
    Some(out)
}

/// The versions published by a document's heading lines, in order.
pub open spec fn collect_heading_versions(lines: Seq<Seq<char>>) -> Seq<Seq<char>>
    decreases lines.len(),
{
    if lines.len() == 0 {
        Seq::empty()
    } else {
        match heading_version(lines[0]) {
            Some(v) => seq![v] + collect_heading_versions(lines.drop_first()),
            None => collect_heading_versions(lines.drop_first()),
        }
    }
}

proof fn lemma_collect_push(lines: Seq<Seq<char>>, l: Seq<char>)
    ensures
        collect_heading_versions(lines.push(l)) == match heading_version(l) {
            Some(v) => collect_heading_versions(lines).push(v),
            None => collect_heading_versions(lines),
        },
    decreases lines.len(),
{
    if lines.len() == 0 {
        assert(lines.push(l)[0] == l);
        assert(lines.push(l).drop_first() =~= Seq::<Seq<char>>::empty());
        assert(collect_heading_versions(Seq::<Seq<char>>::empty()) == Seq::<Seq<char>>::empty());
        match heading_version(l) {
            Some(v) => {
                assert(collect_heading_versions(lines.push(l)) == seq![v]
                    + Seq::<Seq<char>>::empty());
                assert(seq![v] + Seq::<Seq<char>>::empty() =~= Seq::<Seq<char>>::empty().push(v));
            },
            None => {},
        }
    } else {
        lemma_collect_push(lines.drop_first(), l);
        assert(lines.push(l).drop_first() =~= lines.drop_first().push(l));
        assert(lines.push(l)[0] == lines[0]);
        match heading_version(lines[0]) {
            Some(v0) => {
                assert(collect_heading_versions(lines.push(l)) == seq![v0]
                    + collect_heading_versions(lines.drop_first().push(l)));
                assert(collect_heading_versions(lines) == seq![v0] + collect_heading_versions(
                    lines.drop_first(),
                ));
                match heading_version(l) {
                    Some(v) => {
                        assert(seq![v0] + collect_heading_versions(lines.drop_first()).push(v)
                            =~= (seq![v0] + collect_heading_versions(lines.drop_first())).push(
                            v,
                        ));
                    },
                    None => {},
                }
            },
            None => {
                assert(collect_heading_versions(lines.push(l)) == collect_heading_versions(
                    lines.drop_first().push(l),
                ));
                assert(collect_heading_versions(lines) == collect_heading_versions(
                    lines.drop_first(),
                ));
            },
        }
    }
}

/// A run with later repeats of an element dropped: each element kept at its
/// first appearance, in order.
pub open spec fn distinct_in_order(s: Seq<Seq<char>>) -> Seq<Seq<char>>
    decreases s.len(),
{
    if s.len() == 0 {
        Seq::empty()
    } else {
        let prefix = distinct_in_order(s.drop_last());
        if prefix.contains(s.last()) {
            prefix
        } else {
            prefix.push(s.last())
        }
    }
}

/// The deduplicated run holds no element twice.
pub proof fn lemma_distinct_no_duplicates(s: Seq<Seq<char>>)
    ensures
        forall|i: int, j: int|
            0 <= i < j < distinct_in_order(s).len() ==> distinct_in_order(s)[i]
                != distinct_in_order(s)[j],
    decreases s.len(),
{
    if s.len() > 0 {
        lemma_distinct_no_duplicates(s.drop_last());
        let prefix = distinct_in_order(s.drop_last());
        if !prefix.contains(s.last()) {
            let r = prefix.push(s.last());
            assert forall|i: int, j: int| 0 <= i < j < r.len() implies r[i] != r[j] by {
                if j == r.len() - 1 {
                    assert(r[i] == prefix[i]);
                    if prefix[i] == s.last() {
                        assert(prefix.contains(s.last()));
                    }
                }
            }
        }
    }
}

/// Deduplication keeps membership exactly.
pub proof fn lemma_distinct_membership(s: Seq<Seq<char>>, x: Seq<char>)
    ensures
        distinct_in_order(s).contains(x) <==> s.contains(x),
    decreases s.len(),
{
    if s.len() > 0 {
        lemma_distinct_membership(s.drop_last(), x);
        let prefix = distinct_in_order(s.drop_last());
        let d = distinct_in_order(s);
        if s.contains(x) {
            let i = choose|i: int| 0 <= i < s.len() && s[i] == x;
            if i < s.len() - 1 {
                assert(s.drop_last()[i] == x);
                assert(s.drop_last().contains(x));
                let k = choose|k: int| 0 <= k < prefix.len() && prefix[k] == x;
                assert(d[k] == x);
                assert(d.contains(x));
            } else {
                assert(x == s.last());
                if prefix.contains(x) {
                    let k = choose|k: int| 0 <= k < prefix.len() && prefix[k] == x;
                    assert(d[k] == x);
                    assert(d.contains(x));
                } else {
                    assert(d == prefix.push(x));
                    assert(d[d.len() - 1] == x);
                    assert(d.contains(x));
                }
            }
        }
        if d.contains(x) {
            let k = choose|k: int| 0 <= k < d.len() && d[k] == x;
            if prefix.contains(s.last()) {
                assert(d == prefix);
                assert(prefix.contains(x));
            } else {
                if k < d.len() - 1 {
                    assert(prefix[k] == x);
                    assert(prefix.contains(x));
                } else {
                    assert(x == s.last());
                    assert(s[s.len() - 1] == x);
                    assert(s.contains(x));
                }
            }
            if prefix.contains(x) {
                assert(s.drop_last().contains(x));
                let m = choose|m: int|
                    0 <= m < s.drop_last().len() && s.drop_last()[m] == x;
                assert(s[m] == x);
                assert(s.contains(x));
            }
        }
    }
}

/// Deduplication keeps the first element.
proof fn lemma_distinct_head(s: Seq<Seq<char>>)
    requires
        s.len() > 0,
    ensures
        distinct_in_order(s).len() > 0,
        distinct_in_order(s)[0] == s[0],
    decreases s.len(),
{
    if s.len() == 1 {
        assert(s.drop_last() =~= Seq::<Seq<char>>::empty());
        assert(distinct_in_order(Seq::<Seq<char>>::empty()) == Seq::<Seq<char>>::empty());
        assert(distinct_in_order(s) == Seq::<Seq<char>>::empty().push(s.last()));
        assert(s.last() == s[0]);
    } else {
        lemma_distinct_head(s.drop_last());
        assert(s.drop_last()[0] == s[0]);
        let prefix = distinct_in_order(s.drop_last());
        if !prefix.contains(s.last()) {
            assert(prefix.push(s.last())[0] == prefix[0]);
        }
    }
}

/// The versions published by a changelog document's headings, in order of
/// first appearance, each at most once.
pub open spec fn extract_versions_spec(markdown: Seq<char>) -> Seq<Seq<char>> {
    distinct_in_order(collect_heading_versions(crate::text::lines_spec(markdown)))
}

/// Collect the set of versions published by the document's headings, in
/// order of first appearance and without repeats.
pub fn extract_versions(markdown: &str) -> (r: Vec<String>)
    ensures
        r@.len() == extract_versions_spec(markdown@).len(),
        forall|k: int| 0 <= k < r@.len() ==> r@[k]@ == extract_versions_spec(markdown@)[k],
        forall|i: int, j: int| 0 <= i < j < r@.len() ==> r@[i]@ != r@[j]@,
{
    let md = str_chars(markdown);
    let lines = crate::text::lines_chars(&md);
    let ghost line_views = crate::text::lines_spec(markdown@);
    let mut out: Vec<String> = Vec::new();
    let mut out_chars: Vec<Vec<char>> = Vec::new();
    let mut i: usize = 0;
    proof {
        assert(line_views.take(0) =~= Seq::<Seq<char>>::empty());
    }
    while i < lines.len()
        invariant
            lines@.len() == line_views.len(),
            forall|k: int| 0 <= k < lines@.len() ==> lines@[k]@ == line_views[k],
            i <= lines@.len(),
            out@.len() == out_chars@.len(),
            forall|k: int| 0 <= k < out@.len() ==> out@[k]@ == out_chars@[k]@,
            out@.len() == distinct_in_order(
                collect_heading_versions(line_views.take(i as int)),
            ).len(),
            forall|k: int|
                0 <= k < out@.len() ==> out@[k]@ == distinct_in_order(
                    collect_heading_versions(line_views.take(i as int)),
                )[k],
        decreases lines@.len() - i,
    {
        let ghost collected = collect_heading_versions(line_views.take(i as int));
        proof {
            lemma_collect_push(line_views.take(i as int), line_views[i as int]);
            assert(line_views.take(i + 1) =~= line_views.take(i as int).push(
                line_views[i as int],
            ));
        }
        match heading_version_exec(&lines[i]) {
            Some(v) => {
                proof {
                    assert(collect_heading_versions(line_views.take(i + 1))
                        == collected.push(v@));
                    assert(collected.push(v@).drop_last() =~= collected);
                    assert(collected.push(v@).last() == v@);
                }
                let mut seen = false;
                let mut m: usize = 0;
                while m < out_chars.len()
                    invariant
                        out@.len() == out_chars@.len(),
                        forall|k: int| 0 <= k < out@.len() ==> out@[k]@ == out_chars@[k]@,
                        m <= out_chars@.len(),
                        seen == exists|k: int| 0 <= k < m && out_chars@[k]@ == v@,
                    decreases out_chars@.len() - m,
                {
                    if crate::text::eq_chars(&out_chars[m], &v) {
                        seen = true;
                    }
                    m = m + 1;
                }
                proof {
                    if seen {
                        let k = choose|k: int|
                            0 <= k < out_chars@.len() && out_chars@[k]@ == v@;
                        assert(distinct_in_order(collected)[k] == v@);
                        assert(distinct_in_order(collected).contains(v@));
                    } else if distinct_in_order(collected).contains(v@) {
                        let k = choose|k: int|
                            0 <= k < distinct_in_order(collected).len() && distinct_in_order(
                                collected,
                            )[k] == v@;
                        assert(out_chars@[k]@ == v@);
                    }
                    assert(seen == distinct_in_order(collected).contains(v@));
                }
                if !seen {
                    out.push(string_from_chars(&v));
                    out_chars.push(v);
                }
            },
            None => {},
        }
        i = i + 1;
    }
    proof {
        assert(line_views.take(line_views.len() as int) =~= line_views);
        lemma_distinct_no_duplicates(collect_heading_versions(line_views));
        assert forall|a: int, b: int| 0 <= a < b < out@.len() implies out@[a]@ != out@[b]@ by {
            assert(out@[a]@ == extract_versions_spec(markdown@)[a]);
            assert(out@[b]@ == extract_versions_spec(markdown@)[b]);
        }
    }
    out
}

/// The plain parts of a version: the three numbers, the pre-release text and
/// the build text.
pub open spec fn vparts(v: Version) -> (u64, u64, u64, Seq<char>, Seq<char>) {
    (v.major, v.minor, v.patch, v.pre@, v.build@)
}

/// One bump step on version parts.
pub open spec fn bump_parts(p: (u64, u64, u64, Seq<char>, Seq<char>), b: BumpLevel) -> (
    u64,
    u64,
    u64,
    Seq<char>,
    Seq<char>,
) {
    match b {
        BumpLevel::Major => (((p.0 + 1) as u64), 0u64, 0u64, p.3, p.4),
        BumpLevel::Minor => (p.0, ((p.1 + 1) as u64), 0u64, p.3, p.4),
        BumpLevel::Patch => (p.0, p.1, ((p.2 + 1) as u64), p.3, p.4),
    }
}

/// The rendered form of version parts.
pub open spec fn parts_seq(p: (u64, u64, u64, Seq<char>, Seq<char>)) -> Seq<char> {
    crate::text::dec_spec(p.0 as nat) + "."@ + crate::text::dec_spec(p.1 as nat) + "."@
        + crate::text::dec_spec(p.2 as nat) + (if p.3.len() > 0 {
        "-"@ + p.3
    } else {
        Seq::empty()
    }) + (if p.4.len() > 0 {
        "+"@ + p.4
    } else {
        Seq::empty()
    })
}

/// One bump step: a major bump raises the major number and resets minor and
/// patch; a minor bump raises the minor number and resets patch; a patch bump
/// raises the patch number alone. The absent current version counts as
/// `0.0.0`; pre-release and build text ride along unchanged.
pub proof fn lemma_bump_resets_lower_fields(
    current: Option<(u64, u64, u64, Seq<char>, Seq<char>)>,
    b: BumpLevel,
)
    requires
        current matches Some(p) ==> match b {
            BumpLevel::Major => p.0 < u64::MAX,
            BumpLevel::Minor => p.1 < u64::MAX,
            BumpLevel::Patch => p.2 < u64::MAX,
        },
    ensures
        ({
            let base = match current {
                Some(p) => p,
                None => (0u64, 0u64, 0u64, Seq::<char>::empty(), Seq::<char>::empty()),
            };
            let next = bump_parts(base, b);
            &&& b is Major ==> next == ((base.0 + 1) as u64, 0u64, 0u64, base.3, base.4)
            &&& b is Minor ==> next == (base.0, (base.1 + 1) as u64, 0u64, base.3, base.4)
            &&& b is Patch ==> next == (base.0, base.1, (base.2 + 1) as u64, base.3, base.4)
        }),
{
}

/// The version the changelog path aims at: no target bumps by the detected
/// level; a keyword bumps by that level; any other text must parse as a
/// (possibly `v`-prefixed) strict version.
pub open spec fn spec_changelog_target(
    current: Option<(u64, u64, u64, Seq<char>, Seq<char>)>,
    target: Option<Seq<char>>,
    detected: BumpLevel,
) -> Result<(u64, u64, u64, Seq<char>, Seq<char>), Seq<char>> {
    let base = match current {
        Some(p) => p,
        None => (0u64, 0u64, 0u64, Seq::<char>::empty(), Seq::<char>::empty()),
    };
    match target {
        None => Ok(bump_parts(base, detected)),
        Some(raw) => {
            let low = ascii_lower_seq(raw);
            if low == "major"@ {
                Ok(bump_parts(base, BumpLevel::Major))
            } else if low == "minor"@ {
                Ok(bump_parts(base, BumpLevel::Minor))
            } else if low == "patch"@ {
                Ok(bump_parts(base, BumpLevel::Patch))
            } else {
                match semver_parse(strip_leading(raw, 'v')) {
                    Some(p) => Ok(p),
                    None => Err("Invalid changelog target version '"@ + raw + "'"@),
                }
            }
        },
    }
}

/// Whether every bump step from `current` stays within `u64`.
pub open spec fn version_headroom(current: Option<Version>) -> bool {
    match current {
        Some(c) => c.major < u64::MAX && c.minor < u64::MAX && c.patch < u64::MAX,
        None => true,
    }
}

/// Resolve the changelog's target version from the current version, an
/// optional explicit target, and the detected bump.
pub fn resolve_changelog_target(
    current: Option<Version>,
    target: Option<&str>,
    detected_bump: BumpLevel,
) -> (r: Result<Version, String>)
    requires
        version_headroom(current),
    ensures
        ({
            let cur = match current {
                Some(c) => Some(vparts(c)),
                None => None,
            };
            let tv: Option<Seq<char>> = match target {
                Some(t) => Some(t@),
                None => None,
            };
            let goal = spec_changelog_target(cur, tv, detected_bump);
            &&& (r is Ok <==> goal is Ok)
            &&& (r matches Ok(v) ==> goal matches Ok(p) && vparts(v) == p)
            &&& (r matches Err(e) ==> goal matches Err(m) && e@ == m)
        }),
{
    match target {
        None => Ok(bump_version(current, detected_bump)),
        Some(raw_target) => {
            proof {
                reveal_strlit("major");
                reveal_strlit("minor");
                reveal_strlit("patch");
                assert("major"@[1] == 'a' && "minor"@[1] == 'i' && "patch"@[1] == 'a');
                assert("major"@[0] == 'm' && "patch"@[0] == 'p');
                assert("major"@ != "minor"@ && "major"@ != "patch"@ && "minor"@ != "patch"@);
            }
            let raw_chars = str_chars(raw_target);
            let low = ascii_lower_chars(&raw_chars);
            let major_kw = str_chars("major");
            let minor_kw = str_chars("minor");
            let patch_kw = str_chars("patch");
            if crate::text::eq_chars(&low, &major_kw) {
                Ok(bump_version(current, BumpLevel::Major))
            } else if crate::text::eq_chars(&low, &minor_kw) {
                Ok(bump_version(current, BumpLevel::Minor))
            } else if crate::text::eq_chars(&low, &patch_kw) {
                Ok(bump_version(current, BumpLevel::Patch))
            } else {
                let stripped = strip_leading_chars(&raw_chars, 'v');
                let text = string_from_chars(&stripped);
                match parse_semver(text.as_str()) {
                    Some(v) => Ok(v),
                    None => {
                        let mut msg: Vec<char> = str_chars("Invalid changelog target version '");
                        crate::text::push_chars(&mut msg, &raw_chars);
                        let quote = str_chars("'");
                        crate::text::push_chars(&mut msg, &quote);
                        proof {
                            assert(msg@ =~= "Invalid changelog target version '"@ + raw_target@
                                + "'"@);
                        }
                        Err(string_from_chars(&msg))
                    },
                }
            }
        },
    }
}

/// The maximum bump level over a run of commits, `Patch` for an empty run.
pub open spec fn max_bump(commits: Seq<GitCommit>) -> BumpLevel
    decreases commits.len(),
{
    if commits.len() == 0 {
        BumpLevel::Patch
    } else {
        let rest = max_bump(commits.drop_first());
        let own = crate::conventional::spec_infer_bump(commits[0].subject@, commits[0].body@);
        if crate::conventional::bump_rank(own) >= crate::conventional::bump_rank(rest) {
            own
        } else {
            rest
        }
    }
}

/// Aggregate the bump level over a run of commits.
pub fn aggregate_bump(commits: &Vec<GitCommit>) -> (r: BumpLevel)
    ensures
        r == max_bump(commits@),
{
    let mut bump = BumpLevel::Patch;
    let mut i: usize = commits.len();
    proof {
        assert(commits@.skip(i as int).len() == 0);
    }
    while i > 0
        invariant
            i <= commits@.len(),
            bump == max_bump(commits@.skip(i as int)),
        decreases i,
    {
        i = i - 1;
        proof {
            assert(commits@.skip(i as int)[0] == commits@[i as int]);
            assert(commits@.skip(i as int).drop_first() =~= commits@.skip(i + 1));
        }
        let c = &commits[i];
        let own = crate::conventional::infer_bump(c.subject.as_str(), c.body.as_str());
        bump = own.max(bump);
    }
    proof {
        assert(commits@.skip(0) =~= commits@);
    }
    bump
}

/// The timestamp of the most recent commit of a window, `0` for an empty
/// window.
pub open spec fn latest_commit_time(commits: Seq<GitCommit>) -> int
    decreases commits.len(),
{
    if commits.len() == 0 {
        0
    } else {
        let rest = latest_commit_time(commits.drop_first());
        if commits.len() == 1 || commits[0].time >= rest {
            commits[0].time as int
        } else {
            rest
        }
    }
}

/// The most recent commit timestamp of a window.
pub fn latest_time(commits: &Vec<GitCommit>) -> (r: i64)
    requires
        commits@.len() > 0,
    ensures
        r as int == latest_commit_time(commits@),
{
    let mut i: usize = commits.len() - 1;
    let mut acc = commits[i].time;
    proof {
        assert(commits@.skip(i as int).len() == 1);
        assert(commits@.skip(i as int)[0] == commits@[i as int]);
    }
    while i > 0
        invariant
            i < commits@.len(),
            acc as int == latest_commit_time(commits@.skip(i as int)),
        decreases i,
    {
        i = i - 1;
        proof {
            assert(commits@.skip(i as int)[0] == commits@[i as int]);
            assert(commits@.skip(i as int).drop_first() =~= commits@.skip(i + 1));
            assert(commits@.skip(i as int).len() >= 2);
        }
        if commits[i].time >= acc {
            acc = commits[i].time;
        }
    }
    proof {
        assert(commits@.skip(0) =~= commits@);
    }
    acc
}

/// What one changelog run decides.
#[derive(Debug)]
pub enum ChangelogOutcome {
    /// No releasable commit: the document is left alone.
    NoReleasableCommits,
    /// The next version already stands in the document: the document is left
    /// alone. The text is that version.
    VersionAlreadyPresent(String),
    /// The document must become `document`, publishing `version`.
    Updated { document: String, version: String },
}

/// The subject views of a commit run.
pub open spec fn subjects_of(commits: Seq<GitCommit>) -> Seq<Seq<char>> {
    commits.map_values(|c: GitCommit| c.subject@)
}

/// The section a sorted window renders to, under an optional template.
pub open spec fn spec_section_text(
    date: Seq<char>,
    version: Seq<char>,
    commits: Seq<GitCommit>,
    template: Option<Seq<char>>,
) -> Seq<char> {
    match template {
        None => render_default(date, version, subjects_of(commits)),
        Some(t) => render_template(t, date, version, subjects_of(commits)),
    }
}

/// Decide one changelog update: keep the releasable commits, sort them,
/// aggregate their bump, resolve the next version, and either skip (no
/// commits, or the version is already published) or produce the new document.
#[verifier::loop_isolation(false)]
pub fn compose_changelog_update(
    existing: &str,
    commits: Vec<GitCommit>,
    filter: &CommitFilter,
    latest_version: Option<Version>,
    target: Option<&str>,
    template: Option<&str>,
) -> (r: Result<ChangelogOutcome, String>)
    requires
        filter.wf(),
        version_headroom(latest_version),
    ensures
        ({
            let kept = commits@.filter(|c: GitCommit| releasable(filter@, c));
            let sorted = sort_commits(kept);
            let cur = match latest_version {
                Some(c) => Some(vparts(c)),
                None => None,
            };
            let tv: Option<Seq<char>> = match target {
                Some(t) => Some(t@),
                None => None,
            };
            let goal = spec_changelog_target(cur, tv, max_bump(sorted));
            &&& kept.len() == 0 ==> r == Ok::<ChangelogOutcome, String>(ChangelogOutcome::NoReleasableCommits)
            &&& kept.len() > 0 ==> {
                &&& (r is Err <==> goal is Err)
                &&& (r matches Err(e) ==> goal matches Err(m) && e@ == m)
                &&& (r matches Ok(o) ==> goal matches Ok(p) && {
                    let vs = parts_seq(p);
                    let published = extract_versions_spec(existing@);
                    if exists|k: int| 0 <= k < published.len() && published[k] == vs {
                        o matches ChangelogOutcome::VersionAlreadyPresent(s) && s@ == vs
                    } else {
                        o matches ChangelogOutcome::Updated { document, version } && version@
                            == vs && document@ == spec_prepended(
                            existing@,
                            spec_section_text(
                                utc_date_string(latest_commit_time(kept)),
                                vs,
                                sorted,
                                match template {
                                    Some(t) => Some(t@),
                                    None => None,
                                },
                            ),
                        )
                    }
                })
            }
        }),
{
    let ghost kept_spec = commits@.filter(|c: GitCommit| releasable(filter@, c));
    let kept = collect_releasable_commits(commits, filter);
    if kept.len() == 0 {
        proof {
            assert(kept_spec.len() == 0);
        }
        return Ok(ChangelogOutcome::NoReleasableCommits);
    }
    proof {
        assert(kept_spec.len() > 0);
    }
    let window_time = latest_time(&kept);
    let mut sorted = kept;
    apply_default_sorting(&mut sorted);
    let bump = aggregate_bump(&sorted);
    let next = match resolve_changelog_target(latest_version, target, bump) {
        Ok(v) => v,
        Err(e) => {
            return Err(e);
        },
    };
    let next_string = crate::version::format_version(&next);
    let published = extract_versions(existing);
    let next_chars = str_chars(next_string.as_str());
    let mut k: usize = 0;
    let ghost pub_views = extract_versions_spec(existing@);
    while k < published.len()
        invariant
            published@.len() == pub_views.len(),
            forall|m: int| 0 <= m < pub_views.len() ==> published@[m]@ == pub_views[m],
            next_chars@ == version_seq(next),
            k <= pub_views.len(),
            forall|m: int| 0 <= m < k ==> pub_views[m] != next_chars@,
        decreases pub_views.len() - k,
    {
        let entry = str_chars(published[k].as_str());
        if crate::text::eq_chars(&entry, &next_chars) {
            proof {
                assert(pub_views[k as int] == version_seq(next));
            }
            return Ok(ChangelogOutcome::VersionAlreadyPresent(next_string));
        }
        k = k + 1;
    }
    let date = format_date(window_time);
    let mut subject_list: Vec<String> = Vec::new();
    let mut i: usize = 0;
    while i < sorted.len()
        invariant
            i <= sorted@.len(),
            subject_list@.len() == i,
            forall|m: int| 0 <= m < i ==> subject_list@[m]@ == sorted@[m].subject@,
        decreases sorted@.len() - i,
    {
        subject_list.push(sorted[i].subject.clone());
        i = i + 1;
    }
    let section = ChangelogSection { date, version: next_string, commits: subject_list };
    let section_markdown = render_section(&section, template);
    let output = with_prepended_section(existing, section_markdown.as_str());
    proof {
        assert(section.commits@.map_values(|c: String| c@) =~= subjects_of(sort_commits(kept_spec)));
        assert(forall|m: int|
            0 <= m < pub_views.len() ==> pub_views[m] != version_seq(next));
        assert(version_seq(next) == parts_seq(vparts(next)));
    }
    Ok(ChangelogOutcome::Updated { document: output, version: section.version })
}

/// Every character of a decimal rendering is a digit, and there is one.
proof fn lemma_dec_digits(n: nat)
    ensures
        crate::text::dec_spec(n).len() >= 1,
        forall|k: int|
            0 <= k < crate::text::dec_spec(n).len() ==> is_digit(
                #[trigger] crate::text::dec_spec(n)[k],
            ),
    decreases n,
{
    if n >= 10 {
        lemma_dec_digits(n / 10);
    }
}

/// The trimmed end of a text is a prefix ending at its last non-whitespace
/// character.
proof fn lemma_trim_end_shape(s: Seq<char>)
    ensures
        exists|b: int|
            0 <= b <= s.len() && crate::text::trim_end_spec(s) == s.take(b) && (forall|k: int|
                b <= k < s.len() ==> is_ws(#[trigger] s[k])) && (b > 0 ==> !is_ws(s[b - 1])),
    decreases s.len(),
{
    if s.len() > 0 && is_ws(s.last()) {
        lemma_trim_end_shape(s.drop_last());
        let b = choose|b: int|
            0 <= b <= s.drop_last().len() && crate::text::trim_end_spec(s.drop_last())
                == s.drop_last().take(b) && (forall|k: int|
                b <= k < s.drop_last().len() ==> is_ws(#[trigger] s.drop_last()[k])) && (b > 0
                ==> !is_ws(s.drop_last()[b - 1]));
        assert(s.drop_last().take(b) =~= s.take(b));
        assert forall|k: int| b <= k < s.len() - 1 implies is_ws(#[trigger] s[k]) by {
            assert(s[k] == s.drop_last()[k]);
            assert(is_ws(s.drop_last()[k]));
        }
        assert(0 <= b <= s.len() && crate::text::trim_end_spec(s) == s.take(b) && (forall|k: int|
            b <= k < s.len() ==> is_ws(#[trigger] s[k])) && (b > 0 ==> !is_ws(s[b - 1])));
    } else {
        assert(s.take(s.len() as int) =~= s);
        let b = s.len() as int;
        assert(0 <= b <= s.len() && crate::text::trim_end_spec(s) == s.take(b) && (forall|k: int|
            b <= k < s.len() ==> is_ws(#[trigger] s[k])) && (b > 0 ==> !is_ws(s[b - 1])));
    }
}

/// Three non-empty digit runs joined by dots, and nothing else: the version
/// texts a changelog heading publishes. Leading zeros are allowed.
pub open spec fn dotted_triple(v: Seq<char>) -> bool {
    let d1 = leading_digits(v) as int;
    &&& d1 > 0
    &&& d1 < v.len()
    &&& v[d1] == '.'
    &&& {
        let s8 = v.skip(d1 + 1);
        let d2 = leading_digits(s8) as int;
        &&& d2 > 0
        &&& d2 < s8.len()
        &&& s8[d2] == '.'
        &&& {
            let s10 = s8.skip(d2 + 1);
            let d3 = leading_digits(s10) as int;
            d3 > 0 && d3 == s10.len()
        }
    }
}

/// Every character of a dotted triple is a digit or a dot; it opens and
/// closes with a digit.
proof fn lemma_dotted_chars(v: Seq<char>)
    requires
        dotted_triple(v),
    ensures
        v.len() >= 5,
        forall|k: int| 0 <= k < v.len() ==> is_digit(#[trigger] v[k]) || v[k] == '.',
        is_digit(v[0]),
        is_digit(v.last()),
{
    let d1 = leading_digits(v) as int;
    let s8 = v.skip(d1 + 1);
    let d2 = leading_digits(s8) as int;
    let s10 = s8.skip(d2 + 1);
    let d3 = leading_digits(s10) as int;
    crate::text::lemma_leading_digits_prefix(v);
    crate::text::lemma_leading_digits_prefix(s8);
    crate::text::lemma_leading_digits_prefix(s10);
    assert(v.len() == d1 + 1 + d2 + 1 + d3);
    assert forall|k: int| 0 <= k < v.len() implies is_digit(#[trigger] v[k]) || v[k] == '.' by {
        if k < d1 {
        } else if k == d1 {
        } else if k < d1 + 1 + d2 {
            assert(s8[k - d1 - 1] == v[k]);
            assert(is_digit(s8[k - d1 - 1]));
        } else if k == d1 + 1 + d2 {
            assert(s8[d2] == v[k]);
        } else {
            assert(s10[k - d1 - 1 - d2 - 1] == v[k]);
            assert(is_digit(s10[k - d1 - 1 - d2 - 1]));
        }
    }
    assert(s10[d3 - 1] == v[v.len() - 1]);
    assert(is_digit(s10[d3 - 1]));
}

/// A canonically rendered plain `major.minor.patch` version is a dotted triple.
pub proof fn lemma_parts_plain_is_dotted(parts: (u64, u64, u64, Seq<char>, Seq<char>))
    requires
        parts.3.len() == 0,
        parts.4.len() == 0,
    ensures
        dotted_triple(parts_seq(parts)),
{
    reveal_strlit(".");
    let a = crate::text::dec_spec(parts.0 as nat);
    let b = crate::text::dec_spec(parts.1 as nat);
    let c = crate::text::dec_spec(parts.2 as nat);
    lemma_dec_digits(parts.0 as nat);
    lemma_dec_digits(parts.1 as nat);
    lemma_dec_digits(parts.2 as nat);
    let v = parts_seq(parts);
    assert(v =~= a + "."@ + b + "."@ + c);
    let d1 = a.len() as int;
    assert(forall|k: int| 0 <= k < d1 ==> is_digit(#[trigger] v[k]));
    assert(v[d1] == '.' && !is_digit(v[d1]));
    crate::text::lemma_leading_digits_at(v, d1);
    let s8 = v.skip(d1 + 1);
    assert(s8 =~= b + "."@ + c);
    let d2 = b.len() as int;
    assert(forall|k: int| 0 <= k < d2 ==> is_digit(#[trigger] s8[k]));
    assert(s8[d2] == '.' && !is_digit(s8[d2]));
    crate::text::lemma_leading_digits_at(s8, d2);
    let s10 = s8.skip(d2 + 1);
    assert(s10 =~= c);
    assert(forall|k: int| 0 <= k < s10.len() ==> is_digit(#[trigger] s10[k]));
    crate::text::lemma_leading_digits_at(s10, c.len() as int);
}

/// No newline or carriage return stands in a heading line built from a
/// well-shaped date and a dotted-triple version.
proof fn lemma_heading_line_chars(date: Seq<char>, v: Seq<char>)
    requires
        date_prefix(date),
        date.len() == 10,
        dotted_triple(v),
    ensures
        ({
            let line = "### "@ + date + " / "@ + v;
            forall|i: int| 0 <= i < line.len() ==> #[trigger] line[i] != '\n' && line[i] != '\r'
        }),
{
    reveal_strlit("### ");
    reveal_strlit(" / ");
    lemma_dotted_chars(v);
    let line = "### "@ + date + " / "@ + v;
    assert forall|i: int| 0 <= i < line.len() implies #[trigger] line[i] != '\n' && line[i]
        != '\r' by {
        if i < 4 {
            assert(line[i] == "### "@[i]);
        } else if i < 14 {
            assert(line[i] == date[i - 4]);
            assert(is_digit(date[i - 4]) || date[i - 4] == '-');
        } else if i < 17 {
            assert(line[i] == " / "@[i - 14]);
        } else {
            assert(line[i] == v[i - 17]);
        }
    }
}

/// A heading line built from a well-shaped date and a dotted-triple version
/// parses back to exactly that version.
#[verifier::rlimit(100)]
#[verifier::spinoff_prover]
proof fn lemma_heading_parse(date: Seq<char>, v: Seq<char>)
    requires
        date_prefix(date),
        date.len() == 10,
        dotted_triple(v),
    ensures
        heading_version("### "@ + date + " / "@ + v) == Some(v),
{
    reveal_strlit("### ");
    reveal_strlit("###");
    reveal_strlit(" / ");
    lemma_dotted_chars(v);
    let line = "### "@ + date + " / "@ + v;

    assert(line.take(3) =~= "###"@);
    let s1 = line.skip(3);
    assert(s1[0] == ' ' && is_ws(s1[0]));
    assert(s1[1] == date[0] && is_digit(date[0]) && !is_ws(s1[1]));
    crate::text::lemma_leading_ws_at(s1, 1);
    let s2 = s1.skip(1);
    assert(s2 =~= date + " / "@ + v);
    assert(forall|k: int| 0 <= k < 10 ==> #[trigger] s2[k] == date[k]);
    assert(date_prefix(s2));
    let s3 = s2.skip(10);
    assert(s3 =~= " / "@ + v);
    assert(s3[0] == ' ' && is_ws(s3[0]));
    assert(s3[1] == '/' && !is_ws(s3[1]));
    crate::text::lemma_leading_ws_at(s3, 1);
    let s4 = s3.skip(1);
    assert(s4[0] == '/');
    let s5 = s4.skip(1);
    assert(s5 =~= seq![' '] + v);
    assert(is_ws(s5[0]) && !is_ws(s5[1]));
    crate::text::lemma_leading_ws_at(s5, 1);
    let s6 = s5.skip(1);
    assert(s6 =~= v);

    let d1 = leading_digits(v) as int;
    let v8 = v.skip(d1 + 1);
    let d2 = leading_digits(v8) as int;
    let v10 = v8.skip(d2 + 1);
    let d3 = leading_digits(v10) as int;
    crate::text::lemma_leading_digits_prefix(v10);
    assert(leading_digits(s6) == leading_digits(v));
    let s7 = s6.skip(d1);
    assert(s7[0] == v[d1] && s7[0] == '.');
    let s8 = s7.skip(1);
    assert(s8 =~= v8);
    let s9 = s8.skip(d2);
    assert(s9[0] == v8[d2] && s9[0] == '.');
    let s10 = s9.skip(1);
    assert(s10 =~= v10);
    assert(s10.skip(d3).len() == 0);
    assert(leading_ws(s10.skip(d3)) == 0);

    assert(s6.take(d1) =~= v.take(d1));
    assert(s8.take(d2) =~= v8.take(d2));
    assert(s10.take(d3) =~= v10);
    assert(v.take(d1) + "."@ + v8.take(d2) + "."@ + v10 =~= v) by {
        reveal_strlit(".");
        crate::text::lemma_leading_digits_prefix(v);
        crate::text::lemma_leading_digits_prefix(v8);
    }
}

/// A document whose first line is a version heading publishes that version
/// first.
proof fn lemma_doc_with_heading(d: Seq<char>, line: Seq<char>, v: Seq<char>)
    requires
        heading_version(line) == Some(v),
        line.len() > 0,
        d.len() >= line.len(),
        d.take(line.len() as int) == line,
        forall|i: int| 0 <= i < line.len() ==> #[trigger] line[i] != '\n' && line[i] != '\r',
        d.len() > line.len() ==> d[line.len() as int] == '\n',
    ensures
        extract_versions_spec(d).len() > 0,
        extract_versions_spec(d)[0] == v,
{
    let ll = line.len() as int;
    assert(forall|i: int| 0 <= i < ll ==> #[trigger] d[i] == line[i]);
    if d.len() == line.len() {
        assert(d =~= line);
        match crate::text::find_seq(d, seq!['\n']) {
            Some(j) => {
                crate::text::lemma_find_from_properties(d, seq!['\n'], 0);
                assert(crate::text::match_at(d, seq!['\n'], j));
                assert(d.subrange(j, j + 1) == seq!['\n']);
                assert(d.subrange(j, j + 1)[0] == d[j]);
                assert(false);
            },
            None => {},
        }
        assert(d.len() > 0);
        assert(crate::text::lines_spec(d) == seq![d]);
        assert(collect_heading_versions(seq![d]) == seq![v] + collect_heading_versions(
            seq![d].drop_first(),
        )) by {
            assert(seq![d][0] == d);
            assert(heading_version(d) == Some(v));
        }
        assert(seq![d].drop_first() =~= Seq::<Seq<char>>::empty());
        let collected = collect_heading_versions(crate::text::lines_spec(d));
        assert(collected.len() > 0 && collected[0] == v) by {
            assert(seq![v] + collect_heading_versions(Seq::<Seq<char>>::empty()) =~= seq![v]);
        }
        lemma_distinct_head(collected);
        assert(extract_versions_spec(d)[0] == v);
    } else {
        assert(d[ll] == '\n');
        assert(d.subrange(ll, ll + 1) =~= seq!['\n']);
        assert(crate::text::match_at(d, seq!['\n'], ll));
        crate::text::lemma_find_from_complete(d, seq!['\n'], 0, ll);
        crate::text::lemma_find_from_properties(d, seq!['\n'], 0);
        let j = crate::text::find_seq(d, seq!['\n']).unwrap();
        if j > ll {
            assert(!crate::text::match_at(d, seq!['\n'], ll));
            assert(false);
        }
        if j < ll {
            assert(crate::text::match_at(d, seq!['\n'], j));
            assert(d.subrange(j, j + 1) == seq!['\n']);
            assert(d.subrange(j, j + 1)[0] == d[j]);
            assert(false);
        }
        assert(crate::text::find_seq(d, seq!['\n']) == Some(ll));
        assert(d.take(ll) =~= line);
        assert(line.last() != '\r');
        assert(crate::text::strip_cr(d.take(ll)) == line);
        assert(crate::text::lines_spec(d) == seq![line] + crate::text::lines_spec(
            d.skip(ll + 1),
        ));
        let tail_lines = crate::text::lines_spec(d.skip(ll + 1));
        assert((seq![line] + tail_lines)[0] == line);
        assert((seq![line] + tail_lines).drop_first() =~= tail_lines);
        assert(collect_heading_versions(seq![line] + tail_lines) == seq![v]
            + collect_heading_versions(tail_lines));
        let collected = collect_heading_versions(crate::text::lines_spec(d));
        assert(collected.len() > 0 && collected[0] == v) by {
            assert((seq![v] + collect_heading_versions(tail_lines))[0] == v);
        }
        lemma_distinct_head(collected);
        assert(extract_versions_spec(d)[0] == v);
    }
}

/// The shape of a default rendering: it opens with the heading line, which a
/// newline closes unless the section is the bare heading.
#[verifier::rlimit(100)]
#[verifier::spinoff_prover]
proof fn lemma_render_shape(date: Seq<char>, v: Seq<char>, commits: Seq<Seq<char>>)
    requires
        date_prefix(date),
        date.len() == 10,
        dotted_triple(v),
    ensures
        ({
            let line = "### "@ + date + " / "@ + v;
            let sec = render_default(date, v, commits);
            &&& sec.len() >= line.len()
            &&& sec.take(line.len() as int) == line
            &&& (sec.len() > line.len() ==> sec[line.len() as int] == '\n')
            &&& line.len() > 0
        }),
{
    reveal_strlit("### ");
    reveal_strlit(" / ");
    reveal_strlit("- ");
    reveal_strlit("\n\n");
    reveal_strlit("\n");
    lemma_dotted_chars(v);
    let line = "### "@ + date + " / "@ + v;
    let ll = line.len() as int;

    let x = line + "\n\n"@ + bullet_lines(commits);
    assert(render_default(date, v, commits) == trim_spec(x)) by {
        assert(x =~= "### "@ + date + " / "@ + v + "\n\n"@ + bullet_lines(commits));
    }
    assert(x[0] == '#' && !is_ws('#'));
    assert(trim_start_spec(x) == x);
    lemma_trim_end_shape(x);
    let bound = choose|bound: int|
        0 <= bound <= x.len() && crate::text::trim_end_spec(x) == x.take(bound) && (forall|k: int|
            bound <= k < x.len() ==> is_ws(#[trigger] x[k])) && (bound > 0 ==> !is_ws(
            x[bound - 1],
        ));
    let sec = x.take(bound);
    assert(trim_spec(x) == sec);
    assert(x[ll - 1] == v.last() && is_digit(v.last()) && !is_ws(x[ll - 1]));
    assert(bound >= ll);

    if commits.len() == 0 {
        assert(bullet_lines(commits).len() == 0);
        assert(x.len() == ll + 2);
        assert(x[ll] == '\n' && x[ll + 1] == '\n' && is_ws('\n'));
        assert(bound == ll);
        assert(sec =~= line);
        assert(sec.take(ll) =~= line);
    } else {
        assert(bullet_lines(commits)[0] == '-') by {
            assert(bullet_lines(commits) == "- "@ + commits[0] + "\n"@ + bullet_lines(
                commits.drop_first(),
            ));
        }
        assert(x[ll + 2] == bullet_lines(commits)[0] && x[ll + 2] == '-');
        assert(!is_ws('-'));
        assert(bound > ll + 2);
        assert(sec.take(ll) =~= line);
        assert(sec[ll] == x[ll] && x[ll] == '\n');
    }
}

/// Round trip of the default rendering: extracting the published versions of
/// a freshly rendered section recovers that section's version. The date must
/// have the `dddd-dd-dd` shape — which `format_date` gives for timestamps up
/// to year 9999 — and the version must be digit runs joined by dots; a
/// heading outside that shape is not recognized.
pub proof fn lemma_render_extract_round_trip(
    date: Seq<char>,
    version: Seq<char>,
    commits: Seq<Seq<char>>,
)
    requires
        date_prefix(date),
        date.len() == 10,
        dotted_triple(version),
    ensures
        ({
            let published = extract_versions_spec(render_default(date, version, commits));
            exists|k: int| 0 <= k < published.len() && published[k] == version
        }),
{
    let line = "### "@ + date + " / "@ + version;
    lemma_render_shape(date, version, commits);
    lemma_heading_line_chars(date, version);
    lemma_heading_parse(date, version);
    let sec = render_default(date, version, commits);
    lemma_doc_with_heading(sec, line, version);
    assert(extract_versions_spec(sec)[0] == version);
}

/// Idempotence of composition: once a section for a version is prepended to
/// a document, that version stands among the document's published versions,
/// so composing the same version again is skipped. The date and version
/// shapes are those of `lemma_render_extract_round_trip`.
pub proof fn lemma_prepended_section_publishes_version(
    existing: Seq<char>,
    date: Seq<char>,
    version: Seq<char>,
    commits: Seq<Seq<char>>,
)
    requires
        date_prefix(date),
        date.len() == 10,
        dotted_triple(version),
    ensures
        ({
            let doc = spec_prepended(existing, render_default(date, version, commits));
            exists|k: int|
                0 <= k < extract_versions_spec(doc).len() && extract_versions_spec(doc)[k]
                    == version
        }),
{
    reveal_strlit("\n");
    reveal_strlit("\n\n");
    let line = "### "@ + date + " / "@ + version;
    let ll = line.len() as int;
    lemma_render_shape(date, version, commits);
    lemma_heading_line_chars(date, version);
    lemma_heading_parse(date, version);
    let sec = render_default(date, version, commits);
    let doc = spec_prepended(existing, sec);
    if trim_spec(existing).len() == 0 {
        assert(doc == sec + "\n"@);
    } else {
        assert(doc == sec + "\n\n"@ + trim_spec(existing) + "\n"@);
    }
    assert(doc.len() > sec.len());
    assert(doc.take(ll) =~= sec.take(ll));
    assert(doc[ll] == '\n') by {
        if sec.len() == line.len() {
            if trim_spec(existing).len() == 0 {
                assert(doc[ll] == "\n"@[0]);
            } else {
                assert(doc[ll] == "\n\n"@[0]);
            }
        } else {
            assert(doc[ll] == sec[ll]);
        }
    }
    lemma_doc_with_heading(doc, line, version);
    assert(extract_versions_spec(doc)[0] == version);
}

/// One tag-bounded release window, commits as the history provider hands
/// them: reachable from this window's tag but not from the previous one.
pub struct TagWindow {
    pub tag_name: String,
    pub tag_time: i64,
    pub commits: Vec<GitCommit>,
}

/// The section a historical window renders to: nothing when no commit is
/// releasable or the tag name parses to no version; else the sorted window
/// under the tag's own version.
pub open spec fn window_section(
    w: TagWindow,
    patterns: Seq<Seq<char>>,
    template: Option<Seq<char>>,
) -> Option<Seq<char>> {
    let kept = w.commits@.filter(|c: GitCommit| releasable(patterns, c));
    if kept.len() == 0 {
        None
    } else {
        match semver_parse(strip_leading(w.tag_name@, 'v')) {
            None => None,
            Some(p) => {
                let sorted = sort_commits(kept);
                let date = utc_date_string(latest_commit_time(kept));
                Some(spec_section_text(date, parts_seq(p), sorted, template))
            },
        }
    }
}

/// Render one historical window's section, if it has one.
#[verifier::loop_isolation(false)]
pub fn render_window_section(w: &TagWindow, filter: &CommitFilter, template: Option<&str>) -> (r:
    Option<String>)
    requires
        filter.wf(),
    ensures
        ({
            let tv: Option<Seq<char>> = match template {
                Some(t) => Some(t@),
                None => None,
            };
            let goal = window_section(*w, filter@, tv);
            &&& (r is Some <==> goal is Some)
            &&& (r matches Some(s) ==> goal == Some(s@))
        }),
{
    let kept = collect_releasable_commits(crate::git::clone_commits(&w.commits), filter);
    if kept.len() == 0 {
        return None;
    }
    let version = match normalize_tag_version(w.tag_name.as_str()) {
        Some(v) => v,
        None => {
            return None;
        },
    };
    let window_time = latest_time(&kept);
    let mut sorted = kept;
    apply_default_sorting(&mut sorted);
    let date = format_date(window_time);
    let version_string = crate::version::format_version(&version);
    let mut subject_list: Vec<String> = Vec::new();
    let mut i: usize = 0;
    while i < sorted.len()
        invariant
            i <= sorted@.len(),
            subject_list@.len() == i,
            forall|m: int| 0 <= m < i ==> subject_list@[m]@ == sorted@[m].subject@,
        decreases sorted@.len() - i,
    {
        subject_list.push(sorted[i].subject.clone());
        i = i + 1;
    }
    let section = ChangelogSection { date, version: version_string, commits: subject_list };
    let rendered = render_section(&section, template);
    proof {
        assert(section.commits@.map_values(|c: String| c@) =~= subjects_of(
            sort_commits(w.commits@.filter(|c: GitCommit| releasable(filter@, c))),
        ));
        assert(version_seq(version) == parts_seq(vparts(version)));
    }
    Some(rendered)
}

/// The sections of the windows, newest window first, walking the given
/// oldest-to-newest windows from the end.
pub open spec fn rev_window_sections(
    ws: Seq<TagWindow>,
    patterns: Seq<Seq<char>>,
    template: Option<Seq<char>>,
) -> Seq<Seq<char>>
    decreases ws.len(),
{
    if ws.len() == 0 {
        Seq::empty()
    } else {
        match window_section(ws.last(), patterns, template) {
            Some(s) => seq![s] + rev_window_sections(ws.drop_last(), patterns, template),
            None => rev_window_sections(ws.drop_last(), patterns, template),
        }
    }
}

/// The pending (unreleased) window's section: the releasable commits, sorted,
/// under one bump from the latest version; nothing when no commit is kept.
pub open spec fn pending_section(
    pending: Seq<GitCommit>,
    latest: Option<(u64, u64, u64, Seq<char>, Seq<char>)>,
    patterns: Seq<Seq<char>>,
    template: Option<Seq<char>>,
) -> Option<Seq<char>> {
    let kept = pending.filter(|c: GitCommit| releasable(patterns, c));
    if kept.len() == 0 {
        None
    } else {
        let sorted = sort_commits(kept);
        let base = match latest {
            Some(p) => p,
            None => (0u64, 0u64, 0u64, Seq::<char>::empty(), Seq::<char>::empty()),
        };
        let next = bump_parts(base, max_bump(sorted));
        let date = utc_date_string(latest_commit_time(kept));
        Some(spec_section_text(date, parts_seq(next), sorted, template))
    }
}

/// The whole rebuilt document: the pending section first, then every
/// historical section newest first, blank-line separated, one trailing
/// newline; empty when there is no section at all.
pub open spec fn rebuild_document(
    windows: Seq<TagWindow>,
    pending: Seq<GitCommit>,
    latest: Option<(u64, u64, u64, Seq<char>, Seq<char>)>,
    patterns: Seq<Seq<char>>,
    template: Option<Seq<char>>,
) -> Seq<char> {
    let hist = rev_window_sections(windows, patterns, template);
    let sections = match pending_section(pending, latest, patterns, template) {
        Some(s) => seq![s] + hist,
        None => hist,
    };
    if sections.len() == 0 {
        Seq::empty()
    } else {
        crate::text::join_spec(sections, "\n\n"@) + "\n"@
    }
}

/// Compose the full-rebuild changelog document from the tag windows (given
/// oldest first) and the pending commits.
#[verifier::loop_isolation(false)]
#[verifier::rlimit(100)]
#[verifier::spinoff_prover]
pub fn compose_rebuild_document(
    windows: &Vec<TagWindow>,
    pending: Vec<GitCommit>,
    latest_version: Option<Version>,
    filter: &CommitFilter,
    template: Option<&str>,
) -> (r: String)
    requires
        filter.wf(),
        version_headroom(latest_version),
    ensures
        ({
            let tv: Option<Seq<char>> = match template {
                Some(t) => Some(t@),
                None => None,
            };
            let cur = match latest_version {
                Some(c) => Some(vparts(c)),
                None => None,
            };
            r@ == rebuild_document(windows@, pending@, cur, filter@, tv)
        }),
{
    let ghost tv: Option<Seq<char>> = match template {
        Some(t) => Some(t@),
        None => None,
    };
    let ghost cur = match latest_version {
        Some(ref c) => Some(vparts(*c)),
        None => None,
    };
    let ghost pend_spec = pending_section(pending@, cur, filter@, tv);
    let mut pieces: Vec<Vec<char>> = Vec::new();

    let kept = collect_releasable_commits(pending, filter);
    if kept.len() > 0 {
        let window_time = latest_time(&kept);
        let mut sorted = kept;
        apply_default_sorting(&mut sorted);
        let bump = aggregate_bump(&sorted);
        let next = bump_version(latest_version, bump);
        let date = format_date(window_time);
        let version_string = crate::version::format_version(&next);
        let mut subject_list: Vec<String> = Vec::new();
        let mut i: usize = 0;
        while i < sorted.len()
            invariant
                i <= sorted@.len(),
                subject_list@.len() == i,
                forall|m: int| 0 <= m < i ==> subject_list@[m]@ == sorted@[m].subject@,
            decreases sorted@.len() - i,
        {
            subject_list.push(sorted[i].subject.clone());
            i = i + 1;
        }
        let section = ChangelogSection { date, version: version_string, commits: subject_list };
        let rendered = render_section(&section, template);
        proof {
            assert(section.commits@.map_values(|c: String| c@) =~= subjects_of(
                sort_commits(pending@.filter(|c: GitCommit| releasable(filter@, c))),
            ));
            assert(vparts(next) == bump_parts(
                match cur {
                    Some(p) => p,
                    None => (0u64, 0u64, 0u64, Seq::<char>::empty(), Seq::<char>::empty()),
                },
                bump,
            ));
            assert(version_seq(next) == parts_seq(vparts(next)));
        }
        pieces.push(str_chars(rendered.as_str()));
    }
    let ghost pend_part: Seq<Seq<char>> = match pend_spec {
        Some(s) => seq![s],
        None => Seq::empty(),
    };
    proof {
        assert(pieces@.map_values(|p: Vec<char>| p@) =~= pend_part);
    }
    let mut j: usize = windows.len();
    proof {
        assert(windows@.take(j as int) =~= windows@);
    }
    while j > 0
        invariant
            j <= windows@.len(),
            pend_part + rev_window_sections(windows@, filter@, tv) =~= pieces@.map_values(
                |p: Vec<char>| p@,
            ) + rev_window_sections(windows@.take(j as int), filter@, tv),
        decreases j,
    {
        j = j - 1;
        proof {
            assert(windows@.take(j + 1).last() == windows@[j as int]);
            assert(windows@.take(j + 1).drop_last() =~= windows@.take(j as int));
        }
        match render_window_section(&windows[j], filter, template) {
            Some(s) => {
                let ghost old_pieces = pieces@.map_values(|p: Vec<char>| p@);
                pieces.push(str_chars(s.as_str()));
                proof {
                    assert(pieces@.map_values(|p: Vec<char>| p@) =~= old_pieces.push(s@));
                    assert(old_pieces.push(s@) + rev_window_sections(
                        windows@.take(j as int),
                        filter@,
                        tv,
                    ) =~= old_pieces + (seq![s@] + rev_window_sections(
                        windows@.take(j as int),
                        filter@,
                        tv,
                    )));
                }
            },
            None => {},
        }
    }
    proof {
        assert(windows@.take(0) =~= Seq::<TagWindow>::empty());
        assert(rev_window_sections(Seq::<TagWindow>::empty(), filter@, tv) =~= Seq::<
            Seq<char>,
        >::empty());
        assert(pieces@.map_values(|p: Vec<char>| p@) + Seq::<Seq<char>>::empty() =~= pieces@
            .map_values(|p: Vec<char>| p@));
        assert(pieces@.map_values(|p: Vec<char>| p@) =~= pend_part + rev_window_sections(
            windows@,
            filter@,
            tv,
        ));
    }
    if pieces.len() == 0 {
        proof {
            assert((pend_part + rev_window_sections(windows@, filter@, tv)).len() == 0);
        }
        return String::new();
    }
    let sep = str_chars("\n\n");
    let mut out = crate::text::join_chars(&pieces, &sep);
    let nl = str_chars("\n");
    crate::text::push_chars(&mut out, &nl);
    string_from_chars(&out)
}

} // verus!
