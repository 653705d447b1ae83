//! Classification of a conventional-commit subject and body into a bump level.

use crate::text::{
    ends_with_seq, find_in, find_seq, lines_chars, lines_spec, starts_with_in, starts_with_seq,
    str_chars, sub_chars, trim_start_chars, trim_start_spec,
};
use vstd::prelude::*;

verus! {

/// How far a semantic version must move for a set of commits.
/// Totally ordered: `Patch < Minor < Major`.
#[derive(Debug, Clone, Copy, PartialEq, Eq, PartialOrd, Ord, Structural)]
pub enum BumpLevel {
    Patch,
    Minor,
    Major,
}

/// Numeric rank of a bump level, used to state the total order.
pub open spec fn bump_rank(level: BumpLevel) -> int {
    match level {
        BumpLevel::Patch => 0,
        BumpLevel::Minor => 1,
        BumpLevel::Major => 2,
    }
}

impl BumpLevel {
    /// The keyword naming this bump level.
    pub fn as_str(self) -> (r: &'static str)
        ensures
            self is Patch ==> r@ == "patch"@,
            self is Minor ==> r@ == "minor"@,
            self is Major ==> r@ == "major"@,
    {
        match self {
            Self::Patch => "patch",
            Self::Minor => "minor",
            Self::Major => "major",
        }
    }

    /// The larger of two bump levels under `Patch < Minor < Major`.
    pub fn max(self, other: BumpLevel) -> (r: BumpLevel)
        ensures
            bump_rank(r) == if bump_rank(self) >= bump_rank(other) {
                bump_rank(self)
            } else {
                bump_rank(other)
            },
            r == self || r == other,
    {
        match (self, other) {
            (Self::Major, _) => Self::Major,
            (_, Self::Major) => Self::Major,
            (Self::Minor, _) => Self::Minor,
            (_, Self::Minor) => Self::Minor,
            _ => Self::Patch,
        }
    }
}

/// The part of the subject before the first `": "`, or empty when the
/// subject has none.
pub open spec fn header_of(subject: Seq<char>) -> Seq<char> {
    match find_seq(subject, ": "@) {
        Some(i) => subject.take(i),
        None => Seq::empty(),
    }
}

/// The header carries the breaking marker: it ends in `!`.
pub open spec fn header_breaking(subject: Seq<char>) -> bool {
    ends_with_seq(header_of(subject), "!"@)
}

/// The header with one trailing breaking marker removed.
pub open spec fn header_without_breaking(subject: Seq<char>) -> Seq<char> {
    if header_breaking(subject) {
        header_of(subject).drop_last()
    } else {
        header_of(subject)
    }
}

/// The commit type: the breaking-stripped header up to an optional `(scope)`.
pub open spec fn commit_type_of(subject: Seq<char>) -> Seq<char> {
    let stripped = header_without_breaking(subject);
    match find_seq(stripped, "("@) {
        Some(i) => stripped.take(i),
        None => stripped,
    }
}

/// A body line, once its leading whitespace is gone, announces a breaking change.
pub open spec fn breaking_line(line: Seq<char>) -> bool {
    starts_with_seq(trim_start_spec(line), "BREAKING CHANGE:"@) || starts_with_seq(
        trim_start_spec(line),
        "BREAKING-CHANGE:"@,
    )
}

/// Some body line announces a breaking change.
pub open spec fn footer_breaking(body: Seq<char>) -> bool {
    exists|k: int| 0 <= k < lines_spec(body).len() && breaking_line(#[trigger] lines_spec(body)[k])
}

/// The bump level of one commit: `Major` when the header or a body line
/// carries a breaking marker, `Minor` for a `feat` type, else `Patch`.
pub open spec fn spec_infer_bump(subject: Seq<char>, body: Seq<char>) -> BumpLevel {
    if header_breaking(subject) || footer_breaking(body) {
        BumpLevel::Major
    } else if commit_type_of(subject) == "feat"@ {
        BumpLevel::Minor
    } else {
        BumpLevel::Patch
    }
}

/// Classify one commit from its subject line and body.
pub fn infer_bump(subject: &str, body: &str) -> (r: BumpLevel)
    ensures
        r == spec_infer_bump(subject@, body@),
{
    let subj = str_chars(subject);
    let colon_space = str_chars(": ");
    let header: Vec<char>;
    match find_in(&subj, &colon_space) {
        Some(i) => {
            proof {
                crate::text::lemma_find_from_properties(subj@, colon_space@, 0);
            }
            header = sub_chars(&subj, 0, i);
        },
        None => {
            header = Vec::new();
        },
    }
    proof {
        assert(header@ == header_of(subject@));
    }
    let header_is_breaking = header.len() > 0 && header[header.len() - 1] == '!';
    proof {
        reveal_strlit("!");
        if header_is_breaking {
            assert(header@.subrange(header@.len() - 1, header@.len() as int) =~= "!"@);
        } else if header@.len() >= 1 && ends_with_seq(header@, "!"@) {
            assert(header@.subrange(header@.len() - 1, header@.len() as int)[0] == header@[
                header@.len() - 1
            ]);
        }
        assert(header_is_breaking == header_breaking(subject@));
    }

    let body_c = str_chars(body);
    let lines = lines_chars(&body_c);
    let bc_space = str_chars("BREAKING CHANGE:");
    let bc_dash = str_chars("BREAKING-CHANGE:");
    let mut footer_is_breaking = false;
    let mut k: usize = 0;
    while k < lines.len()
        invariant
            lines@.len() == lines_spec(body@).len(),
            forall|m: int| 0 <= m < lines@.len() ==> lines@[m]@ == lines_spec(body@)[m],
            bc_space@ == "BREAKING CHANGE:"@,
            bc_dash@ == "BREAKING-CHANGE:"@,
            k <= lines@.len(),
            footer_is_breaking == exists|m: int|
                0 <= m < k && breaking_line(#[trigger] lines_spec(body@)[m]),
        decreases lines@.len() - k,
    {
        let trimmed = trim_start_chars(&lines[k]);
        if starts_with_in(&trimmed, &bc_space) || starts_with_in(&trimmed, &bc_dash) {
            proof {
                assert(breaking_line(lines_spec(body@)[k as int]));
            }
            footer_is_breaking = true;
        }
        k = k + 1;
    }
    proof {
        assert(footer_is_breaking == footer_breaking(body@));
    }

    if header_is_breaking || footer_is_breaking {
        return BumpLevel::Major;
    }

    let stripped: Vec<char> = if header_is_breaking {
        sub_chars(&header, 0, header.len() - 1)
    } else {
        header
    };
    proof {
        assert(stripped@ == header_without_breaking(subject@));
    }
    let paren = str_chars("(");
    let ctype: Vec<char>;
    match find_in(&stripped, &paren) {
        Some(i) => {
            proof {
                crate::text::lemma_find_from_properties(stripped@, paren@, 0);
            }
            ctype = sub_chars(&stripped, 0, i);
        },
        None => {
            ctype = stripped;
        },
    }
    proof {
        assert(ctype@ == commit_type_of(subject@));
    }
    let feat = str_chars("feat");
    if crate::text::eq_chars(&ctype, &feat) {
        return BumpLevel::Minor;
    }
    BumpLevel::Patch
}

/// A commit with a `!` immediately before the first `": "` of its subject,
/// or with a body line whose trimmed form starts with `BREAKING CHANGE:` or
/// `BREAKING-CHANGE:`, classifies as `Major`, whatever its type.
pub proof fn lemma_breaking_is_major(subject: Seq<char>, body: Seq<char>)
    requires
        (find_seq(subject, ": "@) matches Some(i) && i > 0 && subject[i - 1] == '!') || exists|
            k: int,
        | 0 <= k < lines_spec(body).len() && breaking_line(#[trigger] lines_spec(body)[k]),
    ensures
        spec_infer_bump(subject, body) == BumpLevel::Major,
{
    match find_seq(subject, ": "@) {
        Some(i) => {
            if i > 0 && subject[i - 1] == '!' {
                crate::text::lemma_find_from_properties(subject, ": "@, 0);
                reveal_strlit(": ");
                let header = header_of(subject);
                reveal_strlit("!");
                assert(header == subject.take(i));
                assert(header.subrange(header.len() - 1, header.len() as int) =~= "!"@);
                assert(header_breaking(subject));
            }
        },
        None => {},
    }
}

/// A commit with no breaking marker classifies as `Minor` exactly when its
/// type is `feat`, and as `Patch` otherwise, non-conventional subjects included.
pub proof fn lemma_non_breaking_bump(subject: Seq<char>, body: Seq<char>)
    requires
        !header_breaking(subject),
        !footer_breaking(body),
    ensures
        commit_type_of(subject) == "feat"@ ==> spec_infer_bump(subject, body)
            == BumpLevel::Minor,
        commit_type_of(subject) != "feat"@ ==> spec_infer_bump(subject, body)
            == BumpLevel::Patch,
{
}

} // verus!
