//! Releasability filtering of commits by subject, against an ordered list of
//! ignore patterns (regular expressions).

use crate::text::{starts_with_in, starts_with_seq, str_chars};
use vstd::prelude::*;

verus! {

/// Whether `regex::Regex::new` accepts `pattern`. A function of the pattern alone.
pub uninterp spec fn regex_ok(pattern: Seq<char>) -> bool;

/// Whether `text` matches the regular expression `pattern`. A function of the
/// pattern and the text alone.
pub uninterp spec fn regex_match(pattern: Seq<char>, text: Seq<char>) -> bool;

/// Relies on regex::Regex::new: it accepts a pattern or rejects it,
/// deterministically in the pattern text. The error's rendered message is
/// passed along; nothing is claimed of it.
#[verifier::external_body]
pub fn regex_compile_check(pattern: &str) -> (r: Result<(), String>)
    ensures
        r is Ok <==> regex_ok(pattern@),
{
    match regex::Regex::new(pattern) {
        Ok(_) => Ok(()),
        Err(e) => Err(e.to_string()),
    }
}

/// Relies on regex::Regex::is_match: whether `text` matches `pattern`,
/// deterministically in the two texts.
#[verifier::external_body]
pub fn regex_is_match(pattern: &str, text: &str) -> (r: bool)
    requires
        regex_ok(pattern@),
    ensures
        r == regex_match(pattern@, text@),
{
    match regex::Regex::new(pattern) {
        Ok(re) => re.is_match(text),
        Err(_) => false,
    }
}

/// An ordered list of validated ignore patterns.
pub struct CommitFilter {
    patterns: Vec<String>,
}

impl CommitFilter {
    /// The pattern texts this filter was built from.
    pub closed spec fn view(&self) -> Seq<Seq<char>> {
        self.patterns@.map_values(|p: String| p@)
    }

    /// Every held pattern compiled.
    pub closed spec fn wf(&self) -> bool {
        forall|i: int| 0 <= i < self@.len() ==> regex_ok(#[trigger] self@[i])
    }

    /// Build a filter, validating each pattern; the first invalid pattern's
    /// compile error is returned.
    pub fn new(patterns: &[String]) -> (r: Result<Self, String>)
        ensures
            r is Ok <==> forall|i: int|
                0 <= i < patterns@.len() ==> regex_ok(#[trigger] patterns@[i]@),
            r matches Ok(f) ==> f.wf() && f@ == patterns@.map_values(|p: String| p@),
    {
        let mut held: Vec<String> = Vec::new();
        let mut i: usize = 0;
        while i < patterns.len()
            invariant
                i <= patterns@.len(),
                held@.len() == i,
                forall|k: int| 0 <= k < i ==> held@[k]@ == #[trigger] patterns@[k]@,
                forall|k: int| 0 <= k < i ==> regex_ok(#[trigger] patterns@[k]@),
            decreases patterns@.len() - i,
        {
            let entry = &patterns[i];
            match regex_compile_check(entry.as_str()) {
                Ok(_) => {},
                Err(e) => {
                    return Err(e);
                },
            }
            held.push(entry.clone());
            i = i + 1;
        }
        let f = CommitFilter { patterns: held };
        proof {
            assert(f@ =~= patterns@.map_values(|p: String| p@));
        }
        Ok(f)
    }

    /// A subject is ignored when it is a merge commit or matches one of the
    /// configured patterns.
    pub open spec fn spec_is_ignored(patterns: Seq<Seq<char>>, subject: Seq<char>) -> bool {
        starts_with_seq(subject, "Merge "@) || exists|i: int|
            0 <= i < patterns.len() && regex_match(#[trigger] patterns[i], subject)
    }

    pub fn is_ignored(&self, subject: &str) -> (r: bool)
        requires
            self.wf(),
        ensures
            r == Self::spec_is_ignored(self@, subject@),
    {
        let subj = str_chars(subject);
        let merge = str_chars("Merge ");
        if starts_with_in(&subj, &merge) {
            return true;
        }
        let mut i: usize = 0;
        while i < self.patterns.len()
            invariant
                self.wf(),
                i <= self@.len(),
                self@.len() == self.patterns@.len(),
                forall|k: int| 0 <= k < i ==> !regex_match(#[trigger] self@[k], subject@),
            decreases self@.len() - i,
        {
            proof {
                assert(self@[i as int] == self.patterns@[i as int]@);
            }
            if regex_is_match(self.patterns[i].as_str(), subject) {
                return true;
            }
            i = i + 1;
        }
        proof {
            assert(forall|k: int| 0 <= k < self@.len() ==> !regex_match(#[trigger] self@[k], subject@));
        }
        false
    }
}

} // verus!
