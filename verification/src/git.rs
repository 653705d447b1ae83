//! Plain data for what the commit-history provider hands the engine, and the
//! pure text work done on raw commit messages.

use crate::text::{join_spec, lines_chars, lines_spec, str_chars, string_from_chars, trim_chars, trim_spec};
use vstd::prelude::*;

verus! {

/// One commit as the engine sees it: trimmed subject, trimmed body, and the
/// commit timestamp in seconds.
#[derive(Debug)]
pub struct GitCommit {
    pub subject: String,
    pub body: String,
    pub time: i64,
}

impl Clone for GitCommit {
    fn clone(&self) -> (r: Self)
        ensures
            r == *self,
    {
        GitCommit { subject: self.subject.clone(), body: self.body.clone(), time: self.time }
    }
}

/// One tag as the engine sees it: its name and the timestamp of the commit
/// it points at. Resolving the tag to a commit stays with the provider.
#[derive(Debug)]
pub struct GitTag {
    pub name: String,
    pub time: i64,
}

impl Clone for GitTag {
    fn clone(&self) -> (r: Self)
        ensures
            r == *self,
    {
        GitTag { name: self.name.clone(), time: self.time }
    }
}

/// Copy a commit run.
pub fn clone_commits(v: &Vec<GitCommit>) -> (r: Vec<GitCommit>)
    ensures
        r@ == v@,
{
    let mut out: Vec<GitCommit> = Vec::new();
    let mut i: usize = 0;
    while i < v.len()
        invariant
            i <= v@.len(),
            out@.len() == i,
            forall|k: int| 0 <= k < i ==> out@[k] == v@[k],
        decreases v@.len() - i,
    {
        out.push(v[i].clone());
        i = i + 1;
    }
    proof {
        assert(out@ =~= v@);
    }
    out
}

/// The subject of a raw commit message: its first line, trimmed.
pub open spec fn subject_of_message(message: Seq<char>) -> Seq<char> {
    if lines_spec(message).len() == 0 {
        Seq::empty()
    } else {
        trim_spec(lines_spec(message)[0])
    }
}

/// The body of a raw commit message: every line after the first, rejoined
/// with newlines and trimmed.
pub open spec fn body_of_message(message: Seq<char>) -> Seq<char> {
    if lines_spec(message).len() == 0 {
        Seq::empty()
    } else {
        trim_spec(join_spec(lines_spec(message).drop_first(), "\n"@))
    }
}

/// Split a raw commit message into its trimmed subject line and trimmed body.
pub fn split_message(message: &str) -> (r: (String, String))
    ensures
        r.0@ == subject_of_message(message@),
        r.1@ == body_of_message(message@),
{
    let chars = str_chars(message);
    let lines = lines_chars(&chars);
    if lines.len() == 0 {
        let empty_subject = String::new();
        let empty_body = String::new();
        return (empty_subject, empty_body);
    }
    let subject = string_from_chars(&trim_chars(&lines[0]));
    let mut rest: Vec<Vec<char>> = Vec::new();
    let mut i: usize = 1;
    while i < lines.len()
        invariant
            1 <= i <= lines@.len(),
            rest@.len() == i - 1,
            forall|k: int| 0 <= k < rest@.len() ==> rest@[k]@ == lines@[k + 1]@,
        decreases lines@.len() - i,
    {
        let line_copy = crate::text::sub_chars(&lines[i], 0, lines[i].len());
        proof {
            assert(line_copy@ =~= lines@[i as int]@);
        }
        rest.push(line_copy);
        i = i + 1;
    }
    let nl = str_chars("\n");
    let joined = crate::text::join_chars(&rest, &nl);
    proof {
        let lspec = lines_spec(message@);
        assert(rest@.map_values(|p: Vec<char>| p@) =~= lspec.drop_first());
    }
    let body = string_from_chars(&trim_chars(&joined));
    (subject, body)
}

} // verus!
