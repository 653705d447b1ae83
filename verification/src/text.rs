//! Verified text utilities. All executable work happens on `Vec<char>`;
//! every function is specified against `Seq<char>`.

use vstd::prelude::*;

verus! {

/// Relies on str::chars and Iterator::collect: yields exactly the
/// characters of `s`, in order.
#[verifier::external_body]
pub fn str_chars(s: &str) -> (r: Vec<char>)
    ensures
        r@ == s@,
{
    s.chars().collect()
}

/// Relies on String: FromIterator<char>: builds the string whose
/// characters are exactly those of `v`, in order.
#[verifier::external_body]
pub fn string_from_chars(v: &Vec<char>) -> (r: String)
    ensures
        r@ == v@,
{
    v.iter().collect()
}

/// `pat` occurs in `s` at position `i`.
pub open spec fn match_at(s: Seq<char>, pat: Seq<char>, i: int) -> bool {
    0 <= i && i + pat.len() <= s.len() && s.subrange(i, i + pat.len()) == pat
}

/// The first position at or after `i` where `pat` occurs in `s`, if any.
pub open spec fn find_from(s: Seq<char>, pat: Seq<char>, i: int) -> Option<int>
    decreases s.len() - i,
{
    if i < 0 || i + pat.len() > s.len() {
        None
    } else if pat.len() == 0 || match_at(s, pat, i) {
        Some(i)
    } else {
        find_from(s, pat, i + 1)
    }
}

/// The first position where `pat` occurs in `s`, if any.
pub open spec fn find_seq(s: Seq<char>, pat: Seq<char>) -> Option<int> {
    find_from(s, pat, 0)
}

pub open spec fn contains_seq(s: Seq<char>, pat: Seq<char>) -> bool {
    find_seq(s, pat) is Some
}

pub open spec fn starts_with_seq(s: Seq<char>, pat: Seq<char>) -> bool {
    match_at(s, pat, 0)
}

pub open spec fn ends_with_seq(s: Seq<char>, pat: Seq<char>) -> bool {
    match_at(s, pat, s.len() - pat.len())
}

/// Whatever `find_from` returns is a match position not preceded by one.
pub proof fn lemma_find_from_properties(s: Seq<char>, pat: Seq<char>, i: int)
    requires
        0 <= i,
    ensures
        find_from(s, pat, i) matches Some(j) ==> i <= j && match_at(s, pat, j) && forall|k: int|
            i <= k < j ==> !match_at(s, pat, k),
        find_from(s, pat, i) is None ==> forall|k: int| i <= k ==> !match_at(s, pat, k),
    decreases s.len() - i,
{
    if i + pat.len() > s.len() {
        assert(forall|k: int| i <= k ==> !match_at(s, pat, k));
    } else if pat.len() == 0 {
        assert(s.subrange(i, i + pat.len()) =~= pat);
    } else if match_at(s, pat, i) {
    } else {
        lemma_find_from_properties(s, pat, i + 1);
    }
}

/// A match at or after `i` guarantees that the search from `i` succeeds.
pub proof fn lemma_find_from_complete(s: Seq<char>, pat: Seq<char>, i: int, k: int)
    requires
        0 <= i <= k,
        match_at(s, pat, k),
    ensures
        find_from(s, pat, i) is Some,
    decreases k - i,
{
    if i + pat.len() > s.len() {
        assert(false);
    } else if pat.len() == 0 || match_at(s, pat, i) {
    } else {
        lemma_find_from_complete(s, pat, i + 1, k);
    }
}

/// Compare two character vectors for equality of contents.
pub fn eq_chars(a: &Vec<char>, b: &Vec<char>) -> (r: bool)
    ensures
        r == (a@ == b@),
{
    if a.len() != b.len() {
        return false;
    }
    let mut i: usize = 0;
    while i < a.len()
        invariant
            a@.len() == b@.len(),
            i <= a@.len(),
            forall|k: int| 0 <= k < i ==> a@[k] == b@[k],
        decreases a@.len() - i,
    {
        if a[i] != b[i] {
            return false;
        }
        i = i + 1;
    }
    proof {
        assert(a@ =~= b@);
    }
    true
}

/// `pat` occurs in `s` at position `i`?
pub fn matches_at(s: &Vec<char>, pat: &Vec<char>, i: usize) -> (r: bool)
    requires
        i + pat@.len() <= s@.len(),
    ensures
        r == match_at(s@, pat@, i as int),
{
    let n: usize = s.len();
    let mut k: usize = 0;
    while k < pat.len()
        invariant
            n == s@.len(),
            i + pat@.len() <= s@.len(),
            k <= pat@.len(),
            forall|m: int| 0 <= m < k ==> s@[i + m] == pat@[m],
        decreases pat@.len() - k,
    {
        if s[i + k] != pat[k] {
            proof {
                assert(s@.subrange(i as int, i + pat@.len())[k as int] == s@[i + k]);
            }
            return false;
        }
        k = k + 1;
    }
    proof {
        assert(s@.subrange(i as int, i + pat@.len()) =~= pat@);
    }
    true
}

/// First occurrence of `pat` in `s`.
pub fn find_in(s: &Vec<char>, pat: &Vec<char>) -> (r: Option<usize>)
    ensures
        match r {
            Some(j) => find_seq(s@, pat@) == Some(j as int),
            None => find_seq(s@, pat@) is None,
        },
{
    if pat.len() > s.len() {
        return None;
    }
    if pat.len() == 0 {
        return Some(0);
    }
    let n: usize = s.len() - pat.len();
    let mut i: usize = 0;
    while i < n
        invariant
            0 < pat@.len() <= s@.len(),
            n == s@.len() - pat@.len(),
            i <= n,
            find_seq(s@, pat@) == find_from(s@, pat@, i as int),
        decreases n - i,
    {
        if matches_at(s, pat, i) {
            return Some(i);
        }
        i = i + 1;
    }
    if matches_at(s, pat, n) {
        return Some(n);
    }
    proof {
        assert(find_from(s@, pat@, n as int) == find_from(s@, pat@, n + 1));
        assert(find_from(s@, pat@, n + 1) is None);
    }
    None
}

pub fn contains_in(s: &Vec<char>, pat: &Vec<char>) -> (r: bool)
    ensures
        r == contains_seq(s@, pat@),
{
    find_in(s, pat).is_some()
}

pub fn starts_with_in(s: &Vec<char>, pat: &Vec<char>) -> (r: bool)
    ensures
        r == starts_with_seq(s@, pat@),
{
    if pat.len() > s.len() {
        return false;
    }
    matches_at(s, pat, 0)
}

pub fn ends_with_in(s: &Vec<char>, pat: &Vec<char>) -> (r: bool)
    ensures
        r == ends_with_seq(s@, pat@),
{
    if pat.len() > s.len() {
        return false;
    }
    matches_at(s, pat, s.len() - pat.len())
}

/// Copy of `s[a..b]`.
pub fn sub_chars(s: &Vec<char>, a: usize, b: usize) -> (r: Vec<char>)
    requires
        a <= b <= s@.len(),
    ensures
        r@ == s@.subrange(a as int, b as int),
{
    let mut out: Vec<char> = Vec::new();
    let mut i: usize = a;
    while i < b
        invariant
            a <= i <= b <= s@.len(),
            out@ == s@.subrange(a as int, i as int),
        decreases b - i,
    {
        out.push(s[i]);
        proof {
            assert(out@ =~= s@.subrange(a as int, i + 1));
        }
        i = i + 1;
    }
    out
}

/// Append all of `src` to `dst`.
pub fn push_chars(dst: &mut Vec<char>, src: &Vec<char>)
    ensures
        final(dst)@ == old(dst)@ + src@,
{
    let mut i: usize = 0;
    while i < src.len()
        invariant
            i <= src@.len(),
            dst@ == old(dst)@ + src@.take(i as int),
        decreases src@.len() - i,
    {
        dst.push(src[i]);
        proof {
            assert(old(dst)@ + src@.take(i + 1) =~= (old(dst)@ + src@.take(i as int)).push(
                src@[i as int],
            ));
        }
        i = i + 1;
    }
    proof {
        assert(src@.take(src@.len() as int) =~= src@);
    }
}

/// The Unicode `White_Space` characters, the set `str::trim` removes.
pub open spec fn is_ws(c: char) -> bool {
    c == ' ' || c == '\t' || c == '\n' || c == '\r' || c == '\u{000B}' || c == '\u{000C}'
        || c == '\u{0085}' || c == '\u{00A0}' || c == '\u{1680}' || ('\u{2000}' <= c
        && c <= '\u{200A}') || c == '\u{2028}' || c == '\u{2029}' || c == '\u{202F}'
        || c == '\u{205F}' || c == '\u{3000}'
}

pub fn is_ws_char(c: char) -> (r: bool)
    ensures
        r == is_ws(c),
{
    c == ' ' || c == '\t' || c == '\n' || c == '\r' || c == '\u{000B}' || c == '\u{000C}'
        || c == '\u{0085}' || c == '\u{00A0}' || c == '\u{1680}' || ('\u{2000}' <= c
        && c <= '\u{200A}') || c == '\u{2028}' || c == '\u{2029}' || c == '\u{202F}'
        || c == '\u{205F}' || c == '\u{3000}'
}

pub open spec fn trim_start_spec(s: Seq<char>) -> Seq<char>
    decreases s.len(),
{
    if s.len() > 0 && is_ws(s[0]) {
        trim_start_spec(s.drop_first())
    } else {
        s
    }
}

pub open spec fn trim_end_spec(s: Seq<char>) -> Seq<char>
    decreases s.len(),
{
    if s.len() > 0 && is_ws(s.last()) {
        trim_end_spec(s.drop_last())
    } else {
        s
    }
}

/// What `str::trim` leaves: the sequence without leading and trailing whitespace.
pub open spec fn trim_spec(s: Seq<char>) -> Seq<char> {
    trim_end_spec(trim_start_spec(s))
}

proof fn lemma_trim_start_skip(s: Seq<char>, a: int)
    requires
        0 <= a <= s.len(),
        forall|k: int| 0 <= k < a ==> is_ws(s[k]),
        a < s.len() ==> !is_ws(s[a]),
    ensures
        trim_start_spec(s) == s.skip(a),
    decreases a,
{
    if a == 0 {
        assert(s.skip(0) =~= s);
    } else {
        lemma_trim_start_skip(s.drop_first(), a - 1);
        assert(s.drop_first().skip(a - 1) =~= s.skip(a));
    }
}

proof fn lemma_trim_end_take(s: Seq<char>, b: int)
    requires
        0 <= b <= s.len(),
        forall|k: int| b <= k < s.len() ==> is_ws(s[k]),
        b > 0 ==> !is_ws(s[b - 1]),
    ensures
        trim_end_spec(s) == s.take(b),
    decreases s.len() - b,
{
    if b == s.len() {
        assert(s.take(b) =~= s);
    } else {
        lemma_trim_end_take(s.drop_last(), b);
        assert(s.drop_last().take(b) =~= s.take(b));
    }
}

pub fn trim_start_chars(s: &Vec<char>) -> (r: Vec<char>)
    ensures
        r@ == trim_start_spec(s@),
{
    let mut a: usize = 0;
    while a < s.len() && is_ws_char(s[a])
        invariant
            a <= s@.len(),
            forall|k: int| 0 <= k < a ==> is_ws(s@[k]),
        decreases s@.len() - a,
    {
        a = a + 1;
    }
    proof {
        lemma_trim_start_skip(s@, a as int);
        assert(s@.skip(a as int) =~= s@.subrange(a as int, s@.len() as int));
    }
    sub_chars(s, a, s.len())
}

pub fn trim_chars(s: &Vec<char>) -> (r: Vec<char>)
    ensures
        r@ == trim_spec(s@),
{
    let mut a: usize = 0;
    while a < s.len() && is_ws_char(s[a])
        invariant
            a <= s@.len(),
            forall|k: int| 0 <= k < a ==> is_ws(s@[k]),
        decreases s@.len() - a,
    {
        a = a + 1;
    }
    let mut b: usize = s.len();
    while b > a && is_ws_char(s[b - 1])
        invariant
            a <= b <= s@.len(),
            forall|k: int| b <= k < s@.len() ==> is_ws(s@[k]),
        decreases b,
    {
        b = b - 1;
    }
    proof {
        lemma_trim_start_skip(s@, a as int);
        let t = s@.skip(a as int);
        lemma_trim_end_take(t, b - a);
        assert(t.take(b - a) =~= s@.subrange(a as int, b as int));
    }
    sub_chars(s, a, b)
}

/// A decimal digit.
pub open spec fn is_digit(c: char) -> bool {
    '0' <= c && c <= '9'
}

pub fn is_digit_char(c: char) -> (r: bool)
    ensures
        r == is_digit(c),
{
    '0' <= c && c <= '9'
}

/// The length of the leading whitespace run of `s`.
pub open spec fn leading_ws(s: Seq<char>) -> nat
    decreases s.len(),
{
    if s.len() > 0 && is_ws(s[0]) {
        1 + leading_ws(s.drop_first())
    } else {
        0
    }
}

/// The length of the leading digit run of `s`.
pub open spec fn leading_digits(s: Seq<char>) -> nat
    decreases s.len(),
{
    if s.len() > 0 && is_digit(s[0]) {
        1 + leading_digits(s.drop_first())
    } else {
        0
    }
}

pub proof fn lemma_leading_ws_at(s: Seq<char>, a: int)
    requires
        0 <= a <= s.len(),
        forall|k: int| 0 <= k < a ==> is_ws(s[k]),
        a < s.len() ==> !is_ws(s[a]),
    ensures
        leading_ws(s) == a,
    decreases a,
{
    if a == 0 {
    } else {
        lemma_leading_ws_at(s.drop_first(), a - 1);
    }
}

pub proof fn lemma_leading_digits_at(s: Seq<char>, a: int)
    requires
        0 <= a <= s.len(),
        forall|k: int| 0 <= k < a ==> is_digit(s[k]),
        a < s.len() ==> !is_digit(s[a]),
    ensures
        leading_digits(s) == a,
    decreases a,
{
    if a == 0 {
    } else {
        lemma_leading_digits_at(s.drop_first(), a - 1);
    }
}

/// The leading digit run is exactly the digits before the first non-digit.
pub proof fn lemma_leading_digits_prefix(s: Seq<char>)
    ensures
        leading_digits(s) <= s.len(),
        forall|k: int| 0 <= k < leading_digits(s) ==> is_digit(#[trigger] s[k]),
        leading_digits(s) < s.len() ==> !is_digit(s[leading_digits(s) as int]),
    decreases s.len(),
{
    if s.len() > 0 && is_digit(s[0]) {
        lemma_leading_digits_prefix(s.drop_first());
        assert forall|k: int| 0 <= k < leading_digits(s) implies is_digit(#[trigger] s[k]) by {
            if k > 0 {
                assert(s.drop_first()[k - 1] == s[k]);
                assert(is_digit(s.drop_first()[k - 1]));
            }
        }
        if leading_digits(s) < s.len() {
            assert(s.drop_first()[leading_digits(s.drop_first()) as int] == s[
                leading_digits(s) as int
            ]);
        }
    }
}

/// Count the whitespace run of `s` starting at `from`.
pub fn count_ws(s: &Vec<char>, from: usize) -> (r: usize)
    requires
        from <= s@.len(),
    ensures
        from + r <= s@.len(),
        r == leading_ws(s@.skip(from as int)),
{
    let mut a: usize = from;
    while a < s.len() && is_ws_char(s[a])
        invariant
            from <= a <= s@.len(),
            forall|k: int| from <= k < a ==> is_ws(s@[k]),
        decreases s@.len() - a,
    {
        a = a + 1;
    }
    proof {
        let t = s@.skip(from as int);
        assert(forall|k: int| 0 <= k < a - from ==> t[k] == s@[k + from] && is_ws(t[k]));
        lemma_leading_ws_at(t, a - from);
    }
    a - from
}

/// Count the digit run of `s` starting at `from`.
pub fn count_digits(s: &Vec<char>, from: usize) -> (r: usize)
    requires
        from <= s@.len(),
    ensures
        from + r <= s@.len(),
        r == leading_digits(s@.skip(from as int)),
{
    let mut a: usize = from;
    while a < s.len() && is_digit_char(s[a])
        invariant
            from <= a <= s@.len(),
            forall|k: int| from <= k < a ==> is_digit(s@[k]),
        decreases s@.len() - a,
    {
        a = a + 1;
    }
    proof {
        let t = s@.skip(from as int);
        assert(forall|k: int| 0 <= k < a - from ==> t[k] == s@[k + from] && is_digit(t[k]));
        lemma_leading_digits_at(t, a - from);
    }
    a - from
}

/// `s` without its leading run of the character `c`.
pub open spec fn strip_leading(s: Seq<char>, c: char) -> Seq<char>
    decreases s.len(),
{
    if s.len() > 0 && s[0] == c {
        strip_leading(s.drop_first(), c)
    } else {
        s
    }
}

proof fn lemma_strip_leading_skip(s: Seq<char>, c: char, a: int)
    requires
        0 <= a <= s.len(),
        forall|k: int| 0 <= k < a ==> s[k] == c,
        a < s.len() ==> s[a] != c,
    ensures
        strip_leading(s, c) == s.skip(a),
    decreases a,
{
    if a == 0 {
        assert(s.skip(0) =~= s);
    } else {
        lemma_strip_leading_skip(s.drop_first(), c, a - 1);
        assert(s.drop_first().skip(a - 1) =~= s.skip(a));
    }
}

pub fn strip_leading_chars(s: &Vec<char>, c: char) -> (r: Vec<char>)
    ensures
        r@ == strip_leading(s@, c),
{
    let mut a: usize = 0;
    while a < s.len() && s[a] == c
        invariant
            a <= s@.len(),
            forall|k: int| 0 <= k < a ==> s@[k] == c,
        decreases s@.len() - a,
    {
        a = a + 1;
    }
    proof {
        lemma_strip_leading_skip(s@, c, a as int);
        assert(s@.skip(a as int) =~= s@.subrange(a as int, s@.len() as int));
    }
    sub_chars(s, a, s.len())
}

/// An ASCII capital letter mapped to its small form; any other character kept.
pub open spec fn lower_char(c: char) -> char {
    if c == 'A' {
        'a'
    } else if c == 'B' {
        'b'
    } else if c == 'C' {
        'c'
    } else if c == 'D' {
        'd'
    } else if c == 'E' {
        'e'
    } else if c == 'F' {
        'f'
    } else if c == 'G' {
        'g'
    } else if c == 'H' {
        'h'
    } else if c == 'I' {
        'i'
    } else if c == 'J' {
        'j'
    } else if c == 'K' {
        'k'
    } else if c == 'L' {
        'l'
    } else if c == 'M' {
        'm'
    } else if c == 'N' {
        'n'
    } else if c == 'O' {
        'o'
    } else if c == 'P' {
        'p'
    } else if c == 'Q' {
        'q'
    } else if c == 'R' {
        'r'
    } else if c == 'S' {
        's'
    } else if c == 'T' {
        't'
    } else if c == 'U' {
        'u'
    } else if c == 'V' {
        'v'
    } else if c == 'W' {
        'w'
    } else if c == 'X' {
        'x'
    } else if c == 'Y' {
        'y'
    } else if c == 'Z' {
        'z'
    } else {
        c
    }
}

/// `s` with every ASCII capital letter lowered, as `str::to_ascii_lowercase`.
pub open spec fn ascii_lower_seq(s: Seq<char>) -> Seq<char> {
    s.map_values(|c: char| lower_char(c))
}

fn lower_char_of(c: char) -> (r: char)
    ensures
        r == lower_char(c),
{
    if 'A' <= c && c <= 'Z' {
        match c {
            'A' => 'a',
            'B' => 'b',
            'C' => 'c',
            'D' => 'd',
            'E' => 'e',
            'F' => 'f',
            'G' => 'g',
            'H' => 'h',
            'I' => 'i',
            'J' => 'j',
            'K' => 'k',
            'L' => 'l',
            'M' => 'm',
            'N' => 'n',
            'O' => 'o',
            'P' => 'p',
            'Q' => 'q',
            'R' => 'r',
            'S' => 's',
            'T' => 't',
            'U' => 'u',
            'V' => 'v',
            'W' => 'w',
            'X' => 'x',
            'Y' => 'y',
            _ => 'z',
        }
    } else {
        c
    }
}

pub fn ascii_lower_chars(s: &Vec<char>) -> (r: Vec<char>)
    ensures
        r@ == ascii_lower_seq(s@),
{
    let mut out: Vec<char> = Vec::new();
    let mut i: usize = 0;
    while i < s.len()
        invariant
            i <= s@.len(),
            out@.len() == i,
            forall|k: int| 0 <= k < i ==> out@[k] == lower_char(s@[k]),
        decreases s@.len() - i,
    {
        out.push(lower_char_of(s[i]));
        i = i + 1;
    }
    proof {
        assert(out@ =~= ascii_lower_seq(s@));
    }
    out
}

/// Every occurrence of `pat` in `s` replaced by `rep`, scanning left to
/// right without revisiting replacements, as `str::replace` does.
pub open spec fn replace_spec(s: Seq<char>, pat: Seq<char>, rep: Seq<char>) -> Seq<char>
    decreases s.len(),
    when pat.len() > 0
{
    if s.len() == 0 {
        s
    } else if starts_with_seq(s, pat) {
        rep + replace_spec(s.skip(pat.len() as int), pat, rep)
    } else {
        seq![s[0]] + replace_spec(s.drop_first(), pat, rep)
    }
}

pub fn replace_chars(s: &Vec<char>, pat: &Vec<char>, rep: &Vec<char>) -> (r: Vec<char>)
    requires
        pat@.len() > 0,
    ensures
        r@ == replace_spec(s@, pat@, rep@),
{
    let mut out: Vec<char> = Vec::new();
    let mut i: usize = 0;
    proof {
        assert(s@.skip(0) =~= s@);
        assert(out@ + replace_spec(s@, pat@, rep@) =~= replace_spec(s@, pat@, rep@));
    }
    while i < s.len()
        invariant
            pat@.len() > 0,
            i <= s@.len(),
            replace_spec(s@, pat@, rep@) == out@ + replace_spec(
                s@.skip(i as int),
                pat@,
                rep@,
            ),
        decreases s@.len() - i,
    {
        let ghost prev_i = i as int;
        let ghost prev_out = out@;
        if pat.len() <= s.len() - i && matches_at(s, pat, i) {
            proof {
                assert(s@.skip(prev_i).subrange(0, pat@.len() as int) =~= s@.subrange(
                    prev_i,
                    prev_i + pat@.len(),
                ));
                assert(starts_with_seq(s@.skip(prev_i), pat@));
                assert(s@.skip(prev_i).skip(pat@.len() as int) =~= s@.skip(
                    prev_i + pat@.len(),
                ));
            }
            push_chars(&mut out, rep);
            i = i + pat.len();
            proof {
                assert(replace_spec(s@.skip(prev_i), pat@, rep@) == rep@ + replace_spec(
                    s@.skip(i as int),
                    pat@,
                    rep@,
                ));
                assert(prev_out + replace_spec(s@.skip(prev_i), pat@, rep@) =~= out@
                    + replace_spec(s@.skip(i as int), pat@, rep@));
            }
        } else {
            proof {
                let t = s@.skip(prev_i);
                assert(t.len() > 0);
                if starts_with_seq(t, pat@) {
                    assert(prev_i + pat@.len() <= s@.len());
                    assert(t.subrange(0, pat@.len() as int) =~= s@.subrange(
                        prev_i,
                        prev_i + pat@.len(),
                    ));
                    assert(match_at(s@, pat@, prev_i));
                    assert(false);
                }
                assert(t.drop_first() =~= s@.skip(prev_i + 1));
            }
            out.push(s[i]);
            i = i + 1;
            proof {
                assert(prev_out + (seq![s@[prev_i]] + replace_spec(
                    s@.skip(i as int),
                    pat@,
                    rep@,
                )) =~= out@ + replace_spec(s@.skip(i as int), pat@, rep@));
            }
        }
    }
    proof {
        assert(s@.skip(s@.len() as int) =~= Seq::<char>::empty());
        assert(out@ + Seq::<char>::empty() =~= out@);
    }
    out
}

/// A line terminator's `\r` is stripped, as `str::lines` does.
pub open spec fn strip_cr(l: Seq<char>) -> Seq<char> {
    if l.len() > 0 && l.last() == '\r' {
        l.drop_last()
    } else {
        l
    }
}

/// The lines of `s`, split at `\n` (or `\r\n`), without a trailing empty
/// line, as `str::lines` yields them.
pub open spec fn lines_spec(s: Seq<char>) -> Seq<Seq<char>>
    decreases s.len(),
{
    if s.len() == 0 {
        Seq::empty()
    } else {
        match find_seq(s, seq!['\n']) {
            Some(i) => if 0 <= i && i + 1 <= s.len() {
                seq![strip_cr(s.take(i))] + lines_spec(s.skip(i + 1))
            } else {
                seq![s]
            },
            None => seq![s],
        }
    }
}

/// The lines of `s`, each as its own vector.
pub fn lines_chars(s: &Vec<char>) -> (r: Vec<Vec<char>>)
    ensures
        r@.len() == lines_spec(s@).len(),
        forall|k: int| 0 <= k < r@.len() ==> r@[k]@ == lines_spec(s@)[k],
{
    let slen: usize = s.len();
    let mut out: Vec<Vec<char>> = Vec::new();
    let mut pos: usize = 0;
    let nl: Vec<char> = vec!['\n'];
    proof {
        assert(nl@ =~= seq!['\n']);
        assert(s@.skip(0) =~= s@);
    }
    while pos < slen
        invariant
            nl@ == seq!['\n'],
            slen == s@.len(),
            pos <= s@.len(),
            lines_spec(s@).len() == out@.len() + lines_spec(s@.skip(pos as int)).len(),
            forall|k: int|
                0 <= k < out@.len() ==> #[trigger] out@[k]@ == lines_spec(s@)[k],
            forall|k: int|
                0 <= k < lines_spec(s@.skip(pos as int)).len() ==> lines_spec(
                    s@.skip(pos as int),
                )[k] == lines_spec(s@)[out@.len() + k],
        decreases s@.len() - pos,
    {
        let ghost prev_pos = pos as int;
        let ghost rest = s@.skip(prev_pos);
        let rest_vec = sub_chars(s, pos, slen);
        proof {
            assert(rest_vec@ =~= rest);
        }
        let next = find_in(&rest_vec, &nl);
        let line: Vec<char>;
        match next {
            Some(j) => {
                proof {
                    lemma_find_from_properties(rest, nl@, 0);
                    assert(match_at(rest, nl@, j as int));
                    assert(j + 1 <= rest.len());
                }
                let full = sub_chars(s, pos, pos + j);
                proof {
                    assert(rest.take(j as int) =~= s@.subrange(prev_pos, prev_pos + j));
                }
                if full.len() > 0 && full[full.len() - 1] == '\r' {
                    line = sub_chars(s, pos, pos + j - 1);
                    proof {
                        assert(strip_cr(rest.take(j as int)) =~= s@.subrange(
                            prev_pos,
                            prev_pos + j - 1,
                        ));
                    }
                } else {
                    line = full;
                    proof {
                        assert(strip_cr(rest.take(j as int)) == rest.take(j as int));
                    }
                }
                pos = pos + j + 1;
                proof {
                    assert(rest.skip(j + 1) =~= s@.skip(prev_pos + j + 1));
                    assert(lines_spec(rest) == seq![strip_cr(rest.take(j as int))]
                        + lines_spec(s@.skip(pos as int)));
                }
            },
            None => {
                line = rest_vec;
                pos = slen;
                proof {
                    assert(lines_spec(rest) =~= seq![rest]);
                    assert(s@.skip(pos as int).len() == 0);
                }
            },
        }
        let ghost prev_out = out@;
        out.push(line);
        proof {
            let cur = s@.skip(pos as int);
            assert(lines_spec(rest)[0] == line@);
            assert(lines_spec(rest)[0] == lines_spec(s@)[prev_out.len() as int]);
            assert(out@[prev_out.len() as int]@ == lines_spec(s@)[prev_out.len() as int]);
            assert(forall|k: int|
                0 <= k < prev_out.len() ==> #[trigger] out@[k]@ == lines_spec(s@)[k]);
            assert forall|k: int| 0 <= k < lines_spec(cur).len() implies lines_spec(cur)[k]
                == lines_spec(s@)[out@.len() + k] by {
                assert(lines_spec(rest)[k + 1] == lines_spec(cur)[k]);
                assert(lines_spec(rest)[k + 1] == lines_spec(s@)[prev_out.len() + (k + 1)]);
            }
        }
    }
    proof {
        assert(s@.skip(pos as int).len() == 0);
    }
    out
}

/// The pieces of `s` split at every occurrence of `c`; empty pieces are
/// kept, and an empty text is one empty piece, as `str::split` yields them.
pub open spec fn split_spec(s: Seq<char>, c: char) -> Seq<Seq<char>>
    decreases s.len(),
{
    match find_seq(s, seq![c]) {
        Some(i) => if 0 <= i && i + 1 <= s.len() {
            seq![s.take(i)] + split_spec(s.skip(i + 1), c)
        } else {
            seq![s]
        },
        None => seq![s],
    }
}

/// Split `s` at every occurrence of `c`.
pub fn split_chars(s: &Vec<char>, c: char) -> (r: Vec<Vec<char>>)
    ensures
        r@.len() == split_spec(s@, c).len(),
        forall|k: int| 0 <= k < r@.len() ==> r@[k]@ == split_spec(s@, c)[k],
{
    let slen: usize = s.len();
    let mut out: Vec<Vec<char>> = Vec::new();
    let mut pos: usize = 0;
    let mut sep: Vec<char> = Vec::new();
    sep.push(c);
    proof {
        assert(sep@ =~= seq![c]);
        assert(s@.skip(0) =~= s@);
    }
    loop
        invariant_except_break
            sep@ == seq![c],
            slen == s@.len(),
            pos <= s@.len(),
            split_spec(s@, c).len() == out@.len() + split_spec(s@.skip(pos as int), c).len(),
            forall|k: int|
                0 <= k < out@.len() ==> #[trigger] out@[k]@ == split_spec(s@, c)[k],
            forall|k: int|
                0 <= k < split_spec(s@.skip(pos as int), c).len() ==> split_spec(
                    s@.skip(pos as int),
                    c,
                )[k] == split_spec(s@, c)[out@.len() + k],
        ensures
            out@.len() == split_spec(s@, c).len(),
            forall|k: int| 0 <= k < out@.len() ==> #[trigger] out@[k]@ == split_spec(s@, c)[k],
        decreases s@.len() - pos + 1,
    {
        let ghost prev_pos = pos as int;
        let ghost rest = s@.skip(prev_pos);
        let rest_vec = sub_chars(s, pos, slen);
        proof {
            assert(rest_vec@ =~= rest);
        }
        let next = find_in(&rest_vec, &sep);
        match next {
            Some(j) => {
                proof {
                    lemma_find_from_properties(rest, seq![c], 0);
                    assert(match_at(rest, seq![c], j as int));
                    assert(j + 1 <= rest.len());
                }
                let piece = sub_chars(s, pos, pos + j);
                proof {
                    assert(rest.take(j as int) =~= s@.subrange(prev_pos, prev_pos + j));
                }
                pos = pos + j + 1;
                proof {
                    assert(rest.skip(j + 1) =~= s@.skip(prev_pos + j + 1));
                    assert(split_spec(rest, c) == seq![rest.take(j as int)] + split_spec(
                        s@.skip(pos as int),
                        c,
                    ));
                }
                let ghost prev_out = out@;
                out.push(piece);
                proof {
                    let cur = s@.skip(pos as int);
                    assert(split_spec(rest, c)[0] == piece@);
                    assert(out@[prev_out.len() as int]@ == split_spec(s@, c)[
                        prev_out.len() as int
                    ]);
                    assert forall|k: int| 0 <= k < split_spec(cur, c).len() implies split_spec(
                        cur,
                        c,
                    )[k] == split_spec(s@, c)[out@.len() + k] by {
                        assert(split_spec(rest, c)[k + 1] == split_spec(cur, c)[k]);
                        assert(split_spec(rest, c)[k + 1] == split_spec(s@, c)[prev_out.len() + (
                        k + 1)]);
                    }
                }
            },
            None => {
                let ghost prev_out = out@;
                proof {
                    assert(find_seq(rest, seq![c]) is None);
                    assert(split_spec(rest, c) == seq![rest]);
                    assert(split_spec(rest, c)[0] == rest);
                    assert(split_spec(rest, c).len() == 1);
                }
                out.push(rest_vec);
                proof {
                    assert(out@[prev_out.len() as int]@ == split_spec(s@, c)[
                        prev_out.len() as int
                    ]);
                }
                break;
            },
        }
    }
    out
}

/// The pieces joined with the separator between consecutive pieces.
pub open spec fn join_spec(pieces: Seq<Seq<char>>, sep: Seq<char>) -> Seq<char>
    decreases pieces.len(),
{
    if pieces.len() == 0 {
        Seq::empty()
    } else if pieces.len() == 1 {
        pieces[0]
    } else {
        pieces[0] + sep + join_spec(pieces.drop_first(), sep)
    }
}

/// Appending one more piece appends one more separator-prefixed piece.
proof fn lemma_join_push(pieces: Seq<Seq<char>>, sep: Seq<char>, x: Seq<char>)
    ensures
        pieces.len() == 0 ==> join_spec(pieces.push(x), sep) == x,
        pieces.len() > 0 ==> join_spec(pieces.push(x), sep) == join_spec(pieces, sep) + sep + x,
    decreases pieces.len(),
{
    let p = pieces.push(x);
    if pieces.len() == 0 {
        assert(p.len() == 1);
        assert(p[0] == x);
    } else if pieces.len() == 1 {
        assert(p.len() == 2);
        assert(p[0] == pieces[0]);
        assert(p.drop_first() =~= seq![x]);
        assert(join_spec(p.drop_first(), sep) == x);
    } else {
        lemma_join_push(pieces.drop_first(), sep, x);
        assert(p.drop_first() =~= pieces.drop_first().push(x));
        assert(join_spec(p, sep) == p[0] + sep + join_spec(pieces.drop_first().push(x), sep));
        assert(join_spec(pieces.drop_first().push(x), sep) == join_spec(
            pieces.drop_first(),
            sep,
        ) + sep + x);
        assert(p[0] + sep + (join_spec(pieces.drop_first(), sep) + sep + x) =~= (pieces[0] + sep
            + join_spec(pieces.drop_first(), sep)) + sep + x);
    }
}

pub fn join_chars(pieces: &Vec<Vec<char>>, sep: &Vec<char>) -> (r: Vec<char>)
    ensures
        r@ == join_spec(pieces@.map_values(|p: Vec<char>| p@), sep@),
{
    let ghost pcs = pieces@.map_values(|p: Vec<char>| p@);
    let mut out: Vec<char> = Vec::new();
    let mut i: usize = 0;
    proof {
        assert(pcs.take(0) =~= Seq::<Seq<char>>::empty());
    }
    while i < pieces.len()
        invariant
            pcs == pieces@.map_values(|p: Vec<char>| p@),
            pcs.len() == pieces@.len(),
            i <= pieces@.len(),
            i == 0 ==> out@ == Seq::<char>::empty(),
            out@ == join_spec(pcs.take(i as int), sep@),
        decreases pieces@.len() - i,
    {
        let ghost prev_out = out@;
        if i > 0 {
            push_chars(&mut out, sep);
        }
        push_chars(&mut out, &pieces[i]);
        proof {
            assert(pcs.take(i + 1) =~= pcs.take(i as int).push(pcs[i as int]));
            lemma_join_push(pcs.take(i as int), sep@, pcs[i as int]);
            if i == 0 {
                assert(out@ =~= pcs[0]);
            } else {
                assert(out@ =~= (prev_out + sep@) + pcs[i as int]);
                assert((join_spec(pcs.take(i as int), sep@) + sep@) + pcs[i as int] =~= join_spec(
                    pcs.take(i as int),
                    sep@,
                ) + sep@ + pcs[i as int]);
            }
        }
        i = i + 1;
    }
    proof {
        assert(pcs.take(pcs.len() as int) =~= pcs);
    }
    out
}

/// The decimal digits of `n`, most significant first.
pub open spec fn dec_spec(n: nat) -> Seq<char>
    decreases n,
{
    let digit = seq![digit_char((n % 10) as int)];
    if n < 10 {
        digit
    } else {
        dec_spec(n / 10) + digit
    }
}

pub open spec fn digit_char(d: int) -> char {
    if d == 0 {
        '0'
    } else if d == 1 {
        '1'
    } else if d == 2 {
        '2'
    } else if d == 3 {
        '3'
    } else if d == 4 {
        '4'
    } else if d == 5 {
        '5'
    } else if d == 6 {
        '6'
    } else if d == 7 {
        '7'
    } else if d == 8 {
        '8'
    } else {
        '9'
    }
}

fn digit_char_of(d: u64) -> (r: char)
    requires
        d < 10,
    ensures
        r == digit_char(d as int),
{
    match d {
        0 => '0',
        1 => '1',
        2 => '2',
        3 => '3',
        4 => '4',
        5 => '5',
        6 => '6',
        7 => '7',
        8 => '8',
        _ => '9',
    }
}

/// The decimal rendering of `n`.
pub fn u64_to_chars(n: u64) -> (r: Vec<char>)
    ensures
        r@ == dec_spec(n as nat),
{
    let mut rev: Vec<char> = Vec::new();
    let mut m: u64 = n;
    while m >= 10
        invariant
            dec_spec(n as nat) == dec_spec(m as nat) + rev@.reverse(),
        decreases m,
    {
        let ghost prev_rev = rev@;
        let ghost prev_m = m as nat;
        rev.push(digit_char_of(m % 10));
        m = m / 10;
        proof {
            assert(rev@.reverse() =~= seq![digit_char((prev_m % 10) as int)]
                + prev_rev.reverse());
            assert(dec_spec(prev_m) == dec_spec(m as nat) + seq![
                digit_char((prev_m % 10) as int),
            ]);
            assert(dec_spec(m as nat) + seq![digit_char((prev_m % 10) as int)]
                + prev_rev.reverse() =~= dec_spec(m as nat) + (seq![
                digit_char((prev_m % 10) as int),
            ] + prev_rev.reverse()));
        }
    }
    let mut out: Vec<char> = Vec::new();
    out.push(digit_char_of(m));
    proof {
        assert(out@ =~= dec_spec(m as nat));
    }
    let mut i: usize = rev.len();
    while i > 0
        invariant
            i <= rev@.len(),
            out@ == dec_spec(m as nat) + rev@.reverse().take(rev@.len() - i),
        decreases i,
    {
        i = i - 1;
        out.push(rev[i]);
        proof {
            assert(rev@.reverse()[rev@.len() - i - 1] == rev@[i as int]);
            assert(dec_spec(m as nat) + rev@.reverse().take(rev@.len() - i) =~= (dec_spec(
                m as nat,
            ) + rev@.reverse().take(rev@.len() - i - 1)).push(rev@[i as int]));
        }
    }
    proof {
        assert(rev@.reverse().take(rev@.len() as int) =~= rev@.reverse());
    }
    out
}

} // verus!
