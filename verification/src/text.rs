//! Character-level scanning primitives shared by the condition, effect and
//! markup parsers: whitespace trimming, prefix tests, substring search and
//! splitting, together with their specification functions.
use vstd::prelude::*;

verus! {

/// A character counts as whitespace for trimming and token separation:
/// space, tab, carriage return or line feed.
pub open spec fn is_space(c: char) -> bool {
    c == ' ' || c == '\t' || c == '\r' || c == '\n'
}

pub fn is_space_char(c: char) -> (r: bool)
    ensures
        r == is_space(c),
{
    c == ' ' || c == '\t' || c == '\r' || c == '\n'
}

/// The sequence with leading whitespace removed.
pub open spec fn trim_start_spec(s: Seq<char>) -> Seq<char>
    decreases s.len(),
{
    if s.len() > 0 && is_space(s[0]) {
        trim_start_spec(s.drop_first())
    } else {
        s
    }
}

/// The sequence with trailing whitespace removed.
pub open spec fn trim_end_spec(s: Seq<char>) -> Seq<char>
    decreases s.len(),
{
    if s.len() > 0 && is_space(s.last()) {
        trim_end_spec(s.drop_last())
    } else {
        s
    }
}

/// The sequence with whitespace removed from both ends.
pub open spec fn trim_spec(s: Seq<char>) -> Seq<char> {
    trim_end_spec(trim_start_spec(s))
}

pub fn trim_start(s: &str) -> (r: &str)
    ensures
        r@ == trim_start_spec(s@),
    decreases s@.len(),
{
    let n = s.unicode_len();
    if n > 0 && is_space_char(s.get_char(0)) {
        let rest = s.substring_char(1, n);
        proof {
            assert(rest@ =~= s@.drop_first());
        }
        trim_start(rest)
    } else {
        s
    }
}

pub fn trim_end(s: &str) -> (r: &str)
    ensures
        r@ == trim_end_spec(s@),
    decreases s@.len(),
{
    let n = s.unicode_len();
    if n > 0 && is_space_char(s.get_char(n - 1)) {
        let rest = s.substring_char(0, n - 1);
        proof {
            assert(rest@ =~= s@.drop_last());
        }
        trim_end(rest)
    } else {
        s
    }
}

pub fn trim(s: &str) -> (r: &str)
    ensures
        r@ == trim_spec(s@),
{
    trim_end(trim_start(s))
}

/// Trimming never grows a sequence, and the result starts and ends with a
/// non-whitespace character (or is empty).
pub proof fn lemma_trim_spec_shape(s: Seq<char>)
    ensures
        trim_spec(s).len() <= s.len(),
        trim_spec(s).len() > 0 ==> !is_space(trim_spec(s)[0]),
        trim_spec(s).len() > 0 ==> !is_space(trim_spec(s).last()),
    decreases s.len(),
{
    lemma_trim_start_shape(s);
    lemma_trim_end_shape(trim_start_spec(s));
}

pub proof fn lemma_trim_start_shape(s: Seq<char>)
    ensures
        trim_start_spec(s).len() <= s.len(),
        trim_start_spec(s).len() > 0 ==> !is_space(trim_start_spec(s)[0]),
    decreases s.len(),
{
    if s.len() > 0 && is_space(s[0]) {
        lemma_trim_start_shape(s.drop_first());
    }
}

pub proof fn lemma_trim_end_shape(s: Seq<char>)
    ensures
        trim_end_spec(s).len() <= s.len(),
        trim_end_spec(s).len() > 0 ==> !is_space(trim_end_spec(s).last()),
        trim_end_spec(s).len() > 0 && !is_space(s[0]) ==> !is_space(trim_end_spec(s)[0]) && trim_end_spec(s)[0] == s[0],
    decreases s.len(),
{
    if s.len() > 0 && is_space(s.last()) {
        lemma_trim_end_shape(s.drop_last());
    }
}

/// A sequence that starts and ends with non-whitespace is its own trim.
pub proof fn lemma_trim_spec_identity(s: Seq<char>)
    requires
        s.len() > 0,
        !is_space(s[0]),
        !is_space(s.last()),
    ensures
        trim_spec(s) == s,
{
    assert(trim_start_spec(s) == s);
    assert(trim_end_spec(s) == s);
}

/// The first character a variable name may start with: a lower-case letter
/// or an underscore.
pub open spec fn is_ident_start(c: char) -> bool {
    ('a' as u32 <= c as u32 && c as u32 <= 'z' as u32) || c == '_'
}

/// A character a variable name may continue with: a lower-case letter, a
/// digit, an underscore or a dot.
pub open spec fn is_ident_char(c: char) -> bool {
    is_ident_start(c) || ('0' as u32 <= c as u32 && c as u32 <= '9' as u32) || c == '.'
}

pub fn is_ident_start_char(c: char) -> (r: bool)
    ensures
        r == is_ident_start(c),
{
    ('a' <= c && c <= 'z') || c == '_'
}

pub fn is_ident_char_char(c: char) -> (r: bool)
    ensures
        r == is_ident_char(c),
{
    is_ident_start_char(c) || ('0' <= c && c <= '9') || c == '.'
}

/// The whitespace predicate, as a value handed to `run_end`.
pub open spec fn space_pred() -> spec_fn(char) -> bool {
    |c: char| is_space(c)
}

/// The identifier-character predicate, as a value handed to `run_end`.
pub open spec fn ident_pred() -> spec_fn(char) -> bool {
    |c: char| is_ident_char(c)
}

/// The predicate holding until the character `stop`, handed to `run_end`.
pub open spec fn until_pred(stop: char) -> spec_fn(char) -> bool {
    |c: char| c != stop
}

/// `pat` occurs in `s` starting at position `i`.
pub open spec fn matches_at(s: Seq<char>, i: int, pat: Seq<char>) -> bool {
    0 <= i && i + pat.len() <= s.len() && s.subrange(i, i + pat.len()) == pat
}

/// The end of the run of characters satisfying `p` that starts at `i`.
pub open spec fn run_end(s: Seq<char>, i: int, p: spec_fn(char) -> bool) -> int
    decreases s.len() - i,
{
    if 0 <= i < s.len() && p(s[i]) {
        run_end(s, i + 1, p)
    } else {
        i
    }
}

/// Characterization of `run_end`: every character of the run satisfies `p`,
/// and the run stops at the end of `s` or at the first failing character.
pub proof fn lemma_run_end(s: Seq<char>, i: int, p: spec_fn(char) -> bool)
    requires
        0 <= i <= s.len(),
    ensures
        i <= run_end(s, i, p) <= s.len(),
        forall|j: int| i <= j < run_end(s, i, p) ==> p(s[j]),
        run_end(s, i, p) < s.len() ==> !p(s[run_end(s, i, p)]),
    decreases s.len() - i,
{
    if i < s.len() && p(s[i]) {
        lemma_run_end(s, i + 1, p);
    }
}

/// `run_end` is the unique position `e` such that the run `[i, e)` satisfies
/// `p` and the run cannot be extended past `e`.
pub proof fn lemma_run_end_unique(s: Seq<char>, i: int, p: spec_fn(char) -> bool, e: int)
    requires
        0 <= i <= e <= s.len(),
        forall|j: int| i <= j < e ==> p(s[j]),
        e < s.len() ==> !p(s[e]),
    ensures
        run_end(s, i, p) == e,
    decreases e - i,
{
    if i < e {
        lemma_run_end_unique(s, i + 1, p, e);
    } else {
        if i < s.len() && p(s[i]) {
            assert(false);
        }
    }
}

/// Skips the run of whitespace starting at `i`.
pub fn skip_spaces(s: &str, i: usize) -> (r: usize)
    requires
        i <= s@.len(),
    ensures
        r == run_end(s@, i as int, space_pred()),
        i <= r <= s@.len(),
    decreases s@.len() - i,
{
    let n = s.unicode_len();
    if i < n && is_space_char(s.get_char(i)) {
        skip_spaces(s, i + 1)
    } else {
        i
    }
}

/// Skips the run of identifier characters starting at `i`.
pub fn skip_ident_chars(s: &str, i: usize) -> (r: usize)
    requires
        i <= s@.len(),
    ensures
        r == run_end(s@, i as int, ident_pred()),
        i <= r <= s@.len(),
    decreases s@.len() - i,
{
    let n = s.unicode_len();
    if i < n && is_ident_char_char(s.get_char(i)) {
        skip_ident_chars(s, i + 1)
    } else {
        i
    }
}

/// Skips forward from `i` until the character `stop` or the end of `s`.
pub fn skip_until_char(s: &str, i: usize, stop: char) -> (r: usize)
    requires
        i <= s@.len(),
    ensures
        r == run_end(s@, i as int, until_pred(stop)),
        i <= r <= s@.len(),
    decreases s@.len() - i,
{
    let n = s.unicode_len();
    if i < n && s.get_char(i) != stop {
        skip_until_char(s, i + 1, stop)
    } else {
        i
    }
}

/// The first position at or after `from` where `pat` occurs in `s`.
pub open spec fn find_at(s: Seq<char>, from: int, pat: Seq<char>) -> Option<int>
    decreases s.len() - from,
{
    if from < 0 || from + pat.len() > s.len() {
        None
    } else if pat.len() == 0 {
        Some(from)
    } else if matches_at(s, from, pat) {
        Some(from)
    } else {
        find_at(s, from + 1, pat)
    }
}

/// Characterization of `find_at`: the result is the first occurrence of
/// `pat` at or after `from`, or there is none.
pub proof fn lemma_find_at(s: Seq<char>, from: int, pat: Seq<char>)
    requires
        0 <= from,
    ensures
        match find_at(s, from, pat) {
            Some(i) => from <= i && matches_at(s, i, pat) && forall|j: int|
                from <= j < i ==> !matches_at(s, j, pat),
            None => forall|j: int| from <= j ==> !matches_at(s, j, pat),
        },
    decreases s.len() - from,
{
    if from + pat.len() > s.len() {
    } else if pat.len() == 0 {
        assert(s.subrange(from, from) =~= pat);
    } else if matches_at(s, from, pat) {
    } else {
        lemma_find_at(s, from + 1, pat);
    }
}

/// `pat` occurs somewhere in `s`.
pub open spec fn contains_spec(s: Seq<char>, pat: Seq<char>) -> bool {
    find_at(s, 0, pat) is Some
}

/// Whether the characters of `pat` stand in `s` at position `i`.
pub fn starts_at(s: &str, i: usize, pat: &str) -> (r: bool)
    requires
        i <= s@.len(),
    ensures
        r == matches_at(s@, i as int, pat@),
{
    let n = s.unicode_len();
    let m = pat.unicode_len();
    if m > n - i {
        return false;
    }
    let mut j: usize = 0;
    while j < m
        invariant
            0 <= j <= m,
            i + m <= n,
            n == s@.len(),
            m == pat@.len(),
            forall|k: int| 0 <= k < j ==> s@[i + k] == pat@[k],
        decreases m - j,
    {
        if s.get_char(i + j) != pat.get_char(j) {
            assert(s@.subrange(i as int, i + m) != pat@) by {
                assert(s@.subrange(i as int, i + m)[j as int] != pat@[j as int]);
            }
            return false;
        }
        j += 1;
    }
    proof {
        assert(s@.subrange(i as int, i + m) =~= pat@);
    }
    true
}

/// The first occurrence of `pat` in `s` at or after position `from`.
pub fn find_from(s: &str, from: usize, pat: &str) -> (r: Option<usize>)
    requires
        from <= s@.len(),
    ensures
        match r {
            Some(i) => find_at(s@, from as int, pat@) == Some(i as int) && from <= i
                && i + pat@.len() <= s@.len(),
            None => find_at(s@, from as int, pat@) is None,
        },
    decreases s@.len() - from,
{
    let n = s.unicode_len();
    let m = pat.unicode_len();
    if m > n - from {
        None
    } else if starts_at(s, from, pat) {
        Some(from)
    } else {
        proof {
            if pat@.len() == 0 {
                assert(s@.subrange(from as int, from as int) =~= pat@);
            }
        }
        find_from(s, from + 1, pat)
    }
}

/// Whether `pat` occurs anywhere in `s`.
pub fn contains_str(s: &str, pat: &str) -> (r: bool)
    ensures
        r == contains_spec(s@, pat@),
{
    find_from(s, 0, pat).is_some()
}

/// The pieces of `s` between consecutive occurrences of the separator, in
/// order; a sequence with no separator is one piece.
pub open spec fn split_spec(s: Seq<char>, sep: Seq<char>) -> Seq<Seq<char>>
    decreases s.len(),
    when sep.len() > 0
    via split_spec_decreases
{
    match find_at(s, 0, sep) {
        None => seq![s],
        Some(i) => seq![s.subrange(0, i)] + split_spec(
            s.subrange(i + sep.len(), s.len() as int),
            sep,
        ),
    }
}

#[via_fn]
proof fn split_spec_decreases(s: Seq<char>, sep: Seq<char>) {
    lemma_find_at(s, 0, sep);
}

/// Splits `s` on every occurrence of the separator.
pub fn split_on(s: &str, sep: &str) -> (r: Vec<String>)
    requires
        sep@.len() > 0,
    ensures
        r@.len() == split_spec(s@, sep@).len(),
        forall|k: int| 0 <= k < r@.len() ==> r@[k]@ == split_spec(s@, sep@)[k],
    decreases s@.len(),
{
    match find_from(s, 0, sep) {
        None => {
            let mut r: Vec<String> = Vec::new();
            r.push(s.to_owned());
            r
        },
        Some(i) => {
            proof {
                lemma_find_at(s@, 0, sep@);
            }
            let n = s.unicode_len();
            let m = sep.unicode_len();
            let head = s.substring_char(0, i);
            let rest = s.substring_char(i + m, n);
            let mut r = split_on(rest, sep);
            r.insert(0, head.to_owned());
            r
        },
    }
}

} // verus!
