//! Character classes and low-level text scanning.
//!
//! The URL grammar in this crate is stated over ASCII character classes: the
//! whitespace characters, word characters (letters, digits, underscore),
//! decimal digits, and the ASCII punctuation block. Characters outside ASCII
//! are never whitespace nor punctuation here, so they may appear inside a URL
//! body. The executable scanners below are each proved equal to the spec-level
//! run functions used by the grammar.

use vstd::prelude::*;

verus! {

/// Whitespace: space, tab, line feed, vertical tab, form feed, carriage return.
pub open spec fn is_space_char(c: char) -> bool {
    c == ' ' || c == '\t' || c == '\n' || c == '\u{b}' || c == '\u{c}' || c == '\r'
}

/// Word characters: ASCII letters, decimal digits, underscore.
pub open spec fn is_word_char(c: char) -> bool {
    ||| 'a' as u32 <= c as u32 && c as u32 <= 'z' as u32
    ||| 'A' as u32 <= c as u32 && c as u32 <= 'Z' as u32
    ||| '0' as u32 <= c as u32 && c as u32 <= '9' as u32
    ||| c == '_'
}

/// Decimal digits.
pub open spec fn is_digit_char(c: char) -> bool {
    '0' as u32 <= c as u32 && c as u32 <= '9' as u32
}

/// The ASCII punctuation block: `!`..`/`, `:`..`@`, `[`..`` ` ``, `{`..`~`.
pub open spec fn is_punct_char(c: char) -> bool {
    ||| '!' as u32 <= c as u32 && c as u32 <= '/' as u32
    ||| ':' as u32 <= c as u32 && c as u32 <= '@' as u32
    ||| '[' as u32 <= c as u32 && c as u32 <= '`' as u32
    ||| '{' as u32 <= c as u32 && c as u32 <= '~' as u32
}

/// A character that may stand in the body of a URL: anything but whitespace
/// and the four bracket characters.
pub open spec fn is_body_char(c: char) -> bool {
    !is_space_char(c) && c != '(' && c != ')' && c != '<' && c != '>'
}

/// A character on which a URL may end: a non-punctuation, non-whitespace
/// character, or a slash. A URL followed by stray sentence punctuation thus
/// ends before that punctuation.
pub open spec fn is_end_char(c: char) -> bool {
    (!is_punct_char(c) && !is_space_char(c)) || c == '/'
}

pub fn space_char(c: char) -> (r: bool)
    ensures
        r == is_space_char(c),
{
    c == ' ' || c == '\t' || c == '\n' || c == '\u{b}' || c == '\u{c}' || c == '\r'
}

pub fn word_char(c: char) -> (r: bool)
    ensures
        r == is_word_char(c),
{
    let u = c as u32;
    ('a' as u32 <= u && u <= 'z' as u32) || ('A' as u32 <= u && u <= 'Z' as u32) || ('0' as u32
        <= u && u <= '9' as u32) || c == '_'
}

pub fn digit_char(c: char) -> (r: bool)
    ensures
        r == is_digit_char(c),
{
    let u = c as u32;
    '0' as u32 <= u && u <= '9' as u32
}

pub fn punct_char(c: char) -> (r: bool)
    ensures
        r == is_punct_char(c),
{
    let u = c as u32;
    ('!' as u32 <= u && u <= '/' as u32) || (':' as u32 <= u && u <= '@' as u32) || ('[' as u32
        <= u && u <= '`' as u32) || ('{' as u32 <= u && u <= '~' as u32)
}

pub fn body_char(c: char) -> (r: bool)
    ensures
        r == is_body_char(c),
{
    !space_char(c) && c != '(' && c != ')' && c != '<' && c != '>'
}

pub fn end_char(c: char) -> (r: bool)
    ensures
        r == is_end_char(c),
{
    (!punct_char(c) && !space_char(c)) || c == '/'
}

/// The characters of `s`, one per element, in order.
pub fn chars_of(s: &str) -> (v: Vec<char>)
    ensures
        v@ == s@,
{
    let n = s.unicode_len();
    let mut v: Vec<char> = Vec::new();
    let mut i: usize = 0;
    while i < n
        invariant
            i <= n,
            n == s@.len(),
            v@ == s@.subrange(0, i as int),
        decreases n - i,
    {
        v.push(s.get_char(i));
        i = i + 1;
        proof {
            assert(v@ =~= s@.subrange(0, i as int));
        }
    }
    proof {
        assert(v@ =~= s@);
    }
    v
}

/// `pat` stands in `s` at position `i`.
pub open spec fn occurs_at(s: Seq<char>, pat: Seq<char>, i: int) -> bool {
    0 <= i && i + pat.len() <= s.len() && s.subrange(i, i + pat.len() as int) == pat
}

/// Decides `occurs_at` for the characters of `pat` at position `i` of `chars`.
pub fn has_prefix_at(chars: &Vec<char>, i: usize, pat: &str) -> (r: bool)
    requires
        i <= chars@.len(),
    ensures
        r == occurs_at(chars@, pat@, i as int),
{
    let pl = pat.unicode_len();
    let n = chars.len();
    if n - i < pl {
        return false;
    }
    let mut j: usize = 0;
    while j < pl
        invariant
            j <= pl,
            pl == pat@.len(),
            n == chars@.len(),
            i + pl <= n,
            forall|t: int| 0 <= t < j ==> chars@[i + t] == pat@[t],
        decreases pl - j,
    {
        if chars[i + j] != pat.get_char(j) {
            proof {
                assert(chars@.subrange(i as int, i + pat@.len() as int)[j as int] == chars@[i + j]);
            }
            return false;
        }
        j = j + 1;
    }
    proof {
        assert(chars@.subrange(i as int, i + pat@.len() as int) =~= pat@);
    }
    true
}

/// The length of the run of body characters starting at `j`.
pub open spec fn body_run(s: Seq<char>, j: int) -> int
    decreases s.len() - j,
    when 0 <= j <= s.len()
{
    if j < s.len() && is_body_char(s[j]) {
        1 + body_run(s, j + 1)
    } else {
        0
    }
}

/// The length of the run of word characters starting at `j`.
pub open spec fn word_run(s: Seq<char>, j: int) -> int
    decreases s.len() - j,
    when 0 <= j <= s.len()
{
    if j < s.len() && is_word_char(s[j]) {
        1 + word_run(s, j + 1)
    } else {
        0
    }
}

/// The length of the run of non-slash characters starting at `j`.
pub open spec fn nonslash_run(s: Seq<char>, j: int) -> int
    decreases s.len() - j,
    when 0 <= j <= s.len()
{
    if j < s.len() && s[j] != '/' {
        1 + nonslash_run(s, j + 1)
    } else {
        0
    }
}

/// What a body run is: body characters up to the run's end, and the run ends
/// only at the end of the text or at a non-body character.
pub proof fn lemma_body_run(s: Seq<char>, j: int)
    requires
        0 <= j <= s.len(),
    ensures
        0 <= body_run(s, j),
        j + body_run(s, j) <= s.len(),
        forall|t: int| j <= t < j + body_run(s, j) ==> is_body_char(s[t]),
        j + body_run(s, j) < s.len() ==> !is_body_char(s[j + body_run(s, j)]),
    decreases s.len() - j,
{
    if j < s.len() && is_body_char(s[j]) {
        lemma_body_run(s, j + 1);
    }
}

/// A stretch of body characters bounded by the text's end or a non-body
/// character is exactly the body run.
pub proof fn lemma_body_run_exact(s: Seq<char>, j: int, e: int)
    requires
        0 <= j <= e <= s.len(),
        forall|t: int| j <= t < e ==> is_body_char(s[t]),
        e < s.len() ==> !is_body_char(s[e]),
    ensures
        body_run(s, j) == e - j,
    decreases e - j,
{
    if j < e {
        lemma_body_run_exact(s, j + 1, e);
    }
}

/// As `lemma_body_run`, for word runs.
pub proof fn lemma_word_run(s: Seq<char>, j: int)
    requires
        0 <= j <= s.len(),
    ensures
        0 <= word_run(s, j),
        j + word_run(s, j) <= s.len(),
        forall|t: int| j <= t < j + word_run(s, j) ==> is_word_char(s[t]),
        j + word_run(s, j) < s.len() ==> !is_word_char(s[j + word_run(s, j)]),
    decreases s.len() - j,
{
    if j < s.len() && is_word_char(s[j]) {
        lemma_word_run(s, j + 1);
    }
}

/// As `lemma_body_run_exact`, for word runs.
pub proof fn lemma_word_run_exact(s: Seq<char>, j: int, e: int)
    requires
        0 <= j <= e <= s.len(),
        forall|t: int| j <= t < e ==> is_word_char(s[t]),
        e < s.len() ==> !is_word_char(s[e]),
    ensures
        word_run(s, j) == e - j,
    decreases e - j,
{
    if j < e {
        lemma_word_run_exact(s, j + 1, e);
    }
}

/// Computes `body_run`.
pub fn scan_body_run(chars: &Vec<char>, j: usize) -> (k: usize)
    requires
        j <= chars@.len(),
    ensures
        k == body_run(chars@, j as int),
        j + k <= chars@.len(),
{
    let n = chars.len();
    let mut e: usize = j;
    while e < n && body_char(chars[e])
        invariant
            j <= e <= n,
            n == chars@.len(),
            forall|t: int| j <= t < e ==> is_body_char(chars@[t]),
        decreases n - e,
    {
        e = e + 1;
    }
    proof {
        lemma_body_run_exact(chars@, j as int, e as int);
    }
    e - j
}

/// Computes `word_run`.
pub fn scan_word_run(chars: &Vec<char>, j: usize) -> (k: usize)
    requires
        j <= chars@.len(),
    ensures
        k == word_run(chars@, j as int),
        j + k <= chars@.len(),
{
    let n = chars.len();
    let mut e: usize = j;
    while e < n && word_char(chars[e])
        invariant
            j <= e <= n,
            n == chars@.len(),
            forall|t: int| j <= t < e ==> is_word_char(chars@[t]),
        decreases n - e,
    {
        e = e + 1;
    }
    proof {
        lemma_word_run_exact(chars@, j as int, e as int);
    }
    e - j
}

/// Computes `nonslash_run`.
pub fn scan_nonslash_run(chars: &Vec<char>, j: usize) -> (k: usize)
    requires
        j <= chars@.len(),
    ensures
        k == nonslash_run(chars@, j as int),
        j + k <= chars@.len(),
{
    let n = chars.len();
    let mut e: usize = j;
    while e < n && chars[e] != '/'
        invariant
            j <= e <= n,
            n == chars@.len(),
            forall|t: int| j <= t < e ==> chars@[t] != '/',
        decreases n - e,
    {
        e = e + 1;
    }
    proof {
        lemma_nonslash_run_exact(chars@, j as int, e as int);
    }
    e - j
}

/// As `lemma_body_run_exact`, for non-slash runs.
pub proof fn lemma_nonslash_run_exact(s: Seq<char>, j: int, e: int)
    requires
        0 <= j <= e <= s.len(),
        forall|t: int| j <= t < e ==> s[t] != '/',
        e < s.len() ==> s[e] == '/',
    ensures
        nonslash_run(s, j) == e - j,
    decreases e - j,
{
    if j < e {
        lemma_nonslash_run_exact(s, j + 1, e);
    }
}

} // verus!
