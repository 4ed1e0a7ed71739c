//! URL detection and classification.
//!
//! `extract_urls` finds every URL-shaped substring of a free-text message: a
//! scheme (`http://` or `https://`) starting on a word boundary, a run of body
//! characters, and a final-character rule that drops one trailing stray
//! punctuation mark but keeps a balanced parenthesized segment (so
//! `.../X_(disambiguation)` stays whole while a sentence-final period is cut).
//!
//! `is_short_url` and `is_long_url` classify one URL against the platform's
//! two known shapes: the short-link host with any non-empty remainder, and the
//! canonical host followed by `/@user/video/` and at least one digit, as a
//! prefix. The two shapes are disjoint (`lemma_short_long_disjoint`), but a
//! third class of unrelated URLs exists, so callers check both.

use vstd::prelude::*;

use crate::scan::{
    body_run, chars_of, digit_char, end_char, has_prefix_at, is_body_char, is_digit_char,
    is_end_char, is_word_char, lemma_body_run, lemma_word_run, nonslash_run, occurs_at,
    scan_body_run, scan_nonslash_run, scan_word_run, word_char, word_run,
};

verus! {

/// The short-link prefix: every short-form URL is this and a non-empty rest.
pub open spec fn short_prefix() -> Seq<char> {
    "https://vm.tiktok.com/"@
}

/// The canonical long-form prefix, up to and including the `@` of the user name.
pub open spec fn long_prefix() -> Seq<char> {
    "https://www.tiktok.com/@"@
}

/// The path segment between the user name and the video id.
pub open spec fn video_marker() -> Seq<char> {
    "/video/"@
}

/// A short-form URL: the short-link prefix followed by at least one character.
pub open spec fn spec_is_short(s: Seq<char>) -> bool {
    occurs_at(s, short_prefix(), 0) && s.len() > short_prefix().len()
}

/// A long-form URL: the canonical prefix, a non-empty slash-free user name,
/// `/video/`, and at least one decimal digit; anything may follow.
pub open spec fn spec_is_long(s: Seq<char>) -> bool {
    if occurs_at(s, long_prefix(), 0) {
        let p = long_prefix().len() as int;
        let u = nonslash_run(s, p);
        let d = p + u + video_marker().len() as int;
        u >= 1 && occurs_at(s, video_marker(), p + u) && d < s.len() && is_digit_char(s[d])
    } else {
        false
    }
}

/// Decides `spec_is_short`.
pub fn is_short_url(url: &str) -> (r: bool)
    ensures
        r == spec_is_short(url@),
{
    let chars = chars_of(url);
    let pre = has_prefix_at(&chars, 0, "https://vm.tiktok.com/");
    proof {
        reveal_strlit("https://vm.tiktok.com/");
    }
    pre && chars.len() > 22
}

/// Decides `spec_is_long`.
pub fn is_long_url(url: &str) -> (r: bool)
    ensures
        r == spec_is_long(url@),
{
    let chars = chars_of(url);
    let n = chars.len();
    if !has_prefix_at(&chars, 0, "https://www.tiktok.com/@") {
        return false;
    }
    proof {
        reveal_strlit("https://www.tiktok.com/@");
    }
    let u = scan_nonslash_run(&chars, 24);
    assert(24 + u <= n);
    if u == 0 {
        return false;
    }
    if !has_prefix_at(&chars, 24 + u, "/video/") {
        return false;
    }
    proof {
        reveal_strlit("/video/");
    }
    assert(24 + u + 7 <= n);
    let d = 24 + u + 7;
    d < n && digit_char(chars[d])
}

/// The scheme standing at `i`, if any, and its length. A longer `https://`
/// match is preferred over `http://` (only one can ever stand at a position).
pub open spec fn scheme_len_at(s: Seq<char>, i: int) -> Option<int> {
    if occurs_at(s, "https://"@, i) {
        Some("https://"@.len() as int)
    } else if occurs_at(s, "http://"@, i) {
        Some("http://"@.len() as int)
    } else {
        None
    }
}

/// The length of a balanced parenthesized word segment standing at `p`, if
/// one does: `(`, one or more word characters, `)`.
pub open spec fn paren_tail_len(s: Seq<char>, p: int) -> Option<int> {
    if 0 <= p && p < s.len() && s[p] == '(' {
        let w = word_run(s, p + 1);
        if w >= 1 && p + 1 + w < s.len() && s[p + 1 + w] == ')' {
            Some(w + 2)
        } else {
            None
        }
    } else {
        None
    }
}

/// The largest offset `e` with `1 <= e <= k` whose character `s[j + e]` may
/// end a URL, if any.
pub open spec fn last_end_offset(s: Seq<char>, j: int, k: int) -> Option<int>
    decreases k,
{
    if k < 1 {
        None
    } else if is_end_char(s[j + k]) {
        Some(k)
    } else {
        last_end_offset(s, j, k - 1)
    }
}

/// The length of the URL-shaped match standing exactly at `i`, if any: a
/// scheme, a longest run of body characters, and either a parenthesized word
/// segment right after the run, or — giving back body characters — the
/// longest prefix of the run that ends in an end character.
pub open spec fn match_len_at(s: Seq<char>, i: int) -> Option<int> {
    match scheme_len_at(s, i) {
        Some(sl) => {
            let j = i + sl;
            let k = body_run(s, j);
            if k >= 1 {
                match paren_tail_len(s, j + k) {
                    Some(t) => Some(sl + k + t),
                    None => match last_end_offset(s, j, k - 1) {
                        Some(e) => Some(sl + e + 1),
                        None => None,
                    },
                }
            } else {
                None
            }
        },
        None => None,
    }
}

/// A match may only start where no word character directly precedes it.
pub open spec fn word_boundary(s: Seq<char>, i: int) -> bool {
    i == 0 || !is_word_char(s[i - 1])
}

/// Every match found at or after `i`, scanning left to right and continuing
/// after each match's end, so matches never overlap.
pub open spec fn url_matches_from(s: Seq<char>, i: int) -> Seq<Seq<char>>
    decreases s.len() - i,
    when 0 <= i <= s.len()
    via url_matches_from_decreases
{
    if i >= s.len() {
        Seq::empty()
    } else if word_boundary(s, i) && match_len_at(s, i) is Some {
        let m = match_len_at(s, i)->Some_0;
        seq![s.subrange(i, i + m)] + url_matches_from(s, i + m)
    } else {
        url_matches_from(s, i + 1)
    }
}

/// Every URL-shaped substring of `s`, leftmost first.
pub open spec fn spec_extract_urls(s: Seq<char>) -> Seq<Seq<char>> {
    url_matches_from(s, 0)
}

/// Bounds on a match's length: it is at least the scheme plus two characters,
/// and it stays inside the text.
pub proof fn lemma_match_len(s: Seq<char>, i: int)
    requires
        0 <= i <= s.len(),
    ensures
        match_len_at(s, i) matches Some(m) ==> 9 <= m && i + m <= s.len(),
{
    reveal_strlit("https://");
    reveal_strlit("http://");
    if match_len_at(s, i) is Some {
        let sl = scheme_len_at(s, i)->Some_0;
        assert(7 <= sl <= 8);
        let j = i + sl;
        assert(i + sl <= s.len());
        let k = body_run(s, j);
        lemma_body_run(s, j);
        match paren_tail_len(s, j + k) {
            Some(t) => {},
            None => {
                lemma_last_end_offset(s, j, k - 1);
            },
        }
    }
}

/// What a found end offset means: it is in range and its character may end a
/// URL.
pub proof fn lemma_last_end_offset(s: Seq<char>, j: int, k: int)
    requires
        0 <= j,
        j + k < s.len(),
    ensures
        last_end_offset(s, j, k) matches Some(e) ==> 1 <= e <= k && is_end_char(s[j + e]),
    decreases k,
{
    if k >= 1 && !is_end_char(s[j + k]) {
        lemma_last_end_offset(s, j, k - 1);
    }
}

#[via_fn]
proof fn url_matches_from_decreases(s: Seq<char>, i: int) {
    lemma_match_len(s, i);
}

/// Decides `match_len_at`.
fn match_len(chars: &Vec<char>, i: usize) -> (r: Option<usize>)
    requires
        i <= chars@.len(),
    ensures
        match r {
            Some(m) => match_len_at(chars@, i as int) == Some(m as int) && 1 <= m && i + m
                <= chars@.len(),
            None => match_len_at(chars@, i as int) is None,
        },
{
    let n = chars.len();
    let sl: usize;
    if has_prefix_at(chars, i, "https://") {
        proof {
            reveal_strlit("https://");
        }
        sl = 8;
    } else if has_prefix_at(chars, i, "http://") {
        proof {
            reveal_strlit("http://");
        }
        sl = 7;
    } else {
        return None;
    }
    assert(scheme_len_at(chars@, i as int) == Some(sl as int));
    let j = i + sl;
    let k = scan_body_run(chars, j);
    if k == 0 {
        return None;
    }
    let p = j + k;
    if p < n && chars[p] == '(' {
        let w = scan_word_run(chars, p + 1);
        assert(p + 1 + w <= n);
        if w >= 1 && p + 1 + w < n && chars[p + 1 + w] == ')' {
            assert(paren_tail_len(chars@, p as int) == Some(w + 2 as int));
            return Some(sl + k + w + 2);
        }
    }
    assert(paren_tail_len(chars@, p as int) is None);
    let mut t = k - 1;
    while t >= 1
        invariant
            t <= k - 1,
            k >= 1,
            sl <= 8,
            j == i + sl,
            j + k <= n,
            n == chars@.len(),
            scheme_len_at(chars@, i as int) == Some(sl as int),
            body_run(chars@, j as int) == k,
            paren_tail_len(chars@, (j + k) as int) is None,
            last_end_offset(chars@, j as int, (k - 1) as int) == last_end_offset(
                chars@,
                j as int,
                t as int,
            ),
        decreases t,
    {
        if end_char(chars[j + t]) {
            return Some(sl + t + 1);
        }
        t = t - 1;
    }
    assert(last_end_offset(chars@, j as int, (k - 1) as int) is None);
    None
}

/// Finds every URL-shaped substring of `text`, leftmost first, duplicates
/// kept. A text without one yields the empty vector.
pub fn extract_urls(text: &str) -> (urls: Vec<String>)
    ensures
        urls.deep_view() == spec_extract_urls(text@),
{
    let chars = chars_of(text);
    let n = chars.len();
    let mut urls: Vec<String> = Vec::new();
    let mut i: usize = 0;
    while i < n
        invariant
            i <= n,
            n == text@.len(),
            chars@ == text@,
            urls.deep_view() + url_matches_from(text@, i as int) =~= spec_extract_urls(text@),
        decreases n - i,
    {
        let boundary = i == 0 || !word_char(chars[i - 1]);
        let step = if boundary {
            match_len(&chars, i)
        } else {
            None
        };
        match step {
            Some(m) => {
                let ghost prev = urls.deep_view();
                let piece = text.substring_char(i, i + m);
                urls.push(piece.to_owned());
                proof {
                    assert(urls.deep_view() =~= prev + seq![text@.subrange(i as int, i + m as int)]);
                }
                i = i + m;
            },
            None => {
                i = i + 1;
            },
        }
    }
    proof {
        assert(urls.deep_view() =~= spec_extract_urls(text@));
    }
    urls
}

/// A pattern stands at `i + d` of `s` exactly when it stands at `d` of the
/// window of `s` beginning at `i`, as long as it fits inside the window.
proof fn lemma_occurs_subrange(s: Seq<char>, i: int, m: int, pat: Seq<char>, d: int)
    requires
        0 <= i,
        i + m <= s.len(),
        0 <= d,
        d + pat.len() <= m,
    ensures
        occurs_at(s.subrange(i, i + m), pat, d) == occurs_at(s, pat, i + d),
{
    let t = s.subrange(i, i + m);
    assert(t.subrange(d, d + pat.len() as int) =~= s.subrange(i + d, i + d + pat.len() as int));
}

/// A match found in a larger text is a full match of the token it produced.
proof fn lemma_match_token(s: Seq<char>, i: int, m: int)
    requires
        0 <= i <= s.len(),
        match_len_at(s, i) == Some(m),
    ensures
        match_len_at(s.subrange(i, i + m), 0) == Some(m),
{
    reveal_strlit("https://");
    reveal_strlit("http://");
    lemma_match_len(s, i);
    let t = s.subrange(i, i + m);
    let sl = scheme_len_at(s, i)->Some_0;
    lemma_occurs_subrange(s, i, m, "https://"@, 0);
    lemma_occurs_subrange(s, i, m, "http://"@, 0);
    assert(scheme_len_at(t, 0) == Some(sl));
    let j = i + sl;
    let k = body_run(s, j);
    lemma_body_run(s, j);
    match paren_tail_len(s, j + k) {
        Some(pt) => {
            let w = word_run(s, j + k + 1);
            lemma_word_run(s, j + k + 1);
            assert(m == sl + k + w + 2);
            assert forall|x: int| sl <= x < sl + k implies is_body_char(t[x]) by {
                assert(t[x] == s[i + x]);
                assert(is_body_char(s[j + (x - sl)]));
            }
            assert(t[sl + k] == s[j + k]);
            crate::scan::lemma_body_run_exact(t, sl, sl + k);
            assert(body_run(t, sl) == k);
            assert forall|x: int| sl + k + 1 <= x < sl + k + 1 + w implies is_word_char(t[x]) by {
                assert(t[x] == s[i + x]);
                assert(is_word_char(s[j + k + 1 + (x - (sl + k + 1))]));
            }
            assert(t[sl + k + 1 + w] == s[j + k + 1 + w]);
            crate::scan::lemma_word_run_exact(t, sl + k + 1, sl + k + 1 + w);
            assert(paren_tail_len(t, sl + k) == Some(w + 2));
            assert(match_len_at(t, 0) == Some(sl + k + pt));
        },
        None => {
            let e = last_end_offset(s, j, k - 1)->Some_0;
            lemma_last_end_offset(s, j, k - 1);
            assert(m == sl + e + 1);
            assert forall|x: int| sl <= x < m implies is_body_char(t[x]) by {
                assert(t[x] == s[i + x]);
                assert(is_body_char(s[j + (x - sl)]));
            }
            crate::scan::lemma_body_run_exact(t, sl, m);
            assert(body_run(t, sl) == e + 1);
            assert(paren_tail_len(t, sl + (e + 1)) is None);
            assert(t[sl + e] == s[j + e]);
            assert(last_end_offset(t, sl, e) == Some(e));
            assert(match_len_at(t, 0) == Some(sl + e + 1));
        },
    }
}

proof fn lemma_tokens_rematch(s: Seq<char>, i: int, k: int)
    requires
        0 <= i <= s.len(),
        0 <= k < url_matches_from(s, i).len(),
    ensures
        url_matches_from(url_matches_from(s, i)[k], 0) == seq![url_matches_from(s, i)[k]],
    decreases s.len() - i,
{
    if i >= s.len() {
        // no matches here, so the bound on k is impossible
    } else if word_boundary(s, i) && match_len_at(s, i) is Some {
        let m = match_len_at(s, i)->Some_0;
        lemma_match_len(s, i);
        if k == 0 {
            let t = s.subrange(i, i + m);
            lemma_match_token(s, i, m);
            assert(t.len() == m);
            assert(url_matches_from(t, m as int) =~= Seq::<Seq<char>>::empty());
            assert(t.subrange(0, m) =~= t);
            assert(url_matches_from(t, 0) =~= seq![t]);
            assert(url_matches_from(s, i)[0] == t);
        } else {
            lemma_tokens_rematch(s, i + m, k - 1);
            assert(url_matches_from(s, i)[k] == url_matches_from(s, i + m)[k - 1]);
        }
    } else {
        lemma_tokens_rematch(s, i + 1, k);
    }
}

/// Detection is idempotent: each URL that `extract_urls` finds is itself a
/// full match of the URL shape, so extracting from it returns exactly it.
pub proof fn lemma_extracted_urls_rematch(s: Seq<char>, k: int)
    requires
        0 <= k < spec_extract_urls(s).len(),
    ensures
        spec_extract_urls(spec_extract_urls(s)[k]) == seq![spec_extract_urls(s)[k]],
{
    lemma_tokens_rematch(s, 0, k);
}

/// No URL is both short-form and long-form: the hosts differ.
pub proof fn lemma_short_long_disjoint(s: Seq<char>)
    ensures
        !(spec_is_short(s) && spec_is_long(s)),
{
    if spec_is_short(s) && spec_is_long(s) {
        reveal_strlit("https://vm.tiktok.com/");
        reveal_strlit("https://www.tiktok.com/@");
        assert(s.subrange(0, short_prefix().len() as int)[8] == s[8]);
        assert(s.subrange(0, long_prefix().len() as int)[8] == s[8]);
        assert(short_prefix()[8] == 'v');
        assert(long_prefix()[8] == 'w');
        assert(false);
    }
}

} // verus!
