//! The URL rewriter: replaces the first occurrence of the canonical host with
//! the embeddable host and leaves everything else untouched. A string without
//! the canonical host is returned unchanged — a no-op, not an error.

use vstd::prelude::*;

use crate::matcher::{long_prefix, spec_is_long};
use crate::scan::{chars_of, has_prefix_at, occurs_at};

verus! {

/// The canonical web host, as it stands inside a long-form URL.
pub open spec fn canon_host() -> Seq<char> {
    "https://www.tiktok.com"@
}

/// The embeddable host that replaces the canonical one.
pub open spec fn embed_host() -> Seq<char> {
    "https://www.vxtiktok.com"@
}

/// The first position at or after `i` where `pat` stands in `s`, if any.
pub open spec fn first_occ_from(s: Seq<char>, pat: Seq<char>, i: int) -> Option<int>
    decreases s.len() - i,
    when 0 <= i <= s.len()
{
    if pat.len() == 0 {
        Some(i)
    } else if i + pat.len() > s.len() {
        None
    } else if occurs_at(s, pat, i) {
        Some(i)
    } else {
        first_occ_from(s, pat, i + 1)
    }
}

/// `s` with its first occurrence of the canonical host replaced by the
/// embeddable host; `s` itself when the canonical host does not occur.
pub open spec fn spec_rewrite(s: Seq<char>) -> Seq<char> {
    match first_occ_from(s, canon_host(), 0) {
        Some(p) => s.subrange(0, p) + embed_host() + s.subrange(
            p + canon_host().len() as int,
            s.len() as int,
        ),
        None => s,
    }
}

/// What a found first occurrence means: the pattern stands there and nowhere
/// earlier.
pub proof fn lemma_first_occ(s: Seq<char>, pat: Seq<char>, i: int)
    requires
        0 <= i <= s.len(),
        pat.len() >= 1,
    ensures
        first_occ_from(s, pat, i) matches Some(p) ==> i <= p && occurs_at(s, pat, p) && (forall|
            q: int,
        |
            i <= q < p ==> !occurs_at(s, pat, q)),
        first_occ_from(s, pat, i) is None ==> forall|q: int| i <= q ==> !occurs_at(s, pat, q),
    decreases s.len() - i,
{
    if i + pat.len() > s.len() {
        assert forall|q: int| i <= q implies !occurs_at(s, pat, q) by {}
    } else if occurs_at(s, pat, i) {
    } else {
        lemma_first_occ(s, pat, i + 1);
    }
}

/// A text with no occurrence at or after `i` has no first occurrence.
pub proof fn lemma_no_occ(s: Seq<char>, pat: Seq<char>, i: int)
    requires
        0 <= i <= s.len(),
        pat.len() >= 1,
        forall|q: int| i <= q ==> !occurs_at(s, pat, q),
    ensures
        first_occ_from(s, pat, i) is None,
    decreases s.len() - i,
{
    if i + pat.len() > s.len() {
    } else {
        lemma_no_occ(s, pat, i + 1);
    }
}

/// Finds the first occurrence of the canonical host in `chars`.
fn find_canon_host(chars: &Vec<char>) -> (r: Option<usize>)
    ensures
        match r {
            Some(p) => first_occ_from(chars@, canon_host(), 0) == Some(p as int),
            None => first_occ_from(chars@, canon_host(), 0) is None,
        },
{
    proof {
        reveal_strlit("https://www.tiktok.com");
    }
    let n = chars.len();
    if n < 22 {
        return None;
    }
    let mut i: usize = 0;
    while i <= n - 22
        invariant
            22 <= n,
            i <= n - 21,
            n == chars@.len(),
            canon_host().len() == 22,
            first_occ_from(chars@, canon_host(), 0) == first_occ_from(chars@, canon_host(), i as int),
        decreases n - i,
    {
        if has_prefix_at(chars, i, "https://www.tiktok.com") {
            return Some(i);
        }
        i = i + 1;
    }
    None
}

/// Replaces the first occurrence of the canonical host in `url` with the
/// embeddable host; returns `url` unchanged when the host does not occur.
pub fn replace_long_url(url: &str) -> (r: String)
    ensures
        r@ == spec_rewrite(url@),
{
    let chars = chars_of(url);
    match find_canon_host(&chars) {
        Some(p) => {
            proof {
                reveal_strlit("https://www.tiktok.com");
                lemma_first_occ(url@, canon_host(), 0);
            }
            let n = url.unicode_len();
            let mut out = url.substring_char(0, p).to_owned();
            out.append("https://www.vxtiktok.com");
            out.append(url.substring_char(p + 22, n));
            proof {
                assert(out@ =~= spec_rewrite(url@));
            }
            out
        },
        None => url.to_owned(),
    }
}

/// Re-applying the rewrite to its own output is a no-op: when the canonical
/// host stands at most once in `s` (in particular, in any URL that contains
/// it only as its host), it no longer occurs after rewriting, so the second
/// application returns its input unchanged.
pub proof fn lemma_rewrite_twice(s: Seq<char>)
    requires
        forall|i: int, j: int|
            occurs_at(s, canon_host(), i) && occurs_at(s, canon_host(), j) ==> i == j,
    ensures
        spec_rewrite(spec_rewrite(s)) == spec_rewrite(s),
{
    reveal_strlit("https://www.tiktok.com");
    reveal_strlit("https://www.vxtiktok.com");
    let pat = canon_host();
    let rep = embed_host();
    assert(pat.len() == 22);
    assert(rep.len() == 24);
    lemma_first_occ(s, pat, 0);
    match first_occ_from(s, pat, 0) {
        None => {},
        Some(p) => {
            let t = s.subrange(0, p) + rep + s.subrange(p + 22, s.len() as int);
            assert(spec_rewrite(s) == t);
            assert(t.len() == s.len() + 2);
            assert(occurs_at(s, pat, p));
            assert forall|q: int| !occurs_at(t, pat, q) by {
                if occurs_at(t, pat, q) {
                    assert forall|x: int| 0 <= x < 22 implies t[q + x] == pat[x] by {
                        assert(t.subrange(q, q + 22)[x] == t[q + x]);
                    }
                    if q + 22 <= p {
                        assert(s.subrange(q, q + 22) =~= t.subrange(q, q + 22));
                        assert(occurs_at(s, pat, q));
                        assert(false);
                    } else if q >= p + 24 {
                        assert(s.subrange(q - 2, q + 20) =~= t.subrange(q, q + 22));
                        assert(occurs_at(s, pat, q - 2));
                        assert(false);
                    } else if q <= p {
                        // the replacement's first character lies inside this
                        // occurrence, and 'h' stands in the host only at its start
                        assert(t[p] == rep[0]);
                        assert(t[q + (p - q)] == pat[p - q]);
                        if p - q != 0 {
                            assert(pat[p - q] != 'h');
                            assert(false);
                        }
                        // same start: the two hosts differ at offset 12
                        assert(t[q + 12] == pat[12]);
                        assert(t[p + 12] == rep[12]);
                        assert(false);
                    } else {
                        // the occurrence starts inside the replacement, but 'h'
                        // stands in the replacement only at its start
                        assert(t[q] == rep[q - p]);
                        assert(t[q + 0] == pat[0]);
                        assert(1 <= q - p < 24);
                        assert(rep[q - p] != 'h');
                        assert(false);
                    }
                }
            }
            lemma_no_occ(t, pat, 0);
            assert(spec_rewrite(t) == t);
        },
    }
}

/// Rewriting a long-form URL replaces exactly its leading canonical host: the
/// result is the embeddable host followed by the original path and query.
pub proof fn lemma_rewrite_of_long(s: Seq<char>)
    requires
        spec_is_long(s),
    ensures
        spec_rewrite(s) == embed_host() + s.skip(canon_host().len() as int),
{
    reveal_strlit("https://www.tiktok.com");
    reveal_strlit("https://www.tiktok.com/@");
    assert(s.subrange(0, 24) == long_prefix());
    assert(long_prefix().subrange(0, 22) =~= canon_host());
    assert(s.subrange(0, 22) =~= s.subrange(0, 24).subrange(0, 22));
    assert(occurs_at(s, canon_host(), 0));
    assert(first_occ_from(s, canon_host(), 0) == Some(0int));
    assert(spec_rewrite(s) =~= embed_host() + s.skip(22));
}

} // verus!
