//! The per-message pipeline, as pure decisions.
//!
//! A message is processed in three steps: messages from automated authors are
//! dropped whole; the remaining text yields its URL candidates in order; and
//! each candidate independently yields at most one reply — a short-form
//! candidate through the resolver's probe outcome, a long-form candidate by a
//! synchronous rewrite, an unrelated candidate never. Candidates are
//! independent by construction: one candidate's failed probe cannot affect
//! another's reply. The bounded-concurrency driver that interleaves the
//! probes lives in [`crate::pool`]; sending the replies is I/O and lives
//! outside the library.

use vstd::prelude::*;

use crate::matcher::{
    extract_urls, is_long_url, is_short_url, lemma_short_long_disjoint, spec_extract_urls,
    spec_is_long, spec_is_short,
};
use crate::resolve::{long_url_from_probe, spec_resolution, ProbeData, ProbeOutcome};
use crate::rewrite::{replace_long_url, spec_rewrite};

verus! {

/// The reply one candidate yields: a short-form candidate resolves through
/// its probe outcome, a long-form candidate rewrites directly, an unrelated
/// candidate yields nothing.
pub open spec fn spec_candidate_reply(url: Seq<char>, probe: Option<ProbeData>) -> Option<
    Seq<char>,
> {
    if spec_is_short(url) {
        spec_resolution(url, probe)
    } else if spec_is_long(url) {
        Some(spec_rewrite(url))
    } else {
        None
    }
}

/// Decides `spec_candidate_reply`.
pub fn candidate_reply(url: &str, probe: Option<&ProbeOutcome>) -> (r: Option<String>)
    ensures
        r.deep_view() == spec_candidate_reply(url@, probe.deep_view()),
{
    if is_short_url(url) {
        long_url_from_probe(url, probe)
    } else if is_long_url(url) {
        Some(replace_long_url(url))
    } else {
        None
    }
}

/// The URL candidates of one inbound message: none at all from an automated
/// author, else every URL-shaped substring of the text in order.
pub fn message_candidates(author_is_automated: bool, text: &str) -> (urls: Vec<String>)
    ensures
        author_is_automated ==> urls@.len() == 0,
        !author_is_automated ==> urls.deep_view() == spec_extract_urls(text@),
{
    if author_is_automated {
        Vec::new()
    } else {
        extract_urls(text)
    }
}

/// The replies of the candidates from position `i` on, each candidate paired
/// with its own probe outcome, in candidate order.
pub open spec fn spec_replies_from(
    cands: Seq<Seq<char>>,
    probes: Seq<Option<ProbeData>>,
    i: int,
) -> Seq<Seq<char>>
    decreases cands.len() - i,
    when 0 <= i <= cands.len()
{
    if i >= cands.len() {
        Seq::empty()
    } else {
        match spec_candidate_reply(cands[i], probes[i]) {
            Some(r) => seq![r] + spec_replies_from(cands, probes, i + 1),
            None => spec_replies_from(cands, probes, i + 1),
        }
    }
}

/// Every reply one message yields: none from an automated author, else one
/// reply per candidate that resolves or rewrites.
pub open spec fn spec_message_replies(
    author_is_automated: bool,
    text: Seq<char>,
    probes: Seq<Option<ProbeData>>,
) -> Seq<Seq<char>> {
    if author_is_automated {
        Seq::empty()
    } else {
        spec_replies_from(spec_extract_urls(text), probes, 0)
    }
}

/// Computes every reply of one message, given each candidate's probe outcome
/// (the outcome of a candidate that needed no probe is ignored).
pub fn message_replies(author_is_automated: bool, text: &str, probes: &Vec<Option<ProbeOutcome>>)
    -> (replies: Vec<String>)
    requires
        !author_is_automated ==> probes.deep_view().len() == spec_extract_urls(text@).len(),
    ensures
        replies.deep_view() == spec_message_replies(author_is_automated, text@, probes.deep_view()),
        author_is_automated ==> replies@.len() == 0,
{
    let urls = message_candidates(author_is_automated, text);
    let mut replies: Vec<String> = Vec::new();
    if author_is_automated {
        return replies;
    }
    let ghost cands = spec_extract_urls(text@);
    let ghost pdata = probes.deep_view();
    let n = urls.len();
    let mut i: usize = 0;
    while i < n
        invariant
            i <= n,
            n == cands.len(),
            urls.deep_view() == cands,
            probes.deep_view() == pdata,
            probes@.len() == pdata.len(),
            pdata.len() == cands.len(),
            replies.deep_view() + spec_replies_from(cands, pdata, i as int) =~= spec_replies_from(
                cands,
                pdata,
                0,
            ),
        decreases n - i,
    {
        let ghost prev = replies.deep_view();
        assert(urls@[i as int]@ == cands[i as int]);
        assert(probes@[i as int].deep_view() == pdata[i as int]);
        let r = candidate_reply(urls[i].as_str(), probes[i].as_ref());
        match r {
            Some(rep) => {
                proof {
                    assert(spec_candidate_reply(cands[i as int], pdata[i as int]) == Some(rep@));
                }
                replies.push(rep);
                proof {
                    assert(replies.deep_view() =~= prev + seq![rep@]);
                }
            },
            None => {},
        }
        i = i + 1;
    }
    proof {
        assert(replies.deep_view() =~= spec_message_replies(false, text@, pdata));
    }
    replies
}

/// How many of the candidates from position `i` on yield a reply.
pub open spec fn count_resolving(
    cands: Seq<Seq<char>>,
    probes: Seq<Option<ProbeData>>,
    i: int,
) -> int
    decreases cands.len() - i,
    when 0 <= i <= cands.len()
{
    if i >= cands.len() {
        0
    } else {
        (if spec_candidate_reply(cands[i], probes[i]) is Some {
            1int
        } else {
            0int
        }) + count_resolving(cands, probes, i + 1)
    }
}

/// The pipeline emits exactly one reply per candidate that resolves or
/// rewrites, and none for any other candidate.
pub proof fn lemma_one_reply_per_resolving_candidate(
    cands: Seq<Seq<char>>,
    probes: Seq<Option<ProbeData>>,
    i: int,
)
    requires
        0 <= i <= cands.len(),
    ensures
        spec_replies_from(cands, probes, i).len() == count_resolving(cands, probes, i),
    decreases cands.len() - i,
{
    if i < cands.len() {
        lemma_one_reply_per_resolving_candidate(cands, probes, i + 1);
    }
}

/// An automated author's message yields no replies, whatever its text and
/// whatever the probes would report.
pub proof fn lemma_automated_author_silent(text: Seq<char>, probes: Seq<Option<ProbeData>>)
    ensures
        spec_message_replies(true, text, probes) == Seq::<Seq<char>>::empty(),
{
}

/// A candidate that is neither short-form nor long-form never yields a reply,
/// whatever the probe reported.
pub proof fn lemma_unrelated_candidate_silent(url: Seq<char>, probe: Option<ProbeData>)
    requires
        !spec_is_short(url),
        !spec_is_long(url),
    ensures
        spec_candidate_reply(url, probe) is None,
{
}

/// A long-form candidate always yields its rewritten form, independently of
/// any probe — in particular, other candidates' failed probes cannot touch it.
pub proof fn lemma_long_candidate_replies(url: Seq<char>, probe: Option<ProbeData>)
    requires
        spec_is_long(url),
    ensures
        spec_candidate_reply(url, probe) == Some(spec_rewrite(url)),
{
    lemma_short_long_disjoint(url);
}

/// A short-form candidate whose probe failed yields no reply.
pub proof fn lemma_failed_probe_silent(url: Seq<char>)
    requires
        spec_is_short(url),
    ensures
        spec_candidate_reply(url, None) is None,
{
}

/// Every reply the pipeline can emit is a long-form URL with its canonical
/// host replaced by the embeddable host; its path and query are the resolved
/// URL's own.
pub proof fn lemma_reply_shape(url: Seq<char>, probe: Option<ProbeData>)
    ensures
        spec_candidate_reply(url, probe) matches Some(r) ==> exists|l: Seq<char>|
            #[trigger] spec_is_long(l) && r == crate::rewrite::embed_host() + l.skip(
                crate::rewrite::canon_host().len() as int,
            ),
{
    if spec_candidate_reply(url, probe) is Some {
        if spec_is_short(url) {
            let p = probe->Some_0;
            if spec_is_long(p.final_url) {
                crate::rewrite::lemma_rewrite_of_long(p.final_url);
                assert(spec_is_long(p.final_url));
            } else {
                let loc = p.location->Some_0;
                crate::rewrite::lemma_rewrite_of_long(loc);
                assert(spec_is_long(loc));
            }
        } else {
            crate::rewrite::lemma_rewrite_of_long(url);
            assert(spec_is_long(url));
        }
    }
}

} // verus!
