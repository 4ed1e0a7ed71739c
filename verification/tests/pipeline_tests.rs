use linkrelay::pipeline::{candidate_reply, message_candidates, message_replies};
use linkrelay::resolve::{long_url_from_probe, ProbeOutcome};

fn probe(final_url: &str, location: Option<&str>) -> ProbeOutcome {
    ProbeOutcome {
        final_url: final_url.to_string(),
        location: location.map(|l| l.to_string()),
    }
}

#[test]
fn automated_author_yields_no_candidates() {
    let urls = message_candidates(true, "https://www.tiktok.com/@u/video/42");
    assert!(urls.is_empty());
}

#[test]
fn automated_author_yields_no_replies() {
    let replies = message_replies(true, "https://www.tiktok.com/@u/video/42", &Vec::new());
    assert!(replies.is_empty());
}

#[test]
fn long_and_unrelated_urls_yield_exactly_one_reply() {
    let text = "check this out https://www.tiktok.com/@u/video/42 and also https://example.com";
    let candidates = message_candidates(false, text);
    assert_eq!(candidates.len(), 2);
    let probes: Vec<Option<ProbeOutcome>> = vec![None, None];
    let replies = message_replies(false, text, &probes);
    assert_eq!(replies, vec!["https://www.vxtiktok.com/@u/video/42".to_string()]);
}

#[test]
fn failed_probe_yields_no_reply_but_spares_the_rest() {
    let text = "https://vm.tiktok.com/abc123 and https://www.tiktok.com/@u/video/7";
    let candidates = message_candidates(false, text);
    assert_eq!(candidates.len(), 2);
    // the short-form candidate's probe failed: no outcome for it
    let probes: Vec<Option<ProbeOutcome>> = vec![None, None];
    let replies = message_replies(false, text, &probes);
    assert_eq!(replies, vec!["https://www.vxtiktok.com/@u/video/7".to_string()]);
}

#[test]
fn successful_probe_yields_the_rewritten_destination() {
    let text = "https://vm.tiktok.com/abc123";
    let probes = vec![Some(probe("https://www.tiktok.com/@who/video/99", None))];
    let replies = message_replies(false, text, &probes);
    assert_eq!(replies, vec!["https://www.vxtiktok.com/@who/video/99".to_string()]);
}

#[test]
fn resolver_uses_final_url_when_long() {
    let r = long_url_from_probe(
        "https://vm.tiktok.com/abc",
        Some(&probe("https://www.tiktok.com/@a/video/1", None)),
    );
    assert_eq!(r, Some("https://www.vxtiktok.com/@a/video/1".to_string()));
}

#[test]
fn resolver_falls_back_to_location_header() {
    let r = long_url_from_probe(
        "https://vm.tiktok.com/abc",
        Some(&probe(
            "https://vm.tiktok.com/abc",
            Some("https://www.tiktok.com/@a/video/1"),
        )),
    );
    assert_eq!(r, Some("https://www.vxtiktok.com/@a/video/1".to_string()));
}

#[test]
fn resolver_rejects_unqualified_destination() {
    let r = long_url_from_probe(
        "https://vm.tiktok.com/abc",
        Some(&probe("https://example.com", Some("https://example.org"))),
    );
    assert_eq!(r, None);
}

#[test]
fn resolver_rejects_missing_location_when_final_is_not_long() {
    let r = long_url_from_probe(
        "https://vm.tiktok.com/abc",
        Some(&probe("https://example.com", None)),
    );
    assert_eq!(r, None);
}

#[test]
fn resolver_yields_nothing_on_failed_probe() {
    assert_eq!(long_url_from_probe("https://vm.tiktok.com/abc", None), None);
}

#[test]
fn resolver_ignores_urls_that_are_not_short() {
    let r = long_url_from_probe(
        "https://www.tiktok.com/@a/video/1",
        Some(&probe("https://www.tiktok.com/@a/video/1", None)),
    );
    assert_eq!(r, None);
}

#[test]
fn unrelated_candidate_yields_no_reply() {
    assert_eq!(candidate_reply("https://example.com", None), None);
}

#[test]
fn long_candidate_replies_without_a_probe() {
    assert_eq!(
        candidate_reply("https://www.tiktok.com/@a/video/1", None),
        Some("https://www.vxtiktok.com/@a/video/1".to_string())
    );
}
