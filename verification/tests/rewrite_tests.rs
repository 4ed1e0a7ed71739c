use linkrelay::rewrite::replace_long_url;

#[test]
fn rewrite_replaces_canonical_host() {
    assert_eq!(
        replace_long_url("https://www.tiktok.com/@u/video/123"),
        "https://www.vxtiktok.com/@u/video/123"
    );
}

#[test]
fn rewrite_of_own_output_is_a_no_op() {
    let once = replace_long_url("https://www.tiktok.com/@u/video/123");
    assert_eq!(replace_long_url(&once), once);
}

#[test]
fn rewrite_without_host_is_a_no_op() {
    assert_eq!(
        replace_long_url("https://example.com/watch?v=1"),
        "https://example.com/watch?v=1"
    );
}

#[test]
fn rewrite_touches_only_the_first_occurrence() {
    assert_eq!(
        replace_long_url("see https://www.tiktok.com/@a/video/1"),
        "see https://www.vxtiktok.com/@a/video/1"
    );
}

#[test]
fn rewrite_keeps_query_and_path() {
    assert_eq!(
        replace_long_url("https://www.tiktok.com/@a/video/1?is_copy=1&x=2"),
        "https://www.vxtiktok.com/@a/video/1?is_copy=1&x=2"
    );
}
