use linkrelay::matcher::{extract_urls, is_long_url, is_short_url};

#[test]
fn short_url_accepted() {
    assert!(is_short_url("https://vm.tiktok.com/abc123"));
}

#[test]
fn long_url_is_not_short() {
    assert!(!is_short_url("https://www.tiktok.com/@user/video/123"));
}

#[test]
fn short_host_alone_is_not_short() {
    assert!(!is_short_url("https://vm.tiktok.com/"));
}

#[test]
fn long_url_accepted() {
    assert!(is_long_url(
        "https://www.tiktok.com/@someuser/video/7123456789012345678"
    ));
}

#[test]
fn clip_path_is_not_long() {
    assert!(!is_long_url(
        "https://www.tiktok.com/@someuser/clip/7123456789012345678"
    ));
}

#[test]
fn long_url_allows_trailing_content() {
    assert!(is_long_url(
        "https://www.tiktok.com/@someuser/video/42?is_copy=1"
    ));
}

#[test]
fn long_url_needs_user_name() {
    assert!(!is_long_url("https://www.tiktok.com/@/video/42"));
}

#[test]
fn long_url_needs_a_digit() {
    assert!(!is_long_url("https://www.tiktok.com/@someuser/video/"));
}

#[test]
fn short_url_is_not_long() {
    assert!(!is_long_url("https://vm.tiktok.com/abc123"));
}

#[test]
fn extract_finds_urls_in_order() {
    let urls = extract_urls(
        "check this out https://www.tiktok.com/@u/video/42 and also https://example.com",
    );
    assert_eq!(
        urls,
        vec![
            "https://www.tiktok.com/@u/video/42".to_string(),
            "https://example.com".to_string(),
        ]
    );
}

#[test]
fn extract_on_plain_text_is_empty() {
    assert!(extract_urls("no links here, just words.").is_empty());
}

#[test]
fn extract_on_empty_text_is_empty() {
    assert!(extract_urls("").is_empty());
}

#[test]
fn extract_drops_trailing_period() {
    let urls = extract_urls("see https://example.com/foo.");
    assert_eq!(urls, vec!["https://example.com/foo".to_string()]);
}

#[test]
fn extract_keeps_parenthesized_segment() {
    let urls = extract_urls("read https://en.wikipedia.org/wiki/Rust_(disambiguation) now");
    assert_eq!(
        urls,
        vec!["https://en.wikipedia.org/wiki/Rust_(disambiguation)".to_string()]
    );
}

#[test]
fn extract_keeps_duplicates() {
    let urls = extract_urls("https://a.bc https://a.bc");
    assert_eq!(
        urls,
        vec!["https://a.bc".to_string(), "https://a.bc".to_string()]
    );
}

#[test]
fn extract_needs_word_boundary() {
    assert!(extract_urls("xhttps://example.com").is_empty());
}

#[test]
fn extract_handles_plain_http() {
    let urls = extract_urls("old link: http://example.com/a");
    assert_eq!(urls, vec!["http://example.com/a".to_string()]);
}

#[test]
fn extracted_urls_rematch_themselves() {
    let text = "one https://www.tiktok.com/@u/video/42, two https://example.com/foo. \
                three https://en.wikipedia.org/wiki/Rust_(disambiguation) done";
    let urls = extract_urls(text);
    assert_eq!(urls.len(), 3);
    for url in &urls {
        assert_eq!(extract_urls(url), vec![url.clone()]);
    }
}
