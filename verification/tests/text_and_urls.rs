use fastsearch::parser::clean_content;
use fastsearch::text::{chars_of, lines_chars, split_chars, trim_str, words_chars};
use fastsearch::utils::{
    extract_domain, is_valid_url, normalize_url_for_comparison, RateLimiter, VisitedTracker,
};

fn strs(v: Vec<Vec<char>>) -> Vec<String> {
    v.into_iter().map(|c| c.into_iter().collect()).collect()
}

#[test]
fn trim_removes_unicode_whitespace() {
    assert_eq!(trim_str("\u{3000} \t hello world \r\n"), "hello world");
    assert_eq!(trim_str("   "), "");
}

#[test]
fn lines_strip_line_endings() {
    let text = chars_of("one\r\ntwo\n\nthree\r");
    assert_eq!(strs(lines_chars(&text)), vec!["one", "two", "", "three\r"]);
    assert!(lines_chars(&chars_of("")).is_empty());
    assert_eq!(strs(lines_chars(&chars_of("a\n"))), vec!["a"]);
}

#[test]
fn split_keeps_empty_pieces() {
    assert_eq!(strs(split_chars(&chars_of("a,,b,"), ',')), vec!["a", "", "b", ""]);
}

#[test]
fn words_are_runs_without_whitespace() {
    assert_eq!(strs(words_chars(&chars_of("  the\tquick\u{a0}brown  "))), vec!["the", "quick", "brown"]);
}

#[test]
fn clean_content_collapses_and_trims() {
    assert_eq!(clean_content("  a \t\n b  "), "a b");
    assert_eq!(clean_content("a\u{00A0}\u{2003}b"), "a b");
    assert_eq!(clean_content(""), "");
}

#[test]
fn extract_domain_reads_the_host() {
    assert_eq!(extract_domain("https://Example.COM/a?b#c"), Some("example.com".to_string()));
    assert_eq!(extract_domain("http://sub.site.org:8080/"), Some("sub.site.org".to_string()));
    assert_eq!(extract_domain("not a url"), None);
    assert_eq!(extract_domain("mailto:someone@example.com"), None);
}

#[test]
fn valid_urls_are_http_or_https() {
    assert!(is_valid_url("http://example.com"));
    assert!(is_valid_url("https://example.com/x"));
    assert!(!is_valid_url("ftp://example.com"));
    assert!(!is_valid_url("example.com"));
}

#[test]
fn normalization_drops_the_fragment() {
    assert_eq!(
        normalize_url_for_comparison("https://example.com/page#section"),
        Some("https://example.com/page".to_string())
    );
    assert_eq!(
        normalize_url_for_comparison("https://example.com"),
        Some("https://example.com/".to_string())
    );
    assert_eq!(normalize_url_for_comparison("foo://host/"), Some("foo://host".to_string()));
    assert_eq!(normalize_url_for_comparison("relative/path"), None);
}

#[test]
fn visited_tracker_marks_normalized_urls_once() {
    let mut t = VisitedTracker::new();
    assert_eq!(t.visited_count(), 0);
    assert!(!t.is_visited("https://a.com/x"));
    t.mark_visited("https://a.com/x#frag");
    assert!(t.is_visited("https://a.com/x"));
    assert!(t.is_visited("https://a.com/x#other"));
    assert_eq!(t.visited_count(), 1);
    t.mark_visited("https://a.com/x");
    assert_eq!(t.visited_count(), 1);
    t.mark_visited("not a url");
    assert_eq!(t.visited_count(), 1);
    assert!(!t.is_visited("not a url"));
    t.mark_visited("https://a.com/y");
    assert_eq!(t.visited_count(), 2);
}

#[test]
fn rate_limiter_waits_for_the_rest_of_the_delay() {
    let mut r = RateLimiter::new(1000);
    assert_eq!(r.wait_time(5), 0);
    r.record_request(5);
    assert_eq!(r.wait_time(505), 500);
    assert_eq!(r.wait_time(1005), 0);
    assert_eq!(r.wait_time(2000), 0);
    assert_eq!(r.wait_time(3), 1000);
    assert_eq!(r.delay, 1000);
}

#[test]
fn requests_after_waiting_are_spaced_by_the_delay() {
    let mut r = RateLimiter::new(250);
    r.record_request(1_000);
    let now = 1_100;
    let w = r.wait_time(now);
    assert!(now + w - 1_000 >= 250);
    assert_eq!(w, 150);
}
