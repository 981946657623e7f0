use fastsearch::models::{content_preview, find_meta_index, first_match, MetaTag, PageData};
use fastsearch::parser::{detect_language, extract_links, extract_main_content, first_language_name, normalize_url};
use fastsearch::ui::{decode_page_url, page_summary, search_pattern};

fn meta(name: &str, content: &str) -> MetaTag {
    MetaTag { name: name.to_string(), content: content.to_string() }
}

fn page(metas: Vec<MetaTag>, text: &str) -> PageData {
    PageData {
        url: "https://a.com/".to_string(),
        language: "en".to_string(),
        title: "T".to_string(),
        meta_tags: metas,
        canonical_url: None,
        content_text: text.to_string(),
        scraped_at: 0,
    }
}

#[test]
fn description_comes_from_the_meta_tag() {
    let p = page(vec![meta("author", "x"), meta("Description", "About it"), meta("description", "later")], "body");
    assert_eq!(p.get_description(), "About it");
}

#[test]
fn description_falls_back_to_an_excerpt() {
    assert_eq!(page(vec![], "short text").get_description(), "short text");
    let long = "a".repeat(200);
    assert_eq!(page(vec![], &long).get_description(), format!("{}...", "a".repeat(150)));
    let exact = "b".repeat(150);
    assert_eq!(page(vec![], &exact).get_description(), exact);
}

#[test]
fn excerpt_counts_bytes_for_the_ellipsis() {
    let accented = "é".repeat(100);
    assert_eq!(page(vec![], &accented).get_description(), format!("{}...", accented));
}

#[test]
fn keywords_are_split_trimmed_and_non_empty() {
    let p = page(vec![meta("KEYWORDS", " rust, verus ,, , proofs ")], "");
    assert_eq!(p.get_keywords(), vec!["rust", "verus", "proofs"]);
    assert!(page(vec![meta("description", "x")], "").get_keywords().is_empty());
}

#[test]
fn content_preview_cuts_at_200_bytes() {
    assert_eq!(content_preview("short"), "short");
    let long = "a".repeat(250);
    assert_eq!(content_preview(&long), format!("{}...", "a".repeat(200)));
    let accented = "é".repeat(150);
    assert_eq!(content_preview(&accented), format!("{}...", "é".repeat(100)));
    let exact = "c".repeat(200);
    assert_eq!(content_preview(&exact), exact);
}

#[test]
fn page_summary_shows_description_and_preview() {
    let p = page(vec![meta("description", "D")], &"z".repeat(201));
    let s = page_summary(&p);
    assert_eq!(s.url, "https://a.com/");
    assert_eq!(s.title, "T");
    assert_eq!(s.language, "en");
    assert_eq!(s.description, "D");
    assert_eq!(s.content_preview, format!("{}...", "z".repeat(200)));
    let mut q = p.clone();
    q.scraped_at = 0;
    assert_eq!(page_summary(&q).scraped_at, "1970-01-01T00:00:00+00:00");
    q.scraped_at = 1_500_000_000;
    assert_eq!(page_summary(&q).scraped_at, "1970-01-01T00:00:01.500+00:00");
}

#[test]
fn page_urls_are_percent_decoded() {
    assert_eq!(decode_page_url("https%3A%2F%2Fa.com%2Fx"), "https://a.com/x");
    assert_eq!(decode_page_url("plain"), "plain");
    assert_eq!(decode_page_url("%FF"), "%FF");
    assert_eq!(decode_page_url("a+b%2b%2Bc"), "a+b++c");
    assert_eq!(decode_page_url("100%"), "100%");
    assert_eq!(decode_page_url("%4"), "%4");
    assert_eq!(decode_page_url("%4g%%41"), "%4g%A");
    assert_eq!(decode_page_url("caf%C3%A9"), "café");
    assert_eq!(decode_page_url("%C3"), "%C3");
}

#[test]
fn search_pattern_is_a_prefix_query() {
    assert_eq!(search_pattern("rust"), "rust*");
    assert_eq!(search_pattern(""), "*");
}

#[test]
fn language_comes_from_meta_tags() {
    assert_eq!(detect_language("", &vec![meta("Content-Language", "fr"), meta("lang", "de")]), "fr");
    assert_eq!(detect_language("", &vec![meta("LANG", "es")]), "es");
    assert_eq!(detect_language("texte", &vec![meta("description", "x")]), "en");
    assert_eq!(detect_language("", &vec![]), "en");
}

#[test]
fn main_content_prefers_content_containers() {
    let html = "<html><body><article>Hello   <b>world</b></article><p>other</p></body></html>";
    assert_eq!(extract_main_content(html), "Hello world");
    let two = "<html><body><article>A</article><article>B</article></body></html>";
    assert_eq!(extract_main_content(two), "A B");
    let blank_first = "<html><body><article>   </article><main>M</main></body></html>";
    assert_eq!(extract_main_content(blank_first), "M");
}

#[test]
fn main_content_falls_back_to_the_body() {
    let html = "<html><body><p>Just   some\ntext</p></body></html>";
    assert_eq!(extract_main_content(html), "Just some text");
    assert_eq!(extract_main_content(""), "");
}

#[test]
fn links_are_normalized_against_the_page() {
    assert_eq!(normalize_url("/about", "https://example.com/blog/"), Some("https://example.com/about".to_string()));
    assert_eq!(normalize_url("post", "https://example.com/blog/"), Some("https://example.com/blog/post".to_string()));
    assert_eq!(normalize_url("https://other.org/x", "https://example.com/"), Some("https://other.org/x".to_string()));
    assert_eq!(normalize_url("ftp://files.org/a", "https://example.com/"), None);
    assert_eq!(normalize_url("#top", "https://example.com/"), None);
    assert_eq!(normalize_url("javascript:void(0)", "https://example.com/"), None);
    assert_eq!(normalize_url("mailto:a@b.com", "https://example.com/"), None);
    assert_eq!(normalize_url("tel:123", "https://example.com/"), None);
    assert_eq!(normalize_url("/a", "not a url"), None);
}

#[test]
fn links_of_a_document() {
    let html = "<a href=\"/x\">x</a><a href=\"#top\">t</a><a>no</a><a href=\"https://b.org/y\">y</a>";
    assert_eq!(extract_links(html, "https://a.com/dir/"), vec!["https://a.com/x", "https://b.org/y"]);
}

#[test]
fn first_matching_name() {
    let names: Vec<String> = ["keywords", "description", "description"].iter().map(|s| s.to_string()).collect();
    assert_eq!(first_match(&names, "description"), Some(1));
    assert_eq!(first_match(&names, "author"), None);
    let metas = vec![meta("Author", "x"), meta("DESCRIPTION", "first"), meta("description", "second")];
    assert_eq!(find_meta_index(&metas, "description"), Some(1));
    assert_eq!(find_meta_index(&metas, "keywords"), None);
}

#[test]
fn first_language_meta_name() {
    let names: Vec<String> = ["author", "lang", "language"].iter().map(|s| s.to_string()).collect();
    assert_eq!(first_language_name(&names), Some(1));
    let none: Vec<String> = vec!["Lang".to_string(), "charset".to_string()];
    assert_eq!(first_language_name(&none), None);
}
