use fastsearch::config::{parse_domains, ScraperConfig};
use fastsearch::crawler::{
    accept_response, after_sitemap, build_page_data, check_response, domain_base_url,
    finish_scrape, first_sitemap, parse_sitemap, seed_urls, sitemap_candidates, CrawlState,
    DomainStep, FetchRejection, SitemapContent, SitemapWalk,
};
use fastsearch::models::MetaTag;
use fastsearch::records::{page_of_row, stored_scrape_time};
use fastsearch::stats::ScraperStats;
use std::time::Duration;

#[test]
fn default_configuration() {
    let c = ScraperConfig::default();
    assert_eq!(c.user_agent, "FastSearch-WebScraper/0.1.0 (fastitsearch@gmail.com)");
    assert_eq!(c.max_depth, 3);
    assert_eq!(c.max_urls_per_domain, 1000);
    assert!(c.follow_redirects);
    assert_eq!(c.max_redirects, 5);
    assert_eq!(c.rate_limit_ms, 1000);
    assert_eq!(c.request_timeout_secs, 30);
    assert!(c.skip_already_scraped);
    assert_eq!(c.database_path, "index.db");
    assert_eq!(c.domains_file, "domains.txt");
    assert_eq!(c.request_timeout(), Duration::from_secs(30));
    assert_eq!(c.request_delay(), Duration::from_millis(1000));
    assert_eq!(c.request_delay_nanos(), 1_000_000_000);
    assert_eq!(c.redirect_limit(), Some(5));
}

#[test]
fn configuration_file_gives_the_defaults() {
    let c = ScraperConfig::from_file("scraper.toml");
    assert_eq!(c.database_path, "index.db");
    let mut c = c;
    c.follow_redirects = false;
    assert_eq!(c.redirect_limit(), None);
}

#[test]
fn scraper_configuration_with_or_without_a_path() {
    let with_path = ScraperConfig::for_path(Some("custom.conf"));
    assert_eq!(with_path.domains_file, "domains.txt");
    assert_eq!(with_path.rate_limit_ms, 1000);
    let without = ScraperConfig::for_path(None);
    assert_eq!(without.user_agent, "FastSearch-WebScraper/0.1.0 (fastitsearch@gmail.com)");
    assert_eq!(without.max_urls_per_domain, 1000);
}

#[test]
fn domains_file_skips_comments_and_blank_lines() {
    let text = "example.com\n# comment\n\n  rust-lang.org  \r\n#x\nfoo.bar";
    assert_eq!(parse_domains(text), vec!["example.com", "rust-lang.org", "foo.bar"]);
    assert!(parse_domains("").is_empty());
    assert!(parse_domains("   \n# only\n").is_empty());
}

#[test]
fn responses_must_be_successful_html() {
    assert!(matches!(check_response(404, None), Err(FetchRejection::HttpStatus(404))));
    assert!(matches!(check_response(301, Some("text/html")), Err(FetchRejection::HttpStatus(301))));
    match check_response(200, Some("application/json")) {
        Err(FetchRejection::NotHtml(ct)) => assert_eq!(ct, "application/json"),
        _ => panic!("expected NotHtml"),
    }
    assert!(check_response(200, Some("text/html; charset=utf-8")).is_ok());
    assert!(check_response(204, None).is_ok());
}

#[test]
fn crawl_state_skips_scraped_urls() {
    let config = ScraperConfig::default();
    let mut s = CrawlState::new(&config);
    assert_eq!(s.request_delay, 1_000_000_000);
    assert!(!s.already_scraped("https://a.com/x"));
    s.mark_scraped("https://a.com/x".to_string());
    assert!(s.already_scraped("https://a.com/x"));
    assert!(!s.already_scraped("https://a.com/x#f"));
    let mut other = config;
    other.skip_already_scraped = false;
    let mut t = CrawlState::new(&other);
    t.mark_scraped("u".to_string());
    assert!(!t.already_scraped("u"));
}

#[test]
fn crawl_state_rate_limits_per_host() {
    let mut s = CrawlState::new(&ScraperConfig::default());
    let (host, wait) = s.rate_limit_wait("https://a.com/x", 100).unwrap();
    assert_eq!(host, "a.com");
    assert_eq!(wait, 0);
    s.record_request(host, 100);
    let (_, wait) = s.rate_limit_wait("https://a.com/y", 100 + 400_000_000).unwrap();
    assert_eq!(wait, 600_000_000);
    let (_, wait) = s.rate_limit_wait("https://b.org/", 200).unwrap();
    assert_eq!(wait, 0);
    assert!(s.rate_limit_wait("not a url", 5).is_none());
}

#[test]
fn page_data_from_html() {
    let html = "<html><head><title> My Page </title><meta name=\"description\" content=\"Desc\"><meta property=\"og:title\" content=\"OG\"><meta name=\"keywords\"><link rel=\"canonical\" href=\"https://a.com/c\"></head><body><main>Body text</main></body></html>";
    let p = build_page_data("https://a.com/", html, 42);
    assert_eq!(p.url, "https://a.com/");
    assert_eq!(p.title, "My Page");
    assert_eq!(p.meta_tags.len(), 2);
    assert_eq!(p.meta_tags[0].name, "description");
    assert_eq!(p.meta_tags[0].content, "Desc");
    assert_eq!(p.meta_tags[1].name, "og:title");
    assert_eq!(p.meta_tags[1].content, "OG");
    assert_eq!(p.canonical_url, Some("https://a.com/c".to_string()));
    assert_eq!(p.content_text, "Body text");
    assert_eq!(p.language, "en");
    assert_eq!(p.scraped_at, 42);
}

#[test]
fn page_without_title_is_untitled() {
    let html = "<html><head><meta name=\"language\" content=\"nl\"></head><body>tekst</body></html>";
    let p = build_page_data("u", html, 0);
    assert_eq!(p.title, "Untitled");
    assert_eq!(p.language, "nl");
    assert_eq!(p.canonical_url, None);
    assert_eq!(p.content_text, "tekst");
}

#[test]
fn sitemaps_list_pages() {
    let xml = "<urlset><url><loc> https://a.com/1 </loc></url><url><loc>https://a.com/2</loc></url></urlset>";
    match parse_sitemap(xml) {
        SitemapContent::Pages(urls) => assert_eq!(urls, vec!["https://a.com/1", "https://a.com/2"]),
        _ => panic!("expected pages"),
    }
    match parse_sitemap("<urlset></urlset>") {
        SitemapContent::Pages(urls) => assert!(urls.is_empty()),
        _ => panic!("expected pages"),
    }
}

#[test]
fn sitemap_indexes_list_sitemaps() {
    let xml = "<sitemapindex><sitemap><loc>https://a.com/s1.xml</loc></sitemap><sitemap><loc>https://a.com/s2.xml</loc></sitemap></sitemapindex>";
    match parse_sitemap(xml) {
        SitemapContent::Index(locs) => assert_eq!(locs, vec!["https://a.com/s1.xml", "https://a.com/s2.xml"]),
        _ => panic!("expected index"),
    }
}

#[test]
fn plain_text_sitemaps_list_one_url_per_line() {
    let text = "https://a.com/1\n  http://a.com/2  \nftp://x\n\nnot a url\n";
    match parse_sitemap(text) {
        SitemapContent::Pages(urls) => assert_eq!(urls, vec!["https://a.com/1", "http://a.com/2"]),
        _ => panic!("expected pages"),
    }
}

#[test]
fn domain_seeds() {
    let base = domain_base_url("a.com");
    assert_eq!(base, "https://a.com");
    assert_eq!(
        sitemap_candidates(&base),
        vec!["https://a.com/sitemap.xml", "https://a.com/sitemap_index.xml", "https://a.com/sitemap.txt"]
    );
    let found = vec![
        "https://a.com/1".to_string(),
        "https://a.com".to_string(),
        "https://a.com/1".to_string(),
        "https://a.com/2".to_string(),
    ];
    assert_eq!(seed_urls(base, found), vec!["https://a.com", "https://a.com/1", "https://a.com/2"]);
    assert_eq!(seed_urls("https://b.org".to_string(), vec![]), vec!["https://b.org"]);
}

#[test]
fn statistics_count_per_domain() {
    let mut s = ScraperStats::new(0);
    s.record_success("https://a.com/x", 100, 5);
    s.record_failure("https://a.com/y", 6);
    s.record_success("https://b.org/", 50, 7);
    s.record_failure("not a url", 8);
    assert_eq!(s.urls_processed, 2);
    assert_eq!(s.urls_failed, 2);
    assert_eq!(s.bytes_downloaded, 150);
    assert_eq!(s.domain_stats.len(), 3);
    let a = &s.domain_stats[0];
    assert_eq!((a.domain.as_str(), a.urls_processed, a.urls_failed, a.bytes_downloaded, a.last_crawled), ("a.com", 1, 1, 100, 6));
    let b = &s.domain_stats[1];
    assert_eq!((b.domain.as_str(), b.urls_processed, b.urls_failed, b.bytes_downloaded, b.last_crawled), ("b.org", 1, 0, 50, 7));
    let u = &s.domain_stats[2];
    assert_eq!((u.domain.as_str(), u.urls_processed, u.urls_failed), ("unknown", 0, 1));
    let total: usize = s.domain_stats.iter().map(|d| d.urls_processed).sum();
    assert_eq!(total, s.urls_processed);
}

#[test]
fn statistics_report() {
    let mut s = ScraperStats::new(1_000_000_000);
    for i in 0..11 {
        s.record_success(&format!("https://d{}.com/", i), 1, 0);
    }
    let r = s.get_stats_report(4_500_000_000);
    assert_eq!(r.runtime_seconds, 3);
    assert_eq!(r.domains_count, 11);
    assert_eq!(r.urls_processed, 11);
    assert_eq!(r.urls_failed, 0);
    assert_eq!(r.bytes_downloaded, 11);
    assert_eq!(r.top_domains.len(), 10);
    assert_eq!(r.top_domains[0].domain, "d0.com");
    assert_eq!(r.more_domains, 1);
    let early = s.get_stats_report(500_000_000);
    assert_eq!(early.runtime_seconds, 0);
    let before = s.get_stats_report(-1_500_000_000);
    assert_eq!(before.runtime_seconds, -2);
}

#[test]
fn rejected_responses_count_as_failures() {
    let mut stats = ScraperStats::new(0);
    assert!(accept_response(&mut stats, "https://a.com/x", 200, Some("text/html; charset=utf-8"), 1).is_ok());
    assert_eq!(stats.urls_failed, 0);
    assert!(stats.domain_stats.is_empty());
    match accept_response(&mut stats, "https://a.com/y", 404, None, 2) {
        Err(FetchRejection::HttpStatus(s)) => assert_eq!(s, 404),
        _ => panic!("expected an HTTP status rejection"),
    }
    match accept_response(&mut stats, "https://a.com/z", 200, Some("application/json"), 3) {
        Err(FetchRejection::NotHtml(c)) => assert_eq!(c, "application/json"),
        _ => panic!("expected a content type rejection"),
    }
    assert_eq!(stats.urls_failed, 2);
    assert_eq!(stats.domain_stats.len(), 1);
    assert_eq!(stats.domain_stats[0].urls_failed, 2);
    assert_eq!(stats.domain_stats[0].last_crawled, 3);
}

#[test]
fn finishing_a_scrape_counts_builds_and_marks() {
    let config = ScraperConfig::default();
    let mut state = CrawlState::new(&config);
    let mut stats = ScraperStats::new(0);
    let html = "<html><head><title> Café </title><meta name=\"lang\" content=\"fr\"></head><body><main>Bonjour  le monde</main></body></html>";
    let page = finish_scrape(&mut state, &mut stats, "https://a.com/p", html, 9, 1234);
    assert_eq!(page.url, "https://a.com/p");
    assert_eq!(page.title, "Café");
    assert_eq!(page.language, "fr");
    assert_eq!(page.content_text, "Bonjour le monde");
    assert_eq!(page.scraped_at, 1234);
    assert_eq!(stats.urls_processed, 1);
    assert_eq!(stats.bytes_downloaded, html.len());
    assert_eq!(stats.domain_stats[0].domain, "a.com");
    assert!(state.already_scraped("https://a.com/p"));
    assert!(!state.already_scraped("https://a.com/q"));
}

#[test]
fn domain_sitemaps_stop_at_the_first_read() {
    let base = "https://a.com";
    let first = first_sitemap(base);
    assert!(matches!(&first, DomainStep::Fetch(0, u) if u == "https://a.com/sitemap.xml"));
    let mut stats = ScraperStats::new(0);
    assert!(matches!(after_sitemap(&mut stats, base, 0, None, 1), DomainStep::Fetch(1, u) if u == "https://a.com/sitemap_index.xml"));
    assert!(matches!(after_sitemap(&mut stats, base, 1, None, 2), DomainStep::Fetch(2, u) if u == "https://a.com/sitemap.txt"));
    assert!(matches!(after_sitemap(&mut stats, base, 2, None, 3), DomainStep::Done(s) if s == vec!["https://a.com".to_string()]));
    assert_eq!(stats.urls_failed, 3);
    assert_eq!(stats.domain_stats.len(), 1);
    assert_eq!(stats.domain_stats[0].domain, "a.com");
    assert_eq!(stats.domain_stats[0].last_crawled, 3);
    let found = vec!["https://a.com/x".to_string(), "https://a.com".to_string(), "https://a.com/x".to_string()];
    assert!(matches!(after_sitemap(&mut stats, base, 1, Some(found), 4), DomainStep::Done(s) if s == vec!["https://a.com".to_string(), "https://a.com/x".to_string()]));
    assert_eq!(stats.urls_failed, 3);
}

#[test]
fn sitemap_walk_is_depth_first() {
    let mut walk = SitemapWalk::new("root".to_string());
    assert_eq!(walk.next_sitemap(), Some("root".to_string()));
    walk.on_sitemap(SitemapContent::Index(vec!["s1".to_string(), "s2".to_string()]));
    assert_eq!(walk.next_sitemap(), Some("s1".to_string()));
    walk.on_sitemap(SitemapContent::Index(vec!["s1a".to_string()]));
    assert_eq!(walk.next_sitemap(), Some("s1a".to_string()));
    walk.on_sitemap(SitemapContent::Pages(vec!["p1".to_string(), "p2".to_string()]));
    assert_eq!(walk.next_sitemap(), Some("s2".to_string()));
    walk.on_sitemap(SitemapContent::Pages(vec!["p3".to_string()]));
    assert_eq!(walk.next_sitemap(), None);
    assert_eq!(walk.urls, vec!["p1", "p2", "p3"]);
}

#[test]
fn stored_rows_read_back() {
    let metas = vec![MetaTag { name: "lang".to_string(), content: "fr".to_string() }];
    let p = page_of_row("u".to_string(), "fr".to_string(), "t".to_string(), metas, Some("c".to_string()), "text".to_string(), "2024-01-02T03:04:05+00:00", 7);
    assert_eq!(p.scraped_at, 1704164645_000_000_000);
    assert_eq!((p.url.as_str(), p.language.as_str(), p.title.as_str(), p.content_text.as_str()), ("u", "fr", "t", "text"));
    assert_eq!(p.canonical_url, Some("c".to_string()));
    assert_eq!(p.meta_tags[0].content, "fr");
    let offset = page_of_row(String::new(), String::new(), String::new(), vec![], None, String::new(), "2024-01-02T05:04:05+02:00", 7);
    assert_eq!(offset.scraped_at, 1704164645_000_000_000);
    let fraction = page_of_row(String::new(), String::new(), String::new(), vec![], None, String::new(), "2024-01-02T03:04:05.25Z", 7);
    assert_eq!(fraction.scraped_at, 1704164645_250_000_000);
    assert_eq!(stored_scrape_time(&fraction), "2024-01-02T03:04:05.250+00:00");
    let bad = page_of_row(String::new(), String::new(), String::new(), vec![], None, String::new(), "yesterday", 7);
    assert_eq!(bad.scraped_at, 7);
    assert_eq!(stored_scrape_time(&p), "2024-01-02T03:04:05+00:00");
    let ancient = page_of_row(String::new(), String::new(), String::new(), vec![], None, String::new(), "1000-01-01T00:00:00Z", 7);
    assert_eq!(ancient.scraped_at, 7);
}
