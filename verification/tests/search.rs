use fastsearch::cli::{parse_args, search_query, CliError, Command};
use fastsearch::engine::{read_xml_text, text_of_events};
use fastsearch::lemmatization::{lemmatize, lemmatize_lowercase, LemmaMap};
use fastsearch::scoring::{
    all_keywords_in_query, count_word, gaps_fit, get_proximities, get_website_proximity, max_rank,
    tf_idf_terms, Keyword, Website, WebsiteKeywordsEntry,
};
use fastsearch::strmap::StringMap;

fn kw(word: &str, position: i32) -> Keyword {
    Keyword { word: word.to_string(), position, occurrences: 3, word_count: 100, documents_containing_word: 7 }
}

fn site(rank: i32) -> Website {
    Website { title: "t".to_string(), description: "d".to_string(), url: format!("https://r{}.com", rank), rank }
}

fn words(v: &[&str]) -> Vec<String> {
    v.iter().map(|s| s.to_string()).collect()
}

#[test]
fn lemmatize_lowercases_strips_punctuation_and_maps() {
    let m = LemmaMap::from_json("{\"running\": \"run\", \"mice\": \"mouse\"}").unwrap();
    assert_eq!(lemmatize(&"The MICE, were Running!".to_string(), &m), vec!["the", "mouse", "were", "run"]);
    assert_eq!(lemmatize(&"  ".to_string(), &m), Vec::<String>::new());
    let empty = LemmaMap::new();
    assert_eq!(lemmatize(&"it's e-mail".to_string(), &empty), vec!["its", "email"]);
}

#[test]
fn lemma_maps_from_json() {
    assert!(LemmaMap::from_json("not json").is_none());
    assert!(LemmaMap::from_json("{\"a\": 1}").is_none());
    let m = LemmaMap::from_json("{\"a\": \"x\", \"a\": \"y\"}").unwrap();
    assert_eq!(m.lemma("a"), "y");
    assert_eq!(m.lemma("b"), "b");
    let mut m = LemmaMap::new();
    m.insert("went".to_string(), "go".to_string());
    assert_eq!(m.lemma("went"), "go");
}

#[test]
fn string_map_inserts_and_replaces() {
    let mut m: StringMap<u32> = StringMap::new();
    assert_eq!(m.len(), 0);
    m.insert("a".to_string(), 1);
    m.insert("b".to_string(), 2);
    m.insert("a".to_string(), 3);
    assert_eq!(m.get("a"), Some(&3));
    assert_eq!(m.get("b"), Some(&2));
    assert_eq!(m.get("c"), None);
    assert_eq!(m.len(), 2);
}

#[test]
fn proximity_clusters_and_gaps() {
    let q = words(&["a", "b"]);
    let p = get_website_proximity(&q, &vec![kw("a", 0), kw("b", 1), kw("a", 5), kw("b", 6)]);
    assert_eq!(p.cluster_sizes, vec![2]);
    assert_eq!(p.total_distance, 0);
    assert_eq!(p.keyword_count, 4);
    assert_eq!(p.query_len, 2);
    let q1 = words(&["x"]);
    let p = get_website_proximity(&q1, &vec![kw("x", 0), kw("y", 2), kw("x", 3)]);
    assert_eq!(p.cluster_sizes, vec![2]);
    assert_eq!(p.total_distance, 1);
    let p = get_website_proximity(&q1, &vec![kw("x", 5), kw("x", 3)]);
    assert_eq!(p.cluster_sizes, vec![1]);
    assert_eq!(p.total_distance, -3);
    let p = get_website_proximity(&q1, &vec![kw("x", 5)]);
    assert!(p.cluster_sizes.is_empty());
    assert_eq!(p.total_distance, 0);
}

#[test]
fn proximities_per_website() {
    let q = words(&["a"]);
    let wk = vec![
        WebsiteKeywordsEntry { keywords: vec![kw("a", 0), kw("a", 1)], website: site(1) },
        WebsiteKeywordsEntry { keywords: vec![kw("a", 4)], website: site(2) },
    ];
    let ps = get_proximities(&q, &wk);
    assert_eq!(ps.len(), 2);
    assert_eq!(ps[0].cluster_sizes, vec![1]);
    assert_eq!(ps[1].keyword_count, 1);
}

#[test]
fn query_term_counts() {
    let q = words(&["a", "b", "a"]);
    assert_eq!(count_word(&q, &"a".to_string()), 2);
    assert_eq!(count_word(&q, &"c".to_string()), 0);
    let wk = vec![WebsiteKeywordsEntry { keywords: vec![kw("a", 0), kw("b", 1)], website: site(4) }];
    let t = tf_idf_terms(&q, &wk);
    assert_eq!(t.len(), 1);
    assert_eq!(t[0].terms[0].query_occurrences, 2);
    assert_eq!(t[0].terms[1].query_occurrences, 1);
    assert_eq!(t[0].terms[0].occurrences, 3);
    assert_eq!(t[0].terms[0].word_count, 100);
    assert_eq!(t[0].terms[0].documents_containing_word, 7);
    assert_eq!(t[0].website.rank, 4);
    let distinct = ["a", "b"];
    let total: usize = distinct.iter().map(|w| count_word(&q, &w.to_string())).sum();
    assert_eq!(total, q.len());
}

#[test]
fn highest_rank() {
    let wk = vec![
        WebsiteKeywordsEntry { keywords: vec![kw("a", 0)], website: site(3) },
        WebsiteKeywordsEntry { keywords: vec![kw("a", 0)], website: site(9) },
        WebsiteKeywordsEntry { keywords: vec![kw("a", 0)], website: site(1) },
    ];
    assert_eq!(max_rank(&wk), 9);
}

#[test]
fn command_line_options() {
    let o = parse_args(&words(&["prog"])).unwrap();
    assert_eq!(o.config_path, None);
    assert_eq!(o.command, Command::Scrape);
    let o = parse_args(&words(&["prog", "--config", "c.toml", "search", "rust"])).unwrap();
    assert_eq!(o.config_path, Some("c.toml".to_string()));
    assert_eq!(o.command, Command::Search);
    let o = parse_args(&words(&["prog", "search", "x", "scrape", "-c", "a", "-c", "b"])).unwrap();
    assert_eq!(o.config_path, Some("b".to_string()));
    assert_eq!(o.command, Command::Scrape);
    assert!(matches!(parse_args(&words(&["prog", "-c"])), Err(CliError::MissingConfigPath)));
}

#[test]
fn search_query_is_the_third_argument() {
    assert_eq!(search_query(&words(&["prog", "search", "rust"])), Some("rust".to_string()));
    assert_eq!(search_query(&words(&["prog", "-c", "f", "search", "q"])), Some("f".to_string()));
    assert_eq!(search_query(&words(&["prog", "search"])), None);
}

#[test]
fn xml_text_is_the_character_data() {
    assert_eq!(read_xml_text(b"<doc><p>Hello</p> <p>World</p></doc>"), Some("HelloWorld".to_string()));
    assert_eq!(read_xml_text(b"<a><b></a>"), None);
}

#[test]
fn gap_arithmetic_fits_i32() {
    let q = words(&["a", "b"]);
    assert!(gaps_fit(&q, &vec![kw("a", 0), kw("b", 1), kw("a", 5)]));
    assert!(gaps_fit(&q, &vec![]));
    assert!(gaps_fit(&q, &vec![kw("a", 7)]));
    assert!(!gaps_fit(&q, &vec![kw("a", i32::MIN), kw("b", i32::MAX)]));
    assert!(!gaps_fit(&q, &vec![kw("a", i32::MAX), kw("b", i32::MIN)]));
    assert!(gaps_fit(&q, &vec![kw("a", i32::MAX), kw("b", 0)]));
    let many: Vec<Keyword> = (0..4).map(|i| kw("a", if i % 2 == 0 { 0 } else { i32::MIN + 1 })).collect();
    assert!(!gaps_fit(&q, &many));
}

#[test]
fn keywords_must_be_query_words() {
    let q = words(&["a", "b"]);
    let inside = vec![WebsiteKeywordsEntry { keywords: vec![kw("a", 0), kw("b", 1)], website: site(1) }];
    assert!(all_keywords_in_query(&q, &inside));
    let outside = vec![
        WebsiteKeywordsEntry { keywords: vec![kw("a", 0)], website: site(1) },
        WebsiteKeywordsEntry { keywords: vec![kw("c", 0)], website: site(2) },
    ];
    assert!(!all_keywords_in_query(&q, &outside));
    assert!(all_keywords_in_query(&q, &vec![]));
}

#[test]
fn xml_events_give_their_character_data() {
    let events = vec![Ok(Some("Hello".to_string())), Ok(None), Ok(Some(" World".to_string()))];
    assert_eq!(text_of_events(&events), Some("Hello World".to_string()));
    assert_eq!(text_of_events(&vec![Ok(Some("a".to_string())), Err(())]), None);
    assert_eq!(text_of_events(&vec![]), Some(String::new()));
}

#[test]
fn lowercase_text_is_lemmatized() {
    let m = LemmaMap::from_pairs(vec![("mice".to_string(), "mouse".to_string()), ("mice".to_string(), "rodent".to_string())]);
    assert_eq!(lemmatize_lowercase("three mice, (blind)", &m), vec!["three", "rodent", "blind"]);
    assert_eq!(lemmatize_lowercase("MICE", &m), vec!["MICE"]);
    assert_eq!(m.lemma("cat"), "cat");
}
