//! Configuration of the web scraper.
use vstd::prelude::*;

use core::time::Duration;

use crate::text::{chars_of, has_prefix, lines_chars, lines_of, starts_with, str_views, string_of, trim, trim_chars, views};

verus! {

/// Configuration for the web scraper.
#[derive(Clone, Debug)]
pub struct ScraperConfig {
    /// User agent to identify the scraper.
    pub user_agent: String,
    /// Maximum depth to crawl from seed URLs.
    pub max_depth: usize,
    /// Maximum number of URLs to process per domain.
    pub max_urls_per_domain: usize,
    /// Whether to follow redirects.
    pub follow_redirects: bool,
    /// Maximum number of redirects to follow.
    pub max_redirects: usize,
    /// Minimum delay between requests to the same domain, in milliseconds.
    pub rate_limit_ms: u64,
    /// Request timeout in seconds.
    pub request_timeout_secs: u64,
    /// Skip URLs that have already been scraped.
    pub skip_already_scraped: bool,
    /// Path to the database file.
    pub database_path: String,
    /// Path to the domains file.
    pub domains_file: String,
}

/// The default configuration.
pub open spec fn is_default_config(c: ScraperConfig) -> bool {
    &&& c.user_agent@ == "FastSearch-WebScraper/0.1.0 (fastitsearch@gmail.com)"@
    &&& c.max_depth == 3
    &&& c.max_urls_per_domain == 1000
    &&& c.follow_redirects
    &&& c.max_redirects == 5
    &&& c.rate_limit_ms == 1000
    &&& c.request_timeout_secs == 30
    &&& c.skip_already_scraped
    &&& c.database_path@ == "index.db"@
    &&& c.domains_file@ == "domains.txt"@
}

/// An owned copy of a string slice.
fn owned(s: &str) -> (r: String)
    ensures
        r@ == s@,
{
    let v = chars_of(s);
    string_of(&v)
}

impl Default for ScraperConfig {
    /// The default configuration: a one second delay between requests to a
    /// domain, a 30 second timeout, up to 5 redirects followed, pages already
    /// scraped skipped, the database in `index.db` and the domains in
    /// `domains.txt`.
    fn default() -> (r: Self)
        ensures
            is_default_config(r),
    {
        ScraperConfig {
            user_agent: owned("FastSearch-WebScraper/0.1.0 (fastitsearch@gmail.com)"),
            max_depth: 3,
            max_urls_per_domain: 1000,
            follow_redirects: true,
            max_redirects: 5,
            rate_limit_ms: 1000,
            request_timeout_secs: 30,
            skip_already_scraped: true,
            database_path: owned("index.db"),
            domains_file: owned("domains.txt"),
        }
    }
}

/// What `core::time::Duration::from_secs` gives for a number of seconds.
pub uninterp spec fn spec_duration_from_secs(secs: u64) -> Duration;

/// What `core::time::Duration::from_millis` gives for a number of
/// milliseconds.
pub uninterp spec fn spec_duration_from_millis(millis: u64) -> Duration;

/// Calls `Duration::from_secs`. Claimed: the result is a function of the
/// argument (it never panics).
#[verifier::external_body]
fn duration_from_secs(secs: u64) -> (d: Duration)
    ensures
        d == spec_duration_from_secs(secs),
{
    Duration::from_secs(secs)
}

/// Calls `Duration::from_millis`. Claimed: the result is a function of the
/// argument (it never panics).
#[verifier::external_body]
fn duration_from_millis(millis: u64) -> (d: Duration)
    ensures
        d == spec_duration_from_millis(millis),
{
    Duration::from_millis(millis)
}

/// The domains listed in the text of a domains file: each line trimmed, the
/// empty lines and the comment lines (starting with `#`) left out.
pub open spec fn domains_of(lines: Seq<Seq<char>>) -> Seq<Seq<char>>
    decreases lines.len(),
{
    if lines.len() == 0 {
        Seq::empty()
    } else {
        let prev = domains_of(lines.drop_last());
        let t = trim(lines.last());
        if t.len() > 0 && !has_prefix(t, "#"@) {
            prev.push(t)
        } else {
            prev
        }
    }
}

/// Parses the text of a domains file: one domain per line, trimmed; empty
/// lines and lines starting with `#` are skipped.
pub fn parse_domains(content: &str) -> (r: Vec<String>)
    ensures
        str_views(r@) == domains_of(lines_of(content@)),
{
    let text = chars_of(content);
    let lines = lines_chars(&text);
    let hash = chars_of("#");
    let n = lines.len();
    let mut out: Vec<String> = Vec::new();
    assert(views(lines@).take(0) =~= Seq::<Seq<char>>::empty());
    for i in 0..n
        invariant
            n == lines.len(),
            hash@ == "#"@,
            str_views(out@) == domains_of(views(lines@).take(i as int)),
    {
        let t = trim_chars(&lines[i]);
        assert(views(lines@).take(i + 1).drop_last() =~= views(lines@).take(i as int));
        if t.len() > 0 && !starts_with(&t, &hash) {
            let s = string_of(&t);
            let ghost before = str_views(out@);
            out.push(s);
            assert(str_views(out@) =~= before.push(t@));
        }
        assert(str_views(out@) =~= domains_of(views(lines@).take(i + 1)));
    }
    assert(views(lines@).take(n as int) =~= views(lines@));
    out
}

impl ScraperConfig {
    /// The configuration read from a file. No configuration file format is
    /// defined, so this is the default configuration whatever the path.
    pub fn from_file(_path: &str) -> (r: Self)
        ensures
            is_default_config(r),
    {
        Self::default()
    }

    /// The configuration a scraper starts with: read from the given path if
    /// there is one, the default configuration otherwise.
    pub fn for_path(config_path: Option<&str>) -> (r: Self)
        ensures
            is_default_config(r),
    {
        match config_path {
            Some(path) => Self::from_file(path),
            None => Self::default(),
        }
    }

    /// The request timeout.
    pub fn request_timeout(&self) -> (d: Duration)
        ensures
            d == spec_duration_from_secs(self.request_timeout_secs),
    {
        duration_from_secs(self.request_timeout_secs)
    }

    /// The minimum delay between two requests to a domain.
    pub fn request_delay(&self) -> (d: Duration)
        ensures
            d == spec_duration_from_millis(self.rate_limit_ms),
    {
        duration_from_millis(self.rate_limit_ms)
    }

    /// The minimum delay between two requests to a domain, in nanoseconds.
    pub fn request_delay_nanos(&self) -> (n: u128)
        ensures
            n == self.rate_limit_ms * 1_000_000,
    {
        self.rate_limit_ms as u128 * 1_000_000
    }

    /// How many redirects the HTTP client follows: the configured maximum when
    /// redirects are followed, none otherwise.
    pub fn redirect_limit(&self) -> (r: Option<usize>)
        ensures
            r == if self.follow_redirects {
                Some(self.max_redirects)
            } else {
                None::<usize>
            },
    {
        if self.follow_redirects {
            Some(self.max_redirects)
        } else {
            None
        }
    }
}

} // verus!

verus! {

/// Law: the domains read from a domains file are non-empty, trimmed, and
/// none starts with `#`.
pub proof fn law_domains_clean(lines: Seq<Seq<char>>)
    ensures
        forall|j: int|
            0 <= j < domains_of(lines).len() ==> {
                let d = #[trigger] domains_of(lines)[j];
                &&& d.len() > 0
                &&& crate::text::is_trimmed(d)
                &&& !has_prefix(d, "#"@)
            },
    decreases lines.len(),
{
    if lines.len() > 0 {
        law_domains_clean(lines.drop_last());
        let prev = domains_of(lines.drop_last());
        let t = trim(lines.last());
        crate::text::law_trim_is_trimmed(lines.last());
        if t.len() > 0 && !has_prefix(t, "#"@) {
            assert forall|j: int| 0 <= j < prev.push(t).len() implies {
                let d = #[trigger] prev.push(t)[j];
                &&& d.len() > 0
                &&& crate::text::is_trimmed(d)
                &&& !has_prefix(d, "#"@)
            } by {
                if j < prev.len() {
                    assert(prev.push(t)[j] == prev[j]);
                }
            }
        }
    }
}

} // verus!
