//! The crawler's decisions: which URLs to skip, how long to wait before a
//! request, which responses to accept, what a page and a sitemap hold, and
//! which URLs seed the crawl of a domain.
//!
//! The fetching itself is done by the caller, which reports times as
//! nanoseconds on a monotonic clock.
use vstd::prelude::*;

use crate::config::ScraperConfig;
use crate::html::{
    attrs_view, opt_view, select_attrs, select_inner_html, spec_select_attrs,
    spec_select_inner_html,
};
use crate::models::{metas_view, MetaTag, PageData};
use crate::parser::{detect_language, extract_main_content, spec_detect_language, spec_main_content};
use crate::strmap::StringMap;
use crate::text::{
    append_chars, chars_of, contains, contains_text, has_prefix, lines_chars, lines_of,
    starts_with, str_views, string_of, trim, trim_chars, trim_str, utf8_len, views,
};
use crate::stats::{spec_bump, spec_stats_domain, stats_view, ScraperStats};
use crate::utils::{extract_domain, spec_extract_domain, spec_wait_time, wait_time_for};
use vstd::utf8::encode_utf8;

verus! {

// ---------------------------------------------------------------------------
// Crawl state
// ---------------------------------------------------------------------------
/// What the crawler remembers between requests.
pub struct CrawlState {
    /// Whether URLs already scraped are refused.
    pub skip_already_scraped: bool,
    /// The minimum delay between two requests to one host, in nanoseconds.
    pub request_delay: u128,
    pub visited_urls: StringMap<()>,
    pub domain_last_request: StringMap<u128>,
}

impl CrawlState {
    /// The URLs scraped so far.
    pub closed spec fn visited(&self) -> Set<Seq<char>> {
        self.visited_urls@.dom()
    }

    /// The time of the last request to each host.
    pub closed spec fn last_requests(&self) -> Map<Seq<char>, u128> {
        self.domain_last_request@
    }

    /// The state of a crawler that has made no request.
    pub fn new(config: &ScraperConfig) -> (r: Self)
        ensures
            r.skip_already_scraped == config.skip_already_scraped,
            r.request_delay == config.rate_limit_ms * 1_000_000,
            r.visited() == Set::<Seq<char>>::empty(),
            r.last_requests() == Map::<Seq<char>, u128>::empty(),
    {
        let r = CrawlState {
            skip_already_scraped: config.skip_already_scraped,
            request_delay: config.request_delay_nanos(),
            visited_urls: StringMap::new(),
            domain_last_request: StringMap::new(),
        };
        assert(r.visited() =~= Set::<Seq<char>>::empty());
        r
    }

    /// Whether a URL is refused because it was already scraped.
    pub fn already_scraped(&self, url: &str) -> (b: bool)
        ensures
            b == (self.skip_already_scraped && self.visited().contains(url@)),
    {
        self.skip_already_scraped && self.visited_urls.get(url).is_some()
    }

    /// Records that a URL was scraped.
    pub fn mark_scraped(&mut self, url: String)
        ensures
            final(self).visited() == old(self).visited().insert(url@),
            final(self).last_requests() == old(self).last_requests(),
            final(self).skip_already_scraped == old(self).skip_already_scraped,
            final(self).request_delay == old(self).request_delay,
    {
        self.visited_urls.insert(url, ());
    }

    /// The host a request to `url` is rate limited under, and how long to wait
    /// before making it at `now`; `None` when the URL does not parse or has no
    /// host, and then it is not rate limited.
    pub fn rate_limit_wait(&self, url: &str, now: u128) -> (r: Option<(String, u128)>)
        ensures
            match spec_extract_domain(url@) {
                Some(h) => match r {
                    Some(p) => p.0@ == h && p.1 == spec_wait_time(
                        last_request_to(self.last_requests(), h),
                        self.request_delay,
                        now,
                    ),
                    None => false,
                },
                None => r is None,
            },
    {
        match extract_domain(url) {
            Some(host) => {
                let last = match self.domain_last_request.get(host.as_str()) {
                    Some(t) => Some(*t),
                    None => None,
                };
                let w = wait_time_for(last, self.request_delay, now);
                Some((host, w))
            },
            None => None,
        }
    }

    /// Records that a request to `host` was made at `now`.
    pub fn record_request(&mut self, host: String, now: u128)
        ensures
            final(self).last_requests() == old(self).last_requests().insert(host@, now),
            final(self).visited() == old(self).visited(),
            final(self).skip_already_scraped == old(self).skip_already_scraped,
            final(self).request_delay == old(self).request_delay,
    {
        self.domain_last_request.insert(host, now);
    }
}

// ---------------------------------------------------------------------------
// Responses
// ---------------------------------------------------------------------------
/// Why a response is not scraped.
pub enum FetchRejection {
    /// The status code is not a success (2xx).
    HttpStatus(u16),
    /// The content type is not HTML; the content type is given.
    NotHtml(String),
}

/// The content type assumed when a response gives none that can be read.
pub open spec fn default_content_type() -> Seq<char> {
    "text/html"@
}

/// Whether a response is accepted for scraping: a 2xx status, and a content
/// type (`text/html` when absent) that contains `text/html`. The status is
/// checked first.
pub fn check_response(status: u16, content_type: Option<&str>) -> (r: Result<(), FetchRejection>)
    ensures
        !(200 <= status <= 299) ==> (r matches Err(FetchRejection::HttpStatus(s)) && s == status),
        200 <= status <= 299 ==> match content_type {
            Some(ct) => if contains_text(ct@, "text/html"@) {
                r is Ok
            } else {
                (r matches Err(FetchRejection::NotHtml(c)) && c@ == ct@)
            },
            None => r is Ok,
        },
{
    if !(200 <= status && status <= 299) {
        return Err(FetchRejection::HttpStatus(status));
    }
    match content_type {
        Some(ct) => {
            let c = chars_of(ct);
            let html = chars_of("text/html");
            if contains(&c, &html) {
                Ok(())
            } else {
                Err(FetchRejection::NotHtml(string_of(&c)))
            }
        },
        None => Ok(()),
    }
}

// ---------------------------------------------------------------------------
// Pages
// ---------------------------------------------------------------------------
/// The title of a page from the inner HTML of its `title` elements: that of
/// the first, trimmed, or `Untitled`.
pub open spec fn spec_title(titles: Option<Seq<Seq<char>>>) -> Seq<char> {
    match titles {
        Some(t) => if t.len() > 0 {
            trim(t[0])
        } else {
            "Untitled"@
        },
        None => "Untitled"@,
    }
}

/// The `k`-th requested attribute of an element, if present.
pub open spec fn attr_at(e: Seq<Option<Seq<char>>>, k: int) -> Option<Seq<char>> {
    if 0 <= k < e.len() {
        e[k]
    } else {
        None
    }
}

/// The meta tags of a page from the `name`, `property` and `content`
/// attributes of its `meta` elements: the name is `name`, else `property`;
/// elements without a name or a content are left out.
pub open spec fn metas_of(elems: Seq<Seq<Option<Seq<char>>>>) -> Seq<(Seq<char>, Seq<char>)>
    decreases elems.len(),
{
    if elems.len() == 0 {
        Seq::empty()
    } else {
        let prev = metas_of(elems.drop_last());
        let e = elems.last();
        let name = if attr_at(e, 0) is Some {
            attr_at(e, 0)
        } else {
            attr_at(e, 1)
        };
        if name is Some && attr_at(e, 2) is Some {
            prev.push((name->0, attr_at(e, 2)->0))
        } else {
            prev
        }
    }
}

/// The meta tags from an optional selection of `meta` elements.
pub open spec fn spec_metas(sel: Option<Seq<Seq<Option<Seq<char>>>>>) -> Seq<(Seq<char>, Seq<char>)> {
    match sel {
        Some(elems) => metas_of(elems),
        None => Seq::empty(),
    }
}

/// The canonical URL from the `href` attribute of the `link[rel=canonical]`
/// elements: that of the first element, if it has one.
pub open spec fn spec_canonical(sel: Option<Seq<Seq<Option<Seq<char>>>>>) -> Option<Seq<char>> {
    match sel {
        Some(elems) => if elems.len() > 0 {
            attr_at(elems[0], 0)
        } else {
            None
        },
        None => None,
    }
}

/// The attribute selection's view, when there is one.
pub open spec fn attr_selection_view(o: Option<Vec<Vec<Option<String>>>>) -> Option<
    Seq<Seq<Option<Seq<char>>>>,
> {
    match o {
        Some(v) => Some(attrs_view(v@)),
        None => None,
    }
}

/// The view of an optional vector of strings.
pub open spec fn opt_strs_view(o: Option<Vec<String>>) -> Option<Seq<Seq<char>>> {
    match o {
        Some(v) => Some(str_views(v@)),
        None => None,
    }
}

/// The title of a page.
pub fn page_title(titles: &Option<Vec<String>>) -> (r: String)
    ensures
        r@ == spec_title(opt_strs_view(*titles)),
{
    match titles {
        Some(t) => {
            if t.len() > 0 {
                assert(str_views(t@)[0] == t@[0]@);
                trim_str(t[0].as_str())
            } else {
                string_of(&chars_of("Untitled"))
            }
        },
        None => string_of(&chars_of("Untitled")),
    }
}

/// The `k`-th attribute of an element, copied.
fn attr_at_exec(e: &Vec<Option<String>>, k: usize) -> (r: Option<String>)
    ensures
        opt_view(r) == attr_at(e@.map_values(|o: Option<String>| opt_view(o)), k as int),
{
    if k < e.len() {
        match &e[k] {
            Some(s) => Some(s.clone()),
            None => None,
        }
    } else {
        None
    }
}

/// The meta tags of a page from the attributes of its `meta` elements.
pub fn page_metas(sel: &Option<Vec<Vec<Option<String>>>>) -> (r: Vec<MetaTag>)
    ensures
        metas_view(r@) == spec_metas(attr_selection_view(*sel)),
{
    let mut out: Vec<MetaTag> = Vec::new();
    match sel {
        Some(elems) => {
            let n = elems.len();
            assert(attrs_view(elems@).take(0) =~= Seq::<Seq<Option<Seq<char>>>>::empty());
            for i in 0..n
                invariant
                    n == elems.len(),
                    metas_view(out@) == metas_of(attrs_view(elems@).take(i as int)),
            {
                let ghost tk = attrs_view(elems@).take(i + 1);
                assert(tk.drop_last() =~= attrs_view(elems@).take(i as int));
                assert(tk.last() == elems@[i as int]@.map_values(|o: Option<String>| opt_view(o)));
                let name_attr = attr_at_exec(&elems[i], 0);
                let name = match name_attr {
                    Some(n) => Some(n),
                    None => attr_at_exec(&elems[i], 1),
                };
                let content = attr_at_exec(&elems[i], 2);
                match (name, content) {
                    (Some(name), Some(content)) => {
                        let ghost before = metas_view(out@);
                        let ghost pair = (name@, content@);
                        out.push(MetaTag { name, content });
                        assert(metas_view(out@) =~= before.push(pair));
                    },
                    _ => {},
                }
                assert(metas_view(out@) =~= metas_of(tk));
            }
            assert(attrs_view(elems@).take(n as int) =~= attrs_view(elems@));
        },
        None => {
            assert(metas_view(out@) =~= Seq::<(Seq<char>, Seq<char>)>::empty());
        },
    }
    out
}

/// The canonical URL of a page from the attributes of its canonical links.
pub fn page_canonical(sel: &Option<Vec<Vec<Option<String>>>>) -> (r: Option<String>)
    ensures
        opt_view(r) == spec_canonical(attr_selection_view(*sel)),
{
    match sel {
        Some(elems) => {
            if elems.len() > 0 {
                attr_at_exec(&elems[0], 0)
            } else {
                None
            }
        },
        None => None,
    }
}

/// The page scraped from `url`: its title, meta tags and canonical URL from
/// the given selections, its main content and the language of its meta tags.
pub fn assemble_page(
    url: &str,
    titles: &Option<Vec<String>>,
    meta_attrs: &Option<Vec<Vec<Option<String>>>>,
    canonical_attrs: &Option<Vec<Vec<Option<String>>>>,
    content_text: String,
    scraped_at: i64,
) -> (r: PageData)
    ensures
        r.url@ == url@,
        r.title@ == spec_title(opt_strs_view(*titles)),
        metas_view(r.meta_tags@) == spec_metas(attr_selection_view(*meta_attrs)),
        opt_view(r.canonical_url) == spec_canonical(attr_selection_view(*canonical_attrs)),
        r.content_text@ == content_text@,
        r.language@ == spec_detect_language(spec_metas(attr_selection_view(*meta_attrs))),
        r.scraped_at == scraped_at,
{
    let title = page_title(titles);
    let meta_tags = page_metas(meta_attrs);
    let canonical_url = page_canonical(canonical_attrs);
    let language = detect_language(content_text.as_str(), &meta_tags);
    PageData {
        url: string_of(&chars_of(url)),
        language,
        title,
        meta_tags,
        canonical_url,
        content_text,
        scraped_at,
    }
}

/// The attribute names read from `meta` elements.
pub open spec fn meta_attr_names() -> Seq<Seq<char>> {
    seq!["name"@, "property"@, "content"@]
}

/// Builds the page scraped from `url`, given its HTML source and the time it
/// was scraped.
pub fn build_page_data(url: &str, html: &str, scraped_at: i64) -> (r: PageData)
    ensures
        r.url@ == url@,
        r.title@ == spec_title(spec_select_inner_html(html@, "title"@)),
        metas_view(r.meta_tags@) == spec_metas(
            spec_select_attrs(html@, "meta"@, meta_attr_names()),
        ),
        opt_view(r.canonical_url) == spec_canonical(
            spec_select_attrs(html@, "link[rel=canonical]"@, seq!["href"@]),
        ),
        r.content_text@ == spec_main_content(html@),
        r.language@ == spec_detect_language(
            spec_metas(spec_select_attrs(html@, "meta"@, meta_attr_names())),
        ),
        r.scraped_at == scraped_at,
{
    let titles = select_inner_html(html, "title");
    let meta_names: Vec<&str> = vec!["name", "property", "content"];
    assert(meta_names@.map_values(|n: &str| n@) =~= meta_attr_names());
    let metas = select_attrs(html, "meta", &meta_names);
    let href: Vec<&str> = vec!["href"];
    assert(href@.map_values(|n: &str| n@) =~= seq!["href"@]);
    let canonical = select_attrs(html, "link[rel=canonical]", &href);
    let content_text = extract_main_content(html);
    assemble_page(url, &titles, &metas, &canonical, content_text, scraped_at)
}

// ---------------------------------------------------------------------------
// Sitemaps
// ---------------------------------------------------------------------------
/// What a sitemap lists.
pub enum SitemapContent {
    /// A sitemap index: the locations of other sitemaps.
    Index(Vec<String>),
    /// The URLs of pages.
    Pages(Vec<String>),
}

/// The trimmed texts.
pub open spec fn trimmed_all(s: Seq<Seq<char>>) -> Seq<Seq<char>> {
    s.map_values(|x: Seq<char>| trim(x))
}

/// The URLs of a plain-text sitemap: its lines, trimmed, that start with
/// `http://` or `https://`.
pub open spec fn plain_urls(lines: Seq<Seq<char>>) -> Seq<Seq<char>>
    decreases lines.len(),
{
    if lines.len() == 0 {
        Seq::empty()
    } else {
        let prev = plain_urls(lines.drop_last());
        let t = trim(lines.last());
        if t.len() > 0 && (has_prefix(t, "http://"@) || has_prefix(t, "https://"@)) {
            prev.push(t)
        } else {
            prev
        }
    }
}

/// Whether a sitemap is a sitemap index.
pub open spec fn is_sitemap_index(content: Seq<char>) -> bool {
    contains_text(content, "<sitemapindex"@)
}

/// The entries of a sitemap given the inner HTML of its `loc` elements
/// (`sitemap > loc` for an index, `url > loc` otherwise): for an index, the
/// trimmed locations of the sitemaps; otherwise the trimmed page locations,
/// or, when there are none and the text has no `<urlset`, the URLs of its
/// lines.
pub open spec fn spec_sitemap_entries(content: Seq<char>, locs: Option<Seq<Seq<char>>>) -> (
    bool,
    Seq<Seq<char>>,
) {
    let found = match locs {
        Some(l) => trimmed_all(l),
        None => Seq::empty(),
    };
    if is_sitemap_index(content) {
        (true, found)
    } else if found.len() == 0 && !contains_text(content, "<urlset"@) {
        (false, plain_urls(lines_of(content)))
    } else {
        (false, found)
    }
}

/// The kind and entries of a sitemap.
pub open spec fn sitemap_view(s: SitemapContent) -> (bool, Seq<Seq<char>>) {
    match s {
        SitemapContent::Index(v) => (true, str_views(v@)),
        SitemapContent::Pages(v) => (false, str_views(v@)),
    }
}

/// The trimmed copies of the strings.
fn trim_all(v: &Vec<String>) -> (r: Vec<String>)
    ensures
        str_views(r@) == trimmed_all(str_views(v@)),
{
    let mut out: Vec<String> = Vec::new();
    let n = v.len();
    for i in 0..n
        invariant
            n == v.len(),
            str_views(out@) == trimmed_all(str_views(v@).take(i as int)),
    {
        let t = trim_str(v[i].as_str());
        let ghost before = str_views(out@);
        out.push(t);
        assert(str_views(out@) =~= before.push(t@));
        assert(str_views(out@) =~= trimmed_all(str_views(v@).take(i + 1)));
    }
    assert(str_views(v@).take(n as int) =~= str_views(v@));
    out
}

/// The URLs listed one per line in a plain-text sitemap.
pub fn plain_text_urls(content: &Vec<char>) -> (r: Vec<String>)
    ensures
        str_views(r@) == plain_urls(lines_of(content@)),
{
    let lines = lines_chars(content);
    let http = chars_of("http://");
    let https = chars_of("https://");
    let n = lines.len();
    let mut out: Vec<String> = Vec::new();
    assert(views(lines@).take(0) =~= Seq::<Seq<char>>::empty());
    for i in 0..n
        invariant
            n == lines.len(),
            http@ == "http://"@,
            https@ == "https://"@,
            str_views(out@) == plain_urls(views(lines@).take(i as int)),
    {
        let t = trim_chars(&lines[i]);
        assert(views(lines@).take(i + 1).drop_last() =~= views(lines@).take(i as int));
        if t.len() > 0 && (starts_with(&t, &http) || starts_with(&t, &https)) {
            let s = string_of(&t);
            let ghost before = str_views(out@);
            out.push(s);
            assert(str_views(out@) =~= before.push(t@));
        }
        assert(str_views(out@) =~= plain_urls(views(lines@).take(i + 1)));
    }
    assert(views(lines@).take(n as int) =~= views(lines@));
    out
}

/// The entries of a sitemap given the inner HTML of its `loc` elements.
pub fn sitemap_entries(content: &str, locs: &Option<Vec<String>>) -> (r: SitemapContent)
    ensures
        sitemap_view(r) == spec_sitemap_entries(content@, opt_strs_view(*locs)),
{
    let text = chars_of(content);
    let found = match locs {
        Some(l) => trim_all(l),
        None => {
            let v: Vec<String> = Vec::new();
            assert(str_views(v@) =~= Seq::<Seq<char>>::empty());
            v
        },
    };
    if contains(&text, &chars_of("<sitemapindex")) {
        SitemapContent::Index(found)
    } else if found.len() == 0 && !contains(&text, &chars_of("<urlset")) {
        SitemapContent::Pages(plain_text_urls(&text))
    } else {
        SitemapContent::Pages(found)
    }
}

/// The selector of the locations a sitemap lists: `sitemap > loc` in an
/// index, `url > loc` otherwise.
pub open spec fn loc_selector(content: Seq<char>) -> Seq<char> {
    if is_sitemap_index(content) {
        "sitemap > loc"@
    } else {
        "url > loc"@
    }
}

/// Reads a sitemap: a sitemap index lists other sitemaps, a sitemap lists
/// pages, in XML or as plain text with one URL per line.
pub fn parse_sitemap(content: &str) -> (r: SitemapContent)
    ensures
        sitemap_view(r) == spec_sitemap_entries(
            content@,
            spec_select_inner_html(content@, loc_selector(content@)),
        ),
{
    let text = chars_of(content);
    let locs = if contains(&text, &chars_of("<sitemapindex")) {
        select_inner_html(content, "sitemap > loc")
    } else {
        select_inner_html(content, "url > loc")
    };
    sitemap_entries(content, &locs)
}

// ---------------------------------------------------------------------------
// Domains
// ---------------------------------------------------------------------------
/// The sequence without repeated elements, each kept where it first occurs.
pub open spec fn dedup(s: Seq<Seq<char>>) -> Seq<Seq<char>>
    decreases s.len(),
{
    if s.len() == 0 {
        Seq::empty()
    } else {
        let prev = dedup(s.drop_last());
        if prev.contains(s.last()) {
            prev
        } else {
            prev.push(s.last())
        }
    }
}

/// The root URL of a domain.
pub open spec fn spec_base_url(domain: Seq<char>) -> Seq<char> {
    "https://"@ + domain
}

/// The sitemap locations tried for a domain, in order.
pub open spec fn spec_sitemap_candidates(base: Seq<char>) -> Seq<Seq<char>> {
    seq![base + "/sitemap.xml"@, base + "/sitemap_index.xml"@, base + "/sitemap.txt"@]
}

/// The root URL of a domain: `https://` followed by the domain.
pub fn domain_base_url(domain: &str) -> (r: String)
    ensures
        r@ == spec_base_url(domain@),
{
    let mut v = chars_of("https://");
    append_chars(&mut v, &chars_of(domain));
    string_of(&v)
}

/// A string followed by a suffix.
fn concat(a: &str, b: &str) -> (r: String)
    ensures
        r@ == a@ + b@,
{
    let mut v = chars_of(a);
    append_chars(&mut v, &chars_of(b));
    string_of(&v)
}

/// The sitemap locations tried for a domain with root URL `base`:
/// `/sitemap.xml`, then `/sitemap_index.xml`, then `/sitemap.txt`.
pub fn sitemap_candidates(base: &str) -> (r: Vec<String>)
    ensures
        str_views(r@) == spec_sitemap_candidates(base@),
{
    let mut r: Vec<String> = Vec::new();
    r.push(concat(base, "/sitemap.xml"));
    r.push(concat(base, "/sitemap_index.xml"));
    r.push(concat(base, "/sitemap.txt"));
    assert(str_views(r@) =~= spec_sitemap_candidates(base@));
    r
}

/// The URLs that seed the crawl of a domain: its root URL and the URLs found
/// in its sitemap, each once.
pub fn seed_urls(base: String, found: Vec<String>) -> (r: Vec<String>)
    ensures
        str_views(r@) == dedup(seq![base@] + str_views(found@)),
{
    let ghost all = seq![base@] + str_views(found@);
    let mut seen: StringMap<()> = StringMap::new();
    let mut out: Vec<String> = Vec::new();
    let mut items: Vec<String> = Vec::new();
    items.push(base);
    let mut found = found;
    items.append(&mut found);
    assert(str_views(items@) =~= all);
    let n = items.len();
    assert(all.take(0) =~= Seq::<Seq<char>>::empty());
    for i in 0..n
        invariant
            n == items.len(),
            str_views(items@) == all,
            str_views(out@) == dedup(all.take(i as int)),
            forall|k: Seq<char>| #[trigger] seen@.contains_key(k) <==> str_views(out@).contains(k),
    {
        let item = &items[i];
        assert(all.take(i + 1).drop_last() =~= all.take(i as int));
        assert(all.take(i + 1).last() == item@);
        if seen.get(item.as_str()).is_none() {
            let ghost before = str_views(out@);
            let copy = item.clone();
            seen.insert(item.clone(), ());
            out.push(copy);
            assert(str_views(out@) =~= before.push(item@));
            assert forall|k: Seq<char>| #[trigger] seen@.contains_key(k) <==> str_views(out@).contains(k) by {
                if k == item@ {
                    assert(str_views(out@)[before.len() as int] == k);
                } else if str_views(out@).contains(k) {
                    let j = choose|j: int| 0 <= j < str_views(out@).len() && str_views(out@)[j] == k;
                    assert(before[j] == k);
                } else if before.contains(k) {
                    let j = choose|j: int| 0 <= j < before.len() && before[j] == k;
                    assert(str_views(out@)[j] == k);
                }
            }
        }
        assert(str_views(out@) =~= dedup(all.take(i + 1)));
    }
    assert(all.take(n as int) =~= all);
    out
}


// ---------------------------------------------------------------------------
// Steps of a scrape
// ---------------------------------------------------------------------------
/// Whether a response is accepted for scraping: a 2xx status, and a content
/// type (`text/html` when absent) that contains `text/html`.
pub open spec fn response_accepted(status: u16, content_type: Option<Seq<char>>) -> bool {
    &&& 200 <= status <= 299
    &&& match content_type {
        Some(ct) => contains_text(ct, "text/html"@),
        None => true,
    }
}

/// The view of an optional string slice.
pub open spec fn opt_str_view(o: Option<&str>) -> Option<Seq<char>> {
    match o {
        Some(s) => Some(s@),
        None => None,
    }
}

/// The step of a scrape once the response for `url` has come: a response
/// that is not accepted is counted as a failure of the URL at `now` (in the
/// statistics' time), and the reason is given; an accepted one changes
/// nothing.
pub fn accept_response(
    stats: &mut ScraperStats,
    url: &str,
    status: u16,
    content_type: Option<&str>,
    now: i64,
) -> (r: Result<(), FetchRejection>)
    requires
        old(stats).wf(),
        old(stats).urls_failed < usize::MAX,
    ensures
        (r is Ok) == response_accepted(status, opt_str_view(content_type)),
        !(200 <= status <= 299) ==> (r matches Err(FetchRejection::HttpStatus(s)) && s == status),
        200 <= status <= 299 && !response_accepted(status, opt_str_view(content_type)) ==> (
        r matches Err(FetchRejection::NotHtml(c)) && opt_str_view(content_type) == Some(c@)),
        r is Ok ==> *final(stats) == *old(stats),
        r is Err ==> {
            &&& final(stats).wf()
            &&& final(stats).start_time == old(stats).start_time
            &&& final(stats).urls_processed == old(stats).urls_processed
            &&& final(stats).urls_failed == old(stats).urls_failed + 1
            &&& final(stats).bytes_downloaded == old(stats).bytes_downloaded
            &&& stats_view(final(stats).domain_stats@) == spec_bump(
                stats_view(old(stats).domain_stats@),
                spec_stats_domain(url@),
                0,
                1,
                0,
                now as int,
            )
        },
{
    let r = check_response(status, content_type);
    match r {
        Ok(()) => Ok(()),
        Err(e) => {
            stats.record_failure(url, now);
            Err(e)
        },
    }
}

/// The step of a scrape once the HTML of an accepted response for `url` has
/// been read: its bytes are counted as a success of the URL at `now` (in the
/// statistics' time), the page is built with `scraped_at` as its time, and
/// the URL is marked scraped.
pub fn finish_scrape(
    state: &mut CrawlState,
    stats: &mut ScraperStats,
    url: &str,
    html: &str,
    now: i64,
    scraped_at: i64,
) -> (r: PageData)
    requires
        old(stats).wf(),
        old(stats).urls_processed < usize::MAX,
        old(stats).bytes_downloaded + encode_utf8(html@).len() <= usize::MAX,
    ensures
        r.url@ == url@,
        r.title@ == spec_title(spec_select_inner_html(html@, "title"@)),
        metas_view(r.meta_tags@) == spec_metas(
            spec_select_attrs(html@, "meta"@, meta_attr_names()),
        ),
        opt_view(r.canonical_url) == spec_canonical(
            spec_select_attrs(html@, "link[rel=canonical]"@, seq!["href"@]),
        ),
        r.content_text@ == spec_main_content(html@),
        r.language@ == spec_detect_language(
            spec_metas(spec_select_attrs(html@, "meta"@, meta_attr_names())),
        ),
        r.scraped_at == scraped_at,
        final(state).visited() == old(state).visited().insert(url@),
        final(state).last_requests() == old(state).last_requests(),
        final(state).skip_already_scraped == old(state).skip_already_scraped,
        final(state).request_delay == old(state).request_delay,
        final(stats).wf(),
        final(stats).start_time == old(stats).start_time,
        final(stats).urls_processed == old(stats).urls_processed + 1,
        final(stats).urls_failed == old(stats).urls_failed,
        final(stats).bytes_downloaded == old(stats).bytes_downloaded + encode_utf8(html@).len(),
        stats_view(final(stats).domain_stats@) == spec_bump(
            stats_view(old(stats).domain_stats@),
            spec_stats_domain(url@),
            1,
            0,
            encode_utf8(html@).len(),
            now as int,
        ),
{
    let bytes = utf8_len(html);
    stats.record_success(url, bytes, now);
    let page = build_page_data(url, html, scraped_at);
    state.mark_scraped(string_of(&chars_of(url)));
    page
}

// ---------------------------------------------------------------------------
// Steps of reading a domain's sitemaps
// ---------------------------------------------------------------------------
/// What to do next for a domain: read the sitemap candidate with the given
/// index at the given URL, or seed the crawl with the given URLs.
pub enum DomainStep {
    Fetch(usize, String),
    Done(Vec<String>),
}

/// The first step for a domain with root URL `base`: read its first sitemap
/// candidate.
pub fn first_sitemap(base: &str) -> (r: DomainStep)
    ensures
        r matches DomainStep::Fetch(i, u) && i == 0 && u@ == spec_sitemap_candidates(base@)[0],
{
    let c = sitemap_candidates(base);
    assert(spec_sitemap_candidates(base@).len() == 3);
    assert(c@.len() == str_views(c@).len());
    assert(str_views(c@)[0] == c@[0]@);
    DomainStep::Fetch(0, c[0].clone())
}

/// The step after sitemap candidate `tried` of a domain with root URL `base`
/// gave `outcome` (its URLs, or `None` when it could not be read): the first
/// candidate read seeds the crawl with the root URL and its URLs, each once;
/// a failed one is counted as a failure of its URL at `now` (in the
/// statistics' time) and passes to the next candidate; when none is left the
/// crawl is seeded with the root URL alone.
pub fn after_sitemap(
    stats: &mut ScraperStats,
    base: &str,
    tried: usize,
    outcome: Option<Vec<String>>,
    now: i64,
) -> (r: DomainStep)
    requires
        old(stats).wf(),
        tried < spec_sitemap_candidates(base@).len(),
        outcome is None ==> old(stats).urls_failed < usize::MAX,
    ensures
        match outcome {
            Some(urls) => {
                &&& r matches DomainStep::Done(s) && str_views(s@) == dedup(
                    seq![base@] + str_views(urls@),
                )
                &&& *final(stats) == *old(stats)
            },
            None => {
                &&& if tried + 1 < spec_sitemap_candidates(base@).len() {
                    r matches DomainStep::Fetch(i, u) && i == tried + 1 && u@
                        == spec_sitemap_candidates(base@)[tried + 1]
                } else {
                    r matches DomainStep::Done(s) && str_views(s@) == dedup(seq![base@])
                }
                &&& final(stats).wf()
                &&& final(stats).start_time == old(stats).start_time
                &&& final(stats).urls_processed == old(stats).urls_processed
                &&& final(stats).urls_failed == old(stats).urls_failed + 1
                &&& final(stats).bytes_downloaded == old(stats).bytes_downloaded
                &&& stats_view(final(stats).domain_stats@) == spec_bump(
                    stats_view(old(stats).domain_stats@),
                    spec_stats_domain(spec_sitemap_candidates(base@)[tried as int]),
                    0,
                    1,
                    0,
                    now as int,
                )
            },
        },
{
    let root = string_of(&chars_of(base));
    match outcome {
        Some(urls) => DomainStep::Done(seed_urls(root, urls)),
        None => {
            let c = sitemap_candidates(base);
            assert(spec_sitemap_candidates(base@).len() == 3);
            assert(c@.len() == str_views(c@).len());
            assert(str_views(c@)[tried as int] == c@[tried as int]@);
            stats.record_failure(c[tried].as_str(), now);
            if tried < 2 {
                let i = tried + 1;
                assert(str_views(c@)[i as int] == c@[i as int]@);
                DomainStep::Fetch(i, c[i].clone())
            } else {
                let none: Vec<String> = Vec::new();
                assert(seq![base@] + str_views(none@) =~= seq![base@]);
                DomainStep::Done(seed_urls(root, none))
            }
        },
    }
}

// ---------------------------------------------------------------------------
// Walking a sitemap and the sitemaps it lists
// ---------------------------------------------------------------------------
/// A walk through a sitemap and, depth first and in order, the sitemaps that
/// the indexes among them list.
pub struct SitemapWalk {
    /// The sitemaps still to read, in the order they are read.
    pub pending: Vec<String>,
    /// The page URLs found so far, in order.
    pub urls: Vec<String>,
}

impl SitemapWalk {
    /// A walk that starts at one sitemap.
    pub fn new(sitemap_url: String) -> (r: Self)
        ensures
            str_views(r.pending@) == seq![sitemap_url@],
            r.urls@.len() == 0,
    {
        let mut pending: Vec<String> = Vec::new();
        let ghost u = sitemap_url@;
        pending.push(sitemap_url);
        assert(str_views(pending@) =~= seq![u]);
        SitemapWalk { pending, urls: Vec::new() }
    }

    /// The next sitemap to read, taken off the list; `None` when the walk is
    /// over.
    pub fn next_sitemap(&mut self) -> (r: Option<String>)
        ensures
            old(self).pending.len() == 0 ==> r is None && *final(self) == *old(self),
            old(self).pending.len() > 0 ==> {
                &&& r is Some
                &&& r->0@ == old(self).pending@[0]@
                &&& str_views(final(self).pending@) == str_views(old(self).pending@).drop_first()
                &&& final(self).urls@ == old(self).urls@
            },
    {
        if self.pending.len() == 0 {
            None
        } else {
            let ghost before = self.pending@;
            let s = self.pending.remove(0);
            assert(str_views(self.pending@) =~= str_views(before).drop_first());
            Some(s)
        }
    }

    /// Takes in what the sitemap just read lists: the sitemaps of an index
    /// are read next, before those still pending; page URLs are added to
    /// those found.
    pub fn on_sitemap(&mut self, content: SitemapContent)
        ensures
            match content {
                SitemapContent::Index(locs) => {
                    &&& str_views(final(self).pending@) == str_views(locs@) + str_views(
                        old(self).pending@,
                    )
                    &&& final(self).urls@ == old(self).urls@
                },
                SitemapContent::Pages(pages) => {
                    &&& final(self).pending@ == old(self).pending@
                    &&& str_views(final(self).urls@) == str_views(old(self).urls@) + str_views(
                        pages@,
                    )
                },
            },
    {
        match content {
            SitemapContent::Index(locs) => {
                let ghost a = str_views(locs@);
                let ghost b = str_views(self.pending@);
                let mut next = locs;
                let mut rest = Vec::new();
                std::mem::swap(&mut rest, &mut self.pending);
                next.append(&mut rest);
                self.pending = next;
                assert(str_views(self.pending@) =~= a + b);
            },
            SitemapContent::Pages(pages) => {
                let ghost a = str_views(self.urls@);
                let ghost b = str_views(pages@);
                let mut pages = pages;
                self.urls.append(&mut pages);
                assert(str_views(self.urls@) =~= a + b);
            },
        }
    }
}

} // verus!

verus! {

/// Law: removing repetitions leaves each element once and keeps exactly the
/// elements there were.
pub proof fn law_dedup(s: Seq<Seq<char>>)
    ensures
        dedup(s).no_duplicates(),
        forall|x: Seq<char>| #[trigger] dedup(s).contains(x) <==> s.contains(x),
    decreases s.len(),
{
    if s.len() > 0 {
        let p = s.drop_last();
        law_dedup(p);
        let d = dedup(p);
        let x = s.last();
        if !d.contains(x) {
            let t = d.push(x);
            assert forall|i: int, j: int| 0 <= i < t.len() && 0 <= j < t.len() && i != j implies t[i]
                != t[j] by {
                if i < d.len() && j < d.len() {
                    assert(t[i] == d[i] && t[j] == d[j]);
                } else if i < d.len() {
                    assert(t[i] == d[i]);
                } else {
                    assert(t[j] == d[j]);
                }
            }
        }
        assert forall|y: Seq<char>| #[trigger] dedup(s).contains(y) <==> s.contains(y) by {
            if s.contains(y) {
                let i = choose|i: int| 0 <= i < s.len() && s[i] == y;
                if i < p.len() {
                    assert(p[i] == y);
                    assert(d.contains(y));
                    if !d.contains(x) {
                        let j = choose|j: int| 0 <= j < d.len() && d[j] == y;
                        assert(d.push(x)[j] == y);
                    }
                } else if !d.contains(x) {
                    assert(d.push(x)[d.len() as int] == y);
                }
            }
            if dedup(s).contains(y) {
                if d.contains(y) {
                    let j = choose|j: int| 0 <= j < p.len() && p[j] == y;
                    assert(s[j] == y);
                } else {
                    let j = choose|j: int| 0 <= j < dedup(s).len() && dedup(s)[j] == y;
                    if j < d.len() {
                        assert(d.push(x)[j] == d[j]);
                    }
                    assert(s[s.len() - 1] == y);
                }
            }
        }
    }
}

/// Law: the URLs seeding the crawl of a domain start with its root URL, hold
/// each URL once, and are exactly the root URL and the URLs found.
pub proof fn law_seed_urls(base: Seq<char>, found: Seq<Seq<char>>)
    ensures
        dedup(seq![base] + found).len() > 0,
        dedup(seq![base] + found)[0] == base,
        dedup(seq![base] + found).no_duplicates(),
        forall|x: Seq<char>|
            #[trigger] dedup(seq![base] + found).contains(x) <==> (x == base || found.contains(x)),
    decreases found.len(),
{
    let all = seq![base] + found;
    law_dedup(all);
    if found.len() == 0 {
        assert(all =~= seq![base]);
        assert(all.drop_last() =~= Seq::<Seq<char>>::empty());
        assert(dedup(all.drop_last()) == Seq::<Seq<char>>::empty());
        assert(dedup(all) == Seq::<Seq<char>>::empty().push(base));
    } else {
        law_seed_urls(base, found.drop_last());
        assert(all.drop_last() =~= seq![base] + found.drop_last());
        let d = dedup(all.drop_last());
        if !d.contains(all.last()) {
            assert(d.push(all.last())[0] == d[0]);
        }
    }
    assert forall|x: Seq<char>| #[trigger] all.contains(x) <==> (x == base || found.contains(x)) by {
        if all.contains(x) {
            let i = choose|i: int| 0 <= i < all.len() && all[i] == x;
            if i > 0 {
                assert(found[i - 1] == x);
            }
        }
        if x == base {
            assert(all[0] == x);
        }
        if found.contains(x) {
            let i = choose|i: int| 0 <= i < found.len() && found[i] == x;
            assert(all[i + 1] == x);
        }
    }
}

/// Law: the URLs of a plain-text sitemap are trimmed and start with `http://`
/// or `https://`.
pub proof fn law_plain_urls(lines: Seq<Seq<char>>)
    ensures
        forall|j: int|
            0 <= j < plain_urls(lines).len() ==> {
                let u = #[trigger] plain_urls(lines)[j];
                &&& has_prefix(u, "http://"@) || has_prefix(u, "https://"@)
                &&& crate::text::is_trimmed(u)
            },
    decreases lines.len(),
{
    if lines.len() > 0 {
        law_plain_urls(lines.drop_last());
        let prev = plain_urls(lines.drop_last());
        let t = trim(lines.last());
        crate::text::law_trim_is_trimmed(lines.last());
        if t.len() > 0 && (has_prefix(t, "http://"@) || has_prefix(t, "https://"@)) {
            assert forall|j: int| 0 <= j < prev.push(t).len() implies {
                let u = #[trigger] prev.push(t)[j];
                &&& has_prefix(u, "http://"@) || has_prefix(u, "https://"@)
                &&& crate::text::is_trimmed(u)
            } by {
                if j < prev.len() {
                    assert(prev.push(t)[j] == prev[j]);
                }
            }
        }
    }
}


/// A line of a plain-text sitemap that gives a URL: trimmed, it starts with
/// `http://` or `https://`.
pub open spec fn is_url_line(l: Seq<char>) -> bool {
    has_prefix(trim(l), "http://"@) || has_prefix(trim(l), "https://"@)
}

/// Law: every line of a plain-text sitemap that gives a URL is listed, its
/// text trimmed, whatever lines come before or after it.
pub proof fn law_plain_urls_complete(lines: Seq<Seq<char>>)
    ensures
        forall|k: int|
            0 <= k < lines.len() && #[trigger] is_url_line(lines[k]) ==> plain_urls(lines).contains(
                trim(lines[k]),
            ),
    decreases lines.len(),
{
    reveal_strlit("http://");
    reveal_strlit("https://");
    if lines.len() > 0 {
        let p = lines.drop_last();
        law_plain_urls_complete(p);
        let prev = plain_urls(p);
        let t = trim(lines.last());
        assert forall|k: int| 0 <= k < lines.len() && #[trigger] is_url_line(lines[k]) implies plain_urls(
            lines,
        ).contains(trim(lines[k])) by {
            if k < lines.len() - 1 {
                assert(lines[k] == p[k]);
                assert(is_url_line(p[k]));
                let i = choose|i: int| 0 <= i < prev.len() && prev[i] == trim(p[k]);
                if t.len() > 0 && (has_prefix(t, "http://"@) || has_prefix(t, "https://"@)) {
                    assert(prev.push(t)[i] == prev[i]);
                }
            } else {
                assert(lines[k] == lines.last());
                assert(t.len() > 0);
                assert(prev.push(t)[prev.len() as int] == t);
            }
        }
    }
}

/// Law: a sitemap that is neither an index nor an XML `urlset`, and whose
/// `url > loc` selection finds nothing, lists every line of its text that
/// gives a URL.
pub proof fn law_plain_sitemap_lists_url_lines(content: Seq<char>, locs: Option<Seq<Seq<char>>>)
    requires
        !is_sitemap_index(content),
        !contains_text(content, "<urlset"@),
        match locs {
            Some(l) => l.len() == 0,
            None => true,
        },
    ensures
        !spec_sitemap_entries(content, locs).0,
        forall|k: int|
            0 <= k < lines_of(content).len() && #[trigger] is_url_line(lines_of(content)[k])
                ==> spec_sitemap_entries(content, locs).1.contains(trim(lines_of(content)[k])),
{
    match locs {
        Some(l) => {
            assert(trimmed_all(l).len() == 0);
        },
        None => {},
    }
    law_plain_urls_complete(lines_of(content));
}

/// What each sitemap lists, by its URL: whether it is an index, and its
/// entries (as `parse_sitemap` gives them for its fetched text).
pub type SitemapListing = spec_fn(Seq<char>) -> (bool, Seq<Seq<char>>);

/// One step of a sitemap walk, with the sitemaps still to read and the page
/// URLs found so far (what `SitemapWalk::next_sitemap` followed by
/// `SitemapWalk::on_sitemap` does): the first pending sitemap is read; an
/// index puts its entries first among those pending, a sitemap of pages adds
/// its entries to the URLs found. A walk with nothing pending stays as it is.
pub open spec fn walk_step(
    w: (Seq<Seq<char>>, Seq<Seq<char>>),
    listed: SitemapListing,
) -> (Seq<Seq<char>>, Seq<Seq<char>>) {
    if w.0.len() == 0 {
        w
    } else {
        let (index, entries) = listed(w.0[0]);
        if index {
            (entries + w.0.drop_first(), w.1)
        } else {
            (w.0.drop_first(), w.1 + entries)
        }
    }
}

/// The walk after `n` steps.
pub open spec fn walk_run(
    w: (Seq<Seq<char>>, Seq<Seq<char>>),
    listed: SitemapListing,
    n: nat,
) -> (Seq<Seq<char>>, Seq<Seq<char>>)
    decreases n,
{
    if n == 0 {
        w
    } else {
        walk_step(walk_run(w, listed, (n - 1) as nat), listed)
    }
}

/// A walk from the sitemaps `pending`, with the URLs `found` so far, ends
/// after exactly `n` reads with the URLs `urls`.
pub open spec fn walk_ends(
    pending: Seq<Seq<char>>,
    found: Seq<Seq<char>>,
    listed: SitemapListing,
    n: nat,
    urls: Seq<Seq<char>>,
) -> bool {
    &&& walk_run((pending, found), listed, n) == (Seq::<Seq<char>>::empty(), urls)
    &&& forall|m: nat| m < n ==> (#[trigger] walk_run((pending, found), listed, m)).0.len() > 0
}

proof fn lemma_walk_run_add(
    w: (Seq<Seq<char>>, Seq<Seq<char>>),
    listed: SitemapListing,
    a: nat,
    b: nat,
)
    ensures
        walk_run(w, listed, a + b) == walk_run(walk_run(w, listed, a), listed, b),
    decreases b,
{
    if b > 0 {
        lemma_walk_run_add(w, listed, a, (b - 1) as nat);
        assert((a + b - 1) as nat == a + (b - 1) as nat);
    }
}

/// Walking `p + q` runs as walking `p` alone, with `q` still pending after it
/// and the URLs found before kept in front, as long as `p`'s walk has
/// sitemaps pending.
proof fn lemma_walk_frame(
    p: Seq<Seq<char>>,
    q: Seq<Seq<char>>,
    v: Seq<Seq<char>>,
    listed: SitemapListing,
    n: nat,
)
    requires
        forall|m: nat| m < n ==> (#[trigger] walk_run((p, Seq::empty()), listed, m)).0.len() > 0,
    ensures
        walk_run((p + q, v), listed, n).0 == walk_run((p, Seq::empty()), listed, n).0 + q,
        walk_run((p + q, v), listed, n).1 == v + walk_run((p, Seq::empty()), listed, n).1,
    decreases n,
{
    let e = Seq::<Seq<char>>::empty();
    if n == 0 {
        assert(v + e =~= v);
    } else {
        let k = (n - 1) as nat;
        assert forall|m: nat| m < k implies (#[trigger] walk_run((p, e), listed, m)).0.len() > 0 by {
            assert(m < n);
        }
        lemma_walk_frame(p, q, v, listed, k);
        let (pp, pu) = walk_run((p, e), listed, k);
        assert(walk_run((p, e), listed, k).0.len() > 0);
        let (index, entries) = listed(pp[0]);
        assert((pp + q)[0] == pp[0]);
        assert((pp + q).drop_first() =~= pp.drop_first() + q);
        if index {
            assert(entries + (pp.drop_first() + q) =~= (entries + pp.drop_first()) + q);
        } else {
            assert((v + pu) + entries =~= v + (pu + entries));
        }
    }
}

/// Law: one step of the walk is what `SitemapWalk::next_sitemap` followed by
/// `SitemapWalk::on_sitemap` does to the pending sitemaps and the URLs found,
/// given the listing (`sitemap_view`) of the sitemap read.
pub proof fn law_walk_step_is_one_read(
    pending: Seq<Seq<char>>,
    urls: Seq<Seq<char>>,
    listed: SitemapListing,
    content: SitemapContent,
)
    requires
        pending.len() > 0,
        listed(pending[0]) == sitemap_view(content),
    ensures
        walk_step((pending, urls), listed) == match content {
            SitemapContent::Index(locs) => (str_views(locs@) + pending.drop_first(), urls),
            SitemapContent::Pages(pages) => (pending.drop_first(), urls + str_views(pages@)),
        },
{
}

/// Law: a walk through the sitemaps `p` and then `q` gives the URLs of `p`'s
/// walk followed by those of `q`'s, after as many reads as the two take.
pub proof fn law_walk_sequence(
    p: Seq<Seq<char>>,
    q: Seq<Seq<char>>,
    listed: SitemapListing,
    n1: nat,
    r1: Seq<Seq<char>>,
    n2: nat,
    r2: Seq<Seq<char>>,
)
    requires
        walk_ends(p, Seq::empty(), listed, n1, r1),
        walk_ends(q, Seq::empty(), listed, n2, r2),
    ensures
        walk_ends(p + q, Seq::empty(), listed, n1 + n2, r1 + r2),
{
    let e = Seq::<Seq<char>>::empty();
    lemma_walk_frame(p, q, e, listed, n1);
    assert(e + r1 =~= r1);
    assert(e + q =~= q);
    lemma_walk_run_add((p + q, e), listed, n1, n2);
    lemma_walk_frame(q, e, r1, listed, n2);
    assert(q + e =~= q);
    assert(e + e =~= e);
    assert forall|m: nat| m < n1 + n2 implies (#[trigger] walk_run((p + q, e), listed, m)).0.len()
        > 0 by {
        if m < n1 {
            lemma_walk_frame(p, q, e, listed, m);
            assert forall|j: nat| j < m implies (#[trigger] walk_run((p, e), listed, j)).0.len()
                > 0 by {
                assert(j < n1);
            }
            assert(walk_run((p, e), listed, m).0.len() > 0);
        } else {
            let j = (m - n1) as nat;
            lemma_walk_run_add((p + q, e), listed, n1, j);
            assert(n1 + j == m);
            assert forall|i: nat| i < j implies (#[trigger] walk_run((q, e), listed, i)).0.len()
                > 0 by {
                assert(i < n2);
            }
            lemma_walk_frame(q, e, r1, listed, j);
            assert(walk_run((q, e), listed, j).0.len() > 0);
        }
    }
}

/// Law: the walk from a sitemap index reads the index, then walks the
/// sitemaps it lists, and gives their URLs.
pub proof fn law_walk_index(
    u: Seq<char>,
    listed: SitemapListing,
    n: nat,
    r: Seq<Seq<char>>,
)
    requires
        listed(u).0,
        walk_ends(listed(u).1, Seq::empty(), listed, n, r),
    ensures
        walk_ends(seq![u], Seq::empty(), listed, n + 1, r),
{
    let e = Seq::<Seq<char>>::empty();
    let locs = listed(u).1;
    assert(walk_run((seq![u], e), listed, 0) == (seq![u], e));
    assert(walk_run((seq![u], e), listed, 1) == walk_step((seq![u], e), listed));
    assert(locs + seq![u].drop_first() =~= locs);
    assert(walk_run((seq![u], e), listed, 1) == (locs, e));
    lemma_walk_run_add((seq![u], e), listed, 1, n);
    assert forall|m: nat| m < n + 1 implies (#[trigger] walk_run((seq![u], e), listed, m)).0.len()
        > 0 by {
        if m > 0 {
            let j = (m - 1) as nat;
            lemma_walk_run_add((seq![u], e), listed, 1, j);
            assert(1 + j == m);
        }
    }
}

/// Law: the walk from a sitemap of pages reads it once and gives its URLs.
pub proof fn law_walk_pages(u: Seq<char>, listed: SitemapListing)
    requires
        !listed(u).0,
    ensures
        walk_ends(seq![u], Seq::empty(), listed, 1, listed(u).1),
{
    let e = Seq::<Seq<char>>::empty();
    assert(seq![u].drop_first() =~= e);
    assert(e + listed(u).1 =~= listed(u).1);
    assert(walk_run((seq![u], e), listed, 0) == (seq![u], e));
    assert(walk_run((seq![u], e), listed, 1) == walk_step((seq![u], e), listed));
    assert forall|m: nat| m < 1 implies (#[trigger] walk_run((seq![u], e), listed, m)).0.len()
        > 0 by {}
}

/// The last request to a host that a map of last requests gives.
pub open spec fn last_request_to(last: Map<Seq<char>, u128>, host: Seq<char>) -> Option<u128> {
    if last.contains_key(host) {
        Some(last[host])
    } else {
        None
    }
}

/// Law: after a request to a host at `t`, waiting as the crawl state says
/// before a request to that host at `now` puts the two requests at least the
/// request delay apart (when the clock has not gone back), and the last
/// requests to other hosts stay as they were.
pub proof fn law_host_requests_spaced(
    last: Map<Seq<char>, u128>,
    host: Seq<char>,
    other: Seq<char>,
    t: u128,
    delay: u128,
    now: u128,
)
    requires
        now >= t,
    ensures
        now + spec_wait_time(last_request_to(last.insert(host, t), host), delay, now) - t >= delay,
        other != host ==> last_request_to(last.insert(host, t), other) == last_request_to(last, other),
{
    assert(last_request_to(last.insert(host, t), host) == Some(t));
    crate::utils::law_requests_spaced(t, delay, now);
}

/// Law: once a URL is marked scraped, it is refused exactly when already
/// scraped URLs are skipped; other URLs are refused as before.
pub proof fn law_scraped_then_refused(visited: Set<Seq<char>>, url: Seq<char>, other: Seq<char>, skip: bool)
    ensures
        (skip && visited.insert(url).contains(url)) == skip,
        other != url ==> (visited.insert(url).contains(other) == visited.contains(other)),
{
}

} // verus!
