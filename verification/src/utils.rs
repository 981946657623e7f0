//! Crawl utilities: a rate limiter, URL helpers and a tracker of visited URLs.
use vstd::prelude::*;

use crate::text::{str_eq, str_views};
use crate::urls::{
    parse_url, spec_url_host, spec_url_parse, spec_url_path, spec_url_scheme,
    spec_url_with_path, spec_url_without_fragment, url_clear_fragment, url_host, url_path,
    url_scheme, url_set_path, url_to_string,
};

verus! {

// ---------------------------------------------------------------------------
// Rate limiter
// ---------------------------------------------------------------------------
/// A rate limiter that keeps requests at least `delay` apart. Times are
/// nanoseconds on a monotonic clock that the caller reads.
pub struct RateLimiter {
    pub last_request: Option<u128>,
    pub delay: u128,
}

/// How long to wait before a request at `now`, given the time of the last
/// request and the minimal delay between two requests: what is left of the
/// delay since the last request (a clock that went back counts as no time
/// elapsed), or nothing when there was no request.
pub open spec fn spec_wait_time(last_request: Option<u128>, delay: u128, now: u128) -> u128 {
    match last_request {
        Some(last) => {
            let elapsed: int = if now >= last { now - last } else { 0 };
            if elapsed < delay { (delay - elapsed) as u128 } else { 0 }
        },
        None => 0,
    }
}

/// Law: a request made after waiting the time the limiter gives is at least
/// the delay after the previous one (when the clock has not gone back).
pub proof fn law_requests_spaced(last: u128, delay: u128, now: u128)
    requires
        now >= last,
    ensures
        now + spec_wait_time(Some(last), delay, now) - last >= delay,
        spec_wait_time(Some(last), delay, now) <= delay,
        now - last >= delay ==> spec_wait_time(Some(last), delay, now) == 0,
{
}

/// How long to wait before a request at `now`.
pub fn wait_time_for(last_request: Option<u128>, delay: u128, now: u128) -> (w: u128)
    ensures
        w == spec_wait_time(last_request, delay, now),
        w <= delay,
{
    match last_request {
        Some(last) => {
            let elapsed = if now >= last { now - last } else { 0 };
            if elapsed < delay { delay - elapsed } else { 0 }
        },
        None => 0,
    }
}

impl RateLimiter {
    /// A rate limiter that has seen no request yet.
    pub fn new(delay: u128) -> (r: Self)
        ensures
            r.last_request == None::<u128>,
            r.delay == delay,
    {
        RateLimiter { last_request: None, delay }
    }

    /// How long to wait before a request at `now`: what is left of the delay
    /// since the last request, or nothing when there was none.
    pub fn wait_time(&self, now: u128) -> (w: u128)
        ensures
            w == spec_wait_time(self.last_request, self.delay, now),
            w <= self.delay,
    {
        wait_time_for(self.last_request, self.delay, now)
    }

    /// Records that a request was made at `now`.
    pub fn record_request(&mut self, now: u128)
        ensures
            final(self).last_request == Some(now),
            final(self).delay == old(self).delay,
    {
        self.last_request = Some(now);
    }
}

// ---------------------------------------------------------------------------
// URL helpers
// ---------------------------------------------------------------------------
/// The host of a URL, when it parses and has one.
pub open spec fn spec_extract_domain(s: Seq<char>) -> Option<Seq<char>> {
    match spec_url_parse(s) {
        Ok(u) => spec_url_host(u),
        Err(_) => None,
    }
}

/// A scheme that the crawler fetches.
pub open spec fn is_web_scheme_spec(scheme: Seq<char>) -> bool {
    scheme == "http"@ || scheme == "https"@
}

/// A URL parses and its scheme is `http` or `https`.
pub open spec fn spec_is_valid_url(s: Seq<char>) -> bool {
    match spec_url_parse(s) {
        Ok(u) => is_web_scheme_spec(spec_url_scheme(u)),
        Err(_) => false,
    }
}

/// The form of a parsed URL that is compared: without its fragment, and with
/// an empty path set where the path was `/`.
pub open spec fn spec_comparison_form(u: Seq<char>) -> Seq<char> {
    let a = spec_url_without_fragment(u);
    if spec_url_path(a) == "/"@ {
        spec_url_with_path(a, ""@)
    } else {
        a
    }
}

/// The normalized form of a URL, when it parses.
pub open spec fn spec_normalize_for_comparison(s: Seq<char>) -> Option<Seq<char>> {
    match spec_url_parse(s) {
        Ok(u) => Some(spec_comparison_form(u)),
        Err(_) => None,
    }
}

/// Extracts the domain (host) from a URL.
pub fn extract_domain(url_str: &str) -> (r: Option<String>)
    ensures
        match r {
            Some(h) => spec_extract_domain(url_str@) == Some(h@),
            None => spec_extract_domain(url_str@) == None::<Seq<char>>,
        },
{
    match parse_url(url_str) {
        Ok(u) => url_host(&u),
        Err(_) => None,
    }
}

/// Whether a scheme is one that the crawler fetches.
pub fn is_web_scheme(scheme: &str) -> (b: bool)
    ensures
        b == is_web_scheme_spec(scheme@),
{
    str_eq(scheme, "http") || str_eq(scheme, "https")
}

/// Checks that a URL parses and is an `http` or `https` URL.
pub fn is_valid_url(url_str: &str) -> (b: bool)
    ensures
        b == spec_is_valid_url(url_str@),
{
    match parse_url(url_str) {
        Ok(u) => {
            let scheme = url_scheme(&u);
            is_web_scheme(scheme.as_str())
        },
        Err(_) => false,
    }
}

/// Whether a path is the root path `/`.
pub fn is_root_path(path: &str) -> (b: bool)
    ensures
        b == (path@ == "/"@),
{
    str_eq(path, "/")
}

/// The normalized form of a URL, used to compare URLs: the fragment is
/// removed and a root path `/` is set to the empty path.
pub fn normalize_url_for_comparison(url_str: &str) -> (r: Option<String>)
    ensures
        match r {
            Some(n) => spec_normalize_for_comparison(url_str@) == Some(n@),
            None => spec_normalize_for_comparison(url_str@) == None::<Seq<char>>,
        },
{
    match parse_url(url_str) {
        Ok(u) => {
            let mut u = u;
            url_clear_fragment(&mut u);
            let path = url_path(&u);
            if is_root_path(path.as_str()) {
                url_set_path(&mut u, "");
            }
            Some(url_to_string(&u))
        },
        Err(_) => None,
    }
}

// ---------------------------------------------------------------------------
// Visited URLs
// ---------------------------------------------------------------------------
/// Whether a string occurs in a vector of strings.
pub fn contains_string(v: &Vec<String>, s: &String) -> (r: bool)
    ensures
        r == str_views(v@).contains(s@),
{
    let n = v.len();
    for i in 0..n
        invariant
            n == v.len(),
            forall|j: int| 0 <= j < i ==> v@[j]@ != s@,
    {
        if v[i] == *s {
            assert(str_views(v@)[i as int] == s@);
            return true;
        }
    }
    assert forall|j: int| 0 <= j < str_views(v@).len() implies str_views(v@)[j] != s@ by {}
    false
}

/// Whether a URL counts as visited, given the normalized URLs visited: its
/// normalized form is among them (a URL that does not parse is not visited).
pub open spec fn spec_is_visited(visited: Seq<Seq<char>>, url: Seq<char>) -> bool {
    match spec_normalize_for_comparison(url) {
        Some(n) => visited.contains(n),
        None => false,
    }
}

/// The normalized URLs visited after marking a URL: its normalized form is
/// added unless already there (a URL that does not parse changes nothing).
pub open spec fn spec_mark_visited(visited: Seq<Seq<char>>, url: Seq<char>) -> Seq<Seq<char>> {
    match spec_normalize_for_comparison(url) {
        Some(n) => if visited.contains(n) {
            visited
        } else {
            visited.push(n)
        },
        None => visited,
    }
}

/// Law: a URL that parses counts as visited once it has been marked, and
/// marking it again changes nothing.
pub proof fn law_mark_then_visited(visited: Seq<Seq<char>>, url: Seq<char>)
    ensures
        spec_normalize_for_comparison(url) is Some ==> spec_is_visited(
            spec_mark_visited(visited, url),
            url,
        ),
        spec_mark_visited(spec_mark_visited(visited, url), url) == spec_mark_visited(visited, url),
{
    match spec_normalize_for_comparison(url) {
        Some(n) => {
            if !visited.contains(n) {
                assert(visited.push(n)[visited.len() as int] == n);
            }
        },
        None => {},
    }
}

/// Law: marking a URL leaves every URL visited before still visited, and adds
/// no other URL than its normalized form.
pub proof fn law_mark_monotone(visited: Seq<Seq<char>>, url: Seq<char>, other: Seq<char>)
    ensures
        visited.contains(other) ==> spec_mark_visited(visited, url).contains(other),
        spec_mark_visited(visited, url).contains(other) ==> visited.contains(other)
            || spec_normalize_for_comparison(url) == Some(other),
{
    match spec_normalize_for_comparison(url) {
        Some(n) => {
            if !visited.contains(n) {
                let t = visited.push(n);
                if visited.contains(other) {
                    let j = choose|j: int| 0 <= j < visited.len() && visited[j] == other;
                    assert(t[j] == other);
                }
                if t.contains(other) && other != n {
                    let j = choose|j: int| 0 <= j < t.len() && t[j] == other;
                    assert(visited[j] == other);
                }
            }
        },
        None => {},
    }
}

/// The set of URLs already visited, kept in their normalized form, each once.
pub struct VisitedTracker {
    visited: Vec<String>,
}

impl View for VisitedTracker {
    type V = Seq<Seq<char>>;

    /// The normalized URLs visited, in the order they were first marked.
    closed spec fn view(&self) -> Seq<Seq<char>> {
        str_views(self.visited@)
    }
}

impl VisitedTracker {
    #[verifier::type_invariant]
    spec fn distinct(&self) -> bool {
        str_views(self.visited@).no_duplicates()
    }

    /// A tracker that has visited nothing.
    pub fn new() -> (r: Self)
        ensures
            r@ == Seq::<Seq<char>>::empty(),
            r@.no_duplicates(),
    {
        let r = VisitedTracker { visited: Vec::new() };
        assert(str_views(r.visited@) =~= Seq::<Seq<char>>::empty());
        r
    }

    /// Whether the normalized form of a URL has been visited; a URL that does
    /// not parse has not.
    pub fn is_visited(&self, url: &str) -> (b: bool)
        ensures
            b == spec_is_visited(self@, url@),
    {
        match normalize_url_for_comparison(url) {
            Some(n) => contains_string(&self.visited, &n),
            None => false,
        }
    }

    /// Marks the normalized form of a URL as visited; a URL that does not
    /// parse is ignored, and one already visited changes nothing.
    pub fn mark_visited(&mut self, url: &str)
        ensures
            final(self)@ == spec_mark_visited(old(self)@, url@),
            final(self)@.no_duplicates(),
    {
        proof {
            use_type_invariant(&*self);
        }
        match normalize_url_for_comparison(url) {
            Some(n) => {
                if !contains_string(&self.visited, &n) {
                    let ghost before = str_views(self.visited@);
                    let mut v: Vec<String> = Vec::new();
                    std::mem::swap(&mut v, &mut self.visited);
                    let ghost nv = n@;
                    v.push(n);
                    assert(str_views(v@) =~= before.push(nv));
                    assert(before.push(nv).no_duplicates()) by {
                        assert forall|i: int, j: int|
                            0 <= i < before.len() + 1 && 0 <= j < before.len() + 1 && i != j
                            implies before.push(nv)[i] != before.push(nv)[j] by {
                            if i == before.len() {
                                assert(!before.contains(nv));
                                assert(before[j] == before.push(nv)[j]);
                            } else if j == before.len() {
                                assert(!before.contains(nv));
                                assert(before[i] == before.push(nv)[i]);
                            }
                        }
                    }
                    self.visited = v;
                }
            },
            None => {},
        }
        proof {
            use_type_invariant(&*self);
        }
    }

    /// The number of distinct normalized URLs visited.
    pub fn visited_count(&self) -> (n: usize)
        ensures
            n == self@.len(),
    {
        self.visited.len()
    }
}

} // verus!
