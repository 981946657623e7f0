//! Scraper statistics: overall counters and counters per domain.
//!
//! Times are nanoseconds since the Unix epoch, read by the caller.
use vstd::prelude::*;

use crate::text::{chars_of, string_of};
use crate::utils::{extract_domain, spec_extract_domain};

verus! {

/// Statistics for one domain.
#[derive(Clone, Debug)]
pub struct DomainStat {
    pub domain: String,
    pub urls_processed: usize,
    pub urls_failed: usize,
    pub bytes_downloaded: usize,
    pub last_crawled: i64,
}

/// The domain, its counters and the time it was last crawled.
pub type DomainStatView = (Seq<char>, nat, nat, nat, int);

/// The view of a domain's statistics.
pub open spec fn stat_view(d: DomainStat) -> DomainStatView {
    (d.domain@, d.urls_processed as nat, d.urls_failed as nat, d.bytes_downloaded as nat, d.last_crawled as int)
}

/// The views of a sequence of domain statistics.
pub open spec fn stats_view(s: Seq<DomainStat>) -> Seq<DomainStatView> {
    s.map_values(|d: DomainStat| stat_view(d))
}

/// Statistics of a scraping run.
#[derive(Clone, Debug)]
pub struct ScraperStats {
    pub start_time: i64,
    pub urls_processed: usize,
    pub urls_failed: usize,
    pub bytes_downloaded: usize,
    pub domain_stats: Vec<DomainStat>,
}

/// The sum of the processed counts of the domains.
pub open spec fn sum_processed(s: Seq<DomainStatView>) -> nat
    decreases s.len(),
{
    if s.len() == 0 {
        0
    } else {
        sum_processed(s.drop_last()) + s.last().1
    }
}

/// The sum of the failed counts of the domains.
pub open spec fn sum_failed(s: Seq<DomainStatView>) -> nat
    decreases s.len(),
{
    if s.len() == 0 {
        0
    } else {
        sum_failed(s.drop_last()) + s.last().2
    }
}

/// The sum of the downloaded bytes of the domains.
pub open spec fn sum_bytes(s: Seq<DomainStatView>) -> nat
    decreases s.len(),
{
    if s.len() == 0 {
        0
    } else {
        sum_bytes(s.drop_last()) + s.last().3
    }
}

/// The domains are pairwise distinct.
pub open spec fn distinct_domains(s: Seq<DomainStatView>) -> bool {
    forall|i: int, j: int| 0 <= i < s.len() && 0 <= j < s.len() && i != j ==> s[i].0 != s[j].0
}

/// The index of a domain's statistics, or the number of domains when it has
/// none.
pub open spec fn index_of_domain(s: Seq<DomainStatView>, d: Seq<char>) -> int
    decreases s.len(),
{
    if s.len() == 0 {
        0
    } else if s[0].0 == d {
        0
    } else {
        1 + index_of_domain(s.drop_first(), d)
    }
}

/// The domain statistics after counting `processed`, `failed` and `bytes` for
/// domain `d` at time `now`: the domain's entry is updated, or added at the
/// end if it had none.
pub open spec fn spec_bump(
    s: Seq<DomainStatView>,
    d: Seq<char>,
    processed: nat,
    failed: nat,
    bytes: nat,
    now: int,
) -> Seq<DomainStatView> {
    let i = index_of_domain(s, d);
    if i < s.len() {
        s.update(i, (d, s[i].1 + processed, s[i].2 + failed, s[i].3 + bytes, now))
    } else {
        s.push((d, processed, failed, bytes, now))
    }
}

/// The domain a URL is counted under: its host, or `unknown`.
pub open spec fn spec_stats_domain(url: Seq<char>) -> Seq<char> {
    match spec_extract_domain(url) {
        Some(h) => h,
        None => "unknown"@,
    }
}

impl ScraperStats {
    /// The statistics are consistent: each domain appears once, and the
    /// overall counters are the sums of the domain counters.
    pub open spec fn wf(&self) -> bool {
        let ds = stats_view(self.domain_stats@);
        &&& distinct_domains(ds)
        &&& self.urls_processed == sum_processed(ds)
        &&& self.urls_failed == sum_failed(ds)
        &&& self.bytes_downloaded == sum_bytes(ds)
    }
}

proof fn lemma_index_of_domain(s: Seq<DomainStatView>, d: Seq<char>)
    ensures
        0 <= index_of_domain(s, d) <= s.len(),
        index_of_domain(s, d) < s.len() ==> s[index_of_domain(s, d)].0 == d,
        forall|j: int| 0 <= j < index_of_domain(s, d) ==> s[j].0 != d,
    decreases s.len(),
{
    if s.len() > 0 && s[0].0 != d {
        lemma_index_of_domain(s.drop_first(), d);
        assert forall|j: int| 0 <= j < index_of_domain(s, d) implies s[j].0 != d by {
            if j > 0 {
                assert(s[j] == s.drop_first()[j - 1]);
            }
        }
    }
}

proof fn lemma_sums_push(s: Seq<DomainStatView>, x: DomainStatView)
    ensures
        sum_processed(s.push(x)) == sum_processed(s) + x.1,
        sum_failed(s.push(x)) == sum_failed(s) + x.2,
        sum_bytes(s.push(x)) == sum_bytes(s) + x.3,
{
    assert(s.push(x).drop_last() =~= s);
}

proof fn lemma_sums_update(s: Seq<DomainStatView>, i: int, x: DomainStatView)
    requires
        0 <= i < s.len(),
    ensures
        sum_processed(s.update(i, x)) == sum_processed(s) - s[i].1 + x.1,
        sum_failed(s.update(i, x)) == sum_failed(s) - s[i].2 + x.2,
        sum_bytes(s.update(i, x)) == sum_bytes(s) - s[i].3 + x.3,
        s[i].1 <= sum_processed(s),
        s[i].2 <= sum_failed(s),
        s[i].3 <= sum_bytes(s),
    decreases s.len(),
{
    let t = s.update(i, x);
    if i == s.len() - 1 {
        assert(t.drop_last() =~= s.drop_last());
    } else {
        lemma_sums_update(s.drop_last(), i, x);
        assert(t.drop_last() =~= s.drop_last().update(i, x));
    }
}

/// Law: counting for a domain keeps each domain once, adds exactly the
/// counted amounts to the sums over the domains, and leaves the domain with
/// an entry.
pub proof fn law_bump(
    s: Seq<DomainStatView>,
    d: Seq<char>,
    processed: nat,
    failed: nat,
    bytes: nat,
    now: int,
)
    requires
        distinct_domains(s),
    ensures
        distinct_domains(spec_bump(s, d, processed, failed, bytes, now)),
        sum_processed(spec_bump(s, d, processed, failed, bytes, now)) == sum_processed(s) + processed,
        sum_failed(spec_bump(s, d, processed, failed, bytes, now)) == sum_failed(s) + failed,
        sum_bytes(spec_bump(s, d, processed, failed, bytes, now)) == sum_bytes(s) + bytes,
        index_of_domain(spec_bump(s, d, processed, failed, bytes, now), d) < spec_bump(
            s,
            d,
            processed,
            failed,
            bytes,
            now,
        ).len(),
{
    lemma_index_of_domain(s, d);
    let i = index_of_domain(s, d);
    let t = spec_bump(s, d, processed, failed, bytes, now);
    if i < s.len() {
        let x = (d, s[i].1 + processed, s[i].2 + failed, s[i].3 + bytes, now);
        lemma_sums_update(s, i, x);
        assert forall|a: int, b: int| 0 <= a < t.len() && 0 <= b < t.len() && a != b implies t[a].0
            != t[b].0 by {
            if a != i && b != i {
                assert(t[a] == s[a] && t[b] == s[b]);
            } else if a == i {
                assert(t[b] == s[b]);
            } else {
                assert(t[a] == s[a]);
            }
        }
        lemma_index_of_domain(t, d);
        assert(t[i].0 == d);
    } else {
        let x = (d, processed, failed, bytes, now);
        lemma_sums_push(s, x);
        assert forall|a: int, b: int| 0 <= a < t.len() && 0 <= b < t.len() && a != b implies t[a].0
            != t[b].0 by {
            if a < s.len() && b < s.len() {
                assert(t[a] == s[a] && t[b] == s[b]);
            } else if a < s.len() {
                assert(t[a] == s[a]);
            } else {
                assert(t[b] == s[b]);
            }
        }
        lemma_index_of_domain(t, d);
        assert(t[s.len() as int].0 == d);
    }
}

/// A copy of a domain's statistics.
pub fn copy_stat(d: &DomainStat) -> (r: DomainStat)
    ensures
        stat_view(r) == stat_view(*d),
{
    DomainStat {
        domain: d.domain.clone(),
        urls_processed: d.urls_processed,
        urls_failed: d.urls_failed,
        bytes_downloaded: d.bytes_downloaded,
        last_crawled: d.last_crawled,
    }
}

/// A summary of the statistics, as reported to the user.
#[derive(Clone, Debug)]
pub struct StatsReport {
    /// Whole seconds since the start, rounded toward zero.
    pub runtime_seconds: i64,
    pub domains_count: usize,
    pub urls_processed: usize,
    pub urls_failed: usize,
    pub bytes_downloaded: usize,
    /// The statistics of the first ten domains.
    pub top_domains: Vec<DomainStat>,
    /// How many domains are not among those listed.
    pub more_domains: usize,
}

/// Whole seconds in a span of nanoseconds, rounded toward zero.
pub open spec fn whole_seconds(nanos: int) -> int {
    if nanos >= 0 {
        nanos / 1_000_000_000
    } else {
        -((-nanos) / 1_000_000_000)
    }
}

impl ScraperStats {
    /// Statistics with nothing counted, started at `now`.
    pub fn new(now: i64) -> (r: Self)
        ensures
            r.wf(),
            r.start_time == now,
            r.urls_processed == 0,
            r.urls_failed == 0,
            r.bytes_downloaded == 0,
            r.domain_stats@.len() == 0,
    {
        let r = ScraperStats {
            start_time: now,
            urls_processed: 0,
            urls_failed: 0,
            bytes_downloaded: 0,
            domain_stats: Vec::new(),
        };
        assert(stats_view(r.domain_stats@) =~= Seq::<DomainStatView>::empty());
        r
    }

    /// The domain a URL is counted under: its host, or `unknown` when the URL
    /// does not parse or has no host.
    pub fn extract_domain(url: &str) -> (r: String)
        ensures
            r@ == spec_stats_domain(url@),
    {
        match extract_domain(url) {
            Some(h) => h,
            None => {
                let v = chars_of("unknown");
                string_of(&v)
            },
        }
    }

    /// The index of a domain's statistics, or the number of domains.
    fn find_domain(&self, d: &String) -> (i: usize)
        ensures
            i as int == index_of_domain(stats_view(self.domain_stats@), d@),
    {
        let ghost s = stats_view(self.domain_stats@);
        let n = self.domain_stats.len();
        assert(s.skip(0) =~= s);
        for i in 0..n
            invariant
                n == self.domain_stats.len(),
                s == stats_view(self.domain_stats@),
                index_of_domain(s, d@) == i + index_of_domain(s.skip(i as int), d@),
        {
            assert(s.skip(i as int)[0] == stat_view(self.domain_stats@[i as int]));
            if self.domain_stats[i].domain == *d {
                return i;
            }
            assert(s.skip(i as int).drop_first() =~= s.skip(i + 1));
        }
        assert(s.skip(n as int).len() == 0);
        n
    }

    /// Counts `processed`, `failed` and `bytes` for domain `d` at time `now`.
    fn bump(&mut self, d: String, processed: usize, failed: usize, bytes: usize, now: i64)
        requires
            old(self).wf(),
            processed <= 1,
            failed <= 1,
            old(self).urls_processed + processed <= usize::MAX,
            old(self).urls_failed + failed <= usize::MAX,
            old(self).bytes_downloaded + bytes <= usize::MAX,
        ensures
            final(self).wf(),
            final(self).start_time == old(self).start_time,
            final(self).urls_processed == old(self).urls_processed + processed,
            final(self).urls_failed == old(self).urls_failed + failed,
            final(self).bytes_downloaded == old(self).bytes_downloaded + bytes,
            stats_view(final(self).domain_stats@) == spec_bump(
                stats_view(old(self).domain_stats@),
                d@,
                processed as nat,
                failed as nat,
                bytes as nat,
                now as int,
            ),
    {
        let ghost s = stats_view(self.domain_stats@);
        proof {
            lemma_index_of_domain(s, d@);
        }
        let i = self.find_domain(&d);
        if i < self.domain_stats.len() {
            let old_stat = copy_stat(&self.domain_stats[i]);
            proof {
                lemma_sums_update(s, i as int, s[i as int]);
            }
            let updated = DomainStat {
                domain: d,
                urls_processed: old_stat.urls_processed + processed,
                urls_failed: old_stat.urls_failed + failed,
                bytes_downloaded: old_stat.bytes_downloaded + bytes,
                last_crawled: now,
            };
            let ghost x = stat_view(updated);
            self.domain_stats.set(i, updated);
            assert(stats_view(self.domain_stats@) =~= s.update(i as int, x));
            proof {
                law_bump(s, d@, processed as nat, failed as nat, bytes as nat, now as int);
            }
        } else {
            let stat = DomainStat {
                domain: d,
                urls_processed: processed,
                urls_failed: failed,
                bytes_downloaded: bytes,
                last_crawled: now,
            };
            let ghost x = stat_view(stat);
            self.domain_stats.push(stat);
            assert(stats_view(self.domain_stats@) =~= s.push(x));
            proof {
                law_bump(s, d@, processed as nat, failed as nat, bytes as nat, now as int);
            }
        }
        self.urls_processed = self.urls_processed + processed;
        self.urls_failed = self.urls_failed + failed;
        self.bytes_downloaded = self.bytes_downloaded + bytes;
    }

    /// Records a successful scrape of `url` that downloaded `bytes` bytes at
    /// time `now`: the overall and domain counts of processed URLs grow by
    /// one, the byte counts by `bytes`, and the domain is marked crawled at
    /// `now`.
    pub fn record_success(&mut self, url: &str, bytes: usize, now: i64)
        requires
            old(self).wf(),
            old(self).urls_processed < usize::MAX,
            old(self).bytes_downloaded + bytes <= usize::MAX,
        ensures
            final(self).wf(),
            final(self).start_time == old(self).start_time,
            final(self).urls_processed == old(self).urls_processed + 1,
            final(self).urls_failed == old(self).urls_failed,
            final(self).bytes_downloaded == old(self).bytes_downloaded + bytes,
            stats_view(final(self).domain_stats@) == spec_bump(
                stats_view(old(self).domain_stats@),
                spec_stats_domain(url@),
                1,
                0,
                bytes as nat,
                now as int,
            ),
    {
        let d = Self::extract_domain(url);
        self.bump(d, 1, 0, bytes, now);
    }

    /// Records a failed scrape of `url` at time `now`: the overall and domain
    /// counts of failed URLs grow by one, and the domain is marked crawled at
    /// `now`.
    pub fn record_failure(&mut self, url: &str, now: i64)
        requires
            old(self).wf(),
            old(self).urls_failed < usize::MAX,
        ensures
            final(self).wf(),
            final(self).start_time == old(self).start_time,
            final(self).urls_processed == old(self).urls_processed,
            final(self).urls_failed == old(self).urls_failed + 1,
            final(self).bytes_downloaded == old(self).bytes_downloaded,
            stats_view(final(self).domain_stats@) == spec_bump(
                stats_view(old(self).domain_stats@),
                spec_stats_domain(url@),
                0,
                1,
                0,
                now as int,
            ),
    {
        let d = Self::extract_domain(url);
        self.bump(d, 0, 1, 0, now);
    }

    /// The report of the statistics at time `now`: the runtime in whole
    /// seconds, the overall counters, the first ten domains and how many more
    /// there are.
    pub fn get_stats_report(&self, now: i64) -> (r: StatsReport)
        requires
            i64::MIN <= now - self.start_time <= i64::MAX,
        ensures
            r.runtime_seconds == whole_seconds(now - self.start_time),
            r.domains_count == self.domain_stats.len(),
            r.urls_processed == self.urls_processed,
            r.urls_failed == self.urls_failed,
            r.bytes_downloaded == self.bytes_downloaded,
            stats_view(r.top_domains@) == stats_view(self.domain_stats@).take(
                if self.domain_stats.len() <= 10 { self.domain_stats.len() as int } else { 10 },
            ),
            r.more_domains == if self.domain_stats.len() > 10 {
                self.domain_stats.len() - 10
            } else {
                0
            },
    {
        let span = now - self.start_time;
        let runtime_seconds = if span >= 0 {
            span / 1_000_000_000
        } else {
            -((-(span as i128)) / 1_000_000_000) as i64
        };
        let n = self.domain_stats.len();
        let k = if n <= 10 { n } else { 10 };
        let mut top: Vec<DomainStat> = Vec::new();
        for i in 0..k
            invariant
                k <= n == self.domain_stats.len(),
                stats_view(top@) == stats_view(self.domain_stats@).take(i as int),
        {
            let c = copy_stat(&self.domain_stats[i]);
            let ghost before = top@;
            top.push(c);
            assert(stats_view(top@) =~= stats_view(before).push(stat_view(self.domain_stats@[i as int])));
            assert(stats_view(top@) =~= stats_view(self.domain_stats@).take(i + 1));
        }
        StatsReport {
            runtime_seconds,
            domains_count: n,
            urls_processed: self.urls_processed,
            urls_failed: self.urls_failed,
            bytes_downloaded: self.bytes_downloaded,
            top_domains: top,
            more_domains: if n > 10 { n - 10 } else { 0 },
        }
    }
}

} // verus!
