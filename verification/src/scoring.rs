//! The integer side of search result scoring: keyword proximity clusters and
//! distances, the term counts that TF-IDF weights are computed from, and the
//! highest website rank.
//!
//! The scores themselves are floating-point combinations of these counts.
use vstd::prelude::*;

use crate::text::str_views;
use crate::utils::contains_string;

verus! {

/// A query keyword as found on a website.
#[derive(Clone, Debug)]
pub struct Keyword {
    /// The (lemmatized) word.
    pub word: String,
    /// Its position in the website's text.
    pub position: i32,
    /// How often it occurs on the website.
    pub occurrences: i32,
    /// The number of words on the website.
    pub word_count: i32,
    /// The number of documents that contain the word.
    pub documents_containing_word: i32,
}

/// A website that search results list.
#[derive(Clone, Debug)]
pub struct Website {
    pub title: String,
    pub description: String,
    pub url: String,
    pub rank: i32,
}

/// The query keywords found on one website, with the website.
#[derive(Clone, Debug)]
pub struct WebsiteKeywordsEntry {
    pub keywords: Vec<Keyword>,
    pub website: Website,
}

/// The query keywords found on each website.
pub type WebsiteKeywords = Vec<WebsiteKeywordsEntry>;

/// The words of the keywords, in order.
pub open spec fn keyword_words(ks: Seq<Keyword>) -> Seq<Seq<char>> {
    ks.map_values(|k: Keyword| k.word@)
}

/// The positions of the keywords, in order.
pub open spec fn keyword_positions(ks: Seq<Keyword>) -> Seq<i32> {
    ks.map_values(|k: Keyword| k.position)
}

// ---------------------------------------------------------------------------
// Proximity
// ---------------------------------------------------------------------------
/// The clusters closed so far (their sizes) and the words of the open
/// cluster, for a scan of the keyword words: a word already in the open
/// cluster closes it and opens a new cluster of that word.
pub open spec fn cluster_scan(ws: Seq<Seq<char>>) -> (Seq<nat>, Seq<Seq<char>>)
    decreases ws.len(),
{
    if ws.len() == 0 {
        (Seq::empty(), Seq::empty())
    } else {
        let (sizes, cur) = cluster_scan(ws.drop_last());
        let w = ws.last();
        if cur.contains(w) {
            (sizes.push(cur.len()), seq![w])
        } else {
            (sizes, cur.push(w))
        }
    }
}

/// The sizes of the closed clusters of the keyword words (the open cluster at
/// the end is not counted).
pub open spec fn cluster_sizes(ws: Seq<Seq<char>>) -> Seq<nat> {
    cluster_scan(ws).0
}

/// The gap between the keywords at `i` and `i + 1`: the number of words
/// between them, counted as nothing when larger than `limit`.
pub open spec fn counted_gap(pos: Seq<i32>, limit: int, i: int) -> int {
    let d = pos[i + 1] - pos[i] - 1;
    if d > limit {
        0
    } else {
        d
    }
}

/// The sum of the counted gaps between the first `n + 1` keywords.
pub open spec fn total_gap(pos: Seq<i32>, limit: int, n: int) -> int
    decreases n,
{
    if n <= 0 {
        0
    } else {
        total_gap(pos, limit, n - 1) + counted_gap(pos, limit, n - 1)
    }
}

/// The gap limit for a query: its number of words, as an `i32` (wrapping).
pub open spec fn gap_limit(query_len: nat) -> int {
    (query_len as i32) as int
}

/// The gap arithmetic stays within `i32`: each difference of consecutive
/// positions, each gap, and each partial sum of counted gaps.
pub open spec fn gaps_fit_i32(pos: Seq<i32>, limit: int) -> bool {
    &&& forall|i: int|
        0 <= i < pos.len() - 1 ==> i32::MIN <= #[trigger] pos[i + 1] - pos[i] <= i32::MAX
            && i32::MIN <= pos[i + 1] - pos[i] - 1
    &&& forall|n: int| 0 <= n < pos.len() ==> i32::MIN <= #[trigger] total_gap(pos, limit, n) <= i32::MAX
}

/// The counts that the proximity score of a website is computed from.
#[derive(Clone, Debug)]
pub struct ProximityParts {
    /// The sizes of the closed keyword clusters, in order.
    pub cluster_sizes: Vec<usize>,
    /// The sum of the counted gaps between consecutive keywords.
    pub total_distance: i32,
    /// The number of keywords.
    pub keyword_count: usize,
    /// The number of words in the query.
    pub query_len: usize,
}

/// Whether the proximity parts are those of the given query and keywords.
pub open spec fn is_proximity_of(p: ProximityParts, query_len: nat, ks: Seq<Keyword>) -> bool {
    &&& p.cluster_sizes@.map_values(|s: usize| s as nat) == cluster_sizes(keyword_words(ks))
    &&& p.total_distance == total_gap(
        keyword_positions(ks),
        gap_limit(query_len),
        ks.len() - 1,
    )
    &&& p.keyword_count == ks.len()
    &&& p.query_len == query_len
}

/// The proximity counts of one website for a query: the keyword clusters
/// and the total gap between consecutive keywords.
pub fn get_website_proximity(lemmatized_query: &Vec<String>, keywords: &Vec<Keyword>) -> (r:
    ProximityParts)
    requires
        keywords.len() > 0,
        gaps_fit_i32(keyword_positions(keywords@), gap_limit(lemmatized_query.len() as nat)),
    ensures
        is_proximity_of(r, lemmatized_query.len() as nat, keywords@),
{
    let ghost ws = keyword_words(keywords@);
    let n = keywords.len();
    let mut sizes: Vec<usize> = Vec::new();
    let mut current: Vec<String> = Vec::new();
    assert(ws.take(0) =~= Seq::<Seq<char>>::empty());
    for i in 0..n
        invariant
            n == keywords.len(),
            ws == keyword_words(keywords@),
            sizes@.map_values(|s: usize| s as nat) == cluster_scan(ws.take(i as int)).0,
            str_views(current@) == cluster_scan(ws.take(i as int)).1,
            current.len() <= i,
    {
        let word = &keywords[i].word;
        assert(ws.take(i + 1).drop_last() =~= ws.take(i as int));
        assert(ws.take(i + 1).last() == word@);
        if contains_string(&current, word) {
            let ghost before = sizes@;
            sizes.push(current.len());
            assert(sizes@.map_values(|s: usize| s as nat) =~= before.map_values(
                |s: usize| s as nat,
            ).push(current.len() as nat));
            current = Vec::new();
            current.push(word.clone());
            assert(str_views(current@) =~= seq![word@]);
        } else {
            let ghost before = current@;
            current.push(word.clone());
            assert(str_views(current@) =~= str_views(before).push(word@));
        }
    }
    assert(ws.take(n as int) =~= ws);
    let ghost pos = keyword_positions(keywords@);
    let limit = lemmatized_query.len() as i32;
    let mut total: i32 = 0;
    for i in 0..n - 1
        invariant
            n == keywords.len(),
            n > 0,
            pos == keyword_positions(keywords@),
            limit as int == gap_limit(lemmatized_query.len() as nat),
            gaps_fit_i32(pos, limit as int),
            total as int == total_gap(pos, limit as int, i as int),
    {
        let position = keywords[i].position;
        let next_position = keywords[i + 1].position;
        assert(pos[i as int] == position && pos[i + 1] == next_position);
        assert(i32::MIN <= pos[i + 1] - pos[i as int] <= i32::MAX);
        let distance = next_position - position - 1;
        assert(total_gap(pos, limit as int, i + 1) == total + counted_gap(pos, limit as int, i as int));
        assert(i32::MIN <= total_gap(pos, limit as int, i + 1) <= i32::MAX);
        if distance <= limit {
            total = total + distance;
        }
    }
    ProximityParts {
        cluster_sizes: sizes,
        total_distance: total,
        keyword_count: n,
        query_len: lemmatized_query.len(),
    }
}

/// The proximity counts of each website for a query, in order.
pub fn get_proximities(lemmatized_query: &Vec<String>, website_keywords: &WebsiteKeywords) -> (r:
    Vec<ProximityParts>)
    requires
        forall|i: int|
            0 <= i < website_keywords.len() ==> {
                let ks = (#[trigger] website_keywords@[i]).keywords@;
                &&& ks.len() > 0
                &&& gaps_fit_i32(keyword_positions(ks), gap_limit(lemmatized_query.len() as nat))
            },
    ensures
        r.len() == website_keywords.len(),
        forall|i: int|
            0 <= i < r.len() ==> is_proximity_of(
                #[trigger] r@[i],
                lemmatized_query.len() as nat,
                website_keywords@[i].keywords@,
            ),
{
    let mut out: Vec<ProximityParts> = Vec::new();
    let n = website_keywords.len();
    for i in 0..n
        invariant
            n == website_keywords.len(),
            out.len() == i,
            forall|i: int|
                0 <= i < website_keywords.len() ==> {
                    let ks = (#[trigger] website_keywords@[i]).keywords@;
                    &&& ks.len() > 0
                    &&& gaps_fit_i32(keyword_positions(ks), gap_limit(lemmatized_query.len() as nat))
                },
            forall|j: int|
                0 <= j < i ==> is_proximity_of(
                    #[trigger] out@[j],
                    lemmatized_query.len() as nat,
                    website_keywords@[j].keywords@,
                ),
    {
        let p = get_website_proximity(lemmatized_query, &website_keywords[i].keywords);
        out.push(p);
    }
    out
}

// ---------------------------------------------------------------------------
// TF-IDF inputs
// ---------------------------------------------------------------------------
/// How often a word occurs in a sequence of words.
pub open spec fn count_of(q: Seq<Seq<char>>, w: Seq<char>) -> nat
    decreases q.len(),
{
    if q.len() == 0 {
        0
    } else {
        count_of(q.drop_last(), w) + if q.last() == w {
            1nat
        } else {
            0nat
        }
    }
}

/// How often a word occurs in the query.
pub fn count_word(query: &Vec<String>, word: &String) -> (n: usize)
    ensures
        n == count_of(str_views(query@), word@),
{
    let ghost q = str_views(query@);
    let len = query.len();
    let mut n: usize = 0;
    assert(q.take(0) =~= Seq::<Seq<char>>::empty());
    for i in 0..len
        invariant
            len == query.len(),
            q == str_views(query@),
            n == count_of(q.take(i as int), word@),
            n <= i,
    {
        assert(q.take(i + 1).drop_last() =~= q.take(i as int));
        if query[i] == *word {
            n = n + 1;
        }
    }
    assert(q.take(len as int) =~= q);
    n
}

/// The counts that the TF-IDF weight of a keyword is computed from.
#[derive(Clone, Debug)]
pub struct TermCounts {
    /// How often the word occurs on the website.
    pub occurrences: i32,
    /// The number of words on the website.
    pub word_count: i32,
    /// The number of documents that contain the word.
    pub documents_containing_word: i32,
    /// How often the word occurs in the query.
    pub query_occurrences: usize,
}

/// Whether the term counts are those of a keyword for a query.
pub open spec fn is_term_counts_of(t: TermCounts, query: Seq<Seq<char>>, k: Keyword) -> bool {
    &&& t.occurrences == k.occurrences
    &&& t.word_count == k.word_count
    &&& t.documents_containing_word == k.documents_containing_word
    &&& t.query_occurrences == count_of(query, k.word@)
}

/// The term counts of the keywords of one website, with the website.
#[derive(Clone, Debug)]
pub struct WebsiteTerms {
    pub terms: Vec<TermCounts>,
    pub website: Website,
}

/// Every keyword of every website is a word of the query.
pub open spec fn keywords_in_query(query: Seq<Seq<char>>, wk: Seq<WebsiteKeywordsEntry>) -> bool {
    forall|i: int, j: int|
        0 <= i < wk.len() && 0 <= j < wk[i].keywords@.len() ==> query.contains(
            #[trigger] wk[i].keywords@[j].word@,
        )
}

/// A copy of a website.
pub fn copy_website(w: &Website) -> (r: Website)
    ensures
        r.title@ == w.title@,
        r.description@ == w.description@,
        r.url@ == w.url@,
        r.rank == w.rank,
{
    Website {
        title: w.title.clone(),
        description: w.description.clone(),
        url: w.url.clone(),
        rank: w.rank,
    }
}

/// The term counts of each keyword of each website for a query, in order;
/// the query's own term frequency of a keyword is its count in the query
/// over the query's length.
pub fn tf_idf_terms(lemmatized_query: &Vec<String>, website_keywords: &WebsiteKeywords) -> (r: Vec<
    WebsiteTerms,
>)
    requires
        keywords_in_query(str_views(lemmatized_query@), website_keywords@),
    ensures
        r.len() == website_keywords.len(),
        forall|i: int|
            0 <= i < r.len() ==> {
                &&& (#[trigger] r@[i]).terms.len() == website_keywords@[i].keywords.len()
                &&& r@[i].website.url@ == website_keywords@[i].website.url@
                &&& r@[i].website.title@ == website_keywords@[i].website.title@
                &&& r@[i].website.description@ == website_keywords@[i].website.description@
                &&& r@[i].website.rank == website_keywords@[i].website.rank
                &&& forall|j: int|
                    0 <= j < r@[i].terms.len() ==> is_term_counts_of(
                        #[trigger] r@[i].terms@[j],
                        str_views(lemmatized_query@),
                        website_keywords@[i].keywords@[j],
                    )
            },
{
    let mut out: Vec<WebsiteTerms> = Vec::new();
    let n = website_keywords.len();
    for i in 0..n
        invariant
            n == website_keywords.len(),
            out.len() == i,
            forall|a: int|
                0 <= a < i ==> {
                    &&& (#[trigger] out@[a]).terms.len() == website_keywords@[a].keywords.len()
                    &&& out@[a].website.url@ == website_keywords@[a].website.url@
                    &&& out@[a].website.title@ == website_keywords@[a].website.title@
                    &&& out@[a].website.description@ == website_keywords@[a].website.description@
                    &&& out@[a].website.rank == website_keywords@[a].website.rank
                    &&& forall|j: int|
                        0 <= j < out@[a].terms.len() ==> is_term_counts_of(
                            #[trigger] out@[a].terms@[j],
                            str_views(lemmatized_query@),
                            website_keywords@[a].keywords@[j],
                        )
                },
    {
        let entry = &website_keywords[i];
        let m = entry.keywords.len();
        let mut terms: Vec<TermCounts> = Vec::new();
        for j in 0..m
            invariant
                m == entry.keywords.len(),
                terms.len() == j,
                forall|b: int|
                    0 <= b < j ==> is_term_counts_of(
                        #[trigger] terms@[b],
                        str_views(lemmatized_query@),
                        entry.keywords@[b],
                    ),
        {
            let k = &entry.keywords[j];
            let q = count_word(lemmatized_query, &k.word);
            terms.push(
                TermCounts {
                    occurrences: k.occurrences,
                    word_count: k.word_count,
                    documents_containing_word: k.documents_containing_word,
                    query_occurrences: q,
                },
            );
        }
        let website = copy_website(&entry.website);
        out.push(WebsiteTerms { terms, website });
    }
    out
}

// ---------------------------------------------------------------------------
// Rank
// ---------------------------------------------------------------------------
/// The highest rank of the websites.
pub fn max_rank(website_keywords: &WebsiteKeywords) -> (r: i32)
    requires
        website_keywords.len() > 0,
    ensures
        forall|i: int| 0 <= i < website_keywords.len() ==> #[trigger] website_keywords@[i].website.rank <= r,
        exists|i: int| 0 <= i < website_keywords.len() && #[trigger] website_keywords@[i].website.rank == r,
{
    let n = website_keywords.len();
    let mut best = website_keywords[0].website.rank;
    for i in 1..n
        invariant
            n == website_keywords.len(),
            forall|j: int| 0 <= j < i ==> #[trigger] website_keywords@[j].website.rank <= best,
            exists|j: int| 0 <= j < i && #[trigger] website_keywords@[j].website.rank == best,
    {
        if website_keywords[i].website.rank >= best {
            best = website_keywords[i].website.rank;
        }
    }
    best
}

} // verus!

verus! {

/// The sum of a sequence of counts.
pub open spec fn sum_nat(s: Seq<nat>) -> nat
    decreases s.len(),
{
    if s.len() == 0 {
        0
    } else {
        sum_nat(s.drop_last()) + s.last()
    }
}

proof fn lemma_cluster_scan(ws: Seq<Seq<char>>)
    ensures
        sum_nat(cluster_scan(ws).0) + cluster_scan(ws).1.len() == ws.len(),
        ws.len() > 0 ==> cluster_scan(ws).1.len() > 0,
        forall|j: int| 0 <= j < cluster_scan(ws).0.len() ==> #[trigger] cluster_scan(ws).0[j] >= 1,
    decreases ws.len(),
{
    if ws.len() > 0 {
        let p = ws.drop_last();
        lemma_cluster_scan(p);
        let (sizes, cur) = cluster_scan(p);
        let w = ws.last();
        if cur.contains(w) {
            let t = sizes.push(cur.len());
            assert(t.drop_last() =~= sizes);
            assert forall|j: int| 0 <= j < t.len() implies #[trigger] t[j] >= 1 by {
                if j < sizes.len() {
                    assert(t[j] == sizes[j]);
                }
            }
        }
    }
}

/// Law: every closed keyword cluster holds at least one keyword, and the
/// closed clusters together hold fewer keywords than there are (the last
/// cluster stays open).
pub proof fn law_cluster_sizes(ws: Seq<Seq<char>>)
    ensures
        forall|j: int| 0 <= j < cluster_sizes(ws).len() ==> #[trigger] cluster_sizes(ws)[j] >= 1,
        ws.len() > 0 ==> sum_nat(cluster_sizes(ws)) < ws.len(),
        cluster_sizes(ws).len() <= ws.len(),
{
    lemma_cluster_scan(ws);
    lemma_sum_at_least_len(cluster_sizes(ws));
}

/// Where closed cluster `j` starts among the keyword words: after the
/// clusters before it.
pub open spec fn cluster_start(sizes: Seq<nat>, j: int) -> nat {
    sum_nat(sizes.take(j))
}

proof fn lemma_sum_take_push(s: Seq<nat>, x: nat, j: int)
    requires
        0 <= j <= s.len(),
    ensures
        sum_nat(s.push(x).take(j)) == sum_nat(s.take(j)),
        sum_nat(s.push(x)) == sum_nat(s) + x,
{
    assert(s.push(x).take(j) =~= s.take(j));
    assert(s.push(x).drop_last() =~= s);
}

proof fn lemma_sum_take_next(s: Seq<nat>, j: int)
    requires
        0 <= j < s.len(),
    ensures
        sum_nat(s.take(j + 1)) == sum_nat(s.take(j)) + s[j],
        sum_nat(s.take(s.len() as int)) == sum_nat(s),
{
    assert(s.take(j + 1).drop_last() =~= s.take(j));
    assert(s.take(s.len() as int) =~= s);
}

/// The scan splits the words into consecutive clusters: each closed one
/// holds distinct words and the word right after it is one of them; the
/// open one is the rest of the words, also distinct.
proof fn lemma_cluster_scan_split(ws: Seq<Seq<char>>)
    ensures
        ({
            let (sizes, cur) = cluster_scan(ws);
            &&& sum_nat(sizes) + cur.len() == ws.len()
            &&& cur == ws.subrange(sum_nat(sizes) as int, ws.len() as int)
            &&& cur.no_duplicates()
            &&& forall|j: int| 0 <= j < sizes.len() ==> {
                let a = #[trigger] cluster_start(sizes, j);
                let b = a + sizes[j];
                &&& b < ws.len()
                &&& b <= sum_nat(sizes)
                &&& ws.subrange(a as int, b as int).no_duplicates()
                &&& ws.subrange(a as int, b as int).contains(ws[b as int])
            }
        }),
    decreases ws.len(),
{
    lemma_cluster_scan(ws);
    if ws.len() == 0 {
        assert(ws.subrange(0, 0) =~= Seq::<Seq<char>>::empty());
    } else {
        let p = ws.drop_last();
        lemma_cluster_scan_split(p);
        let (sizes, cur) = cluster_scan(p);
        let w = ws.last();
        let n = p.len() as int;
        assert forall|a: int, b: int| 0 <= a <= b <= n implies #[trigger] ws.subrange(a, b)
            == p.subrange(a, b) by {
            assert(ws.subrange(a, b) =~= p.subrange(a, b));
        }
        if cur.contains(w) {
            let sizes2 = sizes.push(cur.len());
            lemma_sum_take_push(sizes, cur.len(), 0);
            assert(sum_nat(sizes2) == n);
            assert(seq![w] =~= ws.subrange(n as int, ws.len() as int));
            assert(seq![w].no_duplicates());
            assert forall|j: int| 0 <= j < sizes2.len() implies {
                let a = #[trigger] cluster_start(sizes2, j);
                let b = a + sizes2[j];
                &&& b < ws.len()
                &&& b <= sum_nat(sizes2)
                &&& ws.subrange(a as int, b as int).no_duplicates()
                &&& ws.subrange(a as int, b as int).contains(ws[b as int])
            } by {
                lemma_sum_take_push(sizes, cur.len(), j);
                if j < sizes.len() {
                    let a = cluster_start(sizes, j);
                    let b = a + sizes[j];
                    assert(sizes2[j] == sizes[j]);
                    assert(ws[b as int] == p[b as int]);
                } else {
                    assert(cluster_start(sizes2, j) == sum_nat(sizes));
                    assert(sizes2[j] == cur.len());
                    assert(ws.subrange(sum_nat(sizes) as int, n as int) == cur);
                    assert(ws[n as int] == w);
                }
            }
        } else {
            let cur2 = cur.push(w);
            assert(cur2 =~= ws.subrange(sum_nat(sizes) as int, ws.len() as int));
            assert(cur2.no_duplicates()) by {
                assert forall|i: int, j: int| 0 <= i < cur2.len() && 0 <= j < cur2.len() && i != j implies cur2[i]
                    != cur2[j] by {
                    if i < cur.len() && j < cur.len() {
                    } else if i < cur.len() {
                        assert(cur2[j] == w);
                        assert(cur2[i] == cur[i]);
                    } else {
                        assert(cur2[i] == w);
                        assert(cur2[j] == cur[j]);
                    }
                }
            }
            assert forall|j: int| 0 <= j < sizes.len() implies {
                let a = #[trigger] cluster_start(sizes, j);
                let b = a + sizes[j];
                &&& b < ws.len()
                &&& b <= sum_nat(sizes)
                &&& ws.subrange(a as int, b as int).no_duplicates()
                &&& ws.subrange(a as int, b as int).contains(ws[b as int])
            } by {
                let a = cluster_start(sizes, j);
                let b = a + sizes[j];
                assert(ws[b as int] == p[b as int]);
            }
        }
    }
}

/// Law: the proximity scan splits a website's keyword words into consecutive
/// clusters; each closed cluster holds distinct words (so no more words
/// than there are distinct keywords) and is closed by the next keyword,
/// which already occurs in it; the words after the last closed cluster are
/// distinct too.
pub proof fn law_clusters_distinct(ws: Seq<Seq<char>>)
    ensures
        forall|j: int| 0 <= j < cluster_sizes(ws).len() ==> {
            let a = #[trigger] cluster_start(cluster_sizes(ws), j);
            let b = a + cluster_sizes(ws)[j];
            &&& b < ws.len()
            &&& ws.subrange(a as int, b as int).no_duplicates()
            &&& ws.subrange(a as int, b as int).contains(ws[b as int])
            &&& ws.subrange(a as int, b as int).to_set().len() == cluster_sizes(ws)[j]
        },
        ws.subrange(sum_nat(cluster_sizes(ws)) as int, ws.len() as int).no_duplicates(),
        cluster_start(cluster_sizes(ws), cluster_sizes(ws).len() as int) == sum_nat(cluster_sizes(ws)),
{
    lemma_cluster_scan_split(ws);
    let sizes = cluster_sizes(ws);
    assert(sizes.take(sizes.len() as int) =~= sizes);
    assert forall|j: int| 0 <= j < sizes.len() implies {
        let a = #[trigger] cluster_start(sizes, j);
        let b = a + sizes[j];
        &&& b < ws.len()
        &&& ws.subrange(a as int, b as int).no_duplicates()
        &&& ws.subrange(a as int, b as int).contains(ws[b as int])
        &&& ws.subrange(a as int, b as int).to_set().len() == sizes[j]
    } by {
        let a = cluster_start(sizes, j);
        let b = a + sizes[j];
        ws.subrange(a as int, b as int).unique_seq_to_set();
    }
}

/// Law: when every keyword is a word of the query, no closed cluster holds
/// more words than the query has distinct words.
pub proof fn law_cluster_size_at_most_query(ws: Seq<Seq<char>>, q: Seq<Seq<char>>)
    requires
        forall|i: int| 0 <= i < ws.len() ==> q.contains(#[trigger] ws[i]),
    ensures
        forall|j: int|
            0 <= j < cluster_sizes(ws).len() ==> #[trigger] cluster_sizes(ws)[j] <= q.to_set().len(),
{
    law_clusters_distinct(ws);
    let sizes = cluster_sizes(ws);
    assert forall|j: int| 0 <= j < sizes.len() implies #[trigger] sizes[j] <= q.to_set().len() by {
        let a = cluster_start(sizes, j);
        let b = a + sizes[j];
        let seg = ws.subrange(a as int, b as int);
        assert(seg.to_set().len() == sizes[j]);
        assert(seg.to_set().subset_of(q.to_set())) by {
            assert forall|x: Seq<char>| seg.to_set().contains(x) implies q.to_set().contains(x) by {
                let i = choose|i: int| 0 <= i < seg.len() && seg[i] == x;
                assert(seg[i] == ws[a + i]);
                assert(q.contains(ws[a + i]));
            }
        }
        vstd::set_lib::lemma_len_subset(seg.to_set(), q.to_set());
    }
}

proof fn lemma_sum_at_least_len(s: Seq<nat>)
    requires
        forall|j: int| 0 <= j < s.len() ==> #[trigger] s[j] >= 1,
    ensures
        sum_nat(s) >= s.len(),
    decreases s.len(),
{
    if s.len() > 0 {
        let p = s.drop_last();
        assert forall|j: int| 0 <= j < p.len() implies #[trigger] p[j] >= 1 by {
            assert(p[j] == s[j]);
        }
        lemma_sum_at_least_len(p);
    }
}

/// The sum of the counts in `q` of the words in `ws`.
pub open spec fn sum_counts(ws: Seq<Seq<char>>, q: Seq<Seq<char>>) -> nat
    decreases ws.len(),
{
    if ws.len() == 0 {
        0
    } else {
        sum_counts(ws.drop_last(), q) + count_of(q, ws.last())
    }
}

proof fn lemma_count_absent(q: Seq<Seq<char>>, w: Seq<char>)
    requires
        !q.contains(w),
    ensures
        count_of(q, w) == 0,
    decreases q.len(),
{
    if q.len() > 0 {
        assert(!q.drop_last().contains(w)) by {
            if q.drop_last().contains(w) {
                let i = choose|i: int| 0 <= i < q.drop_last().len() && q.drop_last()[i] == w;
                assert(q[i] == w);
            }
        }
        lemma_count_absent(q.drop_last(), w);
        assert(q[q.len() - 1] != w);
    }
}

proof fn lemma_sum_counts_push(ws: Seq<Seq<char>>, q: Seq<Seq<char>>, x: Seq<char>)
    requires
        ws.no_duplicates(),
    ensures
        sum_counts(ws, q.push(x)) == sum_counts(ws, q) + if ws.contains(x) {
            1nat
        } else {
            0nat
        },
    decreases ws.len(),
{
    if ws.len() > 0 {
        let p = ws.drop_last();
        assert(p.no_duplicates()) by {
            assert forall|i: int, j: int| 0 <= i < p.len() && 0 <= j < p.len() && i != j implies p[i]
                != p[j] by {
                assert(p[i] == ws[i] && p[j] == ws[j]);
            }
        }
        lemma_sum_counts_push(p, q, x);
        assert(q.push(x).drop_last() =~= q);
        if ws.last() == x {
            assert(!p.contains(x)) by {
                if p.contains(x) {
                    let i = choose|i: int| 0 <= i < p.len() && p[i] == x;
                    assert(ws[i] == ws[ws.len() - 1]);
                }
            }
            assert(ws[ws.len() - 1] == x);
        } else {
            if ws.contains(x) {
                let i = choose|i: int| 0 <= i < ws.len() && ws[i] == x;
                assert(p[i] == x);
            }
            if p.contains(x) {
                let i = choose|i: int| 0 <= i < p.len() && p[i] == x;
                assert(ws[i] == x);
            }
        }
    }
}

/// Law: the counts in a query of its distinct words add up to its length,
/// so the query's term frequencies (count over length) add up to one.
pub proof fn law_query_counts_sum(q: Seq<Seq<char>>)
    ensures
        sum_counts(crate::crawler::dedup(q), q) == q.len(),
    decreases q.len(),
{
    if q.len() > 0 {
        let p = q.drop_last();
        let x = q.last();
        law_query_counts_sum(p);
        crate::crawler::law_dedup(p);
        let d = crate::crawler::dedup(p);
        assert(p.push(x) =~= q);
        lemma_sum_counts_push(d, p, x);
        if !d.contains(x) {
            crate::crawler::law_dedup(q);
            assert(!p.contains(x));
            lemma_count_absent(p, x);
            assert(d.push(x).drop_last() =~= d);
        }
    }
}

} // verus!

verus! {

/// Whether the gap arithmetic for a query and a website's keywords stays
/// within `i32` (the condition `get_website_proximity` needs).
pub fn gaps_fit(lemmatized_query: &Vec<String>, keywords: &Vec<Keyword>) -> (b: bool)
    ensures
        b == gaps_fit_i32(keyword_positions(keywords@), gap_limit(lemmatized_query.len() as nat)),
{
    let ghost pos = keyword_positions(keywords@);
    let limit = lemmatized_query.len() as i32;
    let ghost lim = limit as int;
    assert(lim == gap_limit(lemmatized_query.len() as nat));
    let n = keywords.len();
    if n == 0 {
        return true;
    }
    let mut total: i64 = 0;
    for i in 0..n - 1
        invariant
            n == keywords.len(),
            n > 0,
            pos == keyword_positions(keywords@),
            lim == limit as int,
            lim == gap_limit(lemmatized_query.len() as nat),
            total as int == total_gap(pos, lim, i as int),
            forall|j: int|
                0 <= j < i ==> i32::MIN <= #[trigger] pos[j + 1] - pos[j] <= i32::MAX && i32::MIN
                    <= pos[j + 1] - pos[j] - 1,
            forall|m: int| 0 <= m <= i ==> i32::MIN <= #[trigger] total_gap(pos, lim, m) <= i32::MAX,
    {
        let a = keywords[i].position as i64;
        let b = keywords[i + 1].position as i64;
        assert(pos[i as int] == a && pos[i + 1] == b);
        let diff = b - a;
        if diff < i32::MIN as i64 || diff > i32::MAX as i64 || diff - 1 < i32::MIN as i64 {
            assert(!(i32::MIN <= pos[i + 1] - pos[i as int] <= i32::MAX && i32::MIN <= pos[i + 1]
                - pos[i as int] - 1));
            return false;
        }
        let d = diff - 1;
        if d <= limit as i64 {
            total = total + d;
        }
        assert(total as int == total_gap(pos, lim, i + 1));
        if total < i32::MIN as i64 || total > i32::MAX as i64 {
            assert(!(i32::MIN <= total_gap(pos, lim, i + 1) <= i32::MAX));
            assert(0 <= i + 1 < pos.len());
            assert(!gaps_fit_i32(pos, lim));
            return false;
        }
    }
    assert forall|m: int| 0 <= m < pos.len() implies i32::MIN <= #[trigger] total_gap(pos, lim, m)
        <= i32::MAX by {}
    true
}

/// Whether every keyword of every website is a word of the query (the
/// condition `tf_idf_terms` needs).
pub fn all_keywords_in_query(lemmatized_query: &Vec<String>, website_keywords: &WebsiteKeywords) -> (b: bool)
    ensures
        b == keywords_in_query(str_views(lemmatized_query@), website_keywords@),
{
    let n = website_keywords.len();
    for i in 0..n
        invariant
            n == website_keywords.len(),
            forall|a: int, j: int|
                0 <= a < i && 0 <= j < website_keywords@[a].keywords@.len() ==> str_views(
                    lemmatized_query@,
                ).contains(#[trigger] website_keywords@[a].keywords@[j].word@),
    {
        let ks = &website_keywords[i].keywords;
        let m = ks.len();
        for j in 0..m
            invariant
                m == ks.len(),
                n == website_keywords.len(),
                0 <= i < n,
                ks == website_keywords@[i as int].keywords,
                forall|b: int| 0 <= b < j ==> str_views(lemmatized_query@).contains(#[trigger] ks@[b].word@),
        {
            if !contains_string(lemmatized_query, &ks[j].word) {
                assert(!str_views(lemmatized_query@).contains(
                    website_keywords@[i as int].keywords@[j as int].word@,
                ));
                assert(!keywords_in_query(str_views(lemmatized_query@), website_keywords@));
                return false;
            }
        }
    }
    true
}

} // verus!
