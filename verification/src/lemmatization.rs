//! Lemmatization of search queries: lowercasing, dropping ASCII punctuation,
//! splitting into words and replacing each word by its lemma.
use vstd::prelude::*;

use crate::strmap::{to_map, StringMap};
use crate::text::{
    chars_of, is_ascii_punct, is_ascii_punctuation, spec_to_lowercase, str_views, string_of,
    to_lowercase, views, words, words_chars, words_scan,
};

verus! {

/// A map from words to their lemmas.
pub struct LemmaMap {
    words: StringMap<String>,
}

impl LemmaMap {
    /// Whether the map gives a lemma for a word.
    pub closed spec fn has(&self, w: Seq<char>) -> bool {
        self.words@.contains_key(w)
    }

    /// The lemma that the map gives for a word it has.
    pub closed spec fn stored_lemma(&self, w: Seq<char>) -> Seq<char> {
        self.words@[w]@
    }

    /// The lemma of a word: the one the map gives, else the word itself.
    pub open spec fn lemma_of(&self, w: Seq<char>) -> Seq<char> {
        if self.has(w) {
            self.stored_lemma(w)
        } else {
            w
        }
    }

    /// The map with no lemma.
    pub fn new() -> (r: Self)
        ensures
            forall|w: Seq<char>| !r.has(w),
    {
        LemmaMap { words: StringMap::new() }
    }

    /// Sets the lemma of a word, replacing the one it had.
    pub fn insert(&mut self, word: String, lemma: String)
        ensures
            final(self).has(word@),
            final(self).lemma_of(word@) == lemma@,
            forall|w: Seq<char>|
                w != word@ ==> (final(self).has(w) == old(self).has(w) && final(self).lemma_of(w)
                    == old(self).lemma_of(w)),
    {
        let ghost l = lemma@;
        self.words.insert(word, lemma);
        assert(self.words@[word@]@ == l);
    }

    /// The lemma of a word.
    pub fn lemma(&self, word: &str) -> (r: String)
        ensures
            r@ == self.lemma_of(word@),
    {
        match self.words.get(word) {
            Some(l) => l.clone(),
            None => string_of(&chars_of(word)),
        }
    }

    /// The lemma map of word-lemma pairs; a word listed twice gets the lemma
    /// of its last pair.
    pub fn from_pairs(pairs: Vec<(String, String)>) -> (r: LemmaMap)
        ensures
            forall|w: Seq<char>|
                (r.has(w) == to_map(pairs_view(pairs@)).contains_key(w)) && (r.has(w) ==> r.lemma_of(
                    w,
                ) == to_map(pairs_view(pairs@))[w]),
    {
        let ghost p = pairs_view(pairs@);
        let mut m = LemmaMap::new();
        let n = pairs.len();
        let mut i: usize = 0;
        assert(p.take(0) =~= Seq::<(Seq<char>, Seq<char>)>::empty());
        while i < n
            invariant
                n == pairs.len(),
                i <= n,
                p == pairs_view(pairs@),
                forall|w: Seq<char>|
                    (m.has(w) == to_map(p.take(i as int)).contains_key(w)) && (m.has(w) ==> m.lemma_of(w)
                        == to_map(p.take(i as int))[w]),
            decreases n - i,
        {
            let word = pairs[i].0.clone();
            let lemma = pairs[i].1.clone();
            assert(p.take(i + 1).drop_last() =~= p.take(i as int));
            assert(p.take(i + 1).last() == (word@, lemma@));
            m.insert(word, lemma);
            i += 1;
        }
        assert(p.take(n as int) =~= p);
        m
    }

    /// The lemma map that a JSON object of words to lemmas gives, or `None`
    /// when the text is not such an object.
    pub fn from_json(raw: &str) -> (r: Option<LemmaMap>)
        ensures
            match spec_parse_string_map(raw@) {
                Some(pairs) => match r {
                    Some(m) => forall|w: Seq<char>|
                        (m.has(w) == to_map(pairs).contains_key(w)) && (m.has(w) ==> m.lemma_of(w)
                            == to_map(pairs)[w]),
                    None => false,
                },
                None => r is None,
            },
    {
        match parse_string_map(raw) {
            Some(pairs) => Some(Self::from_pairs(pairs)),
            None => None,
        }
    }
}

/// The views of word-lemma pairs.
pub open spec fn pairs_view(v: Seq<(String, String)>) -> Seq<(Seq<char>, Seq<char>)> {
    v.map_values(|e: (String, String)| (e.0@, e.1@))
}

/// What `serde_json::from_str` gives for a text read as a JSON object of
/// strings (`BTreeMap<String, String>`), as entries in key order; `None` when
/// the text is not such an object.
pub uninterp spec fn spec_parse_string_map(raw: Seq<char>) -> Option<Seq<(Seq<char>, Seq<char>)>>;

/// Calls `serde_json::from_str::<BTreeMap<String, String>>` and lists the
/// entries. Claimed: the outcome is a function of the text.
#[verifier::external_body]
pub(crate) fn parse_string_map(raw: &str) -> (r: Option<Vec<(String, String)>>)
    ensures
        match r {
            Some(v) => spec_parse_string_map(raw@) == Some(pairs_view(v@)),
            None => spec_parse_string_map(raw@) == None::<Seq<(Seq<char>, Seq<char>)>>,
        },
{
    serde_json::from_str::<std::collections::BTreeMap<String, String>>(raw).ok().map(
        |m| m.into_iter().collect(),
    )
}

/// The characters of a text that are not ASCII punctuation, in order.
pub open spec fn without_punct(s: Seq<char>) -> Seq<char>
    decreases s.len(),
{
    if s.len() == 0 {
        s
    } else if is_ascii_punct(s.last()) {
        without_punct(s.drop_last())
    } else {
        without_punct(s.drop_last()).push(s.last())
    }
}

/// The lemmatized words of an already lowercased text: the text without
/// ASCII punctuation, split at whitespace, each word replaced by its lemma.
pub open spec fn spec_lemmatize_lowercase(lower: Seq<char>, m: LemmaMap) -> Seq<Seq<char>> {
    words(without_punct(lower)).map_values(|w: Seq<char>| m.lemma_of(w))
}

/// The lemmatized words of a query: those of its lowercased text.
pub open spec fn spec_lemmatize(text: Seq<char>, m: LemmaMap) -> Seq<Seq<char>> {
    spec_lemmatize_lowercase(spec_to_lowercase(text), m)
}

/// The characters that are not ASCII punctuation.
fn strip_punctuation(s: &Vec<char>) -> (r: Vec<char>)
    ensures
        r@ == without_punct(s@),
{
    let mut out: Vec<char> = Vec::new();
    let n = s.len();
    assert(s@.take(0) =~= Seq::<char>::empty());
    for i in 0..n
        invariant
            n == s.len(),
            out@ == without_punct(s@.take(i as int)),
    {
        assert(s@.take(i + 1).drop_last() =~= s@.take(i as int));
        if !is_ascii_punctuation(s[i]) {
            out.push(s[i]);
        }
    }
    assert(s@.take(n as int) =~= s@);
    out
}

/// Lemmatizes a query: lowercases it, drops ASCII punctuation, splits it at
/// whitespace and replaces each word by its lemma when the map has one.
pub fn lemmatize(text: &String, lemmas: &LemmaMap) -> (r: Vec<String>)
    ensures
        str_views(r@) == spec_lemmatize(text@, *lemmas),
{
    let lower = to_lowercase(text.as_str());
    lemmatize_lowercase(lower.as_str(), lemmas)
}

/// Lemmatizes an already lowercased query: drops ASCII punctuation, splits it
/// at whitespace and replaces each word by its lemma when the map has one.
pub fn lemmatize_lowercase(lower: &str, lemmas: &LemmaMap) -> (r: Vec<String>)
    ensures
        str_views(r@) == spec_lemmatize_lowercase(lower@, *lemmas),
{
    let chars = chars_of(lower);
    let kept = strip_punctuation(&chars);
    let ws = words_chars(&kept);
    let ghost target = views(ws@).map_values(|w: Seq<char>| lemmas.lemma_of(w));
    let n = ws.len();
    let mut out: Vec<String> = Vec::new();
    for i in 0..n
        invariant
            n == ws.len(),
            target == views(ws@).map_values(|w: Seq<char>| lemmas.lemma_of(w)),
            str_views(out@) == target.take(i as int),
    {
        let w = string_of(&ws[i]);
        let l = lemmas.lemma(w.as_str());
        let ghost before = str_views(out@);
        out.push(l);
        assert(str_views(out@) =~= before.push(target[i as int]));
        assert(str_views(out@) =~= target.take(i + 1));
    }
    assert(target.take(n as int) =~= target);
    out
}

} // verus!

verus! {

/// A text holds no ASCII punctuation.
pub open spec fn no_punct(s: Seq<char>) -> bool {
    forall|k: int| 0 <= k < s.len() ==> !is_ascii_punct(#[trigger] s[k])
}

proof fn lemma_without_punct(s: Seq<char>)
    ensures
        no_punct(without_punct(s)),
    decreases s.len(),
{
    if s.len() > 0 {
        lemma_without_punct(s.drop_last());
        let p = without_punct(s.drop_last());
        if !is_ascii_punct(s.last()) {
            assert forall|k: int| 0 <= k < p.push(s.last()).len() implies !is_ascii_punct(
                #[trigger] p.push(s.last())[k],
            ) by {
                if k < p.len() {
                    assert(p.push(s.last())[k] == p[k]);
                }
            }
        }
    }
}

proof fn lemma_words_scan_no_punct(s: Seq<char>)
    requires
        no_punct(s),
    ensures
        forall|j: int| 0 <= j < words_scan(s).0.len() ==> no_punct(#[trigger] words_scan(s).0[j]),
        no_punct(words_scan(s).1),
    decreases s.len(),
{
    if s.len() > 0 {
        let p = s.drop_last();
        assert(no_punct(p)) by {
            assert forall|k: int| 0 <= k < p.len() implies !is_ascii_punct(#[trigger] p[k]) by {
                assert(p[k] == s[k]);
            }
        }
        lemma_words_scan_no_punct(p);
        let (done, cur) = words_scan(p);
        let c = s.last();
        assert(!is_ascii_punct(s[s.len() - 1]));
        if crate::text::is_ws(c) {
            if cur.len() > 0 {
                assert forall|j: int| 0 <= j < done.push(cur).len() implies no_punct(
                    #[trigger] done.push(cur)[j],
                ) by {
                    if j < done.len() {
                        assert(done.push(cur)[j] == done[j]);
                    }
                }
            }
            assert(no_punct(Seq::<char>::empty()));
        } else {
            assert forall|k: int| 0 <= k < cur.push(c).len() implies !is_ascii_punct(
                #[trigger] cur.push(c)[k],
            ) by {
                if k < cur.len() {
                    assert(cur.push(c)[k] == cur[k]);
                }
            }
        }
    }
}

/// Every character of a text that is not ASCII punctuation is kept by
/// `without_punct`.
proof fn lemma_without_punct_keeps(s: Seq<char>, k: int)
    requires
        0 <= k < s.len(),
        !is_ascii_punct(s[k]),
    ensures
        exists|m: int| 0 <= m < without_punct(s).len() && #[trigger] without_punct(s)[m] == s[k],
    decreases s.len(),
{
    let p = s.drop_last();
    let r = without_punct(p);
    if k < s.len() - 1 {
        assert(p[k] == s[k]);
        lemma_without_punct_keeps(p, k);
        let m = choose|m: int| 0 <= m < r.len() && #[trigger] r[m] == p[k];
        if !is_ascii_punct(s.last()) {
            assert(without_punct(s) == r.push(s.last()));
            assert(r.push(s.last())[m] == r[m]);
            assert(without_punct(s)[m] == s[k]);
        } else {
            assert(without_punct(s) == r);
            assert(without_punct(s)[m] == s[k]);
        }
    } else {
        assert(s[k] == s.last());
        assert(without_punct(s) == r.push(s.last()));
        assert(r.push(s.last())[r.len() as int] == s.last());
        assert(without_punct(s)[r.len() as int] == s[k]);
    }
}

/// Every character of a text that is not whitespace is in one of its words.
proof fn lemma_words_keep(s: Seq<char>)
    ensures
        forall|k: int|
            0 <= k < s.len() && !crate::text::is_ws(#[trigger] s[k]) ==> exists|j: int, i: int|
                0 <= j < words(s).len() && 0 <= i < words(s)[j].len() && #[trigger] words(s)[j][i]
                    == s[k],
{
    lemma_words_scan_keep(s);
    let (done, cur) = words_scan(s);
    assert forall|k: int| 0 <= k < s.len() && !crate::text::is_ws(#[trigger] s[k]) implies exists|
        j: int,
        i: int,
    | 0 <= j < words(s).len() && 0 <= i < words(s)[j].len() && #[trigger] words(s)[j][i] == s[k] by {
        if exists|j: int, i: int|
            0 <= j < done.len() && 0 <= i < done[j].len() && #[trigger] done[j][i] == s[k] {
            let (j, i) = choose|j: int, i: int|
                0 <= j < done.len() && 0 <= i < done[j].len() && #[trigger] done[j][i] == s[k];
            if cur.len() > 0 {
                assert(words(s)[j] == done[j]);
            }
            assert(words(s)[j][i] == s[k]);
        } else {
            let i = choose|i: int| 0 <= i < cur.len() && #[trigger] cur[i] == s[k];
            assert(cur.len() > 0);
            assert(words(s)[done.len() as int] == cur);
            assert(words(s)[done.len() as int][i] == s[k]);
        }
    }
}

proof fn lemma_words_scan_keep(s: Seq<char>)
    ensures
        forall|k: int|
            0 <= k < s.len() && !crate::text::is_ws(#[trigger] s[k]) ==> (exists|j: int, i: int|
                0 <= j < words_scan(s).0.len() && 0 <= i < words_scan(s).0[j].len()
                    && #[trigger] words_scan(s).0[j][i] == s[k]) || (exists|i: int|
                0 <= i < words_scan(s).1.len() && #[trigger] words_scan(s).1[i] == s[k]),
    decreases s.len(),
{
    if s.len() > 0 {
        let p = s.drop_last();
        lemma_words_scan_keep(p);
        let (done, cur) = words_scan(p);
        let c = s.last();
        let (done2, cur2) = words_scan(s);
        assert forall|k: int| 0 <= k < s.len() && !crate::text::is_ws(#[trigger] s[k]) implies (exists|
            j: int,
            i: int,
        | 0 <= j < done2.len() && 0 <= i < done2[j].len() && #[trigger] done2[j][i] == s[k]) || (
        exists|i: int| 0 <= i < cur2.len() && #[trigger] cur2[i] == s[k]) by {
            if k == s.len() - 1 {
                assert(s[k] == c);
                assert(!crate::text::is_ws(c));
                assert(cur2 == cur.push(c));
                assert(cur2[cur.len() as int] == s[k]);
            } else {
                assert(p[k] == s[k]);
                if exists|j: int, i: int|
                    0 <= j < done.len() && 0 <= i < done[j].len() && #[trigger] done[j][i] == p[k] {
                    let (j, i) = choose|j: int, i: int|
                        0 <= j < done.len() && 0 <= i < done[j].len() && #[trigger] done[j][i] == p[k];
                    if crate::text::is_ws(c) && cur.len() > 0 {
                        assert(done2 == done.push(cur));
                        assert(done2[j] == done[j]);
                    } else {
                        assert(done2 == done);
                    }
                    assert(done2[j][i] == s[k]);
                } else {
                    let i = choose|i: int| 0 <= i < cur.len() && #[trigger] cur[i] == p[k];
                    if crate::text::is_ws(c) {
                        assert(cur.len() > 0);
                        assert(done2 == done.push(cur));
                        assert(done2[done.len() as int] == cur);
                        assert(done2[done.len() as int][i] == s[k]);
                    } else {
                        assert(cur2 == cur.push(c));
                        assert(cur2[i] == cur[i]);
                    }
                }
            }
        }
    }
}

/// Law: lemmatization drops only ASCII punctuation and whitespace: with a
/// lemma map that replaces no word, every other character of the lowercased
/// query (letters, digits and all) is in one of the resulting words.
pub proof fn law_query_characters_kept(lower: Seq<char>, m: LemmaMap)
    requires
        forall|w: Seq<char>| !m.has(w),
    ensures
        forall|k: int|
            0 <= k < lower.len() && !is_ascii_punct(#[trigger] lower[k]) && !crate::text::is_ws(
                lower[k],
            ) ==> exists|j: int, i: int|
                0 <= j < spec_lemmatize_lowercase(lower, m).len() && 0 <= i
                    < spec_lemmatize_lowercase(lower, m)[j].len() && #[trigger] spec_lemmatize_lowercase(
                    lower,
                    m,
                )[j][i] == lower[k],
{
    let t = without_punct(lower);
    lemma_words_keep(t);
    let r = spec_lemmatize_lowercase(lower, m);
    assert forall|k: int|
        0 <= k < lower.len() && !is_ascii_punct(#[trigger] lower[k]) && !crate::text::is_ws(
            lower[k],
        ) implies exists|j: int, i: int|
        0 <= j < r.len() && 0 <= i < r[j].len() && #[trigger] r[j][i] == lower[k] by {
        lemma_without_punct_keeps(lower, k);
        let mm = choose|mm: int| 0 <= mm < t.len() && #[trigger] t[mm] == lower[k];
        assert(!crate::text::is_ws(t[mm]));
        let (j, i) = choose|j: int, i: int|
            0 <= j < words(t).len() && 0 <= i < words(t)[j].len() && #[trigger] words(t)[j][i] == t[mm];
        assert(r[j] == m.lemma_of(words(t)[j]));
        assert(!m.has(words(t)[j]));
        assert(r[j][i] == lower[k]);
    }
}

/// Law: each token of a lemmatized query that the lemma map does not replace
/// is a non-empty word with no whitespace and no ASCII punctuation; the
/// others are the lemmas the map gives.
pub proof fn law_lemmatized_tokens(text: Seq<char>, m: LemmaMap)
    ensures
        forall|j: int|
            0 <= j < spec_lemmatize(text, m).len() ==> {
                let w = words(without_punct(spec_to_lowercase(text)))[j];
                &&& (#[trigger] spec_lemmatize(text, m)[j]) == m.lemma_of(w)
                &&& !m.has(w) ==> crate::text::is_word(spec_lemmatize(text, m)[j]) && no_punct(
                    spec_lemmatize(text, m)[j],
                )
            },
{
    let s = without_punct(spec_to_lowercase(text));
    lemma_without_punct(spec_to_lowercase(text));
    lemma_words_scan_no_punct(s);
    crate::text::law_words_are_words(s);
    let (done, cur) = words_scan(s);
    assert forall|j: int| 0 <= j < words(s).len() implies no_punct(#[trigger] words(s)[j]) by {
        if cur.len() > 0 && j == done.len() {
            assert(words(s)[j] == cur);
        } else {
            assert(words(s)[j] == done[j]);
        }
    }
    assert forall|j: int| 0 <= j < spec_lemmatize(text, m).len() implies {
        let w = words(s)[j];
        &&& (#[trigger] spec_lemmatize(text, m)[j]) == m.lemma_of(w)
        &&& !m.has(w) ==> crate::text::is_word(spec_lemmatize(text, m)[j]) && no_punct(
            spec_lemmatize(text, m)[j],
        )
    } by {
        let w = words(s)[j];
        assert(crate::text::is_word(w));
        assert(no_punct(w));
    }
}

} // verus!
