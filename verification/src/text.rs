//! Character-level text handling: whitespace and punctuation classes, trimming,
//! splitting into pieces, lines and words, and whitespace collapsing.
//!
//! Text is modelled by its `Seq<char>` view; the executable functions work on
//! `Vec<char>` and convert from and to `String` at the edges.
use vstd::prelude::*;
use vstd::utf8::encode_utf8;

verus! {

// ---------------------------------------------------------------------------
// Character classes
// ---------------------------------------------------------------------------
/// The Unicode `White_Space` property: the characters that std's
/// `char::is_whitespace`, `str::trim` and `str::split_whitespace`, and the
/// regex class `\s`, treat as whitespace.
pub open spec fn is_ws(c: char) -> bool {
    let u = c as u32;
    ||| 0x09 <= u <= 0x0d
    ||| u == 0x20
    ||| u == 0x85
    ||| u == 0xa0
    ||| u == 0x1680
    ||| 0x2000 <= u <= 0x200a
    ||| u == 0x2028
    ||| u == 0x2029
    ||| u == 0x202f
    ||| u == 0x205f
    ||| u == 0x3000
}

/// ASCII punctuation, as `char::is_ascii_punctuation` defines it.
pub open spec fn is_ascii_punct(c: char) -> bool {
    let u = c as u32;
    ||| 0x21 <= u <= 0x2f
    ||| 0x3a <= u <= 0x40
    ||| 0x5b <= u <= 0x60
    ||| 0x7b <= u <= 0x7e
}

/// Whether a character is whitespace (`char::is_whitespace`).
pub fn is_whitespace(c: char) -> (b: bool)
    ensures
        b == is_ws(c),
{
    let u = c as u32;
    (0x09 <= u && u <= 0x0d) || u == 0x20 || u == 0x85 || u == 0xa0 || u == 0x1680 || (0x2000
        <= u && u <= 0x200a) || u == 0x2028 || u == 0x2029 || u == 0x202f || u == 0x205f || u
        == 0x3000
}

/// Whether a character is ASCII punctuation (`char::is_ascii_punctuation`).
pub fn is_ascii_punctuation(c: char) -> (b: bool)
    ensures
        b == is_ascii_punct(c),
{
    let u = c as u32;
    (0x21 <= u && u <= 0x2f) || (0x3a <= u && u <= 0x40) || (0x5b <= u && u <= 0x60) || (0x7b
        <= u && u <= 0x7e)
}

// ---------------------------------------------------------------------------
// Specifications of the string operations
// ---------------------------------------------------------------------------
/// The views of a sequence of character vectors.
pub open spec fn views(v: Seq<Vec<char>>) -> Seq<Seq<char>> {
    v.map_values(|x: Vec<char>| x@)
}

/// The views of a sequence of strings.
pub open spec fn str_views(v: Seq<String>) -> Seq<Seq<char>> {
    v.map_values(|x: String| x@)
}

/// `s` without its leading whitespace.
pub open spec fn trim_start(s: Seq<char>) -> Seq<char>
    decreases s.len(),
{
    if s.len() > 0 && is_ws(s[0]) {
        trim_start(s.drop_first())
    } else {
        s
    }
}

/// `s` without its trailing whitespace.
pub open spec fn trim_end(s: Seq<char>) -> Seq<char>
    decreases s.len(),
{
    if s.len() > 0 && is_ws(s.last()) {
        trim_end(s.drop_last())
    } else {
        s
    }
}

/// `s` without leading and trailing whitespace (std's `str::trim`).
pub open spec fn trim(s: Seq<char>) -> Seq<char> {
    trim_end(trim_start(s))
}

/// The pieces of `s` between occurrences of `sep` (std's `str::split` on a
/// `char`): `n` separators give `n + 1` pieces, empty ones included.
pub open spec fn split_on(s: Seq<char>, sep: char) -> Seq<Seq<char>>
    decreases s.len(),
{
    if s.len() == 0 {
        seq![Seq::<char>::empty()]
    } else {
        let prev = split_on(s.drop_last(), sep);
        if s.last() == sep {
            prev.push(Seq::<char>::empty())
        } else {
            prev.update(prev.len() - 1, prev.last().push(s.last()))
        }
    }
}

/// A line without the carriage return that ends it, if any.
pub open spec fn strip_cr(l: Seq<char>) -> Seq<char> {
    if l.len() > 0 && l.last() == '\r' {
        l.drop_last()
    } else {
        l
    }
}

/// The lines of `s` (std's `str::lines`): the pieces between `'\n'`, each
/// piece that a `'\n'` ends losing one trailing `'\r'`, and the piece after
/// the last `'\n'` kept only when it is not empty.
pub open spec fn lines_of(s: Seq<char>) -> Seq<Seq<char>> {
    let p = split_on(s, '\n');
    let ended = p.drop_last().map_values(|l: Seq<char>| strip_cr(l));
    if p.last().len() > 0 {
        ended.push(p.last())
    } else {
        ended
    }
}

/// The words of `s` seen so far and the word being read, for a scan from the
/// left that ends a word at each whitespace character.
pub open spec fn words_scan(s: Seq<char>) -> (Seq<Seq<char>>, Seq<char>)
    decreases s.len(),
{
    if s.len() == 0 {
        (Seq::empty(), Seq::empty())
    } else {
        let (done, cur) = words_scan(s.drop_last());
        let c = s.last();
        if is_ws(c) {
            if cur.len() > 0 {
                (done.push(cur), Seq::empty())
            } else {
                (done, Seq::empty())
            }
        } else {
            (done, cur.push(c))
        }
    }
}

/// The maximal runs of non-whitespace characters of `s`, in order (std's
/// `str::split_whitespace`).
pub open spec fn words(s: Seq<char>) -> Seq<Seq<char>> {
    let (done, cur) = words_scan(s);
    if cur.len() > 0 {
        done.push(cur)
    } else {
        done
    }
}

/// `s` with each maximal run of whitespace replaced by one space (what a
/// regex `\s+` replaced by `" "` gives).
pub open spec fn collapse_ws(s: Seq<char>) -> Seq<char>
    decreases s.len(),
{
    if s.len() == 0 {
        s
    } else {
        let prev = s.drop_last();
        let c = s.last();
        if is_ws(c) {
            if prev.len() > 0 && is_ws(prev.last()) {
                collapse_ws(prev)
            } else {
                collapse_ws(prev).push(' ')
            }
        } else {
            collapse_ws(prev).push(c)
        }
    }
}

/// `p` is a prefix of `s`.
pub open spec fn has_prefix(s: Seq<char>, p: Seq<char>) -> bool {
    p.len() <= s.len() && s.subrange(0, p.len() as int) == p
}

/// `p` occurs in `s` starting at index `i`.
pub open spec fn occurs_at(s: Seq<char>, p: Seq<char>, i: int) -> bool {
    0 <= i && i + p.len() <= s.len() && s.subrange(i, i + p.len()) == p
}

/// `p` occurs somewhere in `s` (std's `str::contains` on a string pattern).
pub open spec fn contains_text(s: Seq<char>, p: Seq<char>) -> bool {
    exists|i: int| occurs_at(s, p, i)
}

// ---------------------------------------------------------------------------
// std string functions that the library calls
// ---------------------------------------------------------------------------
/// What std's `str::to_lowercase` returns for a text (Unicode lowercase
/// mapping, a function of the text alone).
pub uninterp spec fn spec_to_lowercase(s: Seq<char>) -> Seq<char>;

/// Calls std's `str::to_lowercase`. Claimed: the result is the lowercase
/// mapping of the argument, a function of the argument alone; nothing more of
/// it is stated.
#[verifier::external_body]
pub(crate) fn to_lowercase(s: &str) -> (r: String)
    ensures
        r@ == spec_to_lowercase(s@),
{
    s.to_lowercase()
}

/// Calls std's `str::len`. Claimed, as std documents it: the length in bytes
/// of the text's UTF-8 encoding; a text held in memory has fewer bytes than
/// `usize::MAX`, so the count is exact.
#[verifier::external_body]
pub(crate) fn utf8_len(s: &str) -> (n: usize)
    ensures
        n as int == encode_utf8(s@).len(),
{
    s.len()
}

/// Calls std's `String::push`. Claimed: the character is appended.
#[verifier::external_body]
fn push_char(s: &mut String, c: char)
    ensures
        final(s)@ == old(s)@.push(c),
{
    s.push(c);
}

// ---------------------------------------------------------------------------
// Conversions
// ---------------------------------------------------------------------------
/// The characters of a string slice, in order.
pub fn chars_of(s: &str) -> (v: Vec<char>)
    ensures
        v@ == s@,
{
    let mut v: Vec<char> = Vec::new();
    for c in it: s.chars()
        invariant
            v@ == it.seq().take(it.index()),
            it.seq() == s@,
    {
        v.push(c);
    }
    v
}

/// The string made of the given characters.
pub fn string_of(v: &Vec<char>) -> (s: String)
    ensures
        s@ == v@,
{
    let mut s = String::new();
    let n = v.len();
    for i in 0..n
        invariant
            n == v.len(),
            s@ == v@.take(i as int),
    {
        push_char(&mut s, v[i]);
        assert(v@.take(i + 1) == v@.take(i as int).push(v@[i as int]));
    }
    assert(v@.take(n as int) == v@);
    s
}

/// The strings made of the given character vectors.
pub fn strings_of(v: &Vec<Vec<char>>) -> (r: Vec<String>)
    ensures
        str_views(r@) == views(v@),
{
    let mut r: Vec<String> = Vec::new();
    let n = v.len();
    for i in 0..n
        invariant
            n == v.len(),
            str_views(r@) == views(v@.take(i as int)),
    {
        let s = string_of(&v[i]);
        r.push(s);
        assert(views(v@.take(i + 1)) == views(v@.take(i as int)).push(v@[i as int]@));
        assert(str_views(r@) == views(v@.take(i + 1)));
    }
    assert(v@.take(n as int) == v@);
    r
}

/// The characters of `v[lo..hi]`.
pub fn sub_chars(v: &Vec<char>, lo: usize, hi: usize) -> (r: Vec<char>)
    requires
        lo <= hi <= v.len(),
    ensures
        r@ == v@.subrange(lo as int, hi as int),
{
    let mut r: Vec<char> = Vec::new();
    let mut i = lo;
    while i < hi
        invariant
            lo <= i <= hi <= v.len(),
            r@ == v@.subrange(lo as int, i as int),
        decreases hi - i,
    {
        r.push(v[i]);
        i += 1;
    }
    r
}

/// A copy of `v`.
pub fn copy_chars(v: &Vec<char>) -> (r: Vec<char>)
    ensures
        r@ == v@,
{
    let r = sub_chars(v, 0, v.len());
    assert(v@.subrange(0, v@.len() as int) =~= v@);
    r
}

/// Appends the characters of `src` to `dst`.
pub fn append_chars(dst: &mut Vec<char>, src: &Vec<char>)
    ensures
        final(dst)@ == old(dst)@ + src@,
{
    let n = src.len();
    for i in 0..n
        invariant
            n == src.len(),
            dst@ == old(dst)@ + src@.take(i as int),
    {
        dst.push(src[i]);
        assert(src@.take(i + 1) == src@.take(i as int).push(src@[i as int]));
    }
    assert(src@.take(n as int) == src@);
}

// ---------------------------------------------------------------------------
// Comparisons
// ---------------------------------------------------------------------------
/// Whether two character sequences are equal.
pub fn chars_eq(a: &Vec<char>, b: &Vec<char>) -> (r: bool)
    ensures
        r == (a@ == b@),
{
    if a.len() != b.len() {
        return false;
    }
    let n = a.len();
    for i in 0..n
        invariant
            n == a.len() == b.len(),
            forall|j: int| 0 <= j < i ==> a@[j] == b@[j],
    {
        if a[i] != b[i] {
            return false;
        }
    }
    assert(a@ =~= b@);
    true
}

/// Whether the text of a string equals that of a string slice.
pub fn str_eq(a: &str, b: &str) -> (r: bool)
    ensures
        r == (a@ == b@),
{
    let x = chars_of(a);
    let y = chars_of(b);
    chars_eq(&x, &y)
}

/// Whether `p` occurs in `s` at index `i`.
pub fn occurs_at_exec(s: &Vec<char>, p: &Vec<char>, i: usize) -> (r: bool)
    ensures
        r == occurs_at(s@, p@, i as int),
{
    if i > s.len() || p.len() > s.len() - i {
        return false;
    }
    let n = p.len();
    for k in 0..n
        invariant
            n == p.len(),
            i + n <= s.len(),
            forall|j: int| 0 <= j < k ==> s@[i + j] == p@[j],
    {
        if s[i + k] != p[k] {
            assert(s@.subrange(i as int, i + p.len())[k as int] != p@[k as int]);
            return false;
        }
    }
    assert(s@.subrange(i as int, i + p.len()) =~= p@);
    true
}

/// Whether `p` is a prefix of `s`.
pub fn starts_with(s: &Vec<char>, p: &Vec<char>) -> (r: bool)
    ensures
        r == has_prefix(s@, p@),
{
    occurs_at_exec(s, p, 0)
}

/// Whether `p` occurs in `s`.
pub fn contains(s: &Vec<char>, p: &Vec<char>) -> (r: bool)
    ensures
        r == contains_text(s@, p@),
{
    if p.len() > s.len() {
        assert forall|i: int| !occurs_at(s@, p@, i) by {}
        return false;
    }
    let n = s.len() - p.len();
    for i in 0..n
        invariant
            n == s.len() - p.len(),
            forall|j: int| 0 <= j < i ==> !occurs_at(s@, p@, j),
    {
        if occurs_at_exec(s, p, i) {
            return true;
        }
    }
    if occurs_at_exec(s, p, n) {
        return true;
    }
    assert forall|j: int| !occurs_at(s@, p@, j) by {
        if 0 <= j && j + p@.len() <= s@.len() && j < n {
            assert(!occurs_at(s@, p@, j));
        }
    }
    false
}

// ---------------------------------------------------------------------------
// Trimming
// ---------------------------------------------------------------------------
proof fn lemma_trim_start_step(s: Seq<char>, i: int)
    requires
        0 <= i < s.len(),
        is_ws(s[i]),
    ensures
        trim_start(s.subrange(i, s.len() as int)) == trim_start(s.subrange(i + 1, s.len() as int)),
{
    let t = s.subrange(i, s.len() as int);
    assert(t.drop_first() =~= s.subrange(i + 1, s.len() as int));
}

proof fn lemma_trim_end_step(s: Seq<char>, i: int, j: int)
    requires
        0 <= i < j <= s.len(),
        is_ws(s[j - 1]),
    ensures
        trim_end(s.subrange(i, j)) == trim_end(s.subrange(i, j - 1)),
{
    let t = s.subrange(i, j);
    assert(t.drop_last() =~= s.subrange(i, j - 1));
}

/// `s` without leading and trailing whitespace.
pub fn trim_chars(s: &Vec<char>) -> (r: Vec<char>)
    ensures
        r@ == trim(s@),
{
    let n = s.len();
    let mut i: usize = 0;
    assert(s@.subrange(0, n as int) =~= s@);
    while i < n && is_whitespace(s[i])
        invariant
            n == s.len(),
            i <= n,
            trim_start(s@) == trim_start(s@.subrange(i as int, n as int)),
        decreases n - i,
    {
        proof {
            lemma_trim_start_step(s@, i as int);
        }
        i += 1;
    }
    let ghost t = s@.subrange(i as int, n as int);
    assert(trim_start(s@) == t);
    let mut j: usize = n;
    while j > i && is_whitespace(s[j - 1])
        invariant
            n == s.len(),
            i <= j <= n,
            t == s@.subrange(i as int, n as int),
            trim_end(t) == trim_end(s@.subrange(i as int, j as int)),
        decreases j,
    {
        proof {
            lemma_trim_end_step(s@, i as int, j as int);
        }
        j -= 1;
    }
    let r = sub_chars(s, i, j);
    assert(trim_end(s@.subrange(i as int, j as int)) == r@);
    r
}

/// The text of `s` without leading and trailing whitespace.
pub fn trim_str(s: &str) -> (r: String)
    ensures
        r@ == trim(s@),
{
    let v = chars_of(s);
    let t = trim_chars(&v);
    string_of(&t)
}

// ---------------------------------------------------------------------------
// Splitting
// ---------------------------------------------------------------------------
proof fn lemma_split_on_nonempty(s: Seq<char>, sep: char)
    ensures
        split_on(s, sep).len() >= 1,
    decreases s.len(),
{
    if s.len() > 0 {
        lemma_split_on_nonempty(s.drop_last(), sep);
    }
}

/// The pieces of `s` between occurrences of `sep`.
pub fn split_chars(s: &Vec<char>, sep: char) -> (r: Vec<Vec<char>>)
    ensures
        views(r@) == split_on(s@, sep),
{
    let mut out: Vec<Vec<char>> = Vec::new();
    let mut cur: Vec<char> = Vec::new();
    let n = s.len();
    assert(s@.take(0) =~= Seq::<char>::empty());
    assert(views(out@).push(cur@) =~= split_on(s@.take(0), sep));
    for i in 0..n
        invariant
            n == s.len(),
            views(out@).push(cur@) == split_on(s@.take(i as int), sep),
    {
        let c = s[i];
        let ghost pre = s@.take(i as int);
        assert(s@.take(i + 1).drop_last() =~= pre);
        assert(s@.take(i + 1).last() == c);
        proof {
            lemma_split_on_nonempty(pre, sep);
        }
        if c == sep {
            let done = cur;
            out.push(done);
            cur = Vec::new();
            assert(views(out@).push(cur@) =~= split_on(s@.take(i + 1), sep));
        } else {
            cur.push(c);
            assert(views(out@).push(cur@) =~= split_on(s@.take(i + 1), sep));
        }
    }
    assert(s@.take(n as int) =~= s@);
    out.push(cur);
    assert(views(out@) =~= split_on(s@, sep));
    out
}

/// `l` without the carriage return that ends it, if any.
fn strip_cr_exec(l: Vec<char>) -> (r: Vec<char>)
    ensures
        r@ == strip_cr(l@),
{
    let mut l = l;
    if l.len() > 0 && l[l.len() - 1] == '\r' {
        l.pop();
    }
    l
}

/// The lines of `s`.
pub fn lines_chars(s: &Vec<char>) -> (r: Vec<Vec<char>>)
    ensures
        views(r@) == lines_of(s@),
{
    let pieces = split_chars(s, '\n');
    proof {
        lemma_split_on_nonempty(s@, '\n');
    }
    let ghost p = views(pieces@);
    let ghost ended = p.drop_last().map_values(|l: Seq<char>| strip_cr(l));
    let m = pieces.len() - 1;
    let mut out: Vec<Vec<char>> = Vec::new();
    for i in 0..m
        invariant
            m == pieces.len() - 1,
            p == views(pieces@),
            ended == p.drop_last().map_values(|l: Seq<char>| strip_cr(l)),
            views(out@) == ended.take(i as int),
    {
        let l = strip_cr_exec(copy_chars(&pieces[i]));
        assert(pieces@[i as int]@ == p[i as int]);
        assert(ended[i as int] == strip_cr(p[i as int]));
        let ghost before = out@;
        out.push(l);
        assert(views(out@) =~= views(before).push(l@));
        assert(ended.take(i + 1) =~= ended.take(i as int).push(ended[i as int]));
        assert(views(out@) =~= ended.take(i + 1));
    }
    assert(ended.take(m as int) =~= ended);
    if pieces[m].len() > 0 {
        out.push(copy_chars(&pieces[m]));
        assert(views(out@) =~= ended.push(p.last()));
    }
    out
}

/// The words of `s`: its maximal runs of non-whitespace characters.
pub fn words_chars(s: &Vec<char>) -> (r: Vec<Vec<char>>)
    ensures
        views(r@) == words(s@),
{
    let mut out: Vec<Vec<char>> = Vec::new();
    let mut cur: Vec<char> = Vec::new();
    let n = s.len();
    assert(s@.take(0) =~= Seq::<char>::empty());
    for i in 0..n
        invariant
            n == s.len(),
            (views(out@), cur@) == words_scan(s@.take(i as int)),
    {
        let c = s[i];
        assert(s@.take(i + 1).drop_last() =~= s@.take(i as int));
        if is_whitespace(c) {
            if cur.len() > 0 {
                let w = cur;
                out.push(w);
                cur = Vec::new();
                assert(views(out@) =~= words_scan(s@.take(i + 1)).0);
            } else {
                cur = Vec::new();
            }
        } else {
            cur.push(c);
        }
        assert((views(out@), cur@) =~= words_scan(s@.take(i + 1)));
    }
    assert(s@.take(n as int) =~= s@);
    if cur.len() > 0 {
        out.push(cur);
        assert(views(out@) =~= words(s@));
    }
    out
}

} // verus!

verus! {

// ---------------------------------------------------------------------------
// Properties
// ---------------------------------------------------------------------------
/// A text neither starts nor ends with whitespace.
pub open spec fn is_trimmed(s: Seq<char>) -> bool {
    s.len() > 0 ==> !is_ws(s[0]) && !is_ws(s.last())
}

/// `trim_start` drops a prefix of whitespace and leaves a text that does not
/// start with whitespace.
proof fn lemma_trim_start(s: Seq<char>)
    ensures
        trim_start(s).len() <= s.len(),
        trim_start(s) == s.subrange(s.len() - trim_start(s).len(), s.len() as int),
        trim_start(s).len() > 0 ==> !is_ws(trim_start(s)[0]),
    decreases s.len(),
{
    if s.len() > 0 && is_ws(s[0]) {
        lemma_trim_start(s.drop_first());
        let t = trim_start(s.drop_first());
        assert(s.drop_first().subrange(s.drop_first().len() - t.len(), s.drop_first().len() as int)
            =~= s.subrange(s.len() - t.len(), s.len() as int));
    } else {
        assert(s.subrange(0, s.len() as int) =~= s);
    }
}

/// `trim_end` drops a suffix of whitespace and leaves a text that does not
/// end with whitespace.
proof fn lemma_trim_end(s: Seq<char>)
    ensures
        trim_end(s).len() <= s.len(),
        trim_end(s) == s.subrange(0, trim_end(s).len() as int),
        trim_end(s).len() > 0 ==> !is_ws(trim_end(s).last()),
    decreases s.len(),
{
    if s.len() > 0 && is_ws(s.last()) {
        lemma_trim_end(s.drop_last());
        let t = trim_end(s.drop_last());
        assert(s.drop_last().subrange(0, t.len() as int) =~= s.subrange(0, t.len() as int));
    } else {
        assert(s.subrange(0, s.len() as int) =~= s);
    }
}

/// Law: a trimmed text neither starts nor ends with whitespace, and is a
/// piece of the original text.
pub proof fn law_trim_is_trimmed(s: Seq<char>)
    ensures
        is_trimmed(trim(s)),
        trim(s).len() <= s.len(),
        contains_text(s, trim(s)),
{
    lemma_trim_start(s);
    let a = trim_start(s);
    lemma_trim_end(a);
    let b = trim_end(a);
    if b.len() > 0 {
        assert(b[0] == a[0]);
    }
    let i = s.len() - a.len();
    assert(s.subrange(i, i + b.len()) =~= b);
    assert(occurs_at(s, b, i));
}

/// Law: trimming a trimmed text changes nothing.
pub proof fn law_trim_idempotent(s: Seq<char>)
    ensures
        trim(trim(s)) == trim(s),
{
    law_trim_is_trimmed(s);
    let t = trim(s);
    if t.len() > 0 {
        assert(trim_start(t) == t);
        assert(trim_end(t) == t);
    } else {
        assert(trim_start(t) == t);
        assert(trim_end(t) == t);
    }
}

/// Each word is a non-empty run without whitespace.
pub open spec fn is_word(w: Seq<char>) -> bool {
    w.len() > 0 && forall|k: int| 0 <= k < w.len() ==> !is_ws(#[trigger] w[k])
}

proof fn lemma_words_scan(s: Seq<char>)
    ensures
        forall|j: int| 0 <= j < words_scan(s).0.len() ==> is_word(#[trigger] words_scan(s).0[j]),
        forall|k: int| 0 <= k < words_scan(s).1.len() ==> !is_ws(#[trigger] words_scan(s).1[k]),
    decreases s.len(),
{
    if s.len() > 0 {
        lemma_words_scan(s.drop_last());
        let (done, cur) = words_scan(s.drop_last());
        let c = s.last();
        if !is_ws(c) {
            assert forall|k: int| 0 <= k < cur.push(c).len() implies !is_ws(#[trigger] cur.push(c)[k]) by {
                if k < cur.len() {
                    assert(cur.push(c)[k] == cur[k]);
                }
            }
        } else if cur.len() > 0 {
            assert forall|j: int| 0 <= j < done.push(cur).len() implies is_word(#[trigger] done.push(cur)[j]) by {
                if j < done.len() {
                    assert(done.push(cur)[j] == done[j]);
                }
            }
        }
    }
}

/// Law: the words of a text are non-empty and hold no whitespace.
pub proof fn law_words_are_words(s: Seq<char>)
    ensures
        forall|j: int| 0 <= j < words(s).len() ==> is_word(#[trigger] words(s)[j]),
{
    lemma_words_scan(s);
    let (done, cur) = words_scan(s);
    if cur.len() > 0 {
        assert forall|j: int| 0 <= j < done.push(cur).len() implies is_word(#[trigger] done.push(cur)[j]) by {
            if j < done.len() {
                assert(done.push(cur)[j] == done[j]);
            }
        }
    }
}

/// A text whose only whitespace is single spaces between other characters.
pub open spec fn is_collapsed(s: Seq<char>) -> bool {
    &&& forall|k: int| 0 <= k < s.len() && is_ws(#[trigger] s[k]) ==> s[k] == ' '
    &&& forall|k: int| 0 <= k < s.len() - 1 && is_ws(#[trigger] s[k]) ==> !is_ws(s[k + 1])
}

proof fn lemma_collapse_ws(s: Seq<char>)
    ensures
        is_collapsed(collapse_ws(s)),
        collapse_ws(s).len() > 0 ==> (is_ws(collapse_ws(s).last()) <==> is_ws(s.last())),
        collapse_ws(s).len() == 0 <==> s.len() == 0,
    decreases s.len(),
{
    if s.len() > 0 {
        let prev = s.drop_last();
        lemma_collapse_ws(prev);
        let p = collapse_ws(prev);
        let c = s.last();
        if is_ws(c) {
            if prev.len() > 0 && is_ws(prev.last()) {
                assert(s.last() == c);
            } else {
                let r = p.push(' ');
                assert forall|k: int| 0 <= k < r.len() && is_ws(#[trigger] r[k]) implies r[k] == ' ' by {
                    if k < p.len() {
                        assert(r[k] == p[k]);
                    }
                }
                assert forall|k: int| 0 <= k < r.len() - 1 && is_ws(#[trigger] r[k]) implies !is_ws(r[k + 1]) by {
                    assert(r[k] == p[k]);
                    if k + 1 < p.len() {
                        assert(r[k + 1] == p[k + 1]);
                    } else {
                        assert(p.len() > 0 && k == p.len() - 1);
                        assert(!is_ws(prev.last()));
                    }
                }
                assert(is_ws(' '));
            }
        } else {
            let r = p.push(c);
            assert forall|k: int| 0 <= k < r.len() && is_ws(#[trigger] r[k]) implies r[k] == ' ' by {
                if k < p.len() {
                    assert(r[k] == p[k]);
                }
            }
            assert forall|k: int| 0 <= k < r.len() - 1 && is_ws(#[trigger] r[k]) implies !is_ws(r[k + 1]) by {
                assert(r[k] == p[k]);
                if k + 1 < p.len() {
                    assert(r[k + 1] == p[k + 1]);
                }
            }
        }
    }
}

/// Law: after collapsing, the only whitespace left is single spaces, never
/// two in a row.
pub proof fn law_collapse_ws(s: Seq<char>)
    ensures
        is_collapsed(collapse_ws(s)),
{
    lemma_collapse_ws(s);
}

/// Law: a cleaned text (collapsed, then trimmed) neither starts nor ends with
/// whitespace, and its only whitespace is single spaces, never two in a row.
pub proof fn law_clean_text(s: Seq<char>)
    ensures
        is_trimmed(trim(collapse_ws(s))),
        is_collapsed(trim(collapse_ws(s))),
{
    let c = collapse_ws(s);
    lemma_collapse_ws(s);
    law_trim_is_trimmed(c);
    let t = trim(c);
    let i = choose|i: int| occurs_at(c, t, i);
    assert forall|k: int| 0 <= k < t.len() && is_ws(#[trigger] t[k]) implies t[k] == ' ' by {
        assert(t[k] == c[i + k]);
    }
    assert forall|k: int| 0 <= k < t.len() - 1 && is_ws(#[trigger] t[k]) implies !is_ws(t[k + 1]) by {
        assert(t[k] == c[i + k]);
        assert(t[k + 1] == c[i + k + 1]);
    }
}

} // verus!
