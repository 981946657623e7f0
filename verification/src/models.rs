//! The scraped page and its meta tags.
use vstd::prelude::*;
use vstd::string::StringSliceAdditionalSpecFns;
use vstd::utf8::{decode_utf8, encode_utf8, is_char_boundary};

use crate::text::{
    chars_of, split_chars, spec_to_lowercase, split_on, str_eq, string_of, to_lowercase, trim,
    trim_chars, utf8_len, views,
};

verus! {

/// A meta tag: its name and its content.
#[derive(Clone, Debug)]
pub struct MetaTag {
    pub name: String,
    pub content: String,
}

/// The name and content of a meta tag.
pub open spec fn meta_view(m: MetaTag) -> (Seq<char>, Seq<char>) {
    (m.name@, m.content@)
}

/// The views of a sequence of meta tags.
pub open spec fn metas_view(s: Seq<MetaTag>) -> Seq<(Seq<char>, Seq<char>)> {
    s.map_values(|m: MetaTag| meta_view(m))
}

/// A scraped web page.
#[derive(Clone, Debug)]
pub struct PageData {
    /// The URL of the page.
    pub url: String,
    /// The language of the page content.
    pub language: String,
    /// The page title.
    pub title: String,
    /// The meta tags of the page, in the order the selection yields them.
    pub meta_tags: Vec<MetaTag>,
    /// The canonical URL, if the page gives one.
    pub canonical_url: Option<String>,
    /// The main text content of the page.
    pub content_text: String,
    /// When the page was scraped, in nanoseconds since the Unix epoch.
    pub scraped_at: i64,
}

/// Three dots, which mark a shortened text.
pub open spec fn ellipsis() -> Seq<char> {
    seq!['.', '.', '.']
}

/// The content of the first meta tag whose lowercased name is `name`.
pub open spec fn find_meta(metas: Seq<(Seq<char>, Seq<char>)>, name: Seq<char>) -> Option<
    Seq<char>,
>
    decreases metas.len(),
{
    if metas.len() == 0 {
        None
    } else if spec_to_lowercase(metas[0].0) == name {
        Some(metas[0].1)
    } else {
        find_meta(metas.drop_first(), name)
    }
}

/// The first 150 characters of a text, followed by three dots when the text
/// is longer than 150 bytes in UTF-8.
pub open spec fn excerpt(s: Seq<char>) -> Seq<char> {
    let head = if s.len() <= 150 { s } else { s.take(150) };
    if encode_utf8(s).len() > 150 {
        head + ellipsis()
    } else {
        head
    }
}

/// The description of a page: the content of its first `description` meta
/// tag (name compared in lowercase), else an excerpt of its text.
pub open spec fn spec_description(metas: Seq<(Seq<char>, Seq<char>)>, text: Seq<char>) -> Seq<
    char,
> {
    match find_meta(metas, "description"@) {
        Some(c) => c,
        None => excerpt(text),
    }
}

/// The trimmed pieces that are not empty, in order.
pub open spec fn nonempty_trimmed(parts: Seq<Seq<char>>) -> Seq<Seq<char>>
    decreases parts.len(),
{
    if parts.len() == 0 {
        Seq::empty()
    } else {
        let prev = nonempty_trimmed(parts.drop_last());
        let t = trim(parts.last());
        if t.len() > 0 {
            prev.push(t)
        } else {
            prev
        }
    }
}

/// The keywords of a page: the comma-separated entries of its first
/// `keywords` meta tag, trimmed, without empty ones.
pub open spec fn spec_keywords(metas: Seq<(Seq<char>, Seq<char>)>) -> Seq<Seq<char>> {
    match find_meta(metas, "keywords"@) {
        Some(c) => nonempty_trimmed(split_on(c, ',')),
        None => Seq::empty(),
    }
}

/// The preview of a text: its first 200 bytes followed by three dots when it
/// is longer than 200 bytes, else the whole text.
pub open spec fn spec_content_preview(s: Seq<char>) -> Seq<char> {
    let bytes = encode_utf8(s);
    if bytes.len() > 200 {
        decode_utf8(bytes.subrange(0, 200)) + ellipsis()
    } else {
        s
    }
}

/// Where the text of a page can be cut for its preview: the text is short, or
/// its 200th byte ends a character.
pub open spec fn preview_cut_ok(s: Seq<char>) -> bool {
    encode_utf8(s).len() > 200 ==> is_char_boundary(encode_utf8(s), 200)
}

/// The index of the first of the names that equals `name`.
pub fn first_match(names: &Vec<String>, name: &str) -> (r: Option<usize>)
    ensures
        match r {
            Some(i) => i < names.len() && names@[i as int]@ == name@ && forall|j: int|
                0 <= j < i ==> #[trigger] names@[j]@ != name@,
            None => forall|j: int| 0 <= j < names.len() ==> #[trigger] names@[j]@ != name@,
        },
{
    let n = names.len();
    for i in 0..n
        invariant
            n == names.len(),
            forall|j: int| 0 <= j < i ==> #[trigger] names@[j]@ != name@,
    {
        if str_eq(names[i].as_str(), name) {
            return Some(i);
        }
    }
    None
}

/// The first meta tag whose lowercased name is `name` is the one at `i`
/// when no earlier one has that name and the one at `i` has it; there is
/// none when no meta tag has it.
proof fn lemma_find_meta_first(metas: Seq<(Seq<char>, Seq<char>)>, name: Seq<char>, i: int)
    requires
        0 <= i <= metas.len(),
        forall|j: int| 0 <= j < i ==> spec_to_lowercase(#[trigger] metas[j].0) != name,
    ensures
        i < metas.len() && spec_to_lowercase(metas[i].0) == name ==> find_meta(metas, name) == Some(
            metas[i].1,
        ),
        i == metas.len() ==> find_meta(metas, name) == None::<Seq<char>>,
    decreases i,
{
    if i > 0 {
        let rest = metas.drop_first();
        assert forall|j: int| 0 <= j < i - 1 implies spec_to_lowercase(#[trigger] rest[j].0) != name by {
            assert(rest[j] == metas[j + 1]);
        }
        lemma_find_meta_first(rest, name, i - 1);
        assert(spec_to_lowercase(metas[0].0) != name);
        if i < metas.len() {
            assert(rest[i - 1] == metas[i]);
        }
    }
}

/// The index of the first meta tag whose lowercased name is `name`.
pub fn find_meta_index(metas: &Vec<MetaTag>, name: &str) -> (r: Option<usize>)
    ensures
        match r {
            Some(i) => i < metas.len() && find_meta(metas_view(metas@), name@) == Some(
                metas@[i as int].content@,
            ),
            None => find_meta(metas_view(metas@), name@) == None::<Seq<char>>,
        },
{
    let ghost all = metas_view(metas@);
    let n = metas.len();
    let mut lowered: Vec<String> = Vec::new();
    for i in 0..n
        invariant
            n == metas.len(),
            all == metas_view(metas@),
            lowered.len() == i,
            forall|j: int| 0 <= j < i ==> #[trigger] lowered@[j]@ == spec_to_lowercase(all[j].0),
    {
        lowered.push(to_lowercase(metas[i].name.as_str()));
    }
    let r = first_match(&lowered, name);
    proof {
        match r {
            Some(i) => {
                assert forall|j: int| 0 <= j < i implies spec_to_lowercase(#[trigger] all[j].0)
                    != name@ by {
                    assert(lowered@[j]@ != name@);
                }
                assert(lowered@[i as int]@ == name@);
                lemma_find_meta_first(all, name@, i as int);
            },
            None => {
                assert forall|j: int| 0 <= j < all.len() implies spec_to_lowercase(
                    #[trigger] all[j].0,
                ) != name@ by {
                    assert(lowered@[j]@ != name@);
                }
                lemma_find_meta_first(all, name@, all.len() as int);
            },
        }
    }
    r
}

/// The first `k` characters of a text.
fn take_chars(v: &Vec<char>, k: usize) -> (r: Vec<char>)
    requires
        k <= v.len(),
    ensures
        r@ == v@.take(k as int),
{
    let mut r: Vec<char> = Vec::new();
    for i in 0..k
        invariant
            k <= v.len(),
            r@ == v@.take(i as int),
    {
        r.push(v[i]);
        assert(v@.take(i + 1) =~= v@.take(i as int).push(v@[i as int]));
    }
    r
}

/// Appends three dots.
fn push_ellipsis(v: &mut Vec<char>)
    ensures
        final(v)@ == old(v)@ + ellipsis(),
{
    v.push('.');
    v.push('.');
    v.push('.');
    assert(v@ =~= old(v)@ + ellipsis());
}

impl PageData {
    /// The description of the page: the content of its first meta tag named
    /// `description` (in any case), else its first 150 characters, followed
    /// by `...` when the text is longer than 150 bytes.
    pub fn get_description(&self) -> (r: String)
        ensures
            r@ == spec_description(metas_view(self.meta_tags@), self.content_text@),
    {
        match find_meta_index(&self.meta_tags, "description") {
            Some(i) => self.meta_tags[i].content.clone(),
            None => {
                let text = chars_of(self.content_text.as_str());
                let k = if text.len() <= 150 { text.len() } else { 150 };
                let mut head = take_chars(&text, k);
                assert(text@.take(text@.len() as int) =~= text@);
                if utf8_len(self.content_text.as_str()) > 150 {
                    push_ellipsis(&mut head);
                }
                let r = string_of(&head);
                assert(find_meta(metas_view(self.meta_tags@), "description"@) == None::<Seq<char>>);
                assert(r@ == excerpt(self.content_text@));
                r
            },
        }
    }

    /// The keywords of the page: the comma-separated entries of its first
    /// meta tag named `keywords` (in any case), trimmed, empty ones dropped.
    pub fn get_keywords(&self) -> (r: Vec<String>)
        ensures
            r@.map_values(|s: String| s@) == spec_keywords(metas_view(self.meta_tags@)),
    {
        match find_meta_index(&self.meta_tags, "keywords") {
            Some(i) => {
                let content = chars_of(self.meta_tags[i].content.as_str());
                let parts = split_chars(&content, ',');
                let n = parts.len();
                let mut out: Vec<String> = Vec::new();
                for j in 0..n
                    invariant
                        n == parts.len(),
                        out@.map_values(|s: String| s@) == nonempty_trimmed(
                            views(parts@).take(j as int),
                        ),
                {
                    let t = trim_chars(&parts[j]);
                    assert(views(parts@).take(j + 1).drop_last() =~= views(parts@).take(j as int));
                    if t.len() > 0 {
                        let s = string_of(&t);
                        out.push(s);
                    }
                    assert(out@.map_values(|s: String| s@) =~= nonempty_trimmed(
                        views(parts@).take(j + 1),
                    ));
                }
                assert(views(parts@).take(n as int) =~= views(parts@));
                out
            },
            None => {
                let out: Vec<String> = Vec::new();
                assert(out@.map_values(|s: String| s@) =~= Seq::<Seq<char>>::empty());
                out
            },
        }
    }
}

/// The preview of a page's text shown in listings: its first 200 bytes
/// followed by `...` when the text is longer, else the whole text.
pub fn content_preview(text: &str) -> (r: String)
    requires
        preview_cut_ok(text@),
    ensures
        r@ == spec_content_preview(text@),
{
    broadcast use vstd::utf8::encode_utf8_decode_utf8;

    assert(text.spec_bytes() == encode_utf8(text@));
    if utf8_len(text) > 200 {
        let (head, _rest) = text.split_at(200);
        let mut v = chars_of(head);
        assert(head.spec_bytes() == encode_utf8(head@));
        assert(decode_utf8(encode_utf8(head@)) == head@);
        assert(head.spec_bytes() == text.spec_bytes().subrange(0, 200));
        assert(decode_utf8(encode_utf8(text@).subrange(0, 200)) == head@);
        push_ellipsis(&mut v);
        let r = string_of(&v);
        assert(r@ == spec_content_preview(text@));
        r
    } else {
        let v = chars_of(text);
        string_of(&v)
    }
}

} // verus!

verus! {

proof fn lemma_nonempty_trimmed(parts: Seq<Seq<char>>)
    ensures
        forall|j: int|
            0 <= j < nonempty_trimmed(parts).len() ==> #[trigger] nonempty_trimmed(parts)[j].len()
                > 0 && crate::text::is_trimmed(nonempty_trimmed(parts)[j]),
    decreases parts.len(),
{
    if parts.len() > 0 {
        lemma_nonempty_trimmed(parts.drop_last());
        let prev = nonempty_trimmed(parts.drop_last());
        let t = trim(parts.last());
        crate::text::law_trim_is_trimmed(parts.last());
        if t.len() > 0 {
            assert forall|j: int| 0 <= j < prev.push(t).len() implies #[trigger] prev.push(t)[j].len()
                > 0 && crate::text::is_trimmed(prev.push(t)[j]) by {
                if j < prev.len() {
                    assert(prev.push(t)[j] == prev[j]);
                }
            }
        }
    }
}

/// Law: the keywords of a page are non-empty and trimmed.
pub proof fn law_keywords_trimmed(metas: Seq<(Seq<char>, Seq<char>)>)
    ensures
        forall|j: int|
            0 <= j < spec_keywords(metas).len() ==> #[trigger] spec_keywords(metas)[j].len() > 0
                && crate::text::is_trimmed(spec_keywords(metas)[j]),
{
    match find_meta(metas, "keywords"@) {
        Some(c) => lemma_nonempty_trimmed(split_on(c, ',')),
        None => {},
    }
}

proof fn lemma_utf8_len_at_least_chars(s: Seq<char>)
    ensures
        encode_utf8(s).len() >= s.len(),
    decreases s.len(),
{
    if s.len() > 0 {
        lemma_utf8_len_at_least_chars(s.drop_first());
        assert(vstd::utf8::encode_scalar(s[0] as u32).len() >= 1);
    }
}

/// Law: a description taken from the text has at most 153 characters, and a
/// text of at most 150 bytes is its own excerpt.
pub proof fn law_excerpt(s: Seq<char>)
    ensures
        excerpt(s).len() <= 153,
        encode_utf8(s).len() <= 150 ==> excerpt(s) == s,
{
    lemma_utf8_len_at_least_chars(s);
}

} // verus!

verus! {

/// Law: when a text is cut for its preview, what comes before the three dots
/// is the beginning of the text, exactly 200 bytes long in UTF-8.
pub proof fn law_content_preview(s: Seq<char>)
    requires
        preview_cut_ok(s),
    ensures
        encode_utf8(s).len() > 200 ==> {
            let head = decode_utf8(encode_utf8(s).subrange(0, 200));
            &&& spec_content_preview(s) == head + ellipsis()
            &&& crate::text::has_prefix(s, head)
            &&& encode_utf8(head).len() == 200
        },
        encode_utf8(s).len() <= 200 ==> spec_content_preview(s) == s,
{
    broadcast use vstd::utf8::encode_utf8_valid_utf8, vstd::utf8::encode_utf8_decode_utf8;

    let b = encode_utf8(s);
    if b.len() > 200 {
        assert(vstd::utf8::valid_utf8(b));
        vstd::utf8::valid_utf8_split(b, 200);
        vstd::utf8::decode_utf8_split(b, 200);
        let head = decode_utf8(b.subrange(0, 200));
        let tail = decode_utf8(b.subrange(200, b.len() as int));
        assert(decode_utf8(b) == s);
        assert(s =~= head + tail);
        assert(s.subrange(0, head.len() as int) =~= head);
        vstd::utf8::decode_utf8_encode_utf8(b.subrange(0, 200));
    }
}

} // verus!
