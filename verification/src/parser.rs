//! Reading a page: its main text content, its language and its links.
use vstd::prelude::*;

use crate::html::{
    attrs_view, collapse_whitespace, select_attrs, select_texts, selection_view,
    spec_select_attrs, spec_select_texts, texts_view,
};
use crate::models::{metas_view, MetaTag};
use crate::text::{
    append_chars, chars_of, collapse_ws, has_prefix, spec_to_lowercase, starts_with, str_eq,
    str_views, string_of, to_lowercase, trim, trim_chars, trim_str,
};
use crate::urls::{
    parse_url, spec_url_join, spec_url_parse, spec_url_scheme, url_join, url_scheme,
    url_to_string, UrlParseError,
};
use crate::utils::{is_web_scheme, is_web_scheme_spec};

verus! {

// ---------------------------------------------------------------------------
// Main content
// ---------------------------------------------------------------------------
/// The pieces joined by single spaces (`[&str]::join(" ")`).
pub open spec fn join_spaced(parts: Seq<Seq<char>>) -> Seq<char>
    decreases parts.len(),
{
    if parts.len() == 0 {
        Seq::empty()
    } else if parts.len() == 1 {
        parts[0]
    } else {
        join_spaced(parts.drop_last()) + seq![' '] + parts.last()
    }
}

/// The text gathered from the elements a selector matched: the text of each
/// element (its text nodes joined by spaces) that is not blank, each followed
/// by a space.
pub open spec fn gather(elems: Seq<Seq<Seq<char>>>) -> Seq<char>
    decreases elems.len(),
{
    if elems.len() == 0 {
        Seq::empty()
    } else {
        let prev = gather(elems.drop_last());
        let t = join_spaced(elems.last());
        if trim(t).len() > 0 {
            prev + t + seq![' ']
        } else {
            prev
        }
    }
}

/// The text of the first selection that gathers any text; empty if none.
pub open spec fn pick_content(sels: Seq<Option<Seq<Seq<Seq<char>>>>>) -> Seq<char>
    decreases sels.len(),
{
    if sels.len() == 0 {
        Seq::empty()
    } else {
        match sels[0] {
            Some(elems) => if gather(elems).len() > 0 {
                gather(elems)
            } else {
                pick_content(sels.drop_first())
            },
            None => pick_content(sels.drop_first()),
        }
    }
}

/// The main content from the selections of the content containers (in
/// order of preference) and of `body`: the text of the first container
/// selection that has any; when that is blank, the text of the first `body`
/// element instead; then whitespace runs collapsed to one space and the
/// result trimmed.
pub open spec fn spec_assemble_main_content(
    sels: Seq<Option<Seq<Seq<Seq<char>>>>>,
    body: Option<Seq<Seq<Seq<char>>>>,
) -> Seq<char> {
    let c = pick_content(sels);
    let c2 = if trim(c).len() == 0 {
        match body {
            Some(elems) => if elems.len() > 0 {
                join_spaced(elems[0])
            } else {
                c
            },
            None => c,
        }
    } else {
        c
    };
    trim(collapse_ws(c2))
}

/// The selectors of the usual content containers, in order of preference.
pub open spec fn content_selectors() -> Seq<Seq<char>> {
    seq![
        "article"@,
        "main"@,
        ".main-content"@,
        "#content"@,
        ".content"@,
        "[role=main]"@,
        ".post-content"@,
        ".entry-content"@,
    ]
}

/// The main content of an HTML document.
pub open spec fn spec_main_content(html: Seq<char>) -> Seq<char> {
    spec_assemble_main_content(
        content_selectors().map_values(|s: Seq<char>| spec_select_texts(html, s)),
        spec_select_texts(html, "body"@),
    )
}

/// The text nodes joined by single spaces.
pub fn join_with_spaces(parts: &Vec<String>) -> (r: Vec<char>)
    ensures
        r@ == join_spaced(str_views(parts@)),
{
    let mut out: Vec<char> = Vec::new();
    let n = parts.len();
    assert(str_views(parts@).take(0) =~= Seq::<Seq<char>>::empty());
    for i in 0..n
        invariant
            n == parts.len(),
            out@ == join_spaced(str_views(parts@).take(i as int)),
    {
        let piece = chars_of(parts[i].as_str());
        let ghost t = str_views(parts@).take(i + 1);
        assert(t.drop_last() =~= str_views(parts@).take(i as int));
        assert(t.last() == piece@);
        if i > 0 {
            out.push(' ');
        } else {
            assert(t =~= seq![piece@]);
        }
        append_chars(&mut out, &piece);
        assert(out@ =~= join_spaced(t));
    }
    assert(str_views(parts@).take(n as int) =~= str_views(parts@));
    out
}

/// The text gathered from the elements that one selector matched.
pub fn gather_text(elems: &Vec<Vec<String>>) -> (r: Vec<char>)
    ensures
        r@ == gather(texts_view(elems@)),
{
    let mut out: Vec<char> = Vec::new();
    let n = elems.len();
    assert(texts_view(elems@).take(0) =~= Seq::<Seq<Seq<char>>>::empty());
    for i in 0..n
        invariant
            n == elems.len(),
            out@ == gather(texts_view(elems@).take(i as int)),
    {
        let t = join_with_spaces(&elems[i]);
        let ghost tk = texts_view(elems@).take(i + 1);
        assert(tk.drop_last() =~= texts_view(elems@).take(i as int));
        assert(tk.last() == str_views(elems@[i as int]@));
        let tt = trim_chars(&t);
        if tt.len() > 0 {
            append_chars(&mut out, &t);
            out.push(' ');
        }
        assert(out@ =~= gather(tk));
    }
    assert(texts_view(elems@).take(n as int) =~= texts_view(elems@));
    out
}

/// The views of a sequence of selections.
pub open spec fn selections_view(v: Seq<Option<Vec<Vec<String>>>>) -> Seq<
    Option<Seq<Seq<Seq<char>>>>,
> {
    v.map_values(|o: Option<Vec<Vec<String>>>| selection_view(o))
}

/// Assembles the main content from the selections of the content containers
/// (in order of preference) and of `body`.
pub fn assemble_main_content(
    selections: &Vec<Option<Vec<Vec<String>>>>,
    body: &Option<Vec<Vec<String>>>,
) -> (r: String)
    ensures
        r@ == spec_assemble_main_content(selections_view(selections@), selection_view(*body)),
{
    let ghost sels = selections_view(selections@);
    let n = selections.len();
    let mut content: Vec<char> = Vec::new();
    let mut i: usize = 0;
    assert(sels.skip(0) =~= sels);
    while i < n
        invariant_except_break
            n == selections.len(),
            sels == selections_view(selections@),
            i <= n,
            content@ == Seq::<char>::empty(),
            pick_content(sels) == pick_content(sels.skip(i as int)),
        ensures
            sels == selections_view(selections@),
            content@ == pick_content(sels),
        decreases n - i,
    {
        assert(sels.skip(i as int)[0] == selection_view(selections@[i as int]));
        assert(sels.skip(i as int).drop_first() =~= sels.skip(i + 1));
        match &selections[i] {
            Some(elems) => {
                let g = gather_text(elems);
                if g.len() > 0 {
                    content = g;
                    break;
                }
            },
            None => {},
        }
        i += 1;
    }
    if i == n {
        assert(sels.skip(n as int).len() == 0);
    }
    let trimmed = trim_chars(&content);
    if trimmed.len() == 0 {
        match body {
            Some(elems) => {
                if elems.len() > 0 {
                    content = join_with_spaces(&elems[0]);
                }
            },
            None => {},
        }
    }
    let s = string_of(&content);
    clean_content(s.as_str())
}

/// Cleans a text: each run of whitespace becomes one space, and the result is
/// trimmed.
pub fn clean_content(content: &str) -> (r: String)
    ensures
        r@ == trim(collapse_ws(content@)),
{
    let collapsed = collapse_whitespace(content);
    trim_str(collapsed.as_str())
}

/// Extracts the main text content of an HTML document: the text of the
/// first usual content container that has any (`article`, `main`, ...), else
/// that of the `body`, cleaned.
pub fn extract_main_content(html: &str) -> (r: String)
    ensures
        r@ == spec_main_content(html@),
{
    let selectors: Vec<&str> = vec![
        "article",
        "main",
        ".main-content",
        "#content",
        ".content",
        "[role=main]",
        ".post-content",
        ".entry-content",
        "body",
    ];
    let mut all = select_texts(html, &selectors);
    let ghost whole = all@;
    let body = all.pop().unwrap();
    assert(selection_view(body) == spec_select_texts(html@, "body"@)) by {
        assert(selection_view(whole[8]) == spec_select_texts(html@, selectors@[8]@));
    }
    assert(selections_view(all@) =~= content_selectors().map_values(
        |s: Seq<char>| spec_select_texts(html@, s),
    )) by {
        assert forall|i: int| 0 <= i < 8 implies #[trigger] selections_view(all@)[i]
            == spec_select_texts(html@, content_selectors()[i]) by {
            assert(all@[i] == whole[i]);
            assert(selection_view(whole[i]) == spec_select_texts(html@, selectors@[i]@));
        }
    }
    assemble_main_content(&all, &body)
}

/// Law: the main content of a document neither starts nor ends with
/// whitespace, and its only whitespace is single spaces, never two in a row.
pub proof fn law_main_content_clean(html: Seq<char>)
    ensures
        crate::text::is_trimmed(spec_main_content(html)),
        crate::text::is_collapsed(spec_main_content(html)),
{
    let sels = content_selectors().map_values(|s: Seq<char>| spec_select_texts(html, s));
    let body = spec_select_texts(html, "body"@);
    let c = pick_content(sels);
    let c2 = if trim(c).len() == 0 {
        match body {
            Some(elems) => if elems.len() > 0 {
                join_spaced(elems[0])
            } else {
                c
            },
            None => c,
        }
    } else {
        c
    };
    crate::text::law_clean_text(c2);
}

/// A text with a character that is not whitespace keeps one when trimmed.
proof fn lemma_trim_keeps_nonblank(s: Seq<char>, k: int)
    requires
        0 <= k < s.len(),
        !crate::text::is_ws(s[k]),
    ensures
        trim(s).len() > 0,
{
    lemma_trim_start_nonblank(s, k);
    lemma_trim_end_nonblank(crate::text::trim_start(s));
}

proof fn lemma_trim_start_nonblank(s: Seq<char>, k: int)
    requires
        0 <= k < s.len(),
        !crate::text::is_ws(s[k]),
    ensures
        crate::text::trim_start(s).len() > 0,
        !crate::text::is_ws(crate::text::trim_start(s)[0]),
    decreases s.len(),
{
    if crate::text::is_ws(s[0]) {
        assert(k > 0);
        assert(s.drop_first()[k - 1] == s[k]);
        lemma_trim_start_nonblank(s.drop_first(), k - 1);
    }
}

proof fn lemma_trim_end_nonblank(s: Seq<char>)
    requires
        s.len() > 0,
        !crate::text::is_ws(s[0]),
    ensures
        crate::text::trim_end(s).len() > 0,
    decreases s.len(),
{
    if crate::text::is_ws(s.last()) {
        assert(s.len() > 1);
        assert(s.drop_last()[0] == s[0]);
        lemma_trim_end_nonblank(s.drop_last());
    }
}

/// A non-blank text has a character that is not whitespace.
proof fn lemma_nonblank_char(t: Seq<char>)
    requires
        trim(t).len() > 0,
    ensures
        exists|k: int| 0 <= k < t.len() && !crate::text::is_ws(#[trigger] t[k]),
{
    crate::text::law_trim_is_trimmed(t);
    let i = choose|i: int| crate::text::occurs_at(t, trim(t), i);
    assert(t.subrange(i, i + trim(t).len())[0] == t[i]);
}

/// The text gathered from elements of which one is non-blank is non-blank.
proof fn lemma_gather_nonblank(elems: Seq<Seq<Seq<char>>>, i: int)
    requires
        0 <= i < elems.len(),
        trim(join_spaced(elems[i])).len() > 0,
    ensures
        exists|k: int| 0 <= k < gather(elems).len() && !crate::text::is_ws(#[trigger] gather(elems)[k]),
    decreases elems.len(),
{
    let p = elems.drop_last();
    let prev = gather(p);
    let t = join_spaced(elems.last());
    if i < elems.len() - 1 {
        assert(p[i] == elems[i]);
        lemma_gather_nonblank(p, i);
        let k = choose|k: int| 0 <= k < prev.len() && !crate::text::is_ws(#[trigger] prev[k]);
        if trim(t).len() > 0 {
            assert(gather(elems) == prev + t + seq![' ']);
            assert((prev + t + seq![' '])[k] == prev[k]);
            assert(!crate::text::is_ws(gather(elems)[k]));
        } else {
            assert(gather(elems) == prev);
            assert(!crate::text::is_ws(gather(elems)[k]));
        }
    } else {
        assert(elems[i] == elems.last());
        lemma_nonblank_char(t);
        let k = choose|k: int| 0 <= k < t.len() && !crate::text::is_ws(#[trigger] t[k]);
        assert(gather(elems) == prev + t + seq![' ']);
        assert((prev + t + seq![' '])[prev.len() + k] == t[k]);
        assert(!crate::text::is_ws(gather(elems)[prev.len() + k]));
    }
}

/// Law: when a document has a non-blank `article` element, its main content
/// is the cleaned text of its `article` elements, whatever other content
/// containers (`main`, `.content`, ...) or body it has.
pub proof fn law_article_first(html: Seq<char>, elems: Seq<Seq<Seq<char>>>, i: int)
    requires
        spec_select_texts(html, "article"@) == Some(elems),
        0 <= i < elems.len(),
        trim(join_spaced(elems[i])).len() > 0,
    ensures
        spec_main_content(html) == trim(collapse_ws(gather(elems))),
{
    let sels = content_selectors().map_values(|s: Seq<char>| spec_select_texts(html, s));
    assert(content_selectors()[0] == "article"@);
    assert(sels[0] == Some(elems));
    lemma_gather_nonblank(elems, i);
    let k = choose|k: int| 0 <= k < gather(elems).len() && !crate::text::is_ws(#[trigger] gather(elems)[k]);
    lemma_trim_keeps_nonblank(gather(elems), k);
    assert(pick_content(sels) == gather(elems));
}

// ---------------------------------------------------------------------------
// Language
// ---------------------------------------------------------------------------
/// A lowercased meta tag name that gives the language of a page.
pub open spec fn is_language_name(l: Seq<char>) -> bool {
    l == "content-language"@ || l == "language"@ || l == "lang"@
}

/// The content of the first meta tag that gives the language.
pub open spec fn find_language(metas: Seq<(Seq<char>, Seq<char>)>) -> Option<Seq<char>>
    decreases metas.len(),
{
    if metas.len() == 0 {
        None
    } else if is_language_name(spec_to_lowercase(metas[0].0)) {
        Some(metas[0].1)
    } else {
        find_language(metas.drop_first())
    }
}

/// The language of a page: from its first `content-language`, `language` or
/// `lang` meta tag, else `en`.
pub open spec fn spec_detect_language(metas: Seq<(Seq<char>, Seq<char>)>) -> Seq<char> {
    match find_language(metas) {
        Some(c) => c,
        None => "en"@,
    }
}

/// The index of the first lowercased meta tag name that gives the language
/// (`content-language`, `language` or `lang`).
pub fn first_language_name(names: &Vec<String>) -> (r: Option<usize>)
    ensures
        match r {
            Some(i) => i < names.len() && is_language_name(names@[i as int]@) && forall|j: int|
                0 <= j < i ==> !is_language_name(#[trigger] names@[j]@),
            None => forall|j: int| 0 <= j < names.len() ==> !is_language_name(#[trigger] names@[j]@),
        },
{
    let n = names.len();
    for i in 0..n
        invariant
            n == names.len(),
            forall|j: int| 0 <= j < i ==> !is_language_name(#[trigger] names@[j]@),
    {
        let name = names[i].as_str();
        if str_eq(name, "content-language") || str_eq(name, "language") || str_eq(name, "lang") {
            return Some(i);
        }
    }
    None
}

/// The first meta tag that gives the language is the one at `i` when no
/// earlier one does and the one at `i` does; there is none when no meta tag
/// does.
proof fn lemma_find_language_first(metas: Seq<(Seq<char>, Seq<char>)>, i: int)
    requires
        0 <= i <= metas.len(),
        forall|j: int| 0 <= j < i ==> !is_language_name(spec_to_lowercase(#[trigger] metas[j].0)),
    ensures
        i < metas.len() && is_language_name(spec_to_lowercase(metas[i].0)) ==> find_language(metas)
            == Some(metas[i].1),
        i == metas.len() ==> find_language(metas) == None::<Seq<char>>,
    decreases i,
{
    if i > 0 {
        let rest = metas.drop_first();
        assert forall|j: int| 0 <= j < i - 1 implies !is_language_name(
            spec_to_lowercase(#[trigger] rest[j].0),
        ) by {
            assert(rest[j] == metas[j + 1]);
        }
        lemma_find_language_first(rest, i - 1);
        assert(!is_language_name(spec_to_lowercase(metas[0].0)));
        if i < metas.len() {
            assert(rest[i - 1] == metas[i]);
        }
    }
}

/// Detects the language of a page from its meta tags, with `en` as the
/// default; the content itself is not looked at.
pub fn detect_language(_content: &str, meta_tags: &Vec<MetaTag>) -> (r: String)
    ensures
        r@ == spec_detect_language(metas_view(meta_tags@)),
{
    let ghost all = metas_view(meta_tags@);
    let n = meta_tags.len();
    let mut lowered: Vec<String> = Vec::new();
    for i in 0..n
        invariant
            n == meta_tags.len(),
            all == metas_view(meta_tags@),
            lowered.len() == i,
            forall|j: int| 0 <= j < i ==> #[trigger] lowered@[j]@ == spec_to_lowercase(all[j].0),
    {
        lowered.push(to_lowercase(meta_tags[i].name.as_str()));
    }
    match first_language_name(&lowered) {
        Some(i) => {
            proof {
                assert forall|j: int| 0 <= j < i implies !is_language_name(
                    spec_to_lowercase(#[trigger] all[j].0),
                ) by {
                    assert(!is_language_name(lowered@[j]@));
                }
                assert(is_language_name(lowered@[i as int]@));
                lemma_find_language_first(all, i as int);
            }
            meta_tags[i].content.clone()
        },
        None => {
            proof {
                assert forall|j: int| 0 <= j < all.len() implies !is_language_name(
                    spec_to_lowercase(#[trigger] all[j].0),
                ) by {
                    assert(!is_language_name(lowered@[j]@));
                }
                lemma_find_language_first(all, all.len() as int);
            }
            let en = chars_of("en");
            string_of(&en)
        },
    }
}

// ---------------------------------------------------------------------------
// Links
// ---------------------------------------------------------------------------
/// A reference that is not followed: a fragment, or a `javascript:`,
/// `mailto:` or `tel:` link.
pub open spec fn is_skipped_href(href: Seq<char>) -> bool {
    has_prefix(href, "#"@) || has_prefix(href, "javascript:"@) || has_prefix(href, "mailto:"@)
        || has_prefix(href, "tel:"@)
}

/// The absolute form of a link found on a page at `base`: an absolute
/// `http`/`https` URL as it is, a relative reference joined onto the base,
/// and nothing for other references.
pub open spec fn spec_normalize_url(href: Seq<char>, base: Seq<char>) -> Option<Seq<char>> {
    if is_skipped_href(href) {
        None
    } else {
        match spec_url_parse(href) {
            Ok(u) => if is_web_scheme_spec(spec_url_scheme(u)) {
                Some(u)
            } else {
                None
            },
            Err(relative) => if relative {
                match spec_url_parse(base) {
                    Ok(b) => spec_url_join(b, href),
                    Err(_) => None,
                }
            } else {
                None
            },
        }
    }
}

/// Law: an href that the `url` crate parses as an absolute URL with scheme
/// `http` or `https` (and that is not a fragment, `javascript:`, `mailto:`
/// or `tel:` link) normalizes to that URL, whatever the page's URL.
pub proof fn law_absolute_web_links_kept(href: Seq<char>, base: Seq<char>, u: Seq<char>)
    requires
        spec_url_parse(href) == Ok::<Seq<char>, bool>(u),
        spec_url_scheme(u) == "http"@ || spec_url_scheme(u) == "https"@,
        !is_skipped_href(href),
    ensures
        spec_normalize_url(href, base) == Some(u),
{
}

/// Law: an href written as `http://...` or `https://...` that the `url` crate
/// parses with scheme `http` or `https` normalizes to the parsed URL.
pub proof fn law_http_links_kept(href: Seq<char>, base: Seq<char>, u: Seq<char>)
    requires
        has_prefix(href, "http://"@) || has_prefix(href, "https://"@),
        spec_url_parse(href) == Ok::<Seq<char>, bool>(u),
        spec_url_scheme(u) == "http"@ || spec_url_scheme(u) == "https"@,
    ensures
        spec_normalize_url(href, base) == Some(u),
{
    reveal_strlit("http://");
    reveal_strlit("https://");
    reveal_strlit("#");
    reveal_strlit("javascript:");
    reveal_strlit("mailto:");
    reveal_strlit("tel:");
    assert(href[0] == 'h') by {
        if has_prefix(href, "http://"@) {
            assert(href.subrange(0, 7)[0] == href[0]);
        } else {
            assert(href.subrange(0, 8)[0] == href[0]);
        }
    }
    assert(!has_prefix(href, "#"@)) by {
        if has_prefix(href, "#"@) {
            assert(href.subrange(0, 1)[0] == href[0]);
        }
    }
    assert(!has_prefix(href, "javascript:"@)) by {
        if has_prefix(href, "javascript:"@) {
            assert(href.subrange(0, 11)[0] == href[0]);
        }
    }
    assert(!has_prefix(href, "mailto:"@)) by {
        if has_prefix(href, "mailto:"@) {
            assert(href.subrange(0, 7)[0] == href[0]);
        }
    }
    assert(!has_prefix(href, "tel:"@)) by {
        if has_prefix(href, "tel:"@) {
            assert(href.subrange(0, 4)[0] == href[0]);
        }
    }
}

/// Law: every link element whose `href` normalizes contributes its
/// normalized URL to the page's links.
pub proof fn law_links_include_normalized(elems: Seq<Seq<Option<Seq<char>>>>, base: Seq<char>)
    ensures
        forall|i: int|
            0 <= i < elems.len() && elems[i].len() > 0 && elems[i][0] is Some
                && #[trigger] spec_normalize_url(elems[i][0]->0, base) is Some ==> links_of(
                elems,
                base,
            ).contains(spec_normalize_url(elems[i][0]->0, base)->0),
    decreases elems.len(),
{
    if elems.len() > 0 {
        let p = elems.drop_last();
        law_links_include_normalized(p, base);
        let prev = links_of(p, base);
        assert forall|i: int|
            0 <= i < elems.len() && elems[i].len() > 0 && elems[i][0] is Some
                && #[trigger] spec_normalize_url(elems[i][0]->0, base) is Some implies links_of(
            elems,
            base,
        ).contains(spec_normalize_url(elems[i][0]->0, base)->0) by {
            let e = elems.last();
            let grows = e.len() > 0 && e[0] is Some && spec_normalize_url(e[0]->0, base) is Some;
            if i < elems.len() - 1 {
                assert(elems[i] == p[i]);
                let x = spec_normalize_url(p[i][0]->0, base)->0;
                assert(spec_normalize_url(p[i][0]->0, base) is Some);
                let j = choose|j: int| 0 <= j < prev.len() && prev[j] == x;
                if grows {
                    assert(prev.push(spec_normalize_url(e[0]->0, base)->0)[j] == prev[j]);
                }
            } else {
                assert(elems[i] == e);
                let y = spec_normalize_url(e[0]->0, base)->0;
                assert(prev.push(y)[prev.len() as int] == y);
            }
        }
    }
}

/// Law: an `a[href]` link of a document whose href is written as `http://...`
/// or `https://...` and parses with scheme `http` or `https` is among the
/// document's links, as the parsed URL.
pub proof fn law_page_links_keep_http(
    html: Seq<char>,
    base: Seq<char>,
    i: int,
    href: Seq<char>,
    u: Seq<char>,
)
    requires
        spec_select_attrs(html, "a[href]"@, seq!["href"@]) is Some,
        0 <= i < spec_select_attrs(html, "a[href]"@, seq!["href"@])->0.len(),
        spec_select_attrs(html, "a[href]"@, seq!["href"@])->0[i].len() > 0,
        spec_select_attrs(html, "a[href]"@, seq!["href"@])->0[i][0] == Some(href),
        has_prefix(href, "http://"@) || has_prefix(href, "https://"@),
        spec_url_parse(href) == Ok::<Seq<char>, bool>(u),
        spec_url_scheme(u) == "http"@ || spec_url_scheme(u) == "https"@,
    ensures
        spec_extract_links(html, base).contains(u),
{
    let elems = spec_select_attrs(html, "a[href]"@, seq!["href"@])->0;
    law_http_links_kept(href, base, u);
    law_links_include_normalized(elems, base);
    assert(spec_normalize_url(elems[i][0]->0, base) is Some);
}

/// Whether a text starts with the given literal.
fn starts_with_literal(s: &Vec<char>, lit: &str) -> (b: bool)
    ensures
        b == has_prefix(s@, lit@),
{
    let p = chars_of(lit);
    starts_with(s, &p)
}

/// Normalizes a link to absolute form.
pub fn normalize_url(href: &str, base_url: &str) -> (r: Option<String>)
    ensures
        match r {
            Some(u) => spec_normalize_url(href@, base_url@) == Some(u@),
            None => spec_normalize_url(href@, base_url@) == None::<Seq<char>>,
        },
{
    let h = chars_of(href);
    if starts_with_literal(&h, "#") || starts_with_literal(&h, "javascript:")
        || starts_with_literal(&h, "mailto:") || starts_with_literal(&h, "tel:") {
        return None;
    }
    match parse_url(href) {
        Ok(u) => {
            let scheme = url_scheme(&u);
            if is_web_scheme(scheme.as_str()) {
                Some(url_to_string(&u))
            } else {
                None
            }
        },
        Err(UrlParseError::RelativeUrlWithoutBase) => match parse_url(base_url) {
            Ok(base) => match url_join(&base, href) {
                Some(full) => Some(url_to_string(&full)),
                None => None,
            },
            Err(_) => None,
        },
        Err(UrlParseError::Other) => None,
    }
}

/// The links of a page from the `href` attribute of its `a[href]` elements:
/// each normalized against the base, those that do not normalize dropped.
pub open spec fn links_of(elems: Seq<Seq<Option<Seq<char>>>>, base: Seq<char>) -> Seq<Seq<char>>
    decreases elems.len(),
{
    if elems.len() == 0 {
        Seq::empty()
    } else {
        let prev = links_of(elems.drop_last(), base);
        let e = elems.last();
        if e.len() > 0 && e[0] is Some && spec_normalize_url(e[0]->0, base) is Some {
            prev.push(spec_normalize_url(e[0]->0, base)->0)
        } else {
            prev
        }
    }
}

/// The links of a page given the `href` attribute of each link element.
pub fn links_from_hrefs(elems: &Vec<Vec<Option<String>>>, base_url: &str) -> (r: Vec<String>)
    ensures
        str_views(r@) == links_of(attrs_view(elems@), base_url@),
{
    let mut out: Vec<String> = Vec::new();
    let n = elems.len();
    assert(attrs_view(elems@).take(0) =~= Seq::<Seq<Option<Seq<char>>>>::empty());
    for i in 0..n
        invariant
            n == elems.len(),
            str_views(out@) == links_of(attrs_view(elems@).take(i as int), base_url@),
    {
        let ghost tk = attrs_view(elems@).take(i + 1);
        assert(tk.drop_last() =~= attrs_view(elems@).take(i as int));
        let e = &elems[i];
        if e.len() > 0 {
            assert(tk.last()[0] == crate::html::opt_view(e@[0]));
            match &e[0] {
                Some(href) => {
                    match normalize_url(href.as_str(), base_url) {
                        Some(link) => {
                            let ghost before = str_views(out@);
                            out.push(link);
                            assert(str_views(out@) =~= before.push(out@.last()@));
                        },
                        None => {},
                    }
                },
                None => {},
            }
        }
        assert(str_views(out@) =~= links_of(tk, base_url@));
    }
    assert(attrs_view(elems@).take(n as int) =~= attrs_view(elems@));
    out
}

/// The links of an HTML document, in absolute form.
pub open spec fn spec_extract_links(html: Seq<char>, base: Seq<char>) -> Seq<Seq<char>> {
    match spec_select_attrs(html, "a[href]"@, seq!["href"@]) {
        Some(elems) => links_of(elems, base),
        None => Seq::empty(),
    }
}

/// Extracts the links of an HTML document, normalized to absolute form
/// against the URL of the page.
pub fn extract_links(html: &str, base_url: &str) -> (r: Vec<String>)
    ensures
        str_views(r@) == spec_extract_links(html@, base_url@),
{
    let names: Vec<&str> = vec!["href"];
    assert(names@.map_values(|n: &str| n@) =~= seq!["href"@]);
    match select_attrs(html, "a[href]", &names) {
        Some(elems) => links_from_hrefs(&elems, base_url),
        None => {
            let out: Vec<String> = Vec::new();
            assert(str_views(out@) =~= Seq::<Seq<char>>::empty());
            out
        },
    }
}

} // verus!
