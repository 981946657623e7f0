//! HTML selection through the `scraper` crate, and whitespace collapsing
//! through the `regex` crate.
//!
//! A document is given by its source text; what the library reads of it
//! (the text nodes, attributes or inner HTML of the elements that a CSS
//! selector matches) comes back as plain strings.
use vstd::prelude::*;

use crate::text::{collapse_ws, str_views};

verus! {

/// The views of the text nodes of each selected element.
pub open spec fn texts_view(v: Seq<Vec<String>>) -> Seq<Seq<Seq<char>>> {
    v.map_values(|e: Vec<String>| str_views(e@))
}

/// The view of an optional string.
pub open spec fn opt_view(o: Option<String>) -> Option<Seq<char>> {
    match o {
        Some(s) => Some(s@),
        None => None,
    }
}

/// The views of the requested attributes of each selected element.
pub open spec fn attrs_view(v: Seq<Vec<Option<String>>>) -> Seq<Seq<Option<Seq<char>>>> {
    v.map_values(|e: Vec<Option<String>>| e@.map_values(|o: Option<String>| opt_view(o)))
}

/// The view of an optional selection of element texts.
pub open spec fn selection_view(o: Option<Vec<Vec<String>>>) -> Option<Seq<Seq<Seq<char>>>> {
    match o {
        Some(v) => Some(texts_view(v@)),
        None => None,
    }
}

/// For an HTML document and a CSS selector: `None` when `scraper::Selector::parse`
/// rejects the selector, else, for each element that the selector matches in
/// `scraper::Html::parse_document` of the text, in the order `Html::select`
/// yields them (the order of the document tree's nodes), the text nodes that
/// `ElementRef::text` yields.
pub uninterp spec fn spec_select_texts(html: Seq<char>, selector: Seq<char>) -> Option<
    Seq<Seq<Seq<char>>>,
>;

/// For an HTML document, a CSS selector and attribute names: `None` when the
/// selector does not parse, else, for each matched element in the order
/// `Html::select` yields them, the value of each named attribute
/// (`ElementRef::attr`).
pub uninterp spec fn spec_select_attrs(
    html: Seq<char>,
    selector: Seq<char>,
    names: Seq<Seq<char>>,
) -> Option<Seq<Seq<Option<Seq<char>>>>>;

/// For an HTML document and a CSS selector: `None` when the selector does not
/// parse, else the inner HTML (`ElementRef::inner_html`) of each matched
/// element, in the order `Html::select` yields them.
pub uninterp spec fn spec_select_inner_html(html: Seq<char>, selector: Seq<char>) -> Option<
    Seq<Seq<char>>,
>;

/// Parses the document once with `scraper::Html::parse_document` and, for each
/// selector, parses it with `scraper::Selector::parse` and collects the text
/// nodes of each matched element. Claimed: one result per selector, each the
/// one named for the document and that selector (a function of the two).
#[verifier::external_body]
pub(crate) fn select_texts(html: &str, selectors: &Vec<&str>) -> (r: Vec<Option<Vec<Vec<String>>>>)
    ensures
        r.len() == selectors.len(),
        forall|i: int|
            0 <= i < selectors.len() ==> #[trigger] selection_view(r@[i]) == spec_select_texts(
                html@,
                selectors@[i]@,
            ),
{
    let document = scraper::Html::parse_document(html);
    let mut out = Vec::new();
    for s in selectors.iter() {
        out.push(scraper::Selector::parse(s).ok().map(|sel| {
            document.select(&sel).map(|e| e.text().map(|t| t.to_string()).collect()).collect()
        }));
    }
    out
}

/// Parses the document with `scraper::Html::parse_document` and the selector
/// with `scraper::Selector::parse`, and reads the named attributes of each
/// matched element with `ElementRef::attr`. Claimed: the result is the one
/// named, with one value per requested name for each element.
#[verifier::external_body]
pub(crate) fn select_attrs(html: &str, selector: &str, names: &Vec<&str>) -> (r: Option<
    Vec<Vec<Option<String>>>,
>)
    ensures
        match r {
            Some(v) => {
                &&& spec_select_attrs(html@, selector@, names@.map_values(|n: &str| n@)) == Some(
                    attrs_view(v@),
                )
                &&& forall|i: int| 0 <= i < v.len() ==> #[trigger] v@[i].len() == names.len()
            },
            None => spec_select_attrs(html@, selector@, names@.map_values(|n: &str| n@)) == None::<
                Seq<Seq<Option<Seq<char>>>>,
            >,
        },
{
    let sel = scraper::Selector::parse(selector).ok()?;
    let document = scraper::Html::parse_document(html);
    Some(
        document.select(&sel).map(|e| names.iter().map(|n| e.attr(n).map(|a| a.to_string())).collect())
            .collect(),
    )
}

/// Parses the document with `scraper::Html::parse_document` and the selector
/// with `scraper::Selector::parse`, and serializes the inner HTML of each
/// matched element with `ElementRef::inner_html`. Claimed: the result is the
/// one named.
#[verifier::external_body]
pub(crate) fn select_inner_html(html: &str, selector: &str) -> (r: Option<Vec<String>>)
    ensures
        match r {
            Some(v) => spec_select_inner_html(html@, selector@) == Some(str_views(v@)),
            None => spec_select_inner_html(html@, selector@) == None::<Seq<Seq<char>>>,
        },
{
    let sel = scraper::Selector::parse(selector).ok()?;
    let document = scraper::Html::parse_document(html);
    Some(document.select(&sel).map(|e| e.inner_html()).collect())
}

/// Replaces every match of the regex `\s+` in the text by one space, with
/// `regex::Regex::replace_all`. Claimed, as the crate documents it: `\s` is
/// the Unicode `White_Space` class and the matches are the maximal runs of
/// whitespace, so the result is `collapse_ws` of the text.
#[verifier::external_body]
pub(crate) fn collapse_whitespace(s: &str) -> (r: String)
    ensures
        r@ == collapse_ws(s@),
{
    let re = regex::Regex::new(r"\s+").unwrap();
    re.replace_all(s, " ").to_string()
}

} // verus!
