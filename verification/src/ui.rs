//! What the user interface shows of pages.
use vstd::prelude::*;

use crate::models::{
    content_preview, metas_view, preview_cut_ok, spec_content_preview, spec_description, PageData,
};
use crate::records::{rfc3339_text, spec_rfc3339_text};
use crate::text::{chars_of, string_of};
use vstd::utf8::{decode_utf8, encode_utf8, valid_utf8};

verus! {

/// A page as listings show it.
#[derive(Clone, Debug)]
pub struct PageSummary {
    pub url: String,
    pub title: String,
    pub language: String,
    pub description: String,
    /// The scrape time as RFC 3339 text.
    pub scraped_at: String,
    pub content_preview: String,
}

/// The summary of a page: its URL, title and language, its description, its
/// scrape time as RFC 3339 text and the preview of its text.
pub fn page_summary(page: &PageData) -> (r: PageSummary)
    requires
        preview_cut_ok(page.content_text@),
    ensures
        r.url@ == page.url@,
        r.title@ == page.title@,
        r.language@ == page.language@,
        r.description@ == spec_description(metas_view(page.meta_tags@), page.content_text@),
        r.scraped_at@ == spec_rfc3339_text(page.scraped_at),
        r.content_preview@ == spec_content_preview(page.content_text@),
{
    PageSummary {
        url: page.url.clone(),
        title: page.title.clone(),
        language: page.language.clone(),
        description: page.get_description(),
        scraped_at: rfc3339_text(page.scraped_at),
        content_preview: content_preview(page.content_text.as_str()),
    }
}

/// The value of an ASCII hexadecimal digit (either case).
pub open spec fn hex_value(b: u8) -> Option<u8> {
    if 0x30 <= b <= 0x39 {
        Some((b - 0x30) as u8)
    } else if 0x41 <= b <= 0x46 {
        Some((b - 0x41 + 10) as u8)
    } else if 0x61 <= b <= 0x66 {
        Some((b - 0x61 + 10) as u8)
    } else {
        None
    }
}

/// Percent-decoding of bytes: each `%` followed by two hexadecimal digits
/// becomes the byte they give; every other byte, a `%` that starts no such
/// escape and `+` included, is kept.
pub open spec fn percent_decode_bytes(b: Seq<u8>) -> Seq<u8>
    decreases b.len(),
{
    if b.len() == 0 {
        Seq::empty()
    } else if b[0] == 0x25 && b.len() >= 3 && hex_value(b[1]) is Some && hex_value(b[2]) is Some {
        seq![(hex_value(b[1])->0 * 16 + hex_value(b[2])->0) as u8] + percent_decode_bytes(b.skip(3))
    } else {
        seq![b[0]] + percent_decode_bytes(b.skip(1))
    }
}

/// Percent-decoding of a text: its UTF-8 bytes percent-decoded, read back as
/// UTF-8; `None` when the decoded bytes are not UTF-8.
pub open spec fn spec_percent_decode(s: Seq<char>) -> Option<Seq<char>> {
    let d = percent_decode_bytes(encode_utf8(s));
    if valid_utf8(d) {
        Some(decode_utf8(d))
    } else {
        None
    }
}

/// Calls `urlencoding::decode`. Claimed, as its source shows: the UTF-8
/// bytes of the text are percent-decoded (`%` and two hexadecimal digits of
/// either case give one byte, anything else is kept as it is) and the result
/// is `Ok` exactly when those bytes are UTF-8, with the text they encode.
#[verifier::external_body]
pub(crate) fn percent_decode(s: &str) -> (r: Option<String>)
    ensures
        match r {
            Some(d) => spec_percent_decode(s@) == Some(d@),
            None => spec_percent_decode(s@) == None::<Seq<char>>,
        },
{
    urlencoding::decode(s).ok().map(|d| d.to_string())
}

/// The URL of a page as given in a request path: percent-decoded, or as it is
/// when it does not decode.
pub fn decode_page_url(url: &str) -> (r: String)
    ensures
        r@ == match spec_percent_decode(url@) {
            Some(d) => d,
            None => url@,
        },
{
    match percent_decode(url) {
        Some(d) => d,
        None => string_of(&chars_of(url)),
    }
}

/// The full-text search pattern for a query: the query as a prefix (`*`
/// appended).
pub fn search_pattern(query: &str) -> (r: String)
    ensures
        r@ == query@.push('*'),
{
    let mut v = chars_of(query);
    v.push('*');
    string_of(&v)
}

} // verus!
