//! Pages as the page store keeps them: the scrape time as RFC 3339 text
//! (through the `chrono` crate) and the decoding of a stored row.
use vstd::prelude::*;

use crate::html::opt_view;
use crate::models::{metas_view, MetaTag, PageData};

verus! {

/// What `chrono::DateTime::parse_from_rfc3339` gives for a text, as
/// nanoseconds since the Unix epoch (`DateTime::timestamp_nanos_opt`);
/// `None` when the text does not parse or the time does not fit in `i64`
/// nanoseconds.
pub uninterp spec fn spec_rfc3339_nanos(text: Seq<char>) -> Option<i64>;

/// What `chrono::DateTime::from_timestamp_nanos` and `DateTime::to_rfc3339`
/// give for a number of nanoseconds since the Unix epoch (in UTC).
pub uninterp spec fn spec_rfc3339_text(nanos: i64) -> Seq<char>;

/// Calls `chrono::DateTime::parse_from_rfc3339` and takes the nanoseconds
/// since the Unix epoch. Claimed: the outcome is a function of the text.
#[verifier::external_body]
pub(crate) fn rfc3339_nanos(text: &str) -> (r: Option<i64>)
    ensures
        r == spec_rfc3339_nanos(text@),
{
    chrono::DateTime::parse_from_rfc3339(text).ok().and_then(|t| t.timestamp_nanos_opt())
}

/// Calls `chrono::DateTime::from_timestamp_nanos` and `DateTime::to_rfc3339`.
/// Claimed: the text is a function of the number of nanoseconds (the time
/// zone is always UTC).
#[verifier::external_body]
pub(crate) fn rfc3339_text(nanos: i64) -> (r: String)
    ensures
        r@ == spec_rfc3339_text(nanos),
{
    chrono::DateTime::from_timestamp_nanos(nanos).to_rfc3339()
}

/// The scrape time of a page as the store keeps it: RFC 3339 text.
pub fn stored_scrape_time(page: &PageData) -> (r: String)
    ensures
        r@ == spec_rfc3339_text(page.scraped_at),
{
    rfc3339_text(page.scraped_at)
}

/// The page of a stored row: its fields as stored, with the scrape time read
/// from its RFC 3339 text, or `now` when that text does not parse.
pub fn page_of_row(
    url: String,
    language: String,
    title: String,
    meta_tags: Vec<MetaTag>,
    canonical_url: Option<String>,
    content_text: String,
    scraped_at: &str,
    now: i64,
) -> (r: PageData)
    ensures
        r.url@ == url@,
        r.language@ == language@,
        r.title@ == title@,
        metas_view(r.meta_tags@) == metas_view(meta_tags@),
        opt_view(r.canonical_url) == opt_view(canonical_url),
        r.content_text@ == content_text@,
        r.scraped_at == match spec_rfc3339_nanos(scraped_at@) {
            Some(s) => s,
            None => now,
        },
{
    let nanos = match rfc3339_nanos(scraped_at) {
        Some(t) => t,
        None => now,
    };
    PageData { url, language, title, meta_tags, canonical_url, content_text, scraped_at: nanos }
}

} // verus!
