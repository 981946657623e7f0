//! URLs as the `url` crate parses them.
//!
//! A parsed URL is held together with its serialization; the library speaks of
//! it by that serialization, from which the `url` crate's accessors read every
//! component (a `url::Url` is its serialization plus offsets into it).
use vstd::prelude::*;

verus! {

/// The `url` crate's URL type, made known to the verifier; values of it are
/// opaque.
#[verifier::external_type_specification]
#[verifier::external_body]
pub struct ExUrl(url::Url);

/// Why a text did not parse as a URL.
#[derive(PartialEq, Eq, Structural, Clone, Copy, Debug)]
pub enum UrlParseError {
    /// A relative reference was given with no base URL to resolve it against.
    RelativeUrlWithoutBase,
    /// Any other reason.
    Other,
}

/// A URL parsed by the `url` crate, with its serialization.
pub struct ParsedUrl {
    url: url::Url,
    serialization: String,
}

impl View for ParsedUrl {
    type V = Seq<char>;

    /// The serialization of the URL (what `url::Url::as_str` and its
    /// `Display` give).
    closed spec fn view(&self) -> Seq<char> {
        self.serialization@
    }
}

/// What `url::Url::parse` gives for a text: `Ok` with the serialization of the
/// parsed URL, or `Err(true)` for `ParseError::RelativeUrlWithoutBase` and
/// `Err(false)` for any other parse error.
pub uninterp spec fn spec_url_parse(s: Seq<char>) -> Result<Seq<char>, bool>;

/// What `url::Url::scheme` gives for the URL of a serialization.
pub uninterp spec fn spec_url_scheme(u: Seq<char>) -> Seq<char>;

/// What `url::Url::host_str` gives for the URL of a serialization.
pub uninterp spec fn spec_url_host(u: Seq<char>) -> Option<Seq<char>>;

/// What `url::Url::path` gives for the URL of a serialization.
pub uninterp spec fn spec_url_path(u: Seq<char>) -> Seq<char>;

/// What `url::Url::join` gives for the URL of a serialization and a
/// reference: the serialization of the joined URL, or `None` on an error.
pub uninterp spec fn spec_url_join(u: Seq<char>, reference: Seq<char>) -> Option<Seq<char>>;

/// The serialization after `url::Url::set_fragment(None)`.
pub uninterp spec fn spec_url_without_fragment(u: Seq<char>) -> Seq<char>;

/// The serialization after `url::Url::set_path(path)`.
pub uninterp spec fn spec_url_with_path(u: Seq<char>, path: Seq<char>) -> Seq<char>;

/// Calls `url::Url::parse`. Claimed: the outcome is a function of the text
/// alone; on success the parsed URL's serialization is the one named, on
/// failure the error is `RelativeUrlWithoutBase` exactly when the crate
/// reports `ParseError::RelativeUrlWithoutBase`. Nothing is stated of which
/// texts parse.
#[verifier::external_body]
pub(crate) fn parse_url(s: &str) -> (r: Result<ParsedUrl, UrlParseError>)
    ensures
        match r {
            Ok(u) => spec_url_parse(s@) == Ok::<Seq<char>, bool>(u@),
            Err(e) => spec_url_parse(s@) == Err::<Seq<char>, bool>(
                e == UrlParseError::RelativeUrlWithoutBase,
            ),
        },
{
    match url::Url::parse(s) {
        Ok(url) => {
            let serialization = url.to_string();
            Ok(ParsedUrl { url, serialization })
        },
        Err(url::ParseError::RelativeUrlWithoutBase) => Err(UrlParseError::RelativeUrlWithoutBase),
        Err(_) => Err(UrlParseError::Other),
    }
}

/// Calls `url::Url::scheme`. Claimed: the result is a function of the URL.
#[verifier::external_body]
pub(crate) fn url_scheme(u: &ParsedUrl) -> (r: String)
    ensures
        r@ == spec_url_scheme(u@),
{
    u.url.scheme().to_string()
}

/// Calls `url::Url::host_str`. Claimed: the result is a function of the URL.
#[verifier::external_body]
pub(crate) fn url_host(u: &ParsedUrl) -> (r: Option<String>)
    ensures
        match r {
            Some(h) => spec_url_host(u@) == Some(h@),
            None => spec_url_host(u@) == None::<Seq<char>>,
        },
{
    u.url.host_str().map(|h| h.to_string())
}

/// Calls `url::Url::path`. Claimed: the result is a function of the URL.
#[verifier::external_body]
pub(crate) fn url_path(u: &ParsedUrl) -> (r: String)
    ensures
        r@ == spec_url_path(u@),
{
    u.url.path().to_string()
}

/// Calls `url::Url::join`. Claimed: the outcome is a function of the URL and
/// the reference; on success the joined URL's serialization is the one named.
#[verifier::external_body]
pub(crate) fn url_join(u: &ParsedUrl, reference: &str) -> (r: Option<ParsedUrl>)
    ensures
        match r {
            Some(j) => spec_url_join(u@, reference@) == Some(j@),
            None => spec_url_join(u@, reference@) == None::<Seq<char>>,
        },
{
    match u.url.join(reference) {
        Ok(url) => {
            let serialization = url.to_string();
            Some(ParsedUrl { url, serialization })
        },
        Err(_) => None,
    }
}

/// Calls `url::Url::set_fragment(None)`. Claimed: the new serialization is a
/// function of the old one.
#[verifier::external_body]
pub(crate) fn url_clear_fragment(u: &mut ParsedUrl)
    ensures
        final(u)@ == spec_url_without_fragment(old(u)@),
{
    u.url.set_fragment(None);
    u.serialization = u.url.to_string();
}

/// Calls `url::Url::set_path`. Claimed: the new serialization is a function
/// of the old one and the path.
#[verifier::external_body]
pub(crate) fn url_set_path(u: &mut ParsedUrl, path: &str)
    ensures
        final(u)@ == spec_url_with_path(old(u)@, path@),
{
    u.url.set_path(path);
    u.serialization = u.url.to_string();
}

/// The serialization of a parsed URL (what its `to_string` gives).
pub fn url_to_string(u: &ParsedUrl) -> (r: String)
    ensures
        r@ == u@,
{
    u.serialization.clone()
}

} // verus!
