use crate::error::{is_text_result, Error};
use crate::text::{has_prefix, starts_with};
use vstd::prelude::*;
use vstd::string::StringExecFns;

verus! {

/// The origin of the one site that is searched.
pub const BASE_URL: &'static str = "https://www.opensubtitles.org";

/// The serialization of the URL that `text` parses to, as `Url::parse`
/// gives it; `None` where `text` does not parse.
pub uninterp spec fn parsed_url(text: Seq<char>) -> Option<Seq<char>>;

/// `Url::parse` of the url crate, as reqwest hands it on, followed by the
/// conversion of the URL into its serialization. The contract only gives the
/// result its name: the same text always parses to the same URL.
#[verifier::external_body]
fn parse_url(text: &str) -> (r: Option<String>)
    ensures
        r is Some == parsed_url(text@) is Some,
        r is Some ==> r->Some_0@ == parsed_url(text@)->Some_0,
{
    match reqwest::Url::parse(text) {
        Ok(url) => Some(String::from(url)),
        Err(_) => None,
    }
}

/// The text of the search address for a language and a fingerprint.
pub open spec fn search_address(lang: Seq<char>, hash: Seq<char>) -> Seq<char> {
    BASE_URL@ + "/pl/search/sublanguageid-"@ + lang + "/moviehash-"@ + hash
}

/// The text that a link of a page stands for: the link itself where it
/// begins with the origin, else the origin followed by the link.
pub open spec fn absolute_address(href: Seq<char>) -> Seq<char> {
    if has_prefix(href, BASE_URL@) {
        href
    } else {
        BASE_URL@ + href
    }
}

/// The URL that `text` parses to, or `InvalidUrl`.
pub open spec fn url_of(text: Seq<char>) -> Result<Seq<char>, Error> {
    match parsed_url(text) {
        Some(url) => Ok(url),
        None => Err(Error::InvalidUrl),
    }
}

/// Parses an address that is already put together.
pub fn check_url(text: &str) -> (r: Result<String, Error>)
    ensures
        is_text_result(r, url_of(text@)),
{
    match parse_url(text) {
        Some(url) => Ok(url),
        None => Err(Error::InvalidUrl),
    }
}

/// The address of the search for subtitles in `lang` for the file with
/// fingerprint `hash`.
pub fn url(lang: &str, hash: String) -> (r: Result<String, Error>)
    ensures
        is_text_result(r, url_of(search_address(lang@, hash@))),
{
    let mut text: String = String::from_str(BASE_URL);
    text.append("/pl/search/sublanguageid-");
    text.append(lang);
    text.append("/moviehash-");
    text.append(hash.as_str());
    check_url(text.as_str())
}

/// The URL of a link of a page, absolute or relative to the origin.
pub fn to_url_in_base(href: &str) -> (r: Result<String, Error>)
    ensures
        is_text_result(r, url_of(absolute_address(href@))),
{
    if starts_with(href, BASE_URL) {
        check_url(href)
    } else {
        let mut text: String = String::from_str(BASE_URL);
        text.append(href);
        check_url(text.as_str())
    }
}

} // verus!
