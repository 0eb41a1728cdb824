//! The address to download from.
use crate::error::ToPyError;
use crate::text::topic_message;
use vstd::prelude::*;

verus! {

/// A parsed URL.
#[verifier::external_type_specification]
#[verifier::external_body]
pub struct ExUrl(url::Url);

/// What `url::Url::parse` makes of a text: the parsed URL, or the words of
/// the `Display` of the error that refused it.
pub uninterp spec fn url_parse(input: Seq<char>) -> Result<url::Url, Seq<char>>;

/// Wraps `url::Url::parse`: the parsed URL, or the text of the `ParseError`
/// that refused the input. The result depends on the input alone.
#[verifier::external_body]
fn parse_url(input: &str) -> (res: Result<url::Url, String>)
    ensures
        match res {
            Ok(u) => url_parse(input@) == Ok::<url::Url, Seq<char>>(u),
            Err(e) => url_parse(input@) == Err::<url::Url, Seq<char>>(e@),
        },
{
    match url::Url::parse(input) {
        Ok(u) => Ok(u),
        Err(e) => Err(e.to_string()),
    }
}

/// The URL to prefetch, or `Invalid URL: ` and the reason the text is no URL.
pub fn parse_target(url: &str) -> (r: Result<url::Url, String>)
    ensures
        match url_parse(url@) {
            Ok(u) => r == Ok::<url::Url, String>(u),
            Err(why) => r matches Err(m) && m@ == topic_message("Invalid URL"@, why),
        },
{
    parse_url(url).convert_err("Invalid URL")
}

} // verus!
