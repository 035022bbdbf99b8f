//! URLs of relays, proxies and discovery servers.
use vstd::prelude::*;

verus! {

/// The normal form of a relay URL, or the text of the error.
pub uninterp spec fn relay_url_parsed(s: Seq<char>) -> Result<Seq<char>, Seq<char>>;

/// `iroh::RelayUrl`'s `FromStr`, and its `Display` for what was parsed.
#[verifier::external_body]
pub(crate) fn parse_relay_url(s: &str) -> (r: Result<String, String>)
    ensures
        match r {
            Ok(u) => relay_url_parsed(s@) == Ok::<Seq<char>, Seq<char>>(u@),
            Err(m) => relay_url_parsed(s@) == Err::<Seq<char>, Seq<char>>(m@),
        },
{
    match s.parse::<iroh::RelayUrl>() {
        Ok(u) => Ok(u.to_string()),
        Err(e) => Err(e.to_string()),
    }
}

/// The normal form and the host of a URL, or the text of the error.
pub uninterp spec fn url_parsed(s: Seq<char>) -> Result<(Seq<char>, Option<Seq<char>>), Seq<char>>;

/// The view of an optional string.
pub open spec fn opt_text(s: Option<String>) -> Option<Seq<char>> {
    match s {
        Some(t) => Some(t@),
        None => None,
    }
}

/// `url::Url`'s `FromStr`, with `Url::as_str` and `Url::host_str` of what was
/// parsed.
#[verifier::external_body]
pub(crate) fn parse_url(s: &str) -> (r: Result<(String, Option<String>), String>)
    ensures
        match r {
            Ok(u) => url_parsed(s@) == Ok::<(Seq<char>, Option<Seq<char>>), Seq<char>>(
                (u.0@, opt_text(u.1)),
            ),
            Err(m) => url_parsed(s@) == Err::<(Seq<char>, Option<Seq<char>>), Seq<char>>(m@),
        },
{
    match s.parse::<url::Url>() {
        Ok(u) => Ok((u.as_str().to_owned(), u.host_str().map(|h| h.to_owned()))),
        Err(e) => Err(e.to_string()),
    }
}

/// A text that may be missing is seen as it is.
pub proof fn missing_texts_are_seen(t: String)
    ensures
        opt_text(Some(t)) == Some(t@),
        opt_text(None) is None,
{
}

} // verus!
