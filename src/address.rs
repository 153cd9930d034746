//! Validation of the target URL, kept exactly as the user typed it.
use vstd::prelude::*;
use crate::kv::ParseError;

verus! {

/// What `url::Url::parse` and `Url::host_str` make of `s`: none if it does not parse,
/// then the host text if the URL has a host.
pub uninterp spec fn url_host_of(s: Seq<char>) -> Option<Option<Seq<char>>>;

/// Relies on `url::Url::parse` (re-exported as `reqwest::Url`) and `Url::host_str`: the
/// outcome depends on the text alone, and text without any `:` has no scheme, so it
/// has no base to be resolved against and is rejected.
#[verifier::external_body]
fn url_host(s: &str) -> (r: Option<Option<String>>)
    ensures
        match r {
            None => url_host_of(s@) is None,
            Some(None) => url_host_of(s@) == Some(None::<Seq<char>>),
            Some(Some(h)) => url_host_of(s@) == Some(Some(h@)),
        },
        (forall|i: int| 0 <= i < s@.len() ==> s@[i] != ':') ==> r is None,
{
    reqwest::Url::parse(s).ok().map(|u| u.host_str().map(|h| h.to_string()))
}

/// An absolute URL: it parses, and has a scheme and a non-empty host.
pub open spec fn has_host(host: Option<Option<Seq<char>>>) -> bool {
    match host {
        Some(Some(h)) => h.len() > 0,
        _ => false,
    }
}

pub open spec fn url_acceptable(s: Seq<char>) -> bool {
    has_host(url_host_of(s))
}

pub open spec fn host_view(host: &Option<Option<String>>) -> Option<Option<Seq<char>>> {
    match host {
        None => None,
        Some(None) => Some(None),
        Some(Some(h)) => Some(Some(h@)),
    }
}

/// Decides on `s` given what parsing it found: accepted only with a non-empty host.
pub fn checked_url(s: &str, host: &Option<Option<String>>) -> (r: Result<String, ParseError>)
    ensures
        match r {
            Ok(u) => has_host(host_view(host)) && u@ == s@,
            Err(e) => !has_host(host_view(host)) && e == ParseError::InvalidUrl,
        },
{
    match host {
        Some(Some(h)) => {
            if h.as_str().unicode_len() > 0 {
                Ok(s.to_owned())
            } else {
                Err(ParseError::InvalidUrl)
            }
        },
        _ => Err(ParseError::InvalidUrl),
    }
}

/// Accepts `s` unchanged when it is an absolute URL with a scheme and a non-empty host.
pub fn parse_url(s: &str) -> (r: Result<String, ParseError>)
    ensures
        match r {
            Ok(u) => url_acceptable(s@) && u@ == s@,
            Err(e) => !url_acceptable(s@) && e == ParseError::InvalidUrl,
        },
        (forall|i: int| 0 <= i < s@.len() ==> s@[i] != ':') ==> r is Err,
{
    let host = url_host(s);
    checked_url(s, &host)
}

} // verus!
