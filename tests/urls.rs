use httpie::address::{checked_url, parse_url};
use httpie::kv::ParseError;

#[test]
fn parse_url_works() {
    assert!(parse_url("abc").is_err());
    assert!(parse_url("http://abc.xyz").is_ok());
    assert!(parse_url("https://httpbin.org/post").is_ok());
}

#[test]
fn url_is_returned_unchanged() {
    assert_eq!(parse_url("http://abc.xyz"), Ok("http://abc.xyz".to_string()));
    assert_eq!(parse_url("https://host/path"), Ok("https://host/path".to_string()));
    assert_eq!(parse_url("HTTP://Host/A/../b"), Ok("HTTP://Host/A/../b".to_string()));
}

#[test]
fn url_without_scheme_is_rejected() {
    assert_eq!(parse_url("abc"), Err(ParseError::InvalidUrl));
    assert_eq!(parse_url("/relative/path"), Err(ParseError::InvalidUrl));
    assert_eq!(parse_url(""), Err(ParseError::InvalidUrl));
}

#[test]
fn url_without_host_is_rejected() {
    assert_eq!(parse_url("mailto:a@b.c"), Err(ParseError::InvalidUrl));
    assert_eq!(parse_url("data:text/plain,Stuff"), Err(ParseError::InvalidUrl));
    assert_eq!(parse_url("unix:/run/foo.socket"), Err(ParseError::InvalidUrl));
}

#[test]
fn checked_url_follows_parse_outcome() {
    assert_eq!(checked_url("x:y", &Some(Some("h".to_string()))), Ok("x:y".to_string()));
    assert_eq!(checked_url("http://a", &None), Err(ParseError::InvalidUrl));
    assert_eq!(checked_url("m:a", &Some(None)), Err(ParseError::InvalidUrl));
    assert_eq!(checked_url("f://", &Some(Some(String::new()))), Err(ParseError::InvalidUrl));
}
