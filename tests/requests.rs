use httpie::kv::{parse_kv_pair, KvKind, KvPair, ParseError};
use httpie::request::{
    build, check_headers, json_text, merge_fields, ClientConfig, GetSpec, HeaderError, Method,
    PostSpec, RequestSpec,
};

fn tokens(ts: &[&str]) -> Vec<KvPair> {
    ts.iter().map(|t| parse_kv_pair(t).unwrap()).collect()
}

fn strs(ps: &[(String, String)]) -> Vec<(&str, &str)> {
    ps.iter().map(|(a, b)| (a.as_str(), b.as_str())).collect()
}

#[test]
fn standard_config_headers() {
    let c = ClientConfig::standard();
    assert_eq!(
        strs(&c.default_headers),
        vec![("X-POWERED-BY", "Rust"), ("User-Agent", "Rust Httpie")]
    );
}

#[test]
fn get_query_keeps_repeated_keys_in_order() {
    let g = GetSpec::from_tokens("http://h/p", &tokens(&["a=1", "a=2"])).unwrap();
    let req = build(&RequestSpec::Get(g), &ClientConfig::standard()).unwrap();
    assert_eq!(req.method, Method::Get);
    assert_eq!(req.url, "http://h/p");
    assert_eq!(strs(&req.query), vec![("a", "1"), ("a", "2")]);
    assert!(req.body.is_none());
}

#[test]
fn get_forwards_every_header() {
    let g = GetSpec::from_tokens("http://h", &tokens(&["Authorization:Bearer t", "X-Trace:1", "q=v"]))
        .unwrap();
    let req = build(&RequestSpec::Get(g), &ClientConfig::standard()).unwrap();
    assert_eq!(
        strs(&req.headers),
        vec![
            ("X-POWERED-BY", "Rust"),
            ("User-Agent", "Rust Httpie"),
            ("Authorization", "Bearer t"),
            ("X-Trace", "1"),
        ]
    );
    assert_eq!(strs(&req.query), vec![("q", "v")]);
}

#[test]
fn post_body_is_flat_json_object() {
    let p = PostSpec::from_tokens("http://h/post", &tokens(&["x=1"])).unwrap();
    let req = build(&RequestSpec::Post(p), &ClientConfig::standard()).unwrap();
    assert_eq!(req.method, Method::Post);
    assert_eq!(req.body.as_deref(), Some("{\"x\":\"1\"}"));
    assert!(strs(&req.headers).contains(&("Content-Type", "application/json")));
    assert!(req.query.is_empty());
}

#[test]
fn post_repeated_key_last_value_wins() {
    let p = PostSpec::from_tokens("http://h", &tokens(&["a=1", "b=2", "a=3"])).unwrap();
    let req = build(&RequestSpec::Post(p), &ClientConfig::standard()).unwrap();
    assert_eq!(req.body.as_deref(), Some("{\"a\":\"3\",\"b\":\"2\"}"));
}

#[test]
fn post_json_field_is_sent_as_string() {
    let p = PostSpec::from_tokens("http://h", &tokens(&["n:=5", "s=t", "x:=xyz"])).unwrap();
    let req = build(&RequestSpec::Post(p), &ClientConfig::standard()).unwrap();
    assert_eq!(req.body.as_deref(), Some("{\"n\":\"5\",\"s\":\"t\",\"x\":\"xyz\"}"));
}

#[test]
fn post_without_fields_sends_empty_object() {
    let p = PostSpec::from_tokens("http://h", &Vec::new()).unwrap();
    let req = build(&RequestSpec::Post(p), &ClientConfig::standard()).unwrap();
    assert_eq!(req.body.as_deref(), Some("{}"));
}

#[test]
fn json_text_escapes_strings() {
    let fields = vec![KvPair { k: "q\"k".into(), v: "a\\b\nc".into(), kind: KvKind::Field }];
    assert_eq!(json_text(&fields), "{\"q\\\"k\":\"a\\\\b\\nc\"}");
    let ctl = vec![KvPair { k: "c".into(), v: "\u{1f}\u{8}\t\u{c}\r/é".into(), kind: KvKind::Field }];
    assert_eq!(json_text(&ctl), "{\"c\":\"\\u001f\\b\\t\\f\\r/é\"}");
}

#[test]
fn merge_fields_keeps_first_place() {
    let merged = merge_fields(&tokens(&["a=1", "b=2", "a=3", "c=4"]));
    let got: Vec<(&str, &str)> = merged.iter().map(|p| (p.k.as_str(), p.v.as_str())).collect();
    assert_eq!(got, vec![("a", "3"), ("b", "2"), ("c", "4")]);
}

#[test]
fn bad_header_value_is_refused() {
    let mut hs = tokens(&["X-A:ok"]);
    hs.push(KvPair { k: "X-B".into(), v: "bad\nvalue".into(), kind: KvKind::Header });
    let g = GetSpec { url: "http://h".into(), headers: hs, query: Vec::new() };
    assert_eq!(
        build(&RequestSpec::Get(g), &ClientConfig::standard()).err(),
        Some(HeaderError::InvalidValue)
    );
}

#[test]
fn bad_header_name_is_refused() {
    let hs = vec![("bad name".to_string(), "v".to_string())];
    assert_eq!(check_headers(&hs), Err(HeaderError::InvalidName));
    let ok = vec![("X-Fine".to_string(), "tab\tok é".to_string())];
    assert_eq!(check_headers(&ok), Ok(()));
    let odd = vec![("a\"b~|`".to_string(), "v".to_string())];
    assert_eq!(check_headers(&odd), Ok(()));
    for bad in ["", "a(b", "a:b", "é", "a b"] {
        let hs = vec![(bad.to_string(), "v".to_string())];
        assert_eq!(check_headers(&hs), Err(HeaderError::InvalidName));
    }
    let long = vec![("a".repeat(65536), "v".to_string())];
    assert_eq!(check_headers(&long), Err(HeaderError::InvalidName));
    let longest = vec![("a".repeat(65535), "v".to_string())];
    assert_eq!(check_headers(&longest), Ok(()));
}

#[test]
fn spec_with_bad_url_is_refused() {
    assert_eq!(GetSpec::from_tokens("abc", &Vec::new()).err(), Some(ParseError::InvalidUrl));
    assert_eq!(PostSpec::from_tokens("abc", &Vec::new()).err(), Some(ParseError::InvalidUrl));
}
