use httpie::kv::{parse_kv_pair, KvKind, KvPair, ParseError};

fn pair(k: &str, v: &str, kind: KvKind) -> KvPair {
    KvPair { k: k.into(), v: v.into(), kind }
}

#[test]
fn parse_kv_pair_works() {
    assert!(parse_kv_pair("a").is_err());
    assert_eq!(
        parse_kv_pair("a=1").unwrap(),
        KvPair {
            k: "a".into(),
            v: "1".into(),
            kind: KvKind::Field,
        }
    );

    assert_eq!(
        parse_kv_pair("b=").unwrap(),
        KvPair {
            k: "b".into(),
            v: "".into(),
            kind: KvKind::Field,
        }
    );
}

#[test]
fn token_without_operator_is_rejected() {
    assert_eq!(parse_kv_pair("abc"), Err(ParseError::MissingDelimiter));
    assert_eq!(parse_kv_pair(""), Err(ParseError::MissingDelimiter));
    assert_eq!(parse_kv_pair("a b-c.d"), Err(ParseError::MissingDelimiter));
}

#[test]
fn empty_key_is_rejected() {
    assert_eq!(parse_kv_pair("=1"), Err(ParseError::EmptyKey));
    assert_eq!(parse_kv_pair(":=1"), Err(ParseError::EmptyKey));
    assert_eq!(parse_kv_pair(":x"), Err(ParseError::EmptyKey));
}

#[test]
fn field_keeps_rest_of_value() {
    assert_eq!(parse_kv_pair("a=b=c"), Ok(pair("a", "b=c", KvKind::Field)));
    assert_eq!(
        parse_kv_pair("next=http://x.y/z"),
        Ok(pair("next", "http://x.y/z", KvKind::Field))
    );
    assert_eq!(parse_kv_pair("name=é"), Ok(pair("name", "é", KvKind::Field)));
}

#[test]
fn json_field_takes_precedence() {
    assert_eq!(parse_kv_pair("a:=1=2"), Ok(pair("a", "1=2", KvKind::JsonField)));
    assert_eq!(parse_kv_pair("a=b:=c"), Ok(pair("a=b", "c", KvKind::JsonField)));
    assert_eq!(parse_kv_pair("n:="), Ok(pair("n", "", KvKind::JsonField)));
}

#[test]
fn colon_makes_a_header() {
    assert_eq!(
        parse_kv_pair("Authorization:Bearer t"),
        Ok(pair("Authorization", "Bearer t", KvKind::Header))
    );
    assert_eq!(parse_kv_pair("X-A:b:c"), Ok(pair("X-A", "b:c", KvKind::Header)));
}
