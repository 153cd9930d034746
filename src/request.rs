//! Turning a parsed command into one outgoing HTTP request.
use vstd::prelude::*;
use crate::address::{parse_url, url_acceptable};
use crate::kv::{KvKind, KvPair, ParseError};

verus! {

/// A character allowed in a header name: an ASCII letter or digit, or one of
/// ``!"#$%&'*+-.^_`|~``.
pub open spec fn header_name_char(c: char) -> bool {
    ('0' <= c && c <= '9') || ('a' <= c && c <= 'z') || ('A' <= c && c <= 'Z') || c == '!'
        || c == '"' || c == '#' || c == '$' || c == '%' || c == '&' || c == '\'' || c == '*'
        || c == '+' || c == '-' || c == '.' || c == '^' || c == '_' || c == '`' || c == '|'
        || c == '~'
}

/// A legal header name: 1 to 65535 characters, each allowed.
pub open spec fn header_name_valid(s: Seq<char>) -> bool {
    1 <= s.len() <= 65535 && forall|i: int| 0 <= i < s.len() ==> header_name_char(s[i])
}

/// Relies on `http::HeaderName::from_bytes` (re-exported by reqwest): it accepts the
/// name exactly when it is 1 to 65535 bytes long and every byte maps to a non-zero
/// entry of its `HEADER_CHARS` table (the characters of `header_name_char`).
#[verifier::external_body]
fn header_name_ok(s: &str) -> (r: bool)
    ensures
        r == header_name_valid(s@),
{
    reqwest::header::HeaderName::from_bytes(s.as_bytes()).is_ok()
}

/// A character allowed in a header value: visible or a space or tab; non-ASCII
/// characters encode to bytes above 127, which are allowed too.
pub open spec fn header_value_char(c: char) -> bool {
    (c as u32 >= 32 && c as u32 != 127) || c == '\t'
}

pub open spec fn header_value_valid(s: Seq<char>) -> bool {
    forall|i: int| 0 <= i < s.len() ==> header_value_char(s[i])
}

/// Relies on `http::HeaderValue::from_str` (re-exported by reqwest): it rejects the
/// text exactly when one of its bytes is below 32 (other than tab) or is 127.
#[verifier::external_body]
fn header_value_ok(s: &str) -> (r: bool)
    ensures
        r == header_value_valid(s@),
{
    reqwest::header::HeaderValue::from_str(s).is_ok()
}

/// A header name or value that HTTP does not allow.
#[derive(PartialEq, Eq, Structural, Clone, Copy, Debug)]
pub enum HeaderError {
    InvalidName,
    InvalidValue,
}

/// What is wrong with one header, if anything; the name is checked first.
pub open spec fn header_error(h: (Seq<char>, Seq<char>)) -> Option<HeaderError> {
    if !header_name_valid(h.0) {
        Some(HeaderError::InvalidName)
    } else if !header_value_valid(h.1) {
        Some(HeaderError::InvalidValue)
    } else {
        None
    }
}

/// The fault of the first bad header of `hs`, if any.
pub open spec fn headers_error(hs: Seq<(Seq<char>, Seq<char>)>) -> Option<HeaderError>
    decreases hs.len(),
{
    if hs.len() == 0 {
        None
    } else {
        match headers_error(hs.drop_last()) {
            Some(e) => Some(e),
            None => header_error(hs.last()),
        }
    }
}

pub open spec fn pair_view(p: (String, String)) -> (Seq<char>, Seq<char>) {
    (p.0@, p.1@)
}

pub open spec fn pairs_view(ps: Seq<(String, String)>) -> Seq<(Seq<char>, Seq<char>)> {
    ps.map_values(|p: (String, String)| pair_view(p))
}

pub open spec fn kv_view(p: KvPair) -> (Seq<char>, Seq<char>) {
    (p.k@, p.v@)
}

pub open spec fn kvs_view(ps: Seq<KvPair>) -> Seq<(Seq<char>, Seq<char>)> {
    ps.map_values(|p: KvPair| kv_view(p))
}

proof fn lemma_headers_error_prefix(hs: Seq<(Seq<char>, Seq<char>)>, i: int)
    requires
        0 <= i <= hs.len(),
        headers_error(hs.take(i)) is Some,
    ensures
        headers_error(hs) == headers_error(hs.take(i)),
    decreases hs.len() - i,
{
    if i < hs.len() {
        assert(hs.take(i + 1).drop_last() =~= hs.take(i));
        lemma_headers_error_prefix(hs, i + 1);
    } else {
        assert(hs.take(i) =~= hs);
    }
}

/// Checks every header in order and reports the fault of the first bad one.
pub fn check_headers(hs: &Vec<(String, String)>) -> (r: Result<(), HeaderError>)
    ensures
        match r {
            Ok(()) => headers_error(pairs_view(hs@)) is None,
            Err(e) => headers_error(pairs_view(hs@)) == Some(e),
        },
{
    let ghost all = pairs_view(hs@);
    let mut i: usize = 0;
    while i < hs.len()
        invariant
            i <= hs@.len(),
            all == pairs_view(hs@),
            headers_error(all.take(i as int)) is None,
        decreases hs@.len() - i,
    {
        let h = &hs[i];
        proof {
            assert(all.take(i + 1).drop_last() =~= all.take(i as int));
            assert(all[i as int] == pair_view(hs@[i as int]));
        }
        if !header_name_ok(h.0.as_str()) {
            proof {
                lemma_headers_error_prefix(all, i + 1);
            }
            return Err(HeaderError::InvalidName);
        }
        if !header_value_ok(h.1.as_str()) {
            proof {
                lemma_headers_error_prefix(all, i + 1);
            }
            return Err(HeaderError::InvalidValue);
        }
        i = i + 1;
    }
    proof {
        assert(all.take(i as int) =~= all);
    }
    Ok(())
}

/// The `(key, value, kind)` views of a sequence of pairs.
pub open spec fn triples(ps: Seq<KvPair>) -> Seq<(Seq<char>, Seq<char>, KvKind)> {
    ps.map_values(|p: KvPair| p.view_triple())
}

/// Index of the first entry of `m` whose key is `k`, or -1.
pub open spec fn key_pos(m: Seq<(Seq<char>, Seq<char>, KvKind)>, k: Seq<char>) -> int
    decreases m.len(),
{
    if m.len() == 0 {
        -1
    } else if key_pos(m.drop_last(), k) >= 0 {
        key_pos(m.drop_last(), k)
    } else if m.last().0 == k {
        m.len() - 1
    } else {
        -1
    }
}

/// Fields with repeated keys folded: each key keeps the place of its first
/// occurrence and the value and kind of its last.
pub open spec fn merged(s: Seq<(Seq<char>, Seq<char>, KvKind)>) -> Seq<(Seq<char>, Seq<char>, KvKind)>
    decreases s.len(),
{
    if s.len() == 0 {
        s
    } else {
        let m = merged(s.drop_last());
        let e = s.last();
        let i = key_pos(m, e.0);
        if i >= 0 {
            m.update(i, e)
        } else {
            m.push(e)
        }
    }
}

proof fn lemma_key_pos_prefix(m: Seq<(Seq<char>, Seq<char>, KvKind)>, k: Seq<char>, i: int)
    requires
        0 <= i <= m.len(),
        key_pos(m.take(i), k) >= 0,
    ensures
        key_pos(m, k) == key_pos(m.take(i), k),
    decreases m.len() - i,
{
    if i < m.len() {
        assert(m.take(i + 1).drop_last() =~= m.take(i));
        lemma_key_pos_prefix(m, k, i + 1);
    } else {
        assert(m.take(i) =~= m);
    }
}

fn copy_pair(p: &KvPair) -> (r: KvPair)
    ensures
        r.view_triple() == p.view_triple(),
{
    KvPair { k: p.k.clone(), v: p.v.clone(), kind: p.kind }
}

/// Index of the first pair of `out` with key `k`.
fn find_key(out: &Vec<KvPair>, k: &String) -> (r: Option<usize>)
    ensures
        match r {
            Some(j) => j as int == key_pos(triples(out@), k@) && j < out@.len(),
            None => key_pos(triples(out@), k@) == -1,
        },
{
    let ghost m = triples(out@);
    let mut j: usize = 0;
    while j < out.len()
        invariant
            j <= out@.len(),
            m == triples(out@),
            key_pos(m.take(j as int), k@) == -1,
        decreases out@.len() - j,
    {
        proof {
            assert(m.take(j + 1).drop_last() =~= m.take(j as int));
            assert(m[j as int] == out@[j as int].view_triple());
        }
        if out[j].k == *k {
            proof {
                lemma_key_pos_prefix(m, k@, j + 1);
            }
            return Some(j);
        }
        j = j + 1;
    }
    proof {
        assert(m.take(j as int) =~= m);
    }
    None
}

/// Folds repeated keys, the last value winning.
pub fn merge_fields(ps: &Vec<KvPair>) -> (r: Vec<KvPair>)
    ensures
        triples(r@) == merged(triples(ps@)),
{
    let ghost s = triples(ps@);
    let mut out: Vec<KvPair> = Vec::new();
    let mut i: usize = 0;
    proof {
        assert(s.take(0) =~= Seq::<(Seq<char>, Seq<char>, KvKind)>::empty());
        assert(triples(out@) =~= merged(s.take(0)));
    }
    while i < ps.len()
        invariant
            i <= ps@.len(),
            s == triples(ps@),
            triples(out@) == merged(s.take(i as int)),
        decreases ps@.len() - i,
    {
        let e = copy_pair(&ps[i]);
        proof {
            assert(s.take(i + 1).drop_last() =~= s.take(i as int));
            assert(s.take(i + 1).last() == s[i as int]);
        }
        match find_key(&out, &e.k) {
            Some(j) => {
                let ghost before = out@;
                out.set(j, e);
                proof {
                    assert(triples(out@) =~= triples(before).update(j as int, s[i as int]));
                }
            },
            None => {
                let ghost before = out@;
                out.push(e);
                proof {
                    assert(triples(out@) =~= triples(before).push(s[i as int]));
                }
            },
        }
        i = i + 1;
    }
    proof {
        assert(s.take(i as int) =~= s);
    }
    out
}

pub open spec fn hex_digit(d: int) -> char {
    seq!['0', '1', '2', '3', '4', '5', '6', '7', '8', '9', 'a', 'b', 'c', 'd', 'e', 'f'][d]
}

/// How one character stands inside a JSON string as `serde_json` writes it.
pub open spec fn json_escape(c: char) -> Seq<char> {
    let n = c as u32;
    if c == '"' {
        seq!['\\', '"']
    } else if c == '\\' {
        seq!['\\', '\\']
    } else if n == 8 {
        seq!['\\', 'b']
    } else if n == 9 {
        seq!['\\', 't']
    } else if n == 10 {
        seq!['\\', 'n']
    } else if n == 12 {
        seq!['\\', 'f']
    } else if n == 13 {
        seq!['\\', 'r']
    } else if n < 32 {
        seq!['\\', 'u', '0', '0', hex_digit((n / 16) as int), hex_digit((n % 16) as int)]
    } else {
        seq![c]
    }
}

pub open spec fn json_escaped(s: Seq<char>) -> Seq<char>
    decreases s.len(),
{
    if s.len() == 0 {
        Seq::empty()
    } else {
        json_escaped(s.drop_last()) + json_escape(s.last())
    }
}

/// The JSON string literal for `s`: quotes around each character escaped.
pub open spec fn json_quoted(s: Seq<char>) -> Seq<char> {
    seq!['"'] + json_escaped(s) + seq!['"']
}

/// Relies on `serde_json::to_string` for a string slice (`format_escaped_str` and its
/// `ESCAPE` table): a quote, each character escaped, a quote. Writing into memory does
/// not fail.
#[verifier::external_body]
fn json_string(s: &str) -> (r: String)
    ensures
        r@ == json_quoted(s@),
{
    match serde_json::to_string(s) {
        Ok(t) => t,
        Err(_) => String::new(),
    }
}

/// One property: the quoted key, a colon, and the quoted value; every value is a string.
pub open spec fn json_member(e: (Seq<char>, Seq<char>, KvKind)) -> Seq<char> {
    json_quoted(e.0) + seq![':'] + json_quoted(e.1)
}

/// The properties of `s`, in order, separated by commas.
pub open spec fn json_members(s: Seq<(Seq<char>, Seq<char>, KvKind)>) -> Seq<char>
    decreases s.len(),
{
    if s.len() == 0 {
        Seq::empty()
    } else if s.len() == 1 {
        json_member(s[0])
    } else {
        json_members(s.drop_last()) + seq![','] + json_member(s.last())
    }
}

/// A flat JSON object holding the properties of `s`.
pub open spec fn json_object(s: Seq<(Seq<char>, Seq<char>, KvKind)>) -> Seq<char> {
    seq!['{'] + json_members(s) + seq!['}']
}

fn member_text(p: &KvPair) -> (r: String)
    ensures
        r@ == json_member(p.view_triple()),
{
    let mut m = json_string(p.k.as_str());
    proof {
        reveal_strlit(":");
    }
    m.append(":");
    let q = json_string(p.v.as_str());
    m.append(q.as_str());
    proof {
        assert(m@ =~= json_member(p.view_triple()));
    }
    m
}

/// Writes the fields as one flat JSON object, in the order given.
pub fn json_text(fields: &Vec<KvPair>) -> (r: String)
    ensures
        r@ == json_object(triples(fields@)),
{
    let ghost s = triples(fields@);
    proof {
        reveal_strlit("{");
    }
    let mut out = "{".to_owned();
    let mut i: usize = 0;
    proof {
        assert(s.take(0) =~= Seq::<(Seq<char>, Seq<char>, KvKind)>::empty());
        assert(out@ =~= seq!['{'] + json_members(s.take(0)));
    }
    while i < fields.len()
        invariant
            i <= fields@.len(),
            s == triples(fields@),
            out@ == seq!['{'] + json_members(s.take(i as int)),
        decreases fields@.len() - i,
    {
        let ghost before = out@;
        if i > 0 {
            out.append(",");
        }
        let m = member_text(&fields[i]);
        out.append(m.as_str());
        proof {
            let t = s.take(i + 1);
            assert(t.drop_last() =~= s.take(i as int));
            assert(t.last() == s[i as int]);
            if i == 0 {
                assert(t.len() == 1 && t[0] == s[0]);
                assert(out@ =~= seq!['{'] + json_members(t));
            } else {
                assert(t.len() > 1);
                reveal_strlit(",");
                assert(","@ =~= seq![',']);
                assert(json_members(t) == json_members(s.take(i as int)) + seq![','] + json_member(s[i as int]));
                assert(out@ =~= seq!['{'] + json_members(t));
            }
        }
        i = i + 1;
    }
    out.append("}");
    proof {
        reveal_strlit("}");
        assert(s.take(i as int) =~= s);
        assert(out@ =~= json_object(s));
    }
    out
}

/// Headers sent with every request of the process.
pub struct ClientConfig {
    pub default_headers: Vec<(String, String)>,
}

pub open spec fn powered_by_header() -> (Seq<char>, Seq<char>) {
    ("X-POWERED-BY"@, "Rust"@)
}

pub open spec fn user_agent_header() -> (Seq<char>, Seq<char>) {
    ("User-Agent"@, "Rust Httpie"@)
}

pub open spec fn json_content_type_header() -> (Seq<char>, Seq<char>) {
    ("Content-Type"@, "application/json"@)
}

impl ClientConfig {
    /// The marker header and the identifying user agent.
    pub fn standard() -> (r: Self)
        ensures
            pairs_view(r.default_headers@) == seq![powered_by_header(), user_agent_header()],
    {
        let mut hs: Vec<(String, String)> = Vec::new();
        hs.push(("X-POWERED-BY".to_owned(), "Rust".to_owned()));
        hs.push(("User-Agent".to_owned(), "Rust Httpie".to_owned()));
        proof {
            assert(pairs_view(hs@) =~= seq![powered_by_header(), user_agent_header()]);
        }
        ClientConfig { default_headers: hs }
    }
}

/// A GET: the URL, the headers, and the query parameters in order.
pub struct GetSpec {
    pub url: String,
    pub headers: Vec<KvPair>,
    pub query: Vec<KvPair>,
}

/// A POST: the URL, the body fields in order, and the headers.
pub struct PostSpec {
    pub url: String,
    pub body: Vec<KvPair>,
    pub headers: Vec<KvPair>,
}

pub enum RequestSpec {
    Get(GetSpec),
    Post(PostSpec),
}

/// The entries of `s` that are headers (`header`) or that are fields (`!header`), in order.
pub open spec fn of_role(s: Seq<KvPair>, header: bool) -> Seq<KvPair>
    decreases s.len(),
{
    if s.len() == 0 {
        s
    } else if (s.last().kind == KvKind::Header) == header {
        of_role(s.drop_last(), header).push(s.last())
    } else {
        of_role(s.drop_last(), header)
    }
}

/// Splits parsed tokens into headers and fields, keeping their order.
fn split_roles(tokens: &Vec<KvPair>) -> (r: (Vec<KvPair>, Vec<KvPair>))
    ensures
        triples(r.0@) == triples(of_role(tokens@, true)),
        triples(r.1@) == triples(of_role(tokens@, false)),
{
    let ghost s = tokens@;
    let mut headers: Vec<KvPair> = Vec::new();
    let mut fields: Vec<KvPair> = Vec::new();
    let mut i: usize = 0;
    proof {
        assert(s.take(0) =~= Seq::<KvPair>::empty());
        assert(triples(headers@) =~= triples(of_role(s.take(0), true)));
        assert(triples(fields@) =~= triples(of_role(s.take(0), false)));
    }
    while i < tokens.len()
        invariant
            i <= s.len(),
            s == tokens@,
            triples(headers@) == triples(of_role(s.take(i as int), true)),
            triples(fields@) == triples(of_role(s.take(i as int), false)),
        decreases s.len() - i,
    {
        let p = copy_pair(&tokens[i]);
        proof {
            assert(s.take(i + 1).drop_last() =~= s.take(i as int));
            assert(s.take(i + 1).last() == s[i as int]);
        }
        let ghost h0 = headers@;
        let ghost f0 = fields@;
        if p.kind == KvKind::Header {
            headers.push(p);
            proof {
                assert(triples(headers@) =~= triples(h0).push(s[i as int].view_triple()));
                assert(triples(of_role(s.take(i + 1), true)) =~= triples(of_role(s.take(i as int), true)).push(s[i as int].view_triple()));
            }
        } else {
            fields.push(p);
            proof {
                assert(triples(fields@) =~= triples(f0).push(s[i as int].view_triple()));
                assert(triples(of_role(s.take(i + 1), false)) =~= triples(of_role(s.take(i as int), false)).push(s[i as int].view_triple()));
            }
        }
        i = i + 1;
    }
    proof {
        assert(s.take(i as int) =~= s);
    }
    (headers, fields)
}

impl GetSpec {
    /// A GET of `url`: tokens with `:` become headers, the others query parameters.
    pub fn from_tokens(url: &str, tokens: &Vec<KvPair>) -> (r: Result<GetSpec, ParseError>)
        ensures
            match r {
                Ok(g) => url_acceptable(url@) && g.url@ == url@
                    && triples(g.headers@) == triples(of_role(tokens@, true))
                    && triples(g.query@) == triples(of_role(tokens@, false)),
                Err(e) => !url_acceptable(url@) && e == ParseError::InvalidUrl,
            },
    {
        let url = parse_url(url)?;
        let (headers, query) = split_roles(tokens);
        Ok(GetSpec { url, headers, query })
    }
}

impl PostSpec {
    /// A POST to `url`: tokens with `:` become headers, the others body fields.
    pub fn from_tokens(url: &str, tokens: &Vec<KvPair>) -> (r: Result<PostSpec, ParseError>)
        ensures
            match r {
                Ok(p) => url_acceptable(url@) && p.url@ == url@
                    && triples(p.headers@) == triples(of_role(tokens@, true))
                    && triples(p.body@) == triples(of_role(tokens@, false)),
                Err(e) => !url_acceptable(url@) && e == ParseError::InvalidUrl,
            },
    {
        let url = parse_url(url)?;
        let (headers, body) = split_roles(tokens);
        Ok(PostSpec { url, body, headers })
    }
}

#[derive(PartialEq, Eq, Structural, Clone, Copy, Debug)]
pub enum Method {
    Get,
    Post,
}

/// One outgoing request, ready for the transport.
pub struct HttpRequest {
    pub method: Method,
    pub url: String,
    pub headers: Vec<(String, String)>,
    pub query: Vec<(String, String)>,
    pub body: Option<String>,
}

/// Every header the request carries: the defaults, then the user's, then, for a
/// POST, the JSON content type.
pub open spec fn request_headers(spec: &RequestSpec, config: &ClientConfig) -> Seq<(Seq<char>, Seq<char>)> {
    match spec {
        RequestSpec::Get(g) => pairs_view(config.default_headers@) + kvs_view(g.headers@),
        RequestSpec::Post(p) => pairs_view(config.default_headers@) + kvs_view(p.headers@)
            + seq![json_content_type_header()],
    }
}

fn copy_headers(hs: &Vec<(String, String)>) -> (r: Vec<(String, String)>)
    ensures
        pairs_view(r@) == pairs_view(hs@),
{
    let mut out: Vec<(String, String)> = Vec::new();
    let mut i: usize = 0;
    while i < hs.len()
        invariant
            i <= hs@.len(),
            pairs_view(out@) =~= pairs_view(hs@.take(i as int)),
        decreases hs@.len() - i,
    {
        let h = &hs[i];
        out.push((h.0.clone(), h.1.clone()));
        proof {
            assert(pairs_view(hs@.take(i + 1)) =~= pairs_view(hs@.take(i as int)).push(pair_view(hs@[i as int])));
        }
        i = i + 1;
    }
    proof {
        assert(hs@.take(i as int) =~= hs@);
    }
    out
}

fn append_pairs(out: &mut Vec<(String, String)>, ps: &Vec<KvPair>)
    ensures
        pairs_view(final(out)@) == pairs_view(old(out)@) + kvs_view(ps@),
{
    let ghost start = pairs_view(out@);
    let mut i: usize = 0;
    while i < ps.len()
        invariant
            i <= ps@.len(),
            pairs_view(out@) =~= start + kvs_view(ps@.take(i as int)),
        decreases ps@.len() - i,
    {
        let p = &ps[i];
        let ghost before = out@;
        out.push((p.k.clone(), p.v.clone()));
        proof {
            assert(pairs_view(out@) =~= pairs_view(before).push(kv_view(ps@[i as int])));
            assert(kvs_view(ps@.take(i + 1)) =~= kvs_view(ps@.take(i as int)).push(kv_view(ps@[i as int])));
        }
        i = i + 1;
    }
    proof {
        assert(ps@.take(i as int) =~= ps@);
    }
}

/// Builds the request: method, URL as given, every header (checked), the query
/// parameters of a GET in order, and the JSON object of a POST's fields.
pub fn build(spec: &RequestSpec, config: &ClientConfig) -> (r: Result<HttpRequest, HeaderError>)
    ensures
        match r {
            Ok(req) => {
                &&& headers_error(request_headers(spec, config)) is None
                &&& pairs_view(req.headers@) == request_headers(spec, config)
                &&& match spec {
                    RequestSpec::Get(g) => req.method == Method::Get && req.url@ == g.url@
                        && pairs_view(req.query@) == kvs_view(g.query@) && req.body is None,
                    RequestSpec::Post(p) => req.method == Method::Post && req.url@ == p.url@
                        && req.query@.len() == 0 && req.body is Some
                        && req.body.unwrap()@ == json_object(merged(triples(p.body@))),
                }
            },
            Err(e) => headers_error(request_headers(spec, config)) == Some(e),
        },
{
    let mut headers = copy_headers(&config.default_headers);
    match spec {
        RequestSpec::Get(g) => {
            append_pairs(&mut headers, &g.headers);
            check_headers(&headers)?;
            let mut query: Vec<(String, String)> = Vec::new();
            append_pairs(&mut query, &g.query);
            proof {
                assert(pairs_view(query@) =~= kvs_view(g.query@));
            }
            Ok(HttpRequest { method: Method::Get, url: g.url.clone(), headers, query, body: None })
        },
        RequestSpec::Post(p) => {
            append_pairs(&mut headers, &p.headers);
            let ghost before = pairs_view(headers@);
            headers.push(("Content-Type".to_owned(), "application/json".to_owned()));
            proof {
                assert(pairs_view(headers@) =~= before + seq![json_content_type_header()]);
            }
            check_headers(&headers)?;
            let fields = merge_fields(&p.body);
            let body = json_text(&fields);
            Ok(HttpRequest { method: Method::Post, url: p.url.clone(), headers, query: Vec::new(), body: Some(body) })
        },
    }
}

} // verus!
