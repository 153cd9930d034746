//! Turning a received response into the text shown to the user.
use vstd::prelude::*;
use crate::request::{pair_view, pairs_view};

verus! {

/// The subtype of the media type `s` as `mime` parses it, or none if it does not parse.
pub uninterp spec fn mime_subtype_of(s: Seq<char>) -> Option<Seq<char>>;

/// Relies on `mime::Mime`'s `FromStr` and `Mime::subtype`: the (lower-cased) subtype
/// of a media type that parses; it depends on the text alone.
#[verifier::external_body]
fn media_subtype(s: &str) -> (r: Option<String>)
    ensures
        match r {
            Some(t) => mime_subtype_of(s@) == Some(t@),
            None => mime_subtype_of(s@) is None,
        },
{
    s.parse::<mime::Mime>().ok().map(|m| m.subtype().as_str().to_string())
}

/// The JSON text `s` re-indented by `jsonxf`, or none if the formatter fails.
pub uninterp spec fn pretty_json_of(s: Seq<char>) -> Option<Seq<char>>;

/// Relies on `jsonxf::pretty_print`: the re-indented text, or an error when the
/// formatter gives up; the outcome depends on the text alone.
#[verifier::external_body]
fn pretty_json(s: &str) -> (r: Option<String>)
    ensures
        match r {
            Some(t) => pretty_json_of(s@) == Some(t@),
            None => pretty_json_of(s@) is None,
        },
{
    jsonxf::pretty_print(s).ok()
}

/// How a body is shown.
#[derive(PartialEq, Eq, Structural, Clone, Copy, Debug)]
pub enum BodyFormat {
    /// Pretty-printed, then highlighted as JSON.
    Json,
    /// Highlighted as HTML.
    Html,
    /// The declared media type, then the body as it came.
    Raw,
}

pub open spec fn format_of(subtype: Option<Seq<char>>) -> BodyFormat {
    match subtype {
        Some(s) => if s == "json"@ {
            BodyFormat::Json
        } else if s == "html"@ {
            BodyFormat::Html
        } else {
            BodyFormat::Raw
        },
        None => BodyFormat::Raw,
    }
}

pub open spec fn content_subtype(content_type: Option<Seq<char>>) -> Option<Seq<char>> {
    match content_type {
        Some(c) => mime_subtype_of(c),
        None => None,
    }
}

/// Picks the format for a media subtype.
pub fn format_for(subtype: &Option<String>) -> (r: BodyFormat)
    ensures
        r == format_of(match subtype {
            Some(s) => Some(s@),
            None => None,
        }),
{
    match subtype {
        Some(s) => {
            if *s == "json".to_owned() {
                BodyFormat::Json
            } else if *s == "html".to_owned() {
                BodyFormat::Html
            } else {
                BodyFormat::Raw
            }
        },
        None => BodyFormat::Raw,
    }
}

/// Picks the format for a declared content type.
pub fn body_format(content_type: &Option<String>) -> (r: BodyFormat)
    ensures
        r == format_of(content_subtype(match content_type {
            Some(c) => Some(c@),
            None => None,
        })),
{
    let subtype = match content_type {
        Some(c) => media_subtype(c.as_str()),
        None => None,
    };
    format_for(&subtype)
}

/// The JSON body to show: the pretty-printed text when there is one, else the body as it came.
pub fn json_display(body: &str, pretty: Option<String>) -> (r: String)
    ensures
        r@ == match pretty {
            Some(p) => p@,
            None => body@,
        },
{
    match pretty {
        Some(p) => p,
        None => body.to_owned(),
    }
}

/// Pretty-prints a JSON body, falling back to the body itself when it is not valid JSON.
pub fn pretty_or_raw(body: &str) -> (r: String)
    ensures
        r@ == match pretty_json_of(body@) {
            Some(p) => p,
            None => body@,
        },
{
    let pretty = pretty_json(body);
    json_display(body, pretty)
}

pub open spec fn digit_char(d: int) -> char {
    seq!['0', '1', '2', '3', '4', '5', '6', '7', '8', '9'][d]
}

/// The decimal digits of `n`, most significant first.
pub open spec fn decimal(n: nat) -> Seq<char>
    decreases n,
{
    if n < 10 {
        seq![digit_char(n as int)]
    } else {
        decimal(n / 10).push(digit_char((n % 10) as int))
    }
}

fn digit_text(d: u16) -> (r: String)
    requires
        d < 10,
    ensures
        r@ == seq![digit_char(d as int)],
{
    let digits = "0123456789";
    proof {
        reveal_strlit("0123456789");
    }
    let s = digits.substring_char(d as usize, d as usize + 1);
    proof {
        assert(s@ =~= seq![digit_char(d as int)]);
    }
    s.to_owned()
}

/// `n` written in decimal.
pub fn decimal_text(n: u16) -> (r: String)
    ensures
        r@ == decimal(n as nat),
    decreases n,
{
    if n < 10 {
        digit_text(n)
    } else {
        let head = decimal_text(n / 10);
        let last = digit_text(n % 10);
        let r = head.concat(last.as_str());
        proof {
            assert(r@ =~= decimal(n as nat));
        }
        r
    }
}

/// What the transport received, as plain values; headers in arrival order.
pub struct ResponseView {
    pub version: String,
    pub status: u16,
    pub headers: Vec<(String, String)>,
    pub body: String,
}

/// `"<version> <status>"`.
pub open spec fn status_line_of(version: Seq<char>, status: u16) -> Seq<char> {
    version + seq![' '] + decimal(status as nat)
}

/// `"<name>: <value>"`.
pub open spec fn header_line_of(h: (Seq<char>, Seq<char>)) -> Seq<char> {
    h.0 + seq![':', ' '] + h.1
}

pub fn status_line(version: &str, status: u16) -> (r: String)
    ensures
        r@ == status_line_of(version@, status),
{
    proof {
        reveal_strlit(" ");
    }
    let digits = decimal_text(status);
    let r = version.to_owned().concat(" ").concat(digits.as_str());
    proof {
        assert(r@ =~= status_line_of(version@, status));
    }
    r
}

pub fn header_line(name: &str, value: &str) -> (r: String)
    ensures
        r@ == header_line_of((name@, value@)),
{
    proof {
        reveal_strlit(": ");
    }
    let r = name.to_owned().concat(": ").concat(value);
    proof {
        assert(r@ =~= header_line_of((name@, value@)));
    }
    r
}

/// A character as compared in header names: ASCII letters fold to lower case.
pub open spec fn folded(c: char) -> int {
    if 'A' <= c && c <= 'Z' {
        c as u32 + 32
    } else {
        c as u32 as int
    }
}

/// Header names are equal up to ASCII case.
pub open spec fn same_name(a: Seq<char>, b: Seq<char>) -> bool {
    a.len() == b.len() && forall|i: int| 0 <= i < a.len() ==> folded(a[i]) == folded(b[i])
}

fn fold_char(c: char) -> (r: u32)
    ensures
        r as int == folded(c),
{
    if 'A' <= c && c <= 'Z' {
        c as u32 + 32
    } else {
        c as u32
    }
}

/// Compares two header names, ignoring ASCII case.
pub fn names_match(a: &str, b: &str) -> (r: bool)
    ensures
        r == same_name(a@, b@),
{
    let n = a.unicode_len();
    if n != b.unicode_len() {
        return false;
    }
    let mut i: usize = 0;
    while i < n
        invariant
            n == a@.len(),
            n == b@.len(),
            i <= n,
            forall|j: int| 0 <= j < i ==> folded(a@[j]) == folded(b@[j]),
        decreases n - i,
    {
        if fold_char(a.get_char(i)) != fold_char(b.get_char(i)) {
            return false;
        }
        i = i + 1;
    }
    true
}

/// Index of the first header named `name` (up to ASCII case), or -1.
pub open spec fn header_pos(hs: Seq<(Seq<char>, Seq<char>)>, name: Seq<char>) -> int
    decreases hs.len(),
{
    if hs.len() == 0 {
        -1
    } else if header_pos(hs.drop_last(), name) >= 0 {
        header_pos(hs.drop_last(), name)
    } else if same_name(hs.last().0, name) {
        hs.len() - 1
    } else {
        -1
    }
}

/// The value of the first `Content-Type` header, whatever its case, if any.
pub open spec fn content_type_of(hs: Seq<(Seq<char>, Seq<char>)>) -> Option<Seq<char>> {
    let i = header_pos(hs, "content-type"@);
    if i >= 0 {
        Some(hs[i].1)
    } else {
        None
    }
}

proof fn lemma_header_pos_prefix(hs: Seq<(Seq<char>, Seq<char>)>, name: Seq<char>, i: int)
    requires
        0 <= i <= hs.len(),
        header_pos(hs.take(i), name) >= 0,
    ensures
        header_pos(hs, name) == header_pos(hs.take(i), name),
    decreases hs.len() - i,
{
    if i < hs.len() {
        assert(hs.take(i + 1).drop_last() =~= hs.take(i));
        lemma_header_pos_prefix(hs, name, i + 1);
    } else {
        assert(hs.take(i) =~= hs);
    }
}

/// The declared content type: the value of the first `content-type` header.
pub fn content_type(headers: &Vec<(String, String)>) -> (r: Option<String>)
    ensures
        match r {
            Some(c) => content_type_of(pairs_view(headers@)) == Some(c@),
            None => content_type_of(pairs_view(headers@)) is None,
        },
{
    let ghost hs = pairs_view(headers@);
    let mut i: usize = 0;
    while i < headers.len()
        invariant
            i <= headers@.len(),
            hs == pairs_view(headers@),
            header_pos(hs.take(i as int), "content-type"@) == -1,
        decreases headers@.len() - i,
    {
        proof {
            assert(hs.take(i + 1).drop_last() =~= hs.take(i as int));
            assert(hs[i as int] == pair_view(headers@[i as int]));
        }
        if names_match(headers[i].0.as_str(), "content-type") {
            proof {
                lemma_header_pos_prefix(hs, "content-type"@, i + 1);
            }
            return Some(headers[i].1.clone());
        }
        i = i + 1;
    }
    proof {
        assert(hs.take(i as int) =~= hs);
    }
    None
}

/// The declared media type (or a note that there is none), a newline, and the body unchanged.
pub open spec fn raw_text_of(content_type: Option<Seq<char>>, body: Seq<char>) -> Seq<char> {
    let head = match content_type {
        Some(c) => c,
        None => "(no content type)"@,
    };
    head + seq!['\n'] + body
}

pub fn raw_display(content_type: &Option<String>, body: &str) -> (r: String)
    ensures
        r@ == raw_text_of(match content_type {
            Some(c) => Some(c@),
            None => None,
        }, body@),
{
    proof {
        reveal_strlit("\n");
    }
    let head = match content_type {
        Some(c) => c.clone(),
        None => "(no content type)".to_owned(),
    };
    let r = head.concat("\n").concat(body);
    proof {
        assert(r@ =~= raw_text_of(match content_type {
            Some(c) => Some(c@),
            None => None,
        }, body@));
    }
    r
}

/// The body as shown for a format, given the declared content type.
pub open spec fn shown_body(format: BodyFormat, content_type: Option<Seq<char>>, body: Seq<char>) -> Seq<char> {
    match format {
        BodyFormat::Json => match pretty_json_of(body) {
            Some(p) => p,
            None => body,
        },
        BodyFormat::Html => body,
        BodyFormat::Raw => raw_text_of(content_type, body),
    }
}

/// A response laid out for the terminal: the status line, one line per header in
/// arrival order, and the body with the format that picks its highlighting.
pub struct Rendered {
    pub status: String,
    pub headers: Vec<String>,
    pub format: BodyFormat,
    pub body: String,
}

pub open spec fn lines_view(ls: Seq<String>) -> Seq<Seq<char>> {
    ls.map_values(|l: String| l@)
}

pub open spec fn header_lines_of(hs: Seq<(Seq<char>, Seq<char>)>) -> Seq<Seq<char>> {
    hs.map_values(|h: (Seq<char>, Seq<char>)| header_line_of(h))
}

/// Lays out a response: status first, then headers, then the body by its content type.
pub fn render(resp: &ResponseView) -> (r: Rendered)
    ensures
        r.status@ == status_line_of(resp.version@, resp.status),
        lines_view(r.headers@) == header_lines_of(pairs_view(resp.headers@)),
        r.format == format_of(content_subtype(content_type_of(pairs_view(resp.headers@)))),
        r.body@ == shown_body(r.format, content_type_of(pairs_view(resp.headers@)), resp.body@),
{
    let status = status_line(resp.version.as_str(), resp.status);
    let mut lines: Vec<String> = Vec::new();
    let mut i: usize = 0;
    while i < resp.headers.len()
        invariant
            i <= resp.headers@.len(),
            lines_view(lines@) =~= header_lines_of(pairs_view(resp.headers@.take(i as int))),
        decreases resp.headers@.len() - i,
    {
        let h = &resp.headers[i];
        let ghost before = lines@;
        lines.push(header_line(h.0.as_str(), h.1.as_str()));
        proof {
            assert(lines_view(lines@) =~= lines_view(before).push(header_line_of(pair_view(resp.headers@[i as int]))));
            assert(header_lines_of(pairs_view(resp.headers@.take(i + 1))) =~= header_lines_of(
                pairs_view(resp.headers@.take(i as int)),
            ).push(header_line_of(pair_view(resp.headers@[i as int]))));
        }
        i = i + 1;
    }
    proof {
        assert(resp.headers@.take(i as int) =~= resp.headers@);
    }
    let ct = content_type(&resp.headers);
    let format = body_format(&ct);
    let body = match format {
        BodyFormat::Json => pretty_or_raw(resp.body.as_str()),
        BodyFormat::Html => resp.body.clone(),
        BodyFormat::Raw => raw_display(&ct, resp.body.as_str()),
    };
    Rendered { status, headers: lines, format, body }
}

} // verus!
