//! Command-line `key<op>value` tokens: `:=` (JSON-typed field), `=` (field), `:` (header).
use vstd::prelude::*;

verus! {

/// Which operator separated the key from the value.
#[derive(PartialEq, Eq, Structural, Clone, Copy, Debug)]
pub enum KvKind {
    /// `key=value`: a body field or a query parameter.
    Field,
    /// `key:=value`: a field marked as JSON-typed; it is still sent as a string.
    JsonField,
    /// `key:value`: a request header.
    Header,
}

/// A parsed token: non-empty key, possibly empty value, and its operator.
#[derive(PartialEq, Debug)]
pub struct KvPair {
    pub k: String,
    pub v: String,
    pub kind: KvKind,
}

/// Why a token or a URL was rejected.
#[derive(PartialEq, Eq, Structural, Clone, Copy, Debug)]
pub enum ParseError {
    /// The token holds none of `:=`, `=`, `:`.
    MissingDelimiter,
    /// No text precedes the delimiter.
    EmptyKey,
    /// The text is not an absolute URL.
    InvalidUrl,
}

/// `d` occurs in `s` starting at index `i`.
pub open spec fn occurs_at(s: Seq<char>, d: Seq<char>, i: int) -> bool {
    0 <= i && i + d.len() <= s.len() && s.subrange(i, i + d.len()) == d
}

/// Index of the first occurrence of `d` in `s` at or after `i`, or -1.
pub open spec fn find_from(s: Seq<char>, d: Seq<char>, i: int) -> int
    decreases s.len() + 1 - i,
{
    if i < 0 || i + d.len() > s.len() {
        -1
    } else if s.subrange(i, i + d.len()) == d {
        i
    } else {
        find_from(s, d, i + 1)
    }
}

/// Index of the first occurrence of `d` in `s`, or -1.
pub open spec fn find_index(s: Seq<char>, d: Seq<char>) -> int {
    find_from(s, d, 0)
}

pub open spec fn json_op() -> Seq<char> {
    seq![':', '=']
}

pub open spec fn field_op() -> Seq<char> {
    seq!['=']
}

pub open spec fn header_op() -> Seq<char> {
    seq![':']
}

/// The operator that splits `s`: `:=` wins over `=`, which wins over `:`.
pub open spec fn op_of(s: Seq<char>) -> Option<(Seq<char>, KvKind)> {
    if find_index(s, json_op()) >= 0 {
        Some((json_op(), KvKind::JsonField))
    } else if find_index(s, field_op()) >= 0 {
        Some((field_op(), KvKind::Field))
    } else if find_index(s, header_op()) >= 0 {
        Some((header_op(), KvKind::Header))
    } else {
        None
    }
}

/// What parsing `s` yields: key, value and kind, or the error.
pub open spec fn parse_spec(s: Seq<char>) -> Result<(Seq<char>, Seq<char>, KvKind), ParseError> {
    match op_of(s) {
        None => Err(ParseError::MissingDelimiter),
        Some((d, kind)) => {
            let i = find_index(s, d);
            if i == 0 {
                Err(ParseError::EmptyKey)
            } else {
                Ok((s.take(i), s.skip(i + d.len()), kind))
            }
        },
    }
}

impl KvPair {
    pub open spec fn view_triple(&self) -> (Seq<char>, Seq<char>, KvKind) {
        (self.k@, self.v@, self.kind)
    }
}

/// The first occurrence at or after `i` is `m` when `d` occurs at `m` and nowhere in `[i, m)`.
pub proof fn lemma_find_from_first(s: Seq<char>, d: Seq<char>, i: int, m: int)
    requires
        0 <= i <= m,
        occurs_at(s, d, m),
        forall|j: int| i <= j < m ==> !occurs_at(s, d, j),
    ensures
        find_from(s, d, i) == m,
    decreases m - i,
{
    if i < m {
        assert(!occurs_at(s, d, i));
        lemma_find_from_first(s, d, i + 1, m);
    }
}

/// There is no occurrence at or after `i` when `d` occurs nowhere from `i` on.
pub proof fn lemma_find_from_none(s: Seq<char>, d: Seq<char>, i: int)
    requires
        0 <= i,
        forall|j: int| i <= j ==> !occurs_at(s, d, j),
    ensures
        find_from(s, d, i) == -1,
    decreases s.len() + 1 - i,
{
    if i + d.len() <= s.len() {
        assert(!occurs_at(s, d, i));
        lemma_find_from_none(s, d, i + 1);
    }
}

/// First index of `d` in `s`.
fn find_op(s: &str, d: &str) -> (r: Option<usize>)
    requires
        d@.len() > 0,
    ensures
        match r {
            Some(i) => i as int == find_index(s@, d@) && i + d@.len() <= s@.len(),
            None => find_index(s@, d@) == -1,
        },
{
    let n = s.unicode_len();
    let m = d.unicode_len();
    if m > n {
        proof {
            lemma_find_from_none(s@, d@, 0);
        }
        return None;
    }
    let mut i: usize = 0;
    while i <= n - m
        invariant
            n == s@.len(),
            m == d@.len(),
            m > 0,
            m <= n,
            i <= n - m + 1,
            forall|j: int| 0 <= j < i ==> !occurs_at(s@, d@, j),
        decreases n + 1 - i,
    {
        let mut j: usize = 0;
        let mut same = true;
        while j < m && same
            invariant
                n == s@.len(),
                m == d@.len(),
                i + m <= n,
                j <= m,
                same ==> forall|t: int| 0 <= t < j ==> s@[i + t] == d@[t],
                !same ==> !occurs_at(s@, d@, i as int),
            decreases m - j + (if same { 1int } else { 0int }),
        {
            if s.get_char(i + j) != d.get_char(j) {
                proof {
                    if occurs_at(s@, d@, i as int) {
                        assert(s@.subrange(i as int, i + m)[j as int] == s@[i + j]);
                    }
                }
                same = false;
            } else {
                j = j + 1;
            }
        }
        if same {
            proof {
                assert(s@.subrange(i as int, i + m) =~= d@);
                lemma_find_from_first(s@, d@, 0, i as int);
            }
            return Some(i);
        }
        i = i + 1;
    }
    proof {
        assert forall|j: int| 0 <= j implies !occurs_at(s@, d@, j) by {
            if j >= i {
                assert(j + m > n);
            }
        }
        lemma_find_from_none(s@, d@, 0);
    }
    None
}

/// Parses a `key:=value`, `key=value` or `key:value` token.
///
/// `:=` is looked for first, then `=`, then `:`; only the first occurrence of the
/// chosen operator splits the token, and the value keeps the rest verbatim.
pub fn parse_kv_pair(s: &str) -> (r: Result<KvPair, ParseError>)
    ensures
        match r {
            Ok(p) => parse_spec(s@) == Ok::<_, ParseError>(p.view_triple()),
            Err(e) => parse_spec(s@) == Err::<(Seq<char>, Seq<char>, KvKind), _>(e),
        },
{
    proof {
        reveal_strlit(":=");
        reveal_strlit("=");
        reveal_strlit(":");
        assert(":="@ =~= json_op());
        assert("="@ =~= field_op());
        assert(":"@ =~= header_op());
    }
    match find_op(s, ":=") {
        Some(i) => split_at_op(s, i, 2, KvKind::JsonField),
        None => match find_op(s, "=") {
            Some(i) => split_at_op(s, i, 1, KvKind::Field),
            None => match find_op(s, ":") {
                Some(i) => split_at_op(s, i, 1, KvKind::Header),
                None => Err(ParseError::MissingDelimiter),
            },
        },
    }
}

/// Splits `s` around the operator of width `w` found at `i`.
fn split_at_op(s: &str, i: usize, w: usize, kind: KvKind) -> (r: Result<KvPair, ParseError>)
    requires
        i + w <= s@.len(),
    ensures
        match r {
            Ok(p) => i > 0 && p.k@ == s@.take(i as int) && p.v@ == s@.skip(i + w) && p.kind == kind,
            Err(e) => i == 0 && e == ParseError::EmptyKey,
        },
{
    if i == 0 {
        return Err(ParseError::EmptyKey);
    }
    let n = s.unicode_len();
    let key = s.substring_char(0, i).to_owned();
    let value = s.substring_char(i + w, n).to_owned();
    proof {
        assert(key@ =~= s@.take(i as int));
        assert(value@ =~= s@.skip(i + w));
    }
    Ok(KvPair { k: key, v: value, kind })
}

/// A token holding neither `=` nor `:` (hence no `:=`) never parses.
pub proof fn lemma_no_operator_fails(s: Seq<char>)
    requires
        forall|i: int| 0 <= i < s.len() ==> s[i] != '=' && s[i] != ':',
    ensures
        parse_spec(s) == Err::<(Seq<char>, Seq<char>, KvKind), _>(ParseError::MissingDelimiter),
{
    assert forall|d: Seq<char>, j: int|
        d.len() > 0 && (d[0] == '=' || d[0] == ':') && 0 <= j implies !occurs_at(s, d, j) by {
        if occurs_at(s, d, j) {
            assert(s.subrange(j, j + d.len())[0] == s[j]);
        }
    }
    lemma_find_from_none(s, json_op(), 0);
    lemma_find_from_none(s, field_op(), 0);
    lemma_find_from_none(s, header_op(), 0);
}

/// `k=v` parses to the field `(k, v)` when `k` is non-empty and holds neither `=`
/// nor `:`, and `v` holds no `:=` (which would take precedence); `v` may be empty.
pub proof fn lemma_field_round_trip(k: Seq<char>, v: Seq<char>)
    requires
        k.len() > 0,
        forall|i: int| 0 <= i < k.len() ==> k[i] != '=' && k[i] != ':',
        forall|j: int| 0 <= j ==> !occurs_at(v, json_op(), j),
    ensures
        parse_spec(k + field_op() + v) == Ok::<_, ParseError>((k, v, KvKind::Field)),
{
    let s = k + field_op() + v;
    let n = k.len() as int;
    assert forall|j: int| 0 <= j implies !occurs_at(s, json_op(), j) by {
        if occurs_at(s, json_op(), j) {
            let w = s.subrange(j, j + 2);
            assert(w[0] == s[j] && w[1] == s[j + 1]);
            assert(w[0] == ':' && w[1] == '=');
            if j < n {
                assert(s[j] == k[j]);
                assert(k[j] != ':');
            } else if j == n {
                assert(s[n] == '=');
            } else {
                assert(v.subrange(j - n - 1, j - n + 1) =~= w);
                assert(occurs_at(v, json_op(), j - n - 1));
            }
        }
    }
    lemma_find_from_none(s, json_op(), 0);
    assert forall|j: int| 0 <= j < n implies !occurs_at(s, field_op(), j) by {
        if occurs_at(s, field_op(), j) {
            assert(s.subrange(j, j + 1)[0] == s[j]);
            assert(s[j] == k[j]);
        }
    }
    assert(s.subrange(n, n + 1) =~= field_op());
    lemma_find_from_first(s, field_op(), 0, n);
    assert(s.take(n) =~= k);
    assert(s.skip(n + 1) =~= v);
}

/// `k:=v` parses to the JSON-typed field `(k, v)` whenever `k` is non-empty and holds
/// no `:=`, whatever `=` or `:` stand in `k` or `v`.
pub proof fn lemma_json_field_precedence(k: Seq<char>, v: Seq<char>)
    requires
        k.len() > 0,
        forall|j: int| 0 <= j ==> !occurs_at(k, json_op(), j),
    ensures
        parse_spec(k + json_op() + v) == Ok::<_, ParseError>((k, v, KvKind::JsonField)),
{
    let s = k + json_op() + v;
    let n = k.len() as int;
    assert forall|j: int| 0 <= j < n implies !occurs_at(s, json_op(), j) by {
        if occurs_at(s, json_op(), j) {
            let w = s.subrange(j, j + 2);
            assert(w[0] == s[j] && w[1] == s[j + 1]);
            assert(w[0] == ':' && w[1] == '=');
            if j + 1 < n {
                assert(k.subrange(j, j + 2) =~= w);
                assert(occurs_at(k, json_op(), j));
            } else {
                assert(s[n] == ':');
            }
        }
    }
    assert(s.subrange(n, n + 2) =~= json_op());
    lemma_find_from_first(s, json_op(), 0, n);
    assert(s.take(n) =~= k);
    assert(s.skip(n + 2) =~= v);
}

} // verus!
