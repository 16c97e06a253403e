//! Request-level helpers: the scheme a request arrived on, and reading
//! header values.

use vstd::prelude::*;

use axum::http::{HeaderMap, HeaderValue};

use crate::text::{chars_of, split_commas, split_on, string_of, trim, trim_white};

verus! {

#[verifier::external_type_specification]
#[verifier::external_body]
#[verifier::reject_recursive_types(T)]
pub struct ExHeaderMap<T>(HeaderMap<T>);

#[verifier::external_type_specification]
#[verifier::external_body]
pub struct ExHeaderValue(HeaderValue);

/// What a header map holds, as text: for every spelling of a header name
/// (lookups ignore case), the text of the first value stored under it, when
/// that value is visible ASCII.
pub uninterp spec fn header_texts(h: HeaderMap) -> Map<Seq<char>, Seq<char>>;

/// Every spelling of the names of the headers that a map holds.
pub uninterp spec fn header_names(h: HeaderMap) -> Set<Seq<char>>;

/// The text of the header `name` of `h`, when present and readable.
pub open spec fn header_of(h: HeaderMap, name: Seq<char>) -> Option<Seq<char>> {
    if header_texts(h).contains_key(name) {
        Some(header_texts(h)[name])
    } else {
        None
    }
}

/// Relies on `http::HeaderMap::get` and `http::HeaderValue::to_str`: the
/// first value stored under `name`, matched without regard to case, as text
/// when it holds only visible ASCII.
#[verifier::external_body]
fn header_str(headers: &HeaderMap, name: &str) -> (r: Option<String>)
    ensures
        match r {
            Some(t) => header_texts(*headers).contains_key(name@) && header_texts(*headers)[name@]
                == t@,
            None => !header_texts(*headers).contains_key(name@),
        },
{
    headers.get(name).and_then(|v| v.to_str().ok()).map(|s| s.to_owned())
}

/// Relies on `http::HeaderMap::contains_key`: whether a header is stored
/// under `name`, matched without regard to case.
#[verifier::external_body]
fn header_present(headers: &HeaderMap, name: &str) -> (r: bool)
    ensures
        r == header_names(*headers).contains(name@),
{
    headers.contains_key(name)
}

/// The text of the header `name`, when present and readable as text.
pub fn header_text(headers: &HeaderMap, name: &str) -> (r: Option<String>)
    ensures
        match r {
            Some(t) => header_of(*headers, name@) == Some(t@),
            None => header_of(*headers, name@) is None,
        },
{
    header_str(headers, name)
}

/// Whether a header named `name` is present, readable or not.
pub fn has_header(headers: &HeaderMap, name: &str) -> (r: bool)
    ensures
        r == header_names(*headers).contains(name@),
{
    header_present(headers, name)
}

/// The scheme a request arrived on.
#[derive(Clone, Copy, Debug, PartialEq, Eq, Structural)]
pub enum RequestScheme {
    Http,
    Https,
}

impl RequestScheme {
    /// Whether the request arrived over HTTPS.
    pub fn is_https(self) -> (r: bool)
        ensures
            r == (self == RequestScheme::Https),
    {
        match self {
            RequestScheme::Https => true,
            RequestScheme::Http => false,
        }
    }
}

/// Whether `a` and `b` are the same character once ASCII letters are folded
/// to one case.
pub open spec fn same_ignoring_ascii_case(a: char, b: char) -> bool {
    ||| a == b
    ||| 'A' <= a && a <= 'Z' && a as u32 + 32 == b as u32
    ||| 'A' <= b && b <= 'Z' && b as u32 + 32 == a as u32
}

/// Whether `a` and `b` are equal once ASCII letters are folded to one case.
pub open spec fn eq_ignoring_ascii_case(a: Seq<char>, b: Seq<char>) -> bool {
    a.len() == b.len() && forall|i: int| 0 <= i < a.len() ==> same_ignoring_ascii_case(a[i], b[i])
}

/// Whether `a` and `b` are equal once ASCII letters are folded to one case.
pub fn equals_ignoring_ascii_case(a: &str, b: &str) -> (r: bool)
    ensures
        r == eq_ignoring_ascii_case(a@, b@),
{
    let x = chars_of(a);
    let y = chars_of(b);
    if x.len() != y.len() {
        return false;
    }
    let mut i: usize = 0;
    while i < x.len()
        invariant
            i <= x.len() == y.len(),
            x@ == a@,
            y@ == b@,
            forall|j: int| 0 <= j < i ==> same_ignoring_ascii_case(x@[j], y@[j]),
        decreases x.len() - i,
    {
        let c = x[i];
        let d = y[i];
        let same = c == d || ('A' <= c && c <= 'Z' && c as u32 + 32 == d as u32) || ('A' <= d && d
            <= 'Z' && d as u32 + 32 == c as u32);
        if !same {
            return false;
        }
        i = i + 1;
    }
    true
}

/// Whether a request counts as HTTPS, given the `x-forwarded-proto` value a
/// proxy set (if any) and the scheme it arrived on.
pub open spec fn https_spec(forwarded_proto: Option<Seq<char>>, scheme: RequestScheme) -> bool {
    match forwarded_proto {
        Some(p) => eq_ignoring_ascii_case(p, seq!['h', 't', 't', 'p', 's']),
        None => scheme == RequestScheme::Https,
    }
}

/// Whether a request counts as HTTPS, given the `x-forwarded-proto` value a
/// proxy set (if any) and the scheme it arrived on.
pub fn is_https_forwarded(forwarded_proto: Option<&str>, scheme: RequestScheme) -> (r: bool)
    ensures
        r == https_spec(
            match forwarded_proto {
                Some(p) => Some(p@),
                None => None,
            },
            scheme,
        ),
{
    match forwarded_proto {
        Some(p) => {
            let r = equals_ignoring_ascii_case(p, "https");
            proof {
                reveal_strlit("https");
                assert("https"@ =~= seq!['h', 't', 't', 'p', 's']);
            }
            r
        },
        None => scheme.is_https(),
    }
}

/// Whether a request counts as HTTPS: a proxy's `x-forwarded-proto` header
/// decides when it is readable, the scheme it arrived on otherwise.
pub fn is_https_request(headers: &HeaderMap, scheme: RequestScheme) -> (r: bool)
    ensures
        r == https_spec(header_of(*headers, "x-forwarded-proto"@), scheme),
{
    let proto = header_text(headers, "x-forwarded-proto");
    match proto {
        Some(p) => is_https_forwarded(Some(p.as_str()), scheme),
        None => is_https_forwarded(None, scheme),
    }
}

/// The trimmed, non-empty pieces of `pieces`, in order.
pub open spec fn nonempty_trimmed(pieces: Seq<Seq<char>>) -> Seq<Seq<char>>
    decreases pieces.len(),
{
    if pieces.len() == 0 {
        Seq::empty()
    } else {
        let prev = nonempty_trimmed(pieces.drop_last());
        let t = trim_white(pieces.last());
        if t.len() > 0 {
            prev.push(t)
        } else {
            prev
        }
    }
}

/// The entries of a comma-separated list: each trimmed, empty ones dropped.
pub fn comma_items(list: &str) -> (r: Vec<String>)
    ensures
        r@.map_values(|s: String| s@) == nonempty_trimmed(split_on(list@, ',')),
{
    let pieces = split_commas(&chars_of(list));
    let ghost all = split_on(list@, ',');
    let mut out: Vec<String> = Vec::new();
    let mut k: usize = 0;
    while k < pieces.len()
        invariant
            k <= pieces.len(),
            pieces@.map_values(|p: Vec<char>| p@) == all,
            out@.map_values(|s: String| s@) == nonempty_trimmed(all.take(k as int)),
        decreases pieces.len() - k,
    {
        proof {
            assert(all.take(k + 1).drop_last() =~= all.take(k as int));
            assert(all.take(k + 1).last() == pieces@[k as int]@);
        }
        let t = trim(&pieces[k]);
        if t.len() > 0 {
            let ghost before = out@.map_values(|s: String| s@);
            out.push(string_of(&t));
            assert(out@.map_values(|s: String| s@) =~= before.push(t@));
        }
        k = k + 1;
    }
    assert(all.take(pieces.len() as int) =~= all);
    out
}

/// The first entry of a forwarded-for list, trimmed, unless it is empty.
pub open spec fn first_forwarded_spec(list: Seq<char>) -> Option<Seq<char>> {
    let t = trim_white(split_on(list, ',')[0]);
    if t.len() > 0 {
        Some(t)
    } else {
        None
    }
}

/// The first entry of an `x-forwarded-for` list, trimmed, unless it is
/// empty: the address of the requesting client.
pub fn first_forwarded(list: &str) -> (r: Option<String>)
    ensures
        match r {
            Some(s) => first_forwarded_spec(list@) == Some(s@),
            None => first_forwarded_spec(list@) is None,
        },
{
    let pieces = split_commas(&chars_of(list));
    proof {
        crate::text::lemma_split_nonempty(list@, ',');
    }
    assert(pieces@[0]@ == split_on(list@, ',')[0]);
    let t = trim(&pieces[0]);
    if t.len() > 0 {
        Some(string_of(&t))
    } else {
        None
    }
}

} // verus!
