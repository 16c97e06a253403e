//! Entity tags and HTTP conditional requests.

use vstd::prelude::*;

use axum::http::HeaderMap;

use crate::error::{is_precondition_failed, precondition_failed, ApiError};
use crate::http::{header_of, header_text};
use crate::text::{append_str, chars_of, decimal_digits, format_u64, split_commas, split_on, trim, trim_white};

verus! {

/// The quote that wraps an entity tag.
pub open spec fn quote() -> char {
    '"'
}

/// The weak entity tag of a file of `size` bytes, last modified `modified`
/// (seconds and nanoseconds since the Unix epoch, when known).
pub open spec fn etag_spec(size: u64, modified: Option<(u64, u32)>) -> Seq<char> {
    let body = match modified {
        Some((secs, nanos)) => decimal_digits(size as nat) + seq!['-'] + decimal_digits(secs as nat)
            + seq!['-'] + decimal_digits(nanos as nat),
        None => decimal_digits(size as nat),
    };
    seq!['W', '/', quote()] + body + seq![quote()]
}

/// The weak entity tag of a file of `size` bytes, last modified `modified`
/// (seconds and nanoseconds since the Unix epoch, when known).
pub fn etag_from_metadata(size: u64, modified: Option<(u64, u32)>) -> (r: String)
    ensures
        r@ == etag_spec(size, modified),
{
    let mut s = String::new();
    s.push('W');
    s.push('/');
    s.push('"');
    append_str(&mut s, format_u64(size).as_str());
    match modified {
        Some((secs, nanos)) => {
            s.push('-');
            append_str(&mut s, format_u64(secs).as_str());
            s.push('-');
            append_str(&mut s, format_u64(nanos as u64).as_str());
        },
        None => {},
    }
    s.push('"');
    assert(s@ =~= etag_spec(size, modified));
    s
}

/// Whether one of the comma-separated tags of `header`, trimmed, equals
/// `current`.
pub open spec fn etag_matches_spec(header: Seq<char>, current: Option<Seq<char>>) -> bool {
    match current {
        Some(c) => exists|k: int|
            0 <= k < split_on(header, ',').len() && trim_white(#[trigger] split_on(header, ',')[k])
                == c,
        None => false,
    }
}

/// Whether one of the comma-separated tags of `header`, trimmed, equals
/// `current`; tags compare as plain strings.
pub fn etag_matches(header: &str, current: Option<&str>) -> (r: bool)
    ensures
        r == etag_matches_spec(
            header@,
            match current {
                Some(c) => Some(c@),
                None => None,
            },
        ),
{
    let cur = match current {
        Some(c) => c,
        None => {
            return false;
        },
    };
    let target = chars_of(cur);
    let pieces = split_commas(&chars_of(header));
    let ghost all = split_on(header@, ',');
    let mut k: usize = 0;
    while k < pieces.len()
        invariant
            k <= pieces.len(),
            pieces@.map_values(|p: Vec<char>| p@) == all,
            target@ == cur@,
            opt_chars(current) == Some(cur@),
            all == split_on(header@, ','),
            forall|j: int| 0 <= j < k ==> trim_white(#[trigger] all[j]) != cur@,
        decreases pieces.len() - k,
    {
        let t = trim(&pieces[k]);
        assert(all[k as int] == pieces@[k as int]@);
        if t.len() == target.len() {
            let mut same = true;
            let mut m: usize = 0;
            while m < t.len()
                invariant
                    m <= t.len() == target.len(),
                    same <==> forall|j: int| 0 <= j < m ==> t@[j] == target@[j],
                decreases t.len() - m,
            {
                if t[m] != target[m] {
                    same = false;
                }
                m = m + 1;
            }
            if same {
                assert(t@ =~= target@);
                assert(trim_white(all[k as int]) == cur@);
                return true;
            } else {
                assert(t@ != target@);
            }
        }
        k = k + 1;
    }
    false
}

/// Whether the conditional headers `if_match` and `if_none_match` let a
/// change go ahead, for an entity whose current tag is `current` (none for a
/// directory or a missing entity) and which does or does not exist.
pub open spec fn preconditions_hold(
    if_match: Option<Seq<char>>,
    if_none_match: Option<Seq<char>>,
    current: Option<Seq<char>>,
    exists: bool,
) -> bool {
    &&& match if_match {
        Some(v) => if trim_white(v) == seq!['*'] {
            exists
        } else {
            etag_matches_spec(v, current)
        },
        None => true,
    }
    &&& match if_none_match {
        Some(v) => if trim_white(v) == seq!['*'] {
            !exists
        } else {
            !etag_matches_spec(v, current)
        },
        None => true,
    }
}

/// The characters of an optional string.
pub open spec fn opt_chars(o: Option<&str>) -> Option<Seq<char>> {
    match o {
        Some(s) => Some(s@),
        None => None,
    }
}

fn is_star(v: &str) -> (r: bool)
    ensures
        r == (trim_white(v@) == seq!['*']),
{
    let t = trim(&chars_of(v));
    let r = t.len() == 1 && t[0] == '*';
    proof {
        if t@ == seq!['*'] {
            assert(t@.len() == 1 && t@[0] == '*');
        }
        if r {
            assert(t@ =~= seq!['*']);
        }
    }
    r
}

/// Decides the conditional headers of a change against the entity's
/// current tag and existence.
pub fn evaluate_preconditions(
    if_match: Option<&str>,
    if_none_match: Option<&str>,
    current: Option<&str>,
    exists: bool,
) -> (r: Result<(), ApiError>)
    ensures
        r is Ok <==> preconditions_hold(
            opt_chars(if_match),
            opt_chars(if_none_match),
            opt_chars(current),
            exists,
        ),
        r is Err ==> is_precondition_failed(r->Err_0),
{
    match if_match {
        Some(v) => {
            if is_star(v) {
                if !exists {
                    return Err(precondition_failed());
                }
            } else if !etag_matches(v, current) {
                return Err(precondition_failed());
            }
        },
        None => {},
    }
    match if_none_match {
        Some(v) => {
            if is_star(v) {
                if exists {
                    return Err(precondition_failed());
                }
            } else if etag_matches(v, current) {
                return Err(precondition_failed());
            }
        },
        None => {},
    }
    Ok(())
}

/// Decides the `If-Match` and `If-None-Match` headers of a request against
/// the entity's current tag and existence.
pub fn check_preconditions(headers: &HeaderMap, current: Option<&str>, exists: bool) -> (r:
    Result<(), ApiError>)
    ensures
        r is Ok <==> preconditions_hold(
            header_of(*headers, "if-match"@),
            header_of(*headers, "if-none-match"@),
            opt_chars(current),
            exists,
        ),
        r is Err ==> is_precondition_failed(r->Err_0),
{
    let im = header_text(headers, "if-match");
    let inm = header_text(headers, "if-none-match");
    let a: Option<&str> = match &im {
        Some(s) => Some(s.as_str()),
        None => None,
    };
    let b: Option<&str> = match &inm {
        Some(s) => Some(s.as_str()),
        None => None,
    };
    assert(opt_chars(a) == header_of(*headers, "if-match"@));
    assert(opt_chars(b) == header_of(*headers, "if-none-match"@));
    evaluate_preconditions(a, b, current, exists)
}

} // verus!
