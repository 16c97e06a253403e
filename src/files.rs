//! Decisions of the file endpoints: byte ranges, the headers of a download,
//! and the order of a directory listing.

use vstd::prelude::*;

use axum::http::HeaderMap;

use crate::error::{bad_request, is_bad_request, ApiError};
use crate::etag::{etag_from_metadata, etag_spec};
use crate::http::{has_header, header_names, header_of, header_text};
use crate::text::{append_str, chars_of, parse_u64, parse_u64_spec, slice_of};

verus! {

/// The prefix of a byte-range request.
pub open spec fn bytes_prefix() -> Seq<char> {
    seq!['b', 'y', 't', 'e', 's', '=']
}

/// `s` cut at its first `c`: what comes before, and what comes after (empty
/// when there is no `c`).
pub open spec fn split_first(s: Seq<char>, c: char) -> (Seq<char>, Seq<char>)
    decreases s.len(),
{
    if s.len() == 0 {
        (Seq::empty(), Seq::empty())
    } else if s[0] == c {
        (Seq::empty(), s.skip(1))
    } else {
        let (a, b) = split_first(s.skip(1), c);
        (seq![s[0]] + a, b)
    }
}

proof fn lemma_split_first(s: Seq<char>, c: char, k: int)
    requires
        0 <= k <= s.len(),
        forall|j: int| 0 <= j < k ==> s[j] != c,
        k < s.len() ==> s[k] == c,
    ensures
        split_first(s, c) == (s.take(k), if k < s.len() {
            s.skip(k + 1)
        } else {
            Seq::<char>::empty()
        }),
    decreases k,
{
    if s.len() > 0 && k > 0 {
        lemma_split_first(s.skip(1), c, k - 1);
        assert(seq![s[0]] + s.skip(1).take(k - 1) =~= s.take(k));
        if k < s.len() {
            assert(s.skip(1).skip(k) =~= s.skip(k + 1));
        }
    } else if s.len() > 0 {
        assert(s.take(0) =~= Seq::<char>::empty());
    } else {
        assert(s.take(0) =~= Seq::<char>::empty());
    }
}

/// What a `Range` header asks of a file.
pub enum RangeAsk {
    /// The whole file.
    Whole,
    /// Bytes `start` to `end`, both included.
    Part(u64, u64),
    /// A malformed header.
    Invalid,
    /// More than one range.
    Multiple,
    /// A range outside the file.
    Unsatisfiable,
}

/// What the `Range` text `v` asks of a file of `size` bytes.
pub open spec fn range_ask(v: Option<Seq<char>>, size: u64) -> RangeAsk {
    match v {
        None => RangeAsk::Whole,
        Some(t) => if size == 0 {
            RangeAsk::Unsatisfiable
        } else if !(t.len() >= 6 && t.take(6) == bytes_prefix()) {
            RangeAsk::Invalid
        } else if t.skip(6).contains(',') {
            RangeAsk::Multiple
        } else {
            let (sp, ep) = split_first(t.skip(6), '-');
            if sp.len() == 0 {
                match parse_u64_spec(ep) {
                    None => RangeAsk::Invalid,
                    Some(n) => if n == 0 {
                        RangeAsk::Whole
                    } else {
                        RangeAsk::Part(
                            if n >= size {
                                0
                            } else {
                                (size - n) as u64
                            },
                            (size - 1) as u64,
                        )
                    },
                }
            } else {
                match parse_u64_spec(sp) {
                    None => RangeAsk::Invalid,
                    Some(start) => {
                        let end = if ep.len() == 0 {
                            Some((size - 1) as u64)
                        } else {
                            parse_u64_spec(ep)
                        };
                        match end {
                            None => RangeAsk::Invalid,
                            Some(e) => if start > e || start >= size || e >= size {
                                RangeAsk::Unsatisfiable
                            } else {
                                RangeAsk::Part(start, e)
                            },
                        }
                    },
                }
            }
        },
    }
}

/// Whether `r` is the answer to the range ask `a` on a file of `size` bytes.
pub open spec fn answers_range(a: RangeAsk, size: u64, r: Result<Option<(u64, u64)>, ApiError>) -> bool {
    match a {
        RangeAsk::Whole => r == Ok::<Option<(u64, u64)>, ApiError>(None),
        RangeAsk::Part(s, e) => r == Ok::<Option<(u64, u64)>, ApiError>(Some((s, e))),
        RangeAsk::Invalid => r is Err && is_bad_request(r->Err_0, "invalid Range header"@),
        RangeAsk::Multiple => r is Err && is_bad_request(r->Err_0, "multiple ranges not supported"@),
        RangeAsk::Unsatisfiable => r == Err::<Option<(u64, u64)>, ApiError>(
            ApiError::RangeNotSatisfiable(size),
        ),
    }
}

/// Reads the text of a `Range` header for a file of `size` bytes: `None` for
/// the whole file, or the first and last byte of the one range asked for.
#[verifier::loop_isolation(false)]
pub fn parse_range_text(value: Option<&str>, size: u64) -> (r: Result<Option<(u64, u64)>, ApiError>)
    ensures
        answers_range(
            range_ask(
                match value {
                    Some(v) => Some(v@),
                    None => None,
                },
                size,
            ),
            size,
            r,
        ),
{
    let v = match value {
        None => {
            return Ok(None);
        },
        Some(v) => v,
    };
    if size == 0 {
        return Err(ApiError::RangeNotSatisfiable(size));
    }
    let t = chars_of(v);
    if !(t.len() >= 6 && t[0] == 'b' && t[1] == 'y' && t[2] == 't' && t[3] == 'e' && t[4] == 's'
        && t[5] == '=') {
        proof {
            if t@.len() >= 6 && t@.take(6) == bytes_prefix() {
                assert(t@.take(6)[0] == 'b' && t@.take(6)[5] == '=');
                assert(t@.take(6)[1] == 'y' && t@.take(6)[2] == 't');
                assert(t@.take(6)[3] == 'e' && t@.take(6)[4] == 's');
            }
        }
        return Err(bad_request("invalid Range header"));
    }
    assert(t@.take(6) =~= bytes_prefix());
    let rest = slice_of(&t, 6, t.len());
    assert(rest@ =~= t@.skip(6));
    let mut k: usize = 0;
    let mut dash: Option<usize> = None;
    while k < rest.len()
        invariant
            k <= rest.len(),
            forall|j: int| 0 <= j < k ==> rest@[j] != ',',
            match dash {
                Some(d) => d < k && rest@[d as int] == '-' && forall|j: int| 0 <= j < d ==> rest@[j] != '-',
                None => forall|j: int| 0 <= j < k ==> rest@[j] != '-',
            },
        decreases rest.len() - k,
    {
        if rest[k] == ',' {
            assert(rest@.contains(','));
            return Err(bad_request("multiple ranges not supported"));
        }
        if rest[k] == '-' && dash.is_none() {
            dash = Some(k);
        }
        k = k + 1;
    }
    assert(!rest@.contains(','));
    let (sp, ep) = match dash {
        Some(d) => {
            proof {
                lemma_split_first(rest@, '-', d as int);
            }
            (slice_of(&rest, 0, d), slice_of(&rest, d + 1, rest.len()))
        },
        None => {
            proof {
                lemma_split_first(rest@, '-', rest@.len() as int);
                assert(rest@.take(rest@.len() as int) =~= rest@);
            }
            (slice_of(&rest, 0, rest.len()), Vec::new())
        },
    };
    assert(split_first(rest@, '-') == (sp@, ep@)) by {
        match dash {
            Some(d) => {
                assert(sp@ =~= rest@.take(d as int));
                assert(ep@ =~= rest@.skip(d + 1));
            },
            None => {
                assert(sp@ =~= rest@);
                assert(ep@ =~= Seq::<char>::empty());
            },
        }
    }
    if sp.len() == 0 {
        let n = match parse_u64(&ep) {
            Some(n) => n,
            None => {
                return Err(bad_request("invalid Range header"));
            },
        };
        if n == 0 {
            return Ok(None);
        }
        let start = if n >= size {
            0
        } else {
            size - n
        };
        return Ok(Some((start, size - 1)));
    }
    let start = match parse_u64(&sp) {
        Some(s) => s,
        None => {
            return Err(bad_request("invalid Range header"));
        },
    };
    let end = if ep.len() == 0 {
        size - 1
    } else {
        match parse_u64(&ep) {
            Some(e) => e,
            None => {
                return Err(bad_request("invalid Range header"));
            },
        }
    };
    if start > end || start >= size || end >= size {
        return Err(ApiError::RangeNotSatisfiable(size));
    }
    Ok(Some((start, end)))
}

/// The `Range` text of a request: `None` without the header, and the empty
/// text, which is malformed, for a value that is not visible ASCII.
pub open spec fn range_text_of(h: HeaderMap) -> Option<Seq<char>> {
    if header_names(h).contains(seq!['r', 'a', 'n', 'g', 'e']) {
        Some(
            match header_of(h, seq!['r', 'a', 'n', 'g', 'e']) {
                Some(t) => t,
                None => Seq::empty(),
            },
        )
    } else {
        None
    }
}

fn range_text(headers: &HeaderMap) -> (r: Option<String>)
    ensures
        match r {
            Some(t) => range_text_of(*headers) == Some(t@),
            None => range_text_of(*headers) is None,
        },
{
    proof {
        reveal_strlit("range");
        assert("range"@ =~= seq!['r', 'a', 'n', 'g', 'e']);
    }
    if !has_header(headers, "range") {
        return None;
    }
    match header_text(headers, "range") {
        Some(t) => Some(t),
        None => {
            let e = String::new();
            Some(e)
        },
    }
}

/// Reads the `Range` header of a request for a file of `size` bytes.
pub fn parse_range(headers: &HeaderMap, size: u64) -> (r: Result<Option<(u64, u64)>, ApiError>)
    ensures
        answers_range(range_ask(range_text_of(*headers), size), size, r),
{
    match range_text(headers) {
        Some(t) => parse_range_text(Some(t.as_str()), size),
        None => parse_range_text(None, size),
    }
}

/// First second of the year 10000, which HTTP dates cannot reach.
pub const HTTP_DATE_LIMIT_SECS: u64 = 253402300800;

/// The IMF-fixdate text of the time `secs` seconds after the Unix epoch, as
/// `httpdate::fmt_http_date` writes it.
pub uninterp spec fn http_date_of(secs: u64) -> Seq<char>;

/// The time, in whole seconds after the Unix epoch, that
/// `httpdate::parse_http_date` reads from `s`, if it reads one.
pub uninterp spec fn http_date_value(s: Seq<char>) -> Option<u64>;

/// The MIME type that `mime_guess` guesses from the extension of `path`,
/// `application/octet-stream` when it knows none.
pub uninterp spec fn mime_of(path: Seq<char>) -> Seq<char>;

/// Relies on `httpdate::fmt_http_date`: the text of a time, which depends on
/// its whole seconds alone; the crate panics from the year 10000 on.
#[verifier::external_body]
fn http_date_text(secs: u64) -> (r: String)
    requires
        secs < HTTP_DATE_LIMIT_SECS,
    ensures
        r@ == http_date_of(secs),
{
    httpdate::fmt_http_date(std::time::UNIX_EPOCH + std::time::Duration::from_secs(secs))
}

/// Relies on `httpdate::parse_http_date`: the time that an HTTP date names,
/// in whole seconds after the Unix epoch.
#[verifier::external_body]
fn parse_http_date_secs(s: &str) -> (r: Option<u64>)
    ensures
        r == http_date_value(s@),
{
    httpdate::parse_http_date(s).ok().and_then(|t| t.duration_since(std::time::UNIX_EPOCH).ok()).map(
        |d| d.as_secs(),
    )
}

/// Relies on `mime_guess::from_path` and `MimeGuess::first_or_octet_stream`,
/// read back as text by `Mime::essence_str`: the MIME type guessed from the
/// extension of `path`, which depends on `path` alone.
#[verifier::external_body]
fn guess_mime(path: &str) -> (r: String)
    ensures
        r@ == mime_of(path@),
{
    mime_guess::from_path(path).first_or_octet_stream().essence_str().to_owned()
}

/// The MIME type to serve `path` with, guessed from its extension.
pub fn content_type_of(path: &str) -> (r: String)
    ensures
        r@ == mime_of(path@),
{
    guess_mime(path)
}

/// The `Last-Modified` text of a file modified at `modified`, when that
/// time can be written as an HTTP date.
pub open spec fn last_modified_spec(modified: Option<(u64, u32)>) -> Option<Seq<char>> {
    match modified {
        Some((secs, _)) => if secs < HTTP_DATE_LIMIT_SECS {
            Some(http_date_of(secs))
        } else {
            None
        },
        None => None,
    }
}

/// The `Last-Modified` text of a file modified at `modified` (seconds and
/// nanoseconds after the Unix epoch), when that time can be written as an
/// HTTP date.
pub fn last_modified_text(modified: Option<(u64, u32)>) -> (r: Option<String>)
    ensures
        match r {
            Some(s) => last_modified_spec(modified) == Some(s@),
            None => last_modified_spec(modified) is None,
        },
{
    match modified {
        Some((secs, _)) => if secs < HTTP_DATE_LIMIT_SECS {
            Some(http_date_text(secs))
        } else {
            None
        },
        None => None,
    }
}

/// Whether an `If-Range` text lets a range request stand for a file
/// modified at `modified`: it must name a date no earlier than the file's
/// modification; without the header, ranges always stand.
pub open spec fn if_range_holds(if_range: Option<Seq<char>>, modified: Option<(u64, u32)>) -> bool {
    match if_range {
        None => true,
        Some(t) => match (http_date_value(t), modified) {
            (Some(date), Some((secs, nanos))) => secs < date || (secs == date && nanos == 0),
            _ => false,
        },
    }
}

/// How a download is served.
#[derive(Debug)]
pub struct DownloadPlan {
    pub content_type: String,
    pub etag: String,
    pub last_modified: Option<String>,
    /// First and last byte served, for a partial response.
    pub range: Option<(u64, u64)>,
    pub content_length: u64,
    /// The `Content-Range` text of a partial response.
    pub content_range: Option<String>,
}

/// The `Content-Range` text for bytes `start` to `end` of `size`.
pub open spec fn content_range_spec(start: u64, end: u64, size: u64) -> Seq<char> {
    bytes_prefix().take(5) + seq![' '] + crate::text::decimal_digits(start as nat) + seq!['-']
        + crate::text::decimal_digits(end as nat) + seq!['/'] + crate::text::decimal_digits(
        size as nat,
    )
}

/// The `Content-Range` text for bytes `start` to `end` of `size`.
pub fn content_range_text(start: u64, end: u64, size: u64) -> (r: String)
    ensures
        r@ == content_range_spec(start, end, size),
{
    let mut s = String::new();
    s.push('b');
    s.push('y');
    s.push('t');
    s.push('e');
    s.push('s');
    s.push(' ');
    append_str(&mut s, crate::text::format_u64(start).as_str());
    s.push('-');
    append_str(&mut s, crate::text::format_u64(end).as_str());
    s.push('/');
    append_str(&mut s, crate::text::format_u64(size).as_str());
    assert(s@ =~= content_range_spec(start, end, size));
    s
}

/// Whether `r` answers a download of the entry at `path` (`size` bytes,
/// modified at `modified`) for the `Range` text `range` and the `If-Range`
/// text `if_range`: a directory is refused; otherwise the range stands when
/// `If-Range` lets it, and the plan carries the entity's headers.
pub open spec fn download_answer(
    path: Seq<char>,
    size: u64,
    modified: Option<(u64, u32)>,
    is_dir: bool,
    range: Option<Seq<char>>,
    if_range: Option<Seq<char>>,
    r: Result<DownloadPlan, ApiError>,
) -> bool {
    &&& is_dir ==> r is Err && is_bad_request(r->Err_0, "path is not a file"@)
    &&& !is_dir ==> {
        let ask = if if_range_holds(if_range, modified) {
            range_ask(range, size)
        } else {
            RangeAsk::Whole
        };
        match r {
            Ok(plan) => {
                &&& answers_range(ask, size, Ok(plan.range))
                &&& plan.content_type@ == mime_of(path)
                &&& plan.etag@ == etag_spec(size, modified)
                &&& match plan.last_modified {
                    Some(s) => last_modified_spec(modified) == Some(s@),
                    None => last_modified_spec(modified) is None,
                }
                &&& match plan.range {
                    Some((s, e)) => plan.content_length == e - s + 1 && (plan.content_range
                        matches Some(t) && t@ == content_range_spec(s, e, size)),
                    None => plan.content_length == size && plan.content_range is None,
                }
            },
            Err(e) => answers_range(ask, size, Err(e)),
        }
    }
}

/// Plans the download of the entry at `path`: a directory is refused; the
/// `Range` text (when `If-Range` lets it stand) picks the bytes served.
pub fn plan_download(
    path: &str,
    size: u64,
    modified: Option<(u64, u32)>,
    is_dir: bool,
    range: Option<&str>,
    if_range: Option<&str>,
) -> (r: Result<DownloadPlan, ApiError>)
    ensures
        download_answer(
            path@,
            size,
            modified,
            is_dir,
            match range {
                Some(t) => Some(t@),
                None => None,
            },
            match if_range {
                Some(t) => Some(t@),
                None => None,
            },
            r,
        ),
{
    if is_dir {
        return Err(bad_request("path is not a file"));
    }
    let if_range_ok = match if_range {
        None => true,
        Some(t) => match (parse_http_date_secs(t), modified) {
            (Some(date), Some((secs, nanos))) => secs < date || (secs == date && nanos == 0),
            _ => false,
        },
    };
    let chosen = if if_range_ok {
        parse_range_text(range, size)
    } else {
        Ok(None)
    };
    let picked = match chosen {
        Ok(p) => p,
        Err(e) => {
            return Err(e);
        },
    };
    let content_type = guess_mime(path);
    let etag = etag_from_metadata(size, modified);
    let last_modified = last_modified_text(modified);
    match picked {
        Some((start, end)) => {
            let content_range = content_range_text(start, end, size);
            Ok(
                DownloadPlan {
                    content_type,
                    etag,
                    last_modified,
                    range: Some((start, end)),
                    content_length: end - start + 1,
                    content_range: Some(content_range),
                },
            )
        },
        None => Ok(
            DownloadPlan {
                content_type,
                etag,
                last_modified,
                range: None,
                content_length: size,
                content_range: None,
            },
        ),
    }
}

/// A file or directory as the filesystem lists it.
#[derive(Clone, Debug)]
pub struct RawEntry {
    pub name: String,
    pub is_dir: bool,
    pub size: u64,
    /// Seconds and nanoseconds after the Unix epoch, when known.
    pub modified: Option<(u64, u32)>,
}

/// A file or directory of a listing.
#[derive(Clone, Debug, PartialEq, Eq)]
pub struct FileEntry {
    /// Base name.
    pub name: String,
    /// Storage-relative path, with forward slashes.
    pub path: String,
    pub is_dir: bool,
    /// Size in bytes.
    pub size: u64,
    /// Modification time, as `YYYY-MM-DD HH:MM:SS` in UTC.
    pub modified: Option<String>,
}

/// The name of the staging area, which listings hide.
pub open spec fn staging_name() -> Seq<char> {
    seq!['.', 'u', 'p', 'l', 'o', 'a', 'd', '_', 't', 'e', 'm', 'p']
}

/// What `str::to_lowercase` gives for `s`.
pub uninterp spec fn lower_of(s: Seq<char>) -> Seq<char>;

/// The `%Y-%m-%d %H:%M:%S` text that `chrono` writes for the UTC time `secs`
/// seconds after the Unix epoch, when `chrono` can represent it.
pub uninterp spec fn timestamp_of(secs: u64) -> Option<Seq<char>>;

/// Relies on `str::to_lowercase`: the result depends on the characters alone.
#[verifier::external_body]
fn lowercase(s: &str) -> (r: String)
    ensures
        r@ == lower_of(s@),
{
    s.to_lowercase()
}

/// Relies on `chrono::DateTime::from_timestamp` and its `format`: the UTC
/// date and time of `secs`, or nothing outside chrono's range.
#[verifier::external_body]
fn timestamp_text(secs: u64) -> (r: Option<String>)
    ensures
        match r {
            Some(t) => timestamp_of(secs) == Some(t@),
            None => timestamp_of(secs) is None,
        },
{
    let secs = i64::try_from(secs).ok()?;
    chrono::DateTime::from_timestamp(secs, 0).map(|d| d.format("%Y-%m-%d %H:%M:%S").to_string())
}

/// Whether `a` comes strictly before `b` in code point order.
pub open spec fn lex_lt(a: Seq<char>, b: Seq<char>) -> bool
    decreases a.len(),
{
    if a.len() == 0 {
        b.len() > 0
    } else if b.len() == 0 {
        false
    } else if a[0] != b[0] {
        a[0] < b[0]
    } else {
        lex_lt(a.skip(1), b.skip(1))
    }
}

proof fn lemma_lex_lt_asymmetric(a: Seq<char>, b: Seq<char>)
    ensures
        !(lex_lt(a, b) && lex_lt(b, a)),
    decreases a.len(),
{
    if a.len() > 0 && b.len() > 0 && a[0] == b[0] {
        lemma_lex_lt_asymmetric(a.skip(1), b.skip(1));
    }
}

/// Whether entry `a` is listed strictly before entry `b`: directories
/// first, then by lower-cased name.
pub open spec fn listed_before(a: FileEntry, b: FileEntry) -> bool {
    (a.is_dir && !b.is_dir) || (a.is_dir == b.is_dir && lex_lt(lower_of(a.name@), lower_of(b.name@)))
}

/// Whether no entry of `s` is listed strictly before the one preceding it.
pub open spec fn in_listing_order(s: Seq<FileEntry>) -> bool {
    forall|i: int| 0 < i < s.len() ==> !listed_before(#[trigger] s[i], s[i - 1])
}

fn lex_less(a: &Vec<char>, b: &Vec<char>) -> (r: bool)
    ensures
        r == lex_lt(a@, b@),
{
    let mut i: usize = 0;
    assert(a@.skip(0) =~= a@);
    assert(b@.skip(0) =~= b@);
    while i < a.len() && i < b.len() && a[i] == b[i]
        invariant
            i <= a.len(),
            i <= b.len(),
            lex_lt(a@, b@) == lex_lt(a@.skip(i as int), b@.skip(i as int)),
        decreases a.len() - i,
    {
        assert(a@.skip(i as int).skip(1) =~= a@.skip(i + 1));
        assert(b@.skip(i as int).skip(1) =~= b@.skip(i + 1));
        i = i + 1;
    }
    if i == a.len() {
        i < b.len()
    } else if i == b.len() {
        false
    } else {
        assert(a@.skip(i as int)[0] == a@[i as int]);
        assert(b@.skip(i as int)[0] == b@[i as int]);
        a[i] < b[i]
    }
}

fn before(a: &FileEntry, b: &FileEntry) -> (r: bool)
    ensures
        r == listed_before(*a, *b),
{
    if a.is_dir && !b.is_dir {
        return true;
    }
    if a.is_dir != b.is_dir {
        return false;
    }
    let la = chars_of(lowercase(a.name.as_str()).as_str());
    let lb = chars_of(lowercase(b.name.as_str()).as_str());
    lex_less(&la, &lb)
}

/// Orders a listing: directories first, then by lower-cased name, keeping
/// the given order among entries that compare equal.
pub fn sort_entries(v: Vec<FileEntry>) -> (r: Vec<FileEntry>)
    ensures
        r@.to_multiset() == v@.to_multiset(),
        in_listing_order(r@),
{
    let mut v = v;
    let ghost initial = v@.to_multiset();
    let mut i: usize = 1;
    if v.len() == 0 {
        return v;
    }
    while i < v.len()
        invariant
            1 <= i <= v.len(),
            v@.to_multiset() == initial,
            in_listing_order(v@.take(i as int)),
        decreases v.len() - i,
    {
        let ghost s0 = v@;
        let x = v.remove(i);
        let ghost s1 = v@;
        let mut k: usize = 0;
        while k < i && !before(&x, &v[k])
            invariant
                k <= i <= v.len(),
                v@ == s1,
                forall|j: int| 0 <= j < k ==> !listed_before(x, #[trigger] v@[j]),
            decreases i - k,
        {
            k = k + 1;
        }
        v.insert(k, x);
        proof {
            lemma_insert_keeps_order(s0, i as int, k as int);
        }
        i = i + 1;
    }
    assert(v@.take(v.len() as int) =~= v@);
    v
}

proof fn lemma_insert_keeps_order(s0: Seq<FileEntry>, i: int, k: int)
    requires
        0 <= k <= i < s0.len(),
        in_listing_order(s0.take(i)),
        forall|j: int| 0 <= j < k ==> !listed_before(s0[i], #[trigger] s0.remove(i)[j]),
        k < i ==> listed_before(s0[i], s0.remove(i)[k]),
    ensures
        in_listing_order(s0.remove(i).insert(k, s0[i]).take(i + 1)),
        s0.remove(i).insert(k, s0[i]).to_multiset() == s0.to_multiset(),
{
    let x = s0[i];
    let s1 = s0.remove(i);
    let t = s1.insert(k, x).take(i + 1);
    assert forall|m: int| 0 < m < t.len() implies !listed_before(#[trigger] t[m], t[m - 1]) by {
        if m < k {
            assert(t[m] == s0[m] && t[m - 1] == s0[m - 1]);
            assert(s0.take(i)[m] == s0[m]);
        } else if m == k {
            assert(t[m] == x && t[m - 1] == s1[m - 1]);
        } else if m == k + 1 {
            assert(t[m] == s1[k] && t[m - 1] == x);
            lemma_lex_lt_asymmetric(lower_of(x.name@), lower_of(s1[k].name@));
        } else {
            assert(t[m] == s0[m - 1] && t[m - 1] == s0[m - 2]);
            assert(s0.take(i)[m - 1] == s0[m - 1]);
        }
    }
    vstd::seq_lib::to_multiset_remove(s0, i);
    vstd::seq_lib::to_multiset_insert(s1, k, x);
    vstd::seq_lib::to_multiset_contains(s0, x);
    assert(s0.to_multiset().remove(x).insert(x) =~= s0.to_multiset());
}

/// `parts` joined with slashes.
pub open spec fn join_slash(parts: Seq<Seq<char>>) -> Seq<char>
    decreases parts.len(),
{
    if parts.len() == 0 {
        Seq::empty()
    } else if parts.len() == 1 {
        parts[0]
    } else {
        join_slash(parts.drop_last()) + seq!['/'] + parts.last()
    }
}

/// The storage-relative path of the entry `name` in the directory `dir`.
pub fn entry_path(dir: &crate::storage::ResolvedPath, name: &str) -> (r: String)
    ensures
        r@ == join_slash(dir@.push(name@)),
{
    let mut s = String::new();
    let mut k: usize = 0;
    let ghost parts = dir@.push(name@);
    while k < dir.components.len()
        invariant
            k <= dir.components.len(),
            parts == dir@.push(name@),
            s@ == join_slash(parts.take(k as int)),
        decreases dir.components.len() - k,
    {
        let ghost before = s@;
        if k > 0 {
            s.push('/');
        }
        append_str(&mut s, dir.components[k].as_str());
        proof {
            assert(parts.take(k + 1).drop_last() =~= parts.take(k as int));
            assert(parts[k as int] == dir.components@[k as int]@);
            if k == 0 {
                assert(s@ =~= join_slash(parts.take(1)));
            } else {
                assert(s@ =~= join_slash(parts.take(k + 1)));
            }
        }
        k = k + 1;
    }
    let ghost before = s@;
    if k > 0 {
        s.push('/');
    }
    append_str(&mut s, name);
    proof {
        assert(parts.take(k + 1) =~= parts);
        assert(parts.take(k + 1).drop_last() =~= parts.take(k as int));
        if k == 0 {
            assert(s@ =~= join_slash(parts));
        } else {
            assert(s@ =~= join_slash(parts));
        }
    }
    s
}

/// The characters of an optional string.
pub open spec fn opt_text(o: Option<String>) -> Option<Seq<char>> {
    match o {
        Some(s) => Some(s@),
        None => None,
    }
}

/// Whether a raw entry appears in listings at all.
pub open spec fn is_visible(e: RawEntry) -> bool {
    e.name@ != staging_name()
}

/// How many entries of `raw` appear in listings.
pub open spec fn visible_count(raw: Seq<RawEntry>) -> nat
    decreases raw.len(),
{
    if raw.len() == 0 {
        0
    } else {
        visible_count(raw.drop_last()) + if is_visible(raw.last()) {
            1nat
        } else {
            0nat
        }
    }
}

/// Whether `e` is how the listing of the directory `dir` shows `raw`.
pub open spec fn shows(dir: Seq<Seq<char>>, raw: RawEntry, e: FileEntry) -> bool {
    &&& e.name == raw.name
    &&& e.is_dir == raw.is_dir
    &&& e.size == raw.size
    &&& e.path@ == join_slash(dir.push(raw.name@))
    &&& opt_text(e.modified) == match raw.modified {
        Some((secs, _)) => timestamp_of(secs),
        None => None,
    }
}

/// Whether `e` shows one of the visible entries of `raw`.
pub open spec fn shown_from(dir: Seq<Seq<char>>, raw: Seq<RawEntry>, e: FileEntry) -> bool {
    exists|j: int| 0 <= j < raw.len() && is_visible(raw[j]) && shows(dir, raw[j], e)
}

/// Whether some entry of `listing` shows `raw`.
pub open spec fn listed_in(dir: Seq<Seq<char>>, listing: Seq<FileEntry>, raw: RawEntry) -> bool {
    exists|k: int| 0 <= k < listing.len() && shows(dir, raw, listing[k])
}

/// The entries of the directory `dir` as the listing shows them: the staging
/// area hidden, each with its storage-relative path and its modification
/// time as text, in listing order.
pub fn list_entries(dir: &crate::storage::ResolvedPath, raw: Vec<RawEntry>) -> (r: Vec<FileEntry>)
    ensures
        in_listing_order(r@),
        r@.len() == visible_count(raw@),
        forall|k: int| 0 <= k < r@.len() ==> shown_from(dir@, raw@, #[trigger] r@[k]),
        forall|j: int|
            0 <= j < raw@.len() && is_visible(#[trigger] raw@[j]) ==> listed_in(dir@, r@, raw@[j]),
{
    let mut out: Vec<FileEntry> = Vec::new();
    let mut j: usize = 0;
    while j < raw.len()
        invariant
            j <= raw.len(),
            out@.len() == visible_count(raw@.take(j as int)),
            forall|k: int| 0 <= k < out@.len() ==> shown_from(dir@, raw@, #[trigger] out@[k]),
            forall|m: int|
                0 <= m < j && is_visible(#[trigger] raw@[m]) ==> listed_in(dir@, out@, raw@[m]),
        decreases raw.len() - j,
    {
        let e = &raw[j];
        let hidden = e.name == ".upload_temp".to_owned();
        proof {
            reveal_strlit(".upload_temp");
            assert(".upload_temp"@ =~= staging_name());
            assert(raw@.take(j + 1).drop_last() =~= raw@.take(j as int));
            assert(raw@.take(j + 1).last() == raw@[j as int]);
        }
        let ghost before = out@;
        if !hidden {
            let modified = match e.modified {
                Some((secs, _)) => timestamp_text(secs),
                None => None,
            };
            let path = entry_path(dir, e.name.as_str());
            out.push(
                FileEntry {
                    name: e.name.clone(),
                    path,
                    is_dir: e.is_dir,
                    size: e.size,
                    modified,
                },
            );
            proof {
                assert(shows(dir@, raw@[j as int], out@[before.len() as int]));
                assert forall|k: int| 0 <= k < out@.len() implies shown_from(dir@, raw@, #[trigger] out@[k]) by {
                    if k < before.len() {
                        assert(out@[k] == before[k]);
                    }
                }
                assert forall|m: int| 0 <= m < j + 1 && is_visible(#[trigger] raw@[m]) implies listed_in(dir@, out@, raw@[m]) by {
                    if m < j {
                        assert(listed_in(dir@, before, raw@[m]));
                        let k = choose|k: int| 0 <= k < before.len() && shows(dir@, raw@[m], before[k]);
                        assert(out@[k] == before[k]);
                    } else {
                        assert(shows(dir@, raw@[m], out@[before.len() as int]));
                    }
                }
            }
        }
        j = j + 1;
    }
    assert(raw@.take(raw.len() as int) =~= raw@);
    let sorted = sort_entries(out);
    proof {
        vstd::seq_lib::to_multiset_len(out@);
        vstd::seq_lib::to_multiset_len(sorted@);
        assert forall|k: int| 0 <= k < sorted@.len() implies shown_from(dir@, raw@, #[trigger] sorted@[k]) by {
            vstd::seq_lib::to_multiset_contains(sorted@, sorted@[k]);
            vstd::seq_lib::to_multiset_contains(out@, sorted@[k]);
            assert(sorted@.contains(sorted@[k]));
            let m = choose|m: int| 0 <= m < out@.len() && out@[m] == sorted@[k];
            assert(shown_from(dir@, raw@, out@[m]));
        }
        assert forall|j: int| 0 <= j < raw@.len() && is_visible(#[trigger] raw@[j]) implies listed_in(dir@, sorted@, raw@[j]) by {
            assert(listed_in(dir@, out@, raw@[j]));
            let k = choose|k: int| 0 <= k < out@.len() && shows(dir@, raw@[j], out@[k]);
            vstd::seq_lib::to_multiset_contains(out@, out@[k]);
            vstd::seq_lib::to_multiset_contains(sorted@, out@[k]);
            assert(out@.contains(out@[k]));
            let n = choose|n: int| 0 <= n < sorted@.len() && sorted@[n] == out@[k];
            assert(shows(dir@, raw@[j], sorted@[n]));
        }
    }
    sorted
}

/// Plans the download of the entry at `path` from the request's `Range`
/// and `If-Range` headers.
pub fn plan_download_for(
    headers: &HeaderMap,
    path: &str,
    size: u64,
    modified: Option<(u64, u32)>,
    is_dir: bool,
) -> (r: Result<DownloadPlan, ApiError>)
    ensures
        download_answer(
            path@,
            size,
            modified,
            is_dir,
            range_text_of(*headers),
            header_of(*headers, "if-range"@),
            r,
        ),
{
    let if_range = header_text(headers, "if-range");
    let if_range_text: Option<&str> = match &if_range {
        Some(t) => Some(t.as_str()),
        None => None,
    };
    let range = range_text(headers);
    let range_str: Option<&str> = match &range {
        Some(t) => Some(t.as_str()),
        None => None,
    };
    plan_download(path, size, modified, is_dir, range_str, if_range_text)
}

/// Checks that a change names a path at all.
pub fn require_path(path: &str) -> (r: Result<(), ApiError>)
    ensures
        r is Ok <==> path@.len() > 0,
        r is Err ==> is_bad_request(r->Err_0, "path is required"@),
{
    if path.is_empty() {
        return Err(bad_request("path is required"));
    }
    Ok(())
}

} // verus!
