//! Chunked uploads: validating a new session, accepting chunks, and planning
//! the merge of the staged parts into the target file.

use vstd::prelude::*;

use crate::config::{MAX_CHUNK_SIZE, UPLOAD_RETRY_AFTER_SECS};
use crate::error::{bad_request, is_bad_request, ApiError};
use crate::ids::{random_uuid_text, uuid_accepts, uuid_parses};
use crate::text::{
    all_digits, chars_of, decimal_digits, decimal_value, format_u64, parse_u64, parse_u64_spec,
    string_of, trim, trim_separators, trim_start_separators, trim_white,
};

verus! {

/// Upload limits and cleanup settings; a limit of zero disables it.
#[derive(Clone, Copy, Debug)]
pub struct UploadConfig {
    pub max_total_size: u64,
    pub max_chunks: u64,
    pub max_concurrent: u64,
    pub temp_ttl_secs: u64,
}

/// The record kept in a session's staging directory.
#[derive(Clone, Debug, PartialEq, Eq)]
pub struct UploadMetadata {
    pub name: String,
    pub total_size: u64,
}

/// A fresh, unguessable upload session id.
pub fn new_upload_id() -> (r: String)
    ensures
        r@.len() == 36,
        uuid_accepts(r@),
{
    random_uuid_text()
}

/// The target name of a new upload: surrounding whitespace and leading
/// separators removed.
pub open spec fn upload_name_spec(name: Seq<char>) -> Seq<char> {
    trim_start_separators(trim_white(name))
}

/// Sanitizes the target name of a new upload; an empty result is refused.
pub fn normalize_upload_name(name: &str) -> (r: Result<String, ApiError>)
    ensures
        r is Ok <==> upload_name_spec(name@).len() > 0,
        r is Ok ==> r->Ok_0@ == upload_name_spec(name@),
        r is Err ==> is_bad_request(r->Err_0, "name is required"@),
{
    let cs = chars_of(name);
    let trimmed = trim(&cs);
    let stripped = trim_separators(&trimmed);
    if stripped.len() == 0 {
        return Err(bad_request("name is required"));
    }
    Ok(string_of(&stripped))
}

/// The number of chunks of at most `MAX_CHUNK_SIZE` bytes that `total` bytes
/// need.
pub open spec fn expected_chunks_spec(total: u64) -> int {
    (total as int + MAX_CHUNK_SIZE - 1) / (MAX_CHUNK_SIZE as int)
}

/// The number of chunks of at most `MAX_CHUNK_SIZE` bytes that `total` bytes
/// need.
pub fn expected_chunks(total: u64) -> (r: u64)
    ensures
        r == expected_chunks_spec(total),
{
    let q = total / MAX_CHUNK_SIZE;
    let m = total % MAX_CHUNK_SIZE;
    proof {
        let t = total as int;
        let k = MAX_CHUNK_SIZE as int;
        assert(t == q * k + m && 0 <= m < k) by (nonlinear_arith)
            requires
                q == t / k,
                m == t % k,
                k > 0,
        ;
        assert(q < u64::MAX) by (nonlinear_arith)
            requires
                q == t / k,
                k > 1,
                t <= u64::MAX,
        ;
        if m == 0 {
            assert((t + k - 1) / k == q) by (nonlinear_arith)
                requires
                    t == q * k,
                    k > 0,
            ;
        } else {
            assert((t + k - 1) / k == q + 1) by (nonlinear_arith)
                requires
                    t == q * k + m,
                    0 < m < k,
            ;
        }
    }
    if m == 0 {
        q
    } else {
        q + 1
    }
}

/// Whether a declared size breaks the size ceiling.
pub open spec fn exceeds_size_limit(total: u64, config: UploadConfig) -> bool {
    config.max_total_size > 0 && total > config.max_total_size
}

/// Whether a declared size needs more chunks than the ceiling allows.
pub open spec fn exceeds_chunk_limit(total: u64, config: UploadConfig) -> bool {
    total > 0 && config.max_chunks > 0 && expected_chunks_spec(total) > config.max_chunks
}

/// Checks a declared upload size against the size and chunk-count ceilings.
pub fn check_upload_limits(total_size: u64, config: &UploadConfig) -> (r: Result<(), ApiError>)
    ensures
        r is Ok <==> !exceeds_size_limit(total_size, *config) && !exceeds_chunk_limit(
            total_size,
            *config,
        ),
        exceeds_size_limit(total_size, *config) ==> is_bad_request(
            r->Err_0,
            "upload size exceeds limit"@,
        ),
        !exceeds_size_limit(total_size, *config) && exceeds_chunk_limit(total_size, *config)
            ==> is_bad_request(r->Err_0, "upload chunk count exceeds limit"@),
{
    if config.max_total_size > 0 && total_size > config.max_total_size {
        return Err(bad_request("upload size exceeds limit"));
    }
    if total_size > 0 && config.max_chunks > 0 {
        if expected_chunks(total_size) > config.max_chunks {
            return Err(bad_request("upload chunk count exceeds limit"));
        }
    }
    Ok(())
}

/// Checks a session's declared size against the size ceiling.
pub fn check_size_limit(total_size: u64, config: &UploadConfig) -> (r: Result<(), ApiError>)
    ensures
        r is Ok <==> !exceeds_size_limit(total_size, *config),
        r is Err ==> is_bad_request(r->Err_0, "upload size exceeds limit"@),
{
    if config.max_total_size > 0 && total_size > config.max_total_size {
        return Err(bad_request("upload size exceeds limit"));
    }
    Ok(())
}

/// Checks the number of live sessions against the concurrency ceiling.
pub fn check_concurrency(active: u64, config: &UploadConfig) -> (r: Result<(), ApiError>)
    ensures
        r is Ok <==> !(config.max_concurrent > 0 && active >= config.max_concurrent),
        r is Err ==> r->Err_0 == ApiError::TooManyRequests(UPLOAD_RETRY_AFTER_SECS),
{
    if config.max_concurrent > 0 && active >= config.max_concurrent {
        return Err(ApiError::TooManyRequests(UPLOAD_RETRY_AFTER_SECS));
    }
    Ok(())
}

/// Checks the form of a session id: it must be present and be a UUID, so it
/// can only ever name a directory directly below the staging root.
pub fn validate_upload_id(id: &str) -> (r: Result<(), ApiError>)
    ensures
        trim_white(id@).len() == 0 ==> is_bad_request(r->Err_0, "upload_id is required"@),
        trim_white(id@).len() > 0 && !uuid_accepts(id@) ==> is_bad_request(
            r->Err_0,
            "upload_id is invalid"@,
        ),
        r is Ok <==> trim_white(id@).len() > 0 && uuid_accepts(id@),
{
    let cs = chars_of(id);
    if trim(&cs).len() == 0 {
        return Err(bad_request("upload_id is required"));
    }
    if !uuid_parses(id) {
        return Err(bad_request("upload_id is invalid"));
    }
    Ok(())
}

/// Reads the chunk index that a client sent, which must be a `u64`.
pub fn parse_chunk_index(value: Option<&str>) -> (r: Result<u64, ApiError>)
    ensures
        value is None ==> r is Err && is_bad_request(r->Err_0, "X-Chunk-Index is required"@),
        value is Some ==> match parse_u64_spec(value->Some_0@) {
            Some(i) => r == Ok::<u64, ApiError>(i),
            None => r is Err && is_bad_request(r->Err_0, "X-Chunk-Index is required"@),
        },
{
    match value {
        None => Err(bad_request("X-Chunk-Index is required")),
        Some(v) => {
            let cs = chars_of(v);
            match parse_u64(&cs) {
                Some(i) => Ok(i),
                None => Err(bad_request("X-Chunk-Index is required")),
            }
        },
    }
}

/// Checks a chunk index against the chunk-count ceiling.
pub fn check_chunk_index(index: u64, config: &UploadConfig) -> (r: Result<(), ApiError>)
    ensures
        r is Ok <==> config.max_chunks == 0 || index < config.max_chunks,
        r is Err ==> is_bad_request(r->Err_0, "chunk index exceeds limit"@),
{
    if config.max_chunks > 0 {
        let max_index = config.max_chunks - 1;
        if index > max_index {
            return Err(bad_request("chunk index exceeds limit"));
        }
    }
    Ok(())
}

/// Counts `len` more bytes of a chunk that already holds `written`; `None`
/// once the chunk would exceed `MAX_CHUNK_SIZE`.
pub fn add_chunk_bytes(written: u64, len: u64) -> (r: Option<u64>)
    ensures
        written + len <= MAX_CHUNK_SIZE ==> r == Some((written + len) as u64),
        written + len > MAX_CHUNK_SIZE ==> r is None,
{
    if len > MAX_CHUNK_SIZE || written > MAX_CHUNK_SIZE - len {
        None
    } else {
        Some(written + len)
    }
}

/// The suffix of a staged part's file name.
pub open spec fn part_suffix() -> Seq<char> {
    seq!['.', 'p', 'a', 'r', 't']
}

/// Whether `s` ends with the part suffix.
pub open spec fn ends_with_part(s: Seq<char>) -> bool {
    s.len() >= 5 && s.skip(s.len() - 5) == part_suffix()
}

/// `s` with every trailing part suffix removed.
pub open spec fn strip_part_suffixes(s: Seq<char>) -> Seq<char>
    decreases s.len(),
{
    if ends_with_part(s) {
        strip_part_suffixes(s.take(s.len() - 5))
    } else {
        s
    }
}

/// The chunk index that a staged file name stands for, if it is a part.
pub open spec fn part_index_spec(name: Seq<char>) -> Option<u64> {
    if ends_with_part(name) {
        parse_u64_spec(strip_part_suffixes(name))
    } else {
        None
    }
}

/// The file name under which chunk `index` is staged.
pub open spec fn part_name_spec(index: u64) -> Seq<char> {
    decimal_digits(index as nat) + part_suffix()
}

fn ends_with_part_exec(cs: &Vec<char>, len: usize) -> (r: bool)
    requires
        len <= cs.len(),
    ensures
        r == ends_with_part(cs@.take(len as int)),
{
    if len < 5 {
        return false;
    }
    let r = cs[len - 5] == '.' && cs[len - 4] == 'p' && cs[len - 3] == 'a' && cs[len - 2] == 'r'
        && cs[len - 1] == 't';
    let ghost t = cs@.take(len as int);
    assert(r == (t.skip(t.len() - 5) =~= part_suffix()));
    r
}

/// The file name under which chunk `index` is staged.
pub fn part_file_name(index: u64) -> (r: String)
    ensures
        r@ == part_name_spec(index),
{
    let mut s = format_u64(index);
    s.push('.');
    s.push('p');
    s.push('a');
    s.push('r');
    s.push('t');
    assert(s@ =~= part_name_spec(index));
    s
}

/// The chunk index that a staged file name stands for, if it is a part.
pub fn part_index(name: &str) -> (r: Option<u64>)
    ensures
        r == part_index_spec(name@),
{
    let cs = chars_of(name);
    if !ends_with_part_exec(&cs, cs.len()) {
        assert(cs@.take(cs@.len() as int) =~= cs@);
        return None;
    }
    let mut len: usize = cs.len();
    assert(cs@.take(len as int) =~= cs@);
    while ends_with_part_exec(&cs, len)
        invariant
            len <= cs.len(),
            strip_part_suffixes(name@) == strip_part_suffixes(cs@.take(len as int)),
            cs@ == name@,
        decreases len,
    {
        assert(cs@.take(len as int).take(len - 5) =~= cs@.take(len - 5));
        len = len - 5;
    }
    let stem = crate::text::slice_of(&cs, 0, len);
    assert(stem@ =~= cs@.take(len as int));
    assert(cs@.take(cs@.len() as int) =~= cs@);
    parse_u64(&stem)
}

/// Every chunk index has one part file name, which reads back as that index;
/// so re-uploading a chunk replaces the one file that the merge reads for it.
pub proof fn lemma_part_name_round_trip(index: u64, other: u64)
    ensures
        part_index_spec(part_name_spec(index)) == Some(index),
        part_name_spec(index) == part_name_spec(other) <==> index == other,
{
    lemma_decimal_round_trip(index as nat);
    lemma_decimal_round_trip(other as nat);
    let d = decimal_digits(index as nat);
    let s = part_name_spec(index);
    assert(s.skip(s.len() - 5) =~= part_suffix());
    assert(s.take(s.len() - 5) =~= d);
    assert(!ends_with_part(d)) by {
        if ends_with_part(d) {
            assert(d.skip(d.len() - 5)[4] == d[d.len() - 1]);
        }
    }
    assert(strip_part_suffixes(s) == strip_part_suffixes(d));
    if part_name_spec(index) == part_name_spec(other) {
        let t = part_name_spec(other);
        assert(t.take(t.len() - 5) =~= decimal_digits(other as nat));
    }
}

proof fn lemma_decimal_round_trip(n: nat)
    ensures
        decimal_digits(n).len() > 0,
        all_digits(decimal_digits(n)),
        decimal_value(decimal_digits(n)) == n,
        decimal_digits(n)[0] != '+',
    decreases n,
{
    if n < 10 {
        assert(crate::text::digit_value(crate::text::digit_char(n)) == n);
        let s = decimal_digits(n);
        assert(s.drop_last() =~= Seq::<char>::empty());
        assert(decimal_value(s.drop_last()) == 0);
        assert(s.last() == crate::text::digit_char(n));
        assert(decimal_value(s) == n);
    }
    if n >= 10 {
        lemma_decimal_round_trip(n / 10);
        let p = decimal_digits(n / 10);
        let s = decimal_digits(n);
        assert(s == p.push(crate::text::digit_char(n % 10)));
        assert(s.drop_last() =~= p);
        assert(s[0] == p[0]);
        assert forall|i: int| 0 <= i < s.len() implies crate::text::is_digit(#[trigger] s[i]) by {
            if i < p.len() {
                assert(s[i] == p[i]);
            }
        }
        assert(crate::text::digit_value(crate::text::digit_char(n % 10)) == n % 10);
        assert(s.last() == crate::text::digit_char(n % 10));
        assert(decimal_value(s) == decimal_value(p) * 10 + (n % 10) as nat);
        assert(decimal_value(p) == n / 10);
        let q = decimal_value(p);
        assert(q * 10 + (n % 10) as nat == n) by (nonlinear_arith)
            requires
                q == n / 10,
        ;
    }
}

/// The parts among the entries `names` of a staging directory, in listing
/// order: each part's chunk index and its position in `names`.
pub open spec fn parts_of(names: Seq<Seq<char>>) -> Seq<(u64, int)>
    decreases names.len(),
{
    if names.len() == 0 {
        Seq::empty()
    } else {
        let prev = parts_of(names.drop_last());
        match part_index_spec(names.last()) {
            Some(i) => prev.push((i, names.len() - 1)),
            None => prev,
        }
    }
}

/// Whether the chunk indices of `parts` are exactly `0..n`, each once.
pub open spec fn is_contiguous(parts: Seq<(u64, int)>) -> bool {
    &&& forall|j: int| 0 <= j < parts.len() ==> #[trigger] parts[j].0 < parts.len()
    &&& forall|j: int, k: int| 0 <= j < k < parts.len() ==> #[trigger] parts[j].0 != #[trigger] parts[k].0
    &&& forall|v: int| 0 <= v < parts.len() ==> #[trigger] holds_index(parts, v)
}

/// Whether some part of `parts` is for chunk `v`.
pub open spec fn holds_index(parts: Seq<(u64, int)>, v: int) -> bool {
    exists|j: int| 0 <= j < parts.len() && #[trigger] parts[j].0 == v
}

/// Whether `order` lists, for chunk `0`, `1`, ..., the position of its part.
pub open spec fn is_merge_order(parts: Seq<(u64, int)>, order: Seq<usize>) -> bool {
    &&& order.len() == parts.len()
    &&& forall|k: int| 0 <= k < order.len() ==> #[trigger] places(parts, k, order[k] as int)
}

/// Whether the part at position `pos` of the listing is the one for chunk `k`.
pub open spec fn places(parts: Seq<(u64, int)>, k: int, pos: int) -> bool {
    exists|j: int| 0 <= j < parts.len() && #[trigger] parts[j].0 == k && parts[j].1 == pos
}

/// The views of a list of names.
pub open spec fn names_view(names: Seq<String>) -> Seq<Seq<char>> {
    names.map_values(|s: String| s@)
}

/// Plans the merge of a session's staged parts: from the entries of its
/// staging directory, the positions of the parts for chunk `0`, `1`, ..., in
/// that order. Fails unless at least one part is staged, the count respects
/// the ceiling, and the indices run from `0` without gap or repeat.
pub fn plan_merge(names: &Vec<String>, max_chunks: u64) -> (r: Result<Vec<usize>, ApiError>)
    ensures
        ({
            let parts = parts_of(names_view(names@));
            &&& parts.len() == 0 ==> is_bad_request(r->Err_0, "no chunks uploaded"@)
            &&& parts.len() > 0 && max_chunks > 0 && parts.len() > max_chunks ==> is_bad_request(
                r->Err_0,
                "upload chunk count exceeds limit"@,
            )
            &&& parts.len() > 0 && (max_chunks == 0 || parts.len() <= max_chunks)
                && !is_contiguous(parts) ==> is_bad_request(r->Err_0, "missing chunk"@)
            &&& r is Ok <==> parts.len() > 0 && (max_chunks == 0 || parts.len() <= max_chunks)
                && is_contiguous(parts)
            &&& r is Ok ==> is_merge_order(parts, r->Ok_0@)
        }),
{
    let ghost nv = names_view(names@);
    let mut idxs: Vec<u64> = Vec::new();
    let mut poss: Vec<usize> = Vec::new();
    let mut i: usize = 0;
    while i < names.len()
        invariant
            i <= names.len(),
            nv == names_view(names@),
            idxs.len() == poss.len() == parts_of(nv.take(i as int)).len(),
            forall|j: int|
                0 <= j < idxs.len() ==> parts_of(nv.take(i as int))[j] == (
                    idxs@[j],
                    poss@[j] as int,
                ),
        decreases names.len() - i,
    {
        proof {
            assert(nv.take(i + 1).drop_last() =~= nv.take(i as int));
            assert(nv.take(i + 1).last() == names@[i as int]@);
        }
        match part_index(names[i].as_str()) {
            Some(index) => {
                idxs.push(index);
                poss.push(i);
            },
            None => {},
        }
        i = i + 1;
    }
    assert(nv.take(names.len() as int) =~= nv);
    let ghost parts = parts_of(nv);
    let n = idxs.len();
    if n == 0 {
        return Err(bad_request("no chunks uploaded"));
    }
    if max_chunks > 0 && n as u64 > max_chunks {
        return Err(bad_request("upload chunk count exceeds limit"));
    }
    let mut slots: Vec<Option<usize>> = Vec::new();
    let mut v: usize = 0;
    while v < n
        invariant
            v <= n,
            slots.len() == v,
            forall|w: int| 0 <= w < v ==> slots@[w] is None,
        decreases n - v,
    {
        slots.push(None);
        v = v + 1;
    }
    let mut t: usize = 0;
    while t < n
        invariant
            t <= n == idxs.len() == poss.len() == parts.len() == slots.len(),
            parts == parts_of(names_view(names@)),
            n > 0,
            max_chunks == 0 || n <= max_chunks,
            forall|j: int| 0 <= j < n ==> parts[j] == (idxs@[j], poss@[j] as int),
            forall|j: int| 0 <= j < t ==> idxs@[j] < n,
            forall|j: int, k: int| 0 <= j < k < t ==> idxs@[j] != idxs@[k],
            forall|w: int|
                0 <= w < n ==> (#[trigger] slots@[w] is Some ==> exists|j: int|
                    0 <= j < t && idxs@[j] == w && poss@[j] == slots@[w]->Some_0),
            forall|w: int|
                0 <= w < n ==> (#[trigger] slots@[w] is None ==> forall|j: int|
                    0 <= j < t ==> idxs@[j] != w),
        decreases n - t,
    {
        let index = idxs[t];
        if index >= n as u64 {
            assert(!is_contiguous(parts)) by {
                assert(parts[t as int].0 == index);
            }
            return Err(bad_request("missing chunk"));
        }
        let slot = index as usize;
        if slots[slot].is_some() {
            assert(!is_contiguous(parts)) by {
                let j = choose|j: int|
                    0 <= j < t && idxs@[j] == slot && poss@[j] == slots@[slot as int]->Some_0;
                assert(parts[j].0 == parts[t as int].0);
            }
            return Err(bad_request("missing chunk"));
        }
        let ghost before = slots@;
        slots.set(slot, Some(poss[t]));
        proof {
            assert forall|w: int|
                0 <= w < n && #[trigger] slots@[w] is Some implies exists|j: int|
                0 <= j < t + 1 && idxs@[j] == w && poss@[j] == slots@[w]->Some_0 by {
                if w != slot {
                    assert(before[w] is Some);
                    let j = choose|j: int|
                        0 <= j < t && idxs@[j] == w && poss@[j] == before[w]->Some_0;
                    assert(0 <= j < t + 1 && idxs@[j] == w && poss@[j] == slots@[w]->Some_0);
                } else {
                    assert(idxs@[t as int] == w && poss@[t as int] == slots@[w]->Some_0);
                }
            }
            assert forall|j: int, k: int| 0 <= j < k < t + 1 implies idxs@[j] != idxs@[k] by {
                if k == t {
                    assert(before[slot as int] is None);
                }
            }
        }
        t = t + 1;
    }
    let mut order: Vec<usize> = Vec::new();
    let mut w: usize = 0;
    while w < n
        invariant
            w <= n == idxs.len() == poss.len() == parts.len() == slots.len(),
            parts == parts_of(names_view(names@)),
            n > 0,
            max_chunks == 0 || n <= max_chunks,
            forall|j: int| 0 <= j < n ==> parts[j] == (idxs@[j], poss@[j] as int),
            forall|j: int| 0 <= j < n ==> idxs@[j] < n,
            forall|j: int, k: int| 0 <= j < k < n ==> idxs@[j] != idxs@[k],
            forall|x: int|
                0 <= x < n ==> (#[trigger] slots@[x] is Some ==> exists|j: int|
                    0 <= j < n && idxs@[j] == x && poss@[j] == slots@[x]->Some_0),
            forall|x: int|
                0 <= x < n ==> (#[trigger] slots@[x] is None ==> forall|j: int|
                    0 <= j < n ==> idxs@[j] != x),
            order.len() == w,
            forall|k: int| 0 <= k < w ==> slots@[k] == Some(order@[k]),
        decreases n - w,
    {
        match slots[w] {
            Some(p) => {
                order.push(p);
            },
            None => {
                assert(!is_contiguous(parts)) by {
                    if is_contiguous(parts) {
                        assert(holds_index(parts, w as int));
                        let j = choose|j: int| 0 <= j < parts.len() && #[trigger] parts[j].0 == w;
                        assert(idxs@[j] == w);
                    }
                }
                return Err(bad_request("missing chunk"));
            },
        }
        w = w + 1;
    }
    proof {
        assert forall|x: int| 0 <= x < parts.len() implies #[trigger] holds_index(parts, x) by {
            assert(slots@[x] is Some);
            let j = choose|j: int|
                0 <= j < n && idxs@[j] == x && poss@[j] == slots@[x]->Some_0;
            assert(parts[j].0 == x);
        }
        assert forall|j: int, k: int| 0 <= j < k < parts.len() implies #[trigger] parts[j].0
            != #[trigger] parts[k].0 by {
            assert(idxs@[j] != idxs@[k]);
        }
        assert forall|k: int| 0 <= k < order.len() implies #[trigger] places(
            parts,
            k,
            order@[k] as int,
        ) by {
            assert(slots@[k] is Some);
            let j = choose|j: int|
                0 <= j < n && idxs@[j] == k && poss@[j] == slots@[k]->Some_0;
            assert(parts[j].0 == k && parts[j].1 == order@[k] as int);
        }
    }
    Ok(order)
}

/// A staging directory that holds the part files of chunks `0` to `n - 1`,
/// in that order, is merged in index order: its parts are contiguous and
/// the part for chunk `k` is the entry at position `k`.
pub proof fn lemma_staged_chunks_merge_in_order(names: Seq<Seq<char>>)
    requires
        names.len() <= u64::MAX + 1,
        forall|k: int| 0 <= k < names.len() ==> #[trigger] names[k] == part_name_spec(k as u64),
    ensures
        parts_of(names) == Seq::new(names.len(), |k: int| (k as u64, k)),
        is_contiguous(parts_of(names)),
    decreases names.len(),
{
    if names.len() > 0 {
        let prev = names.drop_last();
        assert forall|k: int| 0 <= k < prev.len() implies #[trigger] prev[k] == part_name_spec(k as u64) by {
            assert(prev[k] == names[k]);
        }
        lemma_staged_chunks_merge_in_order(prev);
        let last = names.len() - 1;
        lemma_part_name_round_trip(last as u64, last as u64);
        assert(names.last() == part_name_spec(last as u64));
        assert(parts_of(names) =~= Seq::new(names.len(), |k: int| (k as u64, k)));
    }
    let parts = parts_of(names);
    assert forall|v: int| 0 <= v < parts.len() implies #[trigger] holds_index(parts, v) by {
        assert(parts[v].0 == v);
    }
}

/// Checks the record of a session before its merge: the target name must
/// not be blank and the declared size must respect the ceiling.
pub fn check_metadata(metadata: &UploadMetadata, config: &UploadConfig) -> (r: Result<(), ApiError>)
    ensures
        trim_white(metadata.name@).len() == 0 ==> is_bad_request(
            r->Err_0,
            "target name is required"@,
        ),
        trim_white(metadata.name@).len() > 0 && exceeds_size_limit(metadata.total_size, *config)
            ==> is_bad_request(r->Err_0, "upload size exceeds limit"@),
        r is Ok <==> trim_white(metadata.name@).len() > 0 && !exceeds_size_limit(
            metadata.total_size,
            *config,
        ),
{
    let cs = chars_of(metadata.name.as_str());
    if trim(&cs).len() == 0 {
        return Err(bad_request("target name is required"));
    }
    if config.max_total_size > 0 && metadata.total_size > config.max_total_size {
        return Err(bad_request("upload size exceeds limit"));
    }
    Ok(())
}

/// Checks the merged byte count against the declared size; a declared size of
/// zero accepts any count.
pub fn check_merged_size(declared: u64, written: u64) -> (r: Result<(), ApiError>)
    ensures
        r is Ok <==> declared == 0 || written == declared,
        r is Err ==> is_bad_request(r->Err_0, "size mismatch"@),
{
    if declared > 0 && written != declared {
        return Err(bad_request("size mismatch"));
    }
    Ok(())
}

/// Whether a staging directory last modified at `modified` is due for removal
/// at `now` (both in milliseconds); a TTL of zero keeps every directory, and a
/// modification time in the future is never due.
pub open spec fn is_stale_spec(now: u64, modified: u64, ttl: u64) -> bool {
    ttl > 0 && now >= modified && now - modified >= ttl
}

/// Whether a staging directory last modified at `modified` is due for removal
/// at `now`, given the TTL (all in milliseconds).
pub fn is_stale(now: u64, modified: u64, ttl: u64) -> (r: bool)
    ensures
        r == is_stale_spec(now, modified, ttl),
{
    ttl > 0 && now >= modified && now - modified >= ttl
}

/// `s` without trailing slashes, a lone leading one kept.
pub open spec fn strip_trailing_slashes(s: Seq<char>) -> Seq<char>
    decreases s.len(),
{
    if s.len() > 1 && s.last() == '/' {
        strip_trailing_slashes(s.drop_last())
    } else {
        s
    }
}

/// The position of the last slash of `s`, or `-1`.
pub open spec fn last_slash(s: Seq<char>) -> int
    decreases s.len(),
{
    if s.len() == 0 {
        -1
    } else if s.last() == '/' {
        s.len() - 1
    } else {
        last_slash(s.drop_last())
    }
}

/// The directory that holds `path`: `None` for the empty path and the root,
/// the empty path for a bare name.
pub open spec fn parent_spec(path: Seq<char>) -> Option<Seq<char>> {
    let t = strip_trailing_slashes(path);
    if t.len() == 0 || t == seq!['/'] {
        None
    } else {
        let k = last_slash(t);
        if k < 0 {
            Some(Seq::empty())
        } else if k == 0 {
            Some(seq!['/'])
        } else {
            Some(strip_trailing_slashes(t.take(k)))
        }
    }
}

/// The name of the staging area's parent directory.
pub open spec fn axo_name() -> Seq<char> {
    seq!['.', 'a', 'x', 'o']
}

/// The staging area, relative to the storage root's parent.
pub open spec fn axo_temp() -> Seq<char> {
    axo_name() + seq!['/', 't', 'e', 'm', 'p']
}

/// Where the staging directories of a storage rooted at `root` live: in
/// `.axo/temp` beside the root, or in `temp` beside it when the root already
/// sits in a directory named `.axo`.
pub open spec fn temp_root_spec(root: Seq<char>) -> Seq<char> {
    match parent_spec(root) {
        None => axo_temp(),
        Some(p) => if p.len() > 0 && p.skip(last_slash(p) + 1) == axo_name() {
            p + seq!['/', 't', 'e', 'm', 'p']
        } else if p.len() == 0 {
            axo_temp()
        } else if p == seq!['/'] {
            seq!['/'] + axo_temp()
        } else {
            p + seq!['/'] + axo_temp()
        },
    }
}

fn strip_end(cs: &Vec<char>, len: usize) -> (r: usize)
    requires
        len <= cs.len(),
    ensures
        r <= len,
        cs@.take(r as int) == strip_trailing_slashes(cs@.take(len as int)),
{
    let mut end = len;
    while end > 1 && cs[end - 1] == '/'
        invariant
            end <= len <= cs.len(),
            strip_trailing_slashes(cs@.take(end as int)) == strip_trailing_slashes(cs@.take(len as int)),
        decreases end,
    {
        assert(cs@.take(end as int).drop_last() =~= cs@.take(end - 1));
        end = end - 1;
    }
    end
}

fn find_last_slash(cs: &Vec<char>, len: usize) -> (r: Option<usize>)
    requires
        len <= cs.len(),
    ensures
        match r {
            Some(k) => k < len && last_slash(cs@.take(len as int)) == k,
            None => last_slash(cs@.take(len as int)) == -1,
        },
{
    let mut k = len;
    while k > 0 && cs[k - 1] != '/'
        invariant
            k <= len <= cs.len(),
            last_slash(cs@.take(len as int)) == last_slash(cs@.take(k as int)),
        decreases k,
    {
        assert(cs@.take(k as int).drop_last() =~= cs@.take(k - 1));
        k = k - 1;
    }
    if k == 0 {
        None
    } else {
        Some(k - 1)
    }
}

/// Where the staging directories of `storage` live.
pub fn upload_temp_root(storage: &crate::storage::Storage) -> (r: String)
    ensures
        r@ == temp_root_spec(storage.root_view()),
{
    proof {
        reveal_strlit(".axo/temp");
        reveal_strlit("/temp");
        reveal_strlit("/.axo/temp");
        assert(".axo/temp"@ =~= axo_temp());
        assert("/temp"@ =~= seq!['/', 't', 'e', 'm', 'p']);
        assert("/.axo/temp"@ =~= seq!['/'] + axo_temp());
    }
    let cs = chars_of(storage.root_path());
    assert(cs@.take(cs.len() as int) =~= cs@);
    let end = strip_end(&cs, cs.len());
    let mut out: Vec<char> = Vec::new();
    if end == 0 || (end == 1 && cs[0] == '/') {
        proof {
            if end == 1 {
                assert(cs@.take(1) =~= seq!['/']);
            }
        }
        out.append(&mut chars_of(".axo/temp"));
        assert(out@ =~= axo_temp());
        return string_of(&out);
    }
    proof {
        if cs@.take(end as int) == seq!['/'] {
            assert(cs@.take(end as int)[0] == '/');
        }
    }
    let parent: Vec<char> = match find_last_slash(&cs, end) {
        None => Vec::new(),
        Some(k) => if k == 0 {
            let mut p = Vec::new();
            p.push('/');
            p
        } else {
            assert(cs@.take(end as int).take(k as int) =~= cs@.take(k as int));
            let pe = strip_end(&cs, k);
            crate::text::slice_of(&cs, 0, pe)
        },
    };
    proof {
        assert(cs@.take(0) =~= Seq::<char>::empty());
        let k = last_slash(cs@.take(end as int));
        if k == 0 {
            assert(parent@ =~= seq!['/']);
        }
        if k > 0 {
            assert(parent@ =~= cs@.take(k).take(parent@.len() as int));
        }
        assert(parent_spec(cs@) == Some(parent@));
    }
    let pn = parent.len();
    assert(parent@.take(pn as int) =~= parent@);
    let is_axo = pn > 0 && match find_last_slash(&parent, pn) {
        Some(k) => pn - k == 5 && parent[k + 1] == '.' && parent[k + 2] == 'a' && parent[k + 3]
            == 'x' && parent[k + 4] == 'o',
        None => pn == 4 && parent[0] == '.' && parent[1] == 'a' && parent[2] == 'x' && parent[3]
            == 'o',
    };
    proof {
        let p = parent@;
        let tail = p.skip(last_slash(p) + 1);
        if pn > 0 {
            if tail == axo_name() {
                assert(tail.len() == 4);
                assert(tail[0] == '.' && tail[1] == 'a' && tail[2] == 'x' && tail[3] == 'o');
            }
            if is_axo {
                assert(tail =~= axo_name());
            }
        }
    }
    out = parent;
    if is_axo {
        out.append(&mut chars_of("/temp"));
    } else if pn == 0 {
        out.append(&mut chars_of(".axo/temp"));
    } else if pn == 1 && out[0] == '/' {
        out.append(&mut chars_of(".axo/temp"));
        proof {
            assert(parent@ =~= seq!['/']);
        }
    } else {
        proof {
            if parent@ == seq!['/'] {
                assert(parent@.len() == 1 && parent@[0] == '/');
            }
        }
        out.append(&mut chars_of("/.axo/temp"));
        assert(out@ =~= parent@ + seq!['/'] + axo_temp());
    }
    proof {
        if pn == 0 {
            assert(parent@ + axo_temp() =~= axo_temp());
        }
        if pn == 1 && parent@[0] == '/' && !is_axo {
            assert(parent@ + axo_temp() =~= seq!['/'] + axo_temp());
        }
    }
    string_of(&out)
}

} // verus!
