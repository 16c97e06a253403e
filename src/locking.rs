//! Keys of the per-path mutual exclusion: every spelling of a storage path
//! maps to one key, so that conflicting changes to one path are serialized.

use vstd::prelude::*;

use crate::text::{chars_of, string_of, trim, trim_separators, trim_start_separators, trim_white};

verus! {

/// `s` with every backslash turned into a slash.
pub open spec fn unify_separators(s: Seq<char>) -> Seq<char> {
    s.map_values(|c: char| if c == '\\' { '/' } else { c })
}

/// The registry key of `path`: trimmed, leading separators removed, and
/// backslashes turned into slashes.
pub open spec fn lock_key_spec(path: Seq<char>) -> Seq<char> {
    unify_separators(trim_start_separators(trim_white(path)))
}

/// The registry key of `path`: trimmed, leading separators removed, and
/// backslashes turned into slashes.
pub fn normalize_lock_key(path: &str) -> (r: String)
    ensures
        r@ == lock_key_spec(path@),
{
    let t = trim(&chars_of(path));
    let s = trim_separators(&t);
    let mut out: Vec<char> = Vec::new();
    let mut i: usize = 0;
    while i < s.len()
        invariant
            i <= s.len(),
            out@ == unify_separators(s@.take(i as int)),
        decreases s.len() - i,
    {
        let c = s[i];
        out.push(if c == '\\' { '/' } else { c });
        i = i + 1;
        assert(out@ =~= unify_separators(s@.take(i as int)));
    }
    assert(s@.take(s.len() as int) =~= s@);
    string_of(&out)
}

} // verus!
