//! Which embedded frontend asset answers a request path.

use vstd::prelude::*;

use crate::text::{chars_of, string_of};

verus! {

/// The embedded frontend build; its files are attached where the binary is
/// assembled.
#[derive(Clone, Copy, Debug)]
pub struct FrontendAssets;

/// The asset a request path asks for: the path without leading slashes, or
/// `index.html` for the bare root.
pub open spec fn requested_asset(path: Seq<char>) -> Seq<char> {
    let t = trim_slashes(path);
    if t.len() == 0 {
        index_html()
    } else {
        t
    }
}

/// `s` without its leading slashes.
pub open spec fn trim_slashes(s: Seq<char>) -> Seq<char>
    decreases s.len(),
{
    if s.len() > 0 && s[0] == '/' {
        trim_slashes(s.skip(1))
    } else {
        s
    }
}

/// The entry page of the single-page application.
pub open spec fn index_html() -> Seq<char> {
    seq!['i', 'n', 'd', 'e', 'x', '.', 'h', 't', 'm', 'l']
}

/// How a request for a frontend asset is answered.
#[derive(Clone, Debug, PartialEq, Eq)]
pub struct AssetRequest {
    /// The asset to look up first.
    pub name: String,
    /// Whether the entry page answers when that asset is missing: only for
    /// paths without a dot, which are routes of the application, not files.
    pub spa_fallback: bool,
}

/// How a request for the frontend path `path` is answered.
pub fn asset_request(path: &str) -> (r: AssetRequest)
    ensures
        r.name@ == requested_asset(path@),
        r.spa_fallback == !requested_asset(path@).contains('.'),
{
    let cs = chars_of(path);
    let mut i: usize = 0;
    assert(cs@.skip(0) =~= cs@);
    while i < cs.len() && cs[i] == '/'
        invariant
            i <= cs.len(),
            cs@ == path@,
            trim_slashes(path@) == trim_slashes(cs@.skip(i as int)),
        decreases cs.len() - i,
    {
        assert(cs@.skip(i as int).skip(1) =~= cs@.skip(i + 1));
        i = i + 1;
    }
    let name = if i == cs.len() {
        let mut v: Vec<char> = Vec::new();
        v.push('i');
        v.push('n');
        v.push('d');
        v.push('e');
        v.push('x');
        v.push('.');
        v.push('h');
        v.push('t');
        v.push('m');
        v.push('l');
        assert(v@ =~= index_html());
        assert(cs@.skip(i as int) =~= Seq::<char>::empty());
        v
    } else {
        let v = crate::text::slice_of(&cs, i, cs.len());
        assert(v@ =~= cs@.skip(i as int));
        assert(cs@.skip(i as int)[0] == cs@[i as int]);
        v
    };
    let mut dot = false;
    let mut k: usize = 0;
    while k < name.len()
        invariant
            k <= name.len(),
            dot <==> exists|j: int| 0 <= j < k && name@[j] == '.',
        decreases name.len() - k,
    {
        if name[k] == '.' {
            dot = true;
        }
        k = k + 1;
    }
    proof {
        if name@.contains('.') {
            let j = choose|j: int| 0 <= j < name@.len() && name@[j] == '.';
        }
    }
    AssetRequest { name: string_of(&name), spa_fallback: !dot }
}

} // verus!
