//! The WebDAV advisory lock table.
//!
//! Locks are kept in a list in creation order. A lock on a path, or a deep
//! lock on one of its ancestors, applies to that path. Every operation first
//! drops the locks whose deadline has passed. Times are milliseconds since
//! the Unix epoch, read by the caller. Each lock carries an opaque payload
//! that the table hands back untouched.

use vstd::prelude::*;

use crate::ids::random_urn;
use crate::text::chars_of;

verus! {

/// One advisory lock.
#[derive(Clone, Debug)]
pub struct DavLockEntry<P> {
    /// Unique token naming the lock.
    pub token: String,
    /// The normalized path the lock is taken on.
    pub key: String,
    pub principal: Option<String>,
    /// When the lock turns stale; `None` for never.
    pub expires_at: Option<u64>,
    /// The timeout it was taken or last refreshed with.
    pub timeout_ms: Option<u64>,
    pub shared: bool,
    /// Whether the lock covers the whole subtree.
    pub deep: bool,
    pub payload: P,
}

/// The lock table.
#[derive(Debug)]
pub struct LockState<P> {
    pub locks: Vec<DavLockEntry<P>>,
}

/// The characters of an optional string.
pub open spec fn opt_view(o: Option<String>) -> Option<Seq<char>> {
    match o {
        Some(s) => Some(s@),
        None => None,
    }
}

/// The root path.
pub open spec fn root_key() -> Seq<char> {
    seq!['/']
}

/// A lock path without its trailing slash (the root keeps its own).
pub open spec fn normalize_spec(url: Seq<char>) -> Seq<char> {
    if url.len() > 1 && url.last() == '/' {
        url.drop_last()
    } else {
        url
    }
}

/// Whether `path` is `ancestor` or lies below it.
pub open spec fn descendant_or_same(ancestor: Seq<char>, path: Seq<char>) -> bool {
    ||| ancestor == root_key()
    ||| ancestor == path
    ||| path.len() > ancestor.len() && path.take(ancestor.len() as int) == ancestor
        && path[ancestor.len() as int] == '/'
}

/// Whether `path` lies strictly below `ancestor`.
pub open spec fn descendant(ancestor: Seq<char>, path: Seq<char>) -> bool {
    ancestor != path && descendant_or_same(ancestor, path)
}

/// Whether lock `l` applies to `key`: it is on `key`, or deep on an ancestor.
pub open spec fn applies_to<P>(l: DavLockEntry<P>, key: Seq<char>) -> bool {
    l.key@ == key || (l.deep && descendant(l.key@, key))
}

/// Whether the requester owns lock `l`: it submitted the token, and either
/// principals are ignored or they match.
pub open spec fn holds<P>(
    l: DavLockEntry<P>,
    principal: Option<Seq<char>>,
    ignore_principal: bool,
    tokens: Seq<Seq<char>>,
) -> bool {
    tokens.contains(l.token@) && (ignore_principal || principal == opt_view(l.principal))
}

/// Whether lock `l` stands in the requester's way.
pub open spec fn blocks<P>(
    l: DavLockEntry<P>,
    principal: Option<Seq<char>>,
    ignore_principal: bool,
    tokens: Seq<Seq<char>>,
    shared_ok: bool,
) -> bool {
    !holds(l, principal, ignore_principal, tokens) && !(l.shared && shared_ok)
}

/// A request on `key`: who asks, with which tokens, and whether shared locks
/// may stay.
pub struct LockRequest {
    pub key: Seq<char>,
    pub principal: Option<Seq<char>>,
    pub ignore_principal: bool,
    pub tokens: Seq<Seq<char>>,
    pub shared_ok: bool,
}

/// Whether `l` applies to the requested path and blocks the request.
pub open spec fn ancestor_conflict<P>(l: DavLockEntry<P>, q: LockRequest) -> bool {
    applies_to(l, q.key) && blocks(l, q.principal, q.ignore_principal, q.tokens, q.shared_ok)
}

/// Whether `l` lies below the requested path and blocks the request.
pub open spec fn descendant_conflict<P>(l: DavLockEntry<P>, q: LockRequest) -> bool {
    descendant(q.key, l.key@) && blocks(l, q.principal, q.ignore_principal, q.tokens, q.shared_ok)
}

/// Whether `i` is the first position of `locks` where `conflict` holds.
pub open spec fn is_first<P>(
    locks: Seq<DavLockEntry<P>>,
    i: int,
    conflict: spec_fn(DavLockEntry<P>) -> bool,
) -> bool {
    0 <= i < locks.len() && conflict(locks[i]) && forall|j: int| 0 <= j < i ==> !conflict(locks[j])
}

/// Whether `conflict` holds nowhere in `locks`.
pub open spec fn none_match<P>(
    locks: Seq<DavLockEntry<P>>,
    conflict: spec_fn(DavLockEntry<P>) -> bool,
) -> bool {
    forall|j: int| 0 <= j < locks.len() ==> !conflict(locks[j])
}

/// The outcome of a check of `locks` against request `q`: the ancestors'
/// locks first, then, for a deep request, the locks below the path.
/// `Err(i)` names the position of the lock in the way.
pub open spec fn check_spec<P>(locks: Seq<DavLockEntry<P>>, q: LockRequest, deep: bool, r: Result<
    (),
    usize,
>) -> bool {
    let a = |l: DavLockEntry<P>| ancestor_conflict(l, q);
    let d = |l: DavLockEntry<P>| descendant_conflict(l, q);
    match r {
        Ok(()) => none_match(locks, a) && (deep ==> none_match(locks, d)),
        Err(i) => is_first(locks, i as int, a) || (none_match(locks, a) && deep && is_first(
            locks,
            i as int,
            d,
        )),
    }
}

/// Whether a lock is still in force at `now`.
pub open spec fn is_live<P>(l: DavLockEntry<P>, now: u64) -> bool {
    match l.expires_at {
        Some(t) => t > now,
        None => true,
    }
}

/// The locks of `locks` still in force at `now`, in order.
pub open spec fn prune_spec<P>(locks: Seq<DavLockEntry<P>>, now: u64) -> Seq<DavLockEntry<P>> {
    locks.filter(live_at(now))
}

/// The test for locks still in force at `now`.
pub open spec fn live_at<P>(now: u64) -> spec_fn(DavLockEntry<P>) -> bool {
    |l: DavLockEntry<P>| is_live(l, now)
}

/// The deadline of a lock taken at `now` for `timeout` milliseconds, capped
/// at the largest time.
pub open spec fn deadline_spec(now: u64, timeout: Option<u64>) -> Option<u64> {
    match timeout {
        Some(t) => Some(
            if now + t <= u64::MAX {
                (now + t) as u64
            } else {
                u64::MAX
            },
        ),
        None => None,
    }
}

/// The request that a new lock makes.
pub open spec fn lock_request(key: Seq<char>, shared: bool) -> LockRequest {
    LockRequest {
        key,
        principal: None,
        ignore_principal: true,
        tokens: Seq::empty(),
        shared_ok: shared,
    }
}

/// Whether a new lock on `key` is refused at `now`.
pub open spec fn lock_blocked<P>(
    locks: Seq<DavLockEntry<P>>,
    now: u64,
    key: Seq<char>,
    shared: bool,
    deep: bool,
) -> bool {
    let live = prune_spec(locks, now);
    let q = lock_request(key, shared);
    !(none_match(live, |l: DavLockEntry<P>| ancestor_conflict(l, q)) && (deep ==> none_match(
        live,
        |l: DavLockEntry<P>| descendant_conflict(l, q),
    )))
}

/// The characters of each token of `tokens`.
pub open spec fn token_views(tokens: Seq<String>) -> Seq<Seq<char>> {
    tokens.map_values(|s: String| s@)
}

/// Whether `l` is the lock on `key` with token `token`.
pub open spec fn names_lock<P>(l: DavLockEntry<P>, key: Seq<char>, token: Seq<char>) -> bool {
    l.key@ == key && l.token@ == token
}

/// The test for locks other than the one on `key` with token `token`.
pub open spec fn other_than<P>(key: Seq<char>, token: Seq<char>) -> spec_fn(DavLockEntry<P>) -> bool {
    |l: DavLockEntry<P>| !names_lock(l, key, token)
}

/// The test for locks outside the subtree at `key`.
pub open spec fn outside_of<P>(key: Seq<char>) -> spec_fn(DavLockEntry<P>) -> bool {
    |l: DavLockEntry<P>| !descendant_or_same(key, l.key@)
}

/// `l` refreshed at `now` with `timeout`.
pub open spec fn refreshed<P>(l: DavLockEntry<P>, now: u64, timeout: Option<u64>) -> DavLockEntry<P> {
    DavLockEntry { expires_at: deadline_spec(now, timeout), timeout_ms: timeout, ..l }
}

/// Whether `r` lists, in increasing order, exactly the positions of the
/// locks of `locks` that apply to `key`.
pub open spec fn lists_applying<P>(locks: Seq<DavLockEntry<P>>, key: Seq<char>, r: Seq<usize>) -> bool {
    &&& forall|k: int| 0 <= k < r.len() ==> #[trigger] r[k] < locks.len() && applies_to(locks[r[k] as int], key)
    &&& forall|k: int, m: int| 0 <= k < m < r.len() ==> #[trigger] r[k] < #[trigger] r[m]
    &&& forall|i: int| 0 <= i < locks.len() && applies_to(#[trigger] locks[i], key) ==> r.contains(i as usize)
}

/// The request that a check makes.
pub open spec fn check_request(
    key: Seq<char>,
    principal: Option<Seq<char>>,
    ignore_principal: bool,
    tokens: Seq<Seq<char>>,
) -> LockRequest {
    LockRequest { key, principal, ignore_principal, tokens, shared_ok: false }
}

/// A fresh, unguessable lock token.
pub fn new_lock_token() -> (r: String)
    ensures
        r@.len() == 45,
{
    random_urn()
}

/// A lock path without its trailing slash (the root keeps its own).
pub fn normalize_lock_path(url: &str) -> (r: String)
    ensures
        r@ == normalize_spec(url@),
{
    let mut cs = chars_of(url);
    let n = cs.len();
    if n > 1 && cs[n - 1] == '/' {
        cs.pop();
        assert(cs@ =~= url@.drop_last());
    }
    crate::text::string_of(&cs)
}

/// Whether `path` is `ancestor` or lies below it.
pub fn is_descendant_or_same(ancestor: &str, path: &str) -> (r: bool)
    ensures
        r == descendant_or_same(ancestor@, path@),
{
    let a = chars_of(ancestor);
    let p = chars_of(path);
    let root = a.len() == 1 && a[0] == '/';
    proof {
        if a@ == root_key() {
            assert(a@.len() == 1 && a@[0] == '/');
        }
        if a@.len() == 1 && a@[0] == '/' {
            assert(a@ =~= root_key());
        }
    }
    if root {
        return true;
    }
    if p.len() < a.len() {
        proof {
            assert(a@ != p@);
        }
        return false;
    }
    let mut i: usize = 0;
    while i < a.len()
        invariant
            i <= a.len() <= p.len(),
            a@ != root_key(),
            a@ == ancestor@,
            p@ == path@,
            forall|j: int| 0 <= j < i ==> a@[j] == p@[j],
        decreases a.len() - i,
    {
        if a[i] != p[i] {
            proof {
                assert(a@ != p@);
                assert(p@.take(a.len() as int)[i as int] != a@[i as int]);
            }
            return false;
        }
        i = i + 1;
    }
    assert(p@.take(a.len() as int) =~= a@);
    if p.len() == a.len() {
        assert(a@ =~= p@);
        return true;
    }
    p[a.len()] == '/'
}

/// Whether `path` lies strictly below `ancestor`.
pub fn is_descendant(ancestor: &str, path: &str) -> (r: bool)
    ensures
        r == descendant(ancestor@, path@),
{
    let same = ancestor.to_owned() == path.to_owned();
    if same {
        return false;
    }
    is_descendant_or_same(ancestor, path)
}

fn option_eq(a: &Option<String>, b: &Option<String>) -> (r: bool)
    ensures
        r == (opt_view(*a) == opt_view(*b)),
{
    match (a, b) {
        (Some(x), Some(y)) => *x == *y,
        (None, None) => true,
        _ => false,
    }
}

fn contains_token(tokens: &Vec<String>, token: &String) -> (r: bool)
    ensures
        r == token_views(tokens@).contains(token@),
{
    let mut i: usize = 0;
    while i < tokens.len()
        invariant
            i <= tokens.len(),
            forall|j: int| 0 <= j < i ==> tokens@[j]@ != token@,
        decreases tokens.len() - i,
    {
        if tokens[i] == *token {
            assert(token_views(tokens@)[i as int] == token@);
            return true;
        }
        i = i + 1;
    }
    proof {
        if token_views(tokens@).contains(token@) {
            let j = choose|j: int|
                0 <= j < token_views(tokens@).len() && token_views(tokens@)[j] == token@;
            assert(tokens@[j]@ == token@);
        }
    }
    false
}

fn lock_holds<P>(
    l: &DavLockEntry<P>,
    principal: &Option<String>,
    ignore_principal: bool,
    tokens: &Vec<String>,
) -> (r: bool)
    ensures
        r == holds(*l, opt_view(*principal), ignore_principal, token_views(tokens@)),
{
    if !contains_token(tokens, &l.token) {
        return false;
    }
    ignore_principal || option_eq(principal, &l.principal)
}

impl<P> LockState<P> {
    /// An empty table.
    pub fn new() -> (r: LockState<P>)
        ensures
            r.locks@.len() == 0,
    {
        LockState { locks: Vec::new() }
    }

    /// Drops the locks whose deadline has passed at `now`.
    pub fn prune_expired(&mut self, now: u64)
        ensures
            final(self).locks@ == prune_spec(old(self).locks@, now),
    {
        let mut old_locks: Vec<DavLockEntry<P>> = Vec::new();
        std::mem::swap(&mut self.locks, &mut old_locks);
        let ghost all = old_locks@;
        let ghost pred: spec_fn(DavLockEntry<P>) -> bool = live_at(now);
        for l in it: old_locks.into_iter()
            invariant
                all == it.seq(),
                pred == live_at::<P>(now),
                self.locks@ == all.take(it.index() as int).filter(pred),
        {
            let ghost before = self.locks@;
            let ghost k = it.index() as int;
            proof {
                assert(all.take(k + 1).drop_last() =~= all.take(k));
                assert(all.take(k + 1).last() == l);
                reveal(Seq::filter);
            }
            let live = match l.expires_at {
                Some(t) => t > now,
                None => true,
            };
            if live {
                self.locks.push(l);
            }
            proof {
                reveal(Seq::filter);
                assert(all.take(k + 1).drop_last() =~= all.take(k));
                assert(all.take(k + 1).filter(pred) == if pred(l) {
                    before.push(l)
                } else {
                    before
                });
            }
        }
        assert(all.take(all.len() as int) =~= all);
    }

    /// The position of the first lock that applies to `key` and stands in the
    /// way of the request, if any.
    pub fn check_ancestors(
        &self,
        key: &str,
        principal: &Option<String>,
        ignore_principal: bool,
        tokens: &Vec<String>,
        shared_ok: bool,
    ) -> (r: Option<usize>)
        ensures
            ({
                let q = LockRequest {
                    key: key@,
                    principal: opt_view(*principal),
                    ignore_principal,
                    tokens: token_views(tokens@),
                    shared_ok,
                };
                let a = |l: DavLockEntry<P>| ancestor_conflict(l, q);
                match r {
                    Some(i) => is_first(self.locks@, i as int, a),
                    None => none_match(self.locks@, a),
                }
            }),
    {
        let ghost q = LockRequest {
            key: key@,
            principal: opt_view(*principal),
            ignore_principal,
            tokens: token_views(tokens@),
            shared_ok,
        };
        let key_string = key.to_owned();
        let mut i: usize = 0;
        while i < self.locks.len()
            invariant
                i <= self.locks.len(),
                key_string@ == key@,
                q == (LockRequest {
                    key: key@,
                    principal: opt_view(*principal),
                    ignore_principal,
                    tokens: token_views(tokens@),
                    shared_ok,
                }),
                forall|j: int| 0 <= j < i ==> !ancestor_conflict(self.locks@[j], q),
            decreases self.locks.len() - i,
        {
            let l = &self.locks[i];
            let applies = l.key == key_string || (l.deep && is_descendant(l.key.as_str(), key));
            if applies && !lock_holds(l, principal, ignore_principal, tokens) && !(l.shared
                && shared_ok) {
                return Some(i);
            }
            i = i + 1;
        }
        None
    }

    /// The position of the first lock strictly below `key` that stands in the
    /// way of the request, if any.
    pub fn check_descendants(
        &self,
        key: &str,
        principal: &Option<String>,
        ignore_principal: bool,
        tokens: &Vec<String>,
        shared_ok: bool,
    ) -> (r: Option<usize>)
        ensures
            ({
                let q = LockRequest {
                    key: key@,
                    principal: opt_view(*principal),
                    ignore_principal,
                    tokens: token_views(tokens@),
                    shared_ok,
                };
                let d = |l: DavLockEntry<P>| descendant_conflict(l, q);
                match r {
                    Some(i) => is_first(self.locks@, i as int, d),
                    None => none_match(self.locks@, d),
                }
            }),
    {
        let ghost q = LockRequest {
            key: key@,
            principal: opt_view(*principal),
            ignore_principal,
            tokens: token_views(tokens@),
            shared_ok,
        };
        let mut i: usize = 0;
        while i < self.locks.len()
            invariant
                i <= self.locks.len(),
                q == (LockRequest {
                    key: key@,
                    principal: opt_view(*principal),
                    ignore_principal,
                    tokens: token_views(tokens@),
                    shared_ok,
                }),
                forall|j: int| 0 <= j < i ==> !descendant_conflict(self.locks@[j], q),
            decreases self.locks.len() - i,
        {
            let l = &self.locks[i];
            if is_descendant(key, l.key.as_str()) && !lock_holds(
                l,
                principal,
                ignore_principal,
                tokens,
            ) && !(l.shared && shared_ok) {
                return Some(i);
            }
            i = i + 1;
        }
        None
    }

    /// Takes a lock on `key` at `now`, with token `token`. Fails with the
    /// position of the lock in the way: one that applies to `key` (a shared
    /// one only stops an exclusive request), or, for a deep request, one below
    /// `key`.
    pub fn lock(
        &mut self,
        key: &str,
        principal: Option<String>,
        payload: P,
        timeout_ms: Option<u64>,
        shared: bool,
        deep: bool,
        now: u64,
        token: String,
    ) -> (r: Result<usize, usize>)
        ensures
            ({
                let live = prune_spec(old(self).locks@, now);
                let q = lock_request(key@, shared);
                &&& r is Err ==> final(self).locks@ == live
                &&& r is Err ==> check_spec(live, q, deep, Err(r->Err_0))
                &&& r is Ok ==> check_spec(live, q, deep, Ok(()))
                &&& r is Ok ==> {
                    let e = final(self).locks@[live.len() as int];
                    &&& r->Ok_0 == live.len()
                    &&& final(self).locks@.len() == live.len() + 1
                    &&& final(self).locks@.take(live.len() as int) == live
                    &&& e.token == token && e.key@ == key@ && e.principal == principal
                    &&& e.expires_at == deadline_spec(now, timeout_ms) && e.timeout_ms == timeout_ms
                    &&& e.shared == shared && e.deep == deep && e.payload == payload
                }
                &&& r is Err <==> lock_blocked(old(self).locks@, now, key@, shared, deep)
            }),
    {
        self.prune_expired(now);
        let no_tokens: Vec<String> = Vec::new();
        assert(token_views(no_tokens@) =~= Seq::<Seq<char>>::empty());
        match self.check_ancestors(key, &None, true, &no_tokens, shared) {
            Some(i) => {
                return Err(i);
            },
            None => {},
        }
        if deep {
            match self.check_descendants(key, &None, true, &no_tokens, shared) {
                Some(i) => {
                    return Err(i);
                },
                None => {},
            }
        }
        let expires_at = match timeout_ms {
            Some(t) => Some(
                if t <= u64::MAX - now {
                    now + t
                } else {
                    u64::MAX
                },
            ),
            None => None,
        };
        let entry = DavLockEntry {
            token,
            key: key.to_owned(),
            principal,
            expires_at,
            timeout_ms,
            shared,
            deep,
            payload,
        };
        let ghost live = self.locks@;
        self.locks.push(entry);
        assert(self.locks@.take(live.len() as int) =~= live);
        Ok(self.locks.len() - 1)
    }

    /// Removes the lock on `key` with token `token`; fails when there is none.
    pub fn unlock(&mut self, key: &str, token: &str, now: u64) -> (r: Result<(), ()>)
        ensures
            ({
                let live = prune_spec(old(self).locks@, now);
                &&& final(self).locks@ == live.filter(other_than(key@, token@))
                &&& r is Ok <==> exists|i: int| 0 <= i < live.len() && names_lock(live[i], key@, token@)
            }),
    {
        self.prune_expired(now);
        let ghost live = self.locks@;
        let ghost pred: spec_fn(DavLockEntry<P>) -> bool = other_than(key@, token@);
        let key_string = key.to_owned();
        let token_string = token.to_owned();
        let mut old_locks: Vec<DavLockEntry<P>> = Vec::new();
        std::mem::swap(&mut self.locks, &mut old_locks);
        let mut removed = false;
        for l in it: old_locks.into_iter()
            invariant
                live == it.seq(),
                pred == other_than::<P>(key@, token@),
                key_string@ == key@,
                token_string@ == token@,
                self.locks@ == live.take(it.index() as int).filter(pred),
                removed <==> exists|j: int| 0 <= j < it.index() && names_lock(live[j], key@, token@),
        {
            let ghost before = self.locks@;
            let ghost k = it.index() as int;
            proof {
                reveal(Seq::filter);
                assert(live.take(k + 1).drop_last() =~= live.take(k));
                assert(live.take(k + 1).last() == l);
            }
            let matches = l.key == key_string && l.token == token_string;
            if matches {
                removed = true;
            } else {
                self.locks.push(l);
            }
            proof {
                reveal(Seq::filter);
                assert(live.take(k + 1).filter(pred) == if pred(l) {
                    before.push(l)
                } else {
                    before
                });
            }
        }
        assert(live.take(live.len() as int) =~= live);
        if removed {
            Ok(())
        } else {
            Err(())
        }
    }

    /// Renews the deadline of the lock on `key` with token `token`, giving
    /// back its position; fails when there is none.
    pub fn refresh(&mut self, key: &str, token: &str, timeout_ms: Option<u64>, now: u64) -> (r:
        Result<usize, ()>)
        ensures
            ({
                let live = prune_spec(old(self).locks@, now);
                &&& r is Err ==> final(self).locks@ == live && forall|j: int|
                    0 <= j < live.len() ==> !names_lock(live[j], key@, token@)
                &&& r is Ok ==> {
                    let i = r->Ok_0 as int;
                    &&& 0 <= i < live.len()
                    &&& names_lock(live[i], key@, token@)
                    &&& forall|j: int| 0 <= j < i ==> !names_lock(live[j], key@, token@)
                    &&& final(self).locks@ == live.update(i, refreshed(live[i], now, timeout_ms))
                }
            }),
    {
        self.prune_expired(now);
        let key_string = key.to_owned();
        let token_string = token.to_owned();
        let mut i: usize = 0;
        while i < self.locks.len()
            invariant
                i <= self.locks.len(),
                self.locks@ == prune_spec(old(self).locks@, now),
                key_string@ == key@,
                token_string@ == token@,
                forall|j: int| 0 <= j < i ==> !names_lock(self.locks@[j], key@, token@),
            decreases self.locks.len() - i,
        {
            if self.locks[i].key == key_string && self.locks[i].token == token_string {
                let ghost live = self.locks@;
                let mut e = self.locks.remove(i);
                e.expires_at = match timeout_ms {
                    Some(t) => Some(
                        if t <= u64::MAX - now {
                            now + t
                        } else {
                            u64::MAX
                        },
                    ),
                    None => None,
                };
                e.timeout_ms = timeout_ms;
                self.locks.insert(i, e);
                assert(self.locks@ =~= live.update(i as int, refreshed(live[i as int], now, timeout_ms)));
                return Ok(i);
            }
            i = i + 1;
        }
        Err(())
    }

    /// Checks whether a request on `key` may go ahead: no lock that applies
    /// to `key` (or, for a deep request, lies below it) stands in the way
    /// unless the requester owns it. Fails with the position of such a lock.
    pub fn check(
        &mut self,
        key: &str,
        principal: &Option<String>,
        ignore_principal: bool,
        deep: bool,
        tokens: &Vec<String>,
        now: u64,
    ) -> (r: Result<(), usize>)
        ensures
            final(self).locks@ == prune_spec(old(self).locks@, now),
            check_spec(
                final(self).locks@,
                check_request(key@, opt_view(*principal), ignore_principal, token_views(tokens@)),
                deep,
                r,
            ),
    {
        self.prune_expired(now);
        match self.check_ancestors(key, principal, ignore_principal, tokens, false) {
            Some(i) => {
                return Err(i);
            },
            None => {},
        }
        if deep {
            match self.check_descendants(key, principal, ignore_principal, tokens, false) {
                Some(i) => {
                    return Err(i);
                },
                None => {},
            }
        }
        Ok(())
    }

    /// The positions of the locks that apply to `key`, in order.
    pub fn discover(&mut self, key: &str, now: u64) -> (r: Vec<usize>)
        ensures
            final(self).locks@ == prune_spec(old(self).locks@, now),
            lists_applying(final(self).locks@, key@, r@),
    {
        self.prune_expired(now);
        let key_string = key.to_owned();
        let mut r: Vec<usize> = Vec::new();
        let mut i: usize = 0;
        while i < self.locks.len()
            invariant
                i <= self.locks.len(),
                self.locks@ == prune_spec(old(self).locks@, now),
                key_string@ == key@,
                forall|k: int| 0 <= k < r.len() ==> #[trigger] r@[k] < i && applies_to(self.locks@[r@[k] as int], key@),
                forall|k: int, m: int| 0 <= k < m < r.len() ==> #[trigger] r@[k] < #[trigger] r@[m],
                forall|j: int| 0 <= j < i && applies_to(#[trigger] self.locks@[j], key@) ==> r@.contains(j as usize),
            decreases self.locks.len() - i,
        {
            let l = &self.locks[i];
            let applies = l.key == key_string || (l.deep && is_descendant(l.key.as_str(), key));
            if applies {
                let ghost before = r@;
                r.push(i);
                proof {
                    assert forall|j: int| 0 <= j < i + 1 && applies_to(#[trigger] self.locks@[j], key@) implies r@.contains(j as usize) by {
                        if j < i {
                            let k = choose|k: int| 0 <= k < before.len() && before[k] == j as usize;
                            assert(r@[k] == j as usize);
                        } else {
                            assert(r@[before.len() as int] == i);
                        }
                    }
                }
            }
            i = i + 1;
        }
        r
    }

    /// Removes the locks on `key` and on every path below it.
    pub fn delete(&mut self, key: &str, now: u64) -> (r: Result<(), ()>)
        ensures
            r is Ok,
            final(self).locks@ == prune_spec(old(self).locks@, now).filter(outside_of(key@)),
    {
        self.prune_expired(now);
        let ghost live = self.locks@;
        let ghost pred: spec_fn(DavLockEntry<P>) -> bool = outside_of(key@);
        let mut old_locks: Vec<DavLockEntry<P>> = Vec::new();
        std::mem::swap(&mut self.locks, &mut old_locks);
        for l in it: old_locks.into_iter()
            invariant
                live == it.seq(),
                pred == outside_of::<P>(key@),
                self.locks@ == live.take(it.index() as int).filter(pred),
        {
            let ghost before = self.locks@;
            let ghost k = it.index() as int;
            proof {
                reveal(Seq::filter);
                assert(live.take(k + 1).drop_last() =~= live.take(k));
                assert(live.take(k + 1).last() == l);
            }
            let inside = is_descendant_or_same(key, l.key.as_str());
            if !inside {
                self.locks.push(l);
            }
            proof {
                reveal(Seq::filter);
                assert(live.take(k + 1).filter(pred) == if pred(l) {
                    before.push(l)
                } else {
                    before
                });
            }
        }
        assert(live.take(live.len() as int) =~= live);
        Ok(())
    }
}

proof fn lemma_filter_within<A>(s: Seq<A>, p: spec_fn(A) -> bool)
    ensures
        forall|i: int|
            0 <= i < s.filter(p).len() ==> p(#[trigger] s.filter(p)[i]) && s.contains(
                s.filter(p)[i],
            ),
    decreases s.len(),
{
    reveal(Seq::filter);
    if s.len() > 0 {
        let prev = s.drop_last();
        lemma_filter_within(prev, p);
        assert forall|i: int| 0 <= i < s.filter(p).len() implies p(#[trigger] s.filter(p)[i])
            && s.contains(s.filter(p)[i]) by {
            if i < prev.filter(p).len() {
                assert(s.filter(p)[i] == prev.filter(p)[i]);
                let j = choose|j: int| 0 <= j < prev.len() && prev[j] == prev.filter(p)[i];
                assert(s[j] == prev[j]);
            } else {
                assert(s.filter(p)[i] == s.last());
                assert(s[s.len() - 1] == s.last());
            }
        }
    }
}

/// An exclusive deep lock in force blocks a new lock anywhere strictly below
/// its path.
pub proof fn lemma_deep_exclusive_blocks_below<P>(
    locks: Seq<DavLockEntry<P>>,
    now: u64,
    i: int,
    key: Seq<char>,
    shared: bool,
    deep: bool,
)
    requires
        0 <= i < locks.len(),
        is_live(locks[i], now),
        locks[i].deep,
        !locks[i].shared,
        descendant(locks[i].key@, key),
    ensures
        lock_blocked(locks, now, key, shared, deep),
{
    broadcast use vstd::seq_lib::group_filter_ensures;

    let live = prune_spec(locks, now);
    assert(live_at::<P>(now)(locks[i]));
    assert(live.contains(locks[i]));
    let j = choose|j: int| 0 <= j < live.len() && live[j] == locks[i];
    let q = lock_request(key, shared);
    assert(!q.tokens.contains(live[j].token@));
    assert(ancestor_conflict(live[j], q));
}

/// A shared lock in force blocks a new exclusive lock on its own path.
pub proof fn lemma_shared_blocks_exclusive<P>(
    locks: Seq<DavLockEntry<P>>,
    now: u64,
    i: int,
    deep: bool,
)
    requires
        0 <= i < locks.len(),
        is_live(locks[i], now),
    ensures
        lock_blocked(locks, now, locks[i].key@, false, deep),
{
    broadcast use vstd::seq_lib::group_filter_ensures;

    let live = prune_spec(locks, now);
    assert(live_at::<P>(now)(locks[i]));
    assert(live.contains(locks[i]));
    let j = choose|j: int| 0 <= j < live.len() && live[j] == locks[i];
    let q = lock_request(locks[i].key@, false);
    assert(!q.tokens.contains(live[j].token@));
    assert(ancestor_conflict(live[j], q));
}

/// When every lock in force is shared, a new shared lock is granted, on any
/// path and at any depth.
pub proof fn lemma_shared_admits_shared<P>(
    locks: Seq<DavLockEntry<P>>,
    now: u64,
    key: Seq<char>,
    deep: bool,
)
    requires
        forall|j: int| 0 <= j < locks.len() && is_live(locks[j], now) ==> locks[j].shared,
    ensures
        !lock_blocked(locks, now, key, true, deep),
{
    let live = prune_spec(locks, now);
    lemma_filter_within(locks, live_at::<P>(now));
    assert forall|j: int| 0 <= j < live.len() implies live[j].shared by {
        assert(live_at::<P>(now)(live[j]));
        let m = choose|m: int| 0 <= m < locks.len() && locks[m] == live[j];
    }
}

/// A new lock is granted on a path that is neither above nor below any path
/// locked in force, nor equal to one.
pub proof fn lemma_unrelated_not_blocked<P>(
    locks: Seq<DavLockEntry<P>>,
    now: u64,
    key: Seq<char>,
    shared: bool,
    deep: bool,
)
    requires
        forall|j: int|
            0 <= j < locks.len() && is_live(locks[j], now) ==> !descendant_or_same(
                locks[j].key@,
                key,
            ) && !descendant_or_same(key, locks[j].key@),
    ensures
        !lock_blocked(locks, now, key, shared, deep),
{
    let live = prune_spec(locks, now);
    lemma_filter_within(locks, live_at::<P>(now));
    assert forall|j: int| 0 <= j < live.len() implies !descendant_or_same(live[j].key@, key)
        && !descendant_or_same(key, live[j].key@) by {
        assert(live_at::<P>(now)(live[j]));
        let m = choose|m: int| 0 <= m < locks.len() && locks[m] == live[j];
    }
}

/// A lock whose deadline has passed takes no part in any decision: the
/// table in force is the same with or without it.
pub proof fn lemma_expired_lock_ignored<P>(
    before: Seq<DavLockEntry<P>>,
    expired: DavLockEntry<P>,
    after: Seq<DavLockEntry<P>>,
    now: u64,
)
    requires
        !is_live(expired, now),
    ensures
        prune_spec(before + seq![expired] + after, now) == prune_spec(before + after, now),
        forall|key: Seq<char>, shared: bool, deep: bool|
            lock_blocked(before + seq![expired] + after, now, key, shared, deep) == lock_blocked(
                before + after,
                now,
                key,
                shared,
                deep,
            ),
{
    let p = live_at::<P>(now);
    Seq::filter_distributes_over_add(before + seq![expired], after, p);
    Seq::filter_distributes_over_add(before, seq![expired], p);
    Seq::filter_distributes_over_add(before, after, p);
    reveal(Seq::filter);
    assert(seq![expired].drop_last() =~= Seq::<DavLockEntry<P>>::empty());
    assert(Seq::<DavLockEntry<P>>::empty().filter(p) == Seq::<DavLockEntry<P>>::empty());
    assert(!p(expired));
    assert(seq![expired].last() == expired);
    assert(seq![expired].filter(p) =~= Seq::<DavLockEntry<P>>::empty());
    assert(before.filter(p) + Seq::<DavLockEntry<P>>::empty() =~= before.filter(p));
}

/// The table after `delete(key)` at `now`.
pub open spec fn after_delete<P>(locks: Seq<DavLockEntry<P>>, now: u64, key: Seq<char>) -> Seq<
    DavLockEntry<P>,
> {
    prune_spec(locks, now).filter(outside_of(key))
}

/// Deleting the subtree at `key` leaves no lock on `key` or below it, and
/// keeps every lock in force elsewhere.
pub proof fn lemma_delete_subtree<P>(locks: Seq<DavLockEntry<P>>, now: u64, key: Seq<char>)
    ensures
        forall|j: int|
            0 <= j < after_delete(locks, now, key).len() ==> !descendant_or_same(
                key,
                #[trigger] after_delete(locks, now, key)[j].key@,
            ),
        forall|j: int|
            0 <= j < locks.len() && is_live(locks[j], now) && !descendant_or_same(
                key,
                locks[j].key@,
            ) ==> after_delete(locks, now, key).contains(#[trigger] locks[j]),
{
    broadcast use vstd::seq_lib::group_filter_ensures;

    let live = prune_spec(locks, now);
    let out = after_delete(locks, now, key);
    assert forall|j: int| 0 <= j < out.len() implies !descendant_or_same(
        key,
        #[trigger] out[j].key@,
    ) by {
        assert(outside_of::<P>(key)(out[j]));
    }
    assert forall|j: int|
        0 <= j < locks.len() && is_live(locks[j], now) && !descendant_or_same(
            key,
            locks[j].key@,
        ) implies out.contains(#[trigger] locks[j]) by {
        assert(live_at::<P>(now)(locks[j]));
        assert(live.contains(locks[j]));
        let m = choose|m: int| 0 <= m < live.len() && live[m] == locks[j];
        assert(outside_of::<P>(key)(live[m]));
    }
}

} // verus!
