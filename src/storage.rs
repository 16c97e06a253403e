//! Path resolution under the storage root.
//!
//! A caller-supplied relative path is split into components lexically; any
//! parent-directory component, absolute root or drive prefix is rejected
//! before the filesystem is consulted. The on-disk walk that follows is driven
//! one component at a time by [`walk_step`], which decides from what the
//! filesystem reported for the current prefix whether the walk goes on, or
//! ends in success or in an error.

use vstd::prelude::*;

use crate::text::{chars_of, string_of};

verus! {

/// Whether `c` separates path components (both slash kinds are accepted).
pub open spec fn is_separator(c: char) -> bool {
    c == '/' || c == '\\'
}

/// Whether a raw segment names an entry (empty and `.` segments do not).
pub open spec fn is_named(seg: Seq<char>) -> bool {
    seg.len() > 0 && seg != seq!['.']
}

/// Appends the pending segment to the finished ones when it names an entry.
pub open spec fn flush(done: Seq<Seq<char>>, cur: Seq<char>) -> Seq<Seq<char>> {
    if is_named(cur) {
        done.push(cur)
    } else {
        done
    }
}

/// Left-to-right scan of `s`: the named components finished so far, and the
/// segment that is still open.
pub open spec fn scan(s: Seq<char>) -> (Seq<Seq<char>>, Seq<char>)
    decreases s.len(),
{
    if s.len() == 0 {
        (Seq::empty(), Seq::empty())
    } else {
        let (done, cur) = scan(s.drop_last());
        if is_separator(s.last()) {
            (flush(done, cur), Seq::empty())
        } else {
            (done, cur.push(s.last()))
        }
    }
}

/// The named components of `s`, in order; empty and `.` segments are dropped.
pub open spec fn components(s: Seq<char>) -> Seq<Seq<char>> {
    flush(scan(s).0, scan(s).1)
}

/// The parent-directory component.
pub open spec fn dot_dot() -> Seq<char> {
    seq!['.', '.']
}

/// Whether `s` holds a `..` component.
pub open spec fn has_parent_component(s: Seq<char>) -> bool {
    exists|k: int| 0 <= k < components(s).len() && components(s)[k] == dot_dot()
}

/// Whether `s` starts at a filesystem root.
pub open spec fn is_absolute(s: Seq<char>) -> bool {
    s.len() > 0 && is_separator(s[0])
}

/// Whether `s` starts with a drive prefix such as `C:`.
pub open spec fn has_drive_prefix(s: Seq<char>) -> bool {
    s.len() >= 2 && (('a' <= s[0] && s[0] <= 'z') || ('A' <= s[0] && s[0] <= 'Z')) && s[1] == ':'
}

/// Whether `s` may be resolved under the root at all.
pub open spec fn is_confined(s: Seq<char>) -> bool {
    !is_absolute(s) && !has_drive_prefix(s) && !has_parent_component(s)
}

/// Errors returned by storage operations.
#[derive(Clone, Debug, PartialEq, Eq)]
pub enum StorageError {
    /// The path was malformed, tried to leave the root, or ran through a
    /// symbolic link or a non-directory.
    InvalidPath,
    /// The path, or one of its ancestors, does not exist.
    NotFound,
    /// Any other filesystem failure, with its message.
    Io(String),
}

/// A path that passed the lexical checks: the components to join onto the
/// root, none of them empty, `.` or `..`.
#[derive(Clone, Debug)]
pub struct ResolvedPath {
    pub components: Vec<String>,
}

impl ResolvedPath {
    pub open spec fn view(&self) -> Seq<Seq<char>> {
        self.components@.map_values(|c: String| c@)
    }

    /// Number of components below the root.
    pub fn len(&self) -> (r: usize)
        ensures
            r == self@.len(),
    {
        self.components.len()
    }
}

/// Filesystem-backed storage rooted at a dedicated directory.
#[derive(Clone, Debug)]
pub struct Storage {
    root: String,
}

impl Storage {
    pub closed spec fn root_view(&self) -> Seq<char> {
        self.root@
    }

    /// Creates a storage rooted at `root`.
    pub fn new(root: String) -> (r: Storage)
        ensures
            r.root_view() == root@,
    {
        Storage { root }
    }

    /// The storage root.
    pub fn root_path(&self) -> (r: &str)
        ensures
            r@ == self.root_view(),
    {
        self.root.as_str()
    }

    /// Lexically resolves `relative` (or the root itself for `None`) into the
    /// components to join onto the root.
    pub fn resolve(&self, relative: Option<&str>) -> (r: Result<ResolvedPath, StorageError>)
        ensures
            relative is None ==> r is Ok && r->Ok_0@.len() == 0,
            relative is Some ==> (r is Ok <==> is_confined(relative->Some_0@)),
            relative is Some && r is Ok ==> r->Ok_0@ == components(relative->Some_0@),
            r is Err ==> r->Err_0 == StorageError::InvalidPath,
    {
        match relative {
            None => Ok(ResolvedPath { components: Vec::new() }),
            Some(value) => resolve_relative(value),
        }
    }
}

/// Lexical resolution of one relative path.
pub fn resolve_relative(relative: &str) -> (r: Result<ResolvedPath, StorageError>)
    ensures
        r is Ok <==> is_confined(relative@),
        r is Ok ==> r->Ok_0@ == components(relative@),
        r is Err ==> r->Err_0 == StorageError::InvalidPath,
{
    let cs = chars_of(relative);
    let n = cs.len();
    if n > 0 && (cs[0] == '/' || cs[0] == '\\') {
        return Err(StorageError::InvalidPath);
    }
    if n >= 2 && (('a' <= cs[0] && cs[0] <= 'z') || ('A' <= cs[0] && cs[0] <= 'Z')) && cs[1]
        == ':' {
        return Err(StorageError::InvalidPath);
    }
    let parts = split_components(&cs);
    let mut out: Vec<String> = Vec::new();
    let mut k: usize = 0;
    while k < parts.len()
        invariant
            k <= parts.len(),
            parts@.map_values(|p: Vec<char>| p@) == components(relative@),
            out@.map_values(|c: String| c@) == parts@.map_values(|p: Vec<char>| p@).take(k as int),
            forall|j: int| 0 <= j < k ==> parts@[j]@ != dot_dot(),
        decreases parts.len() - k,
    {
        let p = &parts[k];
        if p.len() == 2 && p[0] == '.' && p[1] == '.' {
            proof {
                assert(parts@.map_values(|p: Vec<char>| p@)[k as int] =~= dot_dot());
            }
            return Err(StorageError::InvalidPath);
        }
        proof {
            assert(p@ != dot_dot()) by {
                if p@ == dot_dot() {
                    assert(p@.len() == 2 && p@[0] == '.' && p@[1] == '.');
                }
            }
        }
        let s = string_of(p);
        let ghost before = out@;
        out.push(s);
        assert(out@.map_values(|c: String| c@) =~= before.map_values(|c: String| c@).push(p@));
        k = k + 1;
        assert(out@.map_values(|c: String| c@) =~= parts@.map_values(|p: Vec<char>| p@).take(
            k as int,
        ));
    }
    assert(out@.map_values(|c: String| c@) =~= parts@.map_values(|p: Vec<char>| p@));
    proof {
        if has_parent_component(relative@) {
            let k = choose|k: int|
                0 <= k < components(relative@).len() && components(relative@)[k] == dot_dot();
            assert(parts@.map_values(|p: Vec<char>| p@)[k] == parts@[k]@);
        }
    }
    Ok(ResolvedPath { components: out })
}

/// Splits `cs` into its named components.
pub fn split_components(cs: &Vec<char>) -> (r: Vec<Vec<char>>)
    ensures
        r@.map_values(|p: Vec<char>| p@) == components(cs@),
{
    let mut done: Vec<Vec<char>> = Vec::new();
    let mut cur: Vec<char> = Vec::new();
    let mut i: usize = 0;
    while i < cs.len()
        invariant
            i <= cs.len(),
            done@.map_values(|p: Vec<char>| p@) == scan(cs@.take(i as int)).0,
            cur@ == scan(cs@.take(i as int)).1,
        decreases cs.len() - i,
    {
        let c = cs[i];
        proof {
            assert(cs@.take(i + 1).drop_last() =~= cs@.take(i as int));
            assert(cs@.take(i + 1).last() == c);
        }
        if c == '/' || c == '\\' {
            push_if_named(&mut done, cur);
            cur = Vec::new();
        } else {
            cur.push(c);
        }
        i = i + 1;
    }
    assert(cs@.take(cs.len() as int) =~= cs@);
    push_if_named(&mut done, cur);
    done
}

fn push_if_named(done: &mut Vec<Vec<char>>, cur: Vec<char>)
    ensures
        final(done)@.map_values(|p: Vec<char>| p@) == flush(
            old(done)@.map_values(|p: Vec<char>| p@),
            cur@,
        ),
{
    let named = cur.len() > 0 && !(cur.len() == 1 && cur[0] == '.');
    proof {
        if cur@ == seq!['.'] {
            assert(cur@.len() == 1 && cur@[0] == '.');
        }
        if cur@.len() == 1 && cur@[0] == '.' {
            assert(cur@ =~= seq!['.']);
        }
    }
    if named {
        let ghost before = done@;
        done.push(cur);
        assert(done@.map_values(|p: Vec<char>| p@) =~= before.map_values(|p: Vec<char>| p@).push(
            cur@,
        ));
    }
}

/// What the filesystem reported for one prefix of the path, read without
/// following symbolic links.
#[derive(Clone, Debug, PartialEq, Eq)]
pub enum Probe {
    Directory,
    File,
    Symlink,
    Missing,
    Failed(String),
}

/// The decision after one probe of the walk.
#[derive(Debug)]
pub enum WalkStep {
    /// Probe the next, longer prefix.
    Continue,
    /// The walk is over, with this result.
    Done(Result<(), StorageError>),
}

/// The decision for the probe of the prefix that ends at component `index`
/// of `count` components.
pub open spec fn step_spec(index: int, count: int, allow_missing_leaf: bool, probe: Probe) -> WalkStep {
    let leaf = index + 1 == count;
    match probe {
        Probe::Symlink => WalkStep::Done(Err(StorageError::InvalidPath)),
        Probe::Directory => if leaf {
            WalkStep::Done(Ok(()))
        } else {
            WalkStep::Continue
        },
        Probe::File => if leaf {
            WalkStep::Done(Ok(()))
        } else {
            WalkStep::Done(Err(StorageError::InvalidPath))
        },
        Probe::Missing => if leaf && allow_missing_leaf {
            WalkStep::Done(Ok(()))
        } else {
            WalkStep::Done(Err(StorageError::NotFound))
        },
        Probe::Failed(e) => WalkStep::Done(Err(StorageError::Io(e))),
    }
}

/// Decides the walk after the probe of the prefix that ends at component
/// `index` of `count`.
pub fn walk_step(index: usize, count: usize, allow_missing_leaf: bool, probe: &Probe) -> (r:
    WalkStep)
    requires
        index < count,
    ensures
        r == step_spec(index as int, count as int, allow_missing_leaf, *probe),
{
    let leaf = index + 1 == count;
    match probe {
        Probe::Symlink => WalkStep::Done(Err(StorageError::InvalidPath)),
        Probe::Directory => if leaf {
            WalkStep::Done(Ok(()))
        } else {
            WalkStep::Continue
        },
        Probe::File => if leaf {
            WalkStep::Done(Ok(()))
        } else {
            WalkStep::Done(Err(StorageError::InvalidPath))
        },
        Probe::Missing => if leaf && allow_missing_leaf {
            WalkStep::Done(Ok(()))
        } else {
            WalkStep::Done(Err(StorageError::NotFound))
        },
        Probe::Failed(message) => WalkStep::Done(Err(StorageError::Io(message.clone()))),
    }
}

/// The result of a walk, from component `index` on, when the probe of the
/// prefix that ends at component `i` reports `probes[i]`.
pub open spec fn walk_from(probes: Seq<Probe>, index: int, allow_missing_leaf: bool) -> Result<
    (),
    StorageError,
>
    decreases probes.len() - index,
{
    if index < 0 || index >= probes.len() {
        Ok(())
    } else {
        match step_spec(index, probes.len() as int, allow_missing_leaf, probes[index]) {
            WalkStep::Continue => walk_from(probes, index + 1, allow_missing_leaf),
            WalkStep::Done(r) => r,
        }
    }
}

/// The result of the whole walk over the probes of every prefix, shortest
/// first.
pub open spec fn walk_verdict(probes: Seq<Probe>, allow_missing_leaf: bool) -> Result<
    (),
    StorageError,
> {
    walk_from(probes, 0, allow_missing_leaf)
}

/// A path whose walk meets a symbolic link is rejected as invalid, whether the
/// link is an ancestor or the leaf, and whatever `allow_missing_leaf` says,
/// provided every prefix before the link could be read.
pub proof fn lemma_symlink_rejected(probes: Seq<Probe>, allow_missing_leaf: bool, link: int)
    requires
        0 <= link < probes.len(),
        probes[link] == Probe::Symlink,
        forall|j: int| 0 <= j < link ==> !(probes[j] is Missing) && !(probes[j] is Failed),
    ensures
        walk_verdict(probes, allow_missing_leaf) == Err::<(), StorageError>(
            StorageError::InvalidPath,
        ),
{
    lemma_symlink_rejected_from(probes, allow_missing_leaf, link, 0);
}

proof fn lemma_symlink_rejected_from(
    probes: Seq<Probe>,
    allow_missing_leaf: bool,
    link: int,
    index: int,
)
    requires
        0 <= index <= link < probes.len(),
        probes[link] == Probe::Symlink,
        forall|j: int| 0 <= j < link ==> !(probes[j] is Missing) && !(probes[j] is Failed),
    ensures
        walk_from(probes, index, allow_missing_leaf) == Err::<(), StorageError>(
            StorageError::InvalidPath,
        ),
    decreases link - index,
{
    if index < link {
        lemma_symlink_rejected_from(probes, allow_missing_leaf, link, index + 1);
    }
}

/// Every component that resolution keeps names an entry directly below its
/// parent: it is neither empty, `.`, nor `..`, and holds no separator. Joined
/// onto the root, a confined path therefore stays under the root.
pub proof fn lemma_components_stay_below_root(s: Seq<char>)
    requires
        is_confined(s),
    ensures
        forall|k: int|
            0 <= k < components(s).len() ==> {
                &&& is_named(#[trigger] components(s)[k])
                &&& components(s)[k] != dot_dot()
                &&& forall|j: int| 0 <= j < components(s)[k].len() ==> !is_separator(components(s)[k][j])
            },
{
    lemma_scan_segments(s);
}

proof fn lemma_scan_segments(s: Seq<char>)
    ensures
        forall|k: int|
            0 <= k < scan(s).0.len() ==> {
                &&& is_named(#[trigger] scan(s).0[k])
                &&& forall|j: int| 0 <= j < scan(s).0[k].len() ==> !is_separator(scan(s).0[k][j])
            },
        forall|j: int| 0 <= j < scan(s).1.len() ==> !is_separator(scan(s).1[j]),
        forall|k: int|
            0 <= k < components(s).len() ==> {
                &&& is_named(#[trigger] components(s)[k])
                &&& forall|j: int| 0 <= j < components(s)[k].len() ==> !is_separator(components(s)[k][j])
            },
    decreases s.len(),
{
    if s.len() > 0 {
        let prev = s.drop_last();
        lemma_scan_segments(prev);
        let done = scan(prev).0;
        let cur = scan(prev).1;
        if is_separator(s.last()) {
            assert(scan(s).0 == flush(done, cur));
            assert(scan(s).1 =~= Seq::<char>::empty());
        } else {
            assert(scan(s).0 == done);
            assert(scan(s).1 == cur.push(s.last()));
            assert forall|j: int| 0 <= j < scan(s).1.len() implies !is_separator(scan(s).1[j]) by {
                if j < cur.len() {
                    assert(scan(s).1[j] == cur[j]);
                }
            }
        }
    }
}

} // verus!
