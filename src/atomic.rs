//! Atomic replacement of a file: the content is staged in a hidden temporary
//! file beside the target and published by a rename.
//!
//! The filesystem work is done by the caller, one action at a time; this
//! module names the temporary file and decides, from the outcome of each
//! action, which action comes next.

use vstd::prelude::*;

use crate::ids::{random_uuid_text, uuid_accepts};
use crate::text::append_str;

verus! {

/// The name of the temporary file for a target named `base`, with unique
/// suffix `id`.
pub open spec fn temp_name_spec(base: Seq<char>, id: Seq<char>) -> Seq<char> {
    seq!['.'] + base + seq!['.', 't', 'm', 'p', '.'] + id
}

/// The base used when the target has no file name.
pub open spec fn default_base() -> Seq<char> {
    seq!['f', 'i', 'l', 'e']
}

/// The name of the temporary file for a target whose file name is
/// `target_name` (`file` when it has none), with unique suffix `id`.
pub fn temp_file_name(target_name: Option<&str>, id: &str) -> (r: String)
    ensures
        r@ == temp_name_spec(
            match target_name {
                Some(n) => n@,
                None => default_base(),
            },
            id@,
        ),
{
    let mut s = String::new();
    s.push('.');
    match target_name {
        Some(n) => append_str(&mut s, n),
        None => {
            s.push('f');
            s.push('i');
            s.push('l');
            s.push('e');
        },
    }
    s.push('.');
    s.push('t');
    s.push('m');
    s.push('p');
    s.push('.');
    append_str(&mut s, id);
    proof {
        let base = match target_name {
            Some(n) => n@,
            None => default_base(),
        };
        assert(s@ =~= temp_name_spec(base, id@));
    }
    s
}

/// A fresh temporary file name for a target whose file name is
/// `target_name`: hidden, and unique by a random suffix.
pub fn new_temp_file_name(target_name: Option<&str>) -> (r: String)
    ensures
        exists|id: Seq<char>|
            id.len() == 36 && uuid_accepts(id) && r@ == temp_name_spec(
                match target_name {
                    Some(n) => n@,
                    None => default_base(),
                },
                id,
            ),
{
    let id = random_uuid_text();
    temp_file_name(target_name, id.as_str())
}

/// The next filesystem action of a finalization, carrying the error that
/// will be reported if the replacement fails.
#[derive(Clone, Debug, PartialEq, Eq)]
pub enum Finalize {
    /// Flush the temporary file's data to disk.
    SyncFile,
    /// Persist the directory entry of the temporary file.
    SyncDir,
    /// Rename the temporary file over the target.
    Rename,
    /// Remove the target, where renaming over it is not possible.
    RemoveTarget(String),
    /// Rename again once the target is gone.
    RetryRename(String),
    /// Remove the temporary file after a failure.
    RemoveTemp(String),
    /// Persist the rename.
    SyncDirAfter,
    /// Nothing left to do: the target was replaced.
    Replaced,
    /// Nothing left to do: the replacement failed and the temporary file is
    /// gone.
    Failed(String),
}

/// Whether the temporary file may still exist while at step `f`.
pub open spec fn temp_may_exist(f: Finalize) -> bool {
    !(f is SyncDirAfter || f is Replaced || f is Failed)
}

/// The step after performing step `f` with outcome `outcome`; renaming over
/// an existing file fails on platforms where `replace_forbidden` holds.
pub open spec fn advance_spec(f: Finalize, outcome: Result<(), String>, replace_forbidden: bool) -> Finalize {
    match f {
        Finalize::SyncFile => match outcome {
            Ok(()) => Finalize::SyncDir,
            Err(e) => Finalize::RemoveTemp(e),
        },
        Finalize::SyncDir => Finalize::Rename,
        Finalize::Rename => match outcome {
            Ok(()) => Finalize::SyncDirAfter,
            Err(e) => if replace_forbidden {
                Finalize::RemoveTarget(e)
            } else {
                Finalize::RemoveTemp(e)
            },
        },
        Finalize::RemoveTarget(e) => match outcome {
            Ok(()) => Finalize::RetryRename(e),
            Err(_) => Finalize::RemoveTemp(e),
        },
        Finalize::RetryRename(e) => match outcome {
            Ok(()) => Finalize::SyncDirAfter,
            Err(_) => Finalize::RemoveTemp(e),
        },
        Finalize::RemoveTemp(e) => Finalize::Failed(e),
        Finalize::SyncDirAfter => Finalize::Replaced,
        Finalize::Replaced => Finalize::Replaced,
        Finalize::Failed(e) => Finalize::Failed(e),
    }
}

/// How many steps at most remain from `f`.
pub open spec fn steps_left(f: Finalize) -> nat {
    match f {
        Finalize::SyncFile => 6,
        Finalize::SyncDir => 5,
        Finalize::Rename => 4,
        Finalize::RemoveTarget(_) => 3,
        Finalize::RetryRename(_) => 2,
        Finalize::RemoveTemp(_) => 1,
        Finalize::SyncDirAfter => 1,
        Finalize::Replaced => 0,
        Finalize::Failed(_) => 0,
    }
}

/// Decides the next step of a finalization after step `f` ended with
/// `outcome`. Errors of directory syncs and of the final cleanup are not
/// reported; the error reported is the first one of the rename.
pub fn advance(f: Finalize, outcome: Result<(), String>, replace_forbidden: bool) -> (r: Finalize)
    ensures
        r == advance_spec(f, outcome, replace_forbidden),
        steps_left(f) > 0 ==> steps_left(r) < steps_left(f),
        !temp_may_exist(r) && temp_may_exist(f) ==> (f is RemoveTemp || (outcome is Ok && (f is Rename
            || f is RetryRename))),
{
    match f {
        Finalize::SyncFile => match outcome {
            Ok(()) => Finalize::SyncDir,
            Err(e) => Finalize::RemoveTemp(e),
        },
        Finalize::SyncDir => Finalize::Rename,
        Finalize::Rename => match outcome {
            Ok(()) => Finalize::SyncDirAfter,
            Err(e) => if replace_forbidden {
                Finalize::RemoveTarget(e)
            } else {
                Finalize::RemoveTemp(e)
            },
        },
        Finalize::RemoveTarget(e) => match outcome {
            Ok(()) => Finalize::RetryRename(e),
            Err(_) => Finalize::RemoveTemp(e),
        },
        Finalize::RetryRename(e) => match outcome {
            Ok(()) => Finalize::SyncDirAfter,
            Err(_) => Finalize::RemoveTemp(e),
        },
        Finalize::RemoveTemp(e) => Finalize::Failed(e),
        Finalize::SyncDirAfter => Finalize::Replaced,
        Finalize::Replaced => Finalize::Replaced,
        Finalize::Failed(e) => Finalize::Failed(e),
    }
}

/// The step reached from `f` after the outcomes `outcomes`, in order.
pub open spec fn run(f: Finalize, outcomes: Seq<Result<(), String>>, replace_forbidden: bool) -> Finalize
    decreases outcomes.len(),
{
    if outcomes.len() == 0 {
        f
    } else {
        run(advance_spec(f, outcomes[0], replace_forbidden), outcomes.skip(1), replace_forbidden)
    }
}

/// Whatever the outcomes of the filesystem actions, a finalization started
/// at `SyncFile` is over after at most six actions, and once it is over the
/// temporary file is gone: it was renamed over the target, or removed.
pub proof fn lemma_finalize_leaves_no_temp(outcomes: Seq<Result<(), String>>, replace_forbidden: bool)
    requires
        outcomes.len() >= 6,
    ensures
        run(Finalize::SyncFile, outcomes, replace_forbidden) is Replaced || run(
            Finalize::SyncFile,
            outcomes,
            replace_forbidden,
        ) is Failed,
        !temp_may_exist(run(Finalize::SyncFile, outcomes, replace_forbidden)),
{
    lemma_run_ends(Finalize::SyncFile, outcomes, replace_forbidden);
}

proof fn lemma_run_ends(f: Finalize, outcomes: Seq<Result<(), String>>, replace_forbidden: bool)
    requires
        outcomes.len() >= steps_left(f),
    ensures
        run(f, outcomes, replace_forbidden) is Replaced || run(f, outcomes, replace_forbidden) is Failed,
    decreases outcomes.len(),
{
    if outcomes.len() > 0 {
        lemma_run_ends(advance_spec(f, outcomes[0], replace_forbidden), outcomes.skip(1), replace_forbidden);
    }
}

} // verus!
