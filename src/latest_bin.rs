//! Deciding whether a tool's own build is older than its sources.
use vstd::prelude::*;

use crate::text::text_eq;

verus! {

/// No directory above the executable holds a `Cargo.toml`.
#[derive(Debug, Clone, PartialEq, Eq)]
pub struct CrateRootNotFound;

impl CrateRootNotFound {
    /// The text that reports the error.
    pub fn message(&self) -> (r: String)
        ensures
            r@ == "Failed to find workspace root"@,
    {
        String::from_str("Failed to find workspace root")
    }
}

/// Whether a walk over the sources enters a directory entry: not the `target` or `.git`
/// directories, and not a `Cargo.lock` file.
pub open spec fn included(is_dir: bool, is_file: bool, name: Seq<char>) -> bool {
    if is_dir {
        name != "target"@ && name != ".git"@
    } else if is_file {
        name != "Cargo.lock"@
    } else {
        true
    }
}

/// Whether the walk over the sources takes in the entry `name`.
pub fn should_include(is_dir: bool, is_file: bool, name: &str) -> (r: bool)
    ensures
        r == included(is_dir, is_file, name@),
{
    if is_dir {
        !text_eq(name, "target") && !text_eq(name, ".git")
    } else if is_file {
        !text_eq(name, "Cargo.lock")
    } else {
        true
    }
}

/// The nearest crate root: the first of the directories above the executable, nearest first,
/// that is marked as holding a `Cargo.toml`.
pub fn get_crate_root(ancestors: &Vec<(String, bool)>) -> (r: Result<String, CrateRootNotFound>)
    ensures
        r is Err <==> forall|i: int| 0 <= i < ancestors@.len() ==> !(#[trigger] ancestors@[i]).1,
        r matches Ok(root) ==> exists|i: int|
            0 <= i < ancestors@.len() && (#[trigger] ancestors@[i]).1 && ancestors@[i].0@ == root@
                && forall|j: int| 0 <= j < i ==> !(#[trigger] ancestors@[j]).1,
{
    let mut i: usize = 0;
    while i < ancestors.len()
        invariant
            i <= ancestors@.len(),
            forall|j: int| 0 <= j < i ==> !(#[trigger] ancestors@[j]).1,
        decreases ancestors@.len() - i,
    {
        if ancestors[i].1 {
            let root = ancestors[i].0.clone();
            assert(ancestors@[i as int].1 && ancestors@[i as int].0@ == root@);
            return Ok(root);
        }
        i = i + 1;
    }
    Err(CrateRootNotFound)
}

/// Whether the executable needs a rebuild: some source file was modified after it.
/// Times are in nanoseconds since the Unix epoch.
pub fn needs_rebuild(exe_modified: u128, sources_modified: &Vec<u128>) -> (r: bool)
    ensures
        r == exists|i: int| 0 <= i < sources_modified@.len() && sources_modified@[i] > exe_modified,
{
    let mut i: usize = 0;
    while i < sources_modified.len()
        invariant
            i <= sources_modified@.len(),
            forall|j: int| 0 <= j < i ==> sources_modified@[j] <= exe_modified,
        decreases sources_modified@.len() - i,
    {
        if sources_modified[i] > exe_modified {
            return true;
        }
        i = i + 1;
    }
    false
}

} // verus!
