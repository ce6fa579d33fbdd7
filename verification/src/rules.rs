//! The per-entry decision: what the tool does with one entry of the walk.

use vstd::prelude::*;
use vstd::string::StringExecFns;

verus! {

/// Age threshold used when no `--age` argument is given.
pub const DEFAULT_MIN_AGE: u64 = 10;

/// The literal directory name the tool looks for.
pub open spec fn target_name() -> Seq<char> {
    "node_modules"@
}

/// A name counts only when it is exactly `node_modules`: case-sensitive,
/// no partial matches.
pub open spec fn is_target(name: Seq<char>) -> bool {
    name == target_name()
}

/// Some name in the list is exactly `node_modules`.
pub open spec fn any_target(names: Seq<Seq<char>>) -> bool {
    exists|i: int| 0 <= i < names.len() && is_target(names[i])
}

/// Elapsed seconds turned into whole days, the unit the age threshold is
/// compared in.
pub open spec fn age_in_days(elapsed_secs: u64) -> u64 {
    elapsed_secs / 3600 / 24
}

/// How the last-access time of a walked entry came out.
#[derive(Clone, Copy, PartialEq, Eq, Structural, Debug)]
pub enum AccessStatus {
    /// The entry's metadata could not be read at all.
    MetadataError,
    /// The platform reports no last-access time for this entry.
    Unsupported,
    /// The time elapsed since the last access could not be computed.
    ElapsedError,
    /// Seconds elapsed since the entry was last accessed.
    ElapsedSecs(u64),
}

/// What the tool does with one walked entry.
#[derive(Clone, Copy, PartialEq, Eq, Structural, Debug)]
pub enum Action {
    /// Leave the entry alone and continue the walk.
    Skip,
    /// Report that last-access times are unavailable, then continue.
    ReportUnsupported,
    /// Delete the entry's whole subtree, then continue.
    Delete,
    /// Abort the run: the entry's metadata could not be read.
    FatalMetadata,
    /// Abort the run: the elapsed time of a matched entry could not be
    /// computed.
    FatalElapsed,
}

/// The decision for one entry, given its name, the names of its ancestor
/// directories, how its last-access time came out, and the age threshold.
///
/// Unreadable metadata is fatal for every entry; a missing last-access time
/// is only reported. A failed elapsed-time computation is fatal, but only
/// for entries that match the target name, because the time is never
/// computed for others. A matched entry is deleted exactly when it is older
/// than the threshold and no ancestor matches the target name too.
pub open spec fn decision(
    name: Seq<char>,
    ancestors: Seq<Seq<char>>,
    status: AccessStatus,
    min_age: u64,
) -> Action {
    match status {
        AccessStatus::MetadataError => Action::FatalMetadata,
        AccessStatus::Unsupported => Action::ReportUnsupported,
        AccessStatus::ElapsedError => if is_target(name) {
            Action::FatalElapsed
        } else {
            Action::Skip
        },
        AccessStatus::ElapsedSecs(e) => if is_target(name) && age_in_days(e) > min_age
            && !any_target(ancestors) {
            Action::Delete
        } else {
            Action::Skip
        },
    }
}

/// True exactly when `name` is the literal `node_modules`.
pub fn is_target_name(name: &str) -> (r: bool)
    ensures
        r == is_target(name@),
{
    let target: String = String::from_str("node_modules");
    name.to_owned() == target
}

/// True exactly when some name in `names` is the literal `node_modules`.
pub fn some_is_target(names: &Vec<String>) -> (r: bool)
    ensures
        r == any_target(names@.map_values(|s: String| s@)),
{
    let ghost views: Seq<Seq<char>> = names@.map_values(|s: String| s@);
    let mut k: usize = 0;
    while k < names.len()
        invariant
            k <= names.len(),
            views == names@.map_values(|s: String| s@),
            forall|i: int| 0 <= i < k ==> !is_target(views[i]),
        decreases names.len() - k,
    {
        if is_target_name(names[k].as_str()) {
            assert(is_target(views[k as int]));
            return true;
        }
        k += 1;
    }
    false
}

/// Elapsed seconds turned into whole days.
pub fn elapsed_days(elapsed_secs: u64) -> (d: u64)
    ensures
        d == age_in_days(elapsed_secs),
{
    elapsed_secs / 3600 / 24
}

/// Decide what to do with one walked entry. The caller supplies the entry's
/// own name, the names of its ancestor directories (in any order), the
/// outcome of reading its last-access time, and the age threshold.
pub fn decide(name: &str, ancestors: &Vec<String>, status: AccessStatus, min_age: u64) -> (a:
    Action)
    ensures
        a == decision(name@, ancestors@.map_values(|s: String| s@), status, min_age),
{
    match status {
        AccessStatus::MetadataError => Action::FatalMetadata,
        AccessStatus::Unsupported => Action::ReportUnsupported,
        AccessStatus::ElapsedError => {
            if is_target_name(name) {
                Action::FatalElapsed
            } else {
                Action::Skip
            }
        },
        AccessStatus::ElapsedSecs(e) => {
            if is_target_name(name) && elapsed_days(e) > min_age && !some_is_target(ancestors) {
                Action::Delete
            } else {
                Action::Skip
            }
        },
    }
}

} // verus!
