//! The substitution state machine over a single version directory.
//!
//! A version directory holds two file slots: the launcher slot (the game's
//! fixed executable name) and the backup slot (the "original" name the real
//! executable is moved to while a proxy stands in its place). The presence or
//! absence of the backup file is the sole source of truth for whether
//! substitution is applied; file contents are modeled as opaque content
//! identifiers so that reverting can be shown to restore the very same
//! executable.

use vstd::prelude::*;

verus! {

/// Model of a version directory's two launcher file slots. Each slot holds
/// the content identifier of the file occupying it, or `None` if absent.
#[derive(Clone, Copy, PartialEq, Eq, Debug)]
pub struct VersionDirectory {
    /// The file occupying the real executable's name.
    pub launcher_file: Option<u64>,
    /// The file occupying the backup ("original") name.
    pub original_file: Option<u64>,
}

/// How a version directory stands with respect to substitution.
#[derive(Clone, Copy, PartialEq, Eq, Debug)]
pub enum SubstitutionState {
    /// Only the real executable is present under its own name.
    Unmodified,
    /// The backup file exists: the real executable has been moved aside.
    /// (A directory that lost its launcher file after the move still counts
    /// as applied, since the backup file alone decides.)
    Applied,
    /// Neither expected file is present: externally corrupted, never
    /// silently repaired.
    Inconsistent,
}

/// Why applying or reverting substitution failed.
#[derive(Clone, Copy, PartialEq, Eq, Debug)]
pub enum ApplyError {
    /// The real executable is missing, so there is nothing to substitute.
    NoExecutable,
    /// The running program's own directory could not be determined.
    NoProgramDir,
    /// Moving a file aside (or back) failed.
    CannotRename,
    /// Copying the proxy into place failed.
    CannotCopy,
    /// Deleting the standing file failed.
    CannotRemove,
}

/// Outcome of one apply or unapply step.
#[derive(Clone, Copy, PartialEq, Eq, Debug)]
pub enum ApplyResult {
    /// The step changed the directory.
    Applied,
    /// The directory was already in the requested state; nothing was done.
    AlreadyApplied,
    /// The step failed and the directory is unchanged (in this model;
    /// a half-performed step on disk surfaces the same error).
    Error(ApplyError),
}

/// Classifies a directory by the presence of its two files.
pub open spec fn substitution_state(dir: VersionDirectory) -> SubstitutionState {
    if dir.original_file is Some {
        SubstitutionState::Applied
    } else if dir.launcher_file is Some {
        SubstitutionState::Unmodified
    } else {
        SubstitutionState::Inconsistent
    }
}

/// The apply transition: move the real executable to the backup name and
/// put the proxy under the real executable's name.
pub open spec fn spec_apply_launcher(dir: VersionDirectory, proxy_content: u64) -> (
    VersionDirectory,
    ApplyResult,
) {
    if dir.original_file is Some {
        (dir, ApplyResult::AlreadyApplied)
    } else if dir.launcher_file is None {
        (dir, ApplyResult::Error(ApplyError::NoExecutable))
    } else {
        (
            VersionDirectory {
                launcher_file: Some(proxy_content),
                original_file: dir.launcher_file,
            },
            ApplyResult::Applied,
        )
    }
}

/// The unapply transition: delete whatever occupies the real executable's
/// name and move the backup file back.
pub open spec fn spec_unapply_launcher(dir: VersionDirectory) -> (VersionDirectory, ApplyResult) {
    if dir.original_file is None {
        (dir, ApplyResult::AlreadyApplied)
    } else {
        (
            VersionDirectory { launcher_file: dir.original_file, original_file: None },
            ApplyResult::Applied,
        )
    }
}

/// Installs the proxy (with content `proxy_content`) in place of the real
/// executable, keeping the real one under the backup name.
pub fn apply_launcher(dir: &mut VersionDirectory, proxy_content: u64) -> (r: ApplyResult)
    ensures
        (*final(dir), r) == spec_apply_launcher(*old(dir), proxy_content),
{
    if dir.original_file.is_some() {
        return ApplyResult::AlreadyApplied;
    }
    if dir.launcher_file.is_none() {
        return ApplyResult::Error(ApplyError::NoExecutable);
    }
    dir.original_file = dir.launcher_file;
    dir.launcher_file = Some(proxy_content);
    ApplyResult::Applied
}

/// Reverts substitution: removes the standing launcher file and restores the
/// backup under the real executable's name.
pub fn unapply_launcher(dir: &mut VersionDirectory) -> (r: ApplyResult)
    ensures
        (*final(dir), r) == spec_unapply_launcher(*old(dir)),
{
    if dir.original_file.is_none() {
        return ApplyResult::AlreadyApplied;
    }
    dir.launcher_file = dir.original_file;
    dir.original_file = None;
    ApplyResult::Applied
}

/// Applying twice is safe: the second call never changes the directory, and
/// on an unmodified directory the two calls report `Applied` then
/// `AlreadyApplied`.
pub proof fn lemma_apply_idempotent(dir: VersionDirectory, proxy_content: u64)
    ensures
        ({
            let (d1, r1) = spec_apply_launcher(dir, proxy_content);
            let (d2, r2) = spec_apply_launcher(d1, proxy_content);
            &&& d2 == d1
            &&& substitution_state(dir) is Unmodified ==> r1 is Applied && r2 is AlreadyApplied
        }),
{
}

/// Reverting twice is safe in the same way: the second call never changes
/// the directory, and on an applied directory the two calls report `Applied`
/// then `AlreadyApplied`.
pub proof fn lemma_unapply_idempotent(dir: VersionDirectory)
    ensures
        ({
            let (d1, r1) = spec_unapply_launcher(dir);
            let (d2, r2) = spec_unapply_launcher(d1);
            &&& d2 == d1
            &&& substitution_state(dir) is Applied ==> r1 is Applied && r2 is AlreadyApplied
        }),
{
}

/// Apply then unapply restores an unmodified directory exactly: the same
/// two file slots with the same contents.
pub proof fn lemma_apply_unapply_inverse(dir: VersionDirectory, proxy_content: u64)
    requires
        substitution_state(dir) is Unmodified,
    ensures
        ({
            let (d1, r1) = spec_apply_launcher(dir, proxy_content);
            let (d2, r2) = spec_unapply_launcher(d1);
            &&& r1 is Applied
            &&& r2 is Applied
            &&& d2 == dir
        }),
{
}

} // verus!
