use roblox_steam_launcher::apply_engine::{
    apply_launcher, unapply_launcher, ApplyError, ApplyResult, VersionDirectory,
};

#[test]
fn apply_twice_is_idempotent() {
    let mut dir = VersionDirectory { launcher_file: Some(11), original_file: None };
    let first = apply_launcher(&mut dir, 99);
    assert_eq!(first, ApplyResult::Applied);
    let after_one = dir;
    let second = apply_launcher(&mut dir, 99);
    assert_eq!(second, ApplyResult::AlreadyApplied);
    assert_eq!(dir, after_one);
}

#[test]
fn apply_then_unapply_restores_the_directory() {
    let original = VersionDirectory { launcher_file: Some(42), original_file: None };
    let mut dir = original;
    assert_eq!(apply_launcher(&mut dir, 7), ApplyResult::Applied);
    assert_eq!(dir.original_file, Some(42));
    assert_eq!(dir.launcher_file, Some(7));
    assert_eq!(unapply_launcher(&mut dir), ApplyResult::Applied);
    assert_eq!(dir, original);
}

#[test]
fn apply_on_missing_executable_fails() {
    let mut dir = VersionDirectory { launcher_file: None, original_file: None };
    let r = apply_launcher(&mut dir, 1);
    assert_eq!(r, ApplyResult::Error(ApplyError::NoExecutable));
    assert_eq!(dir, VersionDirectory { launcher_file: None, original_file: None });
}

#[test]
fn unapply_twice_is_idempotent() {
    let mut dir = VersionDirectory { launcher_file: Some(5), original_file: Some(42) };
    assert_eq!(unapply_launcher(&mut dir), ApplyResult::Applied);
    let after_one = dir;
    assert_eq!(unapply_launcher(&mut dir), ApplyResult::AlreadyApplied);
    assert_eq!(dir, after_one);
}

#[test]
fn unapply_restores_even_when_launcher_is_missing() {
    // A half-performed apply left the backup in place and nothing under
    // the launcher name; reverting restores the backup.
    let mut dir = VersionDirectory { launcher_file: None, original_file: Some(42) };
    assert_eq!(unapply_launcher(&mut dir), ApplyResult::Applied);
    assert_eq!(dir, VersionDirectory { launcher_file: Some(42), original_file: None });
}
