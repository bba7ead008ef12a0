//! Picking the current version directory out of a root of rotating
//! versioned installations.
//!
//! A candidate qualifies only if it holds the real executable; among the
//! qualifying candidates the one with the strictly latest creation timestamp
//! wins. When the latest timestamp is shared by two candidates the round is
//! ambiguous and nothing is returned: a tie discards the result rather than
//! guessing.

use vstd::prelude::*;

verus! {

/// What the caller observed about one immediate subdirectory of the root.
#[derive(Clone, Debug)]
pub struct CandidateDirectory {
    /// The directory's own name (the installed version string).
    pub name: String,
    /// Its creation timestamp, as an ordinal (e.g. nanoseconds since an
    /// epoch); only the order between candidates matters.
    pub created: u64,
    /// Whether the directory holds a file under the real executable's name.
    pub has_launcher_exe: bool,
    /// Whether the directory holds a file under the backup ("original")
    /// name.
    pub has_original_exe: bool,
}

/// A candidate qualifies when it holds the real executable.
pub open spec fn qualifies(c: CandidateDirectory) -> bool {
    c.has_launcher_exe
}

/// Index `i` names the unique newest qualifying candidate: it qualifies and
/// every other qualifying candidate is strictly older.
pub open spec fn is_unique_newest(s: Seq<CandidateDirectory>, i: int) -> bool {
    &&& 0 <= i < s.len()
    &&& qualifies(s[i])
    &&& forall|j: int|
        0 <= j < s.len() && j != i && qualifies(s[j]) ==> s[j].created < s[i].created
}

/// Returns the index of the unique newest qualifying candidate, or `None`
/// when no candidate qualifies or the newest creation timestamp is shared.
pub fn get_newest_roblox_player_directory_path(candidates: &Vec<CandidateDirectory>) -> (r: Option<
    usize,
>)
    ensures
        r matches Some(i) ==> is_unique_newest(candidates@, i as int),
        r is None ==> forall|i: int| !is_unique_newest(candidates@, i),
{
    let ghost s = candidates@;
    let mut best: Option<usize> = None;
    let mut tie: bool = false;
    let mut i: usize = 0;
    while i < candidates.len()
        invariant
            s == candidates@,
            i <= s.len(),
            best matches Some(b) ==> {
                &&& b < i
                &&& qualifies(s[b as int])
                &&& forall|j: int| 0 <= j < i && qualifies(s[j]) ==> s[j].created <= s[b as int].created
            },
            best is None ==> forall|j: int| 0 <= j < i ==> !qualifies(s[j]),
            tie ==> (best matches Some(b) && exists|j: int|
                0 <= j < i && j != b && qualifies(s[j]) && s[j].created == s[b as int].created),
            !tie ==> (best matches Some(b) ==> forall|j: int|
                0 <= j < i && j != b && qualifies(s[j]) ==> s[j].created < s[b as int].created),
        decreases s.len() - i,
    {
        if candidates[i].has_launcher_exe {
            match best {
                None => {
                    best = Some(i);
                    tie = false;
                },
                Some(b) => {
                    if candidates[i].created > candidates[b].created {
                        best = Some(i);
                        tie = false;
                    } else if candidates[i].created == candidates[b].created {
                        proof {
                            assert(qualifies(s[i as int]));
                            assert(s[i as int].created == s[b as int].created);
                        }
                        tie = true;
                    }
                },
            }
        }
        i = i + 1;
    }
    if tie {
        proof {
            let b = best->0 as int;
            let j = choose|j: int|
                0 <= j < s.len() && j != b && qualifies(s[j]) && s[j].created == s[b].created;
            assert forall|k: int| !is_unique_newest(s, k) by {
                if is_unique_newest(s, k) {
                    if k == b {
                        assert(s[j].created < s[b].created);
                    } else {
                        assert(s[b].created < s[k].created);
                        assert(s[k].created <= s[b].created);
                    }
                }
            }
        }
        None
    } else {
        best
    }
}

/// Returns the index of the unique newest qualifying candidate provided it
/// also holds the backup file (the real executable moved aside), or `None`.
pub fn get_newest_roblox_player_executable_path(candidates: &Vec<CandidateDirectory>) -> (r: Option<
    usize,
>)
    ensures
        r matches Some(i) ==> is_unique_newest(candidates@, i as int) && candidates@[i as int].has_original_exe,
        r is None ==> forall|i: int|
            is_unique_newest(candidates@, i) ==> !candidates@[i].has_original_exe,
{
    match get_newest_roblox_player_directory_path(candidates) {
        None => None,
        Some(i) => {
            if candidates[i].has_original_exe {
                proof {
                    assert forall|k: int|
                        is_unique_newest(candidates@, k) implies k == i as int by {
                        if k != i as int {
                            assert(candidates@[k].created < candidates@[i as int].created);
                            assert(candidates@[i as int].created < candidates@[k].created);
                        }
                    }
                }
                Some(i)
            } else {
                proof {
                    assert forall|k: int|
                        is_unique_newest(candidates@, k) implies !candidates@[k].has_original_exe by {
                        if k != i as int {
                            assert(candidates@[k].created < candidates@[i as int].created);
                            assert(candidates@[i as int].created < candidates@[k].created);
                        }
                    }
                }
                None
            }
        },
    }
}

/// The tie policy over any two qualifying candidates: identical creation
/// timestamps leave no unique newest candidate at all, while distinct
/// timestamps single out the newer one.
pub proof fn lemma_resolver_pair(a: CandidateDirectory, b: CandidateDirectory)
    requires
        qualifies(a),
        qualifies(b),
    ensures
        a.created == b.created ==> forall|i: int| !is_unique_newest(seq![a, b], i),
        a.created < b.created ==> is_unique_newest(seq![a, b], 1),
        b.created < a.created ==> is_unique_newest(seq![a, b], 0),
{
    let s = seq![a, b];
    assert(s[0] == a && s[1] == b && s.len() == 2);
    if a.created == b.created {
        assert forall|i: int| !is_unique_newest(s, i) by {
            if is_unique_newest(s, i) {
                if i == 0 {
                    assert(s[1].created < s[0].created);
                } else {
                    assert(s[0].created < s[1].created);
                }
            }
        }
    }
}

} // verus!
