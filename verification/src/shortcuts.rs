//! Editing the platform's non-Steam-game shortcut list.
//!
//! The external shortcut file is a tree of keyed values: string properties,
//! four-byte integer properties, and named lists. The top-level value is a
//! list of entries; each entry is itself a list whose name is its positional
//! index rendered in decimal, kept contiguous from zero. An entry is
//! identified by its quoted absolute executable path, never by its index.
//! Shape violations (a non-list where a list must stand, a non-numeric
//! index) are programming-invariant violations of the external file and are
//! surfaced as errors, never silently repaired.

use vstd::prelude::*;

use crate::numbers::{
    all_dec_digits, dec_value, parse_u64_dec, spec_dec_bytes, u64_to_dec_bytes,
};

verus! {

/// One keyed value of the shortcut file.
#[derive(Debug)]
pub enum ShortcutValue {
    /// A named string property (name, value), both raw byte strings.
    StringProp(Vec<u8>, Vec<u8>),
    /// A named four-byte integer property, held as its raw four bytes
    /// (little-endian).
    Bytes4Prop(Vec<u8>, Vec<u8>),
    /// A named list of nested values.
    List(Vec<u8>, Vec<ShortcutValue>),
}

/// The mathematical shape of a `ShortcutValue`.
#[verifier::ext_equal]
pub enum SpecShortcutValue {
    StringProp(Seq<u8>, Seq<u8>),
    Bytes4Prop(Seq<u8>, Seq<u8>),
    List(Seq<u8>, Seq<SpecShortcutValue>),
}

impl View for ShortcutValue {
    type V = SpecShortcutValue;

    open spec fn view(&self) -> SpecShortcutValue
        decreases self,
    {
        match self {
            ShortcutValue::StringProp(n, v) => SpecShortcutValue::StringProp(n@, v@),
            ShortcutValue::Bytes4Prop(n, v) => SpecShortcutValue::Bytes4Prop(n@, v@),
            ShortcutValue::List(n, items) => SpecShortcutValue::List(
                n@,
                Seq::new(
                    items@.len(),
                    |i: int|
                        if 0 <= i < items@.len() {
                            items@[i]@
                        } else {
                            SpecShortcutValue::StringProp(Seq::empty(), Seq::empty())
                        },
                ),
            ),
        }
    }
}

/// The shapes of each element of a sequence of shortcut values.
pub open spec fn views_of(s: Seq<ShortcutValue>) -> Seq<SpecShortcutValue> {
    Seq::new(s.len(), |i: int| s[i]@)
}

/// Shape violations of the external shortcut file.
#[derive(Clone, Copy, PartialEq, Eq, Debug)]
pub enum ShortcutError {
    /// The top-level shortcuts value is not a list.
    NotAList,
    /// The last entry of the list is not itself a list.
    EntryNotAList,
    /// The last entry's name is not a decimal index a successor of which
    /// fits in sixty-four bits.
    BadIndex,
}

/// `s` wrapped in double quotes, as the shortcut list stores paths.
pub open spec fn spec_quoted_bytes(s: Seq<u8>) -> Seq<u8> {
    seq![0x22u8] + s + seq![0x22u8]
}

/// Wraps a path's bytes in double quotes.
pub fn quote_bytes(p: &Vec<u8>) -> (r: Vec<u8>)
    ensures
        r@ == spec_quoted_bytes(p@),
{
    let mut r: Vec<u8> = Vec::new();
    r.push(0x22);
    r.extend_from_slice(p.as_slice());
    r.push(0x22);
    proof {
        assert(r@ =~= spec_quoted_bytes(p@));
    }
    r
}

/// The property name that identifies an entry: "exe".
pub open spec fn prop_exe() -> Seq<u8> {
    seq![0x65u8, 0x78u8, 0x65u8]
}

/// Whether `p` is a string property named "exe" whose value is `target`.
pub open spec fn is_exe_prop(p: SpecShortcutValue, target: Seq<u8>) -> bool {
    p matches SpecShortcutValue::StringProp(pn, pv) && pn == prop_exe() && pv == target
}

/// Whether entry `e` is a list holding an "exe" property equal to `target`.
pub open spec fn entry_matches_exe(e: SpecShortcutValue, target: Seq<u8>) -> bool {
    e matches SpecShortcutValue::List(_n, props) && exists|i: int|
        0 <= i < props.len() && #[trigger] is_exe_prop(props[i], target)
}

/// The entries that survive removal of `target`, in their original order.
pub open spec fn spec_kept_entries(entries: Seq<SpecShortcutValue>, target: Seq<u8>) -> Seq<
    SpecShortcutValue,
>
    decreases entries.len(),
{
    if entries.len() == 0 {
        Seq::empty()
    } else {
        let rest = spec_kept_entries(entries.drop_last(), target);
        if entry_matches_exe(entries.last(), target) {
            rest
        } else {
            rest.push(entries.last())
        }
    }
}

/// Entry `e` renamed to positional index `idx`; values that are not lists
/// are left untouched, as the renumbering pass skips them.
pub open spec fn spec_renumbered(e: SpecShortcutValue, idx: nat) -> SpecShortcutValue {
    match e {
        SpecShortcutValue::List(_n, props) => SpecShortcutValue::List(spec_dec_bytes(idx), props),
        other => other,
    }
}

/// All entries renamed to their position, keeping order.
pub open spec fn spec_renumber(entries: Seq<SpecShortcutValue>) -> Seq<SpecShortcutValue> {
    Seq::new(entries.len(), |i: int| spec_renumbered(entries[i], i as nat))
}

/// What the entry list becomes when `target` is removed: the surviving
/// entries, densely renumbered from zero in their original relative order.
pub open spec fn spec_remove_result(entries: Seq<SpecShortcutValue>, target: Seq<u8>) -> Seq<
    SpecShortcutValue,
> {
    spec_renumber(spec_kept_entries(entries, target))
}

fn is_exe_prop_exec(p: &ShortcutValue, target: &Vec<u8>) -> (r: bool)
    ensures
        r == is_exe_prop(p@, target@),
{
    let exe: Vec<u8> = vec![0x65u8, 0x78u8, 0x65u8];
    proof {
        assert(exe@ =~= prop_exe());
    }
    match p {
        ShortcutValue::StringProp(pn, pv) => {
            let name_ok = pn == &exe;
            let val_ok = pv == target;
            proof {
                assert(name_ok == (pn@ =~= exe@));
                assert(val_ok == (pv@ =~= target@));
            }
            name_ok && val_ok
        },
        _ => false,
    }
}

fn entry_matches_exe_exec(e: &ShortcutValue, target: &Vec<u8>) -> (r: bool)
    ensures
        r == entry_matches_exe(e@, target@),
{
    match e {
        ShortcutValue::List(_n, props) => {
            let mut i: usize = 0;
            while i < props.len()
                invariant
                    i <= props@.len(),
                    e@ matches SpecShortcutValue::List(n2, pv) && pv =~= views_of(props@),
                    forall|j: int| 0 <= j < i ==> !is_exe_prop(#[trigger] views_of(props@)[j], target@),
                decreases props@.len() - i,
            {
                if is_exe_prop_exec(&props[i], target) {
                    proof {
                        assert(is_exe_prop(views_of(props@)[i as int], target@));
                    }
                    return true;
                }
                i = i + 1;
            }
            false
        },
        _ => false,
    }
}

/// Removes every entry whose "exe" property equals the quoted path of
/// `exe_path`, renumbers the surviving entries densely from zero, and
/// returns how many entries were removed. A top-level value that is not a
/// list is left untouched and reported as a shape violation.
pub fn remove_roblox_launcher(shortcuts: &mut ShortcutValue, exe_path: &Vec<u8>) -> (r: Result<
    usize,
    ShortcutError,
>)
    ensures
        old(shortcuts)@ matches SpecShortcutValue::List(name, entries) ==> {
            &&& r matches Ok(count)
            &&& final(shortcuts)@ == SpecShortcutValue::List(
                name,
                spec_remove_result(entries, spec_quoted_bytes(exe_path@)),
            )
            &&& count == entries.len() - spec_kept_entries(
                entries,
                spec_quoted_bytes(exe_path@),
            ).len()
        },
        !(old(shortcuts)@ is List) ==> (r matches Err(e) && e == ShortcutError::NotAList
            && *final(shortcuts) == *old(shortcuts)),
{
    let target = quote_bytes(exe_path);
    let mut work = ShortcutValue::List(Vec::new(), Vec::new());
    core::mem::swap(&mut work, shortcuts);
    match work {
        ShortcutValue::List(name, mut entries) => {
            let ghost name_v: Seq<u8> = name@;
            let ghost orig: Seq<ShortcutValue> = entries@;
            let ghost orig_v: Seq<SpecShortcutValue> = views_of(orig);
            proof {
                assert(old(shortcuts)@ matches SpecShortcutValue::List(nn, ss) && nn == name_v
                    && ss =~= orig_v);
            }
            let total = entries.len();
            let mut kept: Vec<ShortcutValue> = Vec::new();
            let mut removed: usize = 0;
            let mut idx: usize = 0;
            while entries.len() > 0
                invariant
                    idx + entries@.len() == orig.len(),
                    orig.len() == total,
                    entries@ =~= orig.skip(idx as int),
                    orig_v == views_of(orig),
                    views_of(kept@) =~= spec_kept_entries(
                        orig_v.take(idx as int),
                        spec_quoted_bytes(exe_path@),
                    ),
                    target@ == spec_quoted_bytes(exe_path@),
                    removed + kept@.len() == idx,
                decreases entries@.len(),
            {
                let e = entries.remove(0);
                proof {
                    assert(orig.skip(idx as int).remove(0) =~= orig.skip(idx + 1));
                    assert(e == orig[idx as int]);
                    assert(orig_v.take(idx + 1).drop_last() =~= orig_v.take(idx as int));
                    assert(orig_v.take(idx + 1).last() == orig_v[idx as int]);
                    assert(orig_v[idx as int] == e@);
                }
                if entry_matches_exe_exec(&e, &target) {
                    removed = removed + 1;
                    proof {
                        assert(views_of(kept@) =~= spec_kept_entries(
                            orig_v.take(idx + 1),
                            spec_quoted_bytes(exe_path@),
                        ));
                    }
                } else {
                    kept.push(e);
                    proof {
                        assert(views_of(kept@) =~= spec_kept_entries(
                            orig_v.take(idx as int),
                            spec_quoted_bytes(exe_path@),
                        ).push(e@));
                        assert(views_of(kept@) =~= spec_kept_entries(
                            orig_v.take(idx + 1),
                            spec_quoted_bytes(exe_path@),
                        ));
                    }
                }
                idx = idx + 1;
            }
            proof {
                assert(orig_v.take(idx as int) =~= orig_v);
            }
            let ghost kept_orig: Seq<ShortcutValue> = kept@;
            let ghost kept_v: Seq<SpecShortcutValue> = views_of(kept_orig);
            let kept_total = kept.len();
            let mut out: Vec<ShortcutValue> = Vec::new();
            let mut j: usize = 0;
            while kept.len() > 0
                invariant
                    j + kept@.len() == kept_orig.len(),
                    kept_orig.len() == kept_total,
                    kept@ =~= kept_orig.skip(j as int),
                    kept_v == views_of(kept_orig),
                    views_of(out@) =~= spec_renumber(kept_v).take(j as int),
                decreases kept@.len(),
            {
                let e = kept.remove(0);
                let ghost e_v: SpecShortcutValue = e@;
                proof {
                    assert(kept_orig.skip(j as int).remove(0) =~= kept_orig.skip(j + 1));
                    assert(e == kept_orig[j as int]);
                    assert(kept_v[j as int] == e_v);
                }
                match e {
                    ShortcutValue::List(_n, props) => {
                        let idx_bytes = u64_to_dec_bytes(j as u64);
                        let renamed = ShortcutValue::List(idx_bytes, props);
                        proof {
                            assert(renamed@ matches SpecShortcutValue::List(nn, ss) && nn
                                == spec_dec_bytes(j as nat) && ss == e_v->List_1);
                            assert(renamed@ == spec_renumbered(e_v, j as nat));
                        }
                        out.push(renamed);
                    },
                    other => {
                        proof {
                            assert(other@ == e_v);
                            assert(other@ == spec_renumbered(e_v, j as nat));
                        }
                        out.push(other);
                    },
                }
                proof {
                    assert(spec_renumber(kept_v).take(j + 1).drop_last() =~= spec_renumber(
                        kept_v,
                    ).take(j as int));
                    assert(views_of(out@) =~= spec_renumber(kept_v).take(j + 1));
                }
                j = j + 1;
            }
            proof {
                assert(spec_renumber(kept_v).take(j as int) =~= spec_renumber(kept_v));
            }
            let count = removed;
            let ghost out_v: Seq<SpecShortcutValue> = views_of(out@);
            let result_value = ShortcutValue::List(name, out);
            proof {
                assert(result_value@ matches SpecShortcutValue::List(nn, ss) && nn == name_v && ss
                    =~= out_v);
                assert(result_value@ == SpecShortcutValue::List(
                    name_v,
                    spec_remove_result(orig_v, spec_quoted_bytes(exe_path@)),
                ));
            }
            *shortcuts = result_value;
            Ok(count)
        },
        other => {
            *shortcuts = other;
            Err(ShortcutError::NotAList)
        },
    }
}

/// The property names of a freshly added shortcut entry.
pub open spec fn prop_app_name() -> Seq<u8> {
    seq![0x41u8, 0x70u8, 0x70u8, 0x4eu8, 0x61u8, 0x6du8, 0x65u8]
}

pub open spec fn prop_start_dir() -> Seq<u8> {
    seq![0x53u8, 0x74u8, 0x61u8, 0x72u8, 0x74u8, 0x44u8, 0x69u8, 0x72u8]
}

pub open spec fn prop_icon() -> Seq<u8> {
    seq![0x69u8, 0x63u8, 0x6fu8, 0x6eu8]
}

pub open spec fn prop_shortcut_path() -> Seq<u8> {
    seq![0x53u8, 0x68u8, 0x6fu8, 0x72u8, 0x74u8, 0x63u8, 0x75u8, 0x74u8, 0x50u8, 0x61u8, 0x74u8, 0x68u8]
}

pub open spec fn prop_launch_options() -> Seq<u8> {
    seq![0x4cu8, 0x61u8, 0x75u8, 0x6eu8, 0x63u8, 0x68u8, 0x4fu8, 0x70u8, 0x74u8, 0x69u8, 0x6fu8, 0x6eu8, 0x73u8]
}

pub open spec fn prop_is_hidden() -> Seq<u8> {
    seq![0x49u8, 0x73u8, 0x48u8, 0x69u8, 0x64u8, 0x64u8, 0x65u8, 0x6eu8]
}

pub open spec fn prop_allow_desktop_config() -> Seq<u8> {
    seq![
        0x41u8, 0x6cu8, 0x6cu8, 0x6fu8, 0x77u8, 0x44u8, 0x65u8, 0x73u8, 0x6bu8, 0x74u8, 0x6fu8,
        0x70u8, 0x43u8, 0x6fu8, 0x6eu8, 0x66u8, 0x69u8, 0x67u8,
    ]
}

pub open spec fn prop_open_vr() -> Seq<u8> {
    seq![0x4fu8, 0x70u8, 0x65u8, 0x6eu8, 0x56u8, 0x52u8]
}

pub open spec fn prop_last_play_time() -> Seq<u8> {
    seq![0x4cu8, 0x61u8, 0x73u8, 0x74u8, 0x50u8, 0x6cu8, 0x61u8, 0x79u8, 0x54u8, 0x69u8, 0x6du8, 0x65u8]
}

/// The four bytes of an enabled flag.
pub open spec fn flag_on() -> Seq<u8> {
    seq![0x01u8, 0x00u8, 0x00u8, 0x00u8]
}

/// The four bytes of a disabled flag (or a zero timestamp).
pub open spec fn flag_off() -> Seq<u8> {
    seq![0x00u8, 0x00u8, 0x00u8, 0x00u8]
}

pub open spec fn prop_tags() -> Seq<u8> {
    seq![0x74u8, 0x61u8, 0x67u8, 0x73u8]
}

/// The entry appended for the launcher: the display name, the quoted
/// executable and start-directory paths, empty cosmetic fields, fixed flags
/// (hidden, desktop configuration allowed, no VR, never played), and an
/// empty tag list.
pub open spec fn spec_new_entry(
    idx_bytes: Seq<u8>,
    quoted_exe: Seq<u8>,
    quoted_start: Seq<u8>,
    app_name: Seq<u8>,
) -> SpecShortcutValue {
    SpecShortcutValue::List(
        idx_bytes,
        seq![
            SpecShortcutValue::StringProp(prop_app_name(), app_name),
            SpecShortcutValue::StringProp(prop_exe(), quoted_exe),
            SpecShortcutValue::StringProp(prop_start_dir(), quoted_start),
            SpecShortcutValue::StringProp(prop_icon(), Seq::empty()),
            SpecShortcutValue::StringProp(prop_shortcut_path(), Seq::empty()),
            SpecShortcutValue::StringProp(prop_launch_options(), Seq::empty()),
            SpecShortcutValue::Bytes4Prop(prop_is_hidden(), flag_on()),
            SpecShortcutValue::Bytes4Prop(prop_allow_desktop_config(), flag_on()),
            SpecShortcutValue::Bytes4Prop(prop_open_vr(), flag_off()),
            SpecShortcutValue::Bytes4Prop(prop_last_play_time(), flag_off()),
            SpecShortcutValue::List(prop_tags(), Seq::empty()),
        ],
    )
}

/// The decimal index the next entry gets: one past the last entry's, or
/// zero for an empty list.
pub open spec fn next_index_ok(entries: Seq<SpecShortcutValue>) -> bool {
    entries.len() == 0 || (entries.last() matches SpecShortcutValue::List(lname, _props)
        && lname.len() > 0 && all_dec_digits(lname) && dec_value(lname) < u64::MAX)
}

pub open spec fn spec_next_index(entries: Seq<SpecShortcutValue>) -> nat
    recommends
        next_index_ok(entries),
{
    if entries.len() == 0 {
        0
    } else {
        (dec_value(entries.last()->List_0) + 1) as nat
    }
}

/// Appends a new launcher entry for `exe_path` (quoted, with `start_dir`
/// as its quoted working directory and `app_name` as its display name),
/// deriving the next positional index from the last entry. Shape
/// violations — a top-level non-list, a last entry that is not a list, or a
/// last-entry name that is not a decimal index with a successor — leave the
/// list untouched and are reported.
pub fn add_roblox_launcher(
    shortcuts: &mut ShortcutValue,
    exe_path: &Vec<u8>,
    start_dir: &Vec<u8>,
    app_name: Vec<u8>,
) -> (r: Result<(), ShortcutError>)
    ensures
        old(shortcuts)@ matches SpecShortcutValue::List(name, entries) ==> {
            &&& next_index_ok(entries) ==> r is Ok && final(shortcuts)@
                == SpecShortcutValue::List(
                name,
                entries.push(
                    spec_new_entry(
                        spec_dec_bytes(spec_next_index(entries)),
                        spec_quoted_bytes(exe_path@),
                        spec_quoted_bytes(start_dir@),
                        app_name@,
                    ),
                ),
            )
            &&& !next_index_ok(entries) ==> {
                &&& *final(shortcuts) == *old(shortcuts)
                &&& r matches Err(e) && e == (if entries.last() is List {
                    ShortcutError::BadIndex
                } else {
                    ShortcutError::EntryNotAList
                })
            }
        },
        !(old(shortcuts)@ is List) ==> (r matches Err(e) && e == ShortcutError::NotAList
            && *final(shortcuts) == *old(shortcuts)),
{
    let mut work = ShortcutValue::List(Vec::new(), Vec::new());
    core::mem::swap(&mut work, shortcuts);
    match work {
        ShortcutValue::List(name, mut entries) => {
            let ghost name_v: Seq<u8> = name@;
            let ghost entries_v: Seq<SpecShortcutValue> = views_of(entries@);
            proof {
                assert(old(shortcuts)@ matches SpecShortcutValue::List(nn, ss) && nn == name_v
                    && ss =~= entries_v);
            }
            let next_idx: u64;
            if entries.len() == 0 {
                next_idx = 0;
                proof {
                    assert(spec_next_index(entries_v) == 0);
                }
            } else {
                let last = &entries[entries.len() - 1];
                proof {
                    assert(last@ == entries_v.last());
                }
                match last {
                    ShortcutValue::List(lname, _props) => {
                        proof {
                            assert(entries_v.last() matches SpecShortcutValue::List(ln, _ps)
                                && ln == lname@);
                        }
                        match parse_u64_dec(lname) {
                            Some(v) => {
                                if v < u64::MAX {
                                    next_idx = v + 1;
                                    proof {
                                        assert(next_idx as nat == spec_next_index(entries_v));
                                    }
                                } else {
                                    proof {
                                        assert(!next_index_ok(entries_v));
                                    }
                                    *shortcuts = ShortcutValue::List(name, entries);
                                    return Err(ShortcutError::BadIndex);
                                }
                            },
                            None => {
                                proof {
                                    assert(!next_index_ok(entries_v));
                                }
                                *shortcuts = ShortcutValue::List(name, entries);
                                return Err(ShortcutError::BadIndex);
                            },
                        }
                    },
                    _ => {
                        proof {
                            assert(!next_index_ok(entries_v));
                            assert(!(entries_v.last() is List));
                        }
                        *shortcuts = ShortcutValue::List(name, entries);
                        return Err(ShortcutError::EntryNotAList);
                    },
                }
            }
            let idx_bytes = u64_to_dec_bytes(next_idx);
            let quoted_exe = quote_bytes(exe_path);
            let quoted_start = quote_bytes(start_dir);
            let mut props: Vec<ShortcutValue> = Vec::new();
            props.push(
                ShortcutValue::StringProp(
                    vec![0x41u8, 0x70u8, 0x70u8, 0x4eu8, 0x61u8, 0x6du8, 0x65u8],
                    app_name,
                ),
            );
            props.push(ShortcutValue::StringProp(vec![0x65u8, 0x78u8, 0x65u8], quoted_exe));
            props.push(
                ShortcutValue::StringProp(
                    vec![0x53u8, 0x74u8, 0x61u8, 0x72u8, 0x74u8, 0x44u8, 0x69u8, 0x72u8],
                    quoted_start,
                ),
            );
            props.push(
                ShortcutValue::StringProp(vec![0x69u8, 0x63u8, 0x6fu8, 0x6eu8], Vec::new()),
            );
            props.push(
                ShortcutValue::StringProp(
                    vec![
                        0x53u8, 0x68u8, 0x6fu8, 0x72u8, 0x74u8, 0x63u8, 0x75u8, 0x74u8, 0x50u8,
                        0x61u8, 0x74u8, 0x68u8,
                    ],
                    Vec::new(),
                ),
            );
            props.push(
                ShortcutValue::StringProp(
                    vec![
                        0x4cu8, 0x61u8, 0x75u8, 0x6eu8, 0x63u8, 0x68u8, 0x4fu8, 0x70u8, 0x74u8,
                        0x69u8, 0x6fu8, 0x6eu8, 0x73u8,
                    ],
                    Vec::new(),
                ),
            );
            props.push(
                ShortcutValue::Bytes4Prop(
                    vec![0x49u8, 0x73u8, 0x48u8, 0x69u8, 0x64u8, 0x64u8, 0x65u8, 0x6eu8],
                    vec![0x01u8, 0x00u8, 0x00u8, 0x00u8],
                ),
            );
            props.push(
                ShortcutValue::Bytes4Prop(
                    vec![
                        0x41u8, 0x6cu8, 0x6cu8, 0x6fu8, 0x77u8, 0x44u8, 0x65u8, 0x73u8, 0x6bu8,
                        0x74u8, 0x6fu8, 0x70u8, 0x43u8, 0x6fu8, 0x6eu8, 0x66u8, 0x69u8, 0x67u8,
                    ],
                    vec![0x01u8, 0x00u8, 0x00u8, 0x00u8],
                ),
            );
            props.push(
                ShortcutValue::Bytes4Prop(
                    vec![0x4fu8, 0x70u8, 0x65u8, 0x6eu8, 0x56u8, 0x52u8],
                    vec![0x00u8, 0x00u8, 0x00u8, 0x00u8],
                ),
            );
            props.push(
                ShortcutValue::Bytes4Prop(
                    vec![
                        0x4cu8, 0x61u8, 0x73u8, 0x74u8, 0x50u8, 0x6cu8, 0x61u8, 0x79u8, 0x54u8,
                        0x69u8, 0x6du8, 0x65u8,
                    ],
                    vec![0x00u8, 0x00u8, 0x00u8, 0x00u8],
                ),
            );
            props.push(
                ShortcutValue::List(vec![0x74u8, 0x61u8, 0x67u8, 0x73u8], Vec::new()),
            );
            let new_entry = ShortcutValue::List(idx_bytes, props);
            let ghost target_entry = spec_new_entry(
                spec_dec_bytes(next_idx as nat),
                spec_quoted_bytes(exe_path@),
                spec_quoted_bytes(start_dir@),
                app_name@,
            );
            proof {
                let ps = views_of(props@);
                let ss = target_entry->List_1;
                assert(ps[0] =~~= ss[0]);
                assert(ps[1] =~~= ss[1]);
                assert(ps[2] =~~= ss[2]);
                assert(ps[3] =~~= ss[3]);
                assert(ps[4] =~~= ss[4]);
                assert(ps[5] =~~= ss[5]);
                assert(ps[6] =~~= ss[6]);
                assert(ps[7] =~~= ss[7]);
                assert(ps[8] =~~= ss[8]);
                assert(ps[9] =~~= ss[9]);
                assert(ps[10] matches SpecShortcutValue::List(tn, ts) && tn =~= prop_tags()
                    && ts =~= Seq::<SpecShortcutValue>::empty());
                assert(ps[10] =~~= ss[10]);
                assert(ps =~~= ss);
                assert(new_entry@ matches SpecShortcutValue::List(nb, p2) && nb == spec_dec_bytes(
                    next_idx as nat,
                ) && p2 =~= ps);
                assert(new_entry@ == target_entry);
            }
            entries.push(new_entry);
            let ghost pushed: Seq<ShortcutValue> = entries@;
            let result_value = ShortcutValue::List(name, entries);
            proof {
                assert(views_of(pushed) =~= entries_v.push(target_entry));
                assert(next_idx as nat == spec_next_index(entries_v));
                assert(result_value@ matches SpecShortcutValue::List(n2, es) && n2 == name_v && es
                    =~= views_of(pushed));
                assert(result_value@ == SpecShortcutValue::List(
                    name_v,
                    entries_v.push(target_entry),
                ));
            }
            *shortcuts = result_value;
            Ok(())
        },
        other => {
            *shortcuts = other;
            Err(ShortcutError::NotAList)
        },
    }
}

} // verus!
