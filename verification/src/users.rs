//! Reading the platform's per-user data: extracting a user's display name
//! from their local configuration text.
//!
//! The display name stands in the file as a quoted value after the quoted
//! key `PersonaName`, separated by whitespace, with the closing quote
//! followed by a line break. The earliest such occurrence wins, its value
//! is the shortest that a following quote-and-line-break allows (so it may
//! itself contain quotes but never a line feed), and escaped quotes in it
//! are unescaped.

use vstd::prelude::*;

use crate::json::{match_lit, spec_match_lit};
use crate::text::{chars_to_string, string_to_chars};

verus! {

/// A read-only view of one platform user, derived from the per-user data
/// directory. Never mutated by this system.
#[derive(Clone, Debug)]
pub struct SteamUser {
    /// The user id: the data directory's own name.
    pub user_id: String,
    /// The display name parsed out of the user's configuration text.
    pub user_name: String,
    /// The path of the user's configuration directory.
    pub userdata_dir: String,
}

/// The whitespace permitted between the key and its value.
pub open spec fn is_pattern_ws(c: char) -> bool {
    c == ' ' || c == '\t' || c == '\n' || c == '\r' || c == '\u{B}' || c == '\u{C}'
}

/// The quoted key that precedes the display name.
pub open spec fn persona_key() -> Seq<char> {
    seq!['"', 'P', 'e', 'r', 's', 'o', 'n', 'a', 'N', 'a', 'm', 'e', '"']
}

pub open spec fn is_line_break(c: char) -> bool {
    c == '\r' || c == '\n'
}

/// The first position at or after `i` holding no pattern whitespace.
pub open spec fn spec_skip_pattern_ws(s: Seq<char>, i: int) -> int
    decreases s.len() - i,
{
    if 0 <= i < s.len() && is_pattern_ws(s[i]) {
        spec_skip_pattern_ws(s, i + 1)
    } else {
        i
    }
}

/// The position of the quote that closes the captured value: the first
/// position at or after `p` holding a quote followed by a line break.
/// A line feed reached first means no close exists (the value can span
/// anything but a line feed).
pub open spec fn spec_scan_capture(s: Seq<char>, p: int) -> Option<int>
    decreases s.len() - p,
{
    if !(0 <= p) || p >= s.len() {
        None
    } else if s[p] == '"' && p + 1 < s.len() && is_line_break(s[p + 1]) {
        Some(p)
    } else if s[p] == '\n' {
        None
    } else {
        spec_scan_capture(s, p + 1)
    }
}

/// The raw captured display name of a key standing exactly at `i`, if the
/// whole pattern matches there.
pub open spec fn spec_persona_at(s: Seq<char>, i: int) -> Option<Seq<char>> {
    if spec_match_lit(s, i, persona_key()) {
        let w = spec_skip_pattern_ws(s, i + persona_key().len());
        if w < s.len() && s[w] == '"' && w + 1 < s.len() && s[w + 1] != '\n' {
            match spec_scan_capture(s, w + 2) {
                Some(e) => Some(s.subrange(w + 1, e)),
                None => None,
            }
        } else {
            None
        }
    } else {
        None
    }
}

/// The raw captured display name of the earliest matching key at or after
/// `i`.
pub open spec fn spec_persona_search(s: Seq<char>, i: int) -> Option<Seq<char>>
    decreases s.len() - i,
{
    if !(0 <= i) || i >= s.len() {
        None
    } else {
        match spec_persona_at(s, i) {
            Some(c) => Some(c),
            None => spec_persona_search(s, i + 1),
        }
    }
}

/// The captured value with every escaped quote replaced by a bare quote.
pub open spec fn spec_unescape_quotes(s: Seq<char>) -> Seq<char>
    decreases s.len(),
{
    if s.len() == 0 {
        Seq::empty()
    } else if s.len() >= 2 && s[0] == '\\' && s[1] == '"' {
        seq!['"'] + spec_unescape_quotes(s.skip(2))
    } else {
        seq![s[0]] + spec_unescape_quotes(s.skip(1))
    }
}

fn skip_pattern_ws(s: &Vec<char>, i: usize) -> (r: usize)
    requires
        i <= s@.len(),
    ensures
        r as int == spec_skip_pattern_ws(s@, i as int),
        i <= r <= s@.len(),
{
    let mut r = i;
    while r < s.len() && (s[r] == ' ' || s[r] == '\t' || s[r] == '\n' || s[r] == '\r' || s[r]
        == '\u{B}' || s[r] == '\u{C}')
        invariant
            i <= r <= s@.len(),
            spec_skip_pattern_ws(s@, i as int) == spec_skip_pattern_ws(s@, r as int),
        decreases s@.len() - r,
    {
        r = r + 1;
    }
    r
}

fn scan_capture(s: &Vec<char>, p: usize) -> (r: Option<usize>)
    requires
        p <= s@.len(),
    ensures
        (r is Some) == (spec_scan_capture(s@, p as int) is Some),
        r matches Some(e) ==> spec_scan_capture(s@, p as int) == Some(e as int) && p <= e
            < s@.len(),
{
    let mut q = p;
    while q < s.len()
        invariant
            p <= q <= s@.len(),
            spec_scan_capture(s@, p as int) == spec_scan_capture(s@, q as int),
        decreases s@.len() - q,
    {
        if s[q] == '"' && q + 1 < s.len() && (s[q + 1] == '\r' || s[q + 1] == '\n') {
            return Some(q);
        }
        if s[q] == '\n' {
            return None;
        }
        q = q + 1;
    }
    None
}

/// Replaces each escaped quote in the captured value with a bare quote.
pub fn unescape_quotes(s: &Vec<char>) -> (r: Vec<char>)
    ensures
        r@ == spec_unescape_quotes(s@),
{
    let mut out: Vec<char> = Vec::new();
    let mut i: usize = 0;
    proof {
        assert(s@.skip(0) =~= s@);
    }
    while i < s.len()
        invariant
            i <= s@.len(),
            spec_unescape_quotes(s@) =~= out@ + spec_unescape_quotes(s@.skip(i as int)),
        decreases s@.len() - i,
    {
        if i + 1 < s.len() && s[i] == '\\' && s[i + 1] == '"' {
            out.push('"');
            proof {
                assert(s@.skip(i as int).skip(2) =~= s@.skip(i + 2));
                assert(spec_unescape_quotes(s@) =~= out@ + spec_unescape_quotes(s@.skip(i + 2)));
            }
            i = i + 2;
        } else {
            out.push(s[i]);
            proof {
                assert(s@.skip(i as int).skip(1) =~= s@.skip(i + 1));
                assert(spec_unescape_quotes(s@) =~= out@ + spec_unescape_quotes(s@.skip(i + 1)));
            }
            i = i + 1;
        }
    }
    proof {
        assert(s@.skip(s@.len() as int) =~= Seq::<char>::empty());
        assert(out@ =~= spec_unescape_quotes(s@));
    }
    out
}

fn persona_at(s: &Vec<char>, i: usize) -> (r: Option<Vec<char>>)
    requires
        i <= s@.len(),
    ensures
        (r is Some) == (spec_persona_at(s@, i as int) is Some),
        r matches Some(c) ==> (spec_persona_at(s@, i as int) matches Some(sc) && c@ == sc),
{
    let key: Vec<char> = vec!['"', 'P', 'e', 'r', 's', 'o', 'n', 'a', 'N', 'a', 'm', 'e', '"'];
    proof {
        assert(key@ =~= persona_key());
    }
    if !match_lit(s, i, &key) {
        return None;
    }
    proof {
        assert(s@.len() == s.len());
    }
    let w = skip_pattern_ws(s, i + key.len());
    if w >= s.len() || s[w] != '"' {
        return None;
    }
    if w + 1 >= s.len() || s[w + 1] == '\n' {
        return None;
    }
    match scan_capture(s, w + 2) {
        Some(e) => {
            let mut c: Vec<char> = Vec::new();
            let mut j = w + 1;
            while j < e
                invariant
                    w + 1 <= j <= e,
                    e < s@.len(),
                    c@ =~= s@.subrange((w + 1) as int, j as int),
                decreases e - j,
            {
                c.push(s[j]);
                proof {
                    assert(c@ =~= s@.subrange((w + 1) as int, j + 1));
                }
                j = j + 1;
            }
            Some(c)
        },
        None => None,
    }
}

/// Finds the display name in a user's configuration text: the earliest
/// occurrence of the pattern, its raw value unescaped. Nothing is found
/// when no occurrence matches; the caller treats that as a malformed file.
pub fn parse_persona_name(contents: &str) -> (r: Option<String>)
    ensures
        spec_persona_search(contents@, 0) matches Some(c) ==> (r matches Some(nm) && nm@
            == spec_unescape_quotes(c)),
        spec_persona_search(contents@, 0) is None ==> r is None,
{
    let chars = string_to_chars(contents);
    let mut i: usize = 0;
    while i < chars.len()
        invariant
            chars@ == contents@,
            i <= chars@.len(),
            spec_persona_search(contents@, 0) == spec_persona_search(contents@, i as int),
        decreases chars@.len() - i,
    {
        match persona_at(&chars, i) {
            Some(c) => {
                let un = unescape_quotes(&c);
                return Some(chars_to_string(&un));
            },
            None => {},
        }
        i = i + 1;
    }
    None
}

} // verus!
