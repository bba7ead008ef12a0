//! Rendering and parsing the configuration's persisted form.
//!
//! The configuration is stored as one object holding three schema
//! fields: the game identifier (a string), the debug flag (a boolean),
//! and the pending arguments (an array of strings). The renderer emits
//! the canonical compact form. The parser accepts the schema fields in
//! any order (each exactly once), tolerates unknown fields with values
//! of any shape, and takes whitespace between tokens and the standard
//! string escapes, `\uXXXX` units and surrogate pairs included.

use vstd::prelude::*;

use crate::config::{Config, ConfigReadError};
use crate::text::{chars_to_string, string_to_chars};

verus! {

/// One lowercase hexadecimal digit.
pub open spec fn hex_digit_lower(d: nat) -> char {
    if d == 0 {
        '0'
    } else if d == 1 {
        '1'
    } else if d == 2 {
        '2'
    } else if d == 3 {
        '3'
    } else if d == 4 {
        '4'
    } else if d == 5 {
        '5'
    } else if d == 6 {
        '6'
    } else if d == 7 {
        '7'
    } else if d == 8 {
        '8'
    } else if d == 9 {
        '9'
    } else if d == 10 {
        'a'
    } else if d == 11 {
        'b'
    } else if d == 12 {
        'c'
    } else if d == 13 {
        'd'
    } else if d == 14 {
        'e'
    } else {
        'f'
    }
}

/// How one character is rendered inside a string literal: quotes and
/// backslashes escaped, control characters as their short escapes or
/// `\u00XX`, and everything else as itself.
pub open spec fn spec_escape_char(c: char) -> Seq<char> {
    if c == '"' {
        seq!['\\', '"']
    } else if c == '\\' {
        seq!['\\', '\\']
    } else if c == '\u{8}' {
        seq!['\\', 'b']
    } else if c == '\u{9}' {
        seq!['\\', 't']
    } else if c == '\u{A}' {
        seq!['\\', 'n']
    } else if c == '\u{C}' {
        seq!['\\', 'f']
    } else if c == '\u{D}' {
        seq!['\\', 'r']
    } else if (c as u32) < 0x20 {
        seq!['\\', 'u', '0', '0', hex_digit_lower((c as u32 / 16) as nat), hex_digit_lower(
            (c as u32 % 16) as nat,
        )]
    } else {
        seq![c]
    }
}

/// A whole string body, escaped character by character.
pub open spec fn spec_escape(s: Seq<char>) -> Seq<char>
    decreases s.len(),
{
    if s.len() == 0 {
        Seq::empty()
    } else {
        spec_escape(s.drop_last()) + spec_escape_char(s.last())
    }
}

/// A string literal: the escaped body in double quotes.
pub open spec fn spec_json_string(s: Seq<char>) -> Seq<char> {
    seq!['"'] + spec_escape(s) + seq!['"']
}

/// The comma-separated renderings of the argument strings.
pub open spec fn spec_json_args(args: Seq<Seq<char>>) -> Seq<char>
    decreases args.len(),
{
    if args.len() == 0 {
        Seq::empty()
    } else if args.len() == 1 {
        spec_json_string(args[0])
    } else {
        spec_json_args(args.drop_last()) + seq![','] + spec_json_string(args.last())
    }
}

pub open spec fn lit_obj_open() -> Seq<char> {
    seq!['{', '"', 's', 't', 'e', 'a', 'm', '_', 'g', 'a', 'm', 'e', 'i', 'd', '"', ':']
}

pub open spec fn lit_debug() -> Seq<char> {
    seq![',', '"', 'd', 'e', 'b', 'u', 'g', '"', ':']
}

pub open spec fn lit_arguments() -> Seq<char> {
    seq![',', '"', 'a', 'r', 'g', 'u', 'm', 'e', 'n', 't', 's', '"', ':', '[']
}

pub open spec fn lit_true() -> Seq<char> {
    seq!['t', 'r', 'u', 'e']
}

pub open spec fn lit_false() -> Seq<char> {
    seq!['f', 'a', 'l', 's', 'e']
}

pub open spec fn lit_obj_close() -> Seq<char> {
    seq![']', '}']
}

/// The canonical rendering of a configuration.
pub open spec fn spec_config_json(gameid: Seq<char>, debug: bool, args: Seq<Seq<char>>) -> Seq<
    char,
> {
    lit_obj_open() + spec_json_string(gameid) + lit_debug() + (if debug {
        lit_true()
    } else {
        lit_false()
    }) + lit_arguments() + spec_json_args(args) + lit_obj_close()
}

fn push_escaped_char(out: &mut Vec<char>, c: char)
    ensures
        final(out)@ == old(out)@ + spec_escape_char(c),
{
    let ghost before = out@;
    if c == '"' {
        out.push('\\');
        out.push('"');
    } else if c == '\\' {
        out.push('\\');
        out.push('\\');
    } else if c == '\u{8}' {
        out.push('\\');
        out.push('b');
    } else if c == '\u{9}' {
        out.push('\\');
        out.push('t');
    } else if c == '\u{A}' {
        out.push('\\');
        out.push('n');
    } else if c == '\u{C}' {
        out.push('\\');
        out.push('f');
    } else if c == '\u{D}' {
        out.push('\\');
        out.push('r');
    } else if (c as u32) < 0x20 {
        out.push('\\');
        out.push('u');
        out.push('0');
        out.push('0');
        let v = c as u32;
        let hi = (v / 16) as u8;
        let lo = (v % 16) as u8;
        out.push(hex_digit_lower_char(hi));
        out.push(hex_digit_lower_char(lo));
    } else {
        out.push(c);
    }
    proof {
        assert(out@ =~= before + spec_escape_char(c));
    }
}

fn hex_digit_lower_char(d: u8) -> (c: char)
    requires
        d < 16,
    ensures
        c == hex_digit_lower(d as nat),
{
    match d {
        0 => '0',
        1 => '1',
        2 => '2',
        3 => '3',
        4 => '4',
        5 => '5',
        6 => '6',
        7 => '7',
        8 => '8',
        9 => '9',
        10 => 'a',
        11 => 'b',
        12 => 'c',
        13 => 'd',
        14 => 'e',
        _ => 'f',
    }
}

fn push_json_string(out: &mut Vec<char>, s: &str)
    ensures
        final(out)@ == old(out)@ + spec_json_string(s@),
{
    let ghost start = out@;
    out.push('"');
    let chars = string_to_chars(s);
    let mut i: usize = 0;
    while i < chars.len()
        invariant
            chars@ == s@,
            i <= s@.len(),
            out@ == start + seq!['"'] + spec_escape(s@.take(i as int)),
        decreases s@.len() - i,
    {
        proof {
            assert(s@.take(i + 1).drop_last() =~= s@.take(i as int));
            assert(s@.take(i + 1).last() == s@[i as int]);
        }
        push_escaped_char(out, chars[i]);
        i = i + 1;
    }
    proof {
        assert(s@.take(s@.len() as int) =~= s@);
    }
    out.push('"');
    proof {
        assert(out@ =~= start + spec_json_string(s@));
    }
}

fn push_literal(out: &mut Vec<char>, lit: &Vec<char>)
    ensures
        final(out)@ == old(out)@ + lit@,
{
    let ghost start = out@;
    let mut i: usize = 0;
    while i < lit.len()
        invariant
            i <= lit@.len(),
            out@ =~= start + lit@.take(i as int),
        decreases lit@.len() - i,
    {
        out.push(lit[i]);
        proof {
            assert(out@ =~= start + lit@.take(i + 1));
        }
        i = i + 1;
    }
    proof {
        assert(lit@.take(lit@.len() as int) =~= lit@);
    }
}

impl Config {
    /// Renders this configuration in its canonical persisted form.
    pub fn to_json_string(&self) -> (r: String)
        ensures
            r@ == spec_config_json(self.steam_gameid@, self.debug, self.arguments.deep_view()),
    {
        let mut out: Vec<char> = Vec::new();
        let open_lit: Vec<char> = vec![
            '{', '"', 's', 't', 'e', 'a', 'm', '_', 'g', 'a', 'm', 'e', 'i', 'd', '"', ':',
        ];
        proof {
            assert(open_lit@ =~= lit_obj_open());
        }
        push_literal(&mut out, &open_lit);
        push_json_string(&mut out, self.steam_gameid.as_str());
        let debug_lit: Vec<char> = vec![',', '"', 'd', 'e', 'b', 'u', 'g', '"', ':'];
        proof {
            assert(debug_lit@ =~= lit_debug());
        }
        push_literal(&mut out, &debug_lit);
        if self.debug {
            let true_lit: Vec<char> = vec!['t', 'r', 'u', 'e'];
            proof {
                assert(true_lit@ =~= lit_true());
            }
            push_literal(&mut out, &true_lit);
        } else {
            let false_lit: Vec<char> = vec!['f', 'a', 'l', 's', 'e'];
            proof {
                assert(false_lit@ =~= lit_false());
            }
            push_literal(&mut out, &false_lit);
        }
        let args_lit: Vec<char> = vec![
            ',', '"', 'a', 'r', 'g', 'u', 'm', 'e', 'n', 't', 's', '"', ':', '[',
        ];
        proof {
            assert(args_lit@ =~= lit_arguments());
        }
        push_literal(&mut out, &args_lit);
        let ghost head = out@;
        let mut i: usize = 0;
        while i < self.arguments.len()
            invariant
                i <= self.arguments@.len(),
                out@ == head + spec_json_args(self.arguments.deep_view().take(i as int)),
            decreases self.arguments@.len() - i,
        {
            proof {
                assert(self.arguments.deep_view().take(i + 1).drop_last()
                    =~= self.arguments.deep_view().take(i as int));
                assert(self.arguments.deep_view().take(i + 1).last()
                    == self.arguments.deep_view()[i as int]);
                assert(self.arguments.deep_view()[i as int] == self.arguments@[i as int]@);
            }
            if i > 0 {
                out.push(',');
            }
            push_json_string(&mut out, self.arguments[i].as_str());
            i = i + 1;
        }
        proof {
            assert(self.arguments.deep_view().take(self.arguments@.len() as int)
                =~= self.arguments.deep_view());
        }
        let close_lit: Vec<char> = vec![']', '}'];
        proof {
            assert(close_lit@ =~= lit_obj_close());
        }
        push_literal(&mut out, &close_lit);
        proof {
            assert(out@ =~= spec_config_json(
                self.steam_gameid@,
                self.debug,
                self.arguments.deep_view(),
            ));
        }
        chars_to_string(&out)
    }
}

/// The whitespace the parser accepts between tokens.
pub open spec fn is_json_ws(c: char) -> bool {
    c == ' ' || c == '\t' || c == '\n' || c == '\r'
}

/// The first position at or after `i` holding no whitespace.
pub open spec fn spec_skip_ws(s: Seq<char>, i: int) -> int
    decreases s.len() - i,
{
    if 0 <= i < s.len() && is_json_ws(s[i]) {
        spec_skip_ws(s, i + 1)
    } else {
        i
    }
}

proof fn lemma_skip_ws_bounds(s: Seq<char>, i: int)
    requires
        0 <= i <= s.len(),
    ensures
        i <= spec_skip_ws(s, i) <= s.len(),
    decreases s.len() - i,
{
    if i < s.len() && is_json_ws(s[i]) {
        lemma_skip_ws_bounds(s, i + 1);
    }
}

pub open spec fn is_hex_char(c: char) -> bool {
    0x30 <= c as u32 <= 0x39 || 0x61 <= c as u32 <= 0x66 || 0x41 <= c as u32 <= 0x46
}

pub open spec fn hex_char_val(c: char) -> nat {
    if 0x30 <= c as u32 <= 0x39 {
        (c as u32 - 0x30) as nat
    } else if 0x61 <= c as u32 <= 0x66 {
        (c as u32 - 0x57) as nat
    } else if 0x41 <= c as u32 <= 0x46 {
        (c as u32 - 0x37) as nat
    } else {
        0
    }
}

/// The escapes of one character each.
pub open spec fn is_simple_escape(e: char) -> bool {
    e == '"' || e == '\\' || e == '/' || e == 'b' || e == 'f' || e == 'n' || e == 'r' || e == 't'
}

pub open spec fn simple_unescape(e: char) -> char {
    if e == 'b' {
        '\u{8}'
    } else if e == 't' {
        '\u{9}'
    } else if e == 'n' {
        '\u{A}'
    } else if e == 'f' {
        '\u{C}'
    } else if e == 'r' {
        '\u{D}'
    } else {
        e
    }
}

/// Four hexadecimal digits standing at `i`.
pub open spec fn spec_hex4_at(s: Seq<char>, i: int) -> bool {
    i + 4 <= s.len() && 0 <= i && is_hex_char(s[i]) && is_hex_char(s[i + 1]) && is_hex_char(
        s[i + 2],
    ) && is_hex_char(s[i + 3])
}

/// Their value.
pub open spec fn spec_hex4_val(s: Seq<char>, i: int) -> nat {
    ((hex_char_val(s[i]) * 16 + hex_char_val(s[i + 1])) * 16 + hex_char_val(s[i + 2])) * 16
        + hex_char_val(s[i + 3])
}

/// Whether a well-formed `\uXXXX` escape stands at `i` (the backslash):
/// four hexadecimal digits naming a scalar value, or a surrogate pair of
/// two such units.
pub open spec fn u_escape_ok(s: Seq<char>, i: int) -> bool {
    spec_hex4_at(s, i + 2) && {
        let v = spec_hex4_val(s, i + 2);
        if 0xD800 <= v < 0xDC00 {
            i + 12 <= s.len() && s[i + 6] == '\\' && s[i + 7] == 'u' && spec_hex4_at(s, i + 8)
                && 0xDC00 <= spec_hex4_val(s, i + 8) < 0xE000
        } else {
            !(0xDC00 <= v < 0xE000)
        }
    }
}

/// The position after the escape.
pub open spec fn u_escape_end(s: Seq<char>, i: int) -> int {
    if 0xD800 <= spec_hex4_val(s, i + 2) < 0xDC00 {
        i + 12
    } else {
        i + 6
    }
}

/// The character the escape denotes.
pub open spec fn u_escape_char(s: Seq<char>, i: int) -> char {
    let v = spec_hex4_val(s, i + 2);
    if 0xD800 <= v < 0xDC00 {
        (0x10000 + (v - 0xD800) * 0x400 + (spec_hex4_val(s, i + 8) - 0xDC00)) as char
    } else {
        v as char
    }
}

/// Parses a string body from position `i` (just past the opening quote) up
/// to and including the closing quote: the unescaped contents and the
/// position after the quote. Unescaped control characters, bad escapes and
/// unterminated strings give nothing.
pub open spec fn spec_parse_string_body(s: Seq<char>, i: int) -> Option<(Seq<char>, int)>
    decreases s.len() - i,
{
    if !(0 <= i < s.len()) {
        None
    } else if s[i] == '"' {
        Some((Seq::empty(), i + 1))
    } else if s[i] == '\\' {
        if i + 1 < s.len() && is_simple_escape(s[i + 1]) {
            match spec_parse_string_body(s, i + 2) {
                Some(p) => Some((seq![simple_unescape(s[i + 1])] + p.0, p.1)),
                None => None,
            }
        } else if i + 1 < s.len() && s[i + 1] == 'u' && u_escape_ok(s, i) {
            match spec_parse_string_body(s, u_escape_end(s, i)) {
                Some(p) => Some((seq![u_escape_char(s, i)] + p.0, p.1)),
                None => None,
            }
        } else {
            None
        }
    } else if (s[i] as u32) < 0x20 {
        None
    } else {
        match spec_parse_string_body(s, i + 1) {
            Some(p) => Some((seq![s[i]] + p.0, p.1)),
            None => None,
        }
    }
}

proof fn lemma_string_body_bounds(s: Seq<char>, i: int)
    requires
        0 <= i <= s.len(),
    ensures
        spec_parse_string_body(s, i) matches Some(p) ==> i < p.1 <= s.len(),
    decreases s.len() - i,
{
    if 0 <= i < s.len() {
        if s[i] == '\\' {
            if i + 1 < s.len() && is_simple_escape(s[i + 1]) {
                lemma_string_body_bounds(s, i + 2);
            } else if i + 1 < s.len() && s[i + 1] == 'u' && u_escape_ok(s, i) {
                lemma_string_body_bounds(s, u_escape_end(s, i));
            }
        } else {
            lemma_string_body_bounds(s, i + 1);
        }
    }
}

/// Parses a whole string literal starting at `i`.
pub open spec fn spec_parse_json_string(s: Seq<char>, i: int) -> Option<(Seq<char>, int)> {
    if 0 <= i < s.len() && s[i] == '"' {
        spec_parse_string_body(s, i + 1)
    } else {
        None
    }
}

proof fn lemma_json_string_bounds(s: Seq<char>, i: int)
    requires
        0 <= i <= s.len(),
    ensures
        spec_parse_json_string(s, i) matches Some(p) ==> i < p.1 <= s.len(),
{
    if 0 <= i < s.len() && s[i] == '"' {
        lemma_string_body_bounds(s, i + 1);
    }
}

/// Whether `lit` stands verbatim at position `i`.
pub open spec fn spec_match_lit(s: Seq<char>, i: int, lit: Seq<char>) -> bool {
    0 <= i && i + lit.len() <= s.len() && s.subrange(i, i + lit.len()) == lit
}

/// Parses a boolean literal at `i`.
pub open spec fn spec_parse_bool(s: Seq<char>, i: int) -> Option<(bool, int)> {
    if spec_match_lit(s, i, lit_true()) {
        Some((true, i + 4))
    } else if spec_match_lit(s, i, lit_false()) {
        Some((false, i + 5))
    } else {
        None
    }
}

/// Parses the string elements of a nonempty array from `i` (at the first
/// element's opening quote) through the closing bracket.
pub open spec fn spec_parse_args_items(s: Seq<char>, i: int) -> Option<(Seq<Seq<char>>, int)>
    decreases s.len() - i
    via spec_parse_args_items_dec
{
    if !(0 <= i <= s.len()) {
        None
    } else {
        match spec_parse_json_string(s, i) {
            None => None,
            Some(p) => {
                let k = spec_skip_ws(s, p.1);
                if k < s.len() && s[k] == ',' {
                    let m = spec_skip_ws(s, k + 1);
                    match spec_parse_args_items(s, m) {
                        Some(q) => Some((seq![p.0] + q.0, q.1)),
                        None => None,
                    }
                } else if k < s.len() && s[k] == ']' {
                    Some((seq![p.0], k + 1))
                } else {
                    None
                }
            },
        }
    }
}

#[via_fn]
proof fn spec_parse_args_items_dec(s: Seq<char>, i: int) {
    if 0 <= i <= s.len() {
        lemma_json_string_bounds(s, i);
        match spec_parse_json_string(s, i) {
            None => {},
            Some(p) => {
                lemma_skip_ws_bounds(s, p.1);
                let k = spec_skip_ws(s, p.1);
                if k < s.len() && s[k] == ',' {
                    lemma_skip_ws_bounds(s, k + 1);
                }
            },
        }
    }
}

/// Parses the arguments array at `i`.
pub open spec fn spec_parse_args(s: Seq<char>, i: int) -> Option<(Seq<Seq<char>>, int)> {
    if 0 <= i < s.len() && s[i] == '[' {
        let j = spec_skip_ws(s, i + 1);
        if j < s.len() && s[j] == ']' {
            Some((Seq::empty(), j + 1))
        } else {
            spec_parse_args_items(s, j)
        }
    } else {
        None
    }
}

pub open spec fn lit_null() -> Seq<char> {
    seq!['n', 'u', 'l', 'l']
}

/// A decimal digit.
pub open spec fn is_digit_char(c: char) -> bool {
    0x30 <= c as u32 <= 0x39
}

/// The first position at or after `i` holding no digit.
pub open spec fn spec_skip_digits(s: Seq<char>, i: int) -> int
    decreases s.len() - i,
{
    if 0 <= i < s.len() && is_digit_char(s[i]) {
        spec_skip_digits(s, i + 1)
    } else {
        i
    }
}

proof fn lemma_skip_digits_bounds(s: Seq<char>, i: int)
    requires
        0 <= i <= s.len(),
    ensures
        i <= spec_skip_digits(s, i) <= s.len(),
    decreases s.len() - i,
{
    if i < s.len() && is_digit_char(s[i]) {
        lemma_skip_digits_bounds(s, i + 1);
    }
}

/// The position after a number token standing at `i`, if one does: an
/// optional minus, an integer part without leading zeros, an optional
/// fraction and an optional exponent.
pub open spec fn spec_skip_number(s: Seq<char>, i: int) -> Option<int> {
    if !(0 <= i) {
        None
    } else {
        let p = if i < s.len() && s[i] == '-' {
            i + 1
        } else {
            i
        };
        if !(p < s.len() && is_digit_char(s[p])) {
            None
        } else {
            let q = if s[p] == '0' {
                p + 1
            } else {
                spec_skip_digits(s, p)
            };
            let r = if q < s.len() && s[q] == '.' {
                if q + 1 < s.len() && is_digit_char(s[q + 1]) {
                    spec_skip_digits(s, q + 1)
                } else {
                    -1
                }
            } else {
                q
            };
            if r < 0 {
                None
            } else if r < s.len() && (s[r] == 'e' || s[r] == 'E') {
                let t = if r + 1 < s.len() && (s[r + 1] == '+' || s[r + 1] == '-') {
                    r + 2
                } else {
                    r + 1
                };
                if t < s.len() && is_digit_char(s[t]) {
                    Some(spec_skip_digits(s, t))
                } else {
                    None
                }
            } else {
                Some(r)
            }
        }
    }
}

/// The position after any value standing at `i`: a string, a number, a
/// boolean, null, an array or an object of further values.
/// The position after a scalar value at `i`: a string, boolean, null or
/// number.
pub open spec fn spec_skip_atom(s: Seq<char>, i: int) -> Option<int> {
    if !(0 <= i < s.len()) {
        None
    } else if s[i] == '"' {
        match spec_parse_json_string(s, i) {
            Some(p) => Some(p.1),
            None => None,
        }
    } else if spec_match_lit(s, i, lit_true()) {
        Some(i + 4)
    } else if spec_match_lit(s, i, lit_false()) {
        Some(i + 5)
    } else if spec_match_lit(s, i, lit_null()) {
        Some(i + 4)
    } else if s[i] == '-' || is_digit_char(s[i]) {
        spec_skip_number(s, i)
    } else {
        None
    }
}

/// The position after any value standing at `i`: a scalar, or an array or
/// object of further values.
pub open spec fn spec_skip_value(s: Seq<char>, i: int) -> Option<int>
    decreases s.len() - i, 2int,
{
    if !(0 <= i < s.len()) {
        None
    } else if s[i] == '[' {
        let j = spec_skip_ws(s, i + 1);
        if j < s.len() && s[j] == ']' {
            Some(j + 1)
        } else if i < j && j <= s.len() {
            spec_skip_array_items(s, j)
        } else {
            None
        }
    } else if s[i] == '{' {
        let j = spec_skip_ws(s, i + 1);
        if j < s.len() && s[j] == '}' {
            Some(j + 1)
        } else if i < j && j <= s.len() {
            spec_skip_members(s, j)
        } else {
            None
        }
    } else {
        spec_skip_atom(s, i)
    }
}

/// The position after an array's elements (from the first element) and
/// its closing bracket.
pub open spec fn spec_skip_array_items(s: Seq<char>, i: int) -> Option<int>
    decreases s.len() - i, 3int,
{
    if !(0 <= i <= s.len()) {
        None
    } else {
        match spec_skip_value(s, i) {
            None => None,
            Some(j) => {
                if j <= i || j > s.len() {
                    None
                } else {
                    let k = spec_skip_ws(s, j);
                    if k < s.len() && s[k] == ',' {
                        let m = spec_skip_ws(s, k + 1);
                        if i < m && m <= s.len() {
                            spec_skip_array_items(s, m)
                        } else {
                            None
                        }
                    } else if k < s.len() && s[k] == ']' {
                        Some(k + 1)
                    } else {
                        None
                    }
                }
            },
        }
    }
}

/// The position after an object's members (from the first member's key)
/// and its closing brace.
pub open spec fn spec_skip_members(s: Seq<char>, i: int) -> Option<int>
    decreases s.len() - i, 3int,
{
    if !(0 <= i <= s.len()) {
        None
    } else {
        match spec_parse_json_string(s, i) {
            None => None,
            Some(p) => {
                let k = spec_skip_ws(s, p.1);
                if !(k < s.len() && s[k] == ':') {
                    None
                } else {
                    let m = spec_skip_ws(s, k + 1);
                    if !(i < m && m <= s.len()) {
                        None
                    } else {
                        match spec_skip_value(s, m) {
                            None => None,
                            Some(j) => {
                                if j <= i || j > s.len() {
                                    None
                                } else {
                                    let q = spec_skip_ws(s, j);
                                    if q < s.len() && s[q] == ',' {
                                        let r = spec_skip_ws(s, q + 1);
                                        if i < r && r <= s.len() {
                                            spec_skip_members(s, r)
                                        } else {
                                            None
                                        }
                                    } else if q < s.len() && s[q] == '}' {
                                        Some(q + 1)
                                    } else {
                                        None
                                    }
                                }
                            },
                        }
                    }
                }
            },
        }
    }
}

/// The three field names of the schema.
pub open spec fn field_steam_gameid() -> Seq<char> {
    seq!['s', 't', 'e', 'a', 'm', '_', 'g', 'a', 'm', 'e', 'i', 'd']
}

pub open spec fn field_debug() -> Seq<char> {
    seq!['d', 'e', 'b', 'u', 'g']
}

pub open spec fn field_arguments() -> Seq<char> {
    seq!['a', 'r', 'g', 'u', 'm', 'e', 'n', 't', 's']
}

/// One member's value at `i` under `key`, updating the fields seen so
/// far: a schema field is parsed (at most once), any other field's value
/// is skipped whole.
pub open spec fn spec_parse_member_value(
    s: Seq<char>,
    i: int,
    key: Seq<char>,
    gameid: Option<Seq<char>>,
    debug: Option<bool>,
    args: Option<Seq<Seq<char>>>,
) -> Option<(Option<Seq<char>>, Option<bool>, Option<Seq<Seq<char>>>, int)> {
    if key == field_steam_gameid() {
        if gameid is Some {
            None
        } else {
            match spec_parse_json_string(s, i) {
                Some(q) => Some((Some(q.0), debug, args, q.1)),
                None => None,
            }
        }
    } else if key == field_debug() {
        if debug is Some {
            None
        } else {
            match spec_parse_bool(s, i) {
                Some(q) => Some((gameid, Some(q.0), args, q.1)),
                None => None,
            }
        }
    } else if key == field_arguments() {
        if args is Some {
            None
        } else {
            match spec_parse_args(s, i) {
                Some(q) => Some((gameid, debug, Some(q.0), q.1)),
                None => None,
            }
        }
    } else {
        match spec_skip_value(s, i) {
            Some(j) => Some((gameid, debug, args, j)),
            None => None,
        }
    }
}

/// Parses the configuration object's members from the first key at `i`,
/// with the fields seen so far, ending past the closing brace once all
/// three fields have appeared exactly once.
pub open spec fn spec_parse_config_members(
    s: Seq<char>,
    i: int,
    gameid: Option<Seq<char>>,
    debug: Option<bool>,
    args: Option<Seq<Seq<char>>>,
) -> Option<((Seq<char>, bool, Seq<Seq<char>>), int)>
    decreases s.len() - i,
{
    if !(0 <= i <= s.len()) {
        None
    } else {
        match spec_parse_json_string(s, i) {
            None => None,
            Some(p) => {
                let k = spec_skip_ws(s, p.1);
                if !(k < s.len() && s[k] == ':') {
                    None
                } else {
                    let m = spec_skip_ws(s, k + 1);
                    if !(i < m && m <= s.len()) {
                        None
                    } else {
                        match spec_parse_member_value(s, m, p.0, gameid, debug, args) {
                            None => None,
                            Some(st) => {
                                let j = st.3;
                                if j <= i || j > s.len() {
                                    None
                                } else {
                                    let q = spec_skip_ws(s, j);
                                    if q < s.len() && s[q] == ',' {
                                        let r = spec_skip_ws(s, q + 1);
                                        if i < r && r <= s.len() {
                                            spec_parse_config_members(s, r, st.0, st.1, st.2)
                                        } else {
                                            None
                                        }
                                    } else if q < s.len() && s[q] == '}' {
                                        match (st.0, st.1, st.2) {
                                            (Some(g), Some(d), Some(a)) => Some(((g, d, a), q + 1)),
                                            _ => None,
                                        }
                                    } else {
                                        None
                                    }
                                }
                            },
                        }
                    }
                }
            },
        }
    }
}

/// Parses a whole configuration document: one object holding the three
/// schema fields, each exactly once, in any order, with unknown fields
/// tolerated, and nothing but whitespace after the closing brace.
pub open spec fn spec_parse_config(s: Seq<char>) -> Option<(Seq<char>, bool, Seq<Seq<char>>)> {
    let i0 = spec_skip_ws(s, 0);
    if !(0 <= i0 < s.len() && s[i0] == '{') {
        None
    } else {
        let i1 = spec_skip_ws(s, i0 + 1);
        match spec_parse_config_members(s, i1, None, None, None) {
            None => None,
            Some(r) => {
                let e = spec_skip_ws(s, r.1);
                if e == s.len() {
                    Some(r.0)
                } else {
                    None
                }
            },
        }
    }
}

/// The fields of an optional raw string / argument list, as the
/// specification-level parser sees them.
pub open spec fn opt_view(o: Option<Vec<char>>) -> Option<Seq<char>> {
    match o {
        Some(v) => Some(v@),
        None => None,
    }
}

pub open spec fn opt_deep(o: Option<Vec<Vec<char>>>) -> Option<Seq<Seq<char>>> {
    match o {
        Some(v) => Some(v.deep_view()),
        None => None,
    }
}

/// An executable member-parse result, as the specification-level parser
/// sees it.
pub open spec fn member_state_view(
    r: Option<(Option<Vec<char>>, Option<bool>, Option<Vec<Vec<char>>>, usize)>,
) -> Option<(Option<Seq<char>>, Option<bool>, Option<Seq<Seq<char>>>, int)> {
    match r {
        Some(p) => Some((opt_view(p.0), p.1, opt_deep(p.2), p.3 as int)),
        None => None,
    }
}

fn skip_ws(s: &Vec<char>, i: usize) -> (r: usize)
    requires
        i <= s@.len(),
    ensures
        r as int == spec_skip_ws(s@, i as int),
        i <= r <= s@.len(),
{
    let mut r = i;
    while r < s.len() && (s[r] == ' ' || s[r] == '\t' || s[r] == '\n' || s[r] == '\r')
        invariant
            i <= r <= s@.len(),
            spec_skip_ws(s@, i as int) == spec_skip_ws(s@, r as int),
        decreases s@.len() - r,
    {
        r = r + 1;
    }
    r
}

pub(crate) fn match_lit(s: &Vec<char>, i: usize, lit: &Vec<char>) -> (r: bool)
    requires
        i <= s@.len(),
    ensures
        r == spec_match_lit(s@, i as int, lit@),
{
    if s.len() - i < lit.len() {
        return false;
    }
    let mut j: usize = 0;
    while j < lit.len()
        invariant
            i + lit@.len() <= s@.len(),
            s@.len() == s.len(),
            lit@.len() == lit.len(),
            j <= lit@.len(),
            forall|k: int| 0 <= k < j ==> s@[i + k] == lit@[k],
        decreases lit@.len() - j,
    {
        if s[i + j] != lit[j] {
            proof {
                assert(s@.subrange(i as int, i + lit@.len())[j as int] != lit@[j as int]);
            }
            return false;
        }
        j = j + 1;
    }
    proof {
        assert(s@.subrange(i as int, i + lit@.len()) =~= lit@);
    }
    true
}

fn hex_ok(c: char) -> (r: bool)
    ensures
        r == is_hex_char(c),
{
    let v = c as u32;
    (0x30 <= v && v <= 0x39) || (0x61 <= v && v <= 0x66) || (0x41 <= v && v <= 0x46)
}

fn hex_val_char(c: char) -> (r: u8)
    requires
        is_hex_char(c),
    ensures
        r as nat == hex_char_val(c),
{
    let v = c as u32;
    if v <= 0x39 {
        (v - 0x30) as u8
    } else if v >= 0x61 {
        (v - 0x57) as u8
    } else {
        (v - 0x37) as u8
    }
}

/// Reads four hexadecimal digits if they stand at `i`.
fn read_hex4(s: &Vec<char>, i: usize) -> (r: Option<u32>)
    requires
        i <= s@.len(),
    ensures
        (r is Some) == spec_hex4_at(s@, i as int),
        r matches Some(v) ==> v == spec_hex4_val(s@, i as int) && v < 0x10000,
{
    if s.len() - i < 4 {
        return None;
    }
    let c0 = s[i];
    let c1 = s[i + 1];
    let c2 = s[i + 2];
    let c3 = s[i + 3];
    if hex_ok(c0) && hex_ok(c1) && hex_ok(c2) && hex_ok(c3) {
        let v: u32 = ((hex_val_char(c0) as u32 * 16 + hex_val_char(c1) as u32) * 16
            + hex_val_char(c2) as u32) * 16 + hex_val_char(c3) as u32;
        Some(v)
    } else {
        None
    }
}

/// Relies on `char::from_u32`: defined exactly on Unicode scalar values,
/// yielding the character with that code point.
#[verifier::external_body]
fn char_from_u32(v: u32) -> (r: Option<char>)
    ensures
        (r is Some) == (v < 0xD800 || (0xE000 <= v && v < 0x110000)),
        r matches Some(c) ==> c as u32 == v,
{
    char::from_u32(v)
}

fn unescape_char(e: char) -> (r: char)
    ensures
        r == simple_unescape(e),
{
    if e == 'b' {
        '\u{8}'
    } else if e == 't' {
        '\u{9}'
    } else if e == 'n' {
        '\u{A}'
    } else if e == 'f' {
        '\u{C}'
    } else if e == 'r' {
        '\u{D}'
    } else {
        e
    }
}

fn parse_string_body(s: &Vec<char>, i: usize) -> (r: Option<(Vec<char>, usize)>)
    requires
        i <= s@.len(),
    ensures
        (r is Some) == (spec_parse_string_body(s@, i as int) is Some),
        r matches Some(p) ==> (spec_parse_string_body(s@, i as int) matches Some(q) && p.0@ == q.0
            && p.1 as int == q.1 && i < p.1 <= s@.len()),
    decreases s@.len() - i,
{
    proof {
        lemma_string_body_bounds(s@, i as int);
    }
    if i >= s.len() {
        return None;
    }
    let c = s[i];
    if c == '"' {
        return Some((Vec::new(), i + 1));
    }
    if c == '\\' {
        if i + 1 >= s.len() {
            return None;
        }
        let e = s[i + 1];
        if e == '"' || e == '\\' || e == '/' || e == 'b' || e == 'f' || e == 'n' || e == 'r' || e
            == 't' {
            match parse_string_body(s, i + 2) {
                Some((mut v, j)) => {
                    let u = unescape_char(e);
                    let ghost tail = v@;
                    v.insert(0, u);
                    proof {
                        assert(v@ =~= seq![simple_unescape(e)] + tail);
                    }
                    Some((v, j))
                },
                None => None,
            }
        } else if e == 'u' {
            match read_hex4(s, i + 2) {
                None => None,
                Some(v) => {
                    if 0xD800 <= v && v < 0xDC00 {
                        if s.len() - i < 12 {
                            return None;
                        }
                        if s[i + 6] != '\\' || s[i + 7] != 'u' {
                            return None;
                        }
                        match read_hex4(s, i + 8) {
                            None => None,
                            Some(w) => {
                                if !(0xDC00 <= w && w < 0xE000) {
                                    return None;
                                }
                                let scalar: u32 = 0x10000 + (v - 0xD800) * 0x400 + (w - 0xDC00);
                                let u = match char_from_u32(scalar) {
                                    Some(c2) => c2,
                                    None => {
                                        proof {
                                            assert(false);
                                        }
                                        return None;
                                    },
                                };
                                proof {
                                    lemma_char_code(u, scalar as nat);
                                    assert(u == u_escape_char(s@, i as int));
                                }
                                match parse_string_body(s, i + 12) {
                                    Some((mut v2, j)) => {
                                        let ghost tail = v2@;
                                        v2.insert(0, u);
                                        proof {
                                            assert(v2@ =~= seq![u_escape_char(s@, i as int)]
                                                + tail);
                                        }
                                        Some((v2, j))
                                    },
                                    None => None,
                                }
                            },
                        }
                    } else if 0xDC00 <= v && v < 0xE000 {
                        None
                    } else {
                        let u = match char_from_u32(v) {
                            Some(c2) => c2,
                            None => {
                                proof {
                                    assert(false);
                                }
                                return None;
                            },
                        };
                        proof {
                            lemma_char_code(u, v as nat);
                            assert(u == u_escape_char(s@, i as int));
                        }
                        match parse_string_body(s, i + 6) {
                            Some((mut v2, j)) => {
                                let ghost tail = v2@;
                                v2.insert(0, u);
                                proof {
                                    assert(v2@ =~= seq![u_escape_char(s@, i as int)] + tail);
                                }
                                Some((v2, j))
                            },
                            None => None,
                        }
                    }
                },
            }
        } else {
            None
        }
    } else if (c as u32) < 0x20 {
        None
    } else {
        match parse_string_body(s, i + 1) {
            Some((mut v, j)) => {
                let ghost tail = v@;
                v.insert(0, c);
                proof {
                    assert(v@ =~= seq![c] + tail);
                }
                Some((v, j))
            },
            None => None,
        }
    }
}

fn parse_json_string(s: &Vec<char>, i: usize) -> (r: Option<(Vec<char>, usize)>)
    requires
        i <= s@.len(),
    ensures
        (r is Some) == (spec_parse_json_string(s@, i as int) is Some),
        r matches Some(p) ==> (spec_parse_json_string(s@, i as int) matches Some(q) && p.0@ == q.0
            && p.1 as int == q.1 && i < p.1 <= s@.len()),
{
    if i < s.len() && s[i] == '"' {
        parse_string_body(s, i + 1)
    } else {
        None
    }
}

fn parse_bool(s: &Vec<char>, i: usize) -> (r: Option<(bool, usize)>)
    requires
        i <= s@.len(),
    ensures
        (r is Some) == (spec_parse_bool(s@, i as int) is Some),
        r matches Some(p) ==> (spec_parse_bool(s@, i as int) matches Some(q) && p.0 == q.0 && p.1
            as int == q.1 && i < p.1 <= s@.len()),
{
    let tlit: Vec<char> = vec!['t', 'r', 'u', 'e'];
    proof {
        assert(tlit@ =~= lit_true());
    }
    if match_lit(s, i, &tlit) {
        proof {
            assert(s@.len() == s.len());
        }
        return Some((true, i + 4));
    }
    let flit: Vec<char> = vec!['f', 'a', 'l', 's', 'e'];
    proof {
        assert(flit@ =~= lit_false());
    }
    if match_lit(s, i, &flit) {
        proof {
            assert(s@.len() == s.len());
        }
        return Some((false, i + 5));
    }
    None
}

fn parse_args_items(s: &Vec<char>, i: usize) -> (r: Option<(Vec<Vec<char>>, usize)>)
    requires
        i <= s@.len(),
    ensures
        (r is Some) == (spec_parse_args_items(s@, i as int) is Some),
        r matches Some(p) ==> (spec_parse_args_items(s@, i as int) matches Some(q)
            && p.0.deep_view() == q.0 && p.1 as int == q.1 && i < p.1 <= s@.len()),
    decreases s@.len() - i,
{
    match parse_json_string(s, i) {
        None => None,
        Some((v0, j)) => {
            let k = skip_ws(s, j);
            if k < s.len() && s[k] == ',' {
                let m = skip_ws(s, k + 1);
                match parse_args_items(s, m) {
                    Some((mut rest, e)) => {
                        let ghost tail = rest.deep_view();
                        let ghost head = v0@;
                        rest.insert(0, v0);
                        proof {
                            assert(rest.deep_view() =~~= seq![head] + tail);
                        }
                        Some((rest, e))
                    },
                    None => None,
                }
            } else if k < s.len() && s[k] == ']' {
                let ghost head = v0@;
                let mut one: Vec<Vec<char>> = Vec::new();
                one.push(v0);
                proof {
                    assert(one.deep_view() =~~= seq![head]);
                }
                Some((one, k + 1))
            } else {
                None
            }
        },
    }
}

fn parse_args(s: &Vec<char>, i: usize) -> (r: Option<(Vec<Vec<char>>, usize)>)
    requires
        i <= s@.len(),
    ensures
        (r is Some) == (spec_parse_args(s@, i as int) is Some),
        r matches Some(p) ==> (spec_parse_args(s@, i as int) matches Some(q) && p.0.deep_view()
            == q.0 && p.1 as int == q.1 && i < p.1 <= s@.len()),
{
    if i < s.len() && s[i] == '[' {
        let j = skip_ws(s, i + 1);
        if j < s.len() && s[j] == ']' {
            let empty: Vec<Vec<char>> = Vec::new();
            proof {
                assert(empty.deep_view() =~= Seq::<Seq<char>>::empty());
            }
            Some((empty, j + 1))
        } else {
            parse_args_items(s, j)
        }
    } else {
        None
    }
}

/// Whether two character vectors hold the same characters.
fn chars_eq(a: &Vec<char>, b: &Vec<char>) -> (r: bool)
    ensures
        r == (a@ =~= b@),
{
    if a.len() != b.len() {
        return false;
    }
    let mut i: usize = 0;
    while i < a.len()
        invariant
            a@.len() == b@.len(),
            i <= a@.len(),
            forall|k: int| 0 <= k < i ==> a@[k] == b@[k],
        decreases a@.len() - i,
    {
        if a[i] != b[i] {
            return false;
        }
        i = i + 1;
    }
    true
}

fn digit_ok(c: char) -> (r: bool)
    ensures
        r == is_digit_char(c),
{
    let v = c as u32;
    0x30 <= v && v <= 0x39
}

fn skip_digits(s: &Vec<char>, i: usize) -> (r: usize)
    requires
        i <= s@.len(),
    ensures
        r as int == spec_skip_digits(s@, i as int),
        i <= r <= s@.len(),
{
    let mut r = i;
    while r < s.len() && (s[r] as u32 >= 0x30 && s[r] as u32 <= 0x39)
        invariant
            i <= r <= s@.len(),
            spec_skip_digits(s@, i as int) == spec_skip_digits(s@, r as int),
        decreases s@.len() - r,
    {
        r = r + 1;
    }
    r
}

#[verifier::rlimit(100)]
fn skip_number(s: &Vec<char>, i: usize) -> (r: Option<usize>)
    requires
        i <= s@.len(),
    ensures
        (r is Some) == (spec_skip_number(s@, i as int) is Some),
        r matches Some(j) ==> spec_skip_number(s@, i as int) == Some(j as int) && i < j
            <= s@.len(),
{
    let p = if i < s.len() && s[i] == '-' {
        i + 1
    } else {
        i
    };
    if !(p < s.len() && digit_ok(s[p])) {
        return None;
    }
    let q = if s[p] == '0' {
        p + 1
    } else {
        proof {
            lemma_skip_digits_bounds(s@, p + 1);
        }
        skip_digits(s, p)
    };
    proof {
        assert(p < q);
    }
    let r1 = if q < s.len() && s[q] == '.' {
        if q + 1 < s.len() && digit_ok(s[q + 1]) {
            proof {
                lemma_skip_digits_bounds(s@, q + 1);
            }
            skip_digits(s, q + 1)
        } else {
            return None;
        }
    } else {
        q
    };
    if r1 < s.len() && (s[r1] == 'e' || s[r1] == 'E') {
        let t = if r1 + 1 < s.len() && (s[r1 + 1] == '+' || s[r1 + 1] == '-') {
            r1 + 2
        } else {
            r1 + 1
        };
        if t < s.len() && digit_ok(s[t]) {
            proof {
                lemma_skip_digits_bounds(s@, t as int);
            }
            Some(skip_digits(s, t))
        } else {
            None
        }
    } else {
        Some(r1)
    }
}

#[verifier::rlimit(100)]
fn skip_atom(s: &Vec<char>, i: usize) -> (r: Option<usize>)
    requires
        i <= s@.len(),
    ensures
        (r is Some) == (spec_skip_atom(s@, i as int) is Some),
        r matches Some(j) ==> spec_skip_atom(s@, i as int) == Some(j as int) && i < j
            <= s@.len(),
{
    if i >= s.len() {
        return None;
    }
    let c = s[i];
    if c == '"' {
        return match parse_json_string(s, i) {
            Some((_content, j)) => Some(j),
            None => None,
        };
    }
    let tlit: Vec<char> = vec!['t', 'r', 'u', 'e'];
    proof {
        assert(tlit@ =~= lit_true());
    }
    if match_lit(s, i, &tlit) {
        proof {
            assert(s@.len() == s.len());
        }
        return Some(i + 4);
    }
    let flit: Vec<char> = vec!['f', 'a', 'l', 's', 'e'];
    proof {
        assert(flit@ =~= lit_false());
    }
    if match_lit(s, i, &flit) {
        proof {
            assert(s@.len() == s.len());
        }
        return Some(i + 5);
    }
    let nlit: Vec<char> = vec!['n', 'u', 'l', 'l'];
    proof {
        assert(nlit@ =~= lit_null());
    }
    if match_lit(s, i, &nlit) {
        proof {
            assert(s@.len() == s.len());
        }
        return Some(i + 4);
    }
    if c == '-' || digit_ok(c) {
        return skip_number(s, i);
    }
    None
}

#[verifier::rlimit(100)]
fn skip_value(s: &Vec<char>, i: usize) -> (r: Option<usize>)
    requires
        i <= s@.len(),
    ensures
        (r is Some) == (spec_skip_value(s@, i as int) is Some),
        r matches Some(j) ==> spec_skip_value(s@, i as int) == Some(j as int) && i < j
            <= s@.len(),
    decreases s@.len() - i, 2int,
{
    if i >= s.len() {
        return None;
    }
    let c = s[i];
    if c == '[' {
        let j = skip_ws(s, i + 1);
        if j < s.len() && s[j] == ']' {
            return Some(j + 1);
        }
        return skip_array_items(s, j);
    }
    if c == '{' {
        let j = skip_ws(s, i + 1);
        if j < s.len() && s[j] == '}' {
            return Some(j + 1);
        }
        return skip_members(s, j);
    }
    skip_atom(s, i)
}

#[verifier::rlimit(100)]
fn skip_array_items(s: &Vec<char>, i: usize) -> (r: Option<usize>)
    requires
        i <= s@.len(),
    ensures
        (r is Some) == (spec_skip_array_items(s@, i as int) is Some),
        r matches Some(j) ==> spec_skip_array_items(s@, i as int) == Some(j as int) && i < j
            <= s@.len(),
    decreases s@.len() - i, 3int,
{
    match skip_value(s, i) {
        None => None,
        Some(j) => {
            let k = skip_ws(s, j);
            if k < s.len() && s[k] == ',' {
                let m = skip_ws(s, k + 1);
                skip_array_items(s, m)
            } else if k < s.len() && s[k] == ']' {
                Some(k + 1)
            } else {
                None
            }
        },
    }
}

#[verifier::rlimit(100)]
fn skip_members(s: &Vec<char>, i: usize) -> (r: Option<usize>)
    requires
        i <= s@.len(),
    ensures
        (r is Some) == (spec_skip_members(s@, i as int) is Some),
        r matches Some(j) ==> spec_skip_members(s@, i as int) == Some(j as int) && i < j
            <= s@.len(),
    decreases s@.len() - i, 3int,
{
    match parse_json_string(s, i) {
        None => None,
        Some((_key, kpos)) => {
            let k = skip_ws(s, kpos);
            if k >= s.len() || s[k] != ':' {
                return None;
            }
            let m = skip_ws(s, k + 1);
            match skip_value(s, m) {
                None => None,
                Some(j) => {
                    let q = skip_ws(s, j);
                    if q < s.len() && s[q] == ',' {
                        let r2 = skip_ws(s, q + 1);
                        skip_members(s, r2)
                    } else if q < s.len() && s[q] == '}' {
                        Some(q + 1)
                    } else {
                        None
                    }
                },
            }
        },
    }
}

#[verifier::rlimit(100)]
fn parse_member_value(
    s: &Vec<char>,
    i: usize,
    key: &Vec<char>,
    gameid: Option<Vec<char>>,
    debug: Option<bool>,
    args: Option<Vec<Vec<char>>>,
) -> (r: Option<(Option<Vec<char>>, Option<bool>, Option<Vec<Vec<char>>>, usize)>)
    requires
        i <= s@.len(),
    ensures
        member_state_view(r) == spec_parse_member_value(
            s@,
            i as int,
            key@,
            opt_view(gameid),
            debug,
            opt_deep(args),
        ),
        r matches Some(p) ==> i < p.3 <= s@.len(),
{
    let gameid_lit: Vec<char> = vec!['s', 't', 'e', 'a', 'm', '_', 'g', 'a', 'm', 'e', 'i', 'd'];
    proof {
        assert(gameid_lit@ =~= field_steam_gameid());
    }
    let debug_lit: Vec<char> = vec!['d', 'e', 'b', 'u', 'g'];
    proof {
        assert(debug_lit@ =~= field_debug());
    }
    let args_lit: Vec<char> = vec!['a', 'r', 'g', 'u', 'm', 'e', 'n', 't', 's'];
    proof {
        assert(args_lit@ =~= field_arguments());
    }
    if chars_eq(key, &gameid_lit) {
        if gameid.is_some() {
            return None;
        }
        match parse_json_string(s, i) {
            Some((v, e2)) => Some((Some(v), debug, args, e2)),
            None => None,
        }
    } else if chars_eq(key, &debug_lit) {
        if debug.is_some() {
            return None;
        }
        match parse_bool(s, i) {
            Some((b, e2)) => Some((gameid, Some(b), args, e2)),
            None => None,
        }
    } else if chars_eq(key, &args_lit) {
        if args.is_some() {
            return None;
        }
        match parse_args(s, i) {
            Some((v, e2)) => Some((gameid, debug, Some(v), e2)),
            None => None,
        }
    } else {
        match skip_value(s, i) {
            Some(e2) => Some((gameid, debug, args, e2)),
            None => None,
        }
    }
}

fn parse_config_members(
    s: &Vec<char>,
    i: usize,
    gameid: Option<Vec<char>>,
    debug: Option<bool>,
    args: Option<Vec<Vec<char>>>,
) -> (r: Option<((Vec<char>, bool, Vec<Vec<char>>), usize)>)
    requires
        i <= s@.len(),
    ensures
        (r is Some) == (spec_parse_config_members(
            s@,
            i as int,
            opt_view(gameid),
            debug,
            opt_deep(args),
        ) is Some),
        r matches Some(p) ==> (spec_parse_config_members(
            s@,
            i as int,
            opt_view(gameid),
            debug,
            opt_deep(args),
        ) matches Some(q) && p.0.0@ == q.0.0 && p.0.1 == q.0.1 && p.0.2.deep_view() == q.0.2
            && p.1 as int == q.1 && p.1 <= s@.len()),
    decreases s@.len() - i,
{
    let parsed_key = parse_json_string(s, i);
    let (key, kpos) = match parsed_key {
        Some(p) => p,
        None => {
            return None;
        },
    };
    let k = skip_ws(s, kpos);
    if k >= s.len() || s[k] != ':' {
        return None;
    }
    let m = skip_ws(s, k + 1);
    let st = match parse_member_value(s, m, &key, gameid, debug, args) {
        Some(st) => st,
        None => {
            return None;
        },
    };
    let (g2, d2, a2, j) = st;
    proof {
        assert(spec_parse_member_value(
            s@,
            m as int,
            key@,
            opt_view(gameid),
            debug,
            opt_deep(args),
        ) == Some((opt_view(g2), d2, opt_deep(a2), j as int)));
    }
    let q = skip_ws(s, j);
    if q < s.len() && s[q] == ',' {
        let rpos = skip_ws(s, q + 1);
        parse_config_members(s, rpos, g2, d2, a2)
    } else if q < s.len() && s[q] == '}' {
        match (g2, d2, a2) {
            (Some(g), Some(d), Some(a)) => Some(((g, d, a), q + 1)),
            _ => None,
        }
    } else {
        None
    }
}

fn parse_config_chars(s: &Vec<char>) -> (r: Option<(Vec<char>, bool, Vec<Vec<char>>)>)
    ensures
        (r is Some) == (spec_parse_config(s@) is Some),
        r matches Some(p) ==> (spec_parse_config(s@) matches Some(q) && p.0@ == q.0 && p.1 == q.1
            && p.2.deep_view() == q.2),
{
    let i0 = skip_ws(s, 0);
    if i0 >= s.len() || s[i0] != '{' {
        return None;
    }
    let i1 = skip_ws(s, i0 + 1);
    match parse_config_members(s, i1, None, None, None) {
        Some(((g, d, a), endpos)) => {
            let e = skip_ws(s, endpos);
            if e == s.len() {
                Some((g, d, a))
            } else {
                None
            }
        },
        None => None,
    }
}

impl Config {
    /// Parses a persisted configuration document. Exactly the documents
    /// the schema admits yield a configuration; everything else is
    /// malformed.
    pub fn from_json_str(text: &str) -> (r: Result<Config, ConfigReadError>)
        ensures
            spec_parse_config(text@) matches Some(t) ==> (r matches Ok(c) && c.steam_gameid@ == t.0
                && c.debug == t.1 && c.arguments.deep_view() == t.2),
            spec_parse_config(text@) is None ==> (r matches Err(e) && e is Malformed),
    {
        let chars = string_to_chars(text);
        match parse_config_chars(&chars) {
            Some((g, d, args)) => {
                let gameid = chars_to_string(&g);
                let mut arguments: Vec<String> = Vec::new();
                let mut i: usize = 0;
                while i < args.len()
                    invariant
                        i <= args@.len(),
                        arguments@.len() == i,
                        forall|k: int| 0 <= k < i ==> #[trigger] arguments@[k]@ == args@[k]@,
                    decreases args@.len() - i,
                {
                    arguments.push(chars_to_string(&args[i]));
                    i = i + 1;
                }
                proof {
                    assert(arguments.deep_view() =~~= args.deep_view());
                }
                Ok(Config { steam_gameid: gameid, debug: d, arguments })
            },
            None => Err(
                ConfigReadError::Malformed(
                    String::from_str("config file does not match the expected schema"),
                ),
            ),
        }
    }
}



proof fn lemma_char_code(c: char, v: nat)
    requires
        c as u32 == v,
        v < 0xD800 || (0xE000 <= v && v < 0x110000),
    ensures
        (v as char) == c,
{
}

proof fn lemma_escape_append(a: Seq<char>, b: Seq<char>)
    ensures
        spec_escape(a + b) == spec_escape(a) + spec_escape(b),
    decreases b.len(),
{
    if b.len() == 0 {
        assert(a + b =~= a);
        assert(spec_escape(a) + spec_escape(b) =~= spec_escape(a));
    } else {
        assert((a + b).drop_last() =~= a + b.drop_last());
        assert((a + b).last() == b.last());
        lemma_escape_append(a, b.drop_last());
        assert(spec_escape(a) + spec_escape(b.drop_last()) + spec_escape_char(b.last())
            =~= spec_escape(a) + spec_escape(b));
        assert(spec_escape(a + b) =~= spec_escape(a) + spec_escape(b));
    }
}

proof fn lemma_escape_first(x: Seq<char>)
    requires
        x.len() > 0,
    ensures
        spec_escape(x) == spec_escape_char(x[0]) + spec_escape(x.drop_first()),
{
    assert(x =~= x.take(1) + x.skip(1));
    lemma_escape_append(x.take(1), x.skip(1));
    assert(x.take(1).drop_last() =~= Seq::<char>::empty());
    assert(x.take(1).last() == x[0]);
    assert(spec_escape(Seq::<char>::empty()) =~= Seq::<char>::empty());
    assert(spec_escape(x.take(1)) =~= spec_escape_char(x[0]));
    assert(x.skip(1) =~= x.drop_first());
}

proof fn lemma_hex_digit_lower_inverts(d: nat)
    requires
        d < 16,
    ensures
        is_hex_char(hex_digit_lower(d)),
        hex_char_val(hex_digit_lower(d)) == d,
{
}

/// The parser consumes exactly the escaped body of `x` and the closing
/// quote, yielding `x` itself.
proof fn lemma_parse_escaped_body(s: Seq<char>, i: int, x: Seq<char>)
    requires
        0 <= i,
        i + spec_escape(x).len() + 1 <= s.len(),
        s.subrange(i, i + spec_escape(x).len() as int) == spec_escape(x),
        s[i + spec_escape(x).len()] == '"',
    ensures
        spec_parse_string_body(s, i) == Some((x, i + spec_escape(x).len() + 1)),
    decreases x.len(),
{
    if x.len() == 0 {
        assert(spec_escape(x).len() == 0);
        assert(s[i] == '"');
    } else {
        let c = x[0];
        let e = spec_escape_char(c);
        let x2 = x.drop_first();
        lemma_escape_first(x);
        let el = e.len() as int;
        let tail_len = spec_escape(x2).len() as int;
        assert(spec_escape(x).len() == el + tail_len);
        assert forall|k: int| 0 <= k < el implies s[i + k] == e[k] by {
            assert(s.subrange(i, i + spec_escape(x).len() as int)[k] == s[i + k]);
            assert(spec_escape(x)[k] == e[k]);
        }
        assert(s.subrange(i + el, i + el + tail_len) =~= spec_escape(x2)) by {
            assert forall|k: int| 0 <= k < tail_len implies s[i + el + k] == spec_escape(x2)[k] by {
                assert(s.subrange(i, i + spec_escape(x).len() as int)[el + k] == s[i + el + k]);
                assert(spec_escape(x)[el + k] == spec_escape(x2)[k]);
            }
        }
        assert(s[i + el + tail_len] == '"');
        lemma_parse_escaped_body(s, i + el, x2);
        assert(seq![c] + x2 =~= x);
        if c == '"' {
            assert(s[i] == '\\' && s[i + 1] == '"');
            assert(simple_unescape(s[i + 1]) == c);
        } else if c == '\\' {
            assert(s[i] == '\\' && s[i + 1] == '\\');
            assert(simple_unescape(s[i + 1]) == c);
        } else if c == '\u{8}' {
            assert(s[i] == '\\' && s[i + 1] == 'b');
            assert(simple_unescape(s[i + 1]) == c);
        } else if c == '\u{9}' {
            assert(s[i] == '\\' && s[i + 1] == 't');
            assert(simple_unescape(s[i + 1]) == c);
        } else if c == '\u{A}' {
            assert(s[i] == '\\' && s[i + 1] == 'n');
            assert(simple_unescape(s[i + 1]) == c);
        } else if c == '\u{C}' {
            assert(s[i] == '\\' && s[i + 1] == 'f');
            assert(simple_unescape(s[i + 1]) == c);
        } else if c == '\u{D}' {
            assert(s[i] == '\\' && s[i + 1] == 'r');
            assert(simple_unescape(s[i + 1]) == c);
        } else if (c as u32) < 0x20 {
            let cv = c as u32;
            assert(s[i] == '\\' && s[i + 1] == 'u' && s[i + 2] == '0' && s[i + 3] == '0');
            assert(s[i + 4] == hex_digit_lower((cv / 16) as nat));
            assert(s[i + 5] == hex_digit_lower((cv % 16) as nat));
            lemma_hex_digit_lower_inverts((cv / 16) as nat);
            lemma_hex_digit_lower_inverts((cv % 16) as nat);
            assert(spec_hex4_at(s, i + 2));
            assert(spec_hex4_val(s, i + 2) == cv);
            assert(u_escape_ok(s, i));
            assert(u_escape_end(s, i) == i + 6);
            lemma_char_code(c, cv as nat);
            assert(u_escape_char(s, i) == c);
        } else {
            assert(s[i] == c);
            assert(c != '"' && c != '\\' && (c as u32) >= 0x20);
        }
        assert(spec_parse_string_body(s, i) == Some((x, i + spec_escape(x).len() + 1)));
    }
}

/// The parser consumes exactly the rendered string literal of `x`.
proof fn lemma_parse_json_string_at(s: Seq<char>, i: int, x: Seq<char>)
    requires
        0 <= i,
        i + spec_json_string(x).len() <= s.len(),
        s.subrange(i, i + spec_json_string(x).len() as int) == spec_json_string(x),
    ensures
        spec_parse_json_string(s, i) == Some((x, i + spec_json_string(x).len())),
{
    assert(s[i] == '"') by {
        assert(s.subrange(i, i + spec_json_string(x).len() as int)[0] == s[i]);
        assert(spec_json_string(x)[0] == '"');
    }
    let el = spec_escape(x).len() as int;
    assert(spec_json_string(x).len() == el + 2);
    assert(s.subrange(i + 1, i + 1 + el) =~= spec_escape(x)) by {
        assert forall|k: int| 0 <= k < el implies s[i + 1 + k] == spec_escape(x)[k] by {
            assert(s.subrange(i, i + spec_json_string(x).len() as int)[1 + k] == s[i + 1 + k]);
            assert(spec_json_string(x)[1 + k] == spec_escape(x)[k]);
        }
    }
    assert(s[i + 1 + el] == '"') by {
        assert(s.subrange(i, i + spec_json_string(x).len() as int)[1 + el] == s[i + 1 + el]);
        assert(spec_json_string(x)[1 + el] == '"');
    }
    lemma_parse_escaped_body(s, i + 1, x);
}


proof fn lemma_json_args_starts_quote(t: Seq<Seq<char>>)
    requires
        t.len() >= 1,
    ensures
        spec_json_args(t).len() >= 2,
        spec_json_args(t)[0] == '"',
    decreases t.len(),
{
    if t.len() == 1 {
        assert(spec_json_args(t) == spec_json_string(t[0]));
        assert(spec_json_string(t[0])[0] == '"');
    } else {
        lemma_json_args_starts_quote(t.drop_last());
        assert(spec_json_args(t) == spec_json_args(t.drop_last()) + seq![','] + spec_json_string(
            t.last(),
        ));
        assert(spec_json_args(t)[0] == spec_json_args(t.drop_last())[0]);
    }
}

proof fn lemma_json_args_first(a: Seq<Seq<char>>)
    requires
        a.len() >= 2,
    ensures
        spec_json_args(a) == spec_json_string(a[0]) + seq![','] + spec_json_args(a.drop_first()),
    decreases a.len(),
{
    if a.len() == 2 {
        assert(a.drop_last().len() == 1);
        assert(a.drop_last()[0] == a[0]);
        assert(a.drop_first().len() == 1);
        assert(a.drop_first()[0] == a[1]);
        assert(a.last() == a[1]);
        assert(spec_json_args(a.drop_last()) == spec_json_string(a[0]));
        assert(spec_json_args(a.drop_first()) == spec_json_string(a[1]));
        assert(spec_json_args(a) =~= spec_json_string(a[0]) + seq![','] + spec_json_args(
            a.drop_first(),
        ));
    } else {
        lemma_json_args_first(a.drop_last());
        assert(a.drop_last().drop_first() =~= a.drop_first().drop_last());
        assert(a.drop_last()[0] == a[0]);
        assert(a.drop_first().last() == a.last());
        assert(a.drop_first().len() >= 2);
        assert(spec_json_args(a.drop_first()) == spec_json_args(a.drop_first().drop_last())
            + seq![','] + spec_json_string(a.drop_first().last()));
        assert(spec_json_args(a) =~= spec_json_string(a[0]) + seq![','] + spec_json_args(
            a.drop_first(),
        ));
    }
}

/// The parser consumes exactly the rendered elements of a nonempty
/// argument array and the closing bracket, yielding the elements.
proof fn lemma_parse_args_items_at(s: Seq<char>, i: int, a: Seq<Seq<char>>)
    requires
        a.len() >= 1,
        0 <= i,
        i + spec_json_args(a).len() + 1 <= s.len(),
        s.subrange(i, i + spec_json_args(a).len() as int) == spec_json_args(a),
        s[i + spec_json_args(a).len()] == ']',
    ensures
        spec_parse_args_items(s, i) == Some((a, i + spec_json_args(a).len() + 1)),
    decreases a.len(),
{
    let a0 = a[0];
    let sl = spec_json_string(a0).len() as int;
    if a.len() == 1 {
        assert(spec_json_args(a) == spec_json_string(a0));
        lemma_parse_json_string_at(s, i, a0);
        let j = i + sl;
        assert(s[j] == ']');
        assert(spec_skip_ws(s, j) == j);
        assert(seq![a0] =~= a);
    } else {
        lemma_json_args_first(a);
        let tail = a.drop_first();
        let tl = spec_json_args(tail).len() as int;
        assert(spec_json_args(a).len() == sl + 1 + tl);
        assert(s.subrange(i, i + sl) =~= spec_json_string(a0)) by {
            assert forall|k: int| 0 <= k < sl implies s[i + k] == spec_json_string(a0)[k] by {
                assert(s.subrange(i, i + spec_json_args(a).len() as int)[k] == s[i + k]);
                assert(spec_json_args(a)[k] == spec_json_string(a0)[k]);
            }
        }
        lemma_parse_json_string_at(s, i, a0);
        let j = i + sl;
        assert(s[j] == ',') by {
            assert(s.subrange(i, i + spec_json_args(a).len() as int)[sl] == s[j]);
            assert(spec_json_args(a)[sl] == ',');
        }
        assert(spec_skip_ws(s, j) == j);
        assert(s.subrange(j + 1, j + 1 + tl) =~= spec_json_args(tail)) by {
            assert forall|k: int| 0 <= k < tl implies s[j + 1 + k] == spec_json_args(tail)[k] by {
                assert(s.subrange(i, i + spec_json_args(a).len() as int)[sl + 1 + k] == s[j + 1
                    + k]);
                assert(spec_json_args(a)[sl + 1 + k] == spec_json_args(tail)[k]);
            }
        }
        lemma_json_args_starts_quote(tail);
        assert(s[j + 1] == '"') by {
            assert(s.subrange(j + 1, j + 1 + tl)[0] == s[j + 1]);
        }
        assert(spec_skip_ws(s, j + 1) == j + 1);
        assert(s[j + 1 + tl] == ']');
        lemma_parse_args_items_at(s, j + 1, tail);
        assert(seq![a0] + tail =~= a);
    }
}

/// A string of ordinary characters (no quote, no backslash, no control)
/// renders as itself.
proof fn lemma_escape_plain(x: Seq<char>)
    requires
        forall|k: int|
            0 <= k < x.len() ==> (#[trigger] x[k]) != '"' && x[k] != '\\' && x[k] as u32 >= 0x20,
    ensures
        spec_escape(x) == x,
    decreases x.len(),
{
    if x.len() == 0 {
        assert(spec_escape(x) =~= x);
    } else {
        lemma_escape_plain(x.drop_last());
        assert(spec_escape_char(x.last()) =~= seq![x.last()]);
        assert(spec_escape(x) =~= x);
    }
}

/// The opening of a rendered configuration as its parse sees it: the
/// brace, the first key and the game identifier string, each at its
/// fixed offset.
#[verifier::rlimit(100)]
proof fn lemma_tokens_head(gameid: Seq<char>, debug: bool, args: Seq<Seq<char>>)
    ensures
        ({
            let s = spec_config_json(gameid, debug, args);
            let o3 = 16 + spec_json_string(gameid).len() as int;
            &&& s.len() == o3 + 9 + (if debug {
                lit_true()
            } else {
                lit_false()
            }).len() + 14 + spec_json_args(args).len() + 2
            &&& spec_skip_ws(s, 0) == 0 && s[0] == '{'
            &&& spec_skip_ws(s, 1) == 1
            &&& spec_parse_json_string(s, 1) == Some((field_steam_gameid(), 15int))
            &&& s[15] == ':' && spec_skip_ws(s, 15) == 15int
            &&& spec_skip_ws(s, 16) == 16int
            &&& spec_parse_json_string(s, 16) == Some((gameid, o3))
            &&& s[o3] == ',' && spec_skip_ws(s, o3) == o3
            &&& spec_skip_ws(s, o3 + 1) == o3 + 1
        }),
{
    let fg = field_steam_gameid();
    let fd = field_debug();
    let fa = field_arguments();
    assert(forall|k: int|
        0 <= k < fg.len() ==> (#[trigger] fg[k]) != '"' && fg[k] != '\\' && fg[k] as u32 >= 0x20);
    assert(forall|k: int|
        0 <= k < fd.len() ==> (#[trigger] fd[k]) != '"' && fd[k] != '\\' && fd[k] as u32 >= 0x20);
    assert(forall|k: int|
        0 <= k < fa.len() ==> (#[trigger] fa[k]) != '"' && fa[k] != '\\' && fa[k] as u32 >= 0x20);
    lemma_escape_plain(fg);
    lemma_escape_plain(fd);
    lemma_escape_plain(fa);
    let p1 = lit_obj_open();
    let p2 = spec_json_string(gameid);
    let p3 = lit_debug();
    let p4 = if debug {
        lit_true()
    } else {
        lit_false()
    };
    let p5 = lit_arguments();
    let p6 = spec_json_args(args);
    let p7 = lit_obj_close();
    let s = spec_config_json(gameid, debug, args);
    assert(s == p1 + p2 + p3 + p4 + p5 + p6 + p7);
    let l2 = p2.len() as int;
    let l4 = p4.len() as int;
    let l6 = p6.len() as int;
    let o2: int = 16;
    let o3 = o2 + l2;
    let o4 = o3 + 9;
    let o5 = o4 + l4;
    let o6 = o5 + 14;
    let o7 = o6 + l6;
    assert(s.len() == o7 + 2);
    assert(p1 =~= seq!['{'] + spec_json_string(fg) + seq![':']);
    assert(p3 =~= seq![','] + spec_json_string(fd) + seq![':']);
    assert(p5 =~= seq![','] + spec_json_string(fa) + seq![':', '[']);
    assert(s[0] == '{');
    assert(spec_skip_ws(s, 0) == 0);
    assert(s[1] == '"');
    assert(spec_skip_ws(s, 1) == 1);
    assert(s.subrange(1, 15) =~= spec_json_string(fg)) by {
        assert forall|k: int| 0 <= k < 14 implies s[1 + k] == spec_json_string(fg)[k] by {
            assert(s[1 + k] == p1[1 + k]);
        }
    }
    lemma_parse_json_string_at(s, 1, fg);
    assert(s[15] == ':');
    assert(spec_skip_ws(s, 15) == 15);
    assert(s.subrange(o2, o2 + l2) =~= p2) by {
        assert forall|k: int| 0 <= k < l2 implies s[o2 + k] == p2[k] by {}
    }
    assert(s[o2] == '"') by {
        assert(s.subrange(o2, o2 + l2)[0] == s[o2]);
    }
    assert(spec_skip_ws(s, 16) == 16);
    lemma_parse_json_string_at(s, o2, gameid);
    assert(s[o3] == ',');
    assert(spec_skip_ws(s, o3) == o3);
    assert(s[o3 + 1] == '"');
    assert(spec_skip_ws(s, o3 + 1) == o3 + 1);
}

/// The middle of a rendered configuration: the debug key and its boolean.
#[verifier::rlimit(100)]
proof fn lemma_tokens_debug(gameid: Seq<char>, debug: bool, args: Seq<Seq<char>>)
    ensures
        ({
            let s = spec_config_json(gameid, debug, args);
            let o3 = 16 + spec_json_string(gameid).len() as int;
            let o4 = o3 + 9;
            let o5 = o4 + (if debug {
                lit_true()
            } else {
                lit_false()
            }).len();
            &&& spec_parse_json_string(s, o3 + 1) == Some((field_debug(), o3 + 8))
            &&& s[o3 + 8] == ':' && spec_skip_ws(s, o3 + 8) == o3 + 8
            &&& spec_skip_ws(s, o4) == o4
            &&& spec_parse_bool(s, o4) == Some((debug, o5))
            &&& s[o5] == ',' && spec_skip_ws(s, o5) == o5
            &&& spec_skip_ws(s, o5 + 1) == o5 + 1
        }),
{
    let fg = field_steam_gameid();
    let fd = field_debug();
    let fa = field_arguments();
    assert(forall|k: int|
        0 <= k < fg.len() ==> (#[trigger] fg[k]) != '"' && fg[k] != '\\' && fg[k] as u32 >= 0x20);
    assert(forall|k: int|
        0 <= k < fd.len() ==> (#[trigger] fd[k]) != '"' && fd[k] != '\\' && fd[k] as u32 >= 0x20);
    assert(forall|k: int|
        0 <= k < fa.len() ==> (#[trigger] fa[k]) != '"' && fa[k] != '\\' && fa[k] as u32 >= 0x20);
    lemma_escape_plain(fg);
    lemma_escape_plain(fd);
    lemma_escape_plain(fa);
    let p1 = lit_obj_open();
    let p2 = spec_json_string(gameid);
    let p3 = lit_debug();
    let p4 = if debug {
        lit_true()
    } else {
        lit_false()
    };
    let p5 = lit_arguments();
    let p6 = spec_json_args(args);
    let p7 = lit_obj_close();
    let s = spec_config_json(gameid, debug, args);
    assert(s == p1 + p2 + p3 + p4 + p5 + p6 + p7);
    let l2 = p2.len() as int;
    let l4 = p4.len() as int;
    let l6 = p6.len() as int;
    let o2: int = 16;
    let o3 = o2 + l2;
    let o4 = o3 + 9;
    let o5 = o4 + l4;
    let o6 = o5 + 14;
    let o7 = o6 + l6;
    assert(s.len() == o7 + 2);
    assert(p1 =~= seq!['{'] + spec_json_string(fg) + seq![':']);
    assert(p3 =~= seq![','] + spec_json_string(fd) + seq![':']);
    assert(p5 =~= seq![','] + spec_json_string(fa) + seq![':', '[']);
    assert(s.subrange(o3 + 1, o3 + 8) =~= spec_json_string(fd)) by {
        assert forall|k: int| 0 <= k < 7 implies s[o3 + 1 + k] == spec_json_string(fd)[k] by {
            assert(s[o3 + 1 + k] == p3[1 + k]);
        }
    }
    lemma_parse_json_string_at(s, o3 + 1, fd);
    assert(s[o3 + 8] == ':');
    assert(spec_skip_ws(s, o3 + 8) == o3 + 8);
    assert(s.subrange(o4, o4 + l4) =~= p4) by {
        assert forall|k: int| 0 <= k < l4 implies s[o4 + k] == p4[k] by {}
    }
    if debug {
        assert(s[o4] == 't');
        assert(spec_skip_ws(s, o4) == o4);
        assert(spec_match_lit(s, o4, lit_true()));
        assert(spec_parse_bool(s, o4) == Some((true, o4 + 4)));
    } else {
        assert(s[o4] == 'f');
        assert(spec_skip_ws(s, o4) == o4);
        assert(!spec_match_lit(s, o4, lit_true())) by {
            if spec_match_lit(s, o4, lit_true()) {
                assert(s.subrange(o4, o4 + 4)[0] == lit_true()[0]);
            }
        }
        assert(spec_match_lit(s, o4, lit_false()));
        assert(spec_parse_bool(s, o4) == Some((false, o4 + 5)));
    }
    assert(s[o5] == ',');
    assert(spec_skip_ws(s, o5) == o5);
    assert(s[o5 + 1] == '"');
    assert(spec_skip_ws(s, o5 + 1) == o5 + 1);
}

/// The close of a rendered configuration: the arguments key, the array
/// and the brace, with nothing but the end after it.
#[verifier::rlimit(100)]
proof fn lemma_tokens_args(gameid: Seq<char>, debug: bool, args: Seq<Seq<char>>)
    ensures
        ({
            let s = spec_config_json(gameid, debug, args);
            let o5 = 16 + spec_json_string(gameid).len() + 9 + (if debug {
                lit_true()
            } else {
                lit_false()
            }).len() as int;
            let o7 = o5 + 14 + spec_json_args(args).len();
            &&& spec_parse_json_string(s, o5 + 1) == Some((field_arguments(), o5 + 12))
            &&& s[o5 + 12] == ':' && spec_skip_ws(s, o5 + 12) == o5 + 12
            &&& spec_skip_ws(s, o5 + 13) == o5 + 13
            &&& spec_parse_args(s, o5 + 13) == Some((args, o7 + 1))
            &&& s[o7 + 1] == '}' && spec_skip_ws(s, o7 + 1) == o7 + 1
            &&& spec_skip_ws(s, o7 + 2) == o7 + 2
        }),
{
    let fg = field_steam_gameid();
    let fd = field_debug();
    let fa = field_arguments();
    assert(forall|k: int|
        0 <= k < fg.len() ==> (#[trigger] fg[k]) != '"' && fg[k] != '\\' && fg[k] as u32 >= 0x20);
    assert(forall|k: int|
        0 <= k < fd.len() ==> (#[trigger] fd[k]) != '"' && fd[k] != '\\' && fd[k] as u32 >= 0x20);
    assert(forall|k: int|
        0 <= k < fa.len() ==> (#[trigger] fa[k]) != '"' && fa[k] != '\\' && fa[k] as u32 >= 0x20);
    lemma_escape_plain(fg);
    lemma_escape_plain(fd);
    lemma_escape_plain(fa);
    let p1 = lit_obj_open();
    let p2 = spec_json_string(gameid);
    let p3 = lit_debug();
    let p4 = if debug {
        lit_true()
    } else {
        lit_false()
    };
    let p5 = lit_arguments();
    let p6 = spec_json_args(args);
    let p7 = lit_obj_close();
    let s = spec_config_json(gameid, debug, args);
    assert(s == p1 + p2 + p3 + p4 + p5 + p6 + p7);
    let l2 = p2.len() as int;
    let l4 = p4.len() as int;
    let l6 = p6.len() as int;
    let o2: int = 16;
    let o3 = o2 + l2;
    let o4 = o3 + 9;
    let o5 = o4 + l4;
    let o6 = o5 + 14;
    let o7 = o6 + l6;
    assert(s.len() == o7 + 2);
    assert(p1 =~= seq!['{'] + spec_json_string(fg) + seq![':']);
    assert(p3 =~= seq![','] + spec_json_string(fd) + seq![':']);
    assert(p5 =~= seq![','] + spec_json_string(fa) + seq![':', '[']);
    assert(s.subrange(o5 + 1, o5 + 12) =~= spec_json_string(fa)) by {
        assert forall|k: int| 0 <= k < 11 implies s[o5 + 1 + k] == spec_json_string(fa)[k] by {
            assert(s[o5 + 1 + k] == p5[1 + k]);
        }
    }
    lemma_parse_json_string_at(s, o5 + 1, fa);
    assert(s[o5 + 12] == ':');
    assert(spec_skip_ws(s, o5 + 12) == o5 + 12);
    assert(s[o5 + 13] == '[');
    assert(spec_skip_ws(s, o5 + 13) == o5 + 13);
    assert(s[o7] == ']');
    assert(s[o7 + 1] == '}');
    if args.len() == 0 {
        assert(l6 == 0);
        assert(spec_skip_ws(s, o6) == o6);
        assert(spec_parse_args(s, o5 + 13) == Some((args, o6 + 1)));
    } else {
        assert(s.subrange(o6, o6 + l6) =~= p6) by {
            assert forall|k: int| 0 <= k < l6 implies s[o6 + k] == p6[k] by {}
        }
        lemma_json_args_starts_quote(args);
        assert(s[o6] == '"') by {
            assert(s.subrange(o6, o6 + l6)[0] == s[o6]);
        }
        assert(spec_skip_ws(s, o6) == o6);
        lemma_parse_args_items_at(s, o6, args);
        assert(spec_parse_args(s, o5 + 13) == Some((args, o7 + 1)));
    }
    assert(spec_skip_ws(s, o7 + 1) == o7 + 1);
    assert(spec_skip_ws(s, o7 + 2) == o7 + 2);
}

/// The member machine's walk over a rendered configuration, given the
/// token layout: the three members in canonical order, then the brace.
#[verifier::rlimit(100)]
proof fn lemma_round_trip_walk(gameid: Seq<char>, debug: bool, args: Seq<Seq<char>>)
    requires
        ({
            let s = spec_config_json(gameid, debug, args);
            let o3 = 16 + spec_json_string(gameid).len() as int;
            &&& s.len() == o3 + 9 + (if debug {
                lit_true()
            } else {
                lit_false()
            }).len() + 14 + spec_json_args(args).len() + 2
            &&& spec_skip_ws(s, 0) == 0 && s[0] == '{'
            &&& spec_skip_ws(s, 1) == 1
            &&& spec_parse_json_string(s, 1) == Some((field_steam_gameid(), 15int))
            &&& s[15] == ':' && spec_skip_ws(s, 15) == 15int
            &&& spec_skip_ws(s, 16) == 16int
            &&& spec_parse_json_string(s, 16) == Some((gameid, o3))
            &&& s[o3] == ',' && spec_skip_ws(s, o3) == o3
            &&& spec_skip_ws(s, o3 + 1) == o3 + 1
        }),
        ({
            let s = spec_config_json(gameid, debug, args);
            let o3 = 16 + spec_json_string(gameid).len() as int;
            let o4 = o3 + 9;
            let o5 = o4 + (if debug {
                lit_true()
            } else {
                lit_false()
            }).len();
            &&& spec_parse_json_string(s, o3 + 1) == Some((field_debug(), o3 + 8))
            &&& s[o3 + 8] == ':' && spec_skip_ws(s, o3 + 8) == o3 + 8
            &&& spec_skip_ws(s, o4) == o4
            &&& spec_parse_bool(s, o4) == Some((debug, o5))
            &&& s[o5] == ',' && spec_skip_ws(s, o5) == o5
            &&& spec_skip_ws(s, o5 + 1) == o5 + 1
        }),
        ({
            let s = spec_config_json(gameid, debug, args);
            let o5 = 16 + spec_json_string(gameid).len() + 9 + (if debug {
                lit_true()
            } else {
                lit_false()
            }).len() as int;
            let o7 = o5 + 14 + spec_json_args(args).len();
            &&& spec_parse_json_string(s, o5 + 1) == Some((field_arguments(), o5 + 12))
            &&& s[o5 + 12] == ':' && spec_skip_ws(s, o5 + 12) == o5 + 12
            &&& spec_skip_ws(s, o5 + 13) == o5 + 13
            &&& spec_parse_args(s, o5 + 13) == Some((args, o7 + 1))
            &&& s[o7 + 1] == '}' && spec_skip_ws(s, o7 + 1) == o7 + 1
            &&& spec_skip_ws(s, o7 + 2) == o7 + 2
        }),
    ensures
        spec_parse_config(spec_config_json(gameid, debug, args)) == Some(
            (gameid, debug, args),
        ),
{
    let fg = field_steam_gameid();
    let fd = field_debug();
    let fa = field_arguments();
    assert(fg.len() == 12 && fd.len() == 5 && fa.len() == 9);
    let s = spec_config_json(gameid, debug, args);
    let l2 = spec_json_string(gameid).len() as int;
    let l4 = (if debug {
        lit_true()
    } else {
        lit_false()
    }).len() as int;
    let l6 = spec_json_args(args).len() as int;
    let o3 = 16 + l2;
    let o4 = o3 + 9;
    let o5 = o4 + l4;
    let o6 = o5 + 14;
    let o7 = o6 + l6;
    assert(spec_parse_member_value(s, o5 + 13, fa, Some(gameid), Some(debug), None) == Some(
        (Some(gameid), Some(debug), Some(args), o7 + 1),
    ));
    assert(spec_parse_config_members(s, o5 + 1, Some(gameid), Some(debug), None) == Some(
        ((gameid, debug, args), o7 + 2),
    ));
    assert(spec_parse_member_value(s, o4, fd, Some(gameid), None, None) == Some(
        (Some(gameid), Some(debug), None::<Seq<Seq<char>>>, o5),
    ));
    assert(spec_parse_config_members(s, o3 + 1, Some(gameid), None, None) == Some(
        ((gameid, debug, args), o7 + 2),
    ));
    assert(spec_parse_member_value(s, 16, fg, None, None, None) == Some(
        (Some(gameid), None::<bool>, None::<Seq<Seq<char>>>, o3),
    ));
    assert(spec_parse_config_members(s, 1, None, None, None) == Some(
        ((gameid, debug, args), o7 + 2),
    ));
}

/// A rendered configuration always parses back to exactly the values it
/// was rendered from: saving and loading the configuration can never
/// change or lose it.
pub proof fn lemma_config_json_round_trip(gameid: Seq<char>, debug: bool, args: Seq<Seq<char>>)
    ensures
        spec_parse_config(spec_config_json(gameid, debug, args)) == Some(
            (gameid, debug, args),
        ),
{
    lemma_tokens_head(gameid, debug, args);
    lemma_tokens_debug(gameid, debug, args);
    lemma_tokens_args(gameid, debug, args);
    lemma_round_trip_walk(gameid, debug, args);
}

} // verus!
