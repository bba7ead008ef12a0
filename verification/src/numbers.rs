//! Decimal rendering and parsing of the positional indices used by the
//! shortcut list, over raw bytes as they stand in the shortcut file.

use vstd::prelude::*;

verus! {

/// The byte of one decimal digit.
pub open spec fn dec_digit(d: nat) -> u8 {
    (0x30 + d) as u8
}

/// The shortest decimal rendering of `n`, most significant digit first.
pub open spec fn spec_dec_bytes(n: nat) -> Seq<u8>
    decreases n,
{
    if n < 10 {
        seq![dec_digit(n)]
    } else {
        spec_dec_bytes(n / 10).push(dec_digit(n % 10))
    }
}

pub open spec fn is_dec_digit(b: u8) -> bool {
    0x30 <= b <= 0x39
}

pub open spec fn all_dec_digits(s: Seq<u8>) -> bool {
    forall|i: int| 0 <= i < s.len() ==> is_dec_digit(s[i])
}

/// The numeric value of a digit string, most significant digit first.
pub open spec fn dec_value(s: Seq<u8>) -> nat
    decreases s.len(),
{
    if s.len() == 0 {
        0
    } else {
        (dec_value(s.drop_last()) * 10 + (s.last() - 0x30)) as nat
    }
}

/// Renders `n` in decimal, as `u64::to_string` would.
pub fn u64_to_dec_bytes(n: u64) -> (r: Vec<u8>)
    ensures
        r@ == spec_dec_bytes(n as nat),
    decreases n,
{
    if n < 10 {
        let mut v: Vec<u8> = Vec::new();
        v.push(0x30 + (n as u8));
        v
    } else {
        let mut v = u64_to_dec_bytes(n / 10);
        v.push(0x30 + ((n % 10) as u8));
        v
    }
}

/// A digit-string prefix never exceeds the value of the whole string.
proof fn lemma_dec_value_prefix_le(s: Seq<u8>, j: int)
    requires
        0 <= j <= s.len(),
        all_dec_digits(s),
    ensures
        dec_value(s.take(j)) <= dec_value(s),
    decreases s.len() - j,
{
    if j < s.len() {
        assert(s.take(j + 1).drop_last() =~= s.take(j));
        assert(s.take(j + 1).last() == s[j]);
        assert(dec_value(s.take(j)) <= dec_value(s.take(j)) * 10 + (s[j] - 0x30));
        lemma_dec_value_prefix_le(s, j + 1);
    } else {
        assert(s.take(j) =~= s);
    }
}

/// Parses a decimal digit string into a `u64`: defined exactly on nonempty
/// all-digit strings whose value fits.
pub fn parse_u64_dec(s: &Vec<u8>) -> (r: Option<u64>)
    ensures
        r is Some <==> s@.len() > 0 && all_dec_digits(s@) && dec_value(s@) <= u64::MAX,
        r matches Some(v) ==> v == dec_value(s@),
{
    if s.len() == 0 {
        return None;
    }
    let mut acc: u64 = 0;
    let mut i: usize = 0;
    while i < s.len()
        invariant
            0 < s@.len(),
            i <= s@.len(),
            forall|j: int| 0 <= j < i ==> is_dec_digit(s@[j]),
            acc == dec_value(s@.take(i as int)),
        decreases s@.len() - i,
    {
        let b = s[i];
        if b < 0x30 || b > 0x39 {
            return None;
        }
        let d = (b - 0x30) as u64;
        proof {
            assert(s@.take(i + 1).drop_last() =~= s@.take(i as int));
            assert(s@.take(i + 1).last() == s@[i as int]);
        }
        let next = match acc.checked_mul(10) {
            Some(x) => match x.checked_add(d) {
                Some(y) => y,
                None => {
                    proof {
                        assert(dec_value(s@.take(i + 1)) > u64::MAX);
                        if all_dec_digits(s@) {
                            lemma_dec_value_prefix_le(s@, i + 1);
                        }
                    }
                    return None;
                },
            },
            None => {
                proof {
                    assert(dec_value(s@.take(i + 1)) >= acc * 10);
                    if all_dec_digits(s@) {
                        lemma_dec_value_prefix_le(s@, i + 1);
                    }
                }
                return None;
            },
        };
        acc = next;
        i = i + 1;
    }
    proof {
        assert(s@.take(s@.len() as int) =~= s@);
    }
    Some(acc)
}

/// A rendered index always parses back to itself: the rendering is
/// nonempty, all digits, and carries exactly the rendered value.
pub proof fn lemma_dec_bytes_value(n: nat)
    ensures
        spec_dec_bytes(n).len() > 0,
        all_dec_digits(spec_dec_bytes(n)),
        dec_value(spec_dec_bytes(n)) == n,
    decreases n,
{
    if n < 10 {
        let s = spec_dec_bytes(n);
        assert(s.len() == 1);
        assert(s.drop_last() =~= Seq::<u8>::empty());
        assert(dec_value(Seq::<u8>::empty()) == 0);
        assert(s.last() == dec_digit(n));
        assert(dec_value(s) == n);
    } else {
        lemma_dec_bytes_value(n / 10);
        let s = spec_dec_bytes(n);
        assert(s.drop_last() =~= spec_dec_bytes(n / 10));
        assert(s.last() == dec_digit(n % 10));
        assert(dec_value(s) == (n / 10) * 10 + n % 10);
        assert(forall|i: int| 0 <= i < s.len() ==> is_dec_digit(#[trigger] s[i]));
    }
}

} // verus!
