//! The shortcut file's binary layout.
//!
//! The file is a binary keyed-value tree: each value is a type byte, a
//! NUL-terminated name, and a payload — a NUL-terminated byte string, a
//! raw four-byte integer, or a list of nested values closed by a single
//! end byte. The whole file is one list named `shortcuts` followed by one
//! extra end byte.

use vstd::prelude::*;

use crate::shortcuts::{views_of, ShortcutValue, SpecShortcutValue};

verus! {

/// The type byte of a nested list.
pub open spec fn tag_list() -> u8 {
    0x00
}

/// The type byte of a string property.
pub open spec fn tag_string() -> u8 {
    0x01
}

/// The type byte of a four-byte integer property.
pub open spec fn tag_bytes4() -> u8 {
    0x02
}

/// The byte closing a list.
pub open spec fn tag_end() -> u8 {
    0x08
}

/// The encoding of one value.
pub open spec fn spec_encode_vdf(v: SpecShortcutValue) -> Seq<u8>
    decreases v,
{
    match v {
        SpecShortcutValue::StringProp(n, val) => seq![tag_string()] + n + seq![0x00u8] + val
            + seq![0x00u8],
        SpecShortcutValue::Bytes4Prop(n, val) => seq![tag_bytes4()] + n + seq![0x00u8] + val,
        SpecShortcutValue::List(n, items) => seq![tag_list()] + n + seq![0x00u8]
            + spec_encode_vdf_seq(items) + seq![tag_end()],
    }
}

/// The concatenated encodings of a list's items, in order.
pub open spec fn spec_encode_vdf_seq(items: Seq<SpecShortcutValue>) -> Seq<u8>
    decreases items,
{
    if items.len() == 0 {
        Seq::empty()
    } else {
        spec_encode_vdf_seq(items.drop_last()) + spec_encode_vdf(items.last())
    }
}

fn encode_vdf_into(v: &ShortcutValue, out: &mut Vec<u8>)
    ensures
        final(out)@ == old(out)@ + spec_encode_vdf(v@),
    decreases v@,
{
    let ghost start = out@;
    match v {
        ShortcutValue::StringProp(n, val) => {
            out.push(0x01);
            out.extend_from_slice(n.as_slice());
            out.push(0x00);
            out.extend_from_slice(val.as_slice());
            out.push(0x00);
            proof {
                assert(out@ =~= start + spec_encode_vdf(v@));
            }
        },
        ShortcutValue::Bytes4Prop(n, val) => {
            out.push(0x02);
            out.extend_from_slice(n.as_slice());
            out.push(0x00);
            out.extend_from_slice(val.as_slice());
            proof {
                assert(out@ =~= start + spec_encode_vdf(v@));
            }
        },
        ShortcutValue::List(n, items) => {
            out.push(0x00);
            out.extend_from_slice(n.as_slice());
            out.push(0x00);
            let ghost items_v = views_of(items@);
            let ghost head = out@;
            let mut i: usize = 0;
            while i < items.len()
                invariant
                    i <= items@.len(),
                    items_v == views_of(items@),
                    v@ matches SpecShortcutValue::List(nn2, ii2) && ii2 =~= items_v,
                    out@ == head + spec_encode_vdf_seq(items_v.take(i as int)),
                decreases items@.len() - i,
            {
                proof {
                    broadcast use vstd::seq::group_seq_axioms;

                    assert(items_v.take(i + 1).drop_last() =~= items_v.take(i as int));
                    assert(items_v.take(i + 1).last() == items_v[i as int]);
                    assert(items_v[i as int] == items@[i as int]@);
                    assert(decreases_to!(v@ => items_v[i as int]));
                }
                encode_vdf_into(&items[i], out);
                i = i + 1;
            }
            proof {
                assert(items_v.take(items@.len() as int) =~= items_v);
            }
            out.push(0x08);
            proof {
                assert(v@ matches SpecShortcutValue::List(nn, ii) && nn == n@ && ii =~= items_v);
                assert(out@ =~= start + spec_encode_vdf(v@));
            }
        },
    }
}

/// Renders one shortcut value in the file's binary layout.
pub fn encode_shortcut_data(v: &ShortcutValue) -> (r: Vec<u8>)
    ensures
        r@ == spec_encode_vdf(v@),
{
    let mut out: Vec<u8> = Vec::new();
    encode_vdf_into(v, &mut out);
    proof {
        assert(out@ =~= spec_encode_vdf(v@));
    }
    out
}

/// Renders a whole shortcut file: the top-level value followed by the
/// closing end byte.
pub fn encode_shortcuts_file(v: &ShortcutValue) -> (r: Vec<u8>)
    ensures
        r@ == spec_encode_vdf(v@) + seq![tag_end()],
{
    let mut out: Vec<u8> = Vec::new();
    encode_vdf_into(v, &mut out);
    out.push(0x08);
    proof {
        assert(out@ =~= spec_encode_vdf(v@) + seq![tag_end()]);
    }
    out
}

/// The empty shortcut list a missing file stands for.
pub fn empty_shortcut_list() -> (r: ShortcutValue)
    ensures
        r@ == SpecShortcutValue::List(
            seq![0x73u8, 0x68u8, 0x6fu8, 0x72u8, 0x74u8, 0x63u8, 0x75u8, 0x74u8, 0x73u8],
            Seq::<SpecShortcutValue>::empty(),
        ),
{
    let r = ShortcutValue::List(
        vec![0x73u8, 0x68u8, 0x6fu8, 0x72u8, 0x74u8, 0x63u8, 0x75u8, 0x74u8, 0x73u8],
        Vec::new(),
    );
    proof {
        assert(r@ matches SpecShortcutValue::List(n, items) && n =~= seq![
            0x73u8, 0x68u8, 0x6fu8, 0x72u8, 0x74u8, 0x63u8, 0x75u8, 0x74u8, 0x73u8,
        ] && items =~= Seq::<SpecShortcutValue>::empty());
    }
    r
}

/// The position of the first NUL byte at or after `i`.
pub open spec fn spec_scan_nul(s: Seq<u8>, i: int) -> Option<int>
    decreases s.len() - i,
{
    if !(0 <= i) || i >= s.len() {
        None
    } else if s[i] == 0x00 {
        Some(i)
    } else {
        spec_scan_nul(s, i + 1)
    }
}

proof fn lemma_scan_nul_bounds(s: Seq<u8>, i: int)
    requires
        0 <= i <= s.len(),
    ensures
        spec_scan_nul(s, i) matches Some(e) ==> i <= e < s.len(),
    decreases s.len() - i,
{
    if i < s.len() && s[i] != 0x00 {
        lemma_scan_nul_bounds(s, i + 1);
    }
}

/// Parses one value at position `i`: the value and the position after it.
pub open spec fn spec_decode_vdf(s: Seq<u8>, i: int) -> Option<(SpecShortcutValue, int)>
    decreases s.len() - i, 0int,
    via spec_decode_vdf_dec
{
    if !(0 <= i) || i >= s.len() {
        None
    } else {
        let t = s[i];
        match spec_scan_nul(s, i + 1) {
            None => None,
            Some(n_end) => {
                let name = s.subrange(i + 1, n_end);
                if t == tag_string() {
                    match spec_scan_nul(s, n_end + 1) {
                        None => None,
                        Some(v_end) => Some(
                            (
                                SpecShortcutValue::StringProp(
                                    name,
                                    s.subrange(n_end + 1, v_end),
                                ),
                                v_end + 1,
                            ),
                        ),
                    }
                } else if t == tag_bytes4() {
                    if n_end + 5 <= s.len() {
                        Some(
                            (
                                SpecShortcutValue::Bytes4Prop(
                                    name,
                                    s.subrange(n_end + 1, n_end + 5),
                                ),
                                n_end + 5,
                            ),
                        )
                    } else {
                        None
                    }
                } else if t == tag_list() {
                    match spec_decode_items(s, n_end + 1) {
                        None => None,
                        Some(p) => Some((SpecShortcutValue::List(name, p.0), p.1)),
                    }
                } else {
                    None
                }
            },
        }
    }
}

/// Parses a list's items at position `i` up to and past the closing end
/// byte.
pub open spec fn spec_decode_items(s: Seq<u8>, i: int) -> Option<(Seq<SpecShortcutValue>, int)>
    decreases s.len() - i, 1int,
{
    if !(0 <= i) || i >= s.len() {
        None
    } else if s[i] == tag_end() {
        Some((Seq::empty(), i + 1))
    } else {
        match spec_decode_vdf(s, i) {
            None => None,
            Some((v, j)) => {
                if j <= i || j > s.len() {
                    None
                } else {
                    match spec_decode_items(s, j) {
                        None => None,
                        Some((rest, e)) => Some((seq![v] + rest, e)),
                    }
                }
            },
        }
    }
}

#[via_fn]
proof fn spec_decode_vdf_dec(s: Seq<u8>, i: int) {
    if 0 <= i < s.len() {
        lemma_scan_nul_bounds(s, i + 1);
    }
}

proof fn lemma_decode_vdf_bounds(s: Seq<u8>, i: int)
    requires
        0 <= i <= s.len(),
    ensures
        spec_decode_vdf(s, i) matches Some(p) ==> i < p.1 <= s.len(),
    decreases s.len() - i, 0int,
{
    if 0 <= i < s.len() {
        lemma_scan_nul_bounds(s, i + 1);
        match spec_scan_nul(s, i + 1) {
            None => {},
            Some(n_end) => {
                lemma_scan_nul_bounds(s, n_end + 1);
                if s[i] == tag_list() {
                    lemma_decode_items_bounds(s, n_end + 1);
                }
            },
        }
    }
}

proof fn lemma_decode_items_bounds(s: Seq<u8>, i: int)
    requires
        0 <= i <= s.len(),
    ensures
        spec_decode_items(s, i) matches Some(p) ==> i < p.1 <= s.len(),
    decreases s.len() - i, 1int,
{
    if 0 <= i < s.len() && s[i] != tag_end() {
        lemma_decode_vdf_bounds(s, i);
        match spec_decode_vdf(s, i) {
            None => {},
            Some((v, j)) => {
                if i < j <= s.len() {
                    lemma_decode_items_bounds(s, j);
                }
            },
        }
    }
}

fn scan_nul(s: &Vec<u8>, i: usize) -> (r: Option<usize>)
    requires
        i <= s@.len(),
    ensures
        (r is Some) == (spec_scan_nul(s@, i as int) is Some),
        r matches Some(e) ==> spec_scan_nul(s@, i as int) == Some(e as int) && i <= e < s@.len(),
{
    let mut q = i;
    while q < s.len()
        invariant
            i <= q <= s@.len(),
            spec_scan_nul(s@, i as int) == spec_scan_nul(s@, q as int),
        decreases s@.len() - q,
    {
        if s[q] == 0x00 {
            return Some(q);
        }
        q = q + 1;
    }
    None
}

fn copy_range(s: &Vec<u8>, from: usize, to: usize) -> (r: Vec<u8>)
    requires
        from <= to <= s@.len(),
    ensures
        r@ == s@.subrange(from as int, to as int),
{
    let mut r: Vec<u8> = Vec::new();
    let mut j = from;
    while j < to
        invariant
            from <= j <= to <= s@.len(),
            r@ =~= s@.subrange(from as int, j as int),
        decreases to - j,
    {
        r.push(s[j]);
        proof {
            assert(r@ =~= s@.subrange(from as int, j + 1));
        }
        j = j + 1;
    }
    r
}

fn decode_vdf_at(s: &Vec<u8>, i: usize) -> (r: Option<(ShortcutValue, usize)>)
    requires
        i <= s@.len(),
    ensures
        (r is Some) == (spec_decode_vdf(s@, i as int) is Some),
        r matches Some(p) ==> (spec_decode_vdf(s@, i as int) matches Some(q) && p.0@ == q.0 && p.1
            as int == q.1 && i < p.1 <= s@.len()),
    decreases s@.len() - i, 0int,
{
    proof {
        lemma_decode_vdf_bounds(s@, i as int);
    }
    if i >= s.len() {
        return None;
    }
    let t = s[i];
    let n_end = match scan_nul(s, i + 1) {
        Some(e) => e,
        None => {
            return None;
        },
    };
    let name = copy_range(s, i + 1, n_end);
    if t == 0x01 {
        match scan_nul(s, n_end + 1) {
            Some(v_end) => {
                let val = copy_range(s, n_end + 1, v_end);
                Some((ShortcutValue::StringProp(name, val), v_end + 1))
            },
            None => None,
        }
    } else if t == 0x02 {
        if s.len() - n_end >= 5 {
            let val = copy_range(s, n_end + 1, n_end + 5);
            Some((ShortcutValue::Bytes4Prop(name, val), n_end + 5))
        } else {
            None
        }
    } else if t == 0x00 {
        match decode_items_at(s, n_end + 1) {
            Some((items, e)) => {
                let v = ShortcutValue::List(name, items);
                proof {
                    assert(v@ matches SpecShortcutValue::List(nn, ii) && nn == name@ && ii
                        =~= views_of(v->List_1@));
                }
                Some((v, e))
            },
            None => None,
        }
    } else {
        None
    }
}

fn decode_items_at(s: &Vec<u8>, i: usize) -> (r: Option<(Vec<ShortcutValue>, usize)>)
    requires
        i <= s@.len(),
    ensures
        (r is Some) == (spec_decode_items(s@, i as int) is Some),
        r matches Some(p) ==> (spec_decode_items(s@, i as int) matches Some(q) && views_of(p.0@)
            =~= q.0 && p.1 as int == q.1 && i < p.1 <= s@.len()),
    decreases s@.len() - i, 1int,
{
    proof {
        lemma_decode_items_bounds(s@, i as int);
    }
    if i >= s.len() {
        return None;
    }
    if s[i] == 0x08 {
        return Some((Vec::new(), i + 1));
    }
    match decode_vdf_at(s, i) {
        None => None,
        Some((v, j)) => {
            let ghost v_view = v@;
            match decode_items_at(s, j) {
                None => None,
                Some((mut rest, e)) => {
                    let ghost tail = views_of(rest@);
                    rest.insert(0, v);
                    proof {
                        assert(views_of(rest@) =~= seq![v_view] + tail);
                    }
                    Some((rest, e))
                },
            }
        },
    }
}

/// Parses the top-level value of a shortcut file; bytes after it (the
/// file's closing end byte) are ignored, as the original reader of the
/// format leaves them unread.
pub fn decode_shortcut_data(bytes: &Vec<u8>) -> (r: Option<ShortcutValue>)
    ensures
        (r is Some) == (spec_decode_vdf(bytes@, 0) is Some),
        r matches Some(v) ==> (spec_decode_vdf(bytes@, 0) matches Some(q) && v@ == q.0),
{
    match decode_vdf_at(bytes, 0) {
        Some((v, _end)) => Some(v),
        None => None,
    }
}

/// A byte string that can stand NUL-terminated in the file.
pub open spec fn nul_free(s: Seq<u8>) -> bool {
    forall|i: int| 0 <= i < s.len() ==> s[i] != 0x00
}

/// A tree the file's layout can carry faithfully: every name and string
/// value free of NUL bytes, every integer property exactly four bytes.
pub open spec fn wf_vdf(v: SpecShortcutValue) -> bool
    decreases v,
{
    match v {
        SpecShortcutValue::StringProp(n, val) => nul_free(n) && nul_free(val),
        SpecShortcutValue::Bytes4Prop(n, val) => nul_free(n) && val.len() == 4,
        SpecShortcutValue::List(n, items) => nul_free(n) && (forall|k: int|
            0 <= k < items.len() ==> wf_vdf(#[trigger] items[k])),
    }
}

proof fn lemma_scan_nul_at(s: Seq<u8>, i: int, n: Seq<u8>)
    requires
        0 <= i,
        nul_free(n),
        i + n.len() + 1 <= s.len(),
        s.subrange(i, i + n.len() as int) == n,
        s[i + n.len()] == 0x00,
    ensures
        spec_scan_nul(s, i) == Some(i + n.len()),
    decreases n.len(),
{
    if n.len() == 0 {
        assert(s[i] == 0x00);
    } else {
        assert(s[i] == n[0]) by {
            assert(s.subrange(i, i + n.len() as int)[0] == s[i]);
        }
        assert(n[0] != 0x00);
        let n2 = n.drop_first();
        assert(s.subrange(i + 1, i + 1 + n2.len() as int) =~= n2) by {
            assert forall|k: int| 0 <= k < n2.len() implies s[i + 1 + k] == n2[k] by {
                assert(s.subrange(i, i + n.len() as int)[1 + k] == s[i + 1 + k]);
            }
        }
        lemma_scan_nul_at(s, i + 1, n2);
    }
}

proof fn lemma_encode_seq_append(a: Seq<SpecShortcutValue>, b: Seq<SpecShortcutValue>)
    ensures
        spec_encode_vdf_seq(a + b) == spec_encode_vdf_seq(a) + spec_encode_vdf_seq(b),
    decreases b.len(),
{
    if b.len() == 0 {
        assert(a + b =~= a);
        assert(spec_encode_vdf_seq(a) + spec_encode_vdf_seq(b) =~= spec_encode_vdf_seq(a));
    } else {
        assert((a + b).drop_last() =~= a + b.drop_last());
        assert((a + b).last() == b.last());
        lemma_encode_seq_append(a, b.drop_last());
        assert(spec_encode_vdf_seq(a) + spec_encode_vdf_seq(b.drop_last()) + spec_encode_vdf(
            b.last(),
        ) =~= spec_encode_vdf_seq(a) + spec_encode_vdf_seq(b));
        assert(spec_encode_vdf_seq(a + b) =~= spec_encode_vdf_seq(a) + spec_encode_vdf_seq(b));
    }
}

proof fn lemma_encode_seq_first(items: Seq<SpecShortcutValue>)
    requires
        items.len() >= 1,
    ensures
        spec_encode_vdf_seq(items) == spec_encode_vdf(items[0]) + spec_encode_vdf_seq(
            items.drop_first(),
        ),
{
    assert(items =~= items.take(1) + items.skip(1));
    lemma_encode_seq_append(items.take(1), items.skip(1));
    assert(items.take(1).drop_last() =~= Seq::<SpecShortcutValue>::empty());
    assert(items.take(1).last() == items[0]);
    assert(spec_encode_vdf_seq(Seq::<SpecShortcutValue>::empty())
        =~= Seq::<u8>::empty());
    assert(spec_encode_vdf_seq(items.take(1)) =~= spec_encode_vdf(items[0]));
    assert(items.skip(1) =~= items.drop_first());
}

proof fn lemma_encode_first_byte(v: SpecShortcutValue)
    ensures
        spec_encode_vdf(v).len() >= 2,
        spec_encode_vdf(v)[0] == tag_string() || spec_encode_vdf(v)[0] == tag_bytes4()
            || spec_encode_vdf(v)[0] == tag_list(),
{
}

/// The parser consumes exactly the rendering of a well-formed value.
proof fn lemma_decode_encoded_at(s: Seq<u8>, i: int, v: SpecShortcutValue)
    requires
        0 <= i,
        wf_vdf(v),
        i + spec_encode_vdf(v).len() <= s.len(),
        s.subrange(i, i + spec_encode_vdf(v).len() as int) == spec_encode_vdf(v),
    ensures
        spec_decode_vdf(s, i) == Some((v, i + spec_encode_vdf(v).len())),
    decreases s.len() - i, 0int,
{
    let e = spec_encode_vdf(v);
    let el = e.len() as int;
    match v {
        SpecShortcutValue::StringProp(n, val) => {
            let nl = n.len() as int;
            let vl = val.len() as int;
            assert(s[i] == tag_string()) by {
                assert(s.subrange(i, i + el)[0] == s[i]);
            }
            assert(s.subrange(i + 1, i + 1 + nl) =~= n) by {
                assert forall|k: int| 0 <= k < nl implies s[i + 1 + k] == n[k] by {
                    assert(s.subrange(i, i + el)[1 + k] == s[i + 1 + k]);
                    assert(e[1 + k] == n[k]);
                }
            }
            assert(s[i + 1 + nl] == 0x00) by {
                assert(s.subrange(i, i + el)[1 + nl] == s[i + 1 + nl]);
                assert(e[1 + nl] == 0x00);
            }
            lemma_scan_nul_at(s, i + 1, n);
            let n_end = i + 1 + nl;
            assert(s.subrange(n_end + 1, n_end + 1 + vl) =~= val) by {
                assert forall|k: int| 0 <= k < vl implies s[n_end + 1 + k] == val[k] by {
                    assert(s.subrange(i, i + el)[2 + nl + k] == s[n_end + 1 + k]);
                    assert(e[2 + nl + k] == val[k]);
                }
            }
            assert(s[n_end + 1 + vl] == 0x00) by {
                assert(s.subrange(i, i + el)[2 + nl + vl] == s[n_end + 1 + vl]);
                assert(e[2 + nl + vl] == 0x00);
            }
            lemma_scan_nul_at(s, n_end + 1, val);
        },
        SpecShortcutValue::Bytes4Prop(n, val) => {
            let nl = n.len() as int;
            assert(s[i] == tag_bytes4()) by {
                assert(s.subrange(i, i + el)[0] == s[i]);
            }
            assert(s.subrange(i + 1, i + 1 + nl) =~= n) by {
                assert forall|k: int| 0 <= k < nl implies s[i + 1 + k] == n[k] by {
                    assert(s.subrange(i, i + el)[1 + k] == s[i + 1 + k]);
                    assert(e[1 + k] == n[k]);
                }
            }
            assert(s[i + 1 + nl] == 0x00) by {
                assert(s.subrange(i, i + el)[1 + nl] == s[i + 1 + nl]);
                assert(e[1 + nl] == 0x00);
            }
            lemma_scan_nul_at(s, i + 1, n);
            let n_end = i + 1 + nl;
            assert(s.subrange(n_end + 1, n_end + 5) =~= val) by {
                assert forall|k: int| 0 <= k < 4 implies s[n_end + 1 + k] == val[k] by {
                    assert(s.subrange(i, i + el)[2 + nl + k] == s[n_end + 1 + k]);
                    assert(e[2 + nl + k] == val[k]);
                }
            }
        },
        SpecShortcutValue::List(n, items) => {
            let nl = n.len() as int;
            let il = spec_encode_vdf_seq(items).len() as int;
            assert(s[i] == tag_list()) by {
                assert(s.subrange(i, i + el)[0] == s[i]);
            }
            assert(s.subrange(i + 1, i + 1 + nl) =~= n) by {
                assert forall|k: int| 0 <= k < nl implies s[i + 1 + k] == n[k] by {
                    assert(s.subrange(i, i + el)[1 + k] == s[i + 1 + k]);
                    assert(e[1 + k] == n[k]);
                }
            }
            assert(s[i + 1 + nl] == 0x00) by {
                assert(s.subrange(i, i + el)[1 + nl] == s[i + 1 + nl]);
                assert(e[1 + nl] == 0x00);
            }
            lemma_scan_nul_at(s, i + 1, n);
            let n_end = i + 1 + nl;
            assert(s.subrange(n_end + 1, n_end + 1 + il) =~= spec_encode_vdf_seq(items)) by {
                assert forall|k: int| 0 <= k < il implies s[n_end + 1 + k] == spec_encode_vdf_seq(
                    items,
                )[k] by {
                    assert(s.subrange(i, i + el)[2 + nl + k] == s[n_end + 1 + k]);
                    assert(e[2 + nl + k] == spec_encode_vdf_seq(items)[k]);
                }
            }
            assert(s[n_end + 1 + il] == tag_end()) by {
                assert(s.subrange(i, i + el)[2 + nl + il] == s[n_end + 1 + il]);
                assert(e[2 + nl + il] == tag_end());
            }
            lemma_decode_encoded_items(s, n_end + 1, items);
        },
    }
}

/// The parser consumes exactly the renderings of well-formed items and
/// the list's closing byte.
proof fn lemma_decode_encoded_items(s: Seq<u8>, i: int, items: Seq<SpecShortcutValue>)
    requires
        0 <= i,
        forall|k: int| 0 <= k < items.len() ==> wf_vdf(#[trigger] items[k]),
        i + spec_encode_vdf_seq(items).len() + 1 <= s.len(),
        s.subrange(i, i + spec_encode_vdf_seq(items).len() as int) == spec_encode_vdf_seq(items),
        s[i + spec_encode_vdf_seq(items).len()] == tag_end(),
    ensures
        spec_decode_items(s, i) == Some((items, i + spec_encode_vdf_seq(items).len() + 1)),
    decreases s.len() - i, 1int,
{
    if items.len() == 0 {
        assert(s[i] == tag_end());
    } else {
        let first = items[0];
        let rest = items.drop_first();
        lemma_encode_seq_first(items);
        let fl = spec_encode_vdf(first).len() as int;
        let rl = spec_encode_vdf_seq(rest).len() as int;
        let al = fl + rl;
        assert(spec_encode_vdf_seq(items).len() == al);
        lemma_encode_first_byte(first);
        assert(s[i] == spec_encode_vdf(first)[0]) by {
            assert(s.subrange(i, i + al)[0] == s[i]);
            assert(spec_encode_vdf_seq(items)[0] == spec_encode_vdf(first)[0]);
        }
        assert(s[i] != tag_end());
        assert(s.subrange(i, i + fl) =~= spec_encode_vdf(first)) by {
            assert forall|k: int| 0 <= k < fl implies s[i + k] == spec_encode_vdf(first)[k] by {
                assert(s.subrange(i, i + al)[k] == s[i + k]);
                assert(spec_encode_vdf_seq(items)[k] == spec_encode_vdf(first)[k]);
            }
        }
        lemma_decode_encoded_at(s, i, first);
        let j = i + fl;
        assert(s.subrange(j, j + rl) =~= spec_encode_vdf_seq(rest)) by {
            assert forall|k: int| 0 <= k < rl implies s[j + k] == spec_encode_vdf_seq(rest)[k] by {
                assert(s.subrange(i, i + al)[fl + k] == s[j + k]);
                assert(spec_encode_vdf_seq(items)[fl + k] == spec_encode_vdf_seq(rest)[k]);
            }
        }
        assert(s[j + rl] == tag_end());
        assert forall|k: int| 0 <= k < rest.len() implies wf_vdf(#[trigger] rest[k]) by {
            assert(rest[k] == items[k + 1]);
        }
        lemma_decode_encoded_items(s, j, rest);
        assert(seq![first] + rest =~= items);
    }
}

/// A rendered well-formed tree always parses back as itself, whatever
/// bytes follow it (such as the file's own closing byte).
pub proof fn lemma_vdf_round_trip(v: SpecShortcutValue, trailing: Seq<u8>)
    requires
        wf_vdf(v),
    ensures
        spec_decode_vdf(spec_encode_vdf(v) + trailing, 0) == Some(
            (v, spec_encode_vdf(v).len() as int),
        ),
{
    let s = spec_encode_vdf(v) + trailing;
    assert(s.subrange(0, spec_encode_vdf(v).len() as int) =~= spec_encode_vdf(v));
    lemma_decode_encoded_at(s, 0, v);
}


} // verus!
