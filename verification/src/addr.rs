//! Internet addresses as text: dotted-decimal IPv4 and colon-hexadecimal
//! IPv6 literals, read from bytes.

use vstd::prelude::*;
use vstd::slice::slice_subrange;
use crate::text::{
    all_digits, digits_value, field, fields, is_digit, is_field_ranges, parse_unsigned, split,
};

verus! {

/// The byte that one field of a dotted quad writes: one to three decimal
/// digits, without a leading zero unless the field is `0`, at most 255.
pub open spec fn octet_value(s: Seq<u8>) -> Option<u8> {
    if 1 <= s.len() <= 3 && all_digits(s) && (s.len() == 1 || s[0] != 0x30) && digits_value(s)
        <= 255 {
        Some(digits_value(s) as u8)
    } else {
        None
    }
}

/// The four bytes of a dotted-decimal IPv4 literal: exactly four fields,
/// separated by full stops, each an octet.
pub open spec fn ipv4_value(s: Seq<u8>) -> Option<Seq<u8>> {
    let f = split(s, 0x2e);
    if f.len() == 4 && octet_value(f[0]) is Some && octet_value(f[1]) is Some && octet_value(
        f[2],
    ) is Some && octet_value(f[3]) is Some {
        Some(
            seq![
                octet_value(f[0])->0,
                octet_value(f[1])->0,
                octet_value(f[2])->0,
                octet_value(f[3])->0,
            ],
        )
    } else {
        None
    }
}

/// Reads one field of a dotted quad.
pub fn parse_octet(s: &[u8]) -> (r: Option<u8>)
    ensures
        r == octet_value(s@),
{
    if s.len() < 1 || s.len() > 3 {
        return None;
    }
    let b = s[0];
    if b < 0x30 || b > 0x39 {
        assert(!is_digit(s@[0]));
        return None;
    }
    if s.len() > 1 && b == 0x30 {
        return None;
    }
    match parse_unsigned(s, 255) {
        Some(v) => Some(v as u8),
        None => None,
    }
}

/// Reads a dotted-decimal IPv4 literal.
pub fn parse_ipv4(s: &[u8]) -> (r: Option<[u8; 4]>)
    ensures
        match r {
            Some(a) => ipv4_value(s@) == Some(a@),
            None => ipv4_value(s@) is None,
        },
{
    let parts = fields(s, 0x2e);
    if parts.len() != 4 {
        return None;
    }
    let ghost f = split(s@, 0x2e);
    let (s0, e0) = parts[0];
    let (s1, e1) = parts[1];
    let (s2, e2) = parts[2];
    let (s3, e3) = parts[3];
    assert(parts@[0] == (s0, e0) && parts@[1] == (s1, e1) && parts@[2] == (s2, e2) && parts@[3]
        == (s3, e3));
    let a = match parse_octet(slice_subrange(s, s0, e0)) {
        Some(v) => v,
        None => {
            return None;
        },
    };
    let b = match parse_octet(slice_subrange(s, s1, e1)) {
        Some(v) => v,
        None => {
            return None;
        },
    };
    let c = match parse_octet(slice_subrange(s, s2, e2)) {
        Some(v) => v,
        None => {
            return None;
        },
    };
    let d = match parse_octet(slice_subrange(s, s3, e3)) {
        Some(v) => v,
        None => {
            return None;
        },
    };
    let out = [a, b, c, d];
    assert(out@ =~= seq![a, b, c, d]);
    Some(out)
}

/// Whether `b` is an ASCII hexadecimal digit, in either case.
pub open spec fn is_hex_digit(b: u8) -> bool {
    is_digit(b) || 0x41 <= b <= 0x46 || 0x61 <= b <= 0x66
}

/// The value of one hexadecimal digit.
pub open spec fn hex_digit_value(b: u8) -> nat {
    if is_digit(b) {
        (b - 0x30) as nat
    } else if b >= 0x61 {
        (b - 0x61 + 10) as nat
    } else {
        (b - 0x41 + 10) as nat
    }
}

/// Whether every byte of `s` is a hexadecimal digit.
pub open spec fn all_hex_digits(s: Seq<u8>) -> bool {
    forall|i: int| 0 <= i < s.len() ==> is_hex_digit(#[trigger] s[i])
}

/// The number that a run of hexadecimal digits writes.
pub open spec fn hex_value(s: Seq<u8>) -> nat
    decreases s.len(),
{
    if s.len() == 0 {
        0
    } else {
        hex_value(s.drop_last()) * 16 + hex_digit_value(s.last())
    }
}

/// The 16 bits that one hexadecimal field of an IPv6 literal writes: one to
/// four hexadecimal digits.
pub open spec fn hex_group(s: Seq<u8>) -> Option<u16> {
    if 1 <= s.len() <= 4 && all_hex_digits(s) {
        Some(hex_value(s) as u16)
    } else {
        None
    }
}

/// Up to four hexadecimal digits fit in 16 bits.
pub proof fn lemma_hex_value_bound(s: Seq<u8>)
    requires
        all_hex_digits(s),
        s.len() <= 4,
    ensures
        s.len() == 0 ==> hex_value(s) == 0,
        s.len() == 1 ==> hex_value(s) < 0x10,
        s.len() == 2 ==> hex_value(s) < 0x100,
        s.len() == 3 ==> hex_value(s) < 0x1000,
        s.len() == 4 ==> hex_value(s) < 0x10000,
    decreases s.len(),
{
    if s.len() > 0 {
        lemma_hex_value_bound(s.drop_last());
        assert(is_hex_digit(s.last()));
    }
}

/// The two 16-bit groups that a dotted quad fills at the end of an IPv6
/// literal.
pub open spec fn quad_groups(o: Seq<u8>) -> Seq<u16> {
    seq![(o[0] * 256 + o[1]) as u16, (o[2] * 256 + o[3]) as u16]
}

/// The groups that a list of colon-separated fields writes. Every field is
/// a hexadecimal group; where `v4` holds, the last one may instead be a
/// dotted quad, which stands for two groups.
pub open spec fn group_list(f: Seq<Seq<u8>>, v4: bool) -> Option<Seq<u16>>
    decreases f.len(),
{
    if f.len() == 0 {
        Some(Seq::empty())
    } else {
        match group_list(f.drop_last(), false) {
            None => None,
            Some(g) => match hex_group(f.last()) {
                Some(h) => Some(g.push(h)),
                None => if v4 && ipv4_value(f.last()) is Some {
                    Some(g + quad_groups(ipv4_value(f.last())->0))
                } else {
                    None
                },
            },
        }
    }
}

/// The groups that one side of an IPv6 literal writes: none where the side
/// is empty, else its colon-separated fields.
pub open spec fn side_groups(part: Seq<u8>, v4: bool) -> Option<Seq<u16>> {
    if part.len() == 0 {
        Some(Seq::empty())
    } else {
        group_list(split(part, 0x3a), v4)
    }
}

/// Whether two colons stand together at index `j` of `s`.
pub open spec fn gap_at(s: Seq<u8>, j: int) -> bool {
    0 <= j && j + 1 < s.len() && s[j] == 0x3a && s[j + 1] == 0x3a
}

/// Index of the first pair of adjacent colons in `s`, or `s.len()` if there
/// is none.
pub open spec fn find_gap(s: Seq<u8>) -> int
    decreases s.len(),
{
    if s.len() < 2 {
        s.len() as int
    } else if gap_at(s, 0) {
        0
    } else {
        1 + find_gap(s.drop_first())
    }
}

/// A run of zero groups.
pub open spec fn zero_groups(n: int) -> Seq<u16> {
    Seq::new(n as nat, |i: int| 0u16)
}

/// The eight 16-bit groups of a colon-hexadecimal IPv6 literal.
///
/// Without `::` the literal holds exactly eight groups. With `::`, the
/// groups before it and after it are at most seven, and zero groups fill
/// the gap. A dotted quad may stand for the last two groups.
pub open spec fn ipv6_value(s: Seq<u8>) -> Option<Seq<u16>> {
    let k = find_gap(s);
    if 0 <= k < s.len() {
        match (side_groups(s.take(k), false), side_groups(s.skip(k + 2), true)) {
            (Some(h), Some(t)) => if h.len() + t.len() <= 7 {
                Some(h + zero_groups(8 - h.len() - t.len()) + t)
            } else {
                None
            },
            _ => None,
        }
    } else {
        match side_groups(s, true) {
            Some(g) => if g.len() == 8 {
                Some(g)
            } else {
                None
            },
            None => None,
        }
    }
}

/// An IPv6 literal writes eight groups.
pub proof fn lemma_ipv6_value_len(s: Seq<u8>)
    requires
        ipv6_value(s) is Some,
    ensures
        ipv6_value(s)->0.len() == 8,
{
}

/// `find_gap` returns the least index at which two colons stand together.
pub proof fn lemma_find_gap(s: Seq<u8>)
    ensures
        0 <= find_gap(s) <= s.len(),
        find_gap(s) < s.len() ==> gap_at(s, find_gap(s)),
        forall|j: int| 0 <= j < find_gap(s) ==> !#[trigger] gap_at(s, j),
    decreases s.len(),
{
    if s.len() < 2 {
    } else if gap_at(s, 0) {
    } else {
        let t = s.drop_first();
        lemma_find_gap(t);
        assert forall|j: int| 0 <= j < find_gap(s) implies !#[trigger] gap_at(s, j) by {
            if j > 0 {
                assert(!gap_at(t, j - 1));
                if j + 1 < s.len() {
                    assert(s[j] == t[j - 1]);
                    assert(s[j + 1] == t[j]);
                }
            }
        }
        if find_gap(s) < s.len() {
            assert(gap_at(t, find_gap(t)));
            assert(s[find_gap(s)] == t[find_gap(t)]);
            assert(s[find_gap(s) + 1] == t[find_gap(t) + 1]);
        }
    }
}

/// An index at which two colons stand together (or the end), with no such
/// pair before it, is `find_gap`.
pub proof fn lemma_find_gap_is(s: Seq<u8>, k: int)
    requires
        0 <= k <= s.len(),
        forall|j: int| 0 <= j < k ==> !#[trigger] gap_at(s, j),
        k < s.len() ==> gap_at(s, k),
    ensures
        find_gap(s) == k,
{
    lemma_find_gap(s);
    let f = find_gap(s);
    if f < k {
        assert(gap_at(s, f));
    } else if f > k {
        assert(!gap_at(s, k));
    }
}

/// Reads one hexadecimal field of an IPv6 literal.
pub fn parse_hex_group(s: &[u8]) -> (r: Option<u16>)
    ensures
        r == hex_group(s@),
{
    if s.len() < 1 || s.len() > 4 {
        return None;
    }
    let mut acc: u32 = 0;
    let mut i: usize = 0;
    while i < s.len()
        invariant
            i <= s.len() <= 4,
            forall|j: int| 0 <= j < i ==> is_hex_digit(s@[j]),
            acc == hex_value(s@.take(i as int)),
            acc < 0x10000,
            all_hex_digits(s@.take(i as int)),
        decreases s.len() - i,
    {
        let b = s[i];
        let v: u32 = if 0x30 <= b && b <= 0x39 {
            (b - 0x30) as u32
        } else if 0x61 <= b && b <= 0x66 {
            (b - 0x61 + 10) as u32
        } else if 0x41 <= b && b <= 0x46 {
            (b - 0x41 + 10) as u32
        } else {
            assert(!is_hex_digit(s@[i as int]));
            return None;
        };
        proof {
            let t = s@.take(i + 1);
            assert(t.drop_last() =~= s@.take(i as int));
            assert(t.last() == b);
            assert(all_hex_digits(t)) by {
                assert forall|j: int| 0 <= j < t.len() implies is_hex_digit(#[trigger] t[j]) by {
                    assert(t[j] == s@[j]);
                }
            }
            lemma_hex_value_bound(t);
            lemma_hex_value_bound(s@.take(i as int));
        }
        acc = acc * 16 + v;
        i += 1;
    }
    proof {
        assert(s@.take(i as int) =~= s@);
    }
    Some(acc as u16)
}

/// Reads the groups of one side of an IPv6 literal, `s[start..end]`.
fn parse_side(s: &[u8], start: usize, end: usize, v4: bool) -> (r: Option<Vec<u16>>)
    requires
        start <= end <= s.len(),
    ensures
        match r {
            Some(g) => side_groups(s@.subrange(start as int, end as int), v4) == Some(g@),
            None => side_groups(s@.subrange(start as int, end as int), v4) is None,
        },
{
    let mut out: Vec<u16> = Vec::new();
    if start == end {
        return Some(out);
    }
    let part = slice_subrange(s, start, end);
    let parts = fields(part, 0x3a);
    let ghost f = split(part@, 0x3a);
    let n = parts.len();
    let mut k: usize = 0;
    proof {
        assert(f.take(0) =~= Seq::<Seq<u8>>::empty());
    }
    while k + 1 < n
        invariant
            k + 1 <= n,
            n == parts@.len(),
            n == f.len(),
            start < end <= s@.len(),
            part@ == s@.subrange(start as int, end as int),
            f == split(part@, 0x3a),
            is_field_ranges(part@, 0x3a, parts@),
            group_list(f.take(k as int), false) == Some(out@),
        decreases n - k,
    {
        let item = field(part, 0x3a, &parts, k);
        proof {
            lemma_group_list_step(f, k as int);
        }
        match parse_hex_group(item) {
            Some(h) => {
                out.push(h);
            },
            None => {
                proof {
                    lemma_group_list_prefix_fails(f, k + 1, v4);
                }
                return None;
            },
        }
        k += 1;
    }
    let item = field(part, 0x3a, &parts, k);
    proof {
        lemma_group_list_step(f, k as int);
        assert(f.take(k + 1) =~= f);
        assert(f.drop_last() =~= f.take(k as int));
    }
    match parse_hex_group(item) {
        Some(h) => {
            out.push(h);
            Some(out)
        },
        None => {
            if !v4 {
                return None;
            }
            match parse_ipv4(item) {
                Some(o) => {
                    let hi: u16 = (o[0] as u16) * 256 + o[1] as u16;
                    let lo: u16 = (o[2] as u16) * 256 + o[3] as u16;
                    proof {
                        assert(out@.push(hi).push(lo) =~= out@ + quad_groups(o@));
                    }
                    out.push(hi);
                    out.push(lo);
                    Some(out)
                },
                None => None,
            }
        },
    }
}

/// How the groups of the first `k + 1` fields follow from those of the
/// first `k`, where none of them may be a dotted quad.
proof fn lemma_group_list_step(f: Seq<Seq<u8>>, k: int)
    requires
        0 <= k < f.len(),
    ensures
        group_list(f.take(k + 1), false) == match group_list(f.take(k), false) {
            None => None,
            Some(g) => match hex_group(f[k]) {
                Some(h) => Some(g.push(h)),
                None => None,
            },
        },
{
    let cur = f.take(k + 1);
    assert(cur.drop_last() =~= f.take(k));
    assert(cur.last() == f[k]);
}

/// A list whose first `n` fields are not all hexadecimal groups writes no
/// address, unless the failing field is the last one and may be a dotted
/// quad.
proof fn lemma_group_list_prefix_fails(f: Seq<Seq<u8>>, n: int, v4: bool)
    requires
        0 < n <= f.len(),
        group_list(f.take(n), false) is None,
        n < f.len() || !v4,
    ensures
        group_list(f, v4) is None,
    decreases f.len() - n,
{
    if n == f.len() {
        assert(f.take(n) =~= f);
    } else {
        let g = f.take(n + 1);
        assert(g.drop_last() =~= f.take(n));
        assert(group_list(g, false) is None);
        if n + 1 == f.len() {
            assert(g =~= f);
            assert(f.drop_last() =~= f.take(n));
        } else {
            lemma_group_list_prefix_fails(f, n + 1, v4);
        }
    }
}

/// Reads a colon-hexadecimal IPv6 literal.
pub fn parse_ipv6(s: &[u8]) -> (r: Option<[u16; 8]>)
    ensures
        match r {
            Some(a) => ipv6_value(s@) == Some(a@),
            None => ipv6_value(s@) is None,
        },
{
    let n = s.len();
    let mut k: usize = 0;
    while k < n && !(k + 1 < n && s[k] == 0x3a && s[k + 1] == 0x3a)
        invariant
            k <= n,
            n == s@.len(),
            forall|j: int| 0 <= j < k ==> !#[trigger] gap_at(s@, j),
        decreases n - k,
    {
        k += 1;
    }
    proof {
        lemma_find_gap_is(s@, k as int);
    }
    if k < n {
        let head = match parse_side(s, 0, k, false) {
            Some(g) => g,
            None => {
                proof {
                    assert(s@.take(k as int) =~= s@.subrange(0, k as int));
                }
                return None;
            },
        };
        let tail = match parse_side(s, k + 2, n, true) {
            Some(g) => g,
            None => {
                proof {
                    assert(s@.skip(k + 2) =~= s@.subrange(k + 2, n as int));
                }
                return None;
            },
        };
        proof {
            assert(s@.take(k as int) =~= s@.subrange(0, k as int));
            assert(s@.skip(k + 2) =~= s@.subrange(k + 2, n as int));
        }
        let hl = head.len();
        let tl = tail.len();
        if hl > 7 || tl > 7 || hl + tl > 7 {
            return None;
        }
        let mut out: [u16; 8] = [0, 0, 0, 0, 0, 0, 0, 0];
        let mut i: usize = 0;
        while i < hl
            invariant
                i <= hl,
                hl == head@.len(),
                hl + tl <= 7,
                forall|j: int| 0 <= j < i ==> out@[j] == head@[j],
                forall|j: int| i <= j < 8 ==> out@[j] == 0,
            decreases hl - i,
        {
            out[i] = head[i];
            i += 1;
        }
        let mut j: usize = 0;
        while j < tl
            invariant
                j <= tl,
                tl == tail@.len(),
                hl == head@.len(),
                hl + tl <= 7,
                forall|m: int| 0 <= m < hl ==> out@[m] == head@[m],
                forall|m: int| hl <= m < 8 - tl ==> out@[m] == 0,
                forall|m: int| 0 <= m < j ==> out@[8 - tl + m] == tail@[m],
            decreases tl - j,
        {
            out[8 - tl + j] = tail[j];
            j += 1;
        }
        proof {
            assert(out@ =~= head@ + zero_groups(8 - hl - tl) + tail@);
        }
        Some(out)
    } else {
        let all = match parse_side(s, 0, n, true) {
            Some(g) => g,
            None => {
                proof {
                    assert(s@ =~= s@.subrange(0, n as int));
                }
                return None;
            },
        };
        proof {
            assert(s@ =~= s@.subrange(0, n as int));
        }
        if all.len() != 8 {
            return None;
        }
        let out: [u16; 8] = [all[0], all[1], all[2], all[3], all[4], all[5], all[6], all[7]];
        proof {
            assert(out@ =~= all@);
        }
        Some(out)
    }
}

} // verus!
