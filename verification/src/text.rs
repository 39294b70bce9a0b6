//! Text as bytes: fields between separators, and decimal numbers.
//!
//! Record data arrives as text whose grammar is ASCII. Everything here works
//! on the UTF-8 bytes of that text.

use vstd::prelude::*;
use vstd::slice::slice_subrange;
use vstd::utf8::*;
use vstd::string::StringSliceAdditionalSpecFns;

verus! {

/// The bytes of a text: its UTF-8 encoding.
pub open spec fn text_bytes(s: Seq<char>) -> Seq<u8> {
    encode_utf8(s)
}

/// Index of the first `sep` in `s`, or `s.len()` if there is none.
pub open spec fn find(s: Seq<u8>, sep: u8) -> int
    decreases s.len(),
{
    if s.len() == 0 || s[0] == sep {
        0
    } else {
        1 + find(s.drop_first(), sep)
    }
}

/// `find` returns the least index that holds `sep`.
pub proof fn lemma_find(s: Seq<u8>, sep: u8)
    ensures
        0 <= find(s, sep) <= s.len(),
        forall|j: int| 0 <= j < find(s, sep) ==> s[j] != sep,
        find(s, sep) < s.len() ==> s[find(s, sep)] == sep,
    decreases s.len(),
{
    if s.len() == 0 || s[0] == sep {
    } else {
        let t = s.drop_first();
        lemma_find(t, sep);
        assert forall|j: int| 0 <= j < find(s, sep) implies s[j] != sep by {
            if j > 0 {
                assert(s[j] == t[j - 1]);
            }
        }
        if find(s, sep) < s.len() {
            assert(s[find(s, sep)] == t[find(t, sep)]);
        }
    }
}

/// An index that holds `sep` (or the end) with no `sep` before it is `find`.
pub proof fn lemma_find_is(s: Seq<u8>, sep: u8, k: int)
    requires
        0 <= k <= s.len(),
        forall|j: int| 0 <= j < k ==> s[j] != sep,
        k < s.len() ==> s[k] == sep,
    ensures
        find(s, sep) == k,
{
    lemma_find(s, sep);
    let f = find(s, sep);
    if f < k {
        assert(s[f] == sep);
    } else if f > k {
        assert(s[k] != sep);
    }
}

/// The fields of `s` between occurrences of `sep`. There is always at least
/// one field; two separators in a row enclose an empty field.
pub open spec fn split(s: Seq<u8>, sep: u8) -> Seq<Seq<u8>>
    decreases s.len(),
{
    let i = find(s, sep);
    if 0 <= i < s.len() {
        seq![s.take(i)] + split(s.skip(i + 1), sep)
    } else {
        seq![s]
    }
}

/// Where the fields of `s` lie: `r` holds one `(start, end)` pair for each
/// field of `split(s, sep)`, in order.
pub open spec fn is_field_ranges(s: Seq<u8>, sep: u8, r: Seq<(usize, usize)>) -> bool {
    &&& r.len() == split(s, sep).len()
    &&& r.len() >= 1
    &&& r[0].0 == 0
    &&& r[r.len() - 1].1 == s.len()
    &&& forall|k: int|
        0 <= k < r.len() ==> {
            &&& (#[trigger] r[k]).0 <= r[k].1 <= s.len()
            &&& s.subrange(r[k].0 as int, r[k].1 as int) == split(s, sep)[k]
        }
    &&& forall|k: int|
        0 <= k < r.len() - 1 ==> {
            &&& (#[trigger] r[k]).1 < s.len()
            &&& s[r[k].1 as int] == sep
            &&& r[k + 1].0 == r[k].1 + 1
        }
}

/// Splits `s` at every `sep` and returns where each field starts and ends.
pub fn fields(s: &[u8], sep: u8) -> (r: Vec<(usize, usize)>)
    ensures
        is_field_ranges(s@, sep, r@),
{
    let mut out: Vec<(usize, usize)> = Vec::new();
    let ghost mut done: Seq<Seq<u8>> = Seq::empty();
    let mut start: usize = 0;
    let mut i: usize = 0;
    proof {
        assert(s@.skip(0) =~= s@);
        assert(done + split(s@.skip(0), sep) =~= split(s@, sep));
    }
    while i < s.len()
        invariant
            start <= i <= s.len(),
            forall|j: int| start <= j < i ==> s@[j] != sep,
            split(s@, sep) == done + split(s@.skip(start as int), sep),
            out@.len() == done.len(),
            out@.len() == 0 ==> start == 0,
            out@.len() > 0 ==> start == out@[out@.len() - 1].1 + 1,
            forall|k: int|
                0 <= k < out@.len() ==> {
                    &&& (#[trigger] out@[k]).0 <= out@[k].1 < s@.len()
                    &&& s@.subrange(out@[k].0 as int, out@[k].1 as int) == done[k]
                    &&& s@[out@[k].1 as int] == sep
                },
            out@.len() > 0 ==> out@[0].0 == 0,
            forall|k: int| 0 <= k < out@.len() - 1 ==> out@[k + 1].0 == (#[trigger] out@[k]).1 + 1,
        decreases s.len() - i,
    {
        if s[i] == sep {
            proof {
                let rest = s@.skip(start as int);
                assert forall|j: int| 0 <= j < i - start implies rest[j] != sep by {
                    assert(rest[j] == s@[start + j]);
                }
                lemma_find_is(rest, sep, i - start);
                assert(rest.take(i - start) =~= s@.subrange(start as int, i as int));
                assert(rest.skip(i - start + 1) =~= s@.skip(i + 1));
                let piece = s@.subrange(start as int, i as int);
                assert(split(rest, sep) == seq![piece] + split(s@.skip(i + 1), sep));
                assert(done + (seq![piece] + split(s@.skip(i + 1), sep)) =~= done.push(piece)
                    + split(s@.skip(i + 1), sep));
                done = done.push(piece);
            }
            out.push((start, i));
            start = i + 1;
        }
        i += 1;
    }
    proof {
        let rest = s@.skip(start as int);
        assert forall|j: int| 0 <= j < rest.len() implies rest[j] != sep by {
            assert(rest[j] == s@[start + j]);
        }
        lemma_find_is(rest, sep, rest.len() as int);
        assert(split(rest, sep) == seq![rest]);
        assert(rest =~= s@.subrange(start as int, s@.len() as int));
        assert(done + seq![rest] =~= done.push(rest));
    }
    out.push((start, s.len()));
    out
}

/// The `k`-th field of `s`, given where the fields lie.
pub fn field<'a>(s: &'a [u8], sep: u8, ranges: &Vec<(usize, usize)>, k: usize) -> (r: &'a [u8])
    requires
        is_field_ranges(s@, sep, ranges@),
        k < ranges@.len(),
    ensures
        r@ == split(s@, sep)[k as int],
{
    let (a, b) = ranges[k];
    assert(ranges@[k as int] == (a, b));
    slice_subrange(s, a, b)
}

/// A position that holds an ASCII byte lies on a character boundary, and so
/// does the position after it.
pub proof fn lemma_ascii_boundary(bytes: Seq<u8>, i: int)
    requires
        valid_utf8(bytes),
        0 <= i < bytes.len(),
        bytes[i] < 0x80,
    ensures
        is_char_boundary(bytes, i),
        is_char_boundary(bytes, i + 1),
{
    is_char_boundary_iff_not_is_continuation_byte(bytes, i);
    valid_utf8_split(bytes, i);
    let tail = bytes.subrange(i, bytes.len() as int);
    assert(tail[0] == bytes[i]);
    assert(valid_utf8(tail));
    assert(length_of_first_scalar(tail) == 1);
    let rest = pop_first_scalar(tail);
    assert(valid_utf8(rest));
    assert(rest =~= bytes.subrange(i + 1, bytes.len() as int));
    if i + 1 < bytes.len() {
        assert(valid_first_scalar(rest));
        assert(rest[0] == bytes[i + 1]);
        assert(!is_continuation_byte(rest[0])) by {
            utf8_byte_ranges_bitwise(rest[0]);
        }
        is_char_boundary_iff_not_is_continuation_byte(bytes, i + 1);
    } else {
        is_char_boundary_start_end_of_seq(bytes);
    }
}

/// The boundaries of every field of a text that is split at an ASCII byte
/// are character boundaries.
pub proof fn lemma_fields_on_boundaries(bytes: Seq<u8>, sep: u8, r: Seq<(usize, usize)>, k: int)
    requires
        valid_utf8(bytes),
        sep < 0x80,
        is_field_ranges(bytes, sep, r),
        0 <= k < r.len(),
    ensures
        is_char_boundary(bytes, r[k].0 as int),
        is_char_boundary(bytes, r[k].1 as int),
{
    is_char_boundary_start_end_of_seq(bytes);
    if k > 0 {
        assert(r[k - 1].1 < bytes.len());
        lemma_ascii_boundary(bytes, r[k - 1].1 as int);
    }
    if k < r.len() - 1 {
        assert(r[k].1 < bytes.len());
        lemma_ascii_boundary(bytes, r[k].1 as int);
    }
}

/// The part of `s` between two character boundaries.
pub fn substr<'a>(s: &'a str, start: usize, end: usize) -> (r: &'a str)
    requires
        start <= end <= s.spec_bytes().len(),
        is_char_boundary(s.spec_bytes(), start as int),
        is_char_boundary(s.spec_bytes(), end as int),
    ensures
        r.spec_bytes() == s.spec_bytes().subrange(start as int, end as int),
{
    let ghost bytes = s.spec_bytes();
    proof {
        encode_utf8_valid_utf8(s@);
    }
    let (head, _) = s.split_at(end);
    proof {
        let hb = head.spec_bytes();
        encode_utf8_valid_utf8(head@);
        assert(hb =~= bytes.subrange(0, end as int));
        if start < end {
            is_char_boundary_iff_not_is_continuation_byte(bytes, start as int);
            assert(hb[start as int] == bytes[start as int]);
            is_char_boundary_iff_not_is_continuation_byte(hb, start as int);
        } else {
            is_char_boundary_start_end_of_seq(hb);
        }
    }
    let (_, tail) = head.split_at(start);
    proof {
        assert(tail.spec_bytes() =~= bytes.subrange(start as int, end as int));
    }
    tail
}

/// Whether `b` is an ASCII decimal digit.
pub open spec fn is_digit(b: u8) -> bool {
    0x30 <= b <= 0x39
}

/// Whether every byte of `s` is a decimal digit.
pub open spec fn all_digits(s: Seq<u8>) -> bool {
    forall|i: int| 0 <= i < s.len() ==> is_digit(#[trigger] s[i])
}

/// The number that a run of decimal digits writes.
pub open spec fn digits_value(s: Seq<u8>) -> nat
    decreases s.len(),
{
    if s.len() == 0 {
        0
    } else {
        digits_value(s.drop_last()) * 10 + (s.last() - 0x30) as nat
    }
}

/// The digits of an unsigned decimal number: the text without one leading
/// plus sign, if it has one.
pub open spec fn unsigned_digits(s: Seq<u8>) -> Seq<u8> {
    if s.len() > 0 && s[0] == 0x2b {
        s.drop_first()
    } else {
        s
    }
}

/// The value of `s` read as an unsigned decimal number no greater than
/// `max`: an optional plus sign, then one or more digits and nothing else.
pub open spec fn unsigned_value(s: Seq<u8>, max: nat) -> Option<nat> {
    let d = unsigned_digits(s);
    if d.len() > 0 && all_digits(d) && digits_value(d) <= max {
        Some(digits_value(d))
    } else {
        None
    }
}

/// More digits never write a smaller number.
pub proof fn lemma_digits_value_grows(s: Seq<u8>, n: int)
    requires
        0 <= n <= s.len(),
        all_digits(s),
    ensures
        digits_value(s.take(n)) <= digits_value(s),
    decreases s.len() - n,
{
    if n == s.len() {
        assert(s.take(n) =~= s);
    } else {
        lemma_digits_value_grows(s, n + 1);
        let t = s.take(n + 1);
        assert(t.drop_last() =~= s.take(n));
        assert(is_digit(s[n]));
        assert(t.last() == s[n]);
    }
}

/// Reads an unsigned decimal number that is at most `max`.
pub fn parse_unsigned(s: &[u8], max: u32) -> (r: Option<u32>)
    ensures
        match r {
            Some(v) => unsigned_value(s@, max as nat) == Some(v as nat),
            None => unsigned_value(s@, max as nat) is None,
        },
{
    let first: usize = if s.len() > 0 && s[0] == 0x2b {
        1
    } else {
        0
    };
    let ghost d = unsigned_digits(s@);
    proof {
        assert(d =~= s@.skip(first as int));
    }
    if first == s.len() {
        return None;
    }
    let mut acc: u64 = 0;
    let mut i: usize = first;
    while i < s.len()
        invariant
            first <= i <= s.len(),
            d == unsigned_digits(s@),
            d == s@.skip(first as int),
            forall|j: int| first <= j < i ==> is_digit(s@[j]),
            acc == digits_value(d.take(i - first)),
            acc <= max,
        decreases s.len() - i,
    {
        let b = s[i];
        if b < 0x30 || b > 0x39 {
            proof {
                assert(d[i - first] == s@[i as int]);
                assert(!all_digits(d));
            }
            return None;
        }
        let next: u64 = acc * 10 + (b - 0x30) as u64;
        proof {
            let t = d.take(i - first + 1);
            assert(t.drop_last() =~= d.take(i - first));
            assert(t.last() == s@[i as int]);
            assert(next == digits_value(t));
        }
        if next > max as u64 {
            proof {
                if all_digits(d) {
                    lemma_digits_value_grows(d, i - first + 1);
                }
            }
            return None;
        }
        acc = next;
        i += 1;
    }
    proof {
        assert(d.take(i - first) =~= d);
        assert forall|j: int| 0 <= j < d.len() implies is_digit(#[trigger] d[j]) by {
            assert(d[j] == s@[first + j]);
        }
    }
    Some(acc as u32)
}

/// Reads a 16-bit unsigned decimal number.
pub fn parse_u16(s: &[u8]) -> (r: Option<u16>)
    ensures
        match r {
            Some(v) => unsigned_value(s@, 0xffff) == Some(v as nat),
            None => unsigned_value(s@, 0xffff) is None,
        },
{
    match parse_unsigned(s, 0xffff) {
        Some(v) => Some(v as u16),
        None => None,
    }
}

/// Reads a 32-bit unsigned decimal number.
pub fn parse_u32(s: &[u8]) -> (r: Option<u32>)
    ensures
        match r {
            Some(v) => unsigned_value(s@, 0xffff_ffff) == Some(v as nat),
            None => unsigned_value(s@, 0xffff_ffff) is None,
        },
{
    parse_unsigned(s, 0xffff_ffff)
}

} // verus!
