//! Domain names in wire format.
//!
//! A name is held as its uncompressed wire bytes: a chain of labels, each a
//! length byte of at most 63 followed by that many bytes. An absolute name
//! ends with the root label, a single zero byte, which occurs nowhere else.

use vstd::prelude::*;
use vstd::string::StringSliceAdditionalSpecFns;
use std::str::FromStr;
use domain::bits::DNameBuf;

verus! {

/// Whether `s` is an absolute name: a chain of ordinary labels that ends
/// with the root label and holds nothing after it.
pub open spec fn name_absolute(s: Seq<u8>) -> bool
    decreases s.len(),
{
    &&& s.len() > 0
    &&& s[0] <= 63
    &&& 1 + s[0] <= s.len()
    &&& if s[0] == 0 {
        s.len() == 1
    } else {
        name_absolute(s.skip(1 + s[0] as int))
    }
}

/// Whether `name` is an absolute name in wire format.
pub fn is_absolute(name: &[u8]) -> (r: bool)
    ensures
        r == name_absolute(name@),
{
    let n = name.len();
    let mut pos: usize = 0;
    proof {
        assert(name@.skip(0) =~= name@);
    }
    while pos < n
        invariant
            pos <= n,
            n == name@.len(),
            name_absolute(name@) == name_absolute(name@.skip(pos as int)),
        decreases n - pos,
    {
        let h = name[pos];
        let ghost rest = name@.skip(pos as int);
        assert(rest[0] == h);
        if h > 63 {
            return false;
        }
        if h as usize + 1 > n - pos {
            return false;
        }
        if h == 0 {
            return pos + 1 == n;
        }
        proof {
            assert(rest.skip(1 + h as int) =~= name@.skip(pos + 1 + h));
        }
        pos = pos + 1 + h as usize;
    }
    false
}

/// Where the name that starts at `pos` in the message `msg` ends, if it is
/// a chain of ordinary labels closed by the root label inside the message.
/// A name that uses a compression pointer or any other kind of label has
/// no end in this sense.
pub open spec fn name_end(msg: Seq<u8>, pos: int) -> Option<int>
    decreases msg.len() - pos,
{
    if pos < 0 || pos >= msg.len() {
        None
    } else if msg[pos] == 0 {
        Some(pos + 1)
    } else if msg[pos] <= 63 && pos + 1 + msg[pos] <= msg.len() {
        name_end(msg, pos + 1 + msg[pos])
    } else {
        None
    }
}

/// The bytes between the start of a name and its end are an absolute name.
pub proof fn lemma_name_end(msg: Seq<u8>, pos: int)
    requires
        name_end(msg, pos) is Some,
    ensures
        0 <= pos < name_end(msg, pos)->0 <= msg.len(),
        name_absolute(msg.subrange(pos, name_end(msg, pos)->0)),
    decreases msg.len() - pos,
{
    let end = name_end(msg, pos)->0;
    if msg[pos] == 0 {
        let s = msg.subrange(pos, end);
        assert(s[0] == 0);
    } else {
        let next = pos + 1 + msg[pos];
        lemma_name_end(msg, next);
        let s = msg.subrange(pos, end);
        assert(s[0] == msg[pos]);
        assert(s.skip(1 + s[0] as int) =~= msg.subrange(next, end));
    }
}

/// Finds the end of the name that starts at `pos` in `msg`.
pub fn find_name_end(msg: &[u8], pos: usize) -> (r: Option<usize>)
    ensures
        match r {
            Some(e) => name_end(msg@, pos as int) == Some(e as int),
            None => name_end(msg@, pos as int) is None,
        },
{
    let n = msg.len();
    let mut at: usize = pos;
    while at < n
        invariant
            n == msg@.len(),
            pos <= at,
            name_end(msg@, pos as int) == name_end(msg@, at as int),
        decreases n - at,
    {
        let h = msg[at];
        if h == 0 {
            return Some(at + 1);
        }
        if h > 63 || h as usize + 1 > n - at {
            return None;
        }
        at = at + 1 + h as usize;
    }
    None
}

/// Whether a backslash stands directly before an opening square bracket
/// somewhere in `s`. In a name's text that pair opens a bit-string label.
pub open spec fn has_bit_label(s: Seq<u8>) -> bool {
    exists|i: int| bit_label_at(s, i)
}

/// Whether a backslash at index `i` of `s` is followed by an opening square
/// bracket.
pub open spec fn bit_label_at(s: Seq<u8>, i: int) -> bool {
    0 <= i && i + 1 < s.len() && s[i] == 0x5c && s[i + 1] == 0x5b
}

/// Whether the text `s` opens a bit-string label anywhere.
pub fn mentions_bit_label(s: &[u8]) -> (r: bool)
    ensures
        r == has_bit_label(s@),
{
    let n = s.len();
    if n < 2 {
        return false;
    }
    let mut i: usize = 0;
    while i < n - 1
        invariant
            2 <= n == s@.len(),
            forall|j: int| 0 <= j < i ==> !bit_label_at(s@, j),
        decreases n - i,
    {
        if s[i] == 0x5c && s[i + 1] == 0x5b {
            assert(bit_label_at(s@, i as int));
            return true;
        }
        i += 1;
    }
    false
}

/// The wire bytes of the name that a text writes in zone-file notation, as
/// `DNameBuf::from_str` of the `domain` crate reads it; `None` where it
/// rejects the text. The argument is the text's UTF-8 encoding.
pub uninterp spec fn name_of_text(text: Seq<u8>) -> Option<Seq<u8>>;

/// Reads a name from its text with `DNameBuf::from_str` and hands out its
/// wire bytes.
///
/// Nothing is claimed about which texts are accepted or what bytes come
/// out, only that both depend on the text alone. Texts that open a
/// bit-string label are kept away from the reader.
#[verifier::external_body]
fn read_name(text: &str) -> (r: Option<Vec<u8>>)
    requires
        !has_bit_label(text.spec_bytes()),
    ensures
        match r {
            Some(v) => name_of_text(text.spec_bytes()) == Some(v@),
            None => name_of_text(text.spec_bytes()) is None,
        },
{
    DNameBuf::from_str(text).ok().map(|name| name.into_vec())
}

/// The name that a record can carry for the text `text`: what the text
/// writes, provided that it opens no bit-string label and that the name is
/// absolute.
pub open spec fn encodable_name(text: Seq<u8>) -> Option<Seq<u8>> {
    if has_bit_label(text) {
        None
    } else {
        usable_name(name_of_text(text))
    }
}

/// A name that was read, kept only if it is absolute.
pub open spec fn usable_name(read: Option<Seq<u8>>) -> Option<Seq<u8>> {
    match read {
        Some(n) => if name_absolute(n) {
            Some(n)
        } else {
            None
        },
        None => None,
    }
}

/// Keeps a name that was read only if it is absolute: a relative name
/// cannot stand in a message.
pub fn accept_name(read: Option<Vec<u8>>) -> (r: Option<Vec<u8>>)
    ensures
        match r {
            Some(v) => usable_name(option_view(read)) == Some(v@),
            None => usable_name(option_view(read)) is None,
        },
{
    match read {
        Some(v) => {
            if is_absolute(v.as_slice()) {
                Some(v)
            } else {
                None
            }
        },
        None => None,
    }
}

/// The bytes of a name that may be absent.
pub open spec fn option_view(v: Option<Vec<u8>>) -> Option<Seq<u8>> {
    match v {
        Some(b) => Some(b@),
        None => None,
    }
}

/// Reads the name that `text` writes, for use in a record.
pub fn parse_name(text: &str) -> (r: Option<Vec<u8>>)
    ensures
        match r {
            Some(v) => encodable_name(text.spec_bytes()) == Some(v@),
            None => encodable_name(text.spec_bytes()) is None,
        },
{
    if mentions_bit_label(text.as_bytes()) {
        return None;
    }
    accept_name(read_name(text))
}

} // verus!
