//! Resource records: the kinds that can be encoded, their data, and how an
//! upstream answer's text turns into one.

use vstd::prelude::*;
use vstd::string::StringSliceAdditionalSpecFns;
use vstd::utf8::encode_utf8_valid_utf8;
use domain::iana::Rtype;
use crate::addr::{ipv4_value, ipv6_value, parse_ipv4, parse_ipv6};
use crate::name::{encodable_name, name_absolute, parse_name};
use crate::pdns::{effective_ttl, DnsAnswer, DEFAULT_TTL};
use crate::text::{
    field, fields, is_field_ranges, lemma_fields_on_boundaries, parse_u16, parse_u32, split,
    substr, text_bytes, unsigned_value,
};

verus! {

/// The kind of a resource record, by its type code.
#[derive(Clone, Copy, Debug, PartialEq, Eq, Structural)]
pub enum RecordKind {
    A,
    Aaaa,
    Cname,
    Mx,
    Ns,
    Ptr,
    Soa,
    Srv,
    Txt,
    /// Any other type, with its code.
    Unsupported(u16),
}

/// The kind that a type code stands for.
pub open spec fn kind_of_code(code: u16) -> RecordKind {
    if code == 1 {
        RecordKind::A
    } else if code == 2 {
        RecordKind::Ns
    } else if code == 5 {
        RecordKind::Cname
    } else if code == 6 {
        RecordKind::Soa
    } else if code == 12 {
        RecordKind::Ptr
    } else if code == 15 {
        RecordKind::Mx
    } else if code == 16 {
        RecordKind::Txt
    } else if code == 28 {
        RecordKind::Aaaa
    } else if code == 33 {
        RecordKind::Srv
    } else {
        RecordKind::Unsupported(code)
    }
}

/// Looks a type code up with `Rtype::from_int` of the `domain` crate and
/// tells the nine kinds that can be encoded from all others.
///
/// Claimed of `Rtype::from_int`: it gives each of these nine variants for
/// exactly one code, the one that `kind_of_code` lists.
#[verifier::external_body]
fn classify(code: u16) -> (k: RecordKind)
    ensures
        k == kind_of_code(code),
{
    match Rtype::from_int(code) {
        Rtype::A => RecordKind::A,
        Rtype::Aaaa => RecordKind::Aaaa,
        Rtype::Cname => RecordKind::Cname,
        Rtype::Mx => RecordKind::Mx,
        Rtype::Ns => RecordKind::Ns,
        Rtype::Ptr => RecordKind::Ptr,
        Rtype::Soa => RecordKind::Soa,
        Rtype::Srv => RecordKind::Srv,
        Rtype::Txt => RecordKind::Txt,
        _ => RecordKind::Unsupported(code),
    }
}

impl RecordKind {
    /// The kind of the records that carry the type code `code`.
    pub fn from_code(code: u16) -> (k: RecordKind)
        ensures
            k == kind_of_code(code),
    {
        classify(code)
    }
}

/// The data of a resource record. Names are absolute names in wire format.
#[derive(Clone, Debug, PartialEq, Eq)]
pub enum RecordData {
    /// An IPv4 address, as its four bytes.
    A([u8; 4]),
    /// An IPv6 address, as its eight 16-bit groups.
    Aaaa([u16; 8]),
    Cname(Vec<u8>),
    Mx { preference: u16, exchange: Vec<u8> },
    Ns(Vec<u8>),
    Ptr(Vec<u8>),
    Soa {
        mname: Vec<u8>,
        rname: Vec<u8>,
        serial: u32,
        refresh: u32,
        retry: u32,
        expire: u32,
        minimum: u32,
    },
    Srv { priority: u16, weight: u16, port: u16, target: Vec<u8> },
    /// The record's text, as a run of length-prefixed segments.
    Txt(Vec<u8>),
}

/// What a [`RecordData`] holds.
pub enum RecordDataView {
    A(Seq<u8>),
    Aaaa(Seq<u16>),
    Cname(Seq<u8>),
    Mx { preference: u16, exchange: Seq<u8> },
    Ns(Seq<u8>),
    Ptr(Seq<u8>),
    Soa {
        mname: Seq<u8>,
        rname: Seq<u8>,
        serial: u32,
        refresh: u32,
        retry: u32,
        expire: u32,
        minimum: u32,
    },
    Srv { priority: u16, weight: u16, port: u16, target: Seq<u8> },
    Txt(Seq<u8>),
}

impl View for RecordData {
    type V = RecordDataView;

    open spec fn view(&self) -> RecordDataView {
        match *self {
            RecordData::A(o) => RecordDataView::A(o@),
            RecordData::Aaaa(g) => RecordDataView::Aaaa(g@),
            RecordData::Cname(n) => RecordDataView::Cname(n@),
            RecordData::Mx { preference, exchange } => RecordDataView::Mx {
                preference,
                exchange: exchange@,
            },
            RecordData::Ns(n) => RecordDataView::Ns(n@),
            RecordData::Ptr(n) => RecordDataView::Ptr(n@),
            RecordData::Soa { mname, rname, serial, refresh, retry, expire, minimum } => {
                RecordDataView::Soa {
                    mname: mname@,
                    rname: rname@,
                    serial,
                    refresh,
                    retry,
                    expire,
                    minimum,
                }
            },
            RecordData::Srv { priority, weight, port, target } => RecordDataView::Srv {
                priority,
                weight,
                port,
                target: target@,
            },
            RecordData::Txt(t) => RecordDataView::Txt(t@),
        }
    }
}

/// A resource record of class IN: owner name, time to live and data.
#[derive(Clone, Debug, PartialEq, Eq)]
pub struct Record {
    pub name: Vec<u8>,
    pub ttl: u32,
    pub data: RecordData,
}

/// What a [`Record`] holds.
pub struct RecordView {
    pub name: Seq<u8>,
    pub ttl: u32,
    pub data: RecordDataView,
}

impl View for Record {
    type V = RecordView;

    open spec fn view(&self) -> RecordView {
        RecordView { name: self.name@, ttl: self.ttl, data: self.data@ }
    }
}

/// Whether the data can be encoded: addresses have their length, and every
/// name is absolute.
pub open spec fn data_wf(d: RecordDataView) -> bool {
    match d {
        RecordDataView::A(o) => o.len() == 4,
        RecordDataView::Aaaa(g) => g.len() == 8,
        RecordDataView::Cname(n) => name_absolute(n),
        RecordDataView::Mx { preference, exchange } => name_absolute(exchange),
        RecordDataView::Ns(n) => name_absolute(n),
        RecordDataView::Ptr(n) => name_absolute(n),
        RecordDataView::Soa { mname, rname, serial, refresh, retry, expire, minimum } => {
            name_absolute(mname) && name_absolute(rname)
        },
        RecordDataView::Srv { priority, weight, port, target } => name_absolute(target),
        RecordDataView::Txt(t) => true,
    }
}

/// Whether the record can be encoded: its owner is an absolute name and its
/// data is well formed.
pub open spec fn record_wf(r: RecordView) -> bool {
    name_absolute(r.name) && data_wf(r.data)
}

/// Whether every record of `rs` can be encoded.
pub open spec fn records_wf(rs: Seq<RecordView>) -> bool {
    forall|i: int| 0 <= i < rs.len() ==> record_wf(#[trigger] rs[i])
}

/// What the records of a vector hold, in order.
pub open spec fn records_view(rs: Seq<Record>) -> Seq<RecordView> {
    rs.map_values(|r: Record| r@)
}

/// Why an upstream answer cannot be turned into records.
#[derive(Clone, Copy, Debug, PartialEq, Eq, Structural)]
pub enum RecordError {
    /// An owner name or a name in the data cannot be read, or is not
    /// absolute.
    Name,
    /// The data of an A or AAAA record is no address literal.
    Address,
    /// A numeric field of the data is no decimal number of its width.
    Number,
    /// The data of an MX record does not have exactly two fields.
    Fields,
}

/// One text segment of a TXT record: nothing for an empty piece, else the
/// piece behind its length byte, which holds the length modulo 256.
pub open spec fn txt_segment(p: Seq<u8>) -> Seq<u8> {
    if p.len() == 0 {
        Seq::empty()
    } else {
        seq![(p.len() % 256) as u8] + p
    }
}

/// The segments of `pieces`, one after the other.
pub open spec fn txt_segments(pieces: Seq<Seq<u8>>) -> Seq<u8>
    decreases pieces.len(),
{
    if pieces.len() == 0 {
        Seq::empty()
    } else {
        txt_segments(pieces.drop_last()) + txt_segment(pieces.last())
    }
}

/// The data of a TXT record whose text is `data`: the pieces between double
/// quotes, each non-empty one as a segment.
pub open spec fn txt_rdata(data: Seq<u8>) -> Seq<u8> {
    txt_segments(split(data, 0x22))
}

/// Builds the data of a TXT record from its quoted text.
pub fn encode_txt(data: &[u8]) -> (r: Vec<u8>)
    ensures
        r@ == txt_rdata(data@),
{
    let parts = fields(data, 0x22);
    let ghost f = split(data@, 0x22);
    let mut out: Vec<u8> = Vec::new();
    let n = parts.len();
    let mut k: usize = 0;
    proof {
        assert(f.take(0) =~= Seq::<Seq<u8>>::empty());
    }
    while k < n
        invariant
            k <= n,
            n == parts@.len(),
            n == f.len(),
            f == split(data@, 0x22),
            is_field_ranges(data@, 0x22, parts@),
            out@ == txt_segments(f.take(k as int)),
        decreases n - k,
    {
        let piece = field(data, 0x22, &parts, k);
        proof {
            let cur = f.take(k + 1);
            assert(cur.drop_last() =~= f.take(k as int));
            assert(cur.last() == f[k as int]);
        }
        if piece.len() > 0 {
            let len: u8 = (piece.len() % 256) as u8;
            let ghost before = out@;
            out.push(len);
            out.extend_from_slice(piece);
            proof {
                assert(out@ =~= before + (seq![len] + piece@));
            }
        } else {
            proof {
                assert(out@ + Seq::<u8>::empty() =~= out@);
            }
        }
        k += 1;
    }
    proof {
        assert(f.take(n as int) =~= f);
    }
    out
}

/// Whether a record of this kind with this data is left out of the answer
/// without failing it: its kind cannot be encoded, or it is an SOA or SRV
/// record without its seven or four fields.
pub open spec fn skipped(kind: RecordKind, data: Seq<u8>) -> bool {
    match kind {
        RecordKind::Unsupported(_) => true,
        RecordKind::Soa => split(data, 0x20).len() != 7,
        RecordKind::Srv => split(data, 0x20).len() != 4,
        _ => false,
    }
}

/// A numeric field of 16 bits.
pub open spec fn number16(s: Seq<u8>) -> Option<u16> {
    match unsigned_value(s, 0xffff) {
        Some(v) => Some(v as u16),
        None => None,
    }
}

/// A numeric field of 32 bits.
pub open spec fn number32(s: Seq<u8>) -> Option<u32> {
    match unsigned_value(s, 0xffff_ffff) {
        Some(v) => Some(v as u32),
        None => None,
    }
}

/// The data of an MX record: a preference and the exchange's name.
pub open spec fn mx_data(data: Seq<u8>) -> Result<RecordDataView, RecordError> {
    let f = split(data, 0x20);
    if f.len() != 2 {
        Err(RecordError::Fields)
    } else if number16(f[0]) is None {
        Err(RecordError::Number)
    } else if encodable_name(f[1]) is None {
        Err(RecordError::Name)
    } else {
        Ok(RecordDataView::Mx { preference: number16(f[0])->0, exchange: encodable_name(f[1])->0 })
    }
}

/// The data of an SRV record with four fields: priority, weight, port and
/// the target's name.
pub open spec fn srv_data(data: Seq<u8>) -> Result<RecordDataView, RecordError> {
    let f = split(data, 0x20);
    if number16(f[0]) is None || number16(f[1]) is None || number16(f[2]) is None {
        Err(RecordError::Number)
    } else if encodable_name(f[3]) is None {
        Err(RecordError::Name)
    } else {
        Ok(
            RecordDataView::Srv {
                priority: number16(f[0])->0,
                weight: number16(f[1])->0,
                port: number16(f[2])->0,
                target: encodable_name(f[3])->0,
            },
        )
    }
}

/// The data of an SOA record with seven fields: two names, then serial,
/// refresh, retry, expire and minimum.
pub open spec fn soa_data(data: Seq<u8>) -> Result<RecordDataView, RecordError> {
    let f = split(data, 0x20);
    if encodable_name(f[0]) is None || encodable_name(f[1]) is None {
        Err(RecordError::Name)
    } else if number32(f[2]) is None || number32(f[3]) is None || number32(f[4]) is None
        || number32(f[5]) is None || number32(f[6]) is None {
        Err(RecordError::Number)
    } else {
        Ok(
            RecordDataView::Soa {
                mname: encodable_name(f[0])->0,
                rname: encodable_name(f[1])->0,
                serial: number32(f[2])->0,
                refresh: number32(f[3])->0,
                retry: number32(f[4])->0,
                expire: number32(f[5])->0,
                minimum: number32(f[6])->0,
            },
        )
    }
}

/// The data of a record of kind `kind` that is not skipped, read from the
/// bytes of its text, or the reason why the text cannot be read.
pub open spec fn data_of(kind: RecordKind, data: Seq<u8>) -> Result<RecordDataView, RecordError> {
    match kind {
        RecordKind::A => match ipv4_value(data) {
            Some(o) => Ok(RecordDataView::A(o)),
            None => Err(RecordError::Address),
        },
        RecordKind::Aaaa => match ipv6_value(data) {
            Some(g) => Ok(RecordDataView::Aaaa(g)),
            None => Err(RecordError::Address),
        },
        RecordKind::Cname => match encodable_name(data) {
            Some(n) => Ok(RecordDataView::Cname(n)),
            None => Err(RecordError::Name),
        },
        RecordKind::Ns => match encodable_name(data) {
            Some(n) => Ok(RecordDataView::Ns(n)),
            None => Err(RecordError::Name),
        },
        RecordKind::Ptr => match encodable_name(data) {
            Some(n) => Ok(RecordDataView::Ptr(n)),
            None => Err(RecordError::Name),
        },
        RecordKind::Mx => mx_data(data),
        RecordKind::Srv => srv_data(data),
        RecordKind::Soa => soa_data(data),
        RecordKind::Txt => Ok(RecordDataView::Txt(txt_rdata(data))),
        RecordKind::Unsupported(_) => Err(RecordError::Fields),
    }
}

/// What becomes of one upstream answer with the given type code, owner,
/// time to live and data, the two texts as their bytes.
///
/// `Ok(None)`: the record is left out. `Err`: the whole answer set fails.
/// An MX record is first held to its two fields, then the owner is read,
/// then the data.
pub open spec fn conversion(typ: u16, owner: Seq<u8>, ttl: Option<u32>, data: Seq<u8>) -> Result<
    Option<RecordView>,
    RecordError,
> {
    let kind = kind_of_code(typ);
    if skipped(kind, data) {
        Ok(None)
    } else if kind == RecordKind::Mx && split(data, 0x20).len() != 2 {
        Err(RecordError::Fields)
    } else if encodable_name(owner) is None {
        Err(RecordError::Name)
    } else {
        match data_of(kind, data) {
            Ok(d) => Ok(
                Some(
                    RecordView {
                        name: encodable_name(owner)->0,
                        ttl: effective_ttl(ttl),
                        data: d,
                    },
                ),
            ),
            Err(e) => Err(e),
        }
    }
}

/// What becomes of the upstream answer `a`.
pub open spec fn converted(a: DnsAnswer) -> Result<Option<RecordView>, RecordError> {
    conversion(a.typ, text_bytes(a.name@), a.ttl, text_bytes(a.data@))
}

/// What becomes of a list of upstream answers: the records of those that
/// are not left out, in order, or the error of the first one that fails.
pub open spec fn converted_all(answers: Seq<DnsAnswer>) -> Result<Seq<RecordView>, RecordError>
    decreases answers.len(),
{
    if answers.len() == 0 {
        Ok(Seq::empty())
    } else {
        match converted_all(answers.drop_last()) {
            Err(e) => Err(e),
            Ok(rs) => match converted(answers.last()) {
                Err(e) => Err(e),
                Ok(None) => Ok(rs),
                Ok(Some(r)) => Ok(rs.push(r)),
            },
        }
    }
}

/// Whether `r` reports what `expected` says, a value by what it holds.
pub open spec fn data_result_is(
    r: Result<RecordData, RecordError>,
    expected: Result<RecordDataView, RecordError>,
) -> bool {
    match r {
        Ok(d) => expected == Ok::<RecordDataView, RecordError>(d@),
        Err(e) => expected == Err::<RecordDataView, RecordError>(e),
    }
}

/// Reads a numeric field of 16 bits.
fn number16_field(data: &[u8], parts: &Vec<(usize, usize)>, k: usize) -> (r: Option<u16>)
    requires
        is_field_ranges(data@, 0x20, parts@),
        k < parts@.len(),
    ensures
        r == number16(split(data@, 0x20)[k as int]),
{
    parse_u16(field(data, 0x20, parts, k))
}

/// Reads a numeric field of 32 bits.
fn number32_field(data: &[u8], parts: &Vec<(usize, usize)>, k: usize) -> (r: Option<u32>)
    requires
        is_field_ranges(data@, 0x20, parts@),
        k < parts@.len(),
    ensures
        r == number32(split(data@, 0x20)[k as int]),
{
    parse_u32(field(data, 0x20, parts, k))
}

/// Reads a field that holds a name.
fn name_field(data: &str, parts: &Vec<(usize, usize)>, k: usize) -> (r: Option<Vec<u8>>)
    requires
        is_field_ranges(data.spec_bytes(), 0x20, parts@),
        k < parts@.len(),
    ensures
        match r {
            Some(v) => encodable_name(split(data.spec_bytes(), 0x20)[k as int]) == Some(v@),
            None => encodable_name(split(data.spec_bytes(), 0x20)[k as int]) is None,
        },
{
    let (a, b) = parts[k];
    proof {
        assert(parts@[k as int] == (a, b));
        encode_utf8_valid_utf8(data@);
        lemma_fields_on_boundaries(data.spec_bytes(), 0x20, parts@, k as int);
    }
    parse_name(substr(data, a, b))
}

/// Reads the data of an MX record.
pub fn parse_mx(data: &str) -> (r: Result<RecordData, RecordError>)
    ensures
        data_result_is(r, mx_data(data.spec_bytes())),
{
    let bytes = data.as_bytes();
    let parts = fields(bytes, 0x20);
    if parts.len() != 2 {
        return Err(RecordError::Fields);
    }
    let preference = match number16_field(bytes, &parts, 0) {
        Some(v) => v,
        None => {
            return Err(RecordError::Number);
        },
    };
    let exchange = match name_field(data, &parts, 1) {
        Some(n) => n,
        None => {
            return Err(RecordError::Name);
        },
    };
    Ok(RecordData::Mx { preference, exchange })
}

/// Reads the data of an SRV record that has its four fields.
pub fn parse_srv(data: &str) -> (r: Result<RecordData, RecordError>)
    requires
        split(data.spec_bytes(), 0x20).len() == 4,
    ensures
        data_result_is(r, srv_data(data.spec_bytes())),
{
    let bytes = data.as_bytes();
    let parts = fields(bytes, 0x20);
    let priority = match number16_field(bytes, &parts, 0) {
        Some(v) => v,
        None => {
            return Err(RecordError::Number);
        },
    };
    let weight = match number16_field(bytes, &parts, 1) {
        Some(v) => v,
        None => {
            return Err(RecordError::Number);
        },
    };
    let port = match number16_field(bytes, &parts, 2) {
        Some(v) => v,
        None => {
            return Err(RecordError::Number);
        },
    };
    let target = match name_field(data, &parts, 3) {
        Some(n) => n,
        None => {
            return Err(RecordError::Name);
        },
    };
    Ok(RecordData::Srv { priority, weight, port, target })
}

/// Reads the data of an SOA record that has its seven fields.
pub fn parse_soa(data: &str) -> (r: Result<RecordData, RecordError>)
    requires
        split(data.spec_bytes(), 0x20).len() == 7,
    ensures
        data_result_is(r, soa_data(data.spec_bytes())),
{
    let bytes = data.as_bytes();
    let parts = fields(bytes, 0x20);
    let mname = match name_field(data, &parts, 0) {
        Some(n) => n,
        None => {
            return Err(RecordError::Name);
        },
    };
    let rname = match name_field(data, &parts, 1) {
        Some(n) => n,
        None => {
            return Err(RecordError::Name);
        },
    };
    let serial = match number32_field(bytes, &parts, 2) {
        Some(v) => v,
        None => {
            return Err(RecordError::Number);
        },
    };
    let refresh = match number32_field(bytes, &parts, 3) {
        Some(v) => v,
        None => {
            return Err(RecordError::Number);
        },
    };
    let retry = match number32_field(bytes, &parts, 4) {
        Some(v) => v,
        None => {
            return Err(RecordError::Number);
        },
    };
    let expire = match number32_field(bytes, &parts, 5) {
        Some(v) => v,
        None => {
            return Err(RecordError::Number);
        },
    };
    let minimum = match number32_field(bytes, &parts, 6) {
        Some(v) => v,
        None => {
            return Err(RecordError::Number);
        },
    };
    Ok(RecordData::Soa { mname, rname, serial, refresh, retry, expire, minimum })
}

/// The number of fields of `data` between spaces.
pub fn field_count(data: &[u8]) -> (n: usize)
    ensures
        n == split(data@, 0x20).len(),
{
    fields(data, 0x20).len()
}

/// Reads the data of a record of kind `kind` that is not skipped.
pub fn parse_data(kind: RecordKind, data: &str) -> (r: Result<RecordData, RecordError>)
    requires
        !skipped(kind, data.spec_bytes()),
    ensures
        data_result_is(r, data_of(kind, data.spec_bytes())),
{
    match kind {
        RecordKind::A => match parse_ipv4(data.as_bytes()) {
            Some(o) => Ok(RecordData::A(o)),
            None => Err(RecordError::Address),
        },
        RecordKind::Aaaa => match parse_ipv6(data.as_bytes()) {
            Some(g) => Ok(RecordData::Aaaa(g)),
            None => Err(RecordError::Address),
        },
        RecordKind::Cname => match parse_name(data) {
            Some(n) => Ok(RecordData::Cname(n)),
            None => Err(RecordError::Name),
        },
        RecordKind::Ns => match parse_name(data) {
            Some(n) => Ok(RecordData::Ns(n)),
            None => Err(RecordError::Name),
        },
        RecordKind::Ptr => match parse_name(data) {
            Some(n) => Ok(RecordData::Ptr(n)),
            None => Err(RecordError::Name),
        },
        RecordKind::Mx => parse_mx(data),
        RecordKind::Srv => parse_srv(data),
        RecordKind::Soa => parse_soa(data),
        RecordKind::Txt => Ok(RecordData::Txt(encode_txt(data.as_bytes()))),
        RecordKind::Unsupported(_) => Err(RecordError::Fields),
    }
}

/// Whether `r` reports what `expected` says, a record by what it holds.
pub open spec fn record_result_is(
    r: Result<Option<Record>, RecordError>,
    expected: Result<Option<RecordView>, RecordError>,
) -> bool {
    match r {
        Ok(Some(rec)) => expected == Ok::<Option<RecordView>, RecordError>(Some(rec@)),
        Ok(None) => expected == Ok::<Option<RecordView>, RecordError>(None),
        Err(e) => expected == Err::<Option<RecordView>, RecordError>(e),
    }
}

/// Turns one upstream answer into a record, leaves it out, or fails.
pub fn convert(a: &DnsAnswer) -> (r: Result<Option<Record>, RecordError>)
    ensures
        record_result_is(r, converted(*a)),
        r matches Ok(Some(rec)) ==> record_wf(rec@),
{
    let kind = RecordKind::from_code(a.typ);
    let data = a.data.as_str();
    let leave_out = match kind {
        RecordKind::Unsupported(_) => true,
        RecordKind::Soa => field_count(data.as_bytes()) != 7,
        RecordKind::Srv => field_count(data.as_bytes()) != 4,
        _ => false,
    };
    if leave_out {
        return Ok(None);
    }
    if kind == RecordKind::Mx && field_count(data.as_bytes()) != 2 {
        return Err(RecordError::Fields);
    }
    let name = match parse_name(a.name.as_str()) {
        Some(n) => n,
        None => {
            return Err(RecordError::Name);
        },
    };
    match parse_data(kind, data) {
        Ok(d) => Ok(Some(Record { name, ttl: a.ttl_or_default(), data: d })),
        Err(e) => Err(e),
    }
}

/// Whether `r` reports what `expected` says, records by what they hold.
pub open spec fn records_result_is(
    r: Result<Vec<Record>, RecordError>,
    expected: Result<Seq<RecordView>, RecordError>,
) -> bool {
    match r {
        Ok(rs) => expected == Ok::<Seq<RecordView>, RecordError>(records_view(rs@)),
        Err(e) => expected == Err::<Seq<RecordView>, RecordError>(e),
    }
}

/// Turns a list of upstream answers into the records to encode.
///
/// Fails with the error of the first answer that cannot be read; answers of
/// kinds that cannot be encoded, and SOA and SRV answers with the wrong
/// number of fields, are left out.
pub fn convert_all(answers: &Vec<DnsAnswer>) -> (r: Result<Vec<Record>, RecordError>)
    ensures
        records_result_is(r, converted_all(answers@)),
        r matches Ok(rs) ==> records_wf(records_view(rs@)),
{
    let mut out: Vec<Record> = Vec::new();
    let n = answers.len();
    let mut k: usize = 0;
    proof {
        assert(answers@.take(0) =~= Seq::<DnsAnswer>::empty());
        assert(records_view(out@) =~= Seq::<RecordView>::empty());
    }
    while k < n
        invariant
            k <= n,
            n == answers@.len(),
            converted_all(answers@.take(k as int)) == Ok::<Seq<RecordView>, RecordError>(
                records_view(out@),
            ),
            records_wf(records_view(out@)),
        decreases n - k,
    {
        proof {
            let cur = answers@.take(k + 1);
            assert(cur.drop_last() =~= answers@.take(k as int));
            assert(cur.last() == answers@[k as int]);
        }
        match convert(&answers[k]) {
            Ok(Some(rec)) => {
                proof {
                    assert(records_view(out@.push(rec)) =~= records_view(out@).push(rec@));
                }
                out.push(rec);
            },
            Ok(None) => {},
            Err(e) => {
                proof {
                    lemma_converted_all_fails(answers@, k + 1);
                }
                return Err(e);
            },
        }
        k += 1;
    }
    proof {
        assert(answers@.take(n as int) =~= answers@);
    }
    Ok(out)
}

/// Once a prefix of the answers fails, the whole list fails in the same
/// way.
pub proof fn lemma_converted_all_fails(answers: Seq<DnsAnswer>, n: int)
    requires
        0 <= n <= answers.len(),
        converted_all(answers.take(n)) is Err,
    ensures
        converted_all(answers) == converted_all(answers.take(n)),
    decreases answers.len() - n,
{
    if n == answers.len() {
        assert(answers.take(n) =~= answers);
    } else {
        let next = answers.take(n + 1);
        assert(next.drop_last() =~= answers.take(n));
        lemma_converted_all_fails(answers, n + 1);
    }
}

/// An answer that is left out changes nothing for the others: the list
/// gives the same records, or fails in the same way, as it does without
/// that answer.
pub proof fn law_skipped_answer_changes_nothing(answers: Seq<DnsAnswer>, i: int)
    requires
        0 <= i < answers.len(),
        converted(answers[i]) == Ok::<Option<RecordView>, RecordError>(None),
    ensures
        converted_all(answers) == converted_all(answers.remove(i)),
    decreases answers.len(),
{
    let rest = answers.remove(i);
    if i == answers.len() - 1 {
        assert(rest =~= answers.drop_last());
    } else {
        assert(rest.drop_last() =~= answers.drop_last().remove(i));
        assert(rest.last() == answers.last());
        assert(answers.drop_last()[i] == answers[i]);
        law_skipped_answer_changes_nothing(answers.drop_last(), i);
    }
}

/// An answer without a time to live becomes what the same answer with the
/// default of 180 seconds becomes.
pub proof fn law_missing_ttl_is_default(typ: u16, owner: Seq<u8>, data: Seq<u8>)
    ensures
        conversion(typ, owner, None, data) == conversion(typ, owner, Some(DEFAULT_TTL), data),
        DEFAULT_TTL == 180,
{
}

/// Every record that an answer becomes can be encoded.
pub proof fn law_converted_records_are_well_formed(
    typ: u16,
    owner: Seq<u8>,
    ttl: Option<u32>,
    data: Seq<u8>,
)
    requires
        conversion(typ, owner, ttl, data) matches Ok(Some(_)),
    ensures
        record_wf(conversion(typ, owner, ttl, data)->Ok_0->0),
{
    let kind = kind_of_code(typ);
    match kind {
        RecordKind::A => {
            assert(ipv4_value(data)->0.len() == 4);
        },
        RecordKind::Aaaa => {
            crate::addr::lemma_ipv6_value_len(data);
        },
        _ => {},
    }
}

} // verus!
