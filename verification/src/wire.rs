//! DNS messages on the wire: reading a query's header and question, and
//! composing a response within a size limit.
//!
//! Composing is left to the message builder of the `domain` crate. What it
//! holds at any moment is described by a [`Draft`]; the bytes that it hands
//! out in the end are those of [`message_bytes`].

use vstd::prelude::*;
use domain::bits::{AnswerBuilder, ComposeMode, DName, DNameBuf, Message, MessageBuilder};
use domain::iana::{Class, Rcode, Rtype};
use domain::rdata::{Aaaa, Cname, Mx, Ns, Ptr, Soa, Srv, Txt, A};
use crate::name::{find_name_end, lemma_name_end, name_absolute, name_end};
use crate::record::{
    record_wf, records_view, records_wf, Record, RecordData, RecordDataView, RecordView,
};

verus! {

/// The header fields of a response that this library sets. The response
/// code is written with its low four bits.
#[derive(Clone, Copy, Debug, PartialEq, Eq, Structural)]
pub struct Header {
    pub id: u16,
    pub qr: bool,
    pub rd: bool,
    pub ra: bool,
    pub ad: bool,
    pub cd: bool,
    pub rcode: u8,
}

/// A question: an absolute name in wire format, a type and a class.
#[derive(Clone, Debug, PartialEq, Eq)]
pub struct Question {
    pub name: Vec<u8>,
    pub qtype: u16,
    pub qclass: u16,
}

/// What a [`Question`] holds.
pub struct QuestionView {
    pub name: Seq<u8>,
    pub qtype: u16,
    pub qclass: u16,
}

impl View for Question {
    type V = QuestionView;

    open spec fn view(&self) -> QuestionView {
        QuestionView { name: self.name@, qtype: self.qtype, qclass: self.qclass }
    }
}

/// What a question that may be absent holds.
pub open spec fn question_view(q: Option<&Question>) -> Option<QuestionView> {
    match q {
        Some(q) => Some(q@),
        None => None,
    }
}

/// A 16-bit number as its two bytes, the high one first.
pub open spec fn be16(v: int) -> Seq<u8> {
    seq![((v / 256) % 256) as u8, (v % 256) as u8]
}

/// A 16-bit number read from two bytes of `s` at `at`, the high one first.
pub open spec fn be16_at(s: Seq<u8>, at: int) -> u16 {
    (s[at] * 256 + s[at + 1]) as u16
}

/// One bit as a number.
pub open spec fn bit(b: bool) -> int {
    if b {
        1
    } else {
        0
    }
}

/// The header as it is stored in a message: the response code keeps its
/// low four bits.
pub open spec fn stored(h: Header) -> Header {
    Header { rcode: h.rcode % 16, ..h }
}

/// The first four bytes of a message with header `h` and truncation flag
/// `tc`: the id, then QR, TC and RD, then RA, AD, CD and the response code.
/// Opcode, AA and Z are zero.
pub open spec fn header_bytes(h: Header, tc: bool) -> Seq<u8> {
    be16(h.id as int) + seq![
        (128 * bit(h.qr) + 2 * bit(tc) + bit(h.rd)) as u8,
        (128 * bit(h.ra) + 32 * bit(h.ad) + 16 * bit(h.cd) + h.rcode % 16) as u8,
    ]
}

/// The wire form of a question section with at most one question.
pub open spec fn question_bytes(q: Option<QuestionView>) -> Seq<u8> {
    match q {
        Some(q) => q.name + be16(q.qtype as int) + be16(q.qclass as int),
        None => Seq::empty(),
    }
}

/// What a message builder holds.
pub struct Draft {
    /// The size that the message may not exceed.
    pub limit: nat,
    pub header: Header,
    pub question: Option<QuestionView>,
    pub answers: Seq<RecordView>,
    /// Whether something did not fit and was left out. Nothing is added to a
    /// truncated message.
    pub truncated: bool,
}

/// The message builder of the `domain` crate, once it has reached the
/// answer section. It is carried around and never looked into; what it
/// holds is [`draft_of`].
#[verifier::external_type_specification]
#[verifier::external_body]
pub struct ExAnswerBuilder(AnswerBuilder);

/// What the builder `b` holds.
pub uninterp spec fn draft_of(b: AnswerBuilder) -> Draft;

/// The wire form of an answer section behind the given question section,
/// as the `domain` crate composes it with name compression.
pub uninterp spec fn answers_wire(q: Option<QuestionView>, answers: Seq<RecordView>) -> Seq<u8>;

/// The bytes of a message up to the end of its question section: header,
/// the four section counts, and the question. Authority and additional
/// sections are counted as empty.
pub open spec fn message_head(d: Draft) -> Seq<u8> {
    header_bytes(d.header, d.truncated) + be16(
        if d.question is Some {
            1
        } else {
            0
        },
    ) + be16(d.answers.len() as int) + be16(0) + be16(0) + question_bytes(d.question)
}

/// The bytes of the message that a draft describes: everything up to the
/// question section, then the answer section.
pub open spec fn message_bytes(d: Draft) -> Seq<u8> {
    message_head(d) + answers_wire(d.question, d.answers)
}

/// The header of a message that nothing was written to.
pub open spec fn blank_header() -> Header {
    Header { id: 0, qr: false, rd: false, ra: false, ad: false, cd: false, rcode: 0 }
}

/// The size of a message that holds this question section and these
/// answers.
pub open spec fn wire_len(q: Option<QuestionView>, answers: Seq<RecordView>) -> nat {
    12 + question_bytes(q).len() + answers_wire(q, answers).len()
}

/// A draft without a question.
pub open spec fn unasked(limit: nat) -> Draft {
    Draft {
        limit,
        header: blank_header(),
        question: None,
        answers: Seq::empty(),
        truncated: false,
    }
}

/// A draft to which the question `q` was offered: it holds the question if
/// header and question fit within the limit, and is truncated otherwise.
pub open spec fn asked(limit: nat, q: QuestionView) -> Draft {
    if 12 + q.name.len() + 4 <= limit {
        Draft {
            limit,
            header: blank_header(),
            question: Some(q),
            answers: Seq::empty(),
            truncated: false,
        }
    } else {
        Draft { truncated: true, ..unasked(limit) }
    }
}

/// Whether the draft is one that a builder has just been opened with: it
/// is `start`, and its empty answer section takes no bytes.
pub open spec fn opened(d: Draft, start: Draft) -> bool {
    d == start && answers_wire(d.question, Seq::empty()).len() == 0
}

/// The most bytes that the data of a record takes on the wire: its size
/// without name compression.
pub open spec fn data_max_len(d: RecordDataView) -> nat {
    match d {
        RecordDataView::A(o) => 4,
        RecordDataView::Aaaa(g) => 16,
        RecordDataView::Cname(n) => n.len(),
        RecordDataView::Mx { preference, exchange } => 2 + exchange.len(),
        RecordDataView::Ns(n) => n.len(),
        RecordDataView::Ptr(n) => n.len(),
        RecordDataView::Soa { mname, rname, serial, refresh, retry, expire, minimum } => {
            mname.len() + rname.len() + 20
        },
        RecordDataView::Srv { priority, weight, port, target } => 6 + target.len(),
        RecordDataView::Txt(t) => t.len(),
    }
}

/// The most bytes that a record takes on the wire: owner, type, class, time
/// to live, data length, and the data.
pub open spec fn record_max_len(r: RecordView) -> nat {
    r.name.len() + 10 + data_max_len(r.data)
}

/// The draft that is left when the record `rec` is offered to `pre`.
///
/// A truncated draft stays as it is. Otherwise the record is appended if
/// the message with it is within the limit; if not, the draft becomes
/// truncated and is otherwise unchanged.
pub open spec fn offered(pre: Draft, rec: RecordView) -> Draft {
    if !pre.truncated && wire_len(pre.question, pre.answers.push(rec)) <= pre.limit {
        Draft { answers: pre.answers.push(rec), ..pre }
    } else {
        Draft { truncated: true, ..pre }
    }
}

/// How a builder's draft changes when the record `rec` is offered to it:
/// it becomes [`offered`]. And where the draft was not truncated, the
/// record would take at least one byte and at most its size without name
/// compression.
pub open spec fn pushed(pre: Draft, post: Draft, rec: RecordView) -> bool {
    &&& post == offered(pre, rec)
    &&& !pre.truncated ==> wire_len(pre.question, pre.answers) < wire_len(
        pre.question,
        pre.answers.push(rec),
    ) <= wire_len(pre.question, pre.answers) + record_max_len(rec)
}

/// Starts a message without a question, with `MessageBuilder::new` in
/// limited mode with name compression, and moves on to its answer section.
///
/// Claimed: the new message is the twelve zero bytes of an empty header.
#[verifier::external_body]
fn open_unasked(limit: usize) -> (b: AnswerBuilder)
    requires
        limit >= 12,
    ensures
        opened(draft_of(b), unasked(limit as nat)),
{
    MessageBuilder::new(ComposeMode::Limited(limit), true).unwrap().answer()
}

/// Starts a message as [`open_unasked`] does, offers it one question with
/// `MessageBuilder::push`, and moves on to its answer section.
///
/// Claimed: the question is written in full, as name, type and class, if
/// that keeps the message within the limit; if not, the builder drops it
/// and marks the message as truncated.
#[verifier::external_body]
fn open_asked(limit: usize, name: &[u8], qtype: u16, qclass: u16) -> (b: AnswerBuilder)
    requires
        limit >= 12,
        name_absolute(name@),
    ensures
        opened(draft_of(b), asked(limit as nat, (QuestionView { name: name@, qtype, qclass }))),
{
    let mut b = MessageBuilder::new(ComposeMode::Limited(limit), true).unwrap();
    let name = DNameBuf::from_vec(name.to_vec()).unwrap();
    b.push((name, Rtype::from_int(qtype), Class::from_int(qclass))).unwrap();
    b.answer()
}

/// Sets the seven header fields through `AnswerBuilder::header_mut`.
///
/// Claimed: each setter stores its field and leaves the rest of the message
/// alone; the response code is stored with its low four bits.
#[verifier::external_body]
fn write_header(b: &mut AnswerBuilder, h: &Header)
    ensures
        draft_of(*final(b)) == (Draft { header: stored(*h), ..draft_of(*old(b)) }),
{
    let target = b.header_mut();
    target.set_id(h.id);
    target.set_qr(h.qr);
    target.set_rd(h.rd);
    target.set_ra(h.ra);
    target.set_ad(h.ad);
    target.set_cd(h.cd);
    target.set_rcode(Rcode::from_int(h.rcode));
}

/// Offers an A record to the builder with `AnswerBuilder::push`.
///
/// Claimed of this and of the eight wrappers that follow: the builder
/// appends the record if the message stays within the limit and otherwise
/// drops it and marks the message as truncated; nothing is added to a
/// truncated message; name compression never makes a record longer; and
/// with absolute names and a limit of at most 65535 no error is reported.
#[verifier::external_body]
fn push_a(b: &mut AnswerBuilder, name: &[u8], ttl: u32, addr: &[u8; 4])
    requires
        name_absolute(name@),
        draft_of(*old(b)).limit <= 0xffff,
    ensures
        pushed(
            draft_of(*old(b)),
            draft_of(*final(b)),
            (RecordView { name: name@, ttl, data: RecordDataView::A(addr@) }),
        ),
{
    let name = DNameBuf::from_vec(name.to_vec()).unwrap();
    b.push((name, ttl, A::from_octets(addr[0], addr[1], addr[2], addr[3]))).unwrap();
}

/// Offers an AAAA record to the builder with `AnswerBuilder::push`.
#[verifier::external_body]
fn push_aaaa(b: &mut AnswerBuilder, name: &[u8], ttl: u32, addr: &[u16; 8])
    requires
        name_absolute(name@),
        draft_of(*old(b)).limit <= 0xffff,
    ensures
        pushed(
            draft_of(*old(b)),
            draft_of(*final(b)),
            (RecordView { name: name@, ttl, data: RecordDataView::Aaaa(addr@) }),
        ),
{
    let name = DNameBuf::from_vec(name.to_vec()).unwrap();
    b.push((name, ttl, Aaaa::new((*addr).into()))).unwrap();
}

/// Offers a CNAME record to the builder with `AnswerBuilder::push`.
#[verifier::external_body]
fn push_cname(b: &mut AnswerBuilder, name: &[u8], ttl: u32, target: &[u8])
    requires
        name_absolute(name@),
        name_absolute(target@),
        draft_of(*old(b)).limit <= 0xffff,
    ensures
        pushed(
            draft_of(*old(b)),
            draft_of(*final(b)),
            (RecordView { name: name@, ttl, data: RecordDataView::Cname(target@) }),
        ),
{
    let name = DNameBuf::from_vec(name.to_vec()).unwrap();
    let target = DNameBuf::from_vec(target.to_vec()).unwrap();
    b.push((name, ttl, Cname::new(target))).unwrap();
}

/// Offers an NS record to the builder with `AnswerBuilder::push`.
#[verifier::external_body]
fn push_ns(b: &mut AnswerBuilder, name: &[u8], ttl: u32, target: &[u8])
    requires
        name_absolute(name@),
        name_absolute(target@),
        draft_of(*old(b)).limit <= 0xffff,
    ensures
        pushed(
            draft_of(*old(b)),
            draft_of(*final(b)),
            (RecordView { name: name@, ttl, data: RecordDataView::Ns(target@) }),
        ),
{
    let name = DNameBuf::from_vec(name.to_vec()).unwrap();
    let target = DNameBuf::from_vec(target.to_vec()).unwrap();
    b.push((name, ttl, Ns::new(target))).unwrap();
}

/// Offers a PTR record to the builder with `AnswerBuilder::push`.
#[verifier::external_body]
fn push_ptr(b: &mut AnswerBuilder, name: &[u8], ttl: u32, target: &[u8])
    requires
        name_absolute(name@),
        name_absolute(target@),
        draft_of(*old(b)).limit <= 0xffff,
    ensures
        pushed(
            draft_of(*old(b)),
            draft_of(*final(b)),
            (RecordView { name: name@, ttl, data: RecordDataView::Ptr(target@) }),
        ),
{
    let name = DNameBuf::from_vec(name.to_vec()).unwrap();
    let target = DNameBuf::from_vec(target.to_vec()).unwrap();
    b.push((name, ttl, Ptr::new(target))).unwrap();
}

/// Offers an MX record to the builder with `AnswerBuilder::push`.
#[verifier::external_body]
fn push_mx(b: &mut AnswerBuilder, name: &[u8], ttl: u32, preference: u16, exchange: &[u8])
    requires
        name_absolute(name@),
        name_absolute(exchange@),
        draft_of(*old(b)).limit <= 0xffff,
    ensures
        pushed(
            draft_of(*old(b)),
            draft_of(*final(b)),
            (RecordView {
                name: name@,
                ttl,
                data: RecordDataView::Mx { preference, exchange: exchange@ },
            }),
        ),
{
    let name = DNameBuf::from_vec(name.to_vec()).unwrap();
    let exchange = DNameBuf::from_vec(exchange.to_vec()).unwrap();
    b.push((name, ttl, Mx::new(preference, exchange))).unwrap();
}

/// The five numbers of an SOA record.
#[derive(Clone, Copy, Debug, PartialEq, Eq, Structural)]
pub struct SoaTimers {
    pub serial: u32,
    pub refresh: u32,
    pub retry: u32,
    pub expire: u32,
    pub minimum: u32,
}

/// Offers an SOA record to the builder with `AnswerBuilder::push`.
#[verifier::external_body]
fn push_soa(b: &mut AnswerBuilder, name: &[u8], ttl: u32, mname: &[u8], rname: &[u8], t: SoaTimers)
    requires
        name_absolute(name@),
        name_absolute(mname@),
        name_absolute(rname@),
        draft_of(*old(b)).limit <= 0xffff,
    ensures
        pushed(
            draft_of(*old(b)),
            draft_of(*final(b)),
            (RecordView {
                name: name@,
                ttl,
                data: RecordDataView::Soa {
                    mname: mname@,
                    rname: rname@,
                    serial: t.serial,
                    refresh: t.refresh,
                    retry: t.retry,
                    expire: t.expire,
                    minimum: t.minimum,
                },
            }),
        ),
{
    let name = DNameBuf::from_vec(name.to_vec()).unwrap();
    let mname = DNameBuf::from_vec(mname.to_vec()).unwrap();
    let rname = DNameBuf::from_vec(rname.to_vec()).unwrap();
    let data = Soa::new(mname, rname, t.serial, t.refresh, t.retry, t.expire, t.minimum);
    b.push((name, ttl, data)).unwrap();
}

/// Priority, weight and port of an SRV record.
#[derive(Clone, Copy, Debug, PartialEq, Eq, Structural)]
pub struct SrvNumbers {
    pub priority: u16,
    pub weight: u16,
    pub port: u16,
}

/// Offers an SRV record to the builder with `AnswerBuilder::push`.
#[verifier::external_body]
fn push_srv(b: &mut AnswerBuilder, name: &[u8], ttl: u32, n: SrvNumbers, target: &[u8])
    requires
        name_absolute(name@),
        name_absolute(target@),
        draft_of(*old(b)).limit <= 0xffff,
    ensures
        pushed(
            draft_of(*old(b)),
            draft_of(*final(b)),
            (RecordView {
                name: name@,
                ttl,
                data: RecordDataView::Srv {
                    priority: n.priority,
                    weight: n.weight,
                    port: n.port,
                    target: target@,
                },
            }),
        ),
{
    let name = DNameBuf::from_vec(name.to_vec()).unwrap();
    let target = DNameBuf::from_vec(target.to_vec()).unwrap();
    b.push((name, ttl, Srv::new(n.priority, n.weight, n.port, target))).unwrap();
}

/// Offers a TXT record to the builder with `AnswerBuilder::push`.
#[verifier::external_body]
fn push_txt(b: &mut AnswerBuilder, name: &[u8], ttl: u32, text: &[u8])
    requires
        name_absolute(name@),
        draft_of(*old(b)).limit <= 0xffff,
    ensures
        pushed(
            draft_of(*old(b)),
            draft_of(*final(b)),
            (RecordView { name: name@, ttl, data: RecordDataView::Txt(text@) }),
        ),
{
    let name = DNameBuf::from_vec(name.to_vec()).unwrap();
    b.push((name, ttl, Txt::new(text.to_vec()))).unwrap();
}

/// Takes the finished message out of the builder with
/// `AnswerBuilder::finish`.
///
/// Claimed: the bytes are the header with the truncation flag, the section
/// counts and the question as [`message_head`] lays them out, followed by
/// the answer section.
#[verifier::external_body]
fn finish(b: AnswerBuilder) -> (bytes: Vec<u8>)
    ensures
        bytes@ == message_head(draft_of(b)) + answers_wire(
            draft_of(b).question,
            draft_of(b).answers,
        ),
{
    b.finish()
}

/// Offers one record to the builder.
fn push_record(b: &mut AnswerBuilder, rec: &Record)
    requires
        record_wf(rec@),
        draft_of(*old(b)).limit <= 0xffff,
    ensures
        pushed(draft_of(*old(b)), draft_of(*final(b)), rec@),
{
    let name = rec.name.as_slice();
    match &rec.data {
        RecordData::A(o) => push_a(b, name, rec.ttl, o),
        RecordData::Aaaa(g) => push_aaaa(b, name, rec.ttl, g),
        RecordData::Cname(n) => push_cname(b, name, rec.ttl, n.as_slice()),
        RecordData::Mx { preference, exchange } => push_mx(
            b,
            name,
            rec.ttl,
            *preference,
            exchange.as_slice(),
        ),
        RecordData::Ns(n) => push_ns(b, name, rec.ttl, n.as_slice()),
        RecordData::Ptr(n) => push_ptr(b, name, rec.ttl, n.as_slice()),
        RecordData::Soa { mname, rname, serial, refresh, retry, expire, minimum } => push_soa(
            b,
            name,
            rec.ttl,
            mname.as_slice(),
            rname.as_slice(),
            SoaTimers {
                serial: *serial,
                refresh: *refresh,
                retry: *retry,
                expire: *expire,
                minimum: *minimum,
            },
        ),
        RecordData::Srv { priority, weight, port, target } => push_srv(
            b,
            name,
            rec.ttl,
            SrvNumbers { priority: *priority, weight: *weight, port: *port },
            target.as_slice(),
        ),
        RecordData::Txt(t) => push_txt(b, name, rec.ttl, t.as_slice()),
    }
}

/// The most bytes that the records take on the wire, one after the other.
pub open spec fn records_max_len(rs: Seq<RecordView>) -> nat
    decreases rs.len(),
{
    if rs.len() == 0 {
        0
    } else {
        records_max_len(rs.drop_last()) + record_max_len(rs.last())
    }
}

/// Whether header, question and all records fit within the limit even
/// without name compression.
pub open spec fn has_room(limit: nat, q: Option<QuestionView>, rs: Seq<RecordView>) -> bool {
    12 + question_bytes(q).len() + records_max_len(rs) <= limit
}

/// The draft with which composing starts: the header as it is stored, and
/// the question if there is one and it fits.
pub open spec fn started(limit: nat, h: Header, q: Option<QuestionView>) -> Draft {
    let start = match q {
        Some(v) => asked(limit, v),
        None => unasked(limit),
    };
    Draft { header: stored(h), ..start }
}

/// The draft that composing a message from these parts within `limit`
/// leaves: the records are offered one after the other.
pub open spec fn composed(
    limit: nat,
    h: Header,
    q: Option<QuestionView>,
    rs: Seq<RecordView>,
) -> Draft
    decreases rs.len(),
{
    if rs.len() == 0 {
        started(limit, h, q)
    } else {
        offered(composed(limit, h, q, rs.drop_last()), rs.last())
    }
}

/// Whether `bytes` is the message composed from these parts within
/// `limit`.
///
/// The bytes are those of the composed draft. They are within the limit; a
/// message without answers ends with its question section; and where there
/// is room for everything even without name compression, nothing is left
/// out.
pub open spec fn is_message(
    bytes: Seq<u8>,
    limit: nat,
    h: Header,
    q: Option<QuestionView>,
    rs: Seq<RecordView>,
) -> bool {
    let d = composed(limit, h, q, rs);
    &&& bytes == message_bytes(d)
    &&& bytes.len() <= limit
    &&& d.answers.len() == 0 ==> bytes.len() == 12 + question_bytes(d.question).len()
    &&& has_room(limit, q, rs) ==> !d.truncated
}

/// What composing keeps of its parts: the limit and the header; the
/// question if it fits; and the first of the records, all of them unless
/// the message is truncated.
pub proof fn lemma_composed(limit: nat, h: Header, q: Option<QuestionView>, rs: Seq<RecordView>)
    ensures
        composed(limit, h, q, rs).limit == limit,
        composed(limit, h, q, rs).header == stored(h),
        composed(limit, h, q, rs).question == (if 12 + question_bytes(q).len() <= limit {
            q
        } else {
            None
        }),
        composed(limit, h, q, rs).answers.len() <= rs.len(),
        composed(limit, h, q, rs).answers == rs.take(
            composed(limit, h, q, rs).answers.len() as int,
        ),
        !composed(limit, h, q, rs).truncated ==> composed(limit, h, q, rs).answers == rs
            && composed(limit, h, q, rs).question == q,
    decreases rs.len(),
{
    let d = composed(limit, h, q, rs);
    if rs.len() == 0 {
        match q {
            Some(v) => {
                assert(question_bytes(q).len() == v.name.len() + 4);
            },
            None => {},
        }
        assert(d.answers =~= rs.take(0));
    } else {
        let pre = composed(limit, h, q, rs.drop_last());
        lemma_composed(limit, h, q, rs.drop_last());
        if d.truncated {
            assert(d.answers == pre.answers);
            assert(rs.drop_last().take(pre.answers.len() as int) =~= rs.take(
                pre.answers.len() as int,
            ));
        } else {
            assert(pre.answers == rs.drop_last());
            assert(pre.answers.push(rs.last()) =~= rs);
            assert(rs.take(rs.len() as int) =~= rs);
        }
    }
}

/// Where header, question and records have room even without name
/// compression, the message holds the question and every record.
pub proof fn law_room_keeps_every_record(
    bytes: Seq<u8>,
    limit: nat,
    h: Header,
    q: Option<QuestionView>,
    rs: Seq<RecordView>,
)
    requires
        is_message(bytes, limit, h, q, rs),
        has_room(limit, q, rs),
    ensures
        bytes == message_bytes(
            (Draft { limit, header: stored(h), question: q, answers: rs, truncated: false }),
        ),
{
    lemma_composed(limit, h, q, rs);
}

/// The size of a message in terms of its parts.
pub proof fn lemma_message_len(d: Draft)
    ensures
        message_head(d).len() == 12 + question_bytes(d.question).len(),
        message_bytes(d).len() == wire_len(d.question, d.answers),
{
}

/// The first records never need more room than all of them.
pub proof fn lemma_records_max_len_grows(rs: Seq<RecordView>, n: int)
    requires
        0 <= n <= rs.len(),
    ensures
        records_max_len(rs.take(n)) <= records_max_len(rs),
    decreases rs.len() - n,
{
    if n == rs.len() {
        assert(rs.take(n) =~= rs);
    } else {
        lemma_records_max_len_grows(rs, n + 1);
        let t = rs.take(n + 1);
        assert(t.drop_last() =~= rs.take(n));
    }
}

/// Composes a message from a header, at most one question and a list of
/// records, within `limit` bytes.
///
/// A record that no longer fits is left out, together with all that follow
/// it, and the message is then marked as truncated.
pub fn compose(limit: usize, h: &Header, q: Option<&Question>, records: &Vec<Record>) -> (bytes:
    Vec<u8>)
    requires
        12 <= limit <= 0xffff,
        q matches Some(q) ==> name_absolute(q@.name),
        records_wf(records_view(records@)),
    ensures
        is_message(bytes@, limit as nat, *h, question_view(q), records_view(records@)),
        bytes@.len() <= limit,
{
    let ghost qv = question_view(q);
    let ghost rs = records_view(records@);
    let mut b = match q {
        Some(q) => open_asked(limit, q.name.as_slice(), q.qtype, q.qclass),
        None => open_unasked(limit),
    };
    proof {
        match qv {
            Some(v) => {
                assert(question_bytes(qv).len() == v.name.len() + 4);
            },
            None => {},
        }
    }
    write_header(&mut b, h);
    let n = records.len();
    let mut k: usize = 0;
    proof {
        assert(rs.take(0) =~= Seq::<RecordView>::empty());
        assert(draft_of(b) == started(limit as nat, *h, qv));
    }
    while k < n
        invariant
            k <= n,
            n == records@.len(),
            rs == records_view(records@),
            records_wf(rs),
            limit <= 0xffff,
            draft_of(b) == composed(limit as nat, *h, qv, rs.take(k as int)),
            draft_of(b).limit == limit,
            wire_len(draft_of(b).question, draft_of(b).answers) <= limit,
            draft_of(b).answers.len() == 0 ==> wire_len(draft_of(b).question, draft_of(b).answers)
                == 12 + question_bytes(draft_of(b).question).len(),
            !draft_of(b).truncated ==> draft_of(b).question == qv,
            !draft_of(b).truncated ==> wire_len(draft_of(b).question, draft_of(b).answers) <= 12
                + question_bytes(qv).len() + records_max_len(rs.take(k as int)),
            draft_of(b).truncated ==> !has_room(limit as nat, qv, rs),
        decreases n - k,
    {
        let rec = &records[k];
        proof {
            assert(rs[k as int] == rec@);
            assert(record_wf(rs[k as int]));
            let t = rs.take(k + 1);
            assert(t.drop_last() =~= rs.take(k as int));
            assert(t.last() == rec@);
            lemma_records_max_len_grows(rs, k + 1);
        }
        push_record(&mut b, rec);
        k += 1;
    }
    proof {
        assert(rs.take(n as int) =~= rs);
        lemma_message_len(draft_of(b));
    }
    finish(b)
}

/// Identifier and response flag of a message: `None` where the bytes are
/// too few to hold a header.
pub open spec fn header_of(msg: Seq<u8>) -> Option<(u16, bool)> {
    if msg.len() < 12 {
        None
    } else {
        Some((be16_at(msg, 0), msg[2] >= 128))
    }
}

/// Reads identifier and response flag with `Message::from_bytes` and the
/// header's `id` and `qr`.
///
/// Claimed: `from_bytes` accepts any twelve bytes or more; the id is the
/// first two bytes, high byte first, and the flag is the top bit of the
/// third.
#[verifier::external_body]
fn read_header(msg: &[u8]) -> (r: Option<(u16, bool)>)
    ensures
        r == header_of(msg@),
{
    Message::from_bytes(msg).ok().map(|m| (m.header().id(), m.header().qr()))
}

/// The first question of a message, where the message counts at least one
/// question, its name is a chain of ordinary labels closed by the root
/// label, and type and class follow it.
pub open spec fn question_of(msg: Seq<u8>) -> Option<QuestionView> {
    if msg.len() < 12 || be16_at(msg, 4) == 0 {
        None
    } else {
        match name_end(msg, 12) {
            Some(e) => if e + 4 <= msg.len() {
                Some(
                    QuestionView {
                        name: msg.subrange(12, e),
                        qtype: be16_at(msg, e),
                        qclass: be16_at(msg, e + 2),
                    },
                )
            } else {
                None
            },
            None => None,
        }
    }
}

/// A decimal digit as a character.
pub open spec fn digit_char(d: int) -> char {
    (0x30 + d) as u8 as char
}

/// The text of one byte of a label: a space, a full stop and a backslash
/// behind a backslash; a byte outside the printable ASCII range as a
/// backslash and its three decimal digits; any other byte as itself.
pub open spec fn byte_text(b: u8) -> Seq<char> {
    if b == 0x20 || b == 0x2e || b == 0x5c {
        seq!['\\', b as char]
    } else if b < 0x20 || b >= 0x7f {
        seq![
            '\\',
            digit_char(b as int / 100),
            digit_char(b as int / 10 % 10),
            digit_char(b as int % 10),
        ]
    } else {
        seq![b as char]
    }
}

/// The text of the bytes of a label, one after the other.
pub open spec fn label_text(s: Seq<u8>) -> Seq<char>
    decreases s.len(),
{
    if s.len() == 0 {
        Seq::empty()
    } else {
        label_text(s.drop_last()) + byte_text(s.last())
    }
}

/// The text of an absolute name in zone-file notation: each label with a
/// full stop behind it, the root label as nothing. So the root itself is
/// the empty text.
pub open spec fn name_text(name: Seq<u8>) -> Seq<char>
    decreases name.len(),
{
    if name.len() == 0 || name[0] == 0 || name[0] > 63 || 1 + name[0] > name.len() {
        Seq::empty()
    } else {
        label_text(name.subrange(1, 1 + name[0] as int)) + seq!['.'] + name_text(
            name.skip(1 + name[0] as int),
        )
    }
}

/// Reads the first question with `Message::first_question`, and the text of
/// its name by displaying it.
///
/// The name must end inside the message without a compression pointer: the
/// reader follows pointers without a bound. Claimed for such messages: the
/// question is found exactly where [`question_of`] says, its name is handed
/// out as it stands in the message, and the name is displayed label by
/// label with a full stop between two labels, each byte as [`byte_text`]
/// says.
#[verifier::external_body]
fn read_question(msg: &[u8]) -> (r: Option<(Question, String)>)
    requires
        msg@.len() >= 12,
        name_end(msg@, 12) is Some,
    ensures
        match r {
            Some((q, host)) => question_of(msg@) == Some(q@) && host@ == name_text(q@.name),
            None => question_of(msg@) is None,
        },
{
    let found = Message::from_bytes(msg).ok()?.first_question()?;
    let name = found.qname().to_cow().as_bytes().to_vec();
    let (qtype, qclass) = (found.qtype().to_int(), found.qclass().to_int());
    Some((Question { name, qtype, qclass }, format!("{}", found.qname())))
}

/// A decoded query.
#[derive(Clone, Debug, PartialEq, Eq)]
pub struct Query {
    /// The transaction id.
    pub id: u16,
    pub question: Question,
    /// The question's name as text, as it is handed upstream.
    pub hostname: String,
}

/// Why a packet is no query that can be looked up.
#[derive(Clone, Copy, Debug, PartialEq, Eq, Structural)]
pub enum QueryError {
    /// The packet is too short to be a message.
    Malformed,
    /// The packet is a response.
    NotAQuery,
    /// The message has no question that can be read.
    NoQuestion { id: u16 },
}

/// What decoding a packet gives, with the query described by its parts.
pub open spec fn decoded(msg: Seq<u8>) -> Result<(u16, QuestionView), QueryError> {
    match header_of(msg) {
        None => Err(QueryError::Malformed),
        Some((id, qr)) => if qr {
            Err(QueryError::NotAQuery)
        } else {
            match question_of(msg) {
                Some(q) => Ok((id, q)),
                None => Err(QueryError::NoQuestion { id }),
            }
        },
    }
}

/// Decodes a packet into a query.
///
/// A question whose name uses a compression pointer, or a label of a kind
/// other than the ordinary one, counts as unreadable.
pub fn decode_query(msg: &[u8]) -> (r: Result<Query, QueryError>)
    ensures
        match r {
            Ok(query) => {
                &&& decoded(msg@) == Ok::<(u16, QuestionView), QueryError>(
                    (query.id, query.question@),
                )
                &&& name_absolute(query.question@.name)
                &&& query.hostname@ == name_text(query.question@.name)
            },
            Err(e) => decoded(msg@) == Err::<(u16, QuestionView), QueryError>(e),
        },
{
    let (id, qr) = match read_header(msg) {
        Some(found) => found,
        None => {
            return Err(QueryError::Malformed);
        },
    };
    if qr {
        return Err(QueryError::NotAQuery);
    }
    if find_name_end(msg, 12).is_none() {
        return Err(QueryError::NoQuestion { id });
    }
    match read_question(msg) {
        Some((question, hostname)) => {
            proof {
                lemma_name_end(msg@, 12);
            }
            Ok(Query { id, question, hostname })
        },
        None => Err(QueryError::NoQuestion { id }),
    }
}

} // verus!
