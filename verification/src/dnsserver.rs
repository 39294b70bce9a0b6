//! The engine: what to do with a packet that arrives, and what
//! to send back once the upstream lookup has answered or failed.
//!
//! The engine holds no state. The caller owns the socket and the upstream
//! client: it hands each packet to [`receive`], performs the lookup that a
//! [`Step::Lookup`] asks for, and hands the outcome to [`respond`].

use vstd::prelude::*;
use crate::name::{is_absolute, name_absolute};
use crate::pdns::{DnsAnswer, DnsResponse};
use crate::record::{
    records_view, convert_all, converted_all, Record, RecordError, RecordView,
};
use crate::wire::{
    lemma_composed,
    be16, be16_at, bit, compose, composed, decode_query, decoded, header_bytes, is_message,
    message_bytes, message_head, question_bytes, question_of, stored, Draft, Header, Query,
    QueryError, Question, QuestionView,
};

verus! {

/// The largest response that is sent, in bytes.
pub const WIRE_LIMIT: usize = 1400;

/// Response code of a reply to a message without a readable question.
pub const RCODE_FORMERR: u8 = 1;

/// Response code of a reply where the upstream lookup failed or its answer
/// cannot be encoded.
pub const RCODE_SERVFAIL: u8 = 2;

/// The header of a reply that reports an error: the response flag and the
/// response code, all other flags clear.
pub open spec fn error_header(id: u16, rcode: u8) -> Header {
    Header { id, qr: true, rd: false, ra: false, ad: false, cd: false, rcode }
}

/// The header of a reply that carries an upstream answer: the response
/// flag, and the flags and status that upstream reported.
pub open spec fn answer_header(id: u16, res: DnsResponse) -> Header {
    Header {
        id,
        qr: true,
        rd: res.recursion_desired,
        ra: res.recursion_available,
        ad: res.dnssec_validated,
        cd: res.dnssec_disabled,
        rcode: res.status,
    }
}

/// The answers of an upstream response, none where it has no list.
pub open spec fn answers_of(res: DnsResponse) -> Seq<DnsAnswer> {
    match res.answer {
        Some(list) => list@,
        None => Seq::empty(),
    }
}

impl Query {
    /// Whether the query can be answered: its question's name is an
    /// absolute name. Every query that [`decode_query`] gives is.
    pub open spec fn wf(&self) -> bool {
        name_absolute(self.question@.name)
    }

    /// Whether the query can be answered.
    pub fn is_valid(&self) -> (r: bool)
        ensures
            r == self.wf(),
    {
        is_absolute(self.question.name.as_slice())
    }
}

/// Builds a reply that reports an error and carries no answers.
pub fn error_response(id: u16, question: Option<&Question>, rcode: u8) -> (bytes: Vec<u8>)
    requires
        question matches Some(q) ==> name_absolute(q@.name),
    ensures
        is_message(
            bytes@,
            WIRE_LIMIT as nat,
            error_header(id, rcode),
            crate::wire::question_view(question),
            Seq::empty(),
        ),
        bytes@.len() <= WIRE_LIMIT,
{
    let h = Header { id, qr: true, rd: false, ra: false, ad: false, cd: false, rcode };
    let none: Vec<Record> = Vec::new();
    proof {
        assert(records_view(none@) =~= Seq::<RecordView>::empty());
    }
    compose(WIRE_LIMIT, &h, question, &none)
}

/// Encodes an upstream answer as the reply to `query`.
///
/// Fails, without a reply, where one of the answers cannot be read; which
/// answers those are, and which are left out instead, is what
/// [`converted_all`] says.
pub fn encode_response(query: &Query, res: &DnsResponse) -> (r: Result<Vec<u8>, RecordError>)
    requires
        query.wf(),
    ensures
        match r {
            Ok(bytes) => {
                &&& converted_all(answers_of(*res)) is Ok
                &&& is_message(
                    bytes@,
                    WIRE_LIMIT as nat,
                    answer_header(query.id, *res),
                    Some(query.question@),
                    converted_all(answers_of(*res))->Ok_0,
                )
                &&& bytes@.len() <= WIRE_LIMIT
            },
            Err(e) => converted_all(answers_of(*res)) == Err::<Seq<RecordView>, RecordError>(e),
        },
{
    let records = match &res.answer {
        Some(list) => match convert_all(list) {
            Ok(records) => records,
            Err(e) => {
                return Err(e);
            },
        },
        None => {
            let none: Vec<Record> = Vec::new();
            proof {
                assert(records_view(none@) =~= Seq::<RecordView>::empty());
            }
            none
        },
    };
    let h = Header {
        id: query.id,
        qr: true,
        rd: res.recursion_desired,
        ra: res.recursion_available,
        ad: res.dnssec_validated,
        cd: res.dnssec_disabled,
        rcode: res.status,
    };
    Ok(compose(WIRE_LIMIT, &h, Some(&query.question), &records))
}

/// The header of the reply to a query with transaction id `id`, given the
/// outcome of the lookup: `None` stands for a lookup that failed.
pub open spec fn reply_header(id: u16, upstream: Option<DnsResponse>) -> Header {
    match upstream {
        Some(res) => if converted_all(answers_of(res)) is Ok {
            answer_header(id, res)
        } else {
            error_header(id, RCODE_SERVFAIL)
        },
        None => error_header(id, RCODE_SERVFAIL),
    }
}

/// The records that the reply is composed from, given the outcome of the
/// lookup.
pub open spec fn reply_records(upstream: Option<DnsResponse>) -> Seq<RecordView> {
    match upstream {
        Some(res) => match converted_all(answers_of(res)) {
            Ok(rs) => rs,
            Err(_) => Seq::empty(),
        },
        None => Seq::empty(),
    }
}

/// Whether `bytes` is the reply to a query with this id and question, given
/// the outcome of the lookup.
pub open spec fn is_reply(
    bytes: Seq<u8>,
    id: u16,
    q: QuestionView,
    upstream: Option<DnsResponse>,
) -> bool {
    is_message(
        bytes,
        WIRE_LIMIT as nat,
        reply_header(id, upstream),
        Some(q),
        reply_records(upstream),
    )
}

/// The outcome of a lookup as a value.
pub open spec fn outcome_view(upstream: Option<&DnsResponse>) -> Option<DnsResponse> {
    match upstream {
        Some(res) => Some(*res),
        None => None,
    }
}

/// Builds the reply to `query` from the outcome of the upstream lookup,
/// `None` where the lookup failed.
///
/// A failed lookup, and an answer that cannot be encoded, give a reply with
/// the response code SERVFAIL and no answers. Otherwise the reply carries
/// upstream's flags and status and the records of its answers, as far as
/// they fit.
pub fn respond(query: &Query, upstream: Option<&DnsResponse>) -> (bytes: Vec<u8>)
    requires
        query.wf(),
    ensures
        is_reply(bytes@, query.id, query.question@, outcome_view(upstream)),
        bytes@.len() <= WIRE_LIMIT,
{
    match upstream {
        Some(res) => match encode_response(query, res) {
            Ok(bytes) => bytes,
            Err(_) => error_response(query.id, Some(&query.question), RCODE_SERVFAIL),
        },
        None => error_response(query.id, Some(&query.question), RCODE_SERVFAIL),
    }
}

/// What to do with a packet.
#[derive(Clone, Debug, PartialEq, Eq)]
pub enum Step {
    /// Send nothing: the packet is no message, or it is a response.
    Ignore(QueryError),
    /// Send these bytes back.
    Reply(Vec<u8>),
    /// Look the query up, then call [`respond`].
    Lookup(Query),
}

/// Decides what to do with a packet that arrived.
///
/// A packet too short to be a message, and a message that is a response,
/// are ignored. A message without a readable question is answered at once
/// with the response code FORMERR. Anything else is a query to look up.
pub fn receive(packet: &[u8]) -> (step: Step)
    ensures
        match decoded(packet@) {
            Ok((id, q)) => {
                &&& step matches Step::Lookup(query)
                &&& query.id == id
                &&& query.question@ == q
                &&& query.wf()
                &&& query.hostname@ == crate::wire::name_text(q.name)
            },
            Err(QueryError::NoQuestion { id }) => {
                &&& step matches Step::Reply(bytes)
                &&& is_message(
                    bytes@,
                    WIRE_LIMIT as nat,
                    error_header(id, RCODE_FORMERR),
                    None,
                    Seq::empty(),
                )
                &&& bytes@.len() <= WIRE_LIMIT
            },
            Err(e) => step == Step::Ignore(e),
        },
        packet@.len() >= 12 && packet@[2] >= 128 ==> step == Step::Ignore(QueryError::NotAQuery),
{
    match decode_query(packet) {
        Ok(query) => Step::Lookup(query),
        Err(QueryError::NoQuestion { id }) => Step::Reply(error_response(id, None, RCODE_FORMERR)),
        Err(e) => Step::Ignore(e),
    }
}

/// Whether `msg` is a well-formed query with a single question: a message
/// that is no response, counts one question, and holds it as a name of at
/// most 255 bytes in ordinary labels, followed by type and class.
pub open spec fn single_question_query(msg: Seq<u8>) -> bool {
    &&& decoded(msg) is Ok
    &&& be16_at(msg, 4) == 1
    &&& decoded(msg)->Ok_0.1.name.len() <= 255
}

/// Two bytes written high byte first are read back as they were written.
pub proof fn lemma_be16_round_trip(s: Seq<u8>, at: int)
    requires
        0 <= at,
        at + 1 < s.len(),
    ensures
        be16(be16_at(s, at) as int) == seq![s[at], s[at + 1]],
{
    let a = s[at] as int;
    let b = s[at + 1] as int;
    let v = a * 256 + b;
    assert(be16_at(s, at) as int == v);
    assert((v / 256) % 256 == a && v % 256 == b) by (nonlinear_arith)
        requires
            0 <= a < 256,
            0 <= b < 256,
            v == a * 256 + b,
    ;
    assert(be16(v) =~= seq![s[at], s[at + 1]]);
}

/// How the bytes of a message are laid out up to the end of its question
/// section.
pub proof fn lemma_message_layout(d: Draft)
    ensures
        message_head(d).len() == 12 + question_bytes(d.question).len(),
        message_bytes(d).len() >= message_head(d).len(),
        forall|i: int| 0 <= i < message_head(d).len() ==> message_bytes(d)[i] == message_head(d)[i],
        message_head(d)[0] == (d.header.id / 256) as u8,
        message_head(d)[1] == (d.header.id % 256) as u8,
        message_head(d)[2] == 128 * bit(d.header.qr) + 2 * bit(d.truncated) + bit(d.header.rd),
        message_head(d)[3] == 128 * bit(d.header.ra) + 32 * bit(d.header.ad) + 16 * bit(
            d.header.cd,
        ) + d.header.rcode % 16,
        message_head(d)[4] == 0,
        message_head(d)[5] == (if d.question is Some {
            1int
        } else {
            0int
        }),
        message_head(d)[6] == ((d.answers.len() / 256) % 256) as u8,
        message_head(d)[7] == (d.answers.len() % 256) as u8,
        forall|i: int| 8 <= i < 12 ==> message_head(d)[i] == 0,
        forall|i: int|
            0 <= i < question_bytes(d.question).len() ==> message_head(d)[12 + i]
                == question_bytes(d.question)[i],
{
    let hb = header_bytes(d.header, d.truncated);
    let counts = be16(
        if d.question is Some {
            1
        } else {
            0
        },
    ) + be16(d.answers.len() as int) + be16(0) + be16(0);
    assert(hb.len() == 4);
    assert(counts.len() == 8);
    assert(message_head(d) =~= hb + counts + question_bytes(d.question));
    let fixed = hb + counts;
    assert(fixed.len() == 12);
    assert(fixed[0] == hb[0] && fixed[1] == hb[1] && fixed[2] == hb[2] && fixed[3] == hb[3]);
    assert(fixed[4] == counts[0] && fixed[5] == counts[1] && fixed[6] == counts[2] && fixed[7]
        == counts[3]);
    assert(fixed[8] == counts[4] && fixed[9] == counts[5] && fixed[10] == counts[6] && fixed[11]
        == counts[7]);
    let head = message_head(d);
    assert forall|i: int| 0 <= i < 12 implies head[i] == fixed[i] by {}
    assert forall|i: int| 8 <= i < 12 implies head[i] == 0 by {
        assert(head[i] == fixed[i]);
    }
}

/// The reply to a well-formed query with a single question carries the
/// query's transaction id and is marked as a response, and its question
/// section is the query's question section, byte for byte. This holds
/// whatever the upstream lookup gave.
pub proof fn law_reply_echoes_query(msg: Seq<u8>, upstream: Option<DnsResponse>, reply: Seq<u8>)
    requires
        single_question_query(msg),
        is_reply(reply, decoded(msg)->Ok_0.0, decoded(msg)->Ok_0.1, upstream),
    ensures
        reply.len() >= 16 + question_of(msg)->0.name.len(),
        reply[0] == msg[0] && reply[1] == msg[1],
        reply[2] >= 128,
        reply[4] == msg[4] && reply[5] == msg[5],
        reply.subrange(12, 16 + question_of(msg)->0.name.len() as int) == msg.subrange(
            12,
            16 + question_of(msg)->0.name.len() as int,
        ),
{
    let id = decoded(msg)->Ok_0.0;
    let q = decoded(msg)->Ok_0.1;
    let h = reply_header(id, upstream);
    let rs = reply_records(upstream);
    let d = composed(WIRE_LIMIT as nat, h, Some(q), rs);
    lemma_composed(WIRE_LIMIT as nat, h, Some(q), rs);
    let e = crate::name::name_end(msg, 12)->0;
    crate::name::lemma_name_end(msg, 12);
    assert(q.name == msg.subrange(12, e));
    let n = q.name.len() as int;
    assert(e == 12 + n);
    let qb = question_bytes(Some(q));
    assert(qb.len() == n + 4);
    assert(d.question == Some(q));
    assert(h.id == id && h.qr);
    assert(d.header.id == id && d.header.qr);
    lemma_message_layout(d);
    lemma_be16_round_trip(msg, 0);
    lemma_be16_round_trip(msg, e);
    lemma_be16_round_trip(msg, e + 2);
    let head = message_head(d);
    assert(be16(id as int)[0] == msg[0] && be16(id as int)[1] == msg[1]);
    assert(reply[0] == head[0] && reply[1] == head[1] && reply[2] == head[2]);
    assert(reply[4] == head[4] && reply[5] == head[5]);
    assert(msg[4] == 0 && msg[5] == 1) by {
        let a = msg[4] as int;
        let b = msg[5] as int;
        assert(a * 256 + b == 1);
        assert(a == 0 && b == 1) by (nonlinear_arith)
            requires
                0 <= a < 256,
                0 <= b < 256,
                a * 256 + b == 1,
        ;
    }
    assert forall|j: int| 12 <= j < 16 + n implies #[trigger] reply[j] == msg[j] by {
        let i = j - 12;
        assert(reply[j] == head[j]);
        assert(head[12 + i] == qb[i]);
        if i < n {
            assert(qb[i] == q.name[i]);
        } else if i < n + 2 {
            assert(qb[i] == be16(q.qtype as int)[i - n]);
        } else {
            assert(qb[i] == be16(q.qclass as int)[i - n - 2]);
        }
    }
    assert(reply.subrange(12, 16 + n) =~= msg.subrange(12, 16 + n));
}

/// A message that is no response and counts no question is answered with
/// exactly twelve bytes: the query's transaction id, the response flag, the
/// response code FORMERR, and empty sections.
pub proof fn law_no_question_is_formerr(msg: Seq<u8>, reply: Seq<u8>)
    requires
        msg.len() >= 12,
        msg[2] < 128,
        be16_at(msg, 4) == 0,
        is_message(
            reply,
            WIRE_LIMIT as nat,
            error_header(be16_at(msg, 0), RCODE_FORMERR),
            None,
            Seq::empty(),
        ),
    ensures
        decoded(msg) == Err::<(u16, QuestionView), QueryError>(
            QueryError::NoQuestion { id: be16_at(msg, 0) },
        ),
        reply.len() == 12,
        reply[0] == msg[0] && reply[1] == msg[1],
        reply[2] == 128,
        reply[3] == RCODE_FORMERR,
        forall|i: int| 4 <= i < 12 ==> reply[i] == 0,
{
    let h = error_header(be16_at(msg, 0), RCODE_FORMERR);
    let d = composed(WIRE_LIMIT as nat, h, None, Seq::empty());
    lemma_composed(WIRE_LIMIT as nat, h, None, Seq::empty());
    lemma_be16_round_trip(msg, 0);
    assert(d.answers.len() == 0);
    assert(d.question is None);
    assert(d.header == stored(h));
    lemma_message_layout(d);
    let head = message_head(d);
    assert(head.len() == 12);
    assert(reply.len() == 12);
    assert(!d.truncated);
    assert(be16(h.id as int)[0] == msg[0] && be16(h.id as int)[1] == msg[1]);
    assert(reply[0] == head[0] && reply[1] == head[1] && reply[2] == head[2] && reply[3]
        == head[3]);
    assert forall|i: int| 4 <= i < 12 implies reply[i] == 0 by {
        assert(reply[i] == head[i]);
    }
}

/// Every reply holds at least a header, carries the transaction id that it
/// was built for, high byte first, and is marked as a response.
pub proof fn law_reply_is_a_response(
    id: u16,
    q: QuestionView,
    upstream: Option<DnsResponse>,
    reply: Seq<u8>,
)
    requires
        is_reply(reply, id, q, upstream),
    ensures
        12 <= reply.len() <= WIRE_LIMIT,
        reply[0] == id / 256 && reply[1] == id % 256,
        reply[2] >= 128,
{
    let h = reply_header(id, upstream);
    let rs = reply_records(upstream);
    let d = composed(WIRE_LIMIT as nat, h, Some(q), rs);
    lemma_composed(WIRE_LIMIT as nat, h, Some(q), rs);
    assert(h.id == id && h.qr);
    assert(d.header.id == id && d.header.qr);
    lemma_message_layout(d);
    let head = message_head(d);
    assert(reply[0] == head[0] && reply[1] == head[1] && reply[2] == head[2]);
}

/// Where the upstream lookup fails, the reply carries the response code
/// SERVFAIL and no answers.
pub proof fn law_failed_lookup_is_servfail(id: u16, q: QuestionView, reply: Seq<u8>)
    requires
        is_reply(reply, id, q, None),
    ensures
        reply.len() >= 12,
        reply[3] % 16 == RCODE_SERVFAIL,
        reply[6] == 0 && reply[7] == 0,
{
    let h = error_header(id, RCODE_SERVFAIL);
    assert(reply_header(id, None) == h);
    assert(reply_records(None) == Seq::<RecordView>::empty());
    assert(is_message(reply, WIRE_LIMIT as nat, h, Some(q), Seq::empty()));
    lemma_error_message(reply, WIRE_LIMIT as nat, id, RCODE_SERVFAIL, Some(q));
}

/// Where upstream answered but one of its answers cannot be read, the reply
/// is the one that a failed lookup gets: response code SERVFAIL, no
/// answers, and none of upstream's flags.
pub proof fn law_unreadable_answer_is_servfail(
    id: u16,
    q: QuestionView,
    res: DnsResponse,
    reply: Seq<u8>,
)
    requires
        converted_all(answers_of(res)) is Err,
        is_reply(reply, id, q, Some(res)),
    ensures
        is_reply(reply, id, q, None),
        reply.len() >= 12,
        reply[3] == RCODE_SERVFAIL,
        reply[6] == 0 && reply[7] == 0,
{
    assert(reply_header(id, Some(res)) == reply_header(id, None));
    assert(reply_records(Some(res)) == reply_records(None));
    lemma_error_message(reply, WIRE_LIMIT as nat, id, RCODE_SERVFAIL, Some(q));
}

/// A message that reports an error holds at least a header, with the
/// response flag, the response code in the low four bits of the fourth
/// byte, and an answer count of zero.
pub proof fn lemma_error_message(
    bytes: Seq<u8>,
    limit: nat,
    id: u16,
    rcode: u8,
    q: Option<QuestionView>,
)
    requires
        is_message(bytes, limit, error_header(id, rcode), q, Seq::empty()),
    ensures
        bytes.len() >= 12,
        bytes[2] >= 128,
        bytes[3] == rcode % 16,
        bytes[6] == 0 && bytes[7] == 0,
{
    let h = error_header(id, rcode);
    let d = composed(limit, h, q, Seq::empty());
    lemma_composed(limit, h, q, Seq::empty());
    assert(d.answers.len() == 0);
    let stored_header = d.header;
    assert(stored_header == stored(h));
    assert(stored_header.qr && !stored_header.ra && !stored_header.ad && !stored_header.cd);
    assert(stored_header.rcode == rcode % 16);
    lemma_message_layout(d);
    let head = message_head(d);
    assert(bytes[2] == head[2] && bytes[3] == head[3] && bytes[6] == head[6] && bytes[7]
        == head[7]);
    assert(bit(stored_header.ra) == 0 && bit(stored_header.ad) == 0 && bit(stored_header.cd) == 0);
    assert(bit(stored_header.qr) == 1);
    assert((rcode % 16) % 16 == rcode % 16);
}

/// No message that is composed within a limit is longer than the limit,
/// however many records it was composed from.
pub proof fn law_message_within_limit(
    bytes: Seq<u8>,
    limit: nat,
    h: Header,
    q: Option<QuestionView>,
    rs: Seq<RecordView>,
)
    requires
        is_message(bytes, limit, h, q, rs),
    ensures
        bytes.len() <= limit,
{
}

} // verus!
