//! The message decoder: header, question section, answer section (RDATA
//! opaque, only lengths kept), then authority section (RDATA decoded as NS
//! target names).  Additional records are counted but never parsed.

use crate::bytes::{be16, read_u16};
use crate::errors::{DnsError, MessageError, Section};
use crate::question::{decode_questions, spec_questions_at, questions_match, Question, SpecQuestion};
use crate::record::{decode_records, spec_records_at, records_match, NsRecord, SpecRecord};
use vstd::prelude::*;

verus! {

/// One whole decoded message: the six header fields and the decoded
/// sections.  Answer records keep only their declared RDATA length.
#[derive(Debug, Clone, PartialEq, Eq)]
pub struct DnsQuery {
    /// The 16-bit transaction id.
    pub query_id: u16,
    /// The raw 16-bit flags word, kept opaque.
    pub flags: u16,
    /// The declared question count.
    pub question_count: u16,
    /// The declared answer count.
    pub answer_count: u16,
    /// The declared authority count.
    pub ns_count: u16,
    /// The declared additional count; its records are not parsed.
    pub ar_count: u16,
    /// The decoded questions, in order.
    pub questions: Vec<Question>,
    /// The declared RDATA length of each answer record, in order.
    pub answer_rd_lengths: Vec<u16>,
    /// The decoded authority records, in order.
    pub ns_records: Vec<NsRecord>,
}

/// The mathematical content of a decoded message.
pub ghost struct SpecMessage {
    pub id: u16,
    pub flags: u16,
    pub qdcount: u16,
    pub ancount: u16,
    pub nscount: u16,
    pub arcount: u16,
    pub questions: Seq<SpecQuestion>,
    pub answer_rd_lengths: Seq<u16>,
    pub ns_records: Seq<SpecRecord>,
}

/// What decoding a whole buffer yields: the header fields, `qdcount`
/// questions from offset 12, `ancount` opaque answer records, then
/// `nscount` authority records with RDATA read as a name.  A failure
/// carries the section that produced it.
pub open spec fn spec_decode_message(buf: Seq<u8>) -> Result<SpecMessage, MessageError> {
    if buf.len() < 12 {
        Err(MessageError { section: Section::Header, kind: DnsError::TruncatedBuffer })
    } else {
        let qdcount = be16(buf, 4);
        let ancount = be16(buf, 6);
        let nscount = be16(buf, 8);
        match spec_questions_at(buf, 12, qdcount as nat) {
            Err(e) => Err(MessageError { section: Section::Questions, kind: e }),
            Ok((qs, off1)) => match spec_records_at(buf, off1, ancount as nat, false) {
                Err(e) => Err(MessageError { section: Section::Answers, kind: e }),
                Ok((answers, off2)) => match spec_records_at(buf, off2, nscount as nat, true) {
                    Err(e) => Err(MessageError { section: Section::Authority, kind: e }),
                    Ok((nss, _)) => Ok(
                        SpecMessage {
                            id: be16(buf, 0),
                            flags: be16(buf, 2),
                            qdcount,
                            ancount,
                            nscount,
                            arcount: be16(buf, 10),
                            questions: qs,
                            answer_rd_lengths: answers.map_values(|r: SpecRecord| r.rd_length),
                            ns_records: nss,
                        },
                    ),
                },
            },
        }
    }
}

/// The decoded message holds the model's fields, its questions and records
/// pointwise, and the answers' declared RDATA lengths in order.
pub open spec fn message_matches(m: DnsQuery, s: SpecMessage) -> bool {
    &&& m.query_id == s.id
    &&& m.flags == s.flags
    &&& m.question_count == s.qdcount
    &&& m.answer_count == s.ancount
    &&& m.ns_count == s.nscount
    &&& m.ar_count == s.arcount
    &&& questions_match(m.questions@, s.questions)
    &&& m.answer_rd_lengths@ == s.answer_rd_lengths
    &&& records_match(m.ns_records@, s.ns_records)
}

/// Decoding a section honours its declared count: when it succeeds, the
/// list holds exactly `count` entries.
pub proof fn lemma_questions_count(buf: Seq<u8>, off: nat, count: nat)
    requires
        spec_questions_at(buf, off, count) is Ok,
    ensures
        spec_questions_at(buf, off, count)->Ok_0.0.len() == count,
    decreases count,
{
    if count > 0 {
        let (_, end) = spec_name_at_ok(buf, off);
        lemma_questions_count(buf, end + 4, (count - 1) as nat);
    }
}

/// The successful name decode behind a successful question decode.
spec fn spec_name_at_ok(buf: Seq<u8>, off: nat) -> (Seq<u8>, nat) {
    crate::name::spec_name_at(buf, off)->Ok_0
}

/// Decoding a record section honours its declared count as well.
pub proof fn lemma_records_count(buf: Seq<u8>, off: nat, count: nat, rdata_as_name: bool)
    requires
        spec_records_at(buf, off, count, rdata_as_name) is Ok,
    ensures
        spec_records_at(buf, off, count, rdata_as_name)->Ok_0.0.len() == count,
    decreases count,
{
    if count > 0 {
        let next = crate::record::spec_record_at(buf, off, rdata_as_name)->Ok_0.1;
        lemma_records_count(buf, next, (count - 1) as nat, rdata_as_name);
    }
}

/// Decodes one whole message.  Fails with `TruncatedBuffer` on fewer than
/// 12 bytes, and otherwise with the failing section's own error; on
/// success every declared count is honoured by the matching list, so a
/// message whose counts overrun the buffer is rejected rather than
/// returned short.
pub fn query_parser(buf: &[u8]) -> (r: Result<DnsQuery, MessageError>)
    ensures
        ({
            let s = spec_decode_message(buf@);
            match r {
                Ok(m) => s is Ok && message_matches(m, s->Ok_0),
                Err(e) => s == Err::<SpecMessage, MessageError>(e),
            }
        }),
        r is Ok ==> r->Ok_0.questions@.len() == r->Ok_0.question_count,
        r is Ok ==> r->Ok_0.answer_rd_lengths@.len() == r->Ok_0.answer_count,
        r is Ok ==> r->Ok_0.ns_records@.len() == r->Ok_0.ns_count,
{
    if buf.len() < 12 {
        return Err(MessageError { section: Section::Header, kind: DnsError::TruncatedBuffer });
    }
    let query_id = read_u16(buf, 0);
    let flags = read_u16(buf, 2);
    let question_count = read_u16(buf, 4);
    let answer_count = read_u16(buf, 6);
    let ns_count = read_u16(buf, 8);
    let ar_count = read_u16(buf, 10);
    let questions_off = match decode_questions(buf, 12, question_count) {
        Ok(p) => p,
        Err(e) => {
            return Err(MessageError { section: Section::Questions, kind: e });
        },
    };
    let questions = questions_off.0;
    let answers_off = match decode_records(buf, questions_off.1, answer_count, false) {
        Ok(p) => p,
        Err(e) => {
            return Err(MessageError { section: Section::Answers, kind: e });
        },
    };
    let answers = answers_off.0;
    let ns_off = match decode_records(buf, answers_off.1, ns_count, true) {
        Ok(p) => p,
        Err(e) => {
            return Err(MessageError { section: Section::Authority, kind: e });
        },
    };
    let ns_records = ns_off.0;
    let ghost sanswers = spec_records_at(
        buf@,
        questions_off.1 as nat,
        answer_count as nat,
        false,
    )->Ok_0.0;
    let mut answer_rd_lengths: Vec<u16> = Vec::new();
    let mut a: usize = 0;
    while a < answers.len()
        invariant
            a <= answers@.len(),
            records_match(answers@, sanswers),
            answer_rd_lengths@.len() == a,
            forall|i: int| 0 <= i < a ==> answer_rd_lengths@[i] == sanswers[i].rd_length,
        decreases answers@.len() - a,
    {
        let rd = answers[a].rd_length;
        proof {
            assert(crate::record::record_matches(answers@[a as int], sanswers[a as int]));
        }
        answer_rd_lengths.push(rd as u16);
        a = a + 1;
    }
    proof {
        assert(answer_rd_lengths@ =~= sanswers.map_values(|r: SpecRecord| r.rd_length));
        lemma_questions_count(buf@, 12, question_count as nat);
        lemma_records_count(buf@, questions_off.1 as nat, answer_count as nat, false);
        lemma_records_count(buf@, answers_off.1 as nat, ns_count as nat, true);
    }
    Ok(
        DnsQuery {
            query_id,
            flags,
            question_count,
            answer_count,
            ns_count,
            ar_count,
            questions,
            answer_rd_lengths,
            ns_records,
        },
    )
}

} // verus!
