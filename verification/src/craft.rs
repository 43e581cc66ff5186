//! The response crafter: given a received query, build a reply that echoes
//! the query's question section and appends one fixed A-record answer
//! through a compression pointer back to the question's name.
//!
//! The question is scanned by a plain walk to its zero terminator, not by
//! the compression-aware name decoder: the input is a query, and a query's
//! question name is never compressed.  The declared question count is
//! copied into the reply untouched, but only the bytes up to the first
//! terminator and its four fixed bytes are echoed, whatever the count
//! declares.

use crate::bytes::{be16, write_u16, write_u32};
use crate::errors::DnsError;
use crate::header::{dns_header_parser, encode_header, spec_encode_header};
use vstd::prelude::*;

verus! {

/// The offset of the first zero byte at or after `i`, or
/// `MalformedQuestion` when none is left.
pub open spec fn find_zero_from(buf: Seq<u8>, i: nat) -> Result<nat, DnsError>
    decreases buf.len() - i,
{
    if i >= buf.len() {
        Err(DnsError::MalformedQuestion)
    } else if buf[i as int] == 0 {
        Ok(i)
    } else {
        find_zero_from(buf, i + 1)
    }
}

/// The fixed answer appended to every crafted reply: a compression pointer
/// to the question name at offset 12, TYPE A, CLASS IN, TTL zero, and four
/// RDATA bytes holding 127.0.0.1.
pub open spec fn answer_suffix() -> Seq<u8> {
    seq![
        0xC0u8,
        0x0Cu8,
        0u8,
        1u8,
        0u8,
        1u8,
        0u8,
        0u8,
        0u8,
        0u8,
        0u8,
        4u8,
        127u8,
        0u8,
        0u8,
        1u8,
    ]
}

/// The crafted reply for query bytes `q`: the query's id, its flags with
/// the response and recursion-available bits set, its question count, one
/// answer, the question bytes from offset 12 through the terminator and
/// four fixed bytes, then the fixed answer.
pub open spec fn spec_craft_response(q: Seq<u8>) -> Result<Seq<u8>, DnsError> {
    if q.len() < 12 {
        Err(DnsError::TruncatedBuffer)
    } else {
        match find_zero_from(q, 12) {
            Err(e) => Err(e),
            Ok(t) => {
                if t + 5 > q.len() {
                    Err(DnsError::MalformedQuestion)
                } else {
                    Ok(
                        spec_encode_header(
                            be16(q, 0),
                            0x8000u16 | be16(q, 2) | 0x0080u16,
                            be16(q, 4),
                            1,
                            0,
                            0,
                        ) + q.subrange(12, t as int + 5) + answer_suffix(),
                    )
                }
            },
        }
    }
}

/// Crafts a reply to the query in `query`.  Fails with `TruncatedBuffer`
/// when the query has no full header, and with `MalformedQuestion` when no
/// zero terminator follows offset 12 or fewer than four bytes follow the
/// terminator.
pub fn craft_dns_response(query: &[u8]) -> (r: Result<Vec<u8>, DnsError>)
    ensures
        ({
            let s = spec_craft_response(query@);
            match r {
                Ok(v) => s is Ok && v@ == s->Ok_0,
                Err(e) => s == Err::<Seq<u8>, DnsError>(e),
            }
        }),
{
    let header = match dns_header_parser(query) {
        Ok(h) => h,
        Err(e) => {
            return Err(e);
        },
    };
    let query_id = header.0;
    let flags = header.1;
    let question_count = header.2;
    let response_flags = 0x8000u16 | flags | 0x0080u16;
    let mut response = encode_header(query_id, response_flags, question_count, 1, 0, 0);
    let mut pos: usize = 12;
    while pos < query.len() && query[pos] != 0
        invariant
            12 <= pos <= query@.len(),
            find_zero_from(query@, 12) == find_zero_from(query@, pos as nat),
        decreases query@.len() - pos,
    {
        pos = pos + 1;
    }
    if pos >= query.len() {
        return Err(DnsError::MalformedQuestion);
    }
    let ghost t = pos as nat;
    pos = pos + 1;
    if query.len() - pos < 4 {
        return Err(DnsError::MalformedQuestion);
    }
    pos = pos + 4;
    let question_section = &query[12..pos];
    response.extend_from_slice(question_section);
    let ghost before_answer = response@;
    response.push(0xC0);
    response.push(0x0C);
    write_u16(&mut response, 1);
    write_u16(&mut response, 1);
    write_u32(&mut response, 0);
    write_u16(&mut response, 4);
    response.push(127);
    response.push(0);
    response.push(0);
    response.push(1);
    proof {
        assert(response@ =~= before_answer + answer_suffix());
    }
    Ok(response)
}

} // verus!
