//! The fixed 12-byte message header: transaction id, flags and the four
//! section counts, all big-endian 16-bit fields at offsets 0, 2, 4, 6, 8
//! and 10.

use crate::bytes::{be16, be16_bytes, read_u16, write_u16};
use crate::errors::DnsError;
use vstd::prelude::*;

verus! {

/// What parsing the header of `buf` yields: the transaction id, the raw
/// flags word, the question count and the answer count, or
/// `TruncatedBuffer` when fewer than 12 bytes are there.
pub open spec fn spec_header(buf: Seq<u8>) -> Result<(u16, u16, u16, u16), DnsError> {
    if buf.len() < 12 {
        Err(DnsError::TruncatedBuffer)
    } else {
        Ok((be16(buf, 0), be16(buf, 2), be16(buf, 4), be16(buf, 6)))
    }
}

/// The 12 header bytes for the given field values, in wire order.
pub open spec fn spec_encode_header(
    id: u16,
    flags: u16,
    qdcount: u16,
    ancount: u16,
    nscount: u16,
    arcount: u16,
) -> Seq<u8> {
    be16_bytes(id) + be16_bytes(flags) + be16_bytes(qdcount) + be16_bytes(ancount) + be16_bytes(
        nscount,
    ) + be16_bytes(arcount)
}

/// Parses the first 12 bytes of a message into transaction id, flags,
/// question count and answer count.  Fails with `TruncatedBuffer` when the
/// buffer holds fewer than 12 bytes.
pub fn dns_header_parser(buf: &[u8]) -> (r: Result<(u16, u16, u16, u16), DnsError>)
    ensures
        r == spec_header(buf@),
{
    if buf.len() < 12 {
        return Err(DnsError::TruncatedBuffer);
    }
    let query_id = read_u16(buf, 0);
    let flags = read_u16(buf, 2);
    let question_count = read_u16(buf, 4);
    let answer_count = read_u16(buf, 6);
    Ok((query_id, flags, question_count, answer_count))
}

/// Builds the 12-byte header for the given field values.  Always succeeds;
/// the six fields are written big-endian in wire order.
pub fn encode_header(id: u16, flags: u16, qdcount: u16, ancount: u16, nscount: u16, arcount: u16)
    -> (r: Vec<u8>)
    ensures
        r@ == spec_encode_header(id, flags, qdcount, ancount, nscount, arcount),
        r@.len() == 12,
{
    let mut out: Vec<u8> = Vec::new();
    write_u16(&mut out, id);
    write_u16(&mut out, flags);
    write_u16(&mut out, qdcount);
    write_u16(&mut out, ancount);
    write_u16(&mut out, nscount);
    write_u16(&mut out, arcount);
    out
}

/// Each 16-bit field read back from an encoded header is the field that
/// was written.
pub proof fn lemma_header_fields(id: u16, flags: u16, qd: u16, an: u16, ns: u16, ar: u16)
    ensures
        ({
            let h = spec_encode_header(id, flags, qd, an, ns, ar);
            &&& h.len() == 12
            &&& be16(h, 0) == id
            &&& be16(h, 2) == flags
            &&& be16(h, 4) == qd
            &&& be16(h, 6) == an
            &&& be16(h, 8) == ns
            &&& be16(h, 10) == ar
        }),
{
    let h = spec_encode_header(id, flags, qd, an, ns, ar);
    assert(h[0] == (id / 256) as u8 && h[1] == (id % 256) as u8);
    assert(h[2] == (flags / 256) as u8 && h[3] == (flags % 256) as u8);
    assert(h[4] == (qd / 256) as u8 && h[5] == (qd % 256) as u8);
    assert(h[6] == (an / 256) as u8 && h[7] == (an % 256) as u8);
    assert(h[8] == (ns / 256) as u8 && h[9] == (ns % 256) as u8);
    assert(h[10] == (ar / 256) as u8 && h[11] == (ar % 256) as u8);
}

} // verus!
