//! The resource-record codec: an owning name, four fixed fields (type,
//! class, TTL, RDATA length) and the RDATA, which is either skipped as an
//! opaque blob or, for NS records, decoded as a further domain name that
//! may itself use compression.

use crate::bytes::{be16, be32, read_u16, read_u32};
use crate::errors::DnsError;
use crate::name::{ascii_bytes, chars_of, lossy_chars, read_domain_name, spec_name_at};
use vstd::prelude::*;

verus! {

/// One decoded resource record.  For an NS record `ns_name` holds the
/// domain name decoded out of RDATA; for an opaque record the RDATA is
/// skipped, `ns_name` is empty and only `rd_length` is retained.
#[derive(Debug, Clone, PartialEq, Eq)]
pub struct NsRecord {
    /// The 16-bit record type.
    pub rr_type: u16,
    /// The 16-bit record class.
    pub rr_class: u16,
    /// The 32-bit time to live, in seconds.
    pub ttl: u32,
    /// The domain name held by the RDATA of an NS record, else empty.
    pub ns_name: String,
    /// The declared RDATA length in bytes.
    pub rd_length: usize,
}

/// The mathematical content of one record, with the RDATA name as its
/// dot-joined bytes.
pub ghost struct SpecRecord {
    pub rtype: u16,
    pub rclass: u16,
    pub ttl: u32,
    pub ns_name: Seq<u8>,
    pub rd_length: u16,
}

/// What decoding one record at `off` yields: the record and the offset
/// just after it.  The owning name is decoded and then discarded.  With
/// `rdata_as_name` the RDATA is decoded as a domain name and the next
/// offset is wherever that name ends in the stream, which compression can
/// make different from the declared RDATA length; without it, exactly
/// `rd_length` bytes are skipped.
pub open spec fn spec_record_at(buf: Seq<u8>, off: nat, rdata_as_name: bool) -> Result<
    (SpecRecord, nat),
    DnsError,
> {
    match spec_name_at(buf, off) {
        Err(e) => Err(e),
        Ok((_owner, end)) => {
            if end + 10 > buf.len() {
                Err(DnsError::OutOfBounds)
            } else {
                let rtype = be16(buf, end as int);
                let rclass = be16(buf, end as int + 2);
                let ttl = be32(buf, end as int + 4);
                let rd_length = be16(buf, end as int + 8);
                if rdata_as_name {
                    match spec_name_at(buf, end + 10) {
                        Err(e) => Err(e),
                        Ok((ns_name, nend)) => Ok(
                            (SpecRecord { rtype, rclass, ttl, ns_name, rd_length }, nend),
                        ),
                    }
                } else {
                    if end + 10 + rd_length > buf.len() {
                        Err(DnsError::OutOfBounds)
                    } else {
                        Ok(
                            (
                                SpecRecord {
                                    rtype,
                                    rclass,
                                    ttl,
                                    ns_name: Seq::empty(),
                                    rd_length,
                                },
                                end + 10 + (rd_length as nat),
                            ),
                        )
                    }
                }
            }
        },
    }
}

/// What decoding `count` records starting at `off` yields.
pub open spec fn spec_records_at(buf: Seq<u8>, off: nat, count: nat, rdata_as_name: bool) -> Result<
    (Seq<SpecRecord>, nat),
    DnsError,
>
    decreases count,
{
    if count == 0 {
        Ok((Seq::empty(), off))
    } else {
        match spec_record_at(buf, off, rdata_as_name) {
            Err(e) => Err(e),
            Ok((rec, next)) => match spec_records_at(buf, next, (count - 1) as nat, rdata_as_name) {
                Err(e) => Err(e),
                Ok((rest, fin)) => Ok((seq![rec] + rest, fin)),
            },
        }
    }
}

/// The decoded record holds the string its RDATA name bytes display as,
/// and the fixed fields.
pub open spec fn record_matches(r: NsRecord, s: SpecRecord) -> bool {
    &&& r.rr_type == s.rtype
    &&& r.rr_class == s.rclass
    &&& r.ttl == s.ttl
    &&& r.ns_name@ == lossy_chars(s.ns_name)
    &&& (ascii_bytes(s.ns_name) ==> r.ns_name@ == chars_of(s.ns_name))
    &&& r.rd_length == s.rd_length as usize
}

/// Pointwise correspondence of a decoded record list with its model.
pub open spec fn records_match(rs: Seq<NsRecord>, ss: Seq<SpecRecord>) -> bool {
    &&& rs.len() == ss.len()
    &&& forall|i: int| 0 <= i < rs.len() ==> record_matches(#[trigger] rs[i], ss[i])
}

/// Decodes one resource record at `off`: the owning name, the four fixed
/// fields, then the RDATA.  With `rdata_as_name` the RDATA is decoded as
/// a compression-aware domain name and the returned offset is where that
/// name ends; otherwise exactly `rd_length` bytes are skipped and nothing
/// of the RDATA content is kept.  Fails with `OutOfBounds` when a fixed
/// field or the skip range leaves the buffer, or with the name decoder's
/// error.
pub fn decode_record(buf: &[u8], off: usize, rdata_as_name: bool) -> (r: Result<
    (NsRecord, usize),
    DnsError,
>)
    ensures
        ({
            let s = spec_record_at(buf@, off as nat, rdata_as_name);
            match r {
                Ok((rec, next)) => {
                    &&& s is Ok
                    &&& record_matches(rec, s->Ok_0.0)
                    &&& next as nat == s->Ok_0.1
                    &&& next <= buf@.len()
                },
                Err(e) => s == Err::<(SpecRecord, nat), DnsError>(e),
            }
        }),
{
    let owner_end = match read_domain_name(buf, off) {
        Ok(p) => p,
        Err(e) => {
            return Err(e);
        },
    };
    let end = owner_end.1;
    if buf.len() - end < 10 {
        return Err(DnsError::OutOfBounds);
    }
    let rr_type = read_u16(buf, end);
    let rr_class = read_u16(buf, end + 2);
    let ttl = read_u32(buf, end + 4);
    let rd_len = read_u16(buf, end + 8);
    if rdata_as_name {
        let ns_end = match read_domain_name(buf, end + 10) {
            Ok(p) => p,
            Err(e) => {
                return Err(e);
            },
        };
        let rec = NsRecord {
            rr_type,
            rr_class,
            ttl,
            ns_name: ns_end.0,
            rd_length: rd_len as usize,
        };
        Ok((rec, ns_end.1))
    } else {
        let rd_skip = rd_len as usize;
        if buf.len() - (end + 10) < rd_skip {
            return Err(DnsError::OutOfBounds);
        }
        let empty_bytes: Vec<u8> = Vec::new();
        let ns_name = crate::name::bytes_to_string(&empty_bytes);
        proof {
            assert(ascii_bytes(empty_bytes@));
            assert(chars_of(empty_bytes@) =~= Seq::<char>::empty());
        }
        let rec = NsRecord { rr_type, rr_class, ttl, ns_name, rd_length: rd_skip };
        Ok((rec, end + 10 + rd_skip))
    }
}

/// Decodes `count` records starting at `start`, threading the offset.
pub fn decode_records(buf: &[u8], start: usize, count: u16, rdata_as_name: bool) -> (r: Result<
    (Vec<NsRecord>, usize),
    DnsError,
>)
    ensures
        ({
            let s = spec_records_at(buf@, start as nat, count as nat, rdata_as_name);
            match r {
                Ok((rs, end)) => {
                    &&& s is Ok
                    &&& records_match(rs@, s->Ok_0.0)
                    &&& end as nat == s->Ok_0.1
                },
                Err(e) => s == Err::<(Seq<SpecRecord>, nat), DnsError>(e),
            }
        }),
{
    let mut rs: Vec<NsRecord> = Vec::new();
    let ghost mut ss: Seq<SpecRecord> = Seq::empty();
    let mut off: usize = start;
    let mut k: u16 = 0;
    while k < count
        invariant
            k <= count,
            records_match(rs@, ss),
            spec_records_at(buf@, start as nat, count as nat, rdata_as_name) == (
            match spec_records_at(buf@, off as nat, (count - k) as nat, rdata_as_name) {
                Ok((rest, fin)) => Ok::<(Seq<SpecRecord>, nat), DnsError>((ss + rest, fin)),
                Err(e) => Err::<(Seq<SpecRecord>, nat), DnsError>(e),
            }),
        decreases count - k,
    {
        let rec_next = match decode_record(buf, off, rdata_as_name) {
            Ok(p) => p,
            Err(e) => {
                return Err(e);
            },
        };
        let ghost srec = spec_record_at(buf@, off as nat, rdata_as_name)->Ok_0.0;
        let next = rec_next.1;
        rs.push(rec_next.0);
        proof {
            let rest_res = spec_records_at(buf@, next as nat, (count - k - 1) as nat, rdata_as_name);
            match rest_res {
                Ok((rest2, fin2)) => {
                    assert(ss + (seq![srec] + rest2) =~= ss.push(srec) + rest2);
                },
                Err(_) => {},
            }
            ss = ss.push(srec);
        }
        off = next;
        k = k + 1;
    }
    Ok((rs, off))
}

} // verus!
