//! The outbound query builder: a fixed header asking one question, with
//! recursion desired, for the NS records of a domain.

use crate::errors::DnsError;
use crate::header::{encode_header, spec_encode_header};
use crate::question::{encode_question, spec_encode_question};
use vstd::prelude::*;
use vstd::string::StringSliceAdditionalSpecFns;

verus! {

/// The query's flags word: a standard query with the recursion-desired
/// bit set.
pub const QUERY_FLAGS: u16 = 0x0100;

/// The query type of an NS question.
pub const QTYPE_NS: u16 = 2;

/// The query class of an Internet question.
pub const QCLASS_IN: u16 = 1;

/// The wire bytes of a one-question NS query for `name_bytes` under
/// transaction id `id`.
pub open spec fn spec_build_query(name_bytes: Seq<u8>, id: u16) -> Result<Seq<u8>, DnsError> {
    match spec_encode_question(name_bytes, QTYPE_NS, QCLASS_IN) {
        Ok(q) => Ok(spec_encode_header(id, QUERY_FLAGS, 1, 0, 0, 0) + q),
        Err(e) => Err(e),
    }
}

/// Builds a query for the NS records of `domain`, class IN: a header with
/// the caller's transaction id, the recursion-desired flag and one
/// question, followed by that question.  The transaction id is an explicit
/// parameter so that every query can carry a fresh, unpredictable id.
/// Fails with `LabelTooLong` exactly when the name encoder does.
pub fn build_dns_query(domain: &str, id: u16) -> (r: Result<Vec<u8>, DnsError>)
    ensures
        ({
            let s = spec_build_query(domain.spec_bytes(), id);
            match r {
                Ok(v) => s is Ok && v@ == s->Ok_0,
                Err(e) => s == Err::<Seq<u8>, DnsError>(e),
            }
        }),
{
    let question = match encode_question(domain, QTYPE_NS, QCLASS_IN) {
        Ok(q) => q,
        Err(e) => {
            return Err(e);
        },
    };
    let mut out = encode_header(id, QUERY_FLAGS, 1, 0, 0, 0);
    out.extend_from_slice(question.as_slice());
    Ok(out)
}

} // verus!
