//! The question codec: one or more question entries, each a domain name
//! followed by a 16-bit query type and a 16-bit query class.

use crate::bytes::{be16, be16_bytes, read_u16, write_u16};
use crate::errors::DnsError;
use crate::name::{
    ascii_bytes, chars_of, encode_name, lossy_chars, read_domain_name, spec_encode_name,
    spec_name_at,
};
use vstd::prelude::*;
use vstd::string::StringSliceAdditionalSpecFns;

verus! {

/// One decoded question entry.
#[derive(Debug, Clone, PartialEq, Eq)]
pub struct Question {
    /// The decoded domain name, dot-joined, compression resolved.
    pub domain_name: String,
    /// The 16-bit query type.
    pub qtype: u16,
    /// The 16-bit query class.
    pub qclass: u16,
}

/// The mathematical content of one question: the name as its dot-joined
/// bytes, and the two fixed fields.
pub ghost struct SpecQuestion {
    pub name: Seq<u8>,
    pub qtype: u16,
    pub qclass: u16,
}

/// What decoding `count` questions starting at `off` yields: the entries
/// and the offset just after the last one.
pub open spec fn spec_questions_at(buf: Seq<u8>, off: nat, count: nat) -> Result<
    (Seq<SpecQuestion>, nat),
    DnsError,
>
    decreases count,
{
    if count == 0 {
        Ok((Seq::empty(), off))
    } else {
        match spec_name_at(buf, off) {
            Err(e) => Err(e),
            Ok((name, end)) => {
                if end + 4 > buf.len() {
                    Err(DnsError::OutOfBounds)
                } else {
                    let q = SpecQuestion {
                        name,
                        qtype: be16(buf, end as int),
                        qclass: be16(buf, end as int + 2),
                    };
                    match spec_questions_at(buf, end + 4, (count - 1) as nat) {
                        Err(e) => Err(e),
                        Ok((rest, fin)) => Ok((seq![q] + rest, fin)),
                    }
                }
            },
        }
    }
}

/// The decoded question holds the string the name bytes display as, and
/// the two fixed fields.
pub open spec fn question_matches(q: Question, s: SpecQuestion) -> bool {
    &&& q.domain_name@ == lossy_chars(s.name)
    &&& (ascii_bytes(s.name) ==> q.domain_name@ == chars_of(s.name))
    &&& q.qtype == s.qtype
    &&& q.qclass == s.qclass
}

/// Pointwise correspondence of a decoded question list with its model.
pub open spec fn questions_match(qs: Seq<Question>, ss: Seq<SpecQuestion>) -> bool {
    &&& qs.len() == ss.len()
    &&& forall|i: int| 0 <= i < qs.len() ==> question_matches(#[trigger] qs[i], ss[i])
}

/// Decodes `count` questions starting at `start`: each one a name followed
/// by its query type and class.  On success the offset just after the last
/// question is returned for the next section.  Fails with the name
/// decoder's error, or with `OutOfBounds` when the four fixed bytes of an
/// entry are not all inside the buffer.
pub fn decode_questions(buf: &[u8], start: usize, count: u16) -> (r: Result<
    (Vec<Question>, usize),
    DnsError,
>)
    ensures
        ({
            let s = spec_questions_at(buf@, start as nat, count as nat);
            match r {
                Ok((qs, end)) => {
                    &&& s is Ok
                    &&& questions_match(qs@, s->Ok_0.0)
                    &&& end as nat == s->Ok_0.1
                },
                Err(e) => s == Err::<(Seq<SpecQuestion>, nat), DnsError>(e),
            }
        }),
{
    let mut qs: Vec<Question> = Vec::new();
    let ghost mut ss: Seq<SpecQuestion> = Seq::empty();
    let mut off: usize = start;
    let mut k: u16 = 0;
    while k < count
        invariant
            k <= count,
            questions_match(qs@, ss),
            spec_questions_at(buf@, start as nat, count as nat) == (match spec_questions_at(
                buf@,
                off as nat,
                (count - k) as nat,
            ) {
                Ok((rest, fin)) => Ok::<(Seq<SpecQuestion>, nat), DnsError>((ss + rest, fin)),
                Err(e) => Err::<(Seq<SpecQuestion>, nat), DnsError>(e),
            }),
        decreases count - k,
    {
        let name_end = match read_domain_name(buf, off) {
            Ok(p) => p,
            Err(e) => {
                return Err(e);
            },
        };
        let name = name_end.0;
        let end = name_end.1;
        if buf.len() - end < 4 {
            return Err(DnsError::OutOfBounds);
        }
        let qtype = read_u16(buf, end);
        let qclass = read_u16(buf, end + 2);
        let ghost sq = SpecQuestion {
            name: spec_name_at(buf@, off as nat)->Ok_0.0,
            qtype,
            qclass,
        };
        qs.push(Question { domain_name: name, qtype, qclass });
        proof {
            let rest_res = spec_questions_at(buf@, end as nat + 4, (count - k - 1) as nat);
            match rest_res {
                Ok((rest2, fin2)) => {
                    assert(ss + (seq![sq] + rest2) =~= ss.push(sq) + rest2);
                },
                Err(_) => {},
            }
            ss = ss.push(sq);
        }
        off = end + 4;
        k = k + 1;
    }
    Ok((qs, off))
}

/// The wire form of one question: the encoded name, then the query type
/// and class, big-endian.
pub open spec fn spec_encode_question(name: Seq<u8>, qtype: u16, qclass: u16) -> Result<
    Seq<u8>,
    DnsError,
> {
    match spec_encode_name(name) {
        Ok(n) => Ok(n + be16_bytes(qtype) + be16_bytes(qclass)),
        Err(e) => Err(e),
    }
}

/// Encodes one question: the name in label-length-prefixed form, then the
/// query type and class.  Fails with `LabelTooLong` exactly when the name
/// encoder does.
pub fn encode_question(name: &str, qtype: u16, qclass: u16) -> (r: Result<Vec<u8>, DnsError>)
    ensures
        ({
            let s = spec_encode_question(name.spec_bytes(), qtype, qclass);
            match r {
                Ok(v) => s is Ok && v@ == s->Ok_0,
                Err(e) => s == Err::<Seq<u8>, DnsError>(e),
            }
        }),
{
    let mut out = match encode_name(name) {
        Ok(v) => v,
        Err(e) => {
            return Err(e);
        },
    };
    write_u16(&mut out, qtype);
    write_u16(&mut out, qclass);
    Ok(out)
}

} // verus!
