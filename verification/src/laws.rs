//! The codec's cross-function laws, stated over the spec-level models and
//! proved once and for all: encoded names decode back to themselves,
//! encoded headers parse back to their fields, pointer cycles are always
//! reported, and decoding is a function of the buffer alone.

use crate::bytes::be16;
use crate::errors::DnsError;
use crate::header::{spec_encode_header, spec_header};
use crate::message::{message_matches, DnsQuery, SpecMessage};
use crate::name::{
    first_label_len, join_labels, labels_from, name_end_from, pointer_target, spec_encode_labels,
    spec_encode_name, spec_name_at, valid_labels,
};
use crate::question::{question_matches, Question};
use crate::record::{record_matches, NsRecord};
use vstd::prelude::*;

verus! {

/// The first label is the run of bytes before the first dot: none of its
/// bytes is a dot, and a dot follows it unless it runs to the end.
proof fn lemma_first_label_char(bytes: Seq<u8>)
    ensures
        first_label_len(bytes) <= bytes.len(),
        forall|k: int| 0 <= k < first_label_len(bytes) ==> bytes[k] != 46,
        first_label_len(bytes) < bytes.len() ==> bytes[first_label_len(bytes) as int] == 46,
    decreases bytes.len(),
{
    if bytes.len() > 0 && bytes[0] != 46 {
        let rest = bytes.drop_first();
        lemma_first_label_char(rest);
        assert forall|k: int| 0 <= k < first_label_len(bytes) implies bytes[k] != 46 by {
            if k > 0 {
                assert(rest[k - 1] == bytes[k]);
            }
        }
        if first_label_len(bytes) < bytes.len() {
            assert(rest[first_label_len(rest) as int] == bytes[first_label_len(bytes) as int]);
        }
    }
}

/// A name whose segments all have 1 to 63 bytes encodes successfully.
pub proof fn lemma_valid_encodes(bytes: Seq<u8>)
    requires
        valid_labels(bytes),
    ensures
        spec_encode_labels(bytes) is Ok,
        spec_encode_name(bytes) is Ok,
    decreases bytes.len(),
{
    let l = first_label_len(bytes);
    if l < bytes.len() {
        lemma_valid_encodes(bytes.skip(l as int + 1));
    }
}

/// Decoding an encoded name embedded in a buffer and followed by a zero
/// terminator recovers the original dotted bytes, for any hop budget, and
/// ends just after the terminator.
proof fn lemma_decode_encoded_labels(buf: Seq<u8>, off: nat, bytes: Seq<u8>, fuel: nat)
    requires
        valid_labels(bytes),
        spec_encode_labels(bytes) is Ok,
        off + spec_encode_labels(bytes)->Ok_0.len() < buf.len(),
        buf.subrange(off as int, (off + spec_encode_labels(bytes)->Ok_0.len()) as int)
            == spec_encode_labels(bytes)->Ok_0,
        buf[(off + spec_encode_labels(bytes)->Ok_0.len()) as int] == 0,
    ensures
        labels_from(buf, off, fuel) is Ok,
        join_labels(labels_from(buf, off, fuel)->Ok_0) == bytes,
        name_end_from(buf, off) == Ok::<nat, DnsError>(
            off + spec_encode_labels(bytes)->Ok_0.len() + 1,
        ),
    decreases bytes.len(),
{
    let enc = spec_encode_labels(bytes)->Ok_0;
    let l = first_label_len(bytes);
    lemma_first_label_char(bytes);
    let len_byte = buf[off as int];
    assert(len_byte == enc[0]);
    assert(enc[0] == l as u8);
    let lb: u8 = l as u8;
    assert(lb & 0xC0 != 0xC0) by (bit_vector)
        requires
            lb <= 63,
    ;
    if l >= bytes.len() {
        // the name is a single label: enc is the length byte and the bytes
        assert(l == bytes.len());
        assert(enc =~= seq![l as u8] + bytes);
        assert forall|k: int| 0 <= k < bytes.len() implies buf[off + 1 + k] == bytes[k] by {
            assert(enc[1 + k] == bytes[k]);
            assert(buf[off + 1 + k] == enc[1 + k]);
        }
        assert(buf.subrange(off as int + 1, off as int + 1 + l) =~= bytes);
        assert(buf[(off + 1 + l) as int] == 0);
        assert(labels_from(buf, off + 1 + l, fuel) == Ok::<Seq<Seq<u8>>, DnsError>(Seq::empty()));
        let ls = labels_from(buf, off, fuel)->Ok_0;
        assert(ls =~= seq![bytes] + Seq::<Seq<u8>>::empty());
        assert(ls.len() == 1 && ls[0] == bytes);
        assert(name_end_from(buf, off + 1 + l) == Ok::<nat, DnsError>(off + 1 + l + 1));
    } else {
        // a dot follows the first label: the rest encodes behind it
        let tail = bytes.skip(l as int + 1);
        let rest = spec_encode_labels(tail)->Ok_0;
        assert(enc =~= seq![l as u8] + bytes.take(l as int) + rest);
        assert forall|k: int| 0 <= k < l implies buf[off + 1 + k] == bytes[k] by {
            assert(enc[1 + k] == bytes.take(l as int)[k]);
            assert(buf[off + 1 + k] == enc[1 + k]);
        }
        assert(buf.subrange(off as int + 1, off as int + 1 + l) =~= bytes.take(l as int));
        let off2: nat = off + 1 + l;
        assert forall|k: int| 0 <= k < rest.len() implies buf[off2 + k] == rest[k] by {
            assert(enc[1 + l + k] == rest[k]);
            assert(buf[off + (1 + l + k)] == enc[1 + l + k]);
        }
        assert(buf.subrange(off2 as int, (off2 + rest.len()) as int) =~= rest);
        assert(off2 + rest.len() == off + enc.len());
        crate::name::lemma_first_label_len_le(tail);
        lemma_decode_encoded_labels(buf, off2, tail, fuel);
        let ls2 = labels_from(buf, off2, fuel)->Ok_0;
        let ls = labels_from(buf, off, fuel)->Ok_0;
        assert(ls =~= seq![bytes.take(l as int)] + ls2);
        // the tail is nonempty, so its label list cannot be empty either
        assert(valid_labels(tail));
        assert(first_label_len(tail) >= 1);
        assert(tail.len() >= 1);
        if ls2.len() == 0 {
            assert(join_labels(ls2).len() == 0);
            assert(false);
        }
        assert(ls[0] == bytes.take(l as int));
        assert(ls.drop_first() =~= ls2);
        assert(join_labels(ls) == bytes.take(l as int) + seq![46u8] + join_labels(ls2));
        assert(bytes[l as int] == 46);
        assert(bytes.take(l as int) + seq![46u8] + tail =~= bytes);
    }
}

/// Round trip: a domain name whose dot-separated segments each hold 1 to
/// 63 bytes encodes to wire form and decodes back to exactly the same
/// dotted bytes, with the decoder's next offset at the encoding's length.
pub proof fn lemma_name_round_trip(name: Seq<u8>)
    requires
        valid_labels(name),
    ensures
        spec_encode_name(name) is Ok,
        spec_name_at(spec_encode_name(name)->Ok_0, 0) == Ok::<(Seq<u8>, nat), DnsError>(
            (name, spec_encode_name(name)->Ok_0.len()),
        ),
{
    lemma_valid_encodes(name);
    let labels = spec_encode_labels(name)->Ok_0;
    let buf = spec_encode_name(name)->Ok_0;
    assert(buf =~= labels + seq![0u8]);
    assert(buf.subrange(0, labels.len() as int) =~= labels);
    assert(buf[labels.len() as int] == 0);
    lemma_decode_encoded_labels(buf, 0, name, buf.len());
}

/// Header round trip: parsing an encoded header gives back the id, flags
/// and first two counts, and the other two counts sit unchanged in their
/// big-endian fields.
pub proof fn lemma_header_round_trip(id: u16, flags: u16, qd: u16, an: u16, ns: u16, ar: u16)
    ensures
        spec_header(spec_encode_header(id, flags, qd, an, ns, ar)) == Ok::<
            (u16, u16, u16, u16),
            DnsError,
        >((id, flags, qd, an)),
        be16(spec_encode_header(id, flags, qd, an, ns, ar), 8) == ns,
        be16(spec_encode_header(id, flags, qd, an, ns, ar), 10) == ar,
{
    crate::header::lemma_header_fields(id, flags, qd, an, ns, ar);
}

/// A set of offsets that point only at each other can never reach a zero
/// terminator, so any hop budget runs out: name decoding from any of them
/// reports a compression loop.
pub proof fn lemma_pointer_cycle_loops(buf: Seq<u8>, offs: Set<nat>, start: nat, fuel: nat)
    requires
        offs.contains(start),
        forall|o: nat| #[trigger]
            offs.contains(o) ==> o + 1 < buf.len() && buf[o as int] & 0xC0 == 0xC0
                && offs.contains(pointer_target(buf[o as int], buf[o as int + 1])),
    ensures
        labels_from(buf, start, fuel) == Err::<Seq<Seq<u8>>, DnsError>(DnsError::CompressionLoop),
    decreases fuel,
{
    let len_byte = buf[start as int];
    assert(len_byte != 0) by (bit_vector)
        requires
            len_byte & 0xC0 == 0xC0,
    ;
    if fuel > 0 {
        lemma_pointer_cycle_loops(
            buf,
            offs,
            pointer_target(buf[start as int], buf[start as int + 1]),
            (fuel - 1) as nat,
        );
    }
}

/// A pointer that names its own offset is the smallest cycle: decoding at
/// it fails with `CompressionLoop`.
pub proof fn lemma_self_pointer_loops(buf: Seq<u8>, x: nat)
    requires
        x + 1 < buf.len(),
        buf[x as int] & 0xC0 == 0xC0,
        pointer_target(buf[x as int], buf[x as int + 1]) == x,
    ensures
        spec_name_at(buf, x) == Err::<(Seq<u8>, nat), DnsError>(DnsError::CompressionLoop),
{
    let offs = set![x];
    lemma_pointer_cycle_loops(buf, offs, x, buf.len());
}

/// The structurally observable content of a decoded question.
pub open spec fn abs_question(q: Question) -> (Seq<char>, u16, u16) {
    (q.domain_name@, q.qtype, q.qclass)
}

/// The structurally observable content of a decoded record.
pub open spec fn abs_record(r: NsRecord) -> (u16, u16, u32, Seq<char>, nat) {
    (r.rr_type, r.rr_class, r.ttl, r.ns_name@, r.rd_length as nat)
}

/// Idempotence: two messages decoded from the same model — hence from the
/// same buffer — are structurally equal, field by field and entry by
/// entry.
pub proof fn lemma_decode_deterministic(m1: DnsQuery, m2: DnsQuery, s: SpecMessage)
    requires
        message_matches(m1, s),
        message_matches(m2, s),
    ensures
        m1.query_id == m2.query_id,
        m1.flags == m2.flags,
        m1.question_count == m2.question_count,
        m1.answer_count == m2.answer_count,
        m1.ns_count == m2.ns_count,
        m1.ar_count == m2.ar_count,
        m1.questions@.len() == m2.questions@.len(),
        forall|i: int|
            0 <= i < m1.questions@.len() ==> abs_question(#[trigger] m1.questions@[i])
                == abs_question(m2.questions@[i]),
        m1.answer_rd_lengths@ == m2.answer_rd_lengths@,
        m1.ns_records@.len() == m2.ns_records@.len(),
        forall|i: int|
            0 <= i < m1.ns_records@.len() ==> abs_record(#[trigger] m1.ns_records@[i]) == abs_record(
                m2.ns_records@[i],
            ),
{
    assert forall|i: int| 0 <= i < m1.questions@.len() implies abs_question(
        #[trigger] m1.questions@[i],
    ) == abs_question(m2.questions@[i]) by {
        assert(question_matches(m1.questions@[i], s.questions[i]));
        assert(question_matches(m2.questions@[i], s.questions[i]));
    }
    assert forall|i: int| 0 <= i < m1.ns_records@.len() implies abs_record(
        #[trigger] m1.ns_records@[i],
    ) == abs_record(m2.ns_records@[i]) by {
        assert(record_matches(m1.ns_records@[i], s.ns_records[i]));
        assert(record_matches(m2.ns_records@[i], s.ns_records[i]));
    }
}

} // verus!
