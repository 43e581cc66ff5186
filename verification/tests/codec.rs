use dns_codec::craft::craft_dns_response;
use dns_codec::errors::{DnsError, MessageError, Section};
use dns_codec::header::{dns_header_parser, encode_header};
use dns_codec::message::query_parser;
use dns_codec::name::{encode_name, read_domain_name};
use dns_codec::query::build_dns_query;
use dns_codec::question::{decode_questions, encode_question};
use dns_codec::record::{decode_record, decode_records};

fn sample_name_buffer() -> Vec<u8> {
    // a 12-byte header, then `3 www 7 example 3 com 0` at offset 12
    let mut buf = vec![0u8; 12];
    buf.extend_from_slice(&[3, b'w', b'w', b'w', 7]);
    buf.extend_from_slice(b"example");
    buf.extend_from_slice(&[3, b'c', b'o', b'm', 0]);
    buf
}

#[test]
fn header_encode_exact_bytes() {
    let h = encode_header(0x1234, 0x0100, 1, 2, 3, 4);
    assert_eq!(
        h,
        vec![0x12, 0x34, 0x01, 0x00, 0x00, 0x01, 0x00, 0x02, 0x00, 0x03, 0x00, 0x04]
    );
}

#[test]
fn header_round_trip() {
    for &(id, flags, qd, an) in &[
        (0u16, 0u16, 0u16, 0u16),
        (0x1234, 0x8180, 1, 1),
        (0xFFFF, 0xFFFF, 0xFFFF, 0xFFFF),
        (0x00FF, 0xFF00, 7, 9),
    ] {
        let h = encode_header(id, flags, qd, an, 5, 6);
        assert_eq!(dns_header_parser(&h), Ok((id, flags, qd, an)));
    }
}

#[test]
fn header_too_short() {
    assert_eq!(dns_header_parser(&[0u8; 11]), Err(DnsError::TruncatedBuffer));
    assert_eq!(dns_header_parser(&[]), Err(DnsError::TruncatedBuffer));
}

#[test]
fn name_encode_exact_bytes() {
    let enc = encode_name("www.example.com").unwrap();
    let mut expected = vec![3, b'w', b'w', b'w', 7];
    expected.extend_from_slice(b"example");
    expected.extend_from_slice(&[3, b'c', b'o', b'm', 0]);
    assert_eq!(enc, expected);
}

#[test]
fn name_round_trip() {
    for name in ["www.example.com", "a", "google.com", "xn--n3h.example"] {
        let enc = encode_name(name).unwrap();
        let (decoded, next) = read_domain_name(&enc, 0).unwrap();
        assert_eq!(decoded, name);
        assert_eq!(next, enc.len());
    }
}

#[test]
fn name_label_too_long() {
    let long = "a".repeat(64);
    let domain = format!("www.{}.com", long);
    assert_eq!(encode_name(&domain), Err(DnsError::LabelTooLong));
    // 63 bytes is still fine
    let edge = "a".repeat(63);
    assert!(encode_name(&edge).is_ok());
}

#[test]
fn name_empty_segment_encodes_zero_label() {
    // a `..` asks for an empty segment, which encodes as a zero-length
    // label; decoding stops at that zero, so only the first segment is
    // recovered -- the dotted input was not a valid domain name
    let enc = encode_name("a..b").unwrap();
    assert_eq!(enc, vec![1, b'a', 0, 1, b'b', 0]);
    let (decoded, next) = read_domain_name(&enc, 0).unwrap();
    assert_eq!(decoded, "a");
    assert_eq!(next, 3);
}

#[test]
fn name_compression_pointer() {
    let mut buf = sample_name_buffer();
    let ptr_at = buf.len();
    buf.extend_from_slice(&[0xC0, 0x0C]);
    let (name, next) = read_domain_name(&buf, ptr_at).unwrap();
    assert_eq!(name, "www.example.com");
    assert_eq!(next, ptr_at + 2);
}

#[test]
fn name_compression_chain() {
    // a pointer to a pointer to the name still resolves
    let mut buf = sample_name_buffer();
    let first_ptr = buf.len();
    buf.extend_from_slice(&[0xC0, 0x0C]);
    let second_ptr = buf.len();
    buf.extend_from_slice(&[0xC0, first_ptr as u8]);
    let (name, next) = read_domain_name(&buf, second_ptr).unwrap();
    assert_eq!(name, "www.example.com");
    assert_eq!(next, second_ptr + 2);
}

#[test]
fn name_pointer_suffix() {
    // a label followed by a pointer: `mail` + pointer to `example.com`
    let mut buf = sample_name_buffer();
    let at = buf.len();
    buf.extend_from_slice(&[4, b'm', b'a', b'i', b'l', 0xC0, 16]);
    let (name, next) = read_domain_name(&buf, at).unwrap();
    assert_eq!(name, "mail.example.com");
    assert_eq!(next, at + 7);
}

#[test]
fn name_self_pointer_is_a_loop() {
    // offset 0 points at itself
    let buf = [0xC0, 0x00, 0x00];
    assert_eq!(read_domain_name(&buf, 0), Err(DnsError::CompressionLoop));
}

#[test]
fn name_pointer_cycle_is_a_loop() {
    // two pointers that name each other
    let buf = [0xC0, 0x02, 0xC0, 0x00];
    assert_eq!(read_domain_name(&buf, 0), Err(DnsError::CompressionLoop));
    assert_eq!(read_domain_name(&buf, 2), Err(DnsError::CompressionLoop));
}

#[test]
fn name_truncated_mid_label() {
    // the length byte promises three bytes; only two are there
    let buf = [3, b'a', b'b'];
    assert_eq!(read_domain_name(&buf, 0), Err(DnsError::OutOfBounds));
}

#[test]
fn name_truncated_mid_pointer() {
    // the pointer's second byte is missing
    let buf = [0xC0];
    assert_eq!(read_domain_name(&buf, 0), Err(DnsError::OutOfBounds));
}

#[test]
fn name_missing_terminator() {
    // the label fits but no zero byte follows
    let buf = [1, b'a'];
    assert_eq!(read_domain_name(&buf, 0), Err(DnsError::OutOfBounds));
}

#[test]
fn name_pointer_target_out_of_bounds() {
    let buf = [0xC0, 0x50, 0x00];
    assert_eq!(read_domain_name(&buf, 0), Err(DnsError::OutOfBounds));
}

#[test]
fn name_start_beyond_buffer() {
    let buf = [0u8; 4];
    assert_eq!(read_domain_name(&buf, 9), Err(DnsError::OutOfBounds));
}

#[test]
fn question_encode_and_decode() {
    let q = encode_question("example.com", 2, 1).unwrap();
    let (qs, next) = decode_questions(&q, 0, 1).unwrap();
    assert_eq!(qs.len(), 1);
    assert_eq!(qs[0].domain_name, "example.com");
    assert_eq!(qs[0].qtype, 2);
    assert_eq!(qs[0].qclass, 1);
    assert_eq!(next, q.len());
}

#[test]
fn question_missing_fixed_fields() {
    // the name ends but only two of the four fixed bytes follow
    let mut q = encode_name("example.com").unwrap();
    q.extend_from_slice(&[0x00, 0x02]);
    assert_eq!(decode_questions(&q, 0, 1), Err(DnsError::OutOfBounds));
}

#[test]
fn record_opaque_skips_rdata() {
    // name `a`, TYPE 1, CLASS 1, TTL 0x01020304, RDLENGTH 4, 4 bytes RDATA
    let mut buf = vec![1, b'a', 0, 0, 1, 0, 1, 1, 2, 3, 4, 0, 4];
    buf.extend_from_slice(&[9, 9, 9, 9]);
    let (rec, next) = decode_record(&buf, 0, false).unwrap();
    assert_eq!(rec.rr_type, 1);
    assert_eq!(rec.rr_class, 1);
    assert_eq!(rec.ttl, 0x01020304);
    assert_eq!(rec.ns_name, "");
    assert_eq!(rec.rd_length, 4);
    assert_eq!(next, buf.len());
}

#[test]
fn record_rdata_as_name() {
    // the RDATA of an NS record is itself a name, here a pointer
    let mut buf = sample_name_buffer();
    let at = buf.len();
    // owner name: pointer to offset 12; then TYPE 2, CLASS 1, TTL 60, RDLENGTH 2
    buf.extend_from_slice(&[0xC0, 0x0C, 0, 2, 0, 1, 0, 0, 0, 60, 0, 2]);
    buf.extend_from_slice(&[0xC0, 16]);
    let (rec, next) = decode_record(&buf, at, true).unwrap();
    assert_eq!(rec.rr_type, 2);
    assert_eq!(rec.rr_class, 1);
    assert_eq!(rec.ttl, 60);
    assert_eq!(rec.ns_name, "example.com");
    assert_eq!(rec.rd_length, 2);
    assert_eq!(next, buf.len());
}

#[test]
fn record_truncated_fixed_fields() {
    let buf = [1, b'a', 0, 0, 1, 0, 1];
    assert_eq!(decode_record(&buf, 0, false), Err(DnsError::OutOfBounds));
}

#[test]
fn record_rdata_skip_overruns() {
    // RDLENGTH declares 4 bytes but only 2 remain
    let buf = [1, b'a', 0, 0, 1, 0, 1, 0, 0, 0, 0, 0, 4, 9, 9];
    assert_eq!(decode_record(&buf, 0, false), Err(DnsError::OutOfBounds));
}

#[test]
fn records_count_mismatch_fails() {
    let mut buf = vec![1, b'a', 0, 0, 1, 0, 1, 0, 0, 0, 0, 0, 0];
    buf.extend_from_slice(&[]);
    assert_eq!(decode_records(&buf, 0, 2, false), Err(DnsError::OutOfBounds));
}

fn google_query() -> Vec<u8> {
    build_dns_query("google.com", 0x1234).unwrap()
}

#[test]
fn build_query_exact_bytes() {
    let q = google_query();
    let mut expected = vec![
        0x12, 0x34, 0x01, 0x00, 0x00, 0x01, 0x00, 0x00, 0x00, 0x00, 0x00, 0x00, 6,
    ];
    expected.extend_from_slice(b"google");
    expected.push(3);
    expected.extend_from_slice(b"com");
    expected.extend_from_slice(&[0, 0x00, 0x02, 0x00, 0x01]);
    assert_eq!(q, expected);
}

#[test]
fn build_query_uses_given_id() {
    let q = build_dns_query("google.com", 0xBEEF).unwrap();
    assert_eq!(&q[0..2], &[0xBE, 0xEF]);
}

#[test]
fn build_query_label_too_long() {
    let long = "a".repeat(64);
    assert_eq!(build_dns_query(&long, 1), Err(DnsError::LabelTooLong));
}

#[test]
fn parse_built_query() {
    let q = google_query();
    let m = query_parser(&q).unwrap();
    assert_eq!(m.query_id, 0x1234);
    assert_eq!(m.flags, 0x0100);
    assert_eq!(m.question_count, 1);
    assert_eq!(m.answer_count, 0);
    assert_eq!(m.ns_count, 0);
    assert_eq!(m.ar_count, 0);
    assert_eq!(m.questions.len(), 1);
    assert_eq!(m.questions[0].domain_name, "google.com");
    assert_eq!(m.questions[0].qtype, 2);
    assert_eq!(m.questions[0].qclass, 1);
    assert!(m.answer_rd_lengths.is_empty());
    assert!(m.ns_records.is_empty());
}

fn response_with_sections() -> Vec<u8> {
    // header: id 0xAAAA, flags 0x8180, 1 question, 1 answer, 1 authority
    let mut buf = encode_header(0xAAAA, 0x8180, 1, 1, 1, 0);
    // question: example.com NS IN
    buf.extend(encode_question("example.com", 2, 1).unwrap());
    // answer: owner is a pointer to offset 12, TYPE 1, CLASS 1, TTL 30,
    // RDLENGTH 4, opaque RDATA
    buf.extend_from_slice(&[0xC0, 0x0C, 0, 1, 0, 1, 0, 0, 0, 30, 0, 4, 10, 0, 0, 7]);
    // authority: owner pointer to offset 12, TYPE 2, CLASS 1, TTL 600,
    // RDLENGTH 6: `ns` + pointer to `example.com` at offset 12
    buf.extend_from_slice(&[0xC0, 0x0C, 0, 2, 0, 1, 0, 0, 2, 88, 0, 5]);
    buf.extend_from_slice(&[2, b'n', b's', 0xC0, 0x0C]);
    buf
}

#[test]
fn parse_full_response() {
    let buf = response_with_sections();
    let m = query_parser(&buf).unwrap();
    assert_eq!(m.query_id, 0xAAAA);
    assert_eq!(m.flags, 0x8180);
    assert_eq!(m.question_count, 1);
    assert_eq!(m.answer_count, 1);
    assert_eq!(m.ns_count, 1);
    assert_eq!(m.ar_count, 0);
    assert_eq!(m.questions.len(), 1);
    assert_eq!(m.questions[0].domain_name, "example.com");
    assert_eq!(m.answer_rd_lengths, vec![4]);
    assert_eq!(m.ns_records.len(), 1);
    assert_eq!(m.ns_records[0].rr_type, 2);
    assert_eq!(m.ns_records[0].rr_class, 1);
    assert_eq!(m.ns_records[0].ttl, 600);
    assert_eq!(m.ns_records[0].ns_name, "ns.example.com");
    assert_eq!(m.ns_records[0].rd_length, 5);
}

#[test]
fn parse_is_idempotent() {
    let buf = response_with_sections();
    let first = query_parser(&buf).unwrap();
    let second = query_parser(&buf).unwrap();
    assert_eq!(first, second);
}

#[test]
fn parse_header_too_short() {
    let buf = [0u8; 5];
    assert_eq!(
        query_parser(&buf),
        Err(MessageError { section: Section::Header, kind: DnsError::TruncatedBuffer })
    );
}

#[test]
fn parse_overdeclared_question_count_fails() {
    // the header declares two questions; only one fits
    let mut buf = encode_header(1, 0, 2, 0, 0, 0);
    buf.extend(encode_question("example.com", 1, 1).unwrap());
    let e = query_parser(&buf).unwrap_err();
    assert_eq!(e.section, Section::Questions);
    assert_eq!(e.kind, DnsError::OutOfBounds);
}

#[test]
fn parse_overdeclared_answer_count_fails() {
    let mut buf = encode_header(1, 0, 1, 3, 0, 0);
    buf.extend(encode_question("example.com", 1, 1).unwrap());
    buf.extend_from_slice(&[0xC0, 0x0C, 0, 1, 0, 1, 0, 0, 0, 30, 0, 0]);
    let e = query_parser(&buf).unwrap_err();
    assert_eq!(e.section, Section::Answers);
    assert_eq!(e.kind, DnsError::OutOfBounds);
}

#[test]
fn parse_bad_authority_reports_its_section() {
    let mut buf = encode_header(1, 0, 0, 0, 1, 0);
    // authority owner name truncated mid-label
    buf.extend_from_slice(&[5, b'a', b'b']);
    let e = query_parser(&buf).unwrap_err();
    assert_eq!(e.section, Section::Authority);
    assert_eq!(e.kind, DnsError::OutOfBounds);
}

#[test]
fn craft_response_exact_bytes() {
    let q = google_query_type_a();
    let r = craft_dns_response(&q).unwrap();
    assert_eq!(r.len(), q.len() + 16);
    // header: same id, flags with QR and RA set, one answer
    assert_eq!(&r[0..12], &[0x12, 0x34, 0x81, 0x80, 0x00, 0x01, 0x00, 0x01, 0x00, 0x00, 0x00, 0x00]);
    // the question section is echoed byte for byte
    assert_eq!(&r[12..q.len()], &q[12..]);
    // the fixed answer: pointer to offset 12, TYPE A, CLASS IN, TTL 0,
    // RDLENGTH 4, RDATA 127.0.0.1
    assert_eq!(
        &r[q.len()..],
        &[0xC0, 0x0C, 0x00, 0x01, 0x00, 0x01, 0x00, 0x00, 0x00, 0x00, 0x00, 0x04, 0x7F, 0x00, 0x00, 0x01]
    );
}

fn google_query_type_a() -> Vec<u8> {
    // a query for google.com, type A, class IN, id 0x1234, flags 0x0100
    let mut q = encode_header(0x1234, 0x0100, 1, 0, 0, 0);
    q.extend(encode_question("google.com", 1, 1).unwrap());
    q
}

#[test]
fn craft_response_too_short() {
    assert_eq!(craft_dns_response(&[0u8; 11]), Err(DnsError::TruncatedBuffer));
}

#[test]
fn craft_response_unterminated_qname() {
    let mut q = encode_header(7, 0, 1, 0, 0, 0);
    q.extend_from_slice(&[6, b'g', b'o', b'o', b'g', b'l', b'e']);
    assert_eq!(craft_dns_response(&q), Err(DnsError::MalformedQuestion));
}

#[test]
fn craft_response_question_fields_missing() {
    let mut q = encode_header(7, 0, 1, 0, 0, 0);
    q.extend(encode_name("google.com").unwrap());
    q.extend_from_slice(&[0, 1]);
    assert_eq!(craft_dns_response(&q), Err(DnsError::MalformedQuestion));
}

#[test]
fn craft_copies_one_question_whatever_the_count_says() {
    // the declared count is echoed untouched, but only the first
    // question's bytes are copied
    let mut q = encode_header(9, 0, 2, 0, 0, 0);
    let one = encode_question("example.com", 1, 1).unwrap();
    q.extend_from_slice(&one);
    q.extend(encode_question("other.org", 1, 1).unwrap());
    let r = craft_dns_response(&q).unwrap();
    assert_eq!(&r[4..6], &[0x00, 0x02]);
    assert_eq!(r.len(), 12 + one.len() + 16);
}
