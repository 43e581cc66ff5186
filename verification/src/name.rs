//! The domain-name codec: decoding a possibly-compressed name that starts at
//! an arbitrary offset of a message buffer, and encoding a plain dotted name
//! into label-length-prefixed wire form.
//!
//! A name on the wire is a run of labels, each a length byte `1..=63`
//! followed by that many raw bytes, ended by a zero byte.  A length byte
//! with its top two bits set is instead a compression pointer: its low six
//! bits and the following byte form an absolute offset at which reading
//! resumes.  The decoded name is the labels joined by `.`, without a
//! trailing dot.  The position handed back to the caller is the one just
//! after the name in the original stream: after the terminating zero, or
//! after the first pointer if one was taken.  Pointer chains are followed
//! transitively, but no more than one hop per buffer byte; a longer chain
//! can only be a cycle and is reported as `CompressionLoop`.

use crate::errors::DnsError;
use vstd::prelude::*;
use vstd::string::StringSliceAdditionalSpecFns;

verus! {

/// The absolute offset named by a compression pointer whose two bytes are
/// `b1` and `b2`.
pub open spec fn pointer_target(b1: u8, b2: u8) -> nat {
    ((b1 & 0x3F) as nat) * 256 + (b2 as nat)
}

/// The labels of the name that starts at `off`, following compression
/// pointers transitively, allowing at most `fuel` pointer hops.
pub open spec fn labels_from(buf: Seq<u8>, off: nat, fuel: nat) -> Result<Seq<Seq<u8>>, DnsError>
    decreases fuel, buf.len() - off,
{
    if off >= buf.len() {
        Err(DnsError::OutOfBounds)
    } else {
        let len = buf[off as int];
        if len == 0 {
            Ok(Seq::empty())
        } else if len & 0xC0 == 0xC0 {
            if off + 1 >= buf.len() {
                Err(DnsError::OutOfBounds)
            } else if fuel == 0 {
                Err(DnsError::CompressionLoop)
            } else {
                labels_from(buf, pointer_target(len, buf[off as int + 1]), (fuel - 1) as nat)
            }
        } else {
            if (len as nat) > buf.len() - (off + 1) {
                Err(DnsError::OutOfBounds)
            } else {
                match labels_from(buf, off + 1 + (len as nat), fuel) {
                    Ok(rest) => Ok(
                        seq![buf.subrange(off as int + 1, off as int + 1 + len)] + rest,
                    ),
                    Err(e) => Err(e),
                }
            }
        }
    }
}

/// The position just after the name that starts at `off`, in the original
/// reading stream: pointers are not followed, since the first one already
/// ends the name's presence in the stream.
pub open spec fn name_end_from(buf: Seq<u8>, off: nat) -> Result<nat, DnsError>
    decreases buf.len() - off,
{
    if off >= buf.len() {
        Err(DnsError::OutOfBounds)
    } else {
        let len = buf[off as int];
        if len == 0 {
            Ok(off + 1)
        } else if len & 0xC0 == 0xC0 {
            if off + 1 >= buf.len() {
                Err(DnsError::OutOfBounds)
            } else {
                Ok(off + 2)
            }
        } else {
            if (len as nat) > buf.len() - (off + 1) {
                Err(DnsError::OutOfBounds)
            } else {
                name_end_from(buf, off + 1 + (len as nat))
            }
        }
    }
}

/// Labels joined by `.`, with no trailing dot.
pub open spec fn join_labels(ls: Seq<Seq<u8>>) -> Seq<u8>
    decreases ls.len(),
{
    if ls.len() == 0 {
        Seq::empty()
    } else if ls.len() == 1 {
        ls[0]
    } else {
        ls[0] + seq![46u8] + join_labels(ls.drop_first())
    }
}

/// What decoding the name at `start` yields: the dot-joined label bytes and
/// the position just after the name in the original stream, or the error.
/// The pointer-hop budget is one hop per buffer byte, enough for any
/// acyclic chain, so only a pointer cycle exhausts it.
pub open spec fn spec_name_at(buf: Seq<u8>, start: nat) -> Result<(Seq<u8>, nat), DnsError> {
    match labels_from(buf, start, buf.len()) {
        Ok(ls) => match name_end_from(buf, start) {
            Ok(end) => Ok((join_labels(ls), end)),
            Err(e) => Err(e),
        },
        Err(e) => Err(e),
    }
}

/// True when every byte is ASCII.
pub open spec fn ascii_bytes(bytes: Seq<u8>) -> bool {
    forall|i: int| 0 <= i < bytes.len() ==> bytes[i] < 128
}

/// Each byte read as the character with the same code.
pub open spec fn chars_of(bytes: Seq<u8>) -> Seq<char> {
    bytes.map_values(|b: u8| b as char)
}

/// The characters that lossy UTF-8 decoding gives for `bytes`.
pub uninterp spec fn lossy_chars(bytes: Seq<u8>) -> Seq<char>;

/// Relies on String::from_utf8_lossy: its result depends on the bytes
/// alone, and ASCII bytes are valid UTF-8 that decodes to one character
/// per byte, each with the byte's own code.
#[verifier::external_body]
pub(crate) fn bytes_to_string(v: &Vec<u8>) -> (r: String)
    ensures
        r@ == lossy_chars(v@),
        ascii_bytes(v@) ==> r@ == chars_of(v@),
{
    String::from_utf8_lossy(v.as_slice()).into_owned()
}

/// Joining one more label appends a dot first unless nothing was there.
proof fn lemma_join_push(ls: Seq<Seq<u8>>, l: Seq<u8>)
    ensures
        join_labels(ls.push(l)) == if ls.len() == 0 {
            l
        } else {
            join_labels(ls) + seq![46u8] + l
        },
    decreases ls.len(),
{
    if ls.len() == 0 {
        assert(ls.push(l).len() == 1);
        assert(ls.push(l)[0] == l);
    } else {
        assert(ls.push(l).drop_first() =~= ls.drop_first().push(l));
        lemma_join_push(ls.drop_first(), l);
        if ls.len() == 1 {
            assert(join_labels(ls.push(l)) == ls[0] + seq![46u8] + l);
        } else {
            assert(join_labels(ls) + seq![46u8] + l =~= ls[0] + seq![46u8] + (join_labels(
                ls.drop_first(),
            ) + seq![46u8] + l));
        }
    }
}

/// Decodes the possibly-compressed domain name that starts at `start`.
///
/// On success the pair holds the dot-joined name (without trailing dot)
/// and the offset just after the name in the original stream: after the
/// terminating zero byte, or after the first compression pointer taken.
/// Fails with `OutOfBounds` when a label, pointer or pointer target runs
/// past the buffer, and with `CompressionLoop` when the pointers cycle.
pub fn read_domain_name(buf: &[u8], start: usize) -> (r: Result<(String, usize), DnsError>)
    ensures
        ({
            let s = spec_name_at(buf@, start as nat);
            match r {
                Ok((name, end)) => {
                    &&& s is Ok
                    &&& name@ == lossy_chars(s->Ok_0.0)
                    &&& (ascii_bytes(s->Ok_0.0) ==> name@ == chars_of(s->Ok_0.0))
                    &&& end as nat == s->Ok_0.1
                    &&& end <= buf@.len()
                },
                Err(e) => s == Err::<(Seq<u8>, nat), DnsError>(e),
            }
        }),
{
    let ghost fuel0: nat = buf@.len();
    let mut name_bytes: Vec<u8> = Vec::new();
    let ghost mut acc: Seq<Seq<u8>> = Seq::empty();
    let mut offset: usize = start;
    let mut end: usize = 0;
    let mut jumped: bool = false;
    let mut hops: usize = 0;
    loop
        invariant
            fuel0 == buf@.len(),
            hops <= fuel0,
            jumped ==> hops >= 1,
            labels_from(buf@, start as nat, fuel0) == (match labels_from(
                buf@,
                offset as nat,
                (fuel0 - hops) as nat,
            ) {
                Ok(rest) => Ok::<Seq<Seq<u8>>, DnsError>(acc + rest),
                Err(e) => Err::<Seq<Seq<u8>>, DnsError>(e),
            }),
            name_bytes@ == join_labels(acc),
            forall|i: int| 0 <= i < acc.len() ==> acc[i].len() >= 1,
            !jumped ==> name_end_from(buf@, start as nat) == name_end_from(buf@, offset as nat),
            jumped ==> name_end_from(buf@, start as nat) == Ok::<nat, DnsError>(end as nat),
            jumped ==> end <= buf@.len(),
        ensures
            offset < buf@.len(),
            buf@[offset as int] == 0,
            hops <= fuel0,
            labels_from(buf@, start as nat, fuel0) == (match labels_from(
                buf@,
                offset as nat,
                (fuel0 - hops) as nat,
            ) {
                Ok(rest) => Ok::<Seq<Seq<u8>>, DnsError>(acc + rest),
                Err(e) => Err::<Seq<Seq<u8>>, DnsError>(e),
            }),
            name_bytes@ == join_labels(acc),
            !jumped ==> name_end_from(buf@, start as nat) == name_end_from(buf@, offset as nat),
            jumped ==> name_end_from(buf@, start as nat) == Ok::<nat, DnsError>(end as nat),
            jumped ==> end <= buf@.len(),
        decreases fuel0 - hops, buf@.len() - offset,
    {
        if offset >= buf.len() {
            return Err(DnsError::OutOfBounds);
        }
        let len = buf[offset];
        if len == 0 {
            break ;
        }
        if len & 0xC0 == 0xC0 {
            if offset + 1 >= buf.len() {
                return Err(DnsError::OutOfBounds);
            }
            if hops >= buf.len() {
                return Err(DnsError::CompressionLoop);
            }
            let b2 = buf[offset + 1];
            let ptr = ((len & 0x3F) as usize) * 256 + (b2 as usize);
            if !jumped {
                end = offset + 2;
                jumped = true;
            }
            proof {
                assert(ptr as nat == pointer_target(len, buf@[offset as int + 1]));
            }
            offset = ptr;
            hops = hops + 1;
        } else {
            let llen = len as usize;
            if llen > buf.len() - (offset + 1) {
                return Err(DnsError::OutOfBounds);
            }
            if name_bytes.len() > 0 {
                name_bytes.push(46);
            }
            let lab = &buf[offset + 1..offset + 1 + llen];
            name_bytes.extend_from_slice(lab);
            proof {
                let label = buf@.subrange(offset + 1, offset + 1 + len as int);
                lemma_join_push(acc, label);
                if acc.len() == 0 {
                    assert(name_bytes@ =~= join_labels(acc.push(label)));
                } else {
                    assert(name_bytes@ =~= join_labels(acc) + seq![46u8] + label);
                }
                let rest_res = labels_from(
                    buf@,
                    offset as nat + 1 + len as nat,
                    (fuel0 - hops) as nat,
                );
                match rest_res {
                    Ok(rest2) => {
                        assert(acc + (seq![label] + rest2) =~= acc.push(label) + rest2);
                    },
                    Err(_) => {},
                }
                acc = acc.push(label);
            }
            offset = offset + 1 + llen;
        }
    }
    if !jumped {
        let n = buf.len();
        assert(offset < n);
        end = offset + 1;
    }
    let name = bytes_to_string(&name_bytes);
    proof {
        assert(labels_from(buf@, offset as nat, (fuel0 - hops) as nat) == Ok::<
            Seq<Seq<u8>>,
            DnsError,
        >(Seq::empty()));
        assert(acc + Seq::<Seq<u8>>::empty() =~= acc);
        assert(labels_from(buf@, start as nat, fuel0) == Ok::<Seq<Seq<u8>>, DnsError>(acc));
    }
    Ok((name, end))
}

/// The length of the leading run of bytes before the first `.`.
pub open spec fn first_label_len(bytes: Seq<u8>) -> nat
    decreases bytes.len(),
{
    if bytes.len() == 0 {
        0
    } else if bytes[0] == 46 {
        0
    } else {
        1 + first_label_len(bytes.drop_first())
    }
}

/// The wire form of the dotted name `bytes`, without the final zero
/// terminator: each dot-separated segment as a length byte followed by the
/// segment, or `LabelTooLong` if a segment exceeds 63 bytes.
pub open spec fn spec_encode_labels(bytes: Seq<u8>) -> Result<Seq<u8>, DnsError>
    decreases bytes.len(),
{
    let l = first_label_len(bytes);
    if l > 63 {
        Err(DnsError::LabelTooLong)
    } else if l >= bytes.len() {
        Ok(seq![l as u8] + bytes)
    } else {
        match spec_encode_labels(bytes.skip(l as int + 1)) {
            Ok(rest) => Ok(seq![l as u8] + bytes.take(l as int) + rest),
            Err(e) => Err(e),
        }
    }
}

/// The full wire form of the dotted name `bytes`: its length-prefixed
/// segments followed by the zero terminator.
pub open spec fn spec_encode_name(bytes: Seq<u8>) -> Result<Seq<u8>, DnsError> {
    match spec_encode_labels(bytes) {
        Ok(s) => Ok(s + seq![0u8]),
        Err(e) => Err(e),
    }
}

/// True when every dot-separated segment of `bytes` has 1 to 63 bytes.
pub open spec fn valid_labels(bytes: Seq<u8>) -> bool
    decreases bytes.len(),
{
    let l = first_label_len(bytes);
    1 <= l <= 63 && (l >= bytes.len() || valid_labels(bytes.skip(l as int + 1)))
}

/// `first_label_len` never exceeds the byte count.
pub proof fn lemma_first_label_len_le(bytes: Seq<u8>)
    ensures
        first_label_len(bytes) <= bytes.len(),
    decreases bytes.len(),
{
    if bytes.len() > 0 && bytes[0] != 46 {
        lemma_first_label_len_le(bytes.drop_first());
    }
}

/// A scan that saw no dot up to `j` and a dot or the end at `j` has found
/// the first label's length.
proof fn lemma_first_label_scan(bytes: Seq<u8>, j: int)
    requires
        0 <= j <= bytes.len(),
        forall|m: int| 0 <= m < j ==> bytes[m] != 46,
        j == bytes.len() || bytes[j] == 46,
    ensures
        first_label_len(bytes) == j,
    decreases j,
{
    if j > 0 {
        assert(bytes[0] != 46);
        let rest = bytes.drop_first();
        assert forall|m: int| 0 <= m < j - 1 implies rest[m] != 46 by {
            assert(rest[m] == bytes[m + 1]);
        }
        if j < bytes.len() {
            assert(rest[j - 1] == bytes[j]);
        }
        lemma_first_label_scan(rest, j - 1);
    }
}

/// Encodes a plain dotted domain name into label-length-prefixed wire
/// form, ending with the zero terminator.  Compression is never emitted.
/// Fails with `LabelTooLong` when a dot-separated segment exceeds 63
/// bytes; an empty segment is emitted as a zero-length label, as a `.` in
/// the input literally asks.
pub fn encode_name(domain: &str) -> (r: Result<Vec<u8>, DnsError>)
    ensures
        ({
            let s = spec_encode_name(domain.spec_bytes());
            match r {
                Ok(v) => s is Ok && v@ == s->Ok_0,
                Err(e) => s == Err::<Seq<u8>, DnsError>(e),
            }
        }),
{
    let bytes: &[u8] = domain.as_bytes();
    let mut out: Vec<u8> = Vec::new();
    let mut i: usize = 0;
    let mut j: usize = 0;
    proof {
        assert(bytes@.skip(0) =~= bytes@);
    }
    loop
        invariant
            bytes@ == domain.spec_bytes(),
            i <= j <= bytes@.len(),
            forall|m: int| i <= m < j ==> bytes@[m] != 46,
            spec_encode_name(bytes@) == (match spec_encode_labels(bytes@.skip(i as int)) {
                Ok(rest) => Ok::<Seq<u8>, DnsError>(out@ + rest + seq![0u8]),
                Err(e) => Err::<Seq<u8>, DnsError>(e),
            }),
        decreases bytes@.len() - j,
    {
        if j == bytes.len() || bytes[j] == 46 {
            let ghost tail = bytes@.skip(i as int);
            proof {
                assert forall|m: int| 0 <= m < j - i implies tail[m] != 46 by {
                    assert(tail[m] == bytes@[i + m]);
                }
                if j < bytes@.len() {
                    assert(tail[j - i] == bytes@[j as int]);
                }
                lemma_first_label_scan(tail, j - i);
            }
            let l = j - i;
            if l > 63 {
                return Err(DnsError::LabelTooLong);
            }
            let ghost out0 = out@;
            out.push(l as u8);
            let seg = &bytes[i..j];
            out.extend_from_slice(seg);
            proof {
                assert(out@ =~= out0 + seq![l as u8] + bytes@.subrange(i as int, j as int));
            }
            if j == bytes.len() {
                out.push(0);
                proof {
                    assert(tail =~= bytes@.subrange(i as int, j as int));
                    assert(spec_encode_labels(tail) == Ok::<Seq<u8>, DnsError>(
                        seq![l as u8] + tail,
                    ));
                    assert(out@ =~= out0 + (seq![l as u8] + tail) + seq![0u8]);
                }
                return Ok(out);
            }
            proof {
                let next = bytes@.skip(j as int + 1);
                assert(tail.skip(l as int + 1) =~= next);
                assert(tail.take(l as int) =~= bytes@.subrange(i as int, j as int));
                let rest_res = spec_encode_labels(next);
                match rest_res {
                    Ok(rest2) => {
                        assert(out0 + (seq![l as u8] + tail.take(l as int) + rest2) + seq![0u8]
                            =~= out@ + rest2 + seq![0u8]);
                    },
                    Err(_) => {},
                }
            }
            i = j + 1;
            j = j + 1;
        } else {
            j = j + 1;
        }
    }
}

} // verus!
