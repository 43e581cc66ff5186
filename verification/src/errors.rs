use vstd::prelude::*;

verus! {

/// The ways a codec operation can fail.
#[derive(Clone, Copy, Debug, PartialEq, Eq, Structural)]
pub enum DnsError {
    /// Fewer bytes are available than a fixed field or section requires.
    TruncatedBuffer,
    /// A computed offset, pointer target or RDATA skip range exceeds the
    /// buffer length.
    OutOfBounds,
    /// Compression-pointer following exceeded the safety bound of one hop
    /// per buffer byte, so the pointers must form a cycle.
    CompressionLoop,
    /// A domain-name label of more than 63 bytes was handed to the encoder.
    LabelTooLong,
    /// The response crafter could not locate a terminated question name
    /// followed by its four fixed bytes.
    MalformedQuestion,
}

/// The section of a message in which a decode failure occurred.
#[derive(Clone, Copy, Debug, PartialEq, Eq, Structural)]
pub enum Section {
    Header,
    Questions,
    Answers,
    Authority,
}

/// A whole-message decode failure: the error itself, annotated with the
/// section that produced it.
#[derive(Clone, Copy, Debug, PartialEq, Eq, Structural)]
pub struct MessageError {
    pub section: Section,
    pub kind: DnsError,
}

} // verus!
