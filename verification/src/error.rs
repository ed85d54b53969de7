use vstd::prelude::*;

verus! {

/// Failure while reading or writing the payload of a single packet.
#[derive(Clone, Copy, Debug, PartialEq, Eq, Structural)]
pub enum PacketError {
    /// The leading packet id byte is not one this library parses.
    UnknownPacket(u8),
    /// A length-prefixed string did not hold valid UTF-8.
    InvalidString,
    /// The leading byte of an RSA-sealed block was not zero.
    RsaCheckFailed,
    /// The packet ended before the field being read was complete.
    Truncated,
    /// A string longer than 65535 bytes cannot be length-prefixed.
    StringTooLong,
    /// A fixed field held a value its layout does not allow, such as a
    /// world separator that is not zero or a boolean beyond one.
    MalformedPacket,
}

/// Failure while framing or deframing a byte stream.
#[derive(Clone, Copy, Debug, PartialEq, Eq, Structural)]
pub enum CodecError {
    /// The header declared a body longer than 24588 bytes.
    OversizedFrame,
    /// The Adler-32 checksum in the body did not match its contents.
    ChecksumMismatch,
    /// The region to cipher was not a whole number of 8-byte blocks.
    XteaMisaligned,
    /// The inner length exceeded the bytes that remain in the body.
    TruncatedInner,
}

} // verus!
