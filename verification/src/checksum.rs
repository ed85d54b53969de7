use vstd::prelude::*;

verus! {

/// The running Adler-32 pair: `.0` is one plus the byte sum, `.1` the sum of
/// the running `.0` values, both modulo 65521, as RFC 1950 defines them.
pub open spec fn adler_pair(s: Seq<u8>) -> (int, int)
    decreases s.len(),
{
    if s.len() == 0 {
        (1int, 0int)
    } else {
        let p = adler_pair(s.drop_last());
        let a = (p.0 + s.last()) % 65521;
        let b = (p.1 + a) % 65521;
        (a, b)
    }
}

/// The RFC 1950 Adler-32 checksum: the high half is the pair's second
/// component, the low half its first.
pub open spec fn adler32_of(s: Seq<u8>) -> u32 {
    (adler_pair(s).1 * 0x10000 + adler_pair(s).0) as u32
}

/// The checksum a frame body carries over its covered region. An empty
/// region is covered by the constant zero rather than by Adler-32 itself.
pub open spec fn frame_checksum(s: Seq<u8>) -> u32 {
    if s.len() == 0 {
        0
    } else {
        adler32_of(s)
    }
}

/// Relies on `adler32::RollingAdler32::from_buffer` and `hash`: together they
/// compute the RFC 1950 Adler-32 checksum of the buffer, with the pair held
/// modulo 65521 and packed as high and low halves.
#[verifier::external_body]
pub fn adler32_hash(data: &Vec<u8>) -> (r: u32)
    ensures
        r == adler32_of(data@),
{
    adler32::RollingAdler32::from_buffer(&data[..]).hash()
}

/// The checksum written into and checked against a frame body.
pub fn frame_checksum_of(data: &Vec<u8>) -> (r: u32)
    ensures
        r == frame_checksum(data@),
{
    if data.len() == 0 {
        0
    } else {
        adler32_hash(data)
    }
}

} // verus!
