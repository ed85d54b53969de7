use vstd::prelude::*;

use crate::buffer::{
    ByteBuf, lemma_u16_le_roundtrip, lemma_u32_le_roundtrip, u16_from_le, u16_le, u32_from_le,
    u32_le,
};
use crate::checksum::{frame_checksum, frame_checksum_of};
use crate::error::CodecError;
use crate::xtea;

verus! {

/// The largest body length a frame header may declare.
pub const MAX_BODY_LENGTH: usize = 24588;

/// How the bytes of a frame are framed and ciphered on the wire.
#[derive(Clone, Copy, Debug, PartialEq, Eq)]
pub enum FrameType {
    /// The covered region is the payload itself.
    Raw,
    /// The covered region is a u16 inner length and the payload.
    LengthPrefixed,
    /// As `LengthPrefixed`, padded to whole blocks with 0x33 bytes and
    /// ciphered with the four-word key.
    XTEA([u32; 4]),
}

/// Whether the decoder is waiting for a header or for a body of known length.
#[derive(Clone, Copy, Debug, PartialEq, Eq)]
pub enum DecodeState {
    Head,
    Data(usize),
}

/// Bytes of padding appended after the payload so that the ciphered region
/// is a whole number of 8-byte blocks.
pub open spec fn xtea_pad_len(m: int) -> int {
    if (2 + m) % 8 == 0 {
        0
    } else {
        8 - ((2 + m) % 8)
    }
}

pub open spec fn pad_bytes(count: int) -> Seq<u8> {
    Seq::new(count as nat, |i: int| 0x33u8)
}

/// The covered region before any cipher is applied.
pub open spec fn spec_plain_region(payload: Seq<u8>, ft: FrameType) -> Seq<u8> {
    match ft {
        FrameType::Raw => payload,
        FrameType::LengthPrefixed => u16_le(payload.len() as u16) + payload,
        FrameType::XTEA(_) => u16_le(payload.len() as u16) + payload + pad_bytes(
            xtea_pad_len(payload.len() as int),
        ),
    }
}

/// The covered region as it stands on the wire.
pub open spec fn spec_region(payload: Seq<u8>, ft: FrameType) -> Seq<u8> {
    match ft {
        FrameType::XTEA(key) => xtea::spec_encrypt_bytes(spec_plain_region(payload, ft), key),
        _ => spec_plain_region(payload, ft),
    }
}

/// Whether a payload fits in one frame under the given frame type.
pub open spec fn spec_encode_ok(payload: Seq<u8>, ft: FrameType) -> bool {
    match ft {
        FrameType::Raw => payload.len() + 4 <= 24588,
        FrameType::LengthPrefixed => payload.len() + 6 <= 24588,
        FrameType::XTEA(_) => payload.len() + 6 + xtea_pad_len(payload.len() as int) <= 24588,
    }
}

/// The complete on-wire frame: u16 body length, u32 checksum, region.
pub open spec fn spec_encode(payload: Seq<u8>, ft: FrameType) -> Seq<u8> {
    let region = spec_region(payload, ft);
    u16_le((region.len() + 4) as u16) + u32_le(frame_checksum(region)) + region
}

/// Reading the inner length and truncating to it; what follows is padding.
pub open spec fn spec_inner(d: Seq<u8>) -> Result<Seq<u8>, CodecError> {
    if d.len() < 2 {
        Err(CodecError::TruncatedInner)
    } else {
        let m = u16_from_le(d[0], d[1]) as int;
        if d.len() - 2 < m {
            Err(CodecError::TruncatedInner)
        } else {
            Ok(d.subrange(2, 2 + m))
        }
    }
}

/// Decoding one whole body (the `n` bytes after the header) under a frame
/// type: split off the checksum, verify it, decipher, strip the inner length.
pub open spec fn spec_decode_body(body: Seq<u8>, ft: FrameType) -> Result<Seq<u8>, CodecError> {
    if body.len() < 4 {
        Err(CodecError::ChecksumMismatch)
    } else {
        let recv = u32_from_le(body[0], body[1], body[2], body[3]);
        let region = body.skip(4);
        if recv != frame_checksum(region) {
            Err(CodecError::ChecksumMismatch)
        } else {
            match ft {
                FrameType::Raw => Ok(region),
                FrameType::LengthPrefixed => spec_inner(region),
                FrameType::XTEA(key) => if region.len() % 8 != 0 {
                    Err(CodecError::XteaMisaligned)
                } else {
                    spec_inner(xtea::spec_decrypt_bytes(region, key))
                },
            }
        }
    }
}

/// One call of the decoder on unread input `s` in state `st`: the new state,
/// how many bytes are consumed, and what is returned.
pub open spec fn spec_decode_step(st: DecodeState, ft: FrameType, s: Seq<u8>) -> (
    DecodeState,
    int,
    Result<Option<Seq<u8>>, CodecError>,
) {
    match st {
        DecodeState::Head => {
            if s.len() < 2 {
                (DecodeState::Head, 0, Ok(None))
            } else {
                let n = u16_from_le(s[0], s[1]) as int;
                if n > 24588 {
                    (DecodeState::Head, 2, Err(CodecError::OversizedFrame))
                } else if s.len() - 2 < n {
                    (DecodeState::Data(n as usize), 2, Ok(None))
                } else {
                    match spec_decode_body(s.skip(2).take(n), ft) {
                        Ok(f) => (DecodeState::Head, 2 + n, Ok(Some(f))),
                        Err(e) => (DecodeState::Data(n as usize), 2 + n, Err(e)),
                    }
                }
            }
        },
        DecodeState::Data(n) => {
            if s.len() < n {
                (DecodeState::Data(n), 0, Ok(None))
            } else {
                match spec_decode_body(s.take(n as int), ft) {
                    Ok(f) => (DecodeState::Head, n as int, Ok(Some(f))),
                    Err(e) => (DecodeState::Data(n), n as int, Err(e)),
                }
            }
        },
    }
}

/// The stateful frame codec for one direction of a connection.
pub struct TibiaCodec {
    state: DecodeState,
    frame_type: FrameType,
}

impl TibiaCodec {
    pub closed spec fn spec_state(&self) -> DecodeState {
        self.state
    }

    pub closed spec fn spec_frame_type(&self) -> FrameType {
        self.frame_type
    }

    /// A fresh codec awaits a header and frames raw.
    pub fn new() -> (r: TibiaCodec)
        ensures
            r.spec_state() == DecodeState::Head,
            r.spec_frame_type() == FrameType::Raw,
    {
        TibiaCodec { state: DecodeState::Head, frame_type: FrameType::Raw }
    }

    /// Replaces the frame type; takes effect from the next frame onward.
    pub fn set_frame_type(&mut self, frame_type: FrameType)
        ensures
            final(self).spec_frame_type() == frame_type,
            final(self).spec_state() == old(self).spec_state(),
    {
        self.frame_type = frame_type;
    }

    pub fn frame_type(&self) -> (r: FrameType)
        ensures
            r == self.spec_frame_type(),
    {
        self.frame_type
    }

    /// Consumes the least prefix of `src` that advances the decoder: nothing
    /// when too little has arrived, a whole frame's bytes otherwise.
    pub fn decode(&mut self, src: &mut ByteBuf) -> (r: Result<Option<Vec<u8>>, CodecError>)
        requires
            old(src).wf(),
        ensures
            final(src).wf(),
            final(src).bytes() == old(src).bytes(),
            final(self).spec_frame_type() == old(self).spec_frame_type(),
            ({
                let step = spec_decode_step(
                    old(self).spec_state(),
                    old(self).spec_frame_type(),
                    old(src).rem(),
                );
                &&& final(self).spec_state() == step.0
                &&& final(src).rpos() == old(src).rpos() + step.1
                &&& match (r, step.2) {
                    (Ok(None), Ok(None)) => true,
                    (Ok(Some(v)), Ok(Some(sq))) => v@ == sq,
                    (Err(e1), Err(e2)) => e1 == e2,
                    _ => false,
                }
            }),
    {
        let ghost s = old(src).rem();
        match self.state {
            DecodeState::Head => {
                if src.remaining() < 2 {
                    return Ok(None);
                }
                let n16 = match src.get_u16_le() {
                    Ok(v) => v,
                    Err(_) => {
                        proof {
                            assert(false);
                        }
                        0
                    },
                };
                let n = n16 as usize;
                if n > MAX_BODY_LENGTH {
                    return Err(CodecError::OversizedFrame);
                }
                self.state = DecodeState::Data(n);
                proof {
                    assert(src.rem() =~= s.skip(2));
                }
                if src.remaining() < n {
                    return Ok(None);
                }
                let body = match src.get_bytes(n) {
                    Ok(v) => v,
                    Err(_) => {
                        proof {
                            assert(false);
                        }
                        Vec::new()
                    },
                };
                proof {
                    assert(body@ == s.skip(2).take(n as int));
                }
                match decode_body(body, self.frame_type) {
                    Ok(frame) => {
                        self.state = DecodeState::Head;
                        Ok(Some(frame))
                    },
                    Err(e) => Err(e),
                }
            },
            DecodeState::Data(n) => {
                if src.remaining() < n {
                    return Ok(None);
                }
                let body = match src.get_bytes(n) {
                    Ok(v) => v,
                    Err(_) => {
                        proof {
                            assert(false);
                        }
                        Vec::new()
                    },
                };
                proof {
                    assert(body@ == s.take(n as int));
                }
                match decode_body(body, self.frame_type) {
                    Ok(frame) => {
                        self.state = DecodeState::Head;
                        Ok(Some(frame))
                    },
                    Err(e) => Err(e),
                }
            },
        }
    }

    /// Appends to `dst` the one frame that carries `payload` under the
    /// current frame type, or refuses a payload too large for a frame.
    pub fn encode(&self, payload: &Vec<u8>, dst: &mut ByteBuf) -> (r: Result<(), CodecError>)
        requires
            old(dst).wf(),
        ensures
            final(dst).wf(),
            final(dst).rpos() == old(dst).rpos(),
            match r {
                Ok(()) => spec_encode_ok(payload@, self.spec_frame_type()) && final(dst).bytes()
                    == old(dst).bytes() + spec_encode(payload@, self.spec_frame_type()),
                Err(e) => e == CodecError::OversizedFrame && !spec_encode_ok(
                    payload@,
                    self.spec_frame_type(),
                ) && final(dst).bytes() == old(dst).bytes(),
            },
    {
        let m: usize = payload.len();
        if m > 24584 {
            proof {
                assert(xtea_pad_len(m as int) >= 0);
            }
            return Err(CodecError::OversizedFrame);
        }
        let mut region_buf = ByteBuf::new();
        let is_raw: bool = match self.frame_type {
            FrameType::Raw => true,
            _ => false,
        };
        if !is_raw {
            region_buf.put_u16_le(m as u16);
        }
        region_buf.put_bytes(payload);
        let mut region: Vec<u8>;
        match self.frame_type {
            FrameType::Raw => {
                if m + 4 > MAX_BODY_LENGTH {
                    return Err(CodecError::OversizedFrame);
                }
                region = region_buf.into_vec();
            },
            FrameType::LengthPrefixed => {
                if m + 6 > MAX_BODY_LENGTH {
                    return Err(CodecError::OversizedFrame);
                }
                region = region_buf.into_vec();
            },
            FrameType::XTEA(key) => {
                let rem8: usize = (2 + m) % 8;
                let padding: usize = if rem8 == 0 {
                    0
                } else {
                    8 - rem8
                };
                if m + 6 + padding > MAX_BODY_LENGTH {
                    return Err(CodecError::OversizedFrame);
                }
                let mut j: usize = 0;
                while j < padding
                    invariant
                        j <= padding,
                        padding == xtea_pad_len(m as int),
                        region_buf.wf(),
                        region_buf.rpos() == 0,
                        region_buf.bytes() =~= u16_le(m as u16) + payload@ + pad_bytes(j as int),
                    decreases padding - j,
                {
                    region_buf.put_u8(0x33);
                    j = j + 1;
                    proof {
                        assert(pad_bytes((j - 1) as int).push(0x33u8) =~= pad_bytes(j as int));
                        assert(region_buf.bytes() =~= u16_le(m as u16) + payload@ + pad_bytes(
                            j as int,
                        ));
                    }
                }
                region = region_buf.into_vec();
                proof {
                    assert(region@.len() == 2 + m + padding);
                    lemma_pad_aligns(m as int);
                }
                xtea::encrypt(&mut region, &key);
                proof {
                    xtea::lemma_encrypt_bytes_len(
                        spec_plain_region(payload@, self.spec_frame_type()),
                        key,
                    );
                }
            },
        }
        proof {
            assert(region@ == spec_region(payload@, self.spec_frame_type()));
        }
        let checksum: u32 = frame_checksum_of(&region);
        let n: usize = region.len() + 4;
        dst.put_u16_le(n as u16);
        dst.put_u32_le(checksum);
        dst.put_bytes(&region);
        proof {
            assert(final(dst).bytes() =~= old(dst).bytes() + spec_encode(
                payload@,
                self.spec_frame_type(),
            ));
        }
        Ok(())
    }
}

/// Padding always completes the inner length and payload to whole blocks.
proof fn lemma_pad_aligns(m: int)
    requires
        m >= 0,
    ensures
        (2 + m + xtea_pad_len(m)) % 8 == 0,
{
}

/// Processes the `n` bytes of one body exactly as `spec_decode_body` states.
fn decode_body(body: Vec<u8>, ft: FrameType) -> (r: Result<Vec<u8>, CodecError>)
    ensures
        match (r, spec_decode_body(body@, ft)) {
            (Ok(v), Ok(sq)) => v@ == sq,
            (Err(e1), Err(e2)) => e1 == e2,
            _ => false,
        },
{
    if body.len() < 4 {
        return Err(CodecError::ChecksumMismatch);
    }
    let mut bb = ByteBuf::from_vec(body);
    let ghost body_seq = bb.bytes();
    let recv: u32 = match bb.get_u32_le() {
        Ok(v) => v,
        Err(_) => {
            proof {
                assert(false);
            }
            0
        },
    };
    let rest: usize = bb.remaining();
    let mut region: Vec<u8> = match bb.get_bytes(rest) {
        Ok(v) => v,
        Err(_) => {
            proof {
                assert(false);
            }
            Vec::new()
        },
    };
    proof {
        assert(region@ =~= body_seq.skip(4));
    }
    let expected: u32 = frame_checksum_of(&region);
    if recv != expected {
        return Err(CodecError::ChecksumMismatch);
    }
    match ft {
        FrameType::Raw => Ok(region),
        FrameType::LengthPrefixed => strip_inner(region),
        FrameType::XTEA(key) => {
            if region.len() % 8 != 0 {
                return Err(CodecError::XteaMisaligned);
            }
            xtea::decrypt(&mut region, &key);
            strip_inner(region)
        },
    }
}

/// Reads the u16 inner length and keeps exactly that many bytes.
fn strip_inner(d: Vec<u8>) -> (r: Result<Vec<u8>, CodecError>)
    ensures
        match (r, spec_inner(d@)) {
            (Ok(v), Ok(sq)) => v@ == sq,
            (Err(e1), Err(e2)) => e1 == e2,
            _ => false,
        },
{
    let mut bb = ByteBuf::from_vec(d);
    let ghost d_seq = bb.bytes();
    let m: u16 = match bb.get_u16_le() {
        Ok(v) => v,
        Err(_) => {
            return Err(CodecError::TruncatedInner);
        },
    };
    if bb.remaining() < m as usize {
        return Err(CodecError::TruncatedInner);
    }
    match bb.get_bytes(m as usize) {
        Ok(v) => {
            proof {
                assert(v@ =~= d_seq.subrange(2, 2 + m as int));
            }
            Ok(v)
        },
        Err(_) => {
            proof {
                assert(false);
            }
            Err(CodecError::TruncatedInner)
        },
    }
}

/// Round trip of the frame layer: under any frame type (and, for XTEA, any
/// key held by both sides), decoding what `encode` produced yields the
/// payload again, consumes the whole frame, and leaves the decoder awaiting
/// the next header. This is stated for every payload a frame can carry.
pub proof fn lemma_frame_roundtrip(payload: Seq<u8>, ft: FrameType)
    requires
        spec_encode_ok(payload, ft),
    ensures
        ({
            let wire = spec_encode(payload, ft);
            spec_decode_step(DecodeState::Head, ft, wire) == (
                DecodeState::Head,
                wire.len() as int,
                Ok::<Option<Seq<u8>>, CodecError>(Some(payload)),
            )
        }),
{
    let region = spec_region(payload, ft);
    let plain = spec_plain_region(payload, ft);
    let m = payload.len() as int;
    if let FrameType::XTEA(key) = ft {
        xtea::lemma_encrypt_bytes_len(plain, key);
    }
    let n = region.len() + 4;
    let ck = frame_checksum(region);
    let wire = spec_encode(payload, ft);
    assert(wire == u16_le(n as u16) + u32_le(ck) + region);
    assert(wire.len() == 6 + region.len());
    // The header reads back as the body length.
    assert(wire[0] == u16_le(n as u16)[0] && wire[1] == u16_le(n as u16)[1]);
    lemma_u16_le_roundtrip(n as u16);
    assert(u16_from_le(wire[0], wire[1]) == n);
    assert(n <= 24588);
    let body = wire.skip(2).take(n as int);
    assert(body =~= u32_le(ck) + region);
    // The checksum reads back and matches.
    assert(body[0] == u32_le(ck)[0] && body[1] == u32_le(ck)[1] && body[2] == u32_le(ck)[2]
        && body[3] == u32_le(ck)[3]);
    lemma_u32_le_roundtrip(ck);
    assert(body.skip(4) =~= region);
    match ft {
        FrameType::Raw => {
            assert(spec_decode_body(body, ft) == Ok::<Seq<u8>, CodecError>(payload));
        },
        FrameType::LengthPrefixed => {
            lemma_inner_of_plain(payload);
            assert(spec_decode_body(body, ft) == Ok::<Seq<u8>, CodecError>(payload));
        },
        FrameType::XTEA(key) => {
            lemma_pad_aligns(m);
            assert(plain.len() == 2 + m + xtea_pad_len(m));
            assert(plain.len() % 8 == 0);
            xtea::lemma_bytes_roundtrip(plain, key);
            assert(xtea::spec_decrypt_bytes(region, key) == plain);
            lemma_inner_of_padded(payload);
            assert(spec_decode_body(body, ft) == Ok::<Seq<u8>, CodecError>(payload));
        },
    }
    assert(wire.len() - 2 >= n);
    assert(spec_decode_step(DecodeState::Head, ft, wire).2 == Ok::<Option<Seq<u8>>, CodecError>(
        Some(payload),
    ));
}

/// Stripping the inner length from `u16 m ++ payload` yields the payload.
proof fn lemma_inner_of_plain(payload: Seq<u8>)
    requires
        payload.len() <= 65535,
    ensures
        spec_inner(u16_le(payload.len() as u16) + payload) == Ok::<Seq<u8>, CodecError>(payload),
{
    let d = u16_le(payload.len() as u16) + payload;
    assert(d[0] == u16_le(payload.len() as u16)[0] && d[1] == u16_le(payload.len() as u16)[1]);
    lemma_u16_le_roundtrip(payload.len() as u16);
    assert(u16_from_le(d[0], d[1]) == payload.len());
    assert(d.subrange(2, 2 + payload.len() as int) =~= payload);
}

/// Stripping the inner length also discards any padding after the payload.
proof fn lemma_inner_of_padded(payload: Seq<u8>)
    requires
        payload.len() <= 65535,
    ensures
        spec_inner(
            u16_le(payload.len() as u16) + payload + pad_bytes(xtea_pad_len(payload.len() as int)),
        ) == Ok::<Seq<u8>, CodecError>(payload),
{
    let m = payload.len() as int;
    let d = u16_le(payload.len() as u16) + payload + pad_bytes(xtea_pad_len(m));
    assert(d[0] == u16_le(payload.len() as u16)[0] && d[1] == u16_le(payload.len() as u16)[1]);
    lemma_u16_le_roundtrip(payload.len() as u16);
    assert(u16_from_le(d[0], d[1]) == payload.len());
    assert(xtea_pad_len(m) >= 0);
    assert(d.subrange(2, 2 + m) =~= payload);
}

} // verus!
