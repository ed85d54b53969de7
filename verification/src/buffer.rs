use vstd::prelude::*;

use crate::error::PacketError;

verus! {

// Little-endian encodings of the integer widths the wire format uses.

pub open spec fn u16_le(v: u16) -> Seq<u8> {
    seq![(v & 0xFF) as u8, ((v >> 8) & 0xFF) as u8]
}

pub open spec fn u16_from_le(b0: u8, b1: u8) -> u16 {
    (b0 as u16) | ((b1 as u16) << 8)
}

pub open spec fn u32_le(v: u32) -> Seq<u8> {
    seq![
        (v & 0xFF) as u8,
        ((v >> 8) & 0xFF) as u8,
        ((v >> 16) & 0xFF) as u8,
        ((v >> 24) & 0xFF) as u8,
    ]
}

pub open spec fn u32_from_le(b0: u8, b1: u8, b2: u8, b3: u8) -> u32 {
    (b0 as u32) | ((b1 as u32) << 8) | ((b2 as u32) << 16) | ((b3 as u32) << 24)
}

/// Reading back the two bytes of a little-endian u16 yields the value.
pub proof fn lemma_u16_le_roundtrip(v: u16)
    ensures
        u16_from_le(u16_le(v)[0], u16_le(v)[1]) == v,
{
    assert((((v & 0xFF) as u8) as u16) | (((((v >> 8) & 0xFF) as u8) as u16) << 8) == v)
        by (bit_vector);
}

/// Encoding the value read from two bytes yields the same two bytes.
pub proof fn lemma_u16_le_inverse(b0: u8, b1: u8)
    ensures
        u16_le(u16_from_le(b0, b1)) =~= seq![b0, b1],
{
    let v = u16_from_le(b0, b1);
    assert(((((b0 as u16) | ((b1 as u16) << 8)) & 0xFF) as u8) == b0) by (bit_vector);
    assert((((((b0 as u16) | ((b1 as u16) << 8)) >> 8) & 0xFF) as u8) == b1) by (bit_vector);
}

/// Encoding the value read from four bytes yields the same four bytes.
pub proof fn lemma_u32_le_inverse(b0: u8, b1: u8, b2: u8, b3: u8)
    ensures
        u32_le(u32_from_le(b0, b1, b2, b3)) =~= seq![b0, b1, b2, b3],
{
    assert({
        let v = (b0 as u32) | ((b1 as u32) << 8) | ((b2 as u32) << 16) | ((b3 as u32) << 24);
        ((v & 0xFF) as u8) == b0 && (((v >> 8) & 0xFF) as u8) == b1 && (((v >> 16) & 0xFF) as u8)
            == b2 && (((v >> 24) & 0xFF) as u8) == b3
    }) by (bit_vector);
}

/// Reading back the four bytes of a little-endian u32 yields the value.
pub proof fn lemma_u32_le_roundtrip(v: u32)
    ensures
        u32_from_le(u32_le(v)[0], u32_le(v)[1], u32_le(v)[2], u32_le(v)[3]) == v,
{
    assert((((v & 0xFF) as u8) as u32) | (((((v >> 8) & 0xFF) as u8) as u32) << 8)
        | (((((v >> 16) & 0xFF) as u8) as u32) << 16) | (((((v >> 24) & 0xFF) as u8) as u32)
        << 24) == v) by (bit_vector);
}

/// The byte sequence a string is written as: u16 little-endian byte count,
/// then the UTF-8 bytes themselves.
pub open spec fn string_encoding(s: Seq<char>) -> Seq<u8> {
    u16_le(vstd::utf8::encode_utf8(s).len() as u16) + vstd::utf8::encode_utf8(s)
}

/// A string fits behind a u16 length prefix.
pub open spec fn string_len_ok(s: Seq<char>) -> bool {
    vstd::utf8::encode_utf8(s).len() <= 65535
}

/// Round trip of the string layer: for every string whose UTF-8 form fits a
/// u16 length prefix, the encoding that `put_string` appends reads back, by
/// the steps `get_string` takes, as the same characters.
pub proof fn lemma_string_roundtrip(s: Seq<char>)
    requires
        string_len_ok(s),
    ensures
        ({
            let b = string_encoding(s);
            let n = u16_from_le(b[0], b[1]) as int;
            &&& b.len() == 2 + vstd::utf8::encode_utf8(s).len()
            &&& n == vstd::utf8::encode_utf8(s).len()
            &&& vstd::utf8::valid_utf8(b.subrange(2, 2 + n))
            &&& vstd::utf8::decode_utf8(b.subrange(2, 2 + n)) == s
        }),
{
    let eb = vstd::utf8::encode_utf8(s);
    let b = string_encoding(s);
    assert(b[0] == u16_le(eb.len() as u16)[0] && b[1] == u16_le(eb.len() as u16)[1]);
    lemma_u16_le_roundtrip(eb.len() as u16);
    assert(b.subrange(2, 2 + eb.len() as int) =~= eb);
    vstd::utf8::encode_utf8_valid_utf8(s);
    vstd::utf8::encode_utf8_decode_utf8(s);
}

/// Round trip of the fixed-precision decimal layer: the five bytes that
/// `put_double` appends read back, by the steps `get_double` takes, as the
/// same precision and scaled value.
pub proof fn lemma_double_roundtrip(mantissa: i64, precision: u8)
    requires
        -0x7FFF_FFFF <= mantissa <= 0x8000_0000,
    ensures
        ({
            let b = seq![precision] + u32_le((mantissa + 0x7FFF_FFFF) as u32);
            &&& b.len() == 5
            &&& b[0] == precision
            &&& u32_from_le(b[1], b[2], b[3], b[4]) - 0x7FFF_FFFF == mantissa
        }),
{
    let v = (mantissa + 0x7FFF_FFFF) as u32;
    let b = seq![precision] + u32_le(v);
    assert(b[1] == u32_le(v)[0] && b[2] == u32_le(v)[1] && b[3] == u32_le(v)[2] && b[4] == u32_le(
        v,
    )[3]);
    lemma_u32_le_roundtrip(v);
}

/// One length-prefixed string inside `s`, starting at `at`: the offset just
/// past it on success, or why reading it fails, mirroring `get_string` step
/// for step.
pub open spec fn spec_string_step(s: Seq<u8>, at: int) -> Result<int, PacketError> {
    if s.len() - at < 2 {
        Err(PacketError::Truncated)
    } else {
        let n = u16_from_le(s[at], s[at + 1]) as int;
        if s.len() - at - 2 < n {
            Err(PacketError::Truncated)
        } else if !vstd::utf8::valid_utf8(s.subrange(at + 2, at + 2 + n)) {
            Err(PacketError::InvalidString)
        } else {
            Ok(at + 2 + n)
        }
    }
}

/// A string's own encoding, placed at `at`, always reads back: the step
/// lands just past it.
pub proof fn lemma_string_step_of_encoding(s: Seq<u8>, at: int, sv: Seq<char>)
    requires
        string_len_ok(sv),
        0 <= at,
        at + string_encoding(sv).len() <= s.len(),
        s.subrange(at, at + string_encoding(sv).len()) == string_encoding(sv),
    ensures
        spec_string_step(s, at) == Ok::<int, PacketError>(at + string_encoding(sv).len()),
{
    let enc = vstd::utf8::encode_utf8(sv);
    let chunk = string_encoding(sv);
    assert(s[at] == chunk[0] && s[at + 1] == chunk[1]);
    assert(chunk[0] == u16_le(enc.len() as u16)[0] && chunk[1] == u16_le(enc.len() as u16)[1]);
    lemma_u16_le_roundtrip(enc.len() as u16);
    assert(u16_from_le(s[at], s[at + 1]) == enc.len());
    assert forall|j: int| 0 <= j < chunk.len() implies s[at + j] == chunk[j] by {
        assert(s.subrange(at, at + string_encoding(sv).len() as int)[j] == chunk[j]);
    }
    assert forall|i: int| 0 <= i < enc.len() implies s.subrange(
        at + 2,
        at + 2 + enc.len() as int,
    )[i] == enc[i] by {
        assert(s[at + 2 + i] == chunk[2 + i]);
        assert(chunk[2 + i] == enc[i]);
    }
    assert(s.subrange(at + 2, at + 2 + enc.len() as int) =~= enc);
    vstd::utf8::encode_utf8_valid_utf8(sv);
}

/// Reading a string at `at` is reading it at the front of the tail that
/// starts there: the same outcome, with the offset shifted.
pub proof fn lemma_string_step_shift(s: Seq<u8>, at: int)
    requires
        0 <= at <= s.len(),
    ensures
        match (spec_string_step(s, at), spec_string_step(s.skip(at), 0)) {
            (Ok(o1), Ok(o2)) => o1 == at + o2,
            (Err(e1), Err(e2)) => e1 == e2,
            _ => false,
        },
{
    let r = s.skip(at);
    assert(r.len() == s.len() - at);
    if s.len() - at >= 2 {
        assert(r[0] == s[at] && r[1] == s[at + 1]);
        let n = u16_from_le(s[at], s[at + 1]) as int;
        if s.len() - at - 2 >= n {
            assert(s.subrange(at + 2, at + 2 + n) =~= r.subrange(2, 2 + n));
        }
    }
}

/// The bytes a string was read from are exactly the bytes it writes back as:
/// the length prefix re-encodes to the same two bytes, and the body is the
/// string's own encoding.
pub proof fn lemma_string_consumed(s: Seq<u8>, sv: Seq<char>)
    requires
        s.len() >= 2,
        ({
            let n = u16_from_le(s[0], s[1]) as int;
            s.len() >= 2 + n && vstd::utf8::encode_utf8(sv) == s.subrange(2, 2 + n)
        }),
    ensures
        ({
            let n = u16_from_le(s[0], s[1]) as int;
            s.take(2 + n) == string_encoding(sv) && string_len_ok(sv)
        }),
{
    let n = u16_from_le(s[0], s[1]) as int;
    lemma_u16_le_inverse(s[0], s[1]);
    assert(vstd::utf8::encode_utf8(sv).len() == n);
    assert(u16_le(n as u16) =~= seq![s[0], s[1]]);
    assert(s.take(2 + n) =~= u16_le(n as u16) + s.subrange(2, 2 + n));
}

/// A growable byte buffer with a read cursor: writes append at the end,
/// reads consume from the cursor forward, as a network byte queue does.
pub struct ByteBuf {
    data: Vec<u8>,
    pos: usize,
}

impl ByteBuf {
    /// Every byte the buffer holds, consumed or not.
    pub closed spec fn bytes(&self) -> Seq<u8> {
        self.data@
    }

    /// The read cursor: how many bytes have been consumed.
    pub closed spec fn rpos(&self) -> int {
        self.pos as int
    }

    /// The cursor never passes the end of the data.
    pub open spec fn wf(&self) -> bool {
        0 <= self.rpos() <= self.bytes().len()
    }

    /// The bytes not yet consumed.
    pub open spec fn rem(&self) -> Seq<u8> {
        self.bytes().skip(self.rpos())
    }

    pub fn new() -> (r: ByteBuf)
        ensures
            r.wf(),
            r.bytes() == Seq::<u8>::empty(),
            r.rpos() == 0,
    {
        ByteBuf { data: Vec::new(), pos: 0 }
    }

    pub fn from_vec(v: Vec<u8>) -> (r: ByteBuf)
        ensures
            r.wf(),
            r.bytes() == v@,
            r.rpos() == 0,
    {
        ByteBuf { data: v, pos: 0 }
    }

    /// Hands out the written bytes, dropping whatever was already consumed.
    pub fn into_vec(self) -> (r: Vec<u8>)
        requires
            self.rpos() == 0,
        ensures
            r@ == self.bytes(),
    {
        self.data
    }

    pub fn remaining(&self) -> (r: usize)
        requires
            self.wf(),
        ensures
            r == self.rem().len(),
    {
        self.data.len() - self.pos
    }

    pub fn peek_u8(&self) -> (r: Result<u8, PacketError>)
        requires
            self.wf(),
        ensures
            match r {
                Ok(b) => self.rem().len() > 0 && b == self.rem()[0],
                Err(e) => e == PacketError::Truncated && self.rem().len() == 0,
            },
    {
        if self.pos < self.data.len() {
            Ok(self.data[self.pos])
        } else {
            Err(PacketError::Truncated)
        }
    }

    pub fn get_u8(&mut self) -> (r: Result<u8, PacketError>)
        requires
            old(self).wf(),
        ensures
            final(self).wf(),
            final(self).bytes() == old(self).bytes(),
            match r {
                Ok(b) => old(self).rem().len() > 0 && b == old(self).rem()[0] && final(self).rpos() == old(self).rpos() + 1,
                Err(e) => e == PacketError::Truncated && old(self).rem().len() == 0 && final(self).rpos() == old(self).rpos(),
            },
    {
        if self.pos < self.data.len() {
            let b = self.data[self.pos];
            self.pos = self.pos + 1;
            Ok(b)
        } else {
            Err(PacketError::Truncated)
        }
    }

    pub fn get_u16_le(&mut self) -> (r: Result<u16, PacketError>)
        requires
            old(self).wf(),
        ensures
            final(self).wf(),
            final(self).bytes() == old(self).bytes(),
            match r {
                Ok(v) => old(self).rem().len() >= 2 && v == u16_from_le(
                    old(self).rem()[0],
                    old(self).rem()[1],
                ) && final(self).rpos() == old(self).rpos() + 2,
                Err(e) => e == PacketError::Truncated && old(self).rem().len() < 2 && final(self).rpos() == old(self).rpos(),
            },
    {
        if self.data.len() - self.pos >= 2 {
            let b0 = self.data[self.pos];
            let b1 = self.data[self.pos + 1];
            self.pos = self.pos + 2;
            Ok((b0 as u16) | ((b1 as u16) << 8))
        } else {
            Err(PacketError::Truncated)
        }
    }

    pub fn get_u32_le(&mut self) -> (r: Result<u32, PacketError>)
        requires
            old(self).wf(),
        ensures
            final(self).wf(),
            final(self).bytes() == old(self).bytes(),
            match r {
                Ok(v) => old(self).rem().len() >= 4 && v == u32_from_le(
                    old(self).rem()[0],
                    old(self).rem()[1],
                    old(self).rem()[2],
                    old(self).rem()[3],
                ) && final(self).rpos() == old(self).rpos() + 4,
                Err(e) => e == PacketError::Truncated && old(self).rem().len() < 4 && final(self).rpos() == old(self).rpos(),
            },
    {
        if self.data.len() - self.pos >= 4 {
            let b0 = self.data[self.pos];
            let b1 = self.data[self.pos + 1];
            let b2 = self.data[self.pos + 2];
            let b3 = self.data[self.pos + 3];
            self.pos = self.pos + 4;
            Ok((b0 as u32) | ((b1 as u32) << 8) | ((b2 as u32) << 16) | ((b3 as u32) << 24))
        } else {
            Err(PacketError::Truncated)
        }
    }

    /// Detaches the next `n` unread bytes.
    pub fn get_bytes(&mut self, n: usize) -> (r: Result<Vec<u8>, PacketError>)
        requires
            old(self).wf(),
        ensures
            final(self).wf(),
            final(self).bytes() == old(self).bytes(),
            match r {
                Ok(v) => old(self).rem().len() >= n && v@ == old(self).rem().take(n as int)
                    && final(self).rpos() == old(self).rpos() + n,
                Err(e) => e == PacketError::Truncated && old(self).rem().len() < n && final(self).rpos() == old(self).rpos(),
            },
    {
        if self.data.len() - self.pos < n {
            return Err(PacketError::Truncated);
        }
        let mut out: Vec<u8> = Vec::new();
        let mut i: usize = 0;
        while i < n
            invariant
                self.wf(),
                self.bytes() == old(self).bytes(),
                self.rpos() == old(self).rpos(),
                old(self).rem().len() >= n,
                self.rpos() + n <= self.bytes().len(),
                i <= n,
                out@ =~= old(self).rem().take(i as int),
            decreases n - i,
        {
            proof {
                assert(self.pos + i < self.data.len());
            }
            out.push(self.data[self.pos + i]);
            i = i + 1;
        }
        self.pos = self.pos + n;
        assert(out@ =~= old(self).rem().take(n as int));
        Ok(out)
    }

    /// Skips the next `n` unread bytes.
    pub fn advance(&mut self, n: usize) -> (r: Result<(), PacketError>)
        requires
            old(self).wf(),
        ensures
            final(self).wf(),
            final(self).bytes() == old(self).bytes(),
            match r {
                Ok(()) => old(self).rem().len() >= n && final(self).rpos() == old(self).rpos()
                    + n,
                Err(e) => e == PacketError::Truncated && old(self).rem().len() < n && final(self).rpos() == old(self).rpos(),
            },
    {
        if self.data.len() - self.pos < n {
            Err(PacketError::Truncated)
        } else {
            self.pos = self.pos + n;
            Ok(())
        }
    }

    pub fn put_u8(&mut self, b: u8)
        requires
            old(self).wf(),
        ensures
            final(self).wf(),
            final(self).bytes() == old(self).bytes() + seq![b],
            final(self).rpos() == old(self).rpos(),
    {
        self.data.push(b);
        assert(self.data@ =~= old(self).data@ + seq![b]);
    }

    pub fn put_u16_le(&mut self, v: u16)
        requires
            old(self).wf(),
        ensures
            final(self).wf(),
            final(self).bytes() == old(self).bytes() + u16_le(v),
            final(self).rpos() == old(self).rpos(),
    {
        self.data.push((v & 0xFF) as u8);
        self.data.push(((v >> 8) & 0xFF) as u8);
        assert(self.data@ =~= old(self).data@ + u16_le(v));
    }

    pub fn put_u32_le(&mut self, v: u32)
        requires
            old(self).wf(),
        ensures
            final(self).wf(),
            final(self).bytes() == old(self).bytes() + u32_le(v),
            final(self).rpos() == old(self).rpos(),
    {
        self.data.push((v & 0xFF) as u8);
        self.data.push(((v >> 8) & 0xFF) as u8);
        self.data.push(((v >> 16) & 0xFF) as u8);
        self.data.push(((v >> 24) & 0xFF) as u8);
        assert(self.data@ =~= old(self).data@ + u32_le(v));
    }

    /// Appends a copy of the given bytes.
    pub fn put_bytes(&mut self, src: &Vec<u8>)
        requires
            old(self).wf(),
        ensures
            final(self).wf(),
            final(self).bytes() == old(self).bytes() + src@,
            final(self).rpos() == old(self).rpos(),
    {
        let n: usize = src.len();
        let mut i: usize = 0;
        while i < n
            invariant
                self.wf(),
                n == src@.len(),
                i <= n,
                self.rpos() == old(self).rpos(),
                self.bytes() =~= old(self).bytes() + src@.take(i as int),
            decreases n - i,
        {
            self.data.push(src[i]);
            i = i + 1;
            assert(self.data@ =~= old(self).data@ + src@.take(i as int));
        }
        assert(self.bytes() =~= old(self).bytes() + src@);
    }

    /// Writes a string as a u16 little-endian byte count and the UTF-8 bytes.
    pub fn put_string(&mut self, s: &str) -> (r: Result<(), PacketError>)
        requires
            old(self).wf(),
        ensures
            final(self).wf(),
            final(self).rpos() == old(self).rpos(),
            match r {
                Ok(()) => string_len_ok(s@) && final(self).bytes() == old(self).bytes()
                    + string_encoding(s@),
                Err(e) => e == PacketError::StringTooLong && !string_len_ok(s@) && final(self).bytes() == old(self).bytes(),
            },
    {
        let bytes: &[u8] = s.as_bytes();
        let n: usize = bytes.len();
        if n > 65535 {
            return Err(PacketError::StringTooLong);
        }
        self.put_u16_le(n as u16);
        let mut i: usize = 0;
        while i < n
            invariant
                self.wf(),
                n == vstd::utf8::encode_utf8(s@).len(),
                n <= 65535,
                bytes@ == vstd::utf8::encode_utf8(s@),
                i <= n,
                self.rpos() == old(self).rpos(),
                self.bytes() =~= old(self).bytes() + u16_le(n as u16) + bytes@.take(i as int),
            decreases n - i,
        {
            let b = bytes[i];
            self.data.push(b);
            i = i + 1;
            assert(self.data@ =~= old(self).data@ + u16_le(n as u16) + bytes@.take(i as int));
        }
        assert(self.bytes() =~= old(self).bytes() + string_encoding(s@));
        Ok(())
    }

    /// Reads a string written by `put_string`. The cursor passes the string's
    /// bytes even when they are not valid UTF-8, as the wire position of the
    /// next field does not depend on the string's contents.
    pub fn get_string(&mut self) -> (r: Result<String, PacketError>)
        requires
            old(self).wf(),
        ensures
            final(self).wf(),
            final(self).bytes() == old(self).bytes(),
            match r {
                Ok(s) => {
                    &&& old(self).rem().len() >= 2
                    &&& {
                        let n = u16_from_le(old(self).rem()[0], old(self).rem()[1]) as int;
                        let body = old(self).rem().subrange(2, 2 + n);
                        &&& old(self).rem().len() >= 2 + n
                        &&& vstd::utf8::valid_utf8(body)
                        &&& s@ == vstd::utf8::decode_utf8(body)
                        &&& vstd::utf8::encode_utf8(s@) == body
                        &&& final(self).rpos() == old(self).rpos() + 2 + n
                    }
                },
                Err(PacketError::Truncated) => {
                    &&& if old(self).rem().len() < 2 {
                        final(self).rpos() == old(self).rpos()
                    } else {
                        let n = u16_from_le(old(self).rem()[0], old(self).rem()[1]) as int;
                        old(self).rem().len() < 2 + n && final(self).rpos() == old(self).rpos()
                            + 2
                    }
                },
                Err(PacketError::InvalidString) => {
                    &&& old(self).rem().len() >= 2
                    &&& {
                        let n = u16_from_le(old(self).rem()[0], old(self).rem()[1]) as int;
                        &&& old(self).rem().len() >= 2 + n
                        &&& !vstd::utf8::valid_utf8(old(self).rem().subrange(2, 2 + n))
                        &&& final(self).rpos() == old(self).rpos() + 2 + n
                    }
                },
                Err(_) => false,
            },
    {
        let n_res = self.get_u16_le();
        let n: u16 = match n_res {
            Ok(v) => v,
            Err(e) => {
                return Err(e);
            },
        };
        let body_res = self.get_bytes(n as usize);
        let body: Vec<u8> = match body_res {
            Ok(v) => v,
            Err(e) => {
                return Err(e);
            },
        };
        proof {
            assert(body@ =~= old(self).rem().subrange(2, 2 + n as int));
        }
        match vec_to_string(body) {
            Some(s) => {
                proof {
                    vstd::utf8::decode_utf8_encode_utf8(old(self).rem().subrange(2, 2 + n as int));
                }
                Ok(s)
            },
            None => Err(PacketError::InvalidString),
        }
    }

    /// Writes a fixed-precision decimal: one precision byte, then the scaled
    /// value shifted by 2^31 - 1 as a u32 little-endian.
    pub fn put_double(&mut self, mantissa: i64, precision: u8)
        requires
            old(self).wf(),
            -0x7FFF_FFFF <= mantissa <= 0x8000_0000,
        ensures
            final(self).wf(),
            final(self).rpos() == old(self).rpos(),
            final(self).bytes() == old(self).bytes() + seq![precision] + u32_le(
                (mantissa + 0x7FFF_FFFF) as u32,
            ),
    {
        self.put_u8(precision);
        self.put_u32_le((mantissa + 0x7FFF_FFFF) as u32);
        assert(self.bytes() =~= old(self).bytes() + seq![precision] + u32_le(
            (mantissa + 0x7FFF_FFFF) as u32,
        ));
    }

    /// Reads a fixed-precision decimal back as its precision byte and its
    /// scaled value; the decimal it denotes is `mantissa / 10^precision`.
    pub fn get_double(&mut self) -> (r: Result<(u8, i64), PacketError>)
        requires
            old(self).wf(),
        ensures
            final(self).wf(),
            final(self).bytes() == old(self).bytes(),
            match r {
                Ok(pm) => {
                    &&& old(self).rem().len() >= 5
                    &&& pm.0 == old(self).rem()[0]
                    &&& pm.1 == u32_from_le(
                        old(self).rem()[1],
                        old(self).rem()[2],
                        old(self).rem()[3],
                        old(self).rem()[4],
                    ) - 0x7FFF_FFFF
                    &&& final(self).rpos() == old(self).rpos() + 5
                },
                Err(e) => e == PacketError::Truncated && old(self).rem().len() < 5 && final(self).rpos() == old(self).rpos(),
            },
    {
        if self.data.len() - self.pos < 5 {
            return Err(PacketError::Truncated);
        }
        let p_res = self.get_u8();
        let p: u8 = match p_res {
            Ok(v) => v,
            Err(_) => {
                return Err(PacketError::Truncated);
            },
        };
        let v_res = self.get_u32_le();
        let v: u32 = match v_res {
            Ok(v) => v,
            Err(_) => {
                return Err(PacketError::Truncated);
            },
        };
        Ok((p, (v as i64) - 0x7FFF_FFFF))
    }
}

/// A fresh byte vector holding the same bytes.
pub fn copy_bytes(v: &Vec<u8>) -> (r: Vec<u8>)
    ensures
        r@ == v@,
{
    let n: usize = v.len();
    let mut out: Vec<u8> = Vec::new();
    let mut i: usize = 0;
    while i < n
        invariant
            n == v@.len(),
            i <= n,
            out@ =~= v@.take(i as int),
        decreases n - i,
    {
        out.push(v[i]);
        i = i + 1;
    }
    proof {
        assert(v@.take(n as int) =~= v@);
    }
    out
}

/// Relies on `String::from_utf8`: it succeeds exactly on valid UTF-8, and the
/// resulting string's characters are the decoding of the given bytes.
#[verifier::external_body]
fn vec_to_string(v: Vec<u8>) -> (r: Option<String>)
    ensures
        match r {
            Some(s) => vstd::utf8::valid_utf8(v@) && s@ == vstd::utf8::decode_utf8(v@),
            None => !vstd::utf8::valid_utf8(v@),
        },
{
    String::from_utf8(v).ok()
}

} // verus!
