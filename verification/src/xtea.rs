use vstd::prelude::*;

verus! {

/// The round constant of the XTEA schedule.
pub open spec fn spec_delta() -> u32 {
    0x9E3779B9
}

/// The half-round mixing function shared by both schedule directions.
pub open spec fn spec_mix(v: u32, sum: u32, k: u32) -> u32 {
    (((v << 4) ^ (v >> 5)).wrapping_add(v)) ^ sum.wrapping_add(k)
}

pub open spec fn spec_key0(key: [u32; 4], sum: u32) -> u32 {
    key[(sum & 3) as int]
}

pub open spec fn spec_key1(key: [u32; 4], sum: u32) -> u32 {
    key[((sum >> 11) & 3) as int]
}

/// One forward round: mixes `v1` into `v0`, steps the sum, then mixes the new
/// `v0` into `v1`.
pub open spec fn spec_enc_step(st: (u32, u32, u32), key: [u32; 4]) -> (u32, u32, u32) {
    let v0 = st.0.wrapping_add(spec_mix(st.1, st.2, spec_key0(key, st.2)));
    let sum = st.2.wrapping_add(spec_delta());
    let v1 = st.1.wrapping_add(spec_mix(v0, sum, spec_key1(key, sum)));
    (v0, v1, sum)
}

/// One reverse round: undoes `spec_enc_step` when started at the sum that
/// step ended with.
pub open spec fn spec_dec_step(st: (u32, u32, u32), key: [u32; 4]) -> (u32, u32, u32) {
    let v1 = st.1.wrapping_sub(spec_mix(st.0, st.2, spec_key1(key, st.2)));
    let sum = st.2.wrapping_sub(spec_delta());
    let v0 = st.0.wrapping_sub(spec_mix(v1, sum, spec_key0(key, sum)));
    (v0, v1, sum)
}

pub open spec fn spec_enc_rounds(n: nat, st: (u32, u32, u32), key: [u32; 4]) -> (u32, u32, u32)
    decreases n,
{
    if n == 0 {
        st
    } else {
        spec_enc_step(spec_enc_rounds((n - 1) as nat, st, key), key)
    }
}

pub open spec fn spec_dec_rounds(n: nat, st: (u32, u32, u32), key: [u32; 4]) -> (u32, u32, u32)
    decreases n,
{
    if n == 0 {
        st
    } else {
        spec_dec_step(spec_dec_rounds((n - 1) as nat, st, key), key)
    }
}

/// The low half of a block, as the cipher sees it.
pub open spec fn spec_block_v0(b: u64) -> u32 {
    (b & 0xFFFF_FFFF) as u32
}

/// The high half of a block.
pub open spec fn spec_block_v1(b: u64) -> u32 {
    (b >> 32) as u32
}

pub open spec fn spec_block_of(v0: u32, v1: u32) -> u64 {
    ((v1 as u64) << 32) | (v0 as u64)
}

/// The 32-round XTEA encryption of one 64-bit block.
pub open spec fn spec_encrypt_block(b: u64, key: [u32; 4]) -> u64 {
    let st = spec_enc_rounds(32, (spec_block_v0(b), spec_block_v1(b), 0), key);
    spec_block_of(st.0, st.1)
}

/// The 32-round XTEA decryption of one 64-bit block. The starting sum is
/// 32 wrapped additions of the round constant.
pub open spec fn spec_decrypt_block(b: u64, key: [u32; 4]) -> u64 {
    let st = spec_dec_rounds(32, (spec_block_v0(b), spec_block_v1(b), 0xC6EF3720), key);
    spec_block_of(st.0, st.1)
}

proof fn lemma_wrap_inverse(a: u32, x: u32)
    ensures
        a.wrapping_add(x).wrapping_sub(x) == a,
        a.wrapping_sub(x).wrapping_add(x) == a,
{
}

/// A reverse round undoes a forward round.
proof fn lemma_step_inverse(st: (u32, u32, u32), key: [u32; 4])
    ensures
        spec_dec_step(spec_enc_step(st, key), key) == st,
{
    let e = spec_enc_step(st, key);
    lemma_wrap_inverse(st.1, spec_mix(e.0, e.2, spec_key1(key, e.2)));
    lemma_wrap_inverse(st.2, spec_delta());
    lemma_wrap_inverse(st.0, spec_mix(st.1, st.2, spec_key0(key, st.2)));
}

/// Rounds can be peeled from the front as well as from the back.
proof fn lemma_enc_shift(n: nat, st: (u32, u32, u32), key: [u32; 4])
    ensures
        spec_enc_rounds(n + 1, st, key) == spec_enc_rounds(n, spec_enc_step(st, key), key),
    decreases n,
{
    if n > 0 {
        lemma_enc_shift((n - 1) as nat, st, key);
        assert(spec_enc_rounds(n, st, key) == spec_enc_rounds(
            (n - 1) as nat,
            spec_enc_step(st, key),
            key,
        ));
        assert(spec_enc_rounds(n + 1, st, key) == spec_enc_step(spec_enc_rounds(n, st, key), key));
        assert(spec_enc_rounds(n, spec_enc_step(st, key), key) == spec_enc_step(
            spec_enc_rounds((n - 1) as nat, spec_enc_step(st, key), key),
            key,
        ));
    } else {
        assert(spec_enc_rounds(1, st, key) == spec_enc_step(spec_enc_rounds(0, st, key), key));
    }
}

/// Running the reverse schedule for as many rounds as the forward schedule
/// ran returns the starting state.
proof fn lemma_dec_undoes_enc(n: nat, st: (u32, u32, u32), key: [u32; 4])
    ensures
        spec_dec_rounds(n, spec_enc_rounds(n, st, key), key) == st,
    decreases n,
{
    if n > 0 {
        let st1 = spec_enc_step(st, key);
        lemma_enc_shift((n - 1) as nat, st, key);
        lemma_dec_undoes_enc((n - 1) as nat, st1, key);
        lemma_step_inverse(st, key);
    }
}

/// Decrypting an encrypted block returns the block.
pub proof fn lemma_block_roundtrip(b: u64, key: [u32; 4])
    ensures
        spec_decrypt_block(spec_encrypt_block(b, key), key) == b,
{
    let st0 = (spec_block_v0(b), spec_block_v1(b), 0u32);
    let e = spec_enc_rounds(32, st0, key);
    assert(e.2 == 0xC6EF3720u32) by {
        lemma_enc_sum(32, st0, key);
        reveal_with_fuel(sum_after, 33);
        assert(sum_after(32, 0u32) == 0xC6EF3720u32);
    }
    let c = spec_block_of(e.0, e.1);
    assert(spec_block_v0(c) == e.0 && spec_block_v1(c) == e.1) by {
        lemma_block_halves(e.0, e.1);
    }
    lemma_dec_undoes_enc(32, st0, key);
    assert(spec_block_of(spec_block_v0(b), spec_block_v1(b)) == b) by {
        lemma_block_join(b);
    }
}

/// The sum component depends only on the round count.
proof fn lemma_enc_sum(n: nat, st: (u32, u32, u32), key: [u32; 4])
    ensures
        spec_enc_rounds(n, st, key).2 == sum_after(n, st.2),
    decreases n,
{
    if n > 0 {
        lemma_enc_sum((n - 1) as nat, st, key);
    }
}

pub open spec fn sum_after(n: nat, sum: u32) -> u32
    decreases n,
{
    if n == 0 {
        sum
    } else {
        sum_after((n - 1) as nat, sum).wrapping_add(spec_delta())
    }
}

proof fn lemma_block_halves(v0: u32, v1: u32)
    ensures
        spec_block_v0(spec_block_of(v0, v1)) == v0,
        spec_block_v1(spec_block_of(v0, v1)) == v1,
{
    assert(((((v1 as u64) << 32) | (v0 as u64)) & 0xFFFF_FFFF) as u32 == v0 && ((((v1 as u64)
        << 32) | (v0 as u64)) >> 32) as u32 == v1) by (bit_vector);
}

proof fn lemma_block_join(b: u64)
    ensures
        spec_block_of(spec_block_v0(b), spec_block_v1(b)) == b,
{
    assert(((((b >> 32) as u32) as u64) << 32) | (((b & 0xFFFF_FFFF) as u32) as u64) == b)
        by (bit_vector);
}

proof fn lemma_key_index(sum: u32)
    ensures
        (sum & 3) < 4,
        ((sum >> 11) & 3) < 4,
{
    assert((sum & 3) < 4 && ((sum >> 11) & 3) < 4) by (bit_vector);
}

/// Encrypts one 64-bit block with the given four-word key: 32 rounds of the
/// published forward schedule.
pub fn encrypt_block(block: u64, key: &[u32; 4]) -> (r: u64)
    ensures
        r == spec_encrypt_block(block, *key),
{
    let mut v0: u32 = (block & 0xFFFF_FFFF) as u32;
    let mut v1: u32 = (block >> 32) as u32;
    let mut sum: u32 = 0;
    let mut i: usize = 0;
    while i < 32
        invariant
            i <= 32,
            (v0, v1, sum) == spec_enc_rounds(
                i as nat,
                (spec_block_v0(block), spec_block_v1(block), 0u32),
                *key,
            ),
        decreases 32 - i,
    {
        proof {
            lemma_key_index(sum);
        }
        v0 = v0.wrapping_add((((v1 << 4u32) ^ (v1 >> 5u32)).wrapping_add(v1)) ^ sum.wrapping_add(
            key[(sum & 3) as usize],
        ));
        sum = sum.wrapping_add(0x9E3779B9);
        proof {
            lemma_key_index(sum);
        }
        v1 = v1.wrapping_add((((v0 << 4u32) ^ (v0 >> 5u32)).wrapping_add(v0)) ^ sum.wrapping_add(
            key[((sum >> 11u32) & 3) as usize],
        ));
        i = i + 1;
    }
    ((v1 as u64) << 32u64) | (v0 as u64)
}

/// Decrypts one 64-bit block with the given four-word key: 32 rounds of the
/// published reverse schedule.
pub fn decrypt_block(block: u64, key: &[u32; 4]) -> (r: u64)
    ensures
        r == spec_decrypt_block(block, *key),
{
    let mut v0: u32 = (block & 0xFFFF_FFFF) as u32;
    let mut v1: u32 = (block >> 32) as u32;
    let mut sum: u32 = 0xC6EF3720;
    let mut i: usize = 0;
    while i < 32
        invariant
            i <= 32,
            (v0, v1, sum) == spec_dec_rounds(
                i as nat,
                (spec_block_v0(block), spec_block_v1(block), 0xC6EF3720u32),
                *key,
            ),
        decreases 32 - i,
    {
        proof {
            lemma_key_index(sum);
        }
        v1 = v1.wrapping_sub((((v0 << 4u32) ^ (v0 >> 5u32)).wrapping_add(v0)) ^ sum.wrapping_add(
            key[((sum >> 11u32) & 3) as usize],
        ));
        sum = sum.wrapping_sub(0x9E3779B9);
        proof {
            lemma_key_index(sum);
        }
        v0 = v0.wrapping_sub((((v1 << 4u32) ^ (v1 >> 5u32)).wrapping_add(v1)) ^ sum.wrapping_add(
            key[(sum & 3) as usize],
        ));
        i = i + 1;
    }
    ((v1 as u64) << 32u64) | (v0 as u64)
}

/// A block read from eight bytes, little-endian.
pub open spec fn u64_from_le8(s: Seq<u8>) -> u64 {
    (s[0] as u64) | ((s[1] as u64) << 8) | ((s[2] as u64) << 16) | ((s[3] as u64) << 24) | ((
    s[4] as u64) << 32) | ((s[5] as u64) << 40) | ((s[6] as u64) << 48) | ((s[7] as u64) << 56)
}

/// A block written as eight bytes, little-endian.
pub open spec fn u64_le8(v: u64) -> Seq<u8> {
    seq![
        (v & 0xFF) as u8,
        ((v >> 8) & 0xFF) as u8,
        ((v >> 16) & 0xFF) as u8,
        ((v >> 24) & 0xFF) as u8,
        ((v >> 32) & 0xFF) as u8,
        ((v >> 40) & 0xFF) as u8,
        ((v >> 48) & 0xFF) as u8,
        ((v >> 56) & 0xFF) as u8,
    ]
}

pub proof fn lemma_u64_le8_roundtrip(v: u64)
    ensures
        u64_from_le8(u64_le8(v)) == v,
{
    assert((((v & 0xFF) as u8) as u64) | (((((v >> 8) & 0xFF) as u8) as u64) << 8) | (((((v >> 16)
        & 0xFF) as u8) as u64) << 16) | (((((v >> 24) & 0xFF) as u8) as u64) << 24) | (((((v >> 32)
        & 0xFF) as u8) as u64) << 32) | (((((v >> 40) & 0xFF) as u8) as u64) << 40) | (((((v >> 48)
        & 0xFF) as u8) as u64) << 48) | (((((v >> 56) & 0xFF) as u8) as u64) << 56) == v)
        by (bit_vector);
}

pub proof fn lemma_u64_le8_inverse(s: Seq<u8>)
    requires
        s.len() == 8,
    ensures
        u64_le8(u64_from_le8(s)) =~= s,
{
    let b0 = s[0];
    let b1 = s[1];
    let b2 = s[2];
    let b3 = s[3];
    let b4 = s[4];
    let b5 = s[5];
    let b6 = s[6];
    let b7 = s[7];
    let v = u64_from_le8(s);
    assert({
        let v = (b0 as u64) | ((b1 as u64) << 8) | ((b2 as u64) << 16) | ((b3 as u64) << 24) | ((
        b4 as u64) << 32) | ((b5 as u64) << 40) | ((b6 as u64) << 48) | ((b7 as u64) << 56);
        ((v & 0xFF) as u8) == b0 && (((v >> 8) & 0xFF) as u8) == b1 && (((v >> 16) & 0xFF) as u8)
            == b2 && (((v >> 24) & 0xFF) as u8) == b3 && (((v >> 32) & 0xFF) as u8) == b4 && (((v
            >> 40) & 0xFF) as u8) == b5 && (((v >> 48) & 0xFF) as u8) == b6 && (((v >> 56)
            & 0xFF) as u8) == b7
    }) by (bit_vector);
}

/// Block-wise XTEA over a byte sequence, little-endian within each block.
pub open spec fn spec_encrypt_bytes(s: Seq<u8>, key: [u32; 4]) -> Seq<u8>
    decreases s.len(),
{
    if s.len() < 8 {
        s
    } else {
        u64_le8(spec_encrypt_block(u64_from_le8(s.take(8)), key)) + spec_encrypt_bytes(
            s.skip(8),
            key,
        )
    }
}

pub open spec fn spec_decrypt_bytes(s: Seq<u8>, key: [u32; 4]) -> Seq<u8>
    decreases s.len(),
{
    if s.len() < 8 {
        s
    } else {
        u64_le8(spec_decrypt_block(u64_from_le8(s.take(8)), key)) + spec_decrypt_bytes(
            s.skip(8),
            key,
        )
    }
}

/// Block-wise encryption keeps the length.
pub proof fn lemma_encrypt_bytes_len(s: Seq<u8>, key: [u32; 4])
    ensures
        spec_encrypt_bytes(s, key).len() == s.len(),
    decreases s.len(),
{
    if s.len() >= 8 {
        lemma_encrypt_bytes_len(s.skip(8), key);
    }
}

/// Decrypting what was encrypted under the same key returns the plaintext.
/// This holds of every whole-block sequence and every key.
pub proof fn lemma_bytes_roundtrip(s: Seq<u8>, key: [u32; 4])
    requires
        s.len() % 8 == 0,
    ensures
        spec_decrypt_bytes(spec_encrypt_bytes(s, key), key) == s,
    decreases s.len(),
{
    if s.len() >= 8 {
        let head = s.take(8);
        let tail = s.skip(8);
        let cblock = u64_le8(spec_encrypt_block(u64_from_le8(head), key));
        let ctail = spec_encrypt_bytes(tail, key);
        let c = spec_encrypt_bytes(s, key);
        assert(c == cblock + ctail);
        lemma_encrypt_bytes_len(tail, key);
        assert(c.take(8) =~= cblock);
        assert(c.skip(8) =~= ctail);
        lemma_u64_le8_roundtrip(spec_encrypt_block(u64_from_le8(head), key));
        lemma_block_roundtrip(u64_from_le8(head), key);
        lemma_u64_le8_inverse(head);
        assert((tail.len() % 8) == 0) by {
            assert(tail.len() == s.len() - 8);
        }
        lemma_bytes_roundtrip(tail, key);
        assert(spec_decrypt_bytes(c, key) =~= s);
    } else {
        assert(s.len() == 0);
        assert(spec_encrypt_bytes(s, key) == s);
    }
}

/// Appending one whole block extends the block-wise encryption by that
/// block's encryption.
proof fn lemma_encrypt_bytes_snoc(s: Seq<u8>, b: Seq<u8>, key: [u32; 4])
    requires
        s.len() % 8 == 0,
        b.len() == 8,
    ensures
        spec_encrypt_bytes(s + b, key) == spec_encrypt_bytes(s, key) + u64_le8(
            spec_encrypt_block(u64_from_le8(b), key),
        ),
    decreases s.len(),
{
    if s.len() == 0 {
        assert(s + b =~= b);
        assert(b.take(8) =~= b);
        assert(b.skip(8) =~= Seq::<u8>::empty());
        assert(spec_encrypt_bytes(s, key) + u64_le8(spec_encrypt_block(u64_from_le8(b), key))
            =~= u64_le8(spec_encrypt_block(u64_from_le8(b), key)) + spec_encrypt_bytes(
            b.skip(8),
            key,
        ));
    } else {
        assert((s + b).take(8) =~= s.take(8));
        assert((s + b).skip(8) =~= s.skip(8) + b);
        assert((s.skip(8).len() % 8) == 0) by {
            assert(s.skip(8).len() == s.len() - 8);
        }
        lemma_encrypt_bytes_snoc(s.skip(8), b, key);
        assert(spec_encrypt_bytes(s + b, key) =~= spec_encrypt_bytes(s, key) + u64_le8(
            spec_encrypt_block(u64_from_le8(b), key),
        ));
    }
}

proof fn lemma_decrypt_bytes_snoc(s: Seq<u8>, b: Seq<u8>, key: [u32; 4])
    requires
        s.len() % 8 == 0,
        b.len() == 8,
    ensures
        spec_decrypt_bytes(s + b, key) == spec_decrypt_bytes(s, key) + u64_le8(
            spec_decrypt_block(u64_from_le8(b), key),
        ),
    decreases s.len(),
{
    if s.len() == 0 {
        assert(s + b =~= b);
        assert(b.take(8) =~= b);
        assert(b.skip(8) =~= Seq::<u8>::empty());
        assert(spec_decrypt_bytes(s, key) + u64_le8(spec_decrypt_block(u64_from_le8(b), key))
            =~= u64_le8(spec_decrypt_block(u64_from_le8(b), key)) + spec_decrypt_bytes(
            b.skip(8),
            key,
        ));
    } else {
        assert((s + b).take(8) =~= s.take(8));
        assert((s + b).skip(8) =~= s.skip(8) + b);
        assert((s.skip(8).len() % 8) == 0) by {
            assert(s.skip(8).len() == s.len() - 8);
        }
        lemma_decrypt_bytes_snoc(s.skip(8), b, key);
        assert(spec_decrypt_bytes(s + b, key) =~= spec_decrypt_bytes(s, key) + u64_le8(
            spec_decrypt_block(u64_from_le8(b), key),
        ));
    }
}

/// Encrypts a whole-block byte buffer in place, as the wire format applies
/// XTEA to a frame's covered region.
pub fn encrypt(data: &mut Vec<u8>, key: &[u32; 4])
    requires
        old(data)@.len() % 8 == 0,
    ensures
        final(data)@ == spec_encrypt_bytes(old(data)@, *key),
{
    let n: usize = data.len();
    let mut out: Vec<u8> = Vec::new();
    let mut i: usize = 0;
    while i < n
        invariant
            n == data@.len(),
            data@ == old(data)@,
            n % 8 == 0,
            i % 8 == 0,
            i <= n,
            out@ == spec_encrypt_bytes(data@.take(i as int), *key),
        decreases n - i,
    {
        proof {
            assert(i + 8 <= data.len());
        }
        let b0 = data[i];
        let b1 = data[i + 1];
        let b2 = data[i + 2];
        let b3 = data[i + 3];
        let b4 = data[i + 4];
        let b5 = data[i + 5];
        let b6 = data[i + 6];
        let b7 = data[i + 7];
        let block: u64 = (b0 as u64) | ((b1 as u64) << 8) | ((b2 as u64) << 16) | ((b3 as u64)
            << 24) | ((b4 as u64) << 32) | ((b5 as u64) << 40) | ((b6 as u64) << 48) | ((b7 as u64)
            << 56);
        let enc = encrypt_block(block, key);
        out.push((enc & 0xFF) as u8);
        out.push(((enc >> 8) & 0xFF) as u8);
        out.push(((enc >> 16) & 0xFF) as u8);
        out.push(((enc >> 24) & 0xFF) as u8);
        out.push(((enc >> 32) & 0xFF) as u8);
        out.push(((enc >> 40) & 0xFF) as u8);
        out.push(((enc >> 48) & 0xFF) as u8);
        out.push(((enc >> 56) & 0xFF) as u8);
        proof {
            let blk = data@.subrange(i as int, i + 8);
            assert(block == u64_from_le8(blk));
            lemma_encrypt_bytes_snoc(data@.take(i as int), blk, *key);
            assert(data@.take(i as int) + blk =~= data@.take(i + 8));
            assert(out@ =~= spec_encrypt_bytes(data@.take(i + 8), *key));
        }
        i = i + 8;
    }
    proof {
        assert(data@.take(n as int) =~= data@);
    }
    *data = out;
}

/// Decrypts a whole-block byte buffer in place.
pub fn decrypt(data: &mut Vec<u8>, key: &[u32; 4])
    requires
        old(data)@.len() % 8 == 0,
    ensures
        final(data)@ == spec_decrypt_bytes(old(data)@, *key),
{
    let n: usize = data.len();
    let mut out: Vec<u8> = Vec::new();
    let mut i: usize = 0;
    while i < n
        invariant
            n == data@.len(),
            data@ == old(data)@,
            n % 8 == 0,
            i % 8 == 0,
            i <= n,
            out@ == spec_decrypt_bytes(data@.take(i as int), *key),
        decreases n - i,
    {
        proof {
            assert(i + 8 <= data.len());
        }
        let b0 = data[i];
        let b1 = data[i + 1];
        let b2 = data[i + 2];
        let b3 = data[i + 3];
        let b4 = data[i + 4];
        let b5 = data[i + 5];
        let b6 = data[i + 6];
        let b7 = data[i + 7];
        let block: u64 = (b0 as u64) | ((b1 as u64) << 8) | ((b2 as u64) << 16) | ((b3 as u64)
            << 24) | ((b4 as u64) << 32) | ((b5 as u64) << 40) | ((b6 as u64) << 48) | ((b7 as u64)
            << 56);
        let dec = decrypt_block(block, key);
        out.push((dec & 0xFF) as u8);
        out.push(((dec >> 8) & 0xFF) as u8);
        out.push(((dec >> 16) & 0xFF) as u8);
        out.push(((dec >> 24) & 0xFF) as u8);
        out.push(((dec >> 32) & 0xFF) as u8);
        out.push(((dec >> 40) & 0xFF) as u8);
        out.push(((dec >> 48) & 0xFF) as u8);
        out.push(((dec >> 56) & 0xFF) as u8);
        proof {
            let blk = data@.subrange(i as int, i + 8);
            assert(block == u64_from_le8(blk));
            lemma_decrypt_bytes_snoc(data@.take(i as int), blk, *key);
            assert(data@.take(i as int) + blk =~= data@.take(i + 8));
            assert(out@ =~= spec_decrypt_bytes(data@.take(i + 8), *key));
        }
        i = i + 8;
    }
    proof {
        assert(data@.take(n as int) =~= data@);
    }
    *data = out;
}

} // verus!
