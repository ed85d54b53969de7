use rustia_proxy::buffer::ByteBuf;
use rustia_proxy::checksum::{adler32_hash, frame_checksum_of};
use rustia_proxy::codec::{FrameType, TibiaCodec, MAX_BODY_LENGTH};
use rustia_proxy::error::{CodecError, PacketError};
use rustia_proxy::xtea;

fn roundtrip(payload: Vec<u8>, ft: FrameType) -> Vec<u8> {
    let sender = TibiaCodec::new();
    let mut wire = ByteBuf::new();
    let mut sender = {
        let mut s = sender;
        s.set_frame_type(ft);
        s
    };
    sender.encode(&payload, &mut wire).expect("encode failed");
    let mut receiver = TibiaCodec::new();
    receiver.set_frame_type(ft);
    let got = receiver
        .decode(&mut wire)
        .expect("decode failed")
        .expect("decode wanted more input");
    assert_eq!(wire.remaining(), 0, "decode left bytes unconsumed");
    got
}

#[test]
fn raw_roundtrip() {
    let payload = vec![7u8, 1, 2, 3, 250];
    assert_eq!(roundtrip(payload.clone(), FrameType::Raw), payload);
}

#[test]
fn raw_roundtrip_empty() {
    let payload: Vec<u8> = vec![];
    assert_eq!(roundtrip(payload.clone(), FrameType::Raw), payload);
}

#[test]
fn length_prefixed_roundtrip() {
    let payload = vec![31u8, 0, 0, 0, 0, 23];
    assert_eq!(roundtrip(payload.clone(), FrameType::LengthPrefixed), payload);
}

#[test]
fn xtea_roundtrip() {
    let key = [0x11111111u32, 0x22222222, 0x33333333, 0x44444444];
    let payload = vec![29u8, 100, 200, 1, 2, 3, 4, 5, 6, 7, 8, 9];
    assert_eq!(roundtrip(payload.clone(), FrameType::XTEA(key)), payload);
}

#[test]
fn xtea_roundtrip_empty() {
    let key = [5u32, 6, 7, 8];
    let payload: Vec<u8> = vec![];
    assert_eq!(roundtrip(payload.clone(), FrameType::XTEA(key)), payload);
}

#[test]
fn empty_checksum_is_zero() {
    // The checksum over an empty covered region is the constant zero.
    assert_eq!(frame_checksum_of(&vec![]), 0);
    // A four-byte body holding just the zero checksum is a valid empty frame.
    let wire = vec![4u8, 0, 0, 0, 0, 0];
    let mut src = ByteBuf::from_vec(wire);
    let mut codec = TibiaCodec::new();
    let got = codec.decode(&mut src).expect("decode failed").expect("wanted more");
    assert_eq!(got, Vec::<u8>::new());
}

#[test]
fn adler_known_answer() {
    // RFC 1950 Adler-32 of "Wikipedia".
    let data = b"Wikipedia".to_vec();
    assert_eq!(adler32_hash(&data), 0x11E60398);
}

#[test]
fn header_boundary_accepted() {
    // A declared body length of exactly 24588 is accepted: the decoder asks
    // for more input instead of failing.
    assert_eq!(MAX_BODY_LENGTH, 24588);
    let wire = vec![0x0Cu8, 0x60];
    let mut src = ByteBuf::from_vec(wire);
    let mut codec = TibiaCodec::new();
    assert_eq!(codec.decode(&mut src), Ok(None));
    assert_eq!(src.remaining(), 0);
}

#[test]
fn header_boundary_rejected() {
    // 24589 is rejected, and nothing beyond the two header bytes is consumed.
    let wire = vec![0x0Du8, 0x60, 0xAA, 0xBB];
    let mut src = ByteBuf::from_vec(wire);
    let mut codec = TibiaCodec::new();
    assert_eq!(codec.decode(&mut src), Err(CodecError::OversizedFrame));
    assert_eq!(src.remaining(), 2);
}

#[test]
fn encode_oversize_rejected() {
    let codec = TibiaCodec::new();
    let payload = vec![0u8; 24585];
    let mut dst = ByteBuf::new();
    assert_eq!(codec.encode(&payload, &mut dst), Err(CodecError::OversizedFrame));
    // One byte less fits exactly.
    let payload = vec![0u8; 24584];
    assert_eq!(codec.encode(&payload, &mut dst), Ok(()));
    let wire = dst.into_vec();
    assert_eq!(&wire[0..2], &[0x0C, 0x60]);
}

#[test]
fn xtea_misaligned_rejected() {
    // A frame whose covered region is not a whole number of blocks is
    // refused in ciphered mode, once its checksum has been verified.
    let region = vec![1u8, 2, 3, 4, 5];
    let ck = frame_checksum_of(&region);
    let mut wire = vec![9u8, 0];
    wire.extend_from_slice(&ck.to_le_bytes());
    wire.extend_from_slice(&region);
    let mut src = ByteBuf::from_vec(wire);
    let mut codec = TibiaCodec::new();
    codec.set_frame_type(FrameType::XTEA([1, 2, 3, 4]));
    assert_eq!(codec.decode(&mut src), Err(CodecError::XteaMisaligned));
}

#[test]
fn truncated_inner_rejected() {
    // An inner length larger than what remains of the body is refused.
    let region = vec![10u8, 0];
    let ck = frame_checksum_of(&region);
    let mut wire = vec![6u8, 0];
    wire.extend_from_slice(&ck.to_le_bytes());
    wire.extend_from_slice(&region);
    let mut src = ByteBuf::from_vec(wire);
    let mut codec = TibiaCodec::new();
    codec.set_frame_type(FrameType::LengthPrefixed);
    assert_eq!(codec.decode(&mut src), Err(CodecError::TruncatedInner));
}

#[test]
fn checksum_mismatch_on_any_flip() {
    // Flipping any single byte of a valid frame outside the header makes
    // the decoder fail with a checksum mismatch.
    let payload = vec![1u8, 2, 3, 4, 5, 6, 7, 8, 9, 10];
    let codec = TibiaCodec::new();
    let mut dst = ByteBuf::new();
    codec.encode(&payload, &mut dst).unwrap();
    let wire = dst.into_vec();
    for flip in 2..wire.len() {
        let mut bad = wire.clone();
        bad[flip] ^= 0x5A;
        let mut src = ByteBuf::from_vec(bad);
        let mut dec = TibiaCodec::new();
        assert_eq!(dec.decode(&mut src), Err(CodecError::ChecksumMismatch), "flip at {}", flip);
    }
}

#[test]
fn decode_across_split_input() {
    // Feeding the wire bytes in two pieces: the first call asks for more,
    // the second hands the frame out.
    let payload = vec![9u8, 9, 9];
    let codec = TibiaCodec::new();
    let mut dst = ByteBuf::new();
    codec.encode(&payload, &mut dst).unwrap();
    let wire = dst.into_vec();
    let mut src = ByteBuf::from_vec(wire[0..3].to_vec());
    let mut dec = TibiaCodec::new();
    assert_eq!(dec.decode(&mut src), Ok(None));
    src.put_bytes(&wire[3..].to_vec());
    assert_eq!(dec.decode(&mut src), Ok(Some(payload)));
}

#[test]
fn xtea_block_known_answer() {
    // The published 32-round XTEA vector for the all-zero key and block:
    // the halves become DEE9D4D8 and F7131ED9.
    let key = [0u32; 4];
    let c = xtea::encrypt_block(0, &key);
    assert_eq!(c, 0xF7131ED9_DEE9D4D8);
    assert_eq!(xtea::decrypt_block(c, &key), 0);
}

#[test]
fn xtea_block_roundtrip() {
    let key = [0xDEADBEEFu32, 1, 0x8000_0000, 42];
    for block in [0u64, 1, 0xFFFF_FFFF_FFFF_FFFF, 0x0123_4567_89AB_CDEF] {
        assert_eq!(xtea::decrypt_block(xtea::encrypt_block(block, &key), &key), block);
    }
}

#[test]
fn xtea_bytes_roundtrip() {
    let key = [1u32, 2, 3, 4];
    let data: Vec<u8> = (0u8..32).collect();
    let mut work = data.clone();
    xtea::encrypt(&mut work, &key);
    assert_ne!(work, data, "encryption left the bytes unchanged");
    xtea::decrypt(&mut work, &key);
    assert_eq!(work, data);
}

#[test]
fn wrong_key_garbles() {
    let payload = vec![1u8, 2, 3, 4, 5, 6];
    let mut enc = TibiaCodec::new();
    enc.set_frame_type(FrameType::XTEA([1, 2, 3, 4]));
    let mut dst = ByteBuf::new();
    enc.encode(&payload, &mut dst).unwrap();
    let mut dec = TibiaCodec::new();
    dec.set_frame_type(FrameType::XTEA([5, 6, 7, 8]));
    let got = dec.decode(&mut dst);
    // Under the wrong key the inner length is noise: the frame either fails
    // or comes out different.
    match got {
        Ok(Some(v)) => assert_ne!(v, payload),
        Ok(None) => panic!("decoder asked for more input on a whole frame"),
        Err(_) => (),
    }
}

#[test]
fn get_string_invalid_utf8() {
    let mut b = ByteBuf::from_vec(vec![2, 0, 0xFF, 0xFE]);
    assert_eq!(b.get_string(), Err(PacketError::InvalidString));
}

#[test]
fn get_string_truncated() {
    let mut b = ByteBuf::from_vec(vec![5, 0, b'a', b'b']);
    assert_eq!(b.get_string(), Err(PacketError::Truncated));
}

#[test]
fn put_string_too_long() {
    let mut b = ByteBuf::new();
    let s = "x".repeat(65536);
    assert_eq!(b.put_string(&s), Err(PacketError::StringTooLong));
    let s = "x".repeat(65535);
    assert_eq!(b.put_string(&s), Ok(()));
}

#[test]
fn integer_roundtrips() {
    let mut b = ByteBuf::new();
    b.put_u8(0xAB);
    b.put_u16_le(0x1234);
    b.put_u32_le(0xDEADBEEF);
    assert_eq!(b.peek_u8(), Ok(0xAB));
    assert_eq!(b.get_u8(), Ok(0xAB));
    assert_eq!(b.get_u16_le(), Ok(0x1234));
    assert_eq!(b.get_u32_le(), Ok(0xDEADBEEF));
    assert_eq!(b.get_u8(), Err(PacketError::Truncated));
}
