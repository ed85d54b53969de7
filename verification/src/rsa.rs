use vstd::prelude::*;

verus! {

/// The plaintext that the fixed RSA private key yields for a 128-byte
/// sealed block. It is a function of the block alone: the 1024-bit modulus
/// and private exponent are constants of the protocol.
pub uninterp spec fn rsa_plain_of(c: Seq<u8>) -> Seq<u8>;

/// Relies on `num_bigint::BigUint` (`parse_bytes`, `from_bytes_be`, `modpow`,
/// `to_bytes_be`): the block, read as a big-endian integer, is raised to the
/// fixed private exponent modulo the fixed modulus, and the result is written
/// back big-endian, left-padded with zeros to exactly 128 bytes. The modulus
/// is below 2^1024, so the result always fits.
#[verifier::external_body]
pub fn rsa_decrypt(data: &Vec<u8>) -> (r: Vec<u8>)
    requires
        data@.len() == 128,
    ensures
        r@ == rsa_plain_of(data@),
        r@.len() == 128,
{
    let d = num_bigint::BigUint::parse_bytes(
        b"428BD3B5346DAF71A761106F71A43102F8C857D6549C54660BB6378B52B0261399DE8CE648BAC410E2EA4E0A1CED1FAC2756331220CA6DB7AD7B5D440B7828865856E7AA6D8F45837FEEE9B4A3A0AA21322A1E2AB75B1825E786CF81A28A8A09A1E28519DB64FF9BAF311E850C2BFA1FB7B08A056CC337F7DF443761AEFE8D81",
        16,
    ).unwrap();
    let n = num_bigint::BigUint::parse_bytes(
        b"009B646903B45B07AC956568D87353BD7165139DD7940703B03E6DD079399661B4A837AA60561D7CCB9452FA0080594909882AB5BCA58A1A1B35F8B1059B72B1212611C6152AD3DBB3CFBEE7ADC142A75D3D75971509C321C5C24A5BD51FD460F01B4E15BEB0DE1930528A5D3F15C1E3CBF5C401D6777E10ACAAB33DBE8D5B7FF5",
        16,
    ).unwrap();
    let m = num_bigint::BigUint::from_bytes_be(&data[..]).modpow(&d, &n);
    let mb = m.to_bytes_be();
    let pad = 128 - mb.len();
    let mut out = vec![0u8; pad];
    out.extend_from_slice(&mb);
    out
}

} // verus!
