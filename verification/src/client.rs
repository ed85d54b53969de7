use vstd::prelude::*;

use crate::buffer::{ByteBuf, lemma_string_step_shift, spec_string_step, u16_from_le, u32_from_le};
use crate::error::PacketError;
use crate::rsa::{rsa_decrypt, rsa_plain_of};

verus! {

/// The four XTEA key words held at offsets 1 to 16 of an RSA plaintext.
pub open spec fn spec_key_words(p: Seq<u8>) -> [u32; 4] {
    [
        u32_from_le(p[1], p[2], p[3], p[4]),
        u32_from_le(p[5], p[6], p[7], p[8]),
        u32_from_le(p[9], p[10], p[11], p[12]),
        u32_from_le(p[13], p[14], p[15], p[16]),
    ]
}

/// The XTEA key sealed inside an account login payload: the 128-byte block
/// after the 21 header bytes, deciphered with the fixed RSA key.
pub open spec fn spec_account_login_key(payload: Seq<u8>) -> [u32; 4] {
    spec_key_words(rsa_plain_of(payload.subrange(21, 149)))
}

/// The XTEA key sealed inside a game login payload: the 128-byte block after
/// the 11 header bytes.
pub open spec fn spec_game_login_key(payload: Seq<u8>) -> [u32; 4] {
    spec_key_words(rsa_plain_of(payload.subrange(11, 139)))
}

/// The first client packet of a login session.
pub struct AccountLogin {
    pub client_os: u16,
    pub client_version: u16,
    pub protocol_version: u32,
    pub content_revision: u32,
    pub spr_signature: u32,
    pub pic_signature: u32,
    pub game_preview_state: u8,
    pub xtea_key: [u32; 4],
    pub account_name: String,
    pub password: String,
    pub auth_token: String,
}

/// What a successfully parsed account login says of the payload it was read
/// from: the plain header fields, then an RSA-sealed block holding a zero
/// byte, the XTEA key words and the credential strings, and a second sealed
/// block at the payload's end holding a zero byte and the auth token.
pub open spec fn account_login_parsed(s: Seq<u8>, v: AccountLogin) -> bool {
    let p1 = rsa_plain_of(s.subrange(21, 149));
    let p2 = rsa_plain_of(s.subrange(s.len() - 128, s.len() as int));
    let na = u16_from_le(p1[17], p1[18]) as int;
    let np = u16_from_le(p1[(19 + na) as int], p1[(20 + na) as int]) as int;
    let nt = u16_from_le(p2[1], p2[2]) as int;
    &&& s.len() >= 277
    &&& v.client_os == u16_from_le(s[0], s[1])
    &&& v.client_version == u16_from_le(s[2], s[3])
    &&& v.protocol_version == u32_from_le(s[4], s[5], s[6], s[7])
    &&& v.content_revision == u32_from_le(s[8], s[9], s[10], s[11])
    &&& v.spr_signature == u32_from_le(s[12], s[13], s[14], s[15])
    &&& v.pic_signature == u32_from_le(s[16], s[17], s[18], s[19])
    &&& v.game_preview_state == s[20]
    &&& p1[0] == 0
    &&& v.xtea_key == spec_key_words(p1)
    &&& 21 + na <= 128
    &&& vstd::utf8::valid_utf8(p1.subrange(19, 19 + na))
    &&& v.account_name@ == vstd::utf8::decode_utf8(p1.subrange(19, 19 + na))
    &&& 21 + na + np <= 128
    &&& vstd::utf8::valid_utf8(p1.subrange(21 + na, 21 + na + np))
    &&& v.password@ == vstd::utf8::decode_utf8(p1.subrange(21 + na, 21 + na + np))
    &&& p2[0] == 0
    &&& 3 + nt <= 128
    &&& vstd::utf8::valid_utf8(p2.subrange(3, 3 + nt))
    &&& v.auth_token@ == vstd::utf8::decode_utf8(p2.subrange(3, 3 + nt))
}

/// Why reading an account login payload fails, or `None` when it succeeds,
/// mirroring the reader's checks in their order: the fixed header and the
/// first sealed block must be present, the block's plaintext must start with
/// a zero byte and hold the key and both credential strings, and the
/// payload's last 128 bytes must decipher to a zero byte and the token.
pub open spec fn spec_account_login_error(s: Seq<u8>) -> Option<PacketError> {
    if s.len() < 149 {
        Some(PacketError::Truncated)
    } else {
        let p1 = rsa_plain_of(s.subrange(21, 149));
        if p1.len() < 1 {
            Some(PacketError::Truncated)
        } else if p1[0] != 0 {
            Some(PacketError::RsaCheckFailed)
        } else if p1.len() < 17 {
            Some(PacketError::Truncated)
        } else {
            match spec_string_step(p1, 17) {
                Err(e) => Some(e),
                Ok(o1) => match spec_string_step(p1, o1) {
                    Err(e) => Some(e),
                    Ok(_) => {
                        if s.len() < 277 {
                            Some(PacketError::Truncated)
                        } else {
                            let p2 = rsa_plain_of(s.subrange(s.len() - 128, s.len() as int));
                            if p2.len() < 1 {
                                Some(PacketError::Truncated)
                            } else if p2[0] != 0 {
                                Some(PacketError::RsaCheckFailed)
                            } else {
                                match spec_string_step(p2, 1) {
                                    Err(e) => Some(e),
                                    Ok(_) => None,
                                }
                            }
                        }
                    },
                },
            }
        }
    }
}

impl AccountLogin {
    /// Reads an account login payload. Success and each failure are decided
    /// exactly by `spec_account_login_error`; on success the whole payload
    /// is consumed, since the auth token block sits at its end.
    pub fn read_from(bb: &mut ByteBuf) -> (r: Result<AccountLogin, PacketError>)
        requires
            old(bb).wf(),
        ensures
            final(bb).wf(),
            final(bb).bytes() == old(bb).bytes(),
            match r {
                Ok(v) => {
                    &&& spec_account_login_error(old(bb).rem()) == None::<PacketError>
                    &&& account_login_parsed(old(bb).rem(), v)
                    &&& final(bb).rem().len() == 0
                },
                Err(e) => spec_account_login_error(old(bb).rem()) == Some(e),
            },
    {
        let ghost s = old(bb).rem();
        let client_os = match bb.get_u16_le() {
            Ok(v) => v,
            Err(e) => {
                proof {
                    assert(spec_account_login_error(s) == Some(PacketError::Truncated));
                }
                return Err(e);
            },
        };
        let client_version = match bb.get_u16_le() {
            Ok(v) => v,
            Err(e) => {
                proof {
                    assert(spec_account_login_error(s) == Some(PacketError::Truncated));
                }
                return Err(e);
            },
        };
        let protocol_version = match bb.get_u32_le() {
            Ok(v) => v,
            Err(e) => {
                proof {
                    assert(spec_account_login_error(s) == Some(PacketError::Truncated));
                }
                return Err(e);
            },
        };
        let content_revision = match bb.get_u32_le() {
            Ok(v) => v,
            Err(e) => {
                proof {
                    assert(spec_account_login_error(s) == Some(PacketError::Truncated));
                }
                return Err(e);
            },
        };
        let spr_signature = match bb.get_u32_le() {
            Ok(v) => v,
            Err(e) => {
                proof {
                    assert(spec_account_login_error(s) == Some(PacketError::Truncated));
                }
                return Err(e);
            },
        };
        let pic_signature = match bb.get_u32_le() {
            Ok(v) => v,
            Err(e) => {
                proof {
                    assert(spec_account_login_error(s) == Some(PacketError::Truncated));
                }
                return Err(e);
            },
        };
        let game_preview_state = match bb.get_u8() {
            Ok(v) => v,
            Err(e) => {
                proof {
                    assert(spec_account_login_error(s) == Some(PacketError::Truncated));
                }
                return Err(e);
            },
        };
        let c1 = match bb.get_bytes(128) {
            Ok(v) => v,
            Err(e) => {
                proof {
                    assert(spec_account_login_error(s) == Some(PacketError::Truncated));
                }
                return Err(e);
            },
        };
        proof {
            assert(c1@ =~= s.subrange(21, 149));
        }
        let p1_vec = rsa_decrypt(&c1);
        let mut p1 = ByteBuf::from_vec(p1_vec);
        let ghost p1s = p1.rem();
        proof {
            assert(p1s =~= rsa_plain_of(s.subrange(21, 149)));
        }
        let z1 = match p1.get_u8() {
            Ok(v) => v,
            Err(_) => {
                proof {
                    assert(false);
                }
                return Err(PacketError::Truncated);
            },
        };
        if z1 != 0 {
            proof {
                assert(spec_account_login_error(s) == Some(PacketError::RsaCheckFailed));
            }
            return Err(PacketError::RsaCheckFailed);
        }
        let k0 = match p1.get_u32_le() {
            Ok(v) => v,
            Err(_) => {
                proof {
                    assert(false);
                }
                return Err(PacketError::Truncated);
            },
        };
        let k1 = match p1.get_u32_le() {
            Ok(v) => v,
            Err(_) => {
                proof {
                    assert(false);
                }
                return Err(PacketError::Truncated);
            },
        };
        let k2 = match p1.get_u32_le() {
            Ok(v) => v,
            Err(_) => {
                proof {
                    assert(false);
                }
                return Err(PacketError::Truncated);
            },
        };
        let k3 = match p1.get_u32_le() {
            Ok(v) => v,
            Err(_) => {
                proof {
                    assert(false);
                }
                return Err(PacketError::Truncated);
            },
        };
        proof {
            assert(p1.rem() =~= p1s.skip(17));
        }
        let account_name = match p1.get_string() {
            Ok(v) => v,
            Err(e) => {
                proof {
                    lemma_string_step_shift(p1s, 17);
                    assert(spec_string_step(p1s.skip(17), 0) == Err::<int, PacketError>(e));
                    assert(spec_account_login_error(s) == Some(e));
                }
                return Err(e);
            },
        };
        let ghost na = u16_from_le(p1s[17], p1s[18]) as int;
        proof {
            assert(p1s.skip(17)[0] == p1s[17] && p1s.skip(17)[1] == p1s[18]);
            assert(p1s.skip(17).subrange(2, 2 + na) =~= p1s.subrange(19, 19 + na));
            lemma_string_step_shift(p1s, 17);
            assert(spec_string_step(p1s.skip(17), 0) == Ok::<int, PacketError>(2 + na));
            assert(spec_string_step(p1s, 17) == Ok::<int, PacketError>(19 + na));
        }
        proof {
            assert(p1.rem() =~= p1s.skip(19 + na));
        }
        let password = match p1.get_string() {
            Ok(v) => v,
            Err(e) => {
                proof {
                    lemma_string_step_shift(p1s, 19 + na);
                    assert(spec_string_step(p1s.skip(19 + na), 0) == Err::<int, PacketError>(e));
                    assert(spec_account_login_error(s) == Some(e));
                }
                return Err(e);
            },
        };
        let ghost np = u16_from_le(p1s[19 + na], p1s[20 + na]) as int;
        proof {
            assert(p1s.skip(19 + na)[0] == p1s[19 + na] && p1s.skip(19 + na)[1] == p1s[20 + na]);
            assert(p1s.skip(19 + na).subrange(2, 2 + np) =~= p1s.subrange(21 + na, 21 + na + np));
            lemma_string_step_shift(p1s, 19 + na);
            assert(spec_string_step(p1s.skip(19 + na), 0) == Ok::<int, PacketError>(2 + np));
            assert(spec_string_step(p1s, 19 + na) == Ok::<int, PacketError>(21 + na + np));
        }
        // The auth token block is the last 128 bytes of the payload.
        let rem = bb.remaining();
        if rem < 128 {
            proof {
                assert(s.len() < 277);
                assert(spec_account_login_error(s) == Some(PacketError::Truncated));
            }
            return Err(PacketError::Truncated);
        }
        match bb.advance(rem - 128) {
            Ok(()) => (),
            Err(_) => {
                proof {
                    assert(false);
                }
                return Err(PacketError::Truncated);
            },
        };
        let c2 = match bb.get_bytes(128) {
            Ok(v) => v,
            Err(_) => {
                proof {
                    assert(false);
                }
                return Err(PacketError::Truncated);
            },
        };
        proof {
            assert(c2@ =~= s.subrange(s.len() - 128, s.len() as int));
        }
        let p2_vec = rsa_decrypt(&c2);
        let mut p2 = ByteBuf::from_vec(p2_vec);
        let ghost p2s = p2.rem();
        proof {
            assert(p2s =~= rsa_plain_of(s.subrange(s.len() - 128, s.len() as int)));
        }
        let z2 = match p2.get_u8() {
            Ok(v) => v,
            Err(_) => {
                proof {
                    assert(false);
                }
                return Err(PacketError::Truncated);
            },
        };
        if z2 != 0 {
            proof {
                assert(spec_account_login_error(s) == Some(PacketError::RsaCheckFailed));
            }
            return Err(PacketError::RsaCheckFailed);
        }
        proof {
            assert(p2.rem() =~= p2s.skip(1));
        }
        let auth_token = match p2.get_string() {
            Ok(v) => v,
            Err(e) => {
                proof {
                    lemma_string_step_shift(p2s, 1);
                    assert(spec_string_step(p2s.skip(1), 0) == Err::<int, PacketError>(e));
                    assert(spec_account_login_error(s) == Some(e));
                }
                return Err(e);
            },
        };
        let ghost nt = u16_from_le(p2s[1], p2s[2]) as int;
        proof {
            assert(p2s.skip(1)[0] == p2s[1] && p2s.skip(1)[1] == p2s[2]);
            assert(p2s.skip(1).subrange(2, 2 + nt) =~= p2s.subrange(3, 3 + nt));
            lemma_string_step_shift(p2s, 1);
            assert(spec_string_step(p2s.skip(1), 0) == Ok::<int, PacketError>(2 + nt));
            assert(spec_string_step(p2s, 1) == Ok::<int, PacketError>(3 + nt));
        }
        let v = AccountLogin {
            client_os,
            client_version,
            protocol_version,
            content_revision,
            spr_signature,
            pic_signature,
            game_preview_state,
            xtea_key: [k0, k1, k2, k3],
            account_name,
            password,
            auth_token,
        };
        proof {
            let p1g = rsa_plain_of(s.subrange(21, 149));
            let p2g = rsa_plain_of(s.subrange(s.len() - 128, s.len() as int));
            assert(p1s == p1g);
            assert(p2s == p2g);
            assert(vstd::utf8::valid_utf8(p1g.subrange(19, 19 + na)));
            assert(v.account_name@ == vstd::utf8::decode_utf8(p1g.subrange(19, 19 + na)));
            assert(vstd::utf8::valid_utf8(p1g.subrange(21 + na, 21 + na + np)));
            assert(v.password@ == vstd::utf8::decode_utf8(p1g.subrange(21 + na, 21 + na + np)));
            assert(vstd::utf8::valid_utf8(p2g.subrange(3, 3 + nt)));
            assert(v.auth_token@ == vstd::utf8::decode_utf8(p2g.subrange(3, 3 + nt)));
            assert(account_login_parsed(s, v));
            assert(spec_string_step(p2s, 1) == Ok::<int, PacketError>(3 + nt));
            assert(spec_account_login_error(s) == None::<PacketError>);
            assert(bb.rem().len() == 0);
        }
        Ok(v)
    }
}

/// The first client packet of a game session.
pub struct GameLogin {
    pub client_os: u16,
    pub client_version: u16,
    pub protocol_version: u32,
    pub client_type: u8,
    pub dat_revision: u16,
    pub xtea_key: [u32; 4],
    pub gm_flag: u8,
    pub session_key: String,
    pub character_name: String,
    pub challenge_timestamp: u32,
    pub challenge_rand_num: u8,
}

/// What a successfully parsed game login says of the payload it was read
/// from: the plain header fields, then one RSA-sealed block holding a zero
/// byte, the XTEA key words, the gm flag, the session strings and the
/// challenge fields.
pub open spec fn game_login_parsed(s: Seq<u8>, v: GameLogin) -> bool {
    let p = rsa_plain_of(s.subrange(11, 139));
    let ns = u16_from_le(p[18], p[19]) as int;
    let nc = u16_from_le(p[(20 + ns) as int], p[(21 + ns) as int]) as int;
    &&& s.len() >= 139
    &&& v.client_os == u16_from_le(s[0], s[1])
    &&& v.client_version == u16_from_le(s[2], s[3])
    &&& v.protocol_version == u32_from_le(s[4], s[5], s[6], s[7])
    &&& v.client_type == s[8]
    &&& v.dat_revision == u16_from_le(s[9], s[10])
    &&& p[0] == 0
    &&& v.xtea_key == spec_key_words(p)
    &&& v.gm_flag == p[17]
    &&& 20 + ns <= 128
    &&& vstd::utf8::valid_utf8(p.subrange(20, 20 + ns))
    &&& v.session_key@ == vstd::utf8::decode_utf8(p.subrange(20, 20 + ns))
    &&& 22 + ns + nc <= 128
    &&& vstd::utf8::valid_utf8(p.subrange(22 + ns, 22 + ns + nc))
    &&& v.character_name@ == vstd::utf8::decode_utf8(p.subrange(22 + ns, 22 + ns + nc))
    &&& 27 + ns + nc <= 128
    &&& v.challenge_timestamp == u32_from_le(
        p[(22 + ns + nc) as int],
        p[(23 + ns + nc) as int],
        p[(24 + ns + nc) as int],
        p[(25 + ns + nc) as int],
    )
    &&& v.challenge_rand_num == p[(26 + ns + nc) as int]
}

/// Why reading a game login payload fails, or `None` when it succeeds,
/// mirroring the reader's checks in their order: the fixed header and the
/// sealed block must be present; the plaintext must start with a zero byte
/// and hold the key, the gm flag, both strings, and the challenge fields.
pub open spec fn spec_game_login_error(s: Seq<u8>) -> Option<PacketError> {
    if s.len() < 139 {
        Some(PacketError::Truncated)
    } else {
        let p = rsa_plain_of(s.subrange(11, 139));
        if p.len() < 1 {
            Some(PacketError::Truncated)
        } else if p[0] != 0 {
            Some(PacketError::RsaCheckFailed)
        } else if p.len() < 18 {
            Some(PacketError::Truncated)
        } else {
            match spec_string_step(p, 18) {
                Err(e) => Some(e),
                Ok(o1) => match spec_string_step(p, o1) {
                    Err(e) => Some(e),
                    Ok(o2) => if p.len() - o2 < 5 {
                        Some(PacketError::Truncated)
                    } else {
                        None
                    },
                },
            }
        }
    }
}

impl GameLogin {
    /// Reads a game login payload. Success and each failure are decided
    /// exactly by `spec_game_login_error`; the header and the sealed block
    /// are consumed, any trailing bytes are left unread.
    pub fn read_from(bb: &mut ByteBuf) -> (r: Result<GameLogin, PacketError>)
        requires
            old(bb).wf(),
        ensures
            final(bb).wf(),
            final(bb).bytes() == old(bb).bytes(),
            match r {
                Ok(v) => {
                    &&& spec_game_login_error(old(bb).rem()) == None::<PacketError>
                    &&& game_login_parsed(old(bb).rem(), v)
                    &&& final(bb).rpos() == old(bb).rpos() + 139
                },
                Err(e) => spec_game_login_error(old(bb).rem()) == Some(e),
            },
    {
        let ghost s = old(bb).rem();
        let client_os = match bb.get_u16_le() {
            Ok(v) => v,
            Err(e) => {
                proof {
                    assert(spec_game_login_error(s) == Some(PacketError::Truncated));
                }
                return Err(e);
            },
        };
        let client_version = match bb.get_u16_le() {
            Ok(v) => v,
            Err(e) => {
                proof {
                    assert(spec_game_login_error(s) == Some(PacketError::Truncated));
                }
                return Err(e);
            },
        };
        let protocol_version = match bb.get_u32_le() {
            Ok(v) => v,
            Err(e) => {
                proof {
                    assert(spec_game_login_error(s) == Some(PacketError::Truncated));
                }
                return Err(e);
            },
        };
        let client_type = match bb.get_u8() {
            Ok(v) => v,
            Err(e) => {
                proof {
                    assert(spec_game_login_error(s) == Some(PacketError::Truncated));
                }
                return Err(e);
            },
        };
        let dat_revision = match bb.get_u16_le() {
            Ok(v) => v,
            Err(e) => {
                proof {
                    assert(spec_game_login_error(s) == Some(PacketError::Truncated));
                }
                return Err(e);
            },
        };
        let c = match bb.get_bytes(128) {
            Ok(v) => v,
            Err(e) => {
                proof {
                    assert(spec_game_login_error(s) == Some(PacketError::Truncated));
                }
                return Err(e);
            },
        };
        proof {
            assert(c@ =~= s.subrange(11, 139));
        }
        let p_vec = rsa_decrypt(&c);
        let mut p = ByteBuf::from_vec(p_vec);
        let ghost ps = p.rem();
        proof {
            assert(ps =~= rsa_plain_of(s.subrange(11, 139)));
        }
        let z = match p.get_u8() {
            Ok(v) => v,
            Err(_) => {
                proof {
                    assert(false);
                }
                return Err(PacketError::Truncated);
            },
        };
        if z != 0 {
            proof {
                assert(spec_game_login_error(s) == Some(PacketError::RsaCheckFailed));
            }
            return Err(PacketError::RsaCheckFailed);
        }
        let k0 = match p.get_u32_le() {
            Ok(v) => v,
            Err(_) => {
                proof {
                    assert(false);
                }
                return Err(PacketError::Truncated);
            },
        };
        let k1 = match p.get_u32_le() {
            Ok(v) => v,
            Err(_) => {
                proof {
                    assert(false);
                }
                return Err(PacketError::Truncated);
            },
        };
        let k2 = match p.get_u32_le() {
            Ok(v) => v,
            Err(_) => {
                proof {
                    assert(false);
                }
                return Err(PacketError::Truncated);
            },
        };
        let k3 = match p.get_u32_le() {
            Ok(v) => v,
            Err(_) => {
                proof {
                    assert(false);
                }
                return Err(PacketError::Truncated);
            },
        };
        let gm_flag = match p.get_u8() {
            Ok(v) => v,
            Err(_) => {
                proof {
                    assert(false);
                }
                return Err(PacketError::Truncated);
            },
        };
        proof {
            assert(p.rem() =~= ps.skip(18));
        }
        let session_key = match p.get_string() {
            Ok(v) => v,
            Err(e) => {
                proof {
                    lemma_string_step_shift(ps, 18);
                    assert(spec_string_step(ps.skip(18), 0) == Err::<int, PacketError>(e));
                    assert(spec_game_login_error(s) == Some(e));
                }
                return Err(e);
            },
        };
        let ghost ns = u16_from_le(ps[18], ps[19]) as int;
        proof {
            assert(ps.skip(18)[0] == ps[18] && ps.skip(18)[1] == ps[19]);
            assert(ps.skip(18).subrange(2, 2 + ns) =~= ps.subrange(20, 20 + ns));
            lemma_string_step_shift(ps, 18);
            assert(spec_string_step(ps.skip(18), 0) == Ok::<int, PacketError>(2 + ns));
            assert(spec_string_step(ps, 18) == Ok::<int, PacketError>(20 + ns));
        }
        proof {
            assert(p.rem() =~= ps.skip(20 + ns));
        }
        let character_name = match p.get_string() {
            Ok(v) => v,
            Err(e) => {
                proof {
                    lemma_string_step_shift(ps, 20 + ns);
                    assert(spec_string_step(ps.skip(20 + ns), 0) == Err::<int, PacketError>(e));
                    assert(spec_game_login_error(s) == Some(e));
                }
                return Err(e);
            },
        };
        let ghost nc = u16_from_le(ps[20 + ns], ps[21 + ns]) as int;
        proof {
            assert(ps.skip(20 + ns)[0] == ps[20 + ns] && ps.skip(20 + ns)[1] == ps[21 + ns]);
            assert(ps.skip(20 + ns).subrange(2, 2 + nc) =~= ps.subrange(22 + ns, 22 + ns + nc));
            lemma_string_step_shift(ps, 20 + ns);
            assert(spec_string_step(ps.skip(20 + ns), 0) == Ok::<int, PacketError>(2 + nc));
            assert(spec_string_step(ps, 20 + ns) == Ok::<int, PacketError>(22 + ns + nc));
        }
        let challenge_timestamp = match p.get_u32_le() {
            Ok(v) => v,
            Err(e) => {
                proof {
                    assert(ps.len() - (22 + ns + nc) < 4);
                    assert(spec_game_login_error(s) == Some(PacketError::Truncated));
                }
                return Err(e);
            },
        };
        let challenge_rand_num = match p.get_u8() {
            Ok(v) => v,
            Err(e) => {
                proof {
                    assert(ps.len() - (22 + ns + nc) < 5);
                    assert(spec_game_login_error(s) == Some(PacketError::Truncated));
                }
                return Err(e);
            },
        };
        proof {
            assert(ps.skip(22 + ns + nc)[0] == ps[22 + ns + nc]);
            assert(ps.skip(22 + ns + nc)[1] == ps[23 + ns + nc]);
            assert(ps.skip(22 + ns + nc)[2] == ps[24 + ns + nc]);
            assert(ps.skip(22 + ns + nc)[3] == ps[25 + ns + nc]);
            assert(ps.skip(26 + ns + nc)[0] == ps[26 + ns + nc]);
        }
        let v = GameLogin {
            client_os,
            client_version,
            protocol_version,
            client_type,
            dat_revision,
            xtea_key: [k0, k1, k2, k3],
            gm_flag,
            session_key,
            character_name,
            challenge_timestamp,
            challenge_rand_num,
        };
        proof {
            let pg = rsa_plain_of(s.subrange(11, 139));
            assert(ps == pg);
            assert(vstd::utf8::valid_utf8(pg.subrange(20, 20 + ns)));
            assert(v.session_key@ == vstd::utf8::decode_utf8(pg.subrange(20, 20 + ns)));
            assert(vstd::utf8::valid_utf8(pg.subrange(22 + ns, 22 + ns + nc)));
            assert(v.character_name@ == vstd::utf8::decode_utf8(pg.subrange(22 + ns, 22 + ns + nc)));
            assert(game_login_parsed(s, v));
            assert(ps.len() - (22 + ns + nc) >= 5);
            assert(spec_game_login_error(s) == None::<PacketError>);
        }
        Ok(v)
    }
}

/// A keep-alive request.
pub struct Ping;

/// A keep-alive answer.
pub struct Pong;

/// A request to walk one tile north.
pub struct WalkNorth;

/// A request to walk one tile east.
pub struct WalkEast;

/// A request to walk one tile south.
pub struct WalkSouth;

/// A request to walk one tile west.
pub struct WalkWest;

/// Any packet a client sends, tagged by its leading id byte.
pub enum ClientPacket {
    AccountLogin(AccountLogin),
    GameLogin(GameLogin),
    Ping(Ping),
    Pong(Pong),
    WalkNorth(WalkNorth),
    WalkEast(WalkEast),
    WalkSouth(WalkSouth),
    WalkWest(WalkWest),
}

/// Why reading one client packet fails, or `None` when it succeeds: the id
/// byte must be present and known, and a login payload must be well-formed.
pub open spec fn spec_client_packet_error(s: Seq<u8>) -> Option<PacketError> {
    if s.len() < 1 {
        Some(PacketError::Truncated)
    } else if s[0] == 1 {
        spec_account_login_error(s.skip(1))
    } else if s[0] == 10 {
        spec_game_login_error(s.skip(1))
    } else if s[0] == 29 || s[0] == 30 || s[0] == 101 || s[0] == 102 || s[0] == 103 || s[0]
        == 104 {
        None
    } else {
        Some(PacketError::UnknownPacket(s[0]))
    }
}

/// How many bytes one successfully read client packet consumes: an account
/// login takes the rest of the frame, a game login its header and block, any
/// other packet just its id byte.
pub open spec fn spec_client_packet_len(s: Seq<u8>) -> int {
    if s.len() < 1 {
        0
    } else if s[0] == 1 {
        s.len() as int
    } else if s[0] == 10 {
        140
    } else {
        1
    }
}

impl ClientPacket {
    /// Reads one client packet: the id byte, then the payload it selects.
    /// Success and each failure are decided exactly by
    /// `spec_client_packet_error`, and a success consumes exactly
    /// `spec_client_packet_len` bytes.
    pub fn read_from(bb: &mut ByteBuf) -> (r: Result<ClientPacket, PacketError>)
        requires
            old(bb).wf(),
        ensures
            final(bb).wf(),
            final(bb).bytes() == old(bb).bytes(),
            match r {
                Ok(p) => {
                    &&& old(bb).rem().len() > 0
                    &&& spec_client_packet_error(old(bb).rem()) == None::<PacketError>
                    &&& final(bb).rpos() == old(bb).rpos() + spec_client_packet_len(old(bb).rem())
                    &&& match p {
                        ClientPacket::AccountLogin(v) => old(bb).rem()[0] == 1
                            && account_login_parsed(old(bb).rem().skip(1), v),
                        ClientPacket::GameLogin(v) => old(bb).rem()[0] == 10 && game_login_parsed(
                            old(bb).rem().skip(1),
                            v,
                        ),
                        ClientPacket::Ping(_) => old(bb).rem()[0] == 29,
                        ClientPacket::Pong(_) => old(bb).rem()[0] == 30,
                        ClientPacket::WalkNorth(_) => old(bb).rem()[0] == 101,
                        ClientPacket::WalkEast(_) => old(bb).rem()[0] == 102,
                        ClientPacket::WalkSouth(_) => old(bb).rem()[0] == 103,
                        ClientPacket::WalkWest(_) => old(bb).rem()[0] == 104,
                    }
                },
                Err(e) => spec_client_packet_error(old(bb).rem()) == Some(e),
            },
    {
        let ghost s = old(bb).rem();
        let id = match bb.get_u8() {
            Ok(v) => v,
            Err(e) => {
                return Err(e);
            },
        };
        proof {
            assert(bb.rem() =~= s.skip(1));
        }
        if id == 1 {
            match AccountLogin::read_from(bb) {
                Ok(v) => {
                    proof {
                        assert(bb.rem().len() == 0);
                        assert(bb.rpos() == bb.bytes().len());
                    }
                    Ok(ClientPacket::AccountLogin(v))
                },
                Err(e) => Err(e),
            }
        } else if id == 10 {
            match GameLogin::read_from(bb) {
                Ok(v) => Ok(ClientPacket::GameLogin(v)),
                Err(e) => Err(e),
            }
        } else if id == 29 {
            Ok(ClientPacket::Ping(Ping))
        } else if id == 30 {
            Ok(ClientPacket::Pong(Pong))
        } else if id == 101 {
            Ok(ClientPacket::WalkNorth(WalkNorth))
        } else if id == 102 {
            Ok(ClientPacket::WalkEast(WalkEast))
        } else if id == 103 {
            Ok(ClientPacket::WalkSouth(WalkSouth))
        } else if id == 104 {
            Ok(ClientPacket::WalkWest(WalkWest))
        } else {
            Err(PacketError::UnknownPacket(id))
        }
    }
}

/// The outcome of scanning one frame for client packets: how many packets
/// are read and whether an unknown id ended the scan early, or the failure
/// that stops the connection.
pub open spec fn spec_client_frame_scan(s: Seq<u8>) -> Result<(int, bool), PacketError>
    decreases s.len(),
{
    if s.len() == 0 {
        Ok((0, false))
    } else {
        match spec_client_packet_error(s) {
            Some(e) => if e matches PacketError::UnknownPacket(_) {
                Ok((0, true))
            } else {
                Err(e)
            },
            None => {
                let k = spec_client_packet_len(s);
                if k < 1 || k > s.len() {
                    Ok((0, false))
                } else {
                    match spec_client_frame_scan(s.skip(k)) {
                        Err(e) => Err(e),
                        Ok(t) => Ok((1 + t.0, t.1)),
                    }
                }
            },
        }
    }
}

/// Splits one frame into the client packets it carries, in order, exactly as
/// `spec_client_frame_scan` decides: a packet id this library does not parse
/// does not end the session — the rest of the frame is discarded and the
/// flag in the result says so — while any other parse failure is handed
/// back.
pub fn read_client_packets(frame: Vec<u8>) -> (r: Result<(Vec<ClientPacket>, bool), PacketError>)
    ensures
        match r {
            Ok(p) => spec_client_frame_scan(frame@) == Ok::<(int, bool), PacketError>(
                (p.0@.len() as int, p.1),
            ),
            Err(e) => spec_client_frame_scan(frame@) == Err::<(int, bool), PacketError>(e),
        },
{
    let mut bb = ByteBuf::from_vec(frame);
    let mut out: Vec<ClientPacket> = Vec::new();
    let mut skipped: bool = false;
    proof {
        assert(bb.rem() =~= frame@);
    }
    while bb.remaining() > 0
        invariant
            bb.wf(),
            bb.bytes() == frame@,
            match spec_client_frame_scan(bb.rem()) {
                Ok(t) => spec_client_frame_scan(frame@) == Ok::<(int, bool), PacketError>(
                    (out@.len() + t.0, skipped || t.1),
                ),
                Err(e) => spec_client_frame_scan(frame@) == Err::<(int, bool), PacketError>(e),
            },
        decreases bb.bytes().len() - bb.rpos(),
    {
        let ghost pre = bb.rem();
        match ClientPacket::read_from(&mut bb) {
            Ok(p) => {
                proof {
                    let k = spec_client_packet_len(pre);
                    assert(1 <= k <= pre.len());
                    assert(bb.rem() =~= pre.skip(k));
                }
                out.push(p);
            },
            Err(PacketError::UnknownPacket(id)) => {
                skipped = true;
                let rem = bb.remaining();
                match bb.advance(rem) {
                    Ok(()) => (),
                    Err(_) => {
                        proof {
                            assert(false);
                        }
                    },
                };
                proof {
                    assert(bb.rem().len() == 0);
                    assert(bb.rem() =~= Seq::<u8>::empty());
                }
            },
            Err(e) => {
                return Err(e);
            },
        }
    }
    proof {
        assert(bb.rem().len() == 0);
        assert(bb.rem() =~= Seq::<u8>::empty());
    }
    Ok((out, skipped))
}

} // verus!
