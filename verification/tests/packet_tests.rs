use rustia_proxy::buffer::ByteBuf;
use rustia_proxy::error::PacketError;
use rustia_proxy::game;
use rustia_proxy::login::{
    Character, CharacterList, LoginServerPacket, Motd, SessionKey, World, rewrite_login_frame,
};
use rustia_proxy::client::{read_client_packets, ClientPacket};
use rustia_proxy::rsa::rsa_decrypt;

#[test]
fn test_string_roundtrip() {
    let s = "Hello World!";
    let mut b = ByteBuf::new();
    b.put_string(s).unwrap();
    let result = b.get_string().expect("failed to get string");
    assert_eq!(result, s);
}

fn mantissa_of(value: f64, precision: u8) -> i64 {
    let encoded = (value * 10f64.powi(precision as i32) + i32::MAX as f64) as u32;
    encoded as i64 - i32::MAX as i64
}

#[test]
fn test_double_roundtrip() {
    let tests = [857.36, 261.29, -4795.01];
    for test in tests.iter() {
        let mut b = ByteBuf::new();
        b.put_double(mantissa_of(*test, 3), 3);
        let (p, m) = b.get_double().unwrap();
        assert_eq!(*test, m as f64 / 10f64.powi(p as i32));
    }
}

#[test]
fn test_double_exact() {
    let mut b = ByteBuf::new();
    b.put_double(mantissa_of(-4795.01, 3), 3);
    assert_eq!(3, b.get_u8().unwrap());
    assert_eq!(2142688637, b.get_u32_le().unwrap());
}

#[test]
fn rsa_transform_matches_modpow() {
    // The sealed-block transform is the fixed modpow, left-padded to 128
    // bytes; num_bigint computes the expected value independently here.
    let block = vec![1u8; 128];
    let got = rsa_decrypt(&block);
    let d = num_bigint::BigUint::parse_bytes(
        b"428BD3B5346DAF71A761106F71A43102F8C857D6549C54660BB6378B52B0261399DE8CE648BAC410E2EA4E0A1CED1FAC2756331220CA6DB7AD7B5D440B7828865856E7AA6D8F45837FEEE9B4A3A0AA21322A1E2AB75B1825E786CF81A28A8A09A1E28519DB64FF9BAF311E850C2BFA1FB7B08A056CC337F7DF443761AEFE8D81",
        16,
    )
    .unwrap();
    let n = num_bigint::BigUint::parse_bytes(
        b"009B646903B45B07AC956568D87353BD7165139DD7940703B03E6DD079399661B4A837AA60561D7CCB9452FA0080594909882AB5BCA58A1A1B35F8B1059B72B1212611C6152AD3DBB3CFBEE7ADC142A75D3D75971509C321C5C24A5BD51FD460F01B4E15BEB0DE1930528A5D3F15C1E3CBF5C401D6777E10ACAAB33DBE8D5B7FF5",
        16,
    )
    .unwrap();
    let m = num_bigint::BigUint::from_bytes_be(&block).modpow(&d, &n);
    let mb = m.to_bytes_be();
    let mut expected = vec![0u8; 128 - mb.len()];
    expected.extend_from_slice(&mb);
    assert_eq!(got, expected);
    assert_eq!(got.len(), 128);
}

fn sample_character_list() -> CharacterList {
    CharacterList {
        worlds: vec![World {
            id: 0,
            name: "World".to_string(),
            ip: "10.0.0.1".to_string(),
            port: 7172,
        }],
        characters: vec![Character { world_id: 0, name: "Hero".to_string() }],
        has_premium: true,
        premium_days_left: 0,
    }
}

#[test]
fn character_list_write_read_roundtrip() {
    let cl = sample_character_list();
    let mut out = ByteBuf::new();
    LoginServerPacket::CharacterList(cl).write_to(&mut out).unwrap();
    let mut bb = ByteBuf::from_vec(out.into_vec());
    match LoginServerPacket::read_from(&mut bb).unwrap() {
        LoginServerPacket::CharacterList(got) => {
            assert_eq!(got.worlds.len(), 1);
            assert_eq!(got.worlds[0].id, 0);
            assert_eq!(got.worlds[0].name, "World");
            assert_eq!(got.worlds[0].ip, "10.0.0.1");
            assert_eq!(got.worlds[0].port, 7172);
            assert_eq!(got.characters.len(), 1);
            assert_eq!(got.characters[0].world_id, 0);
            assert_eq!(got.characters[0].name, "Hero");
            assert!(got.has_premium);
            assert_eq!(got.premium_days_left, 0);
        }
        other => panic!("parsed the wrong packet kind: {:?}", discriminant_name(&other)),
    }
    assert_eq!(bb.remaining(), 0);
}

fn discriminant_name(p: &LoginServerPacket) -> &'static str {
    match p {
        LoginServerPacket::Error(_) => "Error",
        LoginServerPacket::Error2(_) => "Error2",
        LoginServerPacket::Motd(_) => "Motd",
        LoginServerPacket::SessionKey(_) => "SessionKey",
        LoginServerPacket::CharacterList(_) => "CharacterList",
    }
}

#[test]
fn string_packets_write_read_roundtrip() {
    let mut out = ByteBuf::new();
    LoginServerPacket::Motd(Motd("0\nHello world!".to_string())).write_to(&mut out).unwrap();
    LoginServerPacket::SessionKey(SessionKey("abc\ndef".to_string())).write_to(&mut out).unwrap();
    let mut bb = ByteBuf::from_vec(out.into_vec());
    match LoginServerPacket::read_from(&mut bb).unwrap() {
        LoginServerPacket::Motd(m) => assert_eq!(m.0, "0\nHello world!"),
        other => panic!("parsed the wrong packet kind: {}", discriminant_name(&other)),
    }
    match LoginServerPacket::read_from(&mut bb).unwrap() {
        LoginServerPacket::SessionKey(k) => assert_eq!(k.0, "abc\ndef"),
        other => panic!("parsed the wrong packet kind: {}", discriminant_name(&other)),
    }
    assert_eq!(bb.remaining(), 0);
}

#[test]
fn unknown_login_packet_id() {
    let mut bb = ByteBuf::from_vec(vec![99, 1, 2, 3]);
    assert_eq!(
        match LoginServerPacket::read_from(&mut bb) {
            Err(PacketError::UnknownPacket(id)) => id,
            _ => panic!("expected an unknown packet error"),
        },
        99
    );
}

#[test]
fn injection_replaces_every_world() {
    // Two worlds; both endpoints are replaced, names and characters kept.
    let cl = CharacterList {
        worlds: vec![
            World { id: 0, name: "World".to_string(), ip: "10.0.0.1".to_string(), port: 7172 },
            World { id: 1, name: "Second".to_string(), ip: "10.0.0.2".to_string(), port: 7200 },
        ],
        characters: vec![Character { world_id: 0, name: "Hero".to_string() }],
        has_premium: true,
        premium_days_left: 0,
    };
    let mut out = ByteBuf::new();
    LoginServerPacket::Motd(Motd("hi".to_string())).write_to(&mut out).unwrap();
    LoginServerPacket::CharacterList(cl).write_to(&mut out).unwrap();
    let frame = out.into_vec();
    let (rewritten, had) = rewrite_login_frame(frame, "127.0.0.1", 7174).unwrap();
    assert!(had);
    let mut bb = ByteBuf::from_vec(rewritten);
    match LoginServerPacket::read_from(&mut bb).unwrap() {
        LoginServerPacket::Motd(m) => assert_eq!(m.0, "hi"),
        other => panic!("parsed the wrong packet kind: {}", discriminant_name(&other)),
    }
    match LoginServerPacket::read_from(&mut bb).unwrap() {
        LoginServerPacket::CharacterList(got) => {
            assert_eq!(got.worlds.len(), 2);
            for w in got.worlds.iter() {
                assert_eq!(w.ip, "127.0.0.1");
                assert_eq!(w.port, 7174);
            }
            assert_eq!(got.worlds[0].name, "World");
            assert_eq!(got.worlds[1].name, "Second");
            assert_eq!(got.characters[0].name, "Hero");
        }
        other => panic!("parsed the wrong packet kind: {}", discriminant_name(&other)),
    }
    assert_eq!(bb.remaining(), 0);
}

#[test]
fn non_character_list_frames_kept_byte_identical() {
    let mut out = ByteBuf::new();
    LoginServerPacket::Motd(Motd("0\nHello world!".to_string())).write_to(&mut out).unwrap();
    LoginServerPacket::SessionKey(SessionKey("k".to_string())).write_to(&mut out).unwrap();
    let frame = out.into_vec();
    let (rewritten, had) = rewrite_login_frame(frame.clone(), "127.0.0.1", 7174).unwrap();
    assert!(!had);
    assert_eq!(rewritten, frame);
}

#[test]
fn nonce_bytes_exact() {
    let nonce = game::Nonce { timestamp: 1_700_000_000, random_number: 23 };
    let mut out = ByteBuf::new();
    nonce.write_to(&mut out);
    let mut expected = 1_700_000_000u32.to_le_bytes().to_vec();
    expected.push(23);
    assert_eq!(out.into_vec(), expected);
}

#[test]
fn game_packet_id_and_payload() {
    let mut out = ByteBuf::new();
    game::GameServerPacket::Pong(game::Pong).write_to(&mut out).unwrap();
    game::GameServerPacket::WorldLight(game::WorldLight {
        light: game::LightInfo { light_level: 0xFF, light_color: 0xD7 },
    })
    .write_to(&mut out)
    .unwrap();
    assert_eq!(out.into_vec(), vec![30, 130, 0xFF, 0xD7]);
}

#[test]
fn world_data_skip_runs() {
    // A tile followed by empty runs that merge; the merged run larger than
    // 255 splits into whole blocks and a remainder; a trailing tile is
    // closed with a zero marker.
    let t0 = game::Tile { environmental_effects: 5, things: vec![] };
    let t1 = game::Tile { environmental_effects: 7, things: vec![] };
    let entries = vec![
        game::WorldData::Tile(t0),
        game::WorldData::Empty(100),
        game::WorldData::Empty(200),
        game::WorldData::Tile(t1),
    ];
    let mut out = ByteBuf::new();
    rustia_proxy::game::write_world_data(&entries, &mut out).unwrap();
    // t0: env 5; no separator since a run follows. 300 empties: 255 + 45.
    // t1: env 7; closed with the zero marker.
    let expected = vec![5u8, 0, 0xFF, 0xFF, 45, 0xFF, 7, 0, 0x00, 0xFF];
    assert_eq!(out.into_vec(), expected);
}

#[test]
fn world_data_tile_then_tile() {
    let t0 = game::Tile { environmental_effects: 1, things: vec![] };
    let t1 = game::Tile { environmental_effects: 2, things: vec![] };
    let entries = vec![game::WorldData::Tile(t0), game::WorldData::Tile(t1)];
    let mut out = ByteBuf::new();
    rustia_proxy::game::write_world_data(&entries, &mut out).unwrap();
    assert_eq!(out.into_vec(), vec![1u8, 0, 0x00, 0xFF, 2, 0, 0x00, 0xFF]);
}

#[test]
fn creature_and_item_bytes() {
    let tile = game::Tile {
        environmental_effects: 0,
        things: vec![
            Some(game::Thing::Item(game::Item {
                client_id: 351,
                stack_size: None,
                fluid: None,
                animation: None,
            })),
            None,
        ],
    };
    let mut out = ByteBuf::new();
    tile.write_to(&mut out).unwrap();
    let expected = vec![0u8, 0, 0x5F, 0x01, 0xFF];
    assert_eq!(out.into_vec(), expected);
}

#[test]
fn login_success_speed_encoding() {
    let p = game::LoginSuccess {
        player_id: 7,
        beat_duration: 0x32,
        speed_a: 857360,
        speed_b: 261290,
        speed_c: -4795010,
        is_tutor: false,
        pvp_framing: false,
        expert_mode: false,
        store_img_url: String::new(),
        coin_package_size: 25,
    };
    let mut out = ByteBuf::new();
    p.write_to(&mut out).unwrap();
    let bytes = out.into_vec();
    // player id, beat duration, then the third speed term after two
    // five-byte terms: precision 3 and the shifted scaled value.
    assert_eq!(&bytes[0..4], &7u32.to_le_bytes());
    assert_eq!(&bytes[4..6], &0x32u16.to_le_bytes());
    assert_eq!(bytes[6 + 10], 3);
    assert_eq!(&bytes[6 + 11..6 + 15], &2142688637u32.to_le_bytes());
}

#[test]
fn unknown_client_packet_skips_rest_of_frame() {
    let (packets, skipped) = read_client_packets(vec![29, 30, 99, 1, 2]).unwrap();
    assert!(skipped);
    assert_eq!(packets.len(), 2);
    assert!(matches!(packets[0], ClientPacket::Ping(_)));
    assert!(matches!(packets[1], ClientPacket::Pong(_)));
    let (packets, skipped) = read_client_packets(vec![29, 30]).unwrap();
    assert!(!skipped);
    assert_eq!(packets.len(), 2);
}

#[test]
fn malformed_world_separator_rejected() {
    // A world entry must close with a zero byte; anything else is refused.
    let cl = sample_character_list();
    let mut out = ByteBuf::new();
    LoginServerPacket::CharacterList(cl).write_to(&mut out).unwrap();
    let mut bytes = out.into_vec();
    // The separator is the last byte of the single world entry: id byte of
    // the list header, one world of id + name + ip + port, then the zero.
    let sep_at = 1 + 1 + 1 + (2 + 5) + (2 + 8) + 2;
    assert_eq!(bytes[sep_at], 0);
    bytes[sep_at] = 9;
    let mut bb = ByteBuf::from_vec(bytes);
    assert!(matches!(
        LoginServerPacket::read_from(&mut bb),
        Err(PacketError::MalformedPacket)
    ));
}

#[test]
fn rsa_zero_check_enforced() {
    // A sealed block whose plaintext does not start with a zero byte is
    // refused. For the fixed key, a block of 0x01 bytes deciphers to a
    // plaintext with a nonzero first byte.
    let mut payload = vec![0u8; 11];
    payload.extend_from_slice(&[1u8; 128]);
    let mut bb = ByteBuf::from_vec(payload);
    assert!(matches!(
        rustia_proxy::client::GameLogin::read_from(&mut bb),
        Err(PacketError::RsaCheckFailed)
    ));
}
