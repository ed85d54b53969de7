use rustia_proxy::buffer::ByteBuf;
use rustia_proxy::codec::{FrameType, TibiaCodec};
use rustia_proxy::login::{Character, CharacterList, LoginServerPacket, World};
use rustia_proxy::proxy::{
    DebugEventHandler, EventHandler, GameHandshaker, GameServerInjector, LoginHandshaker, Origin,
    ProxyConnection, ProxyError, process_frame, sync_frame_types,
};

fn fresh_conn() -> ProxyConnection {
    ProxyConnection::new(0, "127.0.0.1:50000".to_string(), "127.0.0.1:7171".to_string())
}

#[test]
fn connection_accessors() {
    let conn = fresh_conn();
    assert_eq!(conn.id(), 0);
    assert_eq!(conn.client_addr(), "127.0.0.1:50000");
    assert_eq!(conn.server_addr(), "127.0.0.1:7171");
    assert_eq!(conn.addr(Origin::Client), "127.0.0.1:50000");
    assert_eq!(conn.addr(Origin::Server), "127.0.0.1:7171");
    assert_eq!(conn.current_frame_id(), 0);
    assert!(conn.first_frame());
    assert_eq!(conn.frame_type(), FrameType::Raw);
}

#[test]
fn server_spoke_first_on_login() {
    let handshaker = LoginHandshaker::new();
    let mut conn = fresh_conn();
    let r = handshaker.on_frame(&mut conn, Origin::Server, vec![1, 2, 3]);
    assert_eq!(r, Err(ProxyError::UnexpectedOrigin));
    assert_eq!(conn.frame_type(), FrameType::Raw);
}

#[test]
fn wrong_first_packet_on_login() {
    // A keep-alive request parses fine but is not an account login.
    let handshaker = LoginHandshaker::new();
    let mut conn = fresh_conn();
    let r = handshaker.on_frame(&mut conn, Origin::Client, vec![29]);
    assert_eq!(r, Err(ProxyError::WrongFirstPacket));
    assert_eq!(conn.frame_type(), FrameType::Raw);
}

#[test]
fn login_handshake_passes_later_frames() {
    let handshaker = LoginHandshaker::new();
    let mut conn = fresh_conn();
    conn.set_frame_type(FrameType::XTEA([9, 9, 9, 9]));
    let mut c2 = conn;
    c2.current_frame_id = 3;
    let r = c2.frame_type();
    let frame = vec![0xAB, 0xCD];
    let got = handshaker.on_frame(&mut c2, Origin::Client, frame.clone());
    assert_eq!(got, Ok(frame));
    assert_eq!(c2.frame_type(), r);
}

#[test]
fn game_handshake_first_frame_drops_to_raw() {
    let handshaker = GameHandshaker::new();
    let mut conn = fresh_conn();
    handshaker.on_new_connection(&mut conn).unwrap();
    assert_eq!(conn.frame_type(), FrameType::LengthPrefixed);
    let frame = vec![31, 1, 2, 3, 4, 23];
    let got = handshaker.on_frame(&mut conn, Origin::Server, frame.clone());
    assert_eq!(got, Ok(frame));
    assert_eq!(conn.frame_type(), FrameType::Raw);
}

#[test]
fn game_handshake_second_frame_must_be_client() {
    let handshaker = GameHandshaker::new();
    let mut conn = fresh_conn();
    conn.current_frame_id = 1;
    let r = handshaker.on_frame(&mut conn, Origin::Server, vec![1]);
    assert_eq!(r, Err(ProxyError::UnexpectedOrigin));
}

#[test]
fn game_handshake_second_frame_wrong_packet() {
    let handshaker = GameHandshaker::new();
    let mut conn = fresh_conn();
    conn.current_frame_id = 1;
    let r = handshaker.on_frame(&mut conn, Origin::Client, vec![30]);
    assert_eq!(r, Err(ProxyError::WrongFirstPacket));
}

#[test]
fn injector_refuses_second_client_frame() {
    let injector = GameServerInjector::new("127.0.0.1".to_string(), 7174);
    let mut conn = fresh_conn();
    conn.current_frame_id = 1;
    let r = injector.on_frame(&mut conn, Origin::Client, vec![29]);
    assert_eq!(r, Err(ProxyError::UnexpectedOrigin));
}

#[test]
fn injector_rewrites_character_list_response() {
    // The upstream's answer on the second frame has its world endpoints
    // steered to the configured pair.
    let injector = GameServerInjector::new("127.0.0.1".to_string(), 7174);
    let mut conn = fresh_conn();
    conn.current_frame_id = 1;
    let cl = CharacterList {
        worlds: vec![World {
            id: 0,
            name: "World".to_string(),
            ip: "10.0.0.1".to_string(),
            port: 7172,
        }],
        characters: vec![Character { world_id: 0, name: "Hero".to_string() }],
        has_premium: true,
        premium_days_left: 0,
    };
    let mut out = ByteBuf::new();
    LoginServerPacket::CharacterList(cl).write_to(&mut out).unwrap();
    let frame = out.into_vec();
    let rewritten = injector.on_frame(&mut conn, Origin::Server, frame).unwrap();
    let mut bb = ByteBuf::from_vec(rewritten);
    match LoginServerPacket::read_from(&mut bb).unwrap() {
        LoginServerPacket::CharacterList(got) => {
            assert_eq!(got.worlds[0].ip, "127.0.0.1");
            assert_eq!(got.worlds[0].port, 7174);
            assert_eq!(got.worlds[0].name, "World");
            assert_eq!(got.characters[0].name, "Hero");
            assert!(got.has_premium);
        }
        _ => panic!("expected a character list"),
    }
}

#[test]
fn injector_passes_other_frames() {
    let injector = GameServerInjector::new("127.0.0.1".to_string(), 7174);
    let mut conn = fresh_conn();
    conn.current_frame_id = 2;
    let frame = vec![20, 2, 0, b'h', b'i'];
    assert_eq!(injector.on_frame(&mut conn, Origin::Server, frame.clone()), Ok(frame));
}

#[test]
fn pipeline_counts_dispatched_frames() {
    let handlers = vec![
        EventHandler::Debug(DebugEventHandler::new("Login".to_string())),
        EventHandler::LoginHandshake(LoginHandshaker::new()),
        EventHandler::Injector(GameServerInjector::new("127.0.0.1".to_string(), 7174)),
    ];
    let mut conn = fresh_conn();
    conn.current_frame_id = 5;
    let frame = vec![0x01, 0x02];
    let got = process_frame(&handlers, &mut conn, Origin::Server, frame.clone());
    assert_eq!(got, Ok(frame));
    assert_eq!(conn.current_frame_id(), 6);
}

#[test]
fn pipeline_stops_on_handler_error() {
    let handlers = vec![
        EventHandler::Debug(DebugEventHandler::new("Login".to_string())),
        EventHandler::LoginHandshake(LoginHandshaker::new()),
    ];
    let mut conn = fresh_conn();
    let got = process_frame(&handlers, &mut conn, Origin::Server, vec![1]);
    assert_eq!(got, Err(ProxyError::UnexpectedOrigin));
    assert_eq!(conn.current_frame_id(), 0);
}

#[test]
fn frame_types_propagate_to_both_codecs() {
    let mut conn = fresh_conn();
    conn.set_frame_type(FrameType::XTEA([1, 2, 3, 4]));
    let mut client = TibiaCodec::new();
    let mut server = TibiaCodec::new();
    sync_frame_types(&conn, &mut client, &mut server);
    assert_eq!(client.frame_type(), FrameType::XTEA([1, 2, 3, 4]));
    assert_eq!(server.frame_type(), FrameType::XTEA([1, 2, 3, 4]));
}

#[test]
fn game_session_ping_pong_roundtrip() {
    // After the handshake both sides hold the key; a keep-alive exchange
    // passes through the ciphered framing in both directions.
    let key = [0x11111111u32, 0x22222222, 0x33333333, 0x44444444];
    let mut conn = fresh_conn();
    conn.set_frame_type(FrameType::XTEA(key));
    let mut client = TibiaCodec::new();
    let mut server = TibiaCodec::new();
    sync_frame_types(&conn, &mut client, &mut server);
    // Server pings, client answers.
    let ping = vec![29u8];
    let mut wire = ByteBuf::new();
    server.encode(&ping, &mut wire).unwrap();
    assert_eq!(client.decode(&mut wire).unwrap(), Some(ping));
    let pong = vec![30u8];
    let mut wire = ByteBuf::new();
    client.encode(&pong, &mut wire).unwrap();
    assert_eq!(server.decode(&mut wire).unwrap(), Some(pong));
}

#[test]
fn game_handshake_nonce_framing() {
    // The server's greeting travels length-prefixed; after it the connection
    // drops to raw framing for the client's login frame.
    let mut conn = fresh_conn();
    let handlers = vec![EventHandler::GameHandshake(GameHandshaker::new())];
    for h in handlers.iter() {
        h.on_new_connection(&mut conn).unwrap();
    }
    assert_eq!(conn.frame_type(), FrameType::LengthPrefixed);
    let mut upstream = TibiaCodec::new();
    let mut downstream = TibiaCodec::new();
    sync_frame_types(&conn, &mut upstream, &mut downstream);

    // Upstream sends its nonce packet.
    let mut nonce = ByteBuf::new();
    rustia_proxy::game::GameServerPacket::Nonce(rustia_proxy::game::Nonce {
        timestamp: 1_700_000_000,
        random_number: 23,
    })
    .write_to(&mut nonce)
    .unwrap();
    let nonce_payload = nonce.into_vec();
    let mut wire = ByteBuf::new();
    upstream.encode(&nonce_payload, &mut wire).unwrap();

    // The pipeline decodes it, runs the middleware, and the codec drops to
    // raw for the next frame.
    let frame = downstream.decode(&mut wire).unwrap().expect("wanted more input");
    let forwarded = process_frame(&handlers, &mut conn, Origin::Server, frame).unwrap();
    assert_eq!(forwarded, nonce_payload);
    assert_eq!(conn.frame_type(), FrameType::Raw);
    assert_eq!(conn.current_frame_id(), 1);
}

#[test]
fn injector_rejects_unknown_packet_in_frame() {
    // Parsing is required on the second server frame, so an unknown packet
    // id is fatal to the connection.
    let injector = GameServerInjector::new("127.0.0.1".to_string(), 7174);
    let mut conn = fresh_conn();
    conn.current_frame_id = 1;
    let frame = vec![99u8, 1, 2, 3];
    let r = injector.on_frame(&mut conn, Origin::Server, frame);
    assert_eq!(
        r,
        Err(ProxyError::Packet(rustia_proxy::error::PacketError::UnknownPacket(99)))
    );
}

#[test]
fn first_client_login_frame_is_owed_success() {
    // A well-formed keep-alive stream after the handshake: the handshaker
    // passes every well-formed non-handshake frame through only at later
    // indexes; on the first frame, a parseable packet of the wrong kind is
    // the specific wrong-first-packet refusal, never a generic failure.
    let handshaker = LoginHandshaker::new();
    let mut conn = fresh_conn();
    let r = handshaker.on_frame(&mut conn, Origin::Client, vec![30]);
    assert_eq!(r, Err(ProxyError::WrongFirstPacket));
}
