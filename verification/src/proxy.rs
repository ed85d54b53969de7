use vstd::prelude::*;

use crate::buffer::{ByteBuf, copy_bytes};
use crate::client::{ClientPacket, spec_account_login_key, spec_client_packet_error, spec_game_login_key};
use crate::codec::{FrameType, TibiaCodec};
use crate::error::{CodecError, PacketError};
use crate::login::{
    rewrite_login_frame, spec_frame_error, spec_frame_has_charlist, spec_rewrite_frame,
};
use crate::buffer::string_len_ok;

verus! {

/// Which endpoint a frame came from.
#[derive(Clone, Copy, Debug, PartialEq, Eq, Structural)]
pub enum Origin {
    Client,
    Server,
}

/// Why a connection ended as far as the pipeline is concerned.
#[derive(Clone, Copy, Debug, PartialEq, Eq, Structural)]
pub enum ProxyError {
    /// A packet could not be read or written.
    Packet(PacketError),
    /// A frame could not be framed or deframed.
    Codec(CodecError),
    /// The handshake saw a frame from the endpoint whose turn it was not.
    UnexpectedOrigin,
    /// The handshake parsed the first packet and it was not the login kind
    /// the connection calls for.
    WrongFirstPacket,
    /// The underlying socket failed; the caller holds the details.
    Io,
}

/// What the pipeline reports to handlers when a connection ends.
#[derive(Clone, Copy, Debug, PartialEq, Eq, Structural)]
pub enum DisconnectReason {
    DisconnectedBy(Origin),
    Error(ProxyError),
}

/// The per-connection record: its identity, the endpoints' addresses, the
/// frame type that currently governs both codecs, and how many frames have
/// been dispatched.
pub struct ProxyConnection {
    pub id: usize,
    pub client_addr: String,
    pub server_addr: String,
    pub frame_type: FrameType,
    pub current_frame_id: usize,
}

/// Everything of a connection except its frame type is kept.
pub open spec fn conn_same_but_frame_type(pre: ProxyConnection, post: ProxyConnection) -> bool {
    &&& post.id == pre.id
    &&& post.client_addr@ == pre.client_addr@
    &&& post.server_addr@ == pre.server_addr@
    &&& post.current_frame_id == pre.current_frame_id
}

impl ProxyConnection {
    /// A fresh connection starts on its first frame, framing raw.
    pub fn new(id: usize, client_addr: String, server_addr: String) -> (r: ProxyConnection)
        ensures
            r.id == id,
            r.client_addr@ == client_addr@,
            r.server_addr@ == server_addr@,
            r.frame_type == FrameType::Raw,
            r.current_frame_id == 0,
    {
        ProxyConnection { id, client_addr, server_addr, frame_type: FrameType::Raw, current_frame_id: 0 }
    }

    /// The connection id.
    pub fn id(&self) -> (r: usize)
        ensures
            r == self.id,
    {
        self.id
    }

    /// The client's address.
    pub fn client_addr(&self) -> (r: &str)
        ensures
            r@ == self.client_addr@,
    {
        self.client_addr.as_str()
    }

    /// The upstream server's address.
    pub fn server_addr(&self) -> (r: &str)
        ensures
            r@ == self.server_addr@,
    {
        self.server_addr.as_str()
    }

    /// The address of the given endpoint.
    pub fn addr(&self, origin: Origin) -> (r: &str)
        ensures
            origin == Origin::Server ==> r@ == self.server_addr@,
            origin == Origin::Client ==> r@ == self.client_addr@,
    {
        match origin {
            Origin::Server => self.server_addr.as_str(),
            Origin::Client => self.client_addr.as_str(),
        }
    }

    /// The index of the frame being processed: zero for the first.
    pub fn current_frame_id(&self) -> (r: usize)
        ensures
            r == self.current_frame_id,
    {
        self.current_frame_id
    }

    /// Whether the frame being processed is the connection's first.
    pub fn first_frame(&self) -> (r: bool)
        ensures
            r == (self.current_frame_id == 0),
    {
        self.current_frame_id == 0
    }

    /// The frame type governing both codecs.
    pub fn frame_type(&self) -> (r: FrameType)
        ensures
            r == self.frame_type,
    {
        self.frame_type
    }

    /// Replaces the frame type, effective from the next frame onward.
    pub fn set_frame_type(&mut self, frame_type: FrameType)
        ensures
            final(self).frame_type == frame_type,
            conn_same_but_frame_type(*old(self), *final(self)),
    {
        self.frame_type = frame_type;
    }
}

/// Copies the connection's frame type into both codecs, as the pipeline does
/// before each wait: after it, what the handshake chose governs the next
/// decode and the next encode on either side.
pub fn sync_frame_types(conn: &ProxyConnection, client: &mut TibiaCodec, server: &mut TibiaCodec)
    ensures
        final(client).spec_frame_type() == conn.frame_type,
        final(server).spec_frame_type() == conn.frame_type,
        final(client).spec_state() == old(client).spec_state(),
        final(server).spec_state() == old(server).spec_state(),
{
    client.set_frame_type(conn.frame_type());
    server.set_frame_type(conn.frame_type());
}

/// A handler that echoes pipeline events; the library keeps frames and
/// connections untouched and leaves the printing to its caller.
pub struct DebugEventHandler {
    pub label: String,
}

impl DebugEventHandler {
    pub fn new(label: String) -> (r: DebugEventHandler)
        ensures
            r.label@ == label@,
    {
        DebugEventHandler { label }
    }

    pub fn new_boxed(label: String) -> (r: Box<DebugEventHandler>)
        ensures
            r.label@ == label@,
    {
        Box::new(DebugEventHandler::new(label))
    }
}

/// Detects the login handshake and turns the ciphered mode on with the key
/// the client sealed into its first frame.
pub struct LoginHandshaker;

/// What the login handshaker does with one frame, decided by the frame
/// alone. On the first frame, a frame from the server is refused; a client
/// frame that is a well-formed account login passes through unchanged and
/// its sealed key then governs the connection; a well-formed packet of any
/// other kind is refused as the wrong first packet; a malformed packet's
/// parse failure is handed back. Every later frame passes through untouched.
pub open spec fn login_on_frame_post(
    pre: ProxyConnection,
    post: ProxyConnection,
    from: Origin,
    frame: Seq<u8>,
    r: Result<Seq<u8>, ProxyError>,
) -> bool {
    if pre.current_frame_id != 0 {
        r == Ok::<Seq<u8>, ProxyError>(frame) && post == pre
    } else {
        match from {
            Origin::Server => r == Err::<Seq<u8>, ProxyError>(ProxyError::UnexpectedOrigin)
                && post == pre,
            Origin::Client => match spec_client_packet_error(frame) {
                Some(pe) => r == Err::<Seq<u8>, ProxyError>(ProxyError::Packet(pe)) && post == pre,
                None => if frame.len() > 0 && frame[0] == 1 {
                    &&& r == Ok::<Seq<u8>, ProxyError>(frame)
                    &&& conn_same_but_frame_type(pre, post)
                    &&& post.frame_type == FrameType::XTEA(spec_account_login_key(frame.skip(1)))
                } else {
                    r == Err::<Seq<u8>, ProxyError>(ProxyError::WrongFirstPacket) && post == pre
                },
            },
        }
    }
}

impl LoginHandshaker {
    pub fn new() -> (r: LoginHandshaker) {
        LoginHandshaker
    }

    pub fn new_boxed() -> (r: Box<LoginHandshaker>) {
        Box::new(LoginHandshaker::new())
    }

    /// Observes one frame of a login connection.
    pub fn on_frame(&self, connection: &mut ProxyConnection, from: Origin, frame: Vec<u8>) -> (r:
        Result<Vec<u8>, ProxyError>)
        ensures
            login_on_frame_post(
                *old(connection),
                *final(connection),
                from,
                frame@,
                match r {
                    Ok(v) => Ok(v@),
                    Err(e) => Err(e),
                },
            ),
    {
        if connection.first_frame() {
            match from {
                Origin::Server => {
                    return Err(ProxyError::UnexpectedOrigin);
                },
                Origin::Client => {
                    let mut bb = ByteBuf::from_vec(copy_bytes(&frame));
                    proof {
                        assert(frame@.skip(0) =~= frame@);
                    }
                    match ClientPacket::read_from(&mut bb) {
                        Ok(ClientPacket::AccountLogin(login)) => {
                            connection.set_frame_type(FrameType::XTEA(login.xtea_key));
                        },
                        Ok(_) => {
                            return Err(ProxyError::WrongFirstPacket);
                        },
                        Err(e) => {
                            return Err(ProxyError::Packet(e));
                        },
                    }
                },
            }
        }
        Ok(frame)
    }
}

/// Detects the game handshake: the server's length-prefixed greeting first,
/// then the client's game login, whose sealed key then governs the
/// connection.
pub struct GameHandshaker;

/// What the game handshaker does with one frame, decided by the frame
/// alone. The first frame passes through and drops the codec to raw framing.
/// On the second, a server frame is refused; a client frame that is a
/// well-formed game login passes through unchanged and its sealed key then
/// governs the connection; a well-formed packet of any other kind is refused
/// as the wrong first packet; a malformed packet's parse failure is handed
/// back. Every later frame passes through untouched.
pub open spec fn game_on_frame_post(
    pre: ProxyConnection,
    post: ProxyConnection,
    from: Origin,
    frame: Seq<u8>,
    r: Result<Seq<u8>, ProxyError>,
) -> bool {
    if pre.current_frame_id == 0 {
        r == Ok::<Seq<u8>, ProxyError>(frame) && conn_same_but_frame_type(pre, post)
            && post.frame_type == FrameType::Raw
    } else if pre.current_frame_id == 1 {
        match from {
            Origin::Server => r == Err::<Seq<u8>, ProxyError>(ProxyError::UnexpectedOrigin)
                && post == pre,
            Origin::Client => match spec_client_packet_error(frame) {
                Some(pe) => r == Err::<Seq<u8>, ProxyError>(ProxyError::Packet(pe)) && post == pre,
                None => if frame.len() > 0 && frame[0] == 10 {
                    &&& r == Ok::<Seq<u8>, ProxyError>(frame)
                    &&& conn_same_but_frame_type(pre, post)
                    &&& post.frame_type == FrameType::XTEA(spec_game_login_key(frame.skip(1)))
                } else {
                    r == Err::<Seq<u8>, ProxyError>(ProxyError::WrongFirstPacket) && post == pre
                },
            },
        }
    } else {
        r == Ok::<Seq<u8>, ProxyError>(frame) && post == pre
    }
}

impl GameHandshaker {
    pub fn new() -> (r: GameHandshaker) {
        GameHandshaker
    }

    pub fn new_boxed() -> (r: Box<GameHandshaker>) {
        Box::new(GameHandshaker::new())
    }

    /// A game connection greets with the server's length-prefixed nonce, so
    /// the codec starts in that mode.
    pub fn on_new_connection(&self, connection: &mut ProxyConnection) -> (r: Result<
        (),
        ProxyError,
    >)
        ensures
            r == Ok::<(), ProxyError>(()),
            final(connection).frame_type == FrameType::LengthPrefixed,
            conn_same_but_frame_type(*old(connection), *final(connection)),
    {
        connection.set_frame_type(FrameType::LengthPrefixed);
        Ok(())
    }

    /// Observes one frame of a game connection.
    pub fn on_frame(&self, connection: &mut ProxyConnection, from: Origin, frame: Vec<u8>) -> (r:
        Result<Vec<u8>, ProxyError>)
        ensures
            game_on_frame_post(
                *old(connection),
                *final(connection),
                from,
                frame@,
                match r {
                    Ok(v) => Ok(v@),
                    Err(e) => Err(e),
                },
            ),
    {
        if connection.first_frame() {
            // The nonce is forwarded untouched; only its framing is special.
            connection.set_frame_type(FrameType::Raw);
        } else if connection.current_frame_id() == 1 {
            match from {
                Origin::Server => {
                    return Err(ProxyError::UnexpectedOrigin);
                },
                Origin::Client => {
                    let mut bb = ByteBuf::from_vec(copy_bytes(&frame));
                    proof {
                        assert(frame@.skip(0) =~= frame@);
                    }
                    match ClientPacket::read_from(&mut bb) {
                        Ok(ClientPacket::GameLogin(login)) => {
                            connection.set_frame_type(FrameType::XTEA(login.xtea_key));
                        },
                        Ok(_) => {
                            return Err(ProxyError::WrongFirstPacket);
                        },
                        Err(e) => {
                            return Err(ProxyError::Packet(e));
                        },
                    }
                },
            }
        }
        Ok(frame)
    }
}

/// Rewrites every character list the login server answers with, so that the
/// client's game session is steered through the configured endpoint.
pub struct GameServerInjector {
    pub server_ip: String,
    pub server_port: u16,
}

/// What the injector does with one frame, decided by the frame and the
/// configured endpoint. Only the second frame of a login connection is
/// touched: a client frame there is refused; a server frame whose packets
/// are all well-formed is owed success and is re-emitted in order with every
/// world's endpoint replaced — byte-identical when no character list is
/// present — while a malformed frame fails with its first packet's parse
/// error, and an endpoint too long for a length prefix fails the write.
pub open spec fn injector_on_frame_post(
    pre: ProxyConnection,
    post: ProxyConnection,
    from: Origin,
    frame: Seq<u8>,
    r: Result<Seq<u8>, ProxyError>,
    ip: Seq<char>,
    port: u16,
) -> bool {
    if pre.current_frame_id == 1 {
        match from {
            Origin::Client => r == Err::<Seq<u8>, ProxyError>(ProxyError::UnexpectedOrigin)
                && post == pre,
            Origin::Server => post == pre && match r {
                Ok(out) => {
                    &&& spec_frame_error(frame) == None::<PacketError>
                    &&& out == spec_rewrite_frame(frame, ip, port)
                    &&& !spec_frame_has_charlist(frame) ==> out == frame
                },
                Err(e) => match e {
                    ProxyError::Packet(pe) => spec_frame_error(frame) == Some(pe) || (pe
                        == PacketError::StringTooLong && !string_len_ok(ip)),
                    _ => false,
                },
            },
        }
    } else {
        r == Ok::<Seq<u8>, ProxyError>(frame) && post == pre
    }
}

impl GameServerInjector {
    pub fn new(server_ip: String, server_port: u16) -> (r: GameServerInjector)
        ensures
            r.server_ip@ == server_ip@,
            r.server_port == server_port,
    {
        GameServerInjector { server_ip, server_port }
    }

    pub fn new_boxed(server_ip: String, server_port: u16) -> (r: Box<GameServerInjector>)
        ensures
            r.server_ip@ == server_ip@,
            r.server_port == server_port,
    {
        Box::new(GameServerInjector::new(server_ip, server_port))
    }

    /// Observes one frame of a login connection, rewriting the character
    /// list response.
    pub fn on_frame(&self, connection: &mut ProxyConnection, from: Origin, frame: Vec<u8>) -> (r:
        Result<Vec<u8>, ProxyError>)
        ensures
            injector_on_frame_post(
                *old(connection),
                *final(connection),
                from,
                frame@,
                match r {
                    Ok(v) => Ok(v@),
                    Err(e) => Err(e),
                },
                self.server_ip@,
                self.server_port,
            ),
    {
        if connection.current_frame_id() == 1 {
            match from {
                Origin::Client => Err(ProxyError::UnexpectedOrigin),
                Origin::Server => {
                    match rewrite_login_frame(frame, self.server_ip.as_str(), self.server_port) {
                        Ok(out) => Ok(out.0),
                        Err(e) => Err(ProxyError::Packet(e)),
                    }
                },
            }
        } else {
            Ok(frame)
        }
    }
}

/// One participant of the middleware list, in the tagged form the pipeline
/// dispatches on.
pub enum EventHandler {
    Debug(DebugEventHandler),
    LoginHandshake(LoginHandshaker),
    GameHandshake(GameHandshaker),
    Injector(GameServerInjector),
}

impl EventHandler {
    /// Runs when a client has connected, before the upstream is dialled.
    pub fn on_new_connection(&self, connection: &mut ProxyConnection) -> (r: Result<
        (),
        ProxyError,
    >)
        ensures
            r == Ok::<(), ProxyError>(()),
            conn_same_but_frame_type(*old(connection), *final(connection)),
            match self {
                EventHandler::GameHandshake(_) => final(connection).frame_type
                    == FrameType::LengthPrefixed,
                _ => *final(connection) == *old(connection),
            },
    {
        match self {
            EventHandler::GameHandshake(h) => h.on_new_connection(connection),
            _ => Ok(()),
        }
    }

    /// Runs when both endpoints are connected.
    pub fn on_ready(&self, connection: &mut ProxyConnection) -> (r: Result<(), ProxyError>)
        ensures
            r == Ok::<(), ProxyError>(()),
            *final(connection) == *old(connection),
    {
        Ok(())
    }

    /// Middleware for one frame: observes, may switch the frame type, may
    /// rewrite the frame.
    pub fn on_frame(&self, connection: &mut ProxyConnection, from: Origin, frame: Vec<u8>) -> (r:
        Result<Vec<u8>, ProxyError>)
        ensures
            ({
                let rv = match r {
                    Ok(v) => Ok(v@),
                    Err(e) => Err(e),
                };
                match self {
                    EventHandler::Debug(_) => rv == Ok::<Seq<u8>, ProxyError>(frame@)
                        && *final(connection) == *old(connection),
                    EventHandler::LoginHandshake(_) => login_on_frame_post(
                        *old(connection),
                        *final(connection),
                        from,
                        frame@,
                        rv,
                    ),
                    EventHandler::GameHandshake(_) => game_on_frame_post(
                        *old(connection),
                        *final(connection),
                        from,
                        frame@,
                        rv,
                    ),
                    EventHandler::Injector(g) => injector_on_frame_post(
                        *old(connection),
                        *final(connection),
                        from,
                        frame@,
                        rv,
                        g.server_ip@,
                        g.server_port,
                    ),
                }
            }),
            conn_same_but_frame_type(*old(connection), *final(connection)),
    {
        match self {
            EventHandler::Debug(_) => Ok(frame),
            EventHandler::LoginHandshake(h) => h.on_frame(connection, from, frame),
            EventHandler::GameHandshake(h) => h.on_frame(connection, from, frame),
            EventHandler::Injector(h) => h.on_frame(connection, from, frame),
        }
    }

    /// Runs after the connection ended, for either reason; advisory only.
    pub fn on_disconnect(&self, connection: &mut ProxyConnection, reason: &DisconnectReason)
        ensures
            *final(connection) == *old(connection),
    {
    }
}


/// What one handler does with one frame, by its kind.
pub open spec fn handler_on_frame_post(
    h: EventHandler,
    pre: ProxyConnection,
    post: ProxyConnection,
    from: Origin,
    f: Seq<u8>,
    r: Result<Seq<u8>, ProxyError>,
) -> bool {
    match h {
        EventHandler::Debug(_) => r == Ok::<Seq<u8>, ProxyError>(f) && post == pre,
        EventHandler::LoginHandshake(_) => login_on_frame_post(pre, post, from, f, r),
        EventHandler::GameHandshake(_) => game_on_frame_post(pre, post, from, f, r),
        EventHandler::Injector(g) => injector_on_frame_post(
            pre,
            post,
            from,
            f,
            r,
            g.server_ip@,
            g.server_port,
        ),
    }
}

/// What a whole handler list does with one frame: each handler's result is
/// threaded to the next, and the first failure stops the chain with the
/// connection as that handler left it.
pub open spec fn pipeline_on_frame_post(
    hs: Seq<EventHandler>,
    pre: ProxyConnection,
    post: ProxyConnection,
    from: Origin,
    f: Seq<u8>,
    r: Result<Seq<u8>, ProxyError>,
) -> bool
    decreases hs.len(),
{
    if hs.len() == 0 {
        r == Ok::<Seq<u8>, ProxyError>(f) && post == pre
    } else {
        ||| exists|mid: ProxyConnection, fm: Seq<u8>|
            #[trigger] handler_on_frame_post(hs[0], pre, mid, from, f, Ok(fm))
                && pipeline_on_frame_post(hs.drop_first(), mid, post, from, fm, r)
        ||| (match r {
            Err(e) => handler_on_frame_post(hs[0], pre, post, from, f, Err(e)),
            Ok(_) => false,
        })
    }
}

/// Threads one frame through every handler in order, then counts it as
/// dispatched: the result and the connection are what the handlers' chain
/// leaves, with the frame counter stepped once on success. On a handler
/// error the frame is dropped, nothing more is run, and the frame counter
/// does not move.
pub fn process_frame(
    handlers: &Vec<EventHandler>,
    connection: &mut ProxyConnection,
    from: Origin,
    frame: Vec<u8>,
) -> (r: Result<Vec<u8>, ProxyError>)
    requires
        old(connection).current_frame_id < usize::MAX,
    ensures
        conn_same_but_frame_type(
            *old(connection),
            ProxyConnection {
                current_frame_id: old(connection).current_frame_id,
                ..*final(connection)
            },
        ),
        match r {
            Ok(_) => final(connection).current_frame_id == old(connection).current_frame_id + 1,
            Err(_) => final(connection).current_frame_id == old(connection).current_frame_id,
        },
        pipeline_on_frame_post(
            handlers@,
            *old(connection),
            ProxyConnection {
                current_frame_id: old(connection).current_frame_id,
                ..*final(connection)
            },
            from,
            frame@,
            match r {
                Ok(v) => Ok(v@),
                Err(e) => Err(e),
            },
        ),
{
    let n: usize = handlers.len();
    let mut current = frame;
    let mut i: usize = 0;
    proof {
        assert(handlers@.skip(0) =~= handlers@);
    }
    while i < n
        invariant
            n == handlers@.len(),
            i <= n,
            connection.id == old(connection).id,
            connection.client_addr@ == old(connection).client_addr@,
            connection.server_addr@ == old(connection).server_addr@,
            connection.current_frame_id == old(connection).current_frame_id,
            forall|cend: ProxyConnection, rr: Result<Seq<u8>, ProxyError>|
                pipeline_on_frame_post(
                    handlers@.skip(i as int),
                    *connection,
                    cend,
                    from,
                    current@,
                    rr,
                ) ==> #[trigger] pipeline_on_frame_post(
                    handlers@,
                    *old(connection),
                    cend,
                    from,
                    frame@,
                    rr,
                ),
        decreases n - i,
    {
        let ghost cpre = *connection;
        let ghost fpre = current@;
        current = match handlers[i].on_frame(connection, from, current) {
            Ok(v) => v,
            Err(e) => {
                proof {
                    assert(handlers@.skip(i as int)[0] == handlers@[i as int]);
                    assert(handler_on_frame_post(
                        handlers@[i as int],
                        cpre,
                        *connection,
                        from,
                        fpre,
                        Err::<Seq<u8>, ProxyError>(e),
                    ));
                    assert(pipeline_on_frame_post(
                        handlers@.skip(i as int),
                        cpre,
                        *connection,
                        from,
                        fpre,
                        Err::<Seq<u8>, ProxyError>(e),
                    ));
                    assert(pipeline_on_frame_post(
                        handlers@,
                        *old(connection),
                        *connection,
                        from,
                        frame@,
                        Err::<Seq<u8>, ProxyError>(e),
                    ));
                }
                return Err(e);
            },
        };
        i = i + 1;
        proof {
            let ghost cnow = *connection;
            assert(handlers@.skip(i - 1)[0] == handlers@[i - 1]);
            assert(handlers@.skip(i - 1).drop_first() =~= handlers@.skip(i as int));
            assert(handler_on_frame_post(
                handlers@[i - 1],
                cpre,
                cnow,
                from,
                fpre,
                Ok::<Seq<u8>, ProxyError>(current@),
            ));
            assert forall|cend: ProxyConnection, rr: Result<Seq<u8>, ProxyError>|
                pipeline_on_frame_post(
                    handlers@.skip(i as int),
                    cnow,
                    cend,
                    from,
                    current@,
                    rr,
                ) implies #[trigger] pipeline_on_frame_post(
                handlers@,
                *old(connection),
                cend,
                from,
                frame@,
                rr,
            ) by {
                assert(handler_on_frame_post(
                    handlers@.skip(i - 1)[0],
                    cpre,
                    cnow,
                    from,
                    fpre,
                    Ok::<Seq<u8>, ProxyError>(current@),
                ));
                assert(pipeline_on_frame_post(
                    handlers@.skip(i - 1),
                    cpre,
                    cend,
                    from,
                    fpre,
                    rr,
                ));
            }
        }
    }
    proof {
        assert(handlers@.skip(n as int).len() == 0);
        assert(pipeline_on_frame_post(
            handlers@.skip(n as int),
            *connection,
            *connection,
            from,
            current@,
            Ok::<Seq<u8>, ProxyError>(current@),
        ));
        assert(pipeline_on_frame_post(
            handlers@,
            *old(connection),
            *connection,
            from,
            frame@,
            Ok::<Seq<u8>, ProxyError>(current@),
        ));
    }
    connection.current_frame_id = connection.current_frame_id + 1;
    Ok(current)
}

/// The login handshake, in one statement. On a login connection the first
/// frame must come from the client and be a well-formed account login: a
/// server frame is refused; a well-formed account login is owed success and
/// keys the connection with the key sealed into the frame; a well-formed
/// packet of another kind is refused as the wrong first packet; a malformed
/// packet fails with its own parse error; every failure leaves the
/// connection untouched. A second client frame is refused and changes
/// nothing.
pub proof fn lemma_login_handshake(
    c0: ProxyConnection,
    c1: ProxyConnection,
    from: Origin,
    frame: Seq<u8>,
    r: Result<Seq<u8>, ProxyError>,
    ip: Seq<char>,
    port: u16,
)
    ensures
        c0.current_frame_id == 0 && login_on_frame_post(c0, c1, from, frame, r) ==> match from {
            Origin::Server => r == Err::<Seq<u8>, ProxyError>(ProxyError::UnexpectedOrigin) && c1
                == c0,
            Origin::Client => match spec_client_packet_error(frame) {
                Some(pe) => r == Err::<Seq<u8>, ProxyError>(ProxyError::Packet(pe)) && c1 == c0,
                None => if frame.len() > 0 && frame[0] == 1 {
                    r == Ok::<Seq<u8>, ProxyError>(frame) && c1.frame_type == FrameType::XTEA(
                        spec_account_login_key(frame.skip(1)),
                    )
                } else {
                    r == Err::<Seq<u8>, ProxyError>(ProxyError::WrongFirstPacket) && c1 == c0
                },
            },
        },
        c0.current_frame_id == 1 && from == Origin::Client && injector_on_frame_post(
            c0,
            c1,
            from,
            frame,
            r,
            ip,
            port,
        ) ==> r == Err::<Seq<u8>, ProxyError>(ProxyError::UnexpectedOrigin) && c1 == c0,
{
}

/// The game handshake, in one statement. The first frame passes through and
/// drops the connection to raw framing. The second frame must come from the
/// client and be a well-formed game login: a server frame is refused; a
/// well-formed game login is owed success and keys the connection with the
/// key sealed into the frame; a well-formed packet of another kind is
/// refused as the wrong first packet; a malformed packet fails with its own
/// parse error; every failure leaves the connection untouched.
pub proof fn lemma_game_handshake(
    c0: ProxyConnection,
    c1: ProxyConnection,
    from: Origin,
    frame: Seq<u8>,
    r: Result<Seq<u8>, ProxyError>,
)
    ensures
        c0.current_frame_id == 0 && game_on_frame_post(c0, c1, from, frame, r) ==> r == Ok::<
            Seq<u8>,
            ProxyError,
        >(frame) && c1.frame_type == FrameType::Raw,
        c0.current_frame_id == 1 && game_on_frame_post(c0, c1, from, frame, r) ==> match from {
            Origin::Server => r == Err::<Seq<u8>, ProxyError>(ProxyError::UnexpectedOrigin) && c1
                == c0,
            Origin::Client => match spec_client_packet_error(frame) {
                Some(pe) => r == Err::<Seq<u8>, ProxyError>(ProxyError::Packet(pe)) && c1 == c0,
                None => if frame.len() > 0 && frame[0] == 10 {
                    r == Ok::<Seq<u8>, ProxyError>(frame) && c1.frame_type == FrameType::XTEA(
                        spec_game_login_key(frame.skip(1)),
                    )
                } else {
                    r == Err::<Seq<u8>, ProxyError>(ProxyError::WrongFirstPacket) && c1 == c0
                },
            },
        },
{
}

} // verus!
