use vstd::prelude::*;

use crate::buffer::{
    ByteBuf, lemma_string_consumed, lemma_string_step_of_encoding, lemma_string_step_shift,
    lemma_u16_le_inverse, lemma_u32_le_inverse, spec_string_step, string_encoding, string_len_ok,
    u16_from_le, u16_le, u32_le,
};
use crate::error::PacketError;

verus! {

/// A login-refused message.
pub struct Error(pub String);

/// A second form of login-refused message.
pub struct Error2(pub String);

/// The message of the day.
pub struct Motd(pub String);

/// The session key handed to the client.
pub struct SessionKey(pub String);

/// One game world in a character list.
pub struct World {
    pub id: u8,
    pub name: String,
    pub ip: String,
    pub port: u16,
}

/// One playable character in a character list.
pub struct Character {
    pub world_id: u8,
    pub name: String,
}

/// The list of worlds and characters a login server answers with.
pub struct CharacterList {
    pub worlds: Vec<World>,
    pub characters: Vec<Character>,
    pub has_premium: bool,
    pub premium_days_left: u32,
}

/// Any packet a login server sends, tagged by its leading id byte.
pub enum LoginServerPacket {
    Error(Error),
    Error2(Error2),
    Motd(Motd),
    SessionKey(SessionKey),
    CharacterList(CharacterList),
}

pub open spec fn bool_byte(b: bool) -> u8 {
    if b {
        1
    } else {
        0
    }
}

pub open spec fn world_ok(w: World) -> bool {
    string_len_ok(w.name@) && string_len_ok(w.ip@)
}

pub open spec fn character_ok(c: Character) -> bool {
    string_len_ok(c.name@)
}

/// The bytes one world occupies: id, name, ip, port, and a zero byte.
pub open spec fn spec_write_world(w: World) -> Seq<u8> {
    seq![w.id] + string_encoding(w.name@) + string_encoding(w.ip@) + u16_le(w.port) + seq![0u8]
}

pub open spec fn spec_write_worlds(ws: Seq<World>) -> Seq<u8>
    decreases ws.len(),
{
    if ws.len() == 0 {
        Seq::<u8>::empty()
    } else {
        spec_write_worlds(ws.drop_last()) + spec_write_world(ws.last())
    }
}

/// The bytes one character occupies: world id and name.
pub open spec fn spec_write_character(c: Character) -> Seq<u8> {
    seq![c.world_id] + string_encoding(c.name@)
}

pub open spec fn spec_write_characters(cs: Seq<Character>) -> Seq<u8>
    decreases cs.len(),
{
    if cs.len() == 0 {
        Seq::<u8>::empty()
    } else {
        spec_write_characters(cs.drop_last()) + spec_write_character(cs.last())
    }
}

/// Every string fits its length prefix and every count fits its byte.
pub open spec fn charlist_ok(c: CharacterList) -> bool {
    &&& c.worlds@.len() <= 255
    &&& c.characters@.len() <= 255
    &&& forall|i: int| 0 <= i < c.worlds@.len() ==> world_ok(#[trigger] c.worlds@[i])
    &&& forall|i: int| 0 <= i < c.characters@.len() ==> character_ok(#[trigger] c.characters@[i])
}

/// The payload bytes of a character list: world count and worlds, character
/// count and characters, a zero byte, the premium flag, the premium days.
pub open spec fn spec_write_charlist(c: CharacterList) -> Seq<u8> {
    seq![c.worlds@.len() as u8] + spec_write_worlds(c.worlds@) + seq![c.characters@.len() as u8]
        + spec_write_characters(c.characters@) + seq![0u8, bool_byte(c.has_premium)] + u32_le(
        c.premium_days_left,
    )
}

/// The id byte each login server packet starts with.
pub open spec fn spec_login_packet_id(p: LoginServerPacket) -> u8 {
    match p {
        LoginServerPacket::Error(_) => 10,
        LoginServerPacket::Error2(_) => 11,
        LoginServerPacket::Motd(_) => 20,
        LoginServerPacket::SessionKey(_) => 40,
        LoginServerPacket::CharacterList(_) => 100,
    }
}

pub open spec fn login_packet_ok(p: LoginServerPacket) -> bool {
    match p {
        LoginServerPacket::Error(v) => string_len_ok(v.0@),
        LoginServerPacket::Error2(v) => string_len_ok(v.0@),
        LoginServerPacket::Motd(v) => string_len_ok(v.0@),
        LoginServerPacket::SessionKey(v) => string_len_ok(v.0@),
        LoginServerPacket::CharacterList(c) => charlist_ok(c),
    }
}

/// The complete bytes of one login server packet, id byte included.
pub open spec fn spec_write_login_packet(p: LoginServerPacket) -> Seq<u8> {
    seq![spec_login_packet_id(p)] + match p {
        LoginServerPacket::Error(v) => string_encoding(v.0@),
        LoginServerPacket::Error2(v) => string_encoding(v.0@),
        LoginServerPacket::Motd(v) => string_encoding(v.0@),
        LoginServerPacket::SessionKey(v) => string_encoding(v.0@),
        LoginServerPacket::CharacterList(c) => spec_write_charlist(c),
    }
}

/// How many bytes one world entry occupies, or why reading it fails,
/// mirroring the reader's checks in their order: the id byte, two strings,
/// the port, and a separator that must be zero.
pub open spec fn spec_world_step(s: Seq<u8>) -> Result<int, PacketError> {
    if s.len() < 1 {
        Err(PacketError::Truncated)
    } else {
        match spec_string_step(s, 1) {
            Err(e) => Err(e),
            Ok(o1) => match spec_string_step(s, o1) {
                Err(e) => Err(e),
                Ok(o2) => if s.len() - o2 < 3 {
                    Err(PacketError::Truncated)
                } else if s[o2 + 2] != 0 {
                    Err(PacketError::MalformedPacket)
                } else {
                    Ok(o2 + 3)
                },
            },
        }
    }
}

/// How many bytes one character entry occupies, or why reading it fails: the
/// world id byte and the name string.
pub open spec fn spec_character_step(s: Seq<u8>) -> Result<int, PacketError> {
    if s.len() < 1 {
        Err(PacketError::Truncated)
    } else {
        spec_string_step(s, 1)
    }
}

/// How many bytes `count` consecutive world entries occupy, or the failure
/// of the first one that cannot be read.
pub open spec fn spec_worlds_step(s: Seq<u8>, count: int) -> Result<int, PacketError>
    decreases count,
{
    if count <= 0 {
        Ok(0)
    } else {
        match spec_world_step(s) {
            Err(e) => Err(e),
            Ok(o) => match spec_worlds_step(s.skip(o), count - 1) {
                Err(e) => Err(e),
                Ok(t) => Ok(o + t),
            },
        }
    }
}

/// How many bytes `count` consecutive character entries occupy, or the
/// failure of the first one that cannot be read.
pub open spec fn spec_characters_step(s: Seq<u8>, count: int) -> Result<int, PacketError>
    decreases count,
{
    if count <= 0 {
        Ok(0)
    } else {
        match spec_character_step(s) {
            Err(e) => Err(e),
            Ok(o) => match spec_characters_step(s.skip(o), count - 1) {
                Err(e) => Err(e),
                Ok(t) => Ok(o + t),
            },
        }
    }
}

/// How many bytes a character list payload occupies, or why reading it
/// fails: the world count and its worlds, the character count and its
/// characters, the zero byte, the premium flag (zero or one), and the
/// premium days.
pub open spec fn spec_charlist_step(s: Seq<u8>) -> Result<int, PacketError> {
    if s.len() < 1 {
        Err(PacketError::Truncated)
    } else {
        match spec_worlds_step(s.skip(1), s[0] as int) {
            Err(e) => Err(e),
            Ok(wlen) => {
                let o1 = 1 + wlen;
                if s.len() - o1 < 1 {
                    Err(PacketError::Truncated)
                } else {
                    match spec_characters_step(s.skip(o1 + 1), s[o1] as int) {
                        Err(e) => Err(e),
                        Ok(clen) => {
                            let o2 = o1 + 1 + clen;
                            if s.len() - o2 < 1 {
                                Err(PacketError::Truncated)
                            } else if s[o2] != 0 {
                                Err(PacketError::MalformedPacket)
                            } else if s.len() - o2 < 2 {
                                Err(PacketError::Truncated)
                            } else if s[o2 + 1] > 1 {
                                Err(PacketError::MalformedPacket)
                            } else if s.len() - o2 - 2 < 4 {
                                Err(PacketError::Truncated)
                            } else {
                                Ok(o2 + 6)
                            }
                        },
                    }
                }
            },
        }
    }
}

/// How many bytes one login server packet occupies, or why reading it
/// fails: the id byte must be present and known, and the payload it selects
/// must be well-formed.
pub open spec fn spec_login_packet_step(s: Seq<u8>) -> Result<int, PacketError> {
    if s.len() < 1 {
        Err(PacketError::Truncated)
    } else if s[0] == 10 || s[0] == 11 || s[0] == 20 || s[0] == 40 {
        spec_string_step(s, 1)
    } else if s[0] == 100 {
        match spec_charlist_step(s.skip(1)) {
            Err(e) => Err(e),
            Ok(k) => Ok(1 + k),
        }
    } else {
        Err(PacketError::UnknownPacket(s[0]))
    }
}


/// Why parsing a whole frame of login server packets fails, or `None` when
/// every packet in it is well-formed.
pub open spec fn spec_frame_error(s: Seq<u8>) -> Option<PacketError>
    decreases s.len(),
{
    if s.len() == 0 {
        None
    } else {
        match spec_login_packet_step(s) {
            Err(e) => Some(e),
            Ok(k) => if k < 1 || k > s.len() {
                None
            } else {
                spec_frame_error(s.skip(k))
            },
        }
    }
}

/// Whether a well-formed frame holds a character list packet anywhere.
pub open spec fn spec_frame_has_charlist(s: Seq<u8>) -> bool
    decreases s.len(),
{
    if s.len() == 0 {
        false
    } else {
        match spec_login_packet_step(s) {
            Err(_) => false,
            Ok(k) => if k < 1 || k > s.len() {
                false
            } else {
                s[0] == 100 || spec_frame_has_charlist(s.skip(k))
            },
        }
    }
}

/// One world's bytes with its endpoint replaced: the id and name are kept,
/// the ip, port and separator are written anew.
pub open spec fn spec_rewrite_world_chunk(w: Seq<u8>, ip: Seq<char>, port: u16) -> Seq<u8> {
    match spec_string_step(w, 1) {
        Ok(o1) => w.take(o1) + string_encoding(ip) + u16_le(port) + seq![0u8],
        Err(_) => w,
    }
}

/// `count` consecutive world entries with their endpoints replaced.
pub open spec fn spec_rewrite_worlds(s: Seq<u8>, count: int, ip: Seq<char>, port: u16) -> Seq<u8>
    decreases count,
{
    if count <= 0 {
        Seq::<u8>::empty()
    } else {
        match spec_world_step(s) {
            Err(_) => Seq::<u8>::empty(),
            Ok(o) => spec_rewrite_world_chunk(s.take(o), ip, port) + spec_rewrite_worlds(
                s.skip(o),
                count - 1,
                ip,
                port,
            ),
        }
    }
}

/// A character list payload with every world's endpoint replaced; the
/// character entries and premium fields after the worlds are kept as they
/// stand.
pub open spec fn spec_rewrite_charlist(s: Seq<u8>, ip: Seq<char>, port: u16) -> Seq<u8> {
    if s.len() < 1 {
        s
    } else {
        match spec_worlds_step(s.skip(1), s[0] as int) {
            Err(_) => s,
            Ok(wlen) => s.take(1) + spec_rewrite_worlds(s.skip(1), s[0] as int, ip, port) + s.skip(
                1 + wlen,
            ),
        }
    }
}

/// A whole frame with every character list's worlds steered to the given
/// endpoint and every other packet kept byte for byte.
pub open spec fn spec_rewrite_frame(s: Seq<u8>, ip: Seq<char>, port: u16) -> Seq<u8>
    decreases s.len(),
{
    if s.len() == 0 {
        s
    } else {
        match spec_login_packet_step(s) {
            Err(_) => s,
            Ok(k) => if k < 1 || k > s.len() {
                s
            } else {
                (if s[0] == 100 {
                    s.take(1) + spec_rewrite_charlist(s.skip(1).take(k - 1), ip, port)
                } else {
                    s.take(k)
                }) + spec_rewrite_frame(s.skip(k), ip, port)
            },
        }
    }
}

/// A list of worlds can be read first-to-last as well as by peeling the
/// last entry off.
proof fn lemma_write_worlds_cons(ws: Seq<World>)
    requires
        ws.len() > 0,
    ensures
        spec_write_worlds(ws) == spec_write_world(ws[0]) + spec_write_worlds(ws.drop_first()),
    decreases ws.len(),
{
    if ws.len() == 1 {
        assert(ws.drop_last() =~= Seq::<World>::empty());
        assert(ws.drop_first() =~= Seq::<World>::empty());
        assert(ws.last() == ws[0]);
        assert(spec_write_worlds(ws) =~= spec_write_world(ws[0]) + spec_write_worlds(
            ws.drop_first(),
        ));
    } else {
        let head = ws.drop_last();
        lemma_write_worlds_cons(head);
        assert(head[0] == ws[0]);
        assert(ws.drop_first().drop_last() =~= head.drop_first());
        assert(ws.drop_first().last() == ws.last());
        assert(ws.drop_first().len() > 0);
        assert(spec_write_worlds(ws.drop_first()) == spec_write_worlds(head.drop_first())
            + spec_write_world(ws.last()));
        assert(spec_write_worlds(ws) =~= spec_write_world(ws[0]) + spec_write_worlds(
            ws.drop_first(),
        ));
    }
}

/// A world's own encoding, placed at the front, always reads back as one
/// whole world entry.
proof fn lemma_world_step_of_write(w: World, rest: Seq<u8>)
    requires
        world_ok(w),
    ensures
        spec_world_step(spec_write_world(w) + rest) == Ok::<int, PacketError>(
            spec_write_world(w).len() as int,
        ),
        spec_rewrite_world_chunk(spec_write_world(w), w.ip@, w.port) == spec_write_world(w),
{
    let ww = spec_write_world(w);
    let x = ww + rest;
    let ne = string_encoding(w.name@);
    let ie = string_encoding(w.ip@);
    let o1 = 1 + ne.len() as int;
    let o2 = o1 + ie.len() as int;
    assert(x.subrange(1, o1) =~= ne);
    lemma_string_step_of_encoding(x, 1, w.name@);
    assert(x.subrange(o1, o2) =~= ie);
    lemma_string_step_of_encoding(x, o1, w.ip@);
    assert(x[o2] == u16_le(w.port)[0] && x[o2 + 1] == u16_le(w.port)[1]);
    assert(x[o2 + 2] == 0);
    assert(spec_world_step(x) == Ok::<int, PacketError>(o2 + 3));
    assert(ww.len() == o2 + 3);
    // The chunk form: the step inside the lone world bytes finds the same
    // name, so the rewrite keeps id and name and replaces the rest.
    assert(ww.subrange(1, o1) =~= ne);
    lemma_string_step_of_encoding(ww, 1, w.name@);
    assert(ww.take(o1) =~= seq![w.id] + ne);
    assert(spec_rewrite_world_chunk(ww, w.ip@, w.port) =~= ww);
}

/// The rewrite of a world's encoding under a new endpoint is the encoding of
/// the world with that endpoint.
proof fn lemma_rewrite_world_chunk(w: World, w2: World, ip: Seq<char>, port: u16)
    requires
        world_ok(w),
        w2.id == w.id,
        w2.name@ == w.name@,
        w2.ip@ == ip,
        w2.port == port,
    ensures
        spec_rewrite_world_chunk(spec_write_world(w), ip, port) == spec_write_world(w2),
{
    let ww = spec_write_world(w);
    let ne = string_encoding(w.name@);
    let o1 = 1 + ne.len() as int;
    assert(ww.subrange(1, o1) =~= ne);
    lemma_string_step_of_encoding(ww, 1, w.name@);
    assert(ww.take(o1) =~= seq![w.id] + ne);
    assert(spec_rewrite_world_chunk(ww, ip, port) =~= spec_write_world(w2));
}

/// Worlds written in order read back in order, and their rewrite is the
/// written form of the value-level rewrite.
proof fn lemma_worlds_of_write(
    ws: Seq<World>,
    ws2: Seq<World>,
    rest: Seq<u8>,
    ip: Seq<char>,
    port: u16,
)
    requires
        ws2.len() == ws.len(),
        forall|i: int| 0 <= i < ws.len() ==> world_ok(#[trigger] ws[i]),
        forall|i: int|
            0 <= i < ws.len() ==> {
                &&& (#[trigger] ws2[i]).id == ws[i].id
                &&& ws2[i].name@ == ws[i].name@
                &&& ws2[i].ip@ == ip
                &&& ws2[i].port == port
            },
    ensures
        spec_worlds_step(spec_write_worlds(ws) + rest, ws.len() as int) == Ok::<int, PacketError>(
            spec_write_worlds(ws).len() as int,
        ),
        spec_rewrite_worlds(spec_write_worlds(ws) + rest, ws.len() as int, ip, port)
            == spec_write_worlds(ws2),
    decreases ws.len(),
{
    if ws.len() == 0 {
        assert(spec_write_worlds(ws) =~= Seq::<u8>::empty());
        assert(spec_write_worlds(ws2) =~= Seq::<u8>::empty());
    } else {
        let w = ws[0];
        let ww = spec_write_world(w);
        lemma_write_worlds_cons(ws);
        lemma_write_worlds_cons(ws2);
        let tail_bytes = spec_write_worlds(ws.drop_first());
        let x = spec_write_worlds(ws) + rest;
        assert(x =~= ww + (tail_bytes + rest));
        lemma_world_step_of_write(w, tail_bytes + rest);
        assert(spec_world_step(x) == Ok::<int, PacketError>(ww.len() as int));
        assert(x.skip(ww.len() as int) =~= tail_bytes + rest);
        assert(x.take(ww.len() as int) =~= ww);
        lemma_rewrite_world_chunk(w, ws2[0], ip, port);
        assert(ws.drop_first().len() == ws2.drop_first().len());
        assert(forall|i: int|
            0 <= i < ws.drop_first().len() ==> world_ok(#[trigger] ws.drop_first()[i]));
        assert(forall|i: int|
            0 <= i < ws.drop_first().len() ==> {
                &&& (#[trigger] ws2.drop_first()[i]).id == ws.drop_first()[i].id
                &&& ws2.drop_first()[i].name@ == ws.drop_first()[i].name@
                &&& ws2.drop_first()[i].ip@ == ip
                &&& ws2.drop_first()[i].port == port
            });
        lemma_worlds_of_write(ws.drop_first(), ws2.drop_first(), rest, ip, port);
        assert(spec_worlds_step(x, ws.len() as int) == Ok::<int, PacketError>(
            spec_write_worlds(ws).len() as int,
        ));
        assert(spec_rewrite_worlds(x, ws.len() as int, ip, port) =~= spec_write_worlds(ws2));
    }
}

/// Rewriting the canonical encoding of a character list yields the canonical
/// encoding of the list with every world steered to the new endpoint.
#[verifier::rlimit(100)]
proof fn lemma_rewrite_charlist_of_write(
    c: CharacterList,
    c2: CharacterList,
    ip: Seq<char>,
    port: u16,
)
    requires
        charlist_ok(c),
        c2.worlds@.len() == c.worlds@.len(),
        forall|i: int|
            0 <= i < c.worlds@.len() ==> {
                &&& (#[trigger] c2.worlds@[i]).id == c.worlds@[i].id
                &&& c2.worlds@[i].name@ == c.worlds@[i].name@
                &&& c2.worlds@[i].ip@ == ip
                &&& c2.worlds@[i].port == port
            },
        c2.characters == c.characters,
        c2.has_premium == c.has_premium,
        c2.premium_days_left == c.premium_days_left,
    ensures
        spec_rewrite_charlist(spec_write_charlist(c), ip, port) == spec_write_charlist(c2),
{
    let x = spec_write_charlist(c);
    let wbytes = spec_write_worlds(c.worlds@);
    let tail = seq![c.characters@.len() as u8] + spec_write_characters(c.characters@) + seq![
        0u8,
        bool_byte(c.has_premium),
    ] + u32_le(c.premium_days_left);
    assert(x =~= seq![c.worlds@.len() as u8] + (wbytes + tail));
    assert(x[0] == c.worlds@.len() as u8);
    assert(x.skip(1) =~= wbytes + tail);
    lemma_worlds_of_write(c.worlds@, c2.worlds@, tail, ip, port);
    assert(spec_worlds_step(x.skip(1), x[0] as int) == Ok::<int, PacketError>(
        wbytes.len() as int,
    ));
    assert(x.take(1) =~= seq![c.worlds@.len() as u8]);
    assert(x.skip(1).skip(wbytes.len() as int) =~= tail);
    assert(x.skip(1 + wbytes.len() as int) =~= tail);
    assert(spec_rewrite_charlist(x, ip, port) =~= spec_write_charlist(c2));
}

/// Reads one world of a character list, exactly as `spec_world_step`
/// decides. On success, the consumed bytes are exactly what writing the
/// world back would produce.
fn read_world(bb: &mut ByteBuf) -> (r: Result<World, PacketError>)
    requires
        old(bb).wf(),
    ensures
        final(bb).wf(),
        final(bb).bytes() == old(bb).bytes(),
        match r {
            Ok(w) => {
                &&& world_ok(w)
                &&& spec_world_step(old(bb).rem()) == Ok::<int, PacketError>(
                    spec_write_world(w).len() as int,
                )
                &&& final(bb).rpos() == old(bb).rpos() + spec_write_world(w).len()
                &&& old(bb).rem().take(spec_write_world(w).len() as int) == spec_write_world(w)
            },
            Err(e) => spec_world_step(old(bb).rem()) == Err::<int, PacketError>(e),
        },
{
    let ghost s = old(bb).rem();
    let id = match bb.get_u8() {
        Ok(v) => v,
        Err(e) => {
            return Err(e);
        },
    };
    proof {
        assert(bb.rem() =~= s.skip(1));
    }
    let name = match bb.get_string() {
        Ok(v) => v,
        Err(e) => {
            proof {
                lemma_string_step_shift(s, 1);
                assert(spec_string_step(s.skip(1), 0) == Err::<int, PacketError>(e));
                assert(spec_world_step(s) == Err::<int, PacketError>(e));
            }
            return Err(e);
        },
    };
    let ghost n1 = u16_from_le(s[1], s[2]) as int;
    let ghost o2 = 3 + n1;
    proof {
        assert(s.skip(1)[0] == s[1] && s.skip(1)[1] == s[2]);
        assert(s.skip(1).subrange(2, 2 + n1) =~= s.subrange(3, 3 + n1));
        lemma_string_consumed(s.skip(1), name@);
        assert(s.skip(1).take(2 + n1) =~= s.subrange(1, o2));
        lemma_string_step_shift(s, 1);
        assert(spec_string_step(s.skip(1), 0) == Ok::<int, PacketError>(2 + n1));
        assert(spec_string_step(s, 1) == Ok::<int, PacketError>(o2));
        assert(bb.rem() =~= s.skip(o2));
    }
    let ip = match bb.get_string() {
        Ok(v) => v,
        Err(e) => {
            proof {
                lemma_string_step_shift(s, o2);
                assert(spec_string_step(s.skip(o2), 0) == Err::<int, PacketError>(e));
                assert(spec_world_step(s) == Err::<int, PacketError>(e));
            }
            return Err(e);
        },
    };
    let ghost n2 = u16_from_le(s[o2], s[o2 + 1]) as int;
    let ghost o3 = o2 + 2 + n2;
    proof {
        assert(s.skip(o2)[0] == s[o2] && s.skip(o2)[1] == s[o2 + 1]);
        assert(s.skip(o2).subrange(2, 2 + n2) =~= s.subrange(o2 + 2, o3));
        lemma_string_consumed(s.skip(o2), ip@);
        assert(s.skip(o2).take(2 + n2) =~= s.subrange(o2, o3));
        lemma_string_step_shift(s, o2);
        assert(spec_string_step(s.skip(o2), 0) == Ok::<int, PacketError>(2 + n2));
        assert(spec_string_step(s, o2) == Ok::<int, PacketError>(o3));
        assert(bb.rem() =~= s.skip(o3));
    }
    let port = match bb.get_u16_le() {
        Ok(v) => v,
        Err(e) => {
            proof {
                assert(s.len() - o3 < 2);
                assert(spec_world_step(s) == Err::<int, PacketError>(PacketError::Truncated));
            }
            return Err(e);
        },
    };
    proof {
        assert(s.skip(o3)[0] == s[o3] && s.skip(o3)[1] == s[o3 + 1]);
        lemma_u16_le_inverse(s[o3], s[o3 + 1]);
        assert(bb.rem() =~= s.skip(o3 + 2));
    }
    let sep = match bb.get_u8() {
        Ok(v) => v,
        Err(e) => {
            proof {
                assert(s.len() - o3 < 3);
                assert(spec_world_step(s) == Err::<int, PacketError>(PacketError::Truncated));
            }
            return Err(e);
        },
    };
    if sep != 0 {
        proof {
            assert(s.skip(o3 + 2)[0] == s[o3 + 2]);
            assert(spec_world_step(s) == Err::<int, PacketError>(PacketError::MalformedPacket));
        }
        return Err(PacketError::MalformedPacket);
    }
    let w = World { id, name, ip, port };
    proof {
        assert(s.skip(o3 + 2)[0] == s[o3 + 2]);
        assert(spec_write_world(w).len() == o3 + 3);
        assert(s.take(o3 + 3) =~= spec_write_world(w));
        assert(spec_world_step(s) == Ok::<int, PacketError>(o3 + 3));
    }
    Ok(w)
}

/// Writes one world; the caller discards the buffer when a string is too
/// long for its prefix.
fn write_world(w: &World, out: &mut ByteBuf) -> (r: Result<(), PacketError>)
    requires
        old(out).wf(),
    ensures
        final(out).wf(),
        final(out).rpos() == old(out).rpos(),
        match r {
            Ok(()) => world_ok(*w) && final(out).bytes() == old(out).bytes() + spec_write_world(
                *w,
            ),
            Err(e) => e == PacketError::StringTooLong && !world_ok(*w),
        },
{
    out.put_u8(w.id);
    match out.put_string(w.name.as_str()) {
        Ok(()) => (),
        Err(e) => {
            return Err(e);
        },
    };
    match out.put_string(w.ip.as_str()) {
        Ok(()) => (),
        Err(e) => {
            return Err(e);
        },
    };
    out.put_u16_le(w.port);
    out.put_u8(0);
    proof {
        assert(final(out).bytes() =~= old(out).bytes() + spec_write_world(*w));
    }
    Ok(())
}

/// Reads one character entry.
fn read_character(bb: &mut ByteBuf) -> (r: Result<Character, PacketError>)
    requires
        old(bb).wf(),
    ensures
        final(bb).wf(),
        final(bb).bytes() == old(bb).bytes(),
        match r {
            Ok(c) => {
                &&& character_ok(c)
                &&& spec_character_step(old(bb).rem()) == Ok::<int, PacketError>(
                    spec_write_character(c).len() as int,
                )
                &&& final(bb).rpos() == old(bb).rpos() + spec_write_character(c).len()
                &&& old(bb).rem().take(spec_write_character(c).len() as int)
                    == spec_write_character(c)
            },
            Err(e) => spec_character_step(old(bb).rem()) == Err::<int, PacketError>(e),
        },
{
    let ghost s = old(bb).rem();
    let world_id = match bb.get_u8() {
        Ok(v) => v,
        Err(e) => {
            return Err(e);
        },
    };
    proof {
        assert(bb.rem() =~= s.skip(1));
    }
    let name = match bb.get_string() {
        Ok(v) => v,
        Err(e) => {
            proof {
                lemma_string_step_shift(s, 1);
                assert(spec_string_step(s.skip(1), 0) == Err::<int, PacketError>(e));
                assert(spec_character_step(s) == Err::<int, PacketError>(e));
            }
            return Err(e);
        },
    };
    let ghost n1 = u16_from_le(s[1], s[2]) as int;
    let c = Character { world_id, name };
    proof {
        assert(s.skip(1)[0] == s[1] && s.skip(1)[1] == s[2]);
        assert(s.skip(1).subrange(2, 2 + n1) =~= s.subrange(3, 3 + n1));
        lemma_string_consumed(s.skip(1), c.name@);
        assert(s.skip(1).take(2 + n1) =~= s.subrange(1, 3 + n1));
        assert(s.take(3 + n1) =~= spec_write_character(c));
        lemma_string_step_shift(s, 1);
        assert(spec_string_step(s.skip(1), 0) == Ok::<int, PacketError>(2 + n1));
        assert(spec_character_step(s) == Ok::<int, PacketError>(3 + n1));
    }
    Ok(c)
}

fn write_character(c: &Character, out: &mut ByteBuf) -> (r: Result<(), PacketError>)
    requires
        old(out).wf(),
    ensures
        final(out).wf(),
        final(out).rpos() == old(out).rpos(),
        match r {
            Ok(()) => character_ok(*c) && final(out).bytes() == old(out).bytes()
                + spec_write_character(*c),
            Err(e) => e == PacketError::StringTooLong && !character_ok(*c),
        },
{
    out.put_u8(c.world_id);
    match out.put_string(c.name.as_str()) {
        Ok(()) => (),
        Err(e) => {
            return Err(e);
        },
    };
    proof {
        assert(final(out).bytes() =~= old(out).bytes() + spec_write_character(*c));
    }
    Ok(())
}

impl CharacterList {
    /// Reads a character list payload. On success the consumed bytes are
    /// exactly what writing the list back would produce.
    #[verifier::rlimit(100)]
    pub fn read_from(bb: &mut ByteBuf) -> (r: Result<CharacterList, PacketError>)
        requires
            old(bb).wf(),
        ensures
            final(bb).wf(),
            final(bb).bytes() == old(bb).bytes(),
            match r {
                Ok(c) => {
                    &&& charlist_ok(c)
                    &&& spec_charlist_step(old(bb).rem()) == Ok::<int, PacketError>(
                        spec_write_charlist(c).len() as int,
                    )
                    &&& final(bb).rpos() == old(bb).rpos() + spec_write_charlist(c).len()
                    &&& old(bb).rem().take(spec_write_charlist(c).len() as int)
                        == spec_write_charlist(c)
                },
                Err(e) => spec_charlist_step(old(bb).rem()) == Err::<int, PacketError>(e),
            },
    {
        let ghost s = old(bb).rem();
        let world_count = match bb.get_u8() {
            Ok(v) => v,
            Err(e) => {
                proof {
                    assert(spec_charlist_step(s) == Err::<int, PacketError>(
                        PacketError::Truncated,
                    ));
                }
                return Err(e);
            },
        };
        let mut worlds: Vec<World> = Vec::new();
        let mut i: usize = 0;
        while i < world_count as usize
            invariant
                old(bb).wf(),
                bb.wf(),
                bb.bytes() == old(bb).bytes(),
                bb.rpos() >= old(bb).rpos(),
                s == old(bb).rem(),
                i <= world_count as usize,
                worlds@.len() == i,
                forall|j: int| 0 <= j < i ==> world_ok(#[trigger] worlds@[j]),
                bb.rpos() == old(bb).rpos() + 1 + spec_write_worlds(worlds@).len(),
                s.take(1 + spec_write_worlds(worlds@).len() as int) == seq![world_count]
                    + spec_write_worlds(worlds@),
                world_count == s[0],
                match spec_worlds_step(
                    s.skip(1 + spec_write_worlds(worlds@).len() as int),
                    world_count as int - i,
                ) {
                    Ok(t) => spec_worlds_step(s.skip(1), world_count as int) == Ok::<
                        int,
                        PacketError,
                    >(spec_write_worlds(worlds@).len() + t),
                    Err(e) => spec_worlds_step(s.skip(1), world_count as int) == Err::<
                        int,
                        PacketError,
                    >(e),
                },
            decreases world_count as usize - i,
        {
            let ghost pre = bb.rem();
            let ghost done = spec_write_worlds(worlds@);
            proof {
                assert(pre =~= s.skip(1 + done.len() as int));
            }
            let w = match read_world(bb) {
                Ok(v) => v,
                Err(e) => {
                    proof {
                        assert(spec_world_step(s.skip(1 + done.len() as int)) == Err::<
                            int,
                            PacketError,
                        >(e));
                        assert(spec_worlds_step(s.skip(1), world_count as int) == Err::<
                            int,
                            PacketError,
                        >(e));
                        assert(spec_charlist_step(s) == Err::<int, PacketError>(e));
                    }
                    return Err(e);
                },
            };
            proof {
                let wl = spec_write_world(w).len() as int;
                assert(bb.rpos() == old(bb).rpos() + 1 + done.len() + wl);
                assert(bb.rpos() <= bb.bytes().len());
                assert(wl <= pre.len());
                assert(pre =~= s.skip(1 + done.len() as int));
                assert(pre.take(wl) =~= s.subrange(
                    1 + done.len() as int,
                    1 + done.len() as int + wl,
                ));
            }
            let ghost wpre = worlds@;
            worlds.push(w);
            i = i + 1;
            proof {
                let wl = spec_write_world(w).len() as int;
                let dl = 1 + done.len() as int;
                assert(worlds@.drop_last() =~= wpre);
                assert(worlds@.last() == w);
                assert(spec_write_worlds(worlds@) == spec_write_worlds(worlds@.drop_last())
                    + spec_write_world(worlds@.last()));
                assert(spec_write_worlds(worlds@) == done + spec_write_world(w));
                assert(s.take(dl + wl) =~= s.take(dl) + s.subrange(dl, dl + wl));
                assert(s.take(1 + spec_write_worlds(worlds@).len() as int) =~= seq![world_count]
                    + spec_write_worlds(worlds@));
                assert(spec_world_step(s.skip(1 + done.len() as int)) == Ok::<int, PacketError>(
                    wl,
                ));
                assert(s.skip(1 + done.len() as int).skip(wl) =~= s.skip(
                    1 + spec_write_worlds(worlds@).len() as int,
                ));
            }
        }
        let ghost wdone = spec_write_worlds(worlds@);
        proof {
            assert(bb.rem() =~= s.skip(1 + wdone.len() as int));
            assert(spec_worlds_step(s.skip(1 + wdone.len() as int), 0) == Ok::<int, PacketError>(
                0,
            ));
            assert(spec_worlds_step(s.skip(1), world_count as int) == Ok::<int, PacketError>(
                wdone.len() as int,
            ));
        }
        let char_count = match bb.get_u8() {
            Ok(v) => v,
            Err(e) => {
                proof {
                    assert(s.len() - (1 + wdone.len()) < 1);
                    assert(spec_charlist_step(s) == Err::<int, PacketError>(
                        PacketError::Truncated,
                    ));
                }
                return Err(e);
            },
        };
        proof {
            assert(s.skip(1 + wdone.len() as int)[0] == s[1 + wdone.len() as int]);
        }
        let mut characters: Vec<Character> = Vec::new();
        let mut k: usize = 0;
        while k < char_count as usize
            invariant
                old(bb).wf(),
                bb.wf(),
                bb.bytes() == old(bb).bytes(),
                bb.rpos() >= old(bb).rpos(),
                s == old(bb).rem(),
                k <= char_count as usize,
                characters@.len() == k,
                forall|j: int| 0 <= j < k ==> character_ok(#[trigger] characters@[j]),
                bb.rpos() == old(bb).rpos() + 2 + wdone.len() + spec_write_characters(
                    characters@,
                ).len(),
                s.take(2 + wdone.len() + spec_write_characters(characters@).len() as int)
                    == seq![world_count] + wdone + seq![char_count] + spec_write_characters(
                    characters@,
                ),
                world_count == s[0],
                char_count == s[1 + wdone.len() as int],
                spec_worlds_step(s.skip(1), world_count as int) == Ok::<int, PacketError>(
                    wdone.len() as int,
                ),
                match spec_characters_step(
                    s.skip(2 + wdone.len() as int + spec_write_characters(characters@).len() as int),
                    char_count as int - k,
                ) {
                    Ok(t) => spec_characters_step(
                        s.skip(2 + wdone.len() as int),
                        char_count as int,
                    ) == Ok::<int, PacketError>(spec_write_characters(characters@).len() + t),
                    Err(e) => spec_characters_step(
                        s.skip(2 + wdone.len() as int),
                        char_count as int,
                    ) == Err::<int, PacketError>(e),
                },
            decreases char_count as usize - k,
        {
            let ghost pre = bb.rem();
            let ghost done = spec_write_characters(characters@);
            proof {
                assert(pre =~= s.skip(2 + wdone.len() as int + done.len() as int));
            }
            let c = match read_character(bb) {
                Ok(v) => v,
                Err(e) => {
                    proof {
                        assert(spec_character_step(
                            s.skip(2 + wdone.len() as int + done.len() as int),
                        ) == Err::<int, PacketError>(e));
                        assert(spec_characters_step(
                            s.skip(2 + wdone.len() as int),
                            char_count as int,
                        ) == Err::<int, PacketError>(e));
                        assert(spec_charlist_step(s) == Err::<int, PacketError>(e));
                    }
                    return Err(e);
                },
            };
            proof {
                let cl = spec_write_character(c).len() as int;
                assert(bb.rpos() == old(bb).rpos() + 2 + wdone.len() + done.len() + cl);
                assert(bb.rpos() <= bb.bytes().len());
                assert(cl <= pre.len());
                assert(pre =~= s.skip(2 + wdone.len() as int + done.len() as int));
                assert(pre.take(cl) =~= s.subrange(
                    2 + wdone.len() as int + done.len() as int,
                    2 + wdone.len() as int + done.len() as int + cl,
                ));
            }
            let ghost cpre = characters@;
            characters.push(c);
            k = k + 1;
            proof {
                let cl = spec_write_character(c).len() as int;
                let dl = 2 + wdone.len() as int + done.len() as int;
                assert(characters@.drop_last() =~= cpre);
                assert(characters@.last() == c);
                assert(spec_write_characters(characters@) == spec_write_characters(
                    characters@.drop_last(),
                ) + spec_write_character(characters@.last()));
                assert(spec_write_characters(characters@) == done + spec_write_character(c));
                assert(s.take(dl + cl) =~= s.take(dl) + s.subrange(dl, dl + cl));
                assert(s.take(2 + wdone.len() + spec_write_characters(characters@).len() as int)
                    =~= seq![world_count] + wdone + seq![char_count] + spec_write_characters(
                    characters@,
                ));
                assert(spec_character_step(s.skip(2 + wdone.len() as int + done.len() as int))
                    == Ok::<int, PacketError>(cl));
                assert(s.skip(2 + wdone.len() as int + done.len() as int).skip(cl) =~= s.skip(
                    2 + wdone.len() as int + spec_write_characters(characters@).len() as int,
                ));
            }
        }
        let ghost cdone = spec_write_characters(characters@);
        let ghost tail: int = 2 + wdone.len() as int + cdone.len() as int;
        proof {
            assert(bb.rem() =~= s.skip(tail));
            assert(spec_characters_step(s.skip(tail), 0) == Ok::<int, PacketError>(0));
            assert(spec_characters_step(s.skip(2 + wdone.len() as int), char_count as int) == Ok::<
                int,
                PacketError,
            >(cdone.len() as int));
        }
        let trailing = match bb.get_u8() {
            Ok(v) => v,
            Err(e) => {
                proof {
                    assert(s.len() - tail < 1);
                    assert(spec_charlist_step(s) == Err::<int, PacketError>(
                        PacketError::Truncated,
                    ));
                }
                return Err(e);
            },
        };
        if trailing != 0 {
            proof {
                assert(s.skip(tail)[0] == s[tail]);
                assert(spec_charlist_step(s) == Err::<int, PacketError>(
                    PacketError::MalformedPacket,
                ));
            }
            return Err(PacketError::MalformedPacket);
        }
        proof {
            assert(bb.rem() =~= s.skip(tail + 1));
        }
        let premium_byte = match bb.get_u8() {
            Ok(v) => v,
            Err(e) => {
                proof {
                    assert(s.skip(tail)[0] == s[tail]);
                    assert(s.len() - tail < 2);
                    assert(spec_charlist_step(s) == Err::<int, PacketError>(
                        PacketError::Truncated,
                    ));
                }
                return Err(e);
            },
        };
        if premium_byte > 1 {
            proof {
                assert(s.skip(tail)[0] == s[tail]);
                assert(s.skip(tail + 1)[0] == s[tail + 1]);
                assert(spec_charlist_step(s) == Err::<int, PacketError>(
                    PacketError::MalformedPacket,
                ));
            }
            return Err(PacketError::MalformedPacket);
        }
        proof {
            assert(bb.rem() =~= s.skip(tail + 2));
        }
        let premium_days_left = match bb.get_u32_le() {
            Ok(v) => v,
            Err(e) => {
                proof {
                    assert(s.skip(tail)[0] == s[tail]);
                    assert(s.skip(tail + 1)[0] == s[tail + 1]);
                    assert(s.len() - tail - 2 < 4);
                    assert(spec_charlist_step(s) == Err::<int, PacketError>(
                        PacketError::Truncated,
                    ));
                }
                return Err(e);
            },
        };
        let c = CharacterList {
            worlds,
            characters,
            has_premium: premium_byte == 1,
            premium_days_left,
        };
        proof {
            assert(s.skip(tail)[0] == s[tail]);
            assert(s.skip(tail + 1)[0] == s[tail + 1]);
            assert(s.skip(tail + 2)[0] == s[tail + 2]);
            assert(s.skip(tail + 2)[1] == s[tail + 3]);
            assert(s.skip(tail + 2)[2] == s[tail + 4]);
            assert(s.skip(tail + 2)[3] == s[tail + 5]);
            lemma_u32_le_inverse(s[tail + 2], s[tail + 3], s[tail + 4], s[tail + 5]);
            assert(bool_byte(c.has_premium) == s[tail + 1]);
            assert(s.take(tail + 6) =~= spec_write_charlist(c));
            assert(spec_charlist_step(s) == Ok::<int, PacketError>(tail + 6));
        }
        Ok(c)
    }

    /// Writes a character list payload.
    pub fn write_to(&self, out: &mut ByteBuf) -> (r: Result<(), PacketError>)
        requires
            old(out).wf(),
            self.worlds@.len() <= 255,
            self.characters@.len() <= 255,
        ensures
            final(out).wf(),
            final(out).rpos() == old(out).rpos(),
            match r {
                Ok(()) => charlist_ok(*self) && final(out).bytes() == old(out).bytes()
                    + spec_write_charlist(*self),
                Err(e) => e == PacketError::StringTooLong && !charlist_ok(*self)
                    && final(out).bytes() == old(out).bytes(),
            },
    {
        let mut tmp = ByteBuf::new();
        tmp.put_u8(self.worlds.len() as u8);
        let wn: usize = self.worlds.len();
        let mut i: usize = 0;
        while i < wn
            invariant
                out.wf(),
                out.bytes() == old(out).bytes(),
                out.rpos() == old(out).rpos(),
                tmp.wf(),
                tmp.rpos() == 0,
                wn == self.worlds@.len(),
                wn <= 255,
                i <= wn,
                forall|j: int| 0 <= j < i ==> world_ok(#[trigger] self.worlds@[j]),
                tmp.bytes() == seq![wn as u8] + spec_write_worlds(self.worlds@.take(i as int)),
            decreases wn - i,
        {
            match write_world(&self.worlds[i], &mut tmp) {
                Ok(()) => (),
                Err(e) => {
                    proof {
                        assert(!world_ok(self.worlds@[i as int]));
                        assert(!charlist_ok(*self));
                    }
                    return Err(e);
                },
            };
            i = i + 1;
            proof {
                assert(self.worlds@.take(i as int).drop_last() =~= self.worlds@.take(i - 1));
                assert(self.worlds@.take(i as int).last() == self.worlds@[i - 1]);
                assert(spec_write_worlds(self.worlds@.take(i as int)) == spec_write_worlds(
                    self.worlds@.take(i - 1),
                ) + spec_write_world(self.worlds@[i - 1]));
            }
        }
        proof {
            assert(self.worlds@.take(wn as int) =~= self.worlds@);
        }
        tmp.put_u8(self.characters.len() as u8);
        let cn: usize = self.characters.len();
        let mut k: usize = 0;
        while k < cn
            invariant
                out.wf(),
                out.bytes() == old(out).bytes(),
                out.rpos() == old(out).rpos(),
                tmp.wf(),
                tmp.rpos() == 0,
                wn == self.worlds@.len(),
                cn == self.characters@.len(),
                cn <= 255,
                k <= cn,
                forall|j: int| 0 <= j < wn ==> world_ok(#[trigger] self.worlds@[j]),
                forall|j: int| 0 <= j < k ==> character_ok(#[trigger] self.characters@[j]),
                tmp.bytes() == seq![wn as u8] + spec_write_worlds(self.worlds@) + seq![cn as u8]
                    + spec_write_characters(self.characters@.take(k as int)),
            decreases cn - k,
        {
            match write_character(&self.characters[k], &mut tmp) {
                Ok(()) => (),
                Err(e) => {
                    proof {
                        assert(!character_ok(self.characters@[k as int]));
                        assert(!charlist_ok(*self));
                    }
                    return Err(e);
                },
            };
            k = k + 1;
            proof {
                assert(self.characters@.take(k as int).drop_last() =~= self.characters@.take(
                    k - 1,
                ));
                assert(self.characters@.take(k as int).last() == self.characters@[k - 1]);
                assert(spec_write_characters(self.characters@.take(k as int))
                    == spec_write_characters(self.characters@.take(k - 1)) + spec_write_character(
                    self.characters@[k - 1],
                ));
            }
        }
        proof {
            assert(self.characters@.take(cn as int) =~= self.characters@);
        }
        tmp.put_u8(0);
        tmp.put_u8(if self.has_premium {
            1
        } else {
            0
        });
        tmp.put_u32_le(self.premium_days_left);
        let done = tmp.into_vec();
        out.put_bytes(&done);
        proof {
            assert(done@ =~= spec_write_charlist(*self));
        }
        Ok(())
    }
}

impl LoginServerPacket {
    /// Reads one login server packet: the id byte, then the payload it
    /// selects. On success the consumed bytes are exactly what writing the
    /// packet back would produce.
    pub fn read_from(bb: &mut ByteBuf) -> (r: Result<LoginServerPacket, PacketError>)
        requires
            old(bb).wf(),
        ensures
            final(bb).wf(),
            final(bb).bytes() == old(bb).bytes(),
            match r {
                Ok(p) => {
                    &&& login_packet_ok(p)
                    &&& spec_write_login_packet(p).len() > 0
                    &&& spec_login_packet_step(old(bb).rem()) == Ok::<int, PacketError>(
                        spec_write_login_packet(p).len() as int,
                    )
                    &&& final(bb).rpos() == old(bb).rpos() + spec_write_login_packet(p).len()
                    &&& old(bb).rem().take(spec_write_login_packet(p).len() as int)
                        == spec_write_login_packet(p)
                },
                Err(e) => spec_login_packet_step(old(bb).rem()) == Err::<int, PacketError>(e),
            },
    {
        let ghost s = old(bb).rem();
        let id = match bb.get_u8() {
            Ok(v) => v,
            Err(e) => {
                return Err(e);
            },
        };
        proof {
            assert(bb.rem() =~= s.skip(1));
        }
        if id == 10 || id == 11 || id == 20 || id == 40 {
            let text = match bb.get_string() {
                Ok(v) => v,
                Err(e) => {
                    proof {
                        lemma_string_step_shift(s, 1);
                        assert(spec_string_step(s.skip(1), 0) == Err::<int, PacketError>(e));
                        assert(spec_login_packet_step(s) == Err::<int, PacketError>(e));
                    }
                    return Err(e);
                },
            };
            let ghost n1 = u16_from_le(s[1], s[2]) as int;
            proof {
                assert(s.skip(1)[0] == s[1] && s.skip(1)[1] == s[2]);
                assert(s.skip(1).subrange(2, 2 + n1) =~= s.subrange(3, 3 + n1));
                lemma_string_consumed(s.skip(1), text@);
                assert(s.skip(1).take(2 + n1) =~= s.subrange(1, 3 + n1));
                lemma_string_step_shift(s, 1);
                assert(spec_string_step(s.skip(1), 0) == Ok::<int, PacketError>(2 + n1));
                assert(spec_string_step(s, 1) == Ok::<int, PacketError>(3 + n1));
            }
            let p = if id == 10 {
                LoginServerPacket::Error(Error(text))
            } else if id == 11 {
                LoginServerPacket::Error2(Error2(text))
            } else if id == 20 {
                LoginServerPacket::Motd(Motd(text))
            } else {
                LoginServerPacket::SessionKey(SessionKey(text))
            };
            proof {
                assert(s.take(3 + n1) =~= spec_write_login_packet(p));
            }
            Ok(p)
        } else if id == 100 {
            let ghost pre = bb.rem();
            let c = match CharacterList::read_from(bb) {
                Ok(v) => v,
                Err(e) => {
                    proof {
                        assert(spec_charlist_step(s.skip(1)) == Err::<int, PacketError>(e));
                        assert(spec_login_packet_step(s) == Err::<int, PacketError>(e));
                    }
                    return Err(e);
                },
            };
            let p = LoginServerPacket::CharacterList(c);
            proof {
                let clen = spec_write_charlist(c).len() as int;
                assert(pre =~= s.skip(1));
                assert(pre.take(clen) =~= s.subrange(1, 1 + clen));
                assert(s.take(1 + clen) =~= spec_write_login_packet(p));
                assert(spec_charlist_step(s.skip(1)) == Ok::<int, PacketError>(clen));
                assert(spec_login_packet_step(s) == Ok::<int, PacketError>(1 + clen));
            }
            Ok(p)
        } else {
            Err(PacketError::UnknownPacket(id))
        }
    }

    /// Writes one login server packet, id byte first. On failure nothing is
    /// appended.
    pub fn write_to(&self, out: &mut ByteBuf) -> (r: Result<(), PacketError>)
        requires
            old(out).wf(),
            match self {
                LoginServerPacket::CharacterList(c) => c.worlds@.len() <= 255 && c.characters@.len()
                    <= 255,
                _ => true,
            },
        ensures
            final(out).wf(),
            final(out).rpos() == old(out).rpos(),
            match r {
                Ok(()) => login_packet_ok(*self) && final(out).bytes() == old(out).bytes()
                    + spec_write_login_packet(*self),
                Err(e) => e == PacketError::StringTooLong && !login_packet_ok(*self)
                    && final(out).bytes() == old(out).bytes(),
            },
    {
        let mut tmp = ByteBuf::new();
        match self {
            LoginServerPacket::Error(v) => {
                tmp.put_u8(10);
                match tmp.put_string(v.0.as_str()) {
                    Ok(()) => (),
                    Err(e) => {
                        return Err(e);
                    },
                };
            },
            LoginServerPacket::Error2(v) => {
                tmp.put_u8(11);
                match tmp.put_string(v.0.as_str()) {
                    Ok(()) => (),
                    Err(e) => {
                        return Err(e);
                    },
                };
            },
            LoginServerPacket::Motd(v) => {
                tmp.put_u8(20);
                match tmp.put_string(v.0.as_str()) {
                    Ok(()) => (),
                    Err(e) => {
                        return Err(e);
                    },
                };
            },
            LoginServerPacket::SessionKey(v) => {
                tmp.put_u8(40);
                match tmp.put_string(v.0.as_str()) {
                    Ok(()) => (),
                    Err(e) => {
                        return Err(e);
                    },
                };
            },
            LoginServerPacket::CharacterList(c) => {
                tmp.put_u8(100);
                match c.write_to(&mut tmp) {
                    Ok(()) => (),
                    Err(e) => {
                        return Err(e);
                    },
                };
            },
        }
        let done = tmp.into_vec();
        out.put_bytes(&done);
        proof {
            assert(done@ =~= spec_write_login_packet(*self));
        }
        Ok(())
    }
}

/// The same list with every world steered to the given endpoint: ids, names,
/// characters and premium fields are kept, every world's ip and port are
/// replaced.
pub fn rewrite_character_list(c: CharacterList, ip: &str, port: u16) -> (r: CharacterList)
    ensures
        r.worlds@.len() == c.worlds@.len(),
        forall|i: int|
            0 <= i < c.worlds@.len() ==> {
                &&& (#[trigger] r.worlds@[i]).id == c.worlds@[i].id
                &&& r.worlds@[i].name@ == c.worlds@[i].name@
                &&& r.worlds@[i].ip@ == ip@
                &&& r.worlds@[i].port == port
            },
        r.characters == c.characters,
        r.has_premium == c.has_premium,
        r.premium_days_left == c.premium_days_left,
{
    let mut worlds: Vec<World> = Vec::new();
    let wn: usize = c.worlds.len();
    let mut i: usize = 0;
    while i < wn
        invariant
            wn == c.worlds@.len(),
            i <= wn,
            worlds@.len() == i,
            forall|j: int|
                0 <= j < i ==> {
                    &&& (#[trigger] worlds@[j]).id == c.worlds@[j].id
                    &&& worlds@[j].name@ == c.worlds@[j].name@
                    &&& worlds@[j].ip@ == ip@
                    &&& worlds@[j].port == port
                },
        decreases wn - i,
    {
        let w = &c.worlds[i];
        worlds.push(World { id: w.id, name: w.name.clone(), ip: ip.to_owned(), port });
        i = i + 1;
    }
    CharacterList {
        worlds,
        characters: c.characters,
        has_premium: c.has_premium,
        premium_days_left: c.premium_days_left,
    }
}

/// Passes a whole login-server frame through, packet by packet: every
/// `CharacterList` has its world endpoints replaced, every other packet is
/// re-emitted unchanged. The flag in the result says whether a
/// `CharacterList` was seen; when it is false, the output bytes equal the
/// input bytes.

/// One well-formed packet that is not a character list steps the frame
/// functions forward by its own bytes, unchanged.
proof fn lemma_frame_step_plain(s: Seq<u8>, k: int, ip: Seq<char>, port: u16)
    requires
        1 <= k <= s.len(),
        spec_login_packet_step(s) == Ok::<int, PacketError>(k),
        s.len() > 0,
        s[0] != 100,
    ensures
        spec_frame_error(s) == spec_frame_error(s.skip(k)),
        spec_frame_has_charlist(s) == spec_frame_has_charlist(s.skip(k)),
        spec_rewrite_frame(s, ip, port) == s.take(k) + spec_rewrite_frame(s.skip(k), ip, port),
{
}

/// One well-formed character list packet steps the frame functions forward:
/// the frame holds a character list, and its rewrite replaces this packet by
/// the rewritten list's encoding.
proof fn lemma_frame_step_charlist(
    s: Seq<u8>,
    k: int,
    c: CharacterList,
    c2: CharacterList,
    ip: Seq<char>,
    port: u16,
)
    requires
        1 <= k <= s.len(),
        spec_login_packet_step(s) == Ok::<int, PacketError>(k),
        s.len() > 0,
        s[0] == 100,
        s.take(k) == seq![100u8] + spec_write_charlist(c),
        charlist_ok(c),
        c2.worlds@.len() == c.worlds@.len(),
        forall|i: int|
            0 <= i < c.worlds@.len() ==> {
                &&& (#[trigger] c2.worlds@[i]).id == c.worlds@[i].id
                &&& c2.worlds@[i].name@ == c.worlds@[i].name@
                &&& c2.worlds@[i].ip@ == ip
                &&& c2.worlds@[i].port == port
            },
        c2.characters == c.characters,
        c2.has_premium == c.has_premium,
        c2.premium_days_left == c.premium_days_left,
    ensures
        spec_frame_error(s) == spec_frame_error(s.skip(k)),
        spec_frame_has_charlist(s),
        spec_rewrite_frame(s, ip, port) == (seq![100u8] + spec_write_charlist(c2))
            + spec_rewrite_frame(s.skip(k), ip, port),
{
    let wchunk = spec_write_charlist(c);
    assert(s.take(k).len() == k);
    assert(k == 1 + wchunk.len());
    assert forall|i: int| 0 <= i < k - 1 implies s.skip(1).take(k - 1)[i] == wchunk[i] by {
        assert(s.take(k)[1 + i] == (seq![100u8] + wchunk)[1 + i]);
    }
    assert(s.skip(1).take(k - 1) =~= wchunk);
    assert(s.take(1) =~= seq![100u8]);
    lemma_rewrite_charlist_of_write(c, c2, ip, port);
    assert(spec_rewrite_frame(s, ip, port) =~= (seq![100u8] + spec_write_charlist(c2))
        + spec_rewrite_frame(s.skip(k), ip, port));
}

#[verifier::rlimit(100)]
pub fn rewrite_login_frame(frame: Vec<u8>, ip: &str, port: u16) -> (r: Result<
    (Vec<u8>, bool),
    PacketError,
>)
    ensures
        match r {
            Ok(p) => {
                &&& spec_frame_error(frame@) == None::<PacketError>
                &&& p.1 == spec_frame_has_charlist(frame@)
                &&& p.0@ == spec_rewrite_frame(frame@, ip@, port)
                &&& !p.1 ==> p.0@ == frame@
            },
            Err(e) => spec_frame_error(frame@) == Some(e) || (e == PacketError::StringTooLong
                && !string_len_ok(ip@)),
        },
{
    let mut bb = ByteBuf::from_vec(frame);
    let mut out = ByteBuf::new();
    let mut had: bool = false;
    proof {
        assert(bb.rem() =~= frame@);
    }
    while bb.remaining() > 0
        invariant
            bb.wf(),
            bb.bytes() == frame@,
            out.wf(),
            out.rpos() == 0,
            !had ==> out.bytes() == frame@.take(bb.rpos()),
            spec_frame_error(frame@) == spec_frame_error(bb.rem()),
            spec_frame_has_charlist(frame@) == (had || spec_frame_has_charlist(bb.rem())),
            spec_rewrite_frame(frame@, ip@, port) == out.bytes() + spec_rewrite_frame(
                bb.rem(),
                ip@,
                port,
            ),
        decreases frame@.len() - bb.rpos(),
    {
        let ghost pre_pos = bb.rpos();
        let ghost rem_pre = bb.rem();
        let p = match LoginServerPacket::read_from(&mut bb) {
            Ok(v) => v,
            Err(e) => {
                proof {
                    assert(spec_frame_error(rem_pre) == Some(e));
                }
                return Err(e);
            },
        };
        let ghost k = spec_write_login_packet(p).len() as int;
        proof {
            assert(1 <= k <= rem_pre.len());
            assert(bb.rem() =~= rem_pre.skip(k));
            assert(rem_pre.take(k)[0] == rem_pre[0]);
            assert(spec_frame_error(rem_pre) == spec_frame_error(rem_pre.skip(k)));
        }
        match p {
            LoginServerPacket::CharacterList(c) => {
                had = true;
                let ghost c0 = c;
                let c2 = rewrite_character_list(c, ip, port);
                match LoginServerPacket::CharacterList(c2).write_to(&mut out) {
                    Ok(()) => (),
                    Err(e) => {
                        proof {
                            if string_len_ok(ip@) {
                                assert forall|i: int|
                                    0 <= i < c2.worlds@.len() implies world_ok(
                                    #[trigger] c2.worlds@[i],
                                ) by {
                                    assert(world_ok(c0.worlds@[i]));
                                }
                                assert(c2.characters@ == c0.characters@);
                                assert(charlist_ok(c2));
                                assert(false);
                            }
                        }
                        return Err(e);
                    },
                };
                proof {
                    assert(rem_pre[0] == 100);
                    assert(rem_pre.take(k) == seq![100u8] + spec_write_charlist(c0));
                    lemma_frame_step_charlist(rem_pre, k, c0, c2, ip@, port);
                    assert(spec_write_login_packet(LoginServerPacket::CharacterList(c2))
                        =~= seq![100u8] + spec_write_charlist(c2));
                }
            },
            other => {
                match other.write_to(&mut out) {
                    Ok(()) => (),
                    Err(e) => {
                        proof {
                            assert(false);
                        }
                        return Err(e);
                    },
                };
                proof {
                    let chunk = spec_write_login_packet(other);
                    assert(rem_pre[0] != 100);
                    lemma_frame_step_plain(rem_pre, k, ip@, port);
                    assert(frame@.skip(pre_pos).take(chunk.len() as int) =~= frame@.subrange(
                        pre_pos,
                        pre_pos + chunk.len(),
                    ));
                    assert(frame@.take(bb.rpos()) =~= frame@.take(pre_pos) + frame@.subrange(
                        pre_pos,
                        pre_pos + chunk.len(),
                    ));
                }
            },
        }
    }
    proof {
        assert(bb.rem() =~= Seq::<u8>::empty());
        assert(frame@.take(frame@.len() as int) =~= frame@);
    }
    Ok((out.into_vec(), had))
}

} // verus!
