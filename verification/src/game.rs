use vstd::prelude::*;

use crate::buffer::{ByteBuf, string_encoding, string_len_ok, u16_le, u32_le};
use crate::error::PacketError;

verus! {

/// A keep-alive request from the game server.
pub struct Ping;

/// A keep-alive answer from the game server.
pub struct Pong;

/// The server has parked the session in the pending state.
pub struct PendingStateEntered;

/// The server lets the character enter the world.
pub struct EnterWorld;

/// A position in the game world.
#[derive(Clone, Copy, Debug, PartialEq, Eq, Structural)]
pub struct Position {
    pub x: u16,
    pub y: u16,
    pub z: u8,
}

pub open spec fn position_bytes(p: Position) -> Seq<u8> {
    u16_le(p.x) + u16_le(p.y) + seq![p.z]
}

impl Position {
    pub fn write_to(&self, out: &mut ByteBuf)
        requires
            old(out).wf(),
        ensures
            final(out).wf(),
            final(out).rpos() == old(out).rpos(),
            final(out).bytes() == old(out).bytes() + position_bytes(*self),
    {
        out.put_u16_le(self.x);
        out.put_u16_le(self.y);
        out.put_u8(self.z);
        proof {
            assert(final(out).bytes() =~= old(out).bytes() + position_bytes(*self));
        }
    }
}

/// A light level and colour.
#[derive(Clone, Copy, Debug, PartialEq, Eq, Structural)]
pub struct LightInfo {
    pub light_level: u8,
    pub light_color: u8,
}

pub open spec fn light_bytes(l: LightInfo) -> Seq<u8> {
    seq![l.light_level, l.light_color]
}

impl LightInfo {
    pub fn write_to(&self, out: &mut ByteBuf)
        requires
            old(out).wf(),
        ensures
            final(out).wf(),
            final(out).rpos() == old(out).rpos(),
            final(out).bytes() == old(out).bytes() + light_bytes(*self),
    {
        out.put_u8(self.light_level);
        out.put_u8(self.light_color);
        proof {
            assert(final(out).bytes() =~= old(out).bytes() + light_bytes(*self));
        }
    }
}

/// The server's opening greeting on a game connection.
#[derive(Clone, Copy, Debug, PartialEq, Eq, Structural)]
pub struct Nonce {
    pub timestamp: u32,
    pub random_number: u8,
}

pub open spec fn nonce_bytes(n: Nonce) -> Seq<u8> {
    u32_le(n.timestamp) + seq![n.random_number]
}

impl Nonce {
    pub fn write_to(&self, out: &mut ByteBuf)
        requires
            old(out).wf(),
        ensures
            final(out).wf(),
            final(out).rpos() == old(out).rpos(),
            final(out).bytes() == old(out).bytes() + nonce_bytes(*self),
    {
        out.put_u32_le(self.timestamp);
        out.put_u8(self.random_number);
        proof {
            assert(final(out).bytes() =~= old(out).bytes() + nonce_bytes(*self));
        }
    }
}

/// A creature stepping from one tile to another.
#[derive(Clone, Copy, Debug, PartialEq, Eq, Structural)]
pub struct MoveCreature {
    pub old_position: Position,
    pub old_stack_index: u8,
    pub new_position: Position,
}

pub open spec fn move_creature_bytes(m: MoveCreature) -> Seq<u8> {
    position_bytes(m.old_position) + seq![m.old_stack_index] + position_bytes(m.new_position)
}

impl MoveCreature {
    pub fn write_to(&self, out: &mut ByteBuf)
        requires
            old(out).wf(),
        ensures
            final(out).wf(),
            final(out).rpos() == old(out).rpos(),
            final(out).bytes() == old(out).bytes() + move_creature_bytes(*self),
    {
        self.old_position.write_to(out);
        out.put_u8(self.old_stack_index);
        self.new_position.write_to(out);
        proof {
            assert(final(out).bytes() =~= old(out).bytes() + move_creature_bytes(*self));
        }
    }
}

/// The ambient light of the whole world.
#[derive(Clone, Copy, Debug, PartialEq, Eq, Structural)]
pub struct WorldLight {
    pub light: LightInfo,
}

impl WorldLight {
    pub fn write_to(&self, out: &mut ByteBuf)
        requires
            old(out).wf(),
        ensures
            final(out).wf(),
            final(out).rpos() == old(out).rpos(),
            final(out).bytes() == old(out).bytes() + light_bytes(self.light),
    {
        self.light.write_to(out);
    }
}

/// The light one creature sheds.
#[derive(Clone, Copy, Debug, PartialEq, Eq, Structural)]
pub struct CreatureLight {
    pub creature_id: u32,
    pub light: LightInfo,
}

pub open spec fn creature_light_bytes(c: CreatureLight) -> Seq<u8> {
    u32_le(c.creature_id) + light_bytes(c.light)
}

impl CreatureLight {
    pub fn write_to(&self, out: &mut ByteBuf)
        requires
            old(out).wf(),
        ensures
            final(out).wf(),
            final(out).rpos() == old(out).rpos(),
            final(out).bytes() == old(out).bytes() + creature_light_bytes(*self),
    {
        out.put_u32_le(self.creature_id);
        self.light.write_to(out);
        proof {
            assert(final(out).bytes() =~= old(out).bytes() + creature_light_bytes(*self));
        }
    }
}

/// The basic account data sent after login.
pub struct PlayerDataBasic {
    pub is_premium: bool,
    pub premium_until: u32,
    pub vocation_id: u8,
    pub known_spells: Vec<u8>,
}

pub open spec fn player_data_basic_bytes(p: PlayerDataBasic) -> Seq<u8> {
    seq![crate::login::bool_byte(p.is_premium)] + u32_le(p.premium_until) + seq![p.vocation_id]
        + u16_le(p.known_spells@.len() as u16) + p.known_spells@
}

impl PlayerDataBasic {
    pub fn write_to(&self, out: &mut ByteBuf)
        requires
            old(out).wf(),
            self.known_spells@.len() <= 65535,
        ensures
            final(out).wf(),
            final(out).rpos() == old(out).rpos(),
            final(out).bytes() == old(out).bytes() + player_data_basic_bytes(*self),
    {
        out.put_u8(if self.is_premium {
            1
        } else {
            0
        });
        out.put_u32_le(self.premium_until);
        out.put_u8(self.vocation_id);
        out.put_u16_le(self.known_spells.len() as u16);
        out.put_bytes(&self.known_spells);
        proof {
            assert(final(out).bytes() =~= old(out).bytes() + player_data_basic_bytes(*self));
        }
    }
}

/// The login acknowledgement, carrying three fixed-precision speed terms.
/// Each speed is held as its scaled value: the decimal it denotes is the
/// value divided by 10^3.
pub struct LoginSuccess {
    pub player_id: u32,
    pub beat_duration: u16,
    pub speed_a: i64,
    pub speed_b: i64,
    pub speed_c: i64,
    pub is_tutor: bool,
    pub pvp_framing: bool,
    pub expert_mode: bool,
    pub store_img_url: String,
    pub coin_package_size: u16,
}

/// A scaled speed value that fits the shifted u32 wire form.
pub open spec fn speed_ok(v: i64) -> bool {
    -0x7FFF_FFFF <= v <= 0x8000_0000
}

pub open spec fn double_bytes(mantissa: i64, precision: u8) -> Seq<u8> {
    seq![precision] + u32_le((mantissa + 0x7FFF_FFFF) as u32)
}

/// Why writing a login acknowledgement fails, or `None` when it succeeds,
/// in the writer's order: each speed must fit the shifted wire form, then
/// the store url must fit its length prefix.
pub open spec fn login_success_write_error(p: LoginSuccess) -> Option<PacketError> {
    if !speed_ok(p.speed_a) {
        Some(PacketError::MalformedPacket)
    } else if !speed_ok(p.speed_b) {
        Some(PacketError::MalformedPacket)
    } else if !speed_ok(p.speed_c) {
        Some(PacketError::MalformedPacket)
    } else if !string_len_ok(p.store_img_url@) {
        Some(PacketError::StringTooLong)
    } else {
        None
    }
}

pub open spec fn login_success_bytes(p: LoginSuccess) -> Seq<u8> {
    u32_le(p.player_id) + u16_le(p.beat_duration) + double_bytes(p.speed_a, 3) + double_bytes(
        p.speed_b,
        3,
    ) + double_bytes(p.speed_c, 3) + seq![
        crate::login::bool_byte(p.is_tutor),
        crate::login::bool_byte(p.pvp_framing),
        crate::login::bool_byte(p.expert_mode),
    ] + string_encoding(p.store_img_url@) + u16_le(p.coin_package_size)
}

impl LoginSuccess {
    pub fn write_to(&self, out: &mut ByteBuf) -> (r: Result<(), PacketError>)
        requires
            old(out).wf(),
        ensures
            final(out).wf(),
            final(out).rpos() == old(out).rpos(),
            match r {
                Ok(()) => login_success_write_error(*self) == None::<PacketError>
                    && final(out).bytes() == old(out).bytes() + login_success_bytes(*self),
                Err(e) => login_success_write_error(*self) == Some(e)
                    && final(out).bytes() == old(out).bytes(),
            },
    {
        if self.speed_a < -0x7FFF_FFFF || self.speed_a > 0x8000_0000 {
            return Err(PacketError::MalformedPacket);
        }
        if self.speed_b < -0x7FFF_FFFF || self.speed_b > 0x8000_0000 {
            return Err(PacketError::MalformedPacket);
        }
        if self.speed_c < -0x7FFF_FFFF || self.speed_c > 0x8000_0000 {
            return Err(PacketError::MalformedPacket);
        }
        let mut tmp = ByteBuf::new();
        tmp.put_u32_le(self.player_id);
        tmp.put_u16_le(self.beat_duration);
        tmp.put_double(self.speed_a, 3);
        tmp.put_double(self.speed_b, 3);
        tmp.put_double(self.speed_c, 3);
        tmp.put_u8(if self.is_tutor {
            1
        } else {
            0
        });
        tmp.put_u8(if self.pvp_framing {
            1
        } else {
            0
        });
        tmp.put_u8(if self.expert_mode {
            1
        } else {
            0
        });
        match tmp.put_string(self.store_img_url.as_str()) {
            Ok(()) => (),
            Err(e) => {
                return Err(e);
            },
        };
        tmp.put_u16_le(self.coin_package_size);
        let done = tmp.into_vec();
        out.put_bytes(&done);
        proof {
            assert(done@ =~= login_success_bytes(*self));
        }
        Ok(())
    }
}

/// One item as a tile sees it.
pub struct Item {
    pub client_id: u16,
    pub stack_size: Option<u8>,
    pub fluid: Option<u8>,
    pub animation: Option<u8>,
}

pub open spec fn item_bytes(i: Item) -> Seq<u8> {
    u16_le(i.client_id) + seq![0xFFu8] + (match i.stack_size {
        Some(s) => seq![s],
        None => match i.fluid {
            Some(f) => seq![f],
            None => Seq::<u8>::empty(),
        },
    }) + (match i.animation {
        Some(a) => seq![a],
        None => Seq::<u8>::empty(),
    })
}

impl Item {
    pub fn write_to(&self, out: &mut ByteBuf)
        requires
            old(out).wf(),
        ensures
            final(out).wf(),
            final(out).rpos() == old(out).rpos(),
            final(out).bytes() == old(out).bytes() + item_bytes(*self),
    {
        out.put_u16_le(self.client_id);
        out.put_u8(0xFF);
        match self.stack_size {
            Some(s) => out.put_u8(s),
            None => {
                match self.fluid {
                    Some(f) => out.put_u8(f),
                    None => (),
                }
            },
        };
        match self.animation {
            Some(a) => out.put_u8(a),
            None => (),
        };
        proof {
            assert(final(out).bytes() =~= old(out).bytes() + item_bytes(*self));
        }
    }
}

/// How a creature looks.
pub enum Outfit {
    LookType { look_type: u16, head: u8, body: u8, legs: u8, feet: u8, addons: u8, mount: u16 },
    Item { client_id: u16, mount: u16 },
}

pub open spec fn outfit_bytes(o: Outfit) -> Seq<u8> {
    match o {
        Outfit::LookType { look_type, head, body, legs, feet, addons, mount } => u16_le(look_type)
            + seq![head, body, legs, feet, addons] + u16_le(mount),
        Outfit::Item { client_id, mount } => u16_le(0) + u16_le(client_id) + u16_le(mount),
    }
}

impl Outfit {
    pub fn write_to(&self, out: &mut ByteBuf)
        requires
            old(out).wf(),
        ensures
            final(out).wf(),
            final(out).rpos() == old(out).rpos(),
            final(out).bytes() == old(out).bytes() + outfit_bytes(*self),
    {
        match self {
            Outfit::LookType { look_type, head, body, legs, feet, addons, mount } => {
                out.put_u16_le(*look_type);
                out.put_u8(*head);
                out.put_u8(*body);
                out.put_u8(*legs);
                out.put_u8(*feet);
                out.put_u8(*addons);
                out.put_u16_le(*mount);
            },
            Outfit::Item { client_id, mount } => {
                out.put_u16_le(0);
                out.put_u16_le(*client_id);
                out.put_u16_le(*mount);
            },
        }
        proof {
            assert(final(out).bytes() =~= old(out).bytes() + outfit_bytes(*self));
        }
    }
}

/// Whether the client already knows the creature; an unknown one carries its
/// description.
pub enum CreatureKnown {
    Yes,
    No { remove: u32, creature_type: u8, creature_name: String, guild_emblem: u8 },
}

/// One creature as a tile sees it.
pub struct Creature {
    pub id: u32,
    pub known: CreatureKnown,
    pub health: u8,
    pub direction: u8,
    pub outfit: Outfit,
    pub light: LightInfo,
    pub speed: u16,
    pub skull: u8,
    pub shield: u8,
    pub summon_type: u8,
    pub speech_bubble: u8,
    pub helpers: u16,
    pub walk_through: bool,
}

pub open spec fn creature_ok(c: Creature) -> bool {
    match c.known {
        CreatureKnown::Yes => true,
        CreatureKnown::No { creature_name, .. } => string_len_ok(creature_name@),
    }
}

pub open spec fn creature_bytes(c: Creature) -> Seq<u8> {
    (match c.known {
        CreatureKnown::Yes => u16_le(0x62) + u32_le(c.id),
        CreatureKnown::No { remove, creature_type, creature_name, .. } => u16_le(0x61) + u32_le(
            remove,
        ) + u32_le(c.id) + seq![creature_type] + string_encoding(creature_name@),
    }) + seq![c.health, c.direction] + outfit_bytes(c.outfit) + light_bytes(c.light) + u16_le(
        c.speed,
    ) + seq![c.skull, c.shield] + (match c.known {
        CreatureKnown::Yes => Seq::<u8>::empty(),
        CreatureKnown::No { guild_emblem, .. } => seq![guild_emblem],
    }) + seq![c.summon_type, c.speech_bubble, 0xFFu8] + u16_le(c.helpers) + seq![
        crate::login::bool_byte(c.walk_through),
    ]
}

impl Creature {
    pub fn write_to(&self, out: &mut ByteBuf) -> (r: Result<(), PacketError>)
        requires
            old(out).wf(),
        ensures
            final(out).wf(),
            final(out).rpos() == old(out).rpos(),
            match r {
                Ok(()) => creature_ok(*self) && final(out).bytes() == old(out).bytes()
                    + creature_bytes(*self),
                Err(e) => e == PacketError::StringTooLong && !creature_ok(*self)
                    && final(out).bytes() == old(out).bytes(),
            },
    {
        let mut tmp = ByteBuf::new();
        match &self.known {
            CreatureKnown::Yes => {
                tmp.put_u16_le(0x62);
                tmp.put_u32_le(self.id);
            },
            CreatureKnown::No { remove, creature_type, creature_name, .. } => {
                tmp.put_u16_le(0x61);
                tmp.put_u32_le(*remove);
                tmp.put_u32_le(self.id);
                tmp.put_u8(*creature_type);
                match tmp.put_string(creature_name.as_str()) {
                    Ok(()) => (),
                    Err(e) => {
                        return Err(e);
                    },
                };
            },
        }
        tmp.put_u8(self.health);
        tmp.put_u8(self.direction);
        self.outfit.write_to(&mut tmp);
        self.light.write_to(&mut tmp);
        tmp.put_u16_le(self.speed);
        tmp.put_u8(self.skull);
        tmp.put_u8(self.shield);
        match &self.known {
            CreatureKnown::Yes => (),
            CreatureKnown::No { guild_emblem, .. } => {
                tmp.put_u8(*guild_emblem);
            },
        }
        tmp.put_u8(self.summon_type);
        tmp.put_u8(self.speech_bubble);
        tmp.put_u8(0xFF);
        tmp.put_u16_le(self.helpers);
        tmp.put_u8(if self.walk_through {
            1
        } else {
            0
        });
        let done = tmp.into_vec();
        out.put_bytes(&done);
        proof {
            assert(done@ =~= creature_bytes(*self));
        }
        Ok(())
    }
}

/// Anything that can stand on a tile.
pub enum Thing {
    Item(Item),
    Creature(Creature),
}

pub open spec fn thing_ok(t: Thing) -> bool {
    match t {
        Thing::Item(_) => true,
        Thing::Creature(c) => creature_ok(c),
    }
}

pub open spec fn thing_bytes(t: Thing) -> Seq<u8> {
    match t {
        Thing::Item(i) => item_bytes(i),
        Thing::Creature(c) => creature_bytes(c),
    }
}

impl Thing {
    pub fn write_to(&self, out: &mut ByteBuf) -> (r: Result<(), PacketError>)
        requires
            old(out).wf(),
        ensures
            final(out).wf(),
            final(out).rpos() == old(out).rpos(),
            match r {
                Ok(()) => thing_ok(*self) && final(out).bytes() == old(out).bytes() + thing_bytes(
                    *self,
                ),
                Err(e) => e == PacketError::StringTooLong && !thing_ok(*self)
                    && final(out).bytes() == old(out).bytes(),
            },
    {
        match self {
            Thing::Item(i) => {
                i.write_to(out);
                Ok(())
            },
            Thing::Creature(c) => c.write_to(out),
        }
    }
}

/// A thing appearing on a tile.
pub struct AddTileThing {
    pub position: Position,
    pub stack_index: u8,
    pub thing: Thing,
}

pub open spec fn add_tile_thing_bytes(a: AddTileThing) -> Seq<u8> {
    position_bytes(a.position) + seq![a.stack_index] + thing_bytes(a.thing)
}

impl AddTileThing {
    pub fn write_to(&self, out: &mut ByteBuf) -> (r: Result<(), PacketError>)
        requires
            old(out).wf(),
        ensures
            final(out).wf(),
            final(out).rpos() == old(out).rpos(),
            match r {
                Ok(()) => thing_ok(self.thing) && final(out).bytes() == old(out).bytes()
                    + add_tile_thing_bytes(*self),
                Err(e) => e == PacketError::StringTooLong && !thing_ok(self.thing)
                    && final(out).bytes() == old(out).bytes(),
            },
    {
        let mut tmp = ByteBuf::new();
        self.position.write_to(&mut tmp);
        tmp.put_u8(self.stack_index);
        match self.thing.write_to(&mut tmp) {
            Ok(()) => (),
            Err(e) => {
                return Err(e);
            },
        };
        let done = tmp.into_vec();
        out.put_bytes(&done);
        proof {
            assert(done@ =~= add_tile_thing_bytes(*self));
        }
        Ok(())
    }
}

/// A thing leaving a tile.
#[derive(Clone, Copy, Debug, PartialEq, Eq, Structural)]
pub struct DeleteTileThing {
    pub position: Position,
    pub stack_index: u8,
}

pub open spec fn delete_tile_thing_bytes(d: DeleteTileThing) -> Seq<u8> {
    position_bytes(d.position) + seq![d.stack_index]
}

impl DeleteTileThing {
    pub fn write_to(&self, out: &mut ByteBuf)
        requires
            old(out).wf(),
        ensures
            final(out).wf(),
            final(out).rpos() == old(out).rpos(),
            final(out).bytes() == old(out).bytes() + delete_tile_thing_bytes(*self),
    {
        self.position.write_to(out);
        out.put_u8(self.stack_index);
        proof {
            assert(final(out).bytes() =~= old(out).bytes() + delete_tile_thing_bytes(*self));
        }
    }
}

/// One tile and the things stacked on it, bottom to top.
pub struct Tile {
    pub environmental_effects: u16,
    pub things: Vec<Option<Thing>>,
}

pub open spec fn tile_ok(t: Tile) -> bool {
    forall|i: int|
        0 <= i < t.things@.len() ==> match #[trigger] t.things@[i] {
            Some(th) => thing_ok(th),
            None => true,
        }
}

pub open spec fn things_bytes(s: Seq<Option<Thing>>) -> Seq<u8>
    decreases s.len(),
{
    if s.len() == 0 {
        Seq::<u8>::empty()
    } else {
        things_bytes(s.drop_last()) + (match s.last() {
            Some(th) => thing_bytes(th),
            None => Seq::<u8>::empty(),
        })
    }
}

pub open spec fn tile_bytes(t: Tile) -> Seq<u8> {
    u16_le(t.environmental_effects) + things_bytes(t.things@)
}

impl Tile {
    pub fn write_to(&self, out: &mut ByteBuf) -> (r: Result<(), PacketError>)
        requires
            old(out).wf(),
        ensures
            final(out).wf(),
            final(out).rpos() == old(out).rpos(),
            match r {
                Ok(()) => tile_ok(*self) && final(out).bytes() == old(out).bytes() + tile_bytes(
                    *self,
                ),
                Err(e) => e == PacketError::StringTooLong && !tile_ok(*self)
                    && final(out).bytes() == old(out).bytes(),
            },
    {
        let mut tmp = ByteBuf::new();
        tmp.put_u16_le(self.environmental_effects);
        let n: usize = self.things.len();
        let mut i: usize = 0;
        while i < n
            invariant
                out.wf(),
                out.bytes() == old(out).bytes(),
                out.rpos() == old(out).rpos(),
                tmp.wf(),
                tmp.rpos() == 0,
                n == self.things@.len(),
                i <= n,
                forall|j: int|
                    0 <= j < i ==> match #[trigger] self.things@[j] {
                        Some(th) => thing_ok(th),
                        None => true,
                    },
                tmp.bytes() == u16_le(self.environmental_effects) + things_bytes(
                    self.things@.take(i as int),
                ),
            decreases n - i,
        {
            match &self.things[i] {
                Some(th) => {
                    match th.write_to(&mut tmp) {
                        Ok(()) => (),
                        Err(e) => {
                            proof {
                                assert(!tile_ok(*self));
                            }
                            return Err(e);
                        },
                    };
                },
                None => (),
            }
            i = i + 1;
            proof {
                assert(self.things@.take(i as int).drop_last() =~= self.things@.take(i - 1));
                assert(self.things@.take(i as int).last() == self.things@[i - 1]);
            }
        }
        proof {
            assert(self.things@.take(n as int) =~= self.things@);
        }
        let done = tmp.into_vec();
        out.put_bytes(&done);
        proof {
            assert(done@ =~= tile_bytes(*self));
        }
        Ok(())
    }
}

/// One entry of a world chunk: a tile, or a run of empty positions.
pub enum WorldData {
    Tile(Tile),
    Empty(usize),
}

pub open spec fn is_empty_entry(w: WorldData) -> bool {
    match w {
        WorldData::Empty(_) => true,
        WorldData::Tile(_) => false,
    }
}

/// The skip markers that stand for `n` empty positions: whole blocks of 255,
/// then the remainder.
pub open spec fn skip_run_bytes(n: int) -> Seq<u8>
    decreases n,
{
    if n > 255 {
        seq![0xFFu8, 0xFFu8] + skip_run_bytes(n - 255)
    } else if n > 0 {
        seq![n as u8, 0xFFu8]
    } else {
        Seq::<u8>::empty()
    }
}

/// The bytes of a world chunk. Runs of empty entries merge into one skip
/// count (`carry` holds what earlier entries contributed); a tile is closed
/// with a zero skip marker unless a skip run follows it anyway.
pub open spec fn world_data_bytes(entries: Seq<WorldData>, carry: int) -> Seq<u8>
    decreases entries.len(),
{
    if entries.len() == 0 {
        Seq::<u8>::empty()
    } else {
        let rest_empty = entries.len() > 1 && is_empty_entry(entries[1]);
        match entries[0] {
            WorldData::Tile(t) => tile_bytes(t) + (if rest_empty {
                Seq::<u8>::empty()
            } else {
                seq![0x00u8, 0xFFu8]
            }) + world_data_bytes(entries.skip(1), 0),
            WorldData::Empty(n) => {
                if rest_empty {
                    world_data_bytes(entries.skip(1), carry + n)
                } else {
                    skip_run_bytes(carry + n) + world_data_bytes(entries.skip(1), 0)
                }
            },
        }
    }
}

/// Why writing a world chunk fails, or `None` when it succeeds, in the
/// writer's order: each tile's things must fit their length prefixes, and a
/// merged run of empty positions must fit a machine word.
pub open spec fn world_chunk_write_error(entries: Seq<WorldData>, carry: int) -> Option<
    PacketError,
>
    decreases entries.len(),
{
    if entries.len() == 0 {
        None
    } else {
        let rest_empty = entries.len() > 1 && is_empty_entry(entries[1]);
        match entries[0] {
            WorldData::Tile(t) => if !tile_ok(t) {
                Some(PacketError::StringTooLong)
            } else {
                world_chunk_write_error(entries.skip(1), 0)
            },
            WorldData::Empty(n) => if carry + n > usize::MAX {
                Some(PacketError::MalformedPacket)
            } else if rest_empty {
                world_chunk_write_error(entries.skip(1), carry + n)
            } else {
                world_chunk_write_error(entries.skip(1), 0)
            },
        }
    }
}

/// Emits the skip markers for a run of `total` empty positions.
fn write_skip_run(total: usize, out: &mut ByteBuf)
    requires
        old(out).wf(),
    ensures
        final(out).wf(),
        final(out).rpos() == old(out).rpos(),
        final(out).bytes() == old(out).bytes() + skip_run_bytes(total as int),
{
    let mut left: usize = total;
    while left > 255
        invariant
            out.wf(),
            out.rpos() == old(out).rpos(),
            old(out).bytes() + skip_run_bytes(total as int) == out.bytes() + skip_run_bytes(
                left as int,
            ),
        decreases left,
    {
        let ghost before = out.bytes();
        out.put_u8(0xFF);
        out.put_u8(0xFF);
        left = left - 255;
        proof {
            assert(skip_run_bytes((left + 255) as int) == seq![0xFFu8, 0xFFu8] + skip_run_bytes(
                left as int,
            ));
            assert(before + (seq![0xFFu8, 0xFFu8] + skip_run_bytes(left as int)) =~= (before
                + seq![0xFFu8, 0xFFu8]) + skip_run_bytes(left as int));
            assert(out.bytes() =~= before + seq![0xFFu8, 0xFFu8]);
        }
    }
    if left > 0 {
        let ghost before = out.bytes();
        out.put_u8(left as u8);
        out.put_u8(0xFF);
        proof {
            assert(skip_run_bytes(left as int) == seq![left as u8, 0xFFu8]);
            assert(out.bytes() =~= before + skip_run_bytes(left as int));
            assert(old(out).bytes() + skip_run_bytes(total as int) =~= out.bytes());
        }
    } else {
        proof {
            assert(skip_run_bytes(0) =~= Seq::<u8>::empty());
            assert(old(out).bytes() + skip_run_bytes(total as int) =~= out.bytes());
        }
    }
}

/// Writes a world chunk with its skip markers. The count of a merged run of
/// empty entries must fit a machine word.
pub fn write_world_data(entries: &Vec<WorldData>, out: &mut ByteBuf) -> (r: Result<
    (),
    PacketError,
>)
    requires
        old(out).wf(),
    ensures
        final(out).wf(),
        final(out).rpos() == old(out).rpos(),
        match r {
            Ok(()) => world_chunk_write_error(entries@, 0) == None::<PacketError>
                && final(out).bytes() == old(out).bytes() + world_data_bytes(entries@, 0),
            Err(e) => world_chunk_write_error(entries@, 0) == Some(e)
                && final(out).bytes() == old(out).bytes(),
        },
{
    let mut tmp = ByteBuf::new();
    let n: usize = entries.len();
    let mut i: usize = 0;
    let mut carry: usize = 0;
    proof {
        assert(entries@.skip(0) =~= entries@);
    }
    while i < n
        invariant
            out.wf(),
            out.bytes() == old(out).bytes(),
            out.rpos() == old(out).rpos(),
            tmp.wf(),
            tmp.rpos() == 0,
            n == entries@.len(),
            i <= n,
            i == n ==> carry == 0,
            world_data_bytes(entries@, 0) == tmp.bytes() + world_data_bytes(
                entries@.skip(i as int),
                carry as int,
            ),
            world_chunk_write_error(entries@, 0) == world_chunk_write_error(
                entries@.skip(i as int),
                carry as int,
            ),
        decreases n - i,
    {
        let ghost pre_bytes = tmp.bytes();
        let next_is_empty: bool = if i + 1 < n {
            match &entries[i + 1] {
                WorldData::Empty(_) => true,
                WorldData::Tile(_) => false,
            }
        } else {
            false
        };
        proof {
            assert(entries@.skip(i as int)[0] == entries@[i as int]);
            assert(entries@.skip(i as int).len() > 1 ==> entries@.skip(i as int)[1] == entries@[i
                + 1]);
            assert(entries@.skip(i as int).skip(1) =~= entries@.skip(i + 1));
        }
        match &entries[i] {
            WorldData::Tile(t) => {
                match t.write_to(&mut tmp) {
                    Ok(()) => (),
                    Err(e) => {
                        proof {
                            assert(world_chunk_write_error(entries@.skip(i as int), carry as int)
                                == Some(e));
                        }
                        return Err(e);
                    },
                };
                if !next_is_empty {
                    tmp.put_u8(0x00);
                    tmp.put_u8(0xFF);
                }
                proof {
                    assert(tmp.bytes() =~= pre_bytes + (tile_bytes(*t) + (if next_is_empty {
                        Seq::<u8>::empty()
                    } else {
                        seq![0x00u8, 0xFFu8]
                    })));
                }
                carry = 0;
            },
            WorldData::Empty(cnt) => {
                let total: usize = match carry.checked_add(*cnt) {
                    Some(t) => t,
                    None => {
                        proof {
                            assert(world_chunk_write_error(entries@.skip(i as int), carry as int)
                                == Some(PacketError::MalformedPacket));
                        }
                        return Err(PacketError::MalformedPacket);
                    },
                };
                if next_is_empty {
                    carry = total;
                } else {
                    write_skip_run(total, &mut tmp);
                    carry = 0;
                }
            },
        }
        i = i + 1;
    }
    proof {
        assert(world_data_bytes(entries@.skip(n as int), 0) =~= Seq::<u8>::empty());
        assert(world_data_bytes(entries@, 0) =~= tmp.bytes());
    }
    let done = tmp.into_vec();
    out.put_bytes(&done);
    Ok(())
}

/// A whole visible world chunk around the player.
pub struct FullWorld {
    pub player_position: Position,
    pub world_chunk: Vec<WorldData>,
}

pub open spec fn full_world_bytes(f: FullWorld) -> Seq<u8> {
    position_bytes(f.player_position) + world_data_bytes(f.world_chunk@, 0)
}

impl FullWorld {
    pub fn write_to(&self, out: &mut ByteBuf) -> (r: Result<(), PacketError>)
        requires
            old(out).wf(),
        ensures
            final(out).wf(),
            final(out).rpos() == old(out).rpos(),
            match r {
                Ok(()) => world_chunk_write_error(self.world_chunk@, 0) == None::<PacketError>
                    && final(out).bytes() == old(out).bytes() + full_world_bytes(*self),
                Err(e) => world_chunk_write_error(self.world_chunk@, 0) == Some(e)
                    && final(out).bytes() == old(out).bytes(),
            },
    {
        let mut tmp = ByteBuf::new();
        self.player_position.write_to(&mut tmp);
        match write_world_data(&self.world_chunk, &mut tmp) {
            Ok(()) => (),
            Err(e) => {
                return Err(e);
            },
        };
        let done = tmp.into_vec();
        out.put_bytes(&done);
        proof {
            assert(done@ =~= full_world_bytes(*self));
        }
        Ok(())
    }
}

/// The strip of world scrolled in by one step north.
pub struct WorldRowNorth {
    pub world_chunk: Vec<WorldData>,
}

/// The strip of world scrolled in by one step east.
pub struct WorldRowEast {
    pub world_chunk: Vec<WorldData>,
}

/// The strip of world scrolled in by one step south.
pub struct WorldRowSouth {
    pub world_chunk: Vec<WorldData>,
}

/// The strip of world scrolled in by one step west.
pub struct WorldRowWest {
    pub world_chunk: Vec<WorldData>,
}

impl WorldRowNorth {
    pub fn write_to(&self, out: &mut ByteBuf) -> (r: Result<(), PacketError>)
        requires
            old(out).wf(),
        ensures
            final(out).wf(),
            final(out).rpos() == old(out).rpos(),
            match r {
                Ok(()) => world_chunk_write_error(self.world_chunk@, 0) == None::<PacketError>
                    && final(out).bytes() == old(out).bytes() + world_data_bytes(
                    self.world_chunk@,
                    0,
                ),
                Err(e) => world_chunk_write_error(self.world_chunk@, 0) == Some(e)
                    && final(out).bytes() == old(out).bytes(),
            },
    {
        write_world_data(&self.world_chunk, out)
    }
}

impl WorldRowEast {
    pub fn write_to(&self, out: &mut ByteBuf) -> (r: Result<(), PacketError>)
        requires
            old(out).wf(),
        ensures
            final(out).wf(),
            final(out).rpos() == old(out).rpos(),
            match r {
                Ok(()) => world_chunk_write_error(self.world_chunk@, 0) == None::<PacketError>
                    && final(out).bytes() == old(out).bytes() + world_data_bytes(
                    self.world_chunk@,
                    0,
                ),
                Err(e) => world_chunk_write_error(self.world_chunk@, 0) == Some(e)
                    && final(out).bytes() == old(out).bytes(),
            },
    {
        write_world_data(&self.world_chunk, out)
    }
}

impl WorldRowSouth {
    pub fn write_to(&self, out: &mut ByteBuf) -> (r: Result<(), PacketError>)
        requires
            old(out).wf(),
        ensures
            final(out).wf(),
            final(out).rpos() == old(out).rpos(),
            match r {
                Ok(()) => world_chunk_write_error(self.world_chunk@, 0) == None::<PacketError>
                    && final(out).bytes() == old(out).bytes() + world_data_bytes(
                    self.world_chunk@,
                    0,
                ),
                Err(e) => world_chunk_write_error(self.world_chunk@, 0) == Some(e)
                    && final(out).bytes() == old(out).bytes(),
            },
    {
        write_world_data(&self.world_chunk, out)
    }
}

impl WorldRowWest {
    pub fn write_to(&self, out: &mut ByteBuf) -> (r: Result<(), PacketError>)
        requires
            old(out).wf(),
        ensures
            final(out).wf(),
            final(out).rpos() == old(out).rpos(),
            match r {
                Ok(()) => world_chunk_write_error(self.world_chunk@, 0) == None::<PacketError>
                    && final(out).bytes() == old(out).bytes() + world_data_bytes(
                    self.world_chunk@,
                    0,
                ),
                Err(e) => world_chunk_write_error(self.world_chunk@, 0) == Some(e)
                    && final(out).bytes() == old(out).bytes(),
            },
    {
        write_world_data(&self.world_chunk, out)
    }
}

/// Any packet the game server sends, tagged by its leading id byte.
pub enum GameServerPacket {
    Nonce(Nonce),
    LoginSuccess(LoginSuccess),
    PendingStateEntered(PendingStateEntered),
    EnterWorld(EnterWorld),
    PlayerDataBasic(PlayerDataBasic),
    WorldLight(WorldLight),
    CreatureLight(CreatureLight),
    Ping(Ping),
    Pong(Pong),
    FullWorld(FullWorld),
    WorldRowNorth(WorldRowNorth),
    WorldRowEast(WorldRowEast),
    WorldRowSouth(WorldRowSouth),
    WorldRowWest(WorldRowWest),
    AddTileThing(AddTileThing),
    DeleteTileThing(DeleteTileThing),
    MoveCreature(MoveCreature),
}

/// The id byte each game server packet starts with.
pub open spec fn spec_game_packet_id(p: GameServerPacket) -> u8 {
    match p {
        GameServerPacket::Nonce(_) => 31,
        GameServerPacket::LoginSuccess(_) => 23,
        GameServerPacket::PendingStateEntered(_) => 10,
        GameServerPacket::EnterWorld(_) => 15,
        GameServerPacket::PlayerDataBasic(_) => 159,
        GameServerPacket::WorldLight(_) => 130,
        GameServerPacket::CreatureLight(_) => 141,
        GameServerPacket::Ping(_) => 29,
        GameServerPacket::Pong(_) => 30,
        GameServerPacket::FullWorld(_) => 100,
        GameServerPacket::WorldRowNorth(_) => 101,
        GameServerPacket::WorldRowEast(_) => 102,
        GameServerPacket::WorldRowSouth(_) => 103,
        GameServerPacket::WorldRowWest(_) => 104,
        GameServerPacket::AddTileThing(_) => 106,
        GameServerPacket::DeleteTileThing(_) => 108,
        GameServerPacket::MoveCreature(_) => 109,
    }
}

/// The payload bytes each game server packet carries after its id.
pub open spec fn game_packet_payload_bytes(p: GameServerPacket) -> Seq<u8> {
    match p {
        GameServerPacket::Nonce(v) => nonce_bytes(v),
        GameServerPacket::LoginSuccess(v) => login_success_bytes(v),
        GameServerPacket::PendingStateEntered(_) => Seq::<u8>::empty(),
        GameServerPacket::EnterWorld(_) => Seq::<u8>::empty(),
        GameServerPacket::PlayerDataBasic(v) => player_data_basic_bytes(v),
        GameServerPacket::WorldLight(v) => light_bytes(v.light),
        GameServerPacket::CreatureLight(v) => creature_light_bytes(v),
        GameServerPacket::Ping(_) => Seq::<u8>::empty(),
        GameServerPacket::Pong(_) => Seq::<u8>::empty(),
        GameServerPacket::FullWorld(v) => full_world_bytes(v),
        GameServerPacket::WorldRowNorth(v) => world_data_bytes(v.world_chunk@, 0),
        GameServerPacket::WorldRowEast(v) => world_data_bytes(v.world_chunk@, 0),
        GameServerPacket::WorldRowSouth(v) => world_data_bytes(v.world_chunk@, 0),
        GameServerPacket::WorldRowWest(v) => world_data_bytes(v.world_chunk@, 0),
        GameServerPacket::AddTileThing(v) => add_tile_thing_bytes(v),
        GameServerPacket::DeleteTileThing(v) => delete_tile_thing_bytes(v),
        GameServerPacket::MoveCreature(v) => move_creature_bytes(v),
    }
}

/// The complete bytes of one game server packet, id byte included.
pub open spec fn spec_write_game_packet(p: GameServerPacket) -> Seq<u8> {
    seq![spec_game_packet_id(p)] + game_packet_payload_bytes(p)
}

/// Why writing one game server packet fails, or `None` when it succeeds:
/// only payloads with strings, world chunks or scaled speeds can fail.
pub open spec fn game_packet_write_error(p: GameServerPacket) -> Option<PacketError> {
    match p {
        GameServerPacket::LoginSuccess(v) => login_success_write_error(v),
        GameServerPacket::FullWorld(v) => world_chunk_write_error(v.world_chunk@, 0),
        GameServerPacket::WorldRowNorth(v) => world_chunk_write_error(v.world_chunk@, 0),
        GameServerPacket::WorldRowEast(v) => world_chunk_write_error(v.world_chunk@, 0),
        GameServerPacket::WorldRowSouth(v) => world_chunk_write_error(v.world_chunk@, 0),
        GameServerPacket::WorldRowWest(v) => world_chunk_write_error(v.world_chunk@, 0),
        GameServerPacket::AddTileThing(v) => if !thing_ok(v.thing) {
            Some(PacketError::StringTooLong)
        } else {
            None
        },
        _ => None,
    }
}

impl GameServerPacket {
    /// Writes one game server packet, id byte first. On failure nothing is
    /// appended.
    pub fn write_to(&self, out: &mut ByteBuf) -> (r: Result<(), PacketError>)
        requires
            old(out).wf(),
            match self {
                GameServerPacket::PlayerDataBasic(v) => v.known_spells@.len() <= 65535,
                _ => true,
            },
        ensures
            final(out).wf(),
            final(out).rpos() == old(out).rpos(),
            match r {
                Ok(()) => game_packet_write_error(*self) == None::<PacketError>
                    && final(out).bytes() == old(out).bytes() + spec_write_game_packet(*self),
                Err(e) => game_packet_write_error(*self) == Some(e)
                    && final(out).bytes() == old(out).bytes(),
            },
    {
        let mut tmp = ByteBuf::new();
        match self {
            GameServerPacket::Nonce(v) => {
                tmp.put_u8(31);
                v.write_to(&mut tmp);
            },
            GameServerPacket::LoginSuccess(v) => {
                tmp.put_u8(23);
                match v.write_to(&mut tmp) {
                    Ok(()) => (),
                    Err(e) => {
                        return Err(e);
                    },
                };
            },
            GameServerPacket::PendingStateEntered(_) => {
                tmp.put_u8(10);
            },
            GameServerPacket::EnterWorld(_) => {
                tmp.put_u8(15);
            },
            GameServerPacket::PlayerDataBasic(v) => {
                tmp.put_u8(159);
                v.write_to(&mut tmp);
            },
            GameServerPacket::WorldLight(v) => {
                tmp.put_u8(130);
                v.write_to(&mut tmp);
            },
            GameServerPacket::CreatureLight(v) => {
                tmp.put_u8(141);
                v.write_to(&mut tmp);
            },
            GameServerPacket::Ping(_) => {
                tmp.put_u8(29);
            },
            GameServerPacket::Pong(_) => {
                tmp.put_u8(30);
            },
            GameServerPacket::FullWorld(v) => {
                tmp.put_u8(100);
                match v.write_to(&mut tmp) {
                    Ok(()) => (),
                    Err(e) => {
                        return Err(e);
                    },
                };
            },
            GameServerPacket::WorldRowNorth(v) => {
                tmp.put_u8(101);
                match v.write_to(&mut tmp) {
                    Ok(()) => (),
                    Err(e) => {
                        return Err(e);
                    },
                };
            },
            GameServerPacket::WorldRowEast(v) => {
                tmp.put_u8(102);
                match v.write_to(&mut tmp) {
                    Ok(()) => (),
                    Err(e) => {
                        return Err(e);
                    },
                };
            },
            GameServerPacket::WorldRowSouth(v) => {
                tmp.put_u8(103);
                match v.write_to(&mut tmp) {
                    Ok(()) => (),
                    Err(e) => {
                        return Err(e);
                    },
                };
            },
            GameServerPacket::WorldRowWest(v) => {
                tmp.put_u8(104);
                match v.write_to(&mut tmp) {
                    Ok(()) => (),
                    Err(e) => {
                        return Err(e);
                    },
                };
            },
            GameServerPacket::AddTileThing(v) => {
                tmp.put_u8(106);
                match v.write_to(&mut tmp) {
                    Ok(()) => (),
                    Err(e) => {
                        return Err(e);
                    },
                };
            },
            GameServerPacket::DeleteTileThing(v) => {
                tmp.put_u8(108);
                v.write_to(&mut tmp);
            },
            GameServerPacket::MoveCreature(v) => {
                tmp.put_u8(109);
                v.write_to(&mut tmp);
            },
        }
        let done = tmp.into_vec();
        out.put_bytes(&done);
        proof {
            assert(done@ =~= spec_write_game_packet(*self));
        }
        Ok(())
    }
}

} // verus!
