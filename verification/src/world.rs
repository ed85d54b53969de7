use vstd::prelude::*;

use crate::game::Position;

verus! {

/// A direction of movement, or none when a creature stands still.
#[derive(Clone, Copy, Debug, PartialEq, Eq, Structural)]
pub enum Direction {
    Still,
    North,
    East,
    South,
    West,
}

impl Position {
    /// Whether a viewer here can see the other position within the given
    /// ranges: never across the surface boundary, never more than two floors
    /// apart underground, and otherwise within the view rectangle shifted by
    /// the vertical offset.
    pub fn can_see(&self, other: &Position, range_x: u16, range_y: u16) -> (r: bool)
        requires
            other.y <= self.y,
            self.y - other.y <= 127,
            range_x <= self.x,
            range_y <= self.y,
            self.x + range_x + (self.y - other.y) <= 65535,
            self.y + range_y + (self.y - other.y) <= 65535,
        ensures
            r == ({
                let offset = self.y - other.y;
                if (self.z <= 7 && other.z > 7) || (self.z >= 8 && (if self.y >= other.y {
                    self.y - other.y
                } else {
                    other.y - self.y
                }) > 2) {
                    false
                } else {
                    other.x >= self.x - range_x + offset && other.x <= self.x + range_x + offset
                        && other.y >= self.y - range_y + offset && other.y <= self.y + range_y
                        + offset
                }
            }),
    {
        if (self.z <= 7 && other.z > 7) || (self.z >= 8 && self.distance_y(other) > 2) {
            return false;
        }
        let offset_z = self.y - other.y;
        (other.x >= self.x - range_x + offset_z) && (other.x <= self.x + range_x + offset_z) && (
        other.y >= self.y - range_y + offset_z) && (other.y <= self.y + range_y + offset_z)
    }

    /// The horizontal distance to the other position, for positions no more
    /// than 127 tiles apart.
    pub fn distance_x(&self, other: &Position) -> (r: u8)
        requires
            self.x <= other.x + 127,
            other.x <= self.x + 127,
        ensures
            r == if self.x >= other.x {
                self.x - other.x
            } else {
                other.x - self.x
            },
    {
        if self.x >= other.x {
            (self.x - other.x) as u8
        } else {
            (other.x - self.x) as u8
        }
    }

    /// The vertical distance to the other position, for positions no more
    /// than 127 tiles apart.
    pub fn distance_y(&self, other: &Position) -> (r: u8)
        requires
            self.y <= other.y + 127,
            other.y <= self.y + 127,
        ensures
            r == if self.y >= other.y {
                self.y - other.y
            } else {
                other.y - self.y
            },
    {
        if self.y >= other.y {
            (self.y - other.y) as u8
        } else {
            (other.y - self.y) as u8
        }
    }

    /// The floor distance to the other position.
    pub fn distance_z(&self, other: &Position) -> (r: u8)
        ensures
            r == if self.z >= other.z {
                self.z - other.z
            } else {
                other.z - self.z
            },
    {
        if self.z >= other.z {
            self.z - other.z
        } else {
            other.z - self.z
        }
    }

    /// The position one tile away in the given direction.
    pub fn step(&self, direction: Direction) -> (r: Position)
        requires
            direction == Direction::North ==> self.y > 0,
            direction == Direction::West ==> self.x > 0,
            direction == Direction::East ==> self.x < 65535,
            direction == Direction::South ==> self.y < 65535,
        ensures
            r == (match direction {
                Direction::North => Position { y: (self.y - 1) as u16, ..*self },
                Direction::East => Position { x: (self.x + 1) as u16, ..*self },
                Direction::South => Position { y: (self.y + 1) as u16, ..*self },
                Direction::West => Position { x: (self.x - 1) as u16, ..*self },
                Direction::Still => *self,
            }),
    {
        match direction {
            Direction::North => Position { x: self.x, y: self.y - 1, z: self.z },
            Direction::East => Position { x: self.x + 1, y: self.y, z: self.z },
            Direction::South => Position { x: self.x, y: self.y + 1, z: self.z },
            Direction::West => Position { x: self.x - 1, y: self.y, z: self.z },
            Direction::Still => Position { x: self.x, y: self.y, z: self.z },
        }
    }
}

/// The coordinates of one chunk of the tile map: tile coordinates with the
/// three in-chunk bits dropped.
#[derive(Clone, Copy, Debug, PartialEq, Eq, Hash, Structural)]
pub struct ChunkPosition {
    pub x: u16,
    pub y: u16,
}

impl ChunkPosition {
    pub fn new(x: u16, y: u16) -> (r: ChunkPosition)
        ensures
            r.x == x,
            r.y == y,
    {
        ChunkPosition { x, y }
    }

    /// The chunk a world position falls in.
    pub fn of_position(pos: Position) -> (r: ChunkPosition)
        ensures
            r.x == pos.x >> 3,
            r.y == pos.y >> 3,
    {
        ChunkPosition { x: pos.x >> 3, y: pos.y >> 3 }
    }
}

/// The coordinates of one tile within its chunk.
#[derive(Clone, Copy, Debug, PartialEq, Eq, Structural)]
pub struct TilePosition {
    pub x: usize,
    pub y: usize,
    pub z: usize,
}

impl TilePosition {
    /// The in-chunk coordinates of a world position: its three low bits and
    /// the floor.
    pub fn of_position(pos: Position) -> (r: TilePosition)
        ensures
            r.x == (pos.x & 7) as usize,
            r.y == (pos.y & 7) as usize,
            r.z == pos.z as usize,
    {
        TilePosition { x: (pos.x & 7) as usize, y: (pos.y & 7) as usize, z: pos.z as usize }
    }
}

/// A thing standing on a tile, recorded with the tile's position.
#[derive(Clone, Copy, Debug, PartialEq, Eq, Structural)]
pub struct TileThing {
    pub position: Position,
}

/// A creature of the game world.
pub struct Creature {
    pub id: u32,
    pub name: String,
}

/// Marks an entity as a player.
pub struct Player;

/// Marks an entity as a monster.
pub struct Monster;

/// Marks an entity as a non-player character.
pub struct Npc;

/// An item of the game world.
#[derive(Clone, Copy, Debug, PartialEq, Eq, Structural)]
pub struct Item {
    pub client_id: u16,
}

/// A pending movement of a creature.
#[derive(Clone, Copy, Debug, PartialEq, Eq, Structural)]
pub struct Move {
    pub next_direction: Direction,
    pub speed: u16,
}

/// A counter that hands out one number after another; each call returns the
/// count before the step.
pub struct AtomicU32Counter {
    count: u32,
}

impl AtomicU32Counter {
    pub closed spec fn spec_count(&self) -> u32 {
        self.count
    }

    pub fn new(initial_count: u32) -> (r: AtomicU32Counter)
        ensures
            r.spec_count() == initial_count,
    {
        AtomicU32Counter { count: initial_count }
    }

    pub fn inc(&mut self) -> (r: u32)
        requires
            old(self).spec_count() < 0xFFFF_FFFF,
        ensures
            r == old(self).spec_count(),
            final(self).spec_count() == old(self).spec_count() + 1,
    {
        let c = self.count;
        self.count = self.count + 1;
        c
    }
}

/// The source of creature ids.
pub struct CreatureIdCounter(pub AtomicU32Counter);

} // verus!
