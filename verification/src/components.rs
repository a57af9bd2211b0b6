//! The data attached to game entities: grid positions, tags and sprites.

use vstd::prelude::*;

verus! {

/// Width in pixels of one grid tile on screen.
pub const TILE_WIDTH: u32 = 48;

/// Height in pixels of one grid tile on screen.
pub const TILE_HEIGHT: u32 = 48;

/// Grid coordinates of an entity, plus the depth used only for draw
/// ordering: lower `z` is painted first.
#[derive(Clone, Copy, PartialEq, Eq, Structural, Debug)]
pub struct Position {
    pub x: u8,
    pub y: u8,
    pub z: u8,
}

/// One cell of the textual map. `Empty` is the `N` symbol: a cell that
/// yields no entity at all.
#[derive(Clone, Copy, PartialEq, Eq, Structural, Debug)]
pub enum Tile {
    Player,
    BoxItem,
    Wall,
    BoxSpot,
    Floor,
    Empty,
}

/// The tag that says what a live entity is.
#[derive(Clone, Copy, PartialEq, Eq, Structural, Debug)]
pub enum EntityKind {
    Floor,
    Wall,
    Player,
    BoxItem,
    BoxSpot,
}

/// A live game object: its tag and where it stands. Its identity is its
/// index in the store, which is also its creation order.
#[derive(Clone, Copy, PartialEq, Eq, Structural, Debug)]
pub struct Entity {
    pub kind: EntityKind,
    pub pos: Position,
}

/// The visual asset an entity is drawn with. A box changes sprite when it
/// stands on a spot, so that a correctly placed box is visibly marked.
#[derive(Clone, Copy, PartialEq, Eq, Structural, Debug)]
pub enum Sprite {
    Floor,
    Wall,
    Player,
    BoxFree,
    BoxPlaced,
    Spot,
}

/// The draw depth assigned to each tag at creation time: floors and spots
/// are painted first, everything that stands on them after.
pub open spec fn z_of(k: EntityKind) -> u8 {
    match k {
        EntityKind::Floor => 0,
        EntityKind::BoxSpot => 0,
        EntityKind::Wall => 1,
        EntityKind::Player => 1,
        EntityKind::BoxItem => 1,
    }
}

/// Executable twin of `z_of`.
pub fn kind_z(k: EntityKind) -> (r: u8)
    ensures
        r == z_of(k),
{
    match k {
        EntityKind::Floor => 0,
        EntityKind::BoxSpot => 0,
        EntityKind::Wall => 1,
        EntityKind::Player => 1,
        EntityKind::BoxItem => 1,
    }
}

/// The entity that a tag creates at a map cell: it stands at the cell's
/// grid coordinates, at the depth of its tag.
pub open spec fn entity_at(k: EntityKind, x: u8, y: u8) -> Entity {
    Entity { kind: k, pos: Position { x: x, y: y, z: z_of(k) } }
}

/// The same entity moved to cell (x, y): tag and depth are kept.
pub open spec fn moved_to(e: Entity, x: u8, y: u8) -> Entity {
    Entity { kind: e.kind, pos: Position { x: x, y: y, z: e.pos.z } }
}

/// Executable twin of `entity_at`.
pub fn make_entity(k: EntityKind, x: u8, y: u8) -> (r: Entity)
    ensures
        r == entity_at(k, x, y),
{
    Entity { kind: k, pos: Position { x: x, y: y, z: kind_z(k) } }
}

} // verus!
