//! The entity store, and entity creation from a parsed map.
//!
//! Entities are rows of one table; an entity's identity is its index, which
//! is also its creation order. Queries are explicit scans over the table.

use vstd::prelude::*;
use crate::components::{Entity, EntityKind, Position, Tile, entity_at, make_entity, moved_to, z_of};

verus! {

/// Holds all live entities. Entities are never destroyed during play; a
/// move only rewrites an entity's grid coordinates.
#[derive(Debug)]
pub struct World {
    ents: Vec<Entity>,
}

impl View for World {
    type V = Seq<Entity>;

    closed spec fn view(&self) -> Seq<Entity> {
        self.ents@
    }
}

/// True when some entity of kind `k` stands at cell (x, y).
pub open spec fn kind_at(w: Seq<Entity>, k: EntityKind, x: u8, y: u8) -> bool {
    exists|i: int|
        0 <= i < w.len() && (#[trigger] w[i]).kind == k && w[i].pos.x == x && w[i].pos.y == y
}

/// The first (oldest) entity of kind `k` at cell (x, y), if any.
pub open spec fn first_kind_at(w: Seq<Entity>, k: EntityKind, x: u8, y: u8) -> Option<int>
    decreases w.len(),
{
    if w.len() == 0 {
        None
    } else if w.first().kind == k && w.first().pos.x == x && w.first().pos.y == y {
        Some(0)
    } else {
        match first_kind_at(w.drop_first(), k, x, y) {
            Some(i) => Some(i + 1),
            None => None,
        }
    }
}

/// The first (oldest) player entity, if any.
pub open spec fn first_player(w: Seq<Entity>) -> Option<int>
    decreases w.len(),
{
    if w.len() == 0 {
        None
    } else if w.first().kind == EntityKind::Player {
        Some(0)
    } else {
        match first_player(w.drop_first()) {
            Some(i) => Some(i + 1),
            None => None,
        }
    }
}

/// How many entities of kind `k` the store holds.
pub open spec fn count_kind_spec(w: Seq<Entity>, k: EntityKind) -> nat
    decreases w.len(),
{
    if w.len() == 0 {
        0
    } else {
        count_kind_spec(w.drop_last(), k) + if w.last().kind == k {
            1nat
        } else {
            0nat
        }
    }
}

/// Every entity stands at the depth of its tag.
pub open spec fn wf_world(w: Seq<Entity>) -> bool {
    forall|i: int| 0 <= i < w.len() ==> (#[trigger] w[i]).pos.z == z_of(w[i].kind)
}

/// A scan that found `k` at index `i`, and nothing before, found the first.
proof fn lemma_first_kind_at_hit(w: Seq<Entity>, k: EntityKind, x: u8, y: u8, i: int)
    requires
        0 <= i < w.len(),
        w[i].kind == k && w[i].pos.x == x && w[i].pos.y == y,
        forall|j: int|
            0 <= j < i ==> !((#[trigger] w[j]).kind == k && w[j].pos.x == x && w[j].pos.y == y),
    ensures
        first_kind_at(w, k, x, y) == Some(i),
    decreases i,
{
    if i > 0 {
        assert(!(w[0].kind == k && w[0].pos.x == x && w[0].pos.y == y));
        let t = w.drop_first();
        assert(t[i - 1] == w[i]);
        assert(forall|j: int|
            0 <= j < i - 1 ==> !((#[trigger] t[j]).kind == k && t[j].pos.x == x && t[j].pos.y
                == y)) by {
            assert(forall|j: int| 0 <= j < i - 1 ==> t[j] == w[j + 1]);
        }
        lemma_first_kind_at_hit(t, k, x, y, i - 1);
    }
}

/// A scan that found nothing found the truth: there is no such entity.
proof fn lemma_first_kind_at_miss(w: Seq<Entity>, k: EntityKind, x: u8, y: u8)
    requires
        forall|j: int|
            0 <= j < w.len() ==> !((#[trigger] w[j]).kind == k && w[j].pos.x == x && w[j].pos.y
                == y),
    ensures
        first_kind_at(w, k, x, y) is None,
        !kind_at(w, k, x, y),
    decreases w.len(),
{
    if w.len() > 0 {
        let t = w.drop_first();
        assert(forall|j: int| 0 <= j < t.len() ==> t[j] == w[j + 1]);
        lemma_first_kind_at_miss(t, k, x, y);
    }
}

proof fn lemma_first_player_hit(w: Seq<Entity>, i: int)
    requires
        0 <= i < w.len(),
        w[i].kind == EntityKind::Player,
        forall|j: int| 0 <= j < i ==> (#[trigger] w[j]).kind != EntityKind::Player,
    ensures
        first_player(w) == Some(i),
    decreases i,
{
    if i > 0 {
        let t = w.drop_first();
        assert(t[i - 1] == w[i]);
        assert(forall|j: int| 0 <= j < i - 1 ==> (#[trigger] t[j]).kind != EntityKind::Player)
            by {
            assert(forall|j: int| 0 <= j < i - 1 ==> t[j] == w[j + 1]);
        }
        lemma_first_player_hit(t, i - 1);
    }
}

proof fn lemma_first_player_miss(w: Seq<Entity>)
    requires
        forall|j: int| 0 <= j < w.len() ==> (#[trigger] w[j]).kind != EntityKind::Player,
    ensures
        first_player(w) is None,
    decreases w.len(),
{
    if w.len() > 0 {
        let t = w.drop_first();
        assert(forall|j: int| 0 <= j < t.len() ==> t[j] == w[j + 1]);
        lemma_first_player_miss(t);
    }
}

/// What a found first index is: in range, of the right kind, at the cell.
pub proof fn lemma_first_kind_at_props(w: Seq<Entity>, k: EntityKind, x: u8, y: u8)
    ensures
        first_kind_at(w, k, x, y) matches Some(i) ==> 0 <= i < w.len() && w[i].kind == k
            && w[i].pos.x == x && w[i].pos.y == y,
    decreases w.len(),
{
    if w.len() > 0 {
        let t = w.drop_first();
        lemma_first_kind_at_props(t, k, x, y);
        assert(forall|j: int| 0 <= j < t.len() ==> t[j] == w[j + 1]);
    }
}

/// What a found first player index is: in range and a player.
pub proof fn lemma_first_player_props(w: Seq<Entity>)
    ensures
        first_player(w) matches Some(i) ==> 0 <= i < w.len() && w[i].kind == EntityKind::Player,
    decreases w.len(),
{
    if w.len() > 0 {
        let t = w.drop_first();
        lemma_first_player_props(t);
        assert(forall|j: int| 0 <= j < t.len() ==> t[j] == w[j + 1]);
    }
}

impl World {
    /// An empty store.
    pub fn new() -> (w: World)
        ensures
            w@ == Seq::<Entity>::empty(),
    {
        World { ents: Vec::new() }
    }

    /// How many entities are live.
    pub fn len(&self) -> (n: usize)
        ensures
            n == self@.len(),
    {
        self.ents.len()
    }

    /// The entity with index (creation order) `i`.
    pub fn get(&self, i: usize) -> (e: Entity)
        requires
            i < self@.len(),
        ensures
            e == self@[i as int],
    {
        self.ents[i]
    }

    /// Counts the entities of kind `k`.
    pub fn count_kind(&self, k: EntityKind) -> (n: usize)
        ensures
            n == count_kind_spec(self@, k),
    {
        let mut n: usize = 0;
        let mut i: usize = 0;
        proof {
            assert(self@.take(0) =~= Seq::<Entity>::empty());
        }
        while i < self.ents.len()
            invariant
                i <= self@.len(),
                n <= i,
                n == count_kind_spec(self@.take(i as int), k),
            decreases self@.len() - i,
        {
            let ghost prev = self@.take(i as int);
            if self.ents[i].kind == k {
                n += 1;
            }
            i += 1;
            proof {
                assert(self@.take(i as int).drop_last() =~= prev);
                assert(self@.take(i as int).last() == self@[i - 1]);
            }
        }
        proof {
            assert(self@.take(self@.len() as int) =~= self@);
        }
        n
    }

    /// Finds the first (oldest) entity of kind `k` at cell (x, y).
    pub fn find_first_at(&self, k: EntityKind, x: u8, y: u8) -> (r: Option<usize>)
        ensures
            r is Some <==> kind_at(self@, k, x, y),
            r is None ==> first_kind_at(self@, k, x, y) is None,
            r matches Some(i) ==> first_kind_at(self@, k, x, y) == Some(i as int) && i
                < self@.len() && self@[i as int].kind == k && self@[i as int].pos.x == x
                && self@[i as int].pos.y == y,
    {
        let mut i: usize = 0;
        while i < self.ents.len()
            invariant
                i <= self@.len(),
                forall|j: int|
                    0 <= j < i ==> !((#[trigger] self@[j]).kind == k && self@[j].pos.x == x
                        && self@[j].pos.y == y),
            decreases self@.len() - i,
        {
            let e = self.ents[i];
            if e.kind == k && e.pos.x == x && e.pos.y == y {
                proof {
                    lemma_first_kind_at_hit(self@, k, x, y, i as int);
                }
                return Some(i);
            }
            i += 1;
        }
        proof {
            lemma_first_kind_at_miss(self@, k, x, y);
        }
        None
    }

    /// True when some entity of kind `k` stands at cell (x, y).
    pub fn has_kind_at(&self, k: EntityKind, x: u8, y: u8) -> (r: bool)
        ensures
            r == kind_at(self@, k, x, y),
    {
        self.find_first_at(k, x, y).is_some()
    }

    /// Finds the first (oldest) player entity.
    pub fn find_player(&self) -> (r: Option<usize>)
        ensures
            r is Some <==> first_player(self@) is Some,
            r matches Some(i) ==> first_player(self@) == Some(i as int) && i < self@.len()
                && self@[i as int].kind == EntityKind::Player,
    {
        let mut i: usize = 0;
        while i < self.ents.len()
            invariant
                i <= self@.len(),
                forall|j: int| 0 <= j < i ==> (#[trigger] self@[j]).kind != EntityKind::Player,
            decreases self@.len() - i,
        {
            if self.ents[i].kind == EntityKind::Player {
                proof {
                    lemma_first_player_hit(self@, i as int);
                }
                return Some(i);
            }
            i += 1;
        }
        proof {
            lemma_first_player_miss(self@);
        }
        None
    }

    /// Moves entity `i` to cell (x, y), keeping its tag and depth.
    pub fn move_entity(&mut self, i: usize, x: u8, y: u8)
        requires
            i < old(self)@.len(),
        ensures
            final(self)@ == old(self)@.update(i as int, moved_to(old(self)@[i as int], x, y)),
    {
        let e = self.ents[i];
        self.ents[i] = Entity { kind: e.kind, pos: Position { x: x, y: y, z: e.pos.z } };
    }
}

/// The entities one map cell creates: walkable tiles lay a floor first, and
/// what stands on the cell comes after it (so it paints over the floor).
pub open spec fn cell_entities(p: Position, t: Tile) -> Seq<Entity> {
    match t {
        Tile::Player => seq![
            entity_at(EntityKind::Floor, p.x, p.y),
            entity_at(EntityKind::Player, p.x, p.y),
        ],
        Tile::BoxItem => seq![
            entity_at(EntityKind::Floor, p.x, p.y),
            entity_at(EntityKind::BoxItem, p.x, p.y),
        ],
        Tile::Wall => seq![entity_at(EntityKind::Wall, p.x, p.y)],
        Tile::BoxSpot => seq![
            entity_at(EntityKind::Floor, p.x, p.y),
            entity_at(EntityKind::BoxSpot, p.x, p.y),
        ],
        Tile::Floor => seq![entity_at(EntityKind::Floor, p.x, p.y)],
        Tile::Empty => Seq::empty(),
    }
}

/// All entities a parsed map creates, cell by cell in map order.
pub open spec fn map_entities(m: Seq<(Position, Tile)>) -> Seq<Entity>
    decreases m.len(),
{
    if m.len() == 0 {
        Seq::empty()
    } else {
        map_entities(m.drop_last()) + cell_entities(m.last().0, m.last().1)
    }
}

/// Creates the entities of a parsed map, appending to the store in map
/// order: for each cell exactly the entities of its tile's template.
pub fn create_entities_from_map(world: &mut World, map: &Vec<(Position, Tile)>)
    ensures
        final(world)@ == old(world)@ + map_entities(map@),
{
    let mut i: usize = 0;
    proof {
        assert(map@.take(0) =~= Seq::<(Position, Tile)>::empty());
        assert(old(world)@ + map_entities(map@.take(0)) =~= old(world)@);
    }
    while i < map.len()
        invariant
            i <= map@.len(),
            world@ == old(world)@ + map_entities(map@.take(i as int)),
        decreases map@.len() - i,
    {
        let ghost prev = map@.take(i as int);
        let (p, t) = map[i];
        match t {
            Tile::Player => {
                world.ents.push(make_entity(EntityKind::Floor, p.x, p.y));
                world.ents.push(make_entity(EntityKind::Player, p.x, p.y));
            },
            Tile::BoxItem => {
                world.ents.push(make_entity(EntityKind::Floor, p.x, p.y));
                world.ents.push(make_entity(EntityKind::BoxItem, p.x, p.y));
            },
            Tile::Wall => {
                world.ents.push(make_entity(EntityKind::Wall, p.x, p.y));
            },
            Tile::BoxSpot => {
                world.ents.push(make_entity(EntityKind::Floor, p.x, p.y));
                world.ents.push(make_entity(EntityKind::BoxSpot, p.x, p.y));
            },
            Tile::Floor => {
                world.ents.push(make_entity(EntityKind::Floor, p.x, p.y));
            },
            Tile::Empty => {},
        }
        i += 1;
        proof {
            assert(map@.take(i as int).drop_last() =~= prev);
            assert(map@.take(i as int).last() == map@[i - 1]);
            assert(world@ =~= old(world)@ + map_entities(map@.take(i as int)));
        }
    }
    proof {
        assert(map@.take(map@.len() as int) =~= map@);
    }
}

/// Tiles that lay a floor under whatever stands on the cell: every cell
/// except walls and empty cells.
pub open spec fn lays_floor(t: Tile) -> bool {
    t == Tile::Player || t == Tile::BoxItem || t == Tile::BoxSpot || t == Tile::Floor
}

/// How many cells of a parsed map are not empty (`N`).
pub open spec fn count_non_empty(m: Seq<(Position, Tile)>) -> nat
    decreases m.len(),
{
    if m.len() == 0 {
        0
    } else {
        count_non_empty(m.drop_last()) + if m.last().1 != Tile::Empty {
            1nat
        } else {
            0nat
        }
    }
}

/// The grid cells of the entities of kind `k`, in creation order.
pub open spec fn kind_positions(w: Seq<Entity>, k: EntityKind) -> Seq<(u8, u8)>
    decreases w.len(),
{
    if w.len() == 0 {
        Seq::empty()
    } else {
        let r = kind_positions(w.drop_last(), k);
        if w.last().kind == k {
            r.push((w.last().pos.x, w.last().pos.y))
        } else {
            r
        }
    }
}

/// The grid cells of the map cells holding tile `t`, in map order.
pub open spec fn tile_positions(m: Seq<(Position, Tile)>, t: Tile) -> Seq<(u8, u8)>
    decreases m.len(),
{
    if m.len() == 0 {
        Seq::empty()
    } else {
        let r = tile_positions(m.drop_last(), t);
        if m.last().1 == t {
            r.push((m.last().0.x, m.last().0.y))
        } else {
            r
        }
    }
}

/// The grid cells of the map cells that lay a floor, in map order.
pub open spec fn floor_positions(m: Seq<(Position, Tile)>) -> Seq<(u8, u8)>
    decreases m.len(),
{
    if m.len() == 0 {
        Seq::empty()
    } else {
        let r = floor_positions(m.drop_last());
        if lays_floor(m.last().1) {
            r.push((m.last().0.x, m.last().0.y))
        } else {
            r
        }
    }
}

proof fn lemma_count_kind_concat(a: Seq<Entity>, b: Seq<Entity>, k: EntityKind)
    ensures
        count_kind_spec(a + b, k) == count_kind_spec(a, k) + count_kind_spec(b, k),
    decreases b.len(),
{
    if b.len() == 0 {
        assert(a + b =~= a);
    } else {
        lemma_count_kind_concat(a, b.drop_last(), k);
        assert((a + b).drop_last() =~= a + b.drop_last());
        assert((a + b).last() == b.last());
    }
}

proof fn lemma_kind_positions_concat(a: Seq<Entity>, b: Seq<Entity>, k: EntityKind)
    ensures
        kind_positions(a + b, k) == kind_positions(a, k) + kind_positions(b, k),
    decreases b.len(),
{
    if b.len() == 0 {
        assert(a + b =~= a);
        assert(kind_positions(a, k) + kind_positions(b, k) =~= kind_positions(a, k));
    } else {
        lemma_kind_positions_concat(a, b.drop_last(), k);
        assert((a + b).drop_last() =~= a + b.drop_last());
        assert((a + b).last() == b.last());
        if b.last().kind == k {
            assert((kind_positions(a, k) + kind_positions(b.drop_last(), k)).push(
                (b.last().pos.x, b.last().pos.y),
            ) =~= kind_positions(a, k) + kind_positions(b.drop_last(), k).push(
                (b.last().pos.x, b.last().pos.y),
            ));
        }
    }
}

/// What one cell's entities contribute, kind by kind.
proof fn lemma_cell_positions(p: Position, t: Tile)
    ensures
        kind_positions(cell_entities(p, t), EntityKind::Player) == (if t == Tile::Player {
            seq![(p.x, p.y)]
        } else {
            Seq::<(u8, u8)>::empty()
        }),
        kind_positions(cell_entities(p, t), EntityKind::BoxItem) == (if t == Tile::BoxItem {
            seq![(p.x, p.y)]
        } else {
            Seq::<(u8, u8)>::empty()
        }),
        kind_positions(cell_entities(p, t), EntityKind::BoxSpot) == (if t == Tile::BoxSpot {
            seq![(p.x, p.y)]
        } else {
            Seq::<(u8, u8)>::empty()
        }),
        kind_positions(cell_entities(p, t), EntityKind::Floor) == (if lays_floor(t) {
            seq![(p.x, p.y)]
        } else {
            Seq::<(u8, u8)>::empty()
        }),
        count_kind_spec(cell_entities(p, t), EntityKind::Floor) == (if lays_floor(t) {
            1nat
        } else {
            0nat
        }),
{
    reveal_with_fuel(kind_positions, 4);
    reveal_with_fuel(count_kind_spec, 4);
    let c = cell_entities(p, t);
    if c.len() == 2 {
        assert(c.drop_last() =~= seq![c[0]]);
        assert(seq![c[0]].drop_last() =~= Seq::<Entity>::empty());
    } else if c.len() == 1 {
        assert(c.drop_last() =~= Seq::<Entity>::empty());
    }
    assert(kind_positions(c, EntityKind::Player) =~= (if t == Tile::Player {
        seq![(p.x, p.y)]
    } else {
        Seq::<(u8, u8)>::empty()
    }));
    assert(kind_positions(c, EntityKind::BoxItem) =~= (if t == Tile::BoxItem {
        seq![(p.x, p.y)]
    } else {
        Seq::<(u8, u8)>::empty()
    }));
    assert(kind_positions(c, EntityKind::BoxSpot) =~= (if t == Tile::BoxSpot {
        seq![(p.x, p.y)]
    } else {
        Seq::<(u8, u8)>::empty()
    }));
    assert(kind_positions(c, EntityKind::Floor) =~= (if lays_floor(t) {
        seq![(p.x, p.y)]
    } else {
        Seq::<(u8, u8)>::empty()
    }));
}

/// Map creation, cell for cell: every `P` cell yields exactly one player
/// entity, every `B` cell one box, every `S` cell one spot — each at its
/// cell — and the floors laid are exactly those of the walkable cells, so
/// each such entity stands on a floor of its own cell.
pub proof fn lemma_map_creation_positions(m: Seq<(Position, Tile)>)
    ensures
        kind_positions(map_entities(m), EntityKind::Player) == tile_positions(m, Tile::Player),
        kind_positions(map_entities(m), EntityKind::BoxItem) == tile_positions(m, Tile::BoxItem),
        kind_positions(map_entities(m), EntityKind::BoxSpot) == tile_positions(m, Tile::BoxSpot),
        kind_positions(map_entities(m), EntityKind::Floor) == floor_positions(m),
    decreases m.len(),
{
    if m.len() == 0 {
    } else {
        let dl = m.drop_last();
        let p = m.last().0;
        let t = m.last().1;
        lemma_map_creation_positions(dl);
        lemma_cell_positions(p, t);
        lemma_kind_positions_concat(map_entities(dl), cell_entities(p, t), EntityKind::Player);
        lemma_kind_positions_concat(map_entities(dl), cell_entities(p, t), EntityKind::BoxItem);
        lemma_kind_positions_concat(map_entities(dl), cell_entities(p, t), EntityKind::BoxSpot);
        lemma_kind_positions_concat(map_entities(dl), cell_entities(p, t), EntityKind::Floor);
        assert(tile_positions(m, Tile::Player) =~= kind_positions(
            map_entities(m),
            EntityKind::Player,
        ));
        assert(tile_positions(m, Tile::BoxItem) =~= kind_positions(
            map_entities(m),
            EntityKind::BoxItem,
        ));
        assert(tile_positions(m, Tile::BoxSpot) =~= kind_positions(
            map_entities(m),
            EntityKind::BoxSpot,
        ));
        assert(floor_positions(m) =~= kind_positions(map_entities(m), EntityKind::Floor));
    }
}

/// On a map without walls, creation lays exactly one floor per non-empty
/// cell: the floor count equals the non-`N` cell count. (A `W` cell
/// yields a wall and no floor, so the equality asks for a wall-free map.)
pub proof fn lemma_floor_count(m: Seq<(Position, Tile)>)
    requires
        forall|i: int| 0 <= i < m.len() ==> (#[trigger] m[i]).1 != Tile::Wall,
    ensures
        count_kind_spec(map_entities(m), EntityKind::Floor) == count_non_empty(m),
    decreases m.len(),
{
    if m.len() > 0 {
        let dl = m.drop_last();
        assert(forall|i: int| 0 <= i < dl.len() ==> dl[i] == m[i]);
        lemma_floor_count(dl);
        lemma_count_kind_concat(map_entities(dl), cell_entities(m.last().0, m.last().1),
            EntityKind::Floor);
        lemma_cell_positions(m.last().0, m.last().1);
        assert(m[m.len() - 1].1 != Tile::Wall);
    }
}

/// The store a map creates is well formed: every entity stands at the
/// depth of its tag.
pub proof fn lemma_map_entities_wf(m: Seq<(Position, Tile)>)
    ensures
        wf_world(map_entities(m)),
    decreases m.len(),
{
    if m.len() > 0 {
        lemma_map_entities_wf(m.drop_last());
    }
}

} // verus!
