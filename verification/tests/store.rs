use sokoban::components::EntityKind;
use sokoban::entities::{create_entities_from_map, World};
use sokoban::map::parse_map;

fn world_of(map: &str) -> World {
    let cells = parse_map(map).unwrap();
    let mut world = World::new();
    create_entities_from_map(&mut world, &cells);
    world
}

#[test]
fn creation_templates_per_symbol() {
    let w = world_of("W W W\nW P .\nW W W");
    // Seven walls, one player over a floor, one bare floor: ten entities.
    assert_eq!(w.len(), 10);
    assert_eq!(w.count_kind(EntityKind::Wall), 7);
    assert_eq!(w.count_kind(EntityKind::Player), 1);
    assert_eq!(w.count_kind(EntityKind::Floor), 2);
    assert_eq!(w.count_kind(EntityKind::BoxItem), 0);
    assert_eq!(w.count_kind(EntityKind::BoxSpot), 0);
    let p = w.get(w.find_player().unwrap());
    assert_eq!((p.pos.x, p.pos.y), (1, 1));
    // The player stands on a floor of its own cell.
    assert!(w.has_kind_at(EntityKind::Floor, 1, 1));
    assert!(w.has_kind_at(EntityKind::Floor, 2, 1));
    assert!(w.has_kind_at(EntityKind::Wall, 0, 0));
    assert!(!w.has_kind_at(EntityKind::Wall, 1, 1));
}

#[test]
fn one_floor_per_non_empty_cell() {
    // Without walls, every non-N cell lays exactly one floor.
    let w = world_of(". P B S N .");
    assert_eq!(w.count_kind(EntityKind::Floor), 5);
    assert_eq!(w.count_kind(EntityKind::Player), 1);
    assert_eq!(w.count_kind(EntityKind::BoxItem), 1);
    assert_eq!(w.count_kind(EntityKind::BoxSpot), 1);
}

#[test]
fn wall_cell_lays_no_floor() {
    let w = world_of("W .");
    assert_eq!(w.count_kind(EntityKind::Floor), 1);
    assert_eq!(w.count_kind(EntityKind::Wall), 1);
}

#[test]
fn depth_assigned_by_tag() {
    // Floors and spots at depth 0; walls, players and boxes at depth 1.
    let w = world_of("S B");
    assert_eq!(w.len(), 4);
    for i in 0..w.len() {
        let e = w.get(i);
        let expect = match e.kind {
            EntityKind::Floor | EntityKind::BoxSpot => 0,
            _ => 1,
        };
        assert_eq!(e.pos.z, expect);
    }
}

#[test]
fn empty_cells_create_nothing() {
    let w = world_of("N N\nN N");
    assert_eq!(w.len(), 0);
}
