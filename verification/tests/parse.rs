use sokoban::components::{Position, Tile};
use sokoban::map::{parse_map, MapError};

fn pos(x: u8, y: u8) -> Position {
    Position { x, y, z: 0 }
}

#[test]
fn parse_single_row_all_symbols() {
    let v = parse_map("P B W S . N").unwrap();
    assert_eq!(v.len(), 6);
    assert_eq!(v[0], (pos(0, 0), Tile::Player));
    assert_eq!(v[1], (pos(1, 0), Tile::BoxItem));
    assert_eq!(v[2], (pos(2, 0), Tile::Wall));
    assert_eq!(v[3], (pos(3, 0), Tile::BoxSpot));
    assert_eq!(v[4], (pos(4, 0), Tile::Floor));
    assert_eq!(v[5], (pos(5, 0), Tile::Empty));
}

#[test]
fn parse_grid_rows_and_columns() {
    // Row index becomes y, cell index becomes x.
    let v = parse_map("W W W\nW P .\nW W W").unwrap();
    assert_eq!(v.len(), 9);
    let walls = [(0, 0), (1, 0), (2, 0), (0, 1), (0, 2), (1, 2), (2, 2)];
    for &(x, y) in walls.iter() {
        assert!(v.contains(&(pos(x, y), Tile::Wall)));
    }
    assert!(v.contains(&(pos(1, 1), Tile::Player)));
    assert!(v.contains(&(pos(2, 1), Tile::Floor)));
}

#[test]
fn parse_trims_row_ends() {
    let v = parse_map("  P B \r\n W .").unwrap();
    assert_eq!(v.len(), 4);
    assert_eq!(v[0], (pos(0, 0), Tile::Player));
    assert_eq!(v[1], (pos(1, 0), Tile::BoxItem));
    assert_eq!(v[2], (pos(0, 1), Tile::Wall));
    assert_eq!(v[3], (pos(1, 1), Tile::Floor));
}

#[test]
fn parse_rejects_unknown_symbol() {
    assert_eq!(parse_map("P X"), Err(MapError::InvalidMap));
}

#[test]
fn parse_rejects_multi_character_cell() {
    assert_eq!(parse_map("PP"), Err(MapError::InvalidMap));
}

#[test]
fn parse_rejects_empty_string() {
    // An empty string has one row with one empty cell, which is no symbol.
    assert_eq!(parse_map(""), Err(MapError::InvalidMap));
}

#[test]
fn parse_rejects_double_space() {
    // Two spaces in a row make an empty cell between them.
    assert_eq!(parse_map("P  B"), Err(MapError::InvalidMap));
}
