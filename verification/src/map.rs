//! The map parser: a textual grid becomes a list of (position, tile) pairs.
//!
//! The format: rows separated by newline, cells by a single space, each cell
//! one symbol of the whitelist `P B W S . N`. Whitespace around a row is
//! ignored. Anything else is a fatal configuration error, found once at
//! startup.

use vstd::prelude::*;
use vstd::string::StrSliceExecFns;
use vstd::string::StringSliceAdditionalSpecFns;
use crate::components::{Position, Tile};

verus! {

/// The byte that separates rows.
pub const NEWLINE: u8 = 10;

/// The byte that separates cells within a row.
pub const SPACE: u8 = 32;

/// A map string that does not follow the format: a symbol outside the
/// whitelist, a cell that is not a single character, or a grid wider or
/// taller than 256 cells (positions are 8-bit).
#[derive(Clone, Copy, PartialEq, Eq, Structural, Debug)]
pub enum MapError {
    InvalidMap,
}

/// ASCII whitespace, as ignored at the ends of a row.
pub open spec fn is_ws(b: u8) -> bool {
    b == 32 || (9 <= b && b <= 13)
}

/// Executable twin of `is_ws`.
pub fn is_ws_byte(b: u8) -> (r: bool)
    ensures
        r == is_ws(b),
{
    b == 32 || (9 <= b && b <= 13)
}

/// `s` split at every occurrence of `sep`. The result holds one more token
/// than `s` holds separators, so it is never empty; consecutive separators
/// yield empty tokens.
pub open spec fn split_bytes_spec(s: Seq<u8>, sep: u8) -> Seq<Seq<u8>>
    decreases s.len(),
{
    if s.len() == 0 {
        seq![Seq::<u8>::empty()]
    } else if s.last() == sep {
        split_bytes_spec(s.drop_last(), sep).push(Seq::<u8>::empty())
    } else {
        let r = split_bytes_spec(s.drop_last(), sep);
        r.update(r.len() - 1, r.last().push(s.last()))
    }
}

/// `s` without its leading whitespace.
pub open spec fn ltrim(s: Seq<u8>) -> Seq<u8>
    decreases s.len(),
{
    if s.len() > 0 && is_ws(s.first()) {
        ltrim(s.drop_first())
    } else {
        s
    }
}

/// `s` without its trailing whitespace.
pub open spec fn rtrim(s: Seq<u8>) -> Seq<u8>
    decreases s.len(),
{
    if s.len() > 0 && is_ws(s.last()) {
        rtrim(s.drop_last())
    } else {
        s
    }
}

/// `s` without whitespace at either end.
pub open spec fn trim_spec(s: Seq<u8>) -> Seq<u8> {
    rtrim(ltrim(s))
}

/// The tile a map symbol denotes, `None` for a symbol outside the whitelist.
pub open spec fn symbol_tile(b: u8) -> Option<Tile> {
    if b == 80 {  // 'P'
        Some(Tile::Player)
    } else if b == 66 {  // 'B'
        Some(Tile::BoxItem)
    } else if b == 87 {  // 'W'
        Some(Tile::Wall)
    } else if b == 83 {  // 'S'
        Some(Tile::BoxSpot)
    } else if b == 46 {  // '.'
        Some(Tile::Floor)
    } else if b == 78 {  // 'N'
        Some(Tile::Empty)
    } else {
        None
    }
}

/// Executable twin of `symbol_tile`.
pub fn parse_symbol(b: u8) -> (r: Option<Tile>)
    ensures
        r == symbol_tile(b),
{
    if b == 80 {
        Some(Tile::Player)
    } else if b == 66 {
        Some(Tile::BoxItem)
    } else if b == 87 {
        Some(Tile::Wall)
    } else if b == 83 {
        Some(Tile::BoxSpot)
    } else if b == 46 {
        Some(Tile::Floor)
    } else if b == 78 {
        Some(Tile::Empty)
    } else {
        None
    }
}

/// The grid of a map string: rows split on newline, each row trimmed and
/// split on space into cells.
pub open spec fn map_rows(s: Seq<u8>) -> Seq<Seq<Seq<u8>>> {
    split_bytes_spec(s, NEWLINE).map_values(|r: Seq<u8>| split_bytes_spec(trim_spec(r), SPACE))
}

/// A cell is valid when it is a single whitelisted symbol.
pub open spec fn valid_cell(c: Seq<u8>) -> bool {
    c.len() == 1 && symbol_tile(c[0]) is Some
}

/// A row is valid when it fits 8-bit coordinates and all its cells are valid.
pub open spec fn valid_row(r: Seq<Seq<u8>>) -> bool {
    r.len() <= 256 && (forall|x: int| 0 <= x < r.len() ==> valid_cell(#[trigger] r[x]))
}

/// A map string is valid when its grid fits 8-bit coordinates and every
/// cell is a whitelisted symbol.
pub open spec fn valid_map(s: Seq<u8>) -> bool {
    map_rows(s).len() <= 256 && (forall|y: int|
        0 <= y < map_rows(s).len() ==> valid_row(#[trigger] map_rows(s)[y]))
}

/// The tile of a valid cell (`Empty` stands in for the unreachable
/// invalid case, so that the function is total).
pub open spec fn cell_tile(c: Seq<u8>) -> Tile {
    match symbol_tile(c[0]) {
        Some(t) => t,
        None => Tile::Empty,
    }
}

/// The (position, tile) pairs of one row: cell index is x, at depth 0.
pub open spec fn row_pairs(r: Seq<Seq<u8>>, y: u8) -> Seq<(Position, Tile)> {
    r.map(|x: int, c: Seq<u8>| (Position { x: x as u8, y: y, z: 0 }, cell_tile(c)))
}

/// The pairs of the first `k` rows, in row order.
pub open spec fn pairs_upto(rows: Seq<Seq<Seq<u8>>>, k: int) -> Seq<(Position, Tile)>
    decreases k,
{
    if k <= 0 {
        Seq::empty()
    } else {
        pairs_upto(rows, k - 1) + row_pairs(rows[k - 1], (k - 1) as u8)
    }
}

/// All (position, tile) pairs of a map string, row by row, cells in order:
/// row index is y, cell index is x.
pub open spec fn map_pairs(s: Seq<u8>) -> Seq<(Position, Tile)> {
    pairs_upto(map_rows(s), map_rows(s).len() as int)
}

/// Splits a byte string at every `sep` byte.
pub fn split_bytes(v: &Vec<u8>, sep: u8) -> (r: Vec<Vec<u8>>)
    ensures
        r@.map_values(|t: Vec<u8>| t@) == split_bytes_spec(v@, sep),
        r@.len() >= 1,
{
    let mut done: Vec<Vec<u8>> = Vec::new();
    let mut cur: Vec<u8> = Vec::new();
    let mut i: usize = 0;
    proof {
        assert(done@.map_values(|t: Vec<u8>| t@).push(cur@) =~= split_bytes_spec(
            v@.take(0),
            sep,
        ));
    }
    while i < v.len()
        invariant
            i <= v.len(),
            done@.map_values(|t: Vec<u8>| t@).push(cur@) == split_bytes_spec(
                v@.take(i as int),
                sep,
            ),
        decreases v.len() - i,
    {
        let ghost prev = v@.take(i as int);
        let ghost prev_done = done@;
        let ghost prev_cur = cur@;
        let b = v[i];
        if b == sep {
            done.push(cur);
            cur = Vec::new();
        } else {
            cur.push(b);
        }
        i += 1;
        proof {
            let now = v@.take(i as int);
            assert(now.drop_last() =~= prev);
            assert(now.last() == v@[i - 1]);
            let r = split_bytes_spec(prev, sep);
            if b == sep {
                assert(done@.map_values(|t: Vec<u8>| t@) =~= prev_done.map_values(
                    |t: Vec<u8>| t@,
                ).push(prev_cur));
                assert(done@.map_values(|t: Vec<u8>| t@).push(cur@) =~= r.push(
                    Seq::<u8>::empty(),
                ));
            } else {
                assert(r.len() >= 1);
                assert(r.last() == prev_cur);
                assert(done@.map_values(|t: Vec<u8>| t@).push(cur@) =~= r.update(
                    r.len() - 1,
                    prev_cur.push(b),
                ));
            }
        }
    }
    proof {
        assert(v@.take(v@.len() as int) =~= v@);
    }
    done.push(cur);
    proof {
        assert(done@.map_values(|t: Vec<u8>| t@) =~= split_bytes_spec(v@, sep));
    }
    done
}

/// Removes ASCII whitespace from both ends of a byte string.
pub fn trim(v: &Vec<u8>) -> (r: Vec<u8>)
    ensures
        r@ == trim_spec(v@),
{
    let mut start: usize = 0;
    proof {
        assert(v@.skip(0) =~= v@);
    }
    while start < v.len() && is_ws_byte(v[start])
        invariant
            start <= v.len(),
            ltrim(v@) == ltrim(v@.skip(start as int)),
        decreases v.len() - start,
    {
        proof {
            let s = v@.skip(start as int);
            assert(s.first() == v@[start as int]);
            assert(s.drop_first() =~= v@.skip(start as int + 1));
        }
        start += 1;
    }
    proof {
        let s = v@.skip(start as int);
        if start < v.len() {
            assert(s.first() == v@[start as int]);
        }
        assert(ltrim(v@) =~= s);
    }
    let mut end: usize = v.len();
    proof {
        assert(v@.subrange(start as int, end as int) =~= v@.skip(start as int));
    }
    while end > start && is_ws_byte(v[end - 1])
        invariant
            start <= end <= v.len(),
            ltrim(v@) == v@.skip(start as int),
            rtrim(v@.skip(start as int)) == rtrim(v@.subrange(start as int, end as int)),
        decreases end,
    {
        proof {
            let s = v@.subrange(start as int, end as int);
            assert(s.last() == v@[end - 1]);
            assert(s.drop_last() =~= v@.subrange(start as int, end as int - 1));
        }
        end -= 1;
    }
    proof {
        let s = v@.subrange(start as int, end as int);
        if end > start {
            assert(s.last() == v@[end - 1]);
        }
        assert(trim_spec(v@) =~= s);
    }
    let mut out: Vec<u8> = Vec::new();
    let mut k: usize = start;
    while k < end
        invariant
            start <= k <= end <= v.len(),
            out@ == v@.subrange(start as int, k as int),
        decreases end - k,
    {
        out.push(v[k]);
        proof {
            assert(v@.subrange(start as int, k as int + 1) =~= v@.subrange(
                start as int,
                k as int,
            ).push(v@[k as int]));
        }
        k += 1;
    }
    proof {
        assert(out@ == trim_spec(v@));
    }
    out
}

/// Parses a map string into (position, tile) pairs, row index as y, cell
/// index as x. Returns an error, and no pairs, exactly when the string is
/// not a valid map.
pub fn parse_map(map_str: &str) -> (r: Result<Vec<(Position, Tile)>, MapError>)
    ensures
        r is Ok <==> valid_map(map_str.spec_bytes()),
        r matches Ok(v) ==> v@ == map_pairs(map_str.spec_bytes()),
        r matches Err(e) ==> e == MapError::InvalidMap,
{
    let bytes = map_str.as_bytes_vec();
    let rows_raw = split_bytes(&bytes, NEWLINE);
    let ghost grid = map_rows(bytes@);
    proof {
        assert(grid.len() == rows_raw@.len());
    }
    if rows_raw.len() > 256 {
        return Err(MapError::InvalidMap);
    }
    let mut out: Vec<(Position, Tile)> = Vec::new();
    let mut y: usize = 0;
    while y < rows_raw.len()
        invariant
            y <= rows_raw@.len() <= 256,
            bytes@ == map_str.spec_bytes(),
            rows_raw@.map_values(|t: Vec<u8>| t@) == split_bytes_spec(bytes@, NEWLINE),
            grid == map_rows(bytes@),
            grid.len() == rows_raw@.len(),
            out@ == pairs_upto(grid, y as int),
            forall|yy: int| 0 <= yy < y ==> valid_row(#[trigger] grid[yy]),
        decreases rows_raw@.len() - y,
    {
        let row = trim(&rows_raw[y]);
        let cells = split_bytes(&row, SPACE);
        let ghost rowspec = grid[y as int];
        proof {
            assert(rows_raw@.map_values(|t: Vec<u8>| t@)[y as int] == rows_raw@[y as int]@);
            assert(rowspec == split_bytes_spec(trim_spec(rows_raw@[y as int]@), SPACE));
            assert(cells@.map_values(|t: Vec<u8>| t@) == rowspec);
            assert(rowspec.len() == cells@.len());
        }
        if cells.len() > 256 {
            proof {
                assert(!valid_row(grid[y as int]));
            }
            return Err(MapError::InvalidMap);
        }
        let mut x: usize = 0;
        while x < cells.len()
            invariant
                x <= cells@.len() <= 256,
                y < rows_raw@.len() <= 256,
                bytes@ == map_str.spec_bytes(),
                grid == map_rows(bytes@),
                grid.len() == rows_raw@.len(),
                rowspec == grid[y as int],
                cells@.map_values(|t: Vec<u8>| t@) == rowspec,
                rowspec.len() == cells@.len(),
                out@ == pairs_upto(grid, y as int) + row_pairs(rowspec, y as u8).take(x as int),
                forall|yy: int| 0 <= yy < y ==> valid_row(#[trigger] grid[yy]),
                forall|xx: int| 0 <= xx < x ==> valid_cell(#[trigger] rowspec[xx]),
            decreases cells@.len() - x,
        {
            proof {
                assert(cells@.map_values(|t: Vec<u8>| t@)[x as int] == cells@[x as int]@);
            }
            if cells[x].len() != 1 {
                proof {
                    assert(!valid_cell(rowspec[x as int]));
                    assert(!valid_row(grid[y as int]));
                }
                return Err(MapError::InvalidMap);
            }
            let sym = cells[x][0];
            proof {
                assert(rowspec[x as int][0] == sym);
            }
            let t = match parse_symbol(sym) {
                Some(t) => t,
                None => {
                    proof {
                        assert(!valid_cell(rowspec[x as int]));
                        assert(!valid_row(grid[y as int]));
                    }
                    return Err(MapError::InvalidMap);
                },
            };
            out.push((Position { x: x as u8, y: y as u8, z: 0 }, t));
            proof {
                assert(valid_cell(rowspec[x as int]));
                assert(row_pairs(rowspec, y as u8)[x as int] == (
                    Position { x: x as u8, y: y as u8, z: 0 },
                    cell_tile(rowspec[x as int]),
                ));
                assert(cell_tile(rowspec[x as int]) == t);
                assert(row_pairs(rowspec, y as u8).take(x as int + 1) =~= row_pairs(
                    rowspec,
                    y as u8,
                ).take(x as int).push((Position { x: x as u8, y: y as u8, z: 0 }, t)));
            }
            x += 1;
        }
        proof {
            assert(valid_row(grid[y as int]));
            assert(row_pairs(rowspec, y as u8).take(rowspec.len() as int) =~= row_pairs(
                rowspec,
                y as u8,
            ));
            assert(pairs_upto(grid, y as int + 1) == pairs_upto(grid, y as int) + row_pairs(
                grid[y as int],
                y as u8,
            ));
        }
        y += 1;
    }
    proof {
        assert(valid_map(bytes@));
        assert(out@ == map_pairs(map_str.spec_bytes()));
    }
    Ok(out)
}

} // verus!
