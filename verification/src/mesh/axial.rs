//! Axial coordinates, and the conversions between them and offset
//! coordinates.

use crate::cmd::OffsetMode;
use vstd::prelude::*;

verus! {

/// Largest absolute value of a coordinate that the conversions take.
pub const COORD_LIMIT: i32 = 0x1000_0000;

/// A position in axial coordinates.
#[derive(Clone, Copy, Debug, PartialEq, Eq, Structural)]
pub struct Axial {
    pub x: i32,
    pub y: i32,
}

/// Whether both numbers are at most `COORD_LIMIT` in absolute value.
pub open spec fn within_limit(a: int, b: int) -> bool {
    -COORD_LIMIT <= a <= COORD_LIMIT && -COORD_LIMIT <= b <= COORD_LIMIT
}

/// The axial coordinates of the hex at column `col` and row `row`.
pub open spec fn spec_from_offset(col: int, row: int, mode: OffsetMode) -> (int, int) {
    match mode {
        OffsetMode::EvenColumns => (col, row - (col + 1) / 2),
        OffsetMode::OddColumns => (col, row - col / 2),
        OffsetMode::EvenRows => (col - (row + 1) / 2, row),
        OffsetMode::OddRows => (col - row / 2, row),
    }
}

/// The column and row of the hex at axial coordinates `(x, y)`.
pub open spec fn spec_to_offset(x: int, y: int, mode: OffsetMode) -> (int, int) {
    match mode {
        OffsetMode::EvenColumns => (x, y + (x + 1) / 2),
        OffsetMode::OddColumns => (x, y + x / 2),
        OffsetMode::EvenRows => (x + (y + 1) / 2, y),
        OffsetMode::OddRows => (x + y / 2, y),
    }
}

/// The six steps from a hex to its neighbours, in axial coordinates.
pub open spec fn spec_step(i: int) -> (int, int) {
    if i == 0 {
        (1, 0)
    } else if i == 1 {
        (0, 1)
    } else if i == 2 {
        (-1, 1)
    } else if i == 3 {
        (-1, 0)
    } else if i == 4 {
        (0, -1)
    } else {
        (1, -1)
    }
}

/// The `i`-th neighbour of the hex at axial coordinates `(x, y)`.
pub open spec fn spec_neighbor(x: int, y: int, i: int) -> (int, int) {
    (x + spec_step(i).0, y + spec_step(i).1)
}

/// The distance between two hexes, counted in steps from hex to hex.
pub open spec fn spec_distance(ax: int, ay: int, bx: int, by: int) -> int {
    let dx = if ax >= bx { ax - bx } else { bx - ax };
    let dy = if ay >= by { ay - by } else { by - ay };
    let s = (ax - bx) + (ay - by);
    let dz = if s >= 0 { s } else { -s };
    if dx >= dy && dx >= dz {
        dx
    } else if dy >= dz {
        dy
    } else {
        dz
    }
}

/// Calls `hexx::Hex::from_offset_coordinates`. The result is the
/// conversion that the crate documents for each mode: the shoved axis loses
/// half of the other one, rounded up in the even modes and down in the odd
/// ones. The bound on the arguments keeps the crate's arithmetic in `i32`.
#[verifier::external_body]
pub(crate) fn from_offset_coordinates(col: i32, row: i32, mode: OffsetMode) -> (r: Axial)
    requires
        within_limit(col as int, row as int),
    ensures
        (r.x as int, r.y as int) == spec_from_offset(col as int, row as int, mode),
{
    let m = match mode {
        OffsetMode::EvenColumns => hexx::OffsetHexMode::EvenColumns,
        OffsetMode::OddColumns => hexx::OffsetHexMode::OddColumns,
        OffsetMode::EvenRows => hexx::OffsetHexMode::EvenRows,
        OffsetMode::OddRows => hexx::OffsetHexMode::OddRows,
    };
    let h = hexx::Hex::from_offset_coordinates([col, row], m);
    Axial { x: h.x, y: h.y }
}

/// Calls `hexx::Hex::to_offset_coordinates`. The result is column and row
/// as the crate documents them for each mode: the shoved axis gains half of
/// the other one, rounded up in the even modes and down in the odd ones.
#[verifier::external_body]
pub(crate) fn to_offset_coordinates(a: Axial, mode: OffsetMode) -> (r: [i32; 2])
    requires
        within_limit(a.x as int, a.y as int),
    ensures
        (r[0] as int, r[1] as int) == spec_to_offset(a.x as int, a.y as int, mode),
{
    let m = match mode {
        OffsetMode::EvenColumns => hexx::OffsetHexMode::EvenColumns,
        OffsetMode::OddColumns => hexx::OffsetHexMode::OddColumns,
        OffsetMode::EvenRows => hexx::OffsetHexMode::EvenRows,
        OffsetMode::OddRows => hexx::OffsetHexMode::OddRows,
    };
    hexx::Hex::new(a.x, a.y).to_offset_coordinates(m)
}

/// Calls `hexx::Hex::all_neighbors`. The result holds the six hexes one
/// step away, in the crate's order of directions.
#[verifier::external_body]
pub(crate) fn all_neighbors(a: Axial) -> (r: [Axial; 6])
    requires
        within_limit(a.x as int, a.y as int),
    ensures
        forall|i: int|
            0 <= i < 6 ==> (#[trigger] r[i].x as int, r[i].y as int) == spec_neighbor(
                a.x as int,
                a.y as int,
                i,
            ),
{
    hexx::Hex::new(a.x, a.y).all_neighbors().map(|h| Axial { x: h.x, y: h.y })
}

/// Calls `hexx::Hex::distance_to`. The result is the largest of the
/// absolute differences along the three cubic axes.
#[verifier::external_body]
pub(crate) fn distance_to(a: Axial, b: Axial) -> (r: i32)
    requires
        within_limit(a.x as int, a.y as int),
        within_limit(b.x as int, b.y as int),
    ensures
        r as int == spec_distance(a.x as int, a.y as int, b.x as int, b.y as int),
{
    hexx::Hex::new(a.x, a.y).distance_to(hexx::Hex::new(b.x, b.y))
}

} // verus!
