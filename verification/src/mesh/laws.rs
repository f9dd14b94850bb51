//! What holds of every mesh: each coordinate has its hex once, neighbour
//! lists name hexes of the grid only, and the grid closes into a cylinder.

use crate::cmd::OffsetMode;
use crate::cmd::MAX_DIMENSION;
use crate::mesh::spec_entry;
use crate::mesh::spec_kept;
use crate::mesh::spec_neighbors;
use crate::mesh::spec_neighbors_upto;
use crate::mesh::spec_raw_neighbor;
use crate::mesh::table::table_cells;
use crate::mesh::Coord;
use crate::mesh::Mesh;
use vstd::prelude::*;

verus! {

/// Whether `e` is what the grid records for one of the first `k` directions
/// around `offset`.
pub open spec fn spec_from_direction(
    e: (Coord, bool),
    offset: Coord,
    mode: OffsetMode,
    width: int,
    height: int,
    k: nat,
) -> bool {
    exists|i: int|
        0 <= i < k && spec_kept(#[trigger] spec_raw_neighbor(offset, mode, i), height) && e
            == spec_entry(spec_raw_neighbor(offset, mode, i), width)
}

/// Every entry of a neighbour list comes from one of the directions that
/// were looked at, and there are at most as many entries as directions.
pub proof fn lemma_entries_from_raw(
    offset: Coord,
    mode: OffsetMode,
    width: int,
    height: int,
    k: nat,
)
    ensures
        spec_neighbors_upto(offset, mode, width, height, k).len() <= k,
        forall|j: int|
            0 <= j < spec_neighbors_upto(offset, mode, width, height, k).len()
                ==> spec_from_direction(
                #[trigger] spec_neighbors_upto(offset, mode, width, height, k)[j],
                offset,
                mode,
                width,
                height,
                k,
            ),
    decreases k,
{
    if k > 0 {
        lemma_entries_from_raw(offset, mode, width, height, (k - 1) as nat);
        let before = spec_neighbors_upto(offset, mode, width, height, (k - 1) as nat);
        let all = spec_neighbors_upto(offset, mode, width, height, k);
        let n = spec_raw_neighbor(offset, mode, k - 1);
        assert forall|j: int| 0 <= j < all.len() implies spec_from_direction(
            #[trigger] all[j],
            offset,
            mode,
            width,
            height,
            k,
        ) by {
            if j < before.len() {
                assert(all[j] == before[j]);
                assert(spec_from_direction(before[j], offset, mode, width, height, (k - 1) as nat));
                let i = choose|i: int|
                    0 <= i < k - 1 && spec_kept(
                        #[trigger] spec_raw_neighbor(offset, mode, i),
                        height,
                    )
                        && before[j] == spec_entry(spec_raw_neighbor(offset, mode, i), width);
                assert(spec_kept(spec_raw_neighbor(offset, mode, i), height));
            } else {
                assert(all[j] == spec_entry(n, width));
                assert(spec_kept(spec_raw_neighbor(offset, mode, k - 1), height));
            }
        }
    }
}

/// Every direction whose hex the grid keeps has its entry on the neighbour
/// list.
pub proof fn lemma_raw_in_entries(
    offset: Coord,
    mode: OffsetMode,
    width: int,
    height: int,
    k: nat,
    i: int,
)
    requires
        0 <= i < k,
        spec_kept(spec_raw_neighbor(offset, mode, i), height),
    ensures
        exists|j: int|
            0 <= j < spec_neighbors_upto(offset, mode, width, height, k).len() && (
            #[trigger] spec_neighbors_upto(offset, mode, width, height, k)[j]) == spec_entry(
                spec_raw_neighbor(offset, mode, i),
                width,
            ),
    decreases k,
{
    let before = spec_neighbors_upto(offset, mode, width, height, (k - 1) as nat);
    let all = spec_neighbors_upto(offset, mode, width, height, k);
    if i == k - 1 {
        assert(all[before.len() as int] == spec_entry(spec_raw_neighbor(offset, mode, i), width));
    } else {
        lemma_raw_in_entries(offset, mode, width, height, (k - 1) as nat, i);
        let j = choose|j: int|
            0 <= j < before.len() && (#[trigger] before[j]) == spec_entry(
                spec_raw_neighbor(offset, mode, i),
                width,
            );
        assert(all[j] == before[j]);
    }
}

/// Every direction whose hex the grid keeps has its entry on the full
/// neighbour list.
pub proof fn lemma_raw_on_list(offset: Coord, mode: OffsetMode, width: int, height: int, i: int)
    requires
        0 <= i < 6,
        spec_kept(spec_raw_neighbor(offset, mode, i), height),
    ensures
        exists|j: int|
            0 <= j < spec_neighbors(offset, mode, width, height).len() && (
            #[trigger] spec_neighbors(offset, mode, width, height)[j]) == spec_entry(
                spec_raw_neighbor(offset, mode, i),
                width,
            ),
{
    lemma_raw_in_entries(offset, mode, width, height, 6, i);
    let all = spec_neighbors_upto(offset, mode, width, height, 6);
    let j = choose|j: int|
        0 <= j < all.len() && (#[trigger] all[j]) == spec_entry(
            spec_raw_neighbor(offset, mode, i),
            width,
        );
    assert(spec_neighbors(offset, mode, width, height)[j] == spec_entry(
        spec_raw_neighbor(offset, mode, i),
        width,
    ));
}

/// A raw neighbour lies at most one column and one row away.
pub proof fn lemma_raw_neighbor_near(offset: Coord, mode: OffsetMode, i: int)
    requires
        offset.spec_in_reach(),
        0 <= i < 6,
    ensures
        offset.x - 1 <= spec_raw_neighbor(offset, mode, i).x <= offset.x + 1,
        offset.y - 1 <= spec_raw_neighbor(offset, mode, i).y <= offset.y + 1,
{
}

/// No dangling references: in a grid of valid size, every hex on the
/// neighbour list of a hex of the grid is itself a hex of the grid.
pub proof fn lemma_neighbors_in_grid(offset: Coord, mode: OffsetMode, width: int, height: int)
    requires
        1 <= width <= MAX_DIMENSION,
        1 <= height <= MAX_DIMENSION,
        offset.spec_in_grid(width, height),
    ensures
        spec_neighbors(offset, mode, width, height).len() <= 6,
        forall|j: int|
            0 <= j < spec_neighbors(offset, mode, width, height).len() ==> (
            #[trigger] spec_neighbors(offset, mode, width, height)[j]).0.spec_in_grid(
                width,
                height,
            ),
{
    lemma_entries_from_raw(offset, mode, width, height, 6);
    let all = spec_neighbors(offset, mode, width, height);
    assert forall|j: int| 0 <= j < all.len() implies (#[trigger] all[j]).0.spec_in_grid(
        width,
        height,
    ) by {
        assert(all[j] == spec_neighbors_upto(offset, mode, width, height, 6)[j]);
        assert(spec_from_direction(all[j], offset, mode, width, height, 6));
        let i = choose|i: int|
            0 <= i < 6 && spec_kept(#[trigger] spec_raw_neighbor(offset, mode, i), height) && all[j]
                == spec_entry(spec_raw_neighbor(offset, mode, i), width);
        lemma_raw_neighbor_near(offset, mode, i);
        let n = spec_raw_neighbor(offset, mode, i);
        if n.x < 0 {
            assert(n.x == -1);
            assert((-1int) % width == width - 1) by {
                crate::mesh::lemma_wrap_negative(-1, width);
                vstd::arithmetic::div_mod::lemma_small_mod(0, width as nat);
            }
        } else if n.x >= width {
            assert(n.x == width);
            assert(width % width == 0) by {
                vstd::arithmetic::div_mod::lemma_mod_self_0(width);
            }
        }
    }
}

/// The hex one column to the right, or across the right edge, is a
/// neighbour. In the last column the entry is the hex of the first column in
/// the same row, marked as wrapped; elsewhere it is unmarked.
pub proof fn lemma_east_neighbor(offset: Coord, mode: OffsetMode, width: int, height: int)
    requires
        1 <= width <= MAX_DIMENSION,
        1 <= height <= MAX_DIMENSION,
        offset.spec_in_grid(width, height),
    ensures
        exists|j: int|
            0 <= j < spec_neighbors(offset, mode, width, height).len() && (
            #[trigger] spec_neighbors(offset, mode, width, height)[j]) == (if offset.x == width
                - 1 {
                (Coord { x: 0, y: offset.y }, true)
            } else {
                (Coord { x: (offset.x + 1) as i32, y: offset.y }, false)
            }),
{
    let t = Coord { x: (offset.x + 1) as i32, y: offset.y };
    assert(width % width == 0) by {
        vstd::arithmetic::div_mod::lemma_mod_self_0(width);
    }
    if spec_raw_neighbor(offset, mode, 0) == t {
        lemma_raw_on_list(offset, mode, width, height, 0);
    } else {
        assert(spec_raw_neighbor(offset, mode, 5) == t);
        lemma_raw_on_list(offset, mode, width, height, 5);
    }
}

/// The hex one column to the left, or across the left edge, is a neighbour.
/// In the first column the entry is the hex of the last column in the same
/// row, marked as wrapped; elsewhere it is unmarked.
pub proof fn lemma_west_neighbor(offset: Coord, mode: OffsetMode, width: int, height: int)
    requires
        1 <= width <= MAX_DIMENSION,
        1 <= height <= MAX_DIMENSION,
        offset.spec_in_grid(width, height),
    ensures
        exists|j: int|
            0 <= j < spec_neighbors(offset, mode, width, height).len() && (
            #[trigger] spec_neighbors(offset, mode, width, height)[j]) == (if offset.x == 0 {
                (Coord { x: (width - 1) as i32, y: offset.y }, true)
            } else {
                (Coord { x: (offset.x - 1) as i32, y: offset.y }, false)
            }),
{
    let t = Coord { x: (offset.x - 1) as i32, y: offset.y };
    assert((-1int) % width == width - 1) by {
        crate::mesh::lemma_wrap_negative(-1, width);
        vstd::arithmetic::div_mod::lemma_small_mod(0, width as nat);
    }
    if spec_raw_neighbor(offset, mode, 3) == t {
        lemma_raw_on_list(offset, mode, width, height, 3);
    } else {
        assert(spec_raw_neighbor(offset, mode, 2) == t);
        lemma_raw_on_list(offset, mode, width, height, 2);
    }
}

/// The hex one row down is a neighbour, unless the hex is in the last row.
pub proof fn lemma_south_neighbor(offset: Coord, mode: OffsetMode, width: int, height: int)
    requires
        1 <= width <= MAX_DIMENSION,
        1 <= height <= MAX_DIMENSION,
        offset.spec_in_grid(width, height),
        offset.y + 1 < height,
    ensures
        exists|j: int|
            0 <= j < spec_neighbors(offset, mode, width, height).len() && (
            #[trigger] spec_neighbors(offset, mode, width, height)[j]) == (
                Coord { x: offset.x, y: (offset.y + 1) as i32 },
                false,
            ),
{
    let t = Coord { x: offset.x, y: (offset.y + 1) as i32 };
    if spec_raw_neighbor(offset, mode, 1) == t {
        lemma_raw_on_list(offset, mode, width, height, 1);
    } else {
        assert(spec_raw_neighbor(offset, mode, 2) == t);
        lemma_raw_on_list(offset, mode, width, height, 2);
    }
}

/// The hex one row up is a neighbour, unless the hex is in the first row.
pub proof fn lemma_north_neighbor(offset: Coord, mode: OffsetMode, width: int, height: int)
    requires
        1 <= width <= MAX_DIMENSION,
        1 <= height <= MAX_DIMENSION,
        offset.spec_in_grid(width, height),
        offset.y >= 1,
    ensures
        exists|j: int|
            0 <= j < spec_neighbors(offset, mode, width, height).len() && (
            #[trigger] spec_neighbors(offset, mode, width, height)[j]) == (
                Coord { x: offset.x, y: (offset.y - 1) as i32 },
                false,
            ),
{
    let t = Coord { x: offset.x, y: (offset.y - 1) as i32 };
    if spec_raw_neighbor(offset, mode, 4) == t {
        lemma_raw_on_list(offset, mode, width, height, 4);
    } else {
        assert(spec_raw_neighbor(offset, mode, 5) == t);
        lemma_raw_on_list(offset, mode, width, height, 5);
    }
}

/// The grid is a cylinder: in every row the hex of the first column and the
/// hex of the last column are on each other's neighbour lists, marked as
/// wrapped.
pub proof fn lemma_wraps_around(mesh: Mesh, y: int)
    requires
        mesh.wf(),
        0 <= y < mesh.height,
    ensures
        ({
            let first = Coord { x: 0, y: y as i32 };
            let last = Coord { x: (mesh.width - 1) as i32, y: y as i32 };
            &&& exists|j: int|
                0 <= j < mesh.spec_hex(first).neighbors@.len() && (#[trigger] mesh.spec_hex(
                    first,
                ).neighbors@[j]) == (last, true)
            &&& exists|j: int|
                0 <= j < mesh.spec_hex(last).neighbors@.len() && (#[trigger] mesh.spec_hex(
                    last,
                ).neighbors@[j]) == (first, true)
        }),
{
    let first = Coord { x: 0, y: y as i32 };
    let last = Coord { x: (mesh.width - 1) as i32, y: y as i32 };
    assert(mesh.spec_contains(first));
    assert(mesh.spec_contains(last));
    lemma_west_neighbor(first, mesh.offset_mode, mesh.width as int, mesh.height as int);
    lemma_east_neighbor(last, mesh.offset_mode, mesh.width as int, mesh.height as int);
}

/// The grid does not wrap vertically: no hex of the mesh has a neighbour
/// above the first row or below the last, so that the hexes of these two
/// rows have fewer than six neighbours; every other hex has six.
pub proof fn lemma_rows_do_not_wrap(mesh: Mesh, c: Coord)
    requires
        mesh.wf(),
        mesh.spec_contains(c),
    ensures
        forall|j: int|
            0 <= j < mesh.spec_hex(c).neighbors@.len() ==> 0 <= (#[trigger] mesh.spec_hex(
                c,
            ).neighbors@[j]).0.y < mesh.height,
        c.y == 0 || c.y == mesh.height - 1 ==> mesh.spec_hex(c).neighbors@.len() < 6,
        0 < c.y < mesh.height - 1 ==> mesh.spec_hex(c).neighbors@.len() == 6,
{
    let w = mesh.width as int;
    let h = mesh.height as int;
    lemma_neighbors_in_grid(c, mesh.offset_mode, w, h);
    if 0 < c.y < mesh.height - 1 {
        assert forall|i: int| 0 <= i < 6 implies spec_kept(
            #[trigger] spec_raw_neighbor(c, mesh.offset_mode, i),
            h,
        ) by {
            lemma_raw_neighbor_near(c, mesh.offset_mode, i);
        }
        lemma_full_when_kept(c, mesh.offset_mode, w, h, 6);
    }
    if c.y == 0 {
        let up = if spec_raw_neighbor(c, mesh.offset_mode, 4).y < 0 {
            4int
        } else {
            5int
        };
        assert(!spec_kept(spec_raw_neighbor(c, mesh.offset_mode, up), h));
        lemma_fewer_when_dropped(c, mesh.offset_mode, w, h, 6, up);
    } else if c.y == mesh.height - 1 {
        let down = if spec_raw_neighbor(c, mesh.offset_mode, 1).y >= h {
            1int
        } else {
            2int
        };
        assert(!spec_kept(spec_raw_neighbor(c, mesh.offset_mode, down), h));
        lemma_fewer_when_dropped(c, mesh.offset_mode, w, h, 6, down);
    }
}

/// A neighbour list has one entry for each direction that was looked at
/// when the hexes of all of them are kept.
pub proof fn lemma_full_when_kept(offset: Coord, mode: OffsetMode, width: int, height: int, k: nat)
    requires
        forall|i: int| 0 <= i < k ==> spec_kept(#[trigger] spec_raw_neighbor(offset, mode, i), height),
    ensures
        spec_neighbors_upto(offset, mode, width, height, k).len() == k,
    decreases k,
{
    if k > 0 {
        lemma_full_when_kept(offset, mode, width, height, (k - 1) as nat);
        assert(spec_kept(spec_raw_neighbor(offset, mode, k - 1), height));
    }
}

/// A neighbour list is shorter than the number of directions that were
/// looked at when the hex of one of them is not kept.
pub proof fn lemma_fewer_when_dropped(
    offset: Coord,
    mode: OffsetMode,
    width: int,
    height: int,
    k: nat,
    i: int,
)
    requires
        0 <= i < k,
        !spec_kept(spec_raw_neighbor(offset, mode, i), height),
    ensures
        spec_neighbors_upto(offset, mode, width, height, k).len() < k,
    decreases k,
{
    lemma_entries_from_raw(offset, mode, width, height, (k - 1) as nat);
    if i < k - 1 {
        lemma_fewer_when_dropped(offset, mode, width, height, (k - 1) as nat, i);
    }
}

/// The place of a coordinate in the table of a grid with `height` rows.
pub open spec fn spec_place(c: Coord, height: int) -> int {
    c.x * height + c.y
}

/// The coordinate whose hex stands at place `i`.
pub open spec fn spec_coord_at(i: int, height: int) -> Coord {
    Coord { x: (i / height) as i32, y: (i % height) as i32 }
}

/// Every coordinate of the grid has its hex exactly once: the hex at a
/// coordinate's place carries that coordinate, two coordinates of the grid
/// never share a place, every place of the table belongs to a coordinate of
/// the grid, and every neighbour that a hex of the grid names is a
/// coordinate of the grid.
pub proof fn lemma_every_coord_once(mesh: Mesh)
    requires
        mesh.wf(),
    ensures
        forall|c: Coord| #[trigger]
            mesh.spec_contains(c) ==> 0 <= spec_place(c, mesh.height as int) < table_cells(
                mesh.hexes,
            ).len() && mesh.spec_hex(c).offset == c,
        forall|a: Coord, b: Coord|
            mesh.spec_contains(a) && mesh.spec_contains(b) && #[trigger] spec_place(
                a,
                mesh.height as int,
            ) == #[trigger] spec_place(b, mesh.height as int) ==> a == b,
        forall|i: int|
            0 <= i < table_cells(mesh.hexes).len() ==> mesh.spec_contains(
                #[trigger] spec_coord_at(i, mesh.height as int),
            ) && spec_place(spec_coord_at(i, mesh.height as int), mesh.height as int) == i,
        forall|c: Coord, j: int|
            mesh.spec_contains(c) && 0 <= j < mesh.spec_hex(c).neighbors@.len()
                ==> mesh.spec_contains(#[trigger] mesh.spec_hex(c).neighbors@[j].0),
{
    let h = mesh.height as int;
    let w = mesh.width as int;
    assert forall|c: Coord| #[trigger] mesh.spec_contains(c) implies 0 <= spec_place(c, h)
        < table_cells(mesh.hexes).len() && mesh.spec_hex(c).offset == c by {
        crate::mesh::lemma_cell_index(c.x as int, c.y as int, h);
        assert((c.x + 1) * h <= w * h) by (nonlinear_arith)
            requires
                c.x + 1 <= w,
                0 < h,
        ;
    }
    assert forall|a: Coord, b: Coord|
        mesh.spec_contains(a) && mesh.spec_contains(b) && #[trigger] spec_place(a, h)
            == #[trigger] spec_place(b, h) implies a == b by {
        if a.x < b.x {
            crate::mesh::lemma_cell_index_order(a.x as int, a.y as int, b.x as int, b.y as int, h);
        } else if b.x < a.x {
            crate::mesh::lemma_cell_index_order(b.x as int, b.y as int, a.x as int, a.y as int, h);
        }
    }
    assert forall|i: int| 0 <= i < table_cells(mesh.hexes).len() implies mesh.spec_contains(
        #[trigger] spec_coord_at(i, h),
    ) && spec_place(spec_coord_at(i, h), h) == i by {
        let x = i / h;
        let y = i % h;
        vstd::arithmetic::div_mod::lemma_fundamental_div_mod(i, h);
        vstd::arithmetic::div_mod::lemma_mod_bound(i, h);
        assert(0 <= x < w) by (nonlinear_arith)
            requires
                0 <= i < w * h,
                i == h * x + y,
                0 <= y < h,
                0 < h,
        ;
        assert(h * x == x * h) by (nonlinear_arith);
    }
    assert forall|c: Coord, j: int|
        mesh.spec_contains(c) && 0 <= j < mesh.spec_hex(c).neighbors@.len()
            implies mesh.spec_contains(#[trigger] mesh.spec_hex(c).neighbors@[j].0) by {
        lemma_neighbors_in_grid(c, mesh.offset_mode, w, h);
    }
}

/// Whether a set of hex numbers holds, with every hex of the mesh that it
/// holds, all the neighbours of that hex.
pub open spec fn spec_closed(mesh: Mesh, visited: Set<u64>) -> bool {
    forall|c: Coord, j: int|
        mesh.spec_contains(c) && visited.contains(mesh.spec_place(c)) && 0 <= j < mesh.spec_hex(
            c,
        ).neighbors@.len() ==> visited.contains(
            mesh.spec_place((#[trigger] mesh.spec_hex(c).neighbors@[j]).0),
        )
}

/// Along a row, a closed set that holds one hex holds every hex.
pub proof fn lemma_row_connected(mesh: Mesh, visited: Set<u64>, start: Coord, x: int)
    requires
        mesh.wf(),
        mesh.spec_contains(start),
        visited.contains(mesh.spec_place(start)),
        spec_closed(mesh, visited),
        0 <= x < mesh.width,
    ensures
        visited.contains(mesh.spec_place(Coord { x: x as i32, y: start.y })),
    decreases (if x >= start.x {
        x - start.x
    } else {
        start.x - x
    }),
{
    let w = mesh.width as int;
    let h = mesh.height as int;
    if x > start.x {
        lemma_row_connected(mesh, visited, start, x - 1);
        let from = Coord { x: (x - 1) as i32, y: start.y };
        assert(mesh.spec_contains(from));
        lemma_east_neighbor(from, mesh.offset_mode, w, h);
        let j = choose|j: int|
            0 <= j < spec_neighbors(from, mesh.offset_mode, w, h).len() && (
            #[trigger] spec_neighbors(from, mesh.offset_mode, w, h)[j]) == (
                Coord { x: x as i32, y: start.y },
                false,
            );
        assert(mesh.spec_hex(from).neighbors@[j].0 == Coord { x: x as i32, y: start.y });
    } else if x < start.x {
        lemma_row_connected(mesh, visited, start, x + 1);
        let from = Coord { x: (x + 1) as i32, y: start.y };
        assert(mesh.spec_contains(from));
        lemma_west_neighbor(from, mesh.offset_mode, w, h);
        let j = choose|j: int|
            0 <= j < spec_neighbors(from, mesh.offset_mode, w, h).len() && (
            #[trigger] spec_neighbors(from, mesh.offset_mode, w, h)[j]) == (
                Coord { x: x as i32, y: start.y },
                false,
            );
        assert(mesh.spec_hex(from).neighbors@[j].0 == Coord { x: x as i32, y: start.y });
    }
}

/// Along a column, a closed set that holds one hex holds every hex.
pub proof fn lemma_column_connected(mesh: Mesh, visited: Set<u64>, start: Coord, y: int)
    requires
        mesh.wf(),
        mesh.spec_contains(start),
        visited.contains(mesh.spec_place(start)),
        spec_closed(mesh, visited),
        0 <= y < mesh.height,
    ensures
        visited.contains(mesh.spec_place(Coord { x: start.x, y: y as i32 })),
    decreases (if y >= start.y {
        y - start.y
    } else {
        start.y - y
    }),
{
    let w = mesh.width as int;
    let h = mesh.height as int;
    if y > start.y {
        lemma_column_connected(mesh, visited, start, y - 1);
        let from = Coord { x: start.x, y: (y - 1) as i32 };
        assert(mesh.spec_contains(from));
        lemma_south_neighbor(from, mesh.offset_mode, w, h);
        let j = choose|j: int|
            0 <= j < spec_neighbors(from, mesh.offset_mode, w, h).len() && (
            #[trigger] spec_neighbors(from, mesh.offset_mode, w, h)[j]) == (
                Coord { x: start.x, y: y as i32 },
                false,
            );
        assert(mesh.spec_hex(from).neighbors@[j].0 == Coord { x: start.x, y: y as i32 });
    } else if y < start.y {
        lemma_column_connected(mesh, visited, start, y + 1);
        let from = Coord { x: start.x, y: (y + 1) as i32 };
        assert(mesh.spec_contains(from));
        lemma_north_neighbor(from, mesh.offset_mode, w, h);
        let j = choose|j: int|
            0 <= j < spec_neighbors(from, mesh.offset_mode, w, h).len() && (
            #[trigger] spec_neighbors(from, mesh.offset_mode, w, h)[j]) == (
                Coord { x: start.x, y: y as i32 },
                false,
            );
        assert(mesh.spec_hex(from).neighbors@[j].0 == Coord { x: start.x, y: y as i32 });
    }
}

/// The mesh is connected: a set of hex numbers that holds one hex of the
/// mesh, and with every hex all its neighbours, holds every hex of the mesh.
pub proof fn lemma_connected(mesh: Mesh, visited: Set<u64>, start: Coord, goal: Coord)
    requires
        mesh.wf(),
        mesh.spec_contains(start),
        mesh.spec_contains(goal),
        visited.contains(mesh.spec_place(start)),
        spec_closed(mesh, visited),
    ensures
        visited.contains(mesh.spec_place(goal)),
{
    lemma_row_connected(mesh, visited, start, goal.x as int);
    let corner = Coord { x: goal.x, y: start.y };
    assert(mesh.spec_contains(corner));
    lemma_column_connected(mesh, visited, corner, goal.y as int);
}

/// Two hexes of a mesh with the same number are the same hex, and every
/// number is below the size of the mesh.
pub proof fn lemma_place_injective(mesh: Mesh, a: Coord, b: Coord)
    requires
        mesh.wf(),
        mesh.spec_contains(a),
        mesh.spec_contains(b),
    ensures
        mesh.spec_place(a) == spec_place(a, mesh.height as int),
        mesh.spec_place(a) < mesh.spec_size(),
        mesh.spec_size() == mesh.width * mesh.height,
        mesh.spec_place(a) == mesh.spec_place(b) ==> a == b,
{
    lemma_every_coord_once(mesh);
    assert(mesh.width * mesh.height <= MAX_DIMENSION * MAX_DIMENSION) by (nonlinear_arith)
        requires
            0 < mesh.width <= MAX_DIMENSION,
            0 < mesh.height <= MAX_DIMENSION,
    ;
    assert(0 <= spec_place(a, mesh.height as int) < table_cells(mesh.hexes).len());
    assert(0 <= spec_place(b, mesh.height as int) < table_cells(mesh.hexes).len());
}

} // verus!
