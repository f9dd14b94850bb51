//! The hexagonal grid: offset coordinates, hexes with their neighbours, and
//! the mesh that owns them.

pub mod axial;
pub mod laws;
pub mod table;

use crate::cmd::GenerateOptions;
use crate::cmd::OffsetMode;
use crate::cmd::MAX_DIMENSION;
use crate::mesh::axial::all_neighbors;
use crate::mesh::axial::from_offset_coordinates;
use crate::mesh::axial::spec_from_offset;
use crate::mesh::axial::spec_neighbor;
use crate::mesh::axial::spec_to_offset;
use crate::mesh::axial::to_offset_coordinates;
use crate::mesh::axial::Axial;
use crate::mesh::table::table_cells;
use crate::mesh::table::table_from_vec;
use crate::mesh::table::table_get;
use crate::mesh::table::table_shape;
use crate::mesh::table::HexTable;
use vstd::prelude::*;

verus! {

/// Largest absolute value of a column or row that a hex can be built at.
pub const REACH: i32 = 0x0400_0000;

/// A position in the grid, in offset coordinates: column `x` and row `y`.
#[derive(Clone, Copy, Debug, PartialEq, Eq, Structural, Hash)]
pub struct Coord {
    pub x: i32,
    pub y: i32,
}

impl Coord {
    /// A coordinate from its column and row.
    pub fn new(x: i32, y: i32) -> (r: Coord)
        ensures
            r.x == x,
            r.y == y,
    {
        Coord { x, y }
    }

    /// A coordinate from an array of column and row.
    pub fn from_array(arr: [i32; 2]) -> (r: Coord)
        ensures
            r.x == arr[0],
            r.y == arr[1],
    {
        Coord { x: arr[0], y: arr[1] }
    }

    /// The coordinate as an array of column and row.
    pub fn to_array(&self) -> (r: [i32; 2])
        ensures
            r[0] == self.x,
            r[1] == self.y,
    {
        [self.x, self.y]
    }

    /// Whether the coordinate lies in a grid of the given width and height.
    pub open spec fn spec_in_grid(self, width: int, height: int) -> bool {
        0 <= self.x < width && 0 <= self.y < height
    }

    /// Whether both numbers are small enough for the conversions to and from
    /// axial coordinates.
    pub open spec fn spec_in_reach(self) -> bool {
        -REACH <= self.x <= REACH && -REACH <= self.y <= REACH
    }

    /// The coordinate with its column taken modulo `width`.
    pub open spec fn spec_wrap_x(self, width: int) -> Coord {
        Coord { x: (self.x as int % width) as i32, y: self.y }
    }

    /// Wraps the column around a grid of the given width: the column of the
    /// result is the one in `0..width` that differs from `self.x` by a
    /// multiple of `width`. The row is kept.
    pub fn wrap_x(&self, width: i32) -> (r: Coord)
        requires
            width > 0,
        ensures
            r == self.spec_wrap_x(width as int),
            0 <= r.x < width,
            r.y == self.y,
    {
        let x: i32 = if self.x >= 0 {
            self.x % width
        } else {
            let below: i32 = -(self.x + 1);
            assert(self.x as int % width as int == width - 1 - (below as int % width as int)) by {
                lemma_wrap_negative(self.x as int, width as int);
            }
            width - 1 - below % width
        };
        Coord { x, y: self.y }
    }

    /// The coordinate moved by `dx` columns and `dy` rows.
    pub fn displace(&self, dx: i32, dy: i32) -> (r: Coord)
        requires
            i32::MIN <= self.x + dx <= i32::MAX,
            i32::MIN <= self.y + dy <= i32::MAX,
        ensures
            r.x == self.x + dx,
            r.y == self.y + dy,
    {
        Coord { x: self.x + dx, y: self.y + dy }
    }
}

/// For a negative `x`, `x mod w` is `w - 1 - ((-x - 1) mod w)`.
pub proof fn lemma_wrap_negative(x: int, w: int)
    requires
        x < 0,
        w > 0,
    ensures
        x % w == w - 1 - ((-(x + 1)) % w),
{
    let k = -(x + 1);
    let q = k / w;
    let m = k % w;
    assert(k == w * q + m) by {
        vstd::arithmetic::div_mod::lemma_fundamental_div_mod(k, w);
    }
    assert(0 <= m < w) by {
        vstd::arithmetic::div_mod::lemma_mod_bound(k, w);
    }
    // x = -(k + 1) = w * (-q - 1) + (w - 1 - m)
    assert(x == w * (-q - 1) + (w - 1 - m)) by (nonlinear_arith)
        requires
            k == w * q + m,
            x == -(k + 1),
    ;
    vstd::arithmetic::div_mod::lemma_fundamental_div_mod_converse(x, w, -q - 1, w - 1 - m);
}

/// The axial coordinates of the hex at `offset`.
pub open spec fn spec_axial(offset: Coord, mode: OffsetMode) -> Axial {
    let a = spec_from_offset(offset.x as int, offset.y as int, mode);
    Axial { x: a.0 as i32, y: a.1 as i32 }
}

/// The offset coordinates of the `i`-th hex around `offset`, before the grid
/// cuts it off or wraps it around.
pub open spec fn spec_raw_neighbor(offset: Coord, mode: OffsetMode, i: int) -> Coord {
    let a = spec_from_offset(offset.x as int, offset.y as int, mode);
    let n = spec_neighbor(a.0, a.1, i);
    let o = spec_to_offset(n.0, n.1, mode);
    Coord { x: o.0 as i32, y: o.1 as i32 }
}

/// Whether the grid keeps a raw neighbour: its row is one of the grid's.
pub open spec fn spec_kept(n: Coord, height: int) -> bool {
    0 <= n.y < height
}

/// What the grid records for a raw neighbour that it keeps: one whose column
/// is off the grid is wrapped around and marked, any other stands unmarked.
pub open spec fn spec_entry(n: Coord, width: int) -> (Coord, bool) {
    if n.x < 0 || n.x >= width {
        (n.spec_wrap_x(width), true)
    } else {
        (n, false)
    }
}

/// The neighbour list that the first `k` directions give.
pub open spec fn spec_neighbors_upto(
    offset: Coord,
    mode: OffsetMode,
    width: int,
    height: int,
    k: nat,
) -> Seq<(Coord, bool)>
    decreases k,
{
    if k == 0 {
        Seq::empty()
    } else {
        let before = spec_neighbors_upto(offset, mode, width, height, (k - 1) as nat);
        let n = spec_raw_neighbor(offset, mode, k - 1);
        if spec_kept(n, height) {
            before.push(spec_entry(n, width))
        } else {
            before
        }
    }
}

/// The neighbour list of the hex at `offset` in a grid of the given size: the
/// six hexes around it in the order of directions, without those above the
/// first or below the last row, and with those beyond the first or last
/// column wrapped around and marked.
pub open spec fn spec_neighbors(offset: Coord, mode: OffsetMode, width: int, height: int) -> Seq<
    (Coord, bool),
> {
    spec_neighbors_upto(offset, mode, width, height, 6)
}

/// Whether `b` is on the neighbour list of `a`.
pub open spec fn spec_adjacent(
    a: Coord,
    b: Coord,
    mode: OffsetMode,
    width: int,
    height: int,
) -> bool {
    exists|j: int|
        0 <= j < spec_neighbors(a, mode, width, height).len() && (#[trigger] spec_neighbors(
            a,
            mode,
            width,
            height,
        )[j]).0 == b
}

/// The shape of a mesh: the offset mode, the width and the height, from
/// which all its hexes follow.
pub struct Shape {
    pub offset_mode: OffsetMode,
    pub width: i32,
    pub height: i32,
}

impl Shape {
    /// Whether `c` is a coordinate of a mesh of this shape.
    pub open spec fn spec_contains(self, c: Coord) -> bool {
        c.spec_in_grid(self.width as int, self.height as int)
    }

    /// The number of the hex at `c` in a mesh of this shape.
    pub open spec fn spec_place(self, c: Coord) -> u64 {
        (c.x * self.height + c.y) as u64
    }

    /// The number of hexes in a mesh of this shape.
    pub open spec fn spec_size(self) -> u64 {
        (self.width * self.height) as u64
    }

    /// The neighbour list of the hex at `c` in a mesh of this shape.
    pub open spec fn spec_neighbors(self, c: Coord) -> Seq<(Coord, bool)> {
        spec_neighbors(c, self.offset_mode, self.width as int, self.height as int)
    }
}

/// One hex of the grid.
pub struct Hex {
    /// Position in axial coordinates.
    pub axial: Axial,
    /// Position in offset coordinates.
    pub offset: Coord,
    /// The hexes next to this one, each with a mark that says whether it is
    /// reached across the left or right edge of the grid.
    pub neighbors: Vec<(Coord, bool)>,
}

impl Hex {
    /// Whether this is the hex that a grid of the given size has at `offset`.
    pub open spec fn spec_is_at(
        self,
        offset: Coord,
        mode: OffsetMode,
        width: int,
        height: int,
    ) -> bool {
        &&& self.offset == offset
        &&& self.axial == spec_axial(offset, mode)
        &&& self.neighbors@ == spec_neighbors(offset, mode, width, height)
    }

    /// Builds the hex at `offset` for a grid of `map_width` columns and
    /// `map_height` rows.
    pub fn new(offset: Coord, offset_mode: OffsetMode, map_width: i32, map_height: i32) -> (r: Hex)
        requires
            offset.spec_in_reach(),
            map_width > 0,
        ensures
            r.spec_is_at(offset, offset_mode, map_width as int, map_height as int),
    {
        let axial = from_offset_coordinates(offset.x, offset.y, offset_mode);
        let around = all_neighbors(axial);
        let mut neighbors: Vec<(Coord, bool)> = Vec::new();
        let mut i: usize = 0;
        while i < 6
            invariant
                i <= 6,
                offset.spec_in_reach(),
                map_width > 0,
                axial == spec_axial(offset, offset_mode),
                -REACH * 2 <= axial.x <= REACH * 2,
                -REACH * 2 <= axial.y <= REACH * 2,
                forall|k: int|
                    0 <= k < 6 ==> (#[trigger] around[k].x as int, around[k].y as int)
                        == spec_neighbor(axial.x as int, axial.y as int, k),
                neighbors@ == spec_neighbors_upto(
                    offset,
                    offset_mode,
                    map_width as int,
                    map_height as int,
                    i as nat,
                ),
            decreases 6 - i,
        {
            let n_axial = around[i];
            assert((around[i as int].x as int, around[i as int].y as int) == spec_neighbor(
                axial.x as int,
                axial.y as int,
                i as int,
            ));
            let n_offset = to_offset_coordinates(n_axial, offset_mode);
            let n_coord = Coord::from_array(n_offset);
            assert(n_coord == spec_raw_neighbor(offset, offset_mode, i as int));
            if n_coord.y >= 0 && n_coord.y < map_height {
                if n_coord.x < 0 || n_coord.x >= map_width {
                    neighbors.push((n_coord.wrap_x(map_width), true));
                } else {
                    neighbors.push((n_coord, false));
                }
            }
            i += 1;
        }
        Hex { axial, offset, neighbors }
    }
}

/// Of the first `upto` entries of a neighbour list, the hexes that are not
/// reached across the edge of the grid.
pub open spec fn spec_unwrapped(neighbors: Seq<(Coord, bool)>, upto: nat) -> Seq<Coord>
    decreases upto,
{
    if upto == 0 || upto > neighbors.len() {
        Seq::empty()
    } else {
        let before = spec_unwrapped(neighbors, (upto - 1) as nat);
        if neighbors[upto - 1].1 {
            before
        } else {
            before.push(neighbors[upto - 1].0)
        }
    }
}

/// Why a mesh could not be built.
#[derive(Clone, Copy, Debug, PartialEq, Eq, Structural)]
pub enum MeshError {
    /// A dimension is zero or larger than `MAX_DIMENSION`.
    InvalidDimensions,
    /// The table did not take as many hexes as the dimensions ask for.
    CountMismatch,
}

/// The whole grid of hexes.
pub struct Mesh {
    pub hexes: HexTable,
    pub width: i32,
    pub height: i32,
    pub offset_mode: OffsetMode,
}

impl Mesh {
    /// The hex that the mesh holds at `c`.
    pub open spec fn spec_hex(self, c: Coord) -> Hex {
        table_cells(self.hexes)[c.x * self.height + c.y]
    }

    /// The shape of the mesh.
    pub open spec fn spec_shape(self) -> Shape {
        Shape { offset_mode: self.offset_mode, width: self.width, height: self.height }
    }

    /// The number of the hex at `c`: its place in the table.
    pub open spec fn spec_place(self, c: Coord) -> u64 {
        (c.x * self.height + c.y) as u64
    }

    /// The number of hexes in the mesh.
    pub open spec fn spec_size(self) -> u64 {
        (self.width * self.height) as u64
    }

    /// Whether `c` is a coordinate of the mesh.
    pub open spec fn spec_contains(self, c: Coord) -> bool {
        c.spec_in_grid(self.width as int, self.height as int)
    }

    /// The invariant of a mesh: its dimensions are valid, and for every
    /// coordinate of the grid the table holds, at that coordinate's place,
    /// the hex of that coordinate with its neighbour list.
    pub open spec fn wf(self) -> bool {
        &&& 1 <= self.width <= MAX_DIMENSION
        &&& 1 <= self.height <= MAX_DIMENSION
        &&& table_shape(self.hexes) == (self.width as nat, self.height as nat)
        &&& table_cells(self.hexes).len() == self.width * self.height
        &&& forall|c: Coord| #[trigger]
            self.spec_contains(c) ==> self.spec_hex(c).spec_is_at(
                c,
                self.offset_mode,
                self.width as int,
                self.height as int,
            )
    }

    /// Builds the mesh that the options describe: one hex for every column
    /// and row, in the offset mode that goes with the orientation. Fails
    /// exactly when a dimension is zero or larger than `MAX_DIMENSION`.
    pub fn new(options: &GenerateOptions) -> (r: Result<Mesh, MeshError>)
        ensures
            r is Ok <==> options.spec_valid(),
            r is Err ==> r->Err_0 == MeshError::InvalidDimensions,
            r is Ok ==> {
                &&& r->Ok_0.wf()
                &&& r->Ok_0.width == options.width
                &&& r->Ok_0.height == options.height
                &&& r->Ok_0.offset_mode == options.spec_offset_mode()
            },
    {
        if !options.valid() {
            return Err(MeshError::InvalidDimensions);
        }
        let width: i32 = options.width as i32;
        let height: i32 = options.height as i32;
        let offset_mode = options.offset_mode();
        let mut cells: Vec<Hex> = Vec::new();
        let mut x: i32 = 0;
        while x < width
            invariant
                0 <= x <= width,
                1 <= width <= MAX_DIMENSION,
                1 <= height <= MAX_DIMENSION,
                cells@.len() == x * height,
                forall|c: Coord|
                    0 <= c.x < x && 0 <= c.y < height ==> (#[trigger] cells@[c.x * height
                        + c.y]).spec_is_at(c, offset_mode, width as int, height as int),
            decreases width - x,
        {
            let mut y: i32 = 0;
            while y < height
                invariant
                    0 <= x < width,
                    0 <= y <= height,
                    1 <= width <= MAX_DIMENSION,
                    1 <= height <= MAX_DIMENSION,
                    cells@.len() == x * height + y,
                    forall|c: Coord|
                        (0 <= c.x < x && 0 <= c.y < height) || (c.x == x && 0 <= c.y < y) ==> (
                        #[trigger] cells@[c.x * height + c.y]).spec_is_at(
                            c,
                            offset_mode,
                            width as int,
                            height as int,
                        ),
                decreases height - y,
            {
                let offset = Coord::new(x, y);
                let hex = Hex::new(offset, offset_mode, width, height);
                proof {
                    lemma_cell_index(x as int, y as int, height as int);
                    assert forall|c: Coord|
                        (0 <= c.x < x && 0 <= c.y < height) || (
                            c.x == x && 0 <= c.y < y
                        ) implies c.x
                        * height + c.y < x * height + y by {
                        lemma_cell_index_order(
                            c.x as int,
                            c.y as int,
                            x as int,
                            y as int,
                            height as int,
                        );
                    }
                }
                cells.push(hex);
                y += 1;
            }
            proof {
                assert(x * height + height == (x + 1) * height) by (nonlinear_arith);
            }
            x += 1;
        }
        proof {
            assert(x == width);
        }
        match table_from_vec(width as usize, height as usize, cells) {
            Ok(hexes) => {
                let mesh = Mesh { hexes, width, height, offset_mode };
                proof {
                    assert forall|c: Coord| #[trigger] mesh.spec_contains(c) implies mesh.spec_hex(
                        c,
                    ).spec_is_at(c, offset_mode, width as int, height as int) by {
                        assert(cells@[c.x * height + c.y].spec_is_at(
                            c,
                            offset_mode,
                            width as int,
                            height as int,
                        ));
                    }
                }
                Ok(mesh)
            },
            Err(_) => {
                proof {
                    assert(false);
                }
                Err(MeshError::CountMismatch)
            },
        }
    }

    /// The number of the hex at `c`, which no other hex of the mesh has.
    pub fn place(&self, c: Coord) -> (k: u64)
        requires
            self.wf(),
            self.spec_contains(c),
        ensures
            k == self.spec_place(c),
            k == c.x * self.height + c.y,
            k < self.spec_size(),
            self.spec_size() == self.width * self.height,
    {
        proof {
            lemma_cell_index(c.x as int, c.y as int, self.height as int);
            assert((c.x + 1) * self.height <= self.width * self.height) by (nonlinear_arith)
                requires
                    c.x + 1 <= self.width,
                    0 < self.height,
            ;
            assert(self.width * self.height <= MAX_DIMENSION * MAX_DIMENSION) by (nonlinear_arith)
                requires
                    0 < self.width <= MAX_DIMENSION,
                    0 < self.height <= MAX_DIMENSION,
            ;
        }
        (c.x as u64) * (self.height as u64) + (c.y as u64)
    }

    /// The number of hexes in the mesh.
    pub fn size(&self) -> (n: u64)
        requires
            self.wf(),
        ensures
            n == self.spec_size(),
            n == self.width * self.height,
            1 <= n <= MAX_DIMENSION * MAX_DIMENSION,
    {
        proof {
            assert(1 <= self.width * self.height <= MAX_DIMENSION * MAX_DIMENSION)
                by (nonlinear_arith)
                requires
                    0 < self.width <= MAX_DIMENSION,
                    0 < self.height <= MAX_DIMENSION,
            ;
        }
        (self.width as u64) * (self.height as u64)
    }

    /// The hexes from which the bounds of the mesh on the plane are taken.
    pub open spec fn spec_bounding(self) -> Seq<Coord> {
        let first = Coord { x: 0, y: 0 };
        let last = Coord { x: (self.width - 1) as i32, y: (self.height - 1) as i32 };
        let around_first = self.spec_hex(first).neighbors@;
        let around_last = self.spec_hex(last).neighbors@;
        seq![first] + spec_unwrapped(around_first, around_first.len()) + seq![last]
            + spec_unwrapped(around_last, around_last.len())
    }

    /// The hexes from which the bounds of the mesh on the plane are taken:
    /// the first hex with its neighbours that are not reached across the
    /// edge, then the last hex with those of its neighbours.
    pub fn bounding(&self) -> (r: Vec<Coord>)
        requires
            self.wf(),
        ensures
            r@ == self.spec_bounding(),
            forall|k: int| 0 <= k < r@.len() ==> self.spec_contains(#[trigger] r@[k]),
    {
        let first = Coord::new(0, 0);
        let last = Coord::new(self.width - 1, self.height - 1);
        let mut hexes: Vec<Coord> = Vec::new();
        hexes.push(first);
        self.push_unwrapped(&mut hexes, first);
        hexes.push(last);
        self.push_unwrapped(&mut hexes, last);
        hexes
    }

    /// Appends the neighbours of the hex at `c` that are not reached across
    /// the edge.
    pub fn push_unwrapped(&self, hexes: &mut Vec<Coord>, c: Coord)
        requires
            self.wf(),
            self.spec_contains(c),
            forall|k: int| 0 <= k < old(hexes)@.len() ==> self.spec_contains(#[trigger] old(hexes)@[k]),
        ensures
            final(hexes)@ == old(hexes)@ + spec_unwrapped(
                self.spec_hex(c).neighbors@,
                self.spec_hex(c).neighbors@.len(),
            ),
            forall|k: int|
                0 <= k < final(hexes)@.len() ==> self.spec_contains(#[trigger] final(hexes)@[k]),
    {
        proof {
            crate::mesh::laws::lemma_neighbors_in_grid(
                c,
                self.offset_mode,
                self.width as int,
                self.height as int,
            );
        }
        let hex = self.get_hex(c.x, c.y);
        let mut j: usize = 0;
        while j < hex.neighbors.len()
            invariant
                self.wf(),
                *hex == self.spec_hex(c),
                j <= hex.neighbors@.len(),
                forall|k: int|
                    0 <= k < hex.neighbors@.len() ==> self.spec_contains(
                        (#[trigger] hex.neighbors@[k]).0,
                    ),
                hexes@ == old(hexes)@ + spec_unwrapped(hex.neighbors@, j as nat),
                forall|k: int| 0 <= k < hexes@.len() ==> self.spec_contains(#[trigger] hexes@[k]),
            decreases hex.neighbors@.len() - j,
        {
            let ghost before = hexes@;
            let (neighbor, wrapped) = hex.neighbors[j];
            if !wrapped {
                hexes.push(neighbor);
                proof {
                    assert(hexes@ =~= old(hexes)@ + spec_unwrapped(hex.neighbors@, (j + 1) as nat));
                    assert forall|k: int| 0 <= k < hexes@.len() implies self.spec_contains(
                        #[trigger] hexes@[k],
                    ) by {
                        if k < before.len() {
                            assert(hexes@[k] == before[k]);
                        } else {
                            assert(hexes@[k] == hex.neighbors@[j as int].0);
                        }
                    }
                }
            }
            j += 1;
        }
    }

    /// The hex at column `x` and row `y`.
    pub fn get_hex(&self, x: i32, y: i32) -> (r: &Hex)
        requires
            self.wf(),
            0 <= x < self.width,
            0 <= y < self.height,
        ensures
            *r == self.spec_hex(Coord { x, y }),
            r.spec_is_at(
                Coord { x, y },
                self.offset_mode,
                self.width as int,
                self.height as int,
            ),
    {
        proof {
            assert(self.spec_contains(Coord { x, y }));
        }
        table_get(&self.hexes, x as usize, y as usize)
    }
}

/// The place of the hex at column `x` and row `y` among the hexes of a grid
/// with `height` rows lies inside the grid's columns up to `x`.
pub proof fn lemma_cell_index(x: int, y: int, height: int)
    requires
        0 <= x,
        0 <= y < height,
    ensures
        0 <= x * height,
        x * height + y < (x + 1) * height,
{
    assert(0 <= x * height) by (nonlinear_arith)
        requires
            0 <= x,
            0 < height,
    ;
    assert((x + 1) * height == x * height + height) by (nonlinear_arith);
}

/// A hex that comes earlier in column order has a smaller place.
pub proof fn lemma_cell_index_order(cx: int, cy: int, x: int, y: int, height: int)
    requires
        0 <= cy < height,
        0 <= y <= height,
        0 <= cx,
        (cx < x) || (cx == x && cy < y),
    ensures
        0 <= cx * height + cy < x * height + y,
{
    assert(0 <= cx * height) by (nonlinear_arith)
        requires
            0 <= cx,
            0 < height,
    ;
    if cx < x {
        assert((cx + 1) * height <= x * height) by (nonlinear_arith)
            requires
                cx + 1 <= x,
                0 < height,
        ;
        assert((cx + 1) * height == cx * height + height) by (nonlinear_arith);
    }
}

} // verus!
