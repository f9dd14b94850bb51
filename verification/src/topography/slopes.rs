//! Slopes: for each hex of a border, a path of hexes from the plate's seed
//! towards that hex, found by a walk that never moves away from it.

use crate::cmd::OffsetMode;
use crate::cmd::MAX_DIMENSION;
use crate::mesh::axial::Axial;
use crate::mesh::laws::lemma_neighbors_in_grid;
use crate::mesh::laws::lemma_place_injective;
use crate::mesh::spec_adjacent;
use crate::mesh::spec_axial;
use crate::mesh::Coord;
use crate::mesh::Mesh;
use crate::mesh::Shape;
use crate::mesh::REACH;
use crate::topography::interaction::InteractionVariant;
use crate::topography::plates::lemma_within_size;
use crate::topography::plates::Interaction;
use crate::topography::plates::NeighborId;
use crate::topography::plates::Plates;
use crate::topography::plates::Slope;
use crate::utils::keyed::key_set_contains;
use crate::utils::keyed::key_set_insert;
use crate::utils::keyed::key_set_new;
use crate::utils::keyed::key_set_view;
use crate::utils::keyed::KeySet;
use crate::utils::random::pcg_from_seed;
use crate::utils::random::pcg_seeded;
use crate::utils::random::pcg_shuffle;
use crate::utils::random::pcg_shuffled;
use crate::utils::random::pcg_state;
use std::collections::VecDeque;
use vstd::prelude::*;

verus! {

/// The centre of a hex on the lattice of half hex sizes. With flat hexes one
/// unit is half a hex size across and `sqrt(3)` times as much down; with
/// pointy hexes it is the other way round.
pub open spec fn spec_lattice(a: Axial, mode: OffsetMode) -> (int, int) {
    if mode.spec_is_columns() {
        (3 * a.x, a.x + 2 * a.y)
    } else {
        (2 * a.x + a.y, 3 * a.y)
    }
}

/// The width of the map on the lattice: the step across which it wraps.
pub open spec fn spec_span(mode: OffsetMode, width: int) -> int {
    if mode.spec_is_columns() {
        3 * width
    } else {
        2 * width
    }
}

/// The square of the distance that lattice steps `dx` across and `dy` down
/// come to, in quarters of the square of the hex size.
pub open spec fn spec_norm(mode: OffsetMode, dx: int, dy: int) -> int {
    if mode.spec_is_columns() {
        dx * dx + 3 * (dy * dy)
    } else {
        3 * (dx * dx) + dy * dy
    }
}

/// The square of the distance between the centres of two hexes on a map
/// that wraps around: the smaller of the distance on the plane and the
/// distance across the left and right edge, in quarters of the square of
/// the hex size.
pub open spec fn spec_wrap_distance(a: Axial, b: Axial, mode: OffsetMode, width: int) -> int {
    let p = spec_lattice(a, mode);
    let q = spec_lattice(b, mode);
    let dx = if p.0 >= q.0 {
        p.0 - q.0
    } else {
        q.0 - p.0
    };
    let dy = if p.1 >= q.1 {
        p.1 - q.1
    } else {
        q.1 - p.1
    };
    let direct = spec_norm(mode, dx, dy);
    let wrapped = spec_norm(mode, spec_span(mode, width) - dx, dy);
    if direct <= wrapped {
        direct
    } else {
        wrapped
    }
}

/// The square of a number of moderate size.
pub fn square(v: i64) -> (r: i64)
    requires
        -0x4000_0000 <= v <= 0x4000_0000,
    ensures
        r == v * v,
        0 <= r <= 0x1000_0000_0000_0000,
{
    proof {
        assert(0 <= v * v <= 0x4000_0000 * 0x4000_0000) by (nonlinear_arith)
            requires
                -0x4000_0000 <= v <= 0x4000_0000,
        ;
    }
    v * v
}

/// Whether the axial coordinates are small enough for distances between
/// centres to be computed.
pub open spec fn spec_near(a: Axial) -> bool {
    -2 * REACH <= a.x <= 2 * REACH && -2 * REACH <= a.y <= 2 * REACH
}

/// The square of the distance between the centres of two hexes on a map of
/// the given width that wraps around, in quarters of the square of the hex
/// size: the smaller of the distance on the plane and the distance across
/// the left and right edge.
pub fn wrap_distance(origin: Axial, other: Axial, mode: OffsetMode, width: i32) -> (r: i64)
    requires
        spec_near(origin),
        spec_near(other),
        1 <= width <= MAX_DIMENSION,
    ensures
        r == spec_wrap_distance(origin, other, mode, width as int),
        r >= 0,
{
    let columns = mode.is_columns();
    let (px, py): (i64, i64) = if columns {
        (3 * (origin.x as i64), (origin.x as i64) + 2 * (origin.y as i64))
    } else {
        (2 * (origin.x as i64) + (origin.y as i64), 3 * (origin.y as i64))
    };
    let (qx, qy): (i64, i64) = if columns {
        (3 * (other.x as i64), (other.x as i64) + 2 * (other.y as i64))
    } else {
        (2 * (other.x as i64) + (other.y as i64), 3 * (other.y as i64))
    };
    let dx: i64 = if px >= qx {
        px - qx
    } else {
        qx - px
    };
    let dy: i64 = if py >= qy {
        py - qy
    } else {
        qy - py
    };
    let span: i64 = if columns {
        3 * (width as i64)
    } else {
        2 * (width as i64)
    };
    let wx: i64 = span - dx;
    let sx = square(dx);
    let sy = square(dy);
    let sw = square(wx);
    let direct: i64 = if columns {
        sx + 3 * sy
    } else {
        3 * sx + sy
    };
    let wrapped: i64 = if columns {
        sw + 3 * sy
    } else {
        3 * sw + sy
    };
    if direct <= wrapped {
        direct
    } else {
        wrapped
    }
}

/// The seed of the generator that shuffles the walk from `seed` to
/// `target`.
pub open spec fn spec_slope_seed(seed: Coord, target: Coord) -> u64 {
    (((seed.x * target.x) as u64) << 32) | ((seed.y * target.y) as u64)
}

/// The seed of the generator that shuffles the walk from `seed` to `target`:
/// the product of the columns in the upper half, the product of the rows in
/// the lower half.
pub fn slope_seed(seed: &Coord, target: &Coord) -> (r: u64)
    requires
        0 <= seed.x < MAX_DIMENSION,
        0 <= seed.y < MAX_DIMENSION,
        0 <= target.x < MAX_DIMENSION,
        0 <= target.y < MAX_DIMENSION,
    ensures
        r == spec_slope_seed(*seed, *target),
{
    proof {
        assert(0 <= seed.x * target.x <= MAX_DIMENSION * MAX_DIMENSION) by (nonlinear_arith)
            requires
                0 <= seed.x < MAX_DIMENSION,
                0 <= target.x < MAX_DIMENSION,
        ;
        assert(0 <= seed.y * target.y <= MAX_DIMENSION * MAX_DIMENSION) by (nonlinear_arith)
            requires
                0 <= seed.y < MAX_DIMENSION,
                0 <= target.y < MAX_DIMENSION,
        ;
    }
    let x: i32 = seed.x * target.x;
    let y: i32 = seed.y * target.y;
    ((x as u64) << 32) | (y as u64)
}

/// The distance from the hex at `c` to the hex at `target`, as
/// `wrap_distance` measures it.
pub open spec fn spec_distance_to(shape: Shape, c: Coord, target: Coord) -> int {
    spec_wrap_distance(
        spec_axial(c, shape.offset_mode),
        spec_axial(target, shape.offset_mode),
        shape.offset_mode,
        shape.width as int,
    )
}

/// Of the first `upto` neighbours, those that the walk has not been at, in
/// the order of the neighbour list.
pub open spec fn spec_candidates(
    shape: Shape,
    visited: Set<u64>,
    neighbors: Seq<(Coord, bool)>,
    upto: nat,
) -> Seq<Coord>
    decreases upto,
{
    if upto == 0 || upto > neighbors.len() {
        Seq::empty()
    } else {
        let before = spec_candidates(shape, visited, neighbors, (upto - 1) as nat);
        let n = neighbors[upto - 1].0;
        if visited.contains(shape.spec_place(n)) {
            before
        } else {
            before.push(n)
        }
    }
}

/// The first of the candidates from `from` on that is no further from the
/// target than `limit`.
pub open spec fn spec_first_closer(
    shape: Shape,
    target: Coord,
    limit: int,
    candidates: Seq<Coord>,
    from: nat,
) -> Option<Coord>
    decreases candidates.len() - from,
{
    if from >= candidates.len() {
        None
    } else if spec_distance_to(shape, candidates[from as int], target) <= limit {
        Some(candidates[from as int])
    } else {
        spec_first_closer(shape, target, limit, candidates, from + 1)
    }
}

/// Where a walk stands: the state of its generator, the hexes that wait to
/// be walked on from, the numbers of the hexes it has been at, and the path
/// so far.
pub struct Walk {
    pub rng: u128,
    pub queue: Seq<Coord>,
    pub visited: Set<u64>,
    pub hexes: Seq<Coord>,
}

/// The path that a walk comes to in at most `fuel` more steps. A step takes
/// the hex that waits. If the target is among its neighbours that the walk
/// has not been at, the target ends the path. If not, those neighbours are
/// shuffled, and the first of them that is no further from the target than
/// the hex itself is added to the path and waits next; when there is none,
/// the path ends.
pub open spec fn spec_walk(w: Walk, shape: Shape, target: Coord, fuel: nat) -> Seq<Coord>
    decreases fuel,
{
    if w.queue.len() == 0 || fuel == 0 {
        w.hexes
    } else {
        let current = w.queue[0];
        let rest = w.queue.subrange(1, w.queue.len() as int);
        let neighbors = shape.spec_neighbors(current);
        let candidates = spec_candidates(shape, w.visited, neighbors, neighbors.len());
        if candidates.contains(target) {
            w.hexes.push(target)
        } else {
            let shuffled = pcg_shuffled(w.rng, candidates);
            let next = match spec_first_closer(
                shape,
                target,
                spec_distance_to(shape, current, target),
                shuffled.1,
                0,
            ) {
                Some(n) => Walk {
                    rng: shuffled.0,
                    queue: rest.push(n),
                    visited: w.visited.insert(shape.spec_place(n)),
                    hexes: w.hexes.push(n),
                },
                None => Walk {
                    rng: shuffled.0,
                    queue: rest,
                    visited: w.visited,
                    hexes: w.hexes,
                },
            };
            spec_walk(next, shape, target, (fuel - 1) as nat)
        }
    }
}

/// The walk before its first step: it stands on the seed.
pub open spec fn spec_walk_start(shape: Shape, seed: Coord, target: Coord) -> Walk {
    Walk {
        rng: pcg_seeded(spec_slope_seed(seed, target)),
        queue: seq![seed],
        visited: Set::<u64>::empty().insert(shape.spec_place(seed)),
        hexes: seq![seed],
    }
}

/// The path of the slope from `seed` towards `target`.
pub open spec fn spec_trace(shape: Shape, seed: Coord, target: Coord) -> Seq<Coord> {
    spec_walk(spec_walk_start(shape, seed, target), shape, target, shape.spec_size() as nat)
}

/// What holds of every path, however it was shuffled: it starts at the
/// seed, stays in the mesh, goes from each hex to a neighbour of that hex
/// that is no further from the target, and is at no hex twice.
pub open spec fn spec_path(mesh: Mesh, seed: Coord, target: Coord, hexes: Seq<Coord>) -> bool {
    &&& hexes.len() >= 1
    &&& hexes[0] == seed
    &&& forall|k: int| 0 <= k < hexes.len() ==> mesh.spec_contains(#[trigger] hexes[k])
    &&& forall|k: int| 1 <= k < hexes.len() ==> #[trigger] spec_step(mesh, target, hexes, k)
    &&& forall|j: int, k: int|
        0 <= j < k < hexes.len() ==> #[trigger] hexes[j] != #[trigger] hexes[k]
}

/// Whether the hex at `k` of a path is a neighbour of the hex before it and
/// no further from the target.
pub open spec fn spec_step(mesh: Mesh, target: Coord, hexes: Seq<Coord>, k: int) -> bool {
    &&& spec_adjacent(
        hexes[k - 1],
        hexes[k],
        mesh.offset_mode,
        mesh.width as int,
        mesh.height as int,
    )
    &&& spec_distance_to(mesh.spec_shape(), hexes[k], target) <= spec_distance_to(
        mesh.spec_shape(),
        hexes[k - 1],
        target,
    )
}

/// Whether the hex at `c` is a neighbour of `current` in the mesh that the
/// walk has not been at.
pub open spec fn spec_open(mesh: Mesh, visited: Set<u64>, current: Coord, c: Coord) -> bool {
    &&& mesh.spec_contains(c)
    &&& !visited.contains(mesh.spec_place(c))
    &&& spec_adjacent(current, c, mesh.offset_mode, mesh.width as int, mesh.height as int)
}

/// Adding to a path a neighbour of its last hex that the walk has not been
/// at, and that is no further from the target, gives a path.
pub proof fn lemma_path_push(
    mesh: Mesh,
    seed: Coord,
    target: Coord,
    hexes: Seq<Coord>,
    visited: Set<u64>,
    n: Coord,
)
    requires
        mesh.wf(),
        spec_path(mesh, seed, target, hexes),
        forall|k: int| 0 <= k < hexes.len() ==> visited.contains(
            mesh.spec_place(#[trigger] hexes[k]),
        ),
        spec_open(mesh, visited, hexes.last(), n),
        spec_distance_to(mesh.spec_shape(), n, target) <= spec_distance_to(
            mesh.spec_shape(),
            hexes.last(),
            target,
        ),
    ensures
        spec_path(mesh, seed, target, hexes.push(n)),
        forall|k: int|
            0 <= k < hexes.push(n).len() ==> visited.insert(mesh.spec_place(n)).contains(
                mesh.spec_place(#[trigger] hexes.push(n)[k]),
            ),
{
    let longer = hexes.push(n);
    assert forall|k: int| 0 <= k < longer.len() implies mesh.spec_contains(
        #[trigger] longer[k],
    ) by {
        if k < hexes.len() {
            assert(longer[k] == hexes[k]);
        }
    }
    assert forall|k: int| 1 <= k < longer.len() implies #[trigger] spec_step(
        mesh,
        target,
        longer,
        k,
    ) by {
        if k < hexes.len() {
            assert(longer[k] == hexes[k]);
            assert(longer[k - 1] == hexes[k - 1]);
            assert(spec_step(mesh, target, hexes, k));
        } else {
            assert(longer[k - 1] == hexes.last());
        }
    }
    assert forall|j: int, k: int| 0 <= j < k < longer.len() implies #[trigger] longer[j]
        != #[trigger] longer[k] by {
        assert(longer[j] == hexes[j]);
        if k < hexes.len() {
            assert(longer[k] == hexes[k]);
        }
    }
    assert forall|k: int| 0 <= k < longer.len() implies visited.insert(
        mesh.spec_place(n),
    ).contains(mesh.spec_place(#[trigger] longer[k])) by {
        if k < hexes.len() {
            assert(longer[k] == hexes[k]);
        }
    }
}

/// The distance from a hex to itself is zero, and no distance is negative.
pub proof fn lemma_distance_zero(mesh: Mesh, c: Coord, target: Coord)
    ensures
        spec_distance_to(mesh.spec_shape(), target, target) == 0,
        spec_distance_to(mesh.spec_shape(), c, target) >= 0,
{
    let a = spec_axial(c, mesh.offset_mode);
    let b = spec_axial(target, mesh.offset_mode);
    let p = spec_lattice(a, mesh.offset_mode);
    let q = spec_lattice(b, mesh.offset_mode);
    let dx = if p.0 >= q.0 {
        p.0 - q.0
    } else {
        q.0 - p.0
    };
    let dy = if p.1 >= q.1 {
        p.1 - q.1
    } else {
        q.1 - p.1
    };
    let wx = spec_span(mesh.offset_mode, mesh.width as int) - dx;
    assert(dx * dx >= 0 && dy * dy >= 0 && wx * wx >= 0) by (nonlinear_arith);
    let s = spec_span(mesh.offset_mode, mesh.width as int);
    assert(s * s >= 0) by (nonlinear_arith);
}

/// The neighbours of the hex at `current` that the walk has not been at,
/// in the order of the neighbour list, and whether the target is one of
/// them.
pub fn open_neighbors(mesh: &Mesh, visited: &KeySet, current: Coord, target: &Coord) -> (r: (
    Vec<Coord>,
    bool,
))
    requires
        mesh.wf(),
        mesh.spec_contains(current),
    ensures
        r.0@ == spec_candidates(
            mesh.spec_shape(),
            key_set_view(*visited),
            mesh.spec_hex(current).neighbors@,
            mesh.spec_hex(current).neighbors@.len(),
        ),
        forall|k: int|
            0 <= k < r.0@.len() ==> spec_open(
                *mesh,
                key_set_view(*visited),
                current,
                #[trigger] r.0@[k],
            ),
        r.1 == r.0@.contains(*target),
{
    proof {
        lemma_neighbors_in_grid(current, mesh.offset_mode, mesh.width as int, mesh.height as int);
    }
    let current_hex = mesh.get_hex(current.x, current.y);
    let ghost neighbors = current_hex.neighbors@;
    let mut candidates: Vec<Coord> = Vec::new();
    let mut found = false;
    let mut j: usize = 0;
    while j < current_hex.neighbors.len()
        invariant
            mesh.wf(),
            mesh.spec_contains(current),
            *current_hex == mesh.spec_hex(current),
            neighbors == current_hex.neighbors@,
            neighbors == crate::mesh::spec_neighbors(
                current,
                mesh.offset_mode,
                mesh.width as int,
                mesh.height as int,
            ),
            j <= neighbors.len(),
            forall|k: int|
                0 <= k < neighbors.len() ==> mesh.spec_contains((#[trigger] neighbors[k]).0),
            candidates@ == spec_candidates(
                mesh.spec_shape(),
                key_set_view(*visited),
                neighbors,
                j as nat,
            ),
            forall|k: int|
                0 <= k < candidates@.len() ==> spec_open(
                    *mesh,
                    key_set_view(*visited),
                    current,
                    #[trigger] candidates@[k],
                ),
            found == candidates@.contains(*target),
        decreases neighbors.len() - j,
    {
        let neighbor = current_hex.neighbors[j].0;
        let key = mesh.place(neighbor);
        let ghost so_far = candidates@;
        if !key_set_contains(visited, key) {
            candidates.push(neighbor);
            if neighbor == *target {
                found = true;
            }
            proof {
                assert(neighbors[j as int].0 == neighbor);
                assert(candidates@[so_far.len() as int] == neighbor);
                assert forall|k: int| 0 <= k < candidates@.len() implies spec_open(
                    *mesh,
                    key_set_view(*visited),
                    current,
                    #[trigger] candidates@[k],
                ) by {
                    if k < so_far.len() {
                        assert(candidates@[k] == so_far[k]);
                    }
                }
                if so_far.contains(*target) {
                    let k = choose|k: int| 0 <= k < so_far.len() && so_far[k] == *target;
                    assert(candidates@[k] == *target);
                }
                if candidates@.contains(*target) && neighbor != *target {
                    let k = choose|k: int| 0 <= k < candidates@.len() && candidates@[k] == *target;
                    assert(so_far[k] == *target);
                }
            }
        }
        j += 1;
    }
    (candidates, found)
}

/// The first of the candidates that is no further from the target than
/// `limit`.
pub fn first_closer(mesh: &Mesh, target: &Coord, limit: i64, candidates: &Vec<Coord>) -> (r: Option<
    Coord,
>)
    requires
        mesh.wf(),
        mesh.spec_contains(*target),
        forall|i: int| 0 <= i < candidates@.len() ==> mesh.spec_contains(#[trigger] candidates@[i]),
    ensures
        r == spec_first_closer(mesh.spec_shape(), *target, limit as int, candidates@, 0),
        r is Some ==> candidates@.contains(r->Some_0) && spec_distance_to(
            mesh.spec_shape(),
            r->Some_0,
            *target,
        ) <= limit,
{
    let target_hex = mesh.get_hex(target.x, target.y);
    let mut k: usize = 0;
    while k < candidates.len()
        invariant
            mesh.wf(),
            mesh.spec_contains(*target),
            *target_hex == mesh.spec_hex(*target),
            k <= candidates@.len(),
            forall|i: int|
                0 <= i < candidates@.len() ==> mesh.spec_contains(#[trigger] candidates@[i]),
            spec_first_closer(mesh.spec_shape(), *target, limit as int, candidates@, 0)
                == spec_first_closer(
                mesh.spec_shape(),
                *target,
                limit as int,
                candidates@,
                k as nat,
            ),
        decreases candidates@.len() - k,
    {
        let n_coord = candidates[k];
        let neighbor_hex = mesh.get_hex(n_coord.x, n_coord.y);
        let neighbor_to_border = wrap_distance(
            neighbor_hex.axial,
            target_hex.axial,
            mesh.offset_mode,
            mesh.width,
        );
        if neighbor_to_border <= limit {
            return Some(n_coord);
        }
        k += 1;
    }
    None
}

/// The distance from the hex at `c` to the hex at `target`.
pub fn distance_between(mesh: &Mesh, c: &Coord, target: &Coord) -> (r: i64)
    requires
        mesh.wf(),
        mesh.spec_contains(*c),
        mesh.spec_contains(*target),
    ensures
        r == spec_distance_to(mesh.spec_shape(), *c, *target),
{
    wrap_distance(
        mesh.get_hex(c.x, c.y).axial,
        mesh.get_hex(target.x, target.y).axial,
        mesh.offset_mode,
        mesh.width,
    )
}

/// Shuffled candidates are the same hexes: what held of each of them before
/// holds of each of them afterwards.
pub proof fn lemma_shuffled_open(
    mesh: Mesh,
    visited: Set<u64>,
    current: Coord,
    before: Seq<Coord>,
    after: Seq<Coord>,
)
    requires
        before.to_multiset() == after.to_multiset(),
        forall|k: int| 0 <= k < before.len() ==> spec_open(
            mesh,
            visited,
            current,
            #[trigger] before[k],
        ),
    ensures
        forall|k: int| 0 <= k < after.len() ==> spec_open(
            mesh,
            visited,
            current,
            #[trigger] after[k],
        ),
{
    assert forall|k: int| 0 <= k < after.len() implies spec_open(
        mesh,
        visited,
        current,
        #[trigger] after[k],
    ) by {
        assert(after.contains(after[k]));
        vstd::seq_lib::to_multiset_contains(after, after[k]);
        vstd::seq_lib::to_multiset_contains(before, after[k]);
        let at = choose|at: int| 0 <= at < before.len() && before[at] == after[k];
        assert(spec_open(mesh, visited, current, before[at]));
    }
}

/// What holds of a walk between two steps: its path is a path, at most one
/// hex waits, which is the last of the path, and the walk has been at every
/// hex of the path.
pub open spec fn spec_walking(mesh: Mesh, seed: Coord, target: Coord, w: Walk) -> bool {
    &&& spec_path(mesh, seed, target, w.hexes)
    &&& w.queue.len() <= 1
    &&& w.queue.len() == 1 ==> w.queue[0] == w.hexes.last()
    &&& forall|k: int|
        0 <= k < w.hexes.len() ==> w.visited.contains(mesh.spec_place(#[trigger] w.hexes[k]))
    &&& forall|key: u64| #[trigger] w.visited.contains(key) ==> key < mesh.spec_size()
    &&& w.visited.finite()
}

/// The path of the slope from `seed` towards `target`: a walk from the seed
/// that, at each hex, ends on the target when the target is next to the hex
/// and the walk has not been at it, and else goes on to a neighbour, picked
/// at random, that the walk has not been at and that is no further from the
/// target than the hex; the walk ends where there is none. The generator is
/// seeded from the two hexes, so that the path is a function of them and of
/// the mesh.
pub fn trace(seed: &Coord, target: &Coord, variant: InteractionVariant, mesh: &Mesh) -> (r: Slope)
    requires
        mesh.wf(),
        mesh.spec_contains(*seed),
        mesh.spec_contains(*target),
    ensures
        r.variant == variant,
        r.hexes@ == spec_trace(mesh.spec_shape(), *seed, *target),
        spec_path(*mesh, *seed, *target, r.hexes@),
{
    let size = mesh.size();
    let mut rng = pcg_from_seed(slope_seed(seed, target));
    let mut queue: VecDeque<Coord> = VecDeque::new();
    let mut visited = key_set_new();
    let mut hexes: Vec<Coord> = Vec::new();
    hexes.push(*seed);
    queue.push_back(*seed);
    let seed_place = mesh.place(*seed);
    key_set_insert(&mut visited, seed_place);
    let mut done = false;
    let ghost start = spec_walk_start(mesh.spec_shape(), *seed, *target);
    let ghost fuel = size as nat;
    let ghost mut steps: nat = 0;
    proof {
        assert(hexes@ =~= start.hexes);
        assert(queue@ =~= start.queue);
        assert(key_set_view(visited) =~= start.visited);
    }
    while !done && queue.len() > 0
        invariant
            mesh.wf(),
            mesh.spec_contains(*seed),
            mesh.spec_contains(*target),
            size == mesh.spec_size(),
            fuel == size,
            spec_path(*mesh, *seed, *target, hexes@),
            done ==> hexes@ == spec_walk(start, mesh.spec_shape(), *target, fuel),
            !done ==> {
                &&& spec_walking(
                    *mesh,
                    *seed,
                    *target,
                    Walk {
                        rng: pcg_state(rng),
                        queue: queue@,
                        visited: key_set_view(visited),
                        hexes: hexes@,
                    },
                )
                &&& queue@.len() == 1 ==> key_set_view(visited).len() == steps + 1
                &&& steps <= fuel
                &&& spec_walk(start, mesh.spec_shape(), *target, fuel) == spec_walk(
                    Walk {
                        rng: pcg_state(rng),
                        queue: queue@,
                        visited: key_set_view(visited),
                        hexes: hexes@,
                    },
                    mesh.spec_shape(),
                    *target,
                    (fuel - steps) as nat,
                )
            },
        decreases
                (if done {
                    0int
                } else {
                    1 + fuel - steps
                }),
    {
        proof {
            lemma_within_size(*mesh, key_set_view(visited));
        }
        let ghost before = Walk {
            rng: pcg_state(rng),
            queue: queue@,
            visited: key_set_view(visited),
            hexes: hexes@,
        };
        let current = queue.pop_front().unwrap();
        proof {
            assert(queue@ =~= before.queue.subrange(1, before.queue.len() as int));
            assert(queue@.len() == 0);
            assert(current == hexes@.last());
        }
        let current_to_border = distance_between(mesh, &current, target);
        let (mut candidates, found) = open_neighbors(mesh, &visited, current, target);
        if found {
            proof {
                let k = choose|k: int| 0 <= k < candidates@.len() && candidates@[k] == *target;
                assert(spec_open(*mesh, key_set_view(visited), current, candidates@[k]));
                lemma_distance_zero(*mesh, current, *target);
                lemma_path_push(*mesh, *seed, *target, hexes@, key_set_view(visited), *target);
            }
            hexes.push(*target);
            done = true;
        } else {
            let ghost unshuffled = candidates@;
            pcg_shuffle(&mut rng, &mut candidates);
            proof {
                lemma_shuffled_open(
                    *mesh,
                    key_set_view(visited),
                    current,
                    unshuffled,
                    candidates@,
                );
            }
            let next = first_closer(mesh, target, current_to_border, &candidates);
            match next {
                Some(n_coord) => {
                    proof {
                        let at = choose|at: int|
                            0 <= at < candidates@.len() && candidates@[at] == n_coord;
                        assert(spec_open(*mesh, key_set_view(visited), current, candidates@[at]));
                        lemma_path_push(
                            *mesh,
                            *seed,
                            *target,
                            hexes@,
                            key_set_view(visited),
                            n_coord,
                        );
                        lemma_place_injective(*mesh, n_coord, n_coord);
                    }
                    let key = mesh.place(n_coord);
                    hexes.push(n_coord);
                    queue.push_back(n_coord);
                    key_set_insert(&mut visited, key);
                    proof {
                        steps = steps + 1;
                        assert(queue@ =~= before.queue.subrange(
                            1,
                            before.queue.len() as int,
                        ).push(n_coord));
                    }
                },
                None => {
                    proof {
                        steps = steps + 1;
                    }
                },
            }
        }
    }
    Slope { variant, hexes }
}

/// What slopes come to: for each its variant and its path.
pub open spec fn spec_slopes_view(slopes: Seq<Slope>) -> Seq<(InteractionVariant, Seq<Coord>)> {
    Seq::new(slopes.len(), |k: int| (slopes[k].variant, slopes[k].hexes@))
}

/// The slopes of one border: for each hex of the segment, in order, the
/// path from the seed towards it, with the variant of the border.
pub open spec fn spec_built(
    shape: Shape,
    seed: Coord,
    variant: InteractionVariant,
    segment: Seq<Coord>,
) -> Seq<(InteractionVariant, Seq<Coord>)> {
    Seq::new(segment.len(), |k: int| (variant, spec_trace(shape, seed, segment[k])))
}

/// The slopes of the first `upto` borders, border after border.
pub open spec fn spec_slopes_upto(
    shape: Shape,
    seed: Coord,
    border: Seq<(NeighborId, Interaction)>,
    upto: nat,
) -> Seq<(InteractionVariant, Seq<Coord>)>
    decreases upto,
{
    if upto == 0 || upto > border.len() {
        Seq::empty()
    } else {
        spec_slopes_upto(shape, seed, border, (upto - 1) as nat) + spec_built(
            shape,
            seed,
            border[upto - 1].1.variant,
            border[upto - 1].1.segment@,
        )
    }
}

/// Whether every slope is made of hexes of the mesh.
pub open spec fn spec_slopes_in_mesh(mesh: Mesh, slopes: Seq<Slope>) -> bool {
    forall|s: int, k: int|
        0 <= s < slopes.len() && 0 <= k < slopes[s].hexes@.len() ==> mesh.spec_contains(
            #[trigger] slopes[s].hexes@[k],
        )
}

/// The slopes of one border: one for each hex of its segment, in the order
/// of the segment, each with the variant of the border and the path from
/// the seed towards that hex.
pub fn build(seed: &Coord, interaction: &Interaction, mesh: &Mesh) -> (r: Vec<Slope>)
    requires
        mesh.wf(),
        mesh.spec_contains(*seed),
        forall|k: int|
            0 <= k < interaction.segment@.len() ==> mesh.spec_contains(
                #[trigger] interaction.segment@[k],
            ),
    ensures
        spec_slopes_view(r@) == spec_built(
            mesh.spec_shape(),
            *seed,
            interaction.variant,
            interaction.segment@,
        ),
        forall|k: int|
            0 <= k < r@.len() ==> spec_path(
                *mesh,
                *seed,
                interaction.segment@[k],
                (#[trigger] r@[k]).hexes@,
            ),
        spec_slopes_in_mesh(*mesh, r@),
{
    let mut slopes: Vec<Slope> = Vec::new();
    let mut k: usize = 0;
    while k < interaction.segment.len()
        invariant
            mesh.wf(),
            mesh.spec_contains(*seed),
            forall|j: int|
                0 <= j < interaction.segment@.len() ==> mesh.spec_contains(
                    #[trigger] interaction.segment@[j],
                ),
            k <= interaction.segment@.len(),
            slopes@.len() == k,
            forall|j: int|
                0 <= j < k ==> (#[trigger] slopes@[j]).variant == interaction.variant
                    && slopes@[j].hexes@ == spec_trace(
                        mesh.spec_shape(),
                        *seed,
                        interaction.segment@[j],
                    )
                    && spec_path(*mesh, *seed, interaction.segment@[j], slopes@[j].hexes@),
        decreases interaction.segment@.len() - k,
    {
        let target = interaction.segment[k];
        let slope = trace(seed, &target, interaction.variant, mesh);
        slopes.push(slope);
        k += 1;
    }
    proof {
        assert(spec_slopes_view(slopes@) =~= spec_built(
            mesh.spec_shape(),
            *seed,
            interaction.variant,
            interaction.segment@,
        ));
        assert forall|s: int, j: int|
            0 <= s < slopes@.len() && 0 <= j < slopes@[s].hexes@.len() implies mesh.spec_contains(
            #[trigger] slopes@[s].hexes@[j],
        ) by {
            assert(spec_path(*mesh, *seed, interaction.segment@[s], slopes@[s].hexes@));
        }
    }
    slopes
}

impl Plates {
    /// The slopes of the plate at `i`: those of its borders, border after
    /// border.
    pub open spec fn spec_plate_slopes(self, shape: Shape, i: int) -> Seq<
        (InteractionVariant, Seq<Coord>),
    > {
        spec_slopes_upto(
            shape,
            self.regions@[i].seed,
            self.regions@[i].border@,
            self.regions@[i].border@.len(),
        )
    }

    /// The slopes of the plate at `i`: those of its borders, border after
    /// border.
    pub fn slopes_of(&self, mesh: &Mesh, i: usize) -> (r: Vec<Slope>)
        requires
            self.wf(*mesh),
            i < self.regions@.len(),
        ensures
            spec_slopes_view(r@) == self.spec_plate_slopes(mesh.spec_shape(), i as int),
            spec_slopes_in_mesh(*mesh, r@),
    {
        let plate = &self.regions[i];
        proof {
            assert(crate::topography::plates::spec_areas(self.regions@)[i as int][0] == plate.seed);
            assert(self.spec_seeds()[i as int] == plate.seed);
            assert(mesh.spec_contains(plate.seed));
        }
        let mut all: Vec<Slope> = Vec::new();
        let mut b: usize = 0;
        while b < plate.border.len()
            invariant
                self.wf(*mesh),
                i < self.regions@.len(),
                *plate == self.regions@[i as int],
                mesh.spec_contains(plate.seed),
                b <= plate.border@.len(),
                spec_slopes_view(all@) == spec_slopes_upto(
                    mesh.spec_shape(),
                    plate.seed,
                    plate.border@,
                    b as nat,
                ),
                spec_slopes_in_mesh(*mesh, all@),
            decreases plate.border@.len() - b,
        {
            let ghost before = all@;
            proof {
                assert forall|k: int|
                    0 <= k < plate.border@[b as int].1.segment@.len() implies mesh.spec_contains(
                    #[trigger] plate.border@[b as int].1.segment@[k],
                ) by {
                    assert(mesh.spec_contains(
                        self.regions@[i as int].border@[b as int].1.segment@[k],
                    ));
                }
            }
            let mut built = build(&plate.seed, &plate.border[b].1, mesh);
            let ghost added = built@;
            all.append(&mut built);
            proof {
                assert(all@ =~= before + added);
                assert(spec_slopes_view(all@) =~= spec_slopes_view(before) + spec_slopes_view(
                    added,
                ));
                assert forall|s: int, k: int|
                    0 <= s < all@.len() && 0 <= k < all@[s].hexes@.len() implies mesh.spec_contains(
                    #[trigger] all@[s].hexes@[k],
                ) by {
                    if s < before.len() {
                        assert(all@[s] == before[s]);
                    } else {
                        assert(all@[s] == added[s - before.len()]);
                    }
                }
            }
            b += 1;
        }
        all
    }

    /// Builds the slopes of every plate from its borders: for each border,
    /// in order, one slope for each hex of its segment. Nothing else about
    /// the plates changes.
    pub fn slopes(&mut self, mesh: &Mesh)
        requires
            old(self).wf(*mesh),
        ensures
            final(self).wf(*mesh),
            final(self).spec_same_plates(*old(self)),
            forall|i: int|
                0 <= i < final(self).regions@.len() ==> spec_slopes_view(
                    (#[trigger] final(self).regions@[i]).slopes@,
                ) == old(self).spec_plate_slopes(mesh.spec_shape(), i)
                    && final(self).regions@[i].border
                    == old(self).regions@[i].border,
    {
        let n = self.regions.len();
        let mut i: usize = 0;
        while i < n
            invariant
                old(self).wf(*mesh),
                self.wf(*mesh),
                n == old(self).regions@.len(),
                i <= n,
                self.spec_same_plates(*old(self)),
                forall|k: int|
                    0 <= k < n ==> (#[trigger] self.regions@[k]).border == old(
                        self,
                    ).regions@[k].border,
                forall|k: int|
                    0 <= k < i ==> spec_slopes_view((#[trigger] self.regions@[k]).slopes@) == old(
                        self,
                    ).spec_plate_slopes(mesh.spec_shape(), k),
            decreases n - i,
        {
            let built = self.slopes_of(mesh, i);
            let ghost before = *self;
            self.regions[i].slopes = built;
            proof {
                assert(self.spec_same_plates(before));
                self.lemma_same_partition(before, *mesh);
                assert forall|a: int, b: int, k: int|
                    0 <= a < self.regions@.len() && 0 <= b < self.regions@[a].border@.len() && 0
                        <= k < self.regions@[a].border@[b].1.segment@.len()
                        implies mesh.spec_contains(
                    #[trigger] self.regions@[a].border@[b].1.segment@[k],
                ) by {
                    assert(self.regions@[a].border == before.regions@[a].border);
                }
                assert forall|a: int, c: int, k: int|
                    0 <= a < self.regions@.len() && 0 <= c < self.regions@[a].slopes@.len() && 0
                        <= k < self.regions@[a].slopes@[c].hexes@.len()
                        implies mesh.spec_contains(
                    #[trigger] self.regions@[a].slopes@[c].hexes@[k],
                ) by {
                    if a != i {
                        assert(self.regions@[a] == before.regions@[a]);
                    }
                }
            }
            i += 1;
        }
    }

    /// Plates that agree on map, seeds, directions and areas give the hexes
    /// of the mesh to the same plates.
    pub proof fn lemma_same_partition(self, other: Plates, mesh: Mesh)
        requires
            self.spec_same_plates(other),
            other.spec_partitioned(mesh),
        ensures
            self.spec_partitioned(mesh),
    {
        assert(crate::topography::plates::spec_areas(self.regions@)
            =~= crate::topography::plates::spec_areas(other.regions@));
        assert(self.spec_seeds() =~= other.spec_seeds());
    }
}

} // verus!
