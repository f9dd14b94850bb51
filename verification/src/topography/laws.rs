//! What holds of the plates of every map.

use crate::mesh::Coord;
use crate::mesh::Mesh;
use crate::mesh::Shape;
use crate::topography::borders::spec_border_view;
use crate::topography::plates::NeighborId;
use crate::topography::bearings::Bearings;
use crate::topography::interaction::lemma_interaction_symmetric;
use crate::topography::plates::spec_areas;
use crate::topography::plates::spec_member;
use crate::topography::plates::spec_visited;
use crate::topography::plates::Plates;
use crate::topography::plates::Slope;
use crate::topography::slopes::spec_trace;
use vstd::prelude::*;

verus! {

/// The plates partition the mesh: every hex of the mesh stands in the area
/// of a plate; every hex of an area is a hex of the mesh; and no hex stands
/// in two areas, or twice in one.
pub proof fn lemma_partition(plates: Plates, mesh: Mesh)
    requires
        plates.wf(mesh),
    ensures
        forall|c: Coord| #[trigger]
            mesh.spec_contains(c) ==> exists|i: int, j: int|
                0 <= i < plates.regions@.len() && 0 <= j < plates.regions@[i].area@.len()
                    && #[trigger] plates.regions@[i].area@[j] == c,
        forall|i: int, j: int|
            0 <= i < plates.regions@.len() && 0 <= j < plates.regions@[i].area@.len()
                ==> mesh.spec_contains(#[trigger] plates.regions@[i].area@[j]),
        forall|i: int, j: int, a: int, b: int|
            0 <= i < plates.regions@.len() && 0 <= j < plates.regions@[i].area@.len() && 0 <= a
                < plates.regions@.len() && 0 <= b < plates.regions@[a].area@.len()
                && #[trigger] plates.regions@[i].area@[j] == #[trigger] plates.regions@[a].area@[b]
                ==> i == a && j == b,
{
    let areas = spec_areas(plates.regions@);
    let owner = plates.spec_owner();
    assert forall|c: Coord| #[trigger] mesh.spec_contains(c) implies exists|i: int, j: int|
        0 <= i < plates.regions@.len() && 0 <= j < plates.regions@[i].area@.len()
            && #[trigger] plates.regions@[i].area@[j] == c by {
        assert(spec_visited(mesh, owner, c));
        let i = owner[mesh.spec_place(c)] as int;
        assert(spec_member(areas, i, c));
        let j = choose|j: int| 0 <= j < areas[i].len() && #[trigger] areas[i][j] == c;
        assert(plates.regions@[i].area@[j] == c);
    }
    assert forall|i: int, j: int|
        0 <= i < plates.regions@.len() && 0 <= j < plates.regions@[i].area@.len()
            implies mesh.spec_contains(#[trigger] plates.regions@[i].area@[j]) by {
        assert(mesh.spec_contains(areas[i][j]));
    }
    assert forall|i: int, j: int, a: int, b: int|
        0 <= i < plates.regions@.len() && 0 <= j < plates.regions@[i].area@.len() && 0 <= a
            < plates.regions@.len() && 0 <= b < plates.regions@[a].area@.len()
            && #[trigger] plates.regions@[i].area@[j] == #[trigger] plates.regions@[a].area@[b]
            implies i == a && j == b by {
        assert(owner[mesh.spec_place(areas[i][j])] == i);
        assert(owner[mesh.spec_place(areas[a][b])] == a);
        if j < b {
            assert(areas[i][j] != areas[i][b]);
        } else if b < j {
            assert(areas[i][b] != areas[i][j]);
        }
    }
}

/// A border is classified the same from both sides: the variant of the
/// border that the plate at `a` has with the plate at `b` is the variant of
/// the border that the plate at `b` has with the plate at `a`.
pub proof fn lemma_border_symmetric(plates: Plates, bearings: Bearings, a: int, b: int)
    requires
        0 <= a < plates.regions@.len(),
        0 <= b < plates.regions@.len(),
    ensures
        plates.spec_slot_variant(bearings, a, b + 1) == plates.spec_slot_variant(
            bearings,
            b,
            a + 1,
        ),
{
    lemma_interaction_symmetric(
        bearings.spec_between(a, b) as int,
        plates.regions@[a].direction as int,
        plates.regions@[a].area@.len() as int,
        plates.regions@[b].direction as int,
        plates.regions@[b].area@.len() as int,
    );
}

/// Every border of a plate is its border with one of the neighbours, and
/// only neighbours that a hex of the plate touches have a border.
pub proof fn lemma_border_entry(
    plates: Plates,
    shape: Shape,
    bearings: Bearings,
    i: int,
    k: nat,
    p: int,
)
    requires
        0 <= p < plates.spec_border_upto(shape, bearings, i, k).len(),
    ensures
        exists|slot: int|
            0 <= slot < k && plates.spec_segment(shape, i, slot).len() > 0
                && plates.spec_border_upto(shape, bearings, i, k)[p] == (
                #[trigger] plates.spec_slot_id(slot),
                plates.spec_slot_variant(bearings, i, slot),
                plates.spec_segment(shape, i, slot),
            ),
    decreases k,
{
    let before = plates.spec_border_upto(shape, bearings, i, (k - 1) as nat);
    if p < before.len() {
        lemma_border_entry(plates, shape, bearings, i, (k - 1) as nat, p);
        let slot = choose|slot: int|
            0 <= slot < k - 1 && plates.spec_segment(shape, i, slot).len() > 0 && before[p] == (
                #[trigger] plates.spec_slot_id(slot),
                plates.spec_slot_variant(bearings, i, slot),
                plates.spec_segment(shape, i, slot),
            );
        assert(plates.spec_border_upto(shape, bearings, i, k)[p] == (
            plates.spec_slot_id(slot),
            plates.spec_slot_variant(bearings, i, slot),
            plates.spec_segment(shape, i, slot),
        ));
    } else {
        assert(plates.spec_border_upto(shape, bearings, i, k)[p] == (
            plates.spec_slot_id(k - 1),
            plates.spec_slot_variant(bearings, i, k - 1),
            plates.spec_segment(shape, i, k - 1),
        ));
    }
}

/// Two plates that have a border with each other agree on how they act on
/// each other: the border that the plate at `a` has with the plate at `b`
/// and the border that the plate at `b` has with the plate at `a` are of the
/// same variant.
pub proof fn lemma_borders_agree(
    plates: Plates,
    mesh: Mesh,
    bearings: Bearings,
    a: int,
    b: int,
    p: int,
    q: int,
)
    requires
        plates.spec_complete(mesh, bearings),
        0 <= a < plates.regions@.len(),
        0 <= b < plates.regions@.len(),
        0 <= p < plates.regions@[a].border@.len(),
        0 <= q < plates.regions@[b].border@.len(),
        plates.regions@[a].border@[p].0 == NeighborId::Region(plates.regions@[b].seed),
        plates.regions@[b].border@[q].0 == NeighborId::Region(plates.regions@[a].seed),
    ensures
        plates.regions@[a].border@[p].1.variant == plates.regions@[b].border@[q].1.variant,
{
    let shape = mesh.spec_shape();
    let n = plates.regions@.len();
    lemma_same_seed_same_plate(plates, mesh);
    assert(spec_border_view(plates.regions@[a].border@)[p] == plates.spec_border(
        shape,
        bearings,
        a,
    )[p]);
    lemma_border_entry(plates, shape, bearings, a, (n + 1) as nat, p);
    let s = choose|slot: int|
        0 <= slot < n + 1 && plates.spec_segment(shape, a, slot).len() > 0 && plates.spec_border(
            shape,
            bearings,
            a,
        )[p] == (
            #[trigger] plates.spec_slot_id(slot),
            plates.spec_slot_variant(bearings, a, slot),
            plates.spec_segment(shape, a, slot),
        );
    assert(plates.spec_slot_id(s) == NeighborId::Region(plates.regions@[b].seed));
    assert(s - 1 == b);
    assert(spec_border_view(plates.regions@[b].border@)[q] == plates.spec_border(
        shape,
        bearings,
        b,
    )[q]);
    lemma_border_entry(plates, shape, bearings, b, (n + 1) as nat, q);
    let t = choose|slot: int|
        0 <= slot < n + 1 && plates.spec_segment(shape, b, slot).len() > 0 && plates.spec_border(
            shape,
            bearings,
            b,
        )[q] == (
            #[trigger] plates.spec_slot_id(slot),
            plates.spec_slot_variant(bearings, b, slot),
            plates.spec_segment(shape, b, slot),
        );
    assert(plates.spec_slot_id(t) == NeighborId::Region(plates.regions@[a].seed));
    assert(t - 1 == a);
    lemma_border_symmetric(plates, bearings, a, b);
}

/// No two plates have the same seed.
pub proof fn lemma_same_seed_same_plate(plates: Plates, mesh: Mesh)
    requires
        plates.wf(mesh),
    ensures
        forall|i: int, j: int|
            0 <= i < plates.regions@.len() && 0 <= j < plates.regions@.len() && (
            #[trigger] plates.regions@[i]).seed == (#[trigger] plates.regions@[j]).seed ==> i == j,
{
    let areas = spec_areas(plates.regions@);
    let owner = plates.spec_owner();
    assert forall|i: int, j: int|
        0 <= i < plates.regions@.len() && 0 <= j < plates.regions@.len() && (
        #[trigger] plates.regions@[i]).seed == (#[trigger] plates.regions@[j]).seed implies i
        == j by {
        assert(areas[i][0] == plates.spec_seeds()[i]);
        assert(areas[j][0] == plates.spec_seeds()[j]);
        assert(owner[mesh.spec_place(areas[i][0])] == i);
        assert(owner[mesh.spec_place(areas[j][0])] == j);
    }
}

/// Growth is a function of the seeds, the shape of the mesh and the seed of
/// the generators: two sets of plates grown from the same seeds on meshes
/// of the same shape, with the same seed, have the same map, the same areas
/// and the same directions.
pub proof fn lemma_growth_deterministic(
    first: Plates,
    second: Plates,
    here: Mesh,
    there: Mesh,
    seeds: Seq<Coord>,
    rng_seed: u64,
)
    requires
        here.spec_shape() == there.spec_shape(),
        first.spec_grown_from(here.spec_shape(), seeds, rng_seed),
        second.spec_grown_from(there.spec_shape(), seeds, rng_seed),
    ensures
        first.spec_owner() == second.spec_owner(),
        spec_areas(first.regions@) == spec_areas(second.regions@),
        first.spec_plate_directions() == second.spec_plate_directions(),
{
}

/// The path of a slope is a function of the shape of the mesh, the seed and
/// the target: two slopes traced between the same hexes on meshes of the
/// same shape have the same path.
pub proof fn lemma_trace_deterministic(
    first: Slope,
    second: Slope,
    here: Mesh,
    there: Mesh,
    seed: Coord,
    target: Coord,
)
    requires
        here.spec_shape() == there.spec_shape(),
        first.hexes@ == spec_trace(here.spec_shape(), seed, target),
        second.hexes@ == spec_trace(there.spec_shape(), seed, target),
    ensures
        first.hexes@ == second.hexes@,
{
}

} // verus!
