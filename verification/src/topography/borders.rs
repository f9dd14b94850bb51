//! The borders of the plates: for each plate and each of its neighbours, the
//! hexes of the plate that touch the neighbour, and how the two plates act
//! on each other.

use crate::mesh::Coord;
use crate::mesh::Mesh;
use crate::mesh::Shape;
use crate::topography::bearings::Bearings;
use crate::topography::interaction::InteractionVariant;
use crate::topography::plates::spec_areas;
use crate::topography::plates::spec_visited;
use crate::topography::plates::Interaction;
use crate::topography::plates::NeighborId;
use crate::topography::plates::Plates;
use crate::utils::keyed::key_map_get;
use vstd::prelude::*;

verus! {

/// Whether one of the first `upto` neighbours belongs to the plate at `plate`.
pub open spec fn spec_owned_upto(
    shape: Shape,
    owner: Map<u64, u64>,
    neighbors: Seq<(Coord, bool)>,
    plate: int,
    upto: int,
) -> bool {
    exists|j: int|
        0 <= j < upto && j < neighbors.len() && owner[shape.spec_place((#[trigger] neighbors[j]).0)]
            == plate
}

/// What a border comes to: the neighbour, how the plates act on each other,
/// and the hexes that touch the neighbour.
pub open spec fn spec_border_view(border: Seq<(NeighborId, Interaction)>) -> Seq<
    (NeighborId, InteractionVariant, Seq<Coord>),
> {
    Seq::new(border.len(), |k: int| (border[k].0, border[k].1.variant, border[k].1.segment@))
}

impl Plates {
    /// Whether the hex at `c`, of the plate at `i`, touches the neighbour
    /// with number `slot`. Number 0 is the edge of the map, which a hex
    /// touches when it has fewer than six neighbours. Number `o + 1` is the
    /// plate at `o`, which a hex with six neighbours touches when one of
    /// them belongs to that plate.
    pub open spec fn spec_touches(self, shape: Shape, i: int, c: Coord, slot: int) -> bool {
        let neighbors = shape.spec_neighbors(c);
        if slot == 0 {
            neighbors.len() < 6
        } else {
            neighbors.len() >= 6 && slot - 1 != i && spec_owned_upto(
                shape,
                self.spec_owner(),
                neighbors,
                slot - 1,
                neighbors.len() as int,
            )
        }
    }

    /// The test that `spec_touches` makes, as a function of the hex.
    pub open spec fn spec_touching(self, shape: Shape, i: int, slot: int) -> spec_fn(
        Coord,
    ) -> bool {
        |c: Coord| self.spec_touches(shape, i, c, slot)
    }

    /// The hexes of the plate at `i` that touch the neighbour with number
    /// `slot`, in the order of the plate's area.
    pub open spec fn spec_segment(self, shape: Shape, i: int, slot: int) -> Seq<Coord> {
        self.regions@[i].area@.filter(self.spec_touching(shape, i, slot))
    }

    /// The neighbour with number `slot`.
    pub open spec fn spec_slot_id(self, slot: int) -> NeighborId {
        if slot == 0 {
            NeighborId::MapEdge
        } else {
            NeighborId::Region(self.regions@[slot - 1].seed)
        }
    }

    /// How the plate at `i` and the neighbour with number `slot` act on each
    /// other: a plate and the edge of the map diverge; two plates are
    /// classified by their directions and sizes and by the bearing of the
    /// line between their seeds.
    pub open spec fn spec_slot_variant(
        self,
        bearings: Bearings,
        i: int,
        slot: int,
    ) -> InteractionVariant {
        if slot == 0 {
            InteractionVariant::Divergent
        } else {
            InteractionVariant::spec_new(
                bearings.spec_between(i, slot - 1) as int,
                self.regions@[i].direction as int,
                self.regions@[i].area@.len() as int,
                self.regions@[slot - 1].direction as int,
                self.regions@[slot - 1].area@.len() as int,
            )
        }
    }

    /// The borders of the plate at `i` with the first `k` neighbours, by
    /// number: one border for each neighbour that a hex of the plate touches.
    pub open spec fn spec_border_upto(
        self,
        shape: Shape,
        bearings: Bearings,
        i: int,
        k: nat,
    ) -> Seq<
        (NeighborId, InteractionVariant, Seq<Coord>),
    >
        decreases k,
    {
        if k == 0 {
            Seq::empty()
        } else {
            let before = self.spec_border_upto(shape, bearings, i, (k - 1) as nat);
            let segment = self.spec_segment(shape, i, k - 1);
            if segment.len() > 0 {
                before.push(
                    (self.spec_slot_id(k - 1), self.spec_slot_variant(bearings, i, k - 1), segment),
                )
            } else {
                before
            }
        }
    }

    /// The borders of the plate at `i`: first the one with the edge of the
    /// map, then those with other plates in the order of the plates, each
    /// only if a hex of the plate touches that neighbour.
    pub open spec fn spec_border(self, shape: Shape, bearings: Bearings, i: int) -> Seq<
        (NeighborId, InteractionVariant, Seq<Coord>),
    > {
        self.spec_border_upto(shape, bearings, i, (self.regions@.len() + 1) as nat)
    }

    /// The hexes collected for the neighbour with number `slot` when the
    /// first `t` hexes of the area were looked at, and of the next hex the
    /// first `j` neighbours.
    pub open spec fn spec_collected(self, shape: Shape, i: int, slot: int, t: int, j: int) -> Seq<
        Coord,
    > {
        let area = self.regions@[i].area@;
        let done = area.take(t).filter(self.spec_touching(shape, i, slot));
        if slot >= 1 && slot - 1 != i && t < area.len() && spec_owned_upto(
            shape,
            self.spec_owner(),
            shape.spec_neighbors(area[t]),
            slot - 1,
            j,
        ) {
            done.push(area[t])
        } else {
            done
        }
    }

    /// The place in `regions` of the plate that the hex at `c` belongs to.
    pub fn owner_of(&self, mesh: &Mesh, c: Coord) -> (r: usize)
        requires
            self.wf(*mesh),
            mesh.spec_contains(c),
        ensures
            r == self.spec_owner()[mesh.spec_place(c)],
            r < self.regions@.len(),
    {
        let key = mesh.place(c);
        let n = self.regions.len();
        proof {
            assert(spec_visited(*mesh, self.spec_owner(), c));
            assert(crate::topography::plates::spec_member(
                spec_areas(self.regions@),
                self.spec_owner()[mesh.spec_place(c)] as int,
                c,
            ));
        }
        proof {
            assert(spec_areas(self.regions@).len() == self.regions@.len());
            assert(0 <= self.spec_owner()[mesh.spec_place(c)] < self.regions@.len());
        }
        match key_map_get(&self.map, key) {
            Some(o) => o as usize,
            None => 0,
        }
    }

    /// The borders of the plate at `i`.
    pub fn border_of(&self, mesh: &Mesh, bearings: &Bearings, i: usize) -> (r: Vec<
        (NeighborId, Interaction),
    >)
        requires
            self.wf(*mesh),
            bearings.wf(self.regions@.len() as int),
            i < self.regions@.len(),
        ensures
            spec_border_view(r@) == self.spec_border(mesh.spec_shape(), *bearings, i as int),
            forall|b: int, k: int|
                0 <= b < r@.len() && 0 <= k < r@[b].1.segment@.len() ==> mesh.spec_contains(
                    #[trigger] r@[b].1.segment@[k],
                ),
    {
        let n = self.regions.len();
        let size = mesh.size();
        let ghost area = self.regions@[i as int].area@;
        let mut slots: Vec<Vec<Coord>> = Vec::new();
        let mut s: usize = 0;
        while s < n + 1
            invariant
                n == self.regions@.len(),
                n < usize::MAX,
                s <= n + 1,
                slots@.len() == s,
                forall|k: int| 0 <= k < s ==> (#[trigger] slots@[k])@ == Seq::<Coord>::empty(),
            decreases n + 1 - s,
        {
            slots.push(Vec::new());
            s += 1;
        }
        proof {
            reveal(Seq::filter);
            assert forall|slot: int| 0 <= slot <= n implies (#[trigger] slots@[slot])@
                == self.spec_collected(mesh.spec_shape(), i as int, slot, 0, 0) by {
                assert(area.take(0).filter(self.spec_touching(mesh.spec_shape(), i as int, slot))
                    =~= Seq::<Coord>::empty());
            }
        }
        let mut t: usize = 0;
        while t < self.regions[i].area.len()
            invariant
                self.wf(*mesh),
                n == self.regions@.len(),
                n < usize::MAX,
                i < n,
                area == self.regions@[i as int].area@,
                t <= area.len(),
                slots@.len() == n + 1,
                forall|slot: int|
                    0 <= slot <= n ==> (#[trigger] slots@[slot])@ == self.spec_collected(
                        mesh.spec_shape(),
                        i as int,
                        slot,
                        t as int,
                        0,
                    ),
            decreases area.len() - t,
        {
            let hex = self.regions[i].area[t];
            proof {
                assert(spec_areas(self.regions@)[i as int][t as int] == hex);
                assert(mesh.spec_contains(hex));
                crate::mesh::laws::lemma_neighbors_in_grid(
                    hex,
                    mesh.offset_mode,
                    mesh.width as int,
                    mesh.height as int,
                );
            }
            let cell = mesh.get_hex(hex.x, hex.y);
            let ghost neighbors = cell.neighbors@;
            if cell.neighbors.len() < 6 {
                slots[0].push(hex);
                proof {
                    assert forall|slot: int| 0 <= slot <= n implies (#[trigger] slots@[slot])@
                        == self.spec_collected(mesh.spec_shape(), i as int, slot, t + 1, 0) by {
                        self.lemma_collected_next(*mesh, i as int, slot, t as int);
                    }
                }
            } else {
                let mut j: usize = 0;
                while j < cell.neighbors.len()
                    invariant
                        self.wf(*mesh),
                        n == self.regions@.len(),
                        n < usize::MAX,
                        i < n,
                        area == self.regions@[i as int].area@,
                        t < area.len(),
                        hex == area[t as int],
                        mesh.spec_contains(hex),
                        *cell == mesh.spec_hex(hex),
                        neighbors == cell.neighbors@,
                        neighbors.len() == 6,
                        j <= neighbors.len(),
                        forall|k: int|
                            0 <= k < neighbors.len() ==> mesh.spec_contains(
                                (#[trigger] neighbors[k]).0,
                            ),
                        slots@.len() == n + 1,
                        forall|slot: int|
                            0 <= slot <= n ==> (#[trigger] slots@[slot])@ == self.spec_collected(
                                mesh.spec_shape(),
                                i as int,
                                slot,
                                t as int,
                                j as int,
                            ),
                    decreases neighbors.len() - j,
                {
                    let neighbor = cell.neighbors[j].0;
                    let o = self.owner_of(mesh, neighbor);
                    let ghost before = slots@;
                    if o != i {
                        let len = slots[o + 1].len();
                        let seen = len > 0 && slots[o + 1][len - 1] == hex;
                        proof {
                            self.lemma_seen(*mesh, i as int, o + 1, t as int, j as int);
                        }
                        if !seen {
                            slots[o + 1].push(hex);
                        }
                    }
                    proof {
                        assert(neighbors[j as int].0 == neighbor);
                        assert forall|slot: int| 0 <= slot <= n implies (#[trigger] slots@[slot])@
                            == self.spec_collected(
                                mesh.spec_shape(),
                                i as int,
                                slot,
                                t as int,
                                j + 1,
                            ) by {
                            assert(slot != o + 1 || o == i ==> slots@[slot] == before[slot]);
                            if slot >= 1 && slot - 1 != i {
                                if slot - 1 != o {
                                    assert(spec_owned_upto(
                                        mesh.spec_shape(),
                                        self.spec_owner(),
                                        neighbors,
                                        slot - 1,
                                        j + 1,
                                    ) == spec_owned_upto(
                                        mesh.spec_shape(),
                                        self.spec_owner(),
                                        neighbors,
                                        slot - 1,
                                        j as int,
                                    ));
                                } else {
                                    assert(spec_owned_upto(
                                        mesh.spec_shape(),
                                        self.spec_owner(),
                                        neighbors,
                                        slot - 1,
                                        j + 1,
                                    ));
                                }
                            }
                        }
                    }
                    j += 1;
                }
                proof {
                    assert forall|slot: int| 0 <= slot <= n implies (#[trigger] slots@[slot])@
                        == self.spec_collected(mesh.spec_shape(), i as int, slot, t + 1, 0) by {
                        self.lemma_collected_next(*mesh, i as int, slot, t as int);
                    }
                }
            }
            t += 1;
        }
        let mut border: Vec<(NeighborId, Interaction)> = Vec::new();
        let mut slot: usize = 0;
        proof {
            assert forall|k: int| 0 <= k <= n implies (#[trigger] slots@[k])@ == self.spec_segment(
                mesh.spec_shape(),
                i as int,
                k,
            ) by {
                assert(area.take(area.len() as int) =~= area);
            }
        }
        while slot < n + 1
            invariant
                self.wf(*mesh),
                bearings.wf(n as int),
                n == self.regions@.len(),
                n < usize::MAX,
                i < n,
                slot <= n + 1,
                slots@.len() == n + 1,
                forall|k: int|
                    slot <= k <= n ==> (#[trigger] slots@[k])@ == self.spec_segment(
                        mesh.spec_shape(),
                        i as int,
                        k,
                    ),
                spec_border_view(border@) == self.spec_border_upto(
                    mesh.spec_shape(),
                    *bearings,
                    i as int,
                    slot as nat,
                ),
                forall|b: int, k: int|
                    0 <= b < border@.len() && 0 <= k < border@[b].1.segment@.len()
                        ==> mesh.spec_contains(#[trigger] border@[b].1.segment@[k]),
            decreases n + 1 - slot,
        {
            if slots[slot].len() > 0 {
                let mut segment: Vec<Coord> = Vec::new();
                std::mem::swap(&mut slots[slot], &mut segment);
                let ghost before = spec_border_view(border@);
                let ghost borders_before = border@;
                proof {
                    self.lemma_segment_in_mesh(*mesh, i as int, slot as int);
                }
                let (id, variant) = if slot == 0 {
                    (NeighborId::MapEdge, InteractionVariant::Divergent)
                } else {
                    let o = slot - 1;
                    (
                        NeighborId::Region(self.regions[o].seed),
                        InteractionVariant::new(
                            bearings.between(i, o),
                            self.regions[i].direction,
                            self.regions[i].area.len(),
                            self.regions[o].direction,
                            self.regions[o].area.len(),
                        ),
                    )
                };
                border.push((id, Interaction { variant, segment }));
                proof {
                    assert(spec_border_view(border@) =~= before.push(
                        (id, variant, self.spec_segment(mesh.spec_shape(), i as int, slot as int)),
                    ));
                    assert forall|b: int, k: int|
                        0 <= b < border@.len() && 0 <= k < border@[b].1.segment@.len()
                            implies mesh.spec_contains(#[trigger] border@[b].1.segment@[k]) by {
                        if b < borders_before.len() {
                            assert(border@[b] == borders_before[b]);
                        }
                    }
                }
            }
            slot += 1;
        }
        border
    }

    /// The hexes of a border are hexes of the plate, and so of the mesh.
    pub proof fn lemma_segment_in_mesh(self, mesh: Mesh, i: int, slot: int)
        requires
            self.spec_partitioned(mesh),
            0 <= i < self.regions@.len(),
        ensures
            forall|k: int|
                0 <= k < self.spec_segment(mesh.spec_shape(), i, slot).len() ==> mesh.spec_contains(
                    #[trigger] self.spec_segment(mesh.spec_shape(), i, slot)[k],
                ) && self.regions@[i].area@.contains(
                    self.spec_segment(mesh.spec_shape(), i, slot)[k],
                ),
    {
        let area = self.regions@[i].area@;
        let segment = self.spec_segment(mesh.spec_shape(), i, slot);
        assert forall|k: int| 0 <= k < segment.len() implies mesh.spec_contains(
            #[trigger] segment[k],
        ) && area.contains(segment[k]) by {
            assert(segment.contains(segment[k]));
            area.lemma_filter_contains_rev(
                self.spec_touching(mesh.spec_shape(), i, slot),
                segment[k],
            );
            let at = choose|at: int| 0 <= at < area.len() && area[at] == segment[k];
            assert(spec_areas(self.regions@)[i][at] == area[at]);
        }
    }

    /// When all the neighbours of the hex at `t` were looked at, the hexes
    /// collected are those that touch the neighbour among the first `t + 1`
    /// hexes of the area.
    pub proof fn lemma_collected_next(self, mesh: Mesh, i: int, slot: int, t: int)
        requires
            0 <= i < self.regions@.len(),
            0 <= t < self.regions@[i].area@.len(),
        ensures
            self.spec_collected(mesh.spec_shape(), i, slot, t + 1, 0) == ({
                let area = self.regions@[i].area@;
                let done = area.take(t).filter(self.spec_touching(mesh.spec_shape(), i, slot));
                if self.spec_touches(mesh.spec_shape(), i, area[t], slot) {
                    done.push(area[t])
                } else {
                    done
                }
            }),
    {
        reveal(Seq::filter);
        let area = self.regions@[i].area@;
        assert(area.take(t + 1).drop_last() =~= area.take(t));
        assert(area.take(t + 1).last() == area[t]);
    }

    /// The hex at `t` is the last of the hexes collected for a neighbour only
    /// if one of its neighbours looked at so far belongs to that neighbour.
    pub proof fn lemma_seen(self, mesh: Mesh, i: int, slot: int, t: int, j: int)
        requires
            self.wf(mesh),
            0 <= i < self.regions@.len(),
            0 <= t < self.regions@[i].area@.len(),
            slot >= 1,
            slot - 1 != i,
        ensures
            ({
                let now = self.spec_collected(mesh.spec_shape(), i, slot, t, j);
                let hex = self.regions@[i].area@[t];
                (now.len() > 0 && now.last() == hex) == spec_owned_upto(
                    mesh.spec_shape(),
                    self.spec_owner(),
                    mesh.spec_hex(hex).neighbors@,
                    slot - 1,
                    j,
                )
            }),
    {
        let area = self.regions@[i].area@;
        let hex = area[t];
        let done = area.take(t).filter(self.spec_touching(mesh.spec_shape(), i, slot));
        assert(spec_areas(self.regions@)[i][t] == hex);
        assert(mesh.spec_contains(hex));
        assert(mesh.spec_hex(hex).neighbors@ == mesh.spec_shape().spec_neighbors(hex));
        if done.len() > 0 && done.last() == hex {
            assert(done.contains(done[done.len() - 1]));
            area.take(t).lemma_filter_contains_rev(
                self.spec_touching(mesh.spec_shape(), i, slot),
                hex,
            );
            let k = choose|k: int| 0 <= k < area.take(t).len() && area.take(t)[k] == hex;
            assert(spec_areas(self.regions@)[i][k] == area[k]);
            assert(spec_areas(self.regions@)[i][t] == area[t]);
            assert(false);
        }
    }

    /// Finds the borders of every plate. For each hex of a plate: a hex with
    /// fewer than six neighbours touches the edge of the map; any other
    /// touches every other plate that one of its neighbours belongs to. Each
    /// neighbour that a hex of the plate touches gets one border, with the
    /// hexes that touch it in the order of the plate's area. Nothing else
    /// about the plates changes.
    pub fn borders(&mut self, mesh: &Mesh, bearings: &Bearings)
        requires
            old(self).wf(*mesh),
            bearings.wf(old(self).regions@.len() as int),
        ensures
            final(self).wf(*mesh),
            final(self).spec_same_plates(*old(self)),
            forall|i: int|
                0 <= i < final(self).regions@.len() ==> spec_border_view(
                    (#[trigger] final(self).regions@[i]).border@,
                ) == old(self).spec_border(mesh.spec_shape(), *bearings, i)
                    && final(self).regions@[i].slopes
                    == old(self).regions@[i].slopes,
    {
        let n = self.regions.len();
        let mut i: usize = 0;
        while i < n
            invariant
                old(self).wf(*mesh),
                self.wf(*mesh),
                bearings.wf(n as int),
                n == old(self).regions@.len(),
                i <= n,
                self.spec_same_plates(*old(self)),
                forall|k: int|
                    0 <= k < n ==> (#[trigger] self.regions@[k]).slopes == old(
                        self,
                    ).regions@[k].slopes,
                forall|k: int|
                    0 <= k < i ==> spec_border_view((#[trigger] self.regions@[k]).border@) == old(
                        self,
                    ).spec_border(mesh.spec_shape(), *bearings, k),
            decreases n - i,
        {
            proof {
                self.lemma_same_plates(*old(self), *mesh, *bearings, i as int);
            }
            let border = self.border_of(mesh, bearings, i);
            let ghost before = *self;
            self.regions[i].border = border;
            proof {
                assert(self.spec_same_plates(before));
                self.lemma_same_plates(before, *mesh, *bearings, i as int);
                assert forall|a: int, b: int, k: int|
                    0 <= a < self.regions@.len() && 0 <= b < self.regions@[a].border@.len() && 0
                        <= k < self.regions@[a].border@[b].1.segment@.len()
                        implies mesh.spec_contains(
                    #[trigger] self.regions@[a].border@[b].1.segment@[k],
                ) by {
                    if a != i {
                        assert(self.regions@[a] == before.regions@[a]);
                    }
                }
                assert forall|a: int, c: int, k: int|
                    0 <= a < self.regions@.len() && 0 <= c < self.regions@[a].slopes@.len() && 0
                        <= k < self.regions@[a].slopes@[c].hexes@.len()
                        implies mesh.spec_contains(
                    #[trigger] self.regions@[a].slopes@[c].hexes@[k],
                ) by {
                    assert(self.regions@[a].slopes == before.regions@[a].slopes);
                }
            }
            i += 1;
        }
    }

    /// Whether the plates are those of `other` but for borders and slopes:
    /// the same map, and plate by plate the same seed, direction and area.
    pub open spec fn spec_same_plates(self, other: Plates) -> bool {
        &&& self.spec_owner() == other.spec_owner()
        &&& self.regions@.len() == other.regions@.len()
        &&& forall|k: int|
            0 <= k < self.regions@.len() ==> {
                &&& (#[trigger] self.regions@[k]).seed == other.regions@[k].seed
                &&& self.regions@[k].direction == other.regions@[k].direction
                &&& self.regions@[k].area@ == other.regions@[k].area@
            }
    }

    /// Borders depend on the map, the seeds, the directions and the areas
    /// only: plates that agree on these have the same borders, and give the
    /// hexes of the mesh to the same plates.
    pub proof fn lemma_same_plates(self, other: Plates, mesh: Mesh, bearings: Bearings, i: int)
        requires
            self.spec_same_plates(other),
            other.spec_partitioned(mesh),
            0 <= i < self.regions@.len(),
        ensures
            self.spec_partitioned(mesh),
            self.spec_border(mesh.spec_shape(), bearings, i) == other.spec_border(
                mesh.spec_shape(),
                bearings,
                i,
            ),
    {
        assert(spec_areas(self.regions@) =~= spec_areas(other.regions@));
        assert(self.spec_seeds() =~= other.spec_seeds());
        self.lemma_same_border_upto(other, mesh, bearings, i, (self.regions@.len() + 1) as nat);
    }

    /// Plates that agree on map, seeds, directions and areas have the same
    /// borders with the first `k` neighbours.
    pub proof fn lemma_same_border_upto(
        self,
        other: Plates,
        mesh: Mesh,
        bearings: Bearings,
        i: int,
        k: nat,
    )
        requires
            self.spec_same_plates(other),
            0 <= i < self.regions@.len(),
            k <= self.regions@.len() + 1,
        ensures
            self.spec_border_upto(mesh.spec_shape(), bearings, i, k) == other.spec_border_upto(
                mesh.spec_shape(),
                bearings,
                i,
                k,
            ),
        decreases k,
    {
        if k > 0 {
            self.lemma_same_border_upto(other, mesh, bearings, i, (k - 1) as nat);
            assert(self.spec_touching(mesh.spec_shape(), i, k - 1) == other.spec_touching(
                mesh.spec_shape(),
                i,
                k - 1,
            )) by {
                assert forall|c: Coord| #[trigger]
                    self.spec_touches(mesh.spec_shape(), i, c, k - 1) == other.spec_touches(
                        mesh.spec_shape(),
                        i,
                        c,
                        k - 1,
                    ) by {}
                assert(self.spec_touching(mesh.spec_shape(), i, k - 1) =~= other.spec_touching(
                    mesh.spec_shape(),
                    i,
                    k - 1,
                ));
            }
        }
    }
}

} // verus!
