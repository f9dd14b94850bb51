//! What the slopes do to the elevation of the hexes: the adjustments, in the
//! order in which they are made, and their application to a field of
//! elevations.

use crate::mesh::Coord;
use crate::mesh::Mesh;
use crate::mesh::Shape;
use crate::topography::interaction::Effect;
use crate::topography::plates::Plate;
use crate::topography::plates::Plates;
use crate::topography::plates::Slope;
use vstd::prelude::*;

verus! {

/// One change to the elevation of one hex.
#[derive(Clone, Copy, Debug, PartialEq, Eq, Structural)]
pub struct Adjustment {
    pub hex: Coord,
    pub effect: Effect,
}

/// The adjustments of one slope: one for each of its hexes, from the seed
/// outwards.
pub open spec fn spec_slope_adjustments(slope: Slope) -> Seq<Adjustment> {
    Seq::new(
        slope.hexes@.len(),
        |k: int|
            Adjustment {
                hex: slope.hexes@[k],
                effect: slope.variant.spec_effect(k, slope.hexes@.len() as int),
            },
    )
}

/// The adjustments of the first `upto` slopes, slope after slope.
pub open spec fn spec_slopes_adjustments(slopes: Seq<Slope>, upto: nat) -> Seq<Adjustment>
    decreases upto,
{
    if upto == 0 || upto > slopes.len() {
        Seq::empty()
    } else {
        spec_slopes_adjustments(slopes, (upto - 1) as nat) + spec_slope_adjustments(
            slopes[upto - 1],
        )
    }
}

/// The adjustments of the first `upto` plates, plate after plate.
pub open spec fn spec_plates_adjustments(regions: Seq<Plate>, upto: nat) -> Seq<Adjustment>
    decreases upto,
{
    if upto == 0 || upto > regions.len() {
        Seq::empty()
    } else {
        spec_plates_adjustments(regions, (upto - 1) as nat) + spec_slopes_adjustments(
            regions[upto - 1].slopes@,
            regions[upto - 1].slopes@.len(),
        )
    }
}

/// Whether `after` differs from `mid` by one adjustment: the elevation of
/// the adjusted hex is what one call of `f` made of it, and every other
/// elevation is the same.
pub open spec fn spec_adjusted<T, F: Fn(T, Effect) -> T>(
    f: F,
    shape: Shape,
    mid: Seq<T>,
    adjustment: Adjustment,
    after: Seq<T>,
) -> bool {
    let place = shape.spec_place(adjustment.hex) as int;
    &&& after.len() == mid.len()
    &&& 0 <= place < mid.len()
    &&& f.ensures((mid[place], adjustment.effect), after[place])
    &&& forall|q: int| 0 <= q < mid.len() && q != place ==> after[q] == mid[q]
}

/// Whether `after` is what the field `before` comes to when the adjustments
/// are made one after the other, each by one call of `f` on the elevation
/// that the hex has by then.
pub open spec fn spec_applied<T, F: Fn(T, Effect) -> T>(
    f: F,
    shape: Shape,
    before: Seq<T>,
    adjustments: Seq<Adjustment>,
    after: Seq<T>,
) -> bool
    decreases adjustments.len(),
{
    if adjustments.len() == 0 {
        after == before
    } else {
        exists|mid: Seq<T>|
            spec_applied(f, shape, before, adjustments.drop_last(), mid)
                && #[trigger] spec_adjusted(
                f,
                shape,
                mid,
                adjustments.last(),
                after,
            )
    }
}

/// One more adjustment: when `mid` is what the field comes to by all
/// adjustments but the last, and `after` differs from `mid` by the last,
/// then `after` is what the field comes to by all of them.
pub proof fn lemma_applied_step<T, F: Fn(T, Effect) -> T>(
    f: F,
    mesh: Mesh,
    before: Seq<T>,
    adjustments: Seq<Adjustment>,
    mid: Seq<T>,
    after: Seq<T>,
)
    requires
        adjustments.len() > 0,
        spec_applied(f, mesh.spec_shape(), before, adjustments.drop_last(), mid),
        spec_adjusted(f, mesh.spec_shape(), mid, adjustments.last(), after),
    ensures
        spec_applied(f, mesh.spec_shape(), before, adjustments, after),
{
}

/// Elevations that no adjustment is made to stay what they were: when
/// `after` is what `before` comes to by the adjustments, and none of them
/// is made to the hex at `c`, the elevation of that hex is the same in both.
pub proof fn lemma_untouched<T, F: Fn(T, Effect) -> T>(
    f: F,
    shape: Shape,
    before: Seq<T>,
    adjustments: Seq<Adjustment>,
    after: Seq<T>,
    c: Coord,
)
    requires
        spec_applied(f, shape, before, adjustments, after),
        0 <= shape.spec_place(c) < before.len(),
        forall|k: int|
            0 <= k < adjustments.len() ==> shape.spec_place((#[trigger] adjustments[k]).hex)
                != shape.spec_place(c),
    ensures
        after.len() == before.len(),
        after[shape.spec_place(c) as int] == before[shape.spec_place(c) as int],
    decreases adjustments.len(),
{
    if adjustments.len() > 0 {
        let mid = choose|mid: Seq<T>|
            spec_applied(f, shape, before, adjustments.drop_last(), mid) && #[trigger] spec_adjusted(
                f,
                shape,
                mid,
                adjustments.last(),
                after,
            );
        assert forall|k: int| 0 <= k < adjustments.drop_last().len() implies shape.spec_place(
            (#[trigger] adjustments.drop_last()[k]).hex,
        ) != shape.spec_place(c) by {
            assert(adjustments.drop_last()[k] == adjustments[k]);
        }
        lemma_untouched(f, shape, before, adjustments.drop_last(), mid, c);
        assert(adjustments[adjustments.len() - 1] == adjustments.last());
    }
}

impl Plates {
    /// Whether the hex at `c` lies on a slope.
    pub open spec fn spec_on_slope(self, c: Coord) -> bool {
        exists|i: int, s: int, k: int|
            0 <= i < self.regions@.len() && 0 <= s < self.regions@[i].slopes@.len() && 0 <= k
                < self.regions@[i].slopes@[s].hexes@.len()
                && #[trigger] self.regions@[i].slopes@[s].hexes@[k] == c
    }

    /// All adjustments, in the order in which they are made: plate after
    /// plate, slope after slope, from the seed outwards.
    pub open spec fn spec_adjustments(self) -> Seq<Adjustment> {
        spec_plates_adjustments(self.regions@, self.regions@.len())
    }

    /// All adjustments that the slopes make to elevations, in the order in
    /// which they are made: plate after plate, slope after slope, and along
    /// each slope from the seed outwards.
    pub fn adjustments(&self) -> (r: Vec<Adjustment>)
        ensures
            r@ == self.spec_adjustments(),
    {
        let mut all: Vec<Adjustment> = Vec::new();
        let mut i: usize = 0;
        while i < self.regions.len()
            invariant
                i <= self.regions@.len(),
                all@ == spec_plates_adjustments(self.regions@, i as nat),
            decreases self.regions@.len() - i,
        {
            let plate = &self.regions[i];
            let ghost plates_before = all@;
            let mut s: usize = 0;
            while s < plate.slopes.len()
                invariant
                    i < self.regions@.len(),
                    *plate == self.regions@[i as int],
                    s <= plate.slopes@.len(),
                    all@ == plates_before + spec_slopes_adjustments(plate.slopes@, s as nat),
                decreases plate.slopes@.len() - s,
            {
                let slope = &plate.slopes[s];
                let ghost slopes_before = all@;
                let len = slope.hexes.len();
                let mut k: usize = 0;
                while k < len
                    invariant
                        len == slope.hexes@.len(),
                        k <= len,
                        all@ == slopes_before + spec_slope_adjustments(*slope).take(k as int),
                    decreases len - k,
                {
                    let ghost so_far = all@;
                    all.push(
                        Adjustment { hex: slope.hexes[k], effect: slope.variant.effect(k, len) },
                    );
                    proof {
                        assert(all@ =~= slopes_before + spec_slope_adjustments(*slope).take(
                            k + 1,
                        ));
                    }
                    k += 1;
                }
                proof {
                    assert(spec_slope_adjustments(*slope).take(len as int)
                        =~= spec_slope_adjustments(*slope));
                    assert(all@ =~= plates_before + spec_slopes_adjustments(
                        plate.slopes@,
                        (s + 1) as nat,
                    ));
                }
                s += 1;
            }
            i += 1;
        }
        all
    }

    /// Every adjustment is made to a hex that lies on a slope.
    pub proof fn lemma_adjustments_on_slopes(self, k: int)
        requires
            0 <= k < self.spec_adjustments().len(),
        ensures
            self.spec_on_slope(self.spec_adjustments()[k].hex),
    {
        self.lemma_plates_adjustments_on_slopes(self.regions@.len(), k);
    }

    /// Every adjustment of the first `upto` plates is made to a hex that
    /// lies on a slope.
    pub proof fn lemma_plates_adjustments_on_slopes(self, upto: nat, k: int)
        requires
            upto <= self.regions@.len(),
            0 <= k < spec_plates_adjustments(self.regions@, upto).len(),
        ensures
            self.spec_on_slope(spec_plates_adjustments(self.regions@, upto)[k].hex),
        decreases upto,
    {
        let before = spec_plates_adjustments(self.regions@, (upto - 1) as nat);
        if k < before.len() {
            self.lemma_plates_adjustments_on_slopes((upto - 1) as nat, k);
        } else {
            let slopes = self.regions@[upto - 1].slopes@;
            self.lemma_slopes_adjustments_on_slopes(upto - 1, slopes.len(), k - before.len());
        }
    }

    /// Every adjustment of the first `upto` slopes of the plate at `i` is
    /// made to a hex that lies on a slope.
    pub proof fn lemma_slopes_adjustments_on_slopes(self, i: int, upto: nat, k: int)
        requires
            0 <= i < self.regions@.len(),
            upto <= self.regions@[i].slopes@.len(),
            0 <= k < spec_slopes_adjustments(self.regions@[i].slopes@, upto).len(),
        ensures
            self.spec_on_slope(spec_slopes_adjustments(self.regions@[i].slopes@, upto)[k].hex),
        decreases upto,
    {
        let slopes = self.regions@[i].slopes@;
        let before = spec_slopes_adjustments(slopes, (upto - 1) as nat);
        if k < before.len() {
            self.lemma_slopes_adjustments_on_slopes(i, (upto - 1) as nat, k);
        } else {
            let at = k - before.len();
            assert(self.regions@[i].slopes@[upto - 1].hexes@[at] == spec_slopes_adjustments(
                slopes,
                upto,
            )[k].hex);
        }
    }
}

/// Whether the field holds, for every hex of the mesh, what `sample` gave
/// for that hex.
pub open spec fn spec_sampled<T, S: Fn(Coord) -> T>(
    sample: S,
    shape: Shape,
    field: Seq<T>,
) -> bool {
    &&& field.len() == shape.spec_size()
    &&& forall|c: Coord|
        shape.spec_contains(c) ==> sample.ensures(
            (c,),
            field[#[trigger] shape.spec_place(c) as int],
        )
}

/// The field of base elevations: for every hex of the mesh, at the number
/// of the hex, what one call of `sample` gives for it.
pub fn build<T, S: Fn(Coord) -> T>(mesh: &Mesh, sample: &S) -> (r: Vec<T>)
    requires
        mesh.wf(),
        forall|c: Coord| sample.requires((c,)),
    ensures
        spec_sampled(*sample, mesh.spec_shape(), r@),
{
    let size = mesh.size();
    let mut field: Vec<T> = Vec::new();
    let mut x: i32 = 0;
    while x < mesh.width
        invariant
            mesh.wf(),
            0 <= x <= mesh.width,
            forall|c: Coord| sample.requires((c,)),
            field@.len() == x * mesh.height,
            forall|c: Coord|
                0 <= c.x < x && 0 <= c.y < mesh.height ==> sample.ensures(
                    (c,),
                    field@[#[trigger] mesh.spec_place(c) as int],
                ),
        decreases mesh.width - x,
    {
        let mut y: i32 = 0;
        while y < mesh.height
            invariant
                mesh.wf(),
                0 <= x < mesh.width,
                0 <= y <= mesh.height,
                forall|c: Coord| sample.requires((c,)),
                field@.len() == x * mesh.height + y,
                forall|c: Coord|
                    (0 <= c.x < x && 0 <= c.y < mesh.height) || (c.x == x && 0 <= c.y < y)
                        ==> sample.ensures((c,), field@[#[trigger] mesh.spec_place(c) as int]),
            decreases mesh.height - y,
        {
            let coord = Coord::new(x, y);
            let value = sample(coord);
            proof {
                crate::mesh::lemma_cell_index(x as int, y as int, mesh.height as int);
                assert forall|c: Coord|
                    (0 <= c.x < x && 0 <= c.y < mesh.height) || (c.x == x && 0 <= c.y < y) implies 0
                    <= #[trigger] mesh.spec_place(c) < x * mesh.height + y by {
                    crate::mesh::lemma_cell_index_order(
                        c.x as int,
                        c.y as int,
                        x as int,
                        y as int,
                        mesh.height as int,
                    );
                }
            }
            let ghost before = field@;
            field.push(value);
            proof {
                crate::mesh::laws::lemma_place_injective(*mesh, coord, coord);
                assert(mesh.spec_place(coord) == x * mesh.height + y);
                assert forall|c: Coord|
                    (0 <= c.x < x && 0 <= c.y < mesh.height) || (c.x == x && 0 <= c.y < y + 1)
                        implies sample.ensures(
                    (c,),
                    field@[#[trigger] mesh.spec_place(c) as int],
                ) by {
                    if c == coord {
                        assert(field@[mesh.spec_place(c) as int] == value);
                    } else {
                        assert(field@[mesh.spec_place(c) as int] == before[mesh.spec_place(
                            c,
                        ) as int]);
                    }
                }
            }
            y += 1;
        }
        proof {
            assert(x * mesh.height + mesh.height == (x + 1) * mesh.height) by (nonlinear_arith);
        }
        x += 1;
    }
    proof {
        assert forall|c: Coord| mesh.spec_shape().spec_contains(c) implies sample.ensures(
            (c,),
            field@[#[trigger] mesh.spec_shape().spec_place(c) as int],
        ) by {
            assert(mesh.spec_place(c) == mesh.spec_shape().spec_place(c));
        }
    }
    field
}

/// Makes all adjustments of the slopes to a field of elevations, one after
/// the other in the order of `adjustments`. The field holds the elevation
/// of each hex at the number of the hex. The elevation of a hex changes
/// only by calls of `f`, one for each adjustment to that hex: the elevation
/// of a hex that lies on no slope stays what it was.
pub fn apply_slopes<T: Copy, F: Fn(T, Effect) -> T>(
    elevations: &mut Vec<T>,
    plates: &Plates,
    mesh: &Mesh,
    f: &F,
)
    requires
        plates.wf(*mesh),
        old(elevations)@.len() == mesh.spec_size(),
        forall|e: T, effect: Effect| f.requires((e, effect)),
    ensures
        final(elevations)@.len() == old(elevations)@.len(),
        spec_applied(
            *f,
            mesh.spec_shape(),
            old(elevations)@,
            plates.spec_adjustments(),
            final(elevations)@,
        ),
        forall|c: Coord|
            mesh.spec_contains(c) && !plates.spec_on_slope(c)
                ==> final(elevations)@[mesh.spec_place(c) as int] == old(
                elevations,
            )@[#[trigger] mesh.spec_place(c) as int],
{
    let adjustments = plates.adjustments();
    let size = mesh.size();
    let ghost all = adjustments@;
    let mut k: usize = 0;
    proof {
        assert(all.take(0) =~= Seq::<Adjustment>::empty());
        assert forall|j: int| 0 <= j < all.len() implies mesh.spec_contains(
            (#[trigger] all[j]).hex,
        ) && plates.spec_on_slope(all[j].hex) by {
            plates.lemma_adjustments_on_slopes(j);
            let c = all[j].hex;
            let (i, s, h) = choose|i: int, s: int, h: int|
                0 <= i < plates.regions@.len() && 0 <= s < plates.regions@[i].slopes@.len() && 0
                    <= h < plates.regions@[i].slopes@[s].hexes@.len()
                    && #[trigger] plates.regions@[i].slopes@[s].hexes@[h] == c;
            assert(mesh.spec_contains(plates.regions@[i].slopes@[s].hexes@[h]));
        }
    }
    while k < adjustments.len()
        invariant
            mesh.wf(),
            all == adjustments@,
            k <= all.len(),
            elevations@.len() == old(elevations)@.len(),
            elevations@.len() == mesh.spec_size(),
            mesh.spec_size() <= 0x4000_0000,
            forall|e: T, effect: Effect| f.requires((e, effect)),
            forall|j: int|
                0 <= j < all.len() ==> mesh.spec_contains((#[trigger] all[j]).hex)
                    && plates.spec_on_slope(all[j].hex),
            spec_applied(*f, mesh.spec_shape(), old(elevations)@, all.take(k as int), elevations@),
            forall|c: Coord|
                mesh.spec_contains(c) && !plates.spec_on_slope(c) ==> elevations@[mesh.spec_place(
                    c,
                ) as int] == old(elevations)@[#[trigger] mesh.spec_place(c) as int],
        decreases all.len() - k,
    {
        let adjustment = adjustments[k];
        let ghost mid = elevations@;
        proof {
            assert(mesh.spec_contains(all[k as int].hex));
        }
        let place = mesh.place(adjustment.hex) as usize;
        let value = f(elevations[place], adjustment.effect);
        elevations[place] = value;
        proof {
            let now = all.take(k + 1);
            let after = elevations@;
            assert(now.drop_last() =~= all.take(k as int));
            assert(now.last() == adjustment);
            assert(after =~= mid.update(place as int, value));
            assert(place as int == mesh.spec_place(now.last().hex) as int);
            assert(f.ensures((mid[place as int], adjustment.effect), after[place as int]));
            assert(spec_adjusted(*f, mesh.spec_shape(), mid, now.last(), after));
            assert(spec_applied(*f, mesh.spec_shape(), old(elevations)@, now.drop_last(), mid));
            lemma_applied_step(*f, *mesh, old(elevations)@, now, mid, after);
            assert(plates.spec_on_slope(all[k as int].hex));
            assert forall|c: Coord|
                mesh.spec_contains(c) && !plates.spec_on_slope(c) implies after[mesh.spec_place(
                c,
            ) as int] == old(elevations)@[#[trigger] mesh.spec_place(c) as int] by {
                crate::mesh::laws::lemma_place_injective(*mesh, c, adjustment.hex);
                assert(c != adjustment.hex);
                assert(mesh.spec_place(c) as int != place as int);
                assert(mid[mesh.spec_place(c) as int] == old(elevations)@[mesh.spec_place(
                    c,
                ) as int]);
            }
        }
        k += 1;
    }
    proof {
        assert(all.take(all.len() as int) =~= all);
    }
}

} // verus!
