//! Tectonic plates over the mesh, and what they do to the elevation of the
//! hexes.

pub mod bearings;
pub mod borders;
pub mod elevation;
pub mod growth;
pub mod interaction;
pub mod laws;
pub mod plates;
pub mod seeds;
pub mod slopes;

use crate::cmd::GenerateOptions;
use crate::cmd::MAX_DIMENSION;
use crate::mesh::lemma_cell_index;
use crate::mesh::Coord;
use crate::mesh::Mesh;
use crate::topography::bearings::Bearings;
use crate::topography::borders::spec_border_view;
use crate::topography::elevation::apply_slopes;
use crate::topography::elevation::build;
use crate::topography::elevation::spec_applied;
use crate::topography::elevation::spec_sampled;
use crate::topography::interaction::Effect;
pub use crate::topography::interaction::InteractionVariant;
use crate::topography::plates::spec_areas;
use crate::topography::plates::Plates;
use crate::topography::seeds::spec_seeding;
use crate::topography::seeds::SeedError;
use crate::topography::seeds::MAX_SEED_ATTEMPTS;
use crate::topography::seeds::MIN_SEEDED_DIMENSION;
use crate::topography::seeds::SEED_COUNT;
use crate::topography::slopes::spec_slopes_view;
use crate::utils::random::pcg_seeded;
use vstd::prelude::*;

verus! {

/// The topography of a map: its plates, the bearings between their seeds,
/// and the elevation of every hex, held column after column.
pub struct Topography<T> {
    pub elevations: Vec<T>,
    pub plates: Plates,
    pub bearings: Bearings,
    pub width: i32,
    pub height: i32,
}

impl Plates {
    /// Whether borders and slopes are those of the plates: every plate has
    /// the borders that its area gives, and the slopes that its borders
    /// give.
    pub open spec fn spec_complete(self, mesh: Mesh, bearings: Bearings) -> bool {
        &&& self.wf(mesh)
        &&& forall|i: int|
            0 <= i < self.regions@.len() ==> spec_border_view(
                (#[trigger] self.regions@[i]).border@,
            ) == self.spec_border(mesh.spec_shape(), bearings, i) && spec_slopes_view(
                self.regions@[i].slopes@,
            )
                == self.spec_plate_slopes(mesh.spec_shape(), i)
    }

    /// The seeds of the plates, plate after plate.
    pub fn seeds_list(&self) -> (r: Vec<Coord>)
        ensures
            r@ == self.spec_seeds(),
    {
        let mut seeds: Vec<Coord> = Vec::new();
        let mut i: usize = 0;
        while i < self.regions.len()
            invariant
                i <= self.regions@.len(),
                seeds@.len() == i,
                forall|k: int| 0 <= k < i ==> seeds@[k] == (#[trigger] self.regions@[k]).seed,
            decreases self.regions@.len() - i,
        {
            seeds.push(self.regions[i].seed);
            i += 1;
        }
        proof {
            assert(seeds@ =~= self.spec_seeds());
        }
        seeds
    }
}

impl<T: Copy> Topography<T> {
    /// The invariant of a topography: it holds one elevation for every hex
    /// of a map of its width and height.
    pub open spec fn wf(self) -> bool {
        &&& 1 <= self.width <= MAX_DIMENSION
        &&& 1 <= self.height <= MAX_DIMENSION
        &&& self.elevations@.len() == self.width * self.height
    }

    /// The topography of the map that the options describe. The base
    /// elevation of each hex is what `sample` gives for it. Plates are
    /// seeded and grown with `options.seed`; `bearing` gives the bearing in
    /// degrees of the line from one seed to another; borders and slopes are
    /// found, and every adjustment of every slope is made to the elevations
    /// by one call of `effect`, in the order of `Plates::adjustments`.
    ///
    /// Fails when the seeds cannot be placed on the mesh, and only then.
    pub fn new<S: Fn(Coord) -> T, B: Fn(Coord, Coord) -> u32, F: Fn(T, Effect) -> T>(
        options: &GenerateOptions,
        mesh: &Mesh,
        sample: &S,
        bearing: &B,
        effect: &F,
    ) -> (r: Result<Topography<T>, SeedError>)
        requires
            mesh.wf(),
            forall|c: Coord| sample.requires((c,)),
            forall|from: Coord, to: Coord| bearing.requires((from, to)),
            forall|e: T, change: Effect| effect.requires((e, change)),
        ensures
            mesh.width < MIN_SEEDED_DIMENSION || mesh.height < MIN_SEEDED_DIMENSION ==> r
                is Err && r->Err_0 == SeedError::InvalidDimensions,
            mesh.width >= MIN_SEEDED_DIMENSION && mesh.height >= MIN_SEEDED_DIMENSION ==> (
            match spec_seeding(
                pcg_seeded(options.seed),
                Seq::empty(),
                mesh.offset_mode,
                mesh.width as u32,
                mesh.height as u32,
                SEED_COUNT,
                MAX_SEED_ATTEMPTS as nat,
            ) {
                Some(s) => r is Ok && r->Ok_0.plates.spec_seeds() == s
                    && r->Ok_0.plates.spec_grown_from(mesh.spec_shape(), s, options.seed),
                None => r is Err && r->Err_0 == SeedError::AttemptsExhausted,
            }),
            r is Ok ==> {
                &&& r->Ok_0.wf()
                &&& r->Ok_0.width == mesh.width
                &&& r->Ok_0.height == mesh.height
                &&& r->Ok_0.bearings.spec_measured(r->Ok_0.plates.spec_seeds(), *bearing)
                &&& r->Ok_0.plates.spec_complete(*mesh, r->Ok_0.bearings)
                &&& exists|base: Seq<T>| #[trigger]
                    spec_sampled(*sample, mesh.spec_shape(), base) && spec_applied(
                        *effect,
                        mesh.spec_shape(),
                        base,
                        r->Ok_0.plates.spec_adjustments(),
                        r->Ok_0.elevations@,
                    )
                &&& forall|c: Coord|
                    mesh.spec_contains(c) && !r->Ok_0.plates.spec_on_slope(c) ==> sample.ensures(
                        (c,),
                        r->Ok_0.elevations@[#[trigger] mesh.spec_place(c) as int],
                    )
            },
    {
        let size = mesh.size();
        let mut elevations = build(mesh, sample);
        let ghost base = elevations@;
        let mut plates = match Plates::new(options, mesh) {
            Err(e) => {
                return Err(e);
            },
            Ok(plates) => plates,
        };
        let ghost grown = plates;
        let seeds = plates.seeds_list();
        let bearings = Bearings::measure(&seeds, bearing);
        plates.borders(mesh, &bearings);
        let ghost bordered = plates;
        plates.slopes(mesh);
        proof {
            assert(spec_areas(plates.regions@) =~= spec_areas(grown.regions@));
            assert(plates.spec_seeds() =~= grown.spec_seeds());
            assert(plates.spec_plate_directions() =~= grown.spec_plate_directions());
            assert forall|i: int| 0 <= i < plates.regions@.len() implies spec_border_view(
                (#[trigger] plates.regions@[i]).border@,
            ) == plates.spec_border(mesh.spec_shape(), bearings, i) && spec_slopes_view(
                plates.regions@[i].slopes@,
            ) == plates.spec_plate_slopes(mesh.spec_shape(), i) by {
                bordered.lemma_same_plates(grown, *mesh, bearings, i);
                plates.lemma_same_plates(bordered, *mesh, bearings, i);
                assert(plates.regions@[i].border == bordered.regions@[i].border);
            }
        }
        apply_slopes(&mut elevations, &plates, mesh, effect);
        proof {
            assert forall|c: Coord|
                mesh.spec_contains(c) && !plates.spec_on_slope(c) implies sample.ensures(
                (c,),
                elevations@[#[trigger] mesh.spec_place(c) as int],
            ) by {
                assert(mesh.spec_shape().spec_contains(c));
                assert(mesh.spec_shape().spec_place(c) == mesh.spec_place(c));
            }
        }
        Ok(Topography { elevations, plates, bearings, width: mesh.width, height: mesh.height })
    }

    /// The elevation of the hex at column `x` and row `y`.
    pub fn get_hex(&self, x: i32, y: i32) -> (r: &T)
        requires
            self.wf(),
            0 <= x < self.width,
            0 <= y < self.height,
        ensures
            *r == self.elevations@[x * self.height + y],
    {
        proof {
            lemma_cell_index(x as int, y as int, self.height as int);
            assert((x + 1) * self.height <= self.width * self.height) by (nonlinear_arith)
                requires
                    x + 1 <= self.width,
                    0 < self.height,
            ;
            assert(self.width * self.height <= MAX_DIMENSION * MAX_DIMENSION) by (nonlinear_arith)
                requires
                    0 < self.width <= MAX_DIMENSION,
                    0 < self.height <= MAX_DIMENSION,
            ;
        }
        &self.elevations[(x as usize) * (self.height as usize) + (y as usize)]
    }
}

} // verus!
