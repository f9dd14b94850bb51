//! Tectonic plates: regions of the mesh that grow from seeds until every hex
//! belongs to one of them.

use crate::cmd::GenerateOptions;
use crate::mesh::laws::lemma_neighbors_in_grid;
use crate::mesh::laws::lemma_place_injective;
use crate::mesh::spec_adjacent;
use crate::mesh::spec_neighbors;
use crate::mesh::Coord;
use crate::mesh::Mesh;
use crate::mesh::Shape;
use crate::topography::growth::lemma_all_visited;
use crate::topography::growth::lemma_join;
use crate::topography::growth::lemma_take;
pub use crate::topography::interaction::InteractionVariant;
use crate::topography::seeds::seeds;
use crate::topography::seeds::spec_seeding;
use crate::topography::seeds::spec_seeds_valid;
use crate::topography::seeds::SeedError;
use crate::topography::seeds::MAX_SEED_ATTEMPTS;
use crate::topography::seeds::MIN_SEEDED_DIMENSION;
use crate::topography::seeds::SEED_COUNT;
use crate::utils::keyed::key_map_get;
use crate::utils::keyed::key_map_insert;
use crate::utils::keyed::key_map_new;
use crate::utils::keyed::key_map_view;
use crate::utils::keyed::KeyMap;
use crate::utils::queues::spec_without;
use crate::utils::queues::FIRO;
use crate::utils::random::pcg_between;
use crate::utils::random::pcg_from_seed;
use crate::utils::random::pcg_gen_between;
use crate::utils::random::pcg_seeded;
use crate::utils::random::pcg_state;
use crate::utils::random::std_rng_below;
use crate::utils::random::std_rng_seeded;
use vstd::prelude::*;

verus! {

/// What a plate borders on: another plate, named by its seed, or the edge of
/// the map.
#[derive(Clone, Copy, Debug, PartialEq, Eq, Structural)]
pub enum NeighborId {
    Region(Coord),
    MapEdge,
}

/// A slope: the hexes from a plate's seed towards one hex of its border.
#[derive(Debug)]
pub struct Slope {
    pub variant: InteractionVariant,
    pub hexes: Vec<Coord>,
}

/// How a plate acts on one of its neighbours, and the hexes of the plate
/// that touch that neighbour.
#[derive(Debug)]
pub struct Interaction {
    pub variant: InteractionVariant,
    pub segment: Vec<Coord>,
}

/// A tectonic plate.
#[derive(Debug)]
pub struct Plate {
    /// The hex that the plate grew from, which also names the plate.
    pub seed: Coord,
    /// The direction in which the plate moves, in degrees from 0 to 359.
    pub direction: u32,
    /// The hexes of the plate, in the order in which they joined it.
    pub area: Vec<Coord>,
    /// The borders of the plate, each with the neighbour it is shared with.
    pub border: Vec<(NeighborId, Interaction)>,
    /// The slopes of the plate, border after border.
    pub slopes: Vec<Slope>,
}

/// The tectonic plates of a map.
pub struct Plates {
    /// The plates, in the order of their seeds.
    pub regions: Vec<Plate>,
    /// For the number of each hex, the place of its plate in `regions`.
    pub map: KeyMap,
}

/// The areas of the plates, plate after plate.
pub open spec fn spec_areas(regions: Seq<Plate>) -> Seq<Seq<Coord>> {
    Seq::new(regions.len(), |i: int| regions[i].area@)
}

/// Whether the hex at `c` belongs to a plate already.
pub open spec fn spec_visited(mesh: Mesh, owner: Map<u64, u64>, c: Coord) -> bool {
    owner.dom().contains(mesh.spec_place(c))
}

/// Whether the hex at `c` waits in the queue.
pub open spec fn spec_queued(queue: Seq<(Coord, usize)>, c: Coord) -> bool {
    exists|t: int| 0 <= t < queue.len() && (#[trigger] queue[t]).0 == c
}

/// Whether the first `upto` neighbours of the hex at `c` belong to a plate.
pub open spec fn spec_settled(mesh: Mesh, owner: Map<u64, u64>, c: Coord, upto: int) -> bool {
    forall|j: int|
        0 <= j < upto && j < mesh.spec_hex(c).neighbors@.len() ==> spec_visited(
            mesh,
            owner,
            (#[trigger] mesh.spec_hex(c).neighbors@[j]).0,
        )
}

/// What holds of the areas and of the map while plates grow and after: the
/// hexes of an area lie in the mesh and the map gives them to that area's
/// plate; no hex stands twice in an area; every hex that the map knows
/// stands in the area of its plate; every area starts with its seed; and
/// every later hex of an area is a neighbour of an earlier one.
pub open spec fn spec_assigned(
    mesh: Mesh,
    seeds: Seq<Coord>,
    areas: Seq<Seq<Coord>>,
    owner: Map<u64, u64>,
) -> bool {
    &&& areas.len() == seeds.len()
    &&& forall|k: u64| #[trigger] owner.dom().contains(k) ==> k < mesh.spec_size()
    &&& forall|i: int, j: int|
        0 <= i < areas.len() && 0 <= j < areas[i].len() ==> {
            &&& mesh.spec_contains(#[trigger] areas[i][j])
            &&& spec_visited(mesh, owner, areas[i][j])
            &&& owner[mesh.spec_place(areas[i][j])] == i
        }
    &&& forall|i: int, j: int, k: int|
        0 <= i < areas.len() && 0 <= j < k < areas[i].len() ==> #[trigger] areas[i][j]
            != #[trigger] areas[i][k]
    &&& forall|c: Coord|
        mesh.spec_contains(c) && #[trigger] spec_visited(mesh, owner, c) ==> spec_member(
            areas,
            owner[mesh.spec_place(c)] as int,
            c,
        )
    &&& forall|i: int|
        0 <= i < areas.len() ==> (#[trigger] areas[i]).len() >= 1 && areas[i][0] == seeds[i]
    &&& forall|i: int, j: int|
        0 <= i < areas.len() && 0 < j < areas[i].len() ==> spec_joined(
            mesh,
            areas[i],
            #[trigger] areas[i][j],
            j,
        )
}

/// Whether `c` stands in the area at `i`.
pub open spec fn spec_member(areas: Seq<Seq<Coord>>, i: int, c: Coord) -> bool {
    0 <= i < areas.len() && exists|j: int| 0 <= j < areas[i].len() && #[trigger] areas[i][j] == c
}

/// Whether `c` is a neighbour of one of the first `j` hexes of `area`.
pub open spec fn spec_joined(mesh: Mesh, area: Seq<Coord>, c: Coord, j: int) -> bool {
    exists|k: int|
        0 <= k < j && k < area.len() && spec_adjacent(
            #[trigger] area[k],
            c,
            mesh.offset_mode,
            mesh.width as int,
            mesh.height as int,
        )
}

/// What holds of the queue while plates grow: every hex that waits lies in
/// the mesh and belongs to the plate it waits for.
pub open spec fn spec_waiting(
    mesh: Mesh,
    owner: Map<u64,
    u64>,
    queue: Seq<(Coord, usize)>,
) -> bool {
    forall|t: int|
        0 <= t < queue.len() ==> {
            &&& mesh.spec_contains((#[trigger] queue[t]).0)
            &&& spec_visited(mesh, owner, queue[t].0)
            &&& owner[mesh.spec_place(queue[t].0)] == queue[t].1
        }
}

/// Whether every hex that belongs to a plate either waits in the queue, or
/// has all its neighbours in plates, or is the hex `current`.
pub open spec fn spec_frontier(
    mesh: Mesh,
    owner: Map<u64, u64>,
    queue: Seq<(Coord, usize)>,
    current: Option<Coord>,
) -> bool {
    forall|c: Coord|
        mesh.spec_contains(c) && #[trigger] spec_visited(mesh, owner, c) ==> spec_queued(queue, c)
            || spec_settled(mesh, owner, c, 6) || current == Some(c)
}

/// Where growth stands: the hexes that wait with their plates, the state of
/// the queue's generator, the plate of each hex that has one, and the areas.
pub struct Growth {
    pub queue: Seq<(Coord, usize)>,
    pub rng: Seq<u8>,
    pub owner: Map<u64, u64>,
    pub areas: Seq<Seq<Coord>>,
}

/// Growth after the neighbours from `from` on were looked at for the plate
/// at `plate`: each that has no plate yet joins that plate and waits.
pub open spec fn spec_visit(
    g: Growth,
    shape: Shape,
    neighbors: Seq<(Coord, bool)>,
    plate: usize,
    from: nat,
) -> Growth
    decreases neighbors.len() - from,
{
    if from >= neighbors.len() {
        g
    } else {
        let n = neighbors[from as int].0;
        let next = if g.owner.dom().contains(shape.spec_place(n)) {
            g
        } else {
            Growth {
                queue: g.queue.push((n, plate)),
                rng: g.rng,
                owner: g.owner.insert(shape.spec_place(n), plate as u64),
                areas: g.areas.update(plate as int, g.areas[plate as int].push(n)),
            }
        };
        spec_visit(next, shape, neighbors, plate, from + 1)
    }
}

/// Growth after at most `fuel` more hexes were taken from the queue, each
/// picked by the queue's generator, and their neighbours looked at.
pub open spec fn spec_grow(g: Growth, shape: Shape, fuel: nat) -> Growth
    decreases fuel,
{
    if g.queue.len() == 0 || fuel == 0 {
        g
    } else {
        let pick = std_rng_below(g.rng, g.queue.len() as u64);
        let item = g.queue[pick.1 as int];
        let taken = Growth {
            queue: spec_without(g.queue, pick.1 as int),
            rng: pick.0,
            owner: g.owner,
            areas: g.areas,
        };
        spec_grow(
            spec_visit(taken, shape, shape.spec_neighbors(item.0), item.1, 0),
            shape,
            (fuel - 1) as nat,
        )
    }
}

/// The directions that a generator in state `rng` gives to `count` plates,
/// after those in `drawn`.
pub open spec fn spec_directions(rng: u128, drawn: Seq<u32>, count: nat) -> Seq<u32>
    decreases count,
{
    if count == 0 {
        drawn
    } else {
        let d = pcg_between(rng, 0, 360);
        spec_directions(d.0, drawn.push(d.1), (count - 1) as nat)
    }
}

/// The map that gives each of the first `k` seeds to its own plate.
pub open spec fn spec_seed_owners(shape: Shape, seeds: Seq<Coord>, k: nat) -> Map<u64, u64>
    decreases k,
{
    if k == 0 {
        Map::empty()
    } else {
        spec_seed_owners(shape, seeds, (k - 1) as nat).insert(
            shape.spec_place(seeds[k - 1]),
            (k - 1) as u64,
        )
    }
}

/// Growth before the first hex is taken from the queue: every seed waits
/// for its own plate, which holds the seed and nothing else.
pub open spec fn spec_start(shape: Shape, seeds: Seq<Coord>, rng_seed: u64) -> Growth {
    Growth {
        queue: Seq::new(seeds.len(), |i: int| (seeds[i], i as usize)),
        rng: std_rng_seeded(rng_seed),
        owner: spec_seed_owners(shape, seeds, seeds.len()),
        areas: Seq::new(seeds.len(), |i: int| seq![seeds[i]]),
    }
}

/// Whether the seeds can be grown into plates: there is one at least, all
/// lie in the mesh, and no two are the same hex.
pub open spec fn spec_seeds_distinct(mesh: Mesh, seeds: Seq<Coord>) -> bool {
    &&& 1 <= seeds.len() <= usize::MAX
    &&& forall|i: int| 0 <= i < seeds.len() ==> mesh.spec_contains(#[trigger] seeds[i])
    &&& forall|i: int, j: int|
        0 <= i < j < seeds.len() ==> #[trigger] seeds[i] != #[trigger] seeds[j]
}

impl Plates {
    /// The place in `regions` of the plate that each hex number belongs to.
    pub open spec fn spec_owner(self) -> Map<u64, u64> {
        key_map_view(self.map)
    }

    /// The seeds of the plates, plate after plate.
    pub open spec fn spec_seeds(self) -> Seq<Coord> {
        Seq::new(self.regions@.len(), |i: int| self.regions@[i].seed)
    }

    /// The directions of the plates, plate after plate.
    pub open spec fn spec_plate_directions(self) -> Seq<u32> {
        Seq::new(self.regions@.len(), |i: int| self.regions@[i].direction)
    }

    /// The invariant of the plates of a mesh: every hex of the mesh belongs
    /// to exactly one plate, and borders and slopes are made of hexes of the
    /// mesh.
    pub open spec fn wf(self, mesh: Mesh) -> bool {
        &&& self.spec_partitioned(mesh)
        &&& forall|i: int, b: int, k: int|
            0 <= i < self.regions@.len() && 0 <= b < self.regions@[i].border@.len() && 0 <= k
                < self.regions@[i].border@[b].1.segment@.len() ==> mesh.spec_contains(
                #[trigger] self.regions@[i].border@[b].1.segment@[k],
            )
        &&& forall|i: int, s: int, k: int|
            0 <= i < self.regions@.len() && 0 <= s < self.regions@[i].slopes@.len() && 0 <= k
                < self.regions@[i].slopes@[s].hexes@.len() ==> mesh.spec_contains(
                #[trigger] self.regions@[i].slopes@[s].hexes@[k],
            )
    }

    /// Whether the areas and the map agree, and together give every hex of
    /// the mesh to exactly one plate.
    pub open spec fn spec_partitioned(self, mesh: Mesh) -> bool {
        &&& mesh.wf()
        &&& 1 <= self.regions@.len() <= mesh.spec_size()
        &&& spec_assigned(mesh, self.spec_seeds(), spec_areas(self.regions@), self.spec_owner())
        &&& forall|c: Coord| #[trigger]
            mesh.spec_contains(c) ==> spec_visited(mesh, self.spec_owner(), c)
        &&& forall|i: int|
            0 <= i < self.regions@.len() ==> (#[trigger] self.regions@[i]).direction < 360
    }

    /// The plates of a map: `SEED_COUNT` seeds are picked and grown into
    /// plates, both with `options.seed`. Fails when the seeds cannot be
    /// placed on the mesh, and only then.
    pub fn new(options: &GenerateOptions, mesh: &Mesh) -> (r: Result<Plates, SeedError>)
        requires
            mesh.wf(),
        ensures
            mesh.width < MIN_SEEDED_DIMENSION || mesh.height < MIN_SEEDED_DIMENSION ==> r
                is Err && r->Err_0 == SeedError::InvalidDimensions,
            mesh.width >= MIN_SEEDED_DIMENSION && mesh.height >= MIN_SEEDED_DIMENSION ==> (
            match spec_seeding(
                pcg_seeded(options.seed),
                Seq::empty(),
                mesh.offset_mode,
                mesh.width as u32,
                mesh.height as u32,
                SEED_COUNT,
                MAX_SEED_ATTEMPTS as nat,
            ) {
                Some(s) => r is Ok && r->Ok_0.spec_seeds() == s && r->Ok_0.spec_grown_from(
                    mesh.spec_shape(),
                    s,
                    options.seed,
                ),
                None => r is Err && r->Err_0 == SeedError::AttemptsExhausted,
            }),
            r is Ok ==> {
                &&& r->Ok_0.wf(*mesh)
                &&& spec_seeds_valid(r->Ok_0.spec_seeds(), *mesh, SEED_COUNT as int)
                &&& forall|i: int|
                    0 <= i < r->Ok_0.regions@.len() ==> (
                    #[trigger] r->Ok_0.regions@[i]).border@.len()
                        == 0 && r->Ok_0.regions@[i].slopes@.len() == 0
            },
    {
        match seeds(options, mesh, SEED_COUNT) {
            Err(e) => Err(e),
            Ok(picked) => {
                proof {
                    lemma_seeds_distinct(*mesh, picked@, SEED_COUNT as int);
                }
                Ok(Plates::grow(&picked, mesh, options.seed))
            },
        }
    }

    /// Whether the areas, the map and the directions are those that growth
    /// from the given seeds comes to.
    pub open spec fn spec_grown_from(self, shape: Shape, seeds: Seq<Coord>, rng_seed: u64) -> bool {
        let g = spec_grow(spec_start(shape, seeds, rng_seed), shape, shape.spec_size() as nat);
        &&& g.queue.len() == 0
        &&& g.owner == self.spec_owner()
        &&& g.areas == spec_areas(self.regions@)
        &&& self.spec_plate_directions() == spec_directions(
            pcg_seeded(rng_seed),
            Seq::empty(),
            seeds.len(),
        )
    }

    /// Grows one plate from each seed until every hex of the mesh belongs to
    /// a plate. Each plate gets a direction, drawn from the generator that
    /// `rng_seed` gives. Then hexes are taken one by one, in random order,
    /// from a queue that starts with the seeds; every neighbour of the hex
    /// taken that has no plate yet joins the plate of that hex and is put
    /// in the queue.
    ///
    /// The result is a function of the seeds, the mesh and `rng_seed`: the
    /// areas and the map are those that growth from the start comes to.
    pub fn grow(seeds: &Vec<Coord>, mesh: &Mesh, rng_seed: u64) -> (r: Plates)
        requires
            mesh.wf(),
            spec_seeds_distinct(*mesh, seeds@),
        ensures
            r.wf(*mesh),
            r.spec_seeds() == seeds@,
            r.spec_grown_from(mesh.spec_shape(), seeds@, rng_seed),
            forall|i: int|
                0 <= i < r.regions@.len() ==> (#[trigger] r.regions@[i]).border@.len() == 0
                    && r.regions@[i].slopes@.len() == 0,
    {
        let n = seeds.len();
        let size = mesh.size();
        let mut regions: Vec<Plate> = Vec::new();
        let mut map = key_map_new();
        let mut queue: FIRO<(Coord, usize)> = FIRO::new(rng_seed);
        let mut rng = pcg_from_seed(rng_seed);
        let mut i: usize = 0;
        proof {
            assert(Seq::new(0nat, |k: int| regions@[k].direction) =~= Seq::<u32>::empty());
        }
        while i < n
            invariant
                mesh.wf(),
                spec_seeds_distinct(*mesh, seeds@),
                n == seeds@.len(),
                i <= n,
                regions@.len() == i,
                forall|k: int|
                    0 <= k < i ==> {
                        &&& (#[trigger] regions@[k]).seed == seeds@[k]
                        &&& regions@[k].area@ == seq![seeds@[k]]
                        &&& regions@[k].direction < 360
                        &&& regions@[k].border@.len() == 0
                        &&& regions@[k].slopes@.len() == 0
                    },
                queue.items() == Seq::new(i as nat, |k: int| (seeds@[k], k as usize)),
                queue.generator() == std_rng_seeded(rng_seed),
                key_map_view(map) == spec_seed_owners(mesh.spec_shape(), seeds@, i as nat),
                key_map_view(map).dom().finite(),
                key_map_view(map).dom().len() == i,
                forall|k: int|
                    0 <= k < i ==> key_map_view(map).dom().contains(
                        mesh.spec_place(#[trigger] seeds@[k]),
                    ) && key_map_view(map)[mesh.spec_place(seeds@[k])] == k,
                forall|key: u64| #[trigger]
                    key_map_view(map).dom().contains(key) ==> exists|k: int|
                        0 <= k < i && mesh.spec_place(#[trigger] seeds@[k]) == key,
                spec_directions(pcg_seeded(rng_seed), Seq::empty(), n as nat) == spec_directions(
                    pcg_state(rng),
                    Seq::new(i as nat, |k: int| regions@[k].direction),
                    (n - i) as nat,
                ),
            decreases n - i,
        {
            let seed = seeds[i];
            let ghost before = key_map_view(map);
            let ghost drawn = Seq::new(i as nat, |k: int| regions@[k].direction);
            let ghost waiting = queue.items();
            proof {
                assert forall|k: int| 0 <= k < i implies mesh.spec_place(#[trigger] seeds@[k])
                    != mesh.spec_place(seed) by {
                    lemma_place_injective(*mesh, seeds@[k], seed);
                }
                assert(!before.dom().contains(mesh.spec_place(seed))) by {
                    if before.dom().contains(mesh.spec_place(seed)) {
                        let k = choose|k: int|
                            0 <= k < i && mesh.spec_place(#[trigger] seeds@[k]) == mesh.spec_place(
                                seed,
                            );
                        assert(false);
                    }
                }
            }
            queue.enqueue((seed, i));
            let place = mesh.place(seed);
            key_map_insert(&mut map, place, i as u64);
            let direction = pcg_gen_between(&mut rng, 0, 360);
            let mut area: Vec<Coord> = Vec::new();
            area.push(seed);
            regions.push(
                Plate { seed, direction, area, border: Vec::new(), slopes: Vec::new() },
            );
            proof {
                assert(regions@[i as int].area@ =~= seq![seeds@[i as int]]);
                assert(queue.items() =~= Seq::new(
                    (i + 1) as nat,
                    |k: int| (seeds@[k], k as usize),
                ));
                assert(Seq::new((i + 1) as nat, |k: int| regions@[k].direction) =~= drawn.push(
                    direction,
                ));
                assert forall|key: u64| #[trigger]
                    key_map_view(map).dom().contains(key) implies exists|k: int|
                    0 <= k < i + 1 && mesh.spec_place(#[trigger] seeds@[k]) == key by {
                    if key == place {
                        assert(mesh.spec_place(seeds@[i as int]) == key);
                    } else {
                        assert(before.dom().contains(key));
                        let k = choose|k: int|
                            0 <= k < i && mesh.spec_place(#[trigger] seeds@[k]) == key;
                        assert(mesh.spec_place(seeds@[k]) == key);
                    }
                }
            }
            i += 1;
        }
        proof {
            assert forall|k: u64| #[trigger] key_map_view(map).dom().contains(k) implies k
                < mesh.spec_size() by {
                let j = choose|j: int| 0 <= j < n && mesh.spec_place(#[trigger] seeds@[j]) == k;
                lemma_place_injective(*mesh, seeds@[j], seeds@[j]);
            }
            lemma_within_size(*mesh, key_map_view(map).dom());
        }
        let ghost start = spec_start(mesh.spec_shape(), seeds@, rng_seed);
        let ghost fuel = size as nat;
        let ghost mut taken: nat = 0;
        proof {
            let areas = spec_areas(regions@);
            let owner = key_map_view(map);
            assert(areas =~= start.areas);
            assert(queue.items() =~= start.queue);
            assert(regions@.len() == n);
            assert(Seq::new(n as nat, |k: int| regions@[k].seed) =~= seeds@);
            assert forall|k: u64| #[trigger] owner.dom().contains(k) implies k
                < mesh.spec_size() by {
                let j = choose|j: int| 0 <= j < n && mesh.spec_place(#[trigger] seeds@[j]) == k;
                lemma_place_injective(*mesh, seeds@[j], seeds@[j]);
            }
            assert forall|c: Coord|
                mesh.spec_contains(c) && #[trigger] spec_visited(*mesh, owner, c)
                    implies spec_member(
                areas,
                owner[mesh.spec_place(c)] as int,
                c,
            ) && spec_queued(queue.items(), c) by {
                let j = choose|j: int|
                    0 <= j < n && mesh.spec_place(#[trigger] seeds@[j]) == mesh.spec_place(c);
                lemma_place_injective(*mesh, seeds@[j], c);
                assert(areas[j][0] == c);
                assert(queue.items()[j].0 == c);
            }
            assert forall|a: int, j: int| 0 <= a < areas.len() && 0 <= j < areas[a].len() implies {
                &&& mesh.spec_contains(#[trigger] areas[a][j])
                &&& spec_visited(*mesh, owner, areas[a][j])
                &&& owner[mesh.spec_place(areas[a][j])] == a
            } by {
                assert(areas[a][j] == seeds@[a]);
            }
            assert(spec_assigned(*mesh, seeds@, areas, owner));
            assert(spec_waiting(*mesh, owner, queue.items())) by {
                assert forall|t: int| 0 <= t < queue.items().len() implies {
                    &&& mesh.spec_contains((#[trigger] queue.items()[t]).0)
                    &&& spec_visited(*mesh, owner, queue.items()[t].0)
                    &&& owner[mesh.spec_place(queue.items()[t].0)] == queue.items()[t].1
                } by {
                    assert(queue.items()[t].0 == seeds@[t]);
                }
            }
            assert(spec_frontier(*mesh, owner, queue.items(), None));
        }
        while queue.len() > 0
            invariant
                mesh.wf(),
                n == seeds@.len(),
                n >= 1,
                n <= size,
                size == mesh.spec_size(),
                fuel == size,
                regions@.len() == n,
                forall|k: int|
                    0 <= k < n ==> {
                        &&& (#[trigger] regions@[k]).seed == seeds@[k]
                        &&& regions@[k].direction < 360
                        &&& regions@[k].border@.len() == 0
                        &&& regions@[k].slopes@.len() == 0
                    },
                Seq::new(n as nat, |k: int| regions@[k].direction) == spec_directions(
                    pcg_seeded(rng_seed),
                    Seq::empty(),
                    n as nat,
                ),
                spec_assigned(*mesh, seeds@, spec_areas(regions@), key_map_view(map)),
                spec_waiting(*mesh, key_map_view(map), queue.items()),
                spec_frontier(*mesh, key_map_view(map), queue.items(), None),
                key_map_view(map).dom().finite(),
                taken + queue.items().len() == key_map_view(map).dom().len(),
                taken <= fuel,
                spec_grow(start, mesh.spec_shape(), fuel) == spec_grow(
                    Growth {
                        queue: queue.items(),
                        rng: queue.generator(),
                        owner: key_map_view(map),
                        areas: spec_areas(regions@),
                    },
                    mesh.spec_shape(),
                    (fuel - taken) as nat,
                ),
            decreases fuel - taken,
        {
            let ghost before = Growth {
                queue: queue.items(),
                rng: queue.generator(),
                owner: key_map_view(map),
                areas: spec_areas(regions@),
            };
            let ghost pick = std_rng_below(before.rng, before.queue.len() as u64);
            proof {
                lemma_within_size(*mesh, key_map_view(map).dom());
            }
            let picked = queue.dequeue();
            let (current, plate) = picked.unwrap();
            proof {
                lemma_take(*mesh, key_map_view(map), before.queue, pick.1 as int);
            }
            let hex = mesh.get_hex(current.x, current.y);
            let ghost neighbors = hex.neighbors@;
            proof {
                lemma_neighbors_in_grid(
                    current,
                    mesh.offset_mode,
                    mesh.width as int,
                    mesh.height as int,
                );
                assert(spec_member(spec_areas(regions@), plate as int, current));
            }
            let mut j: usize = 0;
            while j < hex.neighbors.len()
                invariant
                    mesh.wf(),
                    n == seeds@.len(),
                    n >= 1,
                    size == mesh.spec_size(),
                    fuel == size,
                    taken < fuel,
                    regions@.len() == n,
                    plate < n,
                    mesh.spec_contains(current),
                    *hex == mesh.spec_hex(current),
                    neighbors == hex.neighbors@,
                    neighbors == spec_neighbors(
                        current,
                        mesh.offset_mode,
                        mesh.width as int,
                        mesh.height as int,
                    ),
                    neighbors.len() <= 6,
                    j <= neighbors.len(),
                    forall|k: int|
                        0 <= k < neighbors.len() ==> mesh.spec_contains(
                            (#[trigger] neighbors[k]).0,
                        ),
                    spec_visited(*mesh, key_map_view(map), current),
                    key_map_view(map)[mesh.spec_place(current)] == plate,
                    forall|k: int|
                        0 <= k < n ==> {
                            &&& (#[trigger] regions@[k]).seed == seeds@[k]
                            &&& regions@[k].direction < 360
                            &&& regions@[k].border@.len() == 0
                            &&& regions@[k].slopes@.len() == 0
                        },
                    Seq::new(n as nat, |k: int| regions@[k].direction) == spec_directions(
                        pcg_seeded(rng_seed),
                        Seq::empty(),
                        n as nat,
                    ),
                    spec_assigned(*mesh, seeds@, spec_areas(regions@), key_map_view(map)),
                    spec_waiting(*mesh, key_map_view(map), queue.items()),
                    spec_frontier(*mesh, key_map_view(map), queue.items(), Some(current)),
                    spec_settled(*mesh, key_map_view(map), current, j as int),
                    key_map_view(map).dom().finite(),
                    taken + 1 + queue.items().len() == key_map_view(map).dom().len(),
                    spec_grow(start, mesh.spec_shape(), fuel) == spec_grow(
                        spec_visit(
                            Growth {
                                queue: queue.items(),
                                rng: queue.generator(),
                                owner: key_map_view(map),
                                areas: spec_areas(regions@),
                            },
                            mesh.spec_shape(),
                            neighbors,
                            plate,
                            j as nat,
                        ),
                        mesh.spec_shape(),
                        (fuel - taken - 1) as nat,
                    ),
                decreases neighbors.len() - j,
            {
                let neighbor = hex.neighbors[j].0;
                let ghost owner = key_map_view(map);
                let ghost areas = spec_areas(regions@);
                let ghost waiting = queue.items();
                let ghost plates_before = regions@;
                let key = mesh.place(neighbor);
                if key_map_get(&map, key).is_none() {
                    proof {
                        assert(neighbors[j as int].0 == neighbor);
                        assert(spec_adjacent(
                            current,
                            neighbor,
                            mesh.offset_mode,
                            mesh.width as int,
                            mesh.height as int,
                        ));
                        lemma_join(
                            *mesh,
                            seeds@,
                            areas,
                            owner,
                            waiting,
                            current,
                            plate,
                            neighbor,
                        );
                    }
                    key_map_insert(&mut map, key, plate as u64);
                    regions[plate].area.push(neighbor);
                    queue.enqueue((neighbor, plate));
                    proof {
                        assert(spec_areas(regions@) =~= areas.update(
                            plate as int,
                            areas[plate as int].push(neighbor),
                        ));
                        assert(Seq::new(n as nat, |k: int| regions@[k].direction) =~= Seq::new(
                            n as nat,
                            |k: int| plates_before[k].direction,
                        ));
                    }
                }
                proof {
                    assert(spec_visited(*mesh, key_map_view(map), neighbors[j as int].0));
                    assert(spec_settled(*mesh, key_map_view(map), current, j + 1));
                }
                j += 1;
            }
            proof {
                assert(spec_settled(*mesh, key_map_view(map), current, 6));
                assert(spec_frontier(*mesh, key_map_view(map), queue.items(), None));
                taken = taken + 1;
            }
        }
        proof {
            assert(queue.items() =~= Seq::<(Coord, usize)>::empty());
            lemma_all_visited(*mesh, seeds@, spec_areas(regions@), key_map_view(map));
            assert(Seq::new(n as nat, |k: int| regions@[k].seed) =~= seeds@);
        }
        Plates { regions, map }
    }
}

/// Seeds that are far enough apart are distinct hexes of the mesh.
pub proof fn lemma_seeds_distinct(mesh: Mesh, seeds: Seq<Coord>, count: int)
    requires
        mesh.wf(),
        1 <= count <= u32::MAX,
        spec_seeds_valid(seeds, mesh, count),
    ensures
        spec_seeds_distinct(mesh, seeds),
{
    assert forall|i: int, j: int| 0 <= i < j < seeds.len() implies #[trigger] seeds[i]
        != #[trigger] seeds[j] by {
        if seeds[i] == seeds[j] {
            assert(crate::topography::seeds::spec_far_apart(
                seeds[i],
                seeds[j],
                mesh.offset_mode,
                mesh.width as int,
                mesh.height as int,
                count,
            ));
            let w = mesh.width as int;
            let h = mesh.height as int;
            assert(w * w + h * h >= 0) by (nonlinear_arith);
            assert((2 * 0 * count) * (2 * 0 * count) == 0) by (nonlinear_arith);
            assert(false);
        }
    }
}

/// A finite set of hex numbers that are all below the size of the mesh has
/// at most as many members as the mesh has hexes.
pub proof fn lemma_within_size(mesh: Mesh, keys: Set<u64>)
    requires
        forall|k: u64| #[trigger] keys.contains(k) ==> k < mesh.spec_size(),
    ensures
        keys.finite(),
        keys.len() <= mesh.spec_size(),
{
    let all = Set::<u64>::range(0, mesh.spec_size());
    vstd::set_lib::range_set_properties::<u64>(0, mesh.spec_size());
    assert(keys.subset_of(all));
    vstd::set_lib::lemma_len_subset(keys, all);
}

} // verus!
