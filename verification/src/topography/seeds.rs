//! The seeds that plates grow from: hexes picked at random, each far enough
//! from all the others.

use crate::cmd::GenerateOptions;
use crate::cmd::OffsetMode;
use crate::mesh::axial::distance_to;
use crate::mesh::axial::spec_distance;
use crate::mesh::spec_axial;
use crate::mesh::Coord;
use crate::mesh::Mesh;
use crate::utils::random::pcg_between;
use crate::utils::random::pcg_from_seed;
use crate::utils::random::pcg_gen_between;
use crate::utils::random::pcg_seeded;
use crate::utils::random::pcg_state;
use vstd::prelude::*;

verus! {

/// The number of plates of a map.
pub const SEED_COUNT: u32 = 75;

/// The number of hexes that are tried before seeding gives up.
pub const MAX_SEED_ATTEMPTS: u32 = 1_000_000;

/// The smallest width and height that leave room for seeds, which keep two
/// hexes away from every edge.
pub const MIN_SEEDED_DIMENSION: u32 = 5;

/// Why seeds could not be placed.
#[derive(Clone, Copy, Debug, PartialEq, Eq, Structural)]
pub enum SeedError {
    /// The map is too narrow or too low to hold a seed.
    InvalidDimensions,
    /// Too few of the hexes that were tried lay far enough from the seeds
    /// already placed.
    AttemptsExhausted,
}

/// Whether two hexes `distance` steps apart are far enough from each other
/// for both to be seeds: further than two and a half times the diagonal of
/// the map, divided by the number of seeds.
pub open spec fn spec_far_enough(distance: int, width: int, height: int, count: int) -> bool {
    (2 * distance * count) * (2 * distance * count) > 25 * (width * width + height * height)
}

/// Whether the hexes at `a` and `b` are far enough from each other for both
/// to be seeds.
pub open spec fn spec_far_apart(
    a: Coord,
    b: Coord,
    mode: OffsetMode,
    width: int,
    height: int,
    count: int,
) -> bool {
    let p = spec_axial(a, mode);
    let q = spec_axial(b, mode);
    spec_far_enough(
        spec_distance(p.x as int, p.y as int, q.x as int, q.y as int),
        width,
        height,
        count,
    )
}

/// Whether the hex at `c` is far enough from each of the first `k` seeds.
pub open spec fn spec_far_from_first(
    c: Coord,
    seeds: Seq<Coord>,
    k: int,
    mode: OffsetMode,
    width: int,
    height: int,
    count: int,
) -> bool {
    forall|i: int| 0 <= i < k ==> spec_far_apart(#[trigger] seeds[i], c, mode, width, height, count)
}

/// What seeding comes to from a generator in state `rng`, with the seeds
/// `accepted` so far and `attempts` hexes left to try: the seeds, or nothing
/// when the attempts run out first.
pub open spec fn spec_seeding(
    rng: u128,
    accepted: Seq<Coord>,
    mode: OffsetMode,
    width: u32,
    height: u32,
    count: u32,
    attempts: nat,
) -> Option<Seq<Coord>>
    decreases attempts,
{
    if accepted.len() >= count {
        Some(accepted)
    } else if attempts == 0 {
        None
    } else {
        let column = pcg_between(rng, 2, (width - 2) as u32);
        let row = pcg_between(column.0, 2, (height - 2) as u32);
        let c = Coord { x: column.1 as i32, y: row.1 as i32 };
        let next = if spec_far_from_first(
            c,
            accepted,
            accepted.len() as int,
            mode,
            width as int,
            height as int,
            count as int,
        ) {
            accepted.push(c)
        } else {
            accepted
        };
        spec_seeding(row.0, next, mode, width, height, count, (attempts - 1) as nat)
    }
}

/// What holds of seeds however they were drawn: there are `count` of them,
/// each at least two hexes from every edge of the map, and any two of them
/// far enough apart.
pub open spec fn spec_seeds_valid(seeds: Seq<Coord>, mesh: Mesh, count: int) -> bool {
    &&& seeds.len() == count
    &&& forall|i: int|
        0 <= i < seeds.len() ==> 2 <= (#[trigger] seeds[i]).x < mesh.width - 2 && 2 <= seeds[i].y
            < mesh.height - 2
    &&& forall|i: int, j: int|
        0 <= i < j < seeds.len() ==> spec_far_apart(
            #[trigger] seeds[i],
            #[trigger] seeds[j],
            mesh.offset_mode,
            mesh.width as int,
            mesh.height as int,
            count,
        )
}

/// Whether two hexes `distance` steps apart are far enough from each other
/// for both to be seeds.
pub fn far_enough(distance: i32, width: u32, height: u32, count: u32) -> (r: bool)
    requires
        0 <= distance <= 0x10_0000,
    ensures
        r == spec_far_enough(distance as int, width as int, height as int, count as int),
{
    let twice: u128 = 2 * (distance as u128);
    proof {
        assert(twice * (count as u128) <= 0x20_0000 * 0x1_0000_0000) by (nonlinear_arith)
            requires
                twice <= 0x20_0000,
                count <= 0x1_0000_0000,
        ;
    }
    let reach: u128 = twice * (count as u128);
    let w: u128 = width as u128;
    let h: u128 = height as u128;
    proof {
        assert(reach * reach <= 0x20_0000_0000_0000 * 0x20_0000_0000_0000) by (nonlinear_arith)
            requires
                reach <= 0x20_0000_0000_0000,
        ;
        assert(w * w <= 0x1_0000_0000 * 0x1_0000_0000) by (nonlinear_arith)
            requires
                w <= 0x1_0000_0000,
        ;
        assert(h * h <= 0x1_0000_0000 * 0x1_0000_0000) by (nonlinear_arith)
            requires
                h <= 0x1_0000_0000,
        ;
        assert(reach == 2 * distance * count) by (nonlinear_arith)
            requires
                reach == twice * count,
                twice == 2 * distance,
        ;
    }
    reach * reach > 25 * (w * w + h * h)
}

/// Picks `count` seeds for the plates of the mesh, with the generator that
/// `options.seed` gives; of the options nothing else is read. A hex is
/// drawn at least two hexes from every edge,
/// and becomes a seed when it is far enough from every seed before it. This
/// is repeated until there are `count` seeds or `MAX_SEED_ATTEMPTS` hexes
/// were drawn.
///
/// Fails with `InvalidDimensions` exactly when the map is narrower or lower
/// than `MIN_SEEDED_DIMENSION`, and with `AttemptsExhausted` exactly when
/// the attempts run out.
pub fn seeds(options: &GenerateOptions, mesh: &Mesh, count: u32) -> (r: Result<
    Vec<Coord>,
    SeedError,
>)
    requires
        mesh.wf(),
    ensures
        mesh.width < MIN_SEEDED_DIMENSION || mesh.height < MIN_SEEDED_DIMENSION ==> r is Err
            && r->Err_0 == SeedError::InvalidDimensions,
        mesh.width >= MIN_SEEDED_DIMENSION && mesh.height >= MIN_SEEDED_DIMENSION ==> (
        match spec_seeding(
            pcg_seeded(options.seed),
            Seq::empty(),
            mesh.offset_mode,
            mesh.width as u32,
            mesh.height as u32,
            count,
            MAX_SEED_ATTEMPTS as nat,
        ) {
            Some(s) => r is Ok && r->Ok_0@ == s,
            None => r is Err && r->Err_0 == SeedError::AttemptsExhausted,
        }),
        r is Ok ==> spec_seeds_valid(r->Ok_0@, *mesh, count as int),
{
    let width: u32 = mesh.width as u32;
    let height: u32 = mesh.height as u32;
    if width < MIN_SEEDED_DIMENSION || height < MIN_SEEDED_DIMENSION {
        return Err(SeedError::InvalidDimensions);
    }
    let mode = mesh.offset_mode;
    let mut seeds: Vec<Coord> = Vec::new();
    let mut rng = pcg_from_seed(options.seed);
    let mut attempts: u32 = 0;
    while seeds.len() < count as usize && attempts < MAX_SEED_ATTEMPTS
        invariant
            mesh.wf(),
            mesh.width == width,
            mesh.height == height,
            mesh.offset_mode == mode,
            width >= MIN_SEEDED_DIMENSION,
            height >= MIN_SEEDED_DIMENSION,
            attempts <= MAX_SEED_ATTEMPTS,
            seeds@.len() <= count,
            spec_seeding(
                pcg_seeded(options.seed),
                Seq::empty(),
                mode,
                width,
                height,
                count,
                MAX_SEED_ATTEMPTS as nat,
            ) == spec_seeding(
                pcg_state(rng),
                seeds@,
                mode,
                width,
                height,
                count,
                (MAX_SEED_ATTEMPTS - attempts) as nat,
            ),
            forall|i: int|
                0 <= i < seeds@.len() ==> 2 <= (#[trigger] seeds@[i]).x < width - 2 && 2
                    <= seeds@[i].y
                    < height - 2,
            forall|i: int, j: int|
                0 <= i < j < seeds@.len() ==> spec_far_apart(
                    #[trigger] seeds@[i],
                    #[trigger] seeds@[j],
                    mode,
                    width as int,
                    height as int,
                    count as int,
                ),
        decreases MAX_SEED_ATTEMPTS - attempts,
    {
        let x = pcg_gen_between(&mut rng, 2, width - 2);
        let y = pcg_gen_between(&mut rng, 2, height - 2);
        let candidate = Coord::new(x as i32, y as i32);
        let candidate_hex = mesh.get_hex(candidate.x, candidate.y);
        let mut far = true;
        let mut i: usize = 0;
        while i < seeds.len()
            invariant
                mesh.wf(),
                mesh.width == width,
                mesh.height == height,
                mesh.offset_mode == mode,
                i <= seeds@.len(),
                mesh.spec_contains(candidate),
                candidate_hex.axial == spec_axial(candidate, mode),
                forall|k: int|
                    0 <= k < seeds@.len() ==> 2 <= (#[trigger] seeds@[k]).x < width - 2 && 2
                        <= seeds@[k].y < height - 2,
                far == spec_far_from_first(
                    candidate,
                    seeds@,
                    i as int,
                    mode,
                    width as int,
                    height as int,
                    count as int,
                ),
            decreases seeds@.len() - i,
        {
            let s = seeds[i];
            let d = distance_to(mesh.get_hex(s.x, s.y).axial, candidate_hex.axial);
            if !far_enough(d, width, height, count) {
                far = false;
            }
            i += 1;
        }
        if far {
            seeds.push(candidate);
        }
        attempts += 1;
    }
    if seeds.len() == count as usize {
        Ok(seeds)
    } else {
        Err(SeedError::AttemptsExhausted)
    }
}

} // verus!
