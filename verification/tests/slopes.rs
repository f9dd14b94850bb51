use hextergen::cmd::GenerateOptions;
use hextergen::cmd::OffsetMode;
use hextergen::cmd::Orientation;
use hextergen::mesh::axial::Axial;
use hextergen::mesh::Coord;
use hextergen::mesh::Mesh;
use hextergen::topography::bearings::Bearings;
use hextergen::topography::elevation::apply_slopes;
use hextergen::topography::elevation::build as build_field;
use hextergen::topography::elevation::Adjustment;
use hextergen::topography::interaction::Effect;
use hextergen::topography::interaction::InteractionVariant;
use hextergen::topography::plates::Interaction;
use hextergen::topography::plates::Plates;
use hextergen::topography::seeds::SeedError;
use hextergen::topography::slopes::build;
use hextergen::topography::slopes::distance_between;
use hextergen::topography::slopes::slope_seed;
use hextergen::topography::slopes::square;
use hextergen::topography::slopes::trace;
use hextergen::topography::slopes::wrap_distance;
use hextergen::topography::Topography;

fn options(seed: u64, width: u32, height: u32, orientation: Orientation) -> GenerateOptions {
    GenerateOptions { seed, width, height, orientation }
}

fn adjust(e: f32, effect: Effect) -> f32 {
    match effect {
        Effect::Damp => e * 0.995,
        Effect::Shift { rise, index, last } => {
            let d = index as f32 / last as f32;
            (e + if rise { d } else { -d } * 0.013) * 1.065
        }
    }
}

fn adjacent(mesh: &Mesh, a: Coord, b: Coord) -> bool {
    mesh.get_hex(a.x, a.y).neighbors.iter().any(|(n, _)| *n == b)
}

#[test]
fn wrap_distance_is_four_times_the_squared_distance_of_centres() {
    let a = Axial { x: 0, y: 0 };
    // flat hexes of size 1: neighbours are sqrt(3) apart
    assert_eq!(wrap_distance(a, Axial { x: 1, y: 0 }, OffsetMode::OddColumns, 10), 12);
    assert_eq!(wrap_distance(a, Axial { x: 0, y: 1 }, OffsetMode::OddColumns, 10), 12);
    assert_eq!(wrap_distance(a, Axial { x: 1, y: -1 }, OffsetMode::OddColumns, 10), 12);
    assert_eq!(wrap_distance(a, Axial { x: 0, y: 0 }, OffsetMode::OddColumns, 10), 0);
    assert_eq!(wrap_distance(a, Axial { x: 2, y: 0 }, OffsetMode::OddColumns, 10), 48);
    assert_eq!(wrap_distance(a, Axial { x: 2, y: -1 }, OffsetMode::OddColumns, 10), 36);
    // pointy hexes
    assert_eq!(wrap_distance(a, Axial { x: 1, y: 0 }, OffsetMode::OddRows, 10), 12);
    assert_eq!(wrap_distance(a, Axial { x: 0, y: 1 }, OffsetMode::OddRows, 10), 12);
    assert_eq!(wrap_distance(a, Axial { x: 1, y: 1 }, OffsetMode::OddRows, 10), 36);
}

#[test]
fn wrap_distance_takes_the_way_across_the_edge_when_it_is_shorter() {
    // column 9 of 10, row 0, with odd columns: axial (9, -4)
    let last = Axial { x: 9, y: -4 };
    let first = Axial { x: 0, y: 0 };
    assert_eq!(wrap_distance(first, last, OffsetMode::OddColumns, 10), 12);
    assert_eq!(wrap_distance(last, first, OffsetMode::OddColumns, 10), 12);
    assert_eq!(wrap_distance(first, last, OffsetMode::OddColumns, 100), 27 * 27 + 3);
    // half way round both ways are as long
    assert_eq!(wrap_distance(first, Axial { x: 5, y: 0 }, OffsetMode::OddColumns, 10), 225 + 75);
    // pointy: column 9 of 10 in row 0
    assert_eq!(wrap_distance(first, Axial { x: 9, y: 0 }, OffsetMode::OddRows, 10), 12);
    assert_eq!(wrap_distance(first, Axial { x: 9, y: 0 }, OffsetMode::OddRows, 40), 3 * 18 * 18);
}

#[test]
fn square_multiplies_a_number_by_itself() {
    assert_eq!(square(0), 0);
    assert_eq!(square(-7), 49);
    assert_eq!(square(1 << 30), 1 << 60);
}

#[test]
fn slope_seed_packs_the_products_of_columns_and_rows() {
    assert_eq!(slope_seed(&Coord::new(3, 4), &Coord::new(5, 6)), (15u64 << 32) | 24);
    assert_eq!(slope_seed(&Coord::new(0, 4), &Coord::new(5, 0)), 0);
    assert_eq!(
        slope_seed(&Coord::new(32767, 32767), &Coord::new(32767, 1)),
        ((32767u64 * 32767) << 32) | 32767
    );
}

#[test]
fn slope_runs_from_the_seed_towards_the_target() {
    let options = options(0, 30, 20, Orientation::Flat);
    let mesh = Mesh::new(&options).unwrap();
    let seed = Coord::new(4, 4);
    for target in [Coord::new(20, 15), Coord::new(4, 5), Coord::new(28, 4), Coord::new(9, 0)] {
        let slope = trace(&seed, &target, InteractionVariant::Convergent, &mesh);
        assert_eq!(slope.variant, InteractionVariant::Convergent);
        assert_eq!(slope.hexes[0], seed);
        for k in 1..slope.hexes.len() {
            assert!(adjacent(&mesh, slope.hexes[k - 1], slope.hexes[k]));
            assert!(
                distance_between(&mesh, &slope.hexes[k], &target)
                    <= distance_between(&mesh, &slope.hexes[k - 1], &target)
            );
            assert!(!slope.hexes[..k].contains(&slope.hexes[k]));
        }
        assert_eq!(*slope.hexes.last().unwrap(), target);
        let again = trace(&seed, &target, InteractionVariant::Convergent, &mesh);
        assert_eq!(again.hexes, slope.hexes);
    }
}

#[test]
fn slope_to_the_seed_itself_stays_on_the_seed() {
    let options = options(0, 10, 10, Orientation::Pointy);
    let mesh = Mesh::new(&options).unwrap();
    let seed = Coord::new(4, 4);
    let slope = trace(&seed, &seed, InteractionVariant::Divergent, &mesh);
    assert_eq!(slope.hexes, vec![seed]);
    assert_eq!(slope.variant, InteractionVariant::Divergent);
}

#[test]
fn slope_to_a_neighbour_is_the_seed_and_the_neighbour() {
    let options = options(0, 10, 10, Orientation::Flat);
    let mesh = Mesh::new(&options).unwrap();
    let seed = Coord::new(0, 3);
    let slope = trace(&seed, &Coord::new(9, 3), InteractionVariant::Divergent, &mesh);
    assert_eq!(slope.hexes, vec![seed, Coord::new(9, 3)]);
}

#[test]
fn slope_takes_its_steps_in_shuffled_order() {
    let options = options(0, 40, 30, Orientation::Flat);
    let mesh = Mesh::new(&options).unwrap();
    let seed = Coord::new(20, 15);
    let mut differs = false;
    for tx in 0..40 {
        let target = Coord::new(tx, (tx * 7) % 30);
        let slope = trace(&seed, &target, InteractionVariant::Convergent, &mesh);
        // the walk that takes the first fitting neighbour in the order of the list
        let mut plain = vec![seed];
        let mut current = seed;
        loop {
            let open: Vec<Coord> = mesh
                .get_hex(current.x, current.y)
                .neighbors
                .iter()
                .map(|(n, _)| *n)
                .filter(|n| !plain.contains(n))
                .collect();
            if open.contains(&target) {
                plain.push(target);
                break;
            }
            let limit = distance_between(&mesh, &current, &target);
            match open.iter().find(|n| distance_between(&mesh, n, &target) <= limit) {
                Some(n) => {
                    plain.push(*n);
                    current = *n;
                }
                None => break,
            }
        }
        differs = differs || plain != slope.hexes;
    }
    assert!(differs);
}

#[test]
fn border_gets_one_slope_for_each_hex_of_its_segment() {
    let options = options(0, 20, 20, Orientation::Flat);
    let mesh = Mesh::new(&options).unwrap();
    let seed = Coord::new(10, 10);
    let segment = vec![Coord::new(3, 3), Coord::new(4, 3), Coord::new(16, 12)];
    let interaction = Interaction { variant: InteractionVariant::Divergent, segment: segment.clone() };
    let slopes = build(&seed, &interaction, &mesh);
    assert_eq!(slopes.len(), 3);
    for (k, slope) in slopes.iter().enumerate() {
        assert_eq!(slope.variant, InteractionVariant::Divergent);
        assert_eq!(
            slope.hexes,
            trace(&seed, &segment[k], InteractionVariant::Convergent, &mesh).hexes
        );
    }
    let empty = Interaction { variant: InteractionVariant::Convergent, segment: Vec::new() };
    assert!(build(&seed, &empty, &mesh).is_empty());
}

#[test]
fn plates_get_the_slopes_of_their_borders_in_order() {
    let options = options(8, 30, 20, Orientation::Flat);
    let mesh = Mesh::new(&options).unwrap();
    let seeds = vec![Coord::new(4, 4), Coord::new(24, 5), Coord::new(14, 14)];
    let mut plates = Plates::grow(&seeds, &mesh, 8);
    plates.borders(&mesh, &Bearings { degrees: vec![vec![10; 3]; 3] });
    plates.slopes(&mesh);
    for plate in &plates.regions {
        let mut expected = Vec::new();
        for (_, interaction) in &plate.border {
            for target in &interaction.segment {
                expected.push((interaction.variant, trace(&plate.seed, target, interaction.variant, &mesh).hexes));
            }
        }
        let found: Vec<(InteractionVariant, Vec<Coord>)> =
            plate.slopes.iter().map(|s| (s.variant, s.hexes.clone())).collect();
        assert_eq!(found, expected);
        assert!(!found.is_empty());
    }
    let adjustments = plates.adjustments();
    let mut expected: Vec<Adjustment> = Vec::new();
    for plate in &plates.regions {
        for slope in &plate.slopes {
            for (k, hex) in slope.hexes.iter().enumerate() {
                expected.push(Adjustment { hex: *hex, effect: slope.variant.effect(k, slope.hexes.len()) });
            }
        }
    }
    assert_eq!(adjustments, expected);
}

#[test]
fn base_field_holds_the_sample_of_each_hex_at_its_number() {
    let options = options(0, 7, 5, Orientation::Flat);
    let mesh = Mesh::new(&options).unwrap();
    let field = build_field(&mesh, &|c: Coord| (c.x * 10 + c.y) as f32);
    assert_eq!(field.len(), 35);
    for x in 0..7 {
        for y in 0..5 {
            assert_eq!(field[mesh.place(Coord::new(x, y)) as usize], (x * 10 + y) as f32);
            assert_eq!(mesh.place(Coord::new(x, y)), (x * 5 + y) as u64);
        }
    }
}

#[test]
fn elevations_off_the_slopes_stay_what_they_were() {
    let options = options(8, 30, 20, Orientation::Flat);
    let mesh = Mesh::new(&options).unwrap();
    let seeds = vec![Coord::new(4, 4), Coord::new(24, 5), Coord::new(14, 14)];
    let mut plates = Plates::grow(&seeds, &mesh, 8);
    plates.borders(&mesh, &Bearings { degrees: vec![vec![10; 3]; 3] });
    plates.slopes(&mesh);
    let base = build_field(&mesh, &|c: Coord| 0.25 + (c.x - c.y) as f32 / 64.0);
    let mut field = base.clone();
    apply_slopes(&mut field, &plates, &mesh, &adjust);
    let mut expected = base.clone();
    let mut touched = vec![false; base.len()];
    for adjustment in plates.adjustments() {
        let at = mesh.place(adjustment.hex) as usize;
        expected[at] = adjust(expected[at], adjustment.effect);
        touched[at] = true;
    }
    assert_eq!(field, expected);
    let mut untouched = 0;
    for at in 0..base.len() {
        if !touched[at] {
            assert_eq!(field[at], base[at]);
            untouched += 1;
        }
    }
    assert!(untouched > 0);
    assert!(touched.iter().any(|t| *t));
    assert!(field != base);
}

#[test]
fn one_adjustment_follows_the_formula() {
    assert_eq!(adjust(1.0, Effect::Damp), 0.995);
    assert_eq!(adjust(0.0, Effect::Shift { rise: true, index: 9, last: 9 }), 0.013 * 1.065);
    assert_eq!(adjust(0.0, Effect::Shift { rise: false, index: 9, last: 9 }), -0.013 * 1.065);
}

#[test]
fn topography_of_the_default_map_is_complete() {
    let options = GenerateOptions::default();
    let mesh = Mesh::new(&options).unwrap();
    let sample = |c: Coord| ((c.x * 31 + c.y * 17) % 100) as f32 / 100.0 - 0.5;
    let bearing = |from: Coord, to: Coord| {
        let degrees = ((to.y - from.y) as f32).atan2((to.x - from.x) as f32).to_degrees();
        degrees.rem_euclid(360.0) as u32 % 360
    };
    let topography = Topography::new(&options, &mesh, &sample, &bearing, &adjust).unwrap();
    assert_eq!(topography.elevations.len(), 200 * 160);
    assert_eq!(topography.plates.regions.len(), 75);
    assert!(topography.bearings.fits(75));
    assert!(topography.plates.regions.iter().all(|p| !p.border.is_empty() && !p.slopes.is_empty()));
    let mut expected = build_field(&mesh, &sample);
    for adjustment in topography.plates.adjustments() {
        let at = mesh.place(adjustment.hex) as usize;
        expected[at] = adjust(expected[at], adjustment.effect);
    }
    assert_eq!(topography.elevations, expected);
    assert_eq!(topography.width, 200);
    assert_eq!(topography.height, 160);
    assert_eq!(*topography.get_hex(3, 7), expected[3 * 160 + 7]);
    assert_eq!(*topography.get_hex(199, 159), expected[200 * 160 - 1]);
    let again = Topography::new(&options, &mesh, &sample, &bearing, &adjust).unwrap();
    assert_eq!(again.elevations, topography.elevations);
}

#[test]
fn topography_fails_where_seeds_cannot_be_placed() {
    let small = options(0, 4, 4, Orientation::Flat);
    let mesh = Mesh::new(&small).unwrap();
    let r = Topography::new(&small, &mesh, &|_c: Coord| 0.0f32, &|_a: Coord, _b: Coord| 0u32, &adjust);
    assert_eq!(r.err(), Some(SeedError::InvalidDimensions));
    let tight = options(0, 12, 12, Orientation::Pointy);
    let mesh = Mesh::new(&tight).unwrap();
    let r = Topography::new(&tight, &mesh, &|_c: Coord| 0.0f32, &|_a: Coord, _b: Coord| 0u32, &adjust);
    assert_eq!(r.err(), Some(SeedError::AttemptsExhausted));
}
