use hextergen::cmd::GenerateOptions;
use hextergen::cmd::Orientation;
use hextergen::mesh::Coord;
use hextergen::mesh::Mesh;
use hextergen::topography::bearings::Bearings;
use hextergen::topography::interaction::relative;
use hextergen::topography::interaction::Angle;
use hextergen::topography::interaction::Effect;
use hextergen::topography::interaction::InteractionVariant;
use hextergen::topography::plates::NeighborId;
use hextergen::topography::plates::Plates;
use hextergen::topography::seeds::far_enough;
use hextergen::topography::seeds::seeds;
use hextergen::topography::seeds::SeedError;

fn options(seed: u64, width: u32, height: u32) -> GenerateOptions {
    GenerateOptions { seed, width, height, orientation: Orientation::Flat }
}

fn steps(mesh: &Mesh, a: Coord, b: Coord) -> i32 {
    let p = mesh.get_hex(a.x, a.y).axial;
    let q = mesh.get_hex(b.x, b.y).axial;
    let dx = (p.x - q.x).abs();
    let dy = (p.y - q.y).abs();
    let dz = (p.x - q.x + p.y - q.y).abs();
    dx.max(dy).max(dz)
}

fn bearings_by_index(n: usize) -> Bearings {
    let mut degrees = Vec::new();
    for a in 0..n {
        let mut row = Vec::new();
        for b in 0..n {
            row.push(((a * 37 + b * 101) % 360) as u32);
        }
        degrees.push(row);
    }
    Bearings { degrees }
}

#[test]
fn far_enough_compares_with_the_scaled_diagonal() {
    // diagonal of 200 x 160 is 256.12, a thirtieth of it 8.54
    assert!(far_enough(9, 200, 160, 75));
    assert!(!far_enough(8, 200, 160, 75));
    // diagonal of 3 x 4 is 5: 2.5 * 5 / 5 = 2.5
    assert!(!far_enough(2, 3, 4, 5));
    assert!(far_enough(3, 3, 4, 5));
    // the distance must exceed the limit: 2.5 * 5 / 1 = 12.5, 2.5 * 10 / 5 = 5
    assert!(!far_enough(12, 3, 4, 1));
    assert!(far_enough(13, 3, 4, 1));
    assert!(!far_enough(5, 6, 8, 5));
    assert!(far_enough(6, 6, 8, 5));
    assert!(!far_enough(0, 10, 10, 0));
}

#[test]
fn seeding_a_small_map_ends_with_seeds_or_fails_fast() {
    let options = options(42, 10, 10);
    let mesh = Mesh::new(&options).unwrap();
    match seeds(&options, &mesh, 4) {
        Ok(found) => {
            assert_eq!(found.len(), 4);
            for i in 0..found.len() {
                for j in 0..i {
                    assert!(far_enough(steps(&mesh, found[i], found[j]), 10, 10, 4));
                }
            }
        }
        Err(e) => assert_eq!(e, SeedError::AttemptsExhausted),
    }
}

#[test]
fn seeding_what_cannot_fit_exhausts_the_attempts() {
    let options = options(42, 10, 10);
    let mesh = Mesh::new(&options).unwrap();
    assert_eq!(seeds(&options, &mesh, 75).err(), Some(SeedError::AttemptsExhausted));
}

#[test]
fn seeds_keep_their_distance_from_edges_and_each_other() {
    let options = options(42, 30, 30);
    let mesh = Mesh::new(&options).unwrap();
    let found = seeds(&options, &mesh, 30).unwrap();
    assert_eq!(found.len(), 30);
    for (i, s) in found.iter().enumerate() {
        assert!(2 <= s.x && s.x < 28);
        assert!(2 <= s.y && s.y < 28);
        for t in &found[..i] {
            assert!(far_enough(steps(&mesh, *s, *t), 30, 30, 30));
            assert!(steps(&mesh, *s, *t) as f64 > (1800f64).sqrt() / 30.0 * 2.5);
        }
    }
    assert_eq!(seeds(&options, &mesh, 30).unwrap(), found);
    assert!(found.iter().any(|s| *s != found[0]));
    assert_eq!(seeds(&options, &mesh, 0).unwrap(), Vec::new());
}

#[test]
fn seeding_needs_room_between_the_edges() {
    let narrow = options(1, 4, 10);
    let mesh = Mesh::new(&narrow).unwrap();
    assert_eq!(seeds(&narrow, &mesh, 1).err(), Some(SeedError::InvalidDimensions));
    let low = options(1, 10, 4);
    let mesh = Mesh::new(&low).unwrap();
    assert_eq!(seeds(&low, &mesh, 1).err(), Some(SeedError::InvalidDimensions));
    assert_eq!(Plates::new(&low, &mesh).err(), Some(SeedError::InvalidDimensions));
    let least = options(1, 5, 5);
    let mesh = Mesh::new(&least).unwrap();
    assert_eq!(seeds(&least, &mesh, 1).unwrap(), vec![Coord::new(2, 2)]);
}

#[test]
fn default_map_is_partitioned_into_plates() {
    let options = GenerateOptions::default();
    let mesh = Mesh::new(&options).unwrap();
    let plates = Plates::new(&options, &mesh).unwrap();
    assert_eq!(plates.regions.len(), 75);
    let mut seen = vec![false; 200 * 160];
    for (i, plate) in plates.regions.iter().enumerate() {
        assert_eq!(plate.area[0], plate.seed);
        assert!(plate.direction < 360);
        assert!(plate.border.is_empty());
        assert!(plate.slopes.is_empty());
        for c in &plate.area {
            let at = mesh.place(*c) as usize;
            assert!(!seen[at]);
            seen[at] = true;
            assert_eq!(plates.owner_of(&mesh, *c), i);
        }
    }
    assert!(seen.iter().all(|s| *s));
}

#[test]
fn plates_grow_hex_by_hex_from_their_seed() {
    let options = options(5, 24, 18);
    let mesh = Mesh::new(&options).unwrap();
    let seeds = vec![Coord::new(3, 3), Coord::new(20, 4), Coord::new(11, 14)];
    let plates = Plates::grow(&seeds, &mesh, 5);
    assert_eq!(plates.seeds_list(), seeds);
    let total: usize = plates.regions.iter().map(|p| p.area.len()).sum();
    assert_eq!(total, 24 * 18);
    for plate in &plates.regions {
        for (j, c) in plate.area.iter().enumerate().skip(1) {
            let joined = plate.area[..j]
                .iter()
                .any(|e| mesh.get_hex(e.x, e.y).neighbors.iter().any(|(n, _)| n == c));
            assert!(joined);
        }
    }
}

#[test]
fn one_seed_grows_over_the_whole_mesh() {
    let options = options(1, 3, 3);
    let mesh = Mesh::new(&options).unwrap();
    let plates = Plates::grow(&vec![Coord::new(1, 1)], &mesh, 1);
    assert_eq!(plates.regions.len(), 1);
    assert_eq!(plates.regions[0].area.len(), 9);
    assert_eq!(plates.regions[0].area[0], Coord::new(1, 1));
}

#[test]
fn growth_is_the_same_for_the_same_seed() {
    let options = options(11, 40, 30);
    let mesh = Mesh::new(&options).unwrap();
    let seeds = vec![Coord::new(5, 5), Coord::new(30, 8), Coord::new(18, 22), Coord::new(35, 25)];
    let first = Plates::grow(&seeds, &mesh, 11);
    let second = Plates::grow(&seeds, &mesh, 11);
    let other = Plates::grow(&seeds, &mesh, 12);
    let mut differs = false;
    for i in 0..4 {
        assert_eq!(first.regions[i].area, second.regions[i].area);
        assert_eq!(first.regions[i].direction, second.regions[i].direction);
        differs = differs || first.regions[i].area != other.regions[i].area;
    }
    assert!(differs);
    for x in 0..40 {
        for y in 0..30 {
            let c = Coord::new(x, y);
            assert_eq!(first.owner_of(&mesh, c), second.owner_of(&mesh, c));
        }
    }
}

#[test]
fn angles_within_a_quarter_turn_of_zero_move_in() {
    assert_eq!(Angle::from_degree(0), Angle::In);
    assert_eq!(Angle::from_degree(90), Angle::In);
    assert_eq!(Angle::from_degree(91), Angle::Out);
    assert_eq!(Angle::from_degree(180), Angle::Out);
    assert_eq!(Angle::from_degree(269), Angle::Out);
    assert_eq!(Angle::from_degree(270), Angle::In);
    assert_eq!(Angle::from_degree(359), Angle::In);
}

#[test]
fn relative_angle_is_reduced_to_a_full_turn() {
    assert_eq!(relative(10, 350), 20);
    assert_eq!(relative(350, 10), 340);
    assert_eq!(relative(0, 0), 0);
    assert_eq!(relative(359, 0), 359);
    assert_eq!(relative(0, 359), 1);
    assert_eq!(relative(725, 0), 5);
    assert_eq!(relative(90, 180), 270);
}

#[test]
fn opposing_plates_of_equal_size_diverge() {
    assert_eq!(InteractionVariant::new(0, 0, 100, 180, 100), InteractionVariant::Divergent);
    assert_eq!(InteractionVariant::new(0, 180, 100, 0, 100), InteractionVariant::Divergent);
}

#[test]
fn plates_moving_the_same_way_converge() {
    assert_eq!(InteractionVariant::new(0, 0, 100, 0, 100), InteractionVariant::Convergent);
    assert_eq!(InteractionVariant::new(0, 45, 10, 315, 500), InteractionVariant::Convergent);
    assert_eq!(InteractionVariant::new(0, 180, 10, 135, 500), InteractionVariant::Convergent);
    assert_eq!(InteractionVariant::new(90, 90, 1, 180, 1), InteractionVariant::Convergent);
}

#[test]
fn of_two_classes_the_plate_moving_in_decides_by_size() {
    assert_eq!(InteractionVariant::new(0, 0, 101, 180, 100), InteractionVariant::Convergent);
    assert_eq!(InteractionVariant::new(0, 0, 100, 180, 101), InteractionVariant::Divergent);
    assert_eq!(InteractionVariant::new(0, 180, 100, 0, 101), InteractionVariant::Convergent);
    assert_eq!(InteractionVariant::new(0, 180, 101, 0, 100), InteractionVariant::Divergent);
    assert_eq!(InteractionVariant::new(30, 30, 7, 210, 6), InteractionVariant::Convergent);
}

#[test]
fn classification_does_not_depend_on_the_order_of_the_plates() {
    for bearing in [0u32, 45, 90, 200, 359] {
        for a in [0u32, 89, 90, 91, 180, 270, 300] {
            for b in [0u32, 10, 135, 269, 271] {
                for (ma, mb) in [(1usize, 1usize), (5, 9), (9, 5)] {
                    assert_eq!(
                        InteractionVariant::new(bearing, a, ma, b, mb),
                        InteractionVariant::new(bearing, b, mb, a, ma)
                    );
                }
            }
        }
    }
}

#[test]
fn slope_effect_damps_the_first_three_tenths() {
    let up = InteractionVariant::Convergent;
    let down = InteractionVariant::Divergent;
    assert_eq!(up.effect(0, 10), Effect::Damp);
    assert_eq!(up.effect(2, 10), Effect::Damp);
    assert_eq!(up.effect(3, 10), Effect::Shift { rise: true, index: 3, last: 9 });
    assert_eq!(up.effect(9, 10), Effect::Shift { rise: true, index: 9, last: 9 });
    assert_eq!(down.effect(3, 10), Effect::Shift { rise: false, index: 3, last: 9 });
    assert_eq!(down.effect(2, 7), Effect::Damp);
    assert_eq!(down.effect(3, 7), Effect::Shift { rise: false, index: 3, last: 6 });
    assert_eq!(down.effect(0, 1), Effect::Damp);
    assert_eq!(up.effect(1, 2), Effect::Shift { rise: true, index: 1, last: 1 });
}

#[test]
fn bearings_are_the_same_from_both_sides() {
    let bearings = bearings_by_index(4);
    assert!(bearings.fits(4));
    assert!(!bearings.fits(3));
    assert_eq!(bearings.between(1, 3), (37 + 303) % 360);
    assert_eq!(bearings.between(3, 1), bearings.between(1, 3));
    assert_eq!(bearings.between(2, 2), (74 + 202) % 360);
    let ragged = Bearings { degrees: vec![vec![0, 0], vec![0]] };
    assert!(!ragged.fits(2));
}

#[test]
fn bearings_are_measured_from_each_seed_to_each_later_one() {
    let seeds = vec![Coord::new(1, 1), Coord::new(4, 1), Coord::new(2, 5)];
    let bearings = Bearings::measure(&seeds, &|from: Coord, to: Coord| {
        (from.x * 100 + to.x * 10 + to.y) as u32
    });
    assert!(bearings.fits(3));
    assert_eq!(bearings.between(0, 1), 141);
    assert_eq!(bearings.between(1, 0), 141);
    assert_eq!(bearings.between(0, 2), 125);
    assert_eq!(bearings.between(2, 1), 425);
}

#[test]
fn two_plates_share_a_border_classified_the_same_from_both_sides() {
    let options = options(3, 12, 7);
    let mesh = Mesh::new(&options).unwrap();
    let seeds = vec![Coord::new(2, 3), Coord::new(8, 3)];
    let mut plates = Plates::grow(&seeds, &mesh, 3);
    plates.regions[0].direction = 0;
    plates.regions[1].direction = 180;
    let bearings = Bearings { degrees: vec![vec![0, 0], vec![180, 0]] };
    plates.borders(&mesh, &bearings);
    let sizes = [plates.regions[0].area.len(), plates.regions[1].area.len()];
    assert_eq!(sizes[0] + sizes[1], 84);
    let expected = InteractionVariant::new(0, 0, sizes[0], 180, sizes[1]);
    if sizes[0] > sizes[1] {
        assert_eq!(expected, InteractionVariant::Convergent);
    } else {
        assert_eq!(expected, InteractionVariant::Divergent);
    }
    for (i, plate) in plates.regions.iter().enumerate() {
        assert_eq!(plate.border.len(), 2);
        assert_eq!(plate.border[0].0, NeighborId::MapEdge);
        assert_eq!(plate.border[0].1.variant, InteractionVariant::Divergent);
        assert_eq!(plate.border[1].0, NeighborId::Region(seeds[1 - i]));
        assert_eq!(plate.border[1].1.variant, expected);
    }
}

#[test]
fn borders_hold_the_hexes_that_touch_the_neighbour_in_area_order() {
    let options = options(8, 30, 20);
    let mesh = Mesh::new(&options).unwrap();
    let seeds =
        vec![Coord::new(4, 4), Coord::new(24, 5), Coord::new(14, 10), Coord::new(6, 16)];
    let mut plates = Plates::grow(&seeds, &mesh, 8);
    let bearings = bearings_by_index(4);
    plates.borders(&mesh, &bearings);
    for (i, plate) in plates.regions.iter().enumerate() {
        let mut slots = Vec::new();
        for (id, interaction) in &plate.border {
            let slot = match id {
                NeighborId::MapEdge => 0,
                NeighborId::Region(seed) => 1 + seeds.iter().position(|s| s == seed).unwrap(),
            };
            slots.push(slot);
            assert_ne!(slot, i + 1);
            let touching: Vec<Coord> = plate
                .area
                .iter()
                .filter(|c| {
                    let neighbors = &mesh.get_hex(c.x, c.y).neighbors;
                    if slot == 0 {
                        neighbors.len() < 6
                    } else {
                        neighbors.len() == 6
                            && neighbors.iter().any(|(n, _)| plates.owner_of(&mesh, *n) == slot - 1)
                    }
                })
                .cloned()
                .collect();
            assert!(!touching.is_empty());
            assert_eq!(interaction.segment, touching);
            if slot == 0 {
                assert_eq!(interaction.variant, InteractionVariant::Divergent);
            } else {
                let o = slot - 1;
                let other = &plates.regions[o];
                assert_eq!(
                    interaction.variant,
                    InteractionVariant::new(
                        bearings.between(i, o),
                        plate.direction,
                        plate.area.len(),
                        other.direction,
                        other.area.len()
                    )
                );
                let back = other
                    .border
                    .iter()
                    .find(|(id, _)| *id == NeighborId::Region(plate.seed));
                if let Some((_, mirrored)) = back {
                    assert_eq!(mirrored.variant, interaction.variant);
                }
            }
        }
        let mut sorted = slots.clone();
        sorted.sort();
        sorted.dedup();
        assert_eq!(slots, sorted);
    }
}

#[test]
fn finding_borders_twice_gives_the_same_borders() {
    let options = options(8, 20, 12);
    let mesh = Mesh::new(&options).unwrap();
    let seeds = vec![Coord::new(4, 4), Coord::new(14, 7)];
    let mut plates = Plates::grow(&seeds, &mesh, 8);
    let bearings = bearings_by_index(2);
    plates.borders(&mesh, &bearings);
    let first: Vec<Vec<Coord>> =
        plates.regions[0].border.iter().map(|(_, b)| b.segment.clone()).collect();
    plates.borders(&mesh, &bearings);
    let second: Vec<Vec<Coord>> =
        plates.regions[0].border.iter().map(|(_, b)| b.segment.clone()).collect();
    assert_eq!(first, second);
}
