use hextergen::cmd::GenerateOptions;
use hextergen::cmd::OffsetMode;
use hextergen::cmd::Orientation;
use hextergen::mesh::Coord;
use hextergen::mesh::Hex;
use hextergen::mesh::Mesh;
use hextergen::mesh::MeshError;

fn options(width: u32, height: u32, orientation: Orientation) -> GenerateOptions {
    GenerateOptions { seed: 0, width, height, orientation }
}

#[test]
fn coord_keeps_column_and_row() {
    let coord = Coord::new(10, 20);
    assert_eq!(coord.x, 10);
    assert_eq!(coord.y, 20);
    assert_eq!(coord.to_array(), [10, 20]);
    assert_eq!(Coord::from_array([7, -3]), Coord::new(7, -3));
}

#[test]
fn displaced_coordinate_moves_both_axes() {
    let coord = Coord::new(10, 20);
    let displaced = coord.displace(3, -2);
    assert_eq!(displaced.x, 13);
    assert_eq!(displaced.y, 18);
}

#[test]
fn wrap_x_reduces_the_column_modulo_the_width() {
    assert_eq!(Coord::new(-1, 4).wrap_x(10), Coord::new(9, 4));
    assert_eq!(Coord::new(10, 4).wrap_x(10), Coord::new(0, 4));
    assert_eq!(Coord::new(3, 4).wrap_x(10), Coord::new(3, 4));
    assert_eq!(Coord::new(-10, 0).wrap_x(10), Coord::new(0, 0));
    assert_eq!(Coord::new(-11, 0).wrap_x(10), Coord::new(9, 0));
    assert_eq!(Coord::new(25, 0).wrap_x(10), Coord::new(5, 0));
    assert_eq!(Coord::new(i32::MIN, 1).wrap_x(7), Coord::new(5, 1));
}

#[test]
fn hex_has_axial_and_offset_coordinates() {
    let hex = Hex::new(Coord::new(5, 5), OffsetMode::OddColumns, 10, 10);
    assert_eq!(hex.axial.x, 5);
    assert_eq!(hex.axial.y, 3);
    assert_eq!(hex.offset.x, 5);
    assert_eq!(hex.offset.y, 5);
}

#[test]
fn hex_axial_coordinates_follow_the_offset_mode() {
    let at = Coord::new(5, 5);
    assert_eq!(Hex::new(at, OffsetMode::EvenColumns, 10, 10).axial.y, 2);
    assert_eq!(Hex::new(at, OffsetMode::OddColumns, 10, 10).axial.y, 3);
    assert_eq!(Hex::new(at, OffsetMode::EvenRows, 10, 10).axial.x, 2);
    assert_eq!(Hex::new(at, OffsetMode::OddRows, 10, 10).axial.x, 3);
    assert_eq!(Hex::new(at, OffsetMode::EvenRows, 10, 10).axial.y, 5);
}

#[test]
fn inner_hex_has_six_unwrapped_neighbours_in_order() {
    let hex = Hex::new(Coord::new(5, 5), OffsetMode::OddColumns, 10, 10);
    let expected = vec![
        (Coord::new(6, 6), false),
        (Coord::new(5, 6), false),
        (Coord::new(4, 6), false),
        (Coord::new(4, 5), false),
        (Coord::new(5, 4), false),
        (Coord::new(6, 5), false),
    ];
    assert_eq!(hex.neighbors, expected);
}

#[test]
fn corner_hex_loses_neighbours_above_and_wraps_to_the_left() {
    let hex = Hex::new(Coord::new(0, 0), OffsetMode::OddColumns, 10, 10);
    let expected = vec![
        (Coord::new(1, 0), false),
        (Coord::new(0, 1), false),
        (Coord::new(9, 0), true),
    ];
    assert_eq!(hex.neighbors, expected);
}

#[test]
fn last_column_wraps_to_the_first() {
    let hex = Hex::new(Coord::new(9, 5), OffsetMode::OddColumns, 10, 10);
    assert!(hex.neighbors.contains(&(Coord::new(0, 5), true)));
    assert!(hex.neighbors.contains(&(Coord::new(0, 6), true)));
    assert_eq!(hex.neighbors.len(), 6);
}

#[test]
fn every_coordinate_appears_once_and_neighbours_are_in_the_grid() {
    for orientation in [Orientation::Flat, Orientation::Pointy] {
        for (w, h) in [(3u32, 3u32), (4, 3), (3, 5), (7, 6)] {
            let mesh = Mesh::new(&options(w, h, orientation)).unwrap();
            assert_eq!(mesh.width, w as i32);
            assert_eq!(mesh.height, h as i32);
            assert_eq!(mesh.size(), (w * h) as u64);
            let mut seen = vec![false; (w * h) as usize];
            for x in 0..w as i32 {
                for y in 0..h as i32 {
                    let hex = mesh.get_hex(x, y);
                    assert_eq!(hex.offset, Coord::new(x, y));
                    let place = mesh.place(hex.offset) as usize;
                    assert!(!seen[place]);
                    seen[place] = true;
                    assert!(hex.neighbors.len() <= 6);
                    for (n, _) in &hex.neighbors {
                        assert!(0 <= n.x && n.x < w as i32);
                        assert!(0 <= n.y && n.y < h as i32);
                    }
                }
            }
            assert!(seen.iter().all(|s| *s));
        }
    }
}

#[test]
fn first_and_last_column_are_mutual_wrapped_neighbours() {
    for orientation in [Orientation::Flat, Orientation::Pointy] {
        let mesh = Mesh::new(&options(6, 4, orientation)).unwrap();
        for y in 0..4 {
            let first = mesh.get_hex(0, y);
            let last = mesh.get_hex(5, y);
            assert!(first.neighbors.contains(&(Coord::new(5, y), true)));
            assert!(last.neighbors.contains(&(Coord::new(0, y), true)));
        }
        for x in 0..6 {
            assert!(mesh.get_hex(x, 0).neighbors.iter().all(|(n, _)| n.y >= 0));
            assert!(mesh.get_hex(x, 3).neighbors.iter().all(|(n, _)| n.y <= 3));
            assert!(mesh.get_hex(x, 0).neighbors.len() < 6);
        }
    }
}

#[test]
fn only_neighbours_across_the_edge_are_marked_wrapped() {
    let mesh = Mesh::new(&options(6, 5, Orientation::Flat)).unwrap();
    for x in 0..6 {
        for y in 0..5 {
            for (n, wrapped) in &mesh.get_hex(x, y).neighbors {
                let across = (x == 0 && n.x == 5) || (x == 5 && n.x == 0);
                assert_eq!(*wrapped, across);
            }
        }
    }
}

#[test]
fn mesh_uses_the_offset_mode_of_the_orientation() {
    let flat = Mesh::new(&options(10, 10, Orientation::Flat)).unwrap();
    assert_eq!(flat.offset_mode, OffsetMode::OddColumns);
    assert_eq!(flat.get_hex(5, 5).axial.y, 3);
    let pointy = Mesh::new(&options(10, 10, Orientation::Pointy)).unwrap();
    assert_eq!(pointy.offset_mode, OffsetMode::OddRows);
    assert_eq!(pointy.get_hex(5, 5).axial.x, 3);
    assert_eq!(pointy.get_hex(5, 5).axial.y, 5);
}

#[test]
fn mesh_refuses_invalid_dimensions() {
    assert_eq!(
        Mesh::new(&options(0, 10, Orientation::Flat)).err(),
        Some(MeshError::InvalidDimensions)
    );
    assert_eq!(
        Mesh::new(&options(10, 0, Orientation::Flat)).err(),
        Some(MeshError::InvalidDimensions)
    );
    assert_eq!(
        Mesh::new(&options(32769, 1, Orientation::Flat)).err(),
        Some(MeshError::InvalidDimensions)
    );
    assert!(Mesh::new(&options(1, 1, Orientation::Pointy)).is_ok());
}

#[test]
fn single_hex_mesh_is_its_own_wrapped_neighbour() {
    let mesh = Mesh::new(&options(1, 1, Orientation::Flat)).unwrap();
    let hex = mesh.get_hex(0, 0);
    assert!(hex.neighbors.iter().all(|(n, w)| *n == Coord::new(0, 0) && *w));
    assert_eq!(hex.neighbors.len(), 2);
}

#[test]
fn bounds_are_taken_from_the_first_and_last_hex_and_their_neighbours() {
    let mesh = Mesh::new(&options(10, 10, Orientation::Flat)).unwrap();
    let expected = vec![
        Coord::new(0, 0),
        Coord::new(1, 0),
        Coord::new(0, 1),
        Coord::new(9, 9),
        Coord::new(8, 9),
        Coord::new(9, 8),
    ];
    assert_eq!(mesh.bounding(), expected);
    let single = Mesh::new(&options(1, 1, Orientation::Flat)).unwrap();
    assert_eq!(single.bounding(), vec![Coord::new(0, 0), Coord::new(0, 0)]);
    let mut hexes = vec![Coord::new(3, 3)];
    mesh.push_unwrapped(&mut hexes, Coord::new(0, 5));
    assert_eq!(
        hexes,
        vec![
            Coord::new(3, 3),
            Coord::new(1, 5),
            Coord::new(0, 6),
            Coord::new(0, 4),
            Coord::new(1, 4),
        ]
    );
}
