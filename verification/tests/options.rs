use hextergen::cmd::same_text;
use hextergen::cmd::GenerateOptions;
use hextergen::cmd::OffsetMode;
use hextergen::cmd::OptionsError;
use hextergen::cmd::Orientation;
use hextergen::render::colors::Colors;
use hextergen::render::Quadrant;
use hextergen::mesh::Coord;
use hextergen::utils::id;
use hextergen::utils::queues::FIRO;

#[test]
fn default_options_are_a_flat_map_of_200_by_160() {
    let options = GenerateOptions::default();
    assert_eq!(options.seed, 0);
    assert_eq!(options.width, 200);
    assert_eq!(options.height, 160);
    assert_eq!(options.orientation, Orientation::Flat);
    assert!(options.valid());
    assert_eq!(options.offset_mode(), OffsetMode::OddColumns);
}

#[test]
fn options_take_what_is_given_and_default_the_rest() {
    let all = GenerateOptions::from_args(Some(7), Some(30), Some(20), Some("pointy")).unwrap();
    assert_eq!(
        all,
        GenerateOptions { seed: 7, width: 30, height: 20, orientation: Orientation::Pointy }
    );
    assert_eq!(all.offset_mode(), OffsetMode::OddRows);
    let none = GenerateOptions::from_args(None, None, None, None).unwrap();
    assert_eq!(none, GenerateOptions::default());
    let flat = GenerateOptions::from_args(None, Some(12), None, Some("flat")).unwrap();
    assert_eq!(flat.width, 12);
    assert_eq!(flat.height, 160);
    assert_eq!(flat.orientation, Orientation::Flat);
}

#[test]
fn options_refuse_an_unknown_orientation() {
    assert_eq!(
        GenerateOptions::from_args(None, None, None, Some("round")),
        Err(OptionsError::InvalidOrientation)
    );
    assert_eq!(
        GenerateOptions::from_args(None, Some(0), None, Some("Flat")),
        Err(OptionsError::InvalidOrientation)
    );
    assert_eq!(Orientation::from_name("flat"), Some(Orientation::Flat));
    assert_eq!(Orientation::from_name("pointy"), Some(Orientation::Pointy));
    assert_eq!(Orientation::from_name(""), None);
    assert_eq!(Orientation::from_name("flat "), None);
}

#[test]
fn options_refuse_invalid_dimensions() {
    assert_eq!(
        GenerateOptions::from_args(None, Some(0), None, None),
        Err(OptionsError::InvalidDimensions)
    );
    assert_eq!(
        GenerateOptions::from_args(None, None, Some(32769), Some("flat")),
        Err(OptionsError::InvalidDimensions)
    );
    assert!(GenerateOptions::from_args(None, Some(32768), Some(1), None).is_ok());
}

#[test]
fn same_text_compares_character_by_character() {
    assert!(same_text("", ""));
    assert!(same_text("flat", "flat"));
    assert!(!same_text("flat", "flag"));
    assert!(!same_text("flat", "fla"));
    assert!(same_text("h\u{e9}x", "h\u{e9}x"));
}

#[test]
fn column_modes_are_the_flat_ones() {
    assert!(OffsetMode::EvenColumns.is_columns());
    assert!(OffsetMode::OddColumns.is_columns());
    assert!(!OffsetMode::EvenRows.is_columns());
    assert!(!OffsetMode::OddRows.is_columns());
}

#[test]
fn debug_palette_has_fixed_values() {
    assert_eq!(hextergen::render::colors::Debug::Brown.values(), [255, 181, 112]);
    assert_eq!(hextergen::render::colors::Debug::Green.values(), [97, 255, 100]);
    assert_eq!(hextergen::render::colors::Debug::Red.values(), [255, 112, 122]);
    assert_eq!(hextergen::render::colors::Debug::Blue.values(), [82, 163, 255]);
    assert_eq!(hextergen::render::colors::Debug::Brown.rgba(), [255, 181, 112, 255]);
    assert_eq!(hextergen::render::colors::Debug::Blue.rgba(), [82, 163, 255, 255]);
    assert_eq!(hextergen::render::colors::Debug::Green.alpha(17), [97, 255, 100, 17]);
}

#[test]
fn elevation_colour_is_brown_above_and_blue_below() {
    assert_eq!(hextergen::render::colors::Debug::from_level(true, 200), [255, 181, 112, 200]);
    assert_eq!(hextergen::render::colors::Debug::from_level(false, 200), [82, 163, 255, 55]);
    assert_eq!(hextergen::render::colors::Debug::from_level(false, 127), [82, 163, 255, 128]);
    assert_eq!(hextergen::render::colors::Debug::from_level(false, 255), [82, 163, 255, 0]);
}

#[test]
fn quadrants_have_names_and_share_the_centre() {
    assert_eq!(Quadrant::TopLeft.to_string(), "top_left");
    assert_eq!(Quadrant::TopRight.to_string(), "top_right");
    assert_eq!(Quadrant::BottomLeft.to_string(), "bottom_left");
    assert_eq!(Quadrant::BottomRight.to_string(), "bottom_right");
    let center = Coord::new(100, 80);
    assert_eq!(
        Quadrant::TopLeft.mesh(&center, 200, 160),
        (Coord::new(0, 0), Coord::new(100, 81))
    );
    assert_eq!(
        Quadrant::TopRight.mesh(&center, 200, 160),
        (Coord::new(99, 0), Coord::new(200, 81))
    );
    assert_eq!(
        Quadrant::BottomLeft.mesh(&center, 200, 160),
        (Coord::new(0, 79), Coord::new(100, 160))
    );
    assert_eq!(
        Quadrant::BottomRight.mesh(&center, 200, 160),
        (Coord::new(99, 79), Coord::new(200, 160))
    );
}

#[test]
fn identifier_is_drawn_from_the_alphabet() {
    let a = id::new(42, 8);
    assert_eq!(a.chars().count(), 8);
    assert!(a.chars().all(|c| id::ALPHABET.contains(c)));
    assert_eq!(id::ALPHABET.chars().count() as u64, id::ALPHABET_LEN);
    assert_eq!(id::new(42, 8), a);
    assert_eq!(id::new(42, 0), "");
    let longer = id::new(42, 12);
    assert!(longer.starts_with(&a));
    let many: Vec<String> = (0..20).map(|s| id::new(s, 8)).collect();
    assert!(many.iter().any(|s| *s != many[0]));
    assert!(id::new(1, 64).chars().any(|c| c != 'A'));
}

#[test]
fn queue_hands_out_every_item_once() {
    let mut queue: FIRO<u32> = FIRO::new(9);
    assert_eq!(queue.len(), 0);
    assert_eq!(queue.dequeue(), None);
    for item in 0..50 {
        queue.enqueue(item);
    }
    assert_eq!(queue.len(), 50);
    let mut out = Vec::new();
    while let Some(item) = queue.dequeue() {
        out.push(item);
    }
    assert_eq!(queue.dequeue(), None);
    let mut sorted = out.clone();
    sorted.sort();
    assert_eq!(sorted, (0..50).collect::<Vec<u32>>());
    assert_ne!(out, sorted);
}

#[test]
fn queue_with_one_seed_hands_out_in_one_order() {
    let mut first: FIRO<u32> = FIRO::new(3);
    let mut second: FIRO<u32> = FIRO::new(3);
    for item in 0..30 {
        first.enqueue(item);
        second.enqueue(item);
    }
    for _ in 0..30 {
        assert_eq!(first.dequeue(), second.dequeue());
    }
}

#[test]
fn queue_of_one_hands_out_that_item() {
    let mut queue: FIRO<&str> = FIRO::new(0);
    queue.enqueue("only");
    assert_eq!(queue.dequeue(), Some("only"));
    assert_eq!(queue.dequeue(), None);
}
