//! What a renderer needs from the library: the colours of the debug palette,
//! and the four quadrants that a map is drawn in.

pub mod colors;

use crate::mesh::Coord;
use vstd::prelude::*;

verus! {

/// One of the four parts that a map is drawn in, around its central hex.
#[derive(Clone, Copy, Debug, PartialEq, Eq, Structural)]
pub enum Quadrant {
    TopLeft,
    TopRight,
    BottomLeft,
    BottomRight,
}

impl Quadrant {
    /// The name of the quadrant.
    pub open spec fn spec_name(self) -> Seq<char> {
        match self {
            Quadrant::TopLeft => "top_left"@,
            Quadrant::TopRight => "top_right"@,
            Quadrant::BottomLeft => "bottom_left"@,
            Quadrant::BottomRight => "bottom_right"@,
        }
    }

    /// The name of the quadrant, as file names carry it.
    pub fn to_string(&self) -> (r: String)
        ensures
            r@ == self.spec_name(),
    {
        match self {
            Quadrant::TopLeft => "top_left".to_owned(),
            Quadrant::TopRight => "top_right".to_owned(),
            Quadrant::BottomLeft => "bottom_left".to_owned(),
            Quadrant::BottomRight => "bottom_right".to_owned(),
        }
    }

    /// The hexes of the quadrant: the first column and row, and the column
    /// and row after the last.
    pub open spec fn spec_mesh(self, center: Coord, width: int, height: int) -> (
        (int, int),
        (int, int),
    ) {
        match self {
            Quadrant::TopLeft => ((0, 0), (center.x as int, center.y + 1)),
            Quadrant::TopRight => ((center.x - 1, 0), (width, center.y + 1)),
            Quadrant::BottomLeft => ((0, center.y - 1), (center.x as int, height)),
            Quadrant::BottomRight => ((center.x - 1, center.y - 1), (width, height)),
        }
    }

    /// The hexes of the quadrant of a map of the given size around the hex
    /// at `center`: the coordinate of its first hex, and the coordinate one
    /// column and one row after its last. Neighbouring quadrants share the
    /// hexes next to the centre.
    pub fn mesh(&self, center: &Coord, width: i32, height: i32) -> (r: (Coord, Coord))
        requires
            i32::MIN < center.x < i32::MAX,
            i32::MIN < center.y < i32::MAX,
        ensures
            ((r.0.x as int, r.0.y as int), (r.1.x as int, r.1.y as int)) == self.spec_mesh(
                *center,
                width as int,
                height as int,
            ),
    {
        match self {
            Quadrant::TopLeft => (Coord::new(0, 0), center.displace(0, 1)),
            Quadrant::TopRight => (Coord::new(center.x - 1, 0), Coord::new(width, center.y + 1)),
            Quadrant::BottomLeft => (Coord::new(0, center.y - 1), Coord::new(center.x, height)),
            Quadrant::BottomRight => (
                Coord::new(center.x - 1, center.y - 1),
                Coord::new(width, height),
            ),
        }
    }
}

} // verus!
