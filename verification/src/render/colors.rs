//! The colours that maps are drawn in.

use vstd::prelude::*;

verus! {

/// A colour with fixed red, green and blue values.
pub trait Colors {
    /// Red, green and blue, in this order.
    spec fn spec_values(&self) -> Seq<u8>;

    /// Red, green and blue, in this order.
    fn values(&self) -> (r: [u8; 3])
        ensures
            r@ == self.spec_values(),
    ;

    /// The colour with the given opacity: red, green, blue, then `alpha`.
    fn alpha(&self, alpha: u8) -> (r: [u8; 4])
        ensures
            r@ == self.spec_values().push(alpha),
    ;

    /// The opaque colour: red, green, blue, then 255.
    fn rgba(&self) -> (r: [u8; 4])
        ensures
            r@ == self.spec_values().push(255u8),
    ;
}

/// The palette of the debug rendering.
#[derive(Clone, Copy, PartialEq, Eq, Structural)]
pub enum Debug {
    Brown,
    Green,
    Red,
    Blue,
}

impl Colors for Debug {
    open spec fn spec_values(&self) -> Seq<u8> {
        match self {
            Debug::Brown => seq![255u8, 181u8, 112u8],
            Debug::Green => seq![97u8, 255u8, 100u8],
            Debug::Red => seq![255u8, 112u8, 122u8],
            Debug::Blue => seq![82u8, 163u8, 255u8],
        }
    }

    fn values(&self) -> (r: [u8; 3]) {
        let r: [u8; 3] = match self {
            Debug::Brown => [255, 181, 112],
            Debug::Green => [97, 255, 100],
            Debug::Red => [255, 112, 122],
            Debug::Blue => [82, 163, 255],
        };
        assert(r@ =~= self.spec_values());
        r
    }

    fn alpha(&self, alpha: u8) -> (r: [u8; 4]) {
        let values = self.values();
        let r: [u8; 4] = [values[0], values[1], values[2], alpha];
        assert(r@ =~= self.spec_values().push(alpha));
        r
    }

    fn rgba(&self) -> (r: [u8; 4]) {
        self.alpha(255)
    }
}

impl Debug {
    /// The colour of an elevation in the debug palette.
    pub open spec fn spec_from_level(above: bool, level: u8) -> Seq<u8> {
        if above {
            Debug::Brown.spec_values().push(level)
        } else {
            Debug::Blue.spec_values().push((255 - level) as u8)
        }
    }

    /// The colour of an elevation in the debug palette, from the side of
    /// sea level that it is on and from its level, which grows with the
    /// distance from sea level: brown above, the more opaque the higher;
    /// blue at sea level and below, the more opaque the nearer.
    pub fn from_level(above: bool, level: u8) -> (r: [u8; 4])
        ensures
            r@ == Self::spec_from_level(above, level),
    {
        if above {
            Debug::Brown.alpha(level)
        } else {
            Debug::Blue.alpha(255u8 - level)
        }
    }
}

} // verus!
