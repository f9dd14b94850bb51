//! How two plates that touch act on each other, and what that does to the
//! hexes of a slope.

use vstd::prelude::*;

verus! {

/// Whether a plate moves towards the line between two plates or away from it.
#[derive(Clone, Copy, Debug, PartialEq, Eq, Structural)]
pub enum Angle {
    In,
    Out,
}

impl Angle {
    /// The class of an angle in degrees: in, when it lies within a quarter
    /// turn of zero.
    pub open spec fn spec_from_degree(degree: int) -> Angle {
        if degree >= 270 || degree <= 90 {
            Angle::In
        } else {
            Angle::Out
        }
    }

    /// The class of an angle in degrees: `In` from 270 up and up to 90, `Out`
    /// between the two.
    pub fn from_degree(degree: u32) -> (r: Angle)
        ensures
            r == Self::spec_from_degree(degree as int),
    {
        if degree >= 270 || degree <= 90 {
            Angle::In
        } else {
            Angle::Out
        }
    }
}

/// The angle between a plate's direction and a bearing, in `0..360`.
pub open spec fn spec_relative(direction: int, bearing: int) -> int {
    (direction - bearing) % 360
}

/// The angle between a plate's direction and a bearing, both in degrees,
/// reduced to `0..360`.
pub fn relative(direction: u32, bearing: u32) -> (r: u32)
    ensures
        r == spec_relative(direction as int, bearing as int),
        r < 360,
{
    let d: u32 = direction % 360;
    let b: u32 = bearing % 360;
    (d + 360 - b) % 360
}

/// How two plates that touch move against each other.
#[derive(Clone, Copy, Debug, PartialEq, Eq, Structural)]
pub enum InteractionVariant {
    Convergent,
    Divergent,
}

/// What a slope does to the elevation of one of its hexes.
#[derive(Clone, Copy, Debug, PartialEq, Eq, Structural)]
pub enum Effect {
    /// Near the seed: the elevation is only damped.
    Damp,
    /// Further out: the elevation is pushed by `index / last` of the full
    /// step, up when `rise` holds and down when not, and then stretched.
    Shift { rise: bool, index: usize, last: usize },
}

impl InteractionVariant {
    /// The variant for two plates, from the bearing of the line between
    /// them, and from the direction and the size of each.
    pub open spec fn spec_new(
        bearing: int,
        origin_direction: int,
        origin_magnitude: int,
        other_direction: int,
        other_magnitude: int,
    ) -> InteractionVariant {
        let origin = Angle::spec_from_degree(spec_relative(origin_direction, bearing));
        let other = Angle::spec_from_degree(spec_relative(other_direction, bearing));
        match (origin, other) {
            (Angle::In, Angle::In) => InteractionVariant::Convergent,
            (Angle::Out, Angle::Out) => InteractionVariant::Convergent,
            (Angle::In, Angle::Out) => if origin_magnitude > other_magnitude {
                InteractionVariant::Convergent
            } else {
                InteractionVariant::Divergent
            },
            (Angle::Out, Angle::In) => if other_magnitude > origin_magnitude {
                InteractionVariant::Convergent
            } else {
                InteractionVariant::Divergent
            },
        }
    }

    /// Classifies how two plates act on each other. Each plate's direction is
    /// taken relative to `bearing`, the direction of the line between the
    /// two, and classed as in or out. Two plates of the same class converge.
    /// Of two plates of different classes, the one that moves in decides: they
    /// converge when it is the larger one, and diverge when it is not.
    pub fn new(
        bearing: u32,
        origin_direction: u32,
        origin_magnitude: usize,
        other_direction: u32,
        other_magnitude: usize,
    ) -> (r: InteractionVariant)
        ensures
            r == Self::spec_new(
                bearing as int,
                origin_direction as int,
                origin_magnitude as int,
                other_direction as int,
                other_magnitude as int,
            ),
    {
        let origin = Angle::from_degree(relative(origin_direction, bearing));
        let other = Angle::from_degree(relative(other_direction, bearing));
        match (origin, other) {
            (Angle::In, Angle::In) => InteractionVariant::Convergent,
            (Angle::Out, Angle::Out) => InteractionVariant::Convergent,
            (Angle::In, Angle::Out) => {
                if origin_magnitude > other_magnitude {
                    InteractionVariant::Convergent
                } else {
                    InteractionVariant::Divergent
                }
            },
            (Angle::Out, Angle::In) => {
                if other_magnitude > origin_magnitude {
                    InteractionVariant::Convergent
                } else {
                    InteractionVariant::Divergent
                }
            },
        }
    }

    /// What a slope of this variant does to its hex at `index`.
    pub open spec fn spec_effect(self, index: int, slope_len: int) -> Effect {
        if 10 * index < 3 * slope_len {
            Effect::Damp
        } else {
            Effect::Shift {
                rise: self == InteractionVariant::Convergent,
                index: index as usize,
                last: (slope_len - 1) as usize,
            }
        }
    }

    /// What a slope of `slope_len` hexes does to its hex at `index`. The
    /// first three tenths of the slope are only damped. The rest is pushed by
    /// `index / (slope_len - 1)` of the full step: up on a convergent slope,
    /// down on a divergent one.
    pub fn effect(&self, index: usize, slope_len: usize) -> (r: Effect)
        requires
            index < slope_len,
        ensures
            r == self.spec_effect(index as int, slope_len as int),
            r is Shift ==> r->last >= 1 && r->index <= r->last,
    {
        if (index as u128) * 10 < (slope_len as u128) * 3 {
            Effect::Damp
        } else {
            let rise = match self {
                InteractionVariant::Convergent => true,
                InteractionVariant::Divergent => false,
            };
            Effect::Shift { rise, index, last: slope_len - 1 }
        }
    }
}

/// The classification does not depend on which of the two plates is taken
/// first: with the same bearing, swapping the plates gives the same variant.
pub proof fn lemma_interaction_symmetric(
    bearing: int,
    a_direction: int,
    a_magnitude: int,
    b_direction: int,
    b_magnitude: int,
)
    ensures
        InteractionVariant::spec_new(bearing, a_direction, a_magnitude, b_direction, b_magnitude)
            == InteractionVariant::spec_new(
            bearing,
            b_direction,
            b_magnitude,
            a_direction,
            a_magnitude,
        ),
{
}

} // verus!
