//! How close a point is to a hazard.

use vstd::prelude::*;
use std::cmp::Ordering;
use crate::geometry::geo_enums::GeoPosition;

verus! {

/// The distance from a point to the border of a hazard, and the side of the border on
/// which the point lies.
///
/// Proximities are totally ordered by closeness to the hazard: a point inside the
/// hazard is closer than any point outside of it; of two points inside, the deeper one
/// is closer; of two points outside, the nearer one is closer. A distance of
/// `u64::MAX` stands for "no hazard in sight".
#[derive(Clone, Copy, Debug, PartialEq, Eq, Hash, Structural)]
pub struct Proximity {
    pub position: GeoPosition,
    pub distance_from_border: u64,
}

impl Proximity {
    /// The place of a proximity on the number line: the negated distance, less one,
    /// inside the hazard; the distance outside. Proximities are ordered by ascending
    /// rank.
    pub open spec fn rank(self) -> int {
        match self.position {
            GeoPosition::Interior => -(self.distance_from_border as int) - 1,
            GeoPosition::Exterior => self.distance_from_border as int,
        }
    }

    /// `self` is strictly closer to the hazard than `other`.
    pub open spec fn closer_than(self, other: Proximity) -> bool {
        self.rank() < other.rank()
    }

    /// `self` is at least as close to the hazard as `other`.
    pub open spec fn as_close_as(self, other: Proximity) -> bool {
        self.rank() <= other.rank()
    }

    /// The closer of two proximities.
    pub open spec fn spec_min(self, other: Proximity) -> Proximity {
        if other.closer_than(self) {
            other
        } else {
            self
        }
    }

    /// The proximity of a point that has no hazard in sight: outside, at distance
    /// `u64::MAX`. No proximity is farther.
    pub open spec fn farthest() -> Proximity {
        Proximity { position: GeoPosition::Exterior, distance_from_border: u64::MAX }
    }

    /// A proximity from its two parts.
    pub fn new(position: GeoPosition, distance_from_border: u64) -> (r: Proximity)
        ensures
            r.position == position,
            r.distance_from_border == distance_from_border,
    {
        Proximity { position, distance_from_border }
    }

    /// Tells whether `self` is strictly closer to the hazard than `other`.
    pub fn is_closer_than(&self, other: &Proximity) -> (r: bool)
        ensures
            r == self.closer_than(*other),
    {
        match (self.position, other.position) {
            (GeoPosition::Interior, GeoPosition::Interior) => self.distance_from_border
                > other.distance_from_border,
            (GeoPosition::Interior, GeoPosition::Exterior) => true,
            (GeoPosition::Exterior, GeoPosition::Interior) => false,
            (GeoPosition::Exterior, GeoPosition::Exterior) => self.distance_from_border
                < other.distance_from_border,
        }
    }

    /// The closer of two proximities; `self` where they are equal.
    pub fn min(self, other: Proximity) -> (r: Proximity)
        ensures
            r == self.spec_min(other),
    {
        if other.is_closer_than(&self) {
            other
        } else {
            self
        }
    }
}

impl Default for Proximity {
    /// The proximity of a point that has no hazard in sight.
    fn default() -> (r: Proximity)
        ensures
            r == Proximity::farthest(),
    {
        Proximity { position: GeoPosition::Exterior, distance_from_border: u64::MAX }
    }
}

impl PartialOrd for Proximity {
    fn partial_cmp(&self, other: &Proximity) -> (r: Option<Ordering>) {
        if self.is_closer_than(other) {
            Some(Ordering::Less)
        } else if other.is_closer_than(self) {
            Some(Ordering::Greater)
        } else {
            Some(Ordering::Equal)
        }
    }
}

impl vstd::std_specs::cmp::PartialOrdSpecImpl for Proximity {
    open spec fn obeys_partial_cmp_spec() -> bool {
        true
    }

    open spec fn partial_cmp_spec(&self, other: &Proximity) -> Option<Ordering> {
        if self.closer_than(*other) {
            Some(Ordering::Less)
        } else if other.closer_than(*self) {
            Some(Ordering::Greater)
        } else {
            Some(Ordering::Equal)
        }
    }
}

/// Two proximities of the same rank are the same proximity.
pub proof fn lemma_rank_injective(a: Proximity, b: Proximity)
    requires
        a.rank() == b.rank(),
    ensures
        a == b,
{
}

/// The order is total: of two different proximities exactly one is closer.
pub proof fn lemma_order_total(a: Proximity, b: Proximity)
    ensures
        a.closer_than(b) || b.closer_than(a) || a == b,
        !(a.closer_than(b) && b.closer_than(a)),
        !a.closer_than(a),
{
}

/// The order is transitive.
pub proof fn lemma_order_transitive(a: Proximity, b: Proximity, c: Proximity)
    requires
        a.as_close_as(b),
        b.as_close_as(c),
    ensures
        a.as_close_as(c),
        a.closer_than(b) || b.closer_than(c) ==> a.closer_than(c),
{
}

/// Inside is closer than outside, whatever the distances.
pub proof fn lemma_interior_closer_than_exterior(a: Proximity, b: Proximity)
    requires
        a.position == GeoPosition::Interior,
        b.position == GeoPosition::Exterior,
    ensures
        a.closer_than(b),
{
}

/// No proximity is farther than `farthest()`.
pub proof fn lemma_farthest(a: Proximity)
    ensures
        a.as_close_as(Proximity::farthest()),
{
}

/// The closer of two proximities is one of them, is as close as both, and does not
/// depend on their order.
pub proof fn lemma_min(a: Proximity, b: Proximity)
    ensures
        a.spec_min(b) == a || a.spec_min(b) == b,
        a.spec_min(b).as_close_as(a),
        a.spec_min(b).as_close_as(b),
        a.spec_min(b) == b.spec_min(a),
{
}

} // verus!
