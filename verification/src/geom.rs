//! Points and rectangles on the longitude/latitude plane.
//!
//! Angles are whole numbers of micro-arc-seconds, so that every cell width of
//! the grid, down to half of the finest one, is an integer and cell bounds
//! are exact.

use vstd::prelude::*;

verus! {

/// One arc-second in the unit of the coordinates.
pub const UNITS_PER_ARC_SECOND: i64 = 1_000_000;

/// One degree in the unit of the coordinates.
pub const UNITS_PER_DEGREE: i64 = 3_600_000_000;

/// A point, in micro-arc-seconds.
#[derive(Debug, Clone, Copy, PartialEq, Eq, Structural)]
pub struct Coordinates {
    /// Longitude, positive to the east.
    pub lng: i64,
    /// Latitude, positive to the north.
    pub lat: i64,
}

impl Coordinates {
    /// The point with the given longitude and latitude.
    pub fn new(lng: i64, lat: i64) -> (r: Self)
        ensures
            r == (Coordinates { lng, lat }),
    {
        Self { lng, lat }
    }
}

/// An axis-aligned rectangle, closed at its minimum corner and open at its
/// maximum corner.
#[derive(Debug, Clone, Copy, PartialEq, Eq, Structural)]
pub struct Rect {
    /// The south-west corner.
    pub min_coord: Coordinates,
    /// The north-east corner.
    pub max_coord: Coordinates,
}

/// The midpoint of two angles, rounded down.
pub open spec fn spec_midpoint(a: int, b: int) -> int {
    (a + b) / 2
}

/// The midpoint of two angles, rounded down.
pub fn midpoint(a: i64, b: i64) -> (r: i64)
    ensures
        r == spec_midpoint(a as int, b as int),
{
    let sum: i128 = a as i128 + b as i128;
    if sum >= 0 {
        (sum / 2) as i64
    } else {
        let half: i128 = (1 - sum) / 2;
        (-half) as i64
    }
}

impl Rect {
    /// The rectangle between two corners.
    pub fn new(min_coord: Coordinates, max_coord: Coordinates) -> (r: Self)
        ensures
            r == (Rect { min_coord, max_coord }),
    {
        Self { min_coord, max_coord }
    }

    /// The south-west corner.
    pub fn min(&self) -> (r: Coordinates)
        ensures
            r == self.min_coord,
    {
        self.min_coord
    }

    /// The north-east corner.
    pub fn max(&self) -> (r: Coordinates)
        ensures
            r == self.max_coord,
    {
        self.max_coord
    }

    /// The point halfway between the corners.
    pub open spec fn spec_center(&self) -> Coordinates {
        Coordinates {
            lng: spec_midpoint(self.min_coord.lng as int, self.max_coord.lng as int) as i64,
            lat: spec_midpoint(self.min_coord.lat as int, self.max_coord.lat as int) as i64,
        }
    }

    /// The point halfway between the corners, each coordinate rounded down.
    pub fn center(&self) -> (r: Coordinates)
        ensures
            r == self.spec_center(),
            r.lng == (self.min_coord.lng + self.max_coord.lng) / 2,
            r.lat == (self.min_coord.lat + self.max_coord.lat) / 2,
    {
        Coordinates::new(
            midpoint(self.min_coord.lng, self.max_coord.lng),
            midpoint(self.min_coord.lat, self.max_coord.lat),
        )
    }

    /// Whether the point lies in the rectangle: on or after the minimum
    /// corner and strictly before the maximum corner, on both axes.
    pub open spec fn spec_includes(&self, coords: Coordinates) -> bool {
        &&& self.min_coord.lat <= coords.lat < self.max_coord.lat
        &&& self.min_coord.lng <= coords.lng < self.max_coord.lng
    }

    /// Whether the point lies in the rectangle.
    #[verifier::when_used_as_spec(spec_includes)]
    pub fn includes(&self, coords: Coordinates) -> (r: bool)
        ensures
            r == self.spec_includes(coords),
    {
        let min = self.min();
        let max = self.max();
        coords.lat >= min.lat && coords.lat < max.lat && coords.lng >= min.lng && coords.lng
            < max.lng
    }
}

} // verus!
