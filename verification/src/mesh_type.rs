//! The levels of the grid: how many digits a code has at each, how wide its
//! cells are, and which region the codes cover.

use crate::calcs::JPMeshCalcType;
use crate::geom::Coordinates;
use core::cmp::Ordering;
use vstd::prelude::*;

verus! {

/// Height of an 80 km cell: 40 arc-minutes.
pub const LAT_80KM: i64 = 2_400_000_000;

/// Height of a 10 km cell: 5 arc-minutes.
pub const LAT_10KM: i64 = 300_000_000;

/// Height of a 5 km cell: 150 arc-seconds.
pub const LAT_5KM: i64 = 150_000_000;

/// Height of a 2 km cell: 1 arc-minute.
pub const LAT_2KM: i64 = 60_000_000;

/// Height of a 1 km cell: 30 arc-seconds.
pub const LAT_1KM: i64 = 30_000_000;

/// Height of a 500 m cell: 15 arc-seconds.
pub const LAT_500M: i64 = 15_000_000;

/// Height of a 250 m cell: 7.5 arc-seconds.
pub const LAT_250M: i64 = 7_500_000;

/// Height of a 125 m cell: 3.75 arc-seconds.
pub const LAT_125M: i64 = 3_750_000;

/// Width of an 80 km cell: 1 degree.
pub const LNG_80KM: i64 = 3_600_000_000;

/// Width of a 10 km cell: 7.5 arc-minutes.
pub const LNG_10KM: i64 = 450_000_000;

/// Width of a 5 km cell: 225 arc-seconds.
pub const LNG_5KM: i64 = 225_000_000;

/// Width of a 2 km cell: 90 arc-seconds.
pub const LNG_2KM: i64 = 90_000_000;

/// Width of a 1 km cell: 45 arc-seconds.
pub const LNG_1KM: i64 = 45_000_000;

/// Width of a 500 m cell: 22.5 arc-seconds.
pub const LNG_500M: i64 = 22_500_000;

/// Width of a 250 m cell: 11.25 arc-seconds.
pub const LNG_250M: i64 = 11_250_000;

/// Width of a 125 m cell: 5.625 arc-seconds.
pub const LNG_125M: i64 = 5_625_000;

/// The longitude that the grid counts from: 100 degrees east.
pub const LNG_ORIGIN: i64 = 360_000_000_000;

/// Southern edge of the covered region, 6 degrees 40 minutes north: the
/// first 80 km row whose index has two digits. A code is kept as a number,
/// which cannot carry a leading zero.
pub const LAT_MIN: i64 = 24_000_000_000;

/// Northern edge of the covered region, 66 degrees 40 minutes north: the end
/// of the last 80 km row whose index has two digits.
pub const LAT_MAX: i64 = 240_000_000_000;

/// Western edge of the covered region: the origin of the longitudes.
pub const LNG_MIN: i64 = 360_000_000_000;

/// Eastern edge of the covered region, 200 degrees east: the end of the
/// last 80 km column whose index has two digits.
pub const LNG_MAX: i64 = 720_000_000_000;

/// Whether a point lies in the region that the codes cover.
pub open spec fn spec_in_domain(coords: Coordinates) -> bool {
    &&& LAT_MIN <= coords.lat < LAT_MAX
    &&& LNG_MIN <= coords.lng < LNG_MAX
}

/// Whether a point lies in the region that the codes cover.
#[verifier::when_used_as_spec(spec_in_domain)]
pub fn in_domain(coords: Coordinates) -> (r: bool)
    ensures
        r == spec_in_domain(coords),
{
    LAT_MIN <= coords.lat && coords.lat < LAT_MAX && LNG_MIN <= coords.lng && coords.lng < LNG_MAX
}

/// A level of the grid, named after the approximate size of its cells. The
/// levels are declared from the finest to the coarsest, which is also their
/// order: a level is greater than another when its cells are larger.
#[derive(Debug, Clone, Copy, PartialEq, Eq, Ord, Structural)]
pub enum JPMeshType {
    /// Eighth of a standard cell.
    Mesh125m,
    /// Quarter of a standard cell.
    Mesh250m,
    /// Half of a standard cell.
    Mesh500m,
    /// The standard cell.
    Mesh1km,
    /// Twice the standard cell.
    Mesh2km,
    /// Five times the standard cell.
    Mesh5km,
    /// The secondary area partition.
    Mesh10km,
    /// The primary area partition.
    Mesh80km,
}

impl JPMeshType {
    /// The number of digits of a code of this level.
    pub open spec fn spec_code_length(&self) -> usize {
        match self {
            JPMeshType::Mesh80km => 4,
            JPMeshType::Mesh10km => 6,
            JPMeshType::Mesh5km => 7,
            JPMeshType::Mesh2km => 9,
            JPMeshType::Mesh1km => 8,
            JPMeshType::Mesh500m => 9,
            JPMeshType::Mesh250m => 10,
            JPMeshType::Mesh125m => 11,
        }
    }

    /// The number of digits of a code of this level.
    #[verifier::when_used_as_spec(spec_code_length)]
    pub fn code_length(&self) -> (r: usize)
        ensures
            r == self.spec_code_length(),
    {
        match self {
            JPMeshType::Mesh80km => 4,
            JPMeshType::Mesh10km => 6,
            JPMeshType::Mesh5km => 7,
            JPMeshType::Mesh2km => 9,
            JPMeshType::Mesh1km => 8,
            JPMeshType::Mesh500m => 9,
            JPMeshType::Mesh250m => 10,
            JPMeshType::Mesh125m => 11,
        }
    }

    /// The height of a cell of this level.
    pub open spec fn spec_lat_interval(&self) -> i64 {
        match self {
            JPMeshType::Mesh80km => LAT_80KM,
            JPMeshType::Mesh10km => LAT_10KM,
            JPMeshType::Mesh5km => LAT_5KM,
            JPMeshType::Mesh2km => LAT_2KM,
            JPMeshType::Mesh1km => LAT_1KM,
            JPMeshType::Mesh500m => LAT_500M,
            JPMeshType::Mesh250m => LAT_250M,
            JPMeshType::Mesh125m => LAT_125M,
        }
    }

    /// The height of a cell of this level.
    #[verifier::when_used_as_spec(spec_lat_interval)]
    pub fn lat_interval(&self) -> (r: i64)
        ensures
            r == self.spec_lat_interval(),
    {
        match self {
            JPMeshType::Mesh80km => LAT_80KM,
            JPMeshType::Mesh10km => LAT_10KM,
            JPMeshType::Mesh5km => LAT_5KM,
            JPMeshType::Mesh2km => LAT_2KM,
            JPMeshType::Mesh1km => LAT_1KM,
            JPMeshType::Mesh500m => LAT_500M,
            JPMeshType::Mesh250m => LAT_250M,
            JPMeshType::Mesh125m => LAT_125M,
        }
    }

    /// The width of a cell of this level.
    pub open spec fn spec_lng_interval(&self) -> i64 {
        match self {
            JPMeshType::Mesh80km => LNG_80KM,
            JPMeshType::Mesh10km => LNG_10KM,
            JPMeshType::Mesh5km => LNG_5KM,
            JPMeshType::Mesh2km => LNG_2KM,
            JPMeshType::Mesh1km => LNG_1KM,
            JPMeshType::Mesh500m => LNG_500M,
            JPMeshType::Mesh250m => LNG_250M,
            JPMeshType::Mesh125m => LNG_125M,
        }
    }

    /// The width of a cell of this level.
    #[verifier::when_used_as_spec(spec_lng_interval)]
    pub fn lng_interval(&self) -> (r: i64)
        ensures
            r == self.spec_lng_interval(),
    {
        match self {
            JPMeshType::Mesh80km => LNG_80KM,
            JPMeshType::Mesh10km => LNG_10KM,
            JPMeshType::Mesh5km => LNG_5KM,
            JPMeshType::Mesh2km => LNG_2KM,
            JPMeshType::Mesh1km => LNG_1KM,
            JPMeshType::Mesh500m => LNG_500M,
            JPMeshType::Mesh250m => LNG_250M,
            JPMeshType::Mesh125m => LNG_125M,
        }
    }

    /// The family of this level.
    pub open spec fn spec_calc_type(&self) -> JPMeshCalcType {
        match self {
            JPMeshType::Mesh80km => JPMeshCalcType::To5km,
            JPMeshType::Mesh10km => JPMeshCalcType::To5km,
            JPMeshType::Mesh5km => JPMeshCalcType::To5km,
            JPMeshType::Mesh2km => JPMeshCalcType::To2km,
            JPMeshType::Mesh1km => JPMeshCalcType::To125m,
            JPMeshType::Mesh500m => JPMeshCalcType::To125m,
            JPMeshType::Mesh250m => JPMeshCalcType::To125m,
            JPMeshType::Mesh125m => JPMeshCalcType::To125m,
        }
    }

    /// The family of this level.
    #[verifier::when_used_as_spec(spec_calc_type)]
    pub fn calc_type(&self) -> (r: JPMeshCalcType)
        ensures
            r == self.spec_calc_type(),
    {
        match self {
            JPMeshType::Mesh80km => JPMeshCalcType::To5km,
            JPMeshType::Mesh10km => JPMeshCalcType::To5km,
            JPMeshType::Mesh5km => JPMeshCalcType::To5km,
            JPMeshType::Mesh2km => JPMeshCalcType::To2km,
            JPMeshType::Mesh1km => JPMeshCalcType::To125m,
            JPMeshType::Mesh500m => JPMeshCalcType::To125m,
            JPMeshType::Mesh250m => JPMeshCalcType::To125m,
            JPMeshType::Mesh125m => JPMeshCalcType::To125m,
        }
    }

    /// Whether the level belongs to the hierarchy in which every cell is
    /// split into the cells of the next finer level: all but the 5 km and
    /// 2 km levels.
    pub open spec fn in_hierarchy(&self) -> bool {
        !(self is Mesh5km) && !(self is Mesh2km)
    }

    /// The next coarser level of the hierarchy, if there is one. The 5 km
    /// and 2 km levels stand beside the hierarchy and have none.
    pub open spec fn spec_coarser(&self) -> Option<JPMeshType> {
        match self {
            JPMeshType::Mesh80km => None,
            JPMeshType::Mesh10km => Some(JPMeshType::Mesh80km),
            JPMeshType::Mesh5km => None,
            JPMeshType::Mesh2km => None,
            JPMeshType::Mesh1km => Some(JPMeshType::Mesh10km),
            JPMeshType::Mesh500m => Some(JPMeshType::Mesh1km),
            JPMeshType::Mesh250m => Some(JPMeshType::Mesh500m),
            JPMeshType::Mesh125m => Some(JPMeshType::Mesh250m),
        }
    }

    /// The next coarser level of the hierarchy, if there is one.
    #[verifier::when_used_as_spec(spec_coarser)]
    pub fn coarser(&self) -> (r: Option<JPMeshType>)
        ensures
            r == self.spec_coarser(),
    {
        match self {
            JPMeshType::Mesh80km => None,
            JPMeshType::Mesh10km => Some(JPMeshType::Mesh80km),
            JPMeshType::Mesh5km => None,
            JPMeshType::Mesh2km => None,
            JPMeshType::Mesh1km => Some(JPMeshType::Mesh10km),
            JPMeshType::Mesh500m => Some(JPMeshType::Mesh1km),
            JPMeshType::Mesh250m => Some(JPMeshType::Mesh500m),
            JPMeshType::Mesh125m => Some(JPMeshType::Mesh250m),
        }
    }

    /// The next finer level of the hierarchy, if there is one.
    pub open spec fn spec_finer(&self) -> Option<JPMeshType> {
        match self {
            JPMeshType::Mesh80km => Some(JPMeshType::Mesh10km),
            JPMeshType::Mesh10km => Some(JPMeshType::Mesh1km),
            JPMeshType::Mesh5km => None,
            JPMeshType::Mesh2km => None,
            JPMeshType::Mesh1km => Some(JPMeshType::Mesh500m),
            JPMeshType::Mesh500m => Some(JPMeshType::Mesh250m),
            JPMeshType::Mesh250m => Some(JPMeshType::Mesh125m),
            JPMeshType::Mesh125m => None,
        }
    }

    /// The next finer level of the hierarchy, if there is one.
    #[verifier::when_used_as_spec(spec_finer)]
    pub fn finer(&self) -> (r: Option<JPMeshType>)
        ensures
            r == self.spec_finer(),
    {
        match self {
            JPMeshType::Mesh80km => Some(JPMeshType::Mesh10km),
            JPMeshType::Mesh10km => Some(JPMeshType::Mesh1km),
            JPMeshType::Mesh5km => None,
            JPMeshType::Mesh2km => None,
            JPMeshType::Mesh1km => Some(JPMeshType::Mesh500m),
            JPMeshType::Mesh500m => Some(JPMeshType::Mesh250m),
            JPMeshType::Mesh250m => Some(JPMeshType::Mesh125m),
            JPMeshType::Mesh125m => None,
        }
    }
}

impl JPMeshType {
    /// By how much the numeric code of a cell of this level exceeds that of
    /// its parent: `100` where the level adds a row digit and a column
    /// digit, `10` where it adds a quadrant digit, `1` where the level has
    /// no parent.
    pub open spec fn spec_group_divisor(&self) -> u64 {
        match self {
            JPMeshType::Mesh10km => 100,
            JPMeshType::Mesh1km => 100,
            JPMeshType::Mesh500m => 10,
            JPMeshType::Mesh250m => 10,
            JPMeshType::Mesh125m => 10,
            _ => 1,
        }
    }

    /// By how much the numeric code of a cell of this level exceeds that of
    /// its parent.
    #[verifier::when_used_as_spec(spec_group_divisor)]
    pub fn group_divisor(&self) -> (r: u64)
        ensures
            r == self.spec_group_divisor(),
    {
        match self {
            JPMeshType::Mesh10km => 100,
            JPMeshType::Mesh1km => 100,
            JPMeshType::Mesh500m => 10,
            JPMeshType::Mesh250m => 10,
            JPMeshType::Mesh125m => 10,
            _ => 1,
        }
    }

    /// How many cells of this level its parent cell holds: 8 by 8 for the
    /// 10 km level, 10 by 10 for the 1 km level, 2 by 2 for each quadrant
    /// level, and none where the level has no parent.
    pub open spec fn spec_sibling_count(&self) -> usize {
        match self {
            JPMeshType::Mesh10km => 64,
            JPMeshType::Mesh1km => 100,
            JPMeshType::Mesh500m => 4,
            JPMeshType::Mesh250m => 4,
            JPMeshType::Mesh125m => 4,
            _ => 0,
        }
    }

    /// How many cells of this level its parent cell holds.
    #[verifier::when_used_as_spec(spec_sibling_count)]
    pub fn sibling_count(&self) -> (r: usize)
        ensures
            r == self.spec_sibling_count(),
    {
        match self {
            JPMeshType::Mesh10km => 64,
            JPMeshType::Mesh1km => 100,
            JPMeshType::Mesh500m => 4,
            JPMeshType::Mesh250m => 4,
            JPMeshType::Mesh125m => 4,
            _ => 0,
        }
    }

    /// The digits that the cell of this level with a given index in its
    /// parent adds to the parent's numeric code: a row digit and a column
    /// digit, each below 8 for the 10 km level and below 10 for the 1 km
    /// level, or a quadrant digit from 1 to 4.
    pub open spec fn spec_group_suffix(&self, index: usize) -> u64 {
        match self {
            JPMeshType::Mesh10km => ((index / 8) * 10 + index % 8) as u64,
            JPMeshType::Mesh1km => index as u64,
            JPMeshType::Mesh500m => (index + 1) as u64,
            JPMeshType::Mesh250m => (index + 1) as u64,
            JPMeshType::Mesh125m => (index + 1) as u64,
            _ => 0,
        }
    }

    /// The digits that the cell of this level with a given index in its
    /// parent adds to the parent's numeric code.
    #[verifier::when_used_as_spec(spec_group_suffix)]
    pub fn group_suffix(&self, index: usize) -> (r: u64)
        requires
            index < self.spec_sibling_count(),
        ensures
            r == self.spec_group_suffix(index),
            r < self.spec_group_divisor(),
    {
        match self {
            JPMeshType::Mesh10km => ((index / 8) * 10 + index % 8) as u64,
            JPMeshType::Mesh1km => index as u64,
            JPMeshType::Mesh500m => (index + 1) as u64,
            JPMeshType::Mesh250m => (index + 1) as u64,
            JPMeshType::Mesh125m => (index + 1) as u64,
            _ => 0,
        }
    }
}

impl PartialOrd for JPMeshType {
    fn partial_cmp(&self, other: &Self) -> (r: Option<Ordering>) {
        let mine = self.lat_interval();
        let theirs = other.lat_interval();
        if mine < theirs {
            Some(Ordering::Less)
        } else if mine > theirs {
            Some(Ordering::Greater)
        } else {
            Some(Ordering::Equal)
        }
    }
}

impl vstd::std_specs::cmp::PartialOrdSpecImpl for JPMeshType {
    open spec fn obeys_partial_cmp_spec() -> bool {
        true
    }

    open spec fn partial_cmp_spec(&self, other: &Self) -> Option<Ordering> {
        if self.spec_lat_interval() < other.spec_lat_interval() {
            Some(Ordering::Less)
        } else if self.spec_lat_interval() > other.spec_lat_interval() {
            Some(Ordering::Greater)
        } else {
            Some(Ordering::Equal)
        }
    }
}

} // verus!
