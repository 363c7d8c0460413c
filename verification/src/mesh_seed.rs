//! The seed of a point: its eleven digits down to the finest level, from
//! which the cell of every level of the hierarchy can be read.

use crate::calcs::to_125m::{
    bounded_digits, bounds_of_digits, lemma_cell_corner, lemma_cell_digits_values, raw_digits,
    spec_bounds, spec_cell_digits, spec_raw_digits,
};
use crate::calcs::spec_cell_rect;
use crate::geom::{Coordinates, Rect};
use crate::mesh_type::{in_domain, JPMeshType};
use vstd::prelude::*;

verus! {

/// The eleven digits of a point: two each for the 80 km row and column, one
/// each for the 10 km and 1 km rows and columns, and one quadrant digit each
/// for the 500 m, 250 m and 125 m levels.
#[derive(Debug, Clone, Copy, PartialEq, Eq)]
pub struct JPMeshCodeSeed {
    pub code_2: [u8; 11],
}

impl JPMeshCodeSeed {
    /// The digits are decimal and no quadrant digit is zero.
    pub open spec fn wf(&self) -> bool {
        bounded_digits(self.code_2@)
    }

    /// The digits of the seed's cell at a level: the seed's own digits as
    /// far as the level goes, then `0` for every row and column digit and
    /// `1` for every quadrant digit.
    pub open spec fn spec_level_digits(&self, mesh_type: JPMeshType) -> Seq<u8> {
        Seq::new(
            11,
            |i: int|
                if i < mesh_type.spec_code_length() {
                    self.code_2@[i]
                } else if i >= 8 {
                    1u8
                } else {
                    0u8
                },
        )
    }

    /// The rectangle of the seed's cell at a level.
    pub open spec fn spec_bounds(&self, mesh_type: JPMeshType) -> Rect {
        spec_bounds(self.spec_level_digits(mesh_type), mesh_type)
    }

    /// The seed of a point of the covered region.
    pub fn new(coords: Coordinates) -> (r: Self)
        requires
            in_domain(coords),
        ensures
            r.code_2@ == spec_raw_digits(coords),
            r.wf(),
    {
        let code_2 = raw_digits(coords);
        JPMeshCodeSeed { code_2 }
    }

    /// The rectangle of the seed's cell at a level: the south-west corner
    /// that the digits give as far as the level goes, and the level's cell
    /// size.
    pub fn bounds(&self, mesh_type: JPMeshType) -> (r: Rect)
        requires
            self.wf(),
        ensures
            r == self.spec_bounds(mesh_type),
            r.max_coord.lng - r.min_coord.lng == mesh_type.spec_lng_interval(),
            r.max_coord.lat - r.min_coord.lat == mesh_type.spec_lat_interval(),
    {
        let mut code_2 = self.code_2;
        let code_length: usize = mesh_type.code_length();
        let mut i: usize = code_length;
        while i < 11
            invariant
                code_length == mesh_type.spec_code_length(),
                code_length <= i <= 11,
                forall|j: int|
                    0 <= j < 11 ==> code_2[j] == (if j < code_length || j >= i {
                        self.code_2@[j]
                    } else if j >= 8 {
                        1u8
                    } else {
                        0u8
                    }),
            decreases 11 - i,
        {
            code_2[i] = if i >= 8 {
                1
            } else {
                0
            };
            i = i + 1;
        }
        bounds_of_digits(&code_2, mesh_type)
    }

    /// The rectangle that the seed of a point gives at a level of the
    /// hierarchy is the cell of that level that holds the point.
    pub proof fn lemma_bounds_of_seed(&self, coords: Coordinates, mesh_type: JPMeshType)
        requires
            in_domain(coords),
            mesh_type.in_hierarchy(),
            self.code_2@ == spec_raw_digits(coords),
        ensures
            self.spec_level_digits(mesh_type) == spec_cell_digits(coords, mesh_type),
            self.spec_bounds(mesh_type) == spec_cell_rect(coords, mesh_type),
            self.spec_bounds(mesh_type).spec_includes(coords),
    {
        assert(self.spec_level_digits(mesh_type) =~= spec_cell_digits(coords, mesh_type)) by {
            lemma_cell_digits_values(coords, mesh_type);
        }
        lemma_cell_corner(coords, mesh_type);
        crate::calcs::lemma_round_down_bounds(
            coords.lat as int,
            mesh_type.spec_lat_interval() as int,
        );
        crate::calcs::lemma_round_down_bounds(
            coords.lng - crate::mesh_type::LNG_ORIGIN,
            mesh_type.spec_lng_interval() as int,
        );
    }
}

} // verus!
