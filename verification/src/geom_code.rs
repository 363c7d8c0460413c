//! Cells as formatted code numbers: from a point to the code number of its
//! cell, and from a code number to the rectangle of the cell.

use crate::calcs::to_125m::{
    bounds_of_digits, lemma_cell_corner, raw_digits, spec_bounds, spec_cell_digits,
};
use crate::calcs::{lemma_cell_in_domain, lemma_round_down_bounds, spec_cell_rect};
use crate::code2::Code2;
use crate::digits::{digits_of, lemma_number_of_lower_bound, lemma_pow10_positive};
use crate::geom::{Coordinates, Rect};
use crate::mesh_type::{in_domain, JPMeshType, LNG_ORIGIN};
use vstd::prelude::*;

verus! {

/// The rectangle of the cell that a code number stands for at a level.
pub open spec fn spec_code2_to_bounds(code_2: Code2, mesh_type: JPMeshType) -> Rect {
    spec_bounds(digits_of(code_2@, 11), mesh_type)
}

/// The code number of the cell of a level that holds a point of the covered
/// region. At a level of the hierarchy, the rectangle of that code number
/// is the cell of the level that holds the point.
pub fn code2_from_coordinates(coords: Coordinates, mesh_type: JPMeshType) -> (r: Code2)
    requires
        in_domain(coords),
    ensures
        r.formatted(),
        digits_of(r@, 11) == spec_cell_digits(coords, mesh_type),
        mesh_type.in_hierarchy() ==> spec_code2_to_bounds(r, mesh_type) == spec_cell_rect(
            coords,
            mesh_type,
        ),
        mesh_type.in_hierarchy() ==> spec_code2_to_bounds(r, mesh_type).spec_includes(coords),
{
    let digits = raw_digits(coords);
    proof {
        let head = digits@.take(mesh_type.spec_code_length() as int);
        assert(head[0] == digits@[0]);
        lemma_number_of_lower_bound(head);
        lemma_pow10_positive((head.len() - 1) as nat);
        if mesh_type.in_hierarchy() {
            lemma_cell_corner(coords, mesh_type);
            lemma_cell_in_domain(coords, mesh_type);
            lemma_round_down_bounds(coords.lat as int, mesh_type.spec_lat_interval() as int);
            lemma_round_down_bounds(coords.lng - LNG_ORIGIN, mesh_type.spec_lng_interval() as int);
        }
    }
    Code2::new(digits, mesh_type.code_length())
}

/// The rectangle of the cell that a code number stands for at a level: the
/// south-west corner that its digits give, and the level's cell size.
pub fn code2_to_bounds(code_2: Code2, mesh_type: JPMeshType) -> (r: Rect)
    requires
        code_2.formatted(),
    ensures
        r == spec_code2_to_bounds(code_2, mesh_type),
        r.max_coord.lng - r.min_coord.lng == mesh_type.spec_lng_interval(),
        r.max_coord.lat - r.min_coord.lat == mesh_type.spec_lat_interval(),
{
    let code_2 = code_2.to_slice();
    bounds_of_digits(&code_2, mesh_type)
}

} // verus!
