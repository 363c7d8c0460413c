//! The nine-digit layout of the 2 km level: the six head digits, one digit
//! each for the 2 km row and column inside the 10 km cell, and a closing `5`.
//!
//! A 10 km cell holds five rows and five columns of 2 km cells. The row and
//! column digits are twice the index: `0`, `2`, `4`, `6` or `8`.

use crate::calcs::{
    head_digits, lemma_cell_in_domain, lemma_round_down_bounds, lemma_round_down_step,
    lemma_same_quotient_step, round_down, spec_cell_rect, spec_head_digits, spec_head_lat,
    spec_head_lng, sub_index,
};
use crate::code_num::CodeNum;
use crate::digits::{
    all_decimal, digits_of, fill_masked, lemma_digits_of_decimal, lemma_number_of_lower_bound,
    lemma_pow10_positive, mask_selects, truncated_digits,
};
use crate::geom::{Coordinates, Rect};
use crate::mesh_type::{
    in_domain, JPMeshType, LAT_10KM, LAT_2KM, LAT_80KM, LNG_10KM, LNG_2KM, LNG_80KM, LNG_ORIGIN,
};
use vstd::prelude::*;

verus! {

/// A code number of the nine-digit layout. The mask `0` selects nothing:
/// no digit of this layout has a default other than `0`.
pub type CodeTo2km = CodeNum<9, 0>;

/// The nine digits of a point.
pub open spec fn spec_raw_digits(coords: Coordinates) -> Seq<u8> {
    let lat = coords.lat as int;
    let lng = coords.lng - LNG_ORIGIN;
    spec_head_digits(coords) + seq![
        (2 * sub_index(lat, LAT_10KM as int, LAT_2KM as int)) as u8,
        (2 * sub_index(lng, LNG_10KM as int, LNG_2KM as int)) as u8,
        5u8,
    ]
}

/// The southern edge of the cell that nine digits stand for.
pub open spec fn spec_min_lat(digits: Seq<u8>) -> int {
    spec_head_lat(digits) + (digits[6] * LAT_2KM) / 2
}

/// The western edge of the cell that nine digits stand for.
pub open spec fn spec_min_lng(digits: Seq<u8>) -> int {
    spec_head_lng(digits) + (digits[7] * LNG_2KM) / 2
}

/// The cell that nine digits stand for at a level: its south-west corner
/// from the digits, its size from the level.
pub open spec fn spec_bounds(digits: Seq<u8>, mesh_type: JPMeshType) -> Rect {
    Rect {
        min_coord: Coordinates {
            lng: spec_min_lng(digits) as i64,
            lat: spec_min_lat(digits) as i64,
        },
        max_coord: Coordinates {
            lng: (spec_min_lng(digits) + mesh_type.spec_lng_interval()) as i64,
            lat: (spec_min_lat(digits) + mesh_type.spec_lat_interval()) as i64,
        },
    }
}

/// Computes the nine digits of a point.
pub fn raw_digits(coords: Coordinates) -> (r: [u8; 9])
    requires
        in_domain(coords),
    ensures
        r@ == spec_raw_digits(coords),
        all_decimal(r@),
        r[0] != 0,
{
    let head = head_digits(coords);
    let lat: i64 = coords.lat;
    let lng: i64 = coords.lng - LNG_ORIGIN;
    let r: i64 = (lat % LAT_10KM) / LAT_2KM;
    let w: i64 = (lng % LNG_10KM) / LNG_2KM;
    let r_code: i64 = r * 2;
    let w_code: i64 = w * 2;
    let digits: [u8; 9] = [
        head[0],
        head[1],
        head[2],
        head[3],
        head[4],
        head[5],
        r_code as u8,
        w_code as u8,
        5,
    ];
    assert(digits@ =~= spec_raw_digits(coords));
    digits
}

/// Computes the cell that nine digits stand for at a level.
pub fn bounds_of_digits(digits: &[u8; 9], mesh_type: JPMeshType) -> (r: Rect)
    requires
        all_decimal(digits@),
    ensures
        r == spec_bounds(digits@, mesh_type),
        r.max_coord.lng - r.min_coord.lng == mesh_type.spec_lng_interval(),
        r.max_coord.lat - r.min_coord.lat == mesh_type.spec_lat_interval(),
{
    let p: i64 = (digits[0] * 10 + digits[1]) as i64;
    let u: i64 = (digits[2] * 10 + digits[3]) as i64;
    let q: i64 = digits[4] as i64;
    let v: i64 = digits[5] as i64;
    let r_code: i64 = digits[6] as i64;
    let w_code: i64 = digits[7] as i64;

    let lat_base: i64 = p * LAT_80KM;
    let lat_q: i64 = q * LAT_10KM;
    let lat_r: i64 = (r_code * LAT_2KM) / 2;

    let lng_base: i64 = LNG_ORIGIN + u * LNG_80KM;
    let lng_v: i64 = v * LNG_10KM;
    let lng_w: i64 = (w_code * LNG_2KM) / 2;

    let min_lat: i64 = lat_base + lat_q + lat_r;
    let min_lng: i64 = lng_base + lng_v + lng_w;

    let max_lat: i64 = min_lat + mesh_type.lat_interval();
    let max_lng: i64 = min_lng + mesh_type.lng_interval();

    Rect::new(Coordinates::new(min_lng, min_lat), Coordinates::new(max_lng, max_lat))
}

impl CodeTo2km {
    /// The cell that the code number stands for at a level.
    pub open spec fn spec_to_bounds(self, mesh_type: JPMeshType) -> Rect {
        spec_bounds(digits_of(self@, 9), mesh_type)
    }

    /// The code number of the 2 km cell that holds a point. The layout has
    /// one level only, so the level given makes no difference.
    pub fn from_coordinates(coords: Coordinates, _mesh_type: JPMeshType) -> (r: Self)
        requires
            in_domain(coords),
        ensures
            r.canonical(9),
            digits_of(r@, 9) == spec_raw_digits(coords),
            r.spec_to_bounds(JPMeshType::Mesh2km) == spec_cell_rect(coords, JPMeshType::Mesh2km),
            r.spec_to_bounds(JPMeshType::Mesh2km).spec_includes(coords),
    {
        let digits = raw_digits(coords);
        proof {
            assert(digits@.take(9) =~= digits@);
            lemma_number_of_lower_bound(digits@);
            lemma_pow10_positive(8);
            lemma_cell_corner(coords);
            lemma_cell_in_domain(coords, JPMeshType::Mesh2km);
            lemma_round_down_bounds(coords.lat as int, LAT_2KM as int);
            lemma_round_down_bounds(coords.lng - LNG_ORIGIN, LNG_2KM as int);
            assert(fill_masked(truncated_digits(digits@, 9), 0) =~= digits@) by {
                assert forall|i: int| 0 <= i < 9 implies fill_masked(
                    truncated_digits(digits@, 9),
                    0,
                )[i] == digits@[i] by {
                    lemma_mask_selects_nothing(i);
                }
            }
        }
        CodeNum::new(digits, 9)
    }

    /// The cell that the code number stands for at a level: the south-west
    /// corner that its digits give, and the level's cell size.
    pub fn to_bounds(self, mesh_type: JPMeshType) -> (r: Rect)
        ensures
            r == self.spec_to_bounds(mesh_type),
            r.max_coord.lng - r.min_coord.lng == mesh_type.spec_lng_interval(),
            r.max_coord.lat - r.min_coord.lat == mesh_type.spec_lat_interval(),
    {
        let code_array = self.to_array();
        proof {
            lemma_digits_of_decimal(self@, 9);
        }
        bounds_of_digits(&code_array, mesh_type)
    }
}

/// The mask `0` selects no position.
pub proof fn lemma_mask_selects_nothing(i: int)
    ensures
        !mask_selects(0, 9, i),
{
    assert(forall|b: u8| b < 8 ==> (0u8 >> b) & 1 == 0) by (bit_vector);
    if 1 <= i <= 8 {
        let b: u8 = (8 - i) as u8;
        assert((0u8 >> b) & 1 == 0);
    }
}

/// The nine digits of a point in the covered region, as numbers.
pub proof fn lemma_raw_digits_values(coords: Coordinates)
    requires
        in_domain(coords),
    ensures
        ({
            let d = spec_raw_digits(coords);
            let lat = coords.lat as int;
            let lng = coords.lng - LNG_ORIGIN;
            &&& d.len() == 9
            &&& all_decimal(d)
            &&& d[0] != 0
            &&& d[0] * 10 + d[1] == lat / LAT_80KM as int
            &&& d[2] * 10 + d[3] == lng / LNG_80KM as int
            &&& d[4] == sub_index(lat, LAT_80KM as int, LAT_10KM as int)
            &&& d[5] == sub_index(lng, LNG_80KM as int, LNG_10KM as int)
            &&& d[4] <= 7
            &&& d[5] <= 7
            &&& d[6] == 2 * sub_index(lat, LAT_10KM as int, LAT_2KM as int)
            &&& d[7] == 2 * sub_index(lng, LNG_10KM as int, LNG_2KM as int)
            &&& d[8] == 5
        }),
{
    let d = spec_raw_digits(coords);
    let h = spec_head_digits(coords);
    assert(h.len() == 6);
    assert(d.len() == 9);
    assert(d[0] == h[0] && d[1] == h[1] && d[2] == h[2] && d[3] == h[3] && d[4] == h[4] && d[5]
        == h[5]);
    assert forall|i: int| 0 <= i < d.len() implies #[trigger] d[i] <= 9 by {
        if i < 6 {
            assert(d[i] == h[i]);
        }
    }
}

/// The south-west corner of a 2 km cell is the point rounded down to a
/// multiple of the cell size, on each axis.
pub proof fn lemma_cell_corner(coords: Coordinates)
    requires
        in_domain(coords),
    ensures
        spec_min_lat(spec_raw_digits(coords)) == round_down(coords.lat as int, LAT_2KM as int),
        spec_min_lng(spec_raw_digits(coords)) == LNG_ORIGIN + round_down(
            coords.lng - LNG_ORIGIN,
            LNG_2KM as int,
        ),
{
    let lat = coords.lat as int;
    let lng = coords.lng - LNG_ORIGIN;
    lemma_raw_digits_values(coords);
    lemma_round_down_step(lat, LAT_10KM as int, 8);
    lemma_round_down_step(lat, LAT_2KM as int, 5);
    lemma_round_down_step(lng, LNG_10KM as int, 8);
    lemma_round_down_step(lng, LNG_2KM as int, 5);
}

/// Two points in the same 2 km cell have the same digits.
pub proof fn lemma_same_cell(a: Coordinates, b: Coordinates)
    requires
        in_domain(a),
        in_domain(b),
        a.lat as int / LAT_2KM as int == b.lat as int / LAT_2KM as int,
        (a.lng - LNG_ORIGIN) / LNG_2KM as int == (b.lng - LNG_ORIGIN) / LNG_2KM as int,
    ensures
        spec_raw_digits(a) == spec_raw_digits(b),
{
    lemma_raw_digits_values(a);
    lemma_raw_digits_values(b);
    lemma_same_quotient_step(a.lat as int, b.lat as int, LAT_2KM as int, 5);
    lemma_same_quotient_step(a.lng - LNG_ORIGIN, b.lng - LNG_ORIGIN, LNG_2KM as int, 5);
    lemma_same_quotient_step(a.lat as int, b.lat as int, LAT_10KM as int, 8);
    lemma_same_quotient_step(a.lng - LNG_ORIGIN, b.lng - LNG_ORIGIN, LNG_10KM as int, 8);
    let ra = spec_raw_digits(a);
    let rb = spec_raw_digits(b);
    assert(ra[0] == rb[0] && ra[1] == rb[1] && ra[2] == rb[2] && ra[3] == rb[3]);
    assert forall|i: int| 0 <= i < 9 implies ra[i] == rb[i] by {}
    assert(ra =~= rb);
}

} // verus!
