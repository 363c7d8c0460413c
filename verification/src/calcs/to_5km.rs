//! The seven-digit layout: the six head digits and one quadrant digit for
//! the 5 km level, which halves a 10 km cell on each axis.

use crate::calcs::{
    head_digits, lemma_cell_in_domain, lemma_round_down_bounds, lemma_round_down_step,
    lemma_same_quotient_step, quadrant_column, quadrant_row, round_down, spec_cell_rect,
    spec_head_digits, spec_head_lat, spec_head_lng, sub_index, JPMeshCalcType,
};
use crate::code_num::CodeNum;
use crate::digits::{
    all_decimal, digits_of, fill_masked, lemma_digits_of_decimal, lemma_number_of_lower_bound,
    lemma_pow10_positive, mask_selects, truncated_digits,
};
use crate::geom::{Coordinates, Rect};
use crate::mesh_type::{
    in_domain, JPMeshType, LAT_10KM, LAT_5KM, LAT_80KM, LNG_10KM, LNG_5KM, LNG_80KM, LNG_ORIGIN,
};
use vstd::prelude::*;

verus! {

/// A code number of the seven-digit layout. The mask `1` selects the
/// quadrant digit.
pub type CodeTo5km = CodeNum<7, 1>;

/// The seven digits of a point, down to the 5 km level.
pub open spec fn spec_raw_digits(coords: Coordinates) -> Seq<u8> {
    let lat = coords.lat as int;
    let lng = coords.lng - LNG_ORIGIN;
    spec_head_digits(coords) + seq![
        (2 * sub_index(lat, LAT_10KM as int, LAT_5KM as int) + sub_index(
            lng,
            LNG_10KM as int,
            LNG_5KM as int,
        ) + 1) as u8,
    ]
}

/// The southern edge of the cell that seven digits stand for.
pub open spec fn spec_min_lat(digits: Seq<u8>) -> int {
    spec_head_lat(digits) + quadrant_row(digits[6]) * LAT_5KM
}

/// The western edge of the cell that seven digits stand for.
pub open spec fn spec_min_lng(digits: Seq<u8>) -> int {
    spec_head_lng(digits) + quadrant_column(digits[6]) * LNG_5KM
}

/// The cell that seven digits stand for at a level: its south-west corner
/// from the digits, its size from the level.
pub open spec fn spec_bounds(digits: Seq<u8>, mesh_type: JPMeshType) -> Rect {
    Rect {
        min_coord: Coordinates {
            lng: spec_min_lng(digits) as i64,
            lat: spec_min_lat(digits) as i64,
        },
        max_coord: Coordinates {
            lng: (spec_min_lng(digits) + mesh_type.spec_lng_interval()) as i64,
            lat: (spec_min_lat(digits) + mesh_type.spec_lat_interval()) as i64,
        },
    }
}

/// Digits that `spec_bounds` is meant for: decimal, with a quadrant digit
/// that is not zero.
pub open spec fn bounded_digits(digits: Seq<u8>) -> bool {
    &&& digits.len() == 7
    &&& all_decimal(digits)
    &&& digits[6] >= 1
}

/// The digits of a cell: the point's digits as far as the level goes, `1`
/// in the quadrant digit after that, `0` elsewhere.
pub open spec fn spec_cell_digits(coords: Coordinates, mesh_type: JPMeshType) -> Seq<u8> {
    fill_masked(truncated_digits(spec_raw_digits(coords), mesh_type.spec_code_length() as nat), 1)
}

/// Computes the seven digits of a point.
pub fn raw_digits(coords: Coordinates) -> (r: [u8; 7])
    requires
        in_domain(coords),
    ensures
        r@ == spec_raw_digits(coords),
        all_decimal(r@),
        r[0] != 0,
        1 <= r[6] <= 4,
{
    let head = head_digits(coords);
    let lat: i64 = coords.lat;
    let lng: i64 = coords.lng - LNG_ORIGIN;
    let r: i64 = (lat % LAT_10KM) / LAT_5KM;
    let w: i64 = (lng % LNG_10KM) / LNG_5KM;
    let m: i64 = (r * 2) + (w + 1);
    let digits: [u8; 7] = [head[0], head[1], head[2], head[3], head[4], head[5], m as u8];
    assert(digits@ =~= spec_raw_digits(coords));
    digits
}

/// Computes the cell that seven digits stand for at a level.
pub fn bounds_of_digits(digits: &[u8; 7], mesh_type: JPMeshType) -> (r: Rect)
    requires
        bounded_digits(digits@),
    ensures
        r == spec_bounds(digits@, mesh_type),
        r.max_coord.lng - r.min_coord.lng == mesh_type.spec_lng_interval(),
        r.max_coord.lat - r.min_coord.lat == mesh_type.spec_lat_interval(),
{
    let p: i64 = (digits[0] * 10 + digits[1]) as i64;
    let u: i64 = (digits[2] * 10 + digits[3]) as i64;
    let q: i64 = digits[4] as i64;
    let v: i64 = digits[5] as i64;
    let m: i64 = digits[6] as i64;

    let lat_base: i64 = p * LAT_80KM;
    let lat_q: i64 = q * LAT_10KM;
    let lat_r: i64 = ((m - 1) / 2) * LAT_5KM;

    let lng_base: i64 = LNG_ORIGIN + u * LNG_80KM;
    let lng_v: i64 = v * LNG_10KM;
    let lng_w: i64 = ((m - 1) % 2) * LNG_5KM;

    let min_lat: i64 = lat_base + lat_q + lat_r;
    let min_lng: i64 = lng_base + lng_v + lng_w;

    let max_lat: i64 = min_lat + mesh_type.lat_interval();
    let max_lng: i64 = min_lng + mesh_type.lng_interval();

    Rect::new(Coordinates::new(min_lng, min_lat), Coordinates::new(max_lng, max_lat))
}

impl CodeTo5km {
    /// The cell that the code number stands for at a level.
    pub open spec fn spec_to_bounds(self, mesh_type: JPMeshType) -> Rect {
        spec_bounds(digits_of(self@, 7), mesh_type)
    }

    /// The code number of the cell of a level that holds a point. The
    /// level is one of the family: 80 km, 10 km or 5 km.
    pub fn from_coordinates(coords: Coordinates, mesh_type: JPMeshType) -> (r: Self)
        requires
            in_domain(coords),
            mesh_type.spec_calc_type() == JPMeshCalcType::To5km,
        ensures
            r.canonical(mesh_type.spec_code_length() as nat),
            digits_of(r@, 7) == spec_cell_digits(coords, mesh_type),
            r.spec_to_bounds(mesh_type) == spec_cell_rect(coords, mesh_type),
            r.spec_to_bounds(mesh_type).spec_includes(coords),
    {
        let digits = raw_digits(coords);
        proof {
            let head = digits@.take(mesh_type.spec_code_length() as int);
            assert(head[0] == digits@[0]);
            lemma_number_of_lower_bound(head);
            lemma_pow10_positive((head.len() - 1) as nat);
            lemma_cell_corner(coords, mesh_type);
            lemma_cell_in_domain(coords, mesh_type);
            lemma_round_down_bounds(coords.lat as int, mesh_type.spec_lat_interval() as int);
            lemma_round_down_bounds(coords.lng - LNG_ORIGIN, mesh_type.spec_lng_interval() as int);
        }
        CodeNum::new(digits, mesh_type.code_length())
    }

    /// The cell that the code number stands for at a level: the south-west
    /// corner that its digits give, and the level's cell size.
    pub fn to_bounds(self, mesh_type: JPMeshType) -> (r: Rect)
        requires
            self.canonical(mesh_type.spec_code_length() as nat),
        ensures
            r == self.spec_to_bounds(mesh_type),
            r.max_coord.lng - r.min_coord.lng == mesh_type.spec_lng_interval(),
            r.max_coord.lat - r.min_coord.lat == mesh_type.spec_lat_interval(),
    {
        let code_array = self.to_array();
        proof {
            lemma_digits_of_decimal(self@, 7);
            lemma_mask_selects_quadrant(6);
        }
        bounds_of_digits(&code_array, mesh_type)
    }
}

/// Which position the mask `1` selects among seven: the last one.
pub proof fn lemma_mask_selects_quadrant(i: int)
    ensures
        mask_selects(1, 7, i) <==> i == 6,
{
    assert(forall|b: u8| b < 8 ==> (((1u8 >> b) & 1 == 1) <==> b == 0)) by (bit_vector);
    if 0 <= i <= 6 {
        let b: u8 = (6 - i) as u8;
        assert(((1u8 >> b) & 1 == 1) <==> b == 0);
    }
}

/// The seven digits of a point in the covered region, as numbers.
pub proof fn lemma_raw_digits_values(coords: Coordinates)
    requires
        in_domain(coords),
    ensures
        ({
            let d = spec_raw_digits(coords);
            let lat = coords.lat as int;
            let lng = coords.lng - LNG_ORIGIN;
            &&& d.len() == 7
            &&& all_decimal(d)
            &&& d[0] != 0
            &&& d[0] * 10 + d[1] == lat / LAT_80KM as int
            &&& d[2] * 10 + d[3] == lng / LNG_80KM as int
            &&& d[4] == sub_index(lat, LAT_80KM as int, LAT_10KM as int)
            &&& d[5] == sub_index(lng, LNG_80KM as int, LNG_10KM as int)
            &&& d[4] <= 7
            &&& d[5] <= 7
            &&& 1 <= d[6] <= 4
            &&& quadrant_row(d[6]) == sub_index(lat, LAT_10KM as int, LAT_5KM as int)
            &&& quadrant_column(d[6]) == sub_index(lng, LNG_10KM as int, LNG_5KM as int)
        }),
{
    let d = spec_raw_digits(coords);
    let h = spec_head_digits(coords);
    assert(h.len() == 6);
    assert(d.len() == 7);
    assert(d[0] == h[0] && d[1] == h[1] && d[2] == h[2] && d[3] == h[3] && d[4] == h[4] && d[5]
        == h[5]);
    assert forall|i: int| 0 <= i < d.len() implies #[trigger] d[i] <= 9 by {
        if i < 6 {
            assert(d[i] == h[i]);
        }
    }
}

/// The digits of a cell, position by position.
pub proof fn lemma_cell_digits_values(coords: Coordinates, mesh_type: JPMeshType)
    requires
        in_domain(coords),
    ensures
        ({
            let d = spec_cell_digits(coords, mesh_type);
            let raw = spec_raw_digits(coords);
            &&& d.len() == 7
            &&& forall|i: int|
                0 <= i < 7 ==> #[trigger] d[i] == (if i < mesh_type.spec_code_length() {
                    raw[i]
                } else if i >= 6 {
                    1u8
                } else {
                    0u8
                })
        }),
{
    lemma_raw_digits_values(coords);
    let d = spec_cell_digits(coords, mesh_type);
    let raw = spec_raw_digits(coords);
    assert forall|i: int| 0 <= i < 7 implies #[trigger] d[i] == (if i
        < mesh_type.spec_code_length() {
        raw[i]
    } else if i >= 6 {
        1u8
    } else {
        0u8
    }) by {
        lemma_mask_selects_quadrant(i);
    }
}

/// The ranges of the digits of a cell: every digit is decimal, the 10 km
/// row and column are below 8, and the quadrant digit is from 1 to 4.
pub proof fn lemma_cell_digits_ranges(coords: Coordinates, mesh_type: JPMeshType)
    requires
        in_domain(coords),
    ensures
        ({
            let d = spec_cell_digits(coords, mesh_type);
            &&& d.len() == 7
            &&& all_decimal(d)
            &&& d[0] != 0
            &&& d[4] <= 7
            &&& d[5] <= 7
            &&& 1 <= d[6] <= 4
        }),
{
    let d = spec_cell_digits(coords, mesh_type);
    let raw = spec_raw_digits(coords);
    lemma_raw_digits_values(coords);
    lemma_cell_digits_values(coords, mesh_type);
    assert(d[0] == raw[0]);
    assert(d[4] == raw[4] || d[4] == 0);
    assert(d[5] == raw[5] || d[5] == 0);
    assert(d[6] == raw[6] || d[6] == 1);
    assert forall|i: int| 0 <= i < d.len() implies #[trigger] d[i] <= 9 by {
        assert(raw[i] <= 9);
    }
}

/// The south-west corner of a cell is the point rounded down to a multiple
/// of the level's cell size, on each axis.
pub proof fn lemma_cell_corner(coords: Coordinates, mesh_type: JPMeshType)
    requires
        in_domain(coords),
        mesh_type.spec_calc_type() == JPMeshCalcType::To5km,
    ensures
        spec_min_lat(spec_cell_digits(coords, mesh_type)) == round_down(
            coords.lat as int,
            mesh_type.spec_lat_interval() as int,
        ),
        spec_min_lng(spec_cell_digits(coords, mesh_type)) == LNG_ORIGIN + round_down(
            coords.lng - LNG_ORIGIN,
            mesh_type.spec_lng_interval() as int,
        ),
        bounded_digits(spec_cell_digits(coords, mesh_type)),
{
    let d = spec_cell_digits(coords, mesh_type);
    let raw = spec_raw_digits(coords);
    let lat = coords.lat as int;
    let lng = coords.lng - LNG_ORIGIN;
    lemma_raw_digits_values(coords);
    lemma_cell_digits_values(coords, mesh_type);
    lemma_round_down_step(lat, LAT_10KM as int, 8);
    lemma_round_down_step(lat, LAT_5KM as int, 2);
    lemma_round_down_step(lng, LNG_10KM as int, 8);
    lemma_round_down_step(lng, LNG_5KM as int, 2);
    assert(d[0] == raw[0] && d[1] == raw[1] && d[2] == raw[2] && d[3] == raw[3]);
    assert(d[4] == (if 4 < mesh_type.spec_code_length() { raw[4] } else { 0u8 }));
    assert(d[5] == (if 5 < mesh_type.spec_code_length() { raw[5] } else { 0u8 }));
    assert(d[6] == (if 6 < mesh_type.spec_code_length() { raw[6] } else { 1u8 }));
    assert(all_decimal(d)) by {
        assert forall|i: int| 0 <= i < d.len() implies #[trigger] d[i] <= 9 by {
            assert(raw[i] <= 9);
        }
    }
}

/// Two points in the same cell of a level have the same cell digits there.
pub proof fn lemma_same_cell(a: Coordinates, b: Coordinates, mesh_type: JPMeshType)
    requires
        in_domain(a),
        in_domain(b),
        mesh_type.spec_calc_type() == JPMeshCalcType::To5km,
        a.lat as int / mesh_type.spec_lat_interval() as int == b.lat as int
            / mesh_type.spec_lat_interval() as int,
        (a.lng - LNG_ORIGIN) / mesh_type.spec_lng_interval() as int == (b.lng - LNG_ORIGIN)
            / mesh_type.spec_lng_interval() as int,
    ensures
        spec_cell_digits(a, mesh_type) == spec_cell_digits(b, mesh_type),
{
    lemma_raw_digits_values(a);
    lemma_raw_digits_values(b);
    lemma_cell_digits_values(a, mesh_type);
    lemma_cell_digits_values(b, mesh_type);
    let wlat = mesh_type.spec_lat_interval();
    let wlng = mesh_type.spec_lng_interval();
    if wlat <= LAT_5KM {
        lemma_same_quotient_step(a.lat as int, b.lat as int, LAT_5KM as int, 2);
        lemma_same_quotient_step(a.lng - LNG_ORIGIN, b.lng - LNG_ORIGIN, LNG_5KM as int, 2);
    }
    if wlat <= LAT_10KM {
        lemma_same_quotient_step(a.lat as int, b.lat as int, LAT_10KM as int, 8);
        lemma_same_quotient_step(a.lng - LNG_ORIGIN, b.lng - LNG_ORIGIN, LNG_10KM as int, 8);
    }
    let da = spec_cell_digits(a, mesh_type);
    let db = spec_cell_digits(b, mesh_type);
    let ra = spec_raw_digits(a);
    let rb = spec_raw_digits(b);
    let k = mesh_type.spec_code_length();
    assert(ra[0] == rb[0] && ra[1] == rb[1] && ra[2] == rb[2] && ra[3] == rb[3]);
    assert(k > 4 ==> ra[4] == rb[4] && ra[5] == rb[5]);
    assert(k > 6 ==> ra[6] == rb[6]);
    assert forall|i: int| 0 <= i < 7 implies da[i] == db[i] by {
        if i < k {
            assert(da[i] == ra[i]);
            assert(db[i] == rb[i]);
        }
    }
    assert(da =~= db);
}

} // verus!
