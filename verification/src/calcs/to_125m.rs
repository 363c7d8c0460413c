//! The eleven-digit layout: the six head digits, one digit each for the
//! 1 km row and column, and one quadrant digit each for the 500 m, 250 m
//! and 125 m levels.
//!
//! A quadrant digit is `2 * row + column + 1`: `1` is the south-west quarter
//! of the enclosing cell, `2` the south-east, `3` the north-west and `4` the
//! north-east. It is never `0`, so a code cut down to a coarser level keeps
//! `1` there and still names one definite cell.

use crate::calcs::{
    head_digits, lemma_cell_in_domain, lemma_round_down_bounds, lemma_round_down_step,
    lemma_same_quotient_step, quadrant_column, quadrant_row, round_down, spec_cell_rect,
    spec_head_digits, spec_head_lat, spec_head_lng, sub_index,
};
use crate::code_num::CodeNum;
use crate::digits::{
    all_decimal, digits_of, fill_masked, lemma_digits_of_decimal, lemma_number_of_lower_bound,
    lemma_pow10_positive, mask_selects, truncated_digits,
};
use crate::geom::{Coordinates, Rect};
use crate::mesh_type::{
    in_domain, JPMeshType, LAT_10KM, LAT_125M, LAT_1KM, LAT_250M, LAT_500M, LAT_80KM, LNG_10KM,
    LNG_125M, LNG_1KM, LNG_250M, LNG_500M, LNG_80KM, LNG_ORIGIN,
};
use vstd::prelude::*;

verus! {

/// A code number of the eleven-digit layout. The mask `7` selects the three
/// quadrant digits.
pub type CodeTo125m = CodeNum<11, 7>;

/// The eleven digits of a point, down to the finest level.
pub open spec fn spec_raw_digits(coords: Coordinates) -> Seq<u8> {
    let lat = coords.lat as int;
    let lng = coords.lng - LNG_ORIGIN;
    spec_head_digits(coords) + seq![
        sub_index(lat, LAT_10KM as int, LAT_1KM as int) as u8,
        sub_index(lng, LNG_10KM as int, LNG_1KM as int) as u8,
        (2 * sub_index(lat, LAT_1KM as int, LAT_500M as int) + sub_index(
            lng,
            LNG_1KM as int,
            LNG_500M as int,
        ) + 1) as u8,
        (2 * sub_index(lat, LAT_500M as int, LAT_250M as int) + sub_index(
            lng,
            LNG_500M as int,
            LNG_250M as int,
        ) + 1) as u8,
        (2 * sub_index(lat, LAT_250M as int, LAT_125M as int) + sub_index(
            lng,
            LNG_250M as int,
            LNG_125M as int,
        ) + 1) as u8,
    ]
}

/// The digits of a cell: the point's digits as far as the level goes, `1` in
/// every quadrant digit after that, `0` elsewhere.
pub open spec fn spec_cell_digits(coords: Coordinates, mesh_type: JPMeshType) -> Seq<u8> {
    fill_masked(truncated_digits(spec_raw_digits(coords), mesh_type.spec_code_length() as nat), 7)
}

/// The southern edge of the cell that eleven digits stand for.
pub open spec fn spec_min_lat(digits: Seq<u8>) -> int {
    spec_head_lat(digits) + digits[6] * LAT_1KM + quadrant_row(digits[8]) * LAT_500M
        + quadrant_row(digits[9]) * LAT_250M + quadrant_row(digits[10]) * LAT_125M
}

/// The western edge of the cell that eleven digits stand for.
pub open spec fn spec_min_lng(digits: Seq<u8>) -> int {
    spec_head_lng(digits) + digits[7] * LNG_1KM + quadrant_column(digits[8]) * LNG_500M
        + quadrant_column(digits[9]) * LNG_250M + quadrant_column(digits[10]) * LNG_125M
}

/// The cell that eleven digits stand for at a level: its south-west corner
/// from the digits, its size from the level.
pub open spec fn spec_bounds(digits: Seq<u8>, mesh_type: JPMeshType) -> Rect {
    Rect {
        min_coord: Coordinates {
            lng: spec_min_lng(digits) as i64,
            lat: spec_min_lat(digits) as i64,
        },
        max_coord: Coordinates {
            lng: (spec_min_lng(digits) + mesh_type.spec_lng_interval()) as i64,
            lat: (spec_min_lat(digits) + mesh_type.spec_lat_interval()) as i64,
        },
    }
}

/// Digits that `spec_bounds` is meant for: decimal, with quadrant digits that
/// are not zero.
pub open spec fn bounded_digits(digits: Seq<u8>) -> bool {
    &&& digits.len() == 11
    &&& all_decimal(digits)
    &&& digits[8] >= 1
    &&& digits[9] >= 1
    &&& digits[10] >= 1
}

/// Computes the eleven digits of a point.
pub fn raw_digits(coords: Coordinates) -> (r: [u8; 11])
    requires
        in_domain(coords),
    ensures
        r@ == spec_raw_digits(coords),
        all_decimal(r@),
        r[0] != 0,
        1 <= r[8] <= 4,
        1 <= r[9] <= 4,
        1 <= r[10] <= 4,
        r[4] <= 7,
        r[5] <= 7,
{
    let head = head_digits(coords);
    let lat: i64 = coords.lat;
    let lng: i64 = coords.lng - LNG_ORIGIN;
    let r: i64 = (lat % LAT_10KM) / LAT_1KM;
    let w: i64 = (lng % LNG_10KM) / LNG_1KM;
    let s: i64 = (lat % LAT_1KM) / LAT_500M;
    let x: i64 = (lng % LNG_1KM) / LNG_500M;
    let t: i64 = (lat % LAT_500M) / LAT_250M;
    let y: i64 = (lng % LNG_500M) / LNG_250M;
    let tt: i64 = (lat % LAT_250M) / LAT_125M;
    let yy: i64 = (lng % LNG_250M) / LNG_125M;
    let m: i64 = s * 2 + (x + 1);
    let n: i64 = t * 2 + (y + 1);
    let nn: i64 = tt * 2 + (yy + 1);
    let digits: [u8; 11] = [
        head[0],
        head[1],
        head[2],
        head[3],
        head[4],
        head[5],
        r as u8,
        w as u8,
        m as u8,
        n as u8,
        nn as u8,
    ];
    assert(digits@ =~= spec_raw_digits(coords));
    digits
}

/// Computes the cell that eleven digits stand for at a level.
pub fn bounds_of_digits(digits: &[u8; 11], mesh_type: JPMeshType) -> (r: Rect)
    requires
        bounded_digits(digits@),
    ensures
        r == spec_bounds(digits@, mesh_type),
        r.max_coord.lng - r.min_coord.lng == mesh_type.spec_lng_interval(),
        r.max_coord.lat - r.min_coord.lat == mesh_type.spec_lat_interval(),
{
    let p: i64 = (digits[0] * 10 + digits[1]) as i64;
    let u: i64 = (digits[2] * 10 + digits[3]) as i64;
    let q: i64 = digits[4] as i64;
    let v: i64 = digits[5] as i64;
    let r: i64 = digits[6] as i64;
    let w: i64 = digits[7] as i64;
    let m: i64 = digits[8] as i64;
    let n: i64 = digits[9] as i64;
    let nn: i64 = digits[10] as i64;

    let lat_base: i64 = p * LAT_80KM;
    let lat_q: i64 = q * LAT_10KM;
    let lat_r: i64 = r * LAT_1KM;
    let lat_s: i64 = ((m - 1) / 2) * LAT_500M;
    let lat_t: i64 = ((n - 1) / 2) * LAT_250M;
    let lat_tt: i64 = ((nn - 1) / 2) * LAT_125M;

    let lng_base: i64 = LNG_ORIGIN + u * LNG_80KM;
    let lng_v: i64 = v * LNG_10KM;
    let lng_w: i64 = w * LNG_1KM;
    let lng_x: i64 = ((m - 1) % 2) * LNG_500M;
    let lng_y: i64 = ((n - 1) % 2) * LNG_250M;
    let lng_yy: i64 = ((nn - 1) % 2) * LNG_125M;

    let min_lat: i64 = lat_base + lat_q + lat_r + lat_s + lat_t + lat_tt;
    let min_lng: i64 = lng_base + lng_v + lng_w + lng_x + lng_y + lng_yy;

    let max_lat: i64 = min_lat + mesh_type.lat_interval();
    let max_lng: i64 = min_lng + mesh_type.lng_interval();

    Rect::new(Coordinates::new(min_lng, min_lat), Coordinates::new(max_lng, max_lat))
}

impl CodeTo125m {
    /// The cell that the code number stands for at a level.
    pub open spec fn spec_to_bounds(self, mesh_type: JPMeshType) -> Rect {
        spec_bounds(digits_of(self@, 11), mesh_type)
    }

    /// The code number of the cell of a level that holds a point.
    pub fn from_coordinates(coords: Coordinates, mesh_type: JPMeshType) -> (r: Self)
        requires
            in_domain(coords),
        ensures
            r.canonical(mesh_type.spec_code_length() as nat),
            digits_of(r@, 11) == spec_cell_digits(coords, mesh_type),
            mesh_type.in_hierarchy() ==> r.spec_to_bounds(mesh_type) == spec_cell_rect(
                coords,
                mesh_type,
            ),
            mesh_type.in_hierarchy() ==> r.spec_to_bounds(mesh_type).spec_includes(coords),
    {
        let digits = raw_digits(coords);
        proof {
            let head = digits@.take(mesh_type.spec_code_length() as int);
            assert(head[0] == digits@[0]);
            lemma_number_of_lower_bound(head);
            lemma_pow10_positive((head.len() - 1) as nat);
            if mesh_type.in_hierarchy() {
                lemma_cell_corner(coords, mesh_type);
                lemma_cell_in_domain(coords, mesh_type);
                lemma_round_down_bounds(coords.lat as int, mesh_type.spec_lat_interval() as int);
                lemma_round_down_bounds(
                    coords.lng - LNG_ORIGIN,
                    mesh_type.spec_lng_interval() as int,
                );
            }
        }
        CodeNum::new(digits, mesh_type.code_length())
    }

    /// The cell that the code number stands for at a level: the south-west
    /// corner that its digits give, and the level's cell size.
    pub fn to_bounds(self, mesh_type: JPMeshType) -> (r: Rect)
        requires
            self.canonical(mesh_type.spec_code_length() as nat),
        ensures
            r == self.spec_to_bounds(mesh_type),
            r.max_coord.lng - r.min_coord.lng == mesh_type.spec_lng_interval(),
            r.max_coord.lat - r.min_coord.lat == mesh_type.spec_lat_interval(),
    {
        let code_array = self.to_array();
        proof {
            lemma_digits_of_decimal(self@, 11);
            lemma_mask_selects_quadrants(8);
            lemma_mask_selects_quadrants(9);
            lemma_mask_selects_quadrants(10);
        }
        bounds_of_digits(&code_array, mesh_type)
    }
}

/// Which positions the mask `7` selects among eleven: the last three.
pub proof fn lemma_mask_selects_quadrants(i: int)
    ensures
        mask_selects(7, 11, i) <==> 8 <= i <= 10,
{
    assert(forall|b: u8| b < 8 ==> (((7u8 >> b) & 1 == 1) <==> b < 3)) by (bit_vector);
    if 3 <= i <= 10 {
        let b: u8 = (10 - i) as u8;
        assert(((7u8 >> b) & 1 == 1) <==> b < 3);
    }
}

/// The eleven digits of a point in the covered region, as numbers.
pub proof fn lemma_raw_digits_values(coords: Coordinates)
    requires
        in_domain(coords),
    ensures
        ({
            let d = spec_raw_digits(coords);
            let lat = coords.lat as int;
            let lng = coords.lng - LNG_ORIGIN;
            &&& d.len() == 11
            &&& all_decimal(d)
            &&& d[0] != 0
            &&& d[0] * 10 + d[1] == lat / LAT_80KM as int
            &&& d[2] * 10 + d[3] == lng / LNG_80KM as int
            &&& d[4] == sub_index(lat, LAT_80KM as int, LAT_10KM as int)
            &&& d[5] == sub_index(lng, LNG_80KM as int, LNG_10KM as int)
            &&& d[4] <= 7
            &&& d[5] <= 7
            &&& d[6] == sub_index(lat, LAT_10KM as int, LAT_1KM as int)
            &&& d[7] == sub_index(lng, LNG_10KM as int, LNG_1KM as int)
            &&& 1 <= d[8] <= 4
            &&& 1 <= d[9] <= 4
            &&& 1 <= d[10] <= 4
            &&& quadrant_row(d[8]) == sub_index(lat, LAT_1KM as int, LAT_500M as int)
            &&& quadrant_row(d[9]) == sub_index(lat, LAT_500M as int, LAT_250M as int)
            &&& quadrant_row(d[10]) == sub_index(lat, LAT_250M as int, LAT_125M as int)
            &&& quadrant_column(d[8]) == sub_index(lng, LNG_1KM as int, LNG_500M as int)
            &&& quadrant_column(d[9]) == sub_index(lng, LNG_500M as int, LNG_250M as int)
            &&& quadrant_column(d[10]) == sub_index(lng, LNG_250M as int, LNG_125M as int)
        }),
{
    let d = spec_raw_digits(coords);
    let h = spec_head_digits(coords);
    assert(h.len() == 6);
    assert(d.len() == 11);
    assert(d[0] == h[0] && d[1] == h[1] && d[2] == h[2] && d[3] == h[3] && d[4] == h[4] && d[5]
        == h[5]);
    assert forall|i: int| 0 <= i < d.len() implies #[trigger] d[i] <= 9 by {
        if i < 6 {
            assert(d[i] == h[i]);
        }
    }
}

/// The digits of a cell, position by position.
pub proof fn lemma_cell_digits_values(coords: Coordinates, mesh_type: JPMeshType)
    requires
        in_domain(coords),
    ensures
        ({
            let d = spec_cell_digits(coords, mesh_type);
            let raw = spec_raw_digits(coords);
            &&& d.len() == 11
            &&& forall|i: int|
                0 <= i < 11 ==> #[trigger] d[i] == (if i < mesh_type.spec_code_length() {
                    raw[i]
                } else if i >= 8 {
                    1u8
                } else {
                    0u8
                })
        }),
{
    lemma_raw_digits_values(coords);
    let d = spec_cell_digits(coords, mesh_type);
    let raw = spec_raw_digits(coords);
    assert forall|i: int| 0 <= i < 11 implies #[trigger] d[i] == (if i
        < mesh_type.spec_code_length() {
        raw[i]
    } else if i >= 8 {
        1u8
    } else {
        0u8
    }) by {
        lemma_mask_selects_quadrants(i);
    }
}

/// The ranges of the digits of a cell: every digit is decimal, the 10 km
/// row and column are below 8, and every quadrant digit is from 1 to 4.
pub proof fn lemma_cell_digits_ranges(coords: Coordinates, mesh_type: JPMeshType)
    requires
        in_domain(coords),
    ensures
        ({
            let d = spec_cell_digits(coords, mesh_type);
            &&& d.len() == 11
            &&& all_decimal(d)
            &&& d[0] != 0
            &&& d[4] <= 7
            &&& d[5] <= 7
            &&& 1 <= d[8] <= 4
            &&& 1 <= d[9] <= 4
            &&& 1 <= d[10] <= 4
        }),
{
    let d = spec_cell_digits(coords, mesh_type);
    let raw = spec_raw_digits(coords);
    lemma_raw_digits_values(coords);
    lemma_cell_digits_values(coords, mesh_type);
    assert(d[0] == raw[0]);
    assert(d[4] == raw[4] || d[4] == 0);
    assert(d[5] == raw[5] || d[5] == 0);
    assert(d[8] == raw[8] || d[8] == 1);
    assert(d[9] == raw[9] || d[9] == 1);
    assert(d[10] == raw[10] || d[10] == 1);
    assert forall|i: int| 0 <= i < d.len() implies #[trigger] d[i] <= 9 by {
        assert(raw[i] <= 9);
    }
}

/// How rounding down to one level's cell height follows from rounding down
/// to the height of the enclosing cell.
pub proof fn lemma_lat_steps(lat: int)
    requires
        0 <= lat,
    ensures
        round_down(lat, LAT_10KM as int) == round_down(lat, LAT_80KM as int) + sub_index(
            lat,
            LAT_80KM as int,
            LAT_10KM as int,
        ) * LAT_10KM,
        round_down(lat, LAT_1KM as int) == round_down(lat, LAT_10KM as int) + sub_index(
            lat,
            LAT_10KM as int,
            LAT_1KM as int,
        ) * LAT_1KM,
        round_down(lat, LAT_500M as int) == round_down(lat, LAT_1KM as int) + sub_index(
            lat,
            LAT_1KM as int,
            LAT_500M as int,
        ) * LAT_500M,
        round_down(lat, LAT_250M as int) == round_down(lat, LAT_500M as int) + sub_index(
            lat,
            LAT_500M as int,
            LAT_250M as int,
        ) * LAT_250M,
        round_down(lat, LAT_125M as int) == round_down(lat, LAT_250M as int) + sub_index(
            lat,
            LAT_250M as int,
            LAT_125M as int,
        ) * LAT_125M,
{
    lemma_round_down_step(lat, LAT_10KM as int, 8);
    lemma_round_down_step(lat, LAT_1KM as int, 10);
    lemma_round_down_step(lat, LAT_500M as int, 2);
    lemma_round_down_step(lat, LAT_250M as int, 2);
    lemma_round_down_step(lat, LAT_125M as int, 2);
}

/// How rounding down to one level's cell width follows from rounding down
/// to the width of the enclosing cell.
pub proof fn lemma_lng_steps(lng: int)
    requires
        0 <= lng,
    ensures
        round_down(lng, LNG_10KM as int) == round_down(lng, LNG_80KM as int) + sub_index(
            lng,
            LNG_80KM as int,
            LNG_10KM as int,
        ) * LNG_10KM,
        round_down(lng, LNG_1KM as int) == round_down(lng, LNG_10KM as int) + sub_index(
            lng,
            LNG_10KM as int,
            LNG_1KM as int,
        ) * LNG_1KM,
        round_down(lng, LNG_500M as int) == round_down(lng, LNG_1KM as int) + sub_index(
            lng,
            LNG_1KM as int,
            LNG_500M as int,
        ) * LNG_500M,
        round_down(lng, LNG_250M as int) == round_down(lng, LNG_500M as int) + sub_index(
            lng,
            LNG_500M as int,
            LNG_250M as int,
        ) * LNG_250M,
        round_down(lng, LNG_125M as int) == round_down(lng, LNG_250M as int) + sub_index(
            lng,
            LNG_250M as int,
            LNG_125M as int,
        ) * LNG_125M,
{
    lemma_round_down_step(lng, LNG_10KM as int, 8);
    lemma_round_down_step(lng, LNG_1KM as int, 10);
    lemma_round_down_step(lng, LNG_500M as int, 2);
    lemma_round_down_step(lng, LNG_250M as int, 2);
    lemma_round_down_step(lng, LNG_125M as int, 2);
}

/// The south-west corner of a cell is the point rounded down to a multiple
/// of the level's cell size, on each axis.
pub proof fn lemma_cell_corner(coords: Coordinates, mesh_type: JPMeshType)
    requires
        in_domain(coords),
        mesh_type.in_hierarchy(),
    ensures
        spec_min_lat(spec_cell_digits(coords, mesh_type)) == round_down(
            coords.lat as int,
            mesh_type.spec_lat_interval() as int,
        ),
        spec_min_lng(spec_cell_digits(coords, mesh_type)) == LNG_ORIGIN + round_down(
            coords.lng - LNG_ORIGIN,
            mesh_type.spec_lng_interval() as int,
        ),
        bounded_digits(spec_cell_digits(coords, mesh_type)),
{
    let d = spec_cell_digits(coords, mesh_type);
    let raw = spec_raw_digits(coords);
    lemma_raw_digits_values(coords);
    lemma_cell_digits_values(coords, mesh_type);
    lemma_lat_steps(coords.lat as int);
    lemma_lng_steps(coords.lng - LNG_ORIGIN);
    assert(d[0] == raw[0] && d[1] == raw[1] && d[2] == raw[2] && d[3] == raw[3]);
    assert(d[4] == (if 4 < mesh_type.spec_code_length() { raw[4] } else { 0u8 }));
    assert(d[5] == (if 5 < mesh_type.spec_code_length() { raw[5] } else { 0u8 }));
    assert(d[6] == (if 6 < mesh_type.spec_code_length() { raw[6] } else { 0u8 }));
    assert(d[7] == (if 7 < mesh_type.spec_code_length() { raw[7] } else { 0u8 }));
    assert(d[8] == (if 8 < mesh_type.spec_code_length() { raw[8] } else { 1u8 }));
    assert(d[9] == (if 9 < mesh_type.spec_code_length() { raw[9] } else { 1u8 }));
    assert(d[10] == (if 10 < mesh_type.spec_code_length() { raw[10] } else { 1u8 }));
    assert(all_decimal(d)) by {
        assert forall|i: int| 0 <= i < d.len() implies #[trigger] d[i] <= 9 by {
            assert(raw[i] <= 9);
        }
    }
}

/// Two latitudes in the same row of a level are in the same row of every
/// coarser level, and have the same index at every step down to the level.
pub proof fn lemma_same_row(a: int, b: int, mesh_type: JPMeshType)
    requires
        0 <= a,
        0 <= b,
        mesh_type.in_hierarchy(),
        a / mesh_type.spec_lat_interval() as int == b / mesh_type.spec_lat_interval() as int,
    ensures
        a / LAT_80KM as int == b / LAT_80KM as int,
        mesh_type.spec_lat_interval() <= LAT_10KM ==> sub_index(
            a,
            LAT_80KM as int,
            LAT_10KM as int,
        ) == sub_index(b, LAT_80KM as int, LAT_10KM as int),
        mesh_type.spec_lat_interval() <= LAT_1KM ==> sub_index(a, LAT_10KM as int, LAT_1KM as int)
            == sub_index(b, LAT_10KM as int, LAT_1KM as int),
        mesh_type.spec_lat_interval() <= LAT_500M ==> sub_index(
            a,
            LAT_1KM as int,
            LAT_500M as int,
        ) == sub_index(b, LAT_1KM as int, LAT_500M as int),
        mesh_type.spec_lat_interval() <= LAT_250M ==> sub_index(
            a,
            LAT_500M as int,
            LAT_250M as int,
        ) == sub_index(b, LAT_500M as int, LAT_250M as int),
        mesh_type.spec_lat_interval() <= LAT_125M ==> sub_index(
            a,
            LAT_250M as int,
            LAT_125M as int,
        ) == sub_index(b, LAT_250M as int, LAT_125M as int),
{
    let w = mesh_type.spec_lat_interval();
    if w <= LAT_125M {
        lemma_same_quotient_step(a, b, LAT_125M as int, 2);
    }
    if w <= LAT_250M {
        lemma_same_quotient_step(a, b, LAT_250M as int, 2);
    }
    if w <= LAT_500M {
        lemma_same_quotient_step(a, b, LAT_500M as int, 2);
    }
    if w <= LAT_1KM {
        lemma_same_quotient_step(a, b, LAT_1KM as int, 10);
    }
    if w <= LAT_10KM {
        lemma_same_quotient_step(a, b, LAT_10KM as int, 8);
    }
}

/// Two longitudes in the same column of a level are in the same column of
/// every coarser level, and have the same index at every step down to the
/// level.
pub proof fn lemma_same_column(a: int, b: int, mesh_type: JPMeshType)
    requires
        0 <= a,
        0 <= b,
        mesh_type.in_hierarchy(),
        a / mesh_type.spec_lng_interval() as int == b / mesh_type.spec_lng_interval() as int,
    ensures
        a / LNG_80KM as int == b / LNG_80KM as int,
        mesh_type.spec_lng_interval() <= LNG_10KM ==> sub_index(
            a,
            LNG_80KM as int,
            LNG_10KM as int,
        ) == sub_index(b, LNG_80KM as int, LNG_10KM as int),
        mesh_type.spec_lng_interval() <= LNG_1KM ==> sub_index(a, LNG_10KM as int, LNG_1KM as int)
            == sub_index(b, LNG_10KM as int, LNG_1KM as int),
        mesh_type.spec_lng_interval() <= LNG_500M ==> sub_index(
            a,
            LNG_1KM as int,
            LNG_500M as int,
        ) == sub_index(b, LNG_1KM as int, LNG_500M as int),
        mesh_type.spec_lng_interval() <= LNG_250M ==> sub_index(
            a,
            LNG_500M as int,
            LNG_250M as int,
        ) == sub_index(b, LNG_500M as int, LNG_250M as int),
        mesh_type.spec_lng_interval() <= LNG_125M ==> sub_index(
            a,
            LNG_250M as int,
            LNG_125M as int,
        ) == sub_index(b, LNG_250M as int, LNG_125M as int),
{
    let w = mesh_type.spec_lng_interval();
    if w <= LNG_125M {
        lemma_same_quotient_step(a, b, LNG_125M as int, 2);
    }
    if w <= LNG_250M {
        lemma_same_quotient_step(a, b, LNG_250M as int, 2);
    }
    if w <= LNG_500M {
        lemma_same_quotient_step(a, b, LNG_500M as int, 2);
    }
    if w <= LNG_1KM {
        lemma_same_quotient_step(a, b, LNG_1KM as int, 10);
    }
    if w <= LNG_10KM {
        lemma_same_quotient_step(a, b, LNG_10KM as int, 8);
    }
}

/// Two points in the same cell of a level have the same cell digits there.
pub proof fn lemma_same_cell(a: Coordinates, b: Coordinates, mesh_type: JPMeshType)
    requires
        in_domain(a),
        in_domain(b),
        mesh_type.in_hierarchy(),
        a.lat as int / mesh_type.spec_lat_interval() as int == b.lat as int
            / mesh_type.spec_lat_interval() as int,
        (a.lng - LNG_ORIGIN) / mesh_type.spec_lng_interval() as int == (b.lng - LNG_ORIGIN)
            / mesh_type.spec_lng_interval() as int,
    ensures
        spec_cell_digits(a, mesh_type) == spec_cell_digits(b, mesh_type),
{
    lemma_raw_digits_values(a);
    lemma_raw_digits_values(b);
    lemma_cell_digits_values(a, mesh_type);
    lemma_cell_digits_values(b, mesh_type);
    lemma_same_row(a.lat as int, b.lat as int, mesh_type);
    lemma_same_column(a.lng - LNG_ORIGIN, b.lng - LNG_ORIGIN, mesh_type);
    let da = spec_cell_digits(a, mesh_type);
    let db = spec_cell_digits(b, mesh_type);
    let ra = spec_raw_digits(a);
    let rb = spec_raw_digits(b);
    let k = mesh_type.spec_code_length();
    assert(ra[0] == rb[0] && ra[1] == rb[1] && ra[2] == rb[2] && ra[3] == rb[3]);
    assert(k > 4 ==> ra[4] == rb[4] && ra[5] == rb[5]);
    assert(k > 6 ==> ra[6] == rb[6] && ra[7] == rb[7]);
    assert(k > 8 ==> ra[8] == rb[8]);
    assert(k > 9 ==> ra[9] == rb[9]);
    assert(k > 10 ==> ra[10] == rb[10]);
    assert forall|i: int| 0 <= i < 11 implies da[i] == db[i] by {
        if i < k {
            assert(da[i] == ra[i]);
            assert(db[i] == rb[i]);
        }
    }
    assert(da =~= db);
}

} // verus!
