//! The digit layouts of the grid, one per family of levels.
//!
//! Every layout starts with the same six digits: two for the 80 km row, two
//! for the 80 km column, one each for the 10 km row and column inside it.

pub mod to_125m;
pub mod to_2km;
pub mod to_5km;

use crate::geom::{Coordinates, Rect};
use crate::mesh_type::{
    in_domain, JPMeshType, LAT_10KM, LAT_80KM, LAT_MAX, LAT_MIN, LNG_10KM, LNG_80KM, LNG_MAX,
    LNG_ORIGIN,
};
use vstd::arithmetic::div_mod::{
    lemma_div_denominator, lemma_fundamental_div_mod, lemma_hoist_over_denominator,
};
use vstd::prelude::*;

verus! {

/// The family of a level: which digit layout its codes have.
#[derive(Debug, Clone, Copy, PartialEq, Eq, Structural)]
pub enum JPMeshCalcType {
    /// Eleven digits: the levels from 1 km down to 125 m.
    To125m,
    /// Seven digits: the 80 km, 10 km and 5 km levels.
    To5km,
    /// Nine digits: the 2 km level.
    To2km,
}

impl JPMeshCalcType {
    /// The number of digits of the family's layout.
    pub open spec fn spec_code_width(&self) -> usize {
        match self {
            JPMeshCalcType::To125m => 11,
            JPMeshCalcType::To5km => 7,
            JPMeshCalcType::To2km => 9,
        }
    }

    /// The number of digits of the family's layout.
    #[verifier::when_used_as_spec(spec_code_width)]
    pub fn code_width(&self) -> (r: usize)
        ensures
            r == self.spec_code_width(),
    {
        match self {
            JPMeshCalcType::To125m => 11,
            JPMeshCalcType::To5km => 7,
            JPMeshCalcType::To2km => 9,
        }
    }

    /// The family's default-fill mask: which positions of the layout, counted
    /// from the last one, hold quadrant digits.
    pub open spec fn spec_fill_mask(&self) -> u8 {
        match self {
            JPMeshCalcType::To125m => 7,
            JPMeshCalcType::To5km => 1,
            JPMeshCalcType::To2km => 0,
        }
    }

    /// The family's default-fill mask.
    #[verifier::when_used_as_spec(spec_fill_mask)]
    pub fn fill_mask(&self) -> (r: u8)
        ensures
            r == self.spec_fill_mask(),
    {
        match self {
            JPMeshCalcType::To125m => 7,
            JPMeshCalcType::To5km => 1,
            JPMeshCalcType::To2km => 0,
        }
    }
}

/// The index of the cell of size `inner` that holds `x`, counted inside
/// the enclosing cell of size `outer`.
pub open spec fn sub_index(x: int, outer: int, inner: int) -> int {
    (x % outer) / inner
}

/// The row that a quadrant digit stands for: `0` for the southern half of
/// the enclosing cell, `1` for the northern half.
pub open spec fn quadrant_row(digit: u8) -> int {
    (digit - 1) / 2
}

/// The column that a quadrant digit stands for: `0` for the western half of
/// the enclosing cell, `1` for the eastern half.
pub open spec fn quadrant_column(digit: u8) -> int {
    (digit - 1) % 2
}

/// `x` rounded down to a multiple of `step`.
pub open spec fn round_down(x: int, step: int) -> int {
    (x / step) * step
}

/// The six digits that every layout starts with.
pub open spec fn spec_head_digits(coords: Coordinates) -> Seq<u8> {
    let lat = coords.lat as int;
    let lng = coords.lng - LNG_ORIGIN;
    seq![
        ((lat / LAT_80KM as int) / 10) as u8,
        ((lat / LAT_80KM as int) % 10) as u8,
        ((lng / LNG_80KM as int) / 10) as u8,
        ((lng / LNG_80KM as int) % 10) as u8,
        sub_index(lat, LAT_80KM as int, LAT_10KM as int) as u8,
        sub_index(lng, LNG_80KM as int, LNG_10KM as int) as u8,
    ]
}

/// The southern edge that the first six digits stand for.
pub open spec fn spec_head_lat(digits: Seq<u8>) -> int {
    (digits[0] * 10 + digits[1]) * LAT_80KM + digits[4] * LAT_10KM
}

/// The western edge that the first six digits stand for.
pub open spec fn spec_head_lng(digits: Seq<u8>) -> int {
    LNG_ORIGIN + (digits[2] * 10 + digits[3]) * LNG_80KM + digits[5] * LNG_10KM
}

/// The cell of a level that holds a point, as a rectangle: the point
/// rounded down to the cell size on each axis, the longitude counted from
/// the origin, and one cell size from there.
pub open spec fn spec_cell_rect(coords: Coordinates, mesh_type: JPMeshType) -> Rect {
    let south = round_down(coords.lat as int, mesh_type.spec_lat_interval() as int);
    let west = LNG_ORIGIN + round_down(
        coords.lng - LNG_ORIGIN,
        mesh_type.spec_lng_interval() as int,
    );
    Rect {
        min_coord: Coordinates { lng: west as i64, lat: south as i64 },
        max_coord: Coordinates {
            lng: (west + mesh_type.spec_lng_interval()) as i64,
            lat: (south + mesh_type.spec_lat_interval()) as i64,
        },
    }
}

/// A number lies less than one step above itself rounded down.
pub proof fn lemma_round_down_bounds(x: int, step: int)
    requires
        0 < step,
    ensures
        round_down(x, step) <= x < round_down(x, step) + step,
        0 <= x ==> 0 <= round_down(x, step),
{
    lemma_fundamental_div_mod(x, step);
    assert((x / step) * step == step * (x / step)) by (nonlinear_arith);
}

/// A number between two multiples of a step stays between them when it is
/// rounded down, and so does the end of the step that holds it.
pub proof fn lemma_round_down_between(x: int, step: int, low: int, high: int)
    requires
        0 < step,
        low * step <= x < high * step,
    ensures
        low * step <= round_down(x, step),
        round_down(x, step) + step <= high * step,
{
    let q = x / step;
    lemma_round_down_bounds(x, step);
    assert(low <= q) by (nonlinear_arith)
        requires
            low * step <= x,
            x < q * step + step,
            0 < step,
    ;
    assert(q + 1 <= high) by (nonlinear_arith)
        requires
            q * step <= x,
            x < high * step,
            0 < step,
    ;
    assert(low * step <= q * step) by (nonlinear_arith)
        requires
            low <= q,
            0 < step,
    ;
    assert(q * step + step <= high * step) by (nonlinear_arith)
        requires
            q + 1 <= high,
            0 < step,
    ;
}

/// A number in the step that holds another has the same quotient.
pub proof fn lemma_same_step(x: int, y: int, step: int)
    requires
        0 < step,
        round_down(x, step) <= y < round_down(x, step) + step,
    ensures
        y / step == x / step,
{
    let q = x / step;
    vstd::arithmetic::div_mod::lemma_fundamental_div_mod_converse(y, step, q, y - q * step);
}

/// The cell of a level that holds a point of the covered region lies in
/// the covered region.
pub proof fn lemma_cell_in_domain(coords: Coordinates, mesh_type: JPMeshType)
    requires
        in_domain(coords),
    ensures
        LAT_MIN <= round_down(coords.lat as int, mesh_type.spec_lat_interval() as int),
        round_down(coords.lat as int, mesh_type.spec_lat_interval() as int)
            + mesh_type.spec_lat_interval() <= LAT_MAX,
        0 <= round_down(coords.lng - LNG_ORIGIN, mesh_type.spec_lng_interval() as int),
        LNG_ORIGIN + round_down(coords.lng - LNG_ORIGIN, mesh_type.spec_lng_interval() as int)
            + mesh_type.spec_lng_interval() <= LNG_MAX,
{
    let lat = coords.lat as int;
    let lng = coords.lng - LNG_ORIGIN;
    let height = mesh_type.spec_lat_interval() as int;
    let width = mesh_type.spec_lng_interval() as int;
    // How many cells of the level an 80 km cell holds along each axis.
    let per_side: int = match mesh_type {
        JPMeshType::Mesh80km => 1,
        JPMeshType::Mesh10km => 8,
        JPMeshType::Mesh5km => 16,
        JPMeshType::Mesh2km => 40,
        JPMeshType::Mesh1km => 80,
        JPMeshType::Mesh500m => 160,
        JPMeshType::Mesh250m => 320,
        JPMeshType::Mesh125m => 640,
    };
    assert((10 * per_side) * height == LAT_MIN) by (nonlinear_arith)
        requires
            per_side * height == LAT_80KM,
    ;
    assert((100 * per_side) * height == LAT_MAX) by (nonlinear_arith)
        requires
            per_side * height == LAT_80KM,
    ;
    lemma_round_down_between(lat, height, 10 * per_side, 100 * per_side);
    lemma_round_down_between(lng, width, 0, 100 * per_side);
}

/// Rounding down to a cell size is rounding down to the size of the
/// enclosing cell and then adding the whole inner cells before the point.
pub proof fn lemma_round_down_step(x: int, inner: int, factor: int)
    requires
        0 <= x,
        0 < inner,
        0 < factor,
    ensures
        round_down(x, inner) == round_down(x, inner * factor) + sub_index(
            x,
            inner * factor,
            inner,
        ) * inner,
        0 <= sub_index(x, inner * factor, inner) < factor,
{
    let outer = inner * factor;
    assert(outer > 0) by (nonlinear_arith)
        requires
            outer == inner * factor,
            0 < inner,
            0 < factor,
    ;
    let whole = x / outer;
    let rest = x % outer;
    lemma_fundamental_div_mod(x, outer);
    let j = factor * whole;
    lemma_hoist_over_denominator(rest, j, inner as nat);
    assert(j * inner == outer * whole) by (nonlinear_arith)
        requires
            j == factor * whole,
            outer == inner * factor,
    ;
    assert((rest / inner + j) * inner == (rest / inner) * inner + j * inner) by (nonlinear_arith);
    assert(0 <= rest / inner < factor) by (nonlinear_arith)
        requires
            0 <= rest < inner * factor,
            0 < inner,
    ;
}

/// Two points in the same cell are in the same enclosing cell, at the same
/// place inside it.
pub proof fn lemma_same_quotient_step(x: int, y: int, inner: int, factor: int)
    requires
        0 <= x,
        0 <= y,
        0 < inner,
        0 < factor,
        x / inner == y / inner,
    ensures
        x / (inner * factor) == y / (inner * factor),
        sub_index(x, inner * factor, inner) == sub_index(y, inner * factor, inner),
{
    lemma_div_denominator(x, inner, factor);
    lemma_div_denominator(y, inner, factor);
    lemma_round_down_step(x, inner, factor);
    lemma_round_down_step(y, inner, factor);
    let i = sub_index(x, inner * factor, inner);
    let j = sub_index(y, inner * factor, inner);
    assert(i == j) by (nonlinear_arith)
        requires
            i * inner == j * inner,
            0 < inner,
    ;
}

/// Computes the six digits that every layout starts with.
pub fn head_digits(coords: Coordinates) -> (r: [u8; 6])
    requires
        in_domain(coords),
    ensures
        r@ == spec_head_digits(coords),
        1 <= r[0] <= 9,
        r[1] <= 9,
        r[2] <= 9,
        r[3] <= 9,
        r[4] <= 7,
        r[5] <= 7,
{
    let lat: i64 = coords.lat;
    let lng: i64 = coords.lng - LNG_ORIGIN;
    let p: i64 = lat / LAT_80KM;
    let u: i64 = lng / LNG_80KM;
    let q: i64 = (lat % LAT_80KM) / LAT_10KM;
    let v: i64 = (lng % LNG_80KM) / LNG_10KM;
    let r: [u8; 6] = [
        (p / 10) as u8,
        (p % 10) as u8,
        (u / 10) as u8,
        (u % 10) as u8,
        q as u8,
        v as u8,
    ];
    r
}

} // verus!
