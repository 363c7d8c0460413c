//! What holds of the mesh codes as a whole: how the operations of
//! `JPMeshCode` relate to one another.

use crate::calcs::to_125m::CodeTo125m;
use crate::calcs::to_2km::CodeTo2km;
use crate::calcs::to_5km::CodeTo5km;
use crate::calcs::{
    lemma_cell_in_domain, lemma_round_down_bounds, lemma_same_step, to_125m, to_2km, to_5km,
    JPMeshCalcType,
};
use crate::digits::{
    digit_at, digits_of, fill_masked, left_align, lemma_digit_at_truncated, lemma_digits_of_decimal,
    lemma_first_digit_nonzero, lemma_left_align_bounds, lemma_pow10_monotonic, lemma_pow10_positive,
    lemma_pow10_values, mask_selects, pow10, truncated_digits,
};
use crate::error::code_error;
use crate::geom::{Coordinates, Rect};
use crate::mesh_code::{lemma_new_is_cell, JPMeshCode};
use crate::mesh_type::{in_domain, JPMeshType, LNG_ORIGIN};
use vstd::prelude::*;

verus! {

/// The cell of a point holds the point: for every level and every point of
/// the covered region, the rectangle of the point's cell includes the
/// point.
pub proof fn lemma_cell_holds_point(point: Coordinates, mesh_type: JPMeshType)
    requires
        in_domain(point),
    ensures
        JPMeshCode::spec_new(point, mesh_type).spec_to_bounds().spec_includes(point),
{
    lemma_new_is_cell(point, mesh_type);
    lemma_cell_in_domain(point, mesh_type);
    lemma_round_down_bounds(point.lat as int, mesh_type.spec_lat_interval() as int);
    lemma_round_down_bounds(point.lng - LNG_ORIGIN, mesh_type.spec_lng_interval() as int);
}

/// Every point of a cell has that cell: for every level, a point that the
/// rectangle of another point's cell includes lies in the covered region
/// and has the same cell.
pub proof fn lemma_point_of_cell_has_cell(
    point: Coordinates,
    other: Coordinates,
    mesh_type: JPMeshType,
)
    requires
        in_domain(point),
        JPMeshCode::spec_new(point, mesh_type).spec_to_bounds().spec_includes(other),
    ensures
        in_domain(other),
        JPMeshCode::spec_new(other, mesh_type) == JPMeshCode::spec_new(point, mesh_type),
{
    lemma_new_is_cell(point, mesh_type);
    lemma_cell_in_domain(point, mesh_type);
    lemma_same_step(point.lat as int, other.lat as int, mesh_type.spec_lat_interval() as int);
    lemma_same_step(
        point.lng - LNG_ORIGIN,
        other.lng - LNG_ORIGIN,
        mesh_type.spec_lng_interval() as int,
    );
    match mesh_type.spec_calc_type() {
        JPMeshCalcType::To125m => {
            to_125m::lemma_same_cell(point, other, mesh_type);
        },
        JPMeshCalcType::To2km => {
            to_2km::lemma_same_cell(point, other);
        },
        JPMeshCalcType::To5km => {
            to_5km::lemma_same_cell(point, other, mesh_type);
        },
    }
}

/// The rectangle of a cell is exactly as wide and as high as the cells of
/// its level.
pub proof fn lemma_width_exact(cell: JPMeshCode)
    requires
        cell.wf(),
    ensures
        cell.spec_to_bounds().max_coord.lng - cell.spec_to_bounds().min_coord.lng
            == cell.spec_mesh_type().spec_lng_interval(),
        cell.spec_to_bounds().max_coord.lat - cell.spec_to_bounds().min_coord.lat
            == cell.spec_mesh_type().spec_lat_interval(),
{
    let d = cell.digits();
    lemma_digits_of_decimal(cell.code_number(), cell.family().spec_code_width() as nat);
    assert(d[0] <= 9 && d[1] <= 9 && d[2] <= 9 && d[3] <= 9 && d[4] <= 9 && d[5] <= 9 && d[6]
        <= 9);
    match cell {
        JPMeshCode::To125m { .. } => {
            assert(d[7] <= 9 && d[8] <= 9 && d[9] <= 9 && d[10] <= 9);
        },
        JPMeshCode::To2km { .. } => {
            assert(d[7] <= 9);
        },
        JPMeshCode::To5km { .. } => {},
    }
}

/// A cell is the cell that its own numeric code names at its level.
pub proof fn lemma_number_round_trip(cell: JPMeshCode)
    requires
        cell.wf(),
    ensures
        code_error(cell.spec_to_number(), cell.family().spec_code_width() as nat) is None,
        JPMeshCode::spec_from_number(cell.spec_to_number(), cell.spec_mesh_type()) == cell,
{
    let mesh_type = cell.spec_mesh_type();
    let k = mesh_type.spec_code_length() as nat;
    let n = cell.spec_to_number();
    match cell {
        JPMeshCode::To125m { code, .. } => {
            code.lemma_from_number_of_to_number(k);
            let aligned = digits_of(left_align(n, 11), 11);
            lemma_left_align_bounds(n, 11);
            lemma_first_digit_nonzero(left_align(n, 11), 11);
            lemma_digits_of_decimal(left_align(n, 11), 11);
            CodeTo125m::lemma_canonical_of_digits(aligned, k);
            code.lemma_with_value_of_view();
        },
        JPMeshCode::To2km { code, .. } => {
            code.lemma_from_number_of_to_number(k);
            let aligned = digits_of(left_align(n, 9), 9);
            lemma_left_align_bounds(n, 9);
            lemma_first_digit_nonzero(left_align(n, 9), 9);
            lemma_digits_of_decimal(left_align(n, 9), 9);
            CodeTo2km::lemma_canonical_of_digits(aligned, k);
            code.lemma_with_value_of_view();
        },
        JPMeshCode::To5km { code, .. } => {
            code.lemma_from_number_of_to_number(k);
            let aligned = digits_of(left_align(n, 7), 7);
            lemma_left_align_bounds(n, 7);
            lemma_first_digit_nonzero(left_align(n, 7), 7);
            lemma_digits_of_decimal(left_align(n, 7), 7);
            CodeTo5km::lemma_canonical_of_digits(aligned, k);
            code.lemma_with_value_of_view();
        },
    }
}

/// Two cells are the same cell when they have the same level and the same
/// numeric code.
pub proof fn lemma_equal_by_number(a: JPMeshCode, b: JPMeshCode)
    requires
        a.wf(),
        b.wf(),
        a.spec_mesh_type() == b.spec_mesh_type(),
        a.spec_to_number() == b.spec_to_number(),
    ensures
        a == b,
{
    lemma_number_round_trip(a);
    lemma_number_round_trip(b);
}

/// A rectangle that spans exactly `k` cell heights and `k` cell widths is
/// covered by `k + 1` rows of `k + 1` cells.
pub proof fn lemma_enumeration_count(bounds: Rect, mesh_type: JPMeshType, k: int)
    requires
        0 <= k,
        bounds.max_coord.lat - bounds.min_coord.lat == k * mesh_type.spec_lat_interval(),
        bounds.max_coord.lng - bounds.min_coord.lng == k * mesh_type.spec_lng_interval(),
    ensures
        JPMeshCode::spec_rows(bounds, mesh_type) == k + 1,
        JPMeshCode::spec_columns(bounds, mesh_type) == k + 1,
        JPMeshCode::spec_from_on_bounds(bounds, mesh_type).len() == (k + 1) * (k + 1),
{
    let height = mesh_type.spec_lat_interval() as int;
    let width = mesh_type.spec_lng_interval() as int;
    if k > 0 {
        assert(k * height > 0) by (nonlinear_arith)
            requires
                k > 0,
                height > 0,
        ;
        assert(k * width > 0) by (nonlinear_arith)
            requires
                k > 0,
                width > 0,
        ;
        vstd::arithmetic::div_mod::lemma_fundamental_div_mod_converse(k * height, height, k, 0);
        vstd::arithmetic::div_mod::lemma_fundamental_div_mod_converse(k * width, width, k, 0);
    } else {
        assert(0 * height == 0);
        assert(0 * width == 0);
    }
    assert((k + 1) * (k + 1) >= 0) by (nonlinear_arith)
        requires
            k >= 0,
    ;
}

/// What `from_number` builds from a numeric code that has exactly as many
/// digits as the level: a well-formed cell of the level, which has that
/// numeric code again unless the default fill replaced one of its digits.
pub proof fn lemma_from_full_width_number(mesh_code: nat, mesh_type: JPMeshType)
    requires
        pow10((mesh_type.spec_code_length() - 1) as nat) <= mesh_code < pow10(
            mesh_type.spec_code_length() as nat,
        ),
    ensures
        JPMeshCode::spec_from_number(mesh_code, mesh_type).wf(),
        JPMeshCode::spec_from_number(mesh_code, mesh_type).spec_mesh_type() == mesh_type,
        (forall|i: int|
            0 <= i < mesh_type.spec_code_length() && mask_selects(
                mesh_type.spec_calc_type().spec_fill_mask(),
                mesh_type.spec_calc_type().spec_code_width() as nat,
                i,
            ) ==> #[trigger] digit_at(mesh_code, mesh_type.spec_code_length() as nat, i) != 0)
            ==> JPMeshCode::spec_from_number(mesh_code, mesh_type).spec_to_number() == mesh_code,
{
    let k = mesh_type.spec_code_length() as nat;
    lemma_pow10_positive((k - 1) as nat);
    match mesh_type.spec_calc_type() {
        JPMeshCalcType::To125m => {
            let aligned = digits_of(left_align(mesh_code, 11), 11);
            lemma_pow10_monotonic(k, 11);
            lemma_left_align_bounds(mesh_code, 11);
            lemma_first_digit_nonzero(left_align(mesh_code, 11), 11);
            lemma_digits_of_decimal(left_align(mesh_code, 11), 11);
            CodeTo125m::lemma_canonical_of_digits(aligned, k);
            CodeTo125m::lemma_from_full_width_number(mesh_code, k);
        },
        JPMeshCalcType::To2km => {
            let aligned = digits_of(left_align(mesh_code, 9), 9);
            lemma_pow10_monotonic(k, 9);
            lemma_left_align_bounds(mesh_code, 9);
            lemma_first_digit_nonzero(left_align(mesh_code, 9), 9);
            lemma_digits_of_decimal(left_align(mesh_code, 9), 9);
            CodeTo2km::lemma_canonical_of_digits(aligned, k);
            CodeTo2km::lemma_from_full_width_number(mesh_code, k);
        },
        JPMeshCalcType::To5km => {
            let aligned = digits_of(left_align(mesh_code, 7), 7);
            lemma_pow10_monotonic(k, 7);
            lemma_left_align_bounds(mesh_code, 7);
            lemma_first_digit_nonzero(left_align(mesh_code, 7), 7);
            lemma_digits_of_decimal(left_align(mesh_code, 7), 7);
            CodeTo5km::lemma_canonical_of_digits(aligned, k);
            CodeTo5km::lemma_from_full_width_number(mesh_code, k);
        },
    }
}

/// The digits of a cell's numeric code are the first digits of the cell,
/// and none of them is a zero where the family's mask asks for a default.
pub proof fn lemma_number_digits(cell: JPMeshCode, i: int)
    requires
        cell.wf(),
        0 <= i < cell.spec_mesh_type().spec_code_length(),
    ensures
        digit_at(cell.spec_to_number(), cell.spec_mesh_type().spec_code_length() as nat, i)
            == cell.digits()[i],
        mask_selects(
            cell.family().spec_fill_mask(),
            cell.family().spec_code_width() as nat,
            i,
        ) ==> cell.digits()[i] != 0,
{
    let k = cell.spec_mesh_type().spec_code_length() as nat;
    let width = cell.family().spec_code_width() as nat;
    lemma_digit_at_truncated(cell.code_number(), width, k, i);
    let d = cell.digits();
    let again = fill_masked(truncated_digits(d, k), cell.family().spec_fill_mask());
    assert(d[i] == again[i]);
}

/// Every child has its parent for parent: for every cell and every index
/// among its children, the parent of that child is the cell.
pub proof fn lemma_parent_of_child(cell: JPMeshCode, index: int)
    requires
        cell.wf(),
        0 <= index < cell.spec_children().len(),
    ensures
        cell.spec_children()[index].wf(),
        Some(cell.spec_children()[index].spec_mesh_type()) == cell.spec_mesh_type().spec_finer(),
        cell.spec_children()[index].spec_to_number() == cell.spec_child_number(
            cell.spec_mesh_type().spec_finer()->0,
            index,
        ),
        cell.spec_children()[index].spec_parent() == Some(cell),
{
    let level = cell.spec_mesh_type().spec_finer()->0;
    let k = cell.spec_mesh_type().spec_code_length() as nat;
    let kc = level.spec_code_length() as nat;
    let n = cell.spec_to_number();
    let nc = cell.spec_child_number(level, index);
    let child = cell.spec_children()[index];
    cell.lemma_number_width();
    cell.lemma_child_number_width(index);
    assert forall|i: int|
        0 <= i < kc && mask_selects(
            level.spec_calc_type().spec_fill_mask(),
            level.spec_calc_type().spec_code_width() as nat,
            i,
        ) implies #[trigger] digit_at(nc, kc, i) != 0 by {
        to_125m::lemma_mask_selects_quadrants(i);
        to_5km::lemma_mask_selects_quadrant(i);
        if i < k {
            lemma_digit_at_truncated(nc, kc, k, i);
            lemma_number_digits(cell, i);
        } else {
            // A masked position after the cell's own digits is the last
            // one: the quadrant digit that the child adds.
            assert(i == kc - 1);
            assert(pow10(0) == 1);
            assert(nc / 1 == nc);
            assert(nc % 10 == level.spec_group_suffix(index as usize));
        }
    }
    lemma_from_full_width_number(nc, level);
    lemma_number_round_trip(cell);
}

/// The parent of a cell is a well-formed cell of the next coarser level, and
/// its numeric code is the cell's without the last digit group.
pub proof fn lemma_parent_is_cell(cell: JPMeshCode)
    requires
        cell.wf(),
        cell.spec_parent() is Some,
    ensures
        cell.spec_parent()->0.wf(),
        Some(cell.spec_parent()->0.spec_mesh_type()) == cell.spec_mesh_type().spec_coarser(),
        cell.spec_parent()->0.spec_to_number() == cell.spec_to_number()
            / cell.spec_mesh_type().spec_group_divisor() as nat,
{
    let mesh_type = cell.spec_mesh_type();
    let level = mesh_type.spec_coarser()->0;
    let k = mesh_type.spec_code_length() as nat;
    let kp = level.spec_code_length() as nat;
    let n = cell.spec_to_number();
    let np = n / mesh_type.spec_group_divisor() as nat;
    cell.lemma_parent_number_width();
    assert forall|i: int|
        0 <= i < kp && mask_selects(
            level.spec_calc_type().spec_fill_mask(),
            level.spec_calc_type().spec_code_width() as nat,
            i,
        ) implies #[trigger] digit_at(np, kp, i) != 0 by {
        to_125m::lemma_mask_selects_quadrants(i);
        to_5km::lemma_mask_selects_quadrant(i);
        lemma_digit_at_truncated(n, k, kp, i);
        lemma_number_digits(cell, i);
    }
    lemma_from_full_width_number(np, level);
}

/// Every cell is among the children of its parent: for every cell whose
/// level has a coarser one and whose last digit group names a cell of the
/// grid, the children of the cell's parent hold the cell, at the place that
/// the digit group gives.
pub proof fn lemma_child_of_parent(cell: JPMeshCode)
    requires
        cell.wf(),
        cell.spec_parent() is Some,
        cell.spec_group_in_range(),
    ensures
        0 <= cell.spec_index_in_parent() < cell.spec_parent()->0.spec_children().len(),
        cell.spec_parent()->0.spec_children()[cell.spec_index_in_parent()] == cell,
        cell.spec_parent()->0.spec_children().contains(cell),
{
    let mesh_type = cell.spec_mesh_type();
    let n = cell.spec_to_number();
    let parent = cell.spec_parent()->0;
    let index = cell.spec_index_in_parent();
    lemma_parent_is_cell(cell);
    lemma_group_width(mesh_type);
    assert(parent.spec_child_number(mesh_type, index) == n);
    lemma_number_round_trip(cell);
    assert(parent.spec_children()[index] == cell);
}

/// The last two digits of a cell's numeric code are the last two of the
/// cell's own digits.
pub proof fn lemma_last_digits(cell: JPMeshCode)
    requires
        cell.wf(),
    ensures
        cell.spec_to_number() % 10 == cell.digits()[cell.spec_mesh_type().spec_code_length() - 1],
        (cell.spec_to_number() / 10) % 10 == cell.digits()[cell.spec_mesh_type().spec_code_length()
            - 2],
{
    let k = cell.spec_mesh_type().spec_code_length() as nat;
    let n = cell.spec_to_number();
    lemma_number_digits(cell, k - 1);
    lemma_number_digits(cell, k - 2);
    assert(pow10(0) == 1);
    assert(pow10(1) == 10) by {
        lemma_pow10_values();
    }
    assert(n / 1 == n);
}

/// A cell whose last digits are in the ranges of the grid has a last digit
/// group in range.
pub proof fn lemma_group_in_range_by_digits(cell: JPMeshCode)
    requires
        cell.wf(),
        match cell.spec_mesh_type() {
            JPMeshType::Mesh10km => cell.digits()[4] <= 7 && cell.digits()[5] <= 7,
            JPMeshType::Mesh500m => 1 <= cell.digits()[8] <= 4,
            JPMeshType::Mesh250m => 1 <= cell.digits()[9] <= 4,
            JPMeshType::Mesh125m => 1 <= cell.digits()[10] <= 4,
            _ => true,
        },
    ensures
        cell.spec_group_in_range(),
{
    let n = cell.spec_to_number();
    lemma_last_digits(cell);
    if cell.spec_mesh_type() is Mesh10km {
        assert(cell.spec_group() == n % 100);
        assert((n % 100) / 10 == (n / 10) % 10);
        assert((n % 100) % 10 == n % 10);
    }
}

/// The cell of a point is a cell of the grid: its last digit group is in
/// range, so that it is among the children of its parent.
pub proof fn lemma_new_group_in_range(point: Coordinates, mesh_type: JPMeshType)
    requires
        in_domain(point),
    ensures
        JPMeshCode::spec_new(point, mesh_type).spec_group_in_range(),
{
    let cell = JPMeshCode::spec_new(point, mesh_type);
    lemma_new_is_cell(point, mesh_type);
    match mesh_type.spec_calc_type() {
        JPMeshCalcType::To125m => {
            to_125m::lemma_cell_digits_ranges(point, mesh_type);
        },
        JPMeshCalcType::To5km => {
            to_5km::lemma_cell_digits_ranges(point, mesh_type);
        },
        JPMeshCalcType::To2km => {},
    }
    lemma_group_in_range_by_digits(cell);
}

/// The numeric code of a cell has as many digits more than that of its
/// parent as the level's digit group is wide.
pub proof fn lemma_group_width(mesh_type: JPMeshType)
    requires
        mesh_type.spec_coarser() is Some,
    ensures
        mesh_type.spec_code_length() > mesh_type.spec_coarser()->0.spec_code_length(),
        pow10(
            (mesh_type.spec_code_length() - mesh_type.spec_coarser()->0.spec_code_length()) as nat,
        ) == mesh_type.spec_group_divisor(),
        mesh_type.spec_coarser()->0.spec_finer() == Some(mesh_type),
{
    lemma_pow10_values();
}

} // verus!
