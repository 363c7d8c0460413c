//! Mesh codes: the cells of the grid, each known by its level and digits.

use crate::calcs::to_125m::CodeTo125m;
use crate::calcs::to_2km::CodeTo2km;
use crate::calcs::to_5km::CodeTo5km;
use crate::calcs::{lemma_cell_in_domain, spec_cell_rect, to_125m, to_2km, to_5km, JPMeshCalcType};
use crate::digits::{
    digits_of, fill_masked, left_align, lemma_number_of_digits_of_small, lemma_pow10_values,
    number_of, pow10, truncate_number, truncated_digits,
};
use crate::error::{code_error, CodeError};
use crate::geom::{Coordinates, Rect};
use crate::mesh_type::{in_domain, JPMeshType, LAT_MAX, LAT_MIN, LNG_MAX, LNG_MIN};
use vstd::arithmetic::div_mod::{
    lemma_div_decreases, lemma_fundamental_div_mod, lemma_fundamental_div_mod_converse,
    lemma_mod_bound,
};
use vstd::prelude::*;

verus! {

/// A cell of the grid: a level, and the cell's code number in the layout of
/// the level's family.
#[allow(inconsistent_fields)]
#[derive(Debug, Clone, Copy, PartialEq, Eq)]
pub enum JPMeshCode {
    /// A cell of the 1 km, 500 m, 250 m or 125 m level.
    To125m { code: CodeTo125m, mesh_type: JPMeshType },
    /// A cell of the 2 km level.
    To2km { code: CodeTo2km, mesh_type: JPMeshType },
    /// A cell of the 80 km, 10 km or 5 km level.
    To5km { code: CodeTo5km, mesh_type: JPMeshType },
}

/// The same cells under their shorter name.
pub type JPMesh = JPMeshCode;

impl JPMeshCode {
    /// The level of the cell.
    pub open spec fn spec_mesh_type(&self) -> JPMeshType {
        match self {
            JPMeshCode::To125m { mesh_type, .. } => *mesh_type,
            JPMeshCode::To2km { mesh_type, .. } => *mesh_type,
            JPMeshCode::To5km { mesh_type, .. } => *mesh_type,
        }
    }

    /// The family whose layout the code number has.
    pub open spec fn family(&self) -> JPMeshCalcType {
        match self {
            JPMeshCode::To125m { .. } => JPMeshCalcType::To125m,
            JPMeshCode::To2km { .. } => JPMeshCalcType::To2km,
            JPMeshCode::To5km { .. } => JPMeshCalcType::To5km,
        }
    }

    /// The value of the code number.
    pub open spec fn code_number(&self) -> nat {
        match self {
            JPMeshCode::To125m { code, .. } => code@,
            JPMeshCode::To2km { code, .. } => code@,
            JPMeshCode::To5km { code, .. } => code@,
        }
    }

    /// All the digits of the code number, those after the level's own
    /// included.
    pub open spec fn digits(&self) -> Seq<u8> {
        digits_of(self.code_number(), self.family().spec_code_width() as nat)
    }

    /// The cell is one that the constructors build: the code number has the
    /// layout of the level's family and is canonical for the level.
    pub open spec fn wf(&self) -> bool {
        &&& self.family() == self.spec_mesh_type().spec_calc_type()
        &&& match self {
            JPMeshCode::To125m { code, mesh_type } => code.canonical(
                mesh_type.spec_code_length() as nat,
            ),
            JPMeshCode::To2km { code, mesh_type } => code.canonical(
                mesh_type.spec_code_length() as nat,
            ),
            JPMeshCode::To5km { code, mesh_type } => code.canonical(
                mesh_type.spec_code_length() as nat,
            ),
        }
    }

    /// The cell of a level with a given code number.
    pub open spec fn with_code_number(value: nat, mesh_type: JPMeshType) -> Self {
        match mesh_type.spec_calc_type() {
            JPMeshCalcType::To125m => JPMeshCode::To125m {
                code: CodeTo125m::with_value(value),
                mesh_type,
            },
            JPMeshCalcType::To2km => JPMeshCode::To2km {
                code: CodeTo2km::with_value(value),
                mesh_type,
            },
            JPMeshCalcType::To5km => JPMeshCode::To5km {
                code: CodeTo5km::with_value(value),
                mesh_type,
            },
        }
    }

    /// The digits of the cell of a level that holds a point.
    pub open spec fn spec_cell_digits(coords: Coordinates, mesh_type: JPMeshType) -> Seq<u8> {
        match mesh_type.spec_calc_type() {
            JPMeshCalcType::To125m => to_125m::spec_cell_digits(coords, mesh_type),
            JPMeshCalcType::To2km => to_2km::spec_raw_digits(coords),
            JPMeshCalcType::To5km => to_5km::spec_cell_digits(coords, mesh_type),
        }
    }

    /// The cell of a level that holds a point.
    pub open spec fn spec_new(coords: Coordinates, mesh_type: JPMeshType) -> Self {
        Self::with_code_number(number_of(Self::spec_cell_digits(coords, mesh_type)), mesh_type)
    }

    /// The digits of the cell of a level that a numeric code names: the
    /// code's digits from the left edge as far as the level goes, and every
    /// later position at its default.
    pub open spec fn spec_number_digits(mesh_code: nat, mesh_type: JPMeshType) -> Seq<u8> {
        let family = mesh_type.spec_calc_type();
        let width = family.spec_code_width() as nat;
        fill_masked(
            truncated_digits(
                digits_of(left_align(mesh_code, width), width),
                mesh_type.spec_code_length() as nat,
            ),
            family.spec_fill_mask(),
        )
    }

    /// The cell of a level that a numeric code names.
    pub open spec fn spec_from_number(mesh_code: nat, mesh_type: JPMeshType) -> Self {
        Self::with_code_number(number_of(Self::spec_number_digits(mesh_code, mesh_type)), mesh_type)
    }

    /// The numeric code of the cell: its first digits, as many as the level
    /// has.
    pub open spec fn spec_to_number(&self) -> nat {
        truncate_number(
            self.code_number(),
            self.family().spec_code_width() as nat,
            self.spec_mesh_type().spec_code_length() as nat,
        )
    }

    /// The rectangle that the cell covers.
    pub open spec fn spec_to_bounds(&self) -> Rect {
        match self {
            JPMeshCode::To125m { code, mesh_type } => code.spec_to_bounds(*mesh_type),
            JPMeshCode::To2km { code, mesh_type } => code.spec_to_bounds(*mesh_type),
            JPMeshCode::To5km { code, mesh_type } => code.spec_to_bounds(*mesh_type),
        }
    }

    /// Tells whether the cell is well formed. Every cell that this library
    /// hands out is; one put together by hand may not be.
    pub fn is_well_formed(&self) -> (r: bool)
        ensures
            r == self.wf(),
    {
        match self {
            Self::To125m { code, mesh_type } => mesh_type.calc_type() == JPMeshCalcType::To125m
                && code.is_canonical(mesh_type.code_length()),
            Self::To2km { code, mesh_type } => mesh_type.calc_type() == JPMeshCalcType::To2km
                && code.is_canonical(mesh_type.code_length()),
            Self::To5km { code, mesh_type } => mesh_type.calc_type() == JPMeshCalcType::To5km
                && code.is_canonical(mesh_type.code_length()),
        }
    }

    /// The cell of a level that holds a point of the covered region.
    pub fn new(coords: Coordinates, mesh_type: JPMeshType) -> (r: Self)
        requires
            in_domain(coords),
        ensures
            r == Self::spec_new(coords, mesh_type),
            r.wf(),
            r.spec_mesh_type() == mesh_type,
            r.digits() == Self::spec_cell_digits(coords, mesh_type),
            r.spec_to_bounds() == spec_cell_rect(coords, mesh_type),
            r.spec_to_bounds().spec_includes(coords),
    {
        proof {
            lemma_new_is_cell(coords, mesh_type);
        }
        match mesh_type {
            JPMeshType::Mesh1km
            | JPMeshType::Mesh500m
            | JPMeshType::Mesh250m
            | JPMeshType::Mesh125m => {
                let code = CodeTo125m::from_coordinates(coords, mesh_type);
                proof {
                    lemma_number_of_digits_of_small(code@, 11);
                    code.lemma_with_value_of_view();
                }
                JPMeshCode::To125m { code, mesh_type }
            },
            JPMeshType::Mesh2km => {
                let code = CodeTo2km::from_coordinates(coords, mesh_type);
                proof {
                    lemma_number_of_digits_of_small(code@, 9);
                    code.lemma_with_value_of_view();
                }
                JPMeshCode::To2km { code, mesh_type }
            },
            JPMeshType::Mesh80km | JPMeshType::Mesh10km | JPMeshType::Mesh5km => {
                let code = CodeTo5km::from_coordinates(coords, mesh_type);
                proof {
                    lemma_number_of_digits_of_small(code@, 7);
                    code.lemma_with_value_of_view();
                }
                JPMeshCode::To5km { code, mesh_type }
            },
        }
    }

    /// The cell of a level that a numeric code names. A code shorter than
    /// the level's codes is read from the left edge; of a longer one the
    /// digits after the level's are dropped. The code is refused when it has
    /// more digits than the layout of the level's family, and when it is
    /// zero: the first digit of a cell's code is never zero, so zero names
    /// no cell.
    pub fn from_number(mesh_code: u64, mesh_type: JPMeshType) -> (r: Result<Self, CodeError>)
        ensures
            match r {
                Ok(code) => {
                    &&& code_error(
                        mesh_code as nat,
                        mesh_type.spec_calc_type().spec_code_width() as nat,
                    ) is None
                    &&& code == Self::spec_from_number(mesh_code as nat, mesh_type)
                    &&& code.wf()
                    &&& code.spec_mesh_type() == mesh_type
                    &&& code.digits() == Self::spec_number_digits(mesh_code as nat, mesh_type)
                },
                Err(e) => code_error(
                    mesh_code as nat,
                    mesh_type.spec_calc_type().spec_code_width() as nat,
                ) == Some(e),
            },
    {
        match mesh_type {
            JPMeshType::Mesh1km
            | JPMeshType::Mesh500m
            | JPMeshType::Mesh250m
            | JPMeshType::Mesh125m => {
                match CodeTo125m::from_number(mesh_code, mesh_type.code_length()) {
                    Ok(code) => {
                        proof {
                            lemma_number_of_digits_of_small(code@, 11);
                            code.lemma_with_value_of_view();
                        }
                        Ok(JPMeshCode::To125m { code, mesh_type })
                    },
                    Err(e) => Err(e),
                }
            },
            JPMeshType::Mesh2km => {
                match CodeTo2km::from_number(mesh_code, mesh_type.code_length()) {
                    Ok(code) => {
                        proof {
                            lemma_number_of_digits_of_small(code@, 9);
                            code.lemma_with_value_of_view();
                        }
                        Ok(JPMeshCode::To2km { code, mesh_type })
                    },
                    Err(e) => Err(e),
                }
            },
            JPMeshType::Mesh80km | JPMeshType::Mesh10km | JPMeshType::Mesh5km => {
                match CodeTo5km::from_number(mesh_code, mesh_type.code_length()) {
                    Ok(code) => {
                        proof {
                            lemma_number_of_digits_of_small(code@, 7);
                            code.lemma_with_value_of_view();
                        }
                        Ok(JPMeshCode::To5km { code, mesh_type })
                    },
                    Err(e) => Err(e),
                }
            },
        }
    }

    /// The rectangle that the cell covers. It is exactly as wide and as high
    /// as the cells of the level are.
    pub fn to_bounds(&self) -> (r: Rect)
        requires
            self.wf(),
        ensures
            r == self.spec_to_bounds(),
            r.max_coord.lng - r.min_coord.lng == self.spec_mesh_type().spec_lng_interval(),
            r.max_coord.lat - r.min_coord.lat == self.spec_mesh_type().spec_lat_interval(),
    {
        match self {
            Self::To125m { code, mesh_type } => code.to_bounds(*mesh_type),
            Self::To2km { code, mesh_type } => code.to_bounds(*mesh_type),
            Self::To5km { code, mesh_type } => code.to_bounds(*mesh_type),
        }
    }

    /// Whether a point lies in the cell.
    pub fn is_inside(&self, coords: Coordinates) -> (r: bool)
        requires
            self.wf(),
        ensures
            r == self.spec_to_bounds().spec_includes(coords),
    {
        let bounds = self.to_bounds();
        let min = bounds.min();
        let max = bounds.max();

        coords.lat >= min.lat && coords.lat < max.lat && coords.lng >= min.lng && coords.lng
            < max.lng
    }

    /// The numeric code of the cell.
    pub fn to_number(self) -> (r: u64)
        requires
            self.wf(),
        ensures
            r == self.spec_to_number(),
    {
        match self {
            Self::To125m { code, mesh_type } => code.to_number(mesh_type.code_length()),
            Self::To2km { code, mesh_type } => code.to_number(mesh_type.code_length()),
            Self::To5km { code, mesh_type } => code.to_number(mesh_type.code_length()),
        }
    }

    /// The level of the cell.
    pub fn mesh_type(&self) -> (r: JPMeshType)
        ensures
            r == self.spec_mesh_type(),
    {
        match self {
            Self::To125m { mesh_type, .. } => *mesh_type,
            Self::To2km { mesh_type, .. } => *mesh_type,
            Self::To5km { mesh_type, .. } => *mesh_type,
        }
    }

    /// The cell of the next coarser level that holds this cell, if the
    /// level has a coarser one: the cell named by this cell's numeric code
    /// without its last digit group.
    pub open spec fn spec_parent(&self) -> Option<Self> {
        match self.spec_mesh_type().spec_coarser() {
            None => None,
            Some(level) => Some(
                Self::spec_from_number(
                    self.spec_to_number() / self.spec_mesh_type().spec_group_divisor() as nat,
                    level,
                ),
            ),
        }
    }

    /// The numeric code of the child with a given index among the cells of
    /// a level: the parent's numeric code followed by the child's digit
    /// group.
    pub open spec fn spec_child_number(&self, level: JPMeshType, index: int) -> nat {
        (self.spec_to_number() * level.spec_group_divisor() + level.spec_group_suffix(
            index as usize,
        )) as nat
    }

    /// The cells of the next finer level that this cell holds, in the order
    /// of their numeric codes; none if the level has no finer one.
    pub open spec fn spec_children(&self) -> Seq<Self> {
        match self.spec_mesh_type().spec_finer() {
            None => Seq::empty(),
            Some(level) => Seq::new(
                level.spec_sibling_count() as nat,
                |index: int| Self::spec_from_number(self.spec_child_number(level, index), level),
            ),
        }
    }

    /// The digit group that the cell's level adds to the numeric code of
    /// the parent.
    pub open spec fn spec_group(&self) -> nat {
        self.spec_to_number() % (self.spec_mesh_type().spec_group_divisor() as nat)
    }

    /// Whether the cell's last digit group names a cell of the grid: a row
    /// and a column below 8 at the 10 km level, a quadrant from 1 to 4 at
    /// the 500 m, 250 m and 125 m levels. The other levels take every
    /// group.
    pub open spec fn spec_group_in_range(&self) -> bool {
        let group = self.spec_group();
        match self.spec_mesh_type() {
            JPMeshType::Mesh10km => group / 10 < 8 && group % 10 < 8,
            JPMeshType::Mesh500m => 1 <= group <= 4,
            JPMeshType::Mesh250m => 1 <= group <= 4,
            JPMeshType::Mesh125m => 1 <= group <= 4,
            _ => true,
        }
    }

    /// The place of the cell among the children of its parent.
    pub open spec fn spec_index_in_parent(&self) -> int {
        let group = self.spec_group() as int;
        match self.spec_mesh_type() {
            JPMeshType::Mesh10km => (group / 10) * 8 + group % 10,
            JPMeshType::Mesh1km => group,
            _ => group - 1,
        }
    }

    /// The cell of the next coarser level that holds this cell. There is
    /// none for an 80 km cell, nor for the 5 km and 2 km cells, which stand
    /// beside the hierarchy.
    pub fn parent(&self) -> (r: Option<Self>)
        requires
            self.wf(),
        ensures
            r == self.spec_parent(),
            r is Some <==> self.spec_mesh_type().spec_coarser() is Some,
            r matches Some(cell) ==> cell.wf() && Some(cell.spec_mesh_type())
                == self.spec_mesh_type().spec_coarser(),
    {
        let mesh_type = self.mesh_type();
        match mesh_type.coarser() {
            None => None,
            Some(level) => {
                proof {
                    self.lemma_parent_number_width();
                }
                Self::from_number(self.to_number() / mesh_type.group_divisor(), level).ok()
            },
        }
    }

    /// The cells of the next finer level that this cell holds: 64 for an
    /// 80 km cell, 100 for a 10 km cell, 4 for a 1 km, 500 m or 250 m cell,
    /// and none for the others.
    pub fn children(&self) -> (r: Vec<Self>)
        requires
            self.wf(),
        ensures
            r@ == self.spec_children(),
            forall|i: int|
                0 <= i < r@.len() ==> (#[trigger] r@[i]).wf() && Some(r@[i].spec_mesh_type())
                    == self.spec_mesh_type().spec_finer(),
    {
        let mut cells: Vec<Self> = Vec::new();
        match self.mesh_type().finer() {
            None => {
                assert(cells@ =~= self.spec_children());
            },
            Some(level) => {
                let number: u64 = self.to_number();
                let divisor: u64 = level.group_divisor();
                let count: usize = level.sibling_count();
                let ghost all = self.spec_children();
                proof {
                    self.lemma_number_width();
                    lemma_pow10_values();
                    assert(all.take(0) =~= Seq::<Self>::empty());
                    assert forall|i: int| 0 <= i < count implies code_error(
                        #[trigger] self.spec_child_number(level, i),
                        level.spec_calc_type().spec_code_width() as nat,
                    ) is None by {
                        self.lemma_child_number_width(i);
                    }
                }
                let mut index: usize = 0;
                while index < count
                    invariant
                        self.wf(),
                        self.spec_mesh_type().spec_finer() == Some(level),
                        number == self.spec_to_number(),
                        divisor == level.spec_group_divisor(),
                        count == level.spec_sibling_count(),
                        all == self.spec_children(),
                        all.len() == count,
                        0 < number < 10_000_000_000,
                        forall|i: int|
                            0 <= i < count ==> code_error(
                                #[trigger] self.spec_child_number(level, i),
                                level.spec_calc_type().spec_code_width() as nat,
                            ) is None,
                        index <= count,
                        cells@ == all.take(index as int),
                        forall|i: int|
                            0 <= i < cells@.len() ==> (#[trigger] cells@[i]).wf()
                                && cells@[i].spec_mesh_type() == level,
                    decreases count - index,
                {
                    let child_number: u64 = number * divisor + level.group_suffix(index);
                    assert(child_number == self.spec_child_number(level, index as int));
                    if let Ok(child) = Self::from_number(child_number, level) {
                        cells.push(child);
                    }
                    proof {
                        assert(all.take(index as int).push(all[index as int]) =~= all.take(
                            index + 1,
                        ));
                    }
                    index = index + 1;
                }
                assert(all.take(count as int) =~= all);
            },
        }
        cells
    }

    /// The numeric code of a well-formed cell has exactly as many digits as
    /// the level has.
    pub proof fn lemma_number_width(&self)
        requires
            self.wf(),
        ensures
            pow10((self.spec_mesh_type().spec_code_length() - 1) as nat) <= self.spec_to_number()
                < pow10(self.spec_mesh_type().spec_code_length() as nat),
            self.spec_to_number() == number_of(
                self.digits().take(self.spec_mesh_type().spec_code_length() as int),
            ),
            self.digits()[0] != 0,
    {
        let k = self.spec_mesh_type().spec_code_length() as nat;
        match self {
            JPMeshCode::To125m { code, .. } => {
                code.lemma_canonical_width(k);
            },
            JPMeshCode::To2km { code, .. } => {
                code.lemma_canonical_width(k);
            },
            JPMeshCode::To5km { code, .. } => {
                code.lemma_canonical_width(k);
            },
        }
    }

    /// The numeric code of a cell without its last digit group has exactly
    /// as many digits as the next coarser level.
    pub proof fn lemma_parent_number_width(&self)
        requires
            self.wf(),
            self.spec_mesh_type().spec_coarser() is Some,
        ensures
            ({
                let level = self.spec_mesh_type().spec_coarser()->0;
                let number = self.spec_to_number()
                    / self.spec_mesh_type().spec_group_divisor() as nat;
                &&& pow10((level.spec_code_length() - 1) as nat) <= number < pow10(
                    level.spec_code_length() as nat,
                )
                &&& code_error(number, level.spec_calc_type().spec_code_width() as nat) is None
                &&& truncate_number(
                    self.spec_to_number(),
                    self.spec_mesh_type().spec_code_length() as nat,
                    level.spec_code_length() as nat,
                ) == number
            }),
    {
        self.lemma_number_width();
        lemma_pow10_values();
        let n = self.spec_to_number();
        match self.spec_mesh_type() {
            JPMeshType::Mesh10km => {
                assert(100_000 <= n < 1_000_000);
            },
            JPMeshType::Mesh1km => {
                assert(10_000_000 <= n < 100_000_000);
            },
            JPMeshType::Mesh500m => {
                assert(100_000_000 <= n < 1_000_000_000);
            },
            JPMeshType::Mesh250m => {
                assert(1_000_000_000 <= n < 10_000_000_000);
            },
            JPMeshType::Mesh125m => {
                assert(10_000_000_000 <= n < 100_000_000_000);
            },
            _ => {},
        }
    }

    /// The numeric code of a cell followed by the digit group of one of its
    /// children has exactly as many digits as the next finer level.
    pub proof fn lemma_child_number_width(&self, index: int)
        requires
            self.wf(),
            self.spec_mesh_type().spec_finer() is Some,
            0 <= index < self.spec_mesh_type().spec_finer()->0.spec_sibling_count(),
        ensures
            ({
                let level = self.spec_mesh_type().spec_finer()->0;
                let number = self.spec_child_number(level, index);
                &&& pow10((level.spec_code_length() - 1) as nat) <= number < pow10(
                    level.spec_code_length() as nat,
                )
                &&& code_error(number, level.spec_calc_type().spec_code_width() as nat) is None
                &&& truncate_number(
                    number,
                    level.spec_code_length() as nat,
                    self.spec_mesh_type().spec_code_length() as nat,
                ) == self.spec_to_number()
                &&& number % (level.spec_group_divisor() as nat) == level.spec_group_suffix(
                    index as usize,
                )
                &&& number / (level.spec_group_divisor() as nat) == self.spec_to_number()
            }),
    {
        self.lemma_number_width();
        lemma_pow10_values();
        let n = self.spec_to_number();
        let level = self.spec_mesh_type().spec_finer()->0;
        let suffix = level.spec_group_suffix(index as usize);
        let number = self.spec_child_number(level, index);
        match self.spec_mesh_type() {
            JPMeshType::Mesh80km => {
                assert(1_000 <= n < 10_000);
                assert(suffix == (index / 8) * 10 + index % 8);
                assert(number == n * 100 + suffix);
            },
            JPMeshType::Mesh10km => {
                assert(100_000 <= n < 1_000_000);
                assert(suffix == index);
                assert(number == n * 100 + suffix);
            },
            JPMeshType::Mesh1km => {
                assert(10_000_000 <= n < 100_000_000);
                assert(suffix == index + 1);
                assert(number == n * 10 + suffix);
            },
            JPMeshType::Mesh500m => {
                assert(100_000_000 <= n < 1_000_000_000);
                assert(suffix == index + 1);
                assert(number == n * 10 + suffix);
            },
            JPMeshType::Mesh250m => {
                assert(1_000_000_000 <= n < 10_000_000_000);
                assert(suffix == index + 1);
                assert(number == n * 10 + suffix);
            },
            _ => {},
        }
    }

    /// The number of rows of the lattice that covers a rectangle: one more
    /// than the cell heights it takes to span the rectangle.
    pub open spec fn spec_rows(bounds: Rect, mesh_type: JPMeshType) -> int {
        spec_steps(
            bounds.max_coord.lat - bounds.min_coord.lat,
            mesh_type.spec_lat_interval() as int,
        ) + 1
    }

    /// The number of columns of the lattice that covers a rectangle: one
    /// more than the cell widths it takes to span the rectangle.
    pub open spec fn spec_columns(bounds: Rect, mesh_type: JPMeshType) -> int {
        spec_steps(
            bounds.max_coord.lng - bounds.min_coord.lng,
            mesh_type.spec_lng_interval() as int,
        ) + 1
    }

    /// The first point of the lattice: the center of the cell that holds
    /// the rectangle's minimum corner.
    pub open spec fn spec_lattice_start(bounds: Rect, mesh_type: JPMeshType) -> Coordinates {
        spec_cell_rect(bounds.min_coord, mesh_type).spec_center()
    }

    /// The point of the lattice in a given row and column: so many cell
    /// heights north and cell widths east of the first point.
    pub open spec fn spec_lattice_point(
        bounds: Rect,
        mesh_type: JPMeshType,
        row: int,
        column: int,
    ) -> Coordinates {
        let start = Self::spec_lattice_start(bounds, mesh_type);
        Coordinates {
            lng: (start.lng + column * mesh_type.spec_lng_interval()) as i64,
            lat: (start.lat + row * mesh_type.spec_lat_interval()) as i64,
        }
    }

    /// Whether the lattice that covers a rectangle stays in the covered
    /// region: the rectangle's minimum corner lies in it, and so does the
    /// last point of the lattice.
    pub open spec fn spec_lattice_fits(bounds: Rect, mesh_type: JPMeshType) -> bool {
        let start = Self::spec_lattice_start(bounds, mesh_type);
        &&& in_domain(bounds.min_coord)
        &&& start.lat + (Self::spec_rows(bounds, mesh_type) - 1) * mesh_type.spec_lat_interval()
            < LAT_MAX
        &&& start.lng + (Self::spec_columns(bounds, mesh_type) - 1)
            * mesh_type.spec_lng_interval() < LNG_MAX
    }

    /// The cells of a level that cover a rectangle, row by row from the
    /// south, each row from the west: the cells that hold the points of the
    /// lattice.
    pub open spec fn spec_from_on_bounds(bounds: Rect, mesh_type: JPMeshType) -> Seq<Self> {
        let columns = Self::spec_columns(bounds, mesh_type);
        Seq::new(
            (Self::spec_rows(bounds, mesh_type) * columns) as nat,
            |k: int|
                Self::spec_new(
                    Self::spec_lattice_point(bounds, mesh_type, k / columns, k % columns),
                    mesh_type,
                ),
        )
    }

    /// Whether the lattice that covers a rectangle stays in the covered
    /// region, which is what `from_on_bounds` asks of its arguments.
    pub fn lattice_fits(bounds: Rect, mesh_type: JPMeshType) -> (r: bool)
        ensures
            r == Self::spec_lattice_fits(bounds, mesh_type),
    {
        let min = bounds.min();
        let max = bounds.max();
        if !in_domain(min) {
            return false;
        }
        let lat_len: i64 = steps(min.lat, max.lat, mesh_type.lat_interval());
        let lng_len: i64 = steps(min.lng, max.lng, mesh_type.lng_interval());
        let start = JPMeshCode::new(min, mesh_type).to_bounds().center();
        proof {
            lemma_cell_in_domain(min, mesh_type);
            lemma_steps_fit(
                lat_len as int,
                mesh_type.spec_lat_interval() as int,
                LAT_MAX - 1 - start.lat,
            );
            lemma_steps_fit(
                lng_len as int,
                mesh_type.spec_lng_interval() as int,
                LNG_MAX - 1 - start.lng,
            );
        }
        lat_len <= (LAT_MAX - 1 - start.lat) / mesh_type.lat_interval() && lng_len <= (LNG_MAX - 1
            - start.lng) / mesh_type.lng_interval()
    }

    /// The cells of a level that cover a rectangle, row by row from the
    /// south, each row from the west. There is one row more than the cell
    /// heights that span the rectangle and one column more than the cell
    /// widths, so a rectangle without extent still yields one cell. Two
    /// entries may be the same cell; none is left out for that.
    pub fn from_on_bounds(bounds: Rect, mesh_type: JPMeshType) -> (mesh_bins: Vec<Self>)
        requires
            Self::spec_lattice_fits(bounds, mesh_type),
        ensures
            mesh_bins@ == Self::spec_from_on_bounds(bounds, mesh_type),
            mesh_bins@.len() == Self::spec_rows(bounds, mesh_type) * Self::spec_columns(
                bounds,
                mesh_type,
            ),
    {
        let mut mesh_bins: Vec<Self> = Vec::new();
        let min = bounds.min();
        let max = bounds.max();
        let lat_interval: i64 = mesh_type.lat_interval();
        let lng_interval: i64 = mesh_type.lng_interval();
        let lat_len: i64 = steps(min.lat, max.lat, lat_interval);
        let lng_len: i64 = steps(min.lng, max.lng, lng_interval);

        let start = JPMeshCode::new(min, mesh_type).to_bounds().center();

        let ghost rows: int = Self::spec_rows(bounds, mesh_type);
        let ghost columns: int = Self::spec_columns(bounds, mesh_type);
        let ghost all = Self::spec_from_on_bounds(bounds, mesh_type);
        proof {
            lemma_cell_in_domain(min, mesh_type);
            assert(rows * columns >= 0) by (nonlinear_arith)
                requires
                    rows >= 1,
                    columns >= 1,
            ;
            assert(0 * columns == 0);
            assert(all.take(0) =~= Seq::<Self>::empty());
        }

        let mut i: i64 = 0;
        while i <= lat_len
            invariant
                Self::spec_lattice_fits(bounds, mesh_type),
                rows == Self::spec_rows(bounds, mesh_type),
                columns == Self::spec_columns(bounds, mesh_type),
                all == Self::spec_from_on_bounds(bounds, mesh_type),
                all.len() == rows * columns,
                start == Self::spec_lattice_start(bounds, mesh_type),
                lat_interval == mesh_type.spec_lat_interval(),
                lng_interval == mesh_type.spec_lng_interval(),
                lat_len == rows - 1,
                lng_len == columns - 1,
                0 <= lng_len,
                LAT_MIN <= start.lat,
                LNG_MIN <= start.lng,
                0 <= i <= lat_len + 1,
                mesh_bins@ == all.take(i * columns),
            decreases lat_len + 1 - i,
        {
            let mut j: i64 = 0;
            while j <= lng_len
                invariant
                    Self::spec_lattice_fits(bounds, mesh_type),
                    rows == Self::spec_rows(bounds, mesh_type),
                    columns == Self::spec_columns(bounds, mesh_type),
                    all == Self::spec_from_on_bounds(bounds, mesh_type),
                    all.len() == rows * columns,
                    start == Self::spec_lattice_start(bounds, mesh_type),
                    lat_interval == mesh_type.spec_lat_interval(),
                    lng_interval == mesh_type.spec_lng_interval(),
                    lat_len == rows - 1,
                    lng_len == columns - 1,
                    LAT_MIN <= start.lat,
                    LNG_MIN <= start.lng,
                    0 <= i <= lat_len,
                    0 <= j <= lng_len + 1,
                    mesh_bins@ == all.take(i * columns + j),
                decreases lng_len + 1 - j,
            {
                proof {
                    lemma_lattice_step(j as int, lng_len as int, lng_interval as int);
                    lemma_lattice_step(i as int, lat_len as int, lat_interval as int);
                    lemma_lattice_index(i as int, j as int, rows, columns);
                }
                let coords = Coordinates::new(
                    start.lng + j * lng_interval,
                    start.lat + i * lat_interval,
                );
                mesh_bins.push(JPMeshCode::new(coords, mesh_type));
                proof {
                    let k = i * columns + j;
                    assert(coords == Self::spec_lattice_point(
                        bounds,
                        mesh_type,
                        k / columns,
                        k % columns,
                    ));
                    assert(all.take(k).push(all[k]) =~= all.take(k + 1));
                }
                j = j + 1;
            }
            proof {
                assert(i * columns + columns == (i + 1) * columns) by (nonlinear_arith);
            }
            i = i + 1;
        }
        proof {
            assert(all.take(rows * columns) =~= all);
        }
        mesh_bins
    }
}

/// The number of steps of a given width that it takes to span a length:
/// the length divided by the width, rounded up, and none for a length that
/// is not positive.
pub open spec fn spec_steps(span: int, width: int) -> int {
    if span <= 0 {
        0
    } else if span % width == 0 {
        span / width
    } else {
        span / width + 1
    }
}

/// Counts the steps of a given width that it takes to go from `low` to
/// `high`.
pub fn steps(low: i64, high: i64, width: i64) -> (r: i64)
    requires
        0 <= low,
        0 < width,
    ensures
        r == spec_steps(high - low, width as int),
        0 <= r,
{
    if high <= low {
        0
    } else {
        let span: i64 = high - low;
        if span % width == 0 {
            span / width
        } else {
            proof {
                // A width that leaves a remainder is at least two.
                lemma_div_decreases(span as int, width as int);
            }
            span / width + 1
        }
    }
}

/// So many steps fit in a room exactly when their number is at most the
/// room divided by the step.
pub proof fn lemma_steps_fit(count: int, step: int, room: int)
    requires
        0 < step,
        0 <= room,
    ensures
        count * step <= room <==> count <= room / step,
{
    let q = room / step;
    lemma_fundamental_div_mod(room, step);
    lemma_mod_bound(room, step);
    if count <= q {
        assert(count * step <= q * step) by (nonlinear_arith)
            requires
                count <= q,
                0 < step,
        ;
        assert(q * step == step * q) by (nonlinear_arith);
    } else {
        assert(count * step >= (q + 1) * step) by (nonlinear_arith)
            requires
                count >= q + 1,
                0 < step,
        ;
        assert((q + 1) * step == step * q + step) by (nonlinear_arith);
    }
}

/// A step of the lattice is no further from its start than the last step.
pub proof fn lemma_lattice_step(index: int, last: int, step: int)
    requires
        0 <= index <= last,
        0 < step,
    ensures
        0 <= index * step <= last * step,
{
    assert(0 <= index * step <= last * step) by (nonlinear_arith)
        requires
            0 <= index <= last,
            0 < step,
    ;
}

/// The place of a lattice point in the row-major sequence, and back.
pub proof fn lemma_lattice_index(row: int, column: int, rows: int, columns: int)
    requires
        0 <= row < rows,
        0 <= column < columns,
    ensures
        0 <= row * columns + column < rows * columns,
        (row * columns + column) / columns == row,
        (row * columns + column) % columns == column,
{
    lemma_fundamental_div_mod_converse(row * columns + column, columns, row, column);
    assert(0 <= row * columns) by (nonlinear_arith)
        requires
            0 <= row,
            0 < columns,
    ;
    assert(row * columns + columns <= rows * columns) by (nonlinear_arith)
        requires
            row + 1 <= rows,
            0 < columns,
    ;
}

/// What `new` builds, stated without running it: a well-formed cell of the
/// level whose digits are the point's cell digits and whose rectangle is
/// the cell of the level that holds the point.
pub proof fn lemma_new_is_cell(coords: Coordinates, mesh_type: JPMeshType)
    requires
        in_domain(coords),
    ensures
        JPMeshCode::spec_new(coords, mesh_type).wf(),
        JPMeshCode::spec_new(coords, mesh_type).spec_mesh_type() == mesh_type,
        JPMeshCode::spec_new(coords, mesh_type).digits() == JPMeshCode::spec_cell_digits(
            coords,
            mesh_type,
        ),
        JPMeshCode::spec_new(coords, mesh_type).spec_to_bounds() == spec_cell_rect(
            coords,
            mesh_type,
        ),
{
    let k = mesh_type.spec_code_length() as nat;
    match mesh_type.spec_calc_type() {
        JPMeshCalcType::To125m => {
            to_125m::lemma_raw_digits_values(coords);
            CodeTo125m::lemma_canonical_of_digits(to_125m::spec_raw_digits(coords), k);
            to_125m::lemma_cell_corner(coords, mesh_type);
        },
        JPMeshCalcType::To2km => {
            let raw = to_2km::spec_raw_digits(coords);
            to_2km::lemma_raw_digits_values(coords);
            CodeTo2km::lemma_canonical_of_digits(raw, 9);
            assert(fill_masked(truncated_digits(raw, 9), 0) =~= raw) by {
                assert forall|i: int| 0 <= i < 9 implies fill_masked(truncated_digits(raw, 9), 0)[i]
                    == raw[i] by {
                    to_2km::lemma_mask_selects_nothing(i);
                }
            }
            to_2km::lemma_cell_corner(coords);
        },
        JPMeshCalcType::To5km => {
            to_5km::lemma_raw_digits_values(coords);
            CodeTo5km::lemma_canonical_of_digits(to_5km::spec_raw_digits(coords), k);
            to_5km::lemma_cell_corner(coords, mesh_type);
        },
    }
    lemma_cell_in_domain(coords, mesh_type);
}

} // verus!
