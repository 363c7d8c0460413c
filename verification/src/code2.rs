//! Code numbers of eleven digits whose last three positions, the quadrant
//! digits, take the default fill.
//!
//! A number is raw before the fill and formatted after it; a slice holds the
//! digits of a number, most significant first.

use crate::calcs::to_125m::lemma_mask_selects_quadrants;
use crate::code11;
use crate::digits::{
    all_decimal, digits_of, encode_masked, encode_tail, fill_masked, fill_tail, left_align,
    lemma_digits_of_decimal, lemma_digits_of_number_of, lemma_digits_of_zero,
    lemma_encode_masked_digits, lemma_fill_tail_decimal, lemma_number_of_bound,
    lemma_number_of_take, lemma_pow10_monotonic, lemma_pow10_values, number_of, pow10,
    truncated_digits,
};
use crate::error::{width_error, CodeError};
use vstd::prelude::*;

verus! {

/// A formatted code number of eleven digits.
#[derive(Debug, Clone, Copy, PartialEq, Eq)]
pub struct Code2(u64);

impl View for Code2 {
    type V = nat;

    closed spec fn view(&self) -> nat {
        self.0 as nat
    }
}

impl Code2 {
    /// The code number that `new` builds from a digit sequence.
    pub open spec fn spec_new(array: Seq<u8>, code_length: nat) -> nat {
        encode_tail(crate::digits::truncate_number(number_of(array), 11, code_length), 11, 3)
    }

    /// The code number that `from_number` builds from a number.
    pub open spec fn spec_from_number(number: nat, code_length: nat) -> nat {
        Self::spec_new(digits_of(left_align(number, 11), 11), code_length)
    }

    /// The code number has eleven digits at most, and none of its quadrant
    /// digits is zero.
    pub open spec fn formatted(self) -> bool {
        &&& self@ < pow10(11)
        &&& digits_of(self@, 11)[8] != 0
        &&& digits_of(self@, 11)[9] != 0
        &&& digits_of(self@, 11)[10] != 0
    }

    /// Builds a code number from eleven digits of which the first
    /// `code_length` count: the rest is cut off, the number is aligned again
    /// and formatted.
    pub fn new(array: [u8; 11], code_length: usize) -> (r: Self)
        requires
            code_length <= 11,
            all_decimal(array@),
        ensures
            r@ == Self::spec_new(array@, code_length as nat),
            r.formatted(),
            array@[0] != 0 ==> digits_of(r@, 11) == fill_masked(
                truncated_digits(array@, code_length as nat),
                7,
            ),
    {
        proof {
            lemma_number_of_bound(array@);
            lemma_pow10_values();
            lemma_number_of_take(array@, code_length as nat);
            let head = array@.take(code_length as int);
            assert(all_decimal(head)) by {
                assert forall|j: int| 0 <= j < head.len() implies #[trigger] head[j] <= 9 by {
                    assert(head[j] == array@[j]);
                }
            }
            lemma_number_of_bound(head);
            lemma_pow10_monotonic(code_length as nat, 11);
            lemma_format_number(number_of(head));
            if array@[0] != 0 && code_length >= 1 {
                lemma_encode_masked_digits(array@, code_length as nat, 7);
            }
            if code_length == 0 {
                // Nothing is kept: the number is zero, spelled as all zeros.
                let zeros = digits_of(0, 11);
                lemma_digits_of_zero(11);
                assert(zeros =~= truncated_digits(array@, 0));
                lemma_tail_is_mask(zeros);
            }
        }
        let number = raw_slice_to_number(array);
        Code2(code11::encode_in_range::<3>(truncate_number(number, code_length)))
    }

    /// Builds a code number from a number of up to eleven digits, of which
    /// the first `code_length` digits count.
    pub fn from_number(number: u64, code_length: usize) -> (r: Result<Self, CodeError>)
        requires
            code_length <= 11,
        ensures
            match r {
                Ok(code) => {
                    &&& width_error(number as nat, 11) is None
                    &&& code@ == Self::spec_from_number(number as nat, code_length as nat)
                    &&& code.formatted()
                },
                Err(e) => width_error(number as nat, 11) == Some(e),
            },
    {
        match number_to_raw_slice(number) {
            Ok(slice) => {
                proof {
                    lemma_digits_of_decimal(left_align(number as nat, 11), 11);
                }
                Ok(Self::new(slice, code_length))
            },
            Err(e) => Err(e),
        }
    }

    /// The digits of the code number.
    pub fn to_slice(&self) -> (r: [u8; 11])
        ensures
            r@ == digits_of(self@, 11),
    {
        code11::code_number_to_code_array(self.0)
    }

    /// The numeric code of a level with `code_length` digits.
    pub fn to_number(&self, code_length: usize) -> (r: u64)
        requires
            code_length <= 11,
        ensures
            r == crate::digits::truncate_number(self@, 11, code_length as nat),
    {
        truncate_number(self.0, code_length)
    }
}

/// Aligns a number to eleven digits and splits it into them. Only a number
/// of more than eleven digits is refused.
///
/// `678954` becomes `[6, 7, 8, 9, 5, 4, 0, 0, 0, 0, 0]`, and `0` becomes
/// eleven zeros.
pub fn number_to_raw_slice(number: u64) -> (r: Result<[u8; 11], CodeError>)
    ensures
        match r {
            Ok(slice) => {
                &&& width_error(number as nat, 11) is None
                &&& slice@ == digits_of(left_align(number as nat, 11), 11)
            },
            Err(e) => width_error(number as nat, 11) == Some(e),
        },
{
    code11::short_number_to_raw_array(number)
}

/// Joins the digits of a raw slice into its number.
///
/// `[6, 7, 8, 9, 5, 4, 0, 0, 0, 0, 0]` becomes `67895400000`.
pub fn raw_slice_to_number(code_2: [u8; 11]) -> (r: u64)
    ensures
        r == number_of(code_2@),
{
    code11::raw_array_to_large_number(code_2)
}

/// Formats a slice: a `0` at one of the last three positions becomes `1`.
///
/// `[6, 7, 8, 9, 5, 4, 0, 0, 0, 0, 0]` becomes
/// `[6, 7, 8, 9, 5, 4, 0, 0, 1, 1, 1]`.
pub fn raw_slice_to_formatted_slice(code_2: [u8; 11]) -> (r: [u8; 11])
    ensures
        r@ == fill_tail(code_2@, 3),
        r@ == fill_masked(code_2@, 7),
        fill_tail(r@, 3) == r@,
{
    proof {
        lemma_tail_is_mask(code_2@);
    }
    code11::raw_array_to_code_array::<3>(code_2)
}

/// Joins the digits of a formatted slice into its number.
///
/// `[6, 7, 8, 9, 5, 4, 0, 0, 1, 1, 1]` becomes `67895400111`.
pub fn formatted_slice_to_formatted_number(code_2: [u8; 11]) -> (r: u64)
    ensures
        r == number_of(code_2@),
{
    code11::code_array_to_code_number(code_2)
}

/// Formats a number: aligns it to eleven digits and formats its digits.
///
/// `678954` becomes `67895400111`.
pub fn format_number(number: u64) -> (r: Result<u64, CodeError>)
    ensures
        match r {
            Ok(formatted) => {
                &&& width_error(number as nat, 11) is None
                &&& formatted == encode_tail(number as nat, 11, 3)
            },
            Err(e) => width_error(number as nat, 11) == Some(e),
        },
{
    code11::encode::<3>(number)
}

/// Cuts a number of eleven digits down to its first `code_length` digits.
///
/// `67895432124` becomes `6789` for a length of 4 and `6789543212` for a
/// length of 10.
pub fn truncate_number(number: u64, code_length: usize) -> (r: u64)
    requires
        code_length <= 11,
    ensures
        r == crate::digits::truncate_number(number as nat, 11, code_length as nat),
{
    code11::truncate(number, code_length)
}

/// Cuts a number down to `code_length` digits and formats what is left.
///
/// `67895432124` becomes `67890000111` for a length of 4 and `67895432121`
/// for a length of 10.
pub fn truncate_and_format_number(number: u64, code_length: usize) -> (r: Result<u64, CodeError>)
    requires
        code_length <= 11,
    ensures
        match r {
            Ok(formatted) => {
                &&& width_error(
                    crate::digits::truncate_number(number as nat, 11, code_length as nat),
                    11,
                ) is None
                &&& formatted == encode_tail(
                    crate::digits::truncate_number(number as nat, 11, code_length as nat),
                    11,
                    3,
                )
            },
            Err(e) => width_error(
                crate::digits::truncate_number(number as nat, 11, code_length as nat),
                11,
            ) == Some(e),
        },
{
    format_number(truncate_number(number, code_length))
}

/// Filling the last three of eleven positions is filling by the mask `7`.
pub proof fn lemma_tail_is_mask(s: Seq<u8>)
    requires
        s.len() == 11,
    ensures
        fill_tail(s, 3) == fill_masked(s, 7),
{
    assert forall|i: int| 0 <= i < 11 implies fill_tail(s, 3)[i] == fill_masked(s, 7)[i] by {
        lemma_mask_selects_quadrants(i);
    }
    assert(fill_tail(s, 3) =~= fill_masked(s, 7));
}

/// A formatted number has eleven digits at most, its quadrant digits are
/// not zero, and it is what the mask `7` gives.
pub proof fn lemma_format_number(number: nat)
    ensures
        encode_tail(number, 11, 3) == encode_masked(number, 11, 7),
        encode_tail(number, 11, 3) < pow10(11),
        digits_of(encode_tail(number, 11, 3), 11) == fill_tail(
            digits_of(left_align(number, 11), 11),
            3,
        ),
        digits_of(encode_tail(number, 11, 3), 11)[8] != 0,
        digits_of(encode_tail(number, 11, 3), 11)[9] != 0,
        digits_of(encode_tail(number, 11, 3), 11)[10] != 0,
{
    let raw = digits_of(left_align(number, 11), 11);
    lemma_tail_is_mask(raw);
    lemma_digits_of_decimal(left_align(number, 11), 11);
    lemma_fill_tail_decimal(raw, 3);
    let filled = fill_tail(raw, 3);
    lemma_number_of_bound(filled);
    lemma_digits_of_number_of(filled);
}

} // verus!
