//! The code number of a mesh: `D` decimal digits held in one integer.
//!
//! The vocabulary of this module:
//!
//! - short number: a numeric code as it is written, with as many digits as
//!   its level has (`678954`);
//! - large number: a short number aligned to `D` digits (`67895400000`);
//! - code number: a large number whose positions selected by the mask `E`
//!   hold `1` wherever they held `0` (`67895400111` for `D = 11`, `E = 7`);
//! - raw array, code array: the digits of a large number and of a code
//!   number, most significant first.
//!
//! To encode is to turn a short number into a code number; to truncate is to
//! cut a large number or a code number down to a short number.

use crate::digits::{
    all_decimal, digit_at, digits_of, encode_masked, fill_masked, left_align,
    lemma_digits_of_decimal, lemma_digits_of_number_of, lemma_digits_of_zero,
    lemma_encode_masked_digits, lemma_fill_masked_decimal, lemma_fill_masked_idempotent,
    lemma_first_digit_nonzero, lemma_left_align_bounds, lemma_left_align_shift,
    lemma_number_of_bound, lemma_number_of_digits_of_small, lemma_number_of_lower_bound,
    lemma_number_of_prefix_le, lemma_number_of_take, lemma_pow10_adds, lemma_pow10_fits,
    lemma_pow10_monotonic, lemma_pow10_positive, mask_selects, number_of, pow10, power_of_ten,
    truncate_number, truncated_digits,
};
use crate::error::{code_error, width_error, CodeError};
use vstd::arithmetic::div_mod::{lemma_div_denominator, lemma_div_multiples_vanish};
use vstd::prelude::*;

verus! {

/// A code number of `D` digits whose default fill is given by the mask `E`.
#[derive(Debug, Clone, Copy, PartialEq, Eq)]
pub struct CodeNum<const D: usize, const E: u8>(u64);

impl<const D: usize, const E: u8> View for CodeNum<D, E> {
    type V = nat;

    closed spec fn view(&self) -> nat {
        self.0 as nat
    }
}

impl<const D: usize, const E: u8> Default for CodeNum<D, E> {
    fn default() -> (r: Self)
        ensures
            r@ == 0,
    {
        CodeNum(0)
    }
}

impl<const D: usize, const E: u8> CodeNum<D, E> {
    /// The code number that `new` builds from a digit sequence.
    pub open spec fn spec_new(array: Seq<u8>, code_length: nat) -> nat {
        encode_masked(truncate_number(number_of(array), D as nat, code_length), D as nat, E)
    }

    /// The code number that `from_number` builds from a short number.
    pub open spec fn spec_from_number(short_number: nat, code_length: nat) -> nat {
        Self::spec_new(digits_of(left_align(short_number, D as nat), D as nat), code_length)
    }

    /// The code number with the given value.
    pub closed spec fn with_value(value: nat) -> Self {
        CodeNum(value as u64)
    }

    /// The code number stands for a cell of a level with `code_length`
    /// digits: it has full width, every position after the level's digits
    /// holds its default, and no selected position holds `0`.
    pub open spec fn canonical(self, code_length: nat) -> bool {
        &&& 1 <= code_length <= D
        &&& pow10((D - 1) as nat) <= self@ < pow10(D as nat)
        &&& digits_of(self@, D as nat) == fill_masked(
            truncated_digits(digits_of(self@, D as nat), code_length),
            E,
        )
    }

    /// Builds a code number from `D` digits of which the first `code_length`
    /// count: the rest is cut off, the number is aligned again and filled.
    /// The result is canonical unless every digit that counts is zero.
    pub fn new(array: [u8; D], code_length: usize) -> (r: Self)
        requires
            1 <= D <= 19,
            code_length <= D,
            all_decimal(array@),
        ensures
            r@ == Self::spec_new(array@, code_length as nat),
            number_of(array@.take(code_length as int)) > 0 ==> r.canonical(code_length as nat),
            array@[0] != 0 ==> digits_of(r@, D as nat) == fill_masked(
                truncated_digits(array@, code_length as nat),
                E,
            ),
    {
        proof {
            if array@[0] != 0 && code_length >= 1 {
                lemma_encode_masked_digits(array@, code_length as nat, E);
            }
            if code_length == 0 {
                // Nothing is kept: the number is zero, spelled as all zeros.
                let zeros = digits_of(0, D as nat);
                lemma_digits_of_zero(D as nat);
                assert(zeros =~= truncated_digits(array@, 0));
                lemma_fill_masked_decimal(zeros, E);
                lemma_digits_of_number_of(fill_masked(zeros, E));
            }
            lemma_number_of_bound(array@);
            lemma_pow10_fits(D as nat);
            lemma_number_of_take(array@, code_length as nat);
            lemma_number_of_prefix_le(array@, code_length as nat);
            let head = array@.take(code_length as int);
            assert(all_decimal(head)) by {
                assert forall|j: int| 0 <= j < head.len() implies #[trigger] head[j] <= 9 by {
                    assert(head[j] == array@[j]);
                }
            }
            lemma_number_of_bound(head);
        }
        let large_number = raw_array_to_large_number::<D, E>(array);
        let short_number = truncate::<D>(large_number, code_length);
        let code_number = encode_in_range::<D, E>(short_number);
        proof {
            if short_number > 0 {
                lemma_canonical_after_encode::<D, E>(short_number as nat, code_length as nat);
            }
        }
        CodeNum(code_number)
    }

    /// Builds a code number from a short number of any width up to `D`, of
    /// which the first `code_length` digits count. Zero is refused here,
    /// though the digit functions below spell it as all zeros: a code number
    /// is canonical only with a first digit that is not zero, and zero has
    /// none to put there.
    pub fn from_number(short_number: u64, code_length: usize) -> (r: Result<Self, CodeError>)
        requires
            1 <= D <= 19,
            1 <= code_length <= D,
        ensures
            match r {
                Ok(code) => {
                    &&& code_error(short_number as nat, D as nat) is None
                    &&& code@ == Self::spec_from_number(short_number as nat, code_length as nat)
                    &&& code.canonical(code_length as nat)
                    &&& digits_of(code@, D as nat) == fill_masked(
                        truncated_digits(
                            digits_of(left_align(short_number as nat, D as nat), D as nat),
                            code_length as nat,
                        ),
                        E,
                    )
                },
                Err(e) => code_error(short_number as nat, D as nat) == Some(e),
            },
    {
        if short_number == 0 {
            return Err(CodeError::Empty);
        }
        match short_number_to_raw_array::<D, E>(short_number) {
            Ok(raw_array) => {
                proof {
                    let aligned: nat = left_align(short_number as nat, D as nat);
                    lemma_left_align_bounds(short_number as nat, D as nat);
                    lemma_first_digit_nonzero(aligned, D as nat);
                    lemma_digits_of_decimal(aligned, D as nat);
                    lemma_encode_masked_digits(raw_array@, code_length as nat, E);
                    lemma_pow10_positive((code_length - 1) as nat);
                }
                Ok(Self::new(raw_array, code_length))
            },
            Err(e) => Err(e),
        }
    }

    /// Tells whether the code number is canonical for a level with
    /// `code_length` digits.
    pub fn is_canonical(self, code_length: usize) -> (r: bool)
        requires
            1 <= D <= 19,
        ensures
            r == self.canonical(code_length as nat),
    {
        if code_length < 1 || code_length > D {
            return false;
        }
        if self.0 < power_of_ten(D - 1) || self.0 >= power_of_ten(D) {
            return false;
        }
        let code_array = self.to_array();
        let mut raw_array = code_array;
        let mut i: usize = code_length;
        while i < D
            invariant
                code_length <= i <= D,
                forall|j: int|
                    0 <= j < D ==> raw_array[j] == (if code_length <= j < i {
                        0u8
                    } else {
                        code_array[j]
                    }),
            decreases D - i,
        {
            raw_array[i] = 0;
            i = i + 1;
        }
        assert(raw_array@ =~= truncated_digits(code_array@, code_length as nat));
        let filled = raw_array_to_code_array::<D, E>(raw_array);
        let mut same = true;
        let mut k: usize = 0;
        while k < D
            invariant
                k <= D,
                same == (forall|j: int| 0 <= j < k ==> filled[j] == code_array[j]),
            decreases D - k,
        {
            if filled[k] != code_array[k] {
                same = false;
            }
            k = k + 1;
        }
        proof {
            if same {
                assert(filled@ =~= code_array@);
            }
        }
        same
    }

    /// The digits of the code number.
    pub fn to_array(self) -> (r: [u8; D])
        ensures
            r@ == digits_of(self@, D as nat),
    {
        code_number_to_code_array::<D, E>(self.0)
    }

    /// The short number of a level with `code_length` digits.
    pub fn to_number(self, code_length: usize) -> (r: u64)
        requires
            code_length <= D,
            D - code_length <= 19,
        ensures
            r == truncate_number(self@, D as nat, code_length as nat),
    {
        truncate::<D>(self.0, code_length)
    }

    /// A code number is the code number with its own value.
    pub proof fn lemma_with_value_of_view(self)
        ensures
            Self::with_value(self@) == self,
    {
    }

    /// The code number spelled by the first `keep` of `D` digits, zeros after
    /// them and the default fill on top is the one that `new` builds, and it
    /// is canonical.
    pub proof fn lemma_canonical_of_digits(array: Seq<u8>, keep: nat)
        requires
            all_decimal(array),
            array.len() == D,
            array[0] != 0,
            1 <= keep <= D <= 19,
        ensures
            ({
                let value = number_of(fill_masked(truncated_digits(array, keep), E));
                &&& value <= u64::MAX
                &&& value == Self::spec_new(array, keep)
                &&& Self::with_value(value)@ == value
                &&& Self::with_value(value).canonical(keep)
                &&& digits_of(value, D as nat) == fill_masked(truncated_digits(array, keep), E)
            }),
    {
        let len: nat = D as nat;
        let short: nat = number_of(array.take(keep as int));
        lemma_number_of_take(array, keep);
        lemma_encode_masked_digits(array, keep, E);
        lemma_pow10_positive((keep - 1) as nat);
        lemma_canonical_after_encode::<D, E>(short, keep);
        let built: nat = Self::spec_new(array, keep);
        lemma_number_of_digits_of_small(built, len);
    }

    /// The digits of the code number that `from_number` builds from a short
    /// number of exactly `code_length` digits: those digits, then zeros, and
    /// the default fill on top. Where the fill finds no zero to replace among
    /// the short number's own digits, the code number has that short number.
    pub proof fn lemma_from_full_width_number(short_number: nat, code_length: nat)
        requires
            1 <= code_length <= D <= 19,
            pow10((code_length - 1) as nat) <= short_number < pow10(code_length),
        ensures
            code_error(short_number, D as nat) is None,
            Self::with_value(Self::spec_from_number(short_number, code_length)).canonical(
                code_length,
            ),
            Self::with_value(Self::spec_from_number(short_number, code_length))@
                == Self::spec_from_number(short_number, code_length),
            forall|i: int|
                0 <= i < D ==> #[trigger] digits_of(
                    Self::spec_from_number(short_number, code_length),
                    D as nat,
                )[i] == (if i < code_length {
                    if mask_selects(E, D as nat, i) && digit_at(short_number, code_length, i)
                        == 0 {
                        1u8
                    } else {
                        digit_at(short_number, code_length, i)
                    }
                } else if mask_selects(E, D as nat, i) {
                    1u8
                } else {
                    0u8
                }),
            (forall|i: int|
                0 <= i < code_length && mask_selects(E, D as nat, i) ==> #[trigger] digit_at(
                    short_number,
                    code_length,
                    i,
                ) != 0) ==> truncate_number(
                Self::spec_from_number(short_number, code_length),
                D as nat,
                code_length,
            ) == short_number,
    {
        let len: nat = D as nat;
        let own = digits_of(short_number, code_length);
        let array = Seq::new(len, |i: int| if i < code_length { own[i] } else { 0u8 });
        lemma_pow10_positive((code_length - 1) as nat);
        lemma_pow10_monotonic(code_length, len);
        lemma_first_digit_nonzero(short_number, code_length);
        lemma_number_of_digits_of_small(short_number, code_length);
        assert(array.take(code_length as int) =~= own);
        assert(all_decimal(array));
        lemma_encode_masked_digits(array, code_length, E);
        assert(truncated_digits(array, code_length) =~= array);
        // The aligned short number spells `array`, so `from_number` builds
        // what `new` builds from `array`.
        let aligned = digits_of(left_align(short_number, len), len);
        assert(aligned == array);
        Self::lemma_canonical_of_digits(array, code_length);
        let value: nat = Self::spec_from_number(short_number, code_length);
        let filled = fill_masked(array, E);
        assert(digits_of(value, len) == filled);
        if forall|i: int|
            0 <= i < code_length && mask_selects(E, D as nat, i) ==> #[trigger] digit_at(
                short_number,
                code_length,
                i,
            ) != 0 {
            lemma_fill_masked_decimal(array, E);
            lemma_number_of_take(filled, code_length);
            lemma_number_of_digits_of_small(value, len);
            assert(filled.take(code_length as int) =~= own) by {
                assert forall|i: int| 0 <= i < code_length implies filled.take(
                    code_length as int,
                )[i] == own[i] by {
                    assert(own[i] == digit_at(short_number, code_length, i));
                }
            }
        }
    }

    /// The first digit of a canonical code number is not zero, and its
    /// short number has exactly `code_length` digits.
    pub proof fn lemma_canonical_width(self, code_length: nat)
        requires
            self.canonical(code_length),
        ensures
            digits_of(self@, D as nat)[0] != 0,
            truncate_number(self@, D as nat, code_length) == number_of(
                digits_of(self@, D as nat).take(code_length as int),
            ),
            pow10((code_length - 1) as nat) <= truncate_number(self@, D as nat, code_length)
                < pow10(code_length),
    {
        let s = digits_of(self@, D as nat);
        lemma_first_digit_nonzero(self@, D as nat);
        lemma_digits_of_decimal(self@, D as nat);
        lemma_number_of_digits_of_small(self@, D as nat);
        lemma_number_of_take(s, code_length);
        lemma_encode_masked_digits(s, code_length, E);
    }

    /// Reading the short number of a canonical code number and building a
    /// code number from it again gives the same code number.
    pub proof fn lemma_from_number_of_to_number(self, code_length: nat)
        requires
            self.canonical(code_length),
            D <= 19,
        ensures
            code_error(truncate_number(self@, D as nat, code_length), D as nat) is None,
            Self::spec_from_number(truncate_number(self@, D as nat, code_length), code_length)
                == self@,
    {
        let len: nat = D as nat;
        let s = digits_of(self@, len);
        let short: nat = truncate_number(self@, len, code_length);
        self.lemma_canonical_width(code_length);
        lemma_digits_of_decimal(self@, len);
        lemma_encode_masked_digits(s, code_length, E);
        lemma_pow10_monotonic(code_length, len);
        lemma_pow10_positive((code_length - 1) as nat);
        // The short number aligned to `len` digits spells the kept digits
        // followed by zeros.
        let aligned: nat = left_align(short, len);
        let cut = truncated_digits(s, code_length);
        assert(digits_of(aligned, len) == cut);
        assert(cut[0] == s[0]);
        assert(all_decimal(cut)) by {
            assert forall|j: int| 0 <= j < cut.len() implies #[trigger] cut[j] <= 9 by {
                assert(s[j] <= 9);
            }
        }
        lemma_number_of_take(cut, code_length);
        assert(cut.take(code_length as int) =~= s.take(code_length as int));
        lemma_encode_masked_digits(cut, code_length, E);
        assert(truncated_digits(cut, code_length) =~= cut);
        let again: nat = Self::spec_from_number(short, code_length);
        assert(digits_of(again, len) == fill_masked(cut, E));
        lemma_number_of_digits_of_small(again, len);
        lemma_number_of_digits_of_small(self@, len);
    }
}

/// Aligns a short number to `D` digits and splits it into them. Only a
/// number of more than `D` digits is refused.
///
/// When `D` is 11, `678954` becomes `[6, 7, 8, 9, 5, 4, 0, 0, 0, 0, 0]` and
/// `0` becomes eleven zeros.
pub fn short_number_to_raw_array<const D: usize, const E: u8>(short_number: u64) -> (r: Result<
    [u8; D],
    CodeError,
>)
    requires
        1 <= D <= 19,
    ensures
        match r {
            Ok(raw_array) => {
                &&& width_error(short_number as nat, D as nat) is None
                &&& raw_array@ == digits_of(left_align(short_number as nat, D as nat), D as nat)
            },
            Err(e) => width_error(short_number as nat, D as nat) == Some(e),
        },
{
    match check_width::<D>(short_number) {
        Ok(()) => Ok(code_number_to_code_array::<D, E>(align::<D>(short_number))),
        Err(e) => Err(e),
    }
}

/// Splits a code number into its lowest `D` digits.
///
/// `67895400000` becomes `[6, 7, 8, 9, 5, 4, 0, 0, 0, 0, 0]` when `D` is 11.
pub fn code_number_to_code_array<const D: usize, const E: u8>(code_number: u64) -> (r: [u8; D])
    ensures
        r@ == digits_of(code_number as nat, D as nat),
{
    let mut code_array = [0u8;D];
    let mut number = code_number;
    let mut i: usize = D;
    proof {
        assert(pow10(0) == 1);
        assert(code_number as nat / 1 == code_number);
    }
    while i > 0
        invariant
            i <= D,
            number == code_number as nat / pow10((D - i) as nat),
            forall|j: int|
                i <= j < D ==> code_array[j] == digit_at(code_number as nat, D as nat, j),
        decreases i,
    {
        i = i - 1;
        proof {
            let e: nat = (D - 1 - i) as nat;
            lemma_pow10_positive(e);
            assert(pow10(e + 1) == 10 * pow10(e));
            lemma_div_denominator(code_number as int, pow10(e) as int, 10);
            assert(pow10(e) * 10 == 10 * pow10(e));
        }
        code_array[i] = (number % 10) as u8;
        number = number / 10;
    }
    assert(code_array@ =~= digits_of(code_number as nat, D as nat));
    code_array
}

/// Joins the digits of a raw array into its large number.
///
/// `[6, 7, 8, 9, 5, 4, 0, 0, 0, 0, 0]` becomes `67895400000`.
pub fn raw_array_to_large_number<const D: usize, const E: u8>(raw_array: [u8; D]) -> (r: u64)
    requires
        number_of(raw_array@) <= u64::MAX,
    ensures
        r == number_of(raw_array@),
{
    code_array_to_code_number::<D>(raw_array)
}

/// Applies the default fill: a position that the mask `E` selects and that
/// holds `0` gets `1`.
///
/// With `D = 11`, `[6, 7, 8, 9, 5, 4, 0, 0, 0, 0, 0]` becomes
/// `[6, 7, 8, 9, 5, 4, 0, 0, 1, 1, 1]` for `E = 7` and
/// `[6, 7, 8, 9, 5, 4, 0, 0, 1, 0, 1]` for `E = 5`.
pub fn raw_array_to_code_array<const D: usize, const E: u8>(raw_array: [u8; D]) -> (r: [u8; D])
    ensures
        r@ == fill_masked(raw_array@, E),
        fill_masked(r@, E) == r@,
{
    proof {
        lemma_fill_masked_idempotent(raw_array@, E);
    }
    let mut code_array = raw_array;
    let mut bit: u8 = 0;
    while bit < 8
        invariant
            bit <= 8,
            forall|i: int|
                0 <= i < D ==> code_array[i] == (if D - 1 - i < bit && mask_selects(E, D as nat, i)
                    && raw_array[i] == 0 {
                    1u8
                } else {
                    raw_array[i]
                }),
        decreases 8 - bit,
    {
        if (bit as usize) < D && (E >> bit) & 1 == 1 {
            let index: usize = D - 1 - bit as usize;
            if code_array[index] == 0 {
                code_array[index] = 1;
            }
        }
        bit = bit + 1;
    }
    assert(code_array@ =~= fill_masked(raw_array@, E));
    code_array
}

/// Joins the digits of a code array into its code number.
///
/// `[6, 7, 8, 9, 5, 4, 0, 0, 1, 1, 1]` becomes `67895400111`.
pub fn code_array_to_code_number<const D: usize>(code_array: [u8; D]) -> (r: u64)
    requires
        number_of(code_array@) <= u64::MAX,
    ensures
        r == number_of(code_array@),
{
    let mut number: u64 = 0;
    let mut i: usize = 0;
    proof {
        assert(code_array@.take(D as int) =~= code_array@);
    }
    while i < D
        invariant
            i <= D,
            number == number_of(code_array@.take(i as int)),
            number_of(code_array@) <= u64::MAX,
        decreases D - i,
    {
        proof {
            let next = code_array@.take(i + 1);
            assert(next.drop_last() =~= code_array@.take(i as int));
            assert(next.last() == code_array[i as int]);
            lemma_number_of_prefix_le(code_array@, (i + 1) as nat);
        }
        number = number * 10 + code_array[i] as u64;
        i = i + 1;
    }
    number
}

/// Encodes a short number: aligns it to `D` digits and applies the default
/// fill. Only a number of more than `D` digits is refused.
///
/// When `D` is 11 and `E` is 5, `678954` becomes `67895400101` and `0`
/// becomes `101`.
pub fn encode<const D: usize, const E: u8>(short_number: u64) -> (r: Result<u64, CodeError>)
    requires
        1 <= D <= 19,
    ensures
        match r {
            Ok(code_number) => {
                &&& width_error(short_number as nat, D as nat) is None
                &&& code_number == encode_masked(short_number as nat, D as nat, E)
            },
            Err(e) => width_error(short_number as nat, D as nat) == Some(e),
        },
{
    match check_width::<D>(short_number) {
        Ok(()) => Ok(encode_in_range::<D, E>(short_number)),
        Err(e) => Err(e),
    }
}

/// Cuts a large number down to its first `code_length` digits.
///
/// With `D = 11`, `67895432124` becomes `6789` for a length of 4 and
/// `6789543212` for a length of 10.
pub fn truncate<const D: usize>(large_number: u64, code_length: usize) -> (r: u64)
    requires
        code_length <= D,
        D - code_length <= 19,
    ensures
        r == truncate_number(large_number as nat, D as nat, code_length as nat),
{
    proof {
        lemma_pow10_positive((D - code_length) as nat);
    }
    large_number / power_of_ten(D - code_length)
}

/// Cuts a large number down to `code_length` digits and encodes what is
/// left.
///
/// With `D = 11` and `E = 5`, `67895432124` becomes `67890000101` for a
/// length of 4 and `67895432121` for a length of 10.
pub fn truncate_and_encode<const D: usize, const E: u8>(
    large_number: u64,
    code_length: usize,
) -> (r: Result<u64, CodeError>)
    requires
        1 <= D <= 19,
        code_length <= D,
    ensures
        match r {
            Ok(code_number) => {
                &&& width_error(
                    truncate_number(large_number as nat, D as nat, code_length as nat),
                    D as nat,
                ) is None
                &&& code_number == encode_masked(
                    truncate_number(large_number as nat, D as nat, code_length as nat),
                    D as nat,
                    E,
                )
            },
            Err(e) => width_error(
                truncate_number(large_number as nat, D as nat, code_length as nat),
                D as nat,
            ) == Some(e),
        },
{
    encode::<D, E>(truncate::<D>(large_number, code_length))
}

/// Tells whether a short number has `D` digits at most.
fn check_width<const D: usize>(short_number: u64) -> (r: Result<(), CodeError>)
    requires
        1 <= D <= 19,
    ensures
        match r {
            Ok(_) => width_error(short_number as nat, D as nat) is None,
            Err(e) => width_error(short_number as nat, D as nat) == Some(e),
        },
{
    if short_number >= power_of_ten(D) {
        Err(CodeError::TooLong)
    } else {
        Ok(())
    }
}

/// Appends zeros to a short number until it has `D` digits. Zero has no
/// digit to move and stays zero.
pub(crate) fn align<const D: usize>(short_number: u64) -> (r: u64)
    requires
        1 <= D <= 19,
        short_number < pow10(D as nat),
    ensures
        r == left_align(short_number as nat, D as nat),
{
    if short_number == 0 {
        return 0;
    }
    let full: u64 = power_of_ten(D - 1);
    let mut number = short_number;
    while number < full
        invariant
            1 <= D <= 19,
            full == pow10((D - 1) as nat),
            0 < number < pow10(D as nat),
            left_align(number as nat, D as nat) == left_align(short_number as nat, D as nat),
        decreases
                (if number < full {
                    full - number
                } else {
                    0
                }),
    {
        proof {
            assert(pow10(D as nat) == 10 * pow10((D - 1) as nat));
            lemma_pow10_fits(D as nat);
        }
        number = number * 10;
    }
    number
}

/// Encodes a short number that is known to have `D` digits at most.
fn encode_in_range<const D: usize, const E: u8>(short_number: u64) -> (r: u64)
    requires
        1 <= D <= 19,
        short_number < pow10(D as nat),
    ensures
        r == encode_masked(short_number as nat, D as nat, E),
{
    let raw_array = code_number_to_code_array::<D, E>(align::<D>(short_number));
    let code_array = raw_array_to_code_array::<D, E>(raw_array);
    proof {
        lemma_fill_masked_decimal(raw_array@, E);
        lemma_number_of_bound(code_array@);
        lemma_pow10_fits(D as nat);
    }
    code_array_to_code_number::<D>(code_array)
}

/// Encoding a short number of at most `code_length` digits gives a code
/// number that is canonical for that length.
proof fn lemma_canonical_after_encode<const D: usize, const E: u8>(
    short_number: nat,
    code_length: nat,
)
    requires
        1 <= code_length <= D <= 19,
        0 < short_number < pow10(code_length),
    ensures
        encode_masked(short_number, D as nat, E) < pow10(D as nat) <= u64::MAX,
        CodeNum::<D, E>(encode_masked(short_number, D as nat, E) as u64).canonical(code_length),
{
    let len: nat = D as nat;
    lemma_pow10_fits(len);
    lemma_pow10_monotonic(code_length, len);
    let aligned: nat = left_align(short_number, len);
    lemma_left_align_bounds(short_number, len);
    let raw = digits_of(aligned, len);
    lemma_first_digit_nonzero(aligned, len);
    lemma_aligned_tail_is_zero(short_number, code_length, len);
    let filled = fill_masked(raw, E);
    lemma_fill_masked_decimal(raw, E);
    lemma_digits_of_number_of(filled);
    lemma_number_of_bound(filled);
    assert(filled[0] == raw[0]);
    lemma_number_of_lower_bound(filled);
    assert(fill_masked(truncated_digits(filled, code_length), E) =~= filled) by {
        assert forall|i: int| 0 <= i < len implies fill_masked(
            truncated_digits(filled, code_length),
            E,
        )[i] == filled[i] by {
            if i >= code_length {
                assert(digit_at(aligned, len, i) == 0);
            }
        }
    }
}

/// An aligned number has zeros wherever the short number had no digit.
pub proof fn lemma_aligned_tail_is_zero(short_number: nat, width: nat, len: nat)
    requires
        1 <= width <= len,
        0 < short_number < pow10(width),
    ensures
        forall|i: int|
            width <= i < len ==> #[trigger] digit_at(left_align(short_number, len), len, i) == 0,
    decreases width,
{
    if short_number >= pow10((width - 1) as nat) {
        // The short number has exactly `width` digits: aligning appends
        // `len - width` zeros.
        lemma_left_align_shift(short_number, width, len);
        let shift: nat = (len - width) as nat;
        let aligned: nat = short_number * pow10(shift);
        assert forall|i: int| width <= i < len implies #[trigger] digit_at(aligned, len, i)
            == 0 by {
            let e: nat = (len - 1 - i) as nat;
            let rest: nat = (shift - e - 1) as nat;
            lemma_pow10_adds(e, rest + 1);
            assert(pow10(rest + 1) == 10 * pow10(rest));
            lemma_pow10_positive(e);
            let m: nat = short_number * pow10(rest);
            let q: nat = 10 * m;
            assert(aligned == q * pow10(e)) by (nonlinear_arith)
                requires
                    aligned == short_number * pow10(shift),
                    pow10(shift) == pow10(e) * (10 * pow10(rest)),
                    m == short_number * pow10(rest),
                    q == 10 * m,
            ;
            lemma_div_multiples_vanish(q as int, pow10(e) as int);
            assert(aligned / pow10(e) == q);
            assert(q % 10 == 0);
        }
    } else {
        assert(pow10(0) == 1);
        lemma_aligned_tail_is_zero(short_number, (width - 1) as nat, len);
    }
}

} // verus!
