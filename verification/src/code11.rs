//! Code numbers of eleven digits whose last `D` positions take the default
//! fill.
//!
//! The vocabulary of this module:
//!
//! - short number: a numeric code as it is written (`678954`);
//! - large number: a short number aligned to eleven digits (`67895400000`);
//! - code number: a large number whose last `D` positions hold `1` wherever
//!   they held `0` (`67895400111` for `D = 3`);
//! - raw array, code array: the digits of a large number and of a code
//!   number, most significant first.

use crate::code_num;
use crate::digits::{
    all_decimal, digits_of, encode_tail, fill_tail, left_align, lemma_digits_of_decimal,
    lemma_fill_tail_decimal, lemma_fill_tail_idempotent, lemma_number_of_bound,
    lemma_number_of_take, lemma_pow10_values, number_of, pow10, truncate_number,
};
use crate::error::{width_error, CodeError};
use vstd::prelude::*;

verus! {

/// A code number of eleven digits whose last `D` positions take the default
/// fill.
#[derive(Debug, Clone, Copy, PartialEq, Eq)]
pub struct Code11<const D: usize>(u64);

impl<const D: usize> View for Code11<D> {
    type V = nat;

    closed spec fn view(&self) -> nat {
        self.0 as nat
    }
}

impl<const D: usize> Code11<D> {
    /// The code number that `new` builds from a digit sequence.
    pub open spec fn spec_new(array: Seq<u8>, code_length: nat) -> nat {
        encode_tail(truncate_number(number_of(array), 11, code_length), 11, D as nat)
    }

    /// The code number that `from_number` builds from a short number.
    pub open spec fn spec_from_number(short_number: nat, code_length: nat) -> nat {
        Self::spec_new(digits_of(left_align(short_number, 11), 11), code_length)
    }

    /// Builds a code number from eleven digits of which the first
    /// `code_length` count: the rest is cut off, the number is aligned again
    /// and filled.
    pub fn new(array: [u8; 11], code_length: usize) -> (r: Self)
        requires
            D <= 11,
            code_length <= 11,
            all_decimal(array@),
        ensures
            r@ == Self::spec_new(array@, code_length as nat),
            r@ < pow10(11),
    {
        proof {
            lemma_number_of_bound(array@);
            lemma_pow10_values();
            lemma_number_of_take(array@, code_length as nat);
            let head = array@.take(code_length as int);
            assert(all_decimal(head)) by {
                assert forall|j: int| 0 <= j < head.len() implies #[trigger] head[j] <= 9 by {
                    assert(head[j] == array@[j]);
                }
            }
            lemma_number_of_bound(head);
            crate::digits::lemma_pow10_monotonic(code_length as nat, 11);
        }
        let large_number = raw_array_to_large_number(array);
        let short_number = truncate(large_number, code_length);
        Code11(encode_in_range::<D>(short_number))
    }

    /// Builds a code number from a short number of up to eleven digits, of
    /// which the first `code_length` digits count.
    pub fn from_number(short_number: u64, code_length: usize) -> (r: Result<Self, CodeError>)
        requires
            D <= 11,
            code_length <= 11,
        ensures
            match r {
                Ok(code) => {
                    &&& width_error(short_number as nat, 11) is None
                    &&& code@ == Self::spec_from_number(short_number as nat, code_length as nat)
                    &&& code@ < pow10(11)
                },
                Err(e) => width_error(short_number as nat, 11) == Some(e),
            },
    {
        match short_number_to_raw_array(short_number) {
            Ok(raw_array) => {
                proof {
                    lemma_digits_of_decimal(left_align(short_number as nat, 11), 11);
                }
                Ok(Self::new(raw_array, code_length))
            },
            Err(e) => Err(e),
        }
    }

    /// The digits of the code number.
    pub fn to_array(self) -> (r: [u8; 11])
        ensures
            r@ == digits_of(self@, 11),
    {
        code_number_to_code_array(self.0)
    }

    /// The short number of a level with `code_length` digits.
    pub fn to_number(self, code_length: usize) -> (r: u64)
        requires
            code_length <= 11,
        ensures
            r == truncate_number(self@, 11, code_length as nat),
    {
        truncate(self.0, code_length)
    }
}

/// Aligns a short number to eleven digits and splits it into them. Only a
/// number of more than eleven digits is refused.
///
/// `678954` becomes `[6, 7, 8, 9, 5, 4, 0, 0, 0, 0, 0]`, and `0` becomes
/// eleven zeros.
pub fn short_number_to_raw_array(short_number: u64) -> (r: Result<[u8; 11], CodeError>)
    ensures
        match r {
            Ok(raw_array) => {
                &&& width_error(short_number as nat, 11) is None
                &&& raw_array@ == digits_of(left_align(short_number as nat, 11), 11)
            },
            Err(e) => width_error(short_number as nat, 11) == Some(e),
        },
{
    code_num::short_number_to_raw_array::<11, 0>(short_number)
}

/// Splits a code number into its lowest eleven digits.
///
/// `67895400000` becomes `[6, 7, 8, 9, 5, 4, 0, 0, 0, 0, 0]`.
pub fn code_number_to_code_array(code_number: u64) -> (r: [u8; 11])
    ensures
        r@ == digits_of(code_number as nat, 11),
{
    code_num::code_number_to_code_array::<11, 0>(code_number)
}

/// Joins the digits of a raw array into its large number.
///
/// `[6, 7, 8, 9, 5, 4, 0, 0, 0, 0, 0]` becomes `67895400000`.
pub fn raw_array_to_large_number(raw_array: [u8; 11]) -> (r: u64)
    ensures
        r == number_of(raw_array@),
{
    proof {
        lemma_number_of_eleven_fits(raw_array@);
    }
    code_num::code_array_to_code_number::<11>(raw_array)
}

/// Applies the default fill to the last `D` positions: a `0` there becomes
/// `1`.
///
/// `[6, 7, 8, 9, 5, 4, 0, 0, 0, 0, 0]` becomes
/// `[6, 7, 8, 9, 5, 4, 0, 0, 1, 1, 1]` when `D` is 3.
pub fn raw_array_to_code_array<const D: usize>(raw_array: [u8; 11]) -> (r: [u8; 11])
    requires
        D <= 11,
    ensures
        r@ == fill_tail(raw_array@, D as nat),
        fill_tail(r@, D as nat) == r@,
{
    proof {
        lemma_fill_tail_idempotent(raw_array@, D as nat);
    }
    let mut code_array = raw_array;
    let mut i: usize = 11 - D;
    while i < 11
        invariant
            D <= 11,
            11 - D <= i <= 11,
            forall|j: int|
                0 <= j < 11 ==> code_array[j] == (if 11 - D <= j < i && raw_array[j] == 0 {
                    1u8
                } else {
                    raw_array[j]
                }),
        decreases 11 - i,
    {
        if code_array[i] == 0 {
            code_array[i] = 1;
        }
        i = i + 1;
    }
    assert(code_array@ =~= fill_tail(raw_array@, D as nat));
    code_array
}

/// Joins the digits of a code array into its code number.
///
/// `[6, 7, 8, 9, 5, 4, 0, 0, 1, 1, 1]` becomes `67895400111`.
pub fn code_array_to_code_number(code_array: [u8; 11]) -> (r: u64)
    ensures
        r == number_of(code_array@),
{
    proof {
        lemma_number_of_eleven_fits(code_array@);
    }
    code_num::code_array_to_code_number::<11>(code_array)
}

/// Encodes a short number: aligns it to eleven digits and fills the last
/// `D` positions.
///
/// `678954` becomes `67895400111` when `D` is 3.
pub fn encode<const D: usize>(short_number: u64) -> (r: Result<u64, CodeError>)
    requires
        D <= 11,
    ensures
        match r {
            Ok(code_number) => {
                &&& width_error(short_number as nat, 11) is None
                &&& code_number == encode_tail(short_number as nat, 11, D as nat)
            },
            Err(e) => width_error(short_number as nat, 11) == Some(e),
        },
{
    match short_number_to_raw_array(short_number) {
        Ok(raw_array) => {
            let code_array = raw_array_to_code_array::<D>(raw_array);
            Ok(code_array_to_code_number(code_array))
        },
        Err(e) => Err(e),
    }
}

/// Cuts a large number down to its first `code_length` digits.
///
/// `67895432124` becomes `6789` for a length of 4 and `6789543212` for a
/// length of 10.
pub fn truncate(large_number: u64, code_length: usize) -> (r: u64)
    requires
        code_length <= 11,
    ensures
        r == truncate_number(large_number as nat, 11, code_length as nat),
{
    code_num::truncate::<11>(large_number, code_length)
}

/// Cuts a large number down to `code_length` digits and encodes what is
/// left.
///
/// With `D = 3`, `67895432124` becomes `67890000111` for a length of 4 and
/// `67895432121` for a length of 10.
pub fn truncate_and_encode<const D: usize>(large_number: u64, code_length: usize) -> (r: Result<
    u64,
    CodeError,
>)
    requires
        D <= 11,
        code_length <= 11,
    ensures
        match r {
            Ok(code_number) => {
                &&& width_error(truncate_number(large_number as nat, 11, code_length as nat), 11)
                    is None
                &&& code_number == encode_tail(
                    truncate_number(large_number as nat, 11, code_length as nat),
                    11,
                    D as nat,
                )
            },
            Err(e) => width_error(truncate_number(large_number as nat, 11, code_length as nat), 11)
                == Some(e),
        },
{
    encode::<D>(truncate(large_number, code_length))
}

/// Encodes a short number that is known to have eleven digits at most.
pub(crate) fn encode_in_range<const D: usize>(short_number: u64) -> (r: u64)
    requires
        D <= 11,
        short_number < pow10(11),
    ensures
        r == encode_tail(short_number as nat, 11, D as nat),
        r < pow10(11),
{
    let raw_array = code_num::code_number_to_code_array::<11, 0>(
        code_num::align::<11>(short_number),
    );
    let code_array = raw_array_to_code_array::<D>(raw_array);
    proof {
        lemma_digits_of_decimal(left_align(short_number as nat, 11), 11);
        lemma_fill_tail_decimal(raw_array@, D as nat);
        lemma_number_of_bound(code_array@);
    }
    code_array_to_code_number(code_array)
}

/// Eleven digits of any size spell a number that fits in 64 bits.
pub proof fn lemma_number_of_eleven_fits(s: Seq<u8>)
    requires
        s.len() == 11,
    ensures
        number_of(s) <= 255 * 11_111_111_111,
        number_of(s) <= u64::MAX,
{
    reveal_with_fuel(number_of, 12);
    let a = s.drop_last();
    let b = a.drop_last();
    let c = b.drop_last();
    let d = c.drop_last();
    let e = d.drop_last();
    let f = e.drop_last();
    let g = f.drop_last();
    let h = g.drop_last();
    let i = h.drop_last();
    let j = i.drop_last();
    let k = j.drop_last();
    assert(number_of(k) == 0);
    assert(number_of(j) <= 255);
    assert(number_of(i) <= 255 * 11);
    assert(number_of(h) <= 255 * 111);
    assert(number_of(g) <= 255 * 1_111);
    assert(number_of(f) <= 255 * 11_111);
    assert(number_of(e) <= 255 * 111_111);
    assert(number_of(d) <= 255 * 1_111_111);
    assert(number_of(c) <= 255 * 11_111_111);
    assert(number_of(b) <= 255 * 111_111_111);
    assert(number_of(a) <= 255 * 1_111_111_111);
}

} // verus!
