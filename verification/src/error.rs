//! The ways in which a number can fail to be a numeric code.

use crate::digits::pow10;
use vstd::prelude::*;

verus! {

/// Why a number was refused.
#[derive(Debug, Clone, Copy, PartialEq, Eq, Structural)]
pub enum CodeError {
    /// The number is zero. The digit codec spells zero as all zeros, but a
    /// cell's code number keeps a first digit that is not zero, so zero
    /// names no cell.
    Empty,
    /// The number has more decimal digits than the code has positions.
    TooLong,
}

/// The error, if any, that a number meets when it is split into `len`
/// digits: only a number of more than `len` digits is refused.
pub open spec fn width_error(n: nat, len: nat) -> Option<CodeError> {
    if n >= pow10(len) {
        Some(CodeError::TooLong)
    } else {
        None
    }
}

/// The error, if any, that a numeric code meets when a cell's code number of
/// `len` digits is built from it: zero is refused, and so is a number of more
/// than `len` digits.
pub open spec fn code_error(n: nat, len: nat) -> Option<CodeError> {
    if n == 0 {
        Some(CodeError::Empty)
    } else {
        width_error(n, len)
    }
}

} // verus!
