//! Decimal digit sequences and the numbers they spell.
//!
//! A mesh code is a fixed-width string of decimal digits, most significant
//! digit first, stored as one unsigned integer. This module is the theory the
//! codecs rest on: how a digit sequence maps to a number and back, how a short
//! number is moved to the left edge of the fixed width, and how the trailing
//! positions that may never hold `0` are given their default digit `1`.

use vstd::arithmetic::div_mod::{lemma_div_denominator, lemma_mod_breakdown};
use vstd::prelude::*;

verus! {

/// `10` raised to the power `e`.
pub open spec fn pow10(e: nat) -> nat
    decreases e,
{
    if e == 0 {
        1
    } else {
        10 * pow10((e - 1) as nat)
    }
}

/// Every entry is a decimal digit.
pub open spec fn all_decimal(s: Seq<u8>) -> bool {
    forall|i: int| 0 <= i < s.len() ==> #[trigger] s[i] <= 9
}

/// The number spelled by `s`, most significant digit first.
pub open spec fn number_of(s: Seq<u8>) -> nat
    decreases s.len(),
{
    if s.len() == 0 {
        0
    } else {
        number_of(s.drop_last()) * 10 + s.last() as nat
    }
}

/// The digit of `n` at position `i` of a `len`-digit spelling.
pub open spec fn digit_at(n: nat, len: nat, i: int) -> u8 {
    ((n / pow10((len - 1 - i) as nat)) % 10) as u8
}

/// The lowest `len` decimal digits of `n`, most significant first.
pub open spec fn digits_of(n: nat, len: nat) -> Seq<u8> {
    Seq::new(len, |i: int| digit_at(n, len, i))
}

/// `n` followed by as many zero digits as it takes to reach `len` digits.
/// Zero, and a number that already has `len` digits or more, stay as they are.
pub open spec fn left_align(n: nat, len: nat) -> nat
    decreases
            (if len >= 1 && n < pow10((len - 1) as nat) {
                pow10((len - 1) as nat) - n
            } else {
                0
            }),
{
    if n == 0 || len == 0 || n >= pow10((len - 1) as nat) {
        n
    } else {
        left_align(n * 10, len)
    }
}

/// `s` with every position from `keep` on set to zero.
pub open spec fn truncated_digits(s: Seq<u8>, keep: nat) -> Seq<u8> {
    Seq::new(s.len(), |i: int| if i < keep { s[i] } else { 0u8 })
}

/// Whether `mask` selects position `i` of a `len`-digit sequence. Bit 0 of
/// the mask stands for the last position, bit 1 for the one before it, and so
/// on; a bit beyond the first position selects nothing.
pub open spec fn mask_selects(mask: u8, len: nat, i: int) -> bool {
    let bit = len - 1 - i;
    0 <= i && 0 <= bit < 8 && (mask >> (bit as u8)) & 1 == 1
}

/// The default fill by mask: a selected position that holds `0` gets `1`.
pub open spec fn fill_masked(s: Seq<u8>, mask: u8) -> Seq<u8> {
    Seq::new(
        s.len(),
        |i: int|
            if mask_selects(mask, s.len(), i) && s[i] == 0 {
                1u8
            } else {
                s[i]
            },
    )
}

/// The default fill of the last `count` positions: a zero there becomes `1`.
pub open spec fn fill_tail(s: Seq<u8>, count: nat) -> Seq<u8> {
    Seq::new(
        s.len(),
        |i: int|
            if i >= s.len() - count && s[i] == 0 {
                1u8
            } else {
                s[i]
            },
    )
}

/// The canonical `len`-digit number of a short number under a mask: aligned
/// to the left edge, then filled.
pub open spec fn encode_masked(n: nat, len: nat, mask: u8) -> nat {
    number_of(fill_masked(digits_of(left_align(n, len), len), mask))
}

/// The canonical `len`-digit number of a short number whose last `count`
/// positions are filled.
pub open spec fn encode_tail(n: nat, len: nat, count: nat) -> nat {
    number_of(fill_tail(digits_of(left_align(n, len), len), count))
}

/// The first `keep` digits of a `len`-digit number.
pub open spec fn truncate_number(n: nat, len: nat, keep: nat) -> nat {
    n / pow10((len - keep) as nat)
}

/// `10` raised to the power `e`, for the exponents whose power fits in 64
/// bits.
pub fn power_of_ten(e: usize) -> (r: u64)
    requires
        e <= 19,
    ensures
        r == pow10(e as nat),
{
    let mut r: u64 = 1;
    let mut i: usize = 0;
    while i < e
        invariant
            i <= e <= 19,
            r == pow10(i as nat),
        decreases e - i,
    {
        proof {
            lemma_pow10_fits((i + 1) as nat);
        }
        r = r * 10;
        i = i + 1;
    }
    r
}

/// A power of ten is at least one.
pub proof fn lemma_pow10_positive(e: nat)
    ensures
        pow10(e) >= 1,
    decreases e,
{
    if e > 0 {
        lemma_pow10_positive((e - 1) as nat);
    }
}

/// A larger exponent gives a power of ten that is not smaller.
pub proof fn lemma_pow10_monotonic(a: nat, b: nat)
    requires
        a <= b,
    ensures
        pow10(a) <= pow10(b),
    decreases b,
{
    if a < b {
        lemma_pow10_monotonic(a, (b - 1) as nat);
    }
}

/// The power of a sum of exponents is the product of the powers.
pub proof fn lemma_pow10_adds(a: nat, b: nat)
    ensures
        pow10(a + b) == pow10(a) * pow10(b),
    decreases a,
{
    if a == 0 {
        assert(pow10(0) * pow10(b) == pow10(b)) by (nonlinear_arith)
            requires
                pow10(0) == 1,
        ;
    } else {
        lemma_pow10_adds((a - 1) as nat, b);
        let x: nat = pow10((a - 1) as nat);
        let y: nat = pow10(b);
        assert((10 * x) * y == 10 * (x * y)) by (nonlinear_arith);
    }
}

/// The powers of ten that fit in 64 bits.
pub proof fn lemma_pow10_values()
    ensures
        pow10(0) == 1,
        pow10(1) == 10,
        pow10(2) == 100,
        pow10(3) == 1_000,
        pow10(4) == 10_000,
        pow10(5) == 100_000,
        pow10(6) == 1_000_000,
        pow10(7) == 10_000_000,
        pow10(8) == 100_000_000,
        pow10(9) == 1_000_000_000,
        pow10(10) == 10_000_000_000,
        pow10(11) == 100_000_000_000,
        pow10(12) == 1_000_000_000_000,
        pow10(13) == 10_000_000_000_000,
        pow10(14) == 100_000_000_000_000,
        pow10(15) == 1_000_000_000_000_000,
        pow10(16) == 10_000_000_000_000_000,
        pow10(17) == 100_000_000_000_000_000,
        pow10(18) == 1_000_000_000_000_000_000,
        pow10(19) == 10_000_000_000_000_000_000,
{
    reveal_with_fuel(pow10, 20);
}

/// A power of ten up to the nineteenth fits in a `u64`.
pub proof fn lemma_pow10_fits(e: nat)
    requires
        e <= 19,
    ensures
        pow10(e) <= 10_000_000_000_000_000_000,
        pow10(e) <= u64::MAX,
{
    lemma_pow10_values();
}

/// A sequence of `len` decimal digits spells a number below `10^len`.
pub proof fn lemma_number_of_bound(s: Seq<u8>)
    requires
        all_decimal(s),
    ensures
        number_of(s) < pow10(s.len()),
    decreases s.len(),
{
    if s.len() > 0 {
        let front = s.drop_last();
        lemma_number_of_bound(front);
    }
}

/// A digit sequence whose first digit is not zero spells a number of full
/// width.
pub proof fn lemma_number_of_lower_bound(s: Seq<u8>)
    requires
        s.len() >= 1,
        s[0] != 0,
    ensures
        number_of(s) >= pow10((s.len() - 1) as nat),
    decreases s.len(),
{
    if s.len() > 1 {
        lemma_number_of_lower_bound(s.drop_last());
    }
}

/// Reading the digits of a spelled number gives the sequence back.
pub proof fn lemma_digit_at_number_of(s: Seq<u8>, i: int)
    requires
        all_decimal(s),
        0 <= i < s.len(),
    ensures
        digit_at(number_of(s), s.len(), i) == s[i],
    decreases s.len(),
{
    let len = s.len();
    let front = s.drop_last();
    let n: nat = number_of(s);
    if i == len - 1 {
        assert(n / 1 == n);
    } else {
        let e: nat = (len - 1 - i) as nat;
        let lower: nat = pow10((e - 1) as nat);
        lemma_pow10_positive((e - 1) as nat);
        lemma_div_denominator(n as int, 10, lower as int);
        lemma_digit_at_number_of(front, i);
    }
}

/// `digits_of` undoes `number_of` on decimal digits.
pub proof fn lemma_digits_of_number_of(s: Seq<u8>)
    requires
        all_decimal(s),
    ensures
        digits_of(number_of(s), s.len()) == s,
{
    assert forall|i: int| 0 <= i < s.len() implies digits_of(number_of(s), s.len())[i] == s[i] by {
        lemma_digit_at_number_of(s, i);
    }
}

/// Every entry of `digits_of` is a decimal digit.
pub proof fn lemma_digits_of_decimal(n: nat, len: nat)
    ensures
        all_decimal(digits_of(n, len)),
        digits_of(n, len).len() == len,
{
}

/// Zero is spelled as zeros only.
pub proof fn lemma_digits_of_zero(len: nat)
    ensures
        forall|i: int| 0 <= i < len ==> #[trigger] digits_of(0, len)[i] == 0,
{
    assert forall|i: int| 0 <= i < len implies #[trigger] digits_of(0, len)[i] == 0 by {
        lemma_pow10_positive((len - 1 - i) as nat);
    }
}

/// Spelling the lowest `len` digits of `n` gives `n` modulo `10^len`.
pub proof fn lemma_number_of_digits_of(n: nat, len: nat)
    ensures
        number_of(digits_of(n, len)) == n % pow10(len),
    decreases len,
{
    let s = digits_of(n, len);
    if len > 0 {
        let front = s.drop_last();
        let rest = digits_of(n / 10, (len - 1) as nat);
        assert(front =~= rest) by {
            assert forall|i: int| 0 <= i < len - 1 implies front[i] == rest[i] by {
                let e: nat = (len - 2 - i) as nat;
                lemma_pow10_positive(e);
                lemma_div_denominator(n as int, 10, pow10(e) as int);
            }
        }
        lemma_number_of_digits_of(n / 10, (len - 1) as nat);
        assert(n / 1 == n);
        lemma_pow10_positive((len - 1) as nat);
        lemma_mod_breakdown(n as int, 10, pow10((len - 1) as nat) as int);
    }
}

/// A number below `10^len` is spelled by its own `len` digits.
pub proof fn lemma_number_of_digits_of_small(n: nat, len: nat)
    requires
        n < pow10(len),
    ensures
        number_of(digits_of(n, len)) == n,
{
    lemma_number_of_digits_of(n, len);
    vstd::arithmetic::div_mod::lemma_small_mod(n, pow10(len));
}

/// Cutting a number down to its first `keep` digits leaves those digits as
/// they were.
pub proof fn lemma_digit_at_truncated(n: nat, len: nat, keep: nat, i: int)
    requires
        keep <= len,
        0 <= i < keep,
    ensures
        digit_at(truncate_number(n, len, keep), keep, i) == digit_at(n, len, i),
{
    let cut: nat = pow10((len - keep) as nat);
    let rest: nat = pow10((keep - 1 - i) as nat);
    lemma_pow10_positive((len - keep) as nat);
    lemma_pow10_positive((keep - 1 - i) as nat);
    lemma_pow10_adds((len - keep) as nat, (keep - 1 - i) as nat);
    lemma_div_denominator(n as int, cut as int, rest as int);
}

/// A prefix never spells a larger number than the whole sequence.
pub proof fn lemma_number_of_prefix_le(s: Seq<u8>, keep: nat)
    requires
        keep <= s.len(),
    ensures
        number_of(s.take(keep as int)) <= number_of(s),
    decreases s.len() - keep,
{
    if keep == s.len() {
        assert(s.take(keep as int) =~= s);
    } else {
        let front = s.drop_last();
        lemma_number_of_prefix_le(front, keep);
        assert(front.take(keep as int) =~= s.take(keep as int));
    }
}

/// A number of exactly `len` digits has a first digit that is not zero.
pub proof fn lemma_first_digit_nonzero(n: nat, len: nat)
    requires
        len >= 1,
        pow10((len - 1) as nat) <= n < pow10(len),
    ensures
        digit_at(n, len, 0) != 0,
{
    let p: nat = pow10((len - 1) as nat);
    assert(1 <= n / p < 10) by (nonlinear_arith)
        requires
            p <= n < 10 * p,
            p >= 1,
    ;
}

/// The digits of the canonical number of a full-width prefix. For a decimal
/// sequence `s` whose first digit is not zero, encoding the number spelled by
/// its first `keep` digits yields those digits, zeros after them, and the
/// default fill on top.
pub proof fn lemma_encode_masked_digits(s: Seq<u8>, keep: nat, mask: u8)
    requires
        all_decimal(s),
        1 <= keep <= s.len(),
        s[0] != 0,
    ensures
        pow10((keep - 1) as nat) <= number_of(s.take(keep as int)) < pow10(keep),
        left_align(number_of(s.take(keep as int)), s.len()) == number_of(
            truncated_digits(s, keep),
        ),
        digits_of(left_align(number_of(s.take(keep as int)), s.len()), s.len())
            == truncated_digits(s, keep),
        encode_masked(number_of(s.take(keep as int)), s.len(), mask) < pow10(s.len()),
        encode_masked(number_of(s.take(keep as int)), s.len(), mask) >= pow10(
            (s.len() - 1) as nat,
        ),
        digits_of(encode_masked(number_of(s.take(keep as int)), s.len(), mask), s.len())
            == fill_masked(truncated_digits(s, keep), mask),
{
    let len = s.len();
    let head = s.take(keep as int);
    let n: nat = number_of(head);
    lemma_number_of_bound(head);
    lemma_number_of_lower_bound(head);
    lemma_left_align_shift(n, keep, len);
    let cut = truncated_digits(s, keep);
    lemma_number_of_truncated(s, keep);
    lemma_digits_of_number_of(cut);
    let filled = fill_masked(cut, mask);
    lemma_digits_of_number_of(filled);
    lemma_number_of_bound(filled);
    lemma_number_of_lower_bound(filled);
}

/// Dropping the last `len - keep` digits divides by `10^(len - keep)`.
pub proof fn lemma_number_of_take(s: Seq<u8>, keep: nat)
    requires
        all_decimal(s),
        keep <= s.len(),
    ensures
        number_of(s) / pow10((s.len() - keep) as nat) == number_of(s.take(keep as int)),
    decreases s.len() - keep,
{
    let len = s.len();
    if keep == len {
        assert(number_of(s) / 1 == number_of(s));
        assert(s.take(keep as int) =~= s);
    } else {
        let front = s.drop_last();
        let e: nat = (len - keep - 1) as nat;
        lemma_pow10_positive(e);
        lemma_div_denominator(number_of(s) as int, 10, pow10(e) as int);
        lemma_number_of_take(front, keep);
        assert(front.take(keep as int) =~= s.take(keep as int));
    }
}

/// Zeroing the last `len - keep` digits multiplies the kept number back up.
pub proof fn lemma_number_of_truncated(s: Seq<u8>, keep: nat)
    requires
        keep <= s.len(),
    ensures
        number_of(truncated_digits(s, keep)) == number_of(s.take(keep as int)) * pow10(
            (s.len() - keep) as nat,
        ),
    decreases s.len() - keep,
{
    let len = s.len();
    let t = truncated_digits(s, keep);
    if keep == len {
        assert(t =~= s.take(keep as int));
        assert(number_of(s.take(keep as int)) * 1 == number_of(s.take(keep as int)));
    } else {
        let front = s.drop_last();
        let e: nat = (len - keep - 1) as nat;
        lemma_number_of_truncated(front, keep);
        assert(t.drop_last() =~= truncated_digits(front, keep));
        assert(front.take(keep as int) =~= s.take(keep as int));
        let k: nat = number_of(s.take(keep as int));
        assert((k * pow10(e)) * 10 == k * (10 * pow10(e))) by (nonlinear_arith);
    }
}

/// What aligning does to a number of exactly `width` digits: it appends
/// `len - width` zeros.
pub proof fn lemma_left_align_shift(n: nat, width: nat, len: nat)
    requires
        1 <= width <= len,
        pow10((width - 1) as nat) <= n < pow10(width),
    ensures
        left_align(n, len) == n * pow10((len - width) as nat),
    decreases len - width,
{
    if width == len {
        assert(n * 1 == n) by (nonlinear_arith);
    } else {
        lemma_pow10_monotonic(width, (len - 1) as nat);
        lemma_left_align_shift(n * 10, width + 1, len);
        let e: nat = (len - width - 1) as nat;
        assert((n * 10) * pow10(e) == n * (10 * pow10(e))) by (nonlinear_arith);
    }
}

/// An aligned number other than zero has exactly `len` digits.
pub proof fn lemma_left_align_bounds(n: nat, len: nat)
    requires
        len >= 1,
        0 < n < pow10(len),
    ensures
        pow10((len - 1) as nat) <= left_align(n, len) < pow10(len),
    decreases
            (if n < pow10((len - 1) as nat) {
                pow10((len - 1) as nat) - n
            } else {
                0
            }),
{
    if n < pow10((len - 1) as nat) {
        lemma_left_align_bounds(n * 10, len);
    }
}

/// Filling keeps decimal digits decimal and the length unchanged.
pub proof fn lemma_fill_masked_decimal(s: Seq<u8>, mask: u8)
    requires
        all_decimal(s),
    ensures
        all_decimal(fill_masked(s, mask)),
        fill_masked(s, mask).len() == s.len(),
{
}

/// Filling keeps decimal digits decimal and the length unchanged.
pub proof fn lemma_fill_tail_decimal(s: Seq<u8>, count: nat)
    requires
        all_decimal(s),
    ensures
        all_decimal(fill_tail(s, count)),
        fill_tail(s, count).len() == s.len(),
{
}

/// Applying the default fill by mask twice gives what applying it once gives.
pub proof fn lemma_fill_masked_idempotent(s: Seq<u8>, mask: u8)
    ensures
        fill_masked(fill_masked(s, mask), mask) == fill_masked(s, mask),
{
}

/// Applying the default fill of the tail twice gives what applying it once
/// gives.
pub proof fn lemma_fill_tail_idempotent(s: Seq<u8>, count: nat)
    ensures
        fill_tail(fill_tail(s, count), count) == fill_tail(s, count),
{
}

} // verus!
