//! Numbers of the language: IEEE-754 binary64 values carried as bit patterns.
//!
//! Everything here is decided on the bits alone: classification, the IEEE
//! comparisons, negation, and the conversions between numbers and the
//! integers that index and measure arrays and strings. Rounding arithmetic
//! is not done here; the evaluator asks the host for it.

use vstd::prelude::*;

verus! {

/// The sign bit of a binary64 value.
pub const SIGN_BIT: u64 = 0x8000_0000_0000_0000;

/// The eleven exponent bits of a binary64 value.
pub const EXPONENT_MASK: u64 = 0x7ff0_0000_0000_0000;

/// The fifty-two fraction bits of a binary64 value.
pub const FRACTION_MASK: u64 = 0x000f_ffff_ffff_ffff;

/// The implicit leading bit of a normal significand.
pub const HIDDEN_BIT: u64 = 0x0010_0000_0000_0000;

/// The bits without the sign: the encoding of the absolute value.
pub open spec fn magnitude(bits: u64) -> u64 {
    bits & !SIGN_BIT
}

/// Whether the sign bit is set.
pub open spec fn is_negative(bits: u64) -> bool {
    bits & SIGN_BIT != 0
}

/// Whether the bits encode a NaN: all exponent bits set and a nonzero fraction.
pub open spec fn is_nan(bits: u64) -> bool {
    bits & EXPONENT_MASK == EXPONENT_MASK && bits & FRACTION_MASK != 0
}

/// IEEE equality: NaN equals nothing, and the two zeros are equal.
pub open spec fn number_eq(a: u64, b: u64) -> bool {
    !is_nan(a) && !is_nan(b) && (a == b || (magnitude(a) == 0 && magnitude(b) == 0))
}

/// IEEE `<`: false when either side is NaN; otherwise the order of the reals,
/// read off the sign and the magnitude encodings.
pub open spec fn number_lt(a: u64, b: u64) -> bool {
    !is_nan(a) && !is_nan(b) && if is_negative(a) {
        if is_negative(b) {
            magnitude(a) > magnitude(b)
        } else {
            !(magnitude(a) == 0 && magnitude(b) == 0)
        }
    } else {
        !is_negative(b) && magnitude(a) < magnitude(b)
    }
}

/// IEEE `<=`.
pub open spec fn number_le(a: u64, b: u64) -> bool {
    number_lt(a, b) || number_eq(a, b)
}

/// The number with the opposite sign.
pub open spec fn negated(bits: u64) -> u64 {
    bits ^ SIGN_BIT
}

/// The integer part of a non-negative, non-NaN number given by its magnitude
/// encoding, capped at `u64::MAX` (which also stands for infinity).
pub open spec fn integer_part(mag: u64) -> u64 {
    let exponent = mag >> 52;
    let significand = (mag & FRACTION_MASK) | HIDDEN_BIT;
    if exponent < 1023 {
        0
    } else if exponent > 1086 {
        u64::MAX
    } else if exponent <= 1075 {
        significand >> ((1075 - exponent) as u64)
    } else {
        significand << ((exponent - 1075) as u64)
    }
}

/// The position that a number selects in a container of `len` items: its
/// floor, where that lies in `0..len`. NaN and negative zero select position 0;
/// every other negative number selects nothing.
pub open spec fn index_of(bits: u64, len: usize) -> Option<usize> {
    if is_nan(bits) || (is_negative(bits) && magnitude(bits) == 0) {
        if 0 < len {
            Some(0usize)
        } else {
            None
        }
    } else if is_negative(bits) {
        None
    } else {
        let whole = integer_part(magnitude(bits));
        let capped = if whole > isize::MAX as u64 {
            isize::MAX as u64
        } else {
            whole
        };
        if capped < len as u64 {
            Some(capped as usize)
        } else {
            None
        }
    }
}

/// The count that a number stands for: its integer part, zero for NaN and
/// for anything negative, capped at `usize::MAX`.
pub open spec fn count_of(bits: u64) -> usize {
    if is_nan(bits) || is_negative(bits) {
        0
    } else {
        let whole = integer_part(magnitude(bits));
        if whole > usize::MAX as u64 {
            usize::MAX
        } else {
            whole as usize
        }
    }
}

/// Position of the highest set bit: the floor of the binary logarithm.
pub open spec fn top_bit(n: u64) -> nat
    decreases n,
{
    if n <= 1 {
        0
    } else {
        1 + top_bit(n / 2)
    }
}

/// The number nearest to the integer `n`, ties going to the even significand.
/// Integers below 2^53 are represented exactly.
pub open spec fn from_integer(n: u64) -> u64 {
    if n == 0 {
        0
    } else {
        let e = top_bit(n) as u64;
        if e <= 52 {
            ((1023 + e) as u64) << 52 | ((n << ((52 - e) as u64)) & FRACTION_MASK)
        } else {
            let shift = (e - 52) as u64;
            let kept = n >> shift;
            let dropped = n & (((1u64 << shift) - 1) as u64);
            let half = 1u64 << ((shift - 1) as u64);
            let up = dropped > half || (dropped == half && kept & 1 == 1);
            let rounded = if up {
                kept + 1
            } else {
                kept as int
            };
            ((((1023 + e) as u64) << 52) + (rounded - HIDDEN_BIT)) as u64
        }
    }
}

/// Whether the bits encode a NaN.
pub fn test_nan(bits: u64) -> (res: bool)
    ensures
        res == is_nan(bits),
{
    bits & EXPONENT_MASK == EXPONENT_MASK && bits & FRACTION_MASK != 0
}

/// IEEE equality of two numbers.
pub fn test_eq(a: u64, b: u64) -> (res: bool)
    ensures
        res == number_eq(a, b),
{
    !test_nan(a) && !test_nan(b) && (a == b || (a & !SIGN_BIT == 0 && b & !SIGN_BIT == 0))
}

/// IEEE `<` of two numbers.
pub fn test_lt(a: u64, b: u64) -> (res: bool)
    ensures
        res == number_lt(a, b),
{
    if test_nan(a) || test_nan(b) {
        return false;
    }
    let mag_a: u64 = a & !SIGN_BIT;
    let mag_b: u64 = b & !SIGN_BIT;
    if a & SIGN_BIT != 0 {
        if b & SIGN_BIT != 0 {
            mag_a > mag_b
        } else {
            !(mag_a == 0 && mag_b == 0)
        }
    } else {
        b & SIGN_BIT == 0 && mag_a < mag_b
    }
}

/// IEEE `<=` of two numbers.
pub fn test_le(a: u64, b: u64) -> (res: bool)
    ensures
        res == number_le(a, b),
{
    test_lt(a, b) || test_eq(a, b)
}

/// The number with the opposite sign.
pub fn negate(bits: u64) -> (res: u64)
    ensures
        res == negated(bits),
{
    bits ^ SIGN_BIT
}

fn whole_part(mag: u64) -> (res: u64)
    ensures
        res == integer_part(mag),
{
    let exponent: u64 = mag >> 52;
    let significand: u64 = (mag & FRACTION_MASK) | HIDDEN_BIT;
    assert(mag >> 52 <= 0xfff) by (bit_vector);
    if exponent < 1023 {
        0
    } else if exponent > 1086 {
        u64::MAX
    } else if exponent <= 1075 {
        significand >> (1075 - exponent)
    } else {
        significand << (exponent - 1075)
    }
}

/// The position that a number selects in a container of `len` items.
pub fn to_index(bits: u64, len: usize) -> (res: Option<usize>)
    ensures
        res == index_of(bits, len),
{
    if test_nan(bits) || (bits & SIGN_BIT != 0 && bits & !SIGN_BIT == 0) {
        if 0 < len {
            Some(0)
        } else {
            None
        }
    } else if bits & SIGN_BIT != 0 {
        None
    } else {
        let whole: u64 = whole_part(bits & !SIGN_BIT);
        let capped: u64 = if whole > isize::MAX as u64 {
            isize::MAX as u64
        } else {
            whole
        };
        if capped < len as u64 {
            Some(capped as usize)
        } else {
            None
        }
    }
}

/// The count that a number stands for.
pub fn to_count(bits: u64) -> (res: usize)
    ensures
        res == count_of(bits),
{
    if test_nan(bits) || bits & SIGN_BIT != 0 {
        0
    } else {
        let whole: u64 = whole_part(bits & !SIGN_BIT);
        if whole > usize::MAX as u64 {
            usize::MAX
        } else {
            whole as usize
        }
    }
}

fn highest_bit(n: u64) -> (res: u64)
    ensures
        res == top_bit(n),
        res <= 63,
        n >= 1 ==> (n >> res) == 1,
{
    let mut rest: u64 = n;
    let mut count: u64 = 0;
    proof {
        let nn = n;
        assert(nn >> 0u64 == nn && nn <= (0xffff_ffff_ffff_ffffu64 >> 0u64)) by (bit_vector);
    }
    while rest > 1
        invariant
            count + top_bit(rest) == top_bit(n),
            count <= 63,
            rest <= (u64::MAX >> count),
            n >= 1 ==> rest == n >> count,
            n >= 1 ==> rest >= 1,
        decreases rest,
    {
        proof {
            let r = rest;
            let c = count;
            assert(r > 1 && r <= (u64::MAX >> c) && c <= 63 ==> c < 63 && r / 2 <= (u64::MAX >> ((c + 1) as u64))) by (bit_vector);
            let nn = n;
            assert(c < 63 && r == nn >> c ==> r / 2 == nn >> ((c + 1) as u64)) by (bit_vector);
        }
        rest = rest / 2;
        count = count + 1;
    }
    count
}

/// The number nearest to the integer `n`.
pub fn number_from(n: u64) -> (res: u64)
    ensures
        res == from_integer(n),
{
    if n == 0 {
        return 0;
    }
    let e: u64 = highest_bit(n);
    if e <= 52 {
        ((1023 + e) << 52) | ((n << (52 - e)) & FRACTION_MASK)
    } else {
        let shift: u64 = e - 52;
        let kept: u64 = n >> shift;
        proof {
            let nn = n;
            let ee = e;
            let ss = shift;
            assert(ee > 52 && ee <= 63 && ss == ee - 52 && (nn >> ee) == 1 ==> (nn >> ss) >= 0x0010_0000_0000_0000 && (nn >> ss) < 0x0020_0000_0000_0000) by (bit_vector);
            assert(ss >= 1 && ss <= 11 ==> (1u64 << ss) >= 2 && (1u64 << ss) <= 2048) by (bit_vector);
            assert(ee <= 63 ==> ((1023 + ee) as u64) << 52 <= 0x43e0_0000_0000_0000) by (bit_vector);
        }
        let dropped: u64 = n & ((1u64 << shift) - 1);
        let half: u64 = 1u64 << (shift - 1);
        let up: bool = dropped > half || (dropped == half && kept & 1 == 1);
        let rounded: u64 = if up {
            kept + 1
        } else {
            kept
        };
        ((1023 + e) << 52) + (rounded - HIDDEN_BIT)
    }
}

/// NaN is unordered: it is neither equal to, nor below, nor above any
/// number, itself included.
pub proof fn lemma_nan_is_unordered(a: u64, b: u64)
    requires
        is_nan(a),
    ensures
        !number_eq(a, b),
        !number_eq(b, a),
        !number_lt(a, b),
        !number_lt(b, a),
        !number_le(a, b),
        !number_le(b, a),
{
}

/// Off NaN the comparisons are those of an order in which the two zeros
/// coincide: equality is reflexive and symmetric, of any two numbers
/// exactly one is below the other unless they are equal, `<` is transitive,
/// and negation turns the order round.
pub proof fn lemma_numbers_are_ordered(a: u64, b: u64, c: u64)
    requires
        !is_nan(a),
        !is_nan(b),
        !is_nan(c),
    ensures
        number_eq(a, a),
        number_eq(a, b) == number_eq(b, a),
        number_lt(a, b) ==> !number_lt(b, a) && !number_eq(a, b),
        number_lt(a, b) || number_lt(b, a) || number_eq(a, b),
        number_lt(a, b) && number_lt(b, c) ==> number_lt(a, c),
        number_eq(a, b) && number_eq(b, c) ==> number_eq(a, c),
        number_le(a, b) == !number_lt(b, a),
        !is_nan(negated(a)),
        number_lt(a, b) == number_lt(negated(b), negated(a)),
{
    assert(forall|x: u64, y: u64|
        (x & !0x8000_0000_0000_0000u64) == (y & !0x8000_0000_0000_0000u64) && ((x
            & 0x8000_0000_0000_0000u64) != 0) == ((y & 0x8000_0000_0000_0000u64) != 0) ==> x
            == y) by (bit_vector);
    assert(forall|x: u64|
        (#[trigger] (x ^ 0x8000_0000_0000_0000u64) & !0x8000_0000_0000_0000u64) == (x
            & !0x8000_0000_0000_0000u64)) by (bit_vector);
    assert(forall|x: u64|
        ((#[trigger] (x ^ 0x8000_0000_0000_0000u64) & 0x8000_0000_0000_0000u64) != 0) == ((x
            & 0x8000_0000_0000_0000u64) == 0)) by (bit_vector);
    assert(forall|x: u64|
        (#[trigger] (x ^ 0x8000_0000_0000_0000u64) & 0x7ff0_0000_0000_0000u64) == (x
            & 0x7ff0_0000_0000_0000u64)) by (bit_vector);
    assert(forall|x: u64|
        (#[trigger] (x ^ 0x8000_0000_0000_0000u64) & 0x000f_ffff_ffff_ffffu64) == (x
            & 0x000f_ffff_ffff_ffffu64)) by (bit_vector);
}

proof fn lemma_top_bit(n: u64)
    requires
        n >= 1,
    ensures
        top_bit(n) <= 63,
        n >> (top_bit(n) as u64) == 1,
    decreases n,
{
    if n > 1 {
        lemma_top_bit(n / 2);
        let t = top_bit(n / 2) as u64;
        assert(t <= 63 && (n / 2) >> t == 1 ==> t < 63 && n >> ((t + 1) as u64) == 1)
            by (bit_vector);
    } else {
        assert(1u64 >> 0u64 == 1) by (bit_vector);
    }
}

/// Integers go to numbers and back: an integer below 2^53 is represented
/// exactly, so that the count that its number stands for is the integer
/// itself, and its number selects the position of that integer in every
/// container that has one. (No container has a position above
/// `isize::MAX`.)
pub proof fn lemma_integers_round_trip(n: usize, len: usize)
    requires
        n < 0x20_0000_0000_0000,
    ensures
        !is_nan(from_integer(n as u64)),
        !is_negative(from_integer(n as u64)),
        count_of(from_integer(n as u64)) == n,
        n < len && n <= isize::MAX ==> index_of(from_integer(n as u64), len) == Some(n),
{
    let v = n as u64;
    if v == 0 {
        assert(0u64 & 0x7ff0_0000_0000_0000u64 == 0 && 0u64 & 0x8000_0000_0000_0000u64 == 0
            && 0u64 & !0x8000_0000_0000_0000u64 == 0 && (0u64 >> 52) == 0) by (bit_vector);
    } else {
        lemma_top_bit(v);
        let e = top_bit(v) as u64;
        assert(e <= 63 && (v >> e) == 1 && v < 0x20_0000_0000_0000u64 ==> e <= 52)
            by (bit_vector);
        let bits = ((1023 + e) as u64) << 52 | ((v << ((52 - e) as u64))
            & 0x000f_ffff_ffff_ffffu64);
        assert(bits == from_integer(v));
        assert(e <= 52 && (v >> e) == 1 ==> ({
            let b = ((1023 + e) as u64) << 52 | ((v << ((52 - e) as u64))
                & 0x000f_ffff_ffff_ffffu64);
            let mag = b & !0x8000_0000_0000_0000u64;
            &&& b & 0x8000_0000_0000_0000u64 == 0
            &&& b & 0x7ff0_0000_0000_0000u64 != 0x7ff0_0000_0000_0000u64
            &&& (mag >> 52) == 1023 + e
            &&& (((mag & 0x000f_ffff_ffff_ffffu64) | 0x0010_0000_0000_0000u64) >> ((1075 - (
            mag >> 52)) as u64)) == v
        })) by (bit_vector);
    }
}

} // verus!
