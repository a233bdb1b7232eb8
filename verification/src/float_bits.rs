//! Comparisons of single-precision numbers that are held as their bit patterns.
//!
//! The sign is the highest bit, and the other bits order the magnitudes; a pattern whose
//! magnitude lies above that of infinity is not a number.

use vstd::arithmetic::power2::{lemma_pow2_pos, lemma_pow2_strictly_increases, lemma_pow2_unfold, pow2};
use vstd::prelude::*;

verus! {

/// The bits that hold the magnitude.
pub const MAGNITUDE_MASK: u32 = 0x7fff_ffff;

/// The magnitude of infinity.
pub const INFINITE_MAGNITUDE: u32 = 0x7f80_0000;

/// The magnitude of a pattern.
pub open spec fn magnitude(bits: u32) -> u32 {
    bits & MAGNITUDE_MASK
}

/// Whether a pattern is not a number.
pub open spec fn is_nan(bits: u32) -> bool {
    magnitude(bits) > INFINITE_MAGNITUDE
}

/// An integer that orders the patterns that are numbers as the numbers are ordered; both
/// zeros have the same one.
pub open spec fn rank(bits: u32) -> int {
    if bits > MAGNITUDE_MASK {
        -(magnitude(bits) as int)
    } else {
        magnitude(bits) as int
    }
}

/// Whether two patterns are equal numbers.
pub open spec fn equal(a: u32, b: u32) -> bool {
    !is_nan(a) && !is_nan(b) && rank(a) == rank(b)
}

/// Whether the number `a` is below the number `b`.
pub open spec fn below(a: u32, b: u32) -> bool {
    !is_nan(a) && !is_nan(b) && rank(a) < rank(b)
}

fn rank_of(bits: u32) -> (r: i64)
    ensures
        r == rank(bits),
{
    let m: u32 = bits & MAGNITUDE_MASK;
    if bits > MAGNITUDE_MASK {
        -(m as i64)
    } else {
        m as i64
    }
}

fn nan(bits: u32) -> (yes: bool)
    ensures
        yes == is_nan(bits),
{
    (bits & MAGNITUDE_MASK) > INFINITE_MAGNITUDE
}

/// Whether two patterns are equal numbers.
pub fn float_eq(a: u32, b: u32) -> (yes: bool)
    ensures
        yes == equal(a, b),
{
    !nan(a) && !nan(b) && rank_of(a) == rank_of(b)
}

/// Whether the number `a` is below the number `b`.
pub fn float_lt(a: u32, b: u32) -> (yes: bool)
    ensures
        yes == below(a, b),
{
    !nan(a) && !nan(b) && rank_of(a) < rank_of(b)
}

/// The pattern of the absolute value: the sign bit is cleared.
pub fn float_abs(bits: u32) -> (abs: u32)
    ensures
        abs == magnitude(bits),
{
    bits & MAGNITUDE_MASK
}

/// The bit that holds the sign.
pub const SIGN_BIT: u32 = 0x8000_0000;

/// The pattern of the negated number.
pub open spec fn negated(bits: u32) -> u32 {
    bits ^ SIGN_BIT
}

/// The pattern of the negated number: the sign bit is turned over.
pub fn float_neg(bits: u32) -> (neg: u32)
    ensures
        neg == negated(bits),
{
    bits ^ SIGN_BIT
}

/// Negation keeps the magnitude, turns the order round, and undoes itself.
pub proof fn law_negation(bits: u32)
    ensures
        magnitude(negated(bits)) == magnitude(bits),
        rank(negated(bits)) == -rank(bits),
        negated(negated(bits)) == bits,
{
    assert((bits ^ 0x8000_0000) & 0x7fff_ffff == bits & 0x7fff_ffff) by (bit_vector);
    assert((bits ^ 0x8000_0000) ^ 0x8000_0000 == bits) by (bit_vector);
    assert(bits > 0x7fff_ffff <==> !((bits ^ 0x8000_0000) > 0x7fff_ffff)) by (bit_vector);
}

/// The absolute value is not negative and has the same magnitude.
pub proof fn law_abs_is_nonnegative(bits: u32)
    ensures
        rank(magnitude(bits)) >= 0,
        magnitude(magnitude(bits)) == magnitude(bits),
        is_nan(magnitude(bits)) == is_nan(bits),
{
    assert(((bits & 0x7fff_ffff) & 0x7fff_ffff) == (bits & 0x7fff_ffff) && (bits & 0x7fff_ffff)
        <= 0x7fff_ffff) by (bit_vector);
}

/// What the patterns stand for, by where they lie: those with the sign bit clear stand in the
/// order of their numbers, the others mirror them, and the patterns beyond either infinity are
/// no numbers.
pub proof fn law_patterns(bits: u32)
    ensures
        bits < 0x8000_0000 ==> rank(bits) == bits && magnitude(bits) == bits && negated(bits)
            == bits + 0x8000_0000,
        bits >= 0x8000_0000 ==> rank(bits) == 0x8000_0000 - bits && magnitude(bits) == bits
            - 0x8000_0000 && negated(bits) == bits - 0x8000_0000,
        is_nan(bits) <==> 0x7f80_0000 < bits < 0x8000_0000 || bits > 0xff80_0000,
{
    assert(bits < 0x8000_0000 ==> bits & 0x7fff_ffff == bits && bits ^ 0x8000_0000 == (bits
        + 0x8000_0000) as u32) by (bit_vector);
    assert(bits >= 0x8000_0000 ==> bits & 0x7fff_ffff == (bits - 0x8000_0000) as u32 && bits
        ^ 0x8000_0000 == (bits - 0x8000_0000) as u32) by (bit_vector);
}

/// Of two numbers exactly one of three holds: the first is below the second, the second below
/// the first, or they are equal. What is no number is neither below nor equal to anything, and
/// the two zeros are the only distinct patterns that are equal.
pub proof fn law_numbers_are_ordered(a: u32, b: u32)
    ensures
        is_nan(a) || is_nan(b) ==> !below(a, b) && !equal(a, b),
        !is_nan(a) && !is_nan(b) ==> (below(a, b) || below(b, a) || equal(a, b)),
        !(below(a, b) && below(b, a)),
        !(below(a, b) && equal(a, b)),
        equal(a, b) <==> !is_nan(a) && (a == b || ((a == 0 || a == 0x8000_0000) && (b == 0 || b
            == 0x8000_0000))),
        !is_nan(a) && !is_nan(b) && a < 0x8000_0000 && b < 0x8000_0000 ==> (below(a, b) <==> a < b),
        !is_nan(a) && !is_nan(b) && a >= 0x8000_0000 && b >= 0x8000_0000 ==> (below(a, b) <==> b
            < a),
        !is_nan(a) && !is_nan(b) && 0x8000_0000 < a && b < 0x8000_0000 ==> below(a, b),
        below(0, b) <==> 0 < b <= 0x7f80_0000,
        below(b, 0) <==> 0x8000_0000 < b <= 0xff80_0000,
{
    law_patterns(a);
    law_patterns(b);
    law_patterns(0);
}

/// The weight of the lowest bit of the exponent.
pub const EXPONENT_UNIT: u32 = 0x80_0000;

/// The significand of a pattern that is not negative: the fraction bits, below a leading one
/// unless the exponent is the lowest.
pub open spec fn significand(bits: u32) -> nat {
    if bits < EXPONENT_UNIT {
        bits as nat
    } else {
        (bits % EXPONENT_UNIT + EXPONENT_UNIT) as nat
    }
}

/// The power of two that the significand of a pattern that is not negative is multiplied by.
pub open spec fn exponent(bits: u32) -> int {
    if bits < EXPONENT_UNIT {
        -149
    } else {
        bits / EXPONENT_UNIT - 150
    }
}

/// The whole part of the number divided by the `k`-th power of two; the pattern is not
/// negative.
pub open spec fn floor_scaled(bits: u32, k: nat) -> nat {
    let e = exponent(bits) - k;
    if e >= 0 {
        significand(bits) * pow2(e as nat)
    } else {
        significand(bits) / pow2((-e) as nat)
    }
}

/// The same quotient, rounded up.
pub open spec fn ceil_scaled(bits: u32, k: nat) -> nat {
    let e = exponent(bits) - k;
    if e >= 0 {
        significand(bits) * pow2(e as nat)
    } else {
        (significand(bits) + pow2((-e) as nat) - 1) as nat / pow2((-e) as nat)
    }
}

/// The number cut to a whole number from 0 to the largest one of 32 bits; what is not a
/// number becomes 0.
pub open spec fn whole_number(bits: u32) -> u32 {
    if is_nan(bits) || bits > MAGNITUDE_MASK {
        0
    } else if floor_scaled(bits, 0) > u32::MAX {
        u32::MAX
    } else {
        floor_scaled(bits, 0) as u32
    }
}

fn power_of_two(n: u32) -> (p: u64)
    requires
        n <= 32,
    ensures
        p == pow2(n as nat),
        0 < p <= 0x1_0000_0000,
{
    let mut p: u64 = 1;
    let mut i: u32 = 0;
    proof {
        vstd::arithmetic::power2::lemma2_to64();
    }
    while i < n
        invariant
            i <= n <= 32,
            p == pow2(i as nat),
            pow2(32) == 0x1_0000_0000,
        decreases n - i,
    {
        proof {
            lemma_pow2_unfold((i + 1) as nat);
            if i + 1 < 32 {
                lemma_pow2_strictly_increases((i + 1) as nat, 32);
            }
        }
        p = p * 2;
        i += 1;
    }
    proof {
        lemma_pow2_pos(n as nat);
        if n < 32 {
            lemma_pow2_strictly_increases(n as nat, 32);
        }
    }
    p
}

/// The number cut to a whole number.
pub fn float_to_whole(bits: u32) -> (whole: u32)
    ensures
        whole == whole_number(bits),
{
    if nan(bits) || bits > MAGNITUDE_MASK {
        return 0;
    }
    if bits < EXPONENT_UNIT {
        proof {
            lemma_small_quotient(bits as nat, 149);
        }
        return 0;
    }
    let m: u32 = bits % EXPONENT_UNIT + EXPONENT_UNIT;
    let unit: u32 = bits / EXPONENT_UNIT;
    if unit < 150 {
        let down: u32 = 150 - unit;
        if down >= 24 {
            proof {
                lemma_small_quotient(m as nat, down as nat);
            }
            return 0;
        }
        let p: u64 = power_of_two(down);
        let q: u64 = m as u64 / p;
        proof {
            assert(m as u64 / p <= m as u64) by (nonlinear_arith)
                requires
                    p >= 1,
            ;
        }
        return q as u32;
    }
    let up: u32 = unit - 150;
    if up >= 9 {
        proof {
            lemma_large_product(m as nat, up as nat);
        }
        return u32::MAX;
    }
    let p: u64 = power_of_two(up);
    proof {
        lemma_pow2_nine(up as nat);
        assert(m as nat * p as nat <= 0xff_ffff * 256) by (nonlinear_arith)
            requires
                m as nat <= 0xff_ffff,
                p as nat <= 256,
        ;
    }
    let r: u64 = m as u64 * p;
    r as u32
}

proof fn lemma_pow2_nine(up: nat)
    requires
        up < 9,
    ensures
        pow2(up) <= 256,
{
    vstd::arithmetic::power2::lemma2_to64();
    if up < 8 {
        lemma_pow2_strictly_increases(up, 8);
    }
}

proof fn lemma_small_quotient(m: nat, down: nat)
    requires
        m < 0x100_0000,
        down >= 24,
    ensures
        m / pow2(down) == 0,
        m < pow2(down),
{
    vstd::arithmetic::power2::lemma2_to64();
    if down > 24 {
        lemma_pow2_strictly_increases(24, down);
    }
    vstd::arithmetic::div_mod::lemma_basic_div(m as int, pow2(down) as int);
}

proof fn lemma_large_product(m: nat, up: nat)
    requires
        m >= 0x80_0000,
        up >= 9,
    ensures
        m * pow2(up) > u32::MAX,
{
    vstd::arithmetic::power2::lemma2_to64();
    if up > 9 {
        lemma_pow2_strictly_increases(9, up);
    }
    assert(m * pow2(up) >= 0x80_0000 * 512) by (nonlinear_arith)
        requires
            m >= 0x80_0000,
            pow2(up) >= 512,
    ;
}

/// The pattern, or that of zero where the number is not above zero.
pub open spec fn at_least_zero(bits: u32) -> u32 {
    if below(0, bits) {
        bits
    } else {
        0
    }
}

/// The larger of a number and zero; what is not a number becomes zero.
pub fn float_at_least_zero(bits: u32) -> (larger: u32)
    ensures
        larger == at_least_zero(bits),
{
    if float_lt(0, bits) {
        bits
    } else {
        0
    }
}

/// The binary logarithm of the edge of a chunk.
pub const CHUNK_LG: u32 = 5;

/// The largest pattern whose number, divided by the edge of a chunk, is rounded to zero.
pub const VANISHING: u32 = 16;

/// The number of chunks that a distance reaches over, rounded up; negative distances round
/// towards zero, and what is not a number reaches nowhere.
pub open spec fn chunks_over(bits: u32) -> int {
    if is_nan(bits) {
        0
    } else if bits > MAGNITUDE_MASK {
        -(floor_scaled(magnitude(bits), CHUNK_LG as nat) as int)
    } else if bits <= VANISHING {
        0
    } else {
        ceil_scaled(bits, CHUNK_LG as nat) as int
    }
}

/// The parts of a pattern that is not negative: its significand, and how far its exponent lies
/// above that of the smallest numbers.
fn parts(bits: u32) -> (split: (u32, u32))
    requires
        bits <= MAGNITUDE_MASK,
    ensures
        split.0 == significand(bits),
        split.1 == exponent(bits) + 149,
        split.0 < 0x100_0000,
        split.1 > 0 ==> split.0 >= 0x80_0000,
        split.1 <= 254,
{
    if bits < EXPONENT_UNIT {
        (bits, 0)
    } else {
        (bits % EXPONENT_UNIT + EXPONENT_UNIT, bits / EXPONENT_UNIT - 1)
    }
}

/// A natural number cut to 32 bits.
pub open spec fn at_most_u32(n: nat) -> nat {
    if n > u32::MAX {
        u32::MAX as nat
    } else {
        n
    }
}

/// A number cut to 32 bits with a sign.
pub open spec fn within_i32(n: int) -> int {
    if n > i32::MAX {
        i32::MAX as int
    } else if n < i32::MIN {
        i32::MIN as int
    } else {
        n
    }
}

/// The product of a significand and a power of two, cut to 32 bits.
fn scale_up(m: u32, up: u32) -> (r: u32)
    requires
        0x80_0000 <= m < 0x100_0000,
    ensures
        r == at_most_u32(m as nat * pow2(up as nat)),
{
    if up >= 9 {
        proof {
            lemma_large_product(m as nat, up as nat);
        }
        return u32::MAX;
    }
    let p: u64 = power_of_two(up);
    proof {
        lemma_pow2_nine(up as nat);
        assert(m as nat * p as nat <= 0xff_ffff * 256) by (nonlinear_arith)
            requires
                m as nat <= 0xff_ffff,
                p as nat <= 256,
        ;
    }
    let r: u64 = m as u64 * p;
    r as u32
}

/// The quotient of a number and the edge of a chunk, rounded down and cut to 32 bits.
fn chunk_floor(bits: u32) -> (q: u32)
    requires
        bits <= MAGNITUDE_MASK,
    ensures
        q == at_most_u32(floor_scaled(bits, CHUNK_LG as nat)),
{
    let (m, e): (u32, u32) = parts(bits);
    if e >= 154 {
        return scale_up(m, e - 154);
    }
    let down: u32 = 154 - e;
    if down >= 24 {
        proof {
            lemma_small_quotient(m as nat, down as nat);
        }
        return 0;
    }
    let p: u64 = power_of_two(down);
    let q: u64 = m as u64 / p;
    q as u32
}

/// The quotient of a number and the edge of a chunk, rounded up and cut to 32 bits.
fn chunk_ceil(bits: u32) -> (q: u32)
    requires
        bits <= MAGNITUDE_MASK,
    ensures
        q == at_most_u32(ceil_scaled(bits, CHUNK_LG as nat)),
{
    let (m, e): (u32, u32) = parts(bits);
    if e >= 154 {
        return scale_up(m, e - 154);
    }
    let down: u32 = 154 - e;
    if down >= 24 {
        proof {
            lemma_small_quotient(m as nat, down as nat);
            lemma_tiny_ceiling(m as nat, pow2(down as nat));
        }
        return if m > 0 {
            1
        } else {
            0
        };
    }
    let p: u64 = power_of_two(down);
    let q: u64 = (m as u64 + (p - 1)) / p;
    proof {
        lemma_ceiling_fits(m as int, p as int);
    }
    q as u32
}

proof fn lemma_ceiling_fits(m: int, p: int)
    requires
        0 <= m,
        1 <= p,
    ensures
        (m + (p - 1)) / p <= m,
{
    let q = (m + (p - 1)) / p;
    assert(q * p <= m + (p - 1)) by (nonlinear_arith)
        requires
            q == (m + (p - 1)) / p,
            1 <= p,
    ;
    assert(q <= m) by (nonlinear_arith)
        requires
            q * p <= m + (p - 1),
            0 <= m,
            1 <= p,
    ;
}

proof fn lemma_tiny_ceiling(m: nat, p: nat)
    requires
        m < p,
    ensures
        (m + p - 1) as nat / p == if m > 0 {
            1nat
        } else {
            0nat
        },
{
    if m > 0 {
        assert((m + p - 1) as nat / p == 1) by (nonlinear_arith)
            requires
                0 < m < p,
        ;
    } else {
        assert((p - 1) as nat / p == 0) by (nonlinear_arith)
            requires
                p > 0,
        ;
    }
}

/// The number of chunks that a distance reaches over, cut to 32 bits.
pub fn float_chunks_over(bits: u32) -> (chunks: i32)
    ensures
        chunks == within_i32(chunks_over(bits)),
{
    if nan(bits) {
        return 0;
    }
    if bits > MAGNITUDE_MASK {
        let m: u32 = bits & MAGNITUDE_MASK;
        proof {
            assert(bits & 0x7fff_ffff <= 0x7fff_ffff) by (bit_vector);
        }
        let q: u32 = chunk_floor(m);
        return if q > i32::MAX as u32 {
            i32::MIN
        } else {
            -(q as i32)
        };
    }
    if bits <= VANISHING {
        return 0;
    }
    let q: u32 = chunk_ceil(bits);
    if q > i32::MAX as u32 {
        i32::MAX
    } else {
        q as i32
    }
}

/// A distance that is not above 400 reaches over no more than 13 chunks.
pub proof fn lemma_chunks_over_at_most(bits: u32)
    requires
        !below(0x43c8_0000, bits),
    ensures
        chunks_over(bits) <= 13,
{
    assert(bits <= 0x7fff_ffff ==> bits & 0x7fff_ffff == bits) by (bit_vector);
    assert(0x43c8_0000u32 & 0x7fff_ffff == 0x43c8_0000) by (bit_vector);
    if !is_nan(bits) && VANISHING < bits <= MAGNITUDE_MASK {
        assert(bits <= 0x43c8_0000);
        let m = significand(bits);
        let down = (CHUNK_LG - exponent(bits)) as nat;
        vstd::arithmetic::power2::lemma2_to64();
        if bits >= 0x4380_0000 {
            assert(bits / EXPONENT_UNIT == 135);
            assert(m <= 0xc8_0000);
            assert(pow2(down) == 0x10_0000);
            lemma_ceiling_at_most(m, pow2(down), 13);
        } else {
            assert(down >= 21);
            if down > 21 {
                lemma_pow2_strictly_increases(21, down);
            }
            assert(pow2(down) >= 0x20_0000);
            lemma_ceiling_at_most(m, pow2(down), 8);
        }
    }
}

proof fn lemma_ceiling_at_most(m: nat, p: nat, n: nat)
    requires
        p > 0,
        m <= n * p,
    ensures
        (m + p - 1) as nat / p <= n,
{
    assert((m + p - 1) / (p as int) <= n) by (nonlinear_arith)
        requires
            p > 0,
            m <= n * p,
    ;
}

/// What a pattern with the sign bit clear is worth: the lowest patterns count up in equal steps,
/// and from there on every further exponent doubles the worth of the pattern one exponent below.
pub proof fn law_exponents_double(bits: u32)
    requires
        bits < 0x8000_0000,
    ensures
        bits < 0x100_0000 ==> significand(bits) == bits && exponent(bits) == -149,
        bits >= 0x100_0000 ==> significand(bits) == significand((bits - 0x80_0000) as u32)
            && exponent(bits) == exponent((bits - 0x80_0000) as u32) + 1,
{
    if bits >= 0x100_0000 {
        let less = (bits - 0x80_0000) as u32;
        assert(bits % 0x80_0000 == less % 0x80_0000 && bits / 0x80_0000 == less / 0x80_0000 + 1);
    }
}

/// Rounding a worth in steps of a power of two: down gives the last step that is not above it,
/// up the first that is not below it.
pub proof fn law_rounding_is_tight(bits: u32, k: nat)
    ensures
        exponent(bits) >= k ==> floor_scaled(bits, k) == significand(bits) * pow2(
            (exponent(bits) - k) as nat,
        ) && ceil_scaled(bits, k) == floor_scaled(bits, k),
        exponent(bits) < k ==> {
            let p = pow2((k - exponent(bits)) as nat);
            &&& floor_scaled(bits, k) * p <= significand(bits) < (floor_scaled(bits, k) + 1) * p
            &&& (ceil_scaled(bits, k) - 1) * p < significand(bits) <= ceil_scaled(bits, k) * p
        },
{
    if exponent(bits) < k {
        let p = pow2((k - exponent(bits)) as nat) as int;
        lemma_pow2_pos((k - exponent(bits)) as nat);
        let m = significand(bits) as int;
        lemma_between(m, p);
        lemma_between(m + p - 1, p);
        let c = (m + p - 1) / p;
        assert((c + 1) * p == c * p + p && (c - 1) * p == c * p - p) by (nonlinear_arith);
    }
}

proof fn lemma_between(m: int, p: int)
    requires
        m >= 0,
        p > 0,
    ensures
        (m / p) * p <= m < (m / p + 1) * p,
{
    vstd::arithmetic::div_mod::lemma_fundamental_div_mod(m, p);
    let q = m / p;
    assert(0 <= m % p < p);
    assert(q * p == p * q && (q + 1) * p == p * q + p) by (nonlinear_arith);
}

/// The whole number in a pattern: nothing in what is negative or no number, the largest where
/// it would not fit, and else its worth rounded down.
pub proof fn law_whole_number_rounds_down(bits: u32)
    ensures
        bits >= 0x8000_0000 || bits > 0x7f80_0000 ==> whole_number(bits) == 0,
        bits <= 0x7f80_0000 && exponent(bits) < 0 ==> whole_number(bits) == floor_scaled(bits, 0),
        bits <= 0x7f80_0000 && floor_scaled(bits, 0) <= u32::MAX ==> whole_number(bits)
            == floor_scaled(bits, 0),
        bits <= 0x7f80_0000 && floor_scaled(bits, 0) > u32::MAX ==> whole_number(bits) == u32::MAX,
        bits < 0x3f80_0000 ==> whole_number(bits) == 0,
{
    law_patterns(bits);
    if bits <= 0x7f80_0000 && exponent(bits) < 0 {
        law_rounding_is_tight(bits, 0);
        let p = pow2((-exponent(bits)) as nat);
        lemma_pow2_pos((-exponent(bits)) as nat);
        let q = floor_scaled(bits, 0);
        assert(significand(bits) < 0x100_0000);
        assert(q <= q * p) by (nonlinear_arith)
            requires
                p >= 1,
        ;
        if bits < 0x3f80_0000 {
            lemma_pow2_24();
            if exponent(bits) < -24 {
                lemma_pow2_strictly_increases(24, (-exponent(bits)) as nat);
            }
            assert(exponent(bits) <= -24);
            assert(significand(bits) < p);
            assert(q == 0) by (nonlinear_arith)
                requires
                    q * p < p,
                    q >= 0,
                    p >= 1,
            ;
        }
    }
}

proof fn lemma_pow2_24()
    ensures
        pow2(24) == 0x100_0000,
{
    vstd::arithmetic::power2::lemma2_to64();
}

/// The larger of a number and zero is never below zero, is the number itself where that is
/// above zero, and is zero for what is no number.
pub proof fn law_at_least_zero(bits: u32)
    ensures
        !below(at_least_zero(bits), 0),
        !is_nan(at_least_zero(bits)),
        0 < bits <= 0x7f80_0000 ==> at_least_zero(bits) == bits,
        !(0 < bits <= 0x7f80_0000) ==> at_least_zero(bits) == 0,
{
    law_numbers_are_ordered(0, bits);
    law_numbers_are_ordered(at_least_zero(bits), 0);
    law_patterns(at_least_zero(bits));
}

/// How many chunks a distance reaches over: every begun chunk counts in a positive one, unless
/// it is too small to count at all; of a negative one only whole chunks count, against it; what
/// is no number reaches nowhere. The count is held to what fits.
pub proof fn law_chunks_over_rounds_up(bits: u32)
    ensures
        is_nan(bits) ==> chunks_over(bits) == 0,
        bits <= 0x10 ==> chunks_over(bits) == 0,
        0x10 < bits <= 0x7f80_0000 ==> chunks_over(bits) == ceil_scaled(bits, 5),
        0x8000_0000 <= bits <= 0xff80_0000 ==> chunks_over(bits) == -(floor_scaled(
            (bits - 0x8000_0000) as u32,
            5,
        ) as int),
        -0x8000_0000 <= chunks_over(bits) < 0x8000_0000 ==> within_i32(chunks_over(bits))
            == chunks_over(bits),
        chunks_over(bits) >= 0x8000_0000 ==> within_i32(chunks_over(bits)) == 0x7fff_ffff,
        chunks_over(bits) < -0x8000_0000 ==> within_i32(chunks_over(bits)) == -0x8000_0000,
{
    law_patterns(bits);
}

} // verus!
