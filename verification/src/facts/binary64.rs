//! Binary64 numbers held as their 64 bit patterns: the sign in the top bit,
//! then eleven exponent bits and fifty-two fraction bits. Comparison and the
//! promotion of an integer to the nearest such number are done in integer
//! arithmetic on the pattern.

use vstd::arithmetic::div_mod::{
    lemma_div_denominator, lemma_fundamental_div_mod, lemma_fundamental_div_mod_converse,
};
use vstd::arithmetic::power2::{
    lemma2_to64, lemma2_to64_rest, lemma_pow2_pos, lemma_pow2_strictly_increases,
    lemma_pow2_unfold, pow2,
};
use vstd::prelude::*;

verus! {

/// How two values stand to each other.
#[derive(Clone, Copy, Debug, PartialEq, Eq, Structural)]
pub enum Relation {
    Less,
    Equal,
    Greater,
    /// Neither equal nor ordered.
    Unordered,
}

/// The pattern with only the sign bit set.
pub const SIGN_BIT: u64 = 0x8000_0000_0000_0000;

/// The pattern of positive infinity; a larger magnitude is not a number.
pub const INFINITY_BITS: u64 = 0x7ff0_0000_0000_0000;

/// Two to the power 52: the smallest normalised significand.
pub const HIDDEN_BIT: u64 = 0x0010_0000_0000_0000;

/// Two to the power 53: the first integer that is not a significand.
pub const SIGNIFICAND_LIMIT: u64 = 0x0020_0000_0000_0000;

/// The pattern of two to the power 63, the largest magnitude that a 64-bit
/// signed integer can be promoted to.
pub const PROMOTED_LIMIT: u64 = 0x43e0_0000_0000_0000;

/// How two integers stand to each other.
pub open spec fn int_relation(a: int, b: int) -> Relation {
    if a < b {
        Relation::Less
    } else if a == b {
        Relation::Equal
    } else {
        Relation::Greater
    }
}

/// The pattern without its sign bit.
pub open spec fn magnitude(bits: u64) -> int {
    if bits >= SIGN_BIT {
        bits - SIGN_BIT
    } else {
        bits as int
    }
}

/// Whether the pattern is not a number.
pub open spec fn is_nan(bits: u64) -> bool {
    magnitude(bits) > INFINITY_BITS
}

/// An integer that orders the patterns as the numbers they denote are
/// ordered: for two patterns that are numbers, the first denotes the smaller
/// number exactly when its rank is smaller, and both zeros have rank 0.
pub open spec fn rank(bits: u64) -> int {
    if bits >= SIGN_BIT {
        -magnitude(bits)
    } else {
        magnitude(bits)
    }
}

/// How the numbers denoted by two patterns stand to each other. What is not
/// a number is unordered with everything, itself included.
pub open spec fn bits_relation(a: u64, b: u64) -> Relation {
    if is_nan(a) || is_nan(b) {
        Relation::Unordered
    } else {
        int_relation(rank(a), rank(b))
    }
}

/// The number of low bits of `m` that do not fit into a significand.
pub open spec fn halvings(m: nat) -> nat
    decreases m,
{
    if m < SIGNIFICAND_LIMIT {
        0
    } else {
        1 + halvings(m / 2)
    }
}

/// The number of times a positive `m` is doubled to reach a normalised
/// significand.
pub open spec fn doublings(m: nat) -> nat
    decreases SIGNIFICAND_LIMIT - m,
{
    if m == 0 || m >= HIDDEN_BIT {
        0
    } else {
        1 + doublings(2 * m)
    }
}

/// The magnitude of the pattern of the number nearest to the integer `m`.
/// Up to 53 bits `m` is kept exactly. Beyond that its low bits are dropped
/// and the rest is rounded to nearest, a tie going to the even significand.
pub open spec fn nearest_magnitude(m: nat) -> int {
    if m == 0 {
        0
    } else if m < SIGNIFICAND_LIMIT {
        let d = doublings(m);
        (1075 - d) * HIDDEN_BIT + (m * pow2(d) - HIDDEN_BIT)
    } else {
        let h = halvings(m);
        let unit = pow2(h);
        let kept = m / unit;
        let dropped = m % unit;
        let up: int = if 2 * dropped > unit || (2 * dropped == unit && kept % 2 == 1) {
            1
        } else {
            0
        };
        (1075 + h) * HIDDEN_BIT + (kept + up - HIDDEN_BIT)
    }
}

/// The pattern of the number that the integer `n` is promoted to.
pub open spec fn promoted_bits(n: int) -> u64 {
    if n < 0 {
        (SIGN_BIT + nearest_magnitude((-n) as nat)) as u64
    } else {
        nearest_magnitude(n as nat) as u64
    }
}

/// Doubling a small positive integer until it is normalised takes at most 52
/// steps and ends below two to the power 53.
pub proof fn lemma_doublings(m: nat)
    requires
        0 < m < SIGNIFICAND_LIMIT,
    ensures
        doublings(m) <= 52,
        HIDDEN_BIT <= m * pow2(doublings(m)) < SIGNIFICAND_LIMIT,
        pow2(doublings(m)) <= m * pow2(doublings(m)),
    decreases SIGNIFICAND_LIMIT - m,
{
    lemma2_to64();
    if m >= HIDDEN_BIT {
        assert(m * pow2(0) == m);
    } else {
        lemma_doublings(2 * m);
        let d = doublings(2 * m);
        lemma_pow2_unfold(d + 1);
        lemma_pow2_pos(d);
        assert((2 * m) * pow2(d) == m * (2 * pow2(d))) by (nonlinear_arith);
        assert(2 * pow2(d) <= m * (2 * pow2(d))) by (nonlinear_arith)
            requires
                m >= 1,
                pow2(d) > 0,
        ;
        if d + 1 > 52 {
            lemma2_to64_rest();
            if d + 1 > 53 {
                lemma_pow2_strictly_increases(53, d + 1);
            }
            assert(pow2(d + 1) >= SIGNIFICAND_LIMIT);
        }
    }
}

/// Halving an integer until it fits into a significand leaves a normalised
/// significand; below two to the power 64 that takes at most 11 steps.
pub proof fn lemma_halvings(m: nat)
    requires
        m >= SIGNIFICAND_LIMIT,
    ensures
        HIDDEN_BIT <= m / pow2(halvings(m)) < SIGNIFICAND_LIMIT,
        m <= u64::MAX ==> halvings(m) <= 11,
    decreases m,
{
    lemma2_to64();
    let half = m / 2;
    let h = halvings(half);
    lemma_pow2_pos(h);
    lemma_pow2_unfold(h + 1);
    lemma_div_denominator(m as int, 2, pow2(h) as int);
    if half >= SIGNIFICAND_LIMIT {
        lemma_halvings(half);
    } else {
        assert(half / pow2(0) == half);
    }
    let unit = pow2(h + 1);
    let kept = m / unit;
    assert(kept == half / pow2(h));
    if m <= u64::MAX && h + 1 > 11 {
        lemma_fundamental_div_mod(m as int, unit as int);
        if h + 1 > 12 {
            lemma_pow2_strictly_increases(12, h + 1);
        }
        assert(unit >= 0x1000);
        assert(unit * kept >= 0x1000 * HIDDEN_BIT) by (nonlinear_arith)
            requires
                unit >= 0x1000,
                kept >= HIDDEN_BIT,
        ;
        assert(false);
    }
}

/// The promotion of a 64-bit signed integer is a number, and its magnitude
/// is at most that of two to the power 63.
pub proof fn lemma_nearest_magnitude_bound(m: nat)
    requires
        m <= SIGN_BIT,
    ensures
        0 <= nearest_magnitude(m) <= PROMOTED_LIMIT,
        m > 0 ==> nearest_magnitude(m) >= 1023 * HIDDEN_BIT,
{
    lemma2_to64();
    if m == 0 {
    } else if m < SIGNIFICAND_LIMIT {
        lemma_doublings(m);
    } else {
        lemma_halvings(m);
        let h = halvings(m);
        let unit = pow2(h);
        lemma_pow2_pos(h);
        let kept = m / unit;
        lemma_fundamental_div_mod(m as int, unit as int);
        if h == 11 {
            // With eleven bits dropped the magnitude is two to the power 63
            // itself, which is kept exactly.
            assert(unit == 0x800);
            assert(kept <= HIDDEN_BIT);
            assert(m % unit >= 0);
            assert(2 * (m % unit) < unit || kept < HIDDEN_BIT) by {
                if kept == HIDDEN_BIT {
                    assert(unit * kept == SIGN_BIT) by (nonlinear_arith)
                        requires
                            unit == 0x800,
                            kept == HIDDEN_BIT,
                    ;
                }
            }
        }
    }
}

/// The larger of two positive integers needs no more doublings.
pub proof fn lemma_doublings_shrink(a: nat, b: nat)
    requires
        0 < a <= b,
    ensures
        doublings(a) >= doublings(b),
    decreases SIGNIFICAND_LIMIT - a,
{
    if a < HIDDEN_BIT && b < HIDDEN_BIT {
        lemma_doublings_shrink(2 * a, 2 * b);
    }
}

/// Promotion keeps the order of two magnitudes of which the smaller has at
/// most 53 bits: such a magnitude is promoted exactly, and every larger one
/// to a larger number.
pub proof fn lemma_nearest_magnitude_order(a: nat, b: nat)
    requires
        a < b <= SIGN_BIT,
        a < SIGNIFICAND_LIMIT,
    ensures
        nearest_magnitude(a) < nearest_magnitude(b),
{
    lemma2_to64();
    lemma_nearest_magnitude_bound(a);
    lemma_nearest_magnitude_bound(b);
    if a > 0 {
        lemma_doublings(a);
        if b < SIGNIFICAND_LIMIT {
            lemma_doublings(b);
            lemma_doublings_shrink(a, b);
            let d = doublings(a);
            if doublings(b) == d {
                lemma_pow2_pos(d);
                assert(a * pow2(d) < b * pow2(d)) by (nonlinear_arith)
                    requires
                        a < b,
                        pow2(d) > 0,
                ;
            }
        } else {
            lemma_halvings(b);
        }
    }
}

/// The rank of the number that an integer is promoted to.
pub open spec fn promoted_rank(n: int) -> int {
    rank(promoted_bits(n))
}

/// Promotion keeps the order of two 64-bit signed integers of which at least
/// one has a magnitude below two to the power 53.
pub proof fn lemma_promotion_keeps_order(x: int, y: int)
    requires
        i64::MIN <= x <= i64::MAX,
        i64::MIN <= y <= i64::MAX,
        -SIGNIFICAND_LIMIT < x < SIGNIFICAND_LIMIT || -SIGNIFICAND_LIMIT < y < SIGNIFICAND_LIMIT,
    ensures
        !is_nan(promoted_bits(x)),
        !is_nan(promoted_bits(y)),
        int_relation(promoted_rank(x), promoted_rank(y)) == int_relation(x, y),
{
    let a: nat = if x < 0 {
        (-x) as nat
    } else {
        x as nat
    };
    let b: nat = if y < 0 {
        (-y) as nat
    } else {
        y as nat
    };
    lemma_nearest_magnitude_bound(a);
    lemma_nearest_magnitude_bound(b);
    if a < b {
        lemma_nearest_magnitude_order(a, b);
    } else if b < a {
        lemma_nearest_magnitude_order(b, a);
    }
}

/// How two integers stand to each other.
pub fn compare_ints(a: i64, b: i64) -> (r: Relation)
    ensures
        r == int_relation(a as int, b as int),
{
    if a < b {
        Relation::Less
    } else if a == b {
        Relation::Equal
    } else {
        Relation::Greater
    }
}

/// The rank of a pattern that is a number.
fn rank_of(bits: u64) -> (r: i64)
    requires
        !is_nan(bits),
    ensures
        r == rank(bits),
{
    if bits >= SIGN_BIT {
        -((bits - SIGN_BIT) as i64)
    } else {
        bits as i64
    }
}

/// Whether the pattern is not a number.
pub fn bits_are_nan(bits: u64) -> (r: bool)
    ensures
        r == is_nan(bits),
{
    if bits >= SIGN_BIT {
        bits - SIGN_BIT > INFINITY_BITS
    } else {
        bits > INFINITY_BITS
    }
}

/// How the numbers denoted by two patterns stand to each other.
pub fn compare_bits(a: u64, b: u64) -> (r: Relation)
    ensures
        r == bits_relation(a, b),
{
    if bits_are_nan(a) || bits_are_nan(b) {
        Relation::Unordered
    } else {
        compare_ints(rank_of(a), rank_of(b))
    }
}

/// The magnitude of the pattern nearest to a positive integer.
fn nearest_pattern(m: u64) -> (pattern: u64)
    requires
        0 < m <= SIGN_BIT,
    ensures
        pattern == nearest_magnitude(m as nat),
        pattern <= PROMOTED_LIMIT,
{
    proof {
        lemma2_to64();
        lemma_nearest_magnitude_bound(m as nat);
    }
    if m < SIGNIFICAND_LIMIT {
        let mut scaled: u64 = m;
        let mut d: u64 = 0;
        assert(m * pow2(0) == m);
        while scaled < HIDDEN_BIT
            invariant
                0 < m,
                0 < scaled < SIGNIFICAND_LIMIT,
                scaled == m * pow2(d as nat),
                doublings(m as nat) == d + doublings(scaled as nat),
                d <= 52,
            decreases SIGNIFICAND_LIMIT - scaled,
        {
            proof {
                lemma_doublings(m as nat);
                lemma_pow2_unfold((d + 1) as nat);
                assert((2 * m) * pow2(d as nat) == m * (2 * pow2(d as nat))) by (nonlinear_arith);
                assert(2 * (m * pow2(d as nat)) == (2 * m) * pow2(d as nat)) by (nonlinear_arith);
            }
            scaled = scaled * 2;
            d = d + 1;
        }
        (1075 - d) * HIDDEN_BIT + (scaled - HIDDEN_BIT)
    } else {
        let mut kept: u64 = m;
        let mut dropped: u64 = 0;
        let mut unit: u64 = 1;
        let mut h: u64 = 0;
        proof {
            lemma_halvings(m as nat);
        }
        while kept >= SIGNIFICAND_LIMIT
            invariant
                m == kept * unit + dropped,
                dropped < unit,
                unit == pow2(h as nat),
                halvings(m as nat) == h + halvings(kept as nat),
                halvings(m as nat) <= 11,
                h <= 11,
                kept >= HIDDEN_BIT,
            decreases kept,
        {
            proof {
                lemma2_to64();
                lemma_pow2_unfold((h + 1) as nat);
                if h + 1 > 11 {
                    lemma_halvings(kept as nat);
                    assert(false);
                }
                lemma_pow2_strictly_increases((h + 1) as nat, 12);
                assert(kept * unit + dropped == (kept / 2) * (unit * 2) + (dropped + (kept % 2)
                    * unit)) by (nonlinear_arith)
                    requires
                        kept == 2 * (kept / 2) + kept % 2,
                ;
                assert((kept % 2) * unit <= unit) by (nonlinear_arith)
                    requires
                        0 <= kept % 2 <= 1,
                        unit >= 0,
                ;
            }
            dropped = dropped + (kept % 2) * unit;
            kept = kept / 2;
            unit = unit * 2;
            h = h + 1;
        }
        proof {
            lemma_fundamental_div_mod_converse(m as int, unit as int, kept as int, dropped as int);
        }
        let up: u64 = if dropped > unit - dropped || (dropped == unit - dropped && kept % 2 == 1) {
            1
        } else {
            0
        };
        (1075 + h) * HIDDEN_BIT + (kept + up - HIDDEN_BIT)
    }
}

/// The pattern of the number that `n` is promoted to in a comparison with a
/// binary64 number: `n` itself where it has at most 53 significant bits, and
/// the nearest number otherwise.
pub fn promote(n: i64) -> (bits: u64)
    ensures
        bits == promoted_bits(n as int),
        !is_nan(bits),
{
    proof {
        lemma_nearest_magnitude_bound(if n < 0 {
            (-n) as nat
        } else {
            n as nat
        });
    }
    if n == 0 {
        0
    } else if n < 0 {
        let m: u64 = (-(n + 1)) as u64 + 1;
        SIGN_BIT + nearest_pattern(m)
    } else {
        nearest_pattern(n as u64)
    }
}

} // verus!
