//! Scores: single precision floating point numbers, held in the 32 bits that they
//! are written with.
//!
//! The top bit is the sign, the next eight are the exponent and the other 23 the
//! fraction. Without its sign such a number grows with its bits.

use vstd::arithmetic::power2::{
    lemma2_to64, lemma_pow2_adds, lemma_pow2_pos, lemma_pow2_strictly_increases, lemma_pow2_unfold,
    pow2,
};
use vstd::prelude::*;

verus! {

/// The value of the sign bit.
pub const SIGN: u32 = 0x8000_0000;

/// The bits of infinity.
pub const INFINITY: u32 = 0x7f80_0000;

/// One more than the largest fraction.
pub const FRACTION: u32 = 0x80_0000;

/// The bits without the sign.
pub open spec fn magnitude(bits: u32) -> nat {
    (if bits >= SIGN {
        bits - SIGN
    } else {
        bits as int
    }) as nat
}

/// The bits are no number.
pub open spec fn is_nan(bits: u32) -> bool {
    magnitude(bits) > INFINITY
}

/// A number that orders as the bits do, where they are a number.
pub open spec fn rank(bits: u32) -> int {
    if bits >= SIGN {
        -magnitude(bits)
    } else {
        magnitude(bits) as int
    }
}

/// One score is at least the other. What is no number is never at least
/// anything, and nothing is at least it.
pub open spec fn at_least(a: u32, b: u32) -> bool {
    !is_nan(a) && !is_nan(b) && rank(a) >= rank(b)
}

/// The bits without the sign.
fn magnitude_of(bits: u32) -> (res: u32)
    ensures
        res == magnitude(bits),
        res < SIGN,
{
    if bits >= SIGN {
        bits - SIGN
    } else {
        bits
    }
}

/// Whether one score is at least the other.
pub fn score_at_least(a: u32, b: u32) -> (res: bool)
    ensures
        res == at_least(a, b),
{
    let left: u32 = magnitude_of(a);
    let right: u32 = magnitude_of(b);
    if left > INFINITY || right > INFINITY {
        false
    } else if a >= SIGN {
        if b >= SIGN {
            left <= right
        } else {
            left == 0 && right == 0
        }
    } else {
        b >= SIGN || left >= right
    }
}

/// The size of a number, in units of the smallest one above zero. Infinity
/// stands where the next finite number would.
pub open spec fn units(magnitude: nat) -> nat {
    let exponent = magnitude / (FRACTION as nat);
    let fraction = magnitude % (FRACTION as nat);
    if exponent == 0 {
        fraction
    } else {
        (FRACTION + fraction) as nat * pow2((exponent - 1) as nat)
    }
}

/// `magnitude` is the number nearest to a size, and where two are as near, the
/// one with the even bits.
pub open spec fn nearest(size: nat, magnitude: nat) -> bool {
    &&& magnitude <= INFINITY
    &&& magnitude > 0 ==> {
        let middle = units((magnitude - 1) as nat) + units(magnitude);
        if magnitude % 2 == 0 {
            middle <= 2 * size
        } else {
            middle < 2 * size
        }
    }
    &&& magnitude < INFINITY ==> {
        let middle = units(magnitude) + units(magnitude + 1);
        if magnitude % 2 == 0 {
            2 * size <= middle
        } else {
            2 * size < middle
        }
    }
}

/// `product` is ten times `bits`, rounded to the nearest number.
pub open spec fn is_ten_times(product: u32, bits: u32) -> bool {
    if is_nan(bits) {
        is_nan(product)
    } else {
        &&& (product >= SIGN) == (bits >= SIGN)
        &&& if magnitude(bits) == INFINITY {
            magnitude(product) == INFINITY
        } else {
            nearest(10 * units(magnitude(bits)), magnitude(product))
        }
    }
}

/// The size of a number whose leading bit is written out.
proof fn lemma_units(shift: nat, significand: nat)
    requires
        FRACTION <= significand <= 2 * FRACTION,
    ensures
        units((shift * FRACTION + significand) as nat) == significand * pow2(shift),
{
    let magnitude = (shift * FRACTION + significand) as nat;
    if significand < 2 * FRACTION {
        assert(magnitude / (FRACTION as nat) == shift + 1 && magnitude % (FRACTION as nat)
            == significand - FRACTION) by (nonlinear_arith)
            requires
                FRACTION == 0x80_0000,
                magnitude == shift * FRACTION + significand,
                FRACTION <= significand < 2 * FRACTION,
        ;
    } else {
        assert(magnitude / (FRACTION as nat) == shift + 2 && magnitude % (FRACTION as nat) == 0)
            by (nonlinear_arith)
            requires
                FRACTION == 0x80_0000,
                magnitude == shift * FRACTION + significand,
                significand == 2 * FRACTION,
        ;
        lemma_pow2_unfold(shift + 1);
        assert(FRACTION as nat * (2 * pow2(shift)) == (2 * FRACTION) as nat * pow2(shift))
            by (nonlinear_arith);
    }
}

/// The bits of a small number are its size.
proof fn lemma_small_units(magnitude: nat)
    requires
        magnitude <= 2 * FRACTION,
    ensures
        units(magnitude) == magnitude,
{
    if magnitude >= FRACTION {
        lemma2_to64();
        lemma_units(0, magnitude);
    }
}

/// A significand that is rounded to the nearest step gives the nearest number.
proof fn lemma_rounded(exact: nat, scale: nat, shift: nat, rounded: nat)
    requires
        shift >= 1,
        FRACTION * pow2(shift) <= exact,
        FRACTION <= rounded <= 2 * FRACTION,
        (2 * rounded - 1) * pow2(shift) <= 2 * exact <= (2 * rounded + 1) * pow2(shift),
        rounded % 2 == 1 ==> (2 * rounded - 1) * pow2(shift) < 2 * exact < (2 * rounded + 1)
            * pow2(shift),
    ensures
        ({
            let magnitude = ((scale + shift) * FRACTION + rounded) as nat;
            nearest(
                exact * pow2(scale),
                if magnitude <= INFINITY {
                    magnitude
                } else {
                    INFINITY as nat
                },
            )
        }),
{
    let magnitude = ((scale + shift) * FRACTION + rounded) as nat;
    let size = exact * pow2(scale);
    let step = pow2(scale + shift);
    lemma_pow2_pos(scale);
    lemma_pow2_pos(shift);
    lemma_pow2_pos(scale + shift);
    lemma_pow2_adds(scale, shift);
    assert((2 * rounded - 1) * step <= 2 * size <= (2 * rounded + 1) * step) by (nonlinear_arith)
        requires
            step == pow2(scale) * pow2(shift),
            size == exact * pow2(scale),
            pow2(scale) > 0,
            (2 * rounded - 1) * pow2(shift) <= 2 * exact <= (2 * rounded + 1) * pow2(shift),
    ;
    if rounded % 2 == 1 {
        assert((2 * rounded - 1) * step < 2 * size < (2 * rounded + 1) * step)
            by (nonlinear_arith)
            requires
                step == pow2(scale) * pow2(shift),
                size == exact * pow2(scale),
                pow2(scale) > 0,
                (2 * rounded - 1) * pow2(shift) < 2 * exact < (2 * rounded + 1) * pow2(shift),
        ;
    }
    assert(FRACTION * step <= size) by (nonlinear_arith)
        requires
            step == pow2(scale) * pow2(shift),
            size == exact * pow2(scale),
            pow2(scale) > 0,
            FRACTION * pow2(shift) <= exact,
    ;
    if magnitude <= INFINITY {
        lemma_units(scale + shift, rounded);
        assert(magnitude % 2 == rounded % 2) by (nonlinear_arith)
            requires
                FRACTION == 0x80_0000,
                magnitude == (scale + shift) * FRACTION + rounded,
        ;
        // The number above.
        if rounded < 2 * FRACTION {
            lemma_units(scale + shift, rounded + 1);
            assert(rounded * step + (rounded + 1) * step == (2 * rounded + 1) * step)
                by (nonlinear_arith);
            assert(units(magnitude + 1) == (rounded + 1) * step);
        } else {
            lemma_units(scale + shift + 1, (FRACTION + 1) as nat);
            lemma_pow2_unfold(scale + shift + 1);
            assert((scale + shift + 1) * FRACTION + FRACTION + 1 == magnitude + 1)
                by (nonlinear_arith)
                requires
                    magnitude == (scale + shift) * FRACTION + rounded,
                    rounded == 2 * FRACTION,
            ;
            assert(rounded * step + (FRACTION + 1) * (2 * step) > (2 * rounded + 1) * step)
                by (nonlinear_arith)
                requires
                    rounded == 2 * FRACTION,
                    step > 0,
            ;
        }
        // The number below.
        if rounded > FRACTION {
            lemma_units(scale + shift, (rounded - 1) as nat);
            assert(rounded * step + (rounded - 1) * step == (2 * rounded - 1) * step)
                by (nonlinear_arith);
        } else {
            lemma_units((scale + shift - 1) as nat, (2 * FRACTION - 1) as nat);
            lemma_pow2_unfold(scale + shift);
            assert((scale + shift - 1) * FRACTION + 2 * FRACTION - 1 == magnitude - 1)
                by (nonlinear_arith)
                requires
                    magnitude == (scale + shift) * FRACTION + rounded,
                    rounded == FRACTION,
            ;
            let half = pow2((scale + shift - 1) as nat);
            assert(rounded * step + (2 * FRACTION - 1) * half < 2 * (FRACTION * step))
                by (nonlinear_arith)
                requires
                    rounded == FRACTION,
                    step == 2 * half,
                    step > 0,
            ;
        }
    } else {
        assert(scale + shift >= 254) by (nonlinear_arith)
            requires
                FRACTION == 0x80_0000,
                (scale + shift) * FRACTION + rounded > 255 * FRACTION,
                rounded <= 2 * FRACTION,
        ;
        if scale + shift > 254 {
            lemma_pow2_strictly_increases(254, scale + shift);
        }
        lemma_units(254, FRACTION as nat);
        lemma_units(253, (2 * FRACTION - 1) as nat);
        lemma_pow2_unfold(254);
        let largest = pow2(254);
        let half = pow2(253);
        assert((2 * FRACTION - 1) * half + FRACTION * largest <= 2 * size) by (nonlinear_arith)
            requires
                largest == 2 * half,
                largest <= step,
                FRACTION * step <= size,
        ;
    }
}

/// A significand rounded to the nearest multiple of a step, and where two are
/// as near, to the even one.
fn rounded_to(exact: u32, step: u32) -> (rounded: u32)
    requires
        step == 2 || step == 4 || step == 8 || step == 16,
        FRACTION * step <= exact < 2 * FRACTION * step,
    ensures
        FRACTION <= rounded <= 2 * FRACTION,
        (2 * rounded - 1) * step <= 2 * exact <= (2 * rounded + 1) * step,
        rounded % 2 == 1 ==> (2 * rounded - 1) * step < 2 * exact < (2 * rounded + 1) * step,
{
    let below: u32 = exact / step;
    let rest: u32 = exact % step;
    if rest * 2 > step || (rest * 2 == step && below % 2 == 1) {
        below + 1
    } else {
        below
    }
}

/// Ten times a score.
pub fn times_ten(bits: u32) -> (product: u32)
    ensures
        is_ten_times(product, bits),
{
    let size: u32 = magnitude_of(bits);
    if size >= INFINITY {
        return bits;
    }
    let sign: u32 = bits - size;
    let exponent: u32 = size / FRACTION;
    let fraction: u32 = size % FRACTION;
    let (significand, scale): (u32, u32) = if exponent == 0 {
        (fraction, 0)
    } else {
        (FRACTION + fraction, exponent - 1)
    };
    let exact: u32 = significand * 10;
    proof {
        lemma2_to64();
        assert(units(size as nat) == significand * pow2(scale as nat));
        assert(10 * (significand * pow2(scale as nat)) == exact as nat * pow2(scale as nat))
            by (nonlinear_arith)
            requires
                exact == significand * 10,
        ;
    }
    if exact < 2 * FRACTION {
        assert(nearest(exact as nat, exact as nat)) by {
            lemma_small_units(exact as nat);
            lemma_small_units(exact as nat + 1);
            if exact > 0 {
                lemma_small_units((exact - 1) as nat);
            }
        }
        return sign + exact;
    }
    let (shift, step): (u32, u32) = if exact < 4 * FRACTION {
        (1, 2)
    } else if exact < 8 * FRACTION {
        (2, 4)
    } else if exact < 16 * FRACTION {
        (3, 8)
    } else {
        (4, 16)
    };
    let rounded: u32 = rounded_to(exact, step);
    proof {
        assert(step == pow2(shift as nat));
        lemma_rounded(exact as nat, scale as nat, shift as nat, rounded as nat);
    }
    let product: u32 = (scale + shift) * FRACTION + rounded;
    if product <= INFINITY {
        sign + product
    } else {
        sign + INFINITY
    }
}

/// The next larger bits are the next larger number.
proof fn lemma_units_grow(smaller: nat, larger: nat)
    requires
        smaller < larger,
    ensures
        units(smaller) < units(larger),
    decreases larger,
{
    let below = (larger - 1) as nat;
    if smaller < below {
        lemma_units_grow(smaller, below);
    }
    if larger <= 2 * FRACTION {
        lemma_small_units(below);
        lemma_small_units(larger);
    } else {
        let shift = (below / (FRACTION as nat) - 1) as nat;
        let significand = (below % (FRACTION as nat) + FRACTION) as nat;
        assert(below == shift * FRACTION + significand) by (nonlinear_arith)
            requires
                FRACTION == 0x80_0000,
                shift == below / (FRACTION as nat) - 1,
                significand == below % (FRACTION as nat) + FRACTION,
        ;
        lemma_units(shift, significand);
        lemma_units(shift, significand + 1);
        lemma_pow2_pos(shift);
        assert(significand * pow2(shift) < (significand + 1) * pow2(shift)) by (nonlinear_arith)
            requires
                pow2(shift) > 0,
        ;
    }
}

/// No two numbers are nearest to one size.
proof fn lemma_one_nearest(size: nat, smaller: nat, larger: nat)
    requires
        nearest(size, smaller),
        nearest(size, larger),
        smaller <= larger,
    ensures
        smaller == larger,
{
    if smaller < larger {
        if smaller + 1 < larger {
            lemma_units_grow(smaller, (larger - 1) as nat);
            lemma_units_grow(smaller + 1, larger);
        }
    }
}

/// Ten times a score is one score.
pub proof fn law_one_product(a: u32, b: u32, bits: u32)
    requires
        !is_nan(bits),
        is_ten_times(a, bits),
        is_ten_times(b, bits),
    ensures
        a == b,
{
    if magnitude(bits) != INFINITY {
        let size = 10 * units(magnitude(bits));
        if magnitude(a) <= magnitude(b) {
            lemma_one_nearest(size, magnitude(a), magnitude(b));
        } else {
            lemma_one_nearest(size, magnitude(b), magnitude(a));
        }
    }
}

/// There is a number nearest to a size.
proof fn lemma_has_nearest(size: nat, from: nat) -> (found: nat)
    requires
        from <= INFINITY,
        units(from) <= size,
    ensures
        nearest(size, found),
    decreases INFINITY - from,
{
    if from > 0 {
        lemma_units_grow((from - 1) as nat, from);
    }
    lemma_units_grow(from, from + 1);
    lemma_units_grow(from + 1, from + 2);
    let middle = units(from) + units(from + 1);
    if from == INFINITY {
        from
    } else if units(from + 1) <= size {
        lemma_has_nearest(size, from + 1)
    } else if 2 * size < middle || (2 * size == middle && from % 2 == 0) {
        from
    } else {
        from + 1
    }
}

/// A score has a score that is ten times it.
proof fn lemma_has_product(bits: u32) -> (product: u32)
    ensures
        is_ten_times(product, bits),
{
    if magnitude(bits) >= INFINITY {
        bits
    } else {
        let found = lemma_has_nearest(10 * units(magnitude(bits)), 0);
        if bits >= SIGN {
            (SIGN + found) as u32
        } else {
            found as u32
        }
    }
}

/// The number nearest to a larger size is not smaller.
proof fn lemma_nearest_grows(smaller: nat, larger: nat, below: nat, above: nat)
    requires
        smaller <= larger,
        nearest(smaller, below),
        nearest(larger, above),
    ensures
        below <= above,
{
    if above < below {
        if above + 1 < below {
            lemma_units_grow(above, (below - 1) as nat);
            lemma_units_grow(above + 1, below);
        }
    }
}

/// Ten times a score grows with the score.
pub proof fn law_products_grow(lower: u32, higher: u32, lower_product: u32, higher_product: u32)
    requires
        at_least(higher, lower),
        is_ten_times(lower_product, lower),
        is_ten_times(higher_product, higher),
    ensures
        at_least(higher_product, lower_product),
{
    let low = magnitude(lower);
    let high = magnitude(higher);
    if lower < SIGN && higher < SIGN {
        if low < high {
            lemma_units_grow(low, high);
        }
        if high < INFINITY {
            lemma_nearest_grows(
                10 * units(low),
                10 * units(high),
                magnitude(lower_product),
                magnitude(higher_product),
            );
        }
    } else if lower >= SIGN && higher >= SIGN {
        if high < low {
            lemma_units_grow(high, low);
        }
        if low < INFINITY {
            lemma_nearest_grows(
                10 * units(high),
                10 * units(low),
                magnitude(higher_product),
                magnitude(lower_product),
            );
        }
    } else if higher >= SIGN {
        assert(nearest(0, 0));
        lemma_one_nearest(0, 0, magnitude(lower_product));
        lemma_one_nearest(0, 0, magnitude(higher_product));
    }
}

/// A score is at least ten times the threshold.
pub open spec fn passes(score: u32, threshold: u32) -> bool {
    exists|limit: u32| #[trigger] is_ten_times(limit, threshold) && at_least(score, limit)
}

/// Whether a score is at least ten times the threshold.
pub fn score_passes(score: u32, threshold: u32) -> (res: bool)
    ensures
        res == passes(score, threshold),
{
    let limit: u32 = times_ten(threshold);
    proof {
        if passes(score, threshold) {
            let other = choose|other: u32| #[trigger]
                is_ten_times(other, threshold) && at_least(score, other);
            law_one_product(limit, other, threshold);
        }
    }
    score_at_least(score, limit)
}

/// A score that is no number passes no threshold.
pub proof fn law_nan_passes_nothing(score: u32, threshold: u32)
    requires
        is_nan(score) || is_nan(threshold),
    ensures
        !passes(score, threshold),
{
}

/// What passes a threshold passes each lower one.
pub proof fn law_lower_thresholds_are_passed(score: u32, higher: u32, lower: u32)
    requires
        passes(score, higher),
        at_least(higher, lower),
    ensures
        passes(score, lower),
{
    let limit = choose|limit: u32| #[trigger]
        is_ten_times(limit, higher) && at_least(score, limit);
    let product = lemma_has_product(lower);
    law_products_grow(lower, higher, product, limit);
    assert(is_ten_times(product, lower) && at_least(score, product));
}

/// What passes a threshold still does when the score is higher.
pub proof fn law_higher_scores_pass(score: u32, higher: u32, threshold: u32)
    requires
        passes(score, threshold),
        at_least(higher, score),
    ensures
        passes(higher, threshold),
{
    let limit = choose|limit: u32| #[trigger]
        is_ten_times(limit, threshold) && at_least(score, limit);
    assert(is_ten_times(limit, threshold) && at_least(higher, limit));
}

/// The bits of a number say its size: small ones are their own size, and one more in the
/// exponent is twice the size.
pub proof fn law_units(magnitude: nat)
    ensures
        magnitude <= 2 * FRACTION ==> units(magnitude) == magnitude,
        magnitude >= FRACTION ==> units((magnitude + FRACTION) as nat) == 2 * units(magnitude),
{
    if magnitude <= 2 * FRACTION {
        lemma_small_units(magnitude);
    }
    if magnitude >= FRACTION {
        let shift = (magnitude / (FRACTION as nat) - 1) as nat;
        let significand = (magnitude % (FRACTION as nat) + FRACTION) as nat;
        assert(magnitude == shift * FRACTION + significand) by (nonlinear_arith)
            requires
                FRACTION == 0x80_0000,
                shift == magnitude / (FRACTION as nat) - 1,
                significand == magnitude % (FRACTION as nat) + FRACTION,
        ;
        assert((shift + 1) * FRACTION + significand == magnitude + FRACTION) by (nonlinear_arith)
            requires
                magnitude == shift * FRACTION + significand,
        ;
        lemma_units(shift, significand);
        lemma_units(shift + 1, significand);
        lemma_pow2_unfold(shift + 1);
        assert(significand * (2 * pow2(shift)) == 2 * (significand * pow2(shift)))
            by (nonlinear_arith);
    }
}

/// A threshold is passed by exactly the scores that are at least ten times as large,
/// where there is a number of that size.
pub proof fn law_ten_times_the_threshold_passes(score: u32, threshold: u32, product: u32)
    requires
        threshold < INFINITY,
        product <= INFINITY,
        units(product as nat) == 10 * units(threshold as nat),
    ensures
        passes(score, threshold) <==> at_least(score, product),
{
    let size = units(product as nat);
    if product > 0 {
        lemma_units_grow((product - 1) as nat, product as nat);
    }
    lemma_units_grow(product as nat, product as nat + 1);
    assert(nearest(size, product as nat));
    assert(is_ten_times(product, threshold));
    if passes(score, threshold) {
        let limit = choose|limit: u32| #[trigger]
            is_ten_times(limit, threshold) && at_least(score, limit);
        law_one_product(limit, product, threshold);
    }
}

/// Scores are compared as the numbers that they are: of two numbers one is at least the
/// other, each is at least itself, and of two that are not negative the larger one is
/// at least the smaller. A negative one is never at least a positive one.
pub proof fn law_scores_are_ordered(a: u32, b: u32, c: u32)
    ensures
        !is_nan(a) && !is_nan(b) ==> at_least(a, b) || at_least(b, a),
        !is_nan(a) ==> at_least(a, a),
        at_least(a, b) && at_least(b, c) ==> at_least(a, c),
        a <= INFINITY && b <= INFINITY ==> (at_least(a, b) <==> units(a as nat) >= units(
            b as nat,
        )),
        a > SIGN && 0 < b <= INFINITY ==> !at_least(a, b),
{
    if a < b {
        lemma_units_grow(a as nat, b as nat);
    } else if b < a {
        lemma_units_grow(b as nat, a as nat);
    }
}

} // verus!
