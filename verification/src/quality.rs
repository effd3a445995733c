//! From distances and quality settings to quantization scales.
//!
//! A larger scale means lighter quantization. Constants are given by their
//! bit patterns.

use crate::float::{
    clamped, difference, law_rounding_is_monotone, lemma_nearest_exists, lemma_units_increase,
    maximum, minimum, product, quotient, sum, units, Float32, INFINITY_MAGNITUDE,
};
use vstd::arithmetic::power2::pow2;
use vstd::prelude::*;

verus! {

/// The scale at distance one, 0.765, as a bit pattern.
pub const K_AC_QUANT: u32 = 0x3f43_d70a;

/// The smallest distance that counts, 0.001, as a bit pattern.
pub const MIN_DISTANCE: u32 = 0x3a83_126f;

/// One half, as a bit pattern.
pub const HALF: u32 = 0x3f00_0000;

/// One, as a bit pattern.
pub const ONE: u32 = 0x3f80_0000;

/// Two, as a bit pattern.
pub const TWO: u32 = 0x4000_0000;

/// Fifty, as a bit pattern.
pub const FIFTY: u32 = 0x4248_0000;

/// One hundred, as a bit pattern.
pub const HUNDRED: u32 = 0x42c8_0000;

/// Negative infinity, as a bit pattern.
pub const NEGATIVE_INFINITY: u32 = 0xff80_0000;

/// The number with a bit pattern.
pub open spec fn float(bits: u32) -> Float32 {
    Float32 { bits }
}

/// The quantization scale for a distance: [`K_AC_QUANT`] over the distance,
/// which counts as at least [`MIN_DISTANCE`].
pub open spec fn qac_of_distance(distance: Float32) -> Float32 {
    quotient(float(K_AC_QUANT), maximum(distance, float(MIN_DISTANCE)))
}

/// The distance for a quality setting: fifty over the setting, which is held
/// to the range from one to a hundred.
pub open spec fn distance_of_quality(quality: Float32) -> Float32 {
    quotient(float(FIFTY), clamped(quality, float(ONE), float(HUNDRED)))
}

/// The quantization scale for a distance. See [`qac_of_distance`].
pub fn distance_to_qac(distance: Float32) -> (r: Float32)
    ensures
        r == qac_of_distance(distance),
{
    Float32::from_bits(K_AC_QUANT).over(distance.max(Float32::from_bits(MIN_DISTANCE)))
}

/// The quantization scale for a quality setting from one to a hundred.
pub fn quality_to_qac(quality: Float32) -> (r: Float32)
    ensures
        r == qac_of_distance(distance_of_quality(quality)),
{
    let low: Float32 = Float32::from_bits(ONE);
    let high: Float32 = Float32::from_bits(HUNDRED);
    proof {
        lemma_units_increase(ONE as nat, HUNDRED as nat);
    }
    let q: Float32 = quality.clamp(low, high);
    distance_to_qac(Float32::from_bits(FIFTY).over(q))
}

/// The least of some numbers, NaNs left out; infinity where there is none.
pub open spec fn least_of(s: Seq<Float32>) -> Float32
    decreases s.len(),
{
    if s.len() == 0 {
        float(INFINITY_MAGNITUDE)
    } else {
        minimum(least_of(s.drop_last()), s.last())
    }
}

/// The greatest of some numbers, NaNs left out; negative infinity where there
/// is none.
pub open spec fn greatest_of(s: Seq<Float32>) -> Float32
    decreases s.len(),
{
    if s.len() == 0 {
        float(NEGATIVE_INFINITY)
    } else {
        maximum(greatest_of(s.drop_last()), s.last())
    }
}

/// Where `m` lies between `low` and `high`, from zero to one; one half where
/// the range is empty.
pub open spec fn position_in_range(m: Float32, low: Float32, high: Float32) -> Float32 {
    if low.less(high) {
        quotient(difference(m, low), difference(high, low))
    } else {
        float(HALF)
    }
}

/// The scale of a block whose mask mean is `m`, where the means of the image
/// reach from `low` to `high`: from the scale for `distance / range_factor`
/// at the low end to that for `distance * range_factor` at the high end.
pub open spec fn block_qac(
    m: Float32,
    low: Float32,
    high: Float32,
    distance: Float32,
    range_factor: Float32,
) -> Float32 {
    let lightest = qac_of_distance(quotient(distance, range_factor));
    let heaviest = qac_of_distance(product(distance, range_factor));
    sum(lightest, product(difference(heaviest, lightest), position_in_range(m, low, high)))
}

/// The scale of each block from its mask mean, with a range factor of two.
/// See [`block_means_to_qac_field_with_range`].
pub fn block_means_to_qac_field(block_means: &[Float32], distance: Float32) -> (r: Vec<Float32>)
    ensures
        r@.len() == block_means@.len(),
        forall|i: int|
            0 <= i < r@.len() ==> #[trigger] r@[i] == block_qac(
                block_means@[i],
                least_of(block_means@),
                greatest_of(block_means@),
                distance,
                float(TWO),
            ),
{
    block_means_to_qac_field_with_range(block_means, distance, Float32::from_bits(TWO))
}

fn least_and_greatest(s: &[Float32]) -> (r: (Float32, Float32))
    ensures
        r.0 == least_of(s@),
        r.1 == greatest_of(s@),
{
    let mut low: Float32 = Float32::from_bits(INFINITY_MAGNITUDE);
    let mut high: Float32 = Float32::from_bits(NEGATIVE_INFINITY);
    let mut i: usize = 0;
    while i < s.len()
        invariant
            i <= s@.len(),
            low == least_of(s@.take(i as int)),
            high == greatest_of(s@.take(i as int)),
        decreases s@.len() - i,
    {
        proof {
            assert(s@.take(i + 1).drop_last() =~= s@.take(i as int));
        }
        low = low.min(s[i]);
        high = high.max(s[i]);
        i = i + 1;
    }
    assert(s@.take(i as int) =~= s@);
    (low, high)
}

/// The scale of each block from its mask mean. Smooth blocks, whose means are
/// high, get the heavier quantization: the scale for the distance times
/// `range_factor`. Blocks with detail get the scale for the distance over
/// `range_factor`. Blocks between lie in proportion.
pub fn block_means_to_qac_field_with_range(
    block_means: &[Float32],
    distance: Float32,
    range_factor: Float32,
) -> (r: Vec<Float32>)
    ensures
        r@.len() == block_means@.len(),
        forall|i: int|
            0 <= i < r@.len() ==> #[trigger] r@[i] == block_qac(
                block_means@[i],
                least_of(block_means@),
                greatest_of(block_means@),
                distance,
                range_factor,
            ),
{
    let (low, high): (Float32, Float32) = least_and_greatest(block_means);
    let lightest: Float32 = distance_to_qac(distance.over(range_factor));
    let heaviest: Float32 = distance_to_qac(distance.times(range_factor));
    let mut out: Vec<Float32> = Vec::new();
    let mut i: usize = 0;
    while i < block_means.len()
        invariant
            i <= block_means@.len(),
            out@.len() == i,
            low == least_of(block_means@),
            high == greatest_of(block_means@),
            lightest == qac_of_distance(quotient(distance, range_factor)),
            heaviest == qac_of_distance(product(distance, range_factor)),
            forall|j: int|
                0 <= j < i ==> #[trigger] out@[j] == block_qac(
                    block_means@[j],
                    low,
                    high,
                    distance,
                    range_factor,
                ),
        decreases block_means@.len() - i,
    {
        let t: Float32 = if low.lt(high) {
            block_means[i].minus(low).over(high.minus(low))
        } else {
            Float32::from_bits(HALF)
        };
        out.push(lightest.plus(heaviest.minus(lightest).times(t)));
        i = i + 1;
    }
    out
}

/// The quotient of two positive numbers falls as the divisor grows.
proof fn lemma_quotient_falls(n: Float32, a: Float32, b: Float32)
    requires
        !n.negative(),
        n.finite(),
        !a.negative(),
        !b.negative(),
        !a.nan(),
        !b.nan(),
        0 < a.magnitude() <= b.magnitude(),
    ensures
        !quotient(n, a).nan(),
        !quotient(n, b).nan(),
        !quotient(n, a).negative(),
        !quotient(n, b).negative(),
        quotient(n, b).magnitude() <= quotient(n, a).magnitude(),
{
    let num = units(n.magnitude()) * pow2(149);
    lemma_units_increase(0, a.magnitude());
    lemma_units_increase(0, b.magnitude());
    lemma_nearest_exists(num, units(a.magnitude()));
    lemma_nearest_exists(num, units(b.magnitude()));
    if a.magnitude() < b.magnitude() {
        lemma_units_increase(a.magnitude(), b.magnitude());
    }
    let ua = units(a.magnitude());
    let ub = units(b.magnitude());
    assert(num * ua <= num * ub) by (nonlinear_arith)
        requires
            ua <= ub,
    ;
    law_rounding_is_monotone(num, ub, num, ua);
}

/// The values of nonnegative numbers are ordered as their magnitudes.
proof fn lemma_nonnegative_order(a: Float32, b: Float32)
    requires
        !a.negative(),
        !b.negative(),
        !a.nan(),
        !b.nan(),
    ensures
        a.less(b) <==> a.magnitude() < b.magnitude(),
{
    if a.magnitude() < b.magnitude() {
        lemma_units_increase(a.magnitude(), b.magnitude());
    }
    if b.magnitude() < a.magnitude() {
        lemma_units_increase(b.magnitude(), a.magnitude());
    }
}

/// A distance, held to at least the smallest one that counts.
pub proof fn lemma_held_distance(d: Float32)
    ensures
        ({
            let h = maximum(d, float(MIN_DISTANCE));
            &&& !h.negative()
            &&& !h.nan()
            &&& h.magnitude() >= MIN_DISTANCE
            &&& d.nan() || d.negative() || d.magnitude() <= MIN_DISTANCE ==> h.magnitude()
                == MIN_DISTANCE
            &&& !d.nan() && !d.negative() && d.magnitude() > MIN_DISTANCE ==> h == d
        }),
{
    let m = float(MIN_DISTANCE);
    assert(units(0) == 0);
    lemma_units_increase(0, MIN_DISTANCE as nat);
    if !d.nan() {
        if d.negative() {
            if d.magnitude() > 0 {
                lemma_units_increase(0, d.magnitude());
            }
            assert(d.less(m));
        } else {
            lemma_nonnegative_order(d, m);
        }
    }
}

/// A greater distance never gets a larger scale.
pub proof fn law_qac_falls_with_distance(a: Float32, b: Float32)
    requires
        !a.nan(),
        !b.nan(),
        !b.less(a),
    ensures
        !qac_of_distance(a).less(qac_of_distance(b)),
{
    let ha = maximum(a, float(MIN_DISTANCE));
    let hb = maximum(b, float(MIN_DISTANCE));
    lemma_held_distance(a);
    lemma_held_distance(b);
    if !a.negative() && !b.negative() {
        lemma_nonnegative_order(b, a);
    } else if !a.negative() && b.negative() {
        assert(units(0) == 0);
        if b.magnitude() > 0 {
            lemma_units_increase(0, b.magnitude());
        }
        if a.magnitude() > 0 {
            lemma_units_increase(0, a.magnitude());
        }
        assert(a.magnitude() == 0);
    }
    assert(ha.magnitude() <= hb.magnitude());
    lemma_quotient_falls(float(K_AC_QUANT), ha, hb);
    lemma_nonnegative_order(qac_of_distance(a), qac_of_distance(b));
}

/// A quality setting in its range, as a positive number.
proof fn lemma_held_quality(q: Float32)
    requires
        !q.nan(),
    ensures
        ({
            let h = clamped(q, float(ONE), float(HUNDRED));
            &&& !h.negative()
            &&& ONE <= h.magnitude() <= HUNDRED
            &&& q.negative() || q.magnitude() <= ONE ==> h == float(ONE)
            &&& !q.negative() && q.magnitude() >= HUNDRED ==> h == float(HUNDRED)
            &&& !q.negative() && ONE <= q.magnitude() <= HUNDRED ==> h == q
        }),
{
    assert(units(0) == 0);
    lemma_units_increase(0, ONE as nat);
    lemma_units_increase(0, HUNDRED as nat);
    if q.negative() {
        if q.magnitude() > 0 {
            lemma_units_increase(0, q.magnitude());
        }
    } else {
        lemma_nonnegative_order(q, float(ONE));
        lemma_nonnegative_order(float(HUNDRED), q);
    }
}

/// A higher quality setting never gets a smaller scale.
pub proof fn law_qac_rises_with_quality(a: Float32, b: Float32)
    requires
        !a.nan(),
        !b.nan(),
        !b.less(a),
    ensures
        !qac_of_distance(distance_of_quality(b)).less(qac_of_distance(distance_of_quality(a))),
{
    let ha = clamped(a, float(ONE), float(HUNDRED));
    let hb = clamped(b, float(ONE), float(HUNDRED));
    lemma_held_quality(a);
    lemma_held_quality(b);
    if !a.negative() && !b.negative() {
        lemma_nonnegative_order(b, a);
    } else if !a.negative() && b.negative() {
        assert(units(0) == 0);
        if b.magnitude() > 0 {
            lemma_units_increase(0, b.magnitude());
        }
        if a.magnitude() > 0 {
            lemma_units_increase(0, a.magnitude());
        }
    }
    assert(ha.magnitude() <= hb.magnitude());
    lemma_quotient_falls(float(FIFTY), ha, hb);
    let da = distance_of_quality(a);
    let db = distance_of_quality(b);
    lemma_nonnegative_order(da, db);
    law_qac_falls_with_distance(db, da);
}

/// Quality settings outside the range from one to a hundred count as its
/// nearer end.
pub proof fn law_quality_is_held_to_its_range(q: Float32)
    requires
        !q.nan(),
    ensures
        float(HUNDRED).less(q) ==> distance_of_quality(q) == distance_of_quality(float(HUNDRED)),
        q.less(float(ONE)) ==> distance_of_quality(q) == distance_of_quality(float(ONE)),
{
    lemma_held_quality(q);
    lemma_held_quality(float(ONE));
    lemma_held_quality(float(HUNDRED));
    lemma_units_increase(ONE as nat, HUNDRED as nat);
}

} // verus!
