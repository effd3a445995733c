//! What holds of the scales that follow the mask of an image.

use crate::encode::adaptive_field;
use crate::float::{
    difference, law_rounding_error, law_rounding_is_monotone, law_sum_is_monotone, law_zero,
    lemma_finite_sum, lemma_nearest_exists, lemma_rounding_keeps, lemma_signed_value,
    lemma_units_increase, maximum, negated, product, quotient, rounded, signed, units, Float32,
    INFINITY_MAGNITUDE,
};
use crate::quality::{
    block_qac, float, greatest_of, law_qac_falls_with_distance, least_of, lemma_held_distance,
    position_in_range, qac_of_distance, K_AC_QUANT, MIN_DISTANCE, ONE, TWO,
};
use vstd::arithmetic::power2::pow2;
use vstd::prelude::*;

verus! {

/// Whether all of the numbers are finite.
pub open spec fn all_finite(s: Seq<Float32>) -> bool {
    forall|i: int| 0 <= i < s.len() ==> (#[trigger] s[i]).finite()
}

/// No number is less than the least or greater than the greatest.
pub proof fn law_least_and_greatest(s: Seq<Float32>, i: int)
    requires
        all_finite(s),
        0 <= i < s.len(),
    ensures
        least_of(s).finite(),
        greatest_of(s).finite(),
        least_of(s).value() <= s[i].value() <= greatest_of(s).value(),
    decreases s.len(),
{
    let before = s.drop_last();
    let last = s.last();
    assert(last == s[s.len() - 1]);
    assert(last.finite());
    lemma_units_increase(last.magnitude(), INFINITY_MAGNITUDE as nat);
    assert forall|k: int| 0 <= k < before.len() implies (#[trigger] before[k]).finite() by {
        assert(before[k] == s[k]);
    }
    if before.len() > 0 {
        if i < before.len() {
            law_least_and_greatest(before, i);
        } else {
            law_least_and_greatest(before, 0);
        }
    } else {
        assert(least_of(before) == float(INFINITY_MAGNITUDE));
        assert(last.less(least_of(before)));
        assert(greatest_of(before).less(last));
    }
}

proof fn lemma_one()
    ensures
        units(ONE as nat) == pow2(149),
        pow2(149) > 0,
        float(ONE).finite(),
        float(ONE).magnitude() == ONE,
        !float(ONE).negative(),
        rounded(pow2(149), 1) == ONE,
{
    vstd::arithmetic::power2::lemma2_to64();
    vstd::arithmetic::power2::lemma_pow2_pos(149);
    vstd::arithmetic::power2::lemma_pow2_adds(23, 126);
    assert(pow2(23) == 0x80_0000);
    lemma_rounding_keeps(ONE as nat);
}

proof fn lemma_zero_value(a: Float32)
    requires
        a.value() == 0,
    ensures
        a.magnitude() == 0,
{
    if a.magnitude() > 0 {
        lemma_units_increase(0, a.magnitude());
    }
}

/// A part of a positive number over the whole lies between zero and one, and
/// grows with the part.
proof fn lemma_parts(a: Float32, b: Float32, whole: Float32)
    requires
        a.finite(),
        b.finite(),
        whole.finite(),
        !whole.negative(),
        whole.magnitude() > 0,
        0 <= a.value() <= b.value() <= whole.value(),
    ensures
        quotient(a, whole).finite(),
        quotient(b, whole).finite(),
        0 <= quotient(a, whole).value() <= quotient(b, whole).value(),
        quotient(b, whole).magnitude() <= ONE,
        a.value() == 0 ==> quotient(a, whole).value() == 0,
{
    lemma_one();
    assert(units(0) == 0);
    let ua = units(a.magnitude());
    let ub = units(b.magnitude());
    let uw = units(whole.magnitude());
    let p = pow2(149);
    lemma_units_increase(0, whole.magnitude());
    if a.negative() {
        lemma_zero_value(a);
    }
    if b.negative() {
        lemma_zero_value(b);
    }
    assert(ua <= ub <= uw);
    assert((ua * p) * uw <= (ub * p) * uw) by (nonlinear_arith)
        requires
            ua <= ub,
            p >= 0,
            uw >= 0,
    ;
    assert((ub * p) * 1 <= p * uw) by (nonlinear_arith)
        requires
            ub <= uw,
            p >= 0,
    ;
    let ra = rounded(ua * p, uw);
    let rb = rounded(ub * p, uw);
    law_rounding_is_monotone(ua * p, uw, ub * p, uw);
    law_rounding_is_monotone(ub * p, uw, p, 1);
    lemma_signed_value(a.negative(), ra);
    lemma_signed_value(b.negative(), rb);
    if ra < rb {
        lemma_units_increase(ra, rb);
    }
    if ua == 0 {
        assert(0 * p == 0) by (nonlinear_arith);
        lemma_rounded_zero(uw);
    }
    if ub == 0 {
        assert(0 * p == 0) by (nonlinear_arith);
        lemma_rounded_zero(uw);
    }
}

proof fn lemma_rounded_zero(den: nat)
    requires
        den > 0,
    ensures
        rounded(0, den) == 0,
{
    lemma_rounding_keeps(0);
    assert(units(0) == 0);
    law_rounding_is_monotone(0, den, 0, 1);
}

/// What is not positive, times a number from zero to one, is not positive, no
/// farther from zero, and falls as the factor grows.
proof fn lemma_fractions(a: Float32, s: Float32, t: Float32)
    requires
        a.finite(),
        a.value() <= 0,
        s.finite(),
        t.finite(),
        0 <= s.value() <= t.value(),
        t.magnitude() <= ONE,
    ensures
        product(a, s).finite(),
        product(a, t).finite(),
        product(a, t).value() <= product(a, s).value() <= 0,
        s.value() == 0 ==> product(a, s).value() == 0,
{
    lemma_one();
    assert(units(0) == 0);
    let ua = units(a.magnitude());
    let us = units(s.magnitude());
    let ut = units(t.magnitude());
    let p = pow2(149);
    if !a.negative() {
        lemma_zero_value(a);
    }
    if s.negative() {
        lemma_zero_value(s);
    }
    if t.negative() {
        lemma_zero_value(t);
    }
    if t.magnitude() < ONE {
        lemma_units_increase(t.magnitude(), ONE as nat);
    }
    assert(us <= ut <= p);
    assert((ua * us) * p <= (ua * ut) * p && (ua * ut) * 1 <= ua * p) by (nonlinear_arith)
        requires
            0 <= us <= ut <= p,
            ua >= 0,
    ;
    let rs = rounded(ua * us, p);
    let rt = rounded(ua * ut, p);
    law_rounding_is_monotone(ua * us, p, ua * ut, p);
    law_rounding_is_monotone(ua * ut, p, ua, 1);
    lemma_rounding_keeps(a.magnitude());
    lemma_signed_value(a.negative() != s.negative(), rs);
    lemma_signed_value(a.negative() != t.negative(), rt);
    if rs < rt {
        lemma_units_increase(rs, rt);
    }
    lemma_rounded_zero(p);
    if us == 0 || ua == 0 {
        assert(ua * us == 0) by (nonlinear_arith)
            requires
                us == 0 || ua == 0,
        ;
    }
    if ut == 0 || ua == 0 {
        assert(ua * ut == 0) by (nonlinear_arith)
            requires
                ut == 0 || ua == 0,
        ;
    }
}

/// The scale for a distance is a finite number, not below zero.
pub proof fn law_qac_is_finite(distance: Float32)
    ensures
        qac_of_distance(distance).finite(),
        !qac_of_distance(distance).negative(),
{
    let h = maximum(distance, float(MIN_DISTANCE));
    lemma_held_distance(distance);
    lemma_one();
    vstd::arithmetic::power2::lemma2_to64();
    vstd::arithmetic::power2::lemma_pow2_adds(23, 116);
    vstd::arithmetic::power2::lemma_pow2_adds(23, 136);
    vstd::arithmetic::power2::lemma_pow2_adds(139, 10);
    vstd::arithmetic::power2::lemma_pow2_adds(149, 10);
    // A thousandth is more than 2 to the power -10, and the greatest scale
    // less than 2 to the power 10.
    let small = 0x3a80_0000nat;
    let large = 0x4480_0000nat;
    assert(units(small) == pow2(139));
    assert(units(large) == pow2(159));
    let k = units(K_AC_QUANT as nat);
    lemma_units_increase(K_AC_QUANT as nat, ONE as nat);
    lemma_units_increase(small, MIN_DISTANCE as nat);
    if MIN_DISTANCE < h.magnitude() {
        lemma_units_increase(MIN_DISTANCE as nat, h.magnitude());
    }
    let u = units(h.magnitude());
    let p = pow2(149);
    let q = pow2(139);
    let top = pow2(159);
    assert((k * p) * 1 <= top * u) by (nonlinear_arith)
        requires
            k <= p,
            u >= q,
            p == q * 1024,
            top == p * 1024,
            q >= 0,
            k >= 0,
    {
        assert(k * p <= p * p);
        assert(top * q <= top * u);
        assert(top * q == p * (q * 1024));
    }
    lemma_nearest_exists(k * p, u);
    law_rounding_is_monotone(k * p, u, top, 1);
    lemma_rounding_keeps(large);
    lemma_signed_value(false, rounded(k * p, u));
}

/// A distance divided by a factor of at least one is no greater, and
/// multiplied by it no less.
proof fn lemma_spread_distances(d: Float32, factor: Float32)
    requires
        d.finite(),
        !d.negative(),
        factor.finite(),
        !factor.negative(),
        factor.magnitude() >= ONE,
    ensures
        !quotient(d, factor).nan(),
        !product(d, factor).nan(),
        quotient(d, factor).value() <= d.value() <= product(d, factor).value(),
{
    lemma_one();
    let ud = units(d.magnitude());
    let uf = units(factor.magnitude());
    let p = pow2(149);
    if ONE < factor.magnitude() {
        lemma_units_increase(ONE as nat, factor.magnitude());
    }
    let rq = rounded(ud * p, uf);
    let rp = rounded(ud * uf, p);
    assert((ud * p) * 1 <= ud * uf && ud * p <= (ud * uf) * 1) by (nonlinear_arith)
        requires
            p <= uf,
            ud >= 0,
    ;
    lemma_nearest_exists(ud * p, uf);
    lemma_nearest_exists(ud * uf, p);
    law_rounding_is_monotone(ud * p, uf, ud, 1);
    law_rounding_is_monotone(ud, 1, ud * uf, p);
    lemma_rounding_keeps(d.magnitude());
    lemma_signed_value(false, rq);
    lemma_signed_value(false, rp);
    if rq < d.magnitude() {
        lemma_units_increase(rq, d.magnitude());
    }
    if d.magnitude() < rp {
        lemma_units_increase(d.magnitude(), rp);
    }
}

/// A smaller number less a larger one: not positive, and no farther from zero
/// than the larger.
proof fn lemma_fall(low: Float32, high: Float32)
    requires
        low.finite(),
        high.finite(),
        0 <= low.value() <= high.value(),
    ensures
        difference(low, high).finite(),
        difference(low, high).value() <= 0,
        low.value() == high.value() ==> difference(low, high).value() == 0,
{
    let n = negated(high);
    lemma_signed_value(!high.negative(), high.magnitude());
    assert(units(0) == 0);
    lemma_finite_sum(low, n);
    let exact = low.value() + n.value();
    if exact < 0 {
        let e = (-exact) as nat;
        assert(!high.negative()) by {
            if high.negative() {
                lemma_zero_value(high);
            }
        }
        lemma_nearest_exists(e, 1);
        law_rounding_is_monotone(e, 1, units(high.magnitude()), 1);
        lemma_rounding_keeps(high.magnitude());
        lemma_signed_value(true, rounded(e, 1));
    } else {
        lemma_signed_value(low.negative() && n.negative(), 0);
    }
}

/// The distance of a number above the least of some: from zero to that of the
/// greatest, and growing with the number.
proof fn lemma_rises(low: Float32, a: Float32, b: Float32, high: Float32)
    requires
        low.finite(),
        a.finite(),
        b.finite(),
        high.finite(),
        low.value() <= a.value() <= b.value() <= high.value(),
        low.less(high),
        difference(high, low).finite(),
    ensures
        ({
            let w = difference(high, low);
            &&& !w.negative() && w.magnitude() > 0
            &&& difference(a, low).finite()
            &&& difference(b, low).finite()
            &&& 0 <= difference(a, low).value() <= difference(b, low).value() <= w.value()
            &&& a.value() == low.value() ==> difference(a, low).value() == 0
        }),
{
    let n = negated(low);
    let w = difference(high, low);
    lemma_signed_value(!low.negative(), low.magnitude());
    assert(units(0) == 0);
    lemma_finite_sum(low, n);
    lemma_finite_sum(a, n);
    lemma_finite_sum(b, n);
    lemma_finite_sum(high, n);
    law_sum_is_monotone(low, n, a, n);
    law_sum_is_monotone(a, n, b, n);
    law_sum_is_monotone(b, n, high, n);
    let exact = (high.value() + n.value()) as nat;
    assert(units(1) == 1);
    lemma_rounding_keeps(1);
    lemma_nearest_exists(exact, 1);
    law_rounding_is_monotone(1, 1, exact, 1);
    lemma_signed_value(false, rounded(exact, 1));
    lemma_finite_below(difference(a, low), w);
    lemma_finite_below(difference(b, low), w);
}

proof fn lemma_finite_below(a: Float32, w: Float32)
    requires
        !a.nan(),
        0 <= a.value() <= w.value(),
        w.finite(),
        !w.negative(),
    ensures
        a.finite(),
{
    lemma_units_increase(w.magnitude(), INFINITY_MAGNITUDE as nat);
    lemma_units_increase(0, INFINITY_MAGNITUDE as nat);
}

/// Whether mask means, a distance and a range factor are such as come up: the
/// means and their span finite, the distance finite and not negative, and the
/// factor finite and at least one.
pub open spec fn ordinary(means: Seq<Float32>, distance: Float32, factor: Float32) -> bool {
    &&& all_finite(means)
    &&& difference(greatest_of(means), least_of(means)).finite()
    &&& distance.finite() && !distance.negative()
    &&& factor.finite() && !factor.negative() && factor.magnitude() >= ONE
}

/// The scale of block `i` of an image with these mask means.
pub open spec fn field_at(
    means: Seq<Float32>,
    distance: Float32,
    factor: Float32,
    i: int,
) -> Float32 {
    block_qac(means[i], least_of(means), greatest_of(means), distance, factor)
}

/// Where the means of two blocks lie in the range.
proof fn lemma_positions(means: Seq<Float32>, i: int, j: int)
    requires
        all_finite(means),
        difference(greatest_of(means), least_of(means)).finite(),
        0 <= i < means.len(),
        0 <= j < means.len(),
        means[i].value() <= means[j].value(),
    ensures
        ({
            let s = position_in_range(means[i], least_of(means), greatest_of(means));
            let t = position_in_range(means[j], least_of(means), greatest_of(means));
            &&& s.finite() && t.finite()
            &&& 0 <= s.value() <= t.value()
            &&& t.magnitude() <= ONE
            &&& least_of(means).less(greatest_of(means)) && means[i].value() == least_of(
                means,
            ).value() ==> s.value() == 0
        }),
{
    let low = least_of(means);
    let high = greatest_of(means);
    law_least_and_greatest(means, i);
    law_least_and_greatest(means, j);
    if low.less(high) {
        lemma_rises(low, means[i], means[j], high);
        lemma_parts(
            difference(means[i], low),
            difference(means[j], low),
            difference(high, low),
        );
    }
}

/// The scales at both ends of the range: finite, not negative, and the heavier
/// quantization no lighter than the other.
proof fn lemma_ends(distance: Float32, factor: Float32)
    requires
        distance.finite() && !distance.negative(),
        factor.finite() && !factor.negative() && factor.magnitude() >= ONE,
    ensures
        ({
            let lightest = qac_of_distance(quotient(distance, factor));
            let heaviest = qac_of_distance(product(distance, factor));
            &&& lightest.finite() && heaviest.finite()
            &&& 0 <= heaviest.value() <= lightest.value()
            &&& difference(heaviest, lightest).finite()
            &&& difference(heaviest, lightest).value() <= 0
        }),
{
    let near = quotient(distance, factor);
    let far = product(distance, factor);
    lemma_spread_distances(distance, factor);
    law_qac_is_finite(near);
    law_qac_is_finite(far);
    law_qac_falls_with_distance(near, far);
    lemma_fall(qac_of_distance(far), qac_of_distance(near));
}

/// Smoother blocks are quantized no more lightly: of two blocks, the one with
/// the higher mean gets no larger scale. And no block gets a larger scale than
/// that for the distance over the range factor.
pub proof fn law_smoother_is_heavier(
    means: Seq<Float32>,
    distance: Float32,
    factor: Float32,
    i: int,
    j: int,
)
    requires
        ordinary(means, distance, factor),
        0 <= i < means.len(),
        0 <= j < means.len(),
        !means[j].less(means[i]),
    ensures
        !field_at(means, distance, factor, i).less(field_at(means, distance, factor, j)),
        !qac_of_distance(quotient(distance, factor)).less(field_at(means, distance, factor, i)),
{
    let lightest = qac_of_distance(quotient(distance, factor));
    let heaviest = qac_of_distance(product(distance, factor));
    let fall = difference(heaviest, lightest);
    let s = position_in_range(means[i], least_of(means), greatest_of(means));
    let t = position_in_range(means[j], least_of(means), greatest_of(means));
    let zero = signed(false, 0);
    assert(means[i].finite() && means[j].finite());
    lemma_ends(distance, factor);
    lemma_positions(means, i, j);
    lemma_fractions(fall, s, t);
    assert(units(0) == 0);
    lemma_finite_sum(lightest, product(fall, s));
    lemma_finite_sum(lightest, product(fall, t));
    lemma_finite_sum(lightest, zero);
    law_sum_is_monotone(lightest, product(fall, t), lightest, product(fall, s));
    law_sum_is_monotone(lightest, product(fall, s), lightest, zero);
    law_zero(lightest);
}

/// The block with the most detail gets the scale for the distance over the
/// range factor, where the means differ at all.
pub proof fn law_most_detail_is_lightest(
    means: Seq<Float32>,
    distance: Float32,
    factor: Float32,
    i: int,
)
    requires
        ordinary(means, distance, factor),
        0 <= i < means.len(),
        least_of(means).less(greatest_of(means)),
        means[i].value() == least_of(means).value(),
    ensures
        field_at(means, distance, factor, i).value() == qac_of_distance(
            quotient(distance, factor),
        ).value(),
{
    let lightest = qac_of_distance(quotient(distance, factor));
    let heaviest = qac_of_distance(product(distance, factor));
    let fall = difference(heaviest, lightest);
    let s = position_in_range(means[i], least_of(means), greatest_of(means));
    let zero = signed(false, 0);
    assert(means[i].finite());
    lemma_ends(distance, factor);
    lemma_positions(means, i, i);
    lemma_fractions(fall, s, s);
    assert(units(0) == 0);
    lemma_finite_sum(lightest, product(fall, s));
    lemma_finite_sum(lightest, zero);
    law_sum_is_monotone(lightest, product(fall, s), lightest, zero);
    law_sum_is_monotone(lightest, zero, lightest, product(fall, s));
    law_zero(lightest);
}

/// No block gets a larger scale than that for the distance over the range
/// factor, and none a smaller one than that for the distance times the range
/// factor, up to rounding: it falls short of that by at most the part in 2 to
/// the power 22 of the largest scale. The smoothest block gets the smallest
/// scale.
pub proof fn law_field_stays_in_its_range(
    means: Seq<Float32>,
    distance: Float32,
    factor: Float32,
    i: int,
)
    requires
        ordinary(means, distance, factor),
        0 <= i < means.len(),
    ensures
        ({
            let lightest = qac_of_distance(quotient(distance, factor));
            let heaviest = qac_of_distance(product(distance, factor));
            let scale = field_at(means, distance, factor, i);
            &&& scale.finite()
            &&& scale.value() <= lightest.value()
            &&& (heaviest.value() - scale.value()) * 0x40_0000 <= lightest.value()
            &&& forall|j: int|
                0 <= j < means.len() && (#[trigger] means[j]).value() == greatest_of(means).value()
                    ==> field_at(means, distance, factor, j).value() <= scale.value()
        }),
{
    let lightest = qac_of_distance(quotient(distance, factor));
    let heaviest = qac_of_distance(product(distance, factor));
    let fall = difference(heaviest, lightest);
    let s = position_in_range(means[i], least_of(means), greatest_of(means));
    let part = product(fall, s);
    let scale = field_at(means, distance, factor, i);
    let one = float(ONE);
    assert(means[i].finite());
    lemma_one();
    lemma_ends(distance, factor);
    lemma_positions(means, i, i);
    if s.magnitude() < ONE {
        lemma_units_increase(s.magnitude(), ONE as nat);
    }
    if s.negative() {
        assert(units(0) == 0);
        lemma_zero_value(s);
    }
    lemma_fractions(fall, s, one);
    lemma_kept_by_one(fall);
    law_smoother_is_heavier(means, distance, factor, i, i);
    assert(units(0) == 0);
    // How far the fall reaches.
    let l = lightest.value();
    let h = heaviest.value();
    let d = (l - h) as nat;
    lemma_signed_value(!lightest.negative(), lightest.magnitude());
    lemma_finite_sum(heaviest, negated(lightest));
    let f = -fall.value();
    assert(f * 0x80_0000 <= d * 0x80_0001 && f <= l) by {
        if d > 0 {
            if lightest.negative() {
                lemma_zero_value(lightest);
            }
            law_rounding_is_monotone(d, 1, units(lightest.magnitude()), 1);
            lemma_rounding_keeps(lightest.magnitude());
            law_rounding_error(d);
            if rounded(d, 1) < lightest.magnitude() {
                lemma_units_increase(rounded(d, 1), lightest.magnitude());
            }
        }
    }
    // What is left.
    let exact = (l + part.value()) as nat;
    assert(l - f <= exact <= l);
    lemma_finite_sum(lightest, part);
    if exact > 0 {
        if lightest.negative() {
            lemma_zero_value(lightest);
        }
        law_rounding_is_monotone(exact, 1, units(lightest.magnitude()), 1);
        lemma_rounding_keeps(lightest.magnitude());
        law_rounding_error(exact);
        lemma_signed_value(false, rounded(exact, 1));
    } else {
        lemma_signed_value(lightest.negative() && part.negative(), 0);
    }
    assert(exact * 0x7f_ffff <= scale.value() * 0x80_0000);
    assert forall|j: int|
        0 <= j < means.len() && (#[trigger] means[j]).value() == greatest_of(
            means,
        ).value() implies field_at(means, distance, factor, j).value() <= scale.value() by {
        assert(means[j].finite());
        law_least_and_greatest(means, i);
        law_smoother_is_heavier(means, distance, factor, i, j);
        law_smoother_is_heavier(means, distance, factor, j, j);
        lemma_field_is_number(means, distance, factor, j);
    }
}

/// The mean of the smoothest block lies at the far end of the range.
proof fn lemma_far_end(means: Seq<Float32>, i: int)
    requires
        all_finite(means),
        difference(greatest_of(means), least_of(means)).finite(),
        0 <= i < means.len(),
        least_of(means).less(greatest_of(means)),
        means[i].value() == greatest_of(means).value(),
    ensures
        position_in_range(means[i], least_of(means), greatest_of(means)) == float(ONE),
{
    let low = least_of(means);
    let high = greatest_of(means);
    let whole = difference(high, low);
    let part = difference(means[i], low);
    let n = negated(low);
    assert(means[i].finite());
    lemma_one();
    law_least_and_greatest(means, i);
    lemma_rises(low, means[i], means[i], high);
    lemma_signed_value(!low.negative(), low.magnitude());
    lemma_finite_sum(means[i], n);
    lemma_finite_sum(high, n);
    law_sum_is_monotone(high, n, means[i], n);
    assert(part.value() == whole.value());
    assert(units(0) == 0);
    lemma_units_increase(0, whole.magnitude());
    if part.magnitude() < whole.magnitude() {
        lemma_units_increase(part.magnitude(), whole.magnitude());
    }
    if whole.magnitude() < part.magnitude() {
        lemma_units_increase(whole.magnitude(), part.magnitude());
    }
    let u = units(whole.magnitude());
    let p = pow2(149);
    assert((u * p) * 1 <= p * u && p * u <= (u * p) * 1) by (nonlinear_arith);
    law_rounding_is_monotone(u * p, u, p, 1);
    law_rounding_is_monotone(p, 1, u * p, u);
}

/// The smoothest block gets the scale for the distance times the range factor,
/// where the means differ at all, up to rounding: it is off by at most the part
/// in 2 to the power 22 of the largest scale.
pub proof fn law_smoothest_is_heaviest(
    means: Seq<Float32>,
    distance: Float32,
    factor: Float32,
    i: int,
)
    requires
        ordinary(means, distance, factor),
        0 <= i < means.len(),
        least_of(means).less(greatest_of(means)),
        means[i].value() == greatest_of(means).value(),
    ensures
        ({
            let lightest = qac_of_distance(quotient(distance, factor));
            let heaviest = qac_of_distance(product(distance, factor));
            let scale = field_at(means, distance, factor, i);
            &&& scale.finite()
            &&& (heaviest.value() - scale.value()) * 0x40_0000 <= lightest.value()
            &&& (scale.value() - heaviest.value()) * 0x40_0000 <= lightest.value()
        }),
{
    let lightest = qac_of_distance(quotient(distance, factor));
    let heaviest = qac_of_distance(product(distance, factor));
    let fall = difference(heaviest, lightest);
    let one = float(ONE);
    let part = product(fall, one);
    let scale = field_at(means, distance, factor, i);
    law_field_stays_in_its_range(means, distance, factor, i);
    lemma_far_end(means, i);
    lemma_one();
    lemma_ends(distance, factor);
    lemma_fractions(fall, one, one);
    lemma_kept_by_one(fall);
    assert(units(0) == 0);
    let l = lightest.value();
    let h = heaviest.value();
    // How far the fall reaches at least.
    let d = (l - h) as nat;
    let f = -fall.value();
    let m = lightest.magnitude();
    if lightest.negative() {
        lemma_zero_value(lightest);
    }
    lemma_rounding_keeps(m);
    lemma_signed_value(!lightest.negative(), lightest.magnitude());
    lemma_finite_sum(heaviest, negated(lightest));
    assert(d * 0x7f_ffff <= f * 0x80_0000 && f <= l) by {
        if d > 0 {
            law_rounding_is_monotone(d, 1, units(m), 1);
            law_rounding_error(d);
            if rounded(d, 1) < m {
                lemma_units_increase(rounded(d, 1), m);
            }
        }
    }
    // What is left at most.
    let exact = l - f;
    lemma_finite_sum(lightest, part);
    assert(scale.value() * 0x80_0000 <= exact * 0x80_0001) by {
        if exact > 0 {
            law_rounding_is_monotone(exact as nat, 1, units(m), 1);
            law_rounding_error(exact as nat);
            lemma_signed_value(false, rounded(exact as nat, 1));
        } else {
            lemma_signed_value(lightest.negative() && part.negative(), 0);
        }
    }
}

proof fn lemma_field_is_number(means: Seq<Float32>, distance: Float32, factor: Float32, i: int)
    requires
        ordinary(means, distance, factor),
        0 <= i < means.len(),
    ensures
        !field_at(means, distance, factor, i).nan(),
{
    let lightest = qac_of_distance(quotient(distance, factor));
    let fall = difference(qac_of_distance(product(distance, factor)), lightest);
    let s = position_in_range(means[i], least_of(means), greatest_of(means));
    assert(means[i].finite());
    lemma_ends(distance, factor);
    lemma_positions(means, i, i);
    lemma_fractions(fall, s, s);
    lemma_finite_sum(lightest, product(fall, s));
}

/// One times a finite number.
proof fn lemma_kept_by_one(a: Float32)
    requires
        a.finite(),
    ensures
        product(a, float(ONE)).value() == a.value(),
{
    lemma_one();
    let u = units(a.magnitude());
    let p = pow2(149);
    lemma_rounding_keeps(a.magnitude());
    assert((u * p) * 1 <= u * p && u * p <= (u * p) * 1);
    law_rounding_is_monotone(u * p, p, u, 1);
    law_rounding_is_monotone(u, 1, u * p, p);
    lemma_signed_value(a.negative(), a.magnitude());
}

/// With a range factor of one every block gets the scale for the distance.
pub proof fn law_range_of_one_is_uniform(means: Seq<Float32>, distance: Float32, i: int)
    requires
        ordinary(means, distance, float(ONE)),
        0 <= i < means.len(),
    ensures
        field_at(means, distance, float(ONE), i).value() == qac_of_distance(distance).value(),
{
    let one = float(ONE);
    lemma_one();
    let near = quotient(distance, one);
    let far = product(distance, one);
    lemma_times_one(distance);
    let lightest = qac_of_distance(near);
    let fall = difference(qac_of_distance(far), lightest);
    let s = position_in_range(means[i], least_of(means), greatest_of(means));
    let zero = signed(false, 0);
    assert(means[i].finite());
    lemma_ends(distance, one);
    law_qac_is_finite(distance);
    lemma_fall(lightest, lightest);
    lemma_positions(means, i, i);
    lemma_fractions(fall, s, s);
    assert(units(0) == 0);
    lemma_zero_value(fall);
    assert(product(fall, s).value() == 0) by {
        lemma_rounded_zero(pow2(149));
        assert(units(0) * units(s.magnitude()) == 0) by (nonlinear_arith)
            requires
                units(0) == 0,
        ;
        lemma_signed_value(fall.negative() != s.negative(), 0);
    }
    lemma_finite_sum(lightest, product(fall, s));
    lemma_finite_sum(lightest, zero);
    law_sum_is_monotone(lightest, product(fall, s), lightest, zero);
    law_sum_is_monotone(lightest, zero, lightest, product(fall, s));
    law_zero(lightest);
}

proof fn lemma_times_one(d: Float32)
    requires
        d.finite(),
        !d.negative(),
    ensures
        quotient(d, float(ONE)) == d,
        product(d, float(ONE)) == d,
{
    lemma_one();
    let u = units(d.magnitude());
    let p = pow2(149);
    lemma_rounding_keeps(d.magnitude());
    assert((u * p) * 1 <= u * p && u * p <= (u * p) * 1);
    law_rounding_is_monotone(u * p, p, u, 1);
    law_rounding_is_monotone(u, 1, u * p, p);
}

/// The scales that follow the mask of an image reach from that for half the
/// distance, where there is the most detail, to that for twice the distance,
/// where it is smoothest, up to rounding; where the means differ at all.
pub proof fn law_adaptive_field_reaches_from_half_to_twice(
    means: Seq<Float32>,
    distance: Float32,
    i: int,
)
    requires
        ordinary(means, distance, float(TWO)),
        0 <= i < means.len(),
        least_of(means).less(greatest_of(means)),
    ensures
        ({
            let field = adaptive_field(means, distance);
            let lightest = qac_of_distance(quotient(distance, float(TWO)));
            let heaviest = qac_of_distance(product(distance, float(TWO)));
            &&& field.len() == means.len()
            &&& means[i].value() == least_of(means).value() ==> field[i].value()
                == lightest.value()
            &&& means[i].value() == greatest_of(means).value() ==> {
                &&& (heaviest.value() - field[i].value()) * 0x40_0000 <= lightest.value()
                &&& (field[i].value() - heaviest.value()) * 0x40_0000 <= lightest.value()
            }
        }),
{
    if means[i].value() == least_of(means).value() {
        law_most_detail_is_lightest(means, distance, float(TWO), i);
    }
    if means[i].value() == greatest_of(means).value() {
        law_smoothest_is_heaviest(means, distance, float(TWO), i);
    }
}

} // verus!
