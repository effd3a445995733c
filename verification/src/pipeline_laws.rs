//! What holds of the pipeline at high quality.

use crate::device::Recording;
use crate::float::{
    law_rounding_is_monotone, lemma_finite_sum, lemma_nearest_exists, lemma_rounding_keeps,
    lemma_rounds_up, lemma_signed_value, lemma_units_at, lemma_units_increase, quotient, rounded,
    sum, units, whole, Float32, INFINITY_MAGNITUDE,
};
use crate::lossy_encoder::{FilterParameters, LossyEncoder};
use crate::persistent::{GaborishWeights, GpuPlane};
use crate::pipeline::{
    analysis_steps, derived_distance, mean_qac, pipeline_steps, restoration_steps, running_sum,
    sharpened_steps, synthesis_steps, uses_gaborish,
};
use crate::quality::{float, HALF, K_AC_QUANT, ONE};
use vstd::arithmetic::power2::{lemma_pow2_adds, lemma_pow2_pos, lemma_pow2_unfold, pow2};
use vstd::prelude::*;

verus! {

/// A scale that calls for no sharpening, 1.6, as a bit pattern.
pub const LIGHT_SCALE: u32 = 0x3fcc_cccd;

/// Twice the scale at distance one, as a bit pattern: the scale at a distance
/// of one half.
const HALF_DISTANCE_SCALE: u32 = 0x3fc3_d70a;

/// Whether the sum of this many scales, if all are 1.6, keeps pace with their
/// number. A sum in single precision is rounded with each scale that is added:
/// from two million on it grows by 1.5 at a time, until it has fallen behind;
/// from eight million on it grows by two, and catches up; and at 2 to the power
/// 25 it stands still.
pub open spec fn keeps_pace(n: nat) -> bool {
    n <= 5_079_898 || 5_517_036 <= n <= 21_931_002
}

/// What the sum of `n` light scales reaches at least, times 2 to the power 23.
spec fn reached(n: int) -> int {
    if n <= 1280 {
        0x400 * (13_107 * n)
    } else if n <= 2559 {
        0x800 * (8_395_034 + 6_554 * (n - 1281))
    } else if n <= 5119 {
        0x1000 * (8_388_800 + 3_277 * (n - 2560))
    } else if n <= 20_483 {
        0x4000 * (4_193_660 + 819 * (n - 5119))
    } else if n <= 40_943 {
        0x8000 * (8_388_798 + 410 * (n - 20_484))
    } else if n <= 81_863 {
        0x1_0000 * (8_388_699 + 205 * (n - 40_944))
    } else if n <= 328_587 {
        0x4_0000 * (4_194_273 + 51 * (n - 81_863))
    } else if n <= 651_226 {
        0x8_0000 * (8_388_624 + 26 * (n - 328_588))
    } else if n <= 1_296_503 {
        0x10_0000 * (8_388_619 + 13 * (n - 651_227))
    } else if n <= 5_490_807 {
        0x40_0000 * (4_194_305 + 3 * (n - 1_296_504))
    } else if n <= 9_685_111 {
        0x80_0000 * (8_388_609 + 2 * (n - 5_490_808))
    } else if n <= 18_073_720 {
        0x100_0000 * (8_388_608 + (n - 9_685_112))
    } else {
        0x100_0000 * 16_777_216int
    }
}

/// A number of few digits can be represented.
proof fn lemma_represented(q: nat, e: nat) -> (m: nat)
    requires
        q <= 0x100_0000,
        e <= 200,
    ensures
        units(m) == q * pow2(e),
        m < INFINITY_MAGNITUDE,
    decreases e,
{
    if q >= 0x80_0000 || e == 0 {
        lemma_units_at(e, q);
        (e * 0x80_0000 + q) as nat
    } else {
        let m = lemma_represented(2 * q, (e - 1) as nat);
        lemma_pow2_unfold(e);
        let p = pow2((e - 1) as nat);
        assert((2 * q) * p == q * (2 * p)) by (nonlinear_arith);
        m
    }
}

/// A sum reaches what can be represented and the exact sum reaches.
proof fn lemma_sum_reaches(a: Float32, b: Float32, m: nat)
    requires
        !a.nan() && !b.nan(),
        a.value() >= 0,
        b.value() > 0,
        m < INFINITY_MAGNITUDE,
        a.value() + b.value() >= units(m) || (m > 0 && 2 * (a.value() + b.value()) > units(
            (m - 1) as nat,
        ) + units(m)),
    ensures
        !sum(a, b).nan(),
        sum(a, b).value() >= units(m),
{
    assert(units(0) == 0);
    lemma_units_increase(0, INFINITY_MAGNITUDE as nat);
    lemma_units_increase(m, INFINITY_MAGNITUDE as nat);
    if a.finite() && b.finite() {
        let exact = (a.value() + b.value()) as nat;
        lemma_finite_sum(a, b);
        lemma_nearest_exists(exact, 1);
        if a.value() + b.value() >= units(m) {
            law_rounding_is_monotone(units(m), 1, exact, 1);
            lemma_rounding_keeps(m);
        } else {
            lemma_rounds_up(exact, 1, m);
        }
        if m < rounded(exact, 1) {
            lemma_units_increase(m, rounded(exact, 1));
        }
    }
}

/// 1.6 and one, in units.
proof fn lemma_light_scale()
    ensures
        units(LIGHT_SCALE as nat) == 13_421_773 * pow2(126),
        pow2(126) > 0,
        pow2(149) == 0x80_0000 * pow2(126),
{
    vstd::arithmetic::power2::lemma2_to64();
    lemma_pow2_pos(126);
    lemma_pow2_adds(126, 23);
    assert(pow2(23) == 0x80_0000);
}

/// Adding one more light scale to a sum, both times 2 to the power 23: `q` times
/// 2 to the power `k` is reached where the exact sum reaches it, or comes
/// nearest to it.
proof fn lemma_added(s: Float32, x: Float32, v: int, k: nat, w: int, q: int)
    requires
        !s.nan() && !x.nan(),
        v >= 0,
        s.value() >= v * pow2(126),
        x.value() >= units(LIGHT_SCALE as nat),
        k <= 24,
        w == pow2(k),
        0 <= q <= 0x100_0000,
        v + 13_421_773 >= w * q || (q > 0x80_0000 && 2 * (v + 13_421_773) > w * (2 * q - 1)),
    ensures
        !sum(s, x).nan(),
        sum(s, x).value() >= (w * q) * pow2(126),
{
    lemma_light_scale();
    let p = pow2(126) as int;
    let e = 126 + k;
    lemma_pow2_adds(126, k);
    assert(p * w == pow2(e));
    assert(v * p >= 0) by (nonlinear_arith)
        requires
            v >= 0,
            p > 0,
    ;
    assert(q * (p * w) == (w * q) * p) by (nonlinear_arith);
    let exact = s.value() + x.value();
    assert(exact >= (v + 13_421_773) * p) by (nonlinear_arith)
        requires
            exact >= v * p + 13_421_773 * p,
    ;
    let m: nat;
    if v + 13_421_773 >= w * q {
        m = lemma_represented(q as nat, e);
        assert((v + 13_421_773) * p >= (w * q) * p) by (nonlinear_arith)
            requires
                v + 13_421_773 >= w * q,
                p > 0,
        ;
    } else {
        lemma_units_at(e, q as nat);
        lemma_units_at(e, (q - 1) as nat);
        m = (e * 0x80_0000 + q) as nat;
        assert((q - 1) * (p * w) + q * (p * w) == (w * (2 * q - 1)) * p) by (nonlinear_arith);
        assert(2 * ((v + 13_421_773) * p) > (w * (2 * q - 1)) * p) by (nonlinear_arith)
            requires
                2 * (v + 13_421_773) > w * (2 * q - 1),
                p > 0,
        ;
        lemma_represented(q as nat, e);
        assert(m < INFINITY_MAGNITUDE);
    }
    lemma_sum_reaches(s, x, m);
}

/// Adding one more light scale.
proof fn lemma_one_more(s: Float32, x: Float32, n: int)
    requires
        0 <= n,
        !s.nan() && !x.nan(),
        s.value() >= reached(n) * pow2(126),
        x.value() >= units(LIGHT_SCALE as nat),
    ensures
        !sum(s, x).nan(),
        sum(s, x).value() >= reached(n + 1) * pow2(126),
{
    vstd::arithmetic::power2::lemma2_to64();
    let v = reached(n);
    if n < 1280 {
        lemma_added(s, x, v, 10, 0x400, 13_107 * (n + 1));
    } else if n < 2559 {
        lemma_added(s, x, v, 11, 0x800, 8_395_034 + 6_554 * (n - 1280));
    } else if n < 5119 {
        lemma_added(s, x, v, 12, 0x1000, 8_388_800 + 3_277 * (n - 2559));
    } else if n < 20_483 {
        lemma_added(s, x, v, 14, 0x4000, 4_193_660 + 819 * (n - 5118));
    } else if n < 40_943 {
        lemma_added(s, x, v, 15, 0x8000, 8_388_798 + 410 * (n - 20_483));
    } else if n < 81_863 {
        lemma_added(s, x, v, 16, 0x1_0000, 8_388_699 + 205 * (n - 40_943));
    } else if n < 328_587 {
        lemma_added(s, x, v, 18, 0x4_0000, 4_194_273 + 51 * (n - 81_862));
    } else if n < 651_226 {
        lemma_added(s, x, v, 19, 0x8_0000, 8_388_624 + 26 * (n - 328_587));
    } else if n < 1_296_503 {
        lemma_added(s, x, v, 20, 0x10_0000, 8_388_619 + 13 * (n - 651_226));
    } else if n == 1_296_503 {
        lemma_added(s, x, v, 21, 0x20_0000, 8_388_610);
    } else if n < 5_490_807 {
        lemma_added(s, x, v, 22, 0x40_0000, 4_194_305 + 3 * (n - 1_296_503));
    } else if n < 9_685_111 {
        lemma_added(s, x, v, 23, 0x80_0000, 8_388_609 + 2 * (n - 5_490_807));
    } else if n < 18_073_720 {
        lemma_added(s, x, v, 24, 0x100_0000, 8_388_608 + (n - 9_685_111));
    } else {
        lemma_added(s, x, v, 24, 0x100_0000, 16_777_216);
    }
}

/// Whether all of some scales are light.
pub open spec fn all_light(qac: Seq<Float32>) -> bool {
    forall|i: int|
        0 <= i < qac.len() ==> !(#[trigger] qac[i]).nan() && !qac[i].less(float(LIGHT_SCALE))
}

proof fn lemma_sum_of_light(qac: Seq<Float32>)
    requires
        all_light(qac),
    ensures
        !running_sum(qac).nan(),
        running_sum(qac).value() >= reached(qac.len() as int) * pow2(126),
    decreases qac.len(),
{
    assert(units(0) == 0);
    if qac.len() > 0 {
        let before = qac.drop_last();
        assert forall|i: int| 0 <= i < before.len() implies !(#[trigger] before[i]).nan()
            && !before[i].less(float(LIGHT_SCALE)) by {
            assert(before[i] == qac[i]);
        }
        lemma_sum_of_light(before);
        assert(!qac[qac.len() - 1].nan() && !qac[qac.len() - 1].less(float(LIGHT_SCALE)));
        lemma_one_more(running_sum(before), qac.last(), before.len() as int);
    } else {
        assert(0 * pow2(126) == 0) by (nonlinear_arith);
    }
}

/// A number of blocks as a number in single precision: not zero, and above 2 to
/// the power 24 no more than the next even number.
proof fn lemma_count(n: nat) -> (c: nat)
    requires
        0 < n <= 0x200_0000,
    ensures
        c == if n <= 0x100_0000 {
            n
        } else {
            (n + n % 2) as nat
        },
        whole(n).finite(),
        !whole(n).negative(),
        0 < units(whole(n).magnitude()) <= c * pow2(149),
{
    lemma_light_scale();
    let one = pow2(149);
    let c = if n <= 0x100_0000 {
        n
    } else {
        (n + n % 2) as nat
    };
    let least = lemma_represented(1, 149);
    let m: nat;
    if n <= 0x100_0000 {
        m = lemma_represented(n, 149);
    } else {
        let half = (c / 2) as nat;
        assert(c == 2 * half);
        m = lemma_represented(half, 150);
        lemma_pow2_unfold(150);
        assert(half * (2 * one) == c * one) by (nonlinear_arith)
            requires
                c == 2 * half,
        ;
    }
    assert(1 * one <= n * one && n * one <= c * one) by (nonlinear_arith)
        requires
            1 <= n <= c,
    ;
    let r = rounded(n * one, 1);
    law_rounding_is_monotone(1 * one, 1, n * one, 1);
    law_rounding_is_monotone(n * one, 1, c * one, 1);
    lemma_rounding_keeps(least);
    lemma_rounding_keeps(m);
    if least < r {
        lemma_units_increase(least, r);
    }
    if r < m {
        lemma_units_increase(r, m);
    }
    lemma_signed_value(false, r);
    c
}

/// The mean of light scales is not below the scale at a distance of one half.
proof fn lemma_mean_of_light(qac: Seq<Float32>)
    requires
        all_light(qac),
        qac.len() > 0,
        keeps_pace(qac.len()),
    ensures
        !mean_qac(qac).nan(),
        !mean_qac(qac).negative(),
        mean_qac(qac).magnitude() >= HALF_DISTANCE_SCALE,
{
    let n = qac.len();
    let s = running_sum(qac);
    let count = whole(n);
    lemma_sum_of_light(qac);
    lemma_light_scale();
    let one = pow2(149);
    let p = pow2(126) as int;
    let v = reached(n as int);
    let c = lemma_count(n);
    let d = units(count.magnitude());
    assert(units(0) == 0);
    assert(count.magnitude() > 0);
    assert(v > 0 && 2 * v > 25_669_139 * c);
    assert(v * p > 0) by (nonlinear_arith)
        requires
            v > 0,
            p > 0,
    ;
    assert(!s.negative()) by {
        lemma_units_increase(0, INFINITY_MAGNITUDE as nat);
    }
    let u = units(s.magnitude());
    let half = HALF_DISTANCE_SCALE as nat;
    let h = units(half);
    let below = units((half - 1) as nat);
    assert(h == 12_834_570 * p && below == 12_834_569 * p);
    if s.finite() {
        let den = (c * one) as nat;
        assert(den > 0 && (u * one) * d <= (u * one) * den) by (nonlinear_arith)
            requires
                0 < d <= c * one,
                den == c * one,
                u >= 0,
                one >= 0,
        ;
        assert(2 * (u * one) > (below + h) * den) by (nonlinear_arith)
            requires
                u >= v * p,
                h == 12_834_570 * p,
                below == 12_834_569 * p,
                2 * v > 25_669_139 * c,
                p > 0,
                one > 0,
                den == c * one,
        {
            assert(below + h == 25_669_139 * p);
            assert((25_669_139 * p) * (c * one) == (25_669_139 * c) * (p * one));
            assert(p * one > 0);
            assert((2 * v) * (p * one) > (25_669_139 * c) * (p * one));
            assert((2 * v) * (p * one) == 2 * ((v * p) * one));
            assert((v * p) * one <= u * one);
        }
        lemma_rounds_up(u * one, den, half);
        law_rounding_is_monotone(u * one, den, u * one, d);
        lemma_nearest_exists(u * one, d);
        lemma_signed_value(false, rounded(u * one, d));
    } else {
        lemma_signed_value(false, INFINITY_MAGNITUDE as nat);
    }
}

/// Where every block has a scale of at least 1.6, an image is neither sharpened
/// nor smoothed; as far as the sum of as many scales keeps pace with their
/// number, see [`keeps_pace`].
pub proof fn law_light_scales_are_not_sharpened(qac: Seq<Float32>)
    requires
        all_light(qac),
        qac.len() > 0,
        keeps_pace(qac.len()),
    ensures
        !uses_gaborish(derived_distance(qac)),
{
    let mean = mean_qac(qac);
    lemma_mean_of_light(qac);
    lemma_light_scale();
    assert(units(0) == 0);
    lemma_units_increase(0, mean.magnitude());
    lemma_units_increase(0, HALF as nat);
    let half = HALF_DISTANCE_SCALE as nat;
    if half < mean.magnitude() {
        lemma_units_increase(half, mean.magnitude());
    }
    if mean.finite() {
        let one = pow2(149);
        let k = units(K_AC_QUANT as nat);
        let u = units(mean.magnitude());
        let h = units(HALF as nat);
        let p = pow2(126);
        lemma_pow2_unfold(126);
        let q = pow2(125);
        assert(p == 2 * q);
        assert(k == 12_834_570 * q);
        assert(2 * (12_834_570 * q) == 12_834_570 * (2 * q)) by (nonlinear_arith);
        assert(h == pow2(148)) by {
            vstd::arithmetic::power2::lemma2_to64();
            lemma_pow2_adds(125, 23);
            assert(pow2(23) == 0x80_0000);
            assert(h == 0x80_0000 * pow2(125));
        }
        assert(units(half) == 12_834_570 * p);
        assert(one == 2 * h) by {
            lemma_pow2_unfold(149);
        }
        assert((k * one) * 1 <= h * u) by (nonlinear_arith)
            requires
                one == 2 * h,
                2 * k == 12_834_570 * p,
                12_834_570 * p <= u,
                h >= 0,
        ;
        lemma_nearest_exists(k * one, u);
        law_rounding_is_monotone(k * one, u, h, 1);
        lemma_rounding_keeps(HALF as nat);
        let r = rounded(k * one, u);
        lemma_signed_value(false, r);
        if r < HALF {
            lemma_units_increase(r, HALF as nat);
        }
    } else {
        lemma_signed_value(false, 0);
    }
}

/// Where the scales of an image call for no sharpening, the weights of the
/// sharpening filter do not matter: the same is recorded and returned, whatever
/// they are.
pub proof fn law_no_sharpening_needs_no_weights(
    s0: Recording,
    le: LossyEncoder,
    weights: GaborishWeights,
    r: GpuPlane,
    g: GpuPlane,
    b: GpuPlane,
    qac: Seq<Float32>,
    f: FilterParameters,
    inv_sigma: Seq<Float32>,
)
    requires
        !uses_gaborish(derived_distance(qac)),
    ensures
        pipeline_steps(s0, LossyEncoder { weights, ..le }, r, g, b, qac, f, inv_sigma)
            == pipeline_steps(s0, le, r, g, b, qac, f, inv_sigma),
{
    reveal(pipeline_steps);
    reveal(analysis_steps);
    reveal(sharpened_steps);
    reveal(synthesis_steps);
    reveal(restoration_steps);
}

/// Where every block has a scale of at least 1.6, and the sum of as many scales
/// keeps pace with their number (up to 5,079,898 blocks, and from 5,517,036 to
/// 21,931,002), the weights of the sharpening filter do not matter.
pub proof fn law_light_scales_need_no_weights(
    s0: Recording,
    le: LossyEncoder,
    weights: GaborishWeights,
    r: GpuPlane,
    g: GpuPlane,
    b: GpuPlane,
    qac: Seq<Float32>,
    f: FilterParameters,
    inv_sigma: Seq<Float32>,
)
    requires
        all_light(qac),
        qac.len() > 0,
        keeps_pace(qac.len()),
    ensures
        pipeline_steps(s0, LossyEncoder { weights, ..le }, r, g, b, qac, f, inv_sigma)
            == pipeline_steps(s0, le, r, g, b, qac, f, inv_sigma),
{
    law_light_scales_are_not_sharpened(qac);
    law_no_sharpening_needs_no_weights(s0, le, weights, r, g, b, qac, f, inv_sigma);
}

/// The first `n` of some numbers added up in turn.
pub open spec fn added_up(s: Seq<Float32>, n: int) -> Float32
    decreases n,
{
    if n <= 0 {
        float(0)
    } else {
        sum(added_up(s, n - 1), s[n - 1])
    }
}

proof fn lemma_added_up(s: Seq<Float32>, n: int)
    requires
        0 <= n <= s.len(),
    ensures
        running_sum(s.take(n)) == added_up(s, n),
    decreases n,
{
    if n > 0 {
        lemma_added_up(s, n - 1);
        assert(s.take(n).drop_last() =~= s.take(n - 1));
    }
}

/// The distance that the scales of an image stand for is 0.765 over their mean,
/// to which every one of them counts; one where the mean is not above zero.
pub proof fn law_distance_is_of_the_mean(qac: Seq<Float32>)
    requires
        qac.len() > 0,
    ensures
        ({
            let mean = quotient(added_up(qac, qac.len() as int), whole(qac.len()));
            &&& float(0).less(mean) ==> derived_distance(qac) == quotient(
                float(K_AC_QUANT),
                mean,
            )
            &&& !float(0).less(mean) ==> derived_distance(qac) == float(ONE)
        }),
{
    lemma_added_up(qac, qac.len() as int);
    assert(qac.take(qac.len() as int) =~= qac);
}

} // verus!
