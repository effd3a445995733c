//! The median of mask means, and what it says of the content.

use crate::float::{lemma_units_increase, units, Float32, INFINITY_MAGNITUDE, SIGN_BIT};
use crate::lossy_encoder::LossyEncoder;
use crate::quality::float;
use vstd::prelude::*;

verus! {

/// Above this median of the mask means, 95, content looks like a screenshot;
/// as a bit pattern.
pub const SCREENSHOT_MEDIAN_MASK_THRESHOLD: u32 = 0x42be_0000;

/// Whether `a` comes before `b` when numbers are sorted: what is not a number
/// comes last.
pub open spec fn precedes(a: Float32, b: Float32) -> bool {
    !a.nan() && (b.nan() || a.less(b))
}

/// How many of the numbers come before `m`.
pub open spec fn count_less(s: Seq<Float32>, m: Float32) -> nat
    decreases s.len(),
{
    if s.len() == 0 {
        0
    } else {
        count_less(s.drop_last(), m) + if precedes(s.last(), m) {
            1nat
        } else {
            0nat
        }
    }
}

/// How many of the numbers do not come after `m`.
pub open spec fn count_not_greater(s: Seq<Float32>, m: Float32) -> nat
    decreases s.len(),
{
    if s.len() == 0 {
        0
    } else {
        count_not_greater(s.drop_last(), m) + if precedes(m, s.last()) {
            0nat
        } else {
            1nat
        }
    }
}

/// Whether `m` is what stands at half the length when the numbers are sorted:
/// no more than that many come before it, and more than that many do not come
/// after it.
pub open spec fn is_median(s: Seq<Float32>, m: Float32) -> bool {
    count_less(s, m) <= s.len() / 2 < count_not_greater(s, m)
}

/// The place of a number in the order of all numbers.
spec fn rank(a: Float32) -> int {
    if a.nan() {
        SIGN_BIT + INFINITY_MAGNITUDE + 1
    } else if a.negative() {
        SIGN_BIT - a.magnitude()
    } else {
        SIGN_BIT + a.magnitude()
    }
}

proof fn lemma_rank_orders(a: Float32, b: Float32)
    ensures
        precedes(a, b) <==> rank(a) < rank(b),
{
    assert(units(0) == 0);
    if a.magnitude() > 0 {
        lemma_units_increase(0, a.magnitude());
    }
    if b.magnitude() > 0 {
        lemma_units_increase(0, b.magnitude());
    }
    if a.magnitude() < b.magnitude() {
        lemma_units_increase(a.magnitude(), b.magnitude());
    }
    if b.magnitude() < a.magnitude() {
        lemma_units_increase(b.magnitude(), a.magnitude());
    }
}

/// How many of the numbers have a rank below `k`.
spec fn count_below(s: Seq<Float32>, k: int) -> nat
    decreases s.len(),
{
    if s.len() == 0 {
        0
    } else {
        count_below(s.drop_last(), k) + if rank(s.last()) < k {
            1nat
        } else {
            0nat
        }
    }
}

proof fn lemma_count_ends(s: Seq<Float32>)
    ensures
        count_below(s, SIGN_BIT - INFINITY_MAGNITUDE) == 0,
        count_below(s, SIGN_BIT + INFINITY_MAGNITUDE + 2) == s.len(),
    decreases s.len(),
{
    if s.len() > 0 {
        lemma_count_ends(s.drop_last());
    }
}

proof fn lemma_counts(s: Seq<Float32>, m: Float32)
    ensures
        count_less(s, m) == count_below(s, rank(m)),
        count_not_greater(s, m) == count_below(s, rank(m) + 1),
    decreases s.len(),
{
    if s.len() > 0 {
        lemma_counts(s.drop_last(), m);
        lemma_rank_orders(s.last(), m);
        lemma_rank_orders(m, s.last());
    }
}

fn rank_of(a: Float32) -> (r: u32)
    ensures
        r == rank(a),
{
    if a.is_nan() {
        SIGN_BIT + INFINITY_MAGNITUDE + 1
    } else if a.bits >= SIGN_BIT {
        SIGN_BIT - (a.bits - SIGN_BIT)
    } else {
        SIGN_BIT + a.bits
    }
}

fn count_ranks_below(s: &[Float32], k: u32) -> (r: usize)
    ensures
        r == count_below(s@, k as int),
        r <= s@.len(),
{
    let mut n: usize = 0;
    let mut i: usize = 0;
    while i < s.len()
        invariant
            i <= s@.len(),
            n <= i,
            n == count_below(s@.take(i as int), k as int),
        decreases s@.len() - i,
    {
        proof {
            assert(s@.take(i + 1).drop_last() =~= s@.take(i as int));
            assert(s@.take(i + 1).last() == s@[i as int]);
        }
        if rank_of(s[i]) < k {
            n = n + 1;
        }
        i = i + 1;
    }
    assert(s@.take(i as int) =~= s@);
    n
}

/// What stands at half the length when the numbers are sorted, those that are
/// a NaN last; none where there are no numbers.
pub fn median_of(s: &[Float32]) -> (r: Option<Float32>)
    ensures
        s@.len() == 0 <==> r is None,
        r matches Some(m) ==> is_median(s@, m),
{
    let n: usize = s.len();
    if n == 0 {
        return None;
    }
    let k: usize = n / 2;
    let mut low: u32 = SIGN_BIT - INFINITY_MAGNITUDE;
    let mut high: u32 = SIGN_BIT + INFINITY_MAGNITUDE + 2;
    proof {
        lemma_count_ends(s@);
    }
    while high - low > 1
        invariant
            n == s@.len(),
            k == n / 2,
            SIGN_BIT - INFINITY_MAGNITUDE <= low < high <= SIGN_BIT + INFINITY_MAGNITUDE + 2,
            count_below(s@, low as int) <= k < count_below(s@, high as int),
        decreases high - low,
    {
        let mid: u32 = low + (high - low) / 2;
        if count_ranks_below(s, mid) <= k {
            low = mid;
        } else {
            high = mid;
        }
    }
    let m: Float32 = if low >= SIGN_BIT {
        Float32::from_bits(low - SIGN_BIT)
    } else {
        Float32::from_bits(SIGN_BIT + (SIGN_BIT - low))
    };
    proof {
        assert(rank(m) == low);
        lemma_counts(s@, m);
    }
    Some(m)
}

/// Whether content with these mask means looks like a screenshot: whether
/// their median lies above the threshold. Without means it does not.
pub open spec fn screenshot_median(median: Option<Float32>) -> bool {
    match median {
        Some(m) => float(SCREENSHOT_MEDIAN_MASK_THRESHOLD).less(m),
        None => false,
    }
}

pub(crate) fn looks_like_screenshot(median: Option<Float32>) -> (r: bool)
    ensures
        r == screenshot_median(median),
{
    match median {
        Some(m) => Float32::from_bits(SCREENSHOT_MEDIAN_MASK_THRESHOLD).lt(m),
        None => false,
    }
}

impl LossyEncoder {
    /// Whether content with these mask means looks like a screenshot: whether
    /// their median lies above the threshold.
    pub fn content_looks_like_screenshot(&self, block_means: &[Float32]) -> (r: bool)
        ensures
            block_means@.len() == 0 ==> !r,
            forall|m: Float32| #[trigger]
                is_median(block_means@, m) ==> r == float(SCREENSHOT_MEDIAN_MASK_THRESHOLD).less(
                    m,
                ),
    {
        let median: Option<Float32> = median_of(block_means);
        proof {
            assert forall|m: Float32| #[trigger] is_median(
                block_means@,
                m,
            ) implies screenshot_median(median) == float(SCREENSHOT_MEDIAN_MASK_THRESHOLD).less(
                m,
            ) by {
                lemma_no_median_of_none(block_means@, m);
                if let Some(other) = median {
                    law_median_is_unique(block_means@, m, other);
                }
            }
        }
        looks_like_screenshot(median)
    }
}

proof fn lemma_no_median_of_none(s: Seq<Float32>, m: Float32)
    ensures
        s.len() == 0 ==> !is_median(s, m),
{
}

proof fn lemma_fewer_below(s: Seq<Float32>, a: int, b: int)
    requires
        a <= b,
    ensures
        count_below(s, a) <= count_below(s, b),
    decreases s.len(),
{
    if s.len() > 0 {
        lemma_fewer_below(s.drop_last(), a, b);
    }
}

/// Two medians of the same numbers are the same number, or none is one.
pub proof fn law_median_is_unique(s: Seq<Float32>, a: Float32, b: Float32)
    requires
        is_median(s, a),
        is_median(s, b),
    ensures
        a.nan() == b.nan(),
        !a.nan() ==> a.value() == b.value(),
{
    lemma_counts(s, a);
    lemma_counts(s, b);
    if rank(a) < rank(b) {
        lemma_fewer_below(s, rank(a) + 1, rank(b));
    }
    if rank(b) < rank(a) {
        lemma_fewer_below(s, rank(b) + 1, rank(a));
    }
    lemma_rank_orders(a, b);
    lemma_rank_orders(b, a);
}

/// Of numbers in order, those that are not numbers last, the one at half the
/// length is the median.
pub proof fn law_median_stands_in_the_middle(s: Seq<Float32>, k: int)
    requires
        0 <= k < s.len(),
        k == s.len() / 2,
        forall|i: int, j: int|
            0 <= i <= j < s.len() ==> !precedes(#[trigger] s[j], #[trigger] s[i]),
    ensures
        is_median(s, s[k]),
{
    lemma_ordered_counts(s, s.len() as int, k);
    assert(s.take(s.len() as int) =~= s);
}

/// How many of the first `n` of numbers in order come before one of them, and
/// how many do not come after it.
proof fn lemma_ordered_counts(s: Seq<Float32>, n: int, k: int)
    requires
        0 <= n <= s.len(),
        0 <= k < s.len(),
        forall|i: int, j: int|
            0 <= i <= j < s.len() ==> !precedes(#[trigger] s[j], #[trigger] s[i]),
    ensures
        count_less(s.take(n), s[k]) <= k,
        count_less(s.take(n), s[k]) <= n,
        count_not_greater(s.take(n), s[k]) >= if n <= k + 1 {
            n
        } else {
            k + 1
        },
    decreases n,
{
    if n > 0 {
        lemma_ordered_counts(s, n - 1, k);
        assert(s.take(n).drop_last() =~= s.take(n - 1));
        assert(s.take(n).last() == s[n - 1]);
        if n - 1 >= k {
            assert(!precedes(s[n - 1], s[k]));
        } else {
            assert(!precedes(s[k], s[n - 1]));
        }
    }
}

} // verus!
