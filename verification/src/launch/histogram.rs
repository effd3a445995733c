//! Launch that counts tokens.

use crate::device::{
    spread, spread_over, word_array, words, Handle, Kernel, Launch, LaunchSpec, Scalar,
};
use vstd::arithmetic::power2::{lemma_pow2_pos, pow2};
use vstd::prelude::*;

verus! {

/// The launch that [`histogram_count_pow2`] describes.
pub open spec fn histogram_count_pow2_launch(
    tokens: Handle,
    histogram: Handle,
    n_tokens: u32,
    bucket_count: u32,
) -> LaunchSpec {
    LaunchSpec {
        kernel: Kernel::HistogramCountPow2,
        grid: spread(n_tokens as int, 256),
        arrays: seq![
            words(tokens, n_tokens as int),
            words(histogram, bucket_count as int),
        ],
        scalars: seq![
            Scalar::U32((bucket_count - 1) as u32),
        ],
    }
}

/// Counts tokens by their low bits into a histogram that starts out zero. No
/// tokens, no launch.
pub fn histogram_count_pow2(
    tokens: Handle,
    histogram: Handle,
    n_tokens: u32,
    bucket_count: u32,
) -> (launch: Option<Launch>)
    requires
        is_power_of_two(bucket_count),
    ensures
        n_tokens == 0 ==> launch is None,
        !(n_tokens == 0) ==> launch is Some && launch->0@ == histogram_count_pow2_launch(
            tokens,
            histogram,
            n_tokens,
            bucket_count,
        ),
{
    if n_tokens == 0 {
        return None;
    }
    proof {
        lemma_power_of_two_positive(bucket_count);
    }
    let launch: Launch = Launch {
        kernel: Kernel::HistogramCountPow2,
        grid: spread_over(n_tokens, 256),
        arrays: vec![
            word_array(tokens, n_tokens as u64),
            word_array(histogram, bucket_count as u64),
        ],
        scalars: vec![
            Scalar::U32((bucket_count - 1) as u32),
        ],
    };
    assert(
        launch@.arrays =~= histogram_count_pow2_launch(
            tokens,
            histogram,
            n_tokens,
            bucket_count,
        ).arrays
    );
    assert(
        launch@.scalars =~= histogram_count_pow2_launch(
            tokens,
            histogram,
            n_tokens,
            bucket_count,
        ).scalars
    );
    Some(launch)
}

/// Whether a number is a power of two.
pub open spec fn is_power_of_two(n: u32) -> bool {
    exists|k: nat| k < 32 && n == #[trigger] pow2(k)
}

pub(crate) proof fn lemma_power_of_two_positive(n: u32)
    requires
        is_power_of_two(n),
    ensures
        n > 0,
{
    let k = choose|k: nat| k < 32 && n == #[trigger] pow2(k);
    lemma_pow2_pos(k);
}

} // verus!
