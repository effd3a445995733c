//! Launch for the block mask of the transform search.

use crate::device::{
    spread, spread_over, word_array, words, Handle, Kernel, Launch, LaunchSpec, Scalar,
};
use vstd::prelude::*;

verus! {

/// The launch that [`mask_for_ac_strategy`] describes.
pub open spec fn mask_for_ac_strategy_launch(
    aq_map: Handle,
    out: Handle,
    n: u32,
) -> LaunchSpec {
    LaunchSpec {
        kernel: Kernel::MaskForAcStrategy,
        grid: spread(n as int, 256),
        arrays: seq![
            words(aq_map, n as int),
            words(out, n as int),
        ],
        scalars: seq![
            Scalar::U32(n),
        ],
    }
}

/// The block mask of the transform search, from the adaptive quantization map.
pub fn mask_for_ac_strategy(
    aq_map: Handle,
    out: Handle,
    n: u32,
) -> (launch: Launch)
    ensures
        launch@ == mask_for_ac_strategy_launch(aq_map, out, n),
{
    let launch: Launch = Launch {
        kernel: Kernel::MaskForAcStrategy,
        grid: spread_over(n, 256),
        arrays: vec![
            word_array(aq_map, n as u64),
            word_array(out, n as u64),
        ],
        scalars: vec![
            Scalar::U32(n),
        ],
    };
    assert(launch@.arrays =~= mask_for_ac_strategy_launch(aq_map, out, n).arrays);
    assert(launch@.scalars =~= mask_for_ac_strategy_launch(aq_map, out, n).scalars);
    launch
}

} // verus!
