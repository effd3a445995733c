//! Launch that counts nonzero coefficients.

use crate::device::{spread, spread_over, word_array, words, Handle, Kernel, Launch, LaunchSpec};
use vstd::prelude::*;

verus! {

/// The launch that [`nzeros_count_dct8`] describes.
pub open spec fn nzeros_count_dct8_launch(
    quant_ac: Handle,
    nzeros: Handle,
    num_blocks: u32,
) -> LaunchSpec {
    LaunchSpec {
        kernel: Kernel::NzerosCountDct8,
        grid: spread(num_blocks as int, 64),
        arrays: seq![
            words(quant_ac, num_blocks * 64),
            words(nzeros, num_blocks as int),
        ],
        scalars: seq![],
    }
}

/// Counts the nonzero coefficients of each DCT8 block.
pub fn nzeros_count_dct8(
    quant_ac: Handle,
    nzeros: Handle,
    num_blocks: u32,
) -> (launch: Launch)
    ensures
        launch@ == nzeros_count_dct8_launch(quant_ac, nzeros, num_blocks),
{
    let launch: Launch = Launch {
        kernel: Kernel::NzerosCountDct8,
        grid: spread_over(num_blocks, 64),
        arrays: vec![
            word_array(quant_ac, num_blocks as u64 * 64),
            word_array(nzeros, num_blocks as u64),
        ],
        scalars: Vec::new(),
    };
    assert(launch@.arrays =~= nzeros_count_dct8_launch(quant_ac, nzeros, num_blocks).arrays);
    assert(launch@.scalars =~= nzeros_count_dct8_launch(quant_ac, nzeros, num_blocks).scalars);
    launch
}

} // verus!
