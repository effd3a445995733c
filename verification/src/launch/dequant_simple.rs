//! Launches for the dequantization of single coefficients.

use crate::device::{
    area, cube_each, one_cube_each, word_array, words, Handle, Kernel, Launch, LaunchSpec, Scalar,
};
use crate::float::Float32;
use vstd::prelude::*;

verus! {

/// The launch that [`dequant_simple`] describes.
pub open spec fn dequant_simple_launch(
    quant: Handle,
    weights: Handle,
    output: Handle,
    num_blocks: u32,
    block_size: u32,
) -> LaunchSpec {
    LaunchSpec {
        kernel: Kernel::DequantSimple,
        grid: cube_each(num_blocks, 1),
        arrays: seq![
            words(quant, num_blocks * block_size),
            words(weights, num_blocks * block_size),
            words(output, num_blocks * block_size),
        ],
        scalars: seq![
            Scalar::U32(block_size),
        ],
    }
}

/// Multiplies quantized coefficients by weights, one weight per coefficient.
pub fn dequant_simple(
    quant: Handle,
    weights: Handle,
    output: Handle,
    num_blocks: u32,
    block_size: u32,
) -> (launch: Launch)
    ensures
        launch@ == dequant_simple_launch(quant, weights, output, num_blocks, block_size),
{
    let launch: Launch = Launch {
        kernel: Kernel::DequantSimple,
        grid: one_cube_each(num_blocks, 1),
        arrays: vec![
            word_array(quant, area(num_blocks, block_size)),
            word_array(weights, area(num_blocks, block_size)),
            word_array(output, area(num_blocks, block_size)),
        ],
        scalars: vec![
            Scalar::U32(block_size),
        ],
    };
    assert(
        launch@.arrays =~= dequant_simple_launch(
            quant,
            weights,
            output,
            num_blocks,
            block_size,
        ).arrays
    );
    assert(
        launch@.scalars =~= dequant_simple_launch(
            quant,
            weights,
            output,
            num_blocks,
            block_size,
        ).scalars
    );
    launch
}

/// The launch that [`dequant_simple_broadcast_w`] describes.
pub open spec fn dequant_simple_broadcast_w_launch(
    quant: Handle,
    weights: Handle,
    output: Handle,
    num_blocks: u32,
    block_size: u32,
) -> LaunchSpec {
    LaunchSpec {
        kernel: Kernel::DequantSimpleBroadcastW,
        grid: cube_each(num_blocks, 1),
        arrays: seq![
            words(quant, num_blocks * block_size),
            words(weights, block_size as int),
            words(output, num_blocks * block_size),
        ],
        scalars: seq![
            Scalar::U32(block_size),
        ],
    }
}

/// Multiplies quantized coefficients by weights, one weight matrix for all
/// blocks.
pub fn dequant_simple_broadcast_w(
    quant: Handle,
    weights: Handle,
    output: Handle,
    num_blocks: u32,
    block_size: u32,
) -> (launch: Launch)
    ensures
        launch@ == dequant_simple_broadcast_w_launch(
            quant,
            weights,
            output,
            num_blocks,
            block_size,
        ),
{
    let launch: Launch = Launch {
        kernel: Kernel::DequantSimpleBroadcastW,
        grid: one_cube_each(num_blocks, 1),
        arrays: vec![
            word_array(quant, area(num_blocks, block_size)),
            word_array(weights, block_size as u64),
            word_array(output, area(num_blocks, block_size)),
        ],
        scalars: vec![
            Scalar::U32(block_size),
        ],
    };
    assert(
        launch@.arrays =~= dequant_simple_broadcast_w_launch(
            quant,
            weights,
            output,
            num_blocks,
            block_size,
        ).arrays
    );
    assert(
        launch@.scalars =~= dequant_simple_broadcast_w_launch(
            quant,
            weights,
            output,
            num_blocks,
            block_size,
        ).scalars
    );
    launch
}

/// The launch that [`dequant_strategy_broadcast_w`] describes.
pub open spec fn dequant_strategy_broadcast_w_launch(
    quant: Handle,
    weights: Handle,
    qac: Handle,
    output: Handle,
    num_blocks: u32,
    block_size: u32,
) -> LaunchSpec {
    LaunchSpec {
        kernel: Kernel::DequantStrategyBroadcastW,
        grid: cube_each(num_blocks, 1),
        arrays: seq![
            words(quant, num_blocks * block_size),
            words(weights, block_size as int),
            words(qac, num_blocks as int),
            words(output, num_blocks * block_size),
        ],
        scalars: seq![
            Scalar::U32(block_size),
        ],
    }
}

/// Dequantizes blocks with a scale per block and one weight matrix for all
/// blocks.
pub fn dequant_strategy_broadcast_w(
    quant: Handle,
    weights: Handle,
    qac: Handle,
    output: Handle,
    num_blocks: u32,
    block_size: u32,
) -> (launch: Launch)
    ensures
        launch@ == dequant_strategy_broadcast_w_launch(
            quant,
            weights,
            qac,
            output,
            num_blocks,
            block_size,
        ),
{
    let launch: Launch = Launch {
        kernel: Kernel::DequantStrategyBroadcastW,
        grid: one_cube_each(num_blocks, 1),
        arrays: vec![
            word_array(quant, area(num_blocks, block_size)),
            word_array(weights, block_size as u64),
            word_array(qac, num_blocks as u64),
            word_array(output, area(num_blocks, block_size)),
        ],
        scalars: vec![
            Scalar::U32(block_size),
        ],
    };
    assert(
        launch@.arrays =~= dequant_strategy_broadcast_w_launch(
            quant,
            weights,
            qac,
            output,
            num_blocks,
            block_size,
        ).arrays
    );
    assert(
        launch@.scalars =~= dequant_strategy_broadcast_w_launch(
            quant,
            weights,
            qac,
            output,
            num_blocks,
            block_size,
        ).scalars
    );
    launch
}

/// The launch that [`dequant_strategy_broadcast_w_dct8`] describes.
pub open spec fn dequant_strategy_broadcast_w_dct8_launch(
    quant: Handle,
    weights: Handle,
    qac: Handle,
    output: Handle,
    num_blocks: u32,
    block_size: u32,
    channel_bias: Float32,
) -> LaunchSpec {
    LaunchSpec {
        kernel: Kernel::DequantStrategyBroadcastWDct8,
        grid: cube_each(num_blocks, 1),
        arrays: seq![
            words(quant, num_blocks * block_size),
            words(weights, block_size as int),
            words(qac, num_blocks as int),
            words(output, num_blocks * block_size),
        ],
        scalars: seq![
            Scalar::U32(block_size),
            Scalar::F32(channel_bias),
        ],
    }
}

/// Dequantizes DCT8 blocks with a scale per block, one weight matrix for all
/// blocks and the bias of a channel.
pub fn dequant_strategy_broadcast_w_dct8(
    quant: Handle,
    weights: Handle,
    qac: Handle,
    output: Handle,
    num_blocks: u32,
    block_size: u32,
    channel_bias: Float32,
) -> (launch: Launch)
    ensures
        launch@ == dequant_strategy_broadcast_w_dct8_launch(
            quant,
            weights,
            qac,
            output,
            num_blocks,
            block_size,
            channel_bias,
        ),
{
    let launch: Launch = Launch {
        kernel: Kernel::DequantStrategyBroadcastWDct8,
        grid: one_cube_each(num_blocks, 1),
        arrays: vec![
            word_array(quant, area(num_blocks, block_size)),
            word_array(weights, block_size as u64),
            word_array(qac, num_blocks as u64),
            word_array(output, area(num_blocks, block_size)),
        ],
        scalars: vec![
            Scalar::U32(block_size),
            Scalar::F32(channel_bias),
        ],
    };
    assert(
        launch@.arrays =~= dequant_strategy_broadcast_w_dct8_launch(
            quant,
            weights,
            qac,
            output,
            num_blocks,
            block_size,
            channel_bias,
        ).arrays
    );
    assert(
        launch@.scalars =~= dequant_strategy_broadcast_w_dct8_launch(
            quant,
            weights,
            qac,
            output,
            num_blocks,
            block_size,
            channel_bias,
        ).scalars
    );
    launch
}

} // verus!
