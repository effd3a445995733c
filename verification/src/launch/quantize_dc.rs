//! Launches for the quantization of first coefficients.

use crate::device::{
    spread, spread_over, word_array, words, Handle, Kernel, Launch, LaunchSpec, Scalar,
};
use crate::float::Float32;
use vstd::prelude::*;

verus! {

/// The launch that [`quantize_dc_y_dct8`] describes.
pub open spec fn quantize_dc_y_dct8_launch(
    coeffs: Handle,
    quant_dc: Handle,
    float_dc: Handle,
    inv_factor: Float32,
    num_blocks: u32,
) -> LaunchSpec {
    LaunchSpec {
        kernel: Kernel::QuantizeDcYDct8,
        grid: spread(num_blocks as int, 256),
        arrays: seq![
            words(coeffs, num_blocks * 64),
            words(quant_dc, num_blocks as int),
            words(float_dc, num_blocks as int),
        ],
        scalars: seq![
            Scalar::F32(inv_factor),
        ],
    }
}

/// Quantizes the first coefficients of luma DCT8 blocks.
pub fn quantize_dc_y_dct8(
    coeffs: Handle,
    quant_dc: Handle,
    float_dc: Handle,
    inv_factor: Float32,
    num_blocks: u32,
) -> (launch: Launch)
    ensures
        launch@ == quantize_dc_y_dct8_launch(coeffs, quant_dc, float_dc, inv_factor, num_blocks),
{
    let launch: Launch = Launch {
        kernel: Kernel::QuantizeDcYDct8,
        grid: spread_over(num_blocks, 256),
        arrays: vec![
            word_array(coeffs, num_blocks as u64 * 64),
            word_array(quant_dc, num_blocks as u64),
            word_array(float_dc, num_blocks as u64),
        ],
        scalars: vec![
            Scalar::F32(inv_factor),
        ],
    };
    assert(
        launch@.arrays =~= quantize_dc_y_dct8_launch(
            coeffs,
            quant_dc,
            float_dc,
            inv_factor,
            num_blocks,
        ).arrays
    );
    assert(
        launch@.scalars =~= quantize_dc_y_dct8_launch(
            coeffs,
            quant_dc,
            float_dc,
            inv_factor,
            num_blocks,
        ).scalars
    );
    launch
}

/// The launch that [`quantize_dc_chroma_dct8`] describes.
pub open spec fn quantize_dc_chroma_dct8_launch(
    coeffs_chroma: Handle,
    quant_dc_y: Handle,
    quant_dc_chroma: Handle,
    float_dc_chroma: Handle,
    inv_factor: Float32,
    dc_cfl_factor: Float32,
    num_blocks: u32,
) -> LaunchSpec {
    LaunchSpec {
        kernel: Kernel::QuantizeDcChromaDct8,
        grid: spread(num_blocks as int, 256),
        arrays: seq![
            words(coeffs_chroma, num_blocks * 64),
            words(quant_dc_y, num_blocks as int),
            words(quant_dc_chroma, num_blocks as int),
            words(float_dc_chroma, num_blocks as int),
        ],
        scalars: seq![
            Scalar::F32(inv_factor),
            Scalar::F32(dc_cfl_factor),
        ],
    }
}

/// Quantizes the first coefficients of chroma DCT8 blocks, less the luma
/// prediction.
pub fn quantize_dc_chroma_dct8(
    coeffs_chroma: Handle,
    quant_dc_y: Handle,
    quant_dc_chroma: Handle,
    float_dc_chroma: Handle,
    inv_factor: Float32,
    dc_cfl_factor: Float32,
    num_blocks: u32,
) -> (launch: Launch)
    ensures
        launch@ == quantize_dc_chroma_dct8_launch(
            coeffs_chroma,
            quant_dc_y,
            quant_dc_chroma,
            float_dc_chroma,
            inv_factor,
            dc_cfl_factor,
            num_blocks,
        ),
{
    let launch: Launch = Launch {
        kernel: Kernel::QuantizeDcChromaDct8,
        grid: spread_over(num_blocks, 256),
        arrays: vec![
            word_array(coeffs_chroma, num_blocks as u64 * 64),
            word_array(quant_dc_y, num_blocks as u64),
            word_array(quant_dc_chroma, num_blocks as u64),
            word_array(float_dc_chroma, num_blocks as u64),
        ],
        scalars: vec![
            Scalar::F32(inv_factor),
            Scalar::F32(dc_cfl_factor),
        ],
    };
    assert(
        launch@.arrays =~= quantize_dc_chroma_dct8_launch(
            coeffs_chroma,
            quant_dc_y,
            quant_dc_chroma,
            float_dc_chroma,
            inv_factor,
            dc_cfl_factor,
            num_blocks,
        ).arrays
    );
    assert(
        launch@.scalars =~= quantize_dc_chroma_dct8_launch(
            coeffs_chroma,
            quant_dc_y,
            quant_dc_chroma,
            float_dc_chroma,
            inv_factor,
            dc_cfl_factor,
            num_blocks,
        ).scalars
    );
    launch
}

} // verus!
