//! Cost grids: what each transform would cost each block of an image.
//!
//! A transform's grid comes from one trial over the whole image: transform,
//! quantize, dequantize, transform back, and measure the masked squared error
//! per 8x8 block.

use crate::device::{
    area, array_fits, cube_each, one_cube_each, word_array, words, GpuEncoder, Handle, Kernel,
    Launch, LaunchSpec, Recording, Scalar,
};
use crate::launch::block_l2::{block_l2, block_l2_launch};
use crate::launch::dct16::{
    dct_16x16, dct_16x16_launch, dct_16x8, dct_16x8_launch, dct_8x16, dct_8x16_launch, idct_16x16,
    idct_16x16_launch, idct_16x8, idct_16x8_launch, idct_8x16, idct_8x16_launch,
};
use crate::launch::dct2x2::{
    dct2x2_forward, dct2x2_forward_launch, dct2x2_inverse, dct2x2_inverse_launch,
};
use crate::launch::dct32::{
    dct_16x32, dct_16x32_launch, dct_32x16, dct_32x16_launch, dct_32x32, dct_32x32_launch,
    idct_16x32, idct_16x32_launch, idct_32x16, idct_32x16_launch, idct_32x32, idct_32x32_launch,
};
use crate::launch::dct4::{
    dct_4x4_full, dct_4x4_full_launch, dct_4x8_full, dct_4x8_full_launch, dct_8x4_full,
    dct_8x4_full_launch, idct_4x4_full, idct_4x4_full_launch, idct_4x8_full, idct_4x8_full_launch,
    idct_8x4_full, idct_8x4_full_launch,
};
use crate::launch::dct64::{
    dct_32x64, dct_32x64_launch, dct_64x32, dct_64x32_launch, dct_64x64, dct_64x64_launch,
    idct_32x64, idct_32x64_launch, idct_64x32, idct_64x32_launch, idct_64x64, idct_64x64_launch,
};
use crate::launch::dct8::{dct_8x8, dct_8x8_launch, idct_8x8, idct_8x8_launch};
use crate::launch::identity::{
    identity_forward, identity_forward_launch, identity_inverse, identity_inverse_launch,
};
use crate::launch::quantize::{
    quantize_dct8, quantize_dct8_launch, quantize_large, quantize_large_launch,
};
use crate::quality::ONE;
use vstd::prelude::*;

verus! {

/// The transforms that a cost grid can be made for.
#[derive(Clone, Copy, Debug, PartialEq, Eq, Structural)]
pub enum Transform {
    Dct8x8,
    Dct4x4,
    Dct4x8,
    Dct8x4,
    Identity,
    Dct2x2,
    Dct16x16,
    Dct16x8,
    Dct8x16,
    Dct32x32,
    Dct32x16,
    Dct16x32,
    Dct64x64,
    Dct64x32,
    Dct32x64,
}

impl Transform {
    /// The shape of a block in units of 8x8 blocks, as the grids count them.
    pub open spec fn shape(self) -> (int, int) {
        match self {
            Transform::Dct16x16 => (2, 2),
            Transform::Dct16x8 => (2, 1),
            Transform::Dct8x16 => (1, 2),
            Transform::Dct32x32 => (4, 4),
            Transform::Dct32x16 => (4, 2),
            Transform::Dct16x32 => (2, 4),
            Transform::Dct64x64 => (8, 8),
            Transform::Dct64x32 => (8, 4),
            Transform::Dct32x64 => (4, 8),
            _ => (1, 1),
        }
    }

    /// The number of coefficients of a block.
    pub open spec fn coeffs(self) -> int {
        match self {
            Transform::Dct16x16 => 256,
            Transform::Dct16x8 => 128,
            Transform::Dct8x16 => 128,
            Transform::Dct32x32 => 1024,
            Transform::Dct32x16 => 512,
            Transform::Dct16x32 => 512,
            Transform::Dct64x64 => 4096,
            Transform::Dct64x32 => 2048,
            Transform::Dct32x64 => 2048,
            _ => 64,
        }
    }

    fn shape_exec(self) -> (r: (u32, u32))
        ensures
            r.0 == self.shape().0,
            r.1 == self.shape().1,
            1 <= r.0 <= 8,
            1 <= r.1 <= 8,
    {
        match self {
            Transform::Dct16x16 => (2, 2),
            Transform::Dct16x8 => (2, 1),
            Transform::Dct8x16 => (1, 2),
            Transform::Dct32x32 => (4, 4),
            Transform::Dct32x16 => (4, 2),
            Transform::Dct16x32 => (2, 4),
            Transform::Dct64x64 => (8, 8),
            Transform::Dct64x32 => (8, 4),
            Transform::Dct32x64 => (4, 8),
            _ => (1, 1),
        }
    }

    fn coeffs_exec(self) -> (r: u32)
        ensures
            r == self.coeffs(),
            64 <= r <= 4096,
    {
        match self {
            Transform::Dct16x16 => 256,
            Transform::Dct16x8 => 128,
            Transform::Dct8x16 => 128,
            Transform::Dct32x32 => 1024,
            Transform::Dct32x16 => 512,
            Transform::Dct16x32 => 512,
            Transform::Dct64x64 => 4096,
            Transform::Dct64x32 => 2048,
            Transform::Dct32x64 => 2048,
            _ => 64,
        }
    }
}

/// A block is as many pixels wide and tall as its 8x8 blocks make it.
proof fn lemma_block_area(t: Transform)
    ensures
        (8 * t.shape().0) * (8 * t.shape().1) == t.coeffs(),
        64 * (t.shape().0 * t.shape().1) == t.coeffs(),
{
    let w = t.shape().0;
    let h = t.shape().1;
    if w == 1 && h == 1 {
        assert((8 * w) * (8 * h) == 64 && w * h == 1) by (nonlinear_arith)
            requires
                w == 1,
                h == 1,
        ;
    }
    if w == 2 && h == 2 {
        assert((8 * w) * (8 * h) == 256 && w * h == 4) by (nonlinear_arith)
            requires
                w == 2,
                h == 2,
        ;
    }
    if w == 2 && h == 1 {
        assert((8 * w) * (8 * h) == 128 && w * h == 2) by (nonlinear_arith)
            requires
                w == 2,
                h == 1,
        ;
    }
    if w == 1 && h == 2 {
        assert((8 * w) * (8 * h) == 128 && w * h == 2) by (nonlinear_arith)
            requires
                w == 1,
                h == 2,
        ;
    }
    if w == 4 && h == 4 {
        assert((8 * w) * (8 * h) == 1024 && w * h == 16) by (nonlinear_arith)
            requires
                w == 4,
                h == 4,
        ;
    }
    if w == 4 && h == 2 {
        assert((8 * w) * (8 * h) == 512 && w * h == 8) by (nonlinear_arith)
            requires
                w == 4,
                h == 2,
        ;
    }
    if w == 2 && h == 4 {
        assert((8 * w) * (8 * h) == 512 && w * h == 8) by (nonlinear_arith)
            requires
                w == 2,
                h == 4,
        ;
    }
    if w == 8 && h == 8 {
        assert((8 * w) * (8 * h) == 4096 && w * h == 64) by (nonlinear_arith)
            requires
                w == 8,
                h == 8,
        ;
    }
    if w == 8 && h == 4 {
        assert((8 * w) * (8 * h) == 2048 && w * h == 32) by (nonlinear_arith)
            requires
                w == 8,
                h == 4,
        ;
    }
    if w == 4 && h == 8 {
        assert((8 * w) * (8 * h) == 2048 && w * h == 32) by (nonlinear_arith)
            requires
                w == 4,
                h == 8,
        ;
    }
}

/// The forward transform of `n` blocks.
pub open spec fn forward_launch(t: Transform, input: Handle, output: Handle, n: u32) -> LaunchSpec {
    match t {
        Transform::Dct8x8 => dct_8x8_launch(input, output, n),
        Transform::Dct4x4 => dct_4x4_full_launch(input, output, n),
        Transform::Dct4x8 => dct_4x8_full_launch(input, output, n),
        Transform::Dct8x4 => dct_8x4_full_launch(input, output, n),
        Transform::Identity => identity_forward_launch(input, output, n),
        Transform::Dct2x2 => dct2x2_forward_launch(input, output, n),
        Transform::Dct16x16 => dct_16x16_launch(input, output, n),
        Transform::Dct16x8 => dct_16x8_launch(input, output, n),
        Transform::Dct8x16 => dct_8x16_launch(input, output, n),
        Transform::Dct32x32 => dct_32x32_launch(input, output, n),
        Transform::Dct32x16 => dct_32x16_launch(input, output, n),
        Transform::Dct16x32 => dct_16x32_launch(input, output, n),
        Transform::Dct64x64 => dct_64x64_launch(input, output, n),
        Transform::Dct64x32 => dct_64x32_launch(input, output, n),
        Transform::Dct32x64 => dct_32x64_launch(input, output, n),
    }
}

/// The inverse transform of `n` blocks.
pub open spec fn inverse_launch(t: Transform, input: Handle, output: Handle, n: u32) -> LaunchSpec {
    match t {
        Transform::Dct8x8 => idct_8x8_launch(input, output, n),
        Transform::Dct4x4 => idct_4x4_full_launch(input, output, n),
        Transform::Dct4x8 => idct_4x8_full_launch(input, output, n),
        Transform::Dct8x4 => idct_8x4_full_launch(input, output, n),
        Transform::Identity => identity_inverse_launch(input, output, n),
        Transform::Dct2x2 => dct2x2_inverse_launch(input, output, n),
        Transform::Dct16x16 => idct_16x16_launch(input, output, n),
        Transform::Dct16x8 => idct_16x8_launch(input, output, n),
        Transform::Dct8x16 => idct_8x16_launch(input, output, n),
        Transform::Dct32x32 => idct_32x32_launch(input, output, n),
        Transform::Dct32x16 => idct_32x16_launch(input, output, n),
        Transform::Dct16x32 => idct_16x32_launch(input, output, n),
        Transform::Dct64x64 => idct_64x64_launch(input, output, n),
        Transform::Dct64x32 => idct_64x32_launch(input, output, n),
        Transform::Dct32x64 => idct_32x64_launch(input, output, n),
    }
}

/// The quantization of `n` blocks. Blocks larger than 8x8 leave out one
/// lowest coefficient per 8x8 block that they cover.
pub open spec fn quantize_launch(
    t: Transform,
    coeffs: Handle,
    weights: Handle,
    qac_qm: Handle,
    thresholds: Handle,
    output: Handle,
    n: u32,
) -> LaunchSpec {
    if t.shape() == (1int, 1int) {
        quantize_dct8_launch(coeffs, weights, qac_qm, thresholds, output, n)
    } else {
        quantize_large_launch(
            coeffs,
            weights,
            qac_qm,
            thresholds,
            output,
            n,
            (8 * t.shape().0) as u32,
            (8 * t.shape().1) as u32,
            t.shape().0 as u32,
            t.shape().1 as u32,
        )
    }
}

/// The product of `n` blocks of quantized coefficients with their weights.
pub open spec fn dequantize_launch(
    t: Transform,
    quant: Handle,
    weights: Handle,
    output: Handle,
    n: u32,
) -> LaunchSpec {
    if t.shape() == (1int, 1int) {
        LaunchSpec {
            kernel: Kernel::DequantWeightsDct8,
            grid: cube_each(n, 1),
            arrays: seq![words(quant, n * 64), words(weights, n * 64), words(output, n * 64)],
            scalars: seq![],
        }
    } else {
        LaunchSpec {
            kernel: Kernel::DequantWeights,
            grid: cube_each(n, 1),
            arrays: seq![
                words(quant, n * t.coeffs()),
                words(weights, n * t.coeffs()),
                words(output, n * t.coeffs()),
            ],
            scalars: seq![Scalar::U32(t.coeffs() as u32)],
        }
    }
}

/// One launch more, which keeps within its buffers.
pub open spec fn one_launch(before: Recording, after: Recording, launch: LaunchSpec) -> bool {
    &&& after == before.launch(launch)
    &&& before.wf() ==> after.wf()
}

impl GpuEncoder {
    fn run_forward(&mut self, t: Transform, input: Handle, output: Handle, n: u32)
        requires
            old(self)@.holds(input, n * t.coeffs() * 4),
            old(self)@.holds(output, n * t.coeffs() * 4),
        ensures
            one_launch(old(self)@, final(self)@, forward_launch(t, input, output, n)),
    {
        let launch: Launch = match t {
            Transform::Dct8x8 => dct_8x8(input, output, n),
            Transform::Dct4x4 => dct_4x4_full(input, output, n),
            Transform::Dct4x8 => dct_4x8_full(input, output, n),
            Transform::Dct8x4 => dct_8x4_full(input, output, n),
            Transform::Identity => identity_forward(input, output, n),
            Transform::Dct2x2 => dct2x2_forward(input, output, n),
            Transform::Dct16x16 => dct_16x16(input, output, n),
            Transform::Dct16x8 => dct_16x8(input, output, n),
            Transform::Dct8x16 => dct_8x16(input, output, n),
            Transform::Dct32x32 => dct_32x32(input, output, n),
            Transform::Dct32x16 => dct_32x16(input, output, n),
            Transform::Dct16x32 => dct_16x32(input, output, n),
            Transform::Dct64x64 => dct_64x64(input, output, n),
            Transform::Dct64x32 => dct_64x32(input, output, n),
            Transform::Dct32x64 => dct_32x64(input, output, n),
        };
        proof {
            assert(array_fits(launch@.arrays[0], self@.buffers));
            assert(array_fits(launch@.arrays[1], self@.buffers));
        }
        self.launch(launch);
    }

    fn run_inverse(&mut self, t: Transform, input: Handle, output: Handle, n: u32)
        requires
            old(self)@.holds(input, n * t.coeffs() * 4),
            old(self)@.holds(output, n * t.coeffs() * 4),
        ensures
            one_launch(old(self)@, final(self)@, inverse_launch(t, input, output, n)),
    {
        let launch: Launch = match t {
            Transform::Dct8x8 => idct_8x8(input, output, n),
            Transform::Dct4x4 => idct_4x4_full(input, output, n),
            Transform::Dct4x8 => idct_4x8_full(input, output, n),
            Transform::Dct8x4 => idct_8x4_full(input, output, n),
            Transform::Identity => identity_inverse(input, output, n),
            Transform::Dct2x2 => dct2x2_inverse(input, output, n),
            Transform::Dct16x16 => idct_16x16(input, output, n),
            Transform::Dct16x8 => idct_16x8(input, output, n),
            Transform::Dct8x16 => idct_8x16(input, output, n),
            Transform::Dct32x32 => idct_32x32(input, output, n),
            Transform::Dct32x16 => idct_32x16(input, output, n),
            Transform::Dct16x32 => idct_16x32(input, output, n),
            Transform::Dct64x64 => idct_64x64(input, output, n),
            Transform::Dct64x32 => idct_64x32(input, output, n),
            Transform::Dct32x64 => idct_32x64(input, output, n),
        };
        proof {
            assert(array_fits(launch@.arrays[0], self@.buffers));
            assert(array_fits(launch@.arrays[1], self@.buffers));
        }
        self.launch(launch);
    }

    fn run_quantize(
        &mut self,
        t: Transform,
        coeffs: Handle,
        weights: Handle,
        qac_qm: Handle,
        thresholds: Handle,
        output: Handle,
        n: u32,
    )
        requires
            old(self)@.holds(coeffs, n * t.coeffs() * 4),
            old(self)@.holds(weights, n * t.coeffs() * 4),
            old(self)@.holds(qac_qm, n * 4),
            old(self)@.holds(thresholds, 16),
            old(self)@.holds(output, n * t.coeffs() * 4),
        ensures
            one_launch(
                old(self)@,
                final(self)@,
                quantize_launch(t, coeffs, weights, qac_qm, thresholds, output, n),
            ),
    {
        let (w, h): (u32, u32) = t.shape_exec();
        let launch: Launch = if w == 1 && h == 1 {
            quantize_dct8(coeffs, weights, qac_qm, thresholds, output, n)
        } else {
            proof {
                lemma_block_area(t);
            }
            quantize_large(
                coeffs,
                weights,
                qac_qm,
                thresholds,
                output,
                n,
                8 * w,
                8 * h,
                w,
                h,
            )
        };
        proof {
            assert(array_fits(launch@.arrays[0], self@.buffers));
            assert(array_fits(launch@.arrays[1], self@.buffers));
            assert(array_fits(launch@.arrays[2], self@.buffers));
            assert(array_fits(launch@.arrays[3], self@.buffers));
            assert(array_fits(launch@.arrays[4], self@.buffers));
        }
        self.launch(launch);
    }

    fn run_dequantize(
        &mut self,
        t: Transform,
        quant: Handle,
        weights: Handle,
        output: Handle,
        n: u32,
    )
        requires
            old(self)@.holds(quant, n * t.coeffs() * 4),
            old(self)@.holds(weights, n * t.coeffs() * 4),
            old(self)@.holds(output, n * t.coeffs() * 4),
        ensures
            one_launch(
                old(self)@,
                final(self)@,
                dequantize_launch(t, quant, weights, output, n),
            ),
    {
        let (w, h): (u32, u32) = t.shape_exec();
        let c: u32 = t.coeffs_exec();
        let len: u64 = area(n, c);
        let arrays = vec![word_array(quant, len), word_array(
            weights,
            len,
        ), word_array(output, len)];
        let launch: Launch = if w == 1 && h == 1 {
            Launch {
                kernel: Kernel::DequantWeightsDct8,
                grid: one_cube_each(n, 1),
                arrays,
                scalars: Vec::new(),
            }
        } else {
            Launch {
                kernel: Kernel::DequantWeights,
                grid: one_cube_each(n, 1),
                arrays,
                scalars: vec![Scalar::U32(c)],
            }
        };
        proof {
            let spec = dequantize_launch(t, quant, weights, output, n);
            assert(launch@.arrays =~= spec.arrays);
            assert(launch@.scalars =~= spec.scalars);
            assert(array_fits(launch@.arrays[0], self@.buffers));
            assert(array_fits(launch@.arrays[1], self@.buffers));
            assert(array_fits(launch@.arrays[2], self@.buffers));
        }
        self.launch(launch);
    }
}

/// What one channel of an image brings to a trial: its pixels, and the
/// weights, scales and thresholds that it is quantized with.
#[derive(Clone, Copy)]
pub struct ChannelInputs {
    pub original: Handle,
    pub weights: Handle,
    pub qac_qm: Handle,
    pub thresholds: Handle,
}

impl ChannelInputs {
    /// Whether the buffers are large enough for a trial over `n` blocks.
    pub open spec fn suits(self, s: Recording, t: Transform, n: u32) -> bool {
        &&& s.holds(self.original, n * t.coeffs() * 4)
        &&& s.holds(self.weights, n * t.coeffs() * 4)
        &&& s.holds(self.qac_qm, n * 4)
        &&& s.holds(self.thresholds, 16)
    }
}

/// The buffers that one channel of a trial fills: coefficients, quantized
/// coefficients, dequantized coefficients and pixels.
#[derive(Clone, Copy)]
pub struct TrialBuffers {
    pub dct: Handle,
    pub quant: Handle,
    pub dequant: Handle,
    pub recon: Handle,
}

impl TrialBuffers {
    /// Whether the buffers are large enough for a trial over `n` blocks.
    pub open spec fn suits(self, s: Recording, t: Transform, n: u32) -> bool {
        &&& s.holds(self.dct, n * t.coeffs() * 4)
        &&& s.holds(self.quant, n * t.coeffs() * 4)
        &&& s.holds(self.dequant, n * t.coeffs() * 4)
        &&& s.holds(self.recon, n * t.coeffs() * 4)
    }
}

/// A grid of costs on the device, one per 8x8 block that a block covers, with
/// the number of blocks across and down.
#[derive(Clone, Copy)]
pub struct CostGrid {
    pub costs: Handle,
    pub xsize_blocks: u32,
    pub ysize_blocks: u32,
}

/// Whether the sizes of a trial over `xs` by `ys` blocks can be counted in 32
/// bits.
pub open spec fn sizes_fit(t: Transform, xs: u32, ys: u32) -> bool {
    &&& xs * ys <= u32::MAX
    &&& 8 * t.shape().0 * xs <= u32::MAX
    &&& t.shape().1 * ys <= u32::MAX
    &&& (xs * t.shape().0) * (ys * t.shape().1) <= u32::MAX
}

/// With buffers of `n` words of zeros each, for one channel.
pub open spec fn trial_buffers(s: Recording, words: int) -> (Recording, TrialBuffers) {
    let s1 = s.fill(words, 0);
    let s2 = s1.fill(words, 0);
    let s3 = s2.fill(words, 0);
    let s4 = s3.fill(words, 0);
    (
        s4,
        TrialBuffers { dct: s.next(), quant: s1.next(), dequant: s2.next(), recon: s3.next() },
    )
}

/// The trial of one channel: transform, quantize, dequantize, transform back.
pub open spec fn trial(
    s: Recording,
    t: Transform,
    c: ChannelInputs,
    b: TrialBuffers,
    n: u32,
) -> Recording {
    s.launch(forward_launch(t, c.original, b.dct, n)).launch(
        quantize_launch(t, b.dct, c.weights, c.qac_qm, c.thresholds, b.quant, n),
    ).launch(dequantize_launch(t, b.quant, c.weights, b.dequant, n)).launch(
        inverse_launch(t, b.dequant, b.recon, n),
    )
}

/// The trial of three channels at once, step by step.
pub open spec fn trial3(
    s: Recording,
    t: Transform,
    cx: ChannelInputs,
    cy: ChannelInputs,
    cb: ChannelInputs,
    x: TrialBuffers,
    y: TrialBuffers,
    b: TrialBuffers,
    n: u32,
) -> Recording {
    s.launch(forward_launch(t, cx.original, x.dct, n)).launch(
        forward_launch(t, cy.original, y.dct, n),
    ).launch(forward_launch(t, cb.original, b.dct, n)).launch(
        quantize_launch(t, x.dct, cx.weights, cx.qac_qm, cx.thresholds, x.quant, n),
    ).launch(
        quantize_launch(t, y.dct, cy.weights, cy.qac_qm, cy.thresholds, y.quant, n),
    ).launch(
        quantize_launch(t, b.dct, cb.weights, cb.qac_qm, cb.thresholds, b.quant, n),
    ).launch(dequantize_launch(t, x.quant, cx.weights, x.dequant, n)).launch(
        dequantize_launch(t, y.quant, cy.weights, y.dequant, n),
    ).launch(dequantize_launch(t, b.quant, cb.weights, b.dequant, n)).launch(
        inverse_launch(t, x.dequant, x.recon, n),
    ).launch(inverse_launch(t, y.dequant, y.recon, n)).launch(
        inverse_launch(t, b.dequant, b.recon, n),
    )
}

/// With the costs measured.
pub open spec fn measured(
    s: Recording,
    t: Transform,
    x: (Handle, Handle),
    y: (Handle, Handle),
    b: (Handle, Handle),
    mask: Handle,
    xs: u32,
    ys: u32,
) -> (Recording, CostGrid) {
    let costs = s.next();
    let s1 = s.fill(xs * ys * (t.shape().0 * t.shape().1), 0);
    let s2 = s1.launch(
        block_l2_launch(
            x.0,
            y.0,
            b.0,
            x.1,
            y.1,
            b.1,
            mask,
            costs,
            (xs * t.shape().0) as u32,
            (ys * t.shape().1) as u32,
            (8 * t.shape().0 * xs) as u32,
        ),
    );
    (s2, CostGrid { costs, xsize_blocks: xs, ysize_blocks: ys })
}

/// What making a cost grid over the channels X, Y and B records and returns.
#[verifier::opaque]
pub open spec fn cost_grid_xyb_steps(
    s: Recording,
    t: Transform,
    cx: ChannelInputs,
    cy: ChannelInputs,
    cb: ChannelInputs,
    mask: Handle,
    xs: u32,
    ys: u32,
) -> (Recording, CostGrid) {
    let n = (xs * ys) as u32;
    let words = n * t.coeffs();
    let a = s.buffers.len() as int;
    let at = |k: int| Handle { id: (a + k) as usize };
    let s1 = twelve_fills(s, words);
    let x = TrialBuffers { dct: at(0), quant: at(3), dequant: at(6), recon: at(9) };
    let y = TrialBuffers { dct: at(1), quant: at(4), dequant: at(7), recon: at(10) };
    let b = TrialBuffers { dct: at(2), quant: at(5), dequant: at(8), recon: at(11) };
    let s2 = trial3(s1, t, cx, cy, cb, x, y, b, n);
    measured(
        s2,
        t,
        (cx.original, x.recon),
        (cy.original, y.recon),
        (cb.original, b.recon),
        mask,
        xs,
        ys,
    )
}

/// With twelve buffers of `words` zeros each.
pub open spec fn twelve_fills(s: Recording, words: int) -> Recording {
    s.fill(words, 0).fill(words, 0).fill(words, 0).fill(words, 0).fill(words, 0).fill(
        words,
        0,
    ).fill(words, 0).fill(words, 0).fill(words, 0).fill(words, 0).fill(words, 0).fill(words, 0)
}

/// What making a cost grid over one channel records and returns. The mask is
/// one everywhere.
#[verifier::opaque]
pub open spec fn cost_grid_single_channel_steps(
    s: Recording,
    t: Transform,
    c: ChannelInputs,
    xs: u32,
    ys: u32,
) -> (Recording, CostGrid) {
    let n = (xs * ys) as u32;
    let words = n * t.coeffs();
    let (s1, b) = trial_buffers(s, words);
    let s2 = trial(s1, t, c, b, n);
    let mask = s2.next();
    let s3 = s2.fill(words, ONE);
    measured(
        s3,
        t,
        (c.original, b.recon),
        (c.original, b.recon),
        (c.original, b.recon),
        mask,
        xs,
        ys,
    )
}

/// The inputs of a channel.
pub open spec fn channel(
    original: Handle,
    weights: Handle,
    qac_qm: Handle,
    thresholds: Handle,
) -> ChannelInputs {
    ChannelInputs { original, weights, qac_qm, thresholds }
}

/// The pixels and the costs of a trial, counted block by block.
proof fn lemma_trial_sizes(t: Transform, xs: u32, ys: u32)
    requires
        sizes_fit(t, xs, ys),
    ensures
        ({
            let w = t.shape().0;
            let h = t.shape().1;
            let n = xs * ys;
            &&& (8 * w * xs) * (h * ys) * 8 == n * t.coeffs()
            &&& (8 * w * xs) * (ys * h) * 8 == n * t.coeffs()
            &&& (xs * w) * (ys * h) == n * (w * h)
            &&& n * t.coeffs() * 4 <= u64::MAX
            &&& 0 <= n
            &&& 0 <= n * (w * h)
            &&& 1 <= w <= 8
            &&& 1 <= h <= 8
            &&& 0 <= xs * w <= 8 * w * xs
            &&& ys * h == h * ys
        }),
{
    let w = t.shape().0;
    let h = t.shape().1;
    let n = xs * ys;
    lemma_block_area(t);
    let c = t.coeffs();
    assert((8 * w * xs) * (h * ys) * 8 == (xs * ys) * (64 * (w * h))) by (nonlinear_arith);
    assert((8 * w * xs) * (ys * h) * 8 == (xs * ys) * (64 * (w * h))) by (nonlinear_arith);
    assert((xs * w) * (ys * h) == (xs * ys) * (w * h)) by (nonlinear_arith);
    assert(n >= 0) by (nonlinear_arith)
        requires
            n == xs * ys,
            xs >= 0,
            ys >= 0,
    ;
    assert(n * (w * h) >= 0) by (nonlinear_arith)
        requires
            n >= 0,
            w >= 0,
            h >= 0,
    ;
    assert(n * c <= 0xffff_ffff * 4096) by (nonlinear_arith)
        requires
            0 <= n <= 0xffff_ffff,
            0 <= c <= 4096,
    ;
    assert(0 <= xs * w && xs * w <= 8 * w * xs && ys * h == h * ys) by (nonlinear_arith)
        requires
            xs >= 0,
            1 <= w,
    ;
}

/// Measures the costs of a trial.
fn measure(
    enc: &mut GpuEncoder,
    t: Transform,
    x: (Handle, Handle),
    y: (Handle, Handle),
    b: (Handle, Handle),
    mask: Handle,
    xs: u32,
    ys: u32,
) -> (r: CostGrid)
    requires
        old(enc)@.wf(),
        sizes_fit(t, xs, ys),
        old(enc)@.holds(x.0, xs * ys * t.coeffs() * 4),
        old(enc)@.holds(y.0, xs * ys * t.coeffs() * 4),
        old(enc)@.holds(b.0, xs * ys * t.coeffs() * 4),
        old(enc)@.holds(x.1, xs * ys * t.coeffs() * 4),
        old(enc)@.holds(y.1, xs * ys * t.coeffs() * 4),
        old(enc)@.holds(b.1, xs * ys * t.coeffs() * 4),
        old(enc)@.holds(mask, xs * ys * t.coeffs() * 4),
    ensures
        (final(enc)@, r) == measured(old(enc)@, t, x, y, b, mask, xs, ys),
        final(enc)@.wf(),
{
    let (w, h): (u32, u32) = t.shape_exec();
    proof {
        lemma_trial_sizes(t, xs, ys);
        assert(w * h <= 64) by (nonlinear_arith)
            requires
                w <= 8,
                h <= 8,
        ;
        assert(xs * ys * (w * h) <= 0xffff_ffff * 64) by (nonlinear_arith)
            requires
                0 <= xs * ys <= 0xffff_ffff,
                0 <= w * h <= 64,
        ;
    }
    let costs: Handle = enc.fill(area(xs, ys) * (w * h) as u64, 0);
    let launch: Launch = block_l2(
        x.0,
        y.0,
        b.0,
        x.1,
        y.1,
        b.1,
        mask,
        costs,
        xs * w,
        ys * h,
        8 * w * xs,
    );
    proof {
        assert(array_fits(launch@.arrays[0], enc@.buffers));
        assert(array_fits(launch@.arrays[1], enc@.buffers));
        assert(array_fits(launch@.arrays[2], enc@.buffers));
        assert(array_fits(launch@.arrays[3], enc@.buffers));
        assert(array_fits(launch@.arrays[4], enc@.buffers));
        assert(array_fits(launch@.arrays[5], enc@.buffers));
        assert(array_fits(launch@.arrays[6], enc@.buffers));
        assert(array_fits(launch@.arrays[7], enc@.buffers));
    }
    enc.launch(launch);
    CostGrid { costs, xsize_blocks: xs, ysize_blocks: ys }
}

/// Makes a cost grid over one channel.
fn cost_grid_single_channel(
    enc: &mut GpuEncoder,
    t: Transform,
    c: ChannelInputs,
    xs: u32,
    ys: u32,
) -> (r: CostGrid)
    requires
        old(enc)@.wf(),
        sizes_fit(t, xs, ys),
        c.suits(old(enc)@, t, (xs * ys) as u32),
    ensures
        (final(enc)@, r) == cost_grid_single_channel_steps(old(enc)@, t, c, xs, ys),
        final(enc)@.wf(),
{
    proof {
        reveal(cost_grid_single_channel_steps);
        lemma_trial_sizes(t, xs, ys);
    }
    let n: u32 = xs * ys;
    let words: u64 = area(n, t.coeffs_exec());
    let dct: Handle = enc.fill(words, 0);
    let quant: Handle = enc.fill(words, 0);
    let dequant: Handle = enc.fill(words, 0);
    let recon: Handle = enc.fill(words, 0);
    enc.run_forward(t, c.original, dct, n);
    enc.run_quantize(t, dct, c.weights, c.qac_qm, c.thresholds, quant, n);
    enc.run_dequantize(t, quant, c.weights, dequant, n);
    enc.run_inverse(t, dequant, recon, n);
    let mask: Handle = enc.fill(words, ONE);
    measure(
        enc,
        t,
        (c.original, recon),
        (c.original, recon),
        (c.original, recon),
        mask,
        xs,
        ys,
    )
}

/// Makes a cost grid over the channels X, Y and B.
#[verifier::rlimit(40)]
fn cost_grid_xyb(
    enc: &mut GpuEncoder,
    t: Transform,
    cx: ChannelInputs,
    cy: ChannelInputs,
    cb: ChannelInputs,
    mask: Handle,
    xs: u32,
    ys: u32,
) -> (r: CostGrid)
    requires
        old(enc)@.wf(),
        sizes_fit(t, xs, ys),
        cx.suits(old(enc)@, t, (xs * ys) as u32),
        cy.suits(old(enc)@, t, (xs * ys) as u32),
        cb.suits(old(enc)@, t, (xs * ys) as u32),
        old(enc)@.holds(mask, xs * ys * t.coeffs() * 4),
    ensures
        (final(enc)@, r) == cost_grid_xyb_steps(old(enc)@, t, cx, cy, cb, mask, xs, ys),
        final(enc)@.wf(),
{
    proof {
        reveal(cost_grid_xyb_steps);
        lemma_trial_sizes(t, xs, ys);
    }
    let n: u32 = xs * ys;
    let words: u64 = area(n, t.coeffs_exec());
    let dct_x: Handle = enc.fill(words, 0);
    let dct_y: Handle = enc.fill(words, 0);
    let dct_b: Handle = enc.fill(words, 0);
    let q_x: Handle = enc.fill(words, 0);
    let q_y: Handle = enc.fill(words, 0);
    let q_b: Handle = enc.fill(words, 0);
    let dq_x: Handle = enc.fill(words, 0);
    let dq_y: Handle = enc.fill(words, 0);
    let dq_b: Handle = enc.fill(words, 0);
    let recon_x: Handle = enc.fill(words, 0);
    let recon_y: Handle = enc.fill(words, 0);
    let recon_b: Handle = enc.fill(words, 0);
    enc.run_forward(t, cx.original, dct_x, n);
    enc.run_forward(t, cy.original, dct_y, n);
    enc.run_forward(t, cb.original, dct_b, n);
    enc.run_quantize(t, dct_x, cx.weights, cx.qac_qm, cx.thresholds, q_x, n);
    enc.run_quantize(t, dct_y, cy.weights, cy.qac_qm, cy.thresholds, q_y, n);
    enc.run_quantize(t, dct_b, cb.weights, cb.qac_qm, cb.thresholds, q_b, n);
    enc.run_dequantize(t, q_x, cx.weights, dq_x, n);
    enc.run_dequantize(t, q_y, cy.weights, dq_y, n);
    enc.run_dequantize(t, q_b, cb.weights, dq_b, n);
    enc.run_inverse(t, dq_x, recon_x, n);
    enc.run_inverse(t, dq_y, recon_y, n);
    enc.run_inverse(t, dq_b, recon_b, n);
    measure(
        enc,
        t,
        (cx.original, recon_x),
        (cy.original, recon_y),
        (cb.original, recon_b),
        mask,
        xs,
        ys,
    )
}

/// Makes the cost grid of the 8x8 DCT over the channels X, Y and B.
pub fn compute_cost_grid_dct8_xyb(
    enc: &mut GpuEncoder,
    orig_x: Handle,
    orig_y: Handle,
    orig_b: Handle,
    weights_x: Handle,
    weights_y: Handle,
    weights_b: Handle,
    qac_qm_x: Handle,
    qac_qm_y: Handle,
    qac_qm_b: Handle,
    thresholds_x: Handle,
    thresholds_y: Handle,
    thresholds_b: Handle,
    mask1x1: Handle,
    xsize_blocks: u32,
    ysize_blocks: u32,
) -> (r: CostGrid)
    requires
        old(enc)@.wf(),
        sizes_fit(Transform::Dct8x8, xsize_blocks, ysize_blocks),
        channel(orig_x, weights_x, qac_qm_x, thresholds_x).suits(
            old(enc)@,
            Transform::Dct8x8,
            (xsize_blocks * ysize_blocks) as u32,
        ),
        channel(orig_y, weights_y, qac_qm_y, thresholds_y).suits(
            old(enc)@,
            Transform::Dct8x8,
            (xsize_blocks * ysize_blocks) as u32,
        ),
        channel(orig_b, weights_b, qac_qm_b, thresholds_b).suits(
            old(enc)@,
            Transform::Dct8x8,
            (xsize_blocks * ysize_blocks) as u32,
        ),
        old(enc)@.holds(mask1x1, xsize_blocks * ysize_blocks * Transform::Dct8x8.coeffs() * 4),
    ensures
        (final(enc)@, r) == cost_grid_xyb_steps(
            old(enc)@,
            Transform::Dct8x8,
            channel(orig_x, weights_x, qac_qm_x, thresholds_x),
            channel(orig_y, weights_y, qac_qm_y, thresholds_y),
            channel(orig_b, weights_b, qac_qm_b, thresholds_b),
            mask1x1,
            xsize_blocks,
            ysize_blocks,
        ),
        final(enc)@.wf(),
{
    cost_grid_xyb(
        enc,
        Transform::Dct8x8,
        ChannelInputs {
            original: orig_x,
            weights: weights_x,
            qac_qm: qac_qm_x,
            thresholds: thresholds_x,
        },
        ChannelInputs {
            original: orig_y,
            weights: weights_y,
            qac_qm: qac_qm_y,
            thresholds: thresholds_y,
        },
        ChannelInputs {
            original: orig_b,
            weights: weights_b,
            qac_qm: qac_qm_b,
            thresholds: thresholds_b,
        },
        mask1x1,
        xsize_blocks,
        ysize_blocks,
    )
}

/// Makes the cost grid of the 8x8 DCT over one channel, unmasked.
pub fn compute_cost_grid_dct8_single_channel(
    enc: &mut GpuEncoder,
    original: Handle,
    weights: Handle,
    qac_qm: Handle,
    thresholds: Handle,
    xsize_blocks: u32,
    ysize_blocks: u32,
) -> (r: CostGrid)
    requires
        old(enc)@.wf(),
        sizes_fit(Transform::Dct8x8, xsize_blocks, ysize_blocks),
        channel(original, weights, qac_qm, thresholds).suits(
            old(enc)@,
            Transform::Dct8x8,
            (xsize_blocks * ysize_blocks) as u32,
        ),
    ensures
        (final(enc)@, r) == cost_grid_single_channel_steps(
            old(enc)@,
            Transform::Dct8x8,
            channel(original, weights, qac_qm, thresholds),
            xsize_blocks,
            ysize_blocks,
        ),
        final(enc)@.wf(),
{
    cost_grid_single_channel(
        enc,
        Transform::Dct8x8,
        ChannelInputs { original, weights, qac_qm, thresholds },
        xsize_blocks,
        ysize_blocks,
    )
}

/// Makes the cost grid of the DCT16x16 over the channels X, Y and B.
pub fn compute_cost_grid_dct16x16_xyb(
    enc: &mut GpuEncoder,
    orig_x: Handle,
    orig_y: Handle,
    orig_b: Handle,
    weights_x: Handle,
    weights_y: Handle,
    weights_b: Handle,
    qac_qm_x: Handle,
    qac_qm_y: Handle,
    qac_qm_b: Handle,
    thresholds_x: Handle,
    thresholds_y: Handle,
    thresholds_b: Handle,
    mask1x1: Handle,
    xsize_blocks: u32,
    ysize_blocks: u32,
) -> (r: CostGrid)
    requires
        old(enc)@.wf(),
        sizes_fit(Transform::Dct16x16, xsize_blocks, ysize_blocks),
        channel(orig_x, weights_x, qac_qm_x, thresholds_x).suits(
            old(enc)@,
            Transform::Dct16x16,
            (xsize_blocks * ysize_blocks) as u32,
        ),
        channel(orig_y, weights_y, qac_qm_y, thresholds_y).suits(
            old(enc)@,
            Transform::Dct16x16,
            (xsize_blocks * ysize_blocks) as u32,
        ),
        channel(orig_b, weights_b, qac_qm_b, thresholds_b).suits(
            old(enc)@,
            Transform::Dct16x16,
            (xsize_blocks * ysize_blocks) as u32,
        ),
        old(enc)@.holds(mask1x1, xsize_blocks * ysize_blocks * Transform::Dct16x16.coeffs() * 4),
    ensures
        (final(enc)@, r) == cost_grid_xyb_steps(
            old(enc)@,
            Transform::Dct16x16,
            channel(orig_x, weights_x, qac_qm_x, thresholds_x),
            channel(orig_y, weights_y, qac_qm_y, thresholds_y),
            channel(orig_b, weights_b, qac_qm_b, thresholds_b),
            mask1x1,
            xsize_blocks,
            ysize_blocks,
        ),
        final(enc)@.wf(),
{
    cost_grid_xyb(
        enc,
        Transform::Dct16x16,
        ChannelInputs {
            original: orig_x,
            weights: weights_x,
            qac_qm: qac_qm_x,
            thresholds: thresholds_x,
        },
        ChannelInputs {
            original: orig_y,
            weights: weights_y,
            qac_qm: qac_qm_y,
            thresholds: thresholds_y,
        },
        ChannelInputs {
            original: orig_b,
            weights: weights_b,
            qac_qm: qac_qm_b,
            thresholds: thresholds_b,
        },
        mask1x1,
        xsize_blocks,
        ysize_blocks,
    )
}

/// Makes the cost grid of the DCT16x16 over one channel, unmasked.
pub fn compute_cost_grid_dct16x16_single_channel(
    enc: &mut GpuEncoder,
    original: Handle,
    weights: Handle,
    qac_qm: Handle,
    thresholds: Handle,
    xsize_blocks: u32,
    ysize_blocks: u32,
) -> (r: CostGrid)
    requires
        old(enc)@.wf(),
        sizes_fit(Transform::Dct16x16, xsize_blocks, ysize_blocks),
        channel(original, weights, qac_qm, thresholds).suits(
            old(enc)@,
            Transform::Dct16x16,
            (xsize_blocks * ysize_blocks) as u32,
        ),
    ensures
        (final(enc)@, r) == cost_grid_single_channel_steps(
            old(enc)@,
            Transform::Dct16x16,
            channel(original, weights, qac_qm, thresholds),
            xsize_blocks,
            ysize_blocks,
        ),
        final(enc)@.wf(),
{
    cost_grid_single_channel(
        enc,
        Transform::Dct16x16,
        ChannelInputs { original, weights, qac_qm, thresholds },
        xsize_blocks,
        ysize_blocks,
    )
}

/// Makes the cost grid of the DCT32x32 over the channels X, Y and B.
pub fn compute_cost_grid_dct32x32_xyb(
    enc: &mut GpuEncoder,
    orig_x: Handle,
    orig_y: Handle,
    orig_b: Handle,
    weights_x: Handle,
    weights_y: Handle,
    weights_b: Handle,
    qac_qm_x: Handle,
    qac_qm_y: Handle,
    qac_qm_b: Handle,
    thresholds_x: Handle,
    thresholds_y: Handle,
    thresholds_b: Handle,
    mask1x1: Handle,
    xsize_blocks: u32,
    ysize_blocks: u32,
) -> (r: CostGrid)
    requires
        old(enc)@.wf(),
        sizes_fit(Transform::Dct32x32, xsize_blocks, ysize_blocks),
        channel(orig_x, weights_x, qac_qm_x, thresholds_x).suits(
            old(enc)@,
            Transform::Dct32x32,
            (xsize_blocks * ysize_blocks) as u32,
        ),
        channel(orig_y, weights_y, qac_qm_y, thresholds_y).suits(
            old(enc)@,
            Transform::Dct32x32,
            (xsize_blocks * ysize_blocks) as u32,
        ),
        channel(orig_b, weights_b, qac_qm_b, thresholds_b).suits(
            old(enc)@,
            Transform::Dct32x32,
            (xsize_blocks * ysize_blocks) as u32,
        ),
        old(enc)@.holds(mask1x1, xsize_blocks * ysize_blocks * Transform::Dct32x32.coeffs() * 4),
    ensures
        (final(enc)@, r) == cost_grid_xyb_steps(
            old(enc)@,
            Transform::Dct32x32,
            channel(orig_x, weights_x, qac_qm_x, thresholds_x),
            channel(orig_y, weights_y, qac_qm_y, thresholds_y),
            channel(orig_b, weights_b, qac_qm_b, thresholds_b),
            mask1x1,
            xsize_blocks,
            ysize_blocks,
        ),
        final(enc)@.wf(),
{
    cost_grid_xyb(
        enc,
        Transform::Dct32x32,
        ChannelInputs {
            original: orig_x,
            weights: weights_x,
            qac_qm: qac_qm_x,
            thresholds: thresholds_x,
        },
        ChannelInputs {
            original: orig_y,
            weights: weights_y,
            qac_qm: qac_qm_y,
            thresholds: thresholds_y,
        },
        ChannelInputs {
            original: orig_b,
            weights: weights_b,
            qac_qm: qac_qm_b,
            thresholds: thresholds_b,
        },
        mask1x1,
        xsize_blocks,
        ysize_blocks,
    )
}

/// Makes the cost grid of the DCT32x32 over one channel, unmasked.
pub fn compute_cost_grid_dct32x32_single_channel(
    enc: &mut GpuEncoder,
    original: Handle,
    weights: Handle,
    qac_qm: Handle,
    thresholds: Handle,
    xsize_blocks: u32,
    ysize_blocks: u32,
) -> (r: CostGrid)
    requires
        old(enc)@.wf(),
        sizes_fit(Transform::Dct32x32, xsize_blocks, ysize_blocks),
        channel(original, weights, qac_qm, thresholds).suits(
            old(enc)@,
            Transform::Dct32x32,
            (xsize_blocks * ysize_blocks) as u32,
        ),
    ensures
        (final(enc)@, r) == cost_grid_single_channel_steps(
            old(enc)@,
            Transform::Dct32x32,
            channel(original, weights, qac_qm, thresholds),
            xsize_blocks,
            ysize_blocks,
        ),
        final(enc)@.wf(),
{
    cost_grid_single_channel(
        enc,
        Transform::Dct32x32,
        ChannelInputs { original, weights, qac_qm, thresholds },
        xsize_blocks,
        ysize_blocks,
    )
}

/// Makes the cost grid of the DCT64x64 over the channels X, Y and B.
pub fn compute_cost_grid_dct64x64_xyb(
    enc: &mut GpuEncoder,
    orig_x: Handle,
    orig_y: Handle,
    orig_b: Handle,
    weights_x: Handle,
    weights_y: Handle,
    weights_b: Handle,
    qac_qm_x: Handle,
    qac_qm_y: Handle,
    qac_qm_b: Handle,
    thresholds_x: Handle,
    thresholds_y: Handle,
    thresholds_b: Handle,
    mask1x1: Handle,
    xsize_blocks: u32,
    ysize_blocks: u32,
) -> (r: CostGrid)
    requires
        old(enc)@.wf(),
        sizes_fit(Transform::Dct64x64, xsize_blocks, ysize_blocks),
        channel(orig_x, weights_x, qac_qm_x, thresholds_x).suits(
            old(enc)@,
            Transform::Dct64x64,
            (xsize_blocks * ysize_blocks) as u32,
        ),
        channel(orig_y, weights_y, qac_qm_y, thresholds_y).suits(
            old(enc)@,
            Transform::Dct64x64,
            (xsize_blocks * ysize_blocks) as u32,
        ),
        channel(orig_b, weights_b, qac_qm_b, thresholds_b).suits(
            old(enc)@,
            Transform::Dct64x64,
            (xsize_blocks * ysize_blocks) as u32,
        ),
        old(enc)@.holds(mask1x1, xsize_blocks * ysize_blocks * Transform::Dct64x64.coeffs() * 4),
    ensures
        (final(enc)@, r) == cost_grid_xyb_steps(
            old(enc)@,
            Transform::Dct64x64,
            channel(orig_x, weights_x, qac_qm_x, thresholds_x),
            channel(orig_y, weights_y, qac_qm_y, thresholds_y),
            channel(orig_b, weights_b, qac_qm_b, thresholds_b),
            mask1x1,
            xsize_blocks,
            ysize_blocks,
        ),
        final(enc)@.wf(),
{
    cost_grid_xyb(
        enc,
        Transform::Dct64x64,
        ChannelInputs {
            original: orig_x,
            weights: weights_x,
            qac_qm: qac_qm_x,
            thresholds: thresholds_x,
        },
        ChannelInputs {
            original: orig_y,
            weights: weights_y,
            qac_qm: qac_qm_y,
            thresholds: thresholds_y,
        },
        ChannelInputs {
            original: orig_b,
            weights: weights_b,
            qac_qm: qac_qm_b,
            thresholds: thresholds_b,
        },
        mask1x1,
        xsize_blocks,
        ysize_blocks,
    )
}

/// Makes the cost grid of the DCT64x64 over one channel, unmasked.
pub fn compute_cost_grid_dct64x64_single_channel(
    enc: &mut GpuEncoder,
    original: Handle,
    weights: Handle,
    qac_qm: Handle,
    thresholds: Handle,
    xsize_blocks: u32,
    ysize_blocks: u32,
) -> (r: CostGrid)
    requires
        old(enc)@.wf(),
        sizes_fit(Transform::Dct64x64, xsize_blocks, ysize_blocks),
        channel(original, weights, qac_qm, thresholds).suits(
            old(enc)@,
            Transform::Dct64x64,
            (xsize_blocks * ysize_blocks) as u32,
        ),
    ensures
        (final(enc)@, r) == cost_grid_single_channel_steps(
            old(enc)@,
            Transform::Dct64x64,
            channel(original, weights, qac_qm, thresholds),
            xsize_blocks,
            ysize_blocks,
        ),
        final(enc)@.wf(),
{
    cost_grid_single_channel(
        enc,
        Transform::Dct64x64,
        ChannelInputs { original, weights, qac_qm, thresholds },
        xsize_blocks,
        ysize_blocks,
    )
}

/// Makes the cost grid of the DCT16x8 over the channels X, Y and B.
pub fn compute_cost_grid_dct16x8_xyb(
    enc: &mut GpuEncoder,
    orig_x: Handle,
    orig_y: Handle,
    orig_b: Handle,
    weights_x: Handle,
    weights_y: Handle,
    weights_b: Handle,
    qac_qm_x: Handle,
    qac_qm_y: Handle,
    qac_qm_b: Handle,
    thresholds_x: Handle,
    thresholds_y: Handle,
    thresholds_b: Handle,
    mask1x1: Handle,
    xsize_blocks: u32,
    ysize_blocks: u32,
) -> (r: CostGrid)
    requires
        old(enc)@.wf(),
        sizes_fit(Transform::Dct16x8, xsize_blocks, ysize_blocks),
        channel(orig_x, weights_x, qac_qm_x, thresholds_x).suits(
            old(enc)@,
            Transform::Dct16x8,
            (xsize_blocks * ysize_blocks) as u32,
        ),
        channel(orig_y, weights_y, qac_qm_y, thresholds_y).suits(
            old(enc)@,
            Transform::Dct16x8,
            (xsize_blocks * ysize_blocks) as u32,
        ),
        channel(orig_b, weights_b, qac_qm_b, thresholds_b).suits(
            old(enc)@,
            Transform::Dct16x8,
            (xsize_blocks * ysize_blocks) as u32,
        ),
        old(enc)@.holds(mask1x1, xsize_blocks * ysize_blocks * Transform::Dct16x8.coeffs() * 4),
    ensures
        (final(enc)@, r) == cost_grid_xyb_steps(
            old(enc)@,
            Transform::Dct16x8,
            channel(orig_x, weights_x, qac_qm_x, thresholds_x),
            channel(orig_y, weights_y, qac_qm_y, thresholds_y),
            channel(orig_b, weights_b, qac_qm_b, thresholds_b),
            mask1x1,
            xsize_blocks,
            ysize_blocks,
        ),
        final(enc)@.wf(),
{
    cost_grid_xyb(
        enc,
        Transform::Dct16x8,
        ChannelInputs {
            original: orig_x,
            weights: weights_x,
            qac_qm: qac_qm_x,
            thresholds: thresholds_x,
        },
        ChannelInputs {
            original: orig_y,
            weights: weights_y,
            qac_qm: qac_qm_y,
            thresholds: thresholds_y,
        },
        ChannelInputs {
            original: orig_b,
            weights: weights_b,
            qac_qm: qac_qm_b,
            thresholds: thresholds_b,
        },
        mask1x1,
        xsize_blocks,
        ysize_blocks,
    )
}

/// Makes the cost grid of the DCT16x8 over one channel, unmasked.
pub fn compute_cost_grid_dct16x8_single_channel(
    enc: &mut GpuEncoder,
    original: Handle,
    weights: Handle,
    qac_qm: Handle,
    thresholds: Handle,
    xsize_blocks: u32,
    ysize_blocks: u32,
) -> (r: CostGrid)
    requires
        old(enc)@.wf(),
        sizes_fit(Transform::Dct16x8, xsize_blocks, ysize_blocks),
        channel(original, weights, qac_qm, thresholds).suits(
            old(enc)@,
            Transform::Dct16x8,
            (xsize_blocks * ysize_blocks) as u32,
        ),
    ensures
        (final(enc)@, r) == cost_grid_single_channel_steps(
            old(enc)@,
            Transform::Dct16x8,
            channel(original, weights, qac_qm, thresholds),
            xsize_blocks,
            ysize_blocks,
        ),
        final(enc)@.wf(),
{
    cost_grid_single_channel(
        enc,
        Transform::Dct16x8,
        ChannelInputs { original, weights, qac_qm, thresholds },
        xsize_blocks,
        ysize_blocks,
    )
}

/// Makes the cost grid of the DCT8x16 over the channels X, Y and B.
pub fn compute_cost_grid_dct8x16_xyb(
    enc: &mut GpuEncoder,
    orig_x: Handle,
    orig_y: Handle,
    orig_b: Handle,
    weights_x: Handle,
    weights_y: Handle,
    weights_b: Handle,
    qac_qm_x: Handle,
    qac_qm_y: Handle,
    qac_qm_b: Handle,
    thresholds_x: Handle,
    thresholds_y: Handle,
    thresholds_b: Handle,
    mask1x1: Handle,
    xsize_blocks: u32,
    ysize_blocks: u32,
) -> (r: CostGrid)
    requires
        old(enc)@.wf(),
        sizes_fit(Transform::Dct8x16, xsize_blocks, ysize_blocks),
        channel(orig_x, weights_x, qac_qm_x, thresholds_x).suits(
            old(enc)@,
            Transform::Dct8x16,
            (xsize_blocks * ysize_blocks) as u32,
        ),
        channel(orig_y, weights_y, qac_qm_y, thresholds_y).suits(
            old(enc)@,
            Transform::Dct8x16,
            (xsize_blocks * ysize_blocks) as u32,
        ),
        channel(orig_b, weights_b, qac_qm_b, thresholds_b).suits(
            old(enc)@,
            Transform::Dct8x16,
            (xsize_blocks * ysize_blocks) as u32,
        ),
        old(enc)@.holds(mask1x1, xsize_blocks * ysize_blocks * Transform::Dct8x16.coeffs() * 4),
    ensures
        (final(enc)@, r) == cost_grid_xyb_steps(
            old(enc)@,
            Transform::Dct8x16,
            channel(orig_x, weights_x, qac_qm_x, thresholds_x),
            channel(orig_y, weights_y, qac_qm_y, thresholds_y),
            channel(orig_b, weights_b, qac_qm_b, thresholds_b),
            mask1x1,
            xsize_blocks,
            ysize_blocks,
        ),
        final(enc)@.wf(),
{
    cost_grid_xyb(
        enc,
        Transform::Dct8x16,
        ChannelInputs {
            original: orig_x,
            weights: weights_x,
            qac_qm: qac_qm_x,
            thresholds: thresholds_x,
        },
        ChannelInputs {
            original: orig_y,
            weights: weights_y,
            qac_qm: qac_qm_y,
            thresholds: thresholds_y,
        },
        ChannelInputs {
            original: orig_b,
            weights: weights_b,
            qac_qm: qac_qm_b,
            thresholds: thresholds_b,
        },
        mask1x1,
        xsize_blocks,
        ysize_blocks,
    )
}

/// Makes the cost grid of the DCT8x16 over one channel, unmasked.
pub fn compute_cost_grid_dct8x16_single_channel(
    enc: &mut GpuEncoder,
    original: Handle,
    weights: Handle,
    qac_qm: Handle,
    thresholds: Handle,
    xsize_blocks: u32,
    ysize_blocks: u32,
) -> (r: CostGrid)
    requires
        old(enc)@.wf(),
        sizes_fit(Transform::Dct8x16, xsize_blocks, ysize_blocks),
        channel(original, weights, qac_qm, thresholds).suits(
            old(enc)@,
            Transform::Dct8x16,
            (xsize_blocks * ysize_blocks) as u32,
        ),
    ensures
        (final(enc)@, r) == cost_grid_single_channel_steps(
            old(enc)@,
            Transform::Dct8x16,
            channel(original, weights, qac_qm, thresholds),
            xsize_blocks,
            ysize_blocks,
        ),
        final(enc)@.wf(),
{
    cost_grid_single_channel(
        enc,
        Transform::Dct8x16,
        ChannelInputs { original, weights, qac_qm, thresholds },
        xsize_blocks,
        ysize_blocks,
    )
}

/// Makes the cost grid of the DCT32x16 over the channels X, Y and B.
pub fn compute_cost_grid_dct32x16_xyb(
    enc: &mut GpuEncoder,
    orig_x: Handle,
    orig_y: Handle,
    orig_b: Handle,
    weights_x: Handle,
    weights_y: Handle,
    weights_b: Handle,
    qac_qm_x: Handle,
    qac_qm_y: Handle,
    qac_qm_b: Handle,
    thresholds_x: Handle,
    thresholds_y: Handle,
    thresholds_b: Handle,
    mask1x1: Handle,
    xsize_blocks: u32,
    ysize_blocks: u32,
) -> (r: CostGrid)
    requires
        old(enc)@.wf(),
        sizes_fit(Transform::Dct32x16, xsize_blocks, ysize_blocks),
        channel(orig_x, weights_x, qac_qm_x, thresholds_x).suits(
            old(enc)@,
            Transform::Dct32x16,
            (xsize_blocks * ysize_blocks) as u32,
        ),
        channel(orig_y, weights_y, qac_qm_y, thresholds_y).suits(
            old(enc)@,
            Transform::Dct32x16,
            (xsize_blocks * ysize_blocks) as u32,
        ),
        channel(orig_b, weights_b, qac_qm_b, thresholds_b).suits(
            old(enc)@,
            Transform::Dct32x16,
            (xsize_blocks * ysize_blocks) as u32,
        ),
        old(enc)@.holds(mask1x1, xsize_blocks * ysize_blocks * Transform::Dct32x16.coeffs() * 4),
    ensures
        (final(enc)@, r) == cost_grid_xyb_steps(
            old(enc)@,
            Transform::Dct32x16,
            channel(orig_x, weights_x, qac_qm_x, thresholds_x),
            channel(orig_y, weights_y, qac_qm_y, thresholds_y),
            channel(orig_b, weights_b, qac_qm_b, thresholds_b),
            mask1x1,
            xsize_blocks,
            ysize_blocks,
        ),
        final(enc)@.wf(),
{
    cost_grid_xyb(
        enc,
        Transform::Dct32x16,
        ChannelInputs {
            original: orig_x,
            weights: weights_x,
            qac_qm: qac_qm_x,
            thresholds: thresholds_x,
        },
        ChannelInputs {
            original: orig_y,
            weights: weights_y,
            qac_qm: qac_qm_y,
            thresholds: thresholds_y,
        },
        ChannelInputs {
            original: orig_b,
            weights: weights_b,
            qac_qm: qac_qm_b,
            thresholds: thresholds_b,
        },
        mask1x1,
        xsize_blocks,
        ysize_blocks,
    )
}

/// Makes the cost grid of the DCT32x16 over one channel, unmasked.
pub fn compute_cost_grid_dct32x16_single_channel(
    enc: &mut GpuEncoder,
    original: Handle,
    weights: Handle,
    qac_qm: Handle,
    thresholds: Handle,
    xsize_blocks: u32,
    ysize_blocks: u32,
) -> (r: CostGrid)
    requires
        old(enc)@.wf(),
        sizes_fit(Transform::Dct32x16, xsize_blocks, ysize_blocks),
        channel(original, weights, qac_qm, thresholds).suits(
            old(enc)@,
            Transform::Dct32x16,
            (xsize_blocks * ysize_blocks) as u32,
        ),
    ensures
        (final(enc)@, r) == cost_grid_single_channel_steps(
            old(enc)@,
            Transform::Dct32x16,
            channel(original, weights, qac_qm, thresholds),
            xsize_blocks,
            ysize_blocks,
        ),
        final(enc)@.wf(),
{
    cost_grid_single_channel(
        enc,
        Transform::Dct32x16,
        ChannelInputs { original, weights, qac_qm, thresholds },
        xsize_blocks,
        ysize_blocks,
    )
}

/// Makes the cost grid of the DCT16x32 over the channels X, Y and B.
pub fn compute_cost_grid_dct16x32_xyb(
    enc: &mut GpuEncoder,
    orig_x: Handle,
    orig_y: Handle,
    orig_b: Handle,
    weights_x: Handle,
    weights_y: Handle,
    weights_b: Handle,
    qac_qm_x: Handle,
    qac_qm_y: Handle,
    qac_qm_b: Handle,
    thresholds_x: Handle,
    thresholds_y: Handle,
    thresholds_b: Handle,
    mask1x1: Handle,
    xsize_blocks: u32,
    ysize_blocks: u32,
) -> (r: CostGrid)
    requires
        old(enc)@.wf(),
        sizes_fit(Transform::Dct16x32, xsize_blocks, ysize_blocks),
        channel(orig_x, weights_x, qac_qm_x, thresholds_x).suits(
            old(enc)@,
            Transform::Dct16x32,
            (xsize_blocks * ysize_blocks) as u32,
        ),
        channel(orig_y, weights_y, qac_qm_y, thresholds_y).suits(
            old(enc)@,
            Transform::Dct16x32,
            (xsize_blocks * ysize_blocks) as u32,
        ),
        channel(orig_b, weights_b, qac_qm_b, thresholds_b).suits(
            old(enc)@,
            Transform::Dct16x32,
            (xsize_blocks * ysize_blocks) as u32,
        ),
        old(enc)@.holds(mask1x1, xsize_blocks * ysize_blocks * Transform::Dct16x32.coeffs() * 4),
    ensures
        (final(enc)@, r) == cost_grid_xyb_steps(
            old(enc)@,
            Transform::Dct16x32,
            channel(orig_x, weights_x, qac_qm_x, thresholds_x),
            channel(orig_y, weights_y, qac_qm_y, thresholds_y),
            channel(orig_b, weights_b, qac_qm_b, thresholds_b),
            mask1x1,
            xsize_blocks,
            ysize_blocks,
        ),
        final(enc)@.wf(),
{
    cost_grid_xyb(
        enc,
        Transform::Dct16x32,
        ChannelInputs {
            original: orig_x,
            weights: weights_x,
            qac_qm: qac_qm_x,
            thresholds: thresholds_x,
        },
        ChannelInputs {
            original: orig_y,
            weights: weights_y,
            qac_qm: qac_qm_y,
            thresholds: thresholds_y,
        },
        ChannelInputs {
            original: orig_b,
            weights: weights_b,
            qac_qm: qac_qm_b,
            thresholds: thresholds_b,
        },
        mask1x1,
        xsize_blocks,
        ysize_blocks,
    )
}

/// Makes the cost grid of the DCT16x32 over one channel, unmasked.
pub fn compute_cost_grid_dct16x32_single_channel(
    enc: &mut GpuEncoder,
    original: Handle,
    weights: Handle,
    qac_qm: Handle,
    thresholds: Handle,
    xsize_blocks: u32,
    ysize_blocks: u32,
) -> (r: CostGrid)
    requires
        old(enc)@.wf(),
        sizes_fit(Transform::Dct16x32, xsize_blocks, ysize_blocks),
        channel(original, weights, qac_qm, thresholds).suits(
            old(enc)@,
            Transform::Dct16x32,
            (xsize_blocks * ysize_blocks) as u32,
        ),
    ensures
        (final(enc)@, r) == cost_grid_single_channel_steps(
            old(enc)@,
            Transform::Dct16x32,
            channel(original, weights, qac_qm, thresholds),
            xsize_blocks,
            ysize_blocks,
        ),
        final(enc)@.wf(),
{
    cost_grid_single_channel(
        enc,
        Transform::Dct16x32,
        ChannelInputs { original, weights, qac_qm, thresholds },
        xsize_blocks,
        ysize_blocks,
    )
}

/// Makes the cost grid of the DCT64x32 over the channels X, Y and B.
pub fn compute_cost_grid_dct64x32_xyb(
    enc: &mut GpuEncoder,
    orig_x: Handle,
    orig_y: Handle,
    orig_b: Handle,
    weights_x: Handle,
    weights_y: Handle,
    weights_b: Handle,
    qac_qm_x: Handle,
    qac_qm_y: Handle,
    qac_qm_b: Handle,
    thresholds_x: Handle,
    thresholds_y: Handle,
    thresholds_b: Handle,
    mask1x1: Handle,
    xsize_blocks: u32,
    ysize_blocks: u32,
) -> (r: CostGrid)
    requires
        old(enc)@.wf(),
        sizes_fit(Transform::Dct64x32, xsize_blocks, ysize_blocks),
        channel(orig_x, weights_x, qac_qm_x, thresholds_x).suits(
            old(enc)@,
            Transform::Dct64x32,
            (xsize_blocks * ysize_blocks) as u32,
        ),
        channel(orig_y, weights_y, qac_qm_y, thresholds_y).suits(
            old(enc)@,
            Transform::Dct64x32,
            (xsize_blocks * ysize_blocks) as u32,
        ),
        channel(orig_b, weights_b, qac_qm_b, thresholds_b).suits(
            old(enc)@,
            Transform::Dct64x32,
            (xsize_blocks * ysize_blocks) as u32,
        ),
        old(enc)@.holds(mask1x1, xsize_blocks * ysize_blocks * Transform::Dct64x32.coeffs() * 4),
    ensures
        (final(enc)@, r) == cost_grid_xyb_steps(
            old(enc)@,
            Transform::Dct64x32,
            channel(orig_x, weights_x, qac_qm_x, thresholds_x),
            channel(orig_y, weights_y, qac_qm_y, thresholds_y),
            channel(orig_b, weights_b, qac_qm_b, thresholds_b),
            mask1x1,
            xsize_blocks,
            ysize_blocks,
        ),
        final(enc)@.wf(),
{
    cost_grid_xyb(
        enc,
        Transform::Dct64x32,
        ChannelInputs {
            original: orig_x,
            weights: weights_x,
            qac_qm: qac_qm_x,
            thresholds: thresholds_x,
        },
        ChannelInputs {
            original: orig_y,
            weights: weights_y,
            qac_qm: qac_qm_y,
            thresholds: thresholds_y,
        },
        ChannelInputs {
            original: orig_b,
            weights: weights_b,
            qac_qm: qac_qm_b,
            thresholds: thresholds_b,
        },
        mask1x1,
        xsize_blocks,
        ysize_blocks,
    )
}

/// Makes the cost grid of the DCT64x32 over one channel, unmasked.
pub fn compute_cost_grid_dct64x32_single_channel(
    enc: &mut GpuEncoder,
    original: Handle,
    weights: Handle,
    qac_qm: Handle,
    thresholds: Handle,
    xsize_blocks: u32,
    ysize_blocks: u32,
) -> (r: CostGrid)
    requires
        old(enc)@.wf(),
        sizes_fit(Transform::Dct64x32, xsize_blocks, ysize_blocks),
        channel(original, weights, qac_qm, thresholds).suits(
            old(enc)@,
            Transform::Dct64x32,
            (xsize_blocks * ysize_blocks) as u32,
        ),
    ensures
        (final(enc)@, r) == cost_grid_single_channel_steps(
            old(enc)@,
            Transform::Dct64x32,
            channel(original, weights, qac_qm, thresholds),
            xsize_blocks,
            ysize_blocks,
        ),
        final(enc)@.wf(),
{
    cost_grid_single_channel(
        enc,
        Transform::Dct64x32,
        ChannelInputs { original, weights, qac_qm, thresholds },
        xsize_blocks,
        ysize_blocks,
    )
}

/// Makes the cost grid of the DCT32x64 over the channels X, Y and B.
pub fn compute_cost_grid_dct32x64_xyb(
    enc: &mut GpuEncoder,
    orig_x: Handle,
    orig_y: Handle,
    orig_b: Handle,
    weights_x: Handle,
    weights_y: Handle,
    weights_b: Handle,
    qac_qm_x: Handle,
    qac_qm_y: Handle,
    qac_qm_b: Handle,
    thresholds_x: Handle,
    thresholds_y: Handle,
    thresholds_b: Handle,
    mask1x1: Handle,
    xsize_blocks: u32,
    ysize_blocks: u32,
) -> (r: CostGrid)
    requires
        old(enc)@.wf(),
        sizes_fit(Transform::Dct32x64, xsize_blocks, ysize_blocks),
        channel(orig_x, weights_x, qac_qm_x, thresholds_x).suits(
            old(enc)@,
            Transform::Dct32x64,
            (xsize_blocks * ysize_blocks) as u32,
        ),
        channel(orig_y, weights_y, qac_qm_y, thresholds_y).suits(
            old(enc)@,
            Transform::Dct32x64,
            (xsize_blocks * ysize_blocks) as u32,
        ),
        channel(orig_b, weights_b, qac_qm_b, thresholds_b).suits(
            old(enc)@,
            Transform::Dct32x64,
            (xsize_blocks * ysize_blocks) as u32,
        ),
        old(enc)@.holds(mask1x1, xsize_blocks * ysize_blocks * Transform::Dct32x64.coeffs() * 4),
    ensures
        (final(enc)@, r) == cost_grid_xyb_steps(
            old(enc)@,
            Transform::Dct32x64,
            channel(orig_x, weights_x, qac_qm_x, thresholds_x),
            channel(orig_y, weights_y, qac_qm_y, thresholds_y),
            channel(orig_b, weights_b, qac_qm_b, thresholds_b),
            mask1x1,
            xsize_blocks,
            ysize_blocks,
        ),
        final(enc)@.wf(),
{
    cost_grid_xyb(
        enc,
        Transform::Dct32x64,
        ChannelInputs {
            original: orig_x,
            weights: weights_x,
            qac_qm: qac_qm_x,
            thresholds: thresholds_x,
        },
        ChannelInputs {
            original: orig_y,
            weights: weights_y,
            qac_qm: qac_qm_y,
            thresholds: thresholds_y,
        },
        ChannelInputs {
            original: orig_b,
            weights: weights_b,
            qac_qm: qac_qm_b,
            thresholds: thresholds_b,
        },
        mask1x1,
        xsize_blocks,
        ysize_blocks,
    )
}

/// Makes the cost grid of the DCT32x64 over one channel, unmasked.
pub fn compute_cost_grid_dct32x64_single_channel(
    enc: &mut GpuEncoder,
    original: Handle,
    weights: Handle,
    qac_qm: Handle,
    thresholds: Handle,
    xsize_blocks: u32,
    ysize_blocks: u32,
) -> (r: CostGrid)
    requires
        old(enc)@.wf(),
        sizes_fit(Transform::Dct32x64, xsize_blocks, ysize_blocks),
        channel(original, weights, qac_qm, thresholds).suits(
            old(enc)@,
            Transform::Dct32x64,
            (xsize_blocks * ysize_blocks) as u32,
        ),
    ensures
        (final(enc)@, r) == cost_grid_single_channel_steps(
            old(enc)@,
            Transform::Dct32x64,
            channel(original, weights, qac_qm, thresholds),
            xsize_blocks,
            ysize_blocks,
        ),
        final(enc)@.wf(),
{
    cost_grid_single_channel(
        enc,
        Transform::Dct32x64,
        ChannelInputs { original, weights, qac_qm, thresholds },
        xsize_blocks,
        ysize_blocks,
    )
}

/// Makes the cost grid of the DCT4x4 over the channels X, Y and B.
pub fn compute_cost_grid_dct4x4_xyb(
    enc: &mut GpuEncoder,
    orig_x: Handle,
    orig_y: Handle,
    orig_b: Handle,
    weights_x: Handle,
    weights_y: Handle,
    weights_b: Handle,
    qac_qm_x: Handle,
    qac_qm_y: Handle,
    qac_qm_b: Handle,
    thresholds_x: Handle,
    thresholds_y: Handle,
    thresholds_b: Handle,
    mask1x1: Handle,
    xsize_blocks: u32,
    ysize_blocks: u32,
) -> (r: CostGrid)
    requires
        old(enc)@.wf(),
        sizes_fit(Transform::Dct4x4, xsize_blocks, ysize_blocks),
        channel(orig_x, weights_x, qac_qm_x, thresholds_x).suits(
            old(enc)@,
            Transform::Dct4x4,
            (xsize_blocks * ysize_blocks) as u32,
        ),
        channel(orig_y, weights_y, qac_qm_y, thresholds_y).suits(
            old(enc)@,
            Transform::Dct4x4,
            (xsize_blocks * ysize_blocks) as u32,
        ),
        channel(orig_b, weights_b, qac_qm_b, thresholds_b).suits(
            old(enc)@,
            Transform::Dct4x4,
            (xsize_blocks * ysize_blocks) as u32,
        ),
        old(enc)@.holds(mask1x1, xsize_blocks * ysize_blocks * Transform::Dct4x4.coeffs() * 4),
    ensures
        (final(enc)@, r) == cost_grid_xyb_steps(
            old(enc)@,
            Transform::Dct4x4,
            channel(orig_x, weights_x, qac_qm_x, thresholds_x),
            channel(orig_y, weights_y, qac_qm_y, thresholds_y),
            channel(orig_b, weights_b, qac_qm_b, thresholds_b),
            mask1x1,
            xsize_blocks,
            ysize_blocks,
        ),
        final(enc)@.wf(),
{
    cost_grid_xyb(
        enc,
        Transform::Dct4x4,
        ChannelInputs {
            original: orig_x,
            weights: weights_x,
            qac_qm: qac_qm_x,
            thresholds: thresholds_x,
        },
        ChannelInputs {
            original: orig_y,
            weights: weights_y,
            qac_qm: qac_qm_y,
            thresholds: thresholds_y,
        },
        ChannelInputs {
            original: orig_b,
            weights: weights_b,
            qac_qm: qac_qm_b,
            thresholds: thresholds_b,
        },
        mask1x1,
        xsize_blocks,
        ysize_blocks,
    )
}

/// Makes the cost grid of the DCT4x4 over one channel, unmasked.
pub fn compute_cost_grid_dct4x4_single_channel(
    enc: &mut GpuEncoder,
    original: Handle,
    weights: Handle,
    qac_qm: Handle,
    thresholds: Handle,
    xsize_blocks: u32,
    ysize_blocks: u32,
) -> (r: CostGrid)
    requires
        old(enc)@.wf(),
        sizes_fit(Transform::Dct4x4, xsize_blocks, ysize_blocks),
        channel(original, weights, qac_qm, thresholds).suits(
            old(enc)@,
            Transform::Dct4x4,
            (xsize_blocks * ysize_blocks) as u32,
        ),
    ensures
        (final(enc)@, r) == cost_grid_single_channel_steps(
            old(enc)@,
            Transform::Dct4x4,
            channel(original, weights, qac_qm, thresholds),
            xsize_blocks,
            ysize_blocks,
        ),
        final(enc)@.wf(),
{
    cost_grid_single_channel(
        enc,
        Transform::Dct4x4,
        ChannelInputs { original, weights, qac_qm, thresholds },
        xsize_blocks,
        ysize_blocks,
    )
}

/// Makes the cost grid of the DCT4x8 over the channels X, Y and B.
pub fn compute_cost_grid_dct4x8_xyb(
    enc: &mut GpuEncoder,
    orig_x: Handle,
    orig_y: Handle,
    orig_b: Handle,
    weights_x: Handle,
    weights_y: Handle,
    weights_b: Handle,
    qac_qm_x: Handle,
    qac_qm_y: Handle,
    qac_qm_b: Handle,
    thresholds_x: Handle,
    thresholds_y: Handle,
    thresholds_b: Handle,
    mask1x1: Handle,
    xsize_blocks: u32,
    ysize_blocks: u32,
) -> (r: CostGrid)
    requires
        old(enc)@.wf(),
        sizes_fit(Transform::Dct4x8, xsize_blocks, ysize_blocks),
        channel(orig_x, weights_x, qac_qm_x, thresholds_x).suits(
            old(enc)@,
            Transform::Dct4x8,
            (xsize_blocks * ysize_blocks) as u32,
        ),
        channel(orig_y, weights_y, qac_qm_y, thresholds_y).suits(
            old(enc)@,
            Transform::Dct4x8,
            (xsize_blocks * ysize_blocks) as u32,
        ),
        channel(orig_b, weights_b, qac_qm_b, thresholds_b).suits(
            old(enc)@,
            Transform::Dct4x8,
            (xsize_blocks * ysize_blocks) as u32,
        ),
        old(enc)@.holds(mask1x1, xsize_blocks * ysize_blocks * Transform::Dct4x8.coeffs() * 4),
    ensures
        (final(enc)@, r) == cost_grid_xyb_steps(
            old(enc)@,
            Transform::Dct4x8,
            channel(orig_x, weights_x, qac_qm_x, thresholds_x),
            channel(orig_y, weights_y, qac_qm_y, thresholds_y),
            channel(orig_b, weights_b, qac_qm_b, thresholds_b),
            mask1x1,
            xsize_blocks,
            ysize_blocks,
        ),
        final(enc)@.wf(),
{
    cost_grid_xyb(
        enc,
        Transform::Dct4x8,
        ChannelInputs {
            original: orig_x,
            weights: weights_x,
            qac_qm: qac_qm_x,
            thresholds: thresholds_x,
        },
        ChannelInputs {
            original: orig_y,
            weights: weights_y,
            qac_qm: qac_qm_y,
            thresholds: thresholds_y,
        },
        ChannelInputs {
            original: orig_b,
            weights: weights_b,
            qac_qm: qac_qm_b,
            thresholds: thresholds_b,
        },
        mask1x1,
        xsize_blocks,
        ysize_blocks,
    )
}

/// Makes the cost grid of the DCT4x8 over one channel, unmasked.
pub fn compute_cost_grid_dct4x8_single_channel(
    enc: &mut GpuEncoder,
    original: Handle,
    weights: Handle,
    qac_qm: Handle,
    thresholds: Handle,
    xsize_blocks: u32,
    ysize_blocks: u32,
) -> (r: CostGrid)
    requires
        old(enc)@.wf(),
        sizes_fit(Transform::Dct4x8, xsize_blocks, ysize_blocks),
        channel(original, weights, qac_qm, thresholds).suits(
            old(enc)@,
            Transform::Dct4x8,
            (xsize_blocks * ysize_blocks) as u32,
        ),
    ensures
        (final(enc)@, r) == cost_grid_single_channel_steps(
            old(enc)@,
            Transform::Dct4x8,
            channel(original, weights, qac_qm, thresholds),
            xsize_blocks,
            ysize_blocks,
        ),
        final(enc)@.wf(),
{
    cost_grid_single_channel(
        enc,
        Transform::Dct4x8,
        ChannelInputs { original, weights, qac_qm, thresholds },
        xsize_blocks,
        ysize_blocks,
    )
}

/// Makes the cost grid of the DCT8x4 over the channels X, Y and B.
pub fn compute_cost_grid_dct8x4_xyb(
    enc: &mut GpuEncoder,
    orig_x: Handle,
    orig_y: Handle,
    orig_b: Handle,
    weights_x: Handle,
    weights_y: Handle,
    weights_b: Handle,
    qac_qm_x: Handle,
    qac_qm_y: Handle,
    qac_qm_b: Handle,
    thresholds_x: Handle,
    thresholds_y: Handle,
    thresholds_b: Handle,
    mask1x1: Handle,
    xsize_blocks: u32,
    ysize_blocks: u32,
) -> (r: CostGrid)
    requires
        old(enc)@.wf(),
        sizes_fit(Transform::Dct8x4, xsize_blocks, ysize_blocks),
        channel(orig_x, weights_x, qac_qm_x, thresholds_x).suits(
            old(enc)@,
            Transform::Dct8x4,
            (xsize_blocks * ysize_blocks) as u32,
        ),
        channel(orig_y, weights_y, qac_qm_y, thresholds_y).suits(
            old(enc)@,
            Transform::Dct8x4,
            (xsize_blocks * ysize_blocks) as u32,
        ),
        channel(orig_b, weights_b, qac_qm_b, thresholds_b).suits(
            old(enc)@,
            Transform::Dct8x4,
            (xsize_blocks * ysize_blocks) as u32,
        ),
        old(enc)@.holds(mask1x1, xsize_blocks * ysize_blocks * Transform::Dct8x4.coeffs() * 4),
    ensures
        (final(enc)@, r) == cost_grid_xyb_steps(
            old(enc)@,
            Transform::Dct8x4,
            channel(orig_x, weights_x, qac_qm_x, thresholds_x),
            channel(orig_y, weights_y, qac_qm_y, thresholds_y),
            channel(orig_b, weights_b, qac_qm_b, thresholds_b),
            mask1x1,
            xsize_blocks,
            ysize_blocks,
        ),
        final(enc)@.wf(),
{
    cost_grid_xyb(
        enc,
        Transform::Dct8x4,
        ChannelInputs {
            original: orig_x,
            weights: weights_x,
            qac_qm: qac_qm_x,
            thresholds: thresholds_x,
        },
        ChannelInputs {
            original: orig_y,
            weights: weights_y,
            qac_qm: qac_qm_y,
            thresholds: thresholds_y,
        },
        ChannelInputs {
            original: orig_b,
            weights: weights_b,
            qac_qm: qac_qm_b,
            thresholds: thresholds_b,
        },
        mask1x1,
        xsize_blocks,
        ysize_blocks,
    )
}

/// Makes the cost grid of the DCT8x4 over one channel, unmasked.
pub fn compute_cost_grid_dct8x4_single_channel(
    enc: &mut GpuEncoder,
    original: Handle,
    weights: Handle,
    qac_qm: Handle,
    thresholds: Handle,
    xsize_blocks: u32,
    ysize_blocks: u32,
) -> (r: CostGrid)
    requires
        old(enc)@.wf(),
        sizes_fit(Transform::Dct8x4, xsize_blocks, ysize_blocks),
        channel(original, weights, qac_qm, thresholds).suits(
            old(enc)@,
            Transform::Dct8x4,
            (xsize_blocks * ysize_blocks) as u32,
        ),
    ensures
        (final(enc)@, r) == cost_grid_single_channel_steps(
            old(enc)@,
            Transform::Dct8x4,
            channel(original, weights, qac_qm, thresholds),
            xsize_blocks,
            ysize_blocks,
        ),
        final(enc)@.wf(),
{
    cost_grid_single_channel(
        enc,
        Transform::Dct8x4,
        ChannelInputs { original, weights, qac_qm, thresholds },
        xsize_blocks,
        ysize_blocks,
    )
}

/// Makes the cost grid of the identity transform over the channels X, Y and B.
pub fn compute_cost_grid_identity_xyb(
    enc: &mut GpuEncoder,
    orig_x: Handle,
    orig_y: Handle,
    orig_b: Handle,
    weights_x: Handle,
    weights_y: Handle,
    weights_b: Handle,
    qac_qm_x: Handle,
    qac_qm_y: Handle,
    qac_qm_b: Handle,
    thresholds_x: Handle,
    thresholds_y: Handle,
    thresholds_b: Handle,
    mask1x1: Handle,
    xsize_blocks: u32,
    ysize_blocks: u32,
) -> (r: CostGrid)
    requires
        old(enc)@.wf(),
        sizes_fit(Transform::Identity, xsize_blocks, ysize_blocks),
        channel(orig_x, weights_x, qac_qm_x, thresholds_x).suits(
            old(enc)@,
            Transform::Identity,
            (xsize_blocks * ysize_blocks) as u32,
        ),
        channel(orig_y, weights_y, qac_qm_y, thresholds_y).suits(
            old(enc)@,
            Transform::Identity,
            (xsize_blocks * ysize_blocks) as u32,
        ),
        channel(orig_b, weights_b, qac_qm_b, thresholds_b).suits(
            old(enc)@,
            Transform::Identity,
            (xsize_blocks * ysize_blocks) as u32,
        ),
        old(enc)@.holds(mask1x1, xsize_blocks * ysize_blocks * Transform::Identity.coeffs() * 4),
    ensures
        (final(enc)@, r) == cost_grid_xyb_steps(
            old(enc)@,
            Transform::Identity,
            channel(orig_x, weights_x, qac_qm_x, thresholds_x),
            channel(orig_y, weights_y, qac_qm_y, thresholds_y),
            channel(orig_b, weights_b, qac_qm_b, thresholds_b),
            mask1x1,
            xsize_blocks,
            ysize_blocks,
        ),
        final(enc)@.wf(),
{
    cost_grid_xyb(
        enc,
        Transform::Identity,
        ChannelInputs {
            original: orig_x,
            weights: weights_x,
            qac_qm: qac_qm_x,
            thresholds: thresholds_x,
        },
        ChannelInputs {
            original: orig_y,
            weights: weights_y,
            qac_qm: qac_qm_y,
            thresholds: thresholds_y,
        },
        ChannelInputs {
            original: orig_b,
            weights: weights_b,
            qac_qm: qac_qm_b,
            thresholds: thresholds_b,
        },
        mask1x1,
        xsize_blocks,
        ysize_blocks,
    )
}

/// Makes the cost grid of the identity transform over one channel, unmasked.
pub fn compute_cost_grid_identity_single_channel(
    enc: &mut GpuEncoder,
    original: Handle,
    weights: Handle,
    qac_qm: Handle,
    thresholds: Handle,
    xsize_blocks: u32,
    ysize_blocks: u32,
) -> (r: CostGrid)
    requires
        old(enc)@.wf(),
        sizes_fit(Transform::Identity, xsize_blocks, ysize_blocks),
        channel(original, weights, qac_qm, thresholds).suits(
            old(enc)@,
            Transform::Identity,
            (xsize_blocks * ysize_blocks) as u32,
        ),
    ensures
        (final(enc)@, r) == cost_grid_single_channel_steps(
            old(enc)@,
            Transform::Identity,
            channel(original, weights, qac_qm, thresholds),
            xsize_blocks,
            ysize_blocks,
        ),
        final(enc)@.wf(),
{
    cost_grid_single_channel(
        enc,
        Transform::Identity,
        ChannelInputs { original, weights, qac_qm, thresholds },
        xsize_blocks,
        ysize_blocks,
    )
}

/// Makes the cost grid of the DCT2x2 over the channels X, Y and B.
pub fn compute_cost_grid_dct2x2_xyb(
    enc: &mut GpuEncoder,
    orig_x: Handle,
    orig_y: Handle,
    orig_b: Handle,
    weights_x: Handle,
    weights_y: Handle,
    weights_b: Handle,
    qac_qm_x: Handle,
    qac_qm_y: Handle,
    qac_qm_b: Handle,
    thresholds_x: Handle,
    thresholds_y: Handle,
    thresholds_b: Handle,
    mask1x1: Handle,
    xsize_blocks: u32,
    ysize_blocks: u32,
) -> (r: CostGrid)
    requires
        old(enc)@.wf(),
        sizes_fit(Transform::Dct2x2, xsize_blocks, ysize_blocks),
        channel(orig_x, weights_x, qac_qm_x, thresholds_x).suits(
            old(enc)@,
            Transform::Dct2x2,
            (xsize_blocks * ysize_blocks) as u32,
        ),
        channel(orig_y, weights_y, qac_qm_y, thresholds_y).suits(
            old(enc)@,
            Transform::Dct2x2,
            (xsize_blocks * ysize_blocks) as u32,
        ),
        channel(orig_b, weights_b, qac_qm_b, thresholds_b).suits(
            old(enc)@,
            Transform::Dct2x2,
            (xsize_blocks * ysize_blocks) as u32,
        ),
        old(enc)@.holds(mask1x1, xsize_blocks * ysize_blocks * Transform::Dct2x2.coeffs() * 4),
    ensures
        (final(enc)@, r) == cost_grid_xyb_steps(
            old(enc)@,
            Transform::Dct2x2,
            channel(orig_x, weights_x, qac_qm_x, thresholds_x),
            channel(orig_y, weights_y, qac_qm_y, thresholds_y),
            channel(orig_b, weights_b, qac_qm_b, thresholds_b),
            mask1x1,
            xsize_blocks,
            ysize_blocks,
        ),
        final(enc)@.wf(),
{
    cost_grid_xyb(
        enc,
        Transform::Dct2x2,
        ChannelInputs {
            original: orig_x,
            weights: weights_x,
            qac_qm: qac_qm_x,
            thresholds: thresholds_x,
        },
        ChannelInputs {
            original: orig_y,
            weights: weights_y,
            qac_qm: qac_qm_y,
            thresholds: thresholds_y,
        },
        ChannelInputs {
            original: orig_b,
            weights: weights_b,
            qac_qm: qac_qm_b,
            thresholds: thresholds_b,
        },
        mask1x1,
        xsize_blocks,
        ysize_blocks,
    )
}

/// Makes the cost grid of the DCT2x2 over one channel, unmasked.
pub fn compute_cost_grid_dct2x2_single_channel(
    enc: &mut GpuEncoder,
    original: Handle,
    weights: Handle,
    qac_qm: Handle,
    thresholds: Handle,
    xsize_blocks: u32,
    ysize_blocks: u32,
) -> (r: CostGrid)
    requires
        old(enc)@.wf(),
        sizes_fit(Transform::Dct2x2, xsize_blocks, ysize_blocks),
        channel(original, weights, qac_qm, thresholds).suits(
            old(enc)@,
            Transform::Dct2x2,
            (xsize_blocks * ysize_blocks) as u32,
        ),
    ensures
        (final(enc)@, r) == cost_grid_single_channel_steps(
            old(enc)@,
            Transform::Dct2x2,
            channel(original, weights, qac_qm, thresholds),
            xsize_blocks,
            ysize_blocks,
        ),
        final(enc)@.wf(),
{
    cost_grid_single_channel(
        enc,
        Transform::Dct2x2,
        ChannelInputs { original, weights, qac_qm, thresholds },
        xsize_blocks,
        ysize_blocks,
    )
}

} // verus!
