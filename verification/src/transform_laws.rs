//! What the transforms of blocks on the device do, and undo.

use crate::cost_grid::{forward_launch, inverse_launch, Transform};
use crate::cost_grid_laws::{kernel_pair, law_transforms_run_their_kernels, lemma_sides, sides};
use crate::dataflow::{word, Bytes, Run};
use crate::device::{Grid, Handle, Kernel, LaunchSpec, Recording, Scalar};
use crate::execution::{operands, writes, DeviceModel};
use crate::operations::{lemma_one, went_on};
use crate::persistent::{
    GpuBlocks, dct2x2_persistent_steps, dct_16x16_persistent_steps, dct_16x32_persistent_steps,
    dct_16x8_persistent_steps, dct_32x16_persistent_steps, dct_32x32_persistent_steps,
    dct_32x64_persistent_steps, dct_4x4_persistent_steps, dct_4x8_persistent_steps,
    dct_64x32_persistent_steps, dct_64x64_persistent_steps, dct_8x16_persistent_steps,
    dct_8x4_persistent_steps, dct_8x8_persistent_steps, idct_16x16_persistent_steps,
    idct_16x32_persistent_steps, idct_16x8_persistent_steps, idct_32x16_persistent_steps,
    idct_32x32_persistent_steps, idct_32x64_persistent_steps, idct_4x4_persistent_steps,
    idct_4x8_persistent_steps, idct_64x32_persistent_steps, idct_64x64_persistent_steps,
    idct_8x16_persistent_steps, idct_8x4_persistent_steps, idct_8x8_persistent_steps,
    identity_persistent_steps, inverse_dct2x2_persistent_steps, inverse_identity_persistent_steps,
};
use vstd::prelude::*;

verus! {

/// What transforming blocks records and returns.
pub open spec fn transform_steps(t: Transform, s: Recording, b: GpuBlocks) -> (
    Recording,
    GpuBlocks,
) {
    match t {
        Transform::Dct8x8 => dct_8x8_persistent_steps(s, b),
        Transform::Dct4x4 => dct_4x4_persistent_steps(s, b),
        Transform::Dct4x8 => dct_4x8_persistent_steps(s, b),
        Transform::Dct8x4 => dct_8x4_persistent_steps(s, b),
        Transform::Identity => identity_persistent_steps(s, b),
        Transform::Dct2x2 => dct2x2_persistent_steps(s, b),
        Transform::Dct16x16 => dct_16x16_persistent_steps(s, b),
        Transform::Dct16x8 => dct_16x8_persistent_steps(s, b),
        Transform::Dct8x16 => dct_8x16_persistent_steps(s, b),
        Transform::Dct32x32 => dct_32x32_persistent_steps(s, b),
        Transform::Dct32x16 => dct_32x16_persistent_steps(s, b),
        Transform::Dct16x32 => dct_16x32_persistent_steps(s, b),
        Transform::Dct64x64 => dct_64x64_persistent_steps(s, b),
        Transform::Dct64x32 => dct_64x32_persistent_steps(s, b),
        Transform::Dct32x64 => dct_32x64_persistent_steps(s, b),
    }
}

/// What transforming blocks back records and returns.
pub open spec fn inverse_steps(t: Transform, s: Recording, b: GpuBlocks) -> (
    Recording,
    GpuBlocks,
) {
    match t {
        Transform::Dct8x8 => idct_8x8_persistent_steps(s, b),
        Transform::Dct4x4 => idct_4x4_persistent_steps(s, b),
        Transform::Dct4x8 => idct_4x8_persistent_steps(s, b),
        Transform::Dct8x4 => idct_8x4_persistent_steps(s, b),
        Transform::Identity => inverse_identity_persistent_steps(s, b),
        Transform::Dct2x2 => inverse_dct2x2_persistent_steps(s, b),
        Transform::Dct16x16 => idct_16x16_persistent_steps(s, b),
        Transform::Dct16x8 => idct_16x8_persistent_steps(s, b),
        Transform::Dct8x16 => idct_8x16_persistent_steps(s, b),
        Transform::Dct32x32 => idct_32x32_persistent_steps(s, b),
        Transform::Dct32x16 => idct_32x16_persistent_steps(s, b),
        Transform::Dct16x32 => idct_16x32_persistent_steps(s, b),
        Transform::Dct64x64 => idct_64x64_persistent_steps(s, b),
        Transform::Dct64x32 => idct_64x32_persistent_steps(s, b),
        Transform::Dct32x64 => idct_32x64_persistent_steps(s, b),
    }
}

impl DeviceModel {
    /// What a kernel makes of `words` numbers in a new buffer.
    pub open spec fn turned(self, k: Kernel, g: Grid, words: int, p: Bytes) -> Bytes {
        (self.kernels)(k, g, seq![word(p, words), self.blank(words)], seq![])[1]
    }

    /// The coefficients of `n` blocks of pixels.
    pub open spec fn transformed(self, t: Transform, n: u32, p: Bytes) -> Bytes {
        let h = Handle { id: 0 };
        self.turned(
            kernel_pair(t).0,
            forward_launch(t, h, h, n).grid,
            n * (sides(t).0 * sides(t).1),
            p,
        )
    }

    /// The pixels of `n` blocks of coefficients.
    pub open spec fn transformed_back(self, t: Transform, n: u32, p: Bytes) -> Bytes {
        let h = Handle { id: 0 };
        self.turned(
            kernel_pair(t).1,
            inverse_launch(t, h, h, n).grid,
            n * (sides(t).0 * sides(t).1),
            p,
        )
    }
}

/// A buffer that a transform fills.
proof fn lemma_turned(run: Run, s: Recording, b: GpuBlocks, l: LaunchSpec, words: int)
    requires
        run.ready(s, 1),
        b.handle.id < s.buffers.len(),
        l.arrays == seq![
            crate::device::words(b.handle, words),
            crate::device::words(s.next(), words),
        ],
        l.scalars == Seq::<Scalar>::empty(),
        forall|j: int| 0 <= j < 2 ==> (#[trigger] writes(l.kernel, j) <==> j == 1),
    ensures
        ({
            let s1 = s.empty(words * 4).launch(l);
            &&& went_on(run, s, s1, 1)
            &&& run.held(s1, s.next()) == run.device.turned(
                l.kernel,
                l.grid,
                words,
                run.held(s, b.handle),
            )
        }),
{
    lemma_one(run, s, words * 4, l, 1);
    let m = run.memory(s).push((run.device.fresh)((words * 4) as u64));
    assert(operands(m, l.arrays) =~= seq![
        word(run.held(s, b.handle), words),
        run.device.blank(words),
    ]);
}

/// The coefficients of blocks are what the transform's own kernel makes of
/// their pixels, in a new buffer; nothing else changes.
#[verifier::rlimit(60)]
pub proof fn law_blocks_are_transformed(run: Run, s: Recording, t: Transform, b: GpuBlocks)
    requires
        run.ready(s, 1),
        b.handle.id < s.buffers.len(),
    ensures
        ({
            let (s1, r) = transform_steps(t, s, b);
            &&& went_on(run, s, s1, 1)
            &&& r.handle.id == s.buffers.len()
            &&& r.num_blocks == b.num_blocks
            &&& r.coeffs_per_block == sides(t).0 * sides(t).1
            &&& run.held(s1, r.handle) == run.device.transformed(
                t,
                b.num_blocks,
                run.held(s, b.handle),
            )
        }),
{
    let n = b.num_blocks;
    let words = n * (sides(t).0 * sides(t).1);
    let l = forward_launch(t, b.handle, s.next(), n);
    lemma_sides(t);
    law_transforms_run_their_kernels(t, b.handle, s.next(), n);
    lemma_turned(run, s, b, l, words);
    reveal(dct_8x8_persistent_steps);
    reveal(dct_4x4_persistent_steps);
    reveal(dct_4x8_persistent_steps);
    reveal(dct_8x4_persistent_steps);
    reveal(identity_persistent_steps);
    reveal(dct2x2_persistent_steps);
    reveal(dct_16x16_persistent_steps);
    reveal(dct_16x8_persistent_steps);
    reveal(dct_8x16_persistent_steps);
    reveal(dct_32x32_persistent_steps);
    reveal(dct_32x16_persistent_steps);
    reveal(dct_16x32_persistent_steps);
    reveal(dct_64x64_persistent_steps);
    reveal(dct_64x32_persistent_steps);
    reveal(dct_32x64_persistent_steps);
    assert(transform_steps(t, s, b).0 == s.empty(words * 4).launch(l));
}

/// The pixels of blocks are what the kernel that undoes the transform makes of
/// their coefficients, in a new buffer; nothing else changes.
#[verifier::rlimit(60)]
pub proof fn law_blocks_are_transformed_back(run: Run, s: Recording, t: Transform, b: GpuBlocks)
    requires
        run.ready(s, 1),
        b.handle.id < s.buffers.len(),
    ensures
        ({
            let (s1, r) = inverse_steps(t, s, b);
            &&& went_on(run, s, s1, 1)
            &&& r.handle.id == s.buffers.len()
            &&& r.num_blocks == b.num_blocks
            &&& r.coeffs_per_block == sides(t).0 * sides(t).1
            &&& run.held(s1, r.handle) == run.device.transformed_back(
                t,
                b.num_blocks,
                run.held(s, b.handle),
            )
        }),
{
    let n = b.num_blocks;
    let words = n * (sides(t).0 * sides(t).1);
    let l = inverse_launch(t, b.handle, s.next(), n);
    lemma_sides(t);
    law_transforms_run_their_kernels(t, b.handle, s.next(), n);
    lemma_turned(run, s, b, l, words);
    reveal(idct_8x8_persistent_steps);
    reveal(idct_4x4_persistent_steps);
    reveal(idct_4x8_persistent_steps);
    reveal(idct_8x4_persistent_steps);
    reveal(inverse_identity_persistent_steps);
    reveal(inverse_dct2x2_persistent_steps);
    reveal(idct_16x16_persistent_steps);
    reveal(idct_16x8_persistent_steps);
    reveal(idct_8x16_persistent_steps);
    reveal(idct_32x32_persistent_steps);
    reveal(idct_32x16_persistent_steps);
    reveal(idct_16x32_persistent_steps);
    reveal(idct_64x64_persistent_steps);
    reveal(idct_64x32_persistent_steps);
    reveal(idct_32x64_persistent_steps);
    assert(inverse_steps(t, s, b).0 == s.empty(words * 4).launch(l));
}

/// On a device whose kernel for the inverse of a transform undoes the one for
/// the transform, blocks that are transformed and transformed back are what
/// they were.
pub proof fn law_transforming_back_gives_back_the_blocks(
    run: Run,
    s: Recording,
    t: Transform,
    b: GpuBlocks,
)
    requires
        run.ready(s, 2),
        b.handle.id < s.buffers.len(),
        forall|p: Bytes|
            run.device.transformed_back(
                t,
                b.num_blocks,
                #[trigger] run.device.transformed(t, b.num_blocks, p),
            ) == p,
    ensures
        ({
            let (s1, c) = transform_steps(t, s, b);
            let (s2, r) = inverse_steps(t, s1, c);
            &&& r.num_blocks == b.num_blocks
            &&& r.coeffs_per_block == sides(t).0 * sides(t).1
            &&& run.held(s2, r.handle) == run.held(s, b.handle)
        }),
{
    law_blocks_are_transformed(run, s, t, b);
    let (s1, c) = transform_steps(t, s, b);
    law_blocks_are_transformed_back(run, s1, t, c);
}

} // verus!
