//! What each operation on the device leaves in the buffers that it makes.

use crate::dataflow::{
    byte, kept, left, lemma_launched, lemma_made, lemma_not_stored, lemma_one_filled,
    lemma_stored, lemma_three_filled, stored_numbers, word, Run, Three,
};
use crate::device::{CommandSpec, Handle, Kernel, LaunchSpec, Recording};
use crate::execution::{bytes_of_words, held, operands, stored, writes};
use crate::float::Float32;
use crate::functions::Size;
use crate::launch::aq_field::block_mask_mean_launch;
use crate::launch::dc_grid::dc_grid_8x8_launch;
use crate::launch::dc_restore::restore_dc_launch;
use crate::launch::dct8::{dct_8x8_wide_launch, idct_8x8_wide_launch};
use crate::launch::dequant::dequant_dct8_broadcast_w_launch;
use crate::launch::epf::{epf_step1_launch, epf_step2_launch, pad_plane_launch};
use crate::launch::gab::gab_smooth_launch;
use crate::launch::gab_3ch::gab_smooth_3ch_launch;
use crate::launch::gaborish::gaborish_5x5_launch;
use crate::launch::gather::{gather_blocks_launch, scatter_blocks_launch};
use crate::launch::mask1x1::mask1x1_launch;
use crate::launch::quantize::quantize_dct8_broadcast_w_launch;
use crate::launch::u8_rgb_prepare::u8_rgb_to_linear_planar_padded_launch;
use crate::launch::xyb::{xyb_forward_launch, xyb_inverse_launch};
use crate::lossy_encoder::FilterParameters;
use crate::persistent::{
    bits_of, block_mask_mean_steps, dc_grid_8x8_persistent_steps, dct_8x8_wide_persistent_steps,
    dequant_dct8_persistent_broadcast_w_steps, epf_step1_persistent_steps,
    epf_step2_persistent_steps, gab_smooth_3ch_persistent_steps, gab_smooth_persistent_steps,
    gaborish_5x5_persistent_steps, gather_blocks_persistent_steps, idct_8x8_wide_persistent_steps,
    mask1x1_persistent_steps, pad_plane_persistent_steps,
    quantize_dct8_persistent_broadcast_w_steps, restore_dc_persistent_steps,
    scatter_blocks_persistent_steps, upload_inv_sigma_steps, upload_plane_steps,
    upload_planes_3ch_steps, upload_u8_steps, xyb_from_linear_rgb_persistent_steps,
    xyb_to_linear_rgb_planar_persistent_steps, GaborishWeights, GpuBlocks, GpuI32Blocks, GpuPlane,
};
use vstd::prelude::*;

verus! {

/// Whether a recording went on from an earlier one with `more` buffers, left the
/// earlier ones as they were, and read nothing back.
pub open spec fn went_on(run: Run, s: Recording, s1: Recording, more: int) -> bool {
    &&& run.memory(s).len() == s.buffers.len()
    &&& run.memory(s1).len() == s1.buffers.len()
    &&& s1.buffers.len() == s.buffers.len() + more
    &&& kept(run.memory(s), run.memory(s1))
    &&& run.replies(s1) == run.replies(s)
}

/// Whether a plane of a size is among the buffers of a recording.
pub open spec fn lies_in(s: Recording, p: GpuPlane, size: Size) -> bool {
    p.handle.id < s.buffers.len() && p.width == size.width && p.height == size.height
}

/// Whether 8x8 blocks are among the buffers of a recording.
pub open spec fn blocks_lie_in(s: Recording, b: GpuBlocks, n: u32) -> bool {
    b.handle.id < s.buffers.len() && b.num_blocks == n && b.coeffs_per_block == 64
}

/// Whether quantized 8x8 blocks are among the buffers of a recording.
pub open spec fn ints_lie_in(s: Recording, b: GpuI32Blocks, n: u32) -> bool {
    b.handle.id < s.buffers.len() && b.num_blocks == n && b.coeffs_per_block == 64
}

/// One buffer made and filled by a launch.
pub proof fn lemma_one(run: Run, s: Recording, bytes: int, l: LaunchSpec, k: int)
    requires
        run.ready(s, 1),
        0 <= k < l.arrays.len(),
        l.arrays[k].handle == s.next(),
        forall|j: int| 0 <= j < l.arrays.len() ==> (#[trigger] writes(l.kernel, j) <==> j == k),
    ensures
        ({
            let s1 = s.empty(bytes).launch(l);
            let m = run.memory(s).push((run.device.fresh)(bytes as u64));
            &&& went_on(run, s, s1, 1)
            &&& run.held(s1, s.next()) == left(run.device, m, l)[k]
        }),
{
    let before = run.memory(s);
    let v = (run.device.fresh)(bytes as u64);
    lemma_made(run, s, s.empty(bytes), CommandSpec::Empty { bytes: bytes as u64 });
    lemma_one_filled(run, s.empty(bytes), v, before, l, k);
}

/// Three buffers made and filled by a launch.
pub proof fn lemma_three(run: Run, s: Recording, bytes: int, l: LaunchSpec, k: int)
    requires
        run.ready(s, 3),
        0 <= k,
        k + 3 <= l.arrays.len(),
        l.arrays[k].handle == s.next(),
        l.arrays[k + 1].handle == s.empty(bytes).next(),
        l.arrays[k + 2].handle == s.empty(bytes).empty(bytes).next(),
        forall|j: int|
            0 <= j < l.arrays.len() ==> (#[trigger] writes(l.kernel, j) <==> k <= j < k + 3),
    ensures
        ({
            let v = (run.device.fresh)(bytes as u64);
            let s1 = s.empty(bytes).empty(bytes).empty(bytes).launch(l);
            let m = run.memory(s).push(v).push(v).push(v);
            &&& went_on(run, s, s1, 3)
            &&& run.held(s1, s.next()) == left(run.device, m, l)[k]
            &&& run.held(s1, s.empty(bytes).next()) == left(run.device, m, l)[k + 1]
            &&& run.held(s1, s.empty(bytes).empty(bytes).next()) == left(run.device, m, l)[k + 2]
            &&& s.next().id == s.buffers.len()
            &&& s.empty(bytes).next().id == s.buffers.len() + 1
            &&& s.empty(bytes).empty(bytes).next().id == s.buffers.len() + 2
        }),
{
    let before = run.memory(s);
    let v = (run.device.fresh)(bytes as u64);
    let c = CommandSpec::Empty { bytes: bytes as u64 };
    let s1 = s.empty(bytes);
    let s2 = s1.empty(bytes);
    let s3 = s2.empty(bytes);
    lemma_made(run, s, s1, c);
    lemma_made(run, s1, s2, c);
    lemma_made(run, s2, s3, c);
    lemma_three_filled(run, s3, v, before, l, k);
}

/// A buffer made that holds words.
pub proof fn lemma_created(run: Run, s: Recording, words: Seq<u32>)
    requires
        run.ready(s, 1),
    ensures
        went_on(run, s, s.create(words), 1),
        run.held(s.create(words), s.next()) == bytes_of_words(words),
        s.next().id == s.buffers.len(),
{
    lemma_made(run, s, s.create(words), CommandSpec::Create { words });
}

/// A plane sharpened.
pub proof fn lemma_sharpened(
    run: Run,
    s: Recording,
    p: GpuPlane,
    w: GaborishWeights,
    size: Size,
)
    requires
        run.ready(s, 1),
        lies_in(s, p, size),
    ensures
        ({
            let (s1, r) = gaborish_5x5_persistent_steps(s, p, w);
            &&& went_on(run, s, s1, 1)
            &&& r.handle.id == s.buffers.len()
            &&& lies_in(s1, r, size)
            &&& run.held(s1, r.handle) == run.device.sharpened(size, w, run.held(s, p.handle))
        }),
{
    reveal(gaborish_5x5_persistent_steps);
    let bytes = p.width * p.height * 4;
    let l = gaborish_5x5_launch(
        p.handle,
        s.next(),
        p.width,
        p.height,
        w.wc,
        w.wr,
        w.wd,
        w.w_big_r,
        w.wl,
        w.w_big_d,
    );
    lemma_one(run, s, bytes, l, 1);
    let m = run.memory(s).push((run.device.fresh)(bytes as u64));
    assert(operands(m, l.arrays) =~= seq![
        word(run.held(s, p.handle), size.pixels()),
        run.device.blank(size.pixels()),
    ]);
}

/// A plane smoothed.
pub proof fn lemma_smoothed(
    run: Run,
    s: Recording,
    p: GpuPlane,
    f: FilterParameters,
    size: Size,
)
    requires
        run.ready(s, 1),
        lies_in(s, p, size),
    ensures
        ({
            let (s1, r) = gab_smooth_persistent_steps(s, p, f.gab_center, f.gab_1, f.gab_2);
            &&& went_on(run, s, s1, 1)
            &&& r.handle.id == s.buffers.len()
            &&& lies_in(s1, r, size)
            &&& run.held(s1, r.handle) == run.device.smoothed(size, f, run.held(s, p.handle))
        }),
{
    reveal(gab_smooth_persistent_steps);
    let bytes = p.width * p.height * 4;
    let l = gab_smooth_launch(
        p.handle,
        s.next(),
        p.width,
        p.height,
        f.gab_center,
        f.gab_1,
        f.gab_2,
    );
    lemma_one(run, s, bytes, l, 1);
    let m = run.memory(s).push((run.device.fresh)(bytes as u64));
    assert(operands(m, l.arrays) =~= seq![
        word(run.held(s, p.handle), size.pixels()),
        run.device.blank(size.pixels()),
    ]);
}

/// The pixels of a plane are those of its blocks.
pub proof fn lemma_whole_blocks(size: Size)
    requires
        size.plain(),
    ensures
        size.blocks() * 64 == size.pixels(),
        0 <= size.blocks() <= size.pixels(),
        size.blocks() <= u32::MAX,
{
    let a = size.width / 8;
    let b = size.height / 8;
    assert((a * b) * 64 == (8 * a) * (8 * b) && a * b >= 0) by (nonlinear_arith);
    assert(size.width == 8 * a && size.height == 8 * b);
}

/// The pixels of a plane, block by block.
pub proof fn lemma_in_blocks(
    run: Run,
    s: Recording,
    p: GpuPlane,
    size: Size,
)
    requires
        run.ready(s, 1),
        size.plain(),
        lies_in(s, p, size),
    ensures
        ({
            let (s1, r) = gather_blocks_persistent_steps(s, p, 8, 8);
            &&& went_on(run, s, s1, 1)
            &&& r.handle.id == s.buffers.len()
            &&& blocks_lie_in(s1, r, size.blocks() as u32)
            &&& run.held(s1, r.handle) == run.device.in_blocks(size, run.held(s, p.handle))
        }),
{
    lemma_whole_blocks(size);
    assert(8 * 8 == 64) by (nonlinear_arith);
    reveal(gather_blocks_persistent_steps);
    let bytes = ((p.width / 8) * (p.height / 8)) * (8 * 8) * 4;
    let l = gather_blocks_launch(
        p.handle,
        s.next(),
        (p.width * p.height) as u64,
        (((p.width / 8) * (p.height / 8)) * (8 * 8)) as u64,
        p.width,
        p.width / 8,
        8,
        8,
    );
    lemma_one(run, s, bytes, l, 1);
    let m = run.memory(s).push((run.device.fresh)(bytes as u64));
    assert(operands(m, l.arrays) =~= seq![
        word(run.held(s, p.handle), size.pixels()),
        run.device.blank(size.pixels()),
    ]);
}

/// A plane from its blocks.
pub proof fn lemma_in_rows(
    run: Run,
    s: Recording,
    b: GpuBlocks,
    size: Size,
)
    requires
        run.ready(s, 1),
        size.plain(),
        blocks_lie_in(s, b, size.blocks() as u32),
    ensures
        ({
            let (s1, r) = scatter_blocks_persistent_steps(s, b, size.width, size.height, 8, 8);
            &&& went_on(run, s, s1, 1)
            &&& r.handle.id == s.buffers.len()
            &&& lies_in(s1, r, size)
            &&& run.held(s1, r.handle) == run.device.in_rows(size, run.held(s, b.handle))
        }),
{
    lemma_whole_blocks(size);
    reveal(scatter_blocks_persistent_steps);
    let bytes = size.width * size.height * 4;
    let l = scatter_blocks_launch(
        b.handle,
        s.next(),
        (b.num_blocks * b.coeffs_per_block) as u64,
        (size.width * size.height) as u64,
        size.width,
        size.width / 8,
        8,
        8,
    );
    lemma_one(run, s, bytes, l, 1);
    let m = run.memory(s).push((run.device.fresh)(bytes as u64));
    assert(operands(m, l.arrays) =~= seq![
        word(run.held(s, b.handle), size.pixels()),
        run.device.blank(size.pixels()),
    ]);
}

/// The DCT of 8x8 blocks.
pub proof fn lemma_dct8(
    run: Run,
    s: Recording,
    b: GpuBlocks,
    n: u32,
)
    requires
        run.ready(s, 1),
        blocks_lie_in(s, b, n),
    ensures
        ({
            let (s1, r) = dct_8x8_wide_persistent_steps(s, b);
            &&& went_on(run, s, s1, 1)
            &&& r.handle.id == s.buffers.len()
            &&& blocks_lie_in(s1, r, n)
            &&& run.held(s1, r.handle) == run.device.dct8(n as int, run.held(s, b.handle))
        }),
{
    reveal(dct_8x8_wide_persistent_steps);
    let bytes = b.num_blocks * 64 * 4;
    let l = dct_8x8_wide_launch(b.handle, s.next(), b.num_blocks);
    lemma_one(run, s, bytes, l, 1);
    let m = run.memory(s).push((run.device.fresh)(bytes as u64));
    assert(operands(m, l.arrays) =~= seq![
        word(run.held(s, b.handle), n * 64),
        run.device.blank(n * 64),
    ]);
}

/// The inverse DCT of 8x8 blocks.
pub proof fn lemma_idct8(
    run: Run,
    s: Recording,
    b: GpuBlocks,
    n: u32,
)
    requires
        run.ready(s, 1),
        blocks_lie_in(s, b, n),
    ensures
        ({
            let (s1, r) = idct_8x8_wide_persistent_steps(s, b);
            &&& went_on(run, s, s1, 1)
            &&& r.handle.id == s.buffers.len()
            &&& blocks_lie_in(s1, r, n)
            &&& run.held(s1, r.handle) == run.device.idct8(n as int, run.held(s, b.handle))
        }),
{
    reveal(idct_8x8_wide_persistent_steps);
    let bytes = b.num_blocks * 64 * 4;
    let l = idct_8x8_wide_launch(b.handle, s.next(), b.num_blocks);
    lemma_one(run, s, bytes, l, 1);
    let m = run.memory(s).push((run.device.fresh)(bytes as u64));
    assert(operands(m, l.arrays) =~= seq![
        word(run.held(s, b.handle), n * 64),
        run.device.blank(n * 64),
    ]);
}

/// A plane with a border.
pub proof fn lemma_framed(
    run: Run,
    s: Recording,
    p: GpuPlane,
    pad: u32,
    size: Size,
)
    requires
        run.ready(s, 1),
        size.plain(),
        pad <= 2,
        lies_in(s, p, size),
    ensures
        ({
            let (s1, r) = pad_plane_persistent_steps(s, p, pad);
            &&& went_on(run, s, s1, 1)
            &&& r.handle.id == s.buffers.len()
            &&& r.handle.id < s1.buffers.len()
            &&& run.held(s1, r.handle) == run.device.framed(size, pad, run.held(s, p.handle))
        }),
{
    reveal(pad_plane_persistent_steps);
    let bytes = (p.width + 2 * pad) * (p.height + 2 * pad) * 4;
    let l = pad_plane_launch(p.handle, s.next(), p.width, p.height, pad);
    lemma_one(run, s, bytes, l, 1);
    let m = run.memory(s).push((run.device.fresh)(bytes as u64));
    assert(operands(m, l.arrays) =~= seq![
        word(run.held(s, p.handle), size.pixels()),
        run.device.blank(size.framed(pad as int)),
    ]);
}

/// The mask of a plane.
pub proof fn lemma_mask(
    run: Run,
    s: Recording,
    p: GpuPlane,
    size: Size,
)
    requires
        run.ready(s, 1),
        lies_in(s, p, size),
    ensures
        ({
            let (s1, r) = mask1x1_persistent_steps(s, p);
            &&& went_on(run, s, s1, 1)
            &&& r.handle.id == s.buffers.len()
            &&& lies_in(s1, r, size)
            &&& run.held(s1, r.handle) == run.device.mask(size, run.held(s, p.handle))
        }),
{
    reveal(mask1x1_persistent_steps);
    let bytes = p.width * p.height * 4;
    let l = mask1x1_launch(p.handle, s.next(), p.width, p.height);
    lemma_one(run, s, bytes, l, 1);
    let m = run.memory(s).push((run.device.fresh)(bytes as u64));
    assert(operands(m, l.arrays) =~= seq![
        word(run.held(s, p.handle), size.pixels()),
        run.device.blank(size.pixels()),
    ]);
}

/// The means of a mask.
pub proof fn lemma_mask_means(
    run: Run,
    s: Recording,
    p: GpuPlane,
    image: Size,
    size: Size,
)
    requires
        run.ready(s, 1),
        size.plain(),
        lies_in(s, p, size),
    ensures
        ({
            let (s1, r) = block_mask_mean_steps(s, p, image.width, image.height);
            &&& went_on(run, s, s1, 1)
            &&& r.handle.id == s.buffers.len()
            &&& r.handle.id < s1.buffers.len()
            &&& run.held(s1, r.handle) == run.device.mask_means(image, size, run.held(s, p.handle))
        }),
{
    lemma_whole_blocks(size);
    reveal(block_mask_mean_steps);
    let bytes = (p.width / 8) * (p.height / 8) * 4;
    let l = block_mask_mean_launch(
        p.handle,
        s.next(),
        image.width,
        image.height,
        p.width,
        p.height,
    );
    lemma_one(run, s, bytes, l, 1);
    let m = run.memory(s).push((run.device.fresh)(bytes as u64));
    assert(operands(m, l.arrays) =~= seq![
        word(run.held(s, p.handle), size.pixels()),
        run.device.blank(size.blocks()),
    ]);
}

/// The means of a plane in 8x8 blocks.
pub proof fn lemma_block_means(
    run: Run,
    s: Recording,
    p: GpuPlane,
    size: Size,
)
    requires
        run.ready(s, 1),
        size.plain(),
        lies_in(s, p, size),
    ensures
        ({
            let (s1, r) = dc_grid_8x8_persistent_steps(s, p);
            &&& went_on(run, s, s1, 1)
            &&& r.handle.id == s.buffers.len()
            &&& r.handle.id < s1.buffers.len()
            &&& run.held(s1, r.handle) == run.device.block_means(size, run.held(s, p.handle))
        }),
{
    lemma_whole_blocks(size);
    reveal(dc_grid_8x8_persistent_steps);
    let bytes = (p.width / 8) * (p.height / 8) * 4;
    let l = dc_grid_8x8_launch(p.handle, s.next(), p.width, p.height);
    lemma_one(run, s, bytes, l, 1);
    let m = run.memory(s).push((run.device.fresh)(bytes as u64));
    assert(operands(m, l.arrays) =~= seq![
        word(run.held(s, p.handle), size.pixels()),
        run.device.blank(size.blocks()),
    ]);
}

/// Opponent colours.
pub proof fn lemma_colours(
    run: Run,
    s: Recording,
    a: GpuPlane,
    b: GpuPlane,
    c: GpuPlane,
    size: Size,
)
    requires
        run.ready(s, 3),
        size.pixels() <= u32::MAX,
        lies_in(s, a, size),
        lies_in(s, b, size),
        lies_in(s, c, size),
    ensures
        ({
            let (s1, r) = xyb_from_linear_rgb_persistent_steps(s, a, b, c);
            &&& went_on(run, s, s1, 3)
            &&& r.0.handle.id == s.buffers.len()
            &&& r.1.handle.id == s.buffers.len() + 1
            &&& r.2.handle.id == s.buffers.len() + 2
            &&& lies_in(s1, r.0, size) && lies_in(s1, r.1, size) && lies_in(s1, r.2, size)
            &&& (run.held(s1, r.0.handle), run.held(s1, r.1.handle), run.held(s1, r.2.handle))
                == run.device.opponent_colours(
                size.pixels(),
                run.held(s, a.handle),
                run.held(s, b.handle),
                run.held(s, c.handle),
            )
        }),
{
    reveal(xyb_from_linear_rgb_persistent_steps);
    let bytes = a.width * a.height * 4;
    let h0 = s.next();
    let h1 = s.empty(bytes).next();
    let h2 = s.empty(bytes).empty(bytes).next();
    let l = xyb_forward_launch(
        a.handle,
        b.handle,
        c.handle,
        h0,
        h1,
        h2,
        (a.width * a.height) as u32,
    );
    lemma_three(run, s, bytes, l, 3);
    let v = (run.device.fresh)(bytes as u64);
    let m = run.memory(s).push(v).push(v).push(v);
    assert(operands(m, l.arrays) =~= seq![
        word(run.held(s, a.handle), size.pixels()),
        word(run.held(s, b.handle), size.pixels()),
        word(run.held(s, c.handle), size.pixels()),
        run.device.blank(size.pixels()),
        run.device.blank(size.pixels()),
        run.device.blank(size.pixels()),
    ]);
}

/// Back to linear light.
pub proof fn lemma_light(
    run: Run,
    s: Recording,
    a: GpuPlane,
    b: GpuPlane,
    c: GpuPlane,
    size: Size,
)
    requires
        run.ready(s, 3),
        size.pixels() <= u32::MAX,
        lies_in(s, a, size),
        lies_in(s, b, size),
        lies_in(s, c, size),
    ensures
        ({
            let (s1, r) = xyb_to_linear_rgb_planar_persistent_steps(s, a, b, c);
            &&& went_on(run, s, s1, 3)
            &&& r.0.handle.id == s.buffers.len()
            &&& r.1.handle.id == s.buffers.len() + 1
            &&& r.2.handle.id == s.buffers.len() + 2
            &&& lies_in(s1, r.0, size) && lies_in(s1, r.1, size) && lies_in(s1, r.2, size)
            &&& (run.held(s1, r.0.handle), run.held(s1, r.1.handle), run.held(s1, r.2.handle))
                == run.device.light(
                size.pixels(),
                run.held(s, a.handle),
                run.held(s, b.handle),
                run.held(s, c.handle),
            )
        }),
{
    reveal(xyb_to_linear_rgb_planar_persistent_steps);
    let bytes = a.width * a.height * 4;
    let h0 = s.next();
    let h1 = s.empty(bytes).next();
    let h2 = s.empty(bytes).empty(bytes).next();
    let l = xyb_inverse_launch(
        a.handle,
        b.handle,
        c.handle,
        h0,
        h1,
        h2,
        (a.width * a.height) as u32,
    );
    lemma_three(run, s, bytes, l, 3);
    let v = (run.device.fresh)(bytes as u64);
    let m = run.memory(s).push(v).push(v).push(v);
    assert(operands(m, l.arrays) =~= seq![
        word(run.held(s, a.handle), size.pixels()),
        word(run.held(s, b.handle), size.pixels()),
        word(run.held(s, c.handle), size.pixels()),
        run.device.blank(size.pixels()),
        run.device.blank(size.pixels()),
        run.device.blank(size.pixels()),
    ]);
}

/// Three planes smoothed at once.
pub proof fn lemma_smoothed_three(
    run: Run,
    s: Recording,
    a: GpuPlane,
    b: GpuPlane,
    c: GpuPlane,
    f: FilterParameters,
    size: Size,
)
    requires
        run.ready(s, 3),
        lies_in(s, a, size),
        lies_in(s, b, size),
        lies_in(s, c, size),
    ensures
        ({
            let (s1, r) = gab_smooth_3ch_persistent_steps(
                s,
                a,
                b,
                c,
                f.gab_center,
                f.gab_1,
                f.gab_2,
            );
            &&& went_on(run, s, s1, 3)
            &&& r.0.handle.id == s.buffers.len()
            &&& r.1.handle.id == s.buffers.len() + 1
            &&& r.2.handle.id == s.buffers.len() + 2
            &&& lies_in(s1, r.0, size) && lies_in(s1, r.1, size) && lies_in(s1, r.2, size)
            &&& (run.held(s1, r.0.handle), run.held(s1, r.1.handle), run.held(s1, r.2.handle))
                == run.device.smoothed_three(
                size,
                f,
                (run.held(s, a.handle), run.held(s, b.handle), run.held(s, c.handle)),
            )
        }),
{
    reveal(gab_smooth_3ch_persistent_steps);
    let bytes = a.width * a.height * 4;
    let h0 = s.next();
    let h1 = s.empty(bytes).next();
    let h2 = s.empty(bytes).empty(bytes).next();
    let l = gab_smooth_3ch_launch(
        a.handle,
        b.handle,
        c.handle,
        h0,
        h1,
        h2,
        a.width,
        a.height,
        f.gab_center,
        f.gab_1,
        f.gab_2,
    );
    lemma_three(run, s, bytes, l, 3);
    let v = (run.device.fresh)(bytes as u64);
    let m = run.memory(s).push(v).push(v).push(v);
    assert(operands(m, l.arrays) =~= seq![
        word(run.held(s, a.handle), size.pixels()),
        word(run.held(s, b.handle), size.pixels()),
        word(run.held(s, c.handle), size.pixels()),
        run.device.blank(size.pixels()),
        run.device.blank(size.pixels()),
        run.device.blank(size.pixels()),
    ]);
}

/// A plane put on the device.
pub proof fn lemma_uploaded(run: Run, s: Recording, data: Seq<Float32>, size: Size)
    requires
        run.ready(s, 1),
    ensures
        ({
            let (s1, r) = upload_plane_steps(s, data, size.width, size.height);
            &&& went_on(run, s, s1, 1)
            &&& lies_in(s1, r, size)
            &&& r.handle.id == s.buffers.len()
            &&& run.held(s1, r.handle) == stored_numbers(data)
        }),
{
    reveal(upload_plane_steps);
    lemma_created(run, s, bits_of(data));
}

/// Three planes put on the device.
pub proof fn lemma_uploaded_three(
    run: Run,
    s: Recording,
    a: Seq<Float32>,
    b: Seq<Float32>,
    c: Seq<Float32>,
    size: Size,
)
    requires
        run.ready(s, 3),
    ensures
        ({
            let (s1, r) = upload_planes_3ch_steps(s, a, b, c, size.width, size.height);
            &&& went_on(run, s, s1, 3)
            &&& lies_in(s1, r.0, size) && lies_in(s1, r.1, size) && lies_in(s1, r.2, size)
            &&& run.held(s1, r.0.handle) == stored_numbers(a)
            &&& run.held(s1, r.1.handle) == stored_numbers(b)
            &&& run.held(s1, r.2.handle) == stored_numbers(c)
        }),
{
    reveal(upload_planes_3ch_steps);
    let s1 = s.create(bits_of(a));
    let s2 = s1.create(bits_of(b));
    lemma_created(run, s, bits_of(a));
    lemma_created(run, s1, bits_of(b));
    lemma_created(run, s2, bits_of(c));
}

/// Filter strengths put on the device.
pub proof fn lemma_strengths(run: Run, s: Recording, strengths: Seq<Float32>)
    requires
        run.ready(s, 1),
    ensures
        ({
            let (s1, r) = upload_inv_sigma_steps(s, strengths);
            &&& went_on(run, s, s1, 1)
            &&& r.id == s.buffers.len()
            &&& run.held(s1, r) == stored_numbers(strengths)
        }),
{
    reveal(upload_inv_sigma_steps);
    lemma_created(run, s, bits_of(strengths));
}

/// An image of bytes turned to planes of light.
pub proof fn lemma_light_of_bytes(
    run: Run,
    s: Recording,
    pixels: Seq<u8>,
    image: Size,
    size: Size,
)
    requires
        run.ready(s, 4),
        size.plain(),
    ensures
        ({
            let (s1, r) = upload_u8_steps(
                s,
                pixels,
                image.width,
                image.height,
                size.width,
                size.height,
            );
            &&& went_on(run, s, s1, 4)
            &&& lies_in(s1, r.0, size) && lies_in(s1, r.1, size) && lies_in(s1, r.2, size)
            &&& (run.held(s1, r.0.handle), run.held(s1, r.1.handle), run.held(s1, r.2.handle))
                == run.device.light_of_bytes(image, size, pixels)
        }),
{
    reveal(upload_u8_steps);
    let bytes = size.width * size.height * 4;
    let t = s.create_bytes(pixels);
    lemma_made(run, s, t, CommandSpec::CreateBytes { data: pixels });
    let h0 = t.next();
    let h1 = t.empty(bytes).next();
    let h2 = t.empty(bytes).empty(bytes).next();
    let l = u8_rgb_to_linear_planar_padded_launch(
        s.next(),
        h0,
        h1,
        h2,
        image.width,
        image.height,
        size.width,
        size.height,
    );
    lemma_three(run, t, bytes, l, 1);
    let v = (run.device.fresh)(bytes as u64);
    let m = run.memory(t).push(v).push(v).push(v);
    assert(operands(m, l.arrays) =~= seq![
        byte(pixels, image.pixels() * 3),
        run.device.blank(size.pixels()),
        run.device.blank(size.pixels()),
        run.device.blank(size.pixels()),
    ]);
}

/// The coefficients of a channel quantized.
pub proof fn lemma_quantized(
    run: Run,
    s: Recording,
    c: GpuBlocks,
    matrix: GpuBlocks,
    scales: Seq<Float32>,
    thresholds: Seq<Float32>,
    n: u32,
)
    requires
        run.ready(s, 3),
        blocks_lie_in(s, c, n),
        matrix.handle.id < s.buffers.len(),
    ensures
        ({
            let (s1, r) = quantize_dct8_persistent_broadcast_w_steps(
                s,
                c,
                matrix,
                scales,
                thresholds,
            );
            &&& went_on(run, s, s1, 3)
            &&& ints_lie_in(s1, r, n)
            &&& run.held(s1, r.handle) == run.device.quantized(
                n,
                run.held(s, c.handle),
                run.held(s, matrix.handle),
                scales,
                thresholds,
            )
        }),
{
    reveal(quantize_dct8_persistent_broadcast_w_steps);
    let s1 = s.create(bits_of(scales));
    let s2 = s1.create(bits_of(thresholds));
    lemma_created(run, s, bits_of(scales));
    lemma_created(run, s1, bits_of(thresholds));
    let bytes = c.num_blocks * 64 * 4;
    let l = quantize_dct8_broadcast_w_launch(
        c.handle,
        matrix.handle,
        s.next(),
        s1.next(),
        s2.next(),
        c.num_blocks,
    );
    lemma_one(run, s2, bytes, l, 4);
    let m = run.memory(s2).push((run.device.fresh)(bytes as u64));
    assert(operands(m, l.arrays) =~= seq![
        word(run.held(s, c.handle), n * 64),
        word(run.held(s, matrix.handle), 64),
        word(stored_numbers(scales), n as int),
        word(stored_numbers(thresholds), 4),
        run.device.blank(n * 64),
    ]);
}

/// The coefficients of three channels from quantized ones.
#[verifier::rlimit(30)]
pub proof fn lemma_dequantized(
    run: Run,
    s: Recording,
    q: (GpuI32Blocks, GpuI32Blocks, GpuI32Blocks),
    matrices: (GpuBlocks, GpuBlocks, GpuBlocks),
    scales: Seq<Float32>,
    of_y_to_x: Seq<Float32>,
    of_y_to_b: Seq<Float32>,
    n: u32,
)
    requires
        run.ready(s, 8),
        ints_lie_in(s, q.0, n),
        ints_lie_in(s, q.1, n),
        ints_lie_in(s, q.2, n),
        matrices.0.handle.id < s.buffers.len(),
        matrices.1.handle.id < s.buffers.len(),
        matrices.2.handle.id < s.buffers.len(),
    ensures
        ({
            let (s1, r) = dequant_dct8_persistent_broadcast_w_steps(
                s,
                q.0,
                q.1,
                q.2,
                matrices.0,
                matrices.1,
                matrices.2,
                scales,
                scales,
                scales,
                of_y_to_x,
                of_y_to_b,
            );
            &&& went_on(run, s, s1, 8)
            &&& r.0.handle.id == s.buffers.len() + 5
            &&& r.1.handle.id == s.buffers.len() + 6
            &&& r.2.handle.id == s.buffers.len() + 7
            &&& blocks_lie_in(s1, r.0, n)
            &&& blocks_lie_in(s1, r.1, n)
            &&& blocks_lie_in(s1, r.2, n)
            &&& (run.held(s1, r.0.handle), run.held(s1, r.1.handle), run.held(s1, r.2.handle))
                == run.device.dequantized(
                n,
                (run.held(s, q.0.handle), run.held(s, q.1.handle), run.held(s, q.2.handle)),
                (
                    run.held(s, matrices.0.handle),
                    run.held(s, matrices.1.handle),
                    run.held(s, matrices.2.handle),
                ),
                scales,
                of_y_to_x,
                of_y_to_b,
            )
        }),
{
    reveal(dequant_dct8_persistent_broadcast_w_steps);
    let s1 = s.create(bits_of(scales));
    let s2 = s1.create(bits_of(scales));
    let s3 = s2.create(bits_of(scales));
    let s4 = s3.create(bits_of(of_y_to_x));
    let s5 = s4.create(bits_of(of_y_to_b));
    lemma_created(run, s, bits_of(scales));
    lemma_created(run, s1, bits_of(scales));
    lemma_created(run, s2, bits_of(scales));
    lemma_created(run, s3, bits_of(of_y_to_x));
    lemma_created(run, s4, bits_of(of_y_to_b));
    let bytes = q.0.num_blocks * 64 * 4;
    let h0 = s5.next();
    let h1 = s5.empty(bytes).next();
    let h2 = s5.empty(bytes).empty(bytes).next();
    let l = dequant_dct8_broadcast_w_launch(
        q.0.handle,
        q.1.handle,
        q.2.handle,
        matrices.0.handle,
        matrices.1.handle,
        matrices.2.handle,
        s.next(),
        s1.next(),
        s2.next(),
        s3.next(),
        s4.next(),
        h0,
        h1,
        h2,
        q.0.num_blocks,
    );
    lemma_three(run, s5, bytes, l, 11);
    let v = (run.device.fresh)(bytes as u64);
    let m = run.memory(s5).push(v).push(v).push(v);
    let sc = stored_numbers(scales);
    assert(held(m, s.next()) == sc && held(m, s1.next()) == sc && held(m, s2.next()) == sc);
    assert(held(m, s3.next()) == stored_numbers(of_y_to_x));
    assert(held(m, s4.next()) == stored_numbers(of_y_to_b));
    assert(operands(m, l.arrays) =~= seq![
        word(run.held(s, q.0.handle), n * 64),
        word(run.held(s, q.1.handle), n * 64),
        word(run.held(s, q.2.handle), n * 64),
        word(run.held(s, matrices.0.handle), 64),
        word(run.held(s, matrices.1.handle), 64),
        word(run.held(s, matrices.2.handle), 64),
        word(sc, n as int),
        word(sc, n as int),
        word(sc, n as int),
        word(stored_numbers(of_y_to_x), n as int),
        word(stored_numbers(of_y_to_b), n as int),
        run.device.blank(n * 64),
        run.device.blank(n * 64),
        run.device.blank(n * 64),
    ]);
}

/// First coefficients put back.
pub proof fn lemma_exact_means(run: Run, s: Recording, exact: GpuBlocks, c: GpuBlocks, n: u32)
    requires
        run.ready(s, 0),
        blocks_lie_in(s, exact, n),
        blocks_lie_in(s, c, n),
    ensures
        ({
            let s1 = restore_dc_persistent_steps(s, exact, c);
            &&& run.memory(s1) == run.memory(s).update(
                c.handle.id as int,
                run.device.with_exact_means(
                    n,
                    run.held(s, exact.handle),
                    run.held(s, c.handle),
                ),
            )
            &&& run.replies(s1) == run.replies(s)
            &&& s1.buffers == s.buffers
        }),
{
    reveal(restore_dc_persistent_steps);
    let l = restore_dc_launch(exact.handle, c.handle, exact.coeffs_per_block, exact.num_blocks);
    let m = run.memory(s);
    let out = left(run.device, m, l);
    lemma_launched(run, s, l);
    lemma_stored(m, l, out, 2, 1);
    let id = c.handle.id as int;
    assert(operands(m, l.arrays) =~= seq![
        word(run.held(s, exact.handle), n * 64),
        word(run.held(s, c.handle), n * 64),
    ]);
    assert forall|i: int| 0 <= i < m.len() implies #[trigger] stored(m, l, out, 2)[i] == m.update(
        id,
        out[1],
    )[i] by {
        if i != id {
            lemma_not_stored(m, l, out, 2, i);
        }
    }
    assert(stored(m, l, out, 2) =~= m.update(id, out[1]));
}

/// A pass of the edge-preserving filter over three planes with a border.
pub proof fn lemma_first_pass(
    run: Run,
    s: Recording,
    p: (GpuPlane, GpuPlane, GpuPlane),
    plain: Three,
    sigma: Handle,
    strengths: Seq<Float32>,
    pad: u32,
    scale: Float32,
    at_borders: Float32,
    size: Size,
)
    requires
        run.ready(s, 3),
        size.plain(),
        p.0.handle.id < s.buffers.len(),
        p.1.handle.id < s.buffers.len(),
        p.2.handle.id < s.buffers.len(),
        sigma.id < s.buffers.len(),
        run.held(s, p.0.handle) == run.device.framed(size, pad, plain.0),
        run.held(s, p.1.handle) == run.device.framed(size, pad, plain.1),
        run.held(s, p.2.handle) == run.device.framed(size, pad, plain.2),
        run.held(s, sigma) == stored_numbers(strengths),
    ensures
        ({
            let (s1, r) = epf_step1_persistent_steps(
                s,
                p.0,
                p.1,
                p.2,
                sigma,
                size.width,
                size.height,
                size.width / 8,
                size.height / 8,
                pad,
                scale,
                at_borders,
            );
            &&& went_on(run, s, s1, 3)
            &&& lies_in(s1, r.0, size) && lies_in(s1, r.1, size) && lies_in(s1, r.2, size)
            &&& (run.held(s1, r.0.handle), run.held(s1, r.1.handle), run.held(s1, r.2.handle))
                == run.device.edge_filtered(
                Kernel::EpfStep1,
                size,
                pad,
                plain,
                strengths,
                scale,
                at_borders,
            )
        }),
{
    reveal(epf_step1_persistent_steps);
    let bytes = size.width * size.height * 4;
    let h0 = s.next();
    let h1 = s.empty(bytes).next();
    let h2 = s.empty(bytes).empty(bytes).next();
    let l = epf_step1_launch(
        p.0.handle,
        p.1.handle,
        p.2.handle,
        h0,
        h1,
        h2,
        sigma,
        size.width,
        size.height,
        size.width / 8,
        size.height / 8,
        pad,
        scale,
        at_borders,
    );
    lemma_three(run, s, bytes, l, 3);
    let v = (run.device.fresh)(bytes as u64);
    let m = run.memory(s).push(v).push(v).push(v);
    let framed = size.framed(pad as int);
    assert(operands(m, l.arrays) =~= seq![
        word(run.device.framed(size, pad, plain.0), framed),
        word(run.device.framed(size, pad, plain.1), framed),
        word(run.device.framed(size, pad, plain.2), framed),
        run.device.blank(size.pixels()),
        run.device.blank(size.pixels()),
        run.device.blank(size.pixels()),
        word(stored_numbers(strengths), size.blocks()),
    ]);
}

/// A pass of the edge-preserving filter over three planes with a border.
pub proof fn lemma_second_pass(
    run: Run,
    s: Recording,
    p: (GpuPlane, GpuPlane, GpuPlane),
    plain: Three,
    sigma: Handle,
    strengths: Seq<Float32>,
    pad: u32,
    scale: Float32,
    at_borders: Float32,
    size: Size,
)
    requires
        run.ready(s, 3),
        size.plain(),
        p.0.handle.id < s.buffers.len(),
        p.1.handle.id < s.buffers.len(),
        p.2.handle.id < s.buffers.len(),
        sigma.id < s.buffers.len(),
        run.held(s, p.0.handle) == run.device.framed(size, pad, plain.0),
        run.held(s, p.1.handle) == run.device.framed(size, pad, plain.1),
        run.held(s, p.2.handle) == run.device.framed(size, pad, plain.2),
        run.held(s, sigma) == stored_numbers(strengths),
    ensures
        ({
            let (s1, r) = epf_step2_persistent_steps(
                s,
                p.0,
                p.1,
                p.2,
                sigma,
                size.width,
                size.height,
                size.width / 8,
                size.height / 8,
                pad,
                scale,
                at_borders,
            );
            &&& went_on(run, s, s1, 3)
            &&& lies_in(s1, r.0, size) && lies_in(s1, r.1, size) && lies_in(s1, r.2, size)
            &&& (run.held(s1, r.0.handle), run.held(s1, r.1.handle), run.held(s1, r.2.handle))
                == run.device.edge_filtered(
                Kernel::EpfStep2,
                size,
                pad,
                plain,
                strengths,
                scale,
                at_borders,
            )
        }),
{
    reveal(epf_step2_persistent_steps);
    let bytes = size.width * size.height * 4;
    let h0 = s.next();
    let h1 = s.empty(bytes).next();
    let h2 = s.empty(bytes).empty(bytes).next();
    let l = epf_step2_launch(
        p.0.handle,
        p.1.handle,
        p.2.handle,
        h0,
        h1,
        h2,
        sigma,
        size.width,
        size.height,
        size.width / 8,
        size.height / 8,
        pad,
        scale,
        at_borders,
    );
    lemma_three(run, s, bytes, l, 3);
    let v = (run.device.fresh)(bytes as u64);
    let m = run.memory(s).push(v).push(v).push(v);
    let framed = size.framed(pad as int);
    assert(operands(m, l.arrays) =~= seq![
        word(run.device.framed(size, pad, plain.0), framed),
        word(run.device.framed(size, pad, plain.1), framed),
        word(run.device.framed(size, pad, plain.2), framed),
        run.device.blank(size.pixels()),
        run.device.blank(size.pixels()),
        run.device.blank(size.pixels()),
        word(stored_numbers(strengths), size.blocks()),
    ]);
}

} // verus!
