//! What a cost grid measures, on any device.

use crate::cost_grid::{
    channel, cost_grid_single_channel_steps, cost_grid_xyb_steps, dequantize_launch, forward_launch,
    inverse_launch, measured, quantize_launch, sizes_fit, trial_buffers, twelve_fills,
    ChannelInputs, Transform, TrialBuffers,
};
use crate::dataflow::{
    left, lemma_launched, lemma_made, lemma_not_stored, lemma_stored, word, Bytes, Run, Three,
};
use crate::device::{
    cube_each, words, CommandSpec, Grid, Handle, Kernel, LaunchSpec, Recording, Scalar,
};
use crate::execution::{bytes_of_words, held, operands, stored, writes, DeviceModel};
use crate::launch::block_l2::block_l2_launch;
use vstd::prelude::*;

verus! {

/// The kernel of a transform, and the one that undoes it.
pub open spec fn kernel_pair(t: Transform) -> (Kernel, Kernel) {
    match t {
        Transform::Dct8x8 => (Kernel::Dct8x8, Kernel::Idct8x8),
        Transform::Dct4x4 => (Kernel::Dct4x4Full, Kernel::Idct4x4Full),
        Transform::Dct4x8 => (Kernel::Dct4x8Full, Kernel::Idct4x8Full),
        Transform::Dct8x4 => (Kernel::Dct8x4Full, Kernel::Idct8x4Full),
        Transform::Identity => (Kernel::IdentityForward, Kernel::IdentityInverse),
        Transform::Dct2x2 => (Kernel::Dct2x2Forward, Kernel::Dct2x2Inverse),
        Transform::Dct16x16 => (Kernel::Dct16x16, Kernel::Idct16x16),
        Transform::Dct16x8 => (Kernel::Dct16x8, Kernel::Idct16x8),
        Transform::Dct8x16 => (Kernel::Dct8x16, Kernel::Idct8x16),
        Transform::Dct32x32 => (Kernel::Dct32x32, Kernel::Idct32x32),
        Transform::Dct32x16 => (Kernel::Dct32x16, Kernel::Idct32x16),
        Transform::Dct16x32 => (Kernel::Dct16x32, Kernel::Idct16x32),
        Transform::Dct64x64 => (Kernel::Dct64x64, Kernel::Idct64x64),
        Transform::Dct64x32 => (Kernel::Dct64x32, Kernel::Idct64x32),
        Transform::Dct32x64 => (Kernel::Dct32x64, Kernel::Idct32x64),
    }
}

/// How many pixels a block of a transform has on either side, in the order of
/// its name. The transforms within 8x8 blocks count as 8x8.
pub open spec fn sides(t: Transform) -> (int, int) {
    match t {
        Transform::Dct16x16 => (16, 16),
        Transform::Dct16x8 => (16, 8),
        Transform::Dct8x16 => (8, 16),
        Transform::Dct32x32 => (32, 32),
        Transform::Dct32x16 => (32, 16),
        Transform::Dct16x32 => (16, 32),
        Transform::Dct64x64 => (64, 64),
        Transform::Dct64x32 => (64, 32),
        Transform::Dct32x64 => (32, 64),
        Transform::Dct8x8
        | Transform::Dct4x4
        | Transform::Dct4x8
        | Transform::Dct8x4
        | Transform::Identity
        | Transform::Dct2x2 => (8, 8),
    }
}

/// Whether there is a thread for each of `n` items.
pub open spec fn a_thread_each(g: Grid, n: int) -> bool {
    match g {
        Grid::Cubes { count, threads } => count * threads >= n,
        Grid::Items { count } => count >= n,
    }
}

/// Zeros.
pub open spec fn zero_words(words: int) -> Bytes {
    bytes_of_words(Seq::new(words as u64 as nat, |i: int| 0u32))
}

impl DeviceModel {
    /// What a kernel makes of `words` numbers.
    pub open spec fn made_of(self, k: Kernel, g: Grid, words: int, p: Bytes) -> Bytes {
        (self.kernels)(k, g, seq![word(p, words), word(zero_words(words), words)], seq![])[1]
    }

    /// Blocks of coefficients of a transform quantized.
    pub open spec fn blocks_quantized(
        self,
        t: Transform,
        n: u32,
        c: Bytes,
        weights: Bytes,
        scales: Bytes,
        thresholds: Bytes,
    ) -> Bytes {
        let (a, b) = sides(t);
        let words = n * (a * b);
        let arrays = seq![
            word(c, words),
            word(weights, words),
            word(scales, n as int),
            word(thresholds, 4),
            word(zero_words(words), words),
        ];
        if (a, b) == (8int, 8int) {
            (self.kernels)(Kernel::QuantizeDct8, cube_each(n, 1), arrays, seq![])[4]
        } else {
            (self.kernels)(
                Kernel::QuantizeLarge,
                cube_each(n, 1),
                arrays,
                seq![
                    Scalar::U32(a as u32),
                    Scalar::U32(b as u32),
                    Scalar::U32((a / 8) as u32),
                    Scalar::U32((b / 8) as u32),
                ],
            )[4]
        }
    }

    /// Quantized blocks of a transform multiplied with their weights.
    pub open spec fn blocks_dequantized(
        self,
        t: Transform,
        n: u32,
        q: Bytes,
        weights: Bytes,
    ) -> Bytes {
        let (a, b) = sides(t);
        let words = n * (a * b);
        let arrays = seq![word(q, words), word(weights, words), word(zero_words(words), words)];
        if (a, b) == (8int, 8int) {
            (self.kernels)(Kernel::DequantWeightsDct8, cube_each(n, 1), arrays, seq![])[2]
        } else {
            (self.kernels)(
                Kernel::DequantWeights,
                cube_each(n, 1),
                arrays,
                seq![Scalar::U32((a * b) as u32)],
            )[2]
        }
    }

    /// What is left of blocks that were transformed, quantized and brought back.
    pub open spec fn tried(
        self,
        t: Transform,
        n: u32,
        pixels: Bytes,
        weights: Bytes,
        scales: Bytes,
        thresholds: Bytes,
    ) -> Bytes {
        let words = n * (sides(t).0 * sides(t).1);
        let (forward, inverse) = kernel_pair(t);
        let h = Handle { id: 0 };
        let c = self.made_of(forward, forward_launch(t, h, h, n).grid, words, pixels);
        let q = self.blocks_quantized(t, n, c, weights, scales, thresholds);
        let r = self.blocks_dequantized(t, n, q, weights);
        self.made_of(inverse, inverse_launch(t, h, h, n).grid, words, r)
    }

    /// The masked squared error of each 8x8 block of three channels, in an image
    /// of `xs` by `ys` blocks of a transform.
    pub open spec fn errors(
        self,
        t: Transform,
        xs: u32,
        ys: u32,
        original: Three,
        back: Three,
        mask: Bytes,
    ) -> Bytes {
        let (a, b) = sides(t);
        let words = (xs * ys) * (a * b);
        let across = xs * (a / 8);
        let down = ys * (b / 8);
        (self.kernels)(
            Kernel::BlockL2,
            cube_each((across * down) as u32, 1),
            seq![
                word(original.0, words),
                word(original.1, words),
                word(original.2, words),
                word(back.0, words),
                word(back.1, words),
                word(back.2, words),
                word(mask, words),
                word(zero_words(across * down), across * down),
            ],
            seq![Scalar::U32(across as u32), Scalar::U32((xs * a) as u32)],
        )[7]
    }
}

/// A transform's launches run its kernel and the one that undoes it, on whole
/// blocks, with a thread for each.
pub proof fn law_transforms_run_their_kernels(
    t: Transform,
    input: Handle,
    output: Handle,
    n: u32,
)
    ensures
        ({
            let f = forward_launch(t, input, output, n);
            let i = inverse_launch(t, input, output, n);
            let given = words(input, n * (sides(t).0 * sides(t).1));
            let filled = words(output, n * (sides(t).0 * sides(t).1));
            &&& f.kernel == kernel_pair(t).0
            &&& i.kernel == kernel_pair(t).1
            &&& f.arrays == seq![given, filled]
            &&& i.arrays == seq![given, filled]
            &&& f.scalars == Seq::<Scalar>::empty()
            &&& i.scalars == Seq::<Scalar>::empty()
            &&& a_thread_each(f.grid, n as int)
            &&& a_thread_each(i.grid, n as int)
        }),
{
    lemma_sides(t);
    let f = forward_launch(t, input, output, n);
    let i = inverse_launch(t, input, output, n);
    let given = words(input, n * (sides(t).0 * sides(t).1));
    let filled = words(output, n * (sides(t).0 * sides(t).1));
    assert(f.arrays =~= seq![given, filled]);
    assert(i.arrays =~= seq![given, filled]);
    assert(f.scalars =~= Seq::<Scalar>::empty());
    assert(i.scalars =~= Seq::<Scalar>::empty());
    lemma_one_thread(f.grid);
    lemma_one_thread(i.grid);
}

proof fn lemma_one_thread(g: Grid)
    ensures
        g matches Grid::Cubes { count, threads } ==> threads == 1 ==> count * threads == count,
{
    if let Grid::Cubes { count, threads } = g {
        assert(threads == 1 ==> count * threads == count) by (nonlinear_arith);
    }
}

/// The sizes of a block by its sides, and by the 8x8 blocks in it.
pub proof fn lemma_sides(t: Transform)
    ensures
        sides(t).0 == 8 * t.shape().0,
        sides(t).1 == 8 * t.shape().1,
        sides(t).0 * sides(t).1 == t.coeffs(),
        64 <= t.coeffs() <= 4096,
        1 <= t.shape().0 <= 8,
        1 <= t.shape().1 <= 8,
{
    assert(8 * 8 == 64 && 16 * 16 == 256 && 16 * 8 == 128 && 8 * 16 == 128 && 32 * 32 == 1024 && 32
        * 16 == 512 && 16 * 32 == 512 && 64 * 64 == 4096 && 64 * 32 == 2048 && 32 * 64 == 2048)
        by (nonlinear_arith);
}

/// A kernel launched that writes one buffer.
proof fn lemma_one_written(run: Run, s: Recording, l: LaunchSpec, k: int)
    requires
        0 <= k < l.arrays.len(),
        l.arrays[k].handle.id < run.memory(s).len(),
        forall|j: int| 0 <= j < l.arrays.len() ==> (#[trigger] writes(l.kernel, j) <==> j == k),
    ensures
        run.memory(s.launch(l)) == run.memory(s).update(
            l.arrays[k].handle.id as int,
            left(run.device, run.memory(s), l)[k],
        ),
        run.replies(s.launch(l)) == run.replies(s),
{
    let m = run.memory(s);
    let out = left(run.device, m, l);
    let n = l.arrays.len() as int;
    let id = l.arrays[k].handle.id as int;
    lemma_launched(run, s, l);
    assert(writes(l.kernel, k));
    lemma_stored(m, l, out, n, k);
    assert forall|i: int| 0 <= i < m.len() implies #[trigger] stored(m, l, out, n)[i] == m.update(
        id,
        out[k],
    )[i] by {
        if i != id {
            assert forall|j: int| 0 <= j < n && writes(l.kernel, j) implies (
                #[trigger] l.arrays[j]).handle.id != i by {
                assert(writes(l.kernel, j) <==> j == k);
            }
            lemma_not_stored(m, l, out, n, i);
        }
    }
    assert(stored(m, l, out, n) =~= m.update(id, out[k]));
}

/// Whether only one buffer of a device has changed, to `v`.
spec fn changed(m: Seq<Bytes>, m1: Seq<Bytes>, h: Handle, v: Bytes) -> bool {
    h.id < m.len() && m1 == m.update(h.id as int, v)
}

proof fn lemma_forward(run: Run, s: Recording, t: Transform, input: Handle, output: Handle, n: u32)
    requires
        output.id < run.memory(s).len(),
        run.held(s, output) == zero_words(n * t.coeffs()),
    ensures
        changed(
            run.memory(s),
            run.memory(s.launch(forward_launch(t, input, output, n))),
            output,
            run.device.made_of(
                kernel_pair(t).0,
                forward_launch(t, Handle { id: 0 }, Handle { id: 0 }, n).grid,
                n * (sides(t).0 * sides(t).1),
                run.held(s, input),
            ),
        ),
        run.replies(s.launch(forward_launch(t, input, output, n))) == run.replies(s),
{
    let l = forward_launch(t, input, output, n);
    lemma_sides(t);
    law_transforms_run_their_kernels(t, input, output, n);
    law_transforms_run_their_kernels(t, Handle { id: 0 }, Handle { id: 0 }, n);
    lemma_one_written(run, s, l, 1);
    let words = n * (sides(t).0 * sides(t).1);
    assert(operands(run.memory(s), l.arrays) =~= seq![
        word(run.held(s, input), words),
        word(zero_words(words), words),
    ]);
}

proof fn lemma_inverse(run: Run, s: Recording, t: Transform, input: Handle, output: Handle, n: u32)
    requires
        output.id < run.memory(s).len(),
        run.held(s, output) == zero_words(n * t.coeffs()),
    ensures
        changed(
            run.memory(s),
            run.memory(s.launch(inverse_launch(t, input, output, n))),
            output,
            run.device.made_of(
                kernel_pair(t).1,
                inverse_launch(t, Handle { id: 0 }, Handle { id: 0 }, n).grid,
                n * (sides(t).0 * sides(t).1),
                run.held(s, input),
            ),
        ),
        run.replies(s.launch(inverse_launch(t, input, output, n))) == run.replies(s),
{
    let l = inverse_launch(t, input, output, n);
    lemma_sides(t);
    law_transforms_run_their_kernels(t, input, output, n);
    law_transforms_run_their_kernels(t, Handle { id: 0 }, Handle { id: 0 }, n);
    lemma_one_written(run, s, l, 1);
    let words = n * (sides(t).0 * sides(t).1);
    assert(operands(run.memory(s), l.arrays) =~= seq![
        word(run.held(s, input), words),
        word(zero_words(words), words),
    ]);
}

proof fn lemma_quantize(
    run: Run,
    s: Recording,
    t: Transform,
    coeffs: Handle,
    c: ChannelInputs,
    output: Handle,
    n: u32,
)
    requires
        output.id < run.memory(s).len(),
        run.held(s, output) == zero_words(n * t.coeffs()),
    ensures
        ({
            let l = quantize_launch(
                t,
                coeffs,
                c.weights,
                c.qac_qm,
                c.thresholds,
                output,
                n,
            );
            &&& changed(
                run.memory(s),
                run.memory(s.launch(l)),
                output,
                run.device.blocks_quantized(
                    t,
                    n,
                    run.held(s, coeffs),
                    run.held(s, c.weights),
                    run.held(s, c.qac_qm),
                    run.held(s, c.thresholds),
                ),
            )
            &&& run.replies(s.launch(l)) == run.replies(s)
        }),
{
    let l = quantize_launch(t, coeffs, c.weights, c.qac_qm, c.thresholds, output, n);
    lemma_sides(t);
    lemma_one_written(run, s, l, 4);
    let words = n * (sides(t).0 * sides(t).1);
    assert(operands(run.memory(s), l.arrays) =~= seq![
        word(run.held(s, coeffs), words),
        word(run.held(s, c.weights), words),
        word(run.held(s, c.qac_qm), n as int),
        word(run.held(s, c.thresholds), 4),
        word(zero_words(words), words),
    ]);
}

proof fn lemma_dequantize(
    run: Run,
    s: Recording,
    t: Transform,
    quant: Handle,
    weights: Handle,
    output: Handle,
    n: u32,
)
    requires
        output.id < run.memory(s).len(),
        run.held(s, output) == zero_words(n * t.coeffs()),
    ensures
        ({
            let l = dequantize_launch(t, quant, weights, output, n);
            &&& changed(
                run.memory(s),
                run.memory(s.launch(l)),
                output,
                run.device.blocks_dequantized(t, n, run.held(s, quant), run.held(s, weights)),
            )
            &&& run.replies(s.launch(l)) == run.replies(s)
        }),
{
    let l = dequantize_launch(t, quant, weights, output, n);
    lemma_sides(t);
    lemma_one_written(run, s, l, 2);
    let words = n * (sides(t).0 * sides(t).1);
    assert(operands(run.memory(s), l.arrays) =~= seq![
        word(run.held(s, quant), words),
        word(run.held(s, weights), words),
        word(zero_words(words), words),
    ]);
}

/// What the trial of a channel leaves of its pixels.
pub open spec fn tried_of(
    run: Run,
    s: Recording,
    t: Transform,
    c: ChannelInputs,
    n: u32,
) -> Bytes {
    run.device.tried(
        t,
        n,
        run.held(s, c.original),
        run.held(s, c.weights),
        run.held(s, c.qac_qm),
        run.held(s, c.thresholds),
    )
}

/// Buffers of zeros made.
proof fn lemma_filled(run: Run, s: Recording, words: int, word: u32)
    ensures
        run.memory(s.fill(words, word)) == run.memory(s).push(
            bytes_of_words(Seq::new(words as u64 as nat, |i: int| word)),
        ),
        run.replies(s.fill(words, word)) == run.replies(s),
{
    lemma_made(run, s, s.fill(words, word), CommandSpec::Fill { len: words as u64, word });
}

proof fn lemma_measured(
    run: Run,
    s: Recording,
    t: Transform,
    x: (Handle, Handle),
    y: (Handle, Handle),
    b: (Handle, Handle),
    mask: Handle,
    xs: u32,
    ys: u32,
)
    requires
        run.ready(s, 1),
        sizes_fit(t, xs, ys),
        x.0.id < s.buffers.len() && x.1.id < s.buffers.len(),
        y.0.id < s.buffers.len() && y.1.id < s.buffers.len(),
        b.0.id < s.buffers.len() && b.1.id < s.buffers.len(),
        mask.id < s.buffers.len(),
    ensures
        ({
            let (s1, grid) = measured(s, t, x, y, b, mask, xs, ys);
            &&& run.held(s1, grid.costs) == run.device.errors(
                t,
                xs,
                ys,
                (run.held(s, x.0), run.held(s, y.0), run.held(s, b.0)),
                (run.held(s, x.1), run.held(s, y.1), run.held(s, b.1)),
                run.held(s, mask),
            )
            &&& run.replies(s1) == run.replies(s)
        }),
{
    lemma_sides(t);
    let (w, h) = t.shape();
    let (a, c) = sides(t);
    let costs = s.next();
    let n = xs * ys * (w * h);
    let s1 = s.fill(n, 0);
    lemma_filled(run, s, n, 0);
    let l = block_l2_launch(
        x.0,
        y.0,
        b.0,
        x.1,
        y.1,
        b.1,
        mask,
        costs,
        (xs * w) as u32,
        (ys * h) as u32,
        (8 * w * xs) as u32,
    );
    lemma_one_written(run, s1, l, 7);
    assert((xs * w) * (ys * h) == xs * ys * (w * h) && 8 * w * xs == xs * (8 * w) && (xs * (8 * w))
        * (ys * h) * 8 == (xs * ys) * ((8 * w) * (8 * h)) && xs * w >= 0 && ys * h >= 0 && ys * h
        == h * ys && xs * w <= 8 * w * xs) by (nonlinear_arith)
        requires
            xs >= 0,
            ys >= 0,
            w >= 1,
            h >= 1,
    ;
    assert(a / 8 == w && c / 8 == h);
    let words = (xs * ys) * (a * c);
    assert(operands(run.memory(s1), l.arrays) =~= seq![
        word(run.held(s, x.0), words),
        word(run.held(s, y.0), words),
        word(run.held(s, b.0), words),
        word(run.held(s, x.1), words),
        word(run.held(s, y.1), words),
        word(run.held(s, b.1), words),
        word(run.held(s, mask), words),
        word(zero_words(n), n),
    ]);
    assert(l.scalars =~= seq![Scalar::U32((xs * w) as u32), Scalar::U32((xs * a) as u32)]);
}

/// The cost grid of one channel measures what its own transform, quantization
/// and the way back leave of its pixels. All three channels that are measured
/// are that one, and the mask is one everywhere.
pub proof fn law_single_channel_grid_measures_the_trial(
    run: Run,
    s: Recording,
    t: Transform,
    c: ChannelInputs,
    xs: u32,
    ys: u32,
)
    requires
        run.ready(s, 6),
        sizes_fit(t, xs, ys),
        c.suits(s, t, (xs * ys) as u32),
    ensures
        ({
            let n = (xs * ys) as u32;
            let (s1, grid) = cost_grid_single_channel_steps(s, t, c, xs, ys);
            let pixels = run.held(s, c.original);
            let back = tried_of(run, s, t, c, n);
            // One, as a bit pattern, for each pixel.
            let ones = bytes_of_words(
                Seq::new((n * (sides(t).0 * sides(t).1)) as nat, |i: int| 0x3f80_0000u32),
            );
            &&& run.held(s1, grid.costs) == run.device.errors(
                t,
                xs,
                ys,
                (pixels, pixels, pixels),
                (back, back, back),
                ones,
            )
            &&& grid.xsize_blocks == xs
            &&& grid.ysize_blocks == ys
            &&& run.replies(s1) == run.replies(s)
        }),
{
    reveal(cost_grid_single_channel_steps);
    lemma_sides(t);
    let n = (xs * ys) as u32;
    let words = n * t.coeffs();
    assert(0 <= n * t.coeffs() <= 0xffff_ffff * 4096) by (nonlinear_arith)
        requires
            0 <= n <= 0xffff_ffff,
            0 <= t.coeffs() <= 4096,
    ;
    assert(xs * ys >= 0) by (nonlinear_arith)
        requires
            xs >= 0,
            ys >= 0,
    ;
    let f1 = s.fill(words, 0);
    let f2 = f1.fill(words, 0);
    let f3 = f2.fill(words, 0);
    lemma_filled(run, s, words, 0);
    lemma_filled(run, f1, words, 0);
    lemma_filled(run, f2, words, 0);
    lemma_filled(run, f3, words, 0);
    let (s1, b) = trial_buffers(s, words);
    let l1 = forward_launch(t, c.original, b.dct, n);
    let l2 = quantize_launch(t, b.dct, c.weights, c.qac_qm, c.thresholds, b.quant, n);
    let l3 = dequantize_launch(t, b.quant, c.weights, b.dequant, n);
    let l4 = inverse_launch(t, b.dequant, b.recon, n);
    let t1 = s1.launch(l1);
    let t2 = t1.launch(l2);
    let t3 = t2.launch(l3);
    let t4 = t3.launch(l4);
    lemma_forward(run, s1, t, c.original, b.dct, n);
    lemma_quantize(run, t1, t, b.dct, c, b.quant, n);
    lemma_dequantize(run, t2, t, b.quant, c.weights, b.dequant, n);
    lemma_inverse(run, t3, t, b.dequant, b.recon, n);
    let t5 = t4.fill(words, crate::quality::ONE);
    lemma_filled(run, t4, words, crate::quality::ONE);
    let pair = (c.original, b.recon);
    lemma_measured(run, t5, t, pair, pair, pair, t4.next(), xs, ys);
    let ones = Seq::new((n * (sides(t).0 * sides(t).1)) as nat, |i: int| 0x3f80_0000u32);
    assert(Seq::new(words as u64 as nat, |i: int| crate::quality::ONE) =~= ones);
}

/// Whether a recording has the buffers of an earlier one as they were.
spec fn unchanged(run: Run, s: Recording, s1: Recording) -> bool {
    &&& s.buffers.len() <= run.memory(s1).len()
    &&& forall|i: int|
        0 <= i < s.buffers.len() ==> #[trigger] run.memory(s1)[i] == run.memory(s)[i]
}

/// The cost grid of three channels measures what each channel's own transform,
/// quantization and the way back leave of its pixels, against those pixels and
/// by the mask.
#[verifier::rlimit(60)]
pub proof fn law_grid_measures_the_trials(
    run: Run,
    s: Recording,
    t: Transform,
    cx: ChannelInputs,
    cy: ChannelInputs,
    cb: ChannelInputs,
    mask: Handle,
    xs: u32,
    ys: u32,
)
    requires
        run.ready(s, 13),
        sizes_fit(t, xs, ys),
        cx.suits(s, t, (xs * ys) as u32),
        cy.suits(s, t, (xs * ys) as u32),
        cb.suits(s, t, (xs * ys) as u32),
        mask.id < s.buffers.len(),
    ensures
        ({
            let n = (xs * ys) as u32;
            let (s1, grid) = cost_grid_xyb_steps(s, t, cx, cy, cb, mask, xs, ys);
            &&& run.held(s1, grid.costs) == run.device.errors(
                t,
                xs,
                ys,
                (
                    run.held(s, cx.original),
                    run.held(s, cy.original),
                    run.held(s, cb.original),
                ),
                (
                    tried_of(run, s, t, cx, n),
                    tried_of(run, s, t, cy, n),
                    tried_of(run, s, t, cb, n),
                ),
                run.held(s, mask),
            )
            &&& grid.xsize_blocks == xs
            &&& grid.ysize_blocks == ys
            &&& run.replies(s1) == run.replies(s)
        }),
{
    reveal(cost_grid_xyb_steps);
    lemma_sides(t);
    let n = (xs * ys) as u32;
    let words = n * t.coeffs();
    let a = s.buffers.len() as int;
    let at = |k: int| Handle { id: (a + k) as usize };
    let s1 = twelve_fills(s, words);
    lemma_twelve(run, s, words);
    let x = TrialBuffers { dct: at(0), quant: at(3), dequant: at(6), recon: at(9) };
    let y = TrialBuffers { dct: at(1), quant: at(4), dequant: at(7), recon: at(10) };
    let b = TrialBuffers { dct: at(2), quant: at(5), dequant: at(8), recon: at(11) };
    let t1 = s1.launch(forward_launch(t, cx.original, x.dct, n));
    let t2 = t1.launch(forward_launch(t, cy.original, y.dct, n));
    let t3 = t2.launch(forward_launch(t, cb.original, b.dct, n));
    lemma_forward(run, s1, t, cx.original, x.dct, n);
    lemma_forward(run, t1, t, cy.original, y.dct, n);
    lemma_forward(run, t2, t, cb.original, b.dct, n);
    assert(unchanged(run, s, t3));
    let t4 = t3.launch(
        quantize_launch(t, x.dct, cx.weights, cx.qac_qm, cx.thresholds, x.quant, n),
    );
    let t5 = t4.launch(
        quantize_launch(t, y.dct, cy.weights, cy.qac_qm, cy.thresholds, y.quant, n),
    );
    let t6 = t5.launch(
        quantize_launch(t, b.dct, cb.weights, cb.qac_qm, cb.thresholds, b.quant, n),
    );
    lemma_quantize(run, t3, t, x.dct, cx, x.quant, n);
    lemma_quantize(run, t4, t, y.dct, cy, y.quant, n);
    lemma_quantize(run, t5, t, b.dct, cb, b.quant, n);
    assert(unchanged(run, s, t6));
    let t7 = t6.launch(dequantize_launch(t, x.quant, cx.weights, x.dequant, n));
    let t8 = t7.launch(dequantize_launch(t, y.quant, cy.weights, y.dequant, n));
    let t9 = t8.launch(dequantize_launch(t, b.quant, cb.weights, b.dequant, n));
    lemma_dequantize(run, t6, t, x.quant, cx.weights, x.dequant, n);
    lemma_dequantize(run, t7, t, y.quant, cy.weights, y.dequant, n);
    lemma_dequantize(run, t8, t, b.quant, cb.weights, b.dequant, n);
    assert(unchanged(run, s, t9));
    let u1 = t9.launch(inverse_launch(t, x.dequant, x.recon, n));
    let u2 = u1.launch(inverse_launch(t, y.dequant, y.recon, n));
    let u3 = u2.launch(inverse_launch(t, b.dequant, b.recon, n));
    lemma_inverse(run, t9, t, x.dequant, x.recon, n);
    lemma_inverse(run, u1, t, y.dequant, y.recon, n);
    lemma_inverse(run, u2, t, b.dequant, b.recon, n);
    assert(unchanged(run, s, u3));
    assert(run.held(u3, x.recon) == tried_of(run, s, t, cx, n));
    assert(run.held(u3, y.recon) == tried_of(run, s, t, cy, n));
    assert(run.held(u3, b.recon) == tried_of(run, s, t, cb, n));
    lemma_measured(
        run,
        u3,
        t,
        (cx.original, x.recon),
        (cy.original, y.recon),
        (cb.original, b.recon),
        mask,
        xs,
        ys,
    );
}

proof fn lemma_twelve(run: Run, s: Recording, words: int)
    requires
        run.ready(s, 13),
    ensures
        ({
            let s1 = twelve_fills(s, words);
            &&& s1.buffers.len() == s.buffers.len() + 12
            &&& run.memory(s1).len() == s.buffers.len() + 12
            &&& unchanged(run, s, s1)
            &&& forall|k: int|
                0 <= k < 12 ==> #[trigger] run.memory(s1)[s.buffers.len() + k] == zero_words(words)
            &&& run.replies(s1) == run.replies(s)
        }),
{
    let f1 = s.fill(words, 0);
    let f2 = f1.fill(words, 0);
    let f3 = f2.fill(words, 0);
    let f4 = f3.fill(words, 0);
    let f5 = f4.fill(words, 0);
    let f6 = f5.fill(words, 0);
    let f7 = f6.fill(words, 0);
    let f8 = f7.fill(words, 0);
    let f9 = f8.fill(words, 0);
    let f10 = f9.fill(words, 0);
    let f11 = f10.fill(words, 0);
    lemma_filled(run, s, words, 0);
    lemma_filled(run, f1, words, 0);
    lemma_filled(run, f2, words, 0);
    lemma_filled(run, f3, words, 0);
    lemma_filled(run, f4, words, 0);
    lemma_filled(run, f5, words, 0);
    lemma_filled(run, f6, words, 0);
    lemma_filled(run, f7, words, 0);
    lemma_filled(run, f8, words, 0);
    lemma_filled(run, f9, words, 0);
    lemma_filled(run, f10, words, 0);
    lemma_filled(run, f11, words, 0);
}

/// Whether on a device the inverse kernel of a transform undoes the transform,
/// and quantization with some weights, scales and thresholds loses nothing.
pub open spec fn trial_loses_nothing(
    d: DeviceModel,
    t: Transform,
    n: u32,
    weights: Bytes,
    scales: Bytes,
    thresholds: Bytes,
) -> bool {
    let words = n * (sides(t).0 * sides(t).1);
    &&& forall|p: Bytes, g: Grid, h: Grid|
        #![trigger d.made_of(kernel_pair(t).0, g, words, p), a_thread_each(h, n as int)]
        a_thread_each(g, n as int) && a_thread_each(h, n as int) ==> d.made_of(
            kernel_pair(t).1,
            h,
            words,
            d.made_of(kernel_pair(t).0, g, words, p),
        ) == p
    &&& forall|c: Bytes|
        d.blocks_dequantized(
            t,
            n,
            #[trigger] d.blocks_quantized(t, n, c, weights, scales, thresholds),
            weights,
        ) == c
}

/// A trial that loses nothing gives back the pixels, so that they are measured
/// against themselves.
pub proof fn law_lossless_trials_give_back_the_pixels(
    d: DeviceModel,
    t: Transform,
    n: u32,
    pixels: Bytes,
    weights: Bytes,
    scales: Bytes,
    thresholds: Bytes,
)
    requires
        trial_loses_nothing(d, t, n, weights, scales, thresholds),
    ensures
        d.tried(t, n, pixels, weights, scales, thresholds) == pixels,
{
    let h = Handle { id: 0 };
    law_transforms_run_their_kernels(t, h, h, n);
    let words = n * (sides(t).0 * sides(t).1);
    let g = forward_launch(t, h, h, n).grid;
    let c = d.made_of(kernel_pair(t).0, g, words, pixels);
    assert(a_thread_each(inverse_launch(t, h, h, n).grid, n as int));
}

/// The inputs of a channel are what they are called.
pub proof fn law_inputs_of_a_channel(
    original: Handle,
    weights: Handle,
    qac_qm: Handle,
    thresholds: Handle,
)
    ensures
        channel(original, weights, qac_qm, thresholds).original == original,
        channel(original, weights, qac_qm, thresholds).weights == weights,
        channel(original, weights, qac_qm, thresholds).qac_qm == qac_qm,
        channel(original, weights, qac_qm, thresholds).thresholds == thresholds,
{
}

} // verus!
