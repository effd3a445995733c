//! The pipeline that encodes an image with 8x8 transforms alone and
//! reconstructs what a decoder would show.

use crate::device::{GpuEncoder, Handle, Recording};
use crate::float::{nearest_byte, product, quotient, sum, whole, Float32};
use crate::lossy_encoder::{FilterParameters, LossyEncoder};
use crate::persistent::{
    dct_8x8_wide_persistent_steps, dequant_dct8_persistent_broadcast_w_steps,
    epf_step1_persistent_steps, epf_step2_persistent_steps, gab_smooth_persistent_steps,
    gaborish_5x5_persistent_steps, gather_blocks_persistent_steps, idct_8x8_wide_persistent_steps,
    pad_plane_3ch_steps, quantize_dct8_persistent_broadcast_w_steps, restore_dc_persistent_steps,
    scatter_blocks_persistent_steps, upload_inv_sigma_steps, xyb_from_linear_rgb_persistent_steps,
    xyb_to_linear_rgb_planar_persistent_steps, GpuBlocks, GpuI32Blocks, GpuPlane,
};
use crate::quality::{float, qac_of_distance, FIFTY, HALF, K_AC_QUANT, ONE};
use vstd::prelude::*;

verus! {

/// The scale of the edge-preserving filter, 1.65, as a bit pattern.
pub const EPF_SIGMA_SCALE: u32 = 0x3fd3_3333;

/// Three planes.
pub type Planes = (GpuPlane, GpuPlane, GpuPlane);

/// Three sets of blocks.
pub type Blocks = (GpuBlocks, GpuBlocks, GpuBlocks);

/// From linear light to the coefficients of the 8x8 blocks.
#[verifier::opaque]
pub open spec fn analysis_steps(
    s0: Recording,
    le: LossyEncoder,
    r: GpuPlane,
    g: GpuPlane,
    b: GpuPlane,
    gaborish: bool,
) -> (Recording, Blocks) {
    let (s1, (xx, xy, xb)) = xyb_from_linear_rgb_persistent_steps(s0, r, g, b);
    let (s4, (px, py, pb)) = sharpened_steps(s1, le, (xx, xy, xb), gaborish);
    let (s5, bx) = gather_blocks_persistent_steps(s4, px, 8, 8);
    let (s6, by) = gather_blocks_persistent_steps(s5, py, 8, 8);
    let (s7, bb) = gather_blocks_persistent_steps(s6, pb, 8, 8);
    let (s8, cx) = dct_8x8_wide_persistent_steps(s7, bx);
    let (s9, cy) = dct_8x8_wide_persistent_steps(s8, by);
    let (s10, cb) = dct_8x8_wide_persistent_steps(s9, bb);
    (s10, (cx, cy, cb))
}

/// Three planes sharpened, where that is called for.
#[verifier::opaque]
pub open spec fn sharpened_steps(s0: Recording, le: LossyEncoder, p: Planes, gaborish: bool) -> (
    Recording,
    Planes,
) {
    if gaborish {
        let (s1, x) = gaborish_5x5_persistent_steps(s0, p.0, le.weights);
        let (s2, y) = gaborish_5x5_persistent_steps(s1, p.1, le.weights);
        let (s3, b) = gaborish_5x5_persistent_steps(s2, p.2, le.weights);
        (s3, (x, y, b))
    } else {
        (s0, p)
    }
}

/// Zero for each block.
pub open spec fn zeros(n: nat) -> Seq<Float32> {
    Seq::new(n, |i: int| float(0))
}

/// From coefficients through quantization and back to planes. First
/// coefficients pass through unquantized.
#[verifier::opaque]
pub open spec fn synthesis_steps(s0: Recording, le: LossyEncoder, c: Blocks, qac: Seq<Float32>) -> (
    Recording,
    Planes,
) {
    let (s1, qx) = quantize_dct8_persistent_broadcast_w_steps(
        s0,
        c.0,
        le.weights_x,
        qac,
        le.thresholds_x@,
    );
    let (s2, qy) = quantize_dct8_persistent_broadcast_w_steps(
        s1,
        c.1,
        le.weights_y,
        qac,
        le.thresholds_y@,
    );
    let (s3, qb) = quantize_dct8_persistent_broadcast_w_steps(
        s2,
        c.2,
        le.weights_b,
        qac,
        le.thresholds_b@,
    );
    let z = zeros(le.num_blocks as nat);
    let (s4, (dx, dy, db)) = dequant_dct8_persistent_broadcast_w_steps(
        s3,
        qx,
        qy,
        qb,
        le.weights_x,
        le.weights_y,
        le.weights_b,
        qac,
        qac,
        qac,
        z,
        z,
    );
    let s5 = restore_dc_persistent_steps(s4, c.0, dx);
    let s6 = restore_dc_persistent_steps(s5, c.1, dy);
    let s7 = restore_dc_persistent_steps(s6, c.2, db);
    let (s8, rx) = idct_8x8_wide_persistent_steps(s7, dx);
    let (s9, ry) = idct_8x8_wide_persistent_steps(s8, dy);
    let (s10, rb) = idct_8x8_wide_persistent_steps(s9, db);
    let w = le.padded_width;
    let h = le.padded_height;
    let (s11, px) = scatter_blocks_persistent_steps(s10, rx, w, h, 8, 8);
    let (s12, py) = scatter_blocks_persistent_steps(s11, ry, w, h, 8, 8);
    let (s13, pb) = scatter_blocks_persistent_steps(s12, rb, w, h, 8, 8);
    (s13, (px, py, pb))
}

/// Three planes smoothed one by one, where that is called for.
#[verifier::opaque]
pub open spec fn smoothed_steps(s0: Recording, p: Planes, f: FilterParameters, smooth: bool) -> (
    Recording,
    Planes,
) {
    if smooth {
        let (s1, x) = gab_smooth_persistent_steps(s0, p.0, f.gab_center, f.gab_1, f.gab_2);
        let (s2, y) = gab_smooth_persistent_steps(s1, p.1, f.gab_center, f.gab_1, f.gab_2);
        let (s3, b) = gab_smooth_persistent_steps(s2, p.2, f.gab_center, f.gab_1, f.gab_2);
        (s3, (x, y, b))
    } else {
        (s0, p)
    }
}

/// Both passes of the edge-preserving filter, and back to linear light.
#[verifier::opaque]
pub open spec fn restoration_steps(
    s0: Recording,
    le: LossyEncoder,
    p: Planes,
    f: FilterParameters,
    inv_sigma: Seq<Float32>,
) -> (Recording, Planes) {
    let w = le.padded_width;
    let h = le.padded_height;
    let (s1, sigma) = upload_inv_sigma_steps(s0, inv_sigma);
    let (s2, p1) = pad_plane_3ch_steps(s1, p.0, p.1, p.2, 2);
    let (s3, e1) = epf_step1_persistent_steps(
        s2,
        p1.0,
        p1.1,
        p1.2,
        sigma,
        w,
        h,
        w / 8,
        h / 8,
        2,
        float(EPF_SIGMA_SCALE),
        f.epf_border_sad_mul,
    );
    let (s4, p2) = pad_plane_3ch_steps(s3, e1.0, e1.1, e1.2, 1);
    let (s5, e2) = epf_step2_persistent_steps(
        s4,
        p2.0,
        p2.1,
        p2.2,
        sigma,
        w,
        h,
        w / 8,
        h / 8,
        1,
        product(f.epf_pass2_sigma_scale, float(EPF_SIGMA_SCALE)),
        f.epf_border_sad_mul,
    );
    xyb_to_linear_rgb_planar_persistent_steps(s5, e2.0, e2.1, e2.2)
}

impl LossyEncoder {
    /// Whether a plane has the padded size.
    pub open spec fn sized(self, p: GpuPlane) -> bool {
        p.width == self.padded_width && p.height == self.padded_height
    }

    /// Whether the sizes of the pipeline can be counted in 32 bits.
    pub open spec fn countable(self) -> bool {
        &&& self.padded_width * self.padded_height <= u32::MAX
        &&& self.padded_width + 4 <= u32::MAX
        &&& self.padded_height + 4 <= u32::MAX
    }

    pub(crate) fn sharpen(&self, enc: &mut GpuEncoder, p: &Planes, gaborish: bool) -> (r: Planes)
        requires
            old(enc)@.wf(),
            self.countable(),
            self.sized(p.0),
            self.sized(p.1),
            self.sized(p.2),
            p.0.lives_in(old(enc)@),
            p.1.lives_in(old(enc)@),
            p.2.lives_in(old(enc)@),
        ensures
            (final(enc)@, r) == sharpened_steps(old(enc)@, *self, *p, gaborish),
            final(enc)@.wf(),
            old(enc)@.grows_into(final(enc)@),
            self.sized(r.0),
            self.sized(r.1),
            self.sized(r.2),
            r.0.lives_in(final(enc)@),
            r.1.lives_in(final(enc)@),
            r.2.lives_in(final(enc)@),
    {
        proof {
            reveal(sharpened_steps);
        }
        if gaborish {
            let x: GpuPlane = enc.gaborish_5x5_persistent(&p.0, &self.weights);
            let y: GpuPlane = enc.gaborish_5x5_persistent(&p.1, &self.weights);
            let b: GpuPlane = enc.gaborish_5x5_persistent(&p.2, &self.weights);
            (x, y, b)
        } else {
            *p
        }
    }

    fn analyse(
        &self,
        enc: &mut GpuEncoder,
        r: &GpuPlane,
        g: &GpuPlane,
        b: &GpuPlane,
        gaborish: bool,
    ) -> (c: Blocks)
        requires
            old(enc)@.wf(),
            self.wf(),
            self.countable(),
            self.sized(*r),
            self.sized(*g),
            self.sized(*b),
            r.lives_in(old(enc)@),
            g.lives_in(old(enc)@),
            b.lives_in(old(enc)@),
        ensures
            (final(enc)@, c) == analysis_steps(old(enc)@, *self, *r, *g, *b, gaborish),
            final(enc)@.wf(),
            old(enc)@.grows_into(final(enc)@),
            c.0.num_blocks == self.num_blocks && c.0.coeffs_per_block == 64,
            c.1.num_blocks == self.num_blocks && c.1.coeffs_per_block == 64,
            c.2.num_blocks == self.num_blocks && c.2.coeffs_per_block == 64,
            c.0.lives_in(final(enc)@),
            c.1.lives_in(final(enc)@),
            c.2.lives_in(final(enc)@),
    {
        proof {
            reveal(analysis_steps);
            assert(8 * 8 == 64) by (nonlinear_arith);
        }
        let xyb: Planes = enc.xyb_from_linear_rgb_persistent(r, g, b);
        let p: Planes = self.sharpen(enc, &xyb, gaborish);
        let bx: GpuBlocks = enc.gather_blocks_persistent(&p.0, 8, 8);
        let by: GpuBlocks = enc.gather_blocks_persistent(&p.1, 8, 8);
        let bb: GpuBlocks = enc.gather_blocks_persistent(&p.2, 8, 8);
        let cx: GpuBlocks = enc.dct_8x8_wide_persistent(&bx);
        let cy: GpuBlocks = enc.dct_8x8_wide_persistent(&by);
        let cb: GpuBlocks = enc.dct_8x8_wide_persistent(&bb);
        (cx, cy, cb)
    }
}

/// The mean of the scales of an image; the scale at distance one where there
/// are none.
pub open spec fn mean_qac(qac: Seq<Float32>) -> Float32 {
    if qac.len() == 0 {
        qac_of_distance(float(ONE))
    } else {
        quotient(running_sum(qac), whole(qac.len()))
    }
}

/// The sum of some numbers, from left to right.
pub open spec fn running_sum(s: Seq<Float32>) -> Float32
    decreases s.len(),
{
    if s.len() == 0 {
        float(0)
    } else {
        sum(running_sum(s.drop_last()), s.last())
    }
}

/// The distance that the scales of an image stand for; one where their mean is
/// not positive.
pub open spec fn derived_distance(qac: Seq<Float32>) -> Float32 {
    let mean = mean_qac(qac);
    if float(0).less(mean) {
        quotient(float(K_AC_QUANT), mean)
    } else {
        float(ONE)
    }
}

/// Whether an image at a distance is sharpened before the transform and
/// smoothed after it: above one half.
pub open spec fn uses_gaborish(distance: Float32) -> bool {
    float(HALF).less(distance)
}

/// Whether an image at a distance is sharpened and smoothed.
pub fn gaborish_at(distance: Float32) -> (r: bool)
    ensures
        r == uses_gaborish(distance),
{
    Float32::from_bits(HALF).lt(distance)
}

/// The distance that the scales of an image stand for. See
/// [`derived_distance`].
pub fn distance_of_field(qac: &[Float32]) -> (r: Float32)
    requires
        qac@.len() <= u32::MAX,
    ensures
        r == derived_distance(qac@),
{
    let n: usize = qac.len();
    let zero: Float32 = Float32::from_bits(0);
    let mean: Float32 = if n == 0 {
        crate::quality::distance_to_qac(Float32::from_bits(ONE))
    } else {
        let mut total: Float32 = zero;
        let mut i: usize = 0;
        while i < n
            invariant
                n == qac@.len(),
                i <= n,
                total == running_sum(qac@.take(i as int)),
            decreases n - i,
        {
            proof {
                assert(qac@.take(i + 1).drop_last() =~= qac@.take(i as int));
            }
            total = total.plus(qac[i]);
            i = i + 1;
        }
        assert(qac@.take(i as int) =~= qac@);
        total.over(Float32::from_u32(n as u32))
    };
    if zero.lt(mean) {
        Float32::from_bits(K_AC_QUANT).over(mean)
    } else {
        Float32::from_bits(ONE)
    }
}

/// The quantization field of the edge-preserving filter: fifty times each
/// scale, as a byte of at least one.
pub fn quant_field_bytes(qac: &[Float32]) -> (r: Vec<u8>)
    ensures
        r@.len() == qac@.len(),
        forall|i: int|
            0 <= i < r@.len() ==> #[trigger] r@[i] == nearest_byte(
                product(qac@[i], float(FIFTY)),
            ),
{
    let mut out: Vec<u8> = Vec::new();
    let fifty: Float32 = Float32::from_bits(FIFTY);
    let mut i: usize = 0;
    while i < qac.len()
        invariant
            i <= qac@.len(),
            fifty == float(FIFTY),
            out@.len() == i,
            forall|j: int|
                0 <= j < i ==> #[trigger] out@[j] == nearest_byte(product(qac@[j], float(FIFTY))),
        decreases qac@.len() - i,
    {
        out.push(qac[i].times(fifty).to_byte());
        i = i + 1;
    }
    out
}

/// The scale that the strengths of the edge-preserving filter are computed with,
/// 0.01, as a bit pattern.
pub const EPF_STRENGTH_SCALE: u32 = 0x3c23_d70a;

/// The sharpness of every block for the edge-preserving filter.
pub const EPF_SHARPNESS: u8 = 4;

fn zero_field(n: u32) -> (r: Vec<Float32>)
    ensures
        r@ == zeros(n as nat),
{
    let mut out: Vec<Float32> = Vec::new();
    let zero: Float32 = Float32::from_bits(0);
    let mut i: u32 = 0;
    while i < n
        invariant
            i <= n,
            zero == float(0),
            out@ =~= zeros(i as nat),
        decreases n - i,
    {
        out.push(zero);
        i = i + 1;
    }
    out
}

/// The whole pipeline: what a decoder would show of an image whose blocks are
/// quantized with the scales `qac`.
#[verifier::opaque]
pub open spec fn pipeline_steps(
    s0: Recording,
    le: LossyEncoder,
    r: GpuPlane,
    g: GpuPlane,
    b: GpuPlane,
    qac: Seq<Float32>,
    f: FilterParameters,
    inv_sigma: Seq<Float32>,
) -> (Recording, Planes) {
    let gaborish = uses_gaborish(derived_distance(qac));
    let (s1, c) = analysis_steps(s0, le, r, g, b, gaborish);
    let (s2, p) = synthesis_steps(s1, le, c, qac);
    let (s3, p) = smoothed_steps(s2, p, f, gaborish);
    let (s4, rgb) = restoration_steps(s3, le, p, f, inv_sigma);
    (s4.read(seq![rgb.0.handle, rgb.1.handle, rgb.2.handle]), rgb)
}

impl LossyEncoder {
    fn synthesise(&self, enc: &mut GpuEncoder, c: &Blocks, qac: &[Float32]) -> (r: Planes)
        requires
            old(enc)@.wf(),
            self.wf(),
            self.countable(),
            self.lives_in(old(enc)@),
            c.0.num_blocks == self.num_blocks && c.0.coeffs_per_block == 64,
            c.1.num_blocks == self.num_blocks && c.1.coeffs_per_block == 64,
            c.2.num_blocks == self.num_blocks && c.2.coeffs_per_block == 64,
            c.0.lives_in(old(enc)@),
            c.1.lives_in(old(enc)@),
            c.2.lives_in(old(enc)@),
            qac@.len() == self.num_blocks,
        ensures
            (final(enc)@, r) == synthesis_steps(old(enc)@, *self, *c, qac@),
            final(enc)@.wf(),
            old(enc)@.grows_into(final(enc)@),
            self.sized(r.0),
            self.sized(r.1),
            self.sized(r.2),
            r.0.lives_in(final(enc)@),
            r.1.lives_in(final(enc)@),
            r.2.lives_in(final(enc)@),
    {
        proof {
            reveal(synthesis_steps);
        }
        let qx: GpuI32Blocks = enc.quantize_dct8_persistent_broadcast_w(
            &c.0,
            &self.weights_x,
            qac,
            &self.thresholds_x,
        );
        let qy: GpuI32Blocks = enc.quantize_dct8_persistent_broadcast_w(
            &c.1,
            &self.weights_y,
            qac,
            &self.thresholds_y,
        );
        let qb: GpuI32Blocks = enc.quantize_dct8_persistent_broadcast_w(
            &c.2,
            &self.weights_b,
            qac,
            &self.thresholds_b,
        );
        let z: Vec<Float32> = zero_field(self.num_blocks);
        let d: Blocks = enc.dequant_dct8_persistent_broadcast_w(
            &qx,
            &qy,
            &qb,
            &self.weights_x,
            &self.weights_y,
            &self.weights_b,
            qac,
            qac,
            qac,
            z.as_slice(),
            z.as_slice(),
        );
        enc.restore_dc_persistent(&c.0, &d.0);
        enc.restore_dc_persistent(&c.1, &d.1);
        enc.restore_dc_persistent(&c.2, &d.2);
        let rx: GpuBlocks = enc.idct_8x8_wide_persistent(&d.0);
        let ry: GpuBlocks = enc.idct_8x8_wide_persistent(&d.1);
        let rb: GpuBlocks = enc.idct_8x8_wide_persistent(&d.2);
        let w: u32 = self.padded_width;
        let h: u32 = self.padded_height;
        let px: GpuPlane = enc.scatter_blocks_persistent(&rx, w, h, 8, 8);
        let py: GpuPlane = enc.scatter_blocks_persistent(&ry, w, h, 8, 8);
        let pb: GpuPlane = enc.scatter_blocks_persistent(&rb, w, h, 8, 8);
        (px, py, pb)
    }

    fn smooth(&self, enc: &mut GpuEncoder, p: &Planes, f: &FilterParameters, smooth: bool) -> (r:
        Planes)
        requires
            old(enc)@.wf(),
            self.countable(),
            self.sized(p.0),
            self.sized(p.1),
            self.sized(p.2),
            p.0.lives_in(old(enc)@),
            p.1.lives_in(old(enc)@),
            p.2.lives_in(old(enc)@),
        ensures
            (final(enc)@, r) == smoothed_steps(old(enc)@, *p, *f, smooth),
            final(enc)@.wf(),
            old(enc)@.grows_into(final(enc)@),
            self.sized(r.0),
            self.sized(r.1),
            self.sized(r.2),
            r.0.lives_in(final(enc)@),
            r.1.lives_in(final(enc)@),
            r.2.lives_in(final(enc)@),
    {
        proof {
            reveal(smoothed_steps);
        }
        if smooth {
            let x: GpuPlane = enc.gab_smooth_persistent(&p.0, f.gab_center, f.gab_1, f.gab_2);
            let y: GpuPlane = enc.gab_smooth_persistent(&p.1, f.gab_center, f.gab_1, f.gab_2);
            let b: GpuPlane = enc.gab_smooth_persistent(&p.2, f.gab_center, f.gab_1, f.gab_2);
            (x, y, b)
        } else {
            *p
        }
    }

    /// Runs both passes of the edge-preserving filter and goes back to linear
    /// light.
    pub(crate) fn restore(
        &self,
        enc: &mut GpuEncoder,
        p: &Planes,
        f: &FilterParameters,
        inv_sigma: &[Float32],
    ) -> (r: Planes)
        requires
            old(enc)@.wf(),
            self.wf(),
            self.countable(),
            self.sized(p.0),
            self.sized(p.1),
            self.sized(p.2),
            p.0.lives_in(old(enc)@),
            p.1.lives_in(old(enc)@),
            p.2.lives_in(old(enc)@),
            inv_sigma@.len() == self.num_blocks,
        ensures
            (final(enc)@, r) == restoration_steps(old(enc)@, *self, *p, *f, inv_sigma@),
            final(enc)@.wf(),
            old(enc)@.grows_into(final(enc)@),
            self.sized(r.0),
            self.sized(r.1),
            self.sized(r.2),
            r.0.lives_in(final(enc)@),
            r.1.lives_in(final(enc)@),
            r.2.lives_in(final(enc)@),
    {
        let w: u32 = self.padded_width;
        let h: u32 = self.padded_height;
        proof {
            reveal(restoration_steps);
            lemma_padded_sizes(w, h);
        }
        let scale: Float32 = Float32::from_bits(EPF_SIGMA_SCALE);
        let sigma: Handle = enc.upload_inv_sigma(inv_sigma);
        let p1: Planes = enc.pad_plane_3ch_persistent(&p.0, &p.1, &p.2, 2);
        let e1: Planes = enc.epf_step1_persistent(
            &p1.0,
            &p1.1,
            &p1.2,
            sigma,
            w,
            h,
            w / 8,
            h / 8,
            2,
            scale,
            f.epf_border_sad_mul,
        );
        let p2: Planes = enc.pad_plane_3ch_persistent(&e1.0, &e1.1, &e1.2, 1);
        let e2: Planes = enc.epf_step2_persistent(
            &p2.0,
            &p2.1,
            &p2.2,
            sigma,
            w,
            h,
            w / 8,
            h / 8,
            1,
            f.epf_pass2_sigma_scale.times(scale),
            f.epf_border_sad_mul,
        );
        enc.xyb_to_linear_rgb_planar_persistent(&e2.0, &e2.1, &e2.2)
    }

    /// Runs the pipeline with one scale for all blocks. See
    /// [`LossyEncoder::run_pipeline_with_qac`].
    pub fn run_pipeline(
        &self,
        enc: &mut GpuEncoder,
        r: &GpuPlane,
        g: &GpuPlane,
        b: &GpuPlane,
        qac_qm: Float32,
        f: &FilterParameters,
        inv_sigma: &[Float32],
    ) -> (rgb: Planes)
        requires
            old(enc)@.wf(),
            self.wf(),
            self.countable(),
            self.lives_in(old(enc)@),
            self.sized(*r),
            self.sized(*g),
            self.sized(*b),
            r.lives_in(old(enc)@),
            g.lives_in(old(enc)@),
            b.lives_in(old(enc)@),
            inv_sigma@.len() == self.num_blocks,
        ensures
            (final(enc)@, rgb) == pipeline_steps(
                old(enc)@,
                *self,
                *r,
                *g,
                *b,
                uniform(qac_qm, self.num_blocks as nat),
                *f,
                inv_sigma@,
            ),
            final(enc)@.wf(),
            old(enc)@.grows_into(final(enc)@),
            self.sized(rgb.0),
            self.sized(rgb.1),
            self.sized(rgb.2),
    {
        let qac: Vec<Float32> = uniform_field(qac_qm, self.num_blocks);
        self.run_pipeline_with_qac(enc, r, g, b, qac.as_slice(), f, inv_sigma)
    }

    /// Records the whole pipeline for planes of linear light: sharpening where
    /// the scales call for it, transform, quantization with a scale per block,
    /// the way back, smoothing, the edge-preserving filter, and the reading
    /// back of the planes that come out. `inv_sigma` holds the strength of the
    /// edge-preserving filter for each block.
    pub fn run_pipeline_with_qac(
        &self,
        enc: &mut GpuEncoder,
        r: &GpuPlane,
        g: &GpuPlane,
        b: &GpuPlane,
        qac: &[Float32],
        f: &FilterParameters,
        inv_sigma: &[Float32],
    ) -> (rgb: Planes)
        requires
            old(enc)@.wf(),
            self.wf(),
            self.countable(),
            self.lives_in(old(enc)@),
            self.sized(*r),
            self.sized(*g),
            self.sized(*b),
            r.lives_in(old(enc)@),
            g.lives_in(old(enc)@),
            b.lives_in(old(enc)@),
            qac@.len() == self.num_blocks,
            inv_sigma@.len() == self.num_blocks,
        ensures
            (final(enc)@, rgb) == pipeline_steps(
                old(enc)@,
                *self,
                *r,
                *g,
                *b,
                qac@,
                *f,
                inv_sigma@,
            ),
            final(enc)@.wf(),
            old(enc)@.grows_into(final(enc)@),
            self.sized(rgb.0),
            self.sized(rgb.1),
            self.sized(rgb.2),
    {
        proof {
            reveal(pipeline_steps);
        }
        let gaborish: bool = gaborish_at(distance_of_field(qac));
        let c: Blocks = self.analyse(enc, r, g, b, gaborish);
        let p: Planes = self.synthesise(enc, &c, qac);
        let p: Planes = self.smooth(enc, &p, f, gaborish);
        let rgb: Planes = self.restore(enc, &p, f, inv_sigma);
        enc.download_planes_3ch(&rgb.0, &rgb.1, &rgb.2);
        rgb
    }
}

/// The same number `n` times.
pub open spec fn uniform(x: Float32, n: nat) -> Seq<Float32> {
    Seq::new(n, |i: int| x)
}

/// A field with the same number for `n` blocks.
pub fn uniform_field(x: Float32, n: u32) -> (r: Vec<Float32>)
    ensures
        r@ == uniform(x, n as nat),
{
    let mut out: Vec<Float32> = Vec::new();
    let mut i: u32 = 0;
    while i < n
        invariant
            i <= n,
            out@ =~= uniform(x, i as nat),
        decreases n - i,
    {
        out.push(x);
        i = i + 1;
    }
    out
}

proof fn lemma_padded_sizes(w: u32, h: u32)
    requires
        w * h <= u32::MAX,
        w + 4 <= u32::MAX,
        h + 4 <= u32::MAX,
    ensures
        (w + 2 * 2) * (h + 2 * 2) * 4 <= u64::MAX,
        (w + 2 * 1) * (h + 2 * 1) * 4 <= u64::MAX,
        (w / 8) * (h / 8) >= 0,
{
    assert((w + 4) * (h + 4) == w * h + 4 * w + 4 * h + 16) by (nonlinear_arith);
    assert((w + 2) * (h + 2) == w * h + 2 * w + 2 * h + 4) by (nonlinear_arith);
    assert((w / 8) * (h / 8) >= 0) by (nonlinear_arith);
}

} // verus!
