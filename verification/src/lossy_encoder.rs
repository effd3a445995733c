//! The lossy encoder for images of one size.

use crate::device::{GpuEncoder, Recording};
use crate::float::Float32;
use crate::padding::align_up;
use crate::persistent::{bits_of, GaborishWeights, GpuBlocks};
use vstd::prelude::*;

verus! {

/// The thresholds of the channels X and B: 0.58, and 0.62 three times, as bit
/// patterns.
pub const THRESHOLDS_CHROMA: [u32; 4] = [0x3f14_7ae1, 0x3f1e_b852, 0x3f1e_b852, 0x3f1e_b852];

/// The thresholds of the channel Y: 0.56, and 0.62 three times, as bit
/// patterns.
pub const THRESHOLDS_LUMA: [u32; 4] = [0x3f0f_5c29, 0x3f1e_b852, 0x3f1e_b852, 0x3f1e_b852];

/// An encoder for images of one size.
#[derive(Clone, Copy)]
pub struct LossyEncoder {
    pub width: u32,
    pub height: u32,
    pub padded_width: u32,
    pub padded_height: u32,
    pub num_blocks: u32,
    /// The quantization matrices of the channels, one block of 64 each.
    pub weights_x: GpuBlocks,
    pub weights_y: GpuBlocks,
    pub weights_b: GpuBlocks,
    /// The sharpening filter.
    pub weights: GaborishWeights,
    pub thresholds_x: [Float32; 4],
    pub thresholds_y: [Float32; 4],
    pub thresholds_b: [Float32; 4],
    /// How much effort goes into the search, from one to nine.
    pub effort: u8,
    pub evaluate_afv: bool,
    pub auto_evaluate_afv_on_screenshots: bool,
    pub auto_skip_afv_when_patches: bool,
    pub auto_libjxl_entropy_mul_on_photos: bool,
    pub auto_patches_on_fast_path: bool,
    pub enable_kavoid_entropy_of_transforms: bool,
}

/// The least multiple of sixteen that is at least `n`.
pub open spec fn to_sixteen(n: int) -> int {
    (n + 15) / 16 * 16
}

impl LossyEncoder {
    /// Whether the sizes belong together: at least sixteen pixels each way,
    /// padded to multiples of sixteen, and one block per 8x8 pixels.
    pub open spec fn wf(self) -> bool {
        &&& self.width >= 16
        &&& self.height >= 16
        &&& self.padded_width == to_sixteen(self.width as int)
        &&& self.padded_height == to_sixteen(self.height as int)
        &&& self.num_blocks == (self.padded_width / 8) * (self.padded_height / 8)
        &&& self.weights_x.num_blocks == 1 && self.weights_x.coeffs_per_block == 64
        &&& self.weights_y.num_blocks == 1 && self.weights_y.coeffs_per_block == 64
        &&& self.weights_b.num_blocks == 1 && self.weights_b.coeffs_per_block == 64
        &&& 1 <= self.effort <= 9
    }

    /// Whether the quantization matrices are among the buffers recorded.
    pub open spec fn lives_in(self, s: Recording) -> bool {
        &&& self.weights_x.lives_in(s)
        &&& self.weights_y.lives_in(s)
        &&& self.weights_b.lives_in(s)
    }

    /// Makes an encoder for images of `width` by `height` pixels and puts its
    /// quantization matrices on the device. `quant_weights` holds the matrices
    /// of the channels X, Y and B, one after the other.
    pub fn new(
        enc: &mut GpuEncoder,
        width: u32,
        height: u32,
        quant_weights: &[Float32],
        weights: GaborishWeights,
    ) -> (r: LossyEncoder)
        requires
            old(enc)@.wf(),
            width >= 16,
            height >= 16,
            to_sixteen(width as int) <= u32::MAX,
            to_sixteen(height as int) <= u32::MAX,
            (to_sixteen(width as int) / 8) * (to_sixteen(height as int) / 8) <= u32::MAX,
            quant_weights@.len() == 192,
        ensures
            r.wf(),
            r.lives_in(final(enc)@),
            r.width == width,
            r.height == height,
            r.weights == weights,
            ({
                let s0 = old(enc)@;
                let s1 = s0.create(bits_of(quant_weights@.subrange(0, 64)));
                let s2 = s1.create(bits_of(quant_weights@.subrange(64, 128)));
                let s3 = s2.create(bits_of(quant_weights@.subrange(128, 192)));
                &&& final(enc)@ == s3
                &&& r.weights_x.handle == s0.next()
                &&& r.weights_y.handle == s1.next()
                &&& r.weights_b.handle == s2.next()
            }),
            forall|i: int|
                0 <= i < 4 ==> #[trigger] r.thresholds_x@[i].bits == THRESHOLDS_CHROMA[i],
            forall|i: int| 0 <= i < 4 ==> #[trigger] r.thresholds_y@[i].bits == THRESHOLDS_LUMA[i],
            forall|i: int|
                0 <= i < 4 ==> #[trigger] r.thresholds_b@[i].bits == THRESHOLDS_CHROMA[i],
            r.effort == 7,
            !r.evaluate_afv,
            r.auto_evaluate_afv_on_screenshots,
            r.auto_skip_afv_when_patches,
            !r.auto_libjxl_entropy_mul_on_photos,
            r.auto_patches_on_fast_path,
            !r.enable_kavoid_entropy_of_transforms,
            final(enc)@.wf(),
    {
        proof {
            lemma_to_sixteen(width);
            lemma_to_sixteen(height);
            reveal(crate::persistent::upload_blocks_steps);
        }
        let padded_width: u32 = align_up(width, 16);
        let padded_height: u32 = align_up(height, 16);
        let num_blocks: u32 = (padded_width / 8) * (padded_height / 8);
        let weights_x: GpuBlocks = enc.upload_blocks(
            vstd::slice::slice_subrange(quant_weights, 0, 64),
            1,
            64,
        );
        let weights_y: GpuBlocks = enc.upload_blocks(
            vstd::slice::slice_subrange(quant_weights, 64, 128),
            1,
            64,
        );
        let weights_b: GpuBlocks = enc.upload_blocks(
            vstd::slice::slice_subrange(quant_weights, 128, 192),
            1,
            64,
        );
        LossyEncoder {
            width,
            height,
            padded_width,
            padded_height,
            num_blocks,
            weights_x,
            weights_y,
            weights_b,
            weights,
            thresholds_x: thresholds(THRESHOLDS_CHROMA),
            thresholds_y: thresholds(THRESHOLDS_LUMA),
            thresholds_b: thresholds(THRESHOLDS_CHROMA),
            effort: 7,
            evaluate_afv: false,
            auto_evaluate_afv_on_screenshots: true,
            auto_skip_afv_when_patches: true,
            auto_libjxl_entropy_mul_on_photos: false,
            auto_patches_on_fast_path: true,
            enable_kavoid_entropy_of_transforms: false,
        }
    }
}

proof fn lemma_to_sixteen(n: u32)
    ensures
        forall|r: int| #![trigger r % 16] r % 16 == 0 && n <= r < n + 16 ==> r == to_sixteen(
            n as int,
        ),
        to_sixteen(n as int) % 16 == 0,
        n % 16 == 0 || n + (16 - n % 16) == to_sixteen(n as int),
        n % 16 == 0 ==> n == to_sixteen(n as int),
{
}

fn thresholds(bits: [u32; 4]) -> (r: [Float32; 4])
    ensures
        forall|i: int| 0 <= i < 4 ==> #[trigger] r@[i].bits == bits@[i],
{
    [
        Float32::from_bits(bits[0]),
        Float32::from_bits(bits[1]),
        Float32::from_bits(bits[2]),
        Float32::from_bits(bits[3]),
    ]
}

impl LossyEncoder {
    /// Sets the effort, held to the range from one to nine.
    pub fn with_effort(self, effort: u8) -> (r: LossyEncoder)
        ensures
            r == (LossyEncoder {
                effort: if effort < 1 {
                    1
                } else if effort > 9 {
                    9
                } else {
                    effort
                },
                ..self
            }),
            self.wf() ==> r.wf(),
    {
        let held: u8 = if effort < 1 {
            1
        } else if effort > 9 {
            9
        } else {
            effort
        };
        LossyEncoder { effort: held, ..self }
    }

    /// The effort, from one to nine.
    pub fn effort(&self) -> (r: u8)
        ensures
            r == self.effort,
    {
        self.effort
    }

    /// The size of the images.
    pub fn dimensions(&self) -> (r: (u32, u32))
        ensures
            r == (self.width, self.height),
    {
        (self.width, self.height)
    }

    /// The size that images are padded to.
    pub fn padded_dimensions(&self) -> (r: (u32, u32))
        ensures
            r == (self.padded_width, self.padded_height),
    {
        (self.padded_width, self.padded_height)
    }

    /// Sets whether the AFV transforms are always evaluated.
    pub fn with_evaluate_afv(self, on: bool) -> (r: LossyEncoder)
        ensures
            r == (LossyEncoder { evaluate_afv: on, ..self }),
    {
        LossyEncoder { evaluate_afv: on, ..self }
    }

    /// Whether the AFV transforms are always evaluated.
    pub fn evaluate_afv(&self) -> (r: bool)
        ensures
            r == self.evaluate_afv,
    {
        self.evaluate_afv
    }

    /// Sets whether the AFV transforms are evaluated on content that looks like a screenshot.
    pub fn with_auto_evaluate_afv_on_screenshots(self, on: bool) -> (r: LossyEncoder)
        ensures
            r == (LossyEncoder { auto_evaluate_afv_on_screenshots: on, ..self }),
    {
        LossyEncoder { auto_evaluate_afv_on_screenshots: on, ..self }
    }

    /// Whether the AFV transforms are evaluated on content that looks like a screenshot.
    pub fn auto_evaluate_afv_on_screenshots(&self) -> (r: bool)
        ensures
            r == self.auto_evaluate_afv_on_screenshots,
    {
        self.auto_evaluate_afv_on_screenshots
    }

    /// Sets whether the automatic evaluation of the AFV transforms is skipped
    /// where patches are found.
    pub fn with_auto_skip_afv_when_patches(self, on: bool) -> (r: LossyEncoder)
        ensures
            r == (LossyEncoder { auto_skip_afv_when_patches: on, ..self }),
    {
        LossyEncoder { auto_skip_afv_when_patches: on, ..self }
    }

    /// Whether the automatic evaluation of the AFV transforms is skipped where patches are found.
    pub fn auto_skip_afv_when_patches(&self) -> (r: bool)
        ensures
            r == self.auto_skip_afv_when_patches,
    {
        self.auto_skip_afv_when_patches
    }

    /// Sets whether photos get the entropy multipliers of the reference encoder.
    pub fn with_auto_libjxl_entropy_mul_on_photos(self, on: bool) -> (r: LossyEncoder)
        ensures
            r == (LossyEncoder { auto_libjxl_entropy_mul_on_photos: on, ..self }),
    {
        LossyEncoder { auto_libjxl_entropy_mul_on_photos: on, ..self }
    }

    /// Whether photos get the entropy multipliers of the reference encoder.
    pub fn auto_libjxl_entropy_mul_on_photos(&self) -> (r: bool)
        ensures
            r == self.auto_libjxl_entropy_mul_on_photos,
    {
        self.auto_libjxl_entropy_mul_on_photos
    }

    /// Sets whether small screenshots leave the fast path, so that patches are looked for.
    pub fn with_auto_patches_on_fast_path(self, on: bool) -> (r: LossyEncoder)
        ensures
            r == (LossyEncoder { auto_patches_on_fast_path: on, ..self }),
    {
        LossyEncoder { auto_patches_on_fast_path: on, ..self }
    }

    /// Whether small screenshots leave the fast path, so that patches are looked for.
    pub fn auto_patches_on_fast_path(&self) -> (r: bool)
        ensures
            r == self.auto_patches_on_fast_path,
    {
        self.auto_patches_on_fast_path
    }

    /// Sets whether small transforms are made dearer at large distances.
    pub fn with_enable_kavoid_entropy_of_transforms(self, on: bool) -> (r: LossyEncoder)
        ensures
            r == (LossyEncoder { enable_kavoid_entropy_of_transforms: on, ..self }),
    {
        LossyEncoder { enable_kavoid_entropy_of_transforms: on, ..self }
    }

    /// Whether small transforms are made dearer at large distances.
    pub fn enable_kavoid_entropy_of_transforms(&self) -> (r: bool)
        ensures
            r == self.enable_kavoid_entropy_of_transforms,
    {
        self.enable_kavoid_entropy_of_transforms
    }
}

/// The numbers of the restoration filters: the weights of the smoothing
/// filter, the scale of the second pass of the edge-preserving filter against
/// the first, and what its strength is multiplied by at block borders.
#[derive(Clone, Copy)]
pub struct FilterParameters {
    pub gab_center: Float32,
    pub gab_1: Float32,
    pub gab_2: Float32,
    pub epf_pass2_sigma_scale: Float32,
    pub epf_border_sad_mul: Float32,
}

/// Images are padded to the next multiples of sixteen: by fewer than sixteen
/// columns and rows.
pub proof fn law_padding_is_least(le: LossyEncoder)
    requires
        le.wf(),
    ensures
        le.padded_width % 16 == 0,
        le.width <= le.padded_width < le.width + 16,
        le.padded_height % 16 == 0,
        le.height <= le.padded_height < le.height + 16,
        le.num_blocks * 64 == le.padded_width * le.padded_height,
{
    let across = le.padded_width as int / 8;
    let down = le.padded_height as int / 8;
    assert(le.padded_width == 8 * across && le.padded_height == 8 * down);
    assert((across * down) * 64 == (8 * across) * (8 * down)) by (nonlinear_arith);
}

} // verus!
