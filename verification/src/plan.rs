//! The stages of the strategy search on the device, and encoding by its plan.

use crate::assignment::StrategyAssignment;
use crate::dataflow::Run;
use crate::device::{GpuEncoder, Handle, Recording};
use crate::encode::{padded_plane, Image};
use crate::float::Float32;
use crate::lossy_encoder::{FilterParameters, LossyEncoder};
use crate::padding::pad_to_alignment;
use crate::partition::lemma_cell_of_index;
use crate::persistent::{
    alloc_plane_uninit_steps, block_mask_mean_steps, dc_grid_8x8_persistent_steps,
    gab_smooth_3ch_persistent_steps, gather_blocks_persistent_steps, mask1x1_persistent_steps,
    upload_planes_3ch_steps, upload_u8_steps, xyb_from_linear_rgb_persistent_steps, GpuBlocks,
    GpuPlane,
};
use crate::pipeline::{
    gaborish_at, restoration_steps, sharpened_steps, uniform, uniform_field, uses_gaborish,
    Blocks, Planes,
};
use crate::plan_laws::{grids_hold_means, law_grids_are_means_of_the_sharpened_planes};
use crate::quality::{distance_to_qac, qac_of_distance};
use vstd::prelude::*;

verus! {

/// What the first stage of a search leaves on the device: the planes before
/// and after sharpening, the mask, and its mean in each block.
#[derive(Clone, Copy)]
pub struct SearchPlanes {
    pub pre: Planes,
    pub post: Planes,
    pub mask: GpuPlane,
    pub means: GpuBlocks,
}

/// The first stage of a search over planes of linear light: opponent colours,
/// sharpening above a distance of one half, the mask of the sharpened
/// luminance, and the reading back of its means.
#[verifier::opaque]
pub open spec fn search_planes_steps(
    s0: Recording,
    le: LossyEncoder,
    p: Planes,
    distance: Float32,
) -> (Recording, SearchPlanes) {
    let (s1, pre) = xyb_from_linear_rgb_persistent_steps(s0, p.0, p.1, p.2);
    let (s2, post) = sharpened_steps(s1, le, pre, uses_gaborish(distance));
    let (s3, mask) = mask1x1_persistent_steps(s2, post.1);
    let (s4, means) = block_mask_mean_steps(s3, mask, le.width, le.height);
    (s4.read(seq![means.handle]), SearchPlanes { pre, post, mask, means })
}

/// The first stage of a search over an image.
pub open spec fn search_image_steps(
    s0: Recording,
    le: LossyEncoder,
    image: Image,
    distance: Float32,
) -> (Recording, SearchPlanes) {
    let (s1, p) = upload_planes_3ch_steps(
        s0,
        padded_plane(le, image.0),
        padded_plane(le, image.1),
        padded_plane(le, image.2),
        le.padded_width,
        le.padded_height,
    );
    search_planes_steps(s1, le, p, distance)
}

/// The first stage of a search over an image of interleaved bytes.
pub open spec fn search_bytes_steps(
    s0: Recording,
    le: LossyEncoder,
    pixels: Seq<u8>,
    distance: Float32,
) -> (Recording, SearchPlanes) {
    let (s1, p) = upload_u8_steps(
        s0,
        pixels,
        le.width,
        le.height,
        le.padded_width,
        le.padded_height,
    );
    search_planes_steps(s1, le, p, distance)
}

/// The sharpened planes in 8x8 blocks, for the costs; with the AFV transforms
/// the planes are read back first.
#[verifier::opaque]
pub open spec fn search_blocks_steps(s0: Recording, planes: SearchPlanes, afv: bool) -> (
    Recording,
    Blocks,
) {
    let p = planes.post;
    let s1 = if afv {
        s0.read(seq![p.0.handle, p.1.handle, p.2.handle])
    } else {
        s0
    };
    let (s2, x) = gather_blocks_persistent_steps(s1, p.0, 8, 8);
    let (s3, y) = gather_blocks_persistent_steps(s2, p.1, 8, 8);
    let (s4, b) = gather_blocks_persistent_steps(s3, p.2, 8, 8);
    (s4, (x, y, b))
}

/// The means of the 8x8 blocks of the sharpened planes; with the AFV
/// transforms they are read back.
#[verifier::opaque]
pub open spec fn dc_grids_steps(s0: Recording, planes: SearchPlanes, afv: bool) -> (
    Recording,
    Blocks,
) {
    let p = planes.post;
    let (s1, x) = dc_grid_8x8_persistent_steps(s0, p.0);
    let (s2, y) = dc_grid_8x8_persistent_steps(s1, p.1);
    let (s3, b) = dc_grid_8x8_persistent_steps(s2, p.2);
    let s4 = if afv {
        s3.read(seq![x.handle, y.handle, b.handle])
    } else {
        s3
    };
    (s4, (x, y, b))
}

impl LossyEncoder {
    /// Whether planes have the encoder's size and are among the buffers
    /// recorded.
    pub open spec fn holds_planes(self, s: Recording, p: Planes) -> bool {
        &&& self.sized(p.0) && p.0.lives_in(s)
        &&& self.sized(p.1) && p.1.lives_in(s)
        &&& self.sized(p.2) && p.2.lives_in(s)
    }

    /// Whether what the first stage left is of the encoder's size and among
    /// the buffers recorded.
    pub open spec fn holds_search(self, s: Recording, planes: SearchPlanes) -> bool {
        &&& self.holds_planes(s, planes.pre)
        &&& self.holds_planes(s, planes.post)
        &&& self.sized(planes.mask) && planes.mask.lives_in(s)
        &&& planes.means.num_blocks == self.num_blocks
        &&& planes.means.coeffs_per_block == 1
        &&& planes.means.lives_in(s)
    }

    /// Records the first stage of a search over planes that are on the device.
    fn search_planes(&self, enc: &mut GpuEncoder, p: &Planes, distance: Float32) -> (r:
        SearchPlanes)
        requires
            old(enc)@.wf(),
            self.wf(),
            self.countable(),
            self.holds_planes(old(enc)@, *p),
        ensures
            (final(enc)@, r) == search_planes_steps(old(enc)@, *self, *p, distance),
            final(enc)@.wf(),
            old(enc)@.grows_into(final(enc)@),
            self.holds_search(final(enc)@, r),
    {
        proof {
            reveal(search_planes_steps);
        }
        let pre: Planes = enc.xyb_from_linear_rgb_persistent(&p.0, &p.1, &p.2);
        let post: Planes = self.sharpen(enc, &pre, gaborish_at(distance));
        let mask: GpuPlane = enc.mask1x1_persistent(&post.1);
        let means: GpuBlocks = enc.block_mask_mean_persistent(&mask, self.width, self.height);
        let handles: Vec<Handle> = vec![means.handle];
        assert(handles@ =~= seq![means.handle]);
        enc.read(handles);
        SearchPlanes { pre, post, mask, means }
    }

    /// Begins a strategy search: pads an image, puts it on the device, and
    /// records the first stage, whose mask means are read back.
    pub fn prepare_strategy_search_plan(
        &self,
        enc: &mut GpuEncoder,
        r: &[Float32],
        g: &[Float32],
        b: &[Float32],
        target_distance: Float32,
    ) -> (planes: SearchPlanes)
        requires
            old(enc)@.wf(),
            self.wf(),
            self.countable(),
            self.padded_width * self.padded_height <= usize::MAX,
            self.fits_image(r@),
            self.fits_image(g@),
            self.fits_image(b@),
        ensures
            (final(enc)@, planes) == search_image_steps(
                old(enc)@,
                *self,
                (r@, g@, b@),
                target_distance,
            ),
            final(enc)@.wf(),
            old(enc)@.grows_into(final(enc)@),
            self.holds_search(final(enc)@, planes),
    {
        let w: usize = self.width as usize;
        let h: usize = self.height as usize;
        let pw: usize = self.padded_width as usize;
        let ph: usize = self.padded_height as usize;
        let r_pad: Vec<Float32> = pad_to_alignment(r, w, h, pw, ph);
        let g_pad: Vec<Float32> = pad_to_alignment(g, w, h, pw, ph);
        let b_pad: Vec<Float32> = pad_to_alignment(b, w, h, pw, ph);
        let p: Planes = enc.upload_planes_3ch(
            r_pad.as_slice(),
            g_pad.as_slice(),
            b_pad.as_slice(),
            self.padded_width,
            self.padded_height,
        );
        self.search_planes(enc, &p, target_distance)
    }

    /// Begins a strategy search over an image of interleaved red, green and
    /// blue bytes.
    pub fn prepare_strategy_search_plan_from_u8(
        &self,
        enc: &mut GpuEncoder,
        pixels_u8: &[u8],
        target_distance: Float32,
    ) -> (planes: SearchPlanes)
        requires
            old(enc)@.wf(),
            self.wf(),
            self.countable(),
            pixels_u8@.len() == self.width * self.height * 3,
        ensures
            (final(enc)@, planes) == search_bytes_steps(
                old(enc)@,
                *self,
                pixels_u8@,
                target_distance,
            ),
            final(enc)@.wf(),
            old(enc)@.grows_into(final(enc)@),
            self.holds_search(final(enc)@, planes),
    {
        let p: Planes = enc.upload_u8_rgb_to_linear_planar_padded(
            pixels_u8,
            self.width,
            self.height,
            self.padded_width,
            self.padded_height,
        );
        self.search_planes(enc, &p, target_distance)
    }

    /// Records what the costs are computed from: the sharpened planes in 8x8
    /// blocks. With the AFV transforms the planes are read back first.
    pub fn gather_search_blocks(
        &self,
        enc: &mut GpuEncoder,
        planes: &SearchPlanes,
        afv: bool,
    ) -> (r:
        Blocks)
        requires
            old(enc)@.wf(),
            self.wf(),
            self.countable(),
            self.holds_search(old(enc)@, *planes),
        ensures
            (final(enc)@, r) == search_blocks_steps(old(enc)@, *planes, afv),
            final(enc)@.wf(),
            old(enc)@.grows_into(final(enc)@),
            r.0.num_blocks == self.num_blocks && r.0.coeffs_per_block == 64,
            r.1.num_blocks == self.num_blocks && r.1.coeffs_per_block == 64,
            r.2.num_blocks == self.num_blocks && r.2.coeffs_per_block == 64,
            r.0.lives_in(final(enc)@),
            r.1.lives_in(final(enc)@),
            r.2.lives_in(final(enc)@),
    {
        proof {
            reveal(search_blocks_steps);
            assert(8 * 8 == 64) by (nonlinear_arith);
        }
        let p: Planes = planes.post;
        if afv {
            enc.download_planes_3ch(&p.0, &p.1, &p.2);
        }
        let x: GpuBlocks = enc.gather_blocks_persistent(&p.0, 8, 8);
        let y: GpuBlocks = enc.gather_blocks_persistent(&p.1, 8, 8);
        let b: GpuBlocks = enc.gather_blocks_persistent(&p.2, 8, 8);
        (x, y, b)
    }

    /// Records the means of the 8x8 blocks of the sharpened planes. With the
    /// AFV transforms they are read back.
    fn dc_grids(&self, enc: &mut GpuEncoder, planes: &SearchPlanes, afv: bool) -> (r: Blocks)
        requires
            old(enc)@.wf(),
            self.wf(),
            self.countable(),
            self.holds_search(old(enc)@, *planes),
        ensures
            (final(enc)@, r) == dc_grids_steps(old(enc)@, *planes, afv),
            final(enc)@.wf(),
            old(enc)@.grows_into(final(enc)@),
            r.0.num_blocks == self.num_blocks && r.0.coeffs_per_block == 1,
            r.1.num_blocks == self.num_blocks && r.1.coeffs_per_block == 1,
            r.2.num_blocks == self.num_blocks && r.2.coeffs_per_block == 1,
            r.0.lives_in(final(enc)@),
            r.1.lives_in(final(enc)@),
            r.2.lives_in(final(enc)@),
    {
        proof {
            reveal(dc_grids_steps);
        }
        let p: Planes = planes.post;
        let x: GpuBlocks = enc.dc_grid_8x8_persistent(&p.0);
        let y: GpuBlocks = enc.dc_grid_8x8_persistent(&p.1);
        let b: GpuBlocks = enc.dc_grid_8x8_persistent(&p.2);
        if afv {
            let handles: Vec<Handle> = vec![x.handle, y.handle, b.handle];
            assert(handles@ =~= seq![x.handle, y.handle, b.handle]);
            enc.read(handles);
        }
        (x, y, b)
    }
}

/// Where the first pixel of 8x8 block `i` stands in a plane of this width.
pub open spec fn first_pixel(padded_width: int, i: int) -> int {
    let across = padded_width / 8;
    (i / across) * 8 * padded_width + (i % across) * 8
}

/// Where the first pixels of the 8x8 blocks of an encoder's planes stand.
pub open spec fn first_pixels(le: LossyEncoder) -> Seq<u32> {
    Seq::new(le.num_blocks as nat, |i: int| first_pixel(le.padded_width as int, i) as u32)
}

/// Every pixel of every 8x8 block lies within its plane.
pub proof fn law_blocks_lie_within(le: LossyEncoder, i: int, dx: int, dy: int)
    requires
        le.wf(),
        0 <= i < le.num_blocks,
        0 <= dx < 8,
        0 <= dy < 8,
    ensures
        0 <= first_pixel(le.padded_width as int, i),
        first_pixel(le.padded_width as int, i) + dy * le.padded_width + dx < le.padded_width
            * le.padded_height,
{
    let w = le.padded_width as int;
    let h = le.padded_height as int;
    let across = w / 8;
    let down = h / 8;
    lemma_cell_of_index(across, down, i);
    let by = i / across;
    let bx = i % across;
    assert(w == 8 * across && h == 8 * down);
    let row = by * 8 + dy;
    assert(by * 8 * w + dy * w == row * w) by (nonlinear_arith)
        requires
            row == by * 8 + dy,
    ;
    assert(row * w + w <= w * h) by (nonlinear_arith)
        requires
            row + 1 <= h,
            w >= 0,
    ;
    assert(0 <= by * 8 * w) by (nonlinear_arith)
        requires
            by >= 0,
            w >= 0,
    ;
}

/// Where the search of an image leads: what is on the device, what was chosen,
/// and what was read back. `xyb_x`, `xyb_y`, `xyb_b` and the lists `dc_grid_x`,
/// `dc_grid_y`, `dc_grid_b` hold what was read back for the AFV transforms and
/// are empty without them; `quant_field_float` and `masking` hold the
/// quantization field and the mask of the image, once they have been computed.
pub struct StrategySearchPlan {
    pub xyb_x: Vec<Float32>,
    pub xyb_y: Vec<Float32>,
    pub xyb_b: Vec<Float32>,
    pub xyb_x_gpu: GpuPlane,
    pub xyb_y_gpu: GpuPlane,
    pub xyb_b_gpu: GpuPlane,
    pub xyb_x_pre_gab_gpu: GpuPlane,
    pub xyb_y_pre_gab_gpu: GpuPlane,
    pub xyb_b_pre_gab_gpu: GpuPlane,
    pub dc_grid_x: Vec<Float32>,
    pub dc_grid_y: Vec<Float32>,
    pub dc_grid_b: Vec<Float32>,
    pub dc_grid_x_gpu: GpuBlocks,
    pub dc_grid_y_gpu: GpuBlocks,
    pub dc_grid_b_gpu: GpuBlocks,
    pub assignments: Vec<StrategyAssignment>,
    pub quant_field_float: Vec<Float32>,
    pub masking: Vec<Float32>,
    pub target_distance: Float32,
    pub padded_width: u32,
    pub padded_height: u32,
}

/// Three planes smoothed together, where the distance calls for it.
#[verifier::opaque]
pub open spec fn smoothed_together_steps(
    s0: Recording,
    p: Planes,
    f: FilterParameters,
    smooth: bool,
) -> (Recording, Planes) {
    if smooth {
        gab_smooth_3ch_persistent_steps(s0, p.0, p.1, p.2, f.gab_center, f.gab_1, f.gab_2)
    } else {
        (s0, p)
    }
}

/// What follows the reconstruction of an image by a plan: smoothing above a
/// distance of one half, the edge-preserving filter, and back to linear light.
pub open spec fn after_plan_steps(
    s0: Recording,
    le: LossyEncoder,
    recon: Planes,
    distance: Float32,
    f: FilterParameters,
    inv_sigma: Seq<Float32>,
) -> (Recording, Planes) {
    let (s1, p) = smoothed_together_steps(s0, recon, f, uses_gaborish(distance));
    restoration_steps(s1, le, p, f, inv_sigma)
}

/// The planes that the blocks of an image are reconstructed in.
#[verifier::opaque]
pub open spec fn reconstruction_planes_steps(s0: Recording, le: LossyEncoder) -> (
    Recording,
    Planes,
) {
    let w = le.padded_width;
    let h = le.padded_height;
    let (s1, x) = alloc_plane_uninit_steps(s0, w, h);
    let (s2, y) = alloc_plane_uninit_steps(s1, w, h);
    let (s3, b) = alloc_plane_uninit_steps(s2, w, h);
    (s3, (x, y, b))
}

impl LossyEncoder {
    /// Where the first pixels of the 8x8 blocks stand.
    fn first_pixel_table(&self) -> (r: Vec<u32>)
        requires
            self.wf(),
            self.countable(),
        ensures
            r@ == first_pixels(*self),
    {
        let across: u32 = self.padded_width / 8;
        let w: u32 = self.padded_width;
        let n: u32 = self.num_blocks;
        let mut r: Vec<u32> = Vec::new();
        let mut i: u32 = 0;
        while i < n
            invariant
                self.wf(),
                self.countable(),
                w == self.padded_width,
                across == w / 8,
                n == self.num_blocks,
                i <= n,
                r@ == first_pixels(*self).take(i as int),
            decreases n - i,
        {
            proof {
                law_blocks_lie_within(*self, i as int, 0, 0);
                lemma_cell_of_index(across as int, (self.padded_height / 8) as int, i as int);
                let by = i / across;
                assert(by * 8 <= by * 8 * w) by (nonlinear_arith)
                    requires
                        w >= 1,
                        by >= 0,
                ;
                assert(0 * w == 0);
            }
            r.push((i / across) * 8 * w + (i % across) * 8);
            i = i + 1;
            assert(r@ =~= first_pixels(*self).take(i as int));
        }
        assert(first_pixels(*self).take(n as int) =~= first_pixels(*self));
        r
    }

    /// Puts on the device where the first pixels of the 8x8 blocks stand, for
    /// the costs of the transforms within them.
    pub fn upload_first_pixels(&self, enc: &mut GpuEncoder) -> (r: Handle)
        requires
            old(enc)@.wf(),
            self.wf(),
            self.countable(),
        ensures
            final(enc)@ == old(enc)@.create(first_pixels(*self)),
            r == old(enc)@.next(),
            final(enc)@.wf(),
            old(enc)@.grows_into(final(enc)@),
    {
        let words: Vec<u32> = self.first_pixel_table();
        enc.create(words)
    }

    /// Ends a strategy search: records the means of the 8x8 blocks, which are
    /// read back with the AFV transforms, and puts the plan together. What is
    /// read back is still to be filled in.
    pub fn finish_strategy_search_plan(
        &self,
        enc: &mut GpuEncoder,
        planes: &SearchPlanes,
        afv: bool,
        assignments: Vec<StrategyAssignment>,
        target_distance: Float32,
    ) -> (plan: StrategySearchPlan)
        requires
            old(enc)@.wf(),
            self.wf(),
            self.countable(),
            self.holds_search(old(enc)@, *planes),
        ensures
            ({
                let (s1, dc) = dc_grids_steps(old(enc)@, *planes, afv);
                &&& final(enc)@ == s1
                &&& (plan.dc_grid_x_gpu, plan.dc_grid_y_gpu, plan.dc_grid_b_gpu) == dc
            }),
            forall|run: Run| #[trigger] grids_hold_means(run, old(enc)@, final(enc)@, plan),
            (plan.xyb_x_gpu, plan.xyb_y_gpu, plan.xyb_b_gpu) == planes.post,
            (plan.xyb_x_pre_gab_gpu, plan.xyb_y_pre_gab_gpu, plan.xyb_b_pre_gab_gpu) == planes.pre,
            plan.assignments == assignments,
            plan.target_distance == target_distance,
            plan.padded_width == self.padded_width,
            plan.padded_height == self.padded_height,
            plan.xyb_x@.len() == 0 && plan.xyb_y@.len() == 0 && plan.xyb_b@.len() == 0,
            plan.dc_grid_x@.len() == 0 && plan.dc_grid_y@.len() == 0 && plan.dc_grid_b@.len() == 0,
            plan.quant_field_float@.len() == 0,
            plan.masking@.len() == 0,
            final(enc)@.wf(),
            old(enc)@.grows_into(final(enc)@),
    {
        let dc: Blocks = self.dc_grids(enc, planes, afv);
        let plan: StrategySearchPlan = StrategySearchPlan {
            xyb_x: Vec::new(),
            xyb_y: Vec::new(),
            xyb_b: Vec::new(),
            xyb_x_gpu: planes.post.0,
            xyb_y_gpu: planes.post.1,
            xyb_b_gpu: planes.post.2,
            xyb_x_pre_gab_gpu: planes.pre.0,
            xyb_y_pre_gab_gpu: planes.pre.1,
            xyb_b_pre_gab_gpu: planes.pre.2,
            dc_grid_x: Vec::new(),
            dc_grid_y: Vec::new(),
            dc_grid_b: Vec::new(),
            dc_grid_x_gpu: dc.0,
            dc_grid_y_gpu: dc.1,
            dc_grid_b_gpu: dc.2,
            assignments,
            quant_field_float: Vec::new(),
            masking: Vec::new(),
            target_distance,
            padded_width: self.padded_width,
            padded_height: self.padded_height,
        };
        proof {
            assert forall|run: Run| #[trigger]
                grids_hold_means(run, old(enc)@, enc@, plan) by {
                if run.ready(old(enc)@, 3) {
                    law_grids_are_means_of_the_sharpened_planes(
                        run,
                        old(enc)@,
                        *self,
                        *planes,
                        afv,
                    );
                }
            }
        }
        plan
    }

    /// The scales of an encoding at one distance: the same for every block.
    pub fn scalar_aq_field(&self, distance: Float32) -> (r: Vec<Float32>)
        ensures
            r@ == uniform(qac_of_distance(distance), self.num_blocks as nat),
    {
        uniform_field(distance_to_qac(distance), self.num_blocks)
    }

    /// Makes the planes that the blocks of an image are reconstructed in.
    pub fn reconstruction_planes(&self, enc: &mut GpuEncoder) -> (r: Planes)
        requires
            old(enc)@.wf(),
            self.countable(),
        ensures
            (final(enc)@, r) == reconstruction_planes_steps(old(enc)@, *self),
            final(enc)@.wf(),
            old(enc)@.grows_into(final(enc)@),
            self.holds_planes(final(enc)@, r),
    {
        proof {
            reveal(reconstruction_planes_steps);
        }
        let w: u32 = self.padded_width;
        let h: u32 = self.padded_height;
        let x: GpuPlane = enc.alloc_plane_uninit(w, h);
        let y: GpuPlane = enc.alloc_plane_uninit(w, h);
        let b: GpuPlane = enc.alloc_plane_uninit(w, h);
        (x, y, b)
    }

    fn smooth_together(
        &self,
        enc: &mut GpuEncoder,
        p: &Planes,
        f: &FilterParameters,
        smooth: bool,
    ) -> (r: Planes)
        requires
            old(enc)@.wf(),
            self.countable(),
            self.holds_planes(old(enc)@, *p),
        ensures
            (final(enc)@, r) == smoothed_together_steps(old(enc)@, *p, *f, smooth),
            final(enc)@.wf(),
            old(enc)@.grows_into(final(enc)@),
            self.holds_planes(final(enc)@, r),
    {
        proof {
            reveal(smoothed_together_steps);
        }
        if smooth {
            enc.gab_smooth_3ch_persistent(&p.0, &p.1, &p.2, f.gab_center, f.gab_1, f.gab_2)
        } else {
            *p
        }
    }

    /// Records what follows the reconstruction of an image by a plan, and
    /// returns the planes of linear light. `recon` holds the reconstruction,
    /// `inv_sigma` the strength of the edge-preserving filter for each block.
    pub fn encode_with_strategy_plan_adaptive_persistent(
        &self,
        enc: &mut GpuEncoder,
        plan: &StrategySearchPlan,
        recon: &Planes,
        f: &FilterParameters,
        inv_sigma: &[Float32],
    ) -> (rgb: Planes)
        requires
            old(enc)@.wf(),
            self.wf(),
            self.countable(),
            self.holds_planes(old(enc)@, *recon),
            inv_sigma@.len() == self.num_blocks,
        ensures
            (final(enc)@, rgb) == after_plan_steps(
                old(enc)@,
                *self,
                *recon,
                plan.target_distance,
                *f,
                inv_sigma@,
            ),
            final(enc)@.wf(),
            old(enc)@.grows_into(final(enc)@),
            self.holds_planes(final(enc)@, rgb),
    {
        let p: Planes = self.smooth_together(enc, recon, f, gaborish_at(plan.target_distance));
        self.restore(enc, &p, f, inv_sigma)
    }

    /// Records what follows the reconstruction of an image by a plan, and the
    /// reading back of the planes that come out.
    pub fn encode_with_strategy_plan_adaptive(
        &self,
        enc: &mut GpuEncoder,
        plan: &StrategySearchPlan,
        recon: &Planes,
        f: &FilterParameters,
        inv_sigma: &[Float32],
    ) -> (rgb: Planes)
        requires
            old(enc)@.wf(),
            self.wf(),
            self.countable(),
            self.holds_planes(old(enc)@, *recon),
            inv_sigma@.len() == self.num_blocks,
        ensures
            ({
                let (s1, out) = after_plan_steps(
                    old(enc)@,
                    *self,
                    *recon,
                    plan.target_distance,
                    *f,
                    inv_sigma@,
                );
                &&& rgb == out
                &&& final(enc)@ == s1.read(seq![out.0.handle, out.1.handle, out.2.handle])
            }),
            final(enc)@.wf(),
            old(enc)@.grows_into(final(enc)@),
            self.holds_planes(final(enc)@, rgb),
    {
        let rgb: Planes = self.encode_with_strategy_plan_adaptive_persistent(
            enc,
            plan,
            recon,
            f,
            inv_sigma,
        );
        enc.download_planes_3ch(&rgb.0, &rgb.1, &rgb.2);
        rgb
    }
}

} // verus!
