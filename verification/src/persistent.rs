//! Planes and blocks on the device, and the operations on them.
//!
//! Every operation records its uploads, its allocations and its kernel launch
//! with a [`GpuEncoder`] and returns the handles of what the launch writes.

use crate::device::{area, array_fits, GpuEncoder, Handle, Launch, Recording};
use crate::float::Float32;
use crate::launch::aq_field::{block_mask_mean, block_mask_mean_launch};
use crate::launch::dc_grid::{dc_grid_8x8, dc_grid_8x8_launch};
use crate::launch::dc_restore::{restore_dc, restore_dc_launch};
use crate::launch::dct16::{
    dct_16x16, dct_16x16_launch, dct_16x8, dct_16x8_launch, dct_8x16, dct_8x16_launch, idct_16x16,
    idct_16x16_launch, idct_16x8, idct_16x8_launch, idct_8x16, idct_8x16_launch,
};
use crate::launch::dct2x2::{
    dct2x2_forward, dct2x2_forward_launch, dct2x2_inverse, dct2x2_inverse_launch,
};
use crate::launch::dct32::{
    dct_16x32, dct_16x32_launch, dct_32x16, dct_32x16_launch, dct_32x32, dct_32x32_launch,
    idct_16x32, idct_16x32_launch, idct_32x16, idct_32x16_launch, idct_32x32, idct_32x32_launch,
};
use crate::launch::dct4::{
    dct_4x4_full, dct_4x4_full_launch, dct_4x8_full, dct_4x8_full_launch, dct_8x4_full,
    dct_8x4_full_launch, idct_4x4_full, idct_4x4_full_launch, idct_4x8_full, idct_4x8_full_launch,
    idct_8x4_full, idct_8x4_full_launch,
};
use crate::launch::dct64::{
    dct_32x64, dct_32x64_launch, dct_64x32, dct_64x32_launch, dct_64x64, dct_64x64_launch,
    idct_32x64, idct_32x64_launch, idct_64x32, idct_64x32_launch, idct_64x64, idct_64x64_launch,
};
use crate::launch::dct8::{
    dct_8x8, dct_8x8_launch, dct_8x8_wide, dct_8x8_wide_launch, idct_8x8, idct_8x8_launch,
    idct_8x8_wide, idct_8x8_wide_launch,
};
use crate::launch::dequant::{
    dequant_dct8, dequant_dct8_broadcast_w, dequant_dct8_broadcast_w_launch, dequant_dct8_launch,
};
use crate::launch::dequant_simple::{
    dequant_strategy_broadcast_w, dequant_strategy_broadcast_w_dct8,
    dequant_strategy_broadcast_w_dct8_launch, dequant_strategy_broadcast_w_launch,
};
use crate::launch::entropy::{
    entropy_coeffs_pixel_broadcast_w, entropy_coeffs_pixel_broadcast_w_launch,
};
use crate::launch::epf::{
    epf_step1, epf_step1_launch, epf_step2, epf_step2_launch, pad_plane, pad_plane_launch,
};
use crate::launch::fused_dct_quant::{
    dct8_quantize_fused_wide, dct8_quantize_fused_wide_launch, dequant_idct8_fused_y_wide,
    dequant_idct8_fused_y_wide_launch,
};
use crate::launch::gab::{gab_smooth, gab_smooth_launch};
use crate::launch::gab_3ch::{gab_smooth_3ch, gab_smooth_3ch_launch};
use crate::launch::gaborish::{gaborish_5x5, gaborish_5x5_launch};
use crate::launch::gather::{
    gather_blocks, gather_blocks_launch, scatter_blocks, scatter_blocks_launch,
};
use crate::launch::histogram::{histogram_count_pow2, histogram_count_pow2_launch, is_power_of_two};
use crate::launch::identity::{
    identity_forward, identity_forward_launch, identity_inverse, identity_inverse_launch,
};
use crate::launch::indexed_gather::{indexed_gather, indexed_gather_launch};
use crate::launch::indexed_scatter::{indexed_scatter, indexed_scatter_launch};
use crate::launch::mask1x1::{mask1x1, mask1x1_launch};
use crate::launch::pixel_loss::{pixel_loss, pixel_loss_launch};
use crate::launch::quantize::{
    quantize_dct8, quantize_dct8_broadcast_w, quantize_dct8_broadcast_w_launch,
    quantize_dct8_launch, quantize_large_broadcast_w, quantize_large_broadcast_w_launch,
};
use crate::launch::set_dc::{set_dc_from_grid_indexed, set_dc_from_grid_indexed_launch};
use crate::launch::set_llf::{
    set_llf_dct16x16_indexed, set_llf_dct16x16_indexed_launch, set_llf_dct16x32_indexed,
    set_llf_dct16x32_indexed_launch, set_llf_dct16x8_or_8x16_indexed,
    set_llf_dct16x8_or_8x16_indexed_launch, set_llf_dct32x16_indexed,
    set_llf_dct32x16_indexed_launch, set_llf_dct32x32_indexed, set_llf_dct32x32_indexed_launch,
    set_llf_dct32x64_indexed, set_llf_dct32x64_indexed_launch, set_llf_dct64x32_indexed,
    set_llf_dct64x32_indexed_launch, set_llf_dct64x64_indexed, set_llf_dct64x64_indexed_launch,
};
use crate::launch::u8_rgb_prepare::{
    u8_rgb_to_linear_planar_padded, u8_rgb_to_linear_planar_padded_launch,
};
use crate::launch::xyb::{xyb_forward, xyb_forward_launch, xyb_inverse, xyb_inverse_launch};
use vstd::prelude::*;

verus! {

/// A plane of single precision numbers on the device.
#[derive(Clone, Copy, Debug, PartialEq, Eq, Structural)]
pub struct GpuPlane {
    pub handle: Handle,
    pub width: u32,
    pub height: u32,
}

impl GpuPlane {
    /// Whether the plane's buffer is among those recorded, and large enough.
    pub open spec fn lives_in(self, s: Recording) -> bool {
        s.holds(self.handle, self.width * self.height * 4)
    }

    pub fn width(&self) -> (r: u32)
        ensures
            r == self.width,
    {
        self.width
    }

    pub fn height(&self) -> (r: u32)
        ensures
            r == self.height,
    {
        self.height
    }

    /// The number of pixels.
    pub fn n_pixels(&self) -> (r: u64)
        ensures
            r == self.width * self.height,
    {
        area(self.width, self.height)
    }

    pub fn handle(&self) -> (r: Handle)
        ensures
            r == self.handle,
    {
        self.handle
    }
}

/// Blocks of single precision numbers on the device, one after the other.
#[derive(Clone, Copy, Debug, PartialEq, Eq, Structural)]
pub struct GpuBlocks {
    pub handle: Handle,
    pub num_blocks: u32,
    pub coeffs_per_block: u32,
}

impl GpuBlocks {
    /// Whether the blocks' buffer is among those recorded, and large enough.
    pub open spec fn lives_in(self, s: Recording) -> bool {
        s.holds(self.handle, self.num_blocks * self.coeffs_per_block * 4)
    }

    pub fn num_blocks(&self) -> (r: u32)
        ensures
            r == self.num_blocks,
    {
        self.num_blocks
    }

    pub fn coeffs_per_block(&self) -> (r: u32)
        ensures
            r == self.coeffs_per_block,
    {
        self.coeffs_per_block
    }

    /// The number of numbers in all blocks.
    pub fn total_floats(&self) -> (r: u64)
        ensures
            r == self.num_blocks * self.coeffs_per_block,
    {
        area(self.num_blocks, self.coeffs_per_block)
    }

    pub fn handle(&self) -> (r: Handle)
        ensures
            r == self.handle,
    {
        self.handle
    }

    /// Blocks that lie in a buffer already there.
    pub fn from_handle(handle: Handle, num_blocks: u32, coeffs_per_block: u32) -> (r: GpuBlocks)
        ensures
            r == (GpuBlocks { handle, num_blocks, coeffs_per_block }),
    {
        GpuBlocks { handle, num_blocks, coeffs_per_block }
    }
}

/// Blocks of 32-bit integers on the device, one after the other.
#[derive(Clone, Copy, Debug, PartialEq, Eq, Structural)]
pub struct GpuI32Blocks {
    pub handle: Handle,
    pub num_blocks: u32,
    pub coeffs_per_block: u32,
}

impl GpuI32Blocks {
    /// Whether the blocks' buffer is among those recorded, and large enough.
    pub open spec fn lives_in(self, s: Recording) -> bool {
        s.holds(self.handle, self.num_blocks * self.coeffs_per_block * 4)
    }

    pub fn num_blocks(&self) -> (r: u32)
        ensures
            r == self.num_blocks,
    {
        self.num_blocks
    }

    pub fn coeffs_per_block(&self) -> (r: u32)
        ensures
            r == self.coeffs_per_block,
    {
        self.coeffs_per_block
    }

    /// The number of integers in all blocks.
    pub fn total_ints(&self) -> (r: u64)
        ensures
            r == self.num_blocks * self.coeffs_per_block,
    {
        area(self.num_blocks, self.coeffs_per_block)
    }

    pub fn handle(&self) -> (r: Handle)
        ensures
            r == self.handle,
    {
        self.handle
    }
}

/// The weights of the sharpening filter: centre, beside, diagonal, two beside,
/// knight's move and two diagonal.
#[derive(Clone, Copy, Debug, PartialEq, Eq, Structural)]
pub struct GaborishWeights {
    pub wc: Float32,
    pub wr: Float32,
    pub wd: Float32,
    pub w_big_r: Float32,
    pub wl: Float32,
    pub w_big_d: Float32,
}

/// The bit patterns of numbers.
pub open spec fn bits_of(s: Seq<Float32>) -> Seq<u32> {
    Seq::new(s.len(), |i: int| s[i].bits)
}

/// The bit patterns of signed integers.
pub open spec fn int_bits_of(s: Seq<i32>) -> Seq<u32> {
    Seq::new(s.len(), |i: int| s[i] as u32)
}

/// Coordinates one after the other: column, row, column, row.
pub open spec fn flat_coords(s: Seq<(u32, u32)>) -> Seq<u32> {
    Seq::new(
        2 * s.len(),
        |i: int|
            if i % 2 == 0 {
                s[i / 2].0
            } else {
                s[i / 2].1
            },
    )
}

fn float_words(data: &[Float32]) -> (r: Vec<u32>)
    ensures
        r@ == bits_of(data@),
{
    let mut out: Vec<u32> = Vec::new();
    let mut i: usize = 0;
    while i < data.len()
        invariant
            i <= data@.len(),
            out@ =~= bits_of(data@).take(i as int),
        decreases data@.len() - i,
    {
        out.push(data[i].bits);
        i = i + 1;
    }
    assert(bits_of(data@).take(i as int) =~= bits_of(data@));
    out
}

fn four_float_words(data: &[Float32; 4]) -> (r: Vec<u32>)
    ensures
        r@ == bits_of(data@),
{
    let out: Vec<u32> = vec![data[0].bits, data[1].bits, data[2].bits, data[3].bits];
    assert(out@ =~= bits_of(data@));
    out
}

fn int_words(data: &[i32]) -> (r: Vec<u32>)
    ensures
        r@ == int_bits_of(data@),
{
    let mut out: Vec<u32> = Vec::new();
    let mut i: usize = 0;
    while i < data.len()
        invariant
            i <= data@.len(),
            out@ =~= int_bits_of(data@).take(i as int),
        decreases data@.len() - i,
    {
        out.push(data[i] as u32);
        i = i + 1;
    }
    assert(int_bits_of(data@).take(i as int) =~= int_bits_of(data@));
    out
}

fn copy_words(data: &[u32]) -> (r: Vec<u32>)
    ensures
        r@ == data@,
{
    let mut out: Vec<u32> = Vec::new();
    let mut i: usize = 0;
    while i < data.len()
        invariant
            i <= data@.len(),
            out@ =~= data@.take(i as int),
        decreases data@.len() - i,
    {
        out.push(data[i]);
        i = i + 1;
    }
    assert(data@.take(i as int) =~= data@);
    out
}

fn flatten_coords(coords: &[(u32, u32)]) -> (r: Vec<u32>)
    ensures
        r@ == flat_coords(coords@),
{
    let mut out: Vec<u32> = Vec::new();
    let ghost full = flat_coords(coords@);
    let mut i: usize = 0;
    while i < coords.len()
        invariant
            i <= coords@.len(),
            full == flat_coords(coords@),
            out@ =~= full.take(2 * i),
        decreases coords@.len() - i,
    {
        let c: (u32, u32) = coords[i];
        assert((2 * i) / 2 == i && (2 * i) % 2 == 0);
        assert((2 * i + 1) / 2 == i && (2 * i + 1) % 2 == 1);
        out.push(c.0);
        out.push(c.1);
        i = i + 1;
    }
    assert(full.take(2 * i) =~= full);
    out
}

/// The bias of channel X, 0.94534993, as a bit pattern.
pub const BIAS_X: u32 = 0x3f72_0274;

/// The bias of channel Y, 0.9299455, as a bit pattern.
pub const BIAS_Y: u32 = 0x3f6e_10e9;

/// The bias of channel B, 0.9500649, as a bit pattern.
pub const BIAS_B: u32 = 0x3f73_3774;

/// The bias of the channels X, Y and B, by their numbers.
pub open spec fn channel_bias_of(channel: int) -> Float32 {
    Float32 {
        bits: if channel == 0 {
            BIAS_X
        } else if channel == 1 {
            BIAS_Y
        } else {
            BIAS_B
        },
    }
}

fn channel_bias(channel: usize) -> (r: Float32)
    requires
        channel < 3,
    ensures
        r == channel_bias_of(channel as int),
{
    if channel == 0 {
        Float32::from_bits(BIAS_X)
    } else if channel == 1 {
        Float32::from_bits(BIAS_Y)
    } else {
        Float32::from_bits(BIAS_B)
    }
}

/// The low 32 bits of a number of pixels are no more than the number.
proof fn lemma_low_word(width: u32, height: u32)
    ensures
        (width * height) as u32 <= width * height,
{
    assert(0 <= width * height <= 0xffff_ffff * 0xffff_ffff) by (nonlinear_arith)
        requires
            width <= 0xffff_ffff,
            height <= 0xffff_ffff,
    ;
    let n: u64 = (width * height) as u64;
    assert(n as u32 <= n) by (bit_vector);
}

/// The numbers of `n` blocks, counted in two ways.
proof fn lemma_block_area(n: u32, w: u32, h: u32)
    ensures
        n * (w * h) == n * w * h,
        n * w >= 0,
        w * h >= 0,
{
    assert(n * (w * h) == n * w * h) by (nonlinear_arith);
    assert(n * w >= 0 && w * h >= 0) by (nonlinear_arith);
}

/// Blocks that divide a plane hold as many numbers as the plane.
proof fn lemma_tiles_fill(width: u32, height: u32, tile_w: u32, tile_h: u32)
    requires
        tile_w > 0,
        tile_h > 0,
        width % tile_w == 0,
        height % tile_h == 0,
    ensures
        ((width / tile_w) * (height / tile_h)) * (tile_w * tile_h) == width * height,
{
    let a = width / tile_w;
    let b = height / tile_h;
    vstd::arithmetic::div_mod::lemma_fundamental_div_mod(width as int, tile_w as int);
    vstd::arithmetic::div_mod::lemma_fundamental_div_mod(height as int, tile_h as int);
    assert((a * b) * (tile_w * tile_h) == width * height) by (nonlinear_arith)
        requires
            width == tile_w * a,
            height == tile_h * b,
    ;
}

/// What [`GpuEncoder::xyb_from_linear_rgb_persistent`] records and returns.
#[verifier::opaque]
pub open spec fn xyb_from_linear_rgb_persistent_steps(
    s0: Recording,
    red: GpuPlane,
    green: GpuPlane,
    blue: GpuPlane,
) -> (Recording, (GpuPlane, GpuPlane, GpuPlane)) {
    let h_x = s0.next();
    let s1 = s0.empty(red.width * red.height * 4);
    let h_y = s1.next();
    let s2 = s1.empty(red.width * red.height * 4);
    let h_b = s2.next();
    let s3 = s2.empty(red.width * red.height * 4);
    let s4 = s3.launch(
        xyb_forward_launch(
            red.handle,
            green.handle,
            blue.handle,
            h_x,
            h_y,
            h_b,
            (red.width * red.height) as u32,
        ),
    );
    (s4, (
        GpuPlane { handle: h_x, width: red.width, height: red.height },
        GpuPlane { handle: h_y, width: red.width, height: red.height },
        GpuPlane { handle: h_b, width: red.width, height: red.height },
    ))
}

/// What [`GpuEncoder::xyb_to_linear_rgb_planar_persistent`] records and returns.
#[verifier::opaque]
pub open spec fn xyb_to_linear_rgb_planar_persistent_steps(
    s0: Recording,
    x: GpuPlane,
    y: GpuPlane,
    b: GpuPlane,
) -> (Recording, (GpuPlane, GpuPlane, GpuPlane)) {
    let h_r = s0.next();
    let s1 = s0.empty(x.width * x.height * 4);
    let h_g = s1.next();
    let s2 = s1.empty(x.width * x.height * 4);
    let h_b = s2.next();
    let s3 = s2.empty(x.width * x.height * 4);
    let s4 = s3.launch(
        xyb_inverse_launch(
            x.handle,
            y.handle,
            b.handle,
            h_r,
            h_g,
            h_b,
            (x.width * x.height) as u32,
        ),
    );
    (s4, (
        GpuPlane { handle: h_r, width: x.width, height: x.height },
        GpuPlane { handle: h_g, width: x.width, height: x.height },
        GpuPlane { handle: h_b, width: x.width, height: x.height },
    ))
}

/// What [`GpuEncoder::gaborish_5x5_persistent`] records and returns.
#[verifier::opaque]
pub open spec fn gaborish_5x5_persistent_steps(
    s0: Recording,
    plane: GpuPlane,
    weights: GaborishWeights,
) -> (Recording, GpuPlane) {
    let h_out = s0.next();
    let s1 = s0.empty(plane.width * plane.height * 4);
    let s2 = s1.launch(
        gaborish_5x5_launch(
            plane.handle,
            h_out,
            plane.width,
            plane.height,
            weights.wc,
            weights.wr,
            weights.wd,
            weights.w_big_r,
            weights.wl,
            weights.w_big_d,
        ),
    );
    (s2, GpuPlane { handle: h_out, width: plane.width, height: plane.height })
}

/// What [`GpuEncoder::gab_smooth_persistent`] records and returns.
#[verifier::opaque]
pub open spec fn gab_smooth_persistent_steps(
    s0: Recording,
    plane: GpuPlane,
    w_center: Float32,
    w1: Float32,
    w2: Float32,
) -> (Recording, GpuPlane) {
    let h_out = s0.next();
    let s1 = s0.empty(plane.width * plane.height * 4);
    let s2 = s1.launch(
        gab_smooth_launch(plane.handle, h_out, plane.width, plane.height, w_center, w1, w2),
    );
    (s2, GpuPlane { handle: h_out, width: plane.width, height: plane.height })
}

/// What [`GpuEncoder::gab_smooth_3ch_persistent`] records and returns.
#[verifier::opaque]
pub open spec fn gab_smooth_3ch_persistent_steps(
    s0: Recording,
    x: GpuPlane,
    y: GpuPlane,
    b: GpuPlane,
    w_center: Float32,
    w1: Float32,
    w2: Float32,
) -> (Recording, (GpuPlane, GpuPlane, GpuPlane)) {
    let h_x = s0.next();
    let s1 = s0.empty(x.width * x.height * 4);
    let h_y = s1.next();
    let s2 = s1.empty(x.width * x.height * 4);
    let h_b = s2.next();
    let s3 = s2.empty(x.width * x.height * 4);
    let s4 = s3.launch(
        gab_smooth_3ch_launch(
            x.handle,
            y.handle,
            b.handle,
            h_x,
            h_y,
            h_b,
            x.width,
            x.height,
            w_center,
            w1,
            w2,
        ),
    );
    (s4, (
        GpuPlane { handle: h_x, width: x.width, height: x.height },
        GpuPlane { handle: h_y, width: x.width, height: x.height },
        GpuPlane { handle: h_b, width: x.width, height: x.height },
    ))
}

/// What [`GpuEncoder::pad_plane_persistent`] records and returns.
#[verifier::opaque]
pub open spec fn pad_plane_persistent_steps(
    s0: Recording,
    plane: GpuPlane,
    pad: u32,
) -> (Recording, GpuPlane) {
    let h_out = s0.next();
    let s1 = s0.empty((plane.width + 2 * pad) * (plane.height + 2 * pad) * 4);
    let s2 = s1.launch(pad_plane_launch(plane.handle, h_out, plane.width, plane.height, pad));
    (
        s2,
        GpuPlane {
            handle: h_out,
            width: (plane.width + 2 * pad) as u32,
            height: (plane.height + 2 * pad) as u32,
        },
    )
}

/// What [`GpuEncoder::epf_step1_persistent`] records and returns.
#[verifier::opaque]
pub open spec fn epf_step1_persistent_steps(
    s0: Recording,
    in_x: GpuPlane,
    in_y: GpuPlane,
    in_b: GpuPlane,
    inv_sigma: Handle,
    width: u32,
    height: u32,
    xsize_blocks: u32,
    ysize_blocks: u32,
    pad: u32,
    sigma_scale: Float32,
    border_sigma_mul: Float32,
) -> (Recording, (GpuPlane, GpuPlane, GpuPlane)) {
    let h_x = s0.next();
    let s1 = s0.empty(width * height * 4);
    let h_y = s1.next();
    let s2 = s1.empty(width * height * 4);
    let h_b = s2.next();
    let s3 = s2.empty(width * height * 4);
    let s4 = s3.launch(
        epf_step1_launch(
            in_x.handle,
            in_y.handle,
            in_b.handle,
            h_x,
            h_y,
            h_b,
            inv_sigma,
            width,
            height,
            xsize_blocks,
            ysize_blocks,
            pad,
            sigma_scale,
            border_sigma_mul,
        ),
    );
    (s4, (
        GpuPlane { handle: h_x, width: width, height: height },
        GpuPlane { handle: h_y, width: width, height: height },
        GpuPlane { handle: h_b, width: width, height: height },
    ))
}

/// What [`GpuEncoder::epf_step2_persistent`] records and returns.
#[verifier::opaque]
pub open spec fn epf_step2_persistent_steps(
    s0: Recording,
    in_x: GpuPlane,
    in_y: GpuPlane,
    in_b: GpuPlane,
    inv_sigma: Handle,
    width: u32,
    height: u32,
    xsize_blocks: u32,
    ysize_blocks: u32,
    pad: u32,
    sigma_scale: Float32,
    border_sigma_mul: Float32,
) -> (Recording, (GpuPlane, GpuPlane, GpuPlane)) {
    let h_x = s0.next();
    let s1 = s0.empty(width * height * 4);
    let h_y = s1.next();
    let s2 = s1.empty(width * height * 4);
    let h_b = s2.next();
    let s3 = s2.empty(width * height * 4);
    let s4 = s3.launch(
        epf_step2_launch(
            in_x.handle,
            in_y.handle,
            in_b.handle,
            h_x,
            h_y,
            h_b,
            inv_sigma,
            width,
            height,
            xsize_blocks,
            ysize_blocks,
            pad,
            sigma_scale,
            border_sigma_mul,
        ),
    );
    (s4, (
        GpuPlane { handle: h_x, width: width, height: height },
        GpuPlane { handle: h_y, width: width, height: height },
        GpuPlane { handle: h_b, width: width, height: height },
    ))
}

/// What [`GpuEncoder::upload_inv_sigma`] records and returns.
#[verifier::opaque]
pub open spec fn upload_inv_sigma_steps(
    s0: Recording,
    inv_sigma: Seq<Float32>,
) -> (Recording, Handle) {
    let handle = s0.next();
    let s1 = s0.create(bits_of(inv_sigma));
    (s1, handle)
}

/// What [`GpuEncoder::upload_plane`] records and returns.
#[verifier::opaque]
pub open spec fn upload_plane_steps(
    s0: Recording,
    data: Seq<Float32>,
    width: u32,
    height: u32,
) -> (Recording, GpuPlane) {
    let handle = s0.next();
    let s1 = s0.create(bits_of(data));
    (s1, GpuPlane { handle: handle, width: width, height: height })
}

/// What [`GpuEncoder::alloc_plane`] records and returns.
#[verifier::opaque]
pub open spec fn alloc_plane_steps(
    s0: Recording,
    width: u32,
    height: u32,
) -> (Recording, GpuPlane) {
    let handle = s0.next();
    let s1 = s0.fill(width * height, 0);
    (s1, GpuPlane { handle: handle, width: width, height: height })
}

/// What [`GpuEncoder::alloc_plane_uninit`] records and returns.
#[verifier::opaque]
pub open spec fn alloc_plane_uninit_steps(
    s0: Recording,
    width: u32,
    height: u32,
) -> (Recording, GpuPlane) {
    let handle = s0.next();
    let s1 = s0.empty(width * height * 4);
    (s1, GpuPlane { handle: handle, width: width, height: height })
}

/// What [`GpuEncoder::upload_planes_3ch`] records and returns.
#[verifier::opaque]
pub open spec fn upload_planes_3ch_steps(
    s0: Recording,
    x: Seq<Float32>,
    y: Seq<Float32>,
    b: Seq<Float32>,
    width: u32,
    height: u32,
) -> (Recording, (GpuPlane, GpuPlane, GpuPlane)) {
    let h_x = s0.next();
    let s1 = s0.create(bits_of(x));
    let h_y = s1.next();
    let s2 = s1.create(bits_of(y));
    let h_b = s2.next();
    let s3 = s2.create(bits_of(b));
    (s3, (
        GpuPlane { handle: h_x, width: width, height: height },
        GpuPlane { handle: h_y, width: width, height: height },
        GpuPlane { handle: h_b, width: width, height: height },
    ))
}

/// What [`GpuEncoder::upload_blocks`] records and returns.
#[verifier::opaque]
pub open spec fn upload_blocks_steps(
    s0: Recording,
    data: Seq<Float32>,
    num_blocks: u32,
    coeffs_per_block: u32,
) -> (Recording, GpuBlocks) {
    let handle = s0.next();
    let s1 = s0.create(bits_of(data));
    (s1, GpuBlocks { handle: handle, num_blocks: num_blocks, coeffs_per_block: coeffs_per_block })
}

/// What [`GpuEncoder::alloc_blocks`] records and returns.
#[verifier::opaque]
pub open spec fn alloc_blocks_steps(
    s0: Recording,
    num_blocks: u32,
    coeffs_per_block: u32,
) -> (Recording, GpuBlocks) {
    let handle = s0.next();
    let s1 = s0.fill(num_blocks * coeffs_per_block, 0);
    (s1, GpuBlocks { handle: handle, num_blocks: num_blocks, coeffs_per_block: coeffs_per_block })
}

/// What [`GpuEncoder::upload_i32_blocks`] records and returns.
#[verifier::opaque]
pub open spec fn upload_i32_blocks_steps(
    s0: Recording,
    data: Seq<i32>,
    num_blocks: u32,
    coeffs_per_block: u32,
) -> (Recording, GpuI32Blocks) {
    let handle = s0.next();
    let s1 = s0.create(int_bits_of(data));
    (
        s1,
        GpuI32Blocks { handle: handle, num_blocks: num_blocks, coeffs_per_block: coeffs_per_block },
    )
}

/// What [`GpuEncoder::alloc_i32_blocks`] records and returns.
#[verifier::opaque]
pub open spec fn alloc_i32_blocks_steps(
    s0: Recording,
    num_blocks: u32,
    coeffs_per_block: u32,
) -> (Recording, GpuI32Blocks) {
    let handle = s0.next();
    let s1 = s0.fill(num_blocks * coeffs_per_block, 0);
    (
        s1,
        GpuI32Blocks { handle: handle, num_blocks: num_blocks, coeffs_per_block: coeffs_per_block },
    )
}

/// What [`GpuEncoder::dct_8x8_persistent`] records and returns.
#[verifier::opaque]
pub open spec fn dct_8x8_persistent_steps(
    s0: Recording,
    blocks: GpuBlocks,
) -> (Recording, GpuBlocks) {
    let h_out = s0.next();
    let s1 = s0.empty(blocks.num_blocks * 64 * 4);
    let s2 = s1.launch(dct_8x8_launch(blocks.handle, h_out, blocks.num_blocks));
    (s2, GpuBlocks { handle: h_out, num_blocks: blocks.num_blocks, coeffs_per_block: 64 })
}

/// What [`GpuEncoder::idct_8x8_persistent`] records and returns.
#[verifier::opaque]
pub open spec fn idct_8x8_persistent_steps(
    s0: Recording,
    blocks: GpuBlocks,
) -> (Recording, GpuBlocks) {
    let h_out = s0.next();
    let s1 = s0.empty(blocks.num_blocks * 64 * 4);
    let s2 = s1.launch(idct_8x8_launch(blocks.handle, h_out, blocks.num_blocks));
    (s2, GpuBlocks { handle: h_out, num_blocks: blocks.num_blocks, coeffs_per_block: 64 })
}

/// What [`GpuEncoder::dct_8x8_wide_persistent`] records and returns.
#[verifier::opaque]
pub open spec fn dct_8x8_wide_persistent_steps(
    s0: Recording,
    blocks: GpuBlocks,
) -> (Recording, GpuBlocks) {
    let h_out = s0.next();
    let s1 = s0.empty(blocks.num_blocks * 64 * 4);
    let s2 = s1.launch(dct_8x8_wide_launch(blocks.handle, h_out, blocks.num_blocks));
    (s2, GpuBlocks { handle: h_out, num_blocks: blocks.num_blocks, coeffs_per_block: 64 })
}

/// What [`GpuEncoder::idct_8x8_wide_persistent`] records and returns.
#[verifier::opaque]
pub open spec fn idct_8x8_wide_persistent_steps(
    s0: Recording,
    blocks: GpuBlocks,
) -> (Recording, GpuBlocks) {
    let h_out = s0.next();
    let s1 = s0.empty(blocks.num_blocks * 64 * 4);
    let s2 = s1.launch(idct_8x8_wide_launch(blocks.handle, h_out, blocks.num_blocks));
    (s2, GpuBlocks { handle: h_out, num_blocks: blocks.num_blocks, coeffs_per_block: 64 })
}

/// What [`GpuEncoder::identity_persistent`] records and returns.
#[verifier::opaque]
pub open spec fn identity_persistent_steps(
    s0: Recording,
    blocks: GpuBlocks,
) -> (Recording, GpuBlocks) {
    let h_out = s0.next();
    let s1 = s0.empty(blocks.num_blocks * 64 * 4);
    let s2 = s1.launch(identity_forward_launch(blocks.handle, h_out, blocks.num_blocks));
    (s2, GpuBlocks { handle: h_out, num_blocks: blocks.num_blocks, coeffs_per_block: 64 })
}

/// What [`GpuEncoder::inverse_identity_persistent`] records and returns.
#[verifier::opaque]
pub open spec fn inverse_identity_persistent_steps(
    s0: Recording,
    blocks: GpuBlocks,
) -> (Recording, GpuBlocks) {
    let h_out = s0.next();
    let s1 = s0.empty(blocks.num_blocks * 64 * 4);
    let s2 = s1.launch(identity_inverse_launch(blocks.handle, h_out, blocks.num_blocks));
    (s2, GpuBlocks { handle: h_out, num_blocks: blocks.num_blocks, coeffs_per_block: 64 })
}

/// What [`GpuEncoder::dct2x2_persistent`] records and returns.
#[verifier::opaque]
pub open spec fn dct2x2_persistent_steps(
    s0: Recording,
    blocks: GpuBlocks,
) -> (Recording, GpuBlocks) {
    let h_out = s0.next();
    let s1 = s0.empty(blocks.num_blocks * 64 * 4);
    let s2 = s1.launch(dct2x2_forward_launch(blocks.handle, h_out, blocks.num_blocks));
    (s2, GpuBlocks { handle: h_out, num_blocks: blocks.num_blocks, coeffs_per_block: 64 })
}

/// What [`GpuEncoder::inverse_dct2x2_persistent`] records and returns.
#[verifier::opaque]
pub open spec fn inverse_dct2x2_persistent_steps(
    s0: Recording,
    blocks: GpuBlocks,
) -> (Recording, GpuBlocks) {
    let h_out = s0.next();
    let s1 = s0.empty(blocks.num_blocks * 64 * 4);
    let s2 = s1.launch(dct2x2_inverse_launch(blocks.handle, h_out, blocks.num_blocks));
    (s2, GpuBlocks { handle: h_out, num_blocks: blocks.num_blocks, coeffs_per_block: 64 })
}

/// What [`GpuEncoder::dct_4x4_persistent`] records and returns.
#[verifier::opaque]
pub open spec fn dct_4x4_persistent_steps(
    s0: Recording,
    blocks: GpuBlocks,
) -> (Recording, GpuBlocks) {
    let h_out = s0.next();
    let s1 = s0.empty(blocks.num_blocks * 64 * 4);
    let s2 = s1.launch(dct_4x4_full_launch(blocks.handle, h_out, blocks.num_blocks));
    (s2, GpuBlocks { handle: h_out, num_blocks: blocks.num_blocks, coeffs_per_block: 64 })
}

/// What [`GpuEncoder::idct_4x4_persistent`] records and returns.
#[verifier::opaque]
pub open spec fn idct_4x4_persistent_steps(
    s0: Recording,
    blocks: GpuBlocks,
) -> (Recording, GpuBlocks) {
    let h_out = s0.next();
    let s1 = s0.empty(blocks.num_blocks * 64 * 4);
    let s2 = s1.launch(idct_4x4_full_launch(blocks.handle, h_out, blocks.num_blocks));
    (s2, GpuBlocks { handle: h_out, num_blocks: blocks.num_blocks, coeffs_per_block: 64 })
}

/// What [`GpuEncoder::dct_4x8_persistent`] records and returns.
#[verifier::opaque]
pub open spec fn dct_4x8_persistent_steps(
    s0: Recording,
    blocks: GpuBlocks,
) -> (Recording, GpuBlocks) {
    let h_out = s0.next();
    let s1 = s0.empty(blocks.num_blocks * 64 * 4);
    let s2 = s1.launch(dct_4x8_full_launch(blocks.handle, h_out, blocks.num_blocks));
    (s2, GpuBlocks { handle: h_out, num_blocks: blocks.num_blocks, coeffs_per_block: 64 })
}

/// What [`GpuEncoder::idct_4x8_persistent`] records and returns.
#[verifier::opaque]
pub open spec fn idct_4x8_persistent_steps(
    s0: Recording,
    blocks: GpuBlocks,
) -> (Recording, GpuBlocks) {
    let h_out = s0.next();
    let s1 = s0.empty(blocks.num_blocks * 64 * 4);
    let s2 = s1.launch(idct_4x8_full_launch(blocks.handle, h_out, blocks.num_blocks));
    (s2, GpuBlocks { handle: h_out, num_blocks: blocks.num_blocks, coeffs_per_block: 64 })
}

/// What [`GpuEncoder::dct_8x4_persistent`] records and returns.
#[verifier::opaque]
pub open spec fn dct_8x4_persistent_steps(
    s0: Recording,
    blocks: GpuBlocks,
) -> (Recording, GpuBlocks) {
    let h_out = s0.next();
    let s1 = s0.empty(blocks.num_blocks * 64 * 4);
    let s2 = s1.launch(dct_8x4_full_launch(blocks.handle, h_out, blocks.num_blocks));
    (s2, GpuBlocks { handle: h_out, num_blocks: blocks.num_blocks, coeffs_per_block: 64 })
}

/// What [`GpuEncoder::idct_8x4_persistent`] records and returns.
#[verifier::opaque]
pub open spec fn idct_8x4_persistent_steps(
    s0: Recording,
    blocks: GpuBlocks,
) -> (Recording, GpuBlocks) {
    let h_out = s0.next();
    let s1 = s0.empty(blocks.num_blocks * 64 * 4);
    let s2 = s1.launch(idct_8x4_full_launch(blocks.handle, h_out, blocks.num_blocks));
    (s2, GpuBlocks { handle: h_out, num_blocks: blocks.num_blocks, coeffs_per_block: 64 })
}

/// What [`GpuEncoder::dct_16x8_persistent`] records and returns.
#[verifier::opaque]
pub open spec fn dct_16x8_persistent_steps(
    s0: Recording,
    blocks: GpuBlocks,
) -> (Recording, GpuBlocks) {
    let h_out = s0.next();
    let s1 = s0.empty(blocks.num_blocks * 128 * 4);
    let s2 = s1.launch(dct_16x8_launch(blocks.handle, h_out, blocks.num_blocks));
    (s2, GpuBlocks { handle: h_out, num_blocks: blocks.num_blocks, coeffs_per_block: 128 })
}

/// What [`GpuEncoder::idct_16x8_persistent`] records and returns.
#[verifier::opaque]
pub open spec fn idct_16x8_persistent_steps(
    s0: Recording,
    blocks: GpuBlocks,
) -> (Recording, GpuBlocks) {
    let h_out = s0.next();
    let s1 = s0.empty(blocks.num_blocks * 128 * 4);
    let s2 = s1.launch(idct_16x8_launch(blocks.handle, h_out, blocks.num_blocks));
    (s2, GpuBlocks { handle: h_out, num_blocks: blocks.num_blocks, coeffs_per_block: 128 })
}

/// What [`GpuEncoder::dct_8x16_persistent`] records and returns.
#[verifier::opaque]
pub open spec fn dct_8x16_persistent_steps(
    s0: Recording,
    blocks: GpuBlocks,
) -> (Recording, GpuBlocks) {
    let h_out = s0.next();
    let s1 = s0.empty(blocks.num_blocks * 128 * 4);
    let s2 = s1.launch(dct_8x16_launch(blocks.handle, h_out, blocks.num_blocks));
    (s2, GpuBlocks { handle: h_out, num_blocks: blocks.num_blocks, coeffs_per_block: 128 })
}

/// What [`GpuEncoder::idct_8x16_persistent`] records and returns.
#[verifier::opaque]
pub open spec fn idct_8x16_persistent_steps(
    s0: Recording,
    blocks: GpuBlocks,
) -> (Recording, GpuBlocks) {
    let h_out = s0.next();
    let s1 = s0.empty(blocks.num_blocks * 128 * 4);
    let s2 = s1.launch(idct_8x16_launch(blocks.handle, h_out, blocks.num_blocks));
    (s2, GpuBlocks { handle: h_out, num_blocks: blocks.num_blocks, coeffs_per_block: 128 })
}

/// What [`GpuEncoder::dct_16x16_persistent`] records and returns.
#[verifier::opaque]
pub open spec fn dct_16x16_persistent_steps(
    s0: Recording,
    blocks: GpuBlocks,
) -> (Recording, GpuBlocks) {
    let h_out = s0.next();
    let s1 = s0.empty(blocks.num_blocks * 256 * 4);
    let s2 = s1.launch(dct_16x16_launch(blocks.handle, h_out, blocks.num_blocks));
    (s2, GpuBlocks { handle: h_out, num_blocks: blocks.num_blocks, coeffs_per_block: 256 })
}

/// What [`GpuEncoder::idct_16x16_persistent`] records and returns.
#[verifier::opaque]
pub open spec fn idct_16x16_persistent_steps(
    s0: Recording,
    blocks: GpuBlocks,
) -> (Recording, GpuBlocks) {
    let h_out = s0.next();
    let s1 = s0.empty(blocks.num_blocks * 256 * 4);
    let s2 = s1.launch(idct_16x16_launch(blocks.handle, h_out, blocks.num_blocks));
    (s2, GpuBlocks { handle: h_out, num_blocks: blocks.num_blocks, coeffs_per_block: 256 })
}

/// What [`GpuEncoder::dct_32x16_persistent`] records and returns.
#[verifier::opaque]
pub open spec fn dct_32x16_persistent_steps(
    s0: Recording,
    blocks: GpuBlocks,
) -> (Recording, GpuBlocks) {
    let h_out = s0.next();
    let s1 = s0.empty(blocks.num_blocks * 512 * 4);
    let s2 = s1.launch(dct_32x16_launch(blocks.handle, h_out, blocks.num_blocks));
    (s2, GpuBlocks { handle: h_out, num_blocks: blocks.num_blocks, coeffs_per_block: 512 })
}

/// What [`GpuEncoder::idct_32x16_persistent`] records and returns.
#[verifier::opaque]
pub open spec fn idct_32x16_persistent_steps(
    s0: Recording,
    blocks: GpuBlocks,
) -> (Recording, GpuBlocks) {
    let h_out = s0.next();
    let s1 = s0.empty(blocks.num_blocks * 512 * 4);
    let s2 = s1.launch(idct_32x16_launch(blocks.handle, h_out, blocks.num_blocks));
    (s2, GpuBlocks { handle: h_out, num_blocks: blocks.num_blocks, coeffs_per_block: 512 })
}

/// What [`GpuEncoder::dct_16x32_persistent`] records and returns.
#[verifier::opaque]
pub open spec fn dct_16x32_persistent_steps(
    s0: Recording,
    blocks: GpuBlocks,
) -> (Recording, GpuBlocks) {
    let h_out = s0.next();
    let s1 = s0.empty(blocks.num_blocks * 512 * 4);
    let s2 = s1.launch(dct_16x32_launch(blocks.handle, h_out, blocks.num_blocks));
    (s2, GpuBlocks { handle: h_out, num_blocks: blocks.num_blocks, coeffs_per_block: 512 })
}

/// What [`GpuEncoder::idct_16x32_persistent`] records and returns.
#[verifier::opaque]
pub open spec fn idct_16x32_persistent_steps(
    s0: Recording,
    blocks: GpuBlocks,
) -> (Recording, GpuBlocks) {
    let h_out = s0.next();
    let s1 = s0.empty(blocks.num_blocks * 512 * 4);
    let s2 = s1.launch(idct_16x32_launch(blocks.handle, h_out, blocks.num_blocks));
    (s2, GpuBlocks { handle: h_out, num_blocks: blocks.num_blocks, coeffs_per_block: 512 })
}

/// What [`GpuEncoder::dct_32x32_persistent`] records and returns.
#[verifier::opaque]
pub open spec fn dct_32x32_persistent_steps(
    s0: Recording,
    blocks: GpuBlocks,
) -> (Recording, GpuBlocks) {
    let h_out = s0.next();
    let s1 = s0.empty(blocks.num_blocks * 1024 * 4);
    let s2 = s1.launch(dct_32x32_launch(blocks.handle, h_out, blocks.num_blocks));
    (s2, GpuBlocks { handle: h_out, num_blocks: blocks.num_blocks, coeffs_per_block: 1024 })
}

/// What [`GpuEncoder::idct_32x32_persistent`] records and returns.
#[verifier::opaque]
pub open spec fn idct_32x32_persistent_steps(
    s0: Recording,
    blocks: GpuBlocks,
) -> (Recording, GpuBlocks) {
    let h_out = s0.next();
    let s1 = s0.empty(blocks.num_blocks * 1024 * 4);
    let s2 = s1.launch(idct_32x32_launch(blocks.handle, h_out, blocks.num_blocks));
    (s2, GpuBlocks { handle: h_out, num_blocks: blocks.num_blocks, coeffs_per_block: 1024 })
}

/// What [`GpuEncoder::dct_64x32_persistent`] records and returns.
#[verifier::opaque]
pub open spec fn dct_64x32_persistent_steps(
    s0: Recording,
    blocks: GpuBlocks,
) -> (Recording, GpuBlocks) {
    let h_out = s0.next();
    let s1 = s0.empty(blocks.num_blocks * 2048 * 4);
    let s2 = s1.launch(dct_64x32_launch(blocks.handle, h_out, blocks.num_blocks));
    (s2, GpuBlocks { handle: h_out, num_blocks: blocks.num_blocks, coeffs_per_block: 2048 })
}

/// What [`GpuEncoder::idct_64x32_persistent`] records and returns.
#[verifier::opaque]
pub open spec fn idct_64x32_persistent_steps(
    s0: Recording,
    blocks: GpuBlocks,
) -> (Recording, GpuBlocks) {
    let h_out = s0.next();
    let s1 = s0.empty(blocks.num_blocks * 2048 * 4);
    let s2 = s1.launch(idct_64x32_launch(blocks.handle, h_out, blocks.num_blocks));
    (s2, GpuBlocks { handle: h_out, num_blocks: blocks.num_blocks, coeffs_per_block: 2048 })
}

/// What [`GpuEncoder::dct_32x64_persistent`] records and returns.
#[verifier::opaque]
pub open spec fn dct_32x64_persistent_steps(
    s0: Recording,
    blocks: GpuBlocks,
) -> (Recording, GpuBlocks) {
    let h_out = s0.next();
    let s1 = s0.empty(blocks.num_blocks * 2048 * 4);
    let s2 = s1.launch(dct_32x64_launch(blocks.handle, h_out, blocks.num_blocks));
    (s2, GpuBlocks { handle: h_out, num_blocks: blocks.num_blocks, coeffs_per_block: 2048 })
}

/// What [`GpuEncoder::idct_32x64_persistent`] records and returns.
#[verifier::opaque]
pub open spec fn idct_32x64_persistent_steps(
    s0: Recording,
    blocks: GpuBlocks,
) -> (Recording, GpuBlocks) {
    let h_out = s0.next();
    let s1 = s0.empty(blocks.num_blocks * 2048 * 4);
    let s2 = s1.launch(idct_32x64_launch(blocks.handle, h_out, blocks.num_blocks));
    (s2, GpuBlocks { handle: h_out, num_blocks: blocks.num_blocks, coeffs_per_block: 2048 })
}

/// What [`GpuEncoder::dct_64x64_persistent`] records and returns.
#[verifier::opaque]
pub open spec fn dct_64x64_persistent_steps(
    s0: Recording,
    blocks: GpuBlocks,
) -> (Recording, GpuBlocks) {
    let h_out = s0.next();
    let s1 = s0.empty(blocks.num_blocks * 4096 * 4);
    let s2 = s1.launch(dct_64x64_launch(blocks.handle, h_out, blocks.num_blocks));
    (s2, GpuBlocks { handle: h_out, num_blocks: blocks.num_blocks, coeffs_per_block: 4096 })
}

/// What [`GpuEncoder::idct_64x64_persistent`] records and returns.
#[verifier::opaque]
pub open spec fn idct_64x64_persistent_steps(
    s0: Recording,
    blocks: GpuBlocks,
) -> (Recording, GpuBlocks) {
    let h_out = s0.next();
    let s1 = s0.empty(blocks.num_blocks * 4096 * 4);
    let s2 = s1.launch(idct_64x64_launch(blocks.handle, h_out, blocks.num_blocks));
    (s2, GpuBlocks { handle: h_out, num_blocks: blocks.num_blocks, coeffs_per_block: 4096 })
}

/// What [`GpuEncoder::entropy_coeffs_pixel_blocks_broadcast_w_persistent`] records and returns.
#[verifier::opaque]
pub open spec fn entropy_coeffs_pixel_blocks_broadcast_w_persistent_steps(
    s0: Recording,
    block_c: GpuBlocks,
    block_y: GpuBlocks,
    weights_template: Seq<Float32>,
    inv_weights_template: Seq<Float32>,
    cmap_factor: Float32,
    quant: Float32,
    k_cost_delta: Float32,
) -> (Recording, (GpuBlocks, GpuBlocks)) {
    let h_w = s0.next();
    let s1 = s0.create(bits_of(weights_template));
    let h_iw = s1.next();
    let s2 = s1.create(bits_of(inv_weights_template));
    let h_err = s2.next();
    let s3 = s2.empty(block_c.num_blocks * block_c.coeffs_per_block * 4);
    let h_out = s3.next();
    let s4 = s3.empty(block_c.num_blocks * 4 * 4);
    let s5 = s4.launch(
        entropy_coeffs_pixel_broadcast_w_launch(
            block_c.handle,
            block_y.handle,
            h_w,
            h_iw,
            h_err,
            h_out,
            block_c.num_blocks,
            block_c.coeffs_per_block,
            cmap_factor,
            quant,
            k_cost_delta,
        ),
    );
    (s5, (
        GpuBlocks { handle: h_out, num_blocks: block_c.num_blocks, coeffs_per_block: 4 },
        GpuBlocks {
            handle: h_err,
            num_blocks: block_c.num_blocks,
            coeffs_per_block: block_c.coeffs_per_block,
        },
    ))
}

/// What [`GpuEncoder::pixel_loss_blocks_persistent`] records and returns.
#[verifier::opaque]
pub open spec fn pixel_loss_blocks_persistent_steps(
    s0: Recording,
    pixel_error: GpuBlocks,
    mask_plane: GpuPlane,
    mask_row_base: Seq<u32>,
    mask_offset: Float32,
    block_width: u32,
    block_height: u32,
) -> (Recording, GpuBlocks) {
    let h_mrb = s0.next();
    let s1 = s0.create(mask_row_base);
    let h_out = s1.next();
    let s2 = s1.empty(pixel_error.num_blocks * 8);
    let s3 = s2.launch(
        pixel_loss_launch(
            pixel_error.handle,
            mask_plane.handle,
            h_mrb,
            h_out,
            pixel_error.num_blocks,
            (mask_plane.width * mask_plane.height) as u64,
            mask_plane.width,
            mask_offset,
            block_width,
            block_height,
        ),
    );
    (s3, GpuBlocks { handle: h_out, num_blocks: pixel_error.num_blocks, coeffs_per_block: 1 })
}

/// What [`GpuEncoder::dct8_quantize_fused_persistent`] records and returns.
#[verifier::opaque]
pub open spec fn dct8_quantize_fused_persistent_steps(
    s0: Recording,
    pixels: GpuBlocks,
    weights: GpuBlocks,
    qac_qm: Seq<Float32>,
    thresholds: Seq<Float32>,
) -> (Recording, GpuI32Blocks) {
    let h_qac = s0.next();
    let s1 = s0.create(bits_of(qac_qm));
    let h_thr = s1.next();
    let s2 = s1.create(bits_of(thresholds));
    let h_out = s2.next();
    let s3 = s2.empty(pixels.num_blocks * 64 * 4);
    let s4 = s3.launch(
        dct8_quantize_fused_wide_launch(
            pixels.handle,
            weights.handle,
            h_qac,
            h_thr,
            h_out,
            pixels.num_blocks,
        ),
    );
    (s4, GpuI32Blocks { handle: h_out, num_blocks: pixels.num_blocks, coeffs_per_block: 64 })
}

/// What [`GpuEncoder::dequant_idct8_fused_y_persistent`] records and returns.
#[verifier::opaque]
pub open spec fn dequant_idct8_fused_y_persistent_steps(
    s0: Recording,
    quant: GpuI32Blocks,
    weights: GpuBlocks,
    qac_qm: Seq<Float32>,
) -> (Recording, GpuBlocks) {
    let h_qac = s0.next();
    let s1 = s0.create(bits_of(qac_qm));
    let h_out = s1.next();
    let s2 = s1.empty(quant.num_blocks * 64 * 4);
    let s3 = s2.launch(
        dequant_idct8_fused_y_wide_launch(
            quant.handle,
            weights.handle,
            h_qac,
            h_out,
            quant.num_blocks,
        ),
    );
    (s3, GpuBlocks { handle: h_out, num_blocks: quant.num_blocks, coeffs_per_block: 64 })
}

/// What [`GpuEncoder::quantize_dct8_persistent`] records and returns.
#[verifier::opaque]
pub open spec fn quantize_dct8_persistent_steps(
    s0: Recording,
    coeffs: GpuBlocks,
    weights: GpuBlocks,
    qac_qm: Seq<Float32>,
    thresholds: Seq<Float32>,
) -> (Recording, GpuI32Blocks) {
    let h_qac = s0.next();
    let s1 = s0.create(bits_of(qac_qm));
    let h_thr = s1.next();
    let s2 = s1.create(bits_of(thresholds));
    let h_out = s2.next();
    let s3 = s2.empty(coeffs.num_blocks * 64 * 4);
    let s4 = s3.launch(
        quantize_dct8_launch(coeffs.handle, weights.handle, h_qac, h_thr, h_out, coeffs.num_blocks),
    );
    (s4, GpuI32Blocks { handle: h_out, num_blocks: coeffs.num_blocks, coeffs_per_block: 64 })
}

/// What [`GpuEncoder::quantize_dct8_persistent_broadcast_w`] records and returns.
#[verifier::opaque]
pub open spec fn quantize_dct8_persistent_broadcast_w_steps(
    s0: Recording,
    coeffs: GpuBlocks,
    weights: GpuBlocks,
    qac_qm: Seq<Float32>,
    thresholds: Seq<Float32>,
) -> (Recording, GpuI32Blocks) {
    let h_qac = s0.next();
    let s1 = s0.create(bits_of(qac_qm));
    let h_thr = s1.next();
    let s2 = s1.create(bits_of(thresholds));
    let h_out = s2.next();
    let s3 = s2.empty(coeffs.num_blocks * 64 * 4);
    let s4 = s3.launch(
        quantize_dct8_broadcast_w_launch(
            coeffs.handle,
            weights.handle,
            h_qac,
            h_thr,
            h_out,
            coeffs.num_blocks,
        ),
    );
    (s4, GpuI32Blocks { handle: h_out, num_blocks: coeffs.num_blocks, coeffs_per_block: 64 })
}

/// What [`GpuEncoder::quantize_large_blocks_broadcast_w_persistent`] records and returns.
#[verifier::opaque]
pub open spec fn quantize_large_blocks_broadcast_w_persistent_steps(
    s0: Recording,
    coeffs: GpuBlocks,
    weights_template: Seq<Float32>,
    qac_qm: Seq<Float32>,
    thresholds: Seq<Float32>,
    grid_width: u32,
    grid_height: u32,
    llf_x: u32,
    llf_y: u32,
) -> (Recording, GpuI32Blocks) {
    let h_w = s0.next();
    let s1 = s0.create(bits_of(weights_template));
    let h_q = s1.next();
    let s2 = s1.create(bits_of(qac_qm));
    let h_t = s2.next();
    let s3 = s2.create(bits_of(thresholds));
    let h_o = s3.next();
    let s4 = s3.empty(coeffs.num_blocks * coeffs.coeffs_per_block * 4);
    let s5 = s4.launch(
        quantize_large_broadcast_w_launch(
            coeffs.handle,
            h_w,
            h_q,
            h_t,
            h_o,
            coeffs.num_blocks,
            grid_width,
            grid_height,
            llf_x,
            llf_y,
        ),
    );
    (
        s5,
        GpuI32Blocks {
            handle: h_o,
            num_blocks: coeffs.num_blocks,
            coeffs_per_block: coeffs.coeffs_per_block,
        },
    )
}

/// What [`GpuEncoder::dequant_strategy_persistent`] records and returns.
#[verifier::opaque]
pub open spec fn dequant_strategy_persistent_steps(
    s0: Recording,
    quant: GpuI32Blocks,
    weights_template: Seq<Float32>,
    qac_per_block: Seq<Float32>,
) -> (Recording, GpuBlocks) {
    let h_w = s0.next();
    let s1 = s0.create(bits_of(weights_template));
    let h_q = s1.next();
    let s2 = s1.create(bits_of(qac_per_block));
    let h_o = s2.next();
    let s3 = s2.empty(quant.num_blocks * quant.coeffs_per_block * 4);
    let s4 = s3.launch(
        dequant_strategy_broadcast_w_launch(
            quant.handle,
            h_w,
            h_q,
            h_o,
            quant.num_blocks,
            quant.coeffs_per_block,
        ),
    );
    (
        s4,
        GpuBlocks {
            handle: h_o,
            num_blocks: quant.num_blocks,
            coeffs_per_block: quant.coeffs_per_block,
        },
    )
}

/// What [`GpuEncoder::dequant_strategy_dct8_persistent`] records and returns.
#[verifier::opaque]
pub open spec fn dequant_strategy_dct8_persistent_steps(
    s0: Recording,
    quant: GpuI32Blocks,
    weights_template: Seq<Float32>,
    qac_per_block: Seq<Float32>,
    channel: usize,
) -> (Recording, GpuBlocks) {
    let h_w = s0.next();
    let s1 = s0.create(bits_of(weights_template));
    let h_q = s1.next();
    let s2 = s1.create(bits_of(qac_per_block));
    let h_o = s2.next();
    let s3 = s2.empty(quant.num_blocks * quant.coeffs_per_block * 4);
    let s4 = s3.launch(
        dequant_strategy_broadcast_w_dct8_launch(
            quant.handle,
            h_w,
            h_q,
            h_o,
            quant.num_blocks,
            quant.coeffs_per_block,
            channel_bias_of(channel as int),
        ),
    );
    (
        s4,
        GpuBlocks {
            handle: h_o,
            num_blocks: quant.num_blocks,
            coeffs_per_block: quant.coeffs_per_block,
        },
    )
}

/// What [`GpuEncoder::dequant_dct8_persistent`] records and returns.
#[verifier::opaque]
pub open spec fn dequant_dct8_persistent_steps(
    s0: Recording,
    quant_x: GpuI32Blocks,
    quant_y: GpuI32Blocks,
    quant_b: GpuI32Blocks,
    weights_x: GpuBlocks,
    weights_y: GpuBlocks,
    weights_b: GpuBlocks,
    qac_qm_x: Seq<Float32>,
    qac_qm_y: Seq<Float32>,
    qac_qm_b: Seq<Float32>,
    x_factor: Seq<Float32>,
    b_factor: Seq<Float32>,
) -> (Recording, (GpuBlocks, GpuBlocks, GpuBlocks)) {
    let h_qmx = s0.next();
    let s1 = s0.create(bits_of(qac_qm_x));
    let h_qmy = s1.next();
    let s2 = s1.create(bits_of(qac_qm_y));
    let h_qmb = s2.next();
    let s3 = s2.create(bits_of(qac_qm_b));
    let h_xf = s3.next();
    let s4 = s3.create(bits_of(x_factor));
    let h_bf = s4.next();
    let s5 = s4.create(bits_of(b_factor));
    let h_ox = s5.next();
    let s6 = s5.empty(quant_x.num_blocks * 64 * 4);
    let h_oy = s6.next();
    let s7 = s6.empty(quant_x.num_blocks * 64 * 4);
    let h_ob = s7.next();
    let s8 = s7.empty(quant_x.num_blocks * 64 * 4);
    let s9 = s8.launch(
        dequant_dct8_launch(
            quant_x.handle,
            quant_y.handle,
            quant_b.handle,
            weights_x.handle,
            weights_y.handle,
            weights_b.handle,
            h_qmx,
            h_qmy,
            h_qmb,
            h_xf,
            h_bf,
            h_ox,
            h_oy,
            h_ob,
            quant_x.num_blocks,
        ),
    );
    (s9, (
        GpuBlocks { handle: h_ox, num_blocks: quant_x.num_blocks, coeffs_per_block: 64 },
        GpuBlocks { handle: h_oy, num_blocks: quant_x.num_blocks, coeffs_per_block: 64 },
        GpuBlocks { handle: h_ob, num_blocks: quant_x.num_blocks, coeffs_per_block: 64 },
    ))
}

/// What [`GpuEncoder::dequant_dct8_persistent_broadcast_w`] records and returns.
#[verifier::opaque]
pub open spec fn dequant_dct8_persistent_broadcast_w_steps(
    s0: Recording,
    quant_x: GpuI32Blocks,
    quant_y: GpuI32Blocks,
    quant_b: GpuI32Blocks,
    weights_x: GpuBlocks,
    weights_y: GpuBlocks,
    weights_b: GpuBlocks,
    qac_qm_x: Seq<Float32>,
    qac_qm_y: Seq<Float32>,
    qac_qm_b: Seq<Float32>,
    x_factor: Seq<Float32>,
    b_factor: Seq<Float32>,
) -> (Recording, (GpuBlocks, GpuBlocks, GpuBlocks)) {
    let h_qmx = s0.next();
    let s1 = s0.create(bits_of(qac_qm_x));
    let h_qmy = s1.next();
    let s2 = s1.create(bits_of(qac_qm_y));
    let h_qmb = s2.next();
    let s3 = s2.create(bits_of(qac_qm_b));
    let h_xf = s3.next();
    let s4 = s3.create(bits_of(x_factor));
    let h_bf = s4.next();
    let s5 = s4.create(bits_of(b_factor));
    let h_ox = s5.next();
    let s6 = s5.empty(quant_x.num_blocks * 64 * 4);
    let h_oy = s6.next();
    let s7 = s6.empty(quant_x.num_blocks * 64 * 4);
    let h_ob = s7.next();
    let s8 = s7.empty(quant_x.num_blocks * 64 * 4);
    let s9 = s8.launch(
        dequant_dct8_broadcast_w_launch(
            quant_x.handle,
            quant_y.handle,
            quant_b.handle,
            weights_x.handle,
            weights_y.handle,
            weights_b.handle,
            h_qmx,
            h_qmy,
            h_qmb,
            h_xf,
            h_bf,
            h_ox,
            h_oy,
            h_ob,
            quant_x.num_blocks,
        ),
    );
    (s9, (
        GpuBlocks { handle: h_ox, num_blocks: quant_x.num_blocks, coeffs_per_block: 64 },
        GpuBlocks { handle: h_oy, num_blocks: quant_x.num_blocks, coeffs_per_block: 64 },
        GpuBlocks { handle: h_ob, num_blocks: quant_x.num_blocks, coeffs_per_block: 64 },
    ))
}

/// What [`GpuEncoder::gather_blocks_persistent`] records and returns.
#[verifier::opaque]
pub open spec fn gather_blocks_persistent_steps(
    s0: Recording,
    plane: GpuPlane,
    tile_w: u32,
    tile_h: u32,
) -> (Recording, GpuBlocks) {
    let h_out = s0.next();
    let s1 = s0.empty(((plane.width / tile_w) * (plane.height / tile_h)) * (tile_w * tile_h) * 4);
    let s2 = s1.launch(
        gather_blocks_launch(
            plane.handle,
            h_out,
            (plane.width * plane.height) as u64,
            (((plane.width / tile_w) * (plane.height / tile_h)) * (tile_w * tile_h)) as u64,
            plane.width,
            plane.width / tile_w,
            tile_w,
            tile_h,
        ),
    );
    (
        s2,
        GpuBlocks {
            handle: h_out,
            num_blocks: ((plane.width / tile_w) * (plane.height / tile_h)) as u32,
            coeffs_per_block: (tile_w * tile_h) as u32,
        },
    )
}

/// What [`GpuEncoder::scatter_blocks_persistent`] records and returns.
#[verifier::opaque]
pub open spec fn scatter_blocks_persistent_steps(
    s0: Recording,
    blocks: GpuBlocks,
    width: u32,
    height: u32,
    tile_w: u32,
    tile_h: u32,
) -> (Recording, GpuPlane) {
    let h_out = s0.next();
    let s1 = s0.empty(width * height * 4);
    let s2 = s1.launch(
        scatter_blocks_launch(
            blocks.handle,
            h_out,
            (blocks.num_blocks * blocks.coeffs_per_block) as u64,
            (width * height) as u64,
            width,
            width / tile_w,
            tile_w,
            tile_h,
        ),
    );
    (s2, GpuPlane { handle: h_out, width: width, height: height })
}

/// What [`GpuEncoder::restore_dc_persistent`] records and returns.
#[verifier::opaque]
pub open spec fn restore_dc_persistent_steps(
    s0: Recording,
    src: GpuBlocks,
    dst: GpuBlocks,
) -> Recording {
    let s1 = s0.launch(
        restore_dc_launch(src.handle, dst.handle, src.coeffs_per_block, src.num_blocks),
    );
    s1
}

/// What [`GpuEncoder::set_llf_dct64x64_indexed_persistent`] records and returns.
#[verifier::opaque]
pub open spec fn set_llf_dct64x64_indexed_persistent_steps(
    s0: Recording,
    dc_grid: GpuBlocks,
    coords: Seq<(u32, u32)>,
    dst: GpuBlocks,
    dc_stride: u32,
) -> Recording {
    let h_coords = s0.next();
    let s1 = s0.create(flat_coords(coords));
    let s2 = s1.launch(
        set_llf_dct64x64_indexed_launch(
            dc_grid.handle,
            h_coords,
            dst.handle,
            dc_grid.num_blocks as u64,
            (dst.num_blocks * dst.coeffs_per_block) as u64,
            dc_stride,
            dst.coeffs_per_block,
            dst.num_blocks,
        ),
    );
    s2
}

/// What [`GpuEncoder::set_llf_dct64x32_indexed_persistent`] records and returns.
#[verifier::opaque]
pub open spec fn set_llf_dct64x32_indexed_persistent_steps(
    s0: Recording,
    dc_grid: GpuBlocks,
    coords: Seq<(u32, u32)>,
    dst: GpuBlocks,
    dc_stride: u32,
) -> Recording {
    let h_coords = s0.next();
    let s1 = s0.create(flat_coords(coords));
    let s2 = s1.launch(
        set_llf_dct64x32_indexed_launch(
            dc_grid.handle,
            h_coords,
            dst.handle,
            dc_grid.num_blocks as u64,
            (dst.num_blocks * dst.coeffs_per_block) as u64,
            dc_stride,
            dst.coeffs_per_block,
            dst.num_blocks,
        ),
    );
    s2
}

/// What [`GpuEncoder::set_llf_dct32x64_indexed_persistent`] records and returns.
#[verifier::opaque]
pub open spec fn set_llf_dct32x64_indexed_persistent_steps(
    s0: Recording,
    dc_grid: GpuBlocks,
    coords: Seq<(u32, u32)>,
    dst: GpuBlocks,
    dc_stride: u32,
) -> Recording {
    let h_coords = s0.next();
    let s1 = s0.create(flat_coords(coords));
    let s2 = s1.launch(
        set_llf_dct32x64_indexed_launch(
            dc_grid.handle,
            h_coords,
            dst.handle,
            dc_grid.num_blocks as u64,
            (dst.num_blocks * dst.coeffs_per_block) as u64,
            dc_stride,
            dst.coeffs_per_block,
            dst.num_blocks,
        ),
    );
    s2
}

/// What [`GpuEncoder::set_llf_dct32x16_indexed_persistent`] records and returns.
#[verifier::opaque]
pub open spec fn set_llf_dct32x16_indexed_persistent_steps(
    s0: Recording,
    dc_grid: GpuBlocks,
    coords: Seq<(u32, u32)>,
    dst: GpuBlocks,
    dc_stride: u32,
) -> Recording {
    let h_coords = s0.next();
    let s1 = s0.create(flat_coords(coords));
    let s2 = s1.launch(
        set_llf_dct32x16_indexed_launch(
            dc_grid.handle,
            h_coords,
            dst.handle,
            dc_grid.num_blocks as u64,
            (dst.num_blocks * dst.coeffs_per_block) as u64,
            dc_stride,
            dst.coeffs_per_block,
            dst.num_blocks,
        ),
    );
    s2
}

/// What [`GpuEncoder::set_llf_dct16x32_indexed_persistent`] records and returns.
#[verifier::opaque]
pub open spec fn set_llf_dct16x32_indexed_persistent_steps(
    s0: Recording,
    dc_grid: GpuBlocks,
    coords: Seq<(u32, u32)>,
    dst: GpuBlocks,
    dc_stride: u32,
) -> Recording {
    let h_coords = s0.next();
    let s1 = s0.create(flat_coords(coords));
    let s2 = s1.launch(
        set_llf_dct16x32_indexed_launch(
            dc_grid.handle,
            h_coords,
            dst.handle,
            dc_grid.num_blocks as u64,
            (dst.num_blocks * dst.coeffs_per_block) as u64,
            dc_stride,
            dst.coeffs_per_block,
            dst.num_blocks,
        ),
    );
    s2
}

/// What [`GpuEncoder::set_llf_dct32x32_indexed_persistent`] records and returns.
#[verifier::opaque]
pub open spec fn set_llf_dct32x32_indexed_persistent_steps(
    s0: Recording,
    dc_grid: GpuBlocks,
    coords: Seq<(u32, u32)>,
    dst: GpuBlocks,
    dc_stride: u32,
) -> Recording {
    let h_coords = s0.next();
    let s1 = s0.create(flat_coords(coords));
    let s2 = s1.launch(
        set_llf_dct32x32_indexed_launch(
            dc_grid.handle,
            h_coords,
            dst.handle,
            dc_grid.num_blocks as u64,
            (dst.num_blocks * dst.coeffs_per_block) as u64,
            dc_stride,
            dst.coeffs_per_block,
            dst.num_blocks,
        ),
    );
    s2
}

/// What [`GpuEncoder::set_llf_dct16x16_indexed_persistent`] records and returns.
#[verifier::opaque]
pub open spec fn set_llf_dct16x16_indexed_persistent_steps(
    s0: Recording,
    dc_grid: GpuBlocks,
    coords: Seq<(u32, u32)>,
    dst: GpuBlocks,
    dc_stride: u32,
) -> Recording {
    let h_coords = s0.next();
    let s1 = s0.create(flat_coords(coords));
    let s2 = s1.launch(
        set_llf_dct16x16_indexed_launch(
            dc_grid.handle,
            h_coords,
            dst.handle,
            dc_grid.num_blocks as u64,
            (dst.num_blocks * dst.coeffs_per_block) as u64,
            dc_stride,
            dst.coeffs_per_block,
            dst.num_blocks,
        ),
    );
    s2
}

/// What [`GpuEncoder::set_llf_dct16x8_or_8x16_indexed_persistent`] records and returns.
#[verifier::opaque]
pub open spec fn set_llf_dct16x8_or_8x16_indexed_persistent_steps(
    s0: Recording,
    dc_grid: GpuBlocks,
    coords: Seq<(u32, u32)>,
    dst: GpuBlocks,
    dc_stride: u32,
    dc_step: u32,
) -> Recording {
    let h_coords = s0.next();
    let s1 = s0.create(flat_coords(coords));
    let s2 = s1.launch(
        set_llf_dct16x8_or_8x16_indexed_launch(
            dc_grid.handle,
            h_coords,
            dst.handle,
            dc_grid.num_blocks as u64,
            (dst.num_blocks * dst.coeffs_per_block) as u64,
            dc_stride,
            dc_step,
            dst.coeffs_per_block,
            dst.num_blocks,
        ),
    );
    s2
}

/// What [`GpuEncoder::set_dc_from_grid_indexed_persistent`] records and returns.
#[verifier::opaque]
pub open spec fn set_dc_from_grid_indexed_persistent_steps(
    s0: Recording,
    dc_grid: GpuBlocks,
    coords: Seq<(u32, u32)>,
    dst: GpuBlocks,
    dc_stride: u32,
) -> Recording {
    let h_coords = s0.next();
    let s1 = s0.create(flat_coords(coords));
    let s2 = s1.launch(
        set_dc_from_grid_indexed_launch(
            dc_grid.handle,
            h_coords,
            dst.handle,
            dc_grid.num_blocks as u64,
            (dst.num_blocks * dst.coeffs_per_block) as u64,
            dc_stride,
            dst.coeffs_per_block,
            dst.num_blocks,
        ),
    );
    s2
}

/// What [`GpuEncoder::indexed_gather_blocks_persistent`] records and returns.
#[verifier::opaque]
pub open spec fn indexed_gather_blocks_persistent_steps(
    s0: Recording,
    plane: GpuPlane,
    coords: Seq<(u32, u32)>,
    tile_w: u32,
    tile_h: u32,
) -> (Recording, GpuBlocks) {
    let h_coords = s0.next();
    let s1 = s0.create(flat_coords(coords));
    let h_out = s1.next();
    let s2 = s1.empty(coords.len() * tile_w * tile_h * 4);
    let s3 = s2.launch(
        indexed_gather_launch(
            plane.handle,
            h_coords,
            h_out,
            plane.width,
            (plane.width * plane.height) as u64,
            coords.len() as u32,
            tile_w,
            tile_h,
        ),
    );
    (
        s3,
        GpuBlocks {
            handle: h_out,
            num_blocks: coords.len() as u32,
            coeffs_per_block: (tile_w * tile_h) as u32,
        },
    )
}

/// What [`GpuEncoder::indexed_scatter_blocks_persistent`] records and returns.
#[verifier::opaque]
pub open spec fn indexed_scatter_blocks_persistent_steps(
    s0: Recording,
    blocks: GpuBlocks,
    coords: Seq<(u32, u32)>,
    plane: GpuPlane,
    tile_w: u32,
    tile_h: u32,
) -> Recording {
    let h_coords = s0.next();
    let s1 = s0.create(flat_coords(coords));
    let s2 = s1.launch(
        indexed_scatter_launch(
            blocks.handle,
            h_coords,
            plane.handle,
            plane.width,
            (plane.width * plane.height) as u64,
            blocks.num_blocks,
            tile_w,
            tile_h,
        ),
    );
    s2
}

/// What [`GpuEncoder::dc_grid_8x8_persistent`] records and returns.
#[verifier::opaque]
pub open spec fn dc_grid_8x8_persistent_steps(
    s0: Recording,
    plane: GpuPlane,
) -> (Recording, GpuBlocks) {
    let h_out = s0.next();
    let s1 = s0.empty((plane.width / 8) * (plane.height / 8) * 4);
    let s2 = s1.launch(dc_grid_8x8_launch(plane.handle, h_out, plane.width, plane.height));
    (
        s2,
        GpuBlocks {
            handle: h_out,
            num_blocks: ((plane.width / 8) * (plane.height / 8)) as u32,
            coeffs_per_block: 1,
        },
    )
}

/// What [`GpuEncoder::mask1x1_persistent`] records and returns.
#[verifier::opaque]
pub open spec fn mask1x1_persistent_steps(
    s0: Recording,
    y: GpuPlane,
) -> (Recording, GpuPlane) {
    let h_out = s0.next();
    let s1 = s0.empty(y.width * y.height * 4);
    let s2 = s1.launch(mask1x1_launch(y.handle, h_out, y.width, y.height));
    (s2, GpuPlane { handle: h_out, width: y.width, height: y.height })
}

impl GpuEncoder {
    /// Turns planes of linear light into XYB planes of the same size.
    pub fn xyb_from_linear_rgb_persistent(
        &mut self,
        red: &GpuPlane,
        green: &GpuPlane,
        blue: &GpuPlane,
    ) -> (r: (GpuPlane, GpuPlane, GpuPlane))
        requires
            old(self)@.wf(),
            red.lives_in(old(self)@),
            green.lives_in(old(self)@),
            blue.lives_in(old(self)@),
            green.width == red.width,
            green.height == red.height,
            blue.width == red.width,
            blue.height == red.height,
        ensures
            (final(self)@, r) == xyb_from_linear_rgb_persistent_steps(
                old(self)@,
                *red,
                *green,
                *blue,
            ),
            final(self)@.wf(),
            old(self)@.grows_into(final(self)@),
            r.0.lives_in(final(self)@),
            r.0.width == red.width,
            r.0.height == red.height,
            r.1.lives_in(final(self)@),
            r.1.width == red.width,
            r.1.height == red.height,
            r.2.lives_in(final(self)@),
            r.2.width == red.width,
            r.2.height == red.height,
    {
        proof {
            reveal(xyb_from_linear_rgb_persistent_steps);
            lemma_low_word(red.width, red.height);
        }
        let h_x: Handle = self.empty(area(red.width, red.height) * 4);
        let h_y: Handle = self.empty(area(red.width, red.height) * 4);
        let h_b: Handle = self.empty(area(red.width, red.height) * 4);
        let launch: Launch = xyb_forward(
            red.handle,
            green.handle,
            blue.handle,
            h_x,
            h_y,
            h_b,
            area(red.width, red.height) as u32,
        );
        proof {
            assert(array_fits(launch@.arrays[0], self@.buffers));
            assert(array_fits(launch@.arrays[1], self@.buffers));
            assert(array_fits(launch@.arrays[2], self@.buffers));
            assert(array_fits(launch@.arrays[3], self@.buffers));
            assert(array_fits(launch@.arrays[4], self@.buffers));
            assert(array_fits(launch@.arrays[5], self@.buffers));
        }
        self.launch(launch);
        (
            GpuPlane { handle: h_x, width: red.width, height: red.height },
            GpuPlane { handle: h_y, width: red.width, height: red.height },
            GpuPlane { handle: h_b, width: red.width, height: red.height },
        )
    }

    /// Turns XYB planes into planes of linear light of the size of the first.
    pub fn xyb_to_linear_rgb_planar_persistent(
        &mut self,
        x: &GpuPlane,
        y: &GpuPlane,
        b: &GpuPlane,
    ) -> (r: (GpuPlane, GpuPlane, GpuPlane))
        requires
            old(self)@.wf(),
            x.lives_in(old(self)@),
            y.lives_in(old(self)@),
            b.lives_in(old(self)@),
            y.width * y.height >= x.width * x.height,
            b.width * b.height >= x.width * x.height,
        ensures
            (final(self)@, r) == xyb_to_linear_rgb_planar_persistent_steps(
                old(self)@,
                *x,
                *y,
                *b,
            ),
            final(self)@.wf(),
            old(self)@.grows_into(final(self)@),
            r.0.lives_in(final(self)@),
            r.0.width == x.width,
            r.0.height == x.height,
            r.1.lives_in(final(self)@),
            r.1.width == x.width,
            r.1.height == x.height,
            r.2.lives_in(final(self)@),
            r.2.width == x.width,
            r.2.height == x.height,
    {
        proof {
            reveal(xyb_to_linear_rgb_planar_persistent_steps);
            lemma_low_word(x.width, x.height);
        }
        let h_r: Handle = self.empty(area(x.width, x.height) * 4);
        let h_g: Handle = self.empty(area(x.width, x.height) * 4);
        let h_b: Handle = self.empty(area(x.width, x.height) * 4);
        let launch: Launch = xyb_inverse(
            x.handle,
            y.handle,
            b.handle,
            h_r,
            h_g,
            h_b,
            area(x.width, x.height) as u32,
        );
        proof {
            assert(array_fits(launch@.arrays[0], self@.buffers));
            assert(array_fits(launch@.arrays[1], self@.buffers));
            assert(array_fits(launch@.arrays[2], self@.buffers));
            assert(array_fits(launch@.arrays[3], self@.buffers));
            assert(array_fits(launch@.arrays[4], self@.buffers));
            assert(array_fits(launch@.arrays[5], self@.buffers));
        }
        self.launch(launch);
        (
            GpuPlane { handle: h_r, width: x.width, height: x.height },
            GpuPlane { handle: h_g, width: x.width, height: x.height },
            GpuPlane { handle: h_b, width: x.width, height: x.height },
        )
    }

    /// Sharpens a plane.
    pub fn gaborish_5x5_persistent(
        &mut self,
        plane: &GpuPlane,
        weights: &GaborishWeights,
    ) -> (r: GpuPlane)
        requires
            old(self)@.wf(),
            plane.lives_in(old(self)@),
            plane.width * plane.height <= u32::MAX,
        ensures
            (final(self)@, r) == gaborish_5x5_persistent_steps(
                old(self)@,
                *plane,
                *weights,
            ),
            final(self)@.wf(),
            old(self)@.grows_into(final(self)@),
            r.lives_in(final(self)@),
            r.width == plane.width,
            r.height == plane.height,
    {
        proof {
            reveal(gaborish_5x5_persistent_steps);
        }
        let h_out: Handle = self.empty(area(plane.width, plane.height) * 4);
        let launch: Launch = gaborish_5x5(
            plane.handle,
            h_out,
            plane.width,
            plane.height,
            weights.wc,
            weights.wr,
            weights.wd,
            weights.w_big_r,
            weights.wl,
            weights.w_big_d,
        );
        proof {
            assert(array_fits(launch@.arrays[0], self@.buffers));
            assert(array_fits(launch@.arrays[1], self@.buffers));
        }
        self.launch(launch);
        GpuPlane { handle: h_out, width: plane.width, height: plane.height }
    }

    /// Smooths a plane.
    pub fn gab_smooth_persistent(
        &mut self,
        plane: &GpuPlane,
        w_center: Float32,
        w1: Float32,
        w2: Float32,
    ) -> (r: GpuPlane)
        requires
            old(self)@.wf(),
            plane.lives_in(old(self)@),
            plane.width * plane.height <= u32::MAX,
        ensures
            (final(self)@, r) == gab_smooth_persistent_steps(
                old(self)@,
                *plane,
                w_center,
                w1,
                w2,
            ),
            final(self)@.wf(),
            old(self)@.grows_into(final(self)@),
            r.lives_in(final(self)@),
            r.width == plane.width,
            r.height == plane.height,
    {
        proof {
            reveal(gab_smooth_persistent_steps);
        }
        let h_out: Handle = self.empty(area(plane.width, plane.height) * 4);
        let launch: Launch = gab_smooth(
            plane.handle,
            h_out,
            plane.width,
            plane.height,
            w_center,
            w1,
            w2,
        );
        proof {
            assert(array_fits(launch@.arrays[0], self@.buffers));
            assert(array_fits(launch@.arrays[1], self@.buffers));
        }
        self.launch(launch);
        GpuPlane { handle: h_out, width: plane.width, height: plane.height }
    }

    /// Smooths three planes of one size at once.
    pub fn gab_smooth_3ch_persistent(
        &mut self,
        x: &GpuPlane,
        y: &GpuPlane,
        b: &GpuPlane,
        w_center: Float32,
        w1: Float32,
        w2: Float32,
    ) -> (r: (GpuPlane, GpuPlane, GpuPlane))
        requires
            old(self)@.wf(),
            x.lives_in(old(self)@),
            y.lives_in(old(self)@),
            b.lives_in(old(self)@),
            x.width * x.height <= u32::MAX,
            y.width == x.width,
            y.height == x.height,
            b.width == x.width,
            b.height == x.height,
        ensures
            (final(self)@, r) == gab_smooth_3ch_persistent_steps(
                old(self)@,
                *x,
                *y,
                *b,
                w_center,
                w1,
                w2,
            ),
            final(self)@.wf(),
            old(self)@.grows_into(final(self)@),
            r.0.lives_in(final(self)@),
            r.0.width == x.width,
            r.0.height == x.height,
            r.1.lives_in(final(self)@),
            r.1.width == x.width,
            r.1.height == x.height,
            r.2.lives_in(final(self)@),
            r.2.width == x.width,
            r.2.height == x.height,
    {
        proof {
            reveal(gab_smooth_3ch_persistent_steps);
        }
        let h_x: Handle = self.empty(area(x.width, x.height) * 4);
        let h_y: Handle = self.empty(area(x.width, x.height) * 4);
        let h_b: Handle = self.empty(area(x.width, x.height) * 4);
        let launch: Launch = gab_smooth_3ch(
            x.handle,
            y.handle,
            b.handle,
            h_x,
            h_y,
            h_b,
            x.width,
            x.height,
            w_center,
            w1,
            w2,
        );
        proof {
            assert(array_fits(launch@.arrays[0], self@.buffers));
            assert(array_fits(launch@.arrays[1], self@.buffers));
            assert(array_fits(launch@.arrays[2], self@.buffers));
            assert(array_fits(launch@.arrays[3], self@.buffers));
            assert(array_fits(launch@.arrays[4], self@.buffers));
            assert(array_fits(launch@.arrays[5], self@.buffers));
        }
        self.launch(launch);
        (
            GpuPlane { handle: h_x, width: x.width, height: x.height },
            GpuPlane { handle: h_y, width: x.width, height: x.height },
            GpuPlane { handle: h_b, width: x.width, height: x.height },
        )
    }

    /// Pads a plane by `pad` pixels on every side.
    pub fn pad_plane_persistent(
        &mut self,
        plane: &GpuPlane,
        pad: u32,
    ) -> (r: GpuPlane)
        requires
            old(self)@.wf(),
            plane.lives_in(old(self)@),
            plane.width + 2 * pad <= u32::MAX,
            plane.height + 2 * pad <= u32::MAX,
            (plane.width + 2 * pad) * (plane.height + 2 * pad) * 4 <= u64::MAX,
        ensures
            (final(self)@, r) == pad_plane_persistent_steps(
                old(self)@,
                *plane,
                pad,
            ),
            final(self)@.wf(),
            old(self)@.grows_into(final(self)@),
            r.lives_in(final(self)@),
            r.width == (plane.width + 2 * pad),
            r.height == (plane.height + 2 * pad),
    {
        proof {
            reveal(pad_plane_persistent_steps);
        }
        let h_out: Handle = self.empty(area(plane.width + 2 * pad, plane.height + 2 * pad) * 4);
        let launch: Launch = pad_plane(plane.handle, h_out, plane.width, plane.height, pad);
        proof {
            assert(array_fits(launch@.arrays[0], self@.buffers));
            assert(array_fits(launch@.arrays[1], self@.buffers));
        }
        self.launch(launch);
        GpuPlane {
            handle: h_out,
            width: (plane.width + 2 * pad) as u32,
            height: (plane.height + 2 * pad) as u32,
        }
    }

    /// Runs one pass of the edge-preserving filter. The planes are `pad` pixels
    /// larger on every side than the `width` by `height` pixels that come out,
    /// and `inv_sigma` holds a number for each of `xsize_blocks` by
    /// `ysize_blocks` blocks.
    pub fn epf_step1_persistent(
        &mut self,
        in_x: &GpuPlane,
        in_y: &GpuPlane,
        in_b: &GpuPlane,
        inv_sigma: Handle,
        width: u32,
        height: u32,
        xsize_blocks: u32,
        ysize_blocks: u32,
        pad: u32,
        sigma_scale: Float32,
        border_sigma_mul: Float32,
    ) -> (r: (GpuPlane, GpuPlane, GpuPlane))
        requires
            old(self)@.wf(),
            in_x.lives_in(old(self)@),
            in_y.lives_in(old(self)@),
            in_b.lives_in(old(self)@),
            width + 2 * pad <= u32::MAX,
            height + 2 * pad <= u32::MAX,
            width * height * 4 <= u64::MAX,
            in_x.width * in_x.height >= (width + 2 * pad) * (height + 2 * pad),
            in_y.width * in_y.height >= (width + 2 * pad) * (height + 2 * pad),
            in_b.width * in_b.height >= (width + 2 * pad) * (height + 2 * pad),
            old(self)@.holds(inv_sigma, xsize_blocks * ysize_blocks * 4),
        ensures
            (final(self)@, r) == epf_step1_persistent_steps(
                old(self)@,
                *in_x,
                *in_y,
                *in_b,
                inv_sigma,
                width,
                height,
                xsize_blocks,
                ysize_blocks,
                pad,
                sigma_scale,
                border_sigma_mul,
            ),
            final(self)@.wf(),
            old(self)@.grows_into(final(self)@),
            r.0.lives_in(final(self)@),
            r.0.width == width,
            r.0.height == height,
            r.1.lives_in(final(self)@),
            r.1.width == width,
            r.1.height == height,
            r.2.lives_in(final(self)@),
            r.2.width == width,
            r.2.height == height,
    {
        proof {
            reveal(epf_step1_persistent_steps);
        }
        let h_x: Handle = self.empty(area(width, height) * 4);
        let h_y: Handle = self.empty(area(width, height) * 4);
        let h_b: Handle = self.empty(area(width, height) * 4);
        let launch: Launch = epf_step1(
            in_x.handle,
            in_y.handle,
            in_b.handle,
            h_x,
            h_y,
            h_b,
            inv_sigma,
            width,
            height,
            xsize_blocks,
            ysize_blocks,
            pad,
            sigma_scale,
            border_sigma_mul,
        );
        proof {
            assert(array_fits(launch@.arrays[0], self@.buffers));
            assert(array_fits(launch@.arrays[1], self@.buffers));
            assert(array_fits(launch@.arrays[2], self@.buffers));
            assert(array_fits(launch@.arrays[3], self@.buffers));
            assert(array_fits(launch@.arrays[4], self@.buffers));
            assert(array_fits(launch@.arrays[5], self@.buffers));
            assert(array_fits(launch@.arrays[6], self@.buffers));
        }
        self.launch(launch);
        (
            GpuPlane { handle: h_x, width: width, height: height },
            GpuPlane { handle: h_y, width: width, height: height },
            GpuPlane { handle: h_b, width: width, height: height },
        )
    }

    /// Runs one pass of the edge-preserving filter. The planes are `pad` pixels
    /// larger on every side than the `width` by `height` pixels that come out,
    /// and `inv_sigma` holds a number for each of `xsize_blocks` by
    /// `ysize_blocks` blocks.
    pub fn epf_step2_persistent(
        &mut self,
        in_x: &GpuPlane,
        in_y: &GpuPlane,
        in_b: &GpuPlane,
        inv_sigma: Handle,
        width: u32,
        height: u32,
        xsize_blocks: u32,
        ysize_blocks: u32,
        pad: u32,
        sigma_scale: Float32,
        border_sigma_mul: Float32,
    ) -> (r: (GpuPlane, GpuPlane, GpuPlane))
        requires
            old(self)@.wf(),
            in_x.lives_in(old(self)@),
            in_y.lives_in(old(self)@),
            in_b.lives_in(old(self)@),
            width + 2 * pad <= u32::MAX,
            height + 2 * pad <= u32::MAX,
            width * height * 4 <= u64::MAX,
            in_x.width * in_x.height >= (width + 2 * pad) * (height + 2 * pad),
            in_y.width * in_y.height >= (width + 2 * pad) * (height + 2 * pad),
            in_b.width * in_b.height >= (width + 2 * pad) * (height + 2 * pad),
            old(self)@.holds(inv_sigma, xsize_blocks * ysize_blocks * 4),
        ensures
            (final(self)@, r) == epf_step2_persistent_steps(
                old(self)@,
                *in_x,
                *in_y,
                *in_b,
                inv_sigma,
                width,
                height,
                xsize_blocks,
                ysize_blocks,
                pad,
                sigma_scale,
                border_sigma_mul,
            ),
            final(self)@.wf(),
            old(self)@.grows_into(final(self)@),
            r.0.lives_in(final(self)@),
            r.0.width == width,
            r.0.height == height,
            r.1.lives_in(final(self)@),
            r.1.width == width,
            r.1.height == height,
            r.2.lives_in(final(self)@),
            r.2.width == width,
            r.2.height == height,
    {
        proof {
            reveal(epf_step2_persistent_steps);
        }
        let h_x: Handle = self.empty(area(width, height) * 4);
        let h_y: Handle = self.empty(area(width, height) * 4);
        let h_b: Handle = self.empty(area(width, height) * 4);
        let launch: Launch = epf_step2(
            in_x.handle,
            in_y.handle,
            in_b.handle,
            h_x,
            h_y,
            h_b,
            inv_sigma,
            width,
            height,
            xsize_blocks,
            ysize_blocks,
            pad,
            sigma_scale,
            border_sigma_mul,
        );
        proof {
            assert(array_fits(launch@.arrays[0], self@.buffers));
            assert(array_fits(launch@.arrays[1], self@.buffers));
            assert(array_fits(launch@.arrays[2], self@.buffers));
            assert(array_fits(launch@.arrays[3], self@.buffers));
            assert(array_fits(launch@.arrays[4], self@.buffers));
            assert(array_fits(launch@.arrays[5], self@.buffers));
            assert(array_fits(launch@.arrays[6], self@.buffers));
        }
        self.launch(launch);
        (
            GpuPlane { handle: h_x, width: width, height: height },
            GpuPlane { handle: h_y, width: width, height: height },
            GpuPlane { handle: h_b, width: width, height: height },
        )
    }

    /// Puts the filter strengths of the blocks on the device.
    pub fn upload_inv_sigma(
        &mut self,
        inv_sigma: &[Float32],
    ) -> (r: Handle)
        requires
            old(self)@.wf(),
            inv_sigma@.len() * 4 <= u64::MAX,
        ensures
            (final(self)@, r) == upload_inv_sigma_steps(
                old(self)@,
                inv_sigma@,
            ),
            final(self)@.wf(),
            old(self)@.grows_into(final(self)@),
            final(self)@.holds(r, (inv_sigma@.len() as int) * 4),
    {
        proof {
            reveal(upload_inv_sigma_steps);
        }
        let handle: Handle = self.create(float_words(inv_sigma));
        handle
    }

    /// Puts a plane on the device.
    pub fn upload_plane(
        &mut self,
        data: &[Float32],
        width: u32,
        height: u32,
    ) -> (r: GpuPlane)
        requires
            old(self)@.wf(),
            data@.len() == width * height,
            width * height * 4 <= u64::MAX,
        ensures
            (final(self)@, r) == upload_plane_steps(
                old(self)@,
                data@,
                width,
                height,
            ),
            final(self)@.wf(),
            old(self)@.grows_into(final(self)@),
            r.lives_in(final(self)@),
            r.width == width,
            r.height == height,
    {
        proof {
            reveal(upload_plane_steps);
        }
        let handle: Handle = self.create(float_words(data));
        GpuPlane { handle: handle, width: width, height: height }
    }

    /// Makes a plane of zeros on the device.
    pub fn alloc_plane(
        &mut self,
        width: u32,
        height: u32,
    ) -> (r: GpuPlane)
        requires
            old(self)@.wf(),
            width * height * 4 <= u64::MAX,
        ensures
            (final(self)@, r) == alloc_plane_steps(
                old(self)@,
                width,
                height,
            ),
            final(self)@.wf(),
            old(self)@.grows_into(final(self)@),
            r.lives_in(final(self)@),
            r.width == width,
            r.height == height,
    {
        proof {
            reveal(alloc_plane_steps);
        }
        let handle: Handle = self.fill(area(width, height), 0);
        GpuPlane { handle: handle, width: width, height: height }
    }

    /// Makes a plane on the device, whatever it holds.
    pub fn alloc_plane_uninit(
        &mut self,
        width: u32,
        height: u32,
    ) -> (r: GpuPlane)
        requires
            old(self)@.wf(),
            width * height * 4 <= u64::MAX,
        ensures
            (final(self)@, r) == alloc_plane_uninit_steps(
                old(self)@,
                width,
                height,
            ),
            final(self)@.wf(),
            old(self)@.grows_into(final(self)@),
            r.lives_in(final(self)@),
            r.width == width,
            r.height == height,
    {
        proof {
            reveal(alloc_plane_uninit_steps);
        }
        let handle: Handle = self.empty(area(width, height) * 4);
        GpuPlane { handle: handle, width: width, height: height }
    }

    /// Puts three planes of one size on the device.
    pub fn upload_planes_3ch(
        &mut self,
        x: &[Float32],
        y: &[Float32],
        b: &[Float32],
        width: u32,
        height: u32,
    ) -> (r: (GpuPlane, GpuPlane, GpuPlane))
        requires
            old(self)@.wf(),
            x@.len() == width * height,
            y@.len() == width * height,
            b@.len() == width * height,
            width * height * 4 <= u64::MAX,
        ensures
            (final(self)@, r) == upload_planes_3ch_steps(
                old(self)@,
                x@,
                y@,
                b@,
                width,
                height,
            ),
            final(self)@.wf(),
            old(self)@.grows_into(final(self)@),
            r.0.lives_in(final(self)@),
            r.0.width == width,
            r.0.height == height,
            r.1.lives_in(final(self)@),
            r.1.width == width,
            r.1.height == height,
            r.2.lives_in(final(self)@),
            r.2.width == width,
            r.2.height == height,
    {
        proof {
            reveal(upload_planes_3ch_steps);
        }
        let h_x: Handle = self.create(float_words(x));
        let h_y: Handle = self.create(float_words(y));
        let h_b: Handle = self.create(float_words(b));
        (
            GpuPlane { handle: h_x, width: width, height: height },
            GpuPlane { handle: h_y, width: width, height: height },
            GpuPlane { handle: h_b, width: width, height: height },
        )
    }

    /// Puts blocks on the device.
    pub fn upload_blocks(
        &mut self,
        data: &[Float32],
        num_blocks: u32,
        coeffs_per_block: u32,
    ) -> (r: GpuBlocks)
        requires
            old(self)@.wf(),
            data@.len() == num_blocks * coeffs_per_block,
            num_blocks * coeffs_per_block * 4 <= u64::MAX,
        ensures
            (final(self)@, r) == upload_blocks_steps(
                old(self)@,
                data@,
                num_blocks,
                coeffs_per_block,
            ),
            final(self)@.wf(),
            old(self)@.grows_into(final(self)@),
            r.lives_in(final(self)@),
            r.num_blocks == num_blocks,
            r.coeffs_per_block == coeffs_per_block,
    {
        proof {
            reveal(upload_blocks_steps);
        }
        let handle: Handle = self.create(float_words(data));
        GpuBlocks { handle: handle, num_blocks: num_blocks, coeffs_per_block: coeffs_per_block }
    }

    /// Makes blocks of zeros on the device.
    pub fn alloc_blocks(
        &mut self,
        num_blocks: u32,
        coeffs_per_block: u32,
    ) -> (r: GpuBlocks)
        requires
            old(self)@.wf(),
            num_blocks * coeffs_per_block * 4 <= u64::MAX,
        ensures
            (final(self)@, r) == alloc_blocks_steps(
                old(self)@,
                num_blocks,
                coeffs_per_block,
            ),
            final(self)@.wf(),
            old(self)@.grows_into(final(self)@),
            r.lives_in(final(self)@),
            r.num_blocks == num_blocks,
            r.coeffs_per_block == coeffs_per_block,
    {
        proof {
            reveal(alloc_blocks_steps);
        }
        let handle: Handle = self.fill(area(num_blocks, coeffs_per_block), 0);
        GpuBlocks { handle: handle, num_blocks: num_blocks, coeffs_per_block: coeffs_per_block }
    }

    /// Puts blocks of integers on the device.
    pub fn upload_i32_blocks(
        &mut self,
        data: &[i32],
        num_blocks: u32,
        coeffs_per_block: u32,
    ) -> (r: GpuI32Blocks)
        requires
            old(self)@.wf(),
            data@.len() == num_blocks * coeffs_per_block,
            num_blocks * coeffs_per_block * 4 <= u64::MAX,
        ensures
            (final(self)@, r) == upload_i32_blocks_steps(
                old(self)@,
                data@,
                num_blocks,
                coeffs_per_block,
            ),
            final(self)@.wf(),
            old(self)@.grows_into(final(self)@),
            r.lives_in(final(self)@),
            r.num_blocks == num_blocks,
            r.coeffs_per_block == coeffs_per_block,
    {
        proof {
            reveal(upload_i32_blocks_steps);
        }
        let handle: Handle = self.create(int_words(data));
        GpuI32Blocks { handle: handle, num_blocks: num_blocks, coeffs_per_block: coeffs_per_block }
    }

    /// Makes blocks of integer zeros on the device.
    pub fn alloc_i32_blocks(
        &mut self,
        num_blocks: u32,
        coeffs_per_block: u32,
    ) -> (r: GpuI32Blocks)
        requires
            old(self)@.wf(),
            num_blocks * coeffs_per_block * 4 <= u64::MAX,
        ensures
            (final(self)@, r) == alloc_i32_blocks_steps(
                old(self)@,
                num_blocks,
                coeffs_per_block,
            ),
            final(self)@.wf(),
            old(self)@.grows_into(final(self)@),
            r.lives_in(final(self)@),
            r.num_blocks == num_blocks,
            r.coeffs_per_block == coeffs_per_block,
    {
        proof {
            reveal(alloc_i32_blocks_steps);
        }
        let handle: Handle = self.fill(area(num_blocks, coeffs_per_block), 0);
        GpuI32Blocks { handle: handle, num_blocks: num_blocks, coeffs_per_block: coeffs_per_block }
    }

    /// The forward DCT of 8x8 blocks.
    pub fn dct_8x8_persistent(
        &mut self,
        blocks: &GpuBlocks,
    ) -> (r: GpuBlocks)
        requires
            old(self)@.wf(),
            blocks.lives_in(old(self)@),
            blocks.coeffs_per_block == 64,
        ensures
            (final(self)@, r) == dct_8x8_persistent_steps(
                old(self)@,
                *blocks,
            ),
            final(self)@.wf(),
            old(self)@.grows_into(final(self)@),
            r.lives_in(final(self)@),
            r.num_blocks == blocks.num_blocks,
            r.coeffs_per_block == 64,
    {
        proof {
            reveal(dct_8x8_persistent_steps);
        }
        let h_out: Handle = self.empty(blocks.num_blocks as u64 * 64 * 4);
        let launch: Launch = dct_8x8(blocks.handle, h_out, blocks.num_blocks);
        proof {
            assert(array_fits(launch@.arrays[0], self@.buffers));
            assert(array_fits(launch@.arrays[1], self@.buffers));
        }
        self.launch(launch);
        GpuBlocks { handle: h_out, num_blocks: blocks.num_blocks, coeffs_per_block: 64 }
    }

    /// The inverse DCT of 8x8 blocks.
    pub fn idct_8x8_persistent(
        &mut self,
        blocks: &GpuBlocks,
    ) -> (r: GpuBlocks)
        requires
            old(self)@.wf(),
            blocks.lives_in(old(self)@),
            blocks.coeffs_per_block == 64,
        ensures
            (final(self)@, r) == idct_8x8_persistent_steps(
                old(self)@,
                *blocks,
            ),
            final(self)@.wf(),
            old(self)@.grows_into(final(self)@),
            r.lives_in(final(self)@),
            r.num_blocks == blocks.num_blocks,
            r.coeffs_per_block == 64,
    {
        proof {
            reveal(idct_8x8_persistent_steps);
        }
        let h_out: Handle = self.empty(blocks.num_blocks as u64 * 64 * 4);
        let launch: Launch = idct_8x8(blocks.handle, h_out, blocks.num_blocks);
        proof {
            assert(array_fits(launch@.arrays[0], self@.buffers));
            assert(array_fits(launch@.arrays[1], self@.buffers));
        }
        self.launch(launch);
        GpuBlocks { handle: h_out, num_blocks: blocks.num_blocks, coeffs_per_block: 64 }
    }

    /// The forward DCT of 8x8 blocks, sixty-four blocks to a cube.
    pub fn dct_8x8_wide_persistent(
        &mut self,
        blocks: &GpuBlocks,
    ) -> (r: GpuBlocks)
        requires
            old(self)@.wf(),
            blocks.lives_in(old(self)@),
            blocks.coeffs_per_block == 64,
        ensures
            (final(self)@, r) == dct_8x8_wide_persistent_steps(
                old(self)@,
                *blocks,
            ),
            final(self)@.wf(),
            old(self)@.grows_into(final(self)@),
            r.lives_in(final(self)@),
            r.num_blocks == blocks.num_blocks,
            r.coeffs_per_block == 64,
    {
        proof {
            reveal(dct_8x8_wide_persistent_steps);
        }
        let h_out: Handle = self.empty(blocks.num_blocks as u64 * 64 * 4);
        let launch: Launch = dct_8x8_wide(blocks.handle, h_out, blocks.num_blocks);
        proof {
            assert(array_fits(launch@.arrays[0], self@.buffers));
            assert(array_fits(launch@.arrays[1], self@.buffers));
        }
        self.launch(launch);
        GpuBlocks { handle: h_out, num_blocks: blocks.num_blocks, coeffs_per_block: 64 }
    }

    /// The inverse DCT of 8x8 blocks, sixty-four blocks to a cube.
    pub fn idct_8x8_wide_persistent(
        &mut self,
        blocks: &GpuBlocks,
    ) -> (r: GpuBlocks)
        requires
            old(self)@.wf(),
            blocks.lives_in(old(self)@),
            blocks.coeffs_per_block == 64,
        ensures
            (final(self)@, r) == idct_8x8_wide_persistent_steps(
                old(self)@,
                *blocks,
            ),
            final(self)@.wf(),
            old(self)@.grows_into(final(self)@),
            r.lives_in(final(self)@),
            r.num_blocks == blocks.num_blocks,
            r.coeffs_per_block == 64,
    {
        proof {
            reveal(idct_8x8_wide_persistent_steps);
        }
        let h_out: Handle = self.empty(blocks.num_blocks as u64 * 64 * 4);
        let launch: Launch = idct_8x8_wide(blocks.handle, h_out, blocks.num_blocks);
        proof {
            assert(array_fits(launch@.arrays[0], self@.buffers));
            assert(array_fits(launch@.arrays[1], self@.buffers));
        }
        self.launch(launch);
        GpuBlocks { handle: h_out, num_blocks: blocks.num_blocks, coeffs_per_block: 64 }
    }

    /// The forward identity transform of 8x8 blocks.
    pub fn identity_persistent(
        &mut self,
        blocks: &GpuBlocks,
    ) -> (r: GpuBlocks)
        requires
            old(self)@.wf(),
            blocks.lives_in(old(self)@),
            blocks.coeffs_per_block == 64,
        ensures
            (final(self)@, r) == identity_persistent_steps(
                old(self)@,
                *blocks,
            ),
            final(self)@.wf(),
            old(self)@.grows_into(final(self)@),
            r.lives_in(final(self)@),
            r.num_blocks == blocks.num_blocks,
            r.coeffs_per_block == 64,
    {
        proof {
            reveal(identity_persistent_steps);
        }
        let h_out: Handle = self.empty(blocks.num_blocks as u64 * 64 * 4);
        let launch: Launch = identity_forward(blocks.handle, h_out, blocks.num_blocks);
        proof {
            assert(array_fits(launch@.arrays[0], self@.buffers));
            assert(array_fits(launch@.arrays[1], self@.buffers));
        }
        self.launch(launch);
        GpuBlocks { handle: h_out, num_blocks: blocks.num_blocks, coeffs_per_block: 64 }
    }

    /// The inverse identity transform of 8x8 blocks.
    pub fn inverse_identity_persistent(
        &mut self,
        blocks: &GpuBlocks,
    ) -> (r: GpuBlocks)
        requires
            old(self)@.wf(),
            blocks.lives_in(old(self)@),
            blocks.coeffs_per_block == 64,
        ensures
            (final(self)@, r) == inverse_identity_persistent_steps(
                old(self)@,
                *blocks,
            ),
            final(self)@.wf(),
            old(self)@.grows_into(final(self)@),
            r.lives_in(final(self)@),
            r.num_blocks == blocks.num_blocks,
            r.coeffs_per_block == 64,
    {
        proof {
            reveal(inverse_identity_persistent_steps);
        }
        let h_out: Handle = self.empty(blocks.num_blocks as u64 * 64 * 4);
        let launch: Launch = identity_inverse(blocks.handle, h_out, blocks.num_blocks);
        proof {
            assert(array_fits(launch@.arrays[0], self@.buffers));
            assert(array_fits(launch@.arrays[1], self@.buffers));
        }
        self.launch(launch);
        GpuBlocks { handle: h_out, num_blocks: blocks.num_blocks, coeffs_per_block: 64 }
    }

    /// The forward DCT2x2 of 8x8 blocks.
    pub fn dct2x2_persistent(
        &mut self,
        blocks: &GpuBlocks,
    ) -> (r: GpuBlocks)
        requires
            old(self)@.wf(),
            blocks.lives_in(old(self)@),
            blocks.coeffs_per_block == 64,
        ensures
            (final(self)@, r) == dct2x2_persistent_steps(
                old(self)@,
                *blocks,
            ),
            final(self)@.wf(),
            old(self)@.grows_into(final(self)@),
            r.lives_in(final(self)@),
            r.num_blocks == blocks.num_blocks,
            r.coeffs_per_block == 64,
    {
        proof {
            reveal(dct2x2_persistent_steps);
        }
        let h_out: Handle = self.empty(blocks.num_blocks as u64 * 64 * 4);
        let launch: Launch = dct2x2_forward(blocks.handle, h_out, blocks.num_blocks);
        proof {
            assert(array_fits(launch@.arrays[0], self@.buffers));
            assert(array_fits(launch@.arrays[1], self@.buffers));
        }
        self.launch(launch);
        GpuBlocks { handle: h_out, num_blocks: blocks.num_blocks, coeffs_per_block: 64 }
    }

    /// The inverse DCT2x2 of 8x8 blocks.
    pub fn inverse_dct2x2_persistent(
        &mut self,
        blocks: &GpuBlocks,
    ) -> (r: GpuBlocks)
        requires
            old(self)@.wf(),
            blocks.lives_in(old(self)@),
            blocks.coeffs_per_block == 64,
        ensures
            (final(self)@, r) == inverse_dct2x2_persistent_steps(
                old(self)@,
                *blocks,
            ),
            final(self)@.wf(),
            old(self)@.grows_into(final(self)@),
            r.lives_in(final(self)@),
            r.num_blocks == blocks.num_blocks,
            r.coeffs_per_block == 64,
    {
        proof {
            reveal(inverse_dct2x2_persistent_steps);
        }
        let h_out: Handle = self.empty(blocks.num_blocks as u64 * 64 * 4);
        let launch: Launch = dct2x2_inverse(blocks.handle, h_out, blocks.num_blocks);
        proof {
            assert(array_fits(launch@.arrays[0], self@.buffers));
            assert(array_fits(launch@.arrays[1], self@.buffers));
        }
        self.launch(launch);
        GpuBlocks { handle: h_out, num_blocks: blocks.num_blocks, coeffs_per_block: 64 }
    }

    /// The forward DCT4x4 of 8x8 blocks.
    pub fn dct_4x4_persistent(
        &mut self,
        blocks: &GpuBlocks,
    ) -> (r: GpuBlocks)
        requires
            old(self)@.wf(),
            blocks.lives_in(old(self)@),
            blocks.coeffs_per_block == 64,
        ensures
            (final(self)@, r) == dct_4x4_persistent_steps(
                old(self)@,
                *blocks,
            ),
            final(self)@.wf(),
            old(self)@.grows_into(final(self)@),
            r.lives_in(final(self)@),
            r.num_blocks == blocks.num_blocks,
            r.coeffs_per_block == 64,
    {
        proof {
            reveal(dct_4x4_persistent_steps);
        }
        let h_out: Handle = self.empty(blocks.num_blocks as u64 * 64 * 4);
        let launch: Launch = dct_4x4_full(blocks.handle, h_out, blocks.num_blocks);
        proof {
            assert(array_fits(launch@.arrays[0], self@.buffers));
            assert(array_fits(launch@.arrays[1], self@.buffers));
        }
        self.launch(launch);
        GpuBlocks { handle: h_out, num_blocks: blocks.num_blocks, coeffs_per_block: 64 }
    }

    /// The inverse DCT4x4 of 8x8 blocks.
    pub fn idct_4x4_persistent(
        &mut self,
        blocks: &GpuBlocks,
    ) -> (r: GpuBlocks)
        requires
            old(self)@.wf(),
            blocks.lives_in(old(self)@),
            blocks.coeffs_per_block == 64,
        ensures
            (final(self)@, r) == idct_4x4_persistent_steps(
                old(self)@,
                *blocks,
            ),
            final(self)@.wf(),
            old(self)@.grows_into(final(self)@),
            r.lives_in(final(self)@),
            r.num_blocks == blocks.num_blocks,
            r.coeffs_per_block == 64,
    {
        proof {
            reveal(idct_4x4_persistent_steps);
        }
        let h_out: Handle = self.empty(blocks.num_blocks as u64 * 64 * 4);
        let launch: Launch = idct_4x4_full(blocks.handle, h_out, blocks.num_blocks);
        proof {
            assert(array_fits(launch@.arrays[0], self@.buffers));
            assert(array_fits(launch@.arrays[1], self@.buffers));
        }
        self.launch(launch);
        GpuBlocks { handle: h_out, num_blocks: blocks.num_blocks, coeffs_per_block: 64 }
    }

    /// The forward DCT4x8 of 8x8 blocks.
    pub fn dct_4x8_persistent(
        &mut self,
        blocks: &GpuBlocks,
    ) -> (r: GpuBlocks)
        requires
            old(self)@.wf(),
            blocks.lives_in(old(self)@),
            blocks.coeffs_per_block == 64,
        ensures
            (final(self)@, r) == dct_4x8_persistent_steps(
                old(self)@,
                *blocks,
            ),
            final(self)@.wf(),
            old(self)@.grows_into(final(self)@),
            r.lives_in(final(self)@),
            r.num_blocks == blocks.num_blocks,
            r.coeffs_per_block == 64,
    {
        proof {
            reveal(dct_4x8_persistent_steps);
        }
        let h_out: Handle = self.empty(blocks.num_blocks as u64 * 64 * 4);
        let launch: Launch = dct_4x8_full(blocks.handle, h_out, blocks.num_blocks);
        proof {
            assert(array_fits(launch@.arrays[0], self@.buffers));
            assert(array_fits(launch@.arrays[1], self@.buffers));
        }
        self.launch(launch);
        GpuBlocks { handle: h_out, num_blocks: blocks.num_blocks, coeffs_per_block: 64 }
    }

    /// The inverse DCT4x8 of 8x8 blocks.
    pub fn idct_4x8_persistent(
        &mut self,
        blocks: &GpuBlocks,
    ) -> (r: GpuBlocks)
        requires
            old(self)@.wf(),
            blocks.lives_in(old(self)@),
            blocks.coeffs_per_block == 64,
        ensures
            (final(self)@, r) == idct_4x8_persistent_steps(
                old(self)@,
                *blocks,
            ),
            final(self)@.wf(),
            old(self)@.grows_into(final(self)@),
            r.lives_in(final(self)@),
            r.num_blocks == blocks.num_blocks,
            r.coeffs_per_block == 64,
    {
        proof {
            reveal(idct_4x8_persistent_steps);
        }
        let h_out: Handle = self.empty(blocks.num_blocks as u64 * 64 * 4);
        let launch: Launch = idct_4x8_full(blocks.handle, h_out, blocks.num_blocks);
        proof {
            assert(array_fits(launch@.arrays[0], self@.buffers));
            assert(array_fits(launch@.arrays[1], self@.buffers));
        }
        self.launch(launch);
        GpuBlocks { handle: h_out, num_blocks: blocks.num_blocks, coeffs_per_block: 64 }
    }

    /// The forward DCT8x4 of 8x8 blocks.
    pub fn dct_8x4_persistent(
        &mut self,
        blocks: &GpuBlocks,
    ) -> (r: GpuBlocks)
        requires
            old(self)@.wf(),
            blocks.lives_in(old(self)@),
            blocks.coeffs_per_block == 64,
        ensures
            (final(self)@, r) == dct_8x4_persistent_steps(
                old(self)@,
                *blocks,
            ),
            final(self)@.wf(),
            old(self)@.grows_into(final(self)@),
            r.lives_in(final(self)@),
            r.num_blocks == blocks.num_blocks,
            r.coeffs_per_block == 64,
    {
        proof {
            reveal(dct_8x4_persistent_steps);
        }
        let h_out: Handle = self.empty(blocks.num_blocks as u64 * 64 * 4);
        let launch: Launch = dct_8x4_full(blocks.handle, h_out, blocks.num_blocks);
        proof {
            assert(array_fits(launch@.arrays[0], self@.buffers));
            assert(array_fits(launch@.arrays[1], self@.buffers));
        }
        self.launch(launch);
        GpuBlocks { handle: h_out, num_blocks: blocks.num_blocks, coeffs_per_block: 64 }
    }

    /// The inverse DCT8x4 of 8x8 blocks.
    pub fn idct_8x4_persistent(
        &mut self,
        blocks: &GpuBlocks,
    ) -> (r: GpuBlocks)
        requires
            old(self)@.wf(),
            blocks.lives_in(old(self)@),
            blocks.coeffs_per_block == 64,
        ensures
            (final(self)@, r) == idct_8x4_persistent_steps(
                old(self)@,
                *blocks,
            ),
            final(self)@.wf(),
            old(self)@.grows_into(final(self)@),
            r.lives_in(final(self)@),
            r.num_blocks == blocks.num_blocks,
            r.coeffs_per_block == 64,
    {
        proof {
            reveal(idct_8x4_persistent_steps);
        }
        let h_out: Handle = self.empty(blocks.num_blocks as u64 * 64 * 4);
        let launch: Launch = idct_8x4_full(blocks.handle, h_out, blocks.num_blocks);
        proof {
            assert(array_fits(launch@.arrays[0], self@.buffers));
            assert(array_fits(launch@.arrays[1], self@.buffers));
        }
        self.launch(launch);
        GpuBlocks { handle: h_out, num_blocks: blocks.num_blocks, coeffs_per_block: 64 }
    }

    /// The forward DCT of 16x8 blocks.
    pub fn dct_16x8_persistent(
        &mut self,
        blocks: &GpuBlocks,
    ) -> (r: GpuBlocks)
        requires
            old(self)@.wf(),
            blocks.lives_in(old(self)@),
            blocks.coeffs_per_block == 128,
        ensures
            (final(self)@, r) == dct_16x8_persistent_steps(
                old(self)@,
                *blocks,
            ),
            final(self)@.wf(),
            old(self)@.grows_into(final(self)@),
            r.lives_in(final(self)@),
            r.num_blocks == blocks.num_blocks,
            r.coeffs_per_block == 128,
    {
        proof {
            reveal(dct_16x8_persistent_steps);
        }
        let h_out: Handle = self.empty(blocks.num_blocks as u64 * 128 * 4);
        let launch: Launch = dct_16x8(blocks.handle, h_out, blocks.num_blocks);
        proof {
            assert(array_fits(launch@.arrays[0], self@.buffers));
            assert(array_fits(launch@.arrays[1], self@.buffers));
        }
        self.launch(launch);
        GpuBlocks { handle: h_out, num_blocks: blocks.num_blocks, coeffs_per_block: 128 }
    }

    /// The inverse DCT of 16x8 blocks.
    pub fn idct_16x8_persistent(
        &mut self,
        blocks: &GpuBlocks,
    ) -> (r: GpuBlocks)
        requires
            old(self)@.wf(),
            blocks.lives_in(old(self)@),
            blocks.coeffs_per_block == 128,
        ensures
            (final(self)@, r) == idct_16x8_persistent_steps(
                old(self)@,
                *blocks,
            ),
            final(self)@.wf(),
            old(self)@.grows_into(final(self)@),
            r.lives_in(final(self)@),
            r.num_blocks == blocks.num_blocks,
            r.coeffs_per_block == 128,
    {
        proof {
            reveal(idct_16x8_persistent_steps);
        }
        let h_out: Handle = self.empty(blocks.num_blocks as u64 * 128 * 4);
        let launch: Launch = idct_16x8(blocks.handle, h_out, blocks.num_blocks);
        proof {
            assert(array_fits(launch@.arrays[0], self@.buffers));
            assert(array_fits(launch@.arrays[1], self@.buffers));
        }
        self.launch(launch);
        GpuBlocks { handle: h_out, num_blocks: blocks.num_blocks, coeffs_per_block: 128 }
    }

    /// The forward DCT of 8x16 blocks.
    pub fn dct_8x16_persistent(
        &mut self,
        blocks: &GpuBlocks,
    ) -> (r: GpuBlocks)
        requires
            old(self)@.wf(),
            blocks.lives_in(old(self)@),
            blocks.coeffs_per_block == 128,
        ensures
            (final(self)@, r) == dct_8x16_persistent_steps(
                old(self)@,
                *blocks,
            ),
            final(self)@.wf(),
            old(self)@.grows_into(final(self)@),
            r.lives_in(final(self)@),
            r.num_blocks == blocks.num_blocks,
            r.coeffs_per_block == 128,
    {
        proof {
            reveal(dct_8x16_persistent_steps);
        }
        let h_out: Handle = self.empty(blocks.num_blocks as u64 * 128 * 4);
        let launch: Launch = dct_8x16(blocks.handle, h_out, blocks.num_blocks);
        proof {
            assert(array_fits(launch@.arrays[0], self@.buffers));
            assert(array_fits(launch@.arrays[1], self@.buffers));
        }
        self.launch(launch);
        GpuBlocks { handle: h_out, num_blocks: blocks.num_blocks, coeffs_per_block: 128 }
    }

    /// The inverse DCT of 8x16 blocks.
    pub fn idct_8x16_persistent(
        &mut self,
        blocks: &GpuBlocks,
    ) -> (r: GpuBlocks)
        requires
            old(self)@.wf(),
            blocks.lives_in(old(self)@),
            blocks.coeffs_per_block == 128,
        ensures
            (final(self)@, r) == idct_8x16_persistent_steps(
                old(self)@,
                *blocks,
            ),
            final(self)@.wf(),
            old(self)@.grows_into(final(self)@),
            r.lives_in(final(self)@),
            r.num_blocks == blocks.num_blocks,
            r.coeffs_per_block == 128,
    {
        proof {
            reveal(idct_8x16_persistent_steps);
        }
        let h_out: Handle = self.empty(blocks.num_blocks as u64 * 128 * 4);
        let launch: Launch = idct_8x16(blocks.handle, h_out, blocks.num_blocks);
        proof {
            assert(array_fits(launch@.arrays[0], self@.buffers));
            assert(array_fits(launch@.arrays[1], self@.buffers));
        }
        self.launch(launch);
        GpuBlocks { handle: h_out, num_blocks: blocks.num_blocks, coeffs_per_block: 128 }
    }

    /// The forward DCT of 16x16 blocks.
    pub fn dct_16x16_persistent(
        &mut self,
        blocks: &GpuBlocks,
    ) -> (r: GpuBlocks)
        requires
            old(self)@.wf(),
            blocks.lives_in(old(self)@),
            blocks.coeffs_per_block == 256,
        ensures
            (final(self)@, r) == dct_16x16_persistent_steps(
                old(self)@,
                *blocks,
            ),
            final(self)@.wf(),
            old(self)@.grows_into(final(self)@),
            r.lives_in(final(self)@),
            r.num_blocks == blocks.num_blocks,
            r.coeffs_per_block == 256,
    {
        proof {
            reveal(dct_16x16_persistent_steps);
        }
        let h_out: Handle = self.empty(blocks.num_blocks as u64 * 256 * 4);
        let launch: Launch = dct_16x16(blocks.handle, h_out, blocks.num_blocks);
        proof {
            assert(array_fits(launch@.arrays[0], self@.buffers));
            assert(array_fits(launch@.arrays[1], self@.buffers));
        }
        self.launch(launch);
        GpuBlocks { handle: h_out, num_blocks: blocks.num_blocks, coeffs_per_block: 256 }
    }

    /// The inverse DCT of 16x16 blocks.
    pub fn idct_16x16_persistent(
        &mut self,
        blocks: &GpuBlocks,
    ) -> (r: GpuBlocks)
        requires
            old(self)@.wf(),
            blocks.lives_in(old(self)@),
            blocks.coeffs_per_block == 256,
        ensures
            (final(self)@, r) == idct_16x16_persistent_steps(
                old(self)@,
                *blocks,
            ),
            final(self)@.wf(),
            old(self)@.grows_into(final(self)@),
            r.lives_in(final(self)@),
            r.num_blocks == blocks.num_blocks,
            r.coeffs_per_block == 256,
    {
        proof {
            reveal(idct_16x16_persistent_steps);
        }
        let h_out: Handle = self.empty(blocks.num_blocks as u64 * 256 * 4);
        let launch: Launch = idct_16x16(blocks.handle, h_out, blocks.num_blocks);
        proof {
            assert(array_fits(launch@.arrays[0], self@.buffers));
            assert(array_fits(launch@.arrays[1], self@.buffers));
        }
        self.launch(launch);
        GpuBlocks { handle: h_out, num_blocks: blocks.num_blocks, coeffs_per_block: 256 }
    }

    /// The forward DCT of 32x16 blocks.
    pub fn dct_32x16_persistent(
        &mut self,
        blocks: &GpuBlocks,
    ) -> (r: GpuBlocks)
        requires
            old(self)@.wf(),
            blocks.lives_in(old(self)@),
            blocks.coeffs_per_block == 512,
        ensures
            (final(self)@, r) == dct_32x16_persistent_steps(
                old(self)@,
                *blocks,
            ),
            final(self)@.wf(),
            old(self)@.grows_into(final(self)@),
            r.lives_in(final(self)@),
            r.num_blocks == blocks.num_blocks,
            r.coeffs_per_block == 512,
    {
        proof {
            reveal(dct_32x16_persistent_steps);
        }
        let h_out: Handle = self.empty(blocks.num_blocks as u64 * 512 * 4);
        let launch: Launch = dct_32x16(blocks.handle, h_out, blocks.num_blocks);
        proof {
            assert(array_fits(launch@.arrays[0], self@.buffers));
            assert(array_fits(launch@.arrays[1], self@.buffers));
        }
        self.launch(launch);
        GpuBlocks { handle: h_out, num_blocks: blocks.num_blocks, coeffs_per_block: 512 }
    }

    /// The inverse DCT of 32x16 blocks.
    pub fn idct_32x16_persistent(
        &mut self,
        blocks: &GpuBlocks,
    ) -> (r: GpuBlocks)
        requires
            old(self)@.wf(),
            blocks.lives_in(old(self)@),
            blocks.coeffs_per_block == 512,
        ensures
            (final(self)@, r) == idct_32x16_persistent_steps(
                old(self)@,
                *blocks,
            ),
            final(self)@.wf(),
            old(self)@.grows_into(final(self)@),
            r.lives_in(final(self)@),
            r.num_blocks == blocks.num_blocks,
            r.coeffs_per_block == 512,
    {
        proof {
            reveal(idct_32x16_persistent_steps);
        }
        let h_out: Handle = self.empty(blocks.num_blocks as u64 * 512 * 4);
        let launch: Launch = idct_32x16(blocks.handle, h_out, blocks.num_blocks);
        proof {
            assert(array_fits(launch@.arrays[0], self@.buffers));
            assert(array_fits(launch@.arrays[1], self@.buffers));
        }
        self.launch(launch);
        GpuBlocks { handle: h_out, num_blocks: blocks.num_blocks, coeffs_per_block: 512 }
    }

    /// The forward DCT of 16x32 blocks.
    pub fn dct_16x32_persistent(
        &mut self,
        blocks: &GpuBlocks,
    ) -> (r: GpuBlocks)
        requires
            old(self)@.wf(),
            blocks.lives_in(old(self)@),
            blocks.coeffs_per_block == 512,
        ensures
            (final(self)@, r) == dct_16x32_persistent_steps(
                old(self)@,
                *blocks,
            ),
            final(self)@.wf(),
            old(self)@.grows_into(final(self)@),
            r.lives_in(final(self)@),
            r.num_blocks == blocks.num_blocks,
            r.coeffs_per_block == 512,
    {
        proof {
            reveal(dct_16x32_persistent_steps);
        }
        let h_out: Handle = self.empty(blocks.num_blocks as u64 * 512 * 4);
        let launch: Launch = dct_16x32(blocks.handle, h_out, blocks.num_blocks);
        proof {
            assert(array_fits(launch@.arrays[0], self@.buffers));
            assert(array_fits(launch@.arrays[1], self@.buffers));
        }
        self.launch(launch);
        GpuBlocks { handle: h_out, num_blocks: blocks.num_blocks, coeffs_per_block: 512 }
    }

    /// The inverse DCT of 16x32 blocks.
    pub fn idct_16x32_persistent(
        &mut self,
        blocks: &GpuBlocks,
    ) -> (r: GpuBlocks)
        requires
            old(self)@.wf(),
            blocks.lives_in(old(self)@),
            blocks.coeffs_per_block == 512,
        ensures
            (final(self)@, r) == idct_16x32_persistent_steps(
                old(self)@,
                *blocks,
            ),
            final(self)@.wf(),
            old(self)@.grows_into(final(self)@),
            r.lives_in(final(self)@),
            r.num_blocks == blocks.num_blocks,
            r.coeffs_per_block == 512,
    {
        proof {
            reveal(idct_16x32_persistent_steps);
        }
        let h_out: Handle = self.empty(blocks.num_blocks as u64 * 512 * 4);
        let launch: Launch = idct_16x32(blocks.handle, h_out, blocks.num_blocks);
        proof {
            assert(array_fits(launch@.arrays[0], self@.buffers));
            assert(array_fits(launch@.arrays[1], self@.buffers));
        }
        self.launch(launch);
        GpuBlocks { handle: h_out, num_blocks: blocks.num_blocks, coeffs_per_block: 512 }
    }

    /// The forward DCT of 32x32 blocks.
    pub fn dct_32x32_persistent(
        &mut self,
        blocks: &GpuBlocks,
    ) -> (r: GpuBlocks)
        requires
            old(self)@.wf(),
            blocks.lives_in(old(self)@),
            blocks.coeffs_per_block == 1024,
        ensures
            (final(self)@, r) == dct_32x32_persistent_steps(
                old(self)@,
                *blocks,
            ),
            final(self)@.wf(),
            old(self)@.grows_into(final(self)@),
            r.lives_in(final(self)@),
            r.num_blocks == blocks.num_blocks,
            r.coeffs_per_block == 1024,
    {
        proof {
            reveal(dct_32x32_persistent_steps);
        }
        let h_out: Handle = self.empty(blocks.num_blocks as u64 * 1024 * 4);
        let launch: Launch = dct_32x32(blocks.handle, h_out, blocks.num_blocks);
        proof {
            assert(array_fits(launch@.arrays[0], self@.buffers));
            assert(array_fits(launch@.arrays[1], self@.buffers));
        }
        self.launch(launch);
        GpuBlocks { handle: h_out, num_blocks: blocks.num_blocks, coeffs_per_block: 1024 }
    }

    /// The inverse DCT of 32x32 blocks.
    pub fn idct_32x32_persistent(
        &mut self,
        blocks: &GpuBlocks,
    ) -> (r: GpuBlocks)
        requires
            old(self)@.wf(),
            blocks.lives_in(old(self)@),
            blocks.coeffs_per_block == 1024,
        ensures
            (final(self)@, r) == idct_32x32_persistent_steps(
                old(self)@,
                *blocks,
            ),
            final(self)@.wf(),
            old(self)@.grows_into(final(self)@),
            r.lives_in(final(self)@),
            r.num_blocks == blocks.num_blocks,
            r.coeffs_per_block == 1024,
    {
        proof {
            reveal(idct_32x32_persistent_steps);
        }
        let h_out: Handle = self.empty(blocks.num_blocks as u64 * 1024 * 4);
        let launch: Launch = idct_32x32(blocks.handle, h_out, blocks.num_blocks);
        proof {
            assert(array_fits(launch@.arrays[0], self@.buffers));
            assert(array_fits(launch@.arrays[1], self@.buffers));
        }
        self.launch(launch);
        GpuBlocks { handle: h_out, num_blocks: blocks.num_blocks, coeffs_per_block: 1024 }
    }

    /// The forward DCT of 64x32 blocks.
    pub fn dct_64x32_persistent(
        &mut self,
        blocks: &GpuBlocks,
    ) -> (r: GpuBlocks)
        requires
            old(self)@.wf(),
            blocks.lives_in(old(self)@),
            blocks.coeffs_per_block == 2048,
        ensures
            (final(self)@, r) == dct_64x32_persistent_steps(
                old(self)@,
                *blocks,
            ),
            final(self)@.wf(),
            old(self)@.grows_into(final(self)@),
            r.lives_in(final(self)@),
            r.num_blocks == blocks.num_blocks,
            r.coeffs_per_block == 2048,
    {
        proof {
            reveal(dct_64x32_persistent_steps);
        }
        let h_out: Handle = self.empty(blocks.num_blocks as u64 * 2048 * 4);
        let launch: Launch = dct_64x32(blocks.handle, h_out, blocks.num_blocks);
        proof {
            assert(array_fits(launch@.arrays[0], self@.buffers));
            assert(array_fits(launch@.arrays[1], self@.buffers));
        }
        self.launch(launch);
        GpuBlocks { handle: h_out, num_blocks: blocks.num_blocks, coeffs_per_block: 2048 }
    }

    /// The inverse DCT of 64x32 blocks.
    pub fn idct_64x32_persistent(
        &mut self,
        blocks: &GpuBlocks,
    ) -> (r: GpuBlocks)
        requires
            old(self)@.wf(),
            blocks.lives_in(old(self)@),
            blocks.coeffs_per_block == 2048,
        ensures
            (final(self)@, r) == idct_64x32_persistent_steps(
                old(self)@,
                *blocks,
            ),
            final(self)@.wf(),
            old(self)@.grows_into(final(self)@),
            r.lives_in(final(self)@),
            r.num_blocks == blocks.num_blocks,
            r.coeffs_per_block == 2048,
    {
        proof {
            reveal(idct_64x32_persistent_steps);
        }
        let h_out: Handle = self.empty(blocks.num_blocks as u64 * 2048 * 4);
        let launch: Launch = idct_64x32(blocks.handle, h_out, blocks.num_blocks);
        proof {
            assert(array_fits(launch@.arrays[0], self@.buffers));
            assert(array_fits(launch@.arrays[1], self@.buffers));
        }
        self.launch(launch);
        GpuBlocks { handle: h_out, num_blocks: blocks.num_blocks, coeffs_per_block: 2048 }
    }

    /// The forward DCT of 32x64 blocks.
    pub fn dct_32x64_persistent(
        &mut self,
        blocks: &GpuBlocks,
    ) -> (r: GpuBlocks)
        requires
            old(self)@.wf(),
            blocks.lives_in(old(self)@),
            blocks.coeffs_per_block == 2048,
        ensures
            (final(self)@, r) == dct_32x64_persistent_steps(
                old(self)@,
                *blocks,
            ),
            final(self)@.wf(),
            old(self)@.grows_into(final(self)@),
            r.lives_in(final(self)@),
            r.num_blocks == blocks.num_blocks,
            r.coeffs_per_block == 2048,
    {
        proof {
            reveal(dct_32x64_persistent_steps);
        }
        let h_out: Handle = self.empty(blocks.num_blocks as u64 * 2048 * 4);
        let launch: Launch = dct_32x64(blocks.handle, h_out, blocks.num_blocks);
        proof {
            assert(array_fits(launch@.arrays[0], self@.buffers));
            assert(array_fits(launch@.arrays[1], self@.buffers));
        }
        self.launch(launch);
        GpuBlocks { handle: h_out, num_blocks: blocks.num_blocks, coeffs_per_block: 2048 }
    }

    /// The inverse DCT of 32x64 blocks.
    pub fn idct_32x64_persistent(
        &mut self,
        blocks: &GpuBlocks,
    ) -> (r: GpuBlocks)
        requires
            old(self)@.wf(),
            blocks.lives_in(old(self)@),
            blocks.coeffs_per_block == 2048,
        ensures
            (final(self)@, r) == idct_32x64_persistent_steps(
                old(self)@,
                *blocks,
            ),
            final(self)@.wf(),
            old(self)@.grows_into(final(self)@),
            r.lives_in(final(self)@),
            r.num_blocks == blocks.num_blocks,
            r.coeffs_per_block == 2048,
    {
        proof {
            reveal(idct_32x64_persistent_steps);
        }
        let h_out: Handle = self.empty(blocks.num_blocks as u64 * 2048 * 4);
        let launch: Launch = idct_32x64(blocks.handle, h_out, blocks.num_blocks);
        proof {
            assert(array_fits(launch@.arrays[0], self@.buffers));
            assert(array_fits(launch@.arrays[1], self@.buffers));
        }
        self.launch(launch);
        GpuBlocks { handle: h_out, num_blocks: blocks.num_blocks, coeffs_per_block: 2048 }
    }

    /// The forward DCT of 64x64 blocks.
    pub fn dct_64x64_persistent(
        &mut self,
        blocks: &GpuBlocks,
    ) -> (r: GpuBlocks)
        requires
            old(self)@.wf(),
            blocks.lives_in(old(self)@),
            blocks.coeffs_per_block == 4096,
        ensures
            (final(self)@, r) == dct_64x64_persistent_steps(
                old(self)@,
                *blocks,
            ),
            final(self)@.wf(),
            old(self)@.grows_into(final(self)@),
            r.lives_in(final(self)@),
            r.num_blocks == blocks.num_blocks,
            r.coeffs_per_block == 4096,
    {
        proof {
            reveal(dct_64x64_persistent_steps);
        }
        let h_out: Handle = self.empty(blocks.num_blocks as u64 * 4096 * 4);
        let launch: Launch = dct_64x64(blocks.handle, h_out, blocks.num_blocks);
        proof {
            assert(array_fits(launch@.arrays[0], self@.buffers));
            assert(array_fits(launch@.arrays[1], self@.buffers));
        }
        self.launch(launch);
        GpuBlocks { handle: h_out, num_blocks: blocks.num_blocks, coeffs_per_block: 4096 }
    }

    /// The inverse DCT of 64x64 blocks.
    pub fn idct_64x64_persistent(
        &mut self,
        blocks: &GpuBlocks,
    ) -> (r: GpuBlocks)
        requires
            old(self)@.wf(),
            blocks.lives_in(old(self)@),
            blocks.coeffs_per_block == 4096,
        ensures
            (final(self)@, r) == idct_64x64_persistent_steps(
                old(self)@,
                *blocks,
            ),
            final(self)@.wf(),
            old(self)@.grows_into(final(self)@),
            r.lives_in(final(self)@),
            r.num_blocks == blocks.num_blocks,
            r.coeffs_per_block == 4096,
    {
        proof {
            reveal(idct_64x64_persistent_steps);
        }
        let h_out: Handle = self.empty(blocks.num_blocks as u64 * 4096 * 4);
        let launch: Launch = idct_64x64(blocks.handle, h_out, blocks.num_blocks);
        proof {
            assert(array_fits(launch@.arrays[0], self@.buffers));
            assert(array_fits(launch@.arrays[1], self@.buffers));
        }
        self.launch(launch);
        GpuBlocks { handle: h_out, num_blocks: blocks.num_blocks, coeffs_per_block: 4096 }
    }

    /// The entropy estimate of blocks with one weight matrix for all of them:
    /// four numbers per block, and the quantization errors.
    pub fn entropy_coeffs_pixel_blocks_broadcast_w_persistent(
        &mut self,
        block_c: &GpuBlocks,
        block_y: &GpuBlocks,
        weights_template: &[Float32],
        inv_weights_template: &[Float32],
        cmap_factor: Float32,
        quant: Float32,
        k_cost_delta: Float32,
    ) -> (r: (GpuBlocks, GpuBlocks))
        requires
            old(self)@.wf(),
            block_c.lives_in(old(self)@),
            block_y.lives_in(old(self)@),
            block_c.num_blocks == block_y.num_blocks,
            block_c.coeffs_per_block == block_y.coeffs_per_block,
            weights_template@.len() == block_c.coeffs_per_block,
            inv_weights_template@.len() == block_c.coeffs_per_block,
        ensures
            (final(self)@, r) == entropy_coeffs_pixel_blocks_broadcast_w_persistent_steps(
                old(self)@,
                *block_c,
                *block_y,
                weights_template@,
                inv_weights_template@,
                cmap_factor,
                quant,
                k_cost_delta,
            ),
            final(self)@.wf(),
            old(self)@.grows_into(final(self)@),
            r.0.lives_in(final(self)@),
            r.0.num_blocks == block_c.num_blocks,
            r.0.coeffs_per_block == 4,
            r.1.lives_in(final(self)@),
            r.1.num_blocks == block_c.num_blocks,
            r.1.coeffs_per_block == block_c.coeffs_per_block,
    {
        proof {
            reveal(entropy_coeffs_pixel_blocks_broadcast_w_persistent_steps);
        }
        let h_w: Handle = self.create(float_words(weights_template));
        let h_iw: Handle = self.create(float_words(inv_weights_template));
        let h_err: Handle = self.empty(area(block_c.num_blocks, block_c.coeffs_per_block) * 4);
        let h_out: Handle = self.empty(block_c.num_blocks as u64 * 4 * 4);
        let launch: Launch = entropy_coeffs_pixel_broadcast_w(
            block_c.handle,
            block_y.handle,
            h_w,
            h_iw,
            h_err,
            h_out,
            block_c.num_blocks,
            block_c.coeffs_per_block,
            cmap_factor,
            quant,
            k_cost_delta,
        );
        proof {
            assert(array_fits(launch@.arrays[0], self@.buffers));
            assert(array_fits(launch@.arrays[1], self@.buffers));
            assert(array_fits(launch@.arrays[2], self@.buffers));
            assert(array_fits(launch@.arrays[3], self@.buffers));
            assert(array_fits(launch@.arrays[4], self@.buffers));
            assert(array_fits(launch@.arrays[5], self@.buffers));
        }
        self.launch(launch);
        (
            GpuBlocks { handle: h_out, num_blocks: block_c.num_blocks, coeffs_per_block: 4 },
            GpuBlocks {
                handle: h_err,
                num_blocks: block_c.num_blocks,
                coeffs_per_block: block_c.coeffs_per_block,
            },
        )
    }

    /// The pixel loss of blocks against a mask plane, one double precision
    /// number per block. `mask_row_base` says where in the mask each block
    /// starts.
    pub fn pixel_loss_blocks_persistent(
        &mut self,
        pixel_error: &GpuBlocks,
        mask_plane: &GpuPlane,
        mask_row_base: &[u32],
        mask_offset: Float32,
        block_width: u32,
        block_height: u32,
    ) -> (r: GpuBlocks)
        requires
            old(self)@.wf(),
            pixel_error.lives_in(old(self)@),
            mask_plane.lives_in(old(self)@),
            pixel_error.coeffs_per_block == block_width * block_height,
            mask_row_base@.len() == pixel_error.num_blocks,
        ensures
            (final(self)@, r) == pixel_loss_blocks_persistent_steps(
                old(self)@,
                *pixel_error,
                *mask_plane,
                mask_row_base@,
                mask_offset,
                block_width,
                block_height,
            ),
            final(self)@.wf(),
            old(self)@.grows_into(final(self)@),
            r.lives_in(final(self)@),
            r.num_blocks == pixel_error.num_blocks,
            r.coeffs_per_block == 1,
    {
        proof {
            reveal(pixel_loss_blocks_persistent_steps);
            lemma_block_area(pixel_error.num_blocks, block_width, block_height);
        }
        let h_mrb: Handle = self.create(copy_words(mask_row_base));
        let h_out: Handle = self.empty(pixel_error.num_blocks as u64 * 8);
        let launch: Launch = pixel_loss(
            pixel_error.handle,
            mask_plane.handle,
            h_mrb,
            h_out,
            pixel_error.num_blocks,
            area(mask_plane.width, mask_plane.height),
            mask_plane.width,
            mask_offset,
            block_width,
            block_height,
        );
        proof {
            assert(array_fits(launch@.arrays[0], self@.buffers));
            assert(array_fits(launch@.arrays[1], self@.buffers));
            assert(array_fits(launch@.arrays[2], self@.buffers));
            assert(array_fits(launch@.arrays[3], self@.buffers));
        }
        self.launch(launch);
        let out: GpuBlocks = GpuBlocks {
            handle: h_out,
            num_blocks: pixel_error.num_blocks,
            coeffs_per_block: 1,
        };
        assert(out.num_blocks * out.coeffs_per_block == out.num_blocks) by (nonlinear_arith)
            requires
                out.coeffs_per_block == 1,
        ;
        out
    }

    /// Transforms and quantizes 8x8 blocks, with weights per block.
    pub fn dct8_quantize_fused_persistent(
        &mut self,
        pixels: &GpuBlocks,
        weights: &GpuBlocks,
        qac_qm: &[Float32],
        thresholds: &[Float32; 4],
    ) -> (r: GpuI32Blocks)
        requires
            old(self)@.wf(),
            pixels.lives_in(old(self)@),
            weights.lives_in(old(self)@),
            pixels.coeffs_per_block == 64,
            weights.coeffs_per_block == 64,
            pixels.num_blocks == weights.num_blocks,
            qac_qm@.len() == pixels.num_blocks,
        ensures
            (final(self)@, r) == dct8_quantize_fused_persistent_steps(
                old(self)@,
                *pixels,
                *weights,
                qac_qm@,
                thresholds@,
            ),
            final(self)@.wf(),
            old(self)@.grows_into(final(self)@),
            r.lives_in(final(self)@),
            r.num_blocks == pixels.num_blocks,
            r.coeffs_per_block == 64,
    {
        proof {
            reveal(dct8_quantize_fused_persistent_steps);
        }
        let h_qac: Handle = self.create(float_words(qac_qm));
        let h_thr: Handle = self.create(four_float_words(thresholds));
        let h_out: Handle = self.empty(pixels.num_blocks as u64 * 64 * 4);
        let launch: Launch = dct8_quantize_fused_wide(
            pixels.handle,
            weights.handle,
            h_qac,
            h_thr,
            h_out,
            pixels.num_blocks,
        );
        proof {
            assert(array_fits(launch@.arrays[0], self@.buffers));
            assert(array_fits(launch@.arrays[1], self@.buffers));
            assert(array_fits(launch@.arrays[2], self@.buffers));
            assert(array_fits(launch@.arrays[3], self@.buffers));
            assert(array_fits(launch@.arrays[4], self@.buffers));
        }
        self.launch(launch);
        GpuI32Blocks { handle: h_out, num_blocks: pixels.num_blocks, coeffs_per_block: 64 }
    }

    /// Dequantizes luma DCT8 blocks and transforms them back.
    pub fn dequant_idct8_fused_y_persistent(
        &mut self,
        quant: &GpuI32Blocks,
        weights: &GpuBlocks,
        qac_qm: &[Float32],
    ) -> (r: GpuBlocks)
        requires
            old(self)@.wf(),
            quant.lives_in(old(self)@),
            weights.lives_in(old(self)@),
            quant.coeffs_per_block == 64,
            weights.coeffs_per_block == 64,
            quant.num_blocks == weights.num_blocks,
            qac_qm@.len() == quant.num_blocks,
        ensures
            (final(self)@, r) == dequant_idct8_fused_y_persistent_steps(
                old(self)@,
                *quant,
                *weights,
                qac_qm@,
            ),
            final(self)@.wf(),
            old(self)@.grows_into(final(self)@),
            r.lives_in(final(self)@),
            r.num_blocks == quant.num_blocks,
            r.coeffs_per_block == 64,
    {
        proof {
            reveal(dequant_idct8_fused_y_persistent_steps);
        }
        let h_qac: Handle = self.create(float_words(qac_qm));
        let h_out: Handle = self.empty(quant.num_blocks as u64 * 64 * 4);
        let launch: Launch = dequant_idct8_fused_y_wide(
            quant.handle,
            weights.handle,
            h_qac,
            h_out,
            quant.num_blocks,
        );
        proof {
            assert(array_fits(launch@.arrays[0], self@.buffers));
            assert(array_fits(launch@.arrays[1], self@.buffers));
            assert(array_fits(launch@.arrays[2], self@.buffers));
            assert(array_fits(launch@.arrays[3], self@.buffers));
        }
        self.launch(launch);
        GpuBlocks { handle: h_out, num_blocks: quant.num_blocks, coeffs_per_block: 64 }
    }

    /// Quantizes DCT8 blocks, with weights per block.
    pub fn quantize_dct8_persistent(
        &mut self,
        coeffs: &GpuBlocks,
        weights: &GpuBlocks,
        qac_qm: &[Float32],
        thresholds: &[Float32; 4],
    ) -> (r: GpuI32Blocks)
        requires
            old(self)@.wf(),
            coeffs.lives_in(old(self)@),
            weights.lives_in(old(self)@),
            coeffs.coeffs_per_block == 64,
            weights.coeffs_per_block == 64,
            coeffs.num_blocks == weights.num_blocks,
            qac_qm@.len() == coeffs.num_blocks,
        ensures
            (final(self)@, r) == quantize_dct8_persistent_steps(
                old(self)@,
                *coeffs,
                *weights,
                qac_qm@,
                thresholds@,
            ),
            final(self)@.wf(),
            old(self)@.grows_into(final(self)@),
            r.lives_in(final(self)@),
            r.num_blocks == coeffs.num_blocks,
            r.coeffs_per_block == 64,
    {
        proof {
            reveal(quantize_dct8_persistent_steps);
        }
        let h_qac: Handle = self.create(float_words(qac_qm));
        let h_thr: Handle = self.create(four_float_words(thresholds));
        let h_out: Handle = self.empty(coeffs.num_blocks as u64 * 64 * 4);
        let launch: Launch = quantize_dct8(
            coeffs.handle,
            weights.handle,
            h_qac,
            h_thr,
            h_out,
            coeffs.num_blocks,
        );
        proof {
            assert(array_fits(launch@.arrays[0], self@.buffers));
            assert(array_fits(launch@.arrays[1], self@.buffers));
            assert(array_fits(launch@.arrays[2], self@.buffers));
            assert(array_fits(launch@.arrays[3], self@.buffers));
            assert(array_fits(launch@.arrays[4], self@.buffers));
        }
        self.launch(launch);
        GpuI32Blocks { handle: h_out, num_blocks: coeffs.num_blocks, coeffs_per_block: 64 }
    }

    /// Quantizes DCT8 blocks, with one weight matrix for all of them.
    pub fn quantize_dct8_persistent_broadcast_w(
        &mut self,
        coeffs: &GpuBlocks,
        weights: &GpuBlocks,
        qac_qm: &[Float32],
        thresholds: &[Float32; 4],
    ) -> (r: GpuI32Blocks)
        requires
            old(self)@.wf(),
            coeffs.lives_in(old(self)@),
            weights.lives_in(old(self)@),
            coeffs.coeffs_per_block == 64,
            weights.num_blocks == 1,
            weights.coeffs_per_block == 64,
            qac_qm@.len() == coeffs.num_blocks,
        ensures
            (final(self)@, r) == quantize_dct8_persistent_broadcast_w_steps(
                old(self)@,
                *coeffs,
                *weights,
                qac_qm@,
                thresholds@,
            ),
            final(self)@.wf(),
            old(self)@.grows_into(final(self)@),
            r.lives_in(final(self)@),
            r.num_blocks == coeffs.num_blocks,
            r.coeffs_per_block == 64,
    {
        proof {
            reveal(quantize_dct8_persistent_broadcast_w_steps);
        }
        let h_qac: Handle = self.create(float_words(qac_qm));
        let h_thr: Handle = self.create(four_float_words(thresholds));
        let h_out: Handle = self.empty(coeffs.num_blocks as u64 * 64 * 4);
        let launch: Launch = quantize_dct8_broadcast_w(
            coeffs.handle,
            weights.handle,
            h_qac,
            h_thr,
            h_out,
            coeffs.num_blocks,
        );
        proof {
            assert(array_fits(launch@.arrays[0], self@.buffers));
            assert(array_fits(launch@.arrays[1], self@.buffers));
            assert(array_fits(launch@.arrays[2], self@.buffers));
            assert(array_fits(launch@.arrays[3], self@.buffers));
            assert(array_fits(launch@.arrays[4], self@.buffers));
        }
        self.launch(launch);
        GpuI32Blocks { handle: h_out, num_blocks: coeffs.num_blocks, coeffs_per_block: 64 }
    }

    /// Quantizes blocks larger than 8x8, with one weight matrix for all of
    /// them.
    pub fn quantize_large_blocks_broadcast_w_persistent(
        &mut self,
        coeffs: &GpuBlocks,
        weights_template: &[Float32],
        qac_qm: &[Float32],
        thresholds: &[Float32; 4],
        grid_width: u32,
        grid_height: u32,
        llf_x: u32,
        llf_y: u32,
    ) -> (r: GpuI32Blocks)
        requires
            old(self)@.wf(),
            coeffs.lives_in(old(self)@),
            coeffs.coeffs_per_block == grid_width * grid_height,
            weights_template@.len() == grid_width * grid_height,
            qac_qm@.len() == coeffs.num_blocks,
        ensures
            (final(self)@, r) == quantize_large_blocks_broadcast_w_persistent_steps(
                old(self)@,
                *coeffs,
                weights_template@,
                qac_qm@,
                thresholds@,
                grid_width,
                grid_height,
                llf_x,
                llf_y,
            ),
            final(self)@.wf(),
            old(self)@.grows_into(final(self)@),
            r.lives_in(final(self)@),
            r.num_blocks == coeffs.num_blocks,
            r.coeffs_per_block == coeffs.coeffs_per_block,
    {
        proof {
            reveal(quantize_large_blocks_broadcast_w_persistent_steps);
        }
        let h_w: Handle = self.create(float_words(weights_template));
        let h_q: Handle = self.create(float_words(qac_qm));
        let h_t: Handle = self.create(four_float_words(thresholds));
        let h_o: Handle = self.empty(area(coeffs.num_blocks, coeffs.coeffs_per_block) * 4);
        let launch: Launch = quantize_large_broadcast_w(
            coeffs.handle,
            h_w,
            h_q,
            h_t,
            h_o,
            coeffs.num_blocks,
            grid_width,
            grid_height,
            llf_x,
            llf_y,
        );
        proof {
            assert(array_fits(launch@.arrays[0], self@.buffers));
            assert(array_fits(launch@.arrays[1], self@.buffers));
            assert(array_fits(launch@.arrays[2], self@.buffers));
            assert(array_fits(launch@.arrays[3], self@.buffers));
            assert(array_fits(launch@.arrays[4], self@.buffers));
        }
        self.launch(launch);
        GpuI32Blocks {
            handle: h_o,
            num_blocks: coeffs.num_blocks,
            coeffs_per_block: coeffs.coeffs_per_block,
        }
    }

    /// Dequantizes blocks with a scale per block and one weight matrix for all
    /// of them.
    pub fn dequant_strategy_persistent(
        &mut self,
        quant: &GpuI32Blocks,
        weights_template: &[Float32],
        qac_per_block: &[Float32],
    ) -> (r: GpuBlocks)
        requires
            old(self)@.wf(),
            quant.lives_in(old(self)@),
            weights_template@.len() == quant.coeffs_per_block,
            qac_per_block@.len() == quant.num_blocks,
        ensures
            (final(self)@, r) == dequant_strategy_persistent_steps(
                old(self)@,
                *quant,
                weights_template@,
                qac_per_block@,
            ),
            final(self)@.wf(),
            old(self)@.grows_into(final(self)@),
            r.lives_in(final(self)@),
            r.num_blocks == quant.num_blocks,
            r.coeffs_per_block == quant.coeffs_per_block,
    {
        proof {
            reveal(dequant_strategy_persistent_steps);
        }
        let h_w: Handle = self.create(float_words(weights_template));
        let h_q: Handle = self.create(float_words(qac_per_block));
        let h_o: Handle = self.empty(area(quant.num_blocks, quant.coeffs_per_block) * 4);
        let launch: Launch = dequant_strategy_broadcast_w(
            quant.handle,
            h_w,
            h_q,
            h_o,
            quant.num_blocks,
            quant.coeffs_per_block,
        );
        proof {
            assert(array_fits(launch@.arrays[0], self@.buffers));
            assert(array_fits(launch@.arrays[1], self@.buffers));
            assert(array_fits(launch@.arrays[2], self@.buffers));
            assert(array_fits(launch@.arrays[3], self@.buffers));
        }
        self.launch(launch);
        GpuBlocks {
            handle: h_o,
            num_blocks: quant.num_blocks,
            coeffs_per_block: quant.coeffs_per_block,
        }
    }

    /// Dequantizes DCT8 blocks of one of the channels X, Y and B (zero, one and
    /// two), with the bias of the channel.
    pub fn dequant_strategy_dct8_persistent(
        &mut self,
        quant: &GpuI32Blocks,
        weights_template: &[Float32],
        qac_per_block: &[Float32],
        channel: usize,
    ) -> (r: GpuBlocks)
        requires
            old(self)@.wf(),
            quant.lives_in(old(self)@),
            channel < 3,
            weights_template@.len() == quant.coeffs_per_block,
            qac_per_block@.len() == quant.num_blocks,
        ensures
            (final(self)@, r) == dequant_strategy_dct8_persistent_steps(
                old(self)@,
                *quant,
                weights_template@,
                qac_per_block@,
                channel,
            ),
            final(self)@.wf(),
            old(self)@.grows_into(final(self)@),
            r.lives_in(final(self)@),
            r.num_blocks == quant.num_blocks,
            r.coeffs_per_block == quant.coeffs_per_block,
    {
        proof {
            reveal(dequant_strategy_dct8_persistent_steps);
        }
        let h_w: Handle = self.create(float_words(weights_template));
        let h_q: Handle = self.create(float_words(qac_per_block));
        let h_o: Handle = self.empty(area(quant.num_blocks, quant.coeffs_per_block) * 4);
        let launch: Launch = dequant_strategy_broadcast_w_dct8(
            quant.handle,
            h_w,
            h_q,
            h_o,
            quant.num_blocks,
            quant.coeffs_per_block,
            channel_bias(channel),
        );
        proof {
            assert(array_fits(launch@.arrays[0], self@.buffers));
            assert(array_fits(launch@.arrays[1], self@.buffers));
            assert(array_fits(launch@.arrays[2], self@.buffers));
            assert(array_fits(launch@.arrays[3], self@.buffers));
        }
        self.launch(launch);
        GpuBlocks {
            handle: h_o,
            num_blocks: quant.num_blocks,
            coeffs_per_block: quant.coeffs_per_block,
        }
    }

    /// Dequantizes three channels of DCT8 blocks, with weights per block.
    pub fn dequant_dct8_persistent(
        &mut self,
        quant_x: &GpuI32Blocks,
        quant_y: &GpuI32Blocks,
        quant_b: &GpuI32Blocks,
        weights_x: &GpuBlocks,
        weights_y: &GpuBlocks,
        weights_b: &GpuBlocks,
        qac_qm_x: &[Float32],
        qac_qm_y: &[Float32],
        qac_qm_b: &[Float32],
        x_factor: &[Float32],
        b_factor: &[Float32],
    ) -> (r: (GpuBlocks, GpuBlocks, GpuBlocks))
        requires
            old(self)@.wf(),
            quant_x.lives_in(old(self)@),
            quant_y.lives_in(old(self)@),
            quant_b.lives_in(old(self)@),
            weights_x.lives_in(old(self)@),
            weights_y.lives_in(old(self)@),
            weights_b.lives_in(old(self)@),
            quant_y.num_blocks == quant_x.num_blocks,
            quant_b.num_blocks == quant_x.num_blocks,
            quant_x.coeffs_per_block == 64,
            quant_y.coeffs_per_block == 64,
            quant_b.coeffs_per_block == 64,
            weights_x.coeffs_per_block == 64,
            weights_y.coeffs_per_block == 64,
            weights_b.coeffs_per_block == 64,
            weights_x.num_blocks == quant_x.num_blocks,
            weights_y.num_blocks == quant_x.num_blocks,
            weights_b.num_blocks == quant_x.num_blocks,
            qac_qm_x@.len() == quant_x.num_blocks,
            qac_qm_y@.len() == quant_x.num_blocks,
            qac_qm_b@.len() == quant_x.num_blocks,
            x_factor@.len() == quant_x.num_blocks,
            b_factor@.len() == quant_x.num_blocks,
        ensures
            (final(self)@, r) == dequant_dct8_persistent_steps(
                old(self)@,
                *quant_x,
                *quant_y,
                *quant_b,
                *weights_x,
                *weights_y,
                *weights_b,
                qac_qm_x@,
                qac_qm_y@,
                qac_qm_b@,
                x_factor@,
                b_factor@,
            ),
            final(self)@.wf(),
            old(self)@.grows_into(final(self)@),
            r.0.lives_in(final(self)@),
            r.0.num_blocks == quant_x.num_blocks,
            r.0.coeffs_per_block == 64,
            r.1.lives_in(final(self)@),
            r.1.num_blocks == quant_x.num_blocks,
            r.1.coeffs_per_block == 64,
            r.2.lives_in(final(self)@),
            r.2.num_blocks == quant_x.num_blocks,
            r.2.coeffs_per_block == 64,
    {
        proof {
            reveal(dequant_dct8_persistent_steps);
        }
        let h_qmx: Handle = self.create(float_words(qac_qm_x));
        let h_qmy: Handle = self.create(float_words(qac_qm_y));
        let h_qmb: Handle = self.create(float_words(qac_qm_b));
        let h_xf: Handle = self.create(float_words(x_factor));
        let h_bf: Handle = self.create(float_words(b_factor));
        let h_ox: Handle = self.empty(quant_x.num_blocks as u64 * 64 * 4);
        let h_oy: Handle = self.empty(quant_x.num_blocks as u64 * 64 * 4);
        let h_ob: Handle = self.empty(quant_x.num_blocks as u64 * 64 * 4);
        let launch: Launch = dequant_dct8(
            quant_x.handle,
            quant_y.handle,
            quant_b.handle,
            weights_x.handle,
            weights_y.handle,
            weights_b.handle,
            h_qmx,
            h_qmy,
            h_qmb,
            h_xf,
            h_bf,
            h_ox,
            h_oy,
            h_ob,
            quant_x.num_blocks,
        );
        proof {
            assert(array_fits(launch@.arrays[0], self@.buffers));
            assert(array_fits(launch@.arrays[1], self@.buffers));
            assert(array_fits(launch@.arrays[2], self@.buffers));
            assert(array_fits(launch@.arrays[3], self@.buffers));
            assert(array_fits(launch@.arrays[4], self@.buffers));
            assert(array_fits(launch@.arrays[5], self@.buffers));
            assert(array_fits(launch@.arrays[6], self@.buffers));
            assert(array_fits(launch@.arrays[7], self@.buffers));
            assert(array_fits(launch@.arrays[8], self@.buffers));
            assert(array_fits(launch@.arrays[9], self@.buffers));
            assert(array_fits(launch@.arrays[10], self@.buffers));
            assert(array_fits(launch@.arrays[11], self@.buffers));
            assert(array_fits(launch@.arrays[12], self@.buffers));
            assert(array_fits(launch@.arrays[13], self@.buffers));
        }
        self.launch(launch);
        (
            GpuBlocks { handle: h_ox, num_blocks: quant_x.num_blocks, coeffs_per_block: 64 },
            GpuBlocks { handle: h_oy, num_blocks: quant_x.num_blocks, coeffs_per_block: 64 },
            GpuBlocks { handle: h_ob, num_blocks: quant_x.num_blocks, coeffs_per_block: 64 },
        )
    }

    /// Dequantizes three channels of DCT8 blocks, with one weight matrix per
    /// channel for all blocks.
    pub fn dequant_dct8_persistent_broadcast_w(
        &mut self,
        quant_x: &GpuI32Blocks,
        quant_y: &GpuI32Blocks,
        quant_b: &GpuI32Blocks,
        weights_x: &GpuBlocks,
        weights_y: &GpuBlocks,
        weights_b: &GpuBlocks,
        qac_qm_x: &[Float32],
        qac_qm_y: &[Float32],
        qac_qm_b: &[Float32],
        x_factor: &[Float32],
        b_factor: &[Float32],
    ) -> (r: (GpuBlocks, GpuBlocks, GpuBlocks))
        requires
            old(self)@.wf(),
            quant_x.lives_in(old(self)@),
            quant_y.lives_in(old(self)@),
            quant_b.lives_in(old(self)@),
            weights_x.lives_in(old(self)@),
            weights_y.lives_in(old(self)@),
            weights_b.lives_in(old(self)@),
            quant_y.num_blocks == quant_x.num_blocks,
            quant_b.num_blocks == quant_x.num_blocks,
            quant_x.coeffs_per_block == 64,
            quant_y.coeffs_per_block == 64,
            quant_b.coeffs_per_block == 64,
            weights_x.coeffs_per_block == 64,
            weights_y.coeffs_per_block == 64,
            weights_b.coeffs_per_block == 64,
            weights_x.num_blocks == 1,
            weights_y.num_blocks == 1,
            weights_b.num_blocks == 1,
            qac_qm_x@.len() == quant_x.num_blocks,
            qac_qm_y@.len() == quant_x.num_blocks,
            qac_qm_b@.len() == quant_x.num_blocks,
            x_factor@.len() == quant_x.num_blocks,
            b_factor@.len() == quant_x.num_blocks,
        ensures
            (final(self)@, r) == dequant_dct8_persistent_broadcast_w_steps(
                old(self)@,
                *quant_x,
                *quant_y,
                *quant_b,
                *weights_x,
                *weights_y,
                *weights_b,
                qac_qm_x@,
                qac_qm_y@,
                qac_qm_b@,
                x_factor@,
                b_factor@,
            ),
            final(self)@.wf(),
            old(self)@.grows_into(final(self)@),
            r.0.lives_in(final(self)@),
            r.0.num_blocks == quant_x.num_blocks,
            r.0.coeffs_per_block == 64,
            r.1.lives_in(final(self)@),
            r.1.num_blocks == quant_x.num_blocks,
            r.1.coeffs_per_block == 64,
            r.2.lives_in(final(self)@),
            r.2.num_blocks == quant_x.num_blocks,
            r.2.coeffs_per_block == 64,
    {
        proof {
            reveal(dequant_dct8_persistent_broadcast_w_steps);
        }
        let h_qmx: Handle = self.create(float_words(qac_qm_x));
        let h_qmy: Handle = self.create(float_words(qac_qm_y));
        let h_qmb: Handle = self.create(float_words(qac_qm_b));
        let h_xf: Handle = self.create(float_words(x_factor));
        let h_bf: Handle = self.create(float_words(b_factor));
        let h_ox: Handle = self.empty(quant_x.num_blocks as u64 * 64 * 4);
        let h_oy: Handle = self.empty(quant_x.num_blocks as u64 * 64 * 4);
        let h_ob: Handle = self.empty(quant_x.num_blocks as u64 * 64 * 4);
        let launch: Launch = dequant_dct8_broadcast_w(
            quant_x.handle,
            quant_y.handle,
            quant_b.handle,
            weights_x.handle,
            weights_y.handle,
            weights_b.handle,
            h_qmx,
            h_qmy,
            h_qmb,
            h_xf,
            h_bf,
            h_ox,
            h_oy,
            h_ob,
            quant_x.num_blocks,
        );
        proof {
            assert(array_fits(launch@.arrays[0], self@.buffers));
            assert(array_fits(launch@.arrays[1], self@.buffers));
            assert(array_fits(launch@.arrays[2], self@.buffers));
            assert(array_fits(launch@.arrays[3], self@.buffers));
            assert(array_fits(launch@.arrays[4], self@.buffers));
            assert(array_fits(launch@.arrays[5], self@.buffers));
            assert(array_fits(launch@.arrays[6], self@.buffers));
            assert(array_fits(launch@.arrays[7], self@.buffers));
            assert(array_fits(launch@.arrays[8], self@.buffers));
            assert(array_fits(launch@.arrays[9], self@.buffers));
            assert(array_fits(launch@.arrays[10], self@.buffers));
            assert(array_fits(launch@.arrays[11], self@.buffers));
            assert(array_fits(launch@.arrays[12], self@.buffers));
            assert(array_fits(launch@.arrays[13], self@.buffers));
        }
        self.launch(launch);
        (
            GpuBlocks { handle: h_ox, num_blocks: quant_x.num_blocks, coeffs_per_block: 64 },
            GpuBlocks { handle: h_oy, num_blocks: quant_x.num_blocks, coeffs_per_block: 64 },
            GpuBlocks { handle: h_ob, num_blocks: quant_x.num_blocks, coeffs_per_block: 64 },
        )
    }

    /// Gathers the `tile_w` by `tile_h` blocks of a plane in row-major order.
    pub fn gather_blocks_persistent(
        &mut self,
        plane: &GpuPlane,
        tile_w: u32,
        tile_h: u32,
    ) -> (r: GpuBlocks)
        requires
            old(self)@.wf(),
            plane.lives_in(old(self)@),
            tile_w > 0,
            tile_h > 0,
            plane.width % tile_w == 0,
            plane.height % tile_h == 0,
            (plane.width / tile_w) * (plane.height / tile_h) <= u32::MAX,
            tile_w * tile_h <= u32::MAX,
        ensures
            (final(self)@, r) == gather_blocks_persistent_steps(
                old(self)@,
                *plane,
                tile_w,
                tile_h,
            ),
            final(self)@.wf(),
            old(self)@.grows_into(final(self)@),
            r.lives_in(final(self)@),
            r.num_blocks == ((plane.width / tile_w) * (plane.height / tile_h)),
            r.coeffs_per_block == (tile_w * tile_h),
    {
        proof {
            reveal(gather_blocks_persistent_steps);
            lemma_tiles_fill(plane.width, plane.height, tile_w, tile_h);
        }
        let h_out: Handle = self.empty(
            area((plane.width / tile_w) * (plane.height / tile_h), tile_w * tile_h) * 4,
        );
        let launch: Launch = gather_blocks(
            plane.handle,
            h_out,
            area(plane.width, plane.height),
            area((plane.width / tile_w) * (plane.height / tile_h), tile_w * tile_h),
            plane.width,
            plane.width / tile_w,
            tile_w,
            tile_h,
        );
        proof {
            assert(array_fits(launch@.arrays[0], self@.buffers));
            assert(array_fits(launch@.arrays[1], self@.buffers));
        }
        self.launch(launch);
        GpuBlocks {
            handle: h_out,
            num_blocks: ((plane.width / tile_w) * (plane.height / tile_h)) as u32,
            coeffs_per_block: (tile_w * tile_h) as u32,
        }
    }

    /// Scatters the `tile_w` by `tile_h` blocks of a plane back to their
    /// places.
    pub fn scatter_blocks_persistent(
        &mut self,
        blocks: &GpuBlocks,
        width: u32,
        height: u32,
        tile_w: u32,
        tile_h: u32,
    ) -> (r: GpuPlane)
        requires
            old(self)@.wf(),
            blocks.lives_in(old(self)@),
            tile_w > 0,
            tile_h > 0,
            width % tile_w == 0,
            height % tile_h == 0,
            blocks.coeffs_per_block == tile_w * tile_h,
            blocks.num_blocks == (width / tile_w) * (height / tile_h),
            width * height * 4 <= u64::MAX,
        ensures
            (final(self)@, r) == scatter_blocks_persistent_steps(
                old(self)@,
                *blocks,
                width,
                height,
                tile_w,
                tile_h,
            ),
            final(self)@.wf(),
            old(self)@.grows_into(final(self)@),
            r.lives_in(final(self)@),
            r.width == width,
            r.height == height,
    {
        proof {
            reveal(scatter_blocks_persistent_steps);
        }
        let h_out: Handle = self.empty(area(width, height) * 4);
        let launch: Launch = scatter_blocks(
            blocks.handle,
            h_out,
            area(blocks.num_blocks, blocks.coeffs_per_block),
            area(width, height),
            width,
            width / tile_w,
            tile_w,
            tile_h,
        );
        proof {
            assert(array_fits(launch@.arrays[0], self@.buffers));
            assert(array_fits(launch@.arrays[1], self@.buffers));
        }
        self.launch(launch);
        GpuPlane { handle: h_out, width: width, height: height }
    }

    /// Copies the first coefficient of each block of `src` to `dst`.
    pub fn restore_dc_persistent(
        &mut self,
        src: &GpuBlocks,
        dst: &GpuBlocks,
    )
        requires
            old(self)@.wf(),
            src.lives_in(old(self)@),
            dst.lives_in(old(self)@),
            src.coeffs_per_block == dst.coeffs_per_block,
            src.num_blocks == dst.num_blocks,
        ensures
            final(self)@ == restore_dc_persistent_steps(
                old(self)@,
                *src,
                *dst,
            ),
            final(self)@.wf(),
            old(self)@.grows_into(final(self)@),
    {
        proof {
            reveal(restore_dc_persistent_steps);
        }
        let launch: Launch = restore_dc(
            src.handle,
            dst.handle,
            src.coeffs_per_block,
            src.num_blocks,
        );
        proof {
            assert(array_fits(launch@.arrays[0], self@.buffers));
            assert(array_fits(launch@.arrays[1], self@.buffers));
        }
        self.launch(launch);
    }

    /// Sets the lowest coefficients of DCT64x64 blocks at listed positions from
    /// a grid of block means.
    pub fn set_llf_dct64x64_indexed_persistent(
        &mut self,
        dc_grid: &GpuBlocks,
        coords: &[(u32, u32)],
        dst: &GpuBlocks,
        dc_stride: u32,
    )
        requires
            old(self)@.wf(),
            dc_grid.lives_in(old(self)@),
            dst.lives_in(old(self)@),
            dc_grid.coeffs_per_block == 1,
            dst.coeffs_per_block == 4096,
            coords@.len() == dst.num_blocks,
        ensures
            final(self)@ == set_llf_dct64x64_indexed_persistent_steps(
                old(self)@,
                *dc_grid,
                coords@,
                *dst,
                dc_stride,
            ),
            final(self)@.wf(),
            old(self)@.grows_into(final(self)@),
    {
        proof {
            reveal(set_llf_dct64x64_indexed_persistent_steps);
        }
        let h_coords: Handle = self.create(flatten_coords(coords));
        let launch: Launch = set_llf_dct64x64_indexed(
            dc_grid.handle,
            h_coords,
            dst.handle,
            dc_grid.num_blocks as u64,
            area(dst.num_blocks, dst.coeffs_per_block),
            dc_stride,
            dst.coeffs_per_block,
            dst.num_blocks,
        );
        proof {
            assert(array_fits(launch@.arrays[0], self@.buffers));
            assert(array_fits(launch@.arrays[1], self@.buffers));
            assert(array_fits(launch@.arrays[2], self@.buffers));
        }
        self.launch(launch);
    }

    /// Sets the lowest coefficients of DCT64x32 blocks at listed positions from
    /// a grid of block means.
    pub fn set_llf_dct64x32_indexed_persistent(
        &mut self,
        dc_grid: &GpuBlocks,
        coords: &[(u32, u32)],
        dst: &GpuBlocks,
        dc_stride: u32,
    )
        requires
            old(self)@.wf(),
            dc_grid.lives_in(old(self)@),
            dst.lives_in(old(self)@),
            dc_grid.coeffs_per_block == 1,
            dst.coeffs_per_block == 2048,
            coords@.len() == dst.num_blocks,
        ensures
            final(self)@ == set_llf_dct64x32_indexed_persistent_steps(
                old(self)@,
                *dc_grid,
                coords@,
                *dst,
                dc_stride,
            ),
            final(self)@.wf(),
            old(self)@.grows_into(final(self)@),
    {
        proof {
            reveal(set_llf_dct64x32_indexed_persistent_steps);
        }
        let h_coords: Handle = self.create(flatten_coords(coords));
        let launch: Launch = set_llf_dct64x32_indexed(
            dc_grid.handle,
            h_coords,
            dst.handle,
            dc_grid.num_blocks as u64,
            area(dst.num_blocks, dst.coeffs_per_block),
            dc_stride,
            dst.coeffs_per_block,
            dst.num_blocks,
        );
        proof {
            assert(array_fits(launch@.arrays[0], self@.buffers));
            assert(array_fits(launch@.arrays[1], self@.buffers));
            assert(array_fits(launch@.arrays[2], self@.buffers));
        }
        self.launch(launch);
    }

    /// Sets the lowest coefficients of DCT32x64 blocks at listed positions from
    /// a grid of block means.
    pub fn set_llf_dct32x64_indexed_persistent(
        &mut self,
        dc_grid: &GpuBlocks,
        coords: &[(u32, u32)],
        dst: &GpuBlocks,
        dc_stride: u32,
    )
        requires
            old(self)@.wf(),
            dc_grid.lives_in(old(self)@),
            dst.lives_in(old(self)@),
            dc_grid.coeffs_per_block == 1,
            dst.coeffs_per_block == 2048,
            coords@.len() == dst.num_blocks,
        ensures
            final(self)@ == set_llf_dct32x64_indexed_persistent_steps(
                old(self)@,
                *dc_grid,
                coords@,
                *dst,
                dc_stride,
            ),
            final(self)@.wf(),
            old(self)@.grows_into(final(self)@),
    {
        proof {
            reveal(set_llf_dct32x64_indexed_persistent_steps);
        }
        let h_coords: Handle = self.create(flatten_coords(coords));
        let launch: Launch = set_llf_dct32x64_indexed(
            dc_grid.handle,
            h_coords,
            dst.handle,
            dc_grid.num_blocks as u64,
            area(dst.num_blocks, dst.coeffs_per_block),
            dc_stride,
            dst.coeffs_per_block,
            dst.num_blocks,
        );
        proof {
            assert(array_fits(launch@.arrays[0], self@.buffers));
            assert(array_fits(launch@.arrays[1], self@.buffers));
            assert(array_fits(launch@.arrays[2], self@.buffers));
        }
        self.launch(launch);
    }

    /// Sets the lowest coefficients of DCT32x16 blocks at listed positions from
    /// a grid of block means.
    pub fn set_llf_dct32x16_indexed_persistent(
        &mut self,
        dc_grid: &GpuBlocks,
        coords: &[(u32, u32)],
        dst: &GpuBlocks,
        dc_stride: u32,
    )
        requires
            old(self)@.wf(),
            dc_grid.lives_in(old(self)@),
            dst.lives_in(old(self)@),
            dc_grid.coeffs_per_block == 1,
            dst.coeffs_per_block == 512,
            coords@.len() == dst.num_blocks,
        ensures
            final(self)@ == set_llf_dct32x16_indexed_persistent_steps(
                old(self)@,
                *dc_grid,
                coords@,
                *dst,
                dc_stride,
            ),
            final(self)@.wf(),
            old(self)@.grows_into(final(self)@),
    {
        proof {
            reveal(set_llf_dct32x16_indexed_persistent_steps);
        }
        let h_coords: Handle = self.create(flatten_coords(coords));
        let launch: Launch = set_llf_dct32x16_indexed(
            dc_grid.handle,
            h_coords,
            dst.handle,
            dc_grid.num_blocks as u64,
            area(dst.num_blocks, dst.coeffs_per_block),
            dc_stride,
            dst.coeffs_per_block,
            dst.num_blocks,
        );
        proof {
            assert(array_fits(launch@.arrays[0], self@.buffers));
            assert(array_fits(launch@.arrays[1], self@.buffers));
            assert(array_fits(launch@.arrays[2], self@.buffers));
        }
        self.launch(launch);
    }

    /// Sets the lowest coefficients of DCT16x32 blocks at listed positions from
    /// a grid of block means.
    pub fn set_llf_dct16x32_indexed_persistent(
        &mut self,
        dc_grid: &GpuBlocks,
        coords: &[(u32, u32)],
        dst: &GpuBlocks,
        dc_stride: u32,
    )
        requires
            old(self)@.wf(),
            dc_grid.lives_in(old(self)@),
            dst.lives_in(old(self)@),
            dc_grid.coeffs_per_block == 1,
            dst.coeffs_per_block == 512,
            coords@.len() == dst.num_blocks,
        ensures
            final(self)@ == set_llf_dct16x32_indexed_persistent_steps(
                old(self)@,
                *dc_grid,
                coords@,
                *dst,
                dc_stride,
            ),
            final(self)@.wf(),
            old(self)@.grows_into(final(self)@),
    {
        proof {
            reveal(set_llf_dct16x32_indexed_persistent_steps);
        }
        let h_coords: Handle = self.create(flatten_coords(coords));
        let launch: Launch = set_llf_dct16x32_indexed(
            dc_grid.handle,
            h_coords,
            dst.handle,
            dc_grid.num_blocks as u64,
            area(dst.num_blocks, dst.coeffs_per_block),
            dc_stride,
            dst.coeffs_per_block,
            dst.num_blocks,
        );
        proof {
            assert(array_fits(launch@.arrays[0], self@.buffers));
            assert(array_fits(launch@.arrays[1], self@.buffers));
            assert(array_fits(launch@.arrays[2], self@.buffers));
        }
        self.launch(launch);
    }

    /// Sets the lowest coefficients of DCT32x32 blocks at listed positions from
    /// a grid of block means.
    pub fn set_llf_dct32x32_indexed_persistent(
        &mut self,
        dc_grid: &GpuBlocks,
        coords: &[(u32, u32)],
        dst: &GpuBlocks,
        dc_stride: u32,
    )
        requires
            old(self)@.wf(),
            dc_grid.lives_in(old(self)@),
            dst.lives_in(old(self)@),
            dc_grid.coeffs_per_block == 1,
            dst.coeffs_per_block == 1024,
            coords@.len() == dst.num_blocks,
        ensures
            final(self)@ == set_llf_dct32x32_indexed_persistent_steps(
                old(self)@,
                *dc_grid,
                coords@,
                *dst,
                dc_stride,
            ),
            final(self)@.wf(),
            old(self)@.grows_into(final(self)@),
    {
        proof {
            reveal(set_llf_dct32x32_indexed_persistent_steps);
        }
        let h_coords: Handle = self.create(flatten_coords(coords));
        let launch: Launch = set_llf_dct32x32_indexed(
            dc_grid.handle,
            h_coords,
            dst.handle,
            dc_grid.num_blocks as u64,
            area(dst.num_blocks, dst.coeffs_per_block),
            dc_stride,
            dst.coeffs_per_block,
            dst.num_blocks,
        );
        proof {
            assert(array_fits(launch@.arrays[0], self@.buffers));
            assert(array_fits(launch@.arrays[1], self@.buffers));
            assert(array_fits(launch@.arrays[2], self@.buffers));
        }
        self.launch(launch);
    }

    /// Sets the lowest coefficients of DCT16x16 blocks at listed positions from
    /// a grid of block means.
    pub fn set_llf_dct16x16_indexed_persistent(
        &mut self,
        dc_grid: &GpuBlocks,
        coords: &[(u32, u32)],
        dst: &GpuBlocks,
        dc_stride: u32,
    )
        requires
            old(self)@.wf(),
            dc_grid.lives_in(old(self)@),
            dst.lives_in(old(self)@),
            dc_grid.coeffs_per_block == 1,
            dst.coeffs_per_block == 256,
            coords@.len() == dst.num_blocks,
        ensures
            final(self)@ == set_llf_dct16x16_indexed_persistent_steps(
                old(self)@,
                *dc_grid,
                coords@,
                *dst,
                dc_stride,
            ),
            final(self)@.wf(),
            old(self)@.grows_into(final(self)@),
    {
        proof {
            reveal(set_llf_dct16x16_indexed_persistent_steps);
        }
        let h_coords: Handle = self.create(flatten_coords(coords));
        let launch: Launch = set_llf_dct16x16_indexed(
            dc_grid.handle,
            h_coords,
            dst.handle,
            dc_grid.num_blocks as u64,
            area(dst.num_blocks, dst.coeffs_per_block),
            dc_stride,
            dst.coeffs_per_block,
            dst.num_blocks,
        );
        proof {
            assert(array_fits(launch@.arrays[0], self@.buffers));
            assert(array_fits(launch@.arrays[1], self@.buffers));
            assert(array_fits(launch@.arrays[2], self@.buffers));
        }
        self.launch(launch);
    }

    /// Sets the two lowest coefficients of DCT16x8 or DCT8x16 blocks at listed
    /// positions from a grid of block means, `dc_step` apart.
    pub fn set_llf_dct16x8_or_8x16_indexed_persistent(
        &mut self,
        dc_grid: &GpuBlocks,
        coords: &[(u32, u32)],
        dst: &GpuBlocks,
        dc_stride: u32,
        dc_step: u32,
    )
        requires
            old(self)@.wf(),
            dc_grid.lives_in(old(self)@),
            dst.lives_in(old(self)@),
            dc_grid.coeffs_per_block == 1,
            dst.coeffs_per_block >= 2,
            coords@.len() == dst.num_blocks,
        ensures
            final(self)@ == set_llf_dct16x8_or_8x16_indexed_persistent_steps(
                old(self)@,
                *dc_grid,
                coords@,
                *dst,
                dc_stride,
                dc_step,
            ),
            final(self)@.wf(),
            old(self)@.grows_into(final(self)@),
    {
        proof {
            reveal(set_llf_dct16x8_or_8x16_indexed_persistent_steps);
        }
        let h_coords: Handle = self.create(flatten_coords(coords));
        let launch: Launch = set_llf_dct16x8_or_8x16_indexed(
            dc_grid.handle,
            h_coords,
            dst.handle,
            dc_grid.num_blocks as u64,
            area(dst.num_blocks, dst.coeffs_per_block),
            dc_stride,
            dc_step,
            dst.coeffs_per_block,
            dst.num_blocks,
        );
        proof {
            assert(array_fits(launch@.arrays[0], self@.buffers));
            assert(array_fits(launch@.arrays[1], self@.buffers));
            assert(array_fits(launch@.arrays[2], self@.buffers));
        }
        self.launch(launch);
    }

    /// Sets the first coefficient of blocks at listed positions from a grid of
    /// block means.
    pub fn set_dc_from_grid_indexed_persistent(
        &mut self,
        dc_grid: &GpuBlocks,
        coords: &[(u32, u32)],
        dst: &GpuBlocks,
        dc_stride: u32,
    )
        requires
            old(self)@.wf(),
            dc_grid.lives_in(old(self)@),
            dst.lives_in(old(self)@),
            dc_grid.coeffs_per_block == 1,
            coords@.len() == dst.num_blocks,
        ensures
            final(self)@ == set_dc_from_grid_indexed_persistent_steps(
                old(self)@,
                *dc_grid,
                coords@,
                *dst,
                dc_stride,
            ),
            final(self)@.wf(),
            old(self)@.grows_into(final(self)@),
    {
        proof {
            reveal(set_dc_from_grid_indexed_persistent_steps);
        }
        let h_coords: Handle = self.create(flatten_coords(coords));
        let launch: Launch = set_dc_from_grid_indexed(
            dc_grid.handle,
            h_coords,
            dst.handle,
            dc_grid.num_blocks as u64,
            area(dst.num_blocks, dst.coeffs_per_block),
            dc_stride,
            dst.coeffs_per_block,
            dst.num_blocks,
        );
        proof {
            assert(array_fits(launch@.arrays[0], self@.buffers));
            assert(array_fits(launch@.arrays[1], self@.buffers));
            assert(array_fits(launch@.arrays[2], self@.buffers));
        }
        self.launch(launch);
    }

    /// Gathers the `tile_w` by `tile_h` blocks of a plane at listed positions.
    pub fn indexed_gather_blocks_persistent(
        &mut self,
        plane: &GpuPlane,
        coords: &[(u32, u32)],
        tile_w: u32,
        tile_h: u32,
    ) -> (r: GpuBlocks)
        requires
            old(self)@.wf(),
            plane.lives_in(old(self)@),
            coords@.len() <= u32::MAX,
            tile_w * tile_h <= u32::MAX,
            coords@.len() * tile_w <= u32::MAX,
            coords@.len() * tile_w * tile_h <= u32::MAX,
        ensures
            (final(self)@, r) == indexed_gather_blocks_persistent_steps(
                old(self)@,
                *plane,
                coords@,
                tile_w,
                tile_h,
            ),
            final(self)@.wf(),
            old(self)@.grows_into(final(self)@),
            r.lives_in(final(self)@),
            r.num_blocks == coords.len() as u32,
            r.coeffs_per_block == (tile_w * tile_h),
    {
        proof {
            reveal(indexed_gather_blocks_persistent_steps);
            lemma_block_area(coords@.len() as u32, tile_w, tile_h);
        }
        let h_coords: Handle = self.create(flatten_coords(coords));
        let h_out: Handle = self.empty(area(coords.len() as u32 * tile_w, tile_h) * 4);
        let launch: Launch = indexed_gather(
            plane.handle,
            h_coords,
            h_out,
            plane.width,
            area(plane.width, plane.height),
            coords.len() as u32,
            tile_w,
            tile_h,
        );
        proof {
            assert(array_fits(launch@.arrays[0], self@.buffers));
            assert(array_fits(launch@.arrays[1], self@.buffers));
            assert(array_fits(launch@.arrays[2], self@.buffers));
        }
        self.launch(launch);
        GpuBlocks {
            handle: h_out,
            num_blocks: coords.len() as u32,
            coeffs_per_block: (tile_w * tile_h) as u32,
        }
    }

    /// Scatters blocks to listed positions of a plane.
    pub fn indexed_scatter_blocks_persistent(
        &mut self,
        blocks: &GpuBlocks,
        coords: &[(u32, u32)],
        plane: &GpuPlane,
        tile_w: u32,
        tile_h: u32,
    )
        requires
            old(self)@.wf(),
            blocks.lives_in(old(self)@),
            plane.lives_in(old(self)@),
            blocks.num_blocks == coords@.len(),
            blocks.coeffs_per_block == tile_w * tile_h,
            coords@.len() * tile_w <= u32::MAX,
            coords@.len() * tile_w * tile_h <= u32::MAX,
        ensures
            final(self)@ == indexed_scatter_blocks_persistent_steps(
                old(self)@,
                *blocks,
                coords@,
                *plane,
                tile_w,
                tile_h,
            ),
            final(self)@.wf(),
            old(self)@.grows_into(final(self)@),
    {
        proof {
            reveal(indexed_scatter_blocks_persistent_steps);
            lemma_block_area(blocks.num_blocks, tile_w, tile_h);
        }
        let h_coords: Handle = self.create(flatten_coords(coords));
        let launch: Launch = indexed_scatter(
            blocks.handle,
            h_coords,
            plane.handle,
            plane.width,
            area(plane.width, plane.height),
            blocks.num_blocks,
            tile_w,
            tile_h,
        );
        proof {
            assert(array_fits(launch@.arrays[0], self@.buffers));
            assert(array_fits(launch@.arrays[1], self@.buffers));
            assert(array_fits(launch@.arrays[2], self@.buffers));
        }
        self.launch(launch);
    }

    /// The mean of each 8x8 block of a plane.
    pub fn dc_grid_8x8_persistent(
        &mut self,
        plane: &GpuPlane,
    ) -> (r: GpuBlocks)
        requires
            old(self)@.wf(),
            plane.lives_in(old(self)@),
            plane.width % 8 == 0,
            plane.height % 8 == 0,
            (plane.width / 8) * (plane.height / 8) <= u32::MAX,
        ensures
            (final(self)@, r) == dc_grid_8x8_persistent_steps(
                old(self)@,
                *plane,
            ),
            final(self)@.wf(),
            old(self)@.grows_into(final(self)@),
            r.lives_in(final(self)@),
            r.num_blocks == ((plane.width / 8) * (plane.height / 8)),
            r.coeffs_per_block == 1,
    {
        proof {
            reveal(dc_grid_8x8_persistent_steps);
        }
        let h_out: Handle = self.empty(area(plane.width / 8, plane.height / 8) * 4);
        let launch: Launch = dc_grid_8x8(plane.handle, h_out, plane.width, plane.height);
        proof {
            assert(array_fits(launch@.arrays[0], self@.buffers));
            assert(array_fits(launch@.arrays[1], self@.buffers));
        }
        self.launch(launch);
        let out: GpuBlocks = GpuBlocks {
            handle: h_out,
            num_blocks: ((plane.width / 8) * (plane.height / 8)) as u32,
            coeffs_per_block: 1,
        };
        assert(out.num_blocks * out.coeffs_per_block == out.num_blocks) by (nonlinear_arith)
            requires
                out.coeffs_per_block == 1,
        ;
        out
    }

    /// The masking value of each pixel of a luma plane.
    pub fn mask1x1_persistent(
        &mut self,
        y: &GpuPlane,
    ) -> (r: GpuPlane)
        requires
            old(self)@.wf(),
            y.lives_in(old(self)@),
            y.width * y.height <= u32::MAX,
        ensures
            (final(self)@, r) == mask1x1_persistent_steps(
                old(self)@,
                *y,
            ),
            final(self)@.wf(),
            old(self)@.grows_into(final(self)@),
            r.lives_in(final(self)@),
            r.width == y.width,
            r.height == y.height,
    {
        proof {
            reveal(mask1x1_persistent_steps);
        }
        let h_out: Handle = self.empty(area(y.width, y.height) * 4);
        let launch: Launch = mask1x1(y.handle, h_out, y.width, y.height);
        proof {
            assert(array_fits(launch@.arrays[0], self@.buffers));
            assert(array_fits(launch@.arrays[1], self@.buffers));
        }
        self.launch(launch);
        GpuPlane { handle: h_out, width: y.width, height: y.height }
    }
}

impl GpuEncoder {
    /// Reads a plane back.
    pub fn download_plane(&mut self, plane: &GpuPlane)
        requires
            old(self)@.wf(),
            plane.lives_in(old(self)@),
        ensures
            final(self)@ == old(self)@.read(seq![plane.handle]),
            final(self)@.wf(),
    {
        self.read_one(plane.handle);
    }

    /// Reads three planes back at once.
    pub fn download_planes_3ch(&mut self, x: &GpuPlane, y: &GpuPlane, b: &GpuPlane)
        requires
            old(self)@.wf(),
            x.lives_in(old(self)@),
            y.lives_in(old(self)@),
            b.lives_in(old(self)@),
        ensures
            final(self)@ == old(self)@.read(seq![x.handle, y.handle, b.handle]),
            final(self)@.wf(),
            old(self)@.grows_into(final(self)@),
    {
        let handles: Vec<Handle> = vec![x.handle, y.handle, b.handle];
        assert(handles@ =~= seq![x.handle, y.handle, b.handle]);
        self.read(handles);
    }

    /// Reads blocks back.
    pub fn download_blocks(&mut self, blocks: &GpuBlocks)
        requires
            old(self)@.wf(),
            blocks.lives_in(old(self)@),
        ensures
            final(self)@ == old(self)@.read(seq![blocks.handle]),
            final(self)@.wf(),
    {
        self.read_one(blocks.handle);
    }

    /// Reads back blocks whose numbers are of double precision.
    pub fn download_blocks_f64(&mut self, blocks: &GpuBlocks)
        requires
            old(self)@.wf(),
            blocks.lives_in(old(self)@),
        ensures
            final(self)@ == old(self)@.read(seq![blocks.handle]),
            final(self)@.wf(),
    {
        self.read_one(blocks.handle);
    }

    /// Reads blocks of integers back.
    pub fn download_i32_blocks(&mut self, blocks: &GpuI32Blocks)
        requires
            old(self)@.wf(),
            blocks.lives_in(old(self)@),
        ensures
            final(self)@ == old(self)@.read(seq![blocks.handle]),
            final(self)@.wf(),
    {
        self.read_one(blocks.handle);
    }

    fn read_one(&mut self, handle: Handle)
        requires
            old(self)@.wf(),
            handle.id < old(self)@.buffers.len(),
        ensures
            final(self)@ == old(self)@.read(seq![handle]),
            final(self)@.wf(),
            old(self)@.grows_into(final(self)@),
    {
        let handles: Vec<Handle> = vec![handle];
        assert(handles@ =~= seq![handle]);
        self.read(handles);
    }

    /// Counts tokens by their low bits on the device, into `bucket_count`
    /// buckets, and reads the counts back.
    pub fn histogram_count_pow2(&mut self, tokens: &[u32], bucket_count: u32)
        requires
            old(self)@.wf(),
            is_power_of_two(bucket_count),
            tokens@.len() <= u32::MAX,
        ensures
            final(self)@ == histogram_steps(
                old(self)@.create(tokens@),
                old(self)@.next(),
                tokens@.len() as u32,
                bucket_count,
            ),
            final(self)@.wf(),
    {
        let n: u32 = tokens.len() as u32;
        let h_tokens: Handle = self.create(copy_words(tokens));
        self.count_tokens(h_tokens, n, bucket_count);
    }

    /// As [`GpuEncoder::histogram_count_pow2`], for tokens already on the
    /// device.
    pub fn histogram_count_pow2_persistent(&mut self, tokens: &GpuI32Blocks, bucket_count: u32)
        requires
            old(self)@.wf(),
            is_power_of_two(bucket_count),
            tokens.lives_in(old(self)@),
            tokens.num_blocks * tokens.coeffs_per_block <= u32::MAX,
        ensures
            final(self)@ == histogram_steps(
                old(self)@,
                tokens.handle,
                (tokens.num_blocks * tokens.coeffs_per_block) as u32,
                bucket_count,
            ),
            final(self)@.wf(),
    {
        self.count_tokens(tokens.handle, tokens.num_blocks * tokens.coeffs_per_block, bucket_count);
    }

    fn count_tokens(&mut self, tokens: Handle, n: u32, bucket_count: u32)
        requires
            old(self)@.wf(),
            is_power_of_two(bucket_count),
            old(self)@.holds(tokens, n * 4),
        ensures
            final(self)@ == histogram_steps(old(self)@, tokens, n, bucket_count),
            final(self)@.wf(),
    {
        proof {
            reveal(histogram_steps);
        }
        let h_hist: Handle = self.create(zero_words(bucket_count));
        match histogram_count_pow2(tokens, h_hist, n, bucket_count) {
            Some(launch) => {
                proof {
                    assert(array_fits(launch@.arrays[0], self@.buffers));
                    assert(array_fits(launch@.arrays[1], self@.buffers));
                }
                self.launch(launch);
            },
            None => {},
        }
        self.read_one(h_hist);
    }

    /// Puts interleaved sRGB bytes on the device and turns them into three
    /// padded planes of linear light.
    pub fn upload_u8_rgb_to_linear_planar_padded(
        &mut self,
        pixels: &[u8],
        width: u32,
        height: u32,
        padded_width: u32,
        padded_height: u32,
    ) -> (r: (GpuPlane, GpuPlane, GpuPlane))
        requires
            old(self)@.wf(),
            pixels@.len() == width * height * 3,
            padded_width * padded_height * 4 <= u64::MAX,
        ensures
            (final(self)@, r) == upload_u8_steps(
                old(self)@,
                pixels@,
                width,
                height,
                padded_width,
                padded_height,
            ),
            final(self)@.wf(),
            old(self)@.grows_into(final(self)@),
            r.0.lives_in(final(self)@),
            r.0.width == padded_width,
            r.0.height == padded_height,
            r.1.lives_in(final(self)@),
            r.1.width == padded_width,
            r.1.height == padded_height,
            r.2.lives_in(final(self)@),
            r.2.width == padded_width,
            r.2.height == padded_height,
    {
        proof {
            reveal(upload_u8_steps);
        }
        let n_bytes: usize = pixels.len();
        assert(width * height * 3 == n_bytes && n_bytes <= u64::MAX);
        let h_src: Handle = self.create_bytes(copy_bytes(pixels));
        let h_r: Handle = self.empty(area(padded_width, padded_height) * 4);
        let h_g: Handle = self.empty(area(padded_width, padded_height) * 4);
        let h_b: Handle = self.empty(area(padded_width, padded_height) * 4);
        let launch: Launch = u8_rgb_to_linear_planar_padded(
            h_src,
            h_r,
            h_g,
            h_b,
            width,
            height,
            padded_width,
            padded_height,
        );
        proof {
            assert(array_fits(launch@.arrays[0], self@.buffers));
            assert(array_fits(launch@.arrays[1], self@.buffers));
            assert(array_fits(launch@.arrays[2], self@.buffers));
            assert(array_fits(launch@.arrays[3], self@.buffers));
        }
        self.launch(launch);
        (
            GpuPlane { handle: h_r, width: padded_width, height: padded_height },
            GpuPlane { handle: h_g, width: padded_width, height: padded_height },
            GpuPlane { handle: h_b, width: padded_width, height: padded_height },
        )
    }

    /// Pads three planes by `pad` pixels on every side.
    pub fn pad_plane_3ch_persistent(
        &mut self,
        x: &GpuPlane,
        y: &GpuPlane,
        b: &GpuPlane,
        pad: u32,
    ) -> (r: (GpuPlane, GpuPlane, GpuPlane))
        requires
            old(self)@.wf(),
            x.lives_in(old(self)@),
            y.lives_in(old(self)@),
            b.lives_in(old(self)@),
            y.width == x.width,
            y.height == x.height,
            b.width == x.width,
            b.height == x.height,
            x.width + 2 * pad <= u32::MAX,
            x.height + 2 * pad <= u32::MAX,
            (x.width + 2 * pad) * (x.height + 2 * pad) * 4 <= u64::MAX,
        ensures
            (final(self)@, r) == pad_plane_3ch_steps(old(self)@, *x, *y, *b, pad),
            final(self)@.wf(),
            old(self)@.grows_into(final(self)@),
            r.0.lives_in(final(self)@),
            r.1.lives_in(final(self)@),
            r.2.lives_in(final(self)@),
            r.0.width == x.width + 2 * pad,
            r.0.height == x.height + 2 * pad,
            r.1.width == x.width + 2 * pad,
            r.1.height == x.height + 2 * pad,
            r.2.width == x.width + 2 * pad,
            r.2.height == x.height + 2 * pad,
    {
        proof {
            reveal(pad_plane_3ch_steps);
            reveal(pad_plane_persistent_steps);
        }
        let p_x: GpuPlane = self.pad_plane_persistent(x, pad);
        let p_y: GpuPlane = self.pad_plane_persistent(y, pad);
        let p_b: GpuPlane = self.pad_plane_persistent(b, pad);
        (p_x, p_y, p_b)
    }

    /// The mean of a mask over each 8x8 block of a padded plane, pixels
    /// outside `width` by `height` left out.
    pub fn block_mask_mean_persistent(&mut self, mask: &GpuPlane, width: u32, height: u32) -> (r:
        GpuBlocks)
        requires
            old(self)@.wf(),
            mask.lives_in(old(self)@),
            (mask.width / 8) * (mask.height / 8) <= u32::MAX,
        ensures
            (final(self)@, r) == block_mask_mean_steps(old(self)@, *mask, width, height),
            final(self)@.wf(),
            old(self)@.grows_into(final(self)@),
            r.lives_in(final(self)@),
            r.num_blocks == (mask.width / 8) * (mask.height / 8),
            r.coeffs_per_block == 1,
    {
        proof {
            reveal(block_mask_mean_steps);
        }
        let h_out: Handle = self.empty(area(mask.width / 8, mask.height / 8) * 4);
        let launch: Launch = block_mask_mean(
            mask.handle,
            h_out,
            width,
            height,
            mask.width,
            mask.height,
        );
        proof {
            assert(array_fits(launch@.arrays[0], self@.buffers));
            assert(array_fits(launch@.arrays[1], self@.buffers));
        }
        self.launch(launch);
        let out: GpuBlocks = GpuBlocks {
            handle: h_out,
            num_blocks: (mask.width / 8) * (mask.height / 8),
            coeffs_per_block: 1,
        };
        assert(out.num_blocks * out.coeffs_per_block == out.num_blocks) by (nonlinear_arith)
            requires
                out.coeffs_per_block == 1,
        ;
        out
    }
}

/// What counting `n` tokens records: a histogram of zeros, the launch unless
/// there are no tokens, and the reading back.
#[verifier::opaque]
pub open spec fn histogram_steps(
    s0: Recording,
    tokens: Handle,
    n: u32,
    bucket_count: u32,
) -> Recording {
    let h_hist = s0.next();
    let s1 = s0.create(Seq::new(bucket_count as nat, |i: int| 0u32));
    let s2 = if n == 0 {
        s1
    } else {
        s1.launch(histogram_count_pow2_launch(tokens, h_hist, n, bucket_count))
    };
    s2.read(seq![h_hist])
}

/// What [`GpuEncoder::upload_u8_rgb_to_linear_planar_padded`] records and
/// returns.
#[verifier::opaque]
pub open spec fn upload_u8_steps(
    s0: Recording,
    pixels: Seq<u8>,
    width: u32,
    height: u32,
    padded_width: u32,
    padded_height: u32,
) -> (Recording, (GpuPlane, GpuPlane, GpuPlane)) {
    let h_src = s0.next();
    let s1 = s0.create_bytes(pixels);
    let h_r = s1.next();
    let s2 = s1.empty(padded_width * padded_height * 4);
    let h_g = s2.next();
    let s3 = s2.empty(padded_width * padded_height * 4);
    let h_b = s3.next();
    let s4 = s3.empty(padded_width * padded_height * 4);
    let s5 = s4.launch(
        u8_rgb_to_linear_planar_padded_launch(
            h_src,
            h_r,
            h_g,
            h_b,
            width,
            height,
            padded_width,
            padded_height,
        ),
    );
    (
        s5,
        (
            GpuPlane { handle: h_r, width: padded_width, height: padded_height },
            GpuPlane { handle: h_g, width: padded_width, height: padded_height },
            GpuPlane { handle: h_b, width: padded_width, height: padded_height },
        ),
    )
}

/// What [`GpuEncoder::pad_plane_3ch_persistent`] records and returns.
#[verifier::opaque]
pub open spec fn pad_plane_3ch_steps(
    s0: Recording,
    x: GpuPlane,
    y: GpuPlane,
    b: GpuPlane,
    pad: u32,
) -> (Recording, (GpuPlane, GpuPlane, GpuPlane)) {
    let (s1, p_x) = pad_plane_persistent_steps(s0, x, pad);
    let (s2, p_y) = pad_plane_persistent_steps(s1, y, pad);
    let (s3, p_b) = pad_plane_persistent_steps(s2, b, pad);
    (s3, (p_x, p_y, p_b))
}

/// What [`GpuEncoder::block_mask_mean_persistent`] records and returns.
#[verifier::opaque]
pub open spec fn block_mask_mean_steps(s0: Recording, mask: GpuPlane, width: u32, height: u32) -> (
    Recording,
    GpuBlocks,
) {
    let h_out = s0.next();
    let s1 = s0.empty((mask.width / 8) * (mask.height / 8) * 4);
    let s2 = s1.launch(
        block_mask_mean_launch(mask.handle, h_out, width, height, mask.width, mask.height),
    );
    (
        s2,
        GpuBlocks {
            handle: h_out,
            num_blocks: ((mask.width / 8) * (mask.height / 8)) as u32,
            coeffs_per_block: 1,
        },
    )
}

fn zero_words(n: u32) -> (r: Vec<u32>)
    ensures
        r@ == Seq::new(n as nat, |i: int| 0u32),
{
    let mut out: Vec<u32> = Vec::new();
    let mut i: u32 = 0;
    while i < n
        invariant
            i <= n,
            out@ =~= Seq::new(i as nat, |j: int| 0u32),
        decreases n - i,
    {
        out.push(0u32);
        i = i + 1;
    }
    out
}

fn copy_bytes(data: &[u8]) -> (r: Vec<u8>)
    ensures
        r@ == data@,
{
    let mut out: Vec<u8> = Vec::new();
    let mut i: usize = 0;
    while i < data.len()
        invariant
            i <= data@.len(),
            out@ =~= data@.take(i as int),
        decreases data@.len() - i,
    {
        out.push(data[i]);
        i = i + 1;
    }
    assert(data@.take(i as int) =~= data@);
    out
}

} // verus!
