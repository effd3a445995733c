//! The mask of an image in 8x8 blocks.

use crate::device::{GpuEncoder, Recording};
use crate::encode::Image;
use crate::float::Float32;
use crate::lossy_encoder::LossyEncoder;
use crate::partition::lemma_cell_of_index;
use crate::persistent::{
    mask1x1_persistent_steps, upload_planes_3ch_steps, xyb_from_linear_rgb_persistent_steps,
    GpuPlane,
};
use crate::pipeline::Planes;
use vstd::prelude::*;

verus! {

/// The mask of a block that lies outside the image: 1.
pub const OUTSIDE_MASK: u32 = 0x3f80_0000;

/// A block's share of a row or column: from its first pixel to eight further,
/// or to the end of the image where that comes first.
pub open spec fn block_range(block: int, size: int) -> (int, int) {
    let start = 8 * block;
    let end = if start + 8 <= size {
        start + 8
    } else {
        size
    };
    (
        start,
        if end >= start {
            end
        } else {
            start
        },
    )
}

/// Where an 8x8 block starts and ends within `size` pixels.
pub fn block_extent(block: usize, size: usize) -> (r: (usize, usize))
    requires
        8 * block + 8 <= usize::MAX,
    ensures
        r.0 == block_range(block as int, size as int).0,
        r.1 == block_range(block as int, size as int).1,
{
    let start: usize = 8 * block;
    let end: usize = if start + 8 <= size {
        start + 8
    } else {
        size
    };
    if end >= start {
        (start, end)
    } else {
        (start, start)
    }
}

/// The pixels of the block at column `bx` and row `by` that lie within a mask
/// of `w` by `h` pixels, row by row.
pub open spec fn block_pixels(
    mask: Seq<Float32>,
    w: int,
    h: int,
    bx: int,
    by: int,
) -> Seq<Float32> {
    let (x0, x1) = block_range(bx, w);
    let (y0, y1) = block_range(by, h);
    let n = x1 - x0;
    Seq::new((n * (y1 - y0)) as nat, |k: int| mask[(y0 + k / n) * w + x0 + k % n])
}

/// The pixels of an 8x8 block whose mean is the mask of the block: those that
/// lie within the image, row by row. A block outside the image has none, and
/// its mask is [`OUTSIDE_MASK`].
pub fn mask_block(mask: &[Float32], w: usize, h: usize, bx: usize, by: usize) -> (r: Vec<Float32>)
    requires
        mask@.len() == w * h,
        8 * bx + 8 <= usize::MAX,
        8 * by + 8 <= usize::MAX,
    ensures
        r@ == block_pixels(mask@, w as int, h as int, bx as int, by as int),
{
    let (x0, x1) = block_extent(bx, w);
    let (y0, y1) = block_extent(by, h);
    let n: usize = x1 - x0;
    let m: usize = y1 - y0;
    let ghost all = block_pixels(mask@, w as int, h as int, bx as int, by as int);
    assert(0 <= n * m <= 64) by (nonlinear_arith)
        requires
            0 <= n <= 8,
            0 <= m <= 8,
    ;
    let total: usize = n * m;
    let length: usize = mask.len();
    let mut r: Vec<Float32> = Vec::new();
    let mut k: usize = 0;
    while k < total
        invariant
            mask@.len() == w * h,
            length == mask@.len(),
            n > 0 ==> x0 + n <= w,
            m > 0 ==> y0 + m <= h,
            total == n * m,
            k <= total,
            all.len() == total,
            forall|j: int|
                0 <= j < total ==> #[trigger] all[j] == mask@[(y0 + j / (n as int)) * w + x0 + j
                    % (n as int)],
            r@ == all.take(k as int),
        decreases total - k,
    {
        proof {
            lemma_cell_of_index(n as int, m as int, k as int);
        }
        let y: usize = y0 + k / n;
        let x: usize = x0 + k % n;
        assert(0 <= y * w && y * w + x < w * h) by (nonlinear_arith)
            requires
                0 <= y < h,
                0 <= x < w,
        ;
        r.push(mask[y * w + x]);
        proof {
            assert(all[k as int] == mask@[y * w + x]);
        }
        k = k + 1;
        assert(r@ =~= all.take(k as int));
    }
    assert(all.take(k as int) =~= all);
    r
}

/// What the mask of an image takes: the upload of the image, unpadded, its
/// opponent colours, the mask of its luminance, and the reading back of that.
pub open spec fn mask_steps(s0: Recording, le: LossyEncoder, image: Image) -> (
    Recording,
    GpuPlane,
) {
    let (s1, p) = upload_planes_3ch_steps(s0, image.0, image.1, image.2, le.width, le.height);
    let (s2, xyb) = xyb_from_linear_rgb_persistent_steps(s1, p.0, p.1, p.2);
    let (s3, mask) = mask1x1_persistent_steps(s2, xyb.1);
    (s3.read(seq![mask.handle]), mask)
}

/// The pixels of the 8x8 blocks of a padded image, block by block, from the
/// mask of the image.
pub open spec fn blocks_of_mask(le: LossyEncoder, mask: Seq<Float32>) -> Seq<Seq<Float32>> {
    let across = le.padded_width as int / 8;
    Seq::new(
        le.num_blocks as nat,
        |k: int| block_pixels(mask, le.width as int, le.height as int, k % across, k / across),
    )
}

impl LossyEncoder {
    /// Records what the mask means of an image take, and the reading back of
    /// its mask. See [`LossyEncoder::mask_blocks`] for the pixels that each mean
    /// is taken over.
    pub fn compute_block_mask_means(
        &self,
        enc: &mut GpuEncoder,
        r: &[Float32],
        g: &[Float32],
        b: &[Float32],
    ) -> (mask: GpuPlane)
        requires
            old(enc)@.wf(),
            self.wf(),
            self.countable(),
            self.fits_image(r@),
            self.fits_image(g@),
            self.fits_image(b@),
        ensures
            (final(enc)@, mask) == mask_steps(old(enc)@, *self, (r@, g@, b@)),
            final(enc)@.wf(),
            old(enc)@.grows_into(final(enc)@),
            mask.lives_in(final(enc)@),
            mask.width == self.width,
            mask.height == self.height,
    {
        proof {
            assert(self.width * self.height <= self.padded_width * self.padded_height)
                by (nonlinear_arith)
                requires
                    0 <= self.width <= self.padded_width,
                    0 <= self.height <= self.padded_height,
            ;
        }
        let p: Planes = enc.upload_planes_3ch(r, g, b, self.width, self.height);
        let xyb: Planes = enc.xyb_from_linear_rgb_persistent(&p.0, &p.1, &p.2);
        let mask: GpuPlane = enc.mask1x1_persistent(&xyb.1);
        enc.download_plane(&mask);
        mask
    }

    /// The pixels of each padded 8x8 block whose mean is the mask of the block,
    /// block by block. See [`mask_block`].
    pub fn mask_blocks(&self, mask: &[Float32]) -> (r: Vec<Vec<Float32>>)
        requires
            self.wf(),
            mask@.len() == self.width * self.height,
        ensures
            r@.len() == self.num_blocks,
            forall|k: int|
                0 <= k < r@.len() ==> (#[trigger] r@[k])@ == blocks_of_mask(*self, mask@)[k],
    {
        let w: usize = self.width as usize;
        let h: usize = self.height as usize;
        let across: u32 = self.padded_width / 8;
        let n: u32 = self.num_blocks;
        let mut r: Vec<Vec<Float32>> = Vec::new();
        let mut k: u32 = 0;
        while k < n
            invariant
                self.wf(),
                w == self.width,
                h == self.height,
                mask@.len() == w * h,
                across == self.padded_width / 8,
                n == self.num_blocks,
                k <= n,
                r@.len() == k,
                forall|j: int|
                    0 <= j < k ==> (#[trigger] r@[j])@ == blocks_of_mask(*self, mask@)[j],
            decreases n - k,
        {
            proof {
                lemma_cell_of_index(across as int, (self.padded_height / 8) as int, k as int);
            }
            let bx: usize = (k % across) as usize;
            let by: usize = (k / across) as usize;
            r.push(mask_block(mask, w, h, bx, by));
            k = k + 1;
        }
        r
    }
}

/// Every pixel of a mask is among the pixels of the block that it lies in: in the
/// row and the column that it has there.
pub proof fn law_every_pixel_is_in_its_block(
    le: LossyEncoder,
    mask: Seq<Float32>,
    bx: int,
    by: int,
    dx: int,
    dy: int,
)
    requires
        le.wf(),
        mask.len() == le.width * le.height,
        0 <= bx,
        0 <= by,
        0 <= dx < 8,
        0 <= dy < 8,
        8 * bx + dx < le.width,
        8 * by + dy < le.height,
    ensures
        ({
            let across = le.padded_width as int / 8;
            let pixels = blocks_of_mask(le, mask)[by * across + bx];
            let columns = if 8 * bx + 8 <= le.width {
                8
            } else {
                le.width - 8 * bx
            };
            let rows = if 8 * by + 8 <= le.height {
                8
            } else {
                le.height - 8 * by
            };
            &&& 0 <= by * across + bx < blocks_of_mask(le, mask).len()
            &&& pixels.len() == columns * rows
            &&& pixels[dy * columns + dx] == mask[(8 * by + dy) * le.width + 8 * bx + dx]
        }),
{
    let w = le.width as int;
    let h = le.height as int;
    let across = le.padded_width as int / 8;
    let down = le.padded_height as int / 8;
    assert(bx < across && by < down);
    lemma_numbered(across, down, bx, by);
    assert(blocks_of_mask(le, mask)[by * across + bx] == block_pixels(mask, w, h, bx, by));
    lemma_pixel_of_block(mask, w, h, bx, by, dx, dy);
}

/// The number of the cell at (`x`, `y`), `xs` to a row.
proof fn lemma_numbered(xs: int, ys: int, x: int, y: int)
    requires
        0 <= x < xs,
        0 <= y < ys,
    ensures
        0 <= y * xs + x < xs * ys,
        (y * xs + x) % xs == x,
        (y * xs + x) / xs == y,
{
    assert(0 <= y * xs && y * xs + xs <= xs * ys) by (nonlinear_arith)
        requires
            0 <= y < ys,
            0 < xs,
    ;
    vstd::arithmetic::div_mod::lemma_fundamental_div_mod_converse(y * xs + x, xs, y, x);
}

proof fn lemma_pixel_of_block(
    mask: Seq<Float32>,
    w: int,
    h: int,
    bx: int,
    by: int,
    dx: int,
    dy: int,
)
    requires
        0 <= bx,
        0 <= by,
        0 <= dx < 8,
        0 <= dy < 8,
        8 * bx + dx < w,
        8 * by + dy < h,
    ensures
        ({
            let n = block_range(bx, w).1 - 8 * bx;
            let m = block_range(by, h).1 - 8 * by;
            &&& block_pixels(mask, w, h, bx, by).len() == n * m
            &&& block_pixels(mask, w, h, bx, by)[dy * n + dx] == mask[(8 * by + dy) * w + 8 * bx
                + dx]
        }),
{
    let n = block_range(bx, w).1 - 8 * bx;
    let m = block_range(by, h).1 - 8 * by;
    lemma_numbered(n, m, dx, dy);
}

} // verus!
