//! The kernels of a device as functions of what their buffers hold.

use crate::dataflow::{byte, stored_numbers, word, Bytes, Three};
use crate::device::{cube_each, spread, Kernel, Scalar};
use crate::execution::{DeviceModel, Operand};
use crate::float::Float32;
use crate::lossy_encoder::FilterParameters;
use crate::persistent::GaborishWeights;
use vstd::prelude::*;

verus! {

/// The size of a plane in pixels.
pub struct Size {
    pub width: u32,
    pub height: u32,
}

impl Size {
    pub open spec fn pixels(self) -> int {
        self.width * self.height
    }

    /// How many 8x8 blocks there are.
    pub open spec fn blocks(self) -> int {
        (self.width / 8) * (self.height / 8)
    }

    /// With a border of `pad` pixels on each side.
    pub open spec fn framed(self, pad: int) -> int {
        (self.width + 2 * pad) * (self.height + 2 * pad)
    }

    /// Whether all is counted in 32 bits, and the sides are whole blocks.
    pub open spec fn plain(self) -> bool {
        &&& self.width % 8 == 0
        &&& self.height % 8 == 0
        &&& self.pixels() <= u32::MAX
        &&& self.width + 4 <= u32::MAX
        &&& self.height + 4 <= u32::MAX
    }
}

impl DeviceModel {
    /// A plane before anything was put there.
    pub open spec fn blank(self, words: int) -> Operand {
        word((self.fresh)((words * 4) as u64), words)
    }

    /// Red, green and blue light as the opponent colours X, Y and B.
    pub open spec fn opponent_colours(self, n: int, r: Bytes, g: Bytes, b: Bytes) -> Three {
        let o = (self.kernels)(
            Kernel::XybForward,
            spread(n, 256),
            seq![
                word(r, n),
                word(g, n),
                word(b, n),
                self.blank(n),
                self.blank(n),
                self.blank(n),
            ],
            seq![],
        );
        (o[3], o[4], o[5])
    }

    /// The opponent colours X, Y and B as red, green and blue light.
    pub open spec fn light(self, n: int, x: Bytes, y: Bytes, b: Bytes) -> Three {
        let o = (self.kernels)(
            Kernel::XybInverse,
            spread(n, 256),
            seq![
                word(x, n),
                word(y, n),
                word(b, n),
                self.blank(n),
                self.blank(n),
                self.blank(n),
            ],
            seq![],
        );
        (o[3], o[4], o[5])
    }

    /// Bytes of an image, red, green and blue in turn, as light on planes of a
    /// size.
    pub open spec fn light_of_bytes(self, image: Size, size: Size, pixels: Bytes) -> Three {
        let n = size.pixels();
        let o = (self.kernels)(
            Kernel::U8RgbToLinearPlanarPadded,
            spread(n, 256),
            seq![
                byte(pixels, image.pixels() * 3),
                self.blank(n),
                self.blank(n),
                self.blank(n),
            ],
            seq![Scalar::U32(image.width), Scalar::U32(image.height), Scalar::U32(size.width)],
        );
        (o[1], o[2], o[3])
    }

    /// A plane sharpened.
    pub open spec fn sharpened(self, size: Size, w: GaborishWeights, p: Bytes) -> Bytes {
        let n = size.pixels();
        (self.kernels)(
            Kernel::Gaborish5x5,
            spread(n, 256),
            seq![word(p, n), self.blank(n)],
            seq![
                Scalar::U32(size.width),
                Scalar::U32(size.height),
                Scalar::F32(w.wc),
                Scalar::F32(w.wr),
                Scalar::F32(w.wd),
                Scalar::F32(w.w_big_r),
                Scalar::F32(w.wl),
                Scalar::F32(w.w_big_d),
            ],
        )[1]
    }

    /// A plane smoothed.
    pub open spec fn smoothed(self, size: Size, f: FilterParameters, p: Bytes) -> Bytes {
        let n = size.pixels();
        (self.kernels)(
            Kernel::GabSmooth,
            spread(n, 256),
            seq![word(p, n), self.blank(n)],
            seq![
                Scalar::U32(size.width),
                Scalar::U32(size.height),
                Scalar::F32(f.gab_center),
                Scalar::F32(f.gab_1),
                Scalar::F32(f.gab_2),
            ],
        )[1]
    }

    /// Three planes smoothed at once.
    pub open spec fn smoothed_three(self, size: Size, f: FilterParameters, p: Three) -> Three {
        let n = size.pixels();
        let o = (self.kernels)(
            Kernel::GabSmooth3ch,
            spread(n, 256),
            seq![
                word(p.0, n),
                word(p.1, n),
                word(p.2, n),
                self.blank(n),
                self.blank(n),
                self.blank(n),
            ],
            seq![
                Scalar::U32(size.width),
                Scalar::U32(size.height),
                Scalar::F32(f.gab_center),
                Scalar::F32(f.gab_1),
                Scalar::F32(f.gab_2),
            ],
        );
        (o[3], o[4], o[5])
    }

    /// The pixels of a plane, 8x8 block by block.
    pub open spec fn in_blocks(self, size: Size, p: Bytes) -> Bytes {
        let n = size.pixels();
        (self.kernels)(
            Kernel::GatherBlocks,
            spread(n, 256),
            seq![word(p, n), self.blank(n)],
            seq![
                Scalar::U32(size.width),
                Scalar::U32(size.width / 8),
                Scalar::U32(8),
                Scalar::U32(8),
                Scalar::U32(n as u32),
            ],
        )[1]
    }

    /// A plane from its pixels, 8x8 block by block.
    pub open spec fn in_rows(self, size: Size, p: Bytes) -> Bytes {
        let n = size.pixels();
        (self.kernels)(
            Kernel::ScatterBlocks,
            spread(n, 256),
            seq![word(p, n), self.blank(n)],
            seq![
                Scalar::U32(size.width),
                Scalar::U32(size.width / 8),
                Scalar::U32(8),
                Scalar::U32(8),
                Scalar::U32(n as u32),
            ],
        )[1]
    }

    /// The DCT of 8x8 blocks.
    pub open spec fn dct8(self, blocks: int, p: Bytes) -> Bytes {
        (self.kernels)(
            Kernel::Dct8x8Wide,
            spread(blocks, 64),
            seq![word(p, blocks * 64), self.blank(blocks * 64)],
            seq![],
        )[1]
    }

    /// The inverse DCT of 8x8 blocks.
    pub open spec fn idct8(self, blocks: int, p: Bytes) -> Bytes {
        (self.kernels)(
            Kernel::Idct8x8Wide,
            spread(blocks, 64),
            seq![word(p, blocks * 64), self.blank(blocks * 64)],
            seq![],
        )[1]
    }

    /// Coefficients quantized with a matrix, a scale for each block and
    /// thresholds.
    pub open spec fn quantized(
        self,
        blocks: u32,
        c: Bytes,
        matrix: Bytes,
        scales: Seq<Float32>,
        thresholds: Seq<Float32>,
    ) -> Bytes {
        (self.kernels)(
            Kernel::QuantizeDct8BroadcastW,
            cube_each(blocks, 1),
            seq![
                word(c, blocks * 64),
                word(matrix, 64),
                word(stored_numbers(scales), blocks as int),
                word(stored_numbers(thresholds), 4),
                self.blank(blocks * 64),
            ],
            seq![],
        )[4]
    }

    /// The coefficients of three channels from quantized ones, by the matrix of
    /// each channel, the scale of each block, and what of Y is added to X and
    /// to B in each block.
    pub open spec fn dequantized(
        self,
        blocks: u32,
        q: Three,
        matrices: Three,
        scales: Seq<Float32>,
        of_y_to_x: Seq<Float32>,
        of_y_to_b: Seq<Float32>,
    ) -> Three {
        let s = stored_numbers(scales);
        let o = (self.kernels)(
            Kernel::DequantDct8BroadcastW,
            cube_each(blocks, 1),
            seq![
                word(q.0, blocks * 64),
                word(q.1, blocks * 64),
                word(q.2, blocks * 64),
                word(matrices.0, 64),
                word(matrices.1, 64),
                word(matrices.2, 64),
                word(s, blocks as int),
                word(s, blocks as int),
                word(s, blocks as int),
                word(stored_numbers(of_y_to_x), blocks as int),
                word(stored_numbers(of_y_to_b), blocks as int),
                self.blank(blocks * 64),
                self.blank(blocks * 64),
                self.blank(blocks * 64),
            ],
            seq![],
        );
        (o[11], o[12], o[13])
    }

    /// Coefficients `c` with the first of each block as in `exact`.
    pub open spec fn with_exact_means(self, blocks: u32, exact: Bytes, c: Bytes) -> Bytes {
        (self.kernels)(
            Kernel::RestoreDc,
            spread(blocks as int, 128),
            seq![word(exact, blocks * 64), word(c, blocks * 64)],
            seq![Scalar::U32(64), Scalar::U32(blocks)],
        )[1]
    }

    /// A plane with a border.
    pub open spec fn framed(self, size: Size, pad: u32, p: Bytes) -> Bytes {
        let m = size.framed(pad as int);
        (self.kernels)(
            Kernel::PadPlane,
            spread(m as u32 as int, 256),
            seq![word(p, size.pixels()), self.blank(m)],
            seq![Scalar::U32(size.width), Scalar::U32(size.height), Scalar::U32(pad)],
        )[1]
    }

    /// One pass of the edge-preserving filter over three planes with a border,
    /// by the strength of each block.
    pub open spec fn edge_filtered(
        self,
        pass: Kernel,
        size: Size,
        pad: u32,
        p: Three,
        strengths: Seq<Float32>,
        scale: Float32,
        at_borders: Float32,
    ) -> Three {
        let n = size.pixels();
        let m = size.framed(pad as int);
        let o = (self.kernels)(
            pass,
            spread(n, 256),
            seq![
                word(self.framed(size, pad, p.0), m),
                word(self.framed(size, pad, p.1), m),
                word(self.framed(size, pad, p.2), m),
                self.blank(n),
                self.blank(n),
                self.blank(n),
                word(stored_numbers(strengths), size.blocks()),
            ],
            seq![
                Scalar::U32(size.width),
                Scalar::U32(size.height),
                Scalar::U32(size.width / 8),
                Scalar::U32((size.width + 2 * pad) as u32),
                Scalar::U32(pad),
                Scalar::F32(scale),
                Scalar::F32(at_borders),
            ],
        );
        (o[3], o[4], o[5])
    }

    /// The mask of a plane.
    pub open spec fn mask(self, size: Size, p: Bytes) -> Bytes {
        let n = size.pixels();
        (self.kernels)(
            Kernel::Mask1x1,
            spread(n, 256),
            seq![word(p, n), self.blank(n)],
            seq![Scalar::U32(size.width), Scalar::U32(size.height)],
        )[1]
    }

    /// The mean of a mask in each 8x8 block, over the pixels of an image.
    pub open spec fn mask_means(self, image: Size, size: Size, mask: Bytes) -> Bytes {
        (self.kernels)(
            Kernel::BlockMaskMean,
            spread(size.blocks(), 256),
            seq![word(mask, size.pixels()), self.blank(size.blocks())],
            seq![
                Scalar::U32(image.width),
                Scalar::U32(image.height),
                Scalar::U32(size.width),
                Scalar::U32(size.width / 8),
                Scalar::U32(size.height / 8),
            ],
        )[1]
    }

    /// The mean of a plane in each 8x8 block.
    pub open spec fn block_means(self, size: Size, p: Bytes) -> Bytes {
        (self.kernels)(
            Kernel::DcGrid8x8,
            spread(size.blocks(), 256),
            seq![word(p, size.pixels()), self.blank(size.blocks())],
            seq![
                Scalar::U32(size.width),
                Scalar::U32(size.width / 8),
                Scalar::U32(size.blocks() as u32),
            ],
        )[1]
    }
}

} // verus!
