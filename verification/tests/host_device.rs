//! Recordings, carried out on a device that lives in host memory.
//!
//! The device here checks every launch against its buffers and runs plain
//! versions of the kernels.

use jxl_encoder_gpu::cost_grid::{
    compute_cost_grid_dct16x16_single_channel, compute_cost_grid_dct8_single_channel,
    compute_cost_grid_dct8_xyb, CostGrid,
};
use jxl_encoder_gpu::device::{ArrayArg, Command, Element, GpuEncoder, Grid, Handle, Kernel, Launch, Scalar};
use jxl_encoder_gpu::float::Float32;
use jxl_encoder_gpu::launch::entropy::entropy_coeffs_pixel;
use jxl_encoder_gpu::launch::pixel_loss::pixel_loss;
use jxl_encoder_gpu::launch::quantize::quantize_large;
use jxl_encoder_gpu::launch::sse_reduce::sse_reduce_3channel;
use jxl_encoder_gpu::lossy_encoder::{FilterParameters, LossyEncoder};
use jxl_encoder_gpu::mask::OUTSIDE_MASK;
use jxl_encoder_gpu::persistent::{GaborishWeights, GpuBlocks, GpuI32Blocks, GpuPlane};
use jxl_encoder_gpu::pipeline::{quant_field_bytes, Planes};
use jxl_encoder_gpu::plan::{SearchPlanes, StrategySearchPlan};
use jxl_encoder_gpu::quality::distance_to_qac;
use jxl_encoder_gpu::search_costs::CostJob;
use jxl_encoder_gpu::strategy::{
    RAW_STRATEGY_AFV0, RAW_STRATEGY_DCT, RAW_STRATEGY_DCT16X16, RAW_STRATEGY_DCT16X32,
    RAW_STRATEGY_DCT16X8, RAW_STRATEGY_DCT2X2, RAW_STRATEGY_DCT32X16, RAW_STRATEGY_DCT32X32,
    RAW_STRATEGY_DCT32X64, RAW_STRATEGY_DCT4X4, RAW_STRATEGY_DCT4X8, RAW_STRATEGY_DCT64X32,
    RAW_STRATEGY_DCT64X64, RAW_STRATEGY_DCT8X16, RAW_STRATEGY_DCT8X4, RAW_STRATEGY_IDENTITY,
};

fn wrap(x: f32) -> Float32 {
    Float32::from_bits(x.to_bits())
}

fn unwrap(x: Float32) -> f32 {
    f32::from_bits(x.to_bits())
}

fn wrap_all(v: &[f32]) -> Vec<Float32> {
    v.iter().map(|&x| wrap(x)).collect()
}

fn wrap_four(v: [f32; 4]) -> [Float32; 4] {
    [wrap(v[0]), wrap(v[1]), wrap(v[2]), wrap(v[3])]
}

/// A device in host memory.
struct Host {
    buffers: Vec<Vec<u8>>,
    reads: Vec<Vec<u8>>,
    uploads: Vec<usize>,
    launches: Vec<Kernel>,
}

fn floats_of(bytes: &[u8]) -> Vec<f32> {
    bytes
        .chunks_exact(4)
        .map(|c| f32::from_le_bytes([c[0], c[1], c[2], c[3]]))
        .collect()
}

fn words_of(bytes: &[u8]) -> Vec<u32> {
    bytes
        .chunks_exact(4)
        .map(|c| u32::from_le_bytes([c[0], c[1], c[2], c[3]]))
        .collect()
}

fn ints_of(bytes: &[u8]) -> Vec<i32> {
    words_of(bytes).into_iter().map(|w| w as i32).collect()
}

fn bytes_of(words: &[u32]) -> Vec<u8> {
    words.iter().flat_map(|w| w.to_le_bytes()).collect()
}

/// A number of a launch.
fn whole(l: &Launch, i: usize) -> usize {
    match l.scalars[i] {
        Scalar::U32(n) => n as usize,
        Scalar::F32(_) => panic!("scalar {i} of {:?} is no integer", l.kernel),
    }
}

fn number(l: &Launch, i: usize) -> f32 {
    match l.scalars[i] {
        Scalar::F32(x) => unwrap(x),
        Scalar::U32(_) => panic!("scalar {i} of {:?} is no float", l.kernel),
    }
}

impl Host {
    fn new() -> Host {
        Host { buffers: Vec::new(), reads: Vec::new(), uploads: Vec::new(), launches: Vec::new() }
    }

    /// Carries out what was recorded.
    fn run(&mut self, enc: &mut GpuEncoder) {
        for command in enc.take_commands() {
            match command {
                Command::Empty { bytes } => self.buffers.push(vec![0xff; bytes as usize]),
                Command::Create { words } => {
                    self.uploads.push(words.len());
                    self.buffers.push(bytes_of(&words));
                }
                Command::Fill { len, word } => {
                    self.buffers.push(bytes_of(&vec![word; len as usize]));
                }
                Command::CreateBytes { data } => self.buffers.push(data),
                Command::Launch { launch } => self.launch(&launch),
                Command::Read { handles } => {
                    for h in handles {
                        self.reads.push(self.buffers[h.id].clone());
                    }
                }
            }
        }
    }

    fn floats(&self, a: &ArrayArg) -> Vec<f32> {
        assert_eq!(a.element, Element::Word);
        floats_of(&self.buffers[a.handle.id])[..a.len as usize].to_vec()
    }

    fn words(&self, a: &ArrayArg) -> Vec<u32> {
        words_of(&self.buffers[a.handle.id])[..a.len as usize].to_vec()
    }

    fn ints(&self, a: &ArrayArg) -> Vec<i32> {
        ints_of(&self.buffers[a.handle.id])[..a.len as usize].to_vec()
    }

    fn put(&mut self, a: &ArrayArg, v: &[f32]) {
        let words: Vec<u32> = v.iter().map(|x| x.to_bits()).collect();
        self.put_words(a, &words);
    }

    fn put_words(&mut self, a: &ArrayArg, v: &[u32]) {
        assert_eq!(v.len() as u64, a.len);
        let bytes = bytes_of(v);
        self.buffers[a.handle.id][..bytes.len()].copy_from_slice(&bytes);
    }

    fn put_ints(&mut self, a: &ArrayArg, v: &[i32]) {
        let words: Vec<u32> = v.iter().map(|&x| x as u32).collect();
        self.put_words(a, &words);
    }

    /// The last of the buffers read back.
    fn last_floats(&self) -> Vec<f32> {
        floats_of(self.reads.last().unwrap())
    }

    fn last_ints(&self) -> Vec<i32> {
        ints_of(self.reads.last().unwrap())
    }

    /// The last three of the buffers read back.
    fn last_three(&self) -> (Vec<Float32>, Vec<Float32>, Vec<Float32>) {
        let n = self.reads.len();
        let get = |k: usize| wrap_all(&floats_of(&self.reads[n - k]));
        (get(3), get(2), get(1))
    }

    /// Sets the lowest coefficients of the listed blocks.
    fn set_lowest(&mut self, l: &Launch, rows: usize, cols: usize) {
        let a = &l.arrays;
        let (stride, per_block) = (whole(l, 0), whole(l, 1));
        let (dc, coords) = (self.floats(&a[0]), self.words(&a[1]));
        let mut dst = self.floats(&a[2]);
        let wide = rows.max(cols);
        for i in 0..whole(l, 2) {
            let at = coords[2 * i + 1] as usize * stride + coords[2 * i] as usize;
            let means: Vec<f32> =
                (0..rows * cols).map(|k| dc[at + k / cols * stride + k % cols]).collect();
            for (k, low) in lowest(&means, rows, cols).into_iter().enumerate() {
                dst[i * per_block + k / wide * 8 * wide + k % wide] = low;
            }
        }
        self.put(&a[2], &dst);
    }

    fn launch(&mut self, l: &Launch) {
        for a in &l.arrays {
            let size = match a.element {
                Element::Byte => a.len,
                Element::Word => 4 * a.len,
                Element::Double => 8 * a.len,
            };
            assert!(size <= self.buffers[a.handle.id].len() as u64, "{:?}", l.kernel);
        }
        self.launches.push(l.kernel);
        let a = &l.arrays;
        match l.kernel {
            Kernel::HistogramCountPow2 => {
                let mask = whole(l, 0) as u32;
                let mut hist = self.words(&a[1]);
                for t in self.words(&a[0]) {
                    hist[(t & mask) as usize] += 1;
                }
                self.put_words(&a[1], &hist);
            }
            Kernel::SseReduce3channel => {
                let v: Vec<Vec<f32>> = (0..7).map(|i| self.floats(&a[i])).collect();
                let out: Vec<f32> = (0..a[7].len as usize)
                    .map(|b| {
                        (b * 64..b * 64 + 64)
                            .map(|i| {
                                let dx = v[0][i] - v[3][i];
                                let dy = v[1][i] - v[4][i];
                                let db = v[2][i] - v[5][i];
                                (dx * dx + dy * dy + db * db) * v[6][i]
                            })
                            .sum()
                    })
                    .collect();
                self.put(&a[7], &out);
            }
            Kernel::DequantStrategyBroadcastW => {
                let n = whole(l, 0);
                let (q, w, s) = (self.ints(&a[0]), self.floats(&a[1]), self.floats(&a[2]));
                let out: Vec<f32> =
                    q.iter().enumerate().map(|(i, &q)| q as f32 * w[i % n] * (1.0 / s[i / n])).collect();
                self.put(&a[3], &out);
            }
            Kernel::DequantStrategyBroadcastWDct8 => {
                let (n, bias) = (whole(l, 0), number(l, 1));
                let (q, w, s) = (self.ints(&a[0]), self.floats(&a[1]), self.floats(&a[2]));
                let out: Vec<f32> = q
                    .iter()
                    .enumerate()
                    .map(|(i, &q)| biased(q, bias) * w[i % n] * (1.0 / s[i / n]))
                    .collect();
                self.put(&a[3], &out);
            }
            Kernel::GatherBlocks => {
                let (w, per_row, tw, th) = (whole(l, 0), whole(l, 1), whole(l, 2), whole(l, 3));
                let plane = self.floats(&a[0]);
                let out: Vec<f32> = (0..whole(l, 4))
                    .map(|i| plane[block_to_plane(i, w, per_row, tw, th)])
                    .collect();
                self.put(&a[1], &out);
            }
            Kernel::ScatterBlocks => {
                let (w, per_row, tw, th) = (whole(l, 0), whole(l, 1), whole(l, 2), whole(l, 3));
                let blocks = self.floats(&a[0]);
                let mut out = self.floats(&a[1]);
                for i in 0..whole(l, 4) {
                    out[block_to_plane(i, w, per_row, tw, th)] = blocks[i];
                }
                self.put(&a[1], &out);
            }
            Kernel::IndexedGather => {
                let (w, tw, th) = (whole(l, 0), whole(l, 1), whole(l, 2));
                let (plane, coords) = (self.floats(&a[0]), self.words(&a[1]));
                let out: Vec<f32> =
                    (0..whole(l, 3)).map(|i| plane[coords_to_plane(i, &coords, w, tw, th)]).collect();
                self.put(&a[2], &out);
            }
            Kernel::IndexedScatter => {
                let (w, tw, th) = (whole(l, 0), whole(l, 1), whole(l, 2));
                let (blocks, coords) = (self.floats(&a[0]), self.words(&a[1]));
                let mut plane = self.floats(&a[2]);
                for i in 0..whole(l, 3) {
                    plane[coords_to_plane(i, &coords, w, tw, th)] = blocks[i];
                }
                self.put(&a[2], &plane);
            }
            Kernel::SetDcFromGridIndexed => {
                let (stride, per_block) = (whole(l, 0), whole(l, 1));
                let (dc, coords) = (self.floats(&a[0]), self.words(&a[1]));
                let mut dst = self.floats(&a[2]);
                for i in 0..whole(l, 2) {
                    dst[i * per_block] =
                        dc[coords[2 * i + 1] as usize * stride + coords[2 * i] as usize];
                }
                self.put(&a[2], &dst);
            }
            Kernel::RestoreDc => {
                let per_block = whole(l, 0);
                let src = self.floats(&a[0]);
                let mut dst = self.floats(&a[1]);
                for b in 0..whole(l, 1) {
                    dst[b * per_block] = src[b * per_block];
                }
                self.put(&a[1], &dst);
            }
            Kernel::DcGrid8x8 => {
                let (w, across) = (whole(l, 0), whole(l, 1));
                let plane = self.floats(&a[0]);
                let out: Vec<f32> = (0..whole(l, 2))
                    .map(|i| {
                        let start = (i / across) * 8 * w + (i % across) * 8;
                        let mut s = 0.0;
                        for y in 0..8 {
                            for x in 0..8 {
                                s += plane[start + y * w + x];
                            }
                        }
                        s / 64.0
                    })
                    .collect();
                self.put(&a[1], &out);
            }
            Kernel::GabSmooth => {
                let out = smooth(
                    &self.floats(&a[0]),
                    whole(l, 0),
                    whole(l, 1),
                    [number(l, 2), number(l, 3), number(l, 4)],
                );
                self.put(&a[1], &out);
            }
            Kernel::GabSmooth3ch => {
                for c in 0..3 {
                    let out = smooth(
                        &self.floats(&a[c]),
                        whole(l, 0),
                        whole(l, 1),
                        [number(l, 2), number(l, 3), number(l, 4)],
                    );
                    self.put(&a[c + 3], &out);
                }
            }
            Kernel::Gaborish5x5 => {
                let w: Vec<f32> = (2..8).map(|i| number(l, i)).collect();
                let out = sharpen(&self.floats(&a[0]), whole(l, 0), whole(l, 1), &w);
                self.put(&a[1], &out);
            }
            Kernel::PadPlane => {
                let (w, h, pad) = (whole(l, 0), whole(l, 1), whole(l, 2));
                let src = self.floats(&a[0]);
                let pw = w + 2 * pad;
                let out: Vec<f32> = (0..pw * (h + 2 * pad))
                    .map(|i| {
                        let x = (i % pw).max(pad).min(w + pad - 1) - pad;
                        let y = (i / pw).max(pad).min(h + pad - 1) - pad;
                        src[y * w + x]
                    })
                    .collect();
                self.put(&a[1], &out);
            }
            Kernel::EpfStep1 | Kernel::EpfStep2 => {
                // A filter of no strength.
                let (w, h, stride, pad) = (whole(l, 0), whole(l, 1), whole(l, 3), whole(l, 4));
                for c in 0..3 {
                    let src = self.floats(&a[c]);
                    let out: Vec<f32> = (0..w * h)
                        .map(|i| src[(i / w + pad) * stride + i % w + pad])
                        .collect();
                    self.put(&a[c + 3], &out);
                }
            }
            Kernel::XybForward => {
                let v: Vec<Vec<f32>> = (0..3).map(|i| self.floats(&a[i])).collect();
                let out: Vec<[f32; 3]> =
                    (0..v[0].len()).map(|i| to_xyb([v[0][i], v[1][i], v[2][i]])).collect();
                for c in 0..3 {
                    let plane: Vec<f32> = out.iter().map(|p| p[c]).collect();
                    self.put(&a[c + 3], &plane);
                }
            }
            Kernel::XybInverse => {
                let v: Vec<Vec<f32>> = (0..3).map(|i| self.floats(&a[i])).collect();
                let out: Vec<[f32; 3]> =
                    (0..v[0].len()).map(|i| from_xyb([v[0][i], v[1][i], v[2][i]])).collect();
                for c in 0..3 {
                    let plane: Vec<f32> = out.iter().map(|p| p[c]).collect();
                    self.put(&a[c + 3], &plane);
                }
            }
            Kernel::Mask1x1 => {
                let (w, h) = (whole(l, 0), whole(l, 1));
                let src = self.floats(&a[0]);
                let out: Vec<f32> = (0..w * h)
                    .map(|i| {
                        let right = if i % w + 1 < w { src[i + 1] } else { src[i] };
                        let below = if i / w + 1 < h { src[i + w] } else { src[i] };
                        1.0 / (0.01 + (src[i] - right).abs() + (src[i] - below).abs())
                    })
                    .collect();
                self.put(&a[1], &out);
            }
            Kernel::BlockMaskMean => {
                let (w, h, stride, across) = (whole(l, 0), whole(l, 1), whole(l, 2), whole(l, 3));
                let mask = self.floats(&a[0]);
                let out: Vec<f32> = (0..across * whole(l, 4))
                    .map(|i| {
                        let (mut s, mut n) = (0.0_f32, 0.0_f32);
                        for y in (i / across * 8)..(i / across * 8 + 8).min(h) {
                            for x in (i % across * 8)..(i % across * 8 + 8).min(w) {
                                s += mask[y * stride + x];
                                n += 1.0;
                            }
                        }
                        if n > 0.0 { s / n } else { 1.0 }
                    })
                    .collect();
                self.put(&a[1], &out);
            }
            Kernel::U8RgbToLinearPlanarPadded => {
                let (w, h, pw) = (whole(l, 0), whole(l, 1), whole(l, 2));
                let src = self.buffers[a[0].handle.id].clone();
                for c in 0..3 {
                    let out: Vec<f32> = (0..a[c + 1].len as usize)
                        .map(|i| {
                            let (x, y) = ((i % pw).min(w - 1), (i / pw).min(h - 1));
                            to_linear(src[(y * w + x) * 3 + c])
                        })
                        .collect();
                    self.put(&a[c + 1], &out);
                }
            }
            Kernel::Dct8x8 | Kernel::Dct8x8Wide => {
                let out = dct(&self.floats(&a[0]), 8);
                self.put(&a[1], &out);
            }
            Kernel::Idct8x8 | Kernel::Idct8x8Wide => {
                let out = idct(&self.floats(&a[0]), 8);
                self.put(&a[1], &out);
            }
            Kernel::Dct16x16 => {
                let out = dct(&self.floats(&a[0]), 16);
                self.put(&a[1], &out);
            }
            Kernel::Idct16x16 => {
                let out = idct(&self.floats(&a[0]), 16);
                self.put(&a[1], &out);
            }
            Kernel::Dct32x32 => {
                let out = dct(&self.floats(&a[0]), 32);
                self.put(&a[1], &out);
            }
            Kernel::Idct32x32 => {
                let out = idct(&self.floats(&a[0]), 32);
                self.put(&a[1], &out);
            }
            Kernel::QuantizeDct8 | Kernel::QuantizeDct8BroadcastW => {
                let out = quantize(
                    &self.floats(&a[0]),
                    &self.floats(&a[1]),
                    &self.floats(&a[2]),
                    &self.floats(&a[3]),
                );
                self.put_ints(&a[4], &out);
            }
            Kernel::Dct8QuantizeFusedWide => {
                let out = quantize(
                    &dct(&self.floats(&a[0]), 8),
                    &self.floats(&a[1]),
                    &self.floats(&a[2]),
                    &self.floats(&a[3]),
                );
                self.put_ints(&a[4], &out);
            }
            Kernel::SetLlfDct16x16Indexed => self.set_lowest(l, 2, 2),
            Kernel::SetLlfDct32x16Indexed => self.set_lowest(l, 4, 2),
            Kernel::SetLlfDct16x32Indexed => self.set_lowest(l, 2, 4),
            Kernel::SetLlfDct32x32Indexed => self.set_lowest(l, 4, 4),
            Kernel::SetLlfDct64x32Indexed => self.set_lowest(l, 8, 4),
            Kernel::SetLlfDct32x64Indexed => self.set_lowest(l, 4, 8),
            Kernel::SetLlfDct64x64Indexed => self.set_lowest(l, 8, 8),
            Kernel::SetLlfDct16x8Or8x16Indexed => {
                let (stride, step, per_block) = (whole(l, 0), whole(l, 1), whole(l, 2));
                let (dc, coords) = (self.floats(&a[0]), self.words(&a[1]));
                let mut dst = self.floats(&a[2]);
                for i in 0..whole(l, 3) {
                    let at = coords[2 * i + 1] as usize * stride + coords[2 * i] as usize;
                    let low = lowest(&[dc[at], dc[at + step]], 1, 2);
                    dst[i * per_block..i * per_block + 2].copy_from_slice(&low);
                }
                self.put(&a[2], &dst);
            }
            Kernel::EntropyCoeffsPixel | Kernel::EntropyCoeffsPixelBroadcastW => {
                // Per block: the sums of magnitudes, of their roots and of
                // squared errors, and how many are not zero.
                let (n, factor, quant, delta) =
                    (whole(l, 0), number(l, 1), number(l, 2), number(l, 3));
                let v: Vec<Vec<f32>> = (0..4).map(|i| self.floats(&a[i])).collect();
                let mut error = self.floats(&a[4]);
                let mut out = Vec::new();
                for b in 0..a[5].len as usize / 4 {
                    let mut sums = [0.0_f32; 4];
                    for i in b * n..b * n + n {
                        let k = i % v[2].len();
                        let x = (v[0][i] - v[1][i] * factor) * v[3][k] * quant;
                        let q = x.round();
                        error[i] = (x - q) * v[2][k];
                        sums[0] += q.abs();
                        sums[1] += q.abs().sqrt() * delta;
                        sums[2] += (x - q) * (x - q);
                        sums[3] += if q == 0.0 { 0.0 } else { 1.0 };
                    }
                    out.extend(sums);
                }
                self.put(&a[4], &error);
                self.put(&a[5], &out);
            }
            Kernel::PixelLoss => {
                let (stride, offset) = (whole(l, 0), number(l, 1));
                let (bw, bh) = (whole(l, 2), whole(l, 3));
                let (error, mask) = (self.floats(&a[0]), self.floats(&a[1]));
                let base = self.words(&a[2]);
                assert_eq!(a[3].element, Element::Double);
                for (b, &start) in base.iter().enumerate() {
                    let mut s = 0.0_f64;
                    for k in 0..bw * bh {
                        let m = mask[start as usize + k / bw * stride + k % bw] + offset;
                        s += (error[b * bw * bh + k] as f64 / m as f64).powi(8);
                    }
                    let bytes = s.to_le_bytes();
                    self.buffers[a[3].handle.id][8 * b..8 * b + 8].copy_from_slice(&bytes);
                }
            }
            Kernel::QuantizeLarge | Kernel::QuantizeLargeBroadcastW => {
                // Weights of one and thresholds of one half round to integers;
                // the lowest coefficients are left out.
                let (gw, gh, lx, ly) = (whole(l, 0), whole(l, 1), whole(l, 2), whole(l, 3));
                let (c, w, s) = (self.floats(&a[0]), self.floats(&a[1]), self.floats(&a[2]));
                let n = gw * gh;
                let out: Vec<i32> = c
                    .iter()
                    .enumerate()
                    .map(|(i, &c)| {
                        let (x, y) = (i % n % gw, i % n / gw);
                        if x < lx && y < ly {
                            0
                        } else {
                            (c / w[i % w.len()] * s[i / n]).round() as i32
                        }
                    })
                    .collect();
                self.put_ints(&a[4], &out);
            }
            Kernel::DequantWeightsDct8 | Kernel::DequantWeights => {
                let (q, w) = (self.ints(&a[0]), self.floats(&a[1]));
                let out: Vec<f32> = q.iter().zip(&w).map(|(&q, w)| q as f32 * w).collect();
                self.put(&a[2], &out);
            }
            Kernel::DequantDct8 | Kernel::DequantDct8BroadcastW => {
                for c in 0..3 {
                    let (q, w) = (self.ints(&a[c]), self.floats(&a[c + 3]));
                    let s = self.floats(&a[c + 6]);
                    let out: Vec<f32> = q
                        .iter()
                        .enumerate()
                        .map(|(i, &q)| q as f32 * w[i % w.len()] / s[i / 64])
                        .collect();
                    self.put(&a[c + 11], &out);
                }
            }
            Kernel::DequantIdct8FusedYWide => {
                let (q, w, s) = (self.ints(&a[0]), self.floats(&a[1]), self.floats(&a[2]));
                let coeffs: Vec<f32> =
                    q.iter().enumerate().map(|(i, &q)| q as f32 * w[i] / s[i / 64]).collect();
                self.put(&a[3], &idct(&coeffs, 8));
            }
            Kernel::BlockL2 => {
                let v: Vec<Vec<f32>> = (0..7).map(|i| self.floats(&a[i])).collect();
                let (across, w) = (whole(l, 0), whole(l, 1));
                let out: Vec<f32> = (0..a[7].len as usize)
                    .map(|b| {
                        let start = (b / across) * 8 * w + (b % across) * 8;
                        let mut s = 0.0;
                        for k in 0..64 {
                            let i = start + (k / 8) * w + k % 8;
                            for c in 0..3 {
                                let d = v[c][i] - v[c + 3][i];
                                s += d * d * v[6][i];
                            }
                        }
                        s
                    })
                    .collect();
                self.put(&a[7], &out);
            }
            other => panic!("no model of {other:?}"),
        }
    }
}

fn block_to_plane(i: usize, w: usize, per_row: usize, tw: usize, th: usize) -> usize {
    let (block, k) = (i / (tw * th), i % (tw * th));
    let x = (block % per_row) * tw + k % tw;
    let y = (block / per_row) * th + k / tw;
    y * w + x
}

fn coords_to_plane(i: usize, coords: &[u32], w: usize, tw: usize, th: usize) -> usize {
    let (block, k) = (i / (tw * th), i % (tw * th));
    let x = coords[2 * block] as usize * 8 + k % tw;
    let y = coords[2 * block + 1] as usize * 8 + k / tw;
    y * w + x
}

/// The light of a byte of sRGB.
fn to_linear(c: u8) -> f32 {
    let v = c as f32 / 255.0;
    if v <= 0.04045 {
        v / 12.92
    } else {
        ((v + 0.055) / 1.055).powf(2.4)
    }
}

/// The byte of sRGB nearest to some light.
fn to_byte(v: f32) -> u8 {
    let v = v.clamp(0.0, 1.0);
    let s = if v <= 0.0031308 { v * 12.92 } else { 1.055 * v.powf(1.0 / 2.4) - 0.055 };
    (s * 255.0 + 0.5) as u8
}

/// The lowest coefficients of a block from the means of its `rows` by `cols`
/// blocks of 8x8, with no more rows than columns.
fn lowest(means: &[f32], rows: usize, cols: usize) -> Vec<f32> {
    let scale = |k: usize, n: usize| -> f32 {
        let t = k as f64 * std::f64::consts::PI / (16 * n) as f64;
        (1.0 / (t.cos() * (2.0 * t).cos() * (4.0 * t).cos())) as f32
    };
    let mut out = vec![0.0; rows * cols];
    for u in 0..rows {
        for v in 0..cols {
            let mut s = 0.0;
            for y in 0..rows {
                for x in 0..cols {
                    s += means[y * cols + x] * cosine(rows, u, y) * cosine(cols, v, x);
                }
            }
            let at = if rows <= cols { u * cols + v } else { v * rows + u };
            out[at] = s / (rows * cols) as f32 * scale(u, rows) * scale(v, cols);
        }
    }
    out
}

fn biased(q: i32, bias: f32) -> f32 {
    match q {
        0 => 0.0,
        1 => bias,
        -1 => -bias,
        _ => q as f32 - 0.145 / q as f32,
    }
}

fn at(v: &[f32], w: usize, h: usize, x: i64, y: i64) -> f32 {
    let x = x.max(0).min(w as i64 - 1) as usize;
    let y = y.max(0).min(h as i64 - 1) as usize;
    v[y * w + x]
}

fn smooth(v: &[f32], w: usize, h: usize, k: [f32; 3]) -> Vec<f32> {
    (0..w * h)
        .map(|i| {
            let (x, y) = ((i % w) as i64, (i / w) as i64);
            let side = at(v, w, h, x - 1, y)
                + at(v, w, h, x + 1, y)
                + at(v, w, h, x, y - 1)
                + at(v, w, h, x, y + 1);
            let diagonal = at(v, w, h, x - 1, y - 1)
                + at(v, w, h, x + 1, y - 1)
                + at(v, w, h, x - 1, y + 1)
                + at(v, w, h, x + 1, y + 1);
            k[0] * v[i] + k[1] * side + k[2] * diagonal
        })
        .collect()
}

fn sharpen(v: &[f32], w: usize, h: usize, k: &[f32]) -> Vec<f32> {
    (0..w * h)
        .map(|i| {
            let (x, y) = ((i % w) as i64, (i / w) as i64);
            let mut s = 0.0;
            for dy in -2_i64..=2 {
                for dx in -2_i64..=2 {
                    let f = match dx * dx + dy * dy {
                        0 => k[0],
                        1 => k[1],
                        2 => k[2],
                        4 => k[3],
                        5 => k[4],
                        _ => k[5],
                    };
                    s += f * at(v, w, h, x + dx, y + dy);
                }
            }
            s
        })
        .collect()
}

fn cosine(n: usize, k: usize, i: usize) -> f32 {
    let c = ((2 * i + 1) as f64 * k as f64 * std::f64::consts::PI / (2 * n) as f64).cos();
    (if k == 0 { c } else { c * std::f64::consts::SQRT_2 }) as f32
}

/// Square blocks along rows and columns; the first coefficient is the mean.
fn dct(v: &[f32], n: usize) -> Vec<f32> {
    let lines = |v: &[f32]| -> Vec<f32> {
        let mut out = vec![0.0; n * n];
        for y in 0..n {
            for k in 0..n {
                let s: f32 = (0..n).map(|x| v[y * n + x] * cosine(n, k, x)).sum();
                out[k * n + y] = s / n as f32;
            }
        }
        out
    };
    v.chunks_exact(n * n).flat_map(|b| lines(&lines(b))).collect()
}

fn idct(v: &[f32], n: usize) -> Vec<f32> {
    let lines = |v: &[f32]| -> Vec<f32> {
        let mut out = vec![0.0; n * n];
        for y in 0..n {
            for x in 0..n {
                out[x * n + y] = (0..n).map(|k| v[y * n + k] * cosine(n, k, x)).sum();
            }
        }
        out
    };
    v.chunks_exact(n * n).flat_map(|b| lines(&lines(b))).collect()
}

fn quantize(c: &[f32], w: &[f32], s: &[f32], thresholds: &[f32]) -> Vec<i32> {
    c.iter()
        .enumerate()
        .map(|(i, &c)| {
            let k = i % 64;
            let v = c / w[i % w.len()] * s[i / 64];
            let quadrant = (k / 32) * 2 + (k % 8) / 4;
            if k == 0 || v.abs() < thresholds[quadrant] { 0 } else { v.round() as i32 }
        })
        .collect()
}

const BIAS: f32 = 0.003_793_073_4;

fn to_xyb(p: [f32; 3]) -> [f32; 3] {
    let l = (0.30 * p[0] + 0.622 * p[1] + 0.078 * p[2] + BIAS).cbrt() - BIAS.cbrt();
    let m = (0.23 * p[0] + 0.692 * p[1] + 0.078 * p[2] + BIAS).cbrt() - BIAS.cbrt();
    let s = (0.243 * p[0] + 0.205 * p[1] + 0.552 * p[2] + BIAS).cbrt() - BIAS.cbrt();
    [(l - m) * 0.5, (l + m) * 0.5, s]
}

fn from_xyb(p: [f32; 3]) -> [f32; 3] {
    let cube = |x: f32| (x + BIAS.cbrt()).powi(3) - BIAS;
    let (l, m, s) = (cube(p[1] + p[0]), cube(p[1] - p[0]), cube(p[2]));
    // The inverse of the matrix above, by Cramer's rule.
    let a = [[0.30_f64, 0.622, 0.078], [0.23, 0.692, 0.078], [0.243, 0.205, 0.552]];
    let det = |m: [[f64; 3]; 3]| {
        m[0][0] * (m[1][1] * m[2][2] - m[1][2] * m[2][1])
            - m[0][1] * (m[1][0] * m[2][2] - m[1][2] * m[2][0])
            + m[0][2] * (m[1][0] * m[2][1] - m[1][1] * m[2][0])
    };
    let rhs = [l as f64, m as f64, s as f64];
    let solve = |c: usize| {
        let mut m = a;
        for r in 0..3 {
            m[r][c] = rhs[r];
        }
        (det(m) / det(a)) as f32
    };
    [solve(0), solve(1), solve(2)]
}

fn plane_back(host: &mut Host, enc: &mut GpuEncoder, plane: &GpuPlane) -> Vec<f32> {
    enc.download_plane(plane);
    host.run(enc);
    host.last_floats()
}

fn blocks_back(host: &mut Host, enc: &mut GpuEncoder, blocks: &GpuBlocks) -> Vec<f32> {
    enc.download_blocks(blocks);
    host.run(enc);
    host.last_floats()
}

fn ints_back(host: &mut Host, enc: &mut GpuEncoder, blocks: &GpuI32Blocks) -> Vec<i32> {
    enc.download_i32_blocks(blocks);
    host.run(enc);
    host.last_ints()
}

#[test]
fn test_histogram_count_pow2_matches_host() {
    for &bucket_count in &[16u32, 64, 256, 1024] {
        let mut enc = GpuEncoder::new();
        let mut host = Host::new();
        let mask = bucket_count - 1;
        let n: usize = 10_000;
        let tokens: Vec<u32> = (0..n)
            .map(|i| {
                let raw = (i as u32).wrapping_mul(2654435761).wrapping_add(13);
                if i % 3 == 0 { raw % bucket_count } else { raw }
            })
            .collect();
        let mut host_hist = vec![0u32; bucket_count as usize];
        for &t in &tokens {
            host_hist[(t & mask) as usize] += 1;
        }
        enc.histogram_count_pow2(&tokens, bucket_count);
        host.run(&mut enc);
        let gpu_hist = words_of(host.reads.last().unwrap());
        assert_eq!(gpu_hist.len(), bucket_count as usize, "GPU histogram length");
        assert_eq!(gpu_hist, host_hist, "histogram mismatch at bucket_count={bucket_count}");
        let total_gpu: u32 = gpu_hist.iter().sum();
        assert_eq!(
            total_gpu as usize, n,
            "total count must equal n_tokens at bucket_count={bucket_count}"
        );
    }
}

#[test]
fn test_histogram_count_pow2_empty() {
    let mut enc = GpuEncoder::new();
    let mut host = Host::new();
    let tokens: Vec<u32> = Vec::new();
    enc.histogram_count_pow2(&tokens, 64);
    host.run(&mut enc);
    let hist = words_of(host.reads.last().unwrap());
    assert_eq!(hist.len(), 64);
    assert!(hist.iter().all(|&c| c == 0));
    assert!(host.launches.is_empty());
}

#[test]
fn test_sse_reduce_3channel_matches_host() {
    let mut enc = GpuEncoder::new();
    let mut host = Host::new();
    let n_blocks = 23_usize;
    let n = n_blocks * 64;
    let orig_x: Vec<f32> = (0..n).map(|i| ((i * 7) as f32).sin() * 16.0 + 64.0).collect();
    let orig_y: Vec<f32> = (0..n).map(|i| ((i * 11) as f32).sin() * 24.0 + 80.0).collect();
    let orig_b: Vec<f32> = (0..n).map(|i| ((i * 13) as f32).sin() * 12.0 + 48.0).collect();
    let recon_x: Vec<f32> =
        orig_x.iter().enumerate().map(|(i, &v)| v + ((i * 3) as f32 * 0.1).sin()).collect();
    let recon_y: Vec<f32> =
        orig_y.iter().enumerate().map(|(i, &v)| v + ((i * 5) as f32 * 0.1).sin()).collect();
    let recon_b: Vec<f32> =
        orig_b.iter().enumerate().map(|(i, &v)| v + ((i * 17) as f32 * 0.1).sin()).collect();
    let mask: Vec<f32> = (0..n).map(|i| 0.5 + 0.4 * ((i as f32 * 0.07).cos())).collect();
    let mut host_costs = vec![0.0_f32; n_blocks];
    for b in 0..n_blocks {
        let mut s = 0.0_f32;
        let r0 = b * 64;
        for i in 0..64 {
            let dx = orig_x[r0 + i] - recon_x[r0 + i];
            let dy = orig_y[r0 + i] - recon_y[r0 + i];
            let db = orig_b[r0 + i] - recon_b[r0 + i];
            s += (dx * dx + dy * dy + db * db) * mask[r0 + i];
        }
        host_costs[b] = s;
    }
    let words = |v: &[f32]| -> Vec<u32> { v.iter().map(|x| x.to_bits()).collect() };
    let h_ox = enc.create(words(&orig_x));
    let h_oy = enc.create(words(&orig_y));
    let h_ob = enc.create(words(&orig_b));
    let h_rx = enc.create(words(&recon_x));
    let h_ry = enc.create(words(&recon_y));
    let h_rb = enc.create(words(&recon_b));
    let h_m = enc.create(words(&mask));
    let h_out = enc.empty(n_blocks as u64 * 4);
    let launch =
        sse_reduce_3channel(h_ox, h_oy, h_ob, h_rx, h_ry, h_rb, h_m, h_out, n_blocks as u32);
    enc.launch(launch.unwrap());
    enc.read(vec![h_out]);
    host.run(&mut enc);
    let gpu_costs = host.last_floats();
    assert_eq!(gpu_costs.len(), n_blocks);
    for (b, (&h, &g)) in host_costs.iter().zip(gpu_costs.iter()).enumerate() {
        let rel = ((h - g) / h.max(1e-9)).abs();
        assert!(
            rel < 1e-4 || (h - g).abs() < 1e-4,
            "block {b} host={h:.6} gpu={g:.6} rel={rel:.6}"
        );
    }
}

#[test]
fn reducing_no_blocks_launches_nothing() {
    let h = Handle { id: 0 };
    assert!(sse_reduce_3channel(h, h, h, h, h, h, h, h, 0).is_none());
}

#[test]
fn test_dequant_strategy_persistent_matches_host_formula() {
    for &block_size in &[64u32, 128, 256, 1024] {
        let mut enc = GpuEncoder::new();
        let mut host = Host::new();
        let nb = 8u32;
        let total = (nb * block_size) as usize;
        let quant: Vec<i32> = (0..total).map(|i| (i as i32 % 13) - 6).collect();
        let weights: Vec<f32> = (0..block_size as usize).map(|i| 0.5 + 0.07 * i as f32).collect();
        let qac: Vec<f32> = (0..nb).map(|i| 0.5 + 0.1 * i as f32).collect();
        let g_q = enc.upload_i32_blocks(&quant, nb, block_size);
        let g_d = enc.dequant_strategy_persistent(&g_q, &wrap_all(&weights), &wrap_all(&qac));
        let got = blocks_back(&mut host, &mut enc, &g_d);
        for b in 0..nb as usize {
            let inv_qac = 1.0_f32 / qac[b];
            let off = b * block_size as usize;
            for i in 0..block_size as usize {
                let expected = (quant[off + i] as f32) * weights[i] * inv_qac;
                let actual = got[off + i];
                assert!(
                    (expected - actual).abs() < 1e-5,
                    "block_size={block_size} b={b} i={i}: got {actual}, want {expected}"
                );
            }
        }
    }
}

#[test]
fn test_dequant_strategy_dct8_persistent_matches_host() {
    let biases = [
        1.0_f32 - 0.054_650_073_307_154_01,
        1.0 - 0.070_054_498_917_485_93,
        1.0 - 0.049_935_103_337_343_655,
    ];
    let block_size = 64u32;
    let nb = 4u32;
    let total = (nb * block_size) as usize;
    let quant: Vec<i32> = (0..total).map(|i| (i as i32 % 11) - 5).collect();
    let weights: Vec<f32> = (0..block_size as usize).map(|i| 0.7 + 0.05 * i as f32).collect();
    let qac: Vec<f32> = (0..nb).map(|i| 0.6 + 0.15 * i as f32).collect();
    for channel in 0..3 {
        let mut enc = GpuEncoder::new();
        let mut host = Host::new();
        let g_q = enc.upload_i32_blocks(&quant, nb, block_size);
        let g_d = enc.dequant_strategy_dct8_persistent(
            &g_q,
            &wrap_all(&weights),
            &wrap_all(&qac),
            channel,
        );
        let got = blocks_back(&mut host, &mut enc, &g_d);
        for b in 0..nb as usize {
            let inv_qac = 1.0_f32 / qac[b];
            let off = b * block_size as usize;
            for i in 0..block_size as usize {
                let expected = biased(quant[off + i], biases[channel]) * weights[i] * inv_qac;
                let actual = got[off + i];
                assert!(
                    (expected - actual).abs() < 1e-5,
                    "channel={channel} b={b} i={i}: got {actual}, want {expected}"
                );
            }
        }
    }
}

#[test]
fn test_upload_download_roundtrip() {
    let mut enc = GpuEncoder::new();
    let mut host = Host::new();
    let data: Vec<f32> = (0..256).map(|i| i as f32 * 0.01).collect();
    let plane = enc.upload_plane(&wrap_all(&data), 16, 16);
    assert_eq!(plane.width(), 16);
    assert_eq!(plane.height(), 16);
    assert_eq!(plane.n_pixels(), 256);
    let back = plane_back(&mut host, &mut enc, &plane);
    assert_eq!(back, data);
}

#[test]
fn allocated_planes_and_blocks_hold_zeros() {
    let mut enc = GpuEncoder::new();
    let mut host = Host::new();
    let plane = enc.alloc_plane(6, 5);
    assert_eq!(plane_back(&mut host, &mut enc, &plane), vec![0.0; 30]);
    let blocks = enc.alloc_blocks(3, 4);
    assert_eq!(blocks_back(&mut host, &mut enc, &blocks), vec![0.0; 12]);
    let ints = enc.alloc_i32_blocks(2, 5);
    assert_eq!(ints_back(&mut host, &mut enc, &ints), vec![0; 10]);
    let loose = enc.alloc_plane_uninit(6, 5);
    assert_eq!(plane_back(&mut host, &mut enc, &loose).len(), 30);
}

fn test_weights() -> GaborishWeights {
    GaborishWeights {
        wc: wrap(1.5),
        wr: wrap(-0.1),
        wd: wrap(-0.05),
        w_big_r: wrap(0.02),
        wl: wrap(0.01),
        w_big_d: wrap(-0.005),
    }
}

fn ramp(n: usize, from: f32, by: f32) -> Vec<f32> {
    (0..n).map(|i| from + by * (i as f32 / n as f32)).collect()
}

#[test]
fn test_persistent_xyb_chain() {
    let mut enc = GpuEncoder::new();
    let mut host = Host::new();
    let n = 64 * 64;
    let r = ramp(n, 0.1, 0.6);
    let g = ramp(n, 0.2, 0.5);
    let b = ramp(n, 0.3, 0.4);
    let g_r = enc.upload_plane(&wrap_all(&r), 64, 64);
    let g_g = enc.upload_plane(&wrap_all(&g), 64, 64);
    let g_b = enc.upload_plane(&wrap_all(&b), 64, 64);
    let (_xx, xy, _xb) = enc.xyb_from_linear_rgb_persistent(&g_r, &g_g, &g_b);
    let xy_g = enc.gaborish_5x5_persistent(&xy, &test_weights());
    let mask = enc.mask1x1_persistent(&xy_g);
    let mask_host = plane_back(&mut host, &mut enc, &mask);
    assert_eq!(mask_host.len(), n);
    for &v in &mask_host {
        assert!(v.is_finite() && v > 0.0);
    }
    // One upload for each channel, and one buffer read back.
    assert_eq!(host.uploads, vec![n; 3]);
    assert_eq!(host.reads.len(), 1);
}

#[test]
fn test_gab_smooth_persistent_uniform() {
    let mut enc = GpuEncoder::new();
    let mut host = Host::new();
    let n = 16 * 16;
    let plane = enc.upload_plane(&wrap_all(&vec![0.5_f32; n]), 16, 16);
    let w1 = 0.1;
    let w2 = 0.05;
    let wc = 1.0 - 4.0 * w1 - 4.0 * w2;
    let out = enc.gab_smooth_persistent(&plane, wrap(wc), wrap(w1), wrap(w2));
    let back = plane_back(&mut host, &mut enc, &out);
    for &v in &back {
        assert!((v - 0.5).abs() < 1e-5);
    }
}

#[test]
fn test_pad_plane_persistent_dims() {
    let mut enc = GpuEncoder::new();
    let mut host = Host::new();
    let plane = enc.upload_plane(&wrap_all(&[0.7_f32; 8 * 8]), 8, 8);
    let padded = enc.pad_plane_persistent(&plane, 4);
    assert_eq!(padded.width(), 16);
    assert_eq!(padded.height(), 16);
    let back = plane_back(&mut host, &mut enc, &padded);
    for &v in &back {
        assert!((v - 0.7).abs() < 1e-5);
    }
}

#[test]
fn test_fused_dct8_quantize_persistent() {
    let mut enc = GpuEncoder::new();
    let mut host = Host::new();
    let nb = 8_u32;
    let n = (nb as usize) * 64;
    let pixels: Vec<f32> = (0..n).map(|i| (i as f32 * 0.013).sin()).collect();
    let weights = vec![1.0_f32; n];
    let qac = wrap_all(&vec![4.0_f32; nb as usize]);
    let thr = wrap_four([0.56_f32, 0.62, 0.62, 0.62]);
    let p_blocks = enc.upload_blocks(&wrap_all(&pixels), nb, 64);
    let w_blocks = enc.upload_blocks(&wrap_all(&weights), nb, 64);
    let q_fused = enc.dct8_quantize_fused_persistent(&p_blocks, &w_blocks, &qac, &thr);
    let q_fused_host = ints_back(&mut host, &mut enc, &q_fused);
    let coeffs = enc.dct_8x8_wide_persistent(&p_blocks);
    let q_split = enc.quantize_dct8_persistent(&coeffs, &w_blocks, &qac, &thr);
    let q_split_host = ints_back(&mut host, &mut enc, &q_split);
    assert_eq!(q_fused_host, q_split_host, "fused DCT+quant must match split");
}

#[test]
fn test_fused_dequant_idct8_y_persistent() {
    let mut enc = GpuEncoder::new();
    let mut host = Host::new();
    let nb = 8_u32;
    let n = (nb as usize) * 64;
    let quant: Vec<i32> = (0..n).map(|i| ((i as i32 * 7) % 11) - 5).collect();
    let weights = vec![1.0_f32; n];
    let qac = wrap_all(&vec![4.0_f32; nb as usize]);
    let q_buf = enc.upload_i32_blocks(&quant, nb, 64);
    let w_buf = enc.upload_blocks(&wrap_all(&weights), nb, 64);
    let recon = enc.dequant_idct8_fused_y_persistent(&q_buf, &w_buf, &qac);
    assert_eq!(recon.coeffs_per_block(), 64);
    let recon_host = blocks_back(&mut host, &mut enc, &recon);
    for v in &recon_host {
        assert!(v.is_finite());
    }
}

fn largest_difference(a: &[f32], b: &[f32]) -> f32 {
    assert_eq!(a.len(), b.len());
    a.iter().zip(b).map(|(x, y)| (x - y).abs()).fold(0.0, f32::max)
}

#[test]
fn test_dct_8x8_wide_persistent_roundtrip() {
    let mut enc = GpuEncoder::new();
    let mut host = Host::new();
    let nb = 16;
    let n = nb * 64;
    let input: Vec<f32> = (0..n).map(|i| (i as f32 * 0.013).sin()).collect();
    let blocks = enc.upload_blocks(&wrap_all(&input), nb as u32, 64);
    let coeffs = enc.dct_8x8_wide_persistent(&blocks);
    let recon = enc.idct_8x8_wide_persistent(&coeffs);
    let max_err = largest_difference(&input, &blocks_back(&mut host, &mut enc, &recon));
    assert!(max_err < 5e-5, "wide DCT8 persistent roundtrip drift: {max_err:.3e}");
}

#[test]
fn test_dct_16x16_persistent_roundtrip() {
    let mut enc = GpuEncoder::new();
    let mut host = Host::new();
    let nb = 4;
    let n = nb * 256;
    let input: Vec<f32> = (0..n).map(|i| (i as f32 * 0.007).cos()).collect();
    let blocks = enc.upload_blocks(&wrap_all(&input), nb as u32, 256);
    let coeffs = enc.dct_16x16_persistent(&blocks);
    assert_eq!(coeffs.coeffs_per_block(), 256);
    let recon = enc.idct_16x16_persistent(&coeffs);
    let max_err = largest_difference(&input, &blocks_back(&mut host, &mut enc, &recon));
    assert!(max_err < 1e-4, "DCT16x16 persistent roundtrip drift: {max_err:.3e}");
}

#[test]
fn test_dct_32x32_persistent_roundtrip() {
    let mut enc = GpuEncoder::new();
    let mut host = Host::new();
    let nb = 2;
    let n = nb * 1024;
    let input: Vec<f32> = (0..n).map(|i| 0.5 + 0.3 * (i as f32 * 0.003).sin()).collect();
    let blocks = enc.upload_blocks(&wrap_all(&input), nb as u32, 1024);
    let coeffs = enc.dct_32x32_persistent(&blocks);
    assert_eq!(coeffs.coeffs_per_block(), 1024);
    let recon = enc.idct_32x32_persistent(&coeffs);
    let max_err = largest_difference(&input, &blocks_back(&mut host, &mut enc, &recon));
    assert!(max_err < 5e-4, "DCT32x32 persistent roundtrip drift: {max_err:.3e}");
}

#[test]
fn test_gather_scatter_roundtrip() {
    let mut enc = GpuEncoder::new();
    let mut host = Host::new();
    let w = 16_u32;
    let h = 16_u32;
    let n = (w * h) as usize;
    let plane_data: Vec<f32> = (0..n).map(|i| (i as f32) * 0.013).collect();
    let plane = enc.upload_plane(&wrap_all(&plane_data), w, h);
    let blocks = enc.gather_blocks_persistent(&plane, 8, 8);
    assert_eq!(blocks.num_blocks(), 4);
    assert_eq!(blocks.coeffs_per_block(), 64);
    let plane2 = enc.scatter_blocks_persistent(&blocks, w, h, 8, 8);
    let back = plane_back(&mut host, &mut enc, &plane2);
    assert_eq!(back, plane_data, "gather→scatter must be bit-exact");
}

#[test]
fn test_gather_layout_correctness() {
    let mut enc = GpuEncoder::new();
    let mut host = Host::new();
    let plane_data: Vec<f32> = (0..64).map(|i| i as f32).collect();
    let plane = enc.upload_plane(&wrap_all(&plane_data), 8, 8);
    let blocks = enc.gather_blocks_persistent(&plane, 8, 8);
    assert_eq!(blocks_back(&mut host, &mut enc, &blocks), plane_data);
    let mut p2 = vec![0.0_f32; 16 * 8];
    for y in 0..8 {
        for x in 0..16 {
            p2[y * 16 + x] = (y * 16 + x) as f32;
        }
    }
    let plane2 = enc.upload_plane(&wrap_all(&p2), 16, 8);
    let blocks2 = enc.gather_blocks_persistent(&plane2, 8, 8);
    assert_eq!(blocks2.num_blocks(), 2);
    let host2 = blocks_back(&mut host, &mut enc, &blocks2);
    for (x, &v) in host2[..8].iter().enumerate() {
        assert_eq!(v, x as f32);
    }
    for (x, &v) in host2[64..72].iter().enumerate() {
        assert_eq!(v, (8 + x) as f32);
    }
}

#[test]
fn test_quantize_dct8_persistent_zero() {
    let mut enc = GpuEncoder::new();
    let mut host = Host::new();
    let nb = 4_u32;
    let n = (nb as usize) * 64;
    let coeffs = enc.upload_blocks(&wrap_all(&vec![0.0_f32; n]), nb, 64);
    let weights = enc.upload_blocks(&wrap_all(&vec![1.0_f32; n]), nb, 64);
    let qac = wrap_all(&vec![1.0_f32; nb as usize]);
    let thr = wrap_four([0.56_f32, 0.62, 0.62, 0.62]);
    let q = enc.quantize_dct8_persistent(&coeffs, &weights, &qac, &thr);
    assert_eq!(q.num_blocks(), nb);
    assert_eq!(q.coeffs_per_block(), 64);
    assert!(ints_back(&mut host, &mut enc, &q).iter().all(|&v| v == 0));
}

#[test]
fn test_restore_dc_persistent() {
    let mut enc = GpuEncoder::new();
    let mut host = Host::new();
    let nb = 4_u32;
    let cpb = 64_u32;
    let n = (nb * cpb) as usize;
    let mut src_data = vec![0.0_f32; n];
    let mut dst_data = vec![0.0_f32; n];
    for b in 0..nb as usize {
        src_data[b * 64] = 42.0;
        for k in 1..64 {
            src_data[b * 64 + k] = 99.0;
            dst_data[b * 64 + k] = 7.0;
        }
    }
    let src = enc.upload_blocks(&wrap_all(&src_data), nb, cpb);
    let dst = enc.upload_blocks(&wrap_all(&dst_data), nb, cpb);
    enc.restore_dc_persistent(&src, &dst);
    let dst_after = blocks_back(&mut host, &mut enc, &dst);
    for b in 0..nb as usize {
        assert_eq!(dst_after[b * 64], 42.0, "DC not restored at block {b}");
        for k in 1..64 {
            assert_eq!(dst_after[b * 64 + k], 7.0, "AC drifted at block {b} slot {k}");
        }
    }
}

#[test]
fn test_quantize_dequant_chain_persistent() {
    let mut enc = GpuEncoder::new();
    let mut host = Host::new();
    let nb = 8_u32;
    let n = (nb as usize) * 64;
    let coeffs_x: Vec<f32> = (0..n).map(|i| (i as f32 * 0.07).sin()).collect();
    let coeffs_y: Vec<f32> = (0..n).map(|i| (i as f32 * 0.11).cos()).collect();
    let coeffs_b: Vec<f32> = (0..n).map(|i| (i as f32 * 0.13).sin()).collect();
    let cx = enc.upload_blocks(&wrap_all(&coeffs_x), nb, 64);
    let cy = enc.upload_blocks(&wrap_all(&coeffs_y), nb, 64);
    let cb = enc.upload_blocks(&wrap_all(&coeffs_b), nb, 64);
    let weights = wrap_all(&vec![1.0_f32; n]);
    let wx = enc.upload_blocks(&weights, nb, 64);
    let wy = enc.upload_blocks(&weights, nb, 64);
    let wb = enc.upload_blocks(&weights, nb, 64);
    let qac = wrap_all(&vec![4.0_f32; nb as usize]);
    let thr = wrap_four([0.56_f32, 0.62, 0.62, 0.62]);
    let qx = enc.quantize_dct8_persistent(&cx, &wx, &qac, &thr);
    let qy = enc.quantize_dct8_persistent(&cy, &wy, &qac, &thr);
    let qb = enc.quantize_dct8_persistent(&cb, &wb, &qac, &thr);
    let zero = wrap_all(&vec![0.0_f32; nb as usize]);
    let (dx, dy, db) = enc.dequant_dct8_persistent(
        &qx, &qy, &qb, &wx, &wy, &wb, &qac, &qac, &qac, &zero, &zero,
    );
    assert_eq!(dx.coeffs_per_block(), 64);
    let dx_host = blocks_back(&mut host, &mut enc, &dx);
    let dy_host = blocks_back(&mut host, &mut enc, &dy);
    let db_host = blocks_back(&mut host, &mut enc, &db);
    assert_eq!(dx_host.len(), n);
    for v in dx_host.iter().chain(&dy_host).chain(&db_host) {
        assert!(v.is_finite());
    }
}

#[test]
fn test_dct_idct_persistent_roundtrip() {
    let mut enc = GpuEncoder::new();
    let mut host = Host::new();
    let nb = 8;
    let n = nb * 64;
    let input: Vec<f32> = (0..n).map(|i| (i as f32 * 0.013).sin()).collect();
    let blocks = enc.upload_blocks(&wrap_all(&input), nb as u32, 64);
    assert_eq!(blocks.num_blocks(), 8);
    assert_eq!(blocks.coeffs_per_block(), 64);
    assert_eq!(blocks.total_floats(), n as u64);
    let coeffs = enc.dct_8x8_persistent(&blocks);
    let recon = enc.idct_8x8_persistent(&coeffs);
    let max_err = largest_difference(&input, &blocks_back(&mut host, &mut enc, &recon));
    assert!(max_err < 5e-5, "DCT/IDCT roundtrip via persistent API drift: {max_err:.3e}");
}

#[test]
fn test_indexed_scatter_roundtrip_with_gather() {
    for &(pw, ph, tile_w, tile_h) in &[
        (32u32, 32u32, 8u32, 8u32),
        (64, 32, 16, 8),
        (32, 64, 8, 16),
        (64, 64, 16, 16),
    ] {
        let mut enc = GpuEncoder::new();
        let mut host = Host::new();
        let n = (pw * ph) as usize;
        let plane: Vec<f32> = (0..n).map(|i| (i as f32 * 0.011 + 0.3).cos()).collect();
        let g_plane = enc.upload_plane(&wrap_all(&plane), pw, ph);
        let max_bx = (pw - tile_w) / 8 + 1;
        let max_by = (ph - tile_h) / 8 + 1;
        let mut coords: Vec<(u32, u32)> = Vec::new();
        for by in (0..max_by).step_by(2) {
            for bx in (0..max_bx).step_by(2) {
                coords.push((bx, by));
            }
        }
        let g_blocks = enc.indexed_gather_blocks_persistent(&g_plane, &coords, tile_w, tile_h);
        let zero = wrap_all(&vec![0.0_f32; n]);
        let g_dst = enc.upload_plane(&zero, pw, ph);
        enc.indexed_scatter_blocks_persistent(&g_blocks, &coords, &g_dst, tile_w, tile_h);
        let dst = plane_back(&mut host, &mut enc, &g_dst);
        let mut expected = vec![0.0_f32; n];
        for &(bx, by) in &coords {
            let x0 = (bx * 8) as usize;
            let y0 = (by * 8) as usize;
            for dy in 0..tile_h as usize {
                for dx in 0..tile_w as usize {
                    let off = (y0 + dy) * pw as usize + (x0 + dx);
                    expected[off] = plane[off];
                }
            }
        }
        for (i, (g, e)) in dst.iter().zip(expected.iter()).enumerate() {
            assert_eq!(g, e, "{pw}×{ph} tile {tile_w}×{tile_h} pixel {i}");
        }
    }
}

#[test]
fn test_set_dc_from_grid_indexed_persistent_matches_host() {
    let mut enc = GpuEncoder::new();
    let mut host = Host::new();
    let xsize_blocks_8 = 8u32;
    let ysize_blocks_8 = 4u32;
    let n_total = (xsize_blocks_8 * ysize_blocks_8) as usize;
    let dc_host: Vec<f32> = (0..n_total).map(|i| i as f32 * 1.5 + 0.7).collect();
    let g_dc = enc.upload_blocks(&wrap_all(&dc_host), n_total as u32, 1);
    let coords: Vec<(u32, u32)> = vec![(0, 0), (3, 1), (7, 2), (5, 3), (1, 0)];
    let cpb = 64u32;
    let n_strat_blocks = coords.len();
    let init: Vec<f32> = (0..(n_strat_blocks * cpb as usize)).map(|i| -((i as f32) + 1.0)).collect();
    let g_dst = enc.upload_blocks(&wrap_all(&init), n_strat_blocks as u32, cpb);
    enc.set_dc_from_grid_indexed_persistent(&g_dc, &coords, &g_dst, xsize_blocks_8);
    let got = blocks_back(&mut host, &mut enc, &g_dst);
    for (i, &(bx, by)) in coords.iter().enumerate() {
        let dc_idx = (by * xsize_blocks_8 + bx) as usize;
        assert_eq!(
            got[i * cpb as usize], dc_host[dc_idx],
            "DC mismatch at block {i} (bx={bx}, by={by})"
        );
        for k in 1..cpb as usize {
            assert_eq!(
                got[i * cpb as usize + k],
                init[i * cpb as usize + k],
                "AC drifted at block {i} slot {k}"
            );
        }
    }
}

#[test]
fn test_indexed_gather_blocks_persistent_matches_host() {
    for &(pw, ph, tile_w, tile_h) in &[
        (32u32, 32u32, 8u32, 8u32),
        (64, 32, 16, 8),
        (32, 64, 8, 16),
        (64, 64, 16, 16),
        (128, 128, 32, 32),
    ] {
        let mut enc = GpuEncoder::new();
        let mut host = Host::new();
        let n = (pw * ph) as usize;
        let plane: Vec<f32> = (0..n).map(|i| (i as f32 * 0.013).sin()).collect();
        let g_plane = enc.upload_plane(&wrap_all(&plane), pw, ph);
        let max_bx = (pw - tile_w) / 8 + 1;
        let max_by = (ph - tile_h) / 8 + 1;
        let mut coords: Vec<(u32, u32)> = Vec::new();
        for by in 0..max_by {
            for bx in (1..max_bx).step_by(2) {
                coords.push((bx, by));
            }
        }
        let mut host_batch: Vec<f32> = Vec::new();
        for &(bx, by) in &coords {
            let x0 = (bx * 8) as usize;
            let y0 = (by * 8) as usize;
            for dy in 0..tile_h as usize {
                let src_off = (y0 + dy) * (pw as usize) + x0;
                host_batch.extend_from_slice(&plane[src_off..src_off + tile_w as usize]);
            }
        }
        let g_blocks = enc.indexed_gather_blocks_persistent(&g_plane, &coords, tile_w, tile_h);
        let gpu_batch = blocks_back(&mut host, &mut enc, &g_blocks);
        assert_eq!(
            gpu_batch.len(),
            host_batch.len(),
            "len mismatch at {pw}×{ph} tile {tile_w}×{tile_h}"
        );
        for (i, (g, h_)) in gpu_batch.iter().zip(host_batch.iter()).enumerate() {
            assert_eq!(g, h_, "{pw}×{ph} tile {tile_w}×{tile_h} pixel {i}");
        }
    }
}

#[test]
fn test_dc_grid_8x8_persistent_matches_host() {
    for &(w, h) in &[(16u32, 16u32), (32, 32), (64, 48), (128, 256)] {
        let mut enc = GpuEncoder::new();
        let mut host = Host::new();
        let n = (w * h) as usize;
        let plane: Vec<f32> = (0..n).map(|i| 0.05 * ((i as f32 * 0.013).sin() + 0.5)).collect();
        let g_plane = enc.upload_plane(&wrap_all(&plane), w, h);
        let g_dc = enc.dc_grid_8x8_persistent(&g_plane);
        let gpu_dc = blocks_back(&mut host, &mut enc, &g_dc);
        let (across, down) = (w as usize / 8, h as usize / 8);
        let host_dc: Vec<f32> = (0..across * down)
            .map(|b| {
                let mut s = 0.0;
                for k in 0..64 {
                    let y = b / across * 8 + k / 8;
                    let x = b % across * 8 + k % 8;
                    s += plane[y * w as usize + x];
                }
                s / 64.0
            })
            .collect();
        assert_eq!(gpu_dc.len(), host_dc.len(), "len mismatch at {w}×{h}");
        for (i, (g, h_)) in gpu_dc.iter().zip(host_dc.iter()).enumerate() {
            assert!((g - h_).abs() < 1e-5, "{w}×{h} block {i}: gpu={g} host={h_}");
        }
    }
}

#[test]
fn test_xyb_inverse_persistent_roundtrip() {
    let mut enc = GpuEncoder::new();
    let mut host = Host::new();
    let n = 256;
    let r = ramp(n, 0.1, 0.6);
    let g = ramp(n, 0.2, 0.5);
    let b = ramp(n, 0.3, 0.4);
    let g_r = enc.upload_plane(&wrap_all(&r), 16, 16);
    let g_g = enc.upload_plane(&wrap_all(&g), 16, 16);
    let g_b = enc.upload_plane(&wrap_all(&b), 16, 16);
    let (xx, xy, xb) = enc.xyb_from_linear_rgb_persistent(&g_r, &g_g, &g_b);
    let (rx, gy, bz) = enc.xyb_to_linear_rgb_planar_persistent(&xx, &xy, &xb);
    let max_err = largest_difference(&r, &plane_back(&mut host, &mut enc, &rx))
        .max(largest_difference(&g, &plane_back(&mut host, &mut enc, &gy)))
        .max(largest_difference(&b, &plane_back(&mut host, &mut enc, &bz)));
    assert!(max_err < 5e-4, "XYB roundtrip via persistent API drift: {max_err:.3e}");
}

/// Quantization matrices that leave the low coefficients more precision.
fn quant_weights() -> Vec<Float32> {
    let strength = [3150.0_f32, 560.0, 512.0];
    (0..192)
        .map(|i| {
            let k = i % 64;
            wrap((1.0 + (k % 8 + k / 8) as f32) / strength[i / 64])
        })
        .collect()
}

fn filters() -> FilterParameters {
    FilterParameters {
        gab_center: wrap(0.6),
        gab_1: wrap(0.075),
        gab_2: wrap(0.025),
        epf_pass2_sigma_scale: wrap(6.5),
        epf_border_sad_mul: wrap(2.0 / 3.0),
    }
}

fn encoder(enc: &mut GpuEncoder, w: u32, h: u32) -> LossyEncoder {
    LossyEncoder::new(enc, w, h, &quant_weights(), test_weights())
}

fn strengths(lossy: &LossyEncoder) -> Vec<Float32> {
    vec![wrap(-1.0); lossy.num_blocks as usize]
}

/// What an encoding gives back, cropped to the size of the image.
fn outcome(host: &mut Host, enc: &mut GpuEncoder, lossy: &LossyEncoder) -> [Vec<f32>; 3] {
    host.run(enc);
    let (r, g, b) = host.last_three();
    let (r, g, b) = lossy.crop_planes(&r, &g, &b);
    [r, g, b].map(|v| v.iter().map(|&x| unwrap(x)).collect())
}

fn all_finite(planes: &[Vec<f32>; 3], n: usize) {
    for p in planes {
        assert_eq!(p.len(), n, "output length must match original w*h");
        assert!(p.iter().all(|v| v.is_finite()));
    }
}

fn ramps(n: usize) -> [Vec<Float32>; 3] {
    [
        wrap_all(&ramp(n, 0.1, 0.6)),
        wrap_all(&ramp(n, 0.2, 0.5)),
        wrap_all(&ramp(n, 0.3, 0.4)),
    ]
}

#[test]
fn test_lossy_encoder_one_shot() {
    let mut enc = GpuEncoder::new();
    let mut host = Host::new();
    let lossy = encoder(&mut enc, 64, 64);
    let n = 64 * 64;
    let [r, g, b] = ramps(n);
    lossy.encode_one(&mut enc, &r, &g, &b, wrap(4.0), &filters(), &strengths(&lossy));
    all_finite(&outcome(&mut host, &mut enc, &lossy), n);
}

#[test]
fn test_lossy_encoder_arbitrary_size() {
    let mut enc = GpuEncoder::new();
    let mut host = Host::new();
    let w = 100_u32;
    let h = 73_u32;
    let lossy = encoder(&mut enc, w, h);
    assert_eq!(lossy.dimensions(), (100, 73));
    assert_eq!(lossy.padded_dimensions(), (112, 80));
    let n = (w * h) as usize;
    let [r, g, b] = ramps(n);
    lossy.encode_one(&mut enc, &r, &g, &b, wrap(4.0), &filters(), &strengths(&lossy));
    all_finite(&outcome(&mut host, &mut enc, &lossy), n);
}

#[test]
fn test_lossy_encoder_adaptive_qac() {
    let mut enc = GpuEncoder::new();
    let mut host = Host::new();
    let lossy = encoder(&mut enc, 32, 16);
    let n = 32 * 16;
    let nb = (32 / 8) * (16 / 8);
    let [r, g, b] = ramps(n);
    let aq_field: Vec<f32> = (0..nb).map(|i| if i < nb / 2 { 1.5 } else { 0.2 }).collect();
    lossy.encode_one_adaptive(
        &mut enc,
        &r,
        &g,
        &b,
        &wrap_all(&aq_field),
        &filters(),
        &strengths(&lossy),
    );
    all_finite(&outcome(&mut host, &mut enc, &lossy), n);
}

#[test]
fn test_lossy_encoder_many_settings() {
    let mut enc = GpuEncoder::new();
    let mut host = Host::new();
    let lossy = encoder(&mut enc, 32, 32);
    let n = 32 * 32;
    let [r, g, b] = ramps(n);
    let qacs = wrap_all(&[1.0_f32, 2.0, 4.0, 8.0]);
    let sigmas = vec![strengths(&lossy); 4];
    let outputs = lossy.encode_many(&mut enc, &r, &g, &b, &qacs, &filters(), &sigmas);
    host.run(&mut enc);
    assert_eq!(outputs.len(), 4);
    assert_eq!(host.reads.len(), 3 * 4);
    for (i, rr) in host.reads.iter().enumerate() {
        assert_eq!(rr.len(), 4 * n, "output {i} wrong length");
    }
    // The image is uploaded once, whatever the number of settings.
    assert_eq!(host.uploads.iter().filter(|&&u| u == n).count(), 3);
}

/// A sharp edge across a gentle slope.
fn edge_image() -> Vec<f32> {
    let mut v = Vec::new();
    for y in 0..32 {
        for x in 0..32 {
            let base = if y < 16 { 0.2 } else { 0.8 };
            v.push(base + 0.01 * x as f32);
        }
    }
    v
}

/// The mean of the mask in each 8x8 block of an image, and one outside it.
fn mask_means(lossy: &LossyEncoder, r: &[Float32], g: &[Float32], b: &[Float32]) -> Vec<Float32> {
    let mut enc = GpuEncoder::new();
    let mut host = Host::new();
    lossy.compute_block_mask_means(&mut enc, r, g, b);
    host.run(&mut enc);
    let blocks = lossy.mask_blocks(&wrap_all(&host.last_floats()));
    let mean = |v: &Vec<Float32>| -> f32 {
        if v.is_empty() {
            return f32::from_bits(OUTSIDE_MASK);
        }
        let s: f64 = v.iter().map(|&x| unwrap(x) as f64).sum();
        (s / v.len() as f64) as f32
    };
    blocks.iter().map(|v| wrap(mean(v))).collect()
}

#[test]
fn masks_are_of_the_image_without_its_padding() {
    let mut enc = GpuEncoder::new();
    let mut host = Host::new();
    let lossy = encoder(&mut enc, 20, 30);
    host.run(&mut enc);
    host.uploads.clear();
    let [r, g, b] = ramps(600);
    let plane = lossy.compute_block_mask_means(&mut enc, &r, &g, &b);
    host.run(&mut enc);
    assert_eq!(host.uploads, vec![600, 600, 600]);
    assert_eq!(host.launches, vec![Kernel::XybForward, Kernel::Mask1x1]);
    assert_eq!((plane.width, plane.height), (20, 30));
    let mask = wrap_all(&host.last_floats());
    assert_eq!(mask.len(), 600);
    let blocks = lossy.mask_blocks(&mask);
    // Blocks of an image that is padded to 32 by 32.
    let sizes: Vec<usize> = blocks.iter().map(|v| v.len()).collect();
    assert_eq!(
        sizes,
        vec![64, 64, 32, 0, 64, 64, 32, 0, 64, 64, 32, 0, 48, 48, 24, 0]
    );
    assert_eq!(blocks[6][0], mask[8 * 20 + 16]);
    assert_eq!(blocks[6][5], mask[9 * 20 + 17]);
    assert_eq!(blocks[14][23], mask[29 * 20 + 19]);
    let means = mask_means(&lossy, &r, &g, &b);
    assert_eq!(unwrap(means[3]), 1.0);
    assert!(unwrap(means[0]) > 1.0);
}

#[test]
fn test_lossy_encoder_with_aq() {
    let mut enc = GpuEncoder::new();
    let mut host = Host::new();
    let lossy = encoder(&mut enc, 32, 32);
    let n = 32 * 32;
    let image = wrap_all(&edge_image());
    let means = mask_means(&lossy, &image, &image, &image);
    lossy.encode_one_with_aq(
        &mut enc,
        &image,
        &image,
        &image,
        &means,
        wrap(1.0),
        &filters(),
        &strengths(&lossy),
    );
    all_finite(&outcome(&mut host, &mut enc, &lossy), n);
    let aq = lossy.compute_aq_field(&means, wrap(1.0));
    assert_eq!(aq.len(), lossy.num_blocks as usize);
    for &v in &aq {
        assert!(unwrap(v).is_finite() && unwrap(v) > 0.0);
    }
}

#[test]
fn test_lossy_encoder_many_with_aq() {
    let mut enc = GpuEncoder::new();
    let mut host = Host::new();
    let lossy = encoder(&mut enc, 32, 32);
    let n = 32 * 32;
    let plain = edge_image();
    let image = wrap_all(&plain);
    let means = mask_means(&lossy, &image, &image, &image);
    let distances = [0.5_f32, 1.0, 2.0, 4.0];
    let sigmas = vec![strengths(&lossy); 4];
    let outs = lossy.encode_many_with_aq(
        &mut enc,
        &image,
        &image,
        &image,
        &means,
        &wrap_all(&distances),
        &filters(),
        &sigmas,
    );
    host.run(&mut enc);
    assert_eq!(outs.len(), distances.len());
    assert_eq!(host.reads.len(), 3 * distances.len());
    let mut mae = Vec::new();
    for out in host.reads.chunks_exact(3) {
        let mut s = 0.0_f64;
        for plane in out {
            let plane = floats_of(plane);
            assert_eq!(plane.len(), n);
            for i in 0..n {
                assert!(plane[i].is_finite());
                s += (plain[i] - plane[i]).abs() as f64;
            }
        }
        mae.push(s / (3.0 * n as f64));
    }
    let (mae_low, mae_hi) = (mae[0], mae[distances.len() - 1]);
    assert!(mae_hi >= mae_low, "MAE non-monotonic: {mae_low} → {mae_hi}");
}

#[test]
fn a_light_quantization_stays_close_to_the_image() {
    let mut enc = GpuEncoder::new();
    let mut host = Host::new();
    let lossy = encoder(&mut enc, 40, 24);
    let image = ramps(40 * 24);
    let flat = FilterParameters {
        gab_center: wrap(1.0),
        gab_1: wrap(0.0),
        gab_2: wrap(0.0),
        ..filters()
    };
    // Scales this large go with a distance below one half: no sharpening.
    lossy.encode_one(&mut enc, &image[0], &image[1], &image[2], wrap(50.0), &flat, &strengths(&lossy));
    let out = outcome(&mut host, &mut enc, &lossy);
    assert!(!host.launches.contains(&Kernel::Gaborish5x5));
    assert!(!host.launches.contains(&Kernel::GabSmooth));
    for (plane, source) in out.iter().zip(&image) {
        for (a, b) in plane.iter().zip(source) {
            assert!((a - unwrap(*b)).abs() < 0.02, "{a} {}", unwrap(*b));
        }
    }
}

#[test]
fn light_scales_are_not_sharpened() {
    let run = |weight: f32, least: f32| {
        let mut enc = GpuEncoder::new();
        let mut host = Host::new();
        let weights = GaborishWeights { wr: wrap(weight), ..test_weights() };
        let lossy = LossyEncoder::new(&mut enc, 48, 32, &quant_weights(), weights);
        let [r, g, b] = ramps(48 * 32);
        let field: Vec<f32> = (0..24).map(|i| least + (i % 5) as f32 * 0.3).collect();
        let field = wrap_all(&field);
        lossy.encode_one_adaptive(&mut enc, &r, &g, &b, &field, &filters(), &strengths(&lossy));
        let out = outcome(&mut host, &mut enc, &lossy);
        let sharpened = host.launches.contains(&Kernel::Gaborish5x5);
        assert_eq!(sharpened, host.launches.contains(&Kernel::GabSmooth));
        (out, sharpened)
    };
    let (out, sharpened) = run(-0.1, 1.6);
    assert!(!sharpened);
    // Nor do the weights matter.
    assert!(run(0.3, 1.6).0 == out);
    let (out, sharpened) = run(-0.1, 0.5);
    assert!(sharpened);
    assert!(run(0.3, 0.5).0 != out);
}

#[test]
fn a_uniform_field_encodes_as_its_scale() {
    let run = |adaptive: bool| {
        let mut enc = GpuEncoder::new();
        let mut host = Host::new();
        let lossy = encoder(&mut enc, 32, 32);
        let [r, g, b] = ramps(32 * 32);
        let qac = distance_to_qac(wrap(1.0));
        if adaptive {
            let field = lossy.scalar_aq_field(wrap(1.0));
            lossy.encode_one_adaptive(&mut enc, &r, &g, &b, &field, &filters(), &strengths(&lossy));
        } else {
            lossy.encode_one(&mut enc, &r, &g, &b, qac, &filters(), &strengths(&lossy));
        }
        outcome(&mut host, &mut enc, &lossy)
    };
    assert_eq!(run(true), run(false));
}

#[test]
fn sharpening_and_smoothing_follow_the_scales() {
    let mut enc = GpuEncoder::new();
    let mut host = Host::new();
    let lossy = encoder(&mut enc, 16, 16);
    let [r, g, b] = ramps(256);
    lossy.encode_one(&mut enc, &r, &g, &b, wrap(0.765), &filters(), &strengths(&lossy));
    host.run(&mut enc);
    assert_eq!(
        host.launches,
        vec![
            Kernel::XybForward,
            Kernel::Gaborish5x5,
            Kernel::Gaborish5x5,
            Kernel::Gaborish5x5,
            Kernel::GatherBlocks,
            Kernel::GatherBlocks,
            Kernel::GatherBlocks,
            Kernel::Dct8x8Wide,
            Kernel::Dct8x8Wide,
            Kernel::Dct8x8Wide,
            Kernel::QuantizeDct8BroadcastW,
            Kernel::QuantizeDct8BroadcastW,
            Kernel::QuantizeDct8BroadcastW,
            Kernel::DequantDct8BroadcastW,
            Kernel::RestoreDc,
            Kernel::RestoreDc,
            Kernel::RestoreDc,
            Kernel::Idct8x8Wide,
            Kernel::Idct8x8Wide,
            Kernel::Idct8x8Wide,
            Kernel::ScatterBlocks,
            Kernel::ScatterBlocks,
            Kernel::ScatterBlocks,
            Kernel::GabSmooth,
            Kernel::GabSmooth,
            Kernel::GabSmooth,
            Kernel::PadPlane,
            Kernel::PadPlane,
            Kernel::PadPlane,
            Kernel::EpfStep1,
            Kernel::PadPlane,
            Kernel::PadPlane,
            Kernel::PadPlane,
            Kernel::EpfStep2,
            Kernel::XybInverse,
        ]
    );
}

#[test]
fn new_encoders_have_the_default_settings() {
    let mut enc = GpuEncoder::new();
    let lossy = encoder(&mut enc, 100, 73);
    assert_eq!(lossy.effort(), 7);
    assert!(!lossy.evaluate_afv());
    assert!(lossy.auto_evaluate_afv_on_screenshots());
    assert!(lossy.auto_skip_afv_when_patches());
    assert!(!lossy.auto_libjxl_entropy_mul_on_photos());
    assert!(lossy.auto_patches_on_fast_path());
    assert!(!lossy.enable_kavoid_entropy_of_transforms());
    assert_eq!(lossy.num_blocks, 14 * 10);
    assert_eq!(lossy.thresholds_y.map(unwrap), [0.56, 0.62, 0.62, 0.62]);
    assert_eq!(lossy.thresholds_x.map(unwrap), [0.58, 0.62, 0.62, 0.62]);
    assert_eq!(lossy.with_effort(0).effort(), 1);
    assert_eq!(lossy.with_effort(5).effort(), 5);
    assert_eq!(lossy.with_effort(200).effort(), 9);
    assert!(lossy.with_evaluate_afv(true).evaluate_afv());
    assert!(!lossy.with_auto_patches_on_fast_path(false).auto_patches_on_fast_path());
    // Three quantization matrices of 64 numbers each.
    let mut host = Host::new();
    host.run(&mut enc);
    assert_eq!(host.uploads, vec![64, 64, 64]);
}

#[test]
fn searching_bytes_and_numbers_gives_the_same_planes() {
    let (w, h) = (20_u32, 18_u32);
    let bytes: Vec<u8> = (0..w * h * 3).map(|i| (i * 7 % 256) as u8).collect();
    let channel = |c: usize| -> Vec<Float32> {
        bytes.iter().skip(c).step_by(3).map(|&b| wrap(to_linear(b))).collect()
    };
    let planes_of = |from_bytes: bool| -> (Vec<f32>, Vec<f32>) {
        let mut enc = GpuEncoder::new();
        let mut host = Host::new();
        let lossy = encoder(&mut enc, w, h);
        let planes: SearchPlanes = if from_bytes {
            lossy.prepare_strategy_search_plan_from_u8(&mut enc, &bytes, wrap(1.0))
        } else {
            lossy.prepare_strategy_search_plan(
                &mut enc,
                &channel(0),
                &channel(1),
                &channel(2),
                wrap(1.0),
            )
        };
        host.run(&mut enc);
        let means = host.last_floats();
        assert_eq!(means.len(), lossy.num_blocks as usize);
        (plane_back(&mut host, &mut enc, &planes.post.1), means)
    };
    assert_eq!(planes_of(true), planes_of(false));
}

#[test]
fn a_search_sharpens_only_above_one_half() {
    for (d, sharpened) in [(0.5_f32, false), (0.6, true)] {
        let mut enc = GpuEncoder::new();
        let mut host = Host::new();
        let lossy = encoder(&mut enc, 16, 16);
        let [r, g, b] = ramps(256);
        let planes = lossy.prepare_strategy_search_plan(&mut enc, &r, &g, &b, wrap(d));
        host.run(&mut enc);
        assert_eq!(host.launches.contains(&Kernel::Gaborish5x5), sharpened);
        assert_eq!(planes.pre.0.handle() == planes.post.0.handle(), !sharpened);
    }
}

#[test]
fn blocks_are_read_back_only_with_afv() {
    for afv in [false, true] {
        let mut enc = GpuEncoder::new();
        let mut host = Host::new();
        let lossy = encoder(&mut enc, 32, 16);
        let [r, g, b] = ramps(32 * 16);
        let planes = lossy.prepare_strategy_search_plan(&mut enc, &r, &g, &b, wrap(1.0));
        host.run(&mut enc);
        host.reads.clear();
        let blocks = lossy.gather_search_blocks(&mut enc, &planes, afv);
        assert_eq!(blocks.0.num_blocks(), 8);
        host.run(&mut enc);
        assert_eq!(host.reads.len(), if afv { 3 } else { 0 });
        let plan = lossy.finish_strategy_search_plan(&mut enc, &planes, afv, Vec::new(), wrap(1.0));
        host.run(&mut enc);
        assert_eq!(host.reads.len(), if afv { 6 } else { 0 });
        assert_eq!(plan.dc_grid_x_gpu.num_blocks(), 8);
        assert_eq!((plan.padded_width, plan.padded_height), (32, 16));
        assert_eq!(plan.xyb_y_gpu.handle(), planes.post.1.handle());
        assert_eq!(plan.xyb_y_pre_gab_gpu.handle(), planes.pre.1.handle());
    }
}

#[test]
fn first_pixels_of_blocks() {
    let mut enc = GpuEncoder::new();
    let lossy = encoder(&mut enc, 32, 16);
    enc.take_commands();
    lossy.upload_first_pixels(&mut enc);
    match &enc.take_commands()[0] {
        Command::Create { words } => {
            assert_eq!(words, &vec![0, 8, 16, 24, 256, 264, 272, 280]);
        }
        _ => panic!("no upload"),
    }
}

#[test]
fn what_follows_a_plan() {
    for (d, smoothed) in [(0.5_f32, false), (1.0, true)] {
        let mut enc = GpuEncoder::new();
        let mut host = Host::new();
        let lossy = encoder(&mut enc, 16, 16);
        let [r, g, b] = ramps(256);
        let planes = lossy.prepare_strategy_search_plan(&mut enc, &r, &g, &b, wrap(d));
        let plan = lossy.finish_strategy_search_plan(&mut enc, &planes, false, Vec::new(), wrap(d));
        let recon: Planes = lossy.reconstruction_planes(&mut enc);
        host.run(&mut enc);
        host.launches.clear();
        let field = lossy.scalar_aq_field(wrap(d));
        assert_eq!(quant_field_bytes(&field).len(), 4);
        lossy.encode_with_strategy_plan_adaptive(
            &mut enc,
            &plan,
            &recon,
            &filters(),
            &strengths(&lossy),
        );
        host.run(&mut enc);
        let mut expected = vec![
            Kernel::PadPlane,
            Kernel::PadPlane,
            Kernel::PadPlane,
            Kernel::EpfStep1,
            Kernel::PadPlane,
            Kernel::PadPlane,
            Kernel::PadPlane,
            Kernel::EpfStep2,
            Kernel::XybInverse,
        ];
        if smoothed {
            expected.insert(0, Kernel::GabSmooth3ch);
        }
        assert_eq!(host.launches, expected);
        assert_eq!(host.last_floats().len(), 256);
    }
}

fn grid_inputs(enc: &mut GpuEncoder, pixels: &[f32], n: usize) -> (Handle, Handle, Handle, Handle) {
    let words = |v: &[f32]| -> Vec<u32> { v.iter().map(|x| x.to_bits()).collect() };
    (
        enc.create(words(pixels)),
        enc.create(words(&vec![1.0; pixels.len()])),
        enc.create(words(&vec![1.0; n])),
        enc.create(words(&[0.5; 4])),
    )
}

#[test]
fn cost_grids_measure_what_quantization_loses() {
    // Two flat blocks. Quantization leaves out their means, and they have
    // nothing else to lose.
    let mut enc = GpuEncoder::new();
    let mut host = Host::new();
    let mut blocks = vec![0.25_f32; 64];
    blocks.extend(vec![0.5_f32; 64]);
    let (original, weights, qac, thresholds) = grid_inputs(&mut enc, &blocks, 2);
    let grid: CostGrid =
        compute_cost_grid_dct8_single_channel(&mut enc, original, weights, qac, thresholds, 2, 1);
    enc.read(vec![grid.costs]);
    host.run(&mut enc);
    assert_eq!((grid.xsize_blocks, grid.ysize_blocks), (2, 1));
    let costs = host.last_floats();
    assert_eq!(costs.len(), 2);
    let total: f32 = costs.iter().sum();
    let expected = 3.0 * 64.0 * (0.25 * 0.25 + 0.5 * 0.5);
    assert!((total - expected).abs() < 1e-3, "{total}");
    assert_eq!(
        host.launches,
        vec![
            Kernel::Dct8x8,
            Kernel::QuantizeDct8,
            Kernel::DequantWeightsDct8,
            Kernel::Idct8x8,
            Kernel::BlockL2,
        ]
    );
}

#[test]
fn cost_grids_of_larger_blocks_have_an_entry_per_8x8_block() {
    let mut enc = GpuEncoder::new();
    let mut host = Host::new();
    let (original, weights, qac, thresholds) = grid_inputs(&mut enc, &[0.25; 256], 1);
    let grid = compute_cost_grid_dct16x16_single_channel(
        &mut enc, original, weights, qac, thresholds, 1, 1,
    );
    enc.read(vec![grid.costs]);
    host.run(&mut enc);
    assert_eq!(host.last_floats().len(), 4);
    assert_eq!(host.launches[1], Kernel::QuantizeLarge);
    assert_eq!(host.launches[2], Kernel::DequantWeights);
}

#[test]
fn cost_grids_over_three_channels_try_each() {
    let mut enc = GpuEncoder::new();
    let mut host = Host::new();
    let x = grid_inputs(&mut enc, &[0.1; 64], 1);
    let y = grid_inputs(&mut enc, &[0.2; 64], 1);
    let b = grid_inputs(&mut enc, &[0.4; 64], 1);
    let mask = enc.fill(64, 2.0_f32.to_bits());
    let grid = compute_cost_grid_dct8_xyb(
        &mut enc, x.0, y.0, b.0, x.1, y.1, b.1, x.2, y.2, b.2, x.3, y.3, b.3, mask, 1, 1,
    );
    enc.read(vec![grid.costs]);
    host.run(&mut enc);
    let expected = 2.0 * 64.0 * (0.01 + 0.04 + 0.16);
    assert!((host.last_floats()[0] - expected).abs() < 1e-3);
    assert_eq!(host.launches.len(), 4 * 3 + 1);
}

#[test]
fn grids_hold_all_threads() {
    let mut enc = GpuEncoder::new();
    let plane = enc.upload_plane(&wrap_all(&vec![0.0; 20 * 20]), 20, 20);
    enc.mask1x1_persistent(&plane);
    let blocks = enc.upload_blocks(&wrap_all(&vec![0.0; 65 * 64]), 65, 64);
    enc.dct_8x8_wide_persistent(&blocks);
    enc.dct_8x8_persistent(&blocks);
    let grids: Vec<Grid> = enc
        .take_commands()
        .into_iter()
        .filter_map(|c| match c {
            Command::Launch { launch } => Some(launch.grid),
            _ => None,
        })
        .collect();
    assert_eq!(
        grids,
        vec![
            Grid::Cubes { count: 2, threads: 256 },
            Grid::Cubes { count: 2, threads: 64 },
            Grid::Cubes { count: 65, threads: 1 },
        ]
    );
}

/// Carries a search of flat content through, with made-up costs. Returns the
/// codes chosen, and how many buffers were read back after the means.
fn search_with(lossy: &LossyEncoder, mean: f32, patches: bool, cheap: CostJob) -> (Vec<u8>, usize) {
    let mut enc = GpuEncoder::new();
    let mut host = Host::new();
    let [r, g, b] = ramps((lossy.width * lossy.height) as usize);
    let planes = lossy.prepare_strategy_search_plan(&mut enc, &r, &g, &b, wrap(1.0));
    host.run(&mut enc);
    host.reads.clear();
    let means = vec![wrap(mean); lossy.num_blocks as usize];
    let step = lossy.search_with_means(&mut enc, planes, &means, wrap(1.0));
    host.run(&mut enc);
    assert_eq!(host.reads.len(), if step.wants_patches { 3 } else { 0 });
    let step = lossy.search_with_patches(&mut enc, step, patches);
    host.run(&mut enc);
    assert_eq!(step.aq_field.len(), lossy.num_blocks as usize);
    let n = lossy.num_blocks as usize;
    let replies: Vec<Vec<Float32>> = step
        .jobs
        .iter()
        .map(|job| {
            let blocks = match job {
                CostJob::Dct8 | CostJob::SubBlock(_) => 1,
                CostJob::Dct16x8 | CostJob::Dct8x16 => 2,
                CostJob::Dct16x16 => 4,
                CostJob::Dct32x16 | CostJob::Dct16x32 => 8,
                CostJob::Dct32x32(_) => 16,
                CostJob::Dct64x32 | CostJob::Dct32x64 => 32,
                CostJob::Dct64x64 => 64,
                CostJob::Afv => return vec![wrap(if *job == cheap { 0.5 } else { 90.0 }); 4 * n],
            };
            let cost = if *job == cheap { 0.5 } else { 9.0 };
            vec![wrap(cost * blocks as f32); n / blocks]
        })
        .collect();
    let plan = lossy.search_with_costs(&mut enc, &step, replies).unwrap();
    host.run(&mut enc);
    let mut codes: Vec<u8> = plan.assignments.iter().map(|a| a.raw_strategy).collect();
    codes.sort();
    codes.dedup();
    (codes, host.reads.len())
}

#[test]
fn a_search_runs_from_image_to_plan() {
    let mut enc = GpuEncoder::new();
    let lossy = encoder(&mut enc, 64, 64);
    // A photo: nothing further is read back.
    assert_eq!(search_with(&lossy, 80.0, false, CostJob::Dct8), (vec![RAW_STRATEGY_DCT], 0));
    assert_eq!(
        search_with(&lossy, 80.0, false, CostJob::Dct64x64),
        (vec![RAW_STRATEGY_DCT64X64], 0)
    );
    // A screenshot: the planes for the patches, and without patches those for
    // the AFV transforms and the means of the blocks.
    let small = encoder(&mut enc, 48, 48);
    assert_eq!(search_with(&small, 100.0, true, CostJob::Afv).1, 3);
    assert_eq!(search_with(&small, 100.0, false, CostJob::Afv), (vec![RAW_STRATEGY_AFV0], 9));
    // The AFV transforms on request, without looking for patches.
    let asked = small.with_evaluate_afv(true);
    assert_eq!(search_with(&asked, 100.0, true, CostJob::Afv), (vec![RAW_STRATEGY_AFV0], 6));
    let lazy = lossy.with_effort(2);
    assert_eq!(search_with(&lazy, 100.0, false, CostJob::Dct16x16), (vec![RAW_STRATEGY_DCT], 0));
}

#[test]
fn a_search_refuses_costs_of_the_wrong_length() {
    let mut enc = GpuEncoder::new();
    let lossy = encoder(&mut enc, 16, 16).with_effort(4);
    let [r, g, b] = ramps(256);
    let planes = lossy.prepare_strategy_search_plan(&mut enc, &r, &g, &b, wrap(1.0));
    let step = lossy.search_with_means(&mut enc, planes, &vec![wrap(1.0); 4], wrap(1.0));
    let step = lossy.search_with_patches(&mut enc, step, false);
    enc.take_commands();
    assert!(lossy.search_with_costs(&mut enc, &step, vec![vec![wrap(1.0); 3]]).is_none());
    assert!(enc.take_commands().is_empty());
    assert!(lossy.search_with_costs(&mut enc, &step, vec![vec![wrap(1.0); 4]]).is_some());
}

/// The upper left blocks of all areas of `rows` by `cols` blocks.
fn areas(xsize: u32, ysize: u32, rows: u32, cols: u32) -> Vec<(u32, u32)> {
    let mut coords = Vec::new();
    for by in 0..(ysize - (rows - 1)) {
        for bx in 0..(xsize - (cols - 1)) {
            coords.push((bx, by));
        }
    }
    coords
}

/// The means of an area of `rows` by `cols` blocks.
fn area_means(dc: &[f32], xsize: u32, at: (u32, u32), rows: u32, cols: u32) -> Vec<f32> {
    let mut sub = Vec::new();
    for dy in 0..rows {
        for dx in 0..cols {
            sub.push(dc[((at.1 + dy) * xsize + at.0 + dx) as usize]);
        }
    }
    sub
}

/// The lowest coefficients of a block of `wide * 8` columns are `low`, and the
/// coefficients listed in `ac` are what they were.
fn check_lowest(got: &[f32], init: &[f32], low: &[f32], wide: usize, ac: &[usize], close: f32) {
    for (k, &expected) in low.iter().enumerate() {
        let pos = k / wide * 8 * wide + k % wide;
        assert!((got[pos] - expected).abs() < close, "pos {pos}: {} {expected}", got[pos]);
    }
    for &k in ac {
        assert_eq!(got[k], init[k], "AC drift at slot {k}");
    }
}

#[test]
fn test_set_llf_dct64_family_indexed_persistent_matches_host() {
    let mut enc = GpuEncoder::new();
    let mut host = Host::new();
    let (xs, ys) = (16_u32, 16_u32);
    let n_total = (xs * ys) as usize;
    let dc: Vec<f32> = (0..n_total).map(|i| (i as f32 * 0.041).sin() * 0.6 + 0.25).collect();
    let g_dc = enc.upload_blocks(&wrap_all(&dc), n_total as u32, 1);

    let coords = areas(xs, ys, 8, 8);
    let init: Vec<f32> = (0..coords.len() * 4096).map(|i| -((i as f32) * 0.0007 + 1.0)).collect();
    let g_dst = enc.upload_blocks(&wrap_all(&init), coords.len() as u32, 4096);
    enc.set_llf_dct64x64_indexed_persistent(&g_dc, &coords, &g_dst, xs);
    let got = blocks_back(&mut host, &mut enc, &g_dst);
    for (i, &at) in coords.iter().enumerate() {
        let low = lowest(&area_means(&dc, xs, at, 8, 8), 8, 8);
        let range = i * 4096..(i + 1) * 4096;
        check_lowest(&got[range.clone()], &init[range], &low, 8, &[8, 9, 63, 72, 4095], 1e-3);
    }

    let coords = areas(xs, ys, 8, 4);
    let init: Vec<f32> = (0..coords.len() * 2048).map(|i| -((i as f32) * 0.00029 + 1.0)).collect();
    let g_dst = enc.upload_blocks(&wrap_all(&init), coords.len() as u32, 2048);
    enc.set_llf_dct64x32_indexed_persistent(&g_dc, &coords, &g_dst, xs);
    let got = blocks_back(&mut host, &mut enc, &g_dst);
    for (i, &at) in coords.iter().enumerate() {
        let low = lowest(&area_means(&dc, xs, at, 8, 4), 8, 4);
        let range = i * 2048..(i + 1) * 2048;
        check_lowest(&got[range.clone()], &init[range], &low, 8, &[], 1e-3);
    }

    let coords = areas(xs, ys, 4, 8);
    let init: Vec<f32> = (0..coords.len() * 2048).map(|i| -((i as f32) * 0.00037 + 1.0)).collect();
    let g_dst = enc.upload_blocks(&wrap_all(&init), coords.len() as u32, 2048);
    enc.set_llf_dct32x64_indexed_persistent(&g_dc, &coords, &g_dst, xs);
    let got = blocks_back(&mut host, &mut enc, &g_dst);
    for (i, &at) in coords.iter().enumerate() {
        let low = lowest(&area_means(&dc, xs, at, 4, 8), 4, 8);
        let range = i * 2048..(i + 1) * 2048;
        check_lowest(&got[range.clone()], &init[range], &low, 8, &[], 1e-3);
    }
}

#[test]
fn test_set_llf_dct32x16_and_16x32_indexed_persistent_matches_host() {
    let mut enc = GpuEncoder::new();
    let mut host = Host::new();
    let (xs, ys) = (16_u32, 8_u32);
    let n_total = (xs * ys) as usize;
    let dc: Vec<f32> = (0..n_total).map(|i| (i as f32 * 0.23).cos() * 0.4 + 0.15).collect();
    let g_dc = enc.upload_blocks(&wrap_all(&dc), n_total as u32, 1);

    let coords = areas(xs, ys, 4, 2);
    let max_count = ((ys - 1) * (xs - 3)).max((ys - 3) * (xs - 1)) as usize;
    let init: Vec<f32> = (0..max_count * 512).map(|i| -((i as f32) * 0.0029 + 1.0)).collect();
    let g_dst = enc.upload_blocks(
        &wrap_all(&init[..coords.len() * 512]),
        coords.len() as u32,
        512,
    );
    enc.set_llf_dct32x16_indexed_persistent(&g_dc, &coords, &g_dst, xs);
    let got = blocks_back(&mut host, &mut enc, &g_dst);
    for (i, &at) in coords.iter().enumerate() {
        let low = lowest(&area_means(&dc, xs, at, 4, 2), 4, 2);
        let range = i * 512..(i + 1) * 512;
        check_lowest(&got[range.clone()], &init[range], &low, 4, &[4, 5, 31, 36, 100, 511], 1e-4);
    }

    let coords = areas(xs, ys, 2, 4);
    let g_dst = enc.upload_blocks(
        &wrap_all(&init[..coords.len() * 512]),
        coords.len() as u32,
        512,
    );
    enc.set_llf_dct16x32_indexed_persistent(&g_dc, &coords, &g_dst, xs);
    let got = blocks_back(&mut host, &mut enc, &g_dst);
    for (i, &at) in coords.iter().enumerate() {
        let low = lowest(&area_means(&dc, xs, at, 2, 4), 2, 4);
        let range = i * 512..(i + 1) * 512;
        check_lowest(&got[range.clone()], &init[range], &low, 4, &[], 1e-4);
    }
}

#[test]
fn test_set_llf_dct32x32_indexed_persistent_matches_host() {
    let mut enc = GpuEncoder::new();
    let mut host = Host::new();
    let (xs, ys) = (16_u32, 8_u32);
    let n_total = (xs * ys) as usize;
    let dc: Vec<f32> = (0..n_total).map(|i| (i as f32 * 0.19).sin() * 0.5 + 0.2).collect();
    let g_dc = enc.upload_blocks(&wrap_all(&dc), n_total as u32, 1);
    let coords = areas(xs, ys, 4, 4);
    let init: Vec<f32> = (0..coords.len() * 1024).map(|i| -((i as f32) * 0.0017 + 1.0)).collect();
    let g_dst = enc.upload_blocks(&wrap_all(&init), coords.len() as u32, 1024);
    enc.set_llf_dct32x32_indexed_persistent(&g_dc, &coords, &g_dst, xs);
    let got = blocks_back(&mut host, &mut enc, &g_dst);
    for (i, &at) in coords.iter().enumerate() {
        let low = lowest(&area_means(&dc, xs, at, 4, 4), 4, 4);
        let range = i * 1024..(i + 1) * 1024;
        let ac = [4, 5, 30, 31, 100, 500, 1023];
        check_lowest(&got[range.clone()], &init[range], &low, 4, &ac, 1e-4);
    }
}

#[test]
fn test_set_llf_dct16x16_indexed_persistent_matches_host() {
    let mut enc = GpuEncoder::new();
    let mut host = Host::new();
    let (xs, ys) = (16_u32, 8_u32);
    let n_total = (xs * ys) as usize;
    let dc: Vec<f32> = (0..n_total).map(|i| (i as f32 * 0.27).cos() * 0.4 + 0.1).collect();
    let g_dc = enc.upload_blocks(&wrap_all(&dc), n_total as u32, 1);
    let coords = areas(xs, ys, 2, 2);
    let init: Vec<f32> = (0..coords.len() * 256).map(|i| -((i as f32) * 0.011 + 1.0)).collect();
    let g_dst = enc.upload_blocks(&wrap_all(&init), coords.len() as u32, 256);
    enc.set_llf_dct16x16_indexed_persistent(&g_dc, &coords, &g_dst, xs);
    let got = blocks_back(&mut host, &mut enc, &g_dst);
    for (i, &at) in coords.iter().enumerate() {
        let low = lowest(&area_means(&dc, xs, at, 2, 2), 2, 2);
        let range = i * 256..(i + 1) * 256;
        let ac = [2, 5, 15, 18, 32, 100, 255];
        check_lowest(&got[range.clone()], &init[range], &low, 2, &ac, 1e-5);
    }
}

#[test]
fn test_set_llf_dct16x8_or_8x16_indexed_persistent_matches_host() {
    let mut enc = GpuEncoder::new();
    let mut host = Host::new();
    let (xs, ys) = (16_u32, 8_u32);
    let n_total = (xs * ys) as usize;
    let dc: Vec<f32> = (0..n_total).map(|i| (i as f32 * 0.31).sin() * 0.7).collect();
    let g_dc = enc.upload_blocks(&wrap_all(&dc), n_total as u32, 1);
    for (label, dc_step) in [("DCT16x8", xs), ("DCT8x16", 1_u32)] {
        let coords = areas(xs, ys, 2, 2);
        let init: Vec<f32> = (0..coords.len() * 128).map(|i| -((i as f32) + 1.0)).collect();
        let g_dst = enc.upload_blocks(&wrap_all(&init), coords.len() as u32, 128);
        enc.set_llf_dct16x8_or_8x16_indexed_persistent(&g_dc, &coords, &g_dst, xs, dc_step);
        let got = blocks_back(&mut host, &mut enc, &g_dst);
        for (i, &(bx, by)) in coords.iter().enumerate() {
            let at = (by * xs + bx) as usize;
            let low = lowest(&[dc[at], dc[at + dc_step as usize]], 1, 2);
            let (g0, g1) = (got[i * 128], got[i * 128 + 1]);
            assert!((g0 - low[0]).abs() < 1e-5, "{label} block {i} llf0: {g0} {}", low[0]);
            assert!((g1 - low[1]).abs() < 1e-5, "{label} block {i} llf1: {g1} {}", low[1]);
            for k in 2..128 {
                assert_eq!(got[i * 128 + k], init[i * 128 + k], "{label} block {i} slot {k}");
            }
        }
    }
}

fn create(enc: &mut GpuEncoder, v: &[f32]) -> Handle {
    enc.create(v.iter().map(|x| x.to_bits()).collect())
}

#[test]
fn test_quantize_large_persistent_matches_non_persistent() {
    let mut enc = GpuEncoder::new();
    let mut host = Host::new();
    for (gw, gh, lx, ly) in [(8_u32, 8_u32, 1_u32, 1_u32), (16, 16, 2, 2), (8, 16, 1, 2)] {
        let bs = (gw * gh) as usize;
        let nb = 8_u32;
        let total = nb as usize * bs;
        let coeffs: Vec<f32> = (0..total).map(|i| 0.05 + 0.13 * (i as f32 * 0.07).sin()).collect();
        let weights: Vec<f32> = (0..bs).map(|i| 0.5 + 0.1 * i as f32).collect();
        let qac: Vec<f32> = (0..nb).map(|i| 0.7 + 0.1 * i as f32).collect();
        let thresholds = [0.62_f32; 4];

        // One weight matrix per block, on buffers of their own.
        let per_block: Vec<f32> = (0..total).map(|i| weights[i % bs]).collect();
        let c = create(&mut enc, &coeffs);
        let w = create(&mut enc, &per_block);
        let s = create(&mut enc, &qac);
        let t = create(&mut enc, &thresholds);
        let out = enc.empty(4 * total as u64);
        enc.launch(quantize_large(c, w, s, t, out, nb, gw, gh, lx, ly));
        enc.read(vec![out]);
        host.run(&mut enc);
        let q_a = host.last_ints();

        let g_c = enc.upload_blocks(&wrap_all(&coeffs), nb, gw * gh);
        let g_q = enc.quantize_large_blocks_broadcast_w_persistent(
            &g_c,
            &wrap_all(&weights),
            &wrap_all(&qac),
            &wrap_four(thresholds),
            gw,
            gh,
            lx,
            ly,
        );
        let q_b = ints_back(&mut host, &mut enc, &g_q);
        assert_eq!(q_a, q_b, "(gw={gw}, gh={gh})");
        assert_eq!(q_a.len(), total);
    }
}

#[test]
fn test_entropy_coeffs_persistent_matches_non_persistent() {
    let mut enc = GpuEncoder::new();
    let mut host = Host::new();
    let (nb, n) = (16_u32, 64_u32);
    let nf = (nb * n) as usize;
    let block_c: Vec<f32> = (0..nf).map(|i| (i as f32 * 0.013).sin()).collect();
    let block_y: Vec<f32> = (0..nf).map(|i| (i as f32 * 0.017).cos() + 0.1).collect();
    let weights: Vec<f32> = (0..n).map(|i| 0.5 + 0.1 * i as f32).collect();
    let inv_w: Vec<f32> = weights.iter().map(|&w| 1.0 / w).collect();
    let (cmap_factor, quant, k_cost) = (wrap(0.25), wrap(0.7), wrap(10.0));

    let repeated = |v: &[f32]| -> Vec<f32> { (0..nf).map(|i| v[i % n as usize]).collect() };
    let c = create(&mut enc, &block_c);
    let y = create(&mut enc, &block_y);
    let w = create(&mut enc, &repeated(&weights));
    let iw = create(&mut enc, &repeated(&inv_w));
    let err = enc.empty(4 * nf as u64);
    let out = enc.empty(16 * nb as u64);
    enc.launch(entropy_coeffs_pixel(c, y, w, iw, err, out, nb, n, cmap_factor, quant, k_cost));
    enc.read(vec![out, err]);
    host.run(&mut enc);
    let stats_a = floats_of(&host.reads[0]);
    let err_a = floats_of(&host.reads[1]);

    let gc = enc.upload_blocks(&wrap_all(&block_c), nb, n);
    let gy = enc.upload_blocks(&wrap_all(&block_y), nb, n);
    let (gstats, gerr) = enc.entropy_coeffs_pixel_blocks_broadcast_w_persistent(
        &gc,
        &gy,
        &wrap_all(&weights),
        &wrap_all(&inv_w),
        cmap_factor,
        quant,
        k_cost,
    );
    let stats_b = blocks_back(&mut host, &mut enc, &gstats);
    let err_b = blocks_back(&mut host, &mut enc, &gerr);
    assert_eq!(stats_a.len(), stats_b.len(), "stats len mismatch");
    assert_eq!(stats_a.len(), 4 * nb as usize);
    for (i, (a, b)) in stats_a.iter().zip(&stats_b).enumerate() {
        assert!((a - b).abs() < 1e-5, "stats[{i}] differs: persistent={b} vs non={a}");
    }
    assert_eq!(err_a.len(), err_b.len());
    for (i, (a, b)) in err_a.iter().zip(&err_b).enumerate() {
        assert!((a - b).abs() < 1e-5, "err[{i}] differs: persistent={b} vs non={a}");
    }
}

#[test]
fn test_pixel_loss_persistent_matches_non_persistent() {
    let mut enc = GpuEncoder::new();
    let mut host = Host::new();
    let (bw, bh, nb) = (8_u32, 8_u32, 4_u32);
    let coeffs = (bw * bh) as usize;
    let pixel_err: Vec<f32> =
        (0..nb as usize * coeffs).map(|i| 0.001 * (i as f32 * 0.07).sin()).collect();
    let (mask_w, mask_h) = (64_u32, 32_u32);
    let mask: Vec<f32> =
        (0..(mask_w * mask_h) as usize).map(|i| 0.5 + 0.1 * (i as f32 * 0.013).sin()).collect();
    let mask_row_base: Vec<u32> = vec![0, 8, 8 * mask_w, 8 * mask_w + 16];
    let mask_offset = wrap(0.05);
    let doubles = |bytes: &[u8]| -> Vec<f64> {
        bytes
            .chunks_exact(8)
            .map(|c| f64::from_le_bytes([c[0], c[1], c[2], c[3], c[4], c[5], c[6], c[7]]))
            .collect()
    };

    let e = create(&mut enc, &pixel_err);
    let m = create(&mut enc, &mask);
    let rows = enc.create(mask_row_base.clone());
    let out = enc.empty(8 * nb as u64);
    let n_mask = (mask_w * mask_h) as u64;
    enc.launch(pixel_loss(e, m, rows, out, nb, n_mask, mask_w, mask_offset, bw, bh));
    enc.read(vec![out]);
    host.run(&mut enc);
    let loss_a = doubles(&host.reads[0]);

    let gerr = enc.upload_blocks(&wrap_all(&pixel_err), nb, bw * bh);
    let gplane = enc.upload_plane(&wrap_all(&mask), mask_w, mask_h);
    let gloss =
        enc.pixel_loss_blocks_persistent(&gerr, &gplane, &mask_row_base, mask_offset, bw, bh);
    enc.download_blocks_f64(&gloss);
    host.run(&mut enc);
    let loss_b = doubles(host.reads.last().unwrap());
    assert_eq!(loss_a.len(), loss_b.len());
    assert_eq!(loss_a.len(), nb as usize);
    for (i, (a, b)) in loss_a.iter().zip(&loss_b).enumerate() {
        assert!((a - b).abs() < 1e-9, "loss[{i}] differs: persistent={b} vs non={a}");
        assert!(*a > 0.0);
    }
}

/// The planes of light of interleaved bytes.
fn linear_planes(rgb: &[u8]) -> [Vec<Float32>; 3] {
    [0, 1, 2].map(|c| rgb.iter().skip(c).step_by(3).map(|&v| wrap(to_linear(v))).collect())
}

/// The interleaved bytes of planes of light.
fn interleaved(planes: &[Vec<f32>; 3]) -> Vec<u8> {
    (0..planes[0].len() * 3).map(|i| to_byte(planes[i % 3][i / 3])).collect()
}

#[test]
fn test_lossy_encoder_srgb_u8() {
    let mut enc = GpuEncoder::new();
    let mut host = Host::new();
    let lossy = encoder(&mut enc, 64, 48);
    let n = 64 * 48;
    let mut rgb: Vec<u8> = Vec::new();
    for y in 0..48 {
        for x in 0..64 {
            rgb.push((x * 4) as u8);
            rgb.push((y * 5) as u8);
            rgb.push(((x + y) * 2) as u8);
        }
    }
    let [r, g, b] = linear_planes(&rgb);
    lossy.encode_one(&mut enc, &r, &g, &b, wrap(1.0), &filters(), &strengths(&lossy));
    let out = interleaved(&outcome(&mut host, &mut enc, &lossy));
    assert_eq!(out.len(), n * 3);
    let max_diff = rgb.iter().zip(&out).map(|(&a, &b)| (a as i32 - b as i32).abs()).max().unwrap();
    assert!(
        max_diff < 96,
        "smooth-gradient reconstruction max byte diff = {max_diff}, expected < 96 at qac=1"
    );
}

#[test]
fn test_lossy_encoder_srgb_u8_many() {
    let mut enc = GpuEncoder::new();
    let mut host = Host::new();
    let lossy = encoder(&mut enc, 32, 32);
    let n = 32 * 32;
    let mut rgb: Vec<u8> = Vec::new();
    for y in 0..32 {
        for x in 0..32 {
            rgb.push((x * 8) as u8);
            rgb.push((y * 8) as u8);
            rgb.push(((x + y) * 4) as u8);
        }
    }
    let [r, g, b] = linear_planes(&rgb);
    let qacs = wrap_all(&[1.0_f32, 4.0, 16.0]);
    let sigmas = vec![strengths(&lossy); 3];
    let outputs = lossy.encode_many(&mut enc, &r, &g, &b, &qacs, &filters(), &sigmas);
    host.run(&mut enc);
    assert_eq!(outputs.len(), 3);
    assert_eq!(host.reads.len(), 9);
    for read in host.reads.chunks_exact(3) {
        let planes = [0, 1, 2].map(|c| floats_of(&read[c]));
        assert_eq!(interleaved(&planes).len(), n * 3);
    }
}

#[test]
fn test_lossy_encoder_with_aq_srgb_u8() {
    let mut enc = GpuEncoder::new();
    let mut host = Host::new();
    let lossy = encoder(&mut enc, 32, 32);
    let rgb: Vec<u8> = (0..(32 * 32 * 3)).map(|i| ((i * 13 + 7) % 256) as u8).collect();
    let [r, g, b] = linear_planes(&rgb);
    let means = mask_means(&lossy, &r, &g, &b);
    let sigma = strengths(&lossy);
    lossy.encode_one_with_aq(&mut enc, &r, &g, &b, &means, wrap(1.0), &filters(), &sigma);
    let one = interleaved(&outcome(&mut host, &mut enc, &lossy));
    assert_eq!(one.len(), 32 * 32 * 3);
    host.reads.clear();
    let distances = wrap_all(&[0.5_f32, 1.0, 2.0]);
    let sigmas = vec![sigma; 3];
    let many = lossy.encode_many_with_aq(
        &mut enc,
        &r,
        &g,
        &b,
        &means,
        &distances,
        &filters(),
        &sigmas,
    );
    host.run(&mut enc);
    assert_eq!(many.len(), 3);
    for read in host.reads.chunks_exact(3) {
        let planes = [0, 1, 2].map(|c| floats_of(&read[c]));
        assert_eq!(interleaved(&planes).len(), 32 * 32 * 3);
    }
    // The second of the batch is the encoding alone.
    let second = [3, 4, 5].map(|c| floats_of(&host.reads[c]));
    assert_eq!(interleaved(&second), one);
}

/// The rectangles that a transform works on, each by its first column and row,
/// its width and its height.
fn parts(code: u8) -> Vec<[usize; 4]> {
    let tiles = |w: usize, h: usize, tw: usize, th: usize| -> Vec<[usize; 4]> {
        (0..w * h / (tw * th))
            .map(|i| [i % (w / tw) * tw, i / (w / tw) * th, tw, th])
            .collect()
    };
    match code {
        RAW_STRATEGY_DCT => tiles(8, 8, 8, 8),
        RAW_STRATEGY_DCT16X8 => tiles(8, 16, 8, 16),
        RAW_STRATEGY_DCT8X16 => tiles(16, 8, 16, 8),
        RAW_STRATEGY_DCT16X16 => tiles(16, 16, 16, 16),
        RAW_STRATEGY_DCT32X32 => tiles(32, 32, 32, 32),
        RAW_STRATEGY_DCT4X8 => tiles(8, 8, 8, 4),
        RAW_STRATEGY_DCT8X4 => tiles(8, 8, 4, 8),
        RAW_STRATEGY_DCT4X4 => tiles(8, 8, 4, 4),
        RAW_STRATEGY_IDENTITY => tiles(8, 8, 1, 1),
        RAW_STRATEGY_DCT2X2 => tiles(8, 8, 2, 2),
        RAW_STRATEGY_DCT32X16 => tiles(16, 32, 16, 32),
        RAW_STRATEGY_DCT16X32 => tiles(32, 16, 32, 16),
        RAW_STRATEGY_DCT64X64 => tiles(64, 64, 64, 64),
        RAW_STRATEGY_DCT64X32 => tiles(32, 64, 32, 64),
        RAW_STRATEGY_DCT32X64 => tiles(64, 32, 64, 32),
        _ => {
            // One corner pixel by pixel, and the rest in squares of four.
            let corner = (code - RAW_STRATEGY_AFV0) as usize;
            let (cx, cy) = (corner % 2 * 4, corner / 2 * 4);
            let near = tiles(4, 4, 1, 1).into_iter().map(|[x, y, w, h]| [x + cx, y + cy, w, h]);
            let far = tiles(8, 8, 4, 4).into_iter().filter(|t| t[0] != cx || t[1] != cy);
            near.chain(far).collect()
        }
    }
}

/// The width and height that a transform covers.
fn extent(code: u8) -> (usize, usize) {
    let parts = parts(code);
    let far = |a: usize| parts.iter().map(|t| t[a] + t[a + 2]).max().unwrap();
    (far(0), far(1))
}

/// A rectangle along its rows and columns, or back from that where `back`
/// holds. Lengths are kept.
fn turned(v: &[f32], w: usize, h: usize, back: bool) -> Vec<f32> {
    let lines = |v: &[f32], n: usize, m: usize| -> Vec<f32> {
        let table: Vec<f32> = (0..n * n).map(|i| cosine(n, i / n, i % n)).collect();
        let root = (n as f32).sqrt();
        let mut out = vec![0.0; n * m];
        for y in 0..m {
            for k in 0..n {
                let f = |x: usize| if back { table[x * n + k] } else { table[k * n + x] };
                let s: f32 = (0..n).map(|x| v[y * n + x] * f(x)).sum();
                out[k * m + y] = s / root;
            }
        }
        out
    };
    lines(&lines(v, w, h), h, w)
}

fn cut(plane: &[f32], stride: usize, x: usize, y: usize, w: usize, h: usize) -> Vec<f32> {
    (0..w * h).map(|i| plane[(y + i / w) * stride + x + i % w]).collect()
}

/// How much the coefficients of a transform hold, wherever it fits on a grid.
fn contents(planes: &[Vec<f32>; 3], stride: usize, code: u8, scale: f32) -> Vec<Float32> {
    let (w, h) = extent(code);
    let parts = parts(code);
    let (across, down) = (stride / w, planes[0].len() / stride / h);
    (0..across * down)
        .map(|i| {
            let (x0, y0) = (i % across * w, i / across * h);
            let mut cost = 0.0_f32;
            for (plane, step) in planes.iter().zip(STEPS) {
                for &[x, y, w, h] in &parts {
                    let c = turned(&cut(plane, stride, x0 + x, y0 + y, w, h), w, h, false);
                    cost += c.iter().map(|c| (c.abs() * scale / step).ln_1p()).sum::<f32>();
                }
            }
            wrap(cost)
        })
        .collect()
}

/// The steps of quantization in the three planes, at a scale of one.
const STEPS: [f32; 3] = [0.005, 0.02, 0.02];

/// Carries a search on, with costs by what the sharpened planes hold.
fn plan_of(
    host: &mut Host,
    enc: &mut GpuEncoder,
    lossy: &LossyEncoder,
    planes: SearchPlanes,
    distance: f32,
) -> StrategySearchPlan {
    host.run(enc);
    let means = wrap_all(&host.last_floats());
    let step = lossy.search_with_means(enc, planes, &means, wrap(distance));
    let step = lossy.search_with_patches(enc, step, false);
    host.run(enc);
    let post = &step.planes.post;
    let planes =
        [&post.0, &post.1, &post.2].map(|p| floats_of(&host.buffers[p.handle().id]));
    let stride = lossy.padded_width as usize;
    let scale = unwrap(step.scales.qac);
    let of = |code: u8| contents(&planes, stride, code, scale);
    let replies = step
        .jobs
        .iter()
        .map(|job| match job {
            CostJob::Dct8 => of(RAW_STRATEGY_DCT),
            CostJob::SubBlock(spec) => of(spec.raw_strategy),
            CostJob::Afv => (0..4).flat_map(|k| of(RAW_STRATEGY_AFV0 + k)).collect(),
            CostJob::Dct16x8 => of(RAW_STRATEGY_DCT16X8),
            CostJob::Dct8x16 => of(RAW_STRATEGY_DCT8X16),
            CostJob::Dct16x16 => of(RAW_STRATEGY_DCT16X16),
            CostJob::Dct32x16 => of(RAW_STRATEGY_DCT32X16),
            CostJob::Dct16x32 => of(RAW_STRATEGY_DCT16X32),
            CostJob::Dct32x32(_) => of(RAW_STRATEGY_DCT32X32),
            CostJob::Dct64x32 => of(RAW_STRATEGY_DCT64X32),
            CostJob::Dct32x64 => of(RAW_STRATEGY_DCT32X64),
            CostJob::Dct64x64 => of(RAW_STRATEGY_DCT64X64),
        })
        .collect();
    let plan = lossy.search_with_costs(enc, &step, replies).unwrap();
    host.run(enc);
    plan
}

/// Encodes an image by its plan, with a scale for each block. The first
/// coefficients of the transforms are kept as they are.
fn encode_plan(
    host: &mut Host,
    enc: &mut GpuEncoder,
    lossy: &LossyEncoder,
    plan: &StrategySearchPlan,
    field: &[Float32],
) -> [Vec<f32>; 3] {
    let recon = lossy.reconstruction_planes(enc);
    host.run(enc);
    let stride = lossy.padded_width as usize;
    let source = [&plan.xyb_x_gpu, &plan.xyb_y_gpu, &plan.xyb_b_gpu];
    let target = [&recon.0, &recon.1, &recon.2];
    for c in 0..3 {
        let plane = floats_of(&host.buffers[source[c].handle().id]);
        let mut out = vec![f32::NAN; plane.len()];
        for a in &plan.assignments {
            let step = STEPS[c] / unwrap(field[a.by * (stride / 8) + a.bx]);
            for [x, y, w, h] in parts(a.raw_strategy) {
                let (x, y) = (8 * a.bx + x, 8 * a.by + y);
                let mut v = turned(&cut(&plane, stride, x, y, w, h), w, h, false);
                for v in v.iter_mut().skip(1) {
                    *v = (*v / step).round() * step;
                }
                for (i, v) in turned(&v, w, h, true).iter().enumerate() {
                    out[(y + i / w) * stride + x + i % w] = *v;
                }
            }
        }
        let words: Vec<u32> = out.iter().map(|x| x.to_bits()).collect();
        host.buffers[target[c].handle().id] = bytes_of(&words);
    }
    lossy.encode_with_strategy_plan_adaptive(enc, plan, &recon, &filters(), &strengths(lossy));
    outcome(host, enc, lossy)
}

/// Bytes of an image that is smooth in one half, has edges in a quarter and is
/// rough in the last.
fn mixed_bytes(w: usize, h: usize) -> Vec<u8> {
    let mut state: u32 = 5;
    let mut bytes = Vec::new();
    for i in 0..w * h {
        let (x, y) = (i % w, i / w);
        state = state.wrapping_mul(1_664_525).wrapping_add(1_013_904_223);
        let v = if x < w / 2 {
            90 + (x + y) / 4
        } else if y < h / 2 {
            if (x / 3 + y / 5) % 2 == 0 { 40 } else { 200 }
        } else {
            (state >> 24) as usize
        };
        bytes.extend([v as u8, (v / 2 + 60) as u8, (255 - v) as u8]);
    }
    bytes
}

#[test]
fn plans_follow_what_the_image_holds() {
    let (w, h) = (64_u32, 64_u32);
    let bytes = mixed_bytes(w as usize, h as usize);
    let [r, g, b] = linear_planes(&bytes);
    let mut enc = GpuEncoder::new();
    let mut host = Host::new();
    let lossy = encoder(&mut enc, w, h);
    let planes = lossy.prepare_strategy_search_plan(&mut enc, &r, &g, &b, wrap(1.0));
    let plan = plan_of(&mut host, &mut enc, &lossy, planes, 1.0);
    let planes = lossy.prepare_strategy_search_plan_from_u8(&mut enc, &bytes, wrap(1.0));
    let from_u8 = plan_of(&mut host, &mut enc, &lossy, planes, 1.0);
    assert_eq!(plan.assignments, from_u8.assignments);
    // Larger transforms where it is smooth than where it is not.
    let areas = |left: bool| -> usize {
        let inside = plan.assignments.iter().filter(|a| (a.bx < 4) == left);
        let areas: Vec<usize> =
            inside.map(|a| extent(a.raw_strategy)).map(|(w, h)| w * h).collect();
        areas.iter().sum::<usize>() / areas.len()
    };
    assert!(areas(true) >= 4 * areas(false), "{} {}", areas(true), areas(false));
    let mut codes: Vec<u8> = plan.assignments.iter().map(|a| a.raw_strategy).collect();
    codes.sort();
    codes.dedup();
    assert!(codes.len() >= 3, "{codes:?}");
    // Finer scales stay closer to the image.
    let mut errors = Vec::new();
    for d in [0.1_f32, 2.0, 12.0] {
        let field = lossy.scalar_aq_field(wrap(d));
        let out = encode_plan(&mut host, &mut enc, &lossy, &plan, &field);
        all_finite(&out, (w * h) as usize);
        let error = |a: &[f32], b: &[Float32]| -> f32 {
            a.iter().zip(b).map(|(x, y)| (x - unwrap(*y)).abs()).sum()
        };
        errors.push(error(&out[0], &r) + error(&out[1], &g) + error(&out[2], &b));
    }
    assert!(errors[0] < errors[1] && errors[1] < errors[2], "{errors:?}");
}

#[test]
fn plans_of_mixed_images_encode_alike_with_equal_scales() {
    let bytes = mixed_bytes(64, 64);
    let [r, g, b] = linear_planes(&bytes);
    let encode = |uniform: bool| -> [Vec<f32>; 3] {
        let mut enc = GpuEncoder::new();
        let mut host = Host::new();
        let lossy = encoder(&mut enc, 64, 64);
        let planes = lossy.prepare_strategy_search_plan(&mut enc, &r, &g, &b, wrap(2.0));
        let plan = plan_of(&mut host, &mut enc, &lossy, planes, 2.0);
        let field = if uniform {
            vec![distance_to_qac(wrap(2.0)); 64]
        } else {
            lossy.scalar_aq_field(wrap(2.0))
        };
        encode_plan(&mut host, &mut enc, &lossy, &plan, &field)
    };
    assert_eq!(encode(true), encode(false));
}

#[test]
fn test_lossy_encoder_strategy_search_dct8_16_smoke() {
    let mut enc = GpuEncoder::new();
    let mut host = Host::new();
    let lossy = encoder(&mut enc, 64, 64);
    let n = 64 * 64;
    let [r, g, b] = ramps(n);
    let planes = lossy.prepare_strategy_search_plan(&mut enc, &r, &g, &b, wrap(1.0));
    let plan = plan_of(&mut host, &mut enc, &lossy, planes, 1.0);
    let field = lossy.scalar_aq_field(wrap(1.0));
    let out = encode_plan(&mut host, &mut enc, &lossy, &plan, &field);
    all_finite(&out, n);
}

#[test]
fn test_strat_search_adaptive_uniform_matches_scalar() {
    let n = 64 * 64;
    let [r, g, b] = [
        wrap_all(&ramp(n, 0.30, 0.20)),
        wrap_all(&ramp(n, 0.40, 0.15)),
        wrap_all(&ramp(n, 0.20, 0.10)),
    ];
    for distance in [0.5_f32, 1.0, 2.0] {
        let encode = |uniform: bool| -> [Vec<f32>; 3] {
            let mut enc = GpuEncoder::new();
            let mut host = Host::new();
            let lossy = encoder(&mut enc, 64, 64);
            let planes = lossy.prepare_strategy_search_plan(&mut enc, &r, &g, &b, wrap(distance));
            let plan = plan_of(&mut host, &mut enc, &lossy, planes, distance);
            let nb8 = (lossy.padded_width as usize / 8) * (lossy.padded_height as usize / 8);
            let field = if uniform {
                vec![distance_to_qac(wrap(distance)); nb8]
            } else {
                lossy.scalar_aq_field(wrap(distance))
            };
            encode_plan(&mut host, &mut enc, &lossy, &plan, &field)
        };
        let (scalar, adaptive) = (encode(false), encode(true));
        all_finite(&scalar, n);
        for c in 0..3 {
            for i in 0..n {
                assert_eq!(scalar[c][i], adaptive[c][i], "mismatch at c={c} i={i} d={distance}");
            }
        }
    }
}

#[test]
fn test_prepare_strategy_search_plan_from_u8_smoke() {
    let (w, h) = (64_u32, 64_u32);
    let n = (w * h) as usize;
    let mut pixels: Vec<u8> = Vec::new();
    for i in 0..n {
        let t = (i as f32 / n as f32) * 255.0;
        pixels.push((30.0 + 0.6 * t).clamp(0.0, 255.0) as u8);
        pixels.push((50.0 + 0.5 * t).clamp(0.0, 255.0) as u8);
        pixels.push((70.0 + 0.4 * t).clamp(0.0, 255.0) as u8);
    }
    let [r, g, b] = linear_planes(&pixels);
    let mut enc = GpuEncoder::new();
    let mut host = Host::new();
    let lossy = encoder(&mut enc, w, h);
    let planes = lossy.prepare_strategy_search_plan(&mut enc, &r, &g, &b, wrap(1.0));
    let plan_f32 = plan_of(&mut host, &mut enc, &lossy, planes, 1.0);
    let planes = lossy.prepare_strategy_search_plan_from_u8(&mut enc, &pixels, wrap(1.0));
    let plan_u8 = plan_of(&mut host, &mut enc, &lossy, planes, 1.0);
    assert_eq!(plan_f32.assignments.len(), plan_u8.assignments.len());
    assert_eq!(plan_f32.padded_width, plan_u8.padded_width);
    assert_eq!(plan_f32.padded_height, plan_u8.padded_height);
    assert_eq!(plan_f32.target_distance, plan_u8.target_distance);
    let count = |plan: &StrategySearchPlan, code: u8| -> usize {
        plan.assignments.iter().filter(|a| a.raw_strategy == code).count()
    };
    let dominant = (0..27).max_by_key(|&code| count(&plan_f32, code)).unwrap();
    let agreement = count(&plan_u8, dominant) as f32 / count(&plan_f32, dominant) as f32;
    assert!(agreement >= 0.95, "dominant-strategy agreement too low: {agreement:.3}");
}

#[test]
fn a_batch_reads_back_what_a_loop_reads_back() {
    let n = 20 * 30;
    let image = [
        wrap_all(&ramp(n, 0.9, -0.8)),
        wrap_all(&ramp(n, 0.1, 0.3)),
        wrap_all(&ramp(n, 0.5, 0.2)),
    ];
    let qacs = wrap_all(&[0.4_f32, 0.9, 3.0]);
    let run = |batch: bool| -> Vec<Vec<u8>> {
        let mut enc = GpuEncoder::new();
        let mut host = Host::new();
        let lossy = encoder(&mut enc, 20, 30);
        let [r, g, b] = &image;
        let sigma = strengths(&lossy);
        if batch {
            let sigmas = vec![sigma; 3];
            lossy.encode_many(&mut enc, r, g, b, &qacs, &filters(), &sigmas);
        } else {
            for &qac in &qacs {
                lossy.encode_one(&mut enc, r, g, b, qac, &filters(), &sigma);
            }
        }
        host.run(&mut enc);
        host.reads
    };
    let batch = run(true);
    assert_eq!(batch.len(), 9);
    assert_eq!(batch, run(false));
    assert_ne!(batch[0], batch[3]);
}

#[test]
fn a_plan_can_be_used_again() {
    let mut enc = GpuEncoder::new();
    let mut host = Host::new();
    let lossy = encoder(&mut enc, 32, 32);
    let [r, g, b] = ramps(32 * 32);
    let planes = lossy.prepare_strategy_search_plan(&mut enc, &r, &g, &b, wrap(1.0));
    let plan = plan_of(&mut host, &mut enc, &lossy, planes, 1.0);
    let before = host.buffers.clone();
    let field = lossy.scalar_aq_field(wrap(1.0));
    let coarse = lossy.scalar_aq_field(wrap(8.0));
    let first = encode_plan(&mut host, &mut enc, &lossy, &plan, &field);
    let other = encode_plan(&mut host, &mut enc, &lossy, &plan, &coarse);
    assert_eq!(host.buffers[..before.len()], before[..]);
    assert_eq!(encode_plan(&mut host, &mut enc, &lossy, &plan, &field), first);
    assert_ne!(first, other);
}
