//! What single launches look like: grid, arrays and numbers.

use jxl_encoder_gpu::device::{ArrayArg, Element, GpuEncoder, Grid, Handle, Kernel, Launch, Scalar};
use jxl_encoder_gpu::float::Float32;
use jxl_encoder_gpu::launch::adaptive_quant::{compute_pre_erosion, per_block_modulations};
use jxl_encoder_gpu::launch::afv::{afv_dct_4x4, afv_idct_4x4};
use jxl_encoder_gpu::launch::afv_compose::{
    afv_compose_forward, afv_compose_inverse, afv_unpack_inverse,
};
use jxl_encoder_gpu::launch::cfl::{find_best_multiplier, find_best_multiplier_newton};
use jxl_encoder_gpu::launch::cfl_quantize::cfl_quantize_dct8;
use jxl_encoder_gpu::launch::dct4_raw::{dct_4x4_raw, dct_4x8_raw};
use jxl_encoder_gpu::launch::dct8::{
    dct_8x8_coop, dequant_idct_dc_scatter_dct8, dequant_idct_dc_scatter_dct8_wide, idct_8x8_coop,
    idct_8x8_set_dc_scatter,
};
use jxl_encoder_gpu::launch::dequant_simple::dequant_simple_broadcast_w;
use jxl_encoder_gpu::launch::entropy::{entropy_coeffs_coeff, entropy_coeffs_pixel};
use jxl_encoder_gpu::launch::entropy_3ch::entropy_coeffs_pixel_3ch;
use jxl_encoder_gpu::launch::epf::epf_step0;
use jxl_encoder_gpu::launch::fused_dct_quant::dct8_quantize_fused_broadcast_w_wide;
use jxl_encoder_gpu::launch::fuzzy_erosion::fuzzy_erosion_kmul;
use jxl_encoder_gpu::launch::gaborish::gaborish_5x5_3ch;
use jxl_encoder_gpu::launch::nzeros_count::nzeros_count_dct8;
use jxl_encoder_gpu::launch::quantize_dc::{quantize_dc_chroma_dct8, quantize_dc_y_dct8};

fn number(x: f32) -> Float32 {
    Float32::from_bits(x.to_bits())
}

fn f(x: f32) -> Scalar {
    Scalar::F32(number(x))
}

fn u(x: u32) -> Scalar {
    Scalar::U32(x)
}

fn buffer(id: usize) -> Handle {
    Handle { id }
}

/// The launch runs `kernel` on `count` cubes of `threads` threads, on the
/// buffers 0, 1, and so on, of which it uses as many words as `lens` says.
fn check(l: &Launch, kernel: Kernel, count: u32, threads: u32, lens: &[u64], scalars: &[Scalar]) {
    assert_eq!(l.kernel, kernel);
    assert_eq!(l.grid, Grid::Cubes { count, threads });
    let arrays: Vec<ArrayArg> = lens
        .iter()
        .enumerate()
        .map(|(id, &len)| ArrayArg { handle: buffer(id), len, element: Element::Word })
        .collect();
    assert_eq!(l.arrays, arrays);
    assert_eq!(l.scalars, scalars.to_vec());
}

#[test]
fn transforms_of_raw_blocks() {
    let [a, b, c] = [buffer(0), buffer(1), buffer(2)];
    check(&dct_4x4_raw(a, b, 7), Kernel::Dct4x4Raw, 7, 1, &[112, 112], &[]);
    check(&dct_4x8_raw(a, b, 7), Kernel::Dct4x8Raw, 7, 1, &[224, 224], &[]);
    check(&dct_8x8_coop(a, b, 7), Kernel::Dct8x8Coop, 7, 8, &[448, 448], &[]);
    check(&idct_8x8_coop(a, b, 7), Kernel::Idct8x8Coop, 7, 8, &[448, 448], &[]);
    check(&afv_dct_4x4(a, b, c, 7), Kernel::AfvDct4x4, 7, 1, &[112, 256, 112], &[]);
    check(&afv_idct_4x4(a, b, c, 7), Kernel::AfvIdct4x4, 7, 1, &[112, 256, 112], &[]);
}

#[test]
fn a_grid_is_never_empty() {
    let [a, b] = [buffer(0), buffer(1)];
    check(&dct_4x4_raw(a, b, 0), Kernel::Dct4x4Raw, 1, 1, &[0, 0], &[]);
    check(&nzeros_count_dct8(a, b, 0), Kernel::NzerosCountDct8, 1, 64, &[0, 0], &[]);
}

#[test]
fn cubes_are_filled_before_another_is_taken() {
    let [a, b] = [buffer(0), buffer(1)];
    check(&nzeros_count_dct8(a, b, 64), Kernel::NzerosCountDct8, 1, 64, &[4096, 64], &[]);
    check(&nzeros_count_dct8(a, b, 65), Kernel::NzerosCountDct8, 2, 64, &[4160, 65], &[]);
    check(
        &nzeros_count_dct8(a, b, u32::MAX),
        Kernel::NzerosCountDct8,
        0x0400_0000,
        64,
        &[0xffff_ffff * 64, 0xffff_ffff],
        &[],
    );
}

#[test]
fn composing_afv_blocks() {
    let h = [buffer(0), buffer(1), buffer(2), buffer(3)];
    let l = afv_compose_forward(h[0], h[1], h[2], h[3], 65).unwrap();
    check(&l, Kernel::AfvComposeForward, 2, 64, &[1040, 1040, 2080, 4160], &[]);
    let l = afv_unpack_inverse(h[0], h[1], h[2], h[3], 65).unwrap();
    check(&l, Kernel::AfvUnpackInverse, 2, 64, &[4160, 1040, 1040, 2080], &[]);
    let l = afv_compose_inverse(h[0], h[1], h[2], h[3], 65, 3).unwrap();
    check(&l, Kernel::AfvComposeInverse, 2, 64, &[1040, 1040, 2080, 4160], &[u(3)]);
}

#[test]
fn composing_no_afv_blocks_launches_nothing() {
    let h = [buffer(0), buffer(1), buffer(2), buffer(3)];
    assert!(afv_compose_forward(h[0], h[1], h[2], h[3], 0).is_none());
    assert!(afv_unpack_inverse(h[0], h[1], h[2], h[3], 0).is_none());
    assert!(afv_compose_inverse(h[0], h[1], h[2], h[3], 0, 9).is_none());
}

#[test]
fn fitting_chroma_from_luma() {
    let h = [buffer(0), buffer(1), buffer(2), buffer(3)];
    let l = find_best_multiplier(h[0], h[1], h[2], h[3], 5, 4096, number(0.001));
    check(
        &l,
        Kernel::FindBestMultiplier,
        5,
        1,
        &[20480, 20480, 5, 5],
        &[u(4096), f(0.001)],
    );
    let l = find_best_multiplier_newton(
        h[0],
        h[1],
        h[2],
        h[3],
        5,
        4096,
        number(0.001),
        number(1.0),
        20,
    );
    check(
        &l,
        Kernel::FindBestMultiplierNewton,
        5,
        1,
        &[20480, 20480, 5, 5],
        &[u(4096), f(0.001), f(1.0), u(20)],
    );
    let h: Vec<Handle> = (0..9).map(buffer).collect();
    let l = cfl_quantize_dct8(h[0], h[1], h[2], h[3], h[4], h[5], h[6], h[7], h[8], 100);
    check(
        &l,
        Kernel::CflQuantizeDct8,
        2,
        64,
        &[6400, 6400, 64, 64, 100, 100, 100, 4, 6400],
        &[],
    );
}

#[test]
fn quantizing_and_reconstructing_blocks() {
    let h: Vec<Handle> = (0..6).map(buffer).collect();
    let l = dct8_quantize_fused_broadcast_w_wide(h[0], h[1], h[2], h[3], h[4], 128);
    check(
        &l,
        Kernel::Dct8QuantizeFusedBroadcastWWide,
        2,
        64,
        &[8192, 64, 128, 4, 8192],
        &[],
    );
    let l = dequant_simple_broadcast_w(h[0], h[1], h[2], 3, 256);
    check(&l, Kernel::DequantSimpleBroadcastW, 3, 1, &[768, 256, 768], &[u(256)]);
    let l = idct_8x8_set_dc_scatter(h[0], h[1], h[2], h[3], 1024, 32, 16, 4, 10);
    check(
        &l,
        Kernel::Idct8x8SetDcScatter,
        10,
        1,
        &[640, 16, 20, 1024],
        &[u(32), u(4), u(10)],
    );
    let l = dequant_idct_dc_scatter_dct8(
        h[0],
        h[1],
        h[2],
        h[3],
        h[4],
        h[5],
        1024,
        32,
        16,
        4,
        10,
        number(0.5),
    );
    let lens = [640, 64, 10, 16, 20, 1024];
    let scalars = [u(32), u(4), u(10), f(0.5)];
    check(&l, Kernel::DequantIdctDcScatterDct8, 10, 1, &lens, &scalars);
    let l = dequant_idct_dc_scatter_dct8_wide(
        h[0],
        h[1],
        h[2],
        h[3],
        h[4],
        h[5],
        1024,
        32,
        16,
        4,
        10,
        number(0.5),
    );
    check(&l, Kernel::DequantIdctDcScatterDct8Wide, 1, 64, &lens, &scalars);
}

#[test]
fn quantizing_dc() {
    let h = [buffer(0), buffer(1), buffer(2), buffer(3)];
    let l = quantize_dc_y_dct8(h[0], h[1], h[2], number(8.0), 257);
    check(&l, Kernel::QuantizeDcYDct8, 2, 256, &[16448, 257, 257], &[f(8.0)]);
    let l = quantize_dc_chroma_dct8(h[0], h[1], h[2], h[3], number(8.0), number(0.5), 257);
    check(
        &l,
        Kernel::QuantizeDcChromaDct8,
        2,
        256,
        &[16448, 257, 257, 257],
        &[f(8.0), f(0.5)],
    );
}

#[test]
fn measuring_entropy() {
    let h: Vec<Handle> = (0..15).map(buffer).collect();
    let l = entropy_coeffs_pixel(
        h[0],
        h[1],
        h[2],
        h[3],
        h[4],
        h[5],
        9,
        64,
        number(0.25),
        number(2.0),
        number(5.0),
    );
    check(
        &l,
        Kernel::EntropyCoeffsPixel,
        9,
        1,
        &[576, 576, 576, 576, 576, 36],
        &[u(64), f(0.25), f(2.0), f(5.0)],
    );
    let l = entropy_coeffs_coeff(
        h[0],
        h[1],
        h[2],
        h[3],
        9,
        64,
        number(0.25),
        number(2.0),
        number(5.0),
        number(4.5),
    );
    check(
        &l,
        Kernel::EntropyCoeffsCoeff,
        9,
        1,
        &[576, 576, 576, 36],
        &[u(64), f(0.25), f(2.0), f(5.0), f(4.5)],
    );
    let l = entropy_coeffs_pixel_3ch(
        h[0],
        h[1],
        h[2],
        h[3],
        h[4],
        h[5],
        h[6],
        h[7],
        h[8],
        h[9],
        h[10],
        h[11],
        h[12],
        h[13],
        h[14],
        9,
        64,
        number(0.25),
        number(1.0),
        number(2.0),
        number(3.0),
        number(4.0),
        number(5.0),
    );
    check(
        &l,
        Kernel::EntropyCoeffsPixel3ch,
        1,
        64,
        &[576, 576, 576, 64, 64, 64, 64, 64, 64, 576, 576, 576, 36, 36, 36],
        &[u(64), f(0.25), f(1.0), f(2.0), f(3.0), f(4.0), f(5.0)],
    );
}

#[test]
fn filtering_planes() {
    let h: Vec<Handle> = (0..7).map(buffer).collect();
    let l = epf_step0(
        h[0],
        h[1],
        h[2],
        h[3],
        h[4],
        h[5],
        h[6],
        32,
        16,
        4,
        2,
        3,
        number(1.65),
        number(0.5),
    );
    check(
        &l,
        Kernel::EpfStep0,
        2,
        256,
        &[836, 836, 836, 512, 512, 512, 8],
        &[u(32), u(16), u(4), u(38), u(3), f(1.65), f(0.5)],
    );
    let l = gaborish_5x5_3ch(
        h[0],
        h[1],
        h[2],
        h[3],
        h[4],
        h[5],
        20,
        13,
        number(1.0),
        number(0.5),
        number(0.25),
        number(0.125),
        number(0.0625),
        number(0.75),
    );
    check(
        &l,
        Kernel::Gaborish5x53ch,
        2,
        256,
        &[260; 6],
        &[u(20), u(13), f(1.0), f(0.5), f(0.25), f(0.125), f(0.0625), f(0.75)],
    );
}

#[test]
fn adapting_the_quantization() {
    let h = [buffer(0), buffer(1), buffer(2), buffer(3)];
    let l = compute_pre_erosion(h[0], h[1], 4096, 64, 64, 8, 4, 15, 9);
    check(
        &l,
        Kernel::ComputePreErosion,
        3,
        64,
        &[4096, 135],
        &[u(64), u(64), u(8), u(4), u(15)],
    );
    let l = per_block_modulations(
        h[0],
        h[1],
        h[2],
        h[3],
        4096,
        64,
        64,
        8,
        1,
        2,
        6,
        5,
        number(1.5),
        number(0.75),
    );
    check(
        &l,
        Kernel::PerBlockModulations,
        1,
        64,
        &[4096, 4096, 4096, 64],
        &[u(64), u(8), u(1), u(2), u(6), f(1.5), f(0.75)],
    );
}

#[test]
fn erosion_weights_shrink_below_a_distance_of_two() {
    let plain = |target: f32| -> [u32; 4] {
        let base = [0.125f32, 0.1, 0.09, 0.06];
        let step = [0.0f32, -0.1, -0.09, -0.06];
        let mul = if target < 2.0 { (2.0 - target) * 0.5 } else { 0.0 };
        let mut k = [0.0f32; 4];
        let mut total = 0.0f32;
        for i in 0..4 {
            k[i] = base[i] + mul * step[i];
            total += k[i];
        }
        let scale = 0.299_597_05f32 / total;
        k.map(|w| (w * scale).to_bits())
    };
    for target in [0.0f32, 0.5, 1.0, 1.9, 2.0, 7.0] {
        let k = fuzzy_erosion_kmul(number(target));
        assert_eq!(k.map(|w| w.to_bits()), plain(target));
    }
    // At a distance of zero all but the least neighbour are left out.
    let k = fuzzy_erosion_kmul(number(0.0));
    assert_eq!(k.map(|w| f32::from_bits(w.to_bits())), [0.299_597_05, 0.0, 0.0, 0.0]);
}

#[test]
fn buffers_know_their_size() {
    let mut enc = GpuEncoder::new();
    let a = enc.empty(100);
    let b = enc.create(vec![1, 2, 3]);
    let c = enc.create_bytes(vec![1, 2, 3]);
    assert_eq!(enc.buffer_size(a), Some(100));
    assert_eq!(enc.buffer_size(b), Some(12));
    assert_eq!(enc.buffer_size(c), Some(3));
    assert_eq!(enc.buffer_size(Handle { id: 3 }), None);
}
