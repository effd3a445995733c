//! Padding to aligned sizes and cropping back.

use jxl_encoder_gpu::float::Float32;
use jxl_encoder_gpu::padding::{
    align_up, crop_to_original, join_channels, pad_to_alignment, split_channels,
};

fn numbers(n: usize) -> Vec<Float32> {
    (0..n).map(|i| Float32::from_bits((i as f32).to_bits())).collect()
}

fn values(v: &[Float32]) -> Vec<f32> {
    v.iter().map(|x| f32::from_bits(x.to_bits())).collect()
}

#[test]
fn sizes_are_rounded_up() {
    assert_eq!(align_up(16, 16), 16);
    assert_eq!(align_up(17, 16), 32);
    assert_eq!(align_up(100, 16), 112);
    assert_eq!(align_up(73, 16), 80);
    assert_eq!(align_up(0, 8), 0);
    assert_eq!(align_up(1, 1), 1);
    for n in 0..200 {
        for a in 1..20 {
            let r = align_up(n, a);
            assert!(r >= n && r % a == 0 && r - n < a);
        }
    }
}

#[test]
fn edges_are_repeated() {
    let out = values(&pad_to_alignment(&numbers(6), 3, 2, 5, 4));
    let expected: Vec<f32> = vec![
        0.0, 1.0, 2.0, 2.0, 2.0,
        3.0, 4.0, 5.0, 5.0, 5.0,
        3.0, 4.0, 5.0, 5.0, 5.0,
        3.0, 4.0, 5.0, 5.0, 5.0,
    ];
    assert_eq!(out, expected);
}

#[test]
fn aligned_planes_stay_as_they_are() {
    assert_eq!(values(&pad_to_alignment(&numbers(12), 4, 3, 4, 3)), values(&numbers(12)));
    assert_eq!(values(&crop_to_original(&numbers(12), 4, 4, 3)), values(&numbers(12)));
    assert_eq!(values(&crop_to_original(&numbers(12), 4, 4, 2)), values(&numbers(8)));
}

#[test]
fn cropping_undoes_padding() {
    for (w, h) in [(16_usize, 16_usize), (17, 23), (100, 73), (31, 16)] {
        let pw = align_up(w as u32, 16) as usize;
        let ph = align_up(h as u32, 16) as usize;
        let plane = numbers(w * h);
        let padded = pad_to_alignment(&plane, w, h, pw, ph);
        assert_eq!(padded.len(), pw * ph);
        assert_eq!(values(&crop_to_original(&padded, pw, w, h)), values(&plane));
    }
}

#[test]
fn channels_are_split_and_joined() {
    let rgb: Vec<u8> = (0..30).collect();
    let (r, g, b) = split_channels(&rgb);
    assert_eq!(r, vec![0, 3, 6, 9, 12, 15, 18, 21, 24, 27]);
    assert_eq!(g[0], 1);
    assert_eq!(b[9], 29);
    assert_eq!(join_channels(&r, &g, &b), rgb);
}
