//! Single-precision arithmetic, held against that of the processor.

use jxl_encoder_gpu::float::Float32;

fn wrap(x: f32) -> Float32 {
    Float32::from_bits(x.to_bits())
}

fn unwrap(x: Float32) -> f32 {
    f32::from_bits(x.to_bits())
}

/// Whether two numbers are the same, sign of zero included; one NaN is as good
/// as another.
fn same(a: f32, b: f32) -> bool {
    (a.is_nan() && b.is_nan()) || a.to_bits() == b.to_bits()
}

/// Numbers of every kind: zeros, the smallest and largest, infinities, NaN,
/// and neighbours of powers of two.
fn edges() -> Vec<f32> {
    let mut v: Vec<f32> = vec![
        0.0,
        1.0,
        1.5,
        2.0,
        0.1,
        0.3,
        0.765,
        95.0,
        1e-3,
        1e30,
        3.0e38,
        f32::MAX,
        f32::MIN_POSITIVE,
        f32::from_bits(1),
        f32::from_bits(2),
        f32::from_bits(0x007f_ffff),
        f32::from_bits(0x0080_0001),
        f32::from_bits(0x3f7f_ffff),
        f32::from_bits(0x3f80_0001),
        f32::from_bits(0x4b7f_ffff),
        f32::from_bits(0x4b80_0000),
        f32::from_bits(0x4b80_0001),
        f32::from_bits(0x7f7f_fffe),
        f32::INFINITY,
        f32::NAN,
    ];
    let negative: Vec<f32> = v.iter().map(|x| -x).collect();
    v.extend(negative);
    v
}

/// A run of bit patterns without much order.
fn scattered(n: usize) -> Vec<f32> {
    let mut state: u32 = 0x1234_5678;
    (0..n)
        .map(|_| {
            state ^= state << 13;
            state ^= state >> 17;
            state ^= state << 5;
            f32::from_bits(state)
        })
        .collect()
}

fn check_all(a: f32, b: f32) {
    let (x, y) = (wrap(a), wrap(b));
    assert!(same(unwrap(x.plus(y)), a + b), "{a:?} + {b:?}");
    assert!(same(unwrap(x.minus(y)), a - b), "{a:?} - {b:?}");
    assert!(same(unwrap(x.times(y)), a * b), "{a:?} * {b:?}");
    assert!(same(unwrap(x.over(y)), a / b), "{a:?} / {b:?}");
    assert_eq!(x.lt(y), a < b, "{a:?} < {b:?}");
    // Which of two equal numbers comes out, and so the sign of a zero, is open.
    assert!(same(unwrap(x.max(y)), a.max(b)) || a == b, "max {a:?} {b:?}");
    assert!(same(unwrap(x.min(y)), a.min(b)) || a == b, "min {a:?} {b:?}");
}

#[test]
fn arithmetic_agrees_on_edges() {
    let v = edges();
    for &a in &v {
        for &b in &v {
            check_all(a, b);
        }
    }
}

#[test]
fn arithmetic_agrees_on_scattered_numbers() {
    let v = scattered(20_000);
    for pair in v.windows(2) {
        check_all(pair[0], pair[1]);
    }
}

#[test]
fn arithmetic_agrees_on_close_numbers() {
    // Sums that cancel, and quotients near one.
    let v = scattered(4_000);
    for &a in &v {
        let bits = a.to_bits();
        for step in [1_u32, 2, 3, 0x40_0000, 0x80_0000, 0x180_0000] {
            let b = f32::from_bits(bits.wrapping_add(step));
            check_all(a, b);
            check_all(a, -b);
        }
    }
}

#[test]
fn arithmetic_agrees_near_the_smallest_numbers() {
    let v = scattered(2_000);
    for pair in v.windows(2) {
        let a = f32::from_bits(pair[0].to_bits() & 0x80ff_ffff);
        let b = f32::from_bits(pair[1].to_bits() & 0x80ff_ffff);
        check_all(a, b);
        check_all(a, pair[1]);
    }
}

#[test]
fn sum_rounds_to_even() {
    // 2^24 + 1 lies halfway between two numbers.
    let big = wrap(16_777_216.0);
    assert_eq!(unwrap(big.plus(wrap(1.0))), 16_777_216.0);
    assert_eq!(unwrap(big.plus(wrap(3.0))), 16_777_220.0);
}

#[test]
fn clamp_agrees() {
    for &a in &edges() {
        let r = unwrap(wrap(a).clamp(wrap(1.0), wrap(100.0)));
        assert!(same(r, a.clamp(1.0, 100.0)), "{a:?}");
    }
}

#[test]
fn signs_and_nans_are_told_apart() {
    for &a in &edges() {
        assert_eq!(wrap(a).is_nan(), a.is_nan());
        assert_eq!(wrap(a).is_sign_negative(), a.is_sign_negative());
        assert!(same(unwrap(wrap(a).neg()), -a));
    }
}

#[test]
fn whole_numbers_convert() {
    for n in [0_u32, 1, 2, 3, 7, 255, 256, 65_535, 16_777_215, 16_777_216, 16_777_217, 16_777_219] {
        assert!(same(unwrap(Float32::from_u32(n)), n as f32), "{n}");
    }
    for k in 0..32 {
        let n = 1_u32 << k;
        assert!(same(unwrap(Float32::from_u32(n)), n as f32), "{n}");
        assert!(same(unwrap(Float32::from_u32(n - 1)), (n - 1) as f32), "{n}");
    }
    assert!(same(unwrap(Float32::from_u32(u32::MAX)), u32::MAX as f32));
}

#[test]
fn bytes_are_rounded_and_held() {
    let expected = |x: f32| x.round().clamp(1.0, 255.0) as u8;
    for x in [0.0_f32, 0.4, 0.5, 0.6, 1.0, 1.49, 1.5, 2.5, 3.5, 38.25, 254.49, 254.5, 255.0, 300.0, 1e30] {
        assert_eq!(wrap(x).to_byte(), expected(x), "{x}");
        assert_eq!(wrap(-x).to_byte(), expected(-x), "-{x}");
    }
    assert_eq!(wrap(f32::INFINITY).to_byte(), 255);
    assert_eq!(wrap(f32::NAN).to_byte(), 0);
    for k in 0..2_560 {
        let x = k as f32 * 0.1;
        assert_eq!(wrap(x).to_byte(), expected(x), "{x}");
    }
}
