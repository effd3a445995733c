//! Codes and shapes of the block transforms.

use vstd::prelude::*;

verus! {

pub const RAW_STRATEGY_DCT: u8 = 0;

pub const RAW_STRATEGY_DCT16X8: u8 = 1;

pub const RAW_STRATEGY_DCT8X16: u8 = 2;

pub const RAW_STRATEGY_DCT16X16: u8 = 3;

pub const RAW_STRATEGY_DCT32X32: u8 = 4;

pub const RAW_STRATEGY_DCT4X8: u8 = 5;

pub const RAW_STRATEGY_DCT8X4: u8 = 6;

pub const RAW_STRATEGY_DCT4X4: u8 = 7;

pub const RAW_STRATEGY_IDENTITY: u8 = 8;

pub const RAW_STRATEGY_DCT2X2: u8 = 9;

pub const RAW_STRATEGY_DCT32X16: u8 = 10;

pub const RAW_STRATEGY_DCT16X32: u8 = 11;

pub const RAW_STRATEGY_AFV0: u8 = 12;

pub const RAW_STRATEGY_AFV1: u8 = 13;

pub const RAW_STRATEGY_AFV2: u8 = 14;

pub const RAW_STRATEGY_AFV3: u8 = 15;

pub const RAW_STRATEGY_DCT64X64: u8 = 16;

pub const RAW_STRATEGY_DCT64X32: u8 = 17;

pub const RAW_STRATEGY_DCT32X64: u8 = 18;

/// How many 8x8 blocks a transform covers, across and down. A name gives the
/// height first: DCT16X8 is 16 pixels tall and 8 wide. A code that names no
/// transform covers nothing.
pub open spec fn blocks_covered(raw_strategy: u8) -> (int, int) {
    if raw_strategy == RAW_STRATEGY_DCT16X8 {
        (1, 2)
    } else if raw_strategy == RAW_STRATEGY_DCT8X16 {
        (2, 1)
    } else if raw_strategy == RAW_STRATEGY_DCT16X16 {
        (2, 2)
    } else if raw_strategy == RAW_STRATEGY_DCT32X32 {
        (4, 4)
    } else if raw_strategy == RAW_STRATEGY_DCT32X16 {
        (2, 4)
    } else if raw_strategy == RAW_STRATEGY_DCT16X32 {
        (4, 2)
    } else if raw_strategy == RAW_STRATEGY_DCT64X64 {
        (8, 8)
    } else if raw_strategy == RAW_STRATEGY_DCT64X32 {
        (4, 8)
    } else if raw_strategy == RAW_STRATEGY_DCT32X64 {
        (8, 4)
    } else if raw_strategy < RAW_STRATEGY_DCT64X64 {
        (1, 1)
    } else {
        (0, 0)
    }
}

/// The quantization matrices of the transforms. Transforms of one shape, turned
/// or not, have them in common, and so do the four AFV transforms.
#[derive(Clone, Copy, Debug, PartialEq, Eq, Structural)]
pub enum WeightTable {
    Dct8,
    Dct16x16,
    Dct16x8,
    Dct32x32,
    Dct32x16,
    Dct64x64,
    Dct64x32,
    Dct4x4,
    Dct4x8,
    Identity,
    Dct2x2,
    Afv,
}

/// The quantization matrix of a transform; none for a code that stands for no
/// transform.
pub open spec fn table_of(raw_strategy: u8) -> Option<WeightTable> {
    if RAW_STRATEGY_AFV0 <= raw_strategy <= RAW_STRATEGY_AFV3 {
        Some(WeightTable::Afv)
    } else if raw_strategy == RAW_STRATEGY_DCT {
        Some(WeightTable::Dct8)
    } else if raw_strategy == RAW_STRATEGY_DCT16X16 {
        Some(WeightTable::Dct16x16)
    } else if raw_strategy == RAW_STRATEGY_DCT16X8 || raw_strategy == RAW_STRATEGY_DCT8X16 {
        Some(WeightTable::Dct16x8)
    } else if raw_strategy == RAW_STRATEGY_DCT32X32 {
        Some(WeightTable::Dct32x32)
    } else if raw_strategy == RAW_STRATEGY_DCT32X16 || raw_strategy == RAW_STRATEGY_DCT16X32 {
        Some(WeightTable::Dct32x16)
    } else if raw_strategy == RAW_STRATEGY_DCT64X64 {
        Some(WeightTable::Dct64x64)
    } else if raw_strategy == RAW_STRATEGY_DCT64X32 || raw_strategy == RAW_STRATEGY_DCT32X64 {
        Some(WeightTable::Dct64x32)
    } else if raw_strategy == RAW_STRATEGY_DCT4X4 {
        Some(WeightTable::Dct4x4)
    } else if raw_strategy == RAW_STRATEGY_DCT4X8 || raw_strategy == RAW_STRATEGY_DCT8X4 {
        Some(WeightTable::Dct4x8)
    } else if raw_strategy == RAW_STRATEGY_IDENTITY {
        Some(WeightTable::Identity)
    } else if raw_strategy == RAW_STRATEGY_DCT2X2 {
        Some(WeightTable::Dct2x2)
    } else {
        None
    }
}

/// The quantization matrix of a transform; none for a code that stands for no
/// transform.
pub fn weight_table(raw_strategy: u8) -> (r: Option<WeightTable>)
    ensures
        r == table_of(raw_strategy),
        r is Some <==> raw_strategy <= RAW_STRATEGY_DCT32X64,
{
    match raw_strategy {
        RAW_STRATEGY_DCT => Some(WeightTable::Dct8),
        RAW_STRATEGY_DCT16X16 => Some(WeightTable::Dct16x16),
        RAW_STRATEGY_DCT16X8 | RAW_STRATEGY_DCT8X16 => Some(WeightTable::Dct16x8),
        RAW_STRATEGY_DCT32X32 => Some(WeightTable::Dct32x32),
        RAW_STRATEGY_DCT32X16 | RAW_STRATEGY_DCT16X32 => Some(WeightTable::Dct32x16),
        RAW_STRATEGY_DCT64X64 => Some(WeightTable::Dct64x64),
        RAW_STRATEGY_DCT64X32 | RAW_STRATEGY_DCT32X64 => Some(WeightTable::Dct64x32),
        RAW_STRATEGY_DCT4X4 => Some(WeightTable::Dct4x4),
        RAW_STRATEGY_DCT4X8 | RAW_STRATEGY_DCT8X4 => Some(WeightTable::Dct4x8),
        RAW_STRATEGY_IDENTITY => Some(WeightTable::Identity),
        RAW_STRATEGY_DCT2X2 => Some(WeightTable::Dct2x2),
        RAW_STRATEGY_AFV0 | RAW_STRATEGY_AFV1 | RAW_STRATEGY_AFV2 | RAW_STRATEGY_AFV3 => Some(
            WeightTable::Afv,
        ),
        _ => None,
    }
}

/// Whether two codes stand for one shape, turned or not. The four AFV transforms
/// differ in the corner that they single out.
pub open spec fn turned(a: u8, b: u8) -> bool {
    ||| a == RAW_STRATEGY_DCT16X8 && b == RAW_STRATEGY_DCT8X16
    ||| a == RAW_STRATEGY_DCT32X16 && b == RAW_STRATEGY_DCT16X32
    ||| a == RAW_STRATEGY_DCT64X32 && b == RAW_STRATEGY_DCT32X64
    ||| a == RAW_STRATEGY_DCT4X8 && b == RAW_STRATEGY_DCT8X4
    ||| RAW_STRATEGY_AFV0 <= a <= RAW_STRATEGY_AFV3 && RAW_STRATEGY_AFV0 <= b <= RAW_STRATEGY_AFV3
}

/// Two transforms have a quantization matrix in common where they are one shape,
/// turned or not, and nowhere else.
pub proof fn law_matrices_go_by_shape(a: u8, b: u8)
    requires
        a <= RAW_STRATEGY_DCT32X64,
        b <= RAW_STRATEGY_DCT32X64,
    ensures
        table_of(a) is Some,
        table_of(a) == table_of(b) <==> a == b || turned(a, b) || turned(b, a),
{
}

} // verus!
