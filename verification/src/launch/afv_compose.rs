//! Launches that put AFV blocks together and take them apart.

use crate::device::{
    spread, spread_over, word_array, words, Handle, Kernel, Launch, LaunchSpec, Scalar,
};
use vstd::prelude::*;

verus! {

/// The launch that [`afv_compose_forward`] describes.
pub open spec fn afv_compose_forward_launch(
    afv_in: Handle,
    dct4_in: Handle,
    dct4x8_in: Handle,
    out: Handle,
    n_blocks: u32,
) -> LaunchSpec {
    LaunchSpec {
        kernel: Kernel::AfvComposeForward,
        grid: spread(n_blocks as int, 64),
        arrays: seq![
            words(afv_in, n_blocks * 16),
            words(dct4_in, n_blocks * 16),
            words(dct4x8_in, n_blocks * 32),
            words(out, n_blocks * 64),
        ],
        scalars: seq![],
    }
}

/// Composes AFV coefficient blocks from their three parts. No blocks, no
/// launch.
pub fn afv_compose_forward(
    afv_in: Handle,
    dct4_in: Handle,
    dct4x8_in: Handle,
    out: Handle,
    n_blocks: u32,
) -> (launch: Option<Launch>)
    requires
        n_blocks * 64 <= u32::MAX,
    ensures
        n_blocks == 0 ==> launch is None,
        !(n_blocks == 0) ==> launch is Some && launch->0@ == afv_compose_forward_launch(
            afv_in,
            dct4_in,
            dct4x8_in,
            out,
            n_blocks,
        ),
{
    if n_blocks == 0 {
        return None;
    }
    let launch: Launch = Launch {
        kernel: Kernel::AfvComposeForward,
        grid: spread_over(n_blocks, 64),
        arrays: vec![
            word_array(afv_in, n_blocks as u64 * 16),
            word_array(dct4_in, n_blocks as u64 * 16),
            word_array(dct4x8_in, n_blocks as u64 * 32),
            word_array(out, n_blocks as u64 * 64),
        ],
        scalars: Vec::new(),
    };
    assert(
        launch@.arrays =~= afv_compose_forward_launch(
            afv_in,
            dct4_in,
            dct4x8_in,
            out,
            n_blocks,
        ).arrays
    );
    assert(
        launch@.scalars =~= afv_compose_forward_launch(
            afv_in,
            dct4_in,
            dct4x8_in,
            out,
            n_blocks,
        ).scalars
    );
    Some(launch)
}

/// The launch that [`afv_unpack_inverse`] describes.
pub open spec fn afv_unpack_inverse_launch(
    coeffs: Handle,
    afv_out: Handle,
    dct4_out: Handle,
    dct4x8_out: Handle,
    n_blocks: u32,
) -> LaunchSpec {
    LaunchSpec {
        kernel: Kernel::AfvUnpackInverse,
        grid: spread(n_blocks as int, 64),
        arrays: seq![
            words(coeffs, n_blocks * 64),
            words(afv_out, n_blocks * 16),
            words(dct4_out, n_blocks * 16),
            words(dct4x8_out, n_blocks * 32),
        ],
        scalars: seq![],
    }
}

/// Takes AFV coefficient blocks apart into their three parts. No blocks, no
/// launch.
pub fn afv_unpack_inverse(
    coeffs: Handle,
    afv_out: Handle,
    dct4_out: Handle,
    dct4x8_out: Handle,
    n_blocks: u32,
) -> (launch: Option<Launch>)
    requires
        n_blocks * 64 <= u32::MAX,
    ensures
        n_blocks == 0 ==> launch is None,
        !(n_blocks == 0) ==> launch is Some && launch->0@ == afv_unpack_inverse_launch(
            coeffs,
            afv_out,
            dct4_out,
            dct4x8_out,
            n_blocks,
        ),
{
    if n_blocks == 0 {
        return None;
    }
    let launch: Launch = Launch {
        kernel: Kernel::AfvUnpackInverse,
        grid: spread_over(n_blocks, 64),
        arrays: vec![
            word_array(coeffs, n_blocks as u64 * 64),
            word_array(afv_out, n_blocks as u64 * 16),
            word_array(dct4_out, n_blocks as u64 * 16),
            word_array(dct4x8_out, n_blocks as u64 * 32),
        ],
        scalars: Vec::new(),
    };
    assert(
        launch@.arrays =~= afv_unpack_inverse_launch(
            coeffs,
            afv_out,
            dct4_out,
            dct4x8_out,
            n_blocks,
        ).arrays
    );
    assert(
        launch@.scalars =~= afv_unpack_inverse_launch(
            coeffs,
            afv_out,
            dct4_out,
            dct4x8_out,
            n_blocks,
        ).scalars
    );
    Some(launch)
}

/// The launch that [`afv_compose_inverse`] describes.
pub open spec fn afv_compose_inverse_launch(
    afv_pixels: Handle,
    dct4_pixels: Handle,
    dct4x8_pixels: Handle,
    out: Handle,
    n_blocks: u32,
    afv_kind: u32,
) -> LaunchSpec {
    LaunchSpec {
        kernel: Kernel::AfvComposeInverse,
        grid: spread(n_blocks as int, 64),
        arrays: seq![
            words(afv_pixels, n_blocks * 16),
            words(dct4_pixels, n_blocks * 16),
            words(dct4x8_pixels, n_blocks * 32),
            words(out, n_blocks * 64),
        ],
        scalars: seq![
            Scalar::U32(afv_kind),
        ],
    }
}

/// Composes AFV pixel blocks from their three parts, mirrored into the corner
/// that `afv_kind` names. No blocks, no launch.
pub fn afv_compose_inverse(
    afv_pixels: Handle,
    dct4_pixels: Handle,
    dct4x8_pixels: Handle,
    out: Handle,
    n_blocks: u32,
    afv_kind: u32,
) -> (launch: Option<Launch>)
    requires
        n_blocks * 64 <= u32::MAX,
        n_blocks > 0 ==> afv_kind < 4,
    ensures
        n_blocks == 0 ==> launch is None,
        !(n_blocks == 0) ==> launch is Some && launch->0@ == afv_compose_inverse_launch(
            afv_pixels,
            dct4_pixels,
            dct4x8_pixels,
            out,
            n_blocks,
            afv_kind,
        ),
{
    if n_blocks == 0 {
        return None;
    }
    let launch: Launch = Launch {
        kernel: Kernel::AfvComposeInverse,
        grid: spread_over(n_blocks, 64),
        arrays: vec![
            word_array(afv_pixels, n_blocks as u64 * 16),
            word_array(dct4_pixels, n_blocks as u64 * 16),
            word_array(dct4x8_pixels, n_blocks as u64 * 32),
            word_array(out, n_blocks as u64 * 64),
        ],
        scalars: vec![
            Scalar::U32(afv_kind),
        ],
    };
    assert(
        launch@.arrays =~= afv_compose_inverse_launch(
            afv_pixels,
            dct4_pixels,
            dct4x8_pixels,
            out,
            n_blocks,
            afv_kind,
        ).arrays
    );
    assert(
        launch@.scalars =~= afv_compose_inverse_launch(
            afv_pixels,
            dct4_pixels,
            dct4x8_pixels,
            out,
            n_blocks,
            afv_kind,
        ).scalars
    );
    Some(launch)
}

} // verus!
