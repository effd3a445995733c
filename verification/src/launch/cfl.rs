//! Launches for the chroma-from-luma multipliers.

use crate::device::{
    area, cube_each, one_cube_each, word_array, words, Handle, Kernel, Launch, LaunchSpec, Scalar,
};
use crate::float::Float32;
use vstd::prelude::*;

verus! {

/// The launch that [`find_best_multiplier_newton`] describes.
pub open spec fn find_best_multiplier_newton_launch(
    values_m: Handle,
    values_s: Handle,
    bases: Handle,
    output: Handle,
    num_tiles: u32,
    num_per_tile: u32,
    distance_mul: Float32,
    eps: Float32,
    max_iters: u32,
) -> LaunchSpec {
    LaunchSpec {
        kernel: Kernel::FindBestMultiplierNewton,
        grid: cube_each(num_tiles, 1),
        arrays: seq![
            words(values_m, num_tiles * num_per_tile),
            words(values_s, num_tiles * num_per_tile),
            words(bases, num_tiles as int),
            words(output, num_tiles as int),
        ],
        scalars: seq![
            Scalar::U32(num_per_tile),
            Scalar::F32(distance_mul),
            Scalar::F32(eps),
            Scalar::U32(max_iters),
        ],
    }
}

/// The best chroma-from-luma multiplier of each tile, by Newton steps.
pub fn find_best_multiplier_newton(
    values_m: Handle,
    values_s: Handle,
    bases: Handle,
    output: Handle,
    num_tiles: u32,
    num_per_tile: u32,
    distance_mul: Float32,
    eps: Float32,
    max_iters: u32,
) -> (launch: Launch)
    ensures
        launch@ == find_best_multiplier_newton_launch(
            values_m,
            values_s,
            bases,
            output,
            num_tiles,
            num_per_tile,
            distance_mul,
            eps,
            max_iters,
        ),
{
    let launch: Launch = Launch {
        kernel: Kernel::FindBestMultiplierNewton,
        grid: one_cube_each(num_tiles, 1),
        arrays: vec![
            word_array(values_m, area(num_tiles, num_per_tile)),
            word_array(values_s, area(num_tiles, num_per_tile)),
            word_array(bases, num_tiles as u64),
            word_array(output, num_tiles as u64),
        ],
        scalars: vec![
            Scalar::U32(num_per_tile),
            Scalar::F32(distance_mul),
            Scalar::F32(eps),
            Scalar::U32(max_iters),
        ],
    };
    assert(
        launch@.arrays =~= find_best_multiplier_newton_launch(
            values_m,
            values_s,
            bases,
            output,
            num_tiles,
            num_per_tile,
            distance_mul,
            eps,
            max_iters,
        ).arrays
    );
    assert(
        launch@.scalars =~= find_best_multiplier_newton_launch(
            values_m,
            values_s,
            bases,
            output,
            num_tiles,
            num_per_tile,
            distance_mul,
            eps,
            max_iters,
        ).scalars
    );
    launch
}

/// The launch that [`find_best_multiplier`] describes.
pub open spec fn find_best_multiplier_launch(
    values_m: Handle,
    values_s: Handle,
    bases: Handle,
    output: Handle,
    num_tiles: u32,
    num_per_tile: u32,
    distance_mul: Float32,
) -> LaunchSpec {
    LaunchSpec {
        kernel: Kernel::FindBestMultiplier,
        grid: cube_each(num_tiles, 1),
        arrays: seq![
            words(values_m, num_tiles * num_per_tile),
            words(values_s, num_tiles * num_per_tile),
            words(bases, num_tiles as int),
            words(output, num_tiles as int),
        ],
        scalars: seq![
            Scalar::U32(num_per_tile),
            Scalar::F32(distance_mul),
        ],
    }
}

/// The best chroma-from-luma multiplier of each tile.
pub fn find_best_multiplier(
    values_m: Handle,
    values_s: Handle,
    bases: Handle,
    output: Handle,
    num_tiles: u32,
    num_per_tile: u32,
    distance_mul: Float32,
) -> (launch: Launch)
    ensures
        launch@ == find_best_multiplier_launch(
            values_m,
            values_s,
            bases,
            output,
            num_tiles,
            num_per_tile,
            distance_mul,
        ),
{
    let launch: Launch = Launch {
        kernel: Kernel::FindBestMultiplier,
        grid: one_cube_each(num_tiles, 1),
        arrays: vec![
            word_array(values_m, area(num_tiles, num_per_tile)),
            word_array(values_s, area(num_tiles, num_per_tile)),
            word_array(bases, num_tiles as u64),
            word_array(output, num_tiles as u64),
        ],
        scalars: vec![
            Scalar::U32(num_per_tile),
            Scalar::F32(distance_mul),
        ],
    };
    assert(
        launch@.arrays =~= find_best_multiplier_launch(
            values_m,
            values_s,
            bases,
            output,
            num_tiles,
            num_per_tile,
            distance_mul,
        ).arrays
    );
    assert(
        launch@.scalars =~= find_best_multiplier_launch(
            values_m,
            values_s,
            bases,
            output,
            num_tiles,
            num_per_tile,
            distance_mul,
        ).scalars
    );
    launch
}

} // verus!
