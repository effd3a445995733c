//! Launch that collects the values for chroma-from-luma.

use crate::device::{
    cube_each, one_cube_each, word_array, words, Handle, Kernel, Launch, LaunchSpec, Scalar,
};
use vstd::prelude::*;

verus! {

/// The launch that [`cfl_collect`] describes.
pub open spec fn cfl_collect_launch(
    dct_y: Handle,
    dct_x: Handle,
    dct_b: Handle,
    inv_qm_x: Handle,
    inv_qm_b: Handle,
    m_yx: Handle,
    s_x: Handle,
    m_yb: Handle,
    s_b: Handle,
    num_tiles: u32,
    in_floats: u64,
    out_floats: u64,
    xsize_blocks: u32,
    ysize_blocks: u32,
    gpu_xsize_blocks: u32,
    xsize_tiles: u32,
) -> LaunchSpec {
    LaunchSpec {
        kernel: Kernel::CflCollect,
        grid: cube_each(num_tiles, 64),
        arrays: seq![
            words(dct_y, in_floats as int),
            words(dct_x, in_floats as int),
            words(dct_b, in_floats as int),
            words(inv_qm_x, 64),
            words(inv_qm_b, 64),
            words(m_yx, out_floats as int),
            words(s_x, out_floats as int),
            words(m_yb, out_floats as int),
            words(s_b, out_floats as int),
        ],
        scalars: seq![
            Scalar::U32(xsize_blocks),
            Scalar::U32(ysize_blocks),
            Scalar::U32(gpu_xsize_blocks),
            Scalar::U32(xsize_tiles),
        ],
    }
}

/// Collects the luma and chroma values of each tile, one thread to a block of a
/// tile.
pub fn cfl_collect(
    dct_y: Handle,
    dct_x: Handle,
    dct_b: Handle,
    inv_qm_x: Handle,
    inv_qm_b: Handle,
    m_yx: Handle,
    s_x: Handle,
    m_yb: Handle,
    s_b: Handle,
    num_tiles: u32,
    in_floats: u64,
    out_floats: u64,
    xsize_blocks: u32,
    ysize_blocks: u32,
    gpu_xsize_blocks: u32,
    xsize_tiles: u32,
) -> (launch: Launch)
    ensures
        launch@ == cfl_collect_launch(
            dct_y,
            dct_x,
            dct_b,
            inv_qm_x,
            inv_qm_b,
            m_yx,
            s_x,
            m_yb,
            s_b,
            num_tiles,
            in_floats,
            out_floats,
            xsize_blocks,
            ysize_blocks,
            gpu_xsize_blocks,
            xsize_tiles,
        ),
{
    let launch: Launch = Launch {
        kernel: Kernel::CflCollect,
        grid: one_cube_each(num_tiles, 64),
        arrays: vec![
            word_array(dct_y, in_floats),
            word_array(dct_x, in_floats),
            word_array(dct_b, in_floats),
            word_array(inv_qm_x, 64),
            word_array(inv_qm_b, 64),
            word_array(m_yx, out_floats),
            word_array(s_x, out_floats),
            word_array(m_yb, out_floats),
            word_array(s_b, out_floats),
        ],
        scalars: vec![
            Scalar::U32(xsize_blocks),
            Scalar::U32(ysize_blocks),
            Scalar::U32(gpu_xsize_blocks),
            Scalar::U32(xsize_tiles),
        ],
    };
    assert(
        launch@.arrays =~= cfl_collect_launch(
            dct_y,
            dct_x,
            dct_b,
            inv_qm_x,
            inv_qm_b,
            m_yx,
            s_x,
            m_yb,
            s_b,
            num_tiles,
            in_floats,
            out_floats,
            xsize_blocks,
            ysize_blocks,
            gpu_xsize_blocks,
            xsize_tiles,
        ).arrays
    );
    assert(
        launch@.scalars =~= cfl_collect_launch(
            dct_y,
            dct_x,
            dct_b,
            inv_qm_x,
            inv_qm_b,
            m_yx,
            s_x,
            m_yb,
            s_b,
            num_tiles,
            in_floats,
            out_floats,
            xsize_blocks,
            ysize_blocks,
            gpu_xsize_blocks,
            xsize_tiles,
        ).scalars
    );
    launch
}

} // verus!
