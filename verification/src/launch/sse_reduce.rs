//! Launch for the masked squared error of blocks.

use crate::device::{spread, spread_over, word_array, words, Handle, Kernel, Launch, LaunchSpec};
use vstd::prelude::*;

verus! {

/// The launch that [`sse_reduce_3channel`] describes.
pub open spec fn sse_reduce_3channel_launch(
    orig_x: Handle,
    orig_y: Handle,
    orig_b: Handle,
    recon_x: Handle,
    recon_y: Handle,
    recon_b: Handle,
    mask: Handle,
    out: Handle,
    n_blocks: u32,
) -> LaunchSpec {
    LaunchSpec {
        kernel: Kernel::SseReduce3channel,
        grid: spread(n_blocks as int, 64),
        arrays: seq![
            words(orig_x, n_blocks * 64),
            words(orig_y, n_blocks * 64),
            words(orig_b, n_blocks * 64),
            words(recon_x, n_blocks * 64),
            words(recon_y, n_blocks * 64),
            words(recon_b, n_blocks * 64),
            words(mask, n_blocks * 64),
            words(out, n_blocks as int),
        ],
        scalars: seq![],
    }
}

/// The masked squared error of each 8x8 block over three channels. No blocks,
/// no launch.
pub fn sse_reduce_3channel(
    orig_x: Handle,
    orig_y: Handle,
    orig_b: Handle,
    recon_x: Handle,
    recon_y: Handle,
    recon_b: Handle,
    mask: Handle,
    out: Handle,
    n_blocks: u32,
) -> (launch: Option<Launch>)
    ensures
        n_blocks == 0 ==> launch is None,
        !(n_blocks == 0) ==> launch is Some && launch->0@ == sse_reduce_3channel_launch(
            orig_x,
            orig_y,
            orig_b,
            recon_x,
            recon_y,
            recon_b,
            mask,
            out,
            n_blocks,
        ),
{
    if n_blocks == 0 {
        return None;
    }
    let launch: Launch = Launch {
        kernel: Kernel::SseReduce3channel,
        grid: spread_over(n_blocks, 64),
        arrays: vec![
            word_array(orig_x, n_blocks as u64 * 64),
            word_array(orig_y, n_blocks as u64 * 64),
            word_array(orig_b, n_blocks as u64 * 64),
            word_array(recon_x, n_blocks as u64 * 64),
            word_array(recon_y, n_blocks as u64 * 64),
            word_array(recon_b, n_blocks as u64 * 64),
            word_array(mask, n_blocks as u64 * 64),
            word_array(out, n_blocks as u64),
        ],
        scalars: Vec::new(),
    };
    assert(
        launch@.arrays =~= sse_reduce_3channel_launch(
            orig_x,
            orig_y,
            orig_b,
            recon_x,
            recon_y,
            recon_b,
            mask,
            out,
            n_blocks,
        ).arrays
    );
    assert(
        launch@.scalars =~= sse_reduce_3channel_launch(
            orig_x,
            orig_y,
            orig_b,
            recon_x,
            recon_y,
            recon_b,
            mask,
            out,
            n_blocks,
        ).scalars
    );
    Some(launch)
}

} // verus!
