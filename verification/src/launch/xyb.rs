//! Launches between linear light and the XYB colour space.

use crate::device::{spread, spread_over, word_array, words, Handle, Kernel, Launch, LaunchSpec};
use vstd::prelude::*;

verus! {

/// The launch that [`xyb_forward`] describes.
pub open spec fn xyb_forward_launch(
    r: Handle,
    g: Handle,
    b: Handle,
    x_out: Handle,
    y_out: Handle,
    b_out: Handle,
    n: u32,
) -> LaunchSpec {
    LaunchSpec {
        kernel: Kernel::XybForward,
        grid: spread(n as int, 256),
        arrays: seq![
            words(r, n as int),
            words(g, n as int),
            words(b, n as int),
            words(x_out, n as int),
            words(y_out, n as int),
            words(b_out, n as int),
        ],
        scalars: seq![],
    }
}

/// Turns planes of linear light into XYB.
pub fn xyb_forward(
    r: Handle,
    g: Handle,
    b: Handle,
    x_out: Handle,
    y_out: Handle,
    b_out: Handle,
    n: u32,
) -> (launch: Launch)
    ensures
        launch@ == xyb_forward_launch(r, g, b, x_out, y_out, b_out, n),
{
    let launch: Launch = Launch {
        kernel: Kernel::XybForward,
        grid: spread_over(n, 256),
        arrays: vec![
            word_array(r, n as u64),
            word_array(g, n as u64),
            word_array(b, n as u64),
            word_array(x_out, n as u64),
            word_array(y_out, n as u64),
            word_array(b_out, n as u64),
        ],
        scalars: Vec::new(),
    };
    assert(launch@.arrays =~= xyb_forward_launch(r, g, b, x_out, y_out, b_out, n).arrays);
    assert(launch@.scalars =~= xyb_forward_launch(r, g, b, x_out, y_out, b_out, n).scalars);
    launch
}

/// The launch that [`xyb_inverse`] describes.
pub open spec fn xyb_inverse_launch(
    xyb_x: Handle,
    xyb_y: Handle,
    xyb_b: Handle,
    out_r: Handle,
    out_g: Handle,
    out_b: Handle,
    n: u32,
) -> LaunchSpec {
    LaunchSpec {
        kernel: Kernel::XybInverse,
        grid: spread(n as int, 256),
        arrays: seq![
            words(xyb_x, n as int),
            words(xyb_y, n as int),
            words(xyb_b, n as int),
            words(out_r, n as int),
            words(out_g, n as int),
            words(out_b, n as int),
        ],
        scalars: seq![],
    }
}

/// Turns XYB planes into linear light.
pub fn xyb_inverse(
    xyb_x: Handle,
    xyb_y: Handle,
    xyb_b: Handle,
    out_r: Handle,
    out_g: Handle,
    out_b: Handle,
    n: u32,
) -> (launch: Launch)
    ensures
        launch@ == xyb_inverse_launch(xyb_x, xyb_y, xyb_b, out_r, out_g, out_b, n),
{
    let launch: Launch = Launch {
        kernel: Kernel::XybInverse,
        grid: spread_over(n, 256),
        arrays: vec![
            word_array(xyb_x, n as u64),
            word_array(xyb_y, n as u64),
            word_array(xyb_b, n as u64),
            word_array(out_r, n as u64),
            word_array(out_g, n as u64),
            word_array(out_b, n as u64),
        ],
        scalars: Vec::new(),
    };
    assert(
        launch@.arrays =~= xyb_inverse_launch(xyb_x, xyb_y, xyb_b, out_r, out_g, out_b, n).arrays
    );
    assert(
        launch@.scalars =~= xyb_inverse_launch(xyb_x, xyb_y, xyb_b, out_r, out_g, out_b, n).scalars
    );
    launch
}

} // verus!
