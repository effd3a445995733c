//! What the stages of a search leave on a device.

use crate::dataflow::{kept, lemma_read, stored_numbers, Run, Three};
use crate::device::Recording;
use crate::encode::{padded_plane, Image};
use crate::encoding_laws::{
    blocks_held, image_bytes, lemma_sizes, lemma_three_sharpened, padded_size, three_held,
    three_lie_in,
};
use crate::float::Float32;
use crate::functions::Size;
use crate::lossy_encoder::LossyEncoder;
use crate::mask::mask_steps;
use crate::operations::{
    lemma_block_means, lemma_colours, lemma_in_blocks, lemma_light_of_bytes, lemma_mask,
    lemma_mask_means, lemma_uploaded_three,
};
use crate::persistent::{
    block_mask_mean_steps, dc_grid_8x8_persistent_steps, gather_blocks_persistent_steps,
    mask1x1_persistent_steps, upload_planes_3ch_steps, upload_u8_steps,
    xyb_from_linear_rgb_persistent_steps,
};
use crate::pipeline::{sharpened_steps, Planes};
use crate::plan::{
    dc_grids_steps, first_pixel, search_blocks_steps, search_bytes_steps, search_image_steps,
    search_planes_steps, SearchPlanes, StrategySearchPlan,
};
use crate::quality::{float, HALF};
use crate::search_flow::read_if;
use vstd::prelude::*;

verus! {

/// The size of an encoder's images.
pub open spec fn image_size(le: LossyEncoder) -> Size {
    Size { width: le.width, height: le.height }
}

/// Whether the first stage of a search has left what it should of planes of
/// light: the opponent colours before sharpening; those after it, which are the
/// same up to a distance of one half; the mask of the luminance after it; and
/// the mean of the mask in each block.
pub open spec fn well_begun(
    run: Run,
    s: Recording,
    le: LossyEncoder,
    light: Three,
    distance: Float32,
    planes: SearchPlanes,
) -> bool {
    let d = run.device;
    let size = padded_size(le);
    let pre = three_held(run, s, planes.pre);
    let post = three_held(run, s, planes.post);
    let mask = run.held(s, planes.mask.handle);
    &&& pre == d.opponent_colours(size.pixels(), light.0, light.1, light.2)
    &&& float(HALF).less(distance) ==> post == (
        d.sharpened(size, le.weights, pre.0),
        d.sharpened(size, le.weights, pre.1),
        d.sharpened(size, le.weights, pre.2),
    )
    &&& !float(HALF).less(distance) ==> post == pre
    &&& mask == d.mask(size, post.1)
    &&& run.held(s, planes.means.handle) == d.mask_means(image_size(le), size, mask)
}

proof fn lemma_begun(run: Run, s: Recording, le: LossyEncoder, p: Planes, distance: Float32)
    requires
        run.ready(s, 8),
        le.wf(),
        le.countable(),
        three_lie_in(s, p, padded_size(le)),
    ensures
        ({
            let (s1, planes) = search_planes_steps(s, le, p, distance);
            &&& well_begun(run, s1, le, three_held(run, s, p), distance, planes)
            &&& kept(run.memory(s), run.memory(s1))
            &&& run.replies(s1) == run.replies(s).push(run.held(s1, planes.means.handle))
        }),
{
    reveal(search_planes_steps);
    lemma_sizes(le);
    let size = padded_size(le);
    let sharp = float(HALF).less(distance);
    let (s1, pre) = xyb_from_linear_rgb_persistent_steps(s, p.0, p.1, p.2);
    let (s2, post) = sharpened_steps(s1, le, pre, sharp);
    let (s3, mask) = mask1x1_persistent_steps(s2, post.1);
    let (s4, means) = block_mask_mean_steps(s3, mask, le.width, le.height);
    lemma_colours(run, s, p.0, p.1, p.2, size);
    lemma_three_sharpened(run, s1, le, pre, sharp);
    lemma_mask(run, s2, post.1, size);
    lemma_mask_means(run, s3, mask, image_size(le), size);
    let handles = seq![means.handle];
    lemma_read(run, s4, handles);
    assert(run.replies(s4.read(handles)) =~= run.replies(s).push(run.held(s4, means.handle)));
}

/// A search over an image begins with its opponent colours, sharpened above a
/// distance of one half, and reads back the means of the mask of their
/// luminance.
pub proof fn law_search_begins_with_the_image(
    run: Run,
    s: Recording,
    le: LossyEncoder,
    image: Image,
    distance: Float32,
)
    requires
        run.ready(s, 11),
        le.wf(),
        le.countable(),
    ensures
        ({
            let (s1, planes) = search_image_steps(s, le, image, distance);
            &&& well_begun(run, s1, le, image_bytes(le, image), distance, planes)
            &&& run.replies(s1) == run.replies(s).push(run.held(s1, planes.means.handle))
        }),
{
    let size = padded_size(le);
    let (r, g, b) = (
        padded_plane(le, image.0),
        padded_plane(le, image.1),
        padded_plane(le, image.2),
    );
    let (s1, p) = upload_planes_3ch_steps(s, r, g, b, size.width, size.height);
    lemma_uploaded_three(run, s, r, g, b, size);
    lemma_begun(run, s1, le, p, distance);
}

/// A search over an image of bytes begins in the same way, with the light that
/// the bytes stand for.
pub proof fn law_search_begins_with_the_bytes(
    run: Run,
    s: Recording,
    le: LossyEncoder,
    pixels: Seq<u8>,
    distance: Float32,
)
    requires
        run.ready(s, 12),
        le.wf(),
        le.countable(),
    ensures
        ({
            let (s1, planes) = search_bytes_steps(s, le, pixels, distance);
            let light = run.device.light_of_bytes(image_size(le), padded_size(le), pixels);
            &&& well_begun(run, s1, le, light, distance, planes)
            &&& run.replies(s1) == run.replies(s).push(run.held(s1, planes.means.handle))
        }),
{
    lemma_sizes(le);
    let size = padded_size(le);
    let (s1, p) = upload_u8_steps(s, pixels, le.width, le.height, size.width, size.height);
    lemma_light_of_bytes(run, s, pixels, image_size(le), size);
    lemma_begun(run, s1, le, p, distance);
}

/// The mask of an image that is read back is the mask of its luminance, the
/// second of its opponent colours, at the size of the image without its padding.
pub proof fn law_mask_is_of_the_luminance(
    run: Run,
    s: Recording,
    le: LossyEncoder,
    image: Image,
)
    requires
        run.ready(s, 7),
        le.wf(),
        le.countable(),
    ensures
        ({
            let d = run.device;
            let size = image_size(le);
            let (s1, mask) = mask_steps(s, le, image);
            let luminance = d.opponent_colours(
                size.pixels(),
                stored_numbers(image.0),
                stored_numbers(image.1),
                stored_numbers(image.2),
            ).1;
            &&& run.replies(s1) == run.replies(s).push(d.mask(size, luminance))
            &&& run.held(s1, mask.handle) == d.mask(size, luminance)
        }),
{
    let size = image_size(le);
    assert(le.width * le.height <= le.padded_width * le.padded_height) by (nonlinear_arith)
        requires
            0 <= le.width <= le.padded_width,
            0 <= le.height <= le.padded_height,
    ;
    let (s1, p) = upload_planes_3ch_steps(s, image.0, image.1, image.2, le.width, le.height);
    let (s2, xyb) = xyb_from_linear_rgb_persistent_steps(s1, p.0, p.1, p.2);
    let (s3, mask) = mask1x1_persistent_steps(s2, xyb.1);
    lemma_uploaded_three(run, s, image.0, image.1, image.2, size);
    lemma_colours(run, s1, p.0, p.1, p.2, size);
    lemma_mask(run, s2, xyb.1, size);
    let handles = seq![mask.handle];
    lemma_read(run, s3, handles);
    assert(run.replies(s3.read(handles)) =~= run.replies(s).push(run.held(s3, mask.handle)));
}

/// Two images that a device gives the same luminance have the same mask,
/// whatever else they hold.
pub proof fn law_mask_sees_nothing_but_luminance(
    run: Run,
    s: Recording,
    le: LossyEncoder,
    one: Image,
    other: Image,
)
    requires
        run.ready(s, 7),
        le.wf(),
        le.countable(),
        run.device.opponent_colours(
            le.width * le.height,
            stored_numbers(one.0),
            stored_numbers(one.1),
            stored_numbers(one.2),
        ).1 == run.device.opponent_colours(
            le.width * le.height,
            stored_numbers(other.0),
            stored_numbers(other.1),
            stored_numbers(other.2),
        ).1,
    ensures
        run.replies(mask_steps(s, le, one).0) == run.replies(mask_steps(s, le, other).0),
{
    law_mask_is_of_the_luminance(run, s, le, one);
    law_mask_is_of_the_luminance(run, s, le, other);
}

/// The costs of a search are computed from the sharpened planes, channel by
/// channel in 8x8 blocks. With the AFV transforms those planes are read back, X
/// first, then Y and B.
pub proof fn law_search_gathers_the_sharpened_planes(
    run: Run,
    s: Recording,
    le: LossyEncoder,
    planes: SearchPlanes,
    afv: bool,
)
    requires
        run.ready(s, 3),
        le.wf(),
        le.countable(),
        three_lie_in(s, planes.post, padded_size(le)),
    ensures
        ({
            let d = run.device;
            let size = padded_size(le);
            let (s1, b) = search_blocks_steps(s, planes, afv);
            let p = three_held(run, s, planes.post);
            &&& blocks_held(run, s1, b) == (
                d.in_blocks(size, p.0),
                d.in_blocks(size, p.1),
                d.in_blocks(size, p.2),
            )
            &&& kept(run.memory(s), run.memory(s1))
            &&& afv ==> run.replies(s1) == run.replies(s) + seq![p.0, p.1, p.2]
            &&& !afv ==> run.replies(s1) == run.replies(s)
        }),
{
    reveal(search_blocks_steps);
    lemma_sizes(le);
    let size = padded_size(le);
    let p = planes.post;
    let handles = seq![p.0.handle, p.1.handle, p.2.handle];
    let s1 = if afv {
        s.read(handles)
    } else {
        s
    };
    lemma_read(run, s, handles);
    let h = three_held(run, s, p);
    assert(Seq::new(handles.len(), |i: int| run.held(s, handles[i])) =~= seq![h.0, h.1, h.2]);
    let (s2, x) = gather_blocks_persistent_steps(s1, p.0, 8, 8);
    let (s3, y) = gather_blocks_persistent_steps(s2, p.1, 8, 8);
    lemma_in_blocks(run, s1, p.0, size);
    lemma_in_blocks(run, s2, p.1, size);
    lemma_in_blocks(run, s3, p.2, size);
}

/// Whether on a device that carries out what was recorded since `s`, a plan's
/// grids hold the means of its own sharpened planes, channel by channel.
pub open spec fn grids_hold_means(
    run: Run,
    s: Recording,
    s1: Recording,
    plan: StrategySearchPlan,
) -> bool {
    let d = run.device;
    let size = Size { width: plan.padded_width, height: plan.padded_height };
    run.ready(s, 3) ==> {
        &&& run.held(s1, plan.dc_grid_x_gpu.handle) == d.block_means(
            size,
            run.held(s1, plan.xyb_x_gpu.handle),
        )
        &&& run.held(s1, plan.dc_grid_y_gpu.handle) == d.block_means(
            size,
            run.held(s1, plan.xyb_y_gpu.handle),
        )
        &&& run.held(s1, plan.dc_grid_b_gpu.handle) == d.block_means(
            size,
            run.held(s1, plan.xyb_b_gpu.handle),
        )
    }
}

/// The means of 8x8 blocks are those of the sharpened planes, channel by
/// channel. With the AFV transforms they are read back, X first, then Y and B.
pub proof fn law_grids_are_means_of_the_sharpened_planes(
    run: Run,
    s: Recording,
    le: LossyEncoder,
    planes: SearchPlanes,
    afv: bool,
)
    requires
        run.ready(s, 3),
        le.wf(),
        le.countable(),
        three_lie_in(s, planes.post, padded_size(le)),
    ensures
        ({
            let d = run.device;
            let size = padded_size(le);
            let (s1, dc) = dc_grids_steps(s, planes, afv);
            let p = three_held(run, s, planes.post);
            let m = blocks_held(run, s1, dc);
            &&& m == (
                d.block_means(size, p.0),
                d.block_means(size, p.1),
                d.block_means(size, p.2),
            )
            &&& three_held(run, s1, planes.post) == p
            &&& kept(run.memory(s), run.memory(s1))
            &&& afv ==> run.replies(s1) == run.replies(s) + seq![m.0, m.1, m.2]
            &&& !afv ==> run.replies(s1) == run.replies(s)
        }),
{
    reveal(dc_grids_steps);
    lemma_sizes(le);
    let size = padded_size(le);
    let p = planes.post;
    let (s1, x) = dc_grid_8x8_persistent_steps(s, p.0);
    let (s2, y) = dc_grid_8x8_persistent_steps(s1, p.1);
    let (s3, b) = dc_grid_8x8_persistent_steps(s2, p.2);
    lemma_block_means(run, s, p.0, size);
    lemma_block_means(run, s1, p.1, size);
    lemma_block_means(run, s2, p.2, size);
    let handles = seq![x.handle, y.handle, b.handle];
    lemma_read(run, s3, handles);
    let m = blocks_held(run, s3, (x, y, b));
    assert(Seq::new(handles.len(), |i: int| run.held(s3, handles[i])) =~= seq![m.0, m.1, m.2]);
}

/// The first pixel of a block stands eight columns and eight rows further for
/// each block to its left and above it.
pub proof fn law_first_pixels_are_of_their_blocks(le: LossyEncoder, bx: int, by: int)
    requires
        le.wf(),
        0 <= bx < le.padded_width / 8,
        0 <= by < le.padded_height / 8,
    ensures
        ({
            let w = le.padded_width as int;
            let k = first_pixel(w, by * (w / 8) + bx);
            &&& k % w == 8 * bx
            &&& k / w == 8 * by
        }),
{
    let w = le.padded_width as int;
    let across = w / 8;
    vstd::arithmetic::div_mod::lemma_fundamental_div_mod_converse(by * across + bx, across, by, bx);
    let k = first_pixel(w, by * across + bx);
    assert(k == by * 8 * w + bx * 8);
    assert(by * 8 * w == (8 * by) * w) by (nonlinear_arith);
    vstd::arithmetic::div_mod::lemma_fundamental_div_mod_converse(k, w, 8 * by, 8 * bx);
}

/// Where patches are looked for, three planes are read back as they are on the
/// device: X first, then Y and B. Otherwise nothing is.
pub proof fn law_patches_are_looked_for_in_the_planes(
    run: Run,
    s: Recording,
    on: bool,
    p: Planes,
)
    ensures
        run.memory(read_if(s, on, p)) == run.memory(s),
        run.replies(read_if(s, on, p)) == if on {
            run.replies(s).push(run.held(s, p.0.handle)).push(run.held(s, p.1.handle)).push(
                run.held(s, p.2.handle),
            )
        } else {
            run.replies(s)
        },
{
    if on {
        let handles = seq![p.0.handle, p.1.handle, p.2.handle];
        lemma_read(run, s, handles);
        assert(run.replies(s.read(handles)) =~= run.replies(s).push(
            run.held(s, p.0.handle),
        ).push(run.held(s, p.1.handle)).push(run.held(s, p.2.handle)));
    }
}

} // verus!
