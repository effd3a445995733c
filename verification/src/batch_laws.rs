//! What a batch reads back.

use crate::device::{CommandSpec, Handle, LaunchSpec, Recording};
use crate::encode::{
    adaptive_each, adaptive_field, encode_many_steps, encode_steps, padded_plane, pipelines_steps,
    uniform_each, upload_image_steps, Image,
};
use crate::encode_laws::law_batch_runs_each_setting;
use crate::execution::{
    added, asked, continues, law_buffers_are_made, law_moved_commands_do_the_same,
    law_outcome_of_parts, law_safe_commands_keep, law_what_is_asked_comes_back, made, makes,
    outcome, reads, writes, DeviceModel, Shift,
};
use crate::float::Float32;
use crate::launch::dc_restore::restore_dc_launch;
use crate::launch::dct8::{dct_8x8_wide_launch, idct_8x8_wide_launch};
use crate::launch::dequant::dequant_dct8_broadcast_w_launch;
use crate::launch::epf::{epf_step1_launch, epf_step2_launch, pad_plane_launch};
use crate::launch::gab::gab_smooth_launch;
use crate::launch::gab_3ch::gab_smooth_3ch_launch;
use crate::launch::gaborish::gaborish_5x5_launch;
use crate::launch::gather::{gather_blocks_launch, scatter_blocks_launch};
use crate::launch::quantize::quantize_dct8_broadcast_w_launch;
use crate::launch::xyb::{xyb_forward_launch, xyb_inverse_launch};
use crate::lossy_encoder::{FilterParameters, LossyEncoder};
use crate::persistent::{
    bits_of, dct_8x8_wide_persistent_steps, dequant_dct8_persistent_broadcast_w_steps,
    epf_step1_persistent_steps, epf_step2_persistent_steps, gab_smooth_3ch_persistent_steps,
    gab_smooth_persistent_steps, gaborish_5x5_persistent_steps, gather_blocks_persistent_steps,
    idct_8x8_wide_persistent_steps,
    pad_plane_3ch_steps, pad_plane_persistent_steps, quantize_dct8_persistent_broadcast_w_steps,
    restore_dc_persistent_steps, scatter_blocks_persistent_steps, upload_inv_sigma_steps,
    upload_plane_steps, xyb_from_linear_rgb_persistent_steps,
    xyb_to_linear_rgb_planar_persistent_steps, GaborishWeights, GpuBlocks, GpuI32Blocks, GpuPlane,
};
use crate::pipeline::{
    analysis_steps, pipeline_steps, restoration_steps, sharpened_steps, smoothed_steps,
    synthesis_steps, uniform, uses_gaborish, Blocks, Planes,
};
use crate::plan::{after_plan_steps, smoothed_together_steps};
use vstd::prelude::*;

verus! {

/// Whether two recordings have gone on in the same way, and read `back` buffers
/// back.
#[verifier::opaque]
spec fn matched(t: Shift, s: Recording, s2: Recording, back: nat) -> bool {
    &&& continues(t.from, s)
    &&& continues(t.to, s2)
    &&& added(t.to, s2).len() == added(t.from, s).len()
    &&& forall|k: int|
        0 <= k < added(t.from, s).len() ==> #[trigger] added(t.to, s2)[k] == t.moved_command(
            added(t.from, s)[k],
        )
    &&& forall|k: int|
        0 <= k < added(t.from, s).len() ==> t.safe(#[trigger] added(t.from, s)[k])
    &&& s.buffers.len() == t.line() + made(added(t.from, s))
    &&& asked(added(t.from, s)) == back
}

/// Whether two recordings have gone on in the same way, with as many buffers
/// made, and read nothing back.
spec fn linked(t: Shift, s: Recording, s2: Recording) -> bool {
    &&& 0 <= t.offset()
    &&& t.line() <= s.buffers.len()
    &&& s2.buffers.len() == s.buffers.len() + t.offset()
    &&& matched(t, s, s2, 0)
}

/// Whether two recordings have gone on in the same way, with as many buffers
/// made, and read three planes back.
spec fn ended(t: Shift, s: Recording, s2: Recording) -> bool {
    &&& 0 <= t.offset()
    &&& t.line() <= s.buffers.len()
    &&& s2.buffers.len() == s.buffers.len() + t.offset()
    &&& matched(t, s, s2, 3)
}

/// Whether the buffers of a recording can be numbered.
spec fn numbered(s: Recording) -> bool {
    s.buffers.len() <= usize::MAX
}

proof fn lemma_next_command(
    t: Shift,
    s: Recording,
    s2: Recording,
    n: Recording,
    n2: Recording,
    c: CommandSpec,
    back: nat,
)
    requires
        matched(t, s, s2, back),
        n.commands == s.commands.push(c),
        n2.commands == s2.commands.push(t.moved_command(c)),
        t.safe(c),
        n.buffers.len() == s.buffers.len() + if makes(c) {
            1int
        } else {
            0int
        },
    ensures
        matched(t, n, n2, back + reads(c)),
{
    reveal(matched);
    assert(added(t.from, n) =~= added(t.from, s).push(c));
    assert(added(t.from, n).drop_last() =~= added(t.from, s));
    assert(added(t.to, n2) =~= added(t.to, s2).push(t.moved_command(c)));
    assert(n.commands.take(t.from.commands.len() as int) =~= s.commands.take(
        t.from.commands.len() as int,
    ));
    assert(n2.commands.take(t.to.commands.len() as int) =~= s2.commands.take(
        t.to.commands.len() as int,
    ));
    assert forall|k: int| 0 <= k < added(t.from, n).len() implies #[trigger] added(t.to, n2)[k]
        == t.moved_command(added(t.from, n)[k]) by {
        if k < added(t.from, s).len() {
            assert(added(t.to, s2)[k] == t.moved_command(added(t.from, s)[k]));
        }
    }
    assert forall|k: int| 0 <= k < added(t.from, n).len() implies t.safe(
        #[trigger] added(t.from, n)[k],
    ) by {
        if k < added(t.from, s).len() {
            assert(t.safe(added(t.from, s)[k]));
        }
    }
}

proof fn lemma_empty(t: Shift, s: Recording, s2: Recording, bytes: int)
    requires
        linked(t, s, s2),
        numbered(s2.empty(bytes)),
    ensures
        linked(t, s.empty(bytes), s2.empty(bytes)),
        s2.next() == t.moved(s.next()),
        t.line() <= s.next().id == s.buffers.len(),
{
    let c = CommandSpec::Empty { bytes: bytes as u64 };
    lemma_next_command(t, s, s2, s.empty(bytes), s2.empty(bytes), c, 0);
}

proof fn lemma_create(t: Shift, s: Recording, s2: Recording, words: Seq<u32>)
    requires
        linked(t, s, s2),
        numbered(s2.create(words)),
    ensures
        linked(t, s.create(words), s2.create(words)),
        s2.next() == t.moved(s.next()),
        t.line() <= s.next().id == s.buffers.len(),
{
    let c = CommandSpec::Create { words };
    lemma_next_command(t, s, s2, s.create(words), s2.create(words), c, 0);
}

proof fn lemma_launch(t: Shift, s: Recording, s2: Recording, l: LaunchSpec, l2: LaunchSpec)
    requires
        linked(t, s, s2),
        numbered(s2),
        l2 == t.moved_launch(l),
        forall|j: int|
            0 <= j < l.arrays.len() ==> {
                &&& (#[trigger] l.arrays[j]).handle.id < s.buffers.len()
                &&& writes(l.kernel, j) ==> l.arrays[j].handle.id >= t.line()
            },
    ensures
        linked(t, s.launch(l), s2.launch(l2)),
{
    let c = CommandSpec::Launch { launch: l };
    assert forall|j: int| 0 <= j < l.arrays.len() implies #[trigger] t.safe_array(
        l.kernel,
        l.arrays,
        j,
    ) by {
        assert(l.arrays[j].handle.id < s.buffers.len());
    }
    lemma_next_command(t, s, s2, s.launch(l), s2.launch(l2), c, 0);
}

proof fn lemma_read(
    t: Shift,
    s: Recording,
    s2: Recording,
    handles: Seq<Handle>,
    others: Seq<Handle>,
)
    requires
        linked(t, s, s2),
        numbered(s2),
        others.len() == handles.len() == 3,
        forall|i: int| 0 <= i < handles.len() ==> #[trigger] others[i] == t.moved(handles[i]),
        forall|i: int| 0 <= i < handles.len() ==> (#[trigger] handles[i]).id < s.buffers.len(),
    ensures
        ended(t, s.read(handles), s2.read(others)),
{
    let c = CommandSpec::Read { handles };
    assert(others =~= Seq::new(handles.len(), |i: int| t.moved(handles[i])));
    assert forall|i: int| 0 <= i < handles.len() implies t.countable(#[trigger] handles[i]) by {
        assert(handles[i].id < s.buffers.len());
    }
    lemma_next_command(t, s, s2, s.read(handles), s2.read(others), c, 0);
}

/// Whether a buffer of one recording is that buffer of the other.
spec fn same(t: Shift, s: Recording, h: Handle, h2: Handle) -> bool {
    h.id < s.buffers.len() && h2 == t.moved(h)
}

spec fn same_plane(t: Shift, s: Recording, p: GpuPlane, p2: GpuPlane) -> bool {
    same(t, s, p.handle, p2.handle) && p2.width == p.width && p2.height == p.height
}

spec fn same_planes(t: Shift, s: Recording, p: Planes, p2: Planes) -> bool {
    same_plane(t, s, p.0, p2.0) && same_plane(t, s, p.1, p2.1) && same_plane(t, s, p.2, p2.2)
}

spec fn same_blocks(t: Shift, s: Recording, b: GpuBlocks, b2: GpuBlocks) -> bool {
    &&& same(t, s, b.handle, b2.handle)
    &&& b2.num_blocks == b.num_blocks
    &&& b2.coeffs_per_block == b.coeffs_per_block
}

spec fn same_three(t: Shift, s: Recording, b: Blocks, b2: Blocks) -> bool {
    same_blocks(t, s, b.0, b2.0) && same_blocks(t, s, b.1, b2.1) && same_blocks(t, s, b.2, b2.2)
}

spec fn same_ints(t: Shift, s: Recording, b: GpuI32Blocks, b2: GpuI32Blocks) -> bool {
    &&& same(t, s, b.handle, b2.handle)
    &&& b2.num_blocks == b.num_blocks
    &&& b2.coeffs_per_block == b.coeffs_per_block
}

proof fn lemma_xyb_forward(
    t: Shift,
    s: Recording,
    s2: Recording,
    red: GpuPlane,
    green: GpuPlane,
    blue: GpuPlane,
    red2: GpuPlane,
    green2: GpuPlane,
    blue2: GpuPlane,
)
    ensures
        ({
            let r = xyb_from_linear_rgb_persistent_steps(s, red, green, blue);
            let r2 = xyb_from_linear_rgb_persistent_steps(s2, red2, green2, blue2);
            &&& r2.0.buffers.len() >= s2.buffers.len()
            &&& ({
                &&& linked(t, s, s2)
                &&& numbered(r2.0)
                &&& same_plane(t, s, red, red2)
                &&& same_plane(t, s, green, green2)
                &&& same_plane(t, s, blue, blue2)
            }) ==> {
                &&& linked(t, r.0, r2.0)
                &&& same_planes(t, r.0, r.1, r2.1)
                &&& r.1.0.handle.id >= t.line()
                &&& r.1.1.handle.id >= t.line()
                &&& r.1.2.handle.id >= t.line()
            }
        }),
{
    reveal(xyb_from_linear_rgb_persistent_steps);
    let one1 = s.empty(red.width * red.height * 4);
    let two1 = s2.empty(red2.width * red2.height * 4);
    let one2 = one1.empty(red.width * red.height * 4);
    let two2 = two1.empty(red2.width * red2.height * 4);
    let one3 = one2.empty(red.width * red.height * 4);
    let two3 = two2.empty(red2.width * red2.height * 4);
    let l = xyb_forward_launch(
        red.handle,
        green.handle,
        blue.handle,
        s.next(),
        one1.next(),
        one2.next(),
        (red.width * red.height) as u32,
    );
    let l2 = xyb_forward_launch(
        red2.handle,
        green2.handle,
        blue2.handle,
        s2.next(),
        two1.next(),
        two2.next(),
        (red2.width * red2.height) as u32,
    );
    if linked(t, s, s2)
        && numbered(two3)
        && same_plane(t, s, red, red2)
        && same_plane(t, s, green, green2)
        && same_plane(t, s, blue, blue2)
    {
        lemma_empty(t, s, s2, red.width * red.height * 4);
        lemma_empty(t, one1, two1, red.width * red.height * 4);
        lemma_empty(t, one2, two2, red.width * red.height * 4);
        assert(l2.arrays =~= t.moved_arrays(l.arrays));
        assert(l2.scalars =~= l.scalars);
        lemma_launch(t, one3, two3, l, l2);
    }
}

proof fn lemma_xyb_inverse(
    t: Shift,
    s: Recording,
    s2: Recording,
    x: GpuPlane,
    y: GpuPlane,
    b: GpuPlane,
    x2: GpuPlane,
    y2: GpuPlane,
    b2: GpuPlane,
)
    ensures
        ({
            let r = xyb_to_linear_rgb_planar_persistent_steps(s, x, y, b);
            let r2 = xyb_to_linear_rgb_planar_persistent_steps(s2, x2, y2, b2);
            &&& r2.0.buffers.len() >= s2.buffers.len()
            &&& ({
                &&& linked(t, s, s2)
                &&& numbered(r2.0)
                &&& same_plane(t, s, x, x2)
                &&& same_plane(t, s, y, y2)
                &&& same_plane(t, s, b, b2)
            }) ==> {
                &&& linked(t, r.0, r2.0)
                &&& same_planes(t, r.0, r.1, r2.1)
                &&& r.1.0.handle.id >= t.line()
                &&& r.1.1.handle.id >= t.line()
                &&& r.1.2.handle.id >= t.line()
            }
        }),
{
    reveal(xyb_to_linear_rgb_planar_persistent_steps);
    let one1 = s.empty(x.width * x.height * 4);
    let two1 = s2.empty(x2.width * x2.height * 4);
    let one2 = one1.empty(x.width * x.height * 4);
    let two2 = two1.empty(x2.width * x2.height * 4);
    let one3 = one2.empty(x.width * x.height * 4);
    let two3 = two2.empty(x2.width * x2.height * 4);
    let l = xyb_inverse_launch(
        x.handle,
        y.handle,
        b.handle,
        s.next(),
        one1.next(),
        one2.next(),
        (x.width * x.height) as u32,
    );
    let l2 = xyb_inverse_launch(
        x2.handle,
        y2.handle,
        b2.handle,
        s2.next(),
        two1.next(),
        two2.next(),
        (x2.width * x2.height) as u32,
    );
    if linked(t, s, s2)
        && numbered(two3)
        && same_plane(t, s, x, x2)
        && same_plane(t, s, y, y2)
        && same_plane(t, s, b, b2)
    {
        lemma_empty(t, s, s2, x.width * x.height * 4);
        lemma_empty(t, one1, two1, x.width * x.height * 4);
        lemma_empty(t, one2, two2, x.width * x.height * 4);
        assert(l2.arrays =~= t.moved_arrays(l.arrays));
        assert(l2.scalars =~= l.scalars);
        lemma_launch(t, one3, two3, l, l2);
    }
}

proof fn lemma_gaborish(
    t: Shift,
    s: Recording,
    s2: Recording,
    p: GpuPlane,
    w: GaborishWeights,
    p2: GpuPlane,
)
    ensures
        ({
            let r = gaborish_5x5_persistent_steps(s, p, w);
            let r2 = gaborish_5x5_persistent_steps(s2, p2, w);
            &&& r2.0.buffers.len() >= s2.buffers.len()
            &&& ({
                &&& linked(t, s, s2)
                &&& numbered(r2.0)
                &&& same_plane(t, s, p, p2)
            }) ==> {
                &&& linked(t, r.0, r2.0)
                &&& same_plane(t, r.0, r.1, r2.1)
                &&& r.1.handle.id >= t.line()
            }
        }),
{
    reveal(gaborish_5x5_persistent_steps);
    let one1 = s.empty(p.width * p.height * 4);
    let two1 = s2.empty(p2.width * p2.height * 4);
    let l = gaborish_5x5_launch(
        p.handle,
        s.next(),
        p.width,
        p.height,
        w.wc,
        w.wr,
        w.wd,
        w.w_big_r,
        w.wl,
        w.w_big_d,
    );
    let l2 = gaborish_5x5_launch(
        p2.handle,
        s2.next(),
        p2.width,
        p2.height,
        w.wc,
        w.wr,
        w.wd,
        w.w_big_r,
        w.wl,
        w.w_big_d,
    );
    if linked(t, s, s2) && numbered(two1) && same_plane(t, s, p, p2) {
        lemma_empty(t, s, s2, p.width * p.height * 4);
        assert(l2.arrays =~= t.moved_arrays(l.arrays));
        assert(l2.scalars =~= l.scalars);
        lemma_launch(t, one1, two1, l, l2);
    }
}

proof fn lemma_gab_smooth(
    t: Shift,
    s: Recording,
    s2: Recording,
    p: GpuPlane,
    w0: Float32,
    w1: Float32,
    w2: Float32,
    p2: GpuPlane,
)
    ensures
        ({
            let r = gab_smooth_persistent_steps(s, p, w0, w1, w2);
            let r2 = gab_smooth_persistent_steps(s2, p2, w0, w1, w2);
            &&& r2.0.buffers.len() >= s2.buffers.len()
            &&& ({
                &&& linked(t, s, s2)
                &&& numbered(r2.0)
                &&& same_plane(t, s, p, p2)
            }) ==> {
                &&& linked(t, r.0, r2.0)
                &&& same_plane(t, r.0, r.1, r2.1)
                &&& r.1.handle.id >= t.line()
            }
        }),
{
    reveal(gab_smooth_persistent_steps);
    let one1 = s.empty(p.width * p.height * 4);
    let two1 = s2.empty(p2.width * p2.height * 4);
    let l = gab_smooth_launch(p.handle, s.next(), p.width, p.height, w0, w1, w2);
    let l2 = gab_smooth_launch(p2.handle, s2.next(), p2.width, p2.height, w0, w1, w2);
    if linked(t, s, s2) && numbered(two1) && same_plane(t, s, p, p2) {
        lemma_empty(t, s, s2, p.width * p.height * 4);
        assert(l2.arrays =~= t.moved_arrays(l.arrays));
        assert(l2.scalars =~= l.scalars);
        lemma_launch(t, one1, two1, l, l2);
    }
}

proof fn lemma_gather(
    t: Shift,
    s: Recording,
    s2: Recording,
    p: GpuPlane,
    tw: u32,
    th: u32,
    p2: GpuPlane,
)
    ensures
        ({
            let r = gather_blocks_persistent_steps(s, p, tw, th);
            let r2 = gather_blocks_persistent_steps(s2, p2, tw, th);
            &&& r2.0.buffers.len() >= s2.buffers.len()
            &&& ({
                &&& linked(t, s, s2)
                &&& numbered(r2.0)
                &&& same_plane(t, s, p, p2)
            }) ==> {
                &&& linked(t, r.0, r2.0)
                &&& same_blocks(t, r.0, r.1, r2.1)
                &&& r.1.handle.id >= t.line()
            }
        }),
{
    reveal(gather_blocks_persistent_steps);
    let one1 = s.empty(((p.width / tw) * (p.height / th)) * (tw * th) * 4);
    let two1 = s2.empty(((p2.width / tw) * (p2.height / th)) * (tw * th) * 4);
    let l = gather_blocks_launch(
        p.handle,
        s.next(),
        (p.width * p.height) as u64,
        (((p.width / tw) * (p.height / th)) * (tw * th)) as u64,
        p.width,
        p.width / tw,
        tw,
        th,
    );
    let l2 = gather_blocks_launch(
        p2.handle,
        s2.next(),
        (p2.width * p2.height) as u64,
        (((p2.width / tw) * (p2.height / th)) * (tw * th)) as u64,
        p2.width,
        p2.width / tw,
        tw,
        th,
    );
    if linked(t, s, s2) && numbered(two1) && same_plane(t, s, p, p2) {
        lemma_empty(t, s, s2, ((p.width / tw) * (p.height / th)) * (tw * th) * 4);
        assert(l2.arrays =~= t.moved_arrays(l.arrays));
        assert(l2.scalars =~= l.scalars);
        lemma_launch(t, one1, two1, l, l2);
    }
}

proof fn lemma_scatter(
    t: Shift,
    s: Recording,
    s2: Recording,
    b: GpuBlocks,
    w: u32,
    h: u32,
    tw: u32,
    th: u32,
    b2: GpuBlocks,
)
    ensures
        ({
            let r = scatter_blocks_persistent_steps(s, b, w, h, tw, th);
            let r2 = scatter_blocks_persistent_steps(s2, b2, w, h, tw, th);
            &&& r2.0.buffers.len() >= s2.buffers.len()
            &&& ({
                &&& linked(t, s, s2)
                &&& numbered(r2.0)
                &&& same_blocks(t, s, b, b2)
            }) ==> {
                &&& linked(t, r.0, r2.0)
                &&& same_plane(t, r.0, r.1, r2.1)
                &&& r.1.handle.id >= t.line()
            }
        }),
{
    reveal(scatter_blocks_persistent_steps);
    let one1 = s.empty(w * h * 4);
    let two1 = s2.empty(w * h * 4);
    let l = scatter_blocks_launch(
        b.handle,
        s.next(),
        (b.num_blocks * b.coeffs_per_block) as u64,
        (w * h) as u64,
        w,
        w / tw,
        tw,
        th,
    );
    let l2 = scatter_blocks_launch(
        b2.handle,
        s2.next(),
        (b2.num_blocks * b2.coeffs_per_block) as u64,
        (w * h) as u64,
        w,
        w / tw,
        tw,
        th,
    );
    if linked(t, s, s2) && numbered(two1) && same_blocks(t, s, b, b2) {
        lemma_empty(t, s, s2, w * h * 4);
        assert(l2.arrays =~= t.moved_arrays(l.arrays));
        assert(l2.scalars =~= l.scalars);
        lemma_launch(t, one1, two1, l, l2);
    }
}

proof fn lemma_dct(
    t: Shift,
    s: Recording,
    s2: Recording,
    b: GpuBlocks,
    b2: GpuBlocks,
)
    ensures
        ({
            let r = dct_8x8_wide_persistent_steps(s, b);
            let r2 = dct_8x8_wide_persistent_steps(s2, b2);
            &&& r2.0.buffers.len() >= s2.buffers.len()
            &&& ({
                &&& linked(t, s, s2)
                &&& numbered(r2.0)
                &&& same_blocks(t, s, b, b2)
            }) ==> {
                &&& linked(t, r.0, r2.0)
                &&& same_blocks(t, r.0, r.1, r2.1)
                &&& r.1.handle.id >= t.line()
            }
        }),
{
    reveal(dct_8x8_wide_persistent_steps);
    let one1 = s.empty(b.num_blocks * 64 * 4);
    let two1 = s2.empty(b2.num_blocks * 64 * 4);
    let l = dct_8x8_wide_launch(b.handle, s.next(), b.num_blocks);
    let l2 = dct_8x8_wide_launch(b2.handle, s2.next(), b2.num_blocks);
    if linked(t, s, s2) && numbered(two1) && same_blocks(t, s, b, b2) {
        lemma_empty(t, s, s2, b.num_blocks * 64 * 4);
        assert(l2.arrays =~= t.moved_arrays(l.arrays));
        assert(l2.scalars =~= l.scalars);
        lemma_launch(t, one1, two1, l, l2);
    }
}

proof fn lemma_idct(
    t: Shift,
    s: Recording,
    s2: Recording,
    b: GpuBlocks,
    b2: GpuBlocks,
)
    ensures
        ({
            let r = idct_8x8_wide_persistent_steps(s, b);
            let r2 = idct_8x8_wide_persistent_steps(s2, b2);
            &&& r2.0.buffers.len() >= s2.buffers.len()
            &&& ({
                &&& linked(t, s, s2)
                &&& numbered(r2.0)
                &&& same_blocks(t, s, b, b2)
            }) ==> {
                &&& linked(t, r.0, r2.0)
                &&& same_blocks(t, r.0, r.1, r2.1)
                &&& r.1.handle.id >= t.line()
            }
        }),
{
    reveal(idct_8x8_wide_persistent_steps);
    let one1 = s.empty(b.num_blocks * 64 * 4);
    let two1 = s2.empty(b2.num_blocks * 64 * 4);
    let l = idct_8x8_wide_launch(b.handle, s.next(), b.num_blocks);
    let l2 = idct_8x8_wide_launch(b2.handle, s2.next(), b2.num_blocks);
    if linked(t, s, s2) && numbered(two1) && same_blocks(t, s, b, b2) {
        lemma_empty(t, s, s2, b.num_blocks * 64 * 4);
        assert(l2.arrays =~= t.moved_arrays(l.arrays));
        assert(l2.scalars =~= l.scalars);
        lemma_launch(t, one1, two1, l, l2);
    }
}

proof fn lemma_pad_plane(
    t: Shift,
    s: Recording,
    s2: Recording,
    p: GpuPlane,
    pad: u32,
    p2: GpuPlane,
)
    ensures
        ({
            let r = pad_plane_persistent_steps(s, p, pad);
            let r2 = pad_plane_persistent_steps(s2, p2, pad);
            &&& r2.0.buffers.len() >= s2.buffers.len()
            &&& ({
                &&& linked(t, s, s2)
                &&& numbered(r2.0)
                &&& same_plane(t, s, p, p2)
            }) ==> {
                &&& linked(t, r.0, r2.0)
                &&& same_plane(t, r.0, r.1, r2.1)
                &&& r.1.handle.id >= t.line()
            }
        }),
{
    reveal(pad_plane_persistent_steps);
    let one1 = s.empty((p.width + 2 * pad) * (p.height + 2 * pad) * 4);
    let two1 = s2.empty((p2.width + 2 * pad) * (p2.height + 2 * pad) * 4);
    let l = pad_plane_launch(p.handle, s.next(), p.width, p.height, pad);
    let l2 = pad_plane_launch(p2.handle, s2.next(), p2.width, p2.height, pad);
    if linked(t, s, s2) && numbered(two1) && same_plane(t, s, p, p2) {
        lemma_empty(t, s, s2, (p.width + 2 * pad) * (p.height + 2 * pad) * 4);
        assert(l2.arrays =~= t.moved_arrays(l.arrays));
        assert(l2.scalars =~= l.scalars);
        lemma_launch(t, one1, two1, l, l2);
    }
}

proof fn lemma_quantize(
    t: Shift,
    s: Recording,
    s2: Recording,
    c: GpuBlocks,
    w: GpuBlocks,
    q: Seq<Float32>,
    th: Seq<Float32>,
    c2: GpuBlocks,
    w2: GpuBlocks,
)
    ensures
        ({
            let r = quantize_dct8_persistent_broadcast_w_steps(s, c, w, q, th);
            let r2 = quantize_dct8_persistent_broadcast_w_steps(s2, c2, w2, q, th);
            &&& r2.0.buffers.len() >= s2.buffers.len()
            &&& ({
                &&& linked(t, s, s2)
                &&& numbered(r2.0)
                &&& same_blocks(t, s, c, c2)
                &&& same_blocks(t, s, w, w2)
            }) ==> {
                &&& linked(t, r.0, r2.0)
                &&& same_ints(t, r.0, r.1, r2.1)
                &&& r.1.handle.id >= t.line()
            }
        }),
{
    reveal(quantize_dct8_persistent_broadcast_w_steps);
    let one1 = s.create(bits_of(q));
    let two1 = s2.create(bits_of(q));
    let one2 = one1.create(bits_of(th));
    let two2 = two1.create(bits_of(th));
    let one3 = one2.empty(c.num_blocks * 64 * 4);
    let two3 = two2.empty(c2.num_blocks * 64 * 4);
    let l = quantize_dct8_broadcast_w_launch(
        c.handle,
        w.handle,
        s.next(),
        one1.next(),
        one2.next(),
        c.num_blocks,
    );
    let l2 = quantize_dct8_broadcast_w_launch(
        c2.handle,
        w2.handle,
        s2.next(),
        two1.next(),
        two2.next(),
        c2.num_blocks,
    );
    if linked(t, s, s2) && numbered(two3) && same_blocks(t, s, c, c2) && same_blocks(t, s, w, w2) {
        lemma_create(t, s, s2, bits_of(q));
        lemma_create(t, one1, two1, bits_of(th));
        lemma_empty(t, one2, two2, c.num_blocks * 64 * 4);
        assert(l2.arrays =~= t.moved_arrays(l.arrays));
        assert(l2.scalars =~= l.scalars);
        lemma_launch(t, one3, two3, l, l2);
    }
}

proof fn lemma_dequant(
    t: Shift,
    s: Recording,
    s2: Recording,
    qx: GpuI32Blocks,
    qy: GpuI32Blocks,
    qb: GpuI32Blocks,
    wx: GpuBlocks,
    wy: GpuBlocks,
    wb: GpuBlocks,
    ax: Seq<Float32>,
    ay: Seq<Float32>,
    ab: Seq<Float32>,
    fx: Seq<Float32>,
    fb: Seq<Float32>,
    qx2: GpuI32Blocks,
    qy2: GpuI32Blocks,
    qb2: GpuI32Blocks,
    wx2: GpuBlocks,
    wy2: GpuBlocks,
    wb2: GpuBlocks,
)
    ensures
        ({
            let r = dequant_dct8_persistent_broadcast_w_steps(
                s,
                qx,
                qy,
                qb,
                wx,
                wy,
                wb,
                ax,
                ay,
                ab,
                fx,
                fb,
            );
            let r2 = dequant_dct8_persistent_broadcast_w_steps(
                s2,
                qx2,
                qy2,
                qb2,
                wx2,
                wy2,
                wb2,
                ax,
                ay,
                ab,
                fx,
                fb,
            );
            &&& r2.0.buffers.len() >= s2.buffers.len()
            &&& ({
                &&& linked(t, s, s2)
                &&& numbered(r2.0)
                &&& same_ints(t, s, qx, qx2)
                &&& same_ints(t, s, qy, qy2)
                &&& same_ints(t, s, qb, qb2)
                &&& same_blocks(t, s, wx, wx2)
                &&& same_blocks(t, s, wy, wy2)
                &&& same_blocks(t, s, wb, wb2)
            }) ==> {
                &&& linked(t, r.0, r2.0)
                &&& same_three(t, r.0, r.1, r2.1)
                &&& r.1.0.handle.id >= t.line()
                &&& r.1.1.handle.id >= t.line()
                &&& r.1.2.handle.id >= t.line()
            }
        }),
{
    reveal(dequant_dct8_persistent_broadcast_w_steps);
    let one1 = s.create(bits_of(ax));
    let two1 = s2.create(bits_of(ax));
    let one2 = one1.create(bits_of(ay));
    let two2 = two1.create(bits_of(ay));
    let one3 = one2.create(bits_of(ab));
    let two3 = two2.create(bits_of(ab));
    let one4 = one3.create(bits_of(fx));
    let two4 = two3.create(bits_of(fx));
    let one5 = one4.create(bits_of(fb));
    let two5 = two4.create(bits_of(fb));
    let one6 = one5.empty(qx.num_blocks * 64 * 4);
    let two6 = two5.empty(qx2.num_blocks * 64 * 4);
    let one7 = one6.empty(qx.num_blocks * 64 * 4);
    let two7 = two6.empty(qx2.num_blocks * 64 * 4);
    let one8 = one7.empty(qx.num_blocks * 64 * 4);
    let two8 = two7.empty(qx2.num_blocks * 64 * 4);
    let l = dequant_dct8_broadcast_w_launch(
        qx.handle,
        qy.handle,
        qb.handle,
        wx.handle,
        wy.handle,
        wb.handle,
        s.next(),
        one1.next(),
        one2.next(),
        one3.next(),
        one4.next(),
        one5.next(),
        one6.next(),
        one7.next(),
        qx.num_blocks,
    );
    let l2 = dequant_dct8_broadcast_w_launch(
        qx2.handle,
        qy2.handle,
        qb2.handle,
        wx2.handle,
        wy2.handle,
        wb2.handle,
        s2.next(),
        two1.next(),
        two2.next(),
        two3.next(),
        two4.next(),
        two5.next(),
        two6.next(),
        two7.next(),
        qx2.num_blocks,
    );
    if linked(t, s, s2)
        && numbered(two8)
        && same_ints(t, s, qx, qx2)
        && same_ints(t, s, qy, qy2)
        && same_ints(t, s, qb, qb2)
        && same_blocks(t, s, wx, wx2)
        && same_blocks(t, s, wy, wy2)
        && same_blocks(t, s, wb, wb2)
    {
        lemma_create(t, s, s2, bits_of(ax));
        lemma_create(t, one1, two1, bits_of(ay));
        lemma_create(t, one2, two2, bits_of(ab));
        lemma_create(t, one3, two3, bits_of(fx));
        lemma_create(t, one4, two4, bits_of(fb));
        lemma_empty(t, one5, two5, qx.num_blocks * 64 * 4);
        lemma_empty(t, one6, two6, qx.num_blocks * 64 * 4);
        lemma_empty(t, one7, two7, qx.num_blocks * 64 * 4);
        assert(l2.arrays =~= t.moved_arrays(l.arrays));
        assert(l2.scalars =~= l.scalars);
        lemma_launch(t, one8, two8, l, l2);
    }
}

proof fn lemma_restore_dc(
    t: Shift,
    s: Recording,
    s2: Recording,
    a: GpuBlocks,
    b: GpuBlocks,
    a2: GpuBlocks,
    b2: GpuBlocks,
)
    ensures
        ({
            let r = restore_dc_persistent_steps(s, a, b);
            let r2 = restore_dc_persistent_steps(s2, a2, b2);
            &&& r2.buffers.len() >= s2.buffers.len()
            &&& ({
                &&& linked(t, s, s2)
                &&& numbered(r2)
                &&& same_blocks(t, s, a, a2)
                &&& same_blocks(t, s, b, b2)
                &&& b.handle.id >= t.line()
            }) ==> {
                &&& linked(t, r, r2)
            }
        }),
{
    reveal(restore_dc_persistent_steps);
    let l = restore_dc_launch(a.handle, b.handle, a.coeffs_per_block, a.num_blocks);
    let l2 = restore_dc_launch(a2.handle, b2.handle, a2.coeffs_per_block, a2.num_blocks);
    if linked(t, s, s2)
        && numbered(s2)
        && same_blocks(t, s, a, a2)
        && same_blocks(t, s, b, b2)
        && b.handle.id >= t.line()
    {
        assert(l2.arrays =~= t.moved_arrays(l.arrays));
        assert(l2.scalars =~= l.scalars);
        lemma_launch(t, s, s2, l, l2);
    }
}

proof fn lemma_epf_step1(
    t: Shift,
    s: Recording,
    s2: Recording,
    x: GpuPlane,
    y: GpuPlane,
    b: GpuPlane,
    sigma: Handle,
    w: u32,
    h: u32,
    xb: u32,
    yb: u32,
    pad: u32,
    scale: Float32,
    mul: Float32,
    x2: GpuPlane,
    y2: GpuPlane,
    b2: GpuPlane,
    sigma2: Handle,
)
    ensures
        ({
            let r = epf_step1_persistent_steps(s, x, y, b, sigma, w, h, xb, yb, pad, scale, mul);
            let r2 = epf_step1_persistent_steps(
                s2,
                x2,
                y2,
                b2,
                sigma2,
                w,
                h,
                xb,
                yb,
                pad,
                scale,
                mul,
            );
            &&& r2.0.buffers.len() >= s2.buffers.len()
            &&& ({
                &&& linked(t, s, s2)
                &&& numbered(r2.0)
                &&& same_plane(t, s, x, x2)
                &&& same_plane(t, s, y, y2)
                &&& same_plane(t, s, b, b2)
                &&& same(t, s, sigma, sigma2)
            }) ==> {
                &&& linked(t, r.0, r2.0)
                &&& same_planes(t, r.0, r.1, r2.1)
                &&& r.1.0.handle.id >= t.line()
                &&& r.1.1.handle.id >= t.line()
                &&& r.1.2.handle.id >= t.line()
            }
        }),
{
    reveal(epf_step1_persistent_steps);
    let one1 = s.empty(w * h * 4);
    let two1 = s2.empty(w * h * 4);
    let one2 = one1.empty(w * h * 4);
    let two2 = two1.empty(w * h * 4);
    let one3 = one2.empty(w * h * 4);
    let two3 = two2.empty(w * h * 4);
    let l = epf_step1_launch(
        x.handle,
        y.handle,
        b.handle,
        s.next(),
        one1.next(),
        one2.next(),
        sigma,
        w,
        h,
        xb,
        yb,
        pad,
        scale,
        mul,
    );
    let l2 = epf_step1_launch(
        x2.handle,
        y2.handle,
        b2.handle,
        s2.next(),
        two1.next(),
        two2.next(),
        sigma2,
        w,
        h,
        xb,
        yb,
        pad,
        scale,
        mul,
    );
    if linked(t, s, s2)
        && numbered(two3)
        && same_plane(t, s, x, x2)
        && same_plane(t, s, y, y2)
        && same_plane(t, s, b, b2)
        && same(t, s, sigma, sigma2)
    {
        lemma_empty(t, s, s2, w * h * 4);
        lemma_empty(t, one1, two1, w * h * 4);
        lemma_empty(t, one2, two2, w * h * 4);
        assert(l2.arrays =~= t.moved_arrays(l.arrays));
        assert(l2.scalars =~= l.scalars);
        lemma_launch(t, one3, two3, l, l2);
    }
}

proof fn lemma_epf_step2(
    t: Shift,
    s: Recording,
    s2: Recording,
    x: GpuPlane,
    y: GpuPlane,
    b: GpuPlane,
    sigma: Handle,
    w: u32,
    h: u32,
    xb: u32,
    yb: u32,
    pad: u32,
    scale: Float32,
    mul: Float32,
    x2: GpuPlane,
    y2: GpuPlane,
    b2: GpuPlane,
    sigma2: Handle,
)
    ensures
        ({
            let r = epf_step2_persistent_steps(s, x, y, b, sigma, w, h, xb, yb, pad, scale, mul);
            let r2 = epf_step2_persistent_steps(
                s2,
                x2,
                y2,
                b2,
                sigma2,
                w,
                h,
                xb,
                yb,
                pad,
                scale,
                mul,
            );
            &&& r2.0.buffers.len() >= s2.buffers.len()
            &&& ({
                &&& linked(t, s, s2)
                &&& numbered(r2.0)
                &&& same_plane(t, s, x, x2)
                &&& same_plane(t, s, y, y2)
                &&& same_plane(t, s, b, b2)
                &&& same(t, s, sigma, sigma2)
            }) ==> {
                &&& linked(t, r.0, r2.0)
                &&& same_planes(t, r.0, r.1, r2.1)
                &&& r.1.0.handle.id >= t.line()
                &&& r.1.1.handle.id >= t.line()
                &&& r.1.2.handle.id >= t.line()
            }
        }),
{
    reveal(epf_step2_persistent_steps);
    let one1 = s.empty(w * h * 4);
    let two1 = s2.empty(w * h * 4);
    let one2 = one1.empty(w * h * 4);
    let two2 = two1.empty(w * h * 4);
    let one3 = one2.empty(w * h * 4);
    let two3 = two2.empty(w * h * 4);
    let l = epf_step2_launch(
        x.handle,
        y.handle,
        b.handle,
        s.next(),
        one1.next(),
        one2.next(),
        sigma,
        w,
        h,
        xb,
        yb,
        pad,
        scale,
        mul,
    );
    let l2 = epf_step2_launch(
        x2.handle,
        y2.handle,
        b2.handle,
        s2.next(),
        two1.next(),
        two2.next(),
        sigma2,
        w,
        h,
        xb,
        yb,
        pad,
        scale,
        mul,
    );
    if linked(t, s, s2)
        && numbered(two3)
        && same_plane(t, s, x, x2)
        && same_plane(t, s, y, y2)
        && same_plane(t, s, b, b2)
        && same(t, s, sigma, sigma2)
    {
        lemma_empty(t, s, s2, w * h * 4);
        lemma_empty(t, one1, two1, w * h * 4);
        lemma_empty(t, one2, two2, w * h * 4);
        assert(l2.arrays =~= t.moved_arrays(l.arrays));
        assert(l2.scalars =~= l.scalars);
        lemma_launch(t, one3, two3, l, l2);
    }
}

proof fn lemma_gab_smooth_3ch(
    t: Shift,
    s: Recording,
    s2: Recording,
    x: GpuPlane,
    y: GpuPlane,
    b: GpuPlane,
    w0: Float32,
    w1: Float32,
    w2: Float32,
    x2: GpuPlane,
    y2: GpuPlane,
    b2: GpuPlane,
)
    ensures
        ({
            let r = gab_smooth_3ch_persistent_steps(s, x, y, b, w0, w1, w2);
            let r2 = gab_smooth_3ch_persistent_steps(s2, x2, y2, b2, w0, w1, w2);
            &&& r2.0.buffers.len() >= s2.buffers.len()
            &&& ({
                &&& linked(t, s, s2)
                &&& numbered(r2.0)
                &&& same_plane(t, s, x, x2)
                &&& same_plane(t, s, y, y2)
                &&& same_plane(t, s, b, b2)
            }) ==> {
                &&& linked(t, r.0, r2.0)
                &&& same_planes(t, r.0, r.1, r2.1)
                &&& r.1.0.handle.id >= t.line()
                &&& r.1.1.handle.id >= t.line()
                &&& r.1.2.handle.id >= t.line()
            }
        }),
{
    reveal(gab_smooth_3ch_persistent_steps);
    let one1 = s.empty(x.width * x.height * 4);
    let two1 = s2.empty(x2.width * x2.height * 4);
    let one2 = one1.empty(x.width * x.height * 4);
    let two2 = two1.empty(x2.width * x2.height * 4);
    let one3 = one2.empty(x.width * x.height * 4);
    let two3 = two2.empty(x2.width * x2.height * 4);
    let l = gab_smooth_3ch_launch(
        x.handle,
        y.handle,
        b.handle,
        s.next(),
        one1.next(),
        one2.next(),
        x.width,
        x.height,
        w0,
        w1,
        w2,
    );
    let l2 = gab_smooth_3ch_launch(
        x2.handle,
        y2.handle,
        b2.handle,
        s2.next(),
        two1.next(),
        two2.next(),
        x2.width,
        x2.height,
        w0,
        w1,
        w2,
    );
    if linked(t, s, s2)
        && numbered(two3)
        && same_plane(t, s, x, x2)
        && same_plane(t, s, y, y2)
        && same_plane(t, s, b, b2)
    {
        lemma_empty(t, s, s2, x.width * x.height * 4);
        lemma_empty(t, one1, two1, x.width * x.height * 4);
        lemma_empty(t, one2, two2, x.width * x.height * 4);
        assert(l2.arrays =~= t.moved_arrays(l.arrays));
        assert(l2.scalars =~= l.scalars);
        lemma_launch(t, one3, two3, l, l2);
    }
}

proof fn lemma_sharpened(
    t: Shift,
    s: Recording,
    s2: Recording,
    le: LossyEncoder,
    p: Planes,
    p2: Planes,
    on: bool,
)
    ensures
        ({
            let r = sharpened_steps(s, le, p, on);
            let r2 = sharpened_steps(s2, le, p2, on);
            &&& r2.0.buffers.len() >= s2.buffers.len()
            &&& linked(t, s, s2) && numbered(r2.0) && same_planes(t, s, p, p2) ==> {
                &&& linked(t, r.0, r2.0)
                &&& same_planes(t, r.0, r.1, r2.1)
            }
        }),
{
    reveal(sharpened_steps);
    let w = le.weights;
    let (a1, x) = gaborish_5x5_persistent_steps(s, p.0, w);
    let (b1, x2) = gaborish_5x5_persistent_steps(s2, p2.0, w);
    let (a2, y) = gaborish_5x5_persistent_steps(a1, p.1, w);
    let (b2, y2) = gaborish_5x5_persistent_steps(b1, p2.1, w);
    lemma_gaborish(t, s, s2, p.0, w, p2.0);
    lemma_gaborish(t, a1, b1, p.1, w, p2.1);
    lemma_gaborish(t, a2, b2, p.2, w, p2.2);
}

proof fn lemma_analysis(
    t: Shift,
    s: Recording,
    s2: Recording,
    le: LossyEncoder,
    p: Planes,
    p2: Planes,
    on: bool,
)
    ensures
        ({
            let r = analysis_steps(s, le, p.0, p.1, p.2, on);
            let r2 = analysis_steps(s2, le, p2.0, p2.1, p2.2, on);
            &&& r2.0.buffers.len() >= s2.buffers.len()
            &&& linked(t, s, s2) && numbered(r2.0) && same_planes(t, s, p, p2) ==> {
                &&& linked(t, r.0, r2.0)
                &&& same_three(t, r.0, r.1, r2.1)
            }
        }),
{
    reveal(analysis_steps);
    let (a1, x) = xyb_from_linear_rgb_persistent_steps(s, p.0, p.1, p.2);
    let (b1, x2) = xyb_from_linear_rgb_persistent_steps(s2, p2.0, p2.1, p2.2);
    lemma_xyb_forward(t, s, s2, p.0, p.1, p.2, p2.0, p2.1, p2.2);
    let (a4, q) = sharpened_steps(a1, le, x, on);
    let (b4, q2) = sharpened_steps(b1, le, x2, on);
    lemma_sharpened(t, a1, b1, le, x, x2, on);
    let (a5, gx) = gather_blocks_persistent_steps(a4, q.0, 8, 8);
    let (b5, gx2) = gather_blocks_persistent_steps(b4, q2.0, 8, 8);
    lemma_gather(t, a4, b4, q.0, 8, 8, q2.0);
    let (a6, gy) = gather_blocks_persistent_steps(a5, q.1, 8, 8);
    let (b6, gy2) = gather_blocks_persistent_steps(b5, q2.1, 8, 8);
    lemma_gather(t, a5, b5, q.1, 8, 8, q2.1);
    let (a7, gb) = gather_blocks_persistent_steps(a6, q.2, 8, 8);
    let (b7, gb2) = gather_blocks_persistent_steps(b6, q2.2, 8, 8);
    lemma_gather(t, a6, b6, q.2, 8, 8, q2.2);
    let (a8, cx) = dct_8x8_wide_persistent_steps(a7, gx);
    let (b8, cx2) = dct_8x8_wide_persistent_steps(b7, gx2);
    lemma_dct(t, a7, b7, gx, gx2);
    let (a9, cy) = dct_8x8_wide_persistent_steps(a8, gy);
    let (b9, cy2) = dct_8x8_wide_persistent_steps(b8, gy2);
    lemma_dct(t, a8, b8, gy, gy2);
    lemma_dct(t, a9, b9, gb, gb2);
}

/// Whether the quantization matrices of an encoder are common to both
/// recordings.
spec fn matrices_common(t: Shift, le: LossyEncoder) -> bool {
    &&& le.weights_x.handle.id < t.line()
    &&& le.weights_y.handle.id < t.line()
    &&& le.weights_b.handle.id < t.line()
}

proof fn lemma_synthesis(
    t: Shift,
    s: Recording,
    s2: Recording,
    le: LossyEncoder,
    c: Blocks,
    c2: Blocks,
    qac: Seq<Float32>,
)
    ensures
        ({
            let r = synthesis_steps(s, le, c, qac);
            let r2 = synthesis_steps(s2, le, c2, qac);
            &&& r2.0.buffers.len() >= s2.buffers.len()
            &&& linked(t, s, s2) && numbered(r2.0) && matrices_common(t, le) && same_three(
                t,
                s,
                c,
                c2,
            ) ==> {
                &&& linked(t, r.0, r2.0)
                &&& same_planes(t, r.0, r.1, r2.1)
            }
        }),
{
    reveal(synthesis_steps);
    let (wx, wy, wb) = (le.weights_x, le.weights_y, le.weights_b);
    let (tx, ty, tb) = (le.thresholds_x@, le.thresholds_y@, le.thresholds_b@);
    let (a1, qx) = quantize_dct8_persistent_broadcast_w_steps(s, c.0, wx, qac, tx);
    let (b1, qx2) = quantize_dct8_persistent_broadcast_w_steps(s2, c2.0, wx, qac, tx);
    lemma_quantize(t, s, s2, c.0, wx, qac, tx, c2.0, wx);
    let (a2, qy) = quantize_dct8_persistent_broadcast_w_steps(a1, c.1, wy, qac, ty);
    let (b2, qy2) = quantize_dct8_persistent_broadcast_w_steps(b1, c2.1, wy, qac, ty);
    lemma_quantize(t, a1, b1, c.1, wy, qac, ty, c2.1, wy);
    let (a3, qb) = quantize_dct8_persistent_broadcast_w_steps(a2, c.2, wb, qac, tb);
    let (b3, qb2) = quantize_dct8_persistent_broadcast_w_steps(b2, c2.2, wb, qac, tb);
    lemma_quantize(t, a2, b2, c.2, wb, qac, tb, c2.2, wb);
    let z = crate::pipeline::zeros(le.num_blocks as nat);
    let (a4, d) = dequant_dct8_persistent_broadcast_w_steps(
        a3,
        qx,
        qy,
        qb,
        wx,
        wy,
        wb,
        qac,
        qac,
        qac,
        z,
        z,
    );
    let (b4, d2) = dequant_dct8_persistent_broadcast_w_steps(
        b3,
        qx2,
        qy2,
        qb2,
        wx,
        wy,
        wb,
        qac,
        qac,
        qac,
        z,
        z,
    );
    lemma_dequant(
        t,
        a3,
        b3,
        qx,
        qy,
        qb,
        wx,
        wy,
        wb,
        qac,
        qac,
        qac,
        z,
        z,
        qx2,
        qy2,
        qb2,
        wx,
        wy,
        wb,
    );
    let a5 = restore_dc_persistent_steps(a4, c.0, d.0);
    let b5 = restore_dc_persistent_steps(b4, c2.0, d2.0);
    lemma_restore_dc(t, a4, b4, c.0, d.0, c2.0, d2.0);
    let a6 = restore_dc_persistent_steps(a5, c.1, d.1);
    let b6 = restore_dc_persistent_steps(b5, c2.1, d2.1);
    lemma_restore_dc(t, a5, b5, c.1, d.1, c2.1, d2.1);
    let a7 = restore_dc_persistent_steps(a6, c.2, d.2);
    let b7 = restore_dc_persistent_steps(b6, c2.2, d2.2);
    lemma_restore_dc(t, a6, b6, c.2, d.2, c2.2, d2.2);
    let (a8, x) = idct_8x8_wide_persistent_steps(a7, d.0);
    let (b8, x2) = idct_8x8_wide_persistent_steps(b7, d2.0);
    lemma_idct(t, a7, b7, d.0, d2.0);
    let (a9, y) = idct_8x8_wide_persistent_steps(a8, d.1);
    let (b9, y2) = idct_8x8_wide_persistent_steps(b8, d2.1);
    lemma_idct(t, a8, b8, d.1, d2.1);
    let (a10, b) = idct_8x8_wide_persistent_steps(a9, d.2);
    let (b10, bb2) = idct_8x8_wide_persistent_steps(b9, d2.2);
    lemma_idct(t, a9, b9, d.2, d2.2);
    let (w, h) = (le.padded_width, le.padded_height);
    let (a11, px) = scatter_blocks_persistent_steps(a10, x, w, h, 8, 8);
    let (b11, px2) = scatter_blocks_persistent_steps(b10, x2, w, h, 8, 8);
    lemma_scatter(t, a10, b10, x, w, h, 8, 8, x2);
    let (a12, py) = scatter_blocks_persistent_steps(a11, y, w, h, 8, 8);
    let (b12, py2) = scatter_blocks_persistent_steps(b11, y2, w, h, 8, 8);
    lemma_scatter(t, a11, b11, y, w, h, 8, 8, y2);
    lemma_scatter(t, a12, b12, b, w, h, 8, 8, bb2);
}

proof fn lemma_smoothed(
    t: Shift,
    s: Recording,
    s2: Recording,
    p: Planes,
    p2: Planes,
    f: FilterParameters,
    on: bool,
)
    ensures
        ({
            let r = smoothed_steps(s, p, f, on);
            let r2 = smoothed_steps(s2, p2, f, on);
            &&& r2.0.buffers.len() >= s2.buffers.len()
            &&& linked(t, s, s2) && numbered(r2.0) && same_planes(t, s, p, p2) ==> {
                &&& linked(t, r.0, r2.0)
                &&& same_planes(t, r.0, r.1, r2.1)
            }
        }),
{
    reveal(smoothed_steps);
    let (c, c1, c2) = (f.gab_center, f.gab_1, f.gab_2);
    let (a1, x) = gab_smooth_persistent_steps(s, p.0, c, c1, c2);
    let (b1, x2) = gab_smooth_persistent_steps(s2, p2.0, c, c1, c2);
    lemma_gab_smooth(t, s, s2, p.0, c, c1, c2, p2.0);
    let (a2, y) = gab_smooth_persistent_steps(a1, p.1, c, c1, c2);
    let (b2, y2) = gab_smooth_persistent_steps(b1, p2.1, c, c1, c2);
    lemma_gab_smooth(t, a1, b1, p.1, c, c1, c2, p2.1);
    lemma_gab_smooth(t, a2, b2, p.2, c, c1, c2, p2.2);
}

proof fn lemma_pad_three(t: Shift, s: Recording, s2: Recording, p: Planes, p2: Planes, pad: u32)
    ensures
        ({
            let r = pad_plane_3ch_steps(s, p.0, p.1, p.2, pad);
            let r2 = pad_plane_3ch_steps(s2, p2.0, p2.1, p2.2, pad);
            &&& r2.0.buffers.len() >= s2.buffers.len()
            &&& linked(t, s, s2) && numbered(r2.0) && same_planes(t, s, p, p2) ==> {
                &&& linked(t, r.0, r2.0)
                &&& same_planes(t, r.0, r.1, r2.1)
            }
        }),
{
    reveal(pad_plane_3ch_steps);
    let (a1, x) = pad_plane_persistent_steps(s, p.0, pad);
    let (b1, x2) = pad_plane_persistent_steps(s2, p2.0, pad);
    lemma_pad_plane(t, s, s2, p.0, pad, p2.0);
    let (a2, y) = pad_plane_persistent_steps(a1, p.1, pad);
    let (b2, y2) = pad_plane_persistent_steps(b1, p2.1, pad);
    lemma_pad_plane(t, a1, b1, p.1, pad, p2.1);
    lemma_pad_plane(t, a2, b2, p.2, pad, p2.2);
}

proof fn lemma_upload_inv_sigma(t: Shift, s: Recording, s2: Recording, inv_sigma: Seq<Float32>)
    ensures
        ({
            let r = upload_inv_sigma_steps(s, inv_sigma);
            let r2 = upload_inv_sigma_steps(s2, inv_sigma);
            &&& r2.0.buffers.len() >= s2.buffers.len()
            &&& linked(t, s, s2) && numbered(r2.0) ==> {
                &&& linked(t, r.0, r2.0)
                &&& same(t, r.0, r.1, r2.1)
            }
        }),
{
    reveal(upload_inv_sigma_steps);
    if linked(t, s, s2) && numbered(s2.create(bits_of(inv_sigma))) {
        lemma_create(t, s, s2, bits_of(inv_sigma));
    }
}

proof fn lemma_restoration(
    t: Shift,
    s: Recording,
    s2: Recording,
    le: LossyEncoder,
    p: Planes,
    p2: Planes,
    f: FilterParameters,
    inv_sigma: Seq<Float32>,
)
    ensures
        ({
            let r = restoration_steps(s, le, p, f, inv_sigma);
            let r2 = restoration_steps(s2, le, p2, f, inv_sigma);
            &&& r2.0.buffers.len() >= s2.buffers.len()
            &&& linked(t, s, s2) && numbered(r2.0) && same_planes(t, s, p, p2) ==> {
                &&& linked(t, r.0, r2.0)
                &&& same_planes(t, r.0, r.1, r2.1)
            }
        }),
{
    reveal(restoration_steps);
    let (w, h) = (le.padded_width, le.padded_height);
    let (xb, yb) = (w / 8, h / 8);
    let scale = crate::quality::float(crate::pipeline::EPF_SIGMA_SCALE);
    let scale2 = crate::float::product(f.epf_pass2_sigma_scale, scale);
    let m = f.epf_border_sad_mul;
    let (a1, sigma) = upload_inv_sigma_steps(s, inv_sigma);
    let (b1, sigma2) = upload_inv_sigma_steps(s2, inv_sigma);
    lemma_upload_inv_sigma(t, s, s2, inv_sigma);
    let (a2, q) = pad_plane_3ch_steps(a1, p.0, p.1, p.2, 2);
    let (b2, q2) = pad_plane_3ch_steps(b1, p2.0, p2.1, p2.2, 2);
    lemma_pad_three(t, a1, b1, p, p2, 2);
    let (a3, e) = epf_step1_persistent_steps(
        a2,
        q.0,
        q.1,
        q.2,
        sigma,
        w,
        h,
        xb,
        yb,
        2,
        scale,
        m,
    );
    let (b3, e2) = epf_step1_persistent_steps(
        b2,
        q2.0,
        q2.1,
        q2.2,
        sigma2,
        w,
        h,
        xb,
        yb,
        2,
        scale,
        m,
    );
    lemma_epf_step1(
        t,
        a2,
        b2,
        q.0,
        q.1,
        q.2,
        sigma,
        w,
        h,
        xb,
        yb,
        2,
        scale,
        m,
        q2.0,
        q2.1,
        q2.2,
        sigma2,
    );
    let (a4, v) = pad_plane_3ch_steps(a3, e.0, e.1, e.2, 1);
    let (b4, v2) = pad_plane_3ch_steps(b3, e2.0, e2.1, e2.2, 1);
    lemma_pad_three(t, a3, b3, e, e2, 1);
    let (a5, z) = epf_step2_persistent_steps(
        a4,
        v.0,
        v.1,
        v.2,
        sigma,
        w,
        h,
        xb,
        yb,
        1,
        scale2,
        m,
    );
    let (b5, z2) = epf_step2_persistent_steps(
        b4,
        v2.0,
        v2.1,
        v2.2,
        sigma2,
        w,
        h,
        xb,
        yb,
        1,
        scale2,
        m,
    );
    lemma_epf_step2(
        t,
        a4,
        b4,
        v.0,
        v.1,
        v.2,
        sigma,
        w,
        h,
        xb,
        yb,
        1,
        scale2,
        m,
        v2.0,
        v2.1,
        v2.2,
        sigma2,
    );
    lemma_xyb_inverse(t, a5, b5, z.0, z.1, z.2, z2.0, z2.1, z2.2);
}

/// Two pipelines over the same planes go on in the same way.
proof fn lemma_pipeline(
    t: Shift,
    s: Recording,
    s2: Recording,
    le: LossyEncoder,
    p: Planes,
    p2: Planes,
    qac: Seq<Float32>,
    f: FilterParameters,
    inv_sigma: Seq<Float32>,
)
    ensures
        ({
            let r = pipeline_steps(s, le, p.0, p.1, p.2, qac, f, inv_sigma);
            let r2 = pipeline_steps(s2, le, p2.0, p2.1, p2.2, qac, f, inv_sigma);
            &&& r2.0.buffers.len() >= s2.buffers.len()
            &&& linked(t, s, s2) && numbered(r2.0) && matrices_common(t, le) && same_planes(
                t,
                s,
                p,
                p2,
            ) ==> ended(t, r.0, r2.0)
        }),
{
    reveal(pipeline_steps);
    let on = uses_gaborish(crate::pipeline::derived_distance(qac));
    let (a1, c) = analysis_steps(s, le, p.0, p.1, p.2, on);
    let (b1, c2) = analysis_steps(s2, le, p2.0, p2.1, p2.2, on);
    lemma_analysis(t, s, s2, le, p, p2, on);
    let (a2, q) = synthesis_steps(a1, le, c, qac);
    let (b2, q2) = synthesis_steps(b1, le, c2, qac);
    lemma_synthesis(t, a1, b1, le, c, c2, qac);
    let (a3, v) = smoothed_steps(a2, q, f, on);
    let (b3, v2) = smoothed_steps(b2, q2, f, on);
    lemma_smoothed(t, a2, b2, q, q2, f, on);
    let (a4, rgb) = restoration_steps(a3, le, v, f, inv_sigma);
    let (b4, rgb2) = restoration_steps(b3, le, v2, f, inv_sigma);
    lemma_restoration(t, a3, b3, le, v, v2, f, inv_sigma);
    if linked(t, s, s2) && numbered(b4) && matrices_common(t, le) && same_planes(t, s, p, p2) {
        let handles = seq![rgb.0.handle, rgb.1.handle, rgb.2.handle];
        let others = seq![rgb2.0.handle, rgb2.1.handle, rgb2.2.handle];
        lemma_read(t, a4, b4, handles, others);
    }
}

proof fn lemma_parts(a: Recording, b: Recording, c: Recording)
    requires
        continues(a, b),
        continues(b, c),
    ensures
        continues(a, c),
        added(a, c) == added(a, b) + added(b, c),
{
    let n = a.commands.len() as int;
    let m = b.commands.len() as int;
    assert(c.commands.take(n) =~= c.commands.take(m).take(n));
    assert(added(a, c) =~= added(a, b) + added(b, c)) by {
        assert forall|k: int| 0 <= k < added(a, b).len() implies #[trigger] added(a, c)[k]
            == added(a, b)[k] by {
            assert(c.commands.take(m)[n + k] == b.commands[n + k]);
        }
    }
}

proof fn lemma_start(from: Recording, to: Recording)
    requires
        from.buffers.len() <= to.buffers.len(),
    ensures
        linked(Shift { from, to }, from, to),
{
    reveal(matched);
    assert(from.commands.take(from.commands.len() as int) =~= from.commands);
    assert(to.commands.take(to.commands.len() as int) =~= to.commands);
    assert(added(from, from).len() == 0);
}

/// What pipelines over planes read back when each is the only one.
spec fn each_alone(
    d: DeviceModel,
    memory: Seq<Seq<u8>>,
    s: Recording,
    le: LossyEncoder,
    p: Planes,
    qacs: Seq<Seq<Float32>>,
    f: FilterParameters,
    inv_sigmas: Seq<Seq<Float32>>,
    n: int,
) -> Seq<Seq<u8>>
    decreases n,
{
    if n <= 0 {
        Seq::empty()
    } else {
        let one = pipeline_steps(s, le, p.0, p.1, p.2, qacs[n - 1], f, inv_sigmas[n - 1]).0;
        each_alone(d, memory, s, le, p, qacs, f, inv_sigmas, n - 1) + outcome(
            d,
            memory,
            added(s, one),
        ).replies
    }
}

proof fn lemma_pipelines(
    d: DeviceModel,
    memory: Seq<Seq<u8>>,
    s: Recording,
    le: LossyEncoder,
    p: Planes,
    qacs: Seq<Seq<Float32>>,
    f: FilterParameters,
    inv_sigmas: Seq<Seq<Float32>>,
    n: int,
)
    requires
        0 <= n,
        memory.len() == s.buffers.len(),
        le.weights_x.handle.id < s.buffers.len(),
        le.weights_y.handle.id < s.buffers.len(),
        le.weights_b.handle.id < s.buffers.len(),
        p.0.handle.id < s.buffers.len(),
        p.1.handle.id < s.buffers.len(),
        p.2.handle.id < s.buffers.len(),
    ensures
        ({
            let last = pipelines_steps(s, le, p, qacs, f, inv_sigmas, n).0;
            let o = outcome(d, memory, added(s, last));
            &&& last.buffers.len() >= s.buffers.len()
            &&& numbered(last) ==> {
                &&& continues(s, last)
                &&& o.memory.len() == last.buffers.len()
                &&& forall|i: int|
                    0 <= i < memory.len() ==> #[trigger] o.memory[i] == memory[i]
                &&& o.replies == each_alone(d, memory, s, le, p, qacs, f, inv_sigmas, n)
            }
        }),
    decreases n,
{
    let last = pipelines_steps(s, le, p, qacs, f, inv_sigmas, n).0;
    if n == 0 {
        assert(s.commands.take(s.commands.len() as int) =~= s.commands);
        assert(added(s, last).len() == 0);
    } else {
        lemma_pipelines(d, memory, s, le, p, qacs, f, inv_sigmas, n - 1);
        let before = pipelines_steps(s, le, p, qacs, f, inv_sigmas, n - 1).0;
        let (qac, inv_sigma) = (qacs[n - 1], inv_sigmas[n - 1]);
        let one = pipeline_steps(s, le, p.0, p.1, p.2, qac, f, inv_sigma).0;
        let t = Shift { from: s, to: before };
        lemma_start(s, before);
        lemma_pipeline(t, s, before, le, p, p, qac, f, inv_sigma);
        if numbered(last) {
            reveal(matched);
            assert(ended(t, one, last));
            lemma_parts(s, before, last);
            let m = outcome(d, memory, added(s, before)).memory;
            let alone = added(s, one);
            let here = added(before, last);
            assert(t.alike(memory, m));
            law_moved_commands_do_the_same(d, t, memory, m, alone, here);
            law_outcome_of_parts(d, memory, added(s, before), here);
            law_buffers_are_made(d, memory, alone);
            let o = outcome(d, memory, added(s, last));
            assert forall|i: int| 0 <= i < memory.len() implies #[trigger] o.memory[i]
                == memory[i] by {
                law_safe_commands_keep(d, t, memory, alone, i);
                assert(o.memory[t.place(i)] == outcome(d, memory, alone).memory[i]);
            }
        }
    }
}

proof fn lemma_upload(
    t: Shift,
    s: Recording,
    s2: Recording,
    data: Seq<Float32>,
    width: u32,
    height: u32,
)
    ensures
        ({
            let r = upload_plane_steps(s, data, width, height);
            let r2 = upload_plane_steps(s2, data, width, height);
            &&& r2.0.buffers.len() >= s2.buffers.len()
            &&& linked(t, s, s2) && numbered(r2.0) ==> {
                &&& linked(t, r.0, r2.0)
                &&& same_plane(t, r.0, r.1, r2.1)
            }
        }),
{
    reveal(upload_plane_steps);
    if linked(t, s, s2) && numbered(s2.create(bits_of(data))) {
        lemma_create(t, s, s2, bits_of(data));
    }
}

proof fn lemma_upload_image(t: Shift, s: Recording, s2: Recording, le: LossyEncoder, image: Image)
    ensures
        ({
            let r = upload_image_steps(s, le, image);
            let r2 = upload_image_steps(s2, le, image);
            &&& r2.0.buffers.len() >= s2.buffers.len()
            &&& linked(t, s, s2) && numbered(r2.0) ==> {
                &&& linked(t, r.0, r2.0)
                &&& same_planes(t, r.0, r.1, r2.1)
            }
        }),
{
    reveal(upload_image_steps);
    let (w, h) = (le.padded_width, le.padded_height);
    let red = padded_plane(le, image.0);
    let green = padded_plane(le, image.1);
    let blue = padded_plane(le, image.2);
    let a1 = upload_plane_steps(s, red, w, h).0;
    let b1 = upload_plane_steps(s2, red, w, h).0;
    lemma_upload(t, s, s2, red, w, h);
    let a2 = upload_plane_steps(a1, green, w, h).0;
    let b2 = upload_plane_steps(b1, green, w, h).0;
    lemma_upload(t, a1, b1, green, w, h);
    lemma_upload(t, a2, b2, blue, w, h);
}

/// Two encodings of the same image go on in the same way.
proof fn lemma_encode(
    t: Shift,
    s: Recording,
    s2: Recording,
    le: LossyEncoder,
    image: Image,
    qac: Seq<Float32>,
    f: FilterParameters,
    inv_sigma: Seq<Float32>,
)
    ensures
        ({
            let r = encode_steps(s, le, image, qac, f, inv_sigma);
            let r2 = encode_steps(s2, le, image, qac, f, inv_sigma);
            &&& r2.0.buffers.len() >= s2.buffers.len()
            &&& linked(t, s, s2) && numbered(r2.0) && matrices_common(t, le) ==> ended(
                t,
                r.0,
                r2.0,
            )
        }),
{
    let (a, p) = upload_image_steps(s, le, image);
    let (b, p2) = upload_image_steps(s2, le, image);
    lemma_upload_image(t, s, s2, le, image);
    lemma_pipeline(t, a, b, le, p, p2, qac, f, inv_sigma);
}

/// What encoding an image once for each setting, one after the other, records:
/// the first `n` of the fields `qacs`, with their filter strengths.
pub open spec fn loop_steps(
    s0: Recording,
    le: LossyEncoder,
    image: Image,
    qacs: Seq<Seq<Float32>>,
    f: FilterParameters,
    inv_sigmas: Seq<Seq<Float32>>,
    n: int,
) -> Recording
    decreases n,
{
    if n <= 0 {
        s0
    } else {
        let s1 = loop_steps(s0, le, image, qacs, f, inv_sigmas, n - 1);
        encode_steps(s1, le, image, qacs[n - 1], f, inv_sigmas[n - 1]).0
    }
}

/// What encodings read back when each is the only one.
spec fn each_encoded_alone(
    d: DeviceModel,
    memory: Seq<Seq<u8>>,
    s: Recording,
    le: LossyEncoder,
    image: Image,
    qacs: Seq<Seq<Float32>>,
    f: FilterParameters,
    inv_sigmas: Seq<Seq<Float32>>,
    n: int,
) -> Seq<Seq<u8>>
    decreases n,
{
    if n <= 0 {
        Seq::empty()
    } else {
        let one = encode_steps(s, le, image, qacs[n - 1], f, inv_sigmas[n - 1]).0;
        each_encoded_alone(d, memory, s, le, image, qacs, f, inv_sigmas, n - 1) + outcome(
            d,
            memory,
            added(s, one),
        ).replies
    }
}

proof fn lemma_loop(
    d: DeviceModel,
    memory: Seq<Seq<u8>>,
    s: Recording,
    le: LossyEncoder,
    image: Image,
    qacs: Seq<Seq<Float32>>,
    f: FilterParameters,
    inv_sigmas: Seq<Seq<Float32>>,
    n: int,
)
    requires
        0 <= n,
        memory.len() == s.buffers.len(),
        le.weights_x.handle.id < s.buffers.len(),
        le.weights_y.handle.id < s.buffers.len(),
        le.weights_b.handle.id < s.buffers.len(),
    ensures
        ({
            let last = loop_steps(s, le, image, qacs, f, inv_sigmas, n);
            let o = outcome(d, memory, added(s, last));
            &&& last.buffers.len() >= s.buffers.len()
            &&& numbered(last) ==> {
                &&& continues(s, last)
                &&& o.memory.len() == last.buffers.len()
                &&& forall|i: int|
                    0 <= i < memory.len() ==> #[trigger] o.memory[i] == memory[i]
                &&& o.replies == each_encoded_alone(
                    d,
                    memory,
                    s,
                    le,
                    image,
                    qacs,
                    f,
                    inv_sigmas,
                    n,
                )
            }
        }),
    decreases n,
{
    let last = loop_steps(s, le, image, qacs, f, inv_sigmas, n);
    if n == 0 {
        assert(s.commands.take(s.commands.len() as int) =~= s.commands);
        assert(added(s, last).len() == 0);
    } else {
        lemma_loop(d, memory, s, le, image, qacs, f, inv_sigmas, n - 1);
        let before = loop_steps(s, le, image, qacs, f, inv_sigmas, n - 1);
        let (qac, inv_sigma) = (qacs[n - 1], inv_sigmas[n - 1]);
        let one = encode_steps(s, le, image, qac, f, inv_sigma).0;
        let t = Shift { from: s, to: before };
        lemma_start(s, before);
        lemma_encode(t, s, before, le, image, qac, f, inv_sigma);
        if numbered(last) {
            reveal(matched);
            assert(ended(t, one, last));
            lemma_parts(s, before, last);
            let m = outcome(d, memory, added(s, before)).memory;
            let alone = added(s, one);
            let here = added(before, last);
            assert(t.alike(memory, m));
            law_moved_commands_do_the_same(d, t, memory, m, alone, here);
            law_outcome_of_parts(d, memory, added(s, before), here);
            law_buffers_are_made(d, memory, alone);
            let o = outcome(d, memory, added(s, last));
            assert forall|i: int| 0 <= i < memory.len() implies #[trigger] o.memory[i]
                == memory[i] by {
                law_safe_commands_keep(d, t, memory, alone, i);
                assert(o.memory[t.place(i)] == outcome(d, memory, alone).memory[i]);
            }
        }
    }
}

/// An upload makes three buffers and reads nothing back.
proof fn lemma_upload_outcome(
    d: DeviceModel,
    memory: Seq<Seq<u8>>,
    s: Recording,
    le: LossyEncoder,
    image: Image,
)
    requires
        memory.len() == s.buffers.len(),
        numbered(upload_image_steps(s, le, image).0),
    ensures
        ({
            let (s1, p) = upload_image_steps(s, le, image);
            let o = outcome(d, memory, added(s, s1));
            &&& continues(s, s1)
            &&& s1.buffers.len() == s.buffers.len() + 3
            &&& o.memory.len() == s1.buffers.len()
            &&& o.replies == Seq::<Seq<u8>>::empty()
            &&& p.0.handle.id < s1.buffers.len()
            &&& p.1.handle.id < s1.buffers.len()
            &&& p.2.handle.id < s1.buffers.len()
        }),
{
    reveal(upload_image_steps);
    reveal(upload_plane_steps);
    let (s1, p) = upload_image_steps(s, le, image);
    let red = CommandSpec::Create { words: bits_of(padded_plane(le, image.0)) };
    let green = CommandSpec::Create { words: bits_of(padded_plane(le, image.1)) };
    let blue = CommandSpec::Create { words: bits_of(padded_plane(le, image.2)) };
    assert(s1.commands =~= s.commands.push(red).push(green).push(blue));
    assert(s1.commands.take(s.commands.len() as int) =~= s.commands);
    let none = Seq::<CommandSpec>::empty();
    let c = none.push(red).push(green).push(blue);
    assert(added(s, s1) =~= c);
    assert(c.drop_last() =~= none.push(red).push(green));
    assert(c.drop_last().drop_last() =~= none.push(red));
    assert(c.drop_last().drop_last().drop_last() =~= none);
    reveal_with_fuel(outcome, 4);
}

/// What the pipelines of a batch read back alone is what the encodings read
/// back alone.
proof fn lemma_alone(
    d: DeviceModel,
    memory: Seq<Seq<u8>>,
    s: Recording,
    le: LossyEncoder,
    image: Image,
    qacs: Seq<Seq<Float32>>,
    f: FilterParameters,
    inv_sigmas: Seq<Seq<Float32>>,
    n: int,
)
    requires
        0 <= n,
        memory.len() == s.buffers.len(),
        matrices_common(Shift { from: s, to: s }, le),
        ({
            let (s1, p) = upload_image_steps(s, le, image);
            numbered(pipelines_steps(s1, le, p, qacs, f, inv_sigmas, n).0)
        }),
    ensures
        ({
            let (s1, p) = upload_image_steps(s, le, image);
            let m = outcome(d, memory, added(s, s1)).memory;
            each_alone(d, m, s1, le, p, qacs, f, inv_sigmas, n) == each_encoded_alone(
                d,
                memory,
                s,
                le,
                image,
                qacs,
                f,
                inv_sigmas,
                n,
            )
        }),
    decreases n,
{
    let (s1, p) = upload_image_steps(s, le, image);
    let m = outcome(d, memory, added(s, s1)).memory;
    if n > 0 {
        let before = pipelines_steps(s1, le, p, qacs, f, inv_sigmas, n - 1).0;
        let (qac, inv_sigma) = (qacs[n - 1], inv_sigmas[n - 1]);
        lemma_pipeline(Shift { from: s1, to: before }, s1, before, le, p, p, qac, f, inv_sigma);
        assert(numbered(before));
        lemma_grows(s1, le, p, qacs, f, inv_sigmas, n - 1);
        lemma_upload_outcome(d, memory, s, le, image);
        lemma_alone(d, memory, s, le, image, qacs, f, inv_sigmas, n - 1);
        let one = pipeline_steps(s1, le, p.0, p.1, p.2, qac, f, inv_sigma).0;
        lemma_start(s1, before);
        assert(ended(Shift { from: s1, to: before }, one, pipelines_steps(
            s1,
            le,
            p,
            qacs,
            f,
            inv_sigmas,
            n,
        ).0));
        assert(continues(s1, one)) by {
            reveal(matched);
        }
        lemma_parts(s, s1, one);
        law_outcome_of_parts(d, memory, added(s, s1), added(s1, one));
        assert(outcome(d, memory, added(s, one)).replies =~= outcome(
            d,
            m,
            added(s1, one),
        ).replies);
    }
}

proof fn lemma_grows(
    s: Recording,
    le: LossyEncoder,
    p: Planes,
    qacs: Seq<Seq<Float32>>,
    f: FilterParameters,
    inv_sigmas: Seq<Seq<Float32>>,
    n: int,
)
    ensures
        pipelines_steps(s, le, p, qacs, f, inv_sigmas, n).0.buffers.len() >= s.buffers.len(),
    decreases n,
{
    if n > 0 {
        lemma_grows(s, le, p, qacs, f, inv_sigmas, n - 1);
        let before = pipelines_steps(s, le, p, qacs, f, inv_sigmas, n - 1).0;
        let t = Shift { from: s, to: before };
        lemma_pipeline(t, s, before, le, p, p, qacs[n - 1], f, inv_sigmas[n - 1]);
    }
}

proof fn lemma_batch_replies(
    d: DeviceModel,
    memory: Seq<Seq<u8>>,
    s0: Recording,
    le: LossyEncoder,
    image: Image,
    qacs: Seq<Seq<Float32>>,
    f: FilterParameters,
    inv_sigmas: Seq<Seq<Float32>>,
)
    requires
        memory.len() == s0.buffers.len(),
        matrices_common(Shift { from: s0, to: s0 }, le),
        numbered(encode_many_steps(s0, le, image, qacs, f, inv_sigmas).0),
    ensures
        outcome(
            d,
            memory,
            added(s0, encode_many_steps(s0, le, image, qacs, f, inv_sigmas).0),
        ).replies == each_encoded_alone(
            d,
            memory,
            s0,
            le,
            image,
            qacs,
            f,
            inv_sigmas,
            qacs.len() as int,
        ),
{
    let n = qacs.len() as int;
    let (s1, p) = upload_image_steps(s0, le, image);
    lemma_grows(s1, le, p, qacs, f, inv_sigmas, n);
    lemma_upload_outcome(d, memory, s0, le, image);
    let m = outcome(d, memory, added(s0, s1)).memory;
    let many = encode_many_steps(s0, le, image, qacs, f, inv_sigmas).0;
    lemma_pipelines(d, m, s1, le, p, qacs, f, inv_sigmas, n);
    lemma_parts(s0, s1, many);
    law_outcome_of_parts(d, memory, added(s0, s1), added(s1, many));
    lemma_alone(d, memory, s0, le, image, qacs, f, inv_sigmas, n);
    assert(outcome(d, memory, added(s0, many)).replies =~= outcome(
        d,
        m,
        added(s1, many),
    ).replies);
}

/// On any device, a batch reads back what encoding the image in a loop reads
/// back, once for each setting.
pub proof fn law_batch_is_a_loop(
    d: DeviceModel,
    memory: Seq<Seq<u8>>,
    s0: Recording,
    le: LossyEncoder,
    image: Image,
    qacs: Seq<Seq<Float32>>,
    f: FilterParameters,
    inv_sigmas: Seq<Seq<Float32>>,
)
    requires
        memory.len() == s0.buffers.len(),
        le.lives_in(s0),
        encode_many_steps(s0, le, image, qacs, f, inv_sigmas).0.buffers.len() <= usize::MAX,
        loop_steps(s0, le, image, qacs, f, inv_sigmas, qacs.len() as int).buffers.len()
            <= usize::MAX,
    ensures
        outcome(
            d,
            memory,
            added(s0, encode_many_steps(s0, le, image, qacs, f, inv_sigmas).0),
        ).replies == outcome(
            d,
            memory,
            added(s0, loop_steps(s0, le, image, qacs, f, inv_sigmas, qacs.len() as int)),
        ).replies,
{
    let n = qacs.len() as int;
    lemma_batch_replies(d, memory, s0, le, image, qacs, f, inv_sigmas);
    lemma_loop(d, memory, s0, le, image, qacs, f, inv_sigmas, n);
}

/// The buffers of fewer pipelines are no more.
proof fn lemma_fewer_pipelines(
    s: Recording,
    le: LossyEncoder,
    p: Planes,
    qacs: Seq<Seq<Float32>>,
    f: FilterParameters,
    inv_sigmas: Seq<Seq<Float32>>,
    k: int,
    n: int,
)
    requires
        0 <= k <= n,
    ensures
        pipelines_steps(s, le, p, qacs, f, inv_sigmas, k).0.buffers.len() <= pipelines_steps(
            s,
            le,
            p,
            qacs,
            f,
            inv_sigmas,
            n,
        ).0.buffers.len(),
    decreases n,
{
    if k < n {
        lemma_fewer_pipelines(s, le, p, qacs, f, inv_sigmas, k, n - 1);
        let before = pipelines_steps(s, le, p, qacs, f, inv_sigmas, n - 1).0;
        let t = Shift { from: s, to: before };
        lemma_pipeline(t, s, before, le, p, p, qacs[n - 1], f, inv_sigmas[n - 1]);
    }
}

/// One encoding of a batch, alone, reads three planes back.
proof fn lemma_alone_reads_three(
    d: DeviceModel,
    memory: Seq<Seq<u8>>,
    s: Recording,
    le: LossyEncoder,
    image: Image,
    qacs: Seq<Seq<Float32>>,
    f: FilterParameters,
    inv_sigmas: Seq<Seq<Float32>>,
    i: int,
)
    requires
        0 <= i < qacs.len(),
        memory.len() == s.buffers.len(),
        matrices_common(Shift { from: s, to: s }, le),
        numbered(encode_many_steps(s, le, image, qacs, f, inv_sigmas).0),
    ensures
        outcome(
            d,
            memory,
            added(s, encode_steps(s, le, image, qacs[i], f, inv_sigmas[i]).0),
        ).replies.len() == 3,
{
    let (s1, p) = upload_image_steps(s, le, image);
    let one = encode_steps(s, le, image, qacs[i], f, inv_sigmas[i]).0;
    let before = pipelines_steps(s1, le, p, qacs, f, inv_sigmas, i).0;
    let after = pipelines_steps(s1, le, p, qacs, f, inv_sigmas, i + 1).0;
    lemma_fewer_pipelines(s1, le, p, qacs, f, inv_sigmas, i + 1, qacs.len() as int);
    lemma_grows(s1, le, p, qacs, f, inv_sigmas, i);
    lemma_grows(s1, le, p, qacs, f, inv_sigmas, i + 1);
    lemma_upload_outcome(d, memory, s, le, image);
    lemma_start(s1, before);
    let t = Shift { from: s1, to: before };
    lemma_pipeline(t, s1, before, le, p, p, qacs[i], f, inv_sigmas[i]);
    assert(ended(t, one, after));
    let u = Shift { from: s, to: s };
    lemma_start(s, s);
    lemma_encode(u, s, s, le, image, qacs[i], f, inv_sigmas[i]);
    assert(asked(added(s, one)) == 3) by {
        reveal(matched);
    }
    law_what_is_asked_comes_back(d, memory, added(s, one));
}

proof fn lemma_replies_in_threes(
    d: DeviceModel,
    memory: Seq<Seq<u8>>,
    s: Recording,
    le: LossyEncoder,
    image: Image,
    qacs: Seq<Seq<Float32>>,
    f: FilterParameters,
    inv_sigmas: Seq<Seq<Float32>>,
    n: int,
    i: int,
    c: int,
)
    requires
        0 <= n <= qacs.len(),
        memory.len() == s.buffers.len(),
        matrices_common(Shift { from: s, to: s }, le),
        numbered(encode_many_steps(s, le, image, qacs, f, inv_sigmas).0),
    ensures
        each_encoded_alone(d, memory, s, le, image, qacs, f, inv_sigmas, n).len() == 3 * n,
        0 <= i < n && 0 <= c < 3 ==> each_encoded_alone(
            d,
            memory,
            s,
            le,
            image,
            qacs,
            f,
            inv_sigmas,
            n,
        )[3 * i + c] == outcome(
            d,
            memory,
            added(s, encode_steps(s, le, image, qacs[i], f, inv_sigmas[i]).0),
        ).replies[c],
    decreases n,
{
    if n > 0 {
        lemma_replies_in_threes(d, memory, s, le, image, qacs, f, inv_sigmas, n - 1, i, c);
        lemma_alone_reads_three(d, memory, s, le, image, qacs, f, inv_sigmas, n - 1);
    }
}

/// On any device, a batch gives for each setting, in order, the three planes
/// that encoding the image alone at that setting gives, and nothing else.
pub proof fn law_each_setting_is_its_own_encoding(
    d: DeviceModel,
    memory: Seq<Seq<u8>>,
    s0: Recording,
    le: LossyEncoder,
    image: Image,
    qacs: Seq<Seq<Float32>>,
    f: FilterParameters,
    inv_sigmas: Seq<Seq<Float32>>,
    i: int,
    c: int,
)
    requires
        memory.len() == s0.buffers.len(),
        le.lives_in(s0),
        encode_many_steps(s0, le, image, qacs, f, inv_sigmas).0.buffers.len() <= usize::MAX,
        0 <= i < qacs.len(),
        0 <= c < 3,
    ensures
        ({
            let many = encode_many_steps(s0, le, image, qacs, f, inv_sigmas);
            let one = encode_steps(s0, le, image, qacs[i], f, inv_sigmas[i]);
            let all = outcome(d, memory, added(s0, many.0)).replies;
            let alone = outcome(d, memory, added(s0, one.0)).replies;
            &&& many.1.len() == qacs.len()
            &&& all.len() == 3 * qacs.len()
            &&& alone.len() == 3
            &&& all[3 * i + c] == alone[c]
        }),
{
    let n = qacs.len() as int;
    let (s1, p) = upload_image_steps(s0, le, image);
    law_batch_runs_each_setting(s1, le, p, qacs, f, inv_sigmas, n, i);
    lemma_batch_replies(d, memory, s0, le, image, qacs, f, inv_sigmas);
    lemma_replies_in_threes(d, memory, s0, le, image, qacs, f, inv_sigmas, n, i, c);
    lemma_alone_reads_three(d, memory, s0, le, image, qacs, f, inv_sigmas, i);
}

/// Encoding at several scales gives for each what encoding at that scale gives.
/// [`LossyEncoder::encode_many`] and [`LossyEncoder::encode_one`] record what is
/// compared here.
pub proof fn law_encode_many_is_encode_one(
    d: DeviceModel,
    memory: Seq<Seq<u8>>,
    s0: Recording,
    le: LossyEncoder,
    image: Image,
    settings: Seq<Float32>,
    f: FilterParameters,
    inv_sigmas: Seq<Seq<Float32>>,
    i: int,
    c: int,
)
    requires
        memory.len() == s0.buffers.len(),
        le.lives_in(s0),
        encode_many_steps(
            s0,
            le,
            image,
            uniform_each(settings, le.num_blocks as nat),
            f,
            inv_sigmas,
        ).0.buffers.len() <= usize::MAX,
        0 <= i < settings.len(),
        0 <= c < 3,
    ensures
        ({
            let many = encode_many_steps(
                s0,
                le,
                image,
                uniform_each(settings, le.num_blocks as nat),
                f,
                inv_sigmas,
            );
            let one = encode_steps(
                s0,
                le,
                image,
                uniform(settings[i], le.num_blocks as nat),
                f,
                inv_sigmas[i],
            );
            let all = outcome(d, memory, added(s0, many.0)).replies;
            let alone = outcome(d, memory, added(s0, one.0)).replies;
            &&& many.1.len() == settings.len()
            &&& all.len() == 3 * settings.len()
            &&& alone.len() == 3
            &&& all[3 * i + c] == alone[c]
        }),
{
    law_each_setting_is_its_own_encoding(
        d,
        memory,
        s0,
        le,
        image,
        uniform_each(settings, le.num_blocks as nat),
        f,
        inv_sigmas,
        i,
        c,
    );
}

/// Encoding at several distances with scales that follow the mask gives for each
/// what encoding at that distance gives.
/// [`LossyEncoder::encode_many_with_aq`] and
/// [`LossyEncoder::encode_one_with_aq`] record what is compared here.
pub proof fn law_encode_many_with_aq_is_encode_one_with_aq(
    d: DeviceModel,
    memory: Seq<Seq<u8>>,
    s0: Recording,
    le: LossyEncoder,
    image: Image,
    means: Seq<Float32>,
    settings: Seq<Float32>,
    f: FilterParameters,
    inv_sigmas: Seq<Seq<Float32>>,
    i: int,
    c: int,
)
    requires
        memory.len() == s0.buffers.len(),
        le.lives_in(s0),
        encode_many_steps(
            s0,
            le,
            image,
            adaptive_each(means, settings),
            f,
            inv_sigmas,
        ).0.buffers.len() <= usize::MAX,
        0 <= i < settings.len(),
        0 <= c < 3,
    ensures
        ({
            let many = encode_many_steps(
                s0,
                le,
                image,
                adaptive_each(means, settings),
                f,
                inv_sigmas,
            );
            let one = encode_steps(
                s0,
                le,
                image,
                adaptive_field(means, settings[i]),
                f,
                inv_sigmas[i],
            );
            let all = outcome(d, memory, added(s0, many.0)).replies;
            let alone = outcome(d, memory, added(s0, one.0)).replies;
            &&& many.1.len() == settings.len()
            &&& all.len() == 3 * settings.len()
            &&& alone.len() == 3
            &&& all[3 * i + c] == alone[c]
        }),
{
    law_each_setting_is_its_own_encoding(
        d,
        memory,
        s0,
        le,
        image,
        adaptive_each(means, settings),
        f,
        inv_sigmas,
        i,
        c,
    );
}

/// Encoding an image leaves every buffer that was there as it was.
pub proof fn law_encoding_keeps_buffers(
    d: DeviceModel,
    memory: Seq<Seq<u8>>,
    s0: Recording,
    le: LossyEncoder,
    image: Image,
    qac: Seq<Float32>,
    f: FilterParameters,
    inv_sigma: Seq<Float32>,
    i: int,
)
    requires
        memory.len() == s0.buffers.len(),
        le.lives_in(s0),
        encode_steps(s0, le, image, qac, f, inv_sigma).0.buffers.len() <= usize::MAX,
        0 <= i < memory.len(),
    ensures
        ({
            let s = encode_steps(s0, le, image, qac, f, inv_sigma).0;
            outcome(d, memory, added(s0, s)).memory[i] == memory[i]
        }),
{
    let s = encode_steps(s0, le, image, qac, f, inv_sigma).0;
    let t = Shift { from: s0, to: s0 };
    lemma_start(s0, s0);
    lemma_encode(t, s0, s0, le, image, qac, f, inv_sigma);
    reveal(matched);
    law_safe_commands_keep(d, t, memory, added(s0, s), i);
}

proof fn lemma_smoothed_together(
    t: Shift,
    s: Recording,
    s2: Recording,
    p: Planes,
    p2: Planes,
    f: FilterParameters,
    on: bool,
)
    ensures
        ({
            let r = smoothed_together_steps(s, p, f, on);
            let r2 = smoothed_together_steps(s2, p2, f, on);
            &&& r2.0.buffers.len() >= s2.buffers.len()
            &&& linked(t, s, s2) && numbered(r2.0) && same_planes(t, s, p, p2) ==> {
                &&& linked(t, r.0, r2.0)
                &&& same_planes(t, r.0, r.1, r2.1)
            }
        }),
{
    reveal(smoothed_together_steps);
    let (c, c1, c2) = (f.gab_center, f.gab_1, f.gab_2);
    lemma_gab_smooth_3ch(t, s, s2, p.0, p.1, p.2, c, c1, c2, p2.0, p2.1, p2.2);
}

/// What follows the reconstruction of an image by a plan leaves every buffer
/// that was there as it was, those of the plan among them, so that the plan can
/// be used again.
pub proof fn law_plan_can_be_used_again(
    d: DeviceModel,
    memory: Seq<Seq<u8>>,
    s0: Recording,
    le: LossyEncoder,
    recon: Planes,
    distance: Float32,
    f: FilterParameters,
    inv_sigma: Seq<Float32>,
    i: int,
)
    requires
        memory.len() == s0.buffers.len(),
        le.holds_planes(s0, recon),
        after_plan_steps(s0, le, recon, distance, f, inv_sigma).0.buffers.len() <= usize::MAX,
        0 <= i < memory.len(),
    ensures
        ({
            let s = after_plan_steps(s0, le, recon, distance, f, inv_sigma).0;
            outcome(d, memory, added(s0, s)).memory[i] == memory[i]
        }),
{
    let s = after_plan_steps(s0, le, recon, distance, f, inv_sigma).0;
    let t = Shift { from: s0, to: s0 };
    lemma_start(s0, s0);
    let on = uses_gaborish(distance);
    let (s1, p) = smoothed_together_steps(s0, recon, f, on);
    lemma_smoothed_together(t, s0, s0, recon, recon, f, on);
    lemma_restoration(t, s1, s1, le, p, p, f, inv_sigma);
    reveal(matched);
    law_safe_commands_keep(d, t, memory, added(s0, s), i);
}

} // verus!
