//! What is put on a device and what comes back.

use crate::dataflow::{lemma_made, lemma_read, Bytes, Run};
use crate::device::{CommandSpec, Handle, Recording};
use crate::execution::bytes_of_words;
use crate::float::Float32;
use crate::lossy_encoder::LossyEncoder;
use crate::persistent::{
    alloc_blocks_steps, alloc_i32_blocks_steps, alloc_plane_steps, alloc_plane_uninit_steps,
    bits_of, int_bits_of, upload_blocks_steps, upload_i32_blocks_steps, upload_inv_sigma_steps,
    upload_plane_steps,
};
use crate::plan::reconstruction_planes_steps;
use vstd::prelude::*;

verus! {

/// The byte `k` of a 32-bit word, the low one first.
pub open spec fn byte_of(w: u32, k: int) -> u8 {
    (w >> ((8 * k) as u32)) as u8
}

/// Whether bytes are those of floating-point numbers, four to each, the low one
/// first.
pub open spec fn are_numbers(b: Bytes, s: Seq<Float32>) -> bool {
    &&& b.len() == 4 * s.len()
    &&& forall|i: int, k: int|
        0 <= i < s.len() && 0 <= k < 4 ==> b[4 * i + k] == #[trigger] byte_of(s[i].bits, k)
}

/// Whether bytes are those of integers in two's complement.
pub open spec fn are_integers(b: Bytes, s: Seq<i32>) -> bool {
    &&& b.len() == 4 * s.len()
    &&& forall|i: int, k: int|
        0 <= i < s.len() && 0 <= k < 4 ==> b[4 * i + k] == #[trigger] byte_of(s[i] as u32, k)
}

/// Whether bytes are `n` zeros.
pub open spec fn are_zeros(b: Bytes, n: int) -> bool {
    b.len() == n && forall|i: int| 0 <= i < n ==> #[trigger] b[i] == 0
}

/// Words as bytes.
proof fn lemma_bytes(words: Seq<u32>, i: int, k: int)
    requires
        0 <= i < words.len(),
        0 <= k < 4,
    ensures
        bytes_of_words(words)[4 * i + k] == byte_of(words[i], k),
{
    assert((4 * i + k) / 4 == i && (4 * i + k) % 4 == k);
}

proof fn lemma_numbers(s: Seq<Float32>)
    ensures
        are_numbers(bytes_of_words(bits_of(s)), s),
{
    let b = bytes_of_words(bits_of(s));
    assert forall|i: int, k: int| 0 <= i < s.len() && 0 <= k < 4 implies b[4 * i + k]
        == #[trigger] byte_of(s[i].bits, k) by {
        lemma_bytes(bits_of(s), i, k);
    }
}

proof fn lemma_integers(s: Seq<i32>)
    ensures
        are_integers(bytes_of_words(int_bits_of(s)), s),
{
    let b = bytes_of_words(int_bits_of(s));
    assert forall|i: int, k: int| 0 <= i < s.len() && 0 <= k < 4 implies b[4 * i + k]
        == #[trigger] byte_of(s[i] as u32, k) by {
        lemma_bytes(int_bits_of(s), i, k);
    }
}

proof fn lemma_zeros(n: nat)
    ensures
        are_zeros(bytes_of_words(Seq::new(n, |i: int| 0u32)), 4 * n as int),
{
    let words = Seq::new(n, |i: int| 0u32);
    let b = bytes_of_words(words);
    assert forall|i: int| 0 <= i < b.len() implies #[trigger] b[i] == 0 by {
        let k = (8 * (i % 4)) as u32;
        assert(words[i / 4] == 0u32);
        assert((0u32 >> k) as u8 == 0) by (bit_vector)
            requires
                k < 32,
        ;
    }
}

/// What the last reading back gave.
pub open spec fn last_reply(run: Run, s: Recording, h: Handle) -> Bytes {
    run.replies(s.read(seq![h])).last()
}

proof fn lemma_last_reply(run: Run, s: Recording, h: Handle)
    ensures
        last_reply(run, s, h) == run.held(s, h),
        run.replies(s.read(seq![h])) == run.replies(s).push(run.held(s, h)),
{
    lemma_read(run, s, seq![h]);
    assert(run.replies(s.read(seq![h])) =~= run.replies(s).push(run.held(s, h)));
}

/// A plane that is put on a device comes back as it was.
pub proof fn law_planes_come_back(
    run: Run,
    s: Recording,
    data: Seq<Float32>,
    width: u32,
    height: u32,
)
    requires
        run.ready(s, 1),
    ensures
        ({
            let (s1, p) = upload_plane_steps(s, data, width, height);
            &&& p.width == width && p.height == height
            &&& are_numbers(last_reply(run, s1, p.handle), data)
        }),
{
    reveal(upload_plane_steps);
    let (s1, p) = upload_plane_steps(s, data, width, height);
    lemma_made(run, s, s1, CommandSpec::Create { words: bits_of(data) });
    lemma_last_reply(run, s1, p.handle);
    lemma_numbers(data);
}

/// Blocks that are put on a device come back as they were.
pub proof fn law_blocks_come_back(
    run: Run,
    s: Recording,
    data: Seq<Float32>,
    num_blocks: u32,
    coeffs_per_block: u32,
)
    requires
        run.ready(s, 1),
    ensures
        ({
            let (s1, b) = upload_blocks_steps(s, data, num_blocks, coeffs_per_block);
            &&& b.num_blocks == num_blocks && b.coeffs_per_block == coeffs_per_block
            &&& are_numbers(last_reply(run, s1, b.handle), data)
        }),
{
    reveal(upload_blocks_steps);
    let (s1, b) = upload_blocks_steps(s, data, num_blocks, coeffs_per_block);
    lemma_made(run, s, s1, CommandSpec::Create { words: bits_of(data) });
    lemma_last_reply(run, s1, b.handle);
    lemma_numbers(data);
}

/// Integers that are put on a device come back as they were.
pub proof fn law_integers_come_back(
    run: Run,
    s: Recording,
    data: Seq<i32>,
    num_blocks: u32,
    coeffs_per_block: u32,
)
    requires
        run.ready(s, 1),
    ensures
        ({
            let (s1, b) = upload_i32_blocks_steps(s, data, num_blocks, coeffs_per_block);
            &&& b.num_blocks == num_blocks && b.coeffs_per_block == coeffs_per_block
            &&& are_integers(last_reply(run, s1, b.handle), data)
        }),
{
    reveal(upload_i32_blocks_steps);
    let (s1, b) = upload_i32_blocks_steps(s, data, num_blocks, coeffs_per_block);
    lemma_made(run, s, s1, CommandSpec::Create { words: int_bits_of(data) });
    lemma_last_reply(run, s1, b.handle);
    lemma_integers(data);
}

/// The strengths of the edge-preserving filter are on a device as they were
/// given.
pub proof fn law_strengths_come_back(run: Run, s: Recording, inv_sigma: Seq<Float32>)
    requires
        run.ready(s, 1),
    ensures
        ({
            let (s1, h) = upload_inv_sigma_steps(s, inv_sigma);
            are_numbers(last_reply(run, s1, h), inv_sigma)
        }),
{
    reveal(upload_inv_sigma_steps);
    let (s1, h) = upload_inv_sigma_steps(s, inv_sigma);
    lemma_made(run, s, s1, CommandSpec::Create { words: bits_of(inv_sigma) });
    lemma_last_reply(run, s1, h);
    lemma_numbers(inv_sigma);
}

/// New planes, new blocks and new blocks of integers hold zeros.
pub proof fn law_new_buffers_hold_zeros(run: Run, s: Recording, a: u32, b: u32)
    requires
        run.ready(s, 1),
    ensures
        ({
            let (s1, p) = alloc_plane_steps(s, a, b);
            let (s2, q) = alloc_blocks_steps(s, a, b);
            let (s3, i) = alloc_i32_blocks_steps(s, a, b);
            &&& p.width == a && p.height == b
            &&& q.num_blocks == a && q.coeffs_per_block == b
            &&& i.num_blocks == a && i.coeffs_per_block == b
            &&& are_zeros(last_reply(run, s1, p.handle), 4 * (a * b))
            &&& are_zeros(last_reply(run, s2, q.handle), 4 * (a * b))
            &&& are_zeros(last_reply(run, s3, i.handle), 4 * (a * b))
        }),
{
    reveal(alloc_plane_steps);
    reveal(alloc_blocks_steps);
    reveal(alloc_i32_blocks_steps);
    assert(0 <= a * b <= 0xffff_ffff * 0xffff_ffff) by (nonlinear_arith)
        requires
            a <= 0xffff_ffff,
            b <= 0xffff_ffff,
    ;
    let s1 = s.fill(a * b, 0);
    lemma_made(run, s, s1, CommandSpec::Fill { len: (a * b) as u64, word: 0 });
    lemma_last_reply(run, s1, s.next());
    lemma_zeros((a * b) as nat);
}

/// The planes that an image is reconstructed in are three new ones of its padded
/// size, each with a buffer of its own.
pub proof fn law_reconstruction_has_three_planes(run: Run, s: Recording, le: LossyEncoder)
    requires
        run.ready(s, 3),
    ensures
        ({
            let (s1, p) = reconstruction_planes_steps(s, le);
            &&& p.0.handle.id == s.buffers.len()
            &&& p.1.handle.id == s.buffers.len() + 1
            &&& p.2.handle.id == s.buffers.len() + 2
            &&& s1.buffers.len() == s.buffers.len() + 3
            &&& forall|i: int|
                s.buffers.len() <= i < s1.buffers.len() ==> #[trigger] s1.buffers[i] == (
                le.padded_width * le.padded_height * 4) as u64
            &&& p.0.width == le.padded_width && p.0.height == le.padded_height
            &&& p.1.width == le.padded_width && p.1.height == le.padded_height
            &&& p.2.width == le.padded_width && p.2.height == le.padded_height
            &&& run.memory(s1).len() == s1.buffers.len()
        }),
{
    reveal(reconstruction_planes_steps);
    reveal(alloc_plane_uninit_steps);
    let bytes = (le.padded_width * le.padded_height * 4) as u64;
    let s1 = s.empty(le.padded_width * le.padded_height * 4);
    let s2 = s1.empty(le.padded_width * le.padded_height * 4);
    let s3 = s2.empty(le.padded_width * le.padded_height * 4);
    lemma_made(run, s, s1, CommandSpec::Empty { bytes });
    lemma_made(run, s1, s2, CommandSpec::Empty { bytes });
    lemma_made(run, s2, s3, CommandSpec::Empty { bytes });
}

} // verus!
