//! What a recording leaves in the buffers of a device, step by step.

use crate::device::{CommandSpec, Element, Handle, LaunchSpec, Recording};
use crate::execution::{
    bytes_of_words, held, operands, outcome, stored, writes, DeviceModel, Operand,
};
use crate::float::Float32;
use crate::persistent::bits_of;
use vstd::prelude::*;

verus! {

/// What a buffer holds.
pub type Bytes = Seq<u8>;

/// What three buffers hold.
pub type Three = (Bytes, Bytes, Bytes);

/// A device that carries out recordings, and what its buffers held before.
pub struct Run {
    pub device: DeviceModel,
    pub start: Seq<Bytes>,
}

impl Run {
    /// What the buffers hold after a recording.
    pub open spec fn memory(self, s: Recording) -> Seq<Bytes> {
        outcome(self.device, self.start, s.commands).memory
    }

    /// All that a recording reads back.
    pub open spec fn replies(self, s: Recording) -> Seq<Bytes> {
        outcome(self.device, self.start, s.commands).replies
    }

    /// What a buffer holds after a recording.
    pub open spec fn held(self, s: Recording, h: Handle) -> Bytes {
        held(self.memory(s), h)
    }

    /// Whether the device has the buffers of a recording, and `more` can be
    /// numbered.
    pub open spec fn ready(self, s: Recording, more: int) -> bool {
        &&& self.memory(s).len() == s.buffers.len()
        &&& s.buffers.len() + more <= usize::MAX
    }
}

/// A buffer of 32-bit words as a kernel is given it.
pub open spec fn word(held: Bytes, len: int) -> Operand {
    Operand { held, len: len as u64, element: Element::Word }
}

/// A buffer of bytes as a kernel is given it.
pub open spec fn byte(held: Bytes, len: int) -> Operand {
    Operand { held, len: len as u64, element: Element::Byte }
}

/// Numbers as a buffer holds them.
pub open spec fn stored_numbers(s: Seq<Float32>) -> Bytes {
    bytes_of_words(bits_of(s))
}

/// What a buffer holds that a command makes.
pub open spec fn content(d: DeviceModel, c: CommandSpec) -> Bytes {
    match c {
        CommandSpec::Empty { bytes } => (d.fresh)(bytes),
        CommandSpec::Create { words } => bytes_of_words(words),
        CommandSpec::Fill { len, word } => bytes_of_words(Seq::new(len as nat, |i: int| word)),
        CommandSpec::CreateBytes { data } => data,
        _ => Seq::empty(),
    }
}

/// What a launch leaves in its arrays, on buffers that hold `memory`.
pub open spec fn left(d: DeviceModel, memory: Seq<Bytes>, l: LaunchSpec) -> Seq<Bytes> {
    (d.kernels)(l.kernel, l.grid, operands(memory, l.arrays), l.scalars)
}

/// Whether some buffers are still as they were.
pub open spec fn kept(before: Seq<Bytes>, after: Seq<Bytes>) -> bool {
    &&& before.len() <= after.len()
    &&& forall|i: int| 0 <= i < before.len() ==> #[trigger] after[i] == before[i]
}

/// A buffer made.
pub proof fn lemma_made(run: Run, s: Recording, s1: Recording, c: CommandSpec)
    requires
        s1.commands == s.commands.push(c),
        !(c is Launch) && !(c is Read),
    ensures
        run.memory(s1) == run.memory(s).push(content(run.device, c)),
        run.replies(s1) == run.replies(s),
{
    assert(s1.commands.drop_last() =~= s.commands);
    assert(s1.commands.last() == c);
}

/// Buffers read back.
pub proof fn lemma_read(run: Run, s: Recording, handles: Seq<Handle>)
    ensures
        run.memory(s.read(handles)) == run.memory(s),
        run.replies(s.read(handles)) == run.replies(s) + Seq::new(
            handles.len(),
            |i: int| run.held(s, handles[i]),
        ),
{
    let c = CommandSpec::Read { handles };
    assert(s.read(handles).commands.drop_last() =~= s.commands);
    assert(s.read(handles).commands.last() == c);
    assert(run.replies(s.read(handles)) =~= run.replies(s) + Seq::new(
        handles.len(),
        |i: int| run.held(s, handles[i]),
    ));
}

/// A kernel launched.
pub proof fn lemma_launched(run: Run, s: Recording, l: LaunchSpec)
    ensures
        run.memory(s.launch(l)) == stored(
            run.memory(s),
            l,
            left(run.device, run.memory(s), l),
            l.arrays.len() as int,
        ),
        run.replies(s.launch(l)) == run.replies(s),
{
    let c = CommandSpec::Launch { launch: l };
    assert(s.launch(l).commands.drop_last() =~= s.commands);
    assert(s.launch(l).commands.last() == c);
}

/// A buffer that a launch does not write is as it was.
pub proof fn lemma_not_stored(m: Seq<Bytes>, l: LaunchSpec, out: Seq<Bytes>, n: int, id: int)
    requires
        n <= l.arrays.len(),
        0 <= id < m.len(),
        forall|j: int|
            0 <= j < n && writes(l.kernel, j) ==> (#[trigger] l.arrays[j]).handle.id != id,
    ensures
        stored(m, l, out, n).len() == m.len(),
        stored(m, l, out, n)[id] == m[id],
    decreases n,
{
    if n > 0 {
        lemma_not_stored(m, l, out, n - 1, id);
        assert(writes(l.kernel, n - 1) ==> l.arrays[n - 1].handle.id != id);
    }
}

pub proof fn lemma_stored_len(m: Seq<Bytes>, l: LaunchSpec, out: Seq<Bytes>, n: int)
    ensures
        stored(m, l, out, n).len() == m.len(),
    decreases n,
{
    if n > 0 {
        lemma_stored_len(m, l, out, n - 1);
    }
}

/// A buffer that a launch writes holds what the kernel leaves there.
pub proof fn lemma_stored(m: Seq<Bytes>, l: LaunchSpec, out: Seq<Bytes>, n: int, k: int)
    requires
        0 <= k < n <= l.arrays.len(),
        l.arrays[k].handle.id < m.len(),
        writes(l.kernel, k),
        forall|j: int|
            k < j < n && writes(l.kernel, j) ==> (#[trigger] l.arrays[j]).handle.id
                != l.arrays[k].handle.id,
    ensures
        stored(m, l, out, n).len() == m.len(),
        stored(m, l, out, n)[l.arrays[k].handle.id as int] == out[k],
    decreases n,
{
    lemma_stored_len(m, l, out, n - 1);
    if k < n - 1 {
        lemma_stored(m, l, out, n - 1, k);
        assert(writes(l.kernel, n - 1) ==> l.arrays[n - 1].handle.id != l.arrays[k].handle.id);
    }
}

/// A kernel launched that fills the last buffer made.
pub proof fn lemma_one_filled(
    run: Run,
    s: Recording,
    v: Bytes,
    before: Seq<Bytes>,
    l: LaunchSpec,
    k: int,
)
    requires
        run.memory(s) == before.push(v),
        before.len() <= usize::MAX,
        0 <= k < l.arrays.len(),
        l.arrays[k].handle.id == before.len(),
        forall|j: int| 0 <= j < l.arrays.len() ==> (#[trigger] writes(l.kernel, j) <==> j == k),
    ensures
        run.memory(s.launch(l)) == before.push(left(run.device, before.push(v), l)[k]),
        run.replies(s.launch(l)) == run.replies(s),
{
    lemma_launched(run, s, l);
    let m = before.push(v);
    let out = left(run.device, m, l);
    let n = l.arrays.len() as int;
    assert(writes(l.kernel, k));
    lemma_stored(m, l, out, n, k);
    assert forall|id: int| 0 <= id < m.len() implies #[trigger] stored(m, l, out, n)[id]
        == before.push(out[k])[id] by {
        if id < before.len() {
            assert forall|j: int| 0 <= j < n && writes(l.kernel, j) implies (
            #[trigger] l.arrays[j]).handle.id
                != id by {
                assert(writes(l.kernel, j));
            }
            lemma_not_stored(m, l, out, n, id);
        }
    }
    assert(stored(m, l, out, n) =~= before.push(out[k]));
}

/// A kernel launched that fills the last three buffers made.
pub proof fn lemma_three_filled(
    run: Run,
    s: Recording,
    v: Bytes,
    before: Seq<Bytes>,
    l: LaunchSpec,
    k: int,
)
    requires
        run.memory(s) == before.push(v).push(v).push(v),
        before.len() + 3 <= usize::MAX,
        0 <= k,
        k + 3 <= l.arrays.len(),
        l.arrays[k].handle.id == before.len(),
        l.arrays[k + 1].handle.id == before.len() + 1,
        l.arrays[k + 2].handle.id == before.len() + 2,
        forall|j: int|
            0 <= j < l.arrays.len() ==> (#[trigger] writes(l.kernel, j) <==> k <= j < k + 3),
    ensures
        ({
            let out = left(run.device, before.push(v).push(v).push(v), l);
            run.memory(s.launch(l)) == before.push(out[k]).push(out[k + 1]).push(out[k + 2])
        }),
        run.replies(s.launch(l)) == run.replies(s),
{
    lemma_launched(run, s, l);
    let m = before.push(v).push(v).push(v);
    let out = left(run.device, m, l);
    let n = l.arrays.len() as int;
    assert(writes(l.kernel, k) && writes(l.kernel, k + 1) && writes(l.kernel, k + 2));
    assert forall|j: int| k < j < n && writes(l.kernel, j) implies (
    #[trigger] l.arrays[j]).handle.id
        != l.arrays[k].handle.id by {
        assert(j == k + 1 || j == k + 2);
    }
    assert forall|j: int| k + 1 < j < n && writes(l.kernel, j) implies (
    #[trigger] l.arrays[j]).handle.id
        != l.arrays[k + 1].handle.id by {
        assert(j == k + 2);
    }
    lemma_stored(m, l, out, n, k);
    lemma_stored(m, l, out, n, k + 1);
    lemma_stored(m, l, out, n, k + 2);
    let after = before.push(out[k]).push(out[k + 1]).push(out[k + 2]);
    assert forall|id: int| 0 <= id < m.len() implies #[trigger] stored(m, l, out, n)[id]
        == after[id] by {
        if id < before.len() {
            assert forall|j: int| 0 <= j < n && writes(l.kernel, j) implies (
            #[trigger] l.arrays[j]).handle.id
                != id by {
                assert(j == k || j == k + 1 || j == k + 2);
            }
            lemma_not_stored(m, l, out, n, id);
        }
    }
    assert(stored(m, l, out, n) =~= after);
}

} // verus!
