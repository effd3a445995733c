//! What carrying out commands comes to, on any device.

use crate::device::{
    ArrayArg, CommandSpec, Element, Grid, Handle, Kernel, LaunchSpec, Recording, Scalar,
};
use vstd::prelude::*;

verus! {

/// What a kernel is given of an array: what the buffer holds, and how much of
/// it the kernel claims.
pub struct Operand {
    pub held: Seq<u8>,
    pub len: u64,
    pub element: Element,
}

/// A device: what its kernels leave in the buffers that they write, and what a
/// buffer of a given size holds before anything was put there.
pub struct DeviceModel {
    pub kernels: spec_fn(Kernel, Grid, Seq<Operand>, Seq<Scalar>) -> Seq<Seq<u8>>,
    pub fresh: spec_fn(u64) -> Seq<u8>,
}

/// Whether a kernel writes the array at position `j`. Of the kernels that are
/// not named here, this claims nothing.
pub open spec fn writes(kernel: Kernel, j: int) -> bool {
    match kernel {
        Kernel::XybForward | Kernel::XybInverse => j >= 3,
        Kernel::Gaborish5x5
        | Kernel::GabSmooth
        | Kernel::GatherBlocks
        | Kernel::ScatterBlocks
        | Kernel::Dct8x8Wide
        | Kernel::Idct8x8Wide
        | Kernel::PadPlane
        | Kernel::RestoreDc => j == 1,
        Kernel::GabSmooth3ch => j >= 3,
        Kernel::QuantizeDct8BroadcastW => j == 4,
        Kernel::DequantDct8BroadcastW => j >= 11,
        Kernel::EpfStep1 | Kernel::EpfStep2 => 3 <= j < 6,
        Kernel::U8RgbToLinearPlanarPadded => j >= 1,
        Kernel::Mask1x1 | Kernel::BlockMaskMean | Kernel::DcGrid8x8 => j == 1,
        Kernel::Dct8x8
        | Kernel::Dct4x4Full
        | Kernel::Dct4x8Full
        | Kernel::Dct8x4Full
        | Kernel::IdentityForward
        | Kernel::Dct2x2Forward
        | Kernel::Dct16x16
        | Kernel::Dct16x8
        | Kernel::Dct8x16
        | Kernel::Dct32x32
        | Kernel::Dct32x16
        | Kernel::Dct16x32
        | Kernel::Dct64x64
        | Kernel::Dct64x32
        | Kernel::Dct32x64
        | Kernel::Idct8x8
        | Kernel::Idct4x4Full
        | Kernel::Idct4x8Full
        | Kernel::Idct8x4Full
        | Kernel::IdentityInverse
        | Kernel::Dct2x2Inverse
        | Kernel::Idct16x16
        | Kernel::Idct16x8
        | Kernel::Idct8x16
        | Kernel::Idct32x32
        | Kernel::Idct32x16
        | Kernel::Idct16x32
        | Kernel::Idct64x64
        | Kernel::Idct64x32
        | Kernel::Idct32x64 => j == 1,
        Kernel::QuantizeDct8 | Kernel::QuantizeLarge => j == 4,
        Kernel::DequantWeights | Kernel::DequantWeightsDct8 => j == 2,
        Kernel::BlockL2 => j == 7,
        _ => true,
    }
}

/// The buffers of a device, and all that was read back.
pub struct Outcome {
    pub memory: Seq<Seq<u8>>,
    pub replies: Seq<Seq<u8>>,
}

/// What a buffer holds; nothing, where there is none.
pub open spec fn held(memory: Seq<Seq<u8>>, h: Handle) -> Seq<u8> {
    if h.id < memory.len() {
        memory[h.id as int]
    } else {
        Seq::empty()
    }
}

/// What a kernel is given of its arrays.
pub open spec fn operands(memory: Seq<Seq<u8>>, arrays: Seq<ArrayArg>) -> Seq<Operand> {
    Seq::new(
        arrays.len(),
        |j: int|
            Operand {
                held: held(memory, arrays[j].handle),
                len: arrays[j].len,
                element: arrays[j].element,
            },
    )
}

/// The buffers with the first `n` arrays of a launch replaced by `left`, those
/// that the kernel writes.
pub open spec fn stored(memory: Seq<Seq<u8>>, l: LaunchSpec, left: Seq<Seq<u8>>, n: int) -> Seq<
    Seq<u8>,
>
    decreases n,
{
    if n <= 0 {
        memory
    } else {
        let before = stored(memory, l, left, n - 1);
        let id = l.arrays[n - 1].handle.id;
        if writes(l.kernel, n - 1) && id < before.len() {
            before.update(id as int, left[n - 1])
        } else {
            before
        }
    }
}

/// The bytes of 32-bit words, low bytes first.
pub open spec fn bytes_of_words(words: Seq<u32>) -> Seq<u8> {
    Seq::new(words.len() * 4, |i: int| (words[i / 4] >> ((8 * (i % 4)) as u32)) as u8)
}

/// One command carried out.
pub open spec fn carried_out(d: DeviceModel, o: Outcome, c: CommandSpec) -> Outcome {
    match c {
        CommandSpec::Empty { bytes } => Outcome { memory: o.memory.push((d.fresh)(bytes)), ..o },
        CommandSpec::Create { words } => Outcome {
            memory: o.memory.push(bytes_of_words(words)),
            ..o
        },
        CommandSpec::Fill { len, word } => Outcome {
            memory: o.memory.push(bytes_of_words(Seq::new(len as nat, |i: int| word))),
            ..o
        },
        CommandSpec::CreateBytes { data } => Outcome { memory: o.memory.push(data), ..o },
        CommandSpec::Launch { launch } => {
            let left = (d.kernels)(
                launch.kernel,
                launch.grid,
                operands(o.memory, launch.arrays),
                launch.scalars,
            );
            Outcome { memory: stored(o.memory, launch, left, launch.arrays.len() as int), ..o }
        },
        CommandSpec::Read { handles } => Outcome {
            replies: o.replies + Seq::new(handles.len(), |i: int| held(o.memory, handles[i])),
            ..o
        },
    }
}

/// Commands carried out one after the other, on a device whose buffers hold
/// `memory`.
pub open spec fn outcome(
    d: DeviceModel,
    memory: Seq<Seq<u8>>,
    commands: Seq<CommandSpec>,
) -> Outcome
    decreases commands.len(),
{
    if commands.len() == 0 {
        Outcome { memory, replies: Seq::empty() }
    } else {
        carried_out(d, outcome(d, memory, commands.drop_last()), commands.last())
    }
}

/// What a recording holds beyond an earlier one.
pub open spec fn added(earlier: Recording, later: Recording) -> Seq<CommandSpec> {
    later.commands.skip(earlier.commands.len() as int)
}

/// Whether a recording starts with the commands of an earlier one.
pub open spec fn continues(earlier: Recording, later: Recording) -> bool {
    &&& earlier.commands.len() <= later.commands.len()
    &&& later.commands.take(earlier.commands.len() as int) == earlier.commands
}

/// Whether a command makes a buffer.
pub open spec fn makes(c: CommandSpec) -> bool {
    !(c is Launch) && !(c is Read)
}

/// How many buffers some commands make.
pub open spec fn made(commands: Seq<CommandSpec>) -> nat
    decreases commands.len(),
{
    if commands.len() == 0 {
        0
    } else {
        made(commands.drop_last()) + if makes(commands.last()) {
            1nat
        } else {
            0nat
        }
    }
}

proof fn lemma_stored_len(memory: Seq<Seq<u8>>, l: LaunchSpec, left: Seq<Seq<u8>>, n: int)
    ensures
        stored(memory, l, left, n).len() == memory.len(),
    decreases n,
{
    if n > 0 {
        lemma_stored_len(memory, l, left, n - 1);
    }
}

/// A device has as many buffers as it had, and those that were made.
pub proof fn law_buffers_are_made(d: DeviceModel, memory: Seq<Seq<u8>>, commands: Seq<CommandSpec>)
    ensures
        outcome(d, memory, commands).memory.len() == memory.len() + made(commands),
    decreases commands.len(),
{
    if commands.len() > 0 {
        let rest = commands.drop_last();
        law_buffers_are_made(d, memory, rest);
        if let CommandSpec::Launch { launch } = commands.last() {
            let o = outcome(d, memory, rest);
            let left = (d.kernels)(
                launch.kernel,
                launch.grid,
                operands(o.memory, launch.arrays),
                launch.scalars,
            );
            lemma_stored_len(o.memory, launch, left, launch.arrays.len() as int);
        }
    }
}

/// How many buffers a command reads back.
pub open spec fn reads(c: CommandSpec) -> nat {
    match c {
        CommandSpec::Read { handles } => handles.len(),
        _ => 0,
    }
}

/// How many buffers some commands read back.
pub open spec fn asked(commands: Seq<CommandSpec>) -> nat
    decreases commands.len(),
{
    if commands.len() == 0 {
        0
    } else {
        asked(commands.drop_last()) + reads(commands.last())
    }
}

/// As many buffers come back as were asked for.
pub proof fn law_what_is_asked_comes_back(
    d: DeviceModel,
    memory: Seq<Seq<u8>>,
    commands: Seq<CommandSpec>,
)
    ensures
        outcome(d, memory, commands).replies.len() == asked(commands),
    decreases commands.len(),
{
    if commands.len() > 0 {
        law_what_is_asked_comes_back(d, memory, commands.drop_last());
    }
}

/// Commands carried out in two parts.
pub proof fn law_outcome_of_parts(
    d: DeviceModel,
    memory: Seq<Seq<u8>>,
    a: Seq<CommandSpec>,
    b: Seq<CommandSpec>,
)
    ensures
        outcome(d, memory, a + b).memory == outcome(
            d,
            outcome(d, memory, a).memory,
            b,
        ).memory,
        outcome(d, memory, a + b).replies == outcome(d, memory, a).replies + outcome(
            d,
            outcome(d, memory, a).memory,
            b,
        ).replies,
    decreases b.len(),
{
    if b.len() == 0 {
        assert(a + b =~= a);
    } else {
        law_outcome_of_parts(d, memory, a, b.drop_last());
        assert((a + b).drop_last() =~= a + b.drop_last());
        assert((a + b).last() == b.last());
        let first = outcome(d, memory, a);
        let x = outcome(d, memory, a + b.drop_last());
        let y = outcome(d, first.memory, b.drop_last());
        assert(carried_out(d, x, b.last()).replies =~= first.replies + carried_out(
            d,
            y,
            b.last(),
        ).replies);
    }
}

/// A place in a recording and one in another with more buffers.
pub struct Shift {
    pub from: Recording,
    pub to: Recording,
}

impl Shift {
    /// The buffers below this number are common to both recordings.
    pub open spec fn line(self) -> int {
        self.from.buffers.len() as int
    }

    /// By how much the numbers of the other buffers differ.
    pub open spec fn offset(self) -> int {
        self.to.buffers.len() - self.from.buffers.len()
    }

    pub open spec fn place(self, id: int) -> int {
        if id < self.line() {
            id
        } else {
            id + self.offset()
        }
    }

    /// The same buffer in the other recording.
    pub open spec fn moved(self, h: Handle) -> Handle {
        Handle { id: self.place(h.id as int) as usize }
    }

    pub open spec fn moved_array(self, a: ArrayArg) -> ArrayArg {
        ArrayArg { handle: self.moved(a.handle), ..a }
    }

    pub open spec fn moved_arrays(self, arrays: Seq<ArrayArg>) -> Seq<ArrayArg> {
        Seq::new(arrays.len(), |j: int| self.moved_array(arrays[j]))
    }

    pub open spec fn moved_launch(self, l: LaunchSpec) -> LaunchSpec {
        LaunchSpec { arrays: self.moved_arrays(l.arrays), ..l }
    }

    /// The same command in the other recording.
    pub open spec fn moved_command(self, c: CommandSpec) -> CommandSpec {
        match c {
            CommandSpec::Launch { launch } => CommandSpec::Launch {
                launch: self.moved_launch(launch),
            },
            CommandSpec::Read { handles } => CommandSpec::Read {
                handles: Seq::new(handles.len(), |i: int| self.moved(handles[i])),
            },
            _ => c,
        }
    }

    pub open spec fn countable(self, h: Handle) -> bool {
        h.id + self.offset() <= usize::MAX
    }

    pub open spec fn safe_array(self, kernel: Kernel, arrays: Seq<ArrayArg>, j: int) -> bool {
        &&& self.countable(arrays[j].handle)
        &&& writes(kernel, j) ==> arrays[j].handle.id >= self.line()
    }

    /// Whether a command leaves the common buffers as they are, and its
    /// buffers can be numbered in the other recording.
    pub open spec fn safe(self, c: CommandSpec) -> bool {
        match c {
            CommandSpec::Launch { launch } => forall|j: int|
                0 <= j < launch.arrays.len() ==> #[trigger] self.safe_array(
                    launch.kernel,
                    launch.arrays,
                    j,
                ),
            CommandSpec::Read { handles } => forall|i: int|
                0 <= i < handles.len() ==> self.countable(#[trigger] handles[i]),
            _ => true,
        }
    }

    /// Whether the buffers of both recordings hold the same.
    pub open spec fn alike(self, a: Seq<Seq<u8>>, b: Seq<Seq<u8>>) -> bool {
        &&& 0 <= self.offset()
        &&& self.line() <= a.len()
        &&& b.len() == a.len() + self.offset()
        &&& forall|i: int| 0 <= i < a.len() ==> #[trigger] b[self.place(i)] == a[i]
    }
}

proof fn lemma_held_alike(t: Shift, a: Seq<Seq<u8>>, b: Seq<Seq<u8>>, h: Handle)
    requires
        t.alike(a, b),
        t.countable(h),
    ensures
        held(b, t.moved(h)) == held(a, h),
{
    if h.id < a.len() {
        assert(b[t.place(h.id as int)] == a[h.id as int]);
    }
}

proof fn lemma_update_alike(t: Shift, a: Seq<Seq<u8>>, b: Seq<Seq<u8>>, id: int, v: Seq<u8>)
    requires
        t.alike(a, b),
        0 <= id < a.len(),
    ensures
        t.alike(a.update(id, v), b.update(t.place(id), v)),
{
    let a2 = a.update(id, v);
    let b2 = b.update(t.place(id), v);
    assert forall|i: int| 0 <= i < a2.len() implies #[trigger] b2[t.place(i)] == a2[i] by {
        assert(b[t.place(i)] == a[i]);
    }
}

proof fn lemma_push_alike(t: Shift, a: Seq<Seq<u8>>, b: Seq<Seq<u8>>, v: Seq<u8>)
    requires
        t.alike(a, b),
    ensures
        t.alike(a.push(v), b.push(v)),
{
    assert forall|i: int| 0 <= i < a.push(v).len() implies #[trigger] b.push(v)[t.place(i)]
        == a.push(v)[i] by {
        if i < a.len() {
            assert(b[t.place(i)] == a[i]);
        }
    }
}

proof fn lemma_stored_alike(
    t: Shift,
    a: Seq<Seq<u8>>,
    b: Seq<Seq<u8>>,
    l: LaunchSpec,
    left: Seq<Seq<u8>>,
    n: int,
)
    requires
        t.alike(a, b),
        t.safe(CommandSpec::Launch { launch: l }),
        n <= l.arrays.len(),
    ensures
        t.alike(stored(a, l, left, n), stored(b, t.moved_launch(l), left, n)),
        stored(a, l, left, n).len() == a.len(),
    decreases n,
{
    if n > 0 {
        lemma_stored_alike(t, a, b, l, left, n - 1);
        let x = stored(a, l, left, n - 1);
        let id = l.arrays[n - 1].handle.id as int;
        assert(t.safe_array(l.kernel, l.arrays, n - 1));
        if writes(l.kernel, n - 1) && id < x.len() {
            lemma_update_alike(t, x, stored(b, t.moved_launch(l), left, n - 1), id, left[n - 1]);
        }
    }
}

/// The common buffers keep what they hold.
proof fn lemma_stored_keeps(
    t: Shift,
    a: Seq<Seq<u8>>,
    l: LaunchSpec,
    left: Seq<Seq<u8>>,
    n: int,
    i: int,
)
    requires
        t.safe(CommandSpec::Launch { launch: l }),
        n <= l.arrays.len(),
        0 <= i < t.line() <= a.len(),
    ensures
        stored(a, l, left, n).len() == a.len(),
        stored(a, l, left, n)[i] == a[i],
    decreases n,
{
    if n > 0 {
        lemma_stored_keeps(t, a, l, left, n - 1, i);
        assert(t.safe_array(l.kernel, l.arrays, n - 1));
    }
}

/// Commands that are safe leave the common buffers as they are.
pub proof fn law_safe_commands_keep(
    d: DeviceModel,
    t: Shift,
    memory: Seq<Seq<u8>>,
    commands: Seq<CommandSpec>,
    i: int,
)
    requires
        0 <= i < t.line() <= memory.len(),
        forall|k: int| 0 <= k < commands.len() ==> t.safe(#[trigger] commands[k]),
    ensures
        outcome(d, memory, commands).memory.len() >= memory.len(),
        outcome(d, memory, commands).memory[i] == memory[i],
    decreases commands.len(),
{
    if commands.len() > 0 {
        let rest = commands.drop_last();
        assert forall|k: int| 0 <= k < rest.len() implies t.safe(#[trigger] rest[k]) by {
            assert(t.safe(commands[k]));
        }
        law_safe_commands_keep(d, t, memory, rest, i);
        let o = outcome(d, memory, rest);
        assert(t.safe(commands[commands.len() - 1]));
        if let CommandSpec::Launch { launch } = commands.last() {
            let left = (d.kernels)(
                launch.kernel,
                launch.grid,
                operands(o.memory, launch.arrays),
                launch.scalars,
            );
            lemma_stored_keeps(t, o.memory, launch, left, launch.arrays.len() as int, i);
        }
    }
}

/// The same commands on other buffers that hold the same come to the same.
pub proof fn law_moved_commands_do_the_same(
    d: DeviceModel,
    t: Shift,
    a: Seq<Seq<u8>>,
    b: Seq<Seq<u8>>,
    commands: Seq<CommandSpec>,
    others: Seq<CommandSpec>,
)
    requires
        t.alike(a, b),
        others.len() == commands.len(),
        forall|k: int|
            0 <= k < commands.len() ==> #[trigger] others[k] == t.moved_command(commands[k]),
        forall|k: int| 0 <= k < commands.len() ==> t.safe(#[trigger] commands[k]),
    ensures
        t.alike(outcome(d, a, commands).memory, outcome(d, b, others).memory),
        outcome(d, a, commands).replies == outcome(d, b, others).replies,
    decreases commands.len(),
{
    if commands.len() > 0 {
        let rest = commands.drop_last();
        let rest2 = others.drop_last();
        assert forall|k: int| 0 <= k < rest.len() implies #[trigger] rest2[k] == t.moved_command(
            rest[k],
        ) by {
            assert(others[k] == t.moved_command(commands[k]));
        }
        assert forall|k: int| 0 <= k < rest.len() implies t.safe(#[trigger] rest[k]) by {
            assert(t.safe(commands[k]));
        }
        law_moved_commands_do_the_same(d, t, a, b, rest, rest2);
        let x = outcome(d, a, rest);
        let y = outcome(d, b, rest2);
        let c = commands.last();
        assert(others.last() == t.moved_command(c)) by {
            assert(others[commands.len() - 1] == t.moved_command(commands[commands.len() - 1]));
        }
        assert(t.safe(commands[commands.len() - 1]));
        match c {
            CommandSpec::Launch { launch } => {
                let moved = t.moved_launch(launch);
                assert forall|j: int| 0 <= j < launch.arrays.len() implies held(
                    y.memory,
                    #[trigger] moved.arrays[j].handle,
                ) == held(x.memory, launch.arrays[j].handle) by {
                    assert(t.safe_array(launch.kernel, launch.arrays, j));
                    lemma_held_alike(t, x.memory, y.memory, launch.arrays[j].handle);
                }
                assert(operands(y.memory, moved.arrays) =~= operands(x.memory, launch.arrays));
                let left = (d.kernels)(
                    launch.kernel,
                    launch.grid,
                    operands(x.memory, launch.arrays),
                    launch.scalars,
                );
                lemma_stored_alike(
                    t,
                    x.memory,
                    y.memory,
                    launch,
                    left,
                    launch.arrays.len() as int,
                );
            },
            CommandSpec::Read { handles } => {
                let others = Seq::new(handles.len(), |i: int| t.moved(handles[i]));
                assert forall|i: int| 0 <= i < handles.len() implies held(
                    y.memory,
                    #[trigger] others[i],
                ) == held(x.memory, handles[i]) by {
                    assert(t.countable(handles[i]));
                    lemma_held_alike(t, x.memory, y.memory, handles[i]);
                }
                assert(carried_out(d, x, c).replies =~= carried_out(
                    d,
                    y,
                    t.moved_command(c),
                ).replies);
            },
            CommandSpec::Empty { bytes } => {
                lemma_push_alike(t, x.memory, y.memory, (d.fresh)(bytes));
            },
            CommandSpec::Create { words } => {
                lemma_push_alike(t, x.memory, y.memory, bytes_of_words(words));
            },
            CommandSpec::Fill { len, word } => {
                let words = Seq::new(len as nat, |i: int| word);
                lemma_push_alike(t, x.memory, y.memory, bytes_of_words(words));
            },
            CommandSpec::CreateBytes { data } => {
                lemma_push_alike(t, x.memory, y.memory, data);
            },
        }
    }
}

} // verus!
