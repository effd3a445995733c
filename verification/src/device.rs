//! Work for the device, recorded as plain values.
//!
//! The library decides what the device is to do: which buffers to make, what
//! to put in them, which kernels to launch on which buffers with which grid,
//! and what to read back. A [`GpuEncoder`] records those commands in order.
//! Carrying them out is left to the caller, who owns the device.
//!
//! A kernel is launched unchecked, so a launch must claim no more of a buffer
//! than the buffer holds. A recording is well formed if no launch does.

use crate::float::Float32;
use vstd::prelude::*;

verus! {

/// A buffer on the device, by its number in the order of creation.
#[derive(Clone, Copy, Debug, PartialEq, Eq, Structural)]
pub struct Handle {
    pub id: usize,
}

/// What an array is made of.
#[derive(Clone, Copy, Debug, PartialEq, Eq, Structural)]
pub enum Element {
    /// Bytes.
    Byte,
    /// 32-bit numbers.
    Word,
    /// 64-bit numbers.
    Double,
}

/// A buffer as a kernel sees it: an array of `len` elements.
#[derive(Clone, Copy, Debug, PartialEq, Eq, Structural)]
pub struct ArrayArg {
    pub handle: Handle,
    pub len: u64,
    pub element: Element,
}

impl ArrayArg {
    /// How many bytes of the buffer the array claims.
    pub open spec fn size(self) -> int {
        match self.element {
            Element::Byte => self.len as int,
            Element::Word => 4 * self.len,
            Element::Double => 8 * self.len,
        }
    }
}

/// A number handed to a kernel.
#[derive(Clone, Copy, Debug, PartialEq, Eq, Structural)]
pub enum Scalar {
    U32(u32),
    F32(Float32),
}

/// How the threads of a launch are laid out.
#[derive(Clone, Copy, Debug, PartialEq, Eq, Structural)]
pub enum Grid {
    /// `count` cubes in a row, each of `threads` threads in a row.
    Cubes { count: u32, threads: u32 },
    /// At least one thread for each of `count` items; the layout is the
    /// device's choice.
    Items { count: u32 },
}

/// The number of cubes of `threads` threads that hold `n` threads, and at
/// least one.
pub open spec fn cubes_for(n: int, threads: int) -> int {
    let cubes = (n + threads - 1) / threads;
    if cubes >= 1 {
        cubes
    } else {
        1
    }
}

/// One thread for each of `n` items, `threads` to a cube.
pub open spec fn spread(n: int, threads: u32) -> Grid {
    Grid::Cubes { count: cubes_for(n, threads as int) as u32, threads }
}

/// One cube of `threads` threads for each of `n` blocks.
pub open spec fn cube_each(n: u32, threads: u32) -> Grid {
    Grid::Cubes {
        count: if n >= 1 {
            n
        } else {
            1
        },
        threads,
    }
}

/// The grid of [`spread`].
pub(crate) fn spread_over(n: u32, threads: u32) -> (r: Grid)
    requires
        threads > 0,
    ensures
        r == spread(n as int, threads),
{
    let mut count: u32 = n / threads;
    if n % threads != 0 {
        proof {
            vstd::arithmetic::div_mod::lemma_fundamental_div_mod(n as int, threads as int);
            assert(count < n) by (nonlinear_arith)
                requires
                    n == threads * count + n % threads,
                    n % threads > 0,
                    threads >= 1,
                    count >= 0,
            ;
        }
        count = count + 1;
    }
    proof {
        lemma_ceil(n as int, threads as int);
    }
    if count == 0 {
        count = 1;
    }
    Grid::Cubes { count, threads }
}

pub proof fn lemma_ceil(n: int, d: int)
    requires
        n >= 0,
        d > 0,
    ensures
        (n + d - 1) / d == n / d + if n % d != 0 {
            1int
        } else {
            0int
        },
{
    vstd::arithmetic::div_mod::lemma_fundamental_div_mod(n, d);
    let q = n / d;
    let r = n % d;
    if r == 0 {
        assert(n + d - 1 == q * d + (d - 1)) by (nonlinear_arith)
            requires
                n == d * q + r,
                r == 0,
        ;
        vstd::arithmetic::div_mod::lemma_fundamental_div_mod_converse(n + d - 1, d, q, d - 1);
    } else {
        assert(n + d - 1 == (q + 1) * d + (r - 1)) by (nonlinear_arith)
            requires
                n == d * q + r,
        ;
        vstd::arithmetic::div_mod::lemma_fundamental_div_mod_converse(n + d - 1, d, q + 1, r - 1);
    }
}

/// The grid of [`cube_each`].
pub(crate) fn one_cube_each(n: u32, threads: u32) -> (r: Grid)
    ensures
        r == cube_each(n, threads),
{
    if n >= 1 {
        Grid::Cubes { count: n, threads }
    } else {
        Grid::Cubes { count: 1, threads }
    }
}

/// The product of two 32-bit numbers.
pub(crate) fn area(a: u32, b: u32) -> (r: u64)
    ensures
        r == a * b,
{
    assert(a * b <= 0xffff_ffff * 0xffff_ffff) by (nonlinear_arith)
        requires
            a <= 0xffff_ffff,
            b <= 0xffff_ffff,
    ;
    a as u64 * b as u64
}

/// An array of 32-bit elements.
pub open spec fn words(handle: Handle, len: int) -> ArrayArg {
    ArrayArg { handle, len: len as u64, element: Element::Word }
}

/// An array of 64-bit elements.
pub open spec fn doubles(handle: Handle, len: int) -> ArrayArg {
    ArrayArg { handle, len: len as u64, element: Element::Double }
}

/// An array of bytes.
pub open spec fn bytes(handle: Handle, len: int) -> ArrayArg {
    ArrayArg { handle, len: len as u64, element: Element::Byte }
}

pub(crate) fn word_array(handle: Handle, len: u64) -> (r: ArrayArg)
    ensures
        r == words(handle, len as int),
{
    ArrayArg { handle, len, element: Element::Word }
}

pub(crate) fn double_array(handle: Handle, len: u64) -> (r: ArrayArg)
    ensures
        r == doubles(handle, len as int),
{
    ArrayArg { handle, len, element: Element::Double }
}

pub(crate) fn byte_array(handle: Handle, len: u64) -> (r: ArrayArg)
    ensures
        r == bytes(handle, len as int),
{
    ArrayArg { handle, len, element: Element::Byte }
}

/// A kernel with its grid and arguments.
pub struct Launch {
    pub kernel: Kernel,
    pub grid: Grid,
    pub arrays: Vec<ArrayArg>,
    pub scalars: Vec<Scalar>,
}

/// What a [`Launch`] stands for.
pub struct LaunchSpec {
    pub kernel: Kernel,
    pub grid: Grid,
    pub arrays: Seq<ArrayArg>,
    pub scalars: Seq<Scalar>,
}

impl View for Launch {
    type V = LaunchSpec;

    open spec fn view(&self) -> LaunchSpec {
        LaunchSpec {
            kernel: self.kernel,
            grid: self.grid,
            arrays: self.arrays@,
            scalars: self.scalars@,
        }
    }
}

impl LaunchSpec {
    /// Whether the launch claims no more of each buffer than it holds.
    pub open spec fn fits(self, buffers: Seq<u64>) -> bool {
        forall|i: int|
            0 <= i < self.arrays.len() ==> array_fits(#[trigger] self.arrays[i], buffers)
    }
}

/// Whether an array lies within its buffer.
pub open spec fn array_fits(a: ArrayArg, buffers: Seq<u64>) -> bool {
    a.handle.id < buffers.len() && a.size() <= buffers[a.handle.id as int]
}

/// One step for the device.
pub enum Command {
    /// Make a buffer of `bytes` bytes, whatever they hold.
    Empty { bytes: u64 },
    /// Make a buffer that holds these 32-bit words.
    Create { words: Vec<u32> },
    /// Make a buffer that holds `len` times the same 32-bit word.
    Fill { len: u64, word: u32 },
    /// Make a buffer that holds these bytes.
    CreateBytes { data: Vec<u8> },
    /// Launch a kernel.
    Launch { launch: Launch },
    /// Read buffers back, in this order.
    Read { handles: Vec<Handle> },
}

/// What a [`Command`] stands for.
pub enum CommandSpec {
    Empty { bytes: u64 },
    Create { words: Seq<u32> },
    Fill { len: u64, word: u32 },
    CreateBytes { data: Seq<u8> },
    Launch { launch: LaunchSpec },
    Read { handles: Seq<Handle> },
}

impl View for Command {
    type V = CommandSpec;

    open spec fn view(&self) -> CommandSpec {
        match self {
            Command::Empty { bytes } => CommandSpec::Empty { bytes: *bytes },
            Command::Create { words } => CommandSpec::Create { words: words@ },
            Command::Fill { len, word } => CommandSpec::Fill { len: *len, word: *word },
            Command::CreateBytes { data } => CommandSpec::CreateBytes { data: data@ },
            Command::Launch { launch } => CommandSpec::Launch { launch: launch@ },
            Command::Read { handles } => CommandSpec::Read { handles: handles@ },
        }
    }
}

/// Records the commands for a device.
pub struct GpuEncoder {
    buffers: Vec<u64>,
    commands: Vec<Command>,
}

/// What a [`GpuEncoder`] has recorded: the size in bytes of every buffer, and
/// the commands that have not been taken.
pub struct Recording {
    pub buffers: Seq<u64>,
    pub commands: Seq<CommandSpec>,
}

impl View for GpuEncoder {
    type V = Recording;

    closed spec fn view(&self) -> Recording {
        Recording {
            buffers: self.buffers@,
            commands: self.commands@.map_values(|c: Command| c@),
        }
    }
}

impl Recording {
    /// Whether no launch claims more of a buffer than it holds, and every
    /// buffer that is read back exists.
    pub open spec fn wf(self) -> bool {
        forall|i: int|
            0 <= i < self.commands.len() ==> command_fits(#[trigger] self.commands[i], self.buffers)
    }

    /// The handle of the buffer made next.
    pub open spec fn next(self) -> Handle {
        Handle { id: self.buffers.len() as usize }
    }

    /// With a buffer of `bytes` bytes made.
    pub open spec fn empty(self, bytes: int) -> Recording {
        Recording {
            buffers: self.buffers.push(bytes as u64),
            commands: self.commands.push(CommandSpec::Empty { bytes: bytes as u64 }),
        }
    }

    /// With a buffer made that holds `words`.
    pub open spec fn create(self, words: Seq<u32>) -> Recording {
        Recording {
            buffers: self.buffers.push((words.len() * 4) as u64),
            commands: self.commands.push(CommandSpec::Create { words }),
        }
    }

    /// With a buffer made that holds `len` times `word`.
    pub open spec fn fill(self, len: int, word: u32) -> Recording {
        Recording {
            buffers: self.buffers.push((len * 4) as u64),
            commands: self.commands.push(CommandSpec::Fill { len: len as u64, word }),
        }
    }

    /// With a buffer made that holds `data`.
    pub open spec fn create_bytes(self, data: Seq<u8>) -> Recording {
        Recording {
            buffers: self.buffers.push(data.len() as u64),
            commands: self.commands.push(CommandSpec::CreateBytes { data }),
        }
    }

    /// With a kernel launched.
    pub open spec fn launch(self, launch: LaunchSpec) -> Recording {
        Recording {
            buffers: self.buffers,
            commands: self.commands.push(CommandSpec::Launch { launch }),
        }
    }

    /// With buffers read back.
    pub open spec fn read(self, handles: Seq<Handle>) -> Recording {
        Recording {
            buffers: self.buffers,
            commands: self.commands.push(CommandSpec::Read { handles }),
        }
    }

    /// Whether a buffer exists and holds at least `bytes` bytes.
    pub open spec fn holds(self, handle: Handle, bytes: int) -> bool {
        handle.id < self.buffers.len() && self.buffers[handle.id as int] >= bytes
    }

    /// Whether `later` has every buffer of this one, of the same size.
    pub open spec fn grows_into(self, later: Recording) -> bool {
        &&& self.buffers.len() <= later.buffers.len()
        &&& forall|i: int|
            0 <= i < self.buffers.len() ==> #[trigger] later.buffers[i] == self.buffers[i]
    }
}

/// Whether a command keeps within the buffers.
pub open spec fn command_fits(c: CommandSpec, buffers: Seq<u64>) -> bool {
    match c {
        CommandSpec::Launch { launch } => launch.fits(buffers),
        CommandSpec::Read { handles } => forall|i: int|
            0 <= i < handles.len() ==> (#[trigger] handles[i]).id < buffers.len(),
        _ => true,
    }
}

/// More buffers leave a well formed recording well formed.
proof fn lemma_more_buffers(r: Recording, bytes: u64)
    requires
        r.wf(),
    ensures
        (Recording { buffers: r.buffers.push(bytes), commands: r.commands }).wf(),
{
    let more = r.buffers.push(bytes);
    assert forall|i: int| 0 <= i < r.commands.len() implies command_fits(
        #[trigger] r.commands[i],
        more,
    ) by {
        assert(command_fits(r.commands[i], r.buffers));
        if let CommandSpec::Launch { launch } = r.commands[i] {
            assert forall|j: int| 0 <= j < launch.arrays.len() implies array_fits(
                #[trigger] launch.arrays[j],
                more,
            ) by {
                assert(array_fits(launch.arrays[j], r.buffers));
            }
        }
    }
}

/// The buffers of an encoder can be numbered.
pub proof fn law_buffers_are_numbered(enc: GpuEncoder)
    ensures
        enc@.buffers.len() <= usize::MAX,
{
    assert(enc.buffers.len() == enc.buffers@.len());
}

impl GpuEncoder {
    /// An encoder that has recorded nothing.
    pub fn new() -> (r: GpuEncoder)
        ensures
            r@ == (Recording { buffers: Seq::empty(), commands: Seq::empty() }),
            r@.wf(),
    {
        let r: GpuEncoder = GpuEncoder { buffers: Vec::new(), commands: Vec::new() };
        assert(r@.commands =~= Seq::empty());
        r
    }

    /// Hands out the commands recorded so far, in order, and forgets them. The
    /// buffers stay.
    pub fn take_commands(&mut self) -> (r: Vec<Command>)
        ensures
            r@.map_values(|c: Command| c@) == old(self)@.commands,
            final(self)@ == (Recording { buffers: old(self)@.buffers, commands: Seq::empty() }),
            final(self)@.wf(),
    {
        let mut taken: Vec<Command> = Vec::new();
        std::mem::swap(&mut taken, &mut self.commands);
        assert(self@.commands =~= Seq::empty());
        taken
    }

    /// The size of a buffer in bytes, where it exists.
    pub fn buffer_size(&self, handle: Handle) -> (r: Option<u64>)
        ensures
            r == if handle.id < self@.buffers.len() {
                Some(self@.buffers[handle.id as int])
            } else {
                None
            },
    {
        if handle.id < self.buffers.len() {
            Some(self.buffers[handle.id])
        } else {
            None
        }
    }

    /// Makes a buffer of `bytes` bytes.
    pub fn empty(&mut self, bytes: u64) -> (r: Handle)
        ensures
            final(self)@ == old(self)@.empty(bytes as int),
            r == old(self)@.next(),
            old(self)@.wf() ==> final(self)@.wf(),
            old(self)@.grows_into(final(self)@),
            final(self)@.holds(r, bytes as int),
    {
        let id: usize = self.buffers.len();
        proof {
            if self@.wf() {
                lemma_more_buffers(self@, bytes);
            }
        }
        self.buffers.push(bytes);
        self.commands.push(Command::Empty { bytes });
        assert(self@.commands =~= old(self)@.commands.push(CommandSpec::Empty { bytes }));
        Handle { id }
    }

    /// Makes a buffer that holds `words`.
    pub fn create(&mut self, words: Vec<u32>) -> (r: Handle)
        requires
            words@.len() * 4 <= u64::MAX,
        ensures
            final(self)@ == old(self)@.create(words@),
            r == old(self)@.next(),
            old(self)@.wf() ==> final(self)@.wf(),
            old(self)@.grows_into(final(self)@),
            final(self)@.holds(r, (words@.len() * 4) as int),
    {
        let id: usize = self.buffers.len();
        let n: u64 = words.len() as u64 * 4;
        proof {
            if self@.wf() {
                lemma_more_buffers(self@, n);
            }
        }
        let ghost w = words@;
        self.buffers.push(n);
        self.commands.push(Command::Create { words });
        assert(self@.commands =~= old(self)@.commands.push(CommandSpec::Create { words: w }));
        Handle { id }
    }

    /// Makes a buffer that holds `len` times `word`.
    pub fn fill(&mut self, len: u64, word: u32) -> (r: Handle)
        requires
            len * 4 <= u64::MAX,
        ensures
            final(self)@ == old(self)@.fill(len as int, word),
            r == old(self)@.next(),
            old(self)@.wf() ==> final(self)@.wf(),
            old(self)@.grows_into(final(self)@),
            final(self)@.holds(r, len * 4),
    {
        let id: usize = self.buffers.len();
        let n: u64 = len * 4;
        proof {
            if self@.wf() {
                lemma_more_buffers(self@, n);
            }
        }
        self.buffers.push(n);
        self.commands.push(Command::Fill { len, word });
        assert(self@.commands =~= old(self)@.commands.push(CommandSpec::Fill { len, word }));
        Handle { id }
    }

    /// Makes a buffer that holds `data`.
    pub fn create_bytes(&mut self, data: Vec<u8>) -> (r: Handle)
        ensures
            final(self)@ == old(self)@.create_bytes(data@),
            r == old(self)@.next(),
            old(self)@.wf() ==> final(self)@.wf(),
            old(self)@.grows_into(final(self)@),
            final(self)@.holds(r, data@.len() as int),
    {
        let id: usize = self.buffers.len();
        let n: u64 = data.len() as u64;
        proof {
            if self@.wf() {
                lemma_more_buffers(self@, n);
            }
        }
        let ghost d = data@;
        self.buffers.push(n);
        self.commands.push(Command::CreateBytes { data });
        assert(self@.commands =~= old(self)@.commands.push(CommandSpec::CreateBytes { data: d }));
        Handle { id }
    }

    /// Launches a kernel.
    pub fn launch(&mut self, launch: Launch)
        requires
            launch@.fits(old(self)@.buffers),
        ensures
            final(self)@ == old(self)@.launch(launch@),
            old(self)@.wf() ==> final(self)@.wf(),
            old(self)@.grows_into(final(self)@),
    {
        let ghost l = launch@;
        self.commands.push(Command::Launch { launch });
        assert(self@.commands =~= old(self)@.commands.push(CommandSpec::Launch { launch: l }));
    }

    /// Reads buffers back.
    pub fn read(&mut self, handles: Vec<Handle>)
        requires
            forall|i: int|
                0 <= i < handles@.len() ==> (#[trigger] handles@[i]).id < old(self)@.buffers.len(),
        ensures
            final(self)@ == old(self)@.read(handles@),
            old(self)@.wf() ==> final(self)@.wf(),
            old(self)@.grows_into(final(self)@),
    {
        let ghost h = handles@;
        self.commands.push(Command::Read { handles });
        assert(self@.commands =~= old(self)@.commands.push(CommandSpec::Read { handles: h }));
    }
}

/// Growing is transitive.
pub proof fn lemma_grows_transitive(a: Recording, b: Recording, c: Recording)
    requires
        a.grows_into(b),
        b.grows_into(c),
    ensures
        a.grows_into(c),
{
    assert forall|i: int| 0 <= i < a.buffers.len() implies #[trigger] c.buffers[i]
        == a.buffers[i] by {
        assert(b.buffers[i] == a.buffers[i]);
    }
}

/// The kernels.
#[derive(Clone, Copy, Debug, PartialEq, Eq, Structural)]
pub enum Kernel {
    AfvComposeForward,
    AfvComposeInverse,
    AfvDct4x4,
    AfvIdct4x4,
    AfvUnpackInverse,
    BlockL2,
    BlockMaskMean,
    CflCollect,
    CflQuantizeDct8,
    ComputePreErosion,
    DcGrid8x8,
    Dct16x16,
    Dct16x32,
    Dct16x8,
    Dct2x2Forward,
    Dct2x2Inverse,
    Dct32x16,
    Dct32x32,
    Dct32x64,
    Dct4x4Full,
    Dct4x4Raw,
    Dct4x8Full,
    Dct4x8Raw,
    Dct64x32,
    Dct64x64,
    Dct8QuantizeFusedBroadcastWWide,
    Dct8QuantizeFusedWide,
    Dct8x16,
    Dct8x4Full,
    Dct8x8,
    Dct8x8Coop,
    Dct8x8Wide,
    Denoise,
    DequantDct8,
    DequantDct8BroadcastW,
    DequantIdct8FusedYWide,
    DequantIdctDcScatterDct8,
    DequantIdctDcScatterDct8Wide,
    DequantSimple,
    DequantSimpleBroadcastW,
    DequantStrategyBroadcastW,
    DequantStrategyBroadcastWDct8,
    DequantWeights,
    DequantWeightsDct8,
    EntropyCoeffsCoeff,
    EntropyCoeffsPixel,
    EntropyCoeffsPixel3ch,
    EntropyCoeffsPixelBroadcastW,
    EpfStep0,
    EpfStep1,
    EpfStep2,
    FindBestMultiplier,
    FindBestMultiplierNewton,
    FusedDct83ch,
    FuzzyErosion,
    GabSmooth,
    GabSmooth3ch,
    Gaborish5x5,
    Gaborish5x53ch,
    GatherBlocks,
    HistogramCountPow2,
    Idct16x16,
    Idct16x32,
    Idct16x8,
    Idct32x16,
    Idct32x32,
    Idct32x64,
    Idct4x4Full,
    Idct4x8Full,
    Idct64x32,
    Idct64x64,
    Idct8x16,
    Idct8x4Full,
    Idct8x8,
    Idct8x8Coop,
    Idct8x8SetDcScatter,
    Idct8x8Wide,
    IdentityForward,
    IdentityInverse,
    IndexedGather,
    IndexedScatter,
    Mask1x1,
    MaskForAcStrategy,
    NzerosCountDct8,
    PadPlane,
    PerBlockModulations,
    PixelLoss,
    PixelLoss3ch,
    QuantizeDcChromaDct8,
    QuantizeDcYDct8,
    QuantizeDct8,
    QuantizeDct8BroadcastW,
    QuantizeLarge,
    QuantizeLargeBroadcastW,
    RestoreDc,
    ScatterBlocks,
    SetDcFromGridIndexed,
    SetLlfDct16x16Indexed,
    SetLlfDct16x32Indexed,
    SetLlfDct16x8Or8x16Indexed,
    SetLlfDct32x16Indexed,
    SetLlfDct32x32Indexed,
    SetLlfDct32x64Indexed,
    SetLlfDct64x32Indexed,
    SetLlfDct64x64Indexed,
    SseReduce3channel,
    U8RgbToLinearPlanarPadded,
    XybForward,
    XybInverse,
}

} // verus!
