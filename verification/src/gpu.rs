//! What is handed to the GPU: buffers, copies, kernel dispatches and read-backs.
//!
//! A [`Submission`] is a complete description of one piece of GPU work on plain values. Whoever
//! owns the device carries it out and hands the words of the read-backs over.
use vstd::prelude::*;

verus! {

/// The most threads that one threadgroup has.
pub const MAX_THREADGROUP_SIZE: u64 = 256;

/// A kernel of the shader library.
#[derive(Clone, Copy, Debug, PartialEq, Eq, Structural)]
pub enum Kernel {
    FftRadix8,
    IfftRadix8,
    FftRadix2,
    IfftRadix2,
    FftVecwiseFused,
    IfftNormalize,
    FriFoldCircle,
    FriFoldLine,
    Quotient,
    Merkle,
    MleFoldM31,
    MleFoldQm31,
    Grind,
    PackCoordsToQm31,
    UnpackQm31ToCoords,
    /// Hashes the rows of a block of columns. It is not among the kernels that a context
    /// compiles, see [`crate::init::pipeline_kernels`].
    MerkleLeaf,
}

/// Where the memory of a buffer comes from.
#[derive(Debug)]
pub enum Allocation {
    /// New memory that holds the given words.
    Data(Vec<u32>),
    /// Memory that the twiddle cache keeps under a key, which holds the given words. It is there
    /// already if it is `cached`, and is else filled and kept from now on.
    Twiddles { key: u64, words: Vec<u32>, cached: bool },
    /// New memory of so many bytes, with nothing promised of its contents.
    Fresh(u64),
    /// At least so many bytes out of the pool of shared memory, with nothing promised of
    /// their contents.
    Pooled(u64),
}

/// The value of an [`Allocation`].
#[verifier::ext_equal]
pub enum AllocationSpec {
    Data(Seq<u32>),
    Twiddles { key: u64, words: Seq<u32>, cached: bool },
    Fresh(u64),
    Pooled(u64),
}

impl View for Allocation {
    type V = AllocationSpec;

    open spec fn view(&self) -> AllocationSpec {
        match self {
            Allocation::Data(words) => AllocationSpec::Data(words@),
            Allocation::Twiddles { key, words, cached } => AllocationSpec::Twiddles {
                key: *key,
                words: words@,
                cached: *cached,
            },
            Allocation::Fresh(bytes) => AllocationSpec::Fresh(*bytes),
            Allocation::Pooled(bytes) => AllocationSpec::Pooled(*bytes),
        }
    }
}

/// One argument of a kernel. Its position in the list of bindings is its index.
#[derive(Clone, Copy, Debug, PartialEq, Eq, Structural)]
pub enum Binding {
    /// The buffer in a slot, from its start.
    Buffer(usize),
    /// A number, passed by value.
    U32(u32),
    /// A flag, passed by value.
    Bool(bool),
}

/// A copy between two buffers, all of it counted in bytes.
#[derive(Clone, Copy, Debug, PartialEq, Eq, Structural)]
pub struct BlitCopy {
    pub source: usize,
    pub source_offset: u64,
    pub destination: usize,
    pub destination_offset: u64,
    pub size: u64,
}

/// A one-dimensional grid of threads.
#[derive(Clone, Copy, Debug, PartialEq, Eq, Structural)]
pub struct Grid {
    pub threadgroups: u64,
    pub threadgroup_size: u64,
}

/// One run of a kernel.
#[derive(Debug)]
pub struct Dispatch {
    pub kernel: Kernel,
    pub bindings: Vec<Binding>,
    pub grid: Grid,
}

/// The value of a [`Dispatch`].
#[verifier::ext_equal]
pub struct DispatchSpec {
    pub kernel: Kernel,
    pub bindings: Seq<Binding>,
    pub grid: Grid,
}

impl View for Dispatch {
    type V = DispatchSpec;

    open spec fn view(&self) -> DispatchSpec {
        DispatchSpec { kernel: self.kernel, bindings: self.bindings@, grid: self.grid }
    }
}

/// One entry of a command buffer.
#[derive(Debug)]
pub enum Command {
    Copy(BlitCopy),
    Compute(Dispatch),
}

/// The value of a [`Command`].
#[verifier::ext_equal]
pub enum CommandSpec {
    Copy(BlitCopy),
    Compute(DispatchSpec),
}

impl View for Command {
    type V = CommandSpec;

    open spec fn view(&self) -> CommandSpec {
        match self {
            Command::Copy(copy) => CommandSpec::Copy(*copy),
            Command::Compute(dispatch) => CommandSpec::Compute(dispatch@),
        }
    }
}

/// The first words of a buffer, read once all commands have completed.
#[derive(Clone, Copy, Debug, PartialEq, Eq, Structural)]
pub struct Readback {
    pub slot: usize,
    pub words: usize,
}

/// GPU work: the buffers by slot, the command buffers in the order in which they are
/// committed, each one completed before the next, and what is read back at the end.
#[derive(Debug)]
pub struct Submission {
    pub buffers: Vec<Allocation>,
    pub command_buffers: Vec<Vec<Command>>,
    pub readbacks: Vec<Readback>,
}

/// The value of a [`Submission`].
#[verifier::ext_equal]
pub struct SubmissionSpec {
    pub buffers: Seq<AllocationSpec>,
    pub command_buffers: Seq<Seq<CommandSpec>>,
    pub readbacks: Seq<Readback>,
}

/// The values of allocations.
pub open spec fn allocation_views(v: Seq<Allocation>) -> Seq<AllocationSpec> {
    Seq::new(v.len(), |i: int| v[i]@)
}

/// The values of commands.
pub open spec fn command_views(v: Seq<Command>) -> Seq<CommandSpec> {
    Seq::new(v.len(), |i: int| v[i]@)
}

/// The values after one more allocation.
pub proof fn lemma_allocation_views_push(v: Seq<Allocation>, a: Allocation)
    ensures
        allocation_views(v.push(a)) == allocation_views(v).push(a@),
{
}

/// The values after one more command.
pub proof fn lemma_command_views_push(v: Seq<Command>, c: Command)
    ensures
        command_views(v.push(c)) == command_views(v).push(c@),
{
}

impl View for Submission {
    type V = SubmissionSpec;

    open spec fn view(&self) -> SubmissionSpec {
        SubmissionSpec {
            buffers: allocation_views(self.buffers@),
            command_buffers: Seq::new(
                self.command_buffers@.len(),
                |i: int| command_views(self.command_buffers@[i]@),
            ),
            readbacks: self.readbacks@,
        }
    }
}

impl AllocationSpec {
    /// The number of bytes that the memory has at least.
    pub open spec fn bytes(self) -> int {
        match self {
            AllocationSpec::Data(words) => 4 * words.len() as int,
            AllocationSpec::Twiddles { key, words, cached } => 4 * words.len() as int,
            AllocationSpec::Fresh(bytes) => bytes as int,
            AllocationSpec::Pooled(bytes) => bytes as int,
        }
    }
}

impl SubmissionSpec {
    /// A copy stays inside its two buffers.
    pub open spec fn copy_in_range(self, c: BlitCopy) -> bool {
        &&& c.source < self.buffers.len()
        &&& c.destination < self.buffers.len()
        &&& c.source_offset + c.size <= self.buffers[c.source as int].bytes()
        &&& c.destination_offset + c.size <= self.buffers[c.destination as int].bytes()
    }

    /// A command names only buffers that exist, and stays inside them.
    pub open spec fn command_in_range(self, c: CommandSpec) -> bool {
        match c {
            CommandSpec::Copy(copy) => self.copy_in_range(copy),
            CommandSpec::Compute(d) => forall|b: int|
                0 <= b < d.bindings.len() ==> (#[trigger] d.bindings[b] matches Binding::Buffer(slot)
                    ==> slot < self.buffers.len()),
        }
    }

    /// Every command and every read-back stays inside the buffers that are allocated.
    pub open spec fn valid(self) -> bool {
        &&& forall|i: int, j: int|
            0 <= i < self.command_buffers.len() && 0 <= j < self.command_buffers[i].len()
                ==> self.command_in_range(#[trigger] self.command_buffers[i][j])
        &&& forall|r: int|
            0 <= r < self.readbacks.len() ==> (#[trigger] self.readbacks[r]).slot
                < self.buffers.len() && 4 * self.readbacks[r].words
                <= self.buffers[self.readbacks[r].slot as int].bytes()
    }
}

/// The grid of `n` threads: one group if that is enough, else as many full ones as it takes. The
/// empty grid has no group.
pub open spec fn grid_of(n: int) -> Grid {
    if n < 1 {
        Grid { threadgroups: 0, threadgroup_size: 1 }
    } else if n < MAX_THREADGROUP_SIZE {
        Grid { threadgroups: 1, threadgroup_size: n as u64 }
    } else {
        Grid {
            threadgroups: ((n + MAX_THREADGROUP_SIZE - 1) / (MAX_THREADGROUP_SIZE as int)) as u64,
            threadgroup_size: MAX_THREADGROUP_SIZE,
        }
    }
}

/// The grid for `num_threads` threads.
pub fn grid(num_threads: u64) -> (g: Grid)
    requires
        num_threads <= u64::MAX - MAX_THREADGROUP_SIZE,
    ensures
        g == grid_of(num_threads as int),
{
    let size: u64 = if num_threads < 1 {
        1
    } else if num_threads < MAX_THREADGROUP_SIZE {
        num_threads
    } else {
        MAX_THREADGROUP_SIZE
    };
    proof {
        if 1 <= num_threads < MAX_THREADGROUP_SIZE {
            assert((num_threads + num_threads - 1) / (num_threads as int) == 1)
                by (nonlinear_arith)
                requires
                    1 <= num_threads,
            ;
        }
    }
    Grid { threadgroups: (num_threads + size - 1) / size, threadgroup_size: size }
}

/// A grid has a thread for every element, and less than one group of idle threads. A group
/// never has more than [`MAX_THREADGROUP_SIZE`] threads.
pub proof fn law_grid_covers(n: int)
    requires
        0 <= n <= u64::MAX - MAX_THREADGROUP_SIZE,
    ensures
        ({
            let g = grid_of(n);
            &&& 1 <= g.threadgroup_size <= MAX_THREADGROUP_SIZE
            &&& n <= g.threadgroups * g.threadgroup_size < n + g.threadgroup_size
        }),
{
    let g = grid_of(n);
    assert(1 * g.threadgroup_size == g.threadgroup_size && 0 * g.threadgroup_size == 0)
        by (nonlinear_arith);
}

} // verus!
