//! Merkle layers: hashing pairs of child nodes or the rows of columns.
//!
//! Small layers go to the SIMD backend. For the others the GPU work is described here, and its
//! output turned back into hashes.
use crate::backend::{convert, BaseColumn, MetalBackend};
use crate::bits::{lemma_pow2_fits, pow2_usize};
use crate::buffer::raw;
use crate::column::MetalBaseColumn;
use crate::gpu::{
    allocation_views, command_views, grid, grid_of, lemma_allocation_views_push,
    lemma_command_views_push, Allocation, AllocationSpec, Binding, BlitCopy,
    Command, CommandSpec, Dispatch, DispatchSpec, Kernel, Readback, Submission, SubmissionSpec,
};
use crate::hash::{flatten_hashes, layer_words, unflatten_hashes, Blake2sHash};
use crate::thresholds::MIN_MERKLE_LOG_SIZE;
use vstd::arithmetic::power2::*;
use vstd::prelude::*;

verus! {

/// The hash functions of Merkle trees.
#[derive(Clone, Copy, Debug, PartialEq, Eq, Structural)]
pub enum MerkleHasher {
    /// Blake2s.
    Blake2s,
    /// Blake2s with every word of the output reduced to a base field element.
    Blake2sM31,
}

/// A Merkle layer for the SIMD backend.
#[derive(Debug)]
pub struct SimdCommit<'a> {
    pub hasher: MerkleHasher,
    pub log_size: u32,
    pub prev_layer: Option<&'a Vec<Blake2sHash>>,
    pub columns: Vec<BaseColumn>,
}

/// How a Merkle layer is computed.
#[derive(Debug)]
pub enum CommitPlan<'a> {
    Simd(SimdCommit<'a>),
    Gpu(Submission),
}

/// What came back: the layer from the SIMD backend, or the words that the GPU wrote.
#[derive(Debug)]
pub enum CommitReply {
    Simd(Vec<Blake2sHash>),
    Gpu(Vec<u32>),
}

/// One run of the kernel that hashes pairs of children in one buffer into parents in another.
pub open spec fn node_dispatch(source: usize, destination: usize, is_m31: bool, parents: int) ->
    DispatchSpec {
    DispatchSpec {
        kernel: Kernel::Merkle,
        bindings: seq![
            Binding::Buffer(source),
            Binding::Buffer(destination),
            Binding::Bool(is_m31),
            Binding::U32(parents as u32),
        ],
        grid: grid_of(parents),
    }
}

/// Hashing pairs of children, given by their words, into `parents` nodes.
pub open spec fn node_submission(children: Seq<u32>, parents: int, is_m31: bool) -> SubmissionSpec {
    SubmissionSpec {
        buffers: seq![
            AllocationSpec::Data(children),
            AllocationSpec::Pooled((32 * parents) as u64),
        ],
        command_buffers: seq![seq![CommandSpec::Compute(node_dispatch(0, 1, is_m31, parents))]],
        readbacks: seq![Readback { slot: 1, words: (8 * parents) as usize }],
    }
}

/// The copy of column `i` into its place in the block of all columns.
pub open spec fn leaf_copy(count: int, rows: int, i: int) -> BlitCopy {
    BlitCopy {
        source: i as usize,
        source_offset: 0,
        destination: count as usize,
        destination_offset: (4 * rows * i) as u64,
        size: (4 * rows) as u64,
    }
}

/// The run of the kernel that hashes the rows of a block of columns.
pub open spec fn leaf_dispatch(count: int, rows: int) -> DispatchSpec {
    DispatchSpec {
        kernel: Kernel::MerkleLeaf,
        bindings: seq![
            Binding::Buffer(count as usize),
            Binding::U32(count as u32),
            Binding::U32(rows as u32),
            Binding::Bool(true),
            Binding::Buffer((count + 1) as usize),
        ],
        grid: grid_of(rows),
    }
}

/// Hashing the first `rows` rows of columns, given by the words of their buffers: the columns
/// are copied into one block, then every row is hashed.
pub open spec fn leaf_submission(columns: Seq<Seq<u32>>, rows: int) -> SubmissionSpec {
    let count = columns.len() as int;
    SubmissionSpec {
        buffers: Seq::new(columns.len(), |i: int| AllocationSpec::Data(columns[i])) + seq![
            AllocationSpec::Pooled((4 * rows * count) as u64),
            AllocationSpec::Pooled((32 * rows) as u64),
        ],
        command_buffers: seq![
            Seq::new(columns.len(), |i: int| CommandSpec::Copy(leaf_copy(count, rows, i))).push(
                CommandSpec::Compute(leaf_dispatch(count, rows)),
            ),
        ],
        readbacks: seq![Readback { slot: (count + 1) as usize, words: (8 * rows) as usize }],
    }
}

/// The words of the buffers of columns.
pub open spec fn column_memories(columns: Seq<&MetalBaseColumn>) -> Seq<Seq<u32>> {
    Seq::new(columns.len(), |i: int| raw(columns[i].memory()))
}

/// The request hands on exactly what was asked for.
pub open spec fn is_simd_commit(
    request: SimdCommit<'_>,
    hasher: MerkleHasher,
    log_size: u32,
    prev_layer: Option<&Vec<Blake2sHash>>,
    columns: Seq<&MetalBaseColumn>,
) -> bool {
    &&& request.hasher == hasher
    &&& request.log_size == log_size
    &&& request.prev_layer == prev_layer
    &&& request.columns@.len() == columns.len()
    &&& forall|i: int|
        0 <= i < columns.len() ==> (#[trigger] request.columns@[i])@ == columns[i]@
}

/// One run of the kernel that hashes pairs of children.
pub(crate) fn merkle_node_dispatch(source: usize, destination: usize, is_m31: bool, parents: usize) -> (d:
    Dispatch)
    requires
        32 * parents <= usize::MAX,
    ensures
        d@ == node_dispatch(source, destination, is_m31, parents as int),
{
    let d = Dispatch {
        kernel: Kernel::Merkle,
        bindings: vec![
            Binding::Buffer(source),
            Binding::Buffer(destination),
            Binding::Bool(is_m31),
            Binding::U32(
                #[verifier::truncate]
                (parents as u32),
            ),
        ],
        grid: grid(parents as u64),
    };
    assert(d@ =~= node_dispatch(source, destination, is_m31, parents as int));
    d
}

/// The GPU work that hashes pairs of children into `parents` nodes.
pub fn merkle_node_submission(children: &[Blake2sHash], parents: usize, is_m31: bool) -> (s:
    Submission)
    requires
        32 * parents <= usize::MAX,
    ensures
        s@ == node_submission(layer_words(children@), parents as int, is_m31),
{
    let s = Submission {
        buffers: vec![
            Allocation::Data(flatten_hashes(children)),
            Allocation::Pooled((parents * 8 * 4) as u64),
        ],
        command_buffers: vec![vec![
            Command::Compute(merkle_node_dispatch(0, 1, is_m31, parents)),
        ]],
        readbacks: vec![Readback { slot: 1, words: parents * 8 }],
    };
    assert(s@ =~~= node_submission(layer_words(children@), parents as int, is_m31));
    s
}

/// The GPU work that hashes the first `rows` rows of columns.
pub fn merkle_leaf_submission(columns: &[&MetalBaseColumn], rows: usize) -> (s: Submission)
    requires
        32 * rows <= usize::MAX,
        4 * rows * columns@.len() <= usize::MAX,
        columns@.len() + 1 <= usize::MAX,
    ensures
        s@ == leaf_submission(column_memories(columns@), rows as int),
{
    let count: usize = columns.len();
    let ghost memories = column_memories(columns@);
    let ghost want = leaf_submission(memories, rows as int);
    let column_bytes: u64 = (rows * 4) as u64;
    let mut buffers: Vec<Allocation> = Vec::new();
    let mut commands: Vec<Command> = Vec::new();
    let mut offset: u64 = 0;
    let mut i: usize = 0;
    assert(4 * rows * 0 == 0) by (nonlinear_arith);
    while i < count
        invariant
            i <= count,
            count == columns@.len(),
            memories == column_memories(columns@),
            column_bytes == 4 * rows,
            4 * rows * count <= usize::MAX,
            offset == 4 * rows * i,
            allocation_views(buffers@) == Seq::new(
                i as nat,
                |i: int| AllocationSpec::Data(memories[i]),
            ),
            command_views(commands@) == Seq::new(
                i as nat,
                |i: int| CommandSpec::Copy(leaf_copy(count as int, rows as int, i)),
            ),
        decreases count - i,
    {
        assert(4 * rows * i + 4 * rows == 4 * rows * (i + 1)) by (nonlinear_arith);
        assert(4 * rows * (i + 1) <= 4 * rows * count) by (nonlinear_arith)
            requires
                i + 1 <= count,
        ;
        let words: Vec<u32> = columns[i].buffer().to_words();
        let buffer = Allocation::Data(words);
        let command = Command::Copy(
            BlitCopy {
                source: i,
                source_offset: 0,
                destination: count,
                destination_offset: offset,
                size: column_bytes,
            },
        );
        proof {
            lemma_allocation_views_push(buffers@, buffer);
            lemma_command_views_push(commands@, command);
        }
        buffers.push(buffer);
        commands.push(command);
        offset = offset + column_bytes;
        i = i + 1;
        assert(allocation_views(buffers@) =~= Seq::new(
            i as nat,
            |i: int| AllocationSpec::Data(memories[i]),
        ));
        assert(command_views(commands@) =~= Seq::new(
            i as nat,
            |i: int| CommandSpec::Copy(leaf_copy(count as int, rows as int, i)),
        ));
    }
    assert(count * rows * 4 == 4 * rows * count && count * rows <= count * rows * 4)
        by (nonlinear_arith)
        requires
            0 <= count,
            0 <= rows,
    ;
    buffers.push(Allocation::Pooled((count * rows * 4) as u64));
    buffers.push(Allocation::Pooled((rows * 8 * 4) as u64));
    let bindings: Vec<Binding> = vec![
        Binding::Buffer(count),
        Binding::U32(
            #[verifier::truncate]
            (count as u32),
        ),
        Binding::U32(
            #[verifier::truncate]
            (rows as u32),
        ),
        Binding::Bool(true),
        Binding::Buffer(count + 1),
    ];
    let dispatch = Dispatch { kernel: Kernel::MerkleLeaf, bindings, grid: grid(rows as u64) };
    assert(dispatch@ =~= leaf_dispatch(count as int, rows as int));
    commands.push(Command::Compute(dispatch));
    let s = Submission {
        buffers,
        command_buffers: vec![commands],
        readbacks: vec![Readback { slot: count + 1, words: rows * 8 }],
    };
    proof {
        assert(s@.buffers =~~= want.buffers);
        assert(s@.command_buffers[0] =~~= want.command_buffers[0]);
        assert(s@.command_buffers =~= want.command_buffers);
        assert(s@.readbacks =~= want.readbacks);
    }
    s
}

/// The columns for the SIMD backend.
fn columns_to_simd(columns: &[&MetalBaseColumn]) -> (r: Vec<BaseColumn>)
    requires
        forall|i: int| 0 <= i < columns@.len() ==> (#[trigger] columns@[i]).wf(),
    ensures
        r@.len() == columns@.len(),
        forall|i: int| 0 <= i < columns@.len() ==> (#[trigger] r@[i])@ == columns@[i]@,
{
    let mut r: Vec<BaseColumn> = Vec::with_capacity(columns.len());
    let mut i: usize = 0;
    while i < columns.len()
        invariant
            i <= columns@.len(),
            forall|i: int| 0 <= i < columns@.len() ==> (#[trigger] columns@[i]).wf(),
            r@.len() == i,
            forall|j: int| 0 <= j < i ==> (#[trigger] r@[j])@ == columns@[j]@,
        decreases columns@.len() - i,
    {
        assert(columns@[i as int].wf());
        let column: BaseColumn = convert(columns[i]);
        r.push(column);
        i = i + 1;
    }
    r
}

/// A Blake2s layer goes to the SIMD backend: it is small, it has columns of its own, or it has
/// no children.
pub open spec fn blake2s_on_simd(log_size: u32, has_children: bool, columns: nat) -> bool {
    log_size < MIN_MERKLE_LOG_SIZE || columns > 0 || !has_children
}

/// The plan of a layer of Blake2s hashes.
pub open spec fn is_blake2s_plan(
    plan: CommitPlan<'_>,
    log_size: u32,
    prev_layer: Option<&Vec<Blake2sHash>>,
    columns: Seq<&MetalBaseColumn>,
) -> bool {
    match plan {
        CommitPlan::Simd(request) => {
            &&& blake2s_on_simd(log_size, prev_layer is Some, columns.len())
            &&& is_simd_commit(request, MerkleHasher::Blake2s, log_size, prev_layer, columns)
        },
        CommitPlan::Gpu(s) => {
            &&& !blake2s_on_simd(log_size, prev_layer is Some, columns.len())
            &&& s@ == node_submission(
                layer_words(prev_layer->0@),
                pow2(log_size as nat) as int,
                false,
            )
        },
    }
}

/// The plan of a layer of Blake2s hashes whose words are base field elements.
pub open spec fn is_blake2s_m31_plan(
    plan: CommitPlan<'_>,
    log_size: u32,
    prev_layer: Option<&Vec<Blake2sHash>>,
    columns: Seq<&MetalBaseColumn>,
) -> bool {
    match plan {
        CommitPlan::Simd(request) => {
            &&& log_size < MIN_MERKLE_LOG_SIZE
            &&& is_simd_commit(request, MerkleHasher::Blake2sM31, log_size, prev_layer, columns)
        },
        CommitPlan::Gpu(s) => {
            &&& log_size >= MIN_MERKLE_LOG_SIZE
            &&& s@ == if columns.len() > 0 {
                leaf_submission(column_memories(columns), pow2(log_size as nat) as int)
            } else {
                node_submission(
                    layer_words(prev_layer->0@),
                    pow2(log_size as nat) as int,
                    true,
                )
            }
        },
    }
}

/// The layer of `2^log_size` hashes that a reply stands for.
pub open spec fn is_finished_layer(
    layer: Seq<Blake2sHash>,
    log_size: u32,
    reply: CommitReply,
) -> bool {
    match reply {
        CommitReply::Simd(hashes) => layer == hashes@,
        CommitReply::Gpu(words) => layer.len() == pow2(log_size as nat) && layer_words(layer)
            == words@.take(8 * pow2(log_size as nat) as int),
    }
}

impl MetalBackend {
    /// Plans a layer of `2^log_size` Blake2s hashes.
    pub fn commit_on_layer_blake2s<'a>(
        log_size: u32,
        prev_layer: Option<&'a Vec<Blake2sHash>>,
        columns: &[&MetalBaseColumn],
    ) -> (plan: CommitPlan<'a>)
        requires
            forall|i: int| 0 <= i < columns@.len() ==> (#[trigger] columns@[i]).wf(),
            !blake2s_on_simd(log_size, prev_layer is Some, columns@.len())
                ==> prev_layer->0@.len() == 2 * pow2(log_size as nat) && 32 * pow2(log_size as nat)
                <= usize::MAX,
        ensures
            is_blake2s_plan(plan, log_size, prev_layer, columns@),
    {
        if log_size < MIN_MERKLE_LOG_SIZE || columns.len() > 0 {
            return CommitPlan::Simd(
                SimdCommit {
                    hasher: MerkleHasher::Blake2s,
                    log_size,
                    prev_layer,
                    columns: columns_to_simd(columns),
                },
            );
        }
        match prev_layer {
            None => CommitPlan::Simd(
                SimdCommit {
                    hasher: MerkleHasher::Blake2s,
                    log_size,
                    prev_layer,
                    columns: columns_to_simd(columns),
                },
            ),
            Some(children) => {
                proof {
                    lemma_pow2_fits(log_size as nat);
                }
                let parents: usize = pow2_usize(log_size);
                CommitPlan::Gpu(merkle_node_submission(children.as_slice(), parents, false))
            },
        }
    }

    /// Plans a layer of `2^log_size` Blake2s hashes whose words are base field elements.
    ///
    /// A layer has either columns, if it is the layer of the leaves, or children.
    pub fn commit_on_layer_blake2s_m31<'a>(
        log_size: u32,
        prev_layer: Option<&'a Vec<Blake2sHash>>,
        columns: &[&MetalBaseColumn],
    ) -> (plan: CommitPlan<'a>)
        requires
            forall|i: int| 0 <= i < columns@.len() ==> (#[trigger] columns@[i]).wf(),
            log_size >= MIN_MERKLE_LOG_SIZE ==> 32 * pow2(log_size as nat) <= usize::MAX,
            log_size >= MIN_MERKLE_LOG_SIZE && columns@.len() > 0 ==> prev_layer is None && 4
                * pow2(log_size as nat) * columns@.len() <= usize::MAX && forall|i: int|
                0 <= i < columns@.len() ==> (#[trigger] columns@[i]).memory().len() >= pow2(
                    log_size as nat,
                ),
            log_size >= MIN_MERKLE_LOG_SIZE && columns@.len() == 0 ==> prev_layer is Some
                && prev_layer->0@.len() == 2 * pow2(log_size as nat),
        ensures
            is_blake2s_m31_plan(plan, log_size, prev_layer, columns@),
    {
        if log_size < MIN_MERKLE_LOG_SIZE {
            return CommitPlan::Simd(
                SimdCommit {
                    hasher: MerkleHasher::Blake2sM31,
                    log_size,
                    prev_layer,
                    columns: columns_to_simd(columns),
                },
            );
        }
        proof {
            lemma_pow2_fits(log_size as nat);
        }
        let size: usize = pow2_usize(log_size);
        if columns.len() > 0 {
            proof {
                let count = columns@.len();
                assert(columns@.len() + 1 <= 4 * size * columns@.len()) by (nonlinear_arith)
                    requires
                        size >= 1,
                        count == columns@.len(),
                        count >= 1,
                ;
            }
            return CommitPlan::Gpu(merkle_leaf_submission(columns, size));
        }
        let children: &'a Vec<Blake2sHash> = prev_layer.unwrap();
        CommitPlan::Gpu(merkle_node_submission(children.as_slice(), size, true))
    }

    /// The layer of `2^log_size` hashes that the plan was for.
    pub fn finish_commit_on_layer(log_size: u32, reply: CommitReply) -> (layer: Vec<Blake2sHash>)
        requires
            reply matches CommitReply::Gpu(words) ==> 8 * pow2(log_size as nat) <= words@.len(),
        ensures
            is_finished_layer(layer@, log_size, reply),
    {
        match reply {
            CommitReply::Simd(hashes) => hashes,
            CommitReply::Gpu(words) => {
                assert(words.len() == words@.len());
                proof {
                    lemma_pow2_fits(log_size as nat);
                }
                unflatten_hashes(words.as_slice(), pow2_usize(log_size))
            },
        }
    }
}

} // verus!
