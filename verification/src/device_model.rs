//! What a submission does to memory, whatever the kernels compute.
//!
//! The kernels are a parameter: a function from the arguments of a dispatch to the contents of
//! its buffers afterwards. On top of it stand the laws that relate submissions to one another.
use crate::gpu::{
    grid_of, AllocationSpec, Binding, BlitCopy, CommandSpec, DispatchSpec, Grid, Kernel,
    SubmissionSpec,
};
use crate::merkle::{leaf_copy, leaf_dispatch, leaf_submission, node_dispatch, node_submission};
use crate::merkle_tree::{
    layer_size, lemma_layer_size_bound, tree_buffer, tree_command, tree_readback, tree_submission,
};
use vstd::prelude::*;

verus! {

/// The value of one argument of a kernel.
pub enum Arg {
    Memory(Seq<u32>),
    U32(u32),
    Bool(bool),
}

/// The contents of all buffers, by slot.
pub type Memory = Seq<Seq<u32>>;

/// What the kernels do: for a dispatch with these arguments, the contents of each argument that
/// is a buffer afterwards.
pub type Kernels = spec_fn(Kernel, Seq<Arg>, Grid) -> Seq<Seq<u32>>;

/// The memory may be what a submission starts from.
pub open spec fn starts(m: Memory, s: SubmissionSpec) -> bool {
    &&& m.len() == s.buffers.len()
    &&& forall|i: int|
        0 <= i < m.len() ==> match #[trigger] s.buffers[i] {
            AllocationSpec::Data(words) => m[i] == words,
            AllocationSpec::Twiddles { key, words, cached } => m[i] == words,
            AllocationSpec::Fresh(bytes) => m[i].len() == bytes as int / 4,
            AllocationSpec::Pooled(bytes) => m[i].len() >= bytes as int / 4,
        }
}

/// The words `w` written over `s` from an index on.
pub open spec fn written(s: Seq<u32>, at: int, w: Seq<u32>) -> Seq<u32> {
    s.take(at) + w + s.skip(at + w.len())
}

/// The buffer in a slot is bound as argument `b`.
pub open spec fn bound_as(bindings: Seq<Binding>, slot: int, b: int) -> bool {
    0 <= b < bindings.len() && bindings[b] == Binding::Buffer(slot as usize)
}

/// The values of the arguments of a dispatch.
pub open spec fn args(m: Memory, bindings: Seq<Binding>) -> Seq<Arg> {
    Seq::new(
        bindings.len(),
        |b: int|
            match bindings[b] {
                Binding::Buffer(slot) => Arg::Memory(m[slot as int]),
                Binding::U32(v) => Arg::U32(v),
                Binding::Bool(v) => Arg::Bool(v),
            },
    )
}

/// The memory after a copy.
pub open spec fn run_copy(m: Memory, c: BlitCopy) -> Memory {
    let first = c.source_offset as int / 4;
    m.update(
        c.destination as int,
        written(
            m[c.destination as int],
            c.destination_offset as int / 4,
            m[c.source as int].subrange(first, first + c.size as int / 4),
        ),
    )
}

/// The memory after a dispatch: only buffers that are bound can change.
pub open spec fn run_dispatch(k: Kernels, m: Memory, d: DispatchSpec) -> Memory {
    let out = k(d.kernel, args(m, d.bindings), d.grid);
    Seq::new(
        m.len(),
        |j: int|
            if exists|b: int| bound_as(d.bindings, j, b) {
                out[choose|b: int| bound_as(d.bindings, j, b)]
            } else {
                m[j]
            },
    )
}

/// The memory after a command.
pub open spec fn run_command(k: Kernels, m: Memory, c: CommandSpec) -> Memory {
    match c {
        CommandSpec::Copy(copy) => run_copy(m, copy),
        CommandSpec::Compute(d) => run_dispatch(k, m, d),
    }
}

/// The memory after the first `n` commands.
pub open spec fn run_commands(k: Kernels, m: Memory, commands: Seq<CommandSpec>, n: nat) -> Memory
    decreases n,
{
    if n == 0 {
        m
    } else {
        run_command(k, run_commands(k, m, commands, (n - 1) as nat), commands[n - 1])
    }
}

/// The memory after the first `n` command buffers.
pub open spec fn run_buffers(
    k: Kernels,
    m: Memory,
    command_buffers: Seq<Seq<CommandSpec>>,
    n: nat,
) -> Memory
    decreases n,
{
    if n == 0 {
        m
    } else {
        let before = run_buffers(k, m, command_buffers, (n - 1) as nat);
        run_commands(k, before, command_buffers[n - 1], command_buffers[n - 1].len())
    }
}

/// What is read back of a submission.
pub open spec fn run(k: Kernels, m: Memory, s: SubmissionSpec) -> Seq<Seq<u32>> {
    let end = run_buffers(k, m, s.command_buffers, s.command_buffers.len());
    Seq::new(
        s.readbacks.len(),
        |r: int| end[s.readbacks[r].slot as int].take(s.readbacks[r].words as int),
    )
}

/// What is read back of a submission with a single dispatch and a single read-back is what the
/// kernel leaves in the argument that is read.
pub proof fn law_single_dispatch(
    k: Kernels,
    m: Memory,
    s: SubmissionSpec,
    d: DispatchSpec,
    b: int,
)
    requires
        s.command_buffers == seq![seq![CommandSpec::Compute(d)]],
        s.readbacks.len() == 1,
        s.readbacks[0].slot < m.len(),
        bound_as(d.bindings, s.readbacks[0].slot as int, b),
        forall|c: int| #[trigger] bound_as(d.bindings, s.readbacks[0].slot as int, c) ==> c == b,
    ensures
        run(k, m, s) == seq![
            k(d.kernel, args(m, d.bindings), d.grid)[b].take(s.readbacks[0].words as int),
        ],
{
    let slot = s.readbacks[0].slot as int;
    reveal_with_fuel(run_buffers, 2);
    reveal_with_fuel(run_commands, 2);
    assert(s.command_buffers[0] == seq![CommandSpec::Compute(d)]);
    assert(s.command_buffers[0][0] == CommandSpec::Compute(d));
    let end = run_buffers(k, m, s.command_buffers, 1);
    assert(end == run_dispatch(k, m, d));
    assert(end[slot] == k(d.kernel, args(m, d.bindings), d.grid)[b]);
    assert(run(k, m, s) =~= seq![
        k(d.kernel, args(m, d.bindings), d.grid)[b].take(s.readbacks[0].words as int),
    ]);
}

/// The arguments of the Merkle kernel.
pub open spec fn node_args(children: Seq<u32>, out: Seq<u32>, is_m31: bool, n: u32) -> Seq<Arg> {
    seq![Arg::Memory(children), Arg::Memory(out), Arg::Bool(is_m31), Arg::U32(n)]
}

/// The Merkle kernel writes the hashes of `n` pairs of children, given by a function, over the
/// first words of its output, if the output has room for them, and leaves the children alone.
pub open spec fn hashes_nodes(k: Kernels, f: spec_fn(Seq<u32>, bool, u32) -> Seq<u32>) -> bool {
    forall|children: Seq<u32>, out: Seq<u32>, is_m31: bool, n: u32|
        out.len() >= 8 * n ==> {
            let r = #[trigger] k(
                Kernel::Merkle,
                node_args(children, out, is_m31, n),
                grid_of(n as int),
            );
            &&& r[0] == children
            &&& f(children, is_m31, n).len() == 8 * n
            &&& r[1] == written(out, 0, f(children, is_m31, n))
        }
}

/// One run of the Merkle kernel changes its output buffer and nothing else.
proof fn lemma_node_dispatch(
    k: Kernels,
    f: spec_fn(Seq<u32>, bool, u32) -> Seq<u32>,
    m: Memory,
    source: int,
    destination: int,
    is_m31: bool,
    parents: int,
)
    requires
        hashes_nodes(k, f),
        0 <= source < m.len() <= usize::MAX,
        0 <= destination < m.len(),
        source != destination,
        0 <= parents <= u32::MAX,
        m[destination].len() >= 8 * parents,
    ensures
        f(m[source], is_m31, parents as u32).len() == 8 * parents,
        run_dispatch(k, m, node_dispatch(source as usize, destination as usize, is_m31, parents))
            == m.update(
            destination,
            written(m[destination], 0, f(m[source], is_m31, parents as u32)),
        ),
{
    let d = node_dispatch(source as usize, destination as usize, is_m31, parents);
    let a = node_args(m[source], m[destination], is_m31, parents as u32);
    assert(args(m, d.bindings) =~= a);
    let out = k(Kernel::Merkle, a, grid_of(parents));
    let after = run_dispatch(k, m, d);
    assert forall|j: int| 0 <= j < m.len() implies #[trigger] after[j] == m.update(
        destination,
        written(m[destination], 0, f(m[source], is_m31, parents as u32)),
    )[j] by {
        if j == source {
            assert(bound_as(d.bindings, j, 0));
            let b = choose|b: int| bound_as(d.bindings, j, b);
            assert(b == 0);
        } else if j == destination {
            assert(bound_as(d.bindings, j, 1));
            let b = choose|b: int| bound_as(d.bindings, j, b);
            assert(b == 1);
        } else {
            assert(forall|b: int| !bound_as(d.bindings, j, b));
        }
    }
    assert(after =~= m.update(
        destination,
        written(m[destination], 0, f(m[source], is_m31, parents as u32)),
    ));
}

/// Whatever memory the GPU work for one layer starts from, what is read back are the hashes of
/// the pairs of children.
pub proof fn law_node_submission(
    k: Kernels,
    f: spec_fn(Seq<u32>, bool, u32) -> Seq<u32>,
    m: Memory,
    children: Seq<u32>,
    parents: int,
    is_m31: bool,
)
    requires
        hashes_nodes(k, f),
        0 <= parents <= u32::MAX,
        8 * parents <= usize::MAX,
        starts(m, node_submission(children, parents, is_m31)),
    ensures
        run(k, m, node_submission(children, parents, is_m31)) == seq![
            f(children, is_m31, parents as u32),
        ],
{
    let s = node_submission(children, parents, is_m31);
    assert(s.buffers[0] == AllocationSpec::Data(children));
    assert(s.buffers[1] == AllocationSpec::Pooled((32 * parents) as u64));
    lemma_node_dispatch(k, f, m, 0, 1, is_m31, parents);
    reveal_with_fuel(run_buffers, 2);
    reveal_with_fuel(run_commands, 2);
    let hashes = f(children, is_m31, parents as u32);
    assert(written(m[1], 0, hashes).take(8 * parents) =~= hashes);
    assert(run(k, m, s) =~= seq![hashes]);
}

/// Layer `i` of the tree that repeated hashing of pairs gives.
pub open spec fn tree_layer(
    f: spec_fn(Seq<u32>, bool, u32) -> Seq<u32>,
    words: Seq<u32>,
    len: nat,
    is_m31: bool,
    i: nat,
) -> Seq<u32>
    decreases i,
{
    if i == 0 {
        words
    } else {
        f(
            tree_layer(f, words, len, is_m31, (i - 1) as nat),
            is_m31,
            layer_size(len, i) as u32,
        )
    }
}

/// After `n` dispatches the first layers are done and the others untouched.
proof fn lemma_tree_commands(
    k: Kernels,
    f: spec_fn(Seq<u32>, bool, u32) -> Seq<u32>,
    m: Memory,
    words: Seq<u32>,
    len: nat,
    layers: nat,
    is_m31: bool,
    n: nat,
)
    requires
        hashes_nodes(k, f),
        len <= u32::MAX,
        layers < usize::MAX,
        n <= layers,
        starts(m, tree_submission(words, len, layers, is_m31)),
    ensures
        ({
            let commands = tree_submission(words, len, layers, is_m31).command_buffers[0];
            let after = run_commands(k, m, commands, n);
            &&& after.len() == layers + 1
            &&& forall|i: int|
                0 <= i <= n ==> #[trigger] after[i] == tree_layer(
                    f,
                    words,
                    len,
                    is_m31,
                    i as nat,
                )
            &&& forall|i: int| n < i <= layers ==> #[trigger] after[i] == m[i]
        }),
    decreases n,
{
    let s = tree_submission(words, len, layers, is_m31);
    let commands = s.command_buffers[0];
    if n == 0 {
        assert(s.buffers[0] == AllocationSpec::Data(words));
    } else {
        let p = (n - 1) as nat;
        lemma_tree_commands(k, f, m, words, len, layers, is_m31, p);
        let before = run_commands(k, m, commands, p);
        let size = layer_size(len, n) as int;
        lemma_layer_size_bound(len, n);
        assert(commands[p as int] == tree_command(len, is_m31, p as int));
        assert(s.buffers[n as int] == tree_buffer(words, len, n as int));
        assert(before[n as int] == m[n as int]);
        assert(before[p as int] == tree_layer(f, words, len, is_m31, p));
        lemma_node_dispatch(k, f, before, p as int, n as int, is_m31, size);
        let hashes = f(before[p as int], is_m31, size as u32);
        assert(written(before[n as int], 0, hashes) =~= hashes);
        let after = run_commands(k, m, commands, n);
        assert(after == before.update(n as int, hashes));
    }
}

/// The layers of a tree that is built in one submission are those of repeated hashing of pairs.
pub proof fn law_batched_tree(
    k: Kernels,
    f: spec_fn(Seq<u32>, bool, u32) -> Seq<u32>,
    m: Memory,
    words: Seq<u32>,
    len: nat,
    layers: nat,
    is_m31: bool,
)
    requires
        hashes_nodes(k, f),
        len <= u32::MAX,
        8 * len <= usize::MAX,
        layers < usize::MAX,
        starts(m, tree_submission(words, len, layers, is_m31)),
    ensures
        run(k, m, tree_submission(words, len, layers, is_m31)) == Seq::new(
            layers,
            |i: int| tree_layer(f, words, len, is_m31, (i + 1) as nat),
        ),
{
    let s = tree_submission(words, len, layers, is_m31);
    lemma_tree_commands(k, f, m, words, len, layers, is_m31, layers);
    reveal_with_fuel(run_buffers, 2);
    let end = run_buffers(k, m, s.command_buffers, s.command_buffers.len());
    let want = Seq::new(layers, |i: int| tree_layer(f, words, len, is_m31, (i + 1) as nat));
    assert forall|i: int| 0 <= i < layers implies #[trigger] run(k, m, s)[i] == want[i] by {
        let size = layer_size(len, (i + 1) as nat);
        lemma_layer_size_bound(len, (i + 1) as nat);
        assert(s.readbacks[i] == tree_readback(len, i));
        assert(end[i + 1] == tree_layer(f, words, len, is_m31, (i + 1) as nat));
        lemma_tree_layer_len(k, f, words, len, is_m31, (i + 1) as nat);
        assert(end[i + 1].take(8 * size as int) =~= end[i + 1]);
    }
    assert(run(k, m, s) =~= want);
}

/// A layer above the first has eight words for each of its hashes.
proof fn lemma_tree_layer_len(
    k: Kernels,
    f: spec_fn(Seq<u32>, bool, u32) -> Seq<u32>,
    words: Seq<u32>,
    len: nat,
    is_m31: bool,
    i: nat,
)
    requires
        hashes_nodes(k, f),
        len <= u32::MAX,
        i > 0,
    ensures
        tree_layer(f, words, len, is_m31, i).len() == 8 * layer_size(len, i),
{
    let children = tree_layer(f, words, len, is_m31, (i - 1) as nat);
    lemma_layer_size_bound(len, i);
    let n = layer_size(len, i) as u32;
    let out = Seq::new(8 * n as nat, |j: int| 0u32);
    let r = k(
        Kernel::Merkle,
        node_args(children, out, is_m31, n),
        grid_of(n as int),
    );
    assert(f(children, is_m31, n).len() == 8 * n);
}

/// Every layer of a tree that is built in one submission is what the GPU work for that layer
/// alone gives on the layer below it.
pub proof fn law_batched_is_layer_by_layer(
    k: Kernels,
    f: spec_fn(Seq<u32>, bool, u32) -> Seq<u32>,
    m: Memory,
    words: Seq<u32>,
    len: nat,
    layers: nat,
    is_m31: bool,
    i: int,
    m_layer: Memory,
)
    requires
        hashes_nodes(k, f),
        len <= u32::MAX,
        8 * len <= usize::MAX,
        layers < usize::MAX,
        starts(m, tree_submission(words, len, layers, is_m31)),
        0 <= i < layers,
        starts(
            m_layer,
            node_submission(
                layer_below(run(k, m, tree_submission(words, len, layers, is_m31)), words, i),
                layer_size(len, (i + 1) as nat) as int,
                is_m31,
            ),
        ),
    ensures
        run(
            k,
            m_layer,
            node_submission(
                layer_below(run(k, m, tree_submission(words, len, layers, is_m31)), words, i),
                layer_size(len, (i + 1) as nat) as int,
                is_m31,
            ),
        )[0] == run(k, m, tree_submission(words, len, layers, is_m31))[i],
{
    law_batched_tree(k, f, m, words, len, layers, is_m31);
    lemma_layer_size_bound(len, (i + 1) as nat);
    let below = layer_below(run(k, m, tree_submission(words, len, layers, is_m31)), words, i);
    assert(below == tree_layer(f, words, len, is_m31, i as nat));
    assert(tree_layer(f, words, len, is_m31, (i + 1) as nat) == f(
        below,
        is_m31,
        layer_size(len, (i + 1) as nat) as u32,
    ));
    law_node_submission(k, f, m_layer, below, layer_size(len, (i + 1) as nat) as int, is_m31);
}

/// The layer below layer `i` of those above the first.
pub open spec fn layer_below(above: Seq<Seq<u32>>, first: Seq<u32>, i: int) -> Seq<u32> {
    if i == 0 {
        first
    } else {
        above[i - 1]
    }
}

/// After the first `n` copies the block holds the first `n` columns, one after the other, and
/// nothing else has changed.
proof fn lemma_leaf_copies(k: Kernels, m: Memory, columns: Seq<Seq<u32>>, rows: int, n: nat)
    requires
        0 <= rows,
        columns.len() + 1 <= usize::MAX,
        32 * rows <= usize::MAX,
        4 * rows * columns.len() <= usize::MAX,
        forall|i: int| 0 <= i < columns.len() ==> (#[trigger] columns[i]).len() >= rows,
        starts(m, leaf_submission(columns, rows)),
        n <= columns.len(),
    ensures
        ({
            let commands = leaf_submission(columns, rows).command_buffers[0];
            let after = run_commands(k, m, commands, n);
            let block = after[columns.len() as int];
            &&& after.len() == m.len()
            &&& block.len() == m[columns.len() as int].len()
            &&& forall|i: int, r: int|
                0 <= i < n && 0 <= r < rows ==> block[rows * i + r] == #[trigger] columns[i][r]
            &&& forall|j: int|
                0 <= j < m.len() && j != columns.len() ==> #[trigger] after[j] == m[j]
        }),
    decreases n,
{
    let count = columns.len() as int;
    let s = leaf_submission(columns, rows);
    let commands = s.command_buffers[0];
    if n > 0 {
        let p = n - 1;
        lemma_leaf_copies(k, m, columns, rows, p as nat);
        let before = run_commands(k, m, commands, p as nat);
        let after = run_commands(k, m, commands, n);
        let c = leaf_copy(count, rows, p);
        assert(commands[p] == CommandSpec::Copy(c));
        assert(s.buffers[p] == AllocationSpec::Data(columns[p]));
        assert(s.buffers[count] == AllocationSpec::Pooled((4 * rows * count) as u64));
        assert(before[p] == m[p]);
        assert(columns[p].len() >= rows);
        assert(0 <= 4 * rows * p && 4 * rows * p + 4 * rows <= 4 * rows * count)
            by (nonlinear_arith)
            requires
                0 <= rows,
                0 <= p < count,
        ;
        assert(4 * rows * p == 4 * (rows * p)) by (nonlinear_arith);
        assert(4 * rows * count == 4 * (rows * count)) by (nonlinear_arith);
        let piece = columns[p].subrange(0, rows);
        let block = after[count];
        assert(block == written(before[count], rows * p, piece));
        assert forall|i: int, r: int| 0 <= i < n && 0 <= r < rows implies block[rows * i + r]
            == #[trigger] columns[i][r] by {
            if i < p {
                assert(rows * i + r < rows * p) by (nonlinear_arith)
                    requires
                        0 <= i < p,
                        0 <= r < rows,
                ;
                assert(0 <= rows * i) by (nonlinear_arith)
                    requires
                        0 <= i,
                        0 <= rows,
                ;
                assert(before[count][rows * i + r] == columns[i][r]);
            } else {
                assert(piece[r] == columns[i][r]);
            }
        }
    }
}

/// When the kernel that hashes rows starts, the block that it is given holds the first rows of
/// all columns, one column after the other.
pub proof fn law_leaf_block(k: Kernels, m: Memory, columns: Seq<Seq<u32>>, rows: int)
    requires
        0 <= rows,
        columns.len() + 1 <= usize::MAX,
        32 * rows <= usize::MAX,
        4 * rows * columns.len() <= usize::MAX,
        forall|i: int| 0 <= i < columns.len() ==> (#[trigger] columns[i]).len() >= rows,
        starts(m, leaf_submission(columns, rows)),
    ensures
        ({
            let commands = leaf_submission(columns, rows).command_buffers[0];
            let block = run_commands(k, m, commands, columns.len())[columns.len() as int];
            forall|i: int, r: int|
                0 <= i < columns.len() && 0 <= r < rows ==> block[rows * i + r]
                    == #[trigger] columns[i][r]
        }),
{
    lemma_leaf_copies(k, m, columns, rows, columns.len());
}

/// The arguments of the kernel that hashes rows.
pub open spec fn leaf_args(block: Seq<u32>, columns: u32, rows: u32, out: Seq<u32>) -> Seq<Arg> {
    seq![
        Arg::Memory(block),
        Arg::U32(columns),
        Arg::U32(rows),
        Arg::Bool(true),
        Arg::Memory(out),
    ]
}

/// Row `r` of a block of columns that lie one after the other.
pub open spec fn block_row(block: Seq<u32>, columns: int, rows: int, r: int) -> Seq<u32> {
    Seq::new(columns as nat, |c: int| block[rows * c + r])
}

/// Row `r` of columns.
pub open spec fn row_of(columns: Seq<Seq<u32>>, r: int) -> Seq<u32> {
    Seq::new(columns.len(), |c: int| columns[c][r])
}

/// The words of the hashes of the first `rows` rows of columns.
pub open spec fn row_hashes(
    h: spec_fn(Seq<u32>) -> Seq<u32>,
    columns: Seq<Seq<u32>>,
    rows: nat,
) -> Seq<u32> {
    Seq::new(8 * rows, |i: int| h(row_of(columns, i / 8))[i % 8])
}

/// The kernel that hashes rows writes the hashes of the rows of its block, given by a function,
/// over the first words of its output, if there is room for them.
pub open spec fn hashes_rows(k: Kernels, h: spec_fn(Seq<u32>) -> Seq<u32>) -> bool {
    forall|block: Seq<u32>, columns: u32, rows: u32, out: Seq<u32>|
        block.len() >= rows * columns && out.len() >= 8 * rows ==> (#[trigger] k(
            Kernel::MerkleLeaf,
            leaf_args(block, columns, rows, out),
            grid_of(rows as int),
        ))[4].take(8 * rows as int) == Seq::new(
            8 * rows as nat,
            |i: int| h(block_row(block, columns as int, rows as int, i / 8))[i % 8],
        )
}

/// Whatever memory the GPU work for the rows of columns starts from, what is read back are the
/// hashes of the rows.
pub proof fn law_leaf_submission(
    k: Kernels,
    h: spec_fn(Seq<u32>) -> Seq<u32>,
    m: Memory,
    columns: Seq<Seq<u32>>,
    rows: int,
)
    requires
        hashes_rows(k, h),
        0 <= rows <= u32::MAX,
        columns.len() <= u32::MAX,
        columns.len() + 1 <= usize::MAX,
        32 * rows <= usize::MAX,
        4 * rows * columns.len() <= usize::MAX,
        forall|i: int| 0 <= i < columns.len() ==> (#[trigger] columns[i]).len() >= rows,
        starts(m, leaf_submission(columns, rows)),
    ensures
        run(k, m, leaf_submission(columns, rows)) == seq![row_hashes(h, columns, rows as nat)],
{
    let s = leaf_submission(columns, rows);
    let count = columns.len() as int;
    let commands = s.command_buffers[0];
    let d = leaf_dispatch(count, rows);
    lemma_leaf_copies(k, m, columns, rows, columns.len());
    let copied = run_commands(k, m, commands, columns.len());
    let (block, out) = (copied[count], copied[count + 1]);
    assert(s.buffers[count] == AllocationSpec::Pooled((4 * rows * count) as u64));
    assert(s.buffers[count + 1] == AllocationSpec::Pooled((32 * rows) as u64));
    assert(4 * rows * count == 4 * (rows * count)) by (nonlinear_arith);
    assert(0 <= rows * count) by (nonlinear_arith)
        requires
            0 <= rows,
            0 <= count,
    ;
    assert(out == m[count + 1]);
    assert(args(copied, d.bindings) =~= leaf_args(block, count as u32, rows as u32, out));
    let r = k(Kernel::MerkleLeaf, leaf_args(block, count as u32, rows as u32, out), grid_of(rows));
    let want = row_hashes(h, columns, rows as nat);
    assert forall|i: int| 0 <= i < 8 * rows implies #[trigger] want[i] == h(
        block_row(block, count, rows, i / 8),
    )[i % 8] by {
        assert(block_row(block, count, rows, i / 8) =~= row_of(columns, i / 8));
    }
    assert(r[4].take(8 * rows) =~= want);
    assert(commands.len() == columns.len() + 1);
    assert(commands[count] == CommandSpec::Compute(d));
    let end = run_commands(k, m, commands, commands.len());
    assert(end == run_dispatch(k, copied, d));
    let slot = count + 1;
    assert(bound_as(d.bindings, slot, 4));
    assert(end[slot] == r[4]) by {
        let b = choose|b: int| bound_as(d.bindings, slot, b);
        assert(bound_as(d.bindings, slot, b));
        assert(b == 4);
    }
    reveal_with_fuel(run_buffers, 2);
    assert(run(k, m, s) =~= seq![want]);
}

} // verus!
