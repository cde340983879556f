//! Every submission of this library stays inside the buffers that it allocates.
use crate::circle::{has_layers, lemma_twiddle_layer, twiddle_layer};
use crate::fields::SecureField;
use crate::fri::{fold_circle_submission, fold_line_submission};
use crate::gkr::fix_submission;
use crate::gpu::{AllocationSpec, CommandSpec, Kernel};
use crate::merkle::{leaf_copy, leaf_submission, node_submission};
use crate::merkle_tree::{
    lemma_layer_size_bound, tree_buffer, tree_command, tree_readback, tree_submission,
};
use crate::poly::{radix8_dispatch, radix8_submission};
use vstd::arithmetic::power2::*;
use vstd::prelude::*;

verus! {

/// Hashing pairs of children stays inside its buffers.
pub proof fn law_node_submission_valid(children: Seq<u32>, parents: int, is_m31: bool)
    requires
        0 <= parents,
        32 * parents <= usize::MAX,
    ensures
        node_submission(children, parents, is_m31).valid(),
{
}

/// Hashing the rows of columns stays inside its buffers, if the columns have that many rows.
pub proof fn law_leaf_submission_valid(columns: Seq<Seq<u32>>, rows: int)
    requires
        0 <= rows,
        32 * rows <= usize::MAX,
        columns.len() + 1 <= usize::MAX,
        4 * rows * columns.len() <= usize::MAX,
        forall|i: int| 0 <= i < columns.len() ==> (#[trigger] columns[i]).len() >= rows,
    ensures
        leaf_submission(columns, rows).valid(),
{
    let s = leaf_submission(columns, rows);
    let count = columns.len() as int;
    assert(s.buffers[count] == AllocationSpec::Pooled((4 * rows * count) as u64));
    assert(s.buffers[count + 1] == AllocationSpec::Pooled((32 * rows) as u64));
    assert forall|i: int, j: int|
        0 <= i < s.command_buffers.len() && 0 <= j < s.command_buffers[i].len() implies
        s.command_in_range(#[trigger] s.command_buffers[i][j]) by {
        if j < count {
            assert(s.command_buffers[i][j] == CommandSpec::Copy(leaf_copy(count, rows, j)));
            assert(s.buffers[j] == AllocationSpec::Data(columns[j]));
            assert(columns[j].len() >= rows);
            assert(0 <= 4 * rows * j && 4 * rows * j + 4 * rows <= 4 * rows * count)
                by (nonlinear_arith)
                requires
                    0 <= rows,
                    0 <= j < count,
            ;
        }
    }
}

/// Building a tree in one submission stays inside its buffers.
pub proof fn law_tree_submission_valid(words: Seq<u32>, len: nat, layers: nat, is_m31: bool)
    requires
        32 * len <= usize::MAX,
        layers < usize::MAX,
    ensures
        tree_submission(words, len, layers, is_m31).valid(),
{
    let s = tree_submission(words, len, layers, is_m31);
    assert forall|i: int, j: int|
        0 <= i < s.command_buffers.len() && 0 <= j < s.command_buffers[i].len() implies
        s.command_in_range(#[trigger] s.command_buffers[i][j]) by {
        assert(s.command_buffers[i][j] == tree_command(len, is_m31, j));
    }
    assert forall|r: int| 0 <= r < s.readbacks.len() implies (#[trigger] s.readbacks[r]).slot
        < s.buffers.len() && 4 * s.readbacks[r].words <= s.buffers[s.readbacks[r].slot as int].bytes() by {
        lemma_layer_size_bound(len, (r + 1) as nat);
        assert(s.readbacks[r] == tree_readback(len, r));
        assert(s.buffers[r + 1] == tree_buffer(words, len, r + 1));
    }
}

/// Radix-8 steps stay inside their buffers.
pub proof fn law_radix8_submission_valid(
    kernel: Kernel,
    data: Seq<u32>,
    twiddles: Seq<u32>,
    num_layers: nat,
    log_size: u32,
    steps: Seq<u32>,
)
    requires
        data.len() <= usize::MAX,
        3 * steps.len() + 1 <= usize::MAX,
    ensures
        radix8_submission(kernel, data, twiddles, num_layers, log_size, steps).valid(),
{
    let s = radix8_submission(kernel, data, twiddles, num_layers, log_size, steps);
    assert forall|i: int, j: int|
        0 <= i < s.command_buffers.len() && 0 <= j < s.command_buffers[i].len() implies
        s.command_in_range(#[trigger] s.command_buffers[i][j]) by {
        assert(s.command_buffers[i][j] == CommandSpec::Compute(
            radix8_dispatch(kernel, log_size, steps[i], i),
        ));
    }
    assert(s.buffers[0] == AllocationSpec::Data(data));
}

/// Folding a line stays inside its buffers.
pub proof fn law_fold_line_submission_valid(
    input: Seq<u32>,
    key: u64,
    twiddles: Seq<u32>,
    cached: bool,
    alpha: SecureField,
    log_size: u32,
)
    requires
        log_size >= 1,
        8 * pow2(log_size as nat) <= usize::MAX,
    ensures
        fold_line_submission(input, key, twiddles, cached, alpha, log_size).valid(),
{
    lemma_pow2_unfold(log_size as nat);
}

/// Folding a circle into a line stays inside its buffers, if the line is long enough.
pub proof fn law_fold_circle_submission_valid(
    src: Seq<u32>,
    dst: Seq<u32>,
    key: u64,
    twiddles: Seq<u32>,
    cached: bool,
    alpha: SecureField,
    log_size: u32,
)
    requires
        log_size >= 1,
        8 * pow2(log_size as nat) <= usize::MAX,
        dst.len() >= 4 * pow2((log_size - 1) as nat),
    ensures
        fold_circle_submission(src, dst, key, twiddles, cached, alpha, log_size).valid(),
{
    lemma_pow2_unfold(log_size as nat);
}

/// Fixing a variable stays inside its buffers.
pub proof fn law_fix_submission_valid(
    kernel: Kernel,
    input: Seq<u32>,
    len: nat,
    assignment: SecureField,
)
    requires
        8 * len <= usize::MAX,
    ensures
        fix_submission(kernel, input, len, assignment).valid(),
{
}

/// The layer of twiddles that the folding of a line uses has a word for every pair of elements.
pub proof fn law_fold_line_twiddles_suffice(itwiddles: Seq<u32>, layers: nat)
    requires
        layers > 0,
        has_layers(itwiddles, layers),
    ensures
        twiddle_layer(itwiddles, layers, 0).len() == pow2((layers - 1) as nat),
{
    lemma_twiddle_layer(itwiddles, layers, 0);
}

/// The three layers of twiddles of a radix-8 step from `layer` on have as many words as the layers
/// have blocks: `2^layer` for the finest one, for which there is a thread for each, then twice and
/// four times as many.
pub proof fn law_radix8_twiddle_lengths(twiddles: Seq<u32>, num_layers: nat, layer: nat, k: nat)
    requires
        has_layers(twiddles, num_layers),
        layer + 3 <= num_layers,
        k < 3,
    ensures
        twiddle_layer(twiddles, num_layers, num_layers - 1 - (layer + k)).len() == pow2(layer + k),
{
    lemma_twiddle_layer(twiddles, num_layers, num_layers - 1 - (layer + k));
}

} // verus!
