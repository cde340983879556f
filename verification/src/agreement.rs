//! Merkle layers, folds and fixed variables end to end, on whichever of the two paths they are
//! computed.
//!
//! The kernels and the SIMD backend are parameters that follow one and the same function. Then the
//! result of an operation is that function's, and does not depend on the path that was taken.
use crate::backend::{BaseColumn, MetalBackend, SecureColumn};
use crate::bits::{lemma_pow2_fits, log2};
use crate::buffer::{law_qm31_layout, law_raw_words, qm31_elements, qm31_words, raw, words_of};
use crate::circle::{LineDomain, TwiddleTree};
use crate::column::{MetalBaseColumn, MetalSecureColumn};
use crate::device_model::{
    args, bound_as, hashes_nodes, hashes_rows, law_batched_tree, law_leaf_submission,
    law_node_submission, law_single_dispatch, row_hashes, row_of, run, starts, tree_layer, Arg,
    Kernels, Memory,
};
use crate::context::twiddle_key;
use crate::evaluation::{LineEvaluation, SecureEvaluation};
use crate::field_laws::{element_stands_for, lemma_m31, lemma_product_stands_for, lemma_unique};
use crate::fields::{qm31_product, SecureField, M31, QM31};
use crate::fri::{
    first_itwiddles, fold_circle_submission, fold_line_submission, is_fold_circle_plan,
    is_fold_line_plan, is_folded_circle, is_folded_line, FoldCirclePlan, FoldLinePlan, FoldReply,
};
use crate::gkr::{
    fix_submission, is_fix_m31_plan, is_fix_qm31_plan, is_fixed, reduced_elements, FixPlan, FixReply,
    Mle,
};
use crate::gpu::{grid_of, AllocationSpec, Binding, CommandSpec, DispatchSpec, Kernel};
use crate::hash::{hash_words, law_layer_words_injective, layer_words, Blake2sHash};
use crate::merkle::{
    column_memories, is_blake2s_m31_plan, is_blake2s_plan, is_finished_layer, CommitPlan,
    CommitReply, MerkleHasher,
};
use crate::merkle_tree::{layer_size, lemma_layer_size_bound, tree_submission};
use crate::secure_column::SecureColumnByCoords;
use vstd::arithmetic::power2::*;
use vstd::prelude::*;

verus! {

/// A hash function on pairs of hashes: from the sixteen words of two hashes to the eight words of
/// one, with the words reduced to base field elements or not.
pub type PairHash = spec_fn(Seq<u32>, bool) -> Seq<u32>;

/// The words of `n` hashes of pairs.
pub open spec fn pair_hashes(h: PairHash, words: Seq<u32>, is_m31: bool, n: nat) -> Seq<u32> {
    Seq::new(
        8 * n,
        |i: int| h(words.subrange(16 * (i / 8), 16 * (i / 8) + 16), is_m31)[i % 8],
    )
}

/// The hash function on pairs as a function on layers.
pub open spec fn pairwise(h: PairHash) -> spec_fn(Seq<u32>, bool, u32) -> Seq<u32> {
    |children: Seq<u32>, is_m31: bool, n: u32| pair_hashes(h, children, is_m31, n as nat)
}

/// The plan of a layer of nodes without columns.
pub open spec fn is_node_plan(
    plan: CommitPlan<'_>,
    hasher: MerkleHasher,
    log_size: u32,
    children: &Vec<Blake2sHash>,
) -> bool {
    match hasher {
        MerkleHasher::Blake2s => is_blake2s_plan(
            plan,
            log_size,
            Some(children),
            Seq::<&MetalBaseColumn>::empty(),
        ),
        MerkleHasher::Blake2sM31 => is_blake2s_m31_plan(
            plan,
            log_size,
            Some(children),
            Seq::<&MetalBaseColumn>::empty(),
        ),
    }
}

/// The reply answers the plan of a layer of nodes: the SIMD backend hashes pairs, and the GPU
/// carries the submission out from some memory that it may start from.
pub open spec fn answers_commit(
    k: Kernels,
    h: PairHash,
    plan: CommitPlan<'_>,
    reply: CommitReply,
) -> bool {
    match (plan, reply) {
        (CommitPlan::Simd(request), CommitReply::Simd(hashes)) => layer_words(hashes@)
            == pair_hashes(
            h,
            layer_words(request.prev_layer->0@),
            request.hasher == MerkleHasher::Blake2sM31,
            pow2(request.log_size as nat),
        ),
        (CommitPlan::Gpu(s), CommitReply::Gpu(words)) => exists|m: Memory| #[trigger]
            starts(m, s@) && words@ == run(k, m, s@)[0],
        _ => false,
    }
}

/// Committing on a layer of nodes gives `layer`.
pub open spec fn commits(
    k: Kernels,
    h: PairHash,
    hasher: MerkleHasher,
    log_size: u32,
    children: &Vec<Blake2sHash>,
    layer: Seq<Blake2sHash>,
) -> bool {
    exists|plan: CommitPlan<'_>, reply: CommitReply| #[trigger]
        answers_commit(k, h, plan, reply) && is_node_plan(plan, hasher, log_size, children)
            && is_finished_layer(layer, log_size, reply)
}

/// A layer of nodes are the hashes of the pairs of its children, on the GPU and on the SIMD
/// backend alike.
pub proof fn law_layer_is_pairwise(
    k: Kernels,
    h: PairHash,
    hasher: MerkleHasher,
    log_size: u32,
    children: &Vec<Blake2sHash>,
    layer: Seq<Blake2sHash>,
)
    requires
        hashes_nodes(k, pairwise(h)),
        commits(k, h, hasher, log_size, children, layer),
        pow2(log_size as nat) <= u32::MAX,
        8 * pow2(log_size as nat) <= usize::MAX,
    ensures
        layer_words(layer) == pair_hashes(
            h,
            layer_words(children@),
            hasher == MerkleHasher::Blake2sM31,
            pow2(log_size as nat),
        ),
{
    let is_m31 = hasher == MerkleHasher::Blake2sM31;
    let n = pow2(log_size as nat);
    let (plan, reply) = choose|plan: CommitPlan<'_>, reply: CommitReply| #[trigger]
        answers_commit(k, h, plan, reply) && is_node_plan(plan, hasher, log_size, children)
            && is_finished_layer(layer, log_size, reply);
    match (plan, reply) {
        (CommitPlan::Gpu(s), CommitReply::Gpu(words)) => {
            let m = choose|m: Memory| #[trigger] starts(m, s@) && words@ == run(k, m, s@)[0];
            law_node_submission(
                k,
                pairwise(h),
                m,
                layer_words(children@),
                n as int,
                is_m31,
            );
            let want = pair_hashes(h, layer_words(children@), is_m31, n);
            assert(words@ == want);
            assert(want.take(8 * n as int) =~= want);
        },
        _ => {},
    }
}

/// The words of two layers, one after the other.
proof fn lemma_layer_words_concat(a: Seq<Blake2sHash>, b: Seq<Blake2sHash>)
    ensures
        layer_words(a + b) == layer_words(a) + layer_words(b),
{
    assert forall|i: int| 0 <= i < 8 * (a.len() + b.len()) implies #[trigger] layer_words(a + b)[i]
        == (layer_words(a) + layer_words(b))[i] by {
        let j = i / 8;
        assert(layer_words(a + b)[i] == hash_words((a + b)[j])[i % 8]);
        if i < 8 * a.len() {
            assert((a + b)[j] == a[j]);
        } else {
            let r = i - 8 * a.len();
            assert(r / 8 == j - a.len() && r % 8 == i % 8);
            assert((a + b)[j] == b[j - a.len()]);
            assert(layer_words(b)[r] == hash_words(b[r / 8])[r % 8]);
        }
    }
    assert(layer_words(a + b) =~= layer_words(a) + layer_words(b));
}

/// The hashes of the pairs of two halves are those of the one half and then those of the other.
proof fn lemma_pair_hashes_concat(h: PairHash, a: Seq<u32>, b: Seq<u32>, is_m31: bool, n: nat)
    requires
        a.len() == 16 * n,
        b.len() == 16 * n,
    ensures
        pair_hashes(h, a + b, is_m31, 2 * n) == pair_hashes(h, a, is_m31, n) + pair_hashes(
            h,
            b,
            is_m31,
            n,
        ),
{
    let whole = pair_hashes(h, a + b, is_m31, 2 * n);
    let (left, right) = (pair_hashes(h, a, is_m31, n), pair_hashes(h, b, is_m31, n));
    assert forall|i: int| 0 <= i < 16 * n implies #[trigger] whole[i] == (left + right)[i] by {
        let j = i / 8;
        if i < 8 * n {
            assert((a + b).subrange(16 * j, 16 * j + 16) =~= a.subrange(16 * j, 16 * j + 16));
        } else {
            let r = i - 8 * n;
            assert(r / 8 == j - n && r % 8 == i % 8);
            assert((a + b).subrange(16 * j, 16 * j + 16) =~= b.subrange(
                16 * (r / 8),
                16 * (r / 8) + 16,
            ));
        }
    }
    assert(whole =~= left + right);
}

/// A layer over two halves is the layer over the one half followed by the layer over the other,
/// also where the large layer is computed on the GPU and the small ones on the SIMD backend.
pub proof fn law_layer_of_halves(
    k: Kernels,
    h: PairHash,
    hasher: MerkleHasher,
    log_size: u32,
    children: &Vec<Blake2sHash>,
    low: &Vec<Blake2sHash>,
    high: &Vec<Blake2sHash>,
    layer: Seq<Blake2sHash>,
    layer_low: Seq<Blake2sHash>,
    layer_high: Seq<Blake2sHash>,
)
    requires
        hashes_nodes(k, pairwise(h)),
        log_size >= 1,
        pow2(log_size as nat) <= u32::MAX,
        8 * pow2(log_size as nat) <= usize::MAX,
        low@.len() == pow2(log_size as nat),
        high@.len() == pow2(log_size as nat),
        children@ == low@ + high@,
        commits(k, h, hasher, log_size, children, layer),
        commits(k, h, hasher, (log_size - 1) as u32, low, layer_low),
        commits(k, h, hasher, (log_size - 1) as u32, high, layer_high),
    ensures
        layer == layer_low + layer_high,
{
    let is_m31 = hasher == MerkleHasher::Blake2sM31;
    let half = pow2((log_size - 1) as nat);
    lemma_pow2_unfold(log_size as nat);
    law_layer_is_pairwise(k, h, hasher, log_size, children, layer);
    law_layer_is_pairwise(k, h, hasher, (log_size - 1) as u32, low, layer_low);
    law_layer_is_pairwise(k, h, hasher, (log_size - 1) as u32, high, layer_high);
    lemma_layer_words_concat(low@, high@);
    lemma_pair_hashes_concat(h, layer_words(low@), layer_words(high@), is_m31, half);
    lemma_layer_words_concat(layer_low, layer_high);
    law_layer_words_injective(layer, layer_low + layer_high);
}

/// The words of the elements of columns.
pub open spec fn column_words(columns: Seq<&MetalBaseColumn>) -> Seq<Seq<u32>> {
    Seq::new(columns.len(), |i: int| raw(columns[i]@))
}

/// The words of the elements of SIMD columns.
pub open spec fn simd_column_words(columns: Seq<BaseColumn>) -> Seq<Seq<u32>> {
    Seq::new(columns.len(), |i: int| raw(columns[i]@))
}

/// The reply answers the plan of a layer of leaves: the SIMD backend hashes rows, and the GPU
/// carries the submission out from some memory that it may start from.
pub open spec fn answers_leaves(
    k: Kernels,
    h: spec_fn(Seq<u32>) -> Seq<u32>,
    plan: CommitPlan<'_>,
    reply: CommitReply,
) -> bool {
    match (plan, reply) {
        (CommitPlan::Simd(request), CommitReply::Simd(hashes)) => layer_words(hashes@)
            == row_hashes(
            h,
            simd_column_words(request.columns@),
            pow2(request.log_size as nat),
        ),
        (CommitPlan::Gpu(s), CommitReply::Gpu(words)) => exists|m: Memory| #[trigger]
            starts(m, s@) && words@ == run(k, m, s@)[0],
        _ => false,
    }
}

/// Committing on the layer of the leaves, with words that are base field elements, gives `layer`.
pub open spec fn commits_leaves(
    k: Kernels,
    h: spec_fn(Seq<u32>) -> Seq<u32>,
    log_size: u32,
    columns: Seq<&MetalBaseColumn>,
    layer: Seq<Blake2sHash>,
) -> bool {
    exists|plan: CommitPlan<'_>, reply: CommitReply| #[trigger]
        answers_leaves(k, h, plan, reply) && is_blake2s_m31_plan(plan, log_size, None, columns)
            && is_finished_layer(layer, log_size, reply)
}

/// The layer of the leaves are the hashes of the rows of its columns, on the GPU and on the SIMD
/// backend alike.
pub proof fn law_leaves_are_hashed_by_row(
    k: Kernels,
    h: spec_fn(Seq<u32>) -> Seq<u32>,
    log_size: u32,
    columns: Seq<&MetalBaseColumn>,
    layer: Seq<Blake2sHash>,
)
    requires
        hashes_rows(k, h),
        0 < columns.len() <= u32::MAX,
        columns.len() + 1 <= usize::MAX,
        forall|i: int|
            0 <= i < columns.len() ==> (#[trigger] columns[i]).wf() && columns[i]@.len() == pow2(
                log_size as nat,
            ),
        pow2(log_size as nat) <= u32::MAX,
        32 * pow2(log_size as nat) <= usize::MAX,
        4 * pow2(log_size as nat) * columns.len() <= usize::MAX,
        commits_leaves(k, h, log_size, columns, layer),
    ensures
        layer_words(layer) == row_hashes(h, column_words(columns), pow2(log_size as nat)),
{
    let rows = pow2(log_size as nat);
    let (plan, reply) = choose|plan: CommitPlan<'_>, reply: CommitReply| #[trigger]
        answers_leaves(k, h, plan, reply) && is_blake2s_m31_plan(plan, log_size, None, columns)
            && is_finished_layer(layer, log_size, reply);
    match (plan, reply) {
        (CommitPlan::Gpu(s), CommitReply::Gpu(words)) => {
            let memories = column_memories(columns);
            let m = choose|m: Memory| #[trigger] starts(m, s@) && words@ == run(k, m, s@)[0];
            assert forall|i: int| 0 <= i < memories.len() implies (
            #[trigger] memories[i]).len() >= rows by {
                columns[i].law_memory();
            }
            law_leaf_submission(k, h, m, memories, rows as int);
            let want = row_hashes(h, column_words(columns), rows);
            assert forall|i: int| 0 <= i < 8 * rows implies #[trigger] row_hashes(
                h,
                memories,
                rows,
            )[i] == want[i] by {
                let r = i / 8;
                assert forall|c: int| 0 <= c < columns.len() implies row_of(memories, r)[c]
                    == row_of(column_words(columns), r)[c] by {
                    columns[c].law_memory();
                    assert(columns[c]@[r] == columns[c].memory()[r]);
                }
                assert(row_of(memories, r) =~= row_of(column_words(columns), r));
            }
            assert(row_hashes(h, memories, rows) =~= want);
            assert(want.take(8 * rows as int) =~= want);
        },
        (CommitPlan::Simd(request), CommitReply::Simd(_)) => {
            assert(simd_column_words(request.columns@) =~= column_words(columns));
        },
        _ => {},
    }
}

/// The sizes of the layers over a power of two.
proof fn lemma_layer_size_of_power(n: nat, i: nat)
    requires
        i <= n,
    ensures
        layer_size(pow2(n), i) == pow2((n - i) as nat),
    decreases i,
{
    if i > 0 {
        lemma_layer_size_of_power(n, (i - 1) as nat);
        lemma_pow2_unfold((n - i + 1) as nat);
    }
}

/// Every layer of a tree that is built in one submission is what committing on that layer gives
/// over the layer below it, also where committing goes to the SIMD backend.
pub proof fn law_batched_tree_is_committed(
    k: Kernels,
    h: PairHash,
    m: Memory,
    initial: Seq<Blake2sHash>,
    n: nat,
    layers: nat,
    is_m31: bool,
    result: Seq<Seq<Blake2sHash>>,
    i: int,
    below: &Vec<Blake2sHash>,
    layer: Seq<Blake2sHash>,
)
    requires
        hashes_nodes(k, pairwise(h)),
        initial.len() == pow2(n),
        1 <= layers <= n,
        initial.len() <= u32::MAX,
        8 * initial.len() <= usize::MAX,
        starts(m, tree_submission(layer_words(initial), initial.len(), layers, is_m31)),
        // The layers that are made of what is read back.
        result.len() == layers,
        forall|j: int|
            0 <= j < layers ==> layer_words(#[trigger] result[j]) == run(
                k,
                m,
                tree_submission(layer_words(initial), initial.len(), layers, is_m31),
            )[j].take(8 * layer_size(initial.len(), (j + 1) as nat) as int),
        // One of them and the layer below it.
        0 <= i < layers,
        below@ == if i == 0 {
            initial
        } else {
            result[i - 1]
        },
        commits(
            k,
            h,
            if is_m31 {
                MerkleHasher::Blake2sM31
            } else {
                MerkleHasher::Blake2s
            },
            (n - 1 - i) as u32,
            below,
            layer,
        ),
    ensures
        layer == result[i],
{
    let hasher = if is_m31 {
        MerkleHasher::Blake2sM31
    } else {
        MerkleHasher::Blake2s
    };
    let words = layer_words(initial);
    let f = pairwise(h);
    let len = initial.len();
    let log_size = (n - 1 - i) as u32;
    lemma_pow2_fits(n);
    law_batched_tree(k, f, m, words, len, layers, is_m31);
    lemma_layer_size_of_power(n, (i + 1) as nat);
    lemma_layer_size_bound(len, (i + 1) as nat);
    lemma_result_layer(k, h, m, initial, layers, is_m31, result, i);
    if i > 0 {
        lemma_result_layer(k, h, m, initial, layers, is_m31, result, i - 1);
    }
    assert(layer_words(below@) == tree_layer(f, words, len, is_m31, i as nat));
    law_layer_is_pairwise(k, h, hasher, log_size, below, layer);
    law_layer_words_injective(layer, result[i]);
}

/// The words of a layer that is made of what is read back of a tree.
proof fn lemma_result_layer(
    k: Kernels,
    h: PairHash,
    m: Memory,
    initial: Seq<Blake2sHash>,
    layers: nat,
    is_m31: bool,
    result: Seq<Seq<Blake2sHash>>,
    i: int,
)
    requires
        hashes_nodes(k, pairwise(h)),
        initial.len() <= u32::MAX,
        8 * initial.len() <= usize::MAX,
        layers < usize::MAX,
        starts(m, tree_submission(layer_words(initial), initial.len(), layers, is_m31)),
        0 <= i < layers,
        layer_words(result[i]) == run(
            k,
            m,
            tree_submission(layer_words(initial), initial.len(), layers, is_m31),
        )[i].take(8 * layer_size(initial.len(), (i + 1) as nat) as int),
    ensures
        layer_words(result[i]) == tree_layer(
            pairwise(h),
            layer_words(initial),
            initial.len(),
            is_m31,
            (i + 1) as nat,
        ),
{
    let f = pairwise(h);
    let words = layer_words(initial);
    law_batched_tree(k, f, m, words, initial.len(), layers, is_m31);
    lemma_layer_size_bound(initial.len(), (i + 1) as nat);
    let layer = tree_layer(f, words, initial.len(), is_m31, (i + 1) as nat);
    assert(layer.len() == 8 * layer_size(initial.len(), (i + 1) as nat));
    assert(layer.take(layer.len() as int) =~= layer);
}

/// A function that folds the elements of a line, given the inverse twiddles of its longest layer
/// and a challenge.
pub type LineFold = spec_fn(Seq<QM31>, Seq<u32>, QM31) -> Seq<QM31>;

/// The `2^(n - 1)` words that start `2^n` before the end.
pub open spec fn longest_layer(words: Seq<u32>, n: nat) -> Seq<u32> {
    words.subrange(words.len() - pow2(n), words.len() - pow2((n - 1) as nat))
}

/// They are the inverse twiddles that a fold uses.
proof fn lemma_longest_layer(twiddles: TwiddleTree, domain: LineDomain)
    requires
        domain.coset.log_size >= 1,
    ensures
        first_itwiddles(twiddles, domain) == longest_layer(
            twiddles.itwiddles@,
            domain.coset.log_size as nat,
        ),
{
    lemma_pow2_unfold(domain.coset.log_size as nat);
}

/// The words of elements.
pub open spec fn element_sequence_words(elements: Seq<QM31>) -> Seq<u32> {
    raw(qm31_words(elements))
}

/// The arguments of the kernel that folds a line.
pub open spec fn fold_line_args(
    input: Seq<u32>,
    out: Seq<u32>,
    twiddles: Seq<u32>,
    alpha: Seq<u32>,
    log_size: u32,
) -> Seq<Arg> {
    seq![
        Arg::Memory(input),
        Arg::Memory(out),
        Arg::Memory(twiddles),
        Arg::Memory(alpha),
        Arg::U32(log_size),
    ]
}

/// The kernel that folds a line writes the elements that a function gives over the first words of
/// its output, whatever was there.
pub open spec fn folds_lines(k: Kernels, fold: LineFold) -> bool {
    forall|elements: Seq<QM31>, out: Seq<u32>, twiddles: Seq<u32>, alpha: QM31, log_size: u32|
        log_size >= 1 && elements.len() == pow2(log_size as nat) && out.len() >= 4 * pow2(
            (log_size - 1) as nat,
        ) ==> {
            let half = pow2((log_size - 1) as nat);
            let r = #[trigger] k(
                Kernel::FriFoldLine,
                fold_line_args(
                    element_sequence_words(elements),
                    out,
                    twiddles,
                    raw(alpha.words()),
                    log_size,
                ),
                grid_of(pow2((log_size - 1) as nat) as int),
            );
            &&& fold(elements, twiddles, alpha).len() == half
            &&& r[1].take(4 * half as int) == element_sequence_words(
                fold(elements, twiddles, alpha),
            )
        }
}

/// The reply answers the plan of the folding of a line.
pub open spec fn answers_fold_line(
    k: Kernels,
    fold: LineFold,
    plan: FoldLinePlan<'_>,
    reply: FoldReply,
) -> bool {
    match (plan, reply) {
        (FoldLinePlan::Simd(request), FoldReply::Simd(result)) => {
            &&& result.domain.coset == request.eval.domain.coset.doubled()
            &&& result.values.elements() == fold(
                request.eval.values.elements(),
                longest_layer(
                    request.twiddles.itwiddles@,
                    request.eval.domain.coset.log_size as nat,
                ),
                request.alpha,
            )
        },
        (FoldLinePlan::Gpu(s), FoldReply::Gpu(words)) => exists|m: Memory| #[trigger]
            starts(m, s@) && words@ == run(k, m, s@)[0],
        _ => false,
    }
}

/// Folding a line gives `line`.
pub open spec fn line_folds(
    k: Kernels,
    fold: LineFold,
    eval: LineEvaluation<MetalBackend>,
    alpha: SecureField,
    twiddles: TwiddleTree,
    line: LineEvaluation<MetalBackend>,
) -> bool {
    exists|plan: FoldLinePlan<'_>, reply: FoldReply, cached: bool| #[trigger]
        answers_fold_line(k, fold, plan, reply) && #[trigger] is_fold_line_plan(
            plan,
            eval,
            alpha,
            twiddles,
            cached,
        ) && is_folded_line(line, eval.domain, reply)
}

/// The elements of words that are those of a sequence of elements.
proof fn lemma_elements_of_words(words: Seq<u32>, elements: Seq<QM31>)
    requires
        words == element_sequence_words(elements),
    ensures
        qm31_elements(words_of(words), elements.len()) == elements,
{
    law_raw_words(qm31_words(elements), words);
    law_qm31_layout(elements, Seq::empty());
}

/// What the GPU work for the folding of a line gives.
proof fn lemma_fold_line_run(
    k: Kernels,
    fold: LineFold,
    m: Memory,
    elements: Seq<QM31>,
    key: u64,
    twiddles: Seq<u32>,
    cached: bool,
    alpha: SecureField,
    log_size: u32,
)
    requires
        folds_lines(k, fold),
        log_size >= 1,
        elements.len() == pow2(log_size as nat),
        8 * pow2(log_size as nat) <= usize::MAX,
        starts(
            m,
            fold_line_submission(
                element_sequence_words(elements),
                key,
                twiddles,
                cached,
                alpha,
                log_size,
            ),
        ),
    ensures
        fold(elements, twiddles, alpha).len() == pow2((log_size - 1) as nat),
        run(
            k,
            m,
            fold_line_submission(
                element_sequence_words(elements),
                key,
                twiddles,
                cached,
                alpha,
                log_size,
            ),
        )[0] == element_sequence_words(fold(elements, twiddles, alpha)),
{
    let s = fold_line_submission(
        element_sequence_words(elements),
        key,
        twiddles,
        cached,
        alpha,
        log_size,
    );
    let half = pow2((log_size - 1) as nat);
    lemma_pow2_unfold(log_size as nat);
    assert(s.buffers[0] == AllocationSpec::Data(element_sequence_words(elements)));
    assert(s.buffers[1] == AllocationSpec::Pooled((16 * half) as u64));
    assert(s.buffers[2] == AllocationSpec::Twiddles { key, words: twiddles, cached });
    assert(s.buffers[3] == AllocationSpec::Data(raw(alpha.words())));
    let d = DispatchSpec {
        kernel: Kernel::FriFoldLine,
        bindings: seq![
            Binding::Buffer(0),
            Binding::Buffer(1),
            Binding::Buffer(2),
            Binding::Buffer(3),
            Binding::U32(log_size),
        ],
        grid: grid_of(half as int),
    };
    assert(s.command_buffers =~= seq![seq![CommandSpec::Compute(d)]]);
    assert(args(m, d.bindings) =~= fold_line_args(
        element_sequence_words(elements),
        m[1],
        twiddles,
        raw(alpha.words()),
        log_size,
    ));
    assert(bound_as(d.bindings, 1, 1));
    law_single_dispatch(k, m, s, d, 1);
}

/// Folding a line halves it, doubles the points of its domain, and gives the elements that the
/// function gives on the elements, the inverse twiddles of the longest layer and the challenge,
/// on the GPU and on the SIMD backend alike.
pub proof fn law_fold_line(
    k: Kernels,
    fold: LineFold,
    eval: LineEvaluation<MetalBackend>,
    alpha: SecureField,
    twiddles: TwiddleTree,
    line: LineEvaluation<MetalBackend>,
)
    requires
        folds_lines(k, fold),
        eval.wf(),
        8 * pow2(eval.domain.coset.log_size as nat) <= usize::MAX,
        line_folds(k, fold, eval, alpha, twiddles, line),
    ensures
        line.domain.coset == eval.domain.coset.doubled(),
        line.values.elements() == fold(
            eval.values.elements(),
            longest_layer(twiddles.itwiddles@, eval.domain.coset.log_size as nat),
            alpha,
        ),
{
    let (plan, reply, cached) = choose|
        plan: FoldLinePlan<'_>,
        reply: FoldReply,
        cached: bool,
    | #[trigger]
        answers_fold_line(k, fold, plan, reply) && #[trigger] is_fold_line_plan(
            plan,
            eval,
            alpha,
            twiddles,
            cached,
        ) && is_folded_line(line, eval.domain, reply);
    match (plan, reply) {
        (FoldLinePlan::Gpu(s), FoldReply::Gpu(words)) => {
            let m = choose|m: Memory| #[trigger] starts(m, s@) && words@ == run(k, m, s@)[0];
            let itwiddles = first_itwiddles(twiddles, eval.domain);
            lemma_longest_layer(twiddles, eval.domain);
            lemma_fold_line_run(
                k,
                fold,
                m,
                eval.values.elements(),
                twiddle_key(itwiddles),
                itwiddles,
                cached,
                alpha,
                eval.domain.coset.log_size,
            );
            lemma_elements_of_words(words@, fold(eval.values.elements(), itwiddles, alpha));
        },
        _ => {},
    }
}

/// A function that folds the elements of a circle into those of a line, given the inverse twiddles
/// of the longest layer and a challenge.
pub type CircleFold = spec_fn(Seq<QM31>, Seq<QM31>, Seq<u32>, QM31) -> Seq<QM31>;

/// The arguments of the kernel that folds a circle into a line.
pub open spec fn fold_circle_args(
    src: Seq<u32>,
    dst: Seq<u32>,
    twiddles: Seq<u32>,
    alpha: Seq<u32>,
    alpha_sq: Seq<u32>,
    log_size: u32,
) -> Seq<Arg> {
    seq![
        Arg::Memory(src),
        Arg::Memory(dst),
        Arg::Memory(twiddles),
        Arg::Memory(alpha),
        Arg::Memory(alpha_sq),
        Arg::U32(log_size),
    ]
}

/// The element is the square of a challenge in the field with `i*i = -1` and `u*u = 2 + i`.
pub open spec fn is_square(square: QM31, alpha: QM31) -> bool {
    let (a, b, c, d) = (
        alpha.0.0.0 as int,
        alpha.0.1.0 as int,
        alpha.1.0.0 as int,
        alpha.1.1.0 as int,
    );
    element_stands_for(
        square,
        a * a - b * b + 2 * (c * c - d * d) - (c * d + d * c),
        a * b + b * a + (c * c - d * d) + 2 * (c * d + d * c),
        a * c - b * d + c * a - d * b,
        a * d + b * c + c * b + d * a,
    )
}

/// The kernel that folds a circle into a line replaces the elements of the line by those that a
/// function gives, if it is given the square of the challenge too.
pub open spec fn folds_circles(k: Kernels, fold: CircleFold) -> bool {
    forall|
        dst: Seq<QM31>,
        src: Seq<QM31>,
        twiddles: Seq<u32>,
        alpha: QM31,
        square: QM31,
        log_size: u32,
    |
        log_size >= 1 && src.len() == pow2(log_size as nat) && dst.len() == pow2(
            (log_size - 1) as nat,
        ) && is_square(square, alpha) ==> {
            let half = pow2((log_size - 1) as nat);
            let r = #[trigger] k(
                Kernel::FriFoldCircle,
                fold_circle_args(
                    element_sequence_words(src),
                    element_sequence_words(dst),
                    twiddles,
                    raw(alpha.words()),
                    raw(square.words()),
                    log_size,
                ),
                grid_of(pow2((log_size - 1) as nat) as int),
            );
            &&& fold(dst, src, twiddles, alpha).len() == half
            &&& r[1].take(4 * half as int) == element_sequence_words(
                fold(dst, src, twiddles, alpha),
            )
        }
}

/// The reply answers the plan of the folding of a circle into a line.
pub open spec fn answers_fold_circle(
    k: Kernels,
    fold: CircleFold,
    plan: FoldCirclePlan<'_>,
    reply: FoldReply,
) -> bool {
    match (plan, reply) {
        (
            FoldCirclePlan::Simd(request),
            FoldReply::Simd(result),
        ) => result.values.elements() == fold(
            request.dst.values.elements(),
            request.src.values.elements(),
            longest_layer(
                request.twiddles.itwiddles@,
                request.src.domain.half_coset.log_size as nat,
            ),
            request.alpha,
        ),
        (FoldCirclePlan::Gpu(s), FoldReply::Gpu(words)) => exists|m: Memory| #[trigger]
            starts(m, s@) && words@ == run(k, m, s@)[0],
        _ => false,
    }
}

/// Folding a circle into the line `dst` gives `values`.
pub open spec fn circle_folds(
    k: Kernels,
    fold: CircleFold,
    dst: LineEvaluation<MetalBackend>,
    src: SecureEvaluation<MetalBackend>,
    alpha: SecureField,
    twiddles: TwiddleTree,
    values: SecureColumnByCoords<MetalBackend>,
) -> bool {
    exists|plan: FoldCirclePlan<'_>, reply: FoldReply, cached: bool| #[trigger]
        answers_fold_circle(k, fold, plan, reply) && #[trigger] is_fold_circle_plan(
            plan,
            dst,
            src,
            alpha,
            twiddles,
            cached,
        ) && is_folded_circle(values, src.domain.spec_log_size() as u32, reply)
}

/// What the GPU work for the folding of a circle into a line gives.
proof fn lemma_fold_circle_run(
    k: Kernels,
    fold: CircleFold,
    m: Memory,
    dst: Seq<QM31>,
    src: Seq<QM31>,
    key: u64,
    twiddles: Seq<u32>,
    cached: bool,
    alpha: SecureField,
    log_size: u32,
)
    requires
        folds_circles(k, fold),
        log_size >= 1,
        src.len() == pow2(log_size as nat),
        dst.len() == pow2((log_size - 1) as nat),
        8 * pow2(log_size as nat) <= usize::MAX,
        starts(
            m,
            fold_circle_submission(
                element_sequence_words(src),
                element_sequence_words(dst),
                key,
                twiddles,
                cached,
                alpha,
                log_size,
            ),
        ),
    ensures
        fold(dst, src, twiddles, alpha).len() == pow2((log_size - 1) as nat),
        run(
            k,
            m,
            fold_circle_submission(
                element_sequence_words(src),
                element_sequence_words(dst),
                key,
                twiddles,
                cached,
                alpha,
                log_size,
            ),
        )[0] == element_sequence_words(fold(dst, src, twiddles, alpha)),
{
    let s = fold_circle_submission(
        element_sequence_words(src),
        element_sequence_words(dst),
        key,
        twiddles,
        cached,
        alpha,
        log_size,
    );
    let half = pow2((log_size - 1) as nat);
    let square = raw(qm31_product(alpha, alpha).words());
    lemma_product_stands_for(alpha, alpha);
    assert(is_square(qm31_product(alpha, alpha), alpha));
    lemma_pow2_unfold(log_size as nat);
    assert(s.buffers[0] == AllocationSpec::Data(element_sequence_words(src)));
    assert(s.buffers[1] == AllocationSpec::Data(element_sequence_words(dst)));
    assert(s.buffers[2] == AllocationSpec::Twiddles { key, words: twiddles, cached });
    assert(s.buffers[3] == AllocationSpec::Data(raw(alpha.words())));
    assert(s.buffers[4] == AllocationSpec::Data(square));
    let d = DispatchSpec {
        kernel: Kernel::FriFoldCircle,
        bindings: seq![
            Binding::Buffer(0),
            Binding::Buffer(1),
            Binding::Buffer(2),
            Binding::Buffer(3),
            Binding::Buffer(4),
            Binding::U32(log_size),
        ],
        grid: grid_of(half as int),
    };
    assert(s.command_buffers =~= seq![seq![CommandSpec::Compute(d)]]);
    assert(args(m, d.bindings) =~= fold_circle_args(
        element_sequence_words(src),
        element_sequence_words(dst),
        twiddles,
        raw(alpha.words()),
        square,
        log_size,
    ));
    assert(bound_as(d.bindings, 1, 1));
    law_single_dispatch(k, m, s, d, 1);
}

/// Folding a circle into a line of half its length gives the elements that the function gives on
/// the elements of both, the inverse twiddles of the longest layer and the challenge, on the GPU
/// and on the SIMD backend alike.
pub proof fn law_fold_circle_into_line(
    k: Kernels,
    fold: CircleFold,
    dst: LineEvaluation<MetalBackend>,
    src: SecureEvaluation<MetalBackend>,
    alpha: SecureField,
    twiddles: TwiddleTree,
    values: SecureColumnByCoords<MetalBackend>,
)
    requires
        folds_circles(k, fold),
        dst.wf(),
        src.wf(),
        dst.values.elements().len() == pow2(src.domain.half_coset.log_size as nat),
        8 * pow2(src.domain.spec_log_size()) <= usize::MAX,
        circle_folds(k, fold, dst, src, alpha, twiddles, values),
    ensures
        values.elements() == fold(
            dst.values.elements(),
            src.values.elements(),
            longest_layer(twiddles.itwiddles@, src.domain.half_coset.log_size as nat),
            alpha,
        ),
{
    let log_size = src.domain.spec_log_size() as u32;
    let (plan, reply, cached) = choose|
        plan: FoldCirclePlan<'_>,
        reply: FoldReply,
        cached: bool,
    | #[trigger]
        answers_fold_circle(k, fold, plan, reply) && #[trigger] is_fold_circle_plan(
            plan,
            dst,
            src,
            alpha,
            twiddles,
            cached,
        ) && is_folded_circle(values, log_size, reply);
    match (plan, reply) {
        (FoldCirclePlan::Gpu(s), FoldReply::Gpu(words)) => {
            let m = choose|m: Memory| #[trigger] starts(m, s@) && words@ == run(k, m, s@)[0];
            let itwiddles = first_itwiddles(
                twiddles,
                LineDomain { coset: src.domain.half_coset },
            );
            lemma_longest_layer(twiddles, LineDomain { coset: src.domain.half_coset });
            lemma_fold_circle_run(
                k,
                fold,
                m,
                dst.values.elements(),
                src.values.elements(),
                twiddle_key(itwiddles),
                itwiddles,
                cached,
                alpha,
                log_size,
            );
            lemma_elements_of_words(
                words@,
                fold(dst.values.elements(), src.values.elements(), itwiddles, alpha),
            );
        },
        _ => {},
    }
}

/// The arguments of the kernels that fix the first variable.
pub open spec fn fix_args(
    input: Seq<u32>,
    out: Seq<u32>,
    assignment: Seq<u32>,
    log_size: u32,
) -> Seq<Arg> {
    seq![
        Arg::Memory(input),
        Arg::Memory(out),
        Arg::Memory(assignment),
        Arg::U32(log_size),
    ]
}

/// What the GPU work to fix the first variable gives.
proof fn lemma_fix_run(
    k: Kernels,
    m: Memory,
    kernel: Kernel,
    input: Seq<u32>,
    len: nat,
    assignment: SecureField,
)
    requires
        8 * len <= usize::MAX,
        starts(m, fix_submission(kernel, input, len, assignment)),
    ensures
        m[1].len() == 4 * (len / 2),
        run(k, m, fix_submission(kernel, input, len, assignment))[0] == k(
            kernel,
            fix_args(input, m[1], raw(assignment.words()), log2(len) as u32),
            grid_of((len / 2) as int),
        )[1].take(4 * (len / 2) as int),
{
    let s = fix_submission(kernel, input, len, assignment);
    let half = (len / 2) as int;
    assert(s.buffers[0] == AllocationSpec::Data(input));
    assert(s.buffers[1] == AllocationSpec::Data(Seq::new(4 * (len / 2), |i: int| 0u32)));
    assert(s.buffers[2] == AllocationSpec::Data(raw(assignment.words())));
    let d = DispatchSpec {
        kernel,
        bindings: seq![
            Binding::Buffer(0),
            Binding::Buffer(1),
            Binding::Buffer(2),
            Binding::U32(log2(len) as u32),
        ],
        grid: grid_of(half),
    };
    assert(s.command_buffers =~= seq![seq![CommandSpec::Compute(d)]]);
    assert(args(m, d.bindings) =~= fix_args(
        input,
        m[1],
        raw(assignment.words()),
        log2(len) as u32,
    ));
    assert(bound_as(d.bindings, 1, 1));
    law_single_dispatch(k, m, s, d, 1);
}

/// The words are those of `len` canonical elements, up to multiples of the modulus.
pub open spec fn words_stand_for(words: Seq<u32>, elements: Seq<QM31>, len: nat) -> bool {
    &&& elements.len() == len
    &&& forall|i: int|
        0 <= i < len ==> element_stands_for(
            #[trigger] elements[i],
            words[4 * i] as int,
            words[4 * i + 1] as int,
            words[4 * i + 2] as int,
            words[4 * i + 3] as int,
        )
}

/// Such words are read as these elements.
proof fn lemma_words_stand_for(words: Seq<u32>, elements: Seq<QM31>, len: nat)
    requires
        words_stand_for(words, elements, len),
    ensures
        reduced_elements(words, len) == elements,
{
    assert forall|i: int| 0 <= i < len implies #[trigger] reduced_elements(words, len)[i]
        == elements[i] by {
        let (r, e) = (reduced_elements(words, len)[i], elements[i]);
        let (a, b, c, d) = (
            words[4 * i] as int,
            words[4 * i + 1] as int,
            words[4 * i + 2] as int,
            words[4 * i + 3] as int,
        );
        lemma_m31(a);
        lemma_m31(b);
        lemma_m31(c);
        lemma_m31(d);
        lemma_unique(r.0.0, e.0.0, a, a);
        lemma_unique(r.0.1, e.0.1, b, b);
        lemma_unique(r.1.0, e.1.0, c, c);
        lemma_unique(r.1.1, e.1.1, d, d);
    }
    assert(reduced_elements(words, len) =~= elements);
}

/// A function that fixes the first variable of values in the base field.
pub type BaseFix = spec_fn(Seq<M31>, QM31) -> Seq<QM31>;

/// The kernel that fixes the first variable over the base field writes words that stand for
/// the elements that a function gives.
pub open spec fn fixes_m31(k: Kernels, fix: BaseFix) -> bool {
    forall|values: Seq<M31>, out: Seq<u32>, assignment: QM31|
        out.len() >= 4 * (values.len() / 2) ==> words_stand_for(
            (#[trigger] k(
                Kernel::MleFoldM31,
                fix_args(
                    raw(values),
                    out,
                    raw(assignment.words()),
                    log2(values.len()) as u32,
                ),
                grid_of((values.len() / 2) as int),
            ))[1].take(4 * (values.len() / 2) as int),
            fix(values, assignment),
            values.len() / 2,
        )
}

/// The reply answers the plan to fix the first variable over the base field.
pub open spec fn answers_fix_m31(
    k: Kernels,
    fix: BaseFix,
    plan: FixPlan<BaseColumn>,
    reply: FixReply,
) -> bool {
    match (plan, reply) {
        (FixPlan::Simd(request), FixReply::Simd(result)) => result.evals@ == fix(
            request.mle.evals@,
            request.assignment,
        ),
        (FixPlan::Gpu(s), FixReply::Gpu(words)) => exists|m: Memory| #[trigger]
            starts(m, s@) && words@ == run(k, m, s@)[0],
        _ => false,
    }
}

/// Fixing the first variable of an extension over the base field gives `fixed`.
pub open spec fn m31_fixes(
    k: Kernels,
    fix: BaseFix,
    mle: Mle<MetalBaseColumn>,
    assignment: SecureField,
    fixed: Mle<MetalSecureColumn>,
) -> bool {
    exists|plan: FixPlan<BaseColumn>, reply: FixReply| #[trigger]
        answers_fix_m31(k, fix, plan, reply) && is_fix_m31_plan(plan, mle, assignment) && is_fixed(
            fixed,
            mle.evals@.len() as usize,
            reply,
        )
}

/// Fixing the first variable of an extension over the base field gives the values that the
/// function gives, on the GPU and on the SIMD backend alike.
pub proof fn law_fix_first_variable_m31(
    k: Kernels,
    fix: BaseFix,
    mle: Mle<MetalBaseColumn>,
    assignment: SecureField,
    fixed: Mle<MetalSecureColumn>,
)
    requires
        fixes_m31(k, fix),
        8 * mle.evals@.len() <= usize::MAX,
        m31_fixes(k, fix, mle, assignment, fixed),
    ensures
        fixed.evals@ == fix(mle.evals@, assignment),
{
    let (plan, reply) = choose|plan: FixPlan<BaseColumn>, reply: FixReply| #[trigger]
        answers_fix_m31(k, fix, plan, reply) && is_fix_m31_plan(plan, mle, assignment) && is_fixed(
            fixed,
            mle.evals@.len() as usize,
            reply,
        );
    match (plan, reply) {
        (FixPlan::Gpu(s), FixReply::Gpu(words)) => {
            let values = mle.evals@;
            let m = choose|m: Memory| #[trigger] starts(m, s@) && words@ == run(k, m, s@)[0];
            lemma_fix_run(
                k,
                m,
                Kernel::MleFoldM31,
                raw(values),
                values.len(),
                assignment,
            );
            lemma_words_stand_for(words@, fix(values, assignment), values.len() / 2);
        },
        _ => {},
    }
}

/// A function that fixes the first variable of values in the secure field.
pub type SecureFix = spec_fn(Seq<QM31>, QM31) -> Seq<QM31>;

/// The kernel that fixes the first variable over the secure field writes words that stand for
/// the elements that a function gives.
pub open spec fn fixes_qm31(k: Kernels, fix: SecureFix) -> bool {
    forall|values: Seq<QM31>, out: Seq<u32>, assignment: QM31|
        out.len() >= 4 * (values.len() / 2) ==> words_stand_for(
            (#[trigger] k(
                Kernel::MleFoldQm31,
                fix_args(
                    element_sequence_words(values),
                    out,
                    raw(assignment.words()),
                    log2(values.len()) as u32,
                ),
                grid_of((values.len() / 2) as int),
            ))[1].take(4 * (values.len() / 2) as int),
            fix(values, assignment),
            values.len() / 2,
        )
}

/// The reply answers the plan to fix the first variable over the secure field.
pub open spec fn answers_fix_qm31(
    k: Kernels,
    fix: SecureFix,
    plan: FixPlan<SecureColumn>,
    reply: FixReply,
) -> bool {
    match (plan, reply) {
        (FixPlan::Simd(request), FixReply::Simd(result)) => result.evals@ == fix(
            request.mle.evals@,
            request.assignment,
        ),
        (FixPlan::Gpu(s), FixReply::Gpu(words)) => exists|m: Memory| #[trigger]
            starts(m, s@) && words@ == run(k, m, s@)[0],
        _ => false,
    }
}

/// Fixing the first variable of an extension over the secure field gives `fixed`.
pub open spec fn qm31_fixes(
    k: Kernels,
    fix: SecureFix,
    mle: Mle<MetalSecureColumn>,
    assignment: SecureField,
    fixed: Mle<MetalSecureColumn>,
) -> bool {
    exists|plan: FixPlan<SecureColumn>, reply: FixReply| #[trigger]
        answers_fix_qm31(k, fix, plan, reply) && is_fix_qm31_plan(plan, mle, assignment) && is_fixed(
            fixed,
            mle.evals@.len() as usize,
            reply,
        )
}

/// Fixing the first variable of an extension over the secure field gives the values that the
/// function gives, on the GPU and on the SIMD backend alike.
pub proof fn law_fix_first_variable_qm31(
    k: Kernels,
    fix: SecureFix,
    mle: Mle<MetalSecureColumn>,
    assignment: SecureField,
    fixed: Mle<MetalSecureColumn>,
)
    requires
        fixes_qm31(k, fix),
        8 * mle.evals@.len() <= usize::MAX,
        qm31_fixes(k, fix, mle, assignment, fixed),
    ensures
        fixed.evals@ == fix(mle.evals@, assignment),
{
    let (plan, reply) = choose|plan: FixPlan<SecureColumn>, reply: FixReply| #[trigger]
        answers_fix_qm31(k, fix, plan, reply) && is_fix_qm31_plan(plan, mle, assignment) && is_fixed(
            fixed,
            mle.evals@.len() as usize,
            reply,
        );
    match (plan, reply) {
        (FixPlan::Gpu(s), FixReply::Gpu(words)) => {
            let values = mle.evals@;
            let m = choose|m: Memory| #[trigger] starts(m, s@) && words@ == run(k, m, s@)[0];
            lemma_fix_run(
                k,
                m,
                Kernel::MleFoldQm31,
                element_sequence_words(values),
                values.len(),
                assignment,
            );
            lemma_words_stand_for(words@, fix(values, assignment), values.len() / 2);
        },
        _ => {},
    }
}

} // verus!
