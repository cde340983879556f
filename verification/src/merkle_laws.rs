//! What committing on a layer hands over and makes of the answer, and what a layer is in the end.
use crate::agreement::{pair_hashes, pairwise, PairHash};
use crate::backend::MetalBackend;
use crate::buffer::raw;
use crate::column::MetalBaseColumn;
use crate::device_model::{
    hashes_nodes, hashes_rows, law_leaf_submission, law_node_submission, row_hashes, row_of, run,
    starts, Kernels, Memory,
};
use crate::fold_laws::{is_run, lemma_grid, lemma_parts};
use crate::gpu::{
    Allocation, AllocationSpec, Binding, Command, CommandSpec, Kernel, Readback, Submission,
};
use crate::hash::{flatten_hashes, hash_words, layer_words, unflatten_hashes, Blake2sHash};
use crate::merkle::{
    column_memories, is_blake2s_m31_plan, is_blake2s_plan, leaf_copy, leaf_dispatch,
    leaf_submission, merkle_leaf_submission, merkle_node_submission, node_submission, CommitPlan,
    CommitReply, MerkleHasher,
};
use crate::merkle_tree::{
    commit_tree_batched, finish_commit_tree_batched, layer_size, lemma_layer_size_bound,
    tree_buffer, tree_command, tree_readback, tree_submission,
};
use vstd::arithmetic::div_mod::*;
use vstd::arithmetic::power2::*;
use vstd::prelude::*;

verus! {

/// The four bytes of a hash from `4 * j` on are those of a word, the least significant one first.
pub open spec fn word_has_bytes(word: u32, hash: Blake2sHash, j: int) -> bool {
    &&& hash.0@[4 * j] == word as int % 256
    &&& hash.0@[4 * j + 1] == word as int / 256 % 256
    &&& hash.0@[4 * j + 2] == word as int / 65536 % 256
    &&& hash.0@[4 * j + 3] == word as int / 16777216
}

/// The lowest digit of a number in base 256, and the others.
proof fn lemma_digit(x: int, y: int)
    requires
        0 <= x < 256,
    ensures
        (x + 256 * y) % 256 == x,
        (x + 256 * y) / 256 == y,
{
}

/// The four digits of a number in base 256.
proof fn lemma_digits(a: int, b: int, c: int, d: int)
    requires
        0 <= a < 256,
        0 <= b < 256,
        0 <= c < 256,
        0 <= d,
    ensures
        ({
            let w = a + 256 * b + 65536 * c + 16777216 * d;
            &&& w % 256 == a
            &&& w / 256 % 256 == b
            &&& w / 65536 % 256 == c
            &&& w / 16777216 == d
        }),
{
    let w = a + 256 * b + 65536 * c + 16777216 * d;
    lemma_digit(a, b + 256 * (c + 256 * d));
    lemma_digit(b, c + 256 * d);
    lemma_digit(c, d);
    assert(w == a + 256 * (b + 256 * (c + 256 * d)));
    lemma_div_denominator(w, 256, 256);
    lemma_div_denominator(w, 65536, 256);
}

/// A word of a hash has its bytes.
proof fn lemma_word_bytes(hash: Blake2sHash, j: int)
    requires
        0 <= j < 8,
    ensures
        word_has_bytes(hash_words(hash)[j], hash, j),
{
    let h = hash.0@;
    let (a, b, c, d) = (
        h[4 * j] as int,
        h[4 * j + 1] as int,
        h[4 * j + 2] as int,
        h[4 * j + 3] as int,
    );
    lemma_digits(a, b, c, d);
    assert(hash_words(hash)[j] == a + 256 * b + 65536 * c + 16777216 * d);
}

/// The words of hashes, eight for each, are made of their bytes.
pub proof fn law_flatten_hashes(hashes: &[Blake2sHash], words: Vec<u32>, i: int, j: int)
    requires
        call_ensures(flatten_hashes, (hashes,), words),
        0 <= j < 8,
    ensures
        words@.len() == 8 * hashes@.len(),
        0 <= i < hashes@.len() ==> word_has_bytes(words@[8 * i + j], hashes@[i], j),
{
    assert((8 * i + j) / 8 == i && (8 * i + j) % 8 == j);
    lemma_word_bytes(hashes@[i], j);
}

/// The bytes of hashes that are made of words, eight for each, are those of the words.
pub proof fn law_unflatten_hashes(
    words: &[u32],
    len: usize,
    hashes: Vec<Blake2sHash>,
    i: int,
    j: int,
)
    requires
        call_ensures(unflatten_hashes, (words, len), hashes),
        8 * len <= words@.len(),
        0 <= j < 8,
    ensures
        hashes@.len() == len,
        0 <= i < len ==> word_has_bytes(words@[8 * i + j], hashes@[i], j),
{
    if 0 <= i < len {
        assert((8 * i + j) / 8 == i && (8 * i + j) % 8 == j);
        lemma_word_bytes(hashes@[i], j);
        assert(layer_words(hashes@)[8 * i + j] == words@[8 * i + j]);
    }
}

/// The request for the SIMD backend carries the hash function, the size, the layer below and the
/// values of the columns unchanged.
pub open spec fn carries(
    plan: CommitPlan<'_>,
    hasher: MerkleHasher,
    log_size: u32,
    prev_layer: Option<&Vec<Blake2sHash>>,
    columns: Seq<&MetalBaseColumn>,
) -> bool {
    plan matches CommitPlan::Simd(request) ==> {
        &&& request.hasher == hasher
        &&& request.log_size == log_size
        &&& request.prev_layer == prev_layer
        &&& request.columns@.len() == columns.len()
        &&& forall|c: int|
            0 <= c < columns.len() ==> (#[trigger] request.columns@[c]).values@ == columns[c]@
    }
}

/// Which of the two backends computes a layer of Blake2s hashes, and what the SIMD backend is
/// handed.
pub proof fn law_blake2s_request<'a>(
    log_size: u32,
    prev_layer: Option<&'a Vec<Blake2sHash>>,
    columns: &[&MetalBaseColumn],
    plan: CommitPlan<'a>,
)
    requires
        call_ensures(
            MetalBackend::commit_on_layer_blake2s,
            (log_size, prev_layer, columns),
            plan,
        ),
    ensures
        plan is Gpu <==> log_size >= 10 && columns@.len() == 0 && prev_layer is Some,
        carries(plan, MerkleHasher::Blake2s, log_size, prev_layer, columns@),
{
}

/// Which of the two backends computes a layer of Blake2s hashes whose words are base field
/// elements, and what the SIMD backend is handed.
pub proof fn law_blake2s_m31_request<'a>(
    log_size: u32,
    prev_layer: Option<&'a Vec<Blake2sHash>>,
    columns: &[&MetalBaseColumn],
    plan: CommitPlan<'a>,
)
    requires
        call_ensures(
            MetalBackend::commit_on_layer_blake2s_m31,
            (log_size, prev_layer, columns),
            plan,
        ),
    ensures
        plan is Gpu <==> log_size >= 10,
        carries(plan, MerkleHasher::Blake2sM31, log_size, prev_layer, columns@),
{
}

/// The GPU work hashes `n` pairs of children: their words, eight for each, made of their bytes,
/// room for `n` hashes, one run with a thread for each, and the words of the hashes.
pub open spec fn hashes_pairs(
    s: Submission,
    children: Seq<Blake2sHash>,
    n: nat,
    is_m31: bool,
    i: int,
    j: int,
) -> bool {
    &&& s.buffers@.len() == 2
    &&& s.buffers@[0] matches Allocation::Data(words) && words@.len() == 8 * children.len() && (0
        <= i < children.len() && 0 <= j < 8 ==> word_has_bytes(words@[8 * i + j], children[i], j))
    &&& s.buffers@[1] matches Allocation::Pooled(bytes) && bytes == 32 * n
    &&& s.command_buffers@.len() == 1
    &&& s.command_buffers@[0]@.len() == 1
    &&& is_run(
        s.command_buffers@[0]@[0],
        Kernel::Merkle,
        seq![
            Binding::Buffer(0),
            Binding::Buffer(1),
            Binding::Bool(is_m31),
            Binding::U32(n as u32),
        ],
        n as int,
    )
    &&& s.readbacks@ == seq![Readback { slot: 1, words: (8 * n) as usize }]
}

/// The GPU work for a layer of nodes is that.
proof fn lemma_hashes_pairs(
    s: Submission,
    children: Seq<Blake2sHash>,
    n: nat,
    is_m31: bool,
    i: int,
    j: int,
)
    requires
        s@ == node_submission(layer_words(children), n as int, is_m31),
        32 * n <= usize::MAX,
    ensures
        hashes_pairs(s, children, n, is_m31, i, j),
{
    lemma_parts(s, 0, 0, 0);
    lemma_parts(s, 1, 0, 0);
    lemma_grid(n as int);
    if 0 <= i < children.len() && 0 <= j < 8 {
        assert((8 * i + j) / 8 == i && (8 * i + j) % 8 == j);
        lemma_word_bytes(children[i], j);
    }
}

/// What the GPU is handed for a layer of Blake2s hashes: the words of all children.
pub proof fn law_blake2s_submission<'a>(
    log_size: u32,
    prev_layer: Option<&'a Vec<Blake2sHash>>,
    columns: &[&MetalBaseColumn],
    s: Submission,
    i: int,
    j: int,
)
    requires
        call_ensures(
            MetalBackend::commit_on_layer_blake2s,
            (log_size, prev_layer, columns),
            CommitPlan::Gpu(s),
        ),
        32 * pow2(log_size as nat) <= usize::MAX,
    ensures
        hashes_pairs(s, prev_layer->0@, pow2(log_size as nat), false, i, j),
{
    lemma_hashes_pairs(s, prev_layer->0@, pow2(log_size as nat), false, i, j);
}

/// What the GPU is handed for a layer of nodes whose words are base field elements: the words of
/// all children.
pub proof fn law_blake2s_m31_node_submission<'a>(
    log_size: u32,
    prev_layer: Option<&'a Vec<Blake2sHash>>,
    columns: &[&MetalBaseColumn],
    s: Submission,
    i: int,
    j: int,
)
    requires
        call_ensures(
            MetalBackend::commit_on_layer_blake2s_m31,
            (log_size, prev_layer, columns),
            CommitPlan::Gpu(s),
        ),
        columns@.len() == 0,
        32 * pow2(log_size as nat) <= usize::MAX,
    ensures
        hashes_pairs(s, prev_layer->0@, pow2(log_size as nat), true, i, j),
{
    lemma_hashes_pairs(s, prev_layer->0@, pow2(log_size as nat), true, i, j);
}

/// The GPU work hashes the first `rows` rows of columns: the words of every buffer as they are, the
/// copy of each column behind the one before it in one block, one run on the block with a thread
/// for each row, and the words of the hashes. Column `c` and its word `r` are meant.
pub open spec fn hashes_columns(
    s: Submission,
    columns: Seq<&MetalBaseColumn>,
    rows: nat,
    c: int,
    r: int,
) -> bool {
    let count = columns.len() as int;
    &&& s.buffers@.len() == count + 2
    &&& 0 <= c < count ==> (s.buffers@[c] matches Allocation::Data(words) && words@.len()
        == columns[c].memory().len() && (0 <= r < words@.len() ==> words@[r]
        == columns[c].memory()[r].0))
    &&& s.buffers@[count] matches Allocation::Pooled(bytes) && bytes == 4 * rows * count
    &&& s.buffers@[count + 1] matches Allocation::Pooled(bytes) && bytes == 32 * rows
    &&& s.command_buffers@.len() == 1
    &&& s.command_buffers@[0]@.len() == count + 1
    &&& 0 <= c < count ==> (s.command_buffers@[0]@[c] matches Command::Copy(copy) && copy.source
        == c && copy.source_offset == 0 && copy.destination == count && copy.destination_offset
        == 4 * rows * c && copy.size == 4 * rows)
    &&& is_run(
        s.command_buffers@[0]@[count],
        Kernel::MerkleLeaf,
        seq![
            Binding::Buffer(count as usize),
            Binding::U32(count as u32),
            Binding::U32(rows as u32),
            Binding::Bool(true),
            Binding::Buffer((count + 1) as usize),
        ],
        rows as int,
    )
    &&& s.readbacks@ == seq![Readback { slot: (count + 1) as usize, words: (8 * rows) as usize }]
}

/// The GPU work for the leaves is that.
proof fn lemma_hashes_columns(
    s: Submission,
    columns: Seq<&MetalBaseColumn>,
    rows: int,
    c: int,
    r: int,
)
    requires
        s@ == leaf_submission(column_memories(columns), rows),
        0 <= rows,
        columns.len() + 1 <= usize::MAX,
        32 * rows <= usize::MAX,
        4 * rows * columns.len() <= usize::MAX,
    ensures
        hashes_columns(s, columns, rows as nat, c, r),
{
    let count = columns.len() as int;
    let want = leaf_submission(column_memories(columns), rows);
    lemma_parts(s, count, 0, count);
    lemma_parts(s, count + 1, 0, count);
    lemma_grid(rows);
    assert(0 <= 4 * rows * count) by (nonlinear_arith)
        requires
            0 <= rows,
            0 <= count,
    ;
    assert(want.buffers[count] == AllocationSpec::Pooled((4 * rows * count) as u64));
    assert(want.buffers[count + 1] == AllocationSpec::Pooled((32 * rows) as u64));
    assert(want.command_buffers[0][count] == CommandSpec::Compute(leaf_dispatch(count, rows)));
    if 0 <= c < count {
        lemma_parts(s, c, 0, c);
        assert(want.buffers[c] == AllocationSpec::Data(raw(columns[c].memory())));
        assert(want.command_buffers[0][c] == CommandSpec::Copy(leaf_copy(count, rows, c)));
        assert(0 <= 4 * rows * c <= 4 * rows * count && 4 * rows <= 4 * rows * count)
            by (nonlinear_arith)
            requires
                0 <= rows,
                0 <= c < count,
        ;
    }
}

/// What the GPU is handed for the leaves.
pub proof fn law_blake2s_m31_leaf_submission<'a>(
    log_size: u32,
    prev_layer: Option<&'a Vec<Blake2sHash>>,
    columns: &[&MetalBaseColumn],
    s: Submission,
    c: int,
    r: int,
)
    requires
        call_ensures(
            MetalBackend::commit_on_layer_blake2s_m31,
            (log_size, prev_layer, columns),
            CommitPlan::Gpu(s),
        ),
        columns@.len() > 0,
        columns@.len() + 1 <= usize::MAX,
        32 * pow2(log_size as nat) <= usize::MAX,
        4 * pow2(log_size as nat) * columns@.len() <= usize::MAX,
    ensures
        hashes_columns(s, columns@, pow2(log_size as nat), c, r),
{
    lemma_hashes_columns(s, columns@, pow2(log_size as nat) as int, c, r);
}

/// The GPU work for pairs of children and for rows of columns, of any number.
pub proof fn law_merkle_submissions(
    children: &[Blake2sHash],
    parents: usize,
    is_m31: bool,
    nodes: Submission,
    i: int,
    j: int,
    columns: &[&MetalBaseColumn],
    rows: usize,
    leaves: Submission,
    c: int,
    r: int,
)
    requires
        call_ensures(merkle_node_submission, (children, parents, is_m31), nodes),
        call_ensures(merkle_leaf_submission, (columns, rows), leaves),
        32 * parents <= usize::MAX,
        columns@.len() + 1 <= usize::MAX,
        32 * rows <= usize::MAX,
        4 * rows * columns@.len() <= usize::MAX,
    ensures
        hashes_pairs(nodes, children@, parents as nat, is_m31, i, j),
        hashes_columns(leaves, columns@, rows as nat, c, r),
{
    lemma_hashes_pairs(nodes, children@, parents as nat, is_m31, i, j);
    lemma_hashes_columns(leaves, columns@, rows as int, c, r);
}

/// The layer that is made of the answer: the bytes of hash `i` are those of the words `8 * i` to
/// `8 * i + 7` that the GPU wrote, or the hashes are the SIMD backend's.
pub proof fn law_finished_layer(
    log_size: u32,
    reply: CommitReply,
    layer: Vec<Blake2sHash>,
    i: int,
    j: int,
)
    requires
        call_ensures(MetalBackend::finish_commit_on_layer, (log_size, reply), layer),
        0 <= j < 8,
    ensures
        reply matches CommitReply::Simd(hashes) ==> layer@ == hashes@,
        reply matches CommitReply::Gpu(words) ==> 8 * pow2(log_size as nat) <= words@.len() ==> {
            &&& layer@.len() == pow2(log_size as nat)
            &&& 0 <= i < pow2(log_size as nat) ==> word_has_bytes(
                words@[8 * i + j],
                layer@[i],
                j,
            )
        },
{
    if let CommitReply::Gpu(words) = reply {
        if 8 * pow2(log_size as nat) <= words@.len() && 0 <= i < pow2(log_size as nat) {
            assert((8 * i + j) / 8 == i && (8 * i + j) % 8 == j);
            lemma_word_bytes(layer@[i], j);
            assert(layer_words(layer@)[8 * i + j] == words@[8 * i + j]);
        }
    }
}

/// A hash function on nodes: whether the words are base field elements, the sixteen words of two
/// children if there are any, and the row of column values; it gives eight words.
pub type NodeHash = spec_fn(bool, Option<Seq<u32>>, Seq<u32>) -> Seq<u32>;

/// The hash function gives eight words.
pub open spec fn is_node_hash(h: NodeHash) -> bool {
    forall|is_m31: bool, pair: Option<Seq<u32>>, row: Seq<u32>|
        (#[trigger] h(is_m31, pair, row)).len() == 8
}

/// The words of the children `2 * i` and `2 * i + 1`.
pub open spec fn pair_of(children: Option<&Vec<Blake2sHash>>, i: int) -> Option<Seq<u32>> {
    match children {
        Some(c) => Some(hash_words(c@[2 * i]) + hash_words(c@[2 * i + 1])),
        None => None,
    }
}

/// Row `i` of columns.
pub open spec fn row_at(columns: Seq<&MetalBaseColumn>, i: int) -> Seq<u32> {
    Seq::new(columns.len(), |c: int| columns[c]@[i].0)
}

/// The hash function on pairs without a row.
pub open spec fn on_pairs(h: NodeHash) -> PairHash {
    |pair: Seq<u32>, is_m31: bool| h(is_m31, Some(pair), Seq::empty())
}

/// The hash function on rows without children, with words that are base field elements.
pub open spec fn on_rows(h: NodeHash) -> spec_fn(Seq<u32>) -> Seq<u32> {
    |row: Seq<u32>| h(true, None, row)
}

/// The reply answers the plan of a layer: the SIMD backend hashes what it is asked to, and the GPU
/// carries the submission out from some memory that it may start from.
pub open spec fn answers_layer(
    k: Kernels,
    h: NodeHash,
    plan: CommitPlan<'_>,
    reply: CommitReply,
) -> bool {
    match (plan, reply) {
        (CommitPlan::Simd(request), CommitReply::Simd(hashes)) => {
            &&& hashes@.len() == pow2(request.log_size as nat)
            &&& forall|i: int|
                0 <= i < hashes@.len() ==> hash_words(#[trigger] hashes@[i]) == h(
                    request.hasher == MerkleHasher::Blake2sM31,
                    pair_of(request.prev_layer, i),
                    Seq::new(request.columns@.len(), |c: int| request.columns@[c].values@[i].0),
                )
        },
        (CommitPlan::Gpu(s), CommitReply::Gpu(words)) => exists|m: Memory| #[trigger]
            starts(m, s@) && words@ == run(k, m, s@)[0],
        _ => false,
    }
}

/// The words of one hash of a layer.
proof fn lemma_hash_of_layer(layer: Seq<Blake2sHash>, words: Seq<u32>, i: int, want: Seq<u32>)
    requires
        layer_words(layer) == words,
        0 <= i < layer.len(),
        want.len() == 8,
        forall|j: int| 0 <= j < 8 ==> words[8 * i + j] == #[trigger] want[j],
    ensures
        hash_words(layer[i]) == want,
{
    assert forall|j: int| 0 <= j < 8 implies hash_words(layer[i])[j] == #[trigger] want[j] by {
        assert((8 * i + j) / 8 == i && (8 * i + j) % 8 == j);
        assert(layer_words(layer)[8 * i + j] == hash_words(layer[i])[j]);
    }
    assert(hash_words(layer[i]) =~= want);
}

/// The words of a pair of children lie next to each other.
proof fn lemma_pair_words(children: Seq<Blake2sHash>, i: int)
    requires
        0 <= i,
        2 * i + 1 < children.len(),
    ensures
        layer_words(children).subrange(16 * i, 16 * i + 16) == hash_words(children[2 * i])
            + hash_words(children[2 * i + 1]),
{
    let pair = layer_words(children).subrange(16 * i, 16 * i + 16);
    let want = hash_words(children[2 * i]) + hash_words(children[2 * i + 1]);
    assert forall|j: int| 0 <= j < 16 implies #[trigger] pair[j] == want[j] by {
        let at = 16 * i + j;
        if j < 8 {
            assert(at / 8 == 2 * i && at % 8 == j);
        } else {
            assert(at / 8 == 2 * i + 1 && at % 8 == j - 8);
        }
    }
    assert(pair =~= want);
}

/// A node of a layer that the GPU hashes from pairs.
proof fn lemma_node_of_pairs(
    k: Kernels,
    h: NodeHash,
    is_m31: bool,
    children: &Vec<Blake2sHash>,
    n: nat,
    m: Memory,
    words: Seq<u32>,
    layer: Seq<Blake2sHash>,
    i: int,
)
    requires
        is_node_hash(h),
        hashes_nodes(k, pairwise(on_pairs(h))),
        children@.len() == 2 * n,
        n <= u32::MAX,
        32 * n <= usize::MAX,
        starts(m, node_submission(layer_words(children@), n as int, is_m31)),
        words == run(k, m, node_submission(layer_words(children@), n as int, is_m31))[0],
        layer.len() == n,
        layer_words(layer) == words.take(8 * n as int),
        0 <= i < n,
    ensures
        hash_words(layer[i]) == h(is_m31, pair_of(Some(children), i), Seq::empty()),
{
    let p = on_pairs(h);
    let all = layer_words(children@);
    law_node_submission(k, pairwise(p), m, all, n as int, is_m31);
    let hashed = pair_hashes(p, all, is_m31, n);
    assert(words == hashed);
    assert(hashed.take(8 * n as int) =~= hashed);
    lemma_pair_words(children@, i);
    let want = h(is_m31, pair_of(Some(children), i), Seq::empty());
    assert forall|j: int| 0 <= j < 8 implies hashed[8 * i + j] == #[trigger] want[j] by {
        assert((8 * i + j) / 8 == i && (8 * i + j) % 8 == j);
    }
    lemma_hash_of_layer(layer, hashed, i, want);
}

/// Committing on a layer of Blake2s hashes, of any size, with or without children and columns:
/// node `i` is the hash of the children `2 * i` and `2 * i + 1` and of row `i` of the columns, on
/// the GPU and on the SIMD backend alike.
pub proof fn law_commit_blake2s<'a>(
    k: Kernels,
    h: NodeHash,
    log_size: u32,
    prev_layer: Option<&'a Vec<Blake2sHash>>,
    columns: &[&MetalBaseColumn],
    plan: CommitPlan<'a>,
    reply: CommitReply,
    layer: Vec<Blake2sHash>,
    i: int,
)
    requires
        is_node_hash(h),
        hashes_nodes(k, pairwise(on_pairs(h))),
        call_ensures(
            MetalBackend::commit_on_layer_blake2s,
            (log_size, prev_layer, columns),
            plan,
        ),
        answers_layer(k, h, plan, reply),
        call_ensures(MetalBackend::finish_commit_on_layer, (log_size, reply), layer),
        prev_layer matches Some(children) ==> children@.len() == 2 * pow2(log_size as nat),
        pow2(log_size as nat) <= u32::MAX,
        32 * pow2(log_size as nat) <= usize::MAX,
        0 <= i < pow2(log_size as nat),
    ensures
        layer@.len() == pow2(log_size as nat),
        hash_words(layer@[i]) == h(false, pair_of(prev_layer, i), row_at(columns@, i)),
{
    assert(is_blake2s_plan(plan, log_size, prev_layer, columns@));
    match (plan, reply) {
        (CommitPlan::Simd(request), CommitReply::Simd(hashes)) => {
            assert(Seq::new(request.columns@.len(), |c: int| request.columns@[c].values@[i].0)
                =~= row_at(columns@, i)) by {
                assert forall|c: int| 0 <= c < columns@.len() implies (
                #[trigger] request.columns@[c]).values@ == columns@[c]@ by {
                    assert(request.columns@[c]@ == columns@[c]@);
                }
            }
            assert(hash_words(hashes@[i]) == hash_words(layer@[i]));
        },
        (CommitPlan::Gpu(s), CommitReply::Gpu(words)) => {
            let m = choose|m: Memory| #[trigger] starts(m, s@) && words@ == run(k, m, s@)[0];
            assert(row_at(columns@, i) =~= Seq::empty());
            lemma_node_of_pairs(
                k,
                h,
                false,
                prev_layer->0,
                pow2(log_size as nat),
                m,
                words@,
                layer@,
                i,
            );
        },
        _ => {},
    }
}

/// Committing on a layer of Blake2s hashes whose words are base field elements: node `i` is the
/// hash of the children `2 * i` and `2 * i + 1` and of row `i` of the columns, on the GPU and on
/// the SIMD backend alike. From the size on that goes to the GPU, a layer has either children or
/// columns.
pub proof fn law_commit_blake2s_m31<'a>(
    k: Kernels,
    h: NodeHash,
    log_size: u32,
    prev_layer: Option<&'a Vec<Blake2sHash>>,
    columns: &[&MetalBaseColumn],
    plan: CommitPlan<'a>,
    reply: CommitReply,
    layer: Vec<Blake2sHash>,
    i: int,
)
    requires
        is_node_hash(h),
        hashes_nodes(k, pairwise(on_pairs(h))),
        hashes_rows(k, on_rows(h)),
        call_ensures(
            MetalBackend::commit_on_layer_blake2s_m31,
            (log_size, prev_layer, columns),
            plan,
        ),
        answers_layer(k, h, plan, reply),
        call_ensures(MetalBackend::finish_commit_on_layer, (log_size, reply), layer),
        prev_layer matches Some(children) ==> children@.len() == 2 * pow2(log_size as nat),
        log_size >= 10 ==> (prev_layer is Some <==> columns@.len() == 0),
        columns@.len() <= u32::MAX,
        columns@.len() + 1 <= usize::MAX,
        forall|c: int|
            0 <= c < columns@.len() ==> (#[trigger] columns@[c]).wf() && columns@[c]@.len() == pow2(
                log_size as nat,
            ),
        pow2(log_size as nat) <= u32::MAX,
        32 * pow2(log_size as nat) <= usize::MAX,
        4 * pow2(log_size as nat) * columns@.len() <= usize::MAX,
        0 <= i < pow2(log_size as nat),
    ensures
        layer@.len() == pow2(log_size as nat),
        hash_words(layer@[i]) == h(true, pair_of(prev_layer, i), row_at(columns@, i)),
{
    let n = pow2(log_size as nat);
    assert(is_blake2s_m31_plan(plan, log_size, prev_layer, columns@));
    match (plan, reply) {
        (CommitPlan::Simd(request), CommitReply::Simd(hashes)) => {
            assert(Seq::new(request.columns@.len(), |c: int| request.columns@[c].values@[i].0)
                =~= row_at(columns@, i)) by {
                assert forall|c: int| 0 <= c < columns@.len() implies (
                #[trigger] request.columns@[c]).values@ == columns@[c]@ by {
                    assert(request.columns@[c]@ == columns@[c]@);
                }
            }
            assert(hash_words(hashes@[i]) == hash_words(layer@[i]));
        },
        (CommitPlan::Gpu(s), CommitReply::Gpu(words)) => {
            let m = choose|m: Memory| #[trigger] starts(m, s@) && words@ == run(k, m, s@)[0];
            if columns@.len() == 0 {
                assert(row_at(columns@, i) =~= Seq::empty());
                lemma_node_of_pairs(k, h, true, prev_layer->0, n, m, words@, layer@, i);
            } else {
                let memories = column_memories(columns@);
                assert forall|c: int| 0 <= c < memories.len() implies (
                #[trigger] memories[c]).len() >= n by {
                    columns@[c].law_memory();
                }
                law_leaf_submission(k, on_rows(h), m, memories, n as int);
                let hashed = row_hashes(on_rows(h), memories, n);
                assert(hashed.take(8 * n as int) =~= hashed);
                assert(row_of(memories, i) =~= row_at(columns@, i)) by {
                    assert forall|c: int| 0 <= c < columns@.len() implies row_of(memories, i)[c]
                        == row_at(columns@, i)[c] by {
                        columns@[c].law_memory();
                        assert(columns@[c]@[i] == columns@[c].memory()[i]);
                    }
                }
                let want = h(true, None, row_at(columns@, i));
                assert forall|j: int| 0 <= j < 8 implies hashed[8 * i + j]
                    == #[trigger] want[j] by {
                    assert((8 * i + j) / 8 == i && (8 * i + j) % 8 == j);
                }
                lemma_hash_of_layer(layer@, hashed, i, want);
            }
        },
        _ => {},
    }
}

/// Halving `i` times divides by `2^i`.
proof fn lemma_layer_size(len: nat, i: nat)
    ensures
        layer_size(len, i) == len as int / pow2(i) as int,
    decreases i,
{
    lemma2_to64();
    if i > 0 {
        let p = (i - 1) as nat;
        lemma_layer_size(len, p);
        lemma_pow2_pos(p);
        lemma_pow2_unfold(i);
        lemma_div_denominator(len as int, pow2(p) as int, 2);
        assert(pow2(p) * 2 == pow2(i));
    } else {
        assert(len as int / 1 == len);
    }
}

/// What the GPU is handed for `num_layers` layers over hashes: the words of the hashes, room for
/// the `len / 2^(i + 1)` hashes of each layer, for each layer one run from the buffer before it
/// into its own, and the words of every layer. Nothing is handed over only where there is none.
pub proof fn law_tree_submission(
    initial_layer: &[Blake2sHash],
    num_layers: u32,
    is_m31: bool,
    s: Option<Submission>,
    l: int,
    i: int,
    j: int,
)
    requires
        call_ensures(
            commit_tree_batched,
            (initial_layer, num_layers, is_m31),
            s,
        ),
        32 * initial_layer@.len() <= usize::MAX,
        0 <= l < num_layers,
        0 <= i < initial_layer@.len(),
        0 <= j < 8,
    ensures
        s is Some,
        ({
            let s = s->0;
            let size = initial_layer@.len() as int / pow2((l + 1) as nat) as int;
            &&& s.buffers@.len() == num_layers + 1
            &&& s.buffers@[0] matches Allocation::Data(words) && words@.len() == 8
                * initial_layer@.len() && word_has_bytes(words@[8 * i + j], initial_layer@[i], j)
            &&& s.buffers@[l + 1] matches Allocation::Fresh(bytes) && bytes == 32 * size
            &&& s.command_buffers@.len() == 1
            &&& s.command_buffers@[0]@.len() == num_layers
            &&& is_run(
                s.command_buffers@[0]@[l],
                Kernel::Merkle,
                seq![
                    Binding::Buffer(l as usize),
                    Binding::Buffer((l + 1) as usize),
                    Binding::Bool(is_m31),
                    Binding::U32(size as u32),
                ],
                size,
            )
            &&& s.readbacks@.len() == num_layers
            &&& s.readbacks@[l].slot == l + 1
            &&& s.readbacks@[l].words == 8 * size
        }),
{
    let s = s->0;
    let len = initial_layer@.len();
    let want = tree_submission(layer_words(initial_layer@), len, num_layers as nat, is_m31);
    lemma_layer_size(len, (l + 1) as nat);
    lemma_layer_size_bound(len, (l + 1) as nat);
    lemma_grid(layer_size(len, (l + 1) as nat) as int);
    lemma_parts(s, 0, 0, l);
    lemma_parts(s, l + 1, 0, l);
    assert((8 * i + j) / 8 == i && (8 * i + j) % 8 == j);
    lemma_word_bytes(initial_layer@[i], j);
    assert(want.buffers[0] == tree_buffer(layer_words(initial_layer@), len, 0));
    assert(want.buffers[l + 1] == tree_buffer(layer_words(initial_layer@), len, l + 1));
    assert(want.command_buffers[0][l] == tree_command(len, is_m31, l));
    assert(want.readbacks[l] == tree_readback(len, l));
}

/// There is nothing to do without layers or without hashes.
pub proof fn law_tree_without_layers(
    initial_layer: &[Blake2sHash],
    num_layers: u32,
    is_m31: bool,
    s: Option<Submission>,
)
    requires
        call_ensures(
            commit_tree_batched,
            (initial_layer, num_layers, is_m31),
            s,
        ),
    ensures
        s is None <==> num_layers == 0 || initial_layer@.len() == 0,
{
}

/// The layers that are made of the answers: layer `l` has `len / 2^(l + 1)` hashes, and the bytes
/// of hash `i` are those of the words `8 * i` to `8 * i + 7` of answer `l`.
pub proof fn law_finished_tree(
    initial_len: usize,
    num_layers: u32,
    replies: &[Vec<u32>],
    r: Vec<Vec<Blake2sHash>>,
    l: int,
    i: int,
    j: int,
)
    requires
        call_ensures(
            finish_commit_tree_batched,
            (initial_len, num_layers, replies),
            r,
        ),
        initial_len > 0,
        0 <= l < num_layers,
        replies@[l]@.len() >= 8 * (initial_len as int / pow2((l + 1) as nat) as int),
        0 <= j < 8,
    ensures
        r@.len() == num_layers,
        r@[l]@.len() == initial_len as int / pow2((l + 1) as nat) as int,
        0 <= i < r@[l]@.len() ==> word_has_bytes(replies@[l]@[8 * i + j], r@[l]@[i], j),
{
    let size = layer_size(initial_len as nat, (l + 1) as nat);
    lemma_layer_size(initial_len as nat, (l + 1) as nat);
    assert(r@[l]@.len() == size);
    assert((8 * i + j) / 8 == i && (8 * i + j) % 8 == j);
    if 0 <= i < size {
        lemma_word_bytes(r@[l]@[i], j);
        assert(layer_words(r@[l]@)[8 * i + j] == replies@[l]@.take(8 * size as int)[8 * i + j]);
    }
}

} // verus!
