//! What the two folds hand over and make of the answer, word by word.
//!
//! The laws speak of the results of calls and of the words in them, for every size.
use crate::backend::{Backend, MetalBackend};
use crate::buffer::{qm31_elements, qm31_words, raw, words_of};
use crate::circle::{LineDomain, TwiddleTree};
use crate::context::MetalContext;
use crate::evaluation::{LineEvaluation, SecureEvaluation};
use crate::field_laws::{lemma_product_stands_for, stands_for};
use crate::fields::{qm31_product, SecureField, M31, QM31};
use crate::fri::{first_itwiddles, FoldCirclePlan, FoldLinePlan, FoldReply};
use crate::gpu::{
    grid, grid_of, Allocation, Binding, Command, Grid, Kernel, Readback, Submission,
};
use crate::secure_column::SecureColumnByCoords;
use vstd::arithmetic::power2::*;
use vstd::prelude::*;

verus! {

/// The allocation is new memory that holds exactly these words.
pub open spec fn is_data(a: Allocation, words: Seq<u32>) -> bool {
    a matches Allocation::Data(w) && w@ == words
}

/// The grid has a thread for each of `n` items and less than a group of idle ones, in groups that
/// are as large as may be.
pub open spec fn is_grid_for(g: Grid, n: int) -> bool {
    &&& n <= g.threadgroups * g.threadgroup_size < n + g.threadgroup_size
    &&& g.threadgroup_size == if n < 1 {
        1
    } else if n < 256 {
        n
    } else {
        256
    }
}

/// The command runs a kernel on these arguments, with a thread for each of `n` items.
pub open spec fn is_run(c: Command, kernel: Kernel, bindings: Seq<Binding>, n: int) -> bool {
    c matches Command::Compute(d) && d.kernel == kernel && d.bindings@ == bindings && is_grid_for(
        d.grid,
        n,
    )
}

/// A grid for `n` threads has one for each of `n` items.
pub proof fn law_grid(n: u64, g: Grid)
    requires
        n <= u64::MAX - 256,
        call_ensures(grid, (n,), g),
    ensures
        is_grid_for(g, n as int),
{
    lemma_grid(n as int);
}

/// The grid of `n` threads is one for `n` items.
pub(crate) proof fn lemma_grid(n: int)
    requires
        0 <= n <= u64::MAX - 256,
    ensures
        is_grid_for(grid_of(n), n),
{
    let g = grid_of(n);
    assert(1 * g.threadgroup_size == g.threadgroup_size && 0 * g.threadgroup_size == 0)
        by (nonlinear_arith);
}

/// The parts of a submission and those of its value.
pub(crate) proof fn lemma_parts(s: Submission, b: int, i: int, j: int)
    ensures
        0 <= b < s.buffers@.len() ==> s@.buffers[b] == s.buffers@[b]@,
        s@.buffers.len() == s.buffers@.len(),
        s@.command_buffers.len() == s.command_buffers@.len(),
        0 <= i < s.command_buffers@.len() ==> s@.command_buffers[i].len()
            == s.command_buffers@[i]@.len(),
        0 <= i < s.command_buffers@.len() && 0 <= j < s.command_buffers@[i]@.len()
            ==> s@.command_buffers[i][j] == s.command_buffers@[i]@[j]@,
        s@.readbacks == s.readbacks@,
{
}

/// Word `4 * i + k` of the elements of a column is coordinate `k` of element `i`.
pub(crate) proof fn lemma_column_word(values: SecureColumnByCoords<MetalBackend>, i: int, k: int)
    requires
        0 <= i < values.columns@[0]@.len(),
        0 <= k < 4,
    ensures
        raw(qm31_words(values.elements())).len() == 4 * values.columns@[0]@.len(),
        raw(qm31_words(values.elements()))[4 * i + k] == values.columns@[k]@[i].0,
{
    let e = values.elements()[i];
    assert((4 * i + k) / 4 == i && (4 * i + k) % 4 == k);
    assert(values.coords()[0] == values.columns@[0]@);
    assert(values.coords()[1] == values.columns@[1]@);
    assert(values.coords()[2] == values.columns@[2]@);
    assert(values.coords()[3] == values.columns@[3]@);
    assert(e.words()[k] == values.columns@[k]@[i]);
}

/// The words of a column that is read off words.
pub(crate) proof fn lemma_column_of_words(
    values: SecureColumnByCoords<MetalBackend>,
    words: Seq<u32>,
    len: nat,
    i: int,
    k: int,
)
    requires
        values.elements() == qm31_elements(words_of(words), len),
        4 * len <= words.len(),
        0 <= i < len,
        0 <= k < 4,
    ensures
        values.columns@[k]@[i].0 == words[4 * i + k],
{
    let e = values.elements()[i];
    assert(values.coords()[0] == values.columns@[0]@);
    assert(values.coords()[1] == values.columns@[1]@);
    assert(values.coords()[2] == values.columns@[2]@);
    assert(values.coords()[3] == values.columns@[3]@);
    assert(e == qm31_elements(words_of(words), len)[i]);
    assert(values.elements().len() == values.columns@[0]@.len());
    assert(e.words()[k] == values.columns@[k]@[i]);
    assert(e.words()[k] == words_of(words)[4 * i + k]);
}

/// The inverse twiddles of a fold over `2^n` elements are the words from `2^n` to `2^(n - 1)`
/// before the end of the tree, one for each element of the result.
proof fn lemma_first_itwiddles(twiddles: TwiddleTree, domain: LineDomain)
    requires
        domain.coset.log_size >= 1,
        pow2(domain.coset.log_size as nat) <= twiddles.itwiddles@.len(),
    ensures
        ({
            let n = domain.coset.log_size as nat;
            let all = twiddles.itwiddles@;
            let words = first_itwiddles(twiddles, domain);
            &&& words.len() == pow2((n - 1) as nat)
            &&& words == all.subrange(all.len() - pow2(n), all.len() - pow2((n - 1) as nat))
        }),
{
    lemma_pow2_unfold(domain.coset.log_size as nat);
}

/// Which of the two backends folds a line, and what the SIMD backend is handed: the same values on
/// the same domain, the challenge and the twiddles.
pub proof fn law_fold_line_request<'a, D, Q, P>(
    ctx: &mut MetalContext<D, Q, P>,
    eval: LineEvaluation<MetalBackend>,
    alpha: SecureField,
    twiddles: &'a TwiddleTree,
    plan: FoldLinePlan<'a>,
)
    requires
        call_ensures(MetalBackend::fold_line::<D, Q, P>, (ctx, &eval, alpha, twiddles), plan),
    ensures
        plan is Gpu <==> eval.domain.coset.log_size >= 10,
        plan matches FoldLinePlan::Simd(request) ==> {
            &&& request.eval.domain == eval.domain
            &&& forall|k: int|
                0 <= k < 4 ==> (#[trigger] request.eval.values.columns@[k])@
                    == eval.values.columns@[k]@
            &&& request.alpha == alpha
            &&& request.twiddles == twiddles
        },
{
    if let FoldLinePlan::Simd(request) = plan {
        lemma_same_columns(request.eval.values, eval.values);
    }
}

/// The same coordinates are the same columns.
pub(crate) proof fn lemma_same_columns<A: Backend, B: Backend>(
    a: SecureColumnByCoords<A>,
    b: SecureColumnByCoords<B>,
)
    requires
        a.coords() == b.coords(),
    ensures
        forall|k: int| 0 <= k < 4 ==> #[trigger] a.coord(k) == b.coord(k),
{
    assert forall|k: int| 0 <= k < 4 implies #[trigger] a.coord(k) == b.coord(k) by {
        assert(a.coords()[k] == a.coord(k));
        assert(b.coords()[k] == b.coord(k));
    }
}

/// What the GPU is handed to fold a line of `2^n` elements: their words, room for half as many,
/// the `2^(n - 1)` inverse twiddles from `2^n` before the end of the tree on, and the challenge. A
/// thread for each element of the result runs, and the words of the result are read back.
pub proof fn law_fold_line_submission<'a, D, Q, P>(
    ctx: &mut MetalContext<D, Q, P>,
    eval: LineEvaluation<MetalBackend>,
    alpha: SecureField,
    twiddles: &'a TwiddleTree,
    s: Submission,
    i: int,
    k: int,
)
    requires
        call_ensures(
            MetalBackend::fold_line::<D, Q, P>,
            (ctx, &eval, alpha, twiddles),
            FoldLinePlan::Gpu(s),
        ),
        eval.wf(),
        pow2(eval.domain.coset.log_size as nat) <= twiddles.itwiddles@.len(),
        8 * pow2(eval.domain.coset.log_size as nat) <= usize::MAX,
        0 <= i < pow2(eval.domain.coset.log_size as nat),
        0 <= k < 4,
    ensures
        ({
            let n = eval.domain.coset.log_size;
            let half = pow2((n - 1) as nat);
            let all = twiddles.itwiddles@;
            &&& s.buffers@.len() == 4
            &&& s.buffers@[0] matches Allocation::Data(words) && words@.len() == 8 * half
                && words@[4 * i + k] == eval.values.columns@[k]@[i].0
            &&& s.buffers@[1] matches Allocation::Pooled(bytes) && bytes == 16 * half
            &&& s.buffers@[2] matches Allocation::Twiddles { key, words, cached } && words@.len()
                == half && all.len() >= 2 * half && (i < half ==> words@[i] == all[all.len() - 2
                * half + i])
            &&& is_data(
                s.buffers@[3],
                seq![alpha.0.0.0, alpha.0.1.0, alpha.1.0.0, alpha.1.1.0],
            )
            &&& s.command_buffers@.len() == 1
            &&& s.command_buffers@[0]@.len() == 1
            &&& is_run(
                s.command_buffers@[0]@[0],
                Kernel::FriFoldLine,
                seq![
                    Binding::Buffer(0),
                    Binding::Buffer(1),
                    Binding::Buffer(2),
                    Binding::Buffer(3),
                    Binding::U32(n),
                ],
                half as int,
            )
            &&& s.readbacks@ == seq![Readback { slot: 1, words: (4 * half) as usize }]
        }),
{
    let n = eval.domain.coset.log_size;
    lemma_pow2_unfold(n as nat);
    lemma_pow2_pos((n - 1) as nat);
    lemma_first_itwiddles(*twiddles, eval.domain);
    lemma_column_word(eval.values, i, k);
    lemma_grid(pow2((n - 1) as nat) as int);
    lemma_parts(s, 0, 0, 0);
    lemma_parts(s, 1, 0, 0);
    lemma_parts(s, 2, 0, 0);
    lemma_parts(s, 3, 0, 0);
    lemma_element_words(alpha);
}

/// The words of an element.
pub(crate) proof fn lemma_element_words(e: QM31)
    ensures
        raw(e.words()) == seq![e.0.0.0, e.0.1.0, e.1.0.0, e.1.1.0],
{
    assert(raw(e.words()) =~= seq![e.0.0.0, e.0.1.0, e.1.0.0, e.1.1.0]);
}

/// The folded line that is made of the words that the GPU wrote: on the domain of the doubled
/// points, element `i` made of the words `4 * i` to `4 * i + 3`.
pub proof fn law_folded_line_of_words(
    domain: LineDomain,
    words: Vec<u32>,
    line: LineEvaluation<MetalBackend>,
    doubled: LineDomain,
    i: int,
    k: int,
)
    requires
        domain.coset.log_size >= 1,
        call_ensures(
            MetalBackend::finish_fold_line,
            (domain, FoldReply::Gpu(words)),
            line,
        ),
        call_ensures(LineDomain::double, (&domain,), doubled),
        4 * pow2((domain.coset.log_size - 1) as nat) <= words@.len(),
        0 <= i < pow2((domain.coset.log_size - 1) as nat),
        0 <= k < 4,
    ensures
        line.domain == doubled,
        line.domain.coset.log_size == domain.coset.log_size - 1,
        line.values.columns@[k]@.len() == pow2((domain.coset.log_size - 1) as nat),
        line.values.columns@[k]@[i].0 == words@[4 * i + k],
{
    let half = pow2((domain.coset.log_size - 1) as nat);
    assert(line.values.coord(k).len() == half);
    lemma_column_of_words(line.values, words@, half, i, k);
}

/// The folded line that is made of the SIMD backend's answer: the same values on the same domain.
pub proof fn law_folded_line_of_simd(
    domain: LineDomain,
    reply: FoldReply,
    line: LineEvaluation<MetalBackend>,
    k: int,
)
    requires
        call_ensures(MetalBackend::finish_fold_line, (domain, reply), line),
        0 <= k < 4,
    ensures
        reply matches FoldReply::Simd(result) ==> line.domain == result.domain
            && line.values.columns@[k]@ == result.values.columns@[k]@,
{
    if let FoldReply::Simd(result) = reply {
        lemma_same_columns(line.values, result.values);
        assert(line.values.coord(k) == result.values.coord(k));
    }
}

/// Which of the two backends folds a circle into a line, and what the SIMD backend is handed: the
/// same values of both on the same domains, the challenge and the twiddles.
pub proof fn law_fold_circle_request<'a, D, Q, P>(
    ctx: &mut MetalContext<D, Q, P>,
    dst: LineEvaluation<MetalBackend>,
    src: SecureEvaluation<MetalBackend>,
    alpha: SecureField,
    twiddles: &'a TwiddleTree,
    plan: FoldCirclePlan<'a>,
)
    requires
        call_ensures(
            MetalBackend::fold_circle_into_line::<D, Q, P>,
            (ctx, &dst, &src, alpha, twiddles),
            plan,
        ),
    ensures
        plan is Gpu <==> src.domain.half_coset.log_size + 1 >= 10,
        plan matches FoldCirclePlan::Simd(request) ==> {
            &&& request.dst.domain == dst.domain
            &&& request.src.domain == src.domain
            &&& forall|k: int|
                0 <= k < 4 ==> (#[trigger] request.dst.values.columns@[k])@
                    == dst.values.columns@[k]@
            &&& forall|k: int|
                0 <= k < 4 ==> (#[trigger] request.src.values.columns@[k])@
                    == src.values.columns@[k]@
            &&& request.alpha == alpha
            &&& request.twiddles == twiddles
        },
{
    if let FoldCirclePlan::Simd(request) = plan {
        lemma_same_columns(request.dst.values, dst.values);
        lemma_same_columns(request.src.values, src.values);
    }
}

/// What the GPU is handed to fold a circle of `2^n` elements into a line: the words of both, the
/// `2^(n - 2)` inverse twiddles from `2^(n - 1)` before the end of the tree on, the challenge, and
/// its square in the field with `i*i = -1` and `u*u = 2 + i`. A thread for each
/// element of the line runs, and the words of the line are read back.
pub proof fn law_fold_circle_submission<'a, D, Q, P>(
    ctx: &mut MetalContext<D, Q, P>,
    dst: LineEvaluation<MetalBackend>,
    src: SecureEvaluation<MetalBackend>,
    alpha: SecureField,
    twiddles: &'a TwiddleTree,
    s: Submission,
    i: int,
    j: int,
    k: int,
)
    requires
        call_ensures(
            MetalBackend::fold_circle_into_line::<D, Q, P>,
            (ctx, &dst, &src, alpha, twiddles),
            FoldCirclePlan::Gpu(s),
        ),
        src.wf(),
        pow2(src.domain.half_coset.log_size as nat) <= twiddles.itwiddles@.len(),
        8 * pow2((src.domain.half_coset.log_size + 1) as nat) <= usize::MAX,
        0 <= i < pow2((src.domain.half_coset.log_size + 1) as nat),
        0 <= k < 4,
    ensures
        ({
            let n = (src.domain.half_coset.log_size + 1) as u32;
            let (half, quarter) = (pow2((n - 1) as nat), pow2((n - 2) as nat));
            let all = twiddles.itwiddles@;
            let (a, b, c, d) = (
                alpha.0.0.0 as int,
                alpha.0.1.0 as int,
                alpha.1.0.0 as int,
                alpha.1.1.0 as int,
            );
            &&& s.buffers@.len() == 5
            &&& s.buffers@[0] matches Allocation::Data(words) && words@.len() == 8 * half
                && words@[4 * i + k] == src.values.columns@[k]@[i].0
            &&& s.buffers@[1] matches Allocation::Data(words) && words@.len() == 4
                * dst.values.columns@[0]@.len() && (0 <= j < dst.values.columns@[0]@.len()
                ==> words@[4 * j + k] == dst.values.columns@[k]@[j].0)
            &&& s.buffers@[2] matches Allocation::Twiddles { key, words, cached } && words@.len()
                == quarter && all.len() >= 2 * quarter && (i < quarter ==> words@[i]
                == all[all.len() - 2 * quarter + i])
            &&& is_data(
                s.buffers@[3],
                seq![alpha.0.0.0, alpha.0.1.0, alpha.1.0.0, alpha.1.1.0],
            )
            &&& s.buffers@[4] matches Allocation::Data(square) && square@.len() == 4 && stands_for(
                M31(square@[0]),
                a * a - b * b + 2 * (c * c - d * d) - (c * d + d * c),
            ) && stands_for(
                M31(square@[1]),
                a * b + b * a + (c * c - d * d) + 2 * (c * d + d * c),
            ) && stands_for(M31(square@[2]), a * c - b * d + c * a - d * b) && stands_for(
                M31(square@[3]),
                a * d + b * c + c * b + d * a,
            )
            &&& s.command_buffers@.len() == 1
            &&& s.command_buffers@[0]@.len() == 1
            &&& is_run(
                s.command_buffers@[0]@[0],
                Kernel::FriFoldCircle,
                seq![
                    Binding::Buffer(0),
                    Binding::Buffer(1),
                    Binding::Buffer(2),
                    Binding::Buffer(3),
                    Binding::Buffer(4),
                    Binding::U32(n),
                ],
                half as int,
            )
            &&& s.readbacks@ == seq![Readback { slot: 1, words: (4 * half) as usize }]
        }),
{
    let n = (src.domain.half_coset.log_size + 1) as u32;
    let square = qm31_product(alpha, alpha);
    lemma_pow2_unfold(n as nat);
    lemma_pow2_unfold((n - 1) as nat);
    lemma_pow2_pos((n - 1) as nat);
    lemma_first_itwiddles(*twiddles, LineDomain { coset: src.domain.half_coset });
    lemma_column_word(src.values, i, k);
    if 0 <= j < dst.values.columns@[0]@.len() {
        lemma_column_word(dst.values, j, k);
    }
    lemma_grid(pow2((n - 1) as nat) as int);
    lemma_parts(s, 0, 0, 0);
    lemma_parts(s, 1, 0, 0);
    lemma_parts(s, 2, 0, 0);
    lemma_parts(s, 3, 0, 0);
    lemma_parts(s, 4, 0, 0);
    lemma_element_words(alpha);
    lemma_element_words(square);
    lemma_square(alpha);
}

/// The line that a circle was folded into keeps its domain, and its values are made of the answer:
/// element `i` of the words `4 * i` to `4 * i + 3` that the GPU wrote, or the SIMD backend's.
pub proof fn law_folded_circle(
    dst: &mut LineEvaluation<MetalBackend>,
    log_size: u32,
    reply: FoldReply,
    i: int,
    k: int,
)
    requires
        call_ensures(
            MetalBackend::finish_fold_circle_into_line,
            (dst, log_size, reply),
            (),
        ),
        0 <= k < 4,
    ensures
        final(dst).domain == old(dst).domain,
        reply matches FoldReply::Simd(result) ==> final(dst).values.columns@[k]@
            == result.values.columns@[k]@,
        reply matches FoldReply::Gpu(words) ==> log_size >= 1 && 4 * pow2((log_size - 1) as nat)
            <= words@.len() ==> {
            &&& final(dst).values.columns@[k]@.len() == pow2((log_size - 1) as nat)
            &&& 0 <= i < pow2((log_size - 1) as nat) ==> final(dst).values.columns@[k]@[i].0
                == words@[4 * i + k]
        },
{
    match reply {
        FoldReply::Simd(result) => {
            lemma_same_columns(final(dst).values, result.values);
            assert(final(dst).values.coord(k) == result.values.coord(k));
        },
        FoldReply::Gpu(words) => {
            let half = pow2((log_size - 1) as nat);
            assert(final(dst).values.coord(k).len() == half);
            if log_size >= 1 && 4 * half <= words@.len() && 0 <= i < half {
                lemma_column_of_words(final(dst).values, words@, half, i, k);
            }
        },
    }
}

/// The square of a challenge.
proof fn lemma_square(alpha: QM31)
    ensures
        ({
            let square = qm31_product(alpha, alpha);
            let (a, b, c, d) = (
                alpha.0.0.0 as int,
                alpha.0.1.0 as int,
                alpha.1.0.0 as int,
                alpha.1.1.0 as int,
            );
            &&& stands_for(square.0.0, a * a - b * b + 2 * (c * c - d * d) - (c * d + d * c))
            &&& stands_for(square.0.1, a * b + b * a + (c * c - d * d) + 2 * (c * d + d * c))
            &&& stands_for(square.1.0, a * c - b * d + c * a - d * b)
            &&& stands_for(square.1.1, a * d + b * c + c * b + d * a)
        }),
{
    lemma_product_stands_for(alpha, alpha);
}

} // verus!
