//! Which inputs the operations accept.
//!
//! Each law names what an input has to satisfy for an operation to take it; nothing else does.
use crate::backend::{MetalBackend, SimdBackend};
use crate::bits::lemma_log2_of_pow2;
use crate::circle::{CircleDomain, CirclePoint, TwiddleTree};
use crate::column::{MetalBaseColumn, MetalSecureColumn};
use crate::context::MetalContext;
use crate::evaluation::{CircleCoefficients, CircleEvaluation, LineEvaluation, SecureEvaluation};
use crate::fields::{SecureField, QM31};
use crate::fri::FoldReply;
use crate::gkr::{FixReply, Mle};
use crate::hash::Blake2sHash;
use crate::merkle::CommitReply;
use crate::merkle_tree::commit_tree_batched;
use crate::secure_column::SecureColumnByCoords;
use vstd::arithmetic::power2::*;
use vstd::prelude::*;

verus! {

/// All elements can be multiplied and raised to powers, and a column can be added to every other
/// one that is not longer.
pub proof fn law_arithmetic_accepts(
    l: QM31,
    r: QM31,
    n: usize,
    column: &mut SecureColumnByCoords<MetalBackend>,
    other: SecureColumnByCoords<MetalBackend>,
)
    requires
        old(column).wf(),
        other.wf(),
        forall|k: int|
            0 <= k < 4 ==> other.columns@[k]@.len() >= (#[trigger] old(column).columns@[k])@.len(),
    ensures
        call_requires(QM31::mul, (&l, &r)),
        call_requires(MetalBackend::generate_secure_powers, (l, n)),
        call_requires(MetalBackend::accumulate, (column, &other)),
{
    assert forall|k: int| 0 <= k < 4 implies other.coord(k).len() >= #[trigger] old(column).coord(
        k,
    ).len() by {
        assert(other.columns@[k]@.len() >= old(column).columns@[k]@.len());
    }
}

/// A line of any size can be folded, if it has a value in every coordinate for every element of
/// its domain, if there are twiddles where they are needed, and if the words of the elements can
/// be counted.
pub proof fn law_fold_line_accepts<D, Q, P>(
    ctx: &mut MetalContext<D, Q, P>,
    eval: LineEvaluation<MetalBackend>,
    alpha: SecureField,
    twiddles: TwiddleTree,
    words: Vec<u32>,
    result: LineEvaluation<SimdBackend>,
)
    requires
        eval.wf(),
        forall|k: int|
            0 <= k < 4 ==> (#[trigger] eval.values.columns@[k])@.len()
                == eval.values.columns@[0]@.len(),
        pow2(eval.domain.coset.log_size as nat) <= twiddles.itwiddles@.len(),
        8 * pow2(eval.domain.coset.log_size as nat) <= usize::MAX,
        eval.domain.coset.log_size >= 1,
        4 * pow2((eval.domain.coset.log_size - 1) as nat) <= words@.len(),
        result.wf(),
    ensures
        call_requires(MetalBackend::fold_line::<D, Q, P>, (ctx, &eval, alpha, &twiddles)),
        call_requires(MetalBackend::finish_fold_line, (eval.domain, FoldReply::Gpu(words))),
        call_requires(MetalBackend::finish_fold_line, (eval.domain, FoldReply::Simd(result))),
{
    assert forall|k: int| 0 <= k < 4 implies #[trigger] eval.values.coord(k).len()
        >= eval.values.coord(0).len() by {
        assert(eval.values.columns@[k]@.len() == eval.values.columns@[0]@.len());
    }
}

/// A circle of any size can be folded into a line of half its length.
pub proof fn law_fold_circle_accepts<D, Q, P>(
    ctx: &mut MetalContext<D, Q, P>,
    dst: LineEvaluation<MetalBackend>,
    src: SecureEvaluation<MetalBackend>,
    alpha: SecureField,
    twiddles: TwiddleTree,
    line: &mut LineEvaluation<MetalBackend>,
    words: Vec<u32>,
)
    requires
        dst.wf(),
        src.wf(),
        forall|k: int|
            0 <= k < 4 ==> (#[trigger] dst.values.columns@[k])@.len()
                == dst.values.columns@[0]@.len(),
        forall|k: int|
            0 <= k < 4 ==> (#[trigger] src.values.columns@[k])@.len()
                == src.values.columns@[0]@.len(),
        dst.domain.coset.log_size == src.domain.half_coset.log_size,
        pow2(src.domain.half_coset.log_size as nat) <= twiddles.itwiddles@.len(),
        8 * pow2((src.domain.half_coset.log_size + 1) as nat) <= usize::MAX,
        4 * pow2(src.domain.half_coset.log_size as nat) <= words@.len(),
    ensures
        call_requires(
            MetalBackend::fold_circle_into_line::<D, Q, P>,
            (ctx, &dst, &src, alpha, &twiddles),
        ),
        call_requires(
            MetalBackend::finish_fold_circle_into_line,
            (line, (src.domain.half_coset.log_size + 1) as u32, FoldReply::Gpu(words)),
        ),
{
    assert forall|k: int| 0 <= k < 4 implies #[trigger] dst.values.coord(k).len()
        >= dst.values.coord(0).len() by {
        assert(dst.values.columns@[k]@.len() == dst.values.columns@[0]@.len());
    }
    assert forall|k: int| 0 <= k < 4 implies #[trigger] src.values.coord(k).len()
        >= src.values.coord(0).len() by {
        assert(src.values.columns@[k]@.len() == src.values.columns@[0]@.len());
    }
}

/// A layer of Blake2s hashes of any size can be committed to, with or without children and with
/// any columns.
pub proof fn law_commit_blake2s_accepts(
    log_size: u32,
    prev_layer: Option<&Vec<Blake2sHash>>,
    columns: &[&MetalBaseColumn],
    words: Vec<u32>,
    hashes: Vec<Blake2sHash>,
)
    requires
        forall|c: int| 0 <= c < columns@.len() ==> (#[trigger] columns@[c]).wf(),
        prev_layer matches Some(children) ==> children@.len() == 2 * pow2(log_size as nat),
        32 * pow2(log_size as nat) <= usize::MAX,
        8 * pow2(log_size as nat) <= words@.len(),
    ensures
        call_requires(MetalBackend::commit_on_layer_blake2s, (log_size, prev_layer, columns)),
        call_requires(
            MetalBackend::finish_commit_on_layer,
            (log_size, CommitReply::Gpu(words)),
        ),
        call_requires(
            MetalBackend::finish_commit_on_layer,
            (log_size, CommitReply::Simd(hashes)),
        ),
{
}

/// A layer of Blake2s hashes whose words are base field elements can be committed to, with columns
/// or, if it has none, with children; a small layer with both.
pub proof fn law_commit_blake2s_m31_accepts(
    log_size: u32,
    prev_layer: Option<&Vec<Blake2sHash>>,
    columns: &[&MetalBaseColumn],
)
    requires
        forall|c: int|
            0 <= c < columns@.len() ==> (#[trigger] columns@[c]).wf() && columns@[c]@.len() == pow2(
                log_size as nat,
            ),
        prev_layer matches Some(children) ==> children@.len() == 2 * pow2(log_size as nat),
        log_size < 10 || (prev_layer is Some <==> columns@.len() == 0),
        32 * pow2(log_size as nat) <= usize::MAX,
        4 * pow2(log_size as nat) * columns@.len() <= usize::MAX,
    ensures
        call_requires(MetalBackend::commit_on_layer_blake2s_m31, (log_size, prev_layer, columns)),
{
    assert forall|c: int| 0 <= c < columns@.len() implies (#[trigger] columns@[c]).memory().len()
        >= pow2(log_size as nat) by {
        assert(columns@[c].wf());
        columns@[c].law_memory();
    }
}

/// Any number of layers over hashes can be committed to at once.
pub proof fn law_commit_tree_accepts(initial_layer: &[Blake2sHash], num_layers: u32, is_m31: bool)
    requires
        32 * initial_layer@.len() <= usize::MAX,
    ensures
        call_requires(commit_tree_batched, (initial_layer, num_layers, is_m31)),
{
}

/// A variable of an extension of any size can be fixed.
pub proof fn law_fix_accepts(
    base: Mle<MetalBaseColumn>,
    secure: Mle<MetalSecureColumn>,
    n: nat,
    assignment: SecureField,
    len: usize,
    words: Vec<u32>,
)
    requires
        base.evals.wf(),
        base.evals@.len() == pow2(n),
        secure.evals.wf(),
        secure.evals@.len() == pow2(n),
        8 * pow2(n) <= usize::MAX,
        n >= 1,
        len == pow2(n),
        4 * pow2((n - 1) as nat) <= words@.len(),
    ensures
        call_requires(MetalBackend::fix_first_variable_m31, (base, assignment)),
        call_requires(MetalBackend::fix_first_variable_qm31, (secure, assignment)),
        call_requires(
            MetalBackend::finish_fix_first_variable,
            (len, FixReply::Gpu(words)),
        ),
{
    lemma_log2_of_pow2(n);
    lemma_log2_of_pow2((n - 1) as nat);
    lemma_pow2_unfold(n);
}

/// A polynomial of any size can be evaluated, at a point or on a domain, extended and interpolated.
pub proof fn law_polynomials_accept<'a>(
    poly: CircleCoefficients<MetalBackend>,
    eval: CircleEvaluation<MetalBackend>,
    domain: CircleDomain,
    twiddles: &'a TwiddleTree,
    point: CirclePoint<SecureField>,
    log_size: u32,
)
    requires
        poly.wf(),
        poly.log_size >= 1,
        eval.wf(),
    ensures
        call_requires(MetalBackend::evaluate, (&poly, domain, twiddles)),
        call_requires(MetalBackend::interpolate, (eval, twiddles)),
        call_requires(MetalBackend::eval_at_point, (&poly, point)),
        call_requires(MetalBackend::eval_at_point_by_folding, (&eval, point, twiddles)),
        call_requires(MetalBackend::extend, (&poly, log_size)),
        call_requires(MetalBackend::split_at_mid, (poly,)),
{
}

} // verus!
