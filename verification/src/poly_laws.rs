//! What the operations on polynomials hand over and make of the answer.
//!
//! Each law speaks of the results of calls and of the single values and words in them.
use crate::backend::{MetalBackend, SimdBackend};
use crate::bits::lemma_log2_of_pow2;
use crate::buffer::raw;
use crate::circle::{CircleDomain, CirclePoint, TwiddleTree};
use crate::column::MetalBaseColumn;
use crate::evaluation::{CircleCoefficients, CircleEvaluation, SecureEvaluation};
use crate::fields::SecureField;
use crate::fold_laws::{is_run, lemma_grid, lemma_parts, lemma_same_columns};
use crate::gpu::{Allocation, AllocationSpec, Binding, CommandSpec, Kernel, Readback, Submission};
use crate::poly::{
    fft_steps, ifft_steps, radix8_dispatch, radix8_submission, radix8_twiddles, EvaluatePlan,
    EvaluateReply, InterpolatePlan, InterpolateReply, SimdEvalAtPoint, SimdEvalAtPointByFolding,
    SimdExtend,
};
use crate::quotients::SimdQuotients;
use vstd::arithmetic::power2::*;
use vstd::prelude::*;

verus! {

/// Evaluating a polynomial asks the SIMD backend, whatever the size: for the same coefficients on
/// the domain and with the twiddles that were given.
pub proof fn law_evaluate_request<'a>(
    poly: CircleCoefficients<MetalBackend>,
    domain: CircleDomain,
    twiddles: &'a TwiddleTree,
    plan: EvaluatePlan<'a>,
)
    requires
        call_ensures(MetalBackend::evaluate, (&poly, domain, twiddles), plan),
    ensures
        plan matches EvaluatePlan::Simd(request) && request.poly.coeffs.values@ == poly.coeffs@
            && request.poly.log_size == poly.log_size && request.domain == domain
            && request.twiddles == twiddles,
{
}

/// The evaluation that is made of the answer has its values, on the answer's domain, or on the one
/// that was asked for where the answer is words.
pub proof fn law_finished_evaluation(
    domain: CircleDomain,
    reply: EvaluateReply,
    eval: CircleEvaluation<MetalBackend>,
    i: int,
)
    requires
        call_ensures(MetalBackend::finish_evaluate, (domain, reply), eval),
    ensures
        reply matches EvaluateReply::Simd(result) ==> eval.domain == result.domain
            && eval.values@ == result.values.values@,
        reply matches EvaluateReply::Gpu(words) ==> eval.domain == domain && eval.values@.len()
            == words@.len() && (0 <= i < words@.len() ==> eval.values@[i].0 == words@[i]),
{
    if let EvaluateReply::Gpu(words) = reply {
        assert(raw(eval.values@).len() == eval.values@.len());
        if 0 <= i < words@.len() {
            assert(raw(eval.values@)[i] == eval.values@[i].0);
        }
    }
}

/// Interpolating values asks the SIMD backend, whatever the size: for the same values on the same
/// domain and with the twiddles that were given.
pub proof fn law_interpolate_request<'a>(
    eval: CircleEvaluation<MetalBackend>,
    twiddles: &'a TwiddleTree,
    plan: InterpolatePlan<'a>,
)
    requires
        call_ensures(MetalBackend::interpolate, (eval, twiddles), plan),
    ensures
        plan matches InterpolatePlan::Simd(request) && request.eval.values.values@ == eval.values@
            && request.eval.domain == eval.domain && request.twiddles == twiddles,
{
}

/// The polynomial that is made of the answer has its coefficients, and as many as its size says.
pub proof fn law_finished_interpolation(
    reply: InterpolateReply,
    poly: CircleCoefficients<MetalBackend>,
    i: int,
)
    requires
        call_ensures(MetalBackend::finish_interpolate, (reply,), poly),
    ensures
        poly.coeffs@.len() == pow2(poly.log_size as nat),
        reply matches InterpolateReply::Simd(result) ==> poly.coeffs@ == result.coeffs.values@
            && poly.log_size == result.log_size,
        reply matches InterpolateReply::Gpu(words) ==> poly.coeffs@.len() == words@.len() && (0
            <= i < words@.len() ==> poly.coeffs@[i].0 == words@[i]),
{
    if let InterpolateReply::Gpu(words) = reply {
        assert(raw(poly.coeffs@).len() == poly.coeffs@.len());
        if 0 <= i < words@.len() {
            assert(raw(poly.coeffs@)[i] == poly.coeffs@[i].0);
        }
    }
}

/// What is asked for the value at a point, from coefficients or from values.
pub proof fn law_point_requests<'a>(
    poly: CircleCoefficients<MetalBackend>,
    evals: CircleEvaluation<MetalBackend>,
    point: CirclePoint<SecureField>,
    twiddles: &'a TwiddleTree,
    request: SimdEvalAtPoint,
    folding: SimdEvalAtPointByFolding<'a>,
)
    requires
        call_ensures(MetalBackend::eval_at_point, (&poly, point), request),
        call_ensures(MetalBackend::eval_at_point_by_folding, (&evals, point, twiddles), folding),
    ensures
        request.poly.coeffs.values@ == poly.coeffs@,
        request.poly.log_size == poly.log_size,
        request.point == point,
        folding.evals.values.values@ == evals.values@,
        folding.evals.domain == evals.domain,
        folding.point == point,
        folding.twiddles == twiddles,
{
}

/// What is asked for an extension, and the extension that is made of the answer.
pub proof fn law_extension(
    poly: CircleCoefficients<MetalBackend>,
    log_size: u32,
    request: SimdExtend,
    result: CircleCoefficients<SimdBackend>,
    extended: CircleCoefficients<MetalBackend>,
)
    requires
        call_ensures(MetalBackend::extend, (&poly, log_size), request),
        call_ensures(MetalBackend::finish_extend, (result,), extended),
    ensures
        request.poly.coeffs.values@ == poly.coeffs@,
        request.poly.log_size == poly.log_size,
        request.log_size == log_size,
        extended.coeffs@ == result.coeffs.values@,
        extended.log_size == result.log_size,
{
}

/// The halves of a polynomial: coefficient `i` of the lower one is coefficient `i`, and of the
/// upper one it is the coefficient half the length further on.
pub proof fn law_polynomial_halves(
    poly: CircleCoefficients<MetalBackend>,
    halves: (CircleCoefficients<MetalBackend>, CircleCoefficients<MetalBackend>),
    i: int,
)
    requires
        poly.log_size >= 1,
        call_ensures(MetalBackend::split_at_mid, (poly,), halves),
        0 <= i < pow2((poly.log_size - 1) as nat),
    ensures
        halves.0.log_size == poly.log_size - 1,
        halves.1.log_size == poly.log_size - 1,
        halves.0.coeffs@.len() == pow2((poly.log_size - 1) as nat),
        halves.1.coeffs@.len() == pow2((poly.log_size - 1) as nat),
        halves.0.coeffs@[i] == poly.coeffs@[i],
        halves.1.coeffs@[i] == poly.coeffs@[pow2((poly.log_size - 1) as nat) + i],
{
    let half = pow2((poly.log_size - 1) as nat);
    assert(halves.0.coeffs@.len() == half && halves.1.coeffs@.len() == half);
    let all = halves.0.coeffs@ + halves.1.coeffs@;
    assert(all[i] == halves.0.coeffs@[i]);
    assert(all[half + i] == halves.1.coeffs@[i]);
}

/// A polynomial from its coefficients.
pub proof fn law_new_polynomial(
    coeffs: MetalBaseColumn,
    poly: CircleCoefficients<MetalBackend>,
    n: u32,
)
    requires
        coeffs@.len() == pow2(n as nat),
        call_ensures(CircleCoefficients::<MetalBackend>::new, (coeffs,), poly),
    ensures
        poly.coeffs@ == coeffs@,
        poly.log_size == n,
{
    lemma_log2_of_pow2(n as nat);
    lemma_log2_of_pow2(poly.log_size as nat);
}

/// What the SIMD backend is handed for the quotients of columns, and what is made of its answer.
pub proof fn law_quotients<'a, S>(
    domain: CircleDomain,
    columns: &[&CircleEvaluation<MetalBackend>],
    random_coeff: SecureField,
    sample_batches: &'a [S],
    log_blowup_factor: u32,
    request: SimdQuotients<'a, S>,
    result: SecureEvaluation<SimdBackend>,
    eval: SecureEvaluation<MetalBackend>,
    c: int,
    k: int,
)
    requires
        call_ensures(
            MetalBackend::accumulate_quotients::<S>,
            (domain, columns, random_coeff, sample_batches, log_blowup_factor),
            request,
        ),
        call_ensures(MetalBackend::finish_accumulate_quotients, (result,), eval),
        0 <= k < 4,
    ensures
        request.domain == domain,
        request.columns@.len() == columns@.len(),
        0 <= c < columns@.len() ==> request.columns@[c].domain == columns@[c].domain
            && request.columns@[c].values.values@ == columns@[c].values@,
        request.random_coeff == random_coeff,
        request.sample_batches@ == sample_batches@,
        request.log_blowup_factor == log_blowup_factor,
        eval.domain == result.domain,
        eval.values.columns@[k]@ == result.values.columns@[k].values@,
{
    if 0 <= c < columns@.len() {
        assert(request.columns@[c].wf());
    }
    lemma_same_columns(eval.values, result.values);
    assert(eval.values.coord(k) == result.values.coord(k));
}

/// What the SIMD backend is handed for a decomposition, and what is made of its answer.
pub proof fn law_decomposition(
    eval: SecureEvaluation<MetalBackend>,
    request: SecureEvaluation<SimdBackend>,
    result: SecureEvaluation<SimdBackend>,
    lambda: SecureField,
    answer: (SecureEvaluation<MetalBackend>, SecureField),
    k: int,
)
    requires
        call_ensures(MetalBackend::decompose, (&eval,), request),
        call_ensures(MetalBackend::finish_decompose, (result, lambda), answer),
        0 <= k < 4,
    ensures
        request.domain == eval.domain,
        request.values.columns@[k].values@ == eval.values.columns@[k]@,
        answer.0.domain == result.domain,
        answer.0.values.columns@[k]@ == result.values.columns@[k].values@,
        answer.1 == lambda,
{
    lemma_same_columns(request.values, eval.values);
    lemma_same_columns(answer.0.values, result.values);
    assert(request.values.coord(k) == eval.values.coord(k));
    assert(answer.0.values.coord(k) == result.values.coord(k));
}

/// Step `j` of radix-8 steps in a submission does three layers from `layer` on: a thread for each
/// block of the finest of the three, and the twiddles of each of them, the `2^(layer + t)` words
/// that start twice as many before the end. Word `w` of the twiddles of layer `layer + t` is meant.
pub open spec fn is_radix8_step(
    s: Submission,
    kernel: Kernel,
    twiddles: Seq<u32>,
    log_size: u32,
    j: int,
    layer: int,
    t: int,
    w: int,
) -> bool {
    let len = pow2((layer + t) as nat);
    &&& s.command_buffers@[j]@.len() == 1
    &&& is_run(
        s.command_buffers@[j]@[0],
        kernel,
        seq![
            Binding::Buffer(0),
            Binding::Buffer((3 * j + 1) as usize),
            Binding::Buffer((3 * j + 2) as usize),
            Binding::Buffer((3 * j + 3) as usize),
            Binding::U32(log_size),
            Binding::U32(layer as u32),
        ],
        pow2(layer as nat) as int,
    )
    &&& s.buffers@[3 * j + 1 + t] matches Allocation::Data(words) && words@.len() == len && 2 * len
        <= twiddles.len() && (0 <= w < len ==> words@[w] == twiddles[twiddles.len() - 2 * len + w])
}

/// A step of a submission of radix-8 steps.
proof fn lemma_radix8_step(
    s: Submission,
    kernel: Kernel,
    data: Seq<u32>,
    twiddles: Seq<u32>,
    num_layers: nat,
    log_size: u32,
    steps: Seq<u32>,
    j: int,
    t: int,
    w: int,
)
    requires
        s@ == radix8_submission(kernel, data, twiddles, num_layers, log_size, steps),
        num_layers < usize::BITS,
        pow2(num_layers) <= twiddles.len(),
        twiddles.len() <= usize::MAX,
        0 <= j < steps.len(),
        steps[j] + 3 <= num_layers,
        0 <= t < 3,
    ensures
        s.buffers@.len() == 3 * steps.len() + 1,
        s.command_buffers@.len() == steps.len(),
        is_radix8_step(s, kernel, twiddles, log_size, j, steps[j] as int, t, w),
{
    let want = radix8_submission(kernel, data, twiddles, num_layers, log_size, steps);
    let b = 3 * j + t;
    let layer = steps[j] as nat;
    let k = (layer + t) as nat;
    lemma_parts(s, b + 1, j, 0);
    assert(b / 3 == j && b % 3 == t);
    assert(want.buffers[b + 1] == radix8_twiddles(twiddles, num_layers, steps, b));
    assert(want.command_buffers[j] == seq![
        CommandSpec::Compute(radix8_dispatch(kernel, log_size, steps[j], j)),
    ]);
    assert(s@.command_buffers[j][0] == want.command_buffers[j][0]);
    lemma_pow2_unfold((k + 1) as nat);
    lemma_pow2_pos(layer);
    if k + 1 < num_layers {
        lemma_pow2_strictly_increases((k + 1) as nat, num_layers);
    }
    if layer < k {
        lemma_pow2_strictly_increases(layer, k);
    }
    assert(num_layers - 1 - (num_layers - 1 - (steps[j] + t)) == k);
    lemma_grid(pow2(layer) as int);
}

/// The GPU work for the layers of an evaluation that come in threes: the words of the coefficients
/// in place, and steps of three layers that go down by three to the lowest layer that SIMD does
/// not work through by itself, from as high as three layers fit.
pub proof fn law_fft_submission(
    poly: CircleCoefficients<MetalBackend>,
    domain: CircleDomain,
    twiddles: TwiddleTree,
    s: Submission,
    i: int,
    j: int,
    t: int,
    w: int,
)
    requires
        call_ensures(MetalBackend::fft_radix8_submission, (&poly, domain, &twiddles), s),
        domain.half_coset.log_size < usize::BITS,
        domain.half_coset.log_size > 0 ==> pow2(domain.half_coset.log_size as nat)
            <= twiddles.twiddles@.len(),
        twiddles.twiddles@.len() <= usize::MAX,
        poly.coeffs@.len() <= usize::MAX,
        0 <= t < 3,
    ensures
        ({
            let num = domain.half_coset.log_size as int;
            let count = s.command_buffers@.len() as int;
            &&& s.buffers@[0] matches Allocation::Data(words) && words@.len() == poly.coeffs@.len()
                && (0 <= i < words@.len() ==> words@[i] == poly.coeffs@[i].0)
            &&& s.buffers@.len() == 3 * count + 1
            &&& s.readbacks@ == seq![Readback { slot: 0, words: poly.coeffs@.len() as usize }]
            &&& num < 8 ==> count == 0
            &&& num >= 8 ==> 5 + 3 * count <= num < 5 + 3 * (count + 1)
            &&& 0 <= j < count ==> is_radix8_step(
                s,
                Kernel::FftRadix8,
                twiddles.twiddles@,
                poly.log_size,
                j,
                5 + 3 * (count - 1 - j),
                t,
                w,
            )
        }),
{
    let num = domain.half_coset.log_size as int;
    let steps = fft_steps(num);
    lemma_parts(s, 0, 0, 0);
    assert(s@.buffers[0] == AllocationSpec::Data(raw(poly.coeffs@)));
    if 0 <= j < steps.len() {
        lemma_radix8_step(
            s,
            Kernel::FftRadix8,
            raw(poly.coeffs@),
            twiddles.twiddles@,
            num as nat,
            poly.log_size,
            steps,
            j,
            t,
            w,
        );
    }
}

/// The GPU work for the layers of an interpolation that come in threes: the words of the values in
/// place, and steps of three layers from the bottom up, as long as there are three layers left.
pub proof fn law_ifft_submission(
    eval: CircleEvaluation<MetalBackend>,
    twiddles: TwiddleTree,
    s: Submission,
    i: int,
    j: int,
    t: int,
    w: int,
)
    requires
        call_ensures(MetalBackend::ifft_radix8_submission, (&eval, &twiddles), s),
        eval.domain.half_coset.log_size + 1 < usize::BITS,
        eval.domain.half_coset.log_size > 0 ==> pow2(eval.domain.half_coset.log_size as nat)
            <= twiddles.itwiddles@.len(),
        twiddles.itwiddles@.len() <= usize::MAX,
        eval.values@.len() <= usize::MAX,
        0 <= t < 3,
    ensures
        ({
            let num = eval.domain.half_coset.log_size as int;
            let count = s.command_buffers@.len() as int;
            &&& s.buffers@[0] matches Allocation::Data(words) && words@.len() == eval.values@.len()
                && (0 <= i < words@.len() ==> words@[i] == eval.values@[i].0)
            &&& s.buffers@.len() == 3 * count + 1
            &&& s.readbacks@ == seq![Readback { slot: 0, words: eval.values@.len() as usize }]
            &&& 3 * count <= num < 3 * (count + 1)
            &&& 0 <= j < count ==> is_radix8_step(
                s,
                Kernel::IfftRadix8,
                twiddles.itwiddles@,
                (num + 1) as u32,
                j,
                3 * j,
                t,
                w,
            )
        }),
{
    let num = eval.domain.half_coset.log_size as int;
    let steps = ifft_steps(num);
    lemma_parts(s, 0, 0, 0);
    assert(s@.buffers[0] == AllocationSpec::Data(raw(eval.values@)));
    if 0 <= j < steps.len() {
        lemma_radix8_step(
            s,
            Kernel::IfftRadix8,
            raw(eval.values@),
            twiddles.itwiddles@,
            num as nat,
            (num + 1) as u32,
            steps,
            j,
            t,
            w,
        );
    }
}

} // verus!
