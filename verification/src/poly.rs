//! Evaluation and interpolation of polynomials over the circle.
//!
//! The GPU kernels do three layers of a transform at a time. They do not cover the lowest layers,
//! which SIMD works through inside of its vectors, so transforms are handed to the SIMD backend
//! for now. The GPU work for the layers that the kernels do cover is described all the same.
use crate::backend::{convert, Backend, Column, MetalBackend, SimdBackend};
use crate::bits::{is_power_of_two, lemma_log2_of_pow2, pow2_usize};
use crate::buffer::{copy_slice, raw, raw_words, Buffer};
use crate::circle::{
    domain_line_twiddles_from_tree, has_layers, lemma_twiddle_layer, twiddle_layer, CircleDomain,
    CirclePoint, LineDomain, TwiddleTree,
};
use crate::column::MetalBaseColumn;
use crate::evaluation::{CircleCoefficients, CircleEvaluation};
use crate::fields::SecureField;
use crate::gpu::{
    allocation_views, command_views, grid, grid_of, lemma_allocation_views_push, Allocation,
    AllocationSpec, Binding, Command, CommandSpec, Dispatch, DispatchSpec, Kernel, Readback,
    Submission, SubmissionSpec,
};
use crate::thresholds::MIN_FFT_LOG_SIZE;
use vstd::arithmetic::power2::*;
use vstd::prelude::*;

verus! {

/// The number of lowest layers that SIMD works through inside of its vectors.
pub const VECWISE_FFT_BITS: u32 = 5;

/// Whether the GPU can do the lowest layers too.
pub const VECWISE_LAYERS_ON_GPU: bool = false;

/// The number of layers above those that SIMD works through inside of its vectors.
pub open spec fn non_vecwise_layers(num_layers: int) -> int {
    if num_layers > VECWISE_FFT_BITS {
        num_layers - VECWISE_FFT_BITS
    } else {
        num_layers
    }
}

/// A transform of this size goes to the SIMD backend.
pub open spec fn fft_on_simd(log_size: u32) -> bool {
    !VECWISE_LAYERS_ON_GPU || log_size < MIN_FFT_LOG_SIZE || non_vecwise_layers(log_size - 1) % 3
        != 0
}

/// Every transform goes to the SIMD backend.
pub proof fn law_fft_always_on_simd(log_size: u32)
    ensures
        fft_on_simd(log_size),
{
}

/// Whether a transform of this size goes to the SIMD backend.
fn falls_back(log_size: u32) -> (b: bool)
    requires
        log_size >= 1,
    ensures
        b == fft_on_simd(log_size),
{
    let num_layers: u32 = log_size - 1;
    let non_vecwise: u32 = if num_layers > VECWISE_FFT_BITS {
        num_layers - VECWISE_FFT_BITS
    } else {
        num_layers
    };
    !VECWISE_LAYERS_ON_GPU || log_size < MIN_FFT_LOG_SIZE || non_vecwise % 3 != 0
}

/// The number of radix-8 steps of a forward transform.
pub open spec fn fft_step_count(num_layers: int) -> int {
    if num_layers - 2 > VECWISE_FFT_BITS {
        (num_layers - 2 - VECWISE_FFT_BITS + 2) / 3
    } else {
        0
    }
}

/// The lowest layer of each radix-8 step of a forward transform: from the top down to the layers
/// that SIMD works through inside of its vectors.
pub open spec fn fft_steps(num_layers: int) -> Seq<u32> {
    let count = fft_step_count(num_layers);
    Seq::new(count as nat, |j: int| (VECWISE_FFT_BITS + 3 * (count - 1 - j)) as u32)
}

/// The lowest layer of each radix-8 step of an inverse transform: from the bottom up, as long as
/// there are three layers left.
pub open spec fn ifft_steps(num_layers: int) -> Seq<u32> {
    Seq::new((num_layers / 3) as nat, |j: int| (3 * j) as u32)
}

/// The steps of a forward transform stay below the top, and where the layers above the lowest
/// ones come in threes, each of them is in exactly one step.
pub proof fn law_fft_steps_cover(num_layers: int, layer: int)
    requires
        0 <= num_layers <= u32::MAX,
        VECWISE_FFT_BITS <= layer < num_layers,
        (num_layers - VECWISE_FFT_BITS) % 3 == 0,
    ensures
        exists|j: int|
            0 <= j < fft_steps(num_layers).len() && #[trigger] fft_steps(num_layers)[j] <= layer
                < fft_steps(num_layers)[j] + 3,
        forall|i: int, j: int|
            #![trigger fft_steps(num_layers)[i], fft_steps(num_layers)[j]]
            0 <= i < fft_steps(num_layers).len() && 0 <= j < fft_steps(num_layers).len()
                && fft_steps(num_layers)[i] <= layer < fft_steps(num_layers)[i] + 3
                && fft_steps(num_layers)[j] <= layer < fft_steps(num_layers)[j] + 3 ==> i == j,
        forall|j: int|
            0 <= j < fft_steps(num_layers).len() ==> #[trigger] fft_steps(num_layers)[j] + 3
                <= num_layers,
{
    let count = fft_step_count(num_layers);
    let j = count - 1 - (layer - VECWISE_FFT_BITS) / 3;
    assert(fft_steps(num_layers)[j] == VECWISE_FFT_BITS + 3 * (count - 1 - j));
}

/// The steps of an inverse transform stay below the top, and where the layers come in threes,
/// each of them is in exactly one step.
pub proof fn law_ifft_steps_cover(num_layers: int, layer: int)
    requires
        0 <= num_layers <= u32::MAX,
        0 <= layer < num_layers,
        num_layers % 3 == 0,
    ensures
        exists|j: int|
            0 <= j < ifft_steps(num_layers).len() && #[trigger] ifft_steps(num_layers)[j] <= layer
                < ifft_steps(num_layers)[j] + 3,
        forall|i: int, j: int|
            #![trigger ifft_steps(num_layers)[i], ifft_steps(num_layers)[j]]
            0 <= i < ifft_steps(num_layers).len() && 0 <= j < ifft_steps(num_layers).len()
                && ifft_steps(num_layers)[i] <= layer < ifft_steps(num_layers)[i] + 3
                && ifft_steps(num_layers)[j] <= layer < ifft_steps(num_layers)[j] + 3 ==> i == j,
        forall|j: int|
            0 <= j < ifft_steps(num_layers).len() ==> #[trigger] ifft_steps(num_layers)[j] + 3
                <= num_layers,
{
    let j = layer / 3;
    assert(ifft_steps(num_layers)[j] == 3 * j);
}

/// The dispatch of step `j`, which does three layers from `layer` on.
pub open spec fn radix8_dispatch(kernel: Kernel, log_size: u32, layer: u32, j: int) ->
    DispatchSpec {
    DispatchSpec {
        kernel,
        bindings: seq![
            Binding::Buffer(0),
            Binding::Buffer((3 * j + 1) as usize),
            Binding::Buffer((3 * j + 2) as usize),
            Binding::Buffer((3 * j + 3) as usize),
            Binding::U32(log_size),
            Binding::U32(layer),
        ],
        grid: grid_of(pow2(layer as nat) as int),
    }
}

/// Buffer `b` of the twiddle buffers: three for each step, those of the finest layer first. The
/// layers of twiddles are numbered from the coarsest on.
pub open spec fn radix8_twiddles(twiddles: Seq<u32>, num_layers: nat, steps: Seq<u32>, b: int) ->
    AllocationSpec {
    AllocationSpec::Data(
        twiddle_layer(twiddles, num_layers, num_layers - 1 - (steps[b / 3] + b % 3)),
    )
}

/// Radix-8 steps over data in place, each in a command buffer of its own.
pub open spec fn radix8_submission(
    kernel: Kernel,
    data: Seq<u32>,
    twiddles: Seq<u32>,
    num_layers: nat,
    log_size: u32,
    steps: Seq<u32>,
) -> SubmissionSpec {
    SubmissionSpec {
        buffers: seq![AllocationSpec::Data(data)] + Seq::new(
            3 * steps.len(),
            |b: int| radix8_twiddles(twiddles, num_layers, steps, b),
        ),
        command_buffers: Seq::new(
            steps.len(),
            |j: int| seq![CommandSpec::Compute(radix8_dispatch(kernel, log_size, steps[j], j))],
        ),
        readbacks: seq![Readback { slot: 0, words: data.len() as usize }],
    }
}

/// The steps of a forward transform.
fn plan_fft_steps(num_layers: u32) -> (v: Vec<u32>)
    ensures
        v@ == fft_steps(num_layers as int),
{
    let max: u32 = if num_layers >= 3 {
        num_layers - 2
    } else {
        0
    };
    let count: u32 = if max > VECWISE_FFT_BITS {
        (max - VECWISE_FFT_BITS + 2) / 3
    } else {
        0
    };
    let mut v: Vec<u32> = Vec::new();
    let mut j: u32 = 0;
    while j < count
        invariant
            j <= count,
            count == fft_step_count(num_layers as int),
            3 * count <= num_layers - 5 || count == 0,
            v@ == fft_steps(num_layers as int).take(j as int),
        decreases count - j,
    {
        v.push(VECWISE_FFT_BITS + 3 * (count - 1 - j));
        j = j + 1;
        assert(v@ =~= fft_steps(num_layers as int).take(j as int));
    }
    assert(fft_steps(num_layers as int).take(j as int) =~= fft_steps(num_layers as int));
    v
}

/// The steps of an inverse transform.
fn plan_ifft_steps(num_layers: u32) -> (v: Vec<u32>)
    ensures
        v@ == ifft_steps(num_layers as int),
{
    let mut v: Vec<u32> = Vec::new();
    let mut j: u32 = 0;
    while j < num_layers / 3
        invariant
            j <= num_layers / 3,
            v@ == ifft_steps(num_layers as int).take(j as int),
        decreases num_layers / 3 - j,
    {
        v.push(3 * j);
        j = j + 1;
        assert(v@ =~= ifft_steps(num_layers as int).take(j as int));
    }
    assert(ifft_steps(num_layers as int).take(j as int) =~= ifft_steps(num_layers as int));
    v
}

/// The GPU work for radix-8 steps.
fn submit_radix8(
    kernel: Kernel,
    data: Vec<u32>,
    twiddles: &[u32],
    domain: LineDomain,
    log_size: u32,
    steps: &[u32],
) -> (s: Submission)
    requires
        domain.coset.fits(),
        has_layers(twiddles@, domain.coset.log_size as nat),
        3 * steps@.len() <= domain.coset.log_size,
        forall|j: int|
            0 <= j < steps@.len() ==> #[trigger] steps@[j] + 3 <= domain.coset.log_size,
    ensures
        s@ == radix8_submission(
            kernel,
            data@,
            twiddles@,
            domain.coset.log_size as nat,
            log_size,
            steps@,
        ),
{
    let ghost num = domain.coset.log_size as nat;
    let ghost want = radix8_submission(kernel, data@, twiddles@, num, log_size, steps@);
    let words: usize = data.len();
    let slices: Vec<&[u32]> = domain_line_twiddles_from_tree(domain, twiddles);
    let layers: u32 = domain.coset.log_size;
    let data_buffer = Allocation::Data(data);
    let mut buffers: Vec<Allocation> = Vec::new();
    proof {
        lemma_allocation_views_push(buffers@, data_buffer);
    }
    buffers.push(data_buffer);
    let mut command_buffers: Vec<Vec<Command>> = Vec::new();
    let mut j: usize = 0;
    assert(allocation_views(buffers@) =~= want.buffers.take(1));
    while j < steps.len()
        invariant
            j <= steps@.len(),
            layers == num,
            layers < usize::BITS,
            has_layers(twiddles@, num),
            3 * steps@.len() <= num,
            forall|j: int| 0 <= j < steps@.len() ==> #[trigger] steps@[j] + 3 <= num,
            slices@.len() == num,
            forall|i: int|
                0 <= i < slices@.len() ==> (#[trigger] slices@[i])@ == twiddle_layer(
                    twiddles@,
                    num,
                    i,
                ),
            want.buffers.len() == 3 * steps@.len() + 1,
            forall|b: int|
                0 <= b < 3 * steps@.len() ==> #[trigger] want.buffers[b + 1] == radix8_twiddles(
                    twiddles@,
                    num,
                    steps@,
                    b,
                ),
            allocation_views(buffers@) == want.buffers.take(3 * j + 1),
            command_buffers@.len() == j,
            forall|i: int|
                0 <= i < j ==> command_views((#[trigger] command_buffers@[i])@) == seq![
                    CommandSpec::Compute(radix8_dispatch(kernel, log_size, steps@[i], i)),
                ],
        decreases steps@.len() - j,
    {
        let layer: u32 = steps[j];
        assert(steps@[j as int] + 3 <= num);
        let top: usize = (layers - 1 - layer) as usize;
        let tw0: Allocation = Allocation::Data(copy_slice(slices[top]));
        let tw1: Allocation = Allocation::Data(copy_slice(slices[top - 1]));
        let tw2: Allocation = Allocation::Data(copy_slice(slices[top - 2]));
        proof {
            let b = 3 * j as int;
            assert(b / 3 == j && b % 3 == 0);
            assert((b + 1) / 3 == j && (b + 1) % 3 == 1);
            assert((b + 2) / 3 == j && (b + 2) % 3 == 2);
            assert(want.buffers[b + 1] == tw0@);
            assert(want.buffers[(b + 1) + 1] == tw1@);
            assert(want.buffers[(b + 2) + 1] == tw2@);
            lemma_allocation_views_push(buffers@, tw0);
            lemma_allocation_views_push(buffers@.push(tw0), tw1);
            lemma_allocation_views_push(buffers@.push(tw0).push(tw1), tw2);
            lemma_twiddle_layer(twiddles@, num, num - 1 - layer);
        }
        buffers.push(tw0);
        buffers.push(tw1);
        buffers.push(tw2);
        let threads: u64 = pow2_usize(layer) as u64;
        assert(twiddles.len() == twiddles@.len());
        let dispatch = Dispatch {
            kernel,
            bindings: vec![
                Binding::Buffer(0),
                Binding::Buffer(3 * j + 1),
                Binding::Buffer(3 * j + 2),
                Binding::Buffer(3 * j + 3),
                Binding::U32(log_size),
                Binding::U32(layer),
            ],
            grid: grid(threads),
        };
        assert(dispatch@ =~= radix8_dispatch(kernel, log_size, layer, j as int));
        let commands: Vec<Command> = vec![Command::Compute(dispatch)];
        assert(command_views(commands@) =~= seq![
            CommandSpec::Compute(radix8_dispatch(kernel, log_size, layer, j as int)),
        ]);
        command_buffers.push(commands);
        j = j + 1;
        assert(allocation_views(buffers@) =~= want.buffers.take(3 * j + 1));
    }
    assert(want.buffers.take(3 * j + 1) =~= want.buffers);
    let s = Submission {
        buffers,
        command_buffers,
        readbacks: vec![Readback { slot: 0, words }],
    };
    proof {
        assert(s@.command_buffers =~= want.command_buffers);
        assert(s@.readbacks =~= want.readbacks);
    }
    s
}

/// An evaluation for the SIMD backend.
pub struct SimdEvaluate<'a> {
    pub poly: CircleCoefficients<SimdBackend>,
    pub domain: CircleDomain,
    pub twiddles: &'a TwiddleTree,
}

/// How a polynomial is evaluated.
pub enum EvaluatePlan<'a> {
    Simd(SimdEvaluate<'a>),
    Gpu(Submission),
}

/// What came back: the evaluation from the SIMD backend, or the words that the GPU wrote.
pub enum EvaluateReply {
    Simd(CircleEvaluation<SimdBackend>),
    Gpu(Vec<u32>),
}

/// An interpolation for the SIMD backend.
pub struct SimdInterpolate<'a> {
    pub eval: CircleEvaluation<SimdBackend>,
    pub twiddles: &'a TwiddleTree,
}

/// How a polynomial is interpolated.
pub enum InterpolatePlan<'a> {
    Simd(SimdInterpolate<'a>),
    Gpu(Submission),
}

/// What came back: the coefficients from the SIMD backend, or the words that the GPU wrote.
pub enum InterpolateReply {
    Simd(CircleCoefficients<SimdBackend>),
    Gpu(Vec<u32>),
}

/// An evaluation at one point for the SIMD backend, which answers with the value.
pub struct SimdEvalAtPoint {
    pub poly: CircleCoefficients<SimdBackend>,
    pub point: CirclePoint<SecureField>,
}

/// An evaluation at one point from values on a domain, for the SIMD backend, which answers with
/// the value.
pub struct SimdEvalAtPointByFolding<'a> {
    pub evals: CircleEvaluation<SimdBackend>,
    pub point: CirclePoint<SecureField>,
    pub twiddles: &'a TwiddleTree,
}

/// An extension to `2^log_size` coefficients for the SIMD backend.
pub struct SimdExtend {
    pub poly: CircleCoefficients<SimdBackend>,
    pub log_size: u32,
}

/// The same coefficients.
pub open spec fn same_coefficients<A: Backend, B: Backend>(
    a: CircleCoefficients<A>,
    b: CircleCoefficients<B>,
) -> bool {
    a.log_size == b.log_size && a.coeffs.elements() == b.coeffs.elements()
}

/// The same values on the same domain.
pub open spec fn same_evaluation<A: Backend, B: Backend>(
    a: CircleEvaluation<A>,
    b: CircleEvaluation<B>,
) -> bool {
    a.domain == b.domain && a.values.elements() == b.values.elements()
}

/// The plan of an evaluation: a request for the SIMD backend that hands everything on.
pub open spec fn is_evaluate_plan(
    plan: EvaluatePlan<'_>,
    poly: CircleCoefficients<MetalBackend>,
    domain: CircleDomain,
    twiddles: TwiddleTree,
) -> bool {
    plan matches EvaluatePlan::Simd(request) && request.poly.wf() && same_coefficients(
        request.poly,
        poly,
    ) && request.domain == domain && *request.twiddles == twiddles
}

/// The evaluation that a reply stands for.
pub open spec fn is_finished_evaluation(
    eval: CircleEvaluation<MetalBackend>,
    domain: CircleDomain,
    reply: EvaluateReply,
) -> bool {
    match reply {
        EvaluateReply::Simd(result) => same_evaluation(eval, result),
        EvaluateReply::Gpu(words) => eval.domain == domain && raw(eval.values@) == words@,
    }
}

/// The plan of an interpolation: a request for the SIMD backend that hands everything on.
pub open spec fn is_interpolate_plan(
    plan: InterpolatePlan<'_>,
    eval: CircleEvaluation<MetalBackend>,
    twiddles: TwiddleTree,
) -> bool {
    plan matches InterpolatePlan::Simd(request) && request.eval.wf() && same_evaluation(
        request.eval,
        eval,
    ) && *request.twiddles == twiddles
}

/// The coefficients that a reply stands for.
pub open spec fn is_finished_interpolation(
    poly: CircleCoefficients<MetalBackend>,
    reply: InterpolateReply,
) -> bool {
    match reply {
        InterpolateReply::Simd(result) => same_coefficients(poly, result),
        InterpolateReply::Gpu(words) => raw(poly.coeffs@) == words@,
    }
}

/// The coefficients for the SIMD backend.
fn coefficients_to_simd(poly: &CircleCoefficients<MetalBackend>) -> (r: CircleCoefficients<
    SimdBackend,
>)
    requires
        poly.wf(),
    ensures
        r.wf(),
        same_coefficients(r, *poly),
{
    CircleCoefficients { coeffs: convert(&poly.coeffs), log_size: poly.log_size }
}

/// The same coefficients in a buffer.
fn coefficients_from_simd(poly: &CircleCoefficients<SimdBackend>) -> (r: CircleCoefficients<
    MetalBackend,
>)
    requires
        poly.wf(),
    ensures
        r.wf(),
        same_coefficients(r, *poly),
{
    proof {
        lemma_log2_of_pow2(poly.log_size as nat);
    }
    let r: CircleCoefficients<MetalBackend> = CircleCoefficients::new(convert(&poly.coeffs));
    proof {
        lemma_log2_of_pow2(r.log_size as nat);
    }
    r
}

/// The evaluation for the SIMD backend.
pub(crate) fn evaluation_to_simd(eval: &CircleEvaluation<MetalBackend>) -> (r: CircleEvaluation<
    SimdBackend,
>)
    requires
        eval.wf(),
    ensures
        r.wf(),
        same_evaluation(r, *eval),
{
    CircleEvaluation::new(eval.domain, convert(&eval.values))
}

/// The column of words that the GPU wrote.
fn column_of_words(words: &[u32]) -> (c: MetalBaseColumn)
    ensures
        c.wf(),
        raw(c@) == words@,
{
    let buffer = Buffer::with_words(words);
    assert(raw(buffer@).len() == buffer@.len());
    let c = MetalBaseColumn::from_buffer(buffer, words.len());
    assert(c@ =~= buffer@);
    c
}

impl MetalBackend {
    /// Plans the evaluation of a polynomial on a domain.
    pub fn evaluate<'a>(
        poly: &CircleCoefficients<MetalBackend>,
        domain: CircleDomain,
        twiddles: &'a TwiddleTree,
    ) -> (plan: EvaluatePlan<'a>)
        requires
            poly.wf(),
            poly.log_size >= 1,
        ensures
            is_evaluate_plan(plan, *poly, domain, *twiddles),
    {
        if falls_back(poly.log_size) {
            return EvaluatePlan::Simd(
                SimdEvaluate { poly: coefficients_to_simd(poly), domain, twiddles },
            );
        }
        EvaluatePlan::Gpu(MetalBackend::fft_radix8_submission(poly, domain, twiddles))
    }

    /// The GPU work for the layers of an evaluation that come in threes.
    pub fn fft_radix8_submission(
        poly: &CircleCoefficients<MetalBackend>,
        domain: CircleDomain,
        twiddles: &TwiddleTree,
    ) -> (s: Submission)
        requires
            poly.wf(),
            domain.fits(),
            has_layers(twiddles.twiddles@, domain.half_coset.log_size as nat),
        ensures
            s@ == radix8_submission(
                Kernel::FftRadix8,
                raw(poly.coeffs@),
                twiddles.twiddles@,
                domain.half_coset.log_size as nat,
                poly.log_size,
                fft_steps(domain.half_coset.log_size as int),
            ),
    {
        let steps: Vec<u32> = plan_fft_steps(domain.half_coset.log_size);
        submit_radix8(
            Kernel::FftRadix8,
            raw_words(poly.coeffs.as_slice()),
            twiddles.twiddles.as_slice(),
            domain.line_domain(),
            poly.log_size,
            steps.as_slice(),
        )
    }

    /// The evaluation on a domain that the plan was for.
    pub fn finish_evaluate(domain: CircleDomain, reply: EvaluateReply) -> (eval: CircleEvaluation<
        MetalBackend,
    >)
        requires
            match reply {
                EvaluateReply::Simd(result) => result.wf(),
                EvaluateReply::Gpu(words) => domain.fits() && words@.len() == pow2(
                    domain.spec_log_size(),
                ),
            },
        ensures
            eval.wf(),
            is_finished_evaluation(eval, domain, reply),
    {
        match reply {
            EvaluateReply::Simd(result) => CircleEvaluation::new(
                result.domain,
                convert(&result.values),
            ),
            EvaluateReply::Gpu(words) => {
                let values: MetalBaseColumn = column_of_words(words.as_slice());
                assert(raw(values@).len() == values@.len());
                CircleEvaluation::new(domain, values)
            },
        }
    }

    /// Plans the interpolation of values on a domain.
    pub fn interpolate<'a>(
        eval: CircleEvaluation<MetalBackend>,
        twiddles: &'a TwiddleTree,
    ) -> (plan: InterpolatePlan<'a>)
        requires
            eval.wf(),
        ensures
            is_interpolate_plan(plan, eval, *twiddles),
    {
        if falls_back(eval.domain.log_size()) {
            return InterpolatePlan::Simd(
                SimdInterpolate { eval: evaluation_to_simd(&eval), twiddles },
            );
        }
        InterpolatePlan::Gpu(MetalBackend::ifft_radix8_submission(&eval, twiddles))
    }

    /// The GPU work for the layers of an interpolation that come in threes.
    pub fn ifft_radix8_submission(
        eval: &CircleEvaluation<MetalBackend>,
        twiddles: &TwiddleTree,
    ) -> (s: Submission)
        requires
            eval.wf(),
            has_layers(twiddles.itwiddles@, eval.domain.half_coset.log_size as nat),
        ensures
            s@ == radix8_submission(
                Kernel::IfftRadix8,
                raw(eval.values@),
                twiddles.itwiddles@,
                eval.domain.half_coset.log_size as nat,
                eval.domain.spec_log_size() as u32,
                ifft_steps(eval.domain.half_coset.log_size as int),
            ),
    {
        let steps: Vec<u32> = plan_ifft_steps(eval.domain.half_coset.log_size);
        submit_radix8(
            Kernel::IfftRadix8,
            raw_words(eval.values.as_slice()),
            twiddles.itwiddles.as_slice(),
            eval.domain.line_domain(),
            eval.domain.log_size(),
            steps.as_slice(),
        )
    }

    /// The coefficients that the plan was for.
    pub fn finish_interpolate(reply: InterpolateReply) -> (poly: CircleCoefficients<MetalBackend>)
        requires
            match reply {
                InterpolateReply::Simd(result) => result.wf(),
                InterpolateReply::Gpu(words) => is_power_of_two(words@.len()),
            },
        ensures
            poly.wf(),
            is_finished_interpolation(poly, reply),
    {
        match reply {
            InterpolateReply::Simd(result) => coefficients_from_simd(&result),
            InterpolateReply::Gpu(words) => {
                let coeffs: MetalBaseColumn = column_of_words(words.as_slice());
                assert(raw(coeffs@).len() == coeffs@.len());
                CircleCoefficients::new(coeffs)
            },
        }
    }

    /// Plans the evaluation of a polynomial at one point.
    pub fn eval_at_point(
        poly: &CircleCoefficients<MetalBackend>,
        point: CirclePoint<SecureField>,
    ) -> (request: SimdEvalAtPoint)
        requires
            poly.wf(),
        ensures
            request.poly.wf(),
            same_coefficients(request.poly, *poly),
            request.point == point,
    {
        SimdEvalAtPoint { poly: coefficients_to_simd(poly), point }
    }

    /// Plans the evaluation at one point of a polynomial that is given by its values.
    pub fn eval_at_point_by_folding<'a>(
        evals: &CircleEvaluation<MetalBackend>,
        point: CirclePoint<SecureField>,
        twiddles: &'a TwiddleTree,
    ) -> (request: SimdEvalAtPointByFolding<'a>)
        requires
            evals.wf(),
        ensures
            request.evals.wf(),
            same_evaluation(request.evals, *evals),
            request.point == point,
            request.twiddles == twiddles,
    {
        SimdEvalAtPointByFolding { evals: evaluation_to_simd(evals), point, twiddles }
    }

    /// Plans the extension of a polynomial to `2^log_size` coefficients.
    pub fn extend(poly: &CircleCoefficients<MetalBackend>, log_size: u32) -> (request: SimdExtend)
        requires
            poly.wf(),
        ensures
            request.poly.wf(),
            same_coefficients(request.poly, *poly),
            request.log_size == log_size,
    {
        SimdExtend { poly: coefficients_to_simd(poly), log_size }
    }

    /// The extended polynomial that the SIMD backend answered with.
    pub fn finish_extend(result: CircleCoefficients<SimdBackend>) -> (poly: CircleCoefficients<
        MetalBackend,
    >)
        requires
            result.wf(),
        ensures
            poly.wf(),
            same_coefficients(poly, result),
    {
        coefficients_from_simd(&result)
    }

    /// The lower and the upper half of the coefficients.
    pub fn split_at_mid(poly: CircleCoefficients<MetalBackend>) -> (r: (
        CircleCoefficients<MetalBackend>,
        CircleCoefficients<MetalBackend>,
    ))
        requires
            poly.wf(),
            poly.log_size >= 1,
        ensures
            r.0.wf(),
            r.1.wf(),
            r.0.log_size == poly.log_size - 1,
            r.1.log_size == poly.log_size - 1,
            r.0.coeffs@ + r.1.coeffs@ == poly.coeffs@,
    {
        let ghost all = poly.coeffs@;
        let ghost log_size = poly.log_size;
        proof {
            lemma_pow2_unfold(log_size as nat);
            lemma_log2_of_pow2((log_size - 1) as nat);
        }
        let (left, right) = poly.coeffs.split_at_mid();
        assert(left@ + right@ =~= all);
        let r: (CircleCoefficients<MetalBackend>, CircleCoefficients<MetalBackend>) = (
            CircleCoefficients::new(left),
            CircleCoefficients::new(right),
        );
        proof {
            lemma_log2_of_pow2(r.0.log_size as nat);
            lemma_log2_of_pow2(r.1.log_size as nat);
        }
        r
    }
}

} // verus!
