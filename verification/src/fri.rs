//! FRI folding.
//!
//! Small evaluations are folded by the SIMD backend. For the others the GPU work is described
//! here, and its output turned back into an evaluation.
use crate::backend::{Backend, MetalBackend, SimdBackend};
use crate::bits::{ilog2, lemma_log2_of_pow2, lemma_pow2_fits, pow2_usize};
use crate::buffer::{qm31_elements, qm31_words, raw, words_of, Buffer};
use crate::circle::{
    domain_line_twiddles_from_tree, has_layers, twiddle_layer, LineDomain, TwiddleTree,
};
use crate::context::{
    asked_for_twiddles, hash_twiddles, holds_twiddles, twiddle_key, MetalContext,
};
use crate::evaluation::{LineEvaluation, SecureEvaluation};
use crate::fields::{qm31_product, SecureField, M31};
use crate::gpu::{
    grid, grid_of, Allocation, AllocationSpec, Binding, Command, CommandSpec, Dispatch,
    DispatchSpec, Kernel, Readback, Submission, SubmissionSpec,
};
use crate::secure_column::SecureColumnByCoords;
use crate::thresholds::MIN_FRI_LOG_SIZE;
use vstd::arithmetic::power2::*;
use vstd::prelude::*;

verus! {

/// The folding of a line for the SIMD backend.
pub struct SimdFoldLine<'a> {
    pub eval: LineEvaluation<SimdBackend>,
    pub alpha: SecureField,
    pub twiddles: &'a TwiddleTree,
}

/// How a line is folded.
pub enum FoldLinePlan<'a> {
    Simd(SimdFoldLine<'a>),
    Gpu(Submission),
}

/// The folding of a circle into a line for the SIMD backend.
pub struct SimdFoldCircle<'a> {
    pub dst: LineEvaluation<SimdBackend>,
    pub src: SecureEvaluation<SimdBackend>,
    pub alpha: SecureField,
    pub twiddles: &'a TwiddleTree,
}

/// How a circle is folded into a line.
pub enum FoldCirclePlan<'a> {
    Simd(SimdFoldCircle<'a>),
    Gpu(Submission),
}

/// What came back: the folded line from the SIMD backend, or the words that the GPU wrote.
pub enum FoldReply {
    Simd(LineEvaluation<SimdBackend>),
    Gpu(Vec<u32>),
}

/// The same values on the same line.
pub open spec fn same_line<A: Backend, B: Backend>(
    a: LineEvaluation<A>,
    b: LineEvaluation<B>,
) -> bool {
    a.domain == b.domain && a.values.coords() == b.values.coords()
}

/// The same values on the same circle domain.
pub open spec fn same_secure<A: Backend, B: Backend>(
    a: SecureEvaluation<A>,
    b: SecureEvaluation<B>,
) -> bool {
    a.domain == b.domain && a.values.coords() == b.values.coords()
}

/// The inverse twiddles of the longest layer of a domain.
pub open spec fn first_itwiddles(twiddles: TwiddleTree, domain: LineDomain) -> Seq<u32> {
    twiddle_layer(twiddles.itwiddles@, domain.coset.log_size as nat, 0)
}

/// Folding a line of `2^log_size` elements, given by their words.
pub open spec fn fold_line_submission(
    input: Seq<u32>,
    key: u64,
    twiddles: Seq<u32>,
    cached: bool,
    alpha: SecureField,
    log_size: u32,
) -> SubmissionSpec {
    let half = pow2((log_size - 1) as nat) as int;
    SubmissionSpec {
        buffers: seq![
            AllocationSpec::Data(input),
            AllocationSpec::Pooled((16 * half) as u64),
            AllocationSpec::Twiddles { key, words: twiddles, cached },
            AllocationSpec::Data(raw(alpha.words())),
        ],
        command_buffers: seq![
            seq![
                CommandSpec::Compute(
                    DispatchSpec {
                        kernel: Kernel::FriFoldLine,
                        bindings: seq![
                            Binding::Buffer(0),
                            Binding::Buffer(1),
                            Binding::Buffer(2),
                            Binding::Buffer(3),
                            Binding::U32(log_size),
                        ],
                        grid: grid_of(half),
                    },
                ),
            ],
        ],
        readbacks: seq![Readback { slot: 1, words: (4 * half) as usize }],
    }
}

/// Folding a circle of `2^log_size` elements into a line that is already there, both given by
/// the words of their elements.
pub open spec fn fold_circle_submission(
    src: Seq<u32>,
    dst: Seq<u32>,
    key: u64,
    twiddles: Seq<u32>,
    cached: bool,
    alpha: SecureField,
    log_size: u32,
) -> SubmissionSpec {
    let half = pow2((log_size - 1) as nat) as int;
    SubmissionSpec {
        buffers: seq![
            AllocationSpec::Data(src),
            AllocationSpec::Data(dst),
            AllocationSpec::Twiddles { key, words: twiddles, cached },
            AllocationSpec::Data(raw(alpha.words())),
            AllocationSpec::Data(raw(qm31_product(alpha, alpha).words())),
        ],
        command_buffers: seq![
            seq![
                CommandSpec::Compute(
                    DispatchSpec {
                        kernel: Kernel::FriFoldCircle,
                        bindings: seq![
                            Binding::Buffer(0),
                            Binding::Buffer(1),
                            Binding::Buffer(2),
                            Binding::Buffer(3),
                            Binding::Buffer(4),
                            Binding::U32(log_size),
                        ],
                        grid: grid_of(half),
                    },
                ),
            ],
        ],
        readbacks: seq![Readback { slot: 1, words: (4 * half) as usize }],
    }
}

/// The plan of the folding of a line, with the inverse twiddles in the cache of the context or
/// not.
pub open spec fn is_fold_line_plan(
    plan: FoldLinePlan<'_>,
    eval: LineEvaluation<MetalBackend>,
    alpha: SecureField,
    twiddles: TwiddleTree,
    cached: bool,
) -> bool {
    match plan {
        FoldLinePlan::Simd(request) => {
            &&& eval.domain.coset.log_size < MIN_FRI_LOG_SIZE
            &&& request.eval.wf()
            &&& same_line(request.eval, eval)
            &&& request.alpha == alpha
            &&& *request.twiddles == twiddles
        },
        FoldLinePlan::Gpu(s) => {
            let itwiddles = first_itwiddles(twiddles, eval.domain);
            &&& eval.domain.coset.log_size >= MIN_FRI_LOG_SIZE
            &&& s@ == fold_line_submission(
                raw(qm31_words(eval.values.elements())),
                twiddle_key(itwiddles),
                itwiddles,
                cached,
                alpha,
                eval.domain.coset.log_size,
            )
        },
    }
}

/// The folded line that a reply to the plan for a line on `domain` stands for.
pub open spec fn is_folded_line(
    line: LineEvaluation<MetalBackend>,
    domain: LineDomain,
    reply: FoldReply,
) -> bool {
    match reply {
        FoldReply::Simd(result) => same_line(line, result),
        FoldReply::Gpu(words) => {
            &&& line.domain.coset == domain.coset.doubled()
            &&& line.values.complete()
            &&& line.values.elements() == qm31_elements(
                words_of(words@),
                pow2((domain.coset.log_size - 1) as nat),
            )
            &&& forall|k: int|
                0 <= k < 4 ==> #[trigger] line.values.coord(k).len() == pow2(
                    (domain.coset.log_size - 1) as nat,
                )
        },
    }
}

/// The plan of the folding of a circle into a line, with the inverse twiddles in the cache of the
/// context or not.
pub open spec fn is_fold_circle_plan(
    plan: FoldCirclePlan<'_>,
    dst: LineEvaluation<MetalBackend>,
    src: SecureEvaluation<MetalBackend>,
    alpha: SecureField,
    twiddles: TwiddleTree,
    cached: bool,
) -> bool {
    match plan {
        FoldCirclePlan::Simd(request) => {
            &&& src.domain.spec_log_size() < MIN_FRI_LOG_SIZE
            &&& request.dst.wf()
            &&& same_line(request.dst, dst)
            &&& request.src.wf()
            &&& same_secure(request.src, src)
            &&& request.alpha == alpha
            &&& *request.twiddles == twiddles
        },
        FoldCirclePlan::Gpu(s) => {
            let itwiddles = first_itwiddles(
                twiddles,
                LineDomain { coset: src.domain.half_coset },
            );
            &&& src.domain.spec_log_size() >= MIN_FRI_LOG_SIZE
            &&& s@ == fold_circle_submission(
                raw(qm31_words(src.values.elements())),
                raw(qm31_words(dst.values.elements())),
                twiddle_key(itwiddles),
                itwiddles,
                cached,
                alpha,
                src.domain.spec_log_size() as u32,
            )
        },
    }
}

/// The values of the line that a reply to the plan for a circle of `2^log_size` elements stands
/// for.
pub open spec fn is_folded_circle(
    values: SecureColumnByCoords<MetalBackend>,
    log_size: u32,
    reply: FoldReply,
) -> bool {
    match reply {
        FoldReply::Simd(result) => values.coords() == result.values.coords(),
        FoldReply::Gpu(words) => {
            &&& values.complete()
            &&& values.elements() == qm31_elements(
                words_of(words@),
                pow2((log_size - 1) as nat),
            )
            &&& forall|k: int|
                0 <= k < 4 ==> #[trigger] values.coord(k).len() == pow2((log_size - 1) as nat)
        },
    }
}

/// The words of one element.
pub(crate) fn element_words(element: &SecureField) -> (v: Vec<u32>)
    ensures
        v@ == raw(element.words()),
{
    let coords: [M31; 4] = element.to_m31_array();
    let v: Vec<u32> = vec![coords[0].0, coords[1].0, coords[2].0, coords[3].0];
    assert(v@ =~= raw(element.words()));
    v
}

/// The line for the SIMD backend.
fn line_to_simd(eval: &LineEvaluation<MetalBackend>) -> (r: LineEvaluation<SimdBackend>)
    requires
        eval.wf(),
    ensures
        r.wf(),
        same_line(r, *eval),
{
    LineEvaluation::new(eval.domain, eval.values.to_simd())
}

/// The evaluation for the SIMD backend.
fn secure_to_simd(eval: &SecureEvaluation<MetalBackend>) -> (r: SecureEvaluation<SimdBackend>)
    requires
        eval.wf(),
    ensures
        r.wf(),
        same_secure(r, *eval),
{
    SecureEvaluation::new(eval.domain, eval.values.to_simd())
}

/// The inverse twiddles of the longest layer of a domain out of the cache of a context: their
/// key, their words, and whether they were there already.
fn cached_itwiddles<D, Q, P>(
    ctx: &mut MetalContext<D, Q, P>,
    twiddles: &TwiddleTree,
    domain: LineDomain,
) -> (r: (u64, Vec<u32>, bool))
    requires
        domain.coset.fits(),
        domain.coset.log_size >= 1,
        has_layers(twiddles.itwiddles@, domain.coset.log_size as nat),
    ensures
        asked_for_twiddles(*old(ctx), *final(ctx), first_itwiddles(*twiddles, domain)),
        r.0 == twiddle_key(first_itwiddles(*twiddles, domain)),
        r.1@ == first_itwiddles(*twiddles, domain),
        r.2 == holds_twiddles(old(ctx).twiddle_buffers(), first_itwiddles(*twiddles, domain)),
{
    let layers: Vec<&[u32]> = domain_line_twiddles_from_tree(
        domain,
        twiddles.itwiddles.as_slice(),
    );
    let first: &[u32] = layers[0];
    let key: u64 = hash_twiddles(first);
    let cached: bool = ctx.has_twiddle_buffer(first);
    let words: Vec<u32> = ctx.get_or_create_twiddle_buffer(first).to_words();
    (key, words, cached)
}

impl MetalBackend {
    /// Plans the folding of a line: half as many elements, on the domain of the doubled points.
    pub fn fold_line<'a, D, Q, P>(
        ctx: &mut MetalContext<D, Q, P>,
        eval: &LineEvaluation<MetalBackend>,
        alpha: SecureField,
        twiddles: &'a TwiddleTree,
    ) -> (plan: FoldLinePlan<'a>)
        requires
            eval.wf(),
            eval.domain.coset.log_size >= MIN_FRI_LOG_SIZE ==> eval.values.complete() && has_layers(
                twiddles.itwiddles@,
                eval.domain.coset.log_size as nat,
            ) && 8 * pow2(eval.domain.coset.log_size as nat) <= usize::MAX,
        ensures
            is_fold_line_plan(
                plan,
                *eval,
                alpha,
                *twiddles,
                holds_twiddles(
                    old(ctx).twiddle_buffers(),
                    first_itwiddles(*twiddles, eval.domain),
                ),
            ),
            match plan {
                FoldLinePlan::Simd(_) => *final(ctx) == *old(ctx),
                FoldLinePlan::Gpu(_) => asked_for_twiddles(
                    *old(ctx),
                    *final(ctx),
                    first_itwiddles(*twiddles, eval.domain),
                ),
            },
    {
        proof {
            lemma_log2_of_pow2(eval.domain.coset.log_size as nat);
            lemma_pow2_pos(eval.domain.coset.log_size as nat);
        }
        let log_size: u32 = ilog2(eval.values.len());
        if log_size < MIN_FRI_LOG_SIZE {
            return FoldLinePlan::Simd(SimdFoldLine { eval: line_to_simd(eval), alpha, twiddles });
        }
        let (key, words, cached) = cached_itwiddles(ctx, twiddles, eval.domain);
        let input: Vec<u32> = eval.values.as_qm31_interleaved_u32_buffer().to_words();
        proof {
            lemma_pow2_unfold(log_size as nat);
        }
        let half: usize = pow2_usize(log_size - 1);
        let ghost ends = (input@, words@);
        let s = Submission {
            buffers: vec![
                Allocation::Data(input),
                Allocation::Pooled((half * 4 * 4) as u64),
                Allocation::Twiddles { key, words, cached },
                Allocation::Data(element_words(&alpha)),
            ],
            command_buffers: vec![vec![
                Command::Compute(
                    Dispatch {
                        kernel: Kernel::FriFoldLine,
                        bindings: vec![
                            Binding::Buffer(0),
                            Binding::Buffer(1),
                            Binding::Buffer(2),
                            Binding::Buffer(3),
                            Binding::U32(log_size),
                        ],
                        grid: grid(half as u64),
                    },
                ),
            ]],
            readbacks: vec![Readback { slot: 1, words: half * 4 }],
        };
        assert(s@ =~~= fold_line_submission(ends.0, key, ends.1, cached, alpha, log_size));
        FoldLinePlan::Gpu(s)
    }

    /// The folded line that the plan for a line on `domain` was for.
    pub fn finish_fold_line(domain: LineDomain, reply: FoldReply) -> (line: LineEvaluation<
        MetalBackend,
    >)
        requires
            match reply {
                FoldReply::Simd(result) => result.wf(),
                FoldReply::Gpu(words) => domain.coset.log_size >= 1 && 4 * pow2(
                    (domain.coset.log_size - 1) as nat,
                ) <= words@.len(),
            },
        ensures
            line.wf(),
            is_folded_line(line, domain, reply),
    {
        match reply {
            FoldReply::Simd(result) => LineEvaluation::new(
                result.domain,
                SecureColumnByCoords::from_simd(result.values),
            ),
            FoldReply::Gpu(words) => {
                assert(words.len() == words@.len());
                proof {
                    lemma_pow2_fits((domain.coset.log_size - 1) as nat);
                }
                let half: usize = pow2_usize(domain.coset.log_size - 1);
                let buffer = Buffer::with_words(words.as_slice());
                LineEvaluation::new(
                    domain.double(),
                    SecureColumnByCoords::from_qm31_interleaved_buffer(&buffer, half),
                )
            },
        }
    }

    /// Plans the folding of a circle into a line that is already there.
    pub fn fold_circle_into_line<'a, D, Q, P>(
        ctx: &mut MetalContext<D, Q, P>,
        dst: &LineEvaluation<MetalBackend>,
        src: &SecureEvaluation<MetalBackend>,
        alpha: SecureField,
        twiddles: &'a TwiddleTree,
    ) -> (plan: FoldCirclePlan<'a>)
        requires
            dst.wf(),
            src.wf(),
            src.domain.spec_log_size() >= MIN_FRI_LOG_SIZE ==> src.values.complete()
                && dst.values.complete() && has_layers(
                twiddles.itwiddles@,
                src.domain.half_coset.log_size as nat,
            ) && 8 * pow2(src.domain.spec_log_size()) <= usize::MAX
                && dst.values.elements().len() >= pow2(src.domain.half_coset.log_size as nat),
        ensures
            is_fold_circle_plan(
                plan,
                *dst,
                *src,
                alpha,
                *twiddles,
                holds_twiddles(
                    old(ctx).twiddle_buffers(),
                    first_itwiddles(*twiddles, LineDomain { coset: src.domain.half_coset }),
                ),
            ),
            match plan {
                FoldCirclePlan::Simd(_) => *final(ctx) == *old(ctx),
                FoldCirclePlan::Gpu(_) => asked_for_twiddles(
                    *old(ctx),
                    *final(ctx),
                    first_itwiddles(*twiddles, LineDomain { coset: src.domain.half_coset }),
                ),
            },
    {
        proof {
            lemma_log2_of_pow2(src.domain.spec_log_size());
            lemma_pow2_pos(src.domain.spec_log_size());
        }
        let log_size: u32 = ilog2(src.values.len());
        if log_size < MIN_FRI_LOG_SIZE {
            return FoldCirclePlan::Simd(
                SimdFoldCircle {
                    dst: line_to_simd(dst),
                    src: secure_to_simd(src),
                    alpha,
                    twiddles,
                },
            );
        }
        let alpha_sq: SecureField = alpha.mul(&alpha);
        let (key, words, cached) = cached_itwiddles(ctx, twiddles, src.domain.line_domain());
        let src_words: Vec<u32> = src.values.as_qm31_interleaved_u32_buffer().to_words();
        let dst_words: Vec<u32> = dst.values.as_qm31_interleaved_u32_buffer().to_words();
        proof {
            lemma_pow2_unfold(log_size as nat);
        }
        let half: usize = pow2_usize(log_size - 1);
        let ghost ends = (src_words@, dst_words@, words@);
        let s = Submission {
            buffers: vec![
                Allocation::Data(src_words),
                Allocation::Data(dst_words),
                Allocation::Twiddles { key, words, cached },
                Allocation::Data(element_words(&alpha)),
                Allocation::Data(element_words(&alpha_sq)),
            ],
            command_buffers: vec![vec![
                Command::Compute(
                    Dispatch {
                        kernel: Kernel::FriFoldCircle,
                        bindings: vec![
                            Binding::Buffer(0),
                            Binding::Buffer(1),
                            Binding::Buffer(2),
                            Binding::Buffer(3),
                            Binding::Buffer(4),
                            Binding::U32(log_size),
                        ],
                        grid: grid(half as u64),
                    },
                ),
            ]],
            readbacks: vec![Readback { slot: 1, words: half * 4 }],
        };
        assert(s@ =~~= fold_circle_submission(
            ends.0,
            ends.1,
            key,
            ends.2,
            cached,
            alpha,
            log_size,
        ));
        FoldCirclePlan::Gpu(s)
    }

    /// Replaces the values of the line that the plan for a circle of `2^log_size` elements was
    /// for. The domain of the line stays.
    pub fn finish_fold_circle_into_line(
        dst: &mut LineEvaluation<MetalBackend>,
        log_size: u32,
        reply: FoldReply,
    )
        requires
            match reply {
                FoldReply::Simd(result) => result.wf(),
                FoldReply::Gpu(words) => log_size >= 1 && 4 * pow2((log_size - 1) as nat)
                    <= words@.len(),
            },
        ensures
            final(dst).domain == old(dst).domain,
            final(dst).values.wf(),
            is_folded_circle(final(dst).values, log_size, reply),
    {
        match reply {
            FoldReply::Simd(result) => {
                dst.values = SecureColumnByCoords::from_simd(result.values);
            },
            FoldReply::Gpu(words) => {
                assert(words.len() == words@.len());
                proof {
                    lemma_pow2_fits((log_size - 1) as nat);
                }
                let half: usize = pow2_usize(log_size - 1);
                let buffer = Buffer::with_words(words.as_slice());
                dst.values = SecureColumnByCoords::from_qm31_interleaved_buffer(&buffer, half);
            },
        }
    }

    /// Plans the decomposition of an evaluation: the SIMD backend takes all of it.
    pub fn decompose(eval: &SecureEvaluation<MetalBackend>) -> (request: SecureEvaluation<
        SimdBackend,
    >)
        requires
            eval.wf(),
        ensures
            request.wf(),
            same_secure(request, *eval),
    {
        secure_to_simd(eval)
    }

    /// The evaluation and the field element that the SIMD backend answered with.
    pub fn finish_decompose(result: SecureEvaluation<SimdBackend>, lambda: SecureField) -> (r: (
        SecureEvaluation<MetalBackend>,
        SecureField,
    ))
        requires
            result.wf(),
        ensures
            r.0.wf(),
            same_secure(r.0, result),
            r.1 == lambda,
    {
        let domain = result.domain;
        (SecureEvaluation::new(domain, SecureColumnByCoords::from_simd(result.values)), lambda)
    }
}

} // verus!
