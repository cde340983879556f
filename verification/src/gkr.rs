//! Multilinear extensions: fixing the first variable.
//!
//! Small extensions are handled by the SIMD backend. For the others the GPU work is described
//! here, and its output turned back into field elements.
use crate::backend::{convert, BaseColumn, MetalBackend, SecureColumn};
use crate::bits::{ilog2, is_power_of_two, log2};
use crate::buffer::{qm31_words, raw, raw_words, write_qm31};
use crate::column::{MetalBaseColumn, MetalSecureColumn};
use crate::fields::{m31, BaseField, SecureField, CM31, QM31};
use crate::fri::element_words;
use crate::gpu::{
    grid, grid_of, Allocation, AllocationSpec, Binding, Command, CommandSpec, Dispatch,
    DispatchSpec, Kernel, Readback, Submission, SubmissionSpec,
};
use crate::thresholds::MIN_MLE_LOG_SIZE;
use vstd::arithmetic::power2::*;
use vstd::prelude::*;

verus! {

/// A multilinear extension, by a column of its values on the hypercube.
#[derive(Debug)]
pub struct Mle<C> {
    pub evals: C,
}

impl Mle<MetalBaseColumn> {
    /// There are as many values as a hypercube has corners.
    pub open spec fn wf(&self) -> bool {
        self.evals.wf() && is_power_of_two(self.evals@.len())
    }

    /// The extension of the given values.
    pub fn new(evals: MetalBaseColumn) -> (r: Mle<MetalBaseColumn>)
        requires
            evals.wf(),
            is_power_of_two(evals@.len()),
        ensures
            r.wf(),
            r.evals == evals,
    {
        Mle { evals }
    }
}

impl Mle<MetalSecureColumn> {
    /// There are as many values as a hypercube has corners.
    pub open spec fn wf(&self) -> bool {
        self.evals.wf() && is_power_of_two(self.evals@.len())
    }

    /// The extension of the given values.
    pub fn new(evals: MetalSecureColumn) -> (r: Mle<MetalSecureColumn>)
        requires
            evals.wf(),
            is_power_of_two(evals@.len()),
        ensures
            r.wf(),
            r.evals == evals,
    {
        Mle { evals }
    }
}

/// Fixing the first variable of an extension with a column `C` for the SIMD backend.
#[derive(Debug)]
pub struct SimdFixFirstVariable<C> {
    pub mle: Mle<C>,
    pub assignment: SecureField,
}

/// How the first variable is fixed.
#[derive(Debug)]
pub enum FixPlan<C> {
    Simd(SimdFixFirstVariable<C>),
    Gpu(Submission),
}

/// What came back: the extension from the SIMD backend, or the words that the GPU wrote.
#[derive(Debug)]
pub enum FixReply {
    Simd(Mle<SecureColumn>),
    Gpu(Vec<u32>),
}

/// The values of `eq` on the hypercube, for the SIMD backend.
#[derive(Debug)]
pub struct SimdGenEqEvals<'a> {
    pub y: &'a [SecureField],
    pub v: SecureField,
}

/// Fixing the first variable of `len` values, given by their words.
pub open spec fn fix_submission(
    kernel: Kernel,
    input: Seq<u32>,
    len: nat,
    assignment: SecureField,
) -> SubmissionSpec {
    let half = (len / 2) as int;
    SubmissionSpec {
        buffers: seq![
            AllocationSpec::Data(input),
            AllocationSpec::Data(Seq::new(4 * (len / 2), |i: int| 0u32)),
            AllocationSpec::Data(raw(assignment.words())),
        ],
        command_buffers: seq![
            seq![
                CommandSpec::Compute(
                    DispatchSpec {
                        kernel,
                        bindings: seq![
                            Binding::Buffer(0),
                            Binding::Buffer(1),
                            Binding::Buffer(2),
                            Binding::U32(log2(len) as u32),
                        ],
                        grid: grid_of(half),
                    },
                ),
            ],
        ],
        readbacks: seq![Readback { slot: 1, words: (4 * half) as usize }],
    }
}

/// The first `len` elements of a sequence of words, each word reduced modulo the field's prime.
pub open spec fn reduced_elements(words: Seq<u32>, len: nat) -> Seq<QM31> {
    Seq::new(
        len,
        |i: int|
            QM31(
                CM31(m31(words[4 * i] as int), m31(words[4 * i + 1] as int)),
                CM31(m31(words[4 * i + 2] as int), m31(words[4 * i + 3] as int)),
            ),
    )
}

/// The GPU work that fixes the first variable.
fn submit_fix(
    kernel: Kernel,
    input: Vec<u32>,
    len: usize,
    log_size: u32,
    assignment: SecureField,
) -> (s: Submission)
    requires
        log_size == log2(len as nat),
        8 * len <= usize::MAX,
    ensures
        s@ == fix_submission(kernel, input@, len as nat, assignment),
{
    let half: usize = len / 2;
    let ghost words = input@;
    let zeros: Vec<u32> = vec![0u32; half * 4];
    assert(zeros@ =~= Seq::new(4 * (len as nat / 2), |i: int| 0u32));
    let s = Submission {
        buffers: vec![
            Allocation::Data(input),
            Allocation::Data(zeros),
            Allocation::Data(element_words(&assignment)),
        ],
        command_buffers: vec![vec![
            Command::Compute(
                Dispatch {
                    kernel,
                    bindings: vec![
                        Binding::Buffer(0),
                        Binding::Buffer(1),
                        Binding::Buffer(2),
                        Binding::U32(log_size),
                    ],
                    grid: grid(half as u64),
                },
            ),
        ]],
        readbacks: vec![Readback { slot: 1, words: half * 4 }],
    };
    assert(s@ =~~= fix_submission(kernel, words, len as nat, assignment));
    s
}

/// The first `len` elements of words, each word reduced.
fn read_reduced(words: &[u32], len: usize) -> (v: Vec<QM31>)
    requires
        4 * len <= words@.len(),
    ensures
        v@ == reduced_elements(words@, len as nat),
{
    let mut v: Vec<QM31> = Vec::with_capacity(len);
    let mut i: usize = 0;
    while i < len
        invariant
            i <= len,
            4 * len <= words.len(),
            v@ == reduced_elements(words@, i as nat),
        decreases len - i,
    {
        v.push(
            QM31::from_m31(
                BaseField::from(words[4 * i]),
                BaseField::from(words[4 * i + 1]),
                BaseField::from(words[4 * i + 2]),
                BaseField::from(words[4 * i + 3]),
            ),
        );
        i = i + 1;
        assert(v@ =~= reduced_elements(words@, i as nat));
    }
    v
}

/// The plan to fix the first variable of an extension over the base field.
pub open spec fn is_fix_m31_plan(
    plan: FixPlan<BaseColumn>,
    mle: Mle<MetalBaseColumn>,
    assignment: SecureField,
) -> bool {
    match plan {
        FixPlan::Simd(request) => {
            &&& log2(mle.evals@.len()) < MIN_MLE_LOG_SIZE
            &&& request.mle.evals@ == mle.evals@
            &&& request.assignment == assignment
        },
        FixPlan::Gpu(s) => {
            &&& log2(mle.evals@.len()) >= MIN_MLE_LOG_SIZE
            &&& s@ == fix_submission(
                Kernel::MleFoldM31,
                raw(mle.evals@),
                mle.evals@.len(),
                assignment,
            )
        },
    }
}

/// The plan to fix the first variable of an extension over the secure field.
pub open spec fn is_fix_qm31_plan(
    plan: FixPlan<SecureColumn>,
    mle: Mle<MetalSecureColumn>,
    assignment: SecureField,
) -> bool {
    match plan {
        FixPlan::Simd(request) => {
            &&& log2(mle.evals@.len()) < MIN_MLE_LOG_SIZE
            &&& request.mle.evals@ == mle.evals@
            &&& request.assignment == assignment
        },
        FixPlan::Gpu(s) => {
            &&& log2(mle.evals@.len()) >= MIN_MLE_LOG_SIZE
            &&& s@ == fix_submission(
                Kernel::MleFoldQm31,
                raw(qm31_words(mle.evals@)),
                mle.evals@.len(),
                assignment,
            )
        },
    }
}

/// The extension that a reply to a plan over `len` values stands for.
pub open spec fn is_fixed(mle: Mle<MetalSecureColumn>, len: usize, reply: FixReply) -> bool {
    match reply {
        FixReply::Simd(result) => mle.evals@ == result.evals@,
        FixReply::Gpu(words) => mle.evals@ == reduced_elements(words@, len as nat / 2),
    }
}

impl MetalBackend {
    /// Plans to fix the first variable of an extension over the base field.
    pub fn fix_first_variable_m31(mle: Mle<MetalBaseColumn>, assignment: SecureField) -> (plan:
        FixPlan<BaseColumn>)
        requires
            mle.wf(),
            log2(mle.evals@.len()) >= MIN_MLE_LOG_SIZE ==> 8 * mle.evals@.len() <= usize::MAX,
        ensures
            is_fix_m31_plan(plan, mle, assignment),
    {
        proof {
            lemma_pow2_pos(log2(mle.evals@.len()));
        }
        let log_size: u32 = ilog2(mle.evals.len());
        if log_size < MIN_MLE_LOG_SIZE {
            let evals: BaseColumn = convert(&mle.evals);
            return FixPlan::Simd(SimdFixFirstVariable { mle: Mle { evals }, assignment });
        }
        let input: Vec<u32> = raw_words(mle.evals.as_slice());
        FixPlan::Gpu(
            submit_fix(Kernel::MleFoldM31, input, mle.evals.len(), log_size, assignment),
        )
    }

    /// Plans to fix the first variable of an extension over the secure field.
    pub fn fix_first_variable_qm31(mle: Mle<MetalSecureColumn>, assignment: SecureField) -> (plan:
        FixPlan<SecureColumn>)
        requires
            mle.wf(),
            log2(mle.evals@.len()) >= MIN_MLE_LOG_SIZE ==> 8 * mle.evals@.len() <= usize::MAX,
        ensures
            is_fix_qm31_plan(plan, mle, assignment),
    {
        proof {
            lemma_pow2_pos(log2(mle.evals@.len()));
        }
        let log_size: u32 = ilog2(mle.evals.len());
        if log_size < MIN_MLE_LOG_SIZE {
            let evals: SecureColumn = convert(&mle.evals);
            return FixPlan::Simd(SimdFixFirstVariable { mle: Mle { evals }, assignment });
        }
        let input: Vec<u32> = raw_words(write_qm31(mle.evals.as_slice()).as_slice());
        FixPlan::Gpu(
            submit_fix(Kernel::MleFoldQm31, input, mle.evals.len(), log_size, assignment),
        )
    }

    /// The extension with its first variable fixed, for a plan over `len` values.
    pub fn finish_fix_first_variable(len: usize, reply: FixReply) -> (mle: Mle<MetalSecureColumn>)
        requires
            match reply {
                FixReply::Simd(result) => is_power_of_two(result.evals@.len()),
                FixReply::Gpu(words) => is_power_of_two(len as nat / 2) && 4 * (len as nat / 2)
                    <= words@.len(),
            },
        ensures
            mle.wf(),
            is_fixed(mle, len, reply),
    {
        match reply {
            FixReply::Simd(result) => {
                let evals: MetalSecureColumn = convert(&result.evals);
                Mle::<MetalSecureColumn>::new(evals)
            },
            FixReply::Gpu(words) => {
                let values: Vec<QM31> = read_reduced(words.as_slice(), len / 2);
                Mle::<MetalSecureColumn>::new(MetalSecureColumn::from_iter(values))
            },
        }
    }

    /// Plans the values of `eq` on the hypercube: the SIMD backend computes them.
    pub fn gen_eq_evals<'a>(y: &'a [SecureField], v: SecureField) -> (request: SimdGenEqEvals<'a>)
        ensures
            request.y == y,
            request.v == v,
    {
        SimdGenEqEvals { y, v }
    }

    /// The extension that the SIMD backend answered with.
    pub fn finish_gen_eq_evals(result: Mle<SecureColumn>) -> (mle: Mle<MetalSecureColumn>)
        requires
            is_power_of_two(result.evals@.len()),
        ensures
            mle.wf(),
            mle.evals@ == result.evals@,
    {
        let evals: MetalSecureColumn = convert(&result.evals);
        Mle::<MetalSecureColumn>::new(evals)
    }
}

/// The coordinates of elements that come back from the GPU are canonical, whatever the words.
pub proof fn law_reduced_canonical(words: Seq<u32>, len: nat, i: int)
    requires
        0 <= i < len,
    ensures
        reduced_elements(words, len)[i].0.0.is_canonical(),
        reduced_elements(words, len)[i].0.1.is_canonical(),
        reduced_elements(words, len)[i].1.0.is_canonical(),
        reduced_elements(words, len)[i].1.1.is_canonical(),
{
}

} // verus!
