//! What fixing a variable hands over and makes of the answer, word by word.
use crate::backend::{BaseColumn, MetalBackend, SecureColumn};
use crate::bits::{lemma_log2_bounds, lemma_log2_of_pow2, log2};
use crate::buffer::{qm31_words, raw, write_qm31};
use crate::column::{MetalBaseColumn, MetalSecureColumn};
use crate::field_laws::{lemma_m31, lemma_unique, stands_for};
use crate::fields::{SecureField, M31, P, QM31};
use crate::fold_laws::{is_data, is_run, lemma_element_words, lemma_grid, lemma_parts};
use crate::gkr::{FixPlan, FixReply, Mle, SimdGenEqEvals};
use crate::gpu::{Allocation, Binding, Kernel, Readback, Submission};
use vstd::arithmetic::power2::*;
use vstd::prelude::*;

verus! {

/// The logarithm of a positive number is at least ten from `2^10` on.
proof fn lemma_ten(len: nat)
    requires
        len > 0,
    ensures
        log2(len) >= 10 <==> len >= 1024,
{
    lemma_log2_bounds(len);
    lemma2_to64();
    if log2(len) > 10 {
        lemma_pow2_strictly_increases(10, log2(len));
    }
    if log2(len) < 9 {
        lemma_pow2_strictly_increases(log2(len), 9);
    }
}

/// Which of the two backends fixes a variable over the base field, and what the SIMD backend is
/// handed: the same values and the assignment.
pub proof fn law_fix_m31_request(
    mle: Mle<MetalBaseColumn>,
    assignment: SecureField,
    plan: FixPlan<BaseColumn>,
)
    requires
        call_ensures(MetalBackend::fix_first_variable_m31, (mle, assignment), plan),
        mle.evals@.len() > 0,
    ensures
        plan is Gpu <==> mle.evals@.len() >= 1024,
        plan matches FixPlan::Simd(request) ==> request.mle.evals.values@ == mle.evals@
            && request.assignment == assignment,
{
    lemma_ten(mle.evals@.len());
}

/// Which of the two backends fixes a variable over the secure field, and what the SIMD backend is
/// handed: the same values and the assignment.
pub proof fn law_fix_qm31_request(
    mle: Mle<MetalSecureColumn>,
    assignment: SecureField,
    plan: FixPlan<SecureColumn>,
)
    requires
        call_ensures(MetalBackend::fix_first_variable_qm31, (mle, assignment), plan),
        mle.evals@.len() > 0,
    ensures
        plan is Gpu <==> mle.evals@.len() >= 1024,
        plan matches FixPlan::Simd(request) ==> request.mle.evals.values@ == mle.evals@
            && request.assignment == assignment,
{
    lemma_ten(mle.evals@.len());
}

/// The parts of the GPU work to fix a variable of `2^n` values that do not depend on the field:
/// zeros for half as many elements, the assignment, a thread for each element of the result, and
/// the words of the result.
pub open spec fn fixes_on_gpu(
    s: Submission,
    kernel: Kernel,
    n: u32,
    len: nat,
    assignment: SecureField,
) -> bool {
    &&& s.buffers@.len() == 3
    &&& is_data(s.buffers@[1], Seq::new(4 * (len / 2), |i: int| 0u32))
    &&& is_data(
        s.buffers@[2],
        seq![assignment.0.0.0, assignment.0.1.0, assignment.1.0.0, assignment.1.1.0],
    )
    &&& s.command_buffers@.len() == 1
    &&& s.command_buffers@[0]@.len() == 1
    &&& is_run(
        s.command_buffers@[0]@[0],
        kernel,
        seq![Binding::Buffer(0), Binding::Buffer(1), Binding::Buffer(2), Binding::U32(n)],
        (len / 2) as int,
    )
    &&& s.readbacks@ == seq![Readback { slot: 1, words: (4 * (len / 2)) as usize }]
}

/// What the GPU is handed to fix a variable of `2^n` values in the base field: a word for each of
/// them, and what does not depend on the field.
pub proof fn law_fix_m31_submission(
    mle: Mle<MetalBaseColumn>,
    assignment: SecureField,
    s: Submission,
    n: u32,
    i: int,
)
    requires
        call_ensures(
            MetalBackend::fix_first_variable_m31,
            (mle, assignment),
            FixPlan::Gpu(s),
        ),
        mle.evals@.len() == pow2(n as nat),
        8 * mle.evals@.len() <= usize::MAX,
        0 <= i < mle.evals@.len(),
    ensures
        fixes_on_gpu(s, Kernel::MleFoldM31, n, mle.evals@.len(), assignment),
        s.buffers@[0] matches Allocation::Data(words) && words@.len() == mle.evals@.len()
            && words@[i] == mle.evals@[i].0,
{
    lemma_log2_of_pow2(n as nat);
    lemma_parts(s, 0, 0, 0);
    lemma_parts(s, 1, 0, 0);
    lemma_parts(s, 2, 0, 0);
    lemma_element_words(assignment);
    lemma_grid((mle.evals@.len() / 2) as int);
}

/// What the GPU is handed to fix a variable of `2^n` values in the secure field: the words of each
/// of them, and what does not depend on the field.
pub proof fn law_fix_qm31_submission(
    mle: Mle<MetalSecureColumn>,
    assignment: SecureField,
    s: Submission,
    n: u32,
    i: int,
)
    requires
        call_ensures(
            MetalBackend::fix_first_variable_qm31,
            (mle, assignment),
            FixPlan::Gpu(s),
        ),
        mle.evals@.len() == pow2(n as nat),
        8 * mle.evals@.len() <= usize::MAX,
        0 <= i < mle.evals@.len(),
    ensures
        fixes_on_gpu(s, Kernel::MleFoldQm31, n, mle.evals@.len(), assignment),
        s.buffers@[0] matches Allocation::Data(words) && words@.len() == 4 * mle.evals@.len()
            && words@[4 * i] == mle.evals@[i].0.0.0 && words@[4 * i + 1] == mle.evals@[i].0.1.0
            && words@[4 * i + 2] == mle.evals@[i].1.0.0 && words@[4 * i + 3]
            == mle.evals@[i].1.1.0,
{
    lemma_log2_of_pow2(n as nat);
    lemma_parts(s, 0, 0, 0);
    lemma_parts(s, 1, 0, 0);
    lemma_parts(s, 2, 0, 0);
    lemma_element_words(assignment);
    lemma_grid((mle.evals@.len() / 2) as int);
    let words = qm31_words(mle.evals@);
    assert(raw(words)[4 * i] == mle.evals@[i].words()[0].0);
    assert(raw(words)[4 * i + 1] == mle.evals@[i].words()[1].0);
    assert(raw(words)[4 * i + 2] == mle.evals@[i].words()[2].0);
    assert(raw(words)[4 * i + 3] == mle.evals@[i].words()[3].0);
}

/// The extension that is made of the words that the GPU wrote for `len` values: half as many, and
/// coordinate `k` of element `i` is canonical and stands for word `4 * i + k`.
pub proof fn law_fixed_of_words(
    len: usize,
    words: Vec<u32>,
    mle: Mle<MetalSecureColumn>,
    i: int,
)
    requires
        call_ensures(
            MetalBackend::finish_fix_first_variable,
            (len, FixReply::Gpu(words)),
            mle,
        ),
    ensures
        mle.evals@.len() == len as nat / 2,
        0 <= i < len as nat / 2 ==> {
            &&& stands_for(mle.evals@[i].0.0, words@[4 * i] as int)
            &&& stands_for(mle.evals@[i].0.1, words@[4 * i + 1] as int)
            &&& stands_for(mle.evals@[i].1.0, words@[4 * i + 2] as int)
            &&& stands_for(mle.evals@[i].1.1, words@[4 * i + 3] as int)
        },
{
    lemma_m31(words@[4 * i] as int);
    lemma_m31(words@[4 * i + 1] as int);
    lemma_m31(words@[4 * i + 2] as int);
    lemma_m31(words@[4 * i + 3] as int);
}

/// The extension that is made of the SIMD backend's answer has its values.
pub proof fn law_fixed_of_simd(len: usize, reply: FixReply, mle: Mle<MetalSecureColumn>)
    requires
        call_ensures(MetalBackend::finish_fix_first_variable, (len, reply), mle),
    ensures
        reply matches FixReply::Simd(result) ==> mle.evals@ == result.evals.values@,
{
}

/// Canonical words come back: writing out the elements that are made of them gives the first
/// `4 * (len / 2)` of them.
pub proof fn law_fixed_keeps_words(
    len: usize,
    words: Vec<u32>,
    mle: Mle<MetalSecureColumn>,
    elements: &[QM31],
    written: Vec<M31>,
    i: int,
)
    requires
        call_ensures(
            MetalBackend::finish_fix_first_variable,
            (len, FixReply::Gpu(words)),
            mle,
        ),
        elements@ == mle.evals@,
        call_ensures(write_qm31, (elements,), written),
        0 <= i < 4 * (len as nat / 2),
        words@[i] < P,
    ensures
        written@.len() == 4 * (len as nat / 2),
        written@[i].0 == words@[i],
{
    let e = i / 4;
    law_fixed_of_words(len, words, mle, e);
    assert(i == 4 * e + i % 4);
    assert(written@[i] == mle.evals@[e].words()[i % 4]);
    let w = M31(words@[i]);
    lemma_unique(written@[i], w, words@[i] as int, words@[i] as int);
}

/// What the SIMD backend is handed for the values of `eq`, and what is made of its answer.
pub proof fn law_eq_evals<'a>(
    y: &'a [SecureField],
    v: SecureField,
    request: SimdGenEqEvals<'a>,
    result: Mle<SecureColumn>,
    mle: Mle<MetalSecureColumn>,
)
    requires
        call_ensures(MetalBackend::gen_eq_evals, (y, v), request),
        call_ensures(MetalBackend::finish_gen_eq_evals, (result,), mle),
    ensures
        request.y@ == y@,
        request.v == v,
        mle.evals@ == result.evals.values@,
{
}

} // verus!
