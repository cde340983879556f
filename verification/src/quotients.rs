//! Accumulation of quotients, which the SIMD backend does.
use crate::backend::{MetalBackend, SimdBackend};
use crate::circle::CircleDomain;
use crate::evaluation::{CircleEvaluation, SecureEvaluation};
use crate::fields::SecureField;
use crate::fri::same_secure;
use crate::poly::{evaluation_to_simd, same_evaluation};
use crate::secure_column::SecureColumnByCoords;
use vstd::prelude::*;

verus! {

/// An accumulation of quotients for the SIMD backend, with sample batches of type `S`.
pub struct SimdQuotients<'a, S> {
    pub domain: CircleDomain,
    pub columns: Vec<CircleEvaluation<SimdBackend>>,
    pub random_coeff: SecureField,
    pub sample_batches: &'a [S],
    pub log_blowup_factor: u32,
}

impl MetalBackend {
    /// Plans the accumulation of the quotients of columns.
    pub fn accumulate_quotients<'a, S>(
        domain: CircleDomain,
        columns: &[&CircleEvaluation<MetalBackend>],
        random_coeff: SecureField,
        sample_batches: &'a [S],
        log_blowup_factor: u32,
    ) -> (request: SimdQuotients<'a, S>)
        requires
            forall|i: int| 0 <= i < columns@.len() ==> (#[trigger] columns@[i]).wf(),
        ensures
            request.domain == domain,
            request.columns@.len() == columns@.len(),
            forall|i: int|
                0 <= i < columns@.len() ==> (#[trigger] request.columns@[i]).wf()
                    && same_evaluation(request.columns@[i], *columns@[i]),
            request.random_coeff == random_coeff,
            request.sample_batches == sample_batches,
            request.log_blowup_factor == log_blowup_factor,
    {
        let mut simd: Vec<CircleEvaluation<SimdBackend>> = Vec::with_capacity(columns.len());
        let mut i: usize = 0;
        while i < columns.len()
            invariant
                i <= columns@.len(),
                forall|i: int| 0 <= i < columns@.len() ==> (#[trigger] columns@[i]).wf(),
                simd@.len() == i,
                forall|j: int|
                    0 <= j < i ==> (#[trigger] simd@[j]).wf() && same_evaluation(
                        simd@[j],
                        *columns@[j],
                    ),
            decreases columns@.len() - i,
        {
            assert(columns@[i as int].wf());
            let column: CircleEvaluation<SimdBackend> = evaluation_to_simd(columns[i]);
            simd.push(column);
            i = i + 1;
        }
        SimdQuotients { domain, columns: simd, random_coeff, sample_batches, log_blowup_factor }
    }

    /// The accumulated quotients that the SIMD backend answered with.
    pub fn finish_accumulate_quotients(result: SecureEvaluation<SimdBackend>) -> (r:
        SecureEvaluation<MetalBackend>)
        requires
            result.wf(),
        ensures
            r.wf(),
            same_secure(r, result),
    {
        let domain = result.domain;
        SecureEvaluation::new(domain, SecureColumnByCoords::from_simd(result.values))
    }
}

} // verus!
