//! Polynomials over the circle and the line, by their coefficients or their values.
use crate::backend::{Backend, Column};
use crate::bits::{ilog2, is_power_of_two, log2};
use crate::circle::{CircleDomain, LineDomain};
use crate::secure_column::SecureColumnByCoords;
use vstd::arithmetic::power2::*;
use vstd::prelude::*;

verus! {

/// A polynomial over the circle, by its coefficients.
pub struct CircleCoefficients<B: Backend> {
    pub coeffs: B::BaseColumn,
    pub log_size: u32,
}

impl<B: Backend> CircleCoefficients<B> {
    /// There are `2^log_size` coefficients.
    pub open spec fn wf(&self) -> bool {
        &&& self.coeffs.well_formed()
        &&& self.coeffs.elements().len() == pow2(self.log_size as nat)
    }

    /// The polynomial with the given coefficients, as many as a power of two.
    pub fn new(coeffs: B::BaseColumn) -> (r: CircleCoefficients<B>)
        requires
            coeffs.well_formed(),
            is_power_of_two(coeffs.elements().len()),
        ensures
            r.wf(),
            r.coeffs == coeffs,
    {
        proof {
            lemma_pow2_pos(log2(coeffs.elements().len()));
        }
        let log_size: u32 = ilog2(coeffs.count());
        CircleCoefficients { coeffs, log_size }
    }
}

/// A polynomial over the circle, by its values on a domain in bit-reversed order.
pub struct CircleEvaluation<B: Backend> {
    pub domain: CircleDomain,
    pub values: B::BaseColumn,
}

impl<B: Backend> CircleEvaluation<B> {
    /// There is a value for every point.
    pub open spec fn wf(&self) -> bool {
        &&& self.domain.fits()
        &&& self.values.well_formed()
        &&& self.values.elements().len() == pow2(self.domain.spec_log_size())
    }

    /// The polynomial with the given values.
    pub fn new(domain: CircleDomain, values: B::BaseColumn) -> (r: CircleEvaluation<B>)
        requires
            domain.fits(),
            values.well_formed(),
            values.elements().len() == pow2(domain.spec_log_size()),
        ensures
            r.wf(),
            r.domain == domain,
            r.values == values,
    {
        CircleEvaluation { domain, values }
    }
}

/// A polynomial over the circle with values in the secure field, by its values on a domain in
/// bit-reversed order.
pub struct SecureEvaluation<B: Backend> {
    pub domain: CircleDomain,
    pub values: SecureColumnByCoords<B>,
}

impl<B: Backend> SecureEvaluation<B> {
    /// There is a value for every point.
    pub open spec fn wf(&self) -> bool {
        &&& self.domain.fits()
        &&& self.values.wf()
        &&& self.values.elements().len() == pow2(self.domain.spec_log_size())
    }

    /// The polynomial with the given values.
    pub fn new(domain: CircleDomain, values: SecureColumnByCoords<B>) -> (r: SecureEvaluation<B>)
        requires
            domain.fits(),
            values.wf(),
            values.elements().len() == pow2(domain.spec_log_size()),
        ensures
            r.wf(),
            r.domain == domain,
            r.values == values,
    {
        SecureEvaluation { domain, values }
    }
}

/// A polynomial over the line with values in the secure field, by its values on a domain in
/// bit-reversed order.
pub struct LineEvaluation<B: Backend> {
    pub domain: LineDomain,
    pub values: SecureColumnByCoords<B>,
}

impl<B: Backend> LineEvaluation<B> {
    /// There is a value for every element of the domain.
    pub open spec fn wf(&self) -> bool {
        &&& self.domain.coset.fits()
        &&& self.values.wf()
        &&& self.values.elements().len() == pow2(self.domain.coset.log_size as nat)
    }

    /// The polynomial with the given values.
    pub fn new(domain: LineDomain, values: SecureColumnByCoords<B>) -> (r: LineEvaluation<B>)
        requires
            domain.coset.fits(),
            values.wf(),
            values.elements().len() == pow2(domain.coset.log_size as nat),
        ensures
            r.wf(),
            r.domain == domain,
            r.values == values,
    {
        LineEvaluation { domain, values }
    }
}

} // verus!
