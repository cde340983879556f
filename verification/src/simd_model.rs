//! Polynomials end to end, whatever the SIMD backend computes.
//!
//! The SIMD backend is a parameter: functions from what it is asked to what it answers. An
//! operation end to end is a plan, the answer to it, and what is made of the answer.
use crate::backend::{Column, MetalBackend, SimdBackend};
use crate::bits::bit_reversed;
use crate::circle::{CircleDomain, CirclePoint, TwiddleTree};
use crate::evaluation::{CircleCoefficients, CircleEvaluation};
use crate::fields::{CM31, M31, QM31};
use crate::poly::{
    is_evaluate_plan, is_finished_evaluation, is_finished_interpolation, is_interpolate_plan,
    same_coefficients, same_evaluation, EvaluatePlan, EvaluateReply, InterpolatePlan,
    InterpolateReply, SimdEvalAtPoint, SimdEvalAtPointByFolding, SimdExtend,
};
use vstd::arithmetic::power2::*;
use vstd::prelude::*;

verus! {

/// What the SIMD backend computes: coefficients, values and points in, coefficients, values and
/// field elements out.
pub struct SimdModel {
    pub evaluate: spec_fn(Seq<M31>, CircleDomain, TwiddleTree) -> Seq<M31>,
    pub interpolate: spec_fn(Seq<M31>, CircleDomain, TwiddleTree) -> Seq<M31>,
    pub eval_at_point: spec_fn(Seq<M31>, CirclePoint<QM31>) -> QM31,
    pub eval_at_point_by_folding: spec_fn(
        Seq<M31>,
        CircleDomain,
        CirclePoint<QM31>,
        TwiddleTree,
    ) -> QM31,
    pub extend: spec_fn(Seq<M31>, u32) -> Seq<M31>,
}

/// A base field element in the secure field.
pub open spec fn embedded(value: M31) -> QM31 {
    QM31(CM31(value, M31(0)), CM31(M31(0), M31(0)))
}

/// A point with coordinates in the base field in the secure field.
pub open spec fn embedded_point(p: CirclePoint<M31>) -> CirclePoint<QM31> {
    CirclePoint { x: embedded(p.x), y: embedded(p.y) }
}

impl SimdModel {
    /// The reply answers the plan of an evaluation.
    pub open spec fn answers_evaluate(self, plan: EvaluatePlan<'_>, reply: EvaluateReply) -> bool {
        match (plan, reply) {
            (EvaluatePlan::Simd(request), EvaluateReply::Simd(result)) => {
                &&& result.domain == request.domain
                &&& result.values.elements() == (self.evaluate)(
                    request.poly.coeffs.elements(),
                    request.domain,
                    *request.twiddles,
                )
            },
            _ => false,
        }
    }

    /// The reply answers the plan of an interpolation.
    pub open spec fn answers_interpolate(
        self,
        plan: InterpolatePlan<'_>,
        reply: InterpolateReply,
    ) -> bool {
        match (plan, reply) {
            (
                InterpolatePlan::Simd(request),
                InterpolateReply::Simd(result),
            ) => result.coeffs.elements() == (self.interpolate)(
                request.eval.values.elements(),
                request.eval.domain,
                *request.twiddles,
            ),
            _ => false,
        }
    }

    /// Evaluating a polynomial on a domain gives `eval`.
    pub open spec fn evaluates(
        self,
        poly: CircleCoefficients<MetalBackend>,
        domain: CircleDomain,
        twiddles: TwiddleTree,
        eval: CircleEvaluation<MetalBackend>,
    ) -> bool {
        exists|plan: EvaluatePlan<'_>, reply: EvaluateReply| #[trigger]
            self.answers_evaluate(plan, reply) && is_evaluate_plan(plan, poly, domain, twiddles)
                && is_finished_evaluation(eval, domain, reply)
    }

    /// Interpolating values on a domain gives `poly`.
    pub open spec fn interpolates(
        self,
        eval: CircleEvaluation<MetalBackend>,
        twiddles: TwiddleTree,
        poly: CircleCoefficients<MetalBackend>,
    ) -> bool {
        exists|plan: InterpolatePlan<'_>, reply: InterpolateReply| #[trigger]
            self.answers_interpolate(plan, reply) && is_interpolate_plan(plan, eval, twiddles)
                && is_finished_interpolation(poly, reply)
    }

    /// The answer to a request for the value at a point.
    pub open spec fn answer_at_point(self, request: SimdEvalAtPoint) -> QM31 {
        (self.eval_at_point)(request.poly.coeffs.elements(), request.point)
    }

    /// Evaluating a polynomial at a point gives `value`.
    pub open spec fn has_value(
        self,
        poly: CircleCoefficients<MetalBackend>,
        point: CirclePoint<QM31>,
        value: QM31,
    ) -> bool {
        exists|request: SimdEvalAtPoint|
            value == #[trigger] self.answer_at_point(request) && same_coefficients(
                request.poly,
                poly,
            ) && request.point == point
    }

    /// The answer to a request for the value at a point by folding.
    pub open spec fn answer_by_folding(self, request: SimdEvalAtPointByFolding<'_>) -> QM31 {
        (self.eval_at_point_by_folding)(
            request.evals.values.elements(),
            request.evals.domain,
            request.point,
            *request.twiddles,
        )
    }

    /// Evaluating a polynomial, given by its values, at a point by folding gives `value`.
    pub open spec fn has_value_by_folding(
        self,
        evals: CircleEvaluation<MetalBackend>,
        point: CirclePoint<QM31>,
        twiddles: TwiddleTree,
        value: QM31,
    ) -> bool {
        exists|request: SimdEvalAtPointByFolding<'_>|
            value == #[trigger] self.answer_by_folding(request) && same_evaluation(
                request.evals,
                evals,
            ) && request.point == point && *request.twiddles == twiddles
    }

    /// The result answers a request for an extension.
    pub open spec fn answers_extend(
        self,
        request: SimdExtend,
        result: CircleCoefficients<SimdBackend>,
    ) -> bool {
        result.coeffs.elements() == (self.extend)(
            request.poly.coeffs.elements(),
            request.log_size,
        )
    }

    /// Extending a polynomial to `2^log_size` coefficients gives `longer`.
    pub open spec fn extends(
        self,
        poly: CircleCoefficients<MetalBackend>,
        log_size: u32,
        longer: CircleCoefficients<MetalBackend>,
    ) -> bool {
        exists|request: SimdExtend, result: CircleCoefficients<SimdBackend>| #[trigger]
            self.answers_extend(request, result) && same_coefficients(request.poly, poly)
                && request.log_size == log_size && same_coefficients(longer, result)
    }
}

/// Evaluation gives the values that the SIMD backend computes, on the domain that was asked for.
pub proof fn law_evaluate_is_simd(
    simd: SimdModel,
    poly: CircleCoefficients<MetalBackend>,
    domain: CircleDomain,
    twiddles: TwiddleTree,
    eval: CircleEvaluation<MetalBackend>,
)
    requires
        simd.evaluates(poly, domain, twiddles, eval),
    ensures
        eval.domain == domain,
        eval.values.elements() == (simd.evaluate)(poly.coeffs.elements(), domain, twiddles),
{
}

/// Interpolation gives the coefficients that the SIMD backend computes.
pub proof fn law_interpolate_is_simd(
    simd: SimdModel,
    eval: CircleEvaluation<MetalBackend>,
    twiddles: TwiddleTree,
    poly: CircleCoefficients<MetalBackend>,
)
    requires
        simd.interpolates(eval, twiddles, poly),
    ensures
        poly.coeffs.elements() == (simd.interpolate)(
            eval.values.elements(),
            eval.domain,
            twiddles,
        ),
{
}

/// Evaluating and interpolating gives back the coefficients, if the SIMD backend does so.
pub proof fn law_evaluate_then_interpolate(
    simd: SimdModel,
    poly: CircleCoefficients<MetalBackend>,
    domain: CircleDomain,
    twiddles: TwiddleTree,
    eval: CircleEvaluation<MetalBackend>,
    back: CircleCoefficients<MetalBackend>,
)
    requires
        simd.evaluates(poly, domain, twiddles, eval),
        simd.interpolates(eval, twiddles, back),
        (simd.interpolate)(
            (simd.evaluate)(poly.coeffs.elements(), domain, twiddles),
            domain,
            twiddles,
        ) == poly.coeffs.elements(),
    ensures
        back.coeffs.elements() == poly.coeffs.elements(),
{
    law_evaluate_is_simd(simd, poly, domain, twiddles, eval);
    law_interpolate_is_simd(simd, eval, twiddles, back);
}

/// Interpolating gives a coefficient for every value, and evaluating on the same domain gives back
/// the values, if the SIMD backend does so.
pub proof fn law_interpolate_then_evaluate(
    simd: SimdModel,
    eval: CircleEvaluation<MetalBackend>,
    twiddles: TwiddleTree,
    poly: CircleCoefficients<MetalBackend>,
    back: CircleEvaluation<MetalBackend>,
)
    requires
        eval.wf(),
        simd.interpolates(eval, twiddles, poly),
        simd.evaluates(poly, eval.domain, twiddles, back),
        (simd.interpolate)(eval.values.elements(), eval.domain, twiddles).len()
            == eval.values.elements().len(),
        (simd.evaluate)(
            (simd.interpolate)(eval.values.elements(), eval.domain, twiddles),
            eval.domain,
            twiddles,
        ) == eval.values.elements(),
    ensures
        poly.coeffs.elements().len() == pow2(eval.domain.spec_log_size()),
        back.domain == eval.domain,
        back.values.elements() == eval.values.elements(),
{
    law_interpolate_is_simd(simd, eval, twiddles, poly);
    law_evaluate_is_simd(simd, poly, eval.domain, twiddles, back);
}

/// The values of a polynomial on a domain are those at the points of the domain in bit-reversed
/// order, if they are so on the SIMD backend.
pub proof fn law_values_are_at_points(
    simd: SimdModel,
    poly: CircleCoefficients<MetalBackend>,
    domain: CircleDomain,
    twiddles: TwiddleTree,
    eval: CircleEvaluation<MetalBackend>,
    i: int,
    value: QM31,
)
    requires
        simd.evaluates(poly, domain, twiddles, eval),
        (simd.evaluate)(poly.coeffs.elements(), domain, twiddles).len() == pow2(
            domain.spec_log_size(),
        ),
        forall|j: int|
            0 <= j < pow2(domain.spec_log_size()) ==> embedded(
                #[trigger] (simd.evaluate)(poly.coeffs.elements(), domain, twiddles)[j],
            ) == (simd.eval_at_point)(
                poly.coeffs.elements(),
                embedded_point(domain.point(bit_reversed(j as nat, domain.spec_log_size()))),
            ),
        0 <= i < pow2(domain.spec_log_size()),
        simd.has_value(
            poly,
            embedded_point(domain.point(bit_reversed(i as nat, domain.spec_log_size()))),
            value,
        ),
    ensures
        eval.values.elements().len() == pow2(domain.spec_log_size()),
        value == embedded(eval.values.elements()[i]),
{
    law_evaluate_is_simd(simd, poly, domain, twiddles, eval);
    assert(value == (simd.eval_at_point)(
        poly.coeffs.elements(),
        embedded_point(domain.point(bit_reversed(i as nat, domain.spec_log_size()))),
    ));
    assert(embedded((simd.evaluate)(poly.coeffs.elements(), domain, twiddles)[i]) == value);
}

/// The value at a point is the one that the SIMD backend computes, and an extended polynomial has
/// the same one, if extending does not change it on the SIMD backend.
pub proof fn law_extension_keeps_values(
    simd: SimdModel,
    poly: CircleCoefficients<MetalBackend>,
    log_size: u32,
    longer: CircleCoefficients<MetalBackend>,
    point: CirclePoint<QM31>,
    value: QM31,
    value_of_longer: QM31,
)
    requires
        simd.extends(poly, log_size, longer),
        simd.has_value(poly, point, value),
        simd.has_value(longer, point, value_of_longer),
        (simd.eval_at_point)((simd.extend)(poly.coeffs.elements(), log_size), point) == (
        simd.eval_at_point)(poly.coeffs.elements(), point),
    ensures
        value == (simd.eval_at_point)(poly.coeffs.elements(), point),
        value_of_longer == value,
{
    assert(longer.coeffs.elements() == (simd.extend)(poly.coeffs.elements(), log_size));
    assert(value_of_longer == (simd.eval_at_point)(longer.coeffs.elements(), point));
}

/// The coefficients of a constant polynomial.
pub open spec fn constant(value: M31, len: nat) -> Seq<M31> {
    Seq::new(
        len,
        |i: int|
            if i == 0 {
                value
            } else {
                M31(0)
            },
    )
}

/// A constant polynomial has its constant as the value at every point, if it does so on the SIMD
/// backend.
pub proof fn law_constant_has_its_value(
    simd: SimdModel,
    poly: CircleCoefficients<MetalBackend>,
    k: M31,
    point: CirclePoint<QM31>,
    value: QM31,
)
    requires
        poly.coeffs.elements() == constant(k, poly.coeffs.elements().len()),
        (simd.eval_at_point)(constant(k, poly.coeffs.elements().len()), point) == embedded(k),
        simd.has_value(poly, point, value),
    ensures
        value == embedded(k),
{
}

/// Folding values and interpolating them first lead to the same value at a point, if they do so
/// on the SIMD backend.
pub proof fn law_folding_agrees_with_interpolation(
    simd: SimdModel,
    evals: CircleEvaluation<MetalBackend>,
    twiddles: TwiddleTree,
    poly: CircleCoefficients<MetalBackend>,
    point: CirclePoint<QM31>,
    folded: QM31,
    value: QM31,
)
    requires
        simd.interpolates(evals, twiddles, poly),
        simd.has_value_by_folding(evals, point, twiddles, folded),
        simd.has_value(poly, point, value),
        (simd.eval_at_point_by_folding)(evals.values.elements(), evals.domain, point, twiddles)
            == (simd.eval_at_point)(
            (simd.interpolate)(evals.values.elements(), evals.domain, twiddles),
            point,
        ),
    ensures
        folded == value,
{
    law_interpolate_is_simd(simd, evals, twiddles, poly);
    assert(value == (simd.eval_at_point)(poly.coeffs.elements(), point));
    assert(folded == (simd.eval_at_point_by_folding)(
        evals.values.elements(),
        evals.domain,
        point,
        twiddles,
    ));
}

} // verus!
