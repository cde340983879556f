//! Transforms end to end, with a plain circle FFT in the place of the SIMD backend.
use stwo_metal::backend::{MetalBackend, SimdBackend, SimdColumn};
use stwo_metal::circle::{
    domain_line_twiddles_from_tree, CircleDomain, CirclePoint, Coset, TwiddleTree,
};
use stwo_metal::column::MetalBaseColumn;
use stwo_metal::evaluation::{CircleCoefficients, CircleEvaluation};
use stwo_metal::fields::{BaseField, M31};
use stwo_metal::gpu::{Allocation, Binding, Command, Grid, Kernel, Readback, Submission};
use stwo_metal::poly::{
    EvaluatePlan, EvaluateReply, InterpolatePlan, InterpolateReply, SimdEvaluate, SimdInterpolate,
};

const P: u64 = 2147483647;

fn mul(a: u32, b: u32) -> u32 {
    (a as u64 * b as u64 % P) as u32
}

fn plus(a: u32, b: u32) -> u32 {
    ((a as u64 + b as u64) % P) as u32
}

fn minus(a: u32, b: u32) -> u32 {
    ((a as u64 + P - b as u64) % P) as u32
}

fn inverse(a: u32) -> u32 {
    let mut result: u32 = 1;
    let mut base: u32 = a;
    let mut e: u64 = P - 2;
    while e > 0 {
        if e % 2 == 1 {
            result = mul(result, base);
        }
        base = mul(base, base);
        e /= 2;
    }
    result
}

/// A generator of the subgroup of `2^log_size` points.
fn generator(log_size: u32) -> CirclePoint<M31> {
    let mut g = CirclePoint {
        x: M31(2),
        y: M31(1268011823),
    };
    for _ in log_size..31 {
        g = g.double();
    }
    g
}

fn canonic_domain(log_size: u32) -> CircleDomain {
    CircleDomain {
        half_coset: Coset {
            initial: generator(log_size + 1),
            step: generator(log_size - 1),
            log_size: log_size - 1,
        },
    }
}

fn reversed(i: usize, bits: u32) -> usize {
    if bits == 0 {
        0
    } else {
        i.reverse_bits() >> (usize::BITS - bits)
    }
}

fn precompute(coset: Coset) -> TwiddleTree {
    let mut twiddles: Vec<u32> = Vec::new();
    let mut current: Coset = coset;
    for _ in 0..coset.log_size {
        let points = current.points();
        let half: usize = points.len() / 2;
        for i in 0..half {
            twiddles.push(points[reversed(i, current.log_size - 1)].x.0);
        }
        current = current.double();
    }
    twiddles.push(1);
    let itwiddles: Vec<u32> = twiddles.iter().map(|t| inverse(*t)).collect();
    TwiddleTree {
        root_coset: coset,
        twiddles,
        itwiddles,
    }
}

fn circle_twiddles(line: &[u32]) -> Vec<u32> {
    let mut v: Vec<u32> = Vec::new();
    for pair in line.chunks(2) {
        let (x, y) = (pair[0], pair[1]);
        v.push(y);
        v.push(minus(0, y));
        v.push(minus(0, x));
        v.push(x);
    }
    v
}

fn layer_loop(values: &mut [u32], i: usize, h: usize, forward: bool, t: u32) {
    for l in 0..1usize << i {
        let a: usize = (h << (i + 1)) + l;
        let b: usize = a + (1 << i);
        let (v0, v1) = (values[a], values[b]);
        if forward {
            let w: u32 = mul(v1, t);
            values[a] = plus(v0, w);
            values[b] = minus(v0, w);
        } else {
            values[a] = plus(v0, v1);
            values[b] = mul(minus(v0, v1), t);
        }
    }
}

fn simd_evaluate(request: SimdEvaluate<'_>) -> CircleEvaluation<SimdBackend> {
    let domain = request.domain;
    let mut values: Vec<u32> = request.poly.coeffs.values.iter().map(|v| v.0).collect();
    values.resize(domain.size(), 0);
    let layers = domain_line_twiddles_from_tree(domain.line_domain(), &request.twiddles.twiddles);
    for (layer, twiddles) in layers.iter().enumerate().rev() {
        for (h, t) in twiddles.iter().enumerate() {
            layer_loop(&mut values, layer + 1, h, true, *t);
        }
    }
    for (h, t) in circle_twiddles(layers[0]).iter().enumerate() {
        layer_loop(&mut values, 0, h, true, *t);
    }
    CircleEvaluation::new(
        domain,
        SimdColumn {
            values: values.into_iter().map(M31).collect(),
        },
    )
}

fn simd_interpolate(request: SimdInterpolate<'_>) -> CircleCoefficients<SimdBackend> {
    let domain = request.eval.domain;
    let mut values: Vec<u32> = request.eval.values.values.iter().map(|v| v.0).collect();
    let layers = domain_line_twiddles_from_tree(domain.line_domain(), &request.twiddles.itwiddles);
    for (h, t) in circle_twiddles(layers[0]).iter().enumerate() {
        layer_loop(&mut values, 0, h, false, *t);
    }
    for (layer, twiddles) in layers.iter().enumerate() {
        for (h, t) in twiddles.iter().enumerate() {
            layer_loop(&mut values, layer + 1, h, false, *t);
        }
    }
    let n: u32 = inverse(values.len() as u32);
    CircleCoefficients::new(SimdColumn {
        values: values.into_iter().map(|v| M31(mul(v, n))).collect(),
    })
}

fn simd_poly(values: &[BaseField]) -> CircleCoefficients<SimdBackend> {
    CircleCoefficients::new(SimdColumn {
        values: values.to_vec(),
    })
}

fn metal_poly(values: &[BaseField]) -> CircleCoefficients<MetalBackend> {
    CircleCoefficients::new(MetalBaseColumn::from_iter(values.to_vec()))
}

fn metal_evaluate(
    poly: &CircleCoefficients<MetalBackend>,
    domain: CircleDomain,
    twiddles: &TwiddleTree,
) -> CircleEvaluation<MetalBackend> {
    match MetalBackend::evaluate(poly, domain, twiddles) {
        EvaluatePlan::Simd(request) => {
            MetalBackend::finish_evaluate(domain, EvaluateReply::Simd(simd_evaluate(request)))
        }
        EvaluatePlan::Gpu(_) => panic!("transforms go to the SIMD backend"),
    }
}

fn metal_interpolate(
    eval: CircleEvaluation<MetalBackend>,
    twiddles: &TwiddleTree,
) -> CircleCoefficients<MetalBackend> {
    match MetalBackend::interpolate(eval, twiddles) {
        InterpolatePlan::Simd(request) => {
            MetalBackend::finish_interpolate(InterpolateReply::Simd(simd_interpolate(request)))
        }
        InterpolatePlan::Gpu(_) => panic!("transforms go to the SIMD backend"),
    }
}

#[test]
fn test_metal_fft_debug() {
    let log_size: u32 = 10;
    let domain = canonic_domain(log_size);
    let size: u32 = 1 << log_size;
    assert_eq!(domain.log_size(), log_size);

    let coeffs_data: Vec<BaseField> = (0..size).map(|i| BaseField::from(i)).collect();

    let simd_twiddles = precompute(domain.half_coset);
    let twiddle_slices =
        domain_line_twiddles_from_tree(domain.line_domain(), &simd_twiddles.twiddles);
    assert_eq!(twiddle_slices.len(), 9);
    for (i, slice) in twiddle_slices.iter().enumerate() {
        assert_eq!(slice.len(), 1 << (8 - i));
    }

    let simd_values = simd_evaluate(SimdEvaluate {
        poly: simd_poly(&coeffs_data),
        domain,
        twiddles: &simd_twiddles,
    })
    .values
    .values;

    let metal_twiddles = precompute(domain.half_coset);
    let metal_result = metal_evaluate(&metal_poly(&coeffs_data), domain, &metal_twiddles);
    let metal_values = metal_result.values.to_cpu();

    let mut num_diffs: usize = 0;
    for i in 0..16 {
        if simd_values[i] != metal_values[i] {
            num_diffs += 1;
        }
    }
    if num_diffs > 0 {
        panic!("{} differences found in first 16 elements", num_diffs);
    }
}

#[test]
fn test_metal_fft_correctness() {
    for log_size in [12, 15, 18] {
        let domain = canonic_domain(log_size);
        let size: u32 = 1 << log_size;
        let coeffs_data: Vec<BaseField> = (0..size).map(|i| BaseField::from(i)).collect();

        let simd_twiddles = precompute(domain.half_coset);
        let simd_values = simd_evaluate(SimdEvaluate {
            poly: simd_poly(&coeffs_data),
            domain,
            twiddles: &simd_twiddles,
        })
        .values
        .values;

        let metal_result = metal_evaluate(&metal_poly(&coeffs_data), domain, &simd_twiddles);
        let metal_values = metal_result.values.to_cpu();

        assert_eq!(
            simd_values.len(),
            metal_values.len(),
            "FFT result lengths differ for log_size {}",
            log_size
        );
        for (i, (simd_val, metal_val)) in simd_values.iter().zip(metal_values.iter()).enumerate() {
            assert_eq!(
                simd_val, metal_val,
                "FFT results differ at index {} for log_size {}",
                i, log_size
            );
        }
    }
}

#[test]
fn test_metal_ifft_correctness() {
    for log_size in [13, 16, 19] {
        let domain = canonic_domain(log_size);
        let size: u32 = 1 << log_size;
        let eval_data: Vec<BaseField> = (0..size).map(|i| BaseField::from(i)).collect();

        let twiddles = precompute(domain.half_coset);
        let simd_eval: CircleEvaluation<SimdBackend> = CircleEvaluation::new(
            domain,
            SimdColumn {
                values: eval_data.clone(),
            },
        );
        let simd_coeffs = simd_interpolate(SimdInterpolate {
            eval: simd_eval,
            twiddles: &twiddles,
        })
        .coeffs
        .values;

        let metal_eval: CircleEvaluation<MetalBackend> =
            CircleEvaluation::new(domain, MetalBaseColumn::from_iter(eval_data));
        let metal_coeffs = metal_interpolate(metal_eval, &twiddles).coeffs.to_cpu();

        assert_eq!(
            simd_coeffs.len(),
            metal_coeffs.len(),
            "IFFT result lengths differ for log_size {}",
            log_size
        );
        for (i, (simd_val, metal_val)) in simd_coeffs.iter().zip(metal_coeffs.iter()).enumerate() {
            assert_eq!(
                simd_val, metal_val,
                "IFFT results differ at index {} for log_size {}",
                i, log_size
            );
        }
    }
}

#[test]
fn test_metal_fft_ifft_roundtrip() {
    for log_size in [13, 16] {
        let domain = canonic_domain(log_size);
        let size: u32 = 1 << log_size;
        let original: Vec<BaseField> = (0..size).map(|i| BaseField::from(i % 1000)).collect();

        let poly = metal_poly(&original);
        let twiddles = precompute(domain.half_coset);

        let eval = metal_evaluate(&poly, domain, &twiddles);
        let reconstructed = metal_interpolate(eval, &twiddles);
        let result = reconstructed.coeffs.to_cpu();

        assert_eq!(
            original.len(),
            result.len(),
            "Round-trip length mismatch for log_size {}",
            log_size
        );
        for (i, (orig, recon)) in original.iter().zip(result.iter()).enumerate() {
            assert_eq!(
                orig, recon,
                "Round-trip failed at index {} for log_size {}",
                i, log_size
            );
        }
    }
}

#[test]
fn test_metal_fallback_to_simd() {
    let log_size: u32 = 14;
    let domain = canonic_domain(log_size);
    let size: u32 = 1 << log_size;
    let coeffs: Vec<BaseField> = (0..size).map(|i| BaseField::from(i)).collect();

    let poly = metal_poly(&coeffs);
    let twiddles = precompute(domain.half_coset);
    let eval = metal_evaluate(&poly, domain, &twiddles);
    let reconstructed = metal_interpolate(eval, &twiddles);
    let result = reconstructed.coeffs.to_cpu();

    for (i, (orig, recon)) in coeffs.iter().zip(result.iter()).enumerate() {
        assert_eq!(orig, recon, "Fallback round-trip failed at index {}", i);
    }
}

fn step_layers(s: &Submission) -> Vec<u32> {
    let mut v: Vec<u32> = Vec::new();
    for commands in &s.command_buffers {
        assert_eq!(commands.len(), 1);
        match &commands[0] {
            Command::Compute(d) => match d.bindings[5] {
                Binding::U32(layer) => v.push(layer),
                _ => panic!("the layer is a number"),
            },
            Command::Copy(_) => panic!("nothing is copied"),
        }
    }
    v
}

#[test]
fn radix8_steps_of_an_evaluation() {
    let log_size: u32 = 12;
    let domain = canonic_domain(log_size);
    let twiddles = precompute(domain.half_coset);
    let values: Vec<BaseField> = (0..1u32 << log_size).map(BaseField::from).collect();
    let s = MetalBackend::fft_radix8_submission(&metal_poly(&values), domain, &twiddles);
    assert_eq!(step_layers(&s), vec![8, 5]);
    assert_eq!(s.buffers.len(), 7);
    assert_eq!(
        s.readbacks,
        vec![Readback {
            slot: 0,
            words: 4096
        }]
    );
    match &s.command_buffers[0][0] {
        Command::Compute(d) => {
            assert_eq!(d.kernel, Kernel::FftRadix8);
            assert_eq!(
                d.bindings,
                vec![
                    Binding::Buffer(0),
                    Binding::Buffer(1),
                    Binding::Buffer(2),
                    Binding::Buffer(3),
                    Binding::U32(12),
                    Binding::U32(8),
                ]
            );
            assert_eq!(
                d.grid,
                Grid {
                    threadgroups: 1,
                    threadgroup_size: 256
                }
            );
        }
        Command::Copy(_) => panic!("nothing is copied"),
    }
    // The twiddles of layers 8, 9 and 10, the finest first.
    for (slot, layer) in [(1usize, 8u32), (2, 9), (3, 10), (4, 5), (5, 6), (6, 7)] {
        match &s.buffers[slot] {
            Allocation::Data(words) => assert_eq!(words.len(), 1 << layer),
            _ => panic!("twiddles are uploaded"),
        }
    }
    let words: Vec<u32> = (0..4096).collect();
    let eval = MetalBackend::finish_evaluate(domain, EvaluateReply::Gpu(words.clone()));
    let back: Vec<u32> = eval.values.to_cpu().iter().map(|v| v.0).collect();
    assert_eq!(back, words);
    assert_eq!(eval.domain, domain);
}

#[test]
fn radix8_steps_of_an_interpolation() {
    let log_size: u32 = 8;
    let domain = canonic_domain(log_size);
    let twiddles = precompute(domain.half_coset);
    let values: Vec<BaseField> = (0..1u32 << log_size).map(BaseField::from).collect();
    let eval: CircleEvaluation<MetalBackend> =
        CircleEvaluation::new(domain, MetalBaseColumn::from_iter(values));
    let s = MetalBackend::ifft_radix8_submission(&eval, &twiddles);
    assert_eq!(step_layers(&s), vec![0, 3]);
    match &s.buffers[1] {
        Allocation::Data(words) => {
            // One word for the finest layer, right before the trailing one.
            let n: usize = twiddles.itwiddles.len();
            assert_eq!(words, &vec![twiddles.itwiddles[n - 2]]);
        }
        _ => panic!("twiddles are uploaded"),
    }
    let words: Vec<u32> = (7..7 + 256).collect();
    let poly = MetalBackend::finish_interpolate(InterpolateReply::Gpu(words.clone()));
    assert_eq!(poly.log_size, 8);
    let back: Vec<u32> = poly.coeffs.to_cpu().iter().map(|v| v.0).collect();
    assert_eq!(back, words);
}

#[test]
fn short_transforms_have_no_radix8_steps() {
    let domain = canonic_domain(4);
    let twiddles = precompute(domain.half_coset);
    let values: Vec<BaseField> = (0..16).map(BaseField::from).collect();
    let s = MetalBackend::fft_radix8_submission(&metal_poly(&values), domain, &twiddles);
    assert!(s.command_buffers.is_empty());
    assert_eq!(s.buffers.len(), 1);
}

#[test]
fn requests_at_a_point_and_for_an_extension() {
    let values: Vec<BaseField> = (0..8).map(BaseField::from).collect();
    let poly = metal_poly(&values);
    let one = stwo_metal::fields::QM31::from_m31(M31(1), M31(2), M31(3), M31(4));
    let point = CirclePoint { x: one, y: one };
    let request = MetalBackend::eval_at_point(&poly, point);
    assert_eq!(request.poly.coeffs.values, values);
    assert_eq!(request.point, point);

    let domain = canonic_domain(3);
    let twiddles = precompute(domain.half_coset);
    let evals: CircleEvaluation<MetalBackend> =
        CircleEvaluation::new(domain, MetalBaseColumn::from_iter(values.clone()));
    let request = MetalBackend::eval_at_point_by_folding(&evals, point, &twiddles);
    assert_eq!(request.evals.values.values, values);
    assert_eq!(request.evals.domain, domain);
    assert_eq!(request.twiddles.twiddles, twiddles.twiddles);

    let request = MetalBackend::extend(&poly, 4);
    assert_eq!(request.log_size, 4);
    let mut longer = request.poly.coeffs.values;
    longer.resize(16, M31(0));
    let extended = MetalBackend::finish_extend(simd_poly(&longer));
    assert_eq!(extended.log_size, 4);
    assert_eq!(extended.coeffs.to_cpu(), longer);
}

#[test]
fn halves_of_coefficients() {
    let values: Vec<BaseField> = (0..8).map(BaseField::from).collect();
    let (left, right) = MetalBackend::split_at_mid(metal_poly(&values));
    assert_eq!((left.log_size, right.log_size), (2, 2));
    assert_eq!(left.coeffs.to_cpu(), values[..4].to_vec());
    assert_eq!(right.coeffs.to_cpu(), values[4..].to_vec());
}

#[test]
fn points_of_a_domain() {
    let domain = canonic_domain(4);
    let points = domain.points();
    assert_eq!(points.len(), 16);
    for (i, p) in points.iter().enumerate() {
        assert_eq!(plus(mul(p.x.0, p.x.0), mul(p.y.0, p.y.0)), 1);
        if i >= 8 {
            assert_eq!(p.x, points[i - 8].x);
            assert_eq!(plus(p.y.0, points[i - 8].y.0), 0);
        }
    }
    // Order two and four.
    assert_eq!(generator(1), CirclePoint { x: M31(2147483646), y: M31(0) });
    assert_eq!(generator(2).double(), generator(1));
    let line = domain.line_domain().double();
    assert_eq!(line.size(), 4);
    assert_eq!(line.coset.initial, domain.half_coset.initial.double());
}

#[test]
fn doubled_coset_has_the_doubled_points() {
    let coset = canonic_domain(5).half_coset;
    let doubled = coset.double();
    let (points, doubles) = (coset.points(), doubled.points());
    assert_eq!(doubles.len(), 8);
    for i in 0..8 {
        assert_eq!(doubles[i], points[i].double());
    }
}

#[test]
fn twiddle_layers_lie_one_after_the_other() {
    let domain = canonic_domain(5).line_domain();
    let words: Vec<u32> = (0..20).collect();
    let layers = domain_line_twiddles_from_tree(domain, &words);
    let lengths: Vec<usize> = layers.iter().map(|l| l.len()).collect();
    assert_eq!(lengths, vec![8, 4, 2, 1]);
    assert_eq!(layers.concat(), (4..19).collect::<Vec<u32>>());
}

/// The value of a polynomial at a point, from the products that its coefficients belong to: `y`
/// for the lowest bit of the index, then `x`, `2x^2 - 1` and so on.
fn value_at(coeffs: &[BaseField], p: CirclePoint<M31>) -> u32 {
    let mut factors: Vec<u32> = vec![p.y.0, p.x.0];
    while 1usize << factors.len() < coeffs.len() {
        let x: u32 = factors[factors.len() - 1];
        factors.push(minus(mul(2, mul(x, x)), 1));
    }
    let mut sum: u32 = 0;
    for (i, c) in coeffs.iter().enumerate() {
        let mut term: u32 = c.0;
        for (bit, factor) in factors.iter().enumerate() {
            if i >> bit & 1 == 1 {
                term = mul(term, *factor);
            }
        }
        sum = plus(sum, term);
    }
    sum
}

#[test]
fn values_are_those_at_the_points_in_bit_reversed_order() {
    let domain = canonic_domain(5);
    let twiddles = precompute(domain.half_coset);
    let points = domain.points();
    // A polynomial of full length, a shorter one, and a constant.
    let full: Vec<BaseField> = (0..32).map(|i| M31(i * i + 3)).collect();
    let short: Vec<BaseField> = (0..8).map(|i| M31(i + 5)).collect();
    let constant: Vec<BaseField> = vec![M31(77), M31(0), M31(0), M31(0)];
    for coeffs in [full, short.clone(), constant.clone()] {
        let eval = metal_evaluate(&metal_poly(&coeffs), domain, &twiddles);
        for i in 0..32 {
            let p = points[reversed(i, 5)];
            assert_eq!(eval.values.at(i).0, value_at(&coeffs, p));
        }
    }
    let mut longer = short.clone();
    longer.resize(16, M31(0));
    assert_eq!(value_at(&longer, points[3]), value_at(&short, points[3]));
    assert_eq!(value_at(&constant, points[9]), 77);
}

#[test]
fn interpolation_and_evaluation_give_back_the_values() {
    let domain = canonic_domain(6);
    let twiddles = precompute(domain.half_coset);
    let values: Vec<BaseField> = (0..64).map(|i| M31(i * 31 + 7)).collect();
    let eval: CircleEvaluation<MetalBackend> =
        CircleEvaluation::new(domain, MetalBaseColumn::from_iter(values.clone()));
    let poly = metal_interpolate(eval, &twiddles);
    assert_eq!(poly.coeffs.len(), 64);
    let back = metal_evaluate(&poly, domain, &twiddles);
    assert_eq!(back.values.to_cpu(), values);
}
