use stwo_metal::backend::{MetalBackend, SimdBackend, SimdColumn};
use stwo_metal::circle::{CircleDomain, CirclePoint, Coset, LineDomain, TwiddleTree};
use stwo_metal::column::{MetalBaseColumn, MetalSecureColumn};
use stwo_metal::context::MetalContext;
use stwo_metal::evaluation::{CircleEvaluation, LineEvaluation, SecureEvaluation};
use stwo_metal::fields::{SecureField, M31, P, QM31};
use stwo_metal::fri::{FoldCirclePlan, FoldLinePlan, FoldReply};
use stwo_metal::gkr::{FixPlan, FixReply, Mle};
use stwo_metal::gpu::{Allocation, Binding, Command, Dispatch, Grid, Kernel, Readback, Submission};
use stwo_metal::init::{ContextInit, InitAction, InitEvent};
use stwo_metal::secure_column::SecureColumnByCoords;

fn context() -> MetalContext<(), (), usize> {
    let mut init: ContextInit<usize> = ContextInit::new(false);
    let mut made: usize = 0;
    loop {
        let event = match init.action() {
            InitAction::FindDevice => InitEvent::Device(true),
            InitAction::CompileLibrary { .. } => InitEvent::Library(Ok(())),
            InitAction::GetFunction(_) => InitEvent::Function(Ok(())),
            InitAction::CreatePipeline(_) => {
                made += 1;
                InitEvent::Pipeline(Ok(made))
            }
            InitAction::Finish => return MetalContext::new(init, (), ()),
        };
        init = init.advance(event).unwrap();
    }
}

fn coset(log_size: u32) -> Coset {
    let p = CirclePoint {
        x: M31(2),
        y: M31(1268011823),
    };
    Coset {
        initial: p,
        step: p.double(),
        log_size,
    }
}

fn values(len: u32) -> SecureColumnByCoords<MetalBackend> {
    SecureColumnByCoords {
        columns: [0u32, 1, 2, 3]
            .map(|k| MetalBaseColumn::from_iter((0..len).map(|i| M31(4 * i + k)).collect())),
    }
}

fn simd_values(len: u32) -> SecureColumnByCoords<SimdBackend> {
    SecureColumnByCoords {
        columns: [0u32, 1, 2, 3].map(|k| SimdColumn {
            values: (0..len).map(|i| M31(7 * i + k)).collect(),
        }),
    }
}

fn coords(column: &SecureColumnByCoords<MetalBackend>) -> Vec<Vec<u32>> {
    column
        .columns
        .iter()
        .map(|c| c.to_cpu().iter().map(|v| v.0).collect())
        .collect()
}

fn twiddles(len: u32) -> TwiddleTree {
    TwiddleTree {
        root_coset: coset(1),
        twiddles: (0..len).collect(),
        itwiddles: (1000..1000 + len).collect(),
    }
}

fn alpha() -> SecureField {
    QM31::from_m31(M31(1), M31(2), M31(3), M31(4))
}

fn dispatch(s: &Submission) -> &Dispatch {
    assert_eq!(s.command_buffers.len(), 1);
    assert_eq!(s.command_buffers[0].len(), 1);
    match &s.command_buffers[0][0] {
        Command::Compute(d) => d,
        Command::Copy(_) => panic!("a dispatch is expected"),
    }
}

fn data(allocation: &Allocation) -> &Vec<u32> {
    match allocation {
        Allocation::Data(words) => words,
        _ => panic!("data is expected"),
    }
}

#[test]
fn long_line_is_folded_on_the_gpu() {
    let mut ctx = context();
    let eval: LineEvaluation<MetalBackend> =
        LineEvaluation::new(LineDomain { coset: coset(10) }, values(1024));
    let tree = twiddles(2000);
    let s = match MetalBackend::fold_line(&mut ctx, &eval, alpha(), &tree) {
        FoldLinePlan::Gpu(s) => s,
        FoldLinePlan::Simd(_) => panic!("the line is long"),
    };
    assert_eq!(data(&s.buffers[0]), &(0..4096).collect::<Vec<u32>>());
    assert!(matches!(s.buffers[1], Allocation::Pooled(8192)));
    // The longest of the ten layers: 512 words that end 512 before the end.
    let expected: Vec<u32> = (1000 + 2000 - 1024..1000 + 2000 - 512).collect();
    let first_key = match &s.buffers[2] {
        Allocation::Twiddles { key, words, cached } => {
            assert_eq!(words, &expected);
            assert!(!cached, "nobody asked for them before");
            *key
        }
        _ => panic!("the twiddles are cached"),
    };
    assert_eq!(data(&s.buffers[3]), &vec![1, 2, 3, 4]);
    let d = dispatch(&s);
    assert_eq!(d.kernel, Kernel::FriFoldLine);
    assert_eq!(
        d.bindings,
        vec![
            Binding::Buffer(0),
            Binding::Buffer(1),
            Binding::Buffer(2),
            Binding::Buffer(3),
            Binding::U32(10),
        ]
    );
    assert_eq!(
        d.grid,
        Grid {
            threadgroups: 2,
            threadgroup_size: 256
        }
    );
    assert_eq!(
        s.readbacks,
        vec![Readback {
            slot: 1,
            words: 2048
        }]
    );
    assert_eq!(
        ctx.get_or_create_twiddle_buffer(&expected).to_words(),
        expected
    );
    // The same twiddles again have the same key and are cached.
    match MetalBackend::fold_line(&mut ctx, &eval, alpha(), &tree) {
        FoldLinePlan::Gpu(again) => match &again.buffers[2] {
            Allocation::Twiddles { key, cached, .. } => {
                assert_eq!(*key, first_key);
                assert!(cached);
            }
            _ => panic!("the twiddles are cached"),
        },
        FoldLinePlan::Simd(_) => panic!("the line is long"),
    }

    let line = MetalBackend::finish_fold_line(eval.domain, FoldReply::Gpu((0..2048).collect()));
    assert_eq!(line.domain, eval.domain.double());
    assert_eq!(line.values.len(), 512);
    assert_eq!(coords(&line.values)[3][511], 2047);
    assert_eq!(coords(&line.values)[0][1], 4);
}

#[test]
fn short_line_is_folded_by_simd() {
    let mut ctx = context();
    let eval: LineEvaluation<MetalBackend> =
        LineEvaluation::new(LineDomain { coset: coset(9) }, values(512));
    let tree = twiddles(600);
    let request = match MetalBackend::fold_line(&mut ctx, &eval, alpha(), &tree) {
        FoldLinePlan::Simd(request) => request,
        FoldLinePlan::Gpu(_) => panic!("the line is short"),
    };
    assert_eq!(request.alpha, alpha());
    assert_eq!(request.eval.domain, eval.domain);
    assert_eq!(request.eval.values.columns[1].values[2], M31(9));
    assert_eq!(request.twiddles.itwiddles, tree.itwiddles);
    let result: LineEvaluation<SimdBackend> =
        LineEvaluation::new(eval.domain.double(), simd_values(256));
    let line = MetalBackend::finish_fold_line(eval.domain, FoldReply::Simd(result));
    assert_eq!(line.domain, eval.domain.double());
    assert_eq!(coords(&line.values)[2][10], 72);
}

#[test]
fn long_circle_is_folded_on_the_gpu() {
    let mut ctx = context();
    let domain = CircleDomain {
        half_coset: coset(9),
    };
    let src: SecureEvaluation<MetalBackend> = SecureEvaluation::new(domain, values(1024));
    let mut dst: LineEvaluation<MetalBackend> =
        LineEvaluation::new(domain.line_domain(), values(512));
    let tree = twiddles(512);
    let s = match MetalBackend::fold_circle_into_line(&mut ctx, &dst, &src, alpha(), &tree) {
        FoldCirclePlan::Gpu(s) => s,
        FoldCirclePlan::Simd(_) => panic!("the circle is long"),
    };
    assert_eq!(data(&s.buffers[0]), &(0..4096).collect::<Vec<u32>>());
    assert_eq!(data(&s.buffers[1]), &(0..2048).collect::<Vec<u32>>());
    match &s.buffers[2] {
        Allocation::Twiddles { words, .. } => {
            assert_eq!(words, &(1000..1256).collect::<Vec<u32>>())
        }
        _ => panic!("the twiddles are cached"),
    }
    assert_eq!(data(&s.buffers[3]), &vec![1, 2, 3, 4]);
    let squared = alpha().mul(&alpha()).to_m31_array();
    assert_eq!(
        data(&s.buffers[4]),
        &squared.iter().map(|v| v.0).collect::<Vec<u32>>()
    );
    let d = dispatch(&s);
    assert_eq!(d.kernel, Kernel::FriFoldCircle);
    assert_eq!(d.bindings[4], Binding::Buffer(4));
    assert_eq!(d.bindings[5], Binding::U32(10));
    assert_eq!(
        s.readbacks,
        vec![Readback {
            slot: 1,
            words: 2048
        }]
    );
    let words: Vec<u32> = (5..2053).collect();
    MetalBackend::finish_fold_circle_into_line(&mut dst, 10, FoldReply::Gpu(words));
    assert_eq!(dst.domain, domain.line_domain());
    assert_eq!(dst.values.len(), 512);
    assert_eq!(coords(&dst.values)[1][1], 10);
}

#[test]
fn short_circle_is_folded_by_simd() {
    let mut ctx = context();
    let domain = CircleDomain {
        half_coset: coset(1),
    };
    let src: SecureEvaluation<MetalBackend> = SecureEvaluation::new(domain, values(4));
    let mut dst: LineEvaluation<MetalBackend> =
        LineEvaluation::new(domain.line_domain(), values(2));
    let tree = twiddles(2);
    let request = match MetalBackend::fold_circle_into_line(&mut ctx, &dst, &src, alpha(), &tree) {
        FoldCirclePlan::Simd(request) => request,
        FoldCirclePlan::Gpu(_) => panic!("the circle is short"),
    };
    assert_eq!(request.src.values.columns[3].values.len(), 4);
    assert_eq!(request.dst.values.columns[0].values, vec![M31(0), M31(4)]);
    assert_eq!(request.alpha, alpha());
    let mut result = request.dst;
    result.values = simd_values(2);
    MetalBackend::finish_fold_circle_into_line(&mut dst, 2, FoldReply::Simd(result));
    assert_eq!(
        coords(&dst.values),
        vec![vec![0, 7], vec![1, 8], vec![2, 9], vec![3, 10]]
    );
}

#[test]
fn decomposition_goes_through_simd() {
    let domain = CircleDomain {
        half_coset: coset(1),
    };
    let eval: SecureEvaluation<MetalBackend> = SecureEvaluation::new(domain, values(4));
    let request = MetalBackend::decompose(&eval);
    assert_eq!(request.domain, domain);
    assert_eq!(
        request.values.columns[2].values,
        vec![M31(2), M31(6), M31(10), M31(14)]
    );
    let result: SecureEvaluation<SimdBackend> = SecureEvaluation::new(domain, simd_values(4));
    let (eval, lambda) = MetalBackend::finish_decompose(result, alpha());
    assert_eq!(lambda, alpha());
    assert_eq!(coords(&eval.values)[0], vec![0, 7, 14, 21]);
}

#[test]
fn large_base_extension_is_fixed_on_the_gpu() {
    let mle = Mle::<MetalBaseColumn>::new(MetalBaseColumn::from_iter(
        (0..1024).map(M31::from).collect(),
    ));
    let s = match MetalBackend::fix_first_variable_m31(mle, alpha()) {
        FixPlan::Gpu(s) => s,
        FixPlan::Simd(_) => panic!("the extension is large"),
    };
    assert_eq!(data(&s.buffers[0]), &(0..1024).collect::<Vec<u32>>());
    assert_eq!(data(&s.buffers[1]), &vec![0u32; 2048]);
    assert_eq!(data(&s.buffers[2]), &vec![1, 2, 3, 4]);
    let d = dispatch(&s);
    assert_eq!(d.kernel, Kernel::MleFoldM31);
    assert_eq!(
        d.bindings,
        vec![
            Binding::Buffer(0),
            Binding::Buffer(1),
            Binding::Buffer(2),
            Binding::U32(10),
        ]
    );
    assert_eq!(
        s.readbacks,
        vec![Readback {
            slot: 1,
            words: 2048
        }]
    );
    // Words that are not canonical are reduced.
    let mut words: Vec<u32> = (0..2048).collect();
    words[4] = P;
    words[5] = u32::MAX;
    let fixed = MetalBackend::finish_fix_first_variable(1024, FixReply::Gpu(words));
    assert_eq!(fixed.evals.len(), 512);
    assert_eq!(
        fixed.evals.at(1),
        QM31::from_m31(M31(0), M31(1), M31(6), M31(7))
    );
}

#[test]
fn large_secure_extension_is_fixed_on_the_gpu() {
    let values: Vec<SecureField> = (0..1024)
        .map(|i| QM31::from_m31(M31(4 * i), M31(4 * i + 1), M31(4 * i + 2), M31(4 * i + 3)))
        .collect();
    let mle = Mle::<MetalSecureColumn>::new(MetalSecureColumn::from_iter(values));
    let s = match MetalBackend::fix_first_variable_qm31(mle, alpha()) {
        FixPlan::Gpu(s) => s,
        FixPlan::Simd(_) => panic!("the extension is large"),
    };
    assert_eq!(data(&s.buffers[0]), &(0..4096).collect::<Vec<u32>>());
    assert_eq!(data(&s.buffers[1]).len(), 2048);
    assert_eq!(dispatch(&s).kernel, Kernel::MleFoldQm31);
}

#[test]
fn small_extensions_are_fixed_by_simd() {
    let base = Mle::<MetalBaseColumn>::new(MetalBaseColumn::from_iter(vec![M31(3), M31(5)]));
    match MetalBackend::fix_first_variable_m31(base, alpha()) {
        FixPlan::Simd(request) => {
            assert_eq!(request.mle.evals.values, vec![M31(3), M31(5)]);
            assert_eq!(request.assignment, alpha());
        }
        FixPlan::Gpu(_) => panic!("the extension is small"),
    }
    let secure = Mle::<MetalSecureColumn>::new(MetalSecureColumn::from_iter(vec![alpha()]));
    let request = match MetalBackend::fix_first_variable_qm31(secure, alpha()) {
        FixPlan::Simd(request) => request,
        FixPlan::Gpu(_) => panic!("the extension is small"),
    };
    let fixed = MetalBackend::finish_fix_first_variable(1, FixReply::Simd(request.mle));
    assert_eq!(fixed.evals.to_cpu(), vec![alpha()]);
}

#[test]
fn eq_evals_go_through_simd() {
    let y = [alpha(), alpha().mul(&alpha())];
    let request = MetalBackend::gen_eq_evals(&y, alpha());
    assert_eq!(request.y, &y);
    assert_eq!(request.v, alpha());
    let result = Mle {
        evals: SimdColumn {
            values: vec![alpha(); 4],
        },
    };
    let mle = MetalBackend::finish_gen_eq_evals(result);
    assert_eq!(mle.evals.to_cpu(), vec![alpha(); 4]);
}

#[test]
fn quotients_go_through_simd() {
    let domain = CircleDomain {
        half_coset: coset(1),
    };
    let column: CircleEvaluation<MetalBackend> = CircleEvaluation::new(
        domain,
        MetalBaseColumn::from_iter((0..4).map(M31::from).collect()),
    );
    let batches = ["a batch", "another"];
    let request =
        MetalBackend::accumulate_quotients(domain, &[&column, &column], alpha(), &batches, 3);
    assert_eq!(request.domain, domain);
    assert_eq!(request.columns.len(), 2);
    assert_eq!(
        request.columns[1].values.values,
        vec![M31(0), M31(1), M31(2), M31(3)]
    );
    assert_eq!(request.random_coeff, alpha());
    assert_eq!(request.sample_batches, &batches);
    assert_eq!(request.log_blowup_factor, 3);
    let result: SecureEvaluation<SimdBackend> = SecureEvaluation::new(domain, simd_values(4));
    let eval = MetalBackend::finish_accumulate_quotients(result);
    assert_eq!(eval.domain, domain);
    assert_eq!(coords(&eval.values)[1], vec![1, 8, 15, 22]);
}

/// A stand-in for fixing the first variable: coordinates of the lower half times the first
/// coordinate of the assignment, plus those of the upper half.
fn toy_fix(values: &[QM31], assignment: SecureField) -> Vec<QM31> {
    let (low, high) = values.split_at(values.len() / 2);
    let scale = assignment.to_m31_array()[0].0 as u64;
    low.iter()
        .zip(high)
        .map(|(l, h)| {
            let (l, h) = (l.to_m31_array(), h.to_m31_array());
            let word = |i: usize| M31(((l[i].0 as u64 * scale + h[i].0 as u64) % P as u64) as u32);
            QM31::from_m31(word(0), word(1), word(2), word(3))
        })
        .collect()
}

/// Carries the submission out, with the toy function in place of the kernels.
fn run_fix(s: &Submission) -> Vec<u32> {
    let element = |w: &[u32]| QM31::from_m31(M31(w[0]), M31(w[1]), M31(w[2]), M31(w[3]));
    let values: Vec<QM31> = match dispatch(s).kernel {
        Kernel::MleFoldM31 => data(&s.buffers[0])
            .iter()
            .map(|w| element(&[*w, 0, 0, 0]))
            .collect(),
        Kernel::MleFoldQm31 => data(&s.buffers[0]).chunks(4).map(element).collect(),
        _ => panic!("a kernel that fixes a variable"),
    };
    assert_eq!(dispatch(s).bindings[3], Binding::U32(values.len().ilog2()));
    let words: Vec<u32> = toy_fix(&values, element(data(&s.buffers[2])))
        .iter()
        .flat_map(|v| v.to_m31_array().map(|m| m.0))
        .collect();
    assert!(words.len() <= data(&s.buffers[1]).len());
    words[..s.readbacks[0].words].to_vec()
}

fn fix_base(values: Vec<M31>) -> Vec<QM31> {
    let len = values.len();
    let mle = Mle::<MetalBaseColumn>::new(MetalBaseColumn::from_iter(values));
    let reply = match MetalBackend::fix_first_variable_m31(mle, alpha()) {
        FixPlan::Gpu(s) => FixReply::Gpu(run_fix(&s)),
        FixPlan::Simd(request) => {
            let lifted: Vec<QM31> = request
                .mle
                .evals
                .values
                .iter()
                .map(|v| QM31::from_m31(*v, M31(0), M31(0), M31(0)))
                .collect();
            FixReply::Simd(Mle {
                evals: SimdColumn {
                    values: toy_fix(&lifted, request.assignment),
                },
            })
        }
    };
    MetalBackend::finish_fix_first_variable(len, reply).evals.to_cpu()
}

fn fix_secure(values: Vec<QM31>) -> Vec<QM31> {
    let len = values.len();
    let mle = Mle::<MetalSecureColumn>::new(MetalSecureColumn::from_iter(values));
    let reply = match MetalBackend::fix_first_variable_qm31(mle, alpha()) {
        FixPlan::Gpu(s) => FixReply::Gpu(run_fix(&s)),
        FixPlan::Simd(request) => FixReply::Simd(Mle {
            evals: SimdColumn {
                values: toy_fix(&request.mle.evals.values, request.assignment),
            },
        }),
    };
    MetalBackend::finish_fix_first_variable(len, reply).evals.to_cpu()
}

#[test]
fn a_variable_is_fixed_alike_across_the_threshold() {
    for len in [512u32, 1024, 2048] {
        let base: Vec<M31> = (0..len).map(|i| M31(3 * i + 1)).collect();
        let lifted: Vec<QM31> = base
            .iter()
            .map(|v| QM31::from_m31(*v, M31(0), M31(0), M31(0)))
            .collect();
        assert_eq!(fix_base(base), toy_fix(&lifted, alpha()));
        let secure: Vec<QM31> = (0..len)
            .map(|i| QM31::from_m31(M31(i), M31(2 * i), M31(5), M31(9 * i)))
            .collect();
        assert_eq!(fix_secure(secure.clone()), toy_fix(&secure, alpha()));
    }
}
