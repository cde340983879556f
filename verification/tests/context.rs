use stwo_metal::circle::{CircleDomain, CirclePoint, Coset};
use stwo_metal::context::{MetalContext, TwiddleSection};
use stwo_metal::fields::M31;
use stwo_metal::gpu::Kernel;
use stwo_metal::init::{function_name, pipeline_kernels, ContextInit, InitAction, InitEvent};

type Init = ContextInit<&'static str>;

/// Runs an initialization in which the action number `fail_at` fails.
fn initialize(
    metal_debug: bool,
    fail_at: usize,
) -> (Vec<InitAction>, Result<MetalContext<u8, u8, &'static str>, String>) {
    let mut actions: Vec<InitAction> = Vec::new();
    let mut init: Init = ContextInit::new(metal_debug);
    loop {
        let action = init.action();
        let ok: bool = actions.len() != fail_at;
        actions.push(action);
        let done = |value: bool| -> Result<(), String> {
            if value {
                Ok(())
            } else {
                Err(String::from("boom"))
            }
        };
        let event = match action {
            InitAction::FindDevice => InitEvent::Device(ok),
            InitAction::CompileLibrary { .. } => InitEvent::Library(done(ok)),
            InitAction::GetFunction(_) => InitEvent::Function(done(ok)),
            InitAction::CreatePipeline(kernel) => {
                InitEvent::Pipeline(done(ok).map(|_| function_name(kernel).unwrap()))
            }
            InitAction::Finish => return (actions, Ok(MetalContext::new(init, 1, 2))),
        };
        init = match init.advance(event) {
            Ok(next) => next,
            Err(message) => return (actions, Err(message)),
        };
    }
}

fn failure(fail_at: usize) -> String {
    match initialize(false, fail_at) {
        (_, Err(message)) => message,
        (_, Ok(_)) => panic!("the initialization fails"),
    }
}

fn domain(log_size: u32) -> CircleDomain {
    let p = CirclePoint {
        x: M31(2),
        y: M31(1268011823),
    };
    CircleDomain {
        half_coset: Coset {
            initial: p,
            step: p.double(),
            log_size: log_size - 1,
        },
    }
}

#[test]
fn initialization_compiles_every_pipeline_once() {
    let (actions, context) = initialize(false, usize::MAX);
    assert!(context.is_ok());
    let mut expected: Vec<InitAction> = vec![
        InitAction::FindDevice,
        InitAction::CompileLibrary { fast_math: true },
    ];
    for kernel in pipeline_kernels() {
        expected.push(InitAction::GetFunction(kernel));
        expected.push(InitAction::CreatePipeline(kernel));
    }
    expected.push(InitAction::Finish);
    assert_eq!(actions, expected);
    assert_eq!(actions.len(), 33);
    let names: Vec<&str> = pipeline_kernels()
        .iter()
        .map(|k| function_name(*k).unwrap())
        .collect();
    assert_eq!(
        names,
        vec![
            "circle_fft_radix8",
            "circle_ifft_radix8",
            "circle_fft_radix2",
            "circle_ifft_radix2",
            "circle_fft_vecwise_fused",
            "ifft_normalize_m31",
            "fri_fold_circle_into_line",
            "fri_fold_line",
            "quotient_accumulate",
            "merkle_blake2s",
            "mle_fold_m31_to_qm31",
            "mle_fold_qm31_to_qm31",
            "grind_pow",
            "pack_coords_to_qm31",
            "unpack_qm31_to_coords",
        ]
    );
    assert_eq!(function_name(Kernel::MerkleLeaf), None);
}

#[test]
fn debug_shaders_do_without_fast_math() {
    let (actions, _) = initialize(true, usize::MAX);
    assert_eq!(actions[1], InitAction::CompileLibrary { fast_math: false });
}

#[test]
fn failures_say_what_went_wrong() {
    assert_eq!(failure(0), "No Metal device found");
    assert_eq!(failure(1), "Failed to compile Metal shaders: boom");
    assert_eq!(failure(2), "Failed to get function 'circle_fft_radix8': boom");
    assert_eq!(
        failure(3),
        "Failed to create pipeline for 'circle_fft_radix8': boom"
    );
    assert_eq!(
        failure(30),
        "Failed to get function 'unpack_qm31_to_coords': boom"
    );
    assert_eq!(
        failure(31),
        "Failed to create pipeline for 'unpack_qm31_to_coords': boom"
    );
    let (actions, _) = initialize(false, 5);
    assert_eq!(actions.len(), 6);
}

#[test]
fn pipelines_are_found_by_name() {
    let context = initialize(false, usize::MAX).1.unwrap();
    assert_eq!(*context.fft_radix8_pipeline(), "circle_fft_radix8");
    assert_eq!(*context.ifft_radix8_pipeline(), "circle_ifft_radix8");
    assert_eq!(*context.fft_radix2_pipeline(), "circle_fft_radix2");
    assert_eq!(*context.ifft_radix2_pipeline(), "circle_ifft_radix2");
    assert_eq!(
        *context.fft_vecwise_fused_pipeline(),
        "circle_fft_vecwise_fused"
    );
    assert_eq!(*context.ifft_normalize_pipeline(), "ifft_normalize_m31");
    assert_eq!(
        *context.fri_fold_circle_pipeline(),
        "fri_fold_circle_into_line"
    );
    assert_eq!(*context.fri_fold_line_pipeline(), "fri_fold_line");
    assert_eq!(*context.quotient_pipeline(), "quotient_accumulate");
    assert_eq!(*context.merkle_pipeline(), "merkle_blake2s");
    assert_eq!(*context.mle_fold_m31_pipeline(), "mle_fold_m31_to_qm31");
    assert_eq!(*context.mle_fold_qm31_pipeline(), "mle_fold_qm31_to_qm31");
    assert_eq!(*context.grind_pipeline(), "grind_pow");
    assert_eq!(
        *context.pack_coords_to_qm31_pipeline(),
        "pack_coords_to_qm31"
    );
    assert_eq!(
        *context.unpack_qm31_to_coords_pipeline(),
        "unpack_qm31_to_coords"
    );
    for kernel in pipeline_kernels() {
        assert_eq!(context.pipeline(kernel).copied(), function_name(kernel));
    }
    assert_eq!(context.pipeline(Kernel::MerkleLeaf), None);
    assert_eq!((*context.device(), *context.command_queue()), (1, 2));
}

#[test]
fn cached_twiddles_are_those_that_were_asked_for() {
    let mut context = initialize(false, usize::MAX).1.unwrap();
    let first: Vec<u32> = vec![1, 9, 3, 4];
    assert_eq!(context.get_or_create_twiddle_buffer(&first).to_words(), first);
    assert_eq!(context.get_or_create_twiddle_buffer(&first).to_words(), first);
    // The same length, first, middle and last word, but other twiddles.
    let second: Vec<u32> = vec![1, 2, 3, 4];
    assert_eq!(
        context.get_or_create_twiddle_buffer(&second).to_words(),
        second
    );
    assert_eq!(context.get_or_create_twiddle_buffer(&first).to_words(), first);
    // Another middle word, another length.
    for other in [vec![1, 9, 7, 4], vec![1, 9, 3], vec![], vec![6]] {
        assert_eq!(context.get_or_create_twiddle_buffer(&other).to_words(), other);
    }
    assert_eq!(context.get_or_create_twiddle_buffer(&first).to_words(), first);
}

#[test]
fn twiddles_are_kept_until_others_take_their_key() {
    let mut context = initialize(false, usize::MAX).1.unwrap();
    let first: Vec<u32> = vec![1, 9, 3, 4];
    let second: Vec<u32> = vec![1, 2, 3, 4];
    assert!(!context.has_twiddle_buffer(&first));
    context.get_or_create_twiddle_buffer(&first);
    assert!(context.has_twiddle_buffer(&first) && !context.has_twiddle_buffer(&second));
    context.get_or_create_twiddle_buffer(&vec![5]);
    assert!(context.has_twiddle_buffer(&first) && context.has_twiddle_buffer(&[5]));
    context.get_or_create_twiddle_buffer(&second);
    assert!(!context.has_twiddle_buffer(&first) && context.has_twiddle_buffer(&second));
}

#[test]
fn flat_twiddles_are_kept_apart_from_layers() {
    let mut context = initialize(false, usize::MAX).1.unwrap();
    let layer: Vec<u32> = vec![1, 9, 3, 4];
    context.get_or_create_twiddle_buffer(&layer);
    // The layers have the key of the twiddles above, and other words.
    let flat = context.get_or_create_flat_twiddle_buffer(&[&[1, 2], &[3, 4]]);
    assert_eq!(flat.buffer.to_words(), vec![1, 2, 3, 4]);
    assert!(context.has_twiddle_buffer(&layer));
    assert!(!context.has_twiddle_buffer(&[1, 2, 3, 4]));
    let again = context.get_or_create_flat_twiddle_buffer(&[&[1], &[2, 3, 4]]);
    assert_eq!(again.buffer.to_words(), vec![1, 2, 3, 4]);
    assert_eq!(again.sections[1], TwiddleSection { offset: 1, len: 3 });
}

#[test]
fn layers_of_twiddles_lie_in_one_buffer() {
    let mut context = initialize(false, usize::MAX).1.unwrap();
    let layers: [&[u32]; 4] = [&[1, 2, 3, 4], &[5, 6], &[], &[7]];
    let flat = context.get_or_create_flat_twiddle_buffer(&layers);
    assert_eq!(flat.buffer.to_words(), vec![1, 2, 3, 4, 5, 6, 7]);
    let section = |offset, len| TwiddleSection { offset, len };
    assert_eq!(
        flat.sections,
        vec![section(0, 4), section(4, 2), section(6, 0), section(6, 1)]
    );
    let empty = context.get_or_create_flat_twiddle_buffer(&[]);
    assert!(empty.buffer.to_words().is_empty() && empty.sections.is_empty());
}

#[test]
fn domain_points_are_cached_by_size() {
    let mut context = initialize(false, usize::MAX).1.unwrap();
    let d = domain(3);
    let points = d.points();
    let (x, y) = context.get_or_create_domain_xy_buffers(d);
    let (x, y) = (x.to_words(), y.to_words());
    let order: [usize; 8] = [0, 4, 2, 6, 1, 5, 3, 7];
    assert_eq!(x, order.map(|i| points[i].x.0).to_vec());
    assert_eq!(y, order.map(|i| points[i].y.0).to_vec());
    // A domain of the same size finds the same buffers, one of another size does not.
    let mut other = domain(3);
    other.half_coset.initial = other.half_coset.initial.double();
    let (again, _) = context.get_or_create_domain_xy_buffers(other);
    assert_eq!(again.to_words(), x);
    let (small, _) = context.get_or_create_domain_xy_buffers(domain(2));
    assert_eq!(small.len(), 4);
}
