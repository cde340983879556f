use stwo_metal::backend::{CpuBackend, MetalBackend, SimdBackend, SimdColumn};
use stwo_metal::bits::{bit_reverse, bit_reverse_index, ilog2, pow2_usize};
use stwo_metal::buffer::Buffer;
use stwo_metal::column::MetalBaseColumn;
use stwo_metal::fields::{BaseField, SecureField, M31, P, QM31};
use stwo_metal::gpu::{grid, Grid};
use stwo_metal::secure_column::SecureColumnByCoords;
use stwo_metal::thresholds::{
    MIN_FFT_LOG_SIZE, MIN_FRI_LOG_SIZE, MIN_MERKLE_LOG_SIZE, MIN_MLE_LOG_SIZE,
    MIN_QUOTIENT_LOG_SIZE,
};

fn q(a: u32, b: u32, c: u32, d: u32) -> SecureField {
    QM31::from_m31(M31(a), M31(b), M31(c), M31(d))
}

fn metal_columns(columns: [Vec<u32>; 4]) -> SecureColumnByCoords<MetalBackend> {
    SecureColumnByCoords {
        columns: columns
            .map(|c| MetalBaseColumn::from_iter(c.into_iter().map(M31).collect::<Vec<M31>>())),
    }
}

fn coords(column: &SecureColumnByCoords<MetalBackend>) -> Vec<Vec<u32>> {
    column
        .columns
        .iter()
        .map(|c| c.to_cpu().iter().map(|v| v.0).collect())
        .collect()
}

#[test]
fn words_are_reduced() {
    assert_eq!(BaseField::from(P), M31(0));
    assert_eq!(BaseField::from(u32::MAX), M31(1));
    assert_eq!(BaseField::from(5), M31(5));
}

#[test]
fn products_in_the_extension() {
    // i * i = -1
    assert_eq!(q(0, 1, 0, 0).mul(&q(0, 1, 0, 0)), q(P - 1, 0, 0, 0));
    // u * u = 2 + i
    assert_eq!(q(0, 0, 1, 0).mul(&q(0, 0, 1, 0)), q(2, 1, 0, 0));
    // (1 + 2i + (3 + 4i)u) * (5 + 6i + (7 + 8i)u)
    //   = (-7 + 16i) + (2 + i)(-11 + 52i) + ((1 + 2i)(7 + 8i) + (3 + 4i)(5 + 6i))u
    assert_eq!(q(1, 2, 3, 4).mul(&q(5, 6, 7, 8)), q(P - 81, 109, P - 18, 60));
    assert_eq!(q(P - 1, P - 1, P - 1, P - 1).mul(&q(1, 0, 0, 0)), q(P - 1, P - 1, P - 1, P - 1));
}

#[test]
fn powers_of_a_challenge() {
    let felt = q(3, 1, 4, 1);
    let powers = MetalBackend::generate_secure_powers(felt, 4);
    assert_eq!(powers[0], q(1, 0, 0, 0));
    assert_eq!(powers[1], felt);
    assert_eq!(powers[2], felt.mul(&felt));
    assert_eq!(powers[3], felt.mul(&felt).mul(&felt));
    assert!(MetalBackend::generate_secure_powers(felt, 0).is_empty());
}

#[test]
fn columns_are_accumulated() {
    let mut column = metal_columns([vec![1, P - 1], vec![2, 0], vec![3, 0], vec![4, 7]]);
    let other = metal_columns([vec![10, 1], vec![20, 0], vec![30, 5], vec![40, P - 7]]);
    MetalBackend::accumulate(&mut column, &other);
    assert_eq!(
        coords(&column),
        vec![vec![11, 0], vec![22, 0], vec![33, 5], vec![44, 0]]
    );
}

#[test]
fn columns_are_interleaved_and_taken_apart() {
    let column = metal_columns([vec![1, 5], vec![2, 6], vec![3, 7], vec![4, 8]]);
    assert_eq!(column.len(), 2);
    let buffer = column.as_qm31_interleaved_u32_buffer();
    assert_eq!(buffer.to_words(), vec![1, 2, 3, 4, 5, 6, 7, 8]);
    let back = SecureColumnByCoords::from_qm31_interleaved_buffer(&buffer, 2);
    assert_eq!(coords(&back), coords(&column));
    let first = SecureColumnByCoords::from_qm31_interleaved_buffer(&buffer, 1);
    assert_eq!(coords(&first), vec![vec![1], vec![2], vec![3], vec![4]]);
    let words = Buffer::with_words(&[9, 8, 7, 6]);
    let taken = SecureColumnByCoords::from_qm31_interleaved_buffer(&words, 1);
    assert_eq!(taken.as_qm31_interleaved_u32_buffer().to_words(), vec![9, 8, 7, 6]);
}

#[test]
fn columns_change_their_backend() {
    let values = |k: u32| -> Vec<M31> { vec![M31(k), M31(k + 10)] };
    let cpu: SecureColumnByCoords<CpuBackend> = SecureColumnByCoords {
        columns: [values(1), values(2), values(3), values(4)],
    };
    let metal = SecureColumnByCoords::from_cpu(cpu);
    assert_eq!(
        coords(&metal),
        vec![vec![1, 11], vec![2, 12], vec![3, 13], vec![4, 14]]
    );
    let simd: SecureColumnByCoords<SimdBackend> = SecureColumnByCoords {
        columns: [5, 6, 7, 8].map(|k| SimdColumn { values: values(k) }),
    };
    let metal = SecureColumnByCoords::from_simd(simd);
    assert_eq!(coords(&metal)[3], vec![8, 18]);
    let simd = metal.to_simd();
    assert_eq!(simd.columns[0].values, values(5));
    assert_eq!(simd.columns[3].values, values(8));
}

#[test]
fn powers_logarithms_and_reversal() {
    assert_eq!(pow2_usize(0), 1);
    assert_eq!(pow2_usize(20), 1048576);
    assert_eq!((ilog2(1), ilog2(1023), ilog2(1024)), (0, 9, 10));
    assert_eq!(bit_reverse_index(1, 10), 512);
    assert_eq!(bit_reverse_index(6, 3), 3);
    let mut v: Vec<u32> = (0..4).collect();
    bit_reverse(&mut v);
    assert_eq!(v, vec![0, 2, 1, 3]);
    let mut v: Vec<u32> = vec![9];
    bit_reverse(&mut v);
    assert_eq!(v, vec![9]);
}

#[test]
fn grids_cover_their_threads() {
    let g = |threadgroups, threadgroup_size| Grid {
        threadgroups,
        threadgroup_size,
    };
    assert_eq!(grid(0), g(0, 1));
    assert_eq!(grid(1), g(1, 1));
    assert_eq!(grid(255), g(1, 255));
    assert_eq!(grid(256), g(1, 256));
    assert_eq!(grid(257), g(2, 256));
    assert_eq!(grid(1 << 20), g(4096, 256));
    for n in 0..2000u64 {
        let g = grid(n);
        assert!(g.threadgroups * g.threadgroup_size >= n);
        assert!(g.threadgroups * g.threadgroup_size < n + g.threadgroup_size);
    }
}

#[test]
fn thresholds_of_the_gpu() {
    assert_eq!(MIN_FFT_LOG_SIZE, 12);
    assert_eq!(MIN_FRI_LOG_SIZE, 10);
    assert_eq!(MIN_MERKLE_LOG_SIZE, 10);
    assert_eq!(MIN_QUOTIENT_LOG_SIZE, 10);
    assert_eq!(MIN_MLE_LOG_SIZE, 10);
}
