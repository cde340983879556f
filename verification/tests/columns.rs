use stwo_metal::backend::MetalBackend;
use stwo_metal::buffer::{Buffer, GpuSlice};
use stwo_metal::column::{MetalBaseColumn, MetalSecureColumn};
use stwo_metal::fields::{BaseField, SecureField, M31};

fn secure(i: u32) -> SecureField {
    SecureField::from_m31(M31(i), M31(i + 100), M31(i + 200), M31(i + 300))
}

#[test]
fn test_metal_base_column_zeros() {
    let col = MetalBaseColumn::zeros(100);
    assert_eq!(col.len(), 100);
    assert_eq!(col.at(0), M31::from(0));
    assert_eq!(col.at(99), M31::from(0));
}

#[test]
fn test_metal_base_column_from_iter() {
    let data: Vec<BaseField> = (0..10).map(M31::from).collect();
    let col: MetalBaseColumn = MetalBaseColumn::from_iter(data.clone());

    assert_eq!(col.len(), 10);
    assert_eq!(col.at(0), M31::from(0));
    assert_eq!(col.at(9), M31::from(9));
}

#[test]
fn test_metal_base_column_split() {
    let data: Vec<BaseField> = (0..8).map(M31::from).collect();
    let col: MetalBaseColumn = MetalBaseColumn::from_iter(data.clone());

    let (left, right) = col.split_at_mid();

    assert_eq!(left.len(), 4);
    assert_eq!(right.len(), 4);
    assert_eq!(left.at(0), M31::from(0));
    assert_eq!(left.at(3), M31::from(3));
    assert_eq!(right.at(0), M31::from(4));
    assert_eq!(right.at(3), M31::from(7));
}

#[test]
fn test_metal_secure_column_zeros() {
    let col = MetalSecureColumn::zeros(50);
    assert_eq!(col.len(), 50);
    let val0 = col.at(0);
    let val49 = col.at(49);
    assert_eq!(
        val0,
        SecureField::from_m31(M31::from(0), M31::from(0), M31::from(0), M31::from(0))
    );
    assert_eq!(
        val49,
        SecureField::from_m31(M31::from(0), M31::from(0), M31::from(0), M31::from(0))
    );
}

#[test]
fn odd_element_is_dropped_by_a_split() {
    let col = MetalBaseColumn::from_iter((0..5).map(M31::from).collect());
    let (left, right) = col.split_at_mid();
    assert_eq!(left.to_cpu(), vec![M31(0), M31(1)]);
    assert_eq!(right.to_cpu(), vec![M31(2), M31(3)]);

    let col = MetalSecureColumn::from_iter((0..3).map(secure).collect());
    let (left, right) = col.split_at_mid();
    assert_eq!(left.to_cpu(), vec![secure(0)]);
    assert_eq!(right.to_cpu(), vec![secure(1)]);
}

#[test]
fn base_column_writes_are_read_back() {
    let mut col = MetalBaseColumn::uninitialized(4);
    assert_eq!(col.len(), 4);
    col.set(2, M31(7));
    col.as_mut_slice()[3] = M31(9);
    assert_eq!(col.as_slice(), &[M31(0), M31(0), M31(7), M31(9)]);
    assert_eq!(col.buffer().to_words(), vec![0, 0, 7, 9]);
}

#[test]
fn base_column_is_a_prefix_of_its_buffer() {
    let buffer = Buffer::with_words(&[5, 6, 7, 8]);
    let mut col = MetalBaseColumn::from_buffer(buffer, 2);
    assert_eq!(col.to_cpu(), vec![M31(5), M31(6)]);
    col.set(1, M31(60));
    assert_eq!(col.buffer().to_words(), vec![5, 60, 7, 8]);
}

#[test]
fn secure_column_lies_flat_in_memory() {
    let mut col = MetalSecureColumn::from_iter(vec![secure(1), secure(2)]);
    assert_eq!(
        col.buffer().to_words(),
        vec![1, 101, 201, 301, 2, 102, 202, 302]
    );
    col.set(0, secure(50));
    assert_eq!(col.at(0), secure(50));
    assert_eq!(col.at(1), secure(2));
    let other = SecureField::from_m31(M31(2), M31(102), M31(202), M31(9));
    col.as_mut_slice()[1] = other;
    assert_eq!(col.as_slice(), &[secure(50), other]);
    assert_eq!(col.to_cpu(), vec![secure(50), other]);
    assert_eq!(
        col.buffer().to_words(),
        vec![50, 150, 250, 350, 2, 102, 202, 9]
    );
    assert_eq!(MetalSecureColumn::uninitialized(3).len(), 3);
}

#[test]
fn secure_column_of_a_longer_buffer() {
    let col = MetalSecureColumn::from_buffer(Buffer::with_words(&[1, 2, 3, 4, 5]), 1);
    assert_eq!(
        col.to_cpu(),
        vec![SecureField::from_m31(M31(1), M31(2), M31(3), M31(4))]
    );
    let mut col = col;
    col.as_mut_slice()[0] = secure(6);
    assert_eq!(col.buffer().to_words(), vec![6, 106, 206, 306, 5]);
}

#[test]
fn gpu_slices_look_at_a_range() {
    let buffer = Buffer::with_words(&[10, 11, 12, 13, 14, 15, 16, 17, 18]);
    let slice = GpuSlice::new(&buffer, 8, 3);
    assert_eq!(slice.as_u32_ptr(), (vec![12, 13, 14], 3));
    let (words, len) = slice.as_basefield_ptr();
    assert_eq!((words, len), (vec![M31(12), M31(13), M31(14)], 3));
    let slice = GpuSlice::new(&buffer, 4, 2);
    let (elements, len) = slice.as_securefield_ptr();
    assert_eq!(len, 2);
    assert_eq!(
        elements[1],
        SecureField::from_m31(M31(15), M31(16), M31(17), M31(18))
    );

    let col = MetalBaseColumn::from_iter(vec![M31(3), M31(4)]);
    assert_eq!(col.as_gpu_slice().as_u32_ptr(), (vec![3, 4], 2));
    let col = MetalSecureColumn::from_iter(vec![secure(3)]);
    assert_eq!(col.as_gpu_slice().as_securefield_ptr(), (vec![secure(3)], 1));
}

#[test]
fn bit_reversal_of_columns_undoes_itself() {
    let values: Vec<M31> = (0..8).map(M31::from).collect();
    let mut col = MetalBaseColumn::from_iter(values.clone());
    MetalBackend::bit_reverse_base_column(&mut col);
    let order: Vec<u32> = col.to_cpu().iter().map(|v| v.0).collect();
    assert_eq!(order, vec![0, 4, 2, 6, 1, 5, 3, 7]);
    MetalBackend::bit_reverse_base_column(&mut col);
    assert_eq!(col.to_cpu(), values);

    let values: Vec<SecureField> = (0..4).map(secure).collect();
    let mut col = MetalSecureColumn::from_iter(values.clone());
    MetalBackend::bit_reverse_secure_column(&mut col);
    assert_eq!(col.to_cpu(), vec![secure(0), secure(2), secure(1), secure(3)]);
    MetalBackend::bit_reverse_secure_column(&mut col);
    assert_eq!(col.to_cpu(), values);
}

#[test]
fn copies_of_columns_do_not_share_memory() {
    let mut col = MetalBaseColumn::from_buffer(Buffer::with_words(&[1, 2, 3]), 2);
    let copy = col.clone();
    col.set(0, M31(9));
    assert_eq!(copy.to_cpu(), vec![M31(1), M31(2)]);
    assert_eq!(copy.buffer().to_words(), vec![1, 2, 3]);

    let mut col = MetalSecureColumn::from_iter(vec![secure(1), secure(2)]);
    let copy = col.clone();
    col.set(1, secure(3));
    assert_eq!(copy.to_cpu(), vec![secure(1), secure(2)]);

    let buffer = Buffer::with_words(&[4, 5]);
    let slice = GpuSlice::new(&buffer, 4, 1);
    let copy = slice.clone();
    assert_eq!(copy.as_u32_ptr(), slice.as_u32_ptr());
}

#[test]
fn words_behind_the_elements_stay() {
    let mut col = MetalBaseColumn::from_buffer(Buffer::with_words(&[0, 1, 2, 3, 70, 71]), 4);
    MetalBackend::bit_reverse_base_column(&mut col);
    assert_eq!(col.buffer().to_words(), vec![0, 2, 1, 3, 70, 71]);

    let words: Vec<u32> = (0..10).collect();
    let mut col = MetalSecureColumn::from_buffer(Buffer::with_words(&words), 2);
    col.set(1, secure(50));
    assert_eq!(
        col.buffer().to_words(),
        vec![0, 1, 2, 3, 50, 150, 250, 350, 8, 9]
    );
    MetalBackend::bit_reverse_secure_column(&mut col);
    assert_eq!(
        col.buffer().to_words(),
        vec![0, 1, 2, 3, 50, 150, 250, 350, 8, 9]
    );
    let (left, right) = col.split_at_mid();
    assert_eq!(left.buffer().to_words(), vec![0, 1, 2, 3]);
    assert_eq!(right.buffer().to_words(), vec![50, 150, 250, 350]);
}
