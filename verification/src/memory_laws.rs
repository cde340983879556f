//! What buffers and columns give back of what was put into them.
//!
//! Each law speaks of the results of calls and of the single words in them.
use crate::backend::{
    convert, BaseColumn, CpuBackend, MetalBackend, SecureColumn, SimdBackend,
};
use crate::buffer::{
    law_qm31_layout, law_raw_words, qm31_words, raw, raw_words, read_qm31, write_qm31, Buffer,
    GpuSlice,
};
use crate::circle::{CircleDomain, LineDomain};
use crate::column::{MetalBaseColumn, MetalSecureColumn};
use crate::evaluation::{CircleEvaluation, LineEvaluation, SecureEvaluation};
use crate::fields::{BaseField, SecureField, M31, QM31};
use crate::fold_laws::{lemma_column_of_words, lemma_column_word, lemma_same_columns};
use crate::gkr::Mle;
use crate::secure_column::SecureColumnByCoords;
use vstd::prelude::*;

verus! {

/// Coordinate `k` of an element.
pub open spec fn coordinate(e: QM31, k: int) -> M31 {
    if k == 0 {
        e.0.0
    } else if k == 1 {
        e.0.1
    } else if k == 2 {
        e.1.0
    } else {
        e.1.1
    }
}

/// Integers that are put into a buffer come out again, one word for each.
pub proof fn law_words_come_back(
    integers: &[u32],
    buffer: Buffer,
    words: Vec<M31>,
    back: Vec<u32>,
    len: usize,
    i: int,
)
    requires
        call_ensures(Buffer::with_words, (integers,), buffer),
        call_ensures(Buffer::words, (&buffer,), words),
        call_ensures(Buffer::to_words, (&buffer,), back),
        call_ensures(Buffer::len, (&buffer,), len),
    ensures
        back@ == integers@,
        words@.len() == integers@.len(),
        len == integers@.len(),
        0 <= i < integers@.len() ==> words@[i].0 == integers@[i],
{
    assert(raw(buffer@).len() == buffer@.len());
    if 0 <= i < integers@.len() {
        assert(raw(buffer@)[i] == words@[i].0);
    }
}

/// Words that are put into a buffer come out again, also as integers.
pub proof fn law_data_comes_back(
    data: Vec<M31>,
    buffer: Buffer,
    words: Vec<M31>,
    integers: Vec<u32>,
    copy: Buffer,
    copied: Vec<M31>,
    i: int,
)
    requires
        call_ensures(Buffer::with_data, (data,), buffer),
        call_ensures(Buffer::words, (&buffer,), words),
        call_ensures(Buffer::to_words, (&buffer,), integers),
        call_ensures(<Buffer as Clone>::clone, (&buffer,), copy),
        call_ensures(Buffer::words, (&copy,), copied),
    ensures
        words@ == data@,
        copied@ == data@,
        integers@.len() == data@.len(),
        0 <= i < data@.len() ==> integers@[i] == data@[i].0,
{
}

/// Elements that are put into a buffer come out as four words each, in the order of their
/// coordinates.
pub proof fn law_elements_as_words(
    elements: Vec<QM31>,
    buffer: Buffer,
    words: Vec<M31>,
    i: int,
    k: int,
)
    requires
        call_ensures(Buffer::with_elements, (elements,), buffer),
        call_ensures(Buffer::words, (&buffer,), words),
        0 <= k < 4,
    ensures
        words@.len() == 4 * elements@.len(),
        0 <= i < elements@.len() ==> words@[4 * i + k] == coordinate(elements@[i], k),
{
    if 0 <= i < elements@.len() {
        assert((4 * i + k) / 4 == i && (4 * i + k) % 4 == k);
        assert(words@[4 * i + k] == elements@[i].words()[k]);
    }
}

/// Elements that are put into a buffer come out again.
pub proof fn law_elements_come_back(elements: Vec<QM31>, buffer: Buffer, back: &[QM31])
    requires
        call_ensures(Buffer::with_elements, (elements,), buffer),
        call_ensures(Buffer::elements, (&buffer,), back),
    ensures
        back@ == elements@,
{
    law_qm31_layout(elements@, Seq::empty());
}

/// A new buffer of zeros holds zeros, and how a buffer keeps its words does not change them.
pub proof fn law_grouping_keeps_words(
    zeros: usize,
    zeroed: Buffer,
    zero_words: Vec<M31>,
    buffer: Buffer,
    words: Vec<M31>,
    flat: Buffer,
    flat_words: Vec<M31>,
    len: usize,
    grouped: Buffer,
    grouped_words: Vec<M31>,
    i: int,
)
    requires
        call_ensures(Buffer::zeroed, (zeros,), zeroed),
        call_ensures(Buffer::words, (&zeroed,), zero_words),
        call_ensures(Buffer::words, (&buffer,), words),
        call_ensures(Buffer::into_flat, (buffer,), flat),
        call_ensures(Buffer::words, (&flat,), flat_words),
        call_ensures(Buffer::into_grouped, (buffer, len), grouped),
        call_ensures(Buffer::words, (&grouped,), grouped_words),
    ensures
        zero_words@.len() == zeros,
        0 <= i < zeros ==> zero_words@[i].0 == 0,
        flat_words@ == words@,
        grouped_words@ == words@,
{
}

/// The integers of words, and words and elements as four words each.
pub proof fn law_conversions(
    words: &[M31],
    integers: Vec<u32>,
    len: usize,
    elements: Vec<QM31>,
    others: &[QM31],
    written: Vec<M31>,
    i: int,
    k: int,
)
    requires
        call_ensures(raw_words, (words,), integers),
        call_ensures(read_qm31, (words, len), elements),
        call_ensures(write_qm31, (others,), written),
        0 <= k < 4,
    ensures
        integers@.len() == words@.len(),
        0 <= i < words@.len() ==> integers@[i] == words@[i].0,
        elements@.len() == len,
        0 <= i < len ==> coordinate(elements@[i], k) == words@[4 * i + k],
        written@.len() == 4 * others@.len(),
        0 <= i < others@.len() ==> written@[4 * i + k] == coordinate(others@[i], k),
{
    if 0 <= i < others@.len() {
        assert((4 * i + k) / 4 == i && (4 * i + k) % 4 == k);
        assert(written@[4 * i + k] == others@[i].words()[k]);
    }
}

/// A slice of base field elements shows the words of its buffer from its offset on.
pub proof fn law_base_slice<'a>(
    buffer: &'a Buffer,
    offset_bytes: u64,
    len: usize,
    slice: GpuSlice<'a>,
    words: Vec<M31>,
    integers: (Vec<u32>, usize),
    base: (Vec<M31>, usize),
    i: int,
)
    requires
        call_ensures(GpuSlice::new, (buffer, offset_bytes, len), slice),
        call_ensures(Buffer::words, (buffer,), words),
        call_ensures(GpuSlice::as_u32_ptr, (&slice,), integers),
        call_ensures(GpuSlice::as_basefield_ptr, (&slice,), base),
        offset_bytes as int / 4 + len <= words@.len(),
    ensures
        integers.1 == len && integers.0@.len() == len,
        base.1 == len && base.0@.len() == len,
        0 <= i < len ==> integers.0@[i] == words@[offset_bytes as int / 4 + i].0,
        0 <= i < len ==> base.0@[i] == words@[offset_bytes as int / 4 + i],
{
}

/// A slice of secure field elements shows the words of its buffer from its offset on, four for
/// each element.
pub proof fn law_secure_slice<'a>(
    buffer: &'a Buffer,
    offset_bytes: u64,
    len: usize,
    slice: GpuSlice<'a>,
    words: Vec<M31>,
    secure: (Vec<QM31>, usize),
    i: int,
    k: int,
)
    requires
        call_ensures(GpuSlice::new, (buffer, offset_bytes, len), slice),
        call_ensures(Buffer::words, (buffer,), words),
        call_ensures(GpuSlice::as_securefield_ptr, (&slice,), secure),
        offset_bytes as int / 4 + 4 * len <= words@.len(),
        0 <= k < 4,
    ensures
        secure.1 == len && secure.0@.len() == len,
        0 <= i < len ==> coordinate(secure.0@[i], k) == words@[offset_bytes as int / 4 + 4 * i + k],
{
    let first = offset_bytes as int / 4;
    let tail = buffer@.skip(first);
    if 0 <= i < len {
        assert(tail[4 * i] == words@[first + 4 * i]);
        assert(tail[4 * i + 1] == words@[first + (4 * i + 1)]);
        assert(tail[4 * i + 2] == words@[first + (4 * i + 2)]);
        assert(tail[4 * i + 3] == words@[first + (4 * i + 3)]);
    }
}

/// The slice of a whole column starts at its first word and has its length.
pub proof fn law_slice_of_column<'a>(
    base: &'a MetalBaseColumn,
    base_slice: GpuSlice<'a>,
    base_buffer: &'a Buffer,
    secure: &'a MetalSecureColumn,
    secure_slice: GpuSlice<'a>,
    secure_buffer: &'a Buffer,
)
    requires
        call_ensures(MetalBaseColumn::as_gpu_slice, (base,), base_slice),
        call_ensures(MetalBaseColumn::buffer, (base,), base_buffer),
        call_ensures(MetalSecureColumn::as_gpu_slice, (secure,), secure_slice),
        call_ensures(MetalSecureColumn::buffer, (secure,), secure_buffer),
    ensures
        base_slice.buffer@ == base_buffer@,
        base_slice.offset_bytes == 0,
        base_slice.len_elems == base@.len(),
        secure_slice.buffer@ == secure_buffer@,
        secure_slice.offset_bytes == 0,
        secure_slice.len_elems == secure@.len(),
{
}

/// The elements that a base column is made of are those that it gives back, and the words of its
/// buffer.
pub proof fn law_base_column(
    values: Vec<BaseField>,
    column: MetalBaseColumn,
    back: Vec<BaseField>,
    slice: &[BaseField],
    len: usize,
    buffer: &Buffer,
    words: Vec<M31>,
    copy: MetalBaseColumn,
    copied: Vec<BaseField>,
    i: usize,
    v: BaseField,
)
    requires
        call_ensures(MetalBaseColumn::from_iter, (values,), column),
        call_ensures(MetalBaseColumn::to_cpu, (&column,), back),
        call_ensures(MetalBaseColumn::as_slice, (&column,), slice),
        call_ensures(MetalBaseColumn::len, (&column,), len),
        call_ensures(MetalBaseColumn::buffer, (&column,), buffer),
        call_ensures(Buffer::words, (buffer,), words),
        call_ensures(<MetalBaseColumn as Clone>::clone, (&column,), copy),
        call_ensures(MetalBaseColumn::to_cpu, (&copy,), copied),
        call_ensures(MetalBaseColumn::at, (&column, i), v),
    ensures
        back@ == values@,
        slice@ == values@,
        len == values@.len(),
        words@ == values@,
        copied@ == values@,
        v == values@[i as int],
{
}

/// A base column over a buffer shows the first words of it.
pub proof fn law_base_column_of_buffer(
    buffer: Buffer,
    words: Vec<M31>,
    len: usize,
    column: MetalBaseColumn,
    back: Vec<BaseField>,
    behind: &Buffer,
    all: Vec<M31>,
    i: int,
)
    requires
        call_ensures(Buffer::words, (&buffer,), words),
        call_ensures(MetalBaseColumn::from_buffer, (buffer, len), column),
        call_ensures(MetalBaseColumn::to_cpu, (&column,), back),
        call_ensures(MetalBaseColumn::buffer, (&column,), behind),
        call_ensures(Buffer::words, (behind,), all),
        len <= words@.len(),
    ensures
        back@.len() == len,
        0 <= i < len ==> back@[i] == words@[i],
        all@ == words@,
{
}

/// Replacing an element of a base column replaces that one and no other.
pub proof fn law_base_column_set(
    column: &mut MetalBaseColumn,
    index: usize,
    value: BaseField,
    j: usize,
    before: BaseField,
    after: BaseField,
)
    requires
        call_ensures(MetalBaseColumn::set, (column, index, value), ()),
        index < old(column)@.len(),
        j < old(column)@.len(),
        call_ensures(MetalBaseColumn::at, (&*old(column), j), before),
        call_ensures(MetalBaseColumn::at, (&*final(column), j), after),
    ensures
        final(column)@.len() == old(column)@.len(),
        after == if j == index {
            value
        } else {
            before
        },
{
}

/// The halves of a base column, and columns of zeros.
pub proof fn law_base_column_halves(
    column: MetalBaseColumn,
    all: Vec<BaseField>,
    halves: (MetalBaseColumn, MetalBaseColumn),
    low: Vec<BaseField>,
    high: Vec<BaseField>,
    len: usize,
    zeros: MetalBaseColumn,
    cleared: MetalBaseColumn,
    i: int,
)
    requires
        call_ensures(MetalBaseColumn::to_cpu, (&column,), all),
        call_ensures(MetalBaseColumn::split_at_mid, (column,), halves),
        call_ensures(MetalBaseColumn::to_cpu, (&halves.0,), low),
        call_ensures(MetalBaseColumn::to_cpu, (&halves.1,), high),
        call_ensures(MetalBaseColumn::zeros, (len,), zeros),
        call_ensures(MetalBaseColumn::uninitialized, (len,), cleared),
    ensures
        low@.len() == all@.len() / 2,
        high@.len() == all@.len() / 2,
        0 <= i < all@.len() / 2 ==> low@[i] == all@[i] && high@[i] == all@[all@.len() as int / 2
            + i],
        zeros@.len() == len && cleared@.len() == len,
        0 <= i < len ==> zeros@[i].0 == 0 && cleared@[i].0 == 0,
{
}

/// The elements that a secure column is made of are those that it gives back, and its buffer has
/// four words for each, in the order of their coordinates.
pub proof fn law_secure_column(
    values: Vec<SecureField>,
    column: MetalSecureColumn,
    back: Vec<SecureField>,
    slice: &[SecureField],
    len: usize,
    buffer: &Buffer,
    words: Vec<M31>,
    copy: MetalSecureColumn,
    copied: Vec<SecureField>,
    i: usize,
    k: int,
    v: SecureField,
)
    requires
        call_ensures(MetalSecureColumn::from_iter, (values,), column),
        call_ensures(MetalSecureColumn::to_cpu, (&column,), back),
        call_ensures(MetalSecureColumn::as_slice, (&column,), slice),
        call_ensures(MetalSecureColumn::len, (&column,), len),
        call_ensures(MetalSecureColumn::buffer, (&column,), buffer),
        call_ensures(Buffer::words, (buffer,), words),
        call_ensures(<MetalSecureColumn as Clone>::clone, (&column,), copy),
        call_ensures(MetalSecureColumn::to_cpu, (&copy,), copied),
        call_ensures(MetalSecureColumn::at, (&column, i), v),
        0 <= k < 4,
    ensures
        back@ == values@,
        slice@ == values@,
        len == values@.len(),
        words@.len() == 4 * values@.len(),
        i < values@.len() ==> words@[4 * i + k] == coordinate(values@[i as int], k),
        copied@ == values@,
        v == values@[i as int],
{
    if i < values@.len() {
        assert((4 * i + k) / 4 == i && (4 * i + k) % 4 == k);
        assert(words@[4 * i + k] == values@[i as int].words()[k]);
    }
}

/// A secure column over a buffer shows the first words of it, four for each element.
pub proof fn law_secure_column_of_buffer(
    buffer: Buffer,
    words: Vec<M31>,
    len: usize,
    column: MetalSecureColumn,
    back: Vec<SecureField>,
    behind: &Buffer,
    all: Vec<M31>,
    i: int,
    k: int,
)
    requires
        call_ensures(Buffer::words, (&buffer,), words),
        call_ensures(MetalSecureColumn::from_buffer, (buffer, len), column),
        call_ensures(MetalSecureColumn::to_cpu, (&column,), back),
        call_ensures(MetalSecureColumn::buffer, (&column,), behind),
        call_ensures(Buffer::words, (behind,), all),
        0 <= k < 4,
    ensures
        back@.len() == len,
        0 <= i < len ==> coordinate(back@[i], k) == words@[4 * i + k],
        all@ == words@,
{
}

/// Replacing an element of a secure column replaces that one and no other.
pub proof fn law_secure_column_set(
    column: &mut MetalSecureColumn,
    index: usize,
    value: SecureField,
    j: usize,
    before: SecureField,
    after: SecureField,
)
    requires
        call_ensures(MetalSecureColumn::set, (column, index, value), ()),
        index < old(column)@.len(),
        j < old(column)@.len(),
        call_ensures(MetalSecureColumn::at, (&*old(column), j), before),
        call_ensures(MetalSecureColumn::at, (&*final(column), j), after),
    ensures
        final(column)@.len() == old(column)@.len(),
        after == if j == index {
            value
        } else {
            before
        },
{
}

/// The halves of a secure column, and columns of zeros.
pub proof fn law_secure_column_halves(
    column: MetalSecureColumn,
    all: Vec<SecureField>,
    halves: (MetalSecureColumn, MetalSecureColumn),
    low: Vec<SecureField>,
    high: Vec<SecureField>,
    len: usize,
    zeros: MetalSecureColumn,
    cleared: MetalSecureColumn,
    i: int,
    k: int,
)
    requires
        call_ensures(MetalSecureColumn::to_cpu, (&column,), all),
        call_ensures(MetalSecureColumn::split_at_mid, (column,), halves),
        call_ensures(MetalSecureColumn::to_cpu, (&halves.0,), low),
        call_ensures(MetalSecureColumn::to_cpu, (&halves.1,), high),
        call_ensures(MetalSecureColumn::zeros, (len,), zeros),
        call_ensures(MetalSecureColumn::uninitialized, (len,), cleared),
        0 <= k < 4,
    ensures
        low@.len() == all@.len() / 2,
        high@.len() == all@.len() / 2,
        0 <= i < all@.len() / 2 ==> low@[i] == all@[i] && high@[i] == all@[all@.len() as int / 2
            + i],
        zeros@.len() == len && cleared@.len() == len,
        0 <= i < len ==> coordinate(zeros@[i], k).0 == 0 && coordinate(cleared@[i], k).0 == 0,
{
}

/// A column by coordinates keeps every coordinate on its way from and to the other backends.
pub proof fn law_coordinates_are_kept(
    cpu: SecureColumnByCoords<CpuBackend>,
    of_cpu: SecureColumnByCoords<MetalBackend>,
    simd: SecureColumnByCoords<SimdBackend>,
    of_simd: SecureColumnByCoords<MetalBackend>,
    column: SecureColumnByCoords<MetalBackend>,
    to_simd: SecureColumnByCoords<SimdBackend>,
    len: usize,
    k: int,
)
    requires
        call_ensures(SecureColumnByCoords::<MetalBackend>::from_cpu, (cpu,), of_cpu),
        call_ensures(SecureColumnByCoords::<MetalBackend>::from_simd, (simd,), of_simd),
        call_ensures(SecureColumnByCoords::<MetalBackend>::to_simd, (&column,), to_simd),
        call_ensures(SecureColumnByCoords::<MetalBackend>::len, (&column,), len),
        0 <= k < 4,
    ensures
        of_cpu.columns@[k]@ == cpu.columns@[k]@,
        of_simd.columns@[k]@ == simd.columns@[k].values@,
        to_simd.columns@[k].values@ == column.columns@[k]@,
        len == column.columns@[0]@.len(),
{
    lemma_same_columns(of_cpu, cpu);
    lemma_same_columns(of_simd, simd);
    lemma_same_columns(to_simd, column);
    assert(of_cpu.coord(k) == cpu.coord(k));
    assert(of_simd.coord(k) == simd.coord(k));
    assert(to_simd.coord(k) == column.coord(k));
}

/// Interleaving a column puts coordinate `k` of element `i` at word `4 * i + k`.
pub proof fn law_interleaved(
    column: SecureColumnByCoords<MetalBackend>,
    buffer: Buffer,
    words: Vec<u32>,
    i: int,
    k: int,
)
    requires
        call_ensures(
            SecureColumnByCoords::<MetalBackend>::as_qm31_interleaved_u32_buffer,
            (&column,),
            buffer,
        ),
        call_ensures(Buffer::to_words, (&buffer,), words),
        0 <= k < 4,
    ensures
        words@.len() == 4 * column.columns@[0]@.len(),
        0 <= i < column.columns@[0]@.len() ==> words@[4 * i + k] == column.columns@[k]@[i].0,
{
    assert(column.elements().len() == column.columns@[0]@.len());
    if 0 <= i < column.columns@[0]@.len() {
        lemma_column_word(column, i, k);
    }
}

/// Taking an interleaved buffer apart makes coordinate `k` of element `i` of word `4 * i + k`.
pub proof fn law_taken_apart(
    buffer: Buffer,
    words: Vec<u32>,
    len: usize,
    column: SecureColumnByCoords<MetalBackend>,
    i: int,
    k: int,
)
    requires
        call_ensures(Buffer::to_words, (&buffer,), words),
        call_ensures(
            SecureColumnByCoords::<MetalBackend>::from_qm31_interleaved_buffer,
            (&buffer, len),
            column,
        ),
        4 * len <= words@.len(),
        0 <= k < 4,
    ensures
        column.columns@[k]@.len() == len,
        0 <= i < len ==> column.columns@[k]@[i].0 == words@[4 * i + k],
{
    assert(column.coord(k).len() == len);
    law_raw_words(buffer@, words@);
    if 0 <= i < len {
        lemma_column_of_words(column, words@, len as nat, i, k);
    }
}

/// What is written through the elements of a base column is what the column holds afterwards, and
/// the words behind them stay.
pub proof fn law_base_column_written(
    column: &mut MetalBaseColumn,
    slice: &mut [BaseField],
    w: int,
)
    requires
        call_ensures(MetalBaseColumn::as_mut_slice, (column,), slice),
        old(column).wf(),
        final(slice)@.len() == old(slice)@.len(),
    ensures
        old(slice)@ == old(column)@,
        final(column)@ == final(slice)@,
        final(column).memory().len() == old(column).memory().len(),
        0 <= w < old(slice)@.len() ==> final(column).memory()[w] == final(slice)@[w],
        old(slice)@.len() <= w < old(column).memory().len() ==> final(column).memory()[w]
            == old(column).memory()[w],
{
    old(column).law_memory();
}

/// What is written through the elements of a secure column is what the column holds afterwards,
/// four words for each element in its buffer, and the words behind them stay.
pub proof fn law_secure_column_written(
    column: &mut MetalSecureColumn,
    slice: &mut [SecureField],
    i: int,
    k: int,
    w: int,
)
    requires
        call_ensures(MetalSecureColumn::as_mut_slice, (column,), slice),
        old(column).wf(),
        final(slice)@.len() == old(slice)@.len(),
        0 <= k < 4,
    ensures
        old(slice)@ == old(column)@,
        final(column)@ == final(slice)@,
        final(column).memory().len() == old(column).memory().len(),
        0 <= i < old(slice)@.len() ==> final(column).memory()[4 * i + k] == coordinate(
            final(slice)@[i],
            k,
        ),
        4 * old(slice)@.len() <= w < old(column).memory().len() ==> final(column).memory()[w]
            == old(column).memory()[w],
{
    old(column).law_memory();
    if 0 <= i < old(slice)@.len() {
        assert((4 * i + k) / 4 == i && (4 * i + k) % 4 == k);
        assert(qm31_words(final(slice)@)[4 * i + k] == final(slice)@[i].words()[k]);
    }
}

/// A column of one backend, made of the elements of a column of another, has the same elements in
/// the same order.
pub proof fn law_convert(
    metal: MetalBaseColumn,
    simd: BaseColumn,
    cpu: Vec<M31>,
    of_simd: MetalBaseColumn,
    of_cpu: MetalBaseColumn,
    back: BaseColumn,
    secure: MetalSecureColumn,
    secure_simd: SecureColumn,
    secure_back: MetalSecureColumn,
)
    requires
        call_ensures(convert::<M31, MetalBaseColumn, BaseColumn>, (&metal,), simd),
        call_ensures(convert::<M31, MetalBaseColumn, Vec<M31>>, (&metal,), cpu),
        call_ensures(convert::<M31, BaseColumn, MetalBaseColumn>, (&simd,), of_simd),
        call_ensures(convert::<M31, Vec<M31>, MetalBaseColumn>, (&cpu,), of_cpu),
        call_ensures(convert::<M31, MetalBaseColumn, BaseColumn>, (&of_cpu,), back),
        call_ensures(convert::<QM31, MetalSecureColumn, SecureColumn>, (&secure,), secure_simd),
        call_ensures(
            convert::<QM31, SecureColumn, MetalSecureColumn>,
            (&secure_simd,),
            secure_back,
        ),
    ensures
        simd.values@ == metal@,
        cpu@ == metal@,
        of_simd@ == metal@,
        of_cpu@ == metal@,
        back.values@ == metal@,
        secure_simd.values@ == secure@,
        secure_back@ == secure@,
{
}

/// Evaluations and extensions keep the domain and the values that they are made of.
pub proof fn law_constructors(
    circle: CircleDomain,
    values: MetalBaseColumn,
    eval: CircleEvaluation<MetalBackend>,
    secure_values: SecureColumnByCoords<MetalBackend>,
    secure: SecureEvaluation<MetalBackend>,
    line: LineDomain,
    line_eval: LineEvaluation<MetalBackend>,
    base_mle: Mle<MetalBaseColumn>,
    elements: MetalSecureColumn,
    secure_mle: Mle<MetalSecureColumn>,
)
    requires
        call_ensures(CircleEvaluation::<MetalBackend>::new, (circle, values), eval),
        call_ensures(SecureEvaluation::<MetalBackend>::new, (circle, secure_values), secure),
        call_ensures(LineEvaluation::<MetalBackend>::new, (line, secure_values), line_eval),
        call_ensures(Mle::<MetalBaseColumn>::new, (values,), base_mle),
        call_ensures(Mle::<MetalSecureColumn>::new, (elements,), secure_mle),
    ensures
        eval.domain == circle && eval.values@ == values@,
        secure.domain == circle && secure.values == secure_values,
        line_eval.domain == line && line_eval.values == secure_values,
        base_mle.evals@ == values@,
        secure_mle.evals@ == elements@,
{
}

} // verus!
