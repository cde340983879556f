//! Columns of field elements over buffers of words.
use crate::buffer::{
    copy_slice, law_qm31_layout, lemma_elements_of_front, qm31_at, qm31_elements, qm31_words,
    Buffer, GpuSlice,
};
use crate::fields::{BaseField, SecureField, CM31, M31, QM31};
use vstd::prelude::*;

verus! {

/// A column of base field elements, one word for each.
#[derive(Debug)]
pub struct MetalBaseColumn {
    buffer: Buffer,
    len: usize,
}

impl View for MetalBaseColumn {
    type V = Seq<M31>;

    closed spec fn view(&self) -> Seq<M31> {
        self.buffer@.take(self.len as int)
    }
}

impl MetalBaseColumn {
    /// The buffer holds at least as many words as the column has elements, kept as words.
    pub closed spec fn wf(&self) -> bool {
        &&& self.len <= self.buffer@.len()
        &&& self.buffer.grouped() == 0
    }

    /// The words of the underlying buffer, of which the elements are the first.
    pub closed spec fn memory(&self) -> Seq<M31> {
        self.buffer@
    }

    /// The elements of a column are a prefix of its buffer.
    pub proof fn law_memory(&self)
        requires
            self.wf(),
        ensures
            self@.len() <= self.memory().len(),
            self@ == self.memory().take(self@.len() as int),
    {
    }

    /// The column of the first `len` words of a buffer.
    pub fn from_buffer(buffer: Buffer, len: usize) -> (c: MetalBaseColumn)
        requires
            len <= buffer@.len(),
        ensures
            c.wf(),
            c@ == buffer@.take(len as int),
            c.memory() == buffer@,
    {
        MetalBaseColumn { buffer: buffer.into_flat(), len }
    }

    /// The underlying buffer.
    pub fn buffer(&self) -> (b: &Buffer)
        ensures
            b@ == self.memory(),
    {
        &self.buffer
    }

    /// The elements.
    pub fn as_slice(&self) -> (s: &[BaseField])
        requires
            self.wf(),
        ensures
            s@ == self@,
    {
        self.buffer.contents().split_at(self.len).0
    }

    /// The elements, for writing.
    pub fn as_mut_slice(&mut self) -> (s: &mut [BaseField])
        requires
            old(self).wf(),
        ensures
            s@ == old(self)@,
            final(s)@.len() == s@.len() ==> final(self).wf() && final(self)@ == final(s)@
                && final(self).memory() == final(s)@ + old(self).memory().skip(s@.len() as int),
    {
        let len: usize = self.len;
        let (head, tail) = self.buffer.contents_mut().split_at_mut(len);
        head
    }

    /// A view of all elements.
    pub fn as_gpu_slice(&self) -> (s: GpuSlice<'_>)
        requires
            self.wf(),
        ensures
            s.buffer@ == self.memory(),
            s.offset_bytes == 0,
            s.len_elems == self@.len(),
            s.in_range(1),
    {
        assert(self.len * 1 == self.len) by (nonlinear_arith);
        GpuSlice::new(&self.buffer, 0, self.len)
    }

    /// A column of `len` zeros.
    pub fn zeros(len: usize) -> (c: MetalBaseColumn)
        requires
            len * 4 <= usize::MAX,
        ensures
            c.wf(),
            c@ == Seq::new(len as nat, |i: int| M31(0)),
            c.memory() == c@,
    {
        let c = MetalBaseColumn::from_buffer(Buffer::zeroed(len), len);
        assert(c@ == c.memory());
        c
    }

    /// A column of `len` elements that the caller is about to overwrite.
    ///
    /// Memory is always handed out cleared.
    pub fn uninitialized(len: usize) -> (c: MetalBaseColumn)
        requires
            len * 4 <= usize::MAX,
        ensures
            c.wf(),
            c@ == Seq::new(len as nat, |i: int| M31(0)),
            c.memory() == c@,
    {
        MetalBaseColumn::zeros(len)
    }

    /// A copy of the elements.
    pub fn to_cpu(&self) -> (v: Vec<BaseField>)
        requires
            self.wf(),
        ensures
            v@ == self@,
    {
        copy_slice(self.as_slice())
    }

    /// The number of elements.
    pub fn len(&self) -> (n: usize)
        requires
            self.wf(),
        ensures
            n == self@.len(),
    {
        self.len
    }

    /// The element at an index.
    pub fn at(&self, index: usize) -> (v: BaseField)
        requires
            self.wf(),
            index < self@.len(),
        ensures
            v == self@[index as int],
    {
        self.as_slice()[index]
    }

    /// Replaces the element at an index.
    pub fn set(&mut self, index: usize, value: BaseField)
        requires
            old(self).wf(),
            index < old(self)@.len(),
        ensures
            final(self).wf(),
            final(self)@ == old(self)@.update(index as int, value),
            final(self).memory() == old(self).memory().update(index as int, value),
    {
        let ghost before = *self;
        let s: &mut [BaseField] = self.as_mut_slice();
        s[index] = value;
        assert(self.memory() == before.memory().update(index as int, value));
    }

    /// The first and the second half, each in a buffer of its own.
    ///
    /// The last element of a column of odd length is in neither.
    pub fn split_at_mid(self) -> (r: (MetalBaseColumn, MetalBaseColumn))
        requires
            self.wf(),
        ensures
            r.0.wf(),
            r.1.wf(),
            r.0@ == self@.subrange(0, self@.len() as int / 2),
            r.1@ == self@.subrange(self@.len() as int / 2, 2 * (self@.len() as int / 2)),
            self@.len() % 2 == 0 ==> r.0@ + r.1@ == self@,
            r.0.memory() == r.0@,
            r.1.memory() == r.1@,
    {
        let mid: usize = self.len / 2;
        let all: &[M31] = self.as_slice();
        let left: Vec<M31> = copy_slice(&all[0..mid]);
        let right: Vec<M31> = copy_slice(&all[mid..mid + mid]);
        let l = MetalBaseColumn::from_buffer(Buffer::with_data(left), mid);
        let r = MetalBaseColumn::from_buffer(Buffer::with_data(right), mid);
        assert(l@ == self@.subrange(0, mid as int));
        assert(r@ == self@.subrange(mid as int, 2 * mid));
        assert(self@.len() % 2 == 0 ==> l@ + r@ == self@);
        assert(l.memory() == l@);
        assert(r.memory() == r@);
        (l, r)
    }

    /// The column of the given elements.
    pub fn from_iter(values: Vec<BaseField>) -> (c: MetalBaseColumn)
        ensures
            c.wf(),
            c@ == values@,
            c.memory() == values@,
    {
        let len: usize = values.len();
        let c = MetalBaseColumn::from_buffer(Buffer::with_data(values), len);
        assert(c@ == values@);
        c
    }
}

impl Clone for MetalBaseColumn {
    /// A column of the same elements in a buffer of its own: the two do not share memory.
    fn clone(&self) -> (c: MetalBaseColumn)
        ensures
            c@ == self@,
            c.memory() == self.memory(),
            c.wf() == self.wf(),
    {
        MetalBaseColumn { buffer: self.buffer.clone(), len: self.len }
    }
}

/// A column of secure field elements, four words for each in its buffer.
#[derive(Debug)]
pub struct MetalSecureColumn {
    buffer: Buffer,
    len: usize,
}

impl View for MetalSecureColumn {
    type V = Seq<QM31>;

    closed spec fn view(&self) -> Seq<QM31> {
        qm31_elements(self.buffer@, self.len as nat)
    }
}

impl MetalSecureColumn {
    /// The buffer keeps at least the words of the column's elements as elements.
    pub closed spec fn wf(&self) -> bool {
        &&& self.len <= self.buffer.grouped()
        &&& 4 * self.buffer.grouped() <= self.buffer@.len()
    }

    /// The words of the underlying buffer, of which those of the elements are the first.
    pub closed spec fn memory(&self) -> Seq<M31> {
        self.buffer@
    }

    /// The elements of a column are read off the front of its buffer.
    pub proof fn law_memory(&self)
        requires
            self.wf(),
        ensures
            4 * self@.len() <= self.memory().len(),
            self@ == qm31_elements(self.memory(), self@.len()),
    {
    }

    /// The column of the first `len` elements of a buffer.
    pub fn from_buffer(buffer: Buffer, len: usize) -> (c: MetalSecureColumn)
        requires
            4 * len <= buffer@.len(),
        ensures
            c.wf(),
            c@ == qm31_elements(buffer@, len as nat),
            c.memory() == buffer@,
    {
        let buffer: Buffer = buffer.into_grouped(len);
        proof {
            buffer.lemma_grouped_fits();
        }
        MetalSecureColumn { buffer, len }
    }

    /// The underlying buffer.
    pub fn buffer(&self) -> (b: &Buffer)
        ensures
            b@ == self.memory(),
    {
        &self.buffer
    }

    /// The elements.
    pub fn as_slice(&self) -> (s: &[SecureField])
        requires
            self.wf(),
        ensures
            s@ == self@,
    {
        let s: &[QM31] = self.buffer.elements().split_at(self.len).0;
        assert(s@ =~= self@);
        s
    }

    /// The elements, for writing.
    pub fn as_mut_slice(&mut self) -> (s: &mut [SecureField])
        requires
            old(self).wf(),
        ensures
            s@ == old(self)@,
            final(s)@.len() == s@.len() ==> final(self).wf() && final(self)@ == final(s)@
                && final(self).memory() == qm31_words(final(s)@) + old(self).memory().skip(
                4 * s@.len() as int,
            ),
    {
        let len: usize = self.len;
        let ghost all = self.buffer@;
        let ghost grouped = self.buffer.grouped();
        let elements: &mut [QM31] = self.buffer.elements_mut();
        let (head, tail) = elements.split_at_mut(len);
        proof {
            assert(head@ =~= qm31_elements(all, len as nat));
            lemma_front_replaced(all, grouped, len as nat, tail@);
        }
        head
    }

    /// A view of all elements.
    pub fn as_gpu_slice(&self) -> (s: GpuSlice<'_>)
        requires
            self.wf(),
        ensures
            s.buffer@ == self.memory(),
            s.offset_bytes == 0,
            s.len_elems == self@.len(),
            s.in_range(4),
    {
        GpuSlice::new(&self.buffer, 0, self.len)
    }

    /// A column of `len` zeros.
    pub fn zeros(len: usize) -> (c: MetalSecureColumn)
        requires
            len * 16 <= usize::MAX,
        ensures
            c.wf(),
            c@ == Seq::new(len as nat, |i: int| qm31_zero()),
            c.memory() == Seq::new(4 * len as nat, |i: int| M31(0)),
    {
        let c = MetalSecureColumn::from_buffer(Buffer::zeroed(4 * len), len);
        assert(c@ == Seq::new(len as nat, |i: int| qm31_zero()));
        c
    }

    /// A column of `len` elements that the caller is about to overwrite.
    ///
    /// Memory is always handed out cleared.
    pub fn uninitialized(len: usize) -> (c: MetalSecureColumn)
        requires
            len * 16 <= usize::MAX,
        ensures
            c.wf(),
            c@ == Seq::new(len as nat, |i: int| qm31_zero()),
            c.memory() == Seq::new(4 * len as nat, |i: int| M31(0)),
    {
        MetalSecureColumn::zeros(len)
    }

    /// A copy of the elements.
    pub fn to_cpu(&self) -> (v: Vec<SecureField>)
        requires
            self.wf(),
        ensures
            v@ == self@,
    {
        copy_slice(self.as_slice())
    }

    /// The number of elements.
    pub fn len(&self) -> (n: usize)
        requires
            self.wf(),
        ensures
            n == self@.len(),
    {
        self.len
    }

    /// The element at an index.
    pub fn at(&self, index: usize) -> (v: SecureField)
        requires
            self.wf(),
            index < self@.len(),
        ensures
            v == self@[index as int],
    {
        self.as_slice()[index]
    }

    /// Replaces the element at an index.
    pub fn set(&mut self, index: usize, value: SecureField)
        requires
            old(self).wf(),
            index < old(self)@.len(),
        ensures
            final(self).wf(),
            final(self)@ == old(self)@.update(index as int, value),
            final(self).memory() == old(self).memory().update(
                4 * index as int,
                value.words()[0],
            ).update(4 * index + 1, value.words()[1]).update(
                4 * index + 2,
                value.words()[2],
            ).update(4 * index + 3, value.words()[3]),
    {
        let ghost before = *self;
        let s: &mut [SecureField] = self.as_mut_slice();
        s[index] = value;
        proof {
            before.law_memory();
            lemma_words_updated(before.memory(), before@.len(), index as int, value);
        }
    }

    /// The first and the second half, each in a buffer of its own.
    ///
    /// The last element of a column of odd length is in neither.
    pub fn split_at_mid(self) -> (r: (MetalSecureColumn, MetalSecureColumn))
        requires
            self.wf(),
        ensures
            r.0.wf(),
            r.1.wf(),
            r.0@ == self@.subrange(0, self@.len() as int / 2),
            r.1@ == self@.subrange(self@.len() as int / 2, 2 * (self@.len() as int / 2)),
            self@.len() % 2 == 0 ==> r.0@ + r.1@ == self@,
            r.0.memory() == qm31_words(r.0@),
            r.1.memory() == qm31_words(r.1@),
    {
        let (l, r) = halves(self.as_slice());
        (MetalSecureColumn::from_iter(l), MetalSecureColumn::from_iter(r))
    }

    /// The column of the given elements.
    pub fn from_iter(values: Vec<SecureField>) -> (c: MetalSecureColumn)
        ensures
            c.wf(),
            c@ == values@,
            c.memory() == qm31_words(values@),
    {
        proof {
            law_qm31_layout(values@, Seq::empty());
        }
        let len: usize = values.len();
        MetalSecureColumn { buffer: Buffer::with_elements(values), len }
    }
}

/// The first and the second half of elements.
fn halves(all: &[QM31]) -> (r: (Vec<QM31>, Vec<QM31>))
    ensures
        r.0@ == all@.subrange(0, all@.len() as int / 2),
        r.1@ == all@.subrange(all@.len() as int / 2, 2 * (all@.len() as int / 2)),
        all@.len() % 2 == 0 ==> r.0@ + r.1@ == all@,
{
    let mid: usize = all.len() / 2;
    let l = copy_slice(&all[0..mid]);
    let r = copy_slice(&all[mid..mid + mid]);
    assert(all@.len() % 2 == 0 ==> l@ + r@ =~= all@);
    (l, r)
}

/// Writing other elements over the first of those at the front of words.
proof fn lemma_front_replaced(words: Seq<M31>, grouped: nat, len: nat, tail: Seq<QM31>)
    requires
        4 * grouped <= words.len(),
        len <= grouped,
        tail == qm31_elements(words, grouped).skip(len as int),
    ensures
        forall|front: Seq<QM31>|
            front.len() == len ==> #[trigger] (qm31_words(front + tail) + words.skip(
                4 * grouped as int,
            )) == qm31_words(front) + words.skip(4 * len as int),
        forall|front: Seq<QM31>, rest: Seq<M31>|
            front.len() == len ==> #[trigger] qm31_elements(qm31_words(front) + rest, len) == front,
{
    assert forall|front: Seq<QM31>| front.len() == len implies #[trigger] (qm31_words(front + tail)
        + words.skip(4 * grouped as int)) == qm31_words(front) + words.skip(4 * len as int) by {
        let a = qm31_words(front + tail) + words.skip(4 * grouped as int);
        let b = qm31_words(front) + words.skip(4 * len as int);
        assert(a.len() == b.len());
        assert forall|i: int| 0 <= i < a.len() implies #[trigger] a[i] == b[i] by {
            if i < 4 * len {
                assert((front + tail)[i / 4] == front[i / 4]);
            } else if i < 4 * grouped {
                assert((front + tail)[i / 4] == tail[i / 4 - len]);
                assert(tail[i / 4 - len] == qm31_at(words, i / 4));
                assert(i == 4 * (i / 4) + i % 4);
            }
        }
        assert(a =~= b);
    }
    assert forall|front: Seq<QM31>, rest: Seq<M31>| front.len() == len implies
        #[trigger] qm31_elements(qm31_words(front) + rest, len) == front by {
        lemma_elements_of_front(qm31_words(front), rest, len);
        law_qm31_layout(front, Seq::empty());
    }
}

/// Replacing one element replaces its four words.
proof fn lemma_words_updated(words: Seq<M31>, len: nat, index: int, value: QM31)
    requires
        4 * len <= words.len(),
        0 <= index < len,
    ensures
        qm31_words(qm31_elements(words, len).update(index, value)) + words.skip(4 * len as int)
            == words.update(4 * index, value.words()[0]).update(
            4 * index + 1,
            value.words()[1],
        ).update(4 * index + 2, value.words()[2]).update(4 * index + 3, value.words()[3]),
{
    let elements = qm31_elements(words, len).update(index, value);
    let a = qm31_words(elements) + words.skip(4 * len as int);
    let b = words.update(4 * index, value.words()[0]).update(
        4 * index + 1,
        value.words()[1],
    ).update(4 * index + 2, value.words()[2]).update(4 * index + 3, value.words()[3]);
    assert forall|i: int| 0 <= i < words.len() implies #[trigger] a[i] == b[i] by {
        if i < 4 * len {
            assert(i == 4 * (i / 4) + i % 4);
            if i / 4 == index {
                assert(elements[i / 4] == value);
            } else {
                assert(elements[i / 4] == qm31_at(words, i / 4));
            }
        }
    }
    assert(a =~= b);
}

impl Clone for MetalSecureColumn {
    /// A column of the same elements in a buffer of its own: the two do not share memory.
    fn clone(&self) -> (c: MetalSecureColumn)
        ensures
            c@ == self@,
            c.memory() == self.memory(),
            c.wf() == self.wf(),
    {
        MetalSecureColumn { buffer: self.buffer.clone(), len: self.len }
    }
}

/// The zero of the secure field.
pub open spec fn qm31_zero() -> QM31 {
    QM31(CM31(M31(0), M31(0)), CM31(M31(0), M31(0)))
}

} // verus!
