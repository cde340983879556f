//! Buffers of words, which is what the kernels exchange with the CPU.
//!
//! Everything that goes to the GPU or comes back is made of 32-bit words, so a buffer is a
//! sequence of words in ordinary memory. Whoever carries a submission out uploads the words and
//! reads them back. A secure field element takes four words.
use crate::fields::{CM31, M31, QM31};
use vstd::prelude::*;

verus! {

/// The secure field element whose first word is word `4 * i`.
pub open spec fn qm31_at(words: Seq<M31>, i: int) -> QM31 {
    QM31(CM31(words[4 * i], words[4 * i + 1]), CM31(words[4 * i + 2], words[4 * i + 3]))
}

/// The first `len` secure field elements of a sequence of words.
pub open spec fn qm31_elements(words: Seq<M31>, len: nat) -> Seq<QM31> {
    Seq::new(len, |i: int| qm31_at(words, i))
}

/// The words of a sequence of secure field elements, four for each.
pub open spec fn qm31_words(elements: Seq<QM31>) -> Seq<M31> {
    Seq::new(4 * elements.len(), |i: int| elements[i / 4].words()[i % 4])
}

/// The integers that a sequence of words holds.
pub open spec fn raw(words: Seq<M31>) -> Seq<u32> {
    Seq::new(words.len(), |i: int| words[i].0)
}

/// Integers taken over as words.
pub open spec fn words_of(integers: Seq<u32>) -> Seq<M31> {
    Seq::new(integers.len(), |i: int| M31(integers[i]))
}

/// Taking integers over as words and reading them out again gives the integers, and the other
/// way round.
pub proof fn law_raw_words(words: Seq<M31>, integers: Seq<u32>)
    ensures
        words_of(raw(words)) == words,
        raw(words_of(integers)) == integers,
{
    assert(words_of(raw(words)) =~= words);
    assert(raw(words_of(integers)) =~= integers);
}

/// Writing elements out as words and reading them back gives the elements, and the
/// other way round.
pub proof fn law_qm31_layout(elements: Seq<QM31>, words: Seq<M31>)
    ensures
        qm31_elements(qm31_words(elements), elements.len()) == elements,
        words.len() % 4 == 0 ==> qm31_words(qm31_elements(words, words.len() / 4)) == words,
{
    let back = qm31_elements(qm31_words(elements), elements.len());
    assert forall|i: int| 0 <= i < elements.len() implies back[i] == elements[i] by {
        let w = qm31_words(elements);
        assert(w[4 * i] == elements[i].words()[0]);
        assert(w[4 * i + 1] == elements[i].words()[1]);
        assert(w[4 * i + 2] == elements[i].words()[2]);
        assert(w[4 * i + 3] == elements[i].words()[3]);
    }
    assert(back == elements);
    if words.len() % 4 == 0 {
        let again = qm31_words(qm31_elements(words, words.len() / 4));
        assert forall|i: int| 0 <= i < words.len() implies again[i] == words[i] by {
            let e = qm31_at(words, i / 4);
            assert(again[i] == e.words()[i % 4]);
            assert(i == 4 * (i / 4) + i % 4);
        }
        assert(again == words);
    }
}

/// Taking words apart into elements and writing the elements out again gives the words that were
/// read.
pub proof fn law_elements_then_words(words: Seq<M31>, len: nat)
    requires
        4 * len <= words.len(),
    ensures
        qm31_words(qm31_elements(words, len)) == words.take(4 * len as int),
{
    let front = words.take(4 * len as int);
    assert(front.len() / 4 == len);
    law_qm31_layout(Seq::empty(), front);
    lemma_elements_of_front(front, words.skip(4 * len as int), len);
    assert(front + words.skip(4 * len as int) =~= words);
}

/// Words behind those of the elements do not matter.
pub(crate) proof fn lemma_elements_of_front(front: Seq<M31>, rest: Seq<M31>, len: nat)
    requires
        front.len() == 4 * len,
    ensures
        qm31_elements(front + rest, len) == qm31_elements(front, len),
{
    assert forall|i: int| 0 <= i < len implies #[trigger] qm31_elements(front + rest, len)[i]
        == qm31_elements(front, len)[i] by {
        assert((front + rest)[4 * i] == front[4 * i]);
        assert((front + rest)[4 * i + 1] == front[4 * i + 1]);
        assert((front + rest)[4 * i + 2] == front[4 * i + 2]);
        assert((front + rest)[4 * i + 3] == front[4 * i + 3]);
    }
    assert(qm31_elements(front + rest, len) =~= qm31_elements(front, len));
}

/// A buffer of words.
///
/// Words at the front may be kept in groups of four, as secure field elements, so that they can be
/// read and written as such. What the buffer holds does not depend on it.
#[derive(Debug)]
pub struct Buffer {
    elements: Vec<QM31>,
    words: Vec<M31>,
}

impl View for Buffer {
    type V = Seq<M31>;

    closed spec fn view(&self) -> Seq<M31> {
        qm31_words(self.elements@) + self.words@
    }
}

impl Buffer {
    /// The number of secure field elements that the words at the front are kept as.
    pub closed spec fn grouped(&self) -> nat {
        self.elements@.len()
    }

    /// The words that are kept as elements are words of the buffer.
    pub proof fn lemma_grouped_fits(&self)
        ensures
            4 * self.grouped() <= self@.len(),
    {
    }

    /// A buffer that holds the given words.
    pub fn with_data(words: Vec<M31>) -> (b: Buffer)
        ensures
            b@ == words@,
            b.grouped() == 0,
    {
        let b = Buffer { elements: Vec::new(), words };
        assert(b@ =~= words@);
        b
    }

    /// A buffer that holds the words of the given elements.
    pub fn with_elements(elements: Vec<QM31>) -> (b: Buffer)
        ensures
            b@ == qm31_words(elements@),
            b.grouped() == elements@.len(),
    {
        let b = Buffer { elements, words: Vec::new() };
        assert(b@ =~= qm31_words(elements@));
        b
    }

    /// A buffer that holds the given integers.
    pub fn with_words(words: &[u32]) -> (b: Buffer)
        ensures
            b@ == words_of(words@),
            raw(b@) == words@,
            b.grouped() == 0,
    {
        let mut v: Vec<M31> = Vec::with_capacity(words.len());
        let mut i: usize = 0;
        while i < words.len()
            invariant
                i <= words@.len(),
                v@ == words_of(words@).take(i as int),
            decreases words@.len() - i,
        {
            v.push(M31(words[i]));
            i = i + 1;
            assert(v@ == words_of(words@).take(i as int));
        }
        proof {
            assert(words_of(words@).take(i as int) == words_of(words@));
            law_raw_words(v@, words@);
        }
        Buffer::with_data(v)
    }

    /// A buffer of `len` zero words.
    pub fn zeroed(len: usize) -> (b: Buffer)
        ensures
            b@ == Seq::new(len as nat, |i: int| M31(0)),
            b.grouped() == 0,
    {
        let words: Vec<M31> = vec![M31(0); len];
        assert(words@ == Seq::new(len as nat, |i: int| M31(0)));
        Buffer::with_data(words)
    }

    /// The number of words.
    pub fn len(&self) -> (n: usize)
        requires
            self@.len() <= usize::MAX,
        ensures
            n == self@.len(),
    {
        4 * self.elements.len() + self.words.len()
    }

    /// The words, where none of them are kept as elements.
    pub fn contents(&self) -> (s: &[M31])
        requires
            self.grouped() == 0,
        ensures
            s@ == self@,
    {
        assert(self@ =~= self.words@);
        self.words.as_slice()
    }

    /// The words, where none of them are kept as elements, for writing.
    pub fn contents_mut(&mut self) -> (s: &mut [M31])
        requires
            old(self).grouped() == 0,
        ensures
            s@ == old(self)@,
            final(self)@ == final(s)@,
            final(self).grouped() == 0,
    {
        proof {
            assert(self@ =~= self.words@);
            lemma_no_elements(self.elements@);
        }
        self.words.as_mut_slice()
    }

    /// The words that are kept as elements.
    pub fn elements(&self) -> (s: &[QM31])
        ensures
            s@ == qm31_elements(self@, self.grouped()),
    {
        proof {
            lemma_grouped(self.elements@, self.words@);
        }
        self.elements.as_slice()
    }

    /// The words that are kept as elements, for writing.
    pub fn elements_mut(&mut self) -> (s: &mut [QM31])
        ensures
            s@ == qm31_elements(old(self)@, old(self).grouped()),
            final(self).grouped() == final(s)@.len(),
            final(self)@ == qm31_words(final(s)@) + old(self)@.skip(
                4 * old(self).grouped() as int,
            ),
    {
        proof {
            lemma_grouped(self.elements@, self.words@);
        }
        self.elements.as_mut_slice()
    }

    /// A copy of the words.
    pub fn words(&self) -> (v: Vec<M31>)
        ensures
            v@ == self@,
    {
        let mut v: Vec<M31> = write_qm31(self.elements.as_slice());
        v.extend_from_slice(self.words.as_slice());
        assert(v@ =~= self@);
        v
    }

    /// A copy of the words as integers.
    pub fn to_words(&self) -> (v: Vec<u32>)
        ensures
            v@ == raw(self@),
    {
        raw_words(self.words().as_slice())
    }

    /// The same words, none of them kept as elements.
    pub fn into_flat(self) -> (b: Buffer)
        ensures
            b@ == self@,
            b.grouped() == 0,
    {
        if self.elements.len() == 0 {
            self
        } else {
            Buffer::with_data(self.words())
        }
    }

    /// The same words, at least the first `len` groups of four kept as elements.
    pub fn into_grouped(self, len: usize) -> (b: Buffer)
        requires
            4 * len <= self@.len(),
        ensures
            b@ == self@,
            b.grouped() >= len,
    {
        if self.elements.len() >= len {
            return self;
        }
        let all: Vec<M31> = self.words();
        assert(all.len() == all@.len());
        let elements: Vec<QM31> = read_qm31(all.as_slice(), len);
        let words: Vec<M31> = copy_slice(&all.as_slice()[4 * len..all.len()]);
        let b = Buffer { elements, words };
        proof {
            law_elements_then_words(all@, len as nat);
            assert(b@ =~= all@);
        }
        b
    }
}

/// No elements have no words.
proof fn lemma_no_elements(elements: Seq<QM31>)
    requires
        elements.len() == 0,
    ensures
        forall|rest: Seq<M31>| #[trigger] (qm31_words(elements) + rest) == rest,
{
    assert forall|rest: Seq<M31>| #[trigger] (qm31_words(elements) + rest) == rest by {
        assert(qm31_words(elements) + rest =~= rest);
    }
}

/// Elements at the front of words are read back from them.
proof fn lemma_grouped(elements: Seq<QM31>, rest: Seq<M31>)
    ensures
        qm31_elements(qm31_words(elements) + rest, elements.len()) == elements,
        (qm31_words(elements) + rest).skip(4 * elements.len() as int) == rest,
{
    lemma_elements_of_front(qm31_words(elements), rest, elements.len());
    law_qm31_layout(elements, Seq::empty());
    assert((qm31_words(elements) + rest).skip(4 * elements.len() as int) =~= rest);
}

impl Clone for Buffer {
    /// A buffer of its own with the same words: the two do not share memory.
    fn clone(&self) -> (b: Buffer)
        ensures
            b@ == self@,
            b.grouped() == self.grouped(),
    {
        Buffer {
            elements: copy_slice(self.elements.as_slice()),
            words: copy_slice(self.words.as_slice()),
        }
    }
}

/// The integers that a slice of words holds.
pub fn raw_words(words: &[M31]) -> (v: Vec<u32>)
    ensures
        v@ == raw(words@),
{
    let mut v: Vec<u32> = Vec::with_capacity(words.len());
    let mut i: usize = 0;
    while i < words.len()
        invariant
            i <= words@.len(),
            v@ == raw(words@).take(i as int),
        decreases words@.len() - i,
    {
        v.push(words[i].0);
        i = i + 1;
        assert(v@ == raw(words@).take(i as int));
    }
    assert(raw(words@).take(i as int) == raw(words@));
    v
}

/// A copy of a slice.
pub(crate) fn copy_slice<T: Copy>(items: &[T]) -> (v: Vec<T>)
    ensures
        v@ == items@,
{
    let mut v: Vec<T> = Vec::with_capacity(items.len());
    let mut i: usize = 0;
    while i < items.len()
        invariant
            i <= items@.len(),
            v@ == items@.take(i as int),
        decreases items@.len() - i,
    {
        v.push(items[i]);
        i = i + 1;
        assert(v@ == items@.take(i as int));
    }
    assert(items@.take(i as int) == items@);
    v
}

/// A view into a buffer: a range of elements, without a copy of them.
#[derive(Clone, Copy, Debug)]
pub struct GpuSlice<'a> {
    /// The underlying buffer.
    pub buffer: &'a Buffer,
    /// Offset in bytes from the start of the buffer.
    pub offset_bytes: u64,
    /// Number of elements, not bytes.
    pub len_elems: usize,
}

impl<'a> GpuSlice<'a> {
    /// The index of the first word.
    pub open spec fn first(&self) -> int {
        self.offset_bytes as int / 4
    }

    /// The range starts on a word and holds `len_elems` elements of `size` words each.
    pub open spec fn in_range(&self, size: int) -> bool {
        &&& self.offset_bytes % 4 == 0
        &&& self.first() + self.len_elems * size <= self.buffer@.len()
    }

    /// The range that starts `offset_bytes` into the buffer.
    pub fn new(buffer: &'a Buffer, offset_bytes: u64, len_elems: usize) -> (s: GpuSlice<'a>)
        ensures
            s.buffer == buffer,
            s.offset_bytes == offset_bytes,
            s.len_elems == len_elems,
    {
        GpuSlice { buffer, offset_bytes, len_elems }
    }

    /// A copy of the range as integers, and its length.
    pub fn as_u32_ptr(&self) -> (r: (Vec<u32>, usize))
        requires
            self.in_range(1),
        ensures
            r.0@ == raw(self.buffer@.subrange(self.first(), self.first() + self.len_elems)),
            r.1 == self.len_elems,
    {
        let (words, len) = self.as_basefield_ptr();
        (raw_words(words.as_slice()), len)
    }

    /// A copy of the range as base field elements, and its length.
    pub fn as_basefield_ptr(&self) -> (r: (Vec<M31>, usize))
        requires
            self.in_range(1),
        ensures
            r.0@ == self.buffer@.subrange(self.first(), self.first() + self.len_elems),
            r.1 == self.len_elems,
    {
        let all: Vec<M31> = self.buffer.words();
        assert(self.len_elems * 1 == self.len_elems) by (nonlinear_arith);
        assert(all.len() == all@.len());
        let first: usize = (self.offset_bytes / 4) as usize;
        (copy_slice(&all.as_slice()[first..first + self.len_elems]), self.len_elems)
    }

    /// A copy of the range as secure field elements, and its length.
    pub fn as_securefield_ptr(&self) -> (r: (Vec<QM31>, usize))
        requires
            self.in_range(4),
        ensures
            r.0@ == qm31_elements(self.buffer@.skip(self.first()), self.len_elems as nat),
            r.1 == self.len_elems,
    {
        let all: Vec<M31> = self.buffer.words();
        assert(all.len() == all@.len());
        let first: usize = (self.offset_bytes / 4) as usize;
        let tail: &[M31] = &all.as_slice()[first..all.len()];
        assert(tail@ == self.buffer@.skip(self.first()));
        (read_qm31(tail, self.len_elems), self.len_elems)
    }
}

/// The first `len` secure field elements of a slice of words.
pub fn read_qm31(words: &[M31], len: usize) -> (v: Vec<QM31>)
    requires
        4 * len <= words@.len(),
    ensures
        v@ == qm31_elements(words@, len as nat),
{
    let mut v: Vec<QM31> = Vec::with_capacity(len);
    let mut i: usize = 0;
    while i < len
        invariant
            i <= len,
            4 * len <= words.len(),
            v@ == qm31_elements(words@, i as nat),
        decreases len - i,
    {
        v.push(QM31::from_m31(words[4 * i], words[4 * i + 1], words[4 * i + 2], words[4 * i + 3]));
        i = i + 1;
        assert(v@ == qm31_elements(words@, i as nat));
    }
    v
}

/// The words of secure field elements, four for each.
pub fn write_qm31(elements: &[QM31]) -> (v: Vec<M31>)
    ensures
        v@ == qm31_words(elements@),
{
    let mut v: Vec<M31> = Vec::new();
    let mut i: usize = 0;
    while i < elements.len()
        invariant
            i <= elements@.len(),
            v@ == qm31_words(elements@).take(4 * i as int),
        decreases elements@.len() - i,
    {
        let coords: [M31; 4] = elements[i].to_m31_array();
        v.push(coords[0]);
        v.push(coords[1]);
        v.push(coords[2]);
        v.push(coords[3]);
        i = i + 1;
        assert(v@ == qm31_words(elements@).take(4 * i as int));
    }
    assert(qm31_words(elements@).take(4 * i as int) == qm31_words(elements@));
    v
}

} // verus!
