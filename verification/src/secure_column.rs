//! Columns of secure field elements, kept as four columns of coordinates.
use crate::backend::{convert, Backend, Column, CpuBackend, MetalBackend, SimdBackend};
use crate::buffer::{law_qm31_layout, qm31_elements, qm31_words, Buffer};
use crate::column::MetalBaseColumn;
use crate::fields::{CM31, M31, QM31};
use vstd::prelude::*;

verus! {

/// A column of secure field elements as one column for each coordinate.
pub struct SecureColumnByCoords<B: Backend> {
    pub columns: [B::BaseColumn; 4],
}

impl<B: Backend> SecureColumnByCoords<B> {
    /// The values of a coordinate.
    pub open spec fn coord(&self, k: int) -> Seq<M31> {
        self.columns@[k].elements()
    }

    /// The values of the four coordinates.
    pub open spec fn coords(&self) -> Seq<Seq<M31>> {
        seq![self.coord(0), self.coord(1), self.coord(2), self.coord(3)]
    }

    /// The coordinate columns can be used.
    pub open spec fn wf(&self) -> bool {
        forall|k: int| 0 <= k < 4 ==> (#[trigger] self.columns@[k]).well_formed()
    }

    /// No coordinate column is shorter than the first one.
    pub open spec fn complete(&self) -> bool {
        forall|k: int| 0 <= k < 4 ==> #[trigger] self.coord(k).len() >= self.coord(0).len()
    }

    /// The elements.
    pub open spec fn elements(&self) -> Seq<QM31> {
        coords_elements(self.coords())
    }

    /// The number of elements.
    pub fn len(&self) -> (n: usize)
        requires
            self.wf(),
        ensures
            n == self.elements().len(),
            n == self.coord(0).len(),
    {
        assert(self.columns@[0].well_formed());
        self.columns[0].count()
    }
}

/// The elements whose coordinates are given.
pub open spec fn coords_elements(coords: Seq<Seq<M31>>) -> Seq<QM31> {
    Seq::new(
        coords[0].len(),
        |i: int|
            QM31(
                CM31(coords[0][i], coords[1][i]),
                CM31(coords[2][i], coords[3][i]),
            ),
    )
}

/// The same coordinates in the columns of another backend.
fn convert_coords<A: Backend, B: Backend>(from: &SecureColumnByCoords<A>) -> (r:
    SecureColumnByCoords<B>)
    requires
        from.wf(),
    ensures
        r.wf(),
        r.coords() == from.coords(),
{
    assert(from.columns@[0].well_formed() && from.columns@[1].well_formed()
        && from.columns@[2].well_formed() && from.columns@[3].well_formed());
    let c0: B::BaseColumn = convert(&from.columns[0]);
    let c1: B::BaseColumn = convert(&from.columns[1]);
    let c2: B::BaseColumn = convert(&from.columns[2]);
    let c3: B::BaseColumn = convert(&from.columns[3]);
    let r: SecureColumnByCoords<B> = SecureColumnByCoords { columns: [c0, c1, c2, c3] };
    assert(r.coords() == from.coords());
    r
}

impl SecureColumnByCoords<MetalBackend> {
    /// The same column in buffers.
    pub fn from_cpu(cpu: SecureColumnByCoords<CpuBackend>) -> (r: SecureColumnByCoords<
        MetalBackend,
    >)
        ensures
            r.wf(),
            r.coords() == cpu.coords(),
    {
        convert_coords(&cpu)
    }

    /// The same column in buffers.
    pub fn from_simd(simd: SecureColumnByCoords<SimdBackend>) -> (r: SecureColumnByCoords<
        MetalBackend,
    >)
        ensures
            r.wf(),
            r.coords() == simd.coords(),
    {
        convert_coords(&simd)
    }

    /// The same column for the SIMD backend.
    pub fn to_simd(&self) -> (r: SecureColumnByCoords<SimdBackend>)
        requires
            self.wf(),
        ensures
            r.wf(),
            r.coords() == self.coords(),
    {
        convert_coords(self)
    }

    /// A buffer of the elements, four words for each: `[a0, b0, c0, d0, a1, b1, c1, d1, ...]`.
    pub fn as_qm31_interleaved_u32_buffer(&self) -> (b: Buffer)
        requires
            self.wf(),
            self.complete(),
        ensures
            b@ == qm31_words(self.elements()),
    {
        let len: usize = self.len();
        assert(self.columns@[0].well_formed() && self.columns@[1].well_formed()
            && self.columns@[2].well_formed() && self.columns@[3].well_formed());
        let s0: &[M31] = self.columns[0].as_slice();
        let s1: &[M31] = self.columns[1].as_slice();
        let s2: &[M31] = self.columns[2].as_slice();
        let s3: &[M31] = self.columns[3].as_slice();
        assert(self.coord(1).len() >= len && self.coord(2).len() >= len && self.coord(3).len()
            >= len);
        let mut words: Vec<M31> = Vec::new();
        let mut i: usize = 0;
        while i < len
            invariant
                i <= len,
                len == self.coord(0).len(),
                len <= s0@.len() && len <= s1@.len() && len <= s2@.len() && len <= s3@.len(),
                s0@ == self.coord(0),
                s1@ == self.coord(1),
                s2@ == self.coord(2),
                s3@ == self.coord(3),
                words@ == qm31_words(self.elements()).take(4 * i as int),
            decreases len - i,
        {
            words.push(s0[i]);
            words.push(s1[i]);
            words.push(s2[i]);
            words.push(s3[i]);
            i = i + 1;
            assert(words@ == qm31_words(self.elements()).take(4 * i as int));
        }
        assert(qm31_words(self.elements()).take(4 * i as int) == qm31_words(self.elements()));
        Buffer::with_data(words)
    }

    /// The column of the first `len` elements of an interleaved buffer.
    ///
    /// This is the inverse of
    /// [`as_qm31_interleaved_u32_buffer`](SecureColumnByCoords::as_qm31_interleaved_u32_buffer).
    pub fn from_qm31_interleaved_buffer(buffer: &Buffer, len: usize) -> (r: SecureColumnByCoords<
        MetalBackend,
    >)
        requires
            4 * len <= buffer@.len(),
        ensures
            r.wf(),
            r.complete(),
            r.elements() == qm31_elements(buffer@, len as nat),
            forall|k: int| 0 <= k < 4 ==> #[trigger] r.coord(k).len() == len,
    {
        let src: Vec<M31> = buffer.words();
        let mut c0: Vec<M31> = Vec::with_capacity(len);
        let mut c1: Vec<M31> = Vec::with_capacity(len);
        let mut c2: Vec<M31> = Vec::with_capacity(len);
        let mut c3: Vec<M31> = Vec::with_capacity(len);
        let mut i: usize = 0;
        while i < len
            invariant
                i <= len,
                src@ == buffer@,
                4 * len <= src.len(),
                c0@ == Seq::new(i as nat, |j: int| src@[4 * j]),
                c1@ == Seq::new(i as nat, |j: int| src@[4 * j + 1]),
                c2@ == Seq::new(i as nat, |j: int| src@[4 * j + 2]),
                c3@ == Seq::new(i as nat, |j: int| src@[4 * j + 3]),
            decreases len - i,
        {
            c0.push(src[4 * i]);
            c1.push(src[4 * i + 1]);
            c2.push(src[4 * i + 2]);
            c3.push(src[4 * i + 3]);
            i = i + 1;
            assert(c0@ == Seq::new(i as nat, |j: int| src@[4 * j]));
            assert(c1@ == Seq::new(i as nat, |j: int| src@[4 * j + 1]));
            assert(c2@ == Seq::new(i as nat, |j: int| src@[4 * j + 2]));
            assert(c3@ == Seq::new(i as nat, |j: int| src@[4 * j + 3]));
        }
        let r: SecureColumnByCoords<MetalBackend> = SecureColumnByCoords {
            columns: [
                MetalBaseColumn::from_buffer(Buffer::with_data(c0), len),
                MetalBaseColumn::from_buffer(Buffer::with_data(c1), len),
                MetalBaseColumn::from_buffer(Buffer::with_data(c2), len),
                MetalBaseColumn::from_buffer(Buffer::with_data(c3), len),
            ],
        };
        proof {
            assert(r.coord(0) == c0@);
            assert(r.coord(1) == c1@);
            assert(r.coord(2) == c2@);
            assert(r.coord(3) == c3@);
            assert forall|k: int| 0 <= k < 4 implies #[trigger] r.coord(k).len() == len by {}
            assert(r.elements() == qm31_elements(buffer@, len as nat));
        }
        r
    }
}

/// Interleaving a column and taking the buffer apart again gives back every coordinate.
pub proof fn law_interleaving_inverse(
    column: SecureColumnByCoords<MetalBackend>,
    back: SecureColumnByCoords<MetalBackend>,
)
    requires
        forall|k: int| 0 <= k < 4 ==> #[trigger] column.coord(k).len() == column.coord(0).len(),
        forall|k: int| 0 <= k < 4 ==> #[trigger] back.coord(k).len() == column.coord(0).len(),
        back.elements() == qm31_elements(
            qm31_words(column.elements()),
            column.elements().len(),
        ),
    ensures
        back.elements() == column.elements(),
        back.coords() == column.coords(),
{
    law_qm31_layout(column.elements(), Seq::empty());
    assert(column.coord(1).len() == column.coord(0).len());
    assert(column.coord(2).len() == column.coord(0).len());
    assert(column.coord(3).len() == column.coord(0).len());
    assert(back.coord(0).len() == column.coord(0).len());
    assert(back.coord(1).len() == column.coord(0).len());
    assert(back.coord(2).len() == column.coord(0).len());
    assert(back.coord(3).len() == column.coord(0).len());
    lemma_coords_determined(back.coords(), column.coords(), column.coord(0).len());
}

/// The elements determine their coordinates.
proof fn lemma_coords_determined(a: Seq<Seq<M31>>, b: Seq<Seq<M31>>, n: nat)
    requires
        a.len() == 4,
        b.len() == 4,
        a[0].len() == n && a[1].len() == n && a[2].len() == n && a[3].len() == n,
        b[0].len() == n && b[1].len() == n && b[2].len() == n && b[3].len() == n,
        coords_elements(a) == coords_elements(b),
    ensures
        a == b,
{
    assert forall|i: int| 0 <= i < n implies #[trigger] a[0][i] == b[0][i] && a[1][i] == b[1][i]
        && a[2][i] == b[2][i] && a[3][i] == b[3][i] by {
        let (e, f) = (coords_elements(a)[i], coords_elements(b)[i]);
        assert(e.0.0 == a[0][i] && e.0.1 == a[1][i] && e.1.0 == a[2][i] && e.1.1 == a[3][i]);
        assert(f.0.0 == b[0][i] && f.0.1 == b[1][i] && f.1.0 == b[2][i] && f.1.1 == b[3][i]);
    }
    assert(a[0] == b[0]);
    assert forall|i: int| 0 <= i < n implies #[trigger] a[1][i] == b[1][i] by {
        assert(a[0][i] == b[0][i]);
    }
    assert(a[1] == b[1]);
    assert forall|i: int| 0 <= i < n implies #[trigger] a[2][i] == b[2][i] by {
        assert(a[0][i] == b[0][i]);
    }
    assert(a[2] == b[2]);
    assert forall|i: int| 0 <= i < n implies #[trigger] a[3][i] == b[3][i] by {
        assert(a[0][i] == b[0][i]);
    }
    assert(a[3] == b[3]);
    assert(a == b);
}

} // verus!
