//! The backends, the columns that belong to them, and the sizes from which on the GPU is used.
use crate::bits::{bit_reverse, bit_reversed_seq, is_power_of_two};
use crate::buffer::{copy_slice, qm31_words};
use crate::column::{MetalBaseColumn, MetalSecureColumn};
use crate::fields::{BaseField, SecureField, M31, QM31};
use vstd::prelude::*;

verus! {

/// A column of field elements of some backend.
pub trait Column<F>: Sized {
    /// The elements.
    spec fn elements(&self) -> Seq<F>;

    /// What the column relies on.
    spec fn well_formed(&self) -> bool;

    /// The column of the given elements.
    fn collect(values: Vec<F>) -> (c: Self)
        ensures
            c.well_formed(),
            c.elements() == values@,
    ;

    /// A copy of the elements.
    fn to_vec(&self) -> (v: Vec<F>)
        requires
            self.well_formed(),
        ensures
            v@ == self.elements(),
    ;

    /// The number of elements.
    fn count(&self) -> (n: usize)
        requires
            self.well_formed(),
        ensures
            n == self.elements().len(),
    ;
}

/// A backend and its column types.
pub trait Backend {
    type BaseColumn: Column<M31>;

    type SecureColumn: Column<QM31>;
}

/// The same elements in the column type of another backend.
pub fn convert<F, A: Column<F>, B: Column<F>>(column: &A) -> (r: B)
    requires
        column.well_formed(),
    ensures
        r.well_formed(),
        r.elements() == column.elements(),
{
    B::collect(column.to_vec())
}

/// The backend of plain vectors.
#[derive(Clone, Copy, Debug)]
pub struct CpuBackend;

impl<F: Copy> Column<F> for Vec<F> {
    open spec fn elements(&self) -> Seq<F> {
        self@
    }

    open spec fn well_formed(&self) -> bool {
        true
    }

    fn collect(values: Vec<F>) -> (c: Vec<F>) {
        values
    }

    fn to_vec(&self) -> (v: Vec<F>) {
        copy_slice(self.as_slice())
    }

    fn count(&self) -> (n: usize) {
        self.len()
    }
}

impl Backend for CpuBackend {
    type BaseColumn = Vec<M31>;

    type SecureColumn = Vec<QM31>;
}

/// The backend that small workloads are handed to.
#[derive(Clone, Copy, Debug)]
pub struct SimdBackend;

/// A column on its way to the SIMD backend or back: the elements in their order, not yet packed
/// into lanes.
#[derive(Debug)]
pub struct SimdColumn<F> {
    pub values: Vec<F>,
}

/// A SIMD column of base field elements.
pub type BaseColumn = SimdColumn<BaseField>;

/// A SIMD column of secure field elements.
pub type SecureColumn = SimdColumn<SecureField>;

impl<F> View for SimdColumn<F> {
    type V = Seq<F>;

    open spec fn view(&self) -> Seq<F> {
        self.values@
    }
}

impl<F: Copy> Column<F> for SimdColumn<F> {
    open spec fn elements(&self) -> Seq<F> {
        self@
    }

    open spec fn well_formed(&self) -> bool {
        true
    }

    fn collect(values: Vec<F>) -> (c: SimdColumn<F>) {
        SimdColumn { values }
    }

    fn to_vec(&self) -> (v: Vec<F>) {
        copy_slice(self.values.as_slice())
    }

    fn count(&self) -> (n: usize) {
        self.values.len()
    }
}

impl Backend for SimdBackend {
    type BaseColumn = BaseColumn;

    type SecureColumn = SecureColumn;
}

/// The GPU backend: large workloads run on the GPU, smaller ones on the SIMD backend.
#[derive(Clone, Copy, Debug)]
pub struct MetalBackend;

impl Column<M31> for MetalBaseColumn {
    open spec fn elements(&self) -> Seq<M31> {
        self@
    }

    open spec fn well_formed(&self) -> bool {
        self.wf()
    }

    fn collect(values: Vec<M31>) -> (c: MetalBaseColumn) {
        MetalBaseColumn::from_iter(values)
    }

    fn to_vec(&self) -> (v: Vec<M31>) {
        self.to_cpu()
    }

    fn count(&self) -> (n: usize) {
        self.len()
    }
}

impl Column<QM31> for MetalSecureColumn {
    open spec fn elements(&self) -> Seq<QM31> {
        self@
    }

    open spec fn well_formed(&self) -> bool {
        self.wf()
    }

    fn collect(values: Vec<QM31>) -> (c: MetalSecureColumn) {
        MetalSecureColumn::from_iter(values)
    }

    fn to_vec(&self) -> (v: Vec<QM31>) {
        self.to_cpu()
    }

    fn count(&self) -> (n: usize) {
        self.len()
    }
}

impl Backend for MetalBackend {
    type BaseColumn = MetalBaseColumn;

    type SecureColumn = MetalSecureColumn;
}

impl MetalBackend {
    /// Whether this build can reach a Metal device by itself. It never can: the device belongs
    /// to whoever carries out the submissions.
    pub fn is_available() -> (b: bool)
        ensures
            !b,
    {
        false
    }

    /// Moves every element of a base column to the reversal of its index.
    pub fn bit_reverse_base_column(column: &mut MetalBaseColumn)
        requires
            old(column).wf(),
            is_power_of_two(old(column)@.len()),
        ensures
            final(column).wf(),
            final(column)@ == bit_reversed_seq(old(column)@),
            final(column).memory() == final(column)@ + old(column).memory().skip(
                old(column)@.len() as int,
            ),
    {
        bit_reverse(column.as_mut_slice());
    }

    /// Moves every element of a secure column to the reversal of its index.
    pub fn bit_reverse_secure_column(column: &mut MetalSecureColumn)
        requires
            old(column).wf(),
            is_power_of_two(old(column)@.len()),
        ensures
            final(column).wf(),
            final(column)@ == bit_reversed_seq(old(column)@),
            final(column).memory() == qm31_words(final(column)@) + old(column).memory().skip(
                4 * old(column)@.len() as int,
            ),
    {
        bit_reverse(column.as_mut_slice());
    }
}

} // verus!
