//! Sums of columns and powers of a challenge.
use crate::backend::{Column, MetalBackend};
use crate::column::MetalBaseColumn;
use crate::fields::{m31, qm31_product, reduce_difference, SecureField, CM31, M31, QM31};
use crate::secure_column::SecureColumnByCoords;
use vstd::prelude::*;

verus! {

/// The sums of the elements of two columns, up to the length of the first.
pub open spec fn sums(a: Seq<M31>, b: Seq<M31>) -> Seq<M31> {
    Seq::new(a.len(), |i: int| m31(a[i].0 + b[i].0))
}

/// The power of a secure field element.
pub open spec fn qm31_power(felt: QM31, n: nat) -> QM31
    decreases n,
{
    if n == 0 {
        QM31(CM31(M31(1), M31(0)), CM31(M31(0), M31(0)))
    } else {
        qm31_product(qm31_power(felt, (n - 1) as nat), felt)
    }
}

/// The column of the sums of the elements of two columns.
fn sum_columns(a: &MetalBaseColumn, b: &MetalBaseColumn) -> (r: MetalBaseColumn)
    requires
        a.wf(),
        b.wf(),
        b@.len() >= a@.len(),
    ensures
        r.wf(),
        r@ == sums(a@, b@),
{
    let x: &[M31] = a.as_slice();
    let y: &[M31] = b.as_slice();
    let mut v: Vec<M31> = Vec::with_capacity(x.len());
    let mut i: usize = 0;
    while i < x.len()
        invariant
            i <= x@.len() <= y@.len(),
            v@ == sums(x@, y@).take(i as int),
        decreases x@.len() - i,
    {
        v.push(reduce_difference(x[i].0 as u128 + y[i].0 as u128, 0));
        i = i + 1;
        assert(v@ =~= sums(x@, y@).take(i as int));
    }
    assert(sums(x@, y@).take(i as int) =~= sums(x@, y@));
    MetalBaseColumn::from_iter(v)
}

impl MetalBackend {
    /// Adds the elements of another column to those of a column.
    pub fn accumulate(
        column: &mut SecureColumnByCoords<MetalBackend>,
        other: &SecureColumnByCoords<MetalBackend>,
    )
        requires
            old(column).wf(),
            other.wf(),
            forall|k: int|
                0 <= k < 4 ==> other.coord(k).len() >= #[trigger] old(column).coord(k).len(),
        ensures
            final(column).wf(),
            forall|k: int|
                0 <= k < 4 ==> #[trigger] final(column).coord(k) == sums(
                    old(column).coord(k),
                    other.coord(k),
                ),
    {
        assert(column.columns@[0].well_formed() && column.columns@[1].well_formed()
            && column.columns@[2].well_formed() && column.columns@[3].well_formed());
        assert(other.columns@[0].well_formed() && other.columns@[1].well_formed()
            && other.columns@[2].well_formed() && other.columns@[3].well_formed());
        assert(other.coord(0).len() >= column.coord(0).len() && other.coord(1).len()
            >= column.coord(1).len() && other.coord(2).len() >= column.coord(2).len()
            && other.coord(3).len() >= column.coord(3).len());
        let c0: MetalBaseColumn = sum_columns(&column.columns[0], &other.columns[0]);
        let c1: MetalBaseColumn = sum_columns(&column.columns[1], &other.columns[1]);
        let c2: MetalBaseColumn = sum_columns(&column.columns[2], &other.columns[2]);
        let c3: MetalBaseColumn = sum_columns(&column.columns[3], &other.columns[3]);
        column.columns = [c0, c1, c2, c3];
        assert forall|k: int| 0 <= k < 4 implies #[trigger] column.coord(k) == sums(
            old(column).coord(k),
            other.coord(k),
        ) by {}
    }

    /// The first `n_powers` powers of an element, from the zeroth on.
    pub fn generate_secure_powers(felt: SecureField, n_powers: usize) -> (v: Vec<SecureField>)
        ensures
            v@ == Seq::new(n_powers as nat, |i: int| qm31_power(felt, i as nat)),
    {
        let mut v: Vec<SecureField> = Vec::with_capacity(n_powers);
        let mut power: SecureField = QM31::from_m31(M31(1), M31(0), M31(0), M31(0));
        let mut i: usize = 0;
        while i < n_powers
            invariant
                i <= n_powers,
                power == qm31_power(felt, i as nat),
                v@ == Seq::new(i as nat, |i: int| qm31_power(felt, i as nat)),
            decreases n_powers - i,
        {
            v.push(power);
            power = power.mul(&felt);
            i = i + 1;
            assert(v@ =~= Seq::new(i as nat, |i: int| qm31_power(felt, i as nat)));
        }
        v
    }
}

} // verus!
