//! The base field M31 and its degree-four extension QM31.
//!
//! A base field element is stored as one 32-bit word. A secure field element is
//! `(a + b*i) + (c + d*i)*u` with `i*i = -1` and `u*u = 2 + i`, stored as the four
//! words `a, b, c, d`.
use vstd::arithmetic::div_mod::*;
use vstd::prelude::*;

verus! {

/// The modulus of the base field, `2^31 - 1`.
pub const P: u32 = 2147483647;

/// `P * 2^40`, which is added before a subtraction to keep it non-negative.
const LIFT: u128 = 2361183240335310979072;

/// An element of the field of integers modulo `P`.
///
/// The word is canonical when it is below `P`. Words that come out of a buffer are taken over as
/// they are.
#[derive(Clone, Copy, Debug, PartialEq, Eq, Structural)]
pub struct M31(pub u32);

/// The field that columns of a trace are made of.
pub type BaseField = M31;

/// `self.0 + self.1 * i`, an element of the complex extension of [`M31`].
#[derive(Clone, Copy, Debug, PartialEq, Eq, Structural)]
pub struct CM31(pub M31, pub M31);

/// `self.0 + self.1 * u`, an element of the degree-two extension of [`CM31`].
#[derive(Clone, Copy, Debug, PartialEq, Eq, Structural)]
pub struct QM31(pub CM31, pub CM31);

/// The field that challenges are drawn from.
pub type SecureField = QM31;

/// The field element that an integer stands for.
pub open spec fn m31(value: int) -> M31 {
    M31((value % (P as int)) as u32)
}

/// The product of two secure field elements, each coordinate taken modulo `P`.
pub open spec fn qm31_product(l: QM31, r: QM31) -> QM31 {
    let (a0, b0, c0, d0) = (l.0.0.0 as int, l.0.1.0 as int, l.1.0.0 as int, l.1.1.0 as int);
    let (a1, b1, c1, d1) = (r.0.0.0 as int, r.0.1.0 as int, r.1.0.0 as int, r.1.1.0 as int);
    // The product of the two `u` parts, before it is multiplied by `u * u = 2 + i`.
    let re = c0 * c1 - d0 * d1;
    let im = c0 * d1 + d0 * c1;
    QM31(
        CM31(m31(a0 * a1 - b0 * b1 + 2 * re - im), m31(a0 * b1 + b0 * a1 + re + 2 * im)),
        CM31(m31(a0 * c1 - b0 * d1 + c0 * a1 - d0 * b1), m31(a0 * d1 + b0 * c1 + c0 * b1 + d0 * a1)),
    )
}

/// The field element `plus - minus`.
pub(crate) fn reduce_difference(plus: u128, minus: u128) -> (r: M31)
    requires
        plus < 0x1_0000_0000_0000_0000_0000,
        minus < 0x20_0000_0000_0000_0000,
    ensures
        r == m31(plus - minus),
{
    proof {
        assert(LIFT == 1099511627776 * (P as u128));
        lemma_mod_multiples_vanish(1099511627776, plus - minus, P as int);
    }
    let lifted: u128 = plus + LIFT - minus;
    M31((lifted % (P as u128)) as u32)
}

/// The product of two words, which always fits 64 bits.
pub(crate) fn product(l: M31, r: M31) -> (p: u128)
    ensures
        p == l.0 * r.0,
        p < 0x1_0000_0000_0000_0000,
{
    assert(0 <= l.0 * r.0 < 0x1_0000_0000_0000_0000) by (nonlinear_arith)
        requires
            l.0 <= 0xffff_ffff,
            r.0 <= 0xffff_ffff,
    ;
    (l.0 as u128) * (r.0 as u128)
}

impl From<u32> for M31 {
    /// Reduces a word modulo `P`.
    fn from(value: u32) -> (r: M31) {
        M31(value % P)
    }
}

impl vstd::std_specs::convert::FromSpecImpl<u32> for M31 {
    open spec fn obeys_from_spec() -> bool {
        true
    }

    open spec fn from_spec(value: u32) -> M31 {
        m31(value as int)
    }
}

impl M31 {
    /// The word is below the modulus.
    pub open spec fn is_canonical(self) -> bool {
        self.0 < P
    }
}

impl QM31 {
    /// The four words in the order in which they lie in memory.
    pub open spec fn words(self) -> Seq<M31> {
        seq![self.0.0, self.0.1, self.1.0, self.1.1]
    }

    /// The element `(a + b*i) + (c + d*i)*u`.
    pub fn from_m31(a: M31, b: M31, c: M31, d: M31) -> (r: QM31)
        ensures
            r == QM31(CM31(a, b), CM31(c, d)),
            r.words() == seq![a, b, c, d],
    {
        QM31(CM31(a, b), CM31(c, d))
    }

    /// The four coordinates, in the order of [`QM31::from_m31`].
    pub fn to_m31_array(&self) -> (r: [M31; 4])
        ensures
            r@ == self.words(),
    {
        [self.0.0, self.0.1, self.1.0, self.1.1]
    }

    /// The product in the extension field.
    pub fn mul(&self, other: &QM31) -> (r: QM31)
        ensures
            r == qm31_product(*self, *other),
    {
        let (a0, b0, c0, d0) = (self.0.0, self.0.1, self.1.0, self.1.1);
        let (a1, b1, c1, d1) = (other.0.0, other.0.1, other.1.0, other.1.1);
        let a: M31 = reduce_difference(
            product(a0, a1) + 2 * product(c0, c1),
            product(b0, b1) + 2 * product(d0, d1) + product(c0, d1) + product(d0, c1),
        );
        let b: M31 = reduce_difference(
            product(a0, b1) + product(b0, a1) + product(c0, c1) + 2 * product(c0, d1) + 2 * product(
                d0,
                c1,
            ),
            product(d0, d1),
        );
        let c: M31 = reduce_difference(
            product(a0, c1) + product(c0, a1),
            product(b0, d1) + product(d0, b1),
        );
        let d: M31 = reduce_difference(
            product(a0, d1) + product(b0, c1) + product(c0, b1) + product(d0, a1),
            0,
        );
        QM31(CM31(a, b), CM31(c, d))
    }
}

} // verus!
