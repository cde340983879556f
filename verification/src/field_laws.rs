//! The laws of the fields.
//!
//! The words of a product, of powers and of sums are related to one another and to the integers
//! that they stand for. Each law speaks of the results of calls.
use crate::accumulation::{qm31_power, sums};
use crate::backend::MetalBackend;
use crate::fields::{m31, qm31_product, CM31, M31, P, QM31};
use crate::secure_column::SecureColumnByCoords;
use vstd::arithmetic::div_mod::*;
use vstd::arithmetic::mul::*;
use vstd::prelude::*;

verus! {

/// The word stands for an integer: it is canonical and differs by a multiple of the modulus.
pub open spec fn stands_for(word: M31, value: int) -> bool {
    word.0 < P && (value - word.0) % (P as int) == 0
}

/// The element stands for four integers, one for each coordinate.
pub open spec fn element_stands_for(e: QM31, a: int, b: int, c: int, d: int) -> bool {
    stands_for(e.0.0, a) && stands_for(e.0.1, b) && stands_for(e.1.0, c) && stands_for(e.1.1, d)
}

/// The element is the sum of two others, coordinate by coordinate.
pub open spec fn element_is_sum(s: QM31, l: QM31, r: QM31) -> bool {
    element_stands_for(
        s,
        l.0.0.0 + r.0.0.0,
        l.0.1.0 + r.0.1.0,
        l.1.0.0 + r.1.0.0,
        l.1.1.0 + r.1.1.0,
    )
}

/// All coordinates are below the modulus.
pub open spec fn is_canonical_element(e: QM31) -> bool {
    e.0.0.0 < P && e.0.1.0 < P && e.1.0.0 < P && e.1.1.0 < P
}

/// Reduction gives the word that stands for an integer.
pub(crate) proof fn lemma_m31(value: int)
    ensures
        stands_for(m31(value), value),
{
    lemma_fundamental_div_mod(value, P as int);
    let r = value % (P as int);
    let q = value / (P as int);
    assert(value - r == q * (P as int)) by (nonlinear_arith)
        requires
            value == (P as int) * q + r,
    ;
    lemma_mod_multiples_basic(q, P as int);
}

/// Two words that stand for integers with the same remainder are the same word.
pub(crate) proof fn lemma_unique(l: M31, r: M31, x: int, y: int)
    requires
        stands_for(l, x),
        stands_for(r, y),
        (x - y) % (P as int) == 0,
    ensures
        l == r,
{
    let p = P as int;
    let (a, b, c) = ((x - l.0) / p, (y - r.0) / p, (x - y) / p);
    lemma_fundamental_div_mod(x - l.0, p);
    lemma_fundamental_div_mod(y - r.0, p);
    lemma_fundamental_div_mod(x - y, p);
    assert(l.0 as int - r.0 as int == p * (c - a + b)) by (nonlinear_arith)
        requires
            x - l.0 == p * a,
            y - r.0 == p * b,
            x - y == p * c,
    ;
    let d = c - a + b;
    assert(d == 0) by (nonlinear_arith)
        requires
            -p < p * d < p,
            p > 0,
    ;
}

/// A multiple of the modulus can be added.
pub(crate) proof fn lemma_shifted(word: M31, x: int, y: int)
    requires
        stands_for(word, x),
        (x - y) % (P as int) == 0,
    ensures
        stands_for(word, y),
{
    let p = P as int;
    let (a, c) = ((x - word.0) / p, (x - y) / p);
    lemma_fundamental_div_mod(x - word.0, p);
    lemma_fundamental_div_mod(x - y, p);
    assert(y - word.0 == (a - c) * p) by (nonlinear_arith)
        requires
            x - word.0 == p * a,
            x - y == p * c,
    ;
    lemma_mod_multiples_basic(a - c, p);
}

/// Reducing a word keeps what it stands for: the result is canonical and differs from the word by
/// none, one or two times the modulus.
pub proof fn law_reduction(word: u32, r: M31)
    requires
        call_ensures(<M31 as From<u32>>::from, (word,), r),
    ensures
        stands_for(r, word as int),
        word < P ==> r.0 == word,
        word - r.0 == 0 || word - r.0 == P || word - r.0 == 2 * P,
{
    lemma_m31(word as int);
}

/// Factors distribute over sums and differences, and may be regrouped.
proof fn lemma_spread(x: int, y: int, z: int)
    ensures
        (x + y) * z == x * z + y * z,
        (x - y) * z == x * z - y * z,
        z * (x + y) == z * x + z * y,
        z * (x - y) == z * x - z * y,
        (x * y) * z == x * (y * z),
        x * y == y * x,
{
    lemma_mul_is_distributive_add_other_way(z, x, y);
    lemma_mul_is_distributive_sub_other_way(z, x, y);
    lemma_mul_is_distributive_add(z, x, y);
    lemma_mul_is_distributive_sub(z, x, y);
    lemma_mul_is_associative(x, y, z);
    lemma_mul_is_commutative(x, y);
}

/// The sum of complex integers.
spec fn c_sum(x: (int, int), y: (int, int)) -> (int, int) {
    (x.0 + y.0, x.1 + y.1)
}

/// The product of complex integers.
spec fn c_product(x: (int, int), y: (int, int)) -> (int, int) {
    (x.0 * y.0 - x.1 * y.1, x.0 * y.1 + x.1 * y.0)
}

/// A complex integer times `2 + i`.
spec fn c_scaled(x: (int, int)) -> (int, int) {
    (2 * x.0 - x.1, x.0 + 2 * x.1)
}

/// The product of `x.0 + x.1*u` and `y.0 + y.1*u` over the complex integers.
spec fn q_product(x: ((int, int), (int, int)), y: ((int, int), (int, int))) -> (
    (int, int),
    (int, int),
) {
    (
        c_sum(c_product(x.0, y.0), c_scaled(c_product(x.1, y.1))),
        c_sum(c_product(x.0, y.1), c_product(x.1, y.0)),
    )
}

/// Complex products associate.
proof fn lemma_c_associates(x: (int, int), y: (int, int), z: (int, int))
    ensures
        c_product(c_product(x, y), z) == c_product(x, c_product(y, z)),
{
    let ((a, b), (c, d), (e, f)) = (x, y, z);
    lemma_spread(a * c, b * d, e);
    lemma_spread(a * c, b * d, f);
    lemma_spread(a * d, b * c, e);
    lemma_spread(a * d, b * c, f);
    lemma_spread(c * e, d * f, a);
    lemma_spread(c * e, d * f, b);
    lemma_spread(c * f, d * e, a);
    lemma_spread(c * f, d * e, b);
    lemma_spread(a, c, e);
    lemma_spread(b, d, e);
    lemma_spread(a, c, f);
    lemma_spread(b, d, f);
    lemma_spread(a, d, e);
    lemma_spread(b, c, e);
    lemma_spread(a, d, f);
    lemma_spread(b, c, f);
}

/// Complex products distribute and commute.
proof fn lemma_c_distributes(x: (int, int), y: (int, int), z: (int, int))
    ensures
        c_product(c_sum(x, y), z) == c_sum(c_product(x, z), c_product(y, z)),
        c_product(z, c_sum(x, y)) == c_sum(c_product(z, x), c_product(z, y)),
        c_product(x, y) == c_product(y, x),
{
    lemma_spread(x.0, y.0, z.0);
    lemma_spread(x.0, y.0, z.1);
    lemma_spread(x.1, y.1, z.0);
    lemma_spread(x.1, y.1, z.1);
    lemma_spread(x.0, y.1, 0);
    lemma_spread(x.1, y.0, 0);
}

/// Scaling by `2 + i` moves through products and sums.
proof fn lemma_c_scaled(x: (int, int), y: (int, int))
    ensures
        c_product(c_scaled(x), y) == c_scaled(c_product(x, y)),
        c_product(x, c_scaled(y)) == c_scaled(c_product(x, y)),
        c_scaled(c_sum(x, y)) == c_sum(c_scaled(x), c_scaled(y)),
{
    let r = (2int, 1int);
    assert(c_scaled(x) == c_product(r, x));
    assert(c_scaled(y) == c_product(r, y));
    assert(c_scaled(c_product(x, y)) == c_product(r, c_product(x, y)));
    lemma_c_associates(r, x, y);
    lemma_c_associates(x, r, y);
    lemma_c_distributes(x, r, y);
}

/// Products of pairs associate.
proof fn lemma_q_associates(
    x: ((int, int), (int, int)),
    y: ((int, int), (int, int)),
    z: ((int, int), (int, int)),
)
    ensures
        q_product(q_product(x, y), z) == q_product(x, q_product(y, z)),
{
    let ((a, b), (c, d), (e, f)) = (x, y, z);
    let (bd, df) = (c_product(b, d), c_product(d, f));
    lemma_c_distributes(c_product(a, c), c_scaled(bd), e);
    lemma_c_distributes(c_product(a, c), c_scaled(bd), f);
    lemma_c_distributes(c_product(a, d), c_product(b, c), e);
    lemma_c_distributes(c_product(a, d), c_product(b, c), f);
    lemma_c_distributes(c_product(c, e), c_scaled(df), a);
    lemma_c_distributes(c_product(c, e), c_scaled(df), b);
    lemma_c_distributes(c_product(c, f), c_product(d, e), a);
    lemma_c_distributes(c_product(c, f), c_product(d, e), b);
    lemma_c_scaled(bd, e);
    lemma_c_scaled(bd, f);
    lemma_c_scaled(a, df);
    lemma_c_scaled(b, df);
    lemma_c_scaled(c_product(c_product(a, d), f), c_product(c_product(b, c), f));
    lemma_c_scaled(c_product(b, c_product(c, f)), c_product(b, c_product(d, e)));
    lemma_c_associates(a, c, e);
    lemma_c_associates(a, c, f);
    lemma_c_associates(a, d, e);
    lemma_c_associates(a, d, f);
    lemma_c_associates(b, c, e);
    lemma_c_associates(b, c, f);
    lemma_c_associates(b, d, e);
    lemma_c_associates(b, d, f);
}

/// The sum of two pairs of complex integers.
spec fn q_sum(x: ((int, int), (int, int)), y: ((int, int), (int, int))) -> (
    (int, int),
    (int, int),
) {
    (c_sum(x.0, y.0), c_sum(x.1, y.1))
}

/// A multiple of a pair of complex integers.
spec fn q_times(p: int, x: ((int, int), (int, int))) -> ((int, int), (int, int)) {
    ((p * x.0.0, p * x.0.1), (p * x.1.0, p * x.1.1))
}

/// The integers of the coordinates.
spec fn integers(e: QM31) -> ((int, int), (int, int)) {
    ((e.0.0.0 as int, e.0.1.0 as int), (e.1.0.0 as int, e.1.1.0 as int))
}

/// The coordinates differ by multiples of the modulus.
spec fn q_congruent(x: ((int, int), (int, int)), y: ((int, int), (int, int))) -> bool {
    &&& (x.0.0 - y.0.0) % (P as int) == 0
    &&& (x.0.1 - y.0.1) % (P as int) == 0
    &&& (x.1.0 - y.1.0) % (P as int) == 0
    &&& (x.1.1 - y.1.1) % (P as int) == 0
}

/// Products of pairs distribute and commute.
proof fn lemma_q_distributes(
    x: ((int, int), (int, int)),
    y: ((int, int), (int, int)),
    z: ((int, int), (int, int)),
)
    ensures
        q_product(q_sum(x, y), z) == q_sum(q_product(x, z), q_product(y, z)),
        q_product(z, q_sum(x, y)) == q_sum(q_product(z, x), q_product(z, y)),
        q_product(x, y) == q_product(y, x),
{
    lemma_c_distributes(x.0, y.0, z.0);
    lemma_c_distributes(x.0, y.0, z.1);
    lemma_c_distributes(x.1, y.1, z.0);
    lemma_c_distributes(x.1, y.1, z.1);
    lemma_c_scaled(c_product(x.1, z.1), c_product(y.1, z.1));
    lemma_c_scaled(c_product(z.1, x.1), c_product(z.1, y.1));
    lemma_c_distributes(x.0, y.1, z.0);
    lemma_c_distributes(x.1, y.0, z.0);
}

/// A factor moves out of a complex product.
proof fn lemma_c_times(p: int, x: (int, int), y: (int, int))
    ensures
        c_product((p * x.0, p * x.1), y) == (p * c_product(x, y).0, p * c_product(x, y).1),
{
    lemma_spread(p, x.0, y.0);
    lemma_spread(p, x.1, y.1);
    lemma_spread(p, x.0, y.1);
    lemma_spread(p, x.1, y.0);
    lemma_spread(x.0 * y.0, x.1 * y.1, p);
    lemma_spread(x.0 * y.1, x.1 * y.0, p);
}

/// A factor moves out of a product of pairs.
proof fn lemma_q_times(
    p: int,
    x: ((int, int), (int, int)),
    y: ((int, int), (int, int)),
)
    ensures
        q_product(q_times(p, x), y) == q_times(p, q_product(x, y)),
{
    lemma_c_times(p, x.0, y.0);
    lemma_c_times(p, x.0, y.1);
    lemma_c_times(p, x.1, y.0);
    lemma_c_times(p, x.1, y.1);
    let (s, t) = (c_product(x.0, y.0), c_product(x.1, y.1));
    let (v, w) = (c_product(x.0, y.1), c_product(x.1, y.0));
    lemma_spread(s.0, 2 * t.0 - t.1, p);
    lemma_spread(2 * t.0, t.1, p);
    lemma_spread(s.1, t.0 + 2 * t.1, p);
    lemma_spread(t.0, 2 * t.1, p);
    lemma_mul_is_associative(p, 2, t.0);
    lemma_mul_is_associative(2, p, t.0);
    lemma_mul_is_associative(p, 2, t.1);
    lemma_mul_is_associative(2, p, t.1);
    lemma_spread(v.0, w.0, p);
    lemma_spread(v.1, w.1, p);
}

/// Factors may be replaced by congruent ones.
proof fn lemma_q_congruent(
    x: ((int, int), (int, int)),
    y: ((int, int), (int, int)),
    z: ((int, int), (int, int)),
)
    requires
        q_congruent(x, y),
    ensures
        q_congruent(q_product(x, z), q_product(y, z)),
        q_congruent(q_product(z, x), q_product(z, y)),
{
    let p = P as int;
    lemma_fundamental_div_mod(x.0.0 - y.0.0, p);
    lemma_fundamental_div_mod(x.0.1 - y.0.1, p);
    lemma_fundamental_div_mod(x.1.0 - y.1.0, p);
    lemma_fundamental_div_mod(x.1.1 - y.1.1, p);
    let k = (
        ((x.0.0 - y.0.0) / p, (x.0.1 - y.0.1) / p),
        ((x.1.0 - y.1.0) / p, (x.1.1 - y.1.1) / p),
    );
    assert(x == q_sum(y, q_times(p, k)));
    lemma_q_distributes(y, q_times(p, k), z);
    lemma_q_times(p, k, z);
    let m = q_product(k, z);
    assert(q_product(x, z) == q_sum(q_product(y, z), q_times(p, m)));
    lemma_mod_multiples_basic(m.0.0, p);
    lemma_mod_multiples_basic(m.0.1, p);
    lemma_mod_multiples_basic(m.1.0, p);
    lemma_mod_multiples_basic(m.1.1, p);
    lemma_spread(m.0.0, p, 0);
    lemma_spread(m.0.1, p, 0);
    lemma_spread(m.1.0, p, 0);
    lemma_spread(m.1.1, p, 0);
    lemma_q_distributes(x, z, z);
    lemma_q_distributes(y, z, z);
}

/// The element stands for the integers of a pair.
spec fn represents(e: QM31, x: ((int, int), (int, int))) -> bool {
    element_stands_for(e, x.0.0, x.0.1, x.1.0, x.1.1)
}

/// Elements that stand for congruent integers are equal.
proof fn lemma_represents_unique(
    e: QM31,
    f: QM31,
    x: ((int, int), (int, int)),
    y: ((int, int), (int, int)),
)
    requires
        represents(e, x),
        represents(f, y),
        q_congruent(x, y),
    ensures
        e == f,
{
    lemma_unique(e.0.0, f.0.0, x.0.0, y.0.0);
    lemma_unique(e.0.1, f.0.1, x.0.1, y.0.1);
    lemma_unique(e.1.0, f.1.0, x.1.0, y.1.0);
    lemma_unique(e.1.1, f.1.1, x.1.1, y.1.1);
}

/// An element stands for congruent integers too.
proof fn lemma_represents_shifted(
    e: QM31,
    x: ((int, int), (int, int)),
    y: ((int, int), (int, int)),
)
    requires
        represents(e, x),
        q_congruent(x, y),
    ensures
        represents(e, y),
{
    lemma_shifted(e.0.0, x.0.0, y.0.0);
    lemma_shifted(e.0.1, x.0.1, y.0.1);
    lemma_shifted(e.1.0, x.1.0, y.1.0);
    lemma_shifted(e.1.1, x.1.1, y.1.1);
}

/// Congruence is transitive and symmetric.
proof fn lemma_congruent_trans(
    x: ((int, int), (int, int)),
    y: ((int, int), (int, int)),
    z: ((int, int), (int, int)),
)
    requires
        q_congruent(x, y),
        q_congruent(y, z),
    ensures
        q_congruent(x, z),
        q_congruent(y, x),
{
}

/// The product is that of the integers.
proof fn lemma_product(l: QM31, r: QM31)
    ensures
        represents(qm31_product(l, r), q_product(integers(l), integers(r))),
{
    let ((a0, b0), (c0, d0)) = integers(l);
    let ((a1, b1), (c1, d1)) = integers(r);
    let (re, im) = (c0 * c1 - d0 * d1, c0 * d1 + d0 * c1);
    lemma_m31(a0 * a1 - b0 * b1 + 2 * re - im);
    lemma_m31(a0 * b1 + b0 * a1 + re + 2 * im);
    lemma_m31(a0 * c1 - b0 * d1 + c0 * a1 - d0 * b1);
    lemma_m31(a0 * d1 + b0 * c1 + c0 * b1 + d0 * a1);
}

/// The product is that of the integers, written out.
pub(crate) proof fn lemma_product_stands_for(l: QM31, r: QM31)
    ensures
        ({
            let (a0, b0, c0, d0) = (l.0.0.0 as int, l.0.1.0 as int, l.1.0.0 as int, l.1.1.0 as int);
            let (a1, b1, c1, d1) = (r.0.0.0 as int, r.0.1.0 as int, r.1.0.0 as int, r.1.1.0 as int);
            element_stands_for(
                qm31_product(l, r),
                a0 * a1 - b0 * b1 + 2 * (c0 * c1 - d0 * d1) - (c0 * d1 + d0 * c1),
                a0 * b1 + b0 * a1 + (c0 * c1 - d0 * d1) + 2 * (c0 * d1 + d0 * c1),
                a0 * c1 - b0 * d1 + c0 * a1 - d0 * b1,
                a0 * d1 + b0 * c1 + c0 * b1 + d0 * a1,
            )
        }),
{
    lemma_product(l, r);
}

/// The coordinates of a product are canonical and follow from `i*i = -1` and `u*u = 2 + i`.
pub proof fn law_mul_coordinates(l: QM31, r: QM31, product: QM31)
    requires
        call_ensures(QM31::mul, (&l, &r), product),
    ensures
        ({
            let (a0, b0, c0, d0) = (l.0.0.0 as int, l.0.1.0 as int, l.1.0.0 as int, l.1.1.0 as int);
            let (a1, b1, c1, d1) = (r.0.0.0 as int, r.0.1.0 as int, r.1.0.0 as int, r.1.1.0 as int);
            element_stands_for(
                product,
                a0 * a1 - b0 * b1 + 2 * (c0 * c1 - d0 * d1) - (c0 * d1 + d0 * c1),
                a0 * b1 + b0 * a1 + (c0 * c1 - d0 * d1) + 2 * (c0 * d1 + d0 * c1),
                a0 * c1 - b0 * d1 + c0 * a1 - d0 * b1,
                a0 * d1 + b0 * c1 + c0 * b1 + d0 * a1,
            )
        }),
{
    lemma_product_stands_for(l, r);
}

/// Multiplication is commutative.
pub proof fn law_mul_commutes(l: QM31, r: QM31, product: QM31, swapped: QM31)
    requires
        call_ensures(QM31::mul, (&l, &r), product),
        call_ensures(QM31::mul, (&r, &l), swapped),
    ensures
        swapped == product,
{
    lemma_product(l, r);
    lemma_product(r, l);
    lemma_q_distributes(integers(l), integers(r), integers(r));
    lemma_represents_unique(
        product,
        swapped,
        q_product(integers(l), integers(r)),
        q_product(integers(r), integers(l)),
    );
}

/// Multiplication is associative.
pub proof fn law_mul_associates(
    x: QM31,
    y: QM31,
    z: QM31,
    xy: QM31,
    yz: QM31,
    left: QM31,
    right: QM31,
)
    requires
        call_ensures(QM31::mul, (&x, &y), xy),
        call_ensures(QM31::mul, (&xy, &z), left),
        call_ensures(QM31::mul, (&y, &z), yz),
        call_ensures(QM31::mul, (&x, &yz), right),
    ensures
        left == right,
{
    lemma_product_associates(x, y, z);
}

/// Products associate.
pub(crate) proof fn lemma_product_associates(x: QM31, y: QM31, z: QM31)
    ensures
        qm31_product(qm31_product(x, y), z) == qm31_product(x, qm31_product(y, z)),
{
    let (a, b, c) = (integers(x), integers(y), integers(z));
    let (xy, yz) = (qm31_product(x, y), qm31_product(y, z));
    lemma_product(x, y);
    lemma_product(y, z);
    lemma_product(xy, z);
    lemma_product(x, yz);
    lemma_q_congruent(q_product(a, b), integers(xy), c);
    lemma_q_congruent(q_product(b, c), integers(yz), a);
    lemma_q_associates(a, b, c);
    let whole = q_product(q_product(a, b), c);
    let l = q_product(integers(xy), c);
    lemma_congruent_trans(whole, l, l);
    lemma_congruent_trans(l, whole, q_product(a, integers(yz)));
    lemma_represents_unique(
        qm31_product(xy, z),
        qm31_product(x, yz),
        l,
        q_product(a, integers(yz)),
    );
}

/// Multiplication distributes over sums on both sides.
pub proof fn law_mul_distributes(
    x: QM31,
    y: QM31,
    z: QM31,
    sum: QM31,
    xy: QM31,
    xz: QM31,
    left: QM31,
    yx: QM31,
    zx: QM31,
    right: QM31,
)
    requires
        element_is_sum(sum, y, z),
        call_ensures(QM31::mul, (&x, &y), xy),
        call_ensures(QM31::mul, (&x, &z), xz),
        call_ensures(QM31::mul, (&x, &sum), left),
        call_ensures(QM31::mul, (&y, &x), yx),
        call_ensures(QM31::mul, (&z, &x), zx),
        call_ensures(QM31::mul, (&sum, &x), right),
    ensures
        element_is_sum(left, xy, xz),
        element_is_sum(right, yx, zx),
{
    law_mul_commutes(x, y, xy, yx);
    law_mul_commutes(x, z, xz, zx);
    law_mul_commutes(x, sum, left, right);
    let (a, b, c) = (integers(x), integers(y), integers(z));
    lemma_product(x, y);
    lemma_product(x, z);
    lemma_product(x, sum);
    lemma_q_congruent(q_sum(b, c), integers(sum), a);
    lemma_q_distributes(b, c, a);
    let (ab, ac, parts) = (q_product(a, b), q_product(a, c), q_sum(integers(xy), integers(xz)));
    let whole = q_product(a, integers(sum));
    lemma_congruent_trans(q_product(a, q_sum(b, c)), whole, whole);
    lemma_congruent_sum(ab, integers(xy), ac, integers(xz));
    lemma_congruent_trans(whole, q_sum(ab, ac), parts);
    lemma_represents_shifted(left, whole, parts);
}

/// Congruent pairs have congruent sums.
proof fn lemma_congruent_sum(
    x: ((int, int), (int, int)),
    y: ((int, int), (int, int)),
    v: ((int, int), (int, int)),
    w: ((int, int), (int, int)),
)
    requires
        q_congruent(x, y),
        q_congruent(v, w),
    ensures
        q_congruent(q_sum(x, v), q_sum(y, w)),
{
}

/// One is the unit of multiplication: times one, an element keeps what its coordinates stand for.
pub proof fn law_mul_unit(x: QM31, one: QM31, product: QM31)
    requires
        one == QM31(CM31(M31(1), M31(0)), CM31(M31(0), M31(0))),
        call_ensures(QM31::mul, (&x, &one), product),
    ensures
        element_stands_for(
            product,
            x.0.0.0 as int,
            x.0.1.0 as int,
            x.1.0.0 as int,
            x.1.1.0 as int,
        ),
        is_canonical_element(x) ==> product == x,
{
    lemma_product(x, one);
    if is_canonical_element(x) {
        lemma_represents_unique(product, x, integers(x), integers(x));
    }
}

/// The element with one coordinate and zeros.
pub open spec fn multiple_of_basis(value: M31, k: int) -> QM31 {
    let zero = M31(0);
    if k == 0 {
        QM31(CM31(value, zero), CM31(zero, zero))
    } else if k == 1 {
        QM31(CM31(zero, value), CM31(zero, zero))
    } else if k == 2 {
        QM31(CM31(zero, zero), CM31(value, zero))
    } else {
        QM31(CM31(zero, zero), CM31(zero, value))
    }
}

/// Multiplication on multiples of the basis `1, i, u, i*u`: `i*i = -1` and `u*u = 2 + i`, from
/// which `(i*u)*u = -1 + 2*i` and `(i*u)*(i*u) = -2 - i` follow.
pub proof fn law_mul_basis(x: M31, y: M31, j: int, k: int, product: QM31)
    requires
        0 <= j < 4,
        0 <= k < 4,
        call_ensures(
            QM31::mul,
            (&multiple_of_basis(x, j), &multiple_of_basis(y, k)),
            product,
        ),
    ensures
        ({
            let xy = x.0 * y.0;
            &&& j == 0 && k == 0 ==> element_stands_for(product, xy, 0, 0, 0)
            &&& j + k == 1 ==> element_stands_for(product, 0, xy, 0, 0)
            &&& j == 1 && k == 1 ==> element_stands_for(product, -xy, 0, 0, 0)
            &&& j + k == 2 && j != k ==> element_stands_for(product, 0, 0, xy, 0)
            &&& j + k == 3 ==> element_stands_for(product, 0, 0, 0, xy)
            &&& j + k == 4 && j != k ==> element_stands_for(product, 0, 0, -xy, 0)
            &&& j == 2 && k == 2 ==> element_stands_for(product, 2 * xy, xy, 0, 0)
            &&& j + k == 5 ==> element_stands_for(product, -xy, 2 * xy, 0, 0)
            &&& j == 3 && k == 3 ==> element_stands_for(product, -2 * xy, -xy, 0, 0)
        }),
{
    let (l, r) = (multiple_of_basis(x, j), multiple_of_basis(y, k));
    lemma_product(l, r);
    let ((a0, b0), (c0, d0)) = integers(l);
    let ((a1, b1), (c1, d1)) = integers(r);
    lemma_zero_factors(a0, a1, b1, c1, d1);
    lemma_zero_factors(b0, a1, b1, c1, d1);
    lemma_zero_factors(c0, a1, b1, c1, d1);
    lemma_zero_factors(d0, a1, b1, c1, d1);
}

/// A product with zero is zero.
pub(crate) proof fn lemma_zero_factors(x: int, a: int, b: int, c: int, d: int)
    ensures
        x == 0 || a == 0 ==> x * a == 0,
        x == 0 || b == 0 ==> x * b == 0,
        x == 0 || c == 0 ==> x * c == 0,
        x == 0 || d == 0 ==> x * d == 0,
{
    lemma_mul_nonzero(x, a);
    lemma_mul_nonzero(x, b);
    lemma_mul_nonzero(x, c);
    lemma_mul_nonzero(x, d);
}

/// The coordinates of an element are handed out in the order in which they are taken.
pub proof fn law_coordinates(a: M31, b: M31, c: M31, d: M31, e: QM31, back: [M31; 4])
    requires
        call_ensures(QM31::from_m31, (a, b, c, d), e),
        call_ensures(QM31::to_m31_array, (&e,), back),
    ensures
        e.0.0 == a && e.0.1 == b && e.1.0 == c && e.1.1 == d,
        back@ == seq![a, b, c, d],
{
}

/// The powers of an element start with one, and each one is the one before times the element, so
/// that exponents add up. Asking for fewer of them gives the first ones.
pub proof fn law_powers(
    felt: QM31,
    n: usize,
    m: usize,
    powers: Vec<QM31>,
    fewer: Vec<QM31>,
    i: int,
    j: int,
    product: QM31,
)
    requires
        call_ensures(MetalBackend::generate_secure_powers, (felt, n), powers),
        call_ensures(MetalBackend::generate_secure_powers, (felt, m), fewer),
        m <= n,
        call_ensures(QM31::mul, (&powers@[i], &powers@[j]), product),
    ensures
        powers@.len() == n,
        n > 0 ==> powers@[0] == QM31(CM31(M31(1), M31(0)), CM31(M31(0), M31(0))),
        n > 1 ==> element_stands_for(
            powers@[1],
            felt.0.0.0 as int,
            felt.0.1.0 as int,
            felt.1.0.0 as int,
            felt.1.1.0 as int,
        ),
        0 <= i && 0 <= j && i + j < n ==> powers@[i + j] == product,
        fewer@ == powers@.take(m as int),
{
    let one = QM31(CM31(M31(1), M31(0)), CM31(M31(0), M31(0)));
    if 0 <= i && 0 <= j && i + j < n {
        lemma_powers_add(felt, i as nat, j as nat);
    }
    reveal(times);
    lemma_next_power(felt, 0);
    lemma_product(one, felt);
    assert(fewer@ =~= powers@.take(m as int));
}

/// An element times one is the element, if it is canonical; a product is always canonical.
proof fn lemma_unit_and_canonical(x: QM31, y: QM31)
    ensures
        is_canonical_element(qm31_product(x, y)),
        is_canonical_element(x) ==> qm31_product(
            x,
            QM31(CM31(M31(1), M31(0)), CM31(M31(0), M31(0))),
        ) == x,
{
    let one = QM31(CM31(M31(1), M31(0)), CM31(M31(0), M31(0)));
    lemma_product(x, y);
    lemma_product(x, one);
    if is_canonical_element(x) {
        lemma_represents_unique(qm31_product(x, one), x, integers(x), integers(x));
    }
}

/// The product, under a name that is not unfolded.
#[verifier::opaque]
spec fn times(x: QM31, y: QM31) -> QM31 {
    qm31_product(x, y)
}

/// The next power.
proof fn lemma_next_power(felt: QM31, n: nat)
    ensures
        qm31_power(felt, n + 1) == times(qm31_power(felt, n), felt),
        is_canonical_element(qm31_power(felt, n)),
{
    reveal(times);
    if n > 0 {
        lemma_unit_and_canonical(qm31_power(felt, (n - 1) as nat), felt);
    }
}

/// Products associate.
proof fn lemma_times_associates(x: QM31, y: QM31, z: QM31)
    ensures
        times(times(x, y), z) == times(x, times(y, z)),
{
    reveal(times);
    lemma_product_associates(x, y, z);
}

/// Exponents add up.
proof fn lemma_powers_add(felt: QM31, i: nat, j: nat)
    ensures
        times(qm31_power(felt, i), qm31_power(felt, j)) == qm31_power(felt, i + j),
    decreases j,
{
    let left = qm31_power(felt, i);
    if j == 0 {
        lemma_next_power(felt, i);
        reveal(times);
        lemma_unit_and_canonical(left, left);
    } else {
        let k = (j - 1) as nat;
        lemma_powers_add(felt, i, k);
        lemma_next_power(felt, k);
        lemma_next_power(felt, i + k);
        lemma_times_associates(left, qm31_power(felt, k), felt);
    }
}

/// Adding a column to another adds the coordinates one by one: each of them becomes canonical and
/// stands for the sum of the two.
pub proof fn law_accumulate(
    column: &mut SecureColumnByCoords<MetalBackend>,
    other: SecureColumnByCoords<MetalBackend>,
    k: int,
    i: int,
)
    requires
        call_ensures(MetalBackend::accumulate, (column, &other), ()),
        0 <= k < 4,
    ensures
        final(column).columns@[k]@.len() == old(column).columns@[k]@.len(),
        0 <= i < old(column).columns@[k]@.len() ==> stands_for(
            final(column).columns@[k]@[i],
            old(column).columns@[k]@[i].0 + other.columns@[k]@[i].0,
        ),
{
    assert(final(column).coord(k) == sums(old(column).coord(k), other.coord(k)));
    lemma_m31(old(column).columns@[k]@[i].0 + other.columns@[k]@[i].0);
}

/// It does not matter which of two columns of the same length is added to the other.
pub proof fn law_accumulate_commutes(
    column: &mut SecureColumnByCoords<MetalBackend>,
    other: &mut SecureColumnByCoords<MetalBackend>,
    k: int,
)
    requires
        call_ensures(MetalBackend::accumulate, (column, &*old(other)), ()),
        call_ensures(MetalBackend::accumulate, (other, &*old(column)), ()),
        0 <= k < 4,
        old(column).columns@[k]@.len() == old(other).columns@[k]@.len(),
    ensures
        final(column).columns@[k]@ == final(other).columns@[k]@,
{
    assert(final(column).coord(k) == sums(old(column).coord(k), old(other).coord(k)));
    assert(final(other).coord(k) == sums(old(other).coord(k), old(column).coord(k)));
    assert(final(column).columns@[k]@ =~= final(other).columns@[k]@);
}

/// Adding two columns one after the other adds their sum.
pub proof fn law_accumulate_associates(
    first: &mut SecureColumnByCoords<MetalBackend>,
    second: &mut SecureColumnByCoords<MetalBackend>,
    both: &mut SecureColumnByCoords<MetalBackend>,
    at_once: &mut SecureColumnByCoords<MetalBackend>,
    third: SecureColumnByCoords<MetalBackend>,
    k: int,
    i: int,
)
    requires
        // The second is added to the first, and the third to the result.
        call_ensures(MetalBackend::accumulate, (first, &*old(both)), ()),
        *old(second) == *final(first),
        call_ensures(MetalBackend::accumulate, (second, &third), ()),
        // The third is added to the second, and the result to the first.
        call_ensures(MetalBackend::accumulate, (both, &third), ()),
        *old(at_once) == *old(first),
        call_ensures(MetalBackend::accumulate, (at_once, &*final(both)), ()),
        0 <= k < 4,
        0 <= i < old(first).columns@[k]@.len(),
        i < old(both).columns@[k]@.len(),
    ensures
        final(second).columns@[k]@[i] == final(at_once).columns@[k]@[i],
{
    let (a, b, c) = (
        old(first).columns@[k]@[i].0 as int,
        old(both).columns@[k]@[i].0 as int,
        third.columns@[k]@[i].0 as int,
    );
    law_accumulate(first, *old(both), k, i);
    law_accumulate(second, third, k, i);
    law_accumulate(both, third, k, i);
    law_accumulate(at_once, *final(both), k, i);
    let (ab, bc) = (final(first).columns@[k]@[i].0 as int, final(both).columns@[k]@[i].0 as int);
    lemma_shifted(final(second).columns@[k]@[i], ab + c, a + b + c);
    lemma_shifted(final(at_once).columns@[k]@[i], a + bc, a + b + c);
    lemma_unique(
        final(second).columns@[k]@[i],
        final(at_once).columns@[k]@[i],
        a + b + c,
        a + b + c,
    );
}

/// Zero is neutral, and adding what an element lacks to the modulus undoes adding the element, as
/// far as the column was canonical.
pub proof fn law_accumulate_zero_and_negation(
    column: &mut SecureColumnByCoords<MetalBackend>,
    other: SecureColumnByCoords<MetalBackend>,
    again: &mut SecureColumnByCoords<MetalBackend>,
    negated: SecureColumnByCoords<MetalBackend>,
    k: int,
    i: int,
)
    requires
        call_ensures(MetalBackend::accumulate, (column, &other), ()),
        *old(again) == *final(column),
        call_ensures(MetalBackend::accumulate, (again, &negated), ()),
        0 <= k < 4,
        0 <= i < old(column).columns@[k]@.len(),
        old(column).columns@[k]@[i].0 < P,
    ensures
        other.columns@[k]@[i].0 == 0 ==> final(column).columns@[k]@[i]
            == old(column).columns@[k]@[i],
        other.columns@[k]@[i].0 + negated.columns@[k]@[i].0 == P ==> final(again).columns@[k]@[i]
            == old(column).columns@[k]@[i],
{
    let (a, b, c) = (
        old(column).columns@[k]@[i],
        other.columns@[k]@[i].0 as int,
        negated.columns@[k]@[i].0 as int,
    );
    law_accumulate(column, other, k, i);
    law_accumulate(again, negated, k, i);
    if b == 0 {
        lemma_unique(final(column).columns@[k]@[i], a, a.0 as int, a.0 as int);
    }
    if b + c == P {
        let ab = final(column).columns@[k]@[i].0 as int;
        lemma_shifted(final(again).columns@[k]@[i], ab + c, a.0 + b + c);
        assert((a.0 + b + c - a.0) % (P as int) == 0);
        lemma_unique(final(again).columns@[k]@[i], a, a.0 + b + c, a.0 as int);
    }
}

} // verus!
