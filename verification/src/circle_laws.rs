//! The laws of points, domains and twiddles, and of the order of bits.
//!
//! Each law speaks of the results of calls.
use crate::backend::MetalBackend;
use crate::bits::{
    bit_reverse, bit_reverse_index, bit_reversed, ilog2, is_power_of_two, lemma_bit_reversed_bound,
    lemma_log2_of_pow2, pow2_usize,
};
use crate::circle::{
    domain_line_twiddles_from_tree, law_doubled_coset, lemma_twiddle_layer, point_sum,
    CircleDomain, CirclePoint, Coset, LineDomain,
};
use crate::column::{MetalBaseColumn, MetalSecureColumn};
use crate::field_laws::{
    lemma_m31, lemma_product_associates, lemma_product_stands_for, lemma_unique,
    lemma_zero_factors, stands_for,
};
use crate::fields::{qm31_product, CM31, M31, P, QM31};
use vstd::arithmetic::div_mod::*;
use vstd::arithmetic::mul::*;
use vstd::arithmetic::power2::*;
use vstd::prelude::*;

verus! {

/// The point lies on the circle `x^2 + y^2 = 1`.
pub open spec fn on_circle(p: CirclePoint<M31>) -> bool {
    (p.x.0 * p.x.0 + p.y.0 * p.y.0 - 1) % (P as int) == 0
}

/// The coordinates of a sum: those of the product of `x + y*i`.
pub proof fn law_plus_coordinates(
    a: CirclePoint<M31>,
    b: CirclePoint<M31>,
    sum: CirclePoint<M31>,
)
    requires
        call_ensures(CirclePoint::<M31>::plus, (&a, &b), sum),
    ensures
        stands_for(sum.x, a.x.0 * b.x.0 - a.y.0 * b.y.0),
        stands_for(sum.y, a.x.0 * b.y.0 + a.y.0 * b.x.0),
{
    lemma_m31(a.x.0 * b.x.0 - a.y.0 * b.y.0);
    lemma_m31(a.x.0 * b.y.0 + a.y.0 * b.x.0);
}

/// The element `x + y*i` of a point.
spec fn element_of(p: CirclePoint<M31>) -> QM31 {
    QM31(CM31(p.x, p.y), CM31(M31(0), M31(0)))
}

/// Points add up as their elements multiply.
proof fn lemma_sum_is_product(a: CirclePoint<M31>, b: CirclePoint<M31>)
    ensures
        qm31_product(element_of(a), element_of(b)) == element_of(point_sum(a, b)),
{
    let (ax, ay, bx, by) = (a.x.0 as int, a.y.0 as int, b.x.0 as int, b.y.0 as int);
    let r = qm31_product(element_of(a), element_of(b));
    let s = point_sum(a, b);
    lemma_product_stands_for(element_of(a), element_of(b));
    lemma_zero_factors(ax, bx, by, 0, 0);
    lemma_zero_factors(ay, bx, by, 0, 0);
    lemma_zero_factors(0, bx, by, 0, 0);
    lemma_m31(ax * bx - ay * by);
    lemma_m31(ax * by + ay * bx);
    lemma_unique(r.0.0, s.x, ax * bx - ay * by, ax * bx - ay * by);
    lemma_unique(r.0.1, s.y, ax * by + ay * bx, ax * by + ay * bx);
    lemma_unique(r.1.0, M31(0), 0, 0);
    lemma_unique(r.1.1, M31(0), 0, 0);
}

/// Addition of points is commutative and associative, and doubling is adding a point to itself.
pub proof fn law_plus_commutes_and_associates(
    a: CirclePoint<M31>,
    b: CirclePoint<M31>,
    c: CirclePoint<M31>,
    ab: CirclePoint<M31>,
    ba: CirclePoint<M31>,
    bc: CirclePoint<M31>,
    left: CirclePoint<M31>,
    right: CirclePoint<M31>,
    doubled: CirclePoint<M31>,
    twice: CirclePoint<M31>,
)
    requires
        call_ensures(CirclePoint::<M31>::plus, (&a, &b), ab),
        call_ensures(CirclePoint::<M31>::plus, (&b, &a), ba),
        call_ensures(CirclePoint::<M31>::plus, (&b, &c), bc),
        call_ensures(CirclePoint::<M31>::plus, (&ab, &c), left),
        call_ensures(CirclePoint::<M31>::plus, (&a, &bc), right),
        call_ensures(CirclePoint::<M31>::double, (&a,), doubled),
        call_ensures(CirclePoint::<M31>::plus, (&a, &a), twice),
    ensures
        ab == ba,
        left == right,
        doubled == twice,
{
    lemma_mul_is_commutative(a.x.0 as int, b.x.0 as int);
    lemma_mul_is_commutative(a.y.0 as int, b.y.0 as int);
    lemma_mul_is_commutative(a.x.0 as int, b.y.0 as int);
    lemma_mul_is_commutative(a.y.0 as int, b.x.0 as int);
    lemma_sum_is_product(a, b);
    lemma_sum_is_product(b, c);
    lemma_sum_is_product(ab, c);
    lemma_sum_is_product(a, bc);
    lemma_product_associates(element_of(a), element_of(b), element_of(c));
    assert(element_of(left) == element_of(right));
}

/// The point `(1, 0)` is neutral.
pub proof fn law_plus_zero(p: CirclePoint<M31>, zero: CirclePoint<M31>, sum: CirclePoint<M31>)
    requires
        zero == (CirclePoint { x: M31(1), y: M31(0) }),
        call_ensures(CirclePoint::<M31>::plus, (&p, &zero), sum),
    ensures
        stands_for(sum.x, p.x.0 as int),
        stands_for(sum.y, p.y.0 as int),
{
    law_plus_coordinates(p, zero, sum);
}

/// The mirror image of a point has the same `x` and the negated `y`, and on the circle the two add
/// up to `(1, 0)`.
pub proof fn law_conjugate(
    p: CirclePoint<M31>,
    mirrored: CirclePoint<M31>,
    sum: CirclePoint<M31>,
)
    requires
        call_ensures(CirclePoint::<M31>::conjugate, (&p,), mirrored),
        call_ensures(CirclePoint::<M31>::plus, (&p, &mirrored), sum),
    ensures
        mirrored.x == p.x,
        stands_for(mirrored.y, -(p.y.0 as int)),
        on_circle(p) ==> sum == (CirclePoint { x: M31(1), y: M31(0) }),
{
    let (x, y, z) = (p.x.0 as int, p.y.0 as int, mirrored.y.0 as int);
    let m = P as int;
    lemma_m31(-y);
    law_plus_coordinates(p, mirrored, sum);
    if on_circle(p) {
        lemma_fundamental_div_mod(-y - z, m);
        lemma_fundamental_div_mod(x * x + y * y - 1, m);
        let (q, r) = ((-y - z) / m, (x * x + y * y - 1) / m);
        assert(x * x - y * z - 1 == (r + y * q) * m) by (nonlinear_arith)
            requires
                -y - z == m * q,
                x * x + y * y - 1 == m * r,
        ;
        lemma_mod_multiples_basic(r + y * q, m);
        lemma_unique(sum.x, M31(1), x * x - y * z, 1);
        assert(x * z + y * x == (-(x * q)) * m) by (nonlinear_arith)
            requires
                -y - z == m * q,
        ;
        lemma_mod_multiples_basic(-(x * q), m);
        lemma_unique(sum.y, M31(0), x * z + y * x, 0);
    }
}

/// The points of a coset are as many as its size, start with the initial one, and each one is a
/// step away from the one before.
pub proof fn law_coset_points(
    coset: Coset,
    points: Vec<CirclePoint<M31>>,
    size: usize,
    i: int,
    next: CirclePoint<M31>,
)
    requires
        call_ensures(Coset::points, (&coset,), points),
        call_ensures(Coset::size, (&coset,), size),
        call_ensures(CirclePoint::<M31>::plus, (&points@[i], &coset.step), next),
    ensures
        points@.len() == pow2(coset.log_size as nat),
        size == points@.len(),
        points@[0] == coset.initial,
        0 <= i < points@.len() - 1 ==> points@[i + 1] == next,
{
    lemma_pow2_pos(coset.log_size as nat);
    if 0 <= i < points@.len() - 1 {
        assert(points@[i + 1] == coset.point((i + 1) as nat));
        assert(points@[i] == coset.point(i as nat));
    }
}

/// The points of the doubled coset are half as many, and they are the doubles of the first half of
/// the points in their order.
pub proof fn law_doubled_points(
    coset: Coset,
    points: Vec<CirclePoint<M31>>,
    doubled: Coset,
    doubled_points: Vec<CirclePoint<M31>>,
    i: int,
    twice: CirclePoint<M31>,
)
    requires
        coset.log_size > 0,
        call_ensures(Coset::points, (&coset,), points),
        call_ensures(Coset::double, (&coset,), doubled),
        call_ensures(Coset::points, (&doubled,), doubled_points),
        0 <= i < doubled_points@.len(),
        call_ensures(CirclePoint::<M31>::double, (&points@[i],), twice),
    ensures
        doubled.log_size == coset.log_size - 1,
        2 * doubled_points@.len() == points@.len(),
        doubled_points@[i] == twice,
{
    lemma_pow2_unfold(coset.log_size as nat);
    law_doubled_coset(coset, i as nat);
    assert(points@[i] == coset.point(i as nat));
    assert(doubled_points@[i] == doubled.point(i as nat));
}

/// The points of a circle domain are those of its coset, followed by their mirror images in the
/// same order.
pub proof fn law_domain_points(
    domain: CircleDomain,
    points: Vec<CirclePoint<M31>>,
    half: Vec<CirclePoint<M31>>,
    log_size: u32,
    size: usize,
    i: int,
    mirrored: CirclePoint<M31>,
)
    requires
        call_ensures(CircleDomain::points, (&domain,), points),
        call_ensures(Coset::points, (&domain.half_coset,), half),
        call_ensures(CircleDomain::log_size, (&domain,), log_size),
        call_ensures(CircleDomain::size, (&domain,), size),
        0 <= i < half@.len(),
        call_ensures(CirclePoint::<M31>::conjugate, (&half@[i],), mirrored),
    ensures
        log_size == domain.half_coset.log_size + 1,
        size == points@.len(),
        points@.len() == 2 * half@.len(),
        points@[i] == half@[i],
        points@[half@.len() + i] == mirrored,
{
    lemma_pow2_unfold(domain.spec_log_size());
    assert(half@[i] == domain.half_coset.point(i as nat));
    assert(points@[i] == domain.point(i as nat));
    assert(points@[half@.len() + i] == domain.point((half@.len() + i) as nat));
}

/// The line of a circle domain is the one of its coset, of the same size, and doubling the line
/// doubles the coset.
pub proof fn law_line_domain(
    domain: CircleDomain,
    line: LineDomain,
    size: usize,
    doubled: LineDomain,
    doubled_coset: Coset,
)
    requires
        call_ensures(CircleDomain::line_domain, (&domain,), line),
        call_ensures(LineDomain::size, (&line,), size),
        call_ensures(LineDomain::double, (&line,), doubled),
        call_ensures(Coset::double, (&domain.half_coset,), doubled_coset),
    ensures
        line.coset == domain.half_coset,
        size == pow2(domain.half_coset.log_size as nat),
        doubled.coset == doubled_coset,
{
}

/// The layers of twiddles of a domain of `2^n` elements: there are `n`, and layer `i` are the
/// `2^(n - 1 - i)` words that start twice as many before the end.
pub proof fn law_twiddle_layers<'a>(
    domain: LineDomain,
    twiddles: &'a [u32],
    layers: Vec<&'a [u32]>,
    i: int,
    j: int,
)
    requires
        call_ensures(domain_line_twiddles_from_tree, (domain, twiddles), layers),
        domain.coset.log_size > 0 ==> pow2(domain.coset.log_size as nat) <= twiddles@.len(),
    ensures
        layers@.len() == domain.coset.log_size,
        0 <= i < domain.coset.log_size ==> {
            let len = pow2((domain.coset.log_size - 1 - i) as nat);
            &&& layers@[i]@.len() == len
            &&& 2 * len <= twiddles@.len()
            &&& 0 <= j < len ==> layers@[i]@[j] == twiddles@[twiddles@.len() - 2 * len + j]
        },
{
    if 0 <= i < domain.coset.log_size {
        lemma_twiddle_layer(twiddles@, domain.coset.log_size as nat, i);
    }
}

/// `2^k`, and the logarithm that takes a number back to the largest power of two in it.
pub proof fn law_powers_of_two(k: u32, power: usize, n: usize, log: u32)
    requires
        call_ensures(pow2_usize, (k,), power),
        call_ensures(ilog2, (n,), log),
        n > 0,
    ensures
        power == pow2(k as nat),
        pow2(log as nat) <= n < pow2((log + 1) as nat),
        is_power_of_two(n as nat) <==> n == pow2(log as nat),
{
    lemma_pow2_unfold((log + 1) as nat);
}

/// Bit `j` of a number.
pub open spec fn bit(n: int, j: int) -> int {
    n / (pow2(j as nat) as int) % 2
}

/// The reversed bits.
proof fn lemma_reversed_bit(i: nat, bits: nat, j: int)
    requires
        0 <= j < bits,
    ensures
        bit(bit_reversed(i, bits) as int, j) == bit(i as int, bits - 1 - j),
    decreases bits,
{
    let low = (bits - 1) as nat;
    let half = pow2(low) as int;
    let rest = bit_reversed(i / 2, low) as int;
    lemma_bit_reversed_bound(i / 2, low);
    lemma_pow2_pos(low);
    lemma2_to64();
    if j == low {
        assert(rest / half == 0) by {
            lemma_basic_div(rest, half);
        }
        lemma_hoist_over_denominator(rest, (i % 2) as int, half as nat);
        assert(i as int / 1 == i);
    } else {
        lemma_reversed_bit(i / 2, low, j);
        let unit = pow2(j as nat) as int;
        let m = pow2((low - 1 - j) as nat) as int;
        lemma_pow2_pos(j as nat);
        lemma_pow2_adds(j as nat, (low - j) as nat);
        lemma_pow2_unfold((low - j) as nat);
        assert(half == unit * (2 * m));
        assert((i % 2) * half == (2 * ((i % 2) * m)) * unit) by (nonlinear_arith)
            requires
                half == unit * (2 * m),
        ;
        let even = 2 * ((i % 2) * m);
        lemma_hoist_over_denominator(rest, even, unit as nat);
        assert((rest / unit + even) % 2 == (rest / unit) % 2);
        // One bit less of the half is one bit more of the whole.
        let p = pow2((low - 1 - j) as nat) as int;
        lemma_pow2_pos((low - 1 - j) as nat);
        lemma_div_denominator(i as int, 2, p);
        assert(2 * p == pow2((low - j) as nat));
        assert(bits - 1 - j == low - j);
    }
}

/// Reversing the bits of an index: bit `j` becomes bit `log_size - 1 - j`.
pub proof fn law_bit_reverse_index(i: usize, log_size: u32, r: usize, j: int)
    requires
        call_ensures(bit_reverse_index, (i, log_size), r),
        0 <= j < log_size,
    ensures
        r < pow2(log_size as nat),
        bit(r as int, j) == bit(i as int, log_size - 1 - j),
{
    lemma_reversed_bit(i as nat, log_size as nat, j);
}

/// Bit reversal moves every item to the reversal of its index.
pub proof fn law_bit_reverse<T: Copy>(v: &mut [T], log_size: u32, i: usize, r: usize)
    requires
        call_ensures(bit_reverse::<T>, (v,), ()),
        old(v)@.len() == pow2(log_size as nat),
        i < old(v)@.len(),
        call_ensures(bit_reverse_index, (i, log_size), r),
    ensures
        final(v)@.len() == old(v)@.len(),
        final(v)@[i as int] == old(v)@[r as int],
{
    lemma_log2_of_pow2(log_size as nat);
}

/// Bit reversal of a base column moves every element to the reversal of its index and leaves the
/// words behind the elements alone.
pub proof fn law_bit_reverse_base_column(
    column: &mut MetalBaseColumn,
    log_size: u32,
    i: usize,
    r: usize,
    w: int,
)
    requires
        call_ensures(MetalBackend::bit_reverse_base_column, (column,), ()),
        old(column).wf(),
        old(column)@.len() == pow2(log_size as nat),
        i < old(column)@.len(),
        call_ensures(bit_reverse_index, (i, log_size), r),
    ensures
        final(column)@.len() == old(column)@.len(),
        final(column)@[i as int] == old(column)@[r as int],
        old(column)@.len() <= w < old(column).memory().len() ==> final(column).memory()[w]
            == old(column).memory()[w],
{
    lemma_log2_of_pow2(log_size as nat);
    old(column).law_memory();
}

/// Bit reversal of a secure column moves every element to the reversal of its index and leaves the
/// words behind the elements alone.
pub proof fn law_bit_reverse_secure_column(
    column: &mut MetalSecureColumn,
    log_size: u32,
    i: usize,
    r: usize,
    w: int,
)
    requires
        call_ensures(MetalBackend::bit_reverse_secure_column, (column,), ()),
        old(column).wf(),
        old(column)@.len() == pow2(log_size as nat),
        i < old(column)@.len(),
        call_ensures(bit_reverse_index, (i, log_size), r),
    ensures
        final(column)@.len() == old(column)@.len(),
        final(column)@[i as int] == old(column)@[r as int],
        4 * old(column)@.len() <= w < old(column).memory().len() ==> final(column).memory()[w]
            == old(column).memory()[w],
{
    lemma_log2_of_pow2(log_size as nat);
    old(column).law_memory();
}

} // verus!
