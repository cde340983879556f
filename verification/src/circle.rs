//! Points of the circle `x^2 + y^2 = 1`, cosets and domains of them, and their twiddles.
use crate::bits::pow2_usize;
use crate::fields::{m31, product, reduce_difference, M31, P};
use vstd::arithmetic::div_mod::*;
use vstd::arithmetic::power2::*;
use vstd::prelude::*;

verus! {

/// A point with coordinates in a field.
#[derive(Clone, Copy, Debug, PartialEq, Eq, Structural)]
pub struct CirclePoint<F> {
    pub x: F,
    pub y: F,
}

/// The sum of two points: the angles add up.
pub open spec fn point_sum(a: CirclePoint<M31>, b: CirclePoint<M31>) -> CirclePoint<M31> {
    CirclePoint {
        x: m31(a.x.0 * b.x.0 - a.y.0 * b.y.0),
        y: m31(a.x.0 * b.y.0 + a.y.0 * b.x.0),
    }
}

/// The mirror image of a point: its angle is negated.
pub open spec fn point_conjugate(p: CirclePoint<M31>) -> CirclePoint<M31> {
    CirclePoint { x: p.x, y: m31(-(p.y.0 as int)) }
}

impl CirclePoint<M31> {
    /// The sum of two points.
    pub fn plus(&self, other: &CirclePoint<M31>) -> (r: CirclePoint<M31>)
        ensures
            r == point_sum(*self, *other),
    {
        CirclePoint {
            x: reduce_difference(product(self.x, other.x), product(self.y, other.y)),
            y: reduce_difference(product(self.x, other.y) + product(self.y, other.x), 0),
        }
    }

    /// The point added to itself.
    pub fn double(&self) -> (r: CirclePoint<M31>)
        ensures
            r == point_sum(*self, *self),
    {
        self.plus(self)
    }

    /// The mirror image of the point.
    pub fn conjugate(&self) -> (r: CirclePoint<M31>)
        ensures
            r == point_conjugate(*self),
    {
        CirclePoint { x: self.x, y: reduce_difference(0, self.y.0 as u128) }
    }
}

/// `2^log_size` points, each one a step away from the one before.
#[derive(Clone, Copy, Debug, PartialEq, Eq, Structural)]
pub struct Coset {
    pub initial: CirclePoint<M31>,
    pub step: CirclePoint<M31>,
    pub log_size: u32,
}

impl Coset {
    /// The number of points fits a machine word.
    pub open spec fn fits(&self) -> bool {
        self.log_size < usize::BITS
    }

    /// The point after `i` steps.
    pub open spec fn point(&self, i: nat) -> CirclePoint<M31>
        decreases i,
    {
        if i == 0 {
            self.initial
        } else {
            point_sum(self.point((i - 1) as nat), self.step)
        }
    }

    /// The number of points.
    pub fn size(&self) -> (n: usize)
        requires
            self.fits(),
        ensures
            n == pow2(self.log_size as nat),
    {
        pow2_usize(self.log_size)
    }

    /// All points in their order.
    pub fn points(&self) -> (v: Vec<CirclePoint<M31>>)
        requires
            self.fits(),
        ensures
            v@ == Seq::new(pow2(self.log_size as nat), |i: int| self.point(i as nat)),
    {
        let n: usize = self.size();
        let mut v: Vec<CirclePoint<M31>> = Vec::with_capacity(n);
        let mut p: CirclePoint<M31> = self.initial;
        let mut i: usize = 0;
        while i < n
            invariant
                i <= n,
                p == self.point(i as nat),
                v@ == Seq::new(i as nat, |i: int| self.point(i as nat)),
            decreases n - i,
        {
            v.push(p);
            p = p.plus(&self.step);
            i = i + 1;
            assert(v@ == Seq::new(i as nat, |i: int| self.point(i as nat)));
        }
        v
    }

    /// The coset of the doubled points: half as many, twice the step.
    pub open spec fn doubled(&self) -> Coset {
        Coset {
            initial: point_sum(self.initial, self.initial),
            step: point_sum(self.step, self.step),
            log_size: (self.log_size - 1) as u32,
        }
    }

    /// The coset of the doubled points.
    pub fn double(&self) -> (c: Coset)
        requires
            self.log_size > 0,
        ensures
            c == self.doubled(),
    {
        Coset {
            initial: self.initial.double(),
            step: self.step.double(),
            log_size: self.log_size - 1,
        }
    }
}

/// The points of a coset, followed by their mirror images.
#[derive(Clone, Copy, Debug, PartialEq, Eq, Structural)]
pub struct CircleDomain {
    pub half_coset: Coset,
}

impl CircleDomain {
    /// The number of points fits a machine word.
    pub open spec fn fits(&self) -> bool {
        self.half_coset.log_size + 1 < usize::BITS
    }

    /// The base-two logarithm of the number of points.
    pub open spec fn spec_log_size(&self) -> nat {
        (self.half_coset.log_size + 1) as nat
    }

    /// The point at an index.
    pub open spec fn point(&self, i: nat) -> CirclePoint<M31> {
        let half = pow2(self.half_coset.log_size as nat);
        if i < half {
            self.half_coset.point(i)
        } else {
            point_conjugate(self.half_coset.point((i - half) as nat))
        }
    }

    /// The base-two logarithm of the number of points.
    pub fn log_size(&self) -> (n: u32)
        requires
            self.fits(),
        ensures
            n == self.spec_log_size(),
    {
        self.half_coset.log_size + 1
    }

    /// The number of points.
    pub fn size(&self) -> (n: usize)
        requires
            self.fits(),
        ensures
            n == pow2(self.spec_log_size()),
    {
        pow2_usize(self.half_coset.log_size + 1)
    }

    /// All points in their order.
    pub fn points(&self) -> (v: Vec<CirclePoint<M31>>)
        requires
            self.fits(),
        ensures
            v@ == Seq::new(pow2(self.spec_log_size()), |i: int| self.point(i as nat)),
    {
        let mut v: Vec<CirclePoint<M31>> = self.half_coset.points();
        let half: usize = v.len();
        proof {
            lemma_pow2_unfold(self.spec_log_size());
            vstd::bits::lemma_usize_pow2_no_overflow(self.spec_log_size());
        }
        let mut i: usize = 0;
        while i < half
            invariant
                i <= half,
                half == pow2(self.half_coset.log_size as nat),
                half + half <= usize::MAX,
                v@ == Seq::new((half + i) as nat, |i: int| self.point(i as nat)),
            decreases half - i,
        {
            let p: CirclePoint<M31> = v[i].conjugate();
            v.push(p);
            i = i + 1;
            assert(v@ == Seq::new((half + i) as nat, |i: int| self.point(i as nat)));
        }
        v
    }

    /// The domain of the `x` coordinates of the first half.
    pub fn line_domain(&self) -> (d: LineDomain)
        ensures
            d.coset == self.half_coset,
    {
        LineDomain { coset: self.half_coset }
    }
}

/// The `x` coordinates of the points of a coset.
#[derive(Clone, Copy, Debug, PartialEq, Eq, Structural)]
pub struct LineDomain {
    pub coset: Coset,
}

impl LineDomain {
    /// The number of elements.
    pub fn size(&self) -> (n: usize)
        requires
            self.coset.fits(),
        ensures
            n == pow2(self.coset.log_size as nat),
    {
        self.coset.size()
    }

    /// The domain of the doubled points, half as large.
    pub fn double(&self) -> (d: LineDomain)
        requires
            self.coset.log_size > 0,
        ensures
            d.coset == self.coset.doubled(),
    {
        LineDomain { coset: self.coset.double() }
    }
}

/// Precomputed twiddles of a coset and their inverses, all layers in one sequence.
#[derive(Debug)]
pub struct TwiddleTree {
    pub root_coset: Coset,
    pub twiddles: Vec<u32>,
    pub itwiddles: Vec<u32>,
}

/// Layer `i` of `layers` layers of twiddles: the layers lie one after the other, each of them
/// twice as long as the next, and one more word follows the last.
pub open spec fn twiddle_layer(twiddles: Seq<u32>, layers: nat, i: int) -> Seq<u32> {
    let len = pow2((layers - 1 - i) as nat);
    twiddles.subrange(twiddles.len() - 2 * len, twiddles.len() - len)
}

/// There are twiddles for so many layers.
pub open spec fn has_layers(twiddles: Seq<u32>, layers: nat) -> bool {
    layers > 0 ==> pow2(layers) <= twiddles.len()
}

/// A layer of twiddles lies inside the sequence and has its length.
pub proof fn lemma_twiddle_layer(twiddles: Seq<u32>, layers: nat, i: int)
    requires
        has_layers(twiddles, layers),
        0 <= i < layers,
    ensures
        2 * pow2((layers - 1 - i) as nat) <= twiddles.len(),
        twiddle_layer(twiddles, layers, i).len() == pow2((layers - 1 - i) as nat),
{
    let k = (layers - 1 - i) as nat;
    lemma_pow2_unfold((k + 1) as nat);
    if k + 1 < layers {
        lemma_pow2_strictly_increases((k + 1) as nat, layers);
    }
}

/// The twiddles of the layers of a domain, the longest first.
pub fn domain_line_twiddles_from_tree<'a>(domain: LineDomain, twiddles: &'a [u32]) -> (r: Vec<
    &'a [u32],
>)
    requires
        domain.coset.fits(),
        has_layers(twiddles@, domain.coset.log_size as nat),
    ensures
        r@.len() == domain.coset.log_size,
        forall|i: int|
            0 <= i < r@.len() ==> (#[trigger] r@[i])@ == twiddle_layer(
                twiddles@,
                domain.coset.log_size as nat,
                i,
            ),
{
    let layers: u32 = domain.coset.log_size;
    let n: usize = twiddles.len();
    let mut r: Vec<&'a [u32]> = Vec::new();
    let mut i: u32 = 0;
    while i < layers
        invariant
            i <= layers < usize::BITS,
            n == twiddles@.len(),
            has_layers(twiddles@, layers as nat),
            r@.len() == i,
            forall|i: int|
                0 <= i < r@.len() ==> (#[trigger] r@[i])@ == twiddle_layer(
                    twiddles@,
                    layers as nat,
                    i,
                ),
        decreases layers - i,
    {
        proof {
            lemma_twiddle_layer(twiddles@, layers as nat, i as int);
        }
        let len: usize = pow2_usize(layers - 1 - i);
        r.push(&twiddles[n - 2 * len..n - len]);
        i = i + 1;
    }
    r
}

/// The first `n` of the layers of twiddles, one after the other.
pub open spec fn joined_layers(twiddles: Seq<u32>, layers: nat, n: nat) -> Seq<u32>
    decreases n,
{
    if n == 0 {
        Seq::empty()
    } else {
        joined_layers(twiddles, layers, (n - 1) as nat) + twiddle_layer(
            twiddles,
            layers,
            n - 1,
        )
    }
}

/// The layers of twiddles lie one after the other without gaps: together the first `n` of them
/// are the stretch from the start of the first to the start of the next.
pub proof fn law_twiddle_layers_tile(twiddles: Seq<u32>, layers: nat, n: nat)
    requires
        layers > 0,
        has_layers(twiddles, layers),
        n <= layers,
    ensures
        pow2((layers - n) as nat) <= pow2(layers) <= twiddles.len(),
        joined_layers(twiddles, layers, n) == twiddles.subrange(
            twiddles.len() - pow2(layers),
            twiddles.len() - pow2((layers - n) as nat),
        ),
    decreases n,
{
    if n == 0 {
        assert(joined_layers(twiddles, layers, n) =~= twiddles.subrange(
            twiddles.len() - pow2(layers),
            twiddles.len() - pow2(layers),
        ));
    } else {
        law_twiddle_layers_tile(twiddles, layers, (n - 1) as nat);
        lemma_twiddle_layer(twiddles, layers, n - 1);
        lemma_pow2_unfold((layers - n + 1) as nat);
        assert(joined_layers(twiddles, layers, n) =~= twiddles.subrange(
            twiddles.len() - pow2(layers),
            twiddles.len() - pow2((layers - n) as nat),
        ));
    }
}

/// Factors may be reduced before they are multiplied.
proof fn lemma_reduced_factors(x: int, y: int, z: int, w: int)
    ensures
        ((x % (P as int)) * (y % (P as int)) - (z % (P as int)) * (w % (P as int))) % (P as int)
            == (x * y - z * w) % (P as int),
        ((x % (P as int)) * (y % (P as int)) + (z % (P as int)) * (w % (P as int))) % (P as int)
            == (x * y + z * w) % (P as int),
{
    let p = P as int;
    let (a, b) = ((x % p) * (y % p), (z % p) * (w % p));
    lemma_mul_mod_noop(x, y, p);
    lemma_mul_mod_noop(z, w, p);
    lemma_sub_mod_noop(a, b, p);
    lemma_sub_mod_noop(x * y, z * w, p);
    lemma_add_mod_noop(a, b, p);
    lemma_add_mod_noop(x * y, z * w, p);
}

/// The double of a sum is the sum of the doubles.
proof fn lemma_double_of_sum(a: CirclePoint<M31>, s: CirclePoint<M31>)
    ensures
        point_sum(point_sum(a, s), point_sum(a, s)) == point_sum(
            point_sum(a, a),
            point_sum(s, s),
        ),
{
    let (ax, ay) = (a.x.0 as int, a.y.0 as int);
    let (sx, sy) = (s.x.0 as int, s.y.0 as int);
    let (u, v) = (ax * sx - ay * sy, ax * sy + ay * sx);
    let (p, q) = (ax * ax - ay * ay, ax * ay + ay * ax);
    let (r, t) = (sx * sx - sy * sy, sx * sy + sy * sx);
    lemma_reduced_factors(u, u, v, v);
    lemma_reduced_factors(u, v, v, u);
    lemma_reduced_factors(p, r, q, t);
    lemma_reduced_factors(p, t, q, r);
    // Both sides are written out in products of the coordinates.
    let (c, d, e, g) = (ax * sx, ay * sy, ax * sy, ay * sx);
    let (m, n) = (ax * ay, sx * sy);
    lemma_rectangle(ax, sx, ay, sy);
    lemma_rectangle(ax, sy, ay, sx);
    lemma_rectangle(ax, sx, ax, sx);
    lemma_rectangle(ay, sy, ay, sy);
    lemma_rectangle(ax, sy, ax, sy);
    lemma_rectangle(ay, sx, ay, sx);
    lemma_rectangle(ax, sx, ax, sy);
    lemma_rectangle(ay, sy, ay, sx);
    lemma_rectangle(ax, sx, ay, sx);
    lemma_rectangle(ay, sy, ax, sy);
    assert(ay * ax == m && sy * sx == n) by (nonlinear_arith)
        requires
            m == ax * ay,
            n == sx * sy,
    ;
    assert(u * u == c * c - 2 * (c * d) + d * d) by (nonlinear_arith)
        requires
            u == c - d,
    ;
    assert(v * v == e * e + 2 * (e * g) + g * g) by (nonlinear_arith)
        requires
            v == e + g,
    ;
    assert(u * v == c * e + c * g - d * e - d * g && v * u == u * v) by (nonlinear_arith)
        requires
            u == c - d,
            v == e + g,
    ;
    let (x2, y2, r2, t2) = (ax * ax, ay * ay, sx * sx, sy * sy);
    assert(p * r == x2 * r2 - x2 * t2 - y2 * r2 + y2 * t2) by (nonlinear_arith)
        requires
            p == x2 - y2,
            r == r2 - t2,
    ;
    assert(q * t == 4 * (m * n)) by (nonlinear_arith)
        requires
            q == 2 * m,
            t == 2 * n,
    ;
    assert(p * t == 2 * (x2 * n) - 2 * (y2 * n)) by (nonlinear_arith)
        requires
            p == x2 - y2,
            t == 2 * n,
    ;
    assert(q * r == 2 * (m * r2) - 2 * (m * t2)) by (nonlinear_arith)
        requires
            q == 2 * m,
            r == r2 - t2,
    ;
    assert(u * u - v * v == p * r - q * t);
    assert(u * v + v * u == p * t + q * r);
}

/// A product of two products, regrouped.
proof fn lemma_rectangle(a: int, b: int, c: int, d: int)
    ensures
        (a * b) * (c * d) == (a * c) * (b * d),
{
    assert((a * b) * (c * d) == (a * c) * (b * d)) by (nonlinear_arith);
}

/// The points of the doubled coset are the doubles of the points of the coset, in the same order.
pub proof fn law_doubled_coset(coset: Coset, i: nat)
    requires
        coset.log_size > 0,
    ensures
        coset.doubled().point(i) == point_sum(coset.point(i), coset.point(i)),
    decreases i,
{
    if i > 0 {
        law_doubled_coset(coset, (i - 1) as nat);
        lemma_double_of_sum(coset.point((i - 1) as nat), coset.step);
    }
}

} // verus!
