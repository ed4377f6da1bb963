//! Barycentric Lagrange interpolation over GF(2^8), evaluated at zero.

use crate::ff_gf256::{
    gf_add, gf_inv, gf_mul, lemma_identities, lemma_inverse, lemma_inverse_injective,
    lemma_inverse_nonzero, lemma_mul_associative, lemma_mul_commutative, lemma_mul_distributive,
    lemma_mul_distributive_right, lemma_mul_inverse_cancel, lemma_mul_zero, lemma_product_nonzero,
    GF256,
};
use vstd::prelude::*;

verus! {

/// The byte pairs that a sequence of points holds.
pub open spec fn pairs_view(points: Seq<(GF256, GF256)>) -> Seq<(u8, u8)> {
    points.map_values(|p: (GF256, GF256)| (p.0.0, p.1.0))
}

/// The product of `1 / (x_j - x_m)` over the points `m < upto` other than `j`.
pub open spec fn weight_upto(pts: Seq<(u8, u8)>, j: int, upto: nat) -> u8
    decreases upto,
{
    if upto == 0 {
        1u8
    } else {
        let w = weight_upto(pts, j, (upto - 1) as nat);
        if upto - 1 == j {
            w
        } else {
            gf_mul(w, gf_inv(gf_add(pts[j].0, pts[upto - 1].0)))
        }
    }
}

/// The barycentric weight of point `j`.
pub open spec fn weight(pts: Seq<(u8, u8)>, j: int) -> u8 {
    weight_upto(pts, j, pts.len())
}

/// The sum of `w_j * y_j / (0 - x_j)` over the first `upto` points.
pub open spec fn numerator_upto(pts: Seq<(u8, u8)>, upto: nat) -> u8
    decreases upto,
{
    if upto == 0 {
        0u8
    } else {
        let j = upto - 1;
        gf_add(
            numerator_upto(pts, (upto - 1) as nat),
            gf_mul(gf_mul(weight(pts, j), pts[j].1), gf_inv(pts[j].0)),
        )
    }
}

/// The sum of `w_j / (0 - x_j)` over the first `upto` points.
pub open spec fn denominator_upto(pts: Seq<(u8, u8)>, upto: nat) -> u8
    decreases upto,
{
    if upto == 0 {
        0u8
    } else {
        let j = upto - 1;
        gf_add(
            denominator_upto(pts, (upto - 1) as nat),
            gf_mul(weight(pts, j), gf_inv(pts[j].0)),
        )
    }
}

/// The value at zero of the polynomial through `pts`, in barycentric form;
/// in characteristic 2, `0 - x_j` is `x_j`.
pub open spec fn interpolate_at_zero(pts: Seq<(u8, u8)>) -> u8 {
    gf_mul(numerator_upto(pts, pts.len()), gf_inv(denominator_upto(pts, pts.len())))
}

/// A single point of nonzero x interpolates to its own y: the constant
/// polynomial through it.
pub proof fn lemma_single_point(x: u8, y: u8)
    requires
        x != 0,
    ensures
        interpolate_at_zero(seq![(x, y)]) == y,
{
    let pts = seq![(x, y)];
    let ix = gf_inv(x);
    assert(weight_upto(pts, 0, 0) == 1);
    assert(weight(pts, 0) == 1);
    lemma_identities(y);
    lemma_identities(ix);
    lemma_identities(gf_mul(y, ix));
    assert(numerator_upto(pts, 0) == 0);
    assert(numerator_upto(pts, 1) == gf_mul(y, ix));
    assert(denominator_upto(pts, 0) == 0);
    assert(denominator_upto(pts, 1) == ix);
    lemma_inverse(x);
    lemma_mul_zero(x);
    lemma_mul_inverse_cancel(y, ix);
}

/// Two points of distinct nonzero x on the line `c1 + c0 * x` interpolate
/// to `c1`.
pub proof fn lemma_two_points(c0: u8, c1: u8, x1: u8, x2: u8)
    requires
        x1 != 0,
        x2 != 0,
        x1 != x2,
    ensures
        interpolate_at_zero(
            seq![(x1, gf_add(c1, gf_mul(c0, x1))), (x2, gf_add(c1, gf_mul(c0, x2)))],
        ) == c1,
{
    let y1 = gf_add(c1, gf_mul(c0, x1));
    let y2 = gf_add(c1, gf_mul(c0, x2));
    let pts = seq![(x1, y1), (x2, y2)];
    let d = gf_add(x1, x2);
    assert(x1 ^ x2 != 0u8 && x2 ^ x1 == x1 ^ x2) by (bit_vector)
        requires
            x1 != x2,
    ;
    let w = gf_inv(d);
    let u = gf_inv(x1);
    let v = gf_inv(x2);
    lemma_identities(w);
    assert(weight_upto(pts, 0, 0) == 1);
    assert(weight_upto(pts, 0, 1) == 1);
    assert(weight(pts, 0) == w);
    assert(weight_upto(pts, 1, 0) == 1);
    assert(weight_upto(pts, 1, 1) == w);
    assert(weight(pts, 1) == w);

    let t1 = gf_mul(gf_mul(w, y1), u);
    let t2 = gf_mul(gf_mul(w, y2), v);
    lemma_identities(t1);
    assert(numerator_upto(pts, 0) == 0);
    assert(numerator_upto(pts, 1) == t1);
    assert(numerator_upto(pts, 2) == gf_add(t1, t2));
    lemma_mul_associative(w, y1, u);
    lemma_mul_associative(w, y2, v);
    lemma_mul_distributive(c1, gf_mul(c0, x1), u);
    lemma_mul_distributive(c1, gf_mul(c0, x2), v);
    lemma_mul_associative(c0, x1, u);
    lemma_mul_associative(c0, x2, v);
    lemma_inverse(x1);
    lemma_inverse(x2);
    lemma_mul_commutative(u, x1);
    lemma_mul_commutative(v, x2);
    lemma_identities(c0);
    let a1 = gf_mul(c1, u);
    let a2 = gf_mul(c1, v);
    assert(gf_mul(y1, u) == a1 ^ c0);
    assert(gf_mul(y2, v) == a2 ^ c0);
    assert((a1 ^ c0) ^ (a2 ^ c0) == a1 ^ a2) by (bit_vector);
    let e = gf_add(u, v);
    lemma_mul_distributive_right(c1, u, v);
    lemma_mul_distributive_right(w, gf_mul(y1, u), gf_mul(y2, v));
    assert(numerator_upto(pts, 2) == gf_mul(w, gf_mul(c1, e)));

    let s1 = gf_mul(w, u);
    let s2 = gf_mul(w, v);
    lemma_identities(s1);
    assert(denominator_upto(pts, 0) == 0);
    assert(denominator_upto(pts, 1) == s1);
    assert(denominator_upto(pts, 2) == gf_add(s1, s2));
    lemma_mul_distributive_right(w, u, v);
    assert(denominator_upto(pts, 2) == gf_mul(w, e));

    lemma_mul_associative(w, c1, e);
    lemma_mul_commutative(w, c1);
    lemma_mul_associative(c1, w, e);
    lemma_inverse_nonzero(d);
    lemma_inverse_injective(x1, x2);
    assert(u ^ v != 0u8) by (bit_vector)
        requires
            u != v,
    ;
    lemma_product_nonzero(w, e);
    lemma_mul_inverse_cancel(c1, gf_mul(w, e));
}

/// Barycentric Lagrange interpolation of `points`, evaluated at x = 0. With
/// at least as many points of distinct nonzero x as the polynomial has
/// coefficients this is its constant term; with fewer it is some other value,
/// and no error is raised.
pub fn barycentric_interpolate(points: &[(GF256, GF256)]) -> (r: GF256)
    ensures
        r.0 == interpolate_at_zero(pairs_view(points@)),
{
    let ghost pts = pairs_view(points@);
    let n = points.len();
    let mut w: Vec<GF256> = Vec::new();
    let mut j: usize = 0;
    while j < n
        invariant
            j <= n,
            n == points@.len(),
            pts == pairs_view(points@),
            w@.len() == j,
            forall|t: int| 0 <= t < j ==> #[trigger] w@[t].0 == weight(pts, t),
        decreases n - j,
    {
        let x_j = points[j].0;
        let mut w_j = GF256::one();
        let mut m: usize = 0;
        while m < n
            invariant
                m <= n,
                j < n,
                n == points@.len(),
                pts == pairs_view(points@),
                x_j.0 == pts[j as int].0,
                w_j.0 == weight_upto(pts, j as int, m as nat),
            decreases n - m,
        {
            if j != m {
                let denom = x_j.sub(points[m].0);
                let inv = denom.inverse();
                match inv {
                    Some(v) => w_j.mul_assign(v),
                    None => {},
                }
            }
            m = m + 1;
        }
        w.push(w_j);
        j = j + 1;
    }
    let mut numerator = GF256::zero();
    let mut denominator = GF256::zero();
    let mut j: usize = 0;
    while j < n
        invariant
            j <= n,
            n == points@.len(),
            pts == pairs_view(points@),
            w@.len() == n,
            forall|t: int| 0 <= t < n ==> #[trigger] w@[t].0 == weight(pts, t),
            numerator.0 == numerator_upto(pts, j as nat),
            denominator.0 == denominator_upto(pts, j as nat),
        decreases n - j,
    {
        let (x_j, y_j) = points[j];
        let neg_inv = x_j.neg().inverse();
        match neg_inv {
            Some(v) => {
                numerator.add_assign(w[j].mul(y_j).mul(v));
                denominator.add_assign(w[j].mul(v));
            },
            None => {},
        }
        j = j + 1;
    }
    let mut result = numerator;
    let den_inv = denominator.inverse();
    match den_inv {
        Some(v) => result.mul_assign(v),
        None => {},
    }
    result
}

} // verus!
