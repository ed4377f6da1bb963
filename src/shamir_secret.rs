//! Splitting a secret into shares and recovering it from them.

use crate::ff_gf256::{random_byte, GF256};
use crate::ff_gf256::{gf_add, gf_mul, lemma_identities, lemma_mul_zero};
use crate::lagrange_interpolation::{
    barycentric_interpolate, interpolate_at_zero, lemma_single_point, lemma_two_points, pairs_view,
};
use crate::polynomial::{poly_eval, Polynomial};
use vstd::prelude::*;

verus! {

/// How many random draws an x-coordinate gets before the smallest free
/// value is taken instead; with at most 254 of 256 values excluded, all
/// draws fail with probability below 2^-46.
const MAX_DRAWS: usize = 4096;

/// The number of values `v` with `1 <= v < upto` that `used` leaves free.
pub open spec fn count_free(used: Seq<bool>, upto: nat) -> nat
    decreases upto,
{
    if upto == 0 {
        0
    } else {
        let m = upto - 1;
        count_free(used, m as nat) + (if m >= 1 && !used[m] { 1nat } else { 0nat })
    }
}

proof fn lemma_count_free_none_used(used: Seq<bool>, upto: nat)
    requires
        upto <= used.len(),
        forall|v: int| 0 <= v < used.len() ==> !used[v],
    ensures
        count_free(used, upto) == (if upto == 0 { 0 } else { upto - 1 }),
    decreases upto,
{
    if upto > 0 {
        lemma_count_free_none_used(used, (upto - 1) as nat);
    }
}

proof fn lemma_count_free_mark(used: Seq<bool>, x: int, upto: nat)
    requires
        upto <= used.len(),
        1 <= x < used.len(),
        !used[x],
    ensures
        count_free(used.update(x, true), upto) + (if x < upto { 1nat } else { 0nat })
            == count_free(used, upto),
    decreases upto,
{
    if upto > 0 {
        lemma_count_free_mark(used, x, (upto - 1) as nat);
    }
}

/// Draws an x-coordinate for one byte position: nonzero and not marked in
/// `used`. Draws are rejected until one fits, as many as `MAX_DRAWS` times.
fn draw_coordinate(used: &Vec<bool>) -> (x: u8)
    requires
        used@.len() == 256,
        count_free(used@, 256) >= 1,
    ensures
        x != 0,
        !used@[x as int],
{
    let mut attempts: usize = 0;
    while attempts < MAX_DRAWS
        invariant
            used@.len() == 256,
        decreases MAX_DRAWS - attempts,
    {
        let candidate = random_byte();
        if candidate != 0 && !used[candidate as usize] {
            return candidate;
        }
        attempts = attempts + 1;
    }
    let mut v: usize = 1;
    proof {
        assert(count_free(used@, 0) == 0);
        assert(count_free(used@, 1) == 0);
    }
    while v < 256
        invariant
            1 <= v <= 256,
            used@.len() == 256,
            count_free(used@, v as nat) == 0,
            count_free(used@, 256) >= 1,
        decreases 256 - v,
    {
        if !used[v] {
            return v as u8;
        }
        v = v + 1;
    }
    proof {
        assert(count_free(used@, 256) == 0);
    }
    0
}

/// A table of the 256 byte values, none marked.
fn unused_table() -> (t: Vec<bool>)
    ensures
        t@.len() == 256,
        forall|v: int| 0 <= v < 256 ==> !t@[v],
{
    let mut t: Vec<bool> = Vec::new();
    let mut i: usize = 0;
    while i < 256
        invariant
            i <= 256,
            t@.len() == i,
            forall|v: int| 0 <= v < i ==> !t@[v],
        decreases 256 - i,
    {
        t.push(false);
        i = i + 1;
    }
    t
}

/// One recipient's portion of a secret: one point per secret byte.
#[derive(Clone, Debug)]
pub struct Share {
    points: Vec<(GF256, GF256)>,
}

impl View for Share {
    type V = Seq<(u8, u8)>;

    closed spec fn view(&self) -> Seq<(u8, u8)> {
        pairs_view(self.points@)
    }
}

impl Share {
    /// A share made of the given points, one per secret byte.
    pub fn from_points(points: Vec<(GF256, GF256)>) -> (r: Share)
        ensures
            r@ == pairs_view(points@),
    {
        Share { points }
    }

    /// The points of this share, one per secret byte.
    pub fn points(&self) -> (r: &Vec<(GF256, GF256)>)
        ensures
            pairs_view(r@) == self@,
    {
        &self.points
    }
}

/// Why a secret could not be split.
#[derive(Debug, Clone, Copy, PartialEq, Eq, Structural)]
pub enum ShareError {
    /// The number of shares is outside `1..=254`.
    InvalidShareCount,
    /// The threshold is outside `1..=n`.
    InvalidThreshold,
}

/// The points of all shares, as byte pairs.
pub open spec fn shares_view(shares: Seq<Share>) -> Seq<Seq<(u8, u8)>> {
    shares.map_values(|s: Share| s@)
}

/// The points that the shares hold at byte position `p`, one per share.
pub open spec fn column(shares: Seq<Seq<(u8, u8)>>, p: int) -> Seq<(u8, u8)> {
    Seq::new(shares.len(), |s: int| shares[s][p])
}

/// The x-coordinates of `col` are nonzero and pairwise distinct.
pub open spec fn distinct_nonzero_x(col: Seq<(u8, u8)>) -> bool {
    &&& forall|s: int| 0 <= s < col.len() ==> #[trigger] col[s].0 != 0
    &&& forall|s: int, t: int|
        0 <= s < col.len() && 0 <= t < col.len() && s != t ==> #[trigger] col[s].0 != #[trigger] col[t].0
}

/// Every point of `col` lies on the polynomial with coefficients `c`.
pub open spec fn on_polynomial(col: Seq<(u8, u8)>, c: Seq<u8>) -> bool {
    forall|s: int| 0 <= s < col.len() ==> #[trigger] col[s].1 == poly_eval(c, col[s].0)
}

/// `col` is a sharing of `byte` with threshold `k`: points of distinct
/// nonzero x on a polynomial with `k` coefficients whose constant term is `byte`.
pub open spec fn shares_byte(byte: u8, k: nat, col: Seq<(u8, u8)>) -> bool {
    &&& distinct_nonzero_x(col)
    &&& exists|c: Seq<u8>| c.len() == k && c.last() == byte && #[trigger] on_polynomial(col, c)
}

/// `shares` are `n` shares of `secret` with threshold `k`.
pub open spec fn is_sharing(secret: Seq<u8>, k: nat, n: nat, shares: Seq<Seq<(u8, u8)>>) -> bool {
    &&& shares.len() == n
    &&& forall|s: int| 0 <= s < n ==> (#[trigger] shares[s]).len() == secret.len()
    &&& forall|p: int| 0 <= p < secret.len() ==> shares_byte(secret[p], k, #[trigger] column(shares, p))
}

/// With threshold one, every share alone recovers the secret: each byte's
/// polynomial is the constant byte itself.
pub proof fn lemma_threshold_one_share_recovers(
    secret: Seq<u8>,
    n: nat,
    shares: Seq<Seq<(u8, u8)>>,
    s: int,
)
    requires
        is_sharing(secret, 1, n, shares),
        0 <= s < n,
    ensures
        forall|p: int|
            0 <= p < secret.len() ==> interpolate_at_zero(#[trigger] column(seq![shares[s]], p))
                == secret[p],
{
    assert forall|p: int| 0 <= p < secret.len() implies interpolate_at_zero(
        #[trigger] column(seq![shares[s]], p),
    ) == secret[p] by {
        let col = column(shares, p);
        assert(shares_byte(secret[p], 1, col));
        let c = choose|c: Seq<u8>| c.len() == 1 && c.last() == secret[p] && #[trigger] on_polynomial(col, c);
        let x = shares[s][p].0;
        let y = shares[s][p].1;
        assert(col[s] == shares[s][p]);
        assert(x != 0);
        assert(y == poly_eval(c, x));
        assert(c.drop_last() =~= Seq::<u8>::empty());
        assert(poly_eval(Seq::<u8>::empty(), x) == 0);
        lemma_mul_zero(x);
        lemma_identities(c[0]);
        assert(y == secret[p]);
        assert(column(seq![shares[s]], p) =~= seq![(x, y)]);
        lemma_single_point(x, y);
    }
}

/// With threshold two, any two distinct shares recover the secret: the
/// points at each position lie on a line whose value at zero is the byte.
pub proof fn lemma_threshold_two_pair_recovers(
    secret: Seq<u8>,
    n: nat,
    shares: Seq<Seq<(u8, u8)>>,
    s: int,
    t: int,
)
    requires
        is_sharing(secret, 2, n, shares),
        0 <= s < n,
        0 <= t < n,
        s != t,
    ensures
        forall|p: int|
            0 <= p < secret.len() ==> interpolate_at_zero(
                #[trigger] column(seq![shares[s]].push(shares[t]), p),
            ) == secret[p],
{
    assert forall|p: int| 0 <= p < secret.len() implies interpolate_at_zero(
        #[trigger] column(seq![shares[s]].push(shares[t]), p),
    ) == secret[p] by {
        let col = column(shares, p);
        assert(shares_byte(secret[p], 2, col));
        let c = choose|c: Seq<u8>| c.len() == 2 && c.last() == secret[p] && #[trigger] on_polynomial(col, c);
        assert(col[s] == shares[s][p]);
        assert(col[t] == shares[t][p]);
        let x1 = shares[s][p].0;
        let x2 = shares[t][p].0;
        assert(x1 != 0 && x2 != 0 && x1 != x2);
        assert(c.drop_last() =~= seq![c[0]]);
        assert(seq![c[0]].drop_last() =~= Seq::<u8>::empty());
        assert(poly_eval(Seq::<u8>::empty(), x1) == 0);
        assert(poly_eval(Seq::<u8>::empty(), x2) == 0);
        lemma_mul_zero(x1);
        lemma_mul_zero(x2);
        lemma_identities(c[0]);
        assert(poly_eval(seq![c[0]], x1) == c[0]);
        assert(poly_eval(seq![c[0]], x2) == c[0]);
        assert(shares[s][p].1 == gf_add(c[1], gf_mul(c[0], x1)));
        assert(shares[t][p].1 == gf_add(c[1], gf_mul(c[0], x2)));
        assert(column(seq![shares[s]].push(shares[t]), p) =~= seq![
            (x1, gf_add(c[1], gf_mul(c[0], x1))),
            (x2, gf_add(c[1], gf_mul(c[0], x2))),
        ]);
        lemma_two_points(c[0], c[1], x1, x2);
    }
}

/// Secret sharing over GF(2^8).
pub struct Shamir;

impl Shamir {
    /// Splits `secret` into `n` shares of which any `k` recover it. Each byte
    /// gets its own polynomial and, in each share, its own random x.
    pub fn separate(secret: &[u8], k: usize, n: usize) -> (r: Result<Vec<Share>, ShareError>)
        ensures
            (n == 0 || n > 254) ==> r == Err::<Vec<Share>, ShareError>(ShareError::InvalidShareCount),
            (1 <= n <= 254 && (k == 0 || k > n)) ==> r == Err::<Vec<Share>, ShareError>(
                ShareError::InvalidThreshold,
            ),
            (1 <= n <= 254 && 1 <= k <= n) ==> r is Ok && is_sharing(
                secret@,
                k as nat,
                n as nat,
                shares_view(r->Ok_0@),
            ),
    {
        if n == 0 || n >= 255 {
            return Err(ShareError::InvalidShareCount);
        } else if k == 0 || k > n {
            return Err(ShareError::InvalidThreshold);
        }
        let len = secret.len();
        let mut columns: Vec<Vec<(GF256, GF256)>> = Vec::new();
        let mut p: usize = 0;
        while p < len
            invariant
                p <= len,
                len == secret@.len(),
                1 <= k <= n <= 254,
                columns@.len() == p,
                forall|q: int| 0 <= q < p ==> (#[trigger] columns@[q])@.len() == n,
                forall|q: int|
                    0 <= q < p ==> shares_byte(secret@[q], k as nat, pairs_view(#[trigger] columns@[q]@)),
            decreases len - p,
        {
            let polynomial = Polynomial::from_intercept(GF256(secret[p]), k);
            let mut used = unused_table();
            proof {
                lemma_count_free_none_used(used@, 256);
            }
            let mut col: Vec<(GF256, GF256)> = Vec::new();
            let mut s: usize = 0;
            while s < n
                invariant
                    s <= n <= 254,
                    1 <= k,
                    used@.len() == 256,
                    count_free(used@, 256) == 255 - s,
                    polynomial@.len() == k,
                    col@.len() == s,
                    forall|t: int| 0 <= t < s ==> (#[trigger] col@[t]).0.0 != 0,
                    forall|t: int| 0 <= t < s ==> used@[(#[trigger] col@[t]).0.0 as int],
                    forall|t: int, u: int|
                        0 <= t < s && 0 <= u < s && t != u ==> (#[trigger] col@[t]).0.0
                            != (#[trigger] col@[u]).0.0,
                    forall|t: int|
                        0 <= t < s ==> (#[trigger] col@[t]).1.0 == poly_eval(polynomial@, col@[t].0.0),
                decreases n - s,
            {
                let x = draw_coordinate(&used);
                proof {
                    lemma_count_free_mark(used@, x as int, 256);
                }
                used.set(x as usize, true);
                let y = polynomial.evaluate_at(GF256(x));
                col.push((GF256(x), y));
                s = s + 1;
            }
            proof {
                let pv = pairs_view(col@);
                assert(on_polynomial(pv, polynomial@));
                assert(distinct_nonzero_x(pv));
            }
            columns.push(col);
            p = p + 1;
        }
        let mut shares: Vec<Share> = Vec::new();
        let mut s: usize = 0;
        while s < n
            invariant
                s <= n,
                len == secret@.len(),
                columns@.len() == len,
                forall|q: int| 0 <= q < len ==> (#[trigger] columns@[q])@.len() == n,
                shares@.len() == s,
                forall|t: int| 0 <= t < s ==> (#[trigger] shares@[t])@.len() == len,
                forall|t: int, q: int|
                    0 <= t < s && 0 <= q < len ==> (#[trigger] shares@[t])@[q] == pairs_view(
                        #[trigger] columns@[q]@,
                    )[t],
            decreases n - s,
        {
            let mut points: Vec<(GF256, GF256)> = Vec::new();
            let mut q: usize = 0;
            while q < len
                invariant
                    q <= len,
                    s < n,
                    columns@.len() == len,
                    forall|q2: int| 0 <= q2 < len ==> (#[trigger] columns@[q2])@.len() == n,
                    points@.len() == q,
                    forall|q2: int|
                        0 <= q2 < q ==> pairs_view(points@)[q2] == pairs_view(
                            #[trigger] columns@[q2]@,
                        )[s as int],
                decreases len - q,
            {
                points.push(columns[q][s]);
                q = q + 1;
            }
            shares.push(Share { points });
            s = s + 1;
        }
        proof {
            let sv = shares_view(shares@);
            assert forall|q: int| 0 <= q < len implies shares_byte(
                secret@[q],
                k as nat,
                #[trigger] column(sv, q),
            ) by {
                assert(column(sv, q) =~= pairs_view(columns@[q]@));
            }
        }
        Ok(shares)
    }

    /// Recovers a secret from shares: each byte is the interpolated value at
    /// zero of the points at its position. With fewer shares than the
    /// threshold the result is some other byte string, and no error is raised.
    pub fn recover(shares: &[Share]) -> (r: Vec<u8>)
        requires
            shares@.len() >= 1,
            forall|s: int| 0 <= s < shares@.len() ==> (#[trigger] shares@[s])@.len() == shares@[0]@.len(),
        ensures
            r@.len() == shares@[0]@.len(),
            forall|p: int|
                0 <= p < r@.len() ==> #[trigger] r@[p] == interpolate_at_zero(
                    column(shares_view(shares@), p),
                ),
    {
        let secret_size = shares[0].points.len();
        let ghost sv = shares_view(shares@);
        let mut result: Vec<u8> = Vec::new();
        let mut i: usize = 0;
        while i < secret_size
            invariant
                i <= secret_size,
                shares@.len() >= 1,
                secret_size == shares@[0]@.len(),
                sv == shares_view(shares@),
                forall|s: int| 0 <= s < shares@.len() ==> (#[trigger] shares@[s])@.len() == secret_size,
                result@.len() == i,
                forall|p: int| 0 <= p < i ==> #[trigger] result@[p] == interpolate_at_zero(column(sv, p)),
            decreases secret_size - i,
        {
            let mut points: Vec<(GF256, GF256)> = Vec::new();
            let mut s: usize = 0;
            while s < shares.len()
                invariant
                    s <= shares@.len(),
                    i < secret_size,
                    sv == shares_view(shares@),
                    forall|t: int| 0 <= t < shares@.len() ==> (#[trigger] shares@[t])@.len() == secret_size,
                    points@.len() == s,
                    forall|t: int| 0 <= t < s ==> #[trigger] pairs_view(points@)[t] == sv[t][i as int],
                decreases shares@.len() - s,
            {
                let ghost before = pairs_view(points@);
                points.push(shares[s].points[i]);
                proof {
                    assert(sv[s as int] == shares@[s as int]@);
                    assert(pairs_view(points@)[s as int] == sv[s as int][i as int]);
                    assert forall|t: int| 0 <= t < s + 1 implies #[trigger] pairs_view(points@)[t]
                        == sv[t][i as int] by {
                        if t < s {
                            assert(pairs_view(points@)[t] == before[t]);
                        }
                    }
                }
                s = s + 1;
            }
            assert(pairs_view(points@) =~= column(sv, i as int));
            let secret_byte = barycentric_interpolate(points.as_slice());
            result.push(secret_byte.0);
            i = i + 1;
        }
        result
    }
}

} // verus!
