//! Polynomials over GF(2^8) whose constant term carries one secret byte.

use crate::ff_gf256::{gf_add, gf_mul, lemma_identities, lemma_mul_zero, GF256};
use crate::GenRandom;
use vstd::prelude::*;

verus! {

/// The value at `x` of the polynomial with coefficients `c`, highest degree
/// first and constant term last (Horner's rule).
pub open spec fn poly_eval(c: Seq<u8>, x: u8) -> u8
    decreases c.len(),
{
    if c.len() == 0 {
        0u8
    } else {
        gf_add(c.last(), gf_mul(poly_eval(c.drop_last(), x), x))
    }
}

/// A polynomial over GF(2^8), coefficients highest degree first.
pub struct Polynomial {
    coefficients: Vec<GF256>,
}

impl View for Polynomial {
    type V = Seq<u8>;

    closed spec fn view(&self) -> Seq<u8> {
        self.coefficients@.map_values(|c: GF256| c.0)
    }
}

impl Polynomial {
    /// A polynomial with `degree` coefficients (at least one): `degree - 1`
    /// fresh random ones, then `intercept` as the constant term.
    pub fn from_intercept(intercept: GF256, degree: usize) -> (r: Polynomial)
        ensures
            r@.len() == (if degree == 0 { 1 } else { degree as int }),
            r@.last() == intercept.0,
    {
        let mut result: Vec<GF256> = Vec::new();
        let mut i: usize = 1;
        while i < degree
            invariant
                1 <= i,
                degree == 0 ==> i == 1,
                degree > 0 ==> i <= degree,
                result@.len() == i - 1,
            decreases degree - i,
        {
            result.push(GF256::gen_random());
            i = i + 1;
        }
        result.push(intercept);
        let r = Polynomial { coefficients: result };
        assert(r@.last() == intercept.0);
        r
    }

    /// The value of this polynomial at `x`, by Horner's rule.
    pub fn evaluate_at(&self, x: GF256) -> (r: GF256)
        requires
            self@.len() >= 1,
        ensures
            r.0 == poly_eval(self@, x.0),
    {
        let ghost c = self@;
        let mut result = self.coefficients[0];
        proof {
            lemma_mul_zero(x.0);
            lemma_identities(c[0]);
            assert(c.subrange(0, 1).drop_last() =~= Seq::<u8>::empty());
            assert(poly_eval(Seq::<u8>::empty(), x.0) == 0);
            assert(c.subrange(0, 1).last() == c[0]);
        }
        let mut i: usize = 1;
        while i < self.coefficients.len()
            invariant
                1 <= i <= self.coefficients.len(),
                c == self@,
                result.0 == poly_eval(c.subrange(0, i as int), x.0),
            decreases self.coefficients.len() - i,
        {
            result = self.coefficients[i].add(result.mul(x));
            assert(c.subrange(0, i as int + 1).drop_last() =~= c.subrange(0, i as int));
            i = i + 1;
        }
        assert(c.subrange(0, i as int) =~= c);
        result
    }
}

} // verus!
