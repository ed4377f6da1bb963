//! Elements of GF(2^8) with the reduction polynomial x^8 + x^4 + x^3 + x + 1.

use crate::{Field, GenRandom};
use rand::Rng;
use subtle::{ConditionallySelectable, ConstantTimeEq};
use vstd::prelude::*;

verus! {

/// Whether bit `i` of `a` is set.
pub open spec fn bit_set(a: u8, i: u8) -> bool {
    (a >> i) & 1u8 == 1u8
}

/// Multiplication by x, reduced by the field polynomial.
pub open spec fn xtime(b: u8) -> u8 {
    if b & 0x80u8 == 0u8 {
        b << 1u8
    } else {
        (b << 1u8) ^ 0x1bu8
    }
}

/// `b` multiplied `i` times by x.
pub open spec fn xtime_pow(b: u8, i: nat) -> u8
    decreases i,
{
    if i == 0 {
        b
    } else {
        xtime(xtime_pow(b, (i - 1) as nat))
    }
}

/// The product of the low `i` bits of `a` with `b`.
pub open spec fn mul_acc(a: u8, b: u8, i: nat) -> u8
    decreases i,
{
    if i == 0 {
        0u8
    } else {
        let prev = mul_acc(a, b, (i - 1) as nat);
        if bit_set(a, (i - 1) as u8) {
            prev ^ xtime_pow(b, (i - 1) as nat)
        } else {
            prev
        }
    }
}

/// Field addition (and subtraction): exclusive or.
pub open spec fn gf_add(a: u8, b: u8) -> u8 {
    a ^ b
}

/// Field multiplication: carry-less product reduced by the field polynomial.
pub open spec fn gf_mul(a: u8, b: u8) -> u8 {
    mul_acc(a, b, 8)
}

/// Field squaring.
pub open spec fn gf_square(a: u8) -> u8 {
    gf_mul(a, a)
}

/// Exponentiation by squaring: `a` raised to `e`.
pub open spec fn gf_pow(a: u8, e: nat) -> u8
    decreases e,
{
    if e == 0 {
        1u8
    } else {
        let h = gf_pow(a, e / 2);
        if e % 2 == 1 {
            gf_mul(gf_square(h), a)
        } else {
            gf_square(h)
        }
    }
}

/// `n` rounds of square-then-multiply by `a`, starting from `a`.
pub open spec fn inv_steps(a: u8, n: nat) -> u8
    decreases n,
{
    if n == 0 {
        a
    } else {
        gf_mul(gf_square(inv_steps(a, (n - 1) as nat)), a)
    }
}

/// `a^254`, the multiplicative inverse of a nonzero `a`; zero for zero.
pub open spec fn gf_inv(a: u8) -> u8 {
    if a == 0 {
        0u8
    } else {
        gf_square(inv_steps(a, 6))
    }
}

/// Field multiplication is commutative.
#[verifier::rlimit(100)]
pub proof fn lemma_mul_commutative(a: u8, b: u8)
    ensures
        gf_mul(a, b) == gf_mul(b, a),
{
    assert(gf_mul(a, b) == gf_mul(b, a)) by (bit_vector);
}

/// Every element is its own additive inverse.
pub proof fn lemma_add_self_zero(a: u8)
    ensures
        gf_add(a, a) == 0,
{
    assert(a ^ a == 0u8) by (bit_vector);
}

/// One is the multiplicative identity and zero the additive identity.
#[verifier::rlimit(100)]
pub proof fn lemma_identities(a: u8)
    ensures
        gf_mul(a, 1) == a,
        gf_mul(1, a) == a,
        gf_add(a, 0) == a,
        gf_add(0, a) == a,
{
    assert(gf_mul(a, 1u8) == a) by (bit_vector);
    lemma_mul_commutative(a, 1);
    assert(a ^ 0u8 == a && 0u8 ^ a == a) by (bit_vector);
}

/// Zero times anything is zero.
#[verifier::rlimit(100)]
pub proof fn lemma_mul_zero(a: u8)
    ensures
        gf_mul(0, a) == 0,
        gf_mul(a, 0) == 0,
{
    assert(gf_mul(0u8, a) == 0u8) by (bit_vector);
    lemma_mul_commutative(a, 0);
}

/// Field addition is associative.
pub proof fn lemma_add_associative(a: u8, b: u8, c: u8)
    ensures
        gf_add(a, gf_add(b, c)) == gf_add(gf_add(a, b), c),
{
    assert(a ^ (b ^ c) == (a ^ b) ^ c) by (bit_vector);
}

/// Every nonzero element times its inverse is one.
pub proof fn lemma_inverse(a: u8)
    requires
        a != 0,
    ensures
        gf_mul(gf_inv(a), a) == 1,
{
    reveal_with_fuel(inv_steps, 7);
    let r1 = gf_mul(a, a);
    let r2 = gf_mul(r1, a);
    let r3 = gf_mul(r2, r2);
    let r4 = gf_mul(r3, a);
    let r5 = gf_mul(r4, r4);
    let r6 = gf_mul(r5, a);
    let r7 = gf_mul(r6, r6);
    let r8 = gf_mul(r7, a);
    let r9 = gf_mul(r8, r8);
    let r10 = gf_mul(r9, a);
    let r11 = gf_mul(r10, r10);
    let r12 = gf_mul(r11, a);
    let r13 = gf_mul(r12, r12);
    let r14 = gf_mul(r13, a);
    lemma_inv_chain(a, r1, r2, r3, r4, r5, r6, r7, r8, r9, r10, r11, r12, r13, r14);
}

proof fn lemma_mul_acc_distributive(a: u8, b: u8, c: u8, i: nat)
    requires
        i <= 8,
    ensures
        mul_acc(a ^ b, c, i) == mul_acc(a, c, i) ^ mul_acc(b, c, i),
    decreases i,
{
    if i == 0 {
        assert(0u8 ^ 0u8 == 0u8) by (bit_vector);
    } else {
        lemma_mul_acc_distributive(a, b, c, (i - 1) as nat);
        let j = (i - 1) as u8;
        let pa = mul_acc(a, c, (i - 1) as nat);
        let pb = mul_acc(b, c, (i - 1) as nat);
        let x = xtime_pow(c, (i - 1) as nat);
        assert(bit_set(a ^ b, j) == (bit_set(a, j) != bit_set(b, j))) by (bit_vector)
            requires
                j < 8,
        ;
        assert((pa ^ pb) ^ x == (pa ^ x) ^ pb && (pa ^ pb) ^ x == pa ^ (pb ^ x) && pa ^ pb == (pa
            ^ x) ^ (pb ^ x)) by (bit_vector);
    }
}

/// Multiplication distributes over addition.
pub proof fn lemma_mul_distributive(a: u8, b: u8, c: u8)
    ensures
        gf_mul(gf_add(a, b), c) == gf_add(gf_mul(a, c), gf_mul(b, c)),
{
    lemma_mul_acc_distributive(a, b, c, 8);
}

/// Multiplying a factor by x multiplies the product by x.
#[verifier::rlimit(100)]
proof fn lemma_mul_xtime(a: u8, b: u8)
    ensures
        gf_mul(xtime(a), b) == xtime(gf_mul(a, b)),
{
    assert(gf_mul(xtime(a), b) == xtime(gf_mul(a, b))) by (bit_vector);
}

proof fn lemma_xtime_pow_mul(z: u8, w: u8, i: nat)
    ensures
        gf_mul(xtime_pow(z, i), w) == xtime_pow(gf_mul(z, w), i),
    decreases i,
{
    if i > 0 {
        lemma_xtime_pow_mul(z, w, (i - 1) as nat);
        lemma_mul_xtime(xtime_pow(z, (i - 1) as nat), w);
    }
}

proof fn lemma_mul_acc_associative(y: u8, z: u8, w: u8, i: nat)
    requires
        i <= 8,
    ensures
        gf_mul(mul_acc(y, z, i), w) == mul_acc(y, gf_mul(z, w), i),
    decreases i,
{
    if i == 0 {
        lemma_mul_zero(w);
    } else {
        lemma_mul_acc_associative(y, z, w, (i - 1) as nat);
        let prev = mul_acc(y, z, (i - 1) as nat);
        let x = xtime_pow(z, (i - 1) as nat);
        lemma_mul_distributive(prev, x, w);
        lemma_xtime_pow_mul(z, w, (i - 1) as nat);
    }
}

/// Field multiplication is associative.
pub proof fn lemma_mul_associative(a: u8, b: u8, c: u8)
    ensures
        gf_mul(gf_mul(a, b), c) == gf_mul(a, gf_mul(b, c)),
{
    lemma_mul_acc_associative(a, b, c, 8);
}

/// Multiplying by a nonzero element and then by its inverse gives back the
/// first factor.
pub proof fn lemma_mul_inverse_cancel(y: u8, z: u8)
    requires
        z != 0,
    ensures
        gf_mul(gf_mul(y, z), gf_inv(z)) == y,
{
    lemma_mul_associative(y, z, gf_inv(z));
    lemma_inverse(z);
    lemma_mul_commutative(z, gf_inv(z));
    lemma_identities(y);
}

/// Multiplication distributes over addition in its second factor.
pub proof fn lemma_mul_distributive_right(a: u8, b: u8, c: u8)
    ensures
        gf_mul(a, gf_add(b, c)) == gf_add(gf_mul(a, b), gf_mul(a, c)),
{
    lemma_mul_distributive(b, c, a);
    lemma_mul_commutative(a, gf_add(b, c));
    lemma_mul_commutative(a, b);
    lemma_mul_commutative(a, c);
}

/// The inverse of a nonzero element is nonzero.
pub proof fn lemma_inverse_nonzero(a: u8)
    requires
        a != 0,
    ensures
        gf_inv(a) != 0,
{
    lemma_inverse(a);
    lemma_mul_zero(a);
}

/// A product of nonzero elements is nonzero.
pub proof fn lemma_product_nonzero(a: u8, b: u8)
    requires
        a != 0,
        b != 0,
    ensures
        gf_mul(a, b) != 0,
{
    lemma_mul_inverse_cancel(a, b);
    lemma_mul_zero(gf_inv(b));
}

/// Distinct nonzero elements have distinct inverses.
pub proof fn lemma_inverse_injective(a: u8, b: u8)
    requires
        a != 0,
        b != 0,
        a != b,
    ensures
        gf_inv(a) != gf_inv(b),
{
    if gf_inv(a) == gf_inv(b) {
        lemma_inverse_nonzero(a);
        lemma_mul_inverse_cancel(a, gf_inv(a));
        lemma_mul_inverse_cancel(b, gf_inv(b));
        lemma_inverse(a);
        lemma_inverse(b);
        lemma_mul_commutative(a, gf_inv(a));
        lemma_mul_commutative(b, gf_inv(b));
        lemma_identities(gf_inv(gf_inv(a)));
    }
}

#[verifier::rlimit(100)]
proof fn lemma_inv_chain(
    a: u8,
    r1: u8,
    r2: u8,
    r3: u8,
    r4: u8,
    r5: u8,
    r6: u8,
    r7: u8,
    r8: u8,
    r9: u8,
    r10: u8,
    r11: u8,
    r12: u8,
    r13: u8,
    r14: u8,
)
    requires
        a != 0,
        r1 == gf_mul(a, a), r2 == gf_mul(r1, a),
        r3 == gf_mul(r2, r2), r4 == gf_mul(r3, a),
        r5 == gf_mul(r4, r4), r6 == gf_mul(r5, a),
        r7 == gf_mul(r6, r6), r8 == gf_mul(r7, a),
        r9 == gf_mul(r8, r8), r10 == gf_mul(r9, a),
        r11 == gf_mul(r10, r10), r12 == gf_mul(r11, a),
        r13 == gf_mul(r12, r12),
        r14 == gf_mul(r13, a),
    ensures
        r14 == 1,
{
    assert(r14 == 1u8) by (bit_vector)
        requires
        a != 0,
        r1 == gf_mul(a, a), r2 == gf_mul(r1, a),
        r3 == gf_mul(r2, r2), r4 == gf_mul(r3, a),
        r5 == gf_mul(r4, r4), r6 == gf_mul(r5, a),
        r7 == gf_mul(r6, r6), r8 == gf_mul(r7, a),
        r9 == gf_mul(r8, r8), r10 == gf_mul(r9, a),
        r11 == gf_mul(r10, r10), r12 == gf_mul(r11, a),
        r13 == gf_mul(r12, r12),
        r14 == gf_mul(r13, a);
}

/// Relies on subtle's `ConstantTimeEq for u8`: the choice is 1 exactly when the bytes are equal.
#[verifier::external_body]
fn ct_eq_u8(a: u8, b: u8) -> (r: u8)
    ensures
        r == (if a == b { 1u8 } else { 0u8 }),
{
    a.ct_eq(&b).unwrap_u8()
}

/// Relies on subtle's `ConditionallySelectable for u8`: `b` for the choice 1, `a` for 0.
#[verifier::external_body]
fn ct_select_u8(a: u8, b: u8, choice: u8) -> (r: u8)
    requires
        choice == 0 || choice == 1,
    ensures
        r == (if choice == 1 { b } else { a }),
{
    u8::conditional_select(&a, &b, subtle::Choice::from(choice))
}

/// Relies on rand's `thread_rng().gen::<u8>()`: a byte from the thread's
/// cryptographically secure generator; nothing is known of its value.
#[verifier::external_body]
pub(crate) fn random_byte() -> (r: u8) {
    rand::thread_rng().gen::<u8>()
}

/// An element of GF(2^8), held as its byte.
#[derive(Clone, Copy, Debug, Eq)]
pub struct GF256(pub u8);

impl PartialEq for GF256 {
    /// Constant-time comparison of the two bytes.
    fn eq(&self, other: &GF256) -> (r: bool) {
        ct_eq_u8(self.0, other.0) == 1
    }
}

impl vstd::std_specs::cmp::PartialEqSpecImpl for GF256 {
    open spec fn obeys_eq_spec() -> bool {
        true
    }

    open spec fn eq_spec(&self, other: &GF256) -> bool {
        self.0 == other.0
    }
}

impl GF256 {
    /// The additive identity.
    pub fn zero() -> (r: GF256)
        ensures
            r.0 == 0,
    {
        GF256(0)
    }

    /// The multiplicative identity.
    pub fn one() -> (r: GF256)
        ensures
            r.0 == 1,
    {
        GF256(1)
    }

    /// Whether this is the additive identity, compared in constant time.
    pub fn is_zero(&self) -> (r: bool)
        ensures
            r == (self.0 == 0),
    {
        ct_eq_u8(self.0, 0) == 1
    }

    /// Adds in place: exclusive or of the bytes.
    pub fn add_assign(&mut self, other: GF256)
        ensures
            final(self).0 == gf_add(old(self).0, other.0),
    {
        self.0 = self.0 ^ other.0;
    }

    /// The sum of two elements.
    pub fn add(self, other: GF256) -> (r: GF256)
        ensures
            r.0 == gf_add(self.0, other.0),
    {
        let mut result = self;
        result.add_assign(other);
        result
    }

    /// Subtraction, which in characteristic 2 is addition.
    pub fn sub_assign(&mut self, other: GF256)
        ensures
            final(self).0 == gf_add(old(self).0, other.0),
    {
        self.0 = self.0 ^ other.0;
    }

    /// The difference of two elements.
    pub fn sub(self, other: GF256) -> (r: GF256)
        ensures
            r.0 == gf_add(self.0, other.0),
    {
        let mut result = self;
        result.sub_assign(other);
        result
    }

    /// Negation, the identity: every element is its own additive inverse.
    pub fn neg(self) -> (r: GF256)
        ensures
            r == self,
    {
        self
    }

    /// Multiplies in place, without branches on either operand: each of the
    /// eight steps selects by constant-time choice.
    pub fn mul_assign(&mut self, rhs: GF256)
        ensures
            final(self).0 == gf_mul(old(self).0, rhs.0),
    {
        let a = self.0;
        let mut b = rhs.0;
        self.0 = 0;
        let mut i: u8 = 0;
        while i < 8
            invariant
                i <= 8,
                self.0 == mul_acc(a, rhs.0, i as nat),
                b == xtime_pow(rhs.0, i as nat),
            decreases 8 - i,
        {
            let low = (a >> i) & 1u8;
            assert(low == 0u8 || low == 1u8) by (bit_vector)
                requires
                    low == (a >> i) & 1u8,
            ;
            let bit_clear = ct_eq_u8(low, 0);
            self.0 = ct_select_u8(self.0, self.0 ^ b, 1 - bit_clear);
            let high_clear = ct_eq_u8(b & 0x80u8, 0);
            let shifted = b << 1u8;
            b = ct_select_u8(shifted ^ 0x1bu8, shifted, high_clear);
            i = i + 1;
        }
    }

    /// The product of two elements.
    pub fn mul(self, rhs: GF256) -> (r: GF256)
        ensures
            r.0 == gf_mul(self.0, rhs.0),
    {
        let mut result = self;
        result.mul_assign(rhs);
        result
    }

    /// Squares in place.
    pub fn square(&mut self)
        ensures
            final(self).0 == gf_square(old(self).0),
    {
        let v = *self;
        self.mul_assign(v);
    }

    /// The multiplicative inverse `self^254`, by six rounds of
    /// square-then-multiply and a final squaring; zero for zero.
    pub fn inverse(&self) -> (r: Option<GF256>)
        ensures
            r == Some(GF256(gf_inv(self.0))),
            self.0 != 0 ==> gf_mul(gf_inv(self.0), self.0) == 1,
    {
        let mut res = *self;
        let mut j: u8 = 0;
        while j < 6
            invariant
                j <= 6,
                res.0 == inv_steps(self.0, j as nat),
            decreases 6 - j,
        {
            res.square();
            res.mul_assign(*self);
            j = j + 1;
        }
        res.square();
        let is_zero = ct_eq_u8(self.0, 0);
        res = GF256(ct_select_u8(res.0, 0, is_zero));
        proof {
            if self.0 != 0 {
                lemma_inverse(self.0);
            }
        }
        Some(res)
    }

    /// Divides in place by a nonzero element.
    pub fn div_assign(&mut self, rhs: GF256)
        requires
            rhs.0 != 0,
        ensures
            final(self).0 == gf_mul(old(self).0, gf_inv(rhs.0)),
    {
        let inv = rhs.inverse();
        match inv {
            Some(v) => self.mul_assign(v),
            None => {},
        }
    }

    /// Division by a nonzero element: multiplication by its inverse.
    pub fn div(self, rhs: GF256) -> (r: GF256)
        requires
            rhs.0 != 0,
        ensures
            r.0 == gf_mul(self.0, gf_inv(rhs.0)),
            gf_mul(r.0, rhs.0) == self.0,
    {
        let mut result = self;
        result.div_assign(rhs);
        proof {
            lemma_mul_associative(self.0, gf_inv(rhs.0), rhs.0);
            lemma_inverse(rhs.0);
            lemma_identities(self.0);
        }
        result
    }

    /// `self` raised to `elem`, by eight square-then-conditionally-multiply
    /// steps over the exponent's bits from the most significant down.
    pub fn pow(self, elem: u8) -> (r: GF256)
        ensures
            r.0 == gf_pow(self.0, elem as nat),
    {
        let mut res = GF256::one();
        let mut i: u8 = 0;
        proof {
            assert((elem as u16) >> 8u16 == 0u16) by (bit_vector);
        }
        while i < 8
            invariant
                i <= 8,
                res.0 == gf_pow(self.0, ((elem as u16) >> ((8 - i) as u16)) as nat),
            decreases 8 - i,
        {
            let low = (elem >> ((7 - i) as u8)) & 1u8;
            let ghost prefix = (elem as u16) >> ((8 - i) as u16);
            let ghost next = (elem as u16) >> ((7 - i) as u16);
            assert(next == 2 * prefix + low as u16 && (low == 0u8 || low == 1u8)) by (bit_vector)
                requires
                    i < 8,
                    prefix == (elem as u16) >> ((8 - i) as u16),
                    next == (elem as u16) >> ((7 - i) as u16),
                    low == (elem >> ((7 - i) as u8)) & 1u8,
            ;
            res.square();
            let mut tmp = res;
            tmp.mul_assign(self);
            res = GF256(ct_select_u8(res.0, tmp.0, low));
            assert(next as nat / 2 == prefix as nat && next as nat % 2 == low as nat);
            proof {
                if next == 0 {
                    lemma_identities(1u8);
                }
                assert(gf_pow(self.0, next as nat) == (if low == 1 {
                    gf_mul(gf_square(gf_pow(self.0, prefix as nat)), self.0)
                } else {
                    gf_square(gf_pow(self.0, prefix as nat))
                }));
            }
            assert(((elem as u16) >> ((8 - (i + 1)) as u16)) == next);
            i = i + 1;
        }
        let exp_zero = ct_eq_u8(elem, 0);
        res = GF256(ct_select_u8(res.0, 1, exp_zero));
        proof {
            assert((elem as u16) >> 0u16 == elem as u16) by (bit_vector);
        }
        res
    }
}

impl GenRandom for GF256 {
    /// A uniformly random element.
    fn gen_random() -> GF256 {
        GF256(random_byte())
    }
}

impl Field for GF256 {
    fn zero() -> GF256 {
        GF256::zero()
    }

    fn one() -> GF256 {
        GF256::one()
    }

    fn is_zero(&self) -> bool {
        GF256::is_zero(self)
    }

    fn inverse(&self) -> Option<GF256> {
        GF256::inverse(self)
    }

    fn square(&mut self) {
        GF256::square(self)
    }
}

} // verus!
