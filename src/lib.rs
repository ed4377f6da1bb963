//! Threshold secret sharing over the finite field GF(2^8).
//!
//! A secret byte string is split into `n` shares of which any `k` recover it.

use vstd::prelude::*;

pub mod ff_gf256;
pub mod lagrange_interpolation;
pub mod polynomial;
pub mod shamir_secret;

verus! {

/// A source of uniformly random values of a type.
pub trait GenRandom: Sized {
    fn gen_random() -> Self;
}

/// The operations that an element of a finite field offers.
pub trait Field: Sized + Copy {
    /// The additive identity.
    fn zero() -> Self;

    /// The multiplicative identity.
    fn one() -> Self;

    /// Whether this element is the additive identity.
    fn is_zero(&self) -> bool;

    /// The multiplicative inverse of this element.
    fn inverse(&self) -> Option<Self>;

    /// Squares this element in place.
    fn square(&mut self);
}

} // verus!
