//! Field elements of the two fields of the curve cycle, each carried together
//! with the ghost integer that models it (its canonical representative).
//!
//! The executable values are opaque field elements of an outside arithmetic
//! library; every operation on them goes through a trusted wrapper whose
//! contract states the corresponding modular arithmetic on the models.

use vstd::prelude::*;
use ark_ff::Field;
use ark_ff::PrimeField;
use ark_std::UniformRand;
use crate::field::{fadd, fsub, fmul, fr_ord, fq_ord, in_field};

verus! {

/// Opaque holder for an element of the outside library's scalar-field type.
#[verifier::external_body]
pub(crate) struct FrRaw {
    pub(crate) inner: ark_bn254::Fr,
}

/// Opaque holder for an element of the outside library's base-field type.
#[verifier::external_body]
pub(crate) struct FqRaw {
    pub(crate) inner: ark_bn254::Fq,
}

/// An element of the primary curve's scalar field.  The ghost `model` is its
/// canonical integer representative, in `[0, fr_ord())`.
pub struct Scalar {
    pub(crate) raw: FrRaw,
    pub(crate) model: Ghost<int>,
}

/// An element of the primary curve's base field, which is also the companion
/// curve's scalar field.  The ghost `model` is its canonical integer
/// representative, in `[0, fq_ord())`.
pub struct BaseScalar {
    pub(crate) raw: FqRaw,
    pub(crate) model: Ghost<int>,
}

impl View for Scalar {
    type V = int;

    closed spec fn view(&self) -> int {
        self.model@
    }
}

impl View for BaseScalar {
    type V = int;

    closed spec fn view(&self) -> int {
        self.model@
    }
}

/// The models of a sequence of field elements (or of any values viewed as
/// integers), in the same order.
pub open spec fn views<T: View<V = int>>(s: Seq<T>) -> Seq<int> {
    s.map_values(|t: T| t@)
}

impl Clone for Scalar {
    /// Relies on the field element being a plain value: cloning keeps it.
    #[verifier::external_body]
    fn clone(&self) -> (r: Self)
        ensures
            r@ == self@,
    {
        Scalar { raw: FrRaw { inner: self.raw.inner }, model: Ghost(0int) }
    }
}

impl Clone for BaseScalar {
    /// Relies on the field element being a plain value: cloning keeps it.
    #[verifier::external_body]
    fn clone(&self) -> (r: Self)
        ensures
            r@ == self@,
    {
        BaseScalar { raw: FqRaw { inner: self.raw.inner }, model: Ghost(0int) }
    }
}

impl Scalar {
    /// Relies on the outside field library reducing a machine integer into
    /// the field.
    #[verifier::external_body]
    pub fn from_u64(n: u64) -> (r: Scalar)
        ensures
            r@ == (n as int) % fr_ord(),
    {
        Scalar { raw: FrRaw { inner: ark_bn254::Fr::from(n) }, model: Ghost(0int) }
    }

    /// Relies on the outside field library's addition being addition modulo
    /// the field order on canonical representatives.
    #[verifier::external_body]
    pub fn add(&self, other: &Scalar) -> (r: Scalar)
        ensures
            r@ == fadd(fr_ord(), self@, other@),
    {
        Scalar { raw: FrRaw { inner: self.raw.inner + other.raw.inner }, model: Ghost(0int) }
    }

    /// Relies on the outside field library's subtraction being subtraction
    /// modulo the field order on canonical representatives.
    #[verifier::external_body]
    pub fn sub(&self, other: &Scalar) -> (r: Scalar)
        ensures
            r@ == fsub(fr_ord(), self@, other@),
    {
        Scalar { raw: FrRaw { inner: self.raw.inner - other.raw.inner }, model: Ghost(0int) }
    }

    /// Relies on the outside field library's multiplication being
    /// multiplication modulo the field order on canonical representatives.
    #[verifier::external_body]
    pub fn mul(&self, other: &Scalar) -> (r: Scalar)
        ensures
            r@ == fmul(fr_ord(), self@, other@),
    {
        Scalar { raw: FrRaw { inner: self.raw.inner * other.raw.inner }, model: Ghost(0int) }
    }

    /// Relies on the outside field library's inversion: on a non-zero element
    /// it returns the multiplicative inverse.
    #[verifier::external_body]
    pub fn inverse(&self) -> (r: Scalar)
        requires
            self@ != 0,
        ensures
            fmul(fr_ord(), self@, r@) == 1,
            in_field(fr_ord(), r@),
    {
        Scalar { raw: FrRaw { inner: self.raw.inner.inverse().unwrap() }, model: Ghost(0int) }
    }

    /// Relies on equality of field elements agreeing with equality of their
    /// canonical representatives.
    #[verifier::external_body]
    pub fn eq(&self, other: &Scalar) -> (r: bool)
        ensures
            r == (self@ == other@),
    {
        self.raw.inner == other.raw.inner
    }

    /// Relies on the outside library's uniform sampling returning some field
    /// element; nothing more is claimed of a random draw.
    #[verifier::external_body]
    pub fn rand() -> (r: Scalar)
        ensures
            in_field(fr_ord(), r@),
    {
        Scalar { raw: FrRaw { inner: ark_bn254::Fr::rand(&mut rand::thread_rng()) }, model: Ghost(0int) }
    }

    /// Relies on the conversion through the canonical big integer: the scalar
    /// field's order is below the base field's, so the representative is kept.
    #[verifier::external_body]
    pub fn to_base(&self) -> (r: BaseScalar)
        ensures
            r@ == self@,
            in_field(fq_ord(), r@),
    {
        BaseScalar {
            raw: FqRaw { inner: ark_bn254::Fq::from_bigint(self.raw.inner.into_bigint()).unwrap() },
            model: Ghost(0int),
        }
    }

    /// Relies on the outside library's decimal formatting of the canonical
    /// representative.
    #[verifier::external_body]
    pub fn to_decimal_string(&self) -> String {
        format!("{}", self.raw.inner)
    }

    pub fn zero() -> (r: Scalar)
        ensures
            r@ == 0,
    {
        let r = Scalar::from_u64(0);
        proof {
            vstd::arithmetic::div_mod::lemma_small_mod(0, fr_ord() as nat);
        }
        r
    }

    pub fn one() -> (r: Scalar)
        ensures
            r@ == 1,
    {
        let r = Scalar::from_u64(1);
        proof {
            vstd::arithmetic::div_mod::lemma_small_mod(1, fr_ord() as nat);
        }
        r
    }
}

impl BaseScalar {
    /// Relies on the outside field library reducing a machine integer into
    /// the field.
    #[verifier::external_body]
    pub fn from_u64(n: u64) -> (r: BaseScalar)
        ensures
            r@ == (n as int) % fq_ord(),
    {
        BaseScalar { raw: FqRaw { inner: ark_bn254::Fq::from(n) }, model: Ghost(0int) }
    }

    /// Relies on the outside field library's addition being addition modulo
    /// the field order on canonical representatives.
    #[verifier::external_body]
    pub fn add(&self, other: &BaseScalar) -> (r: BaseScalar)
        ensures
            r@ == fadd(fq_ord(), self@, other@),
    {
        BaseScalar { raw: FqRaw { inner: self.raw.inner + other.raw.inner }, model: Ghost(0int) }
    }

    /// Relies on the outside field library's subtraction being subtraction
    /// modulo the field order on canonical representatives.
    #[verifier::external_body]
    pub fn sub(&self, other: &BaseScalar) -> (r: BaseScalar)
        ensures
            r@ == fsub(fq_ord(), self@, other@),
    {
        BaseScalar { raw: FqRaw { inner: self.raw.inner - other.raw.inner }, model: Ghost(0int) }
    }

    /// Relies on the outside field library's multiplication being
    /// multiplication modulo the field order on canonical representatives.
    #[verifier::external_body]
    pub fn mul(&self, other: &BaseScalar) -> (r: BaseScalar)
        ensures
            r@ == fmul(fq_ord(), self@, other@),
    {
        BaseScalar { raw: FqRaw { inner: self.raw.inner * other.raw.inner }, model: Ghost(0int) }
    }

    /// Relies on equality of field elements agreeing with equality of their
    /// canonical representatives.
    #[verifier::external_body]
    pub fn eq(&self, other: &BaseScalar) -> (r: bool)
        ensures
            r == (self@ == other@),
    {
        self.raw.inner == other.raw.inner
    }

    pub fn zero() -> (r: BaseScalar)
        ensures
            r@ == 0,
    {
        let r = BaseScalar::from_u64(0);
        proof {
            vstd::arithmetic::div_mod::lemma_small_mod(0, fq_ord() as nat);
        }
        r
    }

    pub fn one() -> (r: BaseScalar)
        ensures
            r@ == 1,
    {
        let r = BaseScalar::from_u64(1);
        proof {
            vstd::arithmetic::div_mod::lemma_small_mod(1, fq_ord() as nat);
        }
        r
    }
}

} // verus!
