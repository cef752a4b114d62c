//! Group elements of the curve cycle, modelled by discrete logarithms.
//!
//! All four groups in play (the two source groups and the target group of the
//! pairing on the primary curve, and the companion curve's group) are cyclic
//! of prime order, so every element is modelled by its discrete logarithm to a
//! fixed generator: an integer modulo `fr_ord()` for the primary curve's
//! groups, and modulo `fq_ord()` for the companion curve's group.  The trusted
//! wrappers state each outside group operation as modular arithmetic on these
//! models; the pairing is bilinear, so its model is a modular product.

use vstd::prelude::*;
use ark_ec::pairing::Pairing;
use ark_ec::CurveGroup;
use ark_ff::PrimeField;
use ark_std::UniformRand;
use ark_std::Zero;
use crate::field::{fadd, fmul, fneg, fr_ord, fq_ord, in_field, dot};
use crate::scalar::{Scalar, BaseScalar, FrRaw, FqRaw, views};

verus! {

/// Opaque holder for a point of the primary curve's first source group.
#[verifier::external_body]
pub(crate) struct G1Raw {
    pub(crate) inner: ark_bn254::G1Projective,
}

/// Opaque holder for a point of the primary curve's second source group.
#[verifier::external_body]
pub(crate) struct G2Raw {
    pub(crate) inner: ark_bn254::G2Projective,
}

/// Opaque holder for an element of the pairing's target group.
#[verifier::external_body]
pub(crate) struct GtRaw {
    pub(crate) inner: ark_ec::pairing::PairingOutput<ark_bn254::Bn254>,
}

/// Opaque holder for a point of the companion curve's group.
#[verifier::external_body]
pub(crate) struct GrRaw {
    pub(crate) inner: ark_grumpkin::Projective,
}

/// A point of the primary curve's first source group; the ghost `model` is
/// its discrete logarithm, in `[0, fr_ord())`.
pub struct G1Elem {
    pub(crate) raw: G1Raw,
    pub(crate) model: Ghost<int>,
}

/// A point of the primary curve's second source group; the ghost `model` is
/// its discrete logarithm, in `[0, fr_ord())`.
pub struct G2Elem {
    pub(crate) raw: G2Raw,
    pub(crate) model: Ghost<int>,
}

/// An element of the pairing's target group; the ghost `model` is its
/// discrete logarithm to the pairing of the two fixed generators.
pub struct GtElem {
    pub(crate) raw: GtRaw,
    pub(crate) model: Ghost<int>,
}

/// A point of the companion curve's group; the ghost `model` is its discrete
/// logarithm, in `[0, fq_ord())`.
pub struct GrElem {
    pub(crate) raw: GrRaw,
    pub(crate) model: Ghost<int>,
}

impl View for G1Elem {
    type V = int;

    closed spec fn view(&self) -> int {
        self.model@
    }
}

impl View for G2Elem {
    type V = int;

    closed spec fn view(&self) -> int {
        self.model@
    }
}

impl View for GtElem {
    type V = int;

    closed spec fn view(&self) -> int {
        self.model@
    }
}

impl View for GrElem {
    type V = int;

    closed spec fn view(&self) -> int {
        self.model@
    }
}

/// The representatives, in the primary curve's scalar field, of the affine
/// coordinates of the group element with discrete logarithm `d`; what the
/// transcript absorbs for that element.
pub uninterp spec fn sponge_coords_of(d: int) -> Seq<int>;

/// The canonical base-field representatives of the affine coordinates of the
/// group element with discrete logarithm `d`; what the companion circuit's
/// public input carries for that element.
pub uninterp spec fn base_coords_of(d: int) -> Seq<int>;

/// The scalar-field representatives of the affine coordinates of the
/// companion curve element with discrete logarithm `d`; what the transcript
/// absorbs for that element.
pub uninterp spec fn gr_sponge_coords_of(d: int) -> Seq<int>;

impl Clone for G1Elem {
    /// Relies on the group element being a plain value: cloning keeps it.
    #[verifier::external_body]
    fn clone(&self) -> (r: Self)
        ensures
            r@ == self@,
    {
        G1Elem { raw: G1Raw { inner: self.raw.inner }, model: Ghost(0int) }
    }
}

impl Clone for G2Elem {
    /// Relies on the group element being a plain value: cloning keeps it.
    #[verifier::external_body]
    fn clone(&self) -> (r: Self)
        ensures
            r@ == self@,
    {
        G2Elem { raw: G2Raw { inner: self.raw.inner }, model: Ghost(0int) }
    }
}

impl Clone for GrElem {
    /// Relies on the group element being a plain value: cloning keeps it.
    #[verifier::external_body]
    fn clone(&self) -> (r: Self)
        ensures
            r@ == self@,
    {
        GrElem { raw: GrRaw { inner: self.raw.inner }, model: Ghost(0int) }
    }
}

impl G1Elem {
    /// Relies on the outside library's identity element, whose discrete
    /// logarithm is zero.
    #[verifier::external_body]
    pub fn zero() -> (r: G1Elem)
        ensures
            r@ == 0,
    {
        G1Elem { raw: G1Raw { inner: ark_bn254::G1Projective::zero() }, model: Ghost(0int) }
    }

    /// Relies on the outside library's group addition: discrete logarithms
    /// add modulo the group order.
    #[verifier::external_body]
    pub fn add(&self, other: &G1Elem) -> (r: G1Elem)
        ensures
            r@ == fadd(fr_ord(), self@, other@),
    {
        G1Elem { raw: G1Raw { inner: self.raw.inner + other.raw.inner }, model: Ghost(0int) }
    }

    /// Relies on the outside library's group negation.
    #[verifier::external_body]
    pub fn neg(&self) -> (r: G1Elem)
        ensures
            r@ == fneg(fr_ord(), self@),
    {
        G1Elem { raw: G1Raw { inner: -self.raw.inner }, model: Ghost(0int) }
    }

    /// Relies on the outside library's scalar multiplication: the discrete
    /// logarithm is multiplied by the scalar, modulo the group order.
    #[verifier::external_body]
    pub fn mul(&self, s: &Scalar) -> (r: G1Elem)
        ensures
            r@ == fmul(fr_ord(), s@, self@),
    {
        G1Elem { raw: G1Raw { inner: self.raw.inner * s.raw.inner }, model: Ghost(0int) }
    }

    /// Relies on equality of group elements agreeing with equality of their
    /// discrete logarithms, the group being cyclic of prime order.
    #[verifier::external_body]
    pub fn eq(&self, other: &G1Elem) -> (r: bool)
        ensures
            r == (self@ == other@),
    {
        self.raw.inner == other.raw.inner
    }

    /// Relies on the outside library's uniform sampling returning some group
    /// element; nothing more is claimed of a random draw.
    #[verifier::external_body]
    pub fn rand() -> (r: G1Elem)
        ensures
            in_field(fr_ord(), r@),
    {
        G1Elem {
            raw: G1Raw { inner: ark_bn254::G1Projective::rand(&mut rand::thread_rng()) },
            model: Ghost(0int),
        }
    }

    /// Relies on the affine coordinates of a point being a function of the
    /// point alone, reduced here into the scalar field for the transcript.
    #[verifier::external_body]
    pub fn to_sponge_scalars(&self) -> (r: (Scalar, Scalar))
        ensures
            r.0@ == sponge_coords_of(self@)[0],
            r.1@ == sponge_coords_of(self@)[1],
    {
        let a = self.raw.inner.into_affine();
        let x = ark_bn254::Fr::from_le_bytes_mod_order(&ark_ff::BigInteger::to_bytes_le(&a.x.into_bigint()));
        let y = ark_bn254::Fr::from_le_bytes_mod_order(&ark_ff::BigInteger::to_bytes_le(&a.y.into_bigint()));
        (Scalar { raw: FrRaw { inner: x }, model: Ghost(0int) }, Scalar { raw: FrRaw { inner: y }, model: Ghost(0int) })
    }

    /// Relies on the affine coordinates of a point being a function of the
    /// point alone; they are base-field elements and are kept as such.
    #[verifier::external_body]
    pub fn to_base_coords(&self) -> (r: (BaseScalar, BaseScalar))
        ensures
            r.0@ == base_coords_of(self@)[0],
            r.1@ == base_coords_of(self@)[1],
    {
        let a = self.raw.inner.into_affine();
        (
            BaseScalar { raw: FqRaw { inner: a.x }, model: Ghost(0int) },
            BaseScalar { raw: FqRaw { inner: a.y }, model: Ghost(0int) },
        )
    }
}

impl G2Elem {
    /// Relies on the outside library's scalar multiplication in the second
    /// source group.
    #[verifier::external_body]
    pub fn mul(&self, s: &Scalar) -> (r: G2Elem)
        ensures
            r@ == fmul(fr_ord(), s@, self@),
    {
        G2Elem { raw: G2Raw { inner: self.raw.inner * s.raw.inner }, model: Ghost(0int) }
    }

    /// Relies on the outside library's uniform sampling returning some group
    /// element; nothing more is claimed of a random draw.
    #[verifier::external_body]
    pub fn rand() -> (r: G2Elem)
        ensures
            in_field(fr_ord(), r@),
    {
        G2Elem {
            raw: G2Raw { inner: ark_bn254::G2Projective::rand(&mut rand::thread_rng()) },
            model: Ghost(0int),
        }
    }
}

impl GtElem {
    /// Relies on the outside library's identity element of the target group.
    #[verifier::external_body]
    pub fn zero() -> (r: GtElem)
        ensures
            r@ == 0,
    {
        GtElem {
            raw: GtRaw { inner: ark_ec::pairing::PairingOutput::<ark_bn254::Bn254>::zero() },
            model: Ghost(0int),
        }
    }

    /// Relies on the outside library's target-group operation: discrete
    /// logarithms add modulo the group order.
    #[verifier::external_body]
    pub fn add(&self, other: &GtElem) -> (r: GtElem)
        ensures
            r@ == fadd(fr_ord(), self@, other@),
    {
        GtElem { raw: GtRaw { inner: self.raw.inner + other.raw.inner }, model: Ghost(0int) }
    }

    /// Relies on equality in the target group agreeing with equality of
    /// discrete logarithms, the pairing's image being cyclic of prime order.
    #[verifier::external_body]
    pub fn eq(&self, other: &GtElem) -> (r: bool)
        ensures
            r == (self@ == other@),
    {
        self.raw.inner == other.raw.inner
    }
}

/// Relies on the outside library's pairing being bilinear and non-degenerate:
/// the discrete logarithm of the output is the product of the inputs' ones.
#[verifier::external_body]
pub fn pairing(a: &G1Elem, b: &G2Elem) -> (r: GtElem)
    ensures
        r@ == fmul(fr_ord(), a@, b@),
{
    GtElem {
        raw: GtRaw {
            inner: ark_bn254::Bn254::pairing(
                a.raw.inner.into_affine(),
                b.raw.inner.into_affine(),
            ),
        },
        model: Ghost(0int),
    }
}

impl GrElem {
    /// Relies on the outside library's identity element of the companion
    /// curve's group.
    #[verifier::external_body]
    pub fn zero() -> (r: GrElem)
        ensures
            r@ == 0,
    {
        GrElem { raw: GrRaw { inner: ark_grumpkin::Projective::zero() }, model: Ghost(0int) }
    }

    /// Relies on the outside library's group addition on the companion curve.
    #[verifier::external_body]
    pub fn add(&self, other: &GrElem) -> (r: GrElem)
        ensures
            r@ == fadd(fq_ord(), self@, other@),
    {
        GrElem { raw: GrRaw { inner: self.raw.inner + other.raw.inner }, model: Ghost(0int) }
    }

    /// Relies on the outside library's scalar multiplication on the companion
    /// curve, whose scalar field is the primary curve's base field.
    #[verifier::external_body]
    pub fn mul(&self, s: &BaseScalar) -> (r: GrElem)
        ensures
            r@ == fmul(fq_ord(), s@, self@),
    {
        GrElem { raw: GrRaw { inner: self.raw.inner * s.raw.inner }, model: Ghost(0int) }
    }

    /// Relies on equality of group elements agreeing with equality of their
    /// discrete logarithms, the group being cyclic of prime order.
    #[verifier::external_body]
    pub fn eq(&self, other: &GrElem) -> (r: bool)
        ensures
            r == (self@ == other@),
    {
        self.raw.inner == other.raw.inner
    }

    /// Relies on the outside library's uniform sampling returning some group
    /// element; nothing more is claimed of a random draw.
    #[verifier::external_body]
    pub fn rand() -> (r: GrElem)
        ensures
            in_field(fq_ord(), r@),
    {
        GrElem {
            raw: GrRaw { inner: ark_grumpkin::Projective::rand(&mut rand::thread_rng()) },
            model: Ghost(0int),
        }
    }

    /// Relies on the affine coordinates of a companion point being a
    /// function of the point alone; they are elements of the primary
    /// curve's scalar field.
    #[verifier::external_body]
    pub fn to_sponge_scalars(&self) -> (r: (Scalar, Scalar))
        ensures
            r.0@ == gr_sponge_coords_of(self@)[0],
            r.1@ == gr_sponge_coords_of(self@)[1],
    {
        let a = self.raw.inner.into_affine();
        (
            Scalar { raw: FrRaw { inner: a.x }, model: Ghost(0int) },
            Scalar { raw: FrRaw { inner: a.y }, model: Ghost(0int) },
        )
    }
}

/// The dot product of two model sequences reduced by the group order: the
/// model of a multi-scalar multiplication.
pub open spec fn dot_mod(m: int, a: Seq<int>, b: Seq<int>) -> int {
    dot(a, b) % m
}

/// Appending one element to each of two sequences extends their dot product
/// by the product of the new elements.
pub proof fn lemma_dot_push(a: Seq<int>, b: Seq<int>, x: int, y: int)
    requires
        a.len() == b.len(),
    ensures
        dot(a.push(x), b.push(y)) == dot(a, b) + x * y,
{
    assert(a.push(x).drop_last() =~= a);
    assert(b.push(y).drop_last() =~= b);
}

/// Adding two reduced values and reducing again agrees with reducing the sum.
pub proof fn lemma_mod_add_pair(m: int, a: int, b: int)
    requires
        m > 0,
    ensures
        fadd(m, a % m, b % m) == (a + b) % m,
{
    vstd::arithmetic::div_mod::lemma_add_mod_noop(a, b, m);
}

/// Multi-scalar multiplication in the primary curve's first source group,
/// written as a loop over the trusted single-point operations.
pub fn g1_msm(bases: &Vec<G1Elem>, scalars: &Vec<Scalar>) -> (r: G1Elem)
    requires
        bases@.len() == scalars@.len(),
    ensures
        r@ == dot_mod(fr_ord(), views(bases@), views(scalars@)),
{
    let mut acc = G1Elem::zero();
    let mut i: usize = 0;
    proof {
        assert(views(bases@).subrange(0, 0) =~= Seq::<int>::empty());
        assert(views(scalars@).subrange(0, 0) =~= Seq::<int>::empty());
        vstd::arithmetic::div_mod::lemma_small_mod(0, fr_ord() as nat);
    }
    while i < bases.len()
        invariant
            i <= bases@.len(),
            bases@.len() == scalars@.len(),
            acc@ == dot(views(bases@).subrange(0, i as int), views(scalars@).subrange(0, i as int))
                % fr_ord(),
        decreases bases@.len() - i,
    {
        let term = bases[i].mul(&scalars[i]);
        let next = acc.add(&term);
        proof {
            let vb = views(bases@);
            let vs = views(scalars@);
            assert(vb.subrange(0, i + 1) =~= vb.subrange(0, i as int).push(bases@[i as int]@));
            assert(vs.subrange(0, i + 1) =~= vs.subrange(0, i as int).push(scalars@[i as int]@));
            lemma_dot_push(vb.subrange(0, i as int), vs.subrange(0, i as int), bases@[i as int]@,
                scalars@[i as int]@);
            lemma_mod_add_pair(fr_ord(), dot(vb.subrange(0, i as int), vs.subrange(0, i as int)),
                scalars@[i as int]@ * bases@[i as int]@);
        }
        acc = next;
        i = i + 1;
    }
    proof {
        assert(views(bases@).subrange(0, bases@.len() as int) =~= views(bases@));
        assert(views(scalars@).subrange(0, scalars@.len() as int) =~= views(scalars@));
    }
    acc
}

/// Product of pairings of corresponding entries, the multi-pairing; its model
/// is the dot product of the two sides' discrete logarithms.
pub fn multi_pairing(gs: &Vec<G1Elem>, hs: &Vec<G2Elem>) -> (r: GtElem)
    requires
        gs@.len() == hs@.len(),
    ensures
        r@ == dot_mod(fr_ord(), views(gs@), views(hs@)),
{
    let mut acc = GtElem::zero();
    let mut i: usize = 0;
    proof {
        assert(views(gs@).subrange(0, 0) =~= Seq::<int>::empty());
        assert(views(hs@).subrange(0, 0) =~= Seq::<int>::empty());
        vstd::arithmetic::div_mod::lemma_small_mod(0, fr_ord() as nat);
    }
    while i < gs.len()
        invariant
            i <= gs@.len(),
            gs@.len() == hs@.len(),
            acc@ == dot(views(gs@).subrange(0, i as int), views(hs@).subrange(0, i as int))
                % fr_ord(),
        decreases gs@.len() - i,
    {
        let term = pairing(&gs[i], &hs[i]);
        let next = acc.add(&term);
        proof {
            let vg = views(gs@);
            let vh = views(hs@);
            assert(vg.subrange(0, i + 1) =~= vg.subrange(0, i as int).push(gs@[i as int]@));
            assert(vh.subrange(0, i + 1) =~= vh.subrange(0, i as int).push(hs@[i as int]@));
            lemma_dot_push(vg.subrange(0, i as int), vh.subrange(0, i as int), gs@[i as int]@,
                hs@[i as int]@);
            lemma_mod_add_pair(fr_ord(), dot(vg.subrange(0, i as int), vh.subrange(0, i as int)),
                gs@[i as int]@ * hs@[i as int]@);
        }
        acc = next;
        i = i + 1;
    }
    proof {
        assert(views(gs@).subrange(0, gs@.len() as int) =~= views(gs@));
        assert(views(hs@).subrange(0, hs@.len() as int) =~= views(hs@));
    }
    acc
}

/// Multi-scalar multiplication on the companion curve.
pub fn gr_msm(bases: &Vec<GrElem>, scalars: &Vec<BaseScalar>) -> (r: GrElem)
    requires
        bases@.len() == scalars@.len(),
    ensures
        r@ == dot_mod(fq_ord(), views(bases@), views(scalars@)),
{
    let mut acc = GrElem::zero();
    let mut i: usize = 0;
    proof {
        assert(views(bases@).subrange(0, 0) =~= Seq::<int>::empty());
        assert(views(scalars@).subrange(0, 0) =~= Seq::<int>::empty());
        vstd::arithmetic::div_mod::lemma_small_mod(0, fq_ord() as nat);
    }
    while i < bases.len()
        invariant
            i <= bases@.len(),
            bases@.len() == scalars@.len(),
            acc@ == dot(views(bases@).subrange(0, i as int), views(scalars@).subrange(0, i as int))
                % fq_ord(),
        decreases bases@.len() - i,
    {
        let term = bases[i].mul(&scalars[i]);
        let next = acc.add(&term);
        proof {
            let vb = views(bases@);
            let vs = views(scalars@);
            assert(vb.subrange(0, i + 1) =~= vb.subrange(0, i as int).push(bases@[i as int]@));
            assert(vs.subrange(0, i + 1) =~= vs.subrange(0, i as int).push(scalars@[i as int]@));
            lemma_dot_push(vb.subrange(0, i as int), vs.subrange(0, i as int), bases@[i as int]@,
                scalars@[i as int]@);
            lemma_mod_add_pair(fq_ord(), dot(vb.subrange(0, i as int), vs.subrange(0, i as int)),
                scalars@[i as int]@ * bases@[i as int]@);
        }
        acc = next;
        i = i + 1;
    }
    proof {
        assert(views(bases@).subrange(0, bases@.len() as int) =~= views(bases@));
        assert(views(scalars@).subrange(0, scalars@.len() as int) =~= views(scalars@));
    }
    acc
}

} // verus!
