//! The accumulator folding engine.
//!
//! An accumulator pairs a public instance (commitment `C`, auxiliary
//! commitment `T`, error commitment `E`, evaluation point halves `x`, `y`
//! and claimed value `z`) with the private witness (row commitments, the
//! equality trees of `x` and `y`, and the partially evaluated polynomial).
//! A fresh accumulator is converted from a commitment-engine opening proof;
//! two accumulators are folded under a transcript challenge; `decide`
//! re-derives, from the witness, the algebraic identities that certify the
//! instance.

use vstd::prelude::*;
use vstd::arithmetic::power2::pow2;
use crate::field::{fadd, fsub, fmul, fneg, fr_ord, in_field, dot};
use crate::scalar::{Scalar, views};
use crate::group::{G1Elem, g1_msm, multi_pairing, pairing, dot_mod};
use crate::eq_tree::{EqTree, rev, diff_levels, diff_node, node_at, leaves_of,
    lemma_difference_is_diff_levels, lemma_diff_levels_len, lemma_diff_levels_index, index_level};
use crate::polynomial::MultilinearPolynomial;
use crate::pcs::{PolynomialCommitmentSRS, PCSCommitment, PCSOpeningProof, pairing_check};
use crate::transcript::{Transcript, hist_after_absorb, hist_after_challenge, point_coords,
    sponge_out};
use crate::utils::inner_product;

verus! {

/// Public parameters of the folding engine: generator vectors sized to the
/// commitment matrix, one extra generator, and the commitment engine's own
/// parameters.
pub struct AccSRS {
    /// vector of size `2 * degree_x - 1`
    pub k_x: Vec<G1Elem>,
    /// vector of size `2 * degree_y - 1`
    pub k_y: Vec<G1Elem>,
    pub k_prime: G1Elem,
    pub pc_srs: PolynomialCommitmentSRS,
}

/// The public claim carried by an accumulator.
pub struct AccumulatorInstance {
    pub C: G1Elem,
    pub T: G1Elem,
    pub E: G1Elem,
    /// vector of length `log2(degree_x)`
    pub x: Vec<Scalar>,
    /// vector of length `log2(degree_y)`
    pub y: Vec<Scalar>,
    /// the claimed evaluation
    pub z: Scalar,
}

/// The private evidence carried by an accumulator.
pub struct AccumulatorWitness {
    pub vec_D: Vec<G1Elem>,
    pub tree_x: EqTree,
    pub tree_y: EqTree,
    pub f_star_poly: MultilinearPolynomial,
}

/// An instance together with its witness.
pub struct Accumulator {
    pub instance: AccumulatorInstance,
    pub witness: AccumulatorWitness,
}

impl AccSRS {
    /// The generator vectors match the commitment matrix dimensions.
    pub open spec fn wf(&self) -> bool {
        &&& self.pc_srs.wf()
        &&& self.k_x@.len() == 2 * self.pc_srs.degree_x - 1
        &&& self.k_y@.len() == 2 * self.pc_srs.degree_y - 1
    }
}

impl AccumulatorInstance {
    /// The evaluation point halves have the lengths the parameters dictate.
    pub open spec fn wf(&self, srs: &AccSRS) -> bool {
        &&& self.x@.len() == srs.pc_srs.x_len@
        &&& self.y@.len() == srs.pc_srs.y_len@
    }

    /// The field elements a transcript absorbs for this instance: the
    /// coordinates of the three commitments, then `x`, `y` and `z`.
    pub open spec fn encoding(&self) -> Seq<int> {
        point_coords(self.C@) + point_coords(self.T@) + point_coords(self.E@) + views(self.x@)
            + views(self.y@) + seq![self.z@]
    }

    /// Returns the field elements a transcript absorbs for this instance.
    pub fn to_sponge_field_elements(&self) -> (r: Vec<Scalar>)
        ensures
            views(r@) == self.encoding(),
    {
        let mut out: Vec<Scalar> = Vec::new();
        let (cx, cy) = self.C.to_sponge_scalars();
        out.push(cx);
        out.push(cy);
        let (tx, ty) = self.T.to_sponge_scalars();
        out.push(tx);
        out.push(ty);
        let (ex, ey) = self.E.to_sponge_scalars();
        out.push(ex);
        out.push(ey);
        let mut k: usize = 0;
        while k < self.x.len()
            invariant
                k <= self.x@.len(),
                out@.len() == 6 + k,
                views(out@).subrange(0, 6) == point_coords(self.C@) + point_coords(self.T@)
                    + point_coords(self.E@),
                views(out@).subrange(6, out@.len() as int) == views(self.x@).subrange(0, k as int),
            decreases self.x@.len() - k,
        {
            out.push(self.x[k].clone());
            proof {
                assert(views(out@).subrange(0, 6) =~= point_coords(self.C@) + point_coords(
                    self.T@) + point_coords(self.E@));
                assert(views(out@).subrange(6, out@.len() as int) =~= views(self.x@).subrange(0, k
                    + 1));
            }
            k = k + 1;
        }
        let ghost head = views(out@);
        let mut k2: usize = 0;
        while k2 < self.y.len()
            invariant
                k2 <= self.y@.len(),
                out@.len() == head.len() + k2,
                views(out@).subrange(0, head.len() as int) == head,
                views(out@).subrange(head.len() as int, out@.len() as int) == views(
                    self.y@).subrange(0, k2 as int),
            decreases self.y@.len() - k2,
        {
            out.push(self.y[k2].clone());
            proof {
                assert(views(out@).subrange(0, head.len() as int) =~= head);
                assert(views(out@).subrange(head.len() as int, out@.len() as int) =~= views(
                    self.y@).subrange(0, k2 + 1));
            }
            k2 = k2 + 1;
        }
        out.push(self.z.clone());
        proof {
            assert(views(self.x@).subrange(0, self.x@.len() as int) =~= views(self.x@));
            assert(views(self.y@).subrange(0, self.y@.len() as int) =~= views(self.y@));
            assert(views(out@) =~= self.encoding());
        }
        out
    }
}

impl AccumulatorWitness {
    /// The trees, the row commitments and the partial polynomial all have
    /// the dimensions the parameters dictate.
    pub open spec fn wf(&self, srs: &AccSRS) -> bool {
        &&& self.tree_x.wf()
        &&& self.tree_y.wf()
        &&& self.tree_x.depth == srs.pc_srs.x_len@
        &&& self.tree_y.depth == srs.pc_srs.y_len@
        &&& self.vec_D@.len() == srs.pc_srs.degree_x
        &&& self.f_star_poly.wf()
        &&& self.f_star_poly.num_variables == srs.pc_srs.y_len@
    }
}

impl Accumulator {
    /// Both halves are well formed for the same parameters.
    pub open spec fn wf(&self, srs: &AccSRS) -> bool {
        &&& self.instance.wf(srs)
        &&& self.witness.wf(srs)
    }
}

/// The value `T` must carry for a witness: the generator-weighted sum of
/// both trees' nodes.
pub open spec fn t_spec(srs: &AccSRS, w: &AccumulatorWitness) -> int {
    fadd(
        fr_ord(),
        dot_mod(fr_ord(), views(srs.k_x@), views(w.tree_x.nodes@)),
        dot_mod(fr_ord(), views(srs.k_y@), views(w.tree_y.nodes@)),
    )
}

/// The first error component over plain models: the generator-weighted sum
/// of both trees' residuals against the instance point.
pub open spec fn dec1_raw(
    kx: Seq<int>,
    ky: Seq<int>,
    tx: Seq<int>,
    ty: Seq<int>,
    xd: nat,
    yd: nat,
    x: Seq<int>,
    y: Seq<int>,
) -> int {
    fadd(
        fr_ord(),
        dot_mod(fr_ord(), kx, diff_levels(tx, rev(x), xd)),
        dot_mod(fr_ord(), ky, diff_levels(ty, rev(y), yd)),
    )
}

/// The second error component over plain models: the claimed-value residual
/// times the extra generator.
pub open spec fn dec2_raw(kp: int, ty: Seq<int>, yd: nat, z: int, f: Seq<int>) -> int {
    fmul(fr_ord(), fsub(fr_ord(), dot_mod(fr_ord(), f, leaves_of(ty, yd)), z), kp)
}

/// The third error component over plain models: the partial polynomial's
/// commitment minus the equality-weighted row commitments.
pub open spec fn dec3_raw(vec_h: Seq<int>, d: Seq<int>, tx: Seq<int>, xd: nat, f: Seq<int>) -> int {
    fadd(
        fr_ord(),
        dot_mod(fr_ord(), vec_h, f),
        fneg(fr_ord(), dot_mod(fr_ord(), d, leaves_of(tx, xd))),
    )
}

/// The full error term over plain models.
pub open spec fn e_raw(
    kx: Seq<int>,
    ky: Seq<int>,
    kp: int,
    vec_h: Seq<int>,
    d: Seq<int>,
    tx: Seq<int>,
    ty: Seq<int>,
    xd: nat,
    yd: nat,
    x: Seq<int>,
    y: Seq<int>,
    z: int,
    f: Seq<int>,
) -> int {
    fadd(
        fr_ord(),
        fadd(fr_ord(), dec1_raw(kx, ky, tx, ty, xd, yd, x, y), dec2_raw(kp, ty, yd, z, f)),
        dec3_raw(vec_h, d, tx, xd, f),
    )
}

/// The first error component of an accumulator.
pub open spec fn dec1_spec(srs: &AccSRS, acc: &Accumulator) -> int {
    dec1_raw(
        views(srs.k_x@),
        views(srs.k_y@),
        views(acc.witness.tree_x.nodes@),
        views(acc.witness.tree_y.nodes@),
        acc.witness.tree_x.depth as nat,
        acc.witness.tree_y.depth as nat,
        views(acc.instance.x@),
        views(acc.instance.y@),
    )
}

/// The second error component of an accumulator.
pub open spec fn dec2_spec(srs: &AccSRS, acc: &Accumulator) -> int {
    dec2_raw(
        srs.k_prime@,
        views(acc.witness.tree_y.nodes@),
        acc.witness.tree_y.depth as nat,
        acc.instance.z@,
        acc.witness.f_star_poly.table(),
    )
}

/// The third error component of an accumulator.
pub open spec fn dec3_spec(srs: &AccSRS, acc: &Accumulator) -> int {
    dec3_raw(
        views(srs.pc_srs.vec_H@),
        views(acc.witness.vec_D@),
        views(acc.witness.tree_x.nodes@),
        acc.witness.tree_x.depth as nat,
        acc.witness.f_star_poly.table(),
    )
}

/// The full error term of an accumulator.
pub open spec fn e_spec(srs: &AccSRS, acc: &Accumulator) -> int {
    fadd(
        fr_ord(),
        fadd(fr_ord(), dec1_spec(srs, acc), dec2_spec(srs, acc)),
        dec3_spec(srs, acc),
    )
}

impl Accumulator {
    /// Derives the folding parameters from the commitment engine's: fresh
    /// generator vectors of twice the matrix dimensions (less one), and one
    /// extra generator.
    pub fn setup(pc_srs: PolynomialCommitmentSRS) -> (r: AccSRS)
        requires
            pc_srs.wf(),
        ensures
            r.wf(),
            r.pc_srs == pc_srs,
    {
        proof {
            vstd::arithmetic::power2::lemma_pow2_strictly_increases(pc_srs.x_len@, 31);
            vstd::arithmetic::power2::lemma_pow2_strictly_increases(pc_srs.y_len@, 31);
            vstd::arithmetic::power2::lemma2_to64();
            vstd::arithmetic::power2::lemma2_to64_rest();
        }
        let nx = 2 * pc_srs.degree_x - 1;
        let ny = 2 * pc_srs.degree_y - 1;
        let mut k_x: Vec<G1Elem> = Vec::new();
        let mut k: usize = 0;
        while k < nx
            invariant
                k <= nx,
                k_x@.len() == k,
            decreases nx - k,
        {
            k_x.push(G1Elem::rand());
            k = k + 1;
        }
        let mut k_y: Vec<G1Elem> = Vec::new();
        let mut k2: usize = 0;
        while k2 < ny
            invariant
                k2 <= ny,
                k_y@.len() == k2,
            decreases ny - k2,
        {
            k_y.push(G1Elem::rand());
            k2 = k2 + 1;
        }
        AccSRS { k_x, k_y, k_prime: G1Elem::rand(), pc_srs }
    }

    /// Pairs an instance with a witness.
    pub fn new(instance: AccumulatorInstance, witness: AccumulatorWitness) -> (r: Accumulator)
        ensures
            r.instance == instance,
            r.witness == witness,
    {
        Accumulator { instance, witness }
    }

    /// The first error component: the generator-weighted sum of both trees'
    /// residuals against the instance's own point.
    pub fn dec_1(srs: &AccSRS, acc: &Accumulator) -> (r: G1Elem)
        requires
            srs.wf(),
            acc.wf(srs),
        ensures
            r@ == dec1_spec(srs, acc),
    {
        let error_tree_x = acc.witness.tree_x.difference(&acc.instance.x);
        let error_tree_y = acc.witness.tree_y.difference(&acc.instance.y);
        proof {
            lemma_difference_is_diff_levels(views(error_tree_x.nodes@), views(
                acc.witness.tree_x.nodes@), rev(views(acc.instance.x@)),
                acc.witness.tree_x.depth as nat);
            lemma_difference_is_diff_levels(views(error_tree_y.nodes@), views(
                acc.witness.tree_y.nodes@), rev(views(acc.instance.y@)),
                acc.witness.tree_y.depth as nat);
        }
        let m1 = g1_msm(&srs.k_x, &error_tree_x.nodes);
        let m2 = g1_msm(&srs.k_y, &error_tree_y.nodes);
        m1.add(&m2)
    }

    /// The second error component: the residual of the claimed value against
    /// the partial polynomial, times the extra generator.
    pub fn dec_2(srs: &AccSRS, acc: &Accumulator) -> (r: G1Elem)
        requires
            srs.wf(),
            acc.wf(srs),
        ensures
            r@ == dec2_spec(srs, acc),
    {
        let leaves = acc.witness.tree_y.get_leaves();
        let ip = inner_product(&acc.witness.f_star_poly.evaluation_over_boolean_hypercube, &leaves);
        let e_prime = ip.sub(&acc.instance.z);
        srs.k_prime.mul(&e_prime)
    }

    /// The third error component: the partial polynomial's commitment under
    /// the `H` vector, minus the equality-weighted row commitments.
    pub fn dec_3(srs: &AccSRS, acc: &Accumulator) -> (r: G1Elem)
        requires
            srs.wf(),
            acc.wf(srs),
        ensures
            r@ == dec3_spec(srs, acc),
    {
        let rhs = g1_msm(&srs.pc_srs.vec_H,
            &acc.witness.f_star_poly.evaluation_over_boolean_hypercube);
        let leaves = acc.witness.tree_x.get_leaves();
        let lhs = g1_msm(&acc.witness.vec_D, &leaves);
        rhs.add(&lhs.neg())
    }

    /// The full error term that `E` must carry.
    pub fn error_term(srs: &AccSRS, acc: &Accumulator) -> (r: G1Elem)
        requires
            srs.wf(),
            acc.wf(srs),
        ensures
            r@ == e_spec(srs, acc),
    {
        let d1 = Self::dec_1(srs, acc);
        let d2 = Self::dec_2(srs, acc);
        let d3 = Self::dec_3(srs, acc);
        d1.add(&d2).add(&d3)
    }

    /// Converts a commitment and its opening proof into a fresh accumulator:
    /// the trees are built from the point, `T` is computed from them, and
    /// `E` takes the error term that the proof leaves.
    pub fn new_accumulator_from_fresh_proof(
        srs: &AccSRS,
        c: &PCSCommitment,
        proof: PCSOpeningProof,
        x: &Vec<Scalar>,
        y: &Vec<Scalar>,
        z: &Scalar,
    ) -> (r: Accumulator)
        requires
            srs.wf(),
            x@.len() == srs.pc_srs.x_len@,
            y@.len() == srs.pc_srs.y_len@,
            proof.vec_D@.len() == srs.pc_srs.degree_x,
            proof.f_star_poly.wf(),
            proof.f_star_poly.num_variables == srs.pc_srs.y_len@,
        ensures
            r.wf(srs),
            r.instance.C@ == c.C@,
            views(r.instance.x@) == views(x@),
            views(r.instance.y@) == views(y@),
            r.instance.z@ == z@,
            r.witness.tree_x.is_eq_tree_of(views(x@)),
            r.witness.tree_y.is_eq_tree_of(views(y@)),
            views(r.witness.vec_D@) == views(proof.vec_D@),
            r.witness.f_star_poly == proof.f_star_poly,
            r.instance.T@ == t_spec(srs, &r.witness),
            r.instance.E@ == e_spec(srs, &r),
    {
        let tree_x = EqTree::new(x);
        let tree_y = EqTree::new(y);
        let witness = AccumulatorWitness {
            vec_D: proof.vec_D,
            tree_x,
            tree_y,
            f_star_poly: proof.f_star_poly,
        };
        let m1 = g1_msm(&srs.k_x, &witness.tree_x.nodes);
        let m2 = g1_msm(&srs.k_y, &witness.tree_y.nodes);
        let t = m1.add(&m2);
        let mut xs: Vec<Scalar> = clone_scalar_vec(x);
        let mut ys: Vec<Scalar> = clone_scalar_vec(y);
        let instance = AccumulatorInstance {
            C: c.C.clone(),
            T: t,
            E: G1Elem::zero(),
            x: xs,
            y: ys,
            z: z.clone(),
        };
        let mut acc = Accumulator { instance, witness };
        let e = Self::error_term(srs, &acc);
        acc.instance.E = e;
        acc
    }

    /// Replays the shared transcript schedule and squeezes the folding
    /// challenge: both instances' encodings, then the cross-term commitment.
    pub fn compute_fiat_shamir_challenge(
        transcript: &mut Transcript,
        instance_1: &AccumulatorInstance,
        instance_2: &AccumulatorInstance,
        q: &G1Elem,
    ) -> (r: Scalar)
        ensures
            r@ == fiat_shamir_spec(old(transcript)@, instance_1.encoding(), instance_2.encoding(),
                q@),
            in_field(fr_ord(), r@),
            final(transcript)@ == hist_after_challenge(fiat_shamir_hist(old(transcript)@,
                instance_1.encoding(), instance_2.encoding(), q@)),
    {
        let enc1 = instance_1.to_sponge_field_elements();
        transcript.append_scalars("instance 1", &enc1);
        let enc2 = instance_2.to_sponge_field_elements();
        transcript.append_scalars("instance 2", &enc2);
        transcript.append_point("Q", q);
        transcript.challenge_scalar("challenge scalar")
    }

    /// Certifies an accumulator: the pairing identity binding the row
    /// commitments to `C`, the generator identity binding `T` to the trees,
    /// and the error identity binding `E` to the decomposed error term.
    pub fn decide(srs: &AccSRS, acc: &Accumulator) -> (r: bool)
        requires
            srs.wf(),
            acc.wf(srs),
        ensures
            r == decide_spec(srs, acc),
    {
        let lhs = multi_pairing(&acc.witness.vec_D, &srs.pc_srs.vec_V);
        let rhs = pairing(&acc.instance.C, &srs.pc_srs.V_prime);
        if !lhs.eq(&rhs) {
            return false;
        }
        let m1 = g1_msm(&srs.k_x, &acc.witness.tree_x.nodes);
        let m2 = g1_msm(&srs.k_y, &acc.witness.tree_y.nodes);
        if !acc.instance.T.eq(&m1.add(&m2)) {
            return false;
        }
        let e = Self::error_term(srs, acc);
        acc.instance.E.eq(&e)
    }
}

/// What `decide` checks: the pairing identity, the `T` identity, and the
/// error identity.
pub open spec fn decide_spec(srs: &AccSRS, acc: &Accumulator) -> bool {
    &&& pairing_check(views(acc.witness.vec_D@), views(srs.pc_srs.vec_V@), acc.instance.C@,
        srs.pc_srs.V_prime@)
    &&& acc.instance.T@ == t_spec(srs, &acc.witness)
    &&& acc.instance.E@ == e_spec(srs, acc)
}

/// The transcript history after absorbing both instance encodings and the
/// cross-term commitment's coordinates.
pub open spec fn fiat_shamir_hist(
    h: (Seq<int>, Seq<bool>),
    e1: Seq<int>,
    e2: Seq<int>,
    q: int,
) -> (Seq<int>, Seq<bool>) {
    hist_after_absorb(hist_after_absorb(hist_after_absorb(h, e1), e2), point_coords(q))
}

/// The folding challenge: the squeeze after the shared absorb schedule.
pub open spec fn fiat_shamir_spec(h: (Seq<int>, Seq<bool>), e1: Seq<int>, e2: Seq<int>, q: int)
    -> int {
    let hh = fiat_shamir_hist(h, e1, e2, q);
    sponge_out(hh.0, hh.1)
}

/// The challenge derivation is deterministic: over equal transcript
/// histories, equal instance encodings and equal cross terms it returns
/// equal challenges.
pub proof fn lemma_fiat_shamir_deterministic(
    h1: (Seq<int>, Seq<bool>),
    h2: (Seq<int>, Seq<bool>),
    e1a: Seq<int>,
    e1b: Seq<int>,
    e2a: Seq<int>,
    e2b: Seq<int>,
    qa: int,
    qb: int,
)
    requires
        h1 == h2,
        e1a == e1b,
        e2a == e2b,
        qa == qb,
    ensures
        fiat_shamir_spec(h1, e1a, e2a, qa) == fiat_shamir_spec(h2, e1b, e2b, qb),
{
}

/// The affine combination a fold applies to one coordinate: the running
/// side weighted by `wr`, the current side by `wc`.
pub open spec fn lin2(wr: int, wc: int, run: int, cur: int) -> int {
    fadd(fr_ord(), fmul(fr_ord(), wr, run), fmul(fr_ord(), wc, cur))
}

/// The entry-wise affine combination of two equally long sequences.
pub open spec fn seq_lin2(wr: int, wc: int, run: Seq<int>, cur: Seq<int>) -> Seq<int> {
    Seq::new(run.len(), |i: int| lin2(wr, wc, run[i], cur[i]))
}

/// The canonical representative of one half: the inverse of two.
pub open spec fn half_spec() -> int {
    (fr_ord() + 1) / 2
}

/// The error term of the mid-point combination of `current` and `running`,
/// from which the cross term is recovered.
pub open spec fn mid_e_spec(srs: &AccSRS, current: &Accumulator, running: &Accumulator) -> int {
    let h = half_spec();
    e_raw(
        views(srs.k_x@),
        views(srs.k_y@),
        srs.k_prime@,
        views(srs.pc_srs.vec_H@),
        seq_lin2(h, h, views(running.witness.vec_D@), views(current.witness.vec_D@)),
        seq_lin2(h, h, views(running.witness.tree_x.nodes@), views(current.witness.tree_x.nodes@)),
        seq_lin2(h, h, views(running.witness.tree_y.nodes@), views(current.witness.tree_y.nodes@)),
        running.witness.tree_x.depth as nat,
        running.witness.tree_y.depth as nat,
        seq_lin2(h, h, views(running.instance.x@), views(current.instance.x@)),
        seq_lin2(h, h, views(running.instance.y@), views(current.instance.y@)),
        lin2(h, h, running.instance.z@, current.instance.z@),
        seq_lin2(h, h, running.witness.f_star_poly.table(), current.witness.f_star_poly.table()),
    )
}

/// The cross term of a fold: four times the mid-point error term, less
/// twice the error terms of the two operands.
pub open spec fn q_spec(srs: &AccSRS, current: &Accumulator, running: &Accumulator) -> int {
    fadd(
        fr_ord(),
        fmul(fr_ord(), 4, mid_e_spec(srs, current, running)),
        fneg(
            fr_ord(),
            fmul(fr_ord(), 2, fadd(fr_ord(), e_spec(srs, current), e_spec(srs, running))),
        ),
    )
}

/// A canonical representative whose double is one is the canonical half.
proof fn lemma_half_unique(a: int)
    requires
        0 <= a < fr_ord(),
        fmul(fr_ord(), 2, a) == 1,
    ensures
        a == half_spec(),
{
    let m = fr_ord();
    let h = half_spec();
    vstd::arithmetic::div_mod::lemma_fundamental_div_mod(m + 1, 2);
    assert(2 * h == m + 1);
    vstd::arithmetic::div_mod::lemma_mul_mod_noop_right(h, 2 * a, m);
    vstd::arithmetic::mul::lemma_mul_is_associative(h, 2, a);
    vstd::arithmetic::mul::lemma_mul_is_distributive_add_other_way(a, m, 1);
    assert((m + 1) * a == m * a + 1 * a);
    vstd::arithmetic::div_mod::lemma_mod_multiples_basic(a, m);
    assert((a * m) % m == 0);
    vstd::arithmetic::mul::lemma_mul_is_commutative(a, m);
    vstd::arithmetic::div_mod::lemma_add_mod_noop(m * a, a, m);
    vstd::arithmetic::div_mod::lemma_mod_twice(a, m);
    vstd::arithmetic::div_mod::lemma_small_mod(a as nat, m as nat);
    vstd::arithmetic::div_mod::lemma_small_mod(h as nat, m as nat);
    assert((h * ((2 * a) % m)) % m == (h * (2 * a)) % m);
    assert((h * (2 * a)) == (2 * h) * a) by {
        vstd::arithmetic::mul::lemma_mul_is_associative(2, h, a);
        vstd::arithmetic::mul::lemma_mul_is_commutative(2, h);
    }
    assert((h * ((2 * a) % m)) % m == h % m);
}

/// The entry-wise affine combination of one coordinate.
fn scalar_lin(wr: &Scalar, wc: &Scalar, run: &Scalar, cur: &Scalar) -> (r: Scalar)
    ensures
        r@ == lin2(wr@, wc@, run@, cur@),
{
    wr.mul(run).add(&wc.mul(cur))
}

/// The affine combination of one group element.
fn g1_lin(wr: &Scalar, wc: &Scalar, run: &G1Elem, cur: &G1Elem) -> (r: G1Elem)
    ensures
        r@ == lin2(wr@, wc@, run@, cur@),
{
    run.mul(wr).add(&cur.mul(wc))
}

/// The entry-wise affine combination of two scalar vectors.
fn scalar_vec_lin(wr: &Scalar, wc: &Scalar, run: &Vec<Scalar>, cur: &Vec<Scalar>) -> (r: Vec<
    Scalar,
>)
    requires
        run@.len() == cur@.len(),
    ensures
        r@.len() == run@.len(),
        views(r@) == seq_lin2(wr@, wc@, views(run@), views(cur@)),
{
    let mut out: Vec<Scalar> = Vec::new();
    let mut k: usize = 0;
    while k < run.len()
        invariant
            k <= run@.len(),
            run@.len() == cur@.len(),
            out@.len() == k,
            forall|t: int|
                0 <= t < k ==> #[trigger] out@[t]@ == lin2(wr@, wc@, views(run@)[t], views(
                    cur@)[t]),
        decreases run@.len() - k,
    {
        out.push(scalar_lin(wr, wc, &run[k], &cur[k]));
        k = k + 1;
    }
    proof {
        assert(views(out@) =~= seq_lin2(wr@, wc@, views(run@), views(cur@)));
    }
    out
}

/// The entry-wise affine combination of two vectors of group elements.
fn g1_vec_lin(wr: &Scalar, wc: &Scalar, run: &Vec<G1Elem>, cur: &Vec<G1Elem>) -> (r: Vec<G1Elem>)
    requires
        run@.len() == cur@.len(),
    ensures
        r@.len() == run@.len(),
        views(r@) == seq_lin2(wr@, wc@, views(run@), views(cur@)),
{
    let mut out: Vec<G1Elem> = Vec::new();
    let mut k: usize = 0;
    while k < run.len()
        invariant
            k <= run@.len(),
            run@.len() == cur@.len(),
            out@.len() == k,
            forall|t: int|
                0 <= t < k ==> #[trigger] out@[t]@ == lin2(wr@, wc@, views(run@)[t], views(
                    cur@)[t]),
        decreases run@.len() - k,
    {
        out.push(g1_lin(wr, wc, &run[k], &cur[k]));
        k = k + 1;
    }
    proof {
        assert(views(out@) =~= seq_lin2(wr@, wc@, views(run@), views(cur@)));
    }
    out
}

/// The node-wise affine combination of two trees; trees of different
/// depths are reported as a depth mismatch.
pub fn combine_trees_weighted(wr: &Scalar, wc: &Scalar, run: &EqTree, cur: &EqTree) -> (out:
    Result<EqTree, crate::FoldError>)
    requires
        run.wf(),
        cur.wf(),
    ensures
        out is Ok <==> run.depth == cur.depth,
        out is Err ==> out->Err_0 == crate::FoldError::DepthMismatch,
        out is Ok ==> {
            let t = out->Ok_0;
            &&& t.wf()
            &&& t.depth == run.depth
            &&& views(t.nodes@) == seq_lin2(wr@, wc@, views(run.nodes@), views(cur.nodes@))
        },
{
    if run.depth != cur.depth {
        return Err(crate::FoldError::DepthMismatch);
    }
    Ok(combine_trees(wr, wc, run, cur))
}

/// The node-wise affine combination of two equal-depth trees.
fn combine_trees(wr: &Scalar, wc: &Scalar, run: &EqTree, cur: &EqTree) -> (r: EqTree)
    requires
        run.wf(),
        cur.wf(),
        run.depth == cur.depth,
    ensures
        r.wf(),
        r.depth == run.depth,
        views(r.nodes@) == seq_lin2(wr@, wc@, views(run.nodes@), views(cur.nodes@)),
{
    let f = (|a: Scalar, b: Scalar| -> (o: Scalar)
        ensures
            o@ == lin2(wr@, wc@, a@, b@),
        { wr.mul(&a).add(&wc.mul(&b)) });
    let ghost g = (|av: int, bv: int| lin2(wr@, wc@, av, bv));
    let res = EqTree::linear_combination(run, cur, f, Ghost(g));
    match res {
        Ok(t) => {
            proof {
                assert(views(t.nodes@) =~= seq_lin2(wr@, wc@, views(run.nodes@), views(
                    cur.nodes@)));
            }
            t
        },
        Err(_) => {
            proof {
                assert(false);
            }
            EqTree { nodes: Vec::new(), depth: 0 }
        },
    }
}

impl Accumulator {
    /// The component-wise affine combination of two accumulators, the
    /// running side weighted by `w_run` and the current side by `w_cur`.
    /// The combined `E` carries no cross term yet.
    fn combine_with_weights(
        srs: &AccSRS,
        w_run: &Scalar,
        w_cur: &Scalar,
        running: &Accumulator,
        current: &Accumulator,
    ) -> (r: Accumulator)
        requires
            srs.wf(),
            running.wf(srs),
            current.wf(srs),
        ensures
            r.wf(srs),
            r.instance.C@ == lin2(w_run@, w_cur@, running.instance.C@, current.instance.C@),
            r.instance.T@ == lin2(w_run@, w_cur@, running.instance.T@, current.instance.T@),
            r.instance.E@ == lin2(w_run@, w_cur@, running.instance.E@, current.instance.E@),
            views(r.instance.x@) == seq_lin2(w_run@, w_cur@, views(running.instance.x@), views(
                current.instance.x@)),
            views(r.instance.y@) == seq_lin2(w_run@, w_cur@, views(running.instance.y@), views(
                current.instance.y@)),
            r.instance.z@ == lin2(w_run@, w_cur@, running.instance.z@, current.instance.z@),
            views(r.witness.vec_D@) == seq_lin2(w_run@, w_cur@, views(running.witness.vec_D@),
                views(current.witness.vec_D@)),
            views(r.witness.tree_x.nodes@) == seq_lin2(w_run@, w_cur@, views(
                running.witness.tree_x.nodes@), views(current.witness.tree_x.nodes@)),
            views(r.witness.tree_y.nodes@) == seq_lin2(w_run@, w_cur@, views(
                running.witness.tree_y.nodes@), views(current.witness.tree_y.nodes@)),
            r.witness.tree_x.depth == running.witness.tree_x.depth,
            r.witness.tree_y.depth == running.witness.tree_y.depth,
            r.witness.f_star_poly.table() == seq_lin2(w_run@, w_cur@,
                running.witness.f_star_poly.table(), current.witness.f_star_poly.table()),
            r.witness.f_star_poly.num_variables == running.witness.f_star_poly.num_variables,
    {
        let instance = AccumulatorInstance {
            C: g1_lin(w_run, w_cur, &running.instance.C, &current.instance.C),
            T: g1_lin(w_run, w_cur, &running.instance.T, &current.instance.T),
            E: g1_lin(w_run, w_cur, &running.instance.E, &current.instance.E),
            x: scalar_vec_lin(w_run, w_cur, &running.instance.x, &current.instance.x),
            y: scalar_vec_lin(w_run, w_cur, &running.instance.y, &current.instance.y),
            z: scalar_lin(w_run, w_cur, &running.instance.z, &current.instance.z),
        };
        let table = scalar_vec_lin(
            w_run,
            w_cur,
            &running.witness.f_star_poly.evaluation_over_boolean_hypercube,
            &current.witness.f_star_poly.evaluation_over_boolean_hypercube,
        );
        let witness = AccumulatorWitness {
            vec_D: g1_vec_lin(w_run, w_cur, &running.witness.vec_D, &current.witness.vec_D),
            tree_x: combine_trees(w_run, w_cur, &running.witness.tree_x, &current.witness.tree_x),
            tree_y: combine_trees(w_run, w_cur, &running.witness.tree_y, &current.witness.tree_y),
            f_star_poly: MultilinearPolynomial::new(
                table,
                running.witness.f_star_poly.num_variables,
            ),
        };
        Accumulator { instance, witness }
    }

    /// Folds two accumulators under the challenge `beta`: the current side
    /// receives weight `1 - beta`, the running side weight `beta`, every
    /// instance coordinate and every witness component is combined with
    /// those weights, and the folded error commitment additionally absorbs
    /// `beta * (1 - beta)` times the cross term `Q`, which is returned
    /// alongside.
    pub fn prove(srs: &AccSRS, beta: &Scalar, current: &Accumulator, running: &Accumulator) -> (r:
        (AccumulatorInstance, AccumulatorWitness, G1Elem))
        requires
            srs.wf(),
            current.wf(srs),
            running.wf(srs),
        ensures
            r.2@ == q_spec(srs, current, running),
            r.0.C@ == lin2(beta@, fsub(fr_ord(), 1, beta@), running.instance.C@,
                current.instance.C@),
            r.0.T@ == lin2(beta@, fsub(fr_ord(), 1, beta@), running.instance.T@,
                current.instance.T@),
            r.0.E@ == fadd(fr_ord(), lin2(beta@, fsub(fr_ord(), 1, beta@), running.instance.E@,
                current.instance.E@), fmul(fr_ord(), fmul(fr_ord(), beta@, fsub(fr_ord(), 1,
                beta@)), q_spec(srs, current, running))),
            views(r.0.x@) == seq_lin2(beta@, fsub(fr_ord(), 1, beta@), views(running.instance.x@),
                views(current.instance.x@)),
            views(r.0.y@) == seq_lin2(beta@, fsub(fr_ord(), 1, beta@), views(running.instance.y@),
                views(current.instance.y@)),
            r.0.z@ == lin2(beta@, fsub(fr_ord(), 1, beta@), running.instance.z@,
                current.instance.z@),
            views(r.1.vec_D@) == seq_lin2(beta@, fsub(fr_ord(), 1, beta@), views(
                running.witness.vec_D@), views(current.witness.vec_D@)),
            views(r.1.tree_x.nodes@) == seq_lin2(beta@, fsub(fr_ord(), 1, beta@), views(
                running.witness.tree_x.nodes@), views(current.witness.tree_x.nodes@)),
            views(r.1.tree_y.nodes@) == seq_lin2(beta@, fsub(fr_ord(), 1, beta@), views(
                running.witness.tree_y.nodes@), views(current.witness.tree_y.nodes@)),
            r.1.f_star_poly.table() == seq_lin2(beta@, fsub(fr_ord(), 1, beta@),
                running.witness.f_star_poly.table(), current.witness.f_star_poly.table()),
            r.0.wf(srs),
            r.1.wf(srs),
    {
        // the cross term, recovered from the error terms of the operands and
        // of their mid-point combination
        let two = Scalar::from_u64(2);
        proof {
            vstd::arithmetic::div_mod::lemma_small_mod(2, fr_ord() as nat);
            vstd::arithmetic::div_mod::lemma_small_mod(4, fr_ord() as nat);
        }
        let half = two.inverse();
        proof {
            lemma_half_unique(half@);
        }
        let mid = Self::combine_with_weights(srs, &half, &half, running, current);
        let v_mid = Self::error_term(srs, &mid);
        proof {
            assert(v_mid@ == mid_e_spec(srs, current, running));
        }
        let v_cur = Self::error_term(srs, current);
        let v_run = Self::error_term(srs, running);
        let four = Scalar::from_u64(4);
        let s = v_cur.add(&v_run);
        let q = v_mid.mul(&four).add(&s.mul(&two).neg());

        // the affine combination under the challenge
        let one = Scalar::one();
        let omb = one.sub(beta);
        let folded = Self::combine_with_weights(srs, beta, &omb, running, current);
        let bomb = beta.mul(&omb);
        let e_new = folded.instance.E.add(&q.mul(&bomb));
        let mut instance = folded.instance;
        instance.E = e_new;
        (instance, folded.witness, q)
    }
}

/// A dot product with an entry-wise affine combination on the left splits
/// into the weighted dot products of the two sides.
pub proof fn lemma_dot_mod_lin(wr: int, wc: int, a: Seq<int>, c: Seq<int>, k: Seq<int>)
    requires
        a.len() == c.len(),
        a.len() == k.len(),
    ensures
        dot_mod(fr_ord(), seq_lin2(wr, wc, a, c), k) == fadd(fr_ord(), fmul(fr_ord(), wr, dot_mod(
            fr_ord(), a, k)), fmul(fr_ord(), wc, dot_mod(fr_ord(), c, k))),
    decreases a.len(),
{
    let m = fr_ord();
    if a.len() == 0 {
        assert(seq_lin2(wr, wc, a, c) =~= Seq::<int>::empty());
        vstd::arithmetic::div_mod::lemma_small_mod(0, m as nat);
    } else {
        let a1 = a.drop_last();
        let c1 = c.drop_last();
        let k1 = k.drop_last();
        let al = a.last();
        let cl = c.last();
        let kl = k.last();
        lemma_dot_mod_lin(wr, wc, a1, c1, k1);
        let sl = seq_lin2(wr, wc, a, c);
        assert(sl.drop_last() =~= seq_lin2(wr, wc, a1, c1));
        assert(sl.last() == lin2(wr, wc, al, cl));
        let d = dot(seq_lin2(wr, wc, a1, c1), k1);
        let d1 = dot(a1, k1);
        let d2 = dot(c1, k1);
        let w = fadd(m, fmul(m, wr, al), fmul(m, wc, cl));
        assert(dot(sl, k) == d + w * kl);
        // fold the reduced combination weight through the last product
        vstd::arithmetic::div_mod::lemma_add_mod_noop_right(d, w * kl, m);
        vstd::arithmetic::div_mod::lemma_mul_mod_noop_left(wr * al + wc * cl, kl, m);
        assert(w == (wr * al + wc * cl) % m) by {
            vstd::arithmetic::div_mod::lemma_mul_mod_noop_general(wr, al, m);
            vstd::arithmetic::div_mod::lemma_add_mod_noop(wr * al, wc * cl, m);
            vstd::arithmetic::div_mod::lemma_mod_twice(wr * al + wc * cl, m);
        }
        assert((w * kl) % m == ((wr * al + wc * cl) * kl) % m);
        vstd::arithmetic::div_mod::lemma_add_mod_noop_right(d, (wr * al + wc * cl) * kl, m);
        assert((wr * al + wc * cl) * kl == wr * (al * kl) + wc * (cl * kl)) by {
            vstd::arithmetic::mul::lemma_mul_is_distributive_add_other_way(kl, wr * al, wc * cl);
            vstd::arithmetic::mul::lemma_mul_is_associative(wr, al, kl);
            vstd::arithmetic::mul::lemma_mul_is_associative(wc, cl, kl);
        }
        assert(dot(sl, k) % m == (d + wr * (al * kl) + wc * (cl * kl)) % m);
        // rewrite the prefix through the induction hypothesis
        assert(d % m == (wr * d1 + wc * d2) % m) by {
            vstd::arithmetic::div_mod::lemma_mul_mod_noop_right(wr, d1, m);
            vstd::arithmetic::div_mod::lemma_mul_mod_noop_right(wc, d2, m);
            vstd::arithmetic::div_mod::lemma_add_mod_noop(wr * d1, wc * d2, m);
            vstd::arithmetic::div_mod::lemma_mod_twice(wr * d1 + wc * d2, m);
        }
        vstd::arithmetic::div_mod::lemma_add_mod_noop(d, wr * (al * kl) + wc * (cl * kl), m);
        vstd::arithmetic::div_mod::lemma_add_mod_noop(wr * d1 + wc * d2, wr * (al * kl) + wc * (cl
            * kl), m);
        vstd::arithmetic::div_mod::lemma_mod_twice(wr * (al * kl) + wc * (cl * kl), m);
        assert(dot(sl, k) % m == (wr * d1 + wc * d2 + wr * (al * kl) + wc * (cl * kl)) % m);
        // and the goal's right side reduces to the same sum
        assert(fmul(m, wr, dot(a, k) % m) == (wr * d1 + wr * (al * kl)) % m) by {
            vstd::arithmetic::div_mod::lemma_mul_mod_noop_right(wr, dot(a, k), m);
            vstd::arithmetic::mul::lemma_mul_is_distributive_add(wr, d1, al * kl);
        }
        assert(fmul(m, wc, dot(c, k) % m) == (wc * d2 + wc * (cl * kl)) % m) by {
            vstd::arithmetic::div_mod::lemma_mul_mod_noop_right(wc, dot(c, k), m);
            vstd::arithmetic::mul::lemma_mul_is_distributive_add(wc, d2, cl * kl);
        }
        vstd::arithmetic::div_mod::lemma_add_mod_noop(wr * d1 + wr * (al * kl), wc * d2 + wc * (cl
            * kl), m);
    }
}

/// A dot product with an entry-wise affine combination on the right splits
/// likewise.
pub proof fn lemma_dot_mod_lin_right(wr: int, wc: int, k: Seq<int>, a: Seq<int>, c: Seq<int>)
    requires
        a.len() == c.len(),
        a.len() == k.len(),
    ensures
        dot_mod(fr_ord(), k, seq_lin2(wr, wc, a, c)) == fadd(fr_ord(), fmul(fr_ord(), wr, dot_mod(
            fr_ord(), k, a)), fmul(fr_ord(), wc, dot_mod(fr_ord(), k, c))),
{
    crate::field::lemma_dot_comm(k, seq_lin2(wr, wc, a, c));
    crate::field::lemma_dot_comm(k, a);
    crate::field::lemma_dot_comm(k, c);
    lemma_dot_mod_lin(wr, wc, a, c, k);
}

/// Rearranges a product of four factors into paired form.
pub(crate) proof fn lemma_mul_swap(a: int, b: int, c: int, d: int)
    ensures
        (a * b) * (c * d) == (a * c) * (b * d),
{
    vstd::arithmetic::mul::lemma_mul_is_associative(a * b, c, d);
    vstd::arithmetic::mul::lemma_mul_is_associative(a, b, c);
    vstd::arithmetic::mul::lemma_mul_is_commutative(b, c);
    vstd::arithmetic::mul::lemma_mul_is_associative(a, c, b);
    vstd::arithmetic::mul::lemma_mul_is_associative(a * c, b, d);
}

/// Distributes one factor over a four-term sum, pairing it rightwards.
proof fn lemma_mul_dist4(kl: int, q11: int, l11: int, q12: int, l12: int, q21: int, l21: int, q22:
    int, l22: int)
    ensures
        kl * (q11 * l11 + q12 * l12 + q21 * l21 + q22 * l22) == q11 * (l11 * kl) + q12 * (l12 * kl)
            + q21 * (l21 * kl) + q22 * (l22 * kl),
{
    vstd::arithmetic::mul::lemma_mul_is_distributive_add(kl, q11 * l11 + q12 * l12 + q21 * l21,
        q22 * l22);
    vstd::arithmetic::mul::lemma_mul_is_distributive_add(kl, q11 * l11 + q12 * l12, q21 * l21);
    vstd::arithmetic::mul::lemma_mul_is_distributive_add(kl, q11 * l11, q12 * l12);
    lemma_mul_one_term(kl, q11, l11);
    lemma_mul_one_term(kl, q12, l12);
    lemma_mul_one_term(kl, q21, l21);
    lemma_mul_one_term(kl, q22, l22);
}

/// One product term commuted and reassociated.
proof fn lemma_mul_one_term(kl: int, q: int, l: int)
    ensures
        kl * (q * l) == q * (l * kl),
{
    vstd::arithmetic::mul::lemma_mul_is_commutative(kl, q * l);
    vstd::arithmetic::mul::lemma_mul_is_associative(q, l, kl);
}

/// The entry-wise four-way combination of four sequences under four
/// weights.
pub open spec fn seq_quad(
    q11: int,
    q12: int,
    q21: int,
    q22: int,
    s11: Seq<int>,
    s12: Seq<int>,
    s21: Seq<int>,
    s22: Seq<int>,
) -> Seq<int> {
    Seq::new(
        s11.len(),
        |i: int|
            fadd(
                fr_ord(),
                fadd(fr_ord(), fmul(fr_ord(), q11, s11[i]), fmul(fr_ord(), q12, s12[i])),
                fadd(fr_ord(), fmul(fr_ord(), q21, s21[i]), fmul(fr_ord(), q22, s22[i])),
            ),
    )
}

/// A dot product with a four-way combination on the right splits into the
/// four weighted dot products.
pub proof fn lemma_dot_mod_quad_right(
    q11: int,
    q12: int,
    q21: int,
    q22: int,
    k: Seq<int>,
    s11: Seq<int>,
    s12: Seq<int>,
    s21: Seq<int>,
    s22: Seq<int>,
)
    requires
        s11.len() == k.len(),
        s12.len() == k.len(),
        s21.len() == k.len(),
        s22.len() == k.len(),
    ensures
        dot_mod(fr_ord(), k, seq_quad(q11, q12, q21, q22, s11, s12, s21, s22)) == (q11 * dot(k,
            s11) + q12 * dot(k, s12) + q21 * dot(k, s21) + q22 * dot(k, s22)) % fr_ord(),
    decreases k.len(),
{
    let m = fr_ord();
    if k.len() == 0 {
        assert(seq_quad(q11, q12, q21, q22, s11, s12, s21, s22) =~= Seq::<int>::empty());
        vstd::arithmetic::div_mod::lemma_small_mod(0, m as nat);
    } else {
        let k1 = k.drop_last();
        let t11 = s11.drop_last();
        let t12 = s12.drop_last();
        let t21 = s21.drop_last();
        let t22 = s22.drop_last();
        lemma_dot_mod_quad_right(q11, q12, q21, q22, k1, t11, t12, t21, t22);
        let sq = seq_quad(q11, q12, q21, q22, s11, s12, s21, s22);
        assert(sq.drop_last() =~= seq_quad(q11, q12, q21, q22, t11, t12, t21, t22));
        let kl = k.last();
        let l11 = s11.last();
        let l12 = s12.last();
        let l21 = s21.last();
        let l22 = s22.last();
        let unred = q11 * l11 + q12 * l12 + q21 * l21 + q22 * l22;
        assert(sq.last() == fadd(m, fadd(m, fmul(m, q11, l11), fmul(m, q12, l12)), fadd(m, fmul(m,
            q21, l21), fmul(m, q22, l22))));
        assert(sq.last() == unred % m) by {
            vstd::arithmetic::div_mod::lemma_add_mod_noop(q11 * l11, q12 * l12, m);
            vstd::arithmetic::div_mod::lemma_add_mod_noop(q21 * l21, q22 * l22, m);
            vstd::arithmetic::div_mod::lemma_add_mod_noop(q11 * l11 + q12 * l12, q21 * l21 + q22
                * l22, m);
            vstd::arithmetic::div_mod::lemma_mod_twice(q11 * l11 + q12 * l12, m);
            vstd::arithmetic::div_mod::lemma_mod_twice(q21 * l21 + q22 * l22, m);
            vstd::arithmetic::div_mod::lemma_mod_twice(unred, m);
        }
        let dprev = dot(k1, sq.drop_last());
        assert(dot(k, sq) == dprev + kl * sq.last()) by {
            crate::field::lemma_dot_comm(k, sq);
            crate::field::lemma_dot_comm(k1, sq.drop_last());
        }
        assert((kl * (unred % m)) % m == (kl * unred) % m) by {
            vstd::arithmetic::div_mod::lemma_mul_mod_noop_right(kl, unred, m);
        }
        assert(dot(k, sq) % m == (dprev + kl * unred) % m) by {
            vstd::arithmetic::div_mod::lemma_add_mod_noop_right(dprev, kl * (unred % m), m);
            vstd::arithmetic::div_mod::lemma_add_mod_noop_right(dprev, kl * unred, m);
        }
        let p11 = dot(k1, t11);
        let p12 = dot(k1, t12);
        let p21 = dot(k1, t21);
        let p22 = dot(k1, t22);
        assert(dprev % m == (q11 * p11 + q12 * p12 + q21 * p21 + q22 * p22) % m);
        assert(kl * unred == q11 * (l11 * kl) + q12 * (l12 * kl) + q21 * (l21 * kl) + q22 * (l22
            * kl)) by {
            lemma_mul_dist4(kl, q11, l11, q12, l12, q21, l21, q22, l22);
        }
        assert(dot(k, sq) % m == (q11 * p11 + q12 * p12 + q21 * p21 + q22 * p22 + (q11 * (l11
            * kl) + q12 * (l12 * kl) + q21 * (l21 * kl) + q22 * (l22 * kl))) % m) by {
            vstd::arithmetic::div_mod::lemma_add_mod_noop(dprev, kl * unred, m);
            vstd::arithmetic::div_mod::lemma_add_mod_noop(q11 * p11 + q12 * p12 + q21 * p21 + q22
                * p22, kl * unred, m);
            vstd::arithmetic::div_mod::lemma_mod_twice(kl * unred, m);
            vstd::arithmetic::div_mod::lemma_mod_twice(dprev, m);
        }
        assert(dot(k, s11) == p11 + kl * l11) by {
            crate::field::lemma_dot_comm(k, s11);
            crate::field::lemma_dot_comm(k1, t11);
        }
        assert(dot(k, s12) == p12 + kl * l12) by {
            crate::field::lemma_dot_comm(k, s12);
            crate::field::lemma_dot_comm(k1, t12);
        }
        assert(dot(k, s21) == p21 + kl * l21) by {
            crate::field::lemma_dot_comm(k, s21);
            crate::field::lemma_dot_comm(k1, t21);
        }
        assert(dot(k, s22) == p22 + kl * l22) by {
            crate::field::lemma_dot_comm(k, s22);
            crate::field::lemma_dot_comm(k1, t22);
        }
        assert(q11 * dot(k, s11) == q11 * p11 + q11 * (l11 * kl)) by {
            vstd::arithmetic::mul::lemma_mul_is_distributive_add(q11, p11, kl * l11);
            vstd::arithmetic::mul::lemma_mul_is_commutative(kl, l11);
        }
        assert(q12 * dot(k, s12) == q12 * p12 + q12 * (l12 * kl)) by {
            vstd::arithmetic::mul::lemma_mul_is_distributive_add(q12, p12, kl * l12);
            vstd::arithmetic::mul::lemma_mul_is_commutative(kl, l12);
        }
        assert(q21 * dot(k, s21) == q21 * p21 + q21 * (l21 * kl)) by {
            vstd::arithmetic::mul::lemma_mul_is_distributive_add(q21, p21, kl * l21);
            vstd::arithmetic::mul::lemma_mul_is_commutative(kl, l21);
        }
        assert(q22 * dot(k, s22) == q22 * p22 + q22 * (l22 * kl)) by {
            vstd::arithmetic::mul::lemma_mul_is_distributive_add(q22, p22, kl * l22);
            vstd::arithmetic::mul::lemma_mul_is_commutative(kl, l22);
        }
    }
}

/// A dot product of two entry-wise affine combinations under the same
/// weights splits into the four weighted mixed dot products.
pub proof fn lemma_dot_mod_bilin(w1: int, w2: int, a1: Seq<int>, a2: Seq<int>, b1: Seq<int>, b2:
    Seq<int>)
    requires
        a1.len() == a2.len(),
        a1.len() == b1.len(),
        a1.len() == b2.len(),
    ensures
        dot_mod(fr_ord(), seq_lin2(w1, w2, a1, a2), seq_lin2(w1, w2, b1, b2)) == ((w1 * w1) * dot(
            a1, b1) + (w1 * w2) * dot(a1, b2) + (w1 * w2) * dot(a2, b1) + (w2 * w2) * dot(a2,
            b2)) % fr_ord(),
    decreases a1.len(),
{
    let m = fr_ord();
    if a1.len() == 0 {
        assert(seq_lin2(w1, w2, a1, a2) =~= Seq::<int>::empty());
        vstd::arithmetic::div_mod::lemma_small_mod(0, m as nat);
    } else {
        let x1 = a1.drop_last();
        let x2 = a2.drop_last();
        let y1 = b1.drop_last();
        let y2 = b2.drop_last();
        lemma_dot_mod_bilin(w1, w2, x1, x2, y1, y2);
        let sa = seq_lin2(w1, w2, a1, a2);
        let sb = seq_lin2(w1, w2, b1, b2);
        assert(sa.drop_last() =~= seq_lin2(w1, w2, x1, x2));
        assert(sb.drop_last() =~= seq_lin2(w1, w2, y1, y2));
        let al1 = a1.last();
        let al2 = a2.last();
        let bl1 = b1.last();
        let bl2 = b2.last();
        let ua = w1 * al1 + w2 * al2;
        let ub = w1 * bl1 + w2 * bl2;
        assert(sa.last() == ua % m) by {
            vstd::arithmetic::div_mod::lemma_add_mod_noop(w1 * al1, w2 * al2, m);
            vstd::arithmetic::div_mod::lemma_mod_twice(ua, m);
        }
        assert(sb.last() == ub % m) by {
            vstd::arithmetic::div_mod::lemma_add_mod_noop(w1 * bl1, w2 * bl2, m);
            vstd::arithmetic::div_mod::lemma_mod_twice(ub, m);
        }
        let dprev = dot(sa.drop_last(), sb.drop_last());
        assert(dot(sa, sb) == dprev + sa.last() * sb.last());
        assert((sa.last() * sb.last()) % m == (ua * ub) % m) by {
            vstd::arithmetic::div_mod::lemma_mul_mod_noop_general(ua, ub, m);
        }
        assert(dot(sa, sb) % m == (dprev + ua * ub) % m) by {
            vstd::arithmetic::div_mod::lemma_add_mod_noop_right(dprev, sa.last() * sb.last(), m);
            vstd::arithmetic::div_mod::lemma_add_mod_noop_right(dprev, ua * ub, m);
        }
        let p11 = dot(x1, y1);
        let p12 = dot(x1, y2);
        let p21 = dot(x2, y1);
        let p22 = dot(x2, y2);
        assert(ua * ub == (w1 * al1) * ub + (w2 * al2) * ub) by {
            vstd::arithmetic::mul::lemma_mul_is_distributive_add_other_way(ub, w1 * al1, w2 * al2);
        }
        assert((w1 * al1) * ub == (w1 * al1) * (w1 * bl1) + (w1 * al1) * (w2 * bl2)) by {
            vstd::arithmetic::mul::lemma_mul_is_distributive_add(w1 * al1, w1 * bl1, w2 * bl2);
        }
        assert((w2 * al2) * ub == (w2 * al2) * (w1 * bl1) + (w2 * al2) * (w2 * bl2)) by {
            vstd::arithmetic::mul::lemma_mul_is_distributive_add(w2 * al2, w1 * bl1, w2 * bl2);
        }
        lemma_mul_swap(w1, al1, w1, bl1);
        lemma_mul_swap(w1, al1, w2, bl2);
        lemma_mul_swap(w2, al2, w1, bl1);
        lemma_mul_swap(w2, al2, w2, bl2);
        assert((w2 * w1) * (al2 * bl1) == (w1 * w2) * (al2 * bl1)) by {
            vstd::arithmetic::mul::lemma_mul_is_commutative(w2, w1);
        }
        assert(ua * ub == (w1 * w1) * (al1 * bl1) + (w1 * w2) * (al1 * bl2) + (w1 * w2) * (al2
            * bl1) + (w2 * w2) * (al2 * bl2));
        assert(dot(sa, sb) % m == ((w1 * w1) * p11 + (w1 * w2) * p12 + (w1 * w2) * p21 + (w2 * w2)
            * p22 + ((w1 * w1) * (al1 * bl1) + (w1 * w2) * (al1 * bl2) + (w1 * w2) * (al2 * bl1) + (
            w2 * w2) * (al2 * bl2))) % m) by {
            vstd::arithmetic::div_mod::lemma_add_mod_noop(dprev, ua * ub, m);
            vstd::arithmetic::div_mod::lemma_add_mod_noop((w1 * w1) * p11 + (w1 * w2) * p12 + (w1
                * w2) * p21 + (w2 * w2) * p22, ua * ub, m);
            vstd::arithmetic::div_mod::lemma_mod_twice(ua * ub, m);
            vstd::arithmetic::div_mod::lemma_mod_twice(dprev, m);
        }
        vstd::arithmetic::mul::lemma_mul_is_distributive_add(w1 * w1, p11, al1 * bl1);
        vstd::arithmetic::mul::lemma_mul_is_distributive_add(w1 * w2, p12, al1 * bl2);
        vstd::arithmetic::mul::lemma_mul_is_distributive_add(w1 * w2, p21, al2 * bl1);
        vstd::arithmetic::mul::lemma_mul_is_distributive_add(w2 * w2, p22, al2 * bl2);
        assert((w1 * w1) * dot(a1, b1) + (w1 * w2) * dot(a1, b2) + (w1 * w2) * dot(a2, b1) + (w2
            * w2) * dot(a2, b2) == (w1 * w1) * p11 + (w1 * w2) * p12 + (w1 * w2) * p21 + (w2 * w2)
            * p22 + ((w1 * w1) * (al1 * bl1) + (w1 * w2) * (al1 * bl2) + (w1 * w2) * (al2 * bl1) + (
            w2 * w2) * (al2 * bl2)));
    }
}

/// Expands the product of two affine combinations under the same weights.
proof fn lemma_affine_product(w1: int, w2: int, p1: int, p2: int, b1: int, b2: int)
    ensures
        (w1 * p1 + w2 * p2) * (w1 * b1 + w2 * b2) == (w1 * w1) * (p1 * b1) + (w1 * w2) * (p1 * b2)
            + (w1 * w2) * (p2 * b1) + (w2 * w2) * (p2 * b2),
{
    vstd::arithmetic::mul::lemma_mul_is_distributive_add_other_way(w1 * b1 + w2 * b2, w1 * p1, w2
        * p2);
    vstd::arithmetic::mul::lemma_mul_is_distributive_add(w1 * p1, w1 * b1, w2 * b2);
    vstd::arithmetic::mul::lemma_mul_is_distributive_add(w2 * p2, w1 * b1, w2 * b2);
    lemma_mul_swap(w1, p1, w1, b1);
    lemma_mul_swap(w1, p1, w2, b2);
    lemma_mul_swap(w2, p2, w1, b1);
    lemma_mul_swap(w2, p2, w2, b2);
    assert((w2 * w1) * (p2 * b1) == (w1 * w2) * (p2 * b1)) by {
        vstd::arithmetic::mul::lemma_mul_is_commutative(w2, w1);
    }
}

/// The residual of one node of an affinely combined tree against the
/// combined point splits into the four weighted mixed residuals, provided
/// the weights sum to one.
proof fn lemma_diff_node_affine(
    w1: int,
    w2: int,
    nr: Seq<int>,
    nc: Seq<int>,
    xr: Seq<int>,
    xc: Seq<int>,
    d: nat,
    i: nat,
    j: nat,
)
    requires
        (w1 + w2) % fr_ord() == 1,
        nr.len() == 2 * pow2(d) - 1,
        nc.len() == nr.len(),
        xr.len() == d,
        xc.len() == d,
        i <= d,
        j < pow2(i),
    ensures
        diff_node(seq_lin2(w1, w2, nr, nc), seq_lin2(w1, w2, xr, xc), i, j) == fadd(
            fr_ord(),
            fadd(fr_ord(), fmul(fr_ord(), fmul(fr_ord(), w1, w1), diff_node(nr, xr, i, j)), fmul(
                fr_ord(), fmul(fr_ord(), w1, w2), diff_node(nr, xc, i, j))),
            fadd(fr_ord(), fmul(fr_ord(), fmul(fr_ord(), w1, w2), diff_node(nc, xr, i, j)), fmul(
                fr_ord(), fmul(fr_ord(), w2, w2), diff_node(nc, xc, i, j))),
        ),
{
    let m = fr_ord();
    let s = w1 + w2;
    vstd::arithmetic::div_mod::lemma_sub_mod_noop(s, 1, m);
    vstd::arithmetic::div_mod::lemma_small_mod(1, m as nat);
    assert((s - 1) % m == 0);
    if i == 0 {
        vstd::arithmetic::div_mod::lemma_small_mod(0, m as nat);
        assert(fmul(m, fmul(m, w1, w1), 0) == 0) by {
            vstd::arithmetic::mul::lemma_mul_basics(fmul(m, w1, w1));
            vstd::arithmetic::div_mod::lemma_small_mod(0, m as nat);
        }
        assert(fmul(m, fmul(m, w1, w2), 0) == 0) by {
            vstd::arithmetic::mul::lemma_mul_basics(fmul(m, w1, w2));
            vstd::arithmetic::div_mod::lemma_small_mod(0, m as nat);
        }
        assert(fmul(m, fmul(m, w2, w2), 0) == 0) by {
            vstd::arithmetic::mul::lemma_mul_basics(fmul(m, w2, w2));
            vstd::arithmetic::div_mod::lemma_small_mod(0, m as nat);
        }
    } else {
        vstd::arithmetic::power2::lemma_pow2_adds((i - 1) as nat, 1);
        vstd::arithmetic::power2::lemma2_to64();
        vstd::arithmetic::power2::lemma_pow2_pos((i - 1) as nat);
        if i < d {
            vstd::arithmetic::power2::lemma_pow2_strictly_increases(i, d);
        }
        let half = pow2((i - 1) as nat) as int;
        let left = j < pow2((i - 1) as nat);
        let ci = pow2(i) - 1 + j;
        let pi = if left {
            pow2((i - 1) as nat) - 1 + j
        } else {
            pow2((i - 1) as nat) - 1 + (j - half)
        };
        let ch_r = nr[ci];
        let ch_c = nc[ci];
        let p_r = nr[pi];
        let p_c = nc[pi];
        let ar = xr[i - 1];
        let ac = xc[i - 1];
        // the mixed residuals, each reduced from one unreduced difference
        let br: int = if left {
            1 - ar
        } else {
            ar
        };
        let bc: int = if left {
            1 - ac
        } else {
            ac
        };
        assert(diff_node(nr, xr, i, j) == (ch_r - p_r * br) % m) by {
            lemma_branch_residual(nr, xr, i, j, d);
        }
        assert(diff_node(nr, xc, i, j) == (ch_r - p_r * bc) % m) by {
            lemma_branch_residual(nr, xc, i, j, d);
        }
        assert(diff_node(nc, xr, i, j) == (ch_c - p_c * br) % m) by {
            lemma_branch_residual(nc, xr, i, j, d);
        }
        assert(diff_node(nc, xc, i, j) == (ch_c - p_c * bc) % m) by {
            lemma_branch_residual(nc, xc, i, j, d);
        }
        // the combined tree's residual reduces from the combined difference
        let lin_n = seq_lin2(w1, w2, nr, nc);
        let lin_x = seq_lin2(w1, w2, xr, xc);
        let ch = w1 * ch_r + w2 * ch_c;
        let p = w1 * p_r + w2 * p_c;
        let b = w1 * br + w2 * bc;
        assert(lin_n[ci] == (ch) % m) by {
            vstd::arithmetic::div_mod::lemma_add_mod_noop(w1 * ch_r, w2 * ch_c, m);
            vstd::arithmetic::div_mod::lemma_mod_twice(ch, m);
        }
        assert(lin_n[pi] == (p) % m) by {
            vstd::arithmetic::div_mod::lemma_add_mod_noop(w1 * p_r, w2 * p_c, m);
            vstd::arithmetic::div_mod::lemma_mod_twice(p, m);
        }
        assert(lin_x[i - 1] == (w1 * ar + w2 * ac) % m) by {
            vstd::arithmetic::div_mod::lemma_add_mod_noop(w1 * ar, w2 * ac, m);
            vstd::arithmetic::div_mod::lemma_mod_twice(w1 * ar + w2 * ac, m);
        }
        // the combined branch weight is congruent to `b` shifted by `s - 1`
        let a_comb = w1 * ar + w2 * ac;
        let w_comb: int = if left {
            fsub(m, 1, a_comb % m)
        } else {
            a_comb % m
        };
        assert(diff_node(lin_n, lin_x, i, j) == fsub(m, ch % m, fmul(m, p % m, w_comb)));
        if left {
            // 1 - (w1 ar + w2 ac) == b - (s - 1)
            assert(w_comb == (1 - a_comb) % m) by {
                vstd::arithmetic::div_mod::lemma_sub_mod_noop_right(1, a_comb, m);
            }
            assert(b == s - a_comb) by {
                vstd::arithmetic::mul::lemma_mul_is_distributive_sub(w1, 1, ar);
                vstd::arithmetic::mul::lemma_mul_is_distributive_sub(w2, 1, ac);
            }
            assert((1 - a_comb) % m == b % m) by {
                assert(b - (1 - a_comb) == s - 1);
                vstd::arithmetic::div_mod::lemma_mod_add_multiples_vanish(1 - a_comb, m);
                lemma_congruent_by_multiple(1 - a_comb, b, m);
            }
            assert(w_comb == b % m);
        } else {
            assert(b == a_comb);
            assert(w_comb == b % m);
        }
        // both sides reduce to unreduced sums that differ by a multiple of m
        assert(fsub(m, ch % m, fmul(m, p % m, b % m)) == (ch - p * b) % m) by {
            vstd::arithmetic::div_mod::lemma_mul_mod_noop_general(p, b, m);
            vstd::arithmetic::div_mod::lemma_sub_mod_noop(ch, p * b, m);
            vstd::arithmetic::div_mod::lemma_sub_mod_noop_right(ch % m, p * b, m);
        }
        lemma_diff_node_algebra(m, w1, w2, ch_r, ch_c, p_r, p_c, br, bc);
    }
}

/// A residual unreduced: one subtraction of a product.
proof fn lemma_branch_residual(n: Seq<int>, x: Seq<int>, i: nat, j: nat, d: nat)
    requires
        n.len() == 2 * pow2(d) - 1,
        x.len() == d,
        0 < i <= d,
        j < pow2(i),
    ensures
        diff_node(n, x, i, j) == (node_at(n, i, j) - node_at(
            n,
            (i - 1) as nat,
            (if j < pow2((i - 1) as nat) {
                j
            } else {
                (j - pow2((i - 1) as nat)) as nat
            }),
        ) * (if j < pow2((i - 1) as nat) {
            1 - x[i - 1]
        } else {
            x[i - 1]
        })) % fr_ord(),
{
    let m = fr_ord();
    vstd::arithmetic::power2::lemma_pow2_pos((i - 1) as nat);
    if j < pow2((i - 1) as nat) {
        let pv = node_at(n, (i - 1) as nat, j);
        assert(fmul(m, pv, fsub(m, 1, x[i - 1])) == (pv * (1 - x[i - 1])) % m) by {
            vstd::arithmetic::div_mod::lemma_mul_mod_noop_right(pv, 1 - x[i - 1], m);
        }
        vstd::arithmetic::div_mod::lemma_sub_mod_noop_right(node_at(n, i, j), pv * (1 - x[i - 1]),
            m);
    } else {
        let pv = node_at(n, (i - 1) as nat, (j - pow2((i - 1) as nat)) as nat);
        assert(fmul(m, pv, x[i - 1]) == (pv * x[i - 1]) % m) by {
            vstd::arithmetic::div_mod::lemma_mul_mod_noop_right(pv, x[i - 1], m);
        }
        vstd::arithmetic::div_mod::lemma_sub_mod_noop_right(node_at(n, i, j), pv * x[i - 1], m);
    }
}

/// Two integers whose difference is a multiple of the modulus are
/// congruent.
proof fn lemma_congruent_by_multiple(a: int, b: int, m: int)
    requires
        m > 0,
        (b - a) % m == 0,
    ensures
        a % m == b % m,
{
    vstd::arithmetic::div_mod::lemma_sub_mod_noop(b, a, m);
    vstd::arithmetic::div_mod::lemma_mod_twice(b - a, m);
    let k = (b - a) / m;
    vstd::arithmetic::div_mod::lemma_fundamental_div_mod(b - a, m);
    assert(b == a + m * k);
    vstd::arithmetic::div_mod::lemma_mod_multiples_vanish(k, a, m);
}

/// The four weighted mixed residuals, reduced and summed, equal the
/// residual of the combined node against the combined branch weight, when
/// the weights sum to one modulo `m`.
proof fn lemma_diff_node_algebra(
    m: int,
    w1: int,
    w2: int,
    ch_r: int,
    ch_c: int,
    p_r: int,
    p_c: int,
    br: int,
    bc: int,
)
    requires
        m > 1,
        (w1 + w2) % m == 1,
    ensures
        fadd(
            m,
            fadd(m, fmul(m, fmul(m, w1, w1), (ch_r - p_r * br) % m), fmul(m, fmul(m, w1, w2), (ch_r
                - p_r * bc) % m)),
            fadd(m, fmul(m, fmul(m, w1, w2), (ch_c - p_c * br) % m), fmul(m, fmul(m, w2, w2), (ch_c
                - p_c * bc) % m)),
        ) == ((w1 * ch_r + w2 * ch_c) - (w1 * p_r + w2 * p_c) * (w1 * br + w2 * bc)) % m,
{
    let s = w1 + w2;
    vstd::arithmetic::div_mod::lemma_sub_mod_noop(s, 1, m);
    vstd::arithmetic::div_mod::lemma_small_mod(1, m as nat);
    vstd::arithmetic::div_mod::lemma_small_mod(0, m as nat);
    assert((s - 1) % m == 0);
    let urr = ch_r - p_r * br;
    let urc = ch_r - p_r * bc;
    let ucr = ch_c - p_c * br;
    let ucc = ch_c - p_c * bc;
    let q11 = w1 * w1;
    let q12 = w1 * w2;
    let q22 = w2 * w2;
    // unreduce each weighted residual
    assert(fmul(m, fmul(m, w1, w1), urr % m) == (q11 * urr) % m) by {
        vstd::arithmetic::div_mod::lemma_mul_mod_noop_general(q11, urr, m);
    }
    assert(fmul(m, fmul(m, w1, w2), urc % m) == (q12 * urc) % m) by {
        vstd::arithmetic::div_mod::lemma_mul_mod_noop_general(q12, urc, m);
    }
    assert(fmul(m, fmul(m, w1, w2), ucr % m) == (q12 * ucr) % m) by {
        vstd::arithmetic::div_mod::lemma_mul_mod_noop_general(q12, ucr, m);
    }
    assert(fmul(m, fmul(m, w2, w2), ucc % m) == (q22 * ucc) % m) by {
        vstd::arithmetic::div_mod::lemma_mul_mod_noop_general(q22, ucc, m);
    }
    let big = q11 * urr + q12 * urc + q12 * ucr + q22 * ucc;
    assert(fadd(m, fadd(m, (q11 * urr) % m, (q12 * urc) % m), fadd(m, (q12 * ucr) % m, (q22
        * ucc) % m)) == big % m) by {
        vstd::arithmetic::div_mod::lemma_add_mod_noop(q11 * urr, q12 * urc, m);
        vstd::arithmetic::div_mod::lemma_add_mod_noop(q12 * ucr, q22 * ucc, m);
        vstd::arithmetic::div_mod::lemma_add_mod_noop(q11 * urr + q12 * urc, q12 * ucr + q22 * ucc,
            m);
        vstd::arithmetic::div_mod::lemma_mod_twice(q11 * urr + q12 * urc, m);
        vstd::arithmetic::div_mod::lemma_mod_twice(q12 * ucr + q22 * ucc, m);
        vstd::arithmetic::div_mod::lemma_mod_twice(big, m);
    }
    // the unreduced sum is the combined residual plus a vanishing multiple
    let ch = w1 * ch_r + w2 * ch_c;
    let p = w1 * p_r + w2 * p_c;
    let b = w1 * br + w2 * bc;
    assert(q11 * urr == q11 * ch_r - q11 * (p_r * br)) by {
        vstd::arithmetic::mul::lemma_mul_is_distributive_sub(q11, ch_r, p_r * br);
    }
    assert(q12 * urc == q12 * ch_r - q12 * (p_r * bc)) by {
        vstd::arithmetic::mul::lemma_mul_is_distributive_sub(q12, ch_r, p_r * bc);
    }
    assert(q12 * ucr == q12 * ch_c - q12 * (p_c * br)) by {
        vstd::arithmetic::mul::lemma_mul_is_distributive_sub(q12, ch_c, p_c * br);
    }
    assert(q22 * ucc == q22 * ch_c - q22 * (p_c * bc)) by {
        vstd::arithmetic::mul::lemma_mul_is_distributive_sub(q22, ch_c, p_c * bc);
    }
    assert(p * b == q11 * (p_r * br) + q12 * (p_r * bc) + q12 * (p_c * br) + q22 * (p_c * bc)) by {
        lemma_affine_product(w1, w2, p_r, p_c, br, bc);
    }
    assert(q11 * ch_r + q12 * ch_r == (w1 * s) * ch_r) by {
        vstd::arithmetic::mul::lemma_mul_is_distributive_add(w1, w1, w2);
        vstd::arithmetic::mul::lemma_mul_is_distributive_add_other_way(ch_r, q11, q12);
        vstd::arithmetic::mul::lemma_mul_is_distributive_add_other_way(ch_r, w1 * w1, w1 * w2);
    }
    assert(q12 * ch_c + q22 * ch_c == (w2 * s) * ch_c) by {
        vstd::arithmetic::mul::lemma_mul_is_distributive_add(w2, w1, w2);
        vstd::arithmetic::mul::lemma_mul_is_commutative(w2, w1);
        vstd::arithmetic::mul::lemma_mul_is_distributive_add_other_way(ch_c, q12, q22);
        vstd::arithmetic::mul::lemma_mul_is_distributive_add_other_way(ch_c, w2 * w1, w2 * w2);
        assert(w2 * w1 + w2 * w2 == w2 * s);
    }
    assert((w1 * s) * ch_r == w1 * ch_r + (s - 1) * (w1 * ch_r)) by {
        vstd::arithmetic::mul::lemma_mul_is_commutative(w1, s);
        vstd::arithmetic::mul::lemma_mul_is_associative(s, w1, ch_r);
        vstd::arithmetic::mul::lemma_mul_is_distributive_add_other_way(w1 * ch_r, 1, s - 1);
    }
    assert((w2 * s) * ch_c == w2 * ch_c + (s - 1) * (w2 * ch_c)) by {
        vstd::arithmetic::mul::lemma_mul_is_commutative(w2, s);
        vstd::arithmetic::mul::lemma_mul_is_associative(s, w2, ch_c);
        vstd::arithmetic::mul::lemma_mul_is_distributive_add_other_way(w2 * ch_c, 1, s - 1);
    }
    let extra = (s - 1) * (w1 * ch_r) + (s - 1) * (w2 * ch_c);
    assert(big == (ch - p * b) + extra);
    assert(extra == (s - 1) * ch) by {
        vstd::arithmetic::mul::lemma_mul_is_distributive_add(s - 1, w1 * ch_r, w2 * ch_c);
    }
    assert(((s - 1) * ch) % m == 0) by {
        vstd::arithmetic::div_mod::lemma_mul_mod_noop_left(s - 1, ch, m);
        vstd::arithmetic::div_mod::lemma_small_mod(0, m as nat);
        assert((0 * ch) % m == 0) by {
            vstd::arithmetic::mul::lemma_mul_basics(ch);
            vstd::arithmetic::div_mod::lemma_small_mod(0, m as nat);
        }
    }
    assert(big % m == (ch - p * b) % m) by {
        vstd::arithmetic::div_mod::lemma_fundamental_div_mod((s - 1) * ch, m);
        let k = ((s - 1) * ch) / m;
        assert((s - 1) * ch == m * k);
        vstd::arithmetic::div_mod::lemma_mod_multiples_vanish(k, ch - p * b, m);
        assert(big == m * k + (ch - p * b));
    }
}

/// Reversal commutes with entry-wise affine combination.
proof fn lemma_rev_lin(w1: int, w2: int, a: Seq<int>, b: Seq<int>)
    requires
        a.len() == b.len(),
    ensures
        rev(seq_lin2(w1, w2, a, b)) == seq_lin2(w1, w2, rev(a), rev(b)),
{
    assert(rev(seq_lin2(w1, w2, a, b)) =~= seq_lin2(w1, w2, rev(a), rev(b)));
}

/// Taking leaves commutes with entry-wise affine combination.
proof fn lemma_leaves_lin(w1: int, w2: int, a: Seq<int>, b: Seq<int>, d: nat)
    requires
        a.len() == 2 * pow2(d) - 1,
        b.len() == a.len(),
    ensures
        leaves_of(seq_lin2(w1, w2, a, b), d) == seq_lin2(w1, w2, leaves_of(a, d), leaves_of(b, d)),
{
    vstd::arithmetic::power2::lemma_pow2_pos(d);
    assert(leaves_of(seq_lin2(w1, w2, a, b), d) =~= seq_lin2(w1, w2, leaves_of(a, d), leaves_of(b,
        d)));
}

/// The residual tree of an affinely combined tree against the combined
/// point is the four-way combination of the mixed residual trees.
proof fn lemma_diff_levels_affine(
    w1: int,
    w2: int,
    nr: Seq<int>,
    nc: Seq<int>,
    xr: Seq<int>,
    xc: Seq<int>,
    d: nat,
)
    requires
        (w1 + w2) % fr_ord() == 1,
        nr.len() == 2 * pow2(d) - 1,
        nc.len() == nr.len(),
        xr.len() == d,
        xc.len() == d,
    ensures
        diff_levels(seq_lin2(w1, w2, nr, nc), seq_lin2(w1, w2, xr, xc), d) == seq_quad(
            fmul(fr_ord(), w1, w1),
            fmul(fr_ord(), w1, w2),
            fmul(fr_ord(), w1, w2),
            fmul(fr_ord(), w2, w2),
            diff_levels(nr, xr, d),
            diff_levels(nr, xc, d),
            diff_levels(nc, xr, d),
            diff_levels(nc, xc, d),
        ),
{
    let lhs = diff_levels(seq_lin2(w1, w2, nr, nc), seq_lin2(w1, w2, xr, xc), d);
    let rhs = seq_quad(fmul(fr_ord(), w1, w1), fmul(fr_ord(), w1, w2), fmul(fr_ord(), w1, w2),
        fmul(fr_ord(), w2, w2), diff_levels(nr, xr, d), diff_levels(nr, xc, d), diff_levels(nc,
        xr, d), diff_levels(nc, xc, d));
    lemma_diff_levels_len(seq_lin2(w1, w2, nr, nc), seq_lin2(w1, w2, xr, xc), d);
    lemma_diff_levels_len(nr, xr, d);
    lemma_diff_levels_len(nr, xc, d);
    lemma_diff_levels_len(nc, xr, d);
    lemma_diff_levels_len(nc, xc, d);
    assert forall|idx: int| 0 <= idx < lhs.len() implies lhs[idx] == rhs[idx] by {
        let (l, j) = index_level(d, idx);
        lemma_diff_levels_index(seq_lin2(w1, w2, nr, nc), seq_lin2(w1, w2, xr, xc), d, l, j);
        lemma_diff_levels_index(nr, xr, d, l, j);
        lemma_diff_levels_index(nr, xc, d, l, j);
        lemma_diff_levels_index(nc, xr, d, l, j);
        lemma_diff_levels_index(nc, xc, d, l, j);
        lemma_diff_node_affine(w1, w2, nr, nc, xr, xc, d, l, j);
    }
    assert(lhs =~= rhs);
}

/// The mixed error term: the error decomposition evaluated with the
/// witness-side components (row commitments, tree nodes, partial
/// polynomial, claimed value) of one accumulator against the point-side
/// components (evaluation point and leaf trees) of another.  With both
/// sides equal it is that accumulator's own error term.
pub open spec fn e_mix_raw(
    kx: Seq<int>,
    ky: Seq<int>,
    kp: int,
    vech: Seq<int>,
    du: Seq<int>,
    txu: Seq<int>,
    tyu: Seq<int>,
    xd: nat,
    yd: nat,
    xv: Seq<int>,
    yv: Seq<int>,
    txv: Seq<int>,
    tyv: Seq<int>,
    zu: int,
    fu: Seq<int>,
) -> int {
    fadd(
        fr_ord(),
        fadd(
            fr_ord(),
            fadd(
                fr_ord(),
                dot_mod(fr_ord(), kx, diff_levels(txu, rev(xv), xd)),
                dot_mod(fr_ord(), ky, diff_levels(tyu, rev(yv), yd)),
            ),
            fmul(fr_ord(), fsub(fr_ord(), dot_mod(fr_ord(), fu, leaves_of(tyv, yd)), zu), kp),
        ),
        fadd(
            fr_ord(),
            dot_mod(fr_ord(), vech, fu),
            fneg(fr_ord(), dot_mod(fr_ord(), du, leaves_of(txv, xd))),
        ),
    )
}

/// The error chain over reduced pieces, as one reduced sum.
proof fn lemma_e_chain(m: int, a: int, b: int, f: int, zslot: int, h: int, g: int, kp: int)
    requires
        m > 1,
    ensures
        fadd(m, fadd(m, fadd(m, a % m, b % m), fmul(m, fsub(m, f % m, zslot), kp)), fadd(m, h % m,
            fneg(m, g % m))) == (a + b + (f - zslot) * kp + h - g) % m,
{
    vstd::arithmetic::div_mod::lemma_sub_mod_noop(f, zslot, m);
    vstd::arithmetic::div_mod::lemma_sub_mod_noop_right(f % m, zslot, m);
    vstd::arithmetic::div_mod::lemma_mod_twice(zslot, m);
    assert(fsub(m, f % m, zslot) == (f - zslot) % m) by {
        vstd::arithmetic::div_mod::lemma_sub_mod_noop_right(f % m, zslot, m);
        vstd::arithmetic::div_mod::lemma_sub_mod_noop(f, zslot, m);
    }
    vstd::arithmetic::div_mod::lemma_mul_mod_noop_left(f - zslot, kp, m);
    vstd::arithmetic::div_mod::lemma_add_mod_noop(a, b, m);
    vstd::arithmetic::div_mod::lemma_mod_twice(a + b, m);
    vstd::arithmetic::div_mod::lemma_mod_twice((f - zslot) * kp, m);
    vstd::arithmetic::div_mod::lemma_add_mod_noop(a + b, (f - zslot) * kp, m);
    assert(fneg(m, g % m) == (0 - g) % m) by {
        vstd::arithmetic::div_mod::lemma_sub_mod_noop_right(0, g, m);
    }
    vstd::arithmetic::div_mod::lemma_add_mod_noop(h, 0 - g, m);
    vstd::arithmetic::div_mod::lemma_mod_twice(0 - g, m);
    vstd::arithmetic::div_mod::lemma_mod_twice(h, m);
    vstd::arithmetic::div_mod::lemma_mod_twice(h + (0 - g), m);
    vstd::arithmetic::div_mod::lemma_add_mod_noop(a + b + (f - zslot) * kp, h + (0 - g), m);
    vstd::arithmetic::div_mod::lemma_mod_twice(a + b + (f - zslot) * kp, m);
}

/// Reduced pair weights in a four-term sum can be taken unreduced.
proof fn lemma_quad_sum_unreduce(m: int, w1: int, w2: int, t1: int, t2: int, t3: int, t4: int)
    requires
        m > 1,
    ensures
        (fmul(m, w1, w1) * t1 + fmul(m, w1, w2) * t2 + fmul(m, w1, w2) * t3 + fmul(m, w2, w2)
            * t4) % m == ((w1 * w1) * t1 + (w1 * w2) * t2 + (w1 * w2) * t3 + (w2 * w2) * t4) % m,
{
    let q11 = fmul(m, w1, w1);
    let q12 = fmul(m, w1, w2);
    let q22 = fmul(m, w2, w2);
    // replace each reduced weight one at a time inside the sum
    assert((q11 * t1 + q12 * t2 + q12 * t3 + q22 * t4) % m == ((w1 * w1) * t1 + q12 * t2 + q12
        * t3 + q22 * t4) % m) by {
        vstd::arithmetic::div_mod::lemma_mul_mod_noop_left(w1 * w1, t1, m);
        lemma_congruent_shift(q11 * t1, (w1 * w1) * t1, q12 * t2 + q12 * t3 + q22 * t4, m);
    }
    assert(((w1 * w1) * t1 + q12 * t2 + q12 * t3 + q22 * t4) % m == ((w1 * w1) * t1 + (w1 * w2)
        * t2 + q12 * t3 + q22 * t4) % m) by {
        vstd::arithmetic::div_mod::lemma_mul_mod_noop_left(w1 * w2, t2, m);
        lemma_congruent_shift(q12 * t2, (w1 * w2) * t2, (w1 * w1) * t1 + q12 * t3 + q22 * t4, m);
    }
    assert(((w1 * w1) * t1 + (w1 * w2) * t2 + q12 * t3 + q22 * t4) % m == ((w1 * w1) * t1 + (w1
        * w2) * t2 + (w1 * w2) * t3 + q22 * t4) % m) by {
        vstd::arithmetic::div_mod::lemma_mul_mod_noop_left(w1 * w2, t3, m);
        lemma_congruent_shift(q12 * t3, (w1 * w2) * t3, (w1 * w1) * t1 + (w1 * w2) * t2 + q22 * t4,
            m);
    }
    assert(((w1 * w1) * t1 + (w1 * w2) * t2 + (w1 * w2) * t3 + q22 * t4) % m == ((w1 * w1) * t1 + (
        w1 * w2) * t2 + (w1 * w2) * t3 + (w2 * w2) * t4) % m) by {
        vstd::arithmetic::div_mod::lemma_mul_mod_noop_left(w2 * w2, t4, m);
        lemma_congruent_shift(q22 * t4, (w2 * w2) * t4, (w1 * w1) * t1 + (w1 * w2) * t2 + (w1 * w2)
            * t3, m);
    }
}

/// Congruent summands keep sums congruent.
proof fn lemma_congruent_shift(a: int, b: int, rest: int, m: int)
    requires
        m > 0,
        a % m == b % m,
    ensures
        (a + rest) % m == (b + rest) % m,
{
    vstd::arithmetic::div_mod::lemma_add_mod_noop(a, rest, m);
    vstd::arithmetic::div_mod::lemma_add_mod_noop(b, rest, m);
}

/// The ring identity behind the error decomposition: the combined
/// unreduced sum equals the weighted mixed sums, up to a multiple of the
/// modulus carried by the weight defect `s - 1`.
proof fn lemma_master_ring(
    w1: int,
    w2: int,
    axrr: int,
    axrc: int,
    axcr: int,
    axcc: int,
    ayrr: int,
    ayrc: int,
    aycr: int,
    aycc: int,
    frr: int,
    frc: int,
    fcr: int,
    fcc: int,
    grr: int,
    grc: int,
    gcr: int,
    gcc: int,
    hr: int,
    hc: int,
    zr: int,
    zc: int,
    kp: int,
)
    ensures
        ({
            let s = w1 + w2;
            let sx = (w1 * w1) * axrr + (w1 * w2) * axrc + (w1 * w2) * axcr + (w2 * w2) * axcc;
            let sy = (w1 * w1) * ayrr + (w1 * w2) * ayrc + (w1 * w2) * aycr + (w2 * w2) * aycc;
            let sf = (w1 * w1) * frr + (w1 * w2) * frc + (w1 * w2) * fcr + (w2 * w2) * fcc;
            let sg = (w1 * w1) * grr + (w1 * w2) * grc + (w1 * w2) * gcr + (w2 * w2) * gcc;
            let sh = w1 * hr + w2 * hc;
            let zt = w1 * zr + w2 * zc;
            let nrr = axrr + ayrr + (frr - zr) * kp + hr - grr;
            let nrc = axrc + ayrc + (frc - zr) * kp + hr - grc;
            let ncr = axcr + aycr + (fcr - zc) * kp + hc - gcr;
            let ncc = axcc + aycc + (fcc - zc) * kp + hc - gcc;
            let nquad = (w1 * w1) * nrr + (w1 * w2) * nrc + (w1 * w2) * ncr + (w2 * w2) * ncc;
            sx + sy + (sf - zt) * kp + sh - sg == nquad + (s - 1) * (zt * kp - sh)
        }),
{
    let s = w1 + w2;
    let q11 = w1 * w1;
    let q12 = w1 * w2;
    let q22 = w2 * w2;
    let zt = w1 * zr + w2 * zc;
    let sh = w1 * hr + w2 * hc;
    let sf = q11 * frr + q12 * frc + q12 * fcr + q22 * fcc;
    // expand each weighted mixed sum
    assert(q11 * (axrr + ayrr + (frr - zr) * kp + hr - grr) == q11 * axrr + q11 * ayrr + q11 * ((
        frr - zr) * kp) + q11 * hr - q11 * grr) by {
        lemma_expand_n(q11, axrr, ayrr, (frr - zr) * kp, hr, grr);
    }
    assert(q12 * (axrc + ayrc + (frc - zr) * kp + hr - grc) == q12 * axrc + q12 * ayrc + q12 * ((
        frc - zr) * kp) + q12 * hr - q12 * grc) by {
        lemma_expand_n(q12, axrc, ayrc, (frc - zr) * kp, hr, grc);
    }
    assert(q12 * (axcr + aycr + (fcr - zc) * kp + hc - gcr) == q12 * axcr + q12 * aycr + q12 * ((
        fcr - zc) * kp) + q12 * hc - q12 * gcr) by {
        lemma_expand_n(q12, axcr, aycr, (fcr - zc) * kp, hc, gcr);
    }
    assert(q22 * (axcc + aycc + (fcc - zc) * kp + hc - gcc) == q22 * axcc + q22 * aycc + q22 * ((
        fcc - zc) * kp) + q22 * hc - q22 * gcc) by {
        lemma_expand_n(q22, axcc, aycc, (fcc - zc) * kp, hc, gcc);
    }
    // the F-with-z products split into F and z shares
    assert(q11 * ((frr - zr) * kp) == q11 * (frr * kp) - q11 * (zr * kp)) by {
        lemma_split_fz(q11, frr, zr, kp);
    }
    assert(q12 * ((frc - zr) * kp) == q12 * (frc * kp) - q12 * (zr * kp)) by {
        lemma_split_fz(q12, frc, zr, kp);
    }
    assert(q12 * ((fcr - zc) * kp) == q12 * (fcr * kp) - q12 * (zc * kp)) by {
        lemma_split_fz(q12, fcr, zc, kp);
    }
    assert(q22 * ((fcc - zc) * kp) == q22 * (fcc * kp) - q22 * (zc * kp)) by {
        lemma_split_fz(q22, fcc, zc, kp);
    }
    // the combined F share equals the sum of the mixed F shares
    assert((sf - zt) * kp == q11 * (frr * kp) + q12 * (frc * kp) + q12 * (fcr * kp) + q22 * (fcc
        * kp) - (w1 * (zr * kp) + w2 * (zc * kp))) by {
        vstd::arithmetic::mul::lemma_mul_is_distributive_sub_other_way(kp, sf, zt);
        vstd::arithmetic::mul::lemma_mul_is_distributive_add_other_way(kp, q11 * frr + q12 * frc
            + q12 * fcr, q22 * fcc);
        vstd::arithmetic::mul::lemma_mul_is_distributive_add_other_way(kp, q11 * frr + q12 * frc,
            q12 * fcr);
        vstd::arithmetic::mul::lemma_mul_is_distributive_add_other_way(kp, q11 * frr, q12 * frc);
        vstd::arithmetic::mul::lemma_mul_is_associative(q11, frr, kp);
        vstd::arithmetic::mul::lemma_mul_is_associative(q12, frc, kp);
        vstd::arithmetic::mul::lemma_mul_is_associative(q12, fcr, kp);
        vstd::arithmetic::mul::lemma_mul_is_associative(q22, fcc, kp);
        vstd::arithmetic::mul::lemma_mul_is_distributive_add_other_way(kp, w1 * zr, w2 * zc);
        vstd::arithmetic::mul::lemma_mul_is_associative(w1, zr, kp);
        vstd::arithmetic::mul::lemma_mul_is_associative(w2, zc, kp);
    }
    // the mixed z shares regroup through the weight sum
    assert(q11 * (zr * kp) + q12 * (zr * kp) == (w1 * s) * (zr * kp) && q12 * (zc * kp) + q22 * (zc
        * kp) == (w2 * s) * (zc * kp)) by {
        vstd::arithmetic::mul::lemma_mul_is_distributive_add(w1, w1, w2);
        vstd::arithmetic::mul::lemma_mul_is_distributive_add_other_way(zr * kp, q11, q12);
        vstd::arithmetic::mul::lemma_mul_is_distributive_add(w2, w1, w2);
        vstd::arithmetic::mul::lemma_mul_is_commutative(w2, w1);
        vstd::arithmetic::mul::lemma_mul_is_distributive_add_other_way(zc * kp, w2 * w1, q22);
    }
    assert((w1 * s) * (zr * kp) == w1 * (zr * kp) + (s - 1) * (w1 * (zr * kp))) by {
        lemma_weight_defect(w1, s, zr * kp);
    }
    assert((w2 * s) * (zc * kp) == w2 * (zc * kp) + (s - 1) * (w2 * (zc * kp))) by {
        lemma_weight_defect(w2, s, zc * kp);
    }
    // the mixed H shares regroup likewise
    assert(q11 * hr + q12 * hr == (w1 * s) * hr && q12 * hc + q22 * hc == (w2 * s) * hc) by {
        vstd::arithmetic::mul::lemma_mul_is_distributive_add(w1, w1, w2);
        vstd::arithmetic::mul::lemma_mul_is_distributive_add_other_way(hr, q11, q12);
        vstd::arithmetic::mul::lemma_mul_is_distributive_add(w2, w1, w2);
        vstd::arithmetic::mul::lemma_mul_is_commutative(w2, w1);
        vstd::arithmetic::mul::lemma_mul_is_distributive_add_other_way(hc, w2 * w1, q22);
    }
    assert((w1 * s) * hr == w1 * hr + (s - 1) * (w1 * hr)) by {
        lemma_weight_defect(w1, s, hr);
    }
    assert((w2 * s) * hc == w2 * hc + (s - 1) * (w2 * hc)) by {
        lemma_weight_defect(w2, s, hc);
    }
    // the slack collects into one product
    assert((s - 1) * (zt * kp - sh) == (s - 1) * (w1 * (zr * kp)) + (s - 1) * (w2 * (zc * kp)) - ((
        s - 1) * (w1 * hr) + (s - 1) * (w2 * hc))) by {
        vstd::arithmetic::mul::lemma_mul_is_distributive_sub(s - 1, zt * kp, sh);
        vstd::arithmetic::mul::lemma_mul_is_distributive_add_other_way(kp, w1 * zr, w2 * zc);
        vstd::arithmetic::mul::lemma_mul_is_associative(w1, zr, kp);
        vstd::arithmetic::mul::lemma_mul_is_associative(w2, zc, kp);
        vstd::arithmetic::mul::lemma_mul_is_distributive_add(s - 1, w1 * (zr * kp), w2 * (zc
            * kp));
        vstd::arithmetic::mul::lemma_mul_is_distributive_add(s - 1, w1 * hr, w2 * hc);
    }
}

/// Distributes one weight over a five-part sum.
proof fn lemma_expand_n(q: int, a: int, b: int, c: int, h: int, g: int)
    ensures
        q * (a + b + c + h - g) == q * a + q * b + q * c + q * h - q * g,
{
    vstd::arithmetic::mul::lemma_mul_is_distributive_sub(q, a + b + c + h, g);
    vstd::arithmetic::mul::lemma_mul_is_distributive_add(q, a + b + c, h);
    vstd::arithmetic::mul::lemma_mul_is_distributive_add(q, a + b, c);
    vstd::arithmetic::mul::lemma_mul_is_distributive_add(q, a, b);
}

/// Splits a weighted difference-product into its two shares.
proof fn lemma_split_fz(q: int, f: int, z: int, kp: int)
    ensures
        q * ((f - z) * kp) == q * (f * kp) - q * (z * kp),
{
    vstd::arithmetic::mul::lemma_mul_is_distributive_sub_other_way(kp, f, z);
    vstd::arithmetic::mul::lemma_mul_is_distributive_sub(q, f * kp, z * kp);
}

/// A weight times the weight sum is the weight plus the defect share.
proof fn lemma_weight_defect(w: int, s: int, x: int)
    ensures
        (w * s) * x == w * x + (s - 1) * (w * x),
{
    vstd::arithmetic::mul::lemma_mul_is_commutative(w, s);
    vstd::arithmetic::mul::lemma_mul_is_associative(s, w, x);
    vstd::arithmetic::mul::lemma_mul_is_distributive_add_other_way(w * x, 1, s - 1);
}

/// The error term of the affine combination of two accumulators' raw
/// components splits into the four weighted mixed error terms, provided
/// the weights sum to one.
proof fn lemma_e_raw_affine(
    w1: int,
    w2: int,
    kx: Seq<int>,
    ky: Seq<int>,
    kp: int,
    vech: Seq<int>,
    dr: Seq<int>,
    dc: Seq<int>,
    txr: Seq<int>,
    txc: Seq<int>,
    tyr: Seq<int>,
    tyc: Seq<int>,
    xd: nat,
    yd: nat,
    xr: Seq<int>,
    xc: Seq<int>,
    yr: Seq<int>,
    yc: Seq<int>,
    zr: int,
    zc: int,
    fr: Seq<int>,
    fc: Seq<int>,
)
    requires
        (w1 + w2) % fr_ord() == 1,
        txr.len() == 2 * pow2(xd) - 1,
        txc.len() == txr.len(),
        kx.len() == txr.len(),
        tyr.len() == 2 * pow2(yd) - 1,
        tyc.len() == tyr.len(),
        ky.len() == tyr.len(),
        xr.len() == xd,
        xc.len() == xd,
        yr.len() == yd,
        yc.len() == yd,
        fr.len() == pow2(yd),
        fc.len() == pow2(yd),
        vech.len() == pow2(yd),
        dr.len() == pow2(xd),
        dc.len() == pow2(xd),
    ensures
        e_raw(kx, ky, kp, vech, seq_lin2(w1, w2, dr, dc), seq_lin2(w1, w2, txr, txc), seq_lin2(w1,
            w2, tyr, tyc), xd, yd, seq_lin2(w1, w2, xr, xc), seq_lin2(w1, w2, yr, yc), lin2(w1, w2,
            zr, zc), seq_lin2(w1, w2, fr, fc)) == fadd(
            fr_ord(),
            fadd(fr_ord(), fmul(fr_ord(), fmul(fr_ord(), w1, w1), e_mix_raw(kx, ky, kp, vech, dr,
                txr, tyr, xd, yd, xr, yr, txr, tyr, zr, fr)), fmul(fr_ord(), fmul(fr_ord(), w1,
                w2), e_mix_raw(kx, ky, kp, vech, dr, txr, tyr, xd, yd, xc, yc, txc, tyc, zr, fr))),
            fadd(fr_ord(), fmul(fr_ord(), fmul(fr_ord(), w1, w2), e_mix_raw(kx, ky, kp, vech, dc,
                txc, tyc, xd, yd, xr, yr, txr, tyr, zc, fc)), fmul(fr_ord(), fmul(fr_ord(), w2,
                w2), e_mix_raw(kx, ky, kp, vech, dc, txc, tyc, xd, yd, xc, yc, txc, tyc, zc, fc))),
        ),
{
    let m = fr_ord();
    let q11v = fmul(m, w1, w1);
    let q12v = fmul(m, w1, w2);
    let q22v = fmul(m, w2, w2);
    let s = w1 + w2;
    vstd::arithmetic::power2::lemma_pow2_pos(xd);
    vstd::arithmetic::power2::lemma_pow2_pos(yd);

    // the residual trees of the combination split four ways
    let dlx_rr = diff_levels(txr, rev(xr), xd);
    let dlx_rc = diff_levels(txr, rev(xc), xd);
    let dlx_cr = diff_levels(txc, rev(xr), xd);
    let dlx_cc = diff_levels(txc, rev(xc), xd);
    let dly_rr = diff_levels(tyr, rev(yr), yd);
    let dly_rc = diff_levels(tyr, rev(yc), yd);
    let dly_cr = diff_levels(tyc, rev(yr), yd);
    let dly_cc = diff_levels(tyc, rev(yc), yd);
    lemma_rev_lin(w1, w2, xr, xc);
    lemma_rev_lin(w1, w2, yr, yc);
    lemma_diff_levels_affine(w1, w2, txr, txc, rev(xr), rev(xc), xd);
    lemma_diff_levels_affine(w1, w2, tyr, tyc, rev(yr), rev(yc), yd);
    lemma_diff_levels_len(txr, rev(xr), xd);
    lemma_diff_levels_len(txr, rev(xc), xd);
    lemma_diff_levels_len(txc, rev(xr), xd);
    lemma_diff_levels_len(txc, rev(xc), xd);
    lemma_diff_levels_len(tyr, rev(yr), yd);
    lemma_diff_levels_len(tyr, rev(yc), yd);
    lemma_diff_levels_len(tyc, rev(yr), yd);
    lemma_diff_levels_len(tyc, rev(yc), yd);
    lemma_dot_mod_quad_right(q11v, q12v, q12v, q22v, kx, dlx_rr, dlx_rc, dlx_cr, dlx_cc);
    lemma_dot_mod_quad_right(q11v, q12v, q12v, q22v, ky, dly_rr, dly_rc, dly_cr, dly_cc);
    let axrr = dot(kx, dlx_rr);
    let axrc = dot(kx, dlx_rc);
    let axcr = dot(kx, dlx_cr);
    let axcc = dot(kx, dlx_cc);
    let ayrr = dot(ky, dly_rr);
    let ayrc = dot(ky, dly_rc);
    let aycr = dot(ky, dly_cr);
    let aycc = dot(ky, dly_cc);
    lemma_quad_sum_unreduce(m, w1, w2, axrr, axrc, axcr, axcc);
    lemma_quad_sum_unreduce(m, w1, w2, ayrr, ayrc, aycr, aycc);
    let sxu = (w1 * w1) * axrr + (w1 * w2) * axrc + (w1 * w2) * axcr + (w2 * w2) * axcc;
    let syu = (w1 * w1) * ayrr + (w1 * w2) * ayrc + (w1 * w2) * aycr + (w2 * w2) * aycc;
    assert(dot_mod(m, kx, diff_levels(seq_lin2(w1, w2, txr, txc), rev(seq_lin2(w1, w2, xr, xc)),
        xd)) == sxu % m);
    assert(dot_mod(m, ky, diff_levels(seq_lin2(w1, w2, tyr, tyc), rev(seq_lin2(w1, w2, yr, yc)),
        yd)) == syu % m);

    // the claimed-value inner product splits four ways
    let lyr = leaves_of(tyr, yd);
    let lyc = leaves_of(tyc, yd);
    lemma_leaves_lin(w1, w2, tyr, tyc, yd);
    lemma_dot_mod_bilin(w1, w2, fr, fc, lyr, lyc);
    let frr = dot(fr, lyr);
    let frc = dot(fr, lyc);
    let fcr = dot(fc, lyr);
    let fcc = dot(fc, lyc);
    let sfu = (w1 * w1) * frr + (w1 * w2) * frc + (w1 * w2) * fcr + (w2 * w2) * fcc;
    assert(dot_mod(m, seq_lin2(w1, w2, fr, fc), leaves_of(seq_lin2(w1, w2, tyr, tyc), yd)) == sfu
        % m);

    // the polynomial commitment share is linear
    lemma_dot_mod_lin_right(w1, w2, vech, fr, fc);
    let hr = dot(vech, fr);
    let hc = dot(vech, fc);
    let shu = w1 * hr + w2 * hc;
    assert(dot_mod(m, vech, seq_lin2(w1, w2, fr, fc)) == shu % m) by {
        vstd::arithmetic::div_mod::lemma_mul_mod_noop_right(w1, hr, m);
        vstd::arithmetic::div_mod::lemma_mul_mod_noop_right(w2, hc, m);
        vstd::arithmetic::div_mod::lemma_add_mod_noop(w1 * hr, w2 * hc, m);
        vstd::arithmetic::div_mod::lemma_mod_twice(shu, m);
    }

    // the row-commitment share splits four ways
    let lxr = leaves_of(txr, xd);
    let lxc = leaves_of(txc, xd);
    lemma_leaves_lin(w1, w2, txr, txc, xd);
    lemma_dot_mod_bilin(w1, w2, dr, dc, lxr, lxc);
    let grr = dot(dr, lxr);
    let grc = dot(dr, lxc);
    let gcr = dot(dc, lxr);
    let gcc = dot(dc, lxc);
    let sgu = (w1 * w1) * grr + (w1 * w2) * grc + (w1 * w2) * gcr + (w2 * w2) * gcc;
    assert(dot_mod(m, seq_lin2(w1, w2, dr, dc), leaves_of(seq_lin2(w1, w2, txr, txc), xd)) == sgu
        % m);

    // assemble the combined chain into one reduced sum
    let zt = w1 * zr + w2 * zc;
    let zcomb = lin2(w1, w2, zr, zc);
    assert(zcomb == zt % m) by {
        vstd::arithmetic::div_mod::lemma_add_mod_noop(w1 * zr, w2 * zc, m);
        vstd::arithmetic::div_mod::lemma_mod_twice(zt, m);
    }
    lemma_e_chain(m, sxu, syu, sfu, zcomb, shu, sgu, kp);
    let ncomb = sxu + syu + (sfu - zcomb) * kp + shu - sgu;
    let ncombp = sxu + syu + (sfu - zt) * kp + shu - sgu;
    assert(ncomb % m == ncombp % m) by {
        vstd::arithmetic::div_mod::lemma_fundamental_div_mod(zt, m);
        let k = zt / m;
        assert(zt - zcomb == m * k);
        assert((sfu - zcomb) * kp == (sfu - zt) * kp + (m * k) * kp) by {
            vstd::arithmetic::mul::lemma_mul_is_distributive_add_other_way(kp, sfu - zt, m * k);
        }
        assert((m * k) * kp == m * (k * kp)) by {
            vstd::arithmetic::mul::lemma_mul_is_associative(m, k, kp);
        }
        assert(ncomb == m * (k * kp) + ncombp);
        vstd::arithmetic::div_mod::lemma_mod_multiples_vanish(k * kp, ncombp, m);
    }

    // each mixed error term is one reduced sum
    let nrr = axrr + ayrr + (frr - zr) * kp + hr - grr;
    let nrc = axrc + ayrc + (frc - zr) * kp + hr - grc;
    let ncr = axcr + aycr + (fcr - zc) * kp + hc - gcr;
    let ncc = axcc + aycc + (fcc - zc) * kp + hc - gcc;
    lemma_e_chain(m, axrr, ayrr, frr, zr, hr, grr, kp);
    lemma_e_chain(m, axrc, ayrc, frc, zr, hr, grc, kp);
    lemma_e_chain(m, axcr, aycr, fcr, zc, hc, gcr, kp);
    lemma_e_chain(m, axcc, aycc, fcc, zc, hc, gcc, kp);
    assert(e_mix_raw(kx, ky, kp, vech, dr, txr, tyr, xd, yd, xr, yr, txr, tyr, zr, fr) == nrr % m);
    assert(e_mix_raw(kx, ky, kp, vech, dr, txr, tyr, xd, yd, xc, yc, txc, tyc, zr, fr) == nrc % m);
    assert(e_mix_raw(kx, ky, kp, vech, dc, txc, tyc, xd, yd, xr, yr, txr, tyr, zc, fc) == ncr % m);
    assert(e_mix_raw(kx, ky, kp, vech, dc, txc, tyc, xd, yd, xc, yc, txc, tyc, zc, fc) == ncc % m);

    // the weighted mixed sums collapse to one reduced sum
    let nquad = (w1 * w1) * nrr + (w1 * w2) * nrc + (w1 * w2) * ncr + (w2 * w2) * ncc;
    assert(fadd(m, fadd(m, fmul(m, q11v, nrr % m), fmul(m, q12v, nrc % m)), fadd(m, fmul(m, q12v,
        ncr % m), fmul(m, q22v, ncc % m))) == nquad % m) by {
        vstd::arithmetic::div_mod::lemma_mul_mod_noop_general(w1 * w1, nrr, m);
        vstd::arithmetic::div_mod::lemma_mul_mod_noop_general(w1 * w2, nrc, m);
        vstd::arithmetic::div_mod::lemma_mul_mod_noop_general(w1 * w2, ncr, m);
        vstd::arithmetic::div_mod::lemma_mul_mod_noop_general(w2 * w2, ncc, m);
        vstd::arithmetic::div_mod::lemma_add_mod_noop((w1 * w1) * nrr, (w1 * w2) * nrc, m);
        vstd::arithmetic::div_mod::lemma_add_mod_noop((w1 * w2) * ncr, (w2 * w2) * ncc, m);
        vstd::arithmetic::div_mod::lemma_add_mod_noop((w1 * w1) * nrr + (w1 * w2) * nrc, (w1 * w2)
            * ncr + (w2 * w2) * ncc, m);
        vstd::arithmetic::div_mod::lemma_mod_twice((w1 * w1) * nrr + (w1 * w2) * nrc, m);
        vstd::arithmetic::div_mod::lemma_mod_twice((w1 * w2) * ncr + (w2 * w2) * ncc, m);
        vstd::arithmetic::div_mod::lemma_mod_twice(nquad, m);
    }

    // the ring identity closes the gap, its defect vanishing modulo m
    lemma_master_ring(w1, w2, axrr, axrc, axcr, axcc, ayrr, ayrc, aycr, aycc, frr, frc, fcr, fcc,
        grr, grc, gcr, gcc, hr, hc, zr, zc, kp);
    assert(ncombp == nquad + (s - 1) * (zt * kp - shu));
    assert(ncombp % m == nquad % m) by {
        vstd::arithmetic::div_mod::lemma_sub_mod_noop(s, 1, m);
        vstd::arithmetic::div_mod::lemma_small_mod(1, m as nat);
        vstd::arithmetic::div_mod::lemma_small_mod(0, m as nat);
        assert((s - 1) % m == 0);
        vstd::arithmetic::div_mod::lemma_fundamental_div_mod(s - 1, m);
        let k2 = (s - 1) / m;
        assert(s - 1 == m * k2);
        assert((s - 1) * (zt * kp - shu) == m * (k2 * (zt * kp - shu))) by {
            vstd::arithmetic::mul::lemma_mul_is_associative(m, k2, zt * kp - shu);
        }
        vstd::arithmetic::div_mod::lemma_mod_multiples_vanish(k2 * (zt * kp - shu), nquad, m);
        assert(ncombp == m * (k2 * (zt * kp - shu)) + nquad);
    }
}

/// The folded error commitment closes the error identity: the blended
/// errors plus the cross-term share equal the four-way weighted mixed
/// error terms.
proof fn lemma_cross_term_closes(beta: int, err: int, erc: int, ecr: int, ecc: int)
    ensures
        ({
            let m = fr_ord();
            let omb = fsub(m, 1, beta);
            let h = half_spec();
            let hh = fmul(m, h, h);
            let mid = fadd(m, fadd(m, fmul(m, hh, err % m), fmul(m, hh, erc % m)), fadd(m, fmul(m,
                hh, ecr % m), fmul(m, hh, ecc % m)));
            let q = fadd(m, fmul(m, 4, mid), fneg(m, fmul(m, 2, fadd(m, ecc % m, err % m))));
            fadd(m, lin2(beta, omb, err % m, ecc % m), fmul(m, fmul(m, beta, omb), q)) == fadd(
                m,
                fadd(m, fmul(m, fmul(m, beta, beta), err % m), fmul(m, fmul(m, beta, omb), erc
                    % m)),
                fadd(m, fmul(m, fmul(m, beta, omb), ecr % m), fmul(m, fmul(m, omb, omb), ecc % m)),
            )
        }),
{
    let m = fr_ord();
    let omb = fsub(m, 1, beta);
    let h = half_spec();
    let hh = fmul(m, h, h);
    let s = beta + omb;
    assert(s % m == 1) by {
        vstd::arithmetic::div_mod::lemma_add_mod_noop_right(beta, 1 - beta, m);
        vstd::arithmetic::div_mod::lemma_small_mod(1, m as nat);
    }
    // the mid-point term carries one quarter of the total
    let tot = err + erc + ecr + ecc;
    let mid = fadd(m, fadd(m, fmul(m, hh, err % m), fmul(m, hh, erc % m)), fadd(m, fmul(m, hh, ecr
        % m), fmul(m, hh, ecc % m)));
    assert(mid == ((h * h) * tot) % m) by {
        vstd::arithmetic::div_mod::lemma_mul_mod_noop_general(h * h, err, m);
        vstd::arithmetic::div_mod::lemma_mul_mod_noop_general(h * h, erc, m);
        vstd::arithmetic::div_mod::lemma_mul_mod_noop_general(h * h, ecr, m);
        vstd::arithmetic::div_mod::lemma_mul_mod_noop_general(h * h, ecc, m);
        vstd::arithmetic::div_mod::lemma_add_mod_noop((h * h) * err, (h * h) * erc, m);
        vstd::arithmetic::div_mod::lemma_add_mod_noop((h * h) * ecr, (h * h) * ecc, m);
        vstd::arithmetic::div_mod::lemma_add_mod_noop((h * h) * err + (h * h) * erc, (h * h) * ecr
            + (h * h) * ecc, m);
        vstd::arithmetic::div_mod::lemma_mod_twice((h * h) * err + (h * h) * erc, m);
        vstd::arithmetic::div_mod::lemma_mod_twice((h * h) * ecr + (h * h) * ecc, m);
        vstd::arithmetic::mul::lemma_mul_is_distributive_add(h * h, err, erc);
        vstd::arithmetic::mul::lemma_mul_is_distributive_add(h * h, ecr, ecc);
        vstd::arithmetic::mul::lemma_mul_is_distributive_add(h * h, err + erc, ecr + ecc);
        vstd::arithmetic::div_mod::lemma_mod_twice((h * h) * tot, m);
    }
    // four mid-point terms are one total, since twice the half is one
    let q = fadd(m, fmul(m, 4, mid), fneg(m, fmul(m, 2, fadd(m, ecc % m, err % m))));
    let delta = erc + ecr - err - ecc;
    assert(q == delta % m) by {
        assert(2 * h == m + 1) by {
            vstd::arithmetic::div_mod::lemma_fundamental_div_mod(m + 1, 2);
        }
        assert(4 * (h * h) == m * (m + 2) + 1) by {
            vstd::arithmetic::mul::lemma_mul_is_associative(2, h, 2 * h);
            vstd::arithmetic::mul::lemma_mul_is_commutative(h, 2 * h);
            vstd::arithmetic::mul::lemma_mul_is_associative(2, 2 * h, h);
            assert(4 * (h * h) == (2 * h) * (2 * h)) by {
                let hi = h as int;
                vstd::arithmetic::mul::lemma_mul_is_associative(2int, hi, 2 * hi);
                vstd::arithmetic::mul::lemma_mul_is_associative(hi, 2int, hi);
                vstd::arithmetic::mul::lemma_mul_is_commutative(hi, 2int);
                vstd::arithmetic::mul::lemma_mul_is_associative(2int, hi, hi);
                vstd::arithmetic::mul::lemma_mul_is_associative(2int, 2 * hi, hi);
                vstd::arithmetic::mul::lemma_mul_is_associative(2int, 2int, hi * hi);
                vstd::arithmetic::mul::lemma_mul_is_associative(2int, 2int, hi);
            }
            assert((m + 1) * (m + 1) == m * (m + 2) + 1) by {
                vstd::arithmetic::mul::lemma_mul_is_distributive_add(m + 1, m, 1);
                vstd::arithmetic::mul::lemma_mul_is_distributive_add_other_way(m, m, 1);
                vstd::arithmetic::mul::lemma_mul_is_distributive_add(m, m, 2);
            }
        }
        assert(fmul(m, 4, mid) == (4 * ((h * h) * tot)) % m) by {
            vstd::arithmetic::div_mod::lemma_mul_mod_noop_right(4, (h * h) * tot, m);
        }
        assert(4 * ((h * h) * tot) == m * ((m + 2) * tot) + tot) by {
            vstd::arithmetic::mul::lemma_mul_is_associative(4, h * h, tot);
            vstd::arithmetic::mul::lemma_mul_is_distributive_add_other_way(tot, m * (m + 2), 1);
            vstd::arithmetic::mul::lemma_mul_is_associative(m, m + 2, tot);
        }
        assert(fmul(m, 4, mid) == tot % m) by {
            vstd::arithmetic::div_mod::lemma_mod_multiples_vanish((m + 2) * tot, tot, m);
        }
        assert(fmul(m, 2, fadd(m, ecc % m, err % m)) == (2 * (ecc + err)) % m) by {
            vstd::arithmetic::div_mod::lemma_add_mod_noop(ecc, err, m);
            vstd::arithmetic::div_mod::lemma_mul_mod_noop_right(2, ecc + err, m);
        }
        assert(fneg(m, (2 * (ecc + err)) % m) == (0 - 2 * (ecc + err)) % m) by {
            vstd::arithmetic::div_mod::lemma_sub_mod_noop_right(0, 2 * (ecc + err), m);
        }
        assert(q == (tot - 2 * (ecc + err)) % m) by {
            vstd::arithmetic::div_mod::lemma_add_mod_noop(tot, 0 - 2 * (ecc + err), m);
            vstd::arithmetic::div_mod::lemma_mod_twice(tot, m);
            vstd::arithmetic::div_mod::lemma_mod_twice(0 - 2 * (ecc + err), m);
            vstd::arithmetic::div_mod::lemma_mod_twice(tot - 2 * (ecc + err), m);
        }
        assert(tot - 2 * (ecc + err) == delta);
    }
    // both sides reduce to the same unreduced sum, up to the weight defect
    let lhsu = beta * err + omb * ecc + (beta * omb) * delta;
    assert(fadd(m, lin2(beta, omb, err % m, ecc % m), fmul(m, fmul(m, beta, omb), q)) == lhsu
        % m) by {
        vstd::arithmetic::div_mod::lemma_mul_mod_noop_general(beta, err, m);
        vstd::arithmetic::div_mod::lemma_mul_mod_noop_general(omb, ecc, m);
        vstd::arithmetic::div_mod::lemma_add_mod_noop(beta * err, omb * ecc, m);
        vstd::arithmetic::div_mod::lemma_mod_twice(beta * err + omb * ecc, m);
        vstd::arithmetic::div_mod::lemma_mul_mod_noop_general(beta * omb, delta, m);
        vstd::arithmetic::div_mod::lemma_add_mod_noop(beta * err + omb * ecc, (beta * omb) * delta,
            m);
        vstd::arithmetic::div_mod::lemma_mod_twice((beta * omb) * delta, m);
        vstd::arithmetic::div_mod::lemma_mod_twice(lhsu, m);
    }
    let rhsu = (beta * beta) * err + (beta * omb) * erc + (beta * omb) * ecr + (omb * omb) * ecc;
    assert(fadd(m, fadd(m, fmul(m, fmul(m, beta, beta), err % m), fmul(m, fmul(m, beta, omb), erc
        % m)), fadd(m, fmul(m, fmul(m, beta, omb), ecr % m), fmul(m, fmul(m, omb, omb), ecc % m)))
        == rhsu % m) by {
        vstd::arithmetic::div_mod::lemma_mul_mod_noop_general(beta * beta, err, m);
        vstd::arithmetic::div_mod::lemma_mul_mod_noop_general(beta * omb, erc, m);
        vstd::arithmetic::div_mod::lemma_mul_mod_noop_general(beta * omb, ecr, m);
        vstd::arithmetic::div_mod::lemma_mul_mod_noop_general(omb * omb, ecc, m);
        vstd::arithmetic::div_mod::lemma_add_mod_noop((beta * beta) * err, (beta * omb) * erc, m);
        vstd::arithmetic::div_mod::lemma_add_mod_noop((beta * omb) * ecr, (omb * omb) * ecc, m);
        vstd::arithmetic::div_mod::lemma_add_mod_noop((beta * beta) * err + (beta * omb) * erc, (
            beta * omb) * ecr + (omb * omb) * ecc, m);
        vstd::arithmetic::div_mod::lemma_mod_twice((beta * beta) * err + (beta * omb) * erc, m);
        vstd::arithmetic::div_mod::lemma_mod_twice((beta * omb) * ecr + (omb * omb) * ecc, m);
        vstd::arithmetic::div_mod::lemma_mod_twice(rhsu, m);
    }
    // the defect share
    assert(rhsu == lhsu + (s - 1) * (beta * err) + (s - 1) * (omb * ecc)) by {
        assert((beta * beta) * err == beta * err + (s - 1) * (beta * err) - (beta * omb) * err) by {
            assert(beta * s == beta * beta + beta * omb) by {
                vstd::arithmetic::mul::lemma_mul_is_distributive_add(beta, beta, omb);
            }
            lemma_weight_defect(beta, s, err);
            vstd::arithmetic::mul::lemma_mul_is_distributive_add_other_way(err, beta * beta, beta
                * omb);
        }
        assert((omb * omb) * ecc == omb * ecc + (s - 1) * (omb * ecc) - (beta * omb) * ecc) by {
            assert(omb * s == omb * omb + omb * beta) by {
                vstd::arithmetic::mul::lemma_mul_is_distributive_add(omb, omb, beta);
            }
            lemma_weight_defect(omb, s, ecc);
            vstd::arithmetic::mul::lemma_mul_is_distributive_add_other_way(ecc, omb * omb, omb
                * beta);
            vstd::arithmetic::mul::lemma_mul_is_commutative(omb, beta);
        }
        assert((beta * omb) * delta == (beta * omb) * erc + (beta * omb) * ecr - (beta * omb) * err
            - (beta * omb) * ecc) by {
            vstd::arithmetic::mul::lemma_mul_is_distributive_sub(beta * omb, erc + ecr - err, ecc);
            vstd::arithmetic::mul::lemma_mul_is_distributive_sub(beta * omb, erc + ecr, err);
            vstd::arithmetic::mul::lemma_mul_is_distributive_add(beta * omb, erc, ecr);
        }
    }
    // and it vanishes modulo m
    assert(lhsu % m == rhsu % m) by {
        vstd::arithmetic::div_mod::lemma_sub_mod_noop(s, 1, m);
        vstd::arithmetic::div_mod::lemma_small_mod(1, m as nat);
        vstd::arithmetic::div_mod::lemma_small_mod(0, m as nat);
        assert((s - 1) % m == 0);
        vstd::arithmetic::div_mod::lemma_fundamental_div_mod(s - 1, m);
        let k = (s - 1) / m;
        assert((s - 1) * (beta * err) + (s - 1) * (omb * ecc) == m * (k * (beta * err) + k * (omb
            * ecc))) by {
            vstd::arithmetic::mul::lemma_mul_is_associative(m, k, beta * err);
            vstd::arithmetic::mul::lemma_mul_is_associative(m, k, omb * ecc);
            vstd::arithmetic::mul::lemma_mul_is_distributive_add(m, k * (beta * err), k * (omb
                * ecc));
        }
        vstd::arithmetic::div_mod::lemma_mod_multiples_vanish(k * (beta * err) + k * (omb * ecc),
            lhsu, m);
    }
}

/// Folding preserves the two linear certification identities: when both
/// operands' row commitments satisfy the pairing identity against their
/// `C`, and both `T` values carry their witnesses' generator sums, the
/// folded instance satisfies the same two identities against the folded
/// witness.
pub proof fn lemma_fold_preserves_linear_checks(
    srs: &AccSRS,
    beta: int,
    current: &Accumulator,
    running: &Accumulator,
    folded: &Accumulator,
)
    requires
        srs.wf(),
        current.wf(srs),
        running.wf(srs),
        folded.wf(srs),
        // the operands' identities, as `decide` states them
        pairing_check(views(current.witness.vec_D@), views(srs.pc_srs.vec_V@),
            current.instance.C@, srs.pc_srs.V_prime@),
        pairing_check(views(running.witness.vec_D@), views(srs.pc_srs.vec_V@),
            running.instance.C@, srs.pc_srs.V_prime@),
        current.instance.T@ == t_spec(srs, &current.witness),
        running.instance.T@ == t_spec(srs, &running.witness),
        // the folded accumulator is the affine combination the fold builds
        folded.instance.C@ == lin2(beta, fsub(fr_ord(), 1, beta), running.instance.C@,
            current.instance.C@),
        folded.instance.T@ == lin2(beta, fsub(fr_ord(), 1, beta), running.instance.T@,
            current.instance.T@),
        views(folded.witness.vec_D@) == seq_lin2(beta, fsub(fr_ord(), 1, beta), views(
            running.witness.vec_D@), views(current.witness.vec_D@)),
        views(folded.witness.tree_x.nodes@) == seq_lin2(beta, fsub(fr_ord(), 1, beta), views(
            running.witness.tree_x.nodes@), views(current.witness.tree_x.nodes@)),
        views(folded.witness.tree_y.nodes@) == seq_lin2(beta, fsub(fr_ord(), 1, beta), views(
            running.witness.tree_y.nodes@), views(current.witness.tree_y.nodes@)),
    ensures
        pairing_check(views(folded.witness.vec_D@), views(srs.pc_srs.vec_V@),
            folded.instance.C@, srs.pc_srs.V_prime@),
        folded.instance.T@ == t_spec(srs, &folded.witness),
{
    let m = fr_ord();
    let omb = fsub(m, 1, beta);
    let vv = views(srs.pc_srs.vec_V@);
    let vp = srs.pc_srs.V_prime@;

    // the pairing identity
    let dr = views(running.witness.vec_D@);
    let dc = views(current.witness.vec_D@);
    lemma_dot_mod_lin(beta, omb, dr, dc, vv);
    assert(dot_mod(m, views(folded.witness.vec_D@), vv) == fadd(m, fmul(m, beta, fmul(m,
        running.instance.C@, vp)), fmul(m, omb, fmul(m, current.instance.C@, vp))));
    crate::field::lemma_fmul_dist(m, fmul(m, beta, running.instance.C@), fmul(m, omb,
        current.instance.C@), vp);
    crate::field::lemma_fmul_assoc(m, beta, running.instance.C@, vp);
    crate::field::lemma_fmul_assoc(m, omb, current.instance.C@, vp);
    assert(fmul(m, folded.instance.C@, vp) == fadd(m, fmul(m, beta, fmul(m, running.instance.C@,
        vp)), fmul(m, omb, fmul(m, current.instance.C@, vp))));

    // the generator identity for `T`
    let kx = views(srs.k_x@);
    let ky = views(srs.k_y@);
    let nxr = views(running.witness.tree_x.nodes@);
    let nxc = views(current.witness.tree_x.nodes@);
    let nyr = views(running.witness.tree_y.nodes@);
    let nyc = views(current.witness.tree_y.nodes@);
    lemma_dot_mod_lin_right(beta, omb, kx, nxr, nxc);
    lemma_dot_mod_lin_right(beta, omb, ky, nyr, nyc);
    let dxr = dot_mod(m, kx, nxr);
    let dxc = dot_mod(m, kx, nxc);
    let dyr = dot_mod(m, ky, nyr);
    let dyc = dot_mod(m, ky, nyc);
    // both sides collapse to one reduced four-term sum
    assert(t_spec(srs, &folded.witness) == (beta * dxr + omb * dxc + (beta * dyr + omb * dyc))
        % m) by {
        vstd::arithmetic::div_mod::lemma_mul_mod_noop_right(beta, dxr, m);
        vstd::arithmetic::div_mod::lemma_mul_mod_noop_right(omb, dxc, m);
        vstd::arithmetic::div_mod::lemma_mul_mod_noop_right(beta, dyr, m);
        vstd::arithmetic::div_mod::lemma_mul_mod_noop_right(omb, dyc, m);
        vstd::arithmetic::div_mod::lemma_add_mod_noop(beta * dxr, omb * dxc, m);
        vstd::arithmetic::div_mod::lemma_add_mod_noop(beta * dyr, omb * dyc, m);
        vstd::arithmetic::div_mod::lemma_add_mod_noop(beta * dxr + omb * dxc, beta * dyr + omb
            * dyc, m);
        vstd::arithmetic::div_mod::lemma_mod_twice(beta * dxr + omb * dxc, m);
        vstd::arithmetic::div_mod::lemma_mod_twice(beta * dyr + omb * dyc, m);
        vstd::arithmetic::div_mod::lemma_mod_twice(beta * dxr + omb * dxc + (beta * dyr + omb
            * dyc), m);
    }
    assert(folded.instance.T@ == (beta * (dxr + dyr) + omb * (dxc + dyc)) % m) by {
        vstd::arithmetic::div_mod::lemma_add_mod_noop(dxr, dyr, m);
        vstd::arithmetic::div_mod::lemma_add_mod_noop(dxc, dyc, m);
        vstd::arithmetic::div_mod::lemma_mod_twice(dxr + dyr, m);
        vstd::arithmetic::div_mod::lemma_mod_twice(dxc + dyc, m);
        vstd::arithmetic::div_mod::lemma_mul_mod_noop_right(beta, dxr + dyr, m);
        vstd::arithmetic::div_mod::lemma_mul_mod_noop_right(omb, dxc + dyc, m);
        vstd::arithmetic::div_mod::lemma_add_mod_noop(beta * (dxr + dyr), omb * (dxc + dyc), m);
        vstd::arithmetic::div_mod::lemma_mod_twice(beta * (dxr + dyr) + omb * (dxc + dyc), m);
    }
    assert(beta * (dxr + dyr) + omb * (dxc + dyc) == beta * dxr + omb * dxc + (beta * dyr + omb
        * dyc)) by {
        vstd::arithmetic::mul::lemma_mul_is_distributive_add(beta, dxr, dyr);
        vstd::arithmetic::mul::lemma_mul_is_distributive_add(omb, dxc, dyc);
    }
}

/// Fold correctness: folding preserves validity.  When both operands pass
/// `decide` and the folded accumulator is what `prove` returns for them
/// under the challenge `beta` — every instance coordinate and witness
/// component the affine combination, and the folded error commitment
/// additionally carrying `beta * (1 - beta)` times the cross term — then
/// the folded accumulator passes `decide` as well.
pub proof fn lemma_fold_preserves_validity(
    srs: &AccSRS,
    beta: int,
    current: &Accumulator,
    running: &Accumulator,
    folded: &Accumulator,
)
    requires
        srs.wf(),
        current.wf(srs),
        running.wf(srs),
        folded.wf(srs),
        decide_spec(srs, current),
        decide_spec(srs, running),
        folded.instance.C@ == lin2(beta, fsub(fr_ord(), 1, beta), running.instance.C@,
            current.instance.C@),
        folded.instance.T@ == lin2(beta, fsub(fr_ord(), 1, beta), running.instance.T@,
            current.instance.T@),
        folded.instance.E@ == fadd(fr_ord(), lin2(beta, fsub(fr_ord(), 1, beta),
            running.instance.E@, current.instance.E@), fmul(fr_ord(), fmul(fr_ord(), beta, fsub(
            fr_ord(), 1, beta)), q_spec(srs, current, running))),
        views(folded.instance.x@) == seq_lin2(beta, fsub(fr_ord(), 1, beta), views(
            running.instance.x@), views(current.instance.x@)),
        views(folded.instance.y@) == seq_lin2(beta, fsub(fr_ord(), 1, beta), views(
            running.instance.y@), views(current.instance.y@)),
        folded.instance.z@ == lin2(beta, fsub(fr_ord(), 1, beta), running.instance.z@,
            current.instance.z@),
        views(folded.witness.vec_D@) == seq_lin2(beta, fsub(fr_ord(), 1, beta), views(
            running.witness.vec_D@), views(current.witness.vec_D@)),
        views(folded.witness.tree_x.nodes@) == seq_lin2(beta, fsub(fr_ord(), 1, beta), views(
            running.witness.tree_x.nodes@), views(current.witness.tree_x.nodes@)),
        views(folded.witness.tree_y.nodes@) == seq_lin2(beta, fsub(fr_ord(), 1, beta), views(
            running.witness.tree_y.nodes@), views(current.witness.tree_y.nodes@)),
        folded.witness.f_star_poly.table() == seq_lin2(beta, fsub(fr_ord(), 1, beta),
            running.witness.f_star_poly.table(), current.witness.f_star_poly.table()),
    ensures
        decide_spec(srs, folded),
{
    let m = fr_ord();
    let omb = fsub(m, 1, beta);
    lemma_fold_preserves_linear_checks(srs, beta, current, running, folded);

    // raw components of the two operands
    let kx = views(srs.k_x@);
    let ky = views(srs.k_y@);
    let kp = srs.k_prime@;
    let vech = views(srs.pc_srs.vec_H@);
    let dr = views(running.witness.vec_D@);
    let dc = views(current.witness.vec_D@);
    let txr = views(running.witness.tree_x.nodes@);
    let txc = views(current.witness.tree_x.nodes@);
    let tyr = views(running.witness.tree_y.nodes@);
    let tyc = views(current.witness.tree_y.nodes@);
    let xd = running.witness.tree_x.depth as nat;
    let yd = running.witness.tree_y.depth as nat;
    let xr = views(running.instance.x@);
    let xc = views(current.instance.x@);
    let yr = views(running.instance.y@);
    let yc = views(current.instance.y@);
    let zr = running.instance.z@;
    let zc = current.instance.z@;
    let fr = running.witness.f_star_poly.table();
    let fc = current.witness.f_star_poly.table();

    // the four mixed error terms
    let err = e_mix_raw(kx, ky, kp, vech, dr, txr, tyr, xd, yd, xr, yr, txr, tyr, zr, fr);
    let erc = e_mix_raw(kx, ky, kp, vech, dr, txr, tyr, xd, yd, xc, yc, txc, tyc, zr, fr);
    let ecr = e_mix_raw(kx, ky, kp, vech, dc, txc, tyc, xd, yd, xr, yr, txr, tyr, zc, fc);
    let ecc = e_mix_raw(kx, ky, kp, vech, dc, txc, tyc, xd, yd, xc, yc, txc, tyc, zc, fc);

    // the weights of the fold and of the mid-point both sum to one
    assert((beta + omb) % m == 1) by {
        vstd::arithmetic::div_mod::lemma_add_mod_noop_right(beta, 1 - beta, m);
        vstd::arithmetic::div_mod::lemma_small_mod(1, m as nat);
    }
    let h = half_spec();
    assert((h + h) % m == 1) by {
        vstd::arithmetic::div_mod::lemma_fundamental_div_mod(m + 1, 2);
        assert(h + h == m + 1);
        vstd::arithmetic::div_mod::lemma_mod_add_multiples_vanish(1, m);
        vstd::arithmetic::div_mod::lemma_small_mod(1, m as nat);
    }

    // the operands' own error terms are the matched mixed terms
    assert(e_spec(srs, running) == err);
    assert(e_spec(srs, current) == ecc);

    // the folded error requirement splits into the four mixed terms
    lemma_e_raw_affine(beta, omb, kx, ky, kp, vech, dr, dc, txr, txc, tyr, tyc, xd, yd, xr, xc, yr,
        yc, zr, zc, fr, fc);
    assert(e_spec(srs, folded) == e_raw(kx, ky, kp, vech, seq_lin2(beta, omb, dr, dc), seq_lin2(
        beta, omb, txr, txc), seq_lin2(beta, omb, tyr, tyc), xd, yd, seq_lin2(beta, omb, xr, xc),
        seq_lin2(beta, omb, yr, yc), lin2(beta, omb, zr, zc), seq_lin2(beta, omb, fr, fc)));
    assert(e_spec(srs, folded) == fadd(m, fadd(m, fmul(m, fmul(m, beta, beta), err), fmul(m, fmul(
        m, beta, omb), erc)), fadd(m, fmul(m, fmul(m, beta, omb), ecr), fmul(m, fmul(m, omb, omb),
        ecc))));

    // the mid-point error term splits likewise
    lemma_e_raw_affine(h, h, kx, ky, kp, vech, dr, dc, txr, txc, tyr, tyc, xd, yd, xr, xc, yr, yc,
        zr, zc, fr, fc);
    assert(mid_e_spec(srs, current, running) == fadd(m, fadd(m, fmul(m, fmul(m, h, h), err), fmul(
        m, fmul(m, h, h), erc)), fadd(m, fmul(m, fmul(m, h, h), ecr), fmul(m, fmul(m, h, h),
        ecc))));

    // the mixed terms are canonical, so reducing them is the identity
    assert(err % m == err) by {
        lemma_e_mix_canonical(kx, ky, kp, vech, dr, txr, tyr, xd, yd, xr, yr, txr, tyr, zr, fr);
    }
    assert(erc % m == erc) by {
        lemma_e_mix_canonical(kx, ky, kp, vech, dr, txr, tyr, xd, yd, xc, yc, txc, tyc, zr, fr);
    }
    assert(ecr % m == ecr) by {
        lemma_e_mix_canonical(kx, ky, kp, vech, dc, txc, tyc, xd, yd, xr, yr, txr, tyr, zc, fc);
    }
    assert(ecc % m == ecc) by {
        lemma_e_mix_canonical(kx, ky, kp, vech, dc, txc, tyc, xd, yd, xc, yc, txc, tyc, zc, fc);
    }

    // the cross term closes the error identity
    lemma_cross_term_closes(beta, err, erc, ecr, ecc);
    assert(q_spec(srs, current, running) == fadd(m, fmul(m, 4, mid_e_spec(srs, current, running)),
        fneg(m, fmul(m, 2, fadd(m, ecc, err)))));
    assert(folded.instance.E@ == fadd(m, lin2(beta, omb, err, ecc), fmul(m, fmul(m, beta, omb),
        q_spec(srs, current, running))));
    assert(folded.instance.E@ == e_spec(srs, folded));
}

/// A mixed error term is a canonical representative.
proof fn lemma_e_mix_canonical(
    kx: Seq<int>,
    ky: Seq<int>,
    kp: int,
    vech: Seq<int>,
    du: Seq<int>,
    txu: Seq<int>,
    tyu: Seq<int>,
    xd: nat,
    yd: nat,
    xv: Seq<int>,
    yv: Seq<int>,
    txv: Seq<int>,
    tyv: Seq<int>,
    zu: int,
    fu: Seq<int>,
)
    ensures
        e_mix_raw(kx, ky, kp, vech, du, txu, tyu, xd, yd, xv, yv, txv, tyv, zu, fu) % fr_ord()
            == e_mix_raw(kx, ky, kp, vech, du, txu, tyu, xd, yd, xv, yv, txv, tyv, zu, fu),
{
    let m = fr_ord();
    let inner = fadd(
        m,
        fadd(m, dot_mod(m, kx, diff_levels(txu, rev(xv), xd)), dot_mod(m, ky, diff_levels(tyu,
            rev(yv), yd))),
        fmul(m, fsub(m, dot_mod(m, fu, leaves_of(tyv, yd)), zu), kp),
    );
    let tail = fadd(m, dot_mod(m, vech, fu), fneg(m, dot_mod(m, du, leaves_of(txv, xd))));
    assert(e_mix_raw(kx, ky, kp, vech, du, txu, tyu, xd, yd, xv, yv, txv, tyv, zu, fu) == (inner
        + tail) % m);
    vstd::arithmetic::div_mod::lemma_mod_twice(inner + tail, m);
}

/// Copies a scalar vector.
pub fn clone_scalar_vec(v: &Vec<Scalar>) -> (r: Vec<Scalar>)
    ensures
        r@.len() == v@.len(),
        views(r@) == views(v@),
{
    let mut out: Vec<Scalar> = Vec::new();
    let mut k: usize = 0;
    while k < v.len()
        invariant
            k <= v@.len(),
            out@.len() == k,
            forall|t: int| 0 <= t < k ==> #[trigger] out@[t]@ == views(v@)[t],
        decreases v@.len() - k,
    {
        out.push(v[k].clone());
        k = k + 1;
    }
    proof {
        assert(views(out@) =~= views(v@));
    }
    out
}

/// Copies a vector of group elements.
pub fn clone_g1_vec(v: &Vec<G1Elem>) -> (r: Vec<G1Elem>)
    ensures
        r@.len() == v@.len(),
        views(r@) == views(v@),
{
    let mut out: Vec<G1Elem> = Vec::new();
    let mut k: usize = 0;
    while k < v.len()
        invariant
            k <= v@.len(),
            out@.len() == k,
            forall|t: int| 0 <= t < k ==> #[trigger] out@[t]@ == views(v@)[t],
        decreases v@.len() - k,
    {
        out.push(v[k].clone());
        k = k + 1;
    }
    proof {
        assert(views(out@) =~= views(v@));
    }
    out
}

} // verus!
