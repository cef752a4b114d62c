//! The three-dimensional variant of the accumulator.
//!
//! Here the commitment matrix has three dimensions: the witness carries an
//! equality tree per dimension and two vectors of partial commitments, the
//! instance carries a secondary commitment `C_y` for the middle dimension,
//! and the error decomposition has four components checked against a
//! four-part `E`.

use vstd::prelude::*;
use vstd::arithmetic::power2::pow2;
use crate::field::{fadd, fsub, fmul, fneg, fr_ord, in_field};
use crate::scalar::{Scalar, views};
use crate::group::{G1Elem, G2Elem, g1_msm, multi_pairing, pairing, dot_mod};
use crate::eq_tree::{EqTree, rev, diff_levels, leaves_of, lemma_difference_is_diff_levels};
use crate::polynomial::MultilinearPolynomial;
use crate::pcs::pairing_check;
use crate::transcript::{Transcript, hist_after_absorb, hist_after_challenge, point_coords,
    sponge_out};
use crate::utils::inner_product;
use crate::accumulator::{AccumulatorInstance, clone_scalar_vec, clone_g1_vec};

verus! {

/// Parameters of the three-dimensional commitment engine, as far as the
/// folding scheme reads them.
pub struct KZH3SRS {
    pub degree_x: usize,
    pub degree_y: usize,
    pub degree_z: usize,
    pub H_z: Vec<G1Elem>,
    pub V_x: Vec<G2Elem>,
    pub V_y: Vec<G2Elem>,
    pub v: G2Elem,
}

impl KZH3SRS {
    /// The generator vectors match the three dimensions.
    pub open spec fn wf(&self) -> bool {
        &&& self.H_z@.len() == self.degree_z
        &&& self.V_x@.len() == self.degree_x
        &&& self.V_y@.len() == self.degree_y
        &&& self.degree_x <= 0x4000_0000
        &&& self.degree_y <= 0x4000_0000
        &&& self.degree_z <= 0x4000_0000
    }
}

/// Public parameters of the three-dimensional folding scheme.
pub struct Acc3SRS {
    /// vector of size `2 * degree_x - 1`
    pub k_x: Vec<G1Elem>,
    /// vector of size `2 * degree_y - 1`
    pub k_y: Vec<G1Elem>,
    /// vector of size `2 * degree_z - 1`
    pub k_z: Vec<G1Elem>,
    pub k_prime: G1Elem,
    pub pc_srs: KZH3SRS,
}

impl Acc3SRS {
    /// The generator vectors match the commitment dimensions.
    pub open spec fn wf(&self) -> bool {
        &&& self.pc_srs.wf()
        &&& self.k_x@.len() == 2 * self.pc_srs.degree_x - 1
        &&& self.k_y@.len() == 2 * self.pc_srs.degree_y - 1
        &&& self.k_z@.len() == 2 * self.pc_srs.degree_z - 1
        &&& self.pc_srs.degree_x >= 1
        &&& self.pc_srs.degree_y >= 1
        &&& self.pc_srs.degree_z >= 1
    }
}

/// The public claim of a three-dimensional accumulator.
pub struct Acc3Instance {
    pub C: G1Elem,
    pub C_y: G1Elem,
    pub T: G1Elem,
    pub E: (G1Elem, G1Elem, G1Elem, G1Elem),
    /// vector of length `log2(degree_x)`
    pub x: Vec<Scalar>,
    /// vector of length `log2(degree_y)`
    pub y: Vec<Scalar>,
    /// vector of length `log2(degree_z)`
    pub z: Vec<Scalar>,
    /// result of polynomial evaluation
    pub output: Scalar,
}

/// The private evidence of a three-dimensional accumulator.
pub struct Acc3Witness {
    pub D_x: Vec<G1Elem>,
    pub D_y: Vec<G1Elem>,
    pub tree_x: EqTree,
    pub tree_y: EqTree,
    pub tree_z: EqTree,
    pub f_star: MultilinearPolynomial,
}

/// A three-dimensional instance together with its witness.
pub struct Accumulator3 {
    pub witness: Acc3Witness,
    pub instance: Acc3Instance,
}

impl Acc3Instance {
    /// The point coordinates have the lengths the parameters dictate.
    pub open spec fn wf(&self, srs: &Acc3SRS) -> bool {
        &&& pow2(self.x@.len()) == srs.pc_srs.degree_x
        &&& pow2(self.y@.len()) == srs.pc_srs.degree_y
        &&& pow2(self.z@.len()) == srs.pc_srs.degree_z
        &&& self.x@.len() <= 30
        &&& self.y@.len() <= 30
        &&& self.z@.len() <= 30
    }

    /// The field elements a transcript absorbs for this instance: the
    /// coordinates of `C`, `T` and the four error components, then the
    /// point coordinates and the claimed output.
    pub open spec fn encoding(&self) -> Seq<int> {
        point_coords(self.C@) + point_coords(self.T@) + point_coords(self.E.0@) + point_coords(
            self.E.1@) + point_coords(self.E.2@) + point_coords(self.E.3@) + views(self.x@)
            + views(self.y@) + views(self.z@) + seq![self.output@]
    }

    /// Returns the field elements a transcript absorbs for this instance.
    pub fn to_sponge_field_elements(&self) -> (r: Vec<Scalar>)
        ensures
            views(r@) == self.encoding(),
    {
        let mut out: Vec<Scalar> = Vec::new();
        let (cx, cy) = self.C.to_sponge_scalars();
        out.push(cx);
        out.push(cy);
        let (tx, ty) = self.T.to_sponge_scalars();
        out.push(tx);
        out.push(ty);
        let (e0x, e0y) = self.E.0.to_sponge_scalars();
        out.push(e0x);
        out.push(e0y);
        let (e1x, e1y) = self.E.1.to_sponge_scalars();
        out.push(e1x);
        out.push(e1y);
        let (e2x, e2y) = self.E.2.to_sponge_scalars();
        out.push(e2x);
        out.push(e2y);
        let (e3x, e3y) = self.E.3.to_sponge_scalars();
        out.push(e3x);
        out.push(e3y);
        let ghost head = views(out@);
        proof {
            assert(head =~= point_coords(self.C@) + point_coords(self.T@) + point_coords(
                self.E.0@) + point_coords(self.E.1@) + point_coords(self.E.2@) + point_coords(
                self.E.3@));
        }
        let mut k: usize = 0;
        while k < self.x.len()
            invariant
                k <= self.x@.len(),
                out@.len() == head.len() + k,
                views(out@).subrange(0, head.len() as int) == head,
                views(out@).subrange(head.len() as int, out@.len() as int) == views(
                    self.x@).subrange(0, k as int),
            decreases self.x@.len() - k,
        {
            out.push(self.x[k].clone());
            proof {
                assert(views(out@).subrange(0, head.len() as int) =~= head);
                assert(views(out@).subrange(head.len() as int, out@.len() as int) =~= views(
                    self.x@).subrange(0, k + 1));
            }
            k = k + 1;
        }
        let ghost head2 = views(out@);
        proof {
            assert(views(self.x@).subrange(0, self.x@.len() as int) =~= views(self.x@));
            assert(head2 =~= head + views(self.x@));
        }
        let mut k2: usize = 0;
        while k2 < self.y.len()
            invariant
                k2 <= self.y@.len(),
                out@.len() == head2.len() + k2,
                views(out@).subrange(0, head2.len() as int) == head2,
                views(out@).subrange(head2.len() as int, out@.len() as int) == views(
                    self.y@).subrange(0, k2 as int),
            decreases self.y@.len() - k2,
        {
            out.push(self.y[k2].clone());
            proof {
                assert(views(out@).subrange(0, head2.len() as int) =~= head2);
                assert(views(out@).subrange(head2.len() as int, out@.len() as int) =~= views(
                    self.y@).subrange(0, k2 + 1));
            }
            k2 = k2 + 1;
        }
        let ghost head3 = views(out@);
        proof {
            assert(views(self.y@).subrange(0, self.y@.len() as int) =~= views(self.y@));
            assert(head3 =~= head2 + views(self.y@));
        }
        let mut k3: usize = 0;
        while k3 < self.z.len()
            invariant
                k3 <= self.z@.len(),
                out@.len() == head3.len() + k3,
                views(out@).subrange(0, head3.len() as int) == head3,
                views(out@).subrange(head3.len() as int, out@.len() as int) == views(
                    self.z@).subrange(0, k3 as int),
            decreases self.z@.len() - k3,
        {
            out.push(self.z[k3].clone());
            proof {
                assert(views(out@).subrange(0, head3.len() as int) =~= head3);
                assert(views(out@).subrange(head3.len() as int, out@.len() as int) =~= views(
                    self.z@).subrange(0, k3 + 1));
            }
            k3 = k3 + 1;
        }
        out.push(self.output.clone());
        proof {
            assert(views(self.x@).subrange(0, self.x@.len() as int) =~= views(self.x@));
            assert(views(self.y@).subrange(0, self.y@.len() as int) =~= views(self.y@));
            assert(views(self.z@).subrange(0, self.z@.len() as int) =~= views(self.z@));
            assert(views(out@) =~= self.encoding());
        }
        out
    }
}

impl Acc3Witness {
    /// The trees match the instance point lengths and the commitment
    /// dimensions.
    pub open spec fn wf(&self, srs: &Acc3SRS, instance: &Acc3Instance) -> bool {
        &&& self.tree_x.wf()
        &&& self.tree_y.wf()
        &&& self.tree_z.wf()
        &&& self.tree_x.depth == instance.x@.len()
        &&& self.tree_y.depth == instance.y@.len()
        &&& self.tree_z.depth == instance.z@.len()
        &&& self.D_x@.len() == srs.pc_srs.degree_x
        &&& self.D_y@.len() == srs.pc_srs.degree_y
        &&& self.f_star.wf()
        &&& self.f_star.num_variables == instance.z@.len()
    }
}

impl Accumulator3 {
    /// Both halves are well formed for the same parameters.
    pub open spec fn wf(&self, srs: &Acc3SRS) -> bool {
        &&& self.instance.wf(srs)
        &&& self.witness.wf(srs, &self.instance)
    }
}

/// The first error component: the generator-weighted residuals of the three
/// trees against the instance point.
pub open spec fn dec1_spec3(srs: &Acc3SRS, acc: &Accumulator3) -> int {
    fadd(
        fr_ord(),
        fadd(
            fr_ord(),
            dot_mod(fr_ord(), views(srs.k_x@), diff_levels(views(acc.witness.tree_x.nodes@), rev(
                views(acc.instance.x@)), acc.witness.tree_x.depth as nat)),
            dot_mod(fr_ord(), views(srs.k_y@), diff_levels(views(acc.witness.tree_y.nodes@), rev(
                views(acc.instance.y@)), acc.witness.tree_y.depth as nat)),
        ),
        dot_mod(fr_ord(), views(srs.k_z@), diff_levels(views(acc.witness.tree_z.nodes@), rev(
            views(acc.instance.z@)), acc.witness.tree_z.depth as nat)),
    )
}

/// The second error component: the claimed-output residual times the extra
/// generator.
pub open spec fn dec2_spec3(srs: &Acc3SRS, acc: &Accumulator3) -> int {
    fmul(
        fr_ord(),
        fsub(
            fr_ord(),
            dot_mod(fr_ord(), acc.witness.f_star.table(), leaves_of(views(
                acc.witness.tree_z.nodes@), acc.witness.tree_z.depth as nat)),
            acc.instance.output@,
        ),
        srs.k_prime@,
    )
}

/// The third error component: the last-dimension commitment of the partial
/// polynomial minus the equality-weighted middle-dimension commitments.
pub open spec fn dec3_spec3(srs: &Acc3SRS, acc: &Accumulator3) -> int {
    fadd(
        fr_ord(),
        dot_mod(fr_ord(), views(srs.pc_srs.H_z@), acc.witness.f_star.table()),
        fneg(fr_ord(), dot_mod(fr_ord(), views(acc.witness.D_y@), leaves_of(views(
            acc.witness.tree_y.nodes@), acc.witness.tree_y.depth as nat))),
    )
}

/// The fourth error component: the secondary commitment minus the
/// equality-weighted first-dimension commitments.
pub open spec fn dec4_spec3(srs: &Acc3SRS, acc: &Accumulator3) -> int {
    fadd(
        fr_ord(),
        acc.instance.C_y@,
        fneg(fr_ord(), dot_mod(fr_ord(), views(acc.witness.D_x@), leaves_of(views(
            acc.witness.tree_x.nodes@), acc.witness.tree_x.depth as nat))),
    )
}

/// What `decide` checks for the three-dimensional variant.
pub open spec fn decide_spec3(srs: &Acc3SRS, acc: &Accumulator3) -> bool {
    &&& pairing_check(views(acc.witness.D_x@), views(srs.pc_srs.V_x@), acc.instance.C@,
        srs.pc_srs.v@)
    &&& acc.instance.T@ == fadd(
        fr_ord(),
        fadd(
            fr_ord(),
            dot_mod(fr_ord(), views(srs.k_x@), views(acc.witness.tree_x.nodes@)),
            dot_mod(fr_ord(), views(srs.k_y@), views(acc.witness.tree_y.nodes@)),
        ),
        dot_mod(fr_ord(), views(srs.k_z@), views(acc.witness.tree_z.nodes@)),
    )
    &&& acc.instance.E.0@ == dec1_spec3(srs, acc)
    &&& acc.instance.E.1@ == dec2_spec3(srs, acc)
    &&& acc.instance.E.2@ == dec3_spec3(srs, acc)
    &&& acc.instance.E.3@ == dec4_spec3(srs, acc)
    &&& pairing_check(views(acc.witness.D_y@), views(srs.pc_srs.V_y@), acc.instance.C_y@,
        srs.pc_srs.v@)
}

impl Accumulator3 {
    /// Derives the folding parameters from the commitment engine's.
    pub fn setup(pc_srs: KZH3SRS) -> (r: Acc3SRS)
        requires
            pc_srs.wf(),
            pc_srs.degree_x >= 1,
            pc_srs.degree_y >= 1,
            pc_srs.degree_z >= 1,
        ensures
            r.wf(),
            r.pc_srs == pc_srs,
    {
        let nx = 2 * pc_srs.degree_x - 1;
        let ny = 2 * pc_srs.degree_y - 1;
        let nz = 2 * pc_srs.degree_z - 1;
        let mut k_x: Vec<G1Elem> = Vec::new();
        let mut k: usize = 0;
        while k < nx
            invariant
                k <= nx,
                k_x@.len() == k,
            decreases nx - k,
        {
            k_x.push(G1Elem::rand());
            k = k + 1;
        }
        let mut k_y: Vec<G1Elem> = Vec::new();
        let mut k2: usize = 0;
        while k2 < ny
            invariant
                k2 <= ny,
                k_y@.len() == k2,
            decreases ny - k2,
        {
            k_y.push(G1Elem::rand());
            k2 = k2 + 1;
        }
        let mut k_z: Vec<G1Elem> = Vec::new();
        let mut k3: usize = 0;
        while k3 < nz
            invariant
                k3 <= nz,
                k_z@.len() == k3,
            decreases nz - k3,
        {
            k_z.push(G1Elem::rand());
            k3 = k3 + 1;
        }
        Acc3SRS { k_x, k_y, k_z, k_prime: G1Elem::rand(), pc_srs }
    }

    /// Pairs copies of an instance and a witness.
    pub fn new(instance: &Acc3Instance, witness: &Acc3Witness) -> (r: Accumulator3)
        ensures
            r.instance.C@ == instance.C@,
            r.instance.C_y@ == instance.C_y@,
            r.instance.T@ == instance.T@,
            r.instance.E.0@ == instance.E.0@,
            r.instance.E.1@ == instance.E.1@,
            r.instance.E.2@ == instance.E.2@,
            r.instance.E.3@ == instance.E.3@,
            views(r.instance.x@) == views(instance.x@),
            views(r.instance.y@) == views(instance.y@),
            views(r.instance.z@) == views(instance.z@),
            r.instance.output@ == instance.output@,
            views(r.witness.D_x@) == views(witness.D_x@),
            views(r.witness.D_y@) == views(witness.D_y@),
            views(r.witness.tree_x.nodes@) == views(witness.tree_x.nodes@),
            r.witness.tree_x.depth == witness.tree_x.depth,
            views(r.witness.tree_y.nodes@) == views(witness.tree_y.nodes@),
            r.witness.tree_y.depth == witness.tree_y.depth,
            views(r.witness.tree_z.nodes@) == views(witness.tree_z.nodes@),
            r.witness.tree_z.depth == witness.tree_z.depth,
            r.witness.f_star.table() == witness.f_star.table(),
            r.witness.f_star.num_variables == witness.f_star.num_variables,
    {
        Accumulator3 {
            instance: Acc3Instance {
                C: instance.C.clone(),
                C_y: instance.C_y.clone(),
                T: instance.T.clone(),
                E: (
                    instance.E.0.clone(),
                    instance.E.1.clone(),
                    instance.E.2.clone(),
                    instance.E.3.clone(),
                ),
                x: clone_scalar_vec(&instance.x),
                y: clone_scalar_vec(&instance.y),
                z: clone_scalar_vec(&instance.z),
                output: instance.output.clone(),
            },
            witness: Acc3Witness {
                D_x: clone_g1_vec(&witness.D_x),
                D_y: clone_g1_vec(&witness.D_y),
                tree_x: clone_tree(&witness.tree_x),
                tree_y: clone_tree(&witness.tree_y),
                tree_z: clone_tree(&witness.tree_z),
                f_star: MultilinearPolynomial {
                    num_variables: witness.f_star.num_variables,
                    evaluation_over_boolean_hypercube: clone_scalar_vec(
                        &witness.f_star.evaluation_over_boolean_hypercube,
                    ),
                },
            },
        }
    }

    /// Replays the transcript schedule shared with the in-circuit verifier:
    /// one three-dimensional instance, one two-dimensional instance, and
    /// the four cross-term commitments, then one squeeze.
    pub fn compute_fiat_shamir_challenge(
        transcript: &mut Transcript,
        instance_1: &Acc3Instance,
        instance_2: &AccumulatorInstance,
        q: (G1Elem, G1Elem, G1Elem, G1Elem),
    ) -> (r: Scalar)
        ensures
            r@ == sponge_out(acc3_challenge_hist(old(transcript)@, instance_1.encoding(),
                instance_2.encoding(), q.0@, q.1@, q.2@, q.3@).0, acc3_challenge_hist(old(
                transcript)@, instance_1.encoding(), instance_2.encoding(), q.0@, q.1@, q.2@,
                q.3@).1),
            in_field(fr_ord(), r@),
            final(transcript)@ == hist_after_challenge(acc3_challenge_hist(old(transcript)@,
                instance_1.encoding(), instance_2.encoding(), q.0@, q.1@, q.2@, q.3@)),
    {
        let enc1 = instance_1.to_sponge_field_elements();
        transcript.append_scalars("instance 1", &enc1);
        let enc2 = instance_2.to_sponge_field_elements();
        transcript.append_scalars("instance 2", &enc2);
        transcript.append_point("Q", &q.0);
        transcript.append_point("Q", &q.1);
        transcript.append_point("Q", &q.2);
        transcript.append_point("Q", &q.3);
        transcript.challenge_scalar("challenge scalar")
    }

    /// The first error component.
    pub fn dec_1(srs: &Acc3SRS, acc: &Accumulator3) -> (r: G1Elem)
        requires
            srs.wf(),
            acc.wf(srs),
        ensures
            r@ == dec1_spec3(srs, acc),
    {
        let error_tree_x = acc.witness.tree_x.difference(&acc.instance.x);
        let error_tree_y = acc.witness.tree_y.difference(&acc.instance.y);
        let error_tree_z = acc.witness.tree_z.difference(&acc.instance.z);
        proof {
            lemma_difference_is_diff_levels(views(error_tree_x.nodes@), views(
                acc.witness.tree_x.nodes@), rev(views(acc.instance.x@)),
                acc.witness.tree_x.depth as nat);
            lemma_difference_is_diff_levels(views(error_tree_y.nodes@), views(
                acc.witness.tree_y.nodes@), rev(views(acc.instance.y@)),
                acc.witness.tree_y.depth as nat);
            lemma_difference_is_diff_levels(views(error_tree_z.nodes@), views(
                acc.witness.tree_z.nodes@), rev(views(acc.instance.z@)),
                acc.witness.tree_z.depth as nat);
        }
        let m1 = g1_msm(&srs.k_x, &error_tree_x.nodes);
        let m2 = g1_msm(&srs.k_y, &error_tree_y.nodes);
        let m3 = g1_msm(&srs.k_z, &error_tree_z.nodes);
        m1.add(&m2).add(&m3)
    }

    /// The second error component.
    pub fn dec_2(srs: &Acc3SRS, acc: &Accumulator3) -> (r: G1Elem)
        requires
            srs.wf(),
            acc.wf(srs),
        ensures
            r@ == dec2_spec3(srs, acc),
    {
        let leaves = acc.witness.tree_z.get_leaves();
        let ip = inner_product(&acc.witness.f_star.evaluation_over_boolean_hypercube, &leaves);
        let e_prime = ip.sub(&acc.instance.output);
        srs.k_prime.mul(&e_prime)
    }

    /// The third error component.
    pub fn dec_3(srs: &Acc3SRS, acc: &Accumulator3) -> (r: G1Elem)
        requires
            srs.wf(),
            acc.wf(srs),
        ensures
            r@ == dec3_spec3(srs, acc),
    {
        let rhs = g1_msm(&srs.pc_srs.H_z, &acc.witness.f_star.evaluation_over_boolean_hypercube);
        let leaves = acc.witness.tree_y.get_leaves();
        let lhs = g1_msm(&acc.witness.D_y, &leaves);
        rhs.add(&lhs.neg())
    }

    /// The fourth error component.
    pub fn dec_4(srs: &Acc3SRS, acc: &Accumulator3) -> (r: G1Elem)
        requires
            srs.wf(),
            acc.wf(srs),
        ensures
            r@ == dec4_spec3(srs, acc),
    {
        let leaves = acc.witness.tree_x.get_leaves();
        let lhs = g1_msm(&acc.witness.D_x, &leaves);
        acc.instance.C_y.add(&lhs.neg())
    }

    /// Certifies a three-dimensional accumulator: the two pairing
    /// identities, the generator identity for `T`, and the four error
    /// identities.
    pub fn decide(srs: &Acc3SRS, acc: &Accumulator3) -> (r: bool)
        requires
            srs.wf(),
            acc.wf(srs),
        ensures
            r == decide_spec3(srs, acc),
    {
        let p1 = multi_pairing(&acc.witness.D_x, &srs.pc_srs.V_x);
        let p2 = pairing(&acc.instance.C, &srs.pc_srs.v);
        if !p1.eq(&p2) {
            return false;
        }
        let m1 = g1_msm(&srs.k_x, &acc.witness.tree_x.nodes);
        let m2 = g1_msm(&srs.k_y, &acc.witness.tree_y.nodes);
        let m3 = g1_msm(&srs.k_z, &acc.witness.tree_z.nodes);
        if !acc.instance.T.eq(&m1.add(&m2).add(&m3)) {
            return false;
        }
        let d1 = Self::dec_1(srs, acc);
        let d2 = Self::dec_2(srs, acc);
        let d3 = Self::dec_3(srs, acc);
        let d4 = Self::dec_4(srs, acc);
        if !acc.instance.E.0.eq(&d1) || !acc.instance.E.1.eq(&d2) || !acc.instance.E.2.eq(&d3)
            || !acc.instance.E.3.eq(&d4) {
            return false;
        }
        let p3 = multi_pairing(&acc.witness.D_y, &srs.pc_srs.V_y);
        let p4 = pairing(&acc.instance.C_y, &srs.pc_srs.v);
        p3.eq(&p4)
    }
}

/// The transcript history after the three-dimensional challenge schedule.
pub open spec fn acc3_challenge_hist(
    h: (Seq<int>, Seq<bool>),
    e1: Seq<int>,
    e2: Seq<int>,
    q0: int,
    q1: int,
    q2: int,
    q3: int,
) -> (Seq<int>, Seq<bool>) {
    hist_after_absorb(
        hist_after_absorb(
            hist_after_absorb(
                hist_after_absorb(
                    hist_after_absorb(hist_after_absorb(h, e1), e2),
                    point_coords(q0),
                ),
                point_coords(q1),
            ),
            point_coords(q2),
        ),
        point_coords(q3),
    )
}

/// Copies a tree.
pub fn clone_tree(t: &EqTree) -> (r: EqTree)
    ensures
        views(r.nodes@) == views(t.nodes@),
        r.depth == t.depth,
{
    EqTree { nodes: clone_scalar_vec(&t.nodes), depth: t.depth }
}

} // verus!
