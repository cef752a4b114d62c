//! The prover side of one accumulation step: it holds the two accumulators
//! being folded, the challenge, and the running companion-curve state, and
//! produces the opcodes and folding data that the verifier replays.

use vstd::prelude::*;
use crate::field::{fadd, fsub, fmul, fq_ord, fr_ord, in_field};
use crate::scalar::{Scalar, BaseScalar, views};
use crate::group::{G1Elem, GrElem, dot_mod};
use crate::accumulator::{AccSRS, Accumulator, AccumulatorInstance, AccumulatorWitness, lin2,
    seq_lin2, q_spec, decide_spec, fiat_shamir_spec, clone_scalar_vec};
use crate::coprocessor::{SecondaryCircuit, secondary_relation};
use crate::ova::{R1CSShape, OvaInstance, OvaWitness, RelaxedOvaInstance, RelaxedOvaWitness,
    SparseMatrix, SparseEntry, commit_T, cross_term_spec, seq_add, seq_scale, zero_seq,
    lemma_trivial_pair_satisfied};
use crate::pcs::{PCSEngine, PolynomialCommitmentSRS, commit_rows, row_views,
    lemma_fresh_pairing_check};
use crate::polynomial::{MultilinearPolynomial, table_row};
use crate::transcript::Transcript;

verus! {

/// The model of a relaxed companion instance: witness commitment, error
/// commitment, public input, relaxation scalar.
pub open spec fn relaxed_model(u: &RelaxedOvaInstance) -> (int, int, Seq<int>, int) {
    (u.commitment@, u.commitment_E@, views(u.X@), u.u@)
}

/// One instance fold over models.
pub open spec fn fold_inst_model(
    m: (int, int, Seq<int>, int),
    com: int,
    x: Seq<int>,
    com_t: int,
    r: int,
) -> (int, int, Seq<int>, int) {
    (
        fadd(fq_ord(), m.0, fmul(fq_ord(), r, com)),
        fadd(fq_ord(), m.1, fmul(fq_ord(), r, com_t)),
        seq_add(m.2, seq_scale(r, x)),
        fadd(fq_ord(), m.3, r),
    )
}

/// One full chain step over models: the cross term against the running
/// state, the folded instance, and the folded witness vectors.
pub open spec fn chain_step(
    shape: &R1CSShape,
    m: (int, int, Seq<int>, int),
    w: Seq<int>,
    e: Seq<int>,
    pp_e: Seq<int>,
    inst_com: int,
    inst_x: Seq<int>,
    wit_w: Seq<int>,
    b: int,
) -> ((int, int, Seq<int>, int), Seq<int>, Seq<int>, Seq<int>) {
    let t = cross_term_spec(shape, m.3, m.2, w, inst_x, wit_w);
    (
        fold_inst_model(m, inst_com, inst_x, dot_mod(fq_ord(), pp_e, t), b),
        seq_add(w, seq_scale(b, wit_w)),
        seq_add(e, seq_scale(b, t)),
        t,
    )
}

/// The prover of one accumulation step.
pub struct AccumulatorVerifierCircuitProver {
    /// the challenge used for the linear combinations, as returned by the
    /// shared Fiat-Shamir derivation
    pub beta: Scalar,
    /// the folding parameters
    pub srs: AccSRS,
    /// the accumulator to be folded in
    pub current_accumulator: Accumulator,
    /// the long-lived accumulator
    pub running_accumulator: Accumulator,
    /// the companion constraint-system shape
    pub shape: R1CSShape,
    /// commitment generators: the witness generators, then the error ones
    pub commitment_pp: Vec<GrElem>,
    pub running_cycle_fold_instance: RelaxedOvaInstance,
    pub running_cycle_fold_witness: RelaxedOvaWitness,
    /// the commitment matrix dimensions
    pub n: u32,
    pub m: u32,
}

impl AccumulatorVerifierCircuitProver {
    /// Every held component has the dimensions its parameters dictate.
    pub open spec fn wf(&self) -> bool {
        &&& self.srs.wf()
        &&& self.current_accumulator.wf(&self.srs)
        &&& self.running_accumulator.wf(&self.srs)
        &&& self.shape.wf()
        &&& self.running_cycle_fold_instance.X@.len() == self.shape.num_io
        &&& self.running_cycle_fold_witness.W@.len() == self.shape.num_vars
        &&& self.running_cycle_fold_witness.E@.len() == self.shape.num_constraints
        &&& self.commitment_pp@.len() == self.shape.num_vars + self.shape.num_constraints
    }

    /// The instance to be folded in.
    pub fn get_current_acc_instance(&self) -> (r: &AccumulatorInstance)
        ensures
            r == &self.current_accumulator.instance,
    {
        &self.current_accumulator.instance
    }

    /// The long-lived instance.
    pub fn get_running_acc_instance(&self) -> (r: &AccumulatorInstance)
        ensures
            r == &self.running_accumulator.instance,
    {
        &self.running_accumulator.instance
    }

    /// Both accumulators pass `decide` and the running companion state
    /// satisfies its relaxed relation.
    pub fn is_satisfied(&self) -> (r: bool)
        requires
            self.wf(),
        ensures
            r == (decide_spec(&self.srs, &self.running_accumulator) && decide_spec(&self.srs,
                &self.current_accumulator) && self.shape.relaxed_ova_sat_spec(
                self.running_cycle_fold_instance.u@, views(self.running_cycle_fold_instance.X@),
                views(self.running_cycle_fold_witness.W@), views(
                self.running_cycle_fold_witness.E@), self.running_cycle_fold_instance.commitment@,
                self.running_cycle_fold_instance.commitment_E@, views(self.commitment_pp@).subrange(
                0, self.shape.num_vars as int), views(self.commitment_pp@).subrange(
                self.shape.num_vars as int, self.shape.num_vars + self.shape.num_constraints))),
    {
        let ok1 = Accumulator::decide(&self.srs, &self.running_accumulator);
        let ok2 = Accumulator::decide(&self.srs, &self.current_accumulator);
        let pp_w = slice_gr(&self.commitment_pp, 0, self.shape.num_vars);
        let pp_e = slice_gr(&self.commitment_pp, self.shape.num_vars, self.shape.num_vars
            + self.shape.num_constraints);
        let ok3 = self.shape.is_relaxed_ova_satisfied(&self.running_cycle_fold_instance,
            &self.running_cycle_fold_witness, &pp_w, &pp_e);
        ok1 && ok2 && ok3
    }

    /// The opcode delegating the linear combination of the two `C`
    /// commitments.
    pub fn compute_auxiliary_input_C(&self) -> (r: SecondaryCircuit)
        ensures
            r.g1@ == self.running_accumulator.instance.C@,
            r.g2@ == self.current_accumulator.instance.C@,
            r.g_out@ == lin2(self.beta@, fsub(fr_ord(), 1, self.beta@),
                self.running_accumulator.instance.C@, self.current_accumulator.instance.C@),
            r.r@ == self.beta@,
            !r.flag,
            secondary_relation(&r),
    {
        let one = Scalar::one();
        let omb = one.sub(&self.beta);
        let g1 = self.running_accumulator.instance.C.clone();
        let g2 = self.current_accumulator.instance.C.clone();
        let g_out = g1.mul(&self.beta).add(&g2.mul(&omb));
        SecondaryCircuit { g1, g2, g_out, r: self.beta.to_base(), flag: false }
    }

    /// The opcode delegating the linear combination of the two `T`
    /// commitments.
    pub fn compute_auxiliary_input_T(&self) -> (r: SecondaryCircuit)
        ensures
            r.g1@ == self.running_accumulator.instance.T@,
            r.g2@ == self.current_accumulator.instance.T@,
            r.g_out@ == lin2(self.beta@, fsub(fr_ord(), 1, self.beta@),
                self.running_accumulator.instance.T@, self.current_accumulator.instance.T@),
            r.r@ == self.beta@,
            !r.flag,
            secondary_relation(&r),
    {
        let one = Scalar::one();
        let omb = one.sub(&self.beta);
        let g1 = self.running_accumulator.instance.T.clone();
        let g2 = self.current_accumulator.instance.T.clone();
        let g_out = g1.mul(&self.beta).add(&g2.mul(&omb));
        SecondaryCircuit { g1, g2, g_out, r: self.beta.to_base(), flag: false }
    }

    /// The opcode delegating the linear blend of the two error commitments.
    pub fn compute_auxiliary_input_E_1(&self) -> (r: SecondaryCircuit)
        ensures
            r.g1@ == self.running_accumulator.instance.E@,
            r.g2@ == self.current_accumulator.instance.E@,
            r.g_out@ == lin2(self.beta@, fsub(fr_ord(), 1, self.beta@),
                self.running_accumulator.instance.E@, self.current_accumulator.instance.E@),
            r.r@ == self.beta@,
            !r.flag,
            secondary_relation(&r),
    {
        let one = Scalar::one();
        let omb = one.sub(&self.beta);
        let g1 = self.running_accumulator.instance.E.clone();
        let g2 = self.current_accumulator.instance.E.clone();
        let g_out = g1.mul(&self.beta).add(&g2.mul(&omb));
        SecondaryCircuit { g1, g2, g_out, r: self.beta.to_base(), flag: false }
    }

    /// The opcode delegating the quadratic cross-term contribution: the
    /// blended error plus `beta * (1 - beta)` times the cross term.
    pub fn compute_auxiliary_input_E_2(&self) -> (r: SecondaryCircuit)
        requires
            self.wf(),
        ensures
            r.g1@ == lin2(self.beta@, fsub(fr_ord(), 1, self.beta@),
                self.running_accumulator.instance.E@, self.current_accumulator.instance.E@),
            r.g2@ == q_spec(&self.srs, &self.current_accumulator, &self.running_accumulator),
            r.g_out@ == fadd(fr_ord(), r.g1@, fmul(fr_ord(), fmul(fr_ord(), self.beta@, fsub(
                fr_ord(), 1, self.beta@)), r.g2@)),
            r.r@ == self.beta@,
            r.flag,
            secondary_relation(&r),
    {
        let one = Scalar::one();
        let omb = one.sub(&self.beta);
        let e1 = self.running_accumulator.instance.E.clone();
        let e2 = self.current_accumulator.instance.E.clone();
        let e_temp = e1.mul(&self.beta).add(&e2.mul(&omb));
        let q = self.compute_proof_Q();
        let bomb = self.beta.mul(&omb);
        let g_out = e_temp.add(&q.mul(&bomb));
        SecondaryCircuit { g1: e_temp, g2: q, g_out, r: self.beta.to_base(), flag: true }
    }

    /// The cross-term commitment of the fold.
    pub fn compute_proof_Q(&self) -> (r: G1Elem)
        requires
            self.wf(),
        ensures
            r@ == q_spec(&self.srs, &self.current_accumulator, &self.running_accumulator),
    {
        let (_, _, q) = Accumulator::prove(&self.srs, &self.beta, &self.current_accumulator,
            &self.running_accumulator);
        q
    }

    /// The folded instance of this step.
    pub fn compute_result_accumulator_instance(&self) -> (r: AccumulatorInstance)
        requires
            self.wf(),
        ensures
            r.C@ == lin2(self.beta@, fsub(fr_ord(), 1, self.beta@),
                self.running_accumulator.instance.C@, self.current_accumulator.instance.C@),
            r.T@ == lin2(self.beta@, fsub(fr_ord(), 1, self.beta@),
                self.running_accumulator.instance.T@, self.current_accumulator.instance.T@),
            r.E@ == fadd(fr_ord(), lin2(self.beta@, fsub(fr_ord(), 1, self.beta@),
                self.running_accumulator.instance.E@, self.current_accumulator.instance.E@), fmul(
                fr_ord(), fmul(fr_ord(), self.beta@, fsub(fr_ord(), 1, self.beta@)), q_spec(
                &self.srs, &self.current_accumulator, &self.running_accumulator))),
            views(r.x@) == seq_lin2(self.beta@, fsub(fr_ord(), 1, self.beta@), views(
                self.running_accumulator.instance.x@), views(self.current_accumulator.instance.x@)),
            views(r.y@) == seq_lin2(self.beta@, fsub(fr_ord(), 1, self.beta@), views(
                self.running_accumulator.instance.y@), views(self.current_accumulator.instance.y@)),
            r.z@ == lin2(self.beta@, fsub(fr_ord(), 1, self.beta@),
                self.running_accumulator.instance.z@, self.current_accumulator.instance.z@),
    {
        let (instance, _, _) = Accumulator::prove(&self.srs, &self.beta,
            &self.current_accumulator, &self.running_accumulator);
        instance
    }

    /// Folds the four opcodes sequentially into the running companion
    /// instance, each step deriving its own cross term against the updated
    /// state, and checks every intermediate pair; returns the four
    /// cross-term commitments and the final instance, or nothing if a
    /// check fails.
    pub fn compute_cycle_fold_proofs_and_final_instance(
        &self,
        aux_c: &(OvaInstance, OvaWitness),
        aux_t: &(OvaInstance, OvaWitness),
        aux_e_1: &(OvaInstance, OvaWitness),
        aux_e_2: &(OvaInstance, OvaWitness),
    ) -> (out: Option<(GrElem, GrElem, GrElem, GrElem, RelaxedOvaInstance)>)
        requires
            self.wf(),
            aux_c.0.X@.len() == self.shape.num_io,
            aux_c.1.W@.len() == self.shape.num_vars,
            aux_t.0.X@.len() == self.shape.num_io,
            aux_t.1.W@.len() == self.shape.num_vars,
            aux_e_1.0.X@.len() == self.shape.num_io,
            aux_e_1.1.W@.len() == self.shape.num_vars,
            aux_e_2.0.X@.len() == self.shape.num_io,
            aux_e_2.1.W@.len() == self.shape.num_vars,
        ensures
            ({
                let b = self.beta@;
                let pp_w = views(self.commitment_pp@).subrange(0, self.shape.num_vars as int);
                let pp_e = views(self.commitment_pp@).subrange(self.shape.num_vars as int,
                    self.shape.num_vars + self.shape.num_constraints);
                let m0 = relaxed_model(&self.running_cycle_fold_instance);
                let w0 = views(self.running_cycle_fold_witness.W@);
                let e0 = views(self.running_cycle_fold_witness.E@);
                let s1 = chain_step(&self.shape, m0, w0, e0, pp_e, aux_c.0.commitment@, views(
                    aux_c.0.X@), views(aux_c.1.W@), b);
                let s2 = chain_step(&self.shape, s1.0, s1.1, s1.2, pp_e, aux_t.0.commitment@,
                    views(aux_t.0.X@), views(aux_t.1.W@), b);
                let s3 = chain_step(&self.shape, s2.0, s2.1, s2.2, pp_e, aux_e_1.0.commitment@,
                    views(aux_e_1.0.X@), views(aux_e_1.1.W@), b);
                let s4 = chain_step(&self.shape, s3.0, s3.1, s3.2, pp_e, aux_e_2.0.commitment@,
                    views(aux_e_2.0.X@), views(aux_e_2.1.W@), b);
                // success exactly when every opcode pair satisfies the fresh
                // relation and every fold lands in the relaxed relation
                &&& (out is Some <==> {
                    &&& self.shape.ova_sat_spec(views(aux_c.0.X@), views(aux_c.1.W@),
                        aux_c.0.commitment@, pp_w)
                    &&& self.shape.relaxed_ova_sat_spec(s1.0.3, s1.0.2, s1.1, s1.2, s1.0.0,
                        s1.0.1, pp_w, pp_e)
                    &&& self.shape.ova_sat_spec(views(aux_t.0.X@), views(aux_t.1.W@),
                        aux_t.0.commitment@, pp_w)
                    &&& self.shape.relaxed_ova_sat_spec(s2.0.3, s2.0.2, s2.1, s2.2, s2.0.0,
                        s2.0.1, pp_w, pp_e)
                    &&& self.shape.ova_sat_spec(views(aux_e_1.0.X@), views(aux_e_1.1.W@),
                        aux_e_1.0.commitment@, pp_w)
                    &&& self.shape.relaxed_ova_sat_spec(s3.0.3, s3.0.2, s3.1, s3.2, s3.0.0,
                        s3.0.1, pp_w, pp_e)
                    &&& self.shape.ova_sat_spec(views(aux_e_2.0.X@), views(aux_e_2.1.W@),
                        aux_e_2.0.commitment@, pp_w)
                    &&& self.shape.relaxed_ova_sat_spec(s4.0.3, s4.0.2, s4.1, s4.2, s4.0.0,
                        s4.0.1, pp_w, pp_e)
                })
                &&& (out is Some ==> {
                    let r = out->0;
                    &&& r.0@ == dot_mod(fq_ord(), pp_e, s1.3)
                    &&& r.1@ == dot_mod(fq_ord(), pp_e, s2.3)
                    &&& r.2@ == dot_mod(fq_ord(), pp_e, s3.3)
                    &&& r.3@ == dot_mod(fq_ord(), pp_e, s4.3)
                    &&& relaxed_model(&r.4) == s4.0
                })
            }),
    {
        let pp_w = slice_gr(&self.commitment_pp, 0, self.shape.num_vars);
        let pp_e = slice_gr(&self.commitment_pp, self.shape.num_vars, self.shape.num_vars
            + self.shape.num_constraints);
        let beta_non_native = self.beta.to_base();
        let mut ok = true;

        let (t1, com_1) = commit_T(&self.shape, &pp_e, &self.running_cycle_fold_instance,
            &self.running_cycle_fold_witness, &aux_c.0, &aux_c.1);
        let u1 = match self.running_cycle_fold_instance.fold(&aux_c.0, &com_1, &beta_non_native) {
            Ok(u) => u,
            Err(_) => {
                proof {
                    assert(false);
                }
                return None;
            },
        };
        let w1 = match self.running_cycle_fold_witness.fold(&aux_c.1, &t1, &beta_non_native) {
            Ok(w) => w,
            Err(_) => {
                proof {
                    assert(false);
                }
                return None;
            },
        };
        if !self.shape.is_ova_satisfied(&aux_c.0, &aux_c.1, &pp_w) {
            ok = false;
        }
        if !self.shape.is_relaxed_ova_satisfied(&u1, &w1, &pp_w, &pp_e) {
            ok = false;
        }

        let (t2, com_2) = commit_T(&self.shape, &pp_e, &u1, &w1, &aux_t.0, &aux_t.1);
        let u2 = match u1.fold(&aux_t.0, &com_2, &beta_non_native) {
            Ok(u) => u,
            Err(_) => {
                proof {
                    assert(false);
                }
                return None;
            },
        };
        let w2 = match w1.fold(&aux_t.1, &t2, &beta_non_native) {
            Ok(w) => w,
            Err(_) => {
                proof {
                    assert(false);
                }
                return None;
            },
        };
        if !self.shape.is_ova_satisfied(&aux_t.0, &aux_t.1, &pp_w) {
            ok = false;
        }
        if !self.shape.is_relaxed_ova_satisfied(&u2, &w2, &pp_w, &pp_e) {
            ok = false;
        }

        let (t3, com_3) = commit_T(&self.shape, &pp_e, &u2, &w2, &aux_e_1.0, &aux_e_1.1);
        let u3 = match u2.fold(&aux_e_1.0, &com_3, &beta_non_native) {
            Ok(u) => u,
            Err(_) => {
                proof {
                    assert(false);
                }
                return None;
            },
        };
        let w3 = match w2.fold(&aux_e_1.1, &t3, &beta_non_native) {
            Ok(w) => w,
            Err(_) => {
                proof {
                    assert(false);
                }
                return None;
            },
        };
        if !self.shape.is_ova_satisfied(&aux_e_1.0, &aux_e_1.1, &pp_w) {
            ok = false;
        }
        if !self.shape.is_relaxed_ova_satisfied(&u3, &w3, &pp_w, &pp_e) {
            ok = false;
        }

        let (t4, com_4) = commit_T(&self.shape, &pp_e, &u3, &w3, &aux_e_2.0, &aux_e_2.1);
        let u4 = match u3.fold(&aux_e_2.0, &com_4, &beta_non_native) {
            Ok(u) => u,
            Err(_) => {
                proof {
                    assert(false);
                }
                return None;
            },
        };
        let w4 = match w3.fold(&aux_e_2.1, &t4, &beta_non_native) {
            Ok(w) => w,
            Err(_) => {
                proof {
                    assert(false);
                }
                return None;
            },
        };
        if !self.shape.is_ova_satisfied(&aux_e_2.0, &aux_e_2.1, &pp_w) {
            ok = false;
        }
        if !self.shape.is_relaxed_ova_satisfied(&u4, &w4, &pp_w, &pp_e) {
            ok = false;
        }

        if !ok {
            return None;
        }
        Some((com_1, com_2, com_3, com_4, u4))
    }
}

impl AccumulatorVerifierCircuitProver {
    /// A prover over two freshly converted random accumulators, with a
    /// minimal companion shape whose single constraint fixes the leading
    /// entry of the constraint vector, and the trivial running companion
    /// state: both accumulators pass `decide`, the challenge is the
    /// Fiat-Shamir squeeze over the sampled instances and their cross term
    /// from an empty history, the running companion pair is the all-zero
    /// one (and satisfies its relation), and `n`, `m` carry the matrix
    /// dimensions.
    #[verifier::rlimit(100)]
    pub fn rand(srs: AccSRS) -> (r: AccumulatorVerifierCircuitProver)
        requires
            srs.wf(),
            srs.pc_srs.x_len@ + srs.pc_srs.y_len@ <= 30,
            srs.pc_srs.degree_x <= u32::MAX,
            srs.pc_srs.degree_y <= u32::MAX,
        ensures
            r.wf(),
            r.srs == srs,
            decide_spec(&r.srs, &r.current_accumulator),
            decide_spec(&r.srs, &r.running_accumulator),
            r.beta@ == fiat_shamir_spec((Seq::<int>::empty(), Seq::<bool>::empty()),
                r.current_accumulator.instance.encoding(),
                r.running_accumulator.instance.encoding(), q_spec(&r.srs, &r.current_accumulator,
                &r.running_accumulator)),
            r.n == r.srs.pc_srs.degree_x as u32,
            r.m == r.srs.pc_srs.degree_y as u32,
            r.running_cycle_fold_instance.u@ == 0,
            views(r.running_cycle_fold_instance.X@) == zero_seq(r.shape.num_io as nat),
            r.running_cycle_fold_instance.commitment@ == 0,
            r.running_cycle_fold_instance.commitment_E@ == 0,
            views(r.running_cycle_fold_witness.W@) == zero_seq(r.shape.num_vars as nat),
            views(r.running_cycle_fold_witness.E@) == zero_seq(r.shape.num_constraints as nat),
            r.shape.relaxed_ova_sat_spec(r.running_cycle_fold_instance.u@, views(
                r.running_cycle_fold_instance.X@), views(r.running_cycle_fold_witness.W@), views(
                r.running_cycle_fold_witness.E@), r.running_cycle_fold_instance.commitment@,
                r.running_cycle_fold_instance.commitment_E@, views(r.commitment_pp@).subrange(0,
                r.shape.num_vars as int), views(r.commitment_pp@).subrange(
                r.shape.num_vars as int, r.shape.num_vars + r.shape.num_constraints)),
    {
        let current_accumulator = random_satisfying_accumulator(&srs);
        let running_accumulator = random_satisfying_accumulator(&srs);
        let beta = derive_step_challenge(&srs, &current_accumulator, &running_accumulator);

        // a minimal companion shape: one constraint, `u * u = u`
        let one = BaseScalar::one();
        let shape = R1CSShape {
            num_constraints: 1,
            num_vars: 1,
            num_io: 1,
            A: SparseMatrix {
                num_rows: 1,
                num_cols: 3,
                entries: vec![SparseEntry { row: 0, col: 0, val: one.clone() }],
            },
            B: SparseMatrix {
                num_rows: 1,
                num_cols: 3,
                entries: vec![SparseEntry { row: 0, col: 0, val: one.clone() }],
            },
            C: SparseMatrix {
                num_rows: 1,
                num_cols: 3,
                entries: vec![SparseEntry { row: 0, col: 0, val: one }],
            },
        };
        let mut commitment_pp: Vec<GrElem> = Vec::new();
        commitment_pp.push(GrElem::rand());
        commitment_pp.push(GrElem::rand());
        let running_cycle_fold_instance = RelaxedOvaInstance::new(&shape);
        let running_cycle_fold_witness = RelaxedOvaWitness::zero(&shape);
        proof {
            lemma_trivial_pair_satisfied(&shape, views(commitment_pp@).subrange(0, 1), views(
                commitment_pp@).subrange(1, 2));
        }
        let n = srs.pc_srs.degree_x as u32;
        let m = srs.pc_srs.degree_y as u32;
        AccumulatorVerifierCircuitProver {
            beta,
            srs,
            current_accumulator,
            running_accumulator,
            shape,
            commitment_pp,
            running_cycle_fold_instance,
            running_cycle_fold_witness,
            n,
            m,
        }
    }
}

/// Cycle-fold agreement: for each of the four opcodes, the combination the
/// coprocessor's relation yields on the companion curve equals the
/// native-field combination the folding engine computes for the same
/// operands — the blended `C`, `T` and error commitments, and the error
/// commitment with its quadratic cross-term share.
pub proof fn lemma_cycle_fold_agreement(
    c_c: &SecondaryCircuit,
    c_t: &SecondaryCircuit,
    c_e1: &SecondaryCircuit,
    c_e2: &SecondaryCircuit,
    beta: int,
    run_c: int,
    cur_c: int,
    run_t: int,
    cur_t: int,
    run_e: int,
    cur_e: int,
    q: int,
)
    requires
        !c_c.flag,
        c_c.r@ == beta,
        c_c.g1@ == run_c,
        c_c.g2@ == cur_c,
        secondary_relation(c_c),
        !c_t.flag,
        c_t.r@ == beta,
        c_t.g1@ == run_t,
        c_t.g2@ == cur_t,
        secondary_relation(c_t),
        !c_e1.flag,
        c_e1.r@ == beta,
        c_e1.g1@ == run_e,
        c_e1.g2@ == cur_e,
        secondary_relation(c_e1),
        c_e2.flag,
        c_e2.r@ == beta,
        c_e2.g1@ == c_e1.g_out@,
        c_e2.g2@ == q,
        secondary_relation(c_e2),
    ensures
        c_c.g_out@ == lin2(beta, fsub(fr_ord(), 1, beta), run_c, cur_c),
        c_t.g_out@ == lin2(beta, fsub(fr_ord(), 1, beta), run_t, cur_t),
        c_e1.g_out@ == lin2(beta, fsub(fr_ord(), 1, beta), run_e, cur_e),
        c_e2.g_out@ == fadd(fr_ord(), lin2(beta, fsub(fr_ord(), 1, beta), run_e, cur_e), fmul(
            fr_ord(), fmul(fr_ord(), beta, fsub(fr_ord(), 1, beta)), q)),
{
}

/// Derives the step challenge for two accumulators from an empty
/// transcript: the cross term is computed first (it does not depend on the
/// challenge), then both instances and the cross term are absorbed and one
/// challenge squeezed.
pub fn derive_step_challenge(srs: &AccSRS, current: &Accumulator, running: &Accumulator) -> (b:
    Scalar)
    requires
        srs.wf(),
        current.wf(srs),
        running.wf(srs),
    ensures
        b@ == fiat_shamir_spec((Seq::<int>::empty(), Seq::<bool>::empty()),
            current.instance.encoding(), running.instance.encoding(), q_spec(srs, current,
            running)),
{
    let zero = Scalar::zero();
    let (_, _, q) = Accumulator::prove(srs, &zero, current, running);
    let mut transcript = Transcript::new("accumulation step");
    Accumulator::compute_fiat_shamir_challenge(&mut transcript, &current.instance,
        &running.instance, &q)
}

/// A fresh accumulator over a random polynomial, opened at a random
/// point: the converted pair is not merely well formed, it passes
/// `decide`.
pub fn random_satisfying_accumulator(srs: &AccSRS) -> (r: Accumulator)
    requires
        srs.wf(),
        srs.pc_srs.x_len@ + srs.pc_srs.y_len@ <= 30,
    ensures
        r.wf(srs),
        decide_spec(srs, &r),
{
    let x_len = srs.pc_srs.get_x_length();
    let y_len = srs.pc_srs.get_y_length();
    proof {
        vstd::arithmetic::power2::lemma_pow2_adds(srs.pc_srs.x_len@, srs.pc_srs.y_len@);
    }
    let poly = MultilinearPolynomial::rand(x_len + y_len);
    let mut x: Vec<Scalar> = Vec::new();
    let mut k: usize = 0;
    while k < x_len
        invariant
            k <= x_len,
            x@.len() == k,
        decreases x_len - k,
    {
        x.push(Scalar::rand());
        k = k + 1;
    }
    let mut y: Vec<Scalar> = Vec::new();
    let mut k2: usize = 0;
    while k2 < y_len
        invariant
            k2 <= y_len,
            y@.len() == k2,
        decreases y_len - k2,
    {
        y.push(Scalar::rand());
        k2 = k2 + 1;
    }
    let mut point: Vec<Scalar> = Vec::new();
    let mut k3: usize = 0;
    while k3 < x_len
        invariant
            k3 <= x_len,
            x@.len() == x_len,
            point@.len() == k3,
        decreases x_len - k3,
    {
        point.push(x[k3].clone());
        k3 = k3 + 1;
    }
    let mut k4: usize = 0;
    while k4 < y_len
        invariant
            k4 <= y_len,
            y@.len() == y_len,
            point@.len() == x_len + k4,
        decreases y_len - k4,
    {
        point.push(y[k4].clone());
        k4 = k4 + 1;
    }
    let z = poly.evaluate(&point);
    let com = PCSEngine::commit(&srs.pc_srs, &poly);
    let c_point = com.C.clone();
    let ghost aux_models = views(com.aux@);
    let ghost f_table = poly.table();
    let opening = PCSEngine::open(&poly, com, &x);
    proof {
        assert(views(opening.vec_D@).len() == aux_models.len());
        assert(opening.vec_D@.len() == srs.pc_srs.degree_x);
    }
    let com_again = crate::pcs::PCSCommitment { C: c_point, aux: Vec::new() };
    let acc = Accumulator::new_accumulator_from_fresh_proof(srs, &com_again, opening, &x, &y, &z);
    proof {
        // the fresh pair also meets the pairing identity, by the trapdoor
        // structure of the parameters
        let m = fr_ord();
        let dx = srs.pc_srs.degree_x as int;
        let dy = srs.pc_srs.degree_y as int;
        vstd::arithmetic::power2::lemma_pow2_adds(srs.pc_srs.x_len@, srs.pc_srs.y_len@);
        assert(acc.instance.C@ == commit_rows(row_views(srs.pc_srs.matrix_H@), f_table, dy, dx));
        assert forall|i: int| 0 <= i < dx implies #[trigger] views(acc.witness.vec_D@)[i]
            == dot_mod(m, views(srs.pc_srs.vec_H@), table_row(f_table, dy, i)) by {
            assert(views(acc.witness.vec_D@)[i] == aux_models[i]);
        }
        lemma_fresh_pairing_check(&srs.pc_srs, f_table, views(acc.witness.vec_D@),
            acc.instance.C@);
    }
    acc
}

/// A contiguous piece of a generator vector.
pub fn slice_gr(v: &Vec<GrElem>, from: usize, to: usize) -> (r: Vec<GrElem>)
    requires
        from <= to <= v@.len(),
    ensures
        r@.len() == to - from,
        views(r@) == views(v@).subrange(from as int, to as int),
{
    let mut out: Vec<GrElem> = Vec::new();
    let mut k: usize = from;
    while k < to
        invariant
            from <= k <= to,
            to <= v@.len(),
            out@.len() == k - from,
            forall|t: int| 0 <= t < k - from ==> #[trigger] out@[t]@ == views(v@)[from + t],
        decreases to - k,
    {
        out.push(v[k].clone());
        k = k + 1;
    }
    proof {
        assert(views(out@) =~= views(v@).subrange(from as int, to as int));
    }
    out
}

} // verus!
