//! The verifier of one accumulation step, over plain values.
//!
//! It replays what the folding engine did: the challenge derivation from
//! the shared transcript, the opcode operands handed to the coprocessor,
//! the native linear combinations of the instance coordinates, and the
//! companion-curve running-instance update under the challenge powers.
//! Inside a proof system each failed equality is a constraint violation;
//! here it is a refusal.

use vstd::prelude::*;
use crate::field::{fadd, fsub, fmul, fq_ord, fr_ord};
use crate::scalar::{Scalar, BaseScalar, views};
use crate::group::{G1Elem, GrElem};
use crate::accumulator::{Accumulator, AccumulatorInstance, lin2, seq_lin2, fiat_shamir_spec};
use crate::coprocessor::{SecondaryCircuit, secondary_io_spec};
use crate::ova::{OvaInstance, RelaxedOvaInstance};
use crate::prover::{relaxed_model, fold_inst_model};
use crate::transcript::{Transcript, hist_after_absorb, hist_after_challenge, gr_point_coords};

verus! {

/// One accumulation step as the verifier sees it: the challenge in both
/// fields, the four opcodes with their companion instances, the cross-term
/// commitments, the three accumulator instances, and the running companion
/// instance.
pub struct KZH2Verifier {
    /// the challenge used for the linear combinations
    pub beta: Scalar,
    /// the same challenge carried in the companion field
    pub beta_non_native: BaseScalar,
    /// the four opcodes, in the order they are folded
    pub aux_C: SecondaryCircuit,
    pub aux_T: SecondaryCircuit,
    pub aux_E_1: SecondaryCircuit,
    pub aux_E_2: SecondaryCircuit,
    /// the companion instances whose public inputs carry the opcodes
    pub ova_auxiliary_input_C: OvaInstance,
    pub ova_auxiliary_input_T: OvaInstance,
    pub ova_auxiliary_input_E_1: OvaInstance,
    pub ova_auxiliary_input_E_2: OvaInstance,
    /// the cross term of the accumulator fold
    pub cross_term_error_commitment_Q: G1Elem,
    /// the cross-term commitments of the four companion folds
    pub ova_cross_term_error_commitment_C: GrElem,
    pub ova_cross_term_error_commitment_T: GrElem,
    pub ova_cross_term_error_commitment_E_1: GrElem,
    pub ova_cross_term_error_commitment_E_2: GrElem,
    /// the instance to be folded
    pub current_accumulator_instance: AccumulatorInstance,
    /// the running accumulator
    pub running_accumulator_instance: AccumulatorInstance,
    /// the result accumulator
    pub final_accumulator_instance: AccumulatorInstance,
    /// the running companion instance
    pub ova_running_instance: RelaxedOvaInstance,
    /// the commitment matrix dimensions
    pub n: u32,
    pub m: u32,
}

/// Everything the verifier enforces, over the models, given the transcript
/// history the step started from.
pub open spec fn accumulate_checks(v: &KZH2Verifier, h: (Seq<int>, Seq<bool>)) -> bool {
    let b = v.beta@;
    let omb = fsub(fr_ord(), 1, b);
    let cur = &v.current_accumulator_instance;
    let run = &v.running_accumulator_instance;
    let fin = &v.final_accumulator_instance;
    // the two representations of the challenge agree
    &&& v.beta_non_native@ == b
    // the transcript replay produces the challenge
    &&& fiat_shamir_spec(h, cur.encoding(), run.encoding(), v.cross_term_error_commitment_Q@) == b
    // the first opcode blends the `C` commitments into the final one
    &&& v.aux_C.g1@ == run.C@
    &&& v.aux_C.g2@ == cur.C@
    &&& !v.aux_C.flag
    &&& v.aux_C.r@ == v.beta_non_native@
    &&& v.aux_C.g_out@ == fin.C@
    &&& views(v.ova_auxiliary_input_C.X@) == secondary_io_spec(&v.aux_C)
    // the second opcode blends the `T` commitments into the final one
    &&& v.aux_T.g1@ == run.T@
    &&& v.aux_T.g2@ == cur.T@
    &&& !v.aux_T.flag
    &&& v.aux_T.r@ == v.beta_non_native@
    &&& v.aux_T.g_out@ == fin.T@
    &&& views(v.ova_auxiliary_input_T.X@) == secondary_io_spec(&v.aux_T)
    // the third opcode blends the error commitments
    &&& v.aux_E_1.g1@ == run.E@
    &&& v.aux_E_1.g2@ == cur.E@
    &&& !v.aux_E_1.flag
    &&& v.aux_E_1.r@ == v.beta_non_native@
    &&& views(v.ova_auxiliary_input_E_1.X@) == secondary_io_spec(&v.aux_E_1)
    // the fourth opcode adds the quadratic cross-term share to the blend
    &&& v.aux_E_2.g1@ == v.aux_E_1.g_out@
    &&& v.aux_E_2.g2@ == v.cross_term_error_commitment_Q@
    &&& v.aux_E_2.flag
    &&& v.aux_E_2.r@ == v.beta_non_native@
    &&& v.aux_E_2.g_out@ == fin.E@
    &&& views(v.ova_auxiliary_input_E_2.X@) == secondary_io_spec(&v.aux_E_2)
    // the native linear combinations of the coordinates
    &&& cur.x@.len() == run.x@.len()
    &&& cur.y@.len() == run.y@.len()
    &&& fin.x@.len() == run.x@.len()
    &&& fin.y@.len() == run.y@.len()
    &&& views(fin.x@) == seq_lin2(b, omb, views(run.x@), views(cur.x@))
    &&& views(fin.y@) == seq_lin2(b, omb, views(run.y@), views(cur.y@))
    &&& fin.z@ == lin2(b, omb, run.z@, cur.z@)
    // the companion folds can be taken
    &&& v.ova_auxiliary_input_C.X@.len() == v.ova_running_instance.X@.len()
    &&& v.ova_auxiliary_input_T.X@.len() == v.ova_running_instance.X@.len()
    &&& v.ova_auxiliary_input_E_1.X@.len() == v.ova_running_instance.X@.len()
    &&& v.ova_auxiliary_input_E_2.X@.len() == v.ova_running_instance.X@.len()
}

/// The transcript history the step leaves behind: the challenge replay,
/// then the four companion cross-term commitments absorbed in fold order,
/// so that any later challenge binds them.
pub open spec fn accumulate_hist(v: &KZH2Verifier, h: (Seq<int>, Seq<bool>)) -> (
    Seq<int>,
    Seq<bool>,
) {
    let after_challenge = hist_after_challenge(crate::accumulator::fiat_shamir_hist(h,
        v.current_accumulator_instance.encoding(), v.running_accumulator_instance.encoding(),
        v.cross_term_error_commitment_Q@));
    hist_after_absorb(after_challenge, gr_point_coords(v.ova_cross_term_error_commitment_C@)
        + gr_point_coords(v.ova_cross_term_error_commitment_T@) + gr_point_coords(
        v.ova_cross_term_error_commitment_E_1@) + gr_point_coords(
        v.ova_cross_term_error_commitment_E_2@))
}

/// The running companion instance after the four folds under the challenge
/// powers.
pub open spec fn folded_ova_model(v: &KZH2Verifier) -> (int, int, Seq<int>, int) {
    let b = v.beta_non_native@;
    let b2 = fmul(fq_ord(), b, b);
    let b3 = fmul(fq_ord(), b, b2);
    let b4 = fmul(fq_ord(), b, b3);
    let m1 = fold_inst_model(
        relaxed_model(&v.ova_running_instance),
        v.ova_auxiliary_input_C.commitment@,
        views(v.ova_auxiliary_input_C.X@),
        v.ova_cross_term_error_commitment_C@,
        b,
    );
    let m2 = fold_inst_model(
        m1,
        v.ova_auxiliary_input_T.commitment@,
        views(v.ova_auxiliary_input_T.X@),
        v.ova_cross_term_error_commitment_T@,
        b2,
    );
    let m3 = fold_inst_model(
        m2,
        v.ova_auxiliary_input_E_1.commitment@,
        views(v.ova_auxiliary_input_E_1.X@),
        v.ova_cross_term_error_commitment_E_1@,
        b3,
    );
    fold_inst_model(
        m3,
        v.ova_auxiliary_input_E_2.commitment@,
        views(v.ova_auxiliary_input_E_2.X@),
        v.ova_cross_term_error_commitment_E_2@,
        b4,
    )
}

impl KZH2Verifier {
    /// Replays one accumulation step.  On success it returns the updated
    /// companion instance, folded under the powers of the challenge; any
    /// failed equality refuses the step.  Whatever the outcome, the
    /// transcript advances by the challenge replay and then absorbs the
    /// four companion cross-term commitments, binding them for any later
    /// challenge.
    pub fn accumulate(&self, transcript: &mut Transcript) -> (out: Option<RelaxedOvaInstance>)
        ensures
            out is Some <==> accumulate_checks(self, old(transcript)@),
            out is Some ==> relaxed_model(&out->0) == folded_ova_model(self),
            final(transcript)@ == accumulate_hist(self, old(transcript)@),
    {
        let mut ok = true;

        // the two challenge representations agree
        if !self.beta.to_base().eq(&self.beta_non_native) {
            ok = false;
        }

        // transcript replay
        let ch = Accumulator::compute_fiat_shamir_challenge(
            transcript,
            &self.current_accumulator_instance,
            &self.running_accumulator_instance,
            &self.cross_term_error_commitment_Q,
        );
        if !ch.eq(&self.beta) {
            ok = false;
        }

        // absorb the four companion cross-term commitments
        let mut cross_coords: Vec<Scalar> = Vec::new();
        let (ccx, ccy) = self.ova_cross_term_error_commitment_C.to_sponge_scalars();
        cross_coords.push(ccx);
        cross_coords.push(ccy);
        let (ctx, cty) = self.ova_cross_term_error_commitment_T.to_sponge_scalars();
        cross_coords.push(ctx);
        cross_coords.push(cty);
        let (ce1x, ce1y) = self.ova_cross_term_error_commitment_E_1.to_sponge_scalars();
        cross_coords.push(ce1x);
        cross_coords.push(ce1y);
        let (ce2x, ce2y) = self.ova_cross_term_error_commitment_E_2.to_sponge_scalars();
        cross_coords.push(ce2x);
        cross_coords.push(ce2y);
        proof {
            assert(crate::scalar::views(cross_coords@) =~= gr_point_coords(
                self.ova_cross_term_error_commitment_C@) + gr_point_coords(
                self.ova_cross_term_error_commitment_T@) + gr_point_coords(
                self.ova_cross_term_error_commitment_E_1@) + gr_point_coords(
                self.ova_cross_term_error_commitment_E_2@));
        }
        transcript.append_scalars("companion cross terms", &cross_coords);

        // opcode for `C`
        if !self.aux_C.g1.eq(&self.running_accumulator_instance.C) {
            ok = false;
        }
        if !self.aux_C.g2.eq(&self.current_accumulator_instance.C) {
            ok = false;
        }
        if self.aux_C.flag {
            ok = false;
        }
        if !self.aux_C.r.eq(&self.beta_non_native) {
            ok = false;
        }
        if !self.aux_C.g_out.eq(&self.final_accumulator_instance.C) {
            ok = false;
        }
        if !self.aux_C.matches_io(&self.ova_auxiliary_input_C.X) {
            ok = false;
        }

        // opcode for `T`
        if !self.aux_T.g1.eq(&self.running_accumulator_instance.T) {
            ok = false;
        }
        if !self.aux_T.g2.eq(&self.current_accumulator_instance.T) {
            ok = false;
        }
        if self.aux_T.flag {
            ok = false;
        }
        if !self.aux_T.r.eq(&self.beta_non_native) {
            ok = false;
        }
        if !self.aux_T.g_out.eq(&self.final_accumulator_instance.T) {
            ok = false;
        }
        if !self.aux_T.matches_io(&self.ova_auxiliary_input_T.X) {
            ok = false;
        }

        // opcode for the error blend
        if !self.aux_E_1.g1.eq(&self.running_accumulator_instance.E) {
            ok = false;
        }
        if !self.aux_E_1.g2.eq(&self.current_accumulator_instance.E) {
            ok = false;
        }
        if self.aux_E_1.flag {
            ok = false;
        }
        if !self.aux_E_1.r.eq(&self.beta_non_native) {
            ok = false;
        }
        if !self.aux_E_1.matches_io(&self.ova_auxiliary_input_E_1.X) {
            ok = false;
        }

        // opcode for the quadratic cross-term share
        if !self.aux_E_2.g1.eq(&self.aux_E_1.g_out) {
            ok = false;
        }
        if !self.aux_E_2.g2.eq(&self.cross_term_error_commitment_Q) {
            ok = false;
        }
        if !self.aux_E_2.flag {
            ok = false;
        }
        if !self.aux_E_2.r.eq(&self.beta_non_native) {
            ok = false;
        }
        if !self.aux_E_2.g_out.eq(&self.final_accumulator_instance.E) {
            ok = false;
        }
        if !self.aux_E_2.matches_io(&self.ova_auxiliary_input_E_2.X) {
            ok = false;
        }

        // native linear combinations of the coordinates
        if self.current_accumulator_instance.x.len() != self.running_accumulator_instance.x.len()
            || self.final_accumulator_instance.x.len()
            != self.running_accumulator_instance.x.len() {
            ok = false;
        } else if !self.check_coordinate_combination_x() {
            ok = false;
        }
        if self.current_accumulator_instance.y.len() != self.running_accumulator_instance.y.len()
            || self.final_accumulator_instance.y.len()
            != self.running_accumulator_instance.y.len() {
            ok = false;
        } else if !self.check_coordinate_combination_y() {
            ok = false;
        }
        let one = Scalar::one();
        let omb = one.sub(&self.beta);
        let z_comb = self.beta.mul(&self.running_accumulator_instance.z).add(&omb.mul(
            &self.current_accumulator_instance.z));
        if !z_comb.eq(&self.final_accumulator_instance.z) {
            ok = false;
        }

        // the companion folds under the challenge powers
        if self.ova_auxiliary_input_C.X.len() != self.ova_running_instance.X.len()
            || self.ova_auxiliary_input_T.X.len() != self.ova_running_instance.X.len()
            || self.ova_auxiliary_input_E_1.X.len() != self.ova_running_instance.X.len()
            || self.ova_auxiliary_input_E_2.X.len() != self.ova_running_instance.X.len() {
            return None;
        }
        if !ok {
            return None;
        }
        let b = self.beta_non_native.clone();
        let b2 = self.beta_non_native.mul(&b);
        let b3 = self.beta_non_native.mul(&b2);
        let b4 = self.beta_non_native.mul(&b3);
        let u1 = match self.ova_running_instance.fold(&self.ova_auxiliary_input_C,
            &self.ova_cross_term_error_commitment_C, &b) {
            Ok(u) => u,
            Err(_) => { return None; },
        };
        let u2 = match u1.fold(&self.ova_auxiliary_input_T, &self.ova_cross_term_error_commitment_T,
            &b2) {
            Ok(u) => u,
            Err(_) => { return None; },
        };
        let u3 = match u2.fold(&self.ova_auxiliary_input_E_1,
            &self.ova_cross_term_error_commitment_E_1, &b3) {
            Ok(u) => u,
            Err(_) => { return None; },
        };
        let u4 = match u3.fold(&self.ova_auxiliary_input_E_2,
            &self.ova_cross_term_error_commitment_E_2, &b4) {
            Ok(u) => u,
            Err(_) => { return None; },
        };
        Some(u4)
    }

    /// The final `x` coordinates are the challenge combination of the two
    /// operands'.
    fn check_coordinate_combination_x(&self) -> (r: bool)
        requires
            self.current_accumulator_instance.x@.len()
                == self.running_accumulator_instance.x@.len(),
            self.final_accumulator_instance.x@.len() == self.running_accumulator_instance.x@.len(),
        ensures
            r == (views(self.final_accumulator_instance.x@) == seq_lin2(self.beta@, fsub(fr_ord(),
                1, self.beta@), views(self.running_accumulator_instance.x@), views(
                self.current_accumulator_instance.x@))),
    {
        let one = Scalar::one();
        let omb = one.sub(&self.beta);
        let mut i: usize = 0;
        while i < self.running_accumulator_instance.x.len()
            invariant
                i <= self.running_accumulator_instance.x@.len(),
                self.current_accumulator_instance.x@.len()
                    == self.running_accumulator_instance.x@.len(),
                self.final_accumulator_instance.x@.len()
                    == self.running_accumulator_instance.x@.len(),
                omb@ == fsub(fr_ord(), 1, self.beta@),
                forall|t: int|
                    0 <= t < i ==> #[trigger] views(self.final_accumulator_instance.x@)[t] == lin2(
                        self.beta@, fsub(fr_ord(), 1, self.beta@), views(
                        self.running_accumulator_instance.x@)[t], views(
                        self.current_accumulator_instance.x@)[t]),
            decreases self.running_accumulator_instance.x@.len() - i,
        {
            let comb = self.beta.mul(&self.running_accumulator_instance.x[i]).add(&omb.mul(
                &self.current_accumulator_instance.x[i]));
            if !comb.eq(&self.final_accumulator_instance.x[i]) {
                proof {
                    let b = self.beta@;
                    let o = fsub(fr_ord(), 1, b);
                    assert(views(self.final_accumulator_instance.x@)[i as int] != lin2(b, o, views(
                        self.running_accumulator_instance.x@)[i as int], views(
                        self.current_accumulator_instance.x@)[i as int]));
                    assert(views(self.final_accumulator_instance.x@) != seq_lin2(b, o, views(
                        self.running_accumulator_instance.x@), views(
                        self.current_accumulator_instance.x@)));
                }
                return false;
            }
            i = i + 1;
        }
        proof {
            assert(views(self.final_accumulator_instance.x@) =~= seq_lin2(self.beta@, fsub(
                fr_ord(), 1, self.beta@), views(self.running_accumulator_instance.x@), views(
                self.current_accumulator_instance.x@)));
        }
        true
    }

    /// The final `y` coordinates are the challenge combination of the two
    /// operands'.
    fn check_coordinate_combination_y(&self) -> (r: bool)
        requires
            self.current_accumulator_instance.y@.len()
                == self.running_accumulator_instance.y@.len(),
            self.final_accumulator_instance.y@.len() == self.running_accumulator_instance.y@.len(),
        ensures
            r == (views(self.final_accumulator_instance.y@) == seq_lin2(self.beta@, fsub(fr_ord(),
                1, self.beta@), views(self.running_accumulator_instance.y@), views(
                self.current_accumulator_instance.y@))),
    {
        let one = Scalar::one();
        let omb = one.sub(&self.beta);
        let mut i: usize = 0;
        while i < self.running_accumulator_instance.y.len()
            invariant
                i <= self.running_accumulator_instance.y@.len(),
                self.current_accumulator_instance.y@.len()
                    == self.running_accumulator_instance.y@.len(),
                self.final_accumulator_instance.y@.len()
                    == self.running_accumulator_instance.y@.len(),
                omb@ == fsub(fr_ord(), 1, self.beta@),
                forall|t: int|
                    0 <= t < i ==> #[trigger] views(self.final_accumulator_instance.y@)[t] == lin2(
                        self.beta@, fsub(fr_ord(), 1, self.beta@), views(
                        self.running_accumulator_instance.y@)[t], views(
                        self.current_accumulator_instance.y@)[t]),
            decreases self.running_accumulator_instance.y@.len() - i,
        {
            let comb = self.beta.mul(&self.running_accumulator_instance.y[i]).add(&omb.mul(
                &self.current_accumulator_instance.y[i]));
            if !comb.eq(&self.final_accumulator_instance.y[i]) {
                proof {
                    let b = self.beta@;
                    let o = fsub(fr_ord(), 1, b);
                    assert(views(self.final_accumulator_instance.y@)[i as int] != lin2(b, o, views(
                        self.running_accumulator_instance.y@)[i as int], views(
                        self.current_accumulator_instance.y@)[i as int]));
                    assert(views(self.final_accumulator_instance.y@) != seq_lin2(b, o, views(
                        self.running_accumulator_instance.y@), views(
                        self.current_accumulator_instance.y@)));
                }
                return false;
            }
            i = i + 1;
        }
        proof {
            assert(views(self.final_accumulator_instance.y@) =~= seq_lin2(self.beta@, fsub(
                fr_ord(), 1, self.beta@), views(self.running_accumulator_instance.y@), views(
                self.current_accumulator_instance.y@)));
        }
        true
    }
}

} // verus!
