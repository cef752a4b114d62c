use kzh_fold::step_verifier::KZH2Verifier;
use kzh_fold::prover::AccumulatorVerifierCircuitProver;
use kzh_fold::accumulator::Accumulator;
use kzh_fold::pcs::PCSEngine;
use kzh_fold::ova::{OvaInstance, RelaxedOvaInstance};
use kzh_fold::scalar::{Scalar, BaseScalar};
use kzh_fold::group::GrElem;
use kzh_fold::transcript::Transcript;

fn build_verifier() -> KZH2Verifier {
    let srs_pcs = PCSEngine::setup(4, 4);
    let srs = Accumulator::setup(srs_pcs);
    let prover = AccumulatorVerifierCircuitProver::rand(srs);

    let aux_c = prover.compute_auxiliary_input_C();
    let aux_t = prover.compute_auxiliary_input_T();
    let aux_e_1 = prover.compute_auxiliary_input_E_1();
    let aux_e_2 = prover.compute_auxiliary_input_E_2();
    let q = prover.compute_proof_Q();
    let final_instance = prover.compute_result_accumulator_instance();

    // companion instances whose public input carries each opcode
    let ova_c = OvaInstance { commitment: GrElem::rand(), X: aux_c.public_io() };
    let ova_t = OvaInstance { commitment: GrElem::rand(), X: aux_t.public_io() };
    let ova_e_1 = OvaInstance { commitment: GrElem::rand(), X: aux_e_1.public_io() };
    let ova_e_2 = OvaInstance { commitment: GrElem::rand(), X: aux_e_2.public_io() };

    // a running companion instance over the opcode layout's width
    let running_ova = RelaxedOvaInstance {
        commitment: GrElem::zero(),
        commitment_E: GrElem::zero(),
        X: (0..8).map(|_| BaseScalar::zero()).collect(),
        u: BaseScalar::zero(),
    };

    KZH2Verifier {
        beta: prover.beta.clone(),
        beta_non_native: prover.beta.to_base(),
        aux_C: aux_c,
        aux_T: aux_t,
        aux_E_1: aux_e_1,
        aux_E_2: aux_e_2,
        ova_auxiliary_input_C: ova_c,
        ova_auxiliary_input_T: ova_t,
        ova_auxiliary_input_E_1: ova_e_1,
        ova_auxiliary_input_E_2: ova_e_2,
        cross_term_error_commitment_Q: q,
        ova_cross_term_error_commitment_C: GrElem::rand(),
        ova_cross_term_error_commitment_T: GrElem::rand(),
        ova_cross_term_error_commitment_E_1: GrElem::rand(),
        ova_cross_term_error_commitment_E_2: GrElem::rand(),
        current_accumulator_instance: prover.current_accumulator.instance,
        running_accumulator_instance: prover.running_accumulator.instance,
        final_accumulator_instance: final_instance,
        ova_running_instance: running_ova,
        n: prover.n,
        m: prover.m,
    }
}

#[test]
fn verifier_accepts_honest_step() {
    let verifier = build_verifier();
    let mut transcript = Transcript::new("accumulation step");
    let out = verifier.accumulate(&mut transcript);
    assert!(out.is_some());
}

#[test]
fn verifier_rejects_wrong_challenge() {
    let mut verifier = build_verifier();
    verifier.beta = verifier.beta.add(&Scalar::one());
    verifier.beta_non_native = verifier.beta.to_base();
    let mut transcript = Transcript::new("accumulation step");
    let out = verifier.accumulate(&mut transcript);
    assert!(out.is_none());
}

#[test]
fn verifier_rejects_tampered_final_instance() {
    let mut verifier = build_verifier();
    verifier.final_accumulator_instance.z = verifier.final_accumulator_instance.z.add(
        &Scalar::one());
    let mut transcript = Transcript::new("accumulation step");
    let out = verifier.accumulate(&mut transcript);
    assert!(out.is_none());
}

#[test]
fn transcript_binds_companion_cross_terms() {
    let mut verifier = build_verifier();

    // the same step leaves the same transcript, so later challenges agree
    let mut t1 = Transcript::new("accumulation step");
    assert!(verifier.accumulate(&mut t1).is_some());
    let mut t2 = Transcript::new("accumulation step");
    assert!(verifier.accumulate(&mut t2).is_some());
    let c1 = t1.challenge_scalar("next");
    let c2 = t2.challenge_scalar("next");
    assert!(c1.eq(&c2));

    // replacing one companion cross-term commitment changes any later
    // challenge, because the step absorbs all four
    verifier.ova_cross_term_error_commitment_C = GrElem::rand();
    let mut t3 = Transcript::new("accumulation step");
    assert!(verifier.accumulate(&mut t3).is_some());
    let c3 = t3.challenge_scalar("next");
    assert!(!c1.eq(&c3));
}
