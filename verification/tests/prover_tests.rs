use kzh_fold::prover::AccumulatorVerifierCircuitProver;
use kzh_fold::accumulator::Accumulator;
use kzh_fold::pcs::PCSEngine;
use kzh_fold::ova::{OvaInstance, OvaWitness, pedersen_commit};
use kzh_fold::scalar::{Scalar, BaseScalar};

fn random_prover() -> AccumulatorVerifierCircuitProver {
    // specifying degrees of polynomials
    let (n, m) = (4, 4);
    let srs_pcs = PCSEngine::setup(n, m);
    let srs = Accumulator::setup(srs_pcs);
    AccumulatorVerifierCircuitProver::rand(srs)
}

#[test]
pub fn random_instance_is_satisfying() {
    let prover = random_prover();
    assert!(prover.is_satisfied());
}

#[test]
pub fn auxiliary_input_C_correctness() {
    let prover = random_prover();

    let secondary_circuit = prover.compute_auxiliary_input_C();

    // get the accumulated result
    let new_acc_instance = prover.compute_result_accumulator_instance();

    assert!(secondary_circuit.r.eq(&prover.beta.to_base()));
    assert_eq!(secondary_circuit.flag, false);
    assert!(secondary_circuit.g1.eq(&prover.running_accumulator.instance.C));
    assert!(secondary_circuit.g2.eq(&prover.current_accumulator.instance.C));
    assert!(secondary_circuit.g_out.eq(&new_acc_instance.C));
}

#[test]
pub fn auxiliary_input_T_correctness() {
    let prover = random_prover();

    let secondary_circuit = prover.compute_auxiliary_input_T();

    let new_acc_instance = prover.compute_result_accumulator_instance();

    assert!(secondary_circuit.r.eq(&prover.beta.to_base()));
    assert_eq!(secondary_circuit.flag, false);
    assert!(secondary_circuit.g1.eq(&prover.running_accumulator.instance.T));
    assert!(secondary_circuit.g2.eq(&prover.current_accumulator.instance.T));
    assert!(secondary_circuit.g_out.eq(&new_acc_instance.T));
}

#[test]
pub fn auxiliary_input_E_correctness() {
    let prover = random_prover();

    let secondary_circuit_e_1 = prover.compute_auxiliary_input_E_1();
    let secondary_circuit_e_2 = prover.compute_auxiliary_input_E_2();

    let q = prover.compute_proof_Q();

    // get the accumulated result
    let new_acc_instance = prover.compute_result_accumulator_instance();

    // checking correctness of flags
    assert_eq!(secondary_circuit_e_1.flag, false);
    assert_eq!(secondary_circuit_e_2.flag, true);

    // checking correctness of randomness
    assert!(secondary_circuit_e_1.r.eq(&prover.beta.to_base()));
    assert!(secondary_circuit_e_2.r.eq(&prover.beta.to_base()));

    // the blended error is carried into the second opcode
    assert!(secondary_circuit_e_1.g_out.eq(&secondary_circuit_e_2.g1));

    // check input to the first opcode
    assert!(secondary_circuit_e_1.g1.eq(&prover.running_accumulator.instance.E));
    assert!(secondary_circuit_e_1.g2.eq(&prover.current_accumulator.instance.E));

    // the cross term feeds the second opcode, whose output is the final error
    assert!(secondary_circuit_e_2.g2.eq(&q));
    assert!(secondary_circuit_e_2.g_out.eq(&new_acc_instance.E));
}

#[test]
pub fn compute_cycle_fold_proofs_correctness() {
    let prover = random_prover();

    // any values satisfy the minimal shape's single constraint `u * u = u`
    let pp_w: Vec<kzh_fold::group::GrElem> = vec![prover.commitment_pp[0].clone()];
    let make_pair = |x0: u64, w0: u64| -> (OvaInstance, OvaWitness) {
        let w = vec![BaseScalar::from_u64(w0)];
        let commitment = pedersen_commit(&pp_w, &w);
        (OvaInstance { commitment, X: vec![BaseScalar::from_u64(x0)] }, OvaWitness { W: w })
    };
    let aux_c = make_pair(1, 2);
    let aux_t = make_pair(3, 4);
    let aux_e_1 = make_pair(5, 6);
    let aux_e_2 = make_pair(7, 8);

    let out = prover.compute_cycle_fold_proofs_and_final_instance(&aux_c, &aux_t, &aux_e_1,
        &aux_e_2);
    assert!(out.is_some());
}

#[test]
pub fn cycle_fold_agreement_at_runtime() {
    let prover = random_prover();
    let new_acc_instance = prover.compute_result_accumulator_instance();

    // every opcode's delegated output agrees with the engine's combination
    let c = prover.compute_auxiliary_input_C();
    assert!(c.g_out.eq(&new_acc_instance.C));
    let t = prover.compute_auxiliary_input_T();
    assert!(t.g_out.eq(&new_acc_instance.T));
    let e2 = prover.compute_auxiliary_input_E_2();
    assert!(e2.g_out.eq(&new_acc_instance.E));

    // the blend opcode matches the manual combination
    let e1 = prover.compute_auxiliary_input_E_1();
    let one = Scalar::one();
    let omb = one.sub(&prover.beta);
    let expected = prover.running_accumulator.instance.E.mul(&prover.beta).add(
        &prover.current_accumulator.instance.E.mul(&omb));
    assert!(e1.g_out.eq(&expected));
}

#[test]
pub fn compute_cycle_fold_proofs_refuses_bad_pair() {
    let prover = random_prover();

    let pp_w: Vec<kzh_fold::group::GrElem> = vec![prover.commitment_pp[0].clone()];
    let make_pair = |x0: u64, w0: u64| -> (OvaInstance, OvaWitness) {
        let w = vec![BaseScalar::from_u64(w0)];
        let commitment = pedersen_commit(&pp_w, &w);
        (OvaInstance { commitment, X: vec![BaseScalar::from_u64(x0)] }, OvaWitness { W: w })
    };
    let aux_c = make_pair(1, 2);
    let aux_t = make_pair(3, 4);
    let aux_e_1 = make_pair(5, 6);
    // a pair whose commitment does not bind its witness
    let aux_e_2 = (
        OvaInstance {
            commitment: kzh_fold::group::GrElem::rand(),
            X: vec![BaseScalar::from_u64(7)],
        },
        OvaWitness { W: vec![BaseScalar::from_u64(8)] },
    );

    let out = prover.compute_cycle_fold_proofs_and_final_instance(&aux_c, &aux_t, &aux_e_1,
        &aux_e_2);
    assert!(out.is_none());
}
