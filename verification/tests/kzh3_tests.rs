use kzh_fold::kzh3::{KZH3SRS, Acc3Instance, Acc3Witness, Accumulator3};
use kzh_fold::eq_tree::EqTree;
use kzh_fold::polynomial::MultilinearPolynomial;
use kzh_fold::scalar::Scalar;
use kzh_fold::group::{G1Elem, G2Elem, g1_msm};
use kzh_fold::transcript::Transcript;

/// Builds a three-dimensional accumulator of degrees (2, 2, 2) whose
/// pairing structure holds by construction, with `T` and the error
/// components computed from the witness.
fn consistent_accumulator3() -> (kzh_fold::kzh3::Acc3SRS, Accumulator3) {
    // first-dimension pairing structure: V_x[i] = v^(tau_x[i]) and
    // C = sum tau_x[i] * D_x[i]
    let v = G2Elem::rand();
    let tx0 = Scalar::rand();
    let tx1 = Scalar::rand();
    let d_x = vec![G1Elem::rand(), G1Elem::rand()];
    let v_x = vec![v.mul(&tx0), v.mul(&tx1)];
    let c = d_x[0].mul(&tx0).add(&d_x[1].mul(&tx1));

    // middle-dimension structure, likewise
    let ty0 = Scalar::rand();
    let ty1 = Scalar::rand();
    let d_y = vec![G1Elem::rand(), G1Elem::rand()];
    let v_y = vec![v.mul(&ty0), v.mul(&ty1)];
    let c_y = d_y[0].mul(&ty0).add(&d_y[1].mul(&ty1));

    let pc_srs = KZH3SRS {
        degree_x: 2,
        degree_y: 2,
        degree_z: 2,
        H_z: vec![G1Elem::rand(), G1Elem::rand()],
        V_x: v_x,
        V_y: v_y,
        v,
    };
    let srs = Accumulator3::setup(pc_srs);

    let x = vec![Scalar::from_u64(21)];
    let y = vec![Scalar::from_u64(22)];
    let z = vec![Scalar::from_u64(23)];
    let tree_x = EqTree::new(&x);
    let tree_y = EqTree::new(&y);
    let tree_z = EqTree::new(&z);
    let f_star = MultilinearPolynomial::rand(1);

    let m1 = g1_msm(&srs.k_x, &tree_x.nodes);
    let m2 = g1_msm(&srs.k_y, &tree_y.nodes);
    let m3 = g1_msm(&srs.k_z, &tree_z.nodes);
    let t = m1.add(&m2).add(&m3);

    let witness = Acc3Witness { D_x: d_x, D_y: d_y, tree_x, tree_y, tree_z, f_star };
    let instance = Acc3Instance {
        C: c,
        C_y: c_y,
        T: t,
        E: (G1Elem::zero(), G1Elem::zero(), G1Elem::zero(), G1Elem::zero()),
        x,
        y,
        z,
        output: Scalar::from_u64(77),
    };
    let mut acc = Accumulator3::new(&instance, &witness);
    let e = (
        Accumulator3::dec_1(&srs, &acc),
        Accumulator3::dec_2(&srs, &acc),
        Accumulator3::dec_3(&srs, &acc),
        Accumulator3::dec_4(&srs, &acc),
    );
    acc.instance.E = e;
    (srs, acc)
}

#[test]
fn accumulator3_decide_accepts_consistent_data() {
    let (srs, acc) = consistent_accumulator3();
    assert!(Accumulator3::decide(&srs, &acc));
}

#[test]
fn accumulator3_decide_rejects_tampered_output() {
    let (srs, mut acc) = consistent_accumulator3();
    acc.instance.output = acc.instance.output.add(&Scalar::one());
    assert!(!Accumulator3::decide(&srs, &acc));
}

#[test]
fn accumulator3_challenge_is_deterministic() {
    let (srs, acc) = consistent_accumulator3();
    let _ = srs;
    // a two-dimensional instance for the shared challenge schedule
    let pc2 = kzh_fold::pcs::PCSEngine::setup(2, 2);
    let srs2 = kzh_fold::accumulator::Accumulator::setup(pc2);
    let other = kzh_fold::prover::random_satisfying_accumulator(&srs2);
    let q = (G1Elem::rand(), G1Elem::rand(), G1Elem::rand(), G1Elem::rand());

    let mut t1 = Transcript::new("three dimensional step");
    let b1 = Accumulator3::compute_fiat_shamir_challenge(&mut t1, &acc.instance, &other.instance,
        (q.0.clone(), q.1.clone(), q.2.clone(), q.3.clone()));
    let mut t2 = Transcript::new("three dimensional step");
    let b2 = Accumulator3::compute_fiat_shamir_challenge(&mut t2, &acc.instance, &other.instance,
        q);
    assert!(b1.eq(&b2));
}
