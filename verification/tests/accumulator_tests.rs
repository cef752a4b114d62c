use kzh_fold::accumulator::{Accumulator, AccSRS};
use kzh_fold::pcs::{PCSEngine, PCSCommitment};
use kzh_fold::polynomial::MultilinearPolynomial;
use kzh_fold::scalar::Scalar;
use kzh_fold::group::G1Elem;
use kzh_fold::transcript::Transcript;
use kzh_fold::FoldError;

fn random_scalars(n: usize) -> Vec<Scalar> {
    (0..n).map(|_| Scalar::rand()).collect()
}

fn fresh_accumulator(srs: &AccSRS) -> Accumulator {
    let x_len = srs.pc_srs.get_x_length();
    let y_len = srs.pc_srs.get_y_length();
    let poly = MultilinearPolynomial::rand(x_len + y_len);
    let x = random_scalars(x_len);
    let y = random_scalars(y_len);
    let mut point = x.clone();
    point.extend(y.iter().cloned());
    let z = poly.evaluate(&point);
    let com = PCSEngine::commit(&srs.pc_srs, &poly);
    let c = com.C.clone();
    let opening = PCSEngine::open(&poly, com, &x);
    let com_head = PCSCommitment { C: c, aux: vec![] };
    Accumulator::new_accumulator_from_fresh_proof(srs, &com_head, opening, &x, &y, &z)
}

/// Two trivial accumulators over a 2^4 x 2^4 commitment matrix are folded
/// under a challenge from a fixed transcript; the result passes `decide`
/// and its coordinates are the expected affine combinations.
#[test]
fn end_to_end_accumulation() {
    let pc_srs = PCSEngine::setup(16, 16);
    let srs = Accumulator::setup(pc_srs);

    let current = fresh_accumulator(&srs);
    let running = fresh_accumulator(&srs);

    assert!(Accumulator::decide(&srs, &current));
    assert!(Accumulator::decide(&srs, &running));

    // the cross term does not depend on the challenge
    let zero = Scalar::zero();
    let (_, _, q) = Accumulator::prove(&srs, &zero, &current, &running);

    let mut transcript = Transcript::new("accumulation step");
    let beta = Accumulator::compute_fiat_shamir_challenge(
        &mut transcript,
        &current.instance,
        &running.instance,
        &q,
    );

    let (instance, witness, q_again) = Accumulator::prove(&srs, &beta, &current, &running);
    assert!(q.eq(&q_again));

    // the folded claimed value is the expected affine combination
    let one = Scalar::one();
    let omb = one.sub(&beta);
    let expected_z = beta.mul(&running.instance.z).add(&omb.mul(&current.instance.z));
    assert!(instance.z.eq(&expected_z));

    let folded = Accumulator::new(instance, witness);
    assert!(Accumulator::decide(&srs, &folded));
}

/// Folding preserves validity on a smaller matrix as well, and a second
/// fold over the folded accumulator still decides.
#[test]
fn repeated_folds_decide() {
    let pc_srs = PCSEngine::setup(4, 4);
    let srs = Accumulator::setup(pc_srs);
    let a = fresh_accumulator(&srs);
    let b = fresh_accumulator(&srs);
    let c = fresh_accumulator(&srs);
    let beta = Scalar::from_u64(987654321);
    let (i1, w1, _) = Accumulator::prove(&srs, &beta, &a, &b);
    let ab = Accumulator::new(i1, w1);
    assert!(Accumulator::decide(&srs, &ab));
    let beta2 = Scalar::from_u64(123456789);
    let (i2, w2, _) = Accumulator::prove(&srs, &beta2, &c, &ab);
    let abc = Accumulator::new(i2, w2);
    assert!(Accumulator::decide(&srs, &abc));
}

/// The x and y coordinates of the fold are the exact field combinations
/// `beta * running + (1 - beta) * current`.
#[test]
fn fold_linearity() {
    let pc_srs = PCSEngine::setup(4, 8);
    let srs = Accumulator::setup(pc_srs);
    let current = fresh_accumulator(&srs);
    let running = fresh_accumulator(&srs);
    let beta = Scalar::from_u64(314159265358979);
    let (instance, _, _) = Accumulator::prove(&srs, &beta, &current, &running);
    let one = Scalar::one();
    let omb = one.sub(&beta);
    for i in 0..instance.x.len() {
        let expected = beta.mul(&running.instance.x[i]).add(&omb.mul(&current.instance.x[i]));
        assert!(instance.x[i].eq(&expected));
    }
    for i in 0..instance.y.len() {
        let expected = beta.mul(&running.instance.y[i]).add(&omb.mul(&current.instance.y[i]));
        assert!(instance.y[i].eq(&expected));
    }
    let expected_c = running.instance.C.mul(&beta).add(&current.instance.C.mul(&omb));
    assert!(instance.C.eq(&expected_c));
    let expected_t = running.instance.T.mul(&beta).add(&current.instance.T.mul(&omb));
    assert!(instance.T.eq(&expected_t));
}

/// The challenge derivation is deterministic: the same transcripts and
/// inputs give the same challenge twice.
#[test]
fn challenge_determinism() {
    let pc_srs = PCSEngine::setup(4, 4);
    let srs = Accumulator::setup(pc_srs);
    let current = fresh_accumulator(&srs);
    let running = fresh_accumulator(&srs);
    let q = G1Elem::rand();

    let mut t1 = Transcript::new("step");
    let b1 = Accumulator::compute_fiat_shamir_challenge(&mut t1, &current.instance,
        &running.instance, &q);
    let mut t2 = Transcript::new("step");
    let b2 = Accumulator::compute_fiat_shamir_challenge(&mut t2, &current.instance,
        &running.instance, &q);
    assert!(b1.eq(&b2));

    // a different cross term changes the challenge
    let q2 = G1Elem::rand();
    let mut t3 = Transcript::new("step");
    let b3 = Accumulator::compute_fiat_shamir_challenge(&mut t3, &current.instance,
        &running.instance, &q2);
    assert!(!b1.eq(&b3));
}

/// Tampering with the claimed value makes `decide` refuse the accumulator.
#[test]
fn decide_rejects_tampered_claim() {
    let pc_srs = PCSEngine::setup(4, 4);
    let srs = Accumulator::setup(pc_srs);
    let mut acc = fresh_accumulator(&srs);
    assert!(Accumulator::decide(&srs, &acc));
    acc.instance.z = acc.instance.z.add(&Scalar::one());
    assert!(!Accumulator::decide(&srs, &acc));
}

#[test]
fn polynomial_add_length_mismatch() {
    let p1 = MultilinearPolynomial::rand(2);
    let p2 = MultilinearPolynomial::rand(3);
    assert!(matches!(p1.add(&p2), Err(FoldError::LengthMismatch)));
}
