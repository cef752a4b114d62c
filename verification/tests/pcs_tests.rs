use kzh_fold::pcs::{PCSEngine, PCSCommitment, split_between_x_and_y};
use kzh_fold::polynomial::MultilinearPolynomial;
use kzh_fold::scalar::Scalar;
use kzh_fold::group::pairing;
use kzh_fold::FoldError;

fn random_scalars(n: usize) -> Vec<Scalar> {
    (0..n).map(|_| Scalar::rand()).collect()
}

#[test]
fn multilinear_pcs_test_setup() {
    let degree_y = 4usize;
    let degree_x = 4usize;
    let srs = PCSEngine::setup(degree_x, degree_y);

    // asserting the sizes
    assert_eq!(srs.degree_y, degree_y);
    assert_eq!(srs.degree_x, degree_x);
    assert_eq!(srs.vec_H.len(), degree_y);
    assert_eq!(srs.vec_V.len(), degree_x);
    assert_eq!(srs.matrix_H.len(), degree_x);
    assert_eq!(srs.matrix_H[0].len(), degree_y);

    // checking pairing equalities
    // e(H[j, i], V[i]) = e(G_i^{tau_j}, V^{tau_i}) = e(H[i, i], V[j])
    for i in 0..degree_x.min(degree_y) {
        for j in 0..degree_x.min(degree_y) {
            let p1 = pairing(&srs.matrix_H[j][i], &srs.vec_V[i]);
            let p2 = pairing(&srs.matrix_H[i][i], &srs.vec_V[j]);
            assert!(p1.eq(&p2));
        }
    }
}

#[test]
fn multilinear_pcs_test_end_to_end() {
    let (degree_x, degree_y) = (8usize, 32usize);
    let srs = PCSEngine::setup(degree_x, degree_y);

    // testing srs functions
    assert_eq!(3, srs.get_x_length());
    assert_eq!(5, srs.get_y_length());

    // ********** test the input padding function split_between_x_and_y **********
    let mut r = random_scalars(5);
    r.extend((0..3).map(|_| Scalar::zero()));
    let x: Vec<Scalar> = r[0..3].to_vec();
    let y: Vec<Scalar> = r[3..].to_vec();

    let length_x = srs.get_x_length();
    let length_y = srs.get_y_length();
    let (x_new, y_new) = split_between_x_and_y(length_x, length_y, &r, Scalar::zero());
    assert_eq!(x_new.len(), x.len());
    assert_eq!(y_new.len(), y.len());
    for k in 0..x.len() {
        assert!(x_new[k].eq(&x[k]));
    }
    for k in 0..y.len() {
        assert!(y_new[k].eq(&y[k]));
    }

    // random multilinear polynomial over 3 + 5 variables
    let polynomial = MultilinearPolynomial::rand(3 + 5);

    // random point and evaluation
    let x = random_scalars(3);
    let y = random_scalars(5);
    let mut input = x.clone();
    input.extend(y.iter().cloned());
    let z = polynomial.evaluate(&input);

    // commit to the polynomial
    let com = PCSEngine::commit(&srs, &polynomial);
    let com_c = com.C.clone();
    let aux = com.aux.iter().cloned().collect::<Vec<_>>();

    // open the commitment
    let open = PCSEngine::open(&polynomial, com, &x);

    // verify the proof
    let com_again = PCSCommitment { C: com_c, aux };
    assert!(PCSEngine::verify(&srs, &com_again, &open, &x, &y, &z));
}

/// Given f(x) and g(x) and their commitments F and G, this computes
/// p(x) = f(x) + r * g(x) and checks that its commitment is P = F + r*G.
#[test]
fn test_homomorphism() {
    let degree_x = 16usize;
    let degree_y = 16usize;
    let num_vars = 8; // log2(degree_x) + log2(degree_y)

    let srs = PCSEngine::setup(degree_x, degree_y);

    let f_x = MultilinearPolynomial::rand(num_vars);
    let g_x = MultilinearPolynomial::rand(num_vars);

    let f_com = PCSEngine::commit(&srs, &f_x);
    let g_com = PCSEngine::commit(&srs, &g_x);

    // verifier's challenge: for poly batching
    let r = Scalar::rand();
    // verifier's challenge: evaluation point, one value repeated
    let rho_val = Scalar::rand();
    let rho: Vec<Scalar> = (0..num_vars).map(|_| rho_val.clone()).collect();
    assert_eq!(rho.len() % 2, 0);
    let mid = rho.len() / 2;
    let rho_first_half: Vec<Scalar> = rho[..mid].to_vec();
    let rho_second_half: Vec<Scalar> = rho[mid..].to_vec();

    // compute p(x) = f(x) + r * g(x)
    let mut r_times_g_x = MultilinearPolynomial::new(
        g_x.evaluation_over_boolean_hypercube.iter().cloned().collect(),
        num_vars,
    );
    r_times_g_x.scalar_mul(&r);
    let p_x = f_x.add(&r_times_g_x).ok().unwrap();
    let p_com = PCSEngine::commit(&srs, &p_x);
    let p_c = p_com.C.clone();
    let p_aux = p_com.aux.iter().cloned().collect::<Vec<_>>();

    // open p_x at rho
    let proof_p_at_rho = PCSEngine::open(&p_x, p_com, &rho_first_half);
    let p_at_rho = p_x.evaluate(&rho);

    // verifier: p(rho) = f(rho) + r * g(rho)
    let expected = f_x.evaluate(&rho).add(&r.mul(&g_x.evaluate(&rho)));
    assert!(p_at_rho.eq(&expected));

    // verifier: compute P = F + r*G
    let mut r_times_g_com = PCSCommitment {
        C: g_com.C.clone(),
        aux: g_com.aux.iter().cloned().collect(),
    };
    r_times_g_com.scale_by_r(&r);
    let p_verifier = f_com.add(&r_times_g_com).ok().unwrap();

    assert!(p_verifier.C.eq(&p_c));
    let _ = p_aux;
    assert!(PCSEngine::verify(&srs, &p_verifier, &proof_p_at_rho, &rho_first_half,
        &rho_second_half, &p_at_rho));
}

#[test]
fn count_witness() {
    let degrees = vec![(4, 4), (8, 8), (16, 16)];
    for (degree_x, degree_y) in degrees {
        let srs = PCSEngine::setup(degree_x, degree_y);
        let polynomial = MultilinearPolynomial::rand(
            srs.get_x_length() + srs.get_y_length(),
        );
        let com = PCSEngine::commit(&srs, &polynomial);

        let x = random_scalars(srs.get_x_length());
        let open = PCSEngine::open(&polynomial, com, &x);
        let degree = degree_x * degree_y;
        let witness_elems = open.vec_D.len()
            + open.f_star_poly.evaluation_over_boolean_hypercube.len();
        println!("witness length in elements: {} for degree {degree}", witness_elems);
    }
}

#[test]
fn commitment_add_length_mismatch() {
    let c1 = PCSCommitment { C: kzh_fold::group::G1Elem::zero(), aux: vec![] };
    let c2 = PCSCommitment {
        C: kzh_fold::group::G1Elem::zero(),
        aux: vec![kzh_fold::group::G1Elem::zero()],
    };
    assert!(matches!(c1.add(&c2), Err(FoldError::LengthMismatch)));
}
