use kzh_fold::utils::{compute_powers, power, is_power_of_two, inner_product};
use kzh_fold::scalar::Scalar;

fn compute_powers_non_parallel(x: &Scalar, n: usize) -> Vec<Scalar> {
    let mut powers = vec![Scalar::one()];
    let mut cur = x.clone();
    for _ in 0..n - 1 {
        powers.push(cur.clone());
        cur = cur.mul(x);
    }
    powers
}

fn assert_scalar_vecs_equal(a: &[Scalar], b: &[Scalar]) {
    assert_eq!(a.len(), b.len(), "The results of the original and parallel implementations do not match.");
    for k in 0..a.len() {
        assert!(a[k].eq(&b[k]), "The results of the original and parallel implementations do not match.");
    }
}

#[test]
fn test_compute_powers() {
    let f = Scalar::rand();
    let n = 16;

    let result_original = compute_powers_non_parallel(&f, n);
    let result_parallel = compute_powers(&f, n);
    assert_scalar_vecs_equal(&result_original, &result_parallel);

    let n = 32;
    let result_original = compute_powers_non_parallel(&f, n);
    let result_parallel = compute_powers(&f, n);
    assert_scalar_vecs_equal(&result_original, &result_parallel);

    let n = 1234567;
    let result_original = compute_powers_non_parallel(&f, n);
    let result_parallel = compute_powers(&f, n);
    assert_scalar_vecs_equal(&result_original, &result_parallel);

    let n = 1001;
    let result_original = compute_powers_non_parallel(&f, n);
    let result_parallel = compute_powers(&f, n);
    assert_scalar_vecs_equal(&result_original, &result_parallel);
}

#[test]
fn compute_pow_test() {
    let two = Scalar::from_u64(2);
    assert!(power(&two, 0).eq(&Scalar::one()));
    assert!(power(&two, 1).eq(&Scalar::from_u64(2)));
    assert!(power(&two, 9).eq(&Scalar::from_u64(512)));
}

#[test]
fn inner_product_test() {
    let one = Scalar::one();
    let zero = Scalar::zero();
    let vec1 = vec![one.clone(), one.clone(), one.clone()];
    let vec2 = vec![zero.clone(), one.clone(), zero.clone()];
    assert!(inner_product(&vec1, &vec2).eq(&Scalar::one()));
    let vec1 = vec![one.clone(), one.clone(), one.clone()];
    let vec2 = vec![one.clone(), one.clone(), zero.clone()];
    assert!(inner_product(&vec1, &vec2).eq(&Scalar::from_u64(2)));
    let vec1 = vec![one.clone(), one.clone(), one.clone()];
    let vec2 = vec![one.clone(), one.clone(), one.clone()];
    assert!(inner_product(&vec1, &vec2).eq(&Scalar::from_u64(3)));
}

#[test]
fn is_a_power_of_two_test() {
    assert_eq!(is_power_of_two(1), true);  // 2^0
    assert_eq!(is_power_of_two(2), true);  // 2^1
    assert_eq!(is_power_of_two(4), true);  // 2^2
    assert_eq!(is_power_of_two(8), true);  // 2^3
    assert_eq!(is_power_of_two(16), true); // 2^4
    assert_eq!(is_power_of_two(0), false); // 0 is not a power of two
    assert_eq!(is_power_of_two(3), false); // 3 is not a power of two
    assert_eq!(is_power_of_two(5), false); // 5 is not a power of two
    assert_eq!(is_power_of_two(6), false); // 6 is not a power of two
}
