use kzh_fold::transcript::Transcript;
use kzh_fold::scalar::Scalar;
use kzh_fold::group::G1Elem;

#[test]
fn transcript_same_history_same_challenge() {
    let mut t1 = Transcript::new("a");
    let mut t2 = Transcript::new("b");
    t1.append_u64("n", 42);
    t2.append_u64("n", 42);
    t1.append_scalar("s", &Scalar::from_u64(7));
    t2.append_scalar("s", &Scalar::from_u64(7));
    let c1 = t1.challenge_scalar("c");
    let c2 = t2.challenge_scalar("c");
    assert!(c1.eq(&c2));
    // the challenge is itself absorbed, so the next challenge agrees too
    let d1 = t1.challenge_scalar("c");
    let d2 = t2.challenge_scalar("c");
    assert!(d1.eq(&d2));
}

#[test]
fn transcript_different_history_different_challenge() {
    let mut t1 = Transcript::new("a");
    let mut t2 = Transcript::new("a");
    t1.append_u64("n", 1);
    t2.append_u64("n", 2);
    let c1 = t1.challenge_scalar("c");
    let c2 = t2.challenge_scalar("c");
    assert!(!c1.eq(&c2));
}

#[test]
fn transcript_challenge_vector_length_and_determinism() {
    let mut t1 = Transcript::new("a");
    let mut t2 = Transcript::new("a");
    t1.append_scalar("s", &Scalar::from_u64(9));
    t2.append_scalar("s", &Scalar::from_u64(9));
    let v1 = t1.challenge_vector("v", 5);
    let v2 = t2.challenge_vector("v", 5);
    assert_eq!(v1.len(), 5);
    assert_eq!(v2.len(), 5);
    for k in 0..5 {
        assert!(v1[k].eq(&v2[k]));
    }
    // consecutive challenges differ
    assert!(!v1[0].eq(&v1[1]));
}

#[test]
fn transcript_points_are_absorbed() {
    let p = G1Elem::rand();
    let q = G1Elem::rand();
    let mut t1 = Transcript::new("a");
    let mut t2 = Transcript::new("a");
    t1.append_point("p", &p);
    t2.append_point("p", &q);
    let c1 = t1.challenge_scalar("c");
    let c2 = t2.challenge_scalar("c");
    assert!(!c1.eq(&c2));

    let mut t3 = Transcript::new("a");
    let mut t4 = Transcript::new("a");
    t3.append_points("ps", &vec![p.clone(), q.clone()]);
    t4.append_point("p", &p);
    t4.append_point("p", &q);
    let c3 = t3.challenge_scalar("c");
    let c4 = t4.challenge_scalar("c");
    assert!(c3.eq(&c4));
}
