use kzh_fold::ova::{R1CSShape, SparseMatrix, SparseEntry, OvaInstance, OvaWitness,
    RelaxedOvaInstance, RelaxedOvaWitness, commit_T, pedersen_commit};
use kzh_fold::scalar::{Scalar, BaseScalar};
use kzh_fold::group::GrElem;
use kzh_fold::FoldError;

fn base(n: u64) -> BaseScalar {
    BaseScalar::from_u64(n)
}

/// A small shape over `z = (u, x0, w0, w1)`:
///   row 0: x0 * x0 = w0
///   row 1: w0 * x0 = w1
fn small_shape() -> R1CSShape {
    R1CSShape {
        num_constraints: 2,
        num_vars: 2,
        num_io: 1,
        A: SparseMatrix {
            num_rows: 2,
            num_cols: 4,
            entries: vec![
                SparseEntry { row: 0, col: 1, val: base(1) },
                SparseEntry { row: 1, col: 2, val: base(1) },
            ],
        },
        B: SparseMatrix {
            num_rows: 2,
            num_cols: 4,
            entries: vec![
                SparseEntry { row: 0, col: 1, val: base(1) },
                SparseEntry { row: 1, col: 1, val: base(1) },
            ],
        },
        C: SparseMatrix {
            num_rows: 2,
            num_cols: 4,
            entries: vec![
                SparseEntry { row: 0, col: 2, val: base(1) },
                SparseEntry { row: 1, col: 3, val: base(1) },
            ],
        },
    }
}

fn satisfying_pair(x0: u64, pp_w: &Vec<GrElem>) -> (OvaInstance, OvaWitness) {
    let w = vec![base(x0 * x0), base(x0 * x0 * x0)];
    let commitment = pedersen_commit(pp_w, &w);
    (OvaInstance { commitment, X: vec![base(x0)] }, OvaWitness { W: w })
}

#[test]
fn test_nifs_for_cycle_fold() {
    let shape = small_shape();
    let pp: Vec<GrElem> = (0..4).map(|_| GrElem::rand()).collect();
    let pp_w: Vec<GrElem> = pp[0..2].to_vec();
    let pp_e: Vec<GrElem> = pp[2..4].to_vec();

    let (u1, w1) = satisfying_pair(3, &pp_w);
    assert!(shape.is_ova_satisfied(&u1, &w1, &pp_w));

    // turn the first pair into a running relaxed pair
    let running_u = RelaxedOvaInstance::from_instance(&u1);
    let running_w = RelaxedOvaWitness::from_witness(&shape, &w1);
    assert!(shape.is_relaxed_ova_satisfied(&running_u, &running_w, &pp_w, &pp_e));

    // a second satisfying pair
    let (u2, w2) = satisfying_pair(5, &pp_w);
    assert!(shape.is_ova_satisfied(&u2, &w2, &pp_w));

    // compute the folding cross term and its commitment
    let (t, commitment_t) = commit_T(&shape, &pp_e, &running_u, &running_w, &u2, &w2);

    // a random challenge, drawn in the companion field
    let r = Scalar::rand().to_base();

    // fold instance and witness
    let folded_u = running_u.fold(&u2, &commitment_t, &r).ok().unwrap();
    let folded_w = running_w.fold(&w2, &t, &r).ok().unwrap();

    // the folded pair still satisfies the relaxed relation
    assert!(shape.is_relaxed_ova_satisfied(&folded_u, &folded_w, &pp_w, &pp_e));
}

#[test]
fn second_fold_still_satisfies() {
    let shape = small_shape();
    let pp: Vec<GrElem> = (0..4).map(|_| GrElem::rand()).collect();
    let pp_w: Vec<GrElem> = pp[0..2].to_vec();
    let pp_e: Vec<GrElem> = pp[2..4].to_vec();

    let (u1, w1) = satisfying_pair(2, &pp_w);
    let mut running_u = RelaxedOvaInstance::from_instance(&u1);
    let mut running_w = RelaxedOvaWitness::from_witness(&shape, &w1);

    for x0 in [7u64, 11u64] {
        let (u, w) = satisfying_pair(x0, &pp_w);
        let (t, com_t) = commit_T(&shape, &pp_e, &running_u, &running_w, &u, &w);
        let r = Scalar::rand().to_base();
        running_u = running_u.fold(&u, &com_t, &r).ok().unwrap();
        running_w = running_w.fold(&w, &t, &r).ok().unwrap();
        assert!(shape.is_relaxed_ova_satisfied(&running_u, &running_w, &pp_w, &pp_e));
    }
}

#[test]
fn ova_fold_length_mismatch() {
    let shape = small_shape();
    let running = RelaxedOvaInstance::new(&shape);
    let instance = OvaInstance { commitment: GrElem::zero(), X: vec![base(1), base(2)] };
    let res = running.fold(&instance, &GrElem::zero(), &base(1));
    assert!(matches!(res, Err(FoldError::LengthMismatch)));
}

#[test]
fn relaxed_relation_rejects_wrong_witness() {
    let shape = small_shape();
    let pp: Vec<GrElem> = (0..4).map(|_| GrElem::rand()).collect();
    let pp_w: Vec<GrElem> = pp[0..2].to_vec();
    let bad_w = OvaWitness { W: vec![base(9), base(28)] };
    let commitment = pedersen_commit(&pp_w, &bad_w.W);
    let inst = OvaInstance { commitment, X: vec![base(3)] };
    // 3 * 9 = 27, not 28, so the second constraint fails
    assert!(!shape.is_ova_satisfied(&inst, &bad_w, &pp_w));
}
