use kzh_fold::eq_tree::EqTree;
use kzh_fold::scalar::Scalar;
use kzh_fold::accumulator::combine_trees_weighted;
use kzh_fold::FoldError;

fn scalars(vals: &[u64]) -> Vec<Scalar> {
    vals.iter().map(|v| Scalar::from_u64(*v)).collect()
}

#[test]
fn test_tree() {
    let x = vec![Scalar::one(), Scalar::zero()];
    let tree = EqTree::new(&x);
    // get the tree difference from the original vector and make sure it's zero
    let dif = tree.difference(&x);
    assert!(dif.is_zero());
}

#[test]
fn test_tree2() {
    let x = scalars(&[3, 141, 59, 26, 535, 897]);

    // get the tree corresponding to vector x and make sure its leaves are
    // equal to the equality-polynomial evaluations with coordinate 0
    // varying slowest
    let tree = EqTree::new(&x);
    let leaves = tree.get_leaves();
    let d = x.len();
    assert_eq!(leaves.len(), 1 << d);
    let one = Scalar::one();
    for j in 0..leaves.len() {
        let mut expected = Scalar::one();
        for k in 0..d {
            let bit = (j >> (d - 1 - k)) & 1;
            let factor = if bit == 1 { x[k].clone() } else { one.sub(&x[k]) };
            expected = expected.mul(&factor);
        }
        assert!(leaves[j].eq(&expected));
    }
}

#[test]
fn eq_tree_round_trip_large_values() {
    let x = scalars(&[12345678901234567, 1, 0, 999999999]);
    let tree = EqTree::new(&x);
    assert!(tree.difference(&x).is_zero());
}

#[test]
fn difference_against_other_point_is_not_zero() {
    let x = scalars(&[7, 11]);
    let other = scalars(&[7, 12]);
    let tree = EqTree::new(&x);
    assert!(!tree.difference(&other).is_zero());
}

#[test]
fn is_zero_detects_nonzero_node() {
    let x = scalars(&[5]);
    let tree = EqTree::new(&x);
    // the root is one, so the tree itself is not the zero tree
    assert!(!tree.is_zero());
}

#[test]
fn linear_combination_depth_mismatch() {
    let t1 = EqTree::new(&scalars(&[1, 2]));
    let t2 = EqTree::new(&scalars(&[1, 2, 3]));
    let w = Scalar::one();
    let res = combine_trees_weighted(&w, &w, &t1, &t2);
    assert!(matches!(res, Err(FoldError::DepthMismatch)));
}

#[test]
fn linear_combination_combines_node_wise() {
    let t1 = EqTree::new(&scalars(&[4, 9]));
    let t2 = EqTree::new(&scalars(&[2, 3]));
    let w1 = Scalar::from_u64(5);
    let w2 = Scalar::from_u64(7);
    let combined = combine_trees_weighted(&w1, &w2, &t1, &t2).ok().unwrap();
    assert_eq!(combined.depth, t1.depth);
    assert_eq!(combined.nodes.len(), t1.nodes.len());
    for k in 0..combined.nodes.len() {
        let expected = w1.mul(&t1.nodes[k]).add(&w2.mul(&t2.nodes[k]));
        assert!(combined.nodes[k].eq(&expected));
    }
}
