//! Multilinear polynomials given by their evaluations over the boolean
//! hypercube, with coordinate `0` varying slowest.

use vstd::prelude::*;
use vstd::arithmetic::power2::pow2;
use crate::field::{fadd, fmul, fr_ord};
use crate::scalar::{Scalar, views};
use crate::group::dot_mod;
use crate::eq_tree::{EqTree, rev, eq_node, node_at, leaves_of};
use crate::utils::inner_product;
use crate::FoldError;

verus! {

/// The equality-polynomial evaluations of a point `x`, over the boolean
/// hypercube, with coordinate `0` varying slowest.
pub open spec fn eq_evals(x: Seq<int>) -> Seq<int> {
    Seq::new(pow2(x.len()), |j: int| eq_node(rev(x), x.len(), j as nat))
}

/// The evaluation of the polynomial with hypercube table `evals` at the
/// point `x`: the inner product of the table with the equality evaluations.
pub open spec fn mle_eval(evals: Seq<int>, x: Seq<int>) -> int {
    dot_mod(fr_ord(), evals, eq_evals(x))
}

/// Row `i` of the table read as a matrix with `dy` columns.
pub open spec fn table_row(f: Seq<int>, dy: int, i: int) -> Seq<int> {
    f.subrange(i * dy, (i + 1) * dy)
}

/// Column `j` of the table read as a matrix with `dx` rows and `dy` columns.
pub open spec fn table_col(f: Seq<int>, dx: int, dy: int, j: int) -> Seq<int> {
    Seq::new(dx as nat, |i: int| f[i * dy + j])
}

/// A multilinear polynomial, stored as its `2^num_variables` evaluations
/// over the boolean hypercube.
pub struct MultilinearPolynomial {
    pub num_variables: usize,
    pub evaluation_over_boolean_hypercube: Vec<Scalar>,
}

impl MultilinearPolynomial {
    /// The table has exactly one entry per point of the hypercube.
    pub open spec fn wf(&self) -> bool {
        &&& self.evaluation_over_boolean_hypercube@.len() == pow2(self.num_variables as nat)
        &&& self.num_variables <= 30
    }

    /// The model of the evaluation table.
    pub open spec fn table(&self) -> Seq<int> {
        views(self.evaluation_over_boolean_hypercube@)
    }

    /// Wraps an evaluation table over `num_variables` variables.
    pub fn new(evaluation_over_boolean_hypercube: Vec<Scalar>, num_variables: usize) -> (r:
        MultilinearPolynomial)
        requires
            evaluation_over_boolean_hypercube@.len() == pow2(num_variables as nat),
            num_variables <= 30,
        ensures
            r.wf(),
            r.num_variables == num_variables,
            r.table() == views(evaluation_over_boolean_hypercube@),
    {
        MultilinearPolynomial { num_variables, evaluation_over_boolean_hypercube }
    }

    /// A polynomial with a uniformly sampled evaluation table.
    pub fn rand(num_variables: usize) -> (r: MultilinearPolynomial)
        requires
            num_variables <= 30,
        ensures
            r.wf(),
            r.num_variables == num_variables,
    {
        let size = crate::utils::pow2_usize(num_variables);
        let mut evals: Vec<Scalar> = Vec::new();
        let mut k: usize = 0;
        while k < size
            invariant
                k <= size,
                evals@.len() == k,
            decreases size - k,
        {
            evals.push(Scalar::rand());
            k = k + 1;
        }
        MultilinearPolynomial { num_variables, evaluation_over_boolean_hypercube: evals }
    }

    /// Evaluates the polynomial at a point of full dimension.
    pub fn evaluate(&self, point: &Vec<Scalar>) -> (r: Scalar)
        requires
            self.wf(),
            point@.len() == self.num_variables,
        ensures
            r@ == mle_eval(self.table(), views(point@)),
    {
        let tree = EqTree::new(point);
        let leaves = tree.get_leaves();
        proof {
            lemma_tree_leaves_are_eq_evals(&tree, views(point@));
        }
        inner_product(&self.evaluation_over_boolean_hypercube, &leaves)
    }

    /// Multiplies every table entry by `r`.
    pub fn scalar_mul(&mut self, r: &Scalar)
        ensures
            final(self).num_variables == old(self).num_variables,
            final(self).table().len() == old(self).table().len(),
            forall|k: int|
                0 <= k < old(self).table().len() ==> #[trigger] final(self).table()[k] == fmul(
                    fr_ord(), r@, old(self).table()[k]),
    {
        let n = self.evaluation_over_boolean_hypercube.len();
        let mut out: Vec<Scalar> = Vec::new();
        let mut k: usize = 0;
        while k < n
            invariant
                k <= n,
                n == old(self).evaluation_over_boolean_hypercube@.len(),
                self.evaluation_over_boolean_hypercube@ == old(
                    self).evaluation_over_boolean_hypercube@,
                out@.len() == k,
                forall|t: int|
                    0 <= t < k ==> #[trigger] out@[t]@ == fmul(fr_ord(), r@, old(self).table()[t]),
            decreases n - k,
        {
            out.push(r.mul(&self.evaluation_over_boolean_hypercube[k]));
            k = k + 1;
        }
        self.evaluation_over_boolean_hypercube = out;
    }

    /// Adds two tables entry by entry; tables of different sizes are
    /// reported as a length mismatch.
    pub fn add(&self, other: &MultilinearPolynomial) -> (r: Result<
        MultilinearPolynomial,
        FoldError,
    >)
        ensures
            r is Ok <==> (self.num_variables == other.num_variables && self.table().len()
                == other.table().len()),
            r is Err ==> r->Err_0 == FoldError::LengthMismatch,
            r is Ok ==> {
                let t = r->Ok_0;
                &&& t.num_variables == self.num_variables
                &&& t.table().len() == self.table().len()
                &&& forall|k: int|
                    0 <= k < t.table().len() ==> #[trigger] t.table()[k] == fadd(fr_ord(),
                        self.table()[k], other.table()[k])
            },
    {
        if self.num_variables != other.num_variables || self.evaluation_over_boolean_hypercube.len()
            != other.evaluation_over_boolean_hypercube.len() {
            return Err(FoldError::LengthMismatch);
        }
        let n = self.evaluation_over_boolean_hypercube.len();
        let mut out: Vec<Scalar> = Vec::new();
        let mut k: usize = 0;
        while k < n
            invariant
                k <= n,
                n == self.evaluation_over_boolean_hypercube@.len(),
                n == other.evaluation_over_boolean_hypercube@.len(),
                out@.len() == k,
                forall|t: int|
                    0 <= t < k ==> #[trigger] out@[t]@ == fadd(fr_ord(), self.table()[t],
                        other.table()[t]),
            decreases n - k,
        {
            out.push(self.evaluation_over_boolean_hypercube[k].add(
                &other.evaluation_over_boolean_hypercube[k]));
            k = k + 1;
        }
        Ok(MultilinearPolynomial {
            num_variables: self.num_variables,
            evaluation_over_boolean_hypercube: out,
        })
    }

    /// Row `i` of the table read as a matrix whose rows have `degree_y`
    /// entries: the evaluations after fixing the first coordinates to the
    /// boolean encoding of `i`.
    pub fn get_partial_evaluation_for_boolean_input(&self, i: usize, degree_y: usize) -> (r: Vec<
        Scalar,
    >)
        requires
            (i + 1) * degree_y <= self.evaluation_over_boolean_hypercube@.len(),
        ensures
            r@.len() == degree_y,
            views(r@) == table_row(self.table(), degree_y as int, i as int),
    {
        let n = self.evaluation_over_boolean_hypercube.len();
        let mut out: Vec<Scalar> = Vec::new();
        let mut k: usize = 0;
        proof {
            vstd::arithmetic::mul::lemma_mul_is_distributive_add_other_way(degree_y as int,
                i as int, 1);
            vstd::arithmetic::mul::lemma_mul_nonnegative(i as int, degree_y as int);
        }
        while k < degree_y
            invariant
                k <= degree_y,
                n == self.evaluation_over_boolean_hypercube@.len(),
                0 <= i * degree_y,
                (i + 1) * degree_y <= n,
                i * degree_y + degree_y == (i + 1) * degree_y,
                out@.len() == k,
                forall|t: int|
                    0 <= t < k ==> #[trigger] out@[t]@ == self.table()[i * degree_y + t],
            decreases degree_y - k,
        {
            out.push(self.evaluation_over_boolean_hypercube[i * degree_y + k].clone());
            k = k + 1;
        }
        proof {
            assert(views(out@) =~= table_row(self.table(), degree_y as int, i as int));
        }
        out
    }

    /// Fixes the first `x.len()` coordinates of the polynomial to the point
    /// `x`: the result's table entry `j` is the inner product of the
    /// equality evaluations of `x` with column `j` of this table.
    pub fn partial_evaluation(&self, x: &Vec<Scalar>) -> (r: MultilinearPolynomial)
        requires
            self.wf(),
            x@.len() <= self.num_variables,
        ensures
            r.wf(),
            r.num_variables == self.num_variables - x@.len(),
            forall|j: int|
                0 <= j < r.table().len() ==> #[trigger] r.table()[j] == dot_mod(fr_ord(), eq_evals(
                    views(x@)), table_col(self.table(), pow2(x@.len()) as int, pow2((
                    self.num_variables - x@.len()) as nat) as int, j)),
    {
        let xl = x.len();
        let n = self.evaluation_over_boolean_hypercube.len();
        let nv = self.num_variables - xl;
        let dx = crate::utils::pow2_usize(xl);
        let dy = crate::utils::pow2_usize(nv);
        proof {
            vstd::arithmetic::power2::lemma_pow2_adds(xl as nat, nv as nat);
        }
        let tree = EqTree::new(x);
        let eq = tree.get_leaves();
        proof {
            lemma_tree_leaves_are_eq_evals(&tree, views(x@));
        }
        let mut out: Vec<Scalar> = Vec::new();
        let mut j: usize = 0;
        while j < dy
            invariant
                j <= dy,
                self.wf(),
                xl == x@.len(),
                nv == self.num_variables - xl,
                dx == pow2(xl as nat),
                dy == pow2(nv as nat),
                n == self.evaluation_over_boolean_hypercube@.len(),
                dx * dy == n,
                eq@.len() == dx,
                views(eq@) == eq_evals(views(x@)),
                out@.len() == j,
                forall|t: int|
                    0 <= t < j ==> #[trigger] out@[t]@ == dot_mod(fr_ord(), eq_evals(views(x@)),
                        table_col(self.table(), dx as int, dy as int, t)),
            decreases dy - j,
        {
            let mut col: Vec<Scalar> = Vec::new();
            let mut i: usize = 0;
            while i < dx
                invariant
                    i <= dx,
                    j < dy,
                    self.wf(),
                    n == self.evaluation_over_boolean_hypercube@.len(),
                    dx * dy == n,
                    col@.len() == i,
                    forall|t: int|
                        0 <= t < i ==> #[trigger] col@[t]@ == self.table()[t * dy + j],
                decreases dx - i,
            {
                proof {
                    lemma_cell_in_bounds(dx as int, dy as int, i as int, j as int);
                }
                col.push(self.evaluation_over_boolean_hypercube[i * dy + j].clone());
                i = i + 1;
            }
            proof {
                assert(views(col@) =~= table_col(self.table(), dx as int, dy as int, j as int));
            }
            out.push(inner_product(&eq, &col));
            j = j + 1;
        }
        MultilinearPolynomial { num_variables: nv, evaluation_over_boolean_hypercube: out }
    }
}

/// A matrix cell's flat index lies inside the table.
proof fn lemma_cell_in_bounds(dx: int, dy: int, i: int, j: int)
    requires
        0 <= i < dx,
        0 <= j < dy,
    ensures
        0 <= i * dy + j < dx * dy,
{
    vstd::arithmetic::mul::lemma_mul_inequality(i + 1, dx, dy);
    vstd::arithmetic::mul::lemma_mul_is_distributive_add_other_way(dy, i, 1);
    vstd::arithmetic::mul::lemma_mul_nonnegative(i, dy);
}

/// The leaves of the equality tree of a point are the equality-polynomial
/// evaluations of that point.
pub proof fn lemma_tree_leaves_are_eq_evals(tree: &EqTree, x: Seq<int>)
    requires
        tree.wf(),
        tree.is_eq_tree_of(x),
    ensures
        leaves_of(views(tree.nodes@), tree.depth as nat) == eq_evals(x),
{
    let d = tree.depth as nat;
    vstd::arithmetic::power2::lemma_pow2_pos(d);
    assert forall|j: int| 0 <= j < pow2(d) implies leaves_of(views(tree.nodes@), d)[j] == eq_evals(
        x)[j] by {
        assert(node_at(views(tree.nodes@), d, j as nat) == eq_node(rev(x), d, j as nat));
    }
    assert(leaves_of(views(tree.nodes@), d) =~= eq_evals(x));
}

} // verus!
