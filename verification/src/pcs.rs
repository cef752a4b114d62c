//! The matrix-structured multilinear polynomial commitment engine.
//!
//! A polynomial over `x_length + y_length` variables is read as a
//! `degree_x x degree_y` matrix of hypercube evaluations.  The commitment is
//! a multi-scalar multiplication of the whole table against a matrix of
//! generators; the auxiliary data commits each row separately; an opening
//! proof carries those row commitments and the partial evaluation of the
//! polynomial at the first half of the point.

use vstd::prelude::*;
use vstd::arithmetic::power2::pow2;
use crate::field::{fadd, fmul, fr_ord, in_field, dot};
use crate::scalar::{Scalar, views};
use crate::group::{G1Elem, G2Elem, g1_msm, multi_pairing, pairing, dot_mod};
use crate::polynomial::{MultilinearPolynomial, eq_evals, mle_eval, table_row, table_col};
use crate::eq_tree::EqTree;
use crate::utils::{is_pow2, pow2_usize};

verus! {

/// The models of a sequence of generator rows.
pub open spec fn row_views(m: Seq<Vec<G1Elem>>) -> Seq<Seq<int>> {
    m.map_values(|row: Vec<G1Elem>| views(row@))
}

/// The model of the full-table commitment: the row-by-row accumulation of
/// the multi-scalar multiplications of the first `n` generator rows against
/// the corresponding table rows.
pub open spec fn commit_rows(matrix: Seq<Seq<int>>, f: Seq<int>, dy: int, n: int) -> int
    decreases n,
{
    if n <= 0 {
        0
    } else {
        fadd(
            fr_ord(),
            commit_rows(matrix, f, dy, n - 1),
            dot_mod(fr_ord(), matrix[n - 1], table_row(f, dy, n - 1)),
        )
    }
}

/// Public parameters of the commitment engine.  The ghost trapdoor fields
/// record the discrete logarithms that the setup drew, so that the
/// structural relations between the generator vectors can be stated.
pub struct PolynomialCommitmentSRS {
    /// `degree_x = 2 ^ length of the x variables`
    pub degree_x: usize,
    /// `degree_y = 2 ^ length of the y variables`
    pub degree_y: usize,
    pub matrix_H: Vec<Vec<G1Elem>>,
    pub vec_H: Vec<G1Elem>,
    pub vec_V: Vec<G2Elem>,
    pub V_prime: G2Elem,
    pub x_len: Ghost<nat>,
    pub y_len: Ghost<nat>,
    pub tau: Ghost<Seq<int>>,
    pub alpha: Ghost<int>,
    pub gens: Ghost<Seq<int>>,
    pub v_gen: Ghost<int>,
}

impl PolynomialCommitmentSRS {
    /// Dimensions are powers of two, every vector has its stated length,
    /// and the generator vectors carry the trapdoor structure.
    pub open spec fn wf(&self) -> bool {
        &&& self.degree_x == pow2(self.x_len@)
        &&& self.degree_y == pow2(self.y_len@)
        &&& self.x_len@ <= 30
        &&& self.y_len@ <= 30
        &&& self.matrix_H@.len() == self.degree_x
        &&& forall|i: int|
            0 <= i < self.degree_x ==> (#[trigger] self.matrix_H@[i])@.len() == self.degree_y
        &&& self.vec_H@.len() == self.degree_y
        &&& self.vec_V@.len() == self.degree_x
        &&& self.tau@.len() == self.degree_x
        &&& self.gens@.len() == self.degree_y
        &&& forall|i: int, j: int|
            0 <= i < self.degree_x && 0 <= j < self.degree_y ==> #[trigger] views(
                self.matrix_H@[i]@)[j] == fmul(fr_ord(), self.tau@[i], self.gens@[j])
        &&& forall|j: int|
            0 <= j < self.degree_y ==> #[trigger] self.vec_H@[j]@ == fmul(fr_ord(), self.alpha@,
                self.gens@[j])
        &&& forall|i: int|
            0 <= i < self.degree_x ==> #[trigger] self.vec_V@[i]@ == fmul(fr_ord(), self.tau@[i],
                self.v_gen@)
        &&& self.V_prime@ == fmul(fr_ord(), self.alpha@, self.v_gen@)
    }

    /// The number of `x` variables.
    pub fn get_x_length(&self) -> (r: usize)
        requires
            self.wf(),
        ensures
            r == self.x_len@,
    {
        log2_of_pow2(self.degree_x, Ghost(self.x_len@))
    }

    /// The number of `y` variables.
    pub fn get_y_length(&self) -> (r: usize)
        requires
            self.wf(),
        ensures
            r == self.y_len@,
    {
        log2_of_pow2(self.degree_y, Ghost(self.y_len@))
    }
}

/// The base-two logarithm of a power of two.
fn log2_of_pow2(n: usize, Ghost(k): Ghost<nat>) -> (r: usize)
    requires
        n == pow2(k),
        k <= 30,
    ensures
        r == k,
{
    let mut w: usize = 1;
    let mut l: usize = 0;
    proof {
        vstd::arithmetic::power2::lemma2_to64();
        if 0 < k {
            vstd::arithmetic::power2::lemma_pow2_strictly_increases(0, k);
        }
    }
    while w < n
        invariant
            n == pow2(k),
            k <= 30,
            w == pow2(l as nat),
            l <= k,
        decreases n - w,
    {
        proof {
            vstd::arithmetic::power2::lemma_pow2_adds(l as nat, 1);
            vstd::arithmetic::power2::lemma2_to64();
            if l + 1 > k {
                vstd::arithmetic::power2::lemma_pow2_strictly_increases(k, (l + 1) as nat);
            }
            if l + 1 < k {
                vstd::arithmetic::power2::lemma_pow2_strictly_increases((l + 1) as nat, k);
            }
            vstd::arithmetic::power2::lemma_pow2_strictly_increases(l as nat, k);
        }
        w = w * 2;
        l = l + 1;
    }
    proof {
        if l < k {
            vstd::arithmetic::power2::lemma_pow2_strictly_increases(l as nat, k);
        }
    }
    l
}

/// A commitment: the point binding the whole table, and one row commitment
/// per matrix row.
pub struct PCSCommitment {
    /// the commitment `C` to the polynomial
    pub C: G1Elem,
    /// commitments to the rows of the polynomial's table
    pub aux: Vec<G1Elem>,
}

impl PCSCommitment {
    /// Scales the commitment and its row commitments by `r`.
    pub fn scale_by_r(&mut self, r: &Scalar)
        ensures
            final(self).C@ == fmul(fr_ord(), r@, old(self).C@),
            final(self).aux@.len() == old(self).aux@.len(),
            forall|k: int|
                0 <= k < old(self).aux@.len() ==> #[trigger] final(self).aux@[k]@ == fmul(fr_ord(),
                    r@, old(self).aux@[k]@),
    {
        self.C = self.C.mul(r);
        let n = self.aux.len();
        let mut out: Vec<G1Elem> = Vec::new();
        let mut k: usize = 0;
        while k < n
            invariant
                k <= n,
                n == old(self).aux@.len(),
                self.aux@ == old(self).aux@,
                out@.len() == k,
                forall|t: int|
                    0 <= t < k ==> #[trigger] out@[t]@ == fmul(fr_ord(), r@, old(self).aux@[t]@),
            decreases n - k,
        {
            out.push(self.aux[k].mul(r));
            k = k + 1;
        }
        self.aux = out;
    }

    /// Adds two commitments point-wise; different row counts are reported
    /// as a length mismatch.
    pub fn add(&self, other: &PCSCommitment) -> (r: Result<PCSCommitment, crate::FoldError>)
        ensures
            r is Ok <==> self.aux@.len() == other.aux@.len(),
            r is Err ==> r->Err_0 == crate::FoldError::LengthMismatch,
            r is Ok ==> {
                let t = r->Ok_0;
                &&& t.C@ == fadd(fr_ord(), self.C@, other.C@)
                &&& t.aux@.len() == self.aux@.len()
                &&& forall|k: int|
                    0 <= k < t.aux@.len() ==> #[trigger] t.aux@[k]@ == fadd(fr_ord(),
                        self.aux@[k]@, other.aux@[k]@)
            },
    {
        if self.aux.len() != other.aux.len() {
            return Err(crate::FoldError::LengthMismatch);
        }
        let n = self.aux.len();
        let mut aux: Vec<G1Elem> = Vec::new();
        let mut k: usize = 0;
        while k < n
            invariant
                k <= n,
                n == self.aux@.len(),
                n == other.aux@.len(),
                aux@.len() == k,
                forall|t: int|
                    0 <= t < k ==> #[trigger] aux@[t]@ == fadd(fr_ord(), self.aux@[t]@,
                        other.aux@[t]@),
            decreases n - k,
        {
            aux.push(self.aux[k].add(&other.aux[k]));
            k = k + 1;
        }
        Ok(PCSCommitment { C: self.C.add(&other.C), aux })
    }
}

/// An opening proof: the row commitments and the partially evaluated
/// polynomial.
pub struct PCSOpeningProof {
    pub vec_D: Vec<G1Elem>,
    pub f_star_poly: MultilinearPolynomial,
}

/// The polynomial commitment engine.
pub struct PCSEngine;

/// Splits an evaluation point into its `x` and `y` halves, first extending
/// it with leading zeros up to `x_length + y_length` entries when it is
/// shorter than that.
pub fn split_between_x_and_y(x_length: usize, y_length: usize, r: &Vec<Scalar>, zero: Scalar) -> (
    out: (Vec<Scalar>, Vec<Scalar>))
    requires
        x_length + y_length <= usize::MAX,
    ensures
        out.0@.len() == x_length,
        out.1@.len() == y_length,
        views(out.0@) + views(out.1@) == padded_point(views(r@), zero@, (x_length
            + y_length) as int),
{
    let total = x_length + y_length;
    let mut extended: Vec<Scalar> = Vec::new();
    let pad = if r.len() < total {
        total - r.len()
    } else {
        0
    };
    let mut k: usize = 0;
    while k < pad
        invariant
            k <= pad,
            extended@.len() == k,
            zero@ == zero@,
            forall|t: int| 0 <= t < k ==> #[trigger] extended@[t]@ == zero@,
        decreases pad - k,
    {
        extended.push(zero.clone());
        k = k + 1;
    }
    let mut k2: usize = 0;
    while k2 < r.len()
        invariant
            k2 <= r@.len(),
            extended@.len() == pad + k2,
            forall|t: int| 0 <= t < pad ==> #[trigger] extended@[t]@ == zero@,
            forall|t: int|
                0 <= t < k2 ==> #[trigger] extended@[pad + t]@ == views(r@)[t],
        decreases r@.len() - k2,
    {
        extended.push(r[k2].clone());
        k2 = k2 + 1;
    }
    let mut out_x: Vec<Scalar> = Vec::new();
    let mut k3: usize = 0;
    while k3 < x_length
        invariant
            k3 <= x_length,
            x_length + y_length == total,
            extended@.len() >= total,
            out_x@.len() == k3,
            forall|t: int| 0 <= t < k3 ==> #[trigger] out_x@[t]@ == extended@[t]@,
        decreases x_length - k3,
    {
        out_x.push(extended[k3].clone());
        k3 = k3 + 1;
    }
    let mut out_y: Vec<Scalar> = Vec::new();
    let mut k4: usize = 0;
    while k4 < y_length
        invariant
            k4 <= y_length,
            x_length + y_length == total,
            extended@.len() >= total,
            out_y@.len() == k4,
            forall|t: int| 0 <= t < k4 ==> #[trigger] out_y@[t]@ == extended@[x_length + t]@,
        decreases y_length - k4,
    {
        out_y.push(extended[x_length + k4].clone());
        k4 = k4 + 1;
    }
    proof {
        let lhs = views(out_x@) + views(out_y@);
        let rhs = padded_point(views(r@), zero@, total as int);
        assert(rhs.len() == total);
        assert forall|idx: int| 0 <= idx < total implies lhs[idx] == rhs[idx] by {
            let e: int = if idx < x_length {
                out_x@[idx]@
            } else {
                out_y@[idx - x_length]@
            };
            assert(lhs[idx] == extended@[idx]@);
            if views(r@).len() < total {
                if idx < pad {
                    assert(extended@[idx]@ == zero@);
                } else {
                    assert(extended@[pad + (idx - pad)]@ == views(r@)[idx - pad]);
                }
            } else {
                assert(extended@[pad + idx]@ == views(r@)[idx]);
            }
        }
        assert(lhs =~= rhs);
    }
    (out_x, out_y)
}

/// The point extended with leading zeros (or truncated) to `total` entries:
/// what the engine actually splits.
pub open spec fn padded_point(r: Seq<int>, zero: int, total: int) -> Seq<int> {
    if r.len() < total {
        Seq::new((total - r.len()) as nat, |i: int| zero) + r
    } else {
        r.subrange(0, total)
    }
}

impl PCSEngine {
    /// Draws fresh public parameters for a `degree_x x degree_y` table.
    pub fn setup(degree_x: usize, degree_y: usize) -> (r: PolynomialCommitmentSRS)
        requires
            crate::utils::is_pow2(degree_x as nat),
            crate::utils::is_pow2(degree_y as nat),
            degree_x <= 0x4000_0000,
            degree_y <= 0x4000_0000,
        ensures
            r.wf(),
            r.degree_x == degree_x,
            r.degree_y == degree_y,
            pow2(r.x_len@) == degree_x,
            pow2(r.y_len@) == degree_y,
    {
        proof {
            crate::utils::lemma_is_pow2_exists(degree_x as nat);
            crate::utils::lemma_is_pow2_exists(degree_y as nat);
        }
        let ghost xl = choose|k: nat| degree_x as nat == pow2(k);
        let ghost yl = choose|k: nat| degree_y as nat == pow2(k);
        proof {
            vstd::arithmetic::power2::lemma2_to64();
            crate::utils::lemma_pow2_le_inv(xl, 30);
            crate::utils::lemma_pow2_le_inv(yl, 30);
        }
        let mut gens: Vec<G1Elem> = Vec::new();
        let mut k: usize = 0;
        while k < degree_y
            invariant
                k <= degree_y,
                gens@.len() == k,
            decreases degree_y - k,
        {
            gens.push(G1Elem::rand());
            k = k + 1;
        }
        let mut tau: Vec<Scalar> = Vec::new();
        let mut k2: usize = 0;
        while k2 < degree_x
            invariant
                k2 <= degree_x,
                tau@.len() == k2,
            decreases degree_x - k2,
        {
            tau.push(Scalar::rand());
            k2 = k2 + 1;
        }
        let alpha = Scalar::rand();
        let v = G2Elem::rand();

        let mut matrix_H: Vec<Vec<G1Elem>> = Vec::new();
        let mut i: usize = 0;
        while i < degree_x
            invariant
                i <= degree_x,
                tau@.len() == degree_x,
                gens@.len() == degree_y,
                matrix_H@.len() == i,
                forall|a: int|
                    0 <= a < i ==> (#[trigger] matrix_H@[a])@.len() == degree_y,
                forall|a: int, b: int|
                    0 <= a < i && 0 <= b < degree_y ==> #[trigger] views(matrix_H@[a]@)[b] == fmul(
                        fr_ord(), tau@[a]@, gens@[b]@),
            decreases degree_x - i,
        {
            let mut row: Vec<G1Elem> = Vec::new();
            let mut j: usize = 0;
            while j < degree_y
                invariant
                    j <= degree_y,
                    i < degree_x,
                    tau@.len() == degree_x,
                    gens@.len() == degree_y,
                    row@.len() == j,
                    forall|b: int|
                        0 <= b < j ==> #[trigger] row@[b]@ == fmul(fr_ord(), tau@[i as int]@,
                            gens@[b]@),
                decreases degree_y - j,
            {
                row.push(gens[j].mul(&tau[i]));
                j = j + 1;
            }
            matrix_H.push(row);
            i = i + 1;
        }

        let mut vec_H: Vec<G1Elem> = Vec::new();
        let mut j2: usize = 0;
        while j2 < degree_y
            invariant
                j2 <= degree_y,
                gens@.len() == degree_y,
                vec_H@.len() == j2,
                forall|b: int|
                    0 <= b < j2 ==> #[trigger] vec_H@[b]@ == fmul(fr_ord(), alpha@, gens@[b]@),
            decreases degree_y - j2,
        {
            vec_H.push(gens[j2].mul(&alpha));
            j2 = j2 + 1;
        }

        let mut vec_V: Vec<G2Elem> = Vec::new();
        let mut i2: usize = 0;
        while i2 < degree_x
            invariant
                i2 <= degree_x,
                tau@.len() == degree_x,
                vec_V@.len() == i2,
                forall|a: int|
                    0 <= a < i2 ==> #[trigger] vec_V@[a]@ == fmul(fr_ord(), tau@[a]@, v@),
            decreases degree_x - i2,
        {
            vec_V.push(v.mul(&tau[i2]));
            i2 = i2 + 1;
        }

        let V_prime = v.mul(&alpha);

        PolynomialCommitmentSRS {
            degree_x,
            degree_y,
            matrix_H,
            vec_H,
            vec_V,
            V_prime,
            x_len: Ghost(xl),
            y_len: Ghost(yl),
            tau: Ghost(views(tau@)),
            alpha: Ghost(alpha@),
            gens: Ghost(views(gens@)),
            v_gen: Ghost(v@),
        }
    }

    /// Commits to a polynomial whose table fills the whole matrix.
    pub fn commit(srs: &PolynomialCommitmentSRS, poly: &MultilinearPolynomial) -> (r:
        PCSCommitment)
        requires
            srs.wf(),
            poly.wf(),
            poly.num_variables == srs.x_len@ + srs.y_len@,
        ensures
            r.C@ == commit_rows(row_views(srs.matrix_H@), poly.table(), srs.degree_y as int,
                srs.degree_x as int),
            r.aux@.len() == srs.degree_x,
            forall|i: int|
                0 <= i < srs.degree_x ==> #[trigger] r.aux@[i]@ == dot_mod(fr_ord(), views(
                    srs.vec_H@), table_row(poly.table(), srs.degree_y as int, i)),
    {
        proof {
            vstd::arithmetic::power2::lemma_pow2_adds(srs.x_len@, srs.y_len@);
        }
        let dx = srs.degree_x;
        let dy = srs.degree_y;
        let mut c = G1Elem::zero();
        let mut aux: Vec<G1Elem> = Vec::new();
        let mut i: usize = 0;
        proof {
            lemma_table_fits(dx as int, dy as int, poly.table().len() as int);
        }
        while i < dx
            invariant
                i <= dx,
                srs.wf(),
                poly.wf(),
                dx == srs.degree_x,
                dy == srs.degree_y,
                dx * dy == poly.table().len(),
                c@ == commit_rows(row_views(srs.matrix_H@), poly.table(), dy as int, i as int),
                aux@.len() == i,
                forall|t: int|
                    0 <= t < i ==> #[trigger] aux@[t]@ == dot_mod(fr_ord(), views(srs.vec_H@),
                        table_row(poly.table(), dy as int, t)),
            decreases dx - i,
        {
            proof {
                vstd::arithmetic::mul::lemma_mul_inequality(i as int + 1, dx as int, dy as int);
                vstd::arithmetic::mul::lemma_mul_nonnegative(i as int, dy as int);
            }
            let row = poly.get_partial_evaluation_for_boolean_input(i, dy);
            let row_c = g1_msm(&srs.matrix_H[i], &row);
            c = c.add(&row_c);
            aux.push(g1_msm(&srs.vec_H, &row));
            i = i + 1;
        }
        PCSCommitment { C: c, aux }
    }

    /// Opens a commitment at the `x` half of a point: hands out the row
    /// commitments and the partial evaluation at `x`.
    pub fn open(poly: &MultilinearPolynomial, com: PCSCommitment, x: &Vec<Scalar>) -> (r:
        PCSOpeningProof)
        requires
            poly.wf(),
            x@.len() <= poly.num_variables,
        ensures
            views(r.vec_D@) == views(com.aux@),
            r.f_star_poly.wf(),
            r.f_star_poly.num_variables == poly.num_variables - x@.len(),
            forall|j: int|
                0 <= j < r.f_star_poly.table().len() ==> #[trigger] r.f_star_poly.table()[j]
                    == dot_mod(fr_ord(), eq_evals(views(x@)), table_col(poly.table(), pow2(
                    x@.len()) as int, pow2((poly.num_variables - x@.len()) as nat) as int, j)),
    {
        PCSOpeningProof { vec_D: com.aux, f_star_poly: poly.partial_evaluation(x) }
    }

    /// Verifies an opening proof: the pairing check binding the row
    /// commitments to `C`, the multi-scalar check binding the partial
    /// evaluation to the row commitments, and the final evaluation check.
    pub fn verify(
        srs: &PolynomialCommitmentSRS,
        c: &PCSCommitment,
        proof: &PCSOpeningProof,
        x: &Vec<Scalar>,
        y: &Vec<Scalar>,
        z: &Scalar,
    ) -> (r: bool)
        requires
            srs.wf(),
            x@.len() == srs.x_len@,
            y@.len() == srs.y_len@,
            proof.vec_D@.len() == srs.degree_x,
            proof.f_star_poly.wf(),
            proof.f_star_poly.num_variables == srs.y_len@,
        ensures
            r == (pairing_check(views(proof.vec_D@), views(srs.vec_V@), c.C@, srs.V_prime@)
                && msm_check(views(srs.vec_H@), proof.f_star_poly.table(), views(proof.vec_D@),
                views(x@)) && mle_eval(proof.f_star_poly.table(), views(y@)) == z@),
    {
        let lhs = multi_pairing(&proof.vec_D, &srs.vec_V);
        let rhs = pairing(&c.C, &srs.V_prime);
        if !lhs.eq(&rhs) {
            return false;
        }
        let tree = EqTree::new(x);
        let leaves = tree.get_leaves();
        proof {
            crate::polynomial::lemma_tree_leaves_are_eq_evals(&tree, views(x@));
        }
        let m1 = g1_msm(&srs.vec_H, &proof.f_star_poly.evaluation_over_boolean_hypercube);
        let m2 = g1_msm(&proof.vec_D, &leaves);
        if !m1.eq(&m2) {
            return false;
        }
        let y_expected = proof.f_star_poly.evaluate(y);
        y_expected.eq(z)
    }
}

/// The pairing condition of verification: the product of the pairings of
/// the row commitments with the `V` vector equals the pairing of `C` with
/// `V'`.
pub open spec fn pairing_check(d: Seq<int>, vv: Seq<int>, c: int, v_prime: int) -> bool {
    dot_mod(fr_ord(), d, vv) == fmul(fr_ord(), c, v_prime)
}

/// The multi-scalar condition of verification: the partial evaluation,
/// committed under the `H` vector, matches the equality-weighted sum of the
/// row commitments.
pub open spec fn msm_check(vec_h: Seq<int>, f_star: Seq<int>, d: Seq<int>, x: Seq<int>) -> bool {
    dot_mod(fr_ord(), vec_h, f_star) == dot_mod(fr_ord(), d, eq_evals(x))
}

/// A full matrix of `dx` rows of `dy` entries has `dx * dy` cells.
proof fn lemma_table_fits(dx: int, dy: int, len: int)
    requires
        dx * dy == len,
    ensures
        dx * dy == len,
{
}

/// The trapdoor-weighted sum of the first `n` generator-row inner products:
/// what the full-table commitment's discrete logarithm amounts to.
pub open spec fn tau_row_sum(tau: Seq<int>, g: Seq<int>, f: Seq<int>, dy: int, n: int) -> int
    decreases n,
{
    if n <= 0 {
        0
    } else {
        tau_row_sum(tau, g, f, dy, n - 1) + tau[n - 1] * dot(g, table_row(f, dy, n - 1))
    }
}

/// A dot product against a vector whose entries are a common scalar times
/// base generators pulls the scalar out.
proof fn lemma_dot_scaled_left(m: int, alpha: int, h: Seq<int>, g: Seq<int>, w: Seq<int>)
    requires
        m > 1,
        h.len() == g.len(),
        w.len() == h.len(),
        forall|j: int| 0 <= j < h.len() ==> h[j] == fmul(m, alpha, g[j]),
    ensures
        dot(h, w) % m == (alpha * dot(g, w)) % m,
    decreases w.len(),
{
    if w.len() == 0 {
        vstd::arithmetic::div_mod::lemma_small_mod(0, m as nat);
        assert((alpha * 0) % m == 0) by {
            vstd::arithmetic::mul::lemma_mul_basics(alpha);
            vstd::arithmetic::div_mod::lemma_small_mod(0, m as nat);
        }
    } else {
        let h1 = h.drop_last();
        let g1 = g.drop_last();
        let w1 = w.drop_last();
        assert(forall|j: int| 0 <= j < h1.len() ==> h1[j] == fmul(m, alpha, g1[j]));
        lemma_dot_scaled_left(m, alpha, h1, g1, w1);
        let dprev = dot(h1, w1);
        let gl = g.last();
        let wl = w.last();
        assert(h.last() == (alpha * gl) % m);
        assert(dot(h, w) % m == (dprev + alpha * (gl * wl)) % m) by {
            vstd::arithmetic::div_mod::lemma_mul_mod_noop_left(alpha * gl, wl, m);
            vstd::arithmetic::div_mod::lemma_add_mod_noop_right(dprev, ((alpha * gl) % m) * wl, m);
            vstd::arithmetic::div_mod::lemma_add_mod_noop_right(dprev, (alpha * gl) * wl, m);
            vstd::arithmetic::mul::lemma_mul_is_associative(alpha, gl, wl);
        }
        assert((dprev + alpha * (gl * wl)) % m == (alpha * dot(g1, w1) + alpha * (gl * wl))
            % m) by {
            vstd::arithmetic::div_mod::lemma_add_mod_noop(dprev, alpha * (gl * wl), m);
            vstd::arithmetic::div_mod::lemma_add_mod_noop(alpha * dot(g1, w1), alpha * (gl * wl),
                m);
            vstd::arithmetic::div_mod::lemma_mod_twice(dprev, m);
            vstd::arithmetic::div_mod::lemma_mod_twice(alpha * dot(g1, w1), m);
            vstd::arithmetic::div_mod::lemma_mod_twice(alpha * (gl * wl), m);
        }
        assert(alpha * dot(g1, w1) + alpha * (gl * wl) == alpha * dot(g, w)) by {
            vstd::arithmetic::mul::lemma_mul_is_distributive_add(alpha, dot(g1, w1), gl * wl);
        }
    }
}

/// The full-table commitment's model is the trapdoor-weighted sum of the
/// generator-row inner products.
proof fn lemma_commit_rows_trapdoor(
    matrix: Seq<Seq<int>>,
    tau: Seq<int>,
    g: Seq<int>,
    f: Seq<int>,
    dy: int,
    n: int,
)
    requires
        0 <= n,
        n <= matrix.len(),
        n <= tau.len(),
        dy >= 0,
        n * dy <= f.len(),
        forall|i: int| 0 <= i < n ==> (#[trigger] matrix[i]).len() == g.len(),
        g.len() == dy,
        forall|i: int, j: int|
            0 <= i < n && 0 <= j < dy ==> #[trigger] matrix[i][j] == fmul(fr_ord(), tau[i], g[j]),
    ensures
        commit_rows(matrix, f, dy, n) == tau_row_sum(tau, g, f, dy, n) % fr_ord(),
    decreases n,
{
    let m = fr_ord();
    if n == 0 {
        vstd::arithmetic::div_mod::lemma_small_mod(0, m as nat);
    } else {
        vstd::arithmetic::mul::lemma_mul_inequality(n - 1, n, dy);
        lemma_commit_rows_trapdoor(matrix, tau, g, f, dy, n - 1);
        let row = table_row(f, dy, n - 1);
        assert(row.len() == dy) by {
            vstd::arithmetic::mul::lemma_mul_is_distributive_add_other_way(dy, n - 1, 1);
            vstd::arithmetic::mul::lemma_mul_nonnegative(n - 1, dy);
        }
        lemma_dot_scaled_left(m, tau[n - 1], matrix[n - 1], g, row);
        let prev = tau_row_sum(tau, g, f, dy, n - 1);
        let term = tau[n - 1] * dot(g, row);
        assert(commit_rows(matrix, f, dy, n) == fadd(m, prev % m, term % m));
        assert(fadd(m, prev % m, term % m) == (prev + term) % m) by {
            vstd::arithmetic::div_mod::lemma_add_mod_noop(prev, term, m);
            vstd::arithmetic::div_mod::lemma_mod_twice(prev + term, m);
        }
    }
}

/// A dot product of scaled row commitments against scaled second-group
/// generators collapses to the paired-scalar times the trapdoor sum.
proof fn lemma_dot_products_collapse(
    m: int,
    d: Seq<int>,
    vv: Seq<int>,
    alpha: int,
    v: int,
    tau: Seq<int>,
    g: Seq<int>,
    f: Seq<int>,
    dy: int,
    n: int,
)
    requires
        m > 1,
        0 <= n,
        d.len() == n,
        vv.len() == n,
        n <= tau.len(),
        forall|i: int|
            0 <= i < n ==> #[trigger] d[i] == (alpha * dot(g, table_row(f, dy, i))) % m,
        forall|i: int| 0 <= i < n ==> #[trigger] vv[i] == fmul(m, tau[i], v),
    ensures
        dot(d, vv) % m == ((alpha * v) * tau_row_sum(tau, g, f, dy, n)) % m,
    decreases n,
{
    if n == 0 {
        vstd::arithmetic::div_mod::lemma_small_mod(0, m as nat);
        assert(((alpha * v) * 0) % m == 0) by {
            vstd::arithmetic::mul::lemma_mul_basics(alpha * v);
            vstd::arithmetic::div_mod::lemma_small_mod(0, m as nat);
        }
    } else {
        let d1 = d.drop_last();
        let vv1 = vv.drop_last();
        assert(forall|i: int|
            0 <= i < n - 1 ==> #[trigger] d1[i] == (alpha * dot(g, table_row(f, dy, i))) % m);
        assert(forall|i: int| 0 <= i < n - 1 ==> #[trigger] vv1[i] == fmul(m, tau[i], v));
        lemma_dot_products_collapse(m, d1, vv1, alpha, v, tau, g, f, dy, n - 1);
        let sl = dot(g, table_row(f, dy, n - 1));
        let tl = tau[n - 1];
        let dprev = dot(d1, vv1);
        assert(dot(d, vv) == dprev + d.last() * vv.last());
        assert((d.last() * vv.last()) % m == ((alpha * v) * (tl * sl)) % m) by {
            vstd::arithmetic::div_mod::lemma_mul_mod_noop_general(alpha * sl, tl * v, m);
            assert((alpha * sl) * (tl * v) == (alpha * v) * (tl * sl)) by {
                vstd::arithmetic::mul::lemma_mul_is_associative(alpha, sl, tl * v);
                vstd::arithmetic::mul::lemma_mul_is_associative(sl, tl, v);
                vstd::arithmetic::mul::lemma_mul_is_commutative(sl, tl);
                vstd::arithmetic::mul::lemma_mul_is_associative(tl, sl, v);
                vstd::arithmetic::mul::lemma_mul_is_commutative(tl * sl, v);
                vstd::arithmetic::mul::lemma_mul_is_associative(alpha, v, tl * sl);
                vstd::arithmetic::mul::lemma_mul_is_associative(alpha, tl * sl, v);
            }
        }
        assert(dot(d, vv) % m == (dprev + (alpha * v) * (tl * sl)) % m) by {
            vstd::arithmetic::div_mod::lemma_add_mod_noop_right(dprev, d.last() * vv.last(), m);
            vstd::arithmetic::div_mod::lemma_add_mod_noop_right(dprev, (alpha * v) * (tl * sl), m);
        }
        assert((dprev + (alpha * v) * (tl * sl)) % m == ((alpha * v) * tau_row_sum(tau, g, f, dy,
            n - 1) + (alpha * v) * (tl * sl)) % m) by {
            vstd::arithmetic::div_mod::lemma_add_mod_noop(dprev, (alpha * v) * (tl * sl), m);
            vstd::arithmetic::div_mod::lemma_add_mod_noop((alpha * v) * tau_row_sum(tau, g, f, dy,
                n - 1), (alpha * v) * (tl * sl), m);
            vstd::arithmetic::div_mod::lemma_mod_twice(dprev, m);
            vstd::arithmetic::div_mod::lemma_mod_twice((alpha * v) * tau_row_sum(tau, g, f, dy, n
                - 1), m);
            vstd::arithmetic::div_mod::lemma_mod_twice((alpha * v) * (tl * sl), m);
        }
        assert((alpha * v) * tau_row_sum(tau, g, f, dy, n - 1) + (alpha * v) * (tl * sl) == (alpha
            * v) * tau_row_sum(tau, g, f, dy, n)) by {
            vstd::arithmetic::mul::lemma_mul_is_distributive_add(alpha * v, tau_row_sum(tau, g, f,
                dy, n - 1), tl * sl);
        }
    }
}

/// Fresh validity, pairing side: row commitments drawn under the `H`
/// vector, against the `V` vector, pair exactly as the full-table
/// commitment does against `V'` — the structural identity behind
/// converting an opening proof into an accumulator that `decide` accepts.
pub proof fn lemma_fresh_pairing_check(
    srs: &PolynomialCommitmentSRS,
    f: Seq<int>,
    d: Seq<int>,
    c: int,
)
    requires
        srs.wf(),
        f.len() == srs.degree_x * srs.degree_y,
        d.len() == srs.degree_x,
        forall|i: int|
            0 <= i < srs.degree_x ==> #[trigger] d[i] == dot_mod(fr_ord(), views(srs.vec_H@),
                table_row(f, srs.degree_y as int, i)),
        c == commit_rows(row_views(srs.matrix_H@), f, srs.degree_y as int, srs.degree_x as int),
    ensures
        pairing_check(d, views(srs.vec_V@), c, srs.V_prime@),
{
    let m = fr_ord();
    let dx = srs.degree_x as int;
    let dy = srs.degree_y as int;
    let tau = srs.tau@;
    let g = srs.gens@;
    let alpha = srs.alpha@;
    let v = srs.v_gen@;
    let tsum = tau_row_sum(tau, g, f, dy, dx);

    // each row commitment pulls the common generator scalar out
    assert forall|i: int| 0 <= i < dx implies #[trigger] d[i] == (alpha * dot(g, table_row(f, dy,
        i))) % m by {
        let row = table_row(f, dy, i);
        assert(row.len() == dy) by {
            vstd::arithmetic::mul::lemma_mul_inequality(i + 1, dx, dy);
            vstd::arithmetic::mul::lemma_mul_is_distributive_add_other_way(dy, i, 1);
            vstd::arithmetic::mul::lemma_mul_nonnegative(i, dy);
        }
        lemma_dot_scaled_left(m, alpha, views(srs.vec_H@), g, row);
    }

    // the table commitment is the trapdoor-weighted sum
    assert(c == tsum % m) by {
        assert(forall|i: int|
            0 <= i < dx ==> (#[trigger] row_views(srs.matrix_H@)[i]).len() == g.len());
        assert(forall|i: int, j: int|
            0 <= i < dx && 0 <= j < dy ==> #[trigger] row_views(srs.matrix_H@)[i][j] == fmul(m,
                tau[i], g[j]));
        vstd::arithmetic::mul::lemma_mul_is_commutative(dx, dy);
        lemma_commit_rows_trapdoor(row_views(srs.matrix_H@), tau, g, f, dy, dx);
    }

    // both pairing sides collapse to the same product
    lemma_dot_products_collapse(m, d, views(srs.vec_V@), alpha, v, tau, g, f, dy, dx);
    assert(fmul(m, c, srs.V_prime@) == ((alpha * v) * tsum) % m) by {
        vstd::arithmetic::div_mod::lemma_mul_mod_noop_general(tsum, alpha * v, m);
        vstd::arithmetic::mul::lemma_mul_is_commutative(tsum, alpha * v);
    }
}

} // verus!
