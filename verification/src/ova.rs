//! The relaxed constraint-system folding scheme on the companion curve.
//!
//! A shape is a sparse constraint system over the companion curve's scalar
//! field.  A fresh instance/witness pair satisfies `Az * Bz = Cz` over the
//! vector `z = (1, X, W)`; a relaxed pair carries a relaxation scalar `u`
//! and an error vector `E` and satisfies `Az * Bz = u * Cz + E` over
//! `z = (u, X, W)`.  Folding combines a running relaxed pair with a fresh
//! pair under a challenge `r`, absorbing the cross term into the error.

use vstd::prelude::*;
use crate::field::{fadd, fsub, fmul, fq_ord, dot};
use crate::scalar::{BaseScalar, views};
use crate::group::{GrElem, gr_msm, dot_mod};
use crate::FoldError;

verus! {

/// One entry of a sparse matrix.
pub struct SparseEntry {
    pub row: usize,
    pub col: usize,
    pub val: BaseScalar,
}

/// A sparse matrix over the companion curve's scalar field.
pub struct SparseMatrix {
    pub num_rows: usize,
    pub num_cols: usize,
    pub entries: Vec<SparseEntry>,
}

/// The all-zero sequence of length `n`.
pub open spec fn zero_seq(n: nat) -> Seq<int> {
    Seq::new(n, |i: int| 0int)
}

/// The sparse matrix-vector product, folded over the entries in order.
pub open spec fn mv_rec(entries: Seq<SparseEntry>, z: Seq<int>, acc: Seq<int>) -> Seq<int>
    decreases entries.len(),
{
    if entries.len() == 0 {
        acc
    } else {
        mv_rec(entries.drop_last(), z, acc).update(
            entries.last().row as int,
            fadd(
                fq_ord(),
                mv_rec(entries.drop_last(), z, acc)[entries.last().row as int],
                fmul(fq_ord(), entries.last().val@, z[entries.last().col as int]),
            ),
        )
    }
}

impl SparseMatrix {
    /// Every entry points inside the matrix.
    pub open spec fn wf(&self) -> bool {
        forall|k: int|
            0 <= k < self.entries@.len() ==> (#[trigger] self.entries@[k]).row < self.num_rows
                && self.entries@[k].col < self.num_cols
    }

    /// The model of the product of this matrix with `z`.
    pub open spec fn mv_spec(&self, z: Seq<int>) -> Seq<int> {
        mv_rec(self.entries@, z, zero_seq(self.num_rows as nat))
    }

    /// Multiplies the matrix by a vector.
    pub fn multiply(&self, z: &Vec<BaseScalar>) -> (r: Vec<BaseScalar>)
        requires
            self.wf(),
            z@.len() == self.num_cols,
        ensures
            r@.len() == self.num_rows,
            views(r@) == self.mv_spec(views(z@)),
    {
        let mut out: Vec<BaseScalar> = Vec::new();
        let mut i: usize = 0;
        while i < self.num_rows
            invariant
                i <= self.num_rows,
                out@.len() == i,
                forall|t: int| 0 <= t < i ==> #[trigger] out@[t]@ == 0,
            decreases self.num_rows - i,
        {
            out.push(BaseScalar::zero());
            i = i + 1;
        }
        proof {
            assert(views(out@) =~= zero_seq(self.num_rows as nat));
        }
        let mut k: usize = 0;
        while k < self.entries.len()
            invariant
                k <= self.entries@.len(),
                self.wf(),
                z@.len() == self.num_cols,
                out@.len() == self.num_rows,
                views(out@) == mv_rec(self.entries@.subrange(0, k as int), views(z@), zero_seq(
                    self.num_rows as nat)),
            decreases self.entries@.len() - k,
        {
            let e_row = self.entries[k].row;
            let e_col = self.entries[k].col;
            let term = self.entries[k].val.mul(&z[e_col]);
            let updated = out[e_row].add(&term);
            out.set(e_row, updated);
            proof {
                assert(self.entries@.subrange(0, k + 1).drop_last() =~= self.entries@.subrange(0,
                    k as int));
                assert(views(out@) =~= mv_rec(self.entries@.subrange(0, k + 1), views(z@),
                    zero_seq(self.num_rows as nat)));
            }
            k = k + 1;
        }
        proof {
            assert(self.entries@.subrange(0, self.entries@.len() as int) =~= self.entries@);
        }
        out
    }
}

/// The entry-wise product of two equally long sequences, reduced.
pub open spec fn seq_had(a: Seq<int>, b: Seq<int>) -> Seq<int> {
    Seq::new(a.len(), |i: int| fmul(fq_ord(), a[i], b[i]))
}

/// The entry-wise sum of two equally long sequences, reduced.
pub open spec fn seq_add(a: Seq<int>, b: Seq<int>) -> Seq<int> {
    Seq::new(a.len(), |i: int| fadd(fq_ord(), a[i], b[i]))
}

/// The entry-wise difference of two equally long sequences, reduced.
pub open spec fn seq_sub(a: Seq<int>, b: Seq<int>) -> Seq<int> {
    Seq::new(a.len(), |i: int| fsub(fq_ord(), a[i], b[i]))
}

/// Every entry multiplied by `r`, reduced.
pub open spec fn seq_scale(r: int, a: Seq<int>) -> Seq<int> {
    Seq::new(a.len(), |i: int| fmul(fq_ord(), r, a[i]))
}

/// The entry-wise product of two vectors.
pub fn vec_had(a: &Vec<BaseScalar>, b: &Vec<BaseScalar>) -> (r: Vec<BaseScalar>)
    requires
        a@.len() == b@.len(),
    ensures
        r@.len() == a@.len(),
        views(r@) == seq_had(views(a@), views(b@)),
{
    let mut out: Vec<BaseScalar> = Vec::new();
    let mut k: usize = 0;
    while k < a.len()
        invariant
            k <= a@.len(),
            a@.len() == b@.len(),
            out@.len() == k,
            forall|t: int|
                0 <= t < k ==> #[trigger] out@[t]@ == fmul(fq_ord(), views(a@)[t], views(b@)[t]),
        decreases a@.len() - k,
    {
        out.push(a[k].mul(&b[k]));
        k = k + 1;
    }
    proof {
        assert(views(out@) =~= seq_had(views(a@), views(b@)));
    }
    out
}

/// The entry-wise sum of two vectors.
pub fn vec_add(a: &Vec<BaseScalar>, b: &Vec<BaseScalar>) -> (r: Vec<BaseScalar>)
    requires
        a@.len() == b@.len(),
    ensures
        r@.len() == a@.len(),
        views(r@) == seq_add(views(a@), views(b@)),
{
    let mut out: Vec<BaseScalar> = Vec::new();
    let mut k: usize = 0;
    while k < a.len()
        invariant
            k <= a@.len(),
            a@.len() == b@.len(),
            out@.len() == k,
            forall|t: int|
                0 <= t < k ==> #[trigger] out@[t]@ == fadd(fq_ord(), views(a@)[t], views(b@)[t]),
        decreases a@.len() - k,
    {
        out.push(a[k].add(&b[k]));
        k = k + 1;
    }
    proof {
        assert(views(out@) =~= seq_add(views(a@), views(b@)));
    }
    out
}

/// The entry-wise difference of two vectors.
pub fn vec_sub(a: &Vec<BaseScalar>, b: &Vec<BaseScalar>) -> (r: Vec<BaseScalar>)
    requires
        a@.len() == b@.len(),
    ensures
        r@.len() == a@.len(),
        views(r@) == seq_sub(views(a@), views(b@)),
{
    let mut out: Vec<BaseScalar> = Vec::new();
    let mut k: usize = 0;
    while k < a.len()
        invariant
            k <= a@.len(),
            a@.len() == b@.len(),
            out@.len() == k,
            forall|t: int|
                0 <= t < k ==> #[trigger] out@[t]@ == fsub(fq_ord(), views(a@)[t], views(b@)[t]),
        decreases a@.len() - k,
    {
        out.push(a[k].sub(&b[k]));
        k = k + 1;
    }
    proof {
        assert(views(out@) =~= seq_sub(views(a@), views(b@)));
    }
    out
}

/// Every entry of a vector multiplied by `r`.
pub fn vec_scale(r: &BaseScalar, a: &Vec<BaseScalar>) -> (out: Vec<BaseScalar>)
    ensures
        out@.len() == a@.len(),
        views(out@) == seq_scale(r@, views(a@)),
{
    let mut out: Vec<BaseScalar> = Vec::new();
    let mut k: usize = 0;
    while k < a.len()
        invariant
            k <= a@.len(),
            out@.len() == k,
            forall|t: int| 0 <= t < k ==> #[trigger] out@[t]@ == fmul(fq_ord(), r@, views(a@)[t]),
        decreases a@.len() - k,
    {
        out.push(r.mul(&a[k]));
        k = k + 1;
    }
    proof {
        assert(views(out@) =~= seq_scale(r@, views(a@)));
    }
    out
}

/// Copies a vector of base scalars.
pub fn clone_base_vec(v: &Vec<BaseScalar>) -> (r: Vec<BaseScalar>)
    ensures
        r@.len() == v@.len(),
        views(r@) == views(v@),
{
    let mut out: Vec<BaseScalar> = Vec::new();
    let mut k: usize = 0;
    while k < v.len()
        invariant
            k <= v@.len(),
            out@.len() == k,
            forall|t: int| 0 <= t < k ==> #[trigger] out@[t]@ == views(v@)[t],
        decreases v@.len() - k,
    {
        out.push(v[k].clone());
        k = k + 1;
    }
    proof {
        assert(views(out@) =~= views(v@));
    }
    out
}

/// A vector of zero scalars.
pub fn zero_vec(n: usize) -> (r: Vec<BaseScalar>)
    ensures
        r@.len() == n,
        views(r@) == zero_seq(n as nat),
{
    let mut out: Vec<BaseScalar> = Vec::new();
    let mut k: usize = 0;
    while k < n
        invariant
            k <= n,
            out@.len() == k,
            forall|t: int| 0 <= t < k ==> #[trigger] out@[t]@ == 0,
        decreases n - k,
    {
        out.push(BaseScalar::zero());
        k = k + 1;
    }
    proof {
        assert(views(out@) =~= zero_seq(n as nat));
    }
    out
}

/// The commitment to a vector under the given generators.
pub fn pedersen_commit(pp: &Vec<GrElem>, v: &Vec<BaseScalar>) -> (r: GrElem)
    requires
        pp@.len() == v@.len(),
    ensures
        r@ == dot_mod(fq_ord(), views(pp@), views(v@)),
{
    gr_msm(pp, v)
}

/// The shape of the companion constraint system.
pub struct R1CSShape {
    pub num_constraints: usize,
    pub num_vars: usize,
    pub num_io: usize,
    pub A: SparseMatrix,
    pub B: SparseMatrix,
    pub C: SparseMatrix,
}

/// A fresh (unrelaxed) instance: the witness commitment and the public
/// input.
pub struct OvaInstance {
    pub commitment: GrElem,
    pub X: Vec<BaseScalar>,
}

/// A fresh witness.
pub struct OvaWitness {
    pub W: Vec<BaseScalar>,
}

/// A running relaxed instance: witness and error commitments, the public
/// input, and the relaxation scalar.
pub struct RelaxedOvaInstance {
    pub commitment: GrElem,
    pub commitment_E: GrElem,
    pub X: Vec<BaseScalar>,
    pub u: BaseScalar,
}

/// A running relaxed witness: the witness vector and the error vector.
pub struct RelaxedOvaWitness {
    pub W: Vec<BaseScalar>,
    pub E: Vec<BaseScalar>,
}

impl R1CSShape {
    /// All three matrices address the full `z = (u, X, W)` vector and the
    /// constraint rows.
    pub open spec fn wf(&self) -> bool {
        &&& self.A.wf()
        &&& self.B.wf()
        &&& self.C.wf()
        &&& self.A.num_rows == self.num_constraints
        &&& self.B.num_rows == self.num_constraints
        &&& self.C.num_rows == self.num_constraints
        &&& self.A.num_cols == 1 + self.num_io + self.num_vars
        &&& self.B.num_cols == 1 + self.num_io + self.num_vars
        &&& self.C.num_cols == 1 + self.num_io + self.num_vars
        &&& 1 + self.num_io + self.num_vars <= usize::MAX
        &&& self.num_vars + self.num_constraints <= usize::MAX
    }
}

/// The constraint vector `z = (u, X, W)`.
pub fn assemble_z(u: &BaseScalar, x: &Vec<BaseScalar>, w: &Vec<BaseScalar>) -> (r: Vec<BaseScalar>)
    requires
        1 + x@.len() + w@.len() <= usize::MAX,
    ensures
        r@.len() == 1 + x@.len() + w@.len(),
        views(r@) == seq![u@] + views(x@) + views(w@),
{
    let mut out: Vec<BaseScalar> = Vec::new();
    out.push(u.clone());
    let mut k: usize = 0;
    while k < x.len()
        invariant
            k <= x@.len(),
            out@.len() == 1 + k,
            out@[0]@ == u@,
            forall|t: int| 0 <= t < k ==> #[trigger] out@[1 + t]@ == views(x@)[t],
        decreases x@.len() - k,
    {
        out.push(x[k].clone());
        k = k + 1;
    }
    let mut k2: usize = 0;
    while k2 < w.len()
        invariant
            k2 <= w@.len(),
            out@.len() == 1 + x@.len() + k2,
            out@[0]@ == u@,
            forall|t: int| 0 <= t < x@.len() ==> #[trigger] out@[1 + t]@ == views(x@)[t],
            forall|t: int|
                0 <= t < k2 ==> #[trigger] out@[1 + x@.len() + t]@ == views(w@)[t],
        decreases w@.len() - k2,
    {
        out.push(w[k2].clone());
        k2 = k2 + 1;
    }
    proof {
        let rhs = seq![u@] + views(x@) + views(w@);
        assert forall|idx: int| 0 <= idx < out@.len() implies views(out@)[idx] == rhs[idx] by {
            if idx == 0 {
            } else if idx <= x@.len() {
                assert(out@[1 + (idx - 1)]@ == views(x@)[idx - 1]);
            } else {
                assert(out@[1 + x@.len() + (idx - 1 - x@.len())]@ == views(w@)[idx - 1
                    - x@.len()]);
            }
        }
        assert(views(out@) =~= seq![u@] + views(x@) + views(w@));
    }
    out
}

/// Whether every entry of a model sequence is zero.
pub open spec fn all_zero(s: Seq<int>) -> bool {
    forall|i: int| 0 <= i < s.len() ==> #[trigger] s[i] == 0
}

impl R1CSShape {
    /// The fresh relation over models: `Az * Bz = Cz` with `z = (1, X, W)`,
    /// and the commitment binds `W` under the witness generators.
    pub open spec fn ova_sat_spec(
        &self,
        x: Seq<int>,
        w: Seq<int>,
        com: int,
        pp_w: Seq<int>,
    ) -> bool {
        let z = seq![1int] + x + w;
        &&& seq_had(self.A.mv_spec(z), self.B.mv_spec(z)) == self.C.mv_spec(z)
        &&& com == dot_mod(fq_ord(), pp_w, w)
    }

    /// The relaxed relation over models: `Az * Bz = u * Cz + E` with
    /// `z = (u, X, W)`, and the commitments bind `W` and `E`.
    pub open spec fn relaxed_ova_sat_spec(
        &self,
        u: int,
        x: Seq<int>,
        w: Seq<int>,
        e: Seq<int>,
        com_w: int,
        com_e: int,
        pp_w: Seq<int>,
        pp_e: Seq<int>,
    ) -> bool {
        let z = seq![u] + x + w;
        &&& seq_had(self.A.mv_spec(z), self.B.mv_spec(z)) == seq_add(
            seq_scale(u, self.C.mv_spec(z)),
            e,
        )
        &&& com_w == dot_mod(fq_ord(), pp_w, w)
        &&& com_e == dot_mod(fq_ord(), pp_e, e)
    }

    /// Checks a fresh instance/witness pair against the shape.
    pub fn is_ova_satisfied(
        &self,
        instance: &OvaInstance,
        witness: &OvaWitness,
        pp_w: &Vec<GrElem>,
    ) -> (r: bool)
        requires
            self.wf(),
            instance.X@.len() == self.num_io,
            witness.W@.len() == self.num_vars,
            pp_w@.len() == self.num_vars,
        ensures
            r == self.ova_sat_spec(views(instance.X@), views(witness.W@), instance.commitment@,
                views(pp_w@)),
    {
        let one = BaseScalar::one();
        let z = assemble_z(&one, &instance.X, &witness.W);
        let az = self.A.multiply(&z);
        let bz = self.B.multiply(&z);
        let cz = self.C.multiply(&z);
        let left = vec_had(&az, &bz);
        let mut ok = base_vec_eq(&left, &cz);
        let com = pedersen_commit(pp_w, &witness.W);
        if !com.eq(&instance.commitment) {
            ok = false;
        }
        proof {
            assert(seq![1int] + views(instance.X@) + views(witness.W@) =~= views(z@));
        }
        ok
    }

    /// Checks a relaxed instance/witness pair against the shape.
    pub fn is_relaxed_ova_satisfied(
        &self,
        instance: &RelaxedOvaInstance,
        witness: &RelaxedOvaWitness,
        pp_w: &Vec<GrElem>,
        pp_e: &Vec<GrElem>,
    ) -> (r: bool)
        requires
            self.wf(),
            instance.X@.len() == self.num_io,
            witness.W@.len() == self.num_vars,
            witness.E@.len() == self.num_constraints,
            pp_w@.len() == self.num_vars,
            pp_e@.len() == self.num_constraints,
        ensures
            r == self.relaxed_ova_sat_spec(instance.u@, views(instance.X@), views(witness.W@),
                views(witness.E@), instance.commitment@, instance.commitment_E@, views(pp_w@),
                views(pp_e@)),
    {
        let z = assemble_z(&instance.u, &instance.X, &witness.W);
        let az = self.A.multiply(&z);
        let bz = self.B.multiply(&z);
        let cz = self.C.multiply(&z);
        let left = vec_had(&az, &bz);
        let right = vec_add(&vec_scale(&instance.u, &cz), &witness.E);
        let mut ok = base_vec_eq(&left, &right);
        let com_w = pedersen_commit(pp_w, &witness.W);
        if !com_w.eq(&instance.commitment) {
            ok = false;
        }
        let com_e = pedersen_commit(pp_e, &witness.E);
        if !com_e.eq(&instance.commitment_E) {
            ok = false;
        }
        proof {
            assert(seq![instance.u@] + views(instance.X@) + views(witness.W@) =~= views(z@));
        }
        ok
    }
}

/// Whether two equally long vectors agree entry by entry.
pub fn base_vec_eq(a: &Vec<BaseScalar>, b: &Vec<BaseScalar>) -> (r: bool)
    requires
        a@.len() == b@.len(),
    ensures
        r == (views(a@) == views(b@)),
{
    let mut k: usize = 0;
    while k < a.len()
        invariant
            k <= a@.len(),
            a@.len() == b@.len(),
            forall|t: int| 0 <= t < k ==> #[trigger] views(a@)[t] == views(b@)[t],
        decreases a@.len() - k,
    {
        if !a[k].eq(&b[k]) {
            proof {
                assert(views(a@)[k as int] != views(b@)[k as int]);
            }
            return false;
        }
        k = k + 1;
    }
    proof {
        assert(views(a@) =~= views(b@));
    }
    true
}

impl RelaxedOvaInstance {
    /// The trivial all-zero relaxed instance of a shape.
    pub fn new(shape: &R1CSShape) -> (r: RelaxedOvaInstance)
        ensures
            r.X@.len() == shape.num_io,
            views(r.X@) == zero_seq(shape.num_io as nat),
            r.u@ == 0,
            r.commitment@ == 0,
            r.commitment_E@ == 0,
    {
        RelaxedOvaInstance {
            commitment: GrElem::zero(),
            commitment_E: GrElem::zero(),
            X: zero_vec(shape.num_io),
            u: BaseScalar::zero(),
        }
    }

    /// A fresh instance read as a relaxed one: `u = 1`, no error.
    pub fn from_instance(instance: &OvaInstance) -> (r: RelaxedOvaInstance)
        ensures
            views(r.X@) == views(instance.X@),
            r.u@ == 1,
            r.commitment@ == instance.commitment@,
            r.commitment_E@ == 0,
    {
        RelaxedOvaInstance {
            commitment: instance.commitment.clone(),
            commitment_E: GrElem::zero(),
            X: clone_base_vec(&instance.X),
            u: BaseScalar::one(),
        }
    }

    /// Folds a fresh instance into this running instance under `r`: the
    /// public input and witness commitment combine linearly, the error
    /// commitment absorbs the cross-term commitment, and the relaxation
    /// scalar grows by `r`.
    pub fn fold(&self, instance: &OvaInstance, commitment_t: &GrElem, r: &BaseScalar) -> (out:
        Result<RelaxedOvaInstance, FoldError>)
        ensures
            out is Ok <==> self.X@.len() == instance.X@.len(),
            out is Err ==> out->Err_0 == FoldError::LengthMismatch,
            out is Ok ==> {
                let f = out->Ok_0;
                &&& f.X@.len() == self.X@.len()
                &&& views(f.X@) == seq_add(views(self.X@), seq_scale(r@, views(instance.X@)))
                &&& f.commitment@ == fadd(fq_ord(), self.commitment@, fmul(fq_ord(), r@,
                    instance.commitment@))
                &&& f.commitment_E@ == fadd(fq_ord(), self.commitment_E@, fmul(fq_ord(), r@,
                    commitment_t@))
                &&& f.u@ == fadd(fq_ord(), self.u@, r@)
            },
    {
        if self.X.len() != instance.X.len() {
            return Err(FoldError::LengthMismatch);
        }
        let scaled = vec_scale(r, &instance.X);
        let x = vec_add(&self.X, &scaled);
        Ok(RelaxedOvaInstance {
            commitment: self.commitment.add(&instance.commitment.mul(r)),
            commitment_E: self.commitment_E.add(&commitment_t.mul(r)),
            X: x,
            u: self.u.add(r),
        })
    }
}

impl RelaxedOvaWitness {
    /// The all-zero relaxed witness of a shape.
    pub fn zero(shape: &R1CSShape) -> (r: RelaxedOvaWitness)
        ensures
            r.W@.len() == shape.num_vars,
            r.E@.len() == shape.num_constraints,
            views(r.W@) == zero_seq(shape.num_vars as nat),
            views(r.E@) == zero_seq(shape.num_constraints as nat),
    {
        RelaxedOvaWitness { W: zero_vec(shape.num_vars), E: zero_vec(shape.num_constraints) }
    }

    /// A fresh witness read as a relaxed one: no error yet.
    pub fn from_witness(shape: &R1CSShape, witness: &OvaWitness) -> (r: RelaxedOvaWitness)
        ensures
            views(r.W@) == views(witness.W@),
            r.E@.len() == shape.num_constraints,
            views(r.E@) == zero_seq(shape.num_constraints as nat),
    {
        RelaxedOvaWitness {
            W: clone_base_vec(&witness.W),
            E: zero_vec(shape.num_constraints),
        }
    }

    /// Folds a fresh witness into this running witness under `r`, absorbing
    /// the cross-term vector into the error.
    pub fn fold(&self, witness: &OvaWitness, t: &Vec<BaseScalar>, r: &BaseScalar) -> (out: Result<
        RelaxedOvaWitness,
        FoldError,
    >)
        ensures
            out is Ok <==> (self.W@.len() == witness.W@.len() && self.E@.len() == t@.len()),
            out is Err ==> out->Err_0 == FoldError::LengthMismatch,
            out is Ok ==> {
                let f = out->Ok_0;
                &&& f.W@.len() == self.W@.len()
                &&& f.E@.len() == self.E@.len()
                &&& views(f.W@) == seq_add(views(self.W@), seq_scale(r@, views(witness.W@)))
                &&& views(f.E@) == seq_add(views(self.E@), seq_scale(r@, views(t@)))
            },
    {
        if self.W.len() != witness.W.len() || self.E.len() != t.len() {
            return Err(FoldError::LengthMismatch);
        }
        let w_scaled = vec_scale(r, &witness.W);
        let e_scaled = vec_scale(r, t);
        Ok(RelaxedOvaWitness {
            W: vec_add(&self.W, &w_scaled),
            E: vec_add(&self.E, &e_scaled),
        })
    }
}

/// Computes the folding cross term and its commitment: the mixed products
/// of the two pairs' constraint vectors, less the relaxed side's share of
/// `Cz` on both ends.
pub fn commit_T(
    shape: &R1CSShape,
    pp_e: &Vec<GrElem>,
    running_instance: &RelaxedOvaInstance,
    running_witness: &RelaxedOvaWitness,
    instance: &OvaInstance,
    witness: &OvaWitness,
) -> (out: (Vec<BaseScalar>, GrElem))
    requires
        shape.wf(),
        running_instance.X@.len() == shape.num_io,
        running_witness.W@.len() == shape.num_vars,
        instance.X@.len() == shape.num_io,
        witness.W@.len() == shape.num_vars,
        pp_e@.len() == shape.num_constraints,
    ensures
        out.0@.len() == shape.num_constraints,
        views(out.0@) == cross_term_spec(shape, running_instance.u@, views(running_instance.X@),
            views(running_witness.W@), views(instance.X@), views(witness.W@)),
        out.1@ == dot_mod(fq_ord(), views(pp_e@), views(out.0@)),
{
    let z1 = assemble_z(&running_instance.u, &running_instance.X, &running_witness.W);
    let one = BaseScalar::one();
    let z2 = assemble_z(&one, &instance.X, &witness.W);
    let az1 = shape.A.multiply(&z1);
    let bz1 = shape.B.multiply(&z1);
    let cz1 = shape.C.multiply(&z1);
    let az2 = shape.A.multiply(&z2);
    let bz2 = shape.B.multiply(&z2);
    let cz2 = shape.C.multiply(&z2);
    let mixed = vec_add(&vec_had(&az1, &bz2), &vec_had(&az2, &bz1));
    let t = vec_sub(&vec_sub(&mixed, &vec_scale(&running_instance.u, &cz2)), &cz1);
    let com = pedersen_commit(pp_e, &t);
    proof {
        assert(seq![running_instance.u@] + views(running_instance.X@) + views(
            running_witness.W@) =~= views(z1@));
        assert(seq![1int] + views(instance.X@) + views(witness.W@) =~= views(z2@));
    }
    (t, com)
}

/// A dot product against the fold of two vectors splits into the running
/// share plus the challenge-weighted fresh share.
pub proof fn lemma_dot_mod_fold(k: Seq<int>, a: Seq<int>, b: Seq<int>, r: int)
    requires
        a.len() == b.len(),
        a.len() == k.len(),
    ensures
        dot_mod(fq_ord(), k, seq_add(a, seq_scale(r, b))) == fadd(fq_ord(), dot_mod(fq_ord(), k,
            a), fmul(fq_ord(), r, dot_mod(fq_ord(), k, b))),
    decreases k.len(),
{
    let m = fq_ord();
    if k.len() == 0 {
        assert(seq_add(a, seq_scale(r, b)) =~= Seq::<int>::empty());
        vstd::arithmetic::div_mod::lemma_small_mod(0, m as nat);
        assert(fmul(m, r, 0) == 0) by {
            vstd::arithmetic::mul::lemma_mul_basics(r);
            vstd::arithmetic::div_mod::lemma_small_mod(0, m as nat);
        }
    } else {
        let k1 = k.drop_last();
        let a1 = a.drop_last();
        let b1 = b.drop_last();
        lemma_dot_mod_fold(k1, a1, b1, r);
        let sf = seq_add(a, seq_scale(r, b));
        assert(sf.drop_last() =~= seq_add(a1, seq_scale(r, b1)));
        let kl = k.last();
        let al = a.last();
        let bl = b.last();
        let unred = al + r * bl;
        assert(sf.last() == unred % m) by {
            vstd::arithmetic::div_mod::lemma_mul_mod_noop_right(r, bl, m);
            vstd::arithmetic::div_mod::lemma_add_mod_noop_right(al, r * bl, m);
            vstd::arithmetic::div_mod::lemma_mod_twice(unred, m);
        }
        let dprev = dot(k1, sf.drop_last());
        let da1 = dot(k1, a1);
        let db1 = dot(k1, b1);
        assert(dot(k, sf) == dprev + kl * sf.last()) by {
            crate::field::lemma_dot_comm(k, sf);
            crate::field::lemma_dot_comm(k1, sf.drop_last());
        }
        assert(dot(k, sf) % m == (dprev + kl * unred) % m) by {
            vstd::arithmetic::div_mod::lemma_mul_mod_noop_right(kl, unred, m);
            vstd::arithmetic::div_mod::lemma_add_mod_noop_right(dprev, kl * (unred % m), m);
            vstd::arithmetic::div_mod::lemma_add_mod_noop_right(dprev, kl * unred, m);
        }
        assert(dprev % m == (da1 + r * db1) % m) by {
            vstd::arithmetic::div_mod::lemma_mul_mod_noop_right(r, db1, m);
            vstd::arithmetic::div_mod::lemma_add_mod_noop_right(da1, r * db1, m);
            vstd::arithmetic::div_mod::lemma_mod_twice(dprev, m);
        }
        assert(kl * unred == kl * al + r * (bl * kl)) by {
            vstd::arithmetic::mul::lemma_mul_is_distributive_add(kl, al, r * bl);
            vstd::arithmetic::mul::lemma_mul_is_commutative(kl, r * bl);
            vstd::arithmetic::mul::lemma_mul_is_associative(r, bl, kl);
        }
        assert(dot(k, sf) % m == (da1 + r * db1 + kl * al + r * (bl * kl)) % m) by {
            vstd::arithmetic::div_mod::lemma_add_mod_noop(dprev, kl * unred, m);
            vstd::arithmetic::div_mod::lemma_add_mod_noop(da1 + r * db1, kl * unred, m);
            vstd::arithmetic::div_mod::lemma_mod_twice(kl * unred, m);
            vstd::arithmetic::div_mod::lemma_mod_twice(dprev, m);
        }
        assert(dot(k, a) == da1 + kl * al) by {
            crate::field::lemma_dot_comm(k, a);
            crate::field::lemma_dot_comm(k1, a1);
        }
        assert(dot(k, b) == db1 + kl * bl) by {
            crate::field::lemma_dot_comm(k, b);
            crate::field::lemma_dot_comm(k1, b1);
        }
        assert(fadd(m, dot(k, a) % m, fmul(m, r, dot(k, b) % m)) == (da1 + r * db1 + kl * al + r
            * (bl * kl)) % m) by {
            vstd::arithmetic::div_mod::lemma_mul_mod_noop_general(r, dot(k, b), m);
            vstd::arithmetic::div_mod::lemma_add_mod_noop(dot(k, a), r * dot(k, b), m);
            vstd::arithmetic::div_mod::lemma_mod_twice(dot(k, a), m);
            vstd::arithmetic::div_mod::lemma_mod_twice(r * dot(k, b), m);
            vstd::arithmetic::div_mod::lemma_mod_twice(dot(k, a) + r * dot(k, b), m);
            assert(dot(k, a) + r * dot(k, b) == da1 + r * db1 + kl * al + r * (bl * kl)) by {
                vstd::arithmetic::mul::lemma_mul_is_distributive_add(r, db1, kl * bl);
                vstd::arithmetic::mul::lemma_mul_is_associative(r, kl, bl);
                vstd::arithmetic::mul::lemma_mul_is_commutative(kl, bl);
                vstd::arithmetic::mul::lemma_mul_is_commutative(r, kl * bl);
            }
        }
    }
}

/// The length of a sparse matrix-vector product is the accumulator's.
pub proof fn lemma_mv_rec_len(entries: Seq<SparseEntry>, z: Seq<int>, acc: Seq<int>)
    requires
        forall|k: int| 0 <= k < entries.len() ==> (#[trigger] entries[k]).row < acc.len(),
    ensures
        mv_rec(entries, z, acc).len() == acc.len(),
    decreases entries.len(),
{
    if entries.len() > 0 {
        assert(forall|k: int|
            0 <= k < entries.drop_last().len() ==> (#[trigger] entries.drop_last()[k]).row
                < acc.len());
        lemma_mv_rec_len(entries.drop_last(), z, acc);
    }
}

/// A sparse matrix-vector product against folded inputs is the fold of the
/// two products.
pub proof fn lemma_mv_fold(
    entries: Seq<SparseEntry>,
    z1: Seq<int>,
    z2: Seq<int>,
    acc1: Seq<int>,
    acc2: Seq<int>,
    r: int,
    rows: int,
    cols: int,
)
    requires
        z1.len() == z2.len(),
        z1.len() == cols,
        acc1.len() == acc2.len(),
        acc1.len() == rows,
        forall|k: int|
            0 <= k < entries.len() ==> (#[trigger] entries[k]).row < rows && entries[k].col < cols,
    ensures
        mv_rec(entries, seq_add(z1, seq_scale(r, z2)), seq_add(acc1, seq_scale(r, acc2)))
            == seq_add(mv_rec(entries, z1, acc1), seq_scale(r, mv_rec(entries, z2, acc2))),
    decreases entries.len(),
{
    let m = fq_ord();
    let zf = seq_add(z1, seq_scale(r, z2));
    let accf = seq_add(acc1, seq_scale(r, acc2));
    if entries.len() == 0 {
    } else {
        let es = entries.drop_last();
        let e = entries.last();
        assert(forall|k: int|
            0 <= k < es.len() ==> (#[trigger] es[k]).row < rows && es[k].col < cols);
        lemma_mv_fold(es, z1, z2, acc1, acc2, r, rows, cols);
        let m1 = mv_rec(es, z1, acc1);
        let m2 = mv_rec(es, z2, acc2);
        lemma_mv_rec_len(es, z1, acc1);
        lemma_mv_rec_len(es, z2, acc2);
        let row = e.row as int;
        let col = e.col as int;
        let v = e.val@;
        // the updated entry agrees on both sides
        let lhs_val = fadd(m, seq_add(m1, seq_scale(r, m2))[row], fmul(m, v, zf[col]));
        let rhs_val = fadd(m, fadd(m, m1[row], fmul(m, v, z1[col])), fmul(m, r, fadd(m, m2[row],
            fmul(m, v, z2[col]))));
        assert(lhs_val == rhs_val) by {
            lemma_fold_cell(m, m1[row], m2[row], z1[col], z2[col], v, r);
        }
        assert(mv_rec(entries, zf, accf) =~= seq_add(mv_rec(entries, z1, acc1), seq_scale(r,
            mv_rec(entries, z2, acc2))));
    }
}

/// One scatter cell of the folded product splits into the two shares.
proof fn lemma_fold_cell(m: int, m1: int, m2: int, z1: int, z2: int, v: int, r: int)
    requires
        m > 1,
    ensures
        fadd(m, fadd(m, m1, fmul(m, r, m2)), fmul(m, v, fadd(m, z1, fmul(m, r, z2)))) == fadd(
            m,
            fadd(m, m1, fmul(m, v, z1)),
            fmul(m, r, fadd(m, m2, fmul(m, v, z2))),
        ),
{
    let big = m1 + r * m2 + v * z1 + r * (v * z2);
    assert(fadd(m, fadd(m, m1, fmul(m, r, m2)), fmul(m, v, fadd(m, z1, fmul(m, r, z2)))) == big
        % m) by {
        vstd::arithmetic::div_mod::lemma_mul_mod_noop_right(r, m2, m);
        vstd::arithmetic::div_mod::lemma_add_mod_noop_right(m1, r * m2, m);
        vstd::arithmetic::div_mod::lemma_mul_mod_noop_right(r, z2, m);
        vstd::arithmetic::div_mod::lemma_add_mod_noop_right(z1, r * z2, m);
        vstd::arithmetic::div_mod::lemma_mul_mod_noop_right(v, z1 + r * z2, m);
        assert(v * (z1 + r * z2) == v * z1 + r * (v * z2)) by {
            vstd::arithmetic::mul::lemma_mul_is_distributive_add(v, z1, r * z2);
            vstd::arithmetic::mul::lemma_mul_is_commutative(v, r * z2);
            vstd::arithmetic::mul::lemma_mul_is_associative(r, z2, v);
            vstd::arithmetic::mul::lemma_mul_is_commutative(z2, v);
        }
        vstd::arithmetic::div_mod::lemma_add_mod_noop(m1 + r * m2, v * z1 + r * (v * z2), m);
        vstd::arithmetic::div_mod::lemma_mod_twice(m1 + r * m2, m);
        vstd::arithmetic::div_mod::lemma_mod_twice(v * z1 + r * (v * z2), m);
        vstd::arithmetic::div_mod::lemma_mod_twice(big, m);
    }
    assert(fadd(m, fadd(m, m1, fmul(m, v, z1)), fmul(m, r, fadd(m, m2, fmul(m, v, z2)))) == big
        % m) by {
        vstd::arithmetic::div_mod::lemma_mul_mod_noop_right(v, z1, m);
        vstd::arithmetic::div_mod::lemma_add_mod_noop_right(m1, v * z1, m);
        vstd::arithmetic::div_mod::lemma_mul_mod_noop_right(v, z2, m);
        vstd::arithmetic::div_mod::lemma_add_mod_noop_right(m2, v * z2, m);
        vstd::arithmetic::div_mod::lemma_mul_mod_noop_right(r, m2 + v * z2, m);
        assert(r * (m2 + v * z2) == r * m2 + r * (v * z2)) by {
            vstd::arithmetic::mul::lemma_mul_is_distributive_add(r, m2, v * z2);
        }
        vstd::arithmetic::div_mod::lemma_add_mod_noop(m1 + v * z1, r * m2 + r * (v * z2), m);
        vstd::arithmetic::div_mod::lemma_mod_twice(m1 + v * z1, m);
        vstd::arithmetic::div_mod::lemma_mod_twice(r * m2 + r * (v * z2), m);
        vstd::arithmetic::div_mod::lemma_mod_twice(big, m);
    }
}

/// One constraint row of the folded pair: the folded products close
/// against the folded right side once the cross-term share is absorbed.
proof fn lemma_ova_row(
    m: int,
    a1: int,
    a2: int,
    b1: int,
    b2: int,
    c1: int,
    c2: int,
    e1: int,
    u1: int,
    r: int,
)
    requires
        m > 1,
        fmul(m, a1, b1) == fadd(m, fmul(m, u1, c1), e1),
        fmul(m, a2, b2) == c2,
    ensures
        fmul(m, fadd(m, a1, fmul(m, r, a2)), fadd(m, b1, fmul(m, r, b2))) == fadd(
            m,
            fmul(m, fadd(m, u1, r), fadd(m, c1, fmul(m, r, c2))),
            fadd(m, e1, fmul(m, r, fsub(m, fsub(m, fadd(m, fmul(m, a1, b2), fmul(m, a2, b1)),
                fmul(m, u1, c2)), c1))),
        ),
{
    let p1 = a1 * b1 + r * (a1 * b2) + r * (a2 * b1) + (r * r) * (a2 * b2);
    assert(fmul(m, fadd(m, a1, fmul(m, r, a2)), fadd(m, b1, fmul(m, r, b2))) == p1 % m) by {
        vstd::arithmetic::div_mod::lemma_mul_mod_noop_right(r, a2, m);
        vstd::arithmetic::div_mod::lemma_add_mod_noop_right(a1, r * a2, m);
        vstd::arithmetic::div_mod::lemma_mul_mod_noop_right(r, b2, m);
        vstd::arithmetic::div_mod::lemma_add_mod_noop_right(b1, r * b2, m);
        vstd::arithmetic::div_mod::lemma_mul_mod_noop_general(a1 + r * a2, b1 + r * b2, m);
        assert((a1 + r * a2) * (b1 + r * b2) == p1) by {
            vstd::arithmetic::mul::lemma_mul_is_distributive_add_other_way(b1 + r * b2, a1, r
                * a2);
            vstd::arithmetic::mul::lemma_mul_is_distributive_add(a1, b1, r * b2);
            vstd::arithmetic::mul::lemma_mul_is_distributive_add(r * a2, b1, r * b2);
            vstd::arithmetic::mul::lemma_mul_is_commutative(a1, r * b2);
            vstd::arithmetic::mul::lemma_mul_is_associative(r, b2, a1);
            vstd::arithmetic::mul::lemma_mul_is_commutative(b2, a1);
            vstd::arithmetic::mul::lemma_mul_is_associative(r, a2, b1);
            crate::accumulator::lemma_mul_swap(r, a2, r, b2);
        }
    }
    let tt = a1 * b2 + a2 * b1 - u1 * c2 - c1;
    let tred = fsub(m, fsub(m, fadd(m, fmul(m, a1, b2), fmul(m, a2, b1)), fmul(m, u1, c2)), c1);
    assert(tred == tt % m) by {
        vstd::arithmetic::div_mod::lemma_add_mod_noop(a1 * b2, a2 * b1, m);
        vstd::arithmetic::div_mod::lemma_mod_twice(a1 * b2 + a2 * b1, m);
        vstd::arithmetic::div_mod::lemma_sub_mod_noop(a1 * b2 + a2 * b1, u1 * c2, m);
        vstd::arithmetic::div_mod::lemma_sub_mod_noop_right(a1 * b2 + a2 * b1 - u1 * c2, u1 * c2,
            m);
        vstd::arithmetic::div_mod::lemma_sub_mod_noop_right((a1 * b2 + a2 * b1) % m, u1 * c2, m);
        assert(fsub(m, fadd(m, fmul(m, a1, b2), fmul(m, a2, b1)), fmul(m, u1, c2)) == (a1 * b2 + a2
            * b1 - u1 * c2) % m) by {
            vstd::arithmetic::div_mod::lemma_sub_mod_noop(a1 * b2 + a2 * b1, u1 * c2, m);
        }
        vstd::arithmetic::div_mod::lemma_sub_mod_noop(a1 * b2 + a2 * b1 - u1 * c2, c1, m);
        vstd::arithmetic::div_mod::lemma_sub_mod_noop_right((a1 * b2 + a2 * b1 - u1 * c2) % m, c1,
            m);
        vstd::arithmetic::div_mod::lemma_mod_twice(c1, m);
    }
    let p2 = u1 * c1 + e1 + r * (a1 * b2) + r * (a2 * b1) + (r * r) * c2;
    assert(fadd(m, fmul(m, fadd(m, u1, r), fadd(m, c1, fmul(m, r, c2))), fadd(m, e1, fmul(m, r,
        tred))) == p2 % m) by {
        vstd::arithmetic::div_mod::lemma_mul_mod_noop_right(r, c2, m);
        vstd::arithmetic::div_mod::lemma_add_mod_noop_right(c1, r * c2, m);
        vstd::arithmetic::div_mod::lemma_add_mod_noop_right(u1 + r, 0, m);
        vstd::arithmetic::div_mod::lemma_mod_twice(u1 + r, m);
        vstd::arithmetic::div_mod::lemma_mul_mod_noop_general(u1 + r, c1 + r * c2, m);
        assert((u1 + r) * (c1 + r * c2) == u1 * c1 + r * (u1 * c2) + r * c1 + (r * r) * c2) by {
            vstd::arithmetic::mul::lemma_mul_is_distributive_add_other_way(c1 + r * c2, u1, r);
            vstd::arithmetic::mul::lemma_mul_is_distributive_add(u1, c1, r * c2);
            vstd::arithmetic::mul::lemma_mul_is_distributive_add(r, c1, r * c2);
            vstd::arithmetic::mul::lemma_mul_is_commutative(u1, r * c2);
            vstd::arithmetic::mul::lemma_mul_is_associative(r, c2, u1);
            vstd::arithmetic::mul::lemma_mul_is_commutative(c2, u1);
            vstd::arithmetic::mul::lemma_mul_is_associative(r, r, c2);
        }
        assert(fmul(m, r, tred) == (r * tt) % m) by {
            vstd::arithmetic::div_mod::lemma_mul_mod_noop_right(r, tt, m);
        }
        assert(r * tt == r * (a1 * b2) + r * (a2 * b1) - r * (u1 * c2) - r * c1) by {
            vstd::arithmetic::mul::lemma_mul_is_distributive_sub(r, a1 * b2 + a2 * b1 - u1 * c2,
                c1);
            vstd::arithmetic::mul::lemma_mul_is_distributive_sub(r, a1 * b2 + a2 * b1, u1 * c2);
            vstd::arithmetic::mul::lemma_mul_is_distributive_add(r, a1 * b2, a2 * b1);
        }
        vstd::arithmetic::div_mod::lemma_add_mod_noop_right(e1, r * tt, m);
        vstd::arithmetic::div_mod::lemma_add_mod_noop(u1 * c1 + r * (u1 * c2) + r * c1 + (r * r)
            * c2, e1 + r * tt, m);
        vstd::arithmetic::div_mod::lemma_mod_twice(u1 * c1 + r * (u1 * c2) + r * c1 + (r * r) * c2,
            m);
        vstd::arithmetic::div_mod::lemma_mod_twice(e1 + r * tt, m);
        vstd::arithmetic::div_mod::lemma_mod_twice(u1 * c1 + r * (u1 * c2) + r * c1 + (r * r) * c2
            + (e1 + r * tt), m);
    }
    // the two unreduced sums differ by vanishing residuals
    let d1 = a1 * b1 - (u1 * c1 + e1);
    let d2 = a2 * b2 - c2;
    assert(d1 % m == 0) by {
        vstd::arithmetic::div_mod::lemma_add_mod_noop_right(e1, u1 * c1, m);
        assert((a1 * b1) % m == (u1 * c1 + e1) % m);
        vstd::arithmetic::div_mod::lemma_sub_mod_noop(a1 * b1, u1 * c1 + e1, m);
        vstd::arithmetic::div_mod::lemma_small_mod(0, m as nat);
    }
    assert(d2 % m == 0) by {
        vstd::arithmetic::div_mod::lemma_mod_twice(a2 * b2, m);
        vstd::arithmetic::div_mod::lemma_sub_mod_noop(a2 * b2, c2, m);
    }
    assert(p1 == p2 + d1 + (r * r) * d2) by {
        vstd::arithmetic::mul::lemma_mul_is_distributive_sub(r * r, a2 * b2, c2);
    }
    assert(p1 % m == p2 % m) by {
        vstd::arithmetic::div_mod::lemma_fundamental_div_mod(d1, m);
        vstd::arithmetic::div_mod::lemma_fundamental_div_mod(d2, m);
        let k1 = d1 / m;
        let k2 = d2 / m;
        assert((r * r) * d2 == m * ((r * r) * k2)) by {
            vstd::arithmetic::mul::lemma_mul_is_associative(r * r, m, k2);
            vstd::arithmetic::mul::lemma_mul_is_commutative(r * r, m);
            vstd::arithmetic::mul::lemma_mul_is_associative(m, r * r, k2);
        }
        assert(p1 == m * (k1 + (r * r) * k2) + p2) by {
            vstd::arithmetic::mul::lemma_mul_is_distributive_add(m, k1, (r * r) * k2);
        }
        vstd::arithmetic::div_mod::lemma_mod_multiples_vanish(k1 + (r * r) * k2, p2, m);
    }
}

/// Folding preserves relaxed satisfiability: when the running pair
/// satisfies the relaxed relation, the fresh pair satisfies the plain one,
/// and the cross term and its commitment are as `commit_T` computes them,
/// then the folded pair satisfies the relaxed relation again, under any
/// challenge.
pub proof fn lemma_ova_fold_preserves_satisfiability(
    shape: &R1CSShape,
    running_instance: &RelaxedOvaInstance,
    running_witness: &RelaxedOvaWitness,
    instance: &OvaInstance,
    witness: &OvaWitness,
    folded_instance: &RelaxedOvaInstance,
    folded_witness: &RelaxedOvaWitness,
    t: Seq<int>,
    com_t: int,
    r: int,
    pp_w: Seq<int>,
    pp_e: Seq<int>,
)
    requires
        shape.wf(),
        running_instance.X@.len() == shape.num_io,
        running_witness.W@.len() == shape.num_vars,
        running_witness.E@.len() == shape.num_constraints,
        instance.X@.len() == shape.num_io,
        witness.W@.len() == shape.num_vars,
        pp_w.len() == shape.num_vars,
        pp_e.len() == shape.num_constraints,
        shape.relaxed_ova_sat_spec(running_instance.u@, views(running_instance.X@), views(
            running_witness.W@), views(running_witness.E@), running_instance.commitment@,
            running_instance.commitment_E@, pp_w, pp_e),
        shape.ova_sat_spec(views(instance.X@), views(witness.W@), instance.commitment@, pp_w),
        t == cross_term_spec(shape, running_instance.u@, views(running_instance.X@), views(
            running_witness.W@), views(instance.X@), views(witness.W@)),
        com_t == dot_mod(fq_ord(), pp_e, t),
        folded_instance.u@ == fadd(fq_ord(), running_instance.u@, r),
        views(folded_instance.X@) == seq_add(views(running_instance.X@), seq_scale(r, views(
            instance.X@))),
        folded_instance.commitment@ == fadd(fq_ord(), running_instance.commitment@, fmul(fq_ord(),
            r, instance.commitment@)),
        folded_instance.commitment_E@ == fadd(fq_ord(), running_instance.commitment_E@, fmul(
            fq_ord(), r, com_t)),
        views(folded_witness.W@) == seq_add(views(running_witness.W@), seq_scale(r, views(
            witness.W@))),
        views(folded_witness.E@) == seq_add(views(running_witness.E@), seq_scale(r, t)),
    ensures
        shape.relaxed_ova_sat_spec(folded_instance.u@, views(folded_instance.X@), views(
            folded_witness.W@), views(folded_witness.E@), folded_instance.commitment@,
            folded_instance.commitment_E@, pp_w, pp_e),
{
    let m = fq_ord();
    let u1 = running_instance.u@;
    let z1 = seq![u1] + views(running_instance.X@) + views(running_witness.W@);
    let z2 = seq![1int] + views(instance.X@) + views(witness.W@);
    let zf = seq![folded_instance.u@] + views(folded_instance.X@) + views(folded_witness.W@);
    let nc = shape.num_constraints as int;
    let cols = 1 + shape.num_io + shape.num_vars;

    // the folded constraint vector is the fold of the two
    assert(zf =~= seq_add(z1, seq_scale(r, z2))) by {
        assert(fmul(m, r, 1) == r % m) by {
            vstd::arithmetic::mul::lemma_mul_basics(r);
        }
        assert(fadd(m, u1, r % m) == (u1 + r) % m) by {
            vstd::arithmetic::div_mod::lemma_add_mod_noop_right(u1, r, m);
        }
    }

    // matrix products fold linearly
    let zero = zero_seq(shape.num_constraints as nat);
    assert(seq_add(zero, seq_scale(r, zero)) =~= zero) by {
        vstd::arithmetic::div_mod::lemma_small_mod(0, m as nat);
        assert(forall|i: int|
            0 <= i < zero.len() ==> #[trigger] seq_add(zero, seq_scale(r, zero))[i] == fadd(m, 0,
                fmul(m, r, 0)));
        assert(fmul(m, r, 0) == 0) by {
            vstd::arithmetic::mul::lemma_mul_basics(r);
            vstd::arithmetic::div_mod::lemma_small_mod(0, m as nat);
        }
    }
    lemma_mv_fold(shape.A.entries@, z1, z2, zero, zero, r, nc, cols as int);
    lemma_mv_fold(shape.B.entries@, z1, z2, zero, zero, r, nc, cols as int);
    lemma_mv_fold(shape.C.entries@, z1, z2, zero, zero, r, nc, cols as int);
    let az1 = shape.A.mv_spec(z1);
    let bz1 = shape.B.mv_spec(z1);
    let cz1 = shape.C.mv_spec(z1);
    let az2 = shape.A.mv_spec(z2);
    let bz2 = shape.B.mv_spec(z2);
    let cz2 = shape.C.mv_spec(z2);
    lemma_mv_rec_len(shape.A.entries@, z1, zero);
    lemma_mv_rec_len(shape.B.entries@, z1, zero);
    lemma_mv_rec_len(shape.C.entries@, z1, zero);
    lemma_mv_rec_len(shape.A.entries@, z2, zero);
    lemma_mv_rec_len(shape.B.entries@, z2, zero);
    lemma_mv_rec_len(shape.C.entries@, z2, zero);
    assert(shape.A.mv_spec(zf) == seq_add(az1, seq_scale(r, az2)));
    assert(shape.B.mv_spec(zf) == seq_add(bz1, seq_scale(r, bz2)));
    assert(shape.C.mv_spec(zf) == seq_add(cz1, seq_scale(r, cz2)));

    // every row of the folded constraint closes
    let ef = views(folded_witness.E@);
    let e1s = views(running_witness.E@);
    assert forall|i: int| 0 <= i < nc implies #[trigger] seq_had(shape.A.mv_spec(zf),
        shape.B.mv_spec(zf))[i] == seq_add(seq_scale(folded_instance.u@, shape.C.mv_spec(zf)),
        ef)[i] by {
        assert(seq_had(az1, bz1)[i] == seq_add(seq_scale(u1, cz1), e1s)[i]);
        assert(seq_had(az2, bz2)[i] == cz2[i]);
        lemma_ova_row(m, az1[i], az2[i], bz1[i], bz2[i], cz1[i], cz2[i], e1s[i], u1, r);
    }
    assert(seq_had(shape.A.mv_spec(zf), shape.B.mv_spec(zf)) =~= seq_add(seq_scale(
        folded_instance.u@, shape.C.mv_spec(zf)), ef));

    // the commitments bind the folded vectors
    lemma_dot_mod_fold(pp_w, views(running_witness.W@), views(witness.W@), r);
    lemma_dot_mod_fold(pp_e, e1s, t, r);
}

/// The cross term over models: with `z1 = (u1, X1, W1)` and
/// `z2 = (1, X2, W2)`, the vector
/// `Az1 * Bz2 + Az2 * Bz1 - u1 * Cz2 - Cz1`.
pub open spec fn cross_term_spec(
    shape: &R1CSShape,
    u1: int,
    x1: Seq<int>,
    w1: Seq<int>,
    x2: Seq<int>,
    w2: Seq<int>,
) -> Seq<int> {
    let z1 = seq![u1] + x1 + w1;
    let z2 = seq![1int] + x2 + w2;
    seq_sub(
        seq_sub(
            seq_add(
                seq_had(shape.A.mv_spec(z1), shape.B.mv_spec(z2)),
                seq_had(shape.A.mv_spec(z2), shape.B.mv_spec(z1)),
            ),
            seq_scale(u1, shape.C.mv_spec(z2)),
        ),
        shape.C.mv_spec(z1),
    )
}

/// A dot product against an all-zero right side vanishes.
pub proof fn lemma_dot_zero_right(a: Seq<int>, n: nat)
    requires
        a.len() == n,
    ensures
        dot(a, zero_seq(n)) == 0,
    decreases n,
{
    if n > 0 {
        assert(zero_seq(n).drop_last() =~= zero_seq((n - 1) as nat));
        lemma_dot_zero_right(a.drop_last(), (n - 1) as nat);
        assert(zero_seq(n).last() == 0);
        assert(dot(a, zero_seq(n)) == dot(a.drop_last(), zero_seq(n).drop_last()) + a.last()
            * zero_seq(n).last());
        assert(a.last() * 0 == 0) by {
            vstd::arithmetic::mul::lemma_mul_basics(a.last());
        }
    }
}

/// A sparse product of an all-zero vector from an all-zero accumulator
/// stays all-zero.
pub proof fn lemma_mv_zero(entries: Seq<SparseEntry>, z: Seq<int>, rows: nat)
    requires
        forall|i: int| 0 <= i < z.len() ==> #[trigger] z[i] == 0,
        forall|k: int|
            0 <= k < entries.len() ==> (#[trigger] entries[k]).row < rows && entries[k].col
                < z.len(),
    ensures
        mv_rec(entries, z, zero_seq(rows)) == zero_seq(rows),
    decreases entries.len(),
{
    let m = fq_ord();
    if entries.len() > 0 {
        let es = entries.drop_last();
        let e = entries.last();
        assert(forall|k: int|
            0 <= k < es.len() ==> (#[trigger] es[k]).row < rows && es[k].col < z.len());
        lemma_mv_zero(es, z, rows);
        assert(fmul(m, e.val@, z[e.col as int]) == 0) by {
            vstd::arithmetic::mul::lemma_mul_basics(e.val@);
            vstd::arithmetic::div_mod::lemma_small_mod(0, m as nat);
        }
        assert(fadd(m, 0, 0) == 0) by {
            vstd::arithmetic::div_mod::lemma_small_mod(0, m as nat);
        }
        assert(mv_rec(entries, z, zero_seq(rows)) =~= zero_seq(rows));
    }
}

/// The all-zero relaxed pair satisfies the relaxed relation under any
/// generators of the right lengths: the starting point of every companion
/// fold chain.
pub proof fn lemma_trivial_pair_satisfied(shape: &R1CSShape, pp_w: Seq<int>, pp_e: Seq<int>)
    requires
        shape.wf(),
        pp_w.len() == shape.num_vars,
        pp_e.len() == shape.num_constraints,
    ensures
        shape.relaxed_ova_sat_spec(0, zero_seq(shape.num_io as nat), zero_seq(
            shape.num_vars as nat), zero_seq(shape.num_constraints as nat), 0, 0, pp_w, pp_e),
{
    let m = fq_ord();
    let nc = shape.num_constraints as nat;
    let z = seq![0int] + zero_seq(shape.num_io as nat) + zero_seq(shape.num_vars as nat);
    assert(forall|i: int| 0 <= i < z.len() ==> #[trigger] z[i] == 0);
    lemma_mv_zero(shape.A.entries@, z, nc);
    lemma_mv_zero(shape.B.entries@, z, nc);
    lemma_mv_zero(shape.C.entries@, z, nc);
    assert(fmul(m, 0, 0) == 0 && fadd(m, 0, 0) == 0) by {
        vstd::arithmetic::div_mod::lemma_small_mod(0, m as nat);
    }
    assert(seq_had(shape.A.mv_spec(z), shape.B.mv_spec(z)) =~= seq_add(seq_scale(0, shape.C.mv_spec(
        z)), zero_seq(nc)));
    lemma_dot_zero_right(pp_w, shape.num_vars as nat);
    lemma_dot_zero_right(pp_e, nc);
    vstd::arithmetic::div_mod::lemma_small_mod(0, m as nat);
}

} // verus!
