//! The cycle-fold coprocessor's opcode: one elliptic-curve combination,
//! delegated to the companion curve.
//!
//! An opcode carries two points, an output point, a scalar carried in the
//! companion field, and a flag selecting the relation: a linear blend
//! `g_out = r * g1 + (1 - r) * g2` when the flag is clear, or the quadratic
//! cross-term step `g_out = g1 + r * (1 - r) * g2` when it is set.  The
//! opcode's data is exposed through a fixed public-input layout so that the
//! companion constraint system's instance can be checked against it.

use vstd::prelude::*;
use crate::field::{fadd, fsub, fmul, fr_ord};
use crate::scalar::{Scalar, BaseScalar, views};
use crate::group::{G1Elem, base_coords_of};

verus! {

/// One folding opcode for the companion curve.
pub struct SecondaryCircuit {
    pub g1: G1Elem,
    pub g2: G1Elem,
    pub g_out: G1Elem,
    /// the combination scalar, represented in the companion curve's scalar
    /// field
    pub r: BaseScalar,
    pub flag: bool,
}

/// The relation an opcode claims, over the discrete-logarithm models; the
/// scalar's representative acts on the primary curve's group order.
pub open spec fn secondary_relation(c: &SecondaryCircuit) -> bool {
    if c.flag {
        c.g_out@ == fadd(
            fr_ord(),
            c.g1@,
            fmul(fr_ord(), fmul(fr_ord(), c.r@, fsub(fr_ord(), 1, c.r@)), c.g2@),
        )
    } else {
        c.g_out@ == fadd(
            fr_ord(),
            fmul(fr_ord(), c.r@, c.g1@),
            fmul(fr_ord(), fsub(fr_ord(), 1, c.r@), c.g2@),
        )
    }
}

/// The fixed public-input layout of an opcode: the flag, the scalar, and
/// the base-field coordinates of the three points.
pub open spec fn secondary_io_spec(c: &SecondaryCircuit) -> Seq<int> {
    seq![if c.flag { 1int } else { 0int }, c.r@] + base_pair(c.g1@) + base_pair(c.g2@)
        + base_pair(c.g_out@)
}

/// The two base-field coordinates of the group element with discrete
/// logarithm `d`.
pub open spec fn base_pair(d: int) -> Seq<int> {
    seq![base_coords_of(d)[0], base_coords_of(d)[1]]
}

impl SecondaryCircuit {
    /// Lays the opcode out as the companion instance's public input.
    pub fn public_io(&self) -> (r: Vec<BaseScalar>)
        ensures
            r@.len() == 8,
            views(r@) == secondary_io_spec(self),
    {
        let mut out: Vec<BaseScalar> = Vec::new();
        if self.flag {
            out.push(BaseScalar::one());
        } else {
            out.push(BaseScalar::zero());
        }
        out.push(self.r.clone());
        let (x1, y1) = self.g1.to_base_coords();
        out.push(x1);
        out.push(y1);
        let (x2, y2) = self.g2.to_base_coords();
        out.push(x2);
        out.push(y2);
        let (xo, yo) = self.g_out.to_base_coords();
        out.push(xo);
        out.push(yo);
        proof {
            assert(views(out@) =~= secondary_io_spec(self));
        }
        out
    }

    /// Whether a companion instance's public input is exactly this opcode's
    /// layout.
    pub fn matches_io(&self, x: &Vec<BaseScalar>) -> (r: bool)
        ensures
            r == (views(x@) == secondary_io_spec(self)),
    {
        let io = self.public_io();
        if x.len() != io.len() {
            proof {
                assert(views(x@).len() != secondary_io_spec(self).len());
            }
            return false;
        }
        crate::ova::base_vec_eq(x, &io)
    }
}

} // verus!
