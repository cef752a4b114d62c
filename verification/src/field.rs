//! The mathematical model of the two prime fields of the curve cycle.
//!
//! Every field element that the library handles is modelled by its canonical
//! integer representative, and the executable field operations are specified
//! against modular arithmetic on those representatives.  The primary curve's
//! scalar field has order `fr_ord()`; its base field, which is also the
//! companion curve's scalar field, has order `fq_ord()`.

use vstd::prelude::*;

verus! {

/// Order of the primary curve's scalar field (and of all three pairing groups).
pub open spec fn fr_ord() -> int {
    21888242871839275222246405745257275088548364400416034343698204186575808495617int
}

/// Order of the primary curve's base field, which is the companion curve's
/// scalar field and the order of the companion curve's group.
pub open spec fn fq_ord() -> int {
    21888242871839275222246405745257275088696311157297823662689037894645226208583int
}

/// Field addition over canonical representatives, modulus `m`.
pub open spec fn fadd(m: int, a: int, b: int) -> int {
    (a + b) % m
}

/// Field subtraction over canonical representatives, modulus `m`.
pub open spec fn fsub(m: int, a: int, b: int) -> int {
    (a - b) % m
}

/// Field multiplication over canonical representatives, modulus `m`.
pub open spec fn fmul(m: int, a: int, b: int) -> int {
    (a * b) % m
}

/// Field negation over canonical representatives, modulus `m`.
pub open spec fn fneg(m: int, a: int) -> int {
    (-a) % m
}

/// A canonical representative lies in `[0, m)`.
pub open spec fn in_field(m: int, a: int) -> bool {
    0 <= a < m
}

/// Field exponentiation over canonical representatives, modulus `m`.
pub open spec fn fpow(m: int, b: int, e: nat) -> int
    decreases e,
{
    if e == 0 {
        1
    } else {
        fmul(m, b, fpow(m, b, (e - 1) as nat))
    }
}

/// Multiplication of representatives is associative.
pub proof fn lemma_fmul_assoc(m: int, a: int, b: int, c: int)
    requires
        m > 0,
    ensures
        fmul(m, fmul(m, a, b), c) == fmul(m, a, fmul(m, b, c)),
{
    vstd::arithmetic::div_mod::lemma_mul_mod_noop_general(a * b, c, m);
    vstd::arithmetic::div_mod::lemma_mul_mod_noop_general(a, b * c, m);
    vstd::arithmetic::mul::lemma_mul_is_associative(a, b, c);
}

/// Reducing one factor before a product does not change the reduced product.
pub proof fn lemma_fmul_noop(m: int, a: int, b: int)
    requires
        m > 0,
    ensures
        fmul(m, a % m, b) == fmul(m, a, b),
        fmul(m, a, b % m) == fmul(m, a, b),
{
    vstd::arithmetic::div_mod::lemma_mul_mod_noop_general(a, b, m);
}

/// Multiplication of representatives distributes over their addition.
pub proof fn lemma_fmul_dist(m: int, x: int, y: int, z: int)
    requires
        m > 0,
    ensures
        fmul(m, fadd(m, x, y), z) == fadd(m, fmul(m, x, z), fmul(m, y, z)),
{
    vstd::arithmetic::div_mod::lemma_mul_mod_noop_left(x + y, z, m);
    vstd::arithmetic::mul::lemma_mul_is_distributive_add_other_way(z, x, y);
    vstd::arithmetic::div_mod::lemma_add_mod_noop(x * z, y * z, m);
}

/// Squaring the base halves the exponent.
pub proof fn lemma_fpow_square(m: int, b: int, e: nat)
    requires
        m > 1,
    ensures
        fpow(m, fmul(m, b, b), e) == fpow(m, b, 2 * e),
    decreases e,
{
    if e == 0 {
    } else {
        lemma_fpow_square(m, b, (e - 1) as nat);
        let t = fpow(m, b, (2 * e - 2) as nat);
        assert(fpow(m, fmul(m, b, b), e) == fmul(m, fmul(m, b, b), fpow(m, fmul(m, b, b), (e
            - 1) as nat)));
        assert(fpow(m, b, 2 * e) == fmul(m, b, fpow(m, b, (2 * e - 1) as nat)));
        assert(fpow(m, b, (2 * e - 1) as nat) == fmul(m, b, t));
        lemma_fmul_assoc(m, b, b, t);
    }
}

/// Plain integer dot product of two equally long sequences.
pub open spec fn dot(a: Seq<int>, b: Seq<int>) -> int
    decreases a.len(),
{
    if a.len() == 0 || b.len() == 0 {
        0
    } else {
        dot(a.drop_last(), b.drop_last()) + a.last() * b.last()
    }
}

/// The dot product is symmetric.
pub proof fn lemma_dot_comm(a: Seq<int>, b: Seq<int>)
    requires
        a.len() == b.len(),
    ensures
        dot(a, b) == dot(b, a),
    decreases a.len(),
{
    if a.len() > 0 {
        lemma_dot_comm(a.drop_last(), b.drop_last());
    }
}

} // verus!
