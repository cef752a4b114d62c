//! Small arithmetic helpers shared by the folding engine.

use vstd::prelude::*;
use crate::field::{fmul, fpow, fr_ord, lemma_fmul_assoc, lemma_fmul_noop, lemma_fpow_square, dot};
use crate::group::dot_mod;
use crate::scalar::{Scalar, views};
use crate::group::{lemma_dot_push, lemma_mod_add_pair};

verus! {

/// `n` is an integral power of two.
pub open spec fn is_pow2(n: nat) -> bool
    decreases n,
{
    if n == 0 {
        false
    } else if n == 1 {
        true
    } else {
        n % 2 == 0 && is_pow2(n / 2)
    }
}

/// Returns `[x^0, x^1, ..., x^(n-1)]`.
pub fn compute_powers(x: &Scalar, n: usize) -> (r: Vec<Scalar>)
    ensures
        r@.len() == n,
        forall|k: int| 0 <= k < n ==> #[trigger] r@[k]@ == fpow(fr_ord(), x@, k as nat),
{
    let mut out: Vec<Scalar> = Vec::new();
    if n == 0 {
        return out;
    }
    let mut cur = Scalar::one();
    out.push(cur.clone());
    let mut i: usize = 1;
    while i < n
        invariant
            1 <= i <= n,
            out@.len() == i,
            cur@ == out@[i - 1]@,
            forall|k: int| 0 <= k < i ==> #[trigger] out@[k]@ == fpow(fr_ord(), x@, k as nat),
        decreases n - i,
    {
        cur = cur.mul(x);
        proof {
            assert(fpow(fr_ord(), x@, i as nat) == fmul(fr_ord(), x@, fpow(fr_ord(), x@, (i
                - 1) as nat)));
            vstd::arithmetic::mul::lemma_mul_is_commutative(out@[i - 1]@, x@);
        }
        out.push(cur.clone());
        i = i + 1;
    }
    out
}

/// Computes `base^exponent` by binary exponentiation.
pub fn power(base: &Scalar, exponent: usize) -> (r: Scalar)
    ensures
        r@ == fpow(fr_ord(), base@, exponent as nat),
{
    let mut result = Scalar::one();
    let mut b = base.clone();
    let mut e: usize = exponent;
    proof {
        lemma_fpow_canonical(fr_ord(), base@, exponent as nat);
        vstd::arithmetic::div_mod::lemma_small_mod(fpow(fr_ord(), base@, exponent as nat) as nat,
            fr_ord() as nat);
    }
    while e > 0
        invariant
            0 <= result@ < fr_ord(),
            fmul(fr_ord(), result@, fpow(fr_ord(), b@, e as nat)) == fpow(fr_ord(), base@,
                exponent as nat),
        decreases e,
    {
        let ghost old_result = result@;
        let ghost old_b = b@;
        let ghost old_e = e as nat;
        if e % 2 == 1 {
            result = result.mul(&b);
            proof {
                lemma_step_odd(old_result, old_b, old_e);
            }
        } else {
            proof {
                lemma_step_even(old_result, old_b, old_e);
            }
        }
        b = b.mul(&b);
        e = e / 2;
    }
    proof {
        vstd::arithmetic::div_mod::lemma_small_mod(result@ as nat, fr_ord() as nat);
        assert(fmul(fr_ord(), result@, 1) == result@ % fr_ord());
    }
    result
}

/// A field power lies in the canonical range.
pub proof fn lemma_fpow_canonical(m: int, b: int, e: nat)
    requires
        m > 1,
    ensures
        0 <= fpow(m, b, e) < m,
{
    if e == 0 {
    } else {
    }
}

/// One odd step of binary exponentiation keeps the loop invariant.
proof fn lemma_step_odd(r: int, b: int, e: nat)
    requires
        e > 0,
        e % 2 == 1,
    ensures
        fmul(fr_ord(), fmul(fr_ord(), r, b), fpow(fr_ord(), fmul(fr_ord(), b, b), e / 2)) == fmul(
            fr_ord(), r, fpow(fr_ord(), b, e)),
{
    let m = fr_ord();
    lemma_fpow_square(m, b, e / 2);
    assert(2 * (e / 2) == e - 1);
    assert(fpow(m, b, e) == fmul(m, b, fpow(m, b, (e - 1) as nat)));
    lemma_fmul_assoc(m, r, b, fpow(m, b, (e - 1) as nat));
    lemma_fmul_noop(m, r * b, fpow(m, b, (e - 1) as nat));
    assert(fmul(m, fmul(m, r, b), fpow(m, b, (e - 1) as nat)) == fmul(m, r, fmul(m, b, fpow(m, b, (e
        - 1) as nat))));
}

/// One even step of binary exponentiation keeps the loop invariant.
proof fn lemma_step_even(r: int, b: int, e: nat)
    requires
        e > 0,
        e % 2 == 0,
    ensures
        fmul(fr_ord(), r, fpow(fr_ord(), fmul(fr_ord(), b, b), e / 2)) == fmul(fr_ord(), r, fpow(
            fr_ord(), b, e)),
{
    lemma_fpow_square(fr_ord(), b, e / 2);
    assert(2 * (e / 2) == e);
}

/// `n` is a power of two exactly when repeated halving reaches one without
/// ever meeting an odd number.
pub fn is_power_of_two(n: usize) -> (r: bool)
    ensures
        r == is_pow2(n as nat),
{
    if n == 0 {
        return false;
    }
    let mut m: usize = n;
    while m > 1
        invariant
            m >= 1,
            is_pow2(n as nat) == is_pow2(m as nat),
        decreases m,
    {
        if m % 2 == 1 {
            return false;
        }
        m = m / 2;
    }
    true
}

/// The inner product of two equally long scalar vectors.
pub fn inner_product(vector1: &Vec<Scalar>, vector2: &Vec<Scalar>) -> (r: Scalar)
    requires
        vector1@.len() == vector2@.len(),
    ensures
        r@ == dot_mod(fr_ord(), views(vector1@), views(vector2@)),
{
    let mut acc = Scalar::zero();
    let mut i: usize = 0;
    proof {
        assert(views(vector1@).subrange(0, 0) =~= Seq::<int>::empty());
        assert(views(vector2@).subrange(0, 0) =~= Seq::<int>::empty());
        vstd::arithmetic::div_mod::lemma_small_mod(0, fr_ord() as nat);
    }
    while i < vector1.len()
        invariant
            i <= vector1@.len(),
            vector1@.len() == vector2@.len(),
            acc@ == dot(views(vector1@).subrange(0, i as int), views(vector2@).subrange(0,
                i as int)) % fr_ord(),
        decreases vector1@.len() - i,
    {
        let term = vector1[i].mul(&vector2[i]);
        let next = acc.add(&term);
        proof {
            let v1 = views(vector1@);
            let v2 = views(vector2@);
            assert(v1.subrange(0, i + 1) =~= v1.subrange(0, i as int).push(vector1@[i as int]@));
            assert(v2.subrange(0, i + 1) =~= v2.subrange(0, i as int).push(vector2@[i as int]@));
            lemma_dot_push(v1.subrange(0, i as int), v2.subrange(0, i as int),
                vector1@[i as int]@, vector2@[i as int]@);
            lemma_mod_add_pair(fr_ord(), dot(v1.subrange(0, i as int), v2.subrange(0, i as int)),
                vector1@[i as int]@ * vector2@[i as int]@);
        }
        acc = next;
        i = i + 1;
    }
    proof {
        assert(views(vector1@).subrange(0, vector1@.len() as int) =~= views(vector1@));
        assert(views(vector2@).subrange(0, vector2@.len() as int) =~= views(vector2@));
    }
    acc
}

/// Computes `2^e` as a machine integer.
pub fn pow2_usize(e: usize) -> (r: usize)
    requires
        e <= 30,
    ensures
        r == vstd::arithmetic::power2::pow2(e as nat),
{
    let mut w: usize = 1;
    let mut l: usize = 0;
    proof {
        vstd::arithmetic::power2::lemma2_to64();
    }
    while l < e
        invariant
            l <= e,
            e <= 30,
            w == vstd::arithmetic::power2::pow2(l as nat),
            w <= 0x4000_0000,
        decreases e - l,
    {
        proof {
            vstd::arithmetic::power2::lemma_pow2_adds(l as nat, 1);
            vstd::arithmetic::power2::lemma2_to64();
            if l + 1 < 30 {
                vstd::arithmetic::power2::lemma_pow2_strictly_increases((l + 1) as nat, 30);
            }
        }
        w = w * 2;
        l = l + 1;
    }
    w
}

/// A power of two has an exponent.
pub proof fn lemma_is_pow2_exists(n: nat)
    requires
        is_pow2(n),
    ensures
        exists|k: nat| n == vstd::arithmetic::power2::pow2(k),
    decreases n,
{
    if n == 1 {
        vstd::arithmetic::power2::lemma2_to64();
        assert(n == vstd::arithmetic::power2::pow2(0));
    } else {
        lemma_is_pow2_exists(n / 2);
        let k = choose|k: nat| n / 2 == vstd::arithmetic::power2::pow2(k);
        vstd::arithmetic::power2::lemma_pow2_adds(k, 1);
        vstd::arithmetic::power2::lemma2_to64();
        assert(n == vstd::arithmetic::power2::pow2(k + 1));
    }
}

/// Exponents compare as their powers do.
pub proof fn lemma_pow2_le_inv(a: nat, b: nat)
    requires
        vstd::arithmetic::power2::pow2(a) <= vstd::arithmetic::power2::pow2(b),
    ensures
        a <= b,
{
    if a > b {
        vstd::arithmetic::power2::lemma_pow2_strictly_increases(b, a);
    }
}

} // verus!
