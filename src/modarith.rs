//! Facts about the field operations' canonical results, modulo the field's
//! modulus.

use crate::field::{canon, fadd, fmul, fneg, fsub, limb_base, modulus, Scalar};
use vstd::arithmetic::div_mod::{
    lemma_add_mod_noop, lemma_fundamental_div_mod, lemma_mod_bound, lemma_mod_twice,
    lemma_mul_mod_noop_general, lemma_small_mod, lemma_sub_mod_noop,
};
use vstd::prelude::*;

verus! {

/// `2^256`.
pub open spec fn limb_range() -> int {
    limb_base() * limb_base() * limb_base() * limb_base()
}

/// Integers below `2^256` are spelled exactly by their canonical limbs.
pub proof fn lemma_canon_inv(v: int)
    requires
        0 <= v < limb_range(),
    ensures
        canon(v).value() == v,
{
    let b = limb_base();
    let q1 = v / b;
    let q2 = q1 / b;
    let q3 = q2 / b;
    lemma_fundamental_div_mod(v, b);
    lemma_fundamental_div_mod(q1, b);
    lemma_fundamental_div_mod(q2, b);
    lemma_mod_bound(v, b);
    lemma_mod_bound(q1, b);
    lemma_mod_bound(q2, b);
    assert(q1 < b * b * b) by (nonlinear_arith)
        requires
            v == b * q1 + v % b,
            0 <= v % b,
            v < b * b * b * b,
            b > 0,
    ;
    assert(0 <= q1) by (nonlinear_arith)
        requires
            v == b * q1 + v % b,
            v % b < b,
            0 <= v,
            b > 0,
    ;
    assert(q2 < b * b) by (nonlinear_arith)
        requires
            q1 == b * q2 + q1 % b,
            0 <= q1 % b,
            q1 < b * b * b,
            b > 0,
    ;
    assert(0 <= q2) by (nonlinear_arith)
        requires
            q1 == b * q2 + q1 % b,
            q1 % b < b,
            0 <= q1,
            b > 0,
    ;
    assert(0 <= q3 < b) by (nonlinear_arith)
        requires
            q2 == b * q3 + q2 % b,
            0 <= q2 % b < b,
            0 <= q2 < b * b,
            b > 0,
    ;
    lemma_small_mod(q3 as nat, b as nat);
    let c = canon(v);
    assert(c.l0 == v % b);
    assert(c.l1 == q1 % b);
    assert(c.l2 == q2 % b);
    assert(c.l3 == q3);
    assert(c.value() == v) by (nonlinear_arith)
        requires
            c.value() == c.l0 + c.l1 * b + c.l2 * (b * b) + c.l3 * (b * b * b),
            v == b * q1 + c.l0,
            q1 == b * q2 + c.l1,
            q2 == b * q3 + c.l2,
            c.l3 == q3,
    ;
}

/// The canonical form of `v mod p` spells `v mod p`.
pub proof fn lemma_reduced_value(v: int)
    ensures
        canon(v % modulus()).value() == v % modulus(),
        canon(v % modulus()).value() % modulus() == v % modulus(),
{
    assert(0 < modulus() < limb_range());
    lemma_mod_bound(v, modulus());
    lemma_canon_inv(v % modulus());
    lemma_mod_twice(v, modulus());
}

/// The small canonical constants spell themselves.
pub proof fn lemma_small_values()
    ensures
        canon(0).value() == 0,
        canon(1).value() == 1,
        canon(2).value() == 2,
{
    assert(0 < limb_range());
    lemma_canon_inv(0);
    lemma_canon_inv(1);
    lemma_canon_inv(2);
}

/// Field addition respects congruence modulo p.
pub proof fn lemma_fadd_cong(x: Scalar, y: Scalar, a: int, b: int)
    requires
        x.value() % modulus() == a % modulus(),
        y.value() % modulus() == b % modulus(),
    ensures
        fadd(x, y).value() % modulus() == (a + b) % modulus(),
{
    let p = modulus();
    lemma_reduced_value(x.value() + y.value());
    lemma_add_mod_noop(x.value(), y.value(), p);
    lemma_add_mod_noop(a, b, p);
}

/// Field subtraction respects congruence modulo p.
pub proof fn lemma_fsub_cong(x: Scalar, y: Scalar, a: int, b: int)
    requires
        x.value() % modulus() == a % modulus(),
        y.value() % modulus() == b % modulus(),
    ensures
        fsub(x, y).value() % modulus() == (a - b) % modulus(),
{
    let p = modulus();
    lemma_reduced_value(x.value() - y.value());
    lemma_sub_mod_noop(x.value(), y.value(), p);
    lemma_sub_mod_noop(a, b, p);
}

/// Field multiplication respects congruence modulo p.
pub proof fn lemma_fmul_cong(x: Scalar, y: Scalar, a: int, b: int)
    requires
        x.value() % modulus() == a % modulus(),
        y.value() % modulus() == b % modulus(),
    ensures
        fmul(x, y).value() % modulus() == (a * b) % modulus(),
{
    let p = modulus();
    lemma_reduced_value(x.value() * y.value());
    lemma_mul_mod_noop_general(x.value(), y.value(), p);
    lemma_mul_mod_noop_general(a, b, p);
}

/// Field negation respects congruence modulo p.
pub proof fn lemma_fneg_cong(x: Scalar, a: int)
    requires
        x.value() % modulus() == a % modulus(),
    ensures
        fneg(x).value() % modulus() == (-a) % modulus(),
{
    let p = modulus();
    lemma_reduced_value(-x.value());
    lemma_sub_mod_noop(0, x.value(), p);
    lemma_sub_mod_noop(0, a, p);
    lemma_small_mod(0, p as nat);
}

} // verus!
