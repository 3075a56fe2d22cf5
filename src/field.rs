//! Elements of the Pallas base field, held as four little-endian 64-bit limbs.
//!
//! The arithmetic itself is done by `pasta_curves` (reached through
//! `halo2_proofs::pasta`); each operation is stated here as exact modular
//! arithmetic on the canonical representative.

use halo2_proofs::pasta::group::ff::PrimeFieldBits;
use halo2_proofs::pasta::Fp;
use vstd::prelude::*;

verus! {

/// A field element as the integer `l0 + l1 * 2^64 + l2 * 2^128 + l3 * 2^192`.
///
/// Any four limbs are accepted; the element they stand for is that integer
/// reduced modulo the field's modulus. Every result of an arithmetic operation
/// is in canonical form (below the modulus).
#[derive(Clone, Copy, Debug, PartialEq, Eq, Structural)]
pub struct Scalar {
    pub l0: u64,
    pub l1: u64,
    pub l2: u64,
    pub l3: u64,
}

/// `2^64`, the base of the limbs.
pub open spec fn limb_base() -> int {
    0x1_0000_0000_0000_0000
}

/// The modulus `0x40000000000000000000000000000000224698fc094cf91b992d30ed00000001`.
pub open spec fn modulus() -> int {
    0x992d30ed00000001int + 0x224698fc094cf91bint * limb_base()
        + 0x4000000000000000int * (limb_base() * limb_base() * limb_base())
}

/// The scalar whose limbs spell out `v`, for `0 <= v < 2^256`.
pub open spec fn canon(v: int) -> Scalar {
    let b = limb_base();
    Scalar {
        l0: (v % b) as u64,
        l1: ((v / b) % b) as u64,
        l2: ((v / b / b) % b) as u64,
        l3: ((v / b / b / b) % b) as u64,
    }
}

/// The field element `(a + b) mod p`.
pub open spec fn fadd(a: Scalar, b: Scalar) -> Scalar {
    canon((a.value() + b.value()) % modulus())
}

/// The field element `(a - b) mod p`.
pub open spec fn fsub(a: Scalar, b: Scalar) -> Scalar {
    canon((a.value() - b.value()) % modulus())
}

/// The field element `(a * b) mod p`.
pub open spec fn fmul(a: Scalar, b: Scalar) -> Scalar {
    canon((a.value() * b.value()) % modulus())
}

/// The field element `(-a) mod p`.
pub open spec fn fneg(a: Scalar) -> Scalar {
    canon((-a.value()) % modulus())
}

impl Scalar {
    /// The integer spelled by the limbs.
    pub open spec fn value(self) -> int {
        let b = limb_base();
        self.l0 + self.l1 * b + self.l2 * (b * b) + self.l3 * (b * b * b)
    }

    /// The additive identity.
    pub fn zero() -> (r: Scalar)
        ensures
            r.value() == 0,
            r == canon(0),
    {
        Scalar { l0: 0, l1: 0, l2: 0, l3: 0 }
    }

    /// The multiplicative identity.
    pub fn one() -> (r: Scalar)
        ensures
            r.value() == 1,
            r == canon(1),
    {
        Scalar { l0: 1, l1: 0, l2: 0, l3: 0 }
    }

    /// The element two.
    pub fn two() -> (r: Scalar)
        ensures
            r.value() == 2,
            r == canon(2),
    {
        Scalar { l0: 2, l1: 0, l2: 0, l3: 0 }
    }

    /// The element `v` (every `u64` is below the modulus).
    pub fn from_u64(v: u64) -> (r: Scalar)
        ensures
            r.value() == v,
            r == canon(v as int),
    {
        Scalar { l0: v, l1: 0, l2: 0, l3: 0 }
    }

    /// The scalar with the given little-endian limbs.
    pub fn from_raw(limbs: [u64; 4]) -> (r: Scalar)
        ensures
            r.l0 == limbs[0],
            r.l1 == limbs[1],
            r.l2 == limbs[2],
            r.l3 == limbs[3],
    {
        Scalar { l0: limbs[0], l1: limbs[1], l2: limbs[2], l3: limbs[3] }
    }
}

/// Relies on `Fp::from_raw` (an integer of four limbs to its congruent field
/// element), `Fp + Fp` (field addition) and `PrimeFieldBits::to_le_bits` (the
/// canonical limbs of an element).
#[verifier::external_body]
pub(crate) fn field_add(a: &Scalar, b: &Scalar) -> (r: Scalar)
    ensures
        r == fadd(*a, *b),
{
    let x = Fp::from_raw([a.l0, a.l1, a.l2, a.l3]) + Fp::from_raw([b.l0, b.l1, b.l2, b.l3]);
    let l = x.to_le_bits().into_inner();
    Scalar { l0: l[0], l1: l[1], l2: l[2], l3: l[3] }
}

/// Relies on `Fp::from_raw`, `Fp - Fp` (field subtraction) and
/// `PrimeFieldBits::to_le_bits`.
#[verifier::external_body]
pub(crate) fn field_sub(a: &Scalar, b: &Scalar) -> (r: Scalar)
    ensures
        r == fsub(*a, *b),
{
    let x = Fp::from_raw([a.l0, a.l1, a.l2, a.l3]) - Fp::from_raw([b.l0, b.l1, b.l2, b.l3]);
    let l = x.to_le_bits().into_inner();
    Scalar { l0: l[0], l1: l[1], l2: l[2], l3: l[3] }
}

/// Relies on `Fp::from_raw`, `Fp * Fp` (field multiplication) and
/// `PrimeFieldBits::to_le_bits`.
#[verifier::external_body]
pub(crate) fn field_mul(a: &Scalar, b: &Scalar) -> (r: Scalar)
    ensures
        r == fmul(*a, *b),
{
    let x = Fp::from_raw([a.l0, a.l1, a.l2, a.l3]) * Fp::from_raw([b.l0, b.l1, b.l2, b.l3]);
    let l = x.to_le_bits().into_inner();
    Scalar { l0: l[0], l1: l[1], l2: l[2], l3: l[3] }
}

/// Relies on `Fp::from_raw`, `Fp::square` (the element times itself) and
/// `PrimeFieldBits::to_le_bits`.
#[verifier::external_body]
pub(crate) fn field_square(a: &Scalar) -> (r: Scalar)
    ensures
        r == fmul(*a, *a),
{
    let x = Fp::from_raw([a.l0, a.l1, a.l2, a.l3]).square();
    let l = x.to_le_bits().into_inner();
    Scalar { l0: l[0], l1: l[1], l2: l[2], l3: l[3] }
}

/// Relies on `Fp::from_raw`, `Fp::double` (the element plus itself) and
/// `PrimeFieldBits::to_le_bits`.
#[verifier::external_body]
pub(crate) fn field_double(a: &Scalar) -> (r: Scalar)
    ensures
        r == fadd(*a, *a),
{
    let x = Fp::from_raw([a.l0, a.l1, a.l2, a.l3]).double();
    let l = x.to_le_bits().into_inner();
    Scalar { l0: l[0], l1: l[1], l2: l[2], l3: l[3] }
}

/// Relies on `Fp::from_raw`, `-Fp` (the additive inverse) and
/// `PrimeFieldBits::to_le_bits`.
#[verifier::external_body]
pub(crate) fn field_neg(a: &Scalar) -> (r: Scalar)
    ensures
        r == fneg(*a),
{
    let x = -Fp::from_raw([a.l0, a.l1, a.l2, a.l3]);
    let l = x.to_le_bits().into_inner();
    Scalar { l0: l[0], l1: l[1], l2: l[2], l3: l[3] }
}

} // verus!
