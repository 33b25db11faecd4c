//! Elements of the Pallas base field, held as their canonical little-endian
//! encoding. The arithmetic itself is done by `halo2_proofs::pasta::Fp`.

use vstd::prelude::*;
use halo2_proofs::pasta::Fp;
use halo2_proofs::pasta::group::ff::PrimeField;

verus! {

/// The prime `p` of the Pallas base field.
pub open spec fn modulus() -> int {
    0x40000000000000000000000000000000224698fc094cf91b992d30ed00000001int
}

/// The natural number that a little-endian byte string encodes.
pub open spec fn le_value(bytes: Seq<u8>) -> nat
    decreases bytes.len(),
{
    if bytes.len() == 0 {
        0
    } else {
        bytes[0] as nat + 256 * le_value(bytes.drop_first())
    }
}

/// A field element: the canonical encoding of a residue modulo `modulus()`.
#[derive(Clone, Copy, Debug)]
pub struct Fe {
    repr: [u8; 32],
}

impl View for Fe {
    type V = int;

    closed spec fn view(&self) -> int {
        le_value(self.repr@) as int % modulus()
    }
}

impl Fe {
    #[verifier::type_invariant]
    spec fn canonical(self) -> bool {
        le_value(self.repr@) < modulus()
    }

    /// Every element is a residue below the modulus.
    pub proof fn lemma_in_range(x: Fe)
        ensures
            0 <= x@ < modulus(),
    {
    }

    /// The element equal to `n`.
    pub fn from_u64(n: u64) -> (r: Fe)
        ensures
            r@ == n,
    {
        fp_from_u64(n)
    }

    pub fn zero() -> (r: Fe)
        ensures
            r@ == 0,
    {
        fp_from_u64(0)
    }

    pub fn one() -> (r: Fe)
        ensures
            r@ == 1,
    {
        fp_from_u64(1)
    }

    /// `self + other` in the field.
    pub fn add(&self, other: &Fe) -> (r: Fe)
        ensures
            r@ == (self@ + other@) % modulus(),
    {
        fp_add(self, other)
    }

    /// `self - other` in the field.
    pub fn sub(&self, other: &Fe) -> (r: Fe)
        ensures
            r@ == (self@ - other@) % modulus(),
    {
        fp_sub(self, other)
    }

    /// `self * other` in the field.
    pub fn mul(&self, other: &Fe) -> (r: Fe)
        ensures
            r@ == (self@ * other@) % modulus(),
    {
        fp_mul(self, other)
    }

    /// Whether the two elements are the same residue.
    pub fn equals(&self, other: &Fe) -> (r: bool)
        ensures
            r == (self@ == other@),
    {
        fp_eq(self, other)
    }

    /// The canonical little-endian encoding.
    pub fn to_bytes(&self) -> (r: [u8; 32])
        ensures
            le_value(r@) as int == self@,
    {
        proof {
            use_type_invariant(self);
        }
        self.repr
    }
}

/// Relies on `From<u64> for Fp` (with `PrimeField::to_repr`): the element equal
/// to `n`, which lies below the modulus.
#[verifier::external_body]
fn fp_from_u64(n: u64) -> (r: Fe)
    ensures
        r@ == n,
{
    Fe { repr: Fp::from(n).to_repr() }
}

/// Relies on `Add for Fp` (with `PrimeField::from_repr` / `to_repr`): the sum
/// reduced modulo the field prime.
#[verifier::external_body]
fn fp_add(a: &Fe, b: &Fe) -> (r: Fe)
    ensures
        r@ == (a@ + b@) % modulus(),
{
    let x = Fp::from_repr(a.repr).unwrap();
    let y = Fp::from_repr(b.repr).unwrap();
    Fe { repr: (x + y).to_repr() }
}

/// Relies on `Sub for Fp` (with `PrimeField::from_repr` / `to_repr`): the
/// difference reduced modulo the field prime.
#[verifier::external_body]
fn fp_sub(a: &Fe, b: &Fe) -> (r: Fe)
    ensures
        r@ == (a@ - b@) % modulus(),
{
    let x = Fp::from_repr(a.repr).unwrap();
    let y = Fp::from_repr(b.repr).unwrap();
    Fe { repr: (x - y).to_repr() }
}

/// Relies on `Mul for Fp` (with `PrimeField::from_repr` / `to_repr`): the
/// product reduced modulo the field prime.
#[verifier::external_body]
fn fp_mul(a: &Fe, b: &Fe) -> (r: Fe)
    ensures
        r@ == (a@ * b@) % modulus(),
{
    let x = Fp::from_repr(a.repr).unwrap();
    let y = Fp::from_repr(b.repr).unwrap();
    Fe { repr: (x * y).to_repr() }
}

/// Relies on `PartialEq for Fp` (with `PrimeField::from_repr`): equality of
/// residues.
#[verifier::external_body]
fn fp_eq(a: &Fe, b: &Fe) -> (r: bool)
    ensures
        r == (a@ == b@),
{
    let x = Fp::from_repr(a.repr).unwrap();
    let y = Fp::from_repr(b.repr).unwrap();
    x == y
}

} // verus!
