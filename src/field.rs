//! Arithmetic modulo the Mersenne prime 2^127 - 1.
use num_bigint::BigUint;
use num_bigint::RandBigInt;
use num_traits::ToPrimitive;
use vstd::prelude::*;

verus! {

/// The field modulus, 2^127 - 1.
pub const MODULUS: u128 = 0x7fff_ffff_ffff_ffff_ffff_ffff_ffff_ffff;

/// An element of the field: an integer in `[0, MODULUS)`.
pub open spec fn is_element(a: int) -> bool {
    0 <= a < MODULUS as int
}

/// `v` is a multiplicative inverse of `a` modulo `m`.
pub open spec fn is_inverse(a: int, v: int, m: int) -> bool {
    0 <= v < m && (a * v) % m == 1
}

/// Sum of two field elements.
pub fn add_mod(a: u128, b: u128) -> (r: u128)
    requires
        is_element(a as int),
        is_element(b as int),
    ensures
        r as int == (a + b) % (MODULUS as int),
{
    let s: u128 = a + b;
    if s >= MODULUS {
        s - MODULUS
    } else {
        s
    }
}

/// Difference of two field elements, `(a - b + p) mod p`.
pub fn sub_mod(a: u128, b: u128) -> (r: u128)
    requires
        is_element(a as int),
        is_element(b as int),
    ensures
        r as int == (a - b) % (MODULUS as int),
{
    if a >= b {
        a - b
    } else {
        MODULUS - b + a
    }
}

/// Relies on num_bigint's `BigUint` multiplication and remainder: the product
/// of `a` and `b` reduced modulo `m`.
#[verifier::external_body]
fn bigint_mul_mod(a: u128, b: u128, m: u128) -> (r: u128)
    requires
        m > 0,
    ensures
        r as int == (a * b) % (m as int),
{
    (BigUint::from(a) * BigUint::from(b) % BigUint::from(m)).to_u128().unwrap()
}

/// Product of two field elements.
pub(crate) fn mul_mod(a: u128, b: u128) -> (r: u128)
    requires
        is_element(a as int),
        is_element(b as int),
    ensures
        r as int == (a * b) % (MODULUS as int),
{
    bigint_mul_mod(a, b, MODULUS)
}

/// Relies on `BigUint::modinv`: the inverse of `a` modulo `m`, in `[0, m)`, when
/// one exists, and `None` otherwise.
#[verifier::external_body]
fn bigint_modinv(a: u128, m: u128) -> (r: Option<u128>)
    requires
        m > 1,
    ensures
        r is Some <==> exists|v: int| is_inverse(a as int, v, m as int),
        r is Some ==> is_inverse(a as int, r->0 as int, m as int),
{
    BigUint::from(a).modinv(&BigUint::from(m)).map(|v| v.to_u128().unwrap())
}

/// The inverse of `a` modulo the field prime, when there is one.
pub(crate) fn inverse(a: u128) -> (r: Option<u128>)
    ensures
        r is Some <==> exists|v: int| is_inverse(a as int, v, MODULUS as int),
        r is Some ==> is_inverse(a as int, r->0 as int, MODULUS as int),
{
    bigint_modinv(a, MODULUS)
}

/// Relies on num_bigint's `gen_biguint_range` over the operating system's random
/// source: a value drawn uniformly from `[lo, hi)`.
#[verifier::external_body]
fn random_in_range(lo: u128, hi: u128) -> (r: u128)
    requires
        lo < hi,
    ensures
        lo <= r < hi,
{
    let mut rng = rand::rngs::OsRng;
    rng.gen_biguint_range(&BigUint::from(lo), &BigUint::from(hi)).to_u128().unwrap()
}

/// A nonzero field element drawn uniformly at random.
pub(crate) fn random_nonzero_element() -> (r: u128)
    ensures
        0 < r < MODULUS,
{
    random_in_range(1, MODULUS)
}

} // verus!
