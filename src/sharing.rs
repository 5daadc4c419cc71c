//! Threshold secret sharing: shares are points of a random polynomial whose
//! constant term is the secret; Lagrange interpolation at zero recovers it.
use crate::error::BunkeysError;
use crate::field::{add_mod, inverse, is_element, is_inverse, mul_mod, sub_mod, MODULUS};
use crate::polynomial::{all_elements, poly_value, Polynom};
use vstd::arithmetic::div_mod::{
    lemma_mod_twice,
    lemma_mul_mod_noop,
    lemma_mul_mod_noop_left,
    lemma_mul_mod_noop_right,
};
use vstd::arithmetic::mul::lemma_mul_is_associative;
use vstd::prelude::*;

verus! {

/// The product of `x_j` over `j < n`, `j != i`.
pub open spec fn num_product(pts: Seq<(u128, u128)>, i: int, n: nat) -> int
    decreases n,
{
    if n == 0 {
        1
    } else {
        num_product(pts, i, (n - 1) as nat) * (if n - 1 == i {
            1
        } else {
            pts[n - 1].0 as int
        })
    }
}

/// The product of `x_j - x_i` over `j < n`, `j != i`.
pub open spec fn den_product(pts: Seq<(u128, u128)>, i: int, n: nat) -> int
    decreases n,
{
    if n == 0 {
        1
    } else {
        den_product(pts, i, (n - 1) as nat) * (if n - 1 == i {
            1
        } else {
            pts[n - 1].0 - pts[i].0
        })
    }
}

/// `a` has an inverse modulo the field prime.
pub open spec fn invertible(a: int) -> bool {
    exists|v: int| is_inverse(a, v, MODULUS as int)
}

/// The inverse of `a` modulo the field prime (unique where it exists).
pub open spec fn field_inverse(a: int) -> int {
    choose|v: int| is_inverse(a, v, MODULUS as int)
}

/// Share `i`'s contribution to the value at zero: `y_i` times its Lagrange
/// basis polynomial at zero, `prod(x_j) / prod(x_j - x_i)`, modulo the prime.
pub open spec fn lagrange_term(pts: Seq<(u128, u128)>, i: int) -> int {
    let p = MODULUS as int;
    let n = pts.len();
    (pts[i].1 * (num_product(pts, i, n) % p) * field_inverse(den_product(pts, i, n) % p)) % p
}

/// The sum of the first `n` Lagrange terms, modulo the prime.
pub open spec fn lagrange_sum(pts: Seq<(u128, u128)>, n: nat) -> int
    decreases n,
{
    if n == 0 {
        0
    } else {
        (lagrange_sum(pts, (n - 1) as nat) + lagrange_term(pts, n - 1)) % (MODULUS as int)
    }
}

/// What reconstruction from `pts` gives: the interpolated constant term, or
/// the first error met.
pub open spec fn reconstruct_result(pts: Seq<(u128, u128)>) -> Result<u128, BunkeysError> {
    let n = pts.len();
    if exists|i: int|
        0 <= i < n && (!is_element(#[trigger] pts[i].0 as int) || !is_element(pts[i].1 as int)) {
        Err(BunkeysError::ShareOutOfRange)
    } else if exists|i: int, j: int|
        0 <= i < n && 0 <= j < n && i != j && #[trigger] pts[i].0 == #[trigger] pts[j].0 {
        Err(BunkeysError::DuplicateShareIndex)
    } else if exists|i: int|
        0 <= i < n && !invertible(#[trigger] den_product(pts, i, n) % (MODULUS as int)) {
        Err(BunkeysError::NotInvertible)
    } else {
        Ok(lagrange_sum(pts, n) as u128)
    }
}

/// The shares `(k, f(k))`, `k = 1, ..., n`, of the polynomial with coefficients `c`.
pub open spec fn shares_of(c: Seq<u128>, n: nat) -> Seq<(u128, u128)> {
    Seq::new(n, |k: int| ((k + 1) as u128, (poly_value(c, k + 1) % (MODULUS as int)) as u128))
}

/// A field element has at most one inverse.
pub proof fn lemma_inverse_unique(a: int, v: int, w: int)
    requires
        is_inverse(a, v, MODULUS as int),
        is_inverse(a, w, MODULUS as int),
    ensures
        v == w,
{
    let p = MODULUS as int;
    lemma_mul_mod_noop_right(v, a * w, p);
    lemma_mul_mod_noop_left(v * a, w, p);
    lemma_mul_is_associative(v, a, w);
    assert(v * a == a * v) by (nonlinear_arith);
}

/// Reconstruct the secret, the constant term of the shared polynomial, from
/// shares by Lagrange interpolation at zero.
pub fn get_polynom_constant_value(points: &[(u128, u128)]) -> (r: Result<u128, BunkeysError>)
    ensures
        r == reconstruct_result(points@),
{
    let ghost pts = points@;
    let ghost p = MODULUS as int;
    let n = points.len();
    let mut i: usize = 0;
    while i < n
        invariant
            i <= n,
            n == pts.len(),
            pts == points@,
            forall|k: int|
                0 <= k < i ==> is_element(#[trigger] pts[k].0 as int) && is_element(
                    pts[k].1 as int,
                ),
        decreases n - i,
    {
        if points[i].0 >= MODULUS || points[i].1 >= MODULUS {
            assert(!is_element(pts[i as int].0 as int) || !is_element(pts[i as int].1 as int));
            return Err(BunkeysError::ShareOutOfRange);
        }
        assert(is_element(pts[i as int].0 as int) && is_element(pts[i as int].1 as int));
        i = i + 1;
    }
    let mut i: usize = 0;
    while i < n
        invariant
            i <= n,
            n == pts.len(),
            pts == points@,
            forall|k: int|
                0 <= k < n ==> is_element(#[trigger] pts[k].0 as int) && is_element(
                    pts[k].1 as int,
                ),
            forall|a: int, b: int|
                0 <= a < i && 0 <= b < n && a != b ==> #[trigger] pts[a].0 != #[trigger] pts[b].0,
        decreases n - i,
    {
        let mut j: usize = 0;
        while j < n
            invariant
                i < n,
                j <= n,
                n == pts.len(),
                pts == points@,
                forall|k: int|
                    0 <= k < n ==> is_element(#[trigger] pts[k].0 as int) && is_element(
                        pts[k].1 as int,
                    ),
                forall|a: int, b: int|
                    0 <= a < i && 0 <= b < n && a != b ==> #[trigger] pts[a].0
                        != #[trigger] pts[b].0,
                forall|b: int| 0 <= b < j && b != i ==> pts[i as int].0 != #[trigger] pts[b].0,
            decreases n - j,
        {
            if j != i && points[i].0 == points[j].0 {
                assert(pts[i as int].0 == pts[j as int].0);
                return Err(BunkeysError::DuplicateShareIndex);
            }
            j = j + 1;
        }
        i = i + 1;
    }
    let mut secret: u128 = 0;
    let mut i: usize = 0;
    while i < n
        invariant
            i <= n,
            n == pts.len(),
            pts == points@,
            p == MODULUS as int,
            forall|a: int, b: int|
                0 <= a < n && 0 <= b < n && a != b ==> #[trigger] pts[a].0 != #[trigger] pts[b].0,
            forall|k: int|
                0 <= k < n ==> is_element(#[trigger] pts[k].0 as int) && is_element(
                    pts[k].1 as int,
                ),
            forall|k: int| 0 <= k < i ==> invertible(#[trigger] den_product(pts, k, n as nat) % p),
            secret as int == lagrange_sum(pts, i as nat),
        decreases n - i,
    {
        let xi = points[i].0;
        let yi = points[i].1;
        let mut numerator: u128 = 1;
        let mut denominator: u128 = 1;
        let mut j: usize = 0;
        while j < n
            invariant
                i < n,
                j <= n,
                n == pts.len(),
                pts == points@,
                p == MODULUS as int,
                forall|a: int, b: int|
                    0 <= a < n && 0 <= b < n && a != b ==> #[trigger] pts[a].0 != #[trigger] pts[b].0,
                xi == pts[i as int].0,
                forall|k: int|
                    0 <= k < n ==> is_element(#[trigger] pts[k].0 as int) && is_element(
                        pts[k].1 as int,
                    ),
                numerator as int == num_product(pts, i as int, j as nat) % p,
                denominator as int == den_product(pts, i as int, j as nat) % p,
            decreases n - j,
        {
            if j != i {
                let xj = points[j].0;
                let ghost np = num_product(pts, i as int, j as nat);
                let ghost dp = den_product(pts, i as int, j as nat);
                proof {
                    assert(is_element(pts[j as int].0 as int));
                    lemma_mul_mod_noop_left(np, xj as int, p);
                    lemma_mul_mod_noop(dp, xj - xi, p);
                    lemma_mod_twice(dp, p);
                }
                let diff = sub_mod(xj, xi);
                numerator = mul_mod(numerator, xj);
                denominator = mul_mod(denominator, diff);
            }
            j = j + 1;
        }
        let inv = match inverse(denominator) {
            Some(v) => v,
            None => {
                assert(!invertible(den_product(pts, i as int, n as nat) % p));
                return Err(BunkeysError::NotInvertible);
            },
        };
        proof {
            let d = den_product(pts, i as int, n as nat) % p;
            lemma_inverse_unique(d, inv as int, field_inverse(d));
            let np = num_product(pts, i as int, n as nat);
            lemma_mul_mod_noop_left(yi * (np % p), inv as int, p);
        }
        let coef = mul_mod(mul_mod(yi, numerator), inv);
        secret = add_mod(secret, coef);
        i = i + 1;
    }
    proof {
        assert(reconstruct_result(pts) == Ok::<u128, BunkeysError>(secret));
    }
    Ok(secret)
}

/// Split `secret` into `count` shares, any `threshold` of which determine it:
/// the shares are the points `x = 1, ..., count` of a random polynomial of
/// degree `threshold - 1` whose constant term is the secret and whose other
/// coefficients are nonzero.
pub fn split_secret(secret: u128, threshold: usize, count: usize) -> (r: Result<
    Vec<(u128, u128)>,
    BunkeysError,
>)
    requires
        1 <= threshold,
    ensures
        r is Ok <==> is_element(secret as int),
        r matches Err(e) ==> e == BunkeysError::SecretTooLarge,
        r matches Ok(shares) ==> exists|c: Seq<u128>|
            {
                &&& c.len() == threshold
                &&& c[0] == secret
                &&& forall|i: int| 1 <= i < c.len() ==> 0 < #[trigger] c[i] < MODULUS
                &&& shares@ == shares_of(c, count as nat)
            },
{
    if secret >= MODULUS {
        return Err(BunkeysError::SecretTooLarge);
    }
    let polynom = Polynom::new_random_of_degree_with_constant_term(threshold - 1, secret);
    proof {
        assert(all_elements(polynom.coefficients@));
    }
    let shares = polynom.get_firsts_n_points(count);
    proof {
        assert(shares@ =~= shares_of(polynom.coefficients@, count as nat));
    }
    Ok(shares)
}

} // verus!
